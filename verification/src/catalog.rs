//! Service catalogue selection: the pure steps of the interactive
//! configuration flow — listing the selectable services, computing which
//! are already configured, and partitioning a selection into portal
//! references and RPC service bindings.

use crate::keys::{dependency_key, spec_dependency_key};
use crate::references::entries_view;
use crate::resolver::vec_contains_string;
use vstd::prelude::*;

verus! {

/// A service as the catalogue lists it for selection.
#[derive(Debug, Clone)]
pub struct ServiceSummary {
    pub identifier: String,
    pub organization_id: String,
    pub service_type: Option<String>,
    pub envs: Vec<(String, String)>,
}

/// The service type naming a portal.
pub open spec fn portal_type_label() -> Seq<char> {
    seq!['P', 'o', 'r', 't', 'a', 'l']
}

/// The service type naming an RPC endpoint.
pub open spec fn rpc_type_label() -> Seq<char> {
    seq!['R', 'P', 'C', 'E', 'n', 'd', 'p', 'o', 'i', 'n', 't']
}

/// Bare identifiers of every service other than the current project.
pub open spec fn spec_service_identifiers(
    services: Seq<ServiceSummary>,
    current: Seq<char>,
) -> Seq<Seq<char>>
    decreases services.len(),
{
    if services.len() == 0 {
        Seq::empty()
    } else {
        spec_service_identifiers(services.drop_last(), current) + (if services.last().identifier@
            != current {
            seq![services.last().identifier@]
        } else {
            Seq::empty()
        })
    }
}

/// Display keys `@org/identifier` of every service other than the
/// current project, in the same order as the bare identifiers.
pub open spec fn spec_display_names(
    services: Seq<ServiceSummary>,
    current: Seq<char>,
) -> Seq<Seq<char>>
    decreases services.len(),
{
    if services.len() == 0 {
        Seq::empty()
    } else {
        spec_display_names(services.drop_last(), current) + (if services.last().identifier@
            != current {
            seq![
                spec_dependency_key(
                    services.last().organization_id@,
                    services.last().identifier@,
                ),
            ]
        } else {
            Seq::empty()
        })
    }
}

/// Positions of the names already configured as a service or a portal.
pub open spec fn spec_default_indices(
    names: Seq<Seq<char>>,
    service_keys: Seq<Seq<char>>,
    portal_keys: Seq<Seq<char>>,
) -> Seq<int>
    decreases names.len(),
{
    if names.len() == 0 {
        Seq::empty()
    } else {
        spec_default_indices(names.drop_last(), service_keys, portal_keys) + (if service_keys.contains(
            names.last(),
        ) || portal_keys.contains(names.last()) {
            seq![names.len() - 1]
        } else {
            Seq::empty()
        })
    }
}

/// First catalogue entry whose display key equals `name`.
pub open spec fn spec_find_service(services: Seq<ServiceSummary>, name: Seq<char>) -> Option<
    ServiceSummary,
>
    decreases services.len(),
{
    if services.len() == 0 {
        None
    } else if spec_dependency_key(
        services.first().organization_id@,
        services.first().identifier@,
    ) == name {
        Some(services.first())
    } else {
        spec_find_service(services.drop_first(), name)
    }
}

/// Whether an optional service type names the given kind.
pub open spec fn type_is(t: Option<String>, label: Seq<char>) -> bool {
    match t {
        Some(s) => s@ == label,
        None => false,
    }
}

/// The portal entry a selected name contributes: its name with the
/// environment URL map of the matching portal service, if any.
pub open spec fn spec_portal_entry(services: Seq<ServiceSummary>, name: Seq<char>) -> Option<
    (Seq<char>, Seq<(Seq<char>, Seq<char>)>),
> {
    match spec_find_service(services, name) {
        Some(s) => if type_is(s.service_type, portal_type_label()) {
            Some((name, entries_view(s.envs@)))
        } else {
            None
        },
        None => None,
    }
}

/// The RPC entry a selected name contributes, if any.
pub open spec fn spec_rpc_entry(services: Seq<ServiceSummary>, name: Seq<char>) -> Option<
    (Seq<char>, Seq<(Seq<char>, Seq<char>)>),
> {
    match spec_find_service(services, name) {
        Some(s) => if type_is(s.service_type, rpc_type_label()) {
            Some((name, entries_view(s.envs@)))
        } else {
            None
        },
        None => None,
    }
}

/// Portal entries of a whole selection, in selection order.
pub open spec fn spec_selected_portals(
    services: Seq<ServiceSummary>,
    selected: Seq<Seq<char>>,
) -> Seq<(Seq<char>, Seq<(Seq<char>, Seq<char>)>)>
    decreases selected.len(),
{
    if selected.len() == 0 {
        Seq::empty()
    } else {
        spec_selected_portals(services, selected.drop_last()) + (match spec_portal_entry(
            services,
            selected.last(),
        ) {
            Some(e) => seq![e],
            None => Seq::empty(),
        })
    }
}

/// RPC entries of a whole selection, in selection order.
pub open spec fn spec_selected_rpcs(
    services: Seq<ServiceSummary>,
    selected: Seq<Seq<char>>,
) -> Seq<(Seq<char>, Seq<(Seq<char>, Seq<char>)>)>
    decreases selected.len(),
{
    if selected.len() == 0 {
        Seq::empty()
    } else {
        spec_selected_rpcs(services, selected.drop_last()) + (match spec_rpc_entry(
            services,
            selected.last(),
        ) {
            Some(e) => seq![e],
            None => Seq::empty(),
        })
    }
}

/// Mathematical value of a name-to-environment-map list.
pub open spec fn bindings_view(m: Seq<(String, Vec<(String, String)>)>) -> Seq<
    (Seq<char>, Seq<(Seq<char>, Seq<char>)>),
> {
    m.map_values(|e: (String, Vec<(String, String)>)| (e.0@, entries_view(e.1@)))
}

/// Bare identifiers of the selectable services, the current project left
/// out.
pub fn service_identifiers(services: &Vec<ServiceSummary>, current: &String) -> (r: Vec<String>)
    ensures
        r.deep_view() == spec_service_identifiers(services@, current@),
{
    let n = services.len();
    let mut out: Vec<String> = Vec::new();
    let mut i: usize = 0;
    proof {
        assert(services@.take(0) =~= Seq::<ServiceSummary>::empty());
        assert(out.deep_view() =~= spec_service_identifiers(services@.take(0), current@));
    }
    while i < n
        invariant
            i <= n,
            n == services@.len(),
            out.deep_view() == spec_service_identifiers(services@.take(i as int), current@),
        decreases n - i,
    {
        let ghost pre = out.deep_view();
        proof {
            assert(services@.take(i as int + 1).drop_last() =~= services@.take(i as int));
            assert(services@.take(i as int + 1).last() == services@[i as int]);
        }
        if !services[i].identifier.eq(current) {
            out.push(services[i].identifier.clone());
            proof {
                assert(out.deep_view() =~= pre + seq![services@[i as int].identifier@]);
            }
        } else {
            proof {
                assert(out.deep_view() =~= pre + Seq::<Seq<char>>::empty());
            }
        }
        i += 1;
    }
    proof {
        assert(services@.take(n as int) =~= services@);
    }
    out
}

/// Display keys `@org/identifier` of the selectable services, the
/// current project left out.
pub fn service_display_names(services: &Vec<ServiceSummary>, current: &String) -> (r: Vec<String>)
    ensures
        r.deep_view() == spec_display_names(services@, current@),
{
    let n = services.len();
    let mut out: Vec<String> = Vec::new();
    let mut i: usize = 0;
    proof {
        assert(services@.take(0) =~= Seq::<ServiceSummary>::empty());
        assert(out.deep_view() =~= spec_display_names(services@.take(0), current@));
    }
    while i < n
        invariant
            i <= n,
            n == services@.len(),
            out.deep_view() == spec_display_names(services@.take(i as int), current@),
        decreases n - i,
    {
        let ghost pre = out.deep_view();
        proof {
            assert(services@.take(i as int + 1).drop_last() =~= services@.take(i as int));
            assert(services@.take(i as int + 1).last() == services@[i as int]);
        }
        if !services[i].identifier.eq(current) {
            let key = dependency_key(&services[i].organization_id, &services[i].identifier);
            out.push(key);
            proof {
                assert(out.deep_view() =~= pre + seq![
                    spec_dependency_key(
                        services@[i as int].organization_id@,
                        services@[i as int].identifier@,
                    ),
                ]);
            }
        } else {
            proof {
                assert(out.deep_view() =~= pre + Seq::<Seq<char>>::empty());
            }
        }
        i += 1;
    }
    proof {
        assert(services@.take(n as int) =~= services@);
    }
    out
}

/// Positions in `names` of the entries already configured as a service
/// or a portal, the pre-selection shown by the prompt.
pub fn default_selection_indices(
    names: &Vec<String>,
    service_keys: &Vec<String>,
    portal_keys: &Vec<String>,
) -> (r: Vec<usize>)
    ensures
        r@.map_values(|x: usize| x as int) == spec_default_indices(
            names.deep_view(),
            service_keys.deep_view(),
            portal_keys.deep_view(),
        ),
{
    let n = names.len();
    let mut out: Vec<usize> = Vec::new();
    let mut i: usize = 0;
    proof {
        assert(names.deep_view().take(0) =~= Seq::<Seq<char>>::empty());
        assert(out@.map_values(|x: usize| x as int) =~= spec_default_indices(
            names.deep_view().take(0),
            service_keys.deep_view(),
            portal_keys.deep_view(),
        ));
    }
    while i < n
        invariant
            i <= n,
            n == names@.len(),
            out@.map_values(|x: usize| x as int) == spec_default_indices(
                names.deep_view().take(i as int),
                service_keys.deep_view(),
                portal_keys.deep_view(),
            ),
        decreases n - i,
    {
        let ghost pre = out@.map_values(|x: usize| x as int);
        proof {
            assert(names.deep_view().take(i as int + 1).drop_last() =~= names.deep_view().take(
                i as int,
            ));
            assert(names.deep_view().take(i as int + 1).last() == names.deep_view()[i as int]);
        }
        let hit = vec_contains_string(service_keys, &names[i]) || vec_contains_string(
            portal_keys,
            &names[i],
        );
        if hit {
            out.push(i);
            proof {
                assert(out@.map_values(|x: usize| x as int) =~= pre + seq![i as int]);
            }
        } else {
            proof {
                assert(out@.map_values(|x: usize| x as int) =~= pre + Seq::<int>::empty());
            }
        }
        i += 1;
    }
    proof {
        assert(names.deep_view().take(n as int) =~= names.deep_view());
    }
    out
}

/// Copies a name-to-URL environment list.
fn clone_env_pairs(envs: &Vec<(String, String)>) -> (r: Vec<(String, String)>)
    ensures
        r@ == envs@,
{
    let n = envs.len();
    let mut r: Vec<(String, String)> = Vec::new();
    let mut i: usize = 0;
    while i < n
        invariant
            i <= n,
            n == envs@.len(),
            r@ == envs@.subrange(0, i as int),
        decreases n - i,
    {
        r.push((envs[i].0.clone(), envs[i].1.clone()));
        proof {
            assert(r@ =~= envs@.subrange(0, i + 1 as int));
        }
        i += 1;
    }
    proof {
        assert(r@ =~= envs@);
    }
    r
}

/// Index of the first catalogue entry whose display key equals `name`.
fn find_service_index(services: &Vec<ServiceSummary>, name: &String) -> (r: Option<usize>)
    ensures
        (match r {
            Some(i) => i < services@.len() && spec_find_service(services@, name@) == Some(
                services@[i as int],
            ),
            None => spec_find_service(services@, name@).is_none(),
        }),
{
    let ghost sv = services@;
    proof {
        assert(sv.skip(0) =~= sv);
    }
    let n = services.len();
    let mut i: usize = 0;
    while i < n
        invariant
            i <= n,
            n == sv.len(),
            sv == services@,
            spec_find_service(sv, name@) == spec_find_service(sv.skip(i as int), name@),
        decreases n - i,
    {
        proof {
            assert(sv.skip(i as int).first() == sv[i as int]);
            assert(sv.skip(i as int).drop_first() =~= sv.skip(i as int + 1));
        }
        let key = dependency_key(&services[i].organization_id, &services[i].identifier);
        if key.eq(name) {
            return Some(i);
        }
        i += 1;
    }
    proof {
        assert(sv.skip(n as int) =~= Seq::<ServiceSummary>::empty());
    }
    None
}

/// Whether an optional service type names the given kind.
fn type_matches(t: &Option<String>, label: &String) -> (r: bool)
    ensures
        r == (match t {
            Some(s) => s@ == label@,
            None => false,
        }),
{
    match t {
        Some(s) => s.eq(label),
        None => false,
    }
}

/// Splits a selection into portal references and RPC service bindings,
/// each name paired with the environment URL map of the service it
/// names.  A name naming no catalogue entry, or one of another service
/// type, lands in neither list.
pub fn partition_selected(selected: &Vec<String>, services: &Vec<ServiceSummary>) -> (r: (
    Vec<(String, Vec<(String, String)>)>,
    Vec<(String, Vec<(String, String)>)>,
))
    ensures
        bindings_view(r.0@) == spec_selected_portals(services@, selected.deep_view()),
        bindings_view(r.1@) == spec_selected_rpcs(services@, selected.deep_view()),
{
    let portal_label = String::from_str("Portal");
    let rpc_label = String::from_str("RPCEndpoint");
    proof {
        reveal_strlit("Portal");
        reveal_strlit("RPCEndpoint");
        assert(portal_label@ =~= portal_type_label());
        assert(rpc_label@ =~= rpc_type_label());
    }
    let n = selected.len();
    let mut portals: Vec<(String, Vec<(String, String)>)> = Vec::new();
    let mut rpcs: Vec<(String, Vec<(String, String)>)> = Vec::new();
    let mut i: usize = 0;
    proof {
        assert(selected.deep_view().take(0) =~= Seq::<Seq<char>>::empty());
        assert(bindings_view(portals@) =~= spec_selected_portals(
            services@,
            selected.deep_view().take(0),
        ));
        assert(bindings_view(rpcs@) =~= spec_selected_rpcs(
            services@,
            selected.deep_view().take(0),
        ));
    }
    while i < n
        invariant
            i <= n,
            n == selected@.len(),
            portal_label@ == portal_type_label(),
            rpc_label@ == rpc_type_label(),
            bindings_view(portals@) == spec_selected_portals(
                services@,
                selected.deep_view().take(i as int),
            ),
            bindings_view(rpcs@) == spec_selected_rpcs(
                services@,
                selected.deep_view().take(i as int),
            ),
        decreases n - i,
    {
        let ghost portals_pre = bindings_view(portals@);
        let ghost rpcs_pre = bindings_view(rpcs@);
        proof {
            assert(selected.deep_view().take(i as int + 1).drop_last() =~= selected.deep_view()
                .take(i as int));
            assert(selected.deep_view().take(i as int + 1).last() == selected.deep_view()[
                i as int
            ]);
        }
        match find_service_index(services, &selected[i]) {
            Some(si) => {
                let svc = &services[si];
                if type_matches(&svc.service_type, &portal_label) {
                    let envs = clone_env_pairs(&svc.envs);
                    portals.push((selected[i].clone(), envs));
                    proof {
                        assert(bindings_view(portals@) =~= portals_pre + seq![
                            (
                                selected.deep_view()[i as int],
                                entries_view(services@[si as int].envs@),
                            ),
                        ]);
                        assert(bindings_view(rpcs@) =~= rpcs_pre + Seq::<
                            (Seq<char>, Seq<(Seq<char>, Seq<char>)>),
                        >::empty());
                    }
                } else if type_matches(&svc.service_type, &rpc_label) {
                    let envs = clone_env_pairs(&svc.envs);
                    rpcs.push((selected[i].clone(), envs));
                    proof {
                        assert(bindings_view(rpcs@) =~= rpcs_pre + seq![
                            (
                                selected.deep_view()[i as int],
                                entries_view(services@[si as int].envs@),
                            ),
                        ]);
                        assert(bindings_view(portals@) =~= portals_pre + Seq::<
                            (Seq<char>, Seq<(Seq<char>, Seq<char>)>),
                        >::empty());
                    }
                } else {
                    proof {
                        assert(bindings_view(portals@) =~= portals_pre + Seq::<
                            (Seq<char>, Seq<(Seq<char>, Seq<char>)>),
                        >::empty());
                        assert(bindings_view(rpcs@) =~= rpcs_pre + Seq::<
                            (Seq<char>, Seq<(Seq<char>, Seq<char>)>),
                        >::empty());
                    }
                }
            },
            None => {
                proof {
                    assert(bindings_view(portals@) =~= portals_pre + Seq::<
                        (Seq<char>, Seq<(Seq<char>, Seq<char>)>),
                    >::empty());
                    assert(bindings_view(rpcs@) =~= rpcs_pre + Seq::<
                        (Seq<char>, Seq<(Seq<char>, Seq<char>)>),
                    >::empty());
                }
            },
        }
        i += 1;
    }
    proof {
        assert(selected.deep_view().take(n as int) =~= selected.deep_view());
    }
    (portals, rpcs)
}

} // verus!
