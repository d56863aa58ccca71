//! Dependency graph builder: merges the three remote listings of one
//! organization — packages, services and schemas — into a single keyed
//! dependency map, plus the side maps (origin repository, entity kind)
//! that CI dispatch and status reporting need.
//!
//! A service's effective dependency list is its declared list plus a
//! synthesized edge to every schema whose identifier matches its
//! database, cache or message-queue schema reference.  Schemas appear
//! only as dependency values, never as keys of their own.

use crate::keys::{dependency_key, spec_dependency_key, spec_extract_username_and_repo,
    extract_username_and_repo};
use crate::resolver::{clone_string_vec, graph_insert, DependencyGraph};
use vstd::prelude::*;

verus! {

/// A package as the registry lists it.
#[derive(Debug, Clone)]
pub struct PackageListing {
    pub identifier: String,
    pub dependencies: Vec<String>,
    pub repo_origin: Option<String>,
}

/// A service as the registry lists it.
#[derive(Debug, Clone)]
pub struct ServiceListing {
    pub identifier: String,
    pub dependencies: Vec<String>,
    pub db_schema_id: Option<String>,
    pub cache_schema_id: Option<String>,
    pub message_queue_schema_id: Option<String>,
    pub repo_origin: Option<String>,
}

/// A schema as the registry lists it: a leaf of the graph.
#[derive(Debug, Clone)]
pub struct SchemaListing {
    pub identifier: String,
    pub name: String,
}

/// Whether a graph key belongs to a package or a service.
#[derive(Debug, Clone, Copy, PartialEq, Eq, Structural)]
pub enum EntityKind {
    Package,
    Service,
}

/// The merged result: the dependency map and the two side maps.
pub struct GraphBundle {
    pub graph: DependencyGraph,
    pub repos: Vec<(String, Option<(String, String)>)>,
    pub kinds: Vec<(String, EntityKind)>,
}

/// Owner and repository split out of an optional origin URL; `None` when
/// the origin is absent or not of the expected shape.
pub open spec fn spec_origin_split(origin: Option<String>) -> Option<(Seq<char>, Seq<char>)> {
    match origin {
        Some(url) => spec_extract_username_and_repo(url@),
        None => None,
    }
}

/// Whether a schema is referenced by the service as its database, cache
/// or message-queue schema.
pub open spec fn spec_schema_matches(svc: ServiceListing, sch: SchemaListing) -> bool {
    ||| (match svc.db_schema_id {
        Some(s) => s@ == sch.identifier@,
        None => false,
    })
    ||| (match svc.message_queue_schema_id {
        Some(s) => s@ == sch.identifier@,
        None => false,
    })
    ||| (match svc.cache_schema_id {
        Some(s) => s@ == sch.identifier@,
        None => false,
    })
}

/// Synthesized schema edges of a service: one key per referenced schema,
/// in listing order.
pub open spec fn spec_schema_edges(
    svc: ServiceListing,
    schemas: Seq<SchemaListing>,
    org: Seq<char>,
) -> Seq<Seq<char>>
    decreases schemas.len(),
{
    if schemas.len() == 0 {
        Seq::empty()
    } else {
        spec_schema_edges(svc, schemas.drop_last(), org) + if spec_schema_matches(
            svc,
            schemas.last(),
        ) {
            seq![spec_dependency_key(org, schemas.last().name@)]
        } else {
            Seq::empty()
        }
    }
}

/// A service's effective dependency list: declared plus synthesized.
pub open spec fn spec_effective_deps(
    svc: ServiceListing,
    schemas: Seq<SchemaListing>,
    org: Seq<char>,
) -> Seq<Seq<char>> {
    svc.dependencies.deep_view() + spec_schema_edges(svc, schemas, org)
}

/// The dependency map after inserting every package, in listing order.
pub open spec fn spec_graph_after_packages(
    packages: Seq<PackageListing>,
    org: Seq<char>,
) -> Seq<(Seq<char>, Seq<Seq<char>>)>
    decreases packages.len(),
{
    if packages.len() == 0 {
        Seq::empty()
    } else {
        graph_insert(
            spec_graph_after_packages(packages.drop_last(), org),
            spec_dependency_key(org, packages.last().identifier@),
            packages.last().dependencies.deep_view(),
        )
    }
}

/// The dependency map after also inserting every service with its
/// effective dependency list.
pub open spec fn spec_graph_after_services(
    base: Seq<(Seq<char>, Seq<Seq<char>>)>,
    services: Seq<ServiceListing>,
    schemas: Seq<SchemaListing>,
    org: Seq<char>,
) -> Seq<(Seq<char>, Seq<Seq<char>>)>
    decreases services.len(),
{
    if services.len() == 0 {
        base
    } else {
        graph_insert(
            spec_graph_after_services(base, services.drop_last(), schemas, org),
            spec_dependency_key(org, services.last().identifier@),
            spec_effective_deps(services.last(), schemas, org),
        )
    }
}

/// The whole dependency map: packages first, then services.
pub open spec fn spec_build_graph(
    packages: Seq<PackageListing>,
    services: Seq<ServiceListing>,
    schemas: Seq<SchemaListing>,
    org: Seq<char>,
) -> Seq<(Seq<char>, Seq<Seq<char>>)> {
    spec_graph_after_services(spec_graph_after_packages(packages, org), services, schemas, org)
}

/// Mathematical value of the origin side map.
pub open spec fn repos_view(m: Seq<(String, Option<(String, String)>)>) -> Seq<
    (Seq<char>, Option<(Seq<char>, Seq<char>)>),
> {
    m.map_values(
        |e: (String, Option<(String, String)>)|
            (
                e.0@,
                match e.1 {
                    Some(p) => Some((p.0@, p.1@)),
                    None => None,
                },
            ),
    )
}

/// Mathematical value of the kind side map.
pub open spec fn kinds_view(m: Seq<(String, EntityKind)>) -> Seq<(Seq<char>, EntityKind)> {
    m.map_values(|e: (String, EntityKind)| (e.0@, e.1))
}

/// The origin side map: one entry per package, then one per service, each
/// carrying the owner/repository split of its origin URL.
pub open spec fn spec_build_repos(
    packages: Seq<PackageListing>,
    services: Seq<ServiceListing>,
    org: Seq<char>,
) -> Seq<(Seq<char>, Option<(Seq<char>, Seq<char>)>)> {
    packages.map_values(
        |p: PackageListing|
            (spec_dependency_key(org, p.identifier@), spec_origin_split(p.repo_origin)),
    ) + services.map_values(
        |s: ServiceListing|
            (spec_dependency_key(org, s.identifier@), spec_origin_split(s.repo_origin)),
    )
}

/// The kind side map: packages marked as packages, services as services.
pub open spec fn spec_build_kinds(
    packages: Seq<PackageListing>,
    services: Seq<ServiceListing>,
    org: Seq<char>,
) -> Seq<(Seq<char>, EntityKind)> {
    packages.map_values(
        |p: PackageListing| (spec_dependency_key(org, p.identifier@), EntityKind::Package),
    ) + services.map_values(
        |s: ServiceListing| (spec_dependency_key(org, s.identifier@), EntityKind::Service),
    )
}

/// Value recorded for `key` in a keyed list where the latest entry wins,
/// mirroring insertion into a keyed map.
pub open spec fn spec_repo_lookup(
    m: Seq<(Seq<char>, Option<(Seq<char>, Seq<char>)>)>,
    key: Seq<char>,
) -> Option<Option<(Seq<char>, Seq<char>)>>
    decreases m.len(),
{
    if m.len() == 0 {
        None
    } else if m.last().0 == key {
        Some(m.last().1)
    } else {
        spec_repo_lookup(m.drop_last(), key)
    }
}

/// Value recorded for `key` in the kind map, latest entry winning.
pub open spec fn spec_kind_lookup(m: Seq<(Seq<char>, EntityKind)>, key: Seq<char>) -> Option<
    EntityKind,
>
    decreases m.len(),
{
    if m.len() == 0 {
        None
    } else if m.last().0 == key {
        Some(m.last().1)
    } else {
        spec_kind_lookup(m.drop_last(), key)
    }
}

/// True when the optional reference equals the schema identifier.
fn option_matches(reference: &Option<String>, identifier: &String) -> (r: bool)
    ensures
        r == (match reference {
            Some(s) => s@ == identifier@,
            None => false,
        }),
{
    match reference {
        Some(s) => s.eq(identifier),
        None => false,
    }
}

/// Clones the owner/repository split of an optional origin URL as the
/// side map stores it.
fn split_origin(origin: &Option<String>) -> (r: Option<(String, String)>)
    ensures
        (match r {
            Some(p) => spec_origin_split(*origin) == Some((p.0@, p.1@)),
            None => spec_origin_split(*origin).is_none(),
        }),
{
    match origin {
        Some(url) => extract_username_and_repo(url.as_str()),
        None => None,
    }
}

/// The effective dependency list of one service: its declared
/// dependencies plus a key for every schema it references.
pub fn effective_dependencies(
    svc: &ServiceListing,
    schemas: &Vec<SchemaListing>,
    org_id: &String,
) -> (r: Vec<String>)
    ensures
        r.deep_view() == spec_effective_deps(*svc, schemas@, org_id@),
{
    let mut deps = clone_string_vec(&svc.dependencies);
    proof {
        assert(deps.deep_view() =~= svc.dependencies.deep_view());
        assert(schemas@.take(0) =~= Seq::<SchemaListing>::empty());
        assert(deps.deep_view() =~= svc.dependencies.deep_view() + spec_schema_edges(
            *svc,
            schemas@.take(0),
            org_id@,
        ));
    }
    let n = schemas.len();
    let mut i: usize = 0;
    while i < n
        invariant
            i <= n,
            n == schemas@.len(),
            deps.deep_view() == svc.dependencies.deep_view() + spec_schema_edges(
                *svc,
                schemas@.take(i as int),
                org_id@,
            ),
        decreases n - i,
    {
        let ghost pre = deps.deep_view();
        let sch = &schemas[i];
        let matched = option_matches(&svc.db_schema_id, &sch.identifier) || option_matches(
            &svc.message_queue_schema_id,
            &sch.identifier,
        ) || option_matches(&svc.cache_schema_id, &sch.identifier);
        proof {
            assert(schemas@.take(i as int + 1).drop_last() =~= schemas@.take(i as int));
            assert(schemas@.take(i as int + 1).last() == schemas@[i as int]);
            assert(matched == spec_schema_matches(*svc, schemas@[i as int]));
        }
        if matched {
            let key = dependency_key(org_id, &sch.name);
            deps.push(key);
            proof {
                assert(deps.deep_view() =~= pre + seq![
                    spec_dependency_key(org_id@, schemas@[i as int].name@),
                ]);
                assert(deps.deep_view() =~= svc.dependencies.deep_view() + spec_schema_edges(
                    *svc,
                    schemas@.take(i as int + 1),
                    org_id@,
                ));
            }
        } else {
            proof {
                assert(spec_schema_edges(*svc, schemas@.take(i as int + 1), org_id@) =~= spec_schema_edges(
                    *svc,
                    schemas@.take(i as int),
                    org_id@,
                ) + Seq::<Seq<char>>::empty());
                assert(deps.deep_view() =~= svc.dependencies.deep_view() + spec_schema_edges(
                    *svc,
                    schemas@.take(i as int + 1),
                    org_id@,
                ));
            }
        }
        i += 1;
    }
    proof {
        assert(schemas@.take(n as int) =~= schemas@);
    }
    deps
}

/// Merges the three listings into the dependency map and its side maps.
pub fn build_dependency_graph(
    org_id: &String,
    packages: &Vec<PackageListing>,
    services: &Vec<ServiceListing>,
    schemas: &Vec<SchemaListing>,
) -> (r: GraphBundle)
    ensures
        r.graph@ == spec_build_graph(packages@, services@, schemas@, org_id@),
        repos_view(r.repos@) == spec_build_repos(packages@, services@, org_id@),
        kinds_view(r.kinds@) == spec_build_kinds(packages@, services@, org_id@),
{
    let mut graph = DependencyGraph::new();
    let mut repos: Vec<(String, Option<(String, String)>)> = Vec::new();
    let mut kinds: Vec<(String, EntityKind)> = Vec::new();

    let np = packages.len();
    let mut i: usize = 0;
    proof {
        assert(packages@.take(0) =~= Seq::<PackageListing>::empty());
        assert(repos_view(repos@) =~= packages@.take(0).map_values(
            |p: PackageListing|
                (spec_dependency_key(org_id@, p.identifier@), spec_origin_split(p.repo_origin)),
        ));
        assert(kinds_view(kinds@) =~= packages@.take(0).map_values(
            |p: PackageListing| (spec_dependency_key(org_id@, p.identifier@), EntityKind::Package),
        ));
    }
    while i < np
        invariant
            i <= np,
            np == packages@.len(),
            graph@ == spec_graph_after_packages(packages@.take(i as int), org_id@),
            repos_view(repos@) == packages@.take(i as int).map_values(
                |p: PackageListing|
                    (
                        spec_dependency_key(org_id@, p.identifier@),
                        spec_origin_split(p.repo_origin),
                    ),
            ),
            kinds_view(kinds@) == packages@.take(i as int).map_values(
                |p: PackageListing|
                    (spec_dependency_key(org_id@, p.identifier@), EntityKind::Package),
            ),
        decreases np - i,
    {
        let ghost repos_pre = repos_view(repos@);
        let ghost kinds_pre = kinds_view(kinds@);
        let p = &packages[i];
        let key = dependency_key(org_id, &p.identifier);
        let deps = clone_string_vec(&p.dependencies);
        proof {
            assert(deps.deep_view() =~= p.dependencies.deep_view());
            assert(packages@.take(i as int + 1).drop_last() =~= packages@.take(i as int));
            assert(packages@.take(i as int + 1).last() == packages@[i as int]);
        }
        graph.insert(key.clone(), deps);
        let origin = split_origin(&p.repo_origin);
        repos.push((key.clone(), origin));
        kinds.push((key, EntityKind::Package));
        proof {
            assert(repos_view(repos@) =~= repos_pre.push(
                (
                    spec_dependency_key(org_id@, packages@[i as int].identifier@),
                    spec_origin_split(packages@[i as int].repo_origin),
                ),
            ));
            assert(repos_view(repos@) =~= packages@.take(i as int + 1).map_values(
                |p: PackageListing|
                    (
                        spec_dependency_key(org_id@, p.identifier@),
                        spec_origin_split(p.repo_origin),
                    ),
            ));
            assert(kinds_view(kinds@) =~= kinds_pre.push(
                (
                    spec_dependency_key(org_id@, packages@[i as int].identifier@),
                    EntityKind::Package,
                ),
            ));
            assert(kinds_view(kinds@) =~= packages@.take(i as int + 1).map_values(
                |p: PackageListing|
                    (spec_dependency_key(org_id@, p.identifier@), EntityKind::Package),
            ));
        }
        i += 1;
    }
    proof {
        assert(packages@.take(np as int) =~= packages@);
    }

    let ghost base = graph@;
    let ghost repos_base = repos_view(repos@);
    let ghost kinds_base = kinds_view(kinds@);
    let ns = services.len();
    let mut j: usize = 0;
    proof {
        assert(services@.take(0) =~= Seq::<ServiceListing>::empty());
        assert(repos_view(repos@) =~= repos_base + services@.take(0).map_values(
            |s: ServiceListing|
                (spec_dependency_key(org_id@, s.identifier@), spec_origin_split(s.repo_origin)),
        ));
        assert(kinds_view(kinds@) =~= kinds_base + services@.take(0).map_values(
            |s: ServiceListing| (spec_dependency_key(org_id@, s.identifier@), EntityKind::Service),
        ));
    }
    while j < ns
        invariant
            j <= ns,
            ns == services@.len(),
            base == spec_graph_after_packages(packages@, org_id@),
            repos_base == packages@.map_values(
                |p: PackageListing|
                    (
                        spec_dependency_key(org_id@, p.identifier@),
                        spec_origin_split(p.repo_origin),
                    ),
            ),
            kinds_base == packages@.map_values(
                |p: PackageListing|
                    (spec_dependency_key(org_id@, p.identifier@), EntityKind::Package),
            ),
            graph@ == spec_graph_after_services(base, services@.take(j as int), schemas@, org_id@),
            repos_view(repos@) == repos_base + services@.take(j as int).map_values(
                |s: ServiceListing|
                    (
                        spec_dependency_key(org_id@, s.identifier@),
                        spec_origin_split(s.repo_origin),
                    ),
            ),
            kinds_view(kinds@) == kinds_base + services@.take(j as int).map_values(
                |s: ServiceListing|
                    (spec_dependency_key(org_id@, s.identifier@), EntityKind::Service),
            ),
        decreases ns - j,
    {
        let ghost repos_pre = repos_view(repos@);
        let ghost kinds_pre = kinds_view(kinds@);
        let s = &services[j];
        let key = dependency_key(org_id, &s.identifier);
        let deps = effective_dependencies(s, schemas, org_id);
        proof {
            assert(services@.take(j as int + 1).drop_last() =~= services@.take(j as int));
            assert(services@.take(j as int + 1).last() == services@[j as int]);
        }
        graph.insert(key.clone(), deps);
        let origin = split_origin(&s.repo_origin);
        repos.push((key.clone(), origin));
        kinds.push((key, EntityKind::Service));
        proof {
            assert(repos_view(repos@) =~= repos_pre.push(
                (
                    spec_dependency_key(org_id@, services@[j as int].identifier@),
                    spec_origin_split(services@[j as int].repo_origin),
                ),
            ));
            assert(repos_view(repos@) =~= repos_base + services@.take(j as int + 1).map_values(
                |s: ServiceListing|
                    (
                        spec_dependency_key(org_id@, s.identifier@),
                        spec_origin_split(s.repo_origin),
                    ),
            ));
            assert(kinds_view(kinds@) =~= kinds_pre.push(
                (
                    spec_dependency_key(org_id@, services@[j as int].identifier@),
                    EntityKind::Service,
                ),
            ));
            assert(kinds_view(kinds@) =~= kinds_base + services@.take(j as int + 1).map_values(
                |s: ServiceListing|
                    (spec_dependency_key(org_id@, s.identifier@), EntityKind::Service),
            ));
        }
        j += 1;
    }
    proof {
        assert(services@.take(ns as int) =~= services@);
    }
    GraphBundle { graph, repos, kinds }
}

impl GraphBundle {
    /// Owner/repository pair recorded for a key: `None` when the key is
    /// unknown, `Some(None)` when its origin URL was absent or malformed.
    pub fn repo_for(&self, key: &String) -> (r: Option<Option<(String, String)>>)
        ensures
            (match r {
                Some(Some(p)) => spec_repo_lookup(repos_view(self.repos@), key@) == Some(
                    Some((p.0@, p.1@)),
                ),
                Some(None) => spec_repo_lookup(repos_view(self.repos@), key@) == Some(
                    None::<(Seq<char>, Seq<char>)>,
                ),
                None => spec_repo_lookup(repos_view(self.repos@), key@).is_none(),
            }),
    {
        let ghost m = repos_view(self.repos@);
        let mut i = self.repos.len();
        proof {
            assert(m.take(i as int) =~= m);
        }
        while i > 0
            invariant
                i <= self.repos@.len(),
                m == repos_view(self.repos@),
                spec_repo_lookup(m, key@) == spec_repo_lookup(m.take(i as int), key@),
            decreases i,
        {
            i -= 1;
            proof {
                assert(m.take(i as int + 1).last() == m[i as int]);
                assert(m.take(i as int + 1).drop_last() =~= m.take(i as int));
            }
            if self.repos[i].0.eq(key) {
                proof {
                    assert(m[i as int].0 == key@);
                }
                match &self.repos[i].1 {
                    Some(p) => {
                        return Some(Some((p.0.clone(), p.1.clone())));
                    },
                    None => {
                        return Some(None);
                    },
                }
            }
        }
        proof {
            assert(m.take(0) =~= Seq::<(Seq<char>, Option<(Seq<char>, Seq<char>)>)>::empty());
        }
        None
    }

    /// Entity kind recorded for a key, or `None` when the key is unknown.
    pub fn kind_for(&self, key: &String) -> (r: Option<EntityKind>)
        ensures
            r == spec_kind_lookup(kinds_view(self.kinds@), key@),
    {
        let ghost m = kinds_view(self.kinds@);
        let mut i = self.kinds.len();
        proof {
            assert(m.take(i as int) =~= m);
        }
        while i > 0
            invariant
                i <= self.kinds@.len(),
                m == kinds_view(self.kinds@),
                spec_kind_lookup(m, key@) == spec_kind_lookup(m.take(i as int), key@),
            decreases i,
        {
            i -= 1;
            proof {
                assert(m.take(i as int + 1).last() == m[i as int]);
                assert(m.take(i as int + 1).drop_last() =~= m.take(i as int));
            }
            if self.kinds[i].0.eq(key) {
                proof {
                    assert(m[i as int].0 == key@);
                }
                return Some(self.kinds[i].1);
            }
        }
        proof {
            assert(m.take(0) =~= Seq::<(Seq<char>, EntityKind)>::empty());
        }
        None
    }
}

} // verus!
