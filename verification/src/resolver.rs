//! Trigger frontier resolution: given the dependency graph of an
//! organization and a changed pivot entity, computes the set of dependent
//! pipelines to re-trigger.
//!
//! The algorithm scans the graph for entries that depend on the pivot,
//! recurses into each qualifying dependent while threading one shared
//! triggered set, then drops candidates that are subsumed by another
//! candidate already scheduled to fire, and deduplicates.  A visited set
//! carried along the call stack guards against cycles, so resolution
//! terminates on every graph.

use vstd::prelude::*;

verus! {

broadcast use
    vstd::seq_lib::lemma_seq_contains_after_push,
    vstd::seq_lib::lemma_seq_empty_contains_nothing,
    vstd::seq_lib::lemma_seq_concat_contains_all_elements;

/// One graph entry: an entity key together with the keys it depends on.
pub struct GraphEntry {
    pub key: String,
    pub dependencies: Vec<String>,
}

impl GraphEntry {
    /// Mathematical value of an entry: the key and its dependency list.
    pub open spec fn view_pair(self) -> (Seq<char>, Seq<Seq<char>>) {
        (self.key@, self.dependencies.deep_view())
    }
}

/// Dependency map from entity key to its declared dependencies, kept in
/// insertion order so that resolution is deterministic.
pub struct DependencyGraph {
    pub entries: Vec<GraphEntry>,
}

impl View for DependencyGraph {
    type V = Seq<(Seq<char>, Seq<Seq<char>>)>;

    open spec fn view(&self) -> Seq<(Seq<char>, Seq<Seq<char>>)> {
        self.entries@.map_values(|e: GraphEntry| e.view_pair())
    }
}

/// Accumulator of entities already scheduled within one resolution pass.
pub struct TriggeredSet {
    pub keys: Vec<String>,
}

impl View for TriggeredSet {
    type V = Set<Seq<char>>;

    open spec fn view(&self) -> Set<Seq<char>> {
        self.keys.deep_view().to_set()
    }
}

/// True when `v` holds an element whose character sequence is `k`.
pub fn vec_contains_string(v: &Vec<String>, k: &String) -> (r: bool)
    ensures
        r == v.deep_view().contains(k@),
{
    let n = v.len();
    let mut i: usize = 0;
    while i < n
        invariant
            0 <= i <= n,
            n == v.len(),
            forall|j: int| 0 <= j < i ==> v.deep_view()[j] != k@,
        decreases n - i,
    {
        if v[i].eq(k) {
            assert(v.deep_view()[i as int] == k@);
            return true;
        }
        i += 1;
    }
    assert(!v.deep_view().contains(k@));
    false
}

impl TriggeredSet {
    pub fn new() -> (r: TriggeredSet)
        ensures
            r@ == Set::<Seq<char>>::empty(),
    {
        let r = TriggeredSet { keys: Vec::new() };
        proof {
            assert(r@ =~= Set::<Seq<char>>::empty());
        }
        r
    }

    pub fn contains(&self, k: &String) -> (r: bool)
        ensures
            r == self@.contains(k@),
    {
        vec_contains_string(&self.keys, k)
    }

    pub fn insert(&mut self, k: String)
        ensures
            final (self)@ == old(self)@.insert(k@),
    {
        if !vec_contains_string(&self.keys, &k) {
            let ghost k_view = k@;
            self.keys.push(k);
            proof {
                assert(self.keys.deep_view() =~= old(self).keys.deep_view() + seq![k_view]);
                Seq::lemma_to_set_insert_commutes(old(self).keys.deep_view(), k_view);
            }
        } else {
            proof {
                assert(self.keys.deep_view().contains(k@));
                assert(self@.contains(k@));
                assert(self@ =~= old(self)@.insert(k@));
            }
        }
    }
}

/// Whether the entry at hand is picked up while scanning for dependents of
/// `pivot`: it depends on the pivot, is not itself already triggered, none
/// of its own dependencies is already triggered, and it is not on the
/// current recursion stack.
pub open spec fn entry_qualifies(
    e: (Seq<char>, Seq<Seq<char>>),
    pivot: Seq<char>,
    t: Set<Seq<char>>,
    v: Set<Seq<char>>,
) -> bool {
    &&& e.1.contains(pivot)
    &&& !t.contains(e.0)
    &&& !(exists|j: int| 0 <= j < e.1.len() && t.contains(#[trigger] e.1[j]))
    &&& !v.contains(e.0)
}

/// Number of graph entries whose key is not yet in the visited set; the
/// termination measure of the scan.
pub open spec fn unvisited_count(g: Seq<(Seq<char>, Seq<Seq<char>>)>, v: Set<Seq<char>>) -> nat
    decreases g.len(),
{
    if g.len() == 0 {
        0
    } else {
        unvisited_count(g.drop_last(), v) + if v.contains(g.last().0) {
            0nat
        } else {
            1nat
        }
    }
}

pub proof fn lemma_unvisited_count_monotonic(
    g: Seq<(Seq<char>, Seq<Seq<char>>)>,
    v1: Set<Seq<char>>,
    v2: Set<Seq<char>>,
)
    requires
        v1.subset_of(v2),
    ensures
        unvisited_count(g, v2) <= unvisited_count(g, v1),
    decreases g.len(),
{
    if g.len() > 0 {
        lemma_unvisited_count_monotonic(g.drop_last(), v1, v2);
    }
}

pub proof fn lemma_unvisited_count_insert(
    g: Seq<(Seq<char>, Seq<Seq<char>>)>,
    v: Set<Seq<char>>,
    k: Seq<char>,
    wi: int,
)
    requires
        0 <= wi < g.len(),
        g[wi].0 == k,
        !v.contains(k),
    ensures
        unvisited_count(g, v.insert(k)) < unvisited_count(g, v),
    decreases g.len(),
{
    assert(v.subset_of(v.insert(k)));
    if wi == g.len() - 1 {
        lemma_unvisited_count_monotonic(g.drop_last(), v, v.insert(k));
    } else {
        assert(g.drop_last()[wi] == g[wi]);
        lemma_unvisited_count_insert(g.drop_last(), v, k, wi);
    }
}

/// Spec mirror of one resolution pass.  Starting at entry `i`, scans the
/// graph for dependents of `pivot`; for a qualifying entry, recurses into
/// its key with the key added to the visited set, then continues the scan
/// with the triggered set the recursion produced.  After the scan the pivot
/// itself is added to the triggered set.  Returns the unfiltered candidate
/// sequence in discovery order together with the final triggered set.
pub open spec fn scan_dependents(
    g: Seq<(Seq<char>, Seq<Seq<char>>)>,
    i: int,
    pivot: Seq<char>,
    t: Set<Seq<char>>,
    v: Set<Seq<char>>,
) -> (Seq<Seq<char>>, Set<Seq<char>>)
    decreases unvisited_count(g, v), g.len() - i,
{
    if i < 0 || i >= g.len() {
        (Seq::empty(), t.insert(pivot))
    } else if entry_qualifies(g[i], pivot, t, v) {
        proof {
            lemma_unvisited_count_insert(g, v, g[i].0, i);
        }
        let sub = scan_dependents(g, 0, g[i].0, t, v.insert(g[i].0));
        let rest = scan_dependents(g, i + 1, pivot, sub.1, v);
        (seq![g[i].0] + sub.0 + rest.0, rest.1)
    } else {
        scan_dependents(g, i + 1, pivot, t, v)
    }
}

/// Dependency list recorded for `key`: the list of the first entry whose
/// key matches, or the empty list when the graph has no such entry.
pub open spec fn deps_in_graph(g: Seq<(Seq<char>, Seq<Seq<char>>)>, key: Seq<char>) -> Seq<
    Seq<char>,
>
    decreases g.len(),
{
    if g.len() == 0 {
        Seq::empty()
    } else if g.first().0 == key {
        g.first().1
    } else {
        deps_in_graph(g.drop_first(), key)
    }
}

/// A candidate is subsumed when one of its recorded dependencies is itself
/// among the unfiltered candidates: that dependency will cascade to it.
pub open spec fn subsumed_by(
    g: Seq<(Seq<char>, Seq<Seq<char>>)>,
    r: Seq<Seq<char>>,
    key: Seq<char>,
) -> bool {
    exists|j: int|
        0 <= j < deps_in_graph(g, key).len() && r.contains(#[trigger] deps_in_graph(g, key)[j])
}

/// The first `i` candidates of `r`, with those subsumed by the full
/// unfiltered sequence removed.
pub open spec fn filter_subsumed_up_to(
    g: Seq<(Seq<char>, Seq<Seq<char>>)>,
    r: Seq<Seq<char>>,
    i: int,
) -> Seq<Seq<char>>
    decreases i,
{
    if i <= 0 {
        Seq::empty()
    } else {
        let prev = filter_subsumed_up_to(g, r, i - 1);
        if subsumed_by(g, r, r[i - 1]) {
            prev
        } else {
            prev.push(r[i - 1])
        }
    }
}

pub open spec fn filter_subsumed(g: Seq<(Seq<char>, Seq<Seq<char>>)>, r: Seq<Seq<char>>) -> Seq<
    Seq<char>,
> {
    filter_subsumed_up_to(g, r, r.len() as int)
}

/// The first `i` elements of `r` with second and later occurrences of a
/// key removed.
pub open spec fn dedup_up_to(r: Seq<Seq<char>>, i: int) -> Seq<Seq<char>>
    decreases i,
{
    if i <= 0 {
        Seq::empty()
    } else {
        let prev = dedup_up_to(r, i - 1);
        if r.subrange(0, i - 1).contains(r[i - 1]) {
            prev
        } else {
            prev.push(r[i - 1])
        }
    }
}

pub open spec fn dedup_keep_first(r: Seq<Seq<char>>) -> Seq<Seq<char>> {
    dedup_up_to(r, r.len() as int)
}

/// Unfiltered scan of the whole graph, with the pivot pre-visited.
pub open spec fn scan_from_pivot(
    g: Seq<(Seq<char>, Seq<Seq<char>>)>,
    pivot: Seq<char>,
    t: Set<Seq<char>>,
) -> (Seq<Seq<char>>, Set<Seq<char>>) {
    scan_dependents(g, 0, pivot, t, Set::empty().insert(pivot))
}

/// The frontier returned for `pivot`: scan, drop subsumed candidates,
/// deduplicate keeping first occurrences.
pub open spec fn resolve_frontier(
    g: Seq<(Seq<char>, Seq<Seq<char>>)>,
    pivot: Seq<char>,
    t: Set<Seq<char>>,
) -> Seq<Seq<char>> {
    dedup_keep_first(filter_subsumed(g, scan_from_pivot(g, pivot, t).0))
}

/// The triggered set after resolving `pivot`.
pub open spec fn resolve_triggered(
    g: Seq<(Seq<char>, Seq<Seq<char>>)>,
    pivot: Seq<char>,
    t: Set<Seq<char>>,
) -> Set<Seq<char>> {
    scan_from_pivot(g, pivot, t).1
}

/// True when some dependency in `deps` is already in the triggered set.
fn any_dependency_triggered(deps: &Vec<String>, t: &TriggeredSet) -> (r: bool)
    ensures
        r == exists|j: int|
            0 <= j < deps.deep_view().len() && t@.contains(#[trigger] deps.deep_view()[j]),
{
    let n = deps.len();
    let mut i: usize = 0;
    while i < n
        invariant
            i <= n,
            n == deps.len(),
            forall|j: int| 0 <= j < i ==> !t@.contains(#[trigger] deps.deep_view()[j]),
        decreases n - i,
    {
        if t.contains(&deps[i]) {
            assert(t@.contains(deps.deep_view()[i as int]));
            return true;
        }
        i += 1;
    }
    false
}

/// Copies a vector of keys; the copy reads back as the same sequence.
pub fn clone_string_vec(v: &Vec<String>) -> (r: Vec<String>)
    ensures
        r@ == v@,
{
    let n = v.len();
    let mut r: Vec<String> = Vec::new();
    let mut i: usize = 0;
    while i < n
        invariant
            i <= n,
            n == v.len(),
            r@ == v@.subrange(0, i as int),
        decreases n - i,
    {
        r.push(v[i].clone());
        assert(r@ =~= v@.subrange(0, i + 1 as int));
        i += 1;
    }
    assert(r@ =~= v@);
    r
}

impl DependencyGraph {
    pub fn new() -> (r: DependencyGraph)
        ensures
            r@ == Seq::<(Seq<char>, Seq<Seq<char>>)>::empty(),
    {
        let r = DependencyGraph { entries: Vec::new() };
        proof {
            assert(r@ =~= Seq::<(Seq<char>, Seq<Seq<char>>)>::empty());
        }
        r
    }

    /// Records the dependency list for `key`, replacing the list of an
    /// existing entry with that key and appending a new entry otherwise —
    /// the behaviour of inserting into a keyed map.
    pub fn insert(&mut self, key: String, dependencies: Vec<String>)
        ensures
            final (self)@ == graph_insert(old(self)@, key@, dependencies.deep_view()),
    {
        let ghost g0 = self@;
        let ghost kv = key@;
        let ghost dv = dependencies.deep_view();
        let n = self.entries.len();
        let mut i: usize = 0;
        while i < n
            invariant
                i <= n,
                n == self.entries.len(),
                self@ == g0,
                g0 == old(self)@,
                kv == key@,
                dv == dependencies.deep_view(),
                forall|j: int| 0 <= j < i ==> (#[trigger] g0[j]).0 != kv,
            decreases n - i,
        {
            proof {
                assert(g0[i as int] == self.entries@[i as int].view_pair());
            }
            if self.entries[i].key.eq(&key) {
                assert(g0[i as int].0 == kv);
                self.entries[i] = GraphEntry { key, dependencies };
                proof {
                    lemma_graph_insert_found(g0, kv, dv, i as int);
                    assert(self@ =~= g0.update(i as int, (kv, dv)));
                }
                return ;
            }
            i += 1;
        }
        self.entries.push(GraphEntry { key, dependencies });
        proof {
            lemma_graph_insert_missing(g0, kv, dv);
            assert(self@ =~= g0.push((kv, dv)));
        }
    }

    /// Dependency list recorded for `key`, or the empty list when the key
    /// is absent.
    pub fn deps_of(&self, key: &String) -> (r: Vec<String>)
        ensures
            r.deep_view() == deps_in_graph(self@, key@),
    {
        let ghost g_view = self@;
        proof {
            assert(g_view.skip(0) =~= g_view);
        }
        let n = self.entries.len();
        let mut i: usize = 0;
        while i < n
            invariant
                i <= n,
                n == self.entries.len(),
                g_view == self@,
                deps_in_graph(g_view, key@) == deps_in_graph(
                    g_view.skip(i as int),
                    key@,
                ),
            decreases n - i,
        {
            if self.entries[i].key.eq(key) {
                assert(g_view.skip(i as int).first() == g_view[i as int]);
                let r = clone_string_vec(&self.entries[i].dependencies);
                assert(r.deep_view() =~= deps_in_graph(g_view, key@));
                return r;
            }
            proof {
                assert(g_view.skip(i as int).first() == g_view[i as int]);
                assert(g_view.skip(i as int).drop_first() =~= g_view.skip(i + 1 as int));
            }
            i += 1;
        }
        proof {
            assert(g_view.skip(n as int) =~= Seq::<(Seq<char>, Seq<Seq<char>>)>::empty());
        }
        let r: Vec<String> = Vec::new();
        assert(r.deep_view() =~= deps_in_graph(g_view, key@));
        r
    }
}

/// Map-style insertion on the graph view: replace the first entry with the
/// key, else append.
pub open spec fn graph_insert(
    g: Seq<(Seq<char>, Seq<Seq<char>>)>,
    key: Seq<char>,
    deps: Seq<Seq<char>>,
) -> Seq<(Seq<char>, Seq<Seq<char>>)> {
    if exists|j: int| 0 <= j < g.len() && (#[trigger] g[j]).0 == key {
        let j = choose|j: int| 0 <= j < g.len() && (#[trigger] g[j]).0 == key && forall|l: int|
            0 <= l < j ==> (#[trigger] g[l]).0 != key;
        g.update(j, (key, deps))
    } else {
        g.push((key, deps))
    }
}

proof fn lemma_graph_insert_found(
    g: Seq<(Seq<char>, Seq<Seq<char>>)>,
    key: Seq<char>,
    deps: Seq<Seq<char>>,
    i: int,
)
    requires
        0 <= i < g.len(),
        g[i].0 == key,
        forall|l: int| 0 <= l < i ==> (#[trigger] g[l]).0 != key,
    ensures
        graph_insert(g, key, deps) == g.update(i, (key, deps)),
{
    assert(exists|j: int| 0 <= j < g.len() && (#[trigger] g[j]).0 == key);
    let j = choose|j: int| 0 <= j < g.len() && (#[trigger] g[j]).0 == key && forall|l: int|
        0 <= l < j ==> (#[trigger] g[l]).0 != key;
    assert(j == i);
}

proof fn lemma_graph_insert_missing(
    g: Seq<(Seq<char>, Seq<Seq<char>>)>,
    key: Seq<char>,
    deps: Seq<Seq<char>>,
)
    requires
        forall|j: int| 0 <= j < g.len() ==> (#[trigger] g[j]).0 != key,
    ensures
        graph_insert(g, key, deps) == g.push((key, deps)),
{
}

/// One resolution pass for `pivot`: the executable mirror of
/// `scan_dependents` over the whole graph.  `visited` holds the pivots of
/// the calls on the current recursion stack and is returned unchanged.
fn scan_exec(g: &DependencyGraph, pivot: &String, t: &mut TriggeredSet, visited: &mut Vec<String>)
    -> (r: Vec<String>)
    requires
        old(visited).deep_view().to_set().contains(pivot@),
    ensures
        r.deep_view() == scan_dependents(
            g@,
            0,
            pivot@,
            old(t)@,
            old(visited).deep_view().to_set(),
        ).0,
        final (t)@ == scan_dependents(g@, 0, pivot@, old(t)@, old(visited).deep_view().to_set()).1,
        final (visited)@ == old(visited)@,
    decreases unvisited_count(g@, visited.deep_view().to_set()),
{
    let ghost g_view = g@;
    let ghost t0 = t@;
    let ghost v0 = visited.deep_view().to_set();
    let mut result: Vec<String> = Vec::new();
    let n = g.entries.len();
    let mut i: usize = 0;
    while i < n
        invariant
            i <= n,
            n == g.entries.len(),
            g_view == g@,
            t0 == old(t)@,
            v0 == old(visited).deep_view().to_set(),
            visited@ == old(visited)@,
            v0.contains(pivot@),
            scan_dependents(g_view, 0, pivot@, t0, v0).0 == result.deep_view() + scan_dependents(
                g_view,
                i as int,
                pivot@,
                t@,
                v0,
            ).0,
            scan_dependents(g_view, 0, pivot@, t0, v0).1 == scan_dependents(
                g_view,
                i as int,
                pivot@,
                t@,
                v0,
            ).1,
        decreases n - i,
    {
        proof {
            assert(g_view[i as int] == g.entries@[i as int].view_pair());
            assert(visited.deep_view() =~= old(visited).deep_view());
        }
        let ghost t_pre = t@;
        let ghost result_pre = result.deep_view();
        let depends_on_pivot = vec_contains_string(&g.entries[i].dependencies, pivot);
        let already_triggered = t.contains(&g.entries[i].key);
        let dep_triggered = any_dependency_triggered(&g.entries[i].dependencies, t);
        let on_stack = vec_contains_string(visited, &g.entries[i].key);
        if depends_on_pivot && !already_triggered && !dep_triggered && !on_stack {
            proof {
                assert(entry_qualifies(g_view[i as int], pivot@, t_pre, v0));
            }
            let key = g.entries[i].key.clone();
            let ghost key_view = key@;
            let ghost v_seq_pre = visited.deep_view();
            visited.push(key.clone());
            proof {
                assert(visited.deep_view() =~= v_seq_pre + seq![key_view]);
                Seq::lemma_to_set_insert_commutes(v_seq_pre, key_view);
                assert(visited.deep_view().to_set() == v0.insert(key_view));
                lemma_unvisited_count_insert(g_view, v0, key_view, i as int);
            }
            let mut sub = scan_exec(g, &key, t, visited);
            let ghost sub_dv = sub.deep_view();
            let _ = visited.pop();
            proof {
                assert(visited@ =~= old(visited)@);
            }
            result.push(key);
            result.append(&mut sub);
            proof {
                let sub_spec = scan_dependents(g_view, 0, key_view, t_pre, v0.insert(key_view));
                let rest = scan_dependents(g_view, i as int + 1, pivot@, sub_spec.1, v0);
                assert(scan_dependents(g_view, i as int, pivot@, t_pre, v0) == (
                    seq![key_view] + sub_spec.0 + rest.0,
                    rest.1,
                ));
                assert(sub_dv == sub_spec.0);
                assert(t@ == sub_spec.1);
                assert(result.deep_view() =~= result_pre + seq![key_view] + sub_dv);
                assert(result_pre + (seq![key_view] + sub_spec.0 + rest.0) =~= (result_pre
                    + seq![key_view] + sub_dv) + rest.0);
            }
        } else {
            proof {
                assert(!entry_qualifies(g_view[i as int], pivot@, t@, v0));
                assert(scan_dependents(g_view, i as int, pivot@, t@, v0) == scan_dependents(
                    g_view,
                    i as int + 1,
                    pivot@,
                    t@,
                    v0,
                ));
            }
        }
        i += 1;
    }
    proof {
        assert(scan_dependents(g_view, n as int, pivot@, t@, v0) == (
            Seq::<Seq<char>>::empty(),
            t@.insert(pivot@),
        ));
        assert(scan_dependents(g_view, 0, pivot@, t0, v0).0 =~= result.deep_view());
    }
    t.insert(pivot.clone());
    result
}

/// True when one of the dependencies recorded for `key` is itself among
/// the candidates in `r`.
fn is_subsumed(g: &DependencyGraph, r: &Vec<String>, key: &String) -> (b: bool)
    ensures
        b == subsumed_by(g@, r.deep_view(), key@),
{
    let deps = g.deps_of(key);
    let n = deps.len();
    let mut i: usize = 0;
    while i < n
        invariant
            i <= n,
            n == deps.len(),
            deps.deep_view() == deps_in_graph(g@, key@),
            forall|j: int| 0 <= j < i ==> !r.deep_view().contains(#[trigger] deps.deep_view()[j]),
        decreases n - i,
    {
        if vec_contains_string(r, &deps[i]) {
            assert(r.deep_view().contains(deps_in_graph(g@, key@)[i as int]));
            return true;
        }
        i += 1;
    }
    false
}

/// Computes the frontier of pipelines to re-trigger when `pivot_package`
/// changes: every entity that depends on it, directly or transitively,
/// except those subsumed by another frontier member, without duplicates,
/// and never one already in the triggered set.  The pivot is recorded in
/// the triggered set, so later calls for other pivots skip anything this
/// call already scheduled.  Resolution terminates on cyclic graphs too.
pub fn find_pipelines_to_trigger(
    dependencies_map: &DependencyGraph,
    pivot_package: &String,
    triggered_set: &mut TriggeredSet,
) -> (r: Vec<String>)
    ensures
        r.deep_view() == resolve_frontier(dependencies_map@, pivot_package@, old(triggered_set)@),
        final (triggered_set)@ == resolve_triggered(
            dependencies_map@,
            pivot_package@,
            old(triggered_set)@,
        ),
        !r.deep_view().contains(pivot_package@),
        forall|k: Seq<char>|
            old(triggered_set)@.contains(k) ==> !r.deep_view().contains(k),
        old(triggered_set)@.subset_of(final (triggered_set)@),
{
    proof {
        lemma_frontier_excludes_pivot(dependencies_map@, pivot_package@, old(triggered_set)@);
        lemma_frontier_idempotent(dependencies_map@, pivot_package@, old(triggered_set)@);
        lemma_triggered_grows(dependencies_map@, pivot_package@, old(triggered_set)@);
    }
    let ghost g_view = dependencies_map@;
    let ghost t0 = triggered_set@;
    let mut visited: Vec<String> = Vec::new();
    visited.push(pivot_package.clone());
    proof {
        assert(visited.deep_view() =~= Seq::<Seq<char>>::empty().push(pivot_package@));
        assert forall|x: Seq<char>|
            visited.deep_view().to_set().contains(x) <==> Set::<Seq<char>>::empty().insert(
                pivot_package@,
            ).contains(x) by {
            assert(visited.deep_view().contains(x) == Seq::<Seq<char>>::empty().push(
                pivot_package@,
            ).contains(x));
        }
        assert(visited.deep_view().to_set() =~= Set::<Seq<char>>::empty().insert(pivot_package@));
    }
    let raw = scan_exec(dependencies_map, pivot_package, triggered_set, &mut visited);
    let ghost raw_dv = raw.deep_view();

    let mut kept: Vec<String> = Vec::new();
    let n = raw.len();
    let mut i: usize = 0;
    while i < n
        invariant
            i <= n,
            n == raw.len(),
            raw_dv == raw.deep_view(),
            g_view == dependencies_map@,
            kept.deep_view() == filter_subsumed_up_to(g_view, raw_dv, i as int),
        decreases n - i,
    {
        let ghost kept_pre = kept.deep_view();
        if !is_subsumed(dependencies_map, &raw, &raw[i]) {
            kept.push(raw[i].clone());
            proof {
                assert(kept.deep_view() =~= kept_pre.push(raw_dv[i as int]));
            }
        }
        i += 1;
    }

    let mut out: Vec<String> = Vec::new();
    let ghost kept_dv = kept.deep_view();
    let m = kept.len();
    let mut j: usize = 0;
    while j < m
        invariant
            j <= m,
            m == kept.len(),
            kept_dv == kept.deep_view(),
            out.deep_view() == dedup_up_to(kept_dv, j as int),
            forall|x: Seq<char>|
                out.deep_view().contains(x) <==> kept_dv.subrange(0, j as int).contains(x),
        decreases m - j,
    {
        let ghost out_pre = out.deep_view();
        let present = vec_contains_string(&out, &kept[j]);
        proof {
            assert(kept_dv.subrange(0, j as int + 1).drop_last() =~= kept_dv.subrange(0, j as int));
            assert(kept_dv.subrange(0, j as int + 1) =~= kept_dv.subrange(0, j as int).push(
                kept_dv[j as int],
            ));
        }
        if !present {
            out.push(kept[j].clone());
            proof {
                assert(out.deep_view() =~= out_pre.push(kept_dv[j as int]));
                assert forall|x: Seq<char>| out.deep_view().contains(x) <==> kept_dv.subrange(
                    0,
                    j as int + 1,
                ).contains(x) by {
                    assert(out.deep_view().contains(x) == out_pre.push(
                        kept_dv[j as int],
                    ).contains(x));
                    assert(kept_dv.subrange(0, j as int + 1).contains(x) == kept_dv.subrange(
                        0,
                        j as int,
                    ).push(kept_dv[j as int]).contains(x));
                }
            }
        } else {
            proof {
                assert forall|x: Seq<char>| out.deep_view().contains(x) <==> kept_dv.subrange(
                    0,
                    j as int + 1,
                ).contains(x) by {
                    assert(kept_dv.subrange(0, j as int + 1).contains(x) == kept_dv.subrange(
                        0,
                        j as int,
                    ).push(kept_dv[j as int]).contains(x));
                }
            }
        }
        j += 1;
    }
    proof {
        assert(kept_dv.subrange(0, m as int) =~= kept_dv);
        assert(raw_dv.subrange(0, n as int) =~= raw_dv);
    }
    out
}

/// The triggered set only grows during a scan: everything triggered before
/// is still triggered after.
pub proof fn lemma_scan_triggered_grows(
    g: Seq<(Seq<char>, Seq<Seq<char>>)>,
    i: int,
    pivot: Seq<char>,
    t: Set<Seq<char>>,
    v: Set<Seq<char>>,
)
    ensures
        t.subset_of(scan_dependents(g, i, pivot, t, v).1),
    decreases unvisited_count(g, v), g.len() - i,
{
    if i < 0 || i >= g.len() {
    } else if entry_qualifies(g[i], pivot, t, v) {
        lemma_unvisited_count_insert(g, v, g[i].0, i);
        let sub = scan_dependents(g, 0, g[i].0, t, v.insert(g[i].0));
        lemma_scan_triggered_grows(g, 0, g[i].0, t, v.insert(g[i].0));
        lemma_scan_triggered_grows(g, i + 1, pivot, sub.1, v);
    } else {
        lemma_scan_triggered_grows(g, i + 1, pivot, t, v);
    }
}

/// No key of the visited set is ever emitted as a scan candidate.
pub proof fn lemma_scan_excludes_visited(
    g: Seq<(Seq<char>, Seq<Seq<char>>)>,
    i: int,
    pivot: Seq<char>,
    t: Set<Seq<char>>,
    v: Set<Seq<char>>,
)
    ensures
        forall|k: Seq<char>|
            v.contains(k) ==> !scan_dependents(g, i, pivot, t, v).0.contains(k),
    decreases unvisited_count(g, v), g.len() - i,
{
    if i < 0 || i >= g.len() {
    } else if entry_qualifies(g[i], pivot, t, v) {
        lemma_unvisited_count_insert(g, v, g[i].0, i);
        let sub = scan_dependents(g, 0, g[i].0, t, v.insert(g[i].0));
        let rest = scan_dependents(g, i + 1, pivot, sub.1, v);
        lemma_scan_excludes_visited(g, 0, g[i].0, t, v.insert(g[i].0));
        lemma_scan_excludes_visited(g, i + 1, pivot, sub.1, v);
        assert forall|k: Seq<char>| v.contains(k) implies !scan_dependents(
            g,
            i,
            pivot,
            t,
            v,
        ).0.contains(k) by {
            assert(v.insert(g[i].0).contains(k));
            assert(seq![g[i].0] =~= Seq::<Seq<char>>::empty().push(g[i].0));
            assert(!(seq![g[i].0] + sub.0 + rest.0).contains(k));
        }
    } else {
        lemma_scan_excludes_visited(g, i + 1, pivot, t, v);
    }
}

/// No key of `t_base`, a subset of the running triggered set, is ever
/// emitted as a scan candidate.
pub proof fn lemma_scan_excludes_triggered(
    g: Seq<(Seq<char>, Seq<Seq<char>>)>,
    i: int,
    pivot: Seq<char>,
    t: Set<Seq<char>>,
    v: Set<Seq<char>>,
    t_base: Set<Seq<char>>,
)
    requires
        t_base.subset_of(t),
    ensures
        forall|k: Seq<char>|
            t_base.contains(k) ==> !scan_dependents(g, i, pivot, t, v).0.contains(k),
    decreases unvisited_count(g, v), g.len() - i,
{
    if i < 0 || i >= g.len() {
    } else if entry_qualifies(g[i], pivot, t, v) {
        lemma_unvisited_count_insert(g, v, g[i].0, i);
        let sub = scan_dependents(g, 0, g[i].0, t, v.insert(g[i].0));
        let rest = scan_dependents(g, i + 1, pivot, sub.1, v);
        lemma_scan_excludes_triggered(g, 0, g[i].0, t, v.insert(g[i].0), t_base);
        lemma_scan_triggered_grows(g, 0, g[i].0, t, v.insert(g[i].0));
        lemma_scan_excludes_triggered(g, i + 1, pivot, sub.1, v, t_base);
        assert forall|k: Seq<char>| t_base.contains(k) implies !scan_dependents(
            g,
            i,
            pivot,
            t,
            v,
        ).0.contains(k) by {
            assert(t.contains(k));
            assert(seq![g[i].0] =~= Seq::<Seq<char>>::empty().push(g[i].0));
            assert(!(seq![g[i].0] + sub.0 + rest.0).contains(k));
        }
    } else {
        lemma_scan_excludes_triggered(g, i + 1, pivot, t, v, t_base);
    }
}

/// Dropping subsumed candidates never introduces a key.
pub proof fn lemma_filter_subsumed_membership(
    g: Seq<(Seq<char>, Seq<Seq<char>>)>,
    r: Seq<Seq<char>>,
    i: int,
)
    requires
        0 <= i <= r.len(),
    ensures
        forall|x: Seq<char>|
            filter_subsumed_up_to(g, r, i).contains(x) ==> r.subrange(0, i).contains(x),
    decreases i,
{
    if 0 < i {
        lemma_filter_subsumed_membership(g, r, i - 1);
        assert(r.subrange(0, i) =~= r.subrange(0, i - 1).push(r[i - 1]));
        assert forall|x: Seq<char>|
            filter_subsumed_up_to(g, r, i).contains(x) implies r.subrange(0, i).contains(x) by {
            let prev = filter_subsumed_up_to(g, r, i - 1);
            if !subsumed_by(g, r, r[i - 1]) {
                assert(prev.push(r[i - 1]).contains(x));
            }
            assert(r.subrange(0, i).contains(x) == r.subrange(0, i - 1).push(r[i - 1]).contains(
                x,
            ));
        }
    }
}

/// Deduplication keeps exactly the keys of its input.
pub proof fn lemma_dedup_membership(r: Seq<Seq<char>>, i: int)
    requires
        0 <= i <= r.len(),
    ensures
        forall|x: Seq<char>|
            dedup_up_to(r, i).contains(x) <==> r.subrange(0, i).contains(x),
    decreases i,
{
    if i > 0 {
        lemma_dedup_membership(r, i - 1);
        assert(r.subrange(0, i) =~= r.subrange(0, i - 1).push(r[i - 1]));
        assert forall|x: Seq<char>|
            dedup_up_to(r, i).contains(x) <==> r.subrange(0, i).contains(x) by {
            let prev = dedup_up_to(r, i - 1);
            if !r.subrange(0, i - 1).contains(r[i - 1]) {
                assert(dedup_up_to(r, i).contains(x) == prev.push(r[i - 1]).contains(x));
            }
            assert(r.subrange(0, i).contains(x) == r.subrange(0, i - 1).push(r[i - 1]).contains(
                x,
            ));
        }
    }
}

/// Every key of the frontier appears among the raw scan candidates.
pub proof fn lemma_frontier_membership(
    g: Seq<(Seq<char>, Seq<Seq<char>>)>,
    pivot: Seq<char>,
    t: Set<Seq<char>>,
)
    ensures
        forall|x: Seq<char>|
            resolve_frontier(g, pivot, t).contains(x) ==> scan_from_pivot(
                g,
                pivot,
                t,
            ).0.contains(x),
{
    let raw = scan_from_pivot(g, pivot, t).0;
    let kept = filter_subsumed(g, raw);
    lemma_filter_subsumed_membership(g, raw, raw.len() as int);
    lemma_dedup_membership(kept, kept.len() as int);
    assert(raw.subrange(0, raw.len() as int) =~= raw);
    assert(kept.subrange(0, kept.len() as int) =~= kept);
}

/// The frontier for `pivot` never contains `pivot` itself — on every graph,
/// cyclic ones included; resolution always terminates because the scan is a
/// total function.
pub proof fn lemma_frontier_excludes_pivot(
    g: Seq<(Seq<char>, Seq<Seq<char>>)>,
    pivot: Seq<char>,
    t: Set<Seq<char>>,
)
    ensures
        !resolve_frontier(g, pivot, t).contains(pivot),
{
    lemma_scan_excludes_visited(g, 0, pivot, t, Set::empty().insert(pivot));
    lemma_frontier_membership(g, pivot, t);
    assert(Set::<Seq<char>>::empty().insert(pivot).contains(pivot));
    assert(!scan_dependents(g, 0, pivot, t, Set::empty().insert(pivot)).0.contains(pivot));
}

/// Idempotence: a key already in the incoming triggered set never appears
/// in the frontier of the same call.
pub proof fn lemma_frontier_idempotent(
    g: Seq<(Seq<char>, Seq<Seq<char>>)>,
    pivot: Seq<char>,
    t: Set<Seq<char>>,
)
    ensures
        forall|k: Seq<char>| t.contains(k) ==> !resolve_frontier(g, pivot, t).contains(k),
{
    lemma_scan_excludes_triggered(g, 0, pivot, t, Set::empty().insert(pivot), t);
    lemma_frontier_membership(g, pivot, t);
    assert forall|k: Seq<char>| t.contains(k) implies !resolve_frontier(g, pivot, t).contains(
        k,
    ) by {
        assert(!scan_dependents(g, 0, pivot, t, Set::empty().insert(pivot)).0.contains(k));
    }
}

/// The triggered set only grows across a resolution call: everything
/// already scheduled stays scheduled.
pub proof fn lemma_triggered_grows(
    g: Seq<(Seq<char>, Seq<Seq<char>>)>,
    pivot: Seq<char>,
    t: Set<Seq<char>>,
)
    ensures
        t.subset_of(resolve_triggered(g, pivot, t)),
{
    lemma_scan_triggered_grows(g, 0, pivot, t, Set::empty().insert(pivot));
}

/// Determinism: the resolver's outcome is a function of the graph, the
/// pivot and the incoming triggered set alone, so any two runs on identical
/// inputs return the same frontier and leave the same triggered set behind.
pub proof fn lemma_resolve_deterministic(
    g: Seq<(Seq<char>, Seq<Seq<char>>)>,
    pivot: Seq<char>,
    t: Set<Seq<char>>,
    r1: Seq<Seq<char>>,
    t1: Set<Seq<char>>,
    r2: Seq<Seq<char>>,
    t2: Set<Seq<char>>,
)
    requires
        r1 == resolve_frontier(g, pivot, t),
        t1 == resolve_triggered(g, pivot, t),
        r2 == resolve_frontier(g, pivot, t),
        t2 == resolve_triggered(g, pivot, t),
    ensures
        r1 == r2,
        t1 == t2,
{
}

} // verus!
