use ginger_connector::resolver::{find_pipelines_to_trigger, DependencyGraph, TriggeredSet};

fn graph_of(entries: &[(&str, &[&str])]) -> DependencyGraph {
    let mut g = DependencyGraph::new();
    for (key, deps) in entries {
        g.insert(
            key.to_string(),
            deps.iter().map(|d| d.to_string()).collect::<Vec<String>>(),
        );
    }
    g
}

fn resolve(g: &DependencyGraph, pivot: &str, t: &mut TriggeredSet) -> Vec<String> {
    find_pipelines_to_trigger(g, &pivot.to_string(), t)
}

#[test]
fn diamond_frontier_drops_subsumed_candidate() {
    // D depends on both B and C, which are already scheduled, so D is
    // dropped from the frontier.
    let g = graph_of(&[("A", &[]), ("B", &["A"]), ("C", &["A"]), ("D", &["B", "C"])]);
    let mut t = TriggeredSet::new();
    let r = resolve(&g, "A", &mut t);
    assert_eq!(r, vec!["B".to_string(), "C".to_string()]);
}

#[test]
fn cyclic_graph_terminates_with_finite_result() {
    let g = graph_of(&[("A", &["B"]), ("B", &["A"])]);
    let mut t = TriggeredSet::new();
    let r = resolve(&g, "A", &mut t);
    assert_eq!(r, vec!["B".to_string()]);
    assert!(t.contains(&"A".to_string()));
    assert!(t.contains(&"B".to_string()));
}

#[test]
fn cyclic_graph_other_pivot() {
    let g = graph_of(&[("A", &["B"]), ("B", &["A"])]);
    let mut t = TriggeredSet::new();
    let r = resolve(&g, "B", &mut t);
    assert_eq!(r, vec!["A".to_string()]);
}

#[test]
fn result_never_contains_pivot() {
    let g = graph_of(&[("A", &["A"]), ("B", &["A", "B"])]);
    let mut t = TriggeredSet::new();
    let r = resolve(&g, "A", &mut t);
    assert!(!r.contains(&"A".to_string()));
}

#[test]
fn triggered_keys_never_reappear() {
    let g = graph_of(&[("A", &[]), ("B", &["A"]), ("C", &["B"])]);
    let mut t = TriggeredSet::new();
    t.insert("B".to_string());
    let r = resolve(&g, "A", &mut t);
    assert!(!r.contains(&"B".to_string()));
}

#[test]
fn repeated_resolution_is_deterministic() {
    let g = graph_of(&[
        ("A", &[]),
        ("B", &["A"]),
        ("C", &["A", "B"]),
        ("D", &["C"]),
        ("E", &["B", "D"]),
    ]);
    let mut t1 = TriggeredSet::new();
    let r1 = resolve(&g, "A", &mut t1);
    let mut t2 = TriggeredSet::new();
    let r2 = resolve(&g, "A", &mut t2);
    assert_eq!(r1, r2);
}

#[test]
fn chain_cascades_to_direct_dependent_only() {
    let g = graph_of(&[("A", &[]), ("B", &["A"]), ("C", &["B"])]);
    let mut t = TriggeredSet::new();
    let r = resolve(&g, "A", &mut t);
    // C is reached through the recursion into B but then filtered: its
    // dependency B is itself in the candidate set and will cascade.
    assert_eq!(r, vec!["B".to_string()]);
}

#[test]
fn unknown_pivot_yields_empty_frontier() {
    let g = graph_of(&[("A", &[]), ("B", &["A"])]);
    let mut t = TriggeredSet::new();
    let r = resolve(&g, "X", &mut t);
    assert!(r.is_empty());
    assert!(t.contains(&"X".to_string()));
}

#[test]
fn insert_replaces_existing_key() {
    let mut g = DependencyGraph::new();
    g.insert("A".to_string(), vec!["X".to_string()]);
    g.insert("A".to_string(), vec!["Y".to_string()]);
    assert_eq!(g.deps_of(&"A".to_string()), vec!["Y".to_string()]);
    assert_eq!(g.deps_of(&"B".to_string()), Vec::<String>::new());
}

#[test]
fn second_pass_skips_already_triggered_subtree() {
    let g = graph_of(&[("A", &[]), ("B", &["A"]), ("C", &["A"])]);
    let mut t = TriggeredSet::new();
    let first = resolve(&g, "A", &mut t);
    assert_eq!(first, vec!["B".to_string(), "C".to_string()]);
    // Everything reachable is now in the triggered set; a second pass on
    // the same pivot schedules nothing new.
    let second = resolve(&g, "A", &mut t);
    assert!(second.is_empty());
}

#[test]
fn empty_graph_resolves_to_nothing() {
    let g = DependencyGraph::new();
    let mut t = TriggeredSet::new();
    let r = resolve(&g, "A", &mut t);
    assert!(r.is_empty());
    assert!(t.contains(&"A".to_string()));
}

#[test]
fn triggered_set_deduplicates() {
    let mut t = TriggeredSet::new();
    t.insert("A".to_string());
    t.insert("A".to_string());
    assert!(t.contains(&"A".to_string()));
    assert!(!t.contains(&"B".to_string()));
}
