use ginger_connector::requirements::{internal_requirements, update_requirement_lines};

fn lines(v: &[&str]) -> Vec<String> {
    v.iter().map(|s| s.to_string()).collect()
}

#[test]
fn collects_pinned_and_commented_internal_dependencies() {
    let reqs = lines(&[
        "requests==2.0 #acme",
        "# @acme/tools",
        "numpy==1.26",
        "mylib==0.1 #other",
        "   ",
    ]);
    let deps = internal_requirements(&reqs, &"acme".to_string());
    assert_eq!(deps, vec!["@acme/requests".to_string(), "@acme/tools".to_string()]);
}

#[test]
fn unpinned_dependency_with_matching_comment_is_kept_whole() {
    let reqs = lines(&["flask #acme"]);
    let deps = internal_requirements(&reqs, &"acme".to_string());
    assert_eq!(deps, vec!["@acme/flask".to_string()]);
}

#[test]
fn comment_line_is_stripped_and_trimmed() {
    let reqs = lines(&["##  @acme/shared  "]);
    let deps = internal_requirements(&reqs, &"acme".to_string());
    assert_eq!(deps, vec!["@acme/shared".to_string()]);
}

#[test]
fn refresh_rewrites_exactly_the_matching_pin() {
    let reqs = lines(&[
        "requests==2.0 #acme",
        "numpy==1.26",
        "other==3.3 #acme",
    ]);
    let (updated, changed) =
        update_requirement_lines(&reqs, &"requests".to_string(), &"2.5".to_string(), &"acme".to_string());
    assert!(changed);
    assert_eq!(
        updated,
        vec![
            "requests==2.5 #acme".to_string(),
            "numpy==1.26".to_string(),
            "other==3.3 #acme".to_string(),
        ]
    );
}

#[test]
fn refresh_without_a_match_changes_nothing() {
    let reqs = lines(&["requests==2.0 #acme", ""]);
    let (updated, changed) =
        update_requirement_lines(&reqs, &"missing".to_string(), &"9.9".to_string(), &"acme".to_string());
    assert!(!changed);
    assert_eq!(updated, reqs);
}

#[test]
fn refresh_ignores_other_organizations() {
    let reqs = lines(&["requests==2.0 #other"]);
    let (updated, changed) =
        update_requirement_lines(&reqs, &"requests".to_string(), &"2.5".to_string(), &"acme".to_string());
    assert!(!changed);
    assert_eq!(updated, reqs);
}
