use ginger_connector::graph::{
    build_dependency_graph, effective_dependencies, EntityKind, PackageListing, SchemaListing,
    ServiceListing,
};
use ginger_connector::keys::{dependency_key, extract_org_and_package, extract_username_and_repo};
use ginger_connector::resolver::{find_pipelines_to_trigger, TriggeredSet};

fn pkg(id: &str, deps: &[&str], origin: Option<&str>) -> PackageListing {
    PackageListing {
        identifier: id.to_string(),
        dependencies: deps.iter().map(|d| d.to_string()).collect(),
        repo_origin: origin.map(|s| s.to_string()),
    }
}

fn svc(id: &str, deps: &[&str], db: Option<&str>, cache: Option<&str>, mq: Option<&str>) -> ServiceListing {
    ServiceListing {
        identifier: id.to_string(),
        dependencies: deps.iter().map(|d| d.to_string()).collect(),
        db_schema_id: db.map(|s| s.to_string()),
        cache_schema_id: cache.map(|s| s.to_string()),
        message_queue_schema_id: mq.map(|s| s.to_string()),
        repo_origin: Some("https://github.com/acme/service".to_string()),
    }
}

fn schema(id: &str, name: &str) -> SchemaListing {
    SchemaListing { identifier: id.to_string(), name: name.to_string() }
}

#[test]
fn service_gains_edges_to_referenced_schemas() {
    let s = svc("api", &["@acme/core"], Some("sch-db"), None, Some("sch-mq"));
    let schemas = vec![schema("sch-db", "maindb"), schema("sch-x", "other"), schema("sch-mq", "queue")];
    let deps = effective_dependencies(&s, &schemas, &"acme".to_string());
    assert_eq!(
        deps,
        vec!["@acme/core".to_string(), "@acme/maindb".to_string(), "@acme/queue".to_string()]
    );
}

#[test]
fn builder_merges_packages_and_services() {
    let org = "acme".to_string();
    let packages = vec![
        pkg("core", &[], Some("https://github.com/acme/core")),
        pkg("lib", &["@acme/core"], None),
    ];
    let services = vec![svc("api", &["@acme/lib"], Some("sch-db"), None, None)];
    let schemas = vec![schema("sch-db", "maindb")];
    let bundle = build_dependency_graph(&org, &packages, &services, &schemas);

    assert_eq!(
        bundle.graph.deps_of(&"@acme/api".to_string()),
        vec!["@acme/lib".to_string(), "@acme/maindb".to_string()]
    );
    assert_eq!(bundle.graph.deps_of(&"@acme/lib".to_string()), vec!["@acme/core".to_string()]);

    assert_eq!(bundle.kind_for(&"@acme/core".to_string()), Some(EntityKind::Package));
    assert_eq!(bundle.kind_for(&"@acme/api".to_string()), Some(EntityKind::Service));
    assert_eq!(bundle.kind_for(&"@acme/nope".to_string()), None);

    assert_eq!(
        bundle.repo_for(&"@acme/core".to_string()),
        Some(Some(("acme".to_string(), "core".to_string())))
    );
    // Known key, but no origin URL recorded.
    assert_eq!(bundle.repo_for(&"@acme/lib".to_string()), Some(None));
    assert_eq!(bundle.repo_for(&"@acme/nope".to_string()), None);
}

#[test]
fn built_graph_resolves_end_to_end() {
    let org = "acme".to_string();
    let packages = vec![
        pkg("core", &[], None),
        pkg("lib", &["@acme/core"], None),
        pkg("ui", &["@acme/core"], None),
        pkg("app", &["@acme/lib", "@acme/ui"], None),
    ];
    let bundle = build_dependency_graph(&org, &packages, &vec![], &vec![]);
    let mut t = TriggeredSet::new();
    let r = find_pipelines_to_trigger(&bundle.graph, &"@acme/core".to_string(), &mut t);
    assert_eq!(r, vec!["@acme/lib".to_string(), "@acme/ui".to_string()]);
}

#[test]
fn dependency_key_joins_org_and_name() {
    assert_eq!(dependency_key(&"acme".to_string(), &"core".to_string()), "@acme/core");
}

#[test]
fn slug_split_accepts_canonical_keys() {
    assert_eq!(
        extract_org_and_package("@acme/core"),
        Some(("acme".to_string(), "core".to_string()))
    );
    // Every leading at sign is stripped from the organization part.
    assert_eq!(
        extract_org_and_package("@@acme/core"),
        Some(("acme".to_string(), "core".to_string()))
    );
    assert_eq!(extract_org_and_package("acme/core"), None);
    assert_eq!(extract_org_and_package("@acme"), None);
    assert_eq!(extract_org_and_package("@acme/core/extra"), None);
}

#[test]
fn origin_split_accepts_canonical_urls() {
    assert_eq!(
        extract_username_and_repo("https://github.com/acme/core"),
        Some(("acme".to_string(), "core".to_string()))
    );
    assert_eq!(extract_username_and_repo("https://gitlab.com/acme/core"), None);
    assert_eq!(extract_username_and_repo("https://github.com/acme"), None);
    assert_eq!(extract_username_and_repo("https://github.com/acme/core/tree"), None);
}
