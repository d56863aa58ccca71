use ginger_connector::catalog::{
    default_selection_indices, partition_selected, service_display_names, service_identifiers,
    ServiceSummary,
};
use ginger_connector::config::{
    build_package_registration, build_pipeline_status_update, build_service_publish,
    refresh_shell_command, update_type_for, workflow_dispatch_url, Environment, Lang,
};
use ginger_connector::references::{format_reference_name, render_references};
use ginger_connector::text::{decimal_string, split_on_char, trim_chars};

#[test]
fn environment_labels_and_spec_keys() {
    assert_eq!(Environment::Dev.label(), "dev");
    assert_eq!(Environment::Stage.label(), "stage");
    assert_eq!(Environment::Prod.label(), "prod");
    assert_eq!(Environment::ProdK8.label(), "prod_k8");
    assert_eq!(Environment::StageK8.label(), "stage_k8");
    // The spec is read from the plain environment of the same stage.
    assert_eq!(Environment::ProdK8.swagger_key(), "prod");
    assert_eq!(Environment::StageK8.swagger_key(), "stage");
    assert_eq!(Environment::Dev.swagger_key(), "dev");
}

#[test]
fn language_labels_and_generator_names() {
    assert_eq!(Lang::Rust.label(), "Rust");
    assert_eq!(Lang::TS.label(), "TS");
    assert_eq!(Lang::TS.generator_language(), "typescript-fetch");
    assert_eq!(Lang::Rust.generator_language(), "rust");
    assert_eq!(Lang::Python.generator_language(), "python");
}

#[test]
fn update_type_follows_service_type() {
    assert_eq!(update_type_for(true), "service");
    assert_eq!(update_type_for(false), "package");
}

#[test]
fn pipeline_status_update_fields() {
    let u = build_pipeline_status_update(
        Environment::Stage,
        "waiting".to_string(),
        true,
        "acme".to_string(),
        "api".to_string(),
    );
    assert_eq!(u.env, "stage");
    assert_eq!(u.status, "waiting");
    assert_eq!(u.update_type, "service");
    assert_eq!(u.org_id, "acme");
    assert_eq!(u.identifier, "api");
}

#[test]
fn package_registration_concatenates_dependencies() {
    let service_keys = vec!["@acme/auth".to_string()];
    let internal = vec!["@acme/core".to_string(), "@acme/util".to_string()];
    let r = build_package_registration(
        "lib".to_string(),
        "library".to_string(),
        Lang::Rust,
        "1.0.0".to_string(),
        "acme".to_string(),
        "a library".to_string(),
        &service_keys,
        &internal,
        Environment::Dev,
        Some("https://github.com/acme".to_string()),
        "{}".to_string(),
    );
    assert_eq!(
        r.dependencies,
        vec!["@acme/auth".to_string(), "@acme/core".to_string(), "@acme/util".to_string()]
    );
    assert_eq!(r.lang, "Rust");
    assert_eq!(r.env, "dev");
    assert_eq!(r.identifier, "lib");
}

#[test]
fn service_publish_fields() {
    let r = build_service_publish(
        "api".to_string(),
        Environment::StageK8,
        "https://stage.example.com".to_string(),
        Some("wss://stage.example.com".to_string()),
        "{}".to_string(),
        &vec!["@acme/auth".to_string()],
        &vec!["@acme/core".to_string()],
        vec!["users".to_string()],
        Some("sch-db".to_string()),
        None,
        None,
        Some("RPCEndpoint".to_string()),
        "1.2.0".to_string(),
        Lang::Python,
        "the api".to_string(),
        "acme".to_string(),
        None,
        "{}".to_string(),
    );
    assert_eq!(r.env, "stage_k8");
    assert_eq!(r.dependencies, vec!["@acme/auth".to_string(), "@acme/core".to_string()]);
    assert_eq!(r.lang, "Python");
    assert_eq!(r.db_schema_id, Some("sch-db".to_string()));
}

#[test]
fn workflow_dispatch_url_shape() {
    assert_eq!(
        workflow_dispatch_url(&"acme".to_string(), &"core".to_string()),
        "https://api.github.com/repos/acme/core/actions/workflows/CI.yml/dispatches"
    );
}

#[test]
fn refresh_commands_per_language() {
    let dep = "@acme/ui".to_string();
    let pkg = "ui".to_string();
    let ver = "1.2.3".to_string();
    assert_eq!(
        refresh_shell_command(Lang::TS, &dep, &pkg, &ver),
        Some("pnpm add @acme/ui@1.2.3".to_string())
    );
    assert_eq!(
        refresh_shell_command(Lang::Rust, &dep, &pkg, &ver),
        Some("cargo add ui@1.2.3".to_string())
    );
    assert_eq!(refresh_shell_command(Lang::Python, &dep, &pkg, &ver), None);
}

#[test]
fn reference_names_are_upper_snake() {
    assert_eq!(format_reference_name(&"@acme/my-portal".to_string()), "ACME_MY_PORTAL");
    assert_eq!(format_reference_name(&"plain".to_string()), "PLAIN");
}

#[test]
fn rendered_references_one_line_per_portal() {
    let entries = vec![
        ("@acme/shop".to_string(), "https://shop.example.com".to_string()),
        ("@acme/admin".to_string(), "https://admin.example.com".to_string()),
    ];
    assert_eq!(
        render_references(&entries),
        "export const ACME_SHOP = 'https://shop.example.com';\n\
         export const ACME_ADMIN = 'https://admin.example.com';\n"
    );
}

fn summary(id: &str, org: &str, ty: Option<&str>) -> ServiceSummary {
    ServiceSummary {
        identifier: id.to_string(),
        organization_id: org.to_string(),
        service_type: ty.map(|s| s.to_string()),
        envs: vec![("dev".to_string(), format!("https://{}.dev", id))],
    }
}

#[test]
fn catalogue_lists_exclude_the_current_project() {
    let services = vec![
        summary("api", "acme", Some("RPCEndpoint")),
        summary("shop", "acme", Some("Portal")),
        summary("me", "acme", None),
    ];
    let current = "me".to_string();
    assert_eq!(
        service_identifiers(&services, &current),
        vec!["api".to_string(), "shop".to_string()]
    );
    assert_eq!(
        service_display_names(&services, &current),
        vec!["@acme/api".to_string(), "@acme/shop".to_string()]
    );
}

#[test]
fn default_selection_marks_configured_entries() {
    let names = vec!["api".to_string(), "shop".to_string(), "blog".to_string()];
    let service_keys = vec!["blog".to_string()];
    let portal_keys = vec!["shop".to_string()];
    assert_eq!(default_selection_indices(&names, &service_keys, &portal_keys), vec![1, 2]);
}

#[test]
fn selection_partitions_by_service_type() {
    let services = vec![
        summary("api", "acme", Some("RPCEndpoint")),
        summary("shop", "acme", Some("Portal")),
        summary("odd", "acme", Some("Batch")),
        summary("bare", "acme", None),
    ];
    let selected = vec![
        "@acme/shop".to_string(),
        "@acme/api".to_string(),
        "@acme/odd".to_string(),
        "@acme/bare".to_string(),
        "@acme/ghost".to_string(),
    ];
    let (portals, rpcs) = partition_selected(&selected, &services);
    assert_eq!(portals.len(), 1);
    assert_eq!(portals[0].0, "@acme/shop");
    assert_eq!(portals[0].1, vec![("dev".to_string(), "https://shop.dev".to_string())]);
    assert_eq!(rpcs.len(), 1);
    assert_eq!(rpcs[0].0, "@acme/api");
}

#[test]
fn text_utilities() {
    assert_eq!(trim_chars("  hello\t"), "hello");
    assert_eq!(trim_chars(""), "");
    assert_eq!(
        split_on_char("a#b##c", '#'),
        vec!["a".to_string(), "b".to_string(), "".to_string(), "c".to_string()]
    );
    assert_eq!(decimal_string(0), "0");
    assert_eq!(decimal_string(40501), "40501");
}
