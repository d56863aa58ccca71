use ginger_connector::reconcile::{
    apply_batch_outcomes, apply_reconcile_outcome, plan_reconcile, Config, DatabaseConfig, DbType,
    ReconcileAction, WriteOutcome,
};

fn db(name: &str, id: Option<&str>) -> DatabaseConfig {
    DatabaseConfig {
        db_type: DbType::Rdbms,
        description: "main database".to_string(),
        enable: true,
        id: id.map(|s| s.to_string()),
        name: name.to_string(),
        port: "5432".to_string(),
        studio_port: None,
    }
}

#[test]
fn entity_without_identifier_is_created_then_updated() {
    let mut e = db("users", None);
    // First pass: no identifier, so the plan is a create and never an
    // update.
    assert_eq!(plan_reconcile(&e), ReconcileAction::Create);
    apply_reconcile_outcome(&mut e, &WriteOutcome::Created("id-123".to_string()));
    assert_eq!(e.id, Some("id-123".to_string()));
    // Second pass: the identifier is now present, so the plan is an
    // update under it and never a create.
    assert_eq!(plan_reconcile(&e), ReconcileAction::Update("id-123".to_string()));
}

#[test]
fn empty_identifier_counts_as_absent() {
    let e = db("users", Some(""));
    assert_eq!(plan_reconcile(&e), ReconcileAction::Create);
}

#[test]
fn failed_create_leaves_entity_ready_for_retry() {
    let mut e = db("users", None);
    apply_reconcile_outcome(&mut e, &WriteOutcome::Failed);
    assert_eq!(e.id, None);
    assert_eq!(plan_reconcile(&e), ReconcileAction::Create);
}

#[test]
fn present_identifier_is_never_touched() {
    let mut e = db("users", Some("keep-me"));
    apply_reconcile_outcome(&mut e, &WriteOutcome::Failed);
    assert_eq!(e.id, Some("keep-me".to_string()));
    apply_reconcile_outcome(&mut e, &WriteOutcome::Updated);
    assert_eq!(e.id, Some("keep-me".to_string()));
    // Even a stray create outcome cannot overwrite it.
    apply_reconcile_outcome(&mut e, &WriteOutcome::Created("other".to_string()));
    assert_eq!(e.id, Some("keep-me".to_string()));
}

#[test]
fn batch_continues_past_failures() {
    let mut config = Config {
        branch: "main".to_string(),
        organization_id: "acme".to_string(),
        database: vec![db("a", None), db("b", Some("id-b")), db("c", None)],
    };
    let outcomes = vec![
        WriteOutcome::Failed,
        WriteOutcome::Updated,
        WriteOutcome::Created("id-c".to_string()),
    ];
    apply_batch_outcomes(&mut config, &outcomes);
    assert_eq!(config.database[0].id, None);
    assert_eq!(config.database[1].id, Some("id-b".to_string()));
    assert_eq!(config.database[2].id, Some("id-c".to_string()));
    assert_eq!(config.branch, "main");
    assert_eq!(config.organization_id, "acme");
}

#[test]
fn db_type_labels() {
    assert_eq!(DbType::Rdbms.label(), "rdbms");
    assert_eq!(DbType::DocumentDb.label(), "documentdb");
    assert_eq!(DbType::Cache.label(), "cache");
}

#[test]
fn db_type_parses_case_insensitively() {
    assert_eq!(DbType::parse("rdbms"), Some(DbType::Rdbms));
    assert_eq!(DbType::parse("RDBMS"), Some(DbType::Rdbms));
    assert_eq!(DbType::parse("DocumentDb"), Some(DbType::DocumentDb));
    assert_eq!(DbType::parse("CACHE"), Some(DbType::Cache));
    assert_eq!(DbType::parse("postgres"), None);
}
