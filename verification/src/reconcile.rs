//! Registration reconciliation: idempotent create-or-update of database
//! schemas against the remote registry.
//!
//! An entity that already carries a non-empty identifier is updated under
//! that identifier; one without is created, and a successful create binds
//! the returned identifier.  Identifier assignment is one-directional:
//! once present it is never cleared or changed, so a later pass updates
//! instead of creating again.

use crate::text::{ascii_lower, char_to_ascii_lowercase, push_char};
use vstd::prelude::*;
use vstd::string::StrSliceExecFns;
use vstd::string::StringExecFns;

verus! {

/// Kind of database a schema describes.
#[derive(Debug, Clone, PartialEq)]
pub enum DbType {
    Rdbms,
    DocumentDb,
    Cache,
}

/// One database entry of the local composition state.
#[derive(Debug, Clone, PartialEq)]
pub struct DatabaseConfig {
    pub db_type: DbType,
    pub description: String,
    pub enable: bool,
    pub id: Option<String>,
    pub name: String,
    pub port: String,
    pub studio_port: Option<String>,
}

/// The local composition state: every database of one organization branch.
#[derive(Debug, Clone, PartialEq)]
pub struct Config {
    pub branch: String,
    pub organization_id: String,
    pub database: Vec<DatabaseConfig>,
}

/// The lowercase name a database kind prints as.
pub open spec fn db_type_label(t: DbType) -> Seq<char> {
    match t {
        DbType::Rdbms => seq!['r', 'd', 'b', 'm', 's'],
        DbType::DocumentDb => seq!['d', 'o', 'c', 'u', 'm', 'e', 'n', 't', 'd', 'b'],
        DbType::Cache => seq!['c', 'a', 'c', 'h', 'e'],
    }
}

/// The input with ASCII letters lowered, the form database kinds are
/// recognized in.
pub open spec fn ascii_lower_seq(s: Seq<char>) -> Seq<char> {
    s.map_values(|c: char| ascii_lower(c))
}

/// The database kind a string names, up to ASCII case.
pub open spec fn spec_db_type_of(s: Seq<char>) -> Option<DbType> {
    if ascii_lower_seq(s) == db_type_label(DbType::Rdbms) {
        Some(DbType::Rdbms)
    } else if ascii_lower_seq(s) == db_type_label(DbType::DocumentDb) {
        Some(DbType::DocumentDb)
    } else if ascii_lower_seq(s) == db_type_label(DbType::Cache) {
        Some(DbType::Cache)
    } else {
        None
    }
}

impl DbType {
    /// Lowercase name of the database kind.
    pub fn label(&self) -> (r: String)
        ensures
            r@ == db_type_label(*self),
    {
        match self {
            DbType::Rdbms => {
                let r = String::from_str("rdbms");
                proof {
                    reveal_strlit("rdbms");
                    assert(r@ =~= db_type_label(DbType::Rdbms));
                }
                r
            },
            DbType::DocumentDb => {
                let r = String::from_str("documentdb");
                proof {
                    reveal_strlit("documentdb");
                    assert(r@ =~= db_type_label(DbType::DocumentDb));
                }
                r
            },
            DbType::Cache => {
                let r = String::from_str("cache");
                proof {
                    reveal_strlit("cache");
                    assert(r@ =~= db_type_label(DbType::Cache));
                }
                r
            },
        }
    }

    /// The database kind a string names, compared without regard to ASCII
    /// case; `None` for anything else.
    pub fn parse(s: &str) -> (r: Option<DbType>)
        ensures
            r == spec_db_type_of(s@),
    {
        let n = s.unicode_len();
        let mut lowered = String::new();
        let mut i: usize = 0;
        while i < n
            invariant
                i <= n,
                n == s@.len(),
                lowered@ == s@.subrange(0, i as int).map_values(|c: char| ascii_lower(c)),
            decreases n - i,
        {
            let c = char_to_ascii_lowercase(s.get_char(i));
            push_char(&mut lowered, c);
            proof {
                assert(lowered@ =~= s@.subrange(0, i as int + 1).map_values(
                    |c: char| ascii_lower(c),
                ));
            }
            i += 1;
        }
        proof {
            assert(s@.subrange(0, n as int) =~= s@);
            reveal_strlit("rdbms");
            reveal_strlit("documentdb");
            reveal_strlit("cache");
            assert("rdbms"@ =~= db_type_label(DbType::Rdbms));
            assert("documentdb"@ =~= db_type_label(DbType::DocumentDb));
            assert("cache"@ =~= db_type_label(DbType::Cache));
        }
        if lowered.eq(&String::from_str("rdbms")) {
            Some(DbType::Rdbms)
        } else if lowered.eq(&String::from_str("documentdb")) {
            Some(DbType::DocumentDb)
        } else if lowered.eq(&String::from_str("cache")) {
            Some(DbType::Cache)
        } else {
            None
        }
    }
}

/// Whether an entity already carries a usable identifier: present and
/// non-empty.
pub open spec fn has_identifier(d: DatabaseConfig) -> bool {
    match d.id {
        Some(s) => s@.len() > 0,
        None => false,
    }
}

/// What one reconciliation pass does with an entity.
#[derive(Debug, Clone, PartialEq)]
pub enum ReconcileAction {
    /// Update the remote record under the identifier already held.
    Update(String),
    /// Create the remote record and adopt the identifier it returns.
    Create,
}

/// What the remote write returned, as the reconciler sees it.
#[derive(Debug, Clone, PartialEq)]
pub enum WriteOutcome {
    /// A create succeeded and assigned this identifier.
    Created(String),
    /// An update succeeded.
    Updated,
    /// The write failed; the batch moves on to the next entity.
    Failed,
}

/// Decides the action for one entity: update under a present, non-empty
/// identifier, create otherwise.
pub fn plan_reconcile(db: &DatabaseConfig) -> (a: ReconcileAction)
    ensures
        has_identifier(*db) ==> (match a {
            ReconcileAction::Update(id) => db.id == Some(id),
            ReconcileAction::Create => false,
        }),
        !has_identifier(*db) ==> a == ReconcileAction::Create,
{
    match &db.id {
        Some(id) => {
            if !id.as_str().is_empty() {
                let copy = id.clone();
                proof {
                    assert(db.id == Some(copy));
                }
                ReconcileAction::Update(copy)
            } else {
                ReconcileAction::Create
            }
        },
        None => ReconcileAction::Create,
    }
}

/// How one entity changes when a write outcome is folded back in:
/// identifier assignment is one-directional (absent to present, on a
/// successful create) and every other field is untouched.
pub open spec fn reconcile_step(
    before: DatabaseConfig,
    outcome: WriteOutcome,
    after: DatabaseConfig,
) -> bool {
    &&& after.db_type == before.db_type
    &&& after.description == before.description
    &&& after.enable == before.enable
    &&& after.name == before.name
    &&& after.port == before.port
    &&& after.studio_port == before.studio_port
    &&& if has_identifier(before) {
        after.id == before.id
    } else {
        match outcome {
            WriteOutcome::Created(id) => after.id == Some(id),
            WriteOutcome::Updated => after.id == before.id,
            WriteOutcome::Failed => after.id == before.id,
        }
    }
}

/// Folds one write outcome back into the entity.  An entity that already
/// has an identifier keeps it untouched; one without adopts the identifier
/// a successful create returned, and keeps its empty state on failure so
/// the next run retries creation.
pub fn apply_reconcile_outcome(db: &mut DatabaseConfig, outcome: &WriteOutcome)
    ensures
        reconcile_step(*old(db), *outcome, *final (db)),
        has_identifier(*old(db)) ==> final (db).id == old(db).id,
{
    let keep = match &db.id {
        Some(id) => !id.as_str().is_empty(),
        None => false,
    };
    if !keep {
        match outcome {
            WriteOutcome::Created(id) => {
                db.id = Some(id.clone());
            },
            WriteOutcome::Updated => {},
            WriteOutcome::Failed => {},
        }
    }
}

/// Folds a whole batch of write outcomes back into the local state, one
/// per database, leaving branch and organization untouched.  This is the
/// in-memory step before the state file is rewritten wholesale.
pub fn apply_batch_outcomes(config: &mut Config, outcomes: &Vec<WriteOutcome>)
    requires
        outcomes@.len() == old(config).database@.len(),
    ensures
        final (config).branch == old(config).branch,
        final (config).organization_id == old(config).organization_id,
        final (config).database@.len() == old(config).database@.len(),
        forall|i: int|
            0 <= i < old(config).database@.len() ==> reconcile_step(
                old(config).database@[i],
                outcomes@[i],
                #[trigger] final (config).database@[i],
            ),
{
    let n = config.database.len();
    let mut i: usize = 0;
    while i < n
        invariant
            i <= n,
            n == config.database@.len(),
            n == old(config).database@.len(),
            n == outcomes@.len(),
            config.branch == old(config).branch,
            config.organization_id == old(config).organization_id,
            forall|j: int|
                0 <= j < i ==> reconcile_step(
                    old(config).database@[j],
                    outcomes@[j],
                    #[trigger] config.database@[j],
                ),
            forall|j: int| i <= j < n ==> config.database@[j] == old(config).database@[j],
        decreases n - i,
    {
        apply_reconcile_outcome(&mut config.database[i], &outcomes[i]);
        i += 1;
    }
}

/// Identifier monotonicity: across any reconciliation step, an identifier
/// already present is kept unchanged, and once an entity has an identifier
/// no later step removes it.
pub proof fn lemma_identifier_monotone(
    before: DatabaseConfig,
    outcome: WriteOutcome,
    after: DatabaseConfig,
)
    requires
        reconcile_step(before, outcome, after),
    ensures
        has_identifier(before) ==> after.id == before.id && has_identifier(after),
{
}

} // verus!
