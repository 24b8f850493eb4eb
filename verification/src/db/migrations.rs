//! The schema versions applied to the database, and the decision to apply
//! the initial schema once.

use vstd::prelude::*;

verus! {

/// A schema version recorded as applied.
#[derive(Debug)]
pub struct AppliedMigration {
    pub version: i64,
    pub name: String,
    pub applied_at: String,
}

/// The record of applied schema versions, in the order they were applied.
#[derive(Debug)]
pub struct MigrationLog {
    pub applied: Vec<AppliedMigration>,
}

impl View for AppliedMigration {
    type V = (i64, Seq<char>, Seq<char>);

    open spec fn view(&self) -> (i64, Seq<char>, Seq<char>) {
        (self.version, self.name@, self.applied_at@)
    }
}

/// Whether `version` is among the recorded entries.
pub open spec fn recorded(entries: Seq<(i64, Seq<char>, Seq<char>)>, version: i64) -> bool {
    exists|i: int| 0 <= i < entries.len() && #[trigger] entries[i].0 == version
}

/// What bringing the schema up to date at `applied_at` does to the recorded
/// entries: whether the initial schema is applied now, and the entries
/// after.
pub open spec fn initialized(entries: Seq<(i64, Seq<char>, Seq<char>)>, applied_at: Seq<char>) -> (
    bool,
    Seq<(i64, Seq<char>, Seq<char>)>,
) {
    if recorded(entries, initial_schema_version()) {
        (false, entries)
    } else {
        (true, entries.push((initial_schema_version(), "initial_schema"@, applied_at)))
    }
}

impl MigrationLog {
    /// The applied versions with their names and times, in order.
    pub open spec fn entries(&self) -> Seq<(i64, Seq<char>, Seq<char>)> {
        self.applied@.map_values(|m: AppliedMigration| m@)
    }

    /// Whether `version` is recorded as applied.
    pub open spec fn has(&self, version: i64) -> bool {
        recorded(self.entries(), version)
    }

    /// Whether `version` is recorded as applied.
    pub fn is_applied(&self, version: i64) -> (r: bool)
        ensures
            r == self.has(version),
    {
        let n = self.applied.len();
        let mut i: usize = 0;
        while i < n
            invariant
                n == self.applied@.len(),
                i <= n,
                forall|j: int| 0 <= j < i ==> #[trigger] self.applied@[j].version != version,
            decreases n - i,
        {
            assert(self.entries()[i as int].0 == self.applied@[i as int].version);
            if self.applied[i].version == version {
                return true;
            }
            i = i + 1;
        }
        assert forall|j: int| 0 <= j < self.entries().len() implies #[trigger] self.entries()[j].0
            != version by {
            assert(self.entries()[j].0 == self.applied@[j].version);
        }
        false
    }
}

/// Records `version` (named `name`, applied at `applied_at`) unless it is
/// recorded already. Returns whether it was recorded now, that is, whether
/// its schema must be applied.
pub fn apply_migration_if_needed(log: &mut MigrationLog, version: i64, name: &str, applied_at: &str) -> (r:
    bool)
    ensures
        r == !old(log).has(version),
        final(log).entries() == if r {
            old(log).entries().push((version, name@, applied_at@))
        } else {
            old(log).entries()
        },
        final(log).has(version),
{
    if log.is_applied(version) {
        return false;
    }
    let ghost before = log.applied@;
    let m = AppliedMigration {
        version,
        name: String::from_str(name),
        applied_at: String::from_str(applied_at),
    };
    log.applied.push(m);
    proof {
        assert(log.applied@ =~= before.push(m));
        assert(log.entries() =~= before.map_values(|m: AppliedMigration| m@).push(m@));
        assert(log.entries()[before.len() as int].0 == version);
    }
    true
}

/// The version of the initial schema.
pub open spec fn initial_schema_version() -> i64 {
    1
}

/// Brings the schema up to date at time `applied_at`: records the initial
/// schema (version 1, `initial_schema`) unless it is recorded already.
/// Returns whether the initial schema must be applied now.
pub fn initialize_database(log: &mut MigrationLog, applied_at: &str) -> (r: bool)
    ensures
        (r, final(log).entries()) == initialized(old(log).entries(), applied_at@),
{
    apply_migration_if_needed(log, 1, "initial_schema", applied_at)
}

/// Bringing the schema up to date twice applies it once: the second time
/// nothing is to be applied and the record stays as it is.
pub proof fn lemma_initialize_twice(
    entries: Seq<(i64, Seq<char>, Seq<char>)>,
    first_at: Seq<char>,
    second_at: Seq<char>,
)
    ensures
        initialized(initialized(entries, first_at).1, second_at) == (false, initialized(
            entries,
            first_at,
        ).1),
{
    let e1 = initialized(entries, first_at).1;
    if !recorded(entries, initial_schema_version()) {
        assert(e1[entries.len() as int].0 == initial_schema_version());
    }
}

} // verus!
