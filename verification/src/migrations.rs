//! Schema migrations.
//!
//! An ordered list of steps, each applied in a transaction of its own. The
//! `schema_version` table records the versions that were applied.

use vstd::prelude::*;

use crate::error::SqliteError;
use crate::text;

verus! {

/// One step.
#[derive(Debug, Clone, Copy)]
pub struct Migration {
    /// Version that the step brings the schema to.
    pub version: u32,
    /// Name, for messages.
    pub name: &'static str,
    /// Script that the step runs, as a path beside the program's own files.
    pub sql: &'static str,
}

/// Errors of the migration runner.
#[derive(Debug)]
#[non_exhaustive]
pub enum MigrationError {
    /// The database is at a schema version this build does not know.
    SchemaTooNew {
        /// Highest version known to this build.
        binary_max: u32,
        /// Version recorded in the database.
        file_current: u32,
    },
    /// A database error.
    Sqlite(SqliteError),
}

/// The highest version that this build knows.
pub const LATEST_VERSION: u32 = 12;

/// The name of the step to a version.
pub open spec fn step_name(version: u32) -> Seq<char> {
    match version {
        1 => "initial_schema"@,
        2 => "entry_custom_field"@,
        3 => "meta"@,
        4 => "group_sort_order"@,
        5 => "entry_has_totp"@,
        6 => "entry_custom_data"@,
        7 => "owner_conflict_rows"@,
        8 => "entry_previous_parent"@,
        9 => "conflict_entry_attachment"@,
        10 => "entry_location_changed"@,
        11 => "group_location_changed"@,
        _ => "persistence_watermark"@,
    }
}

/// The script of the step to a version.
pub open spec fn step_script(version: u32) -> Seq<char> {
    match version {
        1 => "migrations/0001_initial_schema.sql"@,
        2 => "migrations/0002_entry_custom_field.sql"@,
        3 => "migrations/0003_meta.sql"@,
        4 => "migrations/0004_group_sort_order.sql"@,
        5 => "migrations/0005_entry_has_totp.sql"@,
        6 => "migrations/0006_entry_custom_data.sql"@,
        7 => "migrations/0007_owner_conflict_rows.sql"@,
        8 => "migrations/0008_entry_previous_parent.sql"@,
        9 => "migrations/0009_conflict_entry_attachment.sql"@,
        10 => "migrations/0010_entry_location_changed.sql"@,
        11 => "migrations/0011_group_location_changed.sql"@,
        _ => "migrations/0012_persistence_watermark.sql"@,
    }
}

/// Whether a list holds one step for each version from `from + 1` to the
/// latest, in order.
pub open spec fn steps_after(steps: Seq<Migration>, from: u32) -> bool {
    &&& steps.len() == LATEST_VERSION - from
    &&& forall|i: int| 0 <= i < steps.len() ==> (#[trigger] steps[i]).version == from + 1 + i
    &&& forall|i: int|
        0 <= i < steps.len() ==> (#[trigger] steps[i]).name@ == step_name(steps[i].version)
            && steps[i].sql@ == step_script(steps[i].version)
}

/// Every step this build knows, in order.
pub fn known_migrations() -> (r: Vec<Migration>)
    ensures
        steps_after(r@, 0),
        r@.len() > 0,
{
    vec![
        Migration {
            version: 1,
            name: "initial_schema",
            sql: "migrations/0001_initial_schema.sql",
        },
        Migration {
            version: 2,
            name: "entry_custom_field",
            sql: "migrations/0002_entry_custom_field.sql",
        },
        Migration { version: 3, name: "meta", sql: "migrations/0003_meta.sql" },
        Migration {
            version: 4,
            name: "group_sort_order",
            sql: "migrations/0004_group_sort_order.sql",
        },
        Migration {
            version: 5,
            name: "entry_has_totp",
            sql: "migrations/0005_entry_has_totp.sql",
        },
        Migration {
            version: 6,
            name: "entry_custom_data",
            sql: "migrations/0006_entry_custom_data.sql",
        },
        Migration {
            version: 7,
            name: "owner_conflict_rows",
            sql: "migrations/0007_owner_conflict_rows.sql",
        },
        Migration {
            version: 8,
            name: "entry_previous_parent",
            sql: "migrations/0008_entry_previous_parent.sql",
        },
        Migration {
            version: 9,
            name: "conflict_entry_attachment",
            sql: "migrations/0009_conflict_entry_attachment.sql",
        },
        Migration {
            version: 10,
            name: "entry_location_changed",
            sql: "migrations/0010_entry_location_changed.sql",
        },
        Migration {
            version: 11,
            name: "group_location_changed",
            sql: "migrations/0011_group_location_changed.sql",
        },
        Migration {
            version: 12,
            name: "persistence_watermark",
            sql: "migrations/0012_persistence_watermark.sql",
        },
    ]
}

/// The version that a stored number stands for: zero where it is negative, and
/// the largest there is where it is beyond that.
pub open spec fn version_of(raw: i64) -> u32 {
    if raw < 0 {
        0
    } else if raw <= u32::MAX {
        raw as u32
    } else {
        u32::MAX
    }
}

/// The steps that a database still needs, in order. `recorded` is the highest
/// version its table holds, zero where it holds none. A database that is ahead
/// of this build is refused, however far ahead it is.
pub fn pending(recorded: i64) -> (r: Result<Vec<Migration>, MigrationError>)
    ensures
        match r {
            Ok(steps) => {
                &&& recorded <= LATEST_VERSION
                &&& steps_after(steps@, version_of(recorded))
            },
            Err(e) => {
                &&& recorded > LATEST_VERSION
                &&& e == (MigrationError::SchemaTooNew {
                    binary_max: LATEST_VERSION,
                    file_current: version_of(recorded),
                })
            },
        },
{
    let current: u32 = if recorded < 0 {
        0
    } else if recorded <= 0xffff_ffff {
        recorded as u32
    } else {
        u32::MAX
    };
    let all = known_migrations();
    let binary_max: u32 = all[all.len() - 1].version;
    if current > binary_max {
        return Err(MigrationError::SchemaTooNew { binary_max, file_current: current });
    }
    let mut out: Vec<Migration> = Vec::new();
    let mut i: usize = 0;
    while i < all.len()
        invariant
            i <= all.len(),
            steps_after(all@, 0),
            current <= LATEST_VERSION,
            out@.len() == (if i <= current {
                0
            } else {
                i - current
            }),
            forall|k: int| 0 <= k < out@.len() ==> (#[trigger] out@[k]).version == current + 1 + k,
            forall|k: int|
                0 <= k < out@.len() ==> (#[trigger] out@[k]).name@ == step_name(out@[k].version)
                    && out@[k].sql@ == step_script(out@[k].version),
        decreases all.len() - i,
    {
        if all[i].version > current {
            out.push(all[i]);
        }
        i = i + 1;
    }
    Ok(out)
}

// ------------------------------------------------------------- the version table

/// The `schema_version` table.
#[derive(Debug)]
pub struct SchemaVersions {
    /// Recorded versions.
    pub versions: Vec<i64>,
}

/// The highest of the first `n` recorded versions; zero where there is none.
pub open spec fn highest(versions: Seq<i64>, n: nat) -> i64
    decreases n,
{
    if n == 0 || n > versions.len() {
        0
    } else {
        let before = highest(versions, (n - 1) as nat);
        if versions[n - 1] > before {
            versions[n - 1]
        } else {
            before
        }
    }
}

/// The table after steps were applied.
pub open spec fn recorded(versions: Seq<i64>, steps: Seq<Migration>) -> Seq<i64> {
    versions + Seq::new(steps.len(), |i: int| steps[i].version as i64)
}

impl SchemaVersions {
    /// An empty table.
    pub fn new() -> (r: SchemaVersions)
        ensures
            r.versions@.len() == 0,
    {
        SchemaVersions { versions: Vec::new() }
    }

    /// The highest recorded version.
    pub fn current(&self) -> (r: i64)
        ensures
            r == highest(self.versions@, self.versions@.len()),
    {
        let mut top: i64 = 0;
        let mut i: usize = 0;
        while i < self.versions.len()
            invariant
                i <= self.versions.len(),
                top == highest(self.versions@, i as nat),
            decreases self.versions.len() - i,
        {
            if self.versions[i] > top {
                top = self.versions[i];
            }
            i = i + 1;
        }
        top
    }

    /// Applies every step above the recorded version, in order, and records
    /// each. Returns the steps. A table that is ahead of this build is refused
    /// and stays as it is.
    pub fn apply_pending(&mut self) -> (r: Result<Vec<Migration>, MigrationError>)
        ensures
            ({
                let current = highest(old(self).versions@, old(self).versions@.len());
                match r {
                    Ok(steps) => {
                        &&& current <= LATEST_VERSION
                        &&& steps_after(steps@, version_of(current))
                        &&& final(self).versions@ == recorded(old(self).versions@, steps@)
                    },
                    Err(e) => {
                        &&& current > LATEST_VERSION
                        &&& e == (MigrationError::SchemaTooNew {
                            binary_max: LATEST_VERSION,
                            file_current: version_of(current),
                        })
                        &&& *final(self) == *old(self)
                    },
                }
            }),
    {
        let steps = pending(self.current())?;
        let mut i: usize = 0;
        let ghost before = self.versions@;
        while i < steps.len()
            invariant
                i <= steps.len(),
                self.versions@ == before + Seq::new(i as nat, |k: int| steps@[k].version as i64),
            decreases steps.len() - i,
        {
            self.versions.push(steps[i].version as i64);
            proof {
                assert(self.versions@ =~= before + Seq::new(
                    (i + 1) as nat,
                    |k: int| steps@[k].version as i64,
                ));
            }
            i = i + 1;
        }
        Ok(steps)
    }
}

proof fn highest_is_not_negative(versions: Seq<i64>, n: nat)
    ensures
        highest(versions, n) >= 0,
    decreases n,
{
    if n > 0 && n <= versions.len() {
        highest_is_not_negative(versions, (n - 1) as nat);
    }
}

proof fn highest_of_ascent(versions: Seq<i64>, steps: Seq<Migration>, n: nat)
    requires
        steps_after(steps, version_of(highest(versions, versions.len()))),
        n <= steps.len(),
        highest(versions, versions.len()) <= LATEST_VERSION,
    ensures
        highest(recorded(versions, steps), versions.len() + n) == highest(
            versions,
            versions.len(),
        ) + n,
    decreases n,
{
    let all = recorded(versions, steps);
    highest_is_not_negative(versions, versions.len());
    if n == 0 {
        highest_of_prefix(versions, all, versions.len());
    } else {
        highest_of_ascent(versions, steps, (n - 1) as nat);
        assert(all[versions.len() + n - 1] == steps[n - 1].version);
    }
}

proof fn highest_of_prefix(a: Seq<i64>, b: Seq<i64>, n: nat)
    requires
        n <= a.len() <= b.len(),
        forall|i: int| 0 <= i < a.len() ==> a[i] == b[i],
    ensures
        highest(a, n) == highest(b, n),
    decreases n,
{
    if n > 0 {
        highest_of_prefix(a, b, (n - 1) as nat);
    }
}

/// Once the steps are applied the table is at the latest version, so applying
/// again finds nothing to do.
pub proof fn applying_again_does_nothing(versions: Seq<i64>, steps: Seq<Migration>)
    requires
        highest(versions, versions.len()) <= LATEST_VERSION,
        steps_after(steps, version_of(highest(versions, versions.len()))),
    ensures
        highest(recorded(versions, steps), recorded(versions, steps).len()) == LATEST_VERSION,
        forall|more: Seq<Migration>| #[trigger]
            steps_after(more, LATEST_VERSION) ==> more.len() == 0,
{
    highest_of_ascent(versions, steps, steps.len());
}

impl MigrationError {
    /// The error in words.
    pub open spec fn words(self) -> Seq<char> {
        match self {
            MigrationError::SchemaTooNew { binary_max, file_current } => {
                "database schema version "@ + text::decimal_of(file_current as nat)
                    + " is newer than this binary supports (max "@ + text::decimal_of(
                    binary_max as nat,
                ) + "); upgrade the application"@
            },
            MigrationError::Sqlite(e) => "sqlite error during migration: "@ + e.words(),
        }
    }

    /// The error in words.
    pub fn message(&self) -> (r: String)
        ensures
            r@ == self.words(),
    {
        match self {
            MigrationError::SchemaTooNew { binary_max, file_current } => {
                let mut t: String = text::joined(
                    "database schema version ",
                    text::decimal(*file_current as u64).as_str(),
                );
                t.push_str(" is newer than this binary supports (max ");
                t.push_str(text::decimal(*binary_max as u64).as_str());
                t.push_str("); upgrade the application");
                t
            },
            MigrationError::Sqlite(e) => text::joined(
                "sqlite error during migration: ",
                e.message().as_str(),
            ),
        }
    }
}

} // verus!
