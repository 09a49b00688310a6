//! Errors of the engine.

use vstd::prelude::*;

use crate::file_watcher::FileWatcherError;
use crate::key_provider::KeyProviderError;
use crate::migrations::MigrationError;
use crate::text;

verus! {

/// Failures of the database layer.
#[derive(Debug)]
pub enum SqliteError {
    /// A row would break a uniqueness or foreign-key constraint.
    Constraint,
    /// A row that had to be there is not.
    QueryReturnedNoRows,
    /// A stored blob does not have the length its column calls for.
    WrongLength {
        /// Bytes found.
        found: usize,
    },
    /// The file is not a database, or is one under another key.
    NotADatabase,
    /// Anything else, in the words of the database.
    Other(String),
}

/// Failures particular to ingest.
#[derive(Debug)]
#[non_exhaustive]
pub enum IngestError {
    /// The vault could not be unlocked.
    Kdbx(String),
    /// A protected field could not be sealed.
    Wrap(String),
    /// The session key could not be had.
    SessionKey(String),
    /// A history snapshot could not be serialised.
    Json(String),
}

/// Failures particular to reading the mirror back into a vault.
#[derive(Debug)]
#[non_exhaustive]
pub enum ProjectionError {
    /// The session key could not be had.
    SessionKey(String),
    /// A sealed field could not be opened, or did not hold UTF-8.
    Unwrap(String),
    /// A stored shape breaks an invariant.
    SchemaInvariant(String),
    /// A history snapshot could not be deserialised.
    Json(String),
}

/// Failures particular to revealing one protected value.
#[derive(Debug)]
#[non_exhaustive]
pub enum RevealError {
    /// The session key could not be had.
    SessionKey(String),
    /// The sealed value could not be opened, or did not hold UTF-8.
    Unwrap(String),
    /// A history snapshot could not be deserialised.
    Json(String),
}

/// Errors surfaced by the engine.
#[derive(Debug)]
#[non_exhaustive]
pub enum EngineError {
    /// The supplied key does not decrypt the database.
    WrongKey,
    /// The key provider gave no database key.
    KeyProvider(KeyProviderError),
    /// An I/O error.
    Io(String),
    /// A database error that is no wrong-key signal.
    Sqlite(SqliteError),
    /// A schema-migration error.
    Migration(MigrationError),
    /// The operating system gave no randomness.
    Random(String),
    /// An ingest failure.
    Ingest(IngestError),
    /// A projection failure.
    Projection(ProjectionError),
    /// A reveal failure.
    Reveal(RevealError),
    /// The requested entity does not exist.
    NotFound {
        /// Short label of the missing kind of entity.
        entity: &'static str,
    },
    /// The vault could not be serialised.
    Serialise(String),
    /// The predicate cannot be evaluated.
    NotEvaluable,
    /// A protected field could not be sealed during a mutation.
    Wrap(String),
    /// The session key could not be had during a mutation.
    SessionKey(String),
    /// A group move would create a cycle.
    CycleDetected,
    /// The file watcher failed.
    FileWatcher(FileWatcherError),
    /// The resolution does not line up with the stashed conflict.
    ResolutionMismatch {
        /// What does not line up.
        reason: String,
    },
}

/// Is a failure to read the database that of a wrong key? Under a wrong key the
/// first page does not read as one of a database.
pub fn is_wrong_key(err: &SqliteError) -> (r: bool)
    ensures
        r == (*err is NotADatabase),
{
    match err {
        SqliteError::NotADatabase => true,
        _ => false,
    }
}

/// The error of opening a database whose first read failed.
pub fn opening_error(err: SqliteError) -> (r: EngineError)
    ensures
        r == (if err is NotADatabase {
            EngineError::WrongKey
        } else {
            EngineError::Sqlite(err)
        }),
{
    if is_wrong_key(&err) {
        EngineError::WrongKey
    } else {
        EngineError::Sqlite(err)
    }
}

/// The failures of a stale sidecar: the mirror key no longer fits, or sealed
/// fields can no longer be read.
pub open spec fn stale_sidecar(e: EngineError) -> bool {
    match e {
        EngineError::WrongKey => true,
        EngineError::Projection(p) => p is Unwrap || p is SessionKey,
        EngineError::Reveal(r) => r is Unwrap || r is SessionKey,
        _ => false,
    }
}

impl EngineError {
    /// True iff the mirror can be rebuilt from the vault file to cure this
    /// error: its key is gone, or its sealed fields cannot be read.
    /// Write-side failures, a provider that yields no key, and plain faults
    /// are not cured that way.
    pub fn is_recoverable_sidecar_failure(&self) -> (r: bool)
        ensures
            r == stale_sidecar(*self),
    {
        match self {
            EngineError::WrongKey => true,
            EngineError::Projection(p) => match p {
                ProjectionError::Unwrap(_) => true,
                ProjectionError::SessionKey(_) => true,
                _ => false,
            },
            EngineError::Reveal(v) => match v {
                RevealError::Unwrap(_) => true,
                RevealError::SessionKey(_) => true,
                _ => false,
            },
            _ => false,
        }
    }
}

impl SqliteError {
    /// The error in words.
    pub open spec fn words(self) -> Seq<char> {
        match self {
            SqliteError::Constraint => "constraint violated"@,
            SqliteError::QueryReturnedNoRows => "Query returned no rows"@,
            SqliteError::WrongLength { found } => "value of unexpected length "@ + text::decimal_of(found as nat),
            SqliteError::NotADatabase => "file is not a database"@,
            SqliteError::Other(t) => t@,
        }
    }

    /// The error in words.
    pub fn message(&self) -> (r: String)
        ensures
            r@ == self.words(),
    {
        match self {
            SqliteError::Constraint => "constraint violated".to_owned(),
            SqliteError::QueryReturnedNoRows => "Query returned no rows".to_owned(),
            SqliteError::WrongLength { found } => text::joined("value of unexpected length ", text::decimal(*found as u64).as_str()),
            SqliteError::NotADatabase => "file is not a database".to_owned(),
            SqliteError::Other(t) => t.clone(),
        }
    }
}

impl IngestError {
    /// The error in words.
    pub open spec fn words(self) -> Seq<char> {
        match self {
            IngestError::Kdbx(t) => "kdbx unwrap failed: "@ + t@,
            IngestError::Wrap(t) => "protected field wrap failed: "@ + t@,
            IngestError::SessionKey(t) => "session key unavailable: "@ + t@,
            IngestError::Json(t) => "history snapshot serialisation failed: "@ + t@,
        }
    }

    /// The error in words.
    pub fn message(&self) -> (r: String)
        ensures
            r@ == self.words(),
    {
        match self {
            IngestError::Kdbx(t) => text::joined("kdbx unwrap failed: ", t.as_str()),
            IngestError::Wrap(t) => text::joined("protected field wrap failed: ", t.as_str()),
            IngestError::SessionKey(t) => text::joined("session key unavailable: ", t.as_str()),
            IngestError::Json(t) => text::joined("history snapshot serialisation failed: ", t.as_str()),
        }
    }
}

impl ProjectionError {
    /// The error in words.
    pub open spec fn words(self) -> Seq<char> {
        match self {
            ProjectionError::SessionKey(t) => "session key unavailable: "@ + t@,
            ProjectionError::Unwrap(t) => "protected field unwrap failed: "@ + t@,
            ProjectionError::SchemaInvariant(t) => "schema invariant violated: "@ + t@,
            ProjectionError::Json(t) => "history snapshot deserialisation failed: "@ + t@,
        }
    }

    /// The error in words.
    pub fn message(&self) -> (r: String)
        ensures
            r@ == self.words(),
    {
        match self {
            ProjectionError::SessionKey(t) => text::joined("session key unavailable: ", t.as_str()),
            ProjectionError::Unwrap(t) => text::joined("protected field unwrap failed: ", t.as_str()),
            ProjectionError::SchemaInvariant(t) => text::joined("schema invariant violated: ", t.as_str()),
            ProjectionError::Json(t) => text::joined("history snapshot deserialisation failed: ", t.as_str()),
        }
    }
}

impl RevealError {
    /// The error in words.
    pub open spec fn words(self) -> Seq<char> {
        match self {
            RevealError::SessionKey(t) => "session key unavailable: "@ + t@,
            RevealError::Unwrap(t) => "protected field unwrap failed: "@ + t@,
            RevealError::Json(t) => "history snapshot deserialisation failed: "@ + t@,
        }
    }

    /// The error in words.
    pub fn message(&self) -> (r: String)
        ensures
            r@ == self.words(),
    {
        match self {
            RevealError::SessionKey(t) => text::joined("session key unavailable: ", t.as_str()),
            RevealError::Unwrap(t) => text::joined("protected field unwrap failed: ", t.as_str()),
            RevealError::Json(t) => text::joined("history snapshot deserialisation failed: ", t.as_str()),
        }
    }
}

impl EngineError {
    /// The error in words.
    pub open spec fn words(self) -> Seq<char> {
        match self {
            EngineError::WrongKey => "wrong database key \u{2014} supplied key does not decrypt this database"@,
            EngineError::KeyProvider(e) => "db key provider failed: "@ + e.words(),
            EngineError::Io(t) => "io error: "@ + t@,
            EngineError::Sqlite(e) => "sqlite error: "@ + e.words(),
            EngineError::Migration(e) => "migration error: "@ + e.words(),
            EngineError::Random(t) => "os rng failed: "@ + t@,
            EngineError::Ingest(e) => "ingest failed: "@ + e.words(),
            EngineError::Projection(e) => "projection failed: "@ + e.words(),
            EngineError::Reveal(e) => "reveal failed: "@ + e.words(),
            EngineError::NotFound { entity } => "not found: "@ + entity@,
            EngineError::Serialise(t) => "kdbx serialise failed: "@ + t@,
            EngineError::NotEvaluable => "predicate is not evaluable by this binary"@,
            EngineError::Wrap(t) => "protected field wrap failed: "@ + t@,
            EngineError::SessionKey(t) => "session key unavailable: "@ + t@,
            EngineError::CycleDetected => "group move would create a cycle"@,
            EngineError::FileWatcher(e) => "file watcher error: "@ + e.words(),
            EngineError::ResolutionMismatch { reason } => "resolution does not match stashed conflict: "@ + reason@,
        }
    }

    /// The error in words.
    pub fn message(&self) -> (r: String)
        ensures
            r@ == self.words(),
    {
        match self {
            EngineError::WrongKey => "wrong database key \u{2014} supplied key does not decrypt this database".to_owned(),
            EngineError::KeyProvider(e) => text::joined("db key provider failed: ", e.message().as_str()),
            EngineError::Io(t) => text::joined("io error: ", t.as_str()),
            EngineError::Sqlite(e) => text::joined("sqlite error: ", e.message().as_str()),
            EngineError::Migration(e) => text::joined("migration error: ", e.message().as_str()),
            EngineError::Random(t) => text::joined("os rng failed: ", t.as_str()),
            EngineError::Ingest(e) => text::joined("ingest failed: ", e.message().as_str()),
            EngineError::Projection(e) => text::joined("projection failed: ", e.message().as_str()),
            EngineError::Reveal(e) => text::joined("reveal failed: ", e.message().as_str()),
            EngineError::NotFound { entity } => text::joined("not found: ", entity),
            EngineError::Serialise(t) => text::joined("kdbx serialise failed: ", t.as_str()),
            EngineError::NotEvaluable => "predicate is not evaluable by this binary".to_owned(),
            EngineError::Wrap(t) => text::joined("protected field wrap failed: ", t.as_str()),
            EngineError::SessionKey(t) => text::joined("session key unavailable: ", t.as_str()),
            EngineError::CycleDetected => "group move would create a cycle".to_owned(),
            EngineError::FileWatcher(e) => text::joined("file watcher error: ", e.message().as_str()),
            EngineError::ResolutionMismatch { reason } => text::joined("resolution does not match stashed conflict: ", reason.as_str()),
        }
    }
}

} // verus!
