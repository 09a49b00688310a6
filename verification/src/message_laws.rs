//! What is said of an error, and what a key is written as.

use vstd::prelude::*;

use crate::codec::Uuid;
use crate::conflict_resolution::MergeFault;
use crate::error::{EngineError, IngestError, ProjectionError, RevealError, SqliteError};
use crate::file_watcher::FileWatcherError;
use crate::key_provider;
use crate::key_provider::{DbKey, KeyProviderError};
use crate::migrations::MigrationError;
use crate::peer;
use crate::peer::ResolutionRecord;
use crate::text;
use crate::time;
use crate::time::Timestamp;
use crate::value_laws::{hex_pairs, hex_value};
use crate::vault::DeletedObject;

verus! {

// -------------------------------------------------------------------------- messages

/// What is said of an error of the engine ends with what went wrong.
pub proof fn an_error_says_what_went_wrong(e: EngineError, r: String)
    requires
        call_ensures(EngineError::message, (&e,), r),
    ensures
        e matches EngineError::Io(t) ==> r@ == "io error: "@ + t@,
        e matches EngineError::Random(t) ==> r@ == "os rng failed: "@ + t@,
        e matches EngineError::NotFound { entity } ==> r@ == "not found: "@ + entity@,
        e matches EngineError::Serialise(t) ==> r@ == "kdbx serialise failed: "@ + t@,
        e matches EngineError::Wrap(t) ==> r@ == "protected field wrap failed: "@ + t@,
        e matches EngineError::SessionKey(t) ==> r@ == "session key unavailable: "@ + t@,
        e matches EngineError::ResolutionMismatch { reason } ==> r@
            == "resolution does not match stashed conflict: "@ + reason@,
        e is WrongKey ==> r@
            == "wrong database key \u{2014} supplied key does not decrypt this database"@,
        e is NotEvaluable ==> r@ == "predicate is not evaluable by this binary"@,
        e is CycleDetected ==> r@ == "group move would create a cycle"@,
{
}

/// What is said of an error that another part reported ends with what is said of that
/// one.
pub proof fn an_error_hands_on_what_was_reported(e: EngineError, r: String, inner: String)
    requires
        call_ensures(EngineError::message, (&e,), r),
        e matches EngineError::KeyProvider(x) ==> call_ensures(
            KeyProviderError::message,
            (&x,),
            inner,
        ),
        e matches EngineError::Sqlite(x) ==> call_ensures(SqliteError::message, (&x,), inner),
        e matches EngineError::Migration(x) ==> call_ensures(MigrationError::message, (&x,), inner),
        e matches EngineError::Ingest(x) ==> call_ensures(IngestError::message, (&x,), inner),
        e matches EngineError::Projection(x) ==> call_ensures(
            ProjectionError::message,
            (&x,),
            inner,
        ),
        e matches EngineError::Reveal(x) ==> call_ensures(RevealError::message, (&x,), inner),
        e matches EngineError::FileWatcher(x) ==> call_ensures(
            FileWatcherError::message,
            (&x,),
            inner,
        ),
    ensures
        e is KeyProvider ==> r@ == "db key provider failed: "@ + inner@,
        e is Sqlite ==> r@ == "sqlite error: "@ + inner@,
        e is Migration ==> r@ == "migration error: "@ + inner@,
        e is Ingest ==> r@ == "ingest failed: "@ + inner@,
        e is Projection ==> r@ == "projection failed: "@ + inner@,
        e is Reveal ==> r@ == "reveal failed: "@ + inner@,
        e is FileWatcher ==> r@ == "file watcher error: "@ + inner@,
{
}

/// What is said of a fault in writing, reading or revealing ends with what went wrong.
pub proof fn a_fault_says_what_went_wrong(
    ingest: IngestError,
    a: String,
    projection: ProjectionError,
    b: String,
    reveal: RevealError,
    c: String,
)
    requires
        call_ensures(IngestError::message, (&ingest,), a),
        call_ensures(ProjectionError::message, (&projection,), b),
        call_ensures(RevealError::message, (&reveal,), c),
    ensures
        ingest matches IngestError::Kdbx(t) ==> a@ == "kdbx unwrap failed: "@ + t@,
        ingest matches IngestError::Wrap(t) ==> a@ == "protected field wrap failed: "@ + t@,
        ingest matches IngestError::SessionKey(t) ==> a@ == "session key unavailable: "@ + t@,
        ingest matches IngestError::Json(t) ==> a@ == "history snapshot serialisation failed: "@
            + t@,
        projection matches ProjectionError::SessionKey(t) ==> b@ == "session key unavailable: "@
            + t@,
        projection matches ProjectionError::Unwrap(t) ==> b@ == "protected field unwrap failed: "@
            + t@,
        projection matches ProjectionError::SchemaInvariant(t) ==> b@
            == "schema invariant violated: "@ + t@,
        projection matches ProjectionError::Json(t) ==> b@
            == "history snapshot deserialisation failed: "@ + t@,
        reveal matches RevealError::SessionKey(t) ==> c@ == "session key unavailable: "@ + t@,
        reveal matches RevealError::Unwrap(t) ==> c@ == "protected field unwrap failed: "@ + t@,
        reveal matches RevealError::Json(t) ==> c@ == "history snapshot deserialisation failed: "@
            + t@,
{
}

/// What is said of a fault of the database, of a schema that is too new, of the
/// watcher and of the key provider.
pub proof fn an_outside_fault_says_what_went_wrong(
    sqlite: SqliteError,
    a: String,
    migration: MigrationError,
    b: String,
    watcher: FileWatcherError,
    c: String,
    provider: KeyProviderError,
    d: String,
)
    requires
        call_ensures(SqliteError::message, (&sqlite,), a),
        call_ensures(MigrationError::message, (&migration,), b),
        call_ensures(FileWatcherError::message, (&watcher,), c),
        call_ensures(KeyProviderError::message, (&provider,), d),
    ensures
        sqlite is Constraint ==> a@ == "constraint violated"@,
        sqlite is QueryReturnedNoRows ==> a@ == "Query returned no rows"@,
        sqlite is NotADatabase ==> a@ == "file is not a database"@,
        sqlite matches SqliteError::WrongLength { found } ==> a@ == "value of unexpected length "@
            + text::decimal_of(found as nat),
        sqlite matches SqliteError::Other(t) ==> a@ == t@,
        migration matches MigrationError::SchemaTooNew { binary_max, file_current } ==> b@
            == "database schema version "@ + text::decimal_of(file_current as nat)
            + " is newer than this binary supports (max "@ + text::decimal_of(binary_max as nat)
            + "); upgrade the application"@,
        migration matches MigrationError::Sqlite(e) && e == sqlite ==> b@
            == "sqlite error during migration: "@ + a@,
        watcher matches FileWatcherError::NotifyInit(t) ==> c@ == "file watcher init failed: "@
            + t@,
        watcher matches FileWatcherError::Io(t) ==> c@ == "io error: "@ + t@,
        provider matches KeyProviderError::KeyUnavailable(t) ==> d@
            == "db key provider key unavailable: "@ + t@,
{
}

/// A decision that does not fit is reported as such, and one that could not be
/// recorded as a fault in writing, with the reason.
pub proof fn a_merge_fault_is_reported(fault: MergeFault, r: EngineError)
    requires
        call_ensures(MergeFault::into_error, (fault,), r),
    ensures
        fault matches MergeFault::Mismatch(t) ==> (
        r matches EngineError::ResolutionMismatch { reason } && reason@ == t@),
        fault matches MergeFault::Record(t) ==> (r matches EngineError::Serialise(words) && words@
            == "add_conflict_resolution: "@ + t@),
{
}

// ------------------------------------------------------------------------------ keys

/// The statement that hands a key to the database has the key's bytes as hexadecimal
/// digits, in order, between the quotation marks.
pub proof fn a_key_is_handed_over_in_digits(key: DbKey, r: String, i: int)
    requires
        call_ensures(key_provider::key_statement, (&key,), r),
        0 <= i < key@.len(),
    ensures
        r@.len() == 16 + 2 * key@.len() + 2,
        r@.take(16) == "PRAGMA key = \"x'"@,
        16 * hex_value(r@[16 + 2 * i]) + hex_value(r@[16 + 2 * i + 1]) == key@[i],
        r@.skip(16 + 2 * key@.len() as int) == "'\""@,
{
    reveal_strlit("PRAGMA key = \"x'");
    reveal_strlit("'\"");
    hex_pairs(key@, i);
    let digits = text::hex_of(key@);
    assert(r@.take(16) =~= "PRAGMA key = \"x'"@);
    assert(r@.skip(16 + 2 * key@.len() as int) =~= "'\""@);
    assert(r@[16 + 2 * i] == digits[2 * i]);
    assert(r@[16 + 2 * i + 1] == digits[2 * i + 1]);
}

/// What is logged of a key does not tell one key from another.
pub proof fn keys_are_logged_alike(a: DbKey, x: String, b: DbKey, y: String)
    requires
        call_ensures(DbKey::debug_text, (&a,), x),
        call_ensures(DbKey::debug_text, (&b,), y),
    ensures
        x@ == y@,
{
}

// --------------------------------------------------------------------------- records

proof fn a_tombstone_is_the_earliest(list: Seq<DeletedObject>, id: Uuid)
    ensures
        peer::tombstone_of(list, id) is Some <==> exists|i: int|
            0 <= i < list.len() && (#[trigger] list[i]).uuid == id,
        peer::tombstone_of(list, id) matches Some(t) ==> exists|i: int|
            0 <= i < list.len() && (#[trigger] list[i]).uuid == id && list[i].deleted_at == t,
        peer::tombstone_of(list, id) matches Some(t) ==> forall|i: int|
            0 <= i < list.len() && (#[trigger] list[i]).uuid == id && list[i].deleted_at is Some
                ==> t is Some && !time::later(t->0, list[i].deleted_at->0),
    decreases list.len(),
{
    if list.len() > 0 {
        let less = list.drop_last();
        a_tombstone_is_the_earliest(less, id);
        if exists|i: int| 0 <= i < list.len() && (#[trigger] list[i]).uuid == id {
            let i = choose|i: int| 0 <= i < list.len() && (#[trigger] list[i]).uuid == id;
            if i < less.len() {
                assert(less[i].uuid == id);
            }
        }
        let last = list[list.len() - 1];
        if let Some(t) = peer::tombstone_of(less, id) {
            let i = choose|i: int|
                0 <= i < less.len() && (#[trigger] less[i]).uuid == id && less[i].deleted_at == t;
            assert(list[i].uuid == id && list[i].deleted_at == t);
        }
        if let Some(t) = peer::tombstone_of(list, id) {
            if last.uuid == id {
                assert(list[list.len() - 1].uuid == id);
            }
            assert forall|i: int|
                0 <= i < list.len() && (#[trigger] list[i]).uuid == id
                    && list[i].deleted_at is Some implies t is Some && !time::later(
                t->0,
                list[i].deleted_at->0,
            ) by {
                if i < less.len() {
                    assert(less[i].uuid == id);
                }
            }
        }
    }
}

/// The deletion of an object is the earliest of those that a list has of it and whose
/// time is known.
pub proof fn the_earliest_deletion_is_found(
    list: &Vec<DeletedObject>,
    id: Uuid,
    r: Option<Option<Timestamp>>,
    i: int,
)
    requires
        call_ensures(peer::find_tombstone, (list, id), r),
    ensures
        r is Some <==> exists|n: int| 0 <= n < list@.len() && (#[trigger] list@[n]).uuid == id,
        r matches Some(t) ==> exists|n: int|
            0 <= n < list@.len() && (#[trigger] list@[n]).uuid == id && list@[n].deleted_at == t,
        0 <= i < list@.len() && list@[i].uuid == id && list@[i].deleted_at is Some ==> {
            let at = list@[i].deleted_at->0;
            &&& r is Some && r->0 is Some
            &&& r->0->0.millis < at.millis || (r->0->0.millis == at.millis && r->0->0.nanos
                <= at.nanos)
        },
{
    a_tombstone_is_the_earliest(list@, id);
}

proof fn a_resolution_is_the_latest(list: Seq<ResolutionRecord>, id: Uuid)
    ensures
        peer::resolution_of(list, id) is Some <==> exists|i: int|
            0 <= i < list.len() && (#[trigger] list[i]).entry == id,
        peer::resolution_of(list, id) matches Some(t) ==> exists|i: int|
            0 <= i < list.len() && (#[trigger] list[i]).entry == id && list[i].resolved_at == t,
        peer::resolution_of(list, id) matches Some(t) ==> forall|i: int|
            0 <= i < list.len() && (#[trigger] list[i]).entry == id ==> !time::later(
                list[i].resolved_at,
                t,
            ),
    decreases list.len(),
{
    if list.len() > 0 {
        let less = list.drop_last();
        a_resolution_is_the_latest(less, id);
        if exists|i: int| 0 <= i < list.len() && (#[trigger] list[i]).entry == id {
            let i = choose|i: int| 0 <= i < list.len() && (#[trigger] list[i]).entry == id;
            if i < less.len() {
                assert(less[i].entry == id);
            }
        }
        let last = list[list.len() - 1];
        if let Some(t) = peer::resolution_of(less, id) {
            let i = choose|i: int|
                0 <= i < less.len() && (#[trigger] less[i]).entry == id && less[i].resolved_at == t;
            assert(list[i].entry == id && list[i].resolved_at == t);
        }
        if let Some(t) = peer::resolution_of(list, id) {
            if last.entry == id {
                assert(list[list.len() - 1].entry == id);
            }
            assert forall|i: int|
                0 <= i < list.len() && (#[trigger] list[i]).entry == id implies !time::later(
                list[i].resolved_at,
                t,
            ) by {
                if i < less.len() {
                    assert(less[i].entry == id);
                }
            }
        }
    }
}

/// A conflict was settled when the latest of its records says.
pub proof fn the_latest_decision_is_found(
    list: &Vec<ResolutionRecord>,
    id: Uuid,
    r: Option<Timestamp>,
    i: int,
)
    requires
        call_ensures(peer::find_resolution, (list, id), r),
    ensures
        r is Some <==> exists|n: int| 0 <= n < list@.len() && (#[trigger] list@[n]).entry == id,
        r matches Some(t) ==> exists|n: int|
            0 <= n < list@.len() && (#[trigger] list@[n]).entry == id && list@[n].resolved_at == t,
        0 <= i < list@.len() && list@[i].entry == id ==> r is Some && (list@[i].resolved_at.millis
            < r->0.millis || (list@[i].resolved_at.millis == r->0.millis
            && list@[i].resolved_at.nanos <= r->0.nanos)),
{
    a_resolution_is_the_latest(list@, id);
}

} // verus!
