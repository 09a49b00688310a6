//! Instants, and their millisecond form in the database.

use vstd::prelude::*;

verus! {

/// An instant in UTC: whole milliseconds since the Unix epoch, and the
/// nanoseconds beyond them.
#[derive(Debug, Clone, Copy, PartialEq, Eq, Structural)]
pub struct Timestamp {
    /// Milliseconds since the Unix epoch, rounded down.
    pub millis: i64,
    /// Nanoseconds past `millis`.
    pub nanos: u32,
}

/// Whether `a` lies strictly after `b`.
pub open spec fn later(a: Timestamp, b: Timestamp) -> bool {
    a.millis > b.millis || (a.millis == b.millis && a.nanos > b.nanos)
}

impl Timestamp {
    /// The instant at `millis` milliseconds since the Unix epoch.
    pub fn from_millis(millis: i64) -> (r: Timestamp)
        ensures
            r == (Timestamp { millis, nanos: 0 }),
    {
        Timestamp { millis, nanos: 0 }
    }

    /// Whether this instant lies strictly after `other`.
    pub fn is_after(self, other: Timestamp) -> (r: bool)
        ensures
            r == later(self, other),
    {
        self.millis > other.millis || (self.millis == other.millis && self.nanos > other.nanos)
    }
}

/// The earliest millisecond a calendar date exists for.
pub const MIN_MILLIS: i64 = -8_334_601_228_800_000;

/// The latest millisecond a calendar date exists for.
pub const MAX_MILLIS: i64 = 8_210_266_876_799_999;

/// The instant a stored millisecond count stands for, if there is one.
pub open spec fn instant_of(ms: i64) -> Option<Timestamp> {
    if MIN_MILLIS <= ms <= MAX_MILLIS {
        Some(Timestamp { millis: ms, nanos: 0 })
    } else {
        None
    }
}

/// Calls `chrono::DateTime::from_timestamp_millis` and reads the result back
/// with `timestamp_millis`. The first gives a date exactly for the counts from
/// January 1, 262144 BCE to December 31, 262142 CE, and the two are inverse to
/// each other there.
#[verifier::external_body]
fn calendar_millis(ms: i64) -> (r: Option<i64>)
    ensures
        r == (if MIN_MILLIS <= ms <= MAX_MILLIS {
            Some(ms)
        } else {
            None
        }),
{
    chrono::DateTime::<chrono::Utc>::from_timestamp_millis(ms).map(|d| d.timestamp_millis())
}

/// Reads a stored millisecond count. `None` when it lies outside the calendar.
pub fn ms_to_dt(ms: i64) -> (r: Option<Timestamp>)
    ensures
        r == instant_of(ms),
{
    match calendar_millis(ms) {
        Some(m) => Some(Timestamp { millis: m, nanos: 0 }),
        None => None,
    }
}

/// `ms_to_dt` on an optional column.
pub open spec fn optional_instant_of(ms: Option<i64>) -> Option<Timestamp> {
    match ms {
        Some(m) => instant_of(m),
        None => None,
    }
}

/// `ms_to_dt` on an optional column: absent stays absent.
pub fn optional_ms_to_dt(ms: Option<i64>) -> (r: Option<Timestamp>)
    ensures
        r == optional_instant_of(ms),
{
    match ms {
        Some(m) => ms_to_dt(m),
        None => None,
    }
}

/// The milliseconds of an optional instant.
pub open spec fn optional_millis(dt: Option<Timestamp>) -> Option<i64> {
    match dt {
        Some(d) => Some(d.millis),
        None => None,
    }
}

/// The milliseconds of an optional instant.
pub fn optional_dt_to_ms(dt: Option<Timestamp>) -> (r: Option<i64>)
    ensures
        r == optional_millis(dt),
{
    match dt {
        Some(d) => Some(d.millis),
        None => None,
    }
}

/// The milliseconds of an instant, zero where there is none.
pub open spec fn millis_or_zero(dt: Option<Timestamp>) -> i64 {
    match dt {
        Some(d) => d.millis,
        None => 0,
    }
}

/// The milliseconds of an instant, zero where there is none.
pub fn dt_to_ms(dt: Option<Timestamp>) -> (r: i64)
    ensures
        r == millis_or_zero(dt),
{
    match dt {
        Some(d) => d.millis,
        None => 0,
    }
}

/// Whether `mtime` is known to lie strictly after `resolved_at`.
pub open spec fn is_edited_after(mtime: Option<Timestamp>, resolved_at: Option<Timestamp>) -> bool {
    mtime is Some && resolved_at is Some && later(mtime->0, resolved_at->0)
}

/// Was `mtime` recorded strictly after `resolved_at`? `false` when either is
/// absent: a missing time is never taken for a fresher one.
pub fn edited_after(mtime: Option<Timestamp>, resolved_at: Option<Timestamp>) -> (r: bool)
    ensures
        r == is_edited_after(mtime, resolved_at),
{
    match (mtime, resolved_at) {
        (Some(m), Some(r)) => m.is_after(r),
        _ => false,
    }
}

/// Whether a live edit beats a deletion.
pub open spec fn edit_wins(edit: Option<Timestamp>, delete: Option<Timestamp>) -> bool {
    match delete {
        None => true,
        Some(d) => edit is Some && later(edit->0, d),
    }
}

/// Does a live edit beat a tombstone? With both times known the edit wins only
/// if strictly newer; against an undated tombstone it always wins; an undated
/// edit loses to a dated tombstone.
pub fn live_edit_wins(edit: Option<Timestamp>, delete: Option<Timestamp>) -> (r: bool)
    ensures
        r == edit_wins(edit, delete),
{
    match (edit, delete) {
        (Some(e), Some(d)) => e.is_after(d),
        (_, None) => true,
        (None, Some(_)) => false,
    }
}

/// The earlier of two optional deletion times; a known time is preferred over
/// an unknown one.
pub open spec fn earliest_of(a: Option<Timestamp>, b: Option<Timestamp>) -> Option<Timestamp> {
    match (a, b) {
        (Some(x), Some(y)) => if later(x, y) {
            Some(y)
        } else {
            Some(x)
        },
        (Some(x), None) => Some(x),
        (None, _) => b,
    }
}

/// The earlier of two optional deletion times; a known time is preferred over
/// an unknown one.
pub fn earliest(a: Option<Timestamp>, b: Option<Timestamp>) -> (r: Option<Timestamp>)
    ensures
        r == earliest_of(a, b),
{
    match (a, b) {
        (Some(x), Some(y)) => if x.is_after(y) {
            Some(y)
        } else {
            Some(x)
        },
        (Some(x), None) => Some(x),
        (None, _) => b,
    }
}

/// `earliest_of` on millisecond counts.
pub open spec fn earliest_millis(a: Option<i64>, b: Option<i64>) -> Option<i64> {
    match (a, b) {
        (Some(x), Some(y)) => if y < x {
            Some(y)
        } else {
            Some(x)
        },
        (Some(x), None) => Some(x),
        (None, _) => b,
    }
}

/// The earlier of two optional epoch-millisecond deletion times; a known time
/// is preferred over an unknown one.
pub fn earliest_ms(a: Option<i64>, b: Option<i64>) -> (r: Option<i64>)
    ensures
        r == earliest_millis(a, b),
{
    match (a, b) {
        (Some(x), Some(y)) => if y < x {
            Some(y)
        } else {
            Some(x)
        },
        (Some(x), None) => Some(x),
        (None, _) => b,
    }
}

/// Taking the earlier deletion time is commutative, associative and
/// idempotent, so tombstones may be merged in any order and any number of
/// times.
pub proof fn earliest_millis_is_a_merge(a: Option<i64>, b: Option<i64>, c: Option<i64>)
    ensures
        earliest_millis(a, b) == earliest_millis(b, a),
        earliest_millis(earliest_millis(a, b), c) == earliest_millis(a, earliest_millis(b, c)),
        earliest_millis(a, a) == a,
        earliest_millis(a, None) == a,
{
}

/// Rounding to milliseconds and taking the earlier time commute.
pub proof fn earliest_commutes_with_millis(a: Option<Timestamp>, b: Option<Timestamp>)
    ensures
        optional_millis(earliest_of(a, b)) == earliest_millis(optional_millis(a), optional_millis(b)),
{
}

/// An edit and a deletion never both win: seen from either device the same
/// side prevails, and a deletion as old as the edit prevails over it.
pub proof fn edit_or_delete_prevails(edit: Timestamp, delete: Timestamp)
    ensures
        edit_wins(Some(edit), Some(delete)) == later(edit, delete),
        !edit_wins(Some(delete), Some(delete)),
        edit_wins(Some(edit), Some(delete)) ==> !edit_wins(Some(delete), Some(edit)),
{
}

/// A stored instant reads back to the millisecond.
pub proof fn stored_instant_reads_back(t: Timestamp)
    requires
        MIN_MILLIS <= t.millis <= MAX_MILLIS,
    ensures
        instant_of(t.millis) == Some(Timestamp { millis: t.millis, nanos: 0 }),
{
}

} // verus!
