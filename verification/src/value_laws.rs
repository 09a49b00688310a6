//! Texts, numbers, times and settings, by what they stand for.

use vstd::prelude::*;

use crate::codec;
use crate::crypto;
use crate::crypto::{NonceSource, SessionKey};
use crate::error;
use crate::error::{EngineError, ProjectionError, RevealError, SqliteError};
use crate::migrations;
use crate::migrations::{Migration, MigrationError, SchemaVersions};
use crate::model::{Pagination, StrengthBucket};
use crate::order;
use crate::settings;
use crate::settings::{SettingKey, SettingTable};
use crate::text;
use crate::time;
use crate::time::Timestamp;
use crate::vault_laws::{a_stored_host_is_the_host, is_host_of};

verus! {

// ---------------------------------------------------------------------------- texts

proof fn an_end_is_cut(s: Seq<char>) -> (n: int)
    ensures
        0 <= n <= s.len(),
        text::trimmed_end(s) == s.take(n),
        n > 0 ==> !text::is_white_space(s[n - 1]),
        forall|i: int| n <= i < s.len() ==> text::is_white_space(#[trigger] s[i]),
    decreases s.len(),
{
    if s.len() > 0 && text::is_white_space(s.last()) {
        let n = an_end_is_cut(s.drop_last());
        assert(s.drop_last().take(n) =~= s.take(n));
        assert forall|i: int| n <= i < s.len() implies text::is_white_space(#[trigger] s[i]) by {
            if i < s.len() - 1 {
                assert(s.drop_last()[i] == s[i]);
            }
        }
        n
    } else {
        assert(s.take(s.len() as int) =~= s);
        s.len() as int
    }
}

proof fn a_start_is_cut(s: Seq<char>) -> (n: int)
    ensures
        0 <= n <= s.len(),
        text::trimmed_start(s) == s.skip(n),
        n < s.len() ==> !text::is_white_space(s[n]),
        forall|i: int| 0 <= i < n ==> text::is_white_space(#[trigger] s[i]),
    decreases s.len(),
{
    if s.len() > 0 && text::is_white_space(s[0]) {
        let n = a_start_is_cut(s.drop_first());
        assert(s.drop_first().skip(n) =~= s.skip(n + 1));
        assert forall|i: int| 0 <= i < n + 1 implies text::is_white_space(#[trigger] s[i]) by {
            if i > 0 {
                assert(s.drop_first()[i - 1] == s[i]);
            }
        }
        n + 1
    } else {
        assert(s.skip(0) =~= s);
        0
    }
}

/// Trimming leaves the part of a text between its first and its last character that
/// is not white space.
pub proof fn trimming_cuts_the_ends(s: &str, r: String) -> (at: (int, int))
    requires
        call_ensures(text::trim, (s,), r),
    ensures
        0 <= at.0 <= at.1 <= s@.len(),
        r@ == s@.subrange(at.0, at.1),
        r@.len() > 0 ==> !text::is_white_space(r@.first()) && !text::is_white_space(r@.last()),
        forall|i: int|
            (0 <= i < at.0 || at.1 <= i < s@.len()) ==> text::is_white_space(#[trigger] s@[i]),
{
    let a = a_start_is_cut(s@);
    let rest = s@.skip(a);
    let b = an_end_is_cut(rest);
    assert(rest.take(b) =~= s@.subrange(a, a + b));
    assert forall|i: int| a + b <= i < s@.len() implies text::is_white_space(#[trigger] s@[i]) by {
        assert(rest[i - a] == s@[i]);
    }
    (a, a + b)
}

/// Blanks, tabs and line ends are white space; the other printable ASCII characters
/// are not.
pub proof fn blanks_are_white_space(c: char)
    ensures
        c == ' ' || c == '\t' || c == '\n' || c == '\r' ==> text::is_white_space(c),
        '!' <= c <= '~' ==> !text::is_white_space(c),
{
}

/// Lower case changes the letters A to Z and nothing else.
pub proof fn only_ascii_capitals_change(s: &str, r: String, i: int)
    requires
        call_ensures(text::to_ascii_lower, (s,), r),
        0 <= i < s@.len(),
    ensures
        r@.len() == s@.len(),
        'A' <= s@[i] <= 'Z' ==> r@[i] as int - 'a' as int == s@[i] as int - 'A' as int,
        !('A' <= s@[i] <= 'Z') ==> r@[i] == s@[i],
{
}

/// The number that a hexadecimal digit stands for.
pub open spec fn hex_value(c: char) -> int {
    if '0' <= c <= '9' {
        c as int - '0' as int
    } else if 'a' <= c <= 'f' {
        10 + (c as int - 'a' as int)
    } else {
        -1
    }
}

/// Two hexadecimal digits for every byte.
pub proof fn hex_pairs(bytes: Seq<u8>, i: int)
    requires
        0 <= i < bytes.len(),
    ensures
        text::hex_of(bytes).len() == 2 * bytes.len(),
        0 <= hex_value(text::hex_of(bytes)[2 * i]) < 16,
        0 <= hex_value(text::hex_of(bytes)[2 * i + 1]) < 16,
        16 * hex_value(text::hex_of(bytes)[2 * i]) + hex_value(text::hex_of(bytes)[2 * i + 1])
            == bytes[i],
    decreases bytes.len(),
{
    text::hex_doubles_the_length(bytes);
    text::hex_doubles_the_length(bytes.drop_last());
    if i < bytes.len() - 1 {
        hex_pairs(bytes.drop_last(), i);
    }
}

/// Every byte is written as two hexadecimal digits, the higher one first.
pub proof fn two_digits_are_a_byte(bytes: &[u8], r: String, i: int)
    requires
        call_ensures(text::hex_encode, (bytes,), r),
        0 <= i < bytes@.len(),
    ensures
        r@.len() == 2 * bytes@.len(),
        0 <= hex_value(r@[2 * i]) < 16,
        0 <= hex_value(r@[2 * i + 1]) < 16,
        16 * hex_value(r@[2 * i]) + hex_value(r@[2 * i + 1]) == bytes@[i],
{
    hex_pairs(bytes@, i);
}

/// The number that a row of decimal digits stands for.
pub open spec fn number_of(s: Seq<char>) -> int
    decreases s.len(),
{
    if s.len() == 0 {
        0
    } else {
        10 * number_of(s.drop_last()) + (s.last() as int - '0' as int)
    }
}

/// Whether a text is a number, without zeros in front.
pub open spec fn is_number(s: Seq<char>) -> bool {
    &&& s.len() > 0
    &&& forall|i: int| 0 <= i < s.len() ==> '0' <= #[trigger] s[i] <= '9'
    &&& s.len() > 1 ==> s[0] != '0'
}

proof fn decimal_is_the_number(n: nat)
    ensures
        is_number(text::decimal_of(n)),
        number_of(text::decimal_of(n)) == n,
        n > 0 ==> text::decimal_of(n)[0] != '0',
    decreases n,
{
    let s = text::decimal_of(n);
    if n < 10 {
        assert(s.drop_last() =~= Seq::<char>::empty());
        assert(number_of(s.drop_last()) == 0);
    } else {
        decimal_is_the_number(n / 10);
        assert(s.drop_last() =~= text::decimal_of(n / 10));
        assert forall|i: int| 0 <= i < s.len() implies '0' <= #[trigger] s[i] <= '9' by {
            if i < s.len() - 1 {
                assert(s[i] == text::decimal_of(n / 10)[i]);
            }
        }
        assert(s[0] == text::decimal_of(n / 10)[0]);
    }
}

/// A number is written in decimal digits, without zeros in front.
pub proof fn decimal_digits_are_the_number(n: u64, r: String)
    requires
        call_ensures(text::decimal, (n,), r),
    ensures
        is_number(r@),
        number_of(r@) == n,
{
    decimal_is_the_number(n as nat);
}

/// A number below zero is written behind a minus sign.
pub proof fn signed_digits_are_the_number(n: i64, r: String)
    requires
        call_ensures(text::signed, (n,), r),
    ensures
        n >= 0 ==> is_number(r@) && number_of(r@) == n,
        n < 0 ==> r@.len() > 1 && r@[0] == '-' && is_number(r@.drop_first()) && number_of(
            r@.drop_first(),
        ) == -n,
{
    if n >= 0 {
        decimal_is_the_number(n as nat);
    } else {
        decimal_is_the_number((-n) as nat);
        reveal_strlit("-");
        assert(r@.drop_first() =~= text::decimal_of((-n) as nat));
    }
}

proof fn every_fourth_is_a_comma(n: nat, i: int)
    requires
        0 <= i < text::thousands_of(n).len(),
    ensures
        text::thousands_of(n)[text::thousands_of(n).len() - 1 - i] == ',' <==> i % 4 == 3,
        n < 1000 ==> text::thousands_of(n).len() <= 3,
        text::thousands_of(n)[0] != ',',
    decreases n,
{
    let s = text::thousands_of(n);
    if n < 1000 {
        decimal_is_the_number(n);
        assert(s.len() <= 3) by {
            reveal_with_fuel(text::decimal_of, 4);
        }
    } else {
        let head = text::thousands_of(n / 1000);
        assert(head.len() > 0) by {
            if n / 1000 < 1000 {
                decimal_is_the_number(n / 1000);
            }
        }
        every_fourth_is_a_comma(n / 1000, 0);
        assert(s.len() == head.len() + 4);
        assert(s[0] == head[0]);
        if i >= 4 {
            every_fourth_is_a_comma(n / 1000, i - 4);
            assert(s[s.len() - 1 - i] == head[head.len() - 1 - (i - 4)]);
        }
    }
}

/// Thousands are set apart by commas, and but for them it is the plain number.
pub proof fn thousands_are_set_apart(n: u64, r: String, plain: String, i: int)
    requires
        call_ensures(text::format_with_thousands, (n,), r),
        call_ensures(text::decimal, (n,), plain),
        0 <= i < r@.len(),
    ensures
        r@[r@.len() - 1 - i] == ',' <==> i % 4 == 3,
        r@[0] != ',',
        text::without_commas(r@) == plain@,
{
    every_fourth_is_a_comma(n as nat, i);
    text::thousands_only_add_commas(n as nat);
}

proof fn the_first_difference_decides(a: Seq<char>, b: Seq<char>, n: int)
    requires
        0 <= n <= a.len(),
        n < b.len(),
        forall|i: int| 0 <= i < n ==> #[trigger] a[i] == b[i],
        n < a.len() ==> a[n] != b[n],
    ensures
        order::text_before(a, b) <==> (n == a.len() || a[n] < b[n]),
    decreases n,
{
    if n > 0 {
        assert(a[0] == b[0]);
        let x = a.drop_first();
        let y = b.drop_first();
        assert forall|i: int| 0 <= i < n - 1 implies #[trigger] x[i] == y[i] by {
            assert(a[i + 1] == b[i + 1]);
        }
        the_first_difference_decides(x, y, n - 1);
    }
}

/// Texts are ordered by the first character in which they differ; a text comes
/// before one that goes on where it ends.
pub proof fn texts_are_ordered_by_their_first_difference(a: &str, b: &str, r: bool, n: int)
    requires
        call_ensures(order::comes_before, (a, b), r),
        0 <= n <= a@.len(),
        n < b@.len(),
        forall|i: int| 0 <= i < n ==> #[trigger] a@[i] == b@[i],
        n < a@.len() ==> a@[n] != b@[n],
    ensures
        n == a@.len() ==> r,
        n < a@.len() && a@[n] < b@[n] ==> r,
        n < a@.len() && a@[n] > b@[n] ==> !r,
{
    the_first_difference_decides(a@, b@, n);
}

proof fn no_prefix_comes_after(a: Seq<char>, b: Seq<char>)
    requires
        b.len() <= a.len(),
        forall|i: int| 0 <= i < b.len() ==> #[trigger] a[i] == b[i],
    ensures
        !order::text_before(a, b),
    decreases b.len(),
{
    if b.len() > 0 {
        assert(a[0] == b[0]);
        let x = a.drop_first();
        let y = b.drop_first();
        assert forall|i: int| 0 <= i < y.len() implies #[trigger] x[i] == y[i] by {
            assert(a[i + 1] == b[i + 1]);
        }
        no_prefix_comes_after(x, y);
    }
}

/// A text does not come before itself, nor before one that ends where it goes on.
pub proof fn a_text_does_not_come_before_its_start(a: &str, b: &str, r: bool)
    requires
        call_ensures(order::comes_before, (a, b), r),
        b@.len() <= a@.len(),
        forall|i: int| 0 <= i < b@.len() ==> #[trigger] a@[i] == b@[i],
    ensures
        !r,
{
    no_prefix_comes_after(a@, b@);
}

proof fn low_digits_are_the_number(u: nat, n: nat, i: int)
    requires
        0 <= i < n,
    ensures
        codec::low_hex(u, n).len() == n,
        0 <= hex_value(codec::low_hex(u, n)[i]) < 16,
        hex_value(codec::low_hex(u, n)[n - 1]) == u as int % 16,
        i < n - 1 ==> codec::low_hex(u, n)[i] == codec::low_hex(u / 16, (n - 1) as nat)[i],
    decreases n,
{
    low_digits_have_their_length(u, n);
    low_digits_have_their_length(u / 16, (n - 1) as nat);
    if i < n - 1 {
        low_digits_are_the_number(u / 16, (n - 1) as nat, i);
    }
}

proof fn low_digits_have_their_length(u: nat, n: nat)
    ensures
        codec::low_hex(u, n).len() == n,
    decreases n,
{
    if n > 0 {
        low_digits_have_their_length(u / 16, (n - 1) as nat);
    }
}

/// Where the `i`-th hexadecimal digit of an identity stands in its text: hyphens stand
/// behind the eighth, the twelfth, the sixteenth and the twentieth.
pub open spec fn stands_at(i: int) -> int {
    if i < 8 {
        i
    } else if i < 12 {
        i + 1
    } else if i < 16 {
        i + 2
    } else if i < 20 {
        i + 3
    } else {
        i + 4
    }
}

/// An identity is written in lower-case hexadecimal digits and hyphens, the last digit
/// last, and its text is read as the identity again.
pub proof fn an_identity_is_written_and_read(u: codec::Uuid, r: String, i: int)
    requires
        call_ensures(codec::uuid_to_string, (u,), r),
        0 <= i < 32,
    ensures
        r@.len() == 36,
        r@[8] == '-' && r@[13] == '-' && r@[18] == '-' && r@[23] == '-',
        0 <= hex_value(r@[stands_at(i)]) < 16,
        hex_value(r@[35]) == u as int % 16,
        forall|text: &str, read: Result<codec::Uuid, String>|
            text@ == r@ && #[trigger] call_ensures(codec::parse_uuid, (text,), read) ==> read
                == Ok::<codec::Uuid, String>(u),
{
    low_digits_are_the_number(u as nat, 32, i);
    let h = codec::low_hex(u as nat, 32);
    assert(r@[stands_at(i)] == h[i]);
    assert(r@[35] == h[31]);
}

/// The host of a URL is indexed in ASCII lower case; a URL without one has none.
pub proof fn a_host_is_indexed_in_lower_case(url: &str, r: String)
    requires
        call_ensures(codec::parse_host, (url,), r),
    ensures
        is_host_of(r@, url@),
{
    a_stored_host_is_the_host(url@);
}

// ---------------------------------------------------------------------------- times

/// An instant is after another where its milliseconds are more, or are as many and
/// its nanoseconds are more.
pub proof fn milliseconds_count_first(a: Timestamp, b: Timestamp, r: bool)
    requires
        call_ensures(Timestamp::is_after, (a, b), r),
    ensures
        a.millis > b.millis ==> r,
        a.millis < b.millis ==> !r,
        a.millis == b.millis ==> (r <==> a.nanos > b.nanos),
{
}

/// A stored count of milliseconds is that instant, where the calendar has it, and it
/// is stored as the same count again.
pub proof fn a_stored_instant_is_the_same(ms: i64, t: Option<Timestamp>, again: i64)
    requires
        call_ensures(time::ms_to_dt, (ms,), t),
        call_ensures(time::dt_to_ms, (t,), again),
    ensures
        time::MIN_MILLIS <= ms <= time::MAX_MILLIS ==> t is Some && t->0.millis == ms
            && t->0.nanos == 0 && again == ms,
        !(time::MIN_MILLIS <= ms <= time::MAX_MILLIS) ==> t is None && again == 0,
{
}

/// An absent instant is stored as absent, and another one by its milliseconds.
pub proof fn an_absent_instant_is_stored_as_absent(t: Option<Timestamp>, ms: Option<i64>)
    requires
        call_ensures(time::optional_dt_to_ms, (t,), ms),
    ensures
        t is None <==> ms is None,
        t is Some ==> ms->0 == t->0.millis,
{
}

/// What is stored as absent is read as absent.
pub proof fn an_absent_count_is_read_as_absent(ms: Option<i64>, t: Option<Timestamp>)
    requires
        call_ensures(time::optional_ms_to_dt, (ms,), t),
    ensures
        ms is None ==> t is None,
        ms is Some && time::MIN_MILLIS <= ms->0 <= time::MAX_MILLIS ==> t is Some && t->0.millis
            == ms->0 && t->0.nanos == 0,
{
}

/// An edit is after a decision only where both times are known and its own is later.
pub proof fn only_a_later_edit_reopens(
    edit: Option<Timestamp>,
    decision: Option<Timestamp>,
    r: bool,
)
    requires
        call_ensures(time::edited_after, (edit, decision), r),
    ensures
        edit is None || decision is None ==> !r,
        edit is Some && decision is Some && edit->0.millis > decision->0.millis ==> r,
        edit is Some && decision is Some && edit->0.millis < decision->0.millis ==> !r,
        edit is Some && decision is Some && edit->0.millis == decision->0.millis ==> (r
            <==> edit->0.nanos > decision->0.nanos),
{
}

/// An edit prevails over a deletion whose time is not known, and over one that it is
/// later than; a deletion prevails where the edit is at the same time or its time is
/// not known.
pub proof fn a_tie_goes_to_the_deletion(
    edit: Option<Timestamp>,
    delete: Option<Timestamp>,
    r: bool,
)
    requires
        call_ensures(time::live_edit_wins, (edit, delete), r),
    ensures
        delete is None ==> r,
        delete is Some && edit is None ==> !r,
        edit is Some && edit == delete ==> !r,
        edit is Some && delete is Some && edit->0.millis > delete->0.millis ==> r,
        edit is Some && delete is Some && edit->0.millis < delete->0.millis ==> !r,
        edit is Some && delete is Some && edit->0.millis == delete->0.millis ==> (r
            <==> edit->0.nanos > delete->0.nanos),
{
}

/// The earliest of two times is one of them, and neither is before it. A time that is
/// not known does not count.
pub proof fn the_earliest_is_not_after_either(
    a: Option<Timestamp>,
    b: Option<Timestamp>,
    r: Option<Timestamp>,
)
    requires
        call_ensures(time::earliest, (a, b), r),
    ensures
        a is None ==> r == b,
        b is None ==> r == a,
        r == a || r == b,
        a is Some && r is Some ==> r->0.millis < a->0.millis || (r->0.millis == a->0.millis
            && r->0.nanos <= a->0.nanos),
        b is Some && r is Some ==> r->0.millis < b->0.millis || (r->0.millis == b->0.millis
            && r->0.nanos <= b->0.nanos),
{
}

/// The same of counts of milliseconds.
pub proof fn the_earliest_count_is_the_least(a: Option<i64>, b: Option<i64>, r: Option<i64>)
    requires
        call_ensures(time::earliest_ms, (a, b), r),
    ensures
        a is None ==> r == b,
        b is None ==> r == a,
        r == a || r == b,
        a is Some && r is Some ==> r->0 <= a->0,
        b is Some && r is Some ==> r->0 <= b->0,
{
}

// ------------------------------------------------------------------------- settings

/// A text that is set is got again, and every other setting stays.
pub proof fn a_set_text_is_got(t: &mut SettingTable, key: SettingKey, value: &str, other: SettingKey)
    requires
        call_ensures(SettingTable::set_text, (t, key, value), ()),
        other != key,
    ensures
        forall|r: Result<Option<String>, EngineError>| #[trigger]
            call_ensures(SettingTable::get_text, (&*final(t), key), r) ==> r is Ok && r->Ok_0 is Some
                && r->Ok_0->0@ == value@,
        final(t)@.contains_key(other) <==> old(t)@.contains_key(other),
        old(t)@.contains_key(other) ==> final(t)@[other] == old(t)@[other],
{
    codec::utf8_reads_back(value@);
}

/// A 64-bit number that is set is got again, and every other setting stays.
pub proof fn a_set_number_is_got(t: &mut SettingTable, key: SettingKey, value: i64, other: SettingKey)
    requires
        call_ensures(SettingTable::set_i64, (t, key, value), ()),
        other != key,
    ensures
        forall|r: Result<Option<i64>, EngineError>| #[trigger]
            call_ensures(SettingTable::get_i64, (&*final(t), key), r) ==> r == Ok::<
                Option<i64>,
                EngineError,
            >(Some(value)),
        final(t)@.contains_key(other) <==> old(t)@.contains_key(other),
        old(t)@.contains_key(other) ==> final(t)@[other] == old(t)@[other],
{
    settings::i64_reads_back(value);
}

/// A 32-bit number that is set is got again, and every other setting stays.
pub proof fn a_set_short_number_is_got(
    t: &mut SettingTable,
    key: SettingKey,
    value: i32,
    other: SettingKey,
)
    requires
        call_ensures(SettingTable::set_i32, (t, key, value), ()),
        other != key,
    ensures
        forall|r: Result<Option<i32>, EngineError>| #[trigger]
            call_ensures(SettingTable::get_i32, (&*final(t), key), r) ==> r == Ok::<
                Option<i32>,
                EngineError,
            >(Some(value)),
        final(t)@.contains_key(other) <==> old(t)@.contains_key(other),
        old(t)@.contains_key(other) ==> final(t)@[other] == old(t)@[other],
{
    settings::i32_reads_back(value);
}

/// A 32-bit count that is set is got again, and every other setting stays.
pub proof fn a_set_count_is_got(t: &mut SettingTable, key: SettingKey, value: u32, other: SettingKey)
    requires
        call_ensures(SettingTable::set_u32, (t, key, value), ()),
        other != key,
    ensures
        forall|r: Result<Option<u32>, EngineError>| #[trigger]
            call_ensures(SettingTable::get_u32, (&*final(t), key), r) ==> r == Ok::<
                Option<u32>,
                EngineError,
            >(Some(value)),
        final(t)@.contains_key(other) <==> old(t)@.contains_key(other),
        old(t)@.contains_key(other) ==> final(t)@[other] == old(t)@[other],
{
    settings::u32_reads_back(value);
}

/// An instant that is set is got again to the millisecond, and one that is set to be
/// absent is absent; every other setting stays.
pub proof fn a_set_instant_is_got(
    t: &mut SettingTable,
    key: SettingKey,
    value: Option<Timestamp>,
    other: SettingKey,
)
    requires
        call_ensures(SettingTable::set_optional_timestamp, (t, key, value), ()),
        value is Some ==> time::MIN_MILLIS <= value->0.millis <= time::MAX_MILLIS,
        other != key,
    ensures
        forall|r: Result<Option<Timestamp>, EngineError>| #[trigger]
            call_ensures(SettingTable::get_optional_timestamp, (&*final(t), key), r) ==> r is Ok && (
            r->Ok_0 is Some <==> value is Some) && (value is Some ==> r->Ok_0->0.millis
                == value->0.millis && r->Ok_0->0.nanos == 0),
        final(t)@.contains_key(other) <==> old(t)@.contains_key(other),
        old(t)@.contains_key(other) ==> final(t)@[other] == old(t)@[other],
{
    if value is Some {
        settings::i64_reads_back(value->0.millis);
    }
}

/// A setting that is deleted is not got, and every other one stays.
pub proof fn a_deleted_setting_is_gone(t: &mut SettingTable, key: SettingKey, other: SettingKey)
    requires
        call_ensures(SettingTable::delete, (t, key), ()),
        other != key,
    ensures
        forall|r: Option<Vec<u8>>| #[trigger]
            call_ensures(SettingTable::get_blob, (&*final(t), key), r) ==> r is None,
        final(t)@.contains_key(other) <==> old(t)@.contains_key(other),
        old(t)@.contains_key(other) ==> final(t)@[other] == old(t)@[other],
{
}

// -------------------------------------------------------------------------- sealing

/// What a session key sealed, it opens again to what it was; the nonce stands in
/// front, and a nonce is used once.
pub proof fn what_is_sealed_is_opened(
    key: &SessionKey,
    nonces: &mut NonceSource,
    plain: &[u8],
    r: Result<Vec<u8>, String>,
)
    requires
        call_ensures(crypto::wrap_with_session_key, (key, nonces, plain), r),
        r is Ok,
    ensures
        forall|blob: &[u8], opened: Result<Vec<u8>, String>|
            blob@ == r->Ok_0@ && #[trigger] call_ensures(
                crypto::unwrap_with_session_key,
                (key, blob),
                opened,
            ) ==> opened is Ok && opened->Ok_0@ == plain@,
        r->Ok_0@.len() == plain@.len() + 28,
        old(nonces).drawn@.len() > 0 ==> r->Ok_0@.take(12) == old(nonces).drawn@.last()@
            && final(nonces).drawn@ == old(nonces).drawn@.drop_last(),
{
    if old(nonces).drawn@.len() > 0 {
        assert(old(nonces).drawn@.last()@.len() == 12);
        assert(r->Ok_0@.take(12) =~= old(nonces).drawn@.last()@);
        assert(final(nonces).drawn@ =~= old(nonces).drawn@.drop_last());
    }
}

// ----------------------------------------------------------------------- migrations

/// The steps that are due lead from the recorded version to the latest one by one; a
/// version that is newer is refused and named.
pub proof fn due_steps_lead_to_the_latest(
    recorded: i64,
    r: Result<Vec<Migration>, MigrationError>,
    i: int,
)
    requires
        call_ensures(migrations::pending, (recorded,), r),
        recorded >= 0,
    ensures
        r is Ok <==> recorded <= 12,
        r is Ok ==> recorded + r->Ok_0@.len() == 12,
        r is Ok && 0 <= i < r->Ok_0@.len() ==> r->Ok_0@[i].version == recorded + 1 + i,
        recorded > 12 ==> (r matches Err(
            MigrationError::SchemaTooNew { binary_max, file_current },
        ) && binary_max == 12 && (recorded <= u32::MAX ==> file_current == recorded)),
{
}

/// The script of a step is named after the step, behind its version.
pub proof fn a_script_is_named_after_its_step(r: Vec<Migration>, i: int)
    requires
        call_ensures(migrations::known_migrations, (), r),
        0 <= i < 12,
    ensures
        r@.len() == 12,
        r@[i].version == i + 1,
        r@[i].sql@.take(13) == "migrations/00"@,
        hex_value(r@[i].sql@[13]) * 10 + hex_value(r@[i].sql@[14]) == r@[i].version,
        r@[i].sql@[15] == '_',
        r@[i].sql@.skip(16) == r@[i].name@ + ".sql"@,
{
    reveal_strlit("migrations/00");
    reveal_strlit(".sql");
    reveal_strlit("initial_schema");
    reveal_strlit("entry_custom_field");
    reveal_strlit("meta");
    reveal_strlit("group_sort_order");
    reveal_strlit("entry_has_totp");
    reveal_strlit("entry_custom_data");
    reveal_strlit("owner_conflict_rows");
    reveal_strlit("entry_previous_parent");
    reveal_strlit("conflict_entry_attachment");
    reveal_strlit("entry_location_changed");
    reveal_strlit("group_location_changed");
    reveal_strlit("persistence_watermark");
    reveal_strlit("migrations/0001_initial_schema.sql");
    reveal_strlit("migrations/0002_entry_custom_field.sql");
    reveal_strlit("migrations/0003_meta.sql");
    reveal_strlit("migrations/0004_group_sort_order.sql");
    reveal_strlit("migrations/0005_entry_has_totp.sql");
    reveal_strlit("migrations/0006_entry_custom_data.sql");
    reveal_strlit("migrations/0007_owner_conflict_rows.sql");
    reveal_strlit("migrations/0008_entry_previous_parent.sql");
    reveal_strlit("migrations/0009_conflict_entry_attachment.sql");
    reveal_strlit("migrations/0010_entry_location_changed.sql");
    reveal_strlit("migrations/0011_group_location_changed.sql");
    reveal_strlit("migrations/0012_persistence_watermark.sql");
    assert(r@[i].sql@.take(13) =~= "migrations/00"@);
    assert(r@[i].sql@.skip(16) =~= r@[i].name@ + ".sql"@);
}

proof fn highest_is_the_highest(versions: Seq<i64>, n: nat)
    requires
        n <= versions.len(),
    ensures
        migrations::highest(versions, n) >= 0,
        forall|i: int| 0 <= i < n ==> #[trigger] versions[i] <= migrations::highest(versions, n),
        migrations::highest(versions, n) == 0 || exists|i: int|
            0 <= i < n && #[trigger] versions[i] == migrations::highest(versions, n),
    decreases n,
{
    if n > 0 {
        highest_is_the_highest(versions, (n - 1) as nat);
    }
}

/// The current version is the highest on record, and zero where none is.
pub proof fn the_current_version_is_the_highest(t: SchemaVersions, r: i64, i: int)
    requires
        call_ensures(SchemaVersions::current, (&t,), r),
    ensures
        r >= 0,
        0 <= i < t.versions@.len() ==> t.versions@[i] <= r,
        t.versions@.len() == 0 ==> r == 0,
        r > 0 ==> t.versions@.contains(r),
{
    highest_is_the_highest(t.versions@, t.versions@.len());
}

/// After the due steps were taken the latest version is the current one, and every
/// version that was on record still is.
pub proof fn after_the_steps_the_latest_is_current(
    t: &mut SchemaVersions,
    r: Result<Vec<Migration>, MigrationError>,
    i: int,
)
    requires
        call_ensures(SchemaVersions::apply_pending, (t,), r),
    ensures
        r is Ok ==> forall|current: i64| #[trigger]
            call_ensures(SchemaVersions::current, (&*final(t),), current) ==> current == 12,
        r is Ok && 0 <= i < old(t).versions@.len() ==> final(t).versions@[i]
            == old(t).versions@[i],
        r is Ok && 0 <= i < r->Ok_0@.len() ==> final(t).versions@[old(t).versions@.len() + i]
            == r->Ok_0@[i].version,
        r is Ok ==> final(t).versions@.len() == old(t).versions@.len() + r->Ok_0@.len(),
        r is Err ==> *final(t) == *old(t),
{
    if r is Ok {
        let a = old(t).versions@;
        let b = final(t).versions@;
        let steps = r->Ok_0@;
        highest_is_the_highest(a, a.len());
        highest_is_the_highest(b, b.len());
        let current = migrations::highest(a, a.len());
        assert forall|n: int| 0 <= n < b.len() implies #[trigger] b[n] <= 12 by {
            if n < a.len() {
                assert(b[n] == a[n]);
            } else {
                assert(b[n] == steps[n - a.len()].version);
            }
        }
        if steps.len() > 0 {
            assert(b[b.len() - 1] == steps[steps.len() - 1].version);
        } else {
            assert(b =~= a);
        }
    }
}

// --------------------------------------------------------------------------- numbers

/// The strengths are numbered from the weakest up, and each is read from its number.
pub proof fn strengths_are_numbered_from_the_weakest(s: StrengthBucket, n: u8)
    requires
        call_ensures(StrengthBucket::to_ordinal, (s,), n),
    ensures
        s is VeryWeak <==> n == 0,
        s is Weak <==> n == 1,
        s is Reasonable <==> n == 2,
        s is Strong <==> n == 3,
        s is VeryStrong <==> n == 4,
        forall|r: Option<StrengthBucket>| #[trigger]
            call_ensures(StrengthBucket::from_ordinal, (n,), r) ==> r == Some(s),
{
}

/// A number above the strongest is no strength.
pub proof fn no_strength_above_the_strongest(n: u8, r: Option<StrengthBucket>)
    requires
        call_ensures(StrengthBucket::from_ordinal, (n,), r),
    ensures
        r is None <==> n > 4,
{
}

/// The page of everything starts at the first row and has no end.
pub proof fn a_page_of_everything(r: Pagination)
    requires
        call_ensures(Pagination::all, (), r),
    ensures
        r.offset == 0,
        r.limit == u64::MAX,
{
}

/// Only a wrong key, and what a key that does not fit leads to, can be mended by
/// writing the vault anew.
pub proof fn only_a_wrong_key_can_be_mended(e: EngineError, r: bool)
    requires
        call_ensures(EngineError::is_recoverable_sidecar_failure, (&e,), r),
    ensures
        e is WrongKey ==> r,
        e matches EngineError::Projection(ProjectionError::Unwrap(_)) ==> r,
        e matches EngineError::Projection(ProjectionError::SessionKey(_)) ==> r,
        e matches EngineError::Projection(ProjectionError::SchemaInvariant(_)) ==> !r,
        e matches EngineError::Reveal(RevealError::Unwrap(_)) ==> r,
        e matches EngineError::Reveal(RevealError::SessionKey(_)) ==> r,
        e is KeyProvider || e is Io || e is Sqlite || e is Migration || e is Random || e is Ingest || e
            is NotFound || e is Serialise || e is NotEvaluable || e is Wrap || e is SessionKey || e
            is CycleDetected || e is FileWatcher || e is ResolutionMismatch
            ==> !r,
{
}

/// A file that is no database means that the key is wrong; any other fault is handed
/// on.
pub proof fn no_database_means_a_wrong_key(e: SqliteError, r: EngineError, wrong: bool)
    requires
        call_ensures(error::opening_error, (e,), r),
        call_ensures(error::is_wrong_key, (&e,), wrong),
    ensures
        wrong <==> e is NotADatabase,
        e is NotADatabase ==> r is WrongKey,
        !(e is NotADatabase) ==> r == EngineError::Sqlite(e),
{
}

} // verus!
