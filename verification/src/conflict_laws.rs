//! A held value reads back as it was held.

use vstd::prelude::*;
use vstd::utf8::*;

use crate::codec;
use crate::codec::Uuid;
use crate::conflict_rows;
use crate::conflict_rows::{ConflictRecord, ConflictTable};
use crate::crypto::{NonceSource, SessionKey};
use crate::error::EngineError;
use crate::meta_laws::{is_dated, to_the_millisecond};
use crate::order;
use crate::order::TextKeyed;
use crate::rows;
use crate::rows::{OpenedField, PlainFieldView, ProtectedRow, PASSWORD_FIELD};
use crate::table;
use crate::table::Keyed;
use crate::time;
use crate::vault::{CustomField, CustomFieldView, Entry, EntryView, Timestamps};
use crate::vault_laws::is_known_millis_of;

verus! {

/// Times as a held value keeps them: in whole milliseconds, an unknown time
/// unknown, and an expiry only where it is in force.
pub open spec fn held_times(t: Timestamps) -> Timestamps {
    let expiry = time::optional_instant_of(rows::expiry_of(t));
    Timestamps {
        creation_time: time::optional_instant_of(time::optional_millis(t.creation_time)),
        last_modification_time: time::optional_instant_of(time::optional_millis(t.last_modification_time)),
        last_access_time: time::optional_instant_of(time::optional_millis(t.last_access_time)),
        expiry_time: expiry,
        expires: expiry is Some,
    }
}

/// Whether a held value keeps the custom field: a sealed one that takes the
/// password's name is not kept.
pub open spec fn kept(cf: CustomFieldView) -> bool {
    rows::gets_sealed_row(cf) || !cf.protected
}

/// Whether two custom fields agree in name, value and protection.
pub open spec fn same_field(a: CustomFieldView, b: CustomFieldView) -> bool {
    a.key == b.key && a.value == b.value && a.protected == b.protected
}

/// Whether a list has a field that agrees with the given one.
pub open spec fn has_field(fields: Seq<CustomFieldView>, f: CustomFieldView) -> bool {
    exists|i: int| 0 <= i < fields.len() && same_field(#[trigger] fields[i], f)
}

proof fn sealed_member(cfs: Seq<CustomFieldView>, x: OpenedField)
    ensures
        rows::sealed_rows_of(cfs).contains(x) <==> exists|i: int|
            0 <= i < cfs.len() && rows::gets_sealed_row(#[trigger] cfs[i]) && x == (rows::sealed_row(cfs[i].key, cfs[i].value)),
    decreases cfs.len(),
{
    if cfs.len() > 0 {
        let head = cfs.drop_last();
        sealed_member(head, x);
        let before = rows::sealed_rows_of(head);
        let all = rows::sealed_rows_of(cfs);
        let last = rows::sealed_row(cfs.last().key, cfs.last().value);
        if rows::gets_sealed_row(cfs.last()) {
            assert(all == before.push(last));
            assert(all[before.len() as int] == last);
            if before.contains(x) {
                let k = choose|k: int| 0 <= k < before.len() && before[k] == x;
                assert(all[k] == x);
            }
            if all.contains(x) && x != last {
                let k = choose|k: int| 0 <= k < all.len() && all[k] == x;
                assert(before[k] == x);
            }
        }
        assert forall|i: int| 0 <= i < head.len() implies #[trigger] head[i] == cfs[i] by {}
        if before.contains(x) {
            let i = choose|i: int|
                0 <= i < head.len() && rows::gets_sealed_row(#[trigger] head[i]) && x == (
                rows::sealed_row(head[i].key, head[i].value));
            assert(rows::gets_sealed_row(cfs[i]));
        }
        if exists|i: int|
            0 <= i < cfs.len() && rows::gets_sealed_row(#[trigger] cfs[i]) && x == (rows::sealed_row(cfs[i].key, cfs[i].value)) {
            let i = choose|i: int|
                0 <= i < cfs.len() && rows::gets_sealed_row(#[trigger] cfs[i]) && x == (
                rows::sealed_row(cfs[i].key, cfs[i].value));
            if i < head.len() {
                assert(rows::gets_sealed_row(head[i]));
            }
        }
    }
}

proof fn plain_member(cfs: Seq<CustomFieldView>, x: PlainFieldView)
    ensures
        rows::plain_rows_of(cfs).contains(x) <==> exists|i: int|
            0 <= i < cfs.len() && !(#[trigger] cfs[i]).protected && x == (PlainFieldView {
                field_name: cfs[i].key,
                value: cfs[i].value,
            }),
    decreases cfs.len(),
{
    if cfs.len() > 0 {
        let head = cfs.drop_last();
        plain_member(head, x);
        let before = rows::plain_rows_of(head);
        let all = rows::plain_rows_of(cfs);
        let last = PlainFieldView { field_name: cfs.last().key, value: cfs.last().value };
        if !cfs.last().protected {
            assert(all == before.push(last));
            assert(all[before.len() as int] == last);
            if before.contains(x) {
                let k = choose|k: int| 0 <= k < before.len() && before[k] == x;
                assert(all[k] == x);
            }
            if all.contains(x) && x != last {
                let k = choose|k: int| 0 <= k < all.len() && all[k] == x;
                assert(before[k] == x);
            }
        }
        assert forall|i: int| 0 <= i < head.len() implies #[trigger] head[i] == cfs[i] by {}
        if before.contains(x) {
            let i = choose|i: int|
                0 <= i < head.len() && !(#[trigger] head[i]).protected && x == (PlainFieldView {
                    field_name: head[i].key,
                    value: head[i].value,
                });
            assert(!cfs[i].protected);
        }
        if exists|i: int|
            0 <= i < cfs.len() && !(#[trigger] cfs[i]).protected && x == (PlainFieldView {
                field_name: cfs[i].key,
                value: cfs[i].value,
            }) {
            let i = choose|i: int|
                0 <= i < cfs.len() && !(#[trigger] cfs[i]).protected && x == (PlainFieldView {
                    field_name: cfs[i].key,
                    value: cfs[i].value,
                });
            if i < head.len() {
                assert(!head[i].protected);
            }
        }
    }
}

proof fn nothing_to_report(record: ConflictRecord, rs: Seq<ProtectedRow>, key: Seq<u8>, n: nat)
    requires
        n <= rs.len(),
        forall|i: int|
            0 <= i < rs.len() ==> conflict_rows::value_fault(key, #[trigger] rs[i]) is None,
    ensures
        conflict_rows::first_report(record.owner@, record.entry_uuid, rs, key, n) is None,
    decreases n,
{
    if n > 0 {
        nothing_to_report(record, rs, key, (n - 1) as nat);
    }
}

proof fn password_found(rs: Seq<ProtectedRow>, key: Seq<u8>, n: nat, password: Seq<char>)
    requires
        n <= rs.len(),
        forall|i: int|
            0 <= i < rs.len() && (#[trigger] rs[i]).field_name@ == PASSWORD_FIELD@
                ==> conflict_rows::value_text(key, rs[i]) == password,
        exists|i: int| 0 <= i < n && (#[trigger] rs[i]).field_name@ == PASSWORD_FIELD@,
    ensures
        conflict_rows::peer_password(rs, key, n) == password,
    decreases n,
{
    let i = choose|i: int| 0 <= i < n && (#[trigger] rs[i]).field_name@ == PASSWORD_FIELD@;
    if rs[n - 1].field_name@ != PASSWORD_FIELD@ {
        assert(0 <= i < n - 1 && rs[i].field_name@ == PASSWORD_FIELD@);
        password_found(rs, key, (n - 1) as nat, password);
    }
}

/// The custom field that a sealed row stands for.
spec fn field_of(row: ProtectedRow, key: Seq<u8>) -> CustomFieldView {
    CustomFieldView {
        key: row.field_name@,
        value: conflict_rows::value_text(key, row),
        protected: true,
        totp_key: false,
    }
}

proof fn sealed_field_member(rs: Seq<ProtectedRow>, key: Seq<u8>, n: nat, x: CustomFieldView)
    requires
        n <= rs.len(),
    ensures
        conflict_rows::sealed_fields(rs, key, n).contains(x) <==> exists|i: int|
            0 <= i < n && (#[trigger] rs[i]).field_name@ != PASSWORD_FIELD@ && x == field_of(
                rs[i],
                key,
            ),
    decreases n,
{
    if n > 0 {
        sealed_field_member(rs, key, (n - 1) as nat, x);
        let before = conflict_rows::sealed_fields(rs, key, (n - 1) as nat);
        let all = conflict_rows::sealed_fields(rs, key, n);
        let last = field_of(rs[n - 1], key);
        if rs[n - 1].field_name@ != PASSWORD_FIELD@ {
            assert(all == before.push(last));
            assert(all[before.len() as int] == last);
            if before.contains(x) {
                let k = choose|k: int| 0 <= k < before.len() && before[k] == x;
                assert(all[k] == x);
            }
            if all.contains(x) && x != last {
                let k = choose|k: int| 0 <= k < all.len() && all[k] == x;
                assert(before[k] == x);
            }
        }
        if before.contains(x) {
            let i = choose|i: int|
                0 <= i < n - 1 && (#[trigger] rs[i]).field_name@ != PASSWORD_FIELD@ && x
                    == field_of(rs[i], key);
            assert(0 <= i < n && rs[i].field_name@ != PASSWORD_FIELD@);
        }
        if exists|i: int|
            0 <= i < n && (#[trigger] rs[i]).field_name@ != PASSWORD_FIELD@ && x == field_of(
                rs[i],
                key,
            ) {
            let i = choose|i: int|
                0 <= i < n && (#[trigger] rs[i]).field_name@ != PASSWORD_FIELD@ && x == field_of(
                    rs[i],
                    key,
                );
            if i < n - 1 {
                assert(0 <= i < n - 1 && rs[i].field_name@ != PASSWORD_FIELD@);
            }
        }
    }
}

/// What is known of a sealed row of a held entry.
proof fn sealed_row(record: ConflictRecord, key: Seq<u8>, e: EntryView, row: ProtectedRow)
    requires
        record.row_view(key) == conflict_rows::conflict_of(e),
        rows::storable_fields(e.content),
        record.fields.protected@.contains(row),
    ensures
        conflict_rows::value_fault(key, row) is None,
        row.field_name@ == PASSWORD_FIELD@ ==> conflict_rows::value_text(key, row)
            == e.content.password,
        row.field_name@ != PASSWORD_FIELD@ ==> exists|i: int|
            0 <= i < e.content.custom_fields.len() && rows::gets_sealed_row(
                #[trigger] e.content.custom_fields[i],
            ) && same_field(field_of(row, key), e.content.custom_fields[i]),
{
    let cfs = e.content.custom_fields;
    let raw = record.fields.protected@;
    let all = rows::fields_of(e.content).protected;
    let sealed = rows::sealed_rows_of(cfs);
    assert(rows::opened_rows(raw, key) == all);
    let k = choose|k: int| 0 <= k < raw.len() && raw[k] == row;
    assert(rows::opened_rows(raw, key)[k] == row.opened(key));
    assert(all[k] == row.opened(key));
    assert(all[0].field_name == PASSWORD_FIELD@);
    if k == 0 {
        codec::utf8_reads_back(e.content.password);
    } else {
        assert(all[k].field_name != all[0].field_name);
        assert(all[k] == sealed[k - 1]);
        assert(sealed.contains(sealed[k - 1]));
        sealed_member(cfs, sealed[k - 1]);
        let i = choose|i: int|
            0 <= i < cfs.len() && rows::gets_sealed_row(#[trigger] cfs[i]) && sealed[k - 1] == (
            rows::sealed_row(cfs[i].key, cfs[i].value));
        codec::utf8_reads_back(cfs[i].value);
        assert(same_field(field_of(row, key), cfs[i]));
    }
}

/// A device's entry reads back from its held value: title, user name, URL,
/// notes, password and icon as they were, times in whole milliseconds, and the
/// custom fields that are kept, all of them and no others.
pub proof fn held_value_reads_back(record: ConflictRecord, key: Seq<u8>, e: EntryView)
    requires
        record.entry_uuid == e.id,
        record.row_view(key) == conflict_rows::conflict_of(e),
        conflict_rows::icon_parses(record, e),
        rows::storable_fields(e.content),
    ensures
        conflict_rows::record_report(record, key) is None,
        ({
            let p = conflict_rows::peer_entry_of(record, key);
            &&& p.id == e.id
            &&& p.content.title == e.content.title
            &&& p.content.username == e.content.username
            &&& p.content.password == e.content.password
            &&& p.content.url == e.content.url
            &&& p.content.notes == e.content.notes
            &&& p.content.icon_id == e.content.icon_id
            &&& p.content.custom_icon_uuid == e.content.custom_icon_uuid
            &&& p.content.times == held_times(e.content.times)
            &&& forall|i: int|
                0 <= i < e.content.custom_fields.len() && kept(
                    #[trigger] e.content.custom_fields[i],
                ) ==> has_field(p.content.custom_fields, e.content.custom_fields[i])
            &&& forall|i: int|
                0 <= i < p.content.custom_fields.len() ==> has_field(
                    e.content.custom_fields,
                    #[trigger] p.content.custom_fields[i],
                )
        }),
{
    let p = conflict_rows::peer_entry_of(record, key);
    let cfs = e.content.custom_fields;
    let raw = record.fields.protected@;
    let sealed = order::sorted_of(raw);
    let plain = order::sorted_of(record.fields.plain@);
    let all = rows::fields_of(e.content).protected;
    assert(rows::opened_rows(raw, key) == all);
    assert forall|i: int| 0 <= i < sealed.len() implies {
        &&& conflict_rows::value_fault(key, #[trigger] sealed[i]) is None
        &&& sealed[i].field_name@ == PASSWORD_FIELD@ ==> conflict_rows::value_text(key, sealed[i])
            == e.content.password
    } by {
        assert(sealed.contains(sealed[i]));
        order::sorting_keeps_members(raw, sealed[i]);
        sealed_row(record, key, e, sealed[i]);
    }
    nothing_to_report(record, sealed, key, sealed.len());
    assert(rows::opened_rows(raw, key)[0] == raw[0].opened(key));
    assert(all[0].field_name == PASSWORD_FIELD@);
    assert(raw.contains(raw[0]));
    order::sorting_keeps_members(raw, raw[0]);
    let at = choose|k: int| 0 <= k < sealed.len() && sealed[k] == raw[0];
    assert(sealed[at].field_name@ == PASSWORD_FIELD@);
    password_found(sealed, key, sealed.len(), e.content.password);
    let from_sealed = conflict_rows::sealed_fields(sealed, key, sealed.len());
    let from_plain = conflict_rows::plain_fields(plain);
    assert forall|i: int| 0 <= i < cfs.len() && kept(#[trigger] cfs[i]) implies has_field(
        p.content.custom_fields,
        cfs[i],
    ) by {
        if rows::gets_sealed_row(cfs[i]) {
            kept_sealed(record, key, e, i);
            let k = choose|k: int|
                0 <= k < from_sealed.len() && same_field(#[trigger] from_sealed[k], cfs[i]);
            assert(p.content.custom_fields[k] == from_sealed[k]);
        } else {
            kept_plain(record, key, e, i);
            let k = choose|k: int|
                0 <= k < from_plain.len() && same_field(#[trigger] from_plain[k], cfs[i]);
            assert(p.content.custom_fields[from_sealed.len() + k] == from_plain[k]);
        }
    }
    assert forall|i: int| 0 <= i < p.content.custom_fields.len() implies has_field(
        cfs,
        #[trigger] p.content.custom_fields[i],
    ) by {
        if i < from_sealed.len() {
            let x = from_sealed[i];
            assert(from_sealed.contains(x));
            sealed_field_member(sealed, key, sealed.len(), x);
            let k = choose|k: int|
                0 <= k < sealed.len() && (#[trigger] sealed[k]).field_name@ != PASSWORD_FIELD@ && x
                    == field_of(sealed[k], key);
            assert(sealed.contains(sealed[k]));
            order::sorting_keeps_members(raw, sealed[k]);
            sealed_row(record, key, e, sealed[k]);
            let j = choose|j: int|
                0 <= j < cfs.len() && rows::gets_sealed_row(#[trigger] cfs[j]) && same_field(
                    field_of(sealed[k], key),
                    cfs[j],
                );
            assert(same_field(cfs[j], x));
        } else {
            let k = i - from_sealed.len();
            let x = plain[k];
            assert(plain.contains(x));
            order::sorting_keeps_members(record.fields.plain@, x);
            let j = choose|j: int| 0 <= j < record.fields.plain@.len() && record.fields.plain@[j] == x;
            let pv = rows::plain_rows_of(cfs);
            assert(record.fields.plain.deep_view()[j] == x.deep_view());
            assert(pv.contains(x.deep_view()));
            plain_member(cfs, x.deep_view());
            let m = choose|m: int|
                0 <= m < cfs.len() && !(#[trigger] cfs[m]).protected && x.deep_view() == (
                PlainFieldView { field_name: cfs[m].key, value: cfs[m].value });
            assert(p.content.custom_fields[i] == from_plain[k]);
            assert(same_field(cfs[m], from_plain[k]));
        }
    }
}

proof fn kept_sealed(record: ConflictRecord, key: Seq<u8>, e: EntryView, i: int)
    requires
        record.row_view(key) == conflict_rows::conflict_of(e),
        rows::storable_fields(e.content),
        0 <= i < e.content.custom_fields.len(),
        rows::gets_sealed_row(e.content.custom_fields[i]),
    ensures
        ({
            let sealed = order::sorted_of(record.fields.protected@);
            has_field(
                conflict_rows::sealed_fields(sealed, key, sealed.len()),
                e.content.custom_fields[i],
            )
        }),
{
    let cfs = e.content.custom_fields;
    let raw = record.fields.protected@;
    let sealed = order::sorted_of(raw);
    let all = rows::fields_of(e.content).protected;
    let want = rows::sealed_row(cfs[i].key, cfs[i].value);
    sealed_member(cfs, want);
    let of = rows::sealed_rows_of(cfs);
    assert(of.contains(want));
    let k = choose|k: int| 0 <= k < of.len() && of[k] == want;
    assert(all[k + 1] == want);
    assert(rows::opened_rows(raw, key) == all);
    assert(rows::opened_rows(raw, key).len() == raw.len());
    assert(rows::opened_rows(raw, key)[k + 1] == raw[k + 1].opened(key));
    let row = raw[k + 1];
    assert(raw.contains(row));
    order::sorting_keeps_members(raw, row);
    codec::utf8_reads_back(cfs[i].value);
    let x = field_of(row, key);
    assert(same_field(x, cfs[i]));
    let at = choose|a: int| 0 <= a < sealed.len() && sealed[a] == row;
    assert(sealed[at].field_name@ != PASSWORD_FIELD@);
    sealed_field_member(sealed, key, sealed.len(), x);
    let found = conflict_rows::sealed_fields(sealed, key, sealed.len());
    let f = choose|f: int| 0 <= f < found.len() && found[f] == x;
    assert(same_field(found[f], cfs[i]));
}

proof fn kept_plain(record: ConflictRecord, key: Seq<u8>, e: EntryView, i: int)
    requires
        record.row_view(key) == conflict_rows::conflict_of(e),
        0 <= i < e.content.custom_fields.len(),
        !e.content.custom_fields[i].protected,
    ensures
        has_field(
            conflict_rows::plain_fields(order::sorted_of(record.fields.plain@)),
            e.content.custom_fields[i],
        ),
{
    let cfs = e.content.custom_fields;
    let raw = record.fields.plain@;
    let plain = order::sorted_of(raw);
    let want = PlainFieldView { field_name: cfs[i].key, value: cfs[i].value };
    plain_member(cfs, want);
    let of = rows::plain_rows_of(cfs);
    let k = choose|k: int| 0 <= k < of.len() && of[k] == want;
    assert(record.fields.plain.deep_view() == of);
    let row = raw[k];
    assert(record.fields.plain.deep_view()[k] == row.deep_view());
    assert(raw.contains(row));
    order::sorting_keeps_members(raw, row);
    let at = choose|a: int| 0 <= a < plain.len() && plain[a] == row;
    let found = conflict_rows::plain_fields(plain);
    assert(same_field(found[at], cfs[i]));
}

// -------------------------------------------------------------- from entry to entry

/// A device's entry is held with its columns as they are, under the device's name; a
/// held value is in no group.
pub proof fn an_entry_is_held_as_it_is(
    owner: &str,
    e: &Entry,
    session_key: &SessionKey,
    nonces: &mut NonceSource,
    r: ConflictRecord,
)
    requires
        call_ensures(conflict_rows::build_conflict, (owner, e, session_key, nonces), Ok(r)),
    ensures
        r.owner@ == owner@,
        r.entry_uuid == e.id,
        r.group_uuid is None,
        r.title@ == e.content.title@,
        r.username@ == e.content.username@,
        r.url@ == e.content.url@,
        r.notes@ == e.content.notes@,
        r.icon_index == e.content.icon_id,
        r.icon_custom_uuid is Some <==> e.content.custom_icon_uuid is Some,
        r.icon_custom_uuid is Some ==> r.icon_custom_uuid->0@ == codec::uuid_text(
            e.content.custom_icon_uuid->0,
        ),
        is_known_millis_of(r.created_at, e.content.times.creation_time),
        is_known_millis_of(r.modified_at, e.content.times.last_modification_time),
        is_known_millis_of(r.accessed_at, e.content.times.last_access_time),
        e.content.times.expires ==> is_known_millis_of(r.expires_at, e.content.times.expiry_time),
        !e.content.times.expires ==> r.expires_at is None,
{
    assert(r.row_key() == (owner@, e.id));
    let v = r.row_view(session_key@);
    assert(v.title == r.title@);
    assert(v.icon_custom_uuid == r.icon_custom_uuid.deep_view());
}

/// Whether a list has a field of the same name, value and protection.
pub open spec fn lists_field(fields: Seq<CustomField>, f: CustomField) -> bool {
    exists|i: int|
        0 <= i < fields.len() && (#[trigger] fields[i]).key@ == f.key@ && fields[i].value@
            == f.value@ && fields[i].protected == f.protected
}

proof fn a_listed_field_stays(a: Vec<CustomField>, f: CustomField)
    requires
        has_field(a.deep_view(), f.deep_view()),
    ensures
        lists_field(a@, f),
{
    let v = a.deep_view();
    let i = choose|i: int| 0 <= i < v.len() && same_field(#[trigger] v[i], f.deep_view());
    assert(v[i] == a@[i].deep_view());
    assert(a@[i].key@ == f.key@);
}

/// A held entry is given back as it was: its columns, its password and its custom
/// fields, and nothing but them. Only a sealed field with the password's own name is
/// lost.
pub proof fn a_held_entry_is_given_back(
    owner: &str,
    e: &Entry,
    session_key: &SessionKey,
    nonces: &mut NonceSource,
    record: ConflictRecord,
    r: Result<Entry, EngineError>,
    i: int,
)
    requires
        call_ensures(conflict_rows::build_conflict, (owner, e, session_key, nonces), Ok(record)),
        call_ensures(conflict_rows::reconstruct_entry, (&record, session_key), r),
        is_dated(e.content.times.creation_time),
        is_dated(e.content.times.last_modification_time),
        is_dated(e.content.times.last_access_time),
        is_dated(e.content.times.expiry_time),
    ensures
        r is Ok,
        ({
            let out = r->Ok_0;
            &&& out.id == e.id
            &&& out.content.title@ == e.content.title@
            &&& out.content.username@ == e.content.username@
            &&& out.content.password@ == e.content.password@
            &&& out.content.url@ == e.content.url@
            &&& out.content.notes@ == e.content.notes@
            &&& out.content.icon_id == e.content.icon_id
            &&& out.content.custom_icon_uuid == e.content.custom_icon_uuid
            &&& to_the_millisecond(
                out.content.times.creation_time,
                e.content.times.creation_time,
            )
            &&& to_the_millisecond(
                out.content.times.last_modification_time,
                e.content.times.last_modification_time,
            )
            &&& to_the_millisecond(
                out.content.times.last_access_time,
                e.content.times.last_access_time,
            )
            &&& e.content.times.expires ==> to_the_millisecond(
                out.content.times.expiry_time,
                e.content.times.expiry_time,
            )
            &&& !e.content.times.expires ==> out.content.times.expiry_time is None
            &&& out.content.times.expires <==> e.content.times.expires
                && e.content.times.expiry_time is Some
            &&& out.history@.len() == 0
            &&& 0 <= i < e.content.custom_fields@.len() && !(e.content.custom_fields@[i].protected
                && e.content.custom_fields@[i].key@ == "Password"@) ==> lists_field(
                out.content.custom_fields@,
                e.content.custom_fields@[i],
            )
            &&& 0 <= i < out.content.custom_fields@.len() ==> lists_field(
                e.content.custom_fields@,
                out.content.custom_fields@[i],
            )
        }),
{
    let v = e.deep_view();
    assert(record.row_key() == (owner@, e.id));
    held_value_reads_back(record, session_key@, v);
    let out = r->Ok_0;
    let o = out.deep_view();
    assert(o.history.len() == out.history@.len());
    if 0 <= i < e.content.custom_fields@.len() && !(e.content.custom_fields@[i].protected
        && e.content.custom_fields@[i].key@ == "Password"@) {
        assert(v.content.custom_fields[i] == e.content.custom_fields@[i].deep_view());
        assert(kept(v.content.custom_fields[i]));
        a_listed_field_stays(out.content.custom_fields, e.content.custom_fields@[i]);
    }
    if 0 <= i < out.content.custom_fields@.len() {
        assert(o.content.custom_fields[i] == out.content.custom_fields@[i].deep_view());
        a_listed_field_stays(e.content.custom_fields, out.content.custom_fields@[i]);
    }
}

/// The value held for a device and an entry is that of their row, and there is none
/// where there is no such row.
pub proof fn a_held_value_is_that_of_its_row(
    t: ConflictTable,
    owner: &str,
    uuid: Uuid,
    session_key: &SessionKey,
    r: Result<Option<Entry>, EngineError>,
    there: bool,
    owners: Vec<String>,
)
    requires
        t.wf(),
        call_ensures(ConflictTable::reconstruct_peer_entry, (&t, owner, uuid, session_key), r),
        call_ensures(ConflictTable::holds, (&t, owner, uuid), there),
        call_ensures(ConflictTable::conflict_owners_for, (&t, uuid), owners),
    ensures
        there <==> exists|n: int|
            0 <= n < t.rows@.len() && (#[trigger] t.rows@[n]).owner@ == owner@
                && t.rows@[n].entry_uuid == uuid,
        there <==> exists|k: int| 0 <= k < owners@.len() && (#[trigger] owners@[k])@ == owner@,
        !there ==> r == Ok::<Option<Entry>, EngineError>(None),
        forall|n: int, s: Result<Entry, EngineError>|
            0 <= n < t.rows@.len() && t.rows@[n].owner@ == owner@ && t.rows@[n].entry_uuid == uuid
                && #[trigger] call_ensures(
                conflict_rows::reconstruct_entry,
                (&t.rows@[n], session_key),
                s,
            ) ==> (s is Ok <==> r is Ok) && (s is Ok ==> r->Ok_0 is Some
                && r->Ok_0->0.deep_view() == s->Ok_0.deep_view()),
{
    let key = (owner@, uuid);
    if there {
        let n = choose|n: int| 0 <= n < t.rows@.len() && (#[trigger] t.rows@[n]).row_key() == key;
        assert(t.rows@[n].owner@ == owner@ && t.rows@[n].entry_uuid == uuid);
    }
    if exists|n: int|
        0 <= n < t.rows@.len() && (#[trigger] t.rows@[n]).owner@ == owner@ && t.rows@[n].entry_uuid
            == uuid {
        let n = choose|n: int|
            0 <= n < t.rows@.len() && (#[trigger] t.rows@[n]).owner@ == owner@
                && t.rows@[n].entry_uuid == uuid;
        assert(t.rows@[n].row_key() == key);
    }
    let listed = owners.deep_view();
    assert(listed.len() == owners@.len());
    assert(listed.contains(owner@) <==> there);
    if there {
        let k = choose|k: int| 0 <= k < listed.len() && listed[k] == owner@;
        assert(listed[k] == owners@[k]@);
    }
    if exists|k: int| 0 <= k < owners@.len() && (#[trigger] owners@[k])@ == owner@ {
        let k = choose|k: int| 0 <= k < owners@.len() && (#[trigger] owners@[k])@ == owner@;
        assert(listed[k] == owner@);
    }
    assert forall|n: int, s: Result<Entry, EngineError>|
        0 <= n < t.rows@.len() && t.rows@[n].owner@ == owner@ && t.rows@[n].entry_uuid == uuid
            && #[trigger] call_ensures(
            conflict_rows::reconstruct_entry,
            (&t.rows@[n], session_key),
            s,
        ) implies (s is Ok <==> r is Ok) && (s is Ok ==> r->Ok_0 is Some
        && r->Ok_0->0.deep_view() == s->Ok_0.deep_view()) by {
        assert(t.rows@[n].row_key() == key);
        assert(table::row_at(t.rows@, key).row_key() == key);
    }
}

} // verus!
