//! What is listed with an entry: its files, its fields, and those of its past.

use vstd::prelude::*;

use crate::details;
use crate::engine::Engine;
use crate::error::EngineError;
use crate::history_snapshot;
use crate::mirror::MirrorView;
use crate::model::{EntryFull, HistoricEntry};
use crate::order;
use crate::order::TextKeyed;
use crate::reading_laws;
use crate::reading_laws::holds;
use crate::rows;
use crate::rows::{ProtectedRow, PASSWORD_FIELD};
use crate::vault::{CustomField, Vault};
use crate::vault_laws;
use crate::vault_laws::entry_at;

verus! {

/// No file is shown but those of the entry that refer to something, each name once.
pub proof fn no_file_but_the_entrys_is_shown(
    en: Engine,
    before: MirrorView,
    v: &Vault,
    key: Seq<u8>,
    fingerprint_key: Seq<u8>,
    path: Seq<nat>,
    k: int,
    r: Option<EntryFull>,
    i: int,
    j: int,
)
    requires
        holds(en.mirror, before, v, key, fingerprint_key),
        entry_at(v.root, path, k) is Some,
        call_ensures(Engine::entry, (&en, entry_at(v.root, path, k)->0.id), r),
    ensures
        r is Some,
        ({
            let files = entry_at(v.root, path, k)->0.content.attachments@;
            let shown = r->0.attachments@;
            &&& 0 <= i < shown.len() ==> exists|a: int|
                0 <= a < files.len() && (#[trigger] files[a]).name@ == shown[i].name@
                    && files[a].ref_id < v.binaries@.len()
            &&& 0 <= i < j < shown.len() ==> shown[i].name@ != shown[j].name@
        }),
{
    vault_laws::a_record_at(en.mirror, before, v, key, fingerprint_key, path, k);
    let e = entry_at(v.root, path, k)->0;
    let row = en.mirror.entries@[e.id];
    let atts = e.content.attachments.deep_view();
    let bins = v.binaries.deep_view();
    let stored = rows::attachment_rows_of(atts, bins);
    assert(row.opened(key).attachments == row.attachments.deep_view());
    assert(stored == row.attachments.deep_view());
    let shown = r->0.attachments.deep_view();
    assert(shown == details::file_refs(row.attachments@, en.mirror.blobs@));
    assert(shown.len() == r->0.attachments@.len());
    assert(stored.len() == row.attachments@.len());
    if 0 <= i < shown.len() {
        assert(shown[i] == r->0.attachments@[i].deep_view());
        assert(stored[i] == row.attachments@[i].deep_view());
        let a = reading_laws::file_row_from(atts, bins, i);
        assert(atts[a] == e.content.attachments@[a].deep_view());
        assert(e.content.attachments@[a].name@ == r->0.attachments@[i].name@);
        if i < j < shown.len() {
            assert(shown[j] == r->0.attachments@[j].deep_view());
            assert(stored[j] == row.attachments@[j].deep_view());
            reading_laws::file_names_differ(atts, bins, i, j);
        }
    }
}

proof fn refs_are_all_but_the_password(rows: Seq<ProtectedRow>, n: nat)
    requires
        0 < n <= rows.len(),
        rows[0].field_name@ == PASSWORD_FIELD@,
        forall|i: int| 0 < i < rows.len() ==> (#[trigger] rows[i]).field_name@ != PASSWORD_FIELD@,
    ensures
        details::sealed_refs(rows, n).len() == n - 1,
    decreases n,
{
    if n == 1 {
        assert(details::sealed_refs(rows, 0).len() == 0);
    } else {
        refs_are_all_but_the_password(rows, (n - 1) as nat);
    }
}

/// As many fields are shown as the entry has rows for, but for the password's.
pub proof fn every_field_is_shown_once(
    en: Engine,
    before: MirrorView,
    v: &Vault,
    key: Seq<u8>,
    fingerprint_key: Seq<u8>,
    path: Seq<nat>,
    k: int,
    r: Option<EntryFull>,
)
    requires
        holds(en.mirror, before, v, key, fingerprint_key),
        entry_at(v.root, path, k) is Some,
        call_ensures(Engine::entry, (&en, entry_at(v.root, path, k)->0.id), r),
    ensures
        r is Some,
        ({
            let row = en.mirror.entries@[entry_at(v.root, path, k)->0.id];
            r->0.custom_fields@.len() + 1 == row.fields.protected@.len() + row.fields.plain@.len()
        }),
{
    vault_laws::a_record_at(en.mirror, before, v, key, fingerprint_key, path, k);
    let e = entry_at(v.root, path, k)->0;
    let row = en.mirror.entries@[e.id];
    let sealed = row.fields.protected@;
    let opened = row.opened(key).fields.protected;
    let of = rows::sealed_rows_of(e.content.deep_view().custom_fields);
    assert(opened == rows::opened_rows(sealed, key));
    assert(opened == rows::fields_of(e.content.deep_view()).protected);
    assert(opened.len() == sealed.len());
    assert forall|i: int| 0 <= i < sealed.len() implies opened[i]
        == (#[trigger] sealed[i]).opened(key) by {}
    assert(sealed[0].field_name@ == PASSWORD_FIELD@);
    assert forall|i: int| 0 < i < sealed.len() implies (#[trigger] sealed[i]).field_name@
        != PASSWORD_FIELD@ by {
        assert(opened[i] == of[i - 1]);
        crate::refusal_laws::a_sealed_row_is_of_a_field(
            e.content.deep_view().custom_fields,
            i - 1,
        );
    }
    refs_are_all_but_the_password(sealed, sealed.len());
    let shown = r->0.custom_fields.deep_view();
    assert(shown.len() == r->0.custom_fields@.len());
}

/// Whether no later field has the name of one.
pub open spec fn is_the_last(fields: Seq<CustomField>, i: int) -> bool {
    &&& 0 <= i < fields.len()
    &&& forall|j: int| i < j < fields.len() ==> (#[trigger] fields[j]).key@ != fields[i].key@
}

/// A past version is shown with the last field of each name and with no other, in the
/// order of their names, and with the sizes of its files.
pub proof fn the_past_fields_are_shown(
    en: Engine,
    before: MirrorView,
    v: &Vault,
    key: Seq<u8>,
    fingerprint_key: Seq<u8>,
    path: Seq<nat>,
    k: int,
    h: int,
    r: Result<Vec<HistoricEntry>, EngineError>,
    i: int,
    j: int,
)
    requires
        holds(en.mirror, before, v, key, fingerprint_key),
        entry_at(v.root, path, k) is Some,
        0 <= h < entry_at(v.root, path, k)->0.history@.len(),
        call_ensures(Engine::history, (&en, entry_at(v.root, path, k)->0.id), r),
    ensures
        r is Ok,
        h < r->Ok_0@.len(),
        ({
            let c = entry_at(v.root, path, k)->0.history@[h];
            let fields = c.custom_fields@;
            let shown = r->Ok_0@[h].custom_fields@;
            &&& is_the_last(fields, i) ==> exists|n: int|
                0 <= n < shown.len() && (#[trigger] shown[n]).name@ == fields[i].key@
                    && shown[n].is_protected == fields[i].protected
            &&& 0 <= i < shown.len() ==> exists|n: int|
                is_the_last(fields, n) && (#[trigger] fields[n]).key@ == shown[i].name@
                    && fields[n].protected == shown[i].is_protected
            &&& 0 <= i < j < shown.len() ==> order::text_before(shown[i].name@, shown[j].name@)
            &&& 0 <= i < c.attachments@.len() && c.attachments@[i].ref_id < v.binaries@.len()
                ==> i < r->Ok_0@[h].attachments@.len() && r->Ok_0@[h].attachments@[i].size
                == v.binaries@[c.attachments@[i].ref_id as int]@.len() as u64
        }),
{
    vault_laws::a_past_record_at(en.mirror, before, v, key, fingerprint_key, path, k, h);
    let e = entry_at(v.root, path, k)->0;
    let c = e.history@[h];
    let cfs = c.custom_fields.deep_view();
    let past = en.mirror.entries@[e.id].history@[h];
    let kept = history_snapshot::history_fields_upto(cfs, cfs.len());
    assert(past.opened(key).custom_fields == history_snapshot::opened_fields(
        past.custom_fields@,
        key,
    ));
    assert(past.opened(key).custom_fields == kept);
    assert(kept.len() == past.custom_fields@.len());
    assert forall|n: int| 0 <= n < kept.len() implies kept[n] == (
    #[trigger] past.custom_fields@[n]).opened(key) by {}
    let sorted = order::sorted_of(past.custom_fields@);
    let all = r->Ok_0@[h].custom_fields.deep_view();
    let shown = r->Ok_0@[h].custom_fields@;
    assert(details::shows_past(r->Ok_0@[h], h, past));
    assert(all == details::past_field_refs(past.custom_fields@));
    assert(all.len() == shown.len());
    order::sorting_orders_and_keeps(past.custom_fields@);
    assert forall|a: int, b: int| 0 <= a < b < past.custom_fields@.len() implies (
    #[trigger] past.custom_fields@[a]).text_key() != (
    #[trigger] past.custom_fields@[b]).text_key() by {
        reading_laws::past_names_differ(cfs, cfs.len(), a, b);
    }
    order::sorting_is_strict(past.custom_fields@);
    if is_the_last(c.custom_fields@, i) {
        assert(cfs[i] == c.custom_fields@[i].deep_view());
        assert forall|n: int| i < n < cfs.len() implies (#[trigger] cfs[n]).key != cfs[i].key by {
            assert(cfs[n] == c.custom_fields@[n].deep_view());
        }
        let n = reading_laws::past_fields_have(cfs, cfs.len(), i);
        let f = past.custom_fields@[n];
        assert(past.custom_fields@.contains(f));
        order::sorting_keeps_members(past.custom_fields@, f);
        let m = choose|m: int| 0 <= m < sorted.len() && sorted[m] == f;
        assert(all[m] == shown[m].deep_view());
        assert(shown[m].name@ == c.custom_fields@[i].key@);
    }
    if 0 <= i < shown.len() {
        assert(all[i] == shown[i].deep_view());
        assert(sorted.contains(sorted[i]));
        order::sorting_keeps_members(past.custom_fields@, sorted[i]);
        let m = choose|m: int|
            0 <= m < past.custom_fields@.len() && past.custom_fields@[m] == sorted[i];
        let n = reading_laws::past_field_from(cfs, cfs.len(), m);
        assert(cfs[n] == c.custom_fields@[n].deep_view());
        assert forall|x: int| n < x < c.custom_fields@.len() implies (
        #[trigger] c.custom_fields@[x]).key@ != c.custom_fields@[n].key@ by {
            assert(cfs[x] == c.custom_fields@[x].deep_view());
        }
        assert(is_the_last(c.custom_fields@, n));
        assert(c.custom_fields@[n].key@ == shown[i].name@);
        if i < j < shown.len() {
            assert(all[j] == shown[j].deep_view());
            assert(order::text_before(sorted[i].text_key(), sorted[j].text_key()));
        }
    }
    if 0 <= i < c.attachments@.len() && c.attachments@[i].ref_id < v.binaries@.len() {
        let files = past.attachments.deep_view();
        assert(past.opened(key).attachments == files);
        assert(c.attachments.deep_view()[i] == c.attachments@[i].deep_view());
        assert(files.len() == past.attachments@.len());
        assert(files[i] == past.attachments@[i].deep_view());
        assert(v.binaries.deep_view()[c.attachments@[i].ref_id as int]
            == v.binaries@[c.attachments@[i].ref_id as int]@);
        let listed = r->Ok_0@[h].attachments.deep_view();
        assert(listed.len() == r->Ok_0@[h].attachments@.len());
        assert(listed[i] == r->Ok_0@[h].attachments@[i].deep_view());
    }
}

} // verus!
