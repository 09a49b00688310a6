//! What single writes leave in a vault's tables, and what reads say of what is not
//! there.

use vstd::prelude::*;

use crate::codec::Uuid;
use crate::conflict_rows::ConflictRecord;
use crate::crypto::SessionKey;
use crate::engine::Engine;
use crate::error::{EngineError, RevealError};
use crate::mirror;
use crate::mirror::{EntryRecord, Mirror};
use crate::model::HistoricEntry;
use crate::order;
use crate::reading;
use crate::rows::{BlobRow, BlobView};
use crate::table::Keyed;

verus! {

// --------------------------------------------------------------------------- entries

/// Whether a table of tags has a tag.
pub open spec fn has_tag(tags: Seq<String>, t: Seq<char>) -> bool {
    exists|i: int| 0 <= i < tags.len() && (#[trigger] tags[i])@ == t
}

/// Whether some entry has a tag.
pub open spec fn is_tagged(entries: Map<Uuid, EntryRecord>, t: Seq<char>) -> bool {
    exists|u: Uuid| #[trigger] entries.contains_key(u) && has_tag(entries[u].tags@, t)
}

/// A table of tags has a tag just where its contents do.
pub proof fn tags_are_held(tags: Vec<String>, t: Seq<char>)
    ensures
        tags.deep_view().contains(t) <==> has_tag(tags@, t),
{
    let v = tags.deep_view();
    assert(v.len() == tags@.len());
    if v.contains(t) {
        let i = choose|i: int| 0 <= i < v.len() && v[i] == t;
        assert(tags@[i]@ == t);
    }
    if has_tag(tags@, t) {
        let i = choose|i: int| 0 <= i < tags@.len() && (#[trigger] tags@[i])@ == t;
        assert(v[i] == t);
    }
}

proof fn a_tag_is_swept_unless_used(
    tags: Seq<Seq<char>>,
    entries: Map<Uuid, mirror::RecordView>,
    t: Seq<char>,
)
    ensures
        mirror::swept_tags(tags, entries).contains(t) <==> tags.contains(t) && mirror::tag_in_use(
            entries,
            t,
        ),
    decreases tags.len(),
{
    if tags.len() > 0 {
        let less = tags.drop_last();
        a_tag_is_swept_unless_used(less, entries, t);
        let kept = mirror::swept_tags(less, entries);
        let all = mirror::swept_tags(tags, entries);
        if tags.contains(t) && t != tags.last() {
            let i = choose|i: int| 0 <= i < tags.len() && tags[i] == t;
            assert(less[i] == t);
        }
        if less.contains(t) {
            let i = choose|i: int| 0 <= i < less.len() && less[i] == t;
            assert(tags[i] == t);
        }
        if mirror::tag_in_use(entries, tags.last()) {
            assert(all == kept.push(tags.last()));
            assert(all[kept.len() as int] == tags.last());
            if kept.contains(t) {
                let i = choose|i: int| 0 <= i < kept.len() && kept[i] == t;
                assert(all[i] == t);
            }
            if all.contains(t) && t != tags.last() {
                let i = choose|i: int| 0 <= i < all.len() && all[i] == t;
                assert(kept[i] == t);
            }
            assert(tags[tags.len() - 1] == tags.last());
        }
    }
}

proof fn uses_are_uses(entries: Map<Uuid, EntryRecord>, key: Seq<u8>, t: Seq<char>)
    ensures
        mirror::tag_in_use(mirror::opened_entries(entries, key), t) <==> is_tagged(entries, t),
{
    let v = mirror::opened_entries(entries, key);
    if mirror::tag_in_use(v, t) {
        let u = choose|u: Uuid| #[trigger] v.contains_key(u) && v[u].tags.contains(t);
        tags_are_held(entries[u].tags, t);
        assert(entries.contains_key(u));
    }
    if is_tagged(entries, t) {
        let u = choose|u: Uuid| #[trigger]
            entries.contains_key(u) && has_tag(entries[u].tags@, t);
        tags_are_held(entries[u].tags, t);
        assert(v.contains_key(u));
    }
}

/// Deleting an entry takes its rows away, and every tag that no other entry has; all
/// else stays.
pub proof fn a_deleted_entry_takes_its_tags(
    m: &mut Mirror,
    uuid: Uuid,
    other: Uuid,
    t: Seq<char>,
)
    requires
        call_ensures(Mirror::delete_local_entry, (m, uuid), ()),
        other != uuid,
    ensures
        !final(m).entries@.contains_key(uuid),
        final(m).entries@.contains_key(other) <==> old(m).entries@.contains_key(other),
        old(m).entries@.contains_key(other) ==> final(m).entries@[other] == old(
            m,
        ).entries@[other],
        has_tag(final(m).tags@, t) <==> has_tag(old(m).tags@, t) && is_tagged(
            final(m).entries@,
            t,
        ),
        final(m).tombstones@ == old(m).tombstones@,
        mirror::group_views(final(m).groups@) == mirror::group_views(old(m).groups@),
        final(m).conflicts == old(m).conflicts,
{
    let key = Seq::<u8>::empty();
    let a = old(m).opened(key);
    let b = final(m).opened(key);
    assert(b == mirror::without_entry(a, uuid));
    tags_are_held(old(m).tags, t);
    tags_are_held(final(m).tags, t);
    assert(a.entries.remove(uuid) =~= mirror::opened_entries(final(m).entries@, key));
    uses_are_uses(final(m).entries@, key, t);
    a_tag_is_swept_unless_used(a.tags, a.entries.remove(uuid), t);
}

proof fn a_tag_is_added(tags: Seq<Seq<char>>, names: Seq<Seq<char>>, t: Seq<char>)
    ensures
        mirror::with_tags(tags, names).contains(t) <==> tags.contains(t) || names.contains(t),
    decreases names.len(),
{
    if names.len() > 0 {
        let less = names.drop_last();
        a_tag_is_added(tags, less, t);
        a_tag_is_added(tags, less, names.last());
        let before = mirror::with_tags(tags, less);
        let all = mirror::with_tags(tags, names);
        if names.contains(t) && t != names.last() {
            let i = choose|i: int| 0 <= i < names.len() && names[i] == t;
            assert(less[i] == t);
        }
        if less.contains(t) {
            let i = choose|i: int| 0 <= i < less.len() && less[i] == t;
            assert(names[i] == t);
        }
        assert(names[names.len() - 1] == names.last());
        if !before.contains(names.last()) {
            assert(all[before.len() as int] == names.last());
            if before.contains(t) {
                let i = choose|i: int| 0 <= i < before.len() && before[i] == t;
                assert(all[i] == t);
            }
            if all.contains(t) && t != names.last() {
                let i = choose|i: int| 0 <= i < all.len() && all[i] == t;
                assert(before[i] == t);
            }
        }
    }
}

proof fn a_pool_only_grows(blobs: Seq<BlobView>, more: Seq<BlobView>, i: int)
    ensures
        mirror::with_blobs(blobs, more).len() >= blobs.len(),
        0 <= i < blobs.len() ==> mirror::with_blobs(blobs, more)[i] == blobs[i],
    decreases more.len(),
{
    if more.len() > 0 {
        a_pool_only_grows(blobs, more.drop_last(), i);
    }
}

proof fn a_content_is_pooled(blobs: Seq<BlobView>, more: Seq<BlobView>, j: int)
    requires
        0 <= j < more.len(),
    ensures
        mirror::has_blob(mirror::with_blobs(blobs, more), more[j].sha256),
    decreases more.len(),
{
    let before = mirror::with_blobs(blobs, more.drop_last());
    let all = mirror::with_blobs(blobs, more);
    if j < more.len() - 1 {
        a_content_is_pooled(blobs, more.drop_last(), j);
        let digest = more[j].sha256;
        let i = choose|i: int| 0 <= i < before.len() && (#[trigger] before[i]).sha256 == digest;
        assert(all[i] == before[i]);
        assert(all[i].sha256 == digest);
    } else if !mirror::has_blob(before, more.last().sha256) {
        assert(all[all.len() - 1].sha256 == more[j].sha256);
    }
}

/// An entry that is inserted stands in its table as it was given; its tags join the
/// tags, and what its files hold joins the pool. It is refused where there is one of
/// its identity, or no such group.
pub proof fn an_inserted_entry_stands(
    m: &mut Mirror,
    uuid: Uuid,
    record: EntryRecord,
    blobs: Vec<BlobRow>,
    r: Result<(), EngineError>,
    other: Uuid,
    t: Seq<char>,
    i: int,
)
    requires
        call_ensures(Mirror::insert_entry, (m, uuid, record, blobs), r),
        other != uuid,
    ensures
        r is Ok <==> !old(m).entries@.contains_key(uuid) && old(m).groups@.contains_key(
            record.group_uuid,
        ),
        r is Err ==> *final(m) == *old(m),
        r is Ok ==> {
            &&& final(m).entries@.contains_key(uuid)
            &&& final(m).entries@[uuid] == record
            &&& final(m).entries@.contains_key(other) <==> old(m).entries@.contains_key(other)
            &&& old(m).entries@.contains_key(other) ==> final(m).entries@[other] == old(
                m,
            ).entries@[other]
            &&& has_tag(final(m).tags@, t) <==> has_tag(old(m).tags@, t) || has_tag(record.tags@, t)
            &&& 0 <= i < old(m).blobs@.len() ==> i < final(m).blobs@.len()
                && final(m).blobs@[i].deep_view() == old(m).blobs@[i].deep_view()
            &&& 0 <= i < blobs@.len() ==> exists|n: int|
                0 <= n < final(m).blobs@.len() && (#[trigger] final(m).blobs@[n]).sha256@
                    == blobs@[i].sha256@
            &&& final(m).tombstones@ == old(m).tombstones@
        },
{
    let key = Seq::<u8>::empty();
    if r is Ok {
        let a = old(m).opened(key);
        let b = final(m).opened(key);
        assert(b == mirror::with_entry(a, uuid, record.opened(key), blobs.deep_view()));
        tags_are_held(old(m).tags, t);
        tags_are_held(final(m).tags, t);
        tags_are_held(record.tags, t);
        a_tag_is_added(a.tags, record.opened(key).tags, t);
        a_pool_only_grows(a.blobs, blobs.deep_view(), i);
        assert(a.blobs.len() == old(m).blobs@.len());
        assert(b.blobs.len() == final(m).blobs@.len());
        if 0 <= i < old(m).blobs@.len() {
            assert(a.blobs[i] == old(m).blobs@[i].deep_view());
            assert(b.blobs[i] == final(m).blobs@[i].deep_view());
        }
        if 0 <= i < blobs@.len() {
            a_content_is_pooled(a.blobs, blobs.deep_view(), i);
            assert(blobs.deep_view()[i] == blobs@[i].deep_view());
            let n = choose|n: int|
                0 <= n < b.blobs.len() && (#[trigger] b.blobs[n]).sha256 == blobs@[i].sha256@;
            assert(b.blobs[n] == final(m).blobs@[n].deep_view());
            assert(final(m).blobs@[n].sha256@ == blobs@[i].sha256@);
        }
    }
}

/// An entry that is replaced stands as it was given, and the others stay.
pub proof fn a_replaced_entry_stands(
    m: &mut Mirror,
    uuid: Uuid,
    record: EntryRecord,
    blobs: Vec<BlobRow>,
    other: Uuid,
)
    requires
        call_ensures(Mirror::replace_entry, (m, uuid, record, blobs), ()),
        other != uuid,
    ensures
        final(m).entries@.contains_key(uuid),
        final(m).entries@[uuid] == record,
        final(m).entries@.contains_key(other) <==> old(m).entries@.contains_key(other),
        old(m).entries@.contains_key(other) ==> final(m).entries@[other] == old(
            m,
        ).entries@[other],
        final(m).tombstones@ == old(m).tombstones@,
        final(m).conflicts == old(m).conflicts,
{
    let key = Seq::<u8>::empty();
    assert(final(m).opened(key).tombstones == old(m).opened(key).tombstones);
}

/// An entry is placed in the group that its row names, in the bin or not.
pub proof fn an_entry_is_placed_where_its_row_says(m: Mirror, uuid: Uuid, r: Option<(Uuid, bool)>)
    requires
        call_ensures(Mirror::placement, (&m, uuid), r),
    ensures
        r is Some <==> m.entries@.contains_key(uuid),
        r matches Some((group, recycled)) ==> group == m.entries@[uuid].group_uuid && recycled
            == m.entries@[uuid].is_recycled,
{
}

// ------------------------------------------------------------------------ tombstones

/// A tombstone that is merged in keeps the earliest time that is known, and touches
/// no other.
pub proof fn a_merged_tombstone_keeps_the_earliest(
    m: &mut Mirror,
    uuid: Uuid,
    at: Option<i64>,
    other: Uuid,
)
    requires
        call_ensures(Mirror::union_tombstone, (m, uuid, at), ()),
        other != uuid,
    ensures
        final(m).tombstones@.contains_key(uuid),
        !old(m).tombstones@.contains_key(uuid) ==> final(m).tombstones@[uuid] == at,
        old(m).tombstones@.contains_key(uuid) ==> {
            let was = old(m).tombstones@[uuid];
            let now = final(m).tombstones@[uuid];
            &&& was is None ==> now == at
            &&& at is None ==> now == was
            &&& was is Some && at is Some ==> now is Some && now->0 <= was->0 && now->0 <= at->0
                && (now == was || now == at)
        },
        final(m).tombstones@.contains_key(other) <==> old(m).tombstones@.contains_key(other),
        old(m).tombstones@.contains_key(other) ==> final(m).tombstones@[other] == old(
            m,
        ).tombstones@[other],
        final(m).entries == old(m).entries,
{
    let key = Seq::<u8>::empty();
    assert(final(m).opened(key) == mirror::with_tombstone(old(m).opened(key), uuid, at));
    assert(final(m).opened(key).tombstones == final(m).tombstones@);
}

/// A tombstone that is removed is gone, and no other is.
pub proof fn a_removed_tombstone_is_gone(m: &mut Mirror, uuid: Uuid, other: Uuid)
    requires
        call_ensures(Mirror::remove_tombstone, (m, uuid), ()),
        other != uuid,
    ensures
        !final(m).tombstones@.contains_key(uuid),
        final(m).tombstones@.contains_key(other) <==> old(m).tombstones@.contains_key(other),
        old(m).tombstones@.contains_key(other) ==> final(m).tombstones@[other] == old(
            m,
        ).tombstones@[other],
        final(m).entries == old(m).entries,
{
    let key = Seq::<u8>::empty();
    assert(final(m).opened(key).tombstones == final(m).tombstones@);
    assert(old(m).opened(key).tombstones == old(m).tombstones@);
}

// ---------------------------------------------------------------------- held values

/// A held value is refused where the device has one of the entry already, and stands
/// last otherwise.
pub proof fn one_value_is_held_per_device(
    m: &mut Mirror,
    record: ConflictRecord,
    r: Result<(), EngineError>,
)
    requires
        call_ensures(Mirror::insert_conflict, (m, record), r),
    ensures
        r is Err <==> exists|i: int|
            0 <= i < old(m).conflicts.rows@.len() && (#[trigger] old(m).conflicts.rows@[i]).owner@
                == record.owner@ && old(m).conflicts.rows@[i].entry_uuid == record.entry_uuid,
        r is Err ==> *final(m) == *old(m),
        r is Ok ==> final(m).conflicts.rows@ == old(m).conflicts.rows@.push(record),
        r is Ok ==> final(m).entries == old(m).entries,
{
    let rows = old(m).conflicts.rows@;
    let key = (record.owner@, record.entry_uuid);
    if r is Err {
        let i = choose|i: int| 0 <= i < rows.len() && (#[trigger] rows[i]).row_key() == key;
        assert(rows[i].owner@ == record.owner@ && rows[i].entry_uuid == record.entry_uuid);
    }
    if exists|i: int|
        0 <= i < rows.len() && (#[trigger] rows[i]).owner@ == record.owner@ && rows[i].entry_uuid
            == record.entry_uuid {
        let i = choose|i: int|
            0 <= i < rows.len() && (#[trigger] rows[i]).owner@ == record.owner@
                && rows[i].entry_uuid == record.entry_uuid;
        assert(rows[i].row_key() == key);
    }
}

// ----------------------------------------------------------------- what is not there

/// Whether an outcome says that something of a kind is not there.
pub open spec fn is_not_there<T>(r: Result<T, EngineError>, what: Seq<char>) -> bool {
    r matches Err(EngineError::NotFound { entity }) && entity@ == what
}

/// What is asked of an entry that is not there is named as not there.
pub proof fn nothing_is_read_of_no_entry(
    en: Engine,
    uuid: Uuid,
    name: &str,
    index: u32,
    key: Result<&SessionKey, String>,
    password: Result<String, EngineError>,
    field: Result<String, EngineError>,
    plain: Option<String>,
    past: Result<String, EngineError>,
    file: Result<Vec<u8>, EngineError>,
    past_file: Result<Vec<u8>, EngineError>,
    history: Result<Vec<HistoricEntry>, EngineError>,
)
    requires
        !en.mirror.entries@.contains_key(uuid),
        call_ensures(Engine::reveal_password, (&en, uuid, key), password),
        call_ensures(Engine::reveal_custom_field, (&en, uuid, name, key), field),
        call_ensures(Engine::non_protected_custom_field, (&en, uuid, name), plain),
        call_ensures(Engine::reveal_history_field, (&en, uuid, index, name, key), past),
        call_ensures(Engine::attachment_bytes, (&en, uuid, name), file),
        call_ensures(Engine::history_attachment_bytes, (&en, uuid, index, name), past_file),
        call_ensures(Engine::history, (&en, uuid), history),
    ensures
        is_not_there(password, "password"@),
        is_not_there(field, "custom_field"@),
        plain is None,
        is_not_there(past, "history_snapshot"@),
        is_not_there(file, "attachment"@),
        is_not_there(past_file, "attachment"@),
        is_not_there(history, "entry"@),
{
}

/// A field, a file or a record that an entry has not is named as not there.
pub proof fn nothing_is_read_that_an_entry_has_not(
    en: Engine,
    uuid: Uuid,
    name: &str,
    index: u32,
    key: Result<&SessionKey, String>,
    field: Result<String, EngineError>,
    plain: Option<String>,
    past: Result<String, EngineError>,
    file: Result<Vec<u8>, EngineError>,
)
    requires
        en.mirror.entries@.contains_key(uuid),
        call_ensures(Engine::reveal_custom_field, (&en, uuid, name, key), field),
        call_ensures(Engine::non_protected_custom_field, (&en, uuid, name), plain),
        call_ensures(Engine::reveal_history_field, (&en, uuid, index, name, key), past),
        call_ensures(Engine::attachment_bytes, (&en, uuid, name), file),
    ensures
        ({
            let row = en.mirror.entries@[uuid];
            &&& (forall|i: int|
                0 <= i < row.fields.protected@.len() ==> (
                #[trigger] row.fields.protected@[i]).field_name@ != name@) ==> is_not_there(
                field,
                "custom_field"@,
            )
            &&& (forall|i: int|
                0 <= i < row.fields.plain@.len() ==> (#[trigger] row.fields.plain@[i]).field_name@
                    != name@) ==> plain is None
            &&& index >= row.history@.len() ==> is_not_there(past, "history_snapshot"@)
            &&& index < row.history@.len() && name@ != "Password"@ && (forall|i: int|
                0 <= i < row.history@[index as int].custom_fields@.len() ==> (
                #[trigger] row.history@[index as int].custom_fields@[i]).key@ != name@)
                ==> is_not_there(past, "history_field"@)
            &&& (forall|i: int|
                0 <= i < row.attachments@.len() ==> (
                #[trigger] row.attachments@[i]).attachment_name@ != name@) ==> is_not_there(
                file,
                "attachment"@,
            )
        }),
{
    let row = en.mirror.entries@[uuid];
    if forall|i: int|
        0 <= i < row.fields.protected@.len() ==> (#[trigger] row.fields.protected@[i]).field_name@
            != name@ {
        order::none_named(row.fields.protected@, name@, row.fields.protected@.len());
    }
    if forall|i: int|
        0 <= i < row.fields.plain@.len() ==> (#[trigger] row.fields.plain@[i]).field_name@
            != name@ {
        order::none_named(row.fields.plain@, name@, row.fields.plain@.len());
    }
    if index < row.history@.len() {
        let past = row.history@[index as int].custom_fields@;
        if forall|i: int| 0 <= i < past.len() ==> (#[trigger] past[i]).key@ != name@ {
            order::none_named(past, name@, past.len());
        }
    }
    if forall|i: int|
        0 <= i < row.attachments@.len() ==> (#[trigger] row.attachments@[i]).attachment_name@
            != name@ {
        order::none_named(row.attachments@, name@, row.attachments@.len());
    }
}

/// Without a session key nothing that is sealed is revealed, and why is handed on.
pub proof fn nothing_is_revealed_without_a_key(
    blob: &[u8],
    why: String,
    r: Result<String, EngineError>,
)
    requires
        call_ensures(reading::reveal_sealed, (Err::<&SessionKey, String>(why), blob), r),
    ensures
        r == Err::<String, EngineError>(EngineError::Reveal(RevealError::SessionKey(why))),
{
}

} // verus!
