//! What single changes leave behind: history, icons, held values, a new engine.

use vstd::prelude::*;
use vstd::utf8::*;

use crate::codec;
use crate::codec::Uuid;
use crate::conflict_rows::ConflictRecord;
use crate::crypto::{NonceSource, SessionKey};
use crate::engine;
use crate::engine::{Engine, SignatureRows};
use crate::engine_laws::{tells, told_by_one};
use crate::error::{EngineError, SqliteError};
use crate::events::{ChangeEvent, ChangeView};
use crate::meta_tables::MetaTables;
use crate::mirror::Mirror;
use crate::properties;
use crate::properties::HeaderFacts;
use crate::rows::{CustomDataRow, CustomDataRowView};
use crate::settings::SettingKey;
use crate::table;
use crate::table::Keyed;
use crate::vault::{CustomDataItem, Vault};
use crate::vault_laws;
use crate::vault_laws::{entry_at, is_known_millis_of};

verus! {

// -------------------------------------------------------------------------- history

/// Whether a row is that of an item.
pub open spec fn is_row_of(row: CustomDataRow, item: CustomDataItem) -> bool {
    &&& row.key@ == item.key@
    &&& row.value@ == item.value@
    &&& is_known_millis_of(row.last_modified_at, item.last_modified)
}

proof fn an_item_is_put(
    items: Seq<CustomDataRowView>,
    item: CustomDataRowView,
    n: nat,
)
    requires
        n <= items.len(),
    ensures
        ({
            let out = engine::with_item(items, item, n);
            &&& out.len() >= items.len()
            &&& exists|i: int| 0 <= i < out.len() && #[trigger] out[i] == item
            &&& forall|i: int|
                0 <= i < items.len() && (#[trigger] items[i]).key != item.key ==> out[i]
                    == items[i]
        }),
    decreases n,
{
    let out = engine::with_item(items, item, n);
    if n == 0 {
        assert(out[items.len() as int] == item);
    } else if items[n - 1].key == item.key {
        assert(out[n - 1] == item);
    } else {
        an_item_is_put(items, item, (n - 1) as nat);
    }
}

/// Deleting a record of an entry's history takes that record away and no other; the
/// later ones move up by one, and what the entry is now stays.
pub proof fn a_deleted_record_is_gone(
    en: &mut Engine,
    uuid: Uuid,
    index: u32,
    tombstone: Option<&CustomDataItem>,
    key: Seq<u8>,
    j: int,
    other: Uuid,
)
    requires
        call_ensures(Engine::delete_history_at, (en, uuid, index, tombstone), Ok(())),
    ensures
        old(en).mirror.entries@.contains_key(uuid),
        final(en).mirror.entries@.contains_key(uuid),
        index < old(en).mirror.entries@[uuid].history@.len(),
        ({
            let a = old(en).mirror.entries@[uuid];
            let b = final(en).mirror.entries@[uuid];
            &&& b.history@.len() == a.history@.len() - 1
            &&& 0 <= j < index ==> b.history@[j].opened(key) == a.history@[j].opened(key)
            &&& index <= j < b.history@.len() ==> b.history@[j].opened(key)
                == a.history@[j + 1].opened(key)
            &&& b.group_uuid == a.group_uuid
            &&& b.title@ == a.title@
            &&& b.username@ == a.username@
            &&& b.url@ == a.url@
            &&& b.url_host@ == a.url_host@
            &&& b.notes@ == a.notes@
            &&& b.icon_index == a.icon_index
            &&& b.icon_custom_uuid == a.icon_custom_uuid
            &&& b.created_at == a.created_at
            &&& b.modified_at == a.modified_at
            &&& b.accessed_at == a.accessed_at
            &&& b.last_used_at == a.last_used_at
            &&& b.expires_at == a.expires_at
            &&& b.is_recycled == a.is_recycled
            &&& b.fields.opened(key) == a.fields.opened(key)
        }),
        other != uuid && old(en).mirror.entries@.contains_key(other)
            ==> final(en).mirror.entries@.contains_key(other)
            && final(en).mirror.entries@[other] == old(en).mirror.entries@[other],
        final(en).mirror.entries@.contains_key(other) ==> old(en).mirror.entries@.contains_key(
            other,
        ),
        tells(*old(en), *final(en), 1),
        old(en).observed ==> (final(en).outbox@.last() matches ChangeEvent::EntriesUpdated(told)
            && told@ == seq![uuid]),
{
    let a = old(en).mirror.entries@[uuid];
    let b = final(en).mirror.entries@[uuid];
    told_by_one(*old(en), *final(en), ChangeView::EntriesUpdated(seq![uuid]));
    assert(old(en).mirror.entries@.dom().contains(uuid));
    assert(final(en).mirror.entries@.dom().contains(uuid));
    assert(final(en).mirror.entries@.dom().contains(other) == old(
        en,
    ).mirror.entries@.dom().contains(other));
    let x = a.opened(key).history;
    let y = b.opened(key).history;
    assert(y == x.remove(index as int));
    assert(y.len() == b.history@.len());
    if 0 <= j < b.history@.len() {
        assert(y[j] == b.history@[j].opened(key));
        if j < index {
            assert(x[j] == a.history@[j].opened(key));
        } else {
            assert(x[j + 1] == a.history@[j + 1].opened(key));
        }
    }
}

/// The trace that a deletion leaves is on record with the entry; the entry's other
/// items stay.
pub proof fn a_deletion_leaves_its_trace(
    en: &mut Engine,
    uuid: Uuid,
    index: u32,
    item: &CustomDataItem,
    i: int,
)
    requires
        call_ensures(Engine::delete_history_at, (en, uuid, index, Some(item)), Ok(())),
    ensures
        exists|n: int|
            0 <= n < final(en).mirror.entries@[uuid].custom_data@.len() && is_row_of(
                #[trigger] final(en).mirror.entries@[uuid].custom_data@[n],
                *item,
            ),
        0 <= i < old(en).mirror.entries@[uuid].custom_data@.len() && old(
            en,
        ).mirror.entries@[uuid].custom_data@[i].key@ != item.key@ ==> {
            let a = old(en).mirror.entries@[uuid].custom_data@[i];
            let b = final(en).mirror.entries@[uuid].custom_data@[i];
            &&& i < final(en).mirror.entries@[uuid].custom_data@.len()
            &&& b.key@ == a.key@
            &&& b.value@ == a.value@
            &&& b.last_modified_at == a.last_modified_at
        },
{
    let a = old(en).mirror.entries@[uuid].custom_data;
    let b = final(en).mirror.entries@[uuid].custom_data;
    let k = Seq::<u8>::empty();
    let row = crate::rows::custom_data_row(item.deep_view());
    assert(a.deep_view().len() == a@.len());
    assert(b.deep_view().len() == b@.len());
    an_item_is_put(a.deep_view(), row, a@.len());
    let out = engine::with_item(a.deep_view(), row, a@.len());
    assert(final(en).mirror.entries@[uuid].opened(k).custom_data == out);
    assert(b.deep_view() == out);
    let n = choose|n: int| 0 <= n < out.len() && #[trigger] out[n] == row;
    assert(out[n] == b@[n].deep_view());
    assert(is_row_of(b@[n], *item));
    if 0 <= i < a@.len() && a@[i].key@ != item.key@ {
        assert(a.deep_view()[i] == a@[i].deep_view());
        assert(out[i] == b@[i].deep_view());
    }
}

/// There is nothing to delete where there is no such entry or no such record.
pub proof fn no_record_is_not_deleted(
    en: &mut Engine,
    uuid: Uuid,
    index: u32,
    tombstone: Option<&CustomDataItem>,
    r: Result<(), EngineError>,
)
    requires
        call_ensures(Engine::delete_history_at, (en, uuid, index, tombstone), r),
    ensures
        r is Ok <==> old(en).mirror.entries@.contains_key(uuid) && index < old(
            en,
        ).mirror.entries@[uuid].history@.len(),
        !old(en).mirror.entries@.contains_key(uuid) ==> (
        r matches Err(EngineError::NotFound { entity }) && entity@ == "entry"@),
        old(en).mirror.entries@.contains_key(uuid) && r is Err ==> (
        r matches Err(EngineError::NotFound { entity }) && entity@ == "history_snapshot"@),
        r is Err ==> final(en).mirror.entries@ == old(en).mirror.entries@ && final(en).outbox
            == old(en).outbox,
{
}

// ---------------------------------------------------------------------------- icons

proof fn digest_is_found(icons: Seq<crate::meta::IconRow>, n: nat, digest: Seq<u8>)
    requires
        n <= icons.len(),
    ensures
        match properties::first_with_digest(icons, n, digest) {
            Some(i) => 0 <= i < n && codec::sha256(icons[i].bytes@) == digest,
            None => forall|i: int|
                0 <= i < n ==> codec::sha256((#[trigger] icons[i]).bytes@) != digest,
        },
    decreases n,
{
    if n > 0 {
        digest_is_found(icons, (n - 1) as nat, digest);
    }
}

/// An image that no icon has yet becomes an icon, which is found under the identity
/// that is returned; the others stay.
pub proof fn a_new_icon_is_found(
    en: &mut Engine,
    image: &[u8],
    now_ms: i64,
    r: Result<String, EngineError>,
    uuid: Uuid,
    i: int,
)
    requires
        call_ensures(Engine::add_custom_icon, (en, image, now_ms), r),
        r is Ok,
        r->Ok_0@ == codec::uuid_text(uuid),
        forall|n: int|
            0 <= n < old(en).tables.icons@.len() ==> codec::sha256(
                (#[trigger] old(en).tables.icons@[n]).bytes@,
            ) != codec::sha256(image@),
    ensures
        forall|found: Option<Vec<u8>>| #[trigger]
            call_ensures(Engine::custom_icon_bytes, (&*final(en), uuid), found) ==> found is Some
                && found->0@ == image@,
        final(en).tables.icons@.len() == old(en).tables.icons@.len() + 1,
        0 <= i < old(en).tables.icons@.len() ==> final(en).tables.icons@[i] == old(
            en,
        ).tables.icons@[i],
        final(en).tables.icons@.last().last_modified_at == Some(now_ms),
        final(en).tables.icons@.last().name@.len() == 0,
        tells(*old(en), *final(en), 1),
        old(en).observed ==> (final(en).outbox@.last() matches ChangeEvent::MetaUpdated { keys }
            && keys@.len() == 1 && keys@[0]@ == "meta.custom_icons"@),
{
    let before = old(en).tables.icons@;
    let after = final(en).tables.icons@;
    digest_is_found(before, before.len(), codec::sha256(image@));
    told_by_one(
        *old(en),
        *final(en),
        ChangeView::MetaUpdated { keys: seq![crate::meta::KEY_CUSTOM_ICONS@] },
    );
    assert forall|n: int| 0 <= n < before.len() implies (#[trigger] after[n]) == before[n] by {
        assert(after.drop_last()[n] == after[n]);
    }
    assert(after[after.len() - 1].uuid@ == codec::uuid_text(uuid));
    assert forall|n: int| 0 <= n < after.len() - 1 implies (#[trigger] after[n]).uuid@
        != codec::uuid_text(uuid) by {
        assert(before[n] == after[n]);
    }
    if old(en).observed {
        let last = final(en).outbox@.last();
        assert(last is MetaUpdated);
        let keys = last->MetaUpdated_keys;
        assert(keys.deep_view().len() == keys@.len());
        assert(keys.deep_view()[0] == keys@[0]@);
    }
}

/// An image that some icon has already adds nothing and tells nothing.
pub proof fn an_icon_is_kept_once(
    en: &mut Engine,
    image: &[u8],
    now_ms: i64,
    r: Result<String, EngineError>,
    n: int,
)
    requires
        call_ensures(Engine::add_custom_icon, (en, image, now_ms), r),
        0 <= n < old(en).tables.icons@.len(),
        codec::sha256(old(en).tables.icons@[n].bytes@) == codec::sha256(image@),
    ensures
        final(en).tables.icons@ == old(en).tables.icons@,
        final(en).outbox.deep_view() == old(en).outbox.deep_view(),
        r is Ok ==> exists|i: int|
            0 <= i < old(en).tables.icons@.len() && codec::sha256(
                (#[trigger] old(en).tables.icons@[i]).bytes@,
            ) == codec::sha256(image@) && codec::uuid_parsed(old(en).tables.icons@[i].uuid@) is Ok
                && r->Ok_0@ == codec::uuid_text(
                codec::uuid_parsed(old(en).tables.icons@[i].uuid@)->Ok_0,
            ),
{
    let before = old(en).tables.icons@;
    digest_is_found(before, before.len(), codec::sha256(image@));
}

/// The identity of an icon is the start of the digest of its image, with the marks
/// of a custom, standard identity in it.
pub proof fn an_icons_identity_is_its_digest(sha256: &[u8; 32], r: Uuid, i: int)
    requires
        call_ensures(properties::content_addressed_icon_uuid, (sha256,), r),
        0 <= i < 16,
    ensures
        i != 6 && i != 8 ==> digit(r, i) == sha256@[i],
        i == 6 ==> digit(r, i) == 128 + sha256@[i] % 16,
        i == 8 ==> digit(r, i) == 128 + sha256@[i] % 64,
{
    let s = properties::icon_identity_bytes(sha256@);
    assert(sha256@.len() == 32);
    assert(s.len() == 16);
    digits_of(s, i);
}

/// A byte of an identity, the highest first.
pub open spec fn digit(id: Uuid, i: int) -> int {
    (id as nat / properties::range_of((15 - i) as nat)) as int % 256
}

proof fn a_range_is_positive(n: nat)
    ensures
        properties::range_of(n) > 0,
    decreases n,
{
    if n > 0 {
        a_range_is_positive((n - 1) as nat);
    }
}

proof fn digits_of(s: Seq<u8>, i: int)
    requires
        0 <= i < s.len(),
    ensures
        (properties::be_value(s) / properties::range_of((s.len() - 1 - i) as nat)) as int % 256
            == s[i],
    decreases s.len(),
{
    let front = s.drop_last();
    let low = s.last() as int;
    let high = properties::be_value(front) as int;
    assert(properties::be_value(s) == 256 * high + low);
    if i == s.len() - 1 {
        assert(properties::range_of(0) == 1);
        assert((256 * high + low) % 256 == low) by (nonlinear_arith)
            requires
                0 <= low < 256,
                0 <= high,
        ;
        assert((256 * high + low) / 1 == 256 * high + low);
    } else {
        digits_of(front, i);
        assert(front[i] == s[i]);
        let d = properties::range_of((s.len() - 2 - i) as nat) as int;
        a_range_is_positive((s.len() - 2 - i) as nat);
        assert(properties::range_of((s.len() - 1 - i) as nat) == 256 * d);
        assert((256 * high + low) / (256 * d) == high / d) by {
            vstd::arithmetic::div_mod::lemma_div_denominator(256 * high + low, 256, d);
            assert((256 * high + low) / 256 == high) by (nonlinear_arith)
                requires
                    0 <= low < 256,
                    0 <= high,
            ;
        }
        assert(s.len() - 1 - (i + 1) == front.len() - 1 - i);
        assert(properties::be_value(s) as int / (256 * d) == high / d);
    }
}

// ---------------------------------------------------------------------- held values

proof fn rows_of_an_entry(rows: Seq<ConflictRecord>, key: Seq<u8>, i: int)
    requires
        0 <= i < rows.len(),
    ensures
        table::as_map(rows, key).contains_key((rows[i].owner@, rows[i].entry_uuid)),
{
    table::map_keys(rows, key, (rows[i].owner@, rows[i].entry_uuid));
    assert(rows[i].row_key() == (rows[i].owner@, rows[i].entry_uuid));
}

/// Clearing an entry's badge drops every value held for it: it is no longer listed.
/// An entry whose badge was not cleared is listed as before.
pub proof fn a_cleared_badge_is_gone(en: &mut Engine, uuid: Uuid, n: u32, other: Uuid)
    requires
        call_ensures(Engine::clear_parked_conflict_marker, (en, uuid), n),
        other != uuid,
    ensures
        forall|r: Vec<Uuid>| #[trigger]
            call_ensures(Engine::entries_with_parked_conflict, (&*final(en),), r)
                ==> !r@.contains(uuid),
        forall|r: Vec<Uuid>, s: Vec<Uuid>|
            #![trigger call_ensures(Engine::entries_with_parked_conflict, (&*old(en),), r), call_ensures(Engine::entries_with_parked_conflict, (&*final(en),), s)]
            call_ensures(Engine::entries_with_parked_conflict, (&*old(en),), r) && call_ensures(
                Engine::entries_with_parked_conflict,
                (&*final(en),),
                s,
            ) ==> (r@.contains(other) <==> s@.contains(other)),
        old(en).mirror.conflicts.rows@.len() - final(en).mirror.conflicts.rows@.len() <= u32::MAX
            ==> n == old(en).mirror.conflicts.rows@.len() - final(en).mirror.conflicts.rows@.len(),
        old(en).mirror.conflicts.rows@.len() - final(en).mirror.conflicts.rows@.len() > u32::MAX
            ==> n == u32::MAX,
        *final(en) == (Engine { mirror: final(en).mirror, ..*old(en) }),
{
    let key = Seq::<u8>::empty();
    let a = old(en).mirror.conflicts.rows@;
    let b = final(en).mirror.conflicts.rows@;
    let x = table::as_map(a, key);
    let y = table::as_map(b, key);
    assert(old(en).mirror.opened(key).conflicts == x);
    assert(final(en).mirror.opened(key).conflicts == y);
    assert forall|i: int| 0 <= i < b.len() implies (#[trigger] b[i]).entry_uuid != uuid by {
        rows_of_an_entry(b, key, i);
    }
    if exists|i: int| 0 <= i < a.len() && (#[trigger] a[i]).entry_uuid == other {
        let i = choose|i: int| 0 <= i < a.len() && (#[trigger] a[i]).entry_uuid == other;
        rows_of_an_entry(a, key, i);
        table::map_keys(b, key, (a[i].owner@, other));
        let j = choose|j: int|
            0 <= j < b.len() && (#[trigger] b[j]).row_key() == (a[i].owner@, other);
        assert(b[j].entry_uuid == other);
    }
    if exists|i: int| 0 <= i < b.len() && (#[trigger] b[i]).entry_uuid == other {
        let i = choose|i: int| 0 <= i < b.len() && (#[trigger] b[i]).entry_uuid == other;
        rows_of_an_entry(b, key, i);
        table::map_keys(a, key, (b[i].owner@, other));
        let j = choose|j: int|
            0 <= j < a.len() && (#[trigger] a[j]).row_key() == (b[i].owner@, other);
        assert(a[j].entry_uuid == other);
    }
}

/// The entries with a badge are those that some device has a value held for, each
/// once and in order.
pub proof fn badges_are_listed(en: Engine, r: Vec<Uuid>, s: Vec<Uuid>, i: int, j: int)
    requires
        call_ensures(Engine::entries_with_parked_conflict, (&en,), r),
        call_ensures(Engine::parked_conflict_uuids_from_rows, (&en,), s),
    ensures
        0 <= i < en.mirror.conflicts.rows@.len() ==> r@.contains(
            en.mirror.conflicts.rows@[i].entry_uuid,
        ) && s@.contains(en.mirror.conflicts.rows@[i].entry_uuid),
        0 <= i < r@.len() ==> exists|n: int|
            0 <= n < en.mirror.conflicts.rows@.len() && (
            #[trigger] en.mirror.conflicts.rows@[n]).entry_uuid == r@[i],
        0 <= i < s@.len() ==> exists|n: int|
            0 <= n < en.mirror.conflicts.rows@.len() && (
            #[trigger] en.mirror.conflicts.rows@[n]).entry_uuid == s@[i],
        0 <= i < j < r@.len() ==> r@[i] < r@[j],
        0 <= i < j < s@.len() ==> s@[i] < s@[j],
{
    if 0 <= i < r@.len() {
        assert(r@.contains(r@[i]));
    }
    if 0 <= i < s@.len() {
        assert(s@.contains(s@[i]));
    }
}

// --------------------------------------------------------------------- a new engine

/// An engine that was opened has the tables it was given, is active and has nothing
/// to tell and nothing to decide. Its key is the stored one where one is stored.
pub proof fn a_new_engine_is_quiet(
    mirror: Mirror,
    tables: MetaTables,
    signature: SignatureRows,
    r: Result<Engine, EngineError>,
)
    requires
        call_ensures(Engine::open, (mirror, tables, signature), r),
    ensures
        tables.settings@.contains_key(SettingKey::FingerprintKey)
            && tables.settings@[SettingKey::FingerprintKey].len() == 32 ==> r is Ok
            && r->Ok_0.fingerprint_key@ == tables.settings@[SettingKey::FingerprintKey]
            && r->Ok_0.tables.settings@ == tables.settings@,
        tables.settings@.contains_key(SettingKey::FingerprintKey)
            && tables.settings@[SettingKey::FingerprintKey].len() != 32 ==> (
        r matches Err(EngineError::Sqlite(SqliteError::WrongLength { found })) && found
            == tables.settings@[SettingKey::FingerprintKey].len()),
        r is Ok ==> {
            let en = r->Ok_0;
            &&& en.mirror == mirror
            &&& en.signature == signature
            &&& en.tables.icons == tables.icons
            &&& en.tables.custom_data == tables.custom_data
            &&& en.tables.unknown_xml == tables.unknown_xml
            &&& en.tables.settings@.contains_key(SettingKey::FingerprintKey)
            &&& en.tables.settings@[SettingKey::FingerprintKey] == en.fingerprint_key@
            &&& en.shared.state is Active
            &&& en.shared.last_self_write is None
            &&& en.shared.pending_reconcile_calls == 0
            &&& !en.shared.has_trigger
            &&& !en.observed
            &&& en.outbox@.len() == 0
            &&& forall|id: i64| !#[trigger] en.stash.payloads@.contains_key(id)
            &&& forall|id: i64| !#[trigger] en.stash.contexts@.contains_key(id)
        },
        r is Ok ==> forall|k: SettingKey|
            !(k is FingerprintKey) ==> (#[trigger] r->Ok_0.tables.settings@.contains_key(k)
                <==> tables.settings@.contains_key(k)) && (tables.settings@.contains_key(k)
                ==> r->Ok_0.tables.settings@[k] == tables.settings@[k]),
{
}

/// The fingerprint of an entry's password is the one that is stored with the entry.
pub proof fn a_password_is_recognised(
    en: &mut Engine,
    v: &Vault,
    header: &HeaderFacts,
    session_key: &SessionKey,
    nonces: &mut NonceSource,
    path: Seq<nat>,
    k: int,
    password: &[u8],
)
    requires
        call_ensures(Engine::ingest_from_kdbx, (en, v, header, session_key, nonces), Ok(())),
        entry_at(v.root, path, k) is Some,
        entry_at(v.root, path, k)->0.content.password@.len() > 0,
        password@ == encode_utf8(entry_at(v.root, path, k)->0.content.password@),
    ensures
        forall|r: [u8; 32]| #[trigger]
            call_ensures(Engine::fingerprint, (&*final(en), password), r)
                ==> final(en).mirror.entries@[entry_at(
                v.root,
                path,
                k,
            )->0.id].password_fingerprint is Some && final(en).mirror.entries@[entry_at(
                v.root,
                path,
                k,
            )->0.id].password_fingerprint->0@ == r@,
{
    crate::engine_laws::ingesting_leaves_the_vault(en, v, header, session_key, nonces, Ok(()));
    vault_laws::an_entry_keeps_its_marks(
        final(en).mirror,
        old(en).mirror.opened(session_key@),
        v,
        session_key@,
        old(en).fingerprint_key@,
        path,
        k,
    );
}

/// A wiped engine has no key left, and everything else.
pub proof fn a_wiped_key_is_gone(en: &mut Engine, i: int)
    requires
        call_ensures(Engine::wipe, (en,), ()),
        0 <= i < 32,
    ensures
        final(en).fingerprint_key@[i] == 0,
        *final(en) == (Engine { fingerprint_key: final(en).fingerprint_key, ..*old(en) }),
{
}

} // verus!
