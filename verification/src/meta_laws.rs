//! A vault's metadata, from the vault to what is read and shown.

use vstd::prelude::*;
use vstd::utf8::*;

use crate::codec;
use crate::codec::Uuid;
use crate::crypto::{NonceSource, SessionKey};
use crate::engine::Engine;
use crate::error::EngineError;
use crate::ingest;
use crate::meta;
use crate::meta::{
    CustomIcon, MemoryProtection, Meta, MetaView, TombstoneRow, UnknownElement, UnknownXmlRecord,
};
use crate::meta_tables;
use crate::meta_tables::MetaTables;
use crate::order;
use crate::properties;
use crate::properties::{Argon2Variant, DatabaseMetadata, HeaderFacts, KdfParams, KnownCipher};
use crate::rows::BlobRow;
use crate::settings;
use crate::settings::SettingKey;
use crate::text;
use crate::time;
use crate::time::Timestamp;
use crate::vault::{CustomDataItem, DeletedObject, Vault};

verus! {

// --------------------------------------------------------------------- reading back

/// Whether an instant is another one to the millisecond.
pub open spec fn to_the_millisecond(a: Option<Timestamp>, b: Option<Timestamp>) -> bool {
    &&& a is Some <==> b is Some
    &&& a is Some ==> a->0.millis == b->0.millis && a->0.nanos == 0
}

/// Whether an instant, where there is one, is one of the calendar.
pub open spec fn is_dated(t: Option<Timestamp>) -> bool {
    t is Some ==> time::MIN_MILLIS <= t->0.millis <= time::MAX_MILLIS
}

/// Whether all instants of a vault's metadata are of the calendar.
pub open spec fn has_known_times(v: Meta) -> bool {
    &&& is_dated(v.database_name_changed)
    &&& is_dated(v.database_description_changed)
    &&& is_dated(v.default_username_changed)
    &&& is_dated(v.recycle_bin_changed)
    &&& is_dated(v.settings_changed)
    &&& is_dated(v.master_key_changed)
    &&& forall|i: int|
        0 <= i < v.custom_icons@.len() ==> is_dated((#[trigger] v.custom_icons@[i]).last_modified)
    &&& forall|i: int|
        0 <= i < v.custom_data@.len() ==> is_dated((#[trigger] v.custom_data@[i]).last_modified)
}

/// Whether metadata has the texts, numbers, flags and instants of other metadata.
pub open spec fn has_settings_of(out: Meta, v: Meta) -> bool {
    &&& out.generator@ == v.generator@
    &&& out.database_name@ == v.database_name@
    &&& out.database_description@ == v.database_description@
    &&& out.default_username@ == v.default_username@
    &&& out.color@ == v.color@
    &&& out.header_hash@ == v.header_hash@
    &&& to_the_millisecond(out.database_name_changed, v.database_name_changed)
    &&& to_the_millisecond(out.database_description_changed, v.database_description_changed)
    &&& to_the_millisecond(out.default_username_changed, v.default_username_changed)
    &&& to_the_millisecond(out.recycle_bin_changed, v.recycle_bin_changed)
    &&& to_the_millisecond(out.settings_changed, v.settings_changed)
    &&& to_the_millisecond(out.master_key_changed, v.master_key_changed)
    &&& out.master_key_change_rec == v.master_key_change_rec
    &&& out.master_key_change_force == v.master_key_change_force
    &&& out.history_max_items == v.history_max_items
    &&& out.history_max_size == v.history_max_size
    &&& out.maintenance_history_days == v.maintenance_history_days
    &&& out.memory_protection == v.memory_protection
}

/// Whether an icon is another one.
pub open spec fn is_icon(a: CustomIcon, b: CustomIcon) -> bool {
    &&& a.uuid == b.uuid
    &&& a.data@ == b.data@
    &&& a.name@ == b.name@
    &&& to_the_millisecond(a.last_modified, b.last_modified)
}

/// Whether an item is another one.
pub open spec fn is_item(a: CustomDataItem, b: CustomDataItem) -> bool {
    &&& a.key@ == b.key@
    &&& a.value@ == b.value@
    &&& to_the_millisecond(a.last_modified, b.last_modified)
}

/// Whether a list has an icon.
pub open spec fn has_icon(out: Seq<CustomIcon>, icon: CustomIcon) -> bool {
    exists|j: int| 0 <= j < out.len() && is_icon(#[trigger] out[j], icon)
}

/// Whether a list has an item.
pub open spec fn has_item(out: Seq<CustomDataItem>, item: CustomDataItem) -> bool {
    exists|j: int| 0 <= j < out.len() && is_item(#[trigger] out[j], item)
}

/// Whether metadata has the lists of other metadata: the unknown elements in their
/// order, each icon and each item somewhere.
pub open spec fn has_lists_of(out: Meta, v: Meta) -> bool {
    &&& out.unknown_xml@.len() == v.unknown_xml@.len()
    &&& forall|i: int|
        0 <= i < v.unknown_xml@.len() ==> (#[trigger] out.unknown_xml@[i]).tag@
            == v.unknown_xml@[i].tag@ && out.unknown_xml@[i].raw_xml@ == v.unknown_xml@[i].raw_xml@
    &&& out.custom_icons@.len() == v.custom_icons@.len()
    &&& forall|i: int|
        0 <= i < v.custom_icons@.len() ==> has_icon(
            out.custom_icons@,
            #[trigger] v.custom_icons@[i],
        )
    &&& out.custom_data@.len() == v.custom_data@.len()
    &&& forall|i: int|
        0 <= i < v.custom_data@.len() ==> has_item(out.custom_data@, #[trigger] v.custom_data@[i])
}

proof fn known_times_are_dated(v: Meta)
    requires
        has_known_times(v),
    ensures
        meta_tables::dated_throughout(v.deep_view()),
{
    let d = v.deep_view();
    assert forall|i: int| 0 <= i < d.custom_icons.len() implies meta_tables::in_calendar(
        (#[trigger] d.custom_icons[i]).last_modified,
    ) by {
        assert(d.custom_icons[i] == v.custom_icons@[i].deep_view());
    }
    assert forall|i: int| 0 <= i < d.custom_data.len() implies meta_tables::in_calendar(
        (#[trigger] d.custom_data[i]).last_modified,
    ) by {
        assert(d.custom_data[i] == v.custom_data@[i].deep_view());
    }
}

proof fn equal_views_have_the_same(
    t: MetaTables,
    m: Map<SettingKey, Seq<u8>>,
    v: Meta,
    base: Meta,
    out: Meta,
)
    requires
        t.settings@ == meta_tables::written(m, v.deep_view()),
        meta_tables::unknown_in(t) == Ok::<Option<Seq<meta::UnknownView>>, Seq<char>>(
            Some(v.deep_view().unknown_xml),
        ),
        meta::icon_views(t.icons@) == meta::icon_rows(v.deep_view().custom_icons),
        meta_tables::identities_parse(t.icons@, v.deep_view().custom_icons),
        t.custom_data.deep_view() == crate::rows::custom_data_rows(v.deep_view().custom_data),
        meta::distinct_icons(v.deep_view().custom_icons),
        crate::rows::distinct_keys(v.deep_view().custom_data),
        has_known_times(v),
        out.deep_view() == meta_tables::read_over(t, base.deep_view()),
    ensures
        has_settings_of(out, v),
        has_lists_of(out, v),
        out.recycle_bin_uuid == base.recycle_bin_uuid,
        out.recycle_bin_enabled == base.recycle_bin_enabled,
{
    known_times_are_dated(v);
    meta_tables::written_metadata_reads_back(t, m, v.deep_view(), base.deep_view());
    let d = v.deep_view();
    let o = out.deep_view();
    assert(o.generator == out.generator@);
    assert(out.memory_protection == o.memory_protection);
    assert(o.unknown_xml.len() == out.unknown_xml@.len());
    assert(d.unknown_xml.len() == v.unknown_xml@.len());
    assert forall|i: int| 0 <= i < v.unknown_xml@.len() implies (
    #[trigger] out.unknown_xml@[i]).tag@ == v.unknown_xml@[i].tag@ && out.unknown_xml@[i].raw_xml@
        == v.unknown_xml@[i].raw_xml@ by {
        assert(o.unknown_xml[i] == out.unknown_xml@[i].deep_view());
        assert(d.unknown_xml[i] == v.unknown_xml@[i].deep_view());
    }
    assert(o.custom_icons.len() == out.custom_icons@.len());
    assert(d.custom_icons.len() == v.custom_icons@.len());
    assert forall|i: int| 0 <= i < v.custom_icons@.len() implies has_icon(
        out.custom_icons@,
        #[trigger] v.custom_icons@[i],
    ) by {
        let want = meta_tables::stored_icon(d.custom_icons[i]);
        assert(o.custom_icons.contains(want));
        let j = choose|j: int| 0 <= j < o.custom_icons.len() && o.custom_icons[j] == want;
        assert(o.custom_icons[j] == out.custom_icons@[j].deep_view());
        assert(d.custom_icons[i] == v.custom_icons@[i].deep_view());
        assert(is_icon(out.custom_icons@[j], v.custom_icons@[i]));
    }
    assert(o.custom_data.len() == out.custom_data@.len());
    assert(d.custom_data.len() == v.custom_data@.len());
    assert forall|i: int| 0 <= i < v.custom_data@.len() implies has_item(
        out.custom_data@,
        #[trigger] v.custom_data@[i],
    ) by {
        let want = meta_tables::stored_item(d.custom_data[i]);
        assert(o.custom_data.contains(want));
        let j = choose|j: int| 0 <= j < o.custom_data.len() && o.custom_data[j] == want;
        assert(o.custom_data[j] == out.custom_data@[j].deep_view());
        assert(d.custom_data[i] == v.custom_data@[i].deep_view());
        assert(is_item(out.custom_data@[j], v.custom_data@[i]));
    }
}

/// Metadata that was written is what is read, over whatever it is read; of the
/// recycle bin nothing is said.
pub proof fn written_metadata_is_read(t: &mut MetaTables, v: &Meta, base: Meta)
    requires
        call_ensures(MetaTables::write_meta, (t, v), Ok(())),
        has_known_times(*v),
    ensures
        forall|r: Result<Meta, EngineError>| #[trigger]
            call_ensures(MetaTables::read_meta_into, (&*final(t), base), r) ==> r is Ok
                && has_settings_of(r->Ok_0, *v) && has_lists_of(r->Ok_0, *v)
                && r->Ok_0.recycle_bin_uuid == base.recycle_bin_uuid
                && r->Ok_0.recycle_bin_enabled == base.recycle_bin_enabled,
{
    let m = old(t).settings@;
    let after = *final(t);
    assert forall|r: Result<Meta, EngineError>| #[trigger]
        call_ensures(MetaTables::read_meta_into, (&after, base), r) implies r is Ok
        && has_settings_of(r->Ok_0, *v) && has_lists_of(r->Ok_0, *v) && r->Ok_0.recycle_bin_uuid
        == base.recycle_bin_uuid && r->Ok_0.recycle_bin_enabled == base.recycle_bin_enabled by {
        known_times_are_dated(*v);
        meta_tables::written_metadata_reads_back(after, m, v.deep_view(), base.deep_view());
        assert(r is Ok);
        equal_views_have_the_same(after, m, *v, base, r->Ok_0);
    }
}

proof fn the_envelope_goes_round(
    m: Map<SettingKey, Seq<u8>>,
    v: MetaView,
    header: Option<HeaderFacts>,
    on: bool,
)
    ensures
        ingest::enveloped(meta_tables::written(m, v), header, on) == meta_tables::written(
            ingest::enveloped(m, header, on),
            v,
        ),
{
    let a = ingest::enveloped(meta_tables::written(m, v), header, on);
    let b = meta_tables::written(ingest::enveloped(m, header, on), v);
    assert forall|k: SettingKey| a.contains_key(k) <==> #[trigger] b.contains_key(k) by {
        ingest::written_at(m, ingest::enveloped(m, header, on), v, k);
        ingest::written_at(ingest::enveloped(m, header, on), m, v, k);
    }
    assert forall|k: SettingKey| a.contains_key(k) implies a[k] == #[trigger] b[k] by {
        ingest::written_at(m, ingest::enveloped(m, header, on), v, k);
        ingest::written_at(ingest::enveloped(m, header, on), m, v, k);
    }
    assert(a =~= b);
}

/// Elements that the decoder did not know are stored so that they are read as they
/// were, in their order.
pub proof fn unknown_elements_are_kept(
    elements: &Vec<UnknownElement>,
    stored: Vec<UnknownXmlRecord>,
    r: Result<Vec<UnknownElement>, String>,
    i: int,
)
    requires
        call_ensures(meta::serialise_unknown_xml, (elements,), stored),
        call_ensures(meta::deserialise_unknown_xml, (&stored,), r),
    ensures
        r is Ok,
        r->Ok_0@.len() == elements@.len(),
        0 <= i < elements@.len() ==> r->Ok_0@[i].tag@ == elements@[i].tag@
            && r->Ok_0@[i].raw_xml@ == elements@[i].raw_xml@,
{
    let a = elements.deep_view();
    let b = r->Ok_0.deep_view();
    assert(a == b);
    assert(a.len() == elements@.len());
    assert(b.len() == r->Ok_0@.len());
    if 0 <= i < elements@.len() {
        assert(a[i] == elements@[i].deep_view());
        assert(b[i] == r->Ok_0@[i].deep_view());
    }
}

proof fn stones_are_read(s: Seq<TombstoneRow>, n: nat, i: int)
    requires
        0 <= i < n <= s.len(),
        meta::tombstones_of_rows(s, n) is Ok,
    ensures
        meta::tombstones_of_rows(s, n)->Ok_0.len() == n,
        codec::uuid_parsed(s[i].uuid@) is Ok,
        meta::tombstones_of_rows(s, n)->Ok_0[i].uuid == codec::uuid_parsed(s[i].uuid@)->Ok_0,
        meta::tombstones_of_rows(s, n)->Ok_0[i].deleted_at == time::optional_instant_of(
            s[i].deleted_at,
        ),
    decreases n,
{
    if n > 1 {
        stones_are_read(s, (n - 1) as nat, if i < n - 1 { i } else { 0 });
    } else {
        assert(meta::tombstones_of_rows(s, 0) == Ok::<Seq<DeletedObject>, Seq<char>>(Seq::empty()));
    }
}

/// Every stored tombstone is read with its identity and its time.
pub proof fn stored_tombstones_are_read(
    rows: Vec<TombstoneRow>,
    r: Vec<DeletedObject>,
    i: int,
)
    requires
        call_ensures(
            meta::read_deleted_objects,
            (&rows,),
            Ok::<Vec<DeletedObject>, EngineError>(r),
        ),
        0 <= i < rows@.len(),
    ensures
        r@.len() == rows@.len(),
        exists|j: int|
            0 <= j < r@.len() && codec::uuid_parsed(rows@[i].uuid@) == Ok::<Uuid, Seq<char>>(
                (#[trigger] r@[j]).uuid,
            ) && (rows@[i].deleted_at is None ==> r@[j].deleted_at is None) && (
            rows@[i].deleted_at is Some && time::MIN_MILLIS <= rows@[i].deleted_at->0
                <= time::MAX_MILLIS ==> r@[j].deleted_at == Some(
                Timestamp { millis: rows@[i].deleted_at->0, nanos: 0 },
            )),
{
    let sorted = order::sorted_of(rows@);
    order::sorting_orders_and_keeps(rows@);
    order::sorting_keeps_members(rows@, rows@[i]);
    assert(rows@.contains(rows@[i]));
    let j = choose|j: int| 0 <= j < sorted.len() && sorted[j] == rows@[i];
    stones_are_read(sorted, sorted.len(), j);
    assert(r@[j].uuid == codec::uuid_parsed(rows@[i].uuid@)->Ok_0);
}

/// The metadata of a vault that was taken in is what is read, over whatever it is
/// read.
pub proof fn a_vaults_metadata_is_read(
    en: &mut Engine,
    v: &Vault,
    header: &HeaderFacts,
    session_key: &SessionKey,
    nonces: &mut NonceSource,
    base: Meta,
)
    requires
        call_ensures(Engine::ingest_from_kdbx, (en, v, header, session_key, nonces), Ok(())),
        has_known_times(v.meta),
    ensures
        forall|r: Result<Meta, EngineError>| #[trigger]
            call_ensures(MetaTables::read_meta_into, (&final(en).tables, base), r) ==> r is Ok
                && has_settings_of(r->Ok_0, v.meta) && has_lists_of(r->Ok_0, v.meta),
{
    let after = final(en).tables;
    let m = meta_tables::cleared(old(en).tables.settings@, false);
    let around = ingest::enveloped(m, Some(*header), v.meta.recycle_bin_enabled);
    the_envelope_goes_round(m, v.meta.deep_view(), Some(*header), v.meta.recycle_bin_enabled);
    assert forall|r: Result<Meta, EngineError>| #[trigger]
        call_ensures(MetaTables::read_meta_into, (&after, base), r) implies r is Ok
        && has_settings_of(r->Ok_0, v.meta) && has_lists_of(r->Ok_0, v.meta) by {
        known_times_are_dated(v.meta);
        meta_tables::written_metadata_reads_back(
            after,
            around,
            v.meta.deep_view(),
            base.deep_view(),
        );
        assert(r is Ok);
        equal_views_have_the_same(after, around, v.meta, base, r->Ok_0);
    }
}

/// The limits on history and the recycle bin's switch are found as the vault that
/// was taken in has them.
pub proof fn a_vaults_limits_are_found(
    en: &mut Engine,
    v: &Vault,
    header: &HeaderFacts,
    session_key: &SessionKey,
    nonces: &mut NonceSource,
)
    requires
        call_ensures(Engine::ingest_from_kdbx, (en, v, header, session_key, nonces), Ok(())),
    ensures
        forall|r: Result<i32, EngineError>| #[trigger]
            call_ensures(Engine::history_max_items, (&*final(en),), r) ==> r == Ok::<
                i32,
                EngineError,
            >(v.meta.history_max_items),
        forall|r: Result<i64, EngineError>| #[trigger]
            call_ensures(Engine::history_max_size, (&*final(en),), r) ==> r == Ok::<
                i64,
                EngineError,
            >(v.meta.history_max_size),
        forall|r: bool| #[trigger]
            call_ensures(Engine::recycle_bin_enabled, (&*final(en),), r) ==> r
                == v.meta.recycle_bin_enabled,
{
    reveal(meta_tables::written);
    settings::i32_reads_back(v.meta.history_max_items);
    settings::i64_reads_back(v.meta.history_max_size);
    let m = final(en).tables.settings@;
    assert(m[SettingKey::HistoryMaxItems] == settings::i32_bytes(v.meta.history_max_items));
    assert(m[SettingKey::HistoryMaxSize] == settings::i64_bytes(v.meta.history_max_size));
}

/// Each setting of written metadata stands under its own key.
pub proof fn a_setting_stands_under_its_key(t: &mut MetaTables, v: &Meta)
    requires
        call_ensures(MetaTables::write_meta, (t, v), Ok(())),
    ensures
        ({
            let m = final(t).settings@;
            &&& m[SettingKey::Generator] == encode_utf8(v.generator@)
            &&& m[SettingKey::DatabaseName] == encode_utf8(v.database_name@)
            &&& m[SettingKey::DatabaseDescription] == encode_utf8(v.database_description@)
            &&& m[SettingKey::DefaultUsername] == encode_utf8(v.default_username@)
            &&& m[SettingKey::Color] == encode_utf8(v.color@)
            &&& m[SettingKey::HeaderHash] == encode_utf8(v.header_hash@)
            &&& m[SettingKey::MasterKeyChangeRec] == settings::i64_bytes(v.master_key_change_rec)
            &&& m[SettingKey::MasterKeyChangeForce] == settings::i64_bytes(
                v.master_key_change_force,
            )
            &&& m[SettingKey::HistoryMaxItems] == settings::i32_bytes(v.history_max_items)
            &&& m[SettingKey::HistoryMaxSize] == settings::i64_bytes(v.history_max_size)
            &&& m[SettingKey::MaintenanceHistoryDays] == settings::u32_bytes(
                v.maintenance_history_days,
            )
            &&& m[SettingKey::MemoryProtection].len() == 1
            &&& v.database_name_changed is Some ==> m[SettingKey::DatabaseNameChanged]
                == settings::i64_bytes(v.database_name_changed->0.millis)
            &&& v.database_description_changed is Some
                ==> m[SettingKey::DatabaseDescriptionChanged] == settings::i64_bytes(
                v.database_description_changed->0.millis,
            )
            &&& v.default_username_changed is Some ==> m[SettingKey::DefaultUsernameChanged]
                == settings::i64_bytes(v.default_username_changed->0.millis)
            &&& v.recycle_bin_changed is Some ==> m[SettingKey::RecycleBinChanged]
                == settings::i64_bytes(v.recycle_bin_changed->0.millis)
            &&& v.settings_changed is Some ==> m[SettingKey::SettingsChanged]
                == settings::i64_bytes(v.settings_changed->0.millis)
            &&& v.master_key_changed is Some ==> m[SettingKey::MasterKeyChanged]
                == settings::i64_bytes(v.master_key_changed->0.millis)
        }),
{
    reveal(meta_tables::written);
}

/// The five flags are the five lowest bits of their byte: titles, user names,
/// passwords, URLs, notes.
pub proof fn flags_are_bits(mp: MemoryProtection, b: u8)
    requires
        call_ensures(meta::pack_memory_protection, (mp,), b),
    ensures
        b < 32,
        mp.protect_title <==> b % 2 == 1,
        mp.protect_username <==> b / 2 % 2 == 1,
        mp.protect_password <==> b / 4 % 2 == 1,
        mp.protect_url <==> b / 8 % 2 == 1,
        mp.protect_notes <==> b / 16 % 2 == 1,
{
}

/// Flags are read from the bits that they are packed into.
pub proof fn bits_are_flags(b: u8, mp: MemoryProtection)
    requires
        call_ensures(meta::unpack_memory_protection, (b,), mp),
    ensures
        mp.protect_title <==> b % 2 == 1,
        mp.protect_username <==> b / 2 % 2 == 1,
        mp.protect_password <==> b / 4 % 2 == 1,
        mp.protect_url <==> b / 8 % 2 == 1,
        mp.protect_notes <==> b / 16 % 2 == 1,
{
}

// ------------------------------------------------------------------------ the sheet

/// The bytes that the first rows of the pool have together.
pub open spec fn bytes_in(rows: Seq<BlobRow>, n: nat) -> int
    decreases n,
{
    if n == 0 || n > rows.len() {
        0
    } else {
        bytes_in(rows, (n - 1) as nat) + rows[n - 1].size
    }
}

proof fn bytes_are_summed(rows: Vec<BlobRow>, n: nat)
    requires
        n <= rows@.len(),
    ensures
        properties::total_size(rows.deep_view(), n) == bytes_in(rows@, n),
    decreases n,
{
    assert(rows.deep_view().len() == rows@.len());
    if n > 0 {
        bytes_are_summed(rows, (n - 1) as nat);
        assert(rows.deep_view()[n - 1] == rows@[n - 1].deep_view());
    }
}

/// The sheet of a vault that was taken in shows the program that wrote it, the
/// cipher and the key derivation of its file, and how many files there are.
pub proof fn the_sheet_shows_the_vault(
    en: &mut Engine,
    v: &Vault,
    header: &HeaderFacts,
    session_key: &SessionKey,
    nonces: &mut NonceSource,
    known: Option<KnownCipher>,
    parsed: Option<KdfParams>,
)
    requires
        call_ensures(Engine::ingest_from_kdbx, (en, v, header, session_key, nonces), Ok(())),
    ensures
        forall|r: Result<DatabaseMetadata, EngineError>| #[trigger]
            call_ensures(Engine::database_metadata, (&*final(en), known, parsed), r) ==> {
                let pool = final(en).mirror.blobs@;
                &&& r is Err ==> exists|n: nat|
                    n <= pool.len() && !(i64::MIN <= #[trigger] bytes_in(pool, n) <= i64::MAX)
                &&& r is Ok ==> {
                    let d = r->Ok_0;
                    &&& d.generator@ == v.meta.generator@
                    &&& known == Some(KnownCipher::Aes256Cbc) ==> d.cipher_display@
                        == "AES-256-CBC"@
                    &&& known == Some(KnownCipher::ChaCha20) ==> d.cipher_display@ == "ChaCha20"@
                    &&& known == Some(KnownCipher::TwofishCbc) ==> d.cipher_display@
                        == "Twofish-CBC"@
                    &&& known is None ==> d.cipher_display@ == "Unknown"@
                    &&& header.kdf_params is Some && parsed is Some ==> is_kdf_line(
                        d.kdf_display@,
                        parsed->0,
                    )
                    &&& (header.kdf_params is None || parsed is None)
                        && header.transform_rounds is Some ==> d.kdf_display@ == "AES-KDF ("@
                        + text::thousands_of(header.transform_rounds->0 as nat) + " rounds)"@
                    &&& (header.kdf_params is None || parsed is None)
                        && header.transform_rounds is None ==> d.kdf_display@ == "Unknown KDF"@
                    &&& pool.len() <= u32::MAX ==> d.attachment_total_count == pool.len()
                    &&& pool.len() > u32::MAX ==> d.attachment_total_count == u32::MAX
                    &&& bytes_in(pool, pool.len()) < 0 ==> d.attachment_total_bytes == 0
                    &&& bytes_in(pool, pool.len()) >= 0 ==> d.attachment_total_bytes == bytes_in(
                        pool,
                        pool.len(),
                    )
                }
            },
{
    reveal(meta_tables::written);
    let m = final(en).tables.settings@;
    let pool = final(en).mirror.blobs;
    codec::utf8_reads_back(v.meta.generator@);
    assert(m[SettingKey::Generator] == encode_utf8(v.meta.generator@));
    assert(m[SettingKey::KdbxCipherOid] == header.cipher_id@);
    assert(header.cipher_id@.len() == 16);
    if let Some(n) = header.transform_rounds {
        settings::u64_reads_back(n);
        assert(m[SettingKey::KdbxTransformRounds] == settings::le_bytes(n as nat, 8));
    } else {
        assert(!m.contains_key(SettingKey::KdbxTransformRounds));
    }
    assert(m.contains_key(SettingKey::KdbxKdfParameters) <==> header.kdf_params is Some);
    bytes_are_summed(pool, pool@.len());
    assert forall|n: nat| n <= pool@.len() implies #[trigger] properties::total_size(
        pool.deep_view(),
        n,
    ) == bytes_in(pool@, n) by {
        bytes_are_summed(pool, n);
    }
    assert(pool.deep_view().len() == pool@.len());
    assert forall|r: Result<DatabaseMetadata, EngineError>| #[trigger]
        call_ensures(Engine::database_metadata, (&*final(en), known, parsed), r) && r
            is Err implies exists|n: nat|
        n <= pool@.len() && !(i64::MIN <= #[trigger] bytes_in(pool@, n) <= i64::MAX) by {
        assert(!properties::summable(pool.deep_view()));
        let n = choose|n: nat|
            n <= pool.deep_view().len() && !(i64::MIN <= #[trigger] properties::total_size(
                pool.deep_view(),
                n,
            ) <= i64::MAX);
        assert(bytes_in(pool@, n) == properties::total_size(pool.deep_view(), n));
    }
}

/// Whether a line is that of the parameters of a key derivation: the rounds, or
/// the memory in megabytes, the iterations and the threads.
pub open spec fn is_kdf_line(line: Seq<char>, p: KdfParams) -> bool {
    match p {
        KdfParams::AesKdf { rounds } => line == "AES-KDF ("@ + text::thousands_of(rounds as nat)
            + " rounds)"@,
        KdfParams::Argon2 { variant, memory_bytes, iterations, parallelism } => {
            let name = match variant {
                Argon2Variant::Argon2d => "Argon2d"@,
                Argon2Variant::Argon2id => "Argon2id"@,
                Argon2Variant::Other => "Argon2"@,
            };
            exists|megabytes: nat|
                megabytes * 1048576 <= memory_bytes < (megabytes + 1) * 1048576 && line == name
                    + " ("@ + #[trigger] text::decimal_of(megabytes) + " MB \u{00B7} "@
                    + text::decimal_of(iterations as nat) + " iter \u{00B7} "@ + text::decimal_of(
                    parallelism as nat,
                ) + " threads)"@
        },
        KdfParams::Other => line == "Unknown KDF"@,
    }
}

/// The line of a key derivation names its parameters.
pub proof fn a_derivation_is_described(p: &KdfParams, r: String)
    requires
        call_ensures(properties::format_kdf_params, (p,), r),
    ensures
        is_kdf_line(r@, *p),
{
    if let KdfParams::Argon2 { variant, memory_bytes, iterations, parallelism } = *p {
        let megabytes = (memory_bytes / 1048576) as nat;
        assert(megabytes * 1048576 <= memory_bytes < (megabytes + 1) * 1048576);
        assert(text::decimal_of(megabytes) == text::decimal_of(megabytes));
    }
}

} // verus!
