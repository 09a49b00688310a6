//! The tables that hold a vault's metadata.

use vstd::prelude::*;
use vstd::utf8::*;

use crate::codec;
use crate::error::EngineError;
use crate::meta;
use crate::meta::{IconRow, IconRowView, IconView, Meta, MetaView, UnknownView, UnknownXmlRecord};
use crate::order;
use crate::order::TextKeyed;
use crate::rows;
use crate::rows::CustomDataRow;
use crate::settings;
use crate::settings::{SettingKey, SettingTable};
use crate::text;
use crate::time;
use crate::time::Timestamp;
use crate::vault::CustomDataView;

verus! {

/// The tables that hold a vault's metadata.
#[derive(Debug)]
pub struct MetaTables {
    /// Scalar settings.
    pub settings: SettingTable,
    /// Elements the decoder did not know, encoded; absent where never stored.
    pub unknown_xml: Option<Vec<UnknownXmlRecord>>,
    /// The pool of icons.
    pub icons: Vec<IconRow>,
    /// Client-specific data.
    pub custom_data: Vec<CustomDataRow>,
}

/// The settings after a vault's metadata was written over them.
#[verifier::opaque]
pub open spec fn written(m: Map<SettingKey, Seq<u8>>, v: MetaView) -> Map<SettingKey, Seq<u8>> {
    with_numbers(with_instants(with_texts(m, v), v), v).insert(
        SettingKey::MemoryProtection,
        seq![meta::packed(v.memory_protection)],
    )
}

/// The settings with the texts written.
pub open spec fn with_texts(m: Map<SettingKey, Seq<u8>>, v: MetaView) -> Map<SettingKey, Seq<u8>> {
    m
        .insert(SettingKey::Generator, encode_utf8(v.generator))
        .insert(SettingKey::DatabaseName, encode_utf8(v.database_name))
        .insert(SettingKey::DatabaseDescription, encode_utf8(v.database_description))
        .insert(SettingKey::DefaultUsername, encode_utf8(v.default_username))
        .insert(SettingKey::Color, encode_utf8(v.color))
        .insert(SettingKey::HeaderHash, encode_utf8(v.header_hash))
}

/// The settings with the instants written, and without rows for absent ones.
pub open spec fn with_instants(m: Map<SettingKey, Seq<u8>>, v: MetaView) -> Map<SettingKey, Seq<u8>> {
    let m1 = settings::with_instant(m, SettingKey::DatabaseNameChanged, v.database_name_changed);
    let m2 = settings::with_instant(
        m1,
        SettingKey::DatabaseDescriptionChanged,
        v.database_description_changed,
    );
    let m3 = settings::with_instant(
        m2,
        SettingKey::DefaultUsernameChanged,
        v.default_username_changed,
    );
    let m4 = settings::with_instant(m3, SettingKey::RecycleBinChanged, v.recycle_bin_changed);
    let m5 = settings::with_instant(m4, SettingKey::SettingsChanged, v.settings_changed);
    settings::with_instant(m5, SettingKey::MasterKeyChanged, v.master_key_changed)
}

/// The settings with the numbers written.
pub open spec fn with_numbers(m: Map<SettingKey, Seq<u8>>, v: MetaView) -> Map<SettingKey, Seq<u8>> {
    m
        .insert(SettingKey::MasterKeyChangeRec, settings::i64_bytes(v.master_key_change_rec))
        .insert(SettingKey::MasterKeyChangeForce, settings::i64_bytes(v.master_key_change_force))
        .insert(SettingKey::HistoryMaxItems, settings::i32_bytes(v.history_max_items))
        .insert(SettingKey::HistoryMaxSize, settings::i64_bytes(v.history_max_size))
        .insert(SettingKey::MaintenanceHistoryDays, settings::u32_bytes(v.maintenance_history_days))
}

/// What a setting is read as where it may be absent.
pub open spec fn or_else<T>(read: Result<Option<T>, Seq<char>>, base: T) -> T {
    match read {
        Ok(Some(v)) => v,
        _ => base,
    }
}

/// What is wrong with a value, if anything.
pub open spec fn fault<T>(read: Result<T, Seq<char>>) -> Option<Seq<char>> {
    match read {
        Ok(_) => None,
        Err(e) => Some(e),
    }
}

/// The first of two faults.
pub open spec fn first_of(a: Option<Seq<char>>, b: Option<Seq<char>>) -> Option<Seq<char>> {
    if a is Some {
        a
    } else {
        b
    }
}

/// The unknown elements as they decode.
pub open spec fn unknown_in(t: MetaTables) -> Result<Option<Seq<UnknownView>>, Seq<char>> {
    match t.unknown_xml {
        None => Ok(None),
        Some(records) => match meta::unknown_decoded(records.deep_view(), records@.len()) {
            Ok(v) => Ok(Some(v)),
            Err(e) => Err("meta.unknown_xml: "@ + e),
        },
    }
}

/// The pool of icons as it reads.
pub open spec fn icons_in(t: MetaTables) -> Result<Seq<IconView>, Seq<char>> {
    let sorted = meta::icon_views(order::sorted_of(t.icons@));
    meta::icons_of_rows(sorted, sorted.len())
}

/// The first fault among the texts.
pub open spec fn text_fault(m: Map<SettingKey, Seq<u8>>) -> Option<Seq<char>> {
    first_of(
        fault(settings::text_in(m, SettingKey::Generator)),
        first_of(
            fault(settings::text_in(m, SettingKey::DatabaseName)),
            first_of(
                fault(settings::text_in(m, SettingKey::DatabaseDescription)),
                first_of(
                    fault(settings::text_in(m, SettingKey::DefaultUsername)),
                    first_of(
                        fault(settings::text_in(m, SettingKey::Color)),
                        fault(settings::text_in(m, SettingKey::HeaderHash)),
                    ),
                ),
            ),
        ),
    )
}

/// The first fault among the instants.
pub open spec fn instant_fault(m: Map<SettingKey, Seq<u8>>) -> Option<Seq<char>> {
    first_of(
        fault(settings::instant_in(m, SettingKey::DatabaseNameChanged)),
        first_of(
            fault(settings::instant_in(m, SettingKey::DatabaseDescriptionChanged)),
            first_of(
                fault(settings::instant_in(m, SettingKey::DefaultUsernameChanged)),
                first_of(
                    fault(settings::instant_in(m, SettingKey::RecycleBinChanged)),
                    first_of(
                        fault(settings::instant_in(m, SettingKey::SettingsChanged)),
                        fault(settings::instant_in(m, SettingKey::MasterKeyChanged)),
                    ),
                ),
            ),
        ),
    )
}

/// The first fault among the numbers.
pub open spec fn number_fault(m: Map<SettingKey, Seq<u8>>) -> Option<Seq<char>> {
    first_of(
        fault(settings::i64_in(m, SettingKey::MasterKeyChangeRec)),
        first_of(
            fault(settings::i64_in(m, SettingKey::MasterKeyChangeForce)),
            first_of(
                fault(settings::i32_in(m, SettingKey::HistoryMaxItems)),
                first_of(
                    fault(settings::i64_in(m, SettingKey::HistoryMaxSize)),
                    fault(settings::u32_in(m, SettingKey::MaintenanceHistoryDays)),
                ),
            ),
        ),
    )
}

/// What is wrong with the stored metadata, if anything: the first fault in the
/// order of reading.
pub open spec fn meta_fault(t: MetaTables) -> Option<Seq<char>> {
    let m = t.settings@;
    first_of(
        text_fault(m),
        first_of(
            instant_fault(m),
            first_of(number_fault(m), first_of(fault(unknown_in(t)), fault(icons_in(t)))),
        ),
    )
}

/// The flags in the memory-protection row; a row of the wrong length is not
/// looked at.
pub open spec fn protection_in(m: Map<SettingKey, Seq<u8>>, base: meta::MemoryProtection) -> meta::MemoryProtection {
    if m.contains_key(SettingKey::MemoryProtection) && m[SettingKey::MemoryProtection].len() == 1 {
        meta::unpacked(m[SettingKey::MemoryProtection][0])
    } else {
        base
    }
}

/// The stored texts laid over `base`.
pub open spec fn texts_over(m: Map<SettingKey, Seq<u8>>, base: MetaView) -> MetaView {
    MetaView {
        generator: or_else(settings::text_in(m, SettingKey::Generator), base.generator),
        database_name: or_else(settings::text_in(m, SettingKey::DatabaseName), base.database_name),
        database_description: or_else(settings::text_in(m, SettingKey::DatabaseDescription), base.database_description),
        default_username: or_else(settings::text_in(m, SettingKey::DefaultUsername), base.default_username),
        color: or_else(settings::text_in(m, SettingKey::Color), base.color),
        header_hash: or_else(settings::text_in(m, SettingKey::HeaderHash), base.header_hash),
        ..base
    }
}

/// The stored instants in place of those of `base`: without a row an instant was
/// never set.
pub open spec fn instants_over(m: Map<SettingKey, Seq<u8>>, base: MetaView) -> MetaView {
    MetaView {
        database_name_changed: settings::instant_in(m, SettingKey::DatabaseNameChanged)->Ok_0,
        database_description_changed: settings::instant_in(m, SettingKey::DatabaseDescriptionChanged)->Ok_0,
        default_username_changed: settings::instant_in(m, SettingKey::DefaultUsernameChanged)->Ok_0,
        recycle_bin_changed: settings::instant_in(m, SettingKey::RecycleBinChanged)->Ok_0,
        settings_changed: settings::instant_in(m, SettingKey::SettingsChanged)->Ok_0,
        master_key_changed: settings::instant_in(m, SettingKey::MasterKeyChanged)->Ok_0,
        ..base
    }
}

/// The stored numbers laid over `base`.
pub open spec fn numbers_over(m: Map<SettingKey, Seq<u8>>, base: MetaView) -> MetaView {
    MetaView {
        master_key_change_rec: or_else(settings::i64_in(m, SettingKey::MasterKeyChangeRec), base.master_key_change_rec),
        master_key_change_force: or_else(settings::i64_in(m, SettingKey::MasterKeyChangeForce), base.master_key_change_force),
        history_max_items: or_else(settings::i32_in(m, SettingKey::HistoryMaxItems), base.history_max_items),
        history_max_size: or_else(settings::i64_in(m, SettingKey::HistoryMaxSize), base.history_max_size),
        maintenance_history_days: or_else(settings::u32_in(m, SettingKey::MaintenanceHistoryDays), base.maintenance_history_days),
        ..base
    }
}

/// The stored metadata laid over `base`: a field without a row keeps its value,
/// except that an absent instant means that it was never set.
pub open spec fn read_over(t: MetaTables, base: MetaView) -> MetaView {
    let m = t.settings@;
    MetaView {
        memory_protection: protection_in(m, base.memory_protection),
        unknown_xml: or_else(unknown_in(t), base.unknown_xml),
        custom_icons: icons_in(t)->Ok_0,
        custom_data: meta::items_of_rows(order::sorted_of(t.custom_data@)),
        ..numbers_over(m, instants_over(m, texts_over(m, base)))
    }
}

/// Whether the rows' identities parse to those of the icons.
pub open spec fn identities_parse(stored: Seq<IconRow>, icons: Seq<IconView>) -> bool {
    &&& stored.len() == icons.len()
    &&& forall|i: int|
        0 <= i < icons.len() ==> codec::uuid_parsed((#[trigger] stored[i]).uuid@) is Ok
            && codec::uuid_parsed(stored[i].uuid@)->Ok_0 == icons[i].uuid
}

fn build_icon_rows(icons: &Vec<meta::CustomIcon>) -> (r: Result<Vec<IconRow>, EngineError>)
    ensures
        r is Ok <==> meta::distinct_icons(icons.deep_view()),
        r is Ok ==> meta::icon_views(r->Ok_0@) == meta::icon_rows(icons.deep_view()),
        r is Ok ==> identities_parse(r->Ok_0@, icons.deep_view()),
        r is Err ==> rows::is_constraint(r->Err_0),
{
    let ghost iv = icons.deep_view();
    let mut out: Vec<IconRow> = Vec::new();
    let mut i: usize = 0;
    while i < icons.len()
        invariant
            i <= icons.len(),
            iv == icons.deep_view(),
            meta::icon_views(out@) == meta::icon_rows(iv).take(i as int),
            identities_parse(out@, iv.take(i as int)),
            meta::distinct_icons(iv.take(i as int)),
        decreases icons.len() - i,
    {
        let mut j: usize = 0;
        while j < i
            invariant
                j <= i < icons.len(),
                iv == icons.deep_view(),
                forall|k: int| 0 <= k < j ==> (#[trigger] iv[k]).uuid != iv[i as int].uuid,
            decreases i - j,
        {
            if icons[j].uuid == icons[i].uuid {
                proof {
                    assert(iv[j as int].uuid == iv[i as int].uuid);
                }
                return Err(rows::constraint_error());
            }
            j = j + 1;
        }
        let icon = &icons[i];
        let ghost before = meta::icon_views(out@);
        let ghost before_rows = out@;
        out.push(
            IconRow {
                uuid: codec::uuid_to_string(icon.uuid),
                name: icon.name.clone(),
                bytes: rows::copy_bytes(icon.data.as_slice()),
                last_modified_at: time::optional_dt_to_ms(icon.last_modified),
            },
        );
        proof {
            assert(iv[i as int] == icon.deep_view());
            assert(meta::icon_views(out@) =~= before.push(meta::icon_row(iv[i as int])));
            assert(meta::icon_views(out@) =~= meta::icon_rows(iv).take(i + 1));
            assert forall|k: int| 0 <= k < i + 1 implies codec::uuid_parsed(
                (#[trigger] out@[k]).uuid@,
            ) is Ok && codec::uuid_parsed(out@[k].uuid@)->Ok_0 == iv.take(i + 1)[k].uuid by {
                if k < i {
                    assert(out@[k] == before_rows[k]);
                    assert(iv.take(i as int)[k] == iv[k]);
                }
            }
            assert forall|a: int, b: int| 0 <= a < b < i + 1 implies #[trigger] iv.take(
                i + 1,
            )[a].uuid != #[trigger] iv.take(i + 1)[b].uuid by {
                if b < i {
                    assert(iv.take(i as int)[a].uuid != iv.take(i as int)[b].uuid);
                } else {
                    assert(iv[a].uuid != iv[i as int].uuid);
                }
            }
        }
        i = i + 1;
    }
    proof {
        assert(meta::icon_rows(iv).take(iv.len() as int) =~= meta::icon_rows(iv));
        assert(iv.take(iv.len() as int) =~= iv);
    }
    Ok(out)
}

impl MetaTables {
    /// Whether the settings' keys are distinct.
    pub open spec fn wf(self) -> bool {
        self.settings.wf()
    }

    /// Empty tables.
    pub fn new() -> (r: MetaTables)
        ensures
            r.wf(),
            r.settings@ == Map::<SettingKey, Seq<u8>>::empty(),
            r.unknown_xml is None,
            r.icons@.len() == 0,
            r.custom_data@.len() == 0,
    {
        MetaTables {
            settings: SettingTable::new(),
            unknown_xml: None,
            icons: Vec::new(),
            custom_data: Vec::new(),
        }
    }

    /// Writes a vault's metadata into cleared tables. Settings that the metadata
    /// does not cover stay. Refused, with nothing changed, when two icons share
    /// an identity or two items a key.
    pub fn write_meta(&mut self, v: &Meta) -> (r: Result<(), EngineError>)
        requires
            old(self).wf(),
            old(self).icons@.len() == 0,
            old(self).custom_data@.len() == 0,
            meta::encodable(v.deep_view().unknown_xml),
        ensures
            final(self).wf(),
            r is Ok <==> meta::distinct_icons(v.deep_view().custom_icons) && rows::distinct_keys(
                v.deep_view().custom_data,
            ),
            r is Err ==> rows::is_constraint(r->Err_0) && *final(self) == *old(self),
            r is Ok ==> {
                &&& final(self).settings@ == written(old(self).settings@, v.deep_view())
                &&& final(self).unknown_xml is Some
                &&& meta::encodes(
                    final(self).unknown_xml->0.deep_view(),
                    v.deep_view().unknown_xml,
                )
                &&& unknown_in(*final(self)) == Ok::<Option<Seq<UnknownView>>, Seq<char>>(
                    Some(v.deep_view().unknown_xml),
                )
                &&& meta::icon_views(final(self).icons@) == meta::icon_rows(
                    v.deep_view().custom_icons,
                )
                &&& identities_parse(final(self).icons@, v.deep_view().custom_icons)
                &&& final(self).custom_data.deep_view() == rows::custom_data_rows(
                    v.deep_view().custom_data,
                )
            },
    {
        let icons = build_icon_rows(&v.custom_icons)?;
        let custom_data = rows::build_custom_data(&v.custom_data)?;
        self.settings.set_text(SettingKey::Generator, v.generator.as_str());
        self.settings.set_text(SettingKey::DatabaseName, v.database_name.as_str());
        self.settings.set_text(SettingKey::DatabaseDescription, v.database_description.as_str());
        self.settings.set_text(SettingKey::DefaultUsername, v.default_username.as_str());
        self.settings.set_text(SettingKey::Color, v.color.as_str());
        self.settings.set_text(SettingKey::HeaderHash, v.header_hash.as_str());
        self.settings.set_optional_timestamp(SettingKey::DatabaseNameChanged, v.database_name_changed);
        self.settings.set_optional_timestamp(SettingKey::DatabaseDescriptionChanged, v.database_description_changed);
        self.settings.set_optional_timestamp(SettingKey::DefaultUsernameChanged, v.default_username_changed);
        self.settings.set_optional_timestamp(SettingKey::RecycleBinChanged, v.recycle_bin_changed);
        self.settings.set_optional_timestamp(SettingKey::SettingsChanged, v.settings_changed);
        self.settings.set_optional_timestamp(SettingKey::MasterKeyChanged, v.master_key_changed);
        self.settings.set_i64(SettingKey::MasterKeyChangeRec, v.master_key_change_rec);
        self.settings.set_i64(SettingKey::MasterKeyChangeForce, v.master_key_change_force);
        self.settings.set_i32(SettingKey::HistoryMaxItems, v.history_max_items);
        self.settings.set_i64(SettingKey::HistoryMaxSize, v.history_max_size);
        self.settings.set_u32(SettingKey::MaintenanceHistoryDays, v.maintenance_history_days);
        let mut flags: Vec<u8> = Vec::new();
        flags.push(meta::pack_memory_protection(v.memory_protection));
        assert(flags@ =~= seq![meta::packed(v.memory_protection)]);
        self.settings.set_blob(SettingKey::MemoryProtection, flags);
        proof {
            reveal(written);
        }
        self.unknown_xml = Some(meta::serialise_unknown_xml(&v.unknown_xml));
        self.icons = icons;
        self.custom_data = custom_data;
        Ok(())
    }

    fn read_texts(&self, v: Meta) -> (r: Result<Meta, EngineError>)
        requires
            self.wf(),
        ensures
            match r {
                Ok(out) => text_fault(self.settings@) is None && out.deep_view() == texts_over(
                    self.settings@,
                    v.deep_view(),
                ),
                Err(e) => text_fault(self.settings@) is Some && settings::reports_invariant(
                    e,
                    text_fault(self.settings@)->0,
                ),
            },
    {
        let mut v = v;
        if let Some(x) = self.settings.get_text(SettingKey::Generator)? {
            v.generator = x;
        }
        if let Some(x) = self.settings.get_text(SettingKey::DatabaseName)? {
            v.database_name = x;
        }
        if let Some(x) = self.settings.get_text(SettingKey::DatabaseDescription)? {
            v.database_description = x;
        }
        if let Some(x) = self.settings.get_text(SettingKey::DefaultUsername)? {
            v.default_username = x;
        }
        if let Some(x) = self.settings.get_text(SettingKey::Color)? {
            v.color = x;
        }
        if let Some(x) = self.settings.get_text(SettingKey::HeaderHash)? {
            v.header_hash = x;
        }
        Ok(v)
    }

    fn read_instants(&self, v: Meta) -> (r: Result<Meta, EngineError>)
        requires
            self.wf(),
        ensures
            match r {
                Ok(out) => instant_fault(self.settings@) is None && out.deep_view() == instants_over(
                    self.settings@,
                    v.deep_view(),
                ),
                Err(e) => instant_fault(self.settings@) is Some && settings::reports_invariant(
                    e,
                    instant_fault(self.settings@)->0,
                ),
            },
    {
        let mut v = v;
        v.database_name_changed = self.settings.get_optional_timestamp(SettingKey::DatabaseNameChanged)?;
        v.database_description_changed = self.settings.get_optional_timestamp(SettingKey::DatabaseDescriptionChanged)?;
        v.default_username_changed = self.settings.get_optional_timestamp(SettingKey::DefaultUsernameChanged)?;
        v.recycle_bin_changed = self.settings.get_optional_timestamp(SettingKey::RecycleBinChanged)?;
        v.settings_changed = self.settings.get_optional_timestamp(SettingKey::SettingsChanged)?;
        v.master_key_changed = self.settings.get_optional_timestamp(SettingKey::MasterKeyChanged)?;
        Ok(v)
    }

    fn read_numbers(&self, v: Meta) -> (r: Result<Meta, EngineError>)
        requires
            self.wf(),
        ensures
            match r {
                Ok(out) => number_fault(self.settings@) is None && out.deep_view() == numbers_over(
                    self.settings@,
                    v.deep_view(),
                ),
                Err(e) => number_fault(self.settings@) is Some && settings::reports_invariant(
                    e,
                    number_fault(self.settings@)->0,
                ),
            },
    {
        let mut v = v;
        if let Some(x) = self.settings.get_i64(SettingKey::MasterKeyChangeRec)? {
            v.master_key_change_rec = x;
        }
        if let Some(x) = self.settings.get_i64(SettingKey::MasterKeyChangeForce)? {
            v.master_key_change_force = x;
        }
        if let Some(x) = self.settings.get_i32(SettingKey::HistoryMaxItems)? {
            v.history_max_items = x;
        }
        if let Some(x) = self.settings.get_i64(SettingKey::HistoryMaxSize)? {
            v.history_max_size = x;
        }
        if let Some(x) = self.settings.get_u32(SettingKey::MaintenanceHistoryDays)? {
            v.maintenance_history_days = x;
        }
        Ok(v)
    }

    /// Reads the stored metadata over `v`.
    pub fn read_meta_into(&self, v: Meta) -> (r: Result<Meta, EngineError>)
        requires
            self.wf(),
        ensures
            match r {
                Ok(out) => meta_fault(*self) is None && out.deep_view() == read_over(
                    *self,
                    v.deep_view(),
                ),
                Err(e) => meta_fault(*self) is Some && settings::reports_invariant(
                    e,
                    meta_fault(*self)->0,
                ),
            },
    {
        let v = self.read_texts(v)?;
        let v = self.read_instants(v)?;
        let mut v = self.read_numbers(v)?;
        if let Some(b) = self.settings.get_blob(SettingKey::MemoryProtection) {
            if b.len() == 1 {
                v.memory_protection = meta::unpack_memory_protection(b[0]);
            }
        }
        if let Some(records) = &self.unknown_xml {
            match meta::deserialise_unknown_xml(records) {
                Ok(elements) => {
                    v.unknown_xml = elements;
                },
                Err(e) => {
                    return Err(
                        settings::invariant_error(text::joined("meta.unknown_xml: ", e.as_str())),
                    );
                },
            }
        }
        v.custom_icons = meta::read_custom_icons(&self.icons)?;
        v.custom_data = meta::read_custom_data(&self.custom_data);
        Ok(v)
    }
}

// -------------------------------------------------------------- reading back

/// An instant without what lies below a millisecond.
pub open spec fn whole_millis(t: Option<Timestamp>) -> Option<Timestamp> {
    match t {
        Some(t) => Some(Timestamp { millis: t.millis, nanos: 0 }),
        None => None,
    }
}

/// Whether an instant lies within the calendar.
pub open spec fn in_calendar(t: Option<Timestamp>) -> bool {
    t is Some ==> time::MIN_MILLIS <= t->0.millis <= time::MAX_MILLIS
}

/// Whether the instants among a vault's settings lie within the calendar.
pub open spec fn dated(v: MetaView) -> bool {
    &&& in_calendar(v.database_name_changed)
    &&& in_calendar(v.database_description_changed)
    &&& in_calendar(v.default_username_changed)
    &&& in_calendar(v.recycle_bin_changed)
    &&& in_calendar(v.settings_changed)
    &&& in_calendar(v.master_key_changed)
}

proof fn instant_reads_back(m: Map<SettingKey, Seq<u8>>, key: SettingKey, t: Option<Timestamp>)
    requires
        m == settings::with_instant(m, key, t),
        in_calendar(t),
    ensures
        settings::instant_in(m, key) == Ok::<Option<Timestamp>, Seq<char>>(whole_millis(t)),
{
    match t {
        Some(dt) => {
            settings::i64_reads_back(dt.millis);
            assert(m.insert(key, settings::i64_bytes(dt.millis)).contains_key(key));
            assert(m[key] == settings::i64_bytes(dt.millis));
        },
        None => {
            assert(!m.remove(key).contains_key(key));
        },
    }
}

proof fn text_reads_back(m: Map<SettingKey, Seq<u8>>, key: SettingKey, s: Seq<char>)
    requires
        m.contains_key(key),
        m[key] == encode_utf8(s),
    ensures
        settings::text_in(m, key) == Ok::<Option<Seq<char>>, Seq<char>>(Some(s)),
{
    codec::utf8_reads_back(s);
}

/// What was written reads back: every scalar as it was, and instants to the
/// millisecond, whatever the settings held before.
pub proof fn metadata_reads_back(t: MetaTables, m: Map<SettingKey, Seq<u8>>, v: MetaView, base: MetaView)
    requires
        t.settings@ == written(m, v),
        unknown_in(t) == Ok::<Option<Seq<UnknownView>>, Seq<char>>(Some(v.unknown_xml)),
        dated(v),
    ensures
        meta_fault(t) == fault(icons_in(t)),
        read_over(t, base) == (MetaView {
            database_name_changed: whole_millis(v.database_name_changed),
            database_description_changed: whole_millis(v.database_description_changed),
            default_username_changed: whole_millis(v.default_username_changed),
            recycle_bin_changed: whole_millis(v.recycle_bin_changed),
            settings_changed: whole_millis(v.settings_changed),
            master_key_changed: whole_millis(v.master_key_changed),
            custom_icons: icons_in(t)->Ok_0,
            custom_data: meta::items_of_rows(order::sorted_of(t.custom_data@)),
            recycle_bin_uuid: base.recycle_bin_uuid,
            recycle_bin_enabled: base.recycle_bin_enabled,
            ..v
        }),
{
    reveal(written);
    let w = t.settings@;
    text_reads_back(w, SettingKey::Generator, v.generator);
    text_reads_back(w, SettingKey::DatabaseName, v.database_name);
    text_reads_back(w, SettingKey::DatabaseDescription, v.database_description);
    text_reads_back(w, SettingKey::DefaultUsername, v.default_username);
    text_reads_back(w, SettingKey::Color, v.color);
    text_reads_back(w, SettingKey::HeaderHash, v.header_hash);
    written_instant(m, v, SettingKey::DatabaseNameChanged, v.database_name_changed);
    written_instant(m, v, SettingKey::DatabaseDescriptionChanged, v.database_description_changed);
    written_instant(m, v, SettingKey::DefaultUsernameChanged, v.default_username_changed);
    written_instant(m, v, SettingKey::RecycleBinChanged, v.recycle_bin_changed);
    written_instant(m, v, SettingKey::SettingsChanged, v.settings_changed);
    written_instant(m, v, SettingKey::MasterKeyChanged, v.master_key_changed);
    settings::i64_reads_back(v.master_key_change_rec);
    settings::i64_reads_back(v.master_key_change_force);
    settings::i32_reads_back(v.history_max_items);
    settings::i64_reads_back(v.history_max_size);
    settings::u32_reads_back(v.maintenance_history_days);
    meta::memory_protection_reads_back(v.memory_protection);
}

proof fn written_instant(m: Map<SettingKey, Seq<u8>>, v: MetaView, key: SettingKey, t: Option<Timestamp>)
    requires
        in_calendar(t),
        ({
            ||| key == SettingKey::DatabaseNameChanged && t == v.database_name_changed
            ||| key == SettingKey::DatabaseDescriptionChanged && t == v.database_description_changed
            ||| key == SettingKey::DefaultUsernameChanged && t == v.default_username_changed
            ||| key == SettingKey::RecycleBinChanged && t == v.recycle_bin_changed
            ||| key == SettingKey::SettingsChanged && t == v.settings_changed
            ||| key == SettingKey::MasterKeyChanged && t == v.master_key_changed
        }),
    ensures
        settings::instant_in(written(m, v), key) == Ok::<Option<Timestamp>, Seq<char>>(
            whole_millis(t),
        ),
{
    reveal(written);
    let w = written(m, v);
    assert(w.contains_key(key) == t is Some);
    assert(t is Some ==> w[key] == settings::i64_bytes(t->0.millis));
    assert(w =~= settings::with_instant(w, key, t));
    instant_reads_back(w, key, t);
}

/// An icon as it reads back.
pub open spec fn stored_icon(icon: IconView) -> IconView {
    IconView { last_modified: whole_millis(icon.last_modified), ..icon }
}

proof fn icons_all_read(s: Seq<IconRowView>, n: nat)
    requires
        n <= s.len(),
        forall|i: int| 0 <= i < s.len() ==> meta::icon_of_row(#[trigger] s[i]) is Ok,
    ensures
        meta::icons_of_rows(s, n) is Ok,
        meta::icons_of_rows(s, n)->Ok_0.len() == n,
        forall|i: int|
            0 <= i < n ==> #[trigger] meta::icons_of_rows(s, n)->Ok_0[i] == meta::icon_of_row(
                s[i],
            )->Ok_0,
    decreases n,
{
    if n > 0 {
        icons_all_read(s, (n - 1) as nat);
        assert(meta::icon_of_row(s[n - 1]) is Ok);
    }
}

/// Whether a list holds icons as they read back, each once and in the order of
/// their identities.
pub open spec fn lists_icons(out: Seq<IconView>, icons: Seq<IconView>) -> bool {
    &&& out.len() == icons.len()
    &&& forall|i: int| 0 <= i < icons.len() ==> out.contains(stored_icon(#[trigger] icons[i]))
    &&& order::in_order(out, |a: IconView, b: IconView| a.uuid < b.uuid)
}

/// An item as it reads back.
pub open spec fn stored_item(item: CustomDataView) -> CustomDataView {
    CustomDataView { last_modified: whole_millis(item.last_modified), ..item }
}

/// Whether a list holds items as they read back, each once and in the order of
/// their keys.
pub open spec fn lists_items(out: Seq<CustomDataView>, items: Seq<CustomDataView>) -> bool {
    &&& out.len() == items.len()
    &&& forall|i: int| 0 <= i < items.len() ==> out.contains(stored_item(#[trigger] items[i]))
    &&& order::in_order(
        out,
        |a: CustomDataView, b: CustomDataView| order::text_before(a.key, b.key),
    )
}

/// The pool of icons reads back: as many icons as were written, each of them
/// among those read, its time to the millisecond, in the order of the
/// identities.
pub proof fn icons_read_back(t: MetaTables, icons: Seq<IconView>)
    requires
        meta::icon_views(t.icons@) == meta::icon_rows(icons),
        identities_parse(t.icons@, icons),
        meta::distinct_icons(icons),
        forall|i: int| 0 <= i < icons.len() ==> in_calendar((#[trigger] icons[i]).last_modified),
    ensures
        icons_in(t) is Ok,
        lists_icons(icons_in(t)->Ok_0, icons),
{
    let stored = t.icons@;
    let sorted = order::sorted_of(stored);
    let sv = meta::icon_views(sorted);
    order::sorting_orders_and_keeps(stored);
    assert forall|i: int| 0 <= i < sv.len() implies meta::icon_of_row(#[trigger] sv[i]) is Ok by {
        same_rows(sorted, stored, i);
        let j = choose|j: int| 0 <= j < stored.len() && stored[j] == sorted[i];
        assert(codec::uuid_parsed(stored[j].uuid@) is Ok);
    }
    icons_all_read(sv, sv.len());
    let out = icons_in(t)->Ok_0;
    assert forall|i: int| 0 <= i < icons.len() implies out.contains(
        stored_icon(#[trigger] icons[i]),
    ) by {
        same_rows(stored, sorted, i);
        let j = choose|j: int| 0 <= j < sorted.len() && sorted[j] == stored[i];
        assert(meta::icon_views(stored)[i] == meta::icon_rows(icons)[i]);
        assert(sv[j] == meta::icon_row(icons[i]));
        assert(codec::uuid_parsed(stored[i].uuid@)->Ok_0 == icons[i].uuid);
        assert(out[j] =~= stored_icon(icons[i]));
    }
    assert forall|i: int, j: int| 0 <= i < j < stored.len() implies (
    #[trigger] stored[i]).text_key() != (#[trigger] stored[j]).text_key() by {
        assert(icons[i].uuid != icons[j].uuid);
    }
    order::sorting_is_strict(stored);
    assert forall|i: int, j: int| 0 <= i < j < out.len() implies (#[trigger] out[i]).uuid < (
    #[trigger] out[j]).uuid by {
        read_identity(t, icons, i);
        read_identity(t, icons, j);
        order::identity_texts_keep_order(out[i].uuid, out[j].uuid);
        assert(order::text_before(sorted[i].text_key(), sorted[j].text_key()));
    }
}

proof fn read_identity(t: MetaTables, icons: Seq<IconView>, i: int)
    requires
        meta::icon_views(t.icons@) == meta::icon_rows(icons),
        identities_parse(t.icons@, icons),
        0 <= i < order::sorted_of(t.icons@).len(),
        meta::icon_of_row(order::sorted_of(t.icons@)[i].deep_view()) is Ok,
    ensures
        order::sorted_of(t.icons@)[i].uuid@ == codec::uuid_text(
            meta::icon_of_row(order::sorted_of(t.icons@)[i].deep_view())->Ok_0.uuid,
        ),
{
    let stored = t.icons@;
    let sorted = order::sorted_of(stored);
    order::sorting_orders_and_keeps(stored);
    same_rows(sorted, stored, i);
    let k = choose|k: int| 0 <= k < stored.len() && stored[k] == sorted[i];
    assert(meta::icon_views(stored)[k] == meta::icon_rows(icons)[k]);
    assert(stored[k].uuid@ == codec::uuid_text(icons[k].uuid));
    assert(codec::uuid_parsed(stored[k].uuid@)->Ok_0 == icons[k].uuid);
}

/// Client-specific data reads back: as many items as were written, each of them
/// among those read, its time to the millisecond, in the order of the keys.
pub proof fn items_read_back(t: MetaTables, items: Seq<CustomDataView>)
    requires
        t.custom_data.deep_view() == rows::custom_data_rows(items),
        rows::distinct_keys(items),
        forall|i: int| 0 <= i < items.len() ==> in_calendar((#[trigger] items[i]).last_modified),
    ensures
        lists_items(meta::items_of_rows(order::sorted_of(t.custom_data@)), items),
{
    let stored = t.custom_data@;
    let sorted = order::sorted_of(stored);
    let out = meta::items_of_rows(sorted);
    order::sorting_orders_and_keeps(stored);
    assert(t.custom_data.deep_view().len() == stored.len());
    assert forall|i: int| 0 <= i < items.len() implies out.contains(
        stored_item(#[trigger] items[i]),
    ) by {
        same_rows(stored, sorted, i);
        let j = choose|j: int| 0 <= j < sorted.len() && sorted[j] == stored[i];
        assert(t.custom_data.deep_view()[i] == rows::custom_data_rows(items)[i]);
        assert(stored[i].deep_view() == rows::custom_data_row(items[i]));
        assert(out[j] =~= stored_item(items[i]));
    }
    assert forall|i: int, j: int| 0 <= i < j < stored.len() implies (
    #[trigger] stored[i]).text_key() != (#[trigger] stored[j]).text_key() by {
        assert(t.custom_data.deep_view()[i] == rows::custom_data_rows(items)[i]);
        assert(t.custom_data.deep_view()[j] == rows::custom_data_rows(items)[j]);
        assert(items[i].key != items[j].key);
    }
    order::sorting_is_strict(stored);
    assert forall|i: int, j: int| 0 <= i < j < out.len() implies order::text_before(
        (#[trigger] out[i]).key,
        (#[trigger] out[j]).key,
    ) by {
        assert(order::text_before(sorted[i].text_key(), sorted[j].text_key()));
    }
}

/// Whether every instant in a vault's metadata lies within the calendar.
pub open spec fn dated_throughout(v: MetaView) -> bool {
    &&& dated(v)
    &&& forall|i: int|
        0 <= i < v.custom_icons.len() ==> in_calendar(
            (#[trigger] v.custom_icons[i]).last_modified,
        )
    &&& forall|i: int|
        0 <= i < v.custom_data.len() ==> in_calendar((#[trigger] v.custom_data[i]).last_modified)
}

/// The whole metadata reads back after it was written, over whatever it is read:
/// the scalars and the unknown elements as they were, instants to the
/// millisecond, the icons in the order of their identities and the
/// client-specific data in the order of the keys. What is said of the recycle
/// bin is not touched.
pub proof fn written_metadata_reads_back(
    t: MetaTables,
    m: Map<SettingKey, Seq<u8>>,
    v: MetaView,
    base: MetaView,
)
    requires
        t.settings@ == written(m, v),
        unknown_in(t) == Ok::<Option<Seq<UnknownView>>, Seq<char>>(Some(v.unknown_xml)),
        meta::icon_views(t.icons@) == meta::icon_rows(v.custom_icons),
        identities_parse(t.icons@, v.custom_icons),
        t.custom_data.deep_view() == rows::custom_data_rows(v.custom_data),
        meta::distinct_icons(v.custom_icons),
        rows::distinct_keys(v.custom_data),
        dated_throughout(v),
    ensures
        meta_fault(t) is None,
        lists_icons(read_over(t, base).custom_icons, v.custom_icons),
        lists_items(read_over(t, base).custom_data, v.custom_data),
        read_over(t, base) == (MetaView {
            database_name_changed: whole_millis(v.database_name_changed),
            database_description_changed: whole_millis(v.database_description_changed),
            default_username_changed: whole_millis(v.default_username_changed),
            recycle_bin_changed: whole_millis(v.recycle_bin_changed),
            settings_changed: whole_millis(v.settings_changed),
            master_key_changed: whole_millis(v.master_key_changed),
            custom_icons: read_over(t, base).custom_icons,
            custom_data: read_over(t, base).custom_data,
            recycle_bin_uuid: base.recycle_bin_uuid,
            recycle_bin_enabled: base.recycle_bin_enabled,
            ..v
        }),
{
    metadata_reads_back(t, m, v, base);
    icons_read_back(t, v.custom_icons);
    items_read_back(t, v.custom_data);
}

proof fn same_rows<T>(a: Seq<T>, b: Seq<T>, i: int)
    requires
        a.to_multiset() == b.to_multiset(),
        0 <= i < a.len(),
    ensures
        exists|j: int| 0 <= j < b.len() && #[trigger] b[j] == a[i],
{
    broadcast use vstd::seq_lib::group_to_multiset_ensures;

    assert(a.contains(a[i]));
    assert(a.to_multiset().count(a[i]) > 0);
    assert(b.to_multiset().count(a[i]) > 0);
    assert(b.contains(a[i]));
}

// ------------------------------------------------------------------- clearing

/// The facts of the file's envelope.
pub open spec fn is_envelope(key: SettingKey) -> bool {
    key is KdbxCipherOid || key is KdbxKdfParameters || key is KdbxTransformRounds
}

/// Whether a setting outlasts a clearing of the metadata.
pub open spec fn outlasts(key: SettingKey, keep_envelope: bool) -> bool {
    key is FingerprintKey || key is LastSavedKdbxBytes || key is RecycleBinEnabled || (keep_envelope
        && is_envelope(key))
}

/// The settings that outlast a clearing.
pub open spec fn cleared(m: Map<SettingKey, Seq<u8>>, keep_envelope: bool) -> Map<
    SettingKey,
    Seq<u8>,
> {
    Map::new(
        |k: SettingKey| m.contains_key(k) && outlasts(k, keep_envelope),
        |k: SettingKey| m[k],
    )
}

/// Clearing drops the settings of the metadata and no others, apart from the
/// recycle bin's switch.
pub proof fn clearing_drops_metadata_only(m: Map<SettingKey, Seq<u8>>, key: SettingKey)
    ensures
        cleared(m, false).contains_key(key) <==> m.contains_key(key) && (!key.is_meta()
            || key is RecycleBinEnabled),
{
}

fn carry(from: &SettingTable, to: &mut SettingTable, key: SettingKey)
    requires
        from.wf(),
        old(to).wf(),
        !old(to)@.contains_key(key),
    ensures
        final(to).wf(),
        final(to)@ == (if from@.contains_key(key) {
            old(to)@.insert(key, from@[key])
        } else {
            old(to)@
        }),
{
    match from.get_blob(key) {
        Some(value) => {
            to.set_blob(key, value);
        },
        None => {},
    }
}

impl MetaTables {
    /// The tables with the metadata cleared, as a copy. The facts of the file's
    /// envelope are kept on request.
    pub fn cleared_copy(&self, keep_envelope: bool) -> (r: MetaTables)
        requires
            self.wf(),
        ensures
            r.wf(),
            r.settings@ == cleared(self.settings@, keep_envelope),
            r.unknown_xml is None,
            r.icons@.len() == 0,
            r.custom_data@.len() == 0,
    {
        let mut r = MetaTables::new();
        carry(&self.settings, &mut r.settings, SettingKey::FingerprintKey);
        carry(&self.settings, &mut r.settings, SettingKey::LastSavedKdbxBytes);
        carry(&self.settings, &mut r.settings, SettingKey::RecycleBinEnabled);
        if keep_envelope {
            carry(&self.settings, &mut r.settings, SettingKey::KdbxCipherOid);
            carry(&self.settings, &mut r.settings, SettingKey::KdbxKdfParameters);
            carry(&self.settings, &mut r.settings, SettingKey::KdbxTransformRounds);
        }
        proof {
            assert(r.settings@ =~= cleared(self.settings@, keep_envelope));
        }
        r
    }

    /// Clears the metadata, so that a vault can be written afresh. The
    /// fingerprint key, the saved file and the recycle bin's switch stay; the
    /// facts of the file's envelope stay on request.
    pub fn clear_meta_tables(&mut self, keep_envelope: bool)
        requires
            old(self).wf(),
        ensures
            final(self).wf(),
            final(self).settings@ == cleared(old(self).settings@, keep_envelope),
            final(self).unknown_xml is None,
            final(self).icons@.len() == 0,
            final(self).custom_data@.len() == 0,
    {
        *self = self.cleared_copy(keep_envelope);
    }
}

} // verus!
