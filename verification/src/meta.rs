//! Vault-wide metadata and its rows.

use vstd::prelude::*;
use vstd::utf8::*;

use crate::codec;
use crate::codec::Uuid;
use crate::error::EngineError;
use crate::order;
use crate::order::TextKeyed;
use crate::rows;
use crate::rows::{CustomDataRow, CustomDataRowView};
use crate::settings;
use crate::text;
use crate::time;
use crate::time::Timestamp;
use crate::vault::{CustomDataItem, CustomDataView, DeletedObject};

verus! {

/// Key under which the XML elements that the decoder did not know are stored.
pub const KEY_UNKNOWN_XML: &'static str = "meta.unknown_xml";

/// Name by which observers know the recycle bin's identity. There is no such
/// row: the bin is marked on its group.
pub const KEY_RECYCLE_BIN_UUID: &'static str = "meta.recycle_bin_uuid";

/// Name by which observers know the pool of custom icons. There is no such row.
pub const KEY_CUSTOM_ICONS: &'static str = "meta.custom_icons";

/// History records kept per entry where nothing is set.
pub const DEFAULT_HISTORY_MAX_ITEMS: i32 = 10;

/// Bytes of history kept per entry where nothing is set.
pub const DEFAULT_HISTORY_MAX_SIZE: i64 = 6_291_456;

// -------------------------------------------------------------- the metadata

/// Which standard fields are protected in memory.
#[derive(Debug, Clone, Copy, PartialEq, Eq, Structural)]
pub struct MemoryProtection {
    /// Titles.
    pub protect_title: bool,
    /// User names.
    pub protect_username: bool,
    /// Passwords.
    pub protect_password: bool,
    /// URLs.
    pub protect_url: bool,
    /// Notes.
    pub protect_notes: bool,
}

/// An icon of the vault's own pool.
#[derive(Debug)]
pub struct CustomIcon {
    /// Identity.
    pub uuid: Uuid,
    /// Image.
    pub data: Vec<u8>,
    /// Name.
    pub name: String,
    /// Last change, where recorded.
    pub last_modified: Option<Timestamp>,
}

/// What a [`CustomIcon`] holds.
#[verifier::ext_equal]
pub struct IconView {
    pub uuid: Uuid,
    pub data: Seq<u8>,
    pub name: Seq<char>,
    pub last_modified: Option<Timestamp>,
}

impl DeepView for CustomIcon {
    type V = IconView;

    open spec fn deep_view(&self) -> IconView {
        IconView {
            uuid: self.uuid,
            data: self.data@,
            name: self.name@,
            last_modified: self.last_modified,
        }
    }
}

/// An XML element that the decoder did not know, kept as it was.
#[derive(Debug)]
pub struct UnknownElement {
    /// Element name.
    pub tag: String,
    /// The element as it stood in the file.
    pub raw_xml: Vec<u8>,
}

/// What an [`UnknownElement`] holds.
#[verifier::ext_equal]
pub struct UnknownView {
    pub tag: Seq<char>,
    pub raw_xml: Seq<u8>,
}

impl DeepView for UnknownElement {
    type V = UnknownView;

    open spec fn deep_view(&self) -> UnknownView {
        UnknownView { tag: self.tag@, raw_xml: self.raw_xml@ }
    }
}

/// A vault's metadata.
#[derive(Debug)]
pub struct Meta {
    /// Program that last wrote the vault.
    pub generator: String,
    /// Vault name.
    pub database_name: String,
    /// Vault description.
    pub database_description: String,
    /// User name for new entries.
    pub default_username: String,
    /// Colour of the vault.
    pub color: String,
    /// Hash of the file header.
    pub header_hash: String,
    /// When the name changed.
    pub database_name_changed: Option<Timestamp>,
    /// When the description changed.
    pub database_description_changed: Option<Timestamp>,
    /// When the default user name changed.
    pub default_username_changed: Option<Timestamp>,
    /// When the recycle bin changed.
    pub recycle_bin_changed: Option<Timestamp>,
    /// When the settings changed.
    pub settings_changed: Option<Timestamp>,
    /// When the master key changed.
    pub master_key_changed: Option<Timestamp>,
    /// Days after which a key change is recommended.
    pub master_key_change_rec: i64,
    /// Days after which a key change is forced.
    pub master_key_change_force: i64,
    /// Most history records per entry.
    pub history_max_items: i32,
    /// Most bytes of history per entry.
    pub history_max_size: i64,
    /// Days that history is kept.
    pub maintenance_history_days: u32,
    /// Which standard fields are protected.
    pub memory_protection: MemoryProtection,
    /// Elements the decoder did not know.
    pub unknown_xml: Vec<UnknownElement>,
    /// The pool of icons.
    pub custom_icons: Vec<CustomIcon>,
    /// Client-specific data.
    pub custom_data: Vec<CustomDataItem>,
    /// The recycle bin, if there is one.
    pub recycle_bin_uuid: Option<Uuid>,
    /// Whether deleting moves to the recycle bin.
    pub recycle_bin_enabled: bool,
}

/// What a [`Meta`] holds.
#[verifier::ext_equal]
pub struct MetaView {
    pub generator: Seq<char>,
    pub database_name: Seq<char>,
    pub database_description: Seq<char>,
    pub default_username: Seq<char>,
    pub color: Seq<char>,
    pub header_hash: Seq<char>,
    pub database_name_changed: Option<Timestamp>,
    pub database_description_changed: Option<Timestamp>,
    pub default_username_changed: Option<Timestamp>,
    pub recycle_bin_changed: Option<Timestamp>,
    pub settings_changed: Option<Timestamp>,
    pub master_key_changed: Option<Timestamp>,
    pub master_key_change_rec: i64,
    pub master_key_change_force: i64,
    pub history_max_items: i32,
    pub history_max_size: i64,
    pub maintenance_history_days: u32,
    pub memory_protection: MemoryProtection,
    pub unknown_xml: Seq<UnknownView>,
    pub custom_icons: Seq<IconView>,
    pub custom_data: Seq<CustomDataView>,
    pub recycle_bin_uuid: Option<Uuid>,
    pub recycle_bin_enabled: bool,
}

impl DeepView for Meta {
    type V = MetaView;

    open spec fn deep_view(&self) -> MetaView {
        MetaView {
            generator: self.generator@,
            database_name: self.database_name@,
            database_description: self.database_description@,
            default_username: self.default_username@,
            color: self.color@,
            header_hash: self.header_hash@,
            database_name_changed: self.database_name_changed,
            database_description_changed: self.database_description_changed,
            default_username_changed: self.default_username_changed,
            recycle_bin_changed: self.recycle_bin_changed,
            settings_changed: self.settings_changed,
            master_key_changed: self.master_key_changed,
            master_key_change_rec: self.master_key_change_rec,
            master_key_change_force: self.master_key_change_force,
            history_max_items: self.history_max_items,
            history_max_size: self.history_max_size,
            maintenance_history_days: self.maintenance_history_days,
            memory_protection: self.memory_protection,
            unknown_xml: self.unknown_xml.deep_view(),
            custom_icons: self.custom_icons.deep_view(),
            custom_data: self.custom_data.deep_view(),
            recycle_bin_uuid: self.recycle_bin_uuid,
            recycle_bin_enabled: self.recycle_bin_enabled,
        }
    }
}

// ---------------------------------------------------------- memory protection

/// A flag as the number it adds to the packed byte.
pub open spec fn bit(flag: bool, weight: u8) -> u8 {
    if flag {
        weight
    } else {
        0
    }
}

/// The five flags in one byte, titles in the lowest bit.
pub open spec fn packed(mp: MemoryProtection) -> u8 {
    (bit(mp.protect_title, 1) + bit(mp.protect_username, 2) + bit(mp.protect_password, 4) + bit(
        mp.protect_url,
        8,
    ) + bit(mp.protect_notes, 16)) as u8
}

/// The flags in a byte; the upper three bits are not looked at.
pub open spec fn unpacked(b: u8) -> MemoryProtection {
    MemoryProtection {
        protect_title: b % 2 == 1,
        protect_username: b / 2 % 2 == 1,
        protect_password: b / 4 % 2 == 1,
        protect_url: b / 8 % 2 == 1,
        protect_notes: b / 16 % 2 == 1,
    }
}

/// Packs the five flags into one byte.
pub fn pack_memory_protection(mp: MemoryProtection) -> (b: u8)
    ensures
        b == packed(mp),
{
    let mut b: u8 = 0;
    if mp.protect_title {
        b = b + 1;
    }
    if mp.protect_username {
        b = b + 2;
    }
    if mp.protect_password {
        b = b + 4;
    }
    if mp.protect_url {
        b = b + 8;
    }
    if mp.protect_notes {
        b = b + 16;
    }
    b
}

/// Reads the five flags from a byte.
pub fn unpack_memory_protection(b: u8) -> (mp: MemoryProtection)
    ensures
        mp == unpacked(b),
{
    MemoryProtection {
        protect_title: b % 2 == 1,
        protect_username: b / 2 % 2 == 1,
        protect_password: b / 4 % 2 == 1,
        protect_url: b / 8 % 2 == 1,
        protect_notes: b / 16 % 2 == 1,
    }
}

/// The flags read back from their byte.
pub proof fn memory_protection_reads_back(mp: MemoryProtection)
    ensures
        unpacked(packed(mp)) == mp,
{
}

// ------------------------------------------------------------------- unknown XML

/// An unknown element in the form it is stored in.
#[derive(Debug)]
pub struct UnknownXmlRecord {
    /// Element name.
    pub tag: String,
    /// Base64 of the element.
    pub raw_xml: String,
}

/// What an [`UnknownXmlRecord`] holds.
#[verifier::ext_equal]
pub struct UnknownRecordView {
    pub tag: Seq<char>,
    pub raw_xml: Seq<char>,
}

impl DeepView for UnknownXmlRecord {
    type V = UnknownRecordView;

    open spec fn deep_view(&self) -> UnknownRecordView {
        UnknownRecordView { tag: self.tag@, raw_xml: self.raw_xml@ }
    }
}

/// What the first `n` stored elements decode to, or what is wrong with the
/// first that does not.
pub open spec fn unknown_decoded(s: Seq<UnknownRecordView>, n: nat) -> Result<
    Seq<UnknownView>,
    Seq<char>,
>
    decreases n,
{
    if n == 0 || n > s.len() {
        Ok(Seq::empty())
    } else {
        match unknown_decoded(s, (n - 1) as nat) {
            Err(e) => Err(e),
            Ok(before) => match codec::base64_decoded(s[n - 1].raw_xml) {
                Ok(raw) => Ok(before.push(UnknownView { tag: s[n - 1].tag, raw_xml: raw })),
                Err(e) => Err("decode raw_xml base64: "@ + e),
            },
        }
    }
}

/// Whether the elements are short enough to be encoded.
pub open spec fn encodable(s: Seq<UnknownView>) -> bool {
    forall|i: int| 0 <= i < s.len() ==> (#[trigger] s[i]).raw_xml.len() <= usize::MAX / 8 * 3
}

/// Whether stored elements are the encoded form of the given ones.
pub open spec fn encodes(stored: Seq<UnknownRecordView>, s: Seq<UnknownView>) -> bool {
    &&& stored.len() == s.len()
    &&& forall|i: int|
        0 <= i < s.len() ==> (#[trigger] stored[i]).tag == s[i].tag && stored[i].raw_xml
            == codec::base64_of(s[i].raw_xml)
}

/// Encodes unknown elements for storing. What comes out decodes to them again.
pub fn serialise_unknown_xml(elements: &Vec<UnknownElement>) -> (r: Vec<UnknownXmlRecord>)
    requires
        encodable(elements.deep_view()),
    ensures
        encodes(r.deep_view(), elements.deep_view()),
        unknown_decoded(r.deep_view(), r@.len()) == Ok::<Seq<UnknownView>, Seq<char>>(
            elements.deep_view(),
        ),
{
    let ghost ev = elements.deep_view();
    let mut out: Vec<UnknownXmlRecord> = Vec::new();
    let mut i: usize = 0;
    proof {
        assert(ev.take(0) =~= Seq::empty());
    }
    while i < elements.len()
        invariant
            i <= elements.len(),
            ev == elements.deep_view(),
            encodable(ev),
            encodes(out.deep_view(), ev.take(i as int)),
            unknown_decoded(out.deep_view(), out@.len()) == Ok::<Seq<UnknownView>, Seq<char>>(
                ev.take(i as int),
            ),
        decreases elements.len() - i,
    {
        let e = &elements[i];
        let ghost before = out.deep_view();
        proof {
            assert(ev[i as int] == e.deep_view());
        }
        out.push(
            UnknownXmlRecord {
                tag: e.tag.clone(),
                raw_xml: codec::b64_encode(e.raw_xml.as_slice()),
            },
        );
        proof {
            let after = out.deep_view();
            assert(after =~= before.push(after.last()));
            unknown_prefix(before, after.last(), before.len());
            assert(ev.take(i + 1) =~= ev.take(i as int).push(ev[i as int]));
            assert forall|k: int| 0 <= k < i + 1 implies (#[trigger] after[k]).tag == ev.take(
                i + 1,
            )[k].tag && after[k].raw_xml == codec::base64_of(ev.take(i + 1)[k].raw_xml) by {
                if k < i {
                    assert(after[k] == before[k]);
                    assert(before[k].tag == ev.take(i as int)[k].tag);
                }
            }
        }
        i = i + 1;
    }
    proof {
        assert(ev.take(ev.len() as int) =~= ev);
    }
    out
}

proof fn unknown_prefix(s: Seq<UnknownRecordView>, x: UnknownRecordView, n: nat)
    requires
        n <= s.len(),
    ensures
        unknown_decoded(s.push(x), n) == unknown_decoded(s, n),
    decreases n,
{
    if n > 0 {
        unknown_prefix(s, x, (n - 1) as nat);
        assert(s.push(x)[n - 1] == s[n - 1]);
    }
}

proof fn unknown_fault_persists(s: Seq<UnknownRecordView>, a: nat, b: nat)
    requires
        a <= b <= s.len(),
    ensures
        unknown_decoded(s, a) is Err ==> unknown_decoded(s, b) == unknown_decoded(s, a),
    decreases b,
{
    if a < b {
        unknown_fault_persists(s, a, (b - 1) as nat);
    }
}

/// Decodes stored unknown elements.
pub fn deserialise_unknown_xml(records: &Vec<UnknownXmlRecord>) -> (r: Result<
    Vec<UnknownElement>,
    String,
>)
    ensures
        match r {
            Ok(v) => unknown_decoded(records.deep_view(), records@.len()) == Ok::<
                Seq<UnknownView>,
                Seq<char>,
            >(v.deep_view()),
            Err(e) => unknown_decoded(records.deep_view(), records@.len()) == Err::<
                Seq<UnknownView>,
                Seq<char>,
            >(e@),
        },
{
    let ghost rv = records.deep_view();
    let mut out: Vec<UnknownElement> = Vec::new();
    let mut i: usize = 0;
    proof {
        assert(out.deep_view() =~= Seq::empty());
    }
    while i < records.len()
        invariant
            i <= records.len(),
            rv == records.deep_view(),
            unknown_decoded(rv, i as nat) == Ok::<Seq<UnknownView>, Seq<char>>(out.deep_view()),
        decreases records.len() - i,
    {
        let ghost before = out.deep_view();
        proof {
            assert(rv[i as int] == records@[i as int].deep_view());
            unknown_fault_persists(rv, (i + 1) as nat, rv.len());
        }
        match codec::b64_decode(records[i].raw_xml.as_str()) {
            Ok(raw_xml) => {
                out.push(UnknownElement { tag: records[i].tag.clone(), raw_xml });
                proof {
                    assert(out.deep_view() =~= before.push(
                        UnknownView { tag: rv[i as int].tag, raw_xml: raw_xml@ },
                    ));
                }
            },
            Err(e) => {
                return Err(text::joined("decode raw_xml base64: ", e.as_str()));
            },
        }
        i = i + 1;
    }
    Ok(out)
}

// -------------------------------------------------------------------------- icons

/// A row of `meta_custom_icon`.
#[derive(Debug)]
pub struct IconRow {
    /// Identity, as text.
    pub uuid: String,
    /// Name.
    pub name: String,
    /// Image.
    pub bytes: Vec<u8>,
    /// Last change, in milliseconds.
    pub last_modified_at: Option<i64>,
}

/// What an [`IconRow`] holds.
#[verifier::ext_equal]
pub struct IconRowView {
    pub uuid: Seq<char>,
    pub name: Seq<char>,
    pub bytes: Seq<u8>,
    pub last_modified_at: Option<i64>,
}

impl DeepView for IconRow {
    type V = IconRowView;

    open spec fn deep_view(&self) -> IconRowView {
        IconRowView {
            uuid: self.uuid@,
            name: self.name@,
            bytes: self.bytes@,
            last_modified_at: self.last_modified_at,
        }
    }
}

impl TextKeyed for IconRow {
    open spec fn text_key(self) -> Seq<char> {
        self.uuid@
    }

    fn key_text(&self) -> (r: &str) {
        self.uuid.as_str()
    }
}

impl TextKeyed for CustomDataRow {
    open spec fn text_key(self) -> Seq<char> {
        self.key@
    }

    fn key_text(&self) -> (r: &str) {
        self.key.as_str()
    }
}

/// The row of an icon.
pub open spec fn icon_row(icon: IconView) -> IconRowView {
    IconRowView {
        uuid: codec::uuid_text(icon.uuid),
        name: icon.name,
        bytes: icon.data,
        last_modified_at: time::optional_millis(icon.last_modified),
    }
}

/// The rows of a pool of icons.
pub open spec fn icon_rows(icons: Seq<IconView>) -> Seq<IconRowView> {
    Seq::new(icons.len(), |i: int| icon_row(icons[i]))
}

/// Whether no two icons share an identity.
pub open spec fn distinct_icons(icons: Seq<IconView>) -> bool {
    forall|i: int, j: int|
        0 <= i < j < icons.len() ==> #[trigger] icons[i].uuid != #[trigger] icons[j].uuid
}

/// The icon that a row stands for, or what is wrong with the row.
pub open spec fn icon_of_row(row: IconRowView) -> Result<IconView, Seq<char>> {
    match codec::uuid_parsed(row.uuid) {
        Ok(uuid) => Ok(
            IconView {
                uuid,
                data: row.bytes,
                name: row.name,
                last_modified: time::optional_instant_of(row.last_modified_at),
            },
        ),
        Err(e) => Err("meta_custom_icon.uuid not a UUID: "@ + e),
    }
}

/// The icons that the first `n` rows stand for, or what is wrong with the first
/// row that stands for none.
pub open spec fn icons_of_rows(s: Seq<IconRowView>, n: nat) -> Result<Seq<IconView>, Seq<char>>
    decreases n,
{
    if n == 0 || n > s.len() {
        Ok(Seq::empty())
    } else {
        match icons_of_rows(s, (n - 1) as nat) {
            Err(e) => Err(e),
            Ok(before) => match icon_of_row(s[n - 1]) {
                Ok(icon) => Ok(before.push(icon)),
                Err(e) => Err(e),
            },
        }
    }
}

proof fn icon_fault_persists(s: Seq<IconRowView>, a: nat, b: nat)
    requires
        a <= b <= s.len(),
    ensures
        icons_of_rows(s, a) is Err ==> icons_of_rows(s, b) == icons_of_rows(s, a),
    decreases b,
{
    if a < b {
        icon_fault_persists(s, a, (b - 1) as nat);
    }
}

/// Rows as mathematical values.
pub open spec fn icon_views(s: Seq<IconRow>) -> Seq<IconRowView> {
    Seq::new(s.len(), |i: int| s[i].deep_view())
}

/// The pool of icons, in the order of their identities' text.
pub fn read_custom_icons(table: &Vec<IconRow>) -> (r: Result<Vec<CustomIcon>, EngineError>)
    ensures
        ({
            let sorted = icon_views(order::sorted_of(table@));
            match r {
                Ok(v) => icons_of_rows(sorted, sorted.len()) == Ok::<Seq<IconView>, Seq<char>>(
                    v.deep_view(),
                ),
                Err(e) => icons_of_rows(sorted, sorted.len()) is Err
                    && settings::reports_invariant(
                    e,
                    icons_of_rows(sorted, sorted.len())->Err_0,
                ),
            }
        }),
{
    let sorted = order::sort_by_text(table);
    let ghost sv = icon_views(order::sorted_of(table@));
    let mut out: Vec<CustomIcon> = Vec::new();
    let mut i: usize = 0;
    proof {
        assert(out.deep_view() =~= Seq::empty());
    }
    while i < sorted.len()
        invariant
            i <= sorted.len(),
            sv == icon_views(order::sorted_of(table@)),
            sorted@.unref() == order::sorted_of(table@),
            icons_of_rows(sv, i as nat) == Ok::<Seq<IconView>, Seq<char>>(out.deep_view()),
        decreases sorted.len() - i,
    {
        let row = sorted[i];
        let ghost before = out.deep_view();
        proof {
            assert(sorted@.unref()[i as int] == *row);
            assert(sv[i as int] == row.deep_view());
            icon_fault_persists(sv, (i + 1) as nat, sv.len());
        }
        match codec::parse_uuid(row.uuid.as_str()) {
            Ok(uuid) => {
                out.push(
                    CustomIcon {
                        uuid,
                        data: rows::copy_bytes(row.bytes.as_slice()),
                        name: row.name.clone(),
                        last_modified: time::optional_ms_to_dt(row.last_modified_at),
                    },
                );
                proof {
                    assert(out.deep_view() =~= before.push(icon_of_row(sv[i as int])->Ok_0));
                }
            },
            Err(e) => {
                return Err(
                    settings::invariant_error(
                        text::joined("meta_custom_icon.uuid not a UUID: ", e.as_str()),
                    ),
                );
            },
        }
        i = i + 1;
    }
    Ok(out)
}

/// The item that a row stands for.
pub open spec fn item_of_row(row: CustomDataRowView) -> CustomDataView {
    CustomDataView {
        key: row.key,
        value: row.value,
        last_modified: time::optional_instant_of(row.last_modified_at),
    }
}

/// The items that rows stand for.
pub open spec fn items_of_rows(s: Seq<CustomDataRow>) -> Seq<CustomDataView> {
    Seq::new(s.len(), |i: int| item_of_row(s[i].deep_view()))
}

/// Client-specific data, in the order of the keys.
pub fn read_custom_data(table: &Vec<CustomDataRow>) -> (r: Vec<CustomDataItem>)
    ensures
        r.deep_view() == items_of_rows(order::sorted_of(table@)),
{
    let sorted = order::sort_by_text(table);
    let ghost sv = order::sorted_of(table@);
    let mut out: Vec<CustomDataItem> = Vec::new();
    let mut i: usize = 0;
    while i < sorted.len()
        invariant
            i <= sorted.len(),
            sorted@.unref() == sv,
            out.deep_view() == items_of_rows(sv).take(i as int),
        decreases sorted.len() - i,
    {
        let row = sorted[i];
        let ghost before = out.deep_view();
        proof {
            assert(sorted@.unref()[i as int] == *row);
        }
        out.push(
            CustomDataItem {
                key: row.key.clone(),
                value: row.value.clone(),
                last_modified: time::optional_ms_to_dt(row.last_modified_at),
            },
        );
        proof {
            assert(out.deep_view() =~= before.push(item_of_row(sv[i as int].deep_view())));
            assert(out.deep_view() =~= items_of_rows(sv).take(i + 1));
        }
        i = i + 1;
    }
    proof {
        assert(items_of_rows(sv).take(sv.len() as int) =~= items_of_rows(sv));
    }
    out
}

/// A row of `meta_deleted_object`, as the database holds it.
#[derive(Debug)]
pub struct TombstoneRow {
    /// Identity, as text.
    pub uuid: String,
    /// Deletion time, in milliseconds.
    pub deleted_at: Option<i64>,
}

impl TextKeyed for TombstoneRow {
    open spec fn text_key(self) -> Seq<char> {
        self.uuid@
    }

    fn key_text(&self) -> (r: &str) {
        self.uuid.as_str()
    }
}

/// The tombstones that the first `n` rows stand for, or what is wrong with the
/// first row that stands for none.
pub open spec fn tombstones_of_rows(s: Seq<TombstoneRow>, n: nat) -> Result<
    Seq<DeletedObject>,
    Seq<char>,
>
    decreases n,
{
    if n == 0 || n > s.len() {
        Ok(Seq::empty())
    } else {
        match tombstones_of_rows(s, (n - 1) as nat) {
            Err(e) => Err(e),
            Ok(before) => match codec::uuid_parsed(s[n - 1].uuid@) {
                Ok(uuid) => Ok(
                    before.push(
                        DeletedObject {
                            uuid,
                            deleted_at: time::optional_instant_of(s[n - 1].deleted_at),
                        },
                    ),
                ),
                Err(e) => Err("meta_deleted_object.uuid not a UUID: "@ + e),
            },
        }
    }
}

proof fn tombstone_fault_persists(s: Seq<TombstoneRow>, a: nat, b: nat)
    requires
        a <= b <= s.len(),
    ensures
        tombstones_of_rows(s, a) is Err ==> tombstones_of_rows(s, b) == tombstones_of_rows(s, a),
    decreases b,
{
    if a < b {
        tombstone_fault_persists(s, a, (b - 1) as nat);
    }
}

/// The tombstones, in the order of their identities' text.
pub fn read_deleted_objects(table: &Vec<TombstoneRow>) -> (r: Result<
    Vec<DeletedObject>,
    EngineError,
>)
    ensures
        ({
            let sorted = order::sorted_of(table@);
            match r {
                Ok(v) => tombstones_of_rows(sorted, sorted.len()) == Ok::<
                    Seq<DeletedObject>,
                    Seq<char>,
                >(v@),
                Err(e) => tombstones_of_rows(sorted, sorted.len()) is Err
                    && settings::reports_invariant(
                    e,
                    tombstones_of_rows(sorted, sorted.len())->Err_0,
                ),
            }
        }),
{
    let sorted = order::sort_by_text(table);
    let ghost sv = order::sorted_of(table@);
    let mut out: Vec<DeletedObject> = Vec::new();
    let mut i: usize = 0;
    while i < sorted.len()
        invariant
            i <= sorted.len(),
            sv == order::sorted_of(table@),
            sorted@.unref() == sv,
            tombstones_of_rows(sv, i as nat) == Ok::<Seq<DeletedObject>, Seq<char>>(out@),
        decreases sorted.len() - i,
    {
        let row = sorted[i];
        proof {
            assert(sorted@.unref()[i as int] == *row);
            tombstone_fault_persists(sv, (i + 1) as nat, sv.len());
        }
        match codec::parse_uuid(row.uuid.as_str()) {
            Ok(uuid) => {
                out.push(
                    DeletedObject { uuid, deleted_at: time::optional_ms_to_dt(row.deleted_at) },
                );
            },
            Err(e) => {
                return Err(
                    settings::invariant_error(
                        text::joined("meta_deleted_object.uuid not a UUID: ", e.as_str()),
                    ),
                );
            },
        }
        i = i + 1;
    }
    Ok(out)
}

} // verus!
