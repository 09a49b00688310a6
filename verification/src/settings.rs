//! The settings table: named blobs.
//!
//! Text is stored as UTF-8, integers as little-endian bytes of their fixed
//! width, instants as 64-bit millisecond counts. An absent row means that the
//! value was never set.

use vstd::prelude::*;
use vstd::utf8::*;

use crate::codec;
use crate::error::{EngineError, ProjectionError};
use crate::rows;
use crate::table;
use crate::table::Keyed;
use crate::text;
use crate::time;
use crate::time::Timestamp;

verus! {

/// The settings.
#[derive(Debug, Clone, Copy, PartialEq, Eq, Structural)]
pub enum SettingKey {
    /// Program that last wrote the vault.
    Generator,
    /// Vault name.
    DatabaseName,
    /// Vault description.
    DatabaseDescription,
    /// When the name changed.
    DatabaseNameChanged,
    /// When the description changed.
    DatabaseDescriptionChanged,
    /// User name for new entries.
    DefaultUsername,
    /// When the default user name changed.
    DefaultUsernameChanged,
    /// When the recycle bin changed.
    RecycleBinChanged,
    /// When the settings changed.
    SettingsChanged,
    /// When the master key changed.
    MasterKeyChanged,
    /// Days after which a key change is recommended.
    MasterKeyChangeRec,
    /// Days after which a key change is forced.
    MasterKeyChangeForce,
    /// Whether deleting moves to the recycle bin.
    RecycleBinEnabled,
    /// Most history records per entry.
    HistoryMaxItems,
    /// Most bytes of history per entry.
    HistoryMaxSize,
    /// Days that history is kept.
    MaintenanceHistoryDays,
    /// Colour of the vault.
    Color,
    /// Hash of the file header.
    HeaderHash,
    /// Which standard fields are protected.
    MemoryProtection,
    /// Cipher of the file's envelope.
    KdbxCipherOid,
    /// Key-derivation parameters of the envelope.
    KdbxKdfParameters,
    /// Key-derivation rounds of an older envelope.
    KdbxTransformRounds,
    /// Key of the password fingerprints.
    FingerprintKey,
    /// The vault file as last written.
    LastSavedKdbxBytes,
}

impl SettingKey {
    /// The key the setting is stored under.
    pub open spec fn stored_as(self) -> Seq<char> {
        match self {
            SettingKey::Generator => "meta.generator"@,
            SettingKey::DatabaseName => "meta.database_name"@,
            SettingKey::DatabaseDescription => "meta.database_description"@,
            SettingKey::DatabaseNameChanged => "meta.database_name_changed"@,
            SettingKey::DatabaseDescriptionChanged => "meta.database_description_changed"@,
            SettingKey::DefaultUsername => "meta.default_username"@,
            SettingKey::DefaultUsernameChanged => "meta.default_username_changed"@,
            SettingKey::RecycleBinChanged => "meta.recycle_bin_changed"@,
            SettingKey::SettingsChanged => "meta.settings_changed"@,
            SettingKey::MasterKeyChanged => "meta.master_key_changed"@,
            SettingKey::MasterKeyChangeRec => "meta.master_key_change_rec"@,
            SettingKey::MasterKeyChangeForce => "meta.master_key_change_force"@,
            SettingKey::RecycleBinEnabled => "meta.recycle_bin_enabled"@,
            SettingKey::HistoryMaxItems => "meta.history_max_items"@,
            SettingKey::HistoryMaxSize => "meta.history_max_size"@,
            SettingKey::MaintenanceHistoryDays => "meta.maintenance_history_days"@,
            SettingKey::Color => "meta.color"@,
            SettingKey::HeaderHash => "meta.header_hash"@,
            SettingKey::MemoryProtection => "meta.memory_protection"@,
            SettingKey::KdbxCipherOid => "meta.kdbx_cipher_oid"@,
            SettingKey::KdbxKdfParameters => "meta.kdbx_kdf_parameters"@,
            SettingKey::KdbxTransformRounds => "meta.kdbx_transform_rounds"@,
            SettingKey::FingerprintKey => "fingerprint_key"@,
            SettingKey::LastSavedKdbxBytes => "last_saved_kdbx_bytes"@,
        }
    }

    /// The key the setting is stored under.
    pub fn name(self) -> (r: &'static str)
        ensures
            r@ == self.stored_as(),
    {
        match self {
            SettingKey::Generator => "meta.generator",
            SettingKey::DatabaseName => "meta.database_name",
            SettingKey::DatabaseDescription => "meta.database_description",
            SettingKey::DatabaseNameChanged => "meta.database_name_changed",
            SettingKey::DatabaseDescriptionChanged => "meta.database_description_changed",
            SettingKey::DefaultUsername => "meta.default_username",
            SettingKey::DefaultUsernameChanged => "meta.default_username_changed",
            SettingKey::RecycleBinChanged => "meta.recycle_bin_changed",
            SettingKey::SettingsChanged => "meta.settings_changed",
            SettingKey::MasterKeyChanged => "meta.master_key_changed",
            SettingKey::MasterKeyChangeRec => "meta.master_key_change_rec",
            SettingKey::MasterKeyChangeForce => "meta.master_key_change_force",
            SettingKey::RecycleBinEnabled => "meta.recycle_bin_enabled",
            SettingKey::HistoryMaxItems => "meta.history_max_items",
            SettingKey::HistoryMaxSize => "meta.history_max_size",
            SettingKey::MaintenanceHistoryDays => "meta.maintenance_history_days",
            SettingKey::Color => "meta.color",
            SettingKey::HeaderHash => "meta.header_hash",
            SettingKey::MemoryProtection => "meta.memory_protection",
            SettingKey::KdbxCipherOid => "meta.kdbx_cipher_oid",
            SettingKey::KdbxKdfParameters => "meta.kdbx_kdf_parameters",
            SettingKey::KdbxTransformRounds => "meta.kdbx_transform_rounds",
            SettingKey::FingerprintKey => "fingerprint_key",
            SettingKey::LastSavedKdbxBytes => "last_saved_kdbx_bytes",
        }
    }

    /// Whether the setting is part of the vault's metadata.
    pub open spec fn is_meta(self) -> bool {
        !(self is FingerprintKey || self is LastSavedKdbxBytes)
    }
}

/// A few marks by which the keys differ.
spec fn marks(s: Seq<char>) -> (int, int) {
    (s.len() as int, s[s.len() - 3] as int)
}

/// No two settings share a key.
pub proof fn setting_keys_are_distinct(a: SettingKey, b: SettingKey)
    requires
        a != b,
    ensures
        a.stored_as() != b.stored_as(),
{
    reveal_strlit("meta.generator");
    reveal_strlit("meta.database_name");
    reveal_strlit("meta.database_description");
    reveal_strlit("meta.database_name_changed");
    reveal_strlit("meta.database_description_changed");
    reveal_strlit("meta.default_username");
    reveal_strlit("meta.default_username_changed");
    reveal_strlit("meta.recycle_bin_changed");
    reveal_strlit("meta.settings_changed");
    reveal_strlit("meta.master_key_changed");
    reveal_strlit("meta.master_key_change_rec");
    reveal_strlit("meta.master_key_change_force");
    reveal_strlit("meta.recycle_bin_enabled");
    reveal_strlit("meta.history_max_items");
    reveal_strlit("meta.history_max_size");
    reveal_strlit("meta.maintenance_history_days");
    reveal_strlit("meta.color");
    reveal_strlit("meta.header_hash");
    reveal_strlit("meta.memory_protection");
    reveal_strlit("meta.kdbx_cipher_oid");
    reveal_strlit("meta.kdbx_kdf_parameters");
    reveal_strlit("meta.kdbx_transform_rounds");
    reveal_strlit("fingerprint_key");
    reveal_strlit("last_saved_kdbx_bytes");
    assert(marks("meta.generator"@) == (14int, 't' as int));
    assert(marks("meta.database_name"@) == (18int, 'a' as int));
    assert(marks("meta.database_description"@) == (25int, 'i' as int));
    assert(marks("meta.database_name_changed"@) == (26int, 'g' as int));
    assert(marks("meta.database_description_changed"@) == (33int, 'g' as int));
    assert(marks("meta.default_username"@) == (21int, 'a' as int));
    assert(marks("meta.default_username_changed"@) == (29int, 'g' as int));
    assert(marks("meta.recycle_bin_changed"@) == (24int, 'g' as int));
    assert(marks("meta.settings_changed"@) == (21int, 'g' as int));
    assert(marks("meta.master_key_changed"@) == (23int, 'g' as int));
    assert(marks("meta.master_key_change_rec"@) == (26int, 'r' as int));
    assert(marks("meta.master_key_change_force"@) == (28int, 'r' as int));
    assert(marks("meta.recycle_bin_enabled"@) == (24int, 'l' as int));
    assert(marks("meta.history_max_items"@) == (22int, 'e' as int));
    assert(marks("meta.history_max_size"@) == (21int, 'i' as int));
    assert(marks("meta.maintenance_history_days"@) == (29int, 'a' as int));
    assert(marks("meta.color"@) == (10int, 'l' as int));
    assert(marks("meta.header_hash"@) == (16int, 'a' as int));
    assert(marks("meta.memory_protection"@) == (22int, 'i' as int));
    assert(marks("meta.kdbx_cipher_oid"@) == (20int, 'o' as int));
    assert(marks("meta.kdbx_kdf_parameters"@) == (24int, 'e' as int));
    assert(marks("meta.kdbx_transform_rounds"@) == (26int, 'n' as int));
    assert(marks("fingerprint_key"@) == (15int, 'k' as int));
    assert(marks("last_saved_kdbx_bytes"@) == (21int, 't' as int));
}

// ------------------------------------------------------------- little-endian

/// The number that bytes stand for, least significant first.
pub open spec fn le_value(s: Seq<u8>) -> nat
    decreases s.len(),
{
    if s.len() == 0 {
        0
    } else {
        s[0] as nat + 256 * le_value(s.drop_first())
    }
}

/// The lowest `n` bytes of a number, least significant first.
pub open spec fn le_bytes(v: nat, n: nat) -> Seq<u8>
    decreases n,
{
    if n == 0 {
        Seq::empty()
    } else {
        seq![(v % 256) as u8] + le_bytes(v / 256, (n - 1) as nat)
    }
}

/// Whether a number fits in `n` bytes.
pub open spec fn fits(v: nat, n: nat) -> bool
    decreases n,
{
    if n == 0 {
        v == 0
    } else {
        fits(v / 256, (n - 1) as nat)
    }
}

/// A number that fits reads back from its bytes.
pub proof fn le_reads_back(v: nat, n: nat)
    requires
        fits(v, n),
    ensures
        le_value(le_bytes(v, n)) == v,
        le_bytes(v, n).len() == n,
    decreases n,
{
    if n > 0 {
        le_reads_back(v / 256, (n - 1) as nat);
        let s = le_bytes(v, n);
        assert(s.drop_first() =~= le_bytes(v / 256, (n - 1) as nat));
    }
}

proof fn le_of_four(s: Seq<u8>)
    requires
        s.len() == 4,
    ensures
        le_value(s) == s[0] + 256 * (s[1] + 256 * (s[2] + 256 * s[3])),
{
    reveal_with_fuel(le_value, 5);
    let a = s.drop_first();
    let b = a.drop_first();
    let c = b.drop_first();
    assert(a[0] == s[1] && b[0] == s[2] && c[0] == s[3]);
    assert(c.drop_first().len() == 0);
}

proof fn le_of_eight(s: Seq<u8>)
    requires
        s.len() == 8,
    ensures
        le_value(s) == le_value(s.take(4)) + 0x1_0000_0000 * le_value(s.skip(4)),
{
    reveal_with_fuel(le_value, 9);
    le_of_four(s.take(4));
    let a = s.drop_first();
    let b = a.drop_first();
    let c = b.drop_first();
    let d = c.drop_first();
    assert(a[0] == s[1] && b[0] == s[2] && c[0] == s[3]);
    assert(d =~= s.skip(4));
}

fn push_le(v: u64, n: usize) -> (r: Vec<u8>)
    ensures
        r@ == le_bytes(v as nat, n as nat),
{
    let mut out: Vec<u8> = Vec::new();
    let mut rest: u64 = v;
    let mut i: usize = 0;
    proof {
        assert(out@ + le_bytes(v as nat, n as nat) =~= le_bytes(v as nat, n as nat));
    }
    while i < n
        invariant
            i <= n,
            out@ + le_bytes(rest as nat, (n - i) as nat) == le_bytes(v as nat, n as nat),
        decreases n - i,
    {
        let ghost before = out@;
        out.push((rest % 256) as u8);
        proof {
            assert(out@ + le_bytes(rest as nat / 256, (n - i - 1) as nat) =~= before + le_bytes(
                rest as nat,
                (n - i) as nat,
            ));
        }
        rest = rest / 256;
        i = i + 1;
    }
    assert(out@ =~= out@ + le_bytes(rest as nat, 0));
    out
}

fn read_le4(b: &Vec<u8>, at: usize) -> (r: u32)
    requires
        at + 4 <= b.len(),
    ensures
        r == le_value(b@.subrange(at as int, at + 4)),
{
    proof {
        le_of_four(b@.subrange(at as int, at + 4));
    }
    b[at] as u32 + 256 * (b[at + 1] as u32 + 256 * (b[at + 2] as u32 + 256 * (b[at + 3] as u32)))
}

fn read_le8(b: &Vec<u8>) -> (r: u64)
    requires
        b@.len() == 8,
    ensures
        r == le_value(b@),
{
    proof {
        le_of_eight(b@);
        assert(b@.take(4) =~= b@.subrange(0, 4));
        assert(b@.skip(4) =~= b@.subrange(4, 8));
    }
    let low: u32 = read_le4(b, 0);
    let high: u32 = read_le4(b, 4);
    low as u64 + 0x1_0000_0000 * (high as u64)
}

/// The two's-complement pattern of a signed number in `bits` bits, given as the
/// number of patterns.
pub open spec fn pattern(v: int, patterns: nat) -> nat {
    if v >= 0 {
        v as nat
    } else {
        (v + patterns) as nat
    }
}

/// The signed number that a two's-complement pattern stands for.
pub open spec fn signed(u: nat, patterns: nat) -> int {
    if u < patterns / 2 {
        u as int
    } else {
        u - patterns
    }
}

/// Patterns in 64 bits.
pub open spec fn patterns64() -> nat {
    0x1_0000_0000_0000_0000
}

/// Patterns in 32 bits.
pub open spec fn patterns32() -> nat {
    0x1_0000_0000
}

/// The bytes of a 64-bit signed number.
pub open spec fn i64_bytes(v: i64) -> Seq<u8> {
    le_bytes(pattern(v as int, patterns64()), 8)
}

/// The bytes of a 32-bit signed number.
pub open spec fn i32_bytes(v: i32) -> Seq<u8> {
    le_bytes(pattern(v as int, patterns32()), 4)
}

/// The bytes of a 32-bit unsigned number.
pub open spec fn u32_bytes(v: u32) -> Seq<u8> {
    le_bytes(v as nat, 4)
}

/// The bytes of a 64-bit signed number.
pub fn i64_to_bytes(v: i64) -> (r: Vec<u8>)
    ensures
        r@ == i64_bytes(v),
{
    let u: u64 = if v >= 0 {
        v as u64
    } else {
        (v as i128 + 0x1_0000_0000_0000_0000) as u64
    };
    push_le(u, 8)
}

/// The bytes of a 64-bit unsigned number.
pub fn u64_to_bytes(v: u64) -> (r: Vec<u8>)
    ensures
        r@ == le_bytes(v as nat, 8),
{
    push_le(v, 8)
}

fn i32_to_bytes(v: i32) -> (r: Vec<u8>)
    ensures
        r@ == i32_bytes(v),
{
    let u: u64 = if v >= 0 {
        v as u64
    } else {
        (v as i64 + 0x1_0000_0000) as u64
    };
    push_le(u, 4)
}

/// A 64-bit signed number reads back from its bytes.
pub proof fn i64_reads_back(v: i64)
    ensures
        i64_bytes(v).len() == 8,
        signed(le_value(i64_bytes(v)), patterns64()) == v,
{
    let u = pattern(v as int, patterns64());
    reveal_with_fuel(fits, 9);
    assert(fits(u, 8));
    le_reads_back(u, 8);
}

/// The pattern of a 64-bit unsigned number reads back through a signed one.
pub proof fn u64_reads_back(v: u64)
    ensures
        le_bytes(v as nat, 8).len() == 8,
        i64::MIN <= signed(le_value(le_bytes(v as nat, 8)), patterns64()) <= i64::MAX,
        pattern(signed(le_value(le_bytes(v as nat, 8)), patterns64()), patterns64()) == v,
{
    reveal_with_fuel(fits, 9);
    assert(fits(v as nat, 8));
    le_reads_back(v as nat, 8);
}

/// A 32-bit signed number reads back from its bytes.
pub proof fn i32_reads_back(v: i32)
    ensures
        i32_bytes(v).len() == 4,
        signed(le_value(i32_bytes(v)), patterns32()) == v,
{
    let u = pattern(v as int, patterns32());
    reveal_with_fuel(fits, 5);
    assert(fits(u, 4));
    le_reads_back(u, 4);
}

/// A 32-bit unsigned number reads back from its bytes.
pub proof fn u32_reads_back(v: u32)
    ensures
        u32_bytes(v).len() == 4,
        le_value(u32_bytes(v)) == v,
{
    reveal_with_fuel(fits, 5);
    assert(fits(v as nat, 4));
    le_reads_back(v as nat, 4);
}

// ------------------------------------------------------------------ the table

/// A row of the settings table.
#[derive(Debug)]
pub struct SettingRow {
    /// Key.
    pub key: SettingKey,
    /// Value.
    pub value: Vec<u8>,
}

impl Keyed for SettingRow {
    type Key = SettingKey;

    type Row = Seq<u8>;

    open spec fn row_key(self) -> SettingKey {
        self.key
    }

    open spec fn row_view(self, session_key: Seq<u8>) -> Seq<u8> {
        self.value@
    }
}

/// The settings table.
#[derive(Debug)]
pub struct SettingTable {
    /// Rows, with distinct keys.
    pub rows: Vec<SettingRow>,
}

/// The message about a row of the wrong length.
pub open spec fn wrong_width(key: SettingKey, expected: Seq<char>, found: nat) -> Seq<char> {
    key.stored_as() + expected + text::decimal_of(found) + " bytes"@
}

/// What a text setting reads as: `None` where there is no row, and an error
/// message where the row does not hold UTF-8.
pub open spec fn text_in(m: Map<SettingKey, Seq<u8>>, key: SettingKey) -> Result<
    Option<Seq<char>>,
    Seq<char>,
> {
    if !m.contains_key(key) {
        Ok(None)
    } else if valid_utf8(m[key]) {
        Ok(Some(decode_utf8(m[key])))
    } else {
        Err(key.stored_as() + ": non-utf8 setting value: "@ + codec::utf8_fault(m[key]))
    }
}

/// What a 64-bit setting reads as.
pub open spec fn i64_in(m: Map<SettingKey, Seq<u8>>, key: SettingKey) -> Result<
    Option<i64>,
    Seq<char>,
> {
    if !m.contains_key(key) {
        Ok(None)
    } else if m[key].len() == 8 {
        Ok(Some(signed(le_value(m[key]), patterns64()) as i64))
    } else {
        Err(wrong_width(key, ": expected 8-byte i64, got "@, m[key].len()))
    }
}

/// What a signed 32-bit setting reads as.
pub open spec fn i32_in(m: Map<SettingKey, Seq<u8>>, key: SettingKey) -> Result<
    Option<i32>,
    Seq<char>,
> {
    if !m.contains_key(key) {
        Ok(None)
    } else if m[key].len() == 4 {
        Ok(Some(signed(le_value(m[key]), patterns32()) as i32))
    } else {
        Err(wrong_width(key, ": expected 4-byte i32, got "@, m[key].len()))
    }
}

/// What an unsigned 32-bit setting reads as.
pub open spec fn u32_in(m: Map<SettingKey, Seq<u8>>, key: SettingKey) -> Result<
    Option<u32>,
    Seq<char>,
> {
    if !m.contains_key(key) {
        Ok(None)
    } else if m[key].len() == 4 {
        Ok(Some(le_value(m[key]) as u32))
    } else {
        Err(wrong_width(key, ": expected 4-byte u32, got "@, m[key].len()))
    }
}

/// What an instant reads as: `None` where there is no row, or where the count
/// lies outside the calendar.
pub open spec fn instant_in(m: Map<SettingKey, Seq<u8>>, key: SettingKey) -> Result<
    Option<Timestamp>,
    Seq<char>,
> {
    match i64_in(m, key) {
        Ok(ms) => Ok(time::optional_instant_of(ms)),
        Err(e) => Err(e),
    }
}

/// Whether an error reports a broken invariant with the given message.
pub open spec fn reports_invariant(e: EngineError, message: Seq<char>) -> bool {
    e matches EngineError::Projection(ProjectionError::SchemaInvariant(text)) && text@ == message
}

/// The error that reports a broken invariant.
pub fn invariant_error(message: String) -> (r: EngineError)
    ensures
        reports_invariant(r, message@),
{
    EngineError::Projection(ProjectionError::SchemaInvariant(message))
}

fn width_error(key: SettingKey, expected: &str, found: usize) -> (r: EngineError)
    ensures
        reports_invariant(r, wrong_width(key, expected@, found as nat)),
{
    let mut message: String = text::joined(key.name(), expected);
    message.push_str(text::decimal(found as u64).as_str());
    message.push_str(" bytes");
    invariant_error(message)
}

impl SettingTable {
    /// Whether the keys are distinct.
    pub open spec fn wf(self) -> bool {
        table::distinct_rows(self.rows@)
    }

    /// An empty table.
    pub fn new() -> (r: SettingTable)
        ensures
            r.wf(),
            r@ == Map::<SettingKey, Seq<u8>>::empty(),
    {
        SettingTable { rows: Vec::new() }
    }

    fn position(&self, key: SettingKey) -> (r: Option<usize>)
        ensures
            match r {
                Some(i) => i < self.rows@.len() && self.rows@[i as int].key == key,
                None => !table::has_row(self.rows@, key),
            },
    {
        let mut i: usize = 0;
        while i < self.rows.len()
            invariant
                i <= self.rows.len(),
                forall|k: int| 0 <= k < i ==> (#[trigger] self.rows@[k]).row_key() != key,
            decreases self.rows.len() - i,
        {
            if self.rows[i].key == key {
                return Some(i);
            }
            i = i + 1;
        }
        None
    }

    /// Removes a row, if there is one.
    pub fn delete(&mut self, key: SettingKey)
        requires
            old(self).wf(),
        ensures
            final(self).wf(),
            final(self)@ == old(self)@.remove(key),
            !table::has_row(final(self).rows@, key),
    {
        let ghost before = self.rows@;
        match self.position(key) {
            Some(i) => {
                self.rows.remove(i);
                proof {
                    table::map_remove(before, i as int, Seq::empty());
                }
            },
            None => {
                proof {
                    table::map_remove_absent(before, Seq::empty(), key);
                }
            },
        }
    }

    /// Sets a row, in place of an earlier one.
    pub fn set_blob(&mut self, key: SettingKey, value: Vec<u8>)
        requires
            old(self).wf(),
        ensures
            final(self).wf(),
            final(self)@ == old(self)@.insert(key, value@),
    {
        self.delete(key);
        let ghost before = self.rows@;
        let row = SettingRow { key, value };
        proof {
            table::map_push(before, row, Seq::empty());
        }
        self.rows.push(row);
        proof {
            assert(self@ =~= old(self)@.insert(key, value@));
        }
    }

    /// Sets a text.
    pub fn set_text(&mut self, key: SettingKey, value: &str)
        requires
            old(self).wf(),
        ensures
            final(self).wf(),
            final(self)@ == old(self)@.insert(key, encode_utf8(value@)),
    {
        self.set_blob(key, codec::utf8_bytes(value));
    }

    /// Sets a 64-bit number.
    pub fn set_i64(&mut self, key: SettingKey, value: i64)
        requires
            old(self).wf(),
        ensures
            final(self).wf(),
            final(self)@ == old(self)@.insert(key, i64_bytes(value)),
    {
        self.set_blob(key, i64_to_bytes(value));
    }

    /// Sets a signed 32-bit number.
    pub fn set_i32(&mut self, key: SettingKey, value: i32)
        requires
            old(self).wf(),
        ensures
            final(self).wf(),
            final(self)@ == old(self)@.insert(key, i32_bytes(value)),
    {
        self.set_blob(key, i32_to_bytes(value));
    }

    /// Sets an unsigned 32-bit number.
    pub fn set_u32(&mut self, key: SettingKey, value: u32)
        requires
            old(self).wf(),
        ensures
            final(self).wf(),
            final(self)@ == old(self)@.insert(key, u32_bytes(value)),
    {
        self.set_blob(key, push_le(value as u64, 4));
    }

    /// Sets an instant, or removes the row where there is none.
    pub fn set_optional_timestamp(&mut self, key: SettingKey, value: Option<Timestamp>)
        requires
            old(self).wf(),
        ensures
            final(self).wf(),
            final(self)@ == with_instant(old(self)@, key, value),
    {
        match value {
            Some(dt) => self.set_i64(key, dt.millis),
            None => self.delete(key),
        }
    }

    /// Reads a row.
    pub fn get_blob(&self, key: SettingKey) -> (r: Option<Vec<u8>>)
        requires
            self.wf(),
        ensures
            r is Some <==> self@.contains_key(key),
            r is Some ==> r->0@ == self@[key],
    {
        proof {
            table::map_keys(self.rows@, Seq::empty(), key);
        }
        match self.position(key) {
            Some(i) => {
                proof {
                    table::map_rows(self.rows@, Seq::empty(), i as int);
                }
                Some(rows::copy_bytes(self.rows[i].value.as_slice()))
            },
            None => None,
        }
    }

    /// Reads a text.
    pub fn get_text(&self, key: SettingKey) -> (r: Result<Option<String>, EngineError>)
        requires
            self.wf(),
        ensures
            match r {
                Ok(v) => text_in(self@, key) is Ok && v.deep_view() == text_in(self@, key)->Ok_0,
                Err(e) => text_in(self@, key) is Err && reports_invariant(
                    e,
                    text_in(self@, key)->Err_0,
                ),
            },
    {
        match self.get_blob(key) {
            None => Ok(None),
            Some(bytes) => match codec::text_from_utf8(bytes) {
                Ok(s) => Ok(Some(s)),
                Err(fault) => {
                    let mut message: String = text::joined(
                        key.name(),
                        ": non-utf8 setting value: ",
                    );
                    message.push_str(fault.as_str());
                    Err(invariant_error(message))
                },
            },
        }
    }

    /// Reads a 64-bit number.
    pub fn get_i64(&self, key: SettingKey) -> (r: Result<Option<i64>, EngineError>)
        requires
            self.wf(),
        ensures
            match r {
                Ok(v) => i64_in(self@, key) is Ok && v == i64_in(self@, key)->Ok_0,
                Err(e) => i64_in(self@, key) is Err && reports_invariant(
                    e,
                    i64_in(self@, key)->Err_0,
                ),
            },
    {
        match self.get_blob(key) {
            None => Ok(None),
            Some(bytes) => {
                if bytes.len() != 8 {
                    return Err(width_error(key, ": expected 8-byte i64, got ", bytes.len()));
                }
                let u: u64 = read_le8(&bytes);
                let v: i64 = if u <= 0x7fff_ffff_ffff_ffff {
                    u as i64
                } else {
                    (u as i128 - 0x1_0000_0000_0000_0000) as i64
                };
                Ok(Some(v))
            },
        }
    }

    /// Reads a signed 32-bit number.
    pub fn get_i32(&self, key: SettingKey) -> (r: Result<Option<i32>, EngineError>)
        requires
            self.wf(),
        ensures
            match r {
                Ok(v) => i32_in(self@, key) is Ok && v == i32_in(self@, key)->Ok_0,
                Err(e) => i32_in(self@, key) is Err && reports_invariant(
                    e,
                    i32_in(self@, key)->Err_0,
                ),
            },
    {
        match self.get_blob(key) {
            None => Ok(None),
            Some(bytes) => {
                if bytes.len() != 4 {
                    return Err(width_error(key, ": expected 4-byte i32, got ", bytes.len()));
                }
                proof {
                    assert(bytes@.subrange(0, 4) =~= bytes@);
                }
                let u: u32 = read_le4(&bytes, 0);
                let v: i32 = if u <= 0x7fff_ffff {
                    u as i32
                } else {
                    (u as i64 - 0x1_0000_0000) as i32
                };
                Ok(Some(v))
            },
        }
    }

    /// Reads an unsigned 32-bit number.
    pub fn get_u32(&self, key: SettingKey) -> (r: Result<Option<u32>, EngineError>)
        requires
            self.wf(),
        ensures
            match r {
                Ok(v) => u32_in(self@, key) is Ok && v == u32_in(self@, key)->Ok_0,
                Err(e) => u32_in(self@, key) is Err && reports_invariant(
                    e,
                    u32_in(self@, key)->Err_0,
                ),
            },
    {
        match self.get_blob(key) {
            None => Ok(None),
            Some(bytes) => {
                if bytes.len() != 4 {
                    return Err(width_error(key, ": expected 4-byte u32, got ", bytes.len()));
                }
                proof {
                    assert(bytes@.subrange(0, 4) =~= bytes@);
                }
                Ok(Some(read_le4(&bytes, 0)))
            },
        }
    }

    /// Reads an instant.
    pub fn get_optional_timestamp(&self, key: SettingKey) -> (r: Result<
        Option<Timestamp>,
        EngineError,
    >)
        requires
            self.wf(),
        ensures
            match r {
                Ok(v) => instant_in(self@, key) is Ok && v == instant_in(self@, key)->Ok_0,
                Err(e) => instant_in(self@, key) is Err && reports_invariant(
                    e,
                    instant_in(self@, key)->Err_0,
                ),
            },
    {
        match self.get_i64(key) {
            Ok(ms) => Ok(time::optional_ms_to_dt(ms)),
            Err(e) => Err(e),
        }
    }
}

/// The settings with an instant set, or without its row where there is none.
pub open spec fn with_instant(
    m: Map<SettingKey, Seq<u8>>,
    key: SettingKey,
    value: Option<Timestamp>,
) -> Map<SettingKey, Seq<u8>> {
    match value {
        Some(dt) => m.insert(key, i64_bytes(dt.millis)),
        None => m.remove(key),
    }
}

impl View for SettingTable {
    type V = Map<SettingKey, Seq<u8>>;

    open spec fn view(&self) -> Map<SettingKey, Seq<u8>> {
        table::as_map(self.rows@, Seq::empty())
    }
}

} // verus!
