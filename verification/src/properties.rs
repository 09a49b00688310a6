//! Single properties of the vault: history caps, envelope facts, icons, and
//! what the properties sheet shows.

use vstd::prelude::*;
use vstd::utf8::*;

use crate::codec;
use crate::codec::Uuid;
use crate::error::{EngineError, SqliteError};
use crate::meta;
use crate::meta::{IconRow, IconRowView};
use crate::meta_tables;
use crate::meta_tables::MetaTables;
use crate::mirror;
use crate::mirror::{GroupRow, GroupRowView, Mirror};
use crate::rows;
use crate::rows::BlobView;
use crate::settings;
use crate::settings::{SettingKey, SettingTable};
use crate::text;

verus! {

broadcast use {vstd::std_specs::btree::group_btree_axioms, vstd::laws_cmp::group_laws_cmp};

// -------------------------------------------------------------- history caps

/// A history cap as read: the default where nothing is set.
pub open spec fn items_cap(m: Map<SettingKey, Seq<u8>>) -> Result<i32, Seq<char>> {
    match settings::i32_in(m, SettingKey::HistoryMaxItems) {
        Ok(Some(v)) => Ok(v),
        Ok(None) => Ok(meta::DEFAULT_HISTORY_MAX_ITEMS),
        Err(e) => Err(e),
    }
}

/// A history cap as read: the default where nothing is set.
pub open spec fn size_cap(m: Map<SettingKey, Seq<u8>>) -> Result<i64, Seq<char>> {
    match settings::i64_in(m, SettingKey::HistoryMaxSize) {
        Ok(Some(v)) => Ok(v),
        Ok(None) => Ok(meta::DEFAULT_HISTORY_MAX_SIZE),
        Err(e) => Err(e),
    }
}

/// A cap that was set is the cap that is read.
pub proof fn caps_read_back(m: Map<SettingKey, Seq<u8>>, items: i32, size: i64)
    ensures
        items_cap(m.insert(SettingKey::HistoryMaxItems, settings::i32_bytes(items))) == Ok::<
            i32,
            Seq<char>,
        >(items),
        size_cap(m.insert(SettingKey::HistoryMaxSize, settings::i64_bytes(size))) == Ok::<
            i64,
            Seq<char>,
        >(size),
{
    settings::i32_reads_back(items);
    settings::i64_reads_back(size);
}

/// Most history records per entry.
pub fn read_history_max_items(settings: &SettingTable) -> (r: Result<i32, EngineError>)
    requires
        settings.wf(),
    ensures
        match r {
            Ok(v) => items_cap(settings@) == Ok::<i32, Seq<char>>(v),
            Err(e) => items_cap(settings@) is Err && settings::reports_invariant(
                e,
                items_cap(settings@)->Err_0,
            ),
        },
{
    match settings.get_i32(SettingKey::HistoryMaxItems) {
        Ok(Some(v)) => Ok(v),
        Ok(None) => Ok(meta::DEFAULT_HISTORY_MAX_ITEMS),
        Err(e) => Err(e),
    }
}

/// Most bytes of history per entry.
pub fn read_history_max_size(settings: &SettingTable) -> (r: Result<i64, EngineError>)
    requires
        settings.wf(),
    ensures
        match r {
            Ok(v) => size_cap(settings@) == Ok::<i64, Seq<char>>(v),
            Err(e) => size_cap(settings@) is Err && settings::reports_invariant(
                e,
                size_cap(settings@)->Err_0,
            ),
        },
{
    match settings.get_i64(SettingKey::HistoryMaxSize) {
        Ok(Some(v)) => Ok(v),
        Ok(None) => Ok(meta::DEFAULT_HISTORY_MAX_SIZE),
        Err(e) => Err(e),
    }
}

// --------------------------------------------------------------- the recycle bin

/// Writes whether deleting moves to the recycle bin, as one byte.
pub fn write_recycle_bin_enabled(settings: &mut SettingTable, enabled: bool)
    requires
        old(settings).wf(),
    ensures
        final(settings).wf(),
        final(settings)@ == old(settings)@.insert(
            SettingKey::RecycleBinEnabled,
            seq![if enabled { 1u8 } else { 0u8 }],
        ),
{
    let mut value: Vec<u8> = Vec::new();
    value.push(
        if enabled {
            1
        } else {
            0
        },
    );
    assert(value@ =~= seq![if enabled { 1u8 } else { 0u8 }]);
    settings.set_blob(SettingKey::RecycleBinEnabled, value);
}

/// Whether the group is marked as the recycle bin.
pub open spec fn is_marked(groups: Map<Uuid, GroupRowView>, u: Uuid) -> bool {
    groups.contains_key(u) && groups[u].is_recycle_bin
}

/// The group marked as the recycle bin, if one is. Where several are, which one
/// comes out is left open.
pub fn read_recycle_bin_uuid(mirror: &Mirror) -> (r: Option<Uuid>)
    ensures
        match r {
            Some(u) => is_marked(mirror::group_views(mirror.groups@), u),
            None => forall|u: Uuid| !is_marked(mirror::group_views(mirror.groups@), u),
        },
{
    let uuids = mirror.group_uuids();
    let mut i: usize = 0;
    while i < uuids.len()
        invariant
            i <= uuids.len(),
            forall|u: Uuid| #[trigger] mirror.groups@.contains_key(u) <==> uuids@.contains(u),
            forall|j: int| 0 <= j < i ==> !mirror.groups@[#[trigger] uuids@[j]].is_recycle_bin,
        decreases uuids.len() - i,
    {
        proof {
            assert(uuids@.contains(uuids@[i as int]));
        }
        match mirror.groups.get(&uuids[i]) {
            Some(row) => {
                if row.is_recycle_bin {
                    return Some(uuids[i]);
                }
            },
            None => {},
        }
        i = i + 1;
    }
    proof {
        assert forall|u: Uuid| !is_marked(mirror::group_views(mirror.groups@), u) by {
            if mirror.groups@.contains_key(u) {
                let j = choose|j: int| 0 <= j < uuids@.len() && uuids@[j] == u;
                assert(!mirror.groups@[uuids@[j]].is_recycle_bin);
            }
        }
    }
    None
}

/// Whether deleting moves to the recycle bin: as set, or else whether a group is
/// marked as the bin.
pub open spec fn bin_enabled(
    m: Map<SettingKey, Seq<u8>>,
    groups: Map<Uuid, GroupRowView>,
) -> bool {
    if m.contains_key(SettingKey::RecycleBinEnabled) && m[SettingKey::RecycleBinEnabled].len() == 1 {
        m[SettingKey::RecycleBinEnabled][0] != 0
    } else {
        exists|u: Uuid| is_marked(groups, u)
    }
}

/// Whether deleting moves to the recycle bin.
pub fn read_recycle_bin_enabled(settings: &SettingTable, mirror: &Mirror) -> (r: bool)
    requires
        settings.wf(),
    ensures
        r == bin_enabled(settings@, mirror::group_views(mirror.groups@)),
{
    if let Some(bytes) = settings.get_blob(SettingKey::RecycleBinEnabled) {
        if bytes.len() == 1 {
            return bytes[0] != 0;
        }
    }
    read_recycle_bin_uuid(mirror).is_some()
}

/// A switch that was set is the switch that is read, whether or not there is a
/// bin.
pub proof fn switch_reads_back(
    m: Map<SettingKey, Seq<u8>>,
    groups: Map<Uuid, GroupRowView>,
    enabled: bool,
)
    ensures
        bin_enabled(
            m.insert(SettingKey::RecycleBinEnabled, seq![if enabled { 1u8 } else { 0u8 }]),
            groups,
        ) == enabled,
{
}

/// The groups with one marked as the recycle bin and no other.
pub open spec fn with_bin(groups: Map<Uuid, GroupRowView>, bin: Option<Uuid>) -> Map<
    Uuid,
    GroupRowView,
> {
    groups.map_entries(|u: Uuid, row: GroupRowView| GroupRowView { is_recycle_bin: bin == Some(u), ..row })
}

/// At most one group is the recycle bin after it was set, and it is the one
/// named, if the mirror holds it.
pub proof fn one_bin_at_most(groups: Map<Uuid, GroupRowView>, bin: Option<Uuid>, u: Uuid)
    ensures
        is_marked(with_bin(groups, bin), u) <==> bin == Some(u) && groups.contains_key(u),
{
}

fn mark_bin(mirror: &mut Mirror, bin: Option<Uuid>)
    ensures
        mirror::group_views(final(mirror).groups@) == with_bin(
            mirror::group_views(old(mirror).groups@),
            bin,
        ),
        *final(mirror) == (Mirror { groups: final(mirror).groups, ..*old(mirror) }),
{
    let uuids = mirror.group_uuids();
    let ghost before = mirror.groups@;
    let mut i: usize = 0;
    while i < uuids.len()
        invariant
            i <= uuids.len(),
            before == old(mirror).groups@,
            uuids@.no_duplicates(),
            forall|u: Uuid| #[trigger] before.contains_key(u) <==> uuids@.contains(u),
            mirror.groups@.dom() == before.dom(),
            forall|j: int|
                0 <= j < i ==> mirror.groups@[#[trigger] uuids@[j]].deep_view() == (GroupRowView {
                    is_recycle_bin: bin == Some(uuids@[j]),
                    ..before[uuids@[j]].deep_view()
                }),
            forall|j: int| i <= j < uuids@.len() ==> mirror.groups@[#[trigger] uuids@[j]] == before[uuids@[j]],
            *mirror == (Mirror { groups: mirror.groups, ..*old(mirror) }),
        decreases uuids.len() - i,
    {
        let uuid: Uuid = uuids[i];
        proof {
            assert(uuids@.contains(uuids@[i as int]));
            assert(before.contains_key(uuid));
            assert(mirror.groups@.dom().contains(uuid));
        }
        match mirror.groups.remove(&uuid) {
            Some(row) => {
                let marked = GroupRow { is_recycle_bin: bin == Some(uuid), ..row };
                mirror.groups.insert(uuid, marked);
            },
            None => {},
        }
        proof {
            assert(mirror.groups@.dom() =~= before.dom());
        }
        i = i + 1;
    }
    proof {
        assert forall|u: Uuid| before.contains_key(u) implies #[trigger] mirror.groups@[u].deep_view()
            == (GroupRowView { is_recycle_bin: bin == Some(u), ..before[u].deep_view() }) by {
            let j = choose|j: int| 0 <= j < uuids@.len() && uuids@[j] == u;
            assert(uuids@[j] == u);
        }
        assert(mirror::group_views(mirror.groups@) =~= with_bin(
            mirror::group_views(before),
            bin,
        ));
    }
}

/// Makes a group the recycle bin, and no other.
pub fn write_recycle_bin_group(mirror: &mut Mirror, uuid: Uuid)
    ensures
        mirror::group_views(final(mirror).groups@) == with_bin(
            mirror::group_views(old(mirror).groups@),
            Some(uuid),
        ),
        *final(mirror) == (Mirror { groups: final(mirror).groups, ..*old(mirror) }),
{
    mark_bin(mirror, Some(uuid));
}

/// Leaves the vault without a recycle bin.
pub fn clear_recycle_bin_group(mirror: &mut Mirror)
    ensures
        mirror::group_views(final(mirror).groups@) == with_bin(
            mirror::group_views(old(mirror).groups@),
            None,
        ),
        *final(mirror) == (Mirror { groups: final(mirror).groups, ..*old(mirror) }),
{
    mark_bin(mirror, None);
}

// ------------------------------------------------------------ the envelope

/// Facts of the encrypted file's envelope.
#[derive(Debug)]
pub struct HeaderFacts {
    /// Identity of the cipher.
    pub cipher_id: [u8; 16],
    /// Key-derivation parameters, in newer files.
    pub kdf_params: Option<Vec<u8>>,
    /// Key-derivation rounds, in older files.
    pub transform_rounds: Option<u64>,
}

/// The settings with an optional blob set, or without its row.
pub open spec fn with_optional(
    m: Map<SettingKey, Seq<u8>>,
    key: SettingKey,
    value: Option<Seq<u8>>,
) -> Map<SettingKey, Seq<u8>> {
    match value {
        Some(v) => m.insert(key, v),
        None => m.remove(key),
    }
}

/// The settings with the envelope's facts written.
pub open spec fn with_header(m: Map<SettingKey, Seq<u8>>, facts: HeaderFacts) -> Map<
    SettingKey,
    Seq<u8>,
> {
    with_optional(
        with_optional(
            m.insert(SettingKey::KdbxCipherOid, facts.cipher_id@),
            SettingKey::KdbxKdfParameters,
            match facts.kdf_params {
                Some(b) => Some(b@),
                None => None,
            },
        ),
        SettingKey::KdbxTransformRounds,
        match facts.transform_rounds {
            Some(n) => Some(settings::le_bytes(n as nat, 8)),
            None => None,
        },
    )
}

/// Copies the bytes of a cipher's identity.
fn cipher_bytes(id: &[u8; 16]) -> (r: Vec<u8>)
    ensures
        r@ == id@,
{
    let mut out: Vec<u8> = Vec::new();
    let mut i: usize = 0;
    while i < 16
        invariant
            i <= 16,
            out@ == id@.take(i as int),
        decreases 16 - i,
    {
        proof {
            assert(id@.take(i + 1) =~= id@.take(i as int).push(id@[i as int]));
        }
        out.push(id[i]);
        i = i + 1;
    }
    assert(id@.take(16) =~= id@);
    out
}

/// Writes the envelope's facts. A count of rounds keeps its bit pattern.
pub fn write_kdbx_outer_header_facts(settings: &mut SettingTable, facts: &HeaderFacts)
    requires
        old(settings).wf(),
    ensures
        final(settings).wf(),
        final(settings)@ == with_header(old(settings)@, *facts),
{
    settings.set_blob(SettingKey::KdbxCipherOid, cipher_bytes(&facts.cipher_id));
    match &facts.kdf_params {
        Some(blob) => {
            settings.set_blob(
                SettingKey::KdbxKdfParameters,
                rows::copy_bytes(blob.as_slice()),
            );
        },
        None => {
            settings.delete(SettingKey::KdbxKdfParameters);
        },
    }
    match facts.transform_rounds {
        Some(rounds) => {
            settings.set_blob(SettingKey::KdbxTransformRounds, settings::u64_to_bytes(rounds));
        },
        None => {
            settings.delete(SettingKey::KdbxTransformRounds);
        },
    }
}

/// The ciphers that have a name.
#[derive(Debug, Clone, Copy, PartialEq, Eq, Structural)]
pub enum KnownCipher {
    /// AES-256 in CBC mode.
    Aes256Cbc,
    /// ChaCha20.
    ChaCha20,
    /// Twofish in CBC mode.
    TwofishCbc,
}

/// The name shown for a cipher; "Unknown" for one without a name.
pub open spec fn cipher_name(known: Option<KnownCipher>) -> Seq<char> {
    match known {
        Some(KnownCipher::Aes256Cbc) => "AES-256-CBC"@,
        Some(KnownCipher::ChaCha20) => "ChaCha20"@,
        Some(KnownCipher::TwofishCbc) => "Twofish-CBC"@,
        None => "Unknown"@,
    }
}

/// The name shown for a cipher; "Unknown" for one without a name.
pub fn cipher_display(known: Option<KnownCipher>) -> (r: String)
    ensures
        r@ == cipher_name(known),
{
    match known {
        Some(KnownCipher::Aes256Cbc) => "AES-256-CBC".to_owned(),
        Some(KnownCipher::ChaCha20) => "ChaCha20".to_owned(),
        Some(KnownCipher::TwofishCbc) => "Twofish-CBC".to_owned(),
        None => "Unknown".to_owned(),
    }
}

/// Whether the cipher's identity is stored: there is a row, and it is sixteen
/// bytes long.
pub open spec fn names_cipher(m: Map<SettingKey, Seq<u8>>) -> bool {
    m.contains_key(SettingKey::KdbxCipherOid) && m[SettingKey::KdbxCipherOid].len() == 16
}

/// The name shown for the stored cipher; "Unknown" where none is stored.
pub open spec fn cipher_shown(
    m: Map<SettingKey, Seq<u8>>,
    known: Option<KnownCipher>,
) -> Seq<char> {
    if names_cipher(m) {
        cipher_name(known)
    } else {
        "Unknown"@
    }
}

/// The stored identity of the cipher. `None` where there is no row, or where it
/// is not sixteen bytes long.
pub fn read_cipher_id(settings: &SettingTable) -> (r: Option<Vec<u8>>)
    requires
        settings.wf(),
    ensures
        r is Some <==> names_cipher(settings@),
        r is Some ==> r->0@ == settings@[SettingKey::KdbxCipherOid],
{
    match settings.get_blob(SettingKey::KdbxCipherOid) {
        Some(b) => if b.len() == 16 {
            Some(b)
        } else {
            None
        },
        None => None,
    }
}

/// The name shown for the stored cipher; "Unknown" where none is stored.
/// `known` is what the stored identity stands for.
pub fn read_cipher_display(settings: &SettingTable, known: Option<KnownCipher>) -> (r: String)
    requires
        settings.wf(),
    ensures
        r@ == cipher_shown(settings@, known),
{
    match read_cipher_id(settings) {
        Some(_) => cipher_display(known),
        None => "Unknown".to_owned(),
    }
}

/// Variants of Argon2.
#[derive(Debug, Clone, Copy, PartialEq, Eq, Structural)]
pub enum Argon2Variant {
    /// Argon2d.
    Argon2d,
    /// Argon2id.
    Argon2id,
    /// Any other.
    Other,
}

/// Parameters of a key derivation.
#[derive(Debug, Clone, Copy, PartialEq, Eq, Structural)]
pub enum KdfParams {
    /// Repeated AES.
    AesKdf {
        /// Rounds.
        rounds: u64,
    },
    /// Argon2.
    Argon2 {
        /// Variant.
        variant: Argon2Variant,
        /// Memory in bytes.
        memory_bytes: u64,
        /// Passes.
        iterations: u64,
        /// Lanes.
        parallelism: u32,
    },
    /// A derivation without a name here.
    Other,
}

/// The name of an Argon2 variant.
pub open spec fn argon2_name(v: Argon2Variant) -> Seq<char> {
    match v {
        Argon2Variant::Argon2d => "Argon2d"@,
        Argon2Variant::Argon2id => "Argon2id"@,
        Argon2Variant::Other => "Argon2"@,
    }
}

/// The line shown for a repeated-AES derivation.
pub open spec fn aes_line(rounds: u64) -> Seq<char> {
    "AES-KDF ("@ + text::thousands_of(rounds as nat) + " rounds)"@
}

/// The line shown for a key derivation.
pub open spec fn kdf_line(p: KdfParams) -> Seq<char> {
    match p {
        KdfParams::AesKdf { rounds } => aes_line(rounds),
        KdfParams::Argon2 { variant, memory_bytes, iterations, parallelism } => {
            argon2_name(variant) + " ("@ + text::decimal_of((memory_bytes / 1048576) as nat)
                + " MB \u{00B7} "@ + text::decimal_of(iterations as nat) + " iter \u{00B7} "@
                + text::decimal_of(parallelism as nat) + " threads)"@
        },
        KdfParams::Other => "Unknown KDF"@,
    }
}

fn aes_display(rounds: u64) -> (r: String)
    ensures
        r@ == aes_line(rounds),
{
    let mut out: String = text::joined(
        "AES-KDF (",
        text::format_with_thousands(rounds).as_str(),
    );
    out.push_str(" rounds)");
    out
}

/// The line shown for a key derivation, for example
/// "Argon2id (64 MB \u{00B7} 2 iter \u{00B7} 4 threads)".
pub fn format_kdf_params(params: &KdfParams) -> (r: String)
    ensures
        r@ == kdf_line(*params),
{
    match *params {
        KdfParams::AesKdf { rounds } => aes_display(rounds),
        KdfParams::Argon2 { variant, memory_bytes, iterations, parallelism } => {
            let name: &str = match variant {
                Argon2Variant::Argon2d => "Argon2d",
                Argon2Variant::Argon2id => "Argon2id",
                Argon2Variant::Other => "Argon2",
            };
            let mut out: String = text::joined(name, " (");
            out.push_str(text::decimal(memory_bytes / 1048576).as_str());
            out.push_str(" MB \u{00B7} ");
            out.push_str(text::decimal(iterations).as_str());
            out.push_str(" iter \u{00B7} ");
            out.push_str(text::decimal(parallelism as u64).as_str());
            out.push_str(" threads)");
            out
        },
        KdfParams::Other => "Unknown KDF".to_owned(),
    }
}

/// The line shown for the stored key derivation: the newer parameters where
/// they were stored and could be parsed, else the older count of rounds.
pub open spec fn kdf_shown(m: Map<SettingKey, Seq<u8>>, parsed: Option<KdfParams>) -> Result<
    Seq<char>,
    Seq<char>,
> {
    if m.contains_key(SettingKey::KdbxKdfParameters) && parsed is Some {
        Ok(kdf_line(parsed->0))
    } else {
        match settings::i64_in(m, SettingKey::KdbxTransformRounds) {
            Ok(Some(v)) => Ok(aes_line(settings::pattern(v as int, settings::patterns64()) as u64)),
            Ok(None) => Ok("Unknown KDF"@),
            Err(e) => Err(e),
        }
    }
}

/// The line shown for the stored key derivation. `parsed` is what the stored
/// parameters parse to, if they are there and do.
pub fn read_kdf_display(settings: &SettingTable, parsed: Option<KdfParams>) -> (r: Result<
    String,
    EngineError,
>)
    requires
        settings.wf(),
    ensures
        match r {
            Ok(s) => kdf_shown(settings@, parsed) == Ok::<Seq<char>, Seq<char>>(s@),
            Err(e) => kdf_shown(settings@, parsed) is Err && settings::reports_invariant(
                e,
                kdf_shown(settings@, parsed)->Err_0,
            ),
        },
{
    if settings.get_blob(SettingKey::KdbxKdfParameters).is_some() {
        if let Some(p) = parsed {
            return Ok(format_kdf_params(&p));
        }
    }
    match settings.get_i64(SettingKey::KdbxTransformRounds) {
        Ok(Some(v)) => {
            let rounds: u64 = if v >= 0 {
                v as u64
            } else {
                (v as i128 + 0x1_0000_0000_0000_0000) as u64
            };
            Ok(aes_display(rounds))
        },
        Ok(None) => Ok("Unknown KDF".to_owned()),
        Err(e) => Err(e),
    }
}

/// A count of rounds is shown as it was stored.
pub proof fn rounds_read_back(m: Map<SettingKey, Seq<u8>>, rounds: u64)
    ensures
        kdf_shown(
            m.insert(SettingKey::KdbxTransformRounds, settings::le_bytes(rounds as nat, 8)),
            None,
        ) == Ok::<Seq<char>, Seq<char>>(aes_line(rounds)),
{
    settings::u64_reads_back(rounds);
}

// -------------------------------------------------------------- the pool of files

/// Sum of the sizes of the first `n` contents.
pub open spec fn total_size(blobs: Seq<BlobView>, n: nat) -> int
    decreases n,
{
    if n == 0 || n > blobs.len() {
        0
    } else {
        total_size(blobs, (n - 1) as nat) + blobs[n - 1].size
    }
}

/// Whether the sizes can be summed up in 64 bits.
pub open spec fn summable(blobs: Seq<BlobView>) -> bool {
    forall|n: nat| n <= blobs.len() ==> i64::MIN <= #[trigger] total_size(blobs, n) <= i64::MAX
}

/// The number of contents in the pool and the sum of their sizes. The database
/// refuses a sum that overflows 64 bits.
pub fn read_attachment_pool_stats(mirror: &Mirror) -> (r: Result<(u32, u64), EngineError>)
    ensures
        ({
            let blobs = mirror.blobs.deep_view();
            match r {
                Ok((count, bytes)) => {
                    &&& summable(blobs)
                    &&& count == (if blobs.len() <= u32::MAX {
                        blobs.len() as int
                    } else {
                        u32::MAX as int
                    })
                    &&& bytes == (if total_size(blobs, blobs.len()) >= 0 {
                        total_size(blobs, blobs.len())
                    } else {
                        0
                    })
                },
                Err(e) => {
                    &&& !summable(blobs)
                    &&& e matches EngineError::Sqlite(SqliteError::Other(text)) && text@
                        == "integer overflow"@
                },
            }
        }),
{
    let ghost blobs = mirror.blobs.deep_view();
    let mut total: i64 = 0;
    let mut i: usize = 0;
    while i < mirror.blobs.len()
        invariant
            i <= mirror.blobs.len(),
            blobs == mirror.blobs.deep_view(),
            total == total_size(blobs, i as nat),
            forall|n: nat| n <= i ==> i64::MIN <= #[trigger] total_size(blobs, n) <= i64::MAX,
        decreases mirror.blobs.len() - i,
    {
        let sum: i128 = total as i128 + mirror.blobs[i].size as i128;
        proof {
            assert(blobs[i as int].size == mirror.blobs@[i as int].size);
            assert(sum == total_size(blobs, (i + 1) as nat));
        }
        if sum < -0x8000_0000_0000_0000 || sum > 0x7fff_ffff_ffff_ffff {
            proof {
                assert(!(i64::MIN <= total_size(blobs, (i + 1) as nat) <= i64::MAX));
            }
            return Err(EngineError::Sqlite(SqliteError::Other("integer overflow".to_owned())));
        }
        total = sum as i64;
        i = i + 1;
    }
    let count: u32 = if mirror.blobs.len() as u64 <= 0xffff_ffff {
        mirror.blobs.len() as u32
    } else {
        u32::MAX
    };
    let bytes: u64 = if total >= 0 {
        total as u64
    } else {
        0
    };
    Ok((count, bytes))
}

/// What the properties sheet shows.
#[derive(Debug)]
pub struct DatabaseMetadata {
    /// Program that last wrote the vault; empty if never set.
    pub generator: String,
    /// Name of the cipher.
    pub cipher_display: String,
    /// Line for the key derivation.
    pub kdf_display: String,
    /// Distinct attached files.
    pub attachment_total_count: u32,
    /// Their size in bytes.
    pub attachment_total_bytes: u64,
}

/// What the properties sheet shows: nothing where the program's name cannot be
/// read, the key derivation cannot, or the sizes cannot be summed up, in this
/// order.
pub open spec fn sheet(
    tables: MetaTables,
    mirror: Mirror,
    known_cipher: Option<KnownCipher>,
    parsed_kdf: Option<KdfParams>,
    r: Result<DatabaseMetadata, EngineError>,
) -> bool {
    let m = tables.settings@;
    let blobs = mirror.blobs.deep_view();
    let fault = meta_tables::first_of(
        meta_tables::fault(settings::text_in(m, SettingKey::Generator)),
        meta_tables::fault(kdf_shown(m, parsed_kdf)),
    );
    match r {
        Ok(d) => {
            &&& fault is None && summable(blobs)
            &&& d.generator@ == meta_tables::or_else(
                settings::text_in(m, SettingKey::Generator),
                Seq::empty(),
            )
            &&& d.cipher_display@ == cipher_shown(m, known_cipher)
            &&& kdf_shown(m, parsed_kdf) == Ok::<Seq<char>, Seq<char>>(d.kdf_display@)
            &&& d.attachment_total_count == (if blobs.len() <= u32::MAX {
                blobs.len() as int
            } else {
                u32::MAX as int
            })
            &&& d.attachment_total_bytes == (if total_size(blobs, blobs.len()) >= 0 {
                total_size(blobs, blobs.len())
            } else {
                0
            })
        },
        Err(e) => (fault is Some && settings::reports_invariant(e, fault->0)) || (fault
            is None && !summable(blobs) && e is Sqlite),
    }

}

/// Reads what the properties sheet shows. `known_cipher` is the name of the
/// stored cipher, if it has one, and `parsed_kdf` what the stored parameters
/// parse to.
pub fn read_database_metadata(
    tables: &MetaTables,
    mirror: &Mirror,
    known_cipher: Option<KnownCipher>,
    parsed_kdf: Option<KdfParams>,
) -> (r: Result<DatabaseMetadata, EngineError>)
    requires
        tables.wf(),
    ensures
        sheet(*tables, *mirror, known_cipher, parsed_kdf, r),
{
    let generator: String = match tables.settings.get_text(SettingKey::Generator)? {
        Some(g) => g,
        None => String::new(),
    };
    let kdf = read_kdf_display(&tables.settings, parsed_kdf)?;
    let (count, bytes) = read_attachment_pool_stats(mirror)?;
    Ok(
        DatabaseMetadata {
            generator,
            cipher_display: read_cipher_display(&tables.settings, known_cipher),
            kdf_display: kdf,
            attachment_total_count: count,
            attachment_total_bytes: bytes,
        },
    )
}

// -------------------------------------------------------------------------- icons

/// The number that bytes stand for, most significant first.
pub open spec fn be_value(s: Seq<u8>) -> nat
    decreases s.len(),
{
    if s.len() == 0 {
        0
    } else {
        256 * be_value(s.drop_last()) + s.last() as nat
    }
}

/// How many numbers fit in `n` bytes.
pub open spec fn range_of(n: nat) -> nat
    decreases n,
{
    if n == 0 {
        1
    } else {
        256 * range_of((n - 1) as nat)
    }
}

proof fn be_value_fits(s: Seq<u8>)
    ensures
        be_value(s) < range_of(s.len()),
    decreases s.len(),
{
    if s.len() > 0 {
        be_value_fits(s.drop_last());
    }
}

/// The sixteen bytes of an icon's identity: the first of its digest, with the
/// version set to 8 and the variant to the standard one.
pub open spec fn icon_identity_bytes(sha256: Seq<u8>) -> Seq<u8> {
    sha256.take(16).update(6, (sha256[6] % 16 + 128) as u8).update(
        8,
        (sha256[8] % 64 + 128) as u8,
    )
}

/// The identity of an icon with the given digest.
pub open spec fn icon_identity(sha256: Seq<u8>) -> Uuid {
    be_value(icon_identity_bytes(sha256)) as Uuid
}

/// The identity of an icon, derived from its content's SHA-256 digest, so that
/// every device gives the same image the same identity.
pub fn content_addressed_icon_uuid(sha256: &[u8; 32]) -> (r: Uuid)
    ensures
        r == icon_identity(sha256@),
        r as nat == be_value(icon_identity_bytes(sha256@)),
{
    let ghost all = icon_identity_bytes(sha256@);
    let mut value: u128 = 0;
    let mut i: usize = 0;
    proof {
        assert(all.take(0) =~= Seq::empty());
        reveal_with_fuel(range_of, 17);
        assert(range_of(16) == 0x1_0000_0000_0000_0000_0000_0000_0000_0000);
    }
    while i < 16
        invariant
            i <= 16,
            all == icon_identity_bytes(sha256@),
            value == be_value(all.take(i as int)),
            range_of(16) == 0x1_0000_0000_0000_0000_0000_0000_0000_0000,
        decreases 16 - i,
    {
        let b: u8 = if i == 6 {
            sha256[i] % 16 + 128
        } else if i == 8 {
            sha256[i] % 64 + 128
        } else {
            sha256[i]
        };
        proof {
            assert(all.take(i + 1).drop_last() =~= all.take(i as int));
            assert(all.take(i + 1).last() == b);
            be_value_fits(all.take(i + 1));
            range_grows((i + 1) as nat, 16);
        }
        value = 256 * value + b as u128;
        i = i + 1;
    }
    proof {
        assert(all.take(16) =~= all);
    }
    value
}

proof fn range_grows(a: nat, b: nat)
    requires
        a <= b,
    ensures
        range_of(a) <= range_of(b),
    decreases b,
{
    if a < b {
        range_grows(a, (b - 1) as nat);
    }
}

/// An icon's identity is a well-formed UUID: version 8, standard variant.
pub proof fn icon_identity_is_well_formed(sha256: Seq<u8>)
    requires
        sha256.len() == 32,
    ensures
        icon_identity_bytes(sha256).len() == 16,
        icon_identity_bytes(sha256)[6] / 16 == 8,
        icon_identity_bytes(sha256)[8] / 64 == 2,
{
}

/// Position of the first of the first `n` icons with the given digest.
pub open spec fn first_with_digest(icons: Seq<IconRow>, n: nat, digest: Seq<u8>) -> Option<int>
    decreases n,
{
    if n == 0 || n > icons.len() {
        None
    } else {
        match first_with_digest(icons, (n - 1) as nat, digest) {
            Some(i) => Some(i),
            None => if codec::sha256(icons[n - 1].bytes@) == digest {
                Some(n - 1)
            } else {
                None
            },
        }
    }
}

/// Whether the pool has a row with that identity.
pub open spec fn has_icon(icons: Seq<IconRow>, uuid: Seq<char>) -> bool {
    exists|i: int| 0 <= i < icons.len() && (#[trigger] icons[i]).uuid@ == uuid
}

fn find_digest(icons: &Vec<IconRow>, digest: &Vec<u8>) -> (r: Option<usize>)
    ensures
        match r {
            Some(i) => i < icons@.len() && first_with_digest(icons@, icons@.len(), digest@) == Some(
                i as int,
            ),
            None => first_with_digest(icons@, icons@.len(), digest@) is None,
        },
{
    let mut i: usize = 0;
    while i < icons.len()
        invariant
            i <= icons.len(),
            first_with_digest(icons@, i as nat, digest@) is None,
        decreases icons.len() - i,
    {
        let own = rows::sha256_vec(icons[i].bytes.as_slice());
        if text::same_bytes(own.as_slice(), digest.as_slice()) {
            proof {
                digest_found(icons@, (i + 1) as nat, icons@.len(), digest@);
            }
            return Some(i);
        }
        i = i + 1;
    }
    None
}

proof fn digest_found(icons: Seq<IconRow>, a: nat, b: nat, digest: Seq<u8>)
    requires
        a <= b <= icons.len(),
        first_with_digest(icons, a, digest) is Some,
    ensures
        first_with_digest(icons, b, digest) == first_with_digest(icons, a, digest),
    decreases b,
{
    if a < b {
        digest_found(icons, a, (b - 1) as nat, digest);
    }
}

fn holds_icon(icons: &Vec<IconRow>, uuid: &str) -> (r: Option<usize>)
    ensures
        match r {
            Some(i) => i < icons@.len() && icons@[i as int].uuid@ == uuid@ && forall|k: int|
                0 <= k < i ==> (#[trigger] icons@[k]).uuid@ != uuid@,
            None => !has_icon(icons@, uuid@),
        },
{
    let mut i: usize = 0;
    while i < icons.len()
        invariant
            i <= icons.len(),
            forall|k: int| 0 <= k < i ==> (#[trigger] icons@[k]).uuid@ != uuid@,
        decreases icons.len() - i,
    {
        if text::same_text(icons[i].uuid.as_str(), uuid) {
            return Some(i);
        }
        i = i + 1;
    }
    None
}

/// Adds an image to the pool, unless it holds one with the same content: then
/// that one's identity is returned, and its name and time stay. A new image
/// gets the identity derived from its content, no name, and the time `now_ms`.
/// The flag says whether the image was added.
pub fn add_custom_icon_dedup(icons: &mut Vec<IconRow>, bytes: &[u8], now_ms: i64) -> (r: Result<
    (Uuid, bool),
    EngineError,
>)
    ensures
        ({
            let digest = codec::sha256(bytes@);
            let uuid = icon_identity(digest);
            match first_with_digest(old(icons)@, old(icons)@.len(), digest) {
                Some(i) => {
                    &&& final(icons)@ == old(icons)@
                    &&& match codec::uuid_parsed(old(icons)@[i].uuid@) {
                        Ok(existing) => r == Ok::<(Uuid, bool), EngineError>((existing, false)),
                        Err(e) => r is Err && settings::reports_invariant(
                            r->Err_0,
                            "meta_custom_icon.uuid not a UUID: "@ + e,
                        ),
                    }
                },
                None => if has_icon(old(icons)@, codec::uuid_text(uuid)) {
                    &&& r is Err && rows::is_constraint(r->Err_0)
                    &&& final(icons)@ == old(icons)@
                } else {
                    &&& r == Ok::<(Uuid, bool), EngineError>((uuid, true))
                    &&& final(icons)@.len() == old(icons)@.len() + 1
                    &&& final(icons)@.drop_last() == old(icons)@
                    &&& final(icons)@.last().deep_view() == (IconRowView {
                        uuid: codec::uuid_text(uuid),
                        name: Seq::empty(),
                        bytes: bytes@,
                        last_modified_at: Some(now_ms),
                    })
                    &&& codec::uuid_parsed(final(icons)@.last().uuid@) is Ok
                    &&& codec::uuid_parsed(final(icons)@.last().uuid@)->Ok_0 == uuid
                },
            }
        }),
{
    let digest = codec::sha256_digest(bytes);
    let incoming = crate::mirror::tag_vec(&digest);
    if let Some(i) = find_digest(icons, &incoming) {
        return match codec::parse_uuid(icons[i].uuid.as_str()) {
            Ok(existing) => Ok((existing, false)),
            Err(e) => Err(
                settings::invariant_error(
                    text::joined("meta_custom_icon.uuid not a UUID: ", e.as_str()),
                ),
            ),
        };
    }
    let uuid: Uuid = content_addressed_icon_uuid(&digest);
    let uuid_text = codec::uuid_to_string(uuid);
    if holds_icon(icons, uuid_text.as_str()).is_some() {
        return Err(rows::constraint_error());
    }
    icons.push(
        IconRow {
            uuid: uuid_text,
            name: String::new(),
            bytes: rows::copy_bytes(bytes),
            last_modified_at: Some(now_ms),
        },
    );
    proof {
        assert(icons@.drop_last() =~= old(icons)@);
    }
    Ok((uuid, true))
}

/// The image with a given identity. `None` where the pool does not hold it.
pub fn read_custom_icon_bytes(icons: &Vec<IconRow>, uuid: Uuid) -> (r: Option<Vec<u8>>)
    ensures
        r is Some <==> has_icon(icons@, codec::uuid_text(uuid)),
        r is Some ==> exists|i: int|
            0 <= i < icons@.len() && (#[trigger] icons@[i]).uuid@ == codec::uuid_text(uuid)
                && icons@[i].bytes@ == r->0@,
{
    let key = codec::uuid_to_string(uuid);
    match holds_icon(icons, key.as_str()) {
        Some(i) => {
            assert(icons@[i as int].uuid@ == codec::uuid_text(uuid));
            Some(rows::copy_bytes(icons[i].bytes.as_slice()))
        },
        None => None,
    }
}

/// Adding the same image again adds nothing and gives the same identity: the
/// pool holds each content once.
pub proof fn adding_an_icon_again_finds_it(icons: Seq<IconRow>, digest: Seq<u8>)
    requires
        icons.len() > 0,
        codec::sha256(icons.last().bytes@) == digest,
        first_with_digest(icons.drop_last(), (icons.len() - 1) as nat, digest) is None,
    ensures
        first_with_digest(icons, icons.len(), digest) == Some(icons.len() - 1),
{
    let n = (icons.len() - 1) as nat;
    digest_in_prefix(icons, n, digest);
}

proof fn digest_in_prefix(icons: Seq<IconRow>, n: nat, digest: Seq<u8>)
    requires
        n < icons.len(),
    ensures
        first_with_digest(icons, n, digest) == first_with_digest(icons.drop_last(), n, digest),
    decreases n,
{
    if n > 0 {
        digest_in_prefix(icons, (n - 1) as nat, digest);
    }
}

} // verus!
