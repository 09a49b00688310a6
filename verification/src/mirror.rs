//! The mirror: the vault's tables as values.
//!
//! The rows of one entry are kept together in an [`EntryRecord`], as the
//! schema's cascading foreign keys keep them together in the database.

use std::collections::BTreeMap;

use vstd::prelude::*;
use vstd::utf8::*;

use crate::codec;
use crate::codec::Uuid;
use crate::conflict_rows;
use crate::conflict_rows::{ConflictRecord, ConflictTable, ConflictView};
use crate::crypto;
use crate::crypto::{NonceSource, SessionKey};
use crate::error::EngineError;
use crate::fingerprint;
use crate::history_snapshot;
use crate::history_snapshot::{HistorySnapshotIo, SnapshotView};
use crate::rows;
use crate::rows::{
    AttachmentRow, AttachmentRowView, BlobRow, BlobView, CustomDataRow, CustomDataRowView,
    FieldSet, FieldSetView,
};
use crate::table;
use crate::table::Keyed;
use crate::text;
use crate::time;
use crate::vault::{
    ContentView, CustomField, CustomFieldView, Entry, EntryContent, EntryView, Group,
};

verus! {

// --------------------------------------------------------------- entry records

/// The rows of one entry, apart from its identity.
#[derive(Debug)]
pub struct EntryRecord {
    /// Group that holds the entry.
    pub group_uuid: Uuid,
    /// Title.
    pub title: String,
    /// User name.
    pub username: String,
    /// URL.
    pub url: String,
    /// Lowercase host of the URL.
    pub url_host: String,
    /// Notes.
    pub notes: String,
    /// Standard icon number.
    pub icon_index: u32,
    /// Icon of the vault's own pool.
    pub icon_custom_uuid: Option<Uuid>,
    /// Creation, in milliseconds.
    pub created_at: i64,
    /// Last change, in milliseconds.
    pub modified_at: i64,
    /// Last read, in milliseconds.
    pub accessed_at: i64,
    /// Last use, in milliseconds.
    pub last_used_at: Option<i64>,
    /// Expiry, in milliseconds.
    pub expires_at: Option<i64>,
    /// Strength bucket of the password.
    pub password_strength_bucket: u8,
    /// Entropy of the password, as the bit pattern of a double.
    pub password_entropy: u64,
    /// Fingerprint of the password; absent for an empty one.
    pub password_fingerprint: Option<Vec<u8>>,
    /// Whether the entry lies in the recycle bin.
    pub is_recycled: bool,
    /// Whether the entry carries a one-time-password secret.
    pub has_totp: bool,
    /// Sealed and plain fields.
    pub fields: FieldSet,
    /// Client-specific data.
    pub custom_data: Vec<CustomDataRow>,
    /// Tag names.
    pub tags: Vec<String>,
    /// Files.
    pub attachments: Vec<AttachmentRow>,
    /// History records, oldest first.
    pub history: Vec<HistorySnapshotIo>,
}

/// What an [`EntryRecord`] holds under a key.
#[verifier::ext_equal]
pub struct RecordView {
    pub group_uuid: Uuid,
    pub title: Seq<char>,
    pub username: Seq<char>,
    pub url: Seq<char>,
    pub url_host: Seq<char>,
    pub notes: Seq<char>,
    pub icon_index: u32,
    pub icon_custom_uuid: Option<Uuid>,
    pub created_at: i64,
    pub modified_at: i64,
    pub accessed_at: i64,
    pub last_used_at: Option<i64>,
    pub expires_at: Option<i64>,
    pub password_strength_bucket: u8,
    pub password_entropy: u64,
    pub password_fingerprint: Option<Seq<u8>>,
    pub is_recycled: bool,
    pub has_totp: bool,
    pub fields: FieldSetView,
    pub custom_data: Seq<CustomDataRowView>,
    pub tags: Seq<Seq<char>>,
    pub attachments: Seq<AttachmentRowView>,
    pub history: Seq<SnapshotView>,
}

/// History records as `key` opens them.
pub open spec fn opened_history(history: Seq<HistorySnapshotIo>, key: Seq<u8>) -> Seq<
    SnapshotView,
> {
    Seq::new(history.len(), |i: int| history[i].opened(key))
}

impl EntryRecord {
    /// The rows as `key` opens them.
    pub open spec fn opened(self, key: Seq<u8>) -> RecordView {
        RecordView {
            group_uuid: self.group_uuid,
            title: self.title@,
            username: self.username@,
            url: self.url@,
            url_host: self.url_host@,
            notes: self.notes@,
            icon_index: self.icon_index,
            icon_custom_uuid: self.icon_custom_uuid,
            created_at: self.created_at,
            modified_at: self.modified_at,
            accessed_at: self.accessed_at,
            last_used_at: self.last_used_at,
            expires_at: self.expires_at,
            password_strength_bucket: self.password_strength_bucket,
            password_entropy: self.password_entropy,
            password_fingerprint: match self.password_fingerprint {
                Some(f) => Some(f@),
                None => None,
            },
            is_recycled: self.is_recycled,
            has_totp: self.has_totp,
            fields: self.fields.opened(key),
            custom_data: self.custom_data.deep_view(),
            tags: self.tags.deep_view(),
            attachments: self.attachments.deep_view(),
            history: opened_history(self.history@, key),
        }
    }
}

/// Whether some custom field carries a one-time-password secret.
pub open spec fn any_totp_key(cfs: Seq<CustomFieldView>) -> bool {
    exists|i: int| 0 <= i < cfs.len() && (#[trigger] cfs[i]).totp_key
}

/// The history records of an entry.
pub open spec fn history_of(history: Seq<ContentView>, binaries: Seq<Seq<u8>>) -> Seq<
    SnapshotView,
> {
    Seq::new(history.len(), |i: int| history_snapshot::snapshot_of(history[i], binaries))
}

/// The rows of an entry placed in a group.
pub open spec fn record_of(
    e: EntryView,
    group: Uuid,
    recycled: bool,
    fingerprint_key: Seq<u8>,
    binaries: Seq<Seq<u8>>,
) -> RecordView {
    let c = e.content;
    RecordView {
        group_uuid: group,
        title: c.title,
        username: c.username,
        url: c.url,
        url_host: codec::host_of(c.url),
        notes: c.notes,
        icon_index: c.icon_id,
        icon_custom_uuid: c.custom_icon_uuid,
        created_at: time::millis_or_zero(c.times.creation_time),
        modified_at: time::millis_or_zero(c.times.last_modification_time),
        accessed_at: time::millis_or_zero(c.times.last_access_time),
        last_used_at: time::optional_millis(c.times.last_access_time),
        expires_at: rows::expiry_of(c.times),
        password_strength_bucket: c.strength.bucket.ordinal(),
        password_entropy: c.strength.entropy,
        password_fingerprint: if c.password.len() == 0 {
            None
        } else {
            Some(fingerprint::hmac_sha256(fingerprint_key, encode_utf8(c.password)))
        },
        is_recycled: recycled,
        has_totp: c.otpauth_url || any_totp_key(c.custom_fields),
        fields: rows::fields_of(c),
        custom_data: rows::custom_data_rows(c.custom_data),
        tags: rows::tag_names_of(c.tags),
        attachments: rows::attachment_rows_of(c.attachments, binaries),
        history: history_of(e.history, binaries),
    }
}

/// Whether an entry's names and keys fit the tables' uniqueness constraints.
pub open spec fn storable(e: EntryView) -> bool {
    rows::storable_fields(e.content) && rows::distinct_keys(e.content.custom_data)
}

fn has_totp_key(cfs: &Vec<CustomField>) -> (r: bool)
    ensures
        r == any_totp_key(cfs.deep_view()),
{
    let ghost cv = cfs.deep_view();
    let mut i: usize = 0;
    while i < cfs.len()
        invariant
            i <= cfs.len(),
            cv == cfs.deep_view(),
            forall|k: int| 0 <= k < i ==> !(#[trigger] cv[k]).totp_key,
        decreases cfs.len() - i,
    {
        if cfs[i].totp_key {
            proof {
                assert(cv[i as int].totp_key);
            }
            return true;
        }
        i = i + 1;
    }
    false
}

/// How many nonces sealing the first `n` records of a history takes.
pub open spec fn history_seals(history: Seq<ContentView>, n: nat) -> nat
    decreases n,
{
    if n == 0 || n > history.len() {
        0
    } else {
        history_seals(history, (n - 1) as nat) + history_snapshot::record_seals(history[n - 1])
    }
}

/// The blobs of the first `n` records of a history, in the order of sealing.
pub open spec fn history_blobs(history: Seq<HistorySnapshotIo>, n: nat) -> Seq<Seq<u8>>
    decreases n,
{
    if n == 0 || n > history.len() {
        Seq::empty()
    } else {
        history_blobs(history, (n - 1) as nat) + history_snapshot::record_blobs(history[n - 1])
    }
}

/// The blobs of an entry in the order of sealing: those of the entry itself,
/// then those of its history.
pub open spec fn entry_blobs(record: EntryRecord) -> Seq<Seq<u8>> {
    rows::blobs_in(record.fields.protected@) + history_blobs(record.history@, record.history@.len())
}

/// Whether an entry's blobs carry the drawn nonces in turn, `seals` of them.
pub open spec fn sealed_with(record: EntryRecord, drawn: Seq<[u8; 12]>, seals: nat) -> bool {
    crypto::carries_nonces(entry_blobs(record), drawn) && entry_blobs(record).len() == seals
}

/// How many nonces sealing an entry and its history takes.
pub open spec fn entry_seals(e: EntryView) -> nat {
    rows::content_seals(e.content) + history_seals(e.history, e.history.len())
}

/// Whether every value of an entry and its history is short enough to be
/// sealed.
pub open spec fn sealable_entry(e: EntryView) -> bool {
    rows::sealable_content(e.content) && forall|i: int|
        0 <= i < e.history.len() ==> rows::sealable_content(#[trigger] e.history[i])
}

/// A failure to seal an entry with `drawn` nonces at hand: a value is too long,
/// or there were too few nonces and none could be had.
pub open spec fn entry_seal_refused(err: EngineError, e: EntryView, drawn: nat) -> bool {
    rows::is_wrap_failure(err) && (!sealable_entry(e) || drawn < entry_seals(e))
}

proof fn history_seals_grow(history: Seq<ContentView>, a: nat, b: nat)
    requires
        a <= b <= history.len(),
    ensures
        history_seals(history, a) <= history_seals(history, b),
    decreases b,
{
    if a < b {
        history_seals_grow(history, a, (b - 1) as nat);
    }
}

proof fn history_blobs_kept(history: Seq<HistorySnapshotIo>, more: HistorySnapshotIo, n: nat)
    requires
        n <= history.len(),
    ensures
        history_blobs(history.push(more), n) == history_blobs(history, n),
    decreases n,
{
    if n > 0 {
        history_blobs_kept(history, more, (n - 1) as nat);
    }
}

fn build_history(
    history: &Vec<EntryContent>,
    key: &SessionKey,
    nonces: &mut NonceSource,
    binaries: &Vec<Vec<u8>>,
) -> (r: Result<Vec<HistorySnapshotIo>, EngineError>)
    ensures
        r is Ok ==> opened_history(r->Ok_0@, key@) == history_of(
            history.deep_view(),
            binaries.deep_view(),
        ),
        r is Err ==> rows::is_wrap_failure(r->Err_0),
        r is Err ==> old(nonces).drawn@.len() < history_seals(history.deep_view(), history@.len())
            || exists|i: int|
            0 <= i < history@.len() && !rows::sealable_content(#[trigger] history.deep_view()[i]),
        r is Ok ==> crypto::carries_nonces(
            history_blobs(r->Ok_0@, r->Ok_0@.len()),
            old(nonces).drawn@,
        ),
        r is Ok ==> history_blobs(r->Ok_0@, r->Ok_0@.len()).len() == history_seals(
            history.deep_view(),
            history@.len(),
        ),
        r is Ok ==> final(nonces).drawn@ == crypto::left_of(
            old(nonces).drawn@,
            history_seals(history.deep_view(), history@.len()),
        ),
        crypto::spent(old(nonces).drawn@, final(nonces).drawn@),
{
    broadcast use {crypto::spent_in_two, crypto::left_is_spent};

    let ghost hv = history.deep_view();
    let ghost bv = binaries.deep_view();
    let mut out: Vec<HistorySnapshotIo> = Vec::new();
    let mut i: usize = 0;
    proof {
        crypto::left_in_two(nonces.drawn@, 0, 0);
    }
    while i < history.len()
        invariant
            i <= history.len(),
            hv == history.deep_view(),
            bv == binaries.deep_view(),
            opened_history(out@, key@) == history_of(hv, bv).take(i as int),
            out@.len() == i,
            crypto::carries_nonces(history_blobs(out@, i as nat), old(nonces).drawn@),
            history_blobs(out@, i as nat).len() == history_seals(hv, i as nat),
            nonces.drawn@ == crypto::left_of(old(nonces).drawn@, history_seals(hv, i as nat)),
        decreases history.len() - i,
    {
        broadcast use {crypto::spent_in_two, crypto::left_is_spent};

        let ghost before = opened_history(out@, key@);
        proof {
            assert(hv[i as int] == history@[i as int].deep_view());
            history_seals_grow(hv, (i + 1) as nat, hv.len());
            crypto::left_in_two(
                old(nonces).drawn@,
                history_seals(hv, i as nat),
                history_snapshot::record_seals(hv[i as int]),
            );
        }
        let ghost held = out@;
        let snapshot = HistorySnapshotIo::from_entry(&history[i], key, nonces, binaries)?;
        out.push(snapshot);
        proof {
            history_blobs_kept(held, snapshot, i as nat);
            crypto::nonces_in_two(
                history_blobs(held, i as nat),
                history_snapshot::record_blobs(snapshot),
                old(nonces).drawn@,
            );
            assert(opened_history(out@, key@) =~= before.push(
                history_snapshot::snapshot_of(hv[i as int], bv),
            ));
            assert(opened_history(out@, key@) =~= history_of(hv, bv).take(i + 1));
        }
        i = i + 1;
    }
    proof {
        assert(history_of(hv, bv).take(hv.len() as int) =~= history_of(hv, bv));
    }
    Ok(out)
}

/// Copies a 32-byte tag.
pub fn tag_vec(tag: &[u8; 32]) -> (r: Vec<u8>)
    ensures
        r@ == tag@,
{
    let mut out: Vec<u8> = Vec::new();
    let mut i: usize = 0;
    while i < 32
        invariant
            i <= 32,
            out@ == tag@.take(i as int),
        decreases 32 - i,
    {
        proof {
            assert(tag@.take(i + 1) =~= tag@.take(i as int).push(tag@[i as int]));
        }
        out.push(tag[i]);
        i = i + 1;
    }
    assert(tag@.take(32) =~= tag@);
    out
}

/// Builds every row of one entry, and the contents its files bring to the
/// pool. Fails when names or keys collide, or when sealing fails.
pub fn build_record(
    entry: &Entry,
    group: Uuid,
    recycled: bool,
    fingerprint_key: &[u8; 32],
    session_key: &SessionKey,
    nonces: &mut NonceSource,
    binaries: &Vec<Vec<u8>>,
) -> (r: Result<(EntryRecord, Vec<BlobRow>), EngineError>)
    ensures
        r is Ok ==> storable(entry.deep_view()),
        r is Ok ==> r->Ok_0.0.opened(session_key@) == record_of(
            entry.deep_view(),
            group,
            recycled,
            fingerprint_key@,
            binaries.deep_view(),
        ),
        r is Ok ==> r->Ok_0.1.deep_view() == rows::blobs_of(
            entry.deep_view().content.attachments,
            binaries.deep_view(),
        ),
        r is Ok ==> sealed_with(
            r->Ok_0.0,
            old(nonces).drawn@,
            entry_seals(entry.deep_view()),
        ),
        r is Ok ==> final(nonces).drawn@ == crypto::left_of(
            old(nonces).drawn@,
            entry_seals(entry.deep_view()),
        ),
        r is Err ==> entry_seal_refused(r->Err_0, entry.deep_view(), old(nonces).drawn@.len()) || (
        rows::is_constraint(r->Err_0) && !storable(entry.deep_view())),
        crypto::spent(old(nonces).drawn@, final(nonces).drawn@),
{
    broadcast use {crypto::spent_in_two, crypto::left_is_spent};

    let c = &entry.content;
    let password_fingerprint: Option<Vec<u8>> = if c.password.as_str().is_empty() {
        None
    } else {
        let tag = fingerprint::fingerprint(fingerprint_key, c.password.as_str().as_bytes());
        Some(tag_vec(&tag))
    };
    let has_totp: bool = c.otpauth_url || has_totp_key(&c.custom_fields);
    let fields = rows::seal_fields(c, session_key, nonces)?;
    proof {
        crypto::left_in_two(
            old(nonces).drawn@,
            rows::content_seals(c.deep_view()),
            history_seals(entry.deep_view().history, entry.history@.len()),
        );
    }
    let custom_data = rows::build_custom_data(&c.custom_data)?;
    let tags = rows::tag_names(&c.tags);
    let (attachments, blobs) = rows::build_attachments(&c.attachments, binaries);
    let history = build_history(&entry.history, session_key, nonces, binaries)?;
    let record = EntryRecord {
        group_uuid: group,
        title: c.title.clone(),
        username: c.username.clone(),
        url: c.url.clone(),
        url_host: codec::parse_host(c.url.as_str()),
        notes: c.notes.clone(),
        icon_index: c.icon_id,
        icon_custom_uuid: c.custom_icon_uuid,
        created_at: time::dt_to_ms(c.times.creation_time),
        modified_at: time::dt_to_ms(c.times.last_modification_time),
        accessed_at: time::dt_to_ms(c.times.last_access_time),
        last_used_at: time::optional_dt_to_ms(c.times.last_access_time),
        expires_at: rows::expiry_ms(&c.times),
        password_strength_bucket: c.strength.bucket.to_ordinal(),
        password_entropy: c.strength.entropy,
        password_fingerprint,
        is_recycled: recycled,
        has_totp,
        fields,
        custom_data,
        tags,
        attachments,
        history,
    };
    proof {
        crypto::nonces_in_two(
            rows::blobs_in(record.fields.protected@),
            history_blobs(record.history@, record.history@.len()),
            old(nonces).drawn@,
        );
    }
    Ok((record, blobs))
}

// ---------------------------------------------------------------------- groups

/// A row of the `group` table, apart from its identity.
#[derive(Debug)]
pub struct GroupRow {
    /// Parent; absent for the root.
    pub parent_uuid: Option<Uuid>,
    /// Name.
    pub name: String,
    /// Standard icon number.
    pub icon_index: u32,
    /// Icon of the vault's own pool.
    pub icon_custom_uuid: Option<Uuid>,
    /// Notes.
    pub notes: String,
    /// Creation, in milliseconds.
    pub created_at: i64,
    /// Last change, in milliseconds.
    pub modified_at: i64,
    /// Expiry, in milliseconds.
    pub expires_at: Option<i64>,
    /// Whether the group is the recycle bin.
    pub is_recycle_bin: bool,
    /// Position among its siblings.
    pub sort_order: u32,
}

/// What a [`GroupRow`] holds.
#[verifier::ext_equal]
pub struct GroupRowView {
    pub parent_uuid: Option<Uuid>,
    pub name: Seq<char>,
    pub icon_index: u32,
    pub icon_custom_uuid: Option<Uuid>,
    pub notes: Seq<char>,
    pub created_at: i64,
    pub modified_at: i64,
    pub expires_at: Option<i64>,
    pub is_recycle_bin: bool,
    pub sort_order: u32,
}

impl DeepView for GroupRow {
    type V = GroupRowView;

    open spec fn deep_view(&self) -> GroupRowView {
        GroupRowView {
            parent_uuid: self.parent_uuid,
            name: self.name@,
            icon_index: self.icon_index,
            icon_custom_uuid: self.icon_custom_uuid,
            notes: self.notes@,
            created_at: self.created_at,
            modified_at: self.modified_at,
            expires_at: self.expires_at,
            is_recycle_bin: self.is_recycle_bin,
            sort_order: self.sort_order,
        }
    }
}

/// The row of one group.
pub open spec fn group_row_of(g: Group, parent: Option<Uuid>, sort_order: u32, bin: Option<Uuid>) -> GroupRowView {
    GroupRowView {
        parent_uuid: parent,
        name: g.name@,
        icon_index: g.icon_id,
        icon_custom_uuid: g.custom_icon_uuid,
        notes: g.notes@,
        created_at: time::millis_or_zero(g.times.creation_time),
        modified_at: time::millis_or_zero(g.times.last_modification_time),
        expires_at: rows::expiry_of(g.times),
        is_recycle_bin: bin == Some(g.id),
        sort_order,
    }
}

/// A list index as the `sort_order` column holds it.
pub open spec fn stored_position(i: nat) -> u32 {
    if i <= u32::MAX {
        i as u32
    } else {
        u32::MAX
    }
}

/// The rows of a group and of everything below it, parents before children
/// and siblings in order.
pub open spec fn group_rows(g: Group, parent: Option<Uuid>, sort_order: u32, bin: Option<Uuid>) -> Seq<
    (Uuid, GroupRowView),
>
    decreases g, 0nat,
{
    seq![(g.id, group_row_of(g, parent, sort_order, bin))] + subgroup_rows(
        g.groups@,
        g.groups@.len(),
        Some(g.id),
        bin,
    )
}

/// The rows of the first `n` groups of a list and of everything below them.
pub open spec fn subgroup_rows(gs: Seq<Group>, n: nat, parent: Option<Uuid>, bin: Option<Uuid>) -> Seq<
    (Uuid, GroupRowView),
>
    decreases gs, n,
{
    if n == 0 || n > gs.len() {
        Seq::empty()
    } else {
        subgroup_rows(gs, (n - 1) as nat, parent, bin) + group_rows(
            gs[n - 1],
            parent,
            stored_position((n - 1) as nat),
            bin,
        )
    }
}

fn walk_groups(
    group: &Group,
    parent: Option<Uuid>,
    sort_order: u32,
    bin: Option<Uuid>,
    out: &mut Vec<(Uuid, GroupRow)>,
)
    ensures
        final(out).deep_view() == old(out).deep_view() + group_rows(
            *group,
            parent,
            sort_order,
            bin,
        ),
    decreases group,
{
    let ghost before = out.deep_view();
    let row = GroupRow {
        parent_uuid: parent,
        name: group.name.clone(),
        icon_index: group.icon_id,
        icon_custom_uuid: group.custom_icon_uuid,
        notes: group.notes.clone(),
        created_at: time::dt_to_ms(group.times.creation_time),
        modified_at: time::dt_to_ms(group.times.last_modification_time),
        expires_at: rows::expiry_ms(&group.times),
        is_recycle_bin: bin == Some(group.id),
        sort_order,
    };
    out.push((group.id, row));
    let ghost head = seq![(group.id, group_row_of(*group, parent, sort_order, bin))];
    proof {
        assert(out.deep_view() =~= before + head + subgroup_rows(
            group.groups@,
            0,
            Some(group.id),
            bin,
        ));
    }
    let mut i: usize = 0;
    while i < group.groups.len()
        invariant
            i <= group.groups.len(),
            out.deep_view() == before + head + subgroup_rows(
                group.groups@,
                i as nat,
                Some(group.id),
                bin,
            ),
        decreases group.groups.len() - i,
    {
        let position: u32 = if i as u64 <= 0xffff_ffff {
            i as u32
        } else {
            u32::MAX
        };
        walk_groups(&group.groups[i], Some(group.id), position, bin, out);
        proof {
            assert(out.deep_view() =~= before + head + subgroup_rows(
                group.groups@,
                (i + 1) as nat,
                Some(group.id),
                bin,
            ));
        }
        i = i + 1;
    }
    proof {
        assert(out.deep_view() =~= before + group_rows(*group, parent, sort_order, bin));
    }
}

/// Builds the rows of a vault's groups, the root first. The root has no
/// meaningful position; it is recorded with position zero.
pub fn build_groups(root: &Group, bin: Option<Uuid>) -> (r: Vec<(Uuid, GroupRow)>)
    ensures
        r.deep_view() == group_rows(*root, None, 0, bin),
{
    let mut out: Vec<(Uuid, GroupRow)> = Vec::new();
    walk_groups(root, None, 0, bin, &mut out);
    assert(out.deep_view() =~= group_rows(*root, None, 0, bin));
    out
}

// ---------------------------------------------------------------------- tables

broadcast use {vstd::std_specs::btree::group_btree_axioms, vstd::laws_cmp::group_laws_cmp};

/// The vault's tables.
#[derive(Debug)]
pub struct Mirror {
    /// Groups by identity.
    pub groups: BTreeMap<Uuid, GroupRow>,
    /// Entries by identity.
    pub entries: BTreeMap<Uuid, EntryRecord>,
    /// Tag names in use, each once.
    pub tags: Vec<String>,
    /// File contents by digest.
    pub blobs: Vec<BlobRow>,
    /// Held conflicts.
    pub conflicts: ConflictTable,
    /// Tombstones: deleted objects and their deletion times.
    pub tombstones: BTreeMap<Uuid, Option<i64>>,
}

/// What a [`Mirror`] holds under a key.
#[verifier::ext_equal]
pub struct MirrorView {
    pub groups: Map<Uuid, GroupRowView>,
    pub entries: Map<Uuid, RecordView>,
    pub tags: Seq<Seq<char>>,
    pub blobs: Seq<BlobView>,
    pub conflicts: Map<(Seq<char>, Uuid), ConflictView>,
    pub tombstones: Map<Uuid, Option<i64>>,
}

/// Entry records as `key` opens them.
pub open spec fn opened_entries(m: Map<Uuid, EntryRecord>, key: Seq<u8>) -> Map<Uuid, RecordView> {
    Map::new(|u: Uuid| m.contains_key(u), |u: Uuid| m[u].opened(key))
}

/// Group rows as mathematical values.
pub open spec fn group_views(m: Map<Uuid, GroupRow>) -> Map<Uuid, GroupRowView> {
    Map::new(|u: Uuid| m.contains_key(u), |u: Uuid| m[u].deep_view())
}

/// Adds names to a list of tags; one already there is not added again.
pub open spec fn with_tags(tags: Seq<Seq<char>>, names: Seq<Seq<char>>) -> Seq<Seq<char>>
    decreases names.len(),
{
    if names.len() == 0 {
        tags
    } else {
        let before = with_tags(tags, names.drop_last());
        if before.contains(names.last()) {
            before
        } else {
            before.push(names.last())
        }
    }
}

/// Whether the pool holds a content with that digest.
pub open spec fn has_blob(blobs: Seq<BlobView>, sha256: Seq<u8>) -> bool {
    exists|i: int| 0 <= i < blobs.len() && (#[trigger] blobs[i]).sha256 == sha256
}

/// Adds contents to the pool; one whose digest is already there is not added
/// again.
pub open spec fn with_blobs(blobs: Seq<BlobView>, more: Seq<BlobView>) -> Seq<BlobView>
    decreases more.len(),
{
    if more.len() == 0 {
        blobs
    } else {
        let before = with_blobs(blobs, more.drop_last());
        if has_blob(before, more.last().sha256) {
            before
        } else {
            before.push(more.last())
        }
    }
}

/// Whether some entry carries the tag.
pub open spec fn tag_in_use(entries: Map<Uuid, RecordView>, name: Seq<char>) -> bool {
    exists|u: Uuid| #[trigger] entries.contains_key(u) && entries[u].tags.contains(name)
}

/// The tags that some entry carries.
pub open spec fn swept_tags(tags: Seq<Seq<char>>, entries: Map<Uuid, RecordView>) -> Seq<Seq<char>>
    decreases tags.len(),
{
    if tags.len() == 0 {
        Seq::empty()
    } else if tag_in_use(entries, tags.last()) {
        swept_tags(tags.drop_last(), entries).push(tags.last())
    } else {
        swept_tags(tags.drop_last(), entries)
    }
}

/// The tables with an entry added.
pub open spec fn with_entry(m: MirrorView, uuid: Uuid, record: RecordView, blobs: Seq<BlobView>) -> MirrorView {
    MirrorView {
        entries: m.entries.insert(uuid, record),
        tags: with_tags(m.tags, record.tags),
        blobs: with_blobs(m.blobs, blobs),
        ..m
    }
}

/// The tables with an entry deleted, and tags that nothing carries any more
/// swept out.
pub open spec fn without_entry(m: MirrorView, uuid: Uuid) -> MirrorView {
    MirrorView {
        entries: m.entries.remove(uuid),
        tags: swept_tags(m.tags, m.entries.remove(uuid)),
        ..m
    }
}

/// The tables with a tombstone merged in: the earliest known deletion time is
/// kept.
pub open spec fn with_tombstone(m: MirrorView, uuid: Uuid, deleted_at: Option<i64>) -> MirrorView {
    MirrorView {
        tombstones: m.tombstones.insert(
            uuid,
            if m.tombstones.contains_key(uuid) {
                time::earliest_millis(m.tombstones[uuid], deleted_at)
            } else {
                deleted_at
            },
        ),
        ..m
    }
}

impl Mirror {
    /// Whether the tables' primary keys are distinct.
    pub open spec fn wf(self) -> bool {
        self.conflicts.wf()
    }

    /// The tables as `key` opens them.
    pub open spec fn opened(self, key: Seq<u8>) -> MirrorView {
        MirrorView {
            groups: group_views(self.groups@),
            entries: opened_entries(self.entries@, key),
            tags: self.tags.deep_view(),
            blobs: self.blobs.deep_view(),
            conflicts: self.conflicts.opened(key),
            tombstones: self.tombstones@,
        }
    }

    /// Empty tables.
    pub fn new() -> (r: Mirror)
        ensures
            r.wf(),
            r.groups@ == Map::<Uuid, GroupRow>::empty(),
            r.entries@ == Map::<Uuid, EntryRecord>::empty(),
            r.tags@.len() == 0,
            r.blobs@.len() == 0,
            r.conflicts.rows@.len() == 0,
            r.tombstones@ == Map::<Uuid, Option<i64>>::empty(),
    {
        Mirror {
            groups: BTreeMap::new(),
            entries: BTreeMap::new(),
            tags: Vec::new(),
            blobs: Vec::new(),
            conflicts: ConflictTable::new(),
            tombstones: BTreeMap::new(),
        }
    }

    /// Does the mirror hold the group?
    pub fn group_exists(&self, uuid: Uuid) -> (r: bool)
        ensures
            r == self.groups@.contains_key(uuid),
    {
        self.groups.contains_key(&uuid)
    }

    /// Does the mirror hold the entry?
    pub fn entry_exists(&self, uuid: Uuid) -> (r: bool)
        ensures
            r == self.entries@.contains_key(uuid),
    {
        self.entries.contains_key(&uuid)
    }

    fn add_tags(&mut self, names: &Vec<String>)
        ensures
            final(self).tags.deep_view() == with_tags(old(self).tags.deep_view(), names.deep_view()),
            *final(self) == (Mirror { tags: final(self).tags, ..*old(self) }),
    {
        let ghost tv = self.tags.deep_view();
        let ghost nv = names.deep_view();
        let mut i: usize = 0;
        proof {
            assert(nv.take(0) =~= Seq::empty());
        }
        while i < names.len()
            invariant
                i <= names.len(),
                nv == names.deep_view(),
                tv == old(self).tags.deep_view(),
                self.tags.deep_view() == with_tags(tv, nv.take(i as int)),
                *self == (Mirror { tags: self.tags, ..*old(self) }),
            decreases names.len() - i,
        {
            proof {
                assert(nv.take(i + 1).drop_last() =~= nv.take(i as int));
                assert(nv.take(i + 1).last() == names@[i as int]@);
            }
            if !rows::holds_text(&self.tags, names[i].as_str()) {
                let ghost before = self.tags.deep_view();
                self.tags.push(names[i].clone());
                proof {
                    assert(self.tags.deep_view() =~= before.push(names@[i as int]@));
                }
            }
            i = i + 1;
        }
        proof {
            assert(nv.take(nv.len() as int) =~= nv);
        }
    }

    fn holds_blob(&self, sha256: &[u8]) -> (r: bool)
        ensures
            r == has_blob(self.blobs.deep_view(), sha256@),
    {
        let ghost bv = self.blobs.deep_view();
        let mut i: usize = 0;
        while i < self.blobs.len()
            invariant
                i <= self.blobs.len(),
                bv == self.blobs.deep_view(),
                forall|k: int| 0 <= k < i ==> (#[trigger] bv[k]).sha256 != sha256@,
            decreases self.blobs.len() - i,
        {
            if text::same_bytes(self.blobs[i].sha256.as_slice(), sha256) {
                proof {
                    assert(bv[i as int].sha256 == sha256@);
                }
                return true;
            }
            i = i + 1;
        }
        false
    }

    fn add_blobs(&mut self, more: Vec<BlobRow>)
        ensures
            final(self).blobs.deep_view() == with_blobs(
                old(self).blobs.deep_view(),
                more.deep_view(),
            ),
            *final(self) == (Mirror { blobs: final(self).blobs, ..*old(self) }),
    {
        let ghost bv = self.blobs.deep_view();
        let ghost mv = more.deep_view();
        let mut i: usize = 0;
        proof {
            assert(mv.take(0) =~= Seq::empty());
        }
        while i < more.len()
            invariant
                i <= more.len(),
                mv == more.deep_view(),
                bv == old(self).blobs.deep_view(),
                self.blobs.deep_view() == with_blobs(bv, mv.take(i as int)),
                *self == (Mirror { blobs: self.blobs, ..*old(self) }),
            decreases more.len() - i,
        {
            proof {
                assert(mv.take(i + 1).drop_last() =~= mv.take(i as int));
                assert(mv.take(i + 1).last() == more@[i as int].deep_view());
            }
            let b = &more[i];
            if !self.holds_blob(b.sha256.as_slice()) {
                let ghost before = self.blobs.deep_view();
                self.blobs.push(
                    BlobRow {
                        sha256: rows::copy_bytes(b.sha256.as_slice()),
                        bytes: rows::copy_bytes(b.bytes.as_slice()),
                        size: b.size,
                    },
                );
                proof {
                    assert(self.blobs.deep_view() =~= before.push(b.deep_view()));
                }
            }
            i = i + 1;
        }
        proof {
            assert(mv.take(mv.len() as int) =~= mv);
        }
    }

    /// Inserts the rows of an entry. Refused, with nothing changed, when the
    /// entry is already there or its group is not.
    pub fn insert_entry(&mut self, uuid: Uuid, record: EntryRecord, blobs: Vec<BlobRow>) -> (r: Result<
        (),
        EngineError,
    >)
        ensures
            r is Ok <==> !old(self).entries@.contains_key(uuid) && old(self).groups@.contains_key(
                record.group_uuid,
            ),
            r is Ok ==> forall|k: Seq<u8>|
                #[trigger] final(self).opened(k) == with_entry(
                    old(self).opened(k),
                    uuid,
                    record.opened(k),
                    blobs.deep_view(),
                ),
            r is Ok ==> final(self).entries@ == old(self).entries@.insert(uuid, record),
            r is Ok ==> final(self).conflicts == old(self).conflicts,
            r is Err ==> rows::is_constraint(r->Err_0) && *final(self) == *old(self),
    {
        if self.entries.contains_key(&uuid) || !self.groups.contains_key(&record.group_uuid) {
            return Err(rows::constraint_error());
        }
        self.add_tags(&record.tags);
        self.add_blobs(blobs);
        self.entries.insert(uuid, record);
        proof {
            assert forall|k: Seq<u8>| #[trigger]
                self.opened(k) == with_entry(
                    old(self).opened(k),
                    uuid,
                    record.opened(k),
                    blobs.deep_view(),
                ) by {
                assert(opened_entries(self.entries@, k) =~= opened_entries(
                    old(self).entries@,
                    k,
                ).insert(uuid, record.opened(k)));
            }
        }
        Ok(())
    }

    /// The identities of the groups.
    pub fn group_uuids(&self) -> (r: Vec<Uuid>)
        ensures
            forall|u: Uuid| #[trigger] self.groups@.contains_key(u) <==> r@.contains(u),
            r@.no_duplicates(),
    {
        let ghost all = vstd::std_specs::iter::IteratorSpec::remaining(
            &vstd::std_specs::btree::spec_keys_iter(&self.groups),
        ).unref();
        let mut out: Vec<Uuid> = Vec::new();
        for u in it: self.groups.keys()
            invariant
                it.seq().unref() == all,
                out@ == all.take(it.index()),
        {
            proof {
                assert(all.take(it.index() + 1) =~= all.take(it.index()).push(*u));
            }
            out.push(*u);
        }
        proof {
            assert(out@ =~= all);
            assert(all.to_set() == self.groups@.dom());
            assert forall|u: Uuid| #[trigger] self.groups@.contains_key(u) <==> out@.contains(
                u,
            ) by {
                assert(self.groups@.dom().contains(u) <==> self.groups@.contains_key(u));
                assert(all.to_set().contains(u) <==> all.contains(u));
            }
        }
        out
    }

    /// The identities of the entries.
    pub fn entry_uuids(&self) -> (r: Vec<Uuid>)
        ensures
            forall|u: Uuid| #[trigger] self.entries@.contains_key(u) <==> r@.contains(u),
            r@.no_duplicates(),
    {
        let ghost all = vstd::std_specs::iter::IteratorSpec::remaining(
            &vstd::std_specs::btree::spec_keys_iter(&self.entries),
        ).unref();
        let mut out: Vec<Uuid> = Vec::new();
        for u in it: self.entries.keys()
            invariant
                it.seq().unref() == all,
                out@ == all.take(it.index()),
        {
            proof {
                assert(all.take(it.index() + 1) =~= all.take(it.index()).push(*u));
            }
            out.push(*u);
        }
        proof {
            assert(out@ =~= all);
            assert(all.to_set() == self.entries@.dom());
            assert forall|u: Uuid| #[trigger] self.entries@.contains_key(u) <==> out@.contains(
                u,
            ) by {
                assert(self.entries@.dom().contains(u) <==> self.entries@.contains_key(u));
                assert(all.to_set().contains(u) <==> all.contains(u));
            }
        }
        out
    }

    /// Whether some entry carries the tag.
    pub fn tag_used(&self, name: &str) -> (r: bool)
        ensures
            forall|k: Seq<u8>| r == #[trigger] tag_in_use(opened_entries(self.entries@, k), name@),
    {
        let uuids = self.entry_uuids();
        let mut i: usize = 0;
        while i < uuids.len()
            invariant
                i <= uuids.len(),
                forall|u: Uuid| #[trigger] self.entries@.contains_key(u) <==> uuids@.contains(u),
                forall|j: int|
                    0 <= j < i ==> !self.entries@[#[trigger] uuids@[j]].tags.deep_view().contains(
                        name@,
                    ),
            decreases uuids.len() - i,
        {
            proof {
                assert(uuids@.contains(uuids@[i as int]));
            }
            match self.entries.get(&uuids[i]) {
                Some(record) => {
                    if rows::holds_text(&record.tags, name) {
                        proof {
                            let u = uuids@[i as int];
                            assert forall|k: Seq<u8>| #[trigger]
                                tag_in_use(opened_entries(self.entries@, k), name@) by {
                                let ev = opened_entries(self.entries@, k);
                                assert(ev.contains_key(u) && ev[u].tags.contains(name@));
                            }
                        }
                        return true;
                    }
                },
                None => {},
            }
            i = i + 1;
        }
        proof {
            assert forall|k: Seq<u8>| !#[trigger] tag_in_use(
                opened_entries(self.entries@, k),
                name@,
            ) by {
                let ev = opened_entries(self.entries@, k);
                if tag_in_use(ev, name@) {
                    let u = choose|u: Uuid| #[trigger]
                        ev.contains_key(u) && ev[u].tags.contains(name@);
                    assert(self.entries@.contains_key(u));
                    let j = choose|j: int| 0 <= j < uuids@.len() && uuids@[j] == u;
                    assert(!self.entries@[uuids@[j]].tags.deep_view().contains(name@));
                }
            }
        }
        false
    }

    fn sweep_tags(&mut self)
        ensures
            forall|k: Seq<u8>|
                final(self).tags.deep_view() == #[trigger] swept_tags(
                    old(self).tags.deep_view(),
                    opened_entries(old(self).entries@, k),
                ),
            *final(self) == (Mirror { tags: final(self).tags, ..*old(self) }),
    {
        let ghost tv = self.tags.deep_view();
        let ghost em = self.entries@;
        let mut kept: Vec<String> = Vec::new();
        let mut i: usize = 0;
        proof {
            assert(tv.take(0) =~= Seq::empty());
            assert(kept.deep_view() =~= Seq::<Seq<char>>::empty());
        }
        while i < self.tags.len()
            invariant
                i <= self.tags.len(),
                tv == self.tags.deep_view(),
                em == self.entries@,
                *self == *old(self),
                forall|k: Seq<u8>|
                    kept.deep_view() == swept_tags(
                        tv.take(i as int),
                        #[trigger] opened_entries(em, k),
                    ),
            decreases self.tags.len() - i,
        {
            proof {
                assert(tv.take(i + 1).drop_last() =~= tv.take(i as int));
                assert(tv.take(i + 1).last() == self.tags@[i as int]@);
            }
            let ghost before = kept.deep_view();
            let used: bool = self.tag_used(self.tags[i].as_str());
            if used {
                kept.push(self.tags[i].clone());
                proof {
                    assert(kept.deep_view() =~= before.push(self.tags@[i as int]@));
                }
            }
            proof {
                assert forall|k: Seq<u8>|
                    kept.deep_view() == swept_tags(
                        tv.take(i + 1),
                        #[trigger] opened_entries(em, k),
                    ) by {
                    assert(used == tag_in_use(opened_entries(em, k), self.tags@[i as int]@));
                    assert(before == swept_tags(tv.take(i as int), opened_entries(em, k)));
                }
            }
            i = i + 1;
        }
        proof {
            assert(tv.take(tv.len() as int) =~= tv);
            assert forall|k: Seq<u8>|
                kept.deep_view() == #[trigger] swept_tags(tv, opened_entries(em, k)) by {
                assert(kept.deep_view() == swept_tags(
                    tv.take(i as int),
                    opened_entries(em, k),
                ));
            }
        }
        self.tags = kept;
    }

    /// Deletes an entry with all its rows, then sweeps out tags that no entry
    /// carries any more. Deleting an absent entry only sweeps.
    pub fn delete_local_entry(&mut self, uuid: Uuid)
        ensures
            forall|k: Seq<u8>|
                #[trigger] final(self).opened(k) == without_entry(old(self).opened(k), uuid),
            final(self).entries@ == old(self).entries@.remove(uuid),
            final(self).conflicts == old(self).conflicts,
    {
        self.entries.remove(&uuid);
        let ghost mid = *self;
        self.sweep_tags();
        proof {
            assert forall|k: Seq<u8>| #[trigger]
                self.opened(k) == without_entry(old(self).opened(k), uuid) by {
                assert(self.tags.deep_view() == swept_tags(
                    mid.tags.deep_view(),
                    opened_entries(mid.entries@, k),
                ));
                assert(opened_entries(mid.entries@, k) =~= opened_entries(
                    old(self).entries@,
                    k,
                ).remove(uuid));
            }
        }
    }

    /// Replaces an entry's rows, its group and recycle state unchanged. The
    /// entry must be there.
    pub fn replace_entry(&mut self, uuid: Uuid, record: EntryRecord, blobs: Vec<BlobRow>)
        requires
            old(self).entries@.contains_key(uuid),
        ensures
            forall|k: Seq<u8>|
                #[trigger] final(self).opened(k) == with_entry(
                    old(self).opened(k),
                    uuid,
                    record.opened(k),
                    blobs.deep_view(),
                ),
            final(self).entries@ == old(self).entries@.insert(uuid, record),
            final(self).conflicts == old(self).conflicts,
    {
        self.add_tags(&record.tags);
        self.add_blobs(blobs);
        self.entries.insert(uuid, record);
        proof {
            assert forall|k: Seq<u8>| #[trigger]
                self.opened(k) == with_entry(
                    old(self).opened(k),
                    uuid,
                    record.opened(k),
                    blobs.deep_view(),
                ) by {
                assert(opened_entries(self.entries@, k) =~= opened_entries(
                    old(self).entries@,
                    k,
                ).insert(uuid, record.opened(k)));
            }
        }
    }

    /// Drops a tombstone, if there is one.
    pub fn remove_tombstone(&mut self, uuid: Uuid)
        ensures
            forall|k: Seq<u8>|
                #[trigger] final(self).opened(k) == (MirrorView {
                    tombstones: old(self).opened(k).tombstones.remove(uuid),
                    ..old(self).opened(k)
                }),
            final(self).entries == old(self).entries,
            final(self).conflicts == old(self).conflicts,
    {
        self.tombstones.remove(&uuid);
    }

    /// Merges one tombstone: added where there is none, else the earliest
    /// known deletion time is kept.
    pub fn union_tombstone(&mut self, uuid: Uuid, deleted_at: Option<i64>)
        ensures
            forall|k: Seq<u8>|
                #[trigger] final(self).opened(k) == with_tombstone(
                    old(self).opened(k),
                    uuid,
                    deleted_at,
                ),
            final(self).entries == old(self).entries,
            final(self).conflicts == old(self).conflicts,
    {
        let merged: Option<i64> = match self.tombstones.get(&uuid) {
            Some(existing) => time::earliest_ms(*existing, deleted_at),
            None => deleted_at,
        };
        self.tombstones.insert(uuid, merged);
    }

    /// An entry's group, and whether it is recycled.
    pub fn placement(&self, uuid: Uuid) -> (r: Option<(Uuid, bool)>)
        ensures
            r == (if self.entries@.contains_key(uuid) {
                Some((self.entries@[uuid].group_uuid, self.entries@[uuid].is_recycled))
            } else {
                None
            }),
    {
        match self.entries.get(&uuid) {
            Some(record) => Some((record.group_uuid, record.is_recycled)),
            None => None,
        }
    }

    /// Drops one device's held value of an entry, if there is one.
    pub fn clear_conflict_rows(&mut self, owner: &str, uuid: Uuid)
        requires
            old(self).wf(),
        ensures
            final(self).wf(),
            forall|k: Seq<u8>|
                #[trigger] final(self).opened(k) == (MirrorView {
                    conflicts: old(self).opened(k).conflicts.remove((owner@, uuid)),
                    ..old(self).opened(k)
                }),
            final(self).entries == old(self).entries,
            conflict_rows::only_drops(
                old(self).conflicts.rows@,
                final(self).conflicts.rows@,
                (owner@, uuid),
            ),
    {
        self.conflicts.clear_conflict_rows(owner, uuid);
    }

    /// Adds a held value. Refused, with nothing changed, when the device
    /// already has one for the entry.
    pub fn insert_conflict(&mut self, record: ConflictRecord) -> (r: Result<(), EngineError>)
        requires
            old(self).wf(),
        ensures
            final(self).wf(),
            r is Ok <==> !table::has_row(old(self).conflicts.rows@, record.row_key()),
            r is Ok ==> forall|k: Seq<u8>|
                #[trigger] final(self).opened(k) == (MirrorView {
                    conflicts: old(self).opened(k).conflicts.insert(
                        record.row_key(),
                        record.row_view(k),
                    ),
                    ..old(self).opened(k)
                }),
            r is Ok ==> final(self).entries == old(self).entries,
            r is Ok ==> final(self).conflicts.rows@ == old(self).conflicts.rows@.push(record),
            r is Err ==> rows::is_constraint(r->Err_0) && *final(self) == *old(self),
            forall|k: Seq<u8>|
                #[trigger] old(self).opened(k).conflicts.contains_key(record.row_key())
                    == table::has_row(old(self).conflicts.rows@, record.row_key()),
    {
        proof {
            assert forall|k: Seq<u8>| #[trigger]
                old(self).opened(k).conflicts.contains_key(record.row_key()) == table::has_row(
                    old(self).conflicts.rows@,
                    record.row_key(),
                ) by {
                table::map_keys(old(self).conflicts.rows@, k, record.row_key());
            }
        }
        if self.conflicts.holds(record.owner.as_str(), record.entry_uuid) {
            return Err(rows::constraint_error());
        }
        self.conflicts.insert(record);
        Ok(())
    }
}

} // verus!
