//! Entries, their history, the groups and the tags, as they are shown.

use vstd::prelude::*;

use crate::codec;
use crate::codec::Uuid;
use crate::error::EngineError;
use crate::history_snapshot::{HistoryAttachmentIo, HistoryCustomFieldIo, HistorySnapshotIo};
use crate::mirror::{EntryRecord, Mirror};
use crate::model::{
    AttachmentRef, AttachmentRefView, CustomFieldRef, CustomFieldRefView, EntryFull, HistoricEntry,
    IconRef, StrengthBucket,
};
use crate::order;
use crate::order::TextKeyed;
use crate::queries;
use crate::reading;
use crate::rows;
use crate::rows::{AttachmentRow, BlobRow, PlainFieldRow, ProtectedRow, PASSWORD_FIELD};
use crate::text;

verus! {

broadcast use {vstd::std_specs::btree::group_btree_axioms, vstd::laws_cmp::group_laws_cmp};

/// A length as a count of 32 bits; the largest one where it does not fit.
pub open spec fn counted(n: nat) -> u32 {
    if n <= u32::MAX {
        n as u32
    } else {
        u32::MAX
    }
}

fn count(n: usize) -> (r: u32)
    ensures
        r == counted(n as nat),
{
    if n <= 0xffff_ffff {
        n as u32
    } else {
        u32::MAX
    }
}

// ------------------------------------------------------------------------ entries

/// The custom fields among the first `n` sealed rows: all but the password.
pub open spec fn sealed_refs(rows: Seq<ProtectedRow>, n: nat) -> Seq<CustomFieldRefView>
    decreases n,
{
    if n == 0 || n > rows.len() {
        Seq::empty()
    } else if rows[n - 1].field_name@ == PASSWORD_FIELD@ {
        sealed_refs(rows, (n - 1) as nat)
    } else {
        sealed_refs(rows, (n - 1) as nat).push(
            CustomFieldRefView { name: rows[n - 1].field_name@, is_protected: true },
        )
    }
}

/// The custom fields of plain rows.
pub open spec fn plain_refs(rows: Seq<PlainFieldRow>) -> Seq<CustomFieldRefView> {
    Seq::new(
        rows.len(),
        |i: int| CustomFieldRefView { name: rows[i].field_name@, is_protected: false },
    )
}

/// The length of the content that the pool has under a digest; zero where it has
/// none.
pub open spec fn pooled_size(blobs: Seq<BlobRow>, digest: Seq<u8>) -> u64 {
    match reading::pooled_at(blobs, digest) {
        Some(i) => if blobs[i as int].size >= 0 {
            blobs[i as int].size as u64
        } else {
            0
        },
        None => 0,
    }
}

/// An entry's files with their sizes.
pub open spec fn file_refs(files: Seq<AttachmentRow>, blobs: Seq<BlobRow>) -> Seq<
    AttachmentRefView,
> {
    Seq::new(
        files.len(),
        |i: int|
            AttachmentRefView {
                name: files[i].attachment_name@,
                size: pooled_size(blobs, files[i].blob_sha256@),
            },
    )
}

/// Whether a value shows an entry in full.
pub open spec fn shows(f: EntryFull, uuid: Uuid, record: EntryRecord, blobs: Seq<BlobRow>) -> bool {
    &&& f.uuid == uuid
    &&& f.group_uuid == record.group_uuid
    &&& f.title@ == record.title@
    &&& f.username@ == record.username@
    &&& f.url@ == record.url@
    &&& f.url_host@ == record.url_host@
    &&& f.notes@ == record.notes@
    &&& f.created_at == record.created_at
    &&& f.modified_at == record.modified_at
    &&& f.accessed_at == record.accessed_at
    &&& f.last_used_at == record.last_used_at
    &&& f.expires_at == record.expires_at
    &&& f.is_recycled == record.is_recycled
    &&& f.password_strength_bucket == StrengthBucket::of_ordinal(record.password_strength_bucket)
    &&& f.password_entropy == record.password_entropy
    &&& f.icon == queries::icon_of(record.icon_index, record.icon_custom_uuid)
    &&& f.custom_fields.deep_view() == sealed_refs(
        record.fields.protected@,
        record.fields.protected@.len(),
    ) + plain_refs(record.fields.plain@)
    &&& f.tags.deep_view() == record.tags.deep_view()
    &&& f.attachments.deep_view() == file_refs(record.attachments@, blobs)
    &&& f.history_count == counted(record.history@.len())
}

fn field_refs(record: &EntryRecord) -> (r: Vec<CustomFieldRef>)
    ensures
        r.deep_view() == sealed_refs(
            record.fields.protected@,
            record.fields.protected@.len(),
        ) + plain_refs(record.fields.plain@),
{
    let sealed = &record.fields.protected;
    let plain = &record.fields.plain;
    let mut out: Vec<CustomFieldRef> = Vec::new();
    let mut i: usize = 0;
    proof {
        assert(out.deep_view() =~= sealed_refs(sealed@, 0));
    }
    while i < sealed.len()
        invariant
            i <= sealed.len(),
            out.deep_view() == sealed_refs(sealed@, i as nat),
        decreases sealed.len() - i,
    {
        if !text::same_text(sealed[i].field_name.as_str(), PASSWORD_FIELD) {
            let ghost before = out.deep_view();
            out.push(CustomFieldRef { name: sealed[i].field_name.clone(), is_protected: true });
            proof {
                assert(out.deep_view() =~= before.push(
                    CustomFieldRefView { name: sealed@[i as int].field_name@, is_protected: true },
                ));
            }
        }
        i = i + 1;
    }
    let ghost front = out.deep_view();
    let mut k: usize = 0;
    proof {
        assert(out.deep_view() =~= front + plain_refs(plain@).take(0));
    }
    while k < plain.len()
        invariant
            k <= plain.len(),
            out.deep_view() == front + plain_refs(plain@).take(k as int),
        decreases plain.len() - k,
    {
        let ghost before = out.deep_view();
        out.push(CustomFieldRef { name: plain[k].field_name.clone(), is_protected: false });
        proof {
            assert(out.deep_view() =~= before.push(plain_refs(plain@)[k as int]));
            assert(out.deep_view() =~= front + plain_refs(plain@).take(k + 1));
        }
        k = k + 1;
    }
    proof {
        assert(plain_refs(plain@).take(plain@.len() as int) =~= plain_refs(plain@));
    }
    out
}

fn attachment_refs(m: &Mirror, record: &EntryRecord) -> (r: Vec<AttachmentRef>)
    ensures
        r.deep_view() == file_refs(record.attachments@, m.blobs@),
{
    let files = &record.attachments;
    let mut out: Vec<AttachmentRef> = Vec::new();
    let mut i: usize = 0;
    while i < files.len()
        invariant
            i <= files.len(),
            files == &record.attachments,
            out@.len() == i,
            forall|k: int|
                0 <= k < i ==> (#[trigger] out@[k]).deep_view() == file_refs(files@, m.blobs@)[k],
        decreases files.len() - i,
    {
        let size: u64 = match reading::find_pooled(&m.blobs, files[i].blob_sha256.as_slice()) {
            Some(at) => if m.blobs[at].size >= 0 {
                m.blobs[at].size as u64
            } else {
                0
            },
            None => 0,
        };
        out.push(AttachmentRef { name: files[i].attachment_name.clone(), size });
        i = i + 1;
    }
    proof {
        assert(out.deep_view() =~= file_refs(files@, m.blobs@));
    }
    out
}

/// An entry in full; `None` where there is none. Recycled entries are shown too.
pub fn entry(m: &Mirror, uuid: Uuid) -> (r: Option<EntryFull>)
    ensures
        r is Some <==> m.entries@.contains_key(uuid),
        r is Some ==> shows(r->0, uuid, m.entries@[uuid], m.blobs@),
{
    match m.entries.get(&uuid) {
        None => None,
        Some(record) => Some(
            EntryFull {
                uuid,
                group_uuid: record.group_uuid,
                title: record.title.clone(),
                username: record.username.clone(),
                url: record.url.clone(),
                url_host: record.url_host.clone(),
                notes: record.notes.clone(),
                created_at: record.created_at,
                modified_at: record.modified_at,
                accessed_at: record.accessed_at,
                last_used_at: record.last_used_at,
                expires_at: record.expires_at,
                is_recycled: record.is_recycled,
                password_strength_bucket: StrengthBucket::from_ordinal(
                    record.password_strength_bucket,
                ),
                password_entropy: record.password_entropy,
                icon: queries::icon(record.icon_index, record.icon_custom_uuid),
                custom_fields: field_refs(record),
                tags: text::copy_texts(&record.tags),
                attachments: attachment_refs(m, record),
                history_count: count(record.history.len()),
            },
        ),
    }
}

// ------------------------------------------------------------------------ history

/// The icon of a history record. An identity that does not parse counts as none.
pub open spec fn past_icon(s: HistorySnapshotIo) -> IconRef {
    let index = match s.icon_index {
        Some(n) => n,
        None => 0,
    };
    match s.icon_custom_uuid {
        Some(t) => match codec::uuid_parsed(t@) {
            Ok(u) => IconRef::Custom(u),
            Err(_) => IconRef::Builtin(index),
        },
        None => IconRef::Builtin(index),
    }
}

/// The custom fields of a history record, by name.
pub open spec fn past_field_refs(fields: Seq<HistoryCustomFieldIo>) -> Seq<CustomFieldRefView> {
    let sorted = order::sorted_of(fields);
    Seq::new(
        sorted.len(),
        |i: int| CustomFieldRefView { name: sorted[i].key@, is_protected: sorted[i].protected },
    )
}

/// The files of a history record.
pub open spec fn past_file_refs(files: Seq<HistoryAttachmentIo>) -> Seq<AttachmentRefView> {
    Seq::new(
        files.len(),
        |i: int| AttachmentRefView { name: files[i].name@, size: files[i].size },
    )
}

/// Whether a value shows a history record.
pub open spec fn shows_past(h: HistoricEntry, index: int, s: HistorySnapshotIo) -> bool {
    &&& h.history_index == counted(index as nat)
    &&& h.title@ == s.title@
    &&& h.username@ == s.username@
    &&& h.url@ == s.url@
    &&& h.url_host@ == s.url_host@
    &&& h.notes@ == s.notes@
    &&& h.icon == past_icon(s)
    &&& h.created_at == s.created_at
    &&& h.modified_at == s.modified_at
    &&& h.accessed_at == s.accessed_at
    &&& h.last_used_at == s.last_used_at
    &&& h.expires_at == s.expires_at
    &&& h.password_strength_bucket == (match s.password_strength_bucket {
        Some(n) => StrengthBucket::of_ordinal(n),
        None => None,
    })
    &&& h.password_entropy == s.password_entropy
    &&& h.custom_fields.deep_view() == past_field_refs(s.custom_fields@)
    &&& h.tags.deep_view() == s.tags.deep_view()
    &&& h.attachments.deep_view() == past_file_refs(s.attachments@)
}

fn past_fields(fields: &Vec<HistoryCustomFieldIo>) -> (r: Vec<CustomFieldRef>)
    ensures
        r.deep_view() == past_field_refs(fields@),
{
    let sorted = order::sort_by_text(fields);
    let mut out: Vec<CustomFieldRef> = Vec::new();
    let mut i: usize = 0;
    while i < sorted.len()
        invariant
            i <= sorted.len(),
            sorted@.unref() == order::sorted_of(fields@),
            out@.len() == i,
            forall|k: int|
                0 <= k < i ==> (#[trigger] out@[k]).deep_view() == past_field_refs(fields@)[k],
        decreases sorted.len() - i,
    {
        proof {
            assert(sorted@.unref()[i as int] == *sorted@[i as int]);
        }
        out.push(CustomFieldRef { name: sorted[i].key.clone(), is_protected: sorted[i].protected });
        i = i + 1;
    }
    proof {
        assert(out.deep_view() =~= past_field_refs(fields@));
    }
    out
}

fn past_files(files: &Vec<HistoryAttachmentIo>) -> (r: Vec<AttachmentRef>)
    ensures
        r.deep_view() == past_file_refs(files@),
{
    let mut out: Vec<AttachmentRef> = Vec::new();
    let mut i: usize = 0;
    while i < files.len()
        invariant
            i <= files.len(),
            out@.len() == i,
            forall|k: int|
                0 <= k < i ==> (#[trigger] out@[k]).deep_view() == past_file_refs(files@)[k],
        decreases files.len() - i,
    {
        out.push(AttachmentRef { name: files[i].name.clone(), size: files[i].size });
        i = i + 1;
    }
    proof {
        assert(out.deep_view() =~= past_file_refs(files@));
    }
    out
}

fn show_past(index: usize, s: &HistorySnapshotIo) -> (r: HistoricEntry)
    ensures
        shows_past(r, index as int, *s),
{
    let number: u32 = match s.icon_index {
        Some(n) => n,
        None => 0,
    };
    let icon: IconRef = match &s.icon_custom_uuid {
        Some(t) => match codec::parse_uuid(t.as_str()) {
            Ok(u) => IconRef::Custom(u),
            Err(_) => IconRef::Builtin(number),
        },
        None => IconRef::Builtin(number),
    };
    HistoricEntry {
        history_index: count(index),
        title: s.title.clone(),
        username: s.username.clone(),
        url: s.url.clone(),
        url_host: s.url_host.clone(),
        notes: s.notes.clone(),
        icon,
        created_at: s.created_at,
        modified_at: s.modified_at,
        accessed_at: s.accessed_at,
        last_used_at: s.last_used_at,
        expires_at: s.expires_at,
        password_strength_bucket: match s.password_strength_bucket {
            Some(n) => StrengthBucket::from_ordinal(n),
            None => None,
        },
        password_entropy: s.password_entropy,
        custom_fields: past_fields(&s.custom_fields),
        tags: text::copy_texts(&s.tags),
        attachments: past_files(&s.attachments),
    }
}

/// The history of an entry, the oldest record first.
pub fn history(m: &Mirror, uuid: Uuid) -> (r: Result<Vec<HistoricEntry>, EngineError>)
    ensures
        if m.entries@.contains_key(uuid) {
            let records = m.entries@[uuid].history@;
            &&& r is Ok
            &&& r->Ok_0@.len() == records.len()
            &&& forall|i: int|
                0 <= i < records.len() ==> shows_past(#[trigger] r->Ok_0@[i], i, records[i])
        } else {
            reading::lacks(r, "entry"@)
        },
{
    match m.entries.get(&uuid) {
        None => Err(EngineError::NotFound { entity: "entry" }),
        Some(record) => {
            let records = &record.history;
            let mut out: Vec<HistoricEntry> = Vec::new();
            let mut i: usize = 0;
            while i < records.len()
                invariant
                    i <= records.len(),
                    out@.len() == i,
                    forall|k: int|
                        0 <= k < i ==> shows_past(#[trigger] out@[k], k, records@[k]),
                decreases records.len() - i,
            {
                out.push(show_past(i, &records[i]));
                i = i + 1;
            }
            Ok(out)
        },
    }
}

// --------------------------------------------------------------------------- tags

/// Every tag in use, in order.
pub fn list_tags(m: &Mirror) -> (r: Vec<String>)
    ensures
        order::texts_ascend(r.deep_view()),
        forall|t: Seq<char>| #[trigger]
            r.deep_view().contains(t) <==> m.tags.deep_view().contains(t),
{
    let ghost all = m.tags.deep_view();
    let mut out: Vec<String> = Vec::new();
    let mut i: usize = 0;
    while i < m.tags.len()
        invariant
            i <= m.tags.len(),
            all == m.tags.deep_view(),
            order::texts_ascend(out.deep_view()),
            forall|t: Seq<char>| #[trigger]
                out.deep_view().contains(t) <==> all.take(i as int).contains(t),
        decreases m.tags.len() - i,
    {
        proof {
            let less = all.take(i as int);
            let more = all.take(i + 1);
            assert(more =~= less.push(all[i as int]));
            assert forall|t: Seq<char>| #[trigger] more.contains(t) <==> less.contains(t) || t
                == all[i as int] by {
                if less.contains(t) {
                    let j = choose|j: int| 0 <= j < less.len() && less[j] == t;
                    assert(more[j] == t);
                }
                if t == all[i as int] {
                    assert(more[i as int] == t);
                }
                if more.contains(t) {
                    let j = choose|j: int| 0 <= j < more.len() && more[j] == t;
                    if j < i {
                        assert(less[j] == t);
                    }
                }
            }
        }
        order::insert_text(&mut out, m.tags[i].as_str());
        i = i + 1;
    }
    proof {
        assert(all.take(all.len() as int) =~= all);
    }
    out
}

/// The entries that carry a tag.
pub open spec fn carriers(entries: Map<Uuid, EntryRecord>, name: Seq<char>) -> Set<Uuid> {
    entries.dom().filter(|u: Uuid| entries[u].tags.deep_view().contains(name))
}

fn carrier_count(m: &Mirror, name: &str) -> (r: u64)
    ensures
        r == carriers(m.entries@, name@).len(),
{
    let uuids = m.entry_uuids();
    let ghost entries = m.entries@;
    let ghost wanted = carriers(entries, name@);
    let ghost mut seen: Set<Uuid> = Set::empty();
    let mut count: usize = 0;
    let mut i: usize = 0;
    while i < uuids.len()
        invariant
            i <= uuids.len(),
            count <= i,
            entries == m.entries@,
            wanted == carriers(entries, name@),
            forall|u: Uuid| #[trigger] entries.contains_key(u) <==> uuids@.contains(u),
            uuids@.no_duplicates(),
            seen.finite(),
            seen.len() == count,
            forall|u: Uuid| #[trigger]
                seen.contains(u) <==> uuids@.take(i as int).contains(u) && wanted.contains(u),
        decreases uuids.len() - i,
    {
        let u: Uuid = uuids[i];
        let counted: bool = match m.entries.get(&u) {
            None => false,
            Some(record) => rows::holds_text(&record.tags, name),
        };
        proof {
            let less = uuids@.take(i as int);
            order::one_more(uuids@, i as int);
            assert(uuids@.contains(u));
            assert(counted == wanted.contains(u));
            if less.contains(u) {
                let j = choose|j: int| 0 <= j < less.len() && less[j] == u;
                assert(uuids@[j] == uuids@[i as int]);
            }
            if counted {
                seen = seen.insert(u);
            }
        }
        if counted {
            count = count + 1;
        }
        i = i + 1;
    }
    proof {
        assert(uuids@.take(uuids@.len() as int) =~= uuids@);
        assert(seen =~= wanted);
    }
    count as u64
}

/// A tag, how often it is used, and the text it is ordered by.
pub struct TagUse {
    /// The tag with ASCII capitals in lower case.
    pub folded: String,
    /// The tag.
    pub name: String,
    /// Number of entries that carry it.
    pub count: u64,
}

impl TextKeyed for TagUse {
    open spec fn text_key(self) -> Seq<char> {
        self.folded@
    }

    fn key_text(&self) -> (r: &str) {
        self.folded.as_str()
    }
}

/// A text with ASCII capitals in lower case.
pub open spec fn folded(t: Seq<char>) -> Seq<char> {
    t.map_values(|c: char| text::ascii_lower(c))
}

/// Whether a value counts a tag that some entry carries.
pub open spec fn is_use(m: Mirror, t: TagUse) -> bool {
    &&& t.folded@ == folded(t.name@)
    &&& m.tags.deep_view().contains(t.name@)
    &&& t.count > 0
    &&& t.count == carriers(m.entries@, t.name@).len()
}

fn tag_uses(m: &Mirror) -> (r: Vec<TagUse>)
    ensures
        forall|i: int| 0 <= i < r@.len() ==> is_use(*m, #[trigger] r@[i]),
        forall|i: int, j: int|
            0 <= i < j < r@.len() ==> (#[trigger] r@[i]).name@ != (#[trigger] r@[j]).name@,
        forall|t: Seq<char>| #[trigger]
            m.tags.deep_view().contains(t) && carriers(m.entries@, t).len() > 0 ==> exists|i: int|
                0 <= i < r@.len() && (#[trigger] r@[i]).name@ == t,
{
    let names = list_tags(m);
    let ghost nv = names.deep_view();
    let mut out: Vec<TagUse> = Vec::new();
    let mut i: usize = 0;
    while i < names.len()
        invariant
            i <= names.len(),
            nv == names.deep_view(),
            order::texts_ascend(nv),
            forall|t: Seq<char>| #[trigger] nv.contains(t) <==> m.tags.deep_view().contains(t),
            forall|k: int| 0 <= k < out@.len() ==> is_use(*m, #[trigger] out@[k]),
            forall|k: int| 0 <= k < out@.len() ==> nv.take(i as int).contains(
                (#[trigger] out@[k]).name@,
            ),
            forall|a: int, b: int|
                0 <= a < b < out@.len() ==> (#[trigger] out@[a]).name@ != (
                #[trigger] out@[b]).name@,
            forall|k: int|
                0 <= k < i && carriers(m.entries@, #[trigger] nv[k]).len() > 0 ==> exists|n: int|
                    0 <= n < out@.len() && (#[trigger] out@[n]).name@ == nv[k],
        decreases names.len() - i,
    {
        let n: u64 = carrier_count(m, names[i].as_str());
        let ghost before = out@;
        proof {
            assert(nv[i as int] == names@[i as int]@);
            assert(nv.contains(nv[i as int]));
            assert forall|k: int| 0 <= k < out@.len() implies (#[trigger] out@[k]).name@
                != nv[i as int] && nv.take(i + 1).contains(out@[k].name@) by {
                let t = out@[k].name@;
                let j = choose|j: int| 0 <= j < nv.take(i as int).len() && nv.take(i as int)[j] == t;
                assert(nv.take(i + 1)[j] == t);
                order::text_order_is_total(nv[j], nv[i as int]);
                assert(order::text_before(nv[j], nv[i as int]));
            }
            assert(nv.take(i + 1)[i as int] == nv[i as int]);
        }
        if n > 0 {
            out.push(
                TagUse {
                    folded: text::to_ascii_lower(names[i].as_str()),
                    name: names[i].clone(),
                    count: n,
                },
            );
        }
        proof {
            assert forall|k: int|
                0 <= k < i + 1 && carriers(m.entries@, #[trigger] nv[k]).len() > 0 implies exists|
                n: int,
            |
                0 <= n < out@.len() && (#[trigger] out@[n]).name@ == nv[k] by {
                if k < i {
                    let w = choose|w: int|
                        0 <= w < before.len() && (#[trigger] before[w]).name@ == nv[k];
                    assert(out@[w].name@ == nv[k]);
                } else {
                    assert(out@[out@.len() - 1].name@ == nv[k]);
                }
            }
        }
        i = i + 1;
    }
    proof {
        assert forall|t: Seq<char>| #[trigger]
            m.tags.deep_view().contains(t) && carriers(m.entries@, t).len()
                > 0 implies exists|i: int|
            0 <= i < out@.len() && (#[trigger] out@[i]).name@ == t by {
            assert(nv.contains(t));
            let k = choose|k: int| 0 <= k < nv.len() && nv[k] == t;
            assert(carriers(m.entries@, nv[k]).len() > 0);
        }
    }
    out
}

/// Every tag that some entry carries, recycled ones among them, with the number
/// of those entries; ordered by name without regard to ASCII case.
pub fn tag_usage_counts(m: &Mirror) -> (r: Vec<(String, u64)>)
    ensures
        forall|i: int, j: int|
            0 <= i < j < r@.len() ==> !order::text_before(
                folded((#[trigger] r@[j]).0@),
                folded((#[trigger] r@[i]).0@),
            ),
        forall|i: int, j: int|
            0 <= i < j < r@.len() ==> (#[trigger] r@[i]).0@ != (#[trigger] r@[j]).0@,
        forall|i: int|
            0 <= i < r@.len() ==> m.tags.deep_view().contains((#[trigger] r@[i]).0@) && r@[i].1 > 0
                && r@[i].1 == carriers(m.entries@, r@[i].0@).len(),
        forall|t: Seq<char>| #[trigger]
            m.tags.deep_view().contains(t) && carriers(m.entries@, t).len() > 0 ==> exists|i: int|
                0 <= i < r@.len() && (#[trigger] r@[i]).0@ == t,
{
    let uses = tag_uses(m);
    let sorted = order::sort_by_text(&uses);
    let ghost sv = order::sorted_of(uses@);
    proof {
        assert(sorted@.unref() == sv);
        assert(sorted@.unref().len() == sorted@.len());
        order::sorting_orders_and_keeps(uses@);
        assert(uses@.no_duplicates());
        order::sorting_keeps_distinct(uses@);
        assert forall|i: int| 0 <= i < sv.len() implies is_use(*m, #[trigger] sv[i]) by {
            order::sorting_keeps_members(uses@, sv[i]);
            assert(sv.contains(sv[i]));
        }
        assert forall|i: int, j: int| 0 <= i < j < sv.len() implies (#[trigger] sv[i]).name@ != (
        #[trigger] sv[j]).name@ by {
            order::sorting_keeps_members(uses@, sv[i]);
            order::sorting_keeps_members(uses@, sv[j]);
            assert(sv.contains(sv[i]) && sv.contains(sv[j]));
            let a = choose|a: int| 0 <= a < uses@.len() && uses@[a] == sv[i];
            let b = choose|b: int| 0 <= b < uses@.len() && uses@[b] == sv[j];
            if a < b {
                assert(uses@[a].name@ != uses@[b].name@);
            } else if b < a {
                assert(uses@[b].name@ != uses@[a].name@);
            }
        }
        assert forall|t: Seq<char>| #[trigger]
            m.tags.deep_view().contains(t) && carriers(m.entries@, t).len()
                > 0 implies exists|i: int|
            0 <= i < sv.len() && (#[trigger] sv[i]).name@ == t by {
            let k = choose|k: int| 0 <= k < uses@.len() && (#[trigger] uses@[k]).name@ == t;
            order::sorting_keeps_members(uses@, uses@[k]);
            assert(uses@.contains(uses@[k]));
            let i = choose|i: int| 0 <= i < sv.len() && sv[i] == uses@[k];
            assert(sv[i].name@ == t);
        }
    }
    let mut out: Vec<(String, u64)> = Vec::new();
    let mut i: usize = 0;
    while i < sorted.len()
        invariant
            i <= sorted.len(),
            sorted@.unref() == sv,
            sorted@.len() == sv.len(),
            out@.len() == i,
            forall|k: int|
                0 <= k < i ==> (#[trigger] out@[k]).0@ == sv[k].name@ && out@[k].1 == sv[k].count,
        decreases sorted.len() - i,
    {
        proof {
            assert(sorted@.unref()[i as int] == *sorted@[i as int]);
        }
        out.push((sorted[i].name.clone(), sorted[i].count));
        i = i + 1;
    }
    proof {
        assert forall|i: int, j: int| 0 <= i < j < out@.len() implies !order::text_before(
            folded((#[trigger] out@[j]).0@),
            folded((#[trigger] out@[i]).0@),
        ) by {
            assert(is_use(*m, sv[i]) && is_use(*m, sv[j]));
            assert(!order::text_before(sv[j].text_key(), sv[i].text_key()));
        }
        assert forall|i: int| 0 <= i < out@.len() implies m.tags.deep_view().contains(
            (#[trigger] out@[i]).0@,
        ) && out@[i].1 > 0 && out@[i].1 == carriers(m.entries@, out@[i].0@).len() by {
            assert(is_use(*m, sv[i]));
        }
        assert forall|t: Seq<char>| #[trigger]
            m.tags.deep_view().contains(t) && carriers(m.entries@, t).len()
                > 0 implies exists|i: int|
            0 <= i < out@.len() && (#[trigger] out@[i]).0@ == t by {
            let k = choose|k: int| 0 <= k < sv.len() && (#[trigger] sv[k]).name@ == t;
            assert(out@[k].0@ == t);
        }
    }
    out
}

} // verus!
