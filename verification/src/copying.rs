//! Copies of the tables: the working copy of a pass that may yet fail.

use std::collections::BTreeMap;

use vstd::prelude::*;

use crate::codec::Uuid;
use crate::conflict_rows::{ConflictRecord, ConflictTable};
use crate::history_snapshot;
use crate::history_snapshot::{HistoryAttachmentIo, HistoryCustomFieldIo, HistorySnapshotIo};
use crate::mirror;
use crate::mirror::{EntryRecord, GroupRow, Mirror};
use crate::order;
use crate::rows;
use crate::rows::{AttachmentRow, BlobRow, CustomDataRow, FieldSet, PlainFieldRow, ProtectedRow};
use crate::table;
use crate::table::Keyed;
use crate::text;

verus! {

broadcast use {vstd::std_specs::btree::group_btree_axioms, vstd::laws_cmp::group_laws_cmp};

fn copy_text(text: &Option<String>) -> (r: Option<String>)
    ensures
        r.deep_view() == text.deep_view(),
{
    match text {
        Some(t) => Some(t.clone()),
        None => None,
    }
}

fn copy_items(items: &Vec<CustomDataRow>) -> (r: Vec<CustomDataRow>)
    ensures
        r.deep_view() == items.deep_view(),
{
    let mut out: Vec<CustomDataRow> = Vec::new();
    let mut i: usize = 0;
    while i < items.len()
        invariant
            i <= items.len(),
            out@.len() == i,
            forall|k: int| 0 <= k < i ==> (#[trigger] out@[k]).deep_view() == items@[k].deep_view(),
        decreases items.len() - i,
    {
        out.push(
            CustomDataRow {
                key: items[i].key.clone(),
                value: items[i].value.clone(),
                last_modified_at: items[i].last_modified_at,
            },
        );
        i = i + 1;
    }
    proof {
        assert(out.deep_view() =~= items.deep_view());
    }
    out
}

fn copy_files(files: &Vec<AttachmentRow>) -> (r: Vec<AttachmentRow>)
    ensures
        r.deep_view() == files.deep_view(),
{
    let mut out: Vec<AttachmentRow> = Vec::new();
    let mut i: usize = 0;
    while i < files.len()
        invariant
            i <= files.len(),
            out@.len() == i,
            forall|k: int| 0 <= k < i ==> (#[trigger] out@[k]).deep_view() == files@[k].deep_view(),
        decreases files.len() - i,
    {
        out.push(
            AttachmentRow {
                attachment_name: files[i].attachment_name.clone(),
                blob_sha256: rows::copy_bytes(files[i].blob_sha256.as_slice()),
            },
        );
        i = i + 1;
    }
    proof {
        assert(out.deep_view() =~= files.deep_view());
    }
    out
}

fn copy_pool(blobs: &Vec<BlobRow>) -> (r: Vec<BlobRow>)
    ensures
        r.deep_view() == blobs.deep_view(),
{
    let mut out: Vec<BlobRow> = Vec::new();
    let mut i: usize = 0;
    while i < blobs.len()
        invariant
            i <= blobs.len(),
            out@.len() == i,
            forall|k: int| 0 <= k < i ==> (#[trigger] out@[k]).deep_view() == blobs@[k].deep_view(),
        decreases blobs.len() - i,
    {
        out.push(
            BlobRow {
                sha256: rows::copy_bytes(blobs[i].sha256.as_slice()),
                bytes: rows::copy_bytes(blobs[i].bytes.as_slice()),
                size: blobs[i].size,
            },
        );
        i = i + 1;
    }
    proof {
        assert(out.deep_view() =~= blobs.deep_view());
    }
    out
}

fn copy_sealed(sealed: &Vec<ProtectedRow>) -> (r: Vec<ProtectedRow>)
    ensures
        forall|key: Seq<u8>| #[trigger]
            rows::opened_rows(r@, key) == rows::opened_rows(sealed@, key),
{
    let mut out: Vec<ProtectedRow> = Vec::new();
    let mut i: usize = 0;
    while i < sealed.len()
        invariant
            i <= sealed.len(),
            out@.len() == i,
            forall|k: int|
                0 <= k < i ==> (#[trigger] out@[k]).field_name@ == sealed@[k].field_name@
                    && out@[k].wrapped_blob@ == sealed@[k].wrapped_blob@,
        decreases sealed.len() - i,
    {
        out.push(
            ProtectedRow {
                field_name: sealed[i].field_name.clone(),
                wrapped_blob: rows::copy_bytes(sealed[i].wrapped_blob.as_slice()),
            },
        );
        i = i + 1;
    }
    proof {
        assert forall|key: Seq<u8>| #[trigger]
            rows::opened_rows(out@, key) == rows::opened_rows(sealed@, key) by {
            assert(rows::opened_rows(out@, key) =~= rows::opened_rows(sealed@, key));
        }
    }
    out
}

fn copy_plain(plain: &Vec<PlainFieldRow>) -> (r: Vec<PlainFieldRow>)
    ensures
        r.deep_view() == plain.deep_view(),
{
    let mut out: Vec<PlainFieldRow> = Vec::new();
    let mut i: usize = 0;
    while i < plain.len()
        invariant
            i <= plain.len(),
            out@.len() == i,
            forall|k: int| 0 <= k < i ==> (#[trigger] out@[k]).deep_view() == plain@[k].deep_view(),
        decreases plain.len() - i,
    {
        out.push(
            PlainFieldRow {
                field_name: plain[i].field_name.clone(),
                value: plain[i].value.clone(),
            },
        );
        i = i + 1;
    }
    proof {
        assert(out.deep_view() =~= plain.deep_view());
    }
    out
}

fn copy_fields(fields: &FieldSet) -> (r: FieldSet)
    ensures
        forall|key: Seq<u8>| #[trigger] r.opened(key) == fields.opened(key),
{
    let out = FieldSet {
        protected: copy_sealed(&fields.protected),
        plain: copy_plain(&fields.plain),
    };
    proof {
        assert forall|key: Seq<u8>| #[trigger] out.opened(key) == fields.opened(key) by {
            assert(rows::opened_rows(out.protected@, key) == rows::opened_rows(
                fields.protected@,
                key,
            ));
        }
    }
    out
}

fn copy_past_files(files: &Vec<HistoryAttachmentIo>) -> (r: Vec<HistoryAttachmentIo>)
    ensures
        r.deep_view() == files.deep_view(),
{
    let mut out: Vec<HistoryAttachmentIo> = Vec::new();
    let mut i: usize = 0;
    while i < files.len()
        invariant
            i <= files.len(),
            out@.len() == i,
            forall|k: int| 0 <= k < i ==> (#[trigger] out@[k]).deep_view() == files@[k].deep_view(),
        decreases files.len() - i,
    {
        out.push(
            HistoryAttachmentIo {
                name: files[i].name.clone(),
                size: files[i].size,
                sha256_hex: files[i].sha256_hex.clone(),
            },
        );
        i = i + 1;
    }
    proof {
        assert(out.deep_view() =~= files.deep_view());
    }
    out
}

fn copy_past_fields(fields: &Vec<HistoryCustomFieldIo>) -> (r: Vec<HistoryCustomFieldIo>)
    ensures
        forall|key: Seq<u8>| #[trigger]
            history_snapshot::opened_fields(r@, key) == history_snapshot::opened_fields(
                fields@,
                key,
            ),
{
    let mut out: Vec<HistoryCustomFieldIo> = Vec::new();
    let mut i: usize = 0;
    while i < fields.len()
        invariant
            i <= fields.len(),
            out@.len() == i,
            forall|k: int|
                0 <= k < i ==> (#[trigger] out@[k]).key@ == fields@[k].key@ && out@[k].value@
                    == fields@[k].value@ && out@[k].protected == fields@[k].protected,
        decreases fields.len() - i,
    {
        out.push(
            HistoryCustomFieldIo {
                key: fields[i].key.clone(),
                value: fields[i].value.clone(),
                protected: fields[i].protected,
            },
        );
        i = i + 1;
    }
    proof {
        assert forall|key: Seq<u8>| #[trigger]
            history_snapshot::opened_fields(out@, key) == history_snapshot::opened_fields(
                fields@,
                key,
            ) by {
            assert(history_snapshot::opened_fields(out@, key) =~= history_snapshot::opened_fields(
                fields@,
                key,
            ));
        }
    }
    out
}

impl HistorySnapshotIo {
    /// A copy of the record.
    pub fn copy(&self) -> (r: HistorySnapshotIo)
        ensures
            forall|key: Seq<u8>| #[trigger] r.opened(key) == self.opened(key),
    {
        let out = HistorySnapshotIo {
            title: self.title.clone(),
            username: self.username.clone(),
            url: self.url.clone(),
            url_host: self.url_host.clone(),
            notes: self.notes.clone(),
            password: self.password.clone(),
            tags: text::copy_texts(&self.tags),
            created_at: self.created_at,
            modified_at: self.modified_at,
            accessed_at: self.accessed_at,
            last_used_at: self.last_used_at,
            expires_at: self.expires_at,
            icon_index: self.icon_index,
            icon_custom_uuid: copy_text(&self.icon_custom_uuid),
            password_strength_bucket: self.password_strength_bucket,
            password_entropy: self.password_entropy,
            attachments: copy_past_files(&self.attachments),
            custom_fields: copy_past_fields(&self.custom_fields),
            custom_data: copy_items(&self.custom_data),
        };
        proof {
            assert forall|key: Seq<u8>| #[trigger] out.opened(key) == self.opened(key) by {
                assert(history_snapshot::opened_fields(out.custom_fields@, key)
                    == history_snapshot::opened_fields(self.custom_fields@, key));
            }
        }
        out
    }
}

fn copy_history(history: &Vec<HistorySnapshotIo>) -> (r: Vec<HistorySnapshotIo>)
    ensures
        forall|key: Seq<u8>| #[trigger]
            mirror::opened_history(r@, key) == mirror::opened_history(history@, key),
{
    let mut out: Vec<HistorySnapshotIo> = Vec::new();
    let mut i: usize = 0;
    while i < history.len()
        invariant
            i <= history.len(),
            out@.len() == i,
            forall|k: int, key: Seq<u8>|
                0 <= k < i ==> (#[trigger] out@[k].opened(key)) == history@[k].opened(key),
        decreases history.len() - i,
    {
        out.push(history[i].copy());
        i = i + 1;
    }
    proof {
        assert forall|key: Seq<u8>| #[trigger]
            mirror::opened_history(out@, key) == mirror::opened_history(history@, key) by {
            assert(mirror::opened_history(out@, key) =~= mirror::opened_history(history@, key)) by {
                assert forall|k: int| 0 <= k < history@.len() implies mirror::opened_history(
                    out@,
                    key,
                )[k] == mirror::opened_history(history@, key)[k] by {
                    assert(out@[k].opened(key) == history@[k].opened(key));
                }
            }
        }
    }
    out
}

impl EntryRecord {
    /// A copy of the rows.
    pub fn copy(&self) -> (r: EntryRecord)
        ensures
            forall|key: Seq<u8>| #[trigger] r.opened(key) == self.opened(key),
    {
        let out = EntryRecord {
            group_uuid: self.group_uuid,
            title: self.title.clone(),
            username: self.username.clone(),
            url: self.url.clone(),
            url_host: self.url_host.clone(),
            notes: self.notes.clone(),
            icon_index: self.icon_index,
            icon_custom_uuid: self.icon_custom_uuid,
            created_at: self.created_at,
            modified_at: self.modified_at,
            accessed_at: self.accessed_at,
            last_used_at: self.last_used_at,
            expires_at: self.expires_at,
            password_strength_bucket: self.password_strength_bucket,
            password_entropy: self.password_entropy,
            password_fingerprint: match &self.password_fingerprint {
                Some(tag) => Some(rows::copy_bytes(tag.as_slice())),
                None => None,
            },
            is_recycled: self.is_recycled,
            has_totp: self.has_totp,
            fields: copy_fields(&self.fields),
            custom_data: copy_items(&self.custom_data),
            tags: text::copy_texts(&self.tags),
            attachments: copy_files(&self.attachments),
            history: copy_history(&self.history),
        };
        proof {
            assert forall|key: Seq<u8>| #[trigger] out.opened(key) == self.opened(key) by {
                assert(out.fields.opened(key) == self.fields.opened(key));
                assert(mirror::opened_history(out.history@, key) == mirror::opened_history(
                    self.history@,
                    key,
                ));
            }
        }
        out
    }
}

impl GroupRow {
    /// A copy of the row.
    pub fn copy(&self) -> (r: GroupRow)
        ensures
            r.deep_view() == self.deep_view(),
    {
        GroupRow {
            parent_uuid: self.parent_uuid,
            name: self.name.clone(),
            icon_index: self.icon_index,
            icon_custom_uuid: self.icon_custom_uuid,
            notes: self.notes.clone(),
            created_at: self.created_at,
            modified_at: self.modified_at,
            expires_at: self.expires_at,
            is_recycle_bin: self.is_recycle_bin,
            sort_order: self.sort_order,
        }
    }
}

impl ConflictRecord {
    /// A copy of the row.
    pub fn copy(&self) -> (r: ConflictRecord)
        ensures
            r.row_key() == self.row_key(),
            forall|key: Seq<u8>| #[trigger] r.row_view(key) == self.row_view(key),
    {
        let out = ConflictRecord {
            owner: self.owner.clone(),
            entry_uuid: self.entry_uuid,
            group_uuid: self.group_uuid,
            title: self.title.clone(),
            username: self.username.clone(),
            url: self.url.clone(),
            notes: self.notes.clone(),
            icon_index: self.icon_index,
            icon_custom_uuid: copy_text(&self.icon_custom_uuid),
            created_at: self.created_at,
            modified_at: self.modified_at,
            accessed_at: self.accessed_at,
            expires_at: self.expires_at,
            fields: copy_fields(&self.fields),
        };
        proof {
            assert forall|key: Seq<u8>| #[trigger] out.row_view(key) == self.row_view(key) by {
                assert(out.fields.opened(key) == self.fields.opened(key));
            }
        }
        out
    }
}

fn copy_conflicts(conflicts: &ConflictTable) -> (r: ConflictTable)
    requires
        conflicts.wf(),
    ensures
        r.wf(),
        forall|key: Seq<u8>| #[trigger] r.opened(key) == conflicts.opened(key),
{
    let held = &conflicts.rows;
    let mut out: Vec<ConflictRecord> = Vec::new();
    let mut i: usize = 0;
    while i < held.len()
        invariant
            i <= held.len(),
            out@.len() == i,
            forall|k: int| 0 <= k < i ==> (#[trigger] out@[k]).row_key() == held@[k].row_key(),
            forall|k: int, key: Seq<u8>|
                0 <= k < i ==> (#[trigger] out@[k].row_view(key)) == held@[k].row_view(key),
        decreases held.len() - i,
    {
        out.push(held[i].copy());
        i = i + 1;
    }
    let copied = ConflictTable { rows: out };
    proof {
        assert(copied.wf()) by {
            assert forall|a: int, b: int| 0 <= a < b < out@.len() implies (
            #[trigger] out@[a]).row_key() != (#[trigger] out@[b]).row_key() by {
                assert(held@[a].row_key() != held@[b].row_key());
            }
        }
        assert forall|key: Seq<u8>| #[trigger] copied.opened(key) == conflicts.opened(key) by {
            table::same_rows_same_map(out@, held@, key);
        }
    }
    copied
}

impl Mirror {
    fn copy_entries(&self) -> (r: BTreeMap<Uuid, EntryRecord>)
        ensures
            forall|key: Seq<u8>| #[trigger]
                mirror::opened_entries(r@, key) == mirror::opened_entries(self.entries@, key),
    {
        let uuids = self.entry_uuids();
        let ghost entries = self.entries@;
        let mut out: BTreeMap<Uuid, EntryRecord> = BTreeMap::new();
        let mut i: usize = 0;
        while i < uuids.len()
            invariant
                i <= uuids.len(),
                entries == self.entries@,
                forall|u: Uuid| #[trigger] entries.contains_key(u) <==> uuids@.contains(u),
                forall|u: Uuid| #[trigger]
                    out@.contains_key(u) <==> uuids@.take(i as int).contains(u),
                forall|u: Uuid, key: Seq<u8>|
                    out@.contains_key(u) ==> (#[trigger] out@[u].opened(key)) == entries[u].opened(
                        key,
                    ),
            decreases uuids.len() - i,
        {
            let u: Uuid = uuids[i];
            proof {
                order::one_more(uuids@, i as int);
                assert(uuids@.contains(u));
            }
            match self.entries.get(&u) {
                Some(record) => {
                    out.insert(u, record.copy());
                },
                None => {},
            }
            i = i + 1;
        }
        proof {
            assert(uuids@.take(uuids@.len() as int) =~= uuids@);
            assert forall|key: Seq<u8>| #[trigger]
                mirror::opened_entries(out@, key) == mirror::opened_entries(entries, key) by {
                assert forall|u: Uuid| out@.contains_key(u) <==> entries.contains_key(u) by {}
                assert(mirror::opened_entries(out@, key) =~= mirror::opened_entries(entries, key));
            }
        }
        out
    }

    fn copy_groups(&self) -> (r: BTreeMap<Uuid, GroupRow>)
        ensures
            mirror::group_views(r@) == mirror::group_views(self.groups@),
    {
        let uuids = self.group_uuids();
        let ghost groups = self.groups@;
        let mut out: BTreeMap<Uuid, GroupRow> = BTreeMap::new();
        let mut i: usize = 0;
        while i < uuids.len()
            invariant
                i <= uuids.len(),
                groups == self.groups@,
                forall|u: Uuid| #[trigger] groups.contains_key(u) <==> uuids@.contains(u),
                forall|u: Uuid| #[trigger]
                    out@.contains_key(u) <==> uuids@.take(i as int).contains(u),
                forall|u: Uuid|
                    out@.contains_key(u) ==> (#[trigger] out@[u]).deep_view()
                        == groups[u].deep_view(),
            decreases uuids.len() - i,
        {
            let u: Uuid = uuids[i];
            proof {
                order::one_more(uuids@, i as int);
                assert(uuids@.contains(u));
            }
            match self.groups.get(&u) {
                Some(row) => {
                    out.insert(u, row.copy());
                },
                None => {},
            }
            i = i + 1;
        }
        proof {
            assert(uuids@.take(uuids@.len() as int) =~= uuids@);
            assert forall|u: Uuid| out@.contains_key(u) <==> groups.contains_key(u) by {}
            assert(mirror::group_views(out@) =~= mirror::group_views(groups));
        }
        out
    }

    fn copy_tombstones(&self) -> (r: BTreeMap<Uuid, Option<i64>>)
        ensures
            r@ == self.tombstones@,
    {
        let ghost all = vstd::std_specs::iter::IteratorSpec::remaining(
            &vstd::std_specs::btree::spec_keys_iter(&self.tombstones),
        ).unref();
        let ghost stones = self.tombstones@;
        let mut out: BTreeMap<Uuid, Option<i64>> = BTreeMap::new();
        for u in it: self.tombstones.keys()
            invariant
                it.seq().unref() == all,
                all.to_set() == stones.dom(),
                stones == self.tombstones@,
                forall|x: Uuid| #[trigger]
                    out@.contains_key(x) <==> all.take(it.index()).contains(x),
                forall|x: Uuid| #[trigger] out@.contains_key(x) ==> out@[x] == stones[x],
        {
            proof {
                order::one_more(all, it.index());
                assert(all.contains(*u));
                assert(all.to_set().contains(*u));
            }
            match self.tombstones.get(u) {
                Some(stone) => {
                    out.insert(*u, *stone);
                },
                None => {},
            }
        }
        proof {
            assert(all.take(all.len() as int) =~= all);
            assert forall|x: Uuid| #[trigger] out@.contains_key(x) <==> stones.contains_key(x) by {
                assert(all.to_set().contains(x) <==> all.contains(x));
            }
            assert(out@ =~= stones);
        }
        out
    }

    /// A copy of the tables.
    pub fn copy(&self) -> (r: Mirror)
        requires
            self.wf(),
        ensures
            r.wf(),
            forall|key: Seq<u8>| #[trigger] r.opened(key) == self.opened(key),
    {
        let out = Mirror {
            groups: self.copy_groups(),
            entries: self.copy_entries(),
            tags: text::copy_texts(&self.tags),
            blobs: copy_pool(&self.blobs),
            conflicts: copy_conflicts(&self.conflicts),
            tombstones: self.copy_tombstones(),
        };
        proof {
            assert forall|key: Seq<u8>| #[trigger] out.opened(key) == self.opened(key) by {
                assert(mirror::opened_entries(out.entries@, key) == mirror::opened_entries(
                    self.entries@,
                    key,
                ));
                assert(out.conflicts.opened(key) == self.conflicts.opened(key));
            }
        }
        out
    }
}

} // verus!
