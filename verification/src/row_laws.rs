//! What an entry's rows carry of the entry.

use vstd::prelude::*;
use vstd::utf8::*;

use crate::codec;
use crate::codec::Uuid;
use crate::crypto;
use crate::crypto::{NonceSource, SessionKey};
use crate::error::EngineError;
use crate::fingerprint;
use crate::history_snapshot;
use crate::history_snapshot::{HistoryCustomFieldIo, HistorySnapshotIo};
use crate::mirror;
use crate::mirror::{EntryRecord, Mirror, MirrorView};
use crate::model::StrengthBucket;
use crate::reading_laws;
use crate::reading_laws::holds;
use crate::rows;
use crate::rows::{AttachmentRow, BlobRow, PlainFieldRow, ProtectedRow};
use crate::text;
use crate::vault::{Entry, EntryContent, Vault};
use crate::vault_laws;
use crate::vault_laws::{
    entry_at, group_at, is_host_of, is_known_millis_of, is_millis_of, passes,
};

verus! {

/// Whether a list has a sealed row of a name, which opens to a value.
pub open spec fn seals(
    rows: Seq<ProtectedRow>,
    key: Seq<u8>,
    name: Seq<char>,
    value: Seq<char>,
) -> bool {
    exists|i: int|
        0 <= i < rows.len() && (#[trigger] rows[i]).field_name@ == name && crypto::opened(
            key,
            rows[i].wrapped_blob@,
        ) == Some(encode_utf8(value))
}

/// Whether a list has a plain row of a name with a value.
pub open spec fn lists(rows: Seq<PlainFieldRow>, name: Seq<char>, value: Seq<char>) -> bool {
    exists|i: int|
        0 <= i < rows.len() && (#[trigger] rows[i]).field_name@ == name && rows[i].value@ == value
}

/// Whether a list has a file of a name with the digest of some bytes.
pub open spec fn attaches(rows: Seq<AttachmentRow>, name: Seq<char>, bytes: Seq<u8>) -> bool {
    exists|i: int|
        0 <= i < rows.len() && (#[trigger] rows[i]).attachment_name@ == name
            && rows[i].blob_sha256@ == codec::sha256(bytes)
}

/// Whether an entry's row has the entry's own texts, icon and times.
pub open spec fn has_columns_of(row: EntryRecord, e: Entry) -> bool {
    &&& row.title@ == e.content.title@
    &&& row.username@ == e.content.username@
    &&& row.url@ == e.content.url@
    &&& is_host_of(row.url_host@, e.content.url@)
    &&& row.notes@ == e.content.notes@
    &&& row.icon_index == e.content.icon_id
    &&& row.icon_custom_uuid == e.content.custom_icon_uuid
    &&& is_millis_of(row.created_at, e.content.times.creation_time)
    &&& is_millis_of(row.modified_at, e.content.times.last_modification_time)
    &&& is_millis_of(row.accessed_at, e.content.times.last_access_time)
    &&& is_known_millis_of(row.last_used_at, e.content.times.last_access_time)
    &&& e.content.times.expires ==> is_known_millis_of(row.expires_at, e.content.times.expiry_time)
    &&& !e.content.times.expires ==> row.expires_at is None
    &&& StrengthBucket::of_ordinal(row.password_strength_bucket) == Some(e.content.strength.bucket)
    &&& row.password_entropy == e.content.strength.entropy
}

/// Whether a history record has a content's own texts, icon and times.
pub open spec fn has_past_columns_of(past: HistorySnapshotIo, c: EntryContent) -> bool {
    &&& past.title@ == c.title@
    &&& past.username@ == c.username@
    &&& past.url@ == c.url@
    &&& is_host_of(past.url_host@, c.url@)
    &&& past.notes@ == c.notes@
    &&& is_millis_of(past.created_at, c.times.creation_time)
    &&& is_millis_of(past.modified_at, c.times.last_modification_time)
    &&& is_millis_of(past.accessed_at, c.times.last_access_time)
    &&& is_known_millis_of(past.last_used_at, c.times.last_access_time)
    &&& c.times.expires ==> is_known_millis_of(past.expires_at, c.times.expiry_time)
    &&& !c.times.expires ==> past.expires_at is None
    &&& past.icon_index == Some(c.icon_id)
    &&& past.icon_custom_uuid is Some <==> c.custom_icon_uuid is Some
    &&& past.icon_custom_uuid is Some ==> past.icon_custom_uuid->0@ == codec::uuid_text(
        c.custom_icon_uuid->0,
    )
}

/// Whether an encoded and sealed text opens to a value.
pub open spec fn opens_to(encoded: Seq<char>, key: Seq<u8>, value: Seq<char>) -> bool {
    codec::base64_decoded(encoded) matches Ok(blob) && crypto::opened(key, blob) == Some(
        encode_utf8(value),
    )
}

/// Whether a list has a past field of a name, sealed or plain, with a value.
pub open spec fn had(
    fields: Seq<HistoryCustomFieldIo>,
    key: Seq<u8>,
    name: Seq<char>,
    value: Seq<char>,
    protected: bool,
) -> bool {
    exists|i: int|
        0 <= i < fields.len() && (#[trigger] fields[i]).key@ == name && fields[i].protected
            == protected && if protected {
            opens_to(fields[i].value@, key, value)
        } else {
            fields[i].value@ == value
        }
}

/// Whether a history record seals a content's password, and has its custom fields, its
/// tags, its files and its client-specific data. Of custom fields with one name the
/// last counts.
pub open spec fn carries_past(
    past: HistorySnapshotIo,
    key: Seq<u8>,
    c: EntryContent,
    binaries: Seq<Vec<u8>>,
) -> bool {
    &&& opens_to(past.password@, key, c.password@)
    &&& forall|i: int|
        0 <= i < c.custom_fields@.len() && (forall|j: int|
            i < j < c.custom_fields@.len() ==> (#[trigger] c.custom_fields@[j]).key@
                != c.custom_fields@[i].key@) ==> had(
            past.custom_fields@,
            key,
            (#[trigger] c.custom_fields@[i]).key@,
            c.custom_fields@[i].value@,
            c.custom_fields@[i].protected,
        )
    &&& past.tags@.len() == c.tags@.len()
    &&& forall|i: int| 0 <= i < c.tags@.len() ==> (#[trigger] past.tags@[i])@ == c.tags@[i]@
    &&& past.attachments@.len() == c.attachments@.len()
    &&& forall|i: int|
        0 <= i < c.attachments@.len() ==> (#[trigger] past.attachments@[i]).name@
            == c.attachments@[i].name@
    &&& forall|i: int|
        0 <= i < c.attachments@.len() && c.attachments@[i].ref_id < binaries.len() ==> (
        #[trigger] past.attachments@[i]).size
            == binaries[c.attachments@[i].ref_id as int]@.len() as u64
            && past.attachments@[i].sha256_hex@ == text::hex_of(
            codec::sha256(binaries[c.attachments@[i].ref_id as int]@),
        )
    &&& past.custom_data@.len() == c.custom_data@.len()
    &&& forall|i: int|
        0 <= i < c.custom_data@.len() ==> (#[trigger] past.custom_data@[i]).key@
            == c.custom_data@[i].key@ && past.custom_data@[i].value@ == c.custom_data@[i].value@
            && is_known_millis_of(
            past.custom_data@[i].last_modified_at,
            c.custom_data@[i].last_modified,
        )
}

proof fn a_past_row_carries_the_content(
    past: HistorySnapshotIo,
    key: Seq<u8>,
    c: EntryContent,
    binaries: Vec<Vec<u8>>,
)
    requires
        past.opened(key) == history_snapshot::snapshot_of(c.deep_view(), binaries.deep_view()),
    ensures
        has_past_columns_of(past, c),
        carries_past(past, key, c, binaries@),
{
    let v = past.opened(key);
    let w = c.deep_view();
    assert(v.icon_custom_uuid == past.icon_custom_uuid.deep_view());
    assert(v.password == history_snapshot::opened_value(key, past.password@));
    assert forall|i: int|
        0 <= i < c.custom_fields@.len() && (forall|j: int|
            i < j < c.custom_fields@.len() ==> (#[trigger] c.custom_fields@[j]).key@
                != c.custom_fields@[i].key@) implies had(
        past.custom_fields@,
        key,
        (#[trigger] c.custom_fields@[i]).key@,
        c.custom_fields@[i].value@,
        c.custom_fields@[i].protected,
    ) by {
        assert(w.custom_fields[i] == c.custom_fields@[i].deep_view());
        assert forall|j: int| i < j < w.custom_fields.len() implies (
        #[trigger] w.custom_fields[j]).key != w.custom_fields[i].key by {
            assert(w.custom_fields[j] == c.custom_fields@[j].deep_view());
        }
        let j = reading_laws::past_fields_have(w.custom_fields, w.custom_fields.len(), i);
        assert(v.custom_fields == history_snapshot::opened_fields(past.custom_fields@, key));
        assert(v.custom_fields[j] == past.custom_fields@[j].opened(key));
        assert(past.custom_fields@[j].key@ == c.custom_fields@[i].key@);
    }
    assert(v.tags == past.tags.deep_view());
    assert(v.tags.len() == past.tags@.len());
    assert(w.tags.len() == c.tags@.len());
    assert forall|i: int| 0 <= i < c.tags@.len() implies (#[trigger] past.tags@[i])@
        == c.tags@[i]@ by {
        assert(v.tags[i] == past.tags@[i]@);
        assert(w.tags[i] == c.tags@[i]@);
    }
    assert(v.attachments == past.attachments.deep_view());
    assert(v.attachments.len() == past.attachments@.len());
    assert(w.attachments.len() == c.attachments@.len());
    assert forall|i: int| 0 <= i < c.attachments@.len() implies {
        &&& (#[trigger] past.attachments@[i]).name@ == c.attachments@[i].name@
        &&& c.attachments@[i].ref_id < binaries@.len() ==> past.attachments@[i].size
            == binaries@[c.attachments@[i].ref_id as int]@.len() as u64
            && past.attachments@[i].sha256_hex@ == text::hex_of(
            codec::sha256(binaries@[c.attachments@[i].ref_id as int]@),
        )
    } by {
        assert(v.attachments[i] == past.attachments@[i].deep_view());
        assert(w.attachments[i] == c.attachments@[i].deep_view());
        if c.attachments@[i].ref_id < binaries@.len() {
            assert(binaries.deep_view()[c.attachments@[i].ref_id as int]
                == binaries@[c.attachments@[i].ref_id as int]@);
        }
    }
    assert(v.custom_data == past.custom_data.deep_view());
    assert(v.custom_data.len() == past.custom_data@.len());
    assert(w.custom_data.len() == c.custom_data@.len());
    assert forall|i: int| 0 <= i < c.custom_data@.len() implies (
    #[trigger] past.custom_data@[i]).key@ == c.custom_data@[i].key@
        && past.custom_data@[i].value@ == c.custom_data@[i].value@ && is_known_millis_of(
        past.custom_data@[i].last_modified_at,
        c.custom_data@[i].last_modified,
    ) by {
        assert(v.custom_data[i] == past.custom_data@[i].deep_view());
        assert(w.custom_data[i] == c.custom_data@[i].deep_view());
    }
}

/// The record that is made of an earlier version has that version's columns, and
/// carries the rest of it.
pub proof fn a_record_of_the_past_is_made_of_it(
    c: &EntryContent,
    session_key: &SessionKey,
    nonces: &mut NonceSource,
    binaries: &Vec<Vec<u8>>,
    r: HistorySnapshotIo,
)
    requires
        call_ensures(
            HistorySnapshotIo::from_entry,
            (c, session_key, nonces, binaries),
            Ok::<HistorySnapshotIo, EngineError>(r),
        ),
    ensures
        has_past_columns_of(r, *c),
        carries_past(r, session_key@, *c, binaries@),
{
    a_past_row_carries_the_content(r, session_key@, *c, *binaries);
}

/// Whether an entry's rows seal its password and its protected fields, have its plain
/// fields, its tags, its files and its client-specific data.
pub open spec fn carries(
    row: EntryRecord,
    key: Seq<u8>,
    e: Entry,
    fingerprint_key: Seq<u8>,
    binaries: Seq<Vec<u8>>,
) -> bool {
    &&& seals(row.fields.protected@, key, "Password"@, e.content.password@)
    &&& e.content.password@.len() == 0 ==> row.password_fingerprint is None
    &&& e.content.password@.len() > 0 ==> row.password_fingerprint is Some
        && row.password_fingerprint->0@ == fingerprint::hmac_sha256(
        fingerprint_key,
        encode_utf8(e.content.password@),
    )
    &&& forall|i: int|
        0 <= i < e.content.custom_fields@.len() && (
        #[trigger] e.content.custom_fields@[i]).protected && e.content.custom_fields@[i].key@
            != "Password"@ ==> seals(
            row.fields.protected@,
            key,
            e.content.custom_fields@[i].key@,
            e.content.custom_fields@[i].value@,
        )
    &&& forall|i: int|
        0 <= i < e.content.custom_fields@.len() && !(
        #[trigger] e.content.custom_fields@[i]).protected ==> lists(
            row.fields.plain@,
            e.content.custom_fields@[i].key@,
            e.content.custom_fields@[i].value@,
        )
    &&& forall|i: int|
        0 <= i < e.content.tags@.len() && text::trimmed((#[trigger] e.content.tags@[i])@).len() > 0
            ==> exists|j: int|
            0 <= j < row.tags@.len() && (#[trigger] row.tags@[j])@ == text::trimmed(
                e.content.tags@[i]@,
            )
    &&& row.custom_data@.len() == e.content.custom_data@.len()
    &&& forall|i: int|
        0 <= i < e.content.custom_data@.len() ==> (#[trigger] row.custom_data@[i]).key@
            == e.content.custom_data@[i].key@ && row.custom_data@[i].value@
            == e.content.custom_data@[i].value@
    &&& row.history@.len() == e.history@.len()
    &&& forall|i: int|
        0 <= i < e.history@.len() ==> has_past_columns_of(
            #[trigger] row.history@[i],
            e.history@[i],
        ) && carries_past(row.history@[i], key, e.history@[i], binaries)
    &&& forall|i: int|
        has_own_name(e, i, binaries) ==> attaches(
            row.attachments@,
            (#[trigger] e.content.attachments@[i]).name@,
            binaries[e.content.attachments@[i].ref_id as int]@,
        )
}

/// Whether a file of an entry refers to something, and no file of its name before it
/// does.
pub open spec fn has_own_name(e: Entry, i: int, binaries: Seq<Vec<u8>>) -> bool {
    let files = e.content.attachments@;
    &&& 0 <= i < files.len()
    &&& files[i].ref_id < binaries.len()
    &&& forall|n: int|
        0 <= n < i && (#[trigger] files[n]).ref_id < binaries.len() ==> files[n].name@
            != files[i].name@
}

/// Rows that are those of an entry carry the entry.
pub proof fn rows_carry_the_entry(
    row: EntryRecord,
    key: Seq<u8>,
    e: Entry,
    group: Uuid,
    recycled: bool,
    fingerprint_key: Seq<u8>,
    binaries: Vec<Vec<u8>>,
)
    requires
        row.opened(key) == mirror::record_of(
            e.deep_view(),
            group,
            recycled,
            fingerprint_key,
            binaries.deep_view(),
        ),
    ensures
        row.group_uuid == group,
        row.is_recycled == recycled,
        has_columns_of(row, e),
        carries(row, key, e, fingerprint_key, binaries@),
{
    let v = row.opened(key);
    let c = e.content.deep_view();
    let sealed = row.fields.protected@;
    assert(v.fields.protected == rows::opened_rows(sealed, key));
    assert(v.fields.protected.len() == sealed.len());
    assert(v.fields.protected[0] == sealed[0].opened(key));
    assert(seals(sealed, key, "Password"@, e.content.password@)) by {
        assert(sealed[0].field_name@ == "Password"@);
    }
    assert forall|i: int|
        0 <= i < e.content.custom_fields@.len() && (
        #[trigger] e.content.custom_fields@[i]).protected && e.content.custom_fields@[i].key@
            != "Password"@ implies seals(
        sealed,
        key,
        e.content.custom_fields@[i].key@,
        e.content.custom_fields@[i].value@,
    ) by {
        assert(c.custom_fields[i] == e.content.custom_fields@[i].deep_view());
        let j = reading_laws::sealed_row_of(c.custom_fields, i);
        assert(v.fields.protected[j + 1] == sealed[j + 1].opened(key));
        assert(sealed[j + 1].field_name@ == e.content.custom_fields@[i].key@);
    }
    assert forall|i: int|
        0 <= i < e.content.custom_fields@.len() && !(
        #[trigger] e.content.custom_fields@[i]).protected implies lists(
        row.fields.plain@,
        e.content.custom_fields@[i].key@,
        e.content.custom_fields@[i].value@,
    ) by {
        assert(c.custom_fields[i] == e.content.custom_fields@[i].deep_view());
        let j = reading_laws::plain_row_of(c.custom_fields, i);
        assert(v.fields.plain == row.fields.plain.deep_view());
        assert(v.fields.plain[j] == row.fields.plain@[j].deep_view());
        assert(row.fields.plain@[j].field_name@ == e.content.custom_fields@[i].key@);
    }
    assert forall|i: int|
        0 <= i < e.content.tags@.len() && text::trimmed((#[trigger] e.content.tags@[i])@).len()
            > 0 implies exists|j: int|
        0 <= j < row.tags@.len() && (#[trigger] row.tags@[j])@ == text::trimmed(
            e.content.tags@[i]@,
        ) by {
        let t = text::trimmed(e.content.tags@[i]@);
        assert(c.tags[i] == e.content.tags@[i]@);
        vault_laws::tag_kept(c.tags, t);
        assert(text::trimmed(c.tags[i]) == t);
        let held = row.tags.deep_view();
        assert(v.tags == held);
        let j = choose|j: int| 0 <= j < held.len() && held[j] == t;
        assert(row.tags@[j]@ == t);
    }
    assert(v.custom_data == row.custom_data.deep_view());
    assert(v.custom_data.len() == row.custom_data@.len());
    assert forall|i: int| 0 <= i < e.content.custom_data@.len() implies (
    #[trigger] row.custom_data@[i]).key@ == e.content.custom_data@[i].key@
        && row.custom_data@[i].value@ == e.content.custom_data@[i].value@ by {
        assert(c.custom_data[i] == e.content.custom_data@[i].deep_view());
        assert(v.custom_data[i] == row.custom_data@[i].deep_view());
    }
    assert(v.history.len() == row.history@.len());
    assert(e.deep_view().history.len() == e.history@.len());
    assert forall|i: int| 0 <= i < e.history@.len() implies has_past_columns_of(
        #[trigger] row.history@[i],
        e.history@[i],
    ) && carries_past(row.history@[i], key, e.history@[i], binaries@) by {
        assert(v.history[i] == row.history@[i].opened(key));
        assert(e.deep_view().history[i] == e.history@[i].deep_view());
        a_past_row_carries_the_content(row.history@[i], key, e.history@[i], binaries);
    }
    assert forall|i: int| has_own_name(e, i, binaries@) implies attaches(
        row.attachments@,
        (#[trigger] e.content.attachments@[i]).name@,
        binaries@[e.content.attachments@[i].ref_id as int]@,
    ) by {
        let files = e.content.attachments@;
        assert(c.attachments[i] == files[i].deep_view());
        assert(binaries.deep_view()[files[i].ref_id as int] == binaries@[files[i].ref_id as int]@);
        assert forall|n: int|
            0 <= n < i && (#[trigger] c.attachments[n]).ref_id
                < binaries.deep_view().len() implies c.attachments[n].name
            != c.attachments[i].name by {
            assert(c.attachments[n] == files[n].deep_view());
        }
        let j = reading_laws::file_row_of(c.attachments, binaries.deep_view(), i);
        assert(v.attachments == row.attachments.deep_view());
        assert(v.attachments[j] == row.attachments@[j].deep_view());
        assert(row.attachments@[j].attachment_name@ == files[i].name@);
    }
}

/// The rows that are made of an entry have the entry's columns, in the group and state
/// that were given, and carry the rest of it.
pub proof fn rows_are_made_of_the_entry(
    e: &Entry,
    group: Uuid,
    recycled: bool,
    fingerprint_key: &[u8; 32],
    session_key: &SessionKey,
    nonces: &mut NonceSource,
    binaries: &Vec<Vec<u8>>,
    row: EntryRecord,
    blobs: Vec<BlobRow>,
)
    requires
        call_ensures(
            mirror::build_record,
            (e, group, recycled, fingerprint_key, session_key, nonces, binaries),
            Ok::<(EntryRecord, Vec<BlobRow>), EngineError>((row, blobs)),
        ),
    ensures
        row.group_uuid == group,
        row.is_recycled == recycled,
        has_columns_of(row, *e),
        carries(row, session_key@, *e, fingerprint_key@, binaries@),
{
    rows_carry_the_entry(
        row,
        session_key@,
        *e,
        group,
        recycled,
        fingerprint_key@,
        *binaries,
    );
}

/// An entry of a vault that was written is carried by its rows.
pub proof fn an_entry_of_a_vault_is_carried(
    m: Mirror,
    before: MirrorView,
    v: &Vault,
    key: Seq<u8>,
    fingerprint_key: Seq<u8>,
    path: Seq<nat>,
    k: int,
)
    requires
        holds(m, before, v, key, fingerprint_key),
        entry_at(v.root, path, k) is Some,
    ensures
        ({
            let e = entry_at(v.root, path, k)->0;
            &&& m.entries@.contains_key(e.id)
            &&& has_columns_of(m.entries@[e.id], e)
            &&& carries(m.entries@[e.id], key, e, fingerprint_key, v.binaries@)
        }),
{
    vault_laws::a_record_at(m, before, v, key, fingerprint_key, path, k);
    let e = entry_at(v.root, path, k)->0;
    rows_carry_the_entry(
        m.entries@[e.id],
        key,
        e,
        group_at(v.root, path)->0.id,
        v.meta.recycle_bin_uuid is Some && passes(v.root, path, v.meta.recycle_bin_uuid->0),
        fingerprint_key,
        v.binaries,
    );
}

} // verus!
