//! Reading values back out of the tables: sealed and plain fields, history, and
//! files.
//!
//! A sealed value is looked up first; only one that is there takes the session
//! key. Without the key nothing sealed is read.

use vstd::prelude::*;
use vstd::utf8::*;

use crate::codec;
use crate::codec::Uuid;
use crate::crypto;
use crate::crypto::SessionKey;
use crate::error::{EngineError, RevealError};
use crate::history_snapshot;
use crate::history_snapshot::{HistoryAttachmentIo, HistoryCustomFieldIo, HistorySnapshotIo};
use crate::mirror;
use crate::mirror::{EntryRecord, Mirror};
use crate::order;
use crate::order::TextKeyed;
use crate::rows;
use crate::rows::{AttachmentRow, BlobRow, PASSWORD_FIELD};
use crate::text;

verus! {

broadcast use {vstd::std_specs::btree::group_btree_axioms, vstd::laws_cmp::group_laws_cmp};

// ----------------------------------------------------------------- sealed values

/// What a sealed value reads as, or what keeps it from being read.
pub open spec fn read_as(key: Seq<u8>, blob: Seq<u8>) -> Result<Seq<char>, Seq<char>> {
    match crypto::opened(key, blob) {
        None => Err(
            if blob.len() < crypto::MIN_SEALED_LEN {
                "wrapped blob too short"@
            } else {
                "aead::Error"@
            },
        ),
        Some(plain) => if valid_utf8(plain) {
            Ok(decode_utf8(plain))
        } else {
            Err("non-utf8 plaintext: "@ + codec::utf8_fault(plain))
        },
    }
}

/// Whether an outcome is that of opening a sealed value with the session key,
/// or without one that could not be had.
pub open spec fn reveals(
    r: Result<String, EngineError>,
    session_key: Result<&SessionKey, String>,
    blob: Seq<u8>,
) -> bool {
    match session_key {
        Err(why) => r == Err::<String, EngineError>(
            EngineError::Reveal(RevealError::SessionKey(why)),
        ),
        Ok(key) => match read_as(key@, blob) {
            Ok(t) => r is Ok && r->Ok_0@ == t,
            Err(fault) => {
                &&& r is Err
                &&& r->Err_0 matches EngineError::Reveal(RevealError::Unwrap(t)) && t@ == fault
            },
        },
    }
}

/// Whether an outcome says that something is not there.
pub open spec fn lacks<T>(r: Result<T, EngineError>, what: Seq<char>) -> bool {
    &&& r is Err
    &&& r->Err_0 matches EngineError::NotFound { entity } && entity@ == what
}

/// Opens a sealed value.
pub fn reveal_sealed(session_key: Result<&SessionKey, String>, blob: &[u8]) -> (r: Result<
    String,
    EngineError,
>)
    ensures
        reveals(r, session_key, blob@),
{
    let key = match session_key {
        Ok(key) => key,
        Err(why) => {
            return Err(EngineError::Reveal(RevealError::SessionKey(why)));
        },
    };
    match crypto::unwrap_with_session_key(key, blob) {
        Err(fault) => Err(EngineError::Reveal(RevealError::Unwrap(fault))),
        Ok(plain) => match codec::text_from_utf8(plain) {
            Ok(t) => Ok(t),
            Err(fault) => Err(
                EngineError::Reveal(
                    RevealError::Unwrap(text::joined("non-utf8 plaintext: ", fault.as_str())),
                ),
            ),
        },
    }
}

/// The sealed value that an entry has under a name.
pub open spec fn sealed_in(entries: Map<Uuid, EntryRecord>, uuid: Uuid, name: Seq<char>) -> Option<
    Seq<u8>,
> {
    if entries.contains_key(uuid) {
        let rows = entries[uuid].fields.protected@;
        match order::first_named(rows, name, rows.len()) {
            Some(i) => Some(rows[i as int].wrapped_blob@),
            None => None,
        }
    } else {
        None
    }
}

/// The sealed value that an entry has under a name.
pub fn sealed_field<'a>(m: &'a Mirror, uuid: Uuid, field_name: &str) -> (r: Option<&'a Vec<u8>>)
    ensures
        match r {
            Some(blob) => sealed_in(m.entries@, uuid, field_name@) == Some(blob@),
            None => sealed_in(m.entries@, uuid, field_name@) is None,
        },
{
    match m.entries.get(&uuid) {
        None => None,
        Some(record) => match order::find_named(&record.fields.protected, field_name) {
            Some(i) => Some(&record.fields.protected[i].wrapped_blob),
            None => None,
        },
    }
}

/// The text of an entry's sealed field. The password's name gives the password.
pub fn reveal_custom_field(
    m: &Mirror,
    uuid: Uuid,
    field_name: &str,
    session_key: Result<&SessionKey, String>,
) -> (r: Result<String, EngineError>)
    ensures
        match sealed_in(m.entries@, uuid, field_name@) {
            None => lacks(r, "custom_field"@),
            Some(blob) => reveals(r, session_key, blob),
        },
{
    match sealed_field(m, uuid, field_name) {
        None => Err(EngineError::NotFound { entity: "custom_field" }),
        Some(blob) => reveal_sealed(session_key, blob.as_slice()),
    }
}

/// An entry's password.
pub fn reveal_password(m: &Mirror, uuid: Uuid, session_key: Result<&SessionKey, String>) -> (r:
    Result<String, EngineError>)
    ensures
        match sealed_in(m.entries@, uuid, PASSWORD_FIELD@) {
            None => lacks(r, "password"@),
            Some(blob) => reveals(r, session_key, blob),
        },
{
    match sealed_field(m, uuid, PASSWORD_FIELD) {
        None => Err(EngineError::NotFound { entity: "password" }),
        Some(blob) => reveal_sealed(session_key, blob.as_slice()),
    }
}

// ------------------------------------------------------------------ plain values

/// The plain value that an entry has under a name.
pub open spec fn plain_in(entries: Map<Uuid, EntryRecord>, uuid: Uuid, name: Seq<char>) -> Option<
    Seq<char>,
> {
    if entries.contains_key(uuid) {
        let rows = entries[uuid].fields.plain@;
        match order::first_named(rows, name, rows.len()) {
            Some(i) => Some(rows[i as int].value@),
            None => None,
        }
    } else {
        None
    }
}

/// The value of an entry's plain field; `None` where the field is sealed or
/// not there.
pub fn non_protected_custom_field(m: &Mirror, uuid: Uuid, field_name: &str) -> (r: Option<String>)
    ensures
        match r {
            Some(t) => plain_in(m.entries@, uuid, field_name@) == Some(t@),
            None => plain_in(m.entries@, uuid, field_name@) is None,
        },
{
    match m.entries.get(&uuid) {
        None => None,
        Some(record) => match order::find_named(&record.fields.plain, field_name) {
            Some(i) => Some(record.fields.plain[i].value.clone()),
            None => None,
        },
    }
}

// ----------------------------------------------------------------------- history

impl TextKeyed for HistoryCustomFieldIo {
    open spec fn text_key(self) -> Seq<char> {
        self.key@
    }

    fn key_text(&self) -> (r: &str) {
        self.key.as_str()
    }
}

/// A value of a history record, as it is stored.
#[derive(Debug)]
pub enum HistoryField {
    /// Sealed.
    Sealed(Vec<u8>),
    /// Plain.
    Plain(String),
}

/// A value of a history record as text: encoded where sealed. The password goes
/// by its own name, custom fields by theirs.
pub open spec fn past_value(s: HistorySnapshotIo, name: Seq<char>) -> Option<(Seq<char>, bool)> {
    if name == PASSWORD_FIELD@ {
        Some((s.password@, true))
    } else {
        match order::first_named(s.custom_fields@, name, s.custom_fields@.len()) {
            Some(i) => Some(
                (s.custom_fields@[i as int].value@, s.custom_fields@[i as int].protected),
            ),
            None => None,
        }
    }
}

/// The history record of an entry at an index.
pub open spec fn past_record(entries: Map<Uuid, EntryRecord>, uuid: Uuid, index: u32) -> Option<
    HistorySnapshotIo,
> {
    if entries.contains_key(uuid) && index < entries[uuid].history@.len() {
        Some(entries[uuid].history@[index as int])
    } else {
        None
    }
}

fn past_snapshot<'a>(m: &'a Mirror, uuid: Uuid, index: u32) -> (r: Option<&'a HistorySnapshotIo>)
    ensures
        match r {
            Some(s) => past_record(m.entries@, uuid, index) == Some(*s),
            None => past_record(m.entries@, uuid, index) is None,
        },
{
    match m.entries.get(&uuid) {
        None => None,
        Some(record) => {
            if (index as usize) < record.history.len() {
                Some(&record.history[index as usize])
            } else {
                None
            }
        },
    }
}

/// Whether an outcome is that of decoding a stored value.
pub open spec fn decodes(r: Result<HistoryField, EngineError>, value: Seq<char>, sealed: bool) -> bool {
    if !sealed {
        r matches Ok(HistoryField::Plain(t)) && t@ == value
    } else {
        match codec::base64_decoded(value) {
            Ok(blob) => r matches Ok(HistoryField::Sealed(b)) && b@ == blob,
            Err(fault) => {
                &&& r is Err
                &&& r->Err_0 matches EngineError::Reveal(RevealError::Unwrap(t)) && t@ == fault
            },
        }
    }
}

fn decode_value(value: &str) -> (r: Result<HistoryField, EngineError>)
    ensures
        decodes(r, value@, true),
{
    match codec::b64_decode(value) {
        Ok(blob) => Ok(HistoryField::Sealed(blob)),
        Err(fault) => Err(EngineError::Reveal(RevealError::Unwrap(fault))),
    }
}

/// A value of a history record, as it is stored: looked up and, where sealed,
/// decoded.
pub fn history_field(m: &Mirror, uuid: Uuid, history_index: u32, field_name: &str) -> (r: Result<
    HistoryField,
    EngineError,
>)
    ensures
        match past_record(m.entries@, uuid, history_index) {
            None => lacks(r, "history_snapshot"@),
            Some(s) => match past_value(s, field_name@) {
                None => lacks(r, "history_field"@),
                Some((value, sealed)) => decodes(r, value, sealed),
            },
        },
{
    let snapshot = match past_snapshot(m, uuid, history_index) {
        Some(s) => s,
        None => {
            return Err(EngineError::NotFound { entity: "history_snapshot" });
        },
    };
    if text::same_text(field_name, PASSWORD_FIELD) {
        return decode_value(snapshot.password.as_str());
    }
    match order::find_named(&snapshot.custom_fields, field_name) {
        None => Err(EngineError::NotFound { entity: "history_field" }),
        Some(i) => {
            let f = &snapshot.custom_fields[i];
            if f.protected {
                decode_value(f.value.as_str())
            } else {
                Ok(HistoryField::Plain(f.value.clone()))
            }
        },
    }
}

/// Whether an outcome is that of reading a stored value of a history record.
pub open spec fn reveals_past(
    r: Result<String, EngineError>,
    session_key: Result<&SessionKey, String>,
    value: Seq<char>,
    sealed: bool,
) -> bool {
    if !sealed {
        r is Ok && r->Ok_0@ == value
    } else {
        match codec::base64_decoded(value) {
            Ok(blob) => reveals(r, session_key, blob),
            Err(fault) => {
                &&& r is Err
                &&& r->Err_0 matches EngineError::Reveal(RevealError::Unwrap(t)) && t@ == fault
            },
        }
    }
}

/// The text of a field of a history record. A plain one takes no session key.
pub fn reveal_history_field(
    m: &Mirror,
    uuid: Uuid,
    history_index: u32,
    field_name: &str,
    session_key: Result<&SessionKey, String>,
) -> (r: Result<String, EngineError>)
    ensures
        match past_record(m.entries@, uuid, history_index) {
            None => lacks(r, "history_snapshot"@),
            Some(s) => match past_value(s, field_name@) {
                None => lacks(r, "history_field"@),
                Some((value, sealed)) => reveals_past(r, session_key, value, sealed),
            },
        },
{
    match history_field(m, uuid, history_index, field_name) {
        Err(e) => Err(e),
        Ok(HistoryField::Plain(t)) => Ok(t),
        Ok(HistoryField::Sealed(blob)) => reveal_sealed(session_key, blob.as_slice()),
    }
}

// ------------------------------------------------------------------------- files

impl TextKeyed for AttachmentRow {
    open spec fn text_key(self) -> Seq<char> {
        self.attachment_name@
    }

    fn key_text(&self) -> (r: &str) {
        self.attachment_name.as_str()
    }
}

impl TextKeyed for HistoryAttachmentIo {
    open spec fn text_key(self) -> Seq<char> {
        self.name@
    }

    fn key_text(&self) -> (r: &str) {
        self.name.as_str()
    }
}

/// The first of `n` contents of the pool whose digest is a wanted one.
pub open spec fn first_pooled(
    blobs: Seq<BlobRow>,
    wanted: spec_fn(Seq<u8>) -> bool,
    n: nat,
) -> Option<nat>
    decreases n,
{
    if n == 0 || n > blobs.len() {
        None
    } else {
        match first_pooled(blobs, wanted, (n - 1) as nat) {
            Some(i) => Some(i),
            None => if wanted(blobs[n - 1].sha256@) {
                Some((n - 1) as nat)
            } else {
                None
            },
        }
    }
}

proof fn first_pooled_stays(
    blobs: Seq<BlobRow>,
    wanted: spec_fn(Seq<u8>) -> bool,
    a: nat,
    b: nat,
)
    requires
        a <= b <= blobs.len(),
        first_pooled(blobs, wanted, a) is Some,
    ensures
        first_pooled(blobs, wanted, b) == first_pooled(blobs, wanted, a),
    decreases b,
{
    if a < b {
        first_pooled_stays(blobs, wanted, a, (b - 1) as nat);
    }
}

proof fn first_pooled_is_wanted(blobs: Seq<BlobRow>, wanted: spec_fn(Seq<u8>) -> bool, n: nat)
    requires
        n <= blobs.len(),
        first_pooled(blobs, wanted, n) is Some,
    ensures
        first_pooled(blobs, wanted, n)->0 < n,
        wanted(blobs[first_pooled(blobs, wanted, n)->0 as int].sha256@),
    decreases n,
{
    if first_pooled(blobs, wanted, (n - 1) as nat) is Some {
        first_pooled_is_wanted(blobs, wanted, (n - 1) as nat);
    }
}

proof fn the_wanted_is_found(
    blobs: Seq<BlobRow>,
    wanted: spec_fn(Seq<u8>) -> bool,
    n: nat,
    i: int,
)
    requires
        0 <= i < n <= blobs.len(),
        wanted(blobs[i].sha256@),
    ensures
        first_pooled(blobs, wanted, n) is Some,
        first_pooled(blobs, wanted, n)->0 < n,
        wanted(blobs[first_pooled(blobs, wanted, n)->0 as int].sha256@),
    decreases n,
{
    if i < n - 1 {
        the_wanted_is_found(blobs, wanted, (n - 1) as nat, i);
    }
    first_pooled_is_wanted(blobs, wanted, n);
}

/// The digest, and no other.
pub open spec fn just(digest: Seq<u8>) -> spec_fn(Seq<u8>) -> bool {
    |d: Seq<u8>| d == digest
}

/// The digests with a hexadecimal form.
pub open spec fn written(hex: Seq<char>) -> spec_fn(Seq<u8>) -> bool {
    |d: Seq<u8>| text::hex_of(d) == hex
}

/// The first content of the pool with a digest.
pub open spec fn pooled_at(blobs: Seq<BlobRow>, digest: Seq<u8>) -> Option<nat> {
    first_pooled(blobs, just(digest), blobs.len())
}

/// The content that the pool has under a digest.
pub open spec fn pooled(blobs: Seq<BlobRow>, digest: Seq<u8>) -> Option<Seq<u8>> {
    match pooled_at(blobs, digest) {
        Some(i) => Some(blobs[i as int].bytes@),
        None => None,
    }
}

/// The content that the pool has under a digest's hexadecimal form.
pub open spec fn pooled_hex(blobs: Seq<BlobRow>, hex: Seq<char>) -> Option<Seq<u8>> {
    match first_pooled(blobs, written(hex), blobs.len()) {
        Some(i) => Some(blobs[i as int].bytes@),
        None => None,
    }
}

/// Where the pool has a content with a digest.
pub fn find_pooled(blobs: &Vec<BlobRow>, digest: &[u8]) -> (r: Option<usize>)
    ensures
        match r {
            Some(i) => i < blobs@.len() && pooled_at(blobs@, digest@) == Some(i as nat),
            None => pooled_at(blobs@, digest@) is None,
        },
{
    let mut i: usize = 0;
    while i < blobs.len()
        invariant
            i <= blobs.len(),
            first_pooled(blobs@, just(digest@), i as nat) is None,
        decreases blobs.len() - i,
    {
        if text::same_bytes(blobs[i].sha256.as_slice(), digest) {
            proof {
                first_pooled_stays(blobs@, just(digest@), (i + 1) as nat, blobs@.len());
            }
            return Some(i);
        }
        i = i + 1;
    }
    None
}

/// The content of an entry's file.
pub open spec fn file_in(m: Mirror, uuid: Uuid, name: Seq<char>) -> Option<Seq<u8>> {
    if m.entries@.contains_key(uuid) {
        let files = m.entries@[uuid].attachments@;
        match order::first_named(files, name, files.len()) {
            Some(i) => pooled(m.blobs@, files[i as int].blob_sha256@),
            None => None,
        }
    } else {
        None
    }
}

/// The content of an entry's file.
pub fn attachment_bytes(m: &Mirror, uuid: Uuid, attachment_name: &str) -> (r: Result<
    Vec<u8>,
    EngineError,
>)
    ensures
        match file_in(*m, uuid, attachment_name@) {
            Some(bytes) => r is Ok && r->Ok_0@ == bytes,
            None => lacks(r, "attachment"@),
        },
{
    if let Some(record) = m.entries.get(&uuid) {
        if let Some(i) = order::find_named(&record.attachments, attachment_name) {
            if let Some(k) = find_pooled(&m.blobs, record.attachments[i].blob_sha256.as_slice()) {
                return Ok(rows::copy_bytes(m.blobs[k].bytes.as_slice()));
            }
        }
    }
    Err(EngineError::NotFound { entity: "attachment" })
}

/// Where the pool has a digest, a content with it is found.
pub proof fn the_pool_finds(blobs: Vec<BlobRow>, digest: Seq<u8>)
    requires
        mirror::has_blob(blobs.deep_view(), digest),
    ensures
        pooled(blobs@, digest) is Some,
        exists|i: int|
            0 <= i < blobs@.len() && (#[trigger] blobs.deep_view()[i]).sha256 == digest
                && blobs.deep_view()[i].bytes == pooled(blobs@, digest)->0,
{
    let views = blobs.deep_view();
    let i = choose|i: int| 0 <= i < views.len() && (#[trigger] views[i]).sha256 == digest;
    assert(views[i] == blobs@[i].deep_view());
    the_wanted_is_found(blobs@, just(digest), blobs@.len(), i);
    let k = pooled_at(blobs@, digest)->0 as int;
    assert(views[k] == blobs@[k].deep_view());
}

/// What the pool finds is there, under the digest that was asked for.
pub proof fn pooled_is_there(blobs: Seq<BlobRow>, digest: Seq<u8>)
    requires
        pooled_at(blobs, digest) is Some,
    ensures
        pooled_at(blobs, digest)->0 < blobs.len(),
        blobs[pooled_at(blobs, digest)->0 as int].sha256@ == digest,
{
    first_pooled_is_wanted(blobs, just(digest), blobs.len());
}

/// A digest and its hexadecimal form find the same content in the pool.
pub proof fn the_pool_finds_by_hex(blobs: Seq<BlobRow>, digest: Seq<u8>)
    ensures
        pooled_hex(blobs, text::hex_of(digest)) == pooled(blobs, digest),
{
    assert forall|d: Seq<u8>| #[trigger] written(text::hex_of(digest))(d) == just(digest)(d) by {
        if text::hex_of(d) == text::hex_of(digest) {
            text::hex_is_injective(d, digest);
        }
    }
    assert(written(text::hex_of(digest)) =~= just(digest));
}

fn pool_content_by_hex(blobs: &Vec<BlobRow>, hex: &str) -> (r: Option<Vec<u8>>)
    ensures
        match r {
            Some(bytes) => pooled_hex(blobs@, hex@) == Some(bytes@),
            None => pooled_hex(blobs@, hex@) is None,
        },
{
    let mut i: usize = 0;
    while i < blobs.len()
        invariant
            i <= blobs.len(),
            first_pooled(blobs@, written(hex@), i as nat) is None,
        decreases blobs.len() - i,
    {
        let own = text::hex_encode(blobs[i].sha256.as_slice());
        if text::same_text(own.as_str(), hex) {
            proof {
                first_pooled_stays(blobs@, written(hex@), (i + 1) as nat, blobs@.len());
            }
            return Some(rows::copy_bytes(blobs[i].bytes.as_slice()));
        }
        i = i + 1;
    }
    None
}

/// The content of a file of a history record. A record that predates digests
/// has none.
pub open spec fn past_file_in(m: Mirror, uuid: Uuid, index: u32, name: Seq<char>) -> Option<
    Seq<u8>,
> {
    match past_record(m.entries@, uuid, index) {
        None => None,
        Some(s) => match order::first_named(s.attachments@, name, s.attachments@.len()) {
            None => None,
            Some(i) => if s.attachments@[i as int].sha256_hex@.len() == 0 {
                None
            } else {
                pooled_hex(m.blobs@, s.attachments@[i as int].sha256_hex@)
            },
        },
    }
}

/// The content of a file as a history record has it. The pool keeps a content
/// though the live entry has dropped it.
pub fn history_attachment_bytes(
    m: &Mirror,
    uuid: Uuid,
    history_index: u32,
    attachment_name: &str,
) -> (r: Result<Vec<u8>, EngineError>)
    ensures
        match past_file_in(*m, uuid, history_index, attachment_name@) {
            Some(bytes) => r is Ok && r->Ok_0@ == bytes,
            None => lacks(r, "attachment"@),
        },
{
    let snapshot = match past_snapshot(m, uuid, history_index) {
        Some(s) => s,
        None => {
            return Err(EngineError::NotFound { entity: "attachment" });
        },
    };
    let at = match order::find_named(&snapshot.attachments, attachment_name) {
        Some(i) => i,
        None => {
            return Err(EngineError::NotFound { entity: "attachment" });
        },
    };
    let hex = snapshot.attachments[at].sha256_hex.as_str();
    if hex.is_empty() {
        return Err(EngineError::NotFound { entity: "attachment" });
    }
    match pool_content_by_hex(&m.blobs, hex) {
        Some(bytes) => Ok(bytes),
        None => Err(EngineError::NotFound { entity: "attachment" }),
    }
}

} // verus!
