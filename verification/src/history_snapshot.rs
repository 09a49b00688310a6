//! History records as the database stores them.
//!
//! A snapshot holds the password and every protected custom field sealed under
//! the session key and base64-encoded, so history is as well protected as live
//! entries. Fields beyond title, user name and URL are optional on reading:
//! older rows lack them and read as zero or empty.

use vstd::prelude::*;
use vstd::utf8::*;

use crate::codec;
use crate::crypto;
use crate::crypto::{NonceSource, SessionKey};
use crate::error::EngineError;
use crate::rows;
use crate::rows::{CustomDataRow, CustomDataRowView};
use crate::text;
use crate::time;
use crate::vault::{
    Attachment, AttachmentView, ContentView, CustomDataItem, CustomField, CustomFieldView,
    EntryContent,
};

verus! {

/// A file of a snapshot.
#[derive(Debug)]
pub struct HistoryAttachmentIo {
    /// File name.
    pub name: String,
    /// Length of the content.
    pub size: u64,
    /// SHA-256 of the content in hexadecimal; empty on rows that predate it.
    pub sha256_hex: String,
}

/// What a [`HistoryAttachmentIo`] holds.
#[verifier::ext_equal]
pub struct HistoryAttachmentView {
    pub name: Seq<char>,
    pub size: u64,
    pub sha256_hex: Seq<char>,
}

impl DeepView for HistoryAttachmentIo {
    type V = HistoryAttachmentView;

    open spec fn deep_view(&self) -> HistoryAttachmentView {
        HistoryAttachmentView {
            name: self.name@,
            size: self.size,
            sha256_hex: self.sha256_hex@,
        }
    }
}

/// A custom field of a snapshot.
#[derive(Debug)]
pub struct HistoryCustomFieldIo {
    /// Name.
    pub key: String,
    /// Base64 of the sealed value where protected, else the value itself.
    pub value: String,
    /// Which of the two `value` is.
    pub protected: bool,
}

/// A sealed value as its key opens it, `None` where it does not, and how many
/// bytes it is sealed in.
#[verifier::ext_equal]
pub struct OpenedValue {
    pub plaintext: Option<Seq<u8>>,
    pub sealed_len: nat,
}

/// A custom field's value as its key opens it.
pub enum HistoryValue {
    /// A sealed value.
    Sealed(OpenedValue),
    /// A plain value.
    Plain(Seq<char>),
}

/// What a [`HistoryCustomFieldIo`] holds under a key.
#[verifier::ext_equal]
pub struct HistoryFieldView {
    pub key: Seq<char>,
    pub value: HistoryValue,
}

/// What a sealed and base64-encoded value opens to.
pub open spec fn revealed(key: Seq<u8>, encoded: Seq<char>) -> Option<Seq<u8>> {
    match codec::base64_decoded(encoded) {
        Ok(blob) => crypto::opened(key, blob),
        Err(_) => None,
    }
}

/// A sealed and base64-encoded value as `key` opens it.
pub open spec fn opened_value(key: Seq<u8>, encoded: Seq<char>) -> OpenedValue {
    OpenedValue {
        plaintext: revealed(key, encoded),
        sealed_len: match codec::base64_decoded(encoded) {
            Ok(blob) => blob.len(),
            Err(_) => 0,
        },
    }
}

/// A text as it is sealed: longer by a nonce and a tag.
pub open spec fn sealed_value(value: Seq<char>) -> OpenedValue {
    OpenedValue {
        plaintext: Some(encode_utf8(value)),
        sealed_len: encode_utf8(value).len() + crypto::MIN_SEALED_LEN as nat,
    }
}

impl HistoryCustomFieldIo {
    /// The field as `key` opens it.
    pub open spec fn opened(self, key: Seq<u8>) -> HistoryFieldView {
        HistoryFieldView {
            key: self.key@,
            value: if self.protected {
                HistoryValue::Sealed(opened_value(key, self.value@))
            } else {
                HistoryValue::Plain(self.value@)
            },
        }
    }
}

/// One history record.
#[derive(Debug)]
pub struct HistorySnapshotIo {
    /// Title.
    pub title: String,
    /// User name.
    pub username: String,
    /// URL.
    pub url: String,
    /// Lowercase host of the URL.
    pub url_host: String,
    /// Notes.
    pub notes: String,
    /// Base64 of the sealed password.
    pub password: String,
    /// Tags, as written.
    pub tags: Vec<String>,
    /// Creation, in milliseconds.
    pub created_at: i64,
    /// Last change, in milliseconds.
    pub modified_at: i64,
    /// Last read, in milliseconds.
    pub accessed_at: i64,
    /// Last use, in milliseconds.
    pub last_used_at: Option<i64>,
    /// Expiry, in milliseconds.
    pub expires_at: Option<i64>,
    /// Standard icon number.
    pub icon_index: Option<u32>,
    /// Icon of the vault's own pool.
    pub icon_custom_uuid: Option<String>,
    /// Strength bucket; absent for an empty password.
    pub password_strength_bucket: Option<u8>,
    /// Entropy, as the bit pattern of a double; absent for an empty password.
    pub password_entropy: Option<u64>,
    /// Files.
    pub attachments: Vec<HistoryAttachmentIo>,
    /// Custom fields, each name once.
    pub custom_fields: Vec<HistoryCustomFieldIo>,
    /// Client-specific data.
    pub custom_data: Vec<CustomDataRow>,
}

/// What a [`HistorySnapshotIo`] holds under a key.
#[verifier::ext_equal]
pub struct SnapshotView {
    pub title: Seq<char>,
    pub username: Seq<char>,
    pub url: Seq<char>,
    pub url_host: Seq<char>,
    pub notes: Seq<char>,
    pub password: OpenedValue,
    pub tags: Seq<Seq<char>>,
    pub created_at: i64,
    pub modified_at: i64,
    pub accessed_at: i64,
    pub last_used_at: Option<i64>,
    pub expires_at: Option<i64>,
    pub icon_index: Option<u32>,
    pub icon_custom_uuid: Option<Seq<char>>,
    pub password_strength_bucket: Option<u8>,
    pub password_entropy: Option<u64>,
    pub attachments: Seq<HistoryAttachmentView>,
    pub custom_fields: Seq<HistoryFieldView>,
    pub custom_data: Seq<CustomDataRowView>,
}

/// Custom fields of a snapshot as `key` opens them.
pub open spec fn opened_fields(fields: Seq<HistoryCustomFieldIo>, key: Seq<u8>) -> Seq<
    HistoryFieldView,
> {
    Seq::new(fields.len(), |i: int| fields[i].opened(key))
}

impl HistorySnapshotIo {
    /// The record as `key` opens it.
    pub open spec fn opened(self, key: Seq<u8>) -> SnapshotView {
        SnapshotView {
            title: self.title@,
            username: self.username@,
            url: self.url@,
            url_host: self.url_host@,
            notes: self.notes@,
            password: opened_value(key, self.password@),
            tags: self.tags.deep_view(),
            created_at: self.created_at,
            modified_at: self.modified_at,
            accessed_at: self.accessed_at,
            last_used_at: self.last_used_at,
            expires_at: self.expires_at,
            icon_index: self.icon_index,
            icon_custom_uuid: self.icon_custom_uuid.deep_view(),
            password_strength_bucket: self.password_strength_bucket,
            password_entropy: self.password_entropy,
            attachments: self.attachments.deep_view(),
            custom_fields: opened_fields(self.custom_fields@, key),
            custom_data: self.custom_data.deep_view(),
        }
    }
}

/// Whether no later custom field has the name of the `i`-th.
pub open spec fn is_last_of_name(cfs: Seq<CustomFieldView>, i: int) -> bool {
    forall|j: int| i < j < cfs.len() ==> (#[trigger] cfs[j]).key != cfs[i].key
}

/// A custom field as a snapshot keeps it.
pub open spec fn history_field_of(cf: CustomFieldView) -> HistoryFieldView {
    HistoryFieldView {
        key: cf.key,
        value: if cf.protected {
            HistoryValue::Sealed(sealed_value(cf.value))
        } else {
            HistoryValue::Plain(cf.value)
        },
    }
}

/// The custom fields a snapshot keeps of the first `n`: of several with one
/// name the last of the whole list.
pub open spec fn history_fields_upto(cfs: Seq<CustomFieldView>, n: nat) -> Seq<HistoryFieldView>
    decreases n,
{
    if n == 0 || n > cfs.len() {
        Seq::empty()
    } else if is_last_of_name(cfs, n - 1) {
        history_fields_upto(cfs, (n - 1) as nat).push(history_field_of(cfs[n - 1]))
    } else {
        history_fields_upto(cfs, (n - 1) as nat)
    }
}

/// The content a file refers to; empty where the reference is beyond the
/// binaries.
pub open spec fn resolved_bytes(a: AttachmentView, binaries: Seq<Seq<u8>>) -> Seq<u8> {
    if (a.ref_id as int) < binaries.len() {
        binaries[a.ref_id as int]
    } else {
        Seq::empty()
    }
}

/// A file as a snapshot keeps it.
pub open spec fn history_attachment_of(a: AttachmentView, binaries: Seq<Seq<u8>>) -> HistoryAttachmentView {
    HistoryAttachmentView {
        name: a.name,
        size: resolved_bytes(a, binaries).len() as u64,
        sha256_hex: text::hex_of(codec::sha256(resolved_bytes(a, binaries))),
    }
}

/// The files a snapshot keeps.
pub open spec fn history_attachments(atts: Seq<AttachmentView>, binaries: Seq<Seq<u8>>) -> Seq<
    HistoryAttachmentView,
> {
    Seq::new(atts.len(), |i: int| history_attachment_of(atts[i], binaries))
}

/// The record of an entry's content.
pub open spec fn snapshot_of(c: ContentView, binaries: Seq<Seq<u8>>) -> SnapshotView {
    SnapshotView {
        title: c.title,
        username: c.username,
        url: c.url,
        url_host: codec::host_of(c.url),
        notes: c.notes,
        password: sealed_value(c.password),
        tags: c.tags,
        created_at: time::millis_or_zero(c.times.creation_time),
        modified_at: time::millis_or_zero(c.times.last_modification_time),
        accessed_at: time::millis_or_zero(c.times.last_access_time),
        last_used_at: time::optional_millis(c.times.last_access_time),
        expires_at: rows::expiry_of(c.times),
        icon_index: Some(c.icon_id),
        icon_custom_uuid: match c.custom_icon_uuid {
            Some(u) => Some(codec::uuid_text(u)),
            None => None,
        },
        password_strength_bucket: if c.password.len() == 0 {
            None
        } else {
            Some(c.strength.bucket.ordinal())
        },
        password_entropy: if c.password.len() == 0 {
            None
        } else {
            Some(c.strength.entropy)
        },
        attachments: history_attachments(c.attachments, binaries),
        custom_fields: history_fields_upto(c.custom_fields, c.custom_fields.len()),
        custom_data: rows::custom_data_rows(c.custom_data),
    }
}

/// The blob that an encoded value stands for; empty where it is malformed.
pub open spec fn blob_of(encoded: Seq<char>) -> Seq<u8> {
    match codec::base64_decoded(encoded) {
        Ok(blob) => blob,
        Err(_) => Seq::empty(),
    }
}

/// The blobs of the sealed ones among custom fields, in order.
pub open spec fn field_blobs(fields: Seq<HistoryCustomFieldIo>) -> Seq<Seq<u8>>
    decreases fields.len(),
{
    if fields.len() == 0 {
        Seq::empty()
    } else if fields.last().protected {
        field_blobs(fields.drop_last()).push(blob_of(fields.last().value@))
    } else {
        field_blobs(fields.drop_last())
    }
}

/// The blobs of a record in the order of sealing: the custom fields, then the
/// password.
pub open spec fn record_blobs(s: HistorySnapshotIo) -> Seq<Seq<u8>> {
    field_blobs(s.custom_fields@).push(blob_of(s.password@))
}

/// How many of the first `n` custom fields a record seals.
pub open spec fn field_seals(cfs: Seq<CustomFieldView>, n: nat) -> nat
    decreases n,
{
    if n == 0 || n > cfs.len() {
        0
    } else if is_last_of_name(cfs, n - 1) && cfs[n - 1].protected {
        field_seals(cfs, (n - 1) as nat) + 1
    } else {
        field_seals(cfs, (n - 1) as nat)
    }
}

/// How many nonces sealing a record takes.
pub open spec fn record_seals(c: ContentView) -> nat {
    field_seals(c.custom_fields, c.custom_fields.len()) + 1
}

proof fn field_seals_grow(cfs: Seq<CustomFieldView>, a: nat, b: nat)
    requires
        a <= b <= cfs.len(),
    ensures
        field_seals(cfs, a) <= field_seals(cfs, b),
    decreases b,
{
    if a < b {
        field_seals_grow(cfs, a, (b - 1) as nat);
    }
}

fn seal(key: &SessionKey, nonces: &mut NonceSource, value: &str) -> (r: Result<
    String,
    EngineError,
>)
    ensures
        r is Ok ==> opened_value(key@, r->Ok_0@) == sealed_value(value@),
        r is Ok && old(nonces).drawn@.len() > 0 ==> {
            let blob = crypto::sealed(key@, old(nonces).drawn@.last()@, encode_utf8(value@));
            r->Ok_0@ == codec::base64_of(blob) && blob_of(r->Ok_0@) == blob
        },
        r is Err ==> rows::is_wrap_failure(r->Err_0),
        r is Err ==> !rows::sealable_text(value@) || old(nonces).drawn@.len() == 0,
        final(nonces).drawn@ == crypto::left_of(old(nonces).drawn@, 1),
{
    let blob = rows::seal_text(key, nonces, value)?;
    Ok(codec::b64_encode(blob.as_slice()))
}

fn last_of_name(cfs: &Vec<CustomField>, i: usize) -> (r: bool)
    requires
        i < cfs.len(),
    ensures
        r == is_last_of_name(cfs.deep_view(), i as int),
{
    let ghost cv = cfs.deep_view();
    let mut j: usize = i + 1;
    while j < cfs.len()
        invariant
            i < j <= cfs.len(),
            cv == cfs.deep_view(),
            forall|k: int| i < k < j ==> (#[trigger] cv[k]).key != cv[i as int].key,
        decreases cfs.len() - j,
    {
        if text::same_text(cfs[j].key.as_str(), cfs[i].key.as_str()) {
            proof {
                assert(cv[j as int].key == cv[i as int].key);
            }
            return false;
        }
        j = j + 1;
    }
    true
}

fn seal_history_fields(cfs: &Vec<CustomField>, key: &SessionKey, nonces: &mut NonceSource) -> (r:
    Result<Vec<HistoryCustomFieldIo>, EngineError>)
    ensures
        r is Ok ==> opened_fields(r->Ok_0@, key@) == history_fields_upto(
            cfs.deep_view(),
            cfs@.len(),
        ),
        r is Err ==> rows::is_wrap_failure(r->Err_0),
        r is Err ==> old(nonces).drawn@.len() < field_seals(cfs.deep_view(), cfs@.len()) || exists|
            i: int,
        |
            0 <= i < cfs@.len() && !rows::sealable_text((#[trigger] cfs.deep_view()[i]).value),
        r is Ok ==> crypto::carries_nonces(field_blobs(r->Ok_0@), old(nonces).drawn@),
        r is Ok ==> field_blobs(r->Ok_0@).len() == field_seals(cfs.deep_view(), cfs@.len()),
        r is Ok ==> final(nonces).drawn@ == crypto::left_of(
            old(nonces).drawn@,
            field_seals(cfs.deep_view(), cfs@.len()),
        ),
        crypto::spent(old(nonces).drawn@, final(nonces).drawn@),
{
    broadcast use {crypto::spent_in_two, crypto::left_is_spent};

    let ghost cv = cfs.deep_view();
    let mut out: Vec<HistoryCustomFieldIo> = Vec::new();
    let mut i: usize = 0;
    proof {
        assert(opened_fields(out@, key@) =~= history_fields_upto(cv, 0));
        crypto::left_in_two(nonces.drawn@, 0, 0);
    }
    while i < cfs.len()
        invariant
            i <= cfs.len(),
            cv == cfs.deep_view(),
            opened_fields(out@, key@) == history_fields_upto(cv, i as nat),
            crypto::carries_nonces(field_blobs(out@), old(nonces).drawn@),
            field_blobs(out@).len() == field_seals(cv, i as nat),
            nonces.drawn@ == crypto::left_of(old(nonces).drawn@, field_seals(cv, i as nat)),
        decreases cfs.len() - i,
    {
        broadcast use {crypto::spent_in_two, crypto::left_is_spent};

        let cf = &cfs[i];
        let ghost before = opened_fields(out@, key@);
        let ghost blobs = field_blobs(out@);
        let ghost held = out@;
        proof {
            assert(cv[i as int] == cf.deep_view());
            field_seals_grow(cv, (i + 1) as nat, cv.len());
            crypto::left_in_two(old(nonces).drawn@, blobs.len(), 1);
        }
        if last_of_name(cfs, i) {
            let value = if cf.protected {
                seal(key, nonces, cf.value.as_str())?
            } else {
                cf.value.clone()
            };
            out.push(
                HistoryCustomFieldIo { key: cf.key.clone(), value, protected: cf.protected },
            );
            proof {
                assert(out@.drop_last() =~= held);
                if cf.protected {
                    let rest = crypto::left_of(old(nonces).drawn@, blobs.len());
                    let one = seq![blob_of(value@)];
                    if rest.len() > 0 {
                        assert(one[0].take(12) =~= rest.last()@);
                    }
                    crypto::nonces_in_two(blobs, one, old(nonces).drawn@);
                    assert(field_blobs(out@) =~= blobs + one);
                }
                assert(opened_fields(out@, key@) =~= before.push(history_field_of(cv[i as int])));
            }
        }
        i = i + 1;
    }
    Ok(out)
}

fn snapshot_attachments(atts: &Vec<Attachment>, binaries: &Vec<Vec<u8>>) -> (r: Vec<
    HistoryAttachmentIo,
>)
    ensures
        r.deep_view() == history_attachments(atts.deep_view(), binaries.deep_view()),
{
    let ghost av = atts.deep_view();
    let ghost bv = binaries.deep_view();
    let empty: Vec<u8> = Vec::new();
    let mut out: Vec<HistoryAttachmentIo> = Vec::new();
    let mut i: usize = 0;
    while i < atts.len()
        invariant
            i <= atts.len(),
            av == atts.deep_view(),
            bv == binaries.deep_view(),
            empty@ == Seq::<u8>::empty(),
            out.deep_view() == history_attachments(av, bv).take(i as int),
        decreases atts.len() - i,
    {
        let a = &atts[i];
        let at: usize = a.ref_id as usize;
        let bytes: &Vec<u8> = if at < binaries.len() {
            &binaries[at]
        } else {
            &empty
        };
        proof {
            assert(av[i as int] == a.deep_view());
            if (at as int) < bv.len() {
                assert(bv[at as int] == bytes@) by {
                    assert(bytes.deep_view() =~= bytes@);
                }
            }
            assert(bytes@ == resolved_bytes(av[i as int], bv));
        }
        let digest = rows::sha256_vec(bytes.as_slice());
        let ghost before = out.deep_view();
        out.push(
            HistoryAttachmentIo {
                name: a.name.clone(),
                size: bytes.len() as u64,
                sha256_hex: text::hex_encode(digest.as_slice()),
            },
        );
        proof {
            assert(out.deep_view() =~= before.push(history_attachment_of(av[i as int], bv)));
            assert(out.deep_view() =~= history_attachments(av, bv).take(i + 1));
        }
        i = i + 1;
    }
    proof {
        assert(history_attachments(av, bv).take(av.len() as int) =~= history_attachments(av, bv));
    }
    out
}

fn snapshot_custom_data(items: &Vec<CustomDataItem>) -> (r: Vec<CustomDataRow>)
    ensures
        r.deep_view() == rows::custom_data_rows(items.deep_view()),
{
    let ghost iv = items.deep_view();
    let mut out: Vec<CustomDataRow> = Vec::new();
    let mut i: usize = 0;
    while i < items.len()
        invariant
            i <= items.len(),
            iv == items.deep_view(),
            out.deep_view() == rows::custom_data_rows(iv).take(i as int),
        decreases items.len() - i,
    {
        let ghost before = out.deep_view();
        out.push(rows::to_custom_data_row(&items[i]));
        proof {
            assert(iv[i as int] == items@[i as int].deep_view());
            assert(out.deep_view() =~= before.push(rows::custom_data_row(iv[i as int])));
            assert(out.deep_view() =~= rows::custom_data_rows(iv).take(i + 1));
        }
        i = i + 1;
    }
    proof {
        assert(rows::custom_data_rows(iv).take(iv.len() as int) =~= rows::custom_data_rows(iv));
    }
    out
}

impl HistorySnapshotIo {
    /// Builds the record of an entry's content, sealing the password and every
    /// protected custom field. A file whose reference is beyond the binaries
    /// counts as empty. The only failures are those of sealing.
    pub fn from_entry(
        entry: &EntryContent,
        session_key: &SessionKey,
        nonces: &mut NonceSource,
        binaries: &Vec<Vec<u8>>,
    ) -> (r: Result<HistorySnapshotIo, EngineError>)
        ensures
            r is Ok ==> r->Ok_0.opened(session_key@) == snapshot_of(
                entry.deep_view(),
                binaries.deep_view(),
            ),
            r is Ok ==> crypto::carries_nonces(record_blobs(r->Ok_0), old(nonces).drawn@),
            r is Ok ==> record_blobs(r->Ok_0).len() == record_seals(entry.deep_view()),
            r is Ok ==> final(nonces).drawn@ == crypto::left_of(
                old(nonces).drawn@,
                record_seals(entry.deep_view()),
            ),
            r is Err ==> rows::is_wrap_failure(r->Err_0),
            r is Err ==> !rows::sealable_content(entry.deep_view()) || old(nonces).drawn@.len()
                < record_seals(entry.deep_view()),
            crypto::spent(old(nonces).drawn@, final(nonces).drawn@),
    {
        broadcast use {crypto::spent_in_two, crypto::left_is_spent};

        let custom_fields = seal_history_fields(&entry.custom_fields, session_key, nonces)?;
        let attachments = snapshot_attachments(&entry.attachments, binaries);
        let (bucket, entropy): (Option<u8>, Option<u64>) = if entry.password.as_str().is_empty() {
            (None, None)
        } else {
            (Some(entry.strength.bucket.to_ordinal()), Some(entry.strength.entropy))
        };
        let icon_custom_uuid: Option<String> = match entry.custom_icon_uuid {
            Some(u) => Some(codec::uuid_to_string(u)),
            None => None,
        };
        let ghost blobs = field_blobs(custom_fields@);
        let ghost rest = nonces.drawn@;
        proof {
            crypto::left_in_two(old(nonces).drawn@, blobs.len(), 1);
        }
        let password = seal(session_key, nonces, entry.password.as_str())?;
        proof {
            let one = seq![blob_of(password@)];
            if rest.len() > 0 {
                assert(one[0].take(12) =~= rest.last()@);
            }
            crypto::nonces_in_two(blobs, one, old(nonces).drawn@);
            assert(blobs.push(blob_of(password@)) =~= blobs + one);
        }
        Ok(
            HistorySnapshotIo {
                title: entry.title.clone(),
                username: entry.username.clone(),
                url: entry.url.clone(),
                url_host: codec::parse_host(entry.url.as_str()),
                notes: entry.notes.clone(),
                password,
                tags: text::copy_texts(&entry.tags),
                created_at: time::dt_to_ms(entry.times.creation_time),
                modified_at: time::dt_to_ms(entry.times.last_modification_time),
                accessed_at: time::dt_to_ms(entry.times.last_access_time),
                last_used_at: time::optional_dt_to_ms(entry.times.last_access_time),
                expires_at: rows::expiry_ms(&entry.times),
                icon_index: Some(entry.icon_id),
                icon_custom_uuid,
                password_strength_bucket: bucket,
                password_entropy: entropy,
                attachments,
                custom_fields,
                custom_data: snapshot_custom_data(&entry.custom_data),
            },
        )
    }
}

} // verus!
