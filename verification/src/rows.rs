//! Rows of the mirror: what one entry contributes to the database's tables.
//!
//! Sealed columns are compared by what they open to. `..View` types hold the
//! rows as mathematical values, with every sealed blob replaced by its
//! plaintext under a given key.

use vstd::prelude::*;
use vstd::utf8::*;

use crate::codec;
use crate::crypto;
use crate::crypto::{NonceSource, SessionKey};
use crate::error::{EngineError, IngestError, SqliteError};
use crate::text;
use crate::time;
use crate::vault::{
    Attachment, AttachmentView, CustomDataItem, CustomDataView, CustomFieldView, EntryContent,
    ContentView, Timestamps,
};

verus! {

/// Name of the slot that holds an entry's password.
pub const PASSWORD_FIELD: &'static str = "Password";

// --------------------------------------------------------------- sealed fields

/// One sealed value: a row of `entry_protected` or `conflict_entry_protected`.
#[derive(Debug)]
pub struct ProtectedRow {
    /// Field name.
    pub field_name: String,
    /// Sealed value.
    pub wrapped_blob: Vec<u8>,
}

/// A sealed value as its key opens it, and how many bytes it is sealed in.
#[verifier::ext_equal]
pub struct OpenedField {
    pub field_name: Seq<char>,
    pub plaintext: Option<Seq<u8>>,
    pub sealed_len: nat,
}

/// The sealed row of a text, as its key opens it. Sealed, a text is longer by
/// a nonce and a tag.
pub open spec fn sealed_row(field_name: Seq<char>, value: Seq<char>) -> OpenedField {
    OpenedField {
        field_name,
        plaintext: Some(encode_utf8(value)),
        sealed_len: encode_utf8(value).len() + crypto::MIN_SEALED_LEN as nat,
    }
}

impl ProtectedRow {
    /// The row as `key` opens it.
    pub open spec fn opened(self, key: Seq<u8>) -> OpenedField {
        OpenedField {
            field_name: self.field_name@,
            plaintext: crypto::opened(key, self.wrapped_blob@),
            sealed_len: self.wrapped_blob@.len(),
        }
    }
}

/// One plain value: a row of `entry_custom_field` or
/// `conflict_entry_custom_field`.
#[derive(Debug)]
pub struct PlainFieldRow {
    /// Field name.
    pub field_name: String,
    /// Value.
    pub value: String,
}

/// What a [`PlainFieldRow`] holds.
#[verifier::ext_equal]
pub struct PlainFieldView {
    pub field_name: Seq<char>,
    pub value: Seq<char>,
}

impl DeepView for PlainFieldRow {
    type V = PlainFieldView;

    open spec fn deep_view(&self) -> PlainFieldView {
        PlainFieldView { field_name: self.field_name@, value: self.value@ }
    }
}

/// The field rows of one entry.
#[derive(Debug)]
pub struct FieldSet {
    /// Sealed values; the password slot comes first.
    pub protected: Vec<ProtectedRow>,
    /// Plain values.
    pub plain: Vec<PlainFieldRow>,
}

/// What a [`FieldSet`] holds.
#[verifier::ext_equal]
pub struct FieldSetView {
    pub protected: Seq<OpenedField>,
    pub plain: Seq<PlainFieldView>,
}

/// Sealed rows as `key` opens them.
pub open spec fn opened_rows(rows: Seq<ProtectedRow>, key: Seq<u8>) -> Seq<OpenedField> {
    Seq::new(rows.len(), |i: int| rows[i].opened(key))
}

impl FieldSet {
    /// The rows as `key` opens them.
    pub open spec fn opened(self, key: Seq<u8>) -> FieldSetView {
        FieldSetView {
            protected: opened_rows(self.protected@, key),
            plain: self.plain.deep_view(),
        }
    }
}

/// Whether a custom field gets a sealed row. One that shares its name with
/// the password slot gets none.
pub open spec fn gets_sealed_row(cf: CustomFieldView) -> bool {
    cf.protected && cf.key != PASSWORD_FIELD@
}

/// The sealed rows of a list of custom fields, in order.
pub open spec fn sealed_rows_of(cfs: Seq<CustomFieldView>) -> Seq<OpenedField>
    decreases cfs.len(),
{
    if cfs.len() == 0 {
        Seq::empty()
    } else if gets_sealed_row(cfs.last()) {
        sealed_rows_of(cfs.drop_last()).push(
            sealed_row(cfs.last().key, cfs.last().value),
        )
    } else {
        sealed_rows_of(cfs.drop_last())
    }
}

/// The plain rows of a list of custom fields, in order.
pub open spec fn plain_rows_of(cfs: Seq<CustomFieldView>) -> Seq<PlainFieldView>
    decreases cfs.len(),
{
    if cfs.len() == 0 {
        Seq::empty()
    } else if !cfs.last().protected {
        plain_rows_of(cfs.drop_last()).push(
            PlainFieldView { field_name: cfs.last().key, value: cfs.last().value },
        )
    } else {
        plain_rows_of(cfs.drop_last())
    }
}

/// The field rows of an entry's content: the password, always, then the custom
/// fields.
pub open spec fn fields_of(c: ContentView) -> FieldSetView {
    FieldSetView {
        protected: seq![
            sealed_row(PASSWORD_FIELD@, c.password),
        ] + sealed_rows_of(c.custom_fields),
        plain: plain_rows_of(c.custom_fields),
    }
}

/// Whether no two sealed rows share a name.
pub open spec fn distinct_sealed(rows: Seq<OpenedField>) -> bool {
    forall|i: int, j: int|
        0 <= i < j < rows.len() ==> #[trigger] rows[i].field_name != #[trigger] rows[j].field_name
}

/// Whether no two plain rows share a name.
pub open spec fn distinct_plain(rows: Seq<PlainFieldView>) -> bool {
    forall|i: int, j: int|
        0 <= i < j < rows.len() ==> #[trigger] rows[i].field_name != #[trigger] rows[j].field_name
}

/// Whether the field names of an entry's content fit the tables, in which an
/// entry has at most one sealed and one plain row per name.
pub open spec fn storable_fields(c: ContentView) -> bool {
    distinct_sealed(fields_of(c).protected) && distinct_plain(fields_of(c).plain)
}

/// A uniqueness or foreign-key violation.
pub open spec fn is_constraint(e: EngineError) -> bool {
    e matches EngineError::Sqlite(SqliteError::Constraint)
}

/// A failure to seal a value.
pub open spec fn is_wrap_failure(e: EngineError) -> bool {
    e matches EngineError::Ingest(IngestError::Wrap(_))
}

/// A failure to seal an entry's content with `drawn` nonces at hand: a value is
/// too long, or there were too few nonces and none could be had.
pub open spec fn seal_refused(e: EngineError, c: ContentView, drawn: nat) -> bool {
    is_wrap_failure(e) && (!sealable_content(c) || drawn < content_seals(c))
}

/// The error of a row that would break a constraint.
pub fn constraint_error() -> (r: EngineError)
    ensures
        is_constraint(r),
{
    EngineError::Sqlite(SqliteError::Constraint)
}

/// Whether a text is short enough to be sealed.
pub open spec fn sealable_text(value: Seq<char>) -> bool {
    crypto::sealable(encode_utf8(value))
}

/// Whether every value of an entry's content is short enough to be sealed.
pub open spec fn sealable_content(c: ContentView) -> bool {
    sealable_text(c.password) && forall|i: int|
        0 <= i < c.custom_fields.len() ==> sealable_text((#[trigger] c.custom_fields[i]).value)
}

/// How many nonces sealing an entry's content takes.
pub open spec fn content_seals(c: ContentView) -> nat {
    fields_of(c).protected.len()
}

/// Seals a text under the session key.
pub fn seal_text(key: &SessionKey, nonces: &mut NonceSource, value: &str) -> (r: Result<
    Vec<u8>,
    EngineError,
>)
    ensures
        r is Ok ==> crypto::opened(key@, r->Ok_0@) == Some(encode_utf8(value@)),
        r is Ok ==> r->Ok_0@.len() == encode_utf8(value@).len() + crypto::MIN_SEALED_LEN,
        r is Ok ==> sealable_text(value@),
        r is Ok && old(nonces).drawn@.len() > 0 ==> r->Ok_0@ == crypto::sealed(
            key@,
            old(nonces).drawn@.last()@,
            encode_utf8(value@),
        ),
        r is Err ==> is_wrap_failure(r->Err_0),
        r is Err ==> !sealable_text(value@) || old(nonces).drawn@.len() == 0,
        final(nonces).drawn@ == crypto::left_of(old(nonces).drawn@, 1),
{
    match crypto::wrap_with_session_key(key, nonces, value.as_bytes()) {
        Ok(blob) => Ok(blob),
        Err(e) => Err(EngineError::Ingest(IngestError::Wrap(e))),
    }
}

proof fn sealed_rows_grow(cfs: Seq<CustomFieldView>, n: int)
    requires
        0 <= n <= cfs.len(),
    ensures
        sealed_rows_of(cfs.take(n)).is_prefix_of(sealed_rows_of(cfs)),
        plain_rows_of(cfs.take(n)).is_prefix_of(plain_rows_of(cfs)),
    decreases cfs.len(),
{
    if n == cfs.len() {
        assert(cfs.take(n) =~= cfs);
    } else {
        sealed_rows_grow(cfs.drop_last(), n);
        assert(cfs.drop_last().take(n) =~= cfs.take(n));
    }
}

fn has_sealed_name(rows: &Vec<ProtectedRow>, name: &str) -> (r: bool)
    ensures
        r == exists|i: int| 0 <= i < rows@.len() && (#[trigger] rows@[i]).field_name@ == name@,
{
    let mut i: usize = 0;
    while i < rows.len()
        invariant
            i <= rows.len(),
            forall|k: int| 0 <= k < i ==> (#[trigger] rows@[k]).field_name@ != name@,
        decreases rows.len() - i,
    {
        if text::same_text(rows[i].field_name.as_str(), name) {
            return true;
        }
        i = i + 1;
    }
    false
}

fn has_plain_name(rows: &Vec<PlainFieldRow>, name: &str) -> (r: bool)
    ensures
        r == exists|i: int| 0 <= i < rows@.len() && (#[trigger] rows@[i]).field_name@ == name@,
{
    let mut i: usize = 0;
    while i < rows.len()
        invariant
            i <= rows.len(),
            forall|k: int| 0 <= k < i ==> (#[trigger] rows@[k]).field_name@ != name@,
        decreases rows.len() - i,
    {
        if text::same_text(rows[i].field_name.as_str(), name) {
            return true;
        }
        i = i + 1;
    }
    false
}

/// The blobs of sealed rows, in order.
pub open spec fn blobs_in(rows: Seq<ProtectedRow>) -> Seq<Seq<u8>> {
    Seq::new(rows.len(), |i: int| rows[i].wrapped_blob@)
}

/// Builds the field rows of an entry: the password sealed first, even when
/// empty; then each custom field, sealed or plain. A protected custom field
/// named like the password slot is left out.
pub fn seal_fields(c: &EntryContent, key: &SessionKey, nonces: &mut NonceSource) -> (r: Result<
    FieldSet,
    EngineError,
>)
    ensures
        r is Ok ==> storable_fields(c.deep_view()) && r->Ok_0.opened(key@) == fields_of(
            c.deep_view(),
        ),
        r is Ok ==> crypto::carries_nonces(blobs_in(r->Ok_0.protected@), old(nonces).drawn@),
        r is Ok ==> r->Ok_0.protected@.len() == content_seals(c.deep_view()),
        r is Ok ==> final(nonces).drawn@ == crypto::left_of(
            old(nonces).drawn@,
            content_seals(c.deep_view()),
        ),
        r is Err ==> seal_refused(r->Err_0, c.deep_view(), old(nonces).drawn@.len()) || (
        is_constraint(r->Err_0) && !storable_fields(c.deep_view())),
        crypto::spent(old(nonces).drawn@, final(nonces).drawn@),
{
    broadcast use {crypto::spent_in_two, crypto::left_is_spent};

    let ghost cv = c.deep_view();
    let ghost cfs = cv.custom_fields;
    let pw = seal_text(key, nonces, c.password.as_str())?;
    let mut protected: Vec<ProtectedRow> = Vec::new();
    protected.push(ProtectedRow { field_name: PASSWORD_FIELD.to_owned(), wrapped_blob: pw });
    let mut plain: Vec<PlainFieldRow> = Vec::new();
    let ghost first = sealed_row(PASSWORD_FIELD@, cv.password);
    let mut i: usize = 0;
    proof {
        if old(nonces).drawn@.len() > 0 {
            assert(pw@.take(12) =~= old(nonces).drawn@.last()@);
        }
        assert(cfs.take(0) =~= Seq::empty());
        assert(opened_rows(protected@, key@) =~= seq![first] + sealed_rows_of(cfs.take(0)));
        assert(plain.deep_view() =~= plain_rows_of(cfs.take(0)));
    }
    while i < c.custom_fields.len()
        invariant
            i <= c.custom_fields.len(),
            cv == c.deep_view(),
            cfs == cv.custom_fields,
            cfs.len() == c.custom_fields.len(),
            first == (sealed_row(PASSWORD_FIELD@, cv.password)),
            opened_rows(protected@, key@) == seq![first] + sealed_rows_of(cfs.take(i as int)),
            plain.deep_view() == plain_rows_of(cfs.take(i as int)),
            distinct_sealed(seq![first] + sealed_rows_of(cfs.take(i as int))),
            distinct_plain(plain_rows_of(cfs.take(i as int))),
            protected@.len() <= 1 + i,
            nonces.drawn@ == crypto::left_of(old(nonces).drawn@, protected@.len()),
            crypto::carries_nonces(blobs_in(protected@), old(nonces).drawn@),
        decreases c.custom_fields.len() - i,
    {
        broadcast use {crypto::spent_in_two, crypto::left_is_spent};

        let cf = &c.custom_fields[i];
        let ghost cfv = cf.deep_view();
        let ghost sealed_before = seq![first] + sealed_rows_of(cfs.take(i as int));
        let ghost plain_before = plain_rows_of(cfs.take(i as int));
        let ghost sealed_after = seq![first] + sealed_rows_of(cfs.take(i + 1));
        let ghost plain_after = plain_rows_of(cfs.take(i + 1));
        proof {
            assert(cfs[i as int] == cfv);
            assert(cfs.take(i + 1).drop_last() =~= cfs.take(i as int));
            assert(cfs.take(i + 1).last() == cfv);
            sealed_rows_grow(cfs, i + 1);
        }
        if cf.protected {
            if !text::same_text(cf.key.as_str(), PASSWORD_FIELD) {
                let ghost row = sealed_row(cfv.key, cfv.value);
                proof {
                    assert(sealed_after =~= sealed_before.push(row));
                    assert(plain_after == plain_before);
                }
                let blob = seal_text(key, nonces, cf.value.as_str())?;
                if has_sealed_name(&protected, cf.key.as_str()) {
                    proof {
                        let k = choose|k: int|
                            0 <= k < protected@.len() && (#[trigger] protected@[k]).field_name@
                                == cfv.key;
                        let all = fields_of(cv).protected;
                        assert(opened_rows(protected@, key@)[k].field_name == cfv.key);
                        assert(sealed_after[k].field_name == cfv.key);
                        assert(sealed_after.is_prefix_of(all));
                        let n = sealed_after.len() - 1;
                        assert(all[k].field_name == cfv.key);
                        assert(sealed_after[n] == row);
                        assert(all[n] == sealed_after[n]);
                        assert(0 <= k < n < all.len() && all[k].field_name == all[n].field_name);
                    }
                    return Err(constraint_error());
                }
                let ghost held = protected@;
                protected.push(ProtectedRow { field_name: cf.key.clone(), wrapped_blob: blob });
                proof {
                    let rest = crypto::left_of(old(nonces).drawn@, held.len());
                    if rest.len() > 0 {
                        assert(blob@.take(12) =~= rest.last()@);
                    }
                    crypto::left_in_two(old(nonces).drawn@, held.len(), 1);
                    crypto::nonces_in_two(blobs_in(held), seq![blob@], old(nonces).drawn@);
                    assert(blobs_in(protected@) =~= blobs_in(held) + seq![blob@]);
                    assert(opened_rows(protected@, key@) =~= sealed_after);
                    assert forall|a: int, b: int|
                        0 <= a < b < sealed_after.len() implies #[trigger] sealed_after[a].field_name
                            != #[trigger] sealed_after[b].field_name by {
                        if b == sealed_before.len() {
                            assert(protected@[a].field_name@ != cfv.key);
                            assert(opened_rows(protected@, key@)[a].field_name
                                == protected@[a].field_name@);
                        } else {
                            assert(sealed_before[a].field_name != sealed_before[b].field_name);
                        }
                    }
                }
            } else {
                proof {
                    assert(sealed_after == sealed_before);
                    assert(plain_after == plain_before);
                }
            }
        } else {
            let ghost row = PlainFieldView { field_name: cfv.key, value: cfv.value };
            proof {
                assert(sealed_after == sealed_before);
                assert(plain_after =~= plain_before.push(row));
            }
            if has_plain_name(&plain, cf.key.as_str()) {
                proof {
                    let k = choose|k: int|
                        0 <= k < plain@.len() && (#[trigger] plain@[k]).field_name@ == cfv.key;
                    let all = fields_of(cv).plain;
                    assert(plain.deep_view()[k].field_name == cfv.key);
                    assert(plain_after[k].field_name == cfv.key);
                    assert(plain_after.is_prefix_of(all));
                    let n = plain_after.len() - 1;
                    assert(all[k].field_name == cfv.key);
                    assert(plain_after[n] == row);
                    assert(all[n] == plain_after[n]);
                    assert(0 <= k < n < all.len() && all[k].field_name == all[n].field_name);
                }
                return Err(constraint_error());
            }
            plain.push(PlainFieldRow { field_name: cf.key.clone(), value: cf.value.clone() });
            proof {
                assert(plain.deep_view() =~= plain_after);
                assert forall|a: int, b: int|
                    0 <= a < b < plain_after.len() implies #[trigger] plain_after[a].field_name
                        != #[trigger] plain_after[b].field_name by {
                    if b == plain_before.len() {
                        assert(plain@[a].field_name@ != cfv.key);
                        assert(plain.deep_view()[a].field_name == plain@[a].field_name@);
                    } else {
                        assert(plain_before[a].field_name != plain_before[b].field_name);
                    }
                }
            }
        }
        i = i + 1;
    }
    proof {
        assert(cfs.take(cfs.len() as int) =~= cfs);
    }
    Ok(FieldSet { protected, plain })
}

// ------------------------------------------------------------------ custom data

/// A row of `entry_custom_data` or `meta_custom_data`.
#[derive(Debug)]
pub struct CustomDataRow {
    /// Key.
    pub key: String,
    /// Value.
    pub value: String,
    /// Last change in milliseconds, where recorded.
    pub last_modified_at: Option<i64>,
}

/// What a [`CustomDataRow`] holds.
#[verifier::ext_equal]
pub struct CustomDataRowView {
    pub key: Seq<char>,
    pub value: Seq<char>,
    pub last_modified_at: Option<i64>,
}

impl DeepView for CustomDataRow {
    type V = CustomDataRowView;

    open spec fn deep_view(&self) -> CustomDataRowView {
        CustomDataRowView {
            key: self.key@,
            value: self.value@,
            last_modified_at: self.last_modified_at,
        }
    }
}

/// The row of one item.
pub open spec fn custom_data_row(item: CustomDataView) -> CustomDataRowView {
    CustomDataRowView {
        key: item.key,
        value: item.value,
        last_modified_at: time::optional_millis(item.last_modified),
    }
}

/// The rows of a list of items.
pub open spec fn custom_data_rows(items: Seq<CustomDataView>) -> Seq<CustomDataRowView> {
    Seq::new(items.len(), |i: int| custom_data_row(items[i]))
}

/// Whether no two items share a key.
pub open spec fn distinct_keys(items: Seq<CustomDataView>) -> bool {
    forall|i: int, j: int|
        0 <= i < j < items.len() ==> #[trigger] items[i].key != #[trigger] items[j].key
}

/// Copies one item into its row.
pub fn to_custom_data_row(item: &CustomDataItem) -> (r: CustomDataRow)
    ensures
        r.deep_view() == custom_data_row(item.deep_view()),
{
    CustomDataRow {
        key: item.key.clone(),
        value: item.value.clone(),
        last_modified_at: time::optional_dt_to_ms(item.last_modified),
    }
}

/// Builds the rows of a list of items. A key that occurs twice breaks the
/// table's uniqueness constraint.
pub fn build_custom_data(items: &Vec<CustomDataItem>) -> (r: Result<
    Vec<CustomDataRow>,
    EngineError,
>)
    ensures
        r is Ok <==> distinct_keys(items.deep_view()),
        r is Ok ==> r->Ok_0.deep_view() == custom_data_rows(items.deep_view()),
        r is Err ==> is_constraint(r->Err_0),
{
    let ghost iv = items.deep_view();
    let mut out: Vec<CustomDataRow> = Vec::new();
    let mut i: usize = 0;
    while i < items.len()
        invariant
            i <= items.len(),
            iv == items.deep_view(),
            out.deep_view() == custom_data_rows(iv).take(i as int),
            distinct_keys(iv.take(i as int)),
        decreases items.len() - i,
    {
        let mut j: usize = 0;
        while j < i
            invariant
                j <= i < items.len(),
                iv == items.deep_view(),
                forall|k: int| 0 <= k < j ==> (#[trigger] iv[k]).key != iv[i as int].key,
            decreases i - j,
        {
            if text::same_text(items[j].key.as_str(), items[i].key.as_str()) {
                proof {
                    assert(iv[j as int].key == iv[i as int].key);
                }
                return Err(constraint_error());
            }
            j = j + 1;
        }
        let ghost before = out.deep_view();
        out.push(to_custom_data_row(&items[i]));
        proof {
            assert(iv[i as int] == items@[i as int].deep_view());
            assert(out.deep_view() =~= before.push(custom_data_row(iv[i as int])));
            assert(out.deep_view() =~= custom_data_rows(iv).take(i + 1));
            assert forall|a: int, b: int| 0 <= a < b < i + 1 implies #[trigger] iv.take(i + 1)[a].key
                != #[trigger] iv.take(i + 1)[b].key by {
                if b < i {
                    assert(iv.take(i as int)[a].key != iv.take(i as int)[b].key);
                } else {
                    assert(iv[a].key != iv[i as int].key);
                }
            }
        }
        i = i + 1;
    }
    proof {
        assert(custom_data_rows(iv).take(iv.len() as int) =~= custom_data_rows(iv));
        assert(iv.take(iv.len() as int) =~= iv);
    }
    Ok(out)
}

// ------------------------------------------------------------------------- tags

/// The tag names of an entry: trimmed, empty ones left out, each once, in
/// order of first occurrence.
pub open spec fn tag_names_of(tags: Seq<Seq<char>>) -> Seq<Seq<char>>
    decreases tags.len(),
{
    if tags.len() == 0 {
        Seq::empty()
    } else {
        let before = tag_names_of(tags.drop_last());
        let name = text::trimmed(tags.last());
        if name.len() == 0 || before.contains(name) {
            before
        } else {
            before.push(name)
        }
    }
}

/// Whether a list of texts holds `name`.
pub fn holds_text(list: &Vec<String>, name: &str) -> (r: bool)
    ensures
        r == list.deep_view().contains(name@),
{
    let mut i: usize = 0;
    while i < list.len()
        invariant
            i <= list.len(),
            forall|k: int| 0 <= k < i ==> (#[trigger] list@[k])@ != name@,
        decreases list.len() - i,
    {
        if text::same_text(list[i].as_str(), name) {
            proof {
                assert(list.deep_view()[i as int] == name@);
            }
            return true;
        }
        i = i + 1;
    }
    proof {
        if list.deep_view().contains(name@) {
            let k = choose|k: int| 0 <= k < list@.len() && list.deep_view()[k] == name@;
            assert(list@[k]@ == name@);
        }
    }
    false
}

/// The tag names of an entry.
pub fn tag_names(tags: &Vec<String>) -> (r: Vec<String>)
    ensures
        r.deep_view() == tag_names_of(tags.deep_view()),
{
    let ghost tv = tags.deep_view();
    let mut out: Vec<String> = Vec::new();
    let mut i: usize = 0;
    proof {
        assert(tv.take(0) =~= Seq::empty());
        assert(out.deep_view() =~= tag_names_of(tv.take(0)));
    }
    while i < tags.len()
        invariant
            i <= tags.len(),
            tv == tags.deep_view(),
            out.deep_view() == tag_names_of(tv.take(i as int)),
        decreases tags.len() - i,
    {
        proof {
            assert(tv.take(i + 1).drop_last() =~= tv.take(i as int));
            assert(tv.take(i + 1).last() == tags@[i as int]@);
        }
        let name = text::trim(tags[i].as_str());
        let ghost before = out.deep_view();
        if !name.as_str().is_empty() && !holds_text(&out, name.as_str()) {
            out.push(name);
            proof {
                assert(out.deep_view() =~= before.push(name@));
            }
        }
        i = i + 1;
    }
    proof {
        assert(tv.take(tv.len() as int) =~= tv);
    }
    out
}

// ------------------------------------------------------------------ attachments

/// A link row of `entry_attachment`.
#[derive(Debug)]
pub struct AttachmentRow {
    /// File name.
    pub attachment_name: String,
    /// SHA-256 of the content.
    pub blob_sha256: Vec<u8>,
}

/// What an [`AttachmentRow`] holds.
#[verifier::ext_equal]
pub struct AttachmentRowView {
    pub attachment_name: Seq<char>,
    pub blob_sha256: Seq<u8>,
}

impl DeepView for AttachmentRow {
    type V = AttachmentRowView;

    open spec fn deep_view(&self) -> AttachmentRowView {
        AttachmentRowView {
            attachment_name: self.attachment_name@,
            blob_sha256: self.blob_sha256@,
        }
    }
}

/// A row of `attachment_blob`, the pool of file contents by their digest.
#[derive(Debug)]
pub struct BlobRow {
    /// SHA-256 of the content.
    pub sha256: Vec<u8>,
    /// Content.
    pub bytes: Vec<u8>,
    /// Length of the content.
    pub size: i64,
}

/// What a [`BlobRow`] holds.
#[verifier::ext_equal]
pub struct BlobView {
    pub sha256: Seq<u8>,
    pub bytes: Seq<u8>,
    pub size: i64,
}

impl DeepView for BlobRow {
    type V = BlobView;

    open spec fn deep_view(&self) -> BlobView {
        BlobView { sha256: self.sha256@, bytes: self.bytes@, size: self.size }
    }
}

/// A length as its column holds it.
pub open spec fn stored_len(n: nat) -> i64 {
    if n <= i64::MAX {
        n as i64
    } else {
        i64::MAX
    }
}

/// The pool row of a content.
pub open spec fn blob_of(bytes: Seq<u8>) -> BlobView {
    BlobView { sha256: codec::sha256(bytes), bytes, size: stored_len(bytes.len()) }
}

/// Whether rows have a file of that name.
pub open spec fn has_attachment(rows: Seq<AttachmentRowView>, name: Seq<char>) -> bool {
    exists|i: int| 0 <= i < rows.len() && (#[trigger] rows[i]).attachment_name == name
}

/// The link rows of an entry's files. A reference beyond the binaries is
/// skipped, and of two files with one name the first is kept.
pub open spec fn attachment_rows_of(atts: Seq<AttachmentView>, binaries: Seq<Seq<u8>>) -> Seq<
    AttachmentRowView,
>
    decreases atts.len(),
{
    if atts.len() == 0 {
        Seq::empty()
    } else {
        let before = attachment_rows_of(atts.drop_last(), binaries);
        let a = atts.last();
        if a.ref_id as int >= binaries.len() || has_attachment(before, a.name) {
            before
        } else {
            before.push(
                AttachmentRowView {
                    attachment_name: a.name,
                    blob_sha256: codec::sha256(binaries[a.ref_id as int]),
                },
            )
        }
    }
}

/// The contents an entry's files bring to the pool, in order.
pub open spec fn blobs_of(atts: Seq<AttachmentView>, binaries: Seq<Seq<u8>>) -> Seq<BlobView>
    decreases atts.len(),
{
    if atts.len() == 0 {
        Seq::empty()
    } else {
        let before = blobs_of(atts.drop_last(), binaries);
        let a = atts.last();
        if a.ref_id as int >= binaries.len() {
            before
        } else {
            before.push(blob_of(binaries[a.ref_id as int]))
        }
    }
}

/// Copies a byte string.
pub fn copy_bytes(bytes: &[u8]) -> (r: Vec<u8>)
    ensures
        r@ == bytes@,
{
    vstd::slice::slice_to_vec(bytes)
}

/// The SHA-256 digest of a byte string.
pub fn sha256_vec(bytes: &[u8]) -> (r: Vec<u8>)
    ensures
        r@ == codec::sha256(bytes@),
{
    let d = codec::sha256_digest(bytes);
    let mut out: Vec<u8> = Vec::new();
    let mut i: usize = 0;
    while i < 32
        invariant
            i <= 32,
            out@ == d@.take(i as int),
        decreases 32 - i,
    {
        proof {
            assert(d@.take(i + 1) =~= d@.take(i as int).push(d@[i as int]));
        }
        out.push(d[i]);
        i = i + 1;
    }
    assert(d@.take(32) =~= d@);
    out
}

fn stored_length(n: usize) -> (r: i64)
    ensures
        r == stored_len(n as nat),
{
    if n as u64 <= 0x7fff_ffff_ffff_ffff {
        n as i64
    } else {
        i64::MAX
    }
}

/// Builds the pool row of a content.
pub fn to_blob(bytes: &[u8]) -> (r: BlobRow)
    ensures
        r.deep_view() == blob_of(bytes@),
{
    BlobRow {
        sha256: sha256_vec(bytes),
        bytes: copy_bytes(bytes),
        size: stored_length(bytes.len()),
    }
}

fn has_file(rows: &Vec<AttachmentRow>, name: &str) -> (r: bool)
    ensures
        r == has_attachment(rows.deep_view(), name@),
{
    let ghost rv = rows.deep_view();
    let mut i: usize = 0;
    while i < rows.len()
        invariant
            i <= rows.len(),
            rv == rows.deep_view(),
            forall|k: int| 0 <= k < i ==> (#[trigger] rv[k]).attachment_name != name@,
        decreases rows.len() - i,
    {
        if text::same_text(rows[i].attachment_name.as_str(), name) {
            proof {
                assert(rv[i as int].attachment_name == name@);
            }
            return true;
        }
        i = i + 1;
    }
    false
}

/// Resolves an entry's files against the vault's binaries: the link rows, and
/// the contents for the pool.
pub fn build_attachments(atts: &Vec<Attachment>, binaries: &Vec<Vec<u8>>) -> (r: (
    Vec<AttachmentRow>,
    Vec<BlobRow>,
))
    ensures
        r.0.deep_view() == attachment_rows_of(atts.deep_view(), binaries.deep_view()),
        r.1.deep_view() == blobs_of(atts.deep_view(), binaries.deep_view()),
{
    let ghost av = atts.deep_view();
    let ghost bv = binaries.deep_view();
    let mut rows: Vec<AttachmentRow> = Vec::new();
    let mut blobs: Vec<BlobRow> = Vec::new();
    let mut i: usize = 0;
    proof {
        assert(av.take(0) =~= Seq::empty());
        assert(rows.deep_view() =~= attachment_rows_of(av.take(0), bv));
        assert(blobs.deep_view() =~= blobs_of(av.take(0), bv));
    }
    while i < atts.len()
        invariant
            i <= atts.len(),
            av == atts.deep_view(),
            bv == binaries.deep_view(),
            rows.deep_view() == attachment_rows_of(av.take(i as int), bv),
            blobs.deep_view() == blobs_of(av.take(i as int), bv),
        decreases atts.len() - i,
    {
        proof {
            assert(av.take(i + 1).drop_last() =~= av.take(i as int));
            assert(av.take(i + 1).last() == atts@[i as int].deep_view());
        }
        let a = &atts[i];
        let at: usize = a.ref_id as usize;
        if at < binaries.len() {
            let bytes = &binaries[at];
            let ghost rows_before = rows.deep_view();
            let ghost blobs_before = blobs.deep_view();
            proof {
                assert(bv[at as int] == bytes@) by {
                    assert(bytes.deep_view() =~= bytes@);
                }
            }
            if !has_file(&rows, a.name.as_str()) {
                rows.push(
                    AttachmentRow {
                        attachment_name: a.name.clone(),
                        blob_sha256: sha256_vec(bytes.as_slice()),
                    },
                );
                proof {
                    assert(rows.deep_view() =~= rows_before.push(
                        AttachmentRowView {
                            attachment_name: a.name@,
                            blob_sha256: codec::sha256(bytes@),
                        },
                    ));
                }
            }
            blobs.push(to_blob(bytes.as_slice()));
            proof {
                assert(blobs.deep_view() =~= blobs_before.push(blob_of(bytes@)));
            }
        }
        i = i + 1;
    }
    proof {
        assert(av.take(av.len() as int) =~= av);
    }
    (rows, blobs)
}

// ------------------------------------------------------------------------ times

/// The `expires_at` column: the expiry time where it is in force.
pub open spec fn expiry_of(times: Timestamps) -> Option<i64> {
    if times.expires {
        time::optional_millis(times.expiry_time)
    } else {
        None
    }
}

/// The `expires_at` column: the expiry time where it is in force.
pub fn expiry_ms(times: &Timestamps) -> (r: Option<i64>)
    ensures
        r == expiry_of(*times),
{
    if times.expires {
        time::optional_dt_to_ms(times.expiry_time)
    } else {
        None
    }
}

} // verus!
