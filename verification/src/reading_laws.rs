//! What was written into the tables is what is read from them.
//!
//! Each law takes tables that hold a vault under a session key, as writing it
//! leaves them, and says what a read with the same key gives.

use vstd::prelude::*;
use vstd::utf8::*;

use crate::codec;
use crate::history_snapshot;
use crate::ingest;
use crate::mirror;
use crate::mirror::{Mirror, MirrorView};
use crate::order;
use crate::order::TextKeyed;
use crate::reading;
use crate::rows;
use crate::rows::{AttachmentRowView, BlobView, OpenedField, PlainFieldView, PASSWORD_FIELD};
use crate::text;
use crate::vault::{AttachmentView, ContentView, CustomFieldView, Placed, Vault};

verus! {

/// Whether tables hold a vault as writing it under a session key leaves them.
pub open spec fn holds(
    m: Mirror,
    before: MirrorView,
    v: &Vault,
    key: Seq<u8>,
    fingerprint_key: Seq<u8>,
) -> bool {
    ingest::storable_vault(v) && m.opened(key) == ingest::ingested(before, v, fingerprint_key)
}

/// The content of the `i`-th entry of a vault.
pub open spec fn content_at(v: &Vault, i: int) -> ContentView {
    ingest::vault_entries(v)[i].entry.deep_view().content
}

/// The `h`-th history record of the `i`-th entry of a vault.
pub open spec fn past_content_at(v: &Vault, i: int, h: int) -> ContentView {
    ingest::vault_entries(v)[i].entry.deep_view().history[h]
}

proof fn record_at(
    m: Mirror,
    before: MirrorView,
    v: &Vault,
    key: Seq<u8>,
    fingerprint_key: Seq<u8>,
    i: int,
)
    requires
        holds(m, before, v, key, fingerprint_key),
        0 <= i < ingest::vault_entries(v).len(),
    ensures
        ({
            let p = ingest::vault_entries(v)[i];
            &&& m.entries@.contains_key(p.entry.id)
            &&& m.entries@[p.entry.id].opened(key) == mirror::record_of(
                p.entry.deep_view(),
                p.group,
                p.recycled,
                fingerprint_key,
                v.binaries.deep_view(),
            )
            &&& mirror::storable(p.entry.deep_view())
        }),
{
    let p = ingest::vault_entries(v)[i];
    ingest::mirror_holds_the_entries(before, v, fingerprint_key, p.entry.id);
    assert(m.opened(key).entries.contains_key(p.entry.id));
    assert(m.opened(key).entries == mirror::opened_entries(m.entries@, key));
}

// ---------------------------------------------------------------- sealed fields

/// A protected field has its sealed row.
pub proof fn sealed_row_of(cfs: Seq<CustomFieldView>, k: int) -> (j: int)
    requires
        0 <= k < cfs.len(),
        rows::gets_sealed_row(cfs[k]),
    ensures
        0 <= j < rows::sealed_rows_of(cfs).len(),
        rows::sealed_rows_of(cfs)[j] == (rows::sealed_row(cfs[k].key, cfs[k].value)),
    decreases cfs.len(),
{
    if k == cfs.len() - 1 {
        rows::sealed_rows_of(cfs).len() - 1
    } else {
        let j = sealed_row_of(cfs.drop_last(), k);
        assert(rows::sealed_rows_of(cfs)[j] == rows::sealed_rows_of(cfs.drop_last())[j]);
        j
    }
}

proof fn sealed_value_reads(
    m: Mirror,
    before: MirrorView,
    v: &Vault,
    key: Seq<u8>,
    fingerprint_key: Seq<u8>,
    i: int,
    j: int,
    value: Seq<char>,
)
    requires
        holds(m, before, v, key, fingerprint_key),
        0 <= i < ingest::vault_entries(v).len(),
        0 <= j < rows::fields_of(content_at(v, i)).protected.len(),
        rows::fields_of(content_at(v, i)).protected[j].plaintext == Some(encode_utf8(value)),
    ensures
        ({
            let blob = reading::sealed_in(
                m.entries@,
                ingest::vault_entries(v)[i].entry.id,
                rows::fields_of(content_at(v, i)).protected[j].field_name,
            );
            blob is Some && reading::read_as(key, blob->0) == Ok::<Seq<char>, Seq<char>>(value)
        }),
{
    record_at(m, before, v, key, fingerprint_key, i);
    let all = rows::fields_of(content_at(v, i)).protected;
    let held = m.entries@[ingest::vault_entries(v)[i].entry.id].fields.protected@;
    assert(rows::opened_rows(held, key) == all);
    assert forall|n: int| 0 <= n < held.len() implies (#[trigger] held[n]).text_key()
        == all[n].field_name by {
        assert(rows::opened_rows(held, key)[n].field_name == held[n].field_name@);
    }
    assert forall|n: int| 0 <= n < j implies (#[trigger] held[n]).text_key() != all[j].field_name by {
        assert(all[n].field_name != all[j].field_name);
    }
    order::first_is_named(held, all[j].field_name, j);
    assert(rows::opened_rows(held, key)[j].plaintext == Some(encode_utf8(value)));
    codec::utf8_reads_back(value);
}

/// An entry's password reads back.
pub proof fn a_password_reads_back(
    m: Mirror,
    before: MirrorView,
    v: &Vault,
    key: Seq<u8>,
    fingerprint_key: Seq<u8>,
    i: int,
)
    requires
        holds(m, before, v, key, fingerprint_key),
        0 <= i < ingest::vault_entries(v).len(),
    ensures
        ({
            let blob = reading::sealed_in(
                m.entries@,
                ingest::vault_entries(v)[i].entry.id,
                PASSWORD_FIELD@,
            );
            blob is Some && reading::read_as(key, blob->0) == Ok::<Seq<char>, Seq<char>>(
                content_at(v, i).password,
            )
        }),
{
    sealed_value_reads(
        m,
        before,
        v,
        key,
        fingerprint_key,
        i,
        0,
        content_at(v, i).password,
    );
}

/// A protected custom field reads back. One that shares its name with the
/// password slot is not stored.
pub proof fn a_sealed_field_reads_back(
    m: Mirror,
    before: MirrorView,
    v: &Vault,
    key: Seq<u8>,
    fingerprint_key: Seq<u8>,
    i: int,
    k: int,
)
    requires
        holds(m, before, v, key, fingerprint_key),
        0 <= i < ingest::vault_entries(v).len(),
        0 <= k < content_at(v, i).custom_fields.len(),
        content_at(v, i).custom_fields[k].protected,
        content_at(v, i).custom_fields[k].key != PASSWORD_FIELD@,
    ensures
        ({
            let field = content_at(v, i).custom_fields[k];
            let blob = reading::sealed_in(
                m.entries@,
                ingest::vault_entries(v)[i].entry.id,
                field.key,
            );
            blob is Some && reading::read_as(key, blob->0) == Ok::<Seq<char>, Seq<char>>(
                field.value,
            )
        }),
{
    let cfs = content_at(v, i).custom_fields;
    let j = sealed_row_of(cfs, k);
    let all = rows::fields_of(content_at(v, i)).protected;
    assert(all[j + 1] == rows::sealed_rows_of(cfs)[j]);
    sealed_value_reads(m, before, v, key, fingerprint_key, i, j + 1, cfs[k].value);
}

// ----------------------------------------------------------------- plain fields

/// A plain field has its row.
pub proof fn plain_row_of(cfs: Seq<CustomFieldView>, k: int) -> (j: int)
    requires
        0 <= k < cfs.len(),
        !cfs[k].protected,
    ensures
        0 <= j < rows::plain_rows_of(cfs).len(),
        rows::plain_rows_of(cfs)[j] == (PlainFieldView {
            field_name: cfs[k].key,
            value: cfs[k].value,
        }),
    decreases cfs.len(),
{
    if k == cfs.len() - 1 {
        rows::plain_rows_of(cfs).len() - 1
    } else {
        let j = plain_row_of(cfs.drop_last(), k);
        assert(rows::plain_rows_of(cfs)[j] == rows::plain_rows_of(cfs.drop_last())[j]);
        j
    }
}

/// A plain custom field reads back.
pub proof fn a_plain_field_reads_back(
    m: Mirror,
    before: MirrorView,
    v: &Vault,
    key: Seq<u8>,
    fingerprint_key: Seq<u8>,
    i: int,
    k: int,
)
    requires
        holds(m, before, v, key, fingerprint_key),
        0 <= i < ingest::vault_entries(v).len(),
        0 <= k < content_at(v, i).custom_fields.len(),
        !content_at(v, i).custom_fields[k].protected,
    ensures
        reading::plain_in(
            m.entries@,
            ingest::vault_entries(v)[i].entry.id,
            content_at(v, i).custom_fields[k].key,
        ) == Some(content_at(v, i).custom_fields[k].value),
{
    record_at(m, before, v, key, fingerprint_key, i);
    let cfs = content_at(v, i).custom_fields;
    let all = rows::fields_of(content_at(v, i)).plain;
    let held = m.entries@[ingest::vault_entries(v)[i].entry.id].fields.plain;
    let j = plain_row_of(cfs, k);
    assert(held.deep_view() == all);
    assert forall|n: int| 0 <= n < held@.len() implies (#[trigger] held@[n]).text_key()
        == all[n].field_name by {
        assert(held.deep_view()[n] == held@[n].deep_view());
    }
    assert forall|n: int| 0 <= n < j implies (#[trigger] held@[n]).text_key() != all[j].field_name by {
        assert(all[n].field_name != all[j].field_name);
    }
    order::first_is_named(held@, all[j].field_name, j);
    assert(held.deep_view()[j] == held@[j].deep_view());
}

// ---------------------------------------------------------------------- history

proof fn past_record_at(
    m: Mirror,
    before: MirrorView,
    v: &Vault,
    key: Seq<u8>,
    fingerprint_key: Seq<u8>,
    i: int,
    h: u32,
)
    requires
        holds(m, before, v, key, fingerprint_key),
        0 <= i < ingest::vault_entries(v).len(),
        h < ingest::vault_entries(v)[i].entry.deep_view().history.len(),
    ensures
        ({
            let past = reading::past_record(m.entries@, ingest::vault_entries(v)[i].entry.id, h);
            past is Some && past->0.opened(key) == history_snapshot::snapshot_of(
                past_content_at(v, i, h as int),
                v.binaries.deep_view(),
            )
        }),
{
    record_at(m, before, v, key, fingerprint_key, i);
    let record = m.entries@[ingest::vault_entries(v)[i].entry.id];
    let history = ingest::vault_entries(v)[i].entry.deep_view().history;
    assert(mirror::opened_history(record.history@, key) == mirror::history_of(
        history,
        v.binaries.deep_view(),
    ));
    let past = mirror::history_of(history, v.binaries.deep_view());
    assert(past.len() == history.len());
    assert(mirror::opened_history(record.history@, key).len() == record.history@.len());
    assert(mirror::opened_history(record.history@, key)[h as int]
        == record.history@[h as int].opened(key));
    assert(past[h as int] == history_snapshot::snapshot_of(
        history[h as int],
        v.binaries.deep_view(),
    ));
}

/// Whether a stored value of a history record reads as a text.
pub open spec fn past_value_reads(
    stored: Option<(Seq<char>, bool)>,
    key: Seq<u8>,
    value: Seq<char>,
) -> bool {
    match stored {
        None => false,
        Some((t, false)) => t == value,
        Some((t, true)) => {
            &&& codec::base64_decoded(t) is Ok
            &&& reading::read_as(key, codec::base64_decoded(t)->Ok_0) == Ok::<Seq<char>, Seq<char>>(
                value,
            )
        },
    }
}

/// The password of a history record reads back.
pub proof fn a_past_password_reads_back(
    m: Mirror,
    before: MirrorView,
    v: &Vault,
    key: Seq<u8>,
    fingerprint_key: Seq<u8>,
    i: int,
    h: u32,
)
    requires
        holds(m, before, v, key, fingerprint_key),
        0 <= i < ingest::vault_entries(v).len(),
        h < ingest::vault_entries(v)[i].entry.deep_view().history.len(),
    ensures
        ({
            let past = reading::past_record(m.entries@, ingest::vault_entries(v)[i].entry.id, h);
            past is Some && past_value_reads(
                reading::past_value(past->0, PASSWORD_FIELD@),
                key,
                past_content_at(v, i, h as int).password,
            )
        }),
{
    past_record_at(m, before, v, key, fingerprint_key, i, h);
    codec::utf8_reads_back(past_content_at(v, i, h as int).password);
}

/// A history record has the last custom field of each name.
pub proof fn past_fields_have(cfs: Seq<CustomFieldView>, n: nat, k: int) -> (j: int)
    requires
        0 <= k < n <= cfs.len(),
        history_snapshot::is_last_of_name(cfs, k),
    ensures
        0 <= j < history_snapshot::history_fields_upto(cfs, n).len(),
        history_snapshot::history_fields_upto(cfs, n)[j] == history_snapshot::history_field_of(
            cfs[k],
        ),
    decreases n,
{
    if k == n - 1 {
        history_snapshot::history_fields_upto(cfs, n).len() - 1
    } else {
        let less = history_snapshot::history_fields_upto(cfs, (n - 1) as nat);
        let j = past_fields_have(cfs, (n - 1) as nat, k);
        assert(history_snapshot::history_fields_upto(cfs, n)[j] == less[j]);
        j
    }
}

/// A field of a history record is the last of its name.
pub proof fn past_field_from(cfs: Seq<CustomFieldView>, n: nat, j: int) -> (k: int)
    requires
        n <= cfs.len(),
        0 <= j < history_snapshot::history_fields_upto(cfs, n).len(),
    ensures
        0 <= k < n,
        history_snapshot::is_last_of_name(cfs, k),
        history_snapshot::history_fields_upto(cfs, n)[j] == history_snapshot::history_field_of(
            cfs[k],
        ),
    decreases n,
{
    let all = history_snapshot::history_fields_upto(cfs, n);
    let less = history_snapshot::history_fields_upto(cfs, (n - 1) as nat);
    if history_snapshot::is_last_of_name(cfs, n - 1) && j == all.len() - 1 {
        n - 1
    } else {
        assert(all[j] == less[j]);
        past_field_from(cfs, (n - 1) as nat, j)
    }
}

/// No two fields of a history record share a name.
pub proof fn past_names_differ(cfs: Seq<CustomFieldView>, n: nat, a: int, b: int)
    requires
        n <= cfs.len(),
        0 <= a < b < history_snapshot::history_fields_upto(cfs, n).len(),
    ensures
        history_snapshot::history_fields_upto(cfs, n)[a].key
            != history_snapshot::history_fields_upto(cfs, n)[b].key,
    decreases n,
{
    let all = history_snapshot::history_fields_upto(cfs, n);
    let less = history_snapshot::history_fields_upto(cfs, (n - 1) as nat);
    if history_snapshot::is_last_of_name(cfs, n - 1) && b == all.len() - 1 {
        let k = past_field_from(cfs, (n - 1) as nat, a);
        assert(all[a] == less[a]);
        assert(cfs[n - 1].key != cfs[k].key);
    } else {
        assert(all[a] == less[a]);
        assert(all[b] == less[b]);
        past_names_differ(cfs, (n - 1) as nat, a, b);
    }
}

/// A custom field of a history record reads back. Of several with one name the
/// last is kept.
pub proof fn a_past_field_reads_back(
    m: Mirror,
    before: MirrorView,
    v: &Vault,
    key: Seq<u8>,
    fingerprint_key: Seq<u8>,
    i: int,
    h: u32,
    k: int,
)
    requires
        holds(m, before, v, key, fingerprint_key),
        0 <= i < ingest::vault_entries(v).len(),
        h < ingest::vault_entries(v)[i].entry.deep_view().history.len(),
        0 <= k < past_content_at(v, i, h as int).custom_fields.len(),
        history_snapshot::is_last_of_name(past_content_at(v, i, h as int).custom_fields, k),
        past_content_at(v, i, h as int).custom_fields[k].key != PASSWORD_FIELD@,
    ensures
        ({
            let field = past_content_at(v, i, h as int).custom_fields[k];
            let past = reading::past_record(m.entries@, ingest::vault_entries(v)[i].entry.id, h);
            past is Some && past_value_reads(
                reading::past_value(past->0, field.key),
                key,
                field.value,
            )
        }),
{
    past_record_at(m, before, v, key, fingerprint_key, i, h);
    let cfs = past_content_at(v, i, h as int).custom_fields;
    let past = reading::past_record(m.entries@, ingest::vault_entries(v)[i].entry.id, h)->0;
    let all = history_snapshot::history_fields_upto(cfs, cfs.len());
    let held = past.custom_fields@;
    let j = past_fields_have(cfs, cfs.len(), k);
    assert(history_snapshot::opened_fields(held, key) == all);
    assert forall|n: int| 0 <= n < held.len() implies (#[trigger] held[n]).text_key() == all[n].key by {
        assert(history_snapshot::opened_fields(held, key)[n] == held[n].opened(key));
    }
    assert forall|n: int| 0 <= n < j implies (#[trigger] held[n]).text_key() != cfs[k].key by {
        past_names_differ(cfs, cfs.len(), n, j);
    }
    assert(held[j].text_key() == all[j].key);
    order::first_is_named(held, cfs[k].key, j);
    assert(history_snapshot::opened_fields(held, key)[j] == held[j].opened(key));
    codec::utf8_reads_back(cfs[k].value);
}

// ------------------------------------------------------------------------ files

/// Whether every content of a pool stands under its own digest.
pub open spec fn content_addressed(blobs: Seq<BlobView>) -> bool {
    forall|i: int|
        0 <= i < blobs.len() ==> (#[trigger] blobs[i]).sha256 == codec::sha256(blobs[i].bytes)
}

proof fn file_blobs(atts: Seq<AttachmentView>, binaries: Seq<Seq<u8>>, k: int)
    requires
        0 <= k < atts.len(),
        (atts[k].ref_id as int) < binaries.len(),
    ensures
        mirror::has_blob(
            rows::blobs_of(atts, binaries),
            codec::sha256(binaries[atts[k].ref_id as int]),
        ),
    decreases atts.len(),
{
    let all = rows::blobs_of(atts, binaries);
    let less = rows::blobs_of(atts.drop_last(), binaries);
    let digest = codec::sha256(binaries[atts[k].ref_id as int]);
    if k == atts.len() - 1 {
        assert(all[all.len() - 1].sha256 == digest);
    } else {
        file_blobs(atts.drop_last(), binaries, k);
        let j = choose|j: int| 0 <= j < less.len() && (#[trigger] less[j]).sha256 == digest;
        assert(all[j] == less[j]);
        assert(all[j].sha256 == digest);
    }
}

proof fn file_blobs_are_addressed(atts: Seq<AttachmentView>, binaries: Seq<Seq<u8>>)
    ensures
        content_addressed(rows::blobs_of(atts, binaries)),
    decreases atts.len(),
{
    if atts.len() > 0 {
        file_blobs_are_addressed(atts.drop_last(), binaries);
    }
}

proof fn pool_grows(blobs: Seq<BlobView>, more: Seq<BlobView>, digest: Seq<u8>)
    requires
        mirror::has_blob(blobs, digest) || mirror::has_blob(more, digest),
    ensures
        mirror::has_blob(mirror::with_blobs(blobs, more), digest),
    decreases more.len(),
{
    if more.len() > 0 {
        let less = mirror::with_blobs(blobs, more.drop_last());
        let all = mirror::with_blobs(blobs, more);
        if mirror::has_blob(blobs, digest) || mirror::has_blob(more.drop_last(), digest) {
            pool_grows(blobs, more.drop_last(), digest);
            let j = choose|j: int| 0 <= j < less.len() && (#[trigger] less[j]).sha256 == digest;
            assert(all[j] == less[j]);
            assert(all[j].sha256 == digest);
        } else {
            let j = choose|j: int| 0 <= j < more.len() && (#[trigger] more[j]).sha256 == digest;
            if j < more.len() - 1 {
                assert(more.drop_last()[j].sha256 == digest);
            }
            assert(more.last().sha256 == digest);
            if !mirror::has_blob(less, digest) {
                assert(all[all.len() - 1].sha256 == digest);
            }
        }
    }
}

proof fn pool_stays_addressed(blobs: Seq<BlobView>, more: Seq<BlobView>)
    requires
        content_addressed(blobs),
        content_addressed(more),
    ensures
        content_addressed(mirror::with_blobs(blobs, more)),
    decreases more.len(),
{
    if more.len() > 0 {
        assert forall|i: int| 0 <= i < more.drop_last().len() implies (
        #[trigger] more.drop_last()[i]).sha256 == codec::sha256(more.drop_last()[i].bytes) by {
            assert(more.drop_last()[i] == more[i]);
        }
        pool_stays_addressed(blobs, more.drop_last());
        assert(more.last() == more[more.len() - 1]);
    }
}

proof fn stored_pool(
    m: MirrorView,
    placed: Seq<Placed>,
    n: nat,
    fingerprint_key: Seq<u8>,
    binaries: Seq<Seq<u8>>,
)
    requires
        n <= placed.len(),
        content_addressed(m.blobs),
    ensures
        content_addressed(ingest::stored(m, placed, n, fingerprint_key, binaries).blobs),
    decreases n,
{
    if n > 0 {
        stored_pool(m, placed, (n - 1) as nat, fingerprint_key, binaries);
        let atts = placed[n - 1].entry.deep_view().content.attachments;
        file_blobs_are_addressed(atts, binaries);
        pool_stays_addressed(
            ingest::stored(m, placed, (n - 1) as nat, fingerprint_key, binaries).blobs,
            rows::blobs_of(atts, binaries),
        );
    }
}

proof fn stored_pool_has(
    m: MirrorView,
    placed: Seq<Placed>,
    n: nat,
    fingerprint_key: Seq<u8>,
    binaries: Seq<Seq<u8>>,
    i: int,
    digest: Seq<u8>,
)
    requires
        0 <= i < n <= placed.len(),
        mirror::has_blob(
            rows::blobs_of(placed[i].entry.deep_view().content.attachments, binaries),
            digest,
        ),
    ensures
        mirror::has_blob(
            ingest::stored(m, placed, n, fingerprint_key, binaries).blobs,
            digest,
        ),
    decreases n,
{
    let less = ingest::stored(m, placed, (n - 1) as nat, fingerprint_key, binaries).blobs;
    if i < n - 1 {
        stored_pool_has(m, placed, (n - 1) as nat, fingerprint_key, binaries, i, digest);
    }
    pool_grows(
        less,
        rows::blobs_of(placed[n - 1].entry.deep_view().content.attachments, binaries),
        digest,
    );
}

/// Every content of the pool stands under its own digest.
pub proof fn the_pool_is_content_addressed(
    m: Mirror,
    before: MirrorView,
    v: &Vault,
    key: Seq<u8>,
    fingerprint_key: Seq<u8>,
)
    requires
        holds(m, before, v, key, fingerprint_key),
    ensures
        content_addressed(m.blobs.deep_view()),
{
    let placed = ingest::vault_entries(v);
    stored_pool(
        ingest::without_entries(*v),
        placed,
        placed.len(),
        fingerprint_key,
        v.binaries.deep_view(),
    );
    assert(m.opened(key).blobs == m.blobs.deep_view());
}

/// The first file of a name has its row.
pub proof fn file_row_of(atts: Seq<AttachmentView>, binaries: Seq<Seq<u8>>, k: int) -> (j: int)
    requires
        0 <= k < atts.len(),
        (atts[k].ref_id as int) < binaries.len(),
        forall|n: int|
            0 <= n < k && (#[trigger] atts[n]).ref_id < binaries.len() ==> atts[n].name
                != atts[k].name,
    ensures
        0 <= j < rows::attachment_rows_of(atts, binaries).len(),
        rows::attachment_rows_of(atts, binaries)[j] == (AttachmentRowView {
            attachment_name: atts[k].name,
            blob_sha256: codec::sha256(binaries[atts[k].ref_id as int]),
        }),
    decreases atts.len(),
{
    let all = rows::attachment_rows_of(atts, binaries);
    let less = rows::attachment_rows_of(atts.drop_last(), binaries);
    if k == atts.len() - 1 {
        if rows::has_attachment(less, atts[k].name) {
            let j = choose|j: int|
                0 <= j < less.len() && (#[trigger] less[j]).attachment_name == atts[k].name;
            let n = file_row_from(atts.drop_last(), binaries, j);
            assert(atts.drop_last()[n] == atts[n]);
        }
        all.len() - 1
    } else {
        assert forall|n: int| 0 <= n < k && (#[trigger] atts.drop_last()[n]).ref_id
            < binaries.len() implies atts.drop_last()[n].name != atts.drop_last()[k].name by {
            assert(atts.drop_last()[n] == atts[n]);
        }
        let j = file_row_of(atts.drop_last(), binaries, k);
        assert(all[j] == less[j]);
        j
    }
}

/// The row of a file is that of one of the files.
pub proof fn file_row_from(atts: Seq<AttachmentView>, binaries: Seq<Seq<u8>>, j: int) -> (n: int)
    requires
        0 <= j < rows::attachment_rows_of(atts, binaries).len(),
    ensures
        0 <= n < atts.len(),
        (atts[n].ref_id as int) < binaries.len(),
        rows::attachment_rows_of(atts, binaries)[j].attachment_name == atts[n].name,
    decreases atts.len(),
{
    let all = rows::attachment_rows_of(atts, binaries);
    let less = rows::attachment_rows_of(atts.drop_last(), binaries);
    if j < less.len() {
        assert(all[j] == less[j]);
        let n = file_row_from(atts.drop_last(), binaries, j);
        assert(atts.drop_last()[n] == atts[n]);
        n
    } else {
        atts.len() - 1
    }
}

/// No two rows of files share a name.
pub proof fn file_names_differ(atts: Seq<AttachmentView>, binaries: Seq<Seq<u8>>, a: int, b: int)
    requires
        0 <= a < b < rows::attachment_rows_of(atts, binaries).len(),
    ensures
        rows::attachment_rows_of(atts, binaries)[a].attachment_name != rows::attachment_rows_of(
            atts,
            binaries,
        )[b].attachment_name,
    decreases atts.len(),
{
    let all = rows::attachment_rows_of(atts, binaries);
    let less = rows::attachment_rows_of(atts.drop_last(), binaries);
    assert(all[a] == less[a]);
    if b < less.len() {
        assert(all[b] == less[b]);
        file_names_differ(atts.drop_last(), binaries, a, b);
    } else {
        assert(less[a].attachment_name != atts.last().name);
    }
}

/// A file reads back, up to its digest. Of several with one name the first
/// whose content is there is kept.
pub proof fn a_file_reads_back(
    m: Mirror,
    before: MirrorView,
    v: &Vault,
    key: Seq<u8>,
    fingerprint_key: Seq<u8>,
    i: int,
    k: int,
)
    requires
        holds(m, before, v, key, fingerprint_key),
        0 <= i < ingest::vault_entries(v).len(),
        0 <= k < content_at(v, i).attachments.len(),
        content_at(v, i).attachments[k].ref_id < v.binaries@.len(),
        forall|n: int|
            0 <= n < k && (#[trigger] content_at(v, i).attachments[n]).ref_id < v.binaries@.len()
                ==> content_at(v, i).attachments[n].name != content_at(v, i).attachments[k].name,
    ensures
        ({
            let file = content_at(v, i).attachments[k];
            let bytes = reading::file_in(m, ingest::vault_entries(v)[i].entry.id, file.name);
            bytes is Some && codec::sha256(bytes->0) == codec::sha256(
                v.binaries.deep_view()[file.ref_id as int],
            )
        }),
{
    record_at(m, before, v, key, fingerprint_key, i);
    the_pool_is_content_addressed(m, before, v, key, fingerprint_key);
    let placed = ingest::vault_entries(v);
    let binaries = v.binaries.deep_view();
    let atts = content_at(v, i).attachments;
    let digest = codec::sha256(binaries[atts[k].ref_id as int]);
    file_blobs(atts, binaries, k);
    stored_pool_has(
        ingest::without_entries(*v),
        placed,
        placed.len(),
        fingerprint_key,
        binaries,
        i,
        digest,
    );
    assert(mirror::has_blob(m.opened(key).blobs, digest));
    let all = rows::attachment_rows_of(atts, binaries);
    let held = m.entries@[placed[i].entry.id].attachments;
    let j = file_row_of(atts, binaries, k);
    assert(held.deep_view() == all);
    assert forall|n: int| 0 <= n < held@.len() implies (#[trigger] held@[n]).text_key()
        == all[n].attachment_name by {
        assert(held.deep_view()[n] == held@[n].deep_view());
    }
    assert forall|n: int| 0 <= n < j implies (#[trigger] held@[n]).text_key() != atts[k].name by {
        file_names_differ(atts, binaries, n, j);
    }
    assert(held@[j].text_key() == all[j].attachment_name);
    order::first_is_named(held@, atts[k].name, j);
    assert(held.deep_view()[j] == held@[j].deep_view());
    reading::the_pool_finds(m.blobs, digest);
}

/// A file of a history record reads back, up to its digest, where the pool has
/// its content.
pub proof fn a_past_file_reads_back(
    m: Mirror,
    before: MirrorView,
    v: &Vault,
    key: Seq<u8>,
    fingerprint_key: Seq<u8>,
    i: int,
    h: u32,
    k: int,
)
    requires
        holds(m, before, v, key, fingerprint_key),
        0 <= i < ingest::vault_entries(v).len(),
        h < ingest::vault_entries(v)[i].entry.deep_view().history.len(),
        0 <= k < past_content_at(v, i, h as int).attachments.len(),
        forall|n: int|
            0 <= n < k ==> (#[trigger] past_content_at(v, i, h as int).attachments[n]).name
                != past_content_at(v, i, h as int).attachments[k].name,
        codec::sha256(
            history_snapshot::resolved_bytes(
                past_content_at(v, i, h as int).attachments[k],
                v.binaries.deep_view(),
            ),
        ).len() > 0,
        mirror::has_blob(
            m.blobs.deep_view(),
            codec::sha256(
                history_snapshot::resolved_bytes(
                    past_content_at(v, i, h as int).attachments[k],
                    v.binaries.deep_view(),
                ),
            ),
        ),
    ensures
        ({
            let file = past_content_at(v, i, h as int).attachments[k];
            let bytes = reading::past_file_in(
                m,
                ingest::vault_entries(v)[i].entry.id,
                h,
                file.name,
            );
            bytes is Some && codec::sha256(bytes->0) == codec::sha256(
                history_snapshot::resolved_bytes(file, v.binaries.deep_view()),
            )
        }),
{
    past_record_at(m, before, v, key, fingerprint_key, i, h);
    the_pool_is_content_addressed(m, before, v, key, fingerprint_key);
    let atts = past_content_at(v, i, h as int).attachments;
    let binaries = v.binaries.deep_view();
    let past = reading::past_record(m.entries@, ingest::vault_entries(v)[i].entry.id, h)->0;
    let all = history_snapshot::history_attachments(atts, binaries);
    let held = past.attachments;
    assert(held.deep_view() == all);
    assert forall|n: int| 0 <= n < held@.len() implies (#[trigger] held@[n]).text_key()
        == atts[n].name by {
        assert(held.deep_view()[n] == held@[n].deep_view());
    }
    order::first_is_named(held@, atts[k].name, k);
    assert(held.deep_view()[k] == held@[k].deep_view());
    let digest = codec::sha256(history_snapshot::resolved_bytes(atts[k], binaries));
    text::hex_doubles_the_length(digest);
    reading::the_pool_finds(m.blobs, digest);
    reading::the_pool_finds_by_hex(m.blobs@, digest);
}

} // verus!
