//! What is shown of a written vault is what the vault has.
//!
//! Each law takes an engine whose tables hold a vault, as writing it leaves them,
//! and an answer that the engine gives, and relates the answer to the vault.

use vstd::prelude::*;
use vstd::utf8::*;

use crate::codec;
use crate::codec::Uuid;
use crate::crypto::SessionKey;
use crate::details;
use crate::engine::Engine;
use crate::error::{EngineError, RevealError};
use crate::ingest;
use crate::mirror;
use crate::mirror::{EntryRecord, MirrorView};
use crate::model::{EntryFull, EntrySummary, GroupNode, HistoricEntry, IconRef, Pagination};
use crate::order;
use crate::order::TextKeyed;
use crate::queries;
use crate::reading;
use crate::reading_laws;
use crate::reading_laws::holds;
use crate::rows;
use crate::rows::{BlobView, ProtectedRow, PASSWORD_FIELD};
use crate::table_laws::{has_tag, tags_are_held};
use crate::text;
use crate::vault::{AttachmentView, CustomFieldView, Group, Placed, Vault};
use crate::vault_laws;
use crate::vault_laws::{
    entries_within, entry_at, group_at, is_host_of, is_known_millis_of, is_millis_of, parent_on, passes,
};

verus! {

// --------------------------------------------------------------------- one entry

/// An entry is shown in full with the vault's own texts, times and icon, in its
/// group, and with as many history records as it has.
pub proof fn an_entry_is_shown_in_full(
    en: Engine,
    before: MirrorView,
    v: &Vault,
    key: Seq<u8>,
    fingerprint_key: Seq<u8>,
    path: Seq<nat>,
    k: int,
    r: Option<EntryFull>,
)
    requires
        holds(en.mirror, before, v, key, fingerprint_key),
        entry_at(v.root, path, k) is Some,
        call_ensures(Engine::entry, (&en, entry_at(v.root, path, k)->0.id), r),
    ensures
        r is Some,
        ({
            let e = entry_at(v.root, path, k)->0;
            let f = r->0;
            &&& f.uuid == e.id
            &&& f.group_uuid == group_at(v.root, path)->0.id
            &&& f.title@ == e.content.title@
            &&& f.username@ == e.content.username@
            &&& f.url@ == e.content.url@
            &&& is_host_of(f.url_host@, e.content.url@)
            &&& f.notes@ == e.content.notes@
            &&& is_millis_of(f.created_at, e.content.times.creation_time)
            &&& is_millis_of(f.modified_at, e.content.times.last_modification_time)
            &&& is_millis_of(f.accessed_at, e.content.times.last_access_time)
            &&& is_known_millis_of(f.last_used_at, e.content.times.last_access_time)
            &&& e.content.times.expires ==> is_known_millis_of(
                f.expires_at,
                e.content.times.expiry_time,
            )
            &&& !e.content.times.expires ==> f.expires_at is None
            &&& f.is_recycled <==> v.meta.recycle_bin_uuid is Some && passes(
                v.root,
                path,
                v.meta.recycle_bin_uuid->0,
            )
            &&& f.password_strength_bucket == Some(e.content.strength.bucket)
            &&& f.password_entropy == e.content.strength.entropy
            &&& e.content.custom_icon_uuid is Some ==> f.icon == IconRef::Custom(
                e.content.custom_icon_uuid->0,
            )
            &&& e.content.custom_icon_uuid is None ==> f.icon == IconRef::Builtin(
                e.content.icon_id,
            )
            &&& e.history@.len() <= u32::MAX ==> f.history_count == e.history@.len()
        }),
{
    vault_laws::an_entry_keeps_its_columns(
        en.mirror,
        before,
        v,
        key,
        fingerprint_key,
        path,
        k,
    );
}

/// Nothing is shown under an identity that no entry of the vault has.
pub proof fn nothing_else_is_shown(
    en: Engine,
    before: MirrorView,
    v: &Vault,
    key: Seq<u8>,
    fingerprint_key: Seq<u8>,
    uuid: Uuid,
    r: Option<EntryFull>,
    h: Result<Vec<HistoricEntry>, EngineError>,
)
    requires
        holds(en.mirror, before, v, key, fingerprint_key),
        forall|path: Seq<nat>, k: int| #[trigger]
            entry_at(v.root, path, k) matches Some(e) ==> e.id != uuid,
        call_ensures(Engine::entry, (&en, uuid), r),
        call_ensures(Engine::history, (&en, uuid), h),
    ensures
        r is None,
        h is Err && (h->Err_0 matches EngineError::NotFound { entity } && entity@ == "entry"@),
{
    if en.mirror.entries@.contains_key(uuid) {
        vault_laws::no_entry_but_the_vaults(
            en.mirror,
            before,
            v,
            key,
            fingerprint_key,
            uuid,
        );
    }
}

/// The history of an entry is shown in order, each record with the texts and the
/// times of that earlier content.
pub proof fn the_history_is_shown(
    en: Engine,
    before: MirrorView,
    v: &Vault,
    key: Seq<u8>,
    fingerprint_key: Seq<u8>,
    path: Seq<nat>,
    k: int,
    h: int,
    r: Result<Vec<HistoricEntry>, EngineError>,
)
    requires
        holds(en.mirror, before, v, key, fingerprint_key),
        entry_at(v.root, path, k) is Some,
        0 <= h < entry_at(v.root, path, k)->0.history@.len(),
        call_ensures(Engine::history, (&en, entry_at(v.root, path, k)->0.id), r),
    ensures
        r is Ok,
        r->Ok_0@.len() == entry_at(v.root, path, k)->0.history@.len(),
        ({
            let c = entry_at(v.root, path, k)->0.history@[h];
            let shown = r->Ok_0@[h];
            &&& h <= u32::MAX ==> shown.history_index == h
            &&& shown.title@ == c.title@
            &&& shown.username@ == c.username@
            &&& shown.url@ == c.url@
            &&& is_host_of(shown.url_host@, c.url@)
            &&& shown.notes@ == c.notes@
            &&& is_millis_of(shown.created_at, c.times.creation_time)
            &&& is_millis_of(shown.modified_at, c.times.last_modification_time)
            &&& is_millis_of(shown.accessed_at, c.times.last_access_time)
            &&& is_known_millis_of(shown.last_used_at, c.times.last_access_time)
            &&& c.times.expires ==> is_known_millis_of(shown.expires_at, c.times.expiry_time)
            &&& !c.times.expires ==> shown.expires_at is None
            &&& c.password@.len() > 0 ==> shown.password_strength_bucket == Some(
                c.strength.bucket,
            ) && shown.password_entropy == Some(c.strength.entropy)
            &&& c.password@.len() == 0 ==> shown.password_strength_bucket is None
                && shown.password_entropy is None
            &&& c.custom_icon_uuid is None ==> shown.icon == IconRef::Builtin(c.icon_id)
            &&& c.custom_icon_uuid is Some && codec::uuid_parsed(
                codec::uuid_text(c.custom_icon_uuid->0),
            ) == Ok::<Uuid, Seq<char>>(c.custom_icon_uuid->0) ==> shown.icon == IconRef::Custom(
                c.custom_icon_uuid->0,
            )
            &&& shown.tags@.len() == c.tags@.len()
            &&& forall|n: int|
                0 <= n < c.tags@.len() ==> (#[trigger] shown.tags@[n])@ == c.tags@[n]@
            &&& shown.attachments@.len() == c.attachments@.len()
            &&& forall|n: int|
                0 <= n < c.attachments@.len() ==> (#[trigger] shown.attachments@[n]).name@
                    == c.attachments@[n].name@
        }),
{
    vault_laws::a_past_version_keeps_its_columns(
        en.mirror,
        before,
        v,
        key,
        fingerprint_key,
        path,
        k,
        h,
    );
    vault_laws::an_entry_keeps_its_columns(
        en.mirror,
        before,
        v,
        key,
        fingerprint_key,
        path,
        k,
    );
    let e = entry_at(v.root, path, k)->0;
    let c = e.history@[h];
    let past = en.mirror.entries@[e.id].history@[h];
    let shown = r->Ok_0@[h];
    assert(details::shows_past(shown, h, past));
    assert(shown.tags.deep_view().len() == shown.tags@.len());
    assert(past.tags.deep_view().len() == past.tags@.len());
    assert forall|n: int| 0 <= n < c.tags@.len() implies (#[trigger] shown.tags@[n])@
        == c.tags@[n]@ by {
        assert(shown.tags.deep_view()[n] == shown.tags@[n]@);
        assert(past.tags.deep_view()[n] == past.tags@[n]@);
    }
    assert(shown.attachments.deep_view().len() == shown.attachments@.len());
    past_files_are_counted(en, before, v, key, fingerprint_key, path, k, h);
    assert forall|n: int| 0 <= n < c.attachments@.len() implies (
    #[trigger] shown.attachments@[n]).name@ == c.attachments@[n].name@ by {
        vault_laws::a_past_version_keeps_its_files(
            en.mirror,
            before,
            v,
            key,
            fingerprint_key,
            path,
            k,
            h,
            n,
        );
        assert(shown.attachments.deep_view()[n] == shown.attachments@[n].deep_view());
    }
}

proof fn past_files_are_counted(
    en: Engine,
    before: MirrorView,
    v: &Vault,
    key: Seq<u8>,
    fingerprint_key: Seq<u8>,
    path: Seq<nat>,
    k: int,
    h: int,
)
    requires
        holds(en.mirror, before, v, key, fingerprint_key),
        entry_at(v.root, path, k) is Some,
        0 <= h < entry_at(v.root, path, k)->0.history@.len(),
    ensures
        en.mirror.entries@[entry_at(v.root, path, k)->0.id].history@[h].attachments@.len()
            == entry_at(v.root, path, k)->0.history@[h].attachments@.len(),
{
    let e = entry_at(v.root, path, k)->0;
    let past = en.mirror.entries@[e.id].history@[h];
    vault_laws::a_past_record_at(en.mirror, before, v, key, fingerprint_key, path, k, h);
    assert(past.opened(key).attachments == past.attachments.deep_view());
    assert(past.attachments.deep_view().len() == past.attachments@.len());
    assert(e.history@[h].attachments.deep_view().len() == e.history@[h].attachments@.len());
}

// --------------------------------------------------------- its fields, tags and files

proof fn sealed_refs_have(rs: Seq<ProtectedRow>, n: nat, name: Seq<char>)
    requires
        n <= rs.len(),
    ensures
        forall|i: int|
            0 <= i < details::sealed_refs(rs, n).len() ==> (
            #[trigger] details::sealed_refs(rs, n)[i]).is_protected,
        (exists|i: int|
            0 <= i < details::sealed_refs(rs, n).len() && (
            #[trigger] details::sealed_refs(rs, n)[i]).name == name) <==> name != PASSWORD_FIELD@
            && exists|j: int| 0 <= j < n && (#[trigger] rs[j]).field_name@ == name,
    decreases n,
{
    if n > 0 {
        let less = details::sealed_refs(rs, (n - 1) as nat);
        let all = details::sealed_refs(rs, n);
        sealed_refs_have(rs, (n - 1) as nat, name);
        if exists|i: int| 0 <= i < less.len() && (#[trigger] less[i]).name == name {
            let i = choose|i: int| 0 <= i < less.len() && (#[trigger] less[i]).name == name;
            assert(all[i].name == name);
            let j = choose|j: int| 0 <= j < n - 1 && (#[trigger] rs[j]).field_name@ == name;
            assert(rs[j].field_name@ == name);
        } else if exists|i: int| 0 <= i < all.len() && (#[trigger] all[i]).name == name {
            let i = choose|i: int| 0 <= i < all.len() && (#[trigger] all[i]).name == name;
            if i < less.len() {
                assert(less[i].name == name);
            }
            assert(rs[n - 1].field_name@ == name);
        } else if name != PASSWORD_FIELD@ && exists|j: int|
            0 <= j < n && (#[trigger] rs[j]).field_name@ == name {
            let j = choose|j: int| 0 <= j < n && (#[trigger] rs[j]).field_name@ == name;
            if j < n - 1 {
                assert(rs[j].field_name@ == name);
            } else {
                assert(all[all.len() - 1].name == name);
            }
        }
    }
}

proof fn sealed_names(cfs: Seq<CustomFieldView>, name: Seq<char>)
    ensures
        (exists|j: int|
            0 <= j < rows::sealed_rows_of(cfs).len() && (
            #[trigger] rows::sealed_rows_of(cfs)[j]).field_name == name) <==> name
            != PASSWORD_FIELD@ && exists|n: int|
            0 <= n < cfs.len() && (#[trigger] cfs[n]).protected && cfs[n].key == name,
    decreases cfs.len(),
{
    if cfs.len() > 0 {
        let less = cfs.drop_last();
        let all = rows::sealed_rows_of(cfs);
        let held = rows::sealed_rows_of(less);
        sealed_names(less, name);
        if exists|j: int| 0 <= j < held.len() && (#[trigger] held[j]).field_name == name {
            let j = choose|j: int| 0 <= j < held.len() && (#[trigger] held[j]).field_name == name;
            assert(all[j].field_name == name);
            let n = choose|n: int|
                0 <= n < less.len() && (#[trigger] less[n]).protected && less[n].key == name;
            assert(cfs[n].protected && cfs[n].key == name);
        } else if exists|j: int| 0 <= j < all.len() && (#[trigger] all[j]).field_name == name {
            let j = choose|j: int| 0 <= j < all.len() && (#[trigger] all[j]).field_name == name;
            if j < held.len() {
                assert(held[j].field_name == name);
            }
            assert(cfs[cfs.len() - 1].protected && cfs[cfs.len() - 1].key == name);
        } else if name != PASSWORD_FIELD@ && exists|n: int|
            0 <= n < cfs.len() && (#[trigger] cfs[n]).protected && cfs[n].key == name {
            let n = choose|n: int|
                0 <= n < cfs.len() && (#[trigger] cfs[n]).protected && cfs[n].key == name;
            if n < less.len() {
                assert(less[n].protected && less[n].key == name);
            } else {
                assert(all[all.len() - 1].field_name == name);
            }
        }
    }
}

proof fn plain_names(cfs: Seq<CustomFieldView>, name: Seq<char>)
    ensures
        (exists|j: int|
            0 <= j < rows::plain_rows_of(cfs).len() && (
            #[trigger] rows::plain_rows_of(cfs)[j]).field_name == name) <==> exists|n: int|
            0 <= n < cfs.len() && !(#[trigger] cfs[n]).protected && cfs[n].key == name,
    decreases cfs.len(),
{
    if cfs.len() > 0 {
        let less = cfs.drop_last();
        let all = rows::plain_rows_of(cfs);
        let held = rows::plain_rows_of(less);
        plain_names(less, name);
        if exists|j: int| 0 <= j < held.len() && (#[trigger] held[j]).field_name == name {
            let j = choose|j: int| 0 <= j < held.len() && (#[trigger] held[j]).field_name == name;
            assert(all[j].field_name == name);
            let n = choose|n: int|
                0 <= n < less.len() && !(#[trigger] less[n]).protected && less[n].key == name;
            assert(!cfs[n].protected && cfs[n].key == name);
        } else if exists|j: int| 0 <= j < all.len() && (#[trigger] all[j]).field_name == name {
            let j = choose|j: int| 0 <= j < all.len() && (#[trigger] all[j]).field_name == name;
            if j < held.len() {
                assert(held[j].field_name == name);
            }
            assert(!cfs[cfs.len() - 1].protected && cfs[cfs.len() - 1].key == name);
        } else if exists|n: int|
            0 <= n < cfs.len() && !(#[trigger] cfs[n]).protected && cfs[n].key == name {
            let n = choose|n: int|
                0 <= n < cfs.len() && !(#[trigger] cfs[n]).protected && cfs[n].key == name;
            if n < less.len() {
                assert(!less[n].protected && less[n].key == name);
            } else {
                assert(all[all.len() - 1].field_name == name);
            }
        }
    }
}

/// The custom fields shown of an entry are those it has, by name, and each is
/// shown as protected where it is. A protected one that goes by the password's
/// name is not among them.
pub proof fn the_fields_are_shown(
    en: Engine,
    before: MirrorView,
    v: &Vault,
    key: Seq<u8>,
    fingerprint_key: Seq<u8>,
    path: Seq<nat>,
    k: int,
    r: Option<EntryFull>,
    name: Seq<char>,
    protected: bool,
)
    requires
        holds(en.mirror, before, v, key, fingerprint_key),
        entry_at(v.root, path, k) is Some,
        call_ensures(Engine::entry, (&en, entry_at(v.root, path, k)->0.id), r),
    ensures
        r is Some,
        ({
            let fields = entry_at(v.root, path, k)->0.content.custom_fields@;
            let shown = r->0.custom_fields@;
            (exists|i: int|
                0 <= i < shown.len() && (#[trigger] shown[i]).name@ == name
                    && shown[i].is_protected == protected) <==> !(protected && name
                == PASSWORD_FIELD@) && exists|n: int|
                0 <= n < fields.len() && (#[trigger] fields[n]).key@ == name
                    && fields[n].protected == protected
        }),
{
    vault_laws::a_record_at(en.mirror, before, v, key, fingerprint_key, path, k);
    let e = entry_at(v.root, path, k)->0;
    let row = en.mirror.entries@[e.id];
    let fields = e.content.custom_fields@;
    let cfs = e.content.custom_fields.deep_view();
    let shown = r->0.custom_fields@;
    let sealed = row.fields.protected@;
    let plain = row.fields.plain@;
    let front = details::sealed_refs(sealed, sealed.len());
    let back = details::plain_refs(plain);
    let all = r->0.custom_fields.deep_view();
    assert(all == front + back);
    assert(all.len() == shown.len());
    assert(row.opened(key).fields.protected == rows::opened_rows(sealed, key));
    assert(row.opened(key).fields.plain == row.fields.plain.deep_view());
    let seals = rows::fields_of(e.content.deep_view()).protected;
    let plains = rows::plain_rows_of(cfs);
    assert forall|j: int| 0 <= j < sealed.len() implies (#[trigger] sealed[j]).field_name@
        == seals[j].field_name by {
        assert(rows::opened_rows(sealed, key)[j] == sealed[j].opened(key));
    }
    assert forall|j: int| 0 <= j < plain.len() implies (#[trigger] plain[j]).field_name@
        == plains[j].field_name by {
        assert(row.fields.plain.deep_view()[j] == plain[j].deep_view());
    }
    assert(sealed.len() == seals.len());
    assert(plain.len() == plains.len());
    sealed_refs_have(sealed, sealed.len(), name);
    sealed_names(cfs, name);
    plain_names(cfs, name);
    let rest = rows::sealed_rows_of(cfs);
    if exists|i: int|
        0 <= i < shown.len() && (#[trigger] shown[i]).name@ == name && shown[i].is_protected
            == protected {
        let i = choose|i: int|
            0 <= i < shown.len() && (#[trigger] shown[i]).name@ == name && shown[i].is_protected
                == protected;
        assert(all[i] == shown[i].deep_view());
        if i < front.len() {
            assert(front[i].name == name);
            let j = choose|j: int| 0 <= j < sealed.len() && (#[trigger] sealed[j]).field_name@ == name;
            assert(j > 0);
            assert(rest[j - 1] == seals[j]);
            assert(rest[j - 1].field_name == name);
            let n = choose|n: int|
                0 <= n < cfs.len() && (#[trigger] cfs[n]).protected && cfs[n].key == name;
            assert(fields[n].key@ == name && fields[n].protected);
        } else {
            assert(back[i - front.len()].name == name);
            assert(plains[i - front.len()].field_name == name);
            let n = choose|n: int|
                0 <= n < cfs.len() && !(#[trigger] cfs[n]).protected && cfs[n].key == name;
            assert(fields[n].key@ == name && !fields[n].protected);
        }
    }
    if !(protected && name == PASSWORD_FIELD@) && exists|n: int|
        0 <= n < fields.len() && (#[trigger] fields[n]).key@ == name && fields[n].protected
            == protected {
        let n = choose|n: int|
            0 <= n < fields.len() && (#[trigger] fields[n]).key@ == name && fields[n].protected
                == protected;
        assert(cfs[n] == fields[n].deep_view());
        if protected {
            let j = choose|j: int| 0 <= j < rest.len() && (#[trigger] rest[j]).field_name == name;
            assert(seals[j + 1] == rest[j]);
            assert(sealed[j + 1].field_name@ == name);
            let i = choose|i: int| 0 <= i < front.len() && (#[trigger] front[i]).name == name;
            assert(all[i] == shown[i].deep_view());
            assert(shown[i].name@ == name && shown[i].is_protected);
        } else {
            let j = choose|j: int|
                0 <= j < plains.len() && (#[trigger] plains[j]).field_name == name;
            assert(plain[j].field_name@ == name);
            assert(all[front.len() + j] == back[j]);
            assert(all[front.len() + j] == shown[front.len() + j].deep_view());
            assert(shown[front.len() + j].name@ == name);
        }
    }
}

/// The tags shown of an entry are those it has, without the white space around
/// them and each once; blank ones are left out.
pub proof fn the_tags_are_shown(
    en: Engine,
    before: MirrorView,
    v: &Vault,
    key: Seq<u8>,
    fingerprint_key: Seq<u8>,
    path: Seq<nat>,
    k: int,
    r: Option<EntryFull>,
    t: Seq<char>,
)
    requires
        holds(en.mirror, before, v, key, fingerprint_key),
        entry_at(v.root, path, k) is Some,
        call_ensures(Engine::entry, (&en, entry_at(v.root, path, k)->0.id), r),
    ensures
        r is Some,
        ({
            let tags = entry_at(v.root, path, k)->0.content.tags@;
            let shown = r->0.tags@;
            &&& (exists|i: int| 0 <= i < shown.len() && (#[trigger] shown[i])@ == t) <==> t.len()
                > 0 && exists|i: int|
                0 <= i < tags.len() && text::trimmed((#[trigger] tags[i])@) == t
            &&& forall|i: int, j: int|
                0 <= i < j < shown.len() ==> (#[trigger] shown[i])@ != (#[trigger] shown[j])@
        }),
{
    vault_laws::an_entry_keeps_its_tags(
        en.mirror,
        before,
        v,
        key,
        fingerprint_key,
        path,
        k,
        t,
    );
    vault_laws::an_entry_keeps_its_columns(
        en.mirror,
        before,
        v,
        key,
        fingerprint_key,
        path,
        k,
    );
    let e = entry_at(v.root, path, k)->0;
    let row = en.mirror.entries@[e.id];
    let shown = r->0.tags@;
    let held = row.tags@;
    assert(r->0.tags.deep_view() == row.tags.deep_view());
    assert(r->0.tags.deep_view().len() == shown.len());
    assert(row.tags.deep_view().len() == held.len());
    assert forall|i: int| 0 <= i < shown.len() implies (#[trigger] shown[i])@ == held[i]@ by {
        assert(r->0.tags.deep_view()[i] == shown[i]@);
        assert(row.tags.deep_view()[i] == held[i]@);
    }
    if exists|i: int| 0 <= i < shown.len() && (#[trigger] shown[i])@ == t {
        let i = choose|i: int| 0 <= i < shown.len() && (#[trigger] shown[i])@ == t;
        assert(held[i]@ == t);
    }
    if exists|i: int| 0 <= i < held.len() && (#[trigger] held[i])@ == t {
        let i = choose|i: int| 0 <= i < held.len() && (#[trigger] held[i])@ == t;
        assert(shown[i]@ == t);
    }
}

/// Whether every content of the pool is stored with its length.
pub open spec fn lengths_hold(blobs: Seq<BlobView>) -> bool {
    forall|i: int|
        0 <= i < blobs.len() && (#[trigger] blobs[i]).bytes.len() <= i64::MAX ==> blobs[i].size
            == blobs[i].bytes.len()
}

proof fn file_lengths_hold(atts: Seq<AttachmentView>, binaries: Seq<Seq<u8>>)
    ensures
        lengths_hold(rows::blobs_of(atts, binaries)),
    decreases atts.len(),
{
    if atts.len() > 0 {
        file_lengths_hold(atts.drop_last(), binaries);
    }
}

proof fn pool_lengths_hold(blobs: Seq<BlobView>, more: Seq<BlobView>)
    requires
        lengths_hold(blobs),
        lengths_hold(more),
    ensures
        lengths_hold(mirror::with_blobs(blobs, more)),
    decreases more.len(),
{
    if more.len() > 0 {
        assert forall|i: int|
            0 <= i < more.drop_last().len() && (#[trigger] more.drop_last()[i]).bytes.len()
                <= i64::MAX implies more.drop_last()[i].size == more.drop_last()[i].bytes.len() by {
            assert(more.drop_last()[i] == more[i]);
        }
        pool_lengths_hold(blobs, more.drop_last());
        assert(more.last() == more[more.len() - 1]);
    }
}

proof fn stored_lengths_hold(
    m: MirrorView,
    placed: Seq<Placed>,
    n: nat,
    fingerprint_key: Seq<u8>,
    binaries: Seq<Seq<u8>>,
)
    requires
        n <= placed.len(),
        lengths_hold(m.blobs),
    ensures
        lengths_hold(ingest::stored(m, placed, n, fingerprint_key, binaries).blobs),
    decreases n,
{
    if n > 0 {
        stored_lengths_hold(m, placed, (n - 1) as nat, fingerprint_key, binaries);
        let atts = placed[n - 1].entry.deep_view().content.attachments;
        file_lengths_hold(atts, binaries);
        pool_lengths_hold(
            ingest::stored(m, placed, (n - 1) as nat, fingerprint_key, binaries).blobs,
            rows::blobs_of(atts, binaries),
        );
    }
}

/// A file that is shown can be read, and is shown with the length of what reading
/// it gives.
pub proof fn the_files_are_shown(
    en: Engine,
    before: MirrorView,
    v: &Vault,
    key: Seq<u8>,
    fingerprint_key: Seq<u8>,
    path: Seq<nat>,
    k: int,
    a: int,
    r: Option<EntryFull>,
    name: &str,
    bytes: Result<Vec<u8>, EngineError>,
)
    requires
        holds(en.mirror, before, v, key, fingerprint_key),
        entry_at(v.root, path, k) is Some,
        0 <= a < entry_at(v.root, path, k)->0.content.attachments@.len(),
        entry_at(v.root, path, k)->0.content.attachments@[a].ref_id < v.binaries@.len(),
        forall|n: int|
            0 <= n < a && (
            #[trigger] entry_at(v.root, path, k)->0.content.attachments@[n]).ref_id
                < v.binaries@.len() ==> entry_at(v.root, path, k)->0.content.attachments@[n].name@
                != entry_at(v.root, path, k)->0.content.attachments@[a].name@,
        call_ensures(Engine::entry, (&en, entry_at(v.root, path, k)->0.id), r),
        name@ == entry_at(v.root, path, k)->0.content.attachments@[a].name@,
        call_ensures(
            Engine::attachment_bytes,
            (&en, entry_at(v.root, path, k)->0.id, name),
            bytes,
        ),
    ensures
        r is Some,
        bytes is Ok,
        codec::sha256(bytes->Ok_0@) == codec::sha256(
            v.binaries@[entry_at(v.root, path, k)->0.content.attachments@[a].ref_id as int]@,
        ),
        exists|i: int|
            0 <= i < r->0.attachments@.len() && (#[trigger] r->0.attachments@[i]).name@ == name@ && (
            bytes->Ok_0@.len() <= i64::MAX ==> r->0.attachments@[i].size == bytes->Ok_0@.len()),
{
    let m = en.mirror;
    let e = entry_at(v.root, path, k)->0;
    vault_laws::a_record_at(m, before, v, key, fingerprint_key, path, k);
    let placed = ingest::vault_entries(v);
    let w = choose|i: int| 0 <= i < placed.len() && *(#[trigger] placed[i]).entry == e;
    let atts = e.content.attachments.deep_view();
    assert(reading_laws::content_at(v, w) == e.content.deep_view());
    assert(atts[a] == e.content.attachments@[a].deep_view());
    assert(v.binaries.deep_view()[atts[a].ref_id as int] == v.binaries@[atts[a].ref_id as int]@);
    assert forall|n: int|
        0 <= n < a && (#[trigger] reading_laws::content_at(v, w).attachments[n]).ref_id
            < v.binaries@.len() implies reading_laws::content_at(v, w).attachments[n].name
        != reading_laws::content_at(v, w).attachments[a].name by {
        assert(atts[n] == e.content.attachments@[n].deep_view());
    }
    reading_laws::a_file_reads_back(m, before, v, key, fingerprint_key, w, a);
    stored_lengths_hold(
        ingest::without_entries(*v),
        placed,
        placed.len(),
        fingerprint_key,
        v.binaries.deep_view(),
    );
    assert(m.opened(key).blobs == m.blobs.deep_view());
    let files = m.entries@[e.id].attachments@;
    let at = order::first_named(files, name@, files.len())->0 as int;
    named_is_there(files, name@, files.len());
    assert(reading::file_in(m, e.id, name@) == reading::pooled(
        m.blobs@,
        files[at].blob_sha256@,
    ));
    let b = reading::pooled_at(m.blobs@, files[at].blob_sha256@)->0 as int;
    reading::pooled_is_there(m.blobs@, files[at].blob_sha256@);
    assert(m.blobs.deep_view()[b] == m.blobs@[b].deep_view());
    let shown = r->0.attachments@;
    assert(r->0.attachments.deep_view().len() == shown.len());
    assert(r->0.attachments.deep_view()[at] == shown[at].deep_view());
    assert(shown[at].name@ == name@);
}

proof fn named_is_there<T: TextKeyed>(rs: Seq<T>, name: Seq<char>, n: nat)
    requires
        n <= rs.len(),
        order::first_named(rs, name, n) is Some,
    ensures
        order::first_named(rs, name, n)->0 < n,
        rs[order::first_named(rs, name, n)->0 as int].text_key() == name,
    decreases n,
{
    if order::first_named(rs, name, (n - 1) as nat) is Some {
        named_is_there(rs, name, (n - 1) as nat);
    }
}

// -------------------------------------------------------------------------- lists

/// How many entries a group of the vault is said to have: its own, and not those
/// of the groups below it.
pub proof fn a_group_counts_its_entries(
    en: Engine,
    before: MirrorView,
    v: &Vault,
    key: Seq<u8>,
    fingerprint_key: Seq<u8>,
    path: Seq<nat>,
    n: u64,
)
    requires
        holds(en.mirror, before, v, key, fingerprint_key),
        group_at(v.root, path) is Some,
        call_ensures(Engine::entry_count, (&en, Some(group_at(v.root, path)->0.id)), n),
    ensures
        n == group_at(v.root, path)->0.entries@.len(),
{
    let g = group_at(v.root, path)->0;
    vault_laws::a_group_holds_its_entries(
        en.mirror,
        before,
        v,
        key,
        fingerprint_key,
        path,
        queries::members(en.mirror.entries@, Some(g.id)),
    );
}

/// As many entries are counted in all as the vault's tree has.
pub proof fn all_entries_are_counted(
    en: Engine,
    before: MirrorView,
    v: &Vault,
    key: Seq<u8>,
    fingerprint_key: Seq<u8>,
    n: u64,
)
    requires
        holds(en.mirror, before, v, key, fingerprint_key),
        call_ensures(Engine::entry_count, (&en, None), n),
    ensures
        n == entries_within(v.root),
{
    vault_laws::walk_is_whole(&v.root, v.meta.recycle_bin_uuid, false);
    let placed = ingest::vault_entries(v);
    let entries = en.mirror.entries@;
    let ids = Seq::new(placed.len(), |i: int| placed[i].entry.id);
    assert forall|a: int, b: int| 0 <= a < ids.len() && 0 <= b < ids.len() && a != b implies ids[a]
        != ids[b] by {
        if a < b {
            assert(placed[a].entry.id != placed[b].entry.id);
        } else {
            assert(placed[b].entry.id != placed[a].entry.id);
        }
    }
    assert(ids.no_duplicates());
    ids.unique_seq_to_set();
    assert(entries.dom() =~= ids.to_set()) by {
        assert forall|u: Uuid| entries.dom().contains(u) <==> ids.to_set().contains(u) by {
            ingest::mirror_holds_the_entries(before, v, fingerprint_key, u);
            assert(en.mirror.opened(key).entries.contains_key(u) == entries.contains_key(u));
            if entries.contains_key(u) {
                let i = choose|i: int| 0 <= i < placed.len() && (#[trigger] placed[i]).entry.id == u;
                assert(ids[i] == u);
            }
            if ids.contains(u) {
                let i = choose|i: int| 0 <= i < ids.len() && ids[i] == u;
                assert(placed[i].entry.id == u);
            }
        }
    }
}

/// Whether an entry is in a group, or in any where none is named.
pub open spec fn is_in(entries: Map<Uuid, EntryRecord>, u: Uuid, group: Option<Uuid>) -> bool {
    entries.contains_key(u) && (group is Some ==> entries[u].group_uuid == group->0)
}

proof fn listed(en: Engine, group: Option<Uuid>, page: Pagination, r: Vec<EntrySummary>) -> (s: Seq<
    Uuid,
>)
    requires
        call_ensures(Engine::list_entries, (&en, group, page), r),
    ensures
        queries::lists(en.mirror.entries@, group, s),
        r@.len() == queries::window(s, page).len(),
        forall|i: int|
            0 <= i < r@.len() ==> queries::summarises(
                #[trigger] r@[i],
                queries::window(s, page)[i],
                en.mirror.entries@[queries::window(s, page)[i]],
            ),
{
    let s = choose|s: Seq<Uuid>|
        {
            &&& #[trigger] queries::lists(en.mirror.entries@, group, s)
            &&& r@.len() == queries::window(s, page).len()
            &&& forall|i: int|
                0 <= i < r@.len() ==> queries::summarises(
                    #[trigger] r@[i],
                    queries::window(s, page)[i],
                    en.mirror.entries@[queries::window(s, page)[i]],
                )
        };
    s
}

proof fn list_is_counted(entries: Map<Uuid, EntryRecord>, group: Option<Uuid>, s: Seq<Uuid>)
    requires
        queries::lists(entries, group, s),
    ensures
        s.no_duplicates(),
        s.len() == queries::members(entries, group).len(),
{
    assert forall|a: int, b: int| 0 <= a < s.len() && 0 <= b < s.len() && a != b implies s[a]
        != s[b] by {
        if a < b {
            assert(queries::listed_before(entries, s[a], s[b]));
        } else {
            assert(queries::listed_before(entries, s[b], s[a]));
        }
    }
    assert(s.no_duplicates());
    s.unique_seq_to_set();
    assert(s.to_set() =~= queries::members(entries, group));
}

/// A list has only entries of the group, or of the vault where none is named; the
/// one changed last comes first, and of two changed at once the one with the
/// smaller identity; and none comes twice.
pub proof fn a_list_is_in_order(
    en: Engine,
    group: Option<Uuid>,
    page: Pagination,
    r: Vec<EntrySummary>,
    i: int,
    j: int,
)
    requires
        call_ensures(Engine::list_entries, (&en, group, page), r),
        0 <= i < j < r@.len(),
    ensures
        is_in(en.mirror.entries@, r@[i].uuid, group),
        is_in(en.mirror.entries@, r@[j].uuid, group),
        r@[i].modified_at > r@[j].modified_at || (r@[i].modified_at == r@[j].modified_at
            && r@[i].uuid < r@[j].uuid),
{
    let entries = en.mirror.entries@;
    let s = listed(en, group, page, r);
    let w = queries::window(s, page);
    assert(w[i] == r@[i].uuid && w[j] == r@[j].uuid);
    let from = if page.offset < s.len() {
        page.offset as int
    } else {
        s.len() as int
    };
    assert(w[i] == s[from + i] && w[j] == s[from + j]);
    assert(queries::listed_before(entries, s[from + i], s[from + j]));
    assert(s.contains(s[from + i]) && s.contains(s[from + j]));
    assert(queries::members(entries, group).contains(s[from + i]));
    assert(queries::members(entries, group).contains(s[from + j]));
}

/// A page is as long as asked for, as far as there are entries; and it is the part
/// of the whole list that starts after as many as are to be skipped.
pub proof fn a_page_is_a_part_of_the_list(
    en: Engine,
    group: Option<Uuid>,
    page: Pagination,
    r: Vec<EntrySummary>,
    all: Pagination,
    whole: Vec<EntrySummary>,
    n: u64,
)
    requires
        call_ensures(Engine::list_entries, (&en, group, page), r),
        call_ensures(Engine::list_entries, (&en, group, all), whole),
        call_ensures(Engine::entry_count, (&en, group), n),
        all.offset == 0,
        all.limit >= n,
    ensures
        whole@.len() == n,
        page.offset >= n ==> r@.len() == 0,
        page.offset < n && page.limit <= n - page.offset ==> r@.len() == page.limit,
        page.offset < n && page.limit > n - page.offset ==> r@.len() == n - page.offset,
        forall|i: int|
            0 <= i < r@.len() ==> (#[trigger] r@[i]).uuid == whole@[page.offset + i].uuid,
        forall|u: Uuid|
            is_in(en.mirror.entries@, u, group) <==> exists|i: int|
                0 <= i < n && (#[trigger] whole@[i]).uuid == u,
{
    let entries = en.mirror.entries@;
    let s = listed(en, group, page, r);
    let t = listed(en, group, all, whole);
    queries::the_list_is_unique(entries, group, s, t);
    list_is_counted(entries, group, s);
    assert(queries::window(s, all) =~= s);
    assert forall|i: int| 0 <= i < r@.len() implies (#[trigger] r@[i]).uuid == whole@[page.offset
        + i].uuid by {
        assert(r@[i].uuid == queries::window(s, page)[i]);
        assert(whole@[page.offset + i].uuid == s[page.offset + i]);
    }
    assert forall|u: Uuid|
        is_in(entries, u, group) <==> exists|i: int|
            0 <= i < n && (#[trigger] whole@[i]).uuid == u by {
        assert(is_in(entries, u, group) <==> queries::members(entries, group).contains(u));
        assert(s.contains(u) <==> queries::members(entries, group).contains(u));
        if s.contains(u) {
            let i = choose|i: int| 0 <= i < s.len() && s[i] == u;
            assert(whole@[i].uuid == u);
        }
        if exists|i: int| 0 <= i < n && (#[trigger] whole@[i]).uuid == u {
            let i = choose|i: int| 0 <= i < n && (#[trigger] whole@[i]).uuid == u;
            assert(s[i] == u);
        }
    }
}

/// An entry is listed with the vault's own texts, times and icon, in its group.
pub proof fn an_entry_is_listed_as_it_is(
    en: Engine,
    before: MirrorView,
    v: &Vault,
    key: Seq<u8>,
    fingerprint_key: Seq<u8>,
    path: Seq<nat>,
    k: int,
    group: Option<Uuid>,
    page: Pagination,
    r: Vec<EntrySummary>,
    i: int,
)
    requires
        holds(en.mirror, before, v, key, fingerprint_key),
        entry_at(v.root, path, k) is Some,
        call_ensures(Engine::list_entries, (&en, group, page), r),
        0 <= i < r@.len(),
        r@[i].uuid == entry_at(v.root, path, k)->0.id,
    ensures
        ({
            let e = entry_at(v.root, path, k)->0;
            let s = r@[i];
            &&& s.group_uuid == group_at(v.root, path)->0.id
            &&& s.title@ == e.content.title@
            &&& s.username@ == e.content.username@
            &&& s.url@ == e.content.url@
            &&& is_host_of(s.url_host@, e.content.url@)
            &&& s.notes@ == e.content.notes@
            &&& is_millis_of(s.created_at, e.content.times.creation_time)
            &&& is_millis_of(s.modified_at, e.content.times.last_modification_time)
            &&& is_millis_of(s.accessed_at, e.content.times.last_access_time)
            &&& is_known_millis_of(s.last_used_at, e.content.times.last_access_time)
            &&& s.password_strength_bucket == Some(e.content.strength.bucket)
            &&& s.password_entropy == e.content.strength.entropy
            &&& e.content.custom_icon_uuid is Some ==> s.icon == IconRef::Custom(
                e.content.custom_icon_uuid->0,
            )
            &&& e.content.custom_icon_uuid is None ==> s.icon == IconRef::Builtin(
                e.content.icon_id,
            )
        }),
{
    vault_laws::an_entry_keeps_its_columns(
        en.mirror,
        before,
        v,
        key,
        fingerprint_key,
        path,
        k,
    );
    let s = listed(en, group, page, r);
    assert(queries::summarises(
        r@[i],
        queries::window(s, page)[i],
        en.mirror.entries@[queries::window(s, page)[i]],
    ));
}

/// An entry is listed with as many files as it is shown with in full.
pub proof fn a_list_counts_files(
    en: Engine,
    group: Option<Uuid>,
    page: Pagination,
    r: Vec<EntrySummary>,
    i: int,
    full: Option<EntryFull>,
)
    requires
        call_ensures(Engine::list_entries, (&en, group, page), r),
        0 <= i < r@.len(),
        call_ensures(Engine::entry, (&en, r@[i].uuid), full),
    ensures
        full is Some,
        full->0.attachments@.len() <= u32::MAX ==> r@[i].attachment_count
            == full->0.attachments@.len(),
{
    let s = listed(en, group, page, r);
    let w = queries::window(s, page);
    assert(queries::summarises(r@[i], w[i], en.mirror.entries@[w[i]]));
    let from = if page.offset < s.len() {
        page.offset as int
    } else {
        s.len() as int
    };
    assert(w[i] == s[from + i]);
    assert(s.contains(s[from + i]));
    assert(queries::members(en.mirror.entries@, group).contains(w[i]));
    assert(full->0.attachments.deep_view().len() == full->0.attachments@.len());
}

// ----------------------------------------------------------------------- the tree

proof fn treed(en: Engine, r: Vec<GroupNode>) -> (s: Seq<Uuid>)
    requires
        call_ensures(Engine::group_tree, (&en,), r),
    ensures
        queries::shows_all(en.mirror.groups@, s),
        r@.len() == s.len(),
        forall|i: int|
            0 <= i < r@.len() ==> queries::is_node(
                #[trigger] r@[i],
                s[i],
                en.mirror.groups@[s[i]],
                en.mirror.entries@,
            ),
{
    let s = choose|s: Seq<Uuid>|
        {
            &&& #[trigger] queries::shows_all(en.mirror.groups@, s)
            &&& r@.len() == s.len()
            &&& forall|i: int|
                0 <= i < r@.len() ==> queries::is_node(
                    #[trigger] r@[i],
                    s[i],
                    en.mirror.groups@[s[i]],
                    en.mirror.entries@,
                )
        };
    s
}

/// Every group of the vault has one node in the tree, with the group's own name
/// and icon and its parent, marked as the recycle bin where it is, and with the
/// number of entries directly in it; a group under the recycle bin shows none.
pub proof fn a_group_has_one_node(
    en: Engine,
    before: MirrorView,
    v: &Vault,
    key: Seq<u8>,
    fingerprint_key: Seq<u8>,
    path: Seq<nat>,
    r: Vec<GroupNode>,
) -> (i: int)
    requires
        holds(en.mirror, before, v, key, fingerprint_key),
        group_at(v.root, path) is Some,
        call_ensures(Engine::group_tree, (&en,), r),
    ensures
        0 <= i < r@.len(),
        forall|j: int|
            0 <= j < r@.len() ==> ((#[trigger] r@[j]).uuid == group_at(v.root, path)->0.id <==> j
                == i),
        ({
            let g = group_at(v.root, path)->0;
            let bin = v.meta.recycle_bin_uuid;
            let shown = if bin is Some && bin->0 != g.id && passes(v.root, path, bin->0) {
                0
            } else {
                g.entries@.len()
            };
            &&& r@[i].uuid == g.id
            &&& r@[i].name@ == g.name@
            &&& r@[i].parent_uuid == parent_on(v.root, path)
            &&& g.custom_icon_uuid is Some ==> r@[i].icon == IconRef::Custom(
                g.custom_icon_uuid->0,
            )
            &&& g.custom_icon_uuid is None ==> r@[i].icon == IconRef::Builtin(g.icon_id)
            &&& r@[i].is_recycle_bin <==> bin == Some(g.id)
            &&& shown <= u32::MAX ==> r@[i].entry_count_direct == shown
            &&& shown > u32::MAX ==> r@[i].entry_count_direct == u32::MAX
        }),
{
    let m = en.mirror;
    let g = group_at(v.root, path)->0;
    let s = treed(en, r);
    vault_laws::a_group_keeps_its_columns(m, before, v, key, fingerprint_key, path);
    assert(s.contains(g.id));
    let i = choose|i: int| 0 <= i < s.len() && s[i] == g.id;
    assert(queries::is_node(r@[i], s[i], m.groups@[s[i]], m.entries@));
    assert forall|j: int| 0 <= j < r@.len() implies ((#[trigger] r@[j]).uuid == g.id <==> j == i) by {
        assert(queries::is_node(r@[j], s[j], m.groups@[s[j]], m.entries@));
        if s[j] == g.id && j < i {
            assert(queries::shown_before(m.groups@, s[j], s[i]));
            queries::a_group_is_not_before_itself(m.groups@, g.id);
        } else if s[j] == g.id && i < j {
            assert(queries::shown_before(m.groups@, s[i], s[j]));
            queries::a_group_is_not_before_itself(m.groups@, g.id);
        }
    }
    let bin = v.meta.recycle_bin_uuid;
    let row = m.groups@[g.id];
    let all = queries::members(m.entries@, Some(g.id));
    let live = queries::live_members(m.entries@, Some(g.id), !row.is_recycle_bin);
    vault_laws::a_group_holds_its_entries(m, before, v, key, fingerprint_key, path, all);
    assert forall|u: Uuid| #[trigger] all.contains(u) implies (m.entries@[u].is_recycled <==> bin
        is Some && passes(v.root, path, bin->0)) by {
        let k = choose|k: int| 0 <= k < g.entries@.len() && (#[trigger] g.entries@[k]).id == u;
        assert(entry_at(v.root, path, k) is Some);
        vault_laws::an_entry_keeps_its_columns(m, before, v, key, fingerprint_key, path, k);
    }
    if bin is Some && bin->0 != g.id && passes(v.root, path, bin->0) {
        assert(live =~= Set::empty());
    } else {
        assert(live =~= all);
    }
    i
}

/// The tree has no node but those of the vault's groups.
pub proof fn no_node_without_a_group(
    en: Engine,
    before: MirrorView,
    v: &Vault,
    key: Seq<u8>,
    fingerprint_key: Seq<u8>,
    r: Vec<GroupNode>,
    i: int,
)
    requires
        holds(en.mirror, before, v, key, fingerprint_key),
        call_ensures(Engine::group_tree, (&en,), r),
        0 <= i < r@.len(),
    ensures
        exists|path: Seq<nat>| #[trigger]
            group_at(v.root, path) matches Some(g) && g.id == r@[i].uuid,
{
    let s = treed(en, r);
    assert(s.contains(s[i]));
    assert(queries::is_node(r@[i], s[i], en.mirror.groups@[s[i]], en.mirror.entries@));
    vault_laws::no_group_but_the_vaults(
        en.mirror,
        before,
        v,
        key,
        fingerprint_key,
        s[i],
    );
}

/// The root's node comes first; after it the names of the nodes ascend, and of two
/// with one name the one with the smaller identity comes first.
pub proof fn nodes_are_in_order(
    en: Engine,
    before: MirrorView,
    v: &Vault,
    key: Seq<u8>,
    fingerprint_key: Seq<u8>,
    r: Vec<GroupNode>,
)
    requires
        holds(en.mirror, before, v, key, fingerprint_key),
        call_ensures(Engine::group_tree, (&en,), r),
    ensures
        r@.len() > 0,
        r@[0].uuid == v.root.id,
        forall|i: int, j: int|
            1 <= i < j < r@.len() ==> order::text_before(
                (#[trigger] r@[i]).name@,
                (#[trigger] r@[j]).name@,
            ) || (r@[i].name@ == r@[j].name@ && r@[i].uuid < r@[j].uuid),
{
    let m = en.mirror;
    let s = treed(en, r);
    assert(group_at(v.root, Seq::empty()) == Some(v.root));
    let top = a_group_has_one_node(
        en,
        before,
        v,
        key,
        fingerprint_key,
        Seq::empty(),
        r,
    );
    assert forall|i: int| 0 <= i < s.len() implies (m.groups@[#[trigger] s[i]].parent_uuid is None
        <==> s[i] == v.root.id) && queries::is_node(r@[i], s[i], m.groups@[s[i]], m.entries@) by {
        assert(s.contains(s[i]));
        vault_laws::only_the_root_has_no_parent(m, before, v, key, fingerprint_key, s[i]);
        assert(queries::is_node(r@[i], s[i], m.groups@[s[i]], m.entries@));
    }
    assert(s[top] == v.root.id);
    if top > 0 {
        assert(queries::shown_before(m.groups@, s[0], s[top]));
        assert(r@[0].uuid == s[0]);
    }
    assert forall|i: int, j: int| 1 <= i < j < r@.len() implies order::text_before(
        (#[trigger] r@[i]).name@,
        (#[trigger] r@[j]).name@,
    ) || (r@[i].name@ == r@[j].name@ && r@[i].uuid < r@[j].uuid) by {
        assert(queries::shown_before(m.groups@, s[i], s[j]));
        assert(r@[i].uuid == s[i] && r@[j].uuid == s[j]);
        assert(r@[top].uuid == v.root.id);
    }
}

/// The parent of a group of the vault is the group that holds it.
pub proof fn a_group_has_its_parent(
    en: Engine,
    before: MirrorView,
    v: &Vault,
    key: Seq<u8>,
    fingerprint_key: Seq<u8>,
    path: Seq<nat>,
    r: Result<Option<Uuid>, EngineError>,
)
    requires
        holds(en.mirror, before, v, key, fingerprint_key),
        group_at(v.root, path) is Some,
        call_ensures(Engine::group_parent_uuid, (&en, group_at(v.root, path)->0.id), r),
    ensures
        r == Ok::<Option<Uuid>, EngineError>(parent_on(v.root, path)),
{
    vault_laws::a_group_keeps_its_columns(
        en.mirror,
        before,
        v,
        key,
        fingerprint_key,
        path,
    );
}

proof fn shorter_paths_end(root: Group, path: Seq<nat>, n: int)
    requires
        group_at(root, path) is Some,
        0 <= n <= path.len(),
    ensures
        group_at(root, path.take(n)) is Some,
    decreases path.len(),
{
    if n > 0 {
        shorter_paths_end(root.groups@[path[0] as int], path.drop_first(), n - 1);
        assert(path.take(n).drop_first() =~= path.drop_first().take(n - 1));
    }
}

proof fn below_on_the_path(
    en: Engine,
    before: MirrorView,
    v: &Vault,
    key: Seq<u8>,
    fingerprint_key: Seq<u8>,
    path: Seq<nat>,
    ancestor: Uuid,
    n: nat,
)
    requires
        holds(en.mirror, before, v, key, fingerprint_key),
        group_at(v.root, path) is Some,
    ensures
        queries::below(en.mirror.groups@, group_at(v.root, path)->0.id, ancestor, n) <==> exists|
            j: int,
        |
            path.len() - n <= j < path.len() && 0 <= j && (#[trigger] group_at(
                v.root,
                path.take(j),
            ))->0.id == ancestor,
    decreases n,
{
    let groups = en.mirror.groups@;
    vault_laws::a_group_keeps_its_columns(
        en.mirror,
        before,
        v,
        key,
        fingerprint_key,
        path,
    );
    if n > 0 && path.len() > 0 {
        let up = path.drop_last();
        let m = path.len() - 1;
        assert(up =~= path.take(m));
        shorter_paths_end(v.root, path, m);
        below_on_the_path(
            en,
            before,
            v,
            key,
            fingerprint_key,
            up,
            ancestor,
            (n - 1) as nat,
        );
        assert forall|j: int| 0 <= j < m implies #[trigger] up.take(j) == path.take(j) by {
            assert(up.take(j) =~= path.take(j));
        }
        if exists|j: int|
            path.len() - n <= j < path.len() && 0 <= j && (#[trigger] group_at(
                v.root,
                path.take(j),
            ))->0.id == ancestor {
            let j = choose|j: int|
                path.len() - n <= j < path.len() && 0 <= j && (#[trigger] group_at(
                    v.root,
                    path.take(j),
                ))->0.id == ancestor;
            if j < m {
                assert(up.take(j) == path.take(j));
                assert(group_at(v.root, up.take(j))->0.id == ancestor);
            }
        }
        if queries::below(groups, group_at(v.root, up)->0.id, ancestor, (n - 1) as nat) {
            let j = choose|j: int|
                up.len() - (n - 1) <= j < up.len() && 0 <= j && (#[trigger] group_at(
                    v.root,
                    up.take(j),
                ))->0.id == ancestor;
            assert(up.take(j) == path.take(j));
            assert(group_at(v.root, path.take(j))->0.id == ancestor);
        }
        if group_at(v.root, up)->0.id == ancestor {
            assert(group_at(v.root, path.take(m))->0.id == ancestor);
        }
    }
}

proof fn groups_are_finite(en: Engine)
    ensures
        en.mirror.groups@.dom().finite(),
{
    broadcast use {vstd::std_specs::btree::group_btree_axioms, vstd::laws_cmp::group_laws_cmp};

}

/// A group of the vault lies below another exactly when the way to it leads
/// through the other and on.
pub proof fn a_group_lies_below_those_above_it(
    en: Engine,
    before: MirrorView,
    v: &Vault,
    key: Seq<u8>,
    fingerprint_key: Seq<u8>,
    path: Seq<nat>,
    above: Seq<nat>,
    r: Result<bool, EngineError>,
)
    requires
        holds(en.mirror, before, v, key, fingerprint_key),
        group_at(v.root, path) is Some,
        group_at(v.root, above) is Some,
        call_ensures(
            Engine::is_descendant_of,
            (&en, group_at(v.root, path)->0.id, group_at(v.root, above)->0.id),
            r,
        ),
    ensures
        r is Ok,
        r->Ok_0 <==> above.len() < path.len() && path.take(above.len() as int) == above,
{
    groups_are_finite(en);
    let groups = en.mirror.groups@;
    let u = group_at(v.root, path)->0.id;
    let a = group_at(v.root, above)->0.id;
    vault_laws::a_group_keeps_its_columns(
        en.mirror,
        before,
        v,
        key,
        fingerprint_key,
        path,
    );
    below_on_the_path(en, before, v, key, fingerprint_key, path, a, groups.len());
    if u == a {
        vault_laws::an_identity_is_one_group(
            en.mirror,
            before,
            v,
            key,
            fingerprint_key,
            path,
            above,
        );
    } else if queries::below(groups, u, a, groups.len()) {
        let j = choose|j: int|
            path.len() - groups.len() <= j < path.len() && 0 <= j && (#[trigger] group_at(
                v.root,
                path.take(j),
            ))->0.id == a;
        shorter_paths_end(v.root, path, j);
        vault_laws::an_identity_is_one_group(
            en.mirror,
            before,
            v,
            key,
            fingerprint_key,
            path.take(j),
            above,
        );
    } else if above.len() < path.len() && path.take(above.len() as int) == above {
        below_on_the_path(
            en,
            before,
            v,
            key,
            fingerprint_key,
            path,
            a,
            path.len(),
        );
        assert(group_at(v.root, path.take(above.len() as int))->0.id == a);
        queries::no_ancestor_is_missed(groups, u, a, path.len());
    }
}

// ------------------------------------------------------------------ values on demand

/// The password that is revealed of an entry is the entry's own, with the key it
/// was written under; without a key none is revealed, and the reason is handed on.
pub proof fn the_password_is_revealed(
    en: Engine,
    before: MirrorView,
    v: &Vault,
    key: &SessionKey,
    fingerprint_key: Seq<u8>,
    path: Seq<nat>,
    k: int,
    r: Result<String, EngineError>,
    why: String,
    none: Result<String, EngineError>,
)
    requires
        holds(en.mirror, before, v, key@, fingerprint_key),
        entry_at(v.root, path, k) is Some,
        call_ensures(
            Engine::reveal_password,
            (&en, entry_at(v.root, path, k)->0.id, Ok::<&SessionKey, String>(key)),
            r,
        ),
        call_ensures(
            Engine::reveal_password,
            (&en, entry_at(v.root, path, k)->0.id, Err::<&SessionKey, String>(why)),
            none,
        ),
    ensures
        r is Ok,
        r->Ok_0@ == entry_at(v.root, path, k)->0.content.password@,
        none is Err,
        none->Err_0 == EngineError::Reveal(RevealError::SessionKey(why)),
{
    vault_laws::a_record_at(en.mirror, before, v, key@, fingerprint_key, path, k);
    let e = entry_at(v.root, path, k)->0;
    let placed = ingest::vault_entries(v);
    let w = choose|i: int| 0 <= i < placed.len() && *(#[trigger] placed[i]).entry == e;
    assert(reading_laws::content_at(v, w) == e.content.deep_view());
    reading_laws::a_password_reads_back(en.mirror, before, v, key@, fingerprint_key, w);
}

/// A protected field that is revealed has the entry's own value; a plain one is
/// read without a key, and has it too.
pub proof fn a_field_is_revealed(
    en: Engine,
    before: MirrorView,
    v: &Vault,
    key: &SessionKey,
    fingerprint_key: Seq<u8>,
    path: Seq<nat>,
    k: int,
    n: int,
    name: &str,
    sealed: Result<String, EngineError>,
    plain: Option<String>,
)
    requires
        holds(en.mirror, before, v, key@, fingerprint_key),
        entry_at(v.root, path, k) is Some,
        0 <= n < entry_at(v.root, path, k)->0.content.custom_fields@.len(),
        name@ == entry_at(v.root, path, k)->0.content.custom_fields@[n].key@,
        call_ensures(
            Engine::reveal_custom_field,
            (&en, entry_at(v.root, path, k)->0.id, name, Ok::<&SessionKey, String>(key)),
            sealed,
        ),
        call_ensures(
            Engine::non_protected_custom_field,
            (&en, entry_at(v.root, path, k)->0.id, name),
            plain,
        ),
    ensures
        ({
            let field = entry_at(v.root, path, k)->0.content.custom_fields@[n];
            &&& field.protected && name@ != PASSWORD_FIELD@ ==> sealed is Ok && sealed->Ok_0@
                == field.value@
            &&& !field.protected ==> plain is Some && plain->0@ == field.value@
        }),
{
    vault_laws::a_record_at(en.mirror, before, v, key@, fingerprint_key, path, k);
    let e = entry_at(v.root, path, k)->0;
    let placed = ingest::vault_entries(v);
    let w = choose|i: int| 0 <= i < placed.len() && *(#[trigger] placed[i]).entry == e;
    let field = e.content.custom_fields@[n];
    assert(reading_laws::content_at(v, w) == e.content.deep_view());
    assert(e.content.custom_fields.deep_view()[n] == field.deep_view());
    if field.protected && name@ != PASSWORD_FIELD@ {
        reading_laws::a_sealed_field_reads_back(
            en.mirror,
            before,
            v,
            key@,
            fingerprint_key,
            w,
            n,
        );
    }
    if !field.protected {
        reading_laws::a_plain_field_reads_back(
            en.mirror,
            before,
            v,
            key@,
            fingerprint_key,
            w,
            n,
        );
    }
}

/// A past value that is revealed is the one that the earlier content had: the
/// password under its name, and of several fields with one name the last.
pub proof fn a_past_value_is_revealed(
    en: Engine,
    before: MirrorView,
    v: &Vault,
    key: &SessionKey,
    fingerprint_key: Seq<u8>,
    path: Seq<nat>,
    k: int,
    h: u32,
    name: &str,
    r: Result<String, EngineError>,
)
    requires
        holds(en.mirror, before, v, key@, fingerprint_key),
        entry_at(v.root, path, k) is Some,
        h < entry_at(v.root, path, k)->0.history@.len(),
        call_ensures(
            Engine::reveal_history_field,
            (&en, entry_at(v.root, path, k)->0.id, h, name, Ok::<&SessionKey, String>(key)),
            r,
        ),
    ensures
        ({
            let c = entry_at(v.root, path, k)->0.history@[h as int];
            &&& name@ == PASSWORD_FIELD@ ==> r is Ok && r->Ok_0@ == c.password@
            &&& forall|n: int|
                0 <= n < c.custom_fields@.len() && (#[trigger] c.custom_fields@[n]).key@ == name@
                    && name@ != PASSWORD_FIELD@ && (forall|j: int|
                    n < j < c.custom_fields@.len() ==> (#[trigger] c.custom_fields@[j]).key@
                        != name@) ==> r is Ok && r->Ok_0@ == c.custom_fields@[n].value@
        }),
{
    vault_laws::a_record_at(en.mirror, before, v, key@, fingerprint_key, path, k);
    let e = entry_at(v.root, path, k)->0;
    let placed = ingest::vault_entries(v);
    let w = choose|i: int| 0 <= i < placed.len() && *(#[trigger] placed[i]).entry == e;
    let c = e.history@[h as int];
    assert(e.deep_view().history[h as int] == c.deep_view());
    assert(reading_laws::past_content_at(v, w, h as int) == c.deep_view());
    reading_laws::a_past_password_reads_back(
        en.mirror,
        before,
        v,
        key@,
        fingerprint_key,
        w,
        h,
    );
    let cfs = c.custom_fields.deep_view();
    assert forall|n: int|
        0 <= n < c.custom_fields@.len() && (#[trigger] c.custom_fields@[n]).key@ == name@ && name@
            != PASSWORD_FIELD@ && (forall|j: int|
            n < j < c.custom_fields@.len() ==> (#[trigger] c.custom_fields@[j]).key@
                != name@) implies r is Ok && r->Ok_0@ == c.custom_fields@[n].value@ by {
        assert(cfs[n] == c.custom_fields@[n].deep_view());
        assert forall|j: int| n < j < cfs.len() implies (#[trigger] cfs[j]).key != cfs[n].key by {
            assert(cfs[j] == c.custom_fields@[j].deep_view());
        }
        reading_laws::a_past_field_reads_back(
            en.mirror,
            before,
            v,
            key@,
            fingerprint_key,
            w,
            h,
            n,
        );
    }
}

// --------------------------------------------------------------------------- tags

proof fn tags_gathered(tags: Seq<Seq<char>>, names: Seq<Seq<char>>, t: Seq<char>)
    ensures
        mirror::with_tags(tags, names).contains(t) <==> tags.contains(t) || names.contains(t),
    decreases names.len(),
{
    if names.len() > 0 {
        let less = names.drop_last();
        let held = mirror::with_tags(tags, less);
        let all = mirror::with_tags(tags, names);
        tags_gathered(tags, less, t);
        if less.contains(t) {
            let i = choose|i: int| 0 <= i < less.len() && less[i] == t;
            assert(names[i] == t);
        }
        if names.contains(t) && !less.contains(t) {
            let i = choose|i: int| 0 <= i < names.len() && names[i] == t;
            if i < less.len() {
                assert(less[i] == t);
            }
            assert(t == names.last());
        }
        if held.contains(t) {
            let i = choose|i: int| 0 <= i < held.len() && held[i] == t;
            assert(all[i] == t);
        }
        if t == names.last() {
            assert(names[names.len() - 1] == t);
            if !held.contains(t) {
                assert(all[all.len() - 1] == t);
            }
        }
        if all.contains(t) && !held.contains(t) {
            let i = choose|i: int| 0 <= i < all.len() && all[i] == t;
            if i < held.len() {
                assert(held[i] == t);
            }
        }
    } else {
        assert(!names.contains(t));
    }
}

proof fn stored_tags(
    m: MirrorView,
    placed: Seq<Placed>,
    n: nat,
    fingerprint_key: Seq<u8>,
    binaries: Seq<Seq<u8>>,
    t: Seq<char>,
)
    requires
        n <= placed.len(),
    ensures
        ingest::stored(m, placed, n, fingerprint_key, binaries).tags.contains(t) <==> m.tags.contains(
            t,
        ) || exists|i: int|
            0 <= i < n && rows::tag_names_of(
                (#[trigger] placed[i]).entry.deep_view().content.tags,
            ).contains(t),
    decreases n,
{
    if n > 0 {
        stored_tags(m, placed, (n - 1) as nat, fingerprint_key, binaries, t);
        let less = ingest::stored(m, placed, (n - 1) as nat, fingerprint_key, binaries);
        tags_gathered(
            less.tags,
            rows::tag_names_of(placed[n - 1].entry.deep_view().content.tags),
            t,
        );
        if exists|i: int|
            0 <= i < n - 1 && rows::tag_names_of(
                (#[trigger] placed[i]).entry.deep_view().content.tags,
            ).contains(t) {
            let i = choose|i: int|
                0 <= i < n - 1 && rows::tag_names_of(
                    (#[trigger] placed[i]).entry.deep_view().content.tags,
                ).contains(t);
            assert(0 <= i < n && rows::tag_names_of(
                placed[i].entry.deep_view().content.tags,
            ).contains(t));
        }
        if rows::tag_names_of(placed[n - 1].entry.deep_view().content.tags).contains(t) {
            assert(0 <= n - 1 < n);
        }
    }
}

/// The tags that are listed are those that entries of the vault carry, without
/// the white space around them, each once and in ascending order.
pub proof fn the_vaults_tags_are_listed(
    en: Engine,
    before: MirrorView,
    v: &Vault,
    key: Seq<u8>,
    fingerprint_key: Seq<u8>,
    r: Vec<String>,
    t: Seq<char>,
)
    requires
        holds(en.mirror, before, v, key, fingerprint_key),
        call_ensures(Engine::list_tags, (&en,), r),
    ensures
        (exists|i: int| 0 <= i < r@.len() && (#[trigger] r@[i])@ == t) <==> t.len() > 0 && exists|
            path: Seq<nat>,
            k: int,
            n: int,
        |
            #![trigger entry_at(v.root, path, k)->0.content.tags@[n]]
            entry_at(v.root, path, k) is Some && 0 <= n < entry_at(
                v.root,
                path,
                k,
            )->0.content.tags@.len() && text::trimmed(
                entry_at(v.root, path, k)->0.content.tags@[n]@,
            ) == t,
        forall|i: int, j: int|
            0 <= i < j < r@.len() ==> order::text_before(
                (#[trigger] r@[i])@,
                (#[trigger] r@[j])@,
            ),
{
    let m = en.mirror;
    let placed = ingest::vault_entries(v);
    let all = r.deep_view();
    assert(all.len() == r@.len());
    stored_tags(
        ingest::without_entries(*v),
        placed,
        placed.len(),
        fingerprint_key,
        v.binaries.deep_view(),
        t,
    );
    assert(m.opened(key).tags == m.tags.deep_view());
    assert(m.tags.deep_view().contains(t) <==> exists|i: int|
        0 <= i < placed.len() && rows::tag_names_of(
            (#[trigger] placed[i]).entry.deep_view().content.tags,
        ).contains(t));
    assert((exists|i: int| 0 <= i < r@.len() && (#[trigger] r@[i])@ == t) <==> all.contains(t)) by {
        if all.contains(t) {
            let i = choose|i: int| 0 <= i < all.len() && all[i] == t;
            assert(r@[i]@ == t);
        }
        if exists|i: int| 0 <= i < r@.len() && (#[trigger] r@[i])@ == t {
            let i = choose|i: int| 0 <= i < r@.len() && (#[trigger] r@[i])@ == t;
            assert(all[i] == t);
        }
    }
    if all.contains(t) {
        let i = choose|i: int|
            0 <= i < placed.len() && rows::tag_names_of(
                (#[trigger] placed[i]).entry.deep_view().content.tags,
            ).contains(t);
        let (path, k) = vault_laws::a_walked_entry_is_on_a_path(v, i);
        let tags = placed[i].entry.content.tags.deep_view();
        vault_laws::tag_kept(tags, t);
        let n = choose|n: int| 0 <= n < tags.len() && text::trimmed(#[trigger] tags[n]) == t;
        assert(tags[n] == placed[i].entry.content.tags@[n]@);
        assert(text::trimmed(entry_at(v.root, path, k)->0.content.tags@[n]@) == t);
    }
    if t.len() > 0 && exists|path: Seq<nat>, k: int, n: int|
        #![trigger entry_at(v.root, path, k)->0.content.tags@[n]]
        entry_at(v.root, path, k) is Some && 0 <= n < entry_at(
            v.root,
            path,
            k,
        )->0.content.tags@.len() && text::trimmed(entry_at(v.root, path, k)->0.content.tags@[n]@)
            == t {
        let (path, k, n) = choose|path: Seq<nat>, k: int, n: int|
            #![trigger entry_at(v.root, path, k)->0.content.tags@[n]]
            entry_at(v.root, path, k) is Some && 0 <= n < entry_at(
                v.root,
                path,
                k,
            )->0.content.tags@.len() && text::trimmed(
                entry_at(v.root, path, k)->0.content.tags@[n]@,
            ) == t;
        vault_laws::a_record_at(m, before, v, key, fingerprint_key, path, k);
        let e = entry_at(v.root, path, k)->0;
        let i = choose|i: int| 0 <= i < placed.len() && *(#[trigger] placed[i]).entry == e;
        let tags = e.content.tags.deep_view();
        assert(text::trimmed(tags[n]) == t);
        vault_laws::tag_kept(tags, t);
        assert(rows::tag_names_of(placed[i].entry.deep_view().content.tags).contains(t));
    }
    assert forall|i: int, j: int| 0 <= i < j < r@.len() implies order::text_before(
        (#[trigger] r@[i])@,
        (#[trigger] r@[j])@,
    ) by {
        assert(order::text_before(all[i], all[j]));
    }
}

/// A tag is counted with the number of entries that it is shown on.
pub proof fn a_tag_counts_its_entries(
    en: Engine,
    r: Vec<(String, u64)>,
    i: int,
    carrying: Set<Uuid>,
)
    requires
        call_ensures(Engine::tag_usage_counts, (&en,), r),
        0 <= i < r@.len(),
        forall|u: Uuid| #[trigger]
            carrying.contains(u) <==> en.mirror.entries@.contains_key(u) && exists|n: int|
                0 <= n < en.mirror.entries@[u].tags@.len() && (
                #[trigger] en.mirror.entries@[u].tags@[n])@ == r@[i].0@,
    ensures
        r@[i].1 == carrying.len(),
        r@[i].1 > 0,
{
    let entries = en.mirror.entries@;
    let t = r@[i].0@;
    assert forall|u: Uuid| entries.contains_key(u) implies (entries[u].tags.deep_view().contains(t)
        <==> exists|n: int|
        0 <= n < entries[u].tags@.len() && (#[trigger] entries[u].tags@[n])@ == t) by {
        let tags = entries[u].tags.deep_view();
        if tags.contains(t) {
            let n = choose|n: int| 0 <= n < tags.len() && tags[n] == t;
            assert(entries[u].tags@[n]@ == t);
        }
        if exists|n: int|
            0 <= n < entries[u].tags@.len() && (#[trigger] entries[u].tags@[n])@ == t {
            let n = choose|n: int|
                0 <= n < entries[u].tags@.len() && (#[trigger] entries[u].tags@[n])@ == t;
            assert(tags[n] == t);
        }
    }
    assert(carrying =~= details::carriers(entries, t));
}

/// The tags that are counted come in the order of their names in ASCII lower case, each
/// once.
pub proof fn tags_are_counted_in_order(
    en: Engine,
    r: Vec<(String, u64)>,
    i: int,
    j: int,
    a: &str,
    lower_a: String,
    b: &str,
    lower_b: String,
)
    requires
        call_ensures(Engine::tag_usage_counts, (&en,), r),
        0 <= i < j < r@.len(),
        a@ == r@[i].0@,
        b@ == r@[j].0@,
        call_ensures(text::to_ascii_lower, (a,), lower_a),
        call_ensures(text::to_ascii_lower, (b,), lower_b),
    ensures
        r@[i].0@ != r@[j].0@,
        !order::text_before(lower_b@, lower_a@),
{
}

/// Every tag that some entry has is counted, and no tag that is not in the table.
pub proof fn every_tag_is_counted(en: Engine, r: Vec<(String, u64)>, u: Uuid, t: Seq<char>, i: int)
    requires
        call_ensures(Engine::tag_usage_counts, (&en,), r),
        has_tag(en.mirror.tags@, t),
        en.mirror.entries@.contains_key(u),
        has_tag(en.mirror.entries@[u].tags@, t),
    ensures
        exists|n: int| 0 <= n < r@.len() && (#[trigger] r@[n]).0@ == t,
        0 <= i < r@.len() ==> has_tag(en.mirror.tags@, r@[i].0@),
{
    tags_are_held(en.mirror.tags, t);
    tags_are_held(en.mirror.entries@[u].tags, t);
    let carrying = details::carriers(en.mirror.entries@, t);
    entries_are_finite(en);
    assert(carrying.contains(u));
    assert(carrying.finite()) by {
        assert(carrying.subset_of(en.mirror.entries@.dom()));
        vstd::set_lib::lemma_len_subset(carrying, en.mirror.entries@.dom());
    }
    assert(carrying.len() > 0) by {
        vstd::set_lib::lemma_set_empty_equivalency_len(carrying);
    }
    if 0 <= i < r@.len() {
        tags_are_held(en.mirror.tags, r@[i].0@);
        assert(en.mirror.tags.deep_view().contains(r@[i].0@));
    }
}

proof fn entries_are_finite(en: Engine)
    ensures
        en.mirror.entries@.dom().finite(),
{
    broadcast use {vstd::std_specs::btree::group_btree_axioms, vstd::laws_cmp::group_laws_cmp};

}

} // verus!
