//! When a vault is taken in, and for what it is refused.

use vstd::prelude::*;

use crate::codec::Uuid;
use crate::crypto::{NonceSource, SessionKey};
use crate::engine::Engine;
use crate::error::{EngineError, IngestError, SqliteError};
use crate::ingest;
use crate::mirror;
use crate::properties::HeaderFacts;
use crate::rows;
use crate::vault::{CustomFieldView, Entry, Group, Vault};
use crate::vault_laws;
use crate::vault_laws::{entry_at, group_at};

verus! {

/// Whether no two protected fields of an entry share a name, nor two plain ones, nor
/// two of its client-specific items a key. A protected field with the password's name
/// does not count.
pub open spec fn names_differ(e: Entry) -> bool {
    let fields = e.content.custom_fields@;
    let items = e.content.custom_data@;
    &&& forall|i: int, j: int|
        0 <= i < j < fields.len() && (#[trigger] fields[i]).protected == (
        #[trigger] fields[j]).protected && !(fields[i].protected && fields[i].key@ == "Password"@)
            ==> fields[i].key@ != fields[j].key@
    &&& forall|i: int, j: int|
        0 <= i < j < items.len() ==> (#[trigger] items[i]).key@ != (#[trigger] items[j]).key@
}

/// Whether nothing in a vault is there twice.
pub open spec fn has_no_doubles(v: Vault) -> bool {
    &&& forall|p: Seq<nat>, k: int, q: Seq<nat>, n: int|
        (#[trigger] entry_at(v.root, p, k) is Some && #[trigger] entry_at(v.root, q, n) is Some
            && entry_at(v.root, p, k)->0.id == entry_at(v.root, q, n)->0.id) ==> p == q && k == n
    &&& forall|p: Seq<nat>, q: Seq<nat>|
        (#[trigger] group_at(v.root, p) is Some && #[trigger] group_at(v.root, q) is Some
            && group_at(v.root, p)->0.id == group_at(v.root, q)->0.id) ==> p == q
    &&& forall|p: Seq<nat>, k: int|
        (#[trigger] entry_at(v.root, p, k)) is Some ==> names_differ(entry_at(v.root, p, k)->0)
    &&& forall|i: int, j: int|
        0 <= i < j < v.deleted_objects@.len() ==> (#[trigger] v.deleted_objects@[i]).uuid != (
        #[trigger] v.deleted_objects@[j]).uuid
    &&& forall|i: int, j: int|
        0 <= i < j < v.meta.custom_icons@.len() ==> (#[trigger] v.meta.custom_icons@[i]).uuid != (
        #[trigger] v.meta.custom_icons@[j]).uuid
    &&& forall|i: int, j: int|
        0 <= i < j < v.meta.custom_data@.len() ==> (#[trigger] v.meta.custom_data@[i]).key@ != (
        #[trigger] v.meta.custom_data@[j]).key@
}

/// A sealed row is that of a protected field.
pub proof fn a_sealed_row_is_of_a_field(cfs: Seq<CustomFieldView>, j: int) -> (k: int)
    requires
        0 <= j < rows::sealed_rows_of(cfs).len(),
    ensures
        0 <= k < cfs.len(),
        cfs[k].protected,
        cfs[k].key != rows::PASSWORD_FIELD@,
        rows::sealed_rows_of(cfs)[j].field_name == cfs[k].key,
    decreases cfs.len(),
{
    let less = rows::sealed_rows_of(cfs.drop_last());
    if j < less.len() {
        a_sealed_row_is_of_a_field(cfs.drop_last(), j)
    } else {
        cfs.len() - 1
    }
}

proof fn sealed_rows_are_of_fields(cfs: Seq<CustomFieldView>, a: int, b: int) -> (r: (int, int))
    requires
        0 <= a < b < rows::sealed_rows_of(cfs).len(),
    ensures
        0 <= r.0 < r.1 < cfs.len(),
        cfs[r.0].protected && cfs[r.1].protected,
        cfs[r.0].key != rows::PASSWORD_FIELD@,
        rows::sealed_rows_of(cfs)[a].field_name == cfs[r.0].key,
        rows::sealed_rows_of(cfs)[b].field_name == cfs[r.1].key,
    decreases cfs.len(),
{
    let less = rows::sealed_rows_of(cfs.drop_last());
    if b < less.len() {
        sealed_rows_are_of_fields(cfs.drop_last(), a, b)
    } else {
        let i = a_sealed_row_is_of_a_field(cfs.drop_last(), a);
        (i, cfs.len() - 1)
    }
}

proof fn a_plain_row_is_of_a_field(cfs: Seq<CustomFieldView>, j: int) -> (k: int)
    requires
        0 <= j < rows::plain_rows_of(cfs).len(),
    ensures
        0 <= k < cfs.len(),
        !cfs[k].protected,
        rows::plain_rows_of(cfs)[j].field_name == cfs[k].key,
    decreases cfs.len(),
{
    let less = rows::plain_rows_of(cfs.drop_last());
    if j < less.len() {
        a_plain_row_is_of_a_field(cfs.drop_last(), j)
    } else {
        cfs.len() - 1
    }
}

proof fn plain_rows_are_of_fields(cfs: Seq<CustomFieldView>, a: int, b: int) -> (r: (int, int))
    requires
        0 <= a < b < rows::plain_rows_of(cfs).len(),
    ensures
        0 <= r.0 < r.1 < cfs.len(),
        !cfs[r.0].protected && !cfs[r.1].protected,
        rows::plain_rows_of(cfs)[a].field_name == cfs[r.0].key,
        rows::plain_rows_of(cfs)[b].field_name == cfs[r.1].key,
    decreases cfs.len(),
{
    let less = rows::plain_rows_of(cfs.drop_last());
    if b < less.len() {
        plain_rows_are_of_fields(cfs.drop_last(), a, b)
    } else {
        let i = a_plain_row_is_of_a_field(cfs.drop_last(), a);
        (i, cfs.len() - 1)
    }
}

proof fn such_an_entry_fits(e: Entry)
    requires
        names_differ(e),
    ensures
        mirror::storable(e.deep_view()),
{
    let c = e.deep_view().content;
    let fields = e.content.custom_fields@;
    assert(c.custom_fields.len() == fields.len());
    assert forall|i: int| 0 <= i < fields.len() implies c.custom_fields[i]
        == (#[trigger] fields[i]).deep_view() by {}
    let sealed = rows::fields_of(c).protected;
    assert forall|i: int, j: int| 0 <= i < j < sealed.len() implies (
    #[trigger] sealed[i]).field_name != (#[trigger] sealed[j]).field_name by {
        let of = rows::sealed_rows_of(c.custom_fields);
        assert(sealed[j] == of[j - 1]);
        if i == 0 {
            let k = a_sealed_row_is_of_a_field(c.custom_fields, j - 1);
        } else {
            assert(sealed[i] == of[i - 1]);
            let (a, b) = sealed_rows_are_of_fields(c.custom_fields, i - 1, j - 1);
            assert(fields[a].key@ != fields[b].key@);
        }
    }
    let plain = rows::fields_of(c).plain;
    assert forall|i: int, j: int| 0 <= i < j < plain.len() implies (
    #[trigger] plain[i]).field_name != (#[trigger] plain[j]).field_name by {
        let (a, b) = plain_rows_are_of_fields(c.custom_fields, i, j);
        assert(fields[a].key@ != fields[b].key@);
    }
    let items = e.content.custom_data@;
    assert forall|i: int, j: int| 0 <= i < j < c.custom_data.len() implies (
    #[trigger] c.custom_data[i]).key != (#[trigger] c.custom_data[j]).key by {
        assert(c.custom_data[i] == items[i].deep_view());
        assert(c.custom_data[j] == items[j].deep_view());
    }
}

proof fn rows_are_of_two_groups(
    root: Group,
    parent: Option<Uuid>,
    sort_order: u32,
    bin: Option<Uuid>,
    i: int,
    j: int,
) -> (r: (Seq<nat>, Seq<nat>))
    requires
        0 <= i < j < mirror::group_rows(root, parent, sort_order, bin).len(),
    ensures
        r.0 != r.1,
        group_at(root, r.0) matches Some(g) && g.id == mirror::group_rows(
            root,
            parent,
            sort_order,
            bin,
        )[i].0,
        group_at(root, r.1) matches Some(g) && g.id == mirror::group_rows(
            root,
            parent,
            sort_order,
            bin,
        )[j].0,
    decreases root, 0nat,
{
    let all = mirror::group_rows(root, parent, sort_order, bin);
    let sub = mirror::subgroup_rows(root.groups@, root.groups@.len(), Some(root.id), bin);
    assert(all[j] == sub[j - 1]);
    if i == 0 {
        let q = vault_laws::row_from_subgroup(
            root.groups@,
            root.groups@.len(),
            Some(root.id),
            bin,
            j - 1,
        );
        assert(group_at(root, Seq::<nat>::empty()) == Some(root));
        (Seq::empty(), q)
    } else {
        assert(all[i] == sub[i - 1]);
        rows_are_of_two_groups_below(
            root.groups@,
            root.groups@.len(),
            Some(root.id),
            bin,
            i - 1,
            j - 1,
        )
    }
}

proof fn rows_are_of_two_groups_below(
    gs: Seq<Group>,
    n: nat,
    parent: Option<Uuid>,
    bin: Option<Uuid>,
    i: int,
    j: int,
) -> (r: (Seq<nat>, Seq<nat>))
    requires
        n <= gs.len(),
        0 <= i < j < mirror::subgroup_rows(gs, n, parent, bin).len(),
    ensures
        r.0 != r.1,
        r.0.len() > 0 && r.0[0] < n,
        r.1.len() > 0 && r.1[0] < n,
        group_at(gs[r.0[0] as int], r.0.drop_first()) matches Some(g) && g.id
            == mirror::subgroup_rows(gs, n, parent, bin)[i].0,
        group_at(gs[r.1[0] as int], r.1.drop_first()) matches Some(g) && g.id
            == mirror::subgroup_rows(gs, n, parent, bin)[j].0,
    decreases gs, n,
{
    let before = mirror::subgroup_rows(gs, (n - 1) as nat, parent, bin);
    let position = mirror::stored_position((n - 1) as nat);
    if j < before.len() {
        rows_are_of_two_groups_below(gs, (n - 1) as nat, parent, bin, i, j)
    } else if i < before.len() {
        let p = vault_laws::row_from_subgroup(gs, (n - 1) as nat, parent, bin, i);
        let rest = vault_laws::row_from_walk(gs[n - 1], parent, position, bin, j - before.len());
        let q = seq![(n - 1) as nat] + rest;
        assert(q.drop_first() =~= rest);
        assert(p[0] != q[0]);
        (p, q)
    } else {
        let (a, b) = rows_are_of_two_groups(
            gs[n - 1],
            parent,
            position,
            bin,
            i - before.len(),
            j - before.len(),
        );
        let p = seq![(n - 1) as nat] + a;
        let q = seq![(n - 1) as nat] + b;
        assert(p.drop_first() =~= a);
        assert(q.drop_first() =~= b);
        (p, q)
    }
}

proof fn such_a_vault_fits(v: Vault)
    requires
        has_no_doubles(v),
    ensures
        ingest::storable_vault(&v),
{
    let d = v.meta.deep_view();
    assert forall|i: int, j: int| 0 <= i < j < d.custom_icons.len() implies (
    #[trigger] d.custom_icons[i]).uuid != (#[trigger] d.custom_icons[j]).uuid by {
        assert(d.custom_icons[i] == v.meta.custom_icons@[i].deep_view());
        assert(d.custom_icons[j] == v.meta.custom_icons@[j].deep_view());
    }
    assert forall|i: int, j: int| 0 <= i < j < d.custom_data.len() implies (
    #[trigger] d.custom_data[i]).key != (#[trigger] d.custom_data[j]).key by {
        assert(d.custom_data[i] == v.meta.custom_data@[i].deep_view());
        assert(d.custom_data[j] == v.meta.custom_data@[j].deep_view());
    }
    let groups = ingest::vault_groups(v);
    assert forall|i: int, j: int| 0 <= i < j < groups.len() implies (#[trigger] groups[i]).0 != (
    #[trigger] groups[j]).0 by {
        let (p, q) = rows_are_of_two_groups(v.root, None, 0, v.meta.recycle_bin_uuid, i, j);
        assert(group_at(v.root, p) is Some && group_at(v.root, q) is Some);
    }
    let placed = ingest::vault_entries(&v);
    assert forall|i: int, j: int| 0 <= i < j < placed.len() implies (
    #[trigger] placed[i]).entry.id != (#[trigger] placed[j]).entry.id by {
        let (p, k) = vault_laws::from_walk(&v.root, v.meta.recycle_bin_uuid, false, i);
        let (q, n) = vault_laws::from_walk(&v.root, v.meta.recycle_bin_uuid, false, j);
        assert(entry_at(v.root, p, k) is Some && entry_at(v.root, q, n) is Some);
    }
    assert forall|i: int| 0 <= i < placed.len() implies mirror::storable(
        (#[trigger] placed[i]).entry.deep_view(),
    ) by {
        let (p, k) = vault_laws::from_walk(&v.root, v.meta.recycle_bin_uuid, false, i);
        assert(entry_at(v.root, p, k) is Some);
        such_an_entry_fits(*placed[i].entry);
    }
}

/// A vault in which nothing is there twice is taken in, unless a value of it could
/// not be sealed.
pub proof fn a_sound_vault_is_taken_in(
    en: &mut Engine,
    v: &Vault,
    header: &HeaderFacts,
    session_key: &SessionKey,
    nonces: &mut NonceSource,
    r: Result<(), EngineError>,
)
    requires
        call_ensures(Engine::ingest_from_kdbx, (en, v, header, session_key, nonces), r),
        has_no_doubles(*v),
    ensures
        r is Ok || (r matches Err(EngineError::Ingest(IngestError::Wrap(_)))),
        r is Err ==> !ingest::sealable_vault(v) || old(nonces).drawn@.len() < ingest::vault_seals(
            v,
        ),
{
    such_a_vault_fits(*v);
}

/// A vault with two entries of one identity is refused, and nothing
/// changes.
pub proof fn a_vault_with_doubles_is_refused(
    en: &mut Engine,
    v: &Vault,
    header: &HeaderFacts,
    session_key: &SessionKey,
    nonces: &mut NonceSource,
    r: Result<(), EngineError>,
    p: Seq<nat>,
    k: int,
    q: Seq<nat>,
    n: int,
)
    requires
        call_ensures(Engine::ingest_from_kdbx, (en, v, header, session_key, nonces), r),
        entry_at(v.root, p, k) is Some,
        entry_at(v.root, q, n) is Some,
        entry_at(v.root, p, k)->0.id == entry_at(v.root, q, n)->0.id,
        vault_laws::place_of(v.root, p, k) != vault_laws::place_of(v.root, q, n),
    ensures
        r is Err,
        (r matches Err(EngineError::Sqlite(SqliteError::Constraint))) || (
        r matches Err(EngineError::Ingest(IngestError::Wrap(_)))),
        *final(en) == *old(en),
{
    let placed = ingest::vault_entries(v);
    let i = vault_laws::walk_meets(&v.root, v.meta.recycle_bin_uuid, false, p, k);
    let j = vault_laws::walk_meets(&v.root, v.meta.recycle_bin_uuid, false, q, n);
    if r is Ok {
        assert(ingest::distinct_entries(placed, placed.len()));
        if i < j {
            assert(placed[i].entry.id != placed[j].entry.id);
        } else {
            assert(placed[j].entry.id != placed[i].entry.id);
        }
    }
}

} // verus!
