//! Writing a whole vault into the mirror.
//!
//! Everything that was there is replaced, so the outcome does not depend on
//! it; held conflicts and the settings that are not metadata stay. A vault
//! that cannot be written changes nothing.

use vstd::prelude::*;

use crate::codec::Uuid;
use crate::crypto;
use crate::crypto::{NonceSource, SessionKey};
use crate::error::EngineError;
use crate::meta;
use crate::meta::UnknownView;
use crate::meta_tables;
use crate::meta_tables::MetaTables;
use crate::mirror;
use crate::mirror::{EntryRecord, GroupRow, GroupRowView, Mirror, MirrorView};
use crate::properties;
use crate::properties::HeaderFacts;
use crate::rows;
use crate::settings::SettingKey;
use crate::time;
use crate::vault;
use crate::vault::{DeletedObject, Group, Placed, Vault};

verus! {

broadcast use {vstd::std_specs::btree::group_btree_axioms, vstd::laws_cmp::group_laws_cmp};

/// What a pass has written: the identities of the groups and entries, in the
/// order of the walk.
#[derive(Debug)]
pub struct IngestOutcome {
    /// Groups, parents before children.
    pub group_uuids: Vec<Uuid>,
    /// Entries, depth first.
    pub entry_uuids: Vec<Uuid>,
}

// ------------------------------------------------------------------ the tables

/// The group table after the first `n` rows were inserted.
pub open spec fn group_map(rows: Seq<(Uuid, GroupRowView)>, n: nat) -> Map<Uuid, GroupRowView>
    decreases n,
{
    if n == 0 || n > rows.len() {
        Map::empty()
    } else {
        group_map(rows, (n - 1) as nat).insert(rows[n - 1].0, rows[n - 1].1)
    }
}

/// A table of tombstones after the first `n` of a list were inserted.
pub open spec fn stones_added(
    before: Map<Uuid, Option<i64>>,
    deleted: Seq<DeletedObject>,
    n: nat,
) -> Map<Uuid, Option<i64>>
    decreases n,
{
    if n == 0 || n > deleted.len() {
        before
    } else {
        stones_added(before, deleted, (n - 1) as nat).insert(
            deleted[n - 1].uuid,
            time::optional_millis(deleted[n - 1].deleted_at),
        )
    }
}

/// The tombstones after the first `n` were inserted into an empty table.
pub open spec fn tombstone_table(deleted: Seq<DeletedObject>, n: nat) -> Map<Uuid, Option<i64>> {
    stones_added(Map::empty(), deleted, n)
}

/// Whether the first `n` groups have distinct identities.
pub open spec fn distinct_groups(rows: Seq<(Uuid, GroupRowView)>, n: nat) -> bool {
    forall|i: int, j: int|
        0 <= i < j < n ==> (#[trigger] rows[i]).0 != (#[trigger] rows[j]).0
}

/// Whether the first `n` tombstones name distinct objects.
pub open spec fn distinct_tombstones(deleted: Seq<DeletedObject>, n: nat) -> bool {
    forall|i: int, j: int|
        0 <= i < j < n ==> (#[trigger] deleted[i]).uuid != (#[trigger] deleted[j]).uuid
}

/// Whether the first `n` entries have distinct identities.
pub open spec fn distinct_entries(placed: Seq<Placed>, n: nat) -> bool {
    forall|i: int, j: int|
        0 <= i < j < n ==> (#[trigger] placed[i]).entry.id != (#[trigger] placed[j]).entry.id
}

/// The tables with the first `n` entries of a walk inserted.
pub open spec fn stored(
    m: MirrorView,
    placed: Seq<Placed>,
    n: nat,
    fingerprint_key: Seq<u8>,
    binaries: Seq<Seq<u8>>,
) -> MirrorView
    decreases n,
{
    if n == 0 || n > placed.len() {
        m
    } else {
        let p = placed[n - 1];
        mirror::with_entry(
            stored(m, placed, (n - 1) as nat, fingerprint_key, binaries),
            p.entry.id,
            mirror::record_of(
                p.entry.deep_view(),
                p.group,
                p.recycled,
                fingerprint_key,
                binaries,
            ),
            rows::blobs_of(p.entry.deep_view().content.attachments, binaries),
        )
    }
}

/// The group rows of a vault.
pub open spec fn vault_groups(v: Vault) -> Seq<(Uuid, GroupRowView)> {
    mirror::group_rows(v.root, None, 0, v.meta.recycle_bin_uuid)
}

/// The entries of a vault, as the walk places them.
pub open spec fn vault_entries<'a>(v: &'a Vault) -> Seq<Placed<'a>> {
    vault::placed_entries(&v.root, v.meta.recycle_bin_uuid, false)
}

/// The tables with a vault's groups and tombstones, before its entries.
pub open spec fn without_entries(v: Vault) -> MirrorView {
    MirrorView {
        groups: group_map(vault_groups(v), vault_groups(v).len()),
        entries: Map::empty(),
        tags: Seq::empty(),
        blobs: Seq::empty(),
        conflicts: Map::empty(),
        tombstones: tombstone_table(v.deleted_objects@, v.deleted_objects@.len()),
    }
}

/// The tables that hold a vault, in place of `m`.
pub open spec fn ingested(m: MirrorView, v: &Vault, fingerprint_key: Seq<u8>) -> MirrorView {
    MirrorView {
        conflicts: m.conflicts,
        ..stored(
            without_entries(*v),
            vault_entries(v),
            vault_entries(v).len(),
            fingerprint_key,
            v.binaries.deep_view(),
        )
    }
}

/// The byte a switch is stored as.
pub open spec fn switch_byte(on: bool) -> u8 {
    if on {
        1
    } else {
        0
    }
}

/// The settings after a vault was written. Without facts of the envelope, the
/// ones that are there stay.
pub open spec fn ingested_settings(
    m: Map<SettingKey, Seq<u8>>,
    v: Vault,
    header: Option<HeaderFacts>,
) -> Map<SettingKey, Seq<u8>> {
    enveloped(
        meta_tables::written(meta_tables::cleared(m, header is None), v.meta.deep_view()),
        header,
        v.meta.recycle_bin_enabled,
    )
}

/// The settings with the facts of the envelope, if given, and the recycle
/// bin's switch.
pub open spec fn enveloped(
    m: Map<SettingKey, Seq<u8>>,
    header: Option<HeaderFacts>,
    bin_enabled: bool,
) -> Map<SettingKey, Seq<u8>> {
    (match header {
        Some(facts) => properties::with_header(m, facts),
        None => m,
    }).insert(SettingKey::RecycleBinEnabled, seq![switch_byte(bin_enabled)])
}

/// Whether the metadata tables hold a vault's metadata.
pub open spec fn holds_meta(t: MetaTables, v: Vault) -> bool {
    &&& t.unknown_xml is Some
    &&& meta::encodes(t.unknown_xml->0.deep_view(), v.meta.deep_view().unknown_xml)
    &&& meta_tables::unknown_in(t) == Ok::<Option<Seq<UnknownView>>, Seq<char>>(
        Some(v.meta.deep_view().unknown_xml),
    )
    &&& meta::icon_views(t.icons@) == meta::icon_rows(v.meta.deep_view().custom_icons)
    &&& meta_tables::identities_parse(t.icons@, v.meta.deep_view().custom_icons)
    &&& t.custom_data.deep_view() == rows::custom_data_rows(v.meta.deep_view().custom_data)
}

/// Whether a vault fits the tables' uniqueness constraints.
pub open spec fn storable_vault(v: &Vault) -> bool {
    &&& meta::distinct_icons(v.meta.deep_view().custom_icons)
    &&& rows::distinct_keys(v.meta.deep_view().custom_data)
    &&& distinct_tombstones(v.deleted_objects@, v.deleted_objects@.len())
    &&& distinct_groups(vault_groups(*v), vault_groups(*v).len())
    &&& distinct_entries(vault_entries(v), vault_entries(v).len())
    &&& forall|i: int|
        0 <= i < vault_entries(v).len() ==> mirror::storable(
            (#[trigger] vault_entries(v)[i]).entry.deep_view(),
        )
}

/// Whether every value of a vault is short enough to be sealed.
pub open spec fn sealable_vault(v: &Vault) -> bool {
    forall|i: int|
        0 <= i < vault_entries(v).len() ==> mirror::sealable_entry(
            (#[trigger] vault_entries(v)[i]).entry.deep_view(),
        )
}

/// How many nonces sealing the first `n` entries takes.
pub open spec fn walk_seals(placed: Seq<Placed>, n: nat) -> nat
    decreases n,
{
    if n == 0 || n > placed.len() {
        0
    } else {
        walk_seals(placed, (n - 1) as nat) + mirror::entry_seals(placed[n - 1].entry.deep_view())
    }
}

/// How many nonces sealing a vault takes.
pub open spec fn vault_seals(v: &Vault) -> nat {
    walk_seals(vault_entries(v), vault_entries(v).len())
}

/// Whether the blobs of the first `n` entries carry the drawn nonces in turn,
/// each entry's where the one before it left off.
#[verifier::opaque]
pub open spec fn sealed_in_turn(
    entries: Map<Uuid, EntryRecord>,
    placed: Seq<Placed>,
    n: nat,
    drawn: Seq<[u8; 12]>,
) -> bool {
    forall|i: int|
        0 <= i < n ==> mirror::sealed_with(
            entries[(#[trigger] placed[i]).entry.id],
            crypto::left_of(drawn, walk_seals(placed, i as nat)),
            mirror::entry_seals(placed[i].entry.deep_view()),
        )
}

// ---------------------------------------------------------------------- lemmas

proof fn walk_seals_grow(placed: Seq<Placed>, a: nat, b: nat)
    requires
        a <= b <= placed.len(),
    ensures
        walk_seals(placed, a) <= walk_seals(placed, b),
    decreases b,
{
    if a < b {
        walk_seals_grow(placed, a, (b - 1) as nat);
    }
}

proof fn turn_goes_on(
    entries: Map<Uuid, EntryRecord>,
    placed: Seq<Placed>,
    i: int,
    record: EntryRecord,
    drawn: Seq<[u8; 12]>,
)
    requires
        0 <= i < placed.len(),
        sealed_in_turn(entries, placed, i as nat, drawn),
        forall|k: int| 0 <= k < i ==> (#[trigger] placed[k]).entry.id != placed[i].entry.id,
        mirror::sealed_with(
            record,
            crypto::left_of(drawn, walk_seals(placed, i as nat)),
            mirror::entry_seals(placed[i].entry.deep_view()),
        ),
    ensures
        sealed_in_turn(
            entries.insert(placed[i].entry.id, record),
            placed,
            (i + 1) as nat,
            drawn,
        ),
{
    reveal(sealed_in_turn);
}

proof fn group_map_keys(rows: Seq<(Uuid, GroupRowView)>, n: nat, u: Uuid)
    requires
        n <= rows.len(),
    ensures
        group_map(rows, n).contains_key(u) <==> exists|i: int|
            0 <= i < n && (#[trigger] rows[i]).0 == u,
    decreases n,
{
    if n > 0 {
        group_map_keys(rows, (n - 1) as nat, u);
        let before = group_map(rows, (n - 1) as nat);
        if before.contains_key(u) {
            let i = choose|i: int| 0 <= i < n - 1 && (#[trigger] rows[i]).0 == u;
            assert(0 <= i < n && rows[i].0 == u);
        } else if rows[n - 1].0 == u {
            assert(0 <= n - 1 < n && rows[n - 1].0 == u);
        } else if exists|i: int| 0 <= i < n && (#[trigger] rows[i]).0 == u {
            let i = choose|i: int| 0 <= i < n && (#[trigger] rows[i]).0 == u;
            assert(i < n - 1);
        }
    }
}

proof fn group_map_rows(rows: Seq<(Uuid, GroupRowView)>, n: nat, i: int)
    requires
        0 <= i < n <= rows.len(),
        distinct_groups(rows, n),
    ensures
        group_map(rows, n).contains_key(rows[i].0),
        group_map(rows, n)[rows[i].0] == rows[i].1,
    decreases n,
{
    if i < n - 1 {
        assert(rows[i].0 != rows[n - 1].0);
        group_map_rows(rows, (n - 1) as nat, i);
    }
}

proof fn stones_added_keys(
    before: Map<Uuid, Option<i64>>,
    deleted: Seq<DeletedObject>,
    n: nat,
    u: Uuid,
)
    requires
        n <= deleted.len(),
    ensures
        stones_added(before, deleted, n).contains_key(u) <==> before.contains_key(u) || exists|
            i: int,
        |
            0 <= i < n && (#[trigger] deleted[i]).uuid == u,
    decreases n,
{
    if n > 0 {
        stones_added_keys(before, deleted, (n - 1) as nat, u);
        if exists|i: int| 0 <= i < n && (#[trigger] deleted[i]).uuid == u {
            let i = choose|i: int| 0 <= i < n && (#[trigger] deleted[i]).uuid == u;
            if i < n - 1 {
                assert(0 <= i < n - 1 && deleted[i].uuid == u);
            }
        }
        if deleted[n - 1].uuid == u {
            assert(0 <= n - 1 < n && deleted[n - 1].uuid == u);
        }
    }
}

proof fn stored_keys(
    m: MirrorView,
    placed: Seq<Placed>,
    n: nat,
    fingerprint_key: Seq<u8>,
    binaries: Seq<Seq<u8>>,
    u: Uuid,
)
    requires
        n <= placed.len(),
    ensures
        stored(m, placed, n, fingerprint_key, binaries).groups == m.groups,
        stored(m, placed, n, fingerprint_key, binaries).tombstones == m.tombstones,
        stored(m, placed, n, fingerprint_key, binaries).entries.contains_key(u)
            <==> m.entries.contains_key(u) || exists|i: int|
            0 <= i < n && (#[trigger] placed[i]).entry.id == u,
    decreases n,
{
    if n > 0 {
        stored_keys(m, placed, (n - 1) as nat, fingerprint_key, binaries, u);
        if exists|i: int| 0 <= i < n && (#[trigger] placed[i]).entry.id == u {
            let i = choose|i: int| 0 <= i < n && (#[trigger] placed[i]).entry.id == u;
            if i < n - 1 {
                assert(0 <= i < n - 1 && placed[i].entry.id == u);
            }
        }
        if stored(m, placed, (n - 1) as nat, fingerprint_key, binaries).entries.contains_key(u)
            && !m.entries.contains_key(u) {
            let i = choose|i: int| 0 <= i < n - 1 && (#[trigger] placed[i]).entry.id == u;
            assert(0 <= i < n && placed[i].entry.id == u);
        }
        if placed[n - 1].entry.id == u {
            assert(0 <= n - 1 < n && placed[n - 1].entry.id == u);
        }
    }
}

proof fn stored_record(
    m: MirrorView,
    placed: Seq<Placed>,
    n: nat,
    fingerprint_key: Seq<u8>,
    binaries: Seq<Seq<u8>>,
    i: int,
)
    requires
        0 <= i < n <= placed.len(),
        distinct_entries(placed, n),
    ensures
        stored(m, placed, n, fingerprint_key, binaries).entries.contains_key(placed[i].entry.id),
        stored(m, placed, n, fingerprint_key, binaries).entries[placed[i].entry.id]
            == mirror::record_of(
            placed[i].entry.deep_view(),
            placed[i].group,
            placed[i].recycled,
            fingerprint_key,
            binaries,
        ),
    decreases n,
{
    if i < n - 1 {
        assert(placed[i].entry.id != placed[n - 1].entry.id);
        stored_record(m, placed, (n - 1) as nat, fingerprint_key, binaries, i);
    }
}

/// Every entry of a subtree lies in a group of that subtree.
proof fn placed_in_rows(
    g: &Group,
    parent: Option<Uuid>,
    sort_order: u32,
    bin: Option<Uuid>,
    under_bin: bool,
    i: int,
)
    requires
        0 <= i < vault::placed_entries(g, bin, under_bin).len(),
    ensures
        exists|j: int|
            0 <= j < mirror::group_rows(*g, parent, sort_order, bin).len() && (
            #[trigger] mirror::group_rows(*g, parent, sort_order, bin)[j]).0
                == vault::placed_entries(g, bin, under_bin)[i].group,
    decreases g, 0nat,
{
    let own = vault::own_entries(g, bin, under_bin);
    let rows = mirror::group_rows(*g, parent, sort_order, bin);
    let below = under_bin || vault::is_bin(bin, g.id);
    if i < own.len() {
        assert(vault::placed_entries(g, bin, under_bin)[i] == own[i]);
        assert(rows[0].0 == g.id);
    } else {
        let k = i - own.len();
        placed_in_subgroup_rows(g.groups@, g.groups@.len(), Some(g.id), bin, below, k);
        let sub = mirror::subgroup_rows(g.groups@, g.groups@.len(), Some(g.id), bin);
        let placed = vault::placed_in_subgroups(g.groups@, g.groups@.len(), bin, below);
        let j = choose|j: int| 0 <= j < sub.len() && (#[trigger] sub[j]).0 == placed[k].group;
        assert(rows[j + 1] == sub[j]);
        assert(vault::placed_entries(g, bin, under_bin)[i] == placed[k]);
    }
}

proof fn placed_in_subgroup_rows(
    gs: Seq<Group>,
    n: nat,
    parent: Option<Uuid>,
    bin: Option<Uuid>,
    under_bin: bool,
    i: int,
)
    requires
        n <= gs.len(),
        0 <= i < vault::placed_in_subgroups(gs, n, bin, under_bin).len(),
    ensures
        exists|j: int|
            0 <= j < mirror::subgroup_rows(gs, n, parent, bin).len() && (
            #[trigger] mirror::subgroup_rows(gs, n, parent, bin)[j]).0
                == vault::placed_in_subgroups(gs, n, bin, under_bin)[i].group,
    decreases gs, n,
{
    let before = vault::placed_in_subgroups(gs, (n - 1) as nat, bin, under_bin);
    let rows_before = mirror::subgroup_rows(gs, (n - 1) as nat, parent, bin);
    let rows = mirror::subgroup_rows(gs, n, parent, bin);
    if i < before.len() {
        placed_in_subgroup_rows(gs, (n - 1) as nat, parent, bin, under_bin, i);
        let j = choose|j: int|
            0 <= j < rows_before.len() && (#[trigger] rows_before[j]).0 == before[i].group;
        assert(rows[j] == rows_before[j]);
    } else {
        let k = i - before.len();
        let position = mirror::stored_position((n - 1) as nat);
        placed_in_rows(&gs[n - 1], parent, position, bin, under_bin, k);
        let last = mirror::group_rows(gs[n - 1], parent, position, bin);
        let placed = vault::placed_entries(&gs[n - 1], bin, under_bin);
        let j = choose|j: int| 0 <= j < last.len() && (#[trigger] last[j]).0 == placed[k].group;
        assert(rows[rows_before.len() + j] == last[j]);
    }
}

// ------------------------------------------------------------------- the pass

fn insert_groups(rows: Vec<(Uuid, GroupRow)>, into: &mut Mirror) -> (r: Result<
    Vec<Uuid>,
    EngineError,
>)
    requires
        old(into).groups@ == Map::<Uuid, GroupRow>::empty(),
    ensures
        match r {
            Ok(uuids) => {
                &&& distinct_groups(rows.deep_view(), rows@.len())
                &&& mirror::group_views(final(into).groups@) == group_map(
                    rows.deep_view(),
                    rows@.len(),
                )
                &&& *final(into) == (Mirror { groups: final(into).groups, ..*old(into) })
                &&& uuids@ == Seq::new(rows@.len(), |i: int| rows@[i].0)
            },
            Err(e) => rows::is_constraint(e) && !distinct_groups(rows.deep_view(), rows@.len()),
        },
{
    let ghost rv = rows.deep_view();
    let mut uuids: Vec<Uuid> = Vec::new();
    let mut i: usize = 0;
    proof {
        assert(mirror::group_views(into.groups@) =~= group_map(rv, 0));
    }
    while i < rows.len()
        invariant
            i <= rows.len(),
            rv == rows.deep_view(),
            rv.len() == rows@.len(),
            distinct_groups(rv, i as nat),
            mirror::group_views(into.groups@) == group_map(rv, i as nat),
            *into == (Mirror { groups: into.groups, ..*old(into) }),
            uuids@ == Seq::new(i as nat, |k: int| rows@[k].0),
        decreases rows.len() - i,
    {
        let (uuid, row) = &rows[i];
        proof {
            group_map_keys(rv, i as nat, *uuid);
            assert(rv[i as int] == (*uuid, row.deep_view()));
            assert(into.groups@.contains_key(*uuid) <==> mirror::group_views(
                into.groups@,
            ).contains_key(*uuid));
        }
        if into.groups.contains_key(uuid) {
            proof {
                let k = choose|k: int| 0 <= k < i && (#[trigger] rv[k]).0 == *uuid;
                assert(rv[k].0 == rv[i as int].0);
            }
            return Err(rows::constraint_error());
        }
        let copy = GroupRow {
            parent_uuid: row.parent_uuid,
            name: row.name.clone(),
            icon_index: row.icon_index,
            icon_custom_uuid: row.icon_custom_uuid,
            notes: row.notes.clone(),
            created_at: row.created_at,
            modified_at: row.modified_at,
            expires_at: row.expires_at,
            is_recycle_bin: row.is_recycle_bin,
            sort_order: row.sort_order,
        };
        let ghost before = into.groups@;
        into.groups.insert(*uuid, copy);
        uuids.push(*uuid);
        proof {
            assert(mirror::group_views(into.groups@) =~= mirror::group_views(before).insert(
                *uuid,
                row.deep_view(),
            ));
            assert(uuids@ =~= Seq::new((i + 1) as nat, |k: int| rows@[k].0));
        }
        i = i + 1;
    }
    Ok(uuids)
}

/// Inserts tombstones. One for an object that has one already collides.
pub fn write_deleted_objects(deleted: &Vec<DeletedObject>, into: &mut Mirror) -> (r: Result<
    (),
    EngineError,
>)
    ensures
        match r {
            Ok(()) => {
                &&& distinct_tombstones(deleted@, deleted@.len())
                &&& forall|i: int|
                    0 <= i < deleted@.len() ==> !old(into).tombstones@.contains_key(
                        (#[trigger] deleted@[i]).uuid,
                    )
                &&& final(into).tombstones@ == stones_added(
                    old(into).tombstones@,
                    deleted@,
                    deleted@.len(),
                )
                &&& *final(into) == (Mirror { tombstones: final(into).tombstones, ..*old(into) })
            },
            Err(e) => {
                &&& rows::is_constraint(e)
                &&& !distinct_tombstones(deleted@, deleted@.len()) || exists|i: int|
                    0 <= i < deleted@.len() && old(into).tombstones@.contains_key(
                        (#[trigger] deleted@[i]).uuid,
                    )
            },
        },
{
    let ghost before = into.tombstones@;
    let mut i: usize = 0;
    while i < deleted.len()
        invariant
            i <= deleted.len(),
            before == old(into).tombstones@,
            distinct_tombstones(deleted@, i as nat),
            forall|k: int| 0 <= k < i ==> !before.contains_key((#[trigger] deleted@[k]).uuid),
            into.tombstones@ == stones_added(before, deleted@, i as nat),
            *into == (Mirror { tombstones: into.tombstones, ..*old(into) }),
        decreases deleted.len() - i,
    {
        let uuid: Uuid = deleted[i].uuid;
        proof {
            stones_added_keys(before, deleted@, i as nat, uuid);
        }
        if into.tombstones.contains_key(&uuid) {
            proof {
                if !before.contains_key(uuid) {
                    let k = choose|k: int| 0 <= k < i && (#[trigger] deleted@[k]).uuid == uuid;
                    assert(deleted@[k].uuid == deleted@[i as int].uuid);
                }
                assert(deleted@[i as int].uuid == uuid);
            }
            return Err(rows::constraint_error());
        }
        into.tombstones.insert(uuid, time::optional_dt_to_ms(deleted[i].deleted_at));
        i = i + 1;
    }
    Ok(())
}

/// A failure to write a vault with `drawn` nonces at hand.
pub open spec fn ingest_refused(e: EngineError, v: &Vault, drawn: nat) -> bool {
    ||| rows::is_constraint(e) && !storable_vault(v)
    ||| rows::is_wrap_failure(e) && (!sealable_vault(v) || drawn < vault_seals(v))
}

proof fn nothing_is_sealed_yet(
    entries: Map<Uuid, EntryRecord>,
    placed: Seq<Placed>,
    drawn: Seq<[u8; 12]>,
)
    ensures
        sealed_in_turn(entries, placed, 0, drawn),
{
    reveal(sealed_in_turn);
}

fn insert_entries(
    v: &Vault,
    placed: &Vec<Placed>,
    fingerprint_key: &[u8; 32],
    session_key: &SessionKey,
    nonces: &mut NonceSource,
    into: &mut Mirror,
) -> (r: Result<Vec<Uuid>, EngineError>)
    requires
        placed@ == vault_entries(v),
        old(into).opened(session_key@) == without_entries(*v),
        old(into).wf(),
    ensures
        match r {
            Ok(uuids) => {
                &&& distinct_entries(placed@, placed@.len())
                &&& forall|i: int|
                    0 <= i < placed@.len() ==> mirror::storable(
                        (#[trigger] placed@[i]).entry.deep_view(),
                    )
                &&& final(into).opened(session_key@) == stored(
                    without_entries(*v),
                    placed@,
                    placed@.len(),
                    fingerprint_key@,
                    v.binaries.deep_view(),
                )
                &&& final(into).conflicts == old(into).conflicts
                &&& uuids@ == Seq::new(placed@.len(), |i: int| placed@[i].entry.id)
                &&& sealed_in_turn(
                    final(into).entries@,
                    placed@,
                    placed@.len(),
                    old(nonces).drawn@,
                )
                &&& final(nonces).drawn@ == crypto::left_of(old(nonces).drawn@, vault_seals(v))
            },
            Err(e) => ingest_refused(e, v, old(nonces).drawn@.len()),
        },
        crypto::spent(old(nonces).drawn@, final(nonces).drawn@),
{
    let ghost base = without_entries(*v);
    let ghost bins = v.binaries.deep_view();
    let ghost fk = fingerprint_key@;
    let ghost key = session_key@;
    let mut uuids: Vec<Uuid> = Vec::new();
    let mut i: usize = 0;
    proof {
        assert(nonces.drawn@ =~= crypto::left_of(nonces.drawn@, 0));
        assert(walk_seals(placed@, 0) == 0);
        assert(stored(base, placed@, 0, fk, bins) == base);
        nothing_is_sealed_yet(into.entries@, placed@, nonces.drawn@);
        assert(uuids@ =~= Seq::new(0, |k: int| placed@[k].entry.id));
    }
    while i < placed.len()
        invariant
            i <= placed.len(),
            placed@ == vault_entries(v),
            base == without_entries(*v),
            bins == v.binaries.deep_view(),
            fk == fingerprint_key@,
            key == session_key@,
            distinct_entries(placed@, i as nat),
            forall|k: int|
                0 <= k < i ==> mirror::storable((#[trigger] placed@[k]).entry.deep_view()),
            into.opened(key) == stored(base, placed@, i as nat, fk, bins),
            into.conflicts == old(into).conflicts,
            uuids@ == Seq::new(i as nat, |k: int| placed@[k].entry.id),
            sealed_in_turn(into.entries@, placed@, i as nat, old(nonces).drawn@),
            nonces.drawn@ == crypto::left_of(old(nonces).drawn@, walk_seals(placed@, i as nat)),
        decreases placed.len() - i,
    {
        broadcast use {crypto::spent_in_two, crypto::left_is_spent};

        let p = &placed[i];
        proof {
            crypto::left_in_two(
                old(nonces).drawn@,
                walk_seals(placed@, i as nat),
                mirror::entry_seals(p.entry.deep_view()),
            );
            walk_seals_grow(placed@, (i + 1) as nat, placed@.len());
            assert(placed@[i as int] == vault_entries(v)[i as int]);
        }
        let (record, blobs) = mirror::build_record(
            p.entry,
            p.group,
            p.recycled,
            fingerprint_key,
            session_key,
            nonces,
            &v.binaries,
        )?;
        let ghost before = *into;
        proof {
            stored_keys(base, placed@, i as nat, fk, bins, p.entry.id);
            placed_in_rows(&v.root, None, 0, v.meta.recycle_bin_uuid, false, i as int);
            let rows = vault_groups(*v);
            group_map_keys(rows, rows.len(), p.group);
            assert(before.opened(key).groups.contains_key(p.group));
            assert(before.groups@.contains_key(p.group));
            assert(before.entries@.contains_key(p.entry.id) <==> before.opened(
                key,
            ).entries.contains_key(p.entry.id));
            assert(record.opened(key).group_uuid == p.group);
        }
        match into.insert_entry(p.entry.id, record, blobs) {
            Ok(()) => {},
            Err(e) => {
                proof {
                    let k = choose|k: int|
                        0 <= k < i && (#[trigger] placed@[k]).entry.id == p.entry.id;
                    assert(!distinct_entries(placed@, placed@.len()));
                }
                return Err(e);
            },
        }
        uuids.push(p.entry.id);
        proof {
            turn_goes_on(before.entries@, placed@, i as int, record, old(nonces).drawn@);
            assert(into.opened(key) == mirror::with_entry(
                before.opened(key),
                p.entry.id,
                record.opened(key),
                blobs.deep_view(),
            ));
            assert(uuids@ =~= Seq::new((i + 1) as nat, |k: int| placed@[k].entry.id));
            assert(distinct_entries(placed@, (i + 1) as nat)) by {
                assert forall|a: int, b: int| 0 <= a < b < i + 1 implies (
                #[trigger] placed@[a]).entry.id != (#[trigger] placed@[b]).entry.id by {}
            }
        }
        i = i + 1;
    }
    proof {
        crypto::left_is_spent(old(nonces).drawn@, walk_seals(placed@, placed@.len()));
    }
    Ok(uuids)
}

/// Writes a vault in place of everything the tables held. With `header`, the
/// facts of the file's envelope are written too; without, those that are there
/// stay, for the envelope has not changed.
pub fn ingest_vault_with_header(
    mirror: &mut Mirror,
    tables: &mut MetaTables,
    fingerprint_key: &[u8; 32],
    session_key: &SessionKey,
    nonces: &mut NonceSource,
    vault: &Vault,
    header: Option<&HeaderFacts>,
) -> (r: Result<IngestOutcome, EngineError>)
    requires
        old(mirror).wf(),
        old(tables).wf(),
        meta::encodable(vault.meta.deep_view().unknown_xml),
    ensures
        final(mirror).wf(),
        final(tables).wf(),
        match r {
            Ok(outcome) => {
                &&& storable_vault(vault)
                &&& final(mirror).opened(session_key@) == ingested(
                    old(mirror).opened(session_key@),
                    vault,
                    fingerprint_key@,
                )
                &&& final(tables).settings@ == ingested_settings(
                    old(tables).settings@,
                    *vault,
                    match header {
                        Some(facts) => Some(*facts),
                        None => None,
                    },
                )
                &&& holds_meta(*final(tables), *vault)
                &&& outcome.group_uuids@ == Seq::new(
                    vault_groups(*vault).len(),
                    |i: int| vault_groups(*vault)[i].0,
                )
                &&& outcome.entry_uuids@ == Seq::new(
                    vault_entries(vault).len(),
                    |i: int| vault_entries(vault)[i].entry.id,
                )
                &&& sealed_in_turn(
                    final(mirror).entries@,
                    vault_entries(vault),
                    vault_entries(vault).len(),
                    old(nonces).drawn@,
                )
                &&& final(nonces).drawn@ == crypto::left_of(
                    old(nonces).drawn@,
                    vault_seals(vault),
                )
            },
            Err(e) => {
                &&& ingest_refused(e, vault, old(nonces).drawn@.len())
                &&& *final(mirror) == *old(mirror)
                &&& *final(tables) == *old(tables)
            },
        },
        crypto::spent(old(nonces).drawn@, final(nonces).drawn@),
{
    broadcast use {crypto::spent_in_two, crypto::left_is_spent};

    proof {
        crypto::left_in_two(nonces.drawn@, 0, 0);
    }
    let keep_envelope: bool = header.is_none();
    let mut fresh_tables = tables.cleared_copy(keep_envelope);
    fresh_tables.write_meta(&vault.meta)?;
    let mut fresh = Mirror::new();
    write_deleted_objects(&vault.deleted_objects, &mut fresh)?;
    match header {
        Some(facts) => {
            properties::write_kdbx_outer_header_facts(&mut fresh_tables.settings, facts);
        },
        None => {},
    }
    properties::write_recycle_bin_enabled(
        &mut fresh_tables.settings,
        vault.meta.recycle_bin_enabled,
    );
    let group_rows = mirror::build_groups(&vault.root, vault.meta.recycle_bin_uuid);
    let group_uuids = insert_groups(group_rows, &mut fresh)?;
    let placed = vault::collect_placed(&vault.root, vault.meta.recycle_bin_uuid);
    let ghost key = session_key@;
    proof {
        assert(fresh.opened(key) =~= without_entries(*vault)) by {
            assert(mirror::opened_entries(fresh.entries@, key) =~= Map::empty());
            assert(fresh.tags.deep_view() =~= Seq::empty());
            assert(fresh.blobs.deep_view() =~= Seq::empty());
            assert(fresh.conflicts.opened(key) =~= Map::empty());
        }
    }
    let entry_uuids = insert_entries(
        vault,
        &placed,
        fingerprint_key,
        session_key,
        nonces,
        &mut fresh,
    )?;
    std::mem::swap(&mut mirror.conflicts, &mut fresh.conflicts);
    *mirror = fresh;
    *tables = fresh_tables;
    Ok(IngestOutcome { group_uuids, entry_uuids })
}

/// Writes a vault that was read from a file, with the facts of its envelope.
pub fn ingest(
    mirror: &mut Mirror,
    tables: &mut MetaTables,
    fingerprint_key: &[u8; 32],
    session_key: &SessionKey,
    nonces: &mut NonceSource,
    vault: &Vault,
    header: &HeaderFacts,
) -> (r: Result<IngestOutcome, EngineError>)
    requires
        old(mirror).wf(),
        old(tables).wf(),
        meta::encodable(vault.meta.deep_view().unknown_xml),
    ensures
        final(mirror).wf(),
        final(tables).wf(),
        match r {
            Ok(outcome) => {
                &&& storable_vault(vault)
                &&& final(mirror).opened(session_key@) == ingested(
                    old(mirror).opened(session_key@),
                    vault,
                    fingerprint_key@,
                )
                &&& final(tables).settings@ == ingested_settings(
                    old(tables).settings@,
                    *vault,
                    Some(*header),
                )
                &&& holds_meta(*final(tables), *vault)
                &&& outcome.group_uuids@ == Seq::new(
                    vault_groups(*vault).len(),
                    |i: int| vault_groups(*vault)[i].0,
                )
                &&& outcome.entry_uuids@ == Seq::new(
                    vault_entries(vault).len(),
                    |i: int| vault_entries(vault)[i].entry.id,
                )
                &&& sealed_in_turn(
                    final(mirror).entries@,
                    vault_entries(vault),
                    vault_entries(vault).len(),
                    old(nonces).drawn@,
                )
                &&& final(nonces).drawn@ == crypto::left_of(
                    old(nonces).drawn@,
                    vault_seals(vault),
                )
            },
            Err(e) => {
                &&& ingest_refused(e, vault, old(nonces).drawn@.len())
                &&& *final(mirror) == *old(mirror)
                &&& *final(tables) == *old(tables)
            },
        },
        crypto::spent(old(nonces).drawn@, final(nonces).drawn@),
{
    ingest_vault_with_header(
        mirror,
        tables,
        fingerprint_key,
        session_key,
        nonces,
        vault,
        Some(header),
    )
}

/// Writes a vault whose file has not changed: the facts of the envelope stay
/// as they are.
pub fn ingest_vault(
    mirror: &mut Mirror,
    tables: &mut MetaTables,
    fingerprint_key: &[u8; 32],
    session_key: &SessionKey,
    nonces: &mut NonceSource,
    vault: &Vault,
) -> (r: Result<IngestOutcome, EngineError>)
    requires
        old(mirror).wf(),
        old(tables).wf(),
        meta::encodable(vault.meta.deep_view().unknown_xml),
    ensures
        final(mirror).wf(),
        final(tables).wf(),
        match r {
            Ok(outcome) => {
                &&& storable_vault(vault)
                &&& final(mirror).opened(session_key@) == ingested(
                    old(mirror).opened(session_key@),
                    vault,
                    fingerprint_key@,
                )
                &&& final(tables).settings@ == ingested_settings(
                    old(tables).settings@,
                    *vault,
                    None,
                )
                &&& holds_meta(*final(tables), *vault)
                &&& outcome.group_uuids@ == Seq::new(
                    vault_groups(*vault).len(),
                    |i: int| vault_groups(*vault)[i].0,
                )
                &&& outcome.entry_uuids@ == Seq::new(
                    vault_entries(vault).len(),
                    |i: int| vault_entries(vault)[i].entry.id,
                )
                &&& sealed_in_turn(
                    final(mirror).entries@,
                    vault_entries(vault),
                    vault_entries(vault).len(),
                    old(nonces).drawn@,
                )
                &&& final(nonces).drawn@ == crypto::left_of(
                    old(nonces).drawn@,
                    vault_seals(vault),
                )
            },
            Err(e) => {
                &&& ingest_refused(e, vault, old(nonces).drawn@.len())
                &&& *final(mirror) == *old(mirror)
                &&& *final(tables) == *old(tables)
            },
        },
        crypto::spent(old(nonces).drawn@, final(nonces).drawn@),
{
    ingest_vault_with_header(
        mirror,
        tables,
        fingerprint_key,
        session_key,
        nonces,
        vault,
        None,
    )
}

// ------------------------------------------------------------------------ laws

/// No two blobs of a pass are alike, be what they hold the same or not: with
/// enough distinct nonces drawn, the `a`-th blob of the `i`-th entry differs from
/// the `b`-th blob of the `j`-th, unless the two are one.
pub proof fn written_blobs_differ(
    entries: Map<Uuid, EntryRecord>,
    v: &Vault,
    drawn: Seq<[u8; 12]>,
    i: int,
    a: int,
    j: int,
    b: int,
)
    requires
        sealed_in_turn(entries, vault_entries(v), vault_entries(v).len(), drawn),
        crypto::distinct_nonces(drawn),
        vault_seals(v) <= drawn.len(),
        0 <= i < vault_entries(v).len(),
        0 <= j < vault_entries(v).len(),
        0 <= a < mirror::entry_blobs(entries[vault_entries(v)[i].entry.id]).len(),
        0 <= b < mirror::entry_blobs(entries[vault_entries(v)[j].entry.id]).len(),
        i != j || a != b,
    ensures
        mirror::entry_blobs(entries[vault_entries(v)[i].entry.id])[a] != mirror::entry_blobs(
            entries[vault_entries(v)[j].entry.id],
        )[b],
{
    let placed = vault_entries(v);
    let x = walk_seals(placed, i as nat);
    let y = walk_seals(placed, j as nat);
    let one = entries[placed[i].entry.id];
    let other = entries[placed[j].entry.id];
    reveal(sealed_in_turn);
    assert(mirror::sealed_with(
        one,
        crypto::left_of(drawn, x),
        mirror::entry_seals(placed[i].entry.deep_view()),
    ));
    assert(mirror::sealed_with(
        other,
        crypto::left_of(drawn, y),
        mirror::entry_seals(placed[j].entry.deep_view()),
    ));
    walk_seals_grow(placed, (i + 1) as nat, placed.len());
    walk_seals_grow(placed, (j + 1) as nat, placed.len());
    if i < j {
        walk_seals_grow(placed, (i + 1) as nat, j as nat);
    } else if j < i {
        walk_seals_grow(placed, (j + 1) as nat, i as nat);
    }
    crypto::blobs_differ(
        mirror::entry_blobs(one),
        mirror::entry_blobs(other),
        drawn,
        x,
        y,
        a,
        b,
    );
}

/// The outcome does not depend on what the tables held: apart from held
/// conflicts, two mirrors that a vault was written into agree.
pub proof fn earlier_contents_do_not_matter(
    a: MirrorView,
    b: MirrorView,
    v: &Vault,
    fingerprint_key: Seq<u8>,
)
    ensures
        ingested(a, v, fingerprint_key) == (MirrorView {
            conflicts: a.conflicts,
            ..ingested(b, v, fingerprint_key)
        }),
{
}

/// What writing metadata leaves under a key: what the metadata has where it covers
/// the key, and what was there before where it does not.
pub proof fn written_at(
    a: Map<SettingKey, Seq<u8>>,
    b: Map<SettingKey, Seq<u8>>,
    v: meta::MetaView,
    key: SettingKey,
)
    ensures
        meta_tables::outlasts(key, true) ==> meta_tables::written(a, v).contains_key(key)
            == a.contains_key(key) && meta_tables::written(a, v)[key] == a[key],
        !meta_tables::outlasts(key, true) ==> meta_tables::written(a, v).contains_key(key)
            == meta_tables::written(b, v).contains_key(key),
        !meta_tables::outlasts(key, true) && meta_tables::written(a, v).contains_key(key)
            ==> meta_tables::written(a, v)[key] == meta_tables::written(b, v)[key],
{
    reveal(meta_tables::written);
}

proof fn enveloped_again(
    w1: Map<SettingKey, Seq<u8>>,
    w2: Map<SettingKey, Seq<u8>>,
    first: Map<SettingKey, Seq<u8>>,
    second: Map<SettingKey, Seq<u8>>,
    header: Option<HeaderFacts>,
    bin_enabled: bool,
    key: SettingKey,
)
    requires
        second == meta_tables::cleared(enveloped(w1, header, bin_enabled), header is None),
        meta_tables::outlasts(key, true) ==> w1.contains_key(key) == first.contains_key(key)
            && w1[key] == first[key],
        meta_tables::outlasts(key, true) ==> w2.contains_key(key) == second.contains_key(key)
            && w2[key] == second[key],
        !meta_tables::outlasts(key, true) ==> w1.contains_key(key) == w2.contains_key(key),
        !meta_tables::outlasts(key, true) && w1.contains_key(key) ==> w1[key] == w2[key],
    ensures
        enveloped(w2, header, bin_enabled).contains_key(key) == enveloped(
            w1,
            header,
            bin_enabled,
        ).contains_key(key),
        enveloped(w1, header, bin_enabled).contains_key(key) ==> enveloped(
            w2,
            header,
            bin_enabled,
        )[key] == enveloped(w1, header, bin_enabled)[key],
{
}

proof fn setting_written_again(
    settings: Map<SettingKey, Seq<u8>>,
    v: Vault,
    header: Option<HeaderFacts>,
    key: SettingKey,
)
    ensures
        ({
            let once = ingested_settings(settings, v, header);
            let again = ingested_settings(once, v, header);
            again.contains_key(key) == once.contains_key(key) && (once.contains_key(key)
                ==> again[key] == once[key])
        }),
{
    let m = v.meta.deep_view();
    let once = ingested_settings(settings, v, header);
    let first = meta_tables::cleared(settings, header is None);
    let second = meta_tables::cleared(once, header is None);
    assert(second.contains_key(key) == (once.contains_key(key) && meta_tables::outlasts(
        key,
        header is None,
    )));
    let w1 = meta_tables::written(first, m);
    let w2 = meta_tables::written(second, m);
    assert({
        &&& meta_tables::outlasts(key, true) ==> w1.contains_key(key) == first.contains_key(key)
            && w1[key] == first[key]
        &&& meta_tables::outlasts(key, true) ==> w2.contains_key(key) == second.contains_key(key)
            && w2[key] == second[key]
        &&& !meta_tables::outlasts(key, true) ==> w1.contains_key(key) == w2.contains_key(key)
        &&& !meta_tables::outlasts(key, true) && w1.contains_key(key) ==> w1[key] == w2[key]
    }) by {
        written_at(first, second, m, key);
        written_at(second, first, m, key);
    }
    assert(once == enveloped(w1, header, v.meta.recycle_bin_enabled));
    enveloped_again(w1, w2, first, second, header, v.meta.recycle_bin_enabled, key);
}

/// Writing a vault twice is writing it once.
pub proof fn writing_again_changes_nothing(
    m: MirrorView,
    settings: Map<SettingKey, Seq<u8>>,
    v: &Vault,
    header: Option<HeaderFacts>,
    fingerprint_key: Seq<u8>,
)
    ensures
        ingested(ingested(m, v, fingerprint_key), v, fingerprint_key) == ingested(
            m,
            v,
            fingerprint_key,
        ),
        ingested_settings(ingested_settings(settings, *v, header), *v, header)
            == ingested_settings(settings, *v, header),
{
    let once = ingested_settings(settings, *v, header);
    let again = ingested_settings(once, *v, header);
    assert forall|key: SettingKey|
        #[trigger] again.contains_key(key) == once.contains_key(key) && (once.contains_key(key)
            ==> again[key] == once[key]) by {
        setting_written_again(settings, *v, header, key);
    }
    assert(again =~= once);
}

/// Settings that are not metadata survive: the fingerprint key and the file as
/// last written.
pub proof fn other_settings_survive(
    settings: Map<SettingKey, Seq<u8>>,
    v: Vault,
    header: Option<HeaderFacts>,
    key: SettingKey,
)
    requires
        key is FingerprintKey || key is LastSavedKdbxBytes,
    ensures
        ingested_settings(settings, v, header).contains_key(key) == settings.contains_key(key),
        settings.contains_key(key) ==> ingested_settings(settings, v, header)[key] == settings[key],
{
    let m = meta_tables::cleared(settings, header is None);
    written_at(m, m, v.meta.deep_view(), key);
}

/// Where no facts of the envelope are given, those that were there stay.
pub proof fn envelope_facts_stay(settings: Map<SettingKey, Seq<u8>>, v: Vault, key: SettingKey)
    requires
        meta_tables::is_envelope(key),
    ensures
        ingested_settings(settings, v, None).contains_key(key) == settings.contains_key(key),
        settings.contains_key(key) ==> ingested_settings(settings, v, None)[key] == settings[key],
{
    let m = meta_tables::cleared(settings, true);
    written_at(m, m, v.meta.deep_view(), key);
}

/// The mirror holds exactly the vault's entries, each with the rows it gives.
pub proof fn mirror_holds_the_entries(
    m: MirrorView,
    v: &Vault,
    fingerprint_key: Seq<u8>,
    u: Uuid,
)
    requires
        storable_vault(v),
    ensures
        ingested(m, v, fingerprint_key).entries.contains_key(u) <==> exists|i: int|
            0 <= i < vault_entries(v).len() && (#[trigger] vault_entries(v)[i]).entry.id == u,
        forall|i: int|
            0 <= i < vault_entries(v).len() ==> ingested(
                m,
                v,
                fingerprint_key,
            ).entries[(#[trigger] vault_entries(v)[i]).entry.id] == mirror::record_of(
                vault_entries(v)[i].entry.deep_view(),
                vault_entries(v)[i].group,
                vault_entries(v)[i].recycled,
                fingerprint_key,
                v.binaries.deep_view(),
            ),
{
    let placed = vault_entries(v);
    let bins = v.binaries.deep_view();
    stored_keys(without_entries(*v), placed, placed.len(), fingerprint_key, bins, u);
    assert forall|i: int| 0 <= i < placed.len() implies ingested(
        m,
        v,
        fingerprint_key,
    ).entries[(#[trigger] placed[i]).entry.id] == mirror::record_of(
        placed[i].entry.deep_view(),
        placed[i].group,
        placed[i].recycled,
        fingerprint_key,
        bins,
    ) by {
        stored_record(without_entries(*v), placed, placed.len(), fingerprint_key, bins, i);
    }
}

/// The mirror holds exactly the vault's groups, each with its row.
pub proof fn mirror_holds_the_groups(
    m: MirrorView,
    v: &Vault,
    fingerprint_key: Seq<u8>,
    u: Uuid,
)
    requires
        storable_vault(v),
    ensures
        ingested(m, v, fingerprint_key).groups.contains_key(u) <==> exists|i: int|
            0 <= i < vault_groups(*v).len() && (#[trigger] vault_groups(*v)[i]).0 == u,
        forall|i: int|
            0 <= i < vault_groups(*v).len() ==> ingested(
                m,
                v,
                fingerprint_key,
            ).groups[(#[trigger] vault_groups(*v)[i]).0] == vault_groups(*v)[i].1,
{
    let rows = vault_groups(*v);
    let placed = vault_entries(v);
    stored_keys(
        without_entries(*v),
        placed,
        placed.len(),
        fingerprint_key,
        v.binaries.deep_view(),
        u,
    );
    group_map_keys(rows, rows.len(), u);
    assert forall|i: int| 0 <= i < rows.len() implies ingested(
        m,
        v,
        fingerprint_key,
    ).groups[(#[trigger] rows[i]).0] == rows[i].1 by {
        group_map_rows(rows, rows.len(), i);
    }
}

/// Every entry in the mirror lies in a group that the mirror holds.
pub proof fn no_entry_without_its_group(
    m: MirrorView,
    v: &Vault,
    fingerprint_key: Seq<u8>,
    u: Uuid,
)
    requires
        storable_vault(v),
        ingested(m, v, fingerprint_key).entries.contains_key(u),
    ensures
        ingested(m, v, fingerprint_key).groups.contains_key(
            ingested(m, v, fingerprint_key).entries[u].group_uuid,
        ),
{
    mirror_holds_the_entries(m, v, fingerprint_key, u);
    let placed = vault_entries(v);
    let i = choose|i: int| 0 <= i < placed.len() && (#[trigger] placed[i]).entry.id == u;
    placed_in_rows(&v.root, None, 0, v.meta.recycle_bin_uuid, false, i);
    mirror_holds_the_groups(m, v, fingerprint_key, placed[i].group);
}

/// A group's row says that it is the recycle bin just where the metadata names
/// it, so a vault has one bin at most.
pub proof fn one_recycle_bin(
    g: Group,
    parent: Option<Uuid>,
    sort_order: u32,
    bin: Option<Uuid>,
    i: int,
)
    requires
        0 <= i < mirror::group_rows(g, parent, sort_order, bin).len(),
    ensures
        mirror::group_rows(g, parent, sort_order, bin)[i].1.is_recycle_bin <==> bin == Some(
            mirror::group_rows(g, parent, sort_order, bin)[i].0,
        ),
    decreases g, 0nat,
{
    if i > 0 {
        let sub = mirror::subgroup_rows(g.groups@, g.groups@.len(), Some(g.id), bin);
        assert(mirror::group_rows(g, parent, sort_order, bin)[i] == sub[i - 1]);
        one_recycle_bin_below(g.groups@, g.groups@.len(), Some(g.id), bin, i - 1);
    }
}

proof fn one_recycle_bin_below(
    gs: Seq<Group>,
    n: nat,
    parent: Option<Uuid>,
    bin: Option<Uuid>,
    i: int,
)
    requires
        n <= gs.len(),
        0 <= i < mirror::subgroup_rows(gs, n, parent, bin).len(),
    ensures
        mirror::subgroup_rows(gs, n, parent, bin)[i].1.is_recycle_bin <==> bin == Some(
            mirror::subgroup_rows(gs, n, parent, bin)[i].0,
        ),
    decreases gs, n,
{
    let before = mirror::subgroup_rows(gs, (n - 1) as nat, parent, bin);
    if i < before.len() {
        one_recycle_bin_below(gs, (n - 1) as nat, parent, bin, i);
    } else {
        one_recycle_bin(
            gs[n - 1],
            parent,
            mirror::stored_position((n - 1) as nat),
            bin,
            i - before.len(),
        );
    }
}

} // verus!
