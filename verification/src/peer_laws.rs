//! What holds of every pull from another device.

use vstd::prelude::*;

use crate::codec::Uuid;
use crate::conflict_rows;
use crate::conflict_rows::ConflictRecord;
use crate::crypto;
use crate::mirror::{EntryRecord, MirrorView};
use crate::peer;
use crate::peer::{
    after_action, after_deletes, after_entries, after_tombstones, action_for, brought_by, cleared,
    conflict_action, is_dropped, is_live, parked, pull_result, pull_seals, pulled_in_turn,
    tombstone_of, ClassificationView, PeerAction, PeerFault, PeerState, Pull,
};
use crate::time;
use crate::time::Timestamp;
use crate::vault::{DeletedObject, EntryView};

verus! {

// ---------------------------------------------------------------- one entry at a time

/// The state after the first `n` entries, where the walk got so far.
pub open spec fn walked(p: Pull, m: MirrorView, n: nat) -> PeerState {
    after_entries(p, m, n)->Ok_0
}

/// One step of the walk.
pub proof fn walk_step(p: Pull, m: MirrorView, n: nat)
    requires
        n > 0,
        after_entries(p, m, n) is Ok,
    ensures
        after_entries(p, m, (n - 1) as nat) is Ok,
        after_action(
            walked(p, m, (n - 1) as nat),
            p,
            p.peer[n - 1].0,
            p.peer[n - 1].1,
            action_for(p, n - 1),
        ) == Ok::<PeerState, PeerFault>(walked(p, m, n)),
{
}

/// What one action leaves alone.
proof fn step_frame(s: PeerState, p: Pull, parent: Uuid, e: EntryView, a: PeerAction, t: PeerState)
    requires
        after_action(s, p, parent, e, a) == Ok::<PeerState, PeerFault>(t),
    ensures
        t.tables.groups == s.tables.groups,
        t.outcome.deleted == s.outcome.deleted,
        forall|o: Seq<char>, id: Uuid|
            o != p.owner ==> #[trigger] t.tables.conflicts.contains_key((o, id))
                == s.tables.conflicts.contains_key((o, id)),
        forall|o: Seq<char>, id: Uuid|
            o != p.owner ==> #[trigger] t.tables.conflicts[(o, id)] == s.tables.conflicts[(o, id)],
        a is Add ==> t.outcome.added == s.outcome.added.push(e.id) && t.tables.entries.dom()
            == s.tables.entries.dom().insert(e.id) && !s.tables.entries.contains_key(e.id),
        a !is Add ==> t.outcome.added == s.outcome.added && t.tables.entries.dom()
            == s.tables.entries.dom() && t.tables.tombstones == s.tables.tombstones,
        a is Add ==> t.tables.tombstones == s.tables.tombstones.remove(e.id),
        a is Advance || a is Adopt ==> t.outcome.auto_merged == s.outcome.auto_merged.push(e.id),
        !(a is Advance || a is Adopt) ==> t.outcome.auto_merged == s.outcome.auto_merged,
        !(a is Advance || a is Adopt || a is Add) ==> t.tables.entries == s.tables.entries
            && t.tables.tags == s.tables.tags && t.tables.blobs == s.tables.blobs,
{
    reveal(after_action);
    match a {
        PeerAction::Add => {
            assert(t.tables.entries.dom() =~= s.tables.entries.dom().insert(e.id));
        },
        PeerAction::Advance(merged) => {
            assert(t.tables.entries.dom() =~= s.tables.entries.dom());
        },
        PeerAction::Adopt(remote) => {
            assert(t.tables.entries.dom() =~= s.tables.entries.dom());
        },
        _ => {},
    }
}

/// What the deletions leave alone.
pub proof fn deletes_frame(p: Pull, s: PeerState, n: nat)
    ensures
        ({
            let t = after_deletes(p, s, n);
            &&& t.tables.groups == s.tables.groups
            &&& t.tables.blobs == s.tables.blobs
            &&& t.tables.conflicts == s.tables.conflicts
            &&& t.tables.tombstones == s.tables.tombstones
            &&& t.outcome.added == s.outcome.added
            &&& t.outcome.auto_merged == s.outcome.auto_merged
            &&& t.outcome.conflicted == s.outcome.conflicted
            &&& t.outcome.in_sync == s.outcome.in_sync
            &&& t.outcome.deleted.len() >= s.outcome.deleted.len()
            &&& t.outcome.deleted.len() == s.outcome.deleted.len() ==> t == s
        }),
    decreases n,
{
    if n > 0 {
        deletes_frame(p, s, (n - 1) as nat);
    }
}

/// What merging tombstones in leaves alone.
pub proof fn tombstones_frame(list: Seq<DeletedObject>, m: MirrorView, n: nat)
    ensures
        after_tombstones(list, m, n) == (MirrorView {
            tombstones: after_tombstones(list, m, n).tombstones,
            ..m
        }),
    decreases n,
{
    if n > 0 {
        tombstones_frame(list, m, (n - 1) as nat);
    }
}

// ------------------------------------------------------------------------ frame laws

proof fn walk_keeps_groups(p: Pull, m: MirrorView, n: nat)
    requires
        after_entries(p, m, n) is Ok,
    ensures
        walked(p, m, n).tables.groups == m.groups,
        walked(p, m, n).outcome.deleted.len() == 0,
    decreases n,
{
    if n > 0 {
        walk_step(p, m, n);
        walk_keeps_groups(p, m, (n - 1) as nat);
        step_frame(
            walked(p, m, (n - 1) as nat),
            p,
            p.peer[n - 1].0,
            p.peer[n - 1].1,
            action_for(p, n - 1),
            walked(p, m, n),
        );
    }
}

/// A pull never touches the groups.
pub proof fn pull_keeps_groups(p: Pull, m: MirrorView)
    requires
        pull_result(p, m) is Ok,
    ensures
        pull_result(p, m)->Ok_0.tables.groups == m.groups,
{
    let n = p.peer.len();
    walk_keeps_groups(p, m, n);
    deletes_frame(p, walked(p, m, n), p.local.len());
    tombstones_frame(
        p.peer_tombstones,
        after_deletes(p, walked(p, m, n), p.local.len()).tables,
        p.peer_tombstones.len(),
    );
}

proof fn walk_leaves_other_owners(p: Pull, m: MirrorView, n: nat, o: Seq<char>, id: Uuid)
    requires
        after_entries(p, m, n) is Ok,
        o != p.owner,
    ensures
        walked(p, m, n).tables.conflicts.contains_key((o, id)) == m.conflicts.contains_key((o, id)),
        walked(p, m, n).tables.conflicts[(o, id)] == m.conflicts[(o, id)],
    decreases n,
{
    if n > 0 {
        walk_step(p, m, n);
        walk_leaves_other_owners(p, m, (n - 1) as nat, o, id);
        step_frame(
            walked(p, m, (n - 1) as nat),
            p,
            p.peer[n - 1].0,
            p.peer[n - 1].1,
            action_for(p, n - 1),
            walked(p, m, n),
        );
    }
}

/// Devices have separate rows: a pull from one leaves every other device's held
/// values as they are.
pub proof fn pull_leaves_other_owners(p: Pull, m: MirrorView, o: Seq<char>, id: Uuid)
    requires
        pull_result(p, m) is Ok,
        o != p.owner,
    ensures
        ({
            let after = pull_result(p, m)->Ok_0.tables.conflicts;
            &&& after.contains_key((o, id)) == m.conflicts.contains_key((o, id))
            &&& after[(o, id)] == m.conflicts[(o, id)]
        }),
{
    let n = p.peer.len();
    walk_leaves_other_owners(p, m, n, o, id);
    deletes_frame(p, walked(p, m, n), p.local.len());
    tombstones_frame(
        p.peer_tombstones,
        after_deletes(p, walked(p, m, n), p.local.len()).tables,
        p.peer_tombstones.len(),
    );
}

proof fn idle_walk_changes_nothing(p: Pull, m: MirrorView, n: nat)
    requires
        after_entries(p, m, n) is Ok,
    ensures
        ({
            let s = walked(p, m, n);
            s.outcome.added.len() == 0 && s.outcome.auto_merged.len() == 0 ==> {
                &&& s.tables.entries == m.entries
                &&& s.tables.tags == m.tags
                &&& s.tables.blobs == m.blobs
                &&& s.tables.tombstones == m.tombstones
            }
        }),
    decreases n,
{
    if n > 0 {
        walk_step(p, m, n);
        idle_walk_changes_nothing(p, m, (n - 1) as nat);
        step_frame(
            walked(p, m, (n - 1) as nat),
            p,
            p.peer[n - 1].0,
            p.peer[n - 1].1,
            action_for(p, n - 1),
            walked(p, m, n),
        );
    }
}

/// When the outcome names nothing added, merged or deleted, the vault's live
/// content is as before and need not be saved: agreement and held conflicts
/// alone never cause a write that would echo back to the device.
pub proof fn nothing_to_save_means_nothing_changed(p: Pull, m: MirrorView)
    requires
        pull_result(p, m) is Ok,
        pull_result(p, m)->Ok_0.outcome.added.len() == 0,
        pull_result(p, m)->Ok_0.outcome.auto_merged.len() == 0,
        pull_result(p, m)->Ok_0.outcome.deleted.len() == 0,
    ensures
        ({
            let t = pull_result(p, m)->Ok_0.tables;
            &&& t.entries == m.entries
            &&& t.groups == m.groups
            &&& t.tags == m.tags
            &&& t.blobs == m.blobs
        }),
{
    let n = p.peer.len();
    let s = walked(p, m, n);
    idle_walk_changes_nothing(p, m, n);
    walk_keeps_groups(p, m, n);
    deletes_frame(p, s, p.local.len());
    tombstones_frame(
        p.peer_tombstones,
        after_deletes(p, s, p.local.len()).tables,
        p.peer_tombstones.len(),
    );
}

// ---------------------------------------------------------- appearing and disappearing

proof fn entries_appear_by_adding(p: Pull, m: MirrorView, n: nat, id: Uuid)
    requires
        after_entries(p, m, n) is Ok,
        n <= p.peer.len(),
    ensures
        m.entries.contains_key(id) ==> walked(p, m, n).tables.entries.contains_key(id),
        walked(p, m, n).tables.entries.contains_key(id) && !m.entries.contains_key(id) ==> exists|
            i: int,
        |
            0 <= i < n && #[trigger] action_for(p, i) is Add && p.peer[i].1.id == id,
    decreases n,
{
    if n > 0 {
        walk_step(p, m, n);
        entries_appear_by_adding(p, m, (n - 1) as nat, id);
        step_frame(
            walked(p, m, (n - 1) as nat),
            p,
            p.peer[n - 1].0,
            p.peer[n - 1].1,
            action_for(p, n - 1),
            walked(p, m, n),
        );
        let before = walked(p, m, (n - 1) as nat).tables.entries;
        let after = walked(p, m, n).tables.entries;
        assert(after.dom().contains(id) == after.contains_key(id));
        assert(before.dom().contains(id) == before.contains_key(id));
    }
}

proof fn entries_vanish_by_deletion(p: Pull, s: PeerState, n: nat, id: Uuid)
    requires
        n <= p.local.len(),
    ensures
        after_deletes(p, s, n).tables.entries.contains_key(id) ==> s.tables.entries.contains_key(
            id,
        ),
        s.tables.entries.contains_key(id) && !after_deletes(p, s, n).tables.entries.contains_key(id)
            ==> exists|i: int| 0 <= i < n && #[trigger] is_dropped(p, i) && p.local[i].1.id == id,
    decreases n,
{
    if n > 0 {
        entries_vanish_by_deletion(p, s, (n - 1) as nat, id);
        if is_dropped(p, n - 1) && p.local[n - 1].1.id == id {
            assert(is_dropped(p, n - 1));
        }
    }
}

/// An entry appears only by being taken over from the device: one that we
/// deleted at least as recently as the device changed it stays deleted.
pub proof fn entry_appears_only_by_adding(p: Pull, m: MirrorView, id: Uuid)
    requires
        pull_result(p, m) is Ok,
        pull_result(p, m)->Ok_0.tables.entries.contains_key(id),
        !m.entries.contains_key(id),
    ensures
        exists|i: int|
            0 <= i < p.peer.len() && #[trigger] action_for(p, i) is Add && p.peer[i].1.id == id,
{
    let n = p.peer.len();
    let s = walked(p, m, n);
    tombstones_frame(
        p.peer_tombstones,
        after_deletes(p, s, p.local.len()).tables,
        p.peer_tombstones.len(),
    );
    entries_vanish_by_deletion(p, s, p.local.len(), id);
    entries_appear_by_adding(p, m, n, id);
}

/// An entry disappears only by the device's deletion: one that the device never
/// had, or that we edited after the device deleted it, stays.
pub proof fn entry_vanishes_only_by_deletion(p: Pull, m: MirrorView, id: Uuid)
    requires
        pull_result(p, m) is Ok,
        m.entries.contains_key(id),
        !pull_result(p, m)->Ok_0.tables.entries.contains_key(id),
    ensures
        exists|i: int|
            0 <= i < p.local.len() && #[trigger] is_dropped(p, i) && p.local[i].1.id == id,
{
    let n = p.peer.len();
    let s = walked(p, m, n);
    tombstones_frame(
        p.peer_tombstones,
        after_deletes(p, s, p.local.len()).tables,
        p.peer_tombstones.len(),
    );
    entries_appear_by_adding(p, m, n, id);
    entries_vanish_by_deletion(p, s, p.local.len(), id);
}

proof fn deleted_entries_are_gone(p: Pull, s: PeerState, n: nat, k: int)
    requires
        n <= p.local.len(),
        s.outcome.deleted.len() <= k < after_deletes(p, s, n).outcome.deleted.len(),
    ensures
        ({
            let t = after_deletes(p, s, n);
            let id = t.outcome.deleted[k];
            &&& !t.tables.entries.contains_key(id)
            &&& tombstone_of(p.peer_tombstones, id) is Some
        }),
    decreases n,
{
    if n > 0 {
        let before = after_deletes(p, s, (n - 1) as nat);
        if k < before.outcome.deleted.len() {
            deleted_entries_are_gone(p, s, (n - 1) as nat, k);
        }
    } else {
        deletes_frame(p, s, 0);
    }
}

/// A tombstone that was merged in for what is not live is there.
pub proof fn merged_tombstones_are_there(list: Seq<DeletedObject>, m: MirrorView, n: nat, id: Uuid)
    requires
        n <= list.len(),
    ensures
        m.tombstones.contains_key(id) ==> after_tombstones(list, m, n).tombstones.contains_key(id),
        (exists|i: int| 0 <= i < n && (#[trigger] list[i]).uuid == id) && !is_live(m, id) ==> {
            let t = after_tombstones(list, m, n).tombstones;
            let incoming = time::optional_millis(tombstone_of(list, id)->0);
            &&& t.contains_key(id)
            &&& t[id] == (if m.tombstones.contains_key(id) {
                time::earliest_millis(m.tombstones[id], incoming)
            } else {
                incoming
            })
        },
        !(exists|i: int| 0 <= i < n && (#[trigger] list[i]).uuid == id) || is_live(m, id) ==> {
            let t = after_tombstones(list, m, n).tombstones;
            &&& t.contains_key(id) == m.tombstones.contains_key(id)
            &&& t.contains_key(id) ==> t[id] == m.tombstones[id]
        },
    decreases n,
{
    if n > 0 {
        let k = (n - 1) as nat;
        merged_tombstones_are_there(list, m, k, id);
        tombstones_frame(list, m, k);
        let before = after_tombstones(list, m, k);
        assert(is_live(before, id) == is_live(m, id));
        if list[n - 1].uuid == id {
            if peer::is_first_tombstone(list, n - 1) {
                assert(!(exists|i: int| 0 <= i < k && (#[trigger] list[i]).uuid == id));
            } else {
                let j = choose|j: int|
                    0 <= j < n - 1 && (#[trigger] list[j]).uuid == list[n - 1].uuid;
                assert(0 <= j < k && list[j].uuid == id);
            }
        }
    }
}

proof fn tombstoned_has_index(list: Seq<DeletedObject>, id: Uuid)
    requires
        tombstone_of(list, id) is Some,
    ensures
        exists|i: int| 0 <= i < list.len() && (#[trigger] list[i]).uuid == id,
    decreases list.len(),
{
    if list.len() > 0 {
        if list.last().uuid == id {
            assert(list[list.len() - 1].uuid == id);
        } else {
            tombstoned_has_index(list.drop_last(), id);
            let i = choose|i: int|
                0 <= i < list.drop_last().len() && (#[trigger] list.drop_last()[i]).uuid == id;
            assert(list[i].uuid == id);
        }
    }
}

/// An entry reported as deleted is gone, and its tombstone is passed on unless
/// a live group has its identity.
pub proof fn reported_deletions_are_done(p: Pull, m: MirrorView, k: int)
    requires
        pull_result(p, m) is Ok,
        0 <= k < pull_result(p, m)->Ok_0.outcome.deleted.len(),
    ensures
        ({
            let t = pull_result(p, m)->Ok_0;
            let id = t.outcome.deleted[k];
            &&& !t.tables.entries.contains_key(id)
            &&& t.tables.tombstones.contains_key(id) || t.tables.groups.contains_key(id)
        }),
{
    let n = p.peer.len();
    let s = walked(p, m, n);
    let d = after_deletes(p, s, p.local.len());
    walk_keeps_groups(p, m, n);
    deleted_entries_are_gone(p, s, p.local.len(), k);
    let id = d.outcome.deleted[k];
    tombstones_frame(p.peer_tombstones, d.tables, p.peer_tombstones.len());
    tombstoned_has_index(p.peer_tombstones, id);
    merged_tombstones_are_there(p.peer_tombstones, d.tables, p.peer_tombstones.len(), id);
}

// -------------------------------------------------------------------------- tombstones

/// Whether no live entry or group has a tombstone.
pub open spec fn no_live_tombstone(m: MirrorView) -> bool {
    forall|id: Uuid| #[trigger] m.tombstones.contains_key(id) ==> !is_live(m, id)
}

proof fn walk_keeps_live_free(p: Pull, m: MirrorView, n: nat)
    requires
        after_entries(p, m, n) is Ok,
        no_live_tombstone(m),
    ensures
        no_live_tombstone(walked(p, m, n).tables),
    decreases n,
{
    if n > 0 {
        let k = (n - 1) as nat;
        walk_step(p, m, n);
        walk_keeps_live_free(p, m, k);
        let s = walked(p, m, k);
        let t = walked(p, m, n);
        let e = p.peer[n - 1].1;
        step_frame(s, p, p.peer[n - 1].0, e, action_for(p, n - 1), t);
        assert forall|id: Uuid| #[trigger] t.tables.tombstones.contains_key(id) implies !is_live(
            t.tables,
            id,
        ) by {
            assert(s.tables.tombstones.contains_key(id));
            assert(t.tables.entries.dom().contains(id) == t.tables.entries.contains_key(id));
            assert(s.tables.entries.dom().contains(id) == s.tables.entries.contains_key(id));
        }
    }
}

/// A live object never carries its own tombstone: if none did before a pull,
/// none does after it.
pub proof fn live_objects_have_no_tombstone(p: Pull, m: MirrorView)
    requires
        pull_result(p, m) is Ok,
        no_live_tombstone(m),
    ensures
        no_live_tombstone(pull_result(p, m)->Ok_0.tables),
{
    let n = p.peer.len();
    let s = walked(p, m, n);
    let d = after_deletes(p, s, p.local.len());
    let t = pull_result(p, m)->Ok_0.tables;
    walk_keeps_live_free(p, m, n);
    deletes_frame(p, s, p.local.len());
    tombstones_frame(p.peer_tombstones, d.tables, p.peer_tombstones.len());
    assert forall|id: Uuid| #[trigger] t.tombstones.contains_key(id) implies !is_live(t, id) by {
        entries_vanish_by_deletion(p, s, p.local.len(), id);
        merged_tombstones_are_there(p.peer_tombstones, d.tables, p.peer_tombstones.len(), id);
        if d.tables.tombstones.contains_key(id) {
            assert(s.tables.tombstones.contains_key(id));
        }
    }
}

proof fn walk_keeps_tombstones(p: Pull, m: MirrorView, n: nat, id: Uuid)
    requires
        after_entries(p, m, n) is Ok,
        m.tombstones.contains_key(id),
    ensures
        !walked(p, m, n).outcome.added.contains(id) ==> walked(
            p,
            m,
            n,
        ).tables.tombstones.contains_key(id) && walked(p, m, n).tables.tombstones[id]
            == m.tombstones[id],
    decreases n,
{
    if n > 0 {
        let k = (n - 1) as nat;
        walk_step(p, m, n);
        walk_keeps_tombstones(p, m, k, id);
        let s = walked(p, m, k);
        let t = walked(p, m, n);
        let e = p.peer[n - 1].1;
        step_frame(s, p, p.peer[n - 1].0, e, action_for(p, n - 1), t);
        if !t.outcome.added.contains(id) {
            if s.outcome.added.contains(id) {
                let i = choose|i: int|
                    0 <= i < s.outcome.added.len() && s.outcome.added[i] == id;
                assert(t.outcome.added[i] == id);
            }
            if action_for(p, n - 1) is Add {
                assert(t.outcome.added[s.outcome.added.len() as int] == e.id);
            }
        }
    }
}

/// Tombstones only accumulate: each stays, with the earliest deletion time
/// known, unless its entry was taken over again.
pub proof fn tombstones_only_accumulate(p: Pull, m: MirrorView, id: Uuid)
    requires
        pull_result(p, m) is Ok,
        m.tombstones.contains_key(id),
        !pull_result(p, m)->Ok_0.outcome.added.contains(id),
    ensures
        ({
            let t = pull_result(p, m)->Ok_0.tables.tombstones;
            &&& t.contains_key(id)
            &&& t[id] == m.tombstones[id] || (tombstone_of(p.peer_tombstones, id) is Some && t[id]
                == time::earliest_millis(
                m.tombstones[id],
                time::optional_millis(tombstone_of(p.peer_tombstones, id)->0),
            ))
        }),
{
    let n = p.peer.len();
    let s = walked(p, m, n);
    let d = after_deletes(p, s, p.local.len());
    deletes_frame(p, s, p.local.len());
    walk_keeps_tombstones(p, m, n, id);
    merged_tombstones_are_there(p.peer_tombstones, d.tables, p.peer_tombstones.len(), id);
    if exists|i: int| 0 <= i < p.peer_tombstones.len() && (#[trigger] p.peer_tombstones[i]).uuid == id {
        let i = choose|i: int|
            0 <= i < p.peer_tombstones.len() && (#[trigger] p.peer_tombstones[i]).uuid == id;
        peer::tombstone_is_found(p.peer_tombstones, i);
    }
}

/// Every deletion of the device is passed on, unless the object is live here.
pub proof fn peer_deletions_are_passed_on(p: Pull, m: MirrorView, i: int)
    requires
        pull_result(p, m) is Ok,
        0 <= i < p.peer_tombstones.len(),
    ensures
        ({
            let t = pull_result(p, m)->Ok_0.tables;
            let id = p.peer_tombstones[i].uuid;
            is_live(t, id) || t.tombstones.contains_key(id)
        }),
{
    let n = p.peer.len();
    let s = walked(p, m, n);
    let d = after_deletes(p, s, p.local.len());
    let id = p.peer_tombstones[i].uuid;
    tombstones_frame(p.peer_tombstones, d.tables, p.peer_tombstones.len());
    merged_tombstones_are_there(p.peer_tombstones, d.tables, p.peer_tombstones.len(), id);
}

// ------------------------------------------------------------------------------ badges

/// Whether the device's walk meets its `i`-th entry only there.
pub open spec fn meets_once(p: Pull, i: int) -> bool {
    forall|j: int|
        0 <= j < p.peer.len() && j != i ==> (#[trigger] p.peer[j]).1.id != p.peer[i].1.id
}

/// Whether each conflict that is found holds a value of the entry it is about.
pub open spec fn faithful_verdicts(p: Pull) -> bool {
    forall|i: int|
        0 <= i < p.peer.len() ==> (#[trigger] p.verdicts[i] matches ClassificationView::Conflict(
            remote,
        ) ==> remote.id == p.peer[i].1.id)
}

/// Whether an action settles whether the device's value of its entry is held.
pub open spec fn settles_badge(a: PeerAction) -> bool {
    !(a is KeepDeleted || a is Add || a is Nothing)
}

proof fn step_badge(s: PeerState, p: Pull, parent: Uuid, e: EntryView, a: PeerAction, t: PeerState)
    requires
        after_action(s, p, parent, e, a) == Ok::<PeerState, PeerFault>(t),
        a matches PeerAction::Park(remote) ==> remote.id == e.id,
    ensures
        settles_badge(a) ==> t.tables.conflicts.contains_key((p.owner, e.id)) == (a is Park),
        a is Park ==> t.tables.conflicts[(p.owner, e.id)] == conflict_rows::conflict_of(
            a->Park_0,
        ),
        forall|id: Uuid|
            id != e.id ==> #[trigger] t.tables.conflicts.contains_key((p.owner, id))
                == s.tables.conflicts.contains_key((p.owner, id)),
        forall|id: Uuid|
            id != e.id ==> #[trigger] t.tables.conflicts[(p.owner, id)]
                == s.tables.conflicts[(p.owner, id)],
{
    reveal(after_action);
}

proof fn walk_badges(p: Pull, m: MirrorView, n: nat, i: int)
    requires
        after_entries(p, m, n) is Ok,
        meets_once(p, i),
        faithful_verdicts(p),
        0 <= i < n <= p.peer.len(),
        settles_badge(action_for(p, i)),
    ensures
        ({
            let c = walked(p, m, n).tables.conflicts;
            let key = (p.owner, p.peer[i].1.id);
            &&& c.contains_key(key) == (action_for(p, i) is Park)
            &&& action_for(p, i) is Park ==> c[key] == conflict_rows::conflict_of(
                action_for(p, i)->Park_0,
            )
        }),
    decreases n,
{
    let k = (n - 1) as nat;
    walk_step(p, m, n);
    let e = p.peer[n - 1].1;
    let a = action_for(p, n - 1);
    assert(a matches PeerAction::Park(remote) ==> remote.id == e.id) by {
        assert(p.verdicts[n - 1] == p.verdicts[n - 1]);
    }
    step_badge(walked(p, m, k), p, p.peer[n - 1].0, e, a, walked(p, m, n));
    if i < n - 1 {
        walk_badges(p, m, k, i);
        assert(p.peer[i].1.id != p.peer[n - 1].1.id);
    }
}

/// The badge after a pull: of an entry that both sides hold, the device's value
/// is held exactly when it genuinely conflicts, and what is held is its latest
/// value. A conflict that has turned into agreement, or that one side has
/// settled, is held no longer.
pub proof fn badge_shows_genuine_conflicts(p: Pull, m: MirrorView, i: int)
    requires
        pull_result(p, m) is Ok,
        meets_once(p, i),
        faithful_verdicts(p),
        0 <= i < p.peer.len(),
        settles_badge(action_for(p, i)),
    ensures
        ({
            let c = pull_result(p, m)->Ok_0.tables.conflicts;
            let key = (p.owner, p.peer[i].1.id);
            &&& c.contains_key(key) == (action_for(p, i) is Park)
            &&& action_for(p, i) is Park ==> c[key] == conflict_rows::conflict_of(
                action_for(p, i)->Park_0,
            )
        }),
{
    let n = p.peer.len();
    walk_badges(p, m, n, i);
    deletes_frame(p, walked(p, m, n), p.local.len());
    tombstones_frame(
        p.peer_tombstones,
        after_deletes(p, walked(p, m, n), p.local.len()).tables,
        p.peer_tombstones.len(),
    );
}

proof fn walk_reports_conflicts(p: Pull, m: MirrorView, n: nat, i: int)
    requires
        after_entries(p, m, n) is Ok,
        meets_once(p, i),
        0 <= i < p.peer.len(),
        n <= p.peer.len(),
    ensures
        walked(p, m, n).outcome.conflicted.contains(p.peer[i].1.id) <==> i < n && action_for(
            p,
            i,
        ) is Park,
    decreases n,
{
    if n > 0 {
        let k = (n - 1) as nat;
        walk_step(p, m, n);
        walk_reports_conflicts(p, m, k, i);
        reveal(after_action);
        let before = walked(p, m, k).outcome.conflicted;
        let after = walked(p, m, n).outcome.conflicted;
        let id = p.peer[i].1.id;
        if i != n - 1 {
            assert(p.peer[i].1.id != p.peer[n - 1].1.id);
        }
        if action_for(p, n - 1) is Park {
            assert(after == before.push(p.peer[n - 1].1.id));
            assert(after[before.len() as int] == p.peer[n - 1].1.id);
            if before.contains(id) {
                let a = choose|a: int| 0 <= a < before.len() && before[a] == id;
                assert(after[a] == id);
            }
            if after.contains(id) && !before.contains(id) {
                let a = choose|a: int| 0 <= a < after.len() && after[a] == id;
                if a < before.len() {
                    assert(before[a] == id);
                }
            }
        } else {
            assert(after == before);
        }
    }
}

/// An entry is reported as conflicted exactly when the device's value of it is
/// to be held.
pub proof fn reports_genuine_conflicts(p: Pull, m: MirrorView, i: int)
    requires
        pull_result(p, m) is Ok,
        meets_once(p, i),
        0 <= i < p.peer.len(),
    ensures
        pull_result(p, m)->Ok_0.outcome.conflicted.contains(p.peer[i].1.id) <==> action_for(
            p,
            i,
        ) is Park,
{
    let n = p.peer.len();
    walk_reports_conflicts(p, m, n, i);
    deletes_frame(p, walked(p, m, n), p.local.len());
}

/// After two pulls from one device, of an entry that we and the device's later
/// vault hold: the device has a row for it exactly when the second pull reports
/// it as conflicted, and that row holds the later value and nothing of the
/// earlier one; and other devices' rows are as they were before both pulls.
pub proof fn later_pull_decides(p: Pull, q: Pull, m: MirrorView, i: int)
    requires
        p.owner == q.owner,
        pull_result(p, m) is Ok,
        pull_result(q, pull_result(p, m)->Ok_0.tables) is Ok,
        meets_once(q, i),
        faithful_verdicts(q),
        0 <= i < q.peer.len(),
        peer::holds_entry(q.local, q.peer[i].1.id),
        q.verdicts[i] !is Unrecognised,
    ensures
        ({
            let u = q.peer[i].1.id;
            let second = pull_result(q, pull_result(p, m)->Ok_0.tables)->Ok_0;
            let rows = second.tables.conflicts;
            &&& rows.contains_key((q.owner, u)) <==> second.outcome.conflicted.contains(u)
            &&& rows.contains_key((q.owner, u)) ==> q.verdicts[i] is Conflict && rows[(q.owner, u)]
                == conflict_rows::conflict_of(q.verdicts[i]->Conflict_0)
            &&& forall|o: Seq<char>|
                o != q.owner ==> #[trigger] rows.contains_key((o, u)) == m.conflicts.contains_key(
                    (o, u),
                )
            &&& forall|o: Seq<char>|
                o != q.owner ==> #[trigger] rows[(o, u)] == m.conflicts[(o, u)]
        }),
{
    let u = q.peer[i].1.id;
    let mid = pull_result(p, m)->Ok_0.tables;
    let rows = pull_result(q, mid)->Ok_0.tables.conflicts;
    assert(settles_badge(action_for(q, i)));
    badge_shows_genuine_conflicts(q, mid, i);
    reports_genuine_conflicts(q, mid, i);
    assert forall|o: Seq<char>| o != q.owner implies #[trigger] rows.contains_key((o, u))
        == m.conflicts.contains_key((o, u)) by {
        pull_leaves_other_owners(p, m, o, u);
        pull_leaves_other_owners(q, mid, o, u);
    }
    assert forall|o: Seq<char>| o != q.owner implies #[trigger] rows[(o, u)] == m.conflicts[(
        o,
        u,
    )] by {
        pull_leaves_other_owners(p, m, o, u);
        pull_leaves_other_owners(q, mid, o, u);
    }
}

/// Holding a value again refreshes it in place: there is one row per device and
/// entry, and repeating a pull does not add another.
pub proof fn parking_again_refreshes_in_place(
    m: MirrorView,
    owner: Seq<char>,
    first: EntryView,
    second: EntryView,
)
    requires
        first.id == second.id,
        parked(cleared(m, owner, first.id), owner, first) is Ok,
        parked(cleared(m, owner, second.id), owner, second) is Ok,
    ensures
        parked(
            cleared(parked(cleared(m, owner, first.id), owner, first)->Ok_0, owner, second.id),
            owner,
            second,
        ) == parked(cleared(m, owner, second.id), owner, second),
{
    let once = parked(cleared(m, owner, first.id), owner, first)->Ok_0;
    assert(cleared(once, owner, second.id).conflicts =~= cleared(m, owner, second.id).conflicts);
}

// ------------------------------------------------------------------------------ nonces

/// No two blobs that a pull brings are alike, be what they hold the same or not:
/// with enough distinct nonces drawn, the `a`-th blob that the device's `i`-th
/// entry brought differs from the `b`-th that the `j`-th brought, unless the two
/// are one. The blobs are those of entries and of held values alike.
pub proof fn pulled_blobs_differ(
    entries: Map<Uuid, EntryRecord>,
    held: Seq<ConflictRecord>,
    p: Pull,
    drawn: Seq<[u8; 12]>,
    i: int,
    a: int,
    j: int,
    b: int,
)
    requires
        pulled_in_turn(entries, held, p, drawn),
        crypto::distinct_nonces(drawn),
        pull_seals(p, p.peer.len()) <= drawn.len(),
        0 <= i < p.peer.len(),
        0 <= j < p.peer.len(),
        brought_by(entries, held, p, i) is Some,
        brought_by(entries, held, p, j) is Some,
        0 <= a < brought_by(entries, held, p, i)->0.len(),
        0 <= b < brought_by(entries, held, p, j)->0.len(),
        i != j || a != b,
    ensures
        brought_by(entries, held, p, i)->0[a] != brought_by(entries, held, p, j)->0[b],
{
    peer::pull_seals_grow(p, (i + 1) as nat, p.peer.len());
    peer::pull_seals_grow(p, (j + 1) as nat, p.peer.len());
    if i < j {
        peer::pull_seals_grow(p, (i + 1) as nat, j as nat);
    } else if j < i {
        peer::pull_seals_grow(p, (j + 1) as nat, i as nat);
    }
    crypto::blobs_differ(
        brought_by(entries, held, p, i)->0,
        brought_by(entries, held, p, j)->0,
        drawn,
        pull_seals(p, i as nat),
        pull_seals(p, j as nat),
        a,
        b,
    );
}

// ------------------------------------------------------------------------- convergence

/// Two pulls between the same two vaults, one in each direction.
pub open spec fn mirrored(p: Pull, q: Pull) -> bool {
    &&& q.peer == p.local
    &&& q.local == p.peer
    &&& q.local_tombstones == p.peer_tombstones
    &&& q.peer_tombstones == p.local_tombstones
    &&& q.local_resolutions == p.peer_resolutions
    &&& q.peer_resolutions == p.local_resolutions
}

/// Edit against deletion comes out the same on both devices: where one device
/// holds an entry that the other deleted, the first drops its entry exactly
/// when the second keeps it deleted, and else the second takes it over again.
pub proof fn edit_against_deletion_converges(p: Pull, q: Pull, i: int)
    requires
        mirrored(p, q),
        0 <= i < p.local.len(),
        peer::last_with_id(p.local, p.local.len(), p.local[i].1.id) == Some(i),
        !peer::holds_entry(p.peer, p.local[i].1.id),
        tombstone_of(p.peer_tombstones, p.local[i].1.id) is Some,
    ensures
        is_dropped(p, i) <==> action_for(q, i) is KeepDeleted,
        !is_dropped(p, i) <==> action_for(q, i) is Add,
{
}

/// Settling on one device clears on the other: the device that settled a
/// conflict keeps its value, and the other adopts it, as long as the other has
/// not edited the entry since.
pub proof fn settling_on_one_clears_on_both(
    settled_mtime: Option<Timestamp>,
    other_mtime: Option<Timestamp>,
    resolved_at: Timestamp,
    settled_entry: EntryView,
    other_entry: EntryView,
)
    requires
        !time::is_edited_after(other_mtime, Some(resolved_at)),
    ensures
        conflict_action(settled_mtime, other_mtime, Some(resolved_at), None, other_entry)
            is HoldLocal,
        conflict_action(other_mtime, settled_mtime, None, Some(resolved_at), settled_entry)
            == PeerAction::Adopt(settled_entry),
{
}

/// A later edit re-opens a settled conflict on both devices alike.
pub proof fn later_edit_reopens_on_both(
    settled_mtime: Option<Timestamp>,
    other_mtime: Option<Timestamp>,
    resolved_at: Timestamp,
    settled_entry: EntryView,
    other_entry: EntryView,
)
    requires
        time::is_edited_after(other_mtime, Some(resolved_at)),
    ensures
        conflict_action(settled_mtime, other_mtime, Some(resolved_at), None, other_entry)
            == PeerAction::Park(other_entry),
        conflict_action(other_mtime, settled_mtime, None, Some(resolved_at), settled_entry)
            == PeerAction::Park(settled_entry),
{
}

} // verus!
