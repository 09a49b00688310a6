//! What a pull reports: everything that it did, and nothing else.

use vstd::prelude::*;

use crate::codec::Uuid;
use crate::mirror::MirrorView;
use crate::peer::{
    action_for, after_action, after_deletes, after_entries, is_dropped, local_entry, tombstone_of,
    ClassificationView, PeerAction, PeerFault, PeerState, Pull,
};
use crate::peer_laws;
use crate::peer_laws::walked;
use crate::pull_laws;
use crate::pull_laws::{has_entry, is_deleted_in, Reconciled};
use crate::vault;
use crate::vault::DeletedObject;
use crate::vault_laws;
use crate::vault_laws::{entries_within, entry_at};

verus! {

/// The identity of the device's entry at a place.
pub open spec fn id_at(c: Reconciled, i: int) -> Uuid {
    vault::placed_entries(&c.peer.root, None, false)[i].entry.id
}

/// Among the first of the device's entries, those that we have too and that do not
/// differ.
pub open spec fn agreed(c: Reconciled, n: nat) -> nat
    decreases n,
{
    if n == 0 {
        0
    } else if c.verdicts@[n - 1] is InSync && has_entry(c.local.root, id_at(c, n - 1)) {
        agreed(c, (n - 1) as nat) + 1
    } else {
        agreed(c, (n - 1) as nat)
    }
}

proof fn held_here(c: Reconciled, id: Uuid)
    ensures
        local_entry(c.pull().local, id) is Some <==> has_entry(c.local.root, id),
{
    let list = c.pull().local;
    pull_laws::a_walk_finds(&c.local.root, id);
    pull_laws::last_is_found(list, list.len(), id);
}

proof fn a_step_reports(
    s: PeerState,
    p: Pull,
    parent: Uuid,
    e: vault::EntryView,
    a: PeerAction,
    t: PeerState,
)
    requires
        after_action(s, p, parent, e, a) == Ok::<PeerState, PeerFault>(t),
    ensures
        t.outcome.in_sync == s.outcome.in_sync + if a is Agree {
            1int
        } else {
            0int
        },
        t.outcome.added == if a is Add {
            s.outcome.added.push(e.id)
        } else {
            s.outcome.added
        },
        t.outcome.auto_merged == if a is Advance || a is Adopt {
            s.outcome.auto_merged.push(e.id)
        } else {
            s.outcome.auto_merged
        },
        t.outcome.conflicted == if a is Park {
            s.outcome.conflicted.push(e.id)
        } else {
            s.outcome.conflicted
        },
        t.outcome.deleted == s.outcome.deleted,
{
    reveal(after_action);
}

/// Whether the device has an entry that we have not.
pub open spec fn is_new(c: Reconciled, id: Uuid) -> bool {
    has_entry(c.peer.root, id) && !has_entry(c.local.root, id)
}

/// Whether an entry that both have was found to differ.
pub open spec fn is_found_to_differ(c: Reconciled, id: Uuid) -> bool {
    has_entry(c.local.root, id) && exists|i: int|
        0 <= i < c.verdicts@.len() && id_at(c, i) == id && ((#[trigger] c.verdicts@[i]) is AutoMerged
            || c.verdicts@[i] is Conflict)
}

/// Whether an entry that both have was found to be in conflict.
pub open spec fn is_found_in_conflict(c: Reconciled, id: Uuid) -> bool {
    has_entry(c.local.root, id) && exists|i: int|
        0 <= i < c.verdicts@.len() && id_at(c, i) == id && (#[trigger] c.verdicts@[i]) is Conflict
}

proof fn the_walk_reports(c: Reconciled, m: MirrorView, n: nat)
    requires
        n <= c.pull().peer.len(),
        c.verdicts@.len() == c.pull().peer.len(),
        after_entries(c.pull(), m, n) is Ok,
    ensures
        ({
            let o = walked(c.pull(), m, n).outcome;
            &&& o.in_sync == agreed(c, n)
            &&& o.added.len() + o.auto_merged.len() + o.conflicted.len() + o.in_sync <= n
            &&& forall|x: int| 0 <= x < o.added.len() ==> is_new(c, #[trigger] o.added[x])
            &&& forall|x: int|
                0 <= x < o.auto_merged.len() ==> is_found_to_differ(c, #[trigger] o.auto_merged[x])
            &&& forall|x: int|
                0 <= x < o.conflicted.len() ==> is_found_in_conflict(
                    c,
                    #[trigger] o.conflicted[x],
                )
            &&& o.deleted.len() == 0
        }),
    decreases n,
{
    let p = c.pull();
    if n > 0 {
        peer_laws::walk_step(p, m, n);
        the_walk_reports(c, m, (n - 1) as nat);
        let i = n - 1;
        let s = walked(p, m, (n - 1) as nat);
        let t = walked(p, m, n);
        let e = p.peer[i].1;
        let a = action_for(p, i);
        a_step_reports(s, p, p.peer[i].0, e, a, t);
        held_here(c, e.id);
        assert(e.id == id_at(c, i));
        assert(p.verdicts[i] == c.verdicts@[i].deep_view());
        let (path, k) = vault_laws::from_walk(&c.peer.root, None, false, i);
        assert(entry_at(c.peer.root, path, k) is Some);
        assert(has_entry(c.peer.root, e.id));
        assert(a is Add ==> is_new(c, e.id));
        assert(a is Advance || a is Adopt ==> c.verdicts@[i] is AutoMerged || c.verdicts@[i] is Conflict);
        assert(a is Park ==> c.verdicts@[i] is Conflict);
    }
}

proof fn deletions_report(c: Reconciled, s: PeerState, n: nat)
    requires
        n <= c.pull().local.len(),
        s.outcome.deleted.len() == 0,
    ensures
        ({
            let o = after_deletes(c.pull(), s, n).outcome;
            &&& o.deleted.len() <= n
            &&& forall|x: int|
                0 <= x < o.deleted.len() ==> has_entry(c.local.root, #[trigger] o.deleted[x])
                    && !has_entry(c.peer.root, o.deleted[x]) && is_deleted_in(
                    c.peer.deleted_objects@,
                    o.deleted[x],
                )
        }),
    decreases n,
{
    let p = c.pull();
    if n > 0 {
        deletions_report(c, s, (n - 1) as nat);
        if is_dropped(p, n - 1) {
            let id = p.local[n - 1].1.id;
            pull_laws::a_walk_finds(&c.peer.root, id);
            pull_laws::a_walk_finds(&c.local.root, id);
            assert(crate::peer::holds_entry(p.local, id)) by {
                assert(p.local[n - 1].1.id == id);
            }
            a_tombstone_is_there(c.peer.deleted_objects@, id);
        }
    }
}

proof fn a_tombstone_is_there(list: Seq<DeletedObject>, id: Uuid)
    requires
        tombstone_of(list, id) is Some,
    ensures
        is_deleted_in(list, id),
    decreases list.len(),
{
    if list.len() > 0 {
        let less = list.drop_last();
        if tombstone_of(less, id) is Some {
            a_tombstone_is_there(less, id);
            let i = choose|i: int| 0 <= i < less.len() && (#[trigger] less[i]).uuid == id;
            assert(list[i].uuid == id);
        } else {
            assert(list[list.len() - 1].uuid == id);
        }
    }
}

/// A pull counts the entries that agree. It reports as added only what is the device's
/// alone, as merged and as in conflict only what was found to differ, and as deleted
/// only what the device has deleted; of each of the device's entries at most one.
pub proof fn only_what_was_done_is_reported(c: Reconciled, x: int)
    requires
        c.done(),
    ensures
        c.outcome.in_sync == agreed(c, c.verdicts@.len()),
        c.outcome.added@.len() + c.outcome.auto_merged@.len() + c.outcome.conflicted@.len()
            + c.outcome.in_sync <= entries_within(c.peer.root),
        0 <= x < c.outcome.added@.len() ==> is_new(c, c.outcome.added@[x]),
        0 <= x < c.outcome.auto_merged@.len() ==> is_found_to_differ(c, c.outcome.auto_merged@[x]),
        0 <= x < c.outcome.conflicted@.len() ==> is_found_in_conflict(c, c.outcome.conflicted@[x]),
        0 <= x < c.outcome.deleted@.len() ==> has_entry(c.local.root, c.outcome.deleted@[x])
            && !has_entry(c.peer.root, c.outcome.deleted@[x]) && is_deleted_in(
            c.peer.deleted_objects@,
            c.outcome.deleted@[x],
        ),
        c.outcome.deleted@.len() <= entries_within(c.local.root),
{
    let p = c.pull();
    let m = c.before.opened(c.key);
    let s = walked(p, m, p.peer.len());
    the_walk_reports(c, m, p.peer.len());
    peer_laws::deletes_frame(p, s, p.local.len());
    deletions_report(c, s, p.local.len());
    vault_laws::walk_is_whole(&c.peer.root, None, false);
    vault_laws::walk_is_whole(&c.local.root, None, false);
}

} // verus!
