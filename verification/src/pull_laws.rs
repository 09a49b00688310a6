//! What a pull makes of each entry, by the two vaults it brings together.
//!
//! Each law takes a pull that succeeded, and what it left, and says what became
//! of an entry or a tombstone that one of the two vaults has.

use vstd::prelude::*;

use crate::codec;
use crate::codec::Uuid;
use crate::conflict_rows;
use crate::conflict_rows::ConflictRecord;
use crate::crypto::{NonceSource, SessionKey};
use crate::engine::Engine;
use crate::error::EngineError;
use crate::mirror;
use crate::mirror::{Mirror, MirrorView};
use crate::peer;
use crate::peer::{
    action_for, after_action, after_deletes, after_entries, is_dropped,
    last_with_id, local_entry, pull_of, pull_result, resolution_of, tombstone_of, walk_view,
    written_at, written_by, Classification, ClassificationView, IngestPeerOutcome, PeerAction, PeerFault, PeerState,
    Pull, ResolutionRecord,
};
use crate::peer_laws;
use crate::peer_laws::walked;
use crate::row_laws;
use crate::row_laws::{carries, has_columns_of};
use crate::table;
use crate::table::Keyed;
use crate::time::Timestamp;
use crate::vault;
use crate::vault::{DeletedObject, Entry, EntryView, Group, Vault};
use crate::vault_laws;
use crate::vault_laws::{entry_at, group_at, is_known_millis_of, place_of};

verus! {

// --------------------------------------------------------------------- what was done

/// A pull that succeeded: what it was given, and what it left.
pub struct Reconciled {
    pub before: Mirror,
    pub after: Mirror,
    pub fingerprint_key: Seq<u8>,
    pub key: Seq<u8>,
    pub owner: Seq<char>,
    pub local: Vault,
    pub peer: Vault,
    pub local_resolutions: Seq<ResolutionRecord>,
    pub peer_resolutions: Seq<ResolutionRecord>,
    pub verdicts: Vec<Classification>,
    pub outcome: IngestPeerOutcome,
}

impl Reconciled {
    /// What the pull brings together.
    pub open spec fn pull(self) -> Pull {
        pull_of(
            self.fingerprint_key,
            self.owner,
            self.local,
            self.peer,
            self.local_resolutions,
            self.peer_resolutions,
            self.verdicts.deep_view(),
        )
    }

    /// Whether the pull left what it is to leave.
    pub open spec fn done(self) -> bool {
        &&& self.after.wf()
        &&& self.verdicts@.len() == vault::placed_entries(&self.peer.root, None, false).len()
        &&& pull_result(self.pull(), self.before.opened(self.key)) == Ok::<PeerState, PeerFault>(
            PeerState { tables: self.after.opened(self.key), outcome: self.outcome@ },
        )
    }
}

/// A pull that the engine makes is done, or refused with the engine as it was.
pub proof fn a_pull_is_done(
    en: &mut Engine,
    owner: &str,
    local: &Vault,
    peer: &Vault,
    local_resolutions: &Vec<ResolutionRecord>,
    peer_resolutions: &Vec<ResolutionRecord>,
    verdicts: &Vec<Classification>,
    session_key: &SessionKey,
    nonces: &mut NonceSource,
    r: Result<IngestPeerOutcome, EngineError>,
)
    requires
        verdicts@.len() == vault::placed_entries(&peer.root, None, false).len(),
        call_ensures(
            Engine::ingest_peer,
            (
                en,
                owner,
                local,
                peer,
                local_resolutions,
                peer_resolutions,
                verdicts,
                session_key,
                nonces,
            ),
            r,
        ),
    ensures
        r is Ok ==> (Reconciled {
            before: old(en).mirror,
            after: final(en).mirror,
            fingerprint_key: old(en).fingerprint_key@,
            key: session_key@,
            owner: owner@,
            local: *local,
            peer: *peer,
            local_resolutions: local_resolutions@,
            peer_resolutions: peer_resolutions@,
            verdicts: *verdicts,
            outcome: r->Ok_0,
        }).done(),
        r is Err ==> *final(en) == *old(en),
{
}

/// Whether a tree has an entry.
pub open spec fn has_entry(root: Group, id: Uuid) -> bool {
    exists|path: Seq<nat>, k: int| #[trigger] entry_at(root, path, k) matches Some(e) && e.id == id
}

/// Whether an entry stands in a tree only once.
pub open spec fn stands_once(root: Group, path: Seq<nat>, k: int) -> bool {
    forall|p: Seq<nat>, n: int|
        (#[trigger] entry_at(root, p, n) matches Some(e) && e.id == entry_at(root, path, k)->0.id)
            ==> p == path && n == k
}

/// Whether one instant is later than another.
pub open spec fn is_later(a: Timestamp, b: Timestamp) -> bool {
    a.millis > b.millis || (a.millis == b.millis && a.nanos > b.nanos)
}

/// Whether an edit prevails over the deletions that a list has of an object: it
/// has none, or none of them has a time, or the edit is later than one of them.
pub open spec fn prevails(edit: Option<Timestamp>, list: Seq<DeletedObject>, id: Uuid) -> bool {
    ||| forall|i: int|
        0 <= i < list.len() && (#[trigger] list[i]).uuid == id ==> list[i].deleted_at is None
    ||| edit is Some && exists|i: int|
        0 <= i < list.len() && (#[trigger] list[i]).uuid == id && list[i].deleted_at is Some
            && is_later(edit->0, list[i].deleted_at->0)
}

/// Whether a list has a deletion of an object.
pub open spec fn is_deleted_in(list: Seq<DeletedObject>, id: Uuid) -> bool {
    exists|i: int| 0 <= i < list.len() && (#[trigger] list[i]).uuid == id
}

/// Whether an entry's conflict is settled by records, the last of them no earlier
/// than an edit.
pub open spec fn is_settled(
    list: Seq<ResolutionRecord>,
    id: Uuid,
    edit: Option<Timestamp>,
) -> bool {
    exists|i: int|
        0 <= i < list.len() && (#[trigger] list[i]).entry == id && (edit is Some ==> !is_later(
            edit->0,
            list[i].resolved_at,
        ))
}

/// Whether each verdict is about the entry it stands for.
pub open spec fn to_the_point(c: Reconciled) -> bool {
    forall|path: Seq<nat>, k: int| #[trigger]
        entry_at(c.peer.root, path, k) matches Some(e) ==> match c.verdicts@[place_of(
            c.peer.root,
            path,
            k,
        )] {
            Classification::AutoMerged { merged } => merged.id == e.id,
            Classification::Conflict { remote } => remote.id == e.id,
            _ => true,
        }
}

// ------------------------------------------------------------------------- the inputs

proof fn stones_say(list: Seq<DeletedObject>, id: Uuid)
    ensures
        tombstone_of(list, id) is Some <==> is_deleted_in(list, id),
        tombstone_of(list, id) matches Some(None) ==> forall|i: int|
            0 <= i < list.len() && (#[trigger] list[i]).uuid == id ==> list[i].deleted_at is None,
        tombstone_of(list, id) matches Some(Some(t)) ==> exists|i: int|
            0 <= i < list.len() && (#[trigger] list[i]).uuid == id && list[i].deleted_at == Some(t),
        tombstone_of(list, id) matches Some(Some(t)) ==> forall|i: int|
            0 <= i < list.len() && (#[trigger] list[i]).uuid == id && list[i].deleted_at is Some
                ==> !is_later(t, list[i].deleted_at->0),
    decreases list.len(),
{
    if list.len() > 0 {
        let less = list.drop_last();
        stones_say(less, id);
        if is_deleted_in(less, id) {
            let i = choose|i: int| 0 <= i < less.len() && (#[trigger] less[i]).uuid == id;
            assert(list[i].uuid == id);
        }
        if list.last().uuid == id {
            assert(list[list.len() - 1].uuid == id);
        }
        if is_deleted_in(list, id) && list.last().uuid != id {
            let i = choose|i: int| 0 <= i < list.len() && (#[trigger] list[i]).uuid == id;
            assert(less[i].uuid == id);
        }
        assert forall|i: int| 0 <= i < less.len() implies #[trigger] list[i] == less[i] by {}
        match tombstone_of(list, id) {
            Some(Some(t)) => {
                if list.last().uuid == id && list.last().deleted_at == Some(t) {
                    assert(list[list.len() - 1].deleted_at == Some(t));
                } else {
                    let i = choose|i: int|
                        0 <= i < less.len() && (#[trigger] less[i]).uuid == id
                            && less[i].deleted_at == Some(t);
                    assert(list[i].uuid == id && list[i].deleted_at == Some(t));
                }
                assert forall|i: int|
                    0 <= i < list.len() && (#[trigger] list[i]).uuid == id
                        && list[i].deleted_at is Some implies !is_later(
                    t,
                    list[i].deleted_at->0,
                ) by {
                    if i < less.len() {
                        assert(less[i].uuid == id);
                    }
                }
            },
            _ => {},
        }
    }
}

proof fn an_edit_prevails(edit: Option<Timestamp>, list: Seq<DeletedObject>, id: Uuid)
    ensures
        tombstone_of(list, id) is Some ==> (crate::time::edit_wins(edit, tombstone_of(list, id)->0)
            <==> prevails(edit, list, id)),
        tombstone_of(list, id) is None ==> prevails(edit, list, id),
{
    stones_say(list, id);
    match tombstone_of(list, id) {
        Some(Some(t)) => {
            let i = choose|i: int|
                0 <= i < list.len() && (#[trigger] list[i]).uuid == id && list[i].deleted_at
                    == Some(t);
            assert(list[i].uuid == id);
            if edit is Some && exists|j: int|
                0 <= j < list.len() && (#[trigger] list[j]).uuid == id && list[j].deleted_at is Some
                    && is_later(edit->0, list[j].deleted_at->0) {
                let j = choose|j: int|
                    0 <= j < list.len() && (#[trigger] list[j]).uuid == id
                        && list[j].deleted_at is Some && is_later(edit->0, list[j].deleted_at->0);
                assert(!is_later(t, list[j].deleted_at->0));
            }
        },
        _ => {},
    }
}

proof fn records_say(list: Seq<ResolutionRecord>, id: Uuid)
    ensures
        resolution_of(list, id) is Some <==> exists|i: int|
            0 <= i < list.len() && (#[trigger] list[i]).entry == id,
        resolution_of(list, id) matches Some(t) ==> exists|i: int|
            0 <= i < list.len() && (#[trigger] list[i]).entry == id && list[i].resolved_at == t,
        resolution_of(list, id) matches Some(t) ==> forall|i: int|
            0 <= i < list.len() && (#[trigger] list[i]).entry == id ==> !is_later(
                list[i].resolved_at,
                t,
            ),
    decreases list.len(),
{
    if list.len() > 0 {
        let less = list.drop_last();
        records_say(less, id);
        assert forall|i: int| 0 <= i < less.len() implies #[trigger] list[i] == less[i] by {}
        if exists|i: int| 0 <= i < less.len() && (#[trigger] less[i]).entry == id {
            let i = choose|i: int| 0 <= i < less.len() && (#[trigger] less[i]).entry == id;
            assert(list[i].entry == id);
        }
        if list.last().entry == id {
            assert(list[list.len() - 1].entry == id);
        }
        match resolution_of(list, id) {
            Some(t) => {
                if list.last().entry == id && list.last().resolved_at == t {
                    assert(list[list.len() - 1].resolved_at == t);
                } else {
                    let i = choose|i: int|
                        0 <= i < less.len() && (#[trigger] less[i]).entry == id
                            && less[i].resolved_at == t;
                    assert(list[i].entry == id && list[i].resolved_at == t);
                }
                assert forall|i: int|
                    0 <= i < list.len() && (#[trigger] list[i]).entry == id implies !is_later(
                    list[i].resolved_at,
                    t,
                ) by {
                    if i < less.len() {
                        assert(less[i].entry == id);
                    }
                }
            },
            None => {
                if exists|i: int| 0 <= i < list.len() && (#[trigger] list[i]).entry == id {
                    let i = choose|i: int| 0 <= i < list.len() && (#[trigger] list[i]).entry == id;
                    if i < less.len() {
                        assert(less[i].entry == id);
                    }
                }
            },
        }
    }
}

proof fn a_record_settles(list: Seq<ResolutionRecord>, id: Uuid, edit: Option<Timestamp>)
    ensures
        is_settled(list, id, edit) <==> resolution_of(list, id) is Some
            && !crate::time::is_edited_after(edit, resolution_of(list, id)),
{
    records_say(list, id);
    if is_settled(list, id, edit) {
        let i = choose|i: int|
            0 <= i < list.len() && (#[trigger] list[i]).entry == id && (edit is Some ==> !is_later(
                edit->0,
                list[i].resolved_at,
            ));
        assert(list[i].entry == id);
        assert(!is_later(list[i].resolved_at, resolution_of(list, id)->0));
    }
    if resolution_of(list, id) is Some && !crate::time::is_edited_after(
        edit,
        resolution_of(list, id),
    ) {
        let i = choose|i: int|
            0 <= i < list.len() && (#[trigger] list[i]).entry == id && list[i].resolved_at
                == resolution_of(list, id)->0;
        assert(list[i].entry == id);
    }
}

/// There is a last entry of an identity where there is one at all.
pub proof fn last_is_found(list: Seq<(Uuid, EntryView)>, n: nat, id: Uuid)
    requires
        n <= list.len(),
    ensures
        last_with_id(list, n, id) is Some <==> exists|i: int|
            0 <= i < n && (#[trigger] list[i]).1.id == id,
        last_with_id(list, n, id) matches Some(i) ==> 0 <= i < n && list[i].1.id == id,
    decreases n,
{
    if n > 0 {
        last_is_found(list, (n - 1) as nat, id);
        if list[n - 1].1.id == id {
            assert(list[n - 1].1.id == id);
        } else if exists|i: int| 0 <= i < n && (#[trigger] list[i]).1.id == id {
            let i = choose|i: int| 0 <= i < n && (#[trigger] list[i]).1.id == id;
            assert(i < n - 1);
        }
    }
}

/// A walk meets what is on some path.
pub proof fn a_walk_finds(root: &Group, id: Uuid)
    ensures
        ({
            let list = walk_view(vault::placed_entries(root, None, false));
            peer::holds_entry(list, id) <==> has_entry(*root, id)
        }),
{
    let placed = vault::placed_entries(root, None, false);
    let list = walk_view(placed);
    last_is_found(list, list.len(), id);
    if peer::holds_entry(list, id) {
        let i = choose|i: int| 0 <= i < list.len() && (#[trigger] list[i]).1.id == id;
        let (path, k) = vault_laws::from_walk(root, None, false, i);
        assert(entry_at(*root, path, k) is Some);
    }
    if has_entry(*root, id) {
        let (path, k) = choose|path: Seq<nat>, k: int| #[trigger]
            entry_at(*root, path, k) matches Some(e) && e.id == id;
        let i = vault_laws::walk_meets(root, None, false, path, k);
        assert(list[i].1.id == id);
    }
}

proof fn a_walk_finds_once(root: &Group, path: Seq<nat>, k: int) -> (i: int)
    requires
        entry_at(*root, path, k) is Some,
    ensures
        i == place_of(*root, path, k),
        ({
            let list = walk_view(vault::placed_entries(root, None, false));
            &&& 0 <= i < list.len()
            &&& list[i] == (
                group_at(*root, path)->0.id,
                entry_at(*root, path, k)->0.deep_view(),
            )
            &&& stands_once(*root, path, k) ==> last_with_id(
                list,
                list.len(),
                entry_at(*root, path, k)->0.id,
            ) == Some(i)
            &&& stands_once(*root, path, k) ==> forall|j: int|
                0 <= j < list.len() && j != i ==> (#[trigger] list[j]).1.id != entry_at(
                    *root,
                    path,
                    k,
                )->0.id
        }),
{
    let placed = vault::placed_entries(root, None, false);
    let list = walk_view(placed);
    let id = entry_at(*root, path, k)->0.id;
    let i = vault_laws::walk_meets(root, None, false, path, k);
    if stands_once(*root, path, k) {
        assert forall|j: int| 0 <= j < list.len() && j != i implies (#[trigger] list[j]).1.id
            != id by {
            if list[j].1.id == id {
                let (p, n) = vault_laws::from_walk(root, None, false, j);
                assert(entry_at(*root, p, n) is Some);
            }
        }
        last_is_found(list, list.len(), id);
        assert(list[i].1.id == id);
    }
    i
}

// ------------------------------------------------------------------------- the walk

proof fn a_step_writes_one(
    s: PeerState,
    p: Pull,
    parent: Uuid,
    e: EntryView,
    a: PeerAction,
    t: PeerState,
    id: Uuid,
)
    requires
        after_action(s, p, parent, e, a) == Ok::<PeerState, PeerFault>(t),
    ensures
        written_by(a, e) != Some(id) ==> t.tables.entries.contains_key(id)
            == s.tables.entries.contains_key(id) && t.tables.entries[id] == s.tables.entries[id],
        s.tables.entries.contains_key(id) ==> t.tables.entries.contains_key(id)
            && t.tables.entries[id].group_uuid == s.tables.entries[id].group_uuid
            && t.tables.entries[id].is_recycled == s.tables.entries[id].is_recycled,
        !s.tables.tombstones.contains_key(id) ==> !t.tables.tombstones.contains_key(id),
        s.outcome.added.contains(id) ==> t.outcome.added.contains(id),
        s.outcome.auto_merged.contains(id) ==> t.outcome.auto_merged.contains(id),
        t.tables.groups == s.tables.groups,
{
    reveal(after_action);
    if s.outcome.added.contains(id) {
        let i = choose|i: int| 0 <= i < s.outcome.added.len() && s.outcome.added[i] == id;
        assert(t.outcome.added[i] == id);
    }
    if s.outcome.auto_merged.contains(id) {
        let i = choose|i: int|
            0 <= i < s.outcome.auto_merged.len() && s.outcome.auto_merged[i] == id;
        assert(t.outcome.auto_merged[i] == id);
    }
}

/// From the `i`-th entry on, what was there stays where it was.
proof fn what_is_there_stays(p: Pull, m: MirrorView, i: nat, n: nat, id: Uuid)
    requires
        i <= n,
        after_entries(p, m, n) is Ok,
    ensures
        after_entries(p, m, i) is Ok,
        ({
            let s = walked(p, m, i);
            let t = walked(p, m, n);
            &&& s.tables.entries.contains_key(id) ==> t.tables.entries.contains_key(id)
                && t.tables.entries[id].group_uuid == s.tables.entries[id].group_uuid
                && t.tables.entries[id].is_recycled == s.tables.entries[id].is_recycled
            &&& (forall|j: int| i <= j < n ==> #[trigger] written_at(p, j) != Some(id))
                ==> t.tables.entries.contains_key(id) == s.tables.entries.contains_key(id)
                && t.tables.entries[id] == s.tables.entries[id]
            &&& !s.tables.tombstones.contains_key(id) ==> !t.tables.tombstones.contains_key(id)
            &&& s.outcome.added.contains(id) ==> t.outcome.added.contains(id)
            &&& s.outcome.auto_merged.contains(id) ==> t.outcome.auto_merged.contains(id)
            &&& t.tables.groups == s.tables.groups
        }),
    decreases n,
{
    if i < n {
        let k = (n - 1) as nat;
        peer_laws::walk_step(p, m, n);
        what_is_there_stays(p, m, i, k, id);
        a_step_writes_one(
            walked(p, m, k),
            p,
            p.peer[n - 1].0,
            p.peer[n - 1].1,
            action_for(p, n - 1),
            walked(p, m, n),
            id,
        );
        if forall|j: int| i <= j < n ==> #[trigger] written_at(p, j) != Some(id) {
            assert(written_at(p, n - 1) != Some(id));
        }
    }
}

proof fn what_is_not_dropped_stays(p: Pull, s: PeerState, n: nat, id: Uuid)
    requires
        n <= p.local.len(),
        forall|i: int| 0 <= i < n && p.local[i].1.id == id ==> !#[trigger] is_dropped(p, i),
    ensures
        after_deletes(p, s, n).tables.entries.contains_key(id) == s.tables.entries.contains_key(id),
        after_deletes(p, s, n).tables.entries[id] == s.tables.entries[id],
    decreases n,
{
    if n > 0 {
        what_is_not_dropped_stays(p, s, (n - 1) as nat, id);
    }
}

/// What the walk leaves of an entry that the device holds is what the pull leaves.
proof fn after_the_walk(c: Reconciled, id: Uuid)
    requires
        c.done(),
        has_entry(c.peer.root, id),
    ensures
        ({
            let p = c.pull();
            let m = c.before.opened(c.key);
            let s = walked(p, m, p.peer.len());
            &&& after_entries(p, m, p.peer.len()) is Ok
            &&& c.after.entries@.contains_key(id) == s.tables.entries.contains_key(id)
            &&& c.after.entries@.contains_key(id) ==> c.after.entries@[id].opened(c.key)
                == s.tables.entries[id]
            &&& s.tables.entries.contains_key(id) && !s.tables.tombstones.contains_key(id)
                ==> !c.after.tombstones@.contains_key(id)
            &&& c.outcome.added@ == s.outcome.added
            &&& c.outcome.auto_merged@ == s.outcome.auto_merged
            &&& c.outcome.conflicted@ == s.outcome.conflicted
        }),
{
    let p = c.pull();
    let m = c.before.opened(c.key);
    let s = walked(p, m, p.peer.len());
    let d = after_deletes(p, s, p.local.len());
    a_walk_finds(&c.peer.root, id);
    what_is_not_dropped_stays(p, s, p.local.len(), id);
    peer_laws::deletes_frame(p, s, p.local.len());
    peer_laws::tombstones_frame(p.peer_tombstones, d.tables, p.peer_tombstones.len());
    peer_laws::merged_tombstones_are_there(
        p.peer_tombstones,
        d.tables,
        p.peer_tombstones.len(),
        id,
    );
    assert(c.after.opened(c.key).entries.contains_key(id) == c.after.entries@.contains_key(id));
}

// ----------------------------------------------------------------------- taking over

proof fn an_addition(c: Reconciled, path: Seq<nat>, k: int) -> (i: int)
    requires
        c.done(),
        entry_at(c.peer.root, path, k) is Some,
        !has_entry(c.local.root, entry_at(c.peer.root, path, k)->0.id),
        prevails(
            entry_at(c.peer.root, path, k)->0.content.times.last_modification_time,
            c.local.deleted_objects@,
            entry_at(c.peer.root, path, k)->0.id,
        ),
    ensures
        0 <= i < c.pull().peer.len(),
        i == place_of(c.peer.root, path, k),
        action_for(c.pull(), i) is Add,
        c.pull().peer[i] == (
            group_at(c.peer.root, path)->0.id,
            entry_at(c.peer.root, path, k)->0.deep_view(),
        ),
        after_entries(c.pull(), c.before.opened(c.key), (i + 1) as nat) is Ok,
        after_entries(c.pull(), c.before.opened(c.key), i as nat) is Ok,
        walked(c.pull(), c.before.opened(c.key), i as nat).tables.groups == c.before.opened(
            c.key,
        ).groups,
{
    let p = c.pull();
    let m = c.before.opened(c.key);
    let e = entry_at(c.peer.root, path, k)->0;
    let i = a_walk_finds_once(&c.peer.root, path, k);
    a_walk_finds(&c.local.root, e.id);
    an_edit_prevails(
        e.content.times.last_modification_time,
        c.local.deleted_objects@,
        e.id,
    );
    assert(local_entry(p.local, e.id) is None);
    what_is_there_stays(p, m, (i + 1) as nat, p.peer.len(), e.id);
    what_is_there_stays(p, m, i as nat, p.peer.len(), e.id);
    what_is_there_stays(p, m, 0, i as nat, e.id);
    i
}

/// An entry of the device that we neither hold nor have deleted since lands in the
/// group that the device keeps it in, if we hold that group, and in our root else.
/// It is reported as added, it is not in our recycle bin, and it has no tombstone.
pub proof fn a_new_entry_lands_in_its_group(c: Reconciled, path: Seq<nat>, k: int)
    requires
        c.done(),
        entry_at(c.peer.root, path, k) is Some,
        !has_entry(c.local.root, entry_at(c.peer.root, path, k)->0.id),
        prevails(
            entry_at(c.peer.root, path, k)->0.content.times.last_modification_time,
            c.local.deleted_objects@,
            entry_at(c.peer.root, path, k)->0.id,
        ),
    ensures
        ({
            let id = entry_at(c.peer.root, path, k)->0.id;
            let theirs = group_at(c.peer.root, path)->0.id;
            let row = c.after.entries@[id];
            &&& c.after.entries@.contains_key(id)
            &&& c.before.groups@.contains_key(theirs) ==> row.group_uuid == theirs
            &&& !c.before.groups@.contains_key(theirs) ==> row.group_uuid == c.local.root.id
            &&& !row.is_recycled
            &&& c.outcome.added@.contains(id)
            &&& !c.after.tombstones@.contains_key(id)
        }),
{
    let p = c.pull();
    let m = c.before.opened(c.key);
    let e = entry_at(c.peer.root, path, k)->0;
    let i = an_addition(c, path, k);
    let n = (i + 1) as nat;
    peer_laws::walk_step(p, m, n);
    let s = walked(p, m, i as nat);
    let t = walked(p, m, n);
    assert(t.tables.entries.contains_key(e.id) && t.outcome.added.contains(e.id)
        && !t.tables.tombstones.contains_key(e.id)) by {
        reveal(after_action);
        assert(t.outcome.added[s.outcome.added.len() as int] == e.id);
    }
    assert(!t.tables.entries[e.id].is_recycled && t.tables.entries[e.id].group_uuid == (
    if m.groups.contains_key(p.peer[i].0) {
        p.peer[i].0
    } else {
        p.local_root
    })) by {
        reveal(after_action);
    }
    what_is_there_stays(p, m, n, p.peer.len(), e.id);
    after_the_walk(c, e.id);
    assert(m.groups.contains_key(p.peer[i].0) == c.before.groups@.contains_key(p.peer[i].0));
}

proof fn others_write_elsewhere(c: Reconciled, path: Seq<nat>, k: int, i: int)
    requires
        c.done(),
        to_the_point(c),
        entry_at(c.peer.root, path, k) is Some,
        stands_once(c.peer.root, path, k),
        i == place_of(c.peer.root, path, k),
    ensures
        forall|j: int|
            0 <= j < c.pull().peer.len() && j != i ==> #[trigger] written_at(c.pull(), j) != Some(
                entry_at(c.peer.root, path, k)->0.id,
            ),
{
    let p = c.pull();
    let e = entry_at(c.peer.root, path, k)->0;
    let at = a_walk_finds_once(&c.peer.root, path, k);
    assert forall|j: int| 0 <= j < p.peer.len() && j != i implies #[trigger] written_at(p, j)
        != Some(e.id) by {
        let (q, n) = vault_laws::from_walk(&c.peer.root, None, false, j);
        assert(entry_at(c.peer.root, q, n) is Some);
        assert(p.peer[j].1.id != e.id);
        assert(p.verdicts[j] == c.verdicts@[j].deep_view());
    }
}

/// An entry that is taken over has the device's own texts, icon and times.
pub proof fn a_new_entry_keeps_its_columns(c: Reconciled, path: Seq<nat>, k: int)
    requires
        c.done(),
        to_the_point(c),
        entry_at(c.peer.root, path, k) is Some,
        stands_once(c.peer.root, path, k),
        !has_entry(c.local.root, entry_at(c.peer.root, path, k)->0.id),
        prevails(
            entry_at(c.peer.root, path, k)->0.content.times.last_modification_time,
            c.local.deleted_objects@,
            entry_at(c.peer.root, path, k)->0.id,
        ),
    ensures
        ({
            let e = entry_at(c.peer.root, path, k)->0;
            let row = c.after.entries@[e.id];
            &&& c.after.entries@.contains_key(e.id)
            &&& !row.is_recycled
            &&& has_columns_of(row, e)
            &&& carries(row, c.key, e, c.fingerprint_key, c.peer.binaries@)
        }),
{
    let p = c.pull();
    let m = c.before.opened(c.key);
    let e = entry_at(c.peer.root, path, k)->0;
    let i = an_addition(c, path, k);
    let n = (i + 1) as nat;
    a_new_entry_lands_in_its_group(c, path, k);
    peer_laws::walk_step(p, m, n);
    let t = walked(p, m, n);
    let group = t.tables.entries[e.id].group_uuid;
    assert(t.tables.entries[e.id] == mirror::record_of(
        e.deep_view(),
        group,
        false,
        p.fingerprint_key,
        p.peer_binaries,
    )) by {
        reveal(after_action);
    }
    others_write_elsewhere(c, path, k, i);
    what_is_there_stays(p, m, n, p.peer.len(), e.id);
    after_the_walk(c, e.id);
    let row = c.after.entries@[e.id];
    row_laws::rows_carry_the_entry(
        row,
        c.key,
        e,
        group,
        false,
        c.fingerprint_key,
        c.peer.binaries,
    );
}

/// An entry of the device that we deleted, and that the device has not edited
/// since, is not taken over: what we have under its identity stays.
pub proof fn a_deleted_entry_stays_deleted(c: Reconciled, path: Seq<nat>, k: int)
    requires
        c.done(),
        to_the_point(c),
        entry_at(c.peer.root, path, k) is Some,
        stands_once(c.peer.root, path, k),
        !has_entry(c.local.root, entry_at(c.peer.root, path, k)->0.id),
        !prevails(
            entry_at(c.peer.root, path, k)->0.content.times.last_modification_time,
            c.local.deleted_objects@,
            entry_at(c.peer.root, path, k)->0.id,
        ),
    ensures
        ({
            let id = entry_at(c.peer.root, path, k)->0.id;
            c.after.entries@.contains_key(id) == c.before.entries@.contains_key(id)
        }),
{
    let p = c.pull();
    let m = c.before.opened(c.key);
    let e = entry_at(c.peer.root, path, k)->0;
    let i = a_walk_finds_once(&c.peer.root, path, k);
    a_walk_finds(&c.local.root, e.id);
    an_edit_prevails(
        e.content.times.last_modification_time,
        c.local.deleted_objects@,
        e.id,
    );
    assert(action_for(p, i) is KeepDeleted);
    others_write_elsewhere(c, path, k, i);
    assert(written_at(p, i) is None);
    what_is_there_stays(p, m, 0, p.peer.len(), e.id);
    after_the_walk(c, e.id);
    assert(m.entries.contains_key(e.id) == c.before.entries@.contains_key(e.id));
}

// ---------------------------------------------------------------- what both sides hold

/// Whether a device's value of an entry is held.
pub open spec fn is_held(m: Mirror, owner: Seq<char>, id: Uuid) -> bool {
    exists|i: int|
        0 <= i < m.conflicts.rows@.len() && (#[trigger] m.conflicts.rows@[i]).owner@ == owner
            && m.conflicts.rows@[i].entry_uuid == id
}

proof fn rows_make_the_map(rows: Seq<ConflictRecord>, key: Seq<u8>, owner: Seq<char>, id: Uuid)
    ensures
        table::as_map(rows, key).contains_key((owner, id)) <==> exists|i: int|
            0 <= i < rows.len() && (#[trigger] rows[i]).owner@ == owner && rows[i].entry_uuid == id,
        table::as_map(rows, key).contains_key((owner, id)) ==> exists|i: int|
            0 <= i < rows.len() && (#[trigger] rows[i]).owner@ == owner && rows[i].entry_uuid == id
                && rows[i].row_view(key) == table::as_map(rows, key)[(owner, id)],
    decreases rows.len(),
{
    if rows.len() > 0 {
        let less = rows.drop_last();
        rows_make_the_map(less, key, owner, id);
        if rows.last().row_key() == (owner, id) {
            assert(rows[rows.len() - 1].owner@ == owner);
        } else {
            if table::as_map(less, key).contains_key((owner, id)) {
                let i = choose|i: int|
                    0 <= i < less.len() && (#[trigger] less[i]).owner@ == owner
                        && less[i].entry_uuid == id && less[i].row_view(key) == table::as_map(
                        less,
                        key,
                    )[(owner, id)];
                assert(rows[i].owner@ == owner && rows[i].entry_uuid == id);
            }
            if exists|i: int|
                0 <= i < rows.len() && (#[trigger] rows[i]).owner@ == owner && rows[i].entry_uuid
                    == id {
                let i = choose|i: int|
                    0 <= i < rows.len() && (#[trigger] rows[i]).owner@ == owner
                        && rows[i].entry_uuid == id;
                assert(less[i].owner@ == owner && less[i].entry_uuid == id);
            }
        }
    }
}

/// An entry that both sides hold, where the walk comes to it.
proof fn a_shared_entry(c: Reconciled, path: Seq<nat>, k: int, lp: Seq<nat>, lk: int) -> (i: int)
    requires
        c.done(),
        to_the_point(c),
        entry_at(c.peer.root, path, k) is Some,
        stands_once(c.peer.root, path, k),
        entry_at(c.local.root, lp, lk) is Some,
        stands_once(c.local.root, lp, lk),
        entry_at(c.local.root, lp, lk)->0.id == entry_at(c.peer.root, path, k)->0.id,
    ensures
        0 <= i < c.pull().peer.len(),
        i == place_of(c.peer.root, path, k),
        c.pull().peer[i].1 == entry_at(c.peer.root, path, k)->0.deep_view(),
        local_entry(c.pull().local, entry_at(c.peer.root, path, k)->0.id) == Some(
            entry_at(c.local.root, lp, lk)->0.deep_view(),
        ),
        c.pull().verdicts[i] == c.verdicts@[i].deep_view(),
        peer_laws::meets_once(c.pull(), i),
        peer_laws::faithful_verdicts(c.pull()),
        forall|j: int|
            0 <= j < c.pull().peer.len() && j != i ==> #[trigger] written_at(c.pull(), j) != Some(
                entry_at(c.peer.root, path, k)->0.id,
            ),
        pull_result(c.pull(), c.before.opened(c.key)) is Ok,
{
    let p = c.pull();
    let id = entry_at(c.peer.root, path, k)->0.id;
    let i = a_walk_finds_once(&c.peer.root, path, k);
    let l = a_walk_finds_once(&c.local.root, lp, lk);
    others_write_elsewhere(c, path, k, i);
    assert forall|j: int| 0 <= j < p.peer.len() implies (
    #[trigger] p.verdicts[j] matches ClassificationView::Conflict(remote) ==> remote.id
        == p.peer[j].1.id) by {
        let (q, n) = vault_laws::from_walk(&c.peer.root, None, false, j);
        assert(entry_at(c.peer.root, q, n) is Some);
        assert(p.verdicts[j] == c.verdicts@[j].deep_view());
    }
    i
}

proof fn held_after(c: Reconciled, id: Uuid)
    requires
        c.done(),
    ensures
        is_held(c.after, c.owner, id) <==> pull_result(
            c.pull(),
            c.before.opened(c.key),
        )->Ok_0.tables.conflicts.contains_key((c.owner, id)),
        is_held(c.after, c.owner, id) ==> exists|i: int|
            0 <= i < c.after.conflicts.rows@.len() && (
            #[trigger] c.after.conflicts.rows@[i]).owner@ == c.owner
                && c.after.conflicts.rows@[i].entry_uuid == id
                && c.after.conflicts.rows@[i].row_view(c.key) == pull_result(
                c.pull(),
                c.before.opened(c.key),
            )->Ok_0.tables.conflicts[(c.owner, id)],
{
    rows_make_the_map(c.after.conflicts.rows@, c.key, c.owner, id);
}

/// What was written of a shared entry, if anything, is what the pull leaves.
proof fn a_shared_row(c: Reconciled, i: int, id: Uuid)
    requires
        c.done(),
        has_entry(c.peer.root, id),
        0 <= i < c.pull().peer.len(),
        forall|j: int|
            0 <= j < c.pull().peer.len() && j != i ==> #[trigger] written_at(c.pull(), j) != Some(
                id,
            ),
    ensures
        ({
            let p = c.pull();
            let m = c.before.opened(c.key);
            let s = walked(p, m, i as nat);
            let t = walked(p, m, (i + 1) as nat);
            &&& after_entries(p, m, (i + 1) as nat) is Ok
            &&& after_entries(p, m, i as nat) is Ok
            &&& after_action(s, p, p.peer[i].0, p.peer[i].1, action_for(p, i)) == Ok::<
                PeerState,
                PeerFault,
            >(t)
            &&& s.tables.entries.contains_key(id) == c.before.entries@.contains_key(id)
            &&& s.tables.entries.contains_key(id) ==> s.tables.entries[id]
                == c.before.entries@[id].opened(c.key)
            &&& t.tables.entries.contains_key(id) == c.after.entries@.contains_key(id)
            &&& t.tables.entries.contains_key(id) ==> t.tables.entries[id]
                == c.after.entries@[id].opened(c.key)
            &&& t.outcome.auto_merged.contains(id) ==> c.outcome.auto_merged@.contains(id)
        }),
{
    let p = c.pull();
    let m = c.before.opened(c.key);
    what_is_there_stays(p, m, (i + 1) as nat, p.peer.len(), id);
    what_is_there_stays(p, m, 0, i as nat, id);
    peer_laws::walk_step(p, m, (i + 1) as nat);
    after_the_walk(c, id);
    assert(m.entries.contains_key(id) == c.before.entries@.contains_key(id));
}

/// Where the two sides agree on an entry, our row stays as it is, and nothing is
/// held of it for the device any more.
pub proof fn agreement_changes_nothing(
    c: Reconciled,
    path: Seq<nat>,
    k: int,
    lp: Seq<nat>,
    lk: int,
)
    requires
        c.done(),
        to_the_point(c),
        entry_at(c.peer.root, path, k) is Some,
        stands_once(c.peer.root, path, k),
        entry_at(c.local.root, lp, lk) is Some,
        stands_once(c.local.root, lp, lk),
        entry_at(c.local.root, lp, lk)->0.id == entry_at(c.peer.root, path, k)->0.id,
        c.verdicts@[place_of(c.peer.root, path, k)] is InSync,
    ensures
        ({
            let id = entry_at(c.peer.root, path, k)->0.id;
            &&& c.after.entries@.contains_key(id) == c.before.entries@.contains_key(id)
            &&& c.after.entries@.contains_key(id) ==> c.after.entries@[id].opened(c.key)
                == c.before.entries@[id].opened(c.key)
            &&& !is_held(c.after, c.owner, id)
            &&& !c.outcome.conflicted@.contains(id)
        }),
{
    let p = c.pull();
    let m = c.before.opened(c.key);
    let id = entry_at(c.peer.root, path, k)->0.id;
    let i = a_shared_entry(c, path, k, lp, lk);
    assert(action_for(p, i) is Agree);
    assert(has_entry(c.peer.root, id));
    a_shared_row(c, i, id);
    assert(written_at(p, i) is None);
    a_step_writes_one(
        walked(p, m, i as nat),
        p,
        p.peer[i].0,
        p.peer[i].1,
        action_for(p, i),
        walked(p, m, (i + 1) as nat),
        id,
    );
    peer_laws::badge_shows_genuine_conflicts(p, m, i);
    peer_laws::reports_genuine_conflicts(p, m, i);
    held_after(c, id);
}

/// Where the edits of an entry combine, our row takes the combined texts, icon and
/// times; it stays in its group, recycled or not; it is reported as merged; and
/// nothing is held of it for the device any more.
pub proof fn a_merged_entry_advances(
    c: Reconciled,
    path: Seq<nat>,
    k: int,
    lp: Seq<nat>,
    lk: int,
)
    requires
        c.done(),
        to_the_point(c),
        entry_at(c.peer.root, path, k) is Some,
        stands_once(c.peer.root, path, k),
        entry_at(c.local.root, lp, lk) is Some,
        stands_once(c.local.root, lp, lk),
        entry_at(c.local.root, lp, lk)->0.id == entry_at(c.peer.root, path, k)->0.id,
        c.verdicts@[place_of(c.peer.root, path, k)] is AutoMerged,
    ensures
        ({
            let id = entry_at(c.peer.root, path, k)->0.id;
            let merged = c.verdicts@[place_of(c.peer.root, path, k)]->merged;
            let was = c.before.entries@[id];
            let row = c.after.entries@[id];
            &&& c.before.entries@.contains_key(id)
            &&& c.after.entries@.contains_key(id)
            &&& row.group_uuid == was.group_uuid
            &&& row.is_recycled == was.is_recycled
            &&& has_columns_of(row, merged)
            &&& carries(row, c.key, merged, c.fingerprint_key, c.local.binaries@)
            &&& c.outcome.auto_merged@.contains(id)
            &&& !is_held(c.after, c.owner, id)
        }),
{
    let p = c.pull();
    let m = c.before.opened(c.key);
    let id = entry_at(c.peer.root, path, k)->0.id;
    let merged = c.verdicts@[place_of(c.peer.root, path, k)]->merged;
    let i = a_shared_entry(c, path, k, lp, lk);
    assert(action_for(p, i) == PeerAction::Advance(merged.deep_view()));
    assert(has_entry(c.peer.root, id));
    a_shared_row(c, i, id);
    an_advance(
        walked(p, m, i as nat),
        p,
        p.peer[i].0,
        p.peer[i].1,
        action_for(p, i),
        walked(p, m, (i + 1) as nat),
        merged.deep_view(),
        p.local_binaries,
    );
    let row = c.after.entries@[id];
    let was = c.before.entries@[id];
    row_laws::rows_carry_the_entry(
        row,
        c.key,
        merged,
        was.group_uuid,
        was.is_recycled,
        c.fingerprint_key,
        c.local.binaries,
    );
    peer_laws::badge_shows_genuine_conflicts(p, m, i);
    held_after(c, id);
}

proof fn an_advance(
    s: PeerState,
    p: Pull,
    parent: Uuid,
    e: EntryView,
    a: PeerAction,
    t: PeerState,
    value: EntryView,
    binaries: Seq<Seq<u8>>,
)
    requires
        after_action(s, p, parent, e, a) == Ok::<PeerState, PeerFault>(t),
        value.id == e.id,
        (a == PeerAction::Advance(value) && binaries == p.local_binaries) || (a
            == PeerAction::Adopt(value) && binaries == p.peer_binaries),
    ensures
        s.tables.entries.contains_key(e.id),
        t.tables.entries.contains_key(e.id),
        t.tables.entries[e.id] == mirror::record_of(
            value,
            s.tables.entries[e.id].group_uuid,
            s.tables.entries[e.id].is_recycled,
            p.fingerprint_key,
            binaries,
        ),
        t.outcome.auto_merged.contains(e.id),
{
    reveal(after_action);
    assert(t.outcome.auto_merged[s.outcome.auto_merged.len() as int] == e.id);
}

/// A conflict that we have settled, and that the device has not edited since, is
/// settled: our row stays, and nothing is held of it for the device any more.
pub proof fn a_conflict_settled_here_is_settled(
    c: Reconciled,
    path: Seq<nat>,
    k: int,
    lp: Seq<nat>,
    lk: int,
)
    requires
        c.done(),
        to_the_point(c),
        entry_at(c.peer.root, path, k) is Some,
        stands_once(c.peer.root, path, k),
        entry_at(c.local.root, lp, lk) is Some,
        stands_once(c.local.root, lp, lk),
        entry_at(c.local.root, lp, lk)->0.id == entry_at(c.peer.root, path, k)->0.id,
        c.verdicts@[place_of(c.peer.root, path, k)] is Conflict,
        is_settled(
            c.local_resolutions,
            entry_at(c.peer.root, path, k)->0.id,
            entry_at(c.peer.root, path, k)->0.content.times.last_modification_time,
        ),
    ensures
        ({
            let id = entry_at(c.peer.root, path, k)->0.id;
            &&& c.after.entries@.contains_key(id) == c.before.entries@.contains_key(id)
            &&& c.after.entries@.contains_key(id) ==> c.after.entries@[id].opened(c.key)
                == c.before.entries@[id].opened(c.key)
            &&& !is_held(c.after, c.owner, id)
            &&& !c.outcome.conflicted@.contains(id)
        }),
{
    let p = c.pull();
    let m = c.before.opened(c.key);
    let e = entry_at(c.peer.root, path, k)->0;
    let i = a_shared_entry(c, path, k, lp, lk);
    a_record_settles(c.local_resolutions, e.id, e.content.times.last_modification_time);
    assert(action_for(p, i) is HoldLocal);
    assert(has_entry(c.peer.root, e.id));
    a_shared_row(c, i, e.id);
    assert(written_at(p, i) is None);
    a_step_writes_one(
        walked(p, m, i as nat),
        p,
        p.peer[i].0,
        p.peer[i].1,
        action_for(p, i),
        walked(p, m, (i + 1) as nat),
        e.id,
    );
    peer_laws::badge_shows_genuine_conflicts(p, m, i);
    peer_laws::reports_genuine_conflicts(p, m, i);
    held_after(c, e.id);
}

/// A conflict that the device has settled, and that we have not edited since, is
/// settled its way: our row takes the device's texts, icon and times, in its
/// group; it is reported as merged; and nothing is held of it for the device any
/// more.
pub proof fn a_conflict_settled_there_is_adopted(
    c: Reconciled,
    path: Seq<nat>,
    k: int,
    lp: Seq<nat>,
    lk: int,
)
    requires
        c.done(),
        to_the_point(c),
        entry_at(c.peer.root, path, k) is Some,
        stands_once(c.peer.root, path, k),
        entry_at(c.local.root, lp, lk) is Some,
        stands_once(c.local.root, lp, lk),
        entry_at(c.local.root, lp, lk)->0.id == entry_at(c.peer.root, path, k)->0.id,
        c.verdicts@[place_of(c.peer.root, path, k)] is Conflict,
        !is_settled(
            c.local_resolutions,
            entry_at(c.peer.root, path, k)->0.id,
            entry_at(c.peer.root, path, k)->0.content.times.last_modification_time,
        ),
        is_settled(
            c.peer_resolutions,
            entry_at(c.peer.root, path, k)->0.id,
            entry_at(c.local.root, lp, lk)->0.content.times.last_modification_time,
        ),
    ensures
        ({
            let id = entry_at(c.peer.root, path, k)->0.id;
            let remote = c.verdicts@[place_of(c.peer.root, path, k)]->remote;
            let was = c.before.entries@[id];
            let row = c.after.entries@[id];
            &&& c.before.entries@.contains_key(id)
            &&& c.after.entries@.contains_key(id)
            &&& row.group_uuid == was.group_uuid
            &&& row.is_recycled == was.is_recycled
            &&& has_columns_of(row, remote)
            &&& carries(row, c.key, remote, c.fingerprint_key, c.peer.binaries@)
            &&& c.outcome.auto_merged@.contains(id)
            &&& !c.outcome.conflicted@.contains(id)
            &&& !is_held(c.after, c.owner, id)
        }),
{
    let p = c.pull();
    let m = c.before.opened(c.key);
    let e = entry_at(c.peer.root, path, k)->0;
    let ours = entry_at(c.local.root, lp, lk)->0;
    let remote = c.verdicts@[place_of(c.peer.root, path, k)]->remote;
    let i = a_shared_entry(c, path, k, lp, lk);
    a_record_settles(c.local_resolutions, e.id, e.content.times.last_modification_time);
    a_record_settles(c.peer_resolutions, e.id, ours.content.times.last_modification_time);
    assert(action_for(p, i) == PeerAction::Adopt(remote.deep_view()));
    assert(has_entry(c.peer.root, e.id));
    a_shared_row(c, i, e.id);
    an_advance(
        walked(p, m, i as nat),
        p,
        p.peer[i].0,
        p.peer[i].1,
        action_for(p, i),
        walked(p, m, (i + 1) as nat),
        remote.deep_view(),
        p.peer_binaries,
    );
    let row = c.after.entries@[e.id];
    let was = c.before.entries@[e.id];
    row_laws::rows_carry_the_entry(
        row,
        c.key,
        remote,
        was.group_uuid,
        was.is_recycled,
        c.fingerprint_key,
        c.peer.binaries,
    );
    peer_laws::badge_shows_genuine_conflicts(p, m, i);
    peer_laws::reports_genuine_conflicts(p, m, i);
    held_after(c, e.id);
}

/// A conflict that neither side has settled leaves our row as it is, is reported,
/// and has the device's texts, icon and times held beside ours.
pub proof fn a_genuine_conflict_is_held(
    c: Reconciled,
    path: Seq<nat>,
    k: int,
    lp: Seq<nat>,
    lk: int,
)
    requires
        c.done(),
        to_the_point(c),
        entry_at(c.peer.root, path, k) is Some,
        stands_once(c.peer.root, path, k),
        entry_at(c.local.root, lp, lk) is Some,
        stands_once(c.local.root, lp, lk),
        entry_at(c.local.root, lp, lk)->0.id == entry_at(c.peer.root, path, k)->0.id,
        c.verdicts@[place_of(c.peer.root, path, k)] is Conflict,
        !is_settled(
            c.local_resolutions,
            entry_at(c.peer.root, path, k)->0.id,
            entry_at(c.peer.root, path, k)->0.content.times.last_modification_time,
        ),
        !is_settled(
            c.peer_resolutions,
            entry_at(c.peer.root, path, k)->0.id,
            entry_at(c.local.root, lp, lk)->0.content.times.last_modification_time,
        ),
    ensures
        ({
            let id = entry_at(c.peer.root, path, k)->0.id;
            let remote = c.verdicts@[place_of(c.peer.root, path, k)]->remote;
            &&& c.after.entries@.contains_key(id) == c.before.entries@.contains_key(id)
            &&& c.after.entries@.contains_key(id) ==> c.after.entries@[id].opened(c.key)
                == c.before.entries@[id].opened(c.key)
            &&& c.outcome.conflicted@.contains(id)
            &&& exists|n: int| #[trigger] holds_value(c.after, n, c.owner, remote)
        }),
{
    let p = c.pull();
    let m = c.before.opened(c.key);
    let e = entry_at(c.peer.root, path, k)->0;
    let ours = entry_at(c.local.root, lp, lk)->0;
    let remote = c.verdicts@[place_of(c.peer.root, path, k)]->remote;
    let i = a_shared_entry(c, path, k, lp, lk);
    a_record_settles(c.local_resolutions, e.id, e.content.times.last_modification_time);
    a_record_settles(c.peer_resolutions, e.id, ours.content.times.last_modification_time);
    assert(action_for(p, i) == PeerAction::Park(remote.deep_view()));
    assert(has_entry(c.peer.root, e.id));
    a_shared_row(c, i, e.id);
    assert(written_at(p, i) is None);
    a_step_writes_one(
        walked(p, m, i as nat),
        p,
        p.peer[i].0,
        p.peer[i].1,
        action_for(p, i),
        walked(p, m, (i + 1) as nat),
        e.id,
    );
    peer_laws::badge_shows_genuine_conflicts(p, m, i);
    peer_laws::reports_genuine_conflicts(p, m, i);
    held_after(c, e.id);
    let n = choose|n: int|
        0 <= n < c.after.conflicts.rows@.len() && (#[trigger] c.after.conflicts.rows@[n]).owner@
            == c.owner && c.after.conflicts.rows@[n].entry_uuid == e.id
            && c.after.conflicts.rows@[n].row_view(c.key) == conflict_rows::conflict_of(
            remote.deep_view(),
        );
    assert(holds_value(c.after, n, c.owner, remote));
}

/// Whether the `n`-th held row is a device's, and holds a value of an entry: its
/// texts, icon and times.
pub open spec fn holds_value(m: Mirror, n: int, owner: Seq<char>, e: Entry) -> bool {
    let held = m.conflicts.rows@[n];
    &&& 0 <= n < m.conflicts.rows@.len()
    &&& held.owner@ == owner
    &&& held.entry_uuid == e.id
    &&& held.title@ == e.content.title@
    &&& held.username@ == e.content.username@
    &&& held.url@ == e.content.url@
    &&& held.notes@ == e.content.notes@
    &&& held.icon_index == e.content.icon_id
    &&& held.group_uuid is None
    &&& held.icon_custom_uuid is Some <==> e.content.custom_icon_uuid is Some
    &&& held.icon_custom_uuid is Some ==> held.icon_custom_uuid->0@ == codec::uuid_text(
        e.content.custom_icon_uuid->0,
    )
    &&& is_known_millis_of(held.created_at, e.content.times.creation_time)
    &&& is_known_millis_of(held.modified_at, e.content.times.last_modification_time)
    &&& is_known_millis_of(held.accessed_at, e.content.times.last_access_time)
    &&& e.content.times.expires ==> is_known_millis_of(
        held.expires_at,
        e.content.times.expiry_time,
    )
    &&& !e.content.times.expires ==> held.expires_at is None
}

// --------------------------------------------------------------------------- deletions

proof fn unmet_entries_stay(c: Reconciled, id: Uuid)
    requires
        c.done(),
        to_the_point(c),
        !has_entry(c.peer.root, id),
    ensures
        ({
            let p = c.pull();
            let m = c.before.opened(c.key);
            let s = walked(p, m, p.peer.len());
            &&& after_entries(p, m, p.peer.len()) is Ok
            &&& s.tables.entries.contains_key(id) == c.before.entries@.contains_key(id)
            &&& s.tables.entries.contains_key(id) ==> s.tables.entries[id]
                == c.before.entries@[id].opened(c.key)
        }),
{
    let p = c.pull();
    let m = c.before.opened(c.key);
    assert forall|j: int| 0 <= j < p.peer.len() implies #[trigger] written_at(p, j) != Some(id) by {
        let (q, n) = vault_laws::from_walk(&c.peer.root, None, false, j);
        assert(entry_at(c.peer.root, q, n) is Some);
        assert(p.verdicts[j] == c.verdicts@[j].deep_view());
    }
    what_is_there_stays(p, m, 0, p.peer.len(), id);
    assert(m.entries.contains_key(id) == c.before.entries@.contains_key(id));
}

/// An entry of ours that the device has deleted, and that we have not edited
/// since, goes, and is reported as deleted.
pub proof fn a_deletion_is_carried_over(c: Reconciled, lp: Seq<nat>, lk: int)
    requires
        c.done(),
        to_the_point(c),
        entry_at(c.local.root, lp, lk) is Some,
        stands_once(c.local.root, lp, lk),
        !has_entry(c.peer.root, entry_at(c.local.root, lp, lk)->0.id),
        is_deleted_in(c.peer.deleted_objects@, entry_at(c.local.root, lp, lk)->0.id),
        !prevails(
            entry_at(c.local.root, lp, lk)->0.content.times.last_modification_time,
            c.peer.deleted_objects@,
            entry_at(c.local.root, lp, lk)->0.id,
        ),
    ensures
        !c.after.entries@.contains_key(entry_at(c.local.root, lp, lk)->0.id),
        c.outcome.deleted@.contains(entry_at(c.local.root, lp, lk)->0.id),
{
    let p = c.pull();
    let m = c.before.opened(c.key);
    let e = entry_at(c.local.root, lp, lk)->0;
    let l = a_walk_finds_once(&c.local.root, lp, lk);
    a_walk_finds(&c.peer.root, e.id);
    stones_say(c.peer.deleted_objects@, e.id);
    an_edit_prevails(
        e.content.times.last_modification_time,
        c.peer.deleted_objects@,
        e.id,
    );
    assert(is_dropped(p, l));
    unmet_entries_stay(c, e.id);
    let s = walked(p, m, p.peer.len());
    let d = after_deletes(p, s, p.local.len());
    the_dropped_go(p, s, p.local.len(), l);
    peer_laws::tombstones_frame(p.peer_tombstones, d.tables, p.peer_tombstones.len());
    assert(c.after.opened(c.key).entries.contains_key(e.id) == c.after.entries@.contains_key(e.id));
}

proof fn the_dropped_go(p: Pull, s: PeerState, n: nat, l: int)
    requires
        0 <= l < n <= p.local.len(),
        is_dropped(p, l),
    ensures
        !after_deletes(p, s, n).tables.entries.contains_key(p.local[l].1.id),
        after_deletes(p, s, n).outcome.deleted.contains(p.local[l].1.id),
    decreases n,
{
    let id = p.local[l].1.id;
    let before = after_deletes(p, s, (n - 1) as nat);
    let after = after_deletes(p, s, n);
    if l < n - 1 {
        the_dropped_go(p, s, (n - 1) as nat, l);
        let i = choose|i: int| 0 <= i < before.outcome.deleted.len() && before.outcome.deleted[i] == id;
        assert(after.outcome.deleted[i] == id);
    } else {
        assert(after.outcome.deleted[before.outcome.deleted.len() as int] == id);
    }
}

/// An entry of ours that the device does not hold stays as it is, unless the
/// device has deleted it and we have not edited it since.
pub proof fn an_entry_of_ours_stays(c: Reconciled, lp: Seq<nat>, lk: int)
    requires
        c.done(),
        to_the_point(c),
        entry_at(c.local.root, lp, lk) is Some,
        stands_once(c.local.root, lp, lk),
        !has_entry(c.peer.root, entry_at(c.local.root, lp, lk)->0.id),
        prevails(
            entry_at(c.local.root, lp, lk)->0.content.times.last_modification_time,
            c.peer.deleted_objects@,
            entry_at(c.local.root, lp, lk)->0.id,
        ),
    ensures
        ({
            let id = entry_at(c.local.root, lp, lk)->0.id;
            &&& c.after.entries@.contains_key(id) == c.before.entries@.contains_key(id)
            &&& c.after.entries@.contains_key(id) ==> c.after.entries@[id].opened(c.key)
                == c.before.entries@[id].opened(c.key)
        }),
{
    let p = c.pull();
    let m = c.before.opened(c.key);
    let e = entry_at(c.local.root, lp, lk)->0;
    let l = a_walk_finds_once(&c.local.root, lp, lk);
    a_walk_finds(&c.peer.root, e.id);
    an_edit_prevails(
        e.content.times.last_modification_time,
        c.peer.deleted_objects@,
        e.id,
    );
    assert forall|i: int| 0 <= i < p.local.len() && p.local[i].1.id
        == e.id implies !#[trigger] is_dropped(p, i) by {
        assert(i == l);
    }
    unmet_entries_stay(c, e.id);
    let s = walked(p, m, p.peer.len());
    let d = after_deletes(p, s, p.local.len());
    what_is_not_dropped_stays(p, s, p.local.len(), e.id);
    peer_laws::tombstones_frame(p.peer_tombstones, d.tables, p.peer_tombstones.len());
    assert(c.after.opened(c.key).entries.contains_key(e.id) == c.after.entries@.contains_key(e.id));
}

/// A deletion that the device has of an object that is not here after the pull is
/// on record here: with the earliest time that we or the device have for it, and
/// without one where neither has.
pub proof fn a_deletion_is_on_record(c: Reconciled, id: Uuid)
    requires
        c.done(),
        is_deleted_in(c.peer.deleted_objects@, id),
        !c.after.entries@.contains_key(id),
        !c.after.groups@.contains_key(id),
    ensures
        c.after.tombstones@.contains_key(id),
        ({
            let list = c.peer.deleted_objects@;
            match c.after.tombstones@[id] {
                Some(ms) => {
                    &&& (c.before.tombstones@.contains_key(id) && c.before.tombstones@[id] == Some(
                        ms,
                    )) || exists|i: int|
                        0 <= i < list.len() && (#[trigger] list[i]).uuid == id
                            && list[i].deleted_at is Some && list[i].deleted_at->0.millis == ms
                    &&& forall|i: int|
                        0 <= i < list.len() && (#[trigger] list[i]).uuid == id
                            && list[i].deleted_at is Some ==> ms <= list[i].deleted_at->0.millis
                },
                None => forall|i: int|
                    0 <= i < list.len() && (#[trigger] list[i]).uuid == id
                        ==> list[i].deleted_at is None,
            }
        }),
{
    let p = c.pull();
    let m = c.before.opened(c.key);
    let list = c.peer.deleted_objects@;
    let s = walked(p, m, p.peer.len());
    let d = after_deletes(p, s, p.local.len());
    stones_say(list, id);
    peer_laws::deletes_frame(p, s, p.local.len());
    peer_laws::tombstones_frame(list, d.tables, list.len());
    peer_laws::merged_tombstones_are_there(list, d.tables, list.len(), id);
    assert(c.after.opened(c.key).entries.contains_key(id) == c.after.entries@.contains_key(id));
    assert(c.after.opened(c.key).groups.contains_key(id) == c.after.groups@.contains_key(id));
    stones_come_from_before(p, m, p.peer.len(), id);
    match tombstone_of(list, id) {
        Some(Some(t)) => {
            let i = choose|i: int|
                0 <= i < list.len() && (#[trigger] list[i]).uuid == id && list[i].deleted_at
                    == Some(t);
            assert(list[i].uuid == id && list[i].deleted_at->0.millis == t.millis);
        },
        _ => {},
    }
}

proof fn stones_come_from_before(p: Pull, m: MirrorView, n: nat, id: Uuid)
    requires
        after_entries(p, m, n) is Ok,
    ensures
        walked(p, m, n).tables.tombstones.contains_key(id) ==> m.tombstones.contains_key(id)
            && walked(p, m, n).tables.tombstones[id] == m.tombstones[id],
    decreases n,
{
    if n > 0 {
        peer_laws::walk_step(p, m, n);
        stones_come_from_before(p, m, (n - 1) as nat, id);
        reveal(after_action);
    }
}

} // verus!
