//! Ingest of another device's vault.
//!
//! Every entry that both devices hold has been classified: the two agree, one
//! side's edit can be taken over, or they conflict. Agreement clears a held
//! conflict. A merged value replaces ours. A conflict leaves ours untouched and
//! keeps theirs as a held row, unless one side has already settled it.
//!
//! Deletions travel as tombstones, and the same rule decides in both
//! directions: an edit beats a deletion only if it is newer. A live object
//! never carries its own tombstone.

use vstd::prelude::*;

use crate::codec::Uuid;
use crate::conflict_rows;
use crate::conflict_rows::ConflictRecord;
use crate::crypto;
use crate::crypto::{NonceSource, SessionKey};
use crate::error::{EngineError, SqliteError};
use crate::mirror;
use crate::mirror::{EntryRecord, Mirror, MirrorView};
use crate::rows;
use crate::table;
use crate::table::Keyed;
use crate::time;
use crate::time::Timestamp;
use crate::vault;
use crate::vault::{DeletedObject, Entry, EntryView, Placed, Vault};

verus! {

/// A settled conflict: which entry, and when it was settled.
#[derive(Debug, Clone, Copy, PartialEq, Eq, Structural)]
pub struct ResolutionRecord {
    /// The entry.
    pub entry: Uuid,
    /// When the conflict was settled.
    pub resolved_at: Timestamp,
}

/// How a device's entry relates to ours.
#[derive(Debug)]
pub enum Classification {
    /// Nothing diverges.
    InSync,
    /// The edits combine.
    AutoMerged {
        /// The combined entry.
        merged: Entry,
    },
    /// Both sides changed the same thing.
    Conflict {
        /// The device's side.
        remote: Entry,
    },
    /// A verdict of a kind not known here; nothing is done on it.
    Unrecognised,
}

/// What a [`Classification`] holds.
pub enum ClassificationView {
    InSync,
    AutoMerged(EntryView),
    Conflict(EntryView),
    Unrecognised,
}

impl DeepView for Classification {
    type V = ClassificationView;

    open spec fn deep_view(&self) -> ClassificationView {
        match self {
            Classification::InSync => ClassificationView::InSync,
            Classification::AutoMerged { merged } => ClassificationView::AutoMerged(
                merged.deep_view(),
            ),
            Classification::Conflict { remote } => ClassificationView::Conflict(
                remote.deep_view(),
            ),
            Classification::Unrecognised => ClassificationView::Unrecognised,
        }
    }
}

/// Outcome of an ingest of another device's vault.
///
/// A non-empty `auto_merged`, `added` or `deleted` means that the local side
/// changed and must be saved; pure agreement and pure conflict change nothing.
#[derive(Debug)]
#[non_exhaustive]
pub struct IngestPeerOutcome {
    /// Entries whose conflict is held, to be badged.
    pub conflicted: Vec<Uuid>,
    /// Entries advanced to a merged or adopted value.
    pub auto_merged: Vec<Uuid>,
    /// Entries taken over from the device, newer edits of deleted ones
    /// included.
    pub added: Vec<Uuid>,
    /// Entries removed because the device deleted them.
    pub deleted: Vec<Uuid>,
    /// How many entries agreed outright.
    pub in_sync: usize,
}

/// What an [`IngestPeerOutcome`] holds.
#[verifier::ext_equal]
pub struct OutcomeView {
    pub conflicted: Seq<Uuid>,
    pub auto_merged: Seq<Uuid>,
    pub added: Seq<Uuid>,
    pub deleted: Seq<Uuid>,
    pub in_sync: nat,
}

impl View for IngestPeerOutcome {
    type V = OutcomeView;

    open spec fn view(&self) -> OutcomeView {
        OutcomeView {
            conflicted: self.conflicted@,
            auto_merged: self.auto_merged@,
            added: self.added@,
            deleted: self.deleted@,
            in_sync: self.in_sync as nat,
        }
    }
}

/// The outcome of a pass that met nothing.
pub open spec fn no_outcome() -> OutcomeView {
    OutcomeView {
        conflicted: Seq::empty(),
        auto_merged: Seq::empty(),
        added: Seq::empty(),
        deleted: Seq::empty(),
        in_sync: 0,
    }
}

// ------------------------------------------------------------------- look-ups

/// Entries of a walk with the groups that hold them.
pub open spec fn walk_view<'a>(placed: Seq<Placed<'a>>) -> Seq<(Uuid, EntryView)> {
    Seq::new(placed.len(), |i: int| (placed[i].group, placed[i].entry.deep_view()))
}

/// Position of the last of the first `n` entries with the given identity.
pub open spec fn last_with_id(list: Seq<(Uuid, EntryView)>, n: nat, id: Uuid) -> Option<int>
    decreases n,
{
    if n == 0 || n > list.len() {
        None
    } else if list[n - 1].1.id == id {
        Some(n - 1)
    } else {
        last_with_id(list, (n - 1) as nat, id)
    }
}

/// The local entry with the given identity.
pub open spec fn local_entry(list: Seq<(Uuid, EntryView)>, id: Uuid) -> Option<EntryView> {
    match last_with_id(list, list.len(), id) {
        Some(i) => Some(list[i].1),
        None => None,
    }
}

/// Whether a walk met an entry with the given identity.
pub open spec fn holds_entry(list: Seq<(Uuid, EntryView)>, id: Uuid) -> bool {
    last_with_id(list, list.len(), id) is Some
}

/// The deletion time a list of tombstones gives an object: the earliest known
/// one where there are several; `None` where there is no tombstone.
pub open spec fn tombstone_of(list: Seq<DeletedObject>, id: Uuid) -> Option<Option<Timestamp>>
    decreases list.len(),
{
    if list.len() == 0 {
        None
    } else {
        let before = tombstone_of(list.drop_last(), id);
        if list.last().uuid != id {
            before
        } else {
            match before {
                Some(t) => Some(time::earliest_of(t, list.last().deleted_at)),
                None => Some(list.last().deleted_at),
            }
        }
    }
}

/// When an entry's conflict was last settled, if ever.
pub open spec fn resolution_of(list: Seq<ResolutionRecord>, id: Uuid) -> Option<Timestamp>
    decreases list.len(),
{
    if list.len() == 0 {
        None
    } else {
        let before = resolution_of(list.drop_last(), id);
        if list.last().entry != id {
            before
        } else {
            match before {
                Some(t) => if time::later(list.last().resolved_at, t) {
                    Some(list.last().resolved_at)
                } else {
                    Some(t)
                },
                None => Some(list.last().resolved_at),
            }
        }
    }
}

fn find_last<'a>(placed: &Vec<Placed<'a>>, id: Uuid) -> (r: Option<usize>)
    ensures
        match r {
            Some(i) => i < placed@.len() && last_with_id(
                walk_view(placed@),
                placed@.len(),
                id,
            ) == Some(i as int),
            None => last_with_id(walk_view(placed@), placed@.len(), id) is None,
        },
{
    let mut n: usize = placed.len();
    while n > 0
        invariant
            n <= placed.len(),
            last_with_id(walk_view(placed@), placed@.len(), id) == last_with_id(
                walk_view(placed@),
                n as nat,
                id,
            ),
        decreases n,
    {
        if placed[n - 1].entry.id == id {
            return Some(n - 1);
        }
        n = n - 1;
    }
    None
}

/// The deletion time a list of tombstones gives an object. The outer `None`
/// means that there is no tombstone.
pub fn find_tombstone(list: &Vec<DeletedObject>, id: Uuid) -> (r: Option<Option<Timestamp>>)
    ensures
        r == tombstone_of(list@, id),
{
    let mut out: Option<Option<Timestamp>> = None;
    let mut i: usize = 0;
    proof {
        assert(list@.take(0) =~= Seq::empty());
    }
    while i < list.len()
        invariant
            i <= list.len(),
            out == tombstone_of(list@.take(i as int), id),
        decreases list.len() - i,
    {
        proof {
            assert(list@.take(i + 1).drop_last() =~= list@.take(i as int));
        }
        if list[i].uuid == id {
            out = match out {
                Some(t) => Some(time::earliest(t, list[i].deleted_at)),
                None => Some(list[i].deleted_at),
            };
        }
        i = i + 1;
    }
    proof {
        assert(list@.take(list@.len() as int) =~= list@);
    }
    out
}

/// When an entry's conflict was last settled, if ever.
pub fn find_resolution(list: &Vec<ResolutionRecord>, id: Uuid) -> (r: Option<Timestamp>)
    ensures
        r == resolution_of(list@, id),
{
    let mut out: Option<Timestamp> = None;
    let mut i: usize = 0;
    proof {
        assert(list@.take(0) =~= Seq::empty());
    }
    while i < list.len()
        invariant
            i <= list.len(),
            out == resolution_of(list@.take(i as int), id),
        decreases list.len() - i,
    {
        proof {
            assert(list@.take(i + 1).drop_last() =~= list@.take(i as int));
        }
        if list[i].entry == id {
            out = match out {
                Some(t) => if list[i].resolved_at.is_after(t) {
                    Some(list[i].resolved_at)
                } else {
                    Some(t)
                },
                None => Some(list[i].resolved_at),
            };
        }
        i = i + 1;
    }
    proof {
        assert(list@.take(list@.len() as int) =~= list@);
    }
    out
}

// ------------------------------------------------------------------ the decision

/// Everything a pull from a device brings together.
pub struct Pull {
    pub owner: Seq<char>,
    pub fingerprint_key: Seq<u8>,
    pub local_root: Uuid,
    pub local: Seq<(Uuid, EntryView)>,
    pub local_binaries: Seq<Seq<u8>>,
    pub local_tombstones: Seq<DeletedObject>,
    pub local_resolutions: Seq<ResolutionRecord>,
    pub peer: Seq<(Uuid, EntryView)>,
    pub peer_binaries: Seq<Seq<u8>>,
    pub peer_tombstones: Seq<DeletedObject>,
    pub peer_resolutions: Seq<ResolutionRecord>,
    pub verdicts: Seq<ClassificationView>,
}

/// The pull of one vault by another.
pub open spec fn pull_of(
    fingerprint_key: Seq<u8>,
    owner: Seq<char>,
    local: Vault,
    peer: Vault,
    local_resolutions: Seq<ResolutionRecord>,
    peer_resolutions: Seq<ResolutionRecord>,
    verdicts: Seq<ClassificationView>,
) -> Pull {
    Pull {
        owner,
        fingerprint_key,
        local_root: local.root.id,
        local: walk_view(vault::placed_entries(&local.root, None, false)),
        local_binaries: local.binaries.deep_view(),
        local_tombstones: local.deleted_objects@,
        local_resolutions,
        peer: walk_view(vault::placed_entries(&peer.root, None, false)),
        peer_binaries: peer.binaries.deep_view(),
        peer_tombstones: peer.deleted_objects@,
        peer_resolutions,
        verdicts,
    }
}

/// What is done about one of the device's entries.
pub enum PeerAction {
    /// We deleted it, at least as recently as the device changed it.
    KeepDeleted,
    /// We do not hold it: take it over. Our tombstone goes if we have one.
    Add,
    /// The two agree.
    Agree,
    /// Ours advances to the merged value.
    Advance(EntryView),
    /// We settled this conflict, and the device has not edited since.
    HoldLocal,
    /// The device settled this conflict, and we have not edited since.
    Adopt(EntryView),
    /// A genuine conflict: the device's value is held beside ours.
    Park(EntryView),
    /// An unknown verdict.
    Nothing,
}

/// What is done about a conflict, given the two sides' last edits and when
/// each side settled it.
pub open spec fn conflict_action(
    local_mtime: Option<Timestamp>,
    peer_mtime: Option<Timestamp>,
    local_resolved: Option<Timestamp>,
    peer_resolved: Option<Timestamp>,
    remote: EntryView,
) -> PeerAction {
    if local_resolved is Some && !time::is_edited_after(peer_mtime, local_resolved) {
        PeerAction::HoldLocal
    } else if peer_resolved is Some && !time::is_edited_after(local_mtime, peer_resolved) {
        PeerAction::Adopt(remote)
    } else {
        PeerAction::Park(remote)
    }
}

/// When an entry last changed.
pub open spec fn mtime_of(e: EntryView) -> Option<Timestamp> {
    e.content.times.last_modification_time
}

/// What is done about the device's `i`-th entry.
pub open spec fn action_for(p: Pull, i: int) -> PeerAction {
    let e = p.peer[i].1;
    match local_entry(p.local, e.id) {
        None => match tombstone_of(p.local_tombstones, e.id) {
            Some(deleted_at) => if time::edit_wins(mtime_of(e), deleted_at) {
                PeerAction::Add
            } else {
                PeerAction::KeepDeleted
            },
            None => PeerAction::Add,
        },
        Some(ours) => match p.verdicts[i] {
            ClassificationView::InSync => PeerAction::Agree,
            ClassificationView::AutoMerged(merged) => PeerAction::Advance(merged),
            ClassificationView::Conflict(remote) => conflict_action(
                mtime_of(ours),
                mtime_of(e),
                resolution_of(p.local_resolutions, e.id),
                resolution_of(p.peer_resolutions, e.id),
                remote,
            ),
            ClassificationView::Unrecognised => PeerAction::Nothing,
        },
    }
}

/// How many nonces an action on the entry `e` takes.
pub open spec fn action_seals(a: PeerAction, e: EntryView) -> nat {
    match a {
        PeerAction::Add => mirror::entry_seals(e),
        PeerAction::Advance(merged) => mirror::entry_seals(merged),
        PeerAction::Adopt(remote) => mirror::entry_seals(remote),
        PeerAction::Park(remote) => rows::content_seals(remote.content),
        _ => 0,
    }
}

/// Whether every value an action seals is short enough for it.
pub open spec fn sealable_action(a: PeerAction, e: EntryView) -> bool {
    match a {
        PeerAction::Add => mirror::sealable_entry(e),
        PeerAction::Advance(merged) => mirror::sealable_entry(merged),
        PeerAction::Adopt(remote) => mirror::sealable_entry(remote),
        PeerAction::Park(remote) => rows::sealable_content(remote.content),
        _ => true,
    }
}

/// How many nonces the device's first `n` entries take.
pub open spec fn pull_seals(p: Pull, n: nat) -> nat
    decreases n,
{
    if n == 0 {
        0
    } else {
        pull_seals(p, (n - 1) as nat) + action_seals(action_for(p, n - 1), p.peer[n - 1].1)
    }
}

/// Whether every value a pull seals is short enough for it.
pub open spec fn sealable_pull(p: Pull) -> bool {
    forall|i: int|
        0 <= i < p.peer.len() ==> sealable_action(#[trigger] action_for(p, i), p.peer[i].1)
}

// -------------------------------------------------------------------- its nonces

/// The entry whose rows an action writes, if it writes any.
pub open spec fn written_by(a: PeerAction, e: EntryView) -> Option<Uuid> {
    match a {
        PeerAction::Add => Some(e.id),
        PeerAction::Advance(merged) => Some(merged.id),
        PeerAction::Adopt(remote) => Some(remote.id),
        _ => None,
    }
}

/// The entry whose rows the device's `i`-th entry brings, if it brings any.
pub open spec fn written_at(p: Pull, i: int) -> Option<Uuid> {
    written_by(action_for(p, i), p.peer[i].1)
}

/// The entry of which the device's `i`-th entry brings a held value, if it
/// brings one.
pub open spec fn parked_at(p: Pull, i: int) -> Option<Uuid> {
    match action_for(p, i) {
        PeerAction::Park(remote) => Some(remote.id),
        _ => None,
    }
}

/// Whether the rows that the `i`-th entry brings are not written again among the
/// first `n`.
pub open spec fn written_last(p: Pull, i: int, n: nat) -> bool {
    written_at(p, i) is Some && forall|j: int|
        i < j < n ==> #[trigger] written_at(p, j) != written_at(p, i)
}

/// Whether the held value that the `i`-th entry brings is not held anew among the
/// first `n`.
pub open spec fn parked_last(p: Pull, i: int, n: nat) -> bool {
    parked_at(p, i) is Some && forall|j: int|
        i < j < n ==> #[trigger] parked_at(p, j) != parked_at(p, i)
}

/// The blobs that the `i`-th entry brought and that are still there after the
/// pull.
pub open spec fn brought_by(
    entries: Map<Uuid, EntryRecord>,
    held: Seq<ConflictRecord>,
    p: Pull,
    i: int,
) -> Option<Seq<Seq<u8>>> {
    let n = p.peer.len();
    if written_last(p, i, n) && entries.contains_key(written_at(p, i)->0) {
        Some(mirror::entry_blobs(entries[written_at(p, i)->0]))
    } else if parked_last(p, i, n) && table::has_row(held, (p.owner, parked_at(p, i)->0)) {
        Some(
            rows::blobs_in(
                table::row_at(held, (p.owner, parked_at(p, i)->0)).fields.protected@,
            ),
        )
    } else {
        None
    }
}

/// Whether what the device's entries brought carries the drawn nonces in turn,
/// each where the one before it left off.
pub open spec fn pulled_in_turn(
    entries: Map<Uuid, EntryRecord>,
    held: Seq<ConflictRecord>,
    p: Pull,
    drawn: Seq<[u8; 12]>,
) -> bool {
    forall|i: int|
        0 <= i < p.peer.len() ==> (#[trigger] brought_by(entries, held, p, i) matches Some(blobs)
            ==> crypto::carries_nonces(blobs, crypto::left_of(drawn, pull_seals(p, i as nat)))
            && blobs.len() == action_seals(action_for(p, i), p.peer[i].1))
}

/// Whether the entries that the first `n` wrote carry the drawn nonces in turn.
#[verifier::opaque]
spec fn entries_in_turn(
    entries: Map<Uuid, EntryRecord>,
    p: Pull,
    n: nat,
    drawn: Seq<[u8; 12]>,
) -> bool {
    forall|i: int|
        0 <= i < n && #[trigger] written_last(p, i, n) && entries.contains_key(
            written_at(p, i)->0,
        ) ==> mirror::sealed_with(
            entries[written_at(p, i)->0],
            crypto::left_of(drawn, pull_seals(p, i as nat)),
            action_seals(action_for(p, i), p.peer[i].1),
        )
}

spec fn row_sealed_with(row: ConflictRecord, drawn: Seq<[u8; 12]>, seals: nat) -> bool {
    crypto::carries_nonces(rows::blobs_in(row.fields.protected@), drawn)
        && row.fields.protected@.len() == seals
}

/// Whether the values that the first `n` had held carry the drawn nonces in
/// turn.
#[verifier::opaque]
spec fn rows_in_turn(
    held: Seq<ConflictRecord>,
    p: Pull,
    n: nat,
    drawn: Seq<[u8; 12]>,
) -> bool {
    forall|i: int, k: int|
        0 <= i < n && #[trigger] parked_last(p, i, n) && 0 <= k < held.len() && (
        #[trigger] held[k]).row_key() == (p.owner, parked_at(p, i)->0) ==> row_sealed_with(
            held[k],
            crypto::left_of(drawn, pull_seals(p, i as nat)),
            action_seals(action_for(p, i), p.peer[i].1),
        )
}

/// Whether one action changed the entries as it says, and sealed what it wrote.
spec fn entries_step(
    before: Map<Uuid, EntryRecord>,
    after: Map<Uuid, EntryRecord>,
    written: Option<Uuid>,
    drawn: Seq<[u8; 12]>,
    seals: nat,
) -> bool {
    match written {
        Some(u) => after == before.insert(u, after[u]) && mirror::sealed_with(
            after[u],
            drawn,
            seals,
        ),
        None => after == before,
    }
}

/// Whether one action left the held values as they were, dropped some, or sealed
/// the one it had held.
spec fn rows_step(
    before: Seq<ConflictRecord>,
    after: Seq<ConflictRecord>,
    owner: Seq<char>,
    parked: Option<Uuid>,
    drawn: Seq<[u8; 12]>,
    seals: nat,
) -> bool {
    forall|k: int|
        0 <= k < after.len() ==> if parked is Some && (#[trigger] after[k]).row_key() == (
            owner,
            parked->0,
        ) {
            row_sealed_with(after[k], drawn, seals)
        } else {
            before.contains(after[k])
        }
}

proof fn entries_go_on(
    before: Map<Uuid, EntryRecord>,
    after: Map<Uuid, EntryRecord>,
    p: Pull,
    i: nat,
    drawn: Seq<[u8; 12]>,
)
    requires
        entries_in_turn(before, p, i, drawn),
        entries_step(
            before,
            after,
            written_at(p, i as int),
            crypto::left_of(drawn, pull_seals(p, i)),
            action_seals(action_for(p, i as int), p.peer[i as int].1),
        ),
    ensures
        entries_in_turn(after, p, i + 1, drawn),
{
    reveal(entries_in_turn);
    assert forall|k: int|
        0 <= k < i + 1 && #[trigger] written_last(p, k, i + 1) && after.contains_key(
            written_at(p, k)->0,
        ) implies mirror::sealed_with(
        after[written_at(p, k)->0],
        crypto::left_of(drawn, pull_seals(p, k as nat)),
        action_seals(action_for(p, k), p.peer[k].1),
    ) by {
        if k < i {
            assert(written_at(p, i as int) != written_at(p, k));
            assert(written_last(p, k, i));
        }
    }
}

proof fn rows_go_on(
    before: Seq<ConflictRecord>,
    after: Seq<ConflictRecord>,
    p: Pull,
    i: nat,
    drawn: Seq<[u8; 12]>,
)
    requires
        rows_in_turn(before, p, i, drawn),
        rows_step(
            before,
            after,
            p.owner,
            parked_at(p, i as int),
            crypto::left_of(drawn, pull_seals(p, i)),
            action_seals(action_for(p, i as int), p.peer[i as int].1),
        ),
    ensures
        rows_in_turn(after, p, i + 1, drawn),
{
    reveal(rows_in_turn);
    assert forall|a: int, k: int|
        0 <= a < i + 1 && #[trigger] parked_last(p, a, i + 1) && 0 <= k < after.len() && (
        #[trigger] after[k]).row_key() == (p.owner, parked_at(p, a)->0) implies row_sealed_with(
        after[k],
        crypto::left_of(drawn, pull_seals(p, a as nat)),
        action_seals(action_for(p, a), p.peer[a].1),
    ) by {
        if a < i {
            assert(parked_at(p, i as int) != parked_at(p, a));
            assert(parked_last(p, a, i));
            assert(before.contains(after[k]));
            let j = choose|j: int| 0 <= j < before.len() && before[j] == after[k];
            assert(before[j].row_key() == (p.owner, parked_at(p, a)->0));
        }
    }
}

proof fn all_in_turn(
    walked: Map<Uuid, EntryRecord>,
    entries: Map<Uuid, EntryRecord>,
    held: Seq<ConflictRecord>,
    p: Pull,
    drawn: Seq<[u8; 12]>,
)
    requires
        entries_in_turn(walked, p, p.peer.len(), drawn),
        rows_in_turn(held, p, p.peer.len(), drawn),
        forall|u: Uuid| #[trigger]
            entries.contains_key(u) ==> walked.contains_key(u) && walked[u] == entries[u],
        table::distinct_rows(held),
    ensures
        pulled_in_turn(entries, held, p, drawn),
{
    reveal(entries_in_turn);
    reveal(rows_in_turn);
    let n = p.peer.len();
    assert forall|i: int| 0 <= i < n implies (#[trigger] brought_by(
        entries,
        held,
        p,
        i,
    ) matches Some(blobs) ==> crypto::carries_nonces(
        blobs,
        crypto::left_of(drawn, pull_seals(p, i as nat)),
    ) && blobs.len() == action_seals(action_for(p, i), p.peer[i].1)) by {
        if written_last(p, i, n) && entries.contains_key(written_at(p, i)->0) {
            assert(walked.contains_key(written_at(p, i)->0));
        } else if parked_last(p, i, n) && table::has_row(held, (p.owner, parked_at(p, i)->0)) {
            let key = (p.owner, parked_at(p, i)->0);
            let k = choose|k: int| 0 <= k < held.len() && (#[trigger] held[k]).row_key() == key;
            table::row_is_unique(held, k);
        }
    }
}

// -------------------------------------------------------------------- its effect

/// Why a pass fails for reasons that lie in the data.
pub enum PeerFault {
    /// A row would break a constraint.
    Constraint,
    /// A row that has to be there is not.
    Missing,
}

/// The mirror and the outcome so far.
#[verifier::ext_equal]
pub struct PeerState {
    pub tables: MirrorView,
    pub outcome: OutcomeView,
}

/// The group a new entry goes to: the device's, if we hold it, else our root.
pub open spec fn landing_group(m: MirrorView, parent: Uuid, local_root: Uuid) -> Uuid {
    if m.groups.contains_key(parent) {
        parent
    } else {
        local_root
    }
}

/// Taking over an entry. Our tombstone for it goes, so that no live entry has
/// one.
pub open spec fn added(
    m: MirrorView,
    fingerprint_key: Seq<u8>,
    local_root: Uuid,
    parent: Uuid,
    e: EntryView,
    binaries: Seq<Seq<u8>>,
) -> Result<MirrorView, PeerFault> {
    let group = landing_group(m, parent, local_root);
    if m.entries.contains_key(e.id) || !m.groups.contains_key(group) || !mirror::storable(e) {
        Err(PeerFault::Constraint)
    } else {
        let scrubbed = MirrorView { tombstones: m.tombstones.remove(e.id), ..m };
        Ok(
            mirror::with_entry(
                scrubbed,
                e.id,
                mirror::record_of(e, group, false, fingerprint_key, binaries),
                rows::blobs_of(e.content.attachments, binaries),
            ),
        )
    }
}

/// Replacing our entry's content; it stays in its group, recycled or not.
pub open spec fn advanced(
    m: MirrorView,
    fingerprint_key: Seq<u8>,
    e: EntryView,
    binaries: Seq<Seq<u8>>,
) -> Result<MirrorView, PeerFault> {
    if !m.entries.contains_key(e.id) {
        Err(PeerFault::Missing)
    } else if !mirror::storable(e) {
        Err(PeerFault::Constraint)
    } else {
        let row = m.entries[e.id];
        Ok(
            mirror::with_entry(
                m,
                e.id,
                mirror::record_of(e, row.group_uuid, row.is_recycled, fingerprint_key, binaries),
                rows::blobs_of(e.content.attachments, binaries),
            ),
        )
    }
}

/// The tables without the device's held value of an entry.
pub open spec fn cleared(m: MirrorView, owner: Seq<char>, id: Uuid) -> MirrorView {
    MirrorView { conflicts: m.conflicts.remove((owner, id)), ..m }
}

/// Holding the device's value of an entry.
pub open spec fn parked(m: MirrorView, owner: Seq<char>, e: EntryView) -> Result<
    MirrorView,
    PeerFault,
> {
    if m.conflicts.contains_key((owner, e.id)) || !rows::storable_fields(e.content) {
        Err(PeerFault::Constraint)
    } else {
        Ok(
            MirrorView {
                conflicts: m.conflicts.insert((owner, e.id), conflict_rows::conflict_of(e)),
                ..m
            },
        )
    }
}

/// The state after an action on the entry `e`, which the device keeps in the
/// group `parent`.
#[verifier::opaque]
pub open spec fn after_action(s: PeerState, p: Pull, parent: Uuid, e: EntryView, a: PeerAction) -> Result<
    PeerState,
    PeerFault,
> {
    match a {
        PeerAction::KeepDeleted => Ok(s),
        PeerAction::Nothing => Ok(s),
        PeerAction::Add => match added(
            s.tables,
            p.fingerprint_key,
            p.local_root,
            parent,
            e,
            p.peer_binaries,
        ) {
            Ok(m) => Ok(
                PeerState {
                    tables: m,
                    outcome: OutcomeView { added: s.outcome.added.push(e.id), ..s.outcome },
                },
            ),
            Err(f) => Err(f),
        },
        PeerAction::Agree => Ok(
            PeerState {
                tables: cleared(s.tables, p.owner, e.id),
                outcome: OutcomeView { in_sync: s.outcome.in_sync + 1, ..s.outcome },
            },
        ),
        PeerAction::Advance(merged) => match advanced(
            s.tables,
            p.fingerprint_key,
            merged,
            p.local_binaries,
        ) {
            Ok(m) => Ok(
                PeerState {
                    tables: cleared(m, p.owner, e.id),
                    outcome: OutcomeView {
                        auto_merged: s.outcome.auto_merged.push(e.id),
                        ..s.outcome
                    },
                },
            ),
            Err(f) => Err(f),
        },
        PeerAction::HoldLocal => Ok(
            PeerState { tables: cleared(s.tables, p.owner, e.id), outcome: s.outcome },
        ),
        PeerAction::Adopt(remote) => match advanced(
            cleared(s.tables, p.owner, e.id),
            p.fingerprint_key,
            remote,
            p.peer_binaries,
        ) {
            Ok(m) => Ok(
                PeerState {
                    tables: m,
                    outcome: OutcomeView {
                        auto_merged: s.outcome.auto_merged.push(e.id),
                        ..s.outcome
                    },
                },
            ),
            Err(f) => Err(f),
        },
        PeerAction::Park(remote) => match parked(cleared(s.tables, p.owner, e.id), p.owner, remote) {
            Ok(m) => Ok(
                PeerState {
                    tables: m,
                    outcome: OutcomeView {
                        conflicted: s.outcome.conflicted.push(e.id),
                        ..s.outcome
                    },
                },
            ),
            Err(f) => Err(f),
        },
    }
}

/// The state after the device's first `n` entries.
pub open spec fn after_entries(p: Pull, m: MirrorView, n: nat) -> Result<PeerState, PeerFault>
    decreases n,
{
    if n == 0 {
        Ok(PeerState { tables: m, outcome: no_outcome() })
    } else {
        match after_entries(p, m, (n - 1) as nat) {
            Ok(s) => after_action(
                s,
                p,
                p.peer[n - 1].0,
                p.peer[n - 1].1,
                action_for(p, n - 1),
            ),
            Err(f) => Err(f),
        }
    }
}

/// Whether our `i`-th entry goes because the device deleted it: the device no
/// longer holds it, has a tombstone for it, and we have not edited it since.
pub open spec fn is_dropped(p: Pull, i: int) -> bool {
    let e = p.local[i].1;
    &&& last_with_id(p.local, p.local.len(), e.id) == Some(i)
    &&& !holds_entry(p.peer, e.id)
    &&& tombstone_of(p.peer_tombstones, e.id) is Some
    &&& !time::edit_wins(mtime_of(e), tombstone_of(p.peer_tombstones, e.id)->0)
}

/// The state after the device's deletions reached the first `n` of our
/// entries.
pub open spec fn after_deletes(p: Pull, s: PeerState, n: nat) -> PeerState
    decreases n,
{
    if n == 0 {
        s
    } else {
        let before = after_deletes(p, s, (n - 1) as nat);
        if is_dropped(p, n - 1) {
            PeerState {
                tables: mirror::without_entry(before.tables, p.local[n - 1].1.id),
                outcome: OutcomeView {
                    deleted: before.outcome.deleted.push(p.local[n - 1].1.id),
                    ..before.outcome
                },
            }
        } else {
            before
        }
    }
}

/// Whether no earlier tombstone is for the same object.
pub open spec fn is_first_tombstone(list: Seq<DeletedObject>, i: int) -> bool {
    forall|j: int| 0 <= j < i ==> (#[trigger] list[j]).uuid != list[i].uuid
}

/// Whether the tables hold a live entry or group with that identity.
pub open spec fn is_live(m: MirrorView, id: Uuid) -> bool {
    m.entries.contains_key(id) || m.groups.contains_key(id)
}

/// The tables after the first `n` tombstones of a list were merged in. One for
/// a live object is left out.
pub open spec fn after_tombstones(list: Seq<DeletedObject>, m: MirrorView, n: nat) -> MirrorView
    decreases n,
{
    if n == 0 {
        m
    } else {
        let before = after_tombstones(list, m, (n - 1) as nat);
        let id = list[n - 1].uuid;
        if is_first_tombstone(list, n - 1) && !is_live(before, id) {
            mirror::with_tombstone(before, id, time::optional_millis(tombstone_of(list, id)->0))
        } else {
            before
        }
    }
}

/// What a pull makes of the tables, and what it reports.
pub open spec fn pull_result(p: Pull, m: MirrorView) -> Result<PeerState, PeerFault> {
    match after_entries(p, m, p.peer.len()) {
        Ok(s) => {
            let d = after_deletes(p, s, p.local.len());
            Ok(
                PeerState {
                    tables: after_tombstones(
                        p.peer_tombstones,
                        d.tables,
                        p.peer_tombstones.len(),
                    ),
                    outcome: d.outcome,
                },
            )
        },
        Err(f) => Err(f),
    }
}

// ------------------------------------------------------------------ carrying out

/// A row that had to be there is not.
pub open spec fn is_missing_row(e: EngineError) -> bool {
    e matches EngineError::Sqlite(SqliteError::QueryReturnedNoRows)
}

/// Whether an error is the one a fault in the data calls for.
pub open spec fn reports(e: EngineError, f: PeerFault) -> bool {
    match f {
        PeerFault::Constraint => rows::is_constraint(e),
        PeerFault::Missing => is_missing_row(e),
    }
}

/// Whether a result is what the rules call for: the state they give, the fault
/// they give, or, where `refusable`, a failure to seal.
pub open spec fn carries_out<S>(
    r: Result<(), EngineError>,
    after: S,
    expected: Result<S, PeerFault>,
    refusable: bool,
) -> bool {
    match r {
        Ok(_) => expected == Ok::<S, PeerFault>(after),
        Err(e) => (rows::is_wrap_failure(e) && refusable) || (expected is Err && reports(
            e,
            expected->Err_0,
        )),
    }
}

/// Whether sealing an entry can fail with `drawn` nonces at hand.
pub open spec fn refusable(e: EntryView, drawn: nat) -> bool {
    !mirror::sealable_entry(e) || drawn < mirror::entry_seals(e)
}

fn add_peer_entry(
    mirror: &mut Mirror,
    fingerprint_key: &[u8; 32],
    session_key: &SessionKey,
    nonces: &mut NonceSource,
    local_root: Uuid,
    parent: Uuid,
    entry: &Entry,
    binaries: &Vec<Vec<u8>>,
) -> (r: Result<(), EngineError>)
    requires
        old(mirror).wf(),
    ensures
        final(mirror).wf(),
        carries_out(
            r,
            final(mirror).opened(session_key@),
            added(
                old(mirror).opened(session_key@),
                fingerprint_key@,
                local_root,
                parent,
                entry.deep_view(),
                binaries.deep_view(),
            ),
            refusable(entry.deep_view(), old(nonces).drawn@.len()),
        ),
        r is Ok ==> entries_step(
            old(mirror).entries@,
            final(mirror).entries@,
            Some(entry.id),
            old(nonces).drawn@,
            mirror::entry_seals(entry.deep_view()),
        ),
        r is Ok ==> final(mirror).conflicts == old(mirror).conflicts,
        r is Ok ==> final(nonces).drawn@ == crypto::left_of(
            old(nonces).drawn@,
            mirror::entry_seals(entry.deep_view()),
        ),
        crypto::spent(old(nonces).drawn@, final(nonces).drawn@),
{
    let group: Uuid = if mirror.group_exists(parent) {
        parent
    } else {
        local_root
    };
    mirror.remove_tombstone(entry.id);
    let (record, blobs) = mirror::build_record(
        entry,
        group,
        false,
        fingerprint_key,
        session_key,
        nonces,
        binaries,
    )?;
    proof {
        assert(record.opened(session_key@).group_uuid == group);
    }
    mirror.insert_entry(entry.id, record, blobs)
}

/// Brings the mirror's entry to `entry`. It keeps its group and recycle state;
/// every row is rebuilt.
fn advance_local_entry(
    mirror: &mut Mirror,
    fingerprint_key: &[u8; 32],
    session_key: &SessionKey,
    nonces: &mut NonceSource,
    entry: &Entry,
    binaries: &Vec<Vec<u8>>,
) -> (r: Result<(), EngineError>)
    requires
        old(mirror).wf(),
    ensures
        final(mirror).wf(),
        carries_out(
            r,
            final(mirror).opened(session_key@),
            advanced(
                old(mirror).opened(session_key@),
                fingerprint_key@,
                entry.deep_view(),
                binaries.deep_view(),
            ),
            refusable(entry.deep_view(), old(nonces).drawn@.len()),
        ),
        r is Ok ==> entries_step(
            old(mirror).entries@,
            final(mirror).entries@,
            Some(entry.id),
            old(nonces).drawn@,
            mirror::entry_seals(entry.deep_view()),
        ),
        r is Ok ==> final(mirror).conflicts == old(mirror).conflicts,
        r is Ok ==> final(nonces).drawn@ == crypto::left_of(
            old(nonces).drawn@,
            mirror::entry_seals(entry.deep_view()),
        ),
        crypto::spent(old(nonces).drawn@, final(nonces).drawn@),
{
    proof {
        crypto::left_in_two(nonces.drawn@, 0, 0);
        crypto::left_is_spent(nonces.drawn@, 0);
    }
    let (group, recycled): (Uuid, bool) = match mirror.placement(entry.id) {
        Some(at) => at,
        None => {
            return Err(EngineError::Sqlite(SqliteError::QueryReturnedNoRows));
        },
    };
    let (record, blobs) = mirror::build_record(
        entry,
        group,
        recycled,
        fingerprint_key,
        session_key,
        nonces,
        binaries,
    )?;
    mirror.replace_entry(entry.id, record, blobs);
    Ok(())
}

fn park_entry(
    mirror: &mut Mirror,
    session_key: &SessionKey,
    nonces: &mut NonceSource,
    owner: &str,
    entry: &Entry,
) -> (r: Result<(), EngineError>)
    requires
        old(mirror).wf(),
    ensures
        final(mirror).wf(),
        carries_out(
            r,
            final(mirror).opened(session_key@),
            parked(old(mirror).opened(session_key@), owner@, entry.deep_view()),
            !rows::sealable_content(entry.deep_view().content) || old(nonces).drawn@.len()
                < rows::content_seals(entry.deep_view().content),
        ),
        r is Ok ==> final(mirror).entries == old(mirror).entries,
        r is Ok ==> rows_step(
            old(mirror).conflicts.rows@,
            final(mirror).conflicts.rows@,
            owner@,
            Some(entry.id),
            old(nonces).drawn@,
            rows::content_seals(entry.deep_view().content),
        ),
        r is Ok ==> final(nonces).drawn@ == crypto::left_of(
            old(nonces).drawn@,
            rows::content_seals(entry.deep_view().content),
        ),
        crypto::spent(old(nonces).drawn@, final(nonces).drawn@),
{
    let record = conflict_rows::build_conflict(owner, entry, session_key, nonces)?;
    let ghost before = mirror.conflicts.rows@;
    let r = mirror.insert_conflict(record);
    proof {
        if r is Ok {
            let after = mirror.conflicts.rows@;
            assert forall|k: int| 0 <= k < after.len() implies if (
            #[trigger] after[k]).row_key() == (owner@, entry.id) {
                row_sealed_with(
                    after[k],
                    old(nonces).drawn@,
                    rows::content_seals(entry.deep_view().content),
                )
            } else {
                before.contains(after[k])
            } by {
                if k < before.len() {
                    assert(after[k] == before[k]);
                }
            }
        }
    }
    r
}

/// The sides of a pull, as the walk over the device's entries needs them.
struct PullContext<'a> {
    owner: &'a str,
    fingerprint_key: &'a [u8; 32],
    session_key: &'a SessionKey,
    local: &'a Vault,
    peer: &'a Vault,
    local_placed: Vec<Placed<'a>>,
    peer_placed: Vec<Placed<'a>>,
    local_resolutions: &'a Vec<ResolutionRecord>,
    peer_resolutions: &'a Vec<ResolutionRecord>,
    verdicts: &'a Vec<Classification>,
}

/// [`PeerAction`], with the entries it speaks of.
enum Decision<'a> {
    KeepDeleted,
    Add,
    Agree,
    Advance(&'a Entry),
    HoldLocal,
    Adopt(&'a Entry),
    Park(&'a Entry),
    Nothing,
}

impl<'a> Decision<'a> {
    spec fn action(self) -> PeerAction {
        match self {
            Decision::KeepDeleted => PeerAction::KeepDeleted,
            Decision::Add => PeerAction::Add,
            Decision::Agree => PeerAction::Agree,
            Decision::Advance(e) => PeerAction::Advance(e.deep_view()),
            Decision::HoldLocal => PeerAction::HoldLocal,
            Decision::Adopt(e) => PeerAction::Adopt(e.deep_view()),
            Decision::Park(e) => PeerAction::Park(e.deep_view()),
            Decision::Nothing => PeerAction::Nothing,
        }
    }
}

impl<'a> PullContext<'a> {
    spec fn pull(self) -> Pull {
        pull_of(
            self.fingerprint_key@,
            self.owner@,
            *self.local,
            *self.peer,
            self.local_resolutions@,
            self.peer_resolutions@,
            self.verdicts.deep_view(),
        )
    }

    spec fn wf(self) -> bool {
        &&& self.local_placed@ == vault::placed_entries(&self.local.root, None, false)
        &&& self.peer_placed@ == vault::placed_entries(&self.peer.root, None, false)
        &&& self.verdicts@.len() == self.peer_placed@.len()
    }

    /// Decides what is due for the device's `i`-th entry.
    fn decide(&self, i: usize) -> (r: Decision<'a>)
        requires
            self.wf(),
            i < self.peer_placed@.len(),
        ensures
            r.action() == action_for(self.pull(), i as int),
    {
        let ghost p = self.pull();
        let entry = self.peer_placed[i].entry;
        let uuid: Uuid = entry.id;
        let peer_mtime = entry.content.times.last_modification_time;
        proof {
            assert(p.peer[i as int].1 == entry.deep_view());
            assert(p.verdicts[i as int] == self.verdicts@[i as int].deep_view());
        }
        let ours = match find_last(&self.local_placed, uuid) {
            Some(at) => self.local_placed[at].entry,
            None => {
                if let Some(deleted_at) = find_tombstone(&self.local.deleted_objects, uuid) {
                    if !time::live_edit_wins(peer_mtime, deleted_at) {
                        return Decision::KeepDeleted;
                    }
                }
                return Decision::Add;
            },
        };
        proof {
            assert(local_entry(p.local, uuid) == Some(ours.deep_view()));
        }
        match &self.verdicts[i] {
            Classification::InSync => Decision::Agree,
            Classification::AutoMerged { merged } => Decision::Advance(merged),
            Classification::Conflict { remote } => {
                let peer_resolved_at = find_resolution(self.peer_resolutions, uuid);
                let local_resolved_at = find_resolution(self.local_resolutions, uuid);
                let local_mtime = ours.content.times.last_modification_time;
                let local_supersedes_peer = time::edited_after(local_mtime, peer_resolved_at);
                let peer_edited_since = time::edited_after(peer_mtime, local_resolved_at);
                if local_resolved_at.is_some() && !peer_edited_since {
                    Decision::HoldLocal
                } else if peer_resolved_at.is_some() && !local_supersedes_peer {
                    Decision::Adopt(remote)
                } else {
                    Decision::Park(remote)
                }
            },
            Classification::Unrecognised => Decision::Nothing,
        }
    }

    /// Carries out a decision on the device's `i`-th entry.
    fn perform(
        &self,
        i: usize,
        decision: Decision<'a>,
        nonces: &mut NonceSource,
        mirror: &mut Mirror,
        outcome: &mut IngestPeerOutcome,
    ) -> (r: Result<(), EngineError>)
        requires
            self.wf(),
            i < self.peer_placed@.len(),
            old(mirror).wf(),
            old(outcome)@.in_sync <= i,
        ensures
            final(mirror).wf(),
            r is Ok ==> final(outcome)@.in_sync <= i + 1,
            ({
                let p = self.pull();
                let e = p.peer[i as int].1;
                carries_out(
                    r,
                    PeerState {
                        tables: final(mirror).opened(self.session_key@),
                        outcome: final(outcome)@,
                    },
                    after_action(
                        PeerState {
                            tables: old(mirror).opened(self.session_key@),
                            outcome: old(outcome)@,
                        },
                        p,
                        p.peer[i as int].0,
                        e,
                        decision.action(),
                    ),
                    !sealable_action(decision.action(), e) || old(nonces).drawn@.len()
                        < action_seals(decision.action(), e),
                )
            }),
            r is Ok ==> entries_step(
                old(mirror).entries@,
                final(mirror).entries@,
                written_by(decision.action(), self.pull().peer[i as int].1),
                old(nonces).drawn@,
                action_seals(decision.action(), self.pull().peer[i as int].1),
            ),
            r is Ok ==> rows_step(
                old(mirror).conflicts.rows@,
                final(mirror).conflicts.rows@,
                self.owner@,
                match decision.action() {
                    PeerAction::Park(remote) => Some(remote.id),
                    _ => None,
                },
                old(nonces).drawn@,
                action_seals(decision.action(), self.pull().peer[i as int].1),
            ),
            r is Ok ==> final(nonces).drawn@ == crypto::left_of(
                old(nonces).drawn@,
                action_seals(decision.action(), self.pull().peer[i as int].1),
            ),
            crypto::spent(old(nonces).drawn@, final(nonces).drawn@),
    {
        let ghost p = self.pull();
        let entry = self.peer_placed[i].entry;
        let parent: Uuid = self.peer_placed[i].group;
        let uuid: Uuid = entry.id;
        proof {
            assert(p.peer[i as int] == (parent, entry.deep_view()));
            reveal(after_action);
            crypto::left_in_two(nonces.drawn@, 0, 0);
            crypto::left_is_spent(nonces.drawn@, 0);
        }
        let ghost before = mirror.conflicts.rows@;
        match decision {
            Decision::KeepDeleted => {},
            Decision::Nothing => {},
            Decision::Add => {
                add_peer_entry(
                    mirror,
                    self.fingerprint_key,
                    self.session_key,
                    nonces,
                    self.local.root.id,
                    parent,
                    entry,
                    &self.peer.binaries,
                )?;
                outcome.added.push(uuid);
            },
            Decision::Agree => {
                mirror.clear_conflict_rows(self.owner, uuid);
                assert(i + 1 <= self.peer_placed.len());
                outcome.in_sync = outcome.in_sync + 1;
            },
            Decision::Advance(merged) => {
                advance_local_entry(
                    mirror,
                    self.fingerprint_key,
                    self.session_key,
                    nonces,
                    merged,
                    &self.local.binaries,
                )?;
                mirror.clear_conflict_rows(self.owner, uuid);
                outcome.auto_merged.push(uuid);
            },
            Decision::HoldLocal => {
                mirror.clear_conflict_rows(self.owner, uuid);
            },
            Decision::Adopt(remote) => {
                mirror.clear_conflict_rows(self.owner, uuid);
                advance_local_entry(
                    mirror,
                    self.fingerprint_key,
                    self.session_key,
                    nonces,
                    remote,
                    &self.peer.binaries,
                )?;
                outcome.auto_merged.push(uuid);
            },
            Decision::Park(remote) => {
                mirror.clear_conflict_rows(self.owner, uuid);
                let ghost mid = mirror.conflicts.rows@;
                park_entry(mirror, self.session_key, nonces, self.owner, remote)?;
                outcome.conflicted.push(uuid);
                proof {
                    let after = mirror.conflicts.rows@;
                    assert forall|k: int|
                        0 <= k < after.len() && mid.contains(#[trigger] after[k]) implies before.contains(
                        after[k],
                    ) by {
                        let j = choose|j: int| 0 <= j < mid.len() && mid[j] == after[k];
                        assert(before.contains(mid[j]));
                    }
                }
            },
        }
        Ok(())
    }

    /// Lets the device's deletions reach our entries.
    fn drop_deleted(&self, mirror: &mut Mirror, outcome: &mut IngestPeerOutcome)
        requires
            self.wf(),
            old(mirror).wf(),
        ensures
            final(mirror).wf(),
            ({
                let p = self.pull();
                after_deletes(
                    p,
                    PeerState {
                        tables: old(mirror).opened(self.session_key@),
                        outcome: old(outcome)@,
                    },
                    p.local.len(),
                ) == PeerState {
                    tables: final(mirror).opened(self.session_key@),
                    outcome: final(outcome)@,
                }
            }),
            forall|u: Uuid| #[trigger]
                final(mirror).entries@.contains_key(u) ==> old(mirror).entries@.contains_key(u)
                    && old(mirror).entries@[u] == final(mirror).entries@[u],
            final(mirror).conflicts == old(mirror).conflicts,
    {
        let ghost p = self.pull();
        let ghost s0 = PeerState {
            tables: mirror.opened(self.session_key@),
            outcome: outcome@,
        };
        let mut i: usize = 0;
        while i < self.local_placed.len()
            invariant
                i <= self.local_placed.len(),
                self.wf(),
                p == self.pull(),
                mirror.wf(),
                forall|u: Uuid| #[trigger]
                    mirror.entries@.contains_key(u) ==> old(mirror).entries@.contains_key(u)
                        && old(mirror).entries@[u] == mirror.entries@[u],
                mirror.conflicts == old(mirror).conflicts,
                after_deletes(p, s0, i as nat) == (PeerState {
                    tables: mirror.opened(self.session_key@),
                    outcome: outcome@,
                }),
            decreases self.local_placed.len() - i,
        {
            let ghost before = after_deletes(p, s0, i as nat);
            let entry = self.local_placed[i].entry;
            let uuid: Uuid = entry.id;
            proof {
                assert(p.local[i as int].1 == entry.deep_view());
            }
            let is_last: bool = match find_last(&self.local_placed, uuid) {
                Some(at) => at == i,
                None => false,
            };
            if is_last && find_last(&self.peer_placed, uuid).is_none() {
                if let Some(deleted_at) = find_tombstone(&self.peer.deleted_objects, uuid) {
                    if !time::live_edit_wins(
                        entry.content.times.last_modification_time,
                        deleted_at,
                    ) {
                        mirror.delete_local_entry(uuid);
                        outcome.deleted.push(uuid);
                        proof {
                            assert(is_dropped(p, i as int));
                        }
                    }
                }
            }
            i = i + 1;
        }
    }
}

/// Merges a list of tombstones into the mirror's. One for a live object is left
/// out: other clients would take the object for deleted.
fn union_tombstones(mirror: &mut Mirror, list: &Vec<DeletedObject>, Ghost(key): Ghost<Seq<u8>>)
    requires
        old(mirror).wf(),
    ensures
        final(mirror).wf(),
        final(mirror).opened(key) == after_tombstones(list@, old(mirror).opened(key), list@.len()),
        final(mirror).entries == old(mirror).entries,
        final(mirror).conflicts == old(mirror).conflicts,
{
    let ghost m0 = mirror.opened(key);
    let mut i: usize = 0;
    while i < list.len()
        invariant
            i <= list.len(),
            mirror.wf(),
            mirror.entries == old(mirror).entries,
            mirror.conflicts == old(mirror).conflicts,
            mirror.opened(key) == after_tombstones(list@, m0, i as nat),
        decreases list.len() - i,
    {
        let uuid: Uuid = list[i].uuid;
        let mut first: bool = true;
        let mut j: usize = 0;
        while j < i
            invariant
                j <= i < list.len(),
                uuid == list@[i as int].uuid,
                first == forall|k: int| 0 <= k < j ==> (#[trigger] list@[k]).uuid != uuid,
            decreases i - j,
        {
            if list[j].uuid == uuid {
                first = false;
            }
            j = j + 1;
        }
        let ghost before = mirror.opened(key);
        if first && !mirror.entry_exists(uuid) && !mirror.group_exists(uuid) {
            let deleted_at: Option<Timestamp> = match find_tombstone(list, uuid) {
                Some(at) => at,
                None => list[i].deleted_at,
            };
            proof {
                tombstone_is_found(list@, i as int);
            }
            mirror.union_tombstone(uuid, time::optional_dt_to_ms(deleted_at));
        }
        i = i + 1;
    }
}

/// Every object a list names has a tombstone in it.
pub proof fn tombstone_is_found(list: Seq<DeletedObject>, i: int)
    requires
        0 <= i < list.len(),
    ensures
        tombstone_of(list, list[i].uuid) is Some,
    decreases list.len(),
{
    if i < list.len() - 1 {
        tombstone_is_found(list.drop_last(), i);
    }
}

/// Ingests one device's vault into the mirror.
///
/// `local` is our vault as the mirror holds it, `peer` the device's, both with
/// protected values in the clear. `verdicts` classifies the device's entries
/// against ours, in the order of the device's entries; a verdict on an entry
/// that we do not hold is not looked at. The resolutions are those recorded in
/// each vault. `owner` names the device, and must be the same on every pull
/// from it.
///
/// On failure nothing is returned, and so nothing of the pass takes effect.
/// With enough nonces drawn, and no value too long to be sealed, the pass fails
/// only where the rules say so.
pub fn ingest_peer(
    mirror: Mirror,
    fingerprint_key: &[u8; 32],
    session_key: &SessionKey,
    nonces: &mut NonceSource,
    owner: &str,
    local: &Vault,
    peer: &Vault,
    local_resolutions: &Vec<ResolutionRecord>,
    peer_resolutions: &Vec<ResolutionRecord>,
    verdicts: &Vec<Classification>,
) -> (r: Result<(Mirror, IngestPeerOutcome), EngineError>)
    requires
        mirror.wf(),
        verdicts@.len() == vault::placed_entries(&peer.root, None, false).len(),
    ensures
        ({
            let p = pull_of(
                fingerprint_key@,
                owner@,
                *local,
                *peer,
                local_resolutions@,
                peer_resolutions@,
                verdicts.deep_view(),
            );
            let expected = pull_result(p, mirror.opened(session_key@));
            match r {
                Ok((after, outcome)) => {
                    &&& after.wf()
                    &&& expected == Ok::<PeerState, PeerFault>(
                        PeerState { tables: after.opened(session_key@), outcome: outcome@ },
                    )
                    &&& pulled_in_turn(
                        after.entries@,
                        after.conflicts.rows@,
                        p,
                        old(nonces).drawn@,
                    )
                    &&& final(nonces).drawn@ == crypto::left_of(
                        old(nonces).drawn@,
                        pull_seals(p, p.peer.len()),
                    )
                },
                Err(e) => (rows::is_wrap_failure(e) && (!sealable_pull(p) || old(
                    nonces,
                ).drawn@.len() < pull_seals(p, p.peer.len()))) || (expected is Err && reports(
                    e,
                    expected->Err_0,
                )),
            }
        }),
        crypto::spent(old(nonces).drawn@, final(nonces).drawn@),
{
    broadcast use {crypto::spent_in_two, crypto::left_is_spent};

    let context = PullContext {
        owner,
        fingerprint_key,
        session_key,
        local,
        peer,
        local_placed: vault::collect_placed(&local.root, None),
        peer_placed: vault::collect_placed(&peer.root, None),
        local_resolutions,
        peer_resolutions,
        verdicts,
    };
    let ghost p = context.pull();
    let ghost m0 = mirror.opened(session_key@);
    let mut tables = mirror;
    let mut outcome = IngestPeerOutcome {
        conflicted: Vec::new(),
        auto_merged: Vec::new(),
        added: Vec::new(),
        deleted: Vec::new(),
        in_sync: 0,
    };
    proof {
        assert(outcome@ =~= no_outcome());
        crypto::left_in_two(nonces.drawn@, 0, 0);
        reveal(entries_in_turn);
        reveal(rows_in_turn);
    }
    let mut i: usize = 0;
    while i < context.peer_placed.len()
        invariant
            i <= context.peer_placed.len(),
            context.wf(),
            context.session_key@ == session_key@,
            p == context.pull(),
            p == pull_of(
                fingerprint_key@,
                owner@,
                *local,
                *peer,
                local_resolutions@,
                peer_resolutions@,
                verdicts.deep_view(),
            ),
            m0 == mirror.opened(session_key@),
            tables.wf(),
            context.owner@ == p.owner,
            nonces.drawn@ == crypto::left_of(old(nonces).drawn@, pull_seals(p, i as nat)),
            entries_in_turn(tables.entries@, p, i as nat, old(nonces).drawn@),
            rows_in_turn(tables.conflicts.rows@, p, i as nat, old(nonces).drawn@),
            outcome@.in_sync <= i,
            after_entries(p, m0, i as nat) == Ok::<PeerState, PeerFault>(
                PeerState { tables: tables.opened(session_key@), outcome: outcome@ },
            ),
        decreases context.peer_placed.len() - i,
    {
        broadcast use {crypto::spent_in_two, crypto::left_is_spent};

        let decision = context.decide(i);
        let ghost entries = tables.entries@;
        let ghost held = tables.conflicts.rows@;
        match context.perform(i, decision, nonces, &mut tables, &mut outcome) {
            Ok(()) => {},
            Err(e) => {
                proof {
                    fault_persists(p, m0, (i + 1) as nat, p.peer.len());
                    pull_seals_grow(p, (i + 1) as nat, p.peer.len());
                    assert(p.peer.len() == context.peer_placed@.len());
                }
                return Err(e);
            },
        }
        proof {
            crypto::left_in_two(
                old(nonces).drawn@,
                pull_seals(p, i as nat),
                action_seals(action_for(p, i as int), p.peer[i as int].1),
            );
            entries_go_on(entries, tables.entries@, p, i as nat, old(nonces).drawn@);
            rows_go_on(held, tables.conflicts.rows@, p, i as nat, old(nonces).drawn@);
        }
        i = i + 1;
    }
    let ghost walked = tables.entries@;
    context.drop_deleted(&mut tables, &mut outcome);
    union_tombstones(&mut tables, &peer.deleted_objects, Ghost(session_key@));
    proof {
        assert(p.peer.len() == context.peer_placed@.len());
        all_in_turn(walked, tables.entries@, tables.conflicts.rows@, p, old(nonces).drawn@);
    }
    Ok((tables, outcome))
}

/// More entries take no fewer nonces.
pub proof fn pull_seals_grow(p: Pull, a: nat, b: nat)
    requires
        a <= b,
    ensures
        pull_seals(p, a) <= pull_seals(p, b),
    decreases b,
{
    if a < b {
        pull_seals_grow(p, a, (b - 1) as nat);
    }
}

proof fn fault_persists(p: Pull, m: MirrorView, n: nat, end: nat)
    requires
        n <= end,
    ensures
        after_entries(p, m, n) is Err ==> after_entries(p, m, end) == after_entries(p, m, n),
    decreases end,
{
    if n < end {
        fault_persists(p, m, n, (end - 1) as nat);
    }
}

} // verus!
