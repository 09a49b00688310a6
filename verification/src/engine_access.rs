//! The engine's reads, its dealings with other devices, and its conflicts.

use vstd::prelude::*;

use crate::codec::Uuid;
use crate::conflict_resolution;
use crate::crypto;
use crate::crypto::{NonceSource, SessionKey};
use crate::details;
use crate::engine::{Engine, EngineShared, SelfWriteSignature, VaultState};
use crate::error::EngineError;
use crate::events::{ConflictPayload, EntryParentGroups};
use crate::file_watcher::FileTime;
use crate::model::{EntryFull, EntrySummary, GroupNode, HistoricEntry, Pagination};
use crate::order;
use crate::peer;
use crate::peer::{Classification, IngestPeerOutcome, PeerFault, PeerState, ResolutionRecord};
use crate::peer_laws;
use crate::queries;
use crate::reading;
use crate::rows;
use crate::rows::PASSWORD_FIELD;
use crate::vault;
use crate::vault::Vault;

verus! {

broadcast use {vstd::std_specs::btree::group_btree_axioms, vstd::laws_cmp::group_laws_cmp};

impl Engine {
    // ------------------------------------------------------- the watched file

    /// Health of the engine.
    pub fn state(&self) -> (r: &VaultState)
        ensures
            *r == self.shared.state,
    {
        &self.shared.state
    }

    /// The last vault file written here, until the watcher has echoed it.
    pub fn last_self_write(&self) -> (r: Option<SelfWriteSignature>)
        ensures
            r == self.shared.last_self_write,
    {
        self.shared.last_self_write
    }

    /// Notes a vault file that was just written here.
    pub fn set_last_self_write(&mut self, signature: SelfWriteSignature)
        ensures
            *final(self) == (Engine {
                shared: EngineShared { last_self_write: Some(signature), ..old(self).shared },
                ..*old(self)
            }),
    {
        self.shared.last_self_write = Some(signature);
    }

    /// Was the observed file written here? If so the signature is used up.
    pub fn consume_self_write_signature(&mut self, mtime: FileTime, size: u64) -> (r: bool)
        ensures
            r == crate::engine::is_echo(
                old(self).shared.last_self_write,
                Some(mtime),
                Some(size),
            ),
            *final(self) == (Engine {
                shared: if r {
                    EngineShared { last_self_write: None, ..old(self).shared }
                } else {
                    old(self).shared
                },
                ..*old(self)
            }),
    {
        self.shared.consume_self_write_signature(mtime, size)
    }

    /// Changes made elsewhere so far.
    pub fn pending_reconcile_calls_for_test(&self) -> (r: u64)
        ensures
            r == self.shared.pending_reconcile_calls,
    {
        self.shared.pending_reconcile_calls
    }

    /// Installs a reconcile trigger: from now on changes made elsewhere fire it.
    pub fn set_reconcile_trigger(&mut self)
        ensures
            *final(self) == (Engine {
                shared: EngineShared { has_trigger: true, ..old(self).shared },
                ..*old(self)
            }),
    {
        self.shared.has_trigger = true;
    }

    /// Removes the reconcile trigger.
    pub fn clear_reconcile_trigger(&mut self)
        ensures
            *final(self) == (Engine {
                shared: EngineShared { has_trigger: false, ..old(self).shared },
                ..*old(self)
            }),
    {
        self.shared.has_trigger = false;
    }

    // ---------------------------------------------------------- stashed conflicts

    /// A copy of a stashed conflict as the user is shown it.
    pub fn pending_conflict(&self, id: i64) -> (r: Option<ConflictPayload>)
        ensures
            r is Some <==> self.stash.payloads@.contains_key(id),
            r is Some ==> r->0.deep_view() == self.stash.payloads@[id].deep_view(),
    {
        self.stash.pending_conflict(id)
    }

    /// For every entry of a stashed conflict, the groups that hold it on the
    /// two sides; ascending by entry. `None` for a conflict that is not
    /// stashed.
    pub fn pending_conflict_parent_groups(&self, id: i64) -> (r: Option<
        Vec<(Uuid, EntryParentGroups)>,
    >)
        ensures
            r is Some <==> self.stash.contexts@.contains_key(id),
            r is Some ==> {
                let ctx = self.stash.contexts@[id];
                let out = r->0@;
                &&& forall|i: int, j: int| 0 <= i < j < out.len() ==> (#[trigger] out[i]).0 < (
                #[trigger] out[j]).0
                &&& forall|u: Uuid| #[trigger]
                    conflict_resolution::in_payload(ctx.payload, u) <==> exists|i: int|
                        0 <= i < out.len() && (#[trigger] out[i]).0 == u
                &&& forall|i: int|
                    0 <= i < out.len() ==> (#[trigger] out[i]).1 == (EntryParentGroups {
                        local: conflict_resolution::parent_of(&ctx.local_vault.root, out[i].0),
                        remote: conflict_resolution::parent_of(&ctx.remote_vault.root, out[i].0),
                    })
            },
    {
        self.stash.pending_conflict_parent_groups(id)
    }

    /// How many conflicts the user can be shown.
    pub fn pending_conflict_count_for_test(&self) -> (r: usize)
        ensures
            r == self.stash.payloads@.len(),
    {
        self.stash.pending_conflict_count()
    }

    /// Drops a stashed conflict, undecided. One that is not there is left alone.
    pub fn discard_conflict(&mut self, id: i64)
        ensures
            final(self).stash.contexts@ == old(self).stash.contexts@.remove(id),
            final(self).stash.payloads@ == old(self).stash.payloads@.remove(id),
            *final(self) == (Engine { stash: final(self).stash, ..*old(self) }),
    {
        self.stash.discard_conflict(id)
    }

    /// The text of a field on our side of a stashed conflict.
    pub fn reveal_conflict_local_field(&self, id: i64, entry_uuid: Uuid, field_name: &str) -> (r:
        Result<String, EngineError>)
        ensures
            conflict_resolution::gives(
                r,
                if self.stash.contexts@.contains_key(id) {
                    conflict_resolution::field_in(
                        &self.stash.contexts@[id].local_vault,
                        entry_uuid,
                        field_name@,
                    )
                } else {
                    Err("conflict_payload"@)
                },
            ),
    {
        self.stash.reveal_conflict_local_field(id, entry_uuid, field_name)
    }

    /// The text of a field on the other side of a stashed conflict.
    pub fn reveal_conflict_remote_field(&self, id: i64, entry_uuid: Uuid, field_name: &str) -> (r:
        Result<String, EngineError>)
        ensures
            conflict_resolution::gives(
                r,
                if self.stash.contexts@.contains_key(id) {
                    conflict_resolution::field_in(
                        &self.stash.contexts@[id].remote_vault,
                        entry_uuid,
                        field_name@,
                    )
                } else {
                    Err("conflict_payload"@)
                },
            ),
    {
        self.stash.reveal_conflict_remote_field(id, entry_uuid, field_name)
    }

    // -------------------------------------------------------------- other devices

    /// The entries for which some device has a value held, ascending and each
    /// once.
    pub fn parked_conflict_uuids_from_rows(&self) -> (r: Vec<Uuid>)
        ensures
            order::ascending(r@),
            forall|u: Uuid| #[trigger]
                r@.contains(u) <==> exists|i: int|
                    0 <= i < self.mirror.conflicts.rows@.len() && (
                    #[trigger] self.mirror.conflicts.rows@[i]).entry_uuid == u,
    {
        self.mirror.conflicts.parked_conflict_uuids()
    }

    /// Takes in a device's vault; see [`peer::ingest_peer`]. The pass works on
    /// a copy of the tables, so one that fails changes nothing.
    pub fn ingest_peer(
        &mut self,
        owner: &str,
        local: &Vault,
        peer: &Vault,
        local_resolutions: &Vec<ResolutionRecord>,
        peer_resolutions: &Vec<ResolutionRecord>,
        verdicts: &Vec<Classification>,
        session_key: &SessionKey,
        nonces: &mut NonceSource,
    ) -> (r: Result<IngestPeerOutcome, EngineError>)
        requires
            old(self).wf(),
            verdicts@.len() == vault::placed_entries(&peer.root, None, false).len(),
        ensures
            final(self).wf(),
            crypto::spent(old(nonces).drawn@, final(nonces).drawn@),
            peer_laws::no_live_tombstone(old(self).mirror.opened(session_key@))
                ==> peer_laws::no_live_tombstone(final(self).mirror.opened(session_key@)),
            ({
                let p = peer::pull_of(
                    old(self).fingerprint_key@,
                    owner@,
                    *local,
                    *peer,
                    local_resolutions@,
                    peer_resolutions@,
                    verdicts.deep_view(),
                );
                let expected = peer::pull_result(p, old(self).mirror.opened(session_key@));
                match r {
                    Ok(outcome) => {
                        &&& expected == Ok::<PeerState, PeerFault>(
                            PeerState {
                                tables: final(self).mirror.opened(session_key@),
                                outcome: outcome@,
                            },
                        )
                        &&& *final(self) == (Engine { mirror: final(self).mirror, ..*old(self) })
                        &&& peer::pulled_in_turn(
                            final(self).mirror.entries@,
                            final(self).mirror.conflicts.rows@,
                            p,
                            old(nonces).drawn@,
                        )
                        &&& final(nonces).drawn@ == crypto::left_of(
                            old(nonces).drawn@,
                            peer::pull_seals(p, p.peer.len()),
                        )
                    },
                    Err(e) => {
                        &&& *final(self) == *old(self)
                        &&& (rows::is_wrap_failure(e) && (!peer::sealable_pull(p) || old(
                            nonces,
                        ).drawn@.len() < peer::pull_seals(p, p.peer.len()))) || (expected is Err
                            && peer::reports(e, expected->Err_0))
                    },
                }
            }),
    {
        let working = self.mirror.copy();
        proof {
            assert(working.opened(session_key@) == self.mirror.opened(session_key@));
        }
        match peer::ingest_peer(
            working,
            &self.fingerprint_key,
            session_key,
            nonces,
            owner,
            local,
            peer,
            local_resolutions,
            peer_resolutions,
            verdicts,
        ) {
            Ok((after, outcome)) => {
                proof {
                    let before = self.mirror.opened(session_key@);
                    if peer_laws::no_live_tombstone(before) {
                        peer_laws::live_objects_have_no_tombstone(
                            peer::pull_of(
                                self.fingerprint_key@,
                                owner@,
                                *local,
                                *peer,
                                local_resolutions@,
                                peer_resolutions@,
                                verdicts.deep_view(),
                            ),
                            before,
                        );
                    }
                }
                self.mirror = after;
                Ok(outcome)
            },
            Err(e) => Err(e),
        }
    }

    // ---------------------------------------------------------------------- reads

    /// How many entries there are, in one group or in all.
    pub fn entry_count(&self, group: Option<Uuid>) -> (r: u64)
        ensures
            r == queries::members(self.mirror.entries@, group).len(),
    {
        queries::entry_count(&self.mirror, group)
    }

    /// Lists entries, in one group or in all, the one changed last first.
    pub fn list_entries(&self, group: Option<Uuid>, page: Pagination) -> (r: Vec<EntrySummary>)
        ensures
            exists|s: Seq<Uuid>|
                {
                    &&& #[trigger] queries::lists(self.mirror.entries@, group, s)
                    &&& r@.len() == queries::window(s, page).len()
                    &&& forall|i: int|
                        0 <= i < r@.len() ==> queries::summarises(
                            #[trigger] r@[i],
                            queries::window(s, page)[i],
                            self.mirror.entries@[queries::window(s, page)[i]],
                        )
                },
    {
        queries::list_entries(&self.mirror, group, page)
    }

    /// An entry in full; `None` where there is none.
    pub fn entry(&self, uuid: Uuid) -> (r: Option<EntryFull>)
        ensures
            r is Some <==> self.mirror.entries@.contains_key(uuid),
            r is Some ==> details::shows(
                r->0,
                uuid,
                self.mirror.entries@[uuid],
                self.mirror.blobs@,
            ),
    {
        details::entry(&self.mirror, uuid)
    }

    /// The history of an entry, the oldest record first.
    pub fn history(&self, uuid: Uuid) -> (r: Result<Vec<HistoricEntry>, EngineError>)
        ensures
            if self.mirror.entries@.contains_key(uuid) {
                let records = self.mirror.entries@[uuid].history@;
                &&& r is Ok
                &&& r->Ok_0@.len() == records.len()
                &&& forall|i: int|
                    0 <= i < records.len() ==> details::shows_past(
                        #[trigger] r->Ok_0@[i],
                        i,
                        records[i],
                    )
            } else {
                reading::lacks(r, "entry"@)
            },
    {
        details::history(&self.mirror, uuid)
    }

    /// Every tag in use, in order.
    pub fn list_tags(&self) -> (r: Vec<String>)
        ensures
            order::texts_ascend(r.deep_view()),
            forall|t: Seq<char>| #[trigger]
                r.deep_view().contains(t) <==> self.mirror.tags.deep_view().contains(t),
    {
        details::list_tags(&self.mirror)
    }

    /// Every tag that some entry carries, with the number of those entries;
    /// ordered by name without regard to ASCII case.
    pub fn tag_usage_counts(&self) -> (r: Vec<(String, u64)>)
        ensures
            forall|i: int, j: int|
                0 <= i < j < r@.len() ==> !order::text_before(
                    details::folded((#[trigger] r@[j]).0@),
                    details::folded((#[trigger] r@[i]).0@),
                ),
            forall|i: int, j: int|
                0 <= i < j < r@.len() ==> (#[trigger] r@[i]).0@ != (#[trigger] r@[j]).0@,
            forall|i: int|
                0 <= i < r@.len() ==> self.mirror.tags.deep_view().contains(
                    (#[trigger] r@[i]).0@,
                ) && r@[i].1 > 0 && r@[i].1 == details::carriers(
                    self.mirror.entries@,
                    r@[i].0@,
                ).len(),
            forall|t: Seq<char>| #[trigger]
                self.mirror.tags.deep_view().contains(t) && details::carriers(
                    self.mirror.entries@,
                    t,
                ).len() > 0 ==> exists|i: int|
                    0 <= i < r@.len() && (#[trigger] r@[i]).0@ == t,
    {
        details::tag_usage_counts(&self.mirror)
    }

    /// Every group, roots first and then by name.
    pub fn group_tree(&self) -> (r: Vec<GroupNode>)
        ensures
            exists|s: Seq<Uuid>|
                {
                    &&& #[trigger] queries::shows_all(self.mirror.groups@, s)
                    &&& r@.len() == s.len()
                    &&& forall|i: int|
                        0 <= i < r@.len() ==> queries::is_node(
                            #[trigger] r@[i],
                            s[i],
                            self.mirror.groups@[s[i]],
                            self.mirror.entries@,
                        )
                },
    {
        queries::group_tree(&self.mirror)
    }

    /// The parent of a group; `None` for a root.
    pub fn group_parent_uuid(&self, child_uuid: Uuid) -> (r: Result<Option<Uuid>, EngineError>)
        ensures
            if self.mirror.groups@.contains_key(child_uuid) {
                r == Ok::<Option<Uuid>, EngineError>(
                    queries::parent_of(self.mirror.groups@, child_uuid),
                )
            } else {
                reading::lacks(r, "group"@)
            },
    {
        queries::group_parent_uuid(&self.mirror, child_uuid)
    }

    /// Whether a group lies below another, at any depth.
    pub fn is_descendant_of(&self, group_uuid: Uuid, ancestor_uuid: Uuid) -> (r: Result<
        bool,
        EngineError,
    >)
        ensures
            if self.mirror.groups@.contains_key(group_uuid) {
                r == Ok::<bool, EngineError>(
                    queries::descends(self.mirror.groups@, group_uuid, ancestor_uuid),
                )
            } else {
                reading::lacks(r, "group"@)
            },
    {
        queries::is_descendant_of(&self.mirror, group_uuid, ancestor_uuid)
    }

    /// An entry's password.
    pub fn reveal_password(&self, uuid: Uuid, session_key: Result<&SessionKey, String>) -> (r:
        Result<String, EngineError>)
        ensures
            match reading::sealed_in(self.mirror.entries@, uuid, PASSWORD_FIELD@) {
                None => reading::lacks(r, "password"@),
                Some(blob) => reading::reveals(r, session_key, blob),
            },
    {
        reading::reveal_password(&self.mirror, uuid, session_key)
    }

    /// The text of an entry's sealed field.
    pub fn reveal_custom_field(
        &self,
        uuid: Uuid,
        field_name: &str,
        session_key: Result<&SessionKey, String>,
    ) -> (r: Result<String, EngineError>)
        ensures
            match reading::sealed_in(self.mirror.entries@, uuid, field_name@) {
                None => reading::lacks(r, "custom_field"@),
                Some(blob) => reading::reveals(r, session_key, blob),
            },
    {
        reading::reveal_custom_field(&self.mirror, uuid, field_name, session_key)
    }

    /// The value of an entry's plain field; `None` where the field is sealed or
    /// not there.
    pub fn non_protected_custom_field(&self, uuid: Uuid, field_name: &str) -> (r: Option<String>)
        ensures
            match r {
                Some(t) => reading::plain_in(self.mirror.entries@, uuid, field_name@) == Some(t@),
                None => reading::plain_in(self.mirror.entries@, uuid, field_name@) is None,
            },
    {
        reading::non_protected_custom_field(&self.mirror, uuid, field_name)
    }

    /// The text of a field of a history record. A plain one takes no session
    /// key.
    pub fn reveal_history_field(
        &self,
        uuid: Uuid,
        history_index: u32,
        field_name: &str,
        session_key: Result<&SessionKey, String>,
    ) -> (r: Result<String, EngineError>)
        ensures
            match reading::past_record(self.mirror.entries@, uuid, history_index) {
                None => reading::lacks(r, "history_snapshot"@),
                Some(s) => match reading::past_value(s, field_name@) {
                    None => reading::lacks(r, "history_field"@),
                    Some((value, sealed)) => reading::reveals_past(r, session_key, value, sealed),
                },
            },
    {
        reading::reveal_history_field(&self.mirror, uuid, history_index, field_name, session_key)
    }

    /// The content of an entry's file.
    pub fn attachment_bytes(&self, uuid: Uuid, attachment_name: &str) -> (r: Result<
        Vec<u8>,
        EngineError,
    >)
        ensures
            match reading::file_in(self.mirror, uuid, attachment_name@) {
                Some(bytes) => r is Ok && r->Ok_0@ == bytes,
                None => reading::lacks(r, "attachment"@),
            },
    {
        reading::attachment_bytes(&self.mirror, uuid, attachment_name)
    }

    /// The content of a file as a history record has it.
    pub fn history_attachment_bytes(
        &self,
        uuid: Uuid,
        history_index: u32,
        attachment_name: &str,
    ) -> (r: Result<Vec<u8>, EngineError>)
        ensures
            match reading::past_file_in(self.mirror, uuid, history_index, attachment_name@) {
                Some(bytes) => r is Ok && r->Ok_0@ == bytes,
                None => reading::lacks(r, "attachment"@),
            },
    {
        reading::history_attachment_bytes(&self.mirror, uuid, history_index, attachment_name)
    }
}

} // verus!
