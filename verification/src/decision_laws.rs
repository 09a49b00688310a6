//! Conflicts that wait for a decision, and what a decision leaves.

use vstd::prelude::*;

use crate::codec::Uuid;
use crate::conflict_resolution;
use crate::conflict_resolution::{
    ConflictKind, ConflictStash, DecisionRecord, MergeBuckets, MergeFault, PendingConflictContext,
    Resolution,
};
use crate::crypto::{NonceSource, SessionKey};
use crate::engine;
use crate::engine::Engine;
use crate::engine_laws::{tells, told_by_one};
use crate::error::EngineError;
use crate::events::{ChangeEvent, ChangeView, ConflictPayload, EntryParentGroups, MergeStats};
use crate::ingest;
use crate::mirror::MirrorView;
use crate::pull_laws::has_entry;
use crate::reading_laws::holds;
use crate::text;
use crate::time::Timestamp;
use crate::vault;
use crate::vault::{Entry, Group, Placed, Vault};
use crate::vault_laws;
use crate::vault_laws::{entry_at, group_at, place_of};

verus! {

// -------------------------------------------------------------------------- finding

/// Whether no entry of the same identity stands before that at a path's end.
pub open spec fn is_first(root: Group, path: Seq<nat>, k: int) -> bool {
    &&& entry_at(root, path, k) is Some
    &&& forall|p: Seq<nat>, n: int|
        (#[trigger] entry_at(root, p, n) matches Some(e) && e.id == entry_at(root, path, k)->0.id)
            ==> place_of(root, path, k) <= place_of(root, p, n)
}

proof fn first_is_first(placed: Seq<Placed>, n: nat, target: Uuid)
    requires
        n <= placed.len(),
    ensures
        match conflict_resolution::first_placed(placed, n, target) {
            Some(i) => {
                &&& 0 <= i < n
                &&& placed[i].entry.id == target
                &&& forall|j: int| 0 <= j < i ==> (#[trigger] placed[j]).entry.id != target
            },
            None => forall|j: int| 0 <= j < n ==> (#[trigger] placed[j]).entry.id != target,
        },
    decreases n,
{
    if n > 0 {
        first_is_first(placed, (n - 1) as nat, target);
    }
}

/// A walk first meets an entry where it stands first.
proof fn met_where_it_is(root: &Group, path: Seq<nat>, k: int)
    requires
        is_first(*root, path, k),
    ensures
        ({
            let placed = vault::placed_entries(root, None, false);
            let i = place_of(*root, path, k);
            &&& conflict_resolution::met_at(root, entry_at(*root, path, k)->0.id) == Some(i)
            &&& 0 <= i < placed.len()
            &&& *placed[i].entry == entry_at(*root, path, k)->0
            &&& placed[i].group == group_at(*root, path)->0.id
        }),
{
    let placed = vault::placed_entries(root, None, false);
    let target = entry_at(*root, path, k)->0.id;
    let i = vault_laws::walk_meets(root, None, false, path, k);
    first_is_first(placed, placed.len(), target);
    let met = conflict_resolution::first_placed(placed, placed.len(), target);
    assert(placed[i].entry.id == target);
    let j = met->0;
    let (p, n) = vault_laws::from_walk(root, None, false, j);
    assert(entry_at(*root, p, n) is Some);
}

proof fn not_met(root: &Group, target: Uuid)
    requires
        !has_entry(*root, target),
    ensures
        conflict_resolution::met_at(root, target) is None,
{
    let placed = vault::placed_entries(root, None, false);
    first_is_first(placed, placed.len(), target);
    if let Some(i) = conflict_resolution::met_at(root, target) {
        let (p, n) = vault_laws::from_walk(root, None, false, i);
        assert(entry_at(*root, p, n) is Some);
    }
}

/// An entry is found where it stands first, and so is the group it is in.
pub proof fn an_entry_is_found(
    root: &Group,
    path: Seq<nat>,
    k: int,
    r: Option<&Entry>,
    group: Option<Uuid>,
)
    requires
        is_first(*root, path, k),
        call_ensures(
            conflict_resolution::find_entry_in_group,
            (root, entry_at(*root, path, k)->0.id),
            r,
        ),
        call_ensures(
            conflict_resolution::find_entry_parent_group,
            (root, entry_at(*root, path, k)->0.id),
            group,
        ),
    ensures
        r is Some,
        *r->0 == entry_at(*root, path, k)->0,
        group == Some(group_at(*root, path)->0.id),
{
    met_where_it_is(root, path, k);
}

/// An entry that a tree does not have is not found in it.
pub proof fn no_other_entry_is_found(
    root: &Group,
    target: Uuid,
    r: Option<&Entry>,
    group: Option<Uuid>,
)
    requires
        !has_entry(*root, target),
        call_ensures(conflict_resolution::find_entry_in_group, (root, target), r),
        call_ensures(conflict_resolution::find_entry_parent_group, (root, target), group),
    ensures
        r is None,
        group is None,
{
    not_met(root, target);
}

/// A record of an entry's history is found with the entry that stands first, where
/// the entry has so many.
pub proof fn a_record_is_found(
    v: &Vault,
    path: Seq<nat>,
    k: int,
    index: u32,
    r: Result<(&Entry, usize), EngineError>,
)
    requires
        is_first(v.root, path, k),
        call_ensures(engine::history_record, (v, entry_at(v.root, path, k)->0.id, index), r),
    ensures
        r is Ok <==> index < entry_at(v.root, path, k)->0.history@.len(),
        r matches Ok((e, i)) ==> *e == entry_at(v.root, path, k)->0 && i == index,
        r is Err ==> (r matches Err(EngineError::NotFound { entity }) && entity@
            == "history_snapshot"@),
{
    met_where_it_is(&v.root, path, k);
}

/// No record is found of an entry that a vault does not have.
pub proof fn no_record_of_no_entry(
    v: &Vault,
    target: Uuid,
    index: u32,
    r: Result<(&Entry, usize), EngineError>,
)
    requires
        !has_entry(v.root, target),
        call_ensures(engine::history_record, (v, target, index), r),
    ensures
        r matches Err(EngineError::NotFound { entity }) && entity@ == "entry"@,
{
    not_met(&v.root, target);
}

// ------------------------------------------------------------------------ revealing

/// Whether a name asked of an entry gave what the entry has under it: its password
/// under "Password", the first custom field of the name under any other.
pub open spec fn is_value_of(e: Entry, name: Seq<char>, r: Result<String, EngineError>) -> bool {
    let fields = e.content.custom_fields@;
    &&& name == "Password"@ ==> (r matches Ok(t) && t@ == e.content.password@)
    &&& name != "Password"@ ==> forall|i: int|
        (0 <= i < fields.len() && (#[trigger] fields[i]).key@ == name && forall|j: int|
            0 <= j < i ==> (#[trigger] fields[j]).key@ != name) ==> (r matches Ok(t) && t@
            == fields[i].value@)
    &&& name != "Password"@ && (forall|i: int|
        0 <= i < fields.len() ==> (#[trigger] fields[i]).key@ != name) ==> (
    r matches Err(EngineError::NotFound { entity }) && entity@ == "custom_field"@)
}

proof fn first_name_is_first(fields: Seq<vault::CustomField>, n: nat, name: Seq<char>)
    requires
        n <= fields.len(),
    ensures
        match conflict_resolution::first_field(fields, n, name) {
            Some(i) => {
                &&& 0 <= i < n
                &&& fields[i].key@ == name
                &&& forall|j: int| 0 <= j < i ==> (#[trigger] fields[j]).key@ != name
            },
            None => forall|j: int| 0 <= j < n ==> (#[trigger] fields[j]).key@ != name,
        },
    decreases n,
{
    if n > 0 {
        first_name_is_first(fields, (n - 1) as nat, name);
    }
}

proof fn a_given_value_is_the_entrys(
    v: &Vault,
    path: Seq<nat>,
    k: int,
    name: Seq<char>,
    r: Result<String, EngineError>,
)
    requires
        is_first(v.root, path, k),
        conflict_resolution::gives(
            r,
            conflict_resolution::field_in(v, entry_at(v.root, path, k)->0.id, name),
        ),
    ensures
        is_value_of(entry_at(v.root, path, k)->0, name, r),
{
    met_where_it_is(&v.root, path, k);
    let fields = entry_at(v.root, path, k)->0.content.custom_fields@;
    first_name_is_first(fields, fields.len(), name);
}

/// A field of a vault's entry is revealed as it stands in the vault.
pub proof fn a_vaults_field_is_revealed(
    v: &Vault,
    path: Seq<nat>,
    k: int,
    name: &str,
    r: Result<String, EngineError>,
)
    requires
        is_first(v.root, path, k),
        call_ensures(
            conflict_resolution::reveal_conflict_field_from_vault,
            (v, entry_at(v.root, path, k)->0.id, name),
            r,
        ),
    ensures
        is_value_of(entry_at(v.root, path, k)->0, name@, r),
{
    a_given_value_is_the_entrys(v, path, k, name@, r);
}

/// A field on our side of a stashed conflict is revealed as our vault has it.
pub proof fn our_field_is_revealed(
    en: Engine,
    id: i64,
    path: Seq<nat>,
    k: int,
    name: &str,
    r: Result<String, EngineError>,
)
    requires
        en.stash.contexts@.contains_key(id),
        is_first(en.stash.contexts@[id].local_vault.root, path, k),
        call_ensures(
            Engine::reveal_conflict_local_field,
            (&en, id, entry_at(en.stash.contexts@[id].local_vault.root, path, k)->0.id, name),
            r,
        ),
    ensures
        is_value_of(entry_at(en.stash.contexts@[id].local_vault.root, path, k)->0, name@, r),
{
    a_given_value_is_the_entrys(&en.stash.contexts@[id].local_vault, path, k, name@, r);
}

/// A field on the other side of a stashed conflict is revealed as the other vault
/// has it.
pub proof fn their_field_is_revealed(
    en: Engine,
    id: i64,
    path: Seq<nat>,
    k: int,
    name: &str,
    r: Result<String, EngineError>,
)
    requires
        en.stash.contexts@.contains_key(id),
        is_first(en.stash.contexts@[id].remote_vault.root, path, k),
        call_ensures(
            Engine::reveal_conflict_remote_field,
            (&en, id, entry_at(en.stash.contexts@[id].remote_vault.root, path, k)->0.id, name),
            r,
        ),
    ensures
        is_value_of(entry_at(en.stash.contexts@[id].remote_vault.root, path, k)->0, name@, r),
{
    a_given_value_is_the_entrys(&en.stash.contexts@[id].remote_vault, path, k, name@, r);
}

/// What a missing conflict or a missing entry is answered, on either side.
pub proof fn what_is_missing_is_named(
    en: Engine,
    id: i64,
    entry: Uuid,
    name: &str,
    ours: Result<String, EngineError>,
    theirs: Result<String, EngineError>,
)
    requires
        call_ensures(Engine::reveal_conflict_local_field, (&en, id, entry, name), ours),
        call_ensures(Engine::reveal_conflict_remote_field, (&en, id, entry, name), theirs),
    ensures
        !en.stash.contexts@.contains_key(id) ==> {
            &&& ours matches Err(EngineError::NotFound { entity }) && entity@ == "conflict_payload"@
            &&& theirs matches Err(EngineError::NotFound { entity }) && entity@
                == "conflict_payload"@
        },
        en.stash.contexts@.contains_key(id) && !has_entry(
            en.stash.contexts@[id].local_vault.root,
            entry,
        ) ==> (ours matches Err(EngineError::NotFound { entity }) && entity@ == "entry"@),
        en.stash.contexts@.contains_key(id) && !has_entry(
            en.stash.contexts@[id].remote_vault.root,
            entry,
        ) ==> (theirs matches Err(EngineError::NotFound { entity }) && entity@ == "entry"@),
{
    if en.stash.contexts@.contains_key(id) {
        let ctx = en.stash.contexts@[id];
        if !has_entry(ctx.local_vault.root, entry) {
            not_met(&ctx.local_vault.root, entry);
        }
        if !has_entry(ctx.remote_vault.root, entry) {
            not_met(&ctx.remote_vault.root, entry);
        }
    }
}

/// For an entry of a stashed conflict, the groups that hold it: ours as our vault
/// has it, the other's as the other vault has it.
pub proof fn both_groups_are_shown(
    en: Engine,
    id: i64,
    r: Option<Vec<(Uuid, EntryParentGroups)>>,
    ours: (Seq<nat>, int),
    theirs: (Seq<nat>, int),
    i: int,
)
    requires
        call_ensures(Engine::pending_conflict_parent_groups, (&en, id), r),
        r is Some,
        0 <= i < r->0@.len(),
    ensures
        en.stash.contexts@.contains_key(id),
        ({
            let ctx = en.stash.contexts@[id];
            let (u, groups) = r->0@[i];
            &&& ctx.payload.delete_edit_conflicts@.contains(u) || exists|c: int|
                0 <= c < ctx.payload.entry_conflicts@.len() && (
                #[trigger] ctx.payload.entry_conflicts@[c]).entry_id == u
            &&& is_first(ctx.local_vault.root, ours.0, ours.1) && entry_at(
                ctx.local_vault.root,
                ours.0,
                ours.1,
            )->0.id == u ==> groups.local == Some(group_at(ctx.local_vault.root, ours.0)->0.id)
            &&& is_first(ctx.remote_vault.root, theirs.0, theirs.1) && entry_at(
                ctx.remote_vault.root,
                theirs.0,
                theirs.1,
            )->0.id == u ==> groups.remote == Some(
                group_at(ctx.remote_vault.root, theirs.0)->0.id,
            )
            &&& !has_entry(ctx.local_vault.root, u) ==> groups.local is None
            &&& !has_entry(ctx.remote_vault.root, u) ==> groups.remote is None
        }),
{
    let ctx = en.stash.contexts@[id];
    let (u, groups) = r->0@[i];
    assert(conflict_resolution::in_payload(ctx.payload, u));
    if is_first(ctx.local_vault.root, ours.0, ours.1) && entry_at(
        ctx.local_vault.root,
        ours.0,
        ours.1,
    )->0.id == u {
        met_where_it_is(&ctx.local_vault.root, ours.0, ours.1);
    }
    if is_first(ctx.remote_vault.root, theirs.0, theirs.1) && entry_at(
        ctx.remote_vault.root,
        theirs.0,
        theirs.1,
    )->0.id == u {
        met_where_it_is(&ctx.remote_vault.root, theirs.0, theirs.1);
    }
    if !has_entry(ctx.local_vault.root, u) {
        not_met(&ctx.local_vault.root, u);
    }
    if !has_entry(ctx.remote_vault.root, u) {
        not_met(&ctx.remote_vault.root, u);
    }
}

/// Every entry of a stashed conflict has its groups shown.
pub proof fn no_entry_in_conflict_is_left_out(
    en: Engine,
    id: i64,
    r: Option<Vec<(Uuid, EntryParentGroups)>>,
    c: int,
)
    requires
        call_ensures(Engine::pending_conflict_parent_groups, (&en, id), r),
        en.stash.contexts@.contains_key(id),
    ensures
        r is Some,
        0 <= c < en.stash.contexts@[id].payload.entry_conflicts@.len() ==> exists|i: int|
            0 <= i < r->0@.len() && (#[trigger] r->0@[i]).0
                == en.stash.contexts@[id].payload.entry_conflicts@[c].entry_id,
        0 <= c < en.stash.contexts@[id].payload.delete_edit_conflicts@.len() ==> exists|i: int|
            0 <= i < r->0@.len() && (#[trigger] r->0@[i]).0
                == en.stash.contexts@[id].payload.delete_edit_conflicts@[c],
{
    let p = en.stash.contexts@[id].payload;
    if 0 <= c < p.entry_conflicts@.len() {
        assert(conflict_resolution::in_payload(p, p.entry_conflicts@[c].entry_id));
    }
    if 0 <= c < p.delete_edit_conflicts@.len() {
        assert(p.delete_edit_conflicts@.contains(p.delete_edit_conflicts@[c]));
        assert(conflict_resolution::in_payload(p, p.delete_edit_conflicts@[c]));
    }
}

// ------------------------------------------------------------------------ the stash

/// Whether one payload says what another does.
pub open spec fn same_payload(a: ConflictPayload, b: ConflictPayload) -> bool {
    &&& a.id == b.id
    &&& a.delete_edit_conflicts@ == b.delete_edit_conflicts@
    &&& a.entry_conflicts@.len() == b.entry_conflicts@.len()
    &&& forall|i: int|
        0 <= i < a.entry_conflicts@.len() ==> {
            let x = #[trigger] a.entry_conflicts@[i];
            let y = b.entry_conflicts@[i];
            &&& x.entry_id == y.entry_id
            &&& x.icon_differs == y.icon_differs
            &&& x.field_names@.len() == y.field_names@.len()
            &&& x.attachment_names@.len() == y.attachment_names@.len()
            &&& forall|j: int|
                0 <= j < x.field_names@.len() ==> (#[trigger] x.field_names@[j])@
                    == y.field_names@[j]@
            &&& forall|j: int|
                0 <= j < x.attachment_names@.len() ==> (#[trigger] x.attachment_names@[j])@
                    == y.attachment_names@[j]@
        }
}

proof fn same_texts(a: Vec<String>, b: Vec<String>)
    requires
        a.deep_view() == b.deep_view(),
    ensures
        a@.len() == b@.len(),
        forall|j: int| 0 <= j < a@.len() ==> (#[trigger] a@[j])@ == b@[j]@,
{
    assert(a.deep_view().len() == a@.len());
    assert(b.deep_view().len() == b@.len());
    assert forall|j: int| 0 <= j < a@.len() implies (#[trigger] a@[j])@ == b@[j]@ by {
        assert(a.deep_view()[j] == a@[j]@);
        assert(b.deep_view()[j] == b@[j]@);
    }
}

proof fn equal_payloads_say_the_same(a: ConflictPayload, b: ConflictPayload)
    requires
        a.deep_view() == b.deep_view(),
    ensures
        same_payload(a, b),
{
    let x = a.entry_conflicts.deep_view();
    let y = b.entry_conflicts.deep_view();
    assert(x.len() == a.entry_conflicts@.len());
    assert(y.len() == b.entry_conflicts@.len());
    assert forall|i: int| 0 <= i < a.entry_conflicts@.len() implies {
        let s = #[trigger] a.entry_conflicts@[i];
        let t = b.entry_conflicts@[i];
        &&& s.entry_id == t.entry_id
        &&& s.icon_differs == t.icon_differs
        &&& s.field_names.deep_view() == t.field_names.deep_view()
        &&& s.attachment_names.deep_view() == t.attachment_names.deep_view()
    } by {
        assert(x[i] == a.entry_conflicts@[i].deep_view());
        assert(y[i] == b.entry_conflicts@[i].deep_view());
    }
    assert forall|i: int| 0 <= i < a.entry_conflicts@.len() implies {
        let s = #[trigger] a.entry_conflicts@[i];
        let t = b.entry_conflicts@[i];
        &&& s.field_names@.len() == t.field_names@.len()
        &&& s.attachment_names@.len() == t.attachment_names@.len()
        &&& forall|j: int|
            0 <= j < s.field_names@.len() ==> (#[trigger] s.field_names@[j])@ == t.field_names@[j]@
        &&& forall|j: int|
            0 <= j < s.attachment_names@.len() ==> (#[trigger] s.attachment_names@[j])@
                == t.attachment_names@[j]@
    } by {
        same_texts(a.entry_conflicts@[i].field_names, b.entry_conflicts@[i].field_names);
        same_texts(a.entry_conflicts@[i].attachment_names, b.entry_conflicts@[i].attachment_names);
    }
}

/// A stashed conflict is the one that is shown under its number.
pub proof fn a_stashed_conflict_is_shown(
    en: Engine,
    id: i64,
    r: Option<ConflictPayload>,
)
    requires
        call_ensures(Engine::pending_conflict, (&en, id), r),
    ensures
        r is Some <==> en.stash.payloads@.contains_key(id),
        r is Some ==> same_payload(r->0, en.stash.payloads@[id]),
{
    if r is Some {
        equal_payloads_say_the_same(r->0, en.stash.payloads@[id]);
    }
}

/// A conflict that is stashed stands under its own number, and the others stay.
pub proof fn a_conflict_is_stashed_under_its_number(
    stash: &mut ConflictStash,
    payload: ConflictPayload,
    other: i64,
)
    requires
        call_ensures(ConflictStash::stash_conflict_payload, (stash, payload), ()),
        other != payload.id,
    ensures
        final(stash).payloads@.contains_key(payload.id),
        final(stash).payloads@[payload.id] == payload,
        final(stash).payloads@.contains_key(other) <==> old(stash).payloads@.contains_key(other),
        old(stash).payloads@.contains_key(other) ==> final(stash).payloads@[other]
            == old(stash).payloads@[other],
        final(stash).contexts == old(stash).contexts,
{
}

/// What it takes to settle a conflict stands under the number of its payload, and
/// the others stay.
pub proof fn a_context_is_stashed_under_its_number(
    stash: &mut ConflictStash,
    ctx: PendingConflictContext,
    other: i64,
)
    requires
        call_ensures(ConflictStash::stash_conflict_context, (stash, ctx), ()),
        other != ctx.payload.id,
    ensures
        final(stash).contexts@.contains_key(ctx.payload.id),
        final(stash).contexts@[ctx.payload.id] == ctx,
        final(stash).contexts@.contains_key(other) <==> old(stash).contexts@.contains_key(other),
        old(stash).contexts@.contains_key(other) ==> final(stash).contexts@[other]
            == old(stash).contexts@[other],
        final(stash).payloads == old(stash).payloads,
{
}

/// What is taken out of the stash is what stood under the number; it is gone then,
/// and nothing else is.
pub proof fn a_context_is_taken_once(
    stash: &mut ConflictStash,
    id: i64,
    other: i64,
    r: Option<PendingConflictContext>,
)
    requires
        call_ensures(ConflictStash::take_pending_conflict_context, (stash, id), r),
        other != id,
    ensures
        r is Some <==> old(stash).contexts@.contains_key(id),
        r is Some ==> r->0 == old(stash).contexts@[id],
        !final(stash).contexts@.contains_key(id),
        final(stash).contexts@.contains_key(other) <==> old(stash).contexts@.contains_key(other),
        old(stash).contexts@.contains_key(other) ==> final(stash).contexts@[other]
            == old(stash).contexts@[other],
        final(stash).payloads == old(stash).payloads,
{
}

/// A conflict that is dropped is no longer shown and cannot be settled; the others
/// stay, and nothing else changes.
pub proof fn a_dropped_conflict_is_gone(en: &mut Engine, id: i64, other: i64)
    requires
        call_ensures(Engine::discard_conflict, (en, id), ()),
        other != id,
    ensures
        !final(en).stash.payloads@.contains_key(id),
        !final(en).stash.contexts@.contains_key(id),
        final(en).stash.payloads@.contains_key(other) <==> old(en).stash.payloads@.contains_key(
            other,
        ),
        final(en).stash.contexts@.contains_key(other) <==> old(en).stash.contexts@.contains_key(
            other,
        ),
        old(en).stash.contexts@.contains_key(other) ==> final(en).stash.contexts@[other]
            == old(en).stash.contexts@[other],
        old(en).stash.payloads@.contains_key(other) ==> final(en).stash.payloads@[other]
            == old(en).stash.payloads@[other],
        *final(en) == (Engine { stash: final(en).stash, ..*old(en) }),
{
}

/// What is logged of a stashed conflict is its number and how many entries differ and
/// were deleted; nothing of the vaults.
pub proof fn a_conflict_is_logged_by_its_numbers(ctx: PendingConflictContext, r: String)
    requires
        call_ensures(PendingConflictContext::debug_text, (&ctx,), r),
    ensures
        r@ == "PendingConflictContext { payload_id: "@ + text::signed_of(ctx.payload.id as int)
            + ", entry_conflicts: "@ + text::decimal_of(ctx.payload.entry_conflicts@.len())
            + ", delete_edit_conflicts: "@ + text::decimal_of(
            ctx.payload.delete_edit_conflicts@.len(),
        ) + ", .. }"@,
{
}

/// As many conflicts are counted as can be shown.
pub proof fn shown_conflicts_are_counted(en: Engine, n: usize)
    requires
        call_ensures(Engine::pending_conflict_count_for_test, (&en,), n),
    ensures
        n == en.stash.payloads@.dom().len(),
{
}

// ---------------------------------------------------------------------- the decision

/// Whether a record is of a decision on a facet of an entry.
pub open spec fn is_record_of(
    d: DecisionRecord,
    entry: Uuid,
    kind: ConflictKind,
    name: Option<Seq<char>>,
    now: Timestamp,
) -> bool {
    &&& d.entry == entry
    &&& d.kind == kind
    &&& d.resolved_at == now
    &&& (name is Some <==> d.key is Some)
    &&& name is Some ==> d.key->0@ == name->0
}

/// Whether a decision was made on a facet of an entry.
pub open spec fn is_decided(
    r: Resolution,
    entry: Uuid,
    kind: ConflictKind,
    name: Option<Seq<char>>,
) -> bool {
    match kind {
        ConflictKind::Field => exists|i: int, j: int|
            0 <= i < r.entry_field_choices@.len() && 0 <= j
                < r.entry_field_choices@[i].fields@.len() && r.entry_field_choices@[i].entry
                == entry && name == Some((#[trigger] r.entry_field_choices@[i].fields@[j]).0@),
        ConflictKind::Attachment => exists|i: int, j: int|
            0 <= i < r.entry_attachment_choices@.len() && 0 <= j
                < r.entry_attachment_choices@[i].attachments@.len()
                && r.entry_attachment_choices@[i].entry == entry && name == Some(
                (#[trigger] r.entry_attachment_choices@[i].attachments@[j]).0@,
            ),
        ConflictKind::Icon => name is None && exists|i: int|
            0 <= i < r.entry_icon_choices@.len() && (#[trigger] r.entry_icon_choices@[i]).0
                == entry,
    }
}

proof fn a_field_record(
    choices: Seq<conflict_resolution::FieldChoices>,
    n: nat,
    now: Timestamp,
    x: int,
) -> (r: (int, int))
    requires
        n <= choices.len(),
        0 <= x < conflict_resolution::field_records(choices, n, now).len(),
    ensures
        0 <= r.0 < n,
        0 <= r.1 < choices[r.0].fields@.len(),
        conflict_resolution::field_records(choices, n, now)[x] == (
        conflict_resolution::DecisionView {
            entry: choices[r.0].entry,
            kind: ConflictKind::Field,
            key: Some(choices[r.0].fields@[r.1].0@),
            resolved_at: now,
        }),
    decreases n,
{
    let before = conflict_resolution::field_records(choices, (n - 1) as nat, now);
    if x < before.len() {
        a_field_record(choices, (n - 1) as nat, now, x)
    } else {
        (n - 1, x - before.len())
    }
}

proof fn a_field_is_recorded(
    choices: Seq<conflict_resolution::FieldChoices>,
    n: nat,
    now: Timestamp,
    i: int,
    j: int,
) -> (x: int)
    requires
        0 <= i < n <= choices.len(),
        0 <= j < choices[i].fields@.len(),
    ensures
        0 <= x < conflict_resolution::field_records(choices, n, now).len(),
        conflict_resolution::field_records(choices, n, now)[x] == (
        conflict_resolution::DecisionView {
            entry: choices[i].entry,
            kind: ConflictKind::Field,
            key: Some(choices[i].fields@[j].0@),
            resolved_at: now,
        }),
    decreases n,
{
    let before = conflict_resolution::field_records(choices, (n - 1) as nat, now);
    if i < n - 1 {
        a_field_is_recorded(choices, (n - 1) as nat, now, i, j)
    } else {
        before.len() + j
    }
}

proof fn a_file_record(
    choices: Seq<conflict_resolution::AttachmentChoices>,
    n: nat,
    now: Timestamp,
    x: int,
) -> (r: (int, int))
    requires
        n <= choices.len(),
        0 <= x < conflict_resolution::attachment_records(choices, n, now).len(),
    ensures
        0 <= r.0 < n,
        0 <= r.1 < choices[r.0].attachments@.len(),
        conflict_resolution::attachment_records(choices, n, now)[x] == (
        conflict_resolution::DecisionView {
            entry: choices[r.0].entry,
            kind: ConflictKind::Attachment,
            key: Some(choices[r.0].attachments@[r.1].0@),
            resolved_at: now,
        }),
    decreases n,
{
    let before = conflict_resolution::attachment_records(choices, (n - 1) as nat, now);
    if x < before.len() {
        a_file_record(choices, (n - 1) as nat, now, x)
    } else {
        (n - 1, x - before.len())
    }
}

proof fn a_file_is_recorded(
    choices: Seq<conflict_resolution::AttachmentChoices>,
    n: nat,
    now: Timestamp,
    i: int,
    j: int,
) -> (x: int)
    requires
        0 <= i < n <= choices.len(),
        0 <= j < choices[i].attachments@.len(),
    ensures
        0 <= x < conflict_resolution::attachment_records(choices, n, now).len(),
        conflict_resolution::attachment_records(choices, n, now)[x] == (
        conflict_resolution::DecisionView {
            entry: choices[i].entry,
            kind: ConflictKind::Attachment,
            key: Some(choices[i].attachments@[j].0@),
            resolved_at: now,
        }),
    decreases n,
{
    let before = conflict_resolution::attachment_records(choices, (n - 1) as nat, now);
    if i < n - 1 {
        a_file_is_recorded(choices, (n - 1) as nat, now, i, j)
    } else {
        before.len() + j
    }
}

/// Every decision on a field, a file or an icon is recorded, with its entry, its
/// name and the time.
pub proof fn a_decision_is_recorded(
    resolution: &Resolution,
    now: Timestamp,
    r: Vec<DecisionRecord>,
    entry: Uuid,
    kind: ConflictKind,
    name: Option<Seq<char>>,
)
    requires
        call_ensures(conflict_resolution::record_resolutions, (resolution, now), r),
        is_decided(*resolution, entry, kind, name),
    ensures
        exists|x: int|
            0 <= x < r@.len() && is_record_of(#[trigger] r@[x], entry, kind, name, now),
{
    let a = resolution.entry_field_choices@;
    let b = resolution.entry_attachment_choices@;
    let c = resolution.entry_icon_choices@;
    let fields = conflict_resolution::field_records(a, a.len(), now);
    let files = conflict_resolution::attachment_records(b, b.len(), now);
    let all = conflict_resolution::records_of(*resolution, now);
    assert(r.deep_view().len() == r@.len());
    let x = match kind {
        ConflictKind::Field => {
            let (i, j) = choose|i: int, j: int|
                0 <= i < a.len() && 0 <= j < a[i].fields@.len() && a[i].entry == entry && name
                    == Some((#[trigger] a[i].fields@[j]).0@);
            let x = a_field_is_recorded(a, a.len(), now, i, j);
            assert(all[x] == fields[x]);
            x
        },
        ConflictKind::Attachment => {
            let (i, j) = choose|i: int, j: int|
                0 <= i < b.len() && 0 <= j < b[i].attachments@.len() && b[i].entry == entry && name
                    == Some((#[trigger] b[i].attachments@[j]).0@);
            let x = a_file_is_recorded(b, b.len(), now, i, j);
            assert(all[fields.len() + x] == files[x]);
            fields.len() + x
        },
        ConflictKind::Icon => {
            let i = choose|i: int| 0 <= i < c.len() && (#[trigger] c[i]).0 == entry;
            fields.len() + files.len() + i
        },
    };
    assert(r.deep_view()[x] == r@[x].deep_view());
    assert(is_record_of(r@[x], entry, kind, name, now));
}

/// Nothing is recorded but what was decided, and with the time of the decision.
pub proof fn only_decisions_are_recorded(
    resolution: &Resolution,
    now: Timestamp,
    r: Vec<DecisionRecord>,
    x: int,
)
    requires
        call_ensures(conflict_resolution::record_resolutions, (resolution, now), r),
        0 <= x < r@.len(),
    ensures
        r@[x].resolved_at == now,
        is_decided(
            *resolution,
            r@[x].entry,
            r@[x].kind,
            match r@[x].key {
                Some(t) => Some(t@),
                None => None,
            },
        ),
{
    let a = resolution.entry_field_choices@;
    let b = resolution.entry_attachment_choices@;
    let c = resolution.entry_icon_choices@;
    let fields = conflict_resolution::field_records(a, a.len(), now);
    let files = conflict_resolution::attachment_records(b, b.len(), now);
    let all = conflict_resolution::records_of(*resolution, now);
    assert(r.deep_view().len() == r@.len());
    assert(r.deep_view()[x] == r@[x].deep_view());
    if x < fields.len() {
        let (i, j) = a_field_record(a, a.len(), now, x);
        assert(all[x] == fields[x]);
        assert(a[i].fields@[j].0@ == r@[x].key->0@);
    } else if x < fields.len() + files.len() {
        let (i, j) = a_file_record(b, b.len(), now, x - fields.len());
        assert(all[x] == files[x - fields.len()]);
        assert(b[i].attachments@[j].0@ == r@[x].key->0@);
    } else {
        let i = x - fields.len() - files.len();
        assert(c[i].0 == r@[x].entry);
    }
}

/// The entries decided on are those that some choice names, each once and in order.
pub proof fn decided_entries_are_listed(resolution: &Resolution, r: Vec<Uuid>, i: int, u: Uuid)
    requires
        call_ensures(conflict_resolution::resolved_entries, (resolution,), r),
    ensures
        0 <= i < resolution.entry_field_choices@.len() && resolution.entry_field_choices@[i].entry
            == u ==> r@.contains(u),
        0 <= i < resolution.entry_attachment_choices@.len()
            && resolution.entry_attachment_choices@[i].entry == u ==> r@.contains(u),
        0 <= i < resolution.entry_icon_choices@.len() && resolution.entry_icon_choices@[i].0 == u
            ==> r@.contains(u),
        0 <= i < resolution.delete_edit_choices@.len() && resolution.delete_edit_choices@[i].0 == u
            ==> r@.contains(u),
        forall|a: int, b: int| 0 <= a < b < r@.len() ==> (#[trigger] r@[a]) < (#[trigger] r@[b]),
{
    assert(conflict_resolution::settles(*resolution, u) <==> r@.contains(u));
}

/// What is told of a merge: what the other side added and deleted, and all that
/// was changed on either side or on both.
pub proof fn a_merge_is_counted(b: &MergeBuckets, r: MergeStats)
    requires
        b.disk_only_changes + b.local_only_changes + b.entry_conflicts <= usize::MAX,
        call_ensures(conflict_resolution::merge_stats, (b,), r),
    ensures
        r.entries_added == b.added_on_disk,
        r.entries_deleted == b.deleted_on_disk,
        r.entries_updated == b.disk_only_changes + b.local_only_changes + b.entry_conflicts,
        r.entries_moved == 0,
        r.groups_added == 0,
        r.groups_updated == 0,
        r.groups_deleted == 0,
        r.groups_moved == 0,
        r.history_pruned == 0,
{
}

/// Settling a conflict leaves tables that hold the merged vault.
pub proof fn settling_leaves_the_merged_vault(
    en: &mut Engine,
    id: i64,
    resolution: &Resolution,
    merged: Vault,
    session_key: &SessionKey,
    nonces: &mut NonceSource,
) -> (before: MirrorView)
    requires
        call_ensures(
            Engine::apply_conflict_resolution,
            (
                en,
                id,
                resolution,
                Ok::<Vault, MergeFault>(merged),
                Ok::<&SessionKey, String>(session_key),
                nonces,
            ),
            Ok(()),
        ),
    ensures
        holds(
            final(en).mirror,
            before,
            &merged,
            session_key@,
            old(en).fingerprint_key@,
        ),
        old(en).stash.contexts@.contains_key(id),
        !final(en).stash.contexts@.contains_key(id),
        !final(en).stash.payloads@.contains_key(id),
        old(en).observed && old(en).stash.contexts@[id].outcome.disk_only_changes + old(
            en,
        ).stash.contexts@[id].outcome.local_only_changes + old(
            en,
        ).stash.contexts@[id].outcome.entry_conflicts <= usize::MAX ==> {
            let b = old(en).stash.contexts@[id].outcome;
            &&& final(en).outbox@.last() matches ChangeEvent::ExternalChangeMerged { applied }
                && applied.entries_added == b.added_on_disk && applied.entries_deleted
                == b.deleted_on_disk && applied.entries_updated == b.disk_only_changes
                + b.local_only_changes + b.entry_conflicts
        },
        tells(*old(en), *final(en), 1),
{
    let old_view = old(en).mirror.opened(session_key@);
    let without = MirrorView {
        conflicts: engine::without_settled(old_view.conflicts, *resolution),
        ..old_view
    };
    told_by_one(
        *old(en),
        *final(en),
        ChangeView::ExternalChangeMerged {
            applied: conflict_resolution::stats_of(old(en).stash.contexts@[id].outcome),
        },
    );
    assert(ingest::ingested(without, &merged, old(en).fingerprint_key@) =~= (MirrorView {
        conflicts: without.conflicts,
        ..ingest::ingested(old_view, &merged, old(en).fingerprint_key@)
    }));
    without
}

/// A decision takes the held values of its entries away, and those of no other.
pub proof fn a_decision_releases_held_values(
    en: &mut Engine,
    id: i64,
    resolution: &Resolution,
    merged: Vault,
    session_key: &SessionKey,
    nonces: &mut NonceSource,
    owner: Seq<char>,
    u: Uuid,
    i: int,
)
    requires
        call_ensures(
            Engine::apply_conflict_resolution,
            (
                en,
                id,
                resolution,
                Ok::<Vault, MergeFault>(merged),
                Ok::<&SessionKey, String>(session_key),
                nonces,
            ),
            Ok(()),
        ),
    ensures
        ({
            let after = final(en).mirror.opened(session_key@).conflicts;
            let earlier = old(en).mirror.opened(session_key@).conflicts;
            &&& 0 <= i < resolution.entry_field_choices@.len()
                && resolution.entry_field_choices@[i].entry == u ==> !after.contains_key((owner, u))
            &&& 0 <= i < resolution.entry_attachment_choices@.len()
                && resolution.entry_attachment_choices@[i].entry == u ==> !after.contains_key(
                (owner, u),
            )
            &&& 0 <= i < resolution.entry_icon_choices@.len() && resolution.entry_icon_choices@[i].0
                == u ==> !after.contains_key((owner, u))
            &&& 0 <= i < resolution.delete_edit_choices@.len()
                && resolution.delete_edit_choices@[i].0 == u ==> !after.contains_key((owner, u))
            &&& (forall|x: int|
                0 <= x < resolution.entry_field_choices@.len() ==> (
                #[trigger] resolution.entry_field_choices@[x]).entry != u) && (forall|x: int|
                0 <= x < resolution.entry_attachment_choices@.len() ==> (
                #[trigger] resolution.entry_attachment_choices@[x]).entry != u) && (forall|x: int|
                0 <= x < resolution.entry_icon_choices@.len() ==> (
                #[trigger] resolution.entry_icon_choices@[x]).0 != u) && (forall|x: int|
                0 <= x < resolution.delete_edit_choices@.len() ==> (
                #[trigger] resolution.delete_edit_choices@[x]).0 != u) ==> {
                &&& after.contains_key((owner, u)) <==> earlier.contains_key((owner, u))
                &&& earlier.contains_key((owner, u)) ==> after[(owner, u)] == earlier[(owner, u)]
            }
        }),
{
    assert(conflict_resolution::settles(*resolution, u) || !conflict_resolution::settles(
        *resolution,
        u,
    ));
}

/// A conflict that is not stashed is not settled: nothing changes.
pub proof fn nothing_is_settled_twice(
    en: &mut Engine,
    id: i64,
    resolution: &Resolution,
    merged: Result<Vault, MergeFault>,
    session_key: Result<&SessionKey, String>,
    nonces: &mut NonceSource,
    r: Result<(), EngineError>,
)
    requires
        call_ensures(
            Engine::apply_conflict_resolution,
            (en, id, resolution, merged, session_key, nonces),
            r,
        ),
        !old(en).stash.contexts@.contains_key(id),
    ensures
        r matches Err(EngineError::NotFound { entity }) && entity@ == "conflict_payload"@,
        final(en).mirror == old(en).mirror,
        final(en).tables == old(en).tables,
        final(en).outbox == old(en).outbox,
{
}

} // verus!
