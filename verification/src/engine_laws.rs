//! How the engine's calls relate: what one call leaves, another finds.

use vstd::prelude::*;

use crate::codec;
use crate::codec::Uuid;
use crate::crypto::{NonceSource, SessionKey};
use crate::engine;
use crate::engine::{
    DisconnectReason, Engine, EngineShared, KdbxStateSignature, SelfWriteSignature, VaultState,
};
use crate::error::EngineError;
use crate::events::ChangeEvent;
use crate::file_watcher::{FileChange, FileTime, FileWatcherEvent, Presence};
use crate::ingest;
use crate::mirror;
use crate::mirror::GroupRow;
use crate::model::{EntryFull, IconRef};
use crate::properties;
use crate::properties::HeaderFacts;
use crate::reading_laws::holds;
use crate::settings;
use crate::settings::SettingKey;
use crate::vault::Vault;
use crate::vault_laws;
use crate::vault_laws::{entries_within, entry_at, place_of};

verus! {

// --------------------------------------------------------------------- whole vaults

/// Writing a vault from its file leaves tables that hold it, or changes nothing.
pub proof fn ingesting_leaves_the_vault(
    en: &mut Engine,
    v: &Vault,
    header: &HeaderFacts,
    session_key: &SessionKey,
    nonces: &mut NonceSource,
    r: Result<(), EngineError>,
)
    requires
        call_ensures(Engine::ingest_from_kdbx, (en, v, header, session_key, nonces), r),
    ensures
        r is Ok ==> holds(
            final(en).mirror,
            old(en).mirror.opened(session_key@),
            v,
            session_key@,
            old(en).fingerprint_key@,
        ),
        r is Ok ==> final(en).fingerprint_key == old(en).fingerprint_key,
        r is Err ==> *final(en) == *old(en),
{
}

/// Whether the events told between two states are the given number of last ones.
pub open spec fn tells(before: Engine, after: Engine, n: int) -> bool {
    &&& before.observed ==> after.outbox@.len() == before.outbox@.len() + n
    &&& before.observed ==> forall|i: int|
        0 <= i < before.outbox@.len() ==> (#[trigger] after.outbox@[i]).deep_view()
            == before.outbox@[i].deep_view()
    &&& !before.observed ==> after.outbox.deep_view() == before.outbox.deep_view()
}

/// An event that was told is the last one kept, behind all that were kept before.
pub proof fn told_by_one(before: Engine, after: Engine, event: crate::events::ChangeView)
    requires
        after.outbox.deep_view() == engine::told(
            before.outbox.deep_view(),
            before.observed,
            seq![event],
        ),
    ensures
        tells(before, after, 1),
        before.observed ==> after.outbox@.last().deep_view() == event,
{
    let a = after.outbox.deep_view();
    let b = before.outbox.deep_view();
    assert(a.len() == after.outbox@.len());
    assert(b.len() == before.outbox@.len());
    if before.observed {
        assert forall|i: int| 0 <= i < before.outbox@.len() implies (
        #[trigger] after.outbox@[i]).deep_view() == before.outbox@[i].deep_view() by {
            assert(a[i] == after.outbox@[i].deep_view());
            assert(b[i] == before.outbox@[i].deep_view());
        }
        assert(a[a.len() - 1] == after.outbox@[a.len() - 1].deep_view());
    }
}

/// Writing a vault that has entries tells of its groups and then of its entries,
/// the root first, each entry at its place.
pub proof fn ingesting_is_told(
    en: &mut Engine,
    v: &Vault,
    header: &HeaderFacts,
    session_key: &SessionKey,
    nonces: &mut NonceSource,
    path: Seq<nat>,
    k: int,
)
    requires
        call_ensures(Engine::ingest_from_kdbx, (en, v, header, session_key, nonces), Ok(())),
        entry_at(v.root, path, k) is Some,
        old(en).observed,
    ensures
        tells(*old(en), *final(en), 2),
        ({
            let n = final(en).outbox@.len();
            let groups = final(en).outbox@[n - 2];
            let entries = final(en).outbox@[n - 1];
            &&& groups is GroupsAdded
            &&& groups->GroupsAdded_0@.len() > 0
            &&& groups->GroupsAdded_0@[0] == v.root.id
            &&& entries is EntriesAdded
            &&& entries->EntriesAdded_0@.len() == entries_within(v.root)
            &&& entries->EntriesAdded_0@[place_of(v.root, path, k)] == entry_at(
                v.root,
                path,
                k,
            )->0.id
        }),
{
    let i = vault_laws::walk_meets(&v.root, v.meta.recycle_bin_uuid, false, path, k);
    vault_laws::walk_is_whole(&v.root, v.meta.recycle_bin_uuid, false);
    let placed = ingest::vault_entries(v);
    let rows = ingest::vault_groups(*v);
    assert(rows[0].0 == v.root.id);
    let b = old(en).outbox.deep_view();
    let a = final(en).outbox.deep_view();
    assert(a.len() == final(en).outbox@.len());
    assert(b.len() == old(en).outbox@.len());
    let n = a.len() as int;
    assert(n == b.len() + 2);
    assert(a[n - 2] == final(en).outbox@[n - 2].deep_view());
    assert(a[n - 1] == final(en).outbox@[n - 1].deep_view());
    assert(a[n - 2] == crate::events::ChangeView::GroupsAdded(
        Seq::new(rows.len(), |j: int| rows[j].0),
    ));
    assert(a[n - 1] == crate::events::ChangeView::EntriesAdded(
        Seq::new(placed.len(), |j: int| placed[j].entry.id),
    ));
    assert forall|j: int| 0 <= j < old(en).outbox@.len() implies (
    #[trigger] final(en).outbox@[j]).deep_view() == old(en).outbox@[j].deep_view() by {
        assert(a[j] == final(en).outbox@[j].deep_view());
        assert(b[j] == old(en).outbox@[j].deep_view());
    }
}

// ---------------------------------------------------------------------- small changes

/// Using an entry stamps it with the time, and changes nothing else that is shown
/// of it; it is told as a use of the entry. An entry that is not there is refused
/// and nothing is told.
pub proof fn a_use_is_stamped(
    en: &mut Engine,
    uuid: Uuid,
    now_ms: i64,
    r: Result<(), EngineError>,
    was: Option<EntryFull>,
)
    requires
        call_ensures(Engine::touch_entry, (en, uuid, now_ms), r),
        call_ensures(Engine::entry, (&*old(en), uuid), was),
    ensures
        r is Ok <==> was is Some,
        r is Err ==> r->Err_0 is NotFound && final(en).outbox == old(en).outbox,
        forall|is: Option<EntryFull>|
            r is Ok && #[trigger] call_ensures(Engine::entry, (&*final(en), uuid), is) ==> is is Some
                && is->0.last_used_at == Some(now_ms) && is->0.modified_at == was->0.modified_at
                && is->0.accessed_at == was->0.accessed_at && is->0.created_at
                == was->0.created_at && is->0.title@ == was->0.title@ && is->0.username@
                == was->0.username@ && is->0.url@ == was->0.url@ && is->0.notes@ == was->0.notes@
                && is->0.group_uuid == was->0.group_uuid && is->0.icon == was->0.icon
                && is->0.history_count == was->0.history_count,
        r is Ok ==> tells(*old(en), *final(en), 1),
        r is Ok && old(en).observed ==> (final(en).outbox@.last() matches ChangeEvent::EntryTouched {
            uuid: told,
        } && told == uuid),
        forall|u: Uuid|
            u != uuid && old(en).mirror.entries@.contains_key(u)
                ==> #[trigger] final(en).mirror.entries@.contains_key(u)
                && final(en).mirror.entries@[u] == old(en).mirror.entries@[u],
{
    if r is Ok {
        told_by_one(
            *old(en),
            *final(en),
            crate::events::ChangeView::EntryTouched { uuid },
        );
    }
}

/// Forgetting an entry's last use leaves it without one, and changes nothing else
/// that is shown of it; it is told as a change of the entry.
pub proof fn a_use_is_forgotten(
    en: &mut Engine,
    uuid: Uuid,
    r: Result<(), EngineError>,
    was: Option<EntryFull>,
)
    requires
        call_ensures(Engine::clear_entry_last_access, (en, uuid), r),
        call_ensures(Engine::entry, (&*old(en), uuid), was),
    ensures
        r is Ok <==> was is Some,
        r is Err ==> r->Err_0 is NotFound && final(en).outbox == old(en).outbox,
        forall|is: Option<EntryFull>|
            r is Ok && #[trigger] call_ensures(Engine::entry, (&*final(en), uuid), is) ==> is is Some
                && is->0.last_used_at is None && is->0.modified_at == was->0.modified_at
                && is->0.accessed_at == was->0.accessed_at && is->0.created_at
                == was->0.created_at && is->0.title@ == was->0.title@ && is->0.username@
                == was->0.username@ && is->0.url@ == was->0.url@ && is->0.notes@ == was->0.notes@
                && is->0.group_uuid == was->0.group_uuid && is->0.icon == was->0.icon
                && is->0.history_count == was->0.history_count,
        r is Ok ==> tells(*old(en), *final(en), 1),
        r is Ok && old(en).observed ==> (
        final(en).outbox@.last() matches ChangeEvent::EntriesUpdated(told) && told@ == seq![uuid]),
{
    if r is Ok {
        told_by_one(
            *old(en),
            *final(en),
            crate::events::ChangeView::EntriesUpdated(seq![uuid]),
        );
    }
}

/// An icon that is linked to an entry is the one it is shown with; nothing else
/// that is shown of it changes, the time of its last change included.
pub proof fn a_linked_icon_is_shown(
    en: &mut Engine,
    uuid: Uuid,
    icon: Uuid,
    r: Result<(), EngineError>,
    was: Option<EntryFull>,
)
    requires
        call_ensures(Engine::link_entry_custom_icon, (en, uuid, icon), r),
        call_ensures(Engine::entry, (&*old(en), uuid), was),
    ensures
        r is Ok <==> was is Some,
        r is Err ==> r->Err_0 is NotFound && final(en).outbox == old(en).outbox,
        forall|is: Option<EntryFull>|
            r is Ok && #[trigger] call_ensures(Engine::entry, (&*final(en), uuid), is) ==> is is Some
                && is->0.icon == IconRef::Custom(icon) && is->0.modified_at == was->0.modified_at
                && is->0.last_used_at == was->0.last_used_at && is->0.title@ == was->0.title@
                && is->0.username@ == was->0.username@ && is->0.url@ == was->0.url@
                && is->0.notes@ == was->0.notes@ && is->0.group_uuid == was->0.group_uuid
                && is->0.history_count == was->0.history_count,
        r is Ok ==> tells(*old(en), *final(en), 1),
        r is Ok && old(en).observed ==> (
        final(en).outbox@.last() matches ChangeEvent::EntriesUpdated(told) && told@ == seq![uuid]),
{
    if r is Ok {
        told_by_one(
            *old(en),
            *final(en),
            crate::events::ChangeView::EntriesUpdated(seq![uuid]),
        );
    }
}

// ------------------------------------------------------------------------- the file

/// The vault file that was kept is the one that is found, and keeping it changes
/// no entry and no group.
pub proof fn a_kept_file_is_found(en: &mut Engine, bytes: Vec<u8>)
    requires
        call_ensures(Engine::set_last_saved_kdbx_bytes, (en, bytes), ()),
    ensures
        forall|r: Option<Vec<u8>>| #[trigger]
            call_ensures(Engine::last_saved_kdbx_bytes, (&*final(en),), r) ==> r is Some && r->0@
                == bytes@,
        final(en).mirror == old(en).mirror,
        final(en).signature == old(en).signature,
{
}

/// The signature that was recorded is the one that is found.
pub proof fn a_recorded_signature_is_found(en: &mut Engine, sig: KdbxStateSignature)
    requires
        call_ensures(Engine::record_kdbx_state_signature, (en, sig), ()),
        sig.byte_count <= i64::MAX,
    ensures
        forall|r: Option<KdbxStateSignature>| #[trigger]
            call_ensures(Engine::kdbx_state_signature, (&*final(en),), r) ==> r is Some
                && r->0.mtime_ms == sig.mtime_ms && r->0.byte_count == sig.byte_count,
        final(en).mirror == old(en).mirror,
        final(en).tables == old(en).tables,
{
}

// ----------------------------------------------------------------------- properties

/// The caps of the history: each that was set is the one that is found, and
/// setting one leaves the other alone.
pub proof fn a_cap_is_found(en: &mut Engine, items: i32, size: i64)
    ensures
        forall|r: Result<i32, EngineError>|
            call_ensures(Engine::set_history_max_items, (en, items), ()) && #[trigger] call_ensures(
                Engine::history_max_items,
                (&*final(en),),
                r,
            ) ==> r == Ok::<i32, EngineError>(items),
        forall|r: Result<i64, EngineError>|
            call_ensures(Engine::set_history_max_size, (en, size), ()) && #[trigger] call_ensures(
                Engine::history_max_size,
                (&*final(en),),
                r,
            ) ==> r == Ok::<i64, EngineError>(size),
        forall|a: Result<i64, EngineError>, b: Result<i64, EngineError>|
            call_ensures(Engine::set_history_max_items, (en, items), ()) && #[trigger] call_ensures(
                Engine::history_max_size,
                (&*old(en),),
                a,
            ) && #[trigger] call_ensures(Engine::history_max_size, (&*final(en),), b) && a is Ok
                ==> b is Ok && b->Ok_0 == a->Ok_0,
        forall|a: Result<i32, EngineError>, b: Result<i32, EngineError>|
            call_ensures(Engine::set_history_max_size, (en, size), ()) && #[trigger] call_ensures(
                Engine::history_max_items,
                (&*old(en),),
                a,
            ) && #[trigger] call_ensures(Engine::history_max_items, (&*final(en),), b) && a is Ok
                ==> b is Ok && b->Ok_0 == a->Ok_0,
{
    properties::caps_read_back(old(en).tables.settings@, items, size);
}

/// Where no cap was ever set, ten records and six mebibytes are the caps.
pub proof fn caps_have_defaults(
    en: Engine,
    items: Result<i32, EngineError>,
    size: Result<i64, EngineError>,
)
    requires
        call_ensures(Engine::history_max_items, (&en,), items),
        call_ensures(Engine::history_max_size, (&en,), size),
        !en.tables.settings@.contains_key(SettingKey::HistoryMaxItems),
        !en.tables.settings@.contains_key(SettingKey::HistoryMaxSize),
    ensures
        items == Ok::<i32, EngineError>(10),
        size == Ok::<i64, EngineError>(6291456),
{
}

/// Whether groups differ in their mark alone: the one that is named is the recycle
/// bin, and no other is.
pub open spec fn marks_only(
    before: Map<Uuid, GroupRow>,
    after: Map<Uuid, GroupRow>,
    bin: Option<Uuid>,
) -> bool {
    forall|u: Uuid|
        {
            &&& #[trigger] after.contains_key(u) <==> before.contains_key(u)
            &&& after.contains_key(u) ==> after[u].is_recycle_bin == (bin == Some(u))
            &&& after.contains_key(u) ==> after[u].name@ == before[u].name@
            &&& after.contains_key(u) ==> after[u].parent_uuid == before[u].parent_uuid
        }
}

proof fn a_mark_is_all(
    before: Map<Uuid, GroupRow>,
    after: Map<Uuid, GroupRow>,
    bin: Option<Uuid>,
)
    requires
        mirror::group_views(after) == properties::with_bin(mirror::group_views(before), bin),
    ensures
        marks_only(before, after, bin),
{
    let x = mirror::group_views(before);
    let y = mirror::group_views(after);
    assert forall|u: Uuid|
        {
            &&& #[trigger] after.contains_key(u) <==> before.contains_key(u)
            &&& after.contains_key(u) ==> after[u].is_recycle_bin == (bin == Some(u))
            &&& after.contains_key(u) ==> after[u].name@ == before[u].name@
            &&& after.contains_key(u) ==> after[u].parent_uuid == before[u].parent_uuid
        } by {
        assert(x.contains_key(u) == before.contains_key(u));
        assert(y.contains_key(u) == after.contains_key(u));
        if after.contains_key(u) {
            assert(y[u] == after[u].deep_view());
            assert(x[u] == before[u].deep_view());
        }
    }
}

/// The recycle bin that was set is the one that is found, and so is whether
/// deleting moves to it; no other group is the bin any more. A group that is not
/// there is refused and nothing changes.
pub proof fn a_bin_is_found(
    en: &mut Engine,
    enabled: bool,
    group: Option<Uuid>,
    r: Result<(), EngineError>,
)
    requires
        call_ensures(Engine::set_recycle_bin, (en, enabled, group), r),
    ensures
        r is Ok <==> group is None || old(en).mirror.groups@.contains_key(group->0),
        r is Err ==> *final(en) == *old(en),
        forall|on: bool|
            r is Ok && #[trigger] call_ensures(Engine::recycle_bin_enabled, (&*final(en),), on) ==> on
                == enabled,
        forall|bin: Option<String>|
            r is Ok && #[trigger] call_ensures(Engine::recycle_bin_uuid, (&*final(en),), bin)
                ==> (group is None ==> bin is None) && (group is Some ==> bin is Some && bin->0@
                == codec::uuid_text(group->0)),
        r is Ok ==> marks_only(old(en).mirror.groups@, final(en).mirror.groups@, group),
        final(en).mirror.entries == old(en).mirror.entries,
{
    if r is Ok {
        let before = mirror::group_views(old(en).mirror.groups@);
        let after = mirror::group_views(final(en).mirror.groups@);
        assert forall|u: Uuid| properties::is_marked(after, u) <==> group == Some(u)
            && before.contains_key(u) by {
            properties::one_bin_at_most(before, group, u);
        }
        a_mark_is_all(old(en).mirror.groups@, final(en).mirror.groups@, group);
        if group is Some {
            assert(before.contains_key(group->0));
            assert(properties::is_marked(after, group->0));
        }
        properties::switch_reads_back(old(en).tables.settings@, after, enabled);
    }
}

// ---------------------------------------------------------------------- the watcher

/// A change of the file is taken for the echo of our own write exactly when its
/// time and its size are those of the last file written here; it is then used up,
/// and does not count. Any other change counts once, and fires the trigger if one
/// is installed. Neither changes the engine's health.
pub proof fn only_an_echo_is_swallowed(
    s: &mut EngineShared,
    mtime: Option<FileTime>,
    size: Option<u64>,
    r: bool,
)
    requires
        call_ensures(
            EngineShared::on_event,
            (s, FileWatcherEvent::ContentChanged { mtime, size }),
            r,
        ),
        old(s).pending_reconcile_calls < u64::MAX,
    ensures
        ({
            let last = old(s).last_self_write;
            let echo = last is Some && mtime == Some(last->0.mtime) && size == Some(last->0.size);
            &&& echo ==> !r && final(s).last_self_write is None
                && final(s).pending_reconcile_calls == old(s).pending_reconcile_calls
            &&& !echo ==> r == old(s).has_trigger && final(s).last_self_write == last
                && final(s).pending_reconcile_calls == old(s).pending_reconcile_calls + 1
            &&& final(s).state == old(s).state
            &&& final(s).has_trigger == old(s).has_trigger
        }),
{
}

/// A file that cannot be reached disconnects the engine, with the reason; one that
/// can be reached again makes it active. Neither counts as a change.
pub proof fn reachability_is_health(s: &mut EngineShared, reason: String, r: bool)
    ensures
        call_ensures(EngineShared::on_event, (s, FileWatcherEvent::Unavailable { reason }), r) ==> !r
            && (final(s).state matches VaultState::Disconnected { reason: why } && why
            == DisconnectReason::FileUnreadable(reason)) && final(s).pending_reconcile_calls
            == old(s).pending_reconcile_calls,
        call_ensures(EngineShared::on_event, (s, FileWatcherEvent::Available), r) ==> !r
            && final(s).state is Active && final(s).pending_reconcile_calls
            == old(s).pending_reconcile_calls,
{
}

/// A write of our own is recognised by time and size, once.
pub proof fn a_write_of_our_own_is_recognised_once(
    en: &mut Engine,
    sig: SelfWriteSignature,
    mtime: FileTime,
    size: u64,
    r: bool,
)
    ensures
        call_ensures(Engine::set_last_self_write, (en, sig), ()) ==> final(en).shared.last_self_write == Some(sig) && final(en).mirror == old(en).mirror,
        call_ensures(Engine::consume_self_write_signature, (en, mtime, size), r) ==> (r
            <==> old(en).shared.last_self_write == Some(SelfWriteSignature { mtime, size })),
        call_ensures(Engine::consume_self_write_signature, (en, mtime, size), r) && r ==> final(en).shared.last_self_write is None,
        call_ensures(Engine::consume_self_write_signature, (en, mtime, size), r) && !r
            ==> *final(en) == *old(en),
{
}

/// What a report about the watched file is told as: that it is gone, with its
/// path, where it was removed or moved away; that it is back, where it was created
/// or moved in and was not there; that its content changed, with what was
/// observed, else. Mere reads, and reports about other files, are not told.
pub proof fn reports_are_told(
    p: &mut Presence,
    change: FileChange,
    touches: bool,
    mtime: Option<FileTime>,
    size: Option<u64>,
    target: &str,
    r: Option<FileWatcherEvent>,
)
    requires
        call_ensures(Presence::translate, (p, change, touches, mtime, size, target), r),
    ensures
        ({
            let away = change == FileChange::Remove || change == FileChange::MoveAway || (change
                == FileChange::Move && size is None);
            let in_place = change == FileChange::Create || change == FileChange::MoveIn || (change
                == FileChange::Move && size is Some);
            &&& !touches || change == FileChange::Access ==> r is None
                && final(p).was_available == old(p).was_available
            &&& touches && away ==> r is Some && r->0 is Unavailable && !final(p).was_available
            &&& touches && change == FileChange::Remove ==> (
            r matches Some(FileWatcherEvent::Unavailable { reason }) && reason@
                == "file removed: "@ + target@)
            &&& touches && away && change != FileChange::Remove ==> (
            r matches Some(FileWatcherEvent::Unavailable { reason }) && reason@
                == "file moved away: "@ + target@)
            &&& touches && in_place && !old(p).was_available ==> r is Some && r->0 is Available
                && final(p).was_available
            &&& touches && in_place && old(p).was_available ==> r == Some(
                FileWatcherEvent::ContentChanged { mtime, size },
            ) && final(p).was_available
            &&& touches && !away && !in_place && change != FileChange::Access ==> r == Some(
                FileWatcherEvent::ContentChanged { mtime, size },
            ) && final(p).was_available == old(p).was_available
        }),
{
}

// ------------------------------------------------------------------------- observers

/// Events are kept while there is an observer and no longer; taking them gives
/// them in the order in which they were told, and leaves none.
pub proof fn events_are_kept_for_an_observer(en: &mut Engine, event: ChangeEvent, r: Vec<ChangeEvent>)
    ensures
        call_ensures(Engine::set_observer, (en,), ()) ==> final(en).observed && final(en).outbox
            == old(en).outbox && final(en).mirror == old(en).mirror,
        call_ensures(Engine::clear_observer, (en,), ()) ==> !final(en).observed && final(en).mirror
            == old(en).mirror,
        call_ensures(Engine::emit, (en, event), ()) ==> tells(*old(en), *final(en), 1) && final(en).mirror == old(en).mirror,
        call_ensures(Engine::emit, (en, event), ()) && old(en).observed
            ==> final(en).outbox@.last().deep_view() == event.deep_view(),
        call_ensures(Engine::take_events, (en,), r) ==> r@ == old(en).outbox@ && final(en).outbox@.len() == 0 && final(en).observed == old(en).observed && final(en).mirror
            == old(en).mirror,
{
    if call_ensures(Engine::emit, (en, event), ()) {
        told_by_one(*old(en), *final(en), event.deep_view());
    }
}

/// A trigger that was set is there, and nothing else changes.
pub proof fn a_trigger_is_installed(en: &mut Engine)
    requires
        call_ensures(Engine::set_reconcile_trigger, (en,), ()),
    ensures
        final(en).shared.has_trigger,
        *final(en) == (Engine {
            shared: EngineShared { has_trigger: final(en).shared.has_trigger, ..old(en).shared },
            ..*old(en)
        }),
{
}

/// A trigger that is taken out is gone, and nothing else changes.
pub proof fn a_trigger_is_taken_out(en: &mut Engine)
    requires
        call_ensures(Engine::clear_reconcile_trigger, (en,), ()),
    ensures
        !final(en).shared.has_trigger,
        *final(en) == (Engine {
            shared: EngineShared { has_trigger: final(en).shared.has_trigger, ..old(en).shared },
            ..*old(en)
        }),
{
}

} // verus!
