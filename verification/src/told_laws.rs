//! What is told of each change.

use vstd::prelude::*;

use crate::codec;
use crate::codec::Uuid;
use crate::engine::{DeletedSubtree, Engine};
use crate::engine_laws::{tells, told_by_one};
use crate::error::EngineError;
use crate::events::{ChangeEvent, ChangeView, EntryDeletionInfo, EntryMove, GroupMove};

verus! {

/// An edit of an entry is told as a change of that entry, once; one that failed is
/// not told, and its error is handed on.
pub proof fn an_edit_of_an_entry_is_told(
    en: &mut Engine,
    uuid: Uuid,
    result: Result<(), EngineError>,
    r: Result<(), EngineError>,
)
    requires
        ({
            ||| call_ensures(Engine::update_entry, (en, uuid, result), r)
            ||| call_ensures(Engine::save_entry, (en, uuid, result), r)
            ||| call_ensures(Engine::set_non_protected_custom_field, (en, uuid, result), r)
            ||| call_ensures(Engine::remove_custom_field, (en, uuid, result), r)
            ||| call_ensures(Engine::restore_entry_from_history, (en, uuid, result), r)
            ||| call_ensures(Engine::clear_entry_custom_icon, (en, uuid, result), r)
        }),
    ensures
        result is Ok ==> r is Ok && tells(*old(en), *final(en), 1),
        result is Ok && old(en).observed ==> (
        final(en).outbox@.last() matches ChangeEvent::EntriesUpdated(told) && told@ == seq![uuid]),
        result is Err ==> r is Err && r->Err_0 == result->Err_0,
        result is Err ==> final(en).outbox == old(en).outbox,
        *final(en) == (Engine { outbox: final(en).outbox, ..*old(en) }),
{
    if result is Ok {
        told_by_one(
            *old(en),
            *final(en),
            ChangeView::EntriesUpdated(seq![uuid]),
        );
    }
}

/// An entry that is moved to the recycle bin is told as recycled.
pub proof fn recycling_an_entry_is_told(
    en: &mut Engine,
    uuid: Uuid,
    result: Result<(), EngineError>,
    r: Result<(), EngineError>,
)
    requires
        ({
            ||| call_ensures(Engine::recycle_entry, (en, uuid, result), r)
        }),
    ensures
        result is Ok ==> r is Ok && tells(*old(en), *final(en), 1),
        result is Ok && old(en).observed ==> (
        final(en).outbox@.last() matches ChangeEvent::EntriesRecycled(told) && told@ == seq![uuid]),
        result is Err ==> r is Err && r->Err_0 == result->Err_0,
        result is Err ==> final(en).outbox == old(en).outbox,
        *final(en) == (Engine { outbox: final(en).outbox, ..*old(en) }),
{
    if result is Ok {
        told_by_one(
            *old(en),
            *final(en),
            ChangeView::EntriesRecycled(seq![uuid]),
        );
    }
}

/// An entry that is taken back out of the recycle bin is told as restored.
pub proof fn restoring_an_entry_is_told(
    en: &mut Engine,
    uuid: Uuid,
    result: Result<(), EngineError>,
    r: Result<(), EngineError>,
)
    requires
        ({
            ||| call_ensures(Engine::restore_entry, (en, uuid, result), r)
        }),
    ensures
        result is Ok ==> r is Ok && tells(*old(en), *final(en), 1),
        result is Ok && old(en).observed ==> (
        final(en).outbox@.last() matches ChangeEvent::EntriesRestored(told) && told@ == seq![uuid]),
        result is Err ==> r is Err && r->Err_0 == result->Err_0,
        result is Err ==> final(en).outbox == old(en).outbox,
        *final(en) == (Engine { outbox: final(en).outbox, ..*old(en) }),
{
    if result is Ok {
        told_by_one(
            *old(en),
            *final(en),
            ChangeView::EntriesRestored(seq![uuid]),
        );
    }
}

/// A change of an entry's files is told as one, for that entry.
pub proof fn a_change_of_files_is_told(
    en: &mut Engine,
    uuid: Uuid,
    result: Result<(), EngineError>,
    r: Result<(), EngineError>,
)
    requires
        ({
            ||| call_ensures(Engine::attach_file, (en, uuid, result), r)
            ||| call_ensures(Engine::set_attachment, (en, uuid, result), r)
            ||| call_ensures(Engine::remove_attachment, (en, uuid, result), r)
        }),
    ensures
        result is Ok ==> r is Ok && tells(*old(en), *final(en), 1),
        result is Ok && old(en).observed ==> (
        final(en).outbox@.last() matches ChangeEvent::AttachmentsChanged(told) && told@ == seq![uuid]),
        result is Err ==> r is Err && r->Err_0 == result->Err_0,
        result is Err ==> final(en).outbox == old(en).outbox,
        *final(en) == (Engine { outbox: final(en).outbox, ..*old(en) }),
{
    if result is Ok {
        told_by_one(
            *old(en),
            *final(en),
            ChangeView::AttachmentsChanged(seq![uuid]),
        );
    }
}

/// An edit of a group is told as a change of that group.
pub proof fn an_edit_of_a_group_is_told(
    en: &mut Engine,
    uuid: Uuid,
    result: Result<(), EngineError>,
    r: Result<(), EngineError>,
)
    requires
        ({
            ||| call_ensures(Engine::update_group, (en, uuid, result), r)
        }),
    ensures
        result is Ok ==> r is Ok && tells(*old(en), *final(en), 1),
        result is Ok && old(en).observed ==> (
        final(en).outbox@.last() matches ChangeEvent::GroupsUpdated(told) && told@ == seq![uuid]),
        result is Err ==> r is Err && r->Err_0 == result->Err_0,
        result is Err ==> final(en).outbox == old(en).outbox,
        *final(en) == (Engine { outbox: final(en).outbox, ..*old(en) }),
{
    if result is Ok {
        told_by_one(
            *old(en),
            *final(en),
            ChangeView::GroupsUpdated(seq![uuid]),
        );
    }
}

/// A group that is moved to the recycle bin is told as recycled.
pub proof fn recycling_a_group_is_told(
    en: &mut Engine,
    uuid: Uuid,
    result: Result<(), EngineError>,
    r: Result<(), EngineError>,
)
    requires
        ({
            ||| call_ensures(Engine::recycle_group, (en, uuid, result), r)
        }),
    ensures
        result is Ok ==> r is Ok && tells(*old(en), *final(en), 1),
        result is Ok && old(en).observed ==> (
        final(en).outbox@.last() matches ChangeEvent::GroupsRecycled(told) && told@ == seq![uuid]),
        result is Err ==> r is Err && r->Err_0 == result->Err_0,
        result is Err ==> final(en).outbox == old(en).outbox,
        *final(en) == (Engine { outbox: final(en).outbox, ..*old(en) }),
{
    if result is Ok {
        told_by_one(
            *old(en),
            *final(en),
            ChangeView::GroupsRecycled(seq![uuid]),
        );
    }
}

/// A group that is taken back out of the recycle bin is told as restored.
pub proof fn restoring_a_group_is_told(
    en: &mut Engine,
    uuid: Uuid,
    result: Result<(), EngineError>,
    r: Result<(), EngineError>,
)
    requires
        ({
            ||| call_ensures(Engine::restore_group, (en, uuid, result), r)
        }),
    ensures
        result is Ok ==> r is Ok && tells(*old(en), *final(en), 1),
        result is Ok && old(en).observed ==> (
        final(en).outbox@.last() matches ChangeEvent::GroupsRestored(told) && told@ == seq![uuid]),
        result is Err ==> r is Err && r->Err_0 == result->Err_0,
        result is Err ==> final(en).outbox == old(en).outbox,
        *final(en) == (Engine { outbox: final(en).outbox, ..*old(en) }),
{
    if result is Ok {
        told_by_one(
            *old(en),
            *final(en),
            ChangeView::GroupsRestored(seq![uuid]),
        );
    }
}

/// A smart folder that was changed is told as changed.
pub proof fn a_changed_smart_folder_is_told(
    en: &mut Engine,
    id: i64,
    result: Result<(), EngineError>,
    r: Result<(), EngineError>,
)
    requires
        ({
            ||| call_ensures(Engine::update_smart_folder, (en, id, result), r)
        }),
    ensures
        result is Ok ==> r is Ok && tells(*old(en), *final(en), 1),
        result is Ok && old(en).observed ==> (
        final(en).outbox@.last() matches ChangeEvent::SmartFolderUpdated(told) && told == id),
        result is Err ==> r is Err && r->Err_0 == result->Err_0,
        result is Err ==> final(en).outbox == old(en).outbox,
        *final(en) == (Engine { outbox: final(en).outbox, ..*old(en) }),
{
    if result is Ok {
        told_by_one(
            *old(en),
            *final(en),
            ChangeView::SmartFolderUpdated(id),
        );
    }
}

/// A smart folder that was deleted is told as deleted.
pub proof fn a_deleted_smart_folder_is_told(
    en: &mut Engine,
    id: i64,
    result: Result<(), EngineError>,
    r: Result<(), EngineError>,
)
    requires
        ({
            ||| call_ensures(Engine::delete_smart_folder, (en, id, result), r)
        }),
    ensures
        result is Ok ==> r is Ok && tells(*old(en), *final(en), 1),
        result is Ok && old(en).observed ==> (
        final(en).outbox@.last() matches ChangeEvent::SmartFolderDeleted(told) && told == id),
        result is Err ==> r is Err && r->Err_0 == result->Err_0,
        result is Err ==> final(en).outbox == old(en).outbox,
        *final(en) == (Engine { outbox: final(en).outbox, ..*old(en) }),
{
    if result is Ok {
        told_by_one(
            *old(en),
            *final(en),
            ChangeView::SmartFolderDeleted(id),
        );
    }
}

/// A vault that was written to its file is told as saved; where writing failed,
/// nothing is told.
pub proof fn a_save_is_told(
    en: &mut Engine,
    result: Result<(), EngineError>,
    r: Result<(), EngineError>,
)
    requires
        ({
            ||| call_ensures(Engine::save_to_kdbx, (en, result), r)
        }),
    ensures
        result is Ok ==> r is Ok && tells(*old(en), *final(en), 1),
        result is Ok && old(en).observed ==> (final(en).outbox@.last() is SaveCompleted),
        result is Err ==> r is Err && r->Err_0 == result->Err_0,
        result is Err ==> final(en).outbox == old(en).outbox,
        *final(en) == (Engine { outbox: final(en).outbox, ..*old(en) }),
{
    if result is Ok {
        told_by_one(
            *old(en),
            *final(en),
            ChangeView::SaveCompleted,
        );
    }
}

/// A changed sealed field is told with its entry and its name.
pub proof fn a_sealed_field_is_told(
    en: &mut Engine,
    uuid: Uuid,
    name: &str,
    result: Result<(), EngineError>,
    r: Result<(), EngineError>,
)
    requires
        ({
            ||| call_ensures(Engine::set_protected_field, (en, uuid, name, result), r)
        }),
    ensures
        result is Ok ==> r is Ok && tells(*old(en), *final(en), 1),
        result is Ok && old(en).observed ==> (
        final(en).outbox@.last() matches ChangeEvent::ProtectedFieldChanged { entry_uuid, field_name } && entry_uuid
            == uuid && field_name@ == name@),
        result is Err ==> r is Err && r->Err_0 == result->Err_0,
        result is Err ==> final(en).outbox == old(en).outbox,
        *final(en) == (Engine { outbox: final(en).outbox, ..*old(en) }),
{
    if result is Ok {
        told_by_one(
            *old(en),
            *final(en),
            ChangeView::ProtectedFieldChanged { entry_uuid: uuid, field_name: name@ },
        );
    }
}

/// An entry that was made is told as added, under the identity that is returned.
pub proof fn a_new_entry_is_told(
    en: &mut Engine,
    result: Result<Uuid, EngineError>,
    r: Result<Uuid, EngineError>,
)
    requires
        call_ensures(Engine::create_entry, (en, result), r),
    ensures
        r == result,
        result is Ok ==> tells(*old(en), *final(en), 1),
        result is Ok && old(en).observed ==> (
        final(en).outbox@.last() matches ChangeEvent::EntriesAdded(told) && told@ == seq![result->Ok_0]),
        result is Err ==> final(en).outbox == old(en).outbox,
        *final(en) == (Engine { outbox: final(en).outbox, ..*old(en) }),
{
    if result is Ok {
        told_by_one(*old(en), *final(en), ChangeView::EntriesAdded(seq![result->Ok_0]));
    }
}

/// A group that was made is told as added, under the identity that is returned.
pub proof fn a_new_group_is_told(
    en: &mut Engine,
    result: Result<Uuid, EngineError>,
    r: Result<Uuid, EngineError>,
)
    requires
        call_ensures(Engine::create_group, (en, result), r),
    ensures
        r == result,
        result is Ok ==> tells(*old(en), *final(en), 1),
        result is Ok && old(en).observed ==> (
        final(en).outbox@.last() matches ChangeEvent::GroupsAdded(told) && told@ == seq![result->Ok_0]),
        result is Err ==> final(en).outbox == old(en).outbox,
        *final(en) == (Engine { outbox: final(en).outbox, ..*old(en) }),
{
    if result is Ok {
        told_by_one(*old(en), *final(en), ChangeView::GroupsAdded(seq![result->Ok_0]));
    }
}

/// A smart folder that was made is told as made, under the number that is returned.
pub proof fn a_new_smart_folder_is_told(
    en: &mut Engine,
    result: Result<i64, EngineError>,
    r: Result<i64, EngineError>,
)
    requires
        call_ensures(Engine::create_smart_folder, (en, result), r),
    ensures
        r == result,
        result is Ok ==> tells(*old(en), *final(en), 1),
        result is Ok && old(en).observed ==> (
        final(en).outbox@.last() matches ChangeEvent::SmartFolderCreated(told) && told == result->Ok_0),
        result is Err ==> final(en).outbox == old(en).outbox,
        *final(en) == (Engine { outbox: final(en).outbox, ..*old(en) }),
{
    if result is Ok {
        told_by_one(*old(en), *final(en), ChangeView::SmartFolderCreated(result->Ok_0));
    }
}

/// An entry that was deleted for good is told as deleted, with the group it was in.
pub proof fn a_deleted_entry_is_told(
    en: &mut Engine,
    uuid: Uuid,
    result: Result<Uuid, EngineError>,
    r: Result<(), EngineError>,
)
    requires
        call_ensures(Engine::delete_entry, (en, uuid, result), r),
    ensures
        result is Ok ==> r is Ok && tells(*old(en), *final(en), 1),
        result is Ok && old(en).observed ==> (
        final(en).outbox@.last() matches ChangeEvent::EntriesDeleted(told) && told@.len() == 1
            && told@[0].uuid == uuid && told@[0].previous_group == result->Ok_0),
        result is Err ==> r is Err && r->Err_0 == result->Err_0,
        result is Err ==> final(en).outbox == old(en).outbox,
        *final(en) == (Engine { outbox: final(en).outbox, ..*old(en) }),
{
    if result is Ok {
        told_by_one(*old(en), *final(en), ChangeView::EntriesDeleted(seq![EntryDeletionInfo { uuid, previous_group: result->Ok_0 }]));
    }
}

/// An entry that changed group is told as moved, from where and to where.
pub proof fn a_moved_entry_is_told(
    en: &mut Engine,
    result: Result<EntryMove, EngineError>,
    r: Result<(), EngineError>,
)
    requires
        call_ensures(Engine::move_entry, (en, result), r),
    ensures
        result is Ok ==> r is Ok && tells(*old(en), *final(en), 1),
        result is Ok && old(en).observed ==> (
        final(en).outbox@.last() matches ChangeEvent::EntriesMoved(told) && told@.len() == 1
            && told@[0].uuid == result->Ok_0.uuid && told@[0].from_group == result->Ok_0.from_group
            && told@[0].to_group == result->Ok_0.to_group),
        result is Err ==> r is Err && r->Err_0 == result->Err_0,
        result is Err ==> final(en).outbox == old(en).outbox,
        *final(en) == (Engine { outbox: final(en).outbox, ..*old(en) }),
{
    if result is Ok {
        told_by_one(*old(en), *final(en), ChangeView::EntriesMoved(seq![result->Ok_0]));
    }
}

/// A group that changed parent is told as moved, from where and to where.
pub proof fn a_moved_group_is_told(
    en: &mut Engine,
    result: Result<GroupMove, EngineError>,
    r: Result<(), EngineError>,
)
    requires
        call_ensures(Engine::move_group, (en, result), r),
    ensures
        result is Ok ==> r is Ok && tells(*old(en), *final(en), 1),
        result is Ok && old(en).observed ==> (
        final(en).outbox@.last() matches ChangeEvent::GroupsMoved(told) && told@.len() == 1
            && told@[0].uuid == result->Ok_0.uuid && told@[0].from_parent == result->Ok_0.from_parent
            && told@[0].to_parent == result->Ok_0.to_parent),
        result is Err ==> r is Err && r->Err_0 == result->Err_0,
        result is Err ==> final(en).outbox == old(en).outbox,
        *final(en) == (Engine { outbox: final(en).outbox, ..*old(en) }),
{
    if result is Ok {
        told_by_one(*old(en), *final(en), ChangeView::GroupsMoved(seq![result->Ok_0]));
    }
}

/// Groups that were put in order are told in that order.
pub proof fn a_new_order_is_told(
    en: &mut Engine,
    result: Result<Vec<Uuid>, EngineError>,
    r: Result<(), EngineError>,
)
    requires
        call_ensures(Engine::reorder_group, (en, result), r),
    ensures
        result is Ok ==> r is Ok && tells(*old(en), *final(en), 1),
        result is Ok && old(en).observed ==> (
        final(en).outbox@.last() matches ChangeEvent::GroupsReordered(told) && told@ == result->Ok_0@),
        result is Err ==> r is Err && r->Err_0 == result->Err_0,
        result is Err ==> final(en).outbox == old(en).outbox,
        *final(en) == (Engine { outbox: final(en).outbox, ..*old(en) }),
{
    if result is Ok {
        told_by_one(*old(en), *final(en), ChangeView::GroupsReordered(result->Ok_0@));
    }
}

proof fn told_by_two(before: Engine, after: Engine, a: ChangeView, b: ChangeView)
    requires
        after.outbox.deep_view() == crate::engine::told(
            before.outbox.deep_view(),
            before.observed,
            seq![a, b],
        ),
    ensures
        tells(before, after, 2),
        before.observed ==> after.outbox@[after.outbox@.len() - 2].deep_view() == a,
        before.observed ==> after.outbox@[after.outbox@.len() - 1].deep_view() == b,
{
    let x = after.outbox.deep_view();
    let y = before.outbox.deep_view();
    assert(x.len() == after.outbox@.len());
    assert(y.len() == before.outbox@.len());
    if before.observed {
        assert forall|i: int| 0 <= i < before.outbox@.len() implies (
        #[trigger] after.outbox@[i]).deep_view() == before.outbox@[i].deep_view() by {
            assert(x[i] == after.outbox@[i].deep_view());
            assert(y[i] == before.outbox@[i].deep_view());
        }
        assert(x[x.len() - 2] == after.outbox@[x.len() - 2].deep_view());
        assert(x[x.len() - 1] == after.outbox@[x.len() - 1].deep_view());
    }
}

/// New tags of an entry are told as such, and then as a change of the entry.
pub proof fn new_tags_are_told(
    en: &mut Engine,
    uuid: Uuid,
    result: Result<(), EngineError>,
    r: Result<(), EngineError>,
)
    requires
        call_ensures(Engine::set_tags, (en, uuid, result), r),
    ensures
        result is Ok ==> r is Ok && tells(*old(en), *final(en), 2),
        result is Ok && old(en).observed ==> (
        final(en).outbox@[final(en).outbox@.len() - 2] matches ChangeEvent::TagsChanged(told) && told@
            == seq![uuid]),
        result is Ok && old(en).observed ==> (
        final(en).outbox@[final(en).outbox@.len() - 1] matches ChangeEvent::EntriesUpdated(told)
            && told@ == seq![uuid]),
        result is Err ==> r is Err && r->Err_0 == result->Err_0,
        result is Err ==> final(en).outbox == old(en).outbox,
        *final(en) == (Engine { outbox: final(en).outbox, ..*old(en) }),
{
    if result is Ok {
        told_by_two(
            *old(en),
            *final(en),
            ChangeView::TagsChanged(seq![uuid]),
            ChangeView::EntriesUpdated(seq![uuid]),
        );
    }
}

/// A group that was deleted for good is told as deleted with all the groups below
/// it, behind the entries that went with them, if there were any.
pub proof fn a_deleted_group_is_told(
    en: &mut Engine,
    gone: DeletedSubtree,
    r: Result<(), EngineError>,
)
    requires
        call_ensures(Engine::delete_group, (en, Ok::<DeletedSubtree, EngineError>(gone)), r),
    ensures
        r is Ok,
        gone.deleted_entries@.len() == 0 ==> tells(*old(en), *final(en), 1),
        gone.deleted_entries@.len() > 0 ==> tells(*old(en), *final(en), 2),
        old(en).observed ==> (
        final(en).outbox@[final(en).outbox@.len() - 1] matches ChangeEvent::GroupsDeleted(told)
            && told@ == gone.deleted_groups@),
        old(en).observed && gone.deleted_entries@.len() > 0 ==> (
        final(en).outbox@[final(en).outbox@.len() - 2] matches ChangeEvent::EntriesDeleted(told)
            && told@ == gone.deleted_entries@),
        *final(en) == (Engine { outbox: final(en).outbox, ..*old(en) }),
{
    let groups = ChangeView::GroupsDeleted(gone.deleted_groups@);
    let entries = ChangeView::EntriesDeleted(gone.deleted_entries@);
    if gone.deleted_entries@.len() > 0 {
        assert(seq![entries] + seq![groups] =~= seq![entries, groups]);
        told_by_two(*old(en), *final(en), entries, groups);
    } else {
        assert(Seq::<ChangeView>::empty() + seq![groups] =~= seq![groups]);
        told_by_one(*old(en), *final(en), groups);
    }
}

/// An entry that was imported is told as added, and a new icon that came with it as a
/// change of the icons.
pub proof fn an_imported_entry_is_told(
    en: &mut Engine,
    uuid: Uuid,
    icon_inserted: bool,
    r: Result<Uuid, EngineError>,
)
    requires
        call_ensures(
            Engine::import_entry,
            (en, Ok::<(Uuid, bool), EngineError>((uuid, icon_inserted))),
            r,
        ),
    ensures
        r == Ok::<Uuid, EngineError>(uuid),
        !icon_inserted ==> tells(*old(en), *final(en), 1),
        icon_inserted ==> tells(*old(en), *final(en), 2),
        old(en).observed && !icon_inserted ==> (
        final(en).outbox@[final(en).outbox@.len() - 1] matches ChangeEvent::EntriesAdded(told)
            && told@ == seq![uuid]),
        old(en).observed && icon_inserted ==> (
        final(en).outbox@[final(en).outbox@.len() - 2] matches ChangeEvent::EntriesAdded(told)
            && told@ == seq![uuid]),
        old(en).observed && icon_inserted ==> (
        final(en).outbox@[final(en).outbox@.len() - 1] matches ChangeEvent::MetaUpdated { keys }
            && keys@.len() == 1 && keys@[0]@ == "meta.custom_icons"@),
        *final(en) == (Engine { outbox: final(en).outbox, ..*old(en) }),
{
    let first = ChangeView::EntriesAdded(seq![uuid]);
    let second = ChangeView::MetaUpdated { keys: seq!["meta.custom_icons"@] };
    if icon_inserted {
        assert(seq![first] + seq![second] =~= seq![first, second]);
        told_by_two(*old(en), *final(en), first, second);
        if old(en).observed {
            let last = final(en).outbox@[final(en).outbox@.len() - 1];
            assert(last is MetaUpdated);
            let keys = last->MetaUpdated_keys;
            assert(keys.deep_view().len() == keys@.len());
            assert(keys.deep_view()[0] == keys@[0]@);
        }
    } else {
        assert(seq![first] + Seq::<ChangeView>::empty() =~= seq![first]);
        told_by_one(*old(en), *final(en), first);
    }
}

/// A recycle bin that was made is told as a new group; one that was there before is
/// not told.
pub proof fn a_new_bin_is_told(
    en: &mut Engine,
    existed: bool,
    result: Result<Option<String>, EngineError>,
    r: Result<Option<String>, EngineError>,
    uuid: Uuid,
)
    requires
        call_ensures(Engine::ensure_recycle_bin, (en, existed, result), r),
    ensures
        r == result,
        existed || result is Err || result->Ok_0 is None ==> final(en).outbox.deep_view() == old(
            en,
        ).outbox.deep_view(),
        !existed && result is Ok && result->Ok_0 is Some && codec::uuid_parsed(
            result->Ok_0->0@,
        ) == Ok::<Uuid, Seq<char>>(uuid) ==> tells(*old(en), *final(en), 1) && (
        old(en).observed ==> (
        final(en).outbox@.last() matches ChangeEvent::GroupsAdded(told)
            && told@ == seq![uuid])),
        *final(en) == (Engine { outbox: final(en).outbox, ..*old(en) }),
{
    if !existed && result is Ok && result->Ok_0 is Some && codec::uuid_parsed(result->Ok_0->0@)
        == Ok::<Uuid, Seq<char>>(uuid) {
        told_by_one(*old(en), *final(en), ChangeView::GroupsAdded(seq![uuid]));
    }
}

} // verus!
