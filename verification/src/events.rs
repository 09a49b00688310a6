//! Change events.
//!
//! Events are plural: a change of one row carries a list of one.

use vstd::prelude::*;

use crate::codec::Uuid;
use crate::text;

verus! {

/// What changed.
#[derive(Debug)]
#[non_exhaustive]
pub enum ChangeEvent {
    /// Entries were inserted.
    EntriesAdded(Vec<Uuid>),
    /// Entries were changed in place.
    EntriesUpdated(Vec<Uuid>),
    /// Entries were moved to the recycle bin.
    EntriesRecycled(Vec<Uuid>),
    /// Entries were taken back out of the recycle bin.
    EntriesRestored(Vec<Uuid>),
    /// Groups were inserted.
    GroupsAdded(Vec<Uuid>),
    /// Groups were changed in place.
    GroupsUpdated(Vec<Uuid>),
    /// Siblings were put in the given order.
    GroupsReordered(Vec<Uuid>),
    /// Groups were moved to the recycle bin.
    GroupsRecycled(Vec<Uuid>),
    /// Groups were taken back out of the recycle bin.
    GroupsRestored(Vec<Uuid>),
    /// Entries' files changed.
    AttachmentsChanged(Vec<Uuid>),
    /// Entries' tags changed.
    TagsChanged(Vec<Uuid>),
    /// Entries were deleted for good.
    EntriesDeleted(Vec<EntryDeletionInfo>),
    /// Entries changed group.
    EntriesMoved(Vec<EntryMove>),
    /// Groups were deleted for good.
    GroupsDeleted(Vec<GroupDeletionInfo>),
    /// Groups changed parent.
    GroupsMoved(Vec<GroupMove>),
    /// An entry was used; nothing else about it changed.
    EntryTouched {
        /// The entry.
        uuid: Uuid,
    },
    /// One sealed field of one entry changed.
    ProtectedFieldChanged {
        /// The entry.
        entry_uuid: Uuid,
        /// The field.
        field_name: String,
    },
    /// A smart folder was created.
    SmartFolderCreated(i64),
    /// A smart folder was changed.
    SmartFolderUpdated(i64),
    /// A smart folder was deleted.
    SmartFolderDeleted(i64),
    /// The vault was written to its file.
    SaveCompleted,
    /// Changes made elsewhere were merged in.
    ExternalChangeMerged {
        /// What was applied.
        applied: MergeStats,
    },
    /// A merge needs the user's decision.
    ConflictDetected(ConflictPayload),
    /// Properties of the vault changed.
    MetaUpdated {
        /// Their keys.
        keys: Vec<String>,
    },
    /// The vault was locked.
    VaultLocked,
    /// The vault was unlocked.
    VaultUnlocked,
}

/// What a [`ChangeEvent`] says.
#[verifier::ext_equal]
pub enum ChangeView {
    EntriesAdded(Seq<Uuid>),
    EntriesUpdated(Seq<Uuid>),
    EntriesRecycled(Seq<Uuid>),
    EntriesRestored(Seq<Uuid>),
    GroupsAdded(Seq<Uuid>),
    GroupsUpdated(Seq<Uuid>),
    GroupsReordered(Seq<Uuid>),
    GroupsRecycled(Seq<Uuid>),
    GroupsRestored(Seq<Uuid>),
    AttachmentsChanged(Seq<Uuid>),
    TagsChanged(Seq<Uuid>),
    EntriesDeleted(Seq<EntryDeletionInfo>),
    EntriesMoved(Seq<EntryMove>),
    GroupsDeleted(Seq<GroupDeletionInfo>),
    GroupsMoved(Seq<GroupMove>),
    EntryTouched { uuid: Uuid },
    ProtectedFieldChanged { entry_uuid: Uuid, field_name: Seq<char> },
    SmartFolderCreated(i64),
    SmartFolderUpdated(i64),
    SmartFolderDeleted(i64),
    SaveCompleted,
    ExternalChangeMerged { applied: MergeStats },
    ConflictDetected(PayloadView),
    MetaUpdated { keys: Seq<Seq<char>> },
    VaultLocked,
    VaultUnlocked,
}

impl DeepView for ChangeEvent {
    type V = ChangeView;

    open spec fn deep_view(&self) -> ChangeView {
        match *self {
            ChangeEvent::EntriesAdded(v) => ChangeView::EntriesAdded(v@),
            ChangeEvent::EntriesUpdated(v) => ChangeView::EntriesUpdated(v@),
            ChangeEvent::EntriesRecycled(v) => ChangeView::EntriesRecycled(v@),
            ChangeEvent::EntriesRestored(v) => ChangeView::EntriesRestored(v@),
            ChangeEvent::GroupsAdded(v) => ChangeView::GroupsAdded(v@),
            ChangeEvent::GroupsUpdated(v) => ChangeView::GroupsUpdated(v@),
            ChangeEvent::GroupsReordered(v) => ChangeView::GroupsReordered(v@),
            ChangeEvent::GroupsRecycled(v) => ChangeView::GroupsRecycled(v@),
            ChangeEvent::GroupsRestored(v) => ChangeView::GroupsRestored(v@),
            ChangeEvent::AttachmentsChanged(v) => ChangeView::AttachmentsChanged(v@),
            ChangeEvent::TagsChanged(v) => ChangeView::TagsChanged(v@),
            ChangeEvent::EntriesDeleted(v) => ChangeView::EntriesDeleted(v@),
            ChangeEvent::EntriesMoved(v) => ChangeView::EntriesMoved(v@),
            ChangeEvent::GroupsDeleted(v) => ChangeView::GroupsDeleted(v@),
            ChangeEvent::GroupsMoved(v) => ChangeView::GroupsMoved(v@),
            ChangeEvent::EntryTouched { uuid } => ChangeView::EntryTouched { uuid },
            ChangeEvent::ProtectedFieldChanged { entry_uuid, field_name } => {
                ChangeView::ProtectedFieldChanged { entry_uuid, field_name: field_name@ }
            },
            ChangeEvent::SmartFolderCreated(id) => ChangeView::SmartFolderCreated(id),
            ChangeEvent::SmartFolderUpdated(id) => ChangeView::SmartFolderUpdated(id),
            ChangeEvent::SmartFolderDeleted(id) => ChangeView::SmartFolderDeleted(id),
            ChangeEvent::SaveCompleted => ChangeView::SaveCompleted,
            ChangeEvent::ExternalChangeMerged { applied } => ChangeView::ExternalChangeMerged {
                applied,
            },
            ChangeEvent::ConflictDetected(p) => ChangeView::ConflictDetected(p.deep_view()),
            ChangeEvent::MetaUpdated { keys } => ChangeView::MetaUpdated { keys: keys.deep_view() },
            ChangeEvent::VaultLocked => ChangeView::VaultLocked,
            ChangeEvent::VaultUnlocked => ChangeView::VaultUnlocked,
        }
    }
}

/// A deleted entry.
#[derive(Debug, Clone, Copy, PartialEq, Eq, Structural)]
pub struct EntryDeletionInfo {
    /// The entry.
    pub uuid: Uuid,
    /// The group it was in.
    pub previous_group: Uuid,
}

/// An entry that changed group.
#[derive(Debug, Clone, Copy, PartialEq, Eq, Structural)]
pub struct EntryMove {
    /// The entry.
    pub uuid: Uuid,
    /// The group it was in.
    pub from_group: Uuid,
    /// The group it is in.
    pub to_group: Uuid,
}

/// A deleted group.
#[derive(Debug, Clone, Copy, PartialEq, Eq, Structural)]
pub struct GroupDeletionInfo {
    /// The group.
    pub uuid: Uuid,
    /// Its parent; absent for a root.
    pub previous_parent: Option<Uuid>,
}

/// A group that changed parent.
#[derive(Debug, Clone, Copy, PartialEq, Eq, Structural)]
pub struct GroupMove {
    /// The group.
    pub uuid: Uuid,
    /// The parent it had.
    pub from_parent: Uuid,
    /// The parent it has.
    pub to_parent: Uuid,
}

/// Counts of what a merge applied.
#[derive(Debug, Clone, Copy, PartialEq, Eq, Structural)]
pub struct MergeStats {
    /// Entries added.
    pub entries_added: usize,
    /// Entries changed.
    pub entries_updated: usize,
    /// Entries deleted.
    pub entries_deleted: usize,
    /// Entries moved.
    pub entries_moved: usize,
    /// Groups added.
    pub groups_added: usize,
    /// Groups changed.
    pub groups_updated: usize,
    /// Groups deleted.
    pub groups_deleted: usize,
    /// Groups moved.
    pub groups_moved: usize,
    /// History records pruned.
    pub history_pruned: usize,
}

/// One entry on which two sides disagree, and on what.
#[derive(Debug)]
pub struct EntryConflict {
    /// The entry.
    pub entry_id: Uuid,
    /// Fields that differ.
    pub field_names: Vec<String>,
    /// Files that differ.
    pub attachment_names: Vec<String>,
    /// Whether the icons differ.
    pub icon_differs: bool,
}

/// What an [`EntryConflict`] holds.
#[verifier::ext_equal]
pub struct EntryConflictView {
    pub entry_id: Uuid,
    pub field_names: Seq<Seq<char>>,
    pub attachment_names: Seq<Seq<char>>,
    pub icon_differs: bool,
}

impl DeepView for EntryConflict {
    type V = EntryConflictView;

    open spec fn deep_view(&self) -> EntryConflictView {
        EntryConflictView {
            entry_id: self.entry_id,
            field_names: self.field_names.deep_view(),
            attachment_names: self.attachment_names.deep_view(),
            icon_differs: self.icon_differs,
        }
    }
}

/// A merge run that needs the user's decision.
#[derive(Debug)]
#[non_exhaustive]
pub struct ConflictPayload {
    /// Number by which the run is known.
    pub id: i64,
    /// Entries that both sides changed.
    pub entry_conflicts: Vec<EntryConflict>,
    /// Entries that one side deleted and the other changed.
    pub delete_edit_conflicts: Vec<Uuid>,
}

/// What a [`ConflictPayload`] holds.
#[verifier::ext_equal]
pub struct PayloadView {
    pub id: i64,
    pub entry_conflicts: Seq<EntryConflictView>,
    pub delete_edit_conflicts: Seq<Uuid>,
}

impl DeepView for ConflictPayload {
    type V = PayloadView;

    open spec fn deep_view(&self) -> PayloadView {
        PayloadView {
            id: self.id,
            entry_conflicts: self.entry_conflicts.deep_view(),
            delete_edit_conflicts: self.delete_edit_conflicts@,
        }
    }
}

impl ConflictPayload {
    /// A payload.
    pub fn new(
        id: i64,
        entry_conflicts: Vec<EntryConflict>,
        delete_edit_conflicts: Vec<Uuid>,
    ) -> (r: ConflictPayload)
        ensures
            r == (ConflictPayload { id, entry_conflicts, delete_edit_conflicts }),
    {
        ConflictPayload { id, entry_conflicts, delete_edit_conflicts }
    }

    /// A copy.
    pub fn copy(&self) -> (r: ConflictPayload)
        ensures
            r.deep_view() == self.deep_view(),
    {
        let ghost cv = self.entry_conflicts.deep_view();
        let mut entry_conflicts: Vec<EntryConflict> = Vec::new();
        let mut i: usize = 0;
        while i < self.entry_conflicts.len()
            invariant
                i <= self.entry_conflicts.len(),
                cv == self.entry_conflicts.deep_view(),
                entry_conflicts.deep_view() == cv.take(i as int),
            decreases self.entry_conflicts.len() - i,
        {
            let c = &self.entry_conflicts[i];
            let ghost before = entry_conflicts.deep_view();
            entry_conflicts.push(
                EntryConflict {
                    entry_id: c.entry_id,
                    field_names: text::copy_texts(&c.field_names),
                    attachment_names: text::copy_texts(&c.attachment_names),
                    icon_differs: c.icon_differs,
                },
            );
            proof {
                assert(entry_conflicts.deep_view() =~= before.push(c.deep_view()));
                assert(entry_conflicts.deep_view() =~= cv.take(i + 1));
            }
            i = i + 1;
        }
        let mut delete_edit_conflicts: Vec<Uuid> = Vec::new();
        let mut j: usize = 0;
        while j < self.delete_edit_conflicts.len()
            invariant
                j <= self.delete_edit_conflicts.len(),
                delete_edit_conflicts@ == self.delete_edit_conflicts@.take(j as int),
            decreases self.delete_edit_conflicts.len() - j,
        {
            delete_edit_conflicts.push(self.delete_edit_conflicts[j]);
            proof {
                assert(delete_edit_conflicts@ =~= self.delete_edit_conflicts@.take(j + 1));
            }
            j = j + 1;
        }
        proof {
            assert(cv.take(cv.len() as int) =~= cv);
            assert(delete_edit_conflicts@ =~= self.delete_edit_conflicts@);
        }
        ConflictPayload { id: self.id, entry_conflicts, delete_edit_conflicts }
    }
}

/// The groups that hold an entry on the two sides of a conflict.
#[derive(Debug, Clone, Copy, PartialEq, Eq, Structural)]
pub struct EntryParentGroups {
    /// On our side; absent where the entry is in no group.
    pub local: Option<Uuid>,
    /// On the other side; absent where the entry is in no group.
    pub remote: Option<Uuid>,
}

/// Receives change events, on the thread that made the change.
pub trait DataChangeObserver: Send + Sync {
    /// Called after the change was committed.
    fn on_event(&self, event: ChangeEvent);
}

} // verus!
