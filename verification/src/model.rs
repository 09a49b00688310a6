//! Plain values of the query surface.

use vstd::prelude::*;

use crate::codec::Uuid;

verus! {

/// A window over an ordered result.
#[derive(Debug, Clone, Copy, PartialEq, Eq, Structural)]
pub struct Pagination {
    /// Rows to skip.
    pub offset: u64,
    /// Most rows to return.
    pub limit: u64,
}

impl Pagination {
    /// The window that holds every row.
    pub fn all() -> (r: Pagination)
        ensures
            r == (Pagination { offset: 0, limit: u64::MAX }),
    {
        Pagination { offset: 0, limit: u64::MAX }
    }
}

/// Password strength, weakest first.
#[derive(Debug, Clone, Copy, PartialEq, Eq, Structural)]
pub enum StrengthBucket {
    /// Trivially guessable.
    VeryWeak,
    /// Guessable with limited effort.
    Weak,
    /// Resists casual guessing.
    Reasonable,
    /// Resists most online attacks.
    Strong,
    /// Resists offline attacks with current hardware.
    VeryStrong,
}

impl StrengthBucket {
    /// The number the bucket is stored as.
    pub open spec fn ordinal(self) -> u8 {
        match self {
            StrengthBucket::VeryWeak => 0,
            StrengthBucket::Weak => 1,
            StrengthBucket::Reasonable => 2,
            StrengthBucket::Strong => 3,
            StrengthBucket::VeryStrong => 4,
        }
    }

    /// The number the bucket is stored as.
    pub fn to_ordinal(self) -> (r: u8)
        ensures
            r == self.ordinal(),
    {
        match self {
            StrengthBucket::VeryWeak => 0,
            StrengthBucket::Weak => 1,
            StrengthBucket::Reasonable => 2,
            StrengthBucket::Strong => 3,
            StrengthBucket::VeryStrong => 4,
        }
    }

    /// The bucket stored as a number; `None` for a number that is none.
    pub open spec fn of_ordinal(n: u8) -> Option<StrengthBucket> {
        match n {
            0 => Some(StrengthBucket::VeryWeak),
            1 => Some(StrengthBucket::Weak),
            2 => Some(StrengthBucket::Reasonable),
            3 => Some(StrengthBucket::Strong),
            4 => Some(StrengthBucket::VeryStrong),
            _ => None,
        }
    }

    /// The bucket stored as a number; `None` for a number that is none.
    pub fn from_ordinal(n: u8) -> (r: Option<StrengthBucket>)
        ensures
            r == StrengthBucket::of_ordinal(n),
    {
        match n {
            0 => Some(StrengthBucket::VeryWeak),
            1 => Some(StrengthBucket::Weak),
            2 => Some(StrengthBucket::Reasonable),
            3 => Some(StrengthBucket::Strong),
            4 => Some(StrengthBucket::VeryStrong),
            _ => None,
        }
    }
}

/// The icon of an entry or a group.
#[derive(Debug, Clone, Copy, PartialEq, Eq, Structural)]
pub enum IconRef {
    /// One of the standard icons, by number.
    Builtin(u32),
    /// An icon of the vault's own pool.
    Custom(Uuid),
}

/// A custom field by name; its value is fetched on demand.
#[derive(Debug, PartialEq, Eq)]
pub struct CustomFieldRef {
    /// Name.
    pub name: String,
    /// Whether the value is kept sealed.
    pub is_protected: bool,
}

/// A file by name and size; its content is fetched on demand.
#[derive(Debug, PartialEq, Eq)]
pub struct AttachmentRef {
    /// Name.
    pub name: String,
    /// Size in bytes.
    pub size: u64,
}

/// What a [`CustomFieldRef`] holds.
#[verifier::ext_equal]
pub struct CustomFieldRefView {
    pub name: Seq<char>,
    pub is_protected: bool,
}

impl DeepView for CustomFieldRef {
    type V = CustomFieldRefView;

    open spec fn deep_view(&self) -> CustomFieldRefView {
        CustomFieldRefView { name: self.name@, is_protected: self.is_protected }
    }
}

/// What an [`AttachmentRef`] holds.
#[verifier::ext_equal]
pub struct AttachmentRefView {
    pub name: Seq<char>,
    pub size: u64,
}

impl DeepView for AttachmentRef {
    type V = AttachmentRefView;

    open spec fn deep_view(&self) -> AttachmentRefView {
        AttachmentRefView { name: self.name@, size: self.size }
    }
}

/// An entry as a list shows it. Sealed values are not part of it.
#[derive(Debug, PartialEq, Eq)]
pub struct EntrySummary {
    /// The entry.
    pub uuid: Uuid,
    /// The group it is in.
    pub group_uuid: Uuid,
    /// Title.
    pub title: String,
    /// User name.
    pub username: String,
    /// URL.
    pub url: String,
    /// Lowercase host of the URL.
    pub url_host: String,
    /// Notes.
    pub notes: String,
    /// Creation, in milliseconds.
    pub created_at: i64,
    /// Last change, in milliseconds.
    pub modified_at: i64,
    /// Last read, in milliseconds.
    pub accessed_at: i64,
    /// Last use, in milliseconds; absent until the first.
    pub last_used_at: Option<i64>,
    /// Strength of the password.
    pub password_strength_bucket: Option<StrengthBucket>,
    /// Entropy of the password, as the bit pattern of a double.
    pub password_entropy: u64,
    /// Number of files.
    pub attachment_count: u32,
    /// Icon.
    pub icon: IconRef,
}

/// An entry in full. Sealed values are not part of it.
#[derive(Debug, PartialEq, Eq)]
pub struct EntryFull {
    /// The entry.
    pub uuid: Uuid,
    /// The group it is in.
    pub group_uuid: Uuid,
    /// Title.
    pub title: String,
    /// User name.
    pub username: String,
    /// URL.
    pub url: String,
    /// Lowercase host of the URL.
    pub url_host: String,
    /// Notes.
    pub notes: String,
    /// Creation, in milliseconds.
    pub created_at: i64,
    /// Last change, in milliseconds.
    pub modified_at: i64,
    /// Last read, in milliseconds.
    pub accessed_at: i64,
    /// Last use, in milliseconds; absent until the first.
    pub last_used_at: Option<i64>,
    /// Expiry, in milliseconds.
    pub expires_at: Option<i64>,
    /// Whether the entry lies in the recycle bin.
    pub is_recycled: bool,
    /// Strength of the password.
    pub password_strength_bucket: Option<StrengthBucket>,
    /// Entropy of the password, as the bit pattern of a double.
    pub password_entropy: u64,
    /// Icon.
    pub icon: IconRef,
    /// Custom fields, sealed ones first.
    pub custom_fields: Vec<CustomFieldRef>,
    /// Tags.
    pub tags: Vec<String>,
    /// Files.
    pub attachments: Vec<AttachmentRef>,
    /// Number of history records.
    pub history_count: u32,
}

/// A history record of an entry. Sealed values are not part of it.
#[derive(Debug, PartialEq, Eq)]
pub struct HistoricEntry {
    /// Position in the history, the oldest first.
    pub history_index: u32,
    /// Title.
    pub title: String,
    /// User name.
    pub username: String,
    /// URL.
    pub url: String,
    /// Lowercase host of the URL.
    pub url_host: String,
    /// Notes.
    pub notes: String,
    /// Icon.
    pub icon: IconRef,
    /// Creation, in milliseconds.
    pub created_at: i64,
    /// Last change, in milliseconds.
    pub modified_at: i64,
    /// Last read, in milliseconds.
    pub accessed_at: i64,
    /// Last use, in milliseconds.
    pub last_used_at: Option<i64>,
    /// Expiry, in milliseconds.
    pub expires_at: Option<i64>,
    /// Strength of the password, where recorded.
    pub password_strength_bucket: Option<StrengthBucket>,
    /// Entropy of the password, as the bit pattern of a double, where recorded.
    pub password_entropy: Option<u64>,
    /// Custom fields, by name.
    pub custom_fields: Vec<CustomFieldRef>,
    /// Tags.
    pub tags: Vec<String>,
    /// Files.
    pub attachments: Vec<AttachmentRef>,
}

/// A group of the tree. The tree follows from the parents.
#[derive(Debug, PartialEq, Eq)]
pub struct GroupNode {
    /// The group.
    pub uuid: Uuid,
    /// Its parent; absent for a root.
    pub parent_uuid: Option<Uuid>,
    /// Name.
    pub name: String,
    /// Icon.
    pub icon: IconRef,
    /// Number of entries directly in the group.
    pub entry_count_direct: u32,
    /// Whether the group is the recycle bin.
    pub is_recycle_bin: bool,
}

/// A stored smart folder.
#[derive(Debug, PartialEq, Eq)]
pub struct SmartFolder {
    /// Row number.
    pub id: i64,
    /// Name.
    pub name: String,
    /// The predicate's document.
    pub predicate: String,
    /// Version of the document.
    pub version: u32,
    /// Whether this build can evaluate the predicate.
    pub evaluable: bool,
    /// Creation, in milliseconds.
    pub created_at: i64,
    /// Last change, in milliseconds.
    pub modified_at: i64,
}

} // verus!
