//! The decoded vault: a tree of groups and entries, with protected values in
//! the clear for the duration of a call.

use vstd::prelude::*;

use crate::codec::Uuid;
use crate::meta::Meta;
use crate::model::StrengthBucket;
use crate::time::Timestamp;

verus! {

/// When an entry or group was made, changed, read, and when it expires.
#[derive(Debug, Clone, Copy, PartialEq, Eq, Structural)]
pub struct Timestamps {
    /// Creation.
    pub creation_time: Option<Timestamp>,
    /// Last change of content.
    pub last_modification_time: Option<Timestamp>,
    /// Last read.
    pub last_access_time: Option<Timestamp>,
    /// Expiry, in force only when `expires` is set.
    pub expiry_time: Option<Timestamp>,
    /// Whether `expiry_time` is in force.
    pub expires: bool,
}

/// A named value beside the standard fields.
#[derive(Debug)]
pub struct CustomField {
    /// Name.
    pub key: String,
    /// Value, in the clear.
    pub value: String,
    /// Whether the value is kept sealed at rest.
    pub protected: bool,
    /// Whether the name is one under which one-time-password secrets are kept.
    pub totp_key: bool,
}

/// What a [`CustomField`] holds.
#[verifier::ext_equal]
pub struct CustomFieldView {
    pub key: Seq<char>,
    pub value: Seq<char>,
    pub protected: bool,
    pub totp_key: bool,
}

impl DeepView for CustomField {
    type V = CustomFieldView;

    open spec fn deep_view(&self) -> CustomFieldView {
        CustomFieldView {
            key: self.key@,
            value: self.value@,
            protected: self.protected,
            totp_key: self.totp_key,
        }
    }
}

/// A client-specific key and value.
#[derive(Debug)]
pub struct CustomDataItem {
    /// Key.
    pub key: String,
    /// Value.
    pub value: String,
    /// Last change, where the writer recorded it.
    pub last_modified: Option<Timestamp>,
}

/// What a [`CustomDataItem`] holds.
#[verifier::ext_equal]
pub struct CustomDataView {
    pub key: Seq<char>,
    pub value: Seq<char>,
    pub last_modified: Option<Timestamp>,
}

impl DeepView for CustomDataItem {
    type V = CustomDataView;

    open spec fn deep_view(&self) -> CustomDataView {
        CustomDataView { key: self.key@, value: self.value@, last_modified: self.last_modified }
    }
}

/// A file of an entry: a name, and an index into the vault's binaries.
#[derive(Debug)]
pub struct Attachment {
    /// File name.
    pub name: String,
    /// Index into [`Vault::binaries`].
    pub ref_id: u32,
}

/// What an [`Attachment`] holds.
#[verifier::ext_equal]
pub struct AttachmentView {
    pub name: Seq<char>,
    pub ref_id: u32,
}

impl DeepView for Attachment {
    type V = AttachmentView;

    open spec fn deep_view(&self) -> AttachmentView {
        AttachmentView { name: self.name@, ref_id: self.ref_id }
    }
}

/// A password's measured strength. The entropy is a bit pattern of a
/// double-precision number, carried through and never computed with.
#[derive(Debug, Clone, Copy, PartialEq, Eq, Structural)]
pub struct Strength {
    /// Coarse bucket.
    pub bucket: StrengthBucket,
    /// Entropy in bits, as the bit pattern of a double.
    pub entropy: u64,
}

/// The content of an entry at one moment: the live state, or one of its
/// history records.
#[derive(Debug)]
pub struct EntryContent {
    /// Title.
    pub title: String,
    /// User name.
    pub username: String,
    /// Password, in the clear; empty where there is none.
    pub password: String,
    /// URL.
    pub url: String,
    /// Notes.
    pub notes: String,
    /// Tags, as written.
    pub tags: Vec<String>,
    /// Times.
    pub times: Timestamps,
    /// Standard icon number.
    pub icon_id: u32,
    /// Icon of the vault's own pool.
    pub custom_icon_uuid: Option<Uuid>,
    /// Custom fields, in order.
    pub custom_fields: Vec<CustomField>,
    /// Client-specific data, in order.
    pub custom_data: Vec<CustomDataItem>,
    /// Files, in order.
    pub attachments: Vec<Attachment>,
    /// Measured strength of `password`.
    pub strength: Strength,
    /// Whether `url` is itself a one-time-password URL.
    pub otpauth_url: bool,
}

/// What an [`EntryContent`] holds.
#[verifier::ext_equal]
pub struct ContentView {
    pub title: Seq<char>,
    pub username: Seq<char>,
    pub password: Seq<char>,
    pub url: Seq<char>,
    pub notes: Seq<char>,
    pub tags: Seq<Seq<char>>,
    pub times: Timestamps,
    pub icon_id: u32,
    pub custom_icon_uuid: Option<Uuid>,
    pub custom_fields: Seq<CustomFieldView>,
    pub custom_data: Seq<CustomDataView>,
    pub attachments: Seq<AttachmentView>,
    pub strength: Strength,
    pub otpauth_url: bool,
}

impl DeepView for EntryContent {
    type V = ContentView;

    open spec fn deep_view(&self) -> ContentView {
        ContentView {
            title: self.title@,
            username: self.username@,
            password: self.password@,
            url: self.url@,
            notes: self.notes@,
            tags: self.tags.deep_view(),
            times: self.times,
            icon_id: self.icon_id,
            custom_icon_uuid: self.custom_icon_uuid,
            custom_fields: self.custom_fields.deep_view(),
            custom_data: self.custom_data.deep_view(),
            attachments: self.attachments.deep_view(),
            strength: self.strength,
            otpauth_url: self.otpauth_url,
        }
    }
}

/// The content of an entry with nothing filled in.
pub open spec fn empty_content() -> ContentView {
    ContentView {
        title: Seq::empty(),
        username: Seq::empty(),
        password: Seq::empty(),
        url: Seq::empty(),
        notes: Seq::empty(),
        tags: Seq::empty(),
        times: no_times(),
        icon_id: 0,
        custom_icon_uuid: None,
        custom_fields: Seq::empty(),
        custom_data: Seq::empty(),
        attachments: Seq::empty(),
        strength: Strength { bucket: StrengthBucket::VeryWeak, entropy: 0 },
        otpauth_url: false,
    }
}

/// Times of which none is known.
pub open spec fn no_times() -> Timestamps {
    Timestamps {
        creation_time: None,
        last_modification_time: None,
        last_access_time: None,
        expiry_time: None,
        expires: false,
    }
}

/// An entry: its identity, its live content, and its history, oldest first.
#[derive(Debug)]
pub struct Entry {
    /// Identity.
    pub id: Uuid,
    /// Live content.
    pub content: EntryContent,
    /// Earlier contents, oldest first.
    pub history: Vec<EntryContent>,
}

/// What an [`Entry`] holds.
#[verifier::ext_equal]
pub struct EntryView {
    pub id: Uuid,
    pub content: ContentView,
    pub history: Seq<ContentView>,
}

impl DeepView for Entry {
    type V = EntryView;

    open spec fn deep_view(&self) -> EntryView {
        EntryView {
            id: self.id,
            content: self.content.deep_view(),
            history: self.history.deep_view(),
        }
    }
}

impl Entry {
    /// When the live content last changed.
    pub open spec fn mtime(self) -> Option<Timestamp> {
        self.content.times.last_modification_time
    }
}

/// A group: a node of the vault's tree.
#[derive(Debug)]
pub struct Group {
    /// Identity.
    pub id: Uuid,
    /// Name.
    pub name: String,
    /// Notes.
    pub notes: String,
    /// Standard icon number.
    pub icon_id: u32,
    /// Icon of the vault's own pool.
    pub custom_icon_uuid: Option<Uuid>,
    /// Times.
    pub times: Timestamps,
    /// Entries directly in the group, in order.
    pub entries: Vec<Entry>,
    /// Subgroups, in order.
    pub groups: Vec<Group>,
}

/// A tombstone: an object that was deleted, and when.
#[derive(Debug, Clone, Copy, PartialEq, Eq, Structural)]
pub struct DeletedObject {
    /// Identity of the deleted entry or group.
    pub uuid: Uuid,
    /// Time of deletion, where known.
    pub deleted_at: Option<Timestamp>,
}

/// A whole vault.
#[derive(Debug)]
pub struct Vault {
    /// Root of the group tree.
    pub root: Group,
    /// Vault-wide metadata.
    pub meta: Meta,
    /// Contents of attachments, by index.
    pub binaries: Vec<Vec<u8>>,
    /// Tombstones.
    pub deleted_objects: Vec<DeletedObject>,
}

// ---------------------------------------------------------------- entry walks

/// An entry where the walk found it.
#[derive(Debug)]
pub struct Placed<'a> {
    /// The group that holds the entry.
    pub group: Uuid,
    /// Whether that group is the recycle bin or lies under it.
    pub recycled: bool,
    /// The entry.
    pub entry: &'a Entry,
}

/// Whether a group is the recycle bin.
pub open spec fn is_bin(bin: Option<Uuid>, group: Uuid) -> bool {
    bin == Some(group)
}

/// The entries directly in a group, as a walk places them.
pub open spec fn own_entries<'a>(g: &'a Group, bin: Option<Uuid>, under_bin: bool) -> Seq<
    Placed<'a>,
> {
    Seq::new(
        g.entries@.len(),
        |i: int|
            Placed { group: g.id, recycled: under_bin || is_bin(bin, g.id), entry: &g.entries@[i] },
    )
}

/// Every entry of a group's subtree, depth first: a group's own entries, then
/// those of its subgroups in order.
pub open spec fn placed_entries<'a>(g: &'a Group, bin: Option<Uuid>, under_bin: bool) -> Seq<
    Placed<'a>,
>
    decreases g, 0nat,
{
    own_entries(g, bin, under_bin) + placed_in_subgroups(
        g.groups@,
        g.groups@.len(),
        bin,
        under_bin || is_bin(bin, g.id),
    )
}

/// The entries of the first `n` groups of a list and of their subtrees.
pub open spec fn placed_in_subgroups<'a>(
    gs: Seq<Group>,
    n: nat,
    bin: Option<Uuid>,
    under_bin: bool,
) -> Seq<Placed<'a>>
    decreases gs, n,
{
    if n == 0 || n > gs.len() {
        Seq::empty()
    } else {
        placed_in_subgroups(gs, (n - 1) as nat, bin, under_bin) + placed_entries(
            &gs[n - 1],
            bin,
            under_bin,
        )
    }
}

fn walk_placed<'a>(
    group: &'a Group,
    bin: Option<Uuid>,
    under_bin: bool,
    out: &mut Vec<Placed<'a>>,
)
    ensures
        final(out)@ == old(out)@ + placed_entries(group, bin, under_bin),
    decreases group,
{
    let here: bool = under_bin || bin == Some(group.id);
    let mut i: usize = 0;
    while i < group.entries.len()
        invariant
            i <= group.entries.len(),
            here == (under_bin || is_bin(bin, group.id)),
            out@ == old(out)@ + own_entries(group, bin, under_bin).take(i as int),
        decreases group.entries.len() - i,
    {
        out.push(Placed { group: group.id, recycled: here, entry: &group.entries[i] });
        proof {
            let own = own_entries(group, bin, under_bin);
            assert(own.take(i + 1) =~= own.take(i as int).push(own[i as int]));
            assert(out@ =~= old(out)@ + own.take(i + 1));
        }
        i = i + 1;
    }
    proof {
        let own = own_entries(group, bin, under_bin);
        assert(own.take(own.len() as int) =~= own);
    }
    let ghost own = own_entries(group, bin, under_bin);
    let mut j: usize = 0;
    assert(out@ =~= old(out)@ + own + placed_in_subgroups(group.groups@, 0, bin, here));
    while j < group.groups.len()
        invariant
            j <= group.groups.len(),
            out@ == old(out)@ + own + placed_in_subgroups(group.groups@, j as nat, bin, here),
        decreases group.groups.len() - j,
    {
        walk_placed(&group.groups[j], bin, here, out);
        proof {
            assert(out@ =~= old(out)@ + own + placed_in_subgroups(
                group.groups@,
                (j + 1) as nat,
                bin,
                here,
            ));
        }
        j = j + 1;
    }
    proof {
        assert(out@ =~= old(out)@ + placed_entries(group, bin, under_bin));
    }
}

/// Every entry of the tree with the group that holds it, depth first, and
/// whether it lies in the recycle bin.
pub fn collect_placed<'a>(root: &'a Group, bin: Option<Uuid>) -> (r: Vec<Placed<'a>>)
    ensures
        r@ == placed_entries(root, bin, false),
{
    let mut out: Vec<Placed<'a>> = Vec::new();
    walk_placed(root, bin, false, &mut out);
    assert(out@ =~= placed_entries(root, bin, false));
    out
}

} // verus!
