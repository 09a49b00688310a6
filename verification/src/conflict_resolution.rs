//! Settling conflicts.
//!
//! A merge that needs the user's decision is stashed with both sides. The user
//! decides; the decision is recorded, so that other devices adopt it, and the
//! merged vault replaces ours.

use std::collections::BTreeMap;

use vstd::prelude::*;

use crate::codec::Uuid;
use crate::error::EngineError;
use crate::events::{ConflictPayload, EntryParentGroups, MergeStats};
use crate::order;
use crate::rows::PASSWORD_FIELD;
use crate::text;
use crate::time::Timestamp;
use crate::vault;
use crate::vault::{CustomField, Entry, Group, Placed, Vault};

verus! {

broadcast use {vstd::std_specs::btree::group_btree_axioms, vstd::laws_cmp::group_laws_cmp};

// ------------------------------------------------------------------- finding entries

/// The first of the first `n` placed entries with an identity.
pub open spec fn first_placed(placed: Seq<Placed>, n: nat, target: Uuid) -> Option<int>
    decreases n,
{
    if n == 0 || n > placed.len() {
        None
    } else {
        match first_placed(placed, (n - 1) as nat, target) {
            Some(i) => Some(i),
            None => if placed[n - 1].entry.id == target {
                Some(n - 1)
            } else {
                None
            },
        }
    }
}

/// Where a walk of a tree first meets an entry.
pub open spec fn met_at(root: &Group, target: Uuid) -> Option<int> {
    let placed = vault::placed_entries(root, None, false);
    first_placed(placed, placed.len(), target)
}

proof fn first_placed_stays(placed: Seq<Placed>, a: nat, b: nat, target: Uuid)
    requires
        a <= b <= placed.len(),
        first_placed(placed, a, target) is Some,
    ensures
        first_placed(placed, b, target) == first_placed(placed, a, target),
    decreases b,
{
    if a < b {
        first_placed_stays(placed, a, (b - 1) as nat, target);
    }
}

fn meet<'a>(placed: &Vec<Placed<'a>>, target: Uuid) -> (r: Option<usize>)
    ensures
        match r {
            Some(i) => i < placed@.len() && first_placed(placed@, placed@.len(), target) == Some(
                i as int,
            ),
            None => first_placed(placed@, placed@.len(), target) is None,
        },
{
    let mut i: usize = 0;
    while i < placed.len()
        invariant
            i <= placed.len(),
            first_placed(placed@, i as nat, target) is None,
        decreases placed.len() - i,
    {
        if placed[i].entry.id == target {
            proof {
                first_placed_stays(placed@, (i + 1) as nat, placed@.len(), target);
            }
            return Some(i);
        }
        i = i + 1;
    }
    None
}

/// The entry with an identity, the first that a depth-first walk meets.
pub fn find_entry_in_group<'a>(group: &'a Group, target: Uuid) -> (r: Option<&'a Entry>)
    ensures
        r == (match met_at(group, target) {
            Some(i) => Some(vault::placed_entries(group, None, false)[i].entry),
            None => None,
        }),
{
    let placed = vault::collect_placed(group, None);
    match meet(&placed, target) {
        Some(i) => Some(placed[i].entry),
        None => None,
    }
}

/// The group that holds an entry, the first that a depth-first walk meets.
pub fn find_entry_parent_group(group: &Group, target: Uuid) -> (r: Option<Uuid>)
    ensures
        r == parent_of(group, target),
{
    let placed = vault::collect_placed(group, None);
    match meet(&placed, target) {
        Some(i) => Some(placed[i].group),
        None => None,
    }
}

/// The group that holds an entry; absent where none does.
pub open spec fn parent_of(root: &Group, target: Uuid) -> Option<Uuid> {
    match met_at(root, target) {
        Some(i) => Some(vault::placed_entries(root, None, false)[i].group),
        None => None,
    }
}

// ----------------------------------------------------------------------- revealing

/// The first of the first `n` custom fields with a name.
pub open spec fn first_field(fields: Seq<CustomField>, n: nat, name: Seq<char>) -> Option<int>
    decreases n,
{
    if n == 0 || n > fields.len() {
        None
    } else {
        match first_field(fields, (n - 1) as nat, name) {
            Some(i) => Some(i),
            None => if fields[n - 1].key@ == name {
                Some(n - 1)
            } else {
                None
            },
        }
    }
}

proof fn first_field_stays(fields: Seq<CustomField>, a: nat, b: nat, name: Seq<char>)
    requires
        a <= b <= fields.len(),
        first_field(fields, a, name) is Some,
    ensures
        first_field(fields, b, name) == first_field(fields, a, name),
    decreases b,
{
    if a < b {
        first_field_stays(fields, a, (b - 1) as nat, name);
    }
}

fn find_field(fields: &Vec<CustomField>, name: &str) -> (r: Option<usize>)
    ensures
        match r {
            Some(i) => i < fields@.len() && first_field(fields@, fields@.len(), name@) == Some(
                i as int,
            ),
            None => first_field(fields@, fields@.len(), name@) is None,
        },
{
    let mut i: usize = 0;
    while i < fields.len()
        invariant
            i <= fields.len(),
            first_field(fields@, i as nat, name@) is None,
        decreases fields.len() - i,
    {
        if text::same_text(fields[i].key.as_str(), name) {
            proof {
                first_field_stays(fields@, (i + 1) as nat, fields@.len(), name@);
            }
            return Some(i);
        }
        i = i + 1;
    }
    None
}

/// What revealing a field of an entry gives: its text, or the kind of thing
/// that is missing.
pub open spec fn field_in(v: &Vault, entry: Uuid, name: Seq<char>) -> Result<Seq<char>, Seq<char>> {
    match met_at(&v.root, entry) {
        None => Err("entry"@),
        Some(i) => {
            let c = vault::placed_entries(&v.root, None, false)[i].entry.content;
            if name == PASSWORD_FIELD@ {
                Ok(c.password@)
            } else {
                match first_field(c.custom_fields@, c.custom_fields@.len(), name) {
                    Some(k) => Ok(c.custom_fields@[k].value@),
                    None => Err("custom_field"@),
                }
            }
        },
    }
}

/// Whether an outcome gives what was asked for, or names what is missing.
pub open spec fn gives(r: Result<String, EngineError>, want: Result<Seq<char>, Seq<char>>) -> bool {
    match r {
        Ok(t) => want == Ok::<Seq<char>, Seq<char>>(t@),
        Err(e) => {
            &&& want is Err
            &&& e matches EngineError::NotFound { entity } && entity@ == want->Err_0
        },
    }
}

/// The text of a field of an entry: the password under its name, a custom
/// field under any other.
pub fn reveal_conflict_field_from_vault(v: &Vault, entry_uuid: Uuid, field_name: &str) -> (r:
    Result<String, EngineError>)
    ensures
        gives(r, field_in(v, entry_uuid, field_name@)),
{
    match find_entry_in_group(&v.root, entry_uuid) {
        None => Err(EngineError::NotFound { entity: "entry" }),
        Some(entry) => {
            if text::same_text(field_name, PASSWORD_FIELD) {
                Ok(entry.content.password.clone())
            } else {
                match find_field(&entry.content.custom_fields, field_name) {
                    Some(k) => Ok(entry.content.custom_fields[k].value.clone()),
                    None => Err(EngineError::NotFound { entity: "custom_field" }),
                }
            }
        },
    }
}

// ---------------------------------------------------------------------- decisions

/// One side of a conflict.
#[derive(Debug, Clone, Copy, PartialEq, Eq, Structural)]
pub enum ConflictSide {
    /// Ours.
    Local,
    /// The other.
    Remote,
}

/// What to do with a file that differs.
#[derive(Debug, Clone, Copy, PartialEq, Eq, Structural)]
pub enum AttachmentChoice {
    /// Keep ours.
    KeepLocal,
    /// Take the other.
    KeepRemote,
    /// Keep both.
    KeepBoth,
}

/// What to do with an entry that one side deleted and the other changed.
#[derive(Debug, Clone, Copy, PartialEq, Eq, Structural)]
pub enum DeleteEditChoice {
    /// Keep the entry.
    KeepLocal,
    /// Delete the entry.
    AcceptRemoteDelete,
}

/// The user's choices for one entry's fields.
#[derive(Debug)]
pub struct FieldChoices {
    /// The entry.
    pub entry: Uuid,
    /// Field names, each with the side chosen.
    pub fields: Vec<(String, ConflictSide)>,
}

/// The user's choices for one entry's files.
#[derive(Debug)]
pub struct AttachmentChoices {
    /// The entry.
    pub entry: Uuid,
    /// File names, each with what was chosen.
    pub attachments: Vec<(String, AttachmentChoice)>,
}

/// The user's decision on a stashed conflict.
#[derive(Debug)]
pub struct Resolution {
    /// Choices on fields.
    pub entry_field_choices: Vec<FieldChoices>,
    /// Choices on files.
    pub entry_attachment_choices: Vec<AttachmentChoices>,
    /// Choices on icons.
    pub entry_icon_choices: Vec<(Uuid, ConflictSide)>,
    /// Choices between a deletion and a change.
    pub delete_edit_choices: Vec<(Uuid, DeleteEditChoice)>,
}

/// The facets of an entry that a decision can be on.
#[derive(Debug, Clone, Copy, PartialEq, Eq, Structural)]
pub enum ConflictKind {
    /// A field.
    Field,
    /// A file.
    Attachment,
    /// The icon.
    Icon,
}

/// The record of one decision, as it travels to other devices. It names the
/// facet and the time; neither the value nor the side.
#[derive(Debug)]
pub struct DecisionRecord {
    /// The entry.
    pub entry: Uuid,
    /// What was decided on.
    pub kind: ConflictKind,
    /// Name of the field or file; absent for the icon.
    pub key: Option<String>,
    /// When.
    pub resolved_at: Timestamp,
}

/// What went wrong while a decision was applied to the two sides.
#[derive(Debug)]
pub enum MergeFault {
    /// The decision does not fit the conflict, and why.
    Mismatch(String),
    /// A record of the decision could not be added to the metadata, and why.
    Record(String),
}

impl MergeFault {
    /// Whether an error reports the fault.
    pub open spec fn reported_by(self, e: EngineError) -> bool {
        match self {
            MergeFault::Mismatch(t) => e matches EngineError::ResolutionMismatch { reason }
                && reason@ == t@,
            MergeFault::Record(t) => e matches EngineError::Serialise(words) && words@
                == "add_conflict_resolution: "@ + t@,
        }
    }

    /// The error that reports the fault.
    pub fn into_error(self) -> (r: EngineError)
        ensures
            self.reported_by(r),
    {
        match self {
            MergeFault::Mismatch(reason) => EngineError::ResolutionMismatch { reason },
            MergeFault::Record(t) => EngineError::Serialise(
                text::joined("add_conflict_resolution: ", t.as_str()),
            ),
        }
    }
}

/// What a [`DecisionRecord`] holds.
#[verifier::ext_equal]
pub struct DecisionView {
    pub entry: Uuid,
    pub kind: ConflictKind,
    pub key: Option<Seq<char>>,
    pub resolved_at: Timestamp,
}

impl DeepView for DecisionRecord {
    type V = DecisionView;

    open spec fn deep_view(&self) -> DecisionView {
        DecisionView {
            entry: self.entry,
            kind: self.kind,
            key: self.key.deep_view(),
            resolved_at: self.resolved_at,
        }
    }
}

/// The names that choices are on.
pub open spec fn chosen_names<T>(choices: Seq<(String, T)>) -> Seq<Seq<char>> {
    Seq::new(choices.len(), |i: int| choices[i].0@)
}

/// One record per name.
pub open spec fn records_for(
    entry: Uuid,
    kind: ConflictKind,
    names: Seq<Seq<char>>,
    now: Timestamp,
) -> Seq<DecisionView> {
    Seq::new(
        names.len(),
        |i: int| DecisionView { entry, kind, key: Some(names[i]), resolved_at: now },
    )
}

/// One record per chosen field of the first `n` entries.
pub open spec fn field_records(choices: Seq<FieldChoices>, n: nat, now: Timestamp) -> Seq<
    DecisionView,
>
    decreases n,
{
    if n == 0 || n > choices.len() {
        Seq::empty()
    } else {
        field_records(choices, (n - 1) as nat, now) + records_for(
            choices[n - 1].entry,
            ConflictKind::Field,
            chosen_names(choices[n - 1].fields@),
            now,
        )
    }
}

/// One record per chosen file of the first `n` entries.
pub open spec fn attachment_records(choices: Seq<AttachmentChoices>, n: nat, now: Timestamp) -> Seq<
    DecisionView,
>
    decreases n,
{
    if n == 0 || n > choices.len() {
        Seq::empty()
    } else {
        attachment_records(choices, (n - 1) as nat, now) + records_for(
            choices[n - 1].entry,
            ConflictKind::Attachment,
            chosen_names(choices[n - 1].attachments@),
            now,
        )
    }
}

/// One record per chosen icon.
pub open spec fn icon_records(choices: Seq<(Uuid, ConflictSide)>, now: Timestamp) -> Seq<
    DecisionView,
> {
    Seq::new(
        choices.len(),
        |i: int|
            DecisionView {
                entry: choices[i].0,
                kind: ConflictKind::Icon,
                key: None,
                resolved_at: now,
            },
    )
}

/// The records of a decision: one per field, file and icon decided on. A choice
/// between a deletion and a change gets none; the merge itself settles it.
pub open spec fn records_of(r: Resolution, now: Timestamp) -> Seq<DecisionView> {
    field_records(r.entry_field_choices@, r.entry_field_choices@.len(), now) + attachment_records(
        r.entry_attachment_choices@,
        r.entry_attachment_choices@.len(),
        now,
    ) + icon_records(r.entry_icon_choices@, now)
}

fn push_records<T>(
    out: &mut Vec<DecisionRecord>,
    entry: Uuid,
    kind: ConflictKind,
    choices: &Vec<(String, T)>,
    now: Timestamp,
)
    ensures
        final(out).deep_view() == old(out).deep_view() + records_for(
            entry,
            kind,
            chosen_names(choices@),
            now,
        ),
{
    let ghost head = out.deep_view();
    let ghost want = records_for(entry, kind, chosen_names(choices@), now);
    let mut i: usize = 0;
    proof {
        assert(out.deep_view() =~= head + want.take(0));
    }
    while i < choices.len()
        invariant
            i <= choices.len(),
            want == records_for(entry, kind, chosen_names(choices@), now),
            out.deep_view() == head + want.take(i as int),
        decreases choices.len() - i,
    {
        let ghost before = out.deep_view();
        out.push(
            DecisionRecord { entry, kind, key: Some(choices[i].0.clone()), resolved_at: now },
        );
        proof {
            assert(out.deep_view() =~= before.push(want[i as int]));
            assert(out.deep_view() =~= head + want.take(i + 1));
        }
        i = i + 1;
    }
    proof {
        assert(want.take(choices@.len() as int) =~= want);
    }
}

/// The records of a decision, to be added to the merged vault's metadata so
/// that other devices adopt it.
pub fn record_resolutions(resolution: &Resolution, now: Timestamp) -> (r: Vec<DecisionRecord>)
    ensures
        r.deep_view() == records_of(*resolution, now),
{
    let mut out: Vec<DecisionRecord> = Vec::new();
    let ghost fields = resolution.entry_field_choices@;
    let ghost files = resolution.entry_attachment_choices@;
    let mut i: usize = 0;
    proof {
        assert(out.deep_view() =~= field_records(fields, 0, now));
    }
    while i < resolution.entry_field_choices.len()
        invariant
            i <= resolution.entry_field_choices.len(),
            fields == resolution.entry_field_choices@,
            out.deep_view() == field_records(fields, i as nat, now),
        decreases resolution.entry_field_choices.len() - i,
    {
        let c = &resolution.entry_field_choices[i];
        push_records(&mut out, c.entry, ConflictKind::Field, &c.fields, now);
        i = i + 1;
    }
    let ghost head = out.deep_view();
    let mut j: usize = 0;
    proof {
        assert(out.deep_view() =~= head + attachment_records(files, 0, now));
    }
    while j < resolution.entry_attachment_choices.len()
        invariant
            j <= resolution.entry_attachment_choices.len(),
            files == resolution.entry_attachment_choices@,
            out.deep_view() == head + attachment_records(files, j as nat, now),
        decreases resolution.entry_attachment_choices.len() - j,
    {
        let c = &resolution.entry_attachment_choices[j];
        push_records(&mut out, c.entry, ConflictKind::Attachment, &c.attachments, now);
        proof {
            assert(out.deep_view() =~= head + attachment_records(files, (j + 1) as nat, now));
        }
        j = j + 1;
    }
    let ghost two = out.deep_view();
    let ghost icons = icon_records(resolution.entry_icon_choices@, now);
    let mut k: usize = 0;
    proof {
        assert(out.deep_view() =~= two + icons.take(0));
    }
    while k < resolution.entry_icon_choices.len()
        invariant
            k <= resolution.entry_icon_choices.len(),
            icons == icon_records(resolution.entry_icon_choices@, now),
            out.deep_view() == two + icons.take(k as int),
        decreases resolution.entry_icon_choices.len() - k,
    {
        let ghost before = out.deep_view();
        out.push(
            DecisionRecord {
                entry: resolution.entry_icon_choices[k].0,
                kind: ConflictKind::Icon,
                key: None,
                resolved_at: now,
            },
        );
        proof {
            assert(out.deep_view() =~= before.push(icons[k as int]));
            assert(out.deep_view() =~= two + icons.take(k + 1));
        }
        k = k + 1;
    }
    proof {
        assert(icons.take(icons.len() as int) =~= icons);
    }
    out
}

/// Whether two decisions are on the same facets, whatever side they take.
pub open spec fn same_facets(a: Resolution, b: Resolution) -> bool {
    &&& a.entry_field_choices@.len() == b.entry_field_choices@.len()
    &&& forall|i: int|
        0 <= i < a.entry_field_choices@.len() ==> (#[trigger] a.entry_field_choices@[i]).entry
            == b.entry_field_choices@[i].entry && chosen_names(a.entry_field_choices@[i].fields@)
            == chosen_names(b.entry_field_choices@[i].fields@)
    &&& a.entry_attachment_choices@.len() == b.entry_attachment_choices@.len()
    &&& forall|i: int|
        0 <= i < a.entry_attachment_choices@.len() ==> (
        #[trigger] a.entry_attachment_choices@[i]).entry == b.entry_attachment_choices@[i].entry
            && chosen_names(a.entry_attachment_choices@[i].attachments@) == chosen_names(
            b.entry_attachment_choices@[i].attachments@,
        )
    &&& a.entry_icon_choices@.len() == b.entry_icon_choices@.len()
    &&& forall|i: int|
        0 <= i < a.entry_icon_choices@.len() ==> (#[trigger] a.entry_icon_choices@[i]).0
            == b.entry_icon_choices@[i].0
}

/// Records do not tell which side won: decisions on the same facets leave the
/// same records, whatever side they take, and whatever they say of deletions.
pub proof fn records_name_no_side(a: Resolution, b: Resolution, now: Timestamp)
    requires
        same_facets(a, b),
    ensures
        records_of(a, now) == records_of(b, now),
{
    same_field_records(a, b, a.entry_field_choices@.len(), now);
    same_attachment_records(a, b, a.entry_attachment_choices@.len(), now);
    assert(icon_records(a.entry_icon_choices@, now) =~= icon_records(b.entry_icon_choices@, now));
}

proof fn same_field_records(a: Resolution, b: Resolution, n: nat, now: Timestamp)
    requires
        same_facets(a, b),
        n <= a.entry_field_choices@.len(),
    ensures
        field_records(a.entry_field_choices@, n, now) == field_records(
            b.entry_field_choices@,
            n,
            now,
        ),
    decreases n,
{
    if n > 0 {
        same_field_records(a, b, (n - 1) as nat, now);
        assert(a.entry_field_choices@[n - 1].entry == b.entry_field_choices@[n - 1].entry);
    }
}

proof fn same_attachment_records(a: Resolution, b: Resolution, n: nat, now: Timestamp)
    requires
        same_facets(a, b),
        n <= a.entry_attachment_choices@.len(),
    ensures
        attachment_records(a.entry_attachment_choices@, n, now) == attachment_records(
            b.entry_attachment_choices@,
            n,
            now,
        ),
    decreases n,
{
    if n > 0 {
        same_attachment_records(a, b, (n - 1) as nat, now);
        assert(a.entry_attachment_choices@[n - 1].entry == b.entry_attachment_choices@[n
            - 1].entry);
    }
}

/// Whether a decision says anything of an entry.
pub open spec fn settles(r: Resolution, u: Uuid) -> bool {
    ||| exists|i: int|
        0 <= i < r.entry_field_choices@.len() && (#[trigger] r.entry_field_choices@[i]).entry == u
    ||| exists|i: int|
        0 <= i < r.entry_attachment_choices@.len() && (
        #[trigger] r.entry_attachment_choices@[i]).entry == u
    ||| exists|i: int|
        0 <= i < r.entry_icon_choices@.len() && (#[trigger] r.entry_icon_choices@[i]).0 == u
    ||| exists|i: int|
        0 <= i < r.delete_edit_choices@.len() && (#[trigger] r.delete_edit_choices@[i]).0 == u
}

/// What is about one entry.
trait OfEntry {
    spec fn about(self) -> Uuid;

    fn entry_of(&self) -> (r: Uuid)
        ensures
            r == self.about(),
    ;
}

impl OfEntry for FieldChoices {
    spec fn about(self) -> Uuid {
        self.entry
    }

    fn entry_of(&self) -> (r: Uuid) {
        self.entry
    }
}

impl OfEntry for AttachmentChoices {
    spec fn about(self) -> Uuid {
        self.entry
    }

    fn entry_of(&self) -> (r: Uuid) {
        self.entry
    }
}

impl<T> OfEntry for (Uuid, T) {
    spec fn about(self) -> Uuid {
        self.0
    }

    fn entry_of(&self) -> (r: Uuid) {
        self.0
    }
}

fn add_entries<T: OfEntry>(v: &Vec<T>, out: &mut Vec<Uuid>)
    requires
        order::ascending(old(out)@),
    ensures
        order::ascending(final(out)@),
        forall|u: Uuid| #[trigger]
            final(out)@.contains(u) <==> old(out)@.contains(u) || exists|i: int|
                0 <= i < v@.len() && (#[trigger] v@[i]).about() == u,
{
    let ghost start = out@;
    let mut i: usize = 0;
    while i < v.len()
        invariant
            i <= v.len(),
            order::ascending(out@),
            forall|u: Uuid| #[trigger]
                out@.contains(u) <==> start.contains(u) || exists|k: int|
                    0 <= k < i && (#[trigger] v@[k]).about() == u,
        decreases v.len() - i,
    {
        let ghost before = out@;
        order::insert_ascending(out, v[i].entry_of());
        proof {
            assert forall|u: Uuid| #[trigger] out@.contains(u) <==> start.contains(u) || exists|
                k: int,
            |
                0 <= k < i + 1 && (#[trigger] v@[k]).about() == u by {
                assert(out@.contains(u) <==> before.contains(u) || u == v@[i as int].about());
                if before.contains(u) && !start.contains(u) {
                    let k = choose|k: int| 0 <= k < i && (#[trigger] v@[k]).about() == u;
                    assert(0 <= k < i + 1 && v@[k].about() == u);
                }
                if exists|k: int| 0 <= k < i + 1 && (#[trigger] v@[k]).about() == u {
                    let k = choose|k: int| 0 <= k < i + 1 && (#[trigger] v@[k]).about() == u;
                    if k < i {
                        assert(before.contains(u));
                    }
                }
            }
        }
        i = i + 1;
    }
}

/// The entries that a decision says anything of, ascending and each once.
pub fn resolved_entries(resolution: &Resolution) -> (r: Vec<Uuid>)
    ensures
        order::ascending(r@),
        forall|u: Uuid| #[trigger] r@.contains(u) <==> settles(*resolution, u),
{
    let mut out: Vec<Uuid> = Vec::new();
    add_entries(&resolution.entry_field_choices, &mut out);
    add_entries(&resolution.entry_attachment_choices, &mut out);
    add_entries(&resolution.entry_icon_choices, &mut out);
    add_entries(&resolution.delete_edit_choices, &mut out);
    out
}

// ----------------------------------------------------------------------- the stash

/// Sizes of the merge outcome's buckets.
#[derive(Debug, Clone, Copy, PartialEq, Eq, Structural)]
pub struct MergeBuckets {
    /// Entries the other side added.
    pub added_on_disk: usize,
    /// Entries only the other side changed.
    pub disk_only_changes: usize,
    /// Entries only we changed.
    pub local_only_changes: usize,
    /// Entries both sides changed.
    pub entry_conflicts: usize,
    /// Entries the other side deleted.
    pub deleted_on_disk: usize,
}

/// A stashed conflict: what it takes to settle it.
pub struct PendingConflictContext {
    /// What the user is shown.
    pub payload: ConflictPayload,
    /// Sizes of the merge outcome's buckets.
    pub outcome: MergeBuckets,
    /// Our side.
    pub local_vault: Vault,
    /// The other side.
    pub remote_vault: Vault,
}

/// The counts reported for a settled conflict.
pub open spec fn stats_of(b: MergeBuckets) -> MergeStats {
    MergeStats {
        entries_added: b.added_on_disk,
        entries_updated: (b.disk_only_changes + b.local_only_changes + b.entry_conflicts) as usize,
        entries_deleted: b.deleted_on_disk,
        entries_moved: 0,
        groups_added: 0,
        groups_updated: 0,
        groups_deleted: 0,
        groups_moved: 0,
        history_pruned: 0,
    }
}

/// Whether the counts fit.
pub open spec fn countable(b: MergeBuckets) -> bool {
    b.disk_only_changes + b.local_only_changes + b.entry_conflicts <= usize::MAX
}

/// The counts reported for a settled conflict.
pub fn merge_stats(b: &MergeBuckets) -> (r: MergeStats)
    requires
        countable(*b),
    ensures
        r == stats_of(*b),
{
    MergeStats {
        entries_added: b.added_on_disk,
        entries_updated: b.disk_only_changes + b.local_only_changes + b.entry_conflicts,
        entries_deleted: b.deleted_on_disk,
        entries_moved: 0,
        groups_added: 0,
        groups_updated: 0,
        groups_deleted: 0,
        groups_moved: 0,
        history_pruned: 0,
    }
}

impl PendingConflictContext {
    /// What a log shows of the conflict.
    pub open spec fn log_line(self) -> Seq<char> {
        "PendingConflictContext { payload_id: "@ + text::signed_of(self.payload.id as int)
            + ", entry_conflicts: "@ + text::decimal_of(self.payload.entry_conflicts@.len())
            + ", delete_edit_conflicts: "@ + text::decimal_of(
            self.payload.delete_edit_conflicts@.len(),
        ) + ", .. }"@
    }

    /// What a log shows of the conflict: its number and how much is in it, and
    /// nothing of the two vaults.
    pub fn debug_text(&self) -> (r: String)
        ensures
            r@ == self.log_line(),
    {
        let mut t: String = text::joined(
            "PendingConflictContext { payload_id: ",
            text::signed(self.payload.id).as_str(),
        );
        t.push_str(", entry_conflicts: ");
        t.push_str(text::decimal(self.payload.entry_conflicts.len() as u64).as_str());
        t.push_str(", delete_edit_conflicts: ");
        t.push_str(text::decimal(self.payload.delete_edit_conflicts.len() as u64).as_str());
        t.push_str(", .. }");
        t
    }
}

/// Conflicts that wait for the user's decision, by number.
pub struct ConflictStash {
    /// What the user is shown.
    pub payloads: BTreeMap<i64, ConflictPayload>,
    /// What it takes to settle them.
    pub contexts: BTreeMap<i64, PendingConflictContext>,
}

/// Whether an entry occurs in a payload.
pub open spec fn in_payload(p: ConflictPayload, u: Uuid) -> bool {
    ||| exists|i: int|
        0 <= i < p.entry_conflicts@.len() && (#[trigger] p.entry_conflicts@[i]).entry_id == u
    ||| p.delete_edit_conflicts@.contains(u)
}

fn payload_entries(p: &ConflictPayload) -> (r: Vec<Uuid>)
    ensures
        order::ascending(r@),
        forall|u: Uuid| #[trigger] r@.contains(u) <==> in_payload(*p, u),
{
    let mut out: Vec<Uuid> = Vec::new();
    let mut i: usize = 0;
    while i < p.entry_conflicts.len()
        invariant
            i <= p.entry_conflicts.len(),
            order::ascending(out@),
            forall|u: Uuid| #[trigger]
                out@.contains(u) <==> exists|k: int|
                    0 <= k < i && (#[trigger] p.entry_conflicts@[k]).entry_id == u,
        decreases p.entry_conflicts.len() - i,
    {
        let ghost before = out@;
        order::insert_ascending(&mut out, p.entry_conflicts[i].entry_id);
        proof {
            let cs = p.entry_conflicts@;
            assert forall|u: Uuid| #[trigger] out@.contains(u) <==> exists|k: int|
                0 <= k < i + 1 && (#[trigger] cs[k]).entry_id == u by {
                if before.contains(u) {
                    let k = choose|k: int| 0 <= k < i && (#[trigger] cs[k]).entry_id == u;
                    assert(0 <= k < i + 1 && cs[k].entry_id == u);
                }
                if u == cs[i as int].entry_id {
                    assert(0 <= i < i + 1 && cs[i as int].entry_id == u);
                }
                if exists|k: int| 0 <= k < i + 1 && (#[trigger] cs[k]).entry_id == u {
                    let k = choose|k: int| 0 <= k < i + 1 && (#[trigger] cs[k]).entry_id == u;
                    if k < i {
                        assert(before.contains(u));
                    }
                }
            }
        }
        i = i + 1;
    }
    let ghost head = out@;
    let mut j: usize = 0;
    while j < p.delete_edit_conflicts.len()
        invariant
            j <= p.delete_edit_conflicts.len(),
            order::ascending(out@),
            forall|u: Uuid| #[trigger]
                out@.contains(u) <==> head.contains(u) || p.delete_edit_conflicts@.take(
                    j as int,
                ).contains(u),
        decreases p.delete_edit_conflicts.len() - j,
    {
        let ghost before = out@;
        order::insert_ascending(&mut out, p.delete_edit_conflicts[j]);
        proof {
            let ds = p.delete_edit_conflicts@;
            assert(ds.take(j + 1) =~= ds.take(j as int).push(ds[j as int]));
            let less = ds.take(j as int);
            let more = ds.take(j + 1);
            assert forall|u: Uuid| #[trigger] out@.contains(u) <==> head.contains(u)
                || more.contains(u) by {
                assert(out@.contains(u) <==> before.contains(u) || u == ds[j as int]);
                if less.contains(u) {
                    let k = choose|k: int| 0 <= k < less.len() && less[k] == u;
                    assert(more[k] == u);
                }
                if u == ds[j as int] {
                    assert(more[j as int] == u);
                }
                if more.contains(u) {
                    let k = choose|k: int| 0 <= k < more.len() && more[k] == u;
                    if k < j {
                        assert(less[k] == u);
                    }
                }
            }
        }
        j = j + 1;
    }
    proof {
        assert(p.delete_edit_conflicts@.take(p.delete_edit_conflicts@.len() as int)
            =~= p.delete_edit_conflicts@);
    }
    out
}

impl ConflictStash {
    /// An empty stash.
    pub fn new() -> (r: ConflictStash)
        ensures
            r.payloads@ == Map::<i64, ConflictPayload>::empty(),
            r.contexts@ == Map::<i64, PendingConflictContext>::empty(),
    {
        ConflictStash { payloads: BTreeMap::new(), contexts: BTreeMap::new() }
    }

    /// A copy of what the user is shown; the stash stays as it is.
    pub fn pending_conflict(&self, id: i64) -> (r: Option<ConflictPayload>)
        ensures
            r is Some <==> self.payloads@.contains_key(id),
            r is Some ==> r->0.deep_view() == self.payloads@[id].deep_view(),
    {
        match self.payloads.get(&id) {
            Some(p) => Some(p.copy()),
            None => None,
        }
    }

    /// For every entry of a stashed conflict, the groups that hold it on the
    /// two sides; ascending by entry. `None` for a conflict that is not
    /// stashed.
    pub fn pending_conflict_parent_groups(&self, id: i64) -> (r: Option<
        Vec<(Uuid, EntryParentGroups)>,
    >)
        ensures
            r is Some <==> self.contexts@.contains_key(id),
            r is Some ==> {
                let ctx = self.contexts@[id];
                let out = r->0@;
                &&& forall|i: int, j: int| 0 <= i < j < out.len() ==> (#[trigger] out[i]).0 < (
                #[trigger] out[j]).0
                &&& forall|u: Uuid| #[trigger] in_payload(ctx.payload, u) <==> exists|i: int|
                    0 <= i < out.len() && (#[trigger] out[i]).0 == u
                &&& forall|i: int|
                    0 <= i < out.len() ==> (#[trigger] out[i]).1 == (EntryParentGroups {
                        local: parent_of(&ctx.local_vault.root, out[i].0),
                        remote: parent_of(&ctx.remote_vault.root, out[i].0),
                    })
            },
    {
        match self.contexts.get(&id) {
            None => None,
            Some(ctx) => {
                let entries = payload_entries(&ctx.payload);
                let mut out: Vec<(Uuid, EntryParentGroups)> = Vec::new();
                let mut i: usize = 0;
                while i < entries.len()
                    invariant
                        i <= entries.len(),
                        out@.len() == i,
                        order::ascending(entries@),
                        forall|k: int|
                            0 <= k < i ==> (#[trigger] out@[k]).0 == entries@[k] && out@[k].1 == (
                            EntryParentGroups {
                                local: parent_of(&ctx.local_vault.root, entries@[k]),
                                remote: parent_of(&ctx.remote_vault.root, entries@[k]),
                            }),
                    decreases entries.len() - i,
                {
                    let u: Uuid = entries[i];
                    out.push(
                        (
                            u,
                            EntryParentGroups {
                                local: find_entry_parent_group(&ctx.local_vault.root, u),
                                remote: find_entry_parent_group(&ctx.remote_vault.root, u),
                            },
                        ),
                    );
                    i = i + 1;
                }
                proof {
                    assert forall|u: Uuid| #[trigger] in_payload(ctx.payload, u) <==> exists|
                        i: int,
                    |
                        0 <= i < out@.len() && (#[trigger] out@[i]).0 == u by {
                        assert(entries@.contains(u) <==> in_payload(ctx.payload, u));
                        if entries@.contains(u) {
                            let k = choose|k: int| 0 <= k < entries@.len() && entries@[k] == u;
                            assert(out@[k].0 == u);
                        }
                        if exists|i: int| 0 <= i < out@.len() && (#[trigger] out@[i]).0 == u {
                            let k = choose|i: int|
                                0 <= i < out@.len() && (#[trigger] out@[i]).0 == u;
                            assert(entries@[k] == u);
                        }
                    }
                }
                Some(out)
            },
        }
    }

    /// How many conflicts the user can be shown.
    pub fn pending_conflict_count(&self) -> (r: usize)
        ensures
            r == self.payloads@.len(),
    {
        self.payloads.len()
    }

    /// Stashes what the user is shown, under the payload's number.
    pub fn stash_conflict_payload(&mut self, payload: ConflictPayload)
        ensures
            final(self).payloads@ == old(self).payloads@.insert(payload.id, payload),
            final(self).contexts == old(self).contexts,
    {
        self.payloads.insert(payload.id, payload);
    }

    /// Stashes what it takes to settle a conflict, under the payload's number.
    pub fn stash_conflict_context(&mut self, ctx: PendingConflictContext)
        ensures
            final(self).contexts@ == old(self).contexts@.insert(ctx.payload.id, ctx),
            final(self).payloads == old(self).payloads,
    {
        self.contexts.insert(ctx.payload.id, ctx);
    }

    /// Stops showing a conflict to the user.
    pub fn discard_pending_conflict_payload(&mut self, id: i64)
        ensures
            final(self).payloads@ == old(self).payloads@.remove(id),
            final(self).contexts == old(self).contexts,
    {
        self.payloads.remove(&id);
    }

    /// Takes what it takes to settle a conflict out of the stash.
    pub fn take_pending_conflict_context(&mut self, id: i64) -> (r: Option<PendingConflictContext>)
        ensures
            r == (if old(self).contexts@.contains_key(id) {
                Some(old(self).contexts@[id])
            } else {
                None
            }),
            final(self).contexts@ == old(self).contexts@.remove(id),
            final(self).payloads == old(self).payloads,
    {
        self.contexts.remove(&id)
    }

    /// Drops a conflict from the stash, undecided. One that is not there is
    /// left alone.
    pub fn discard_conflict(&mut self, id: i64)
        ensures
            final(self).contexts@ == old(self).contexts@.remove(id),
            final(self).payloads@ == old(self).payloads@.remove(id),
    {
        self.take_pending_conflict_context(id);
        self.discard_pending_conflict_payload(id);
    }

    /// The text of a field on our side of a stashed conflict.
    pub fn reveal_conflict_local_field(&self, id: i64, entry_uuid: Uuid, field_name: &str) -> (r:
        Result<String, EngineError>)
        ensures
            gives(
                r,
                if self.contexts@.contains_key(id) {
                    field_in(&self.contexts@[id].local_vault, entry_uuid, field_name@)
                } else {
                    Err("conflict_payload"@)
                },
            ),
    {
        match self.contexts.get(&id) {
            None => Err(EngineError::NotFound { entity: "conflict_payload" }),
            Some(ctx) => reveal_conflict_field_from_vault(&ctx.local_vault, entry_uuid, field_name),
        }
    }

    /// The text of a field on the other side of a stashed conflict.
    pub fn reveal_conflict_remote_field(&self, id: i64, entry_uuid: Uuid, field_name: &str) -> (r:
        Result<String, EngineError>)
        ensures
            gives(
                r,
                if self.contexts@.contains_key(id) {
                    field_in(&self.contexts@[id].remote_vault, entry_uuid, field_name@)
                } else {
                    Err("conflict_payload"@)
                },
            ),
    {
        match self.contexts.get(&id) {
            None => Err(EngineError::NotFound { entity: "conflict_payload" }),
            Some(ctx) => reveal_conflict_field_from_vault(
                &ctx.remote_vault,
                entry_uuid,
                field_name,
            ),
        }
    }
}

} // verus!
