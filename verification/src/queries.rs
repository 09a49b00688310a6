//! Questions about the tree of groups and the entries in it.

use vstd::prelude::*;

use crate::codec::Uuid;
use crate::error::EngineError;
use crate::mirror::{EntryRecord, GroupRow, Mirror};
use crate::model::{EntrySummary, GroupNode, IconRef, Pagination, StrengthBucket};
use crate::order;
use crate::reading;
use crate::text;

verus! {

broadcast use {vstd::std_specs::btree::group_btree_axioms, vstd::laws_cmp::group_laws_cmp};

// ----------------------------------------------------------------------- counting

/// The entries directly in a group, or all entries.
pub open spec fn members(entries: Map<Uuid, EntryRecord>, group: Option<Uuid>) -> Set<Uuid> {
    match group {
        None => entries.dom(),
        Some(g) => entries.dom().filter(|u: Uuid| entries[u].group_uuid == g),
    }
}

/// The entries directly in a group, or all entries, without recycled ones where
/// asked for.
pub open spec fn live_members(
    entries: Map<Uuid, EntryRecord>,
    group: Option<Uuid>,
    live_only: bool,
) -> Set<Uuid> {
    members(entries, group).filter(|u: Uuid| !live_only || !entries[u].is_recycled)
}

/// How many entries there are directly in a group, or in all, without recycled
/// ones where asked for.
pub fn live_count(m: &Mirror, group: Option<Uuid>, live_only: bool) -> (r: u64)
    ensures
        r == live_members(m.entries@, group, live_only).len(),
{
    let uuids = m.entry_uuids();
    let ghost entries = m.entries@;
    let ghost wanted = live_members(entries, group, live_only);
    let ghost mut seen: Set<Uuid> = Set::empty();
    let mut count: usize = 0;
    let mut i: usize = 0;
    while i < uuids.len()
        invariant
            i <= uuids.len(),
            count <= i,
            entries == m.entries@,
            wanted == live_members(entries, group, live_only),
            forall|u: Uuid| #[trigger] entries.contains_key(u) <==> uuids@.contains(u),
            uuids@.no_duplicates(),
            seen.finite(),
            seen.len() == count,
            forall|u: Uuid| #[trigger]
                seen.contains(u) <==> uuids@.take(i as int).contains(u) && wanted.contains(u),
        decreases uuids.len() - i,
    {
        let u: Uuid = uuids[i];
        let counted: bool = match m.entries.get(&u) {
            None => false,
            Some(record) => (match group {
                None => true,
                Some(g) => record.group_uuid == g,
            }) && (!live_only || !record.is_recycled),
        };
        proof {
            let less = uuids@.take(i as int);
            order::one_more(uuids@, i as int);
            assert(uuids@.contains(u));
            assert(counted == wanted.contains(u));
            if less.contains(u) {
                let j = choose|j: int| 0 <= j < less.len() && less[j] == u;
                assert(uuids@[j] == uuids@[i as int]);
            }
            if counted {
                seen = seen.insert(u);
            }
        }
        if counted {
            count = count + 1;
        }
        i = i + 1;
    }
    proof {
        assert(uuids@.take(uuids@.len() as int) =~= uuids@);
        assert(seen =~= wanted);
    }
    count as u64
}

/// How many entries there are, in one group or in all. A group's count leaves
/// out the groups below it.
pub fn entry_count(m: &Mirror, group: Option<Uuid>) -> (r: u64)
    ensures
        r == members(m.entries@, group).len(),
{
    proof {
        assert(live_members(m.entries@, group, false) =~= members(m.entries@, group));
    }
    live_count(m, group, false)
}

// ------------------------------------------------------------------------ listing

/// Whether one entry is listed before another: the one changed last first, and
/// of two changed at once the one with the smaller identity.
pub open spec fn listed_before(entries: Map<Uuid, EntryRecord>, a: Uuid, b: Uuid) -> bool {
    entries[a].modified_at > entries[b].modified_at || (entries[a].modified_at
        == entries[b].modified_at && a < b)
}

/// Whether a list holds every entry of a group, or every entry, once and in
/// order.
pub open spec fn lists(entries: Map<Uuid, EntryRecord>, group: Option<Uuid>, s: Seq<Uuid>) -> bool {
    &&& forall|u: Uuid| #[trigger] s.contains(u) <==> members(entries, group).contains(u)
    &&& forall|i: int, j: int|
        0 <= i < j < s.len() ==> listed_before(entries, #[trigger] s[i], #[trigger] s[j])
}

/// The part of a list that a window shows.
pub open spec fn window(s: Seq<Uuid>, page: Pagination) -> Seq<Uuid> {
    let from = if page.offset < s.len() {
        page.offset as int
    } else {
        s.len() as int
    };
    let to = if from + page.limit < s.len() {
        from + page.limit
    } else {
        s.len() as int
    };
    s.subrange(from, to)
}

/// Whether a summary shows an entry.
pub open spec fn summarises(s: EntrySummary, uuid: Uuid, record: EntryRecord) -> bool {
    &&& s.uuid == uuid
    &&& s.group_uuid == record.group_uuid
    &&& s.title@ == record.title@
    &&& s.username@ == record.username@
    &&& s.url@ == record.url@
    &&& s.url_host@ == record.url_host@
    &&& s.notes@ == record.notes@
    &&& s.created_at == record.created_at
    &&& s.modified_at == record.modified_at
    &&& s.accessed_at == record.accessed_at
    &&& s.last_used_at == record.last_used_at
    &&& s.password_strength_bucket == StrengthBucket::of_ordinal(record.password_strength_bucket)
    &&& s.password_entropy == record.password_entropy
    &&& s.attachment_count == (if record.attachments@.len() <= u32::MAX {
        record.attachments@.len()
    } else {
        u32::MAX as nat
    })
    &&& s.icon == icon_of(record.icon_index, record.icon_custom_uuid)
}

/// The icon that two columns stand for.
pub open spec fn icon_of(index: u32, custom: Option<Uuid>) -> IconRef {
    match custom {
        Some(u) => IconRef::Custom(u),
        None => IconRef::Builtin(index),
    }
}

/// The icon that two columns stand for.
pub fn icon(index: u32, custom: Option<Uuid>) -> (r: IconRef)
    ensures
        r == icon_of(index, custom),
{
    match custom {
        Some(u) => IconRef::Custom(u),
        None => IconRef::Builtin(index),
    }
}

fn summary(uuid: Uuid, record: &EntryRecord) -> (r: EntrySummary)
    ensures
        summarises(r, uuid, *record),
{
    let files: usize = record.attachments.len();
    EntrySummary {
        uuid,
        group_uuid: record.group_uuid,
        title: record.title.clone(),
        username: record.username.clone(),
        url: record.url.clone(),
        url_host: record.url_host.clone(),
        notes: record.notes.clone(),
        created_at: record.created_at,
        modified_at: record.modified_at,
        accessed_at: record.accessed_at,
        last_used_at: record.last_used_at,
        password_strength_bucket: StrengthBucket::from_ordinal(record.password_strength_bucket),
        password_entropy: record.password_entropy,
        attachment_count: if files <= 0xffff_ffff {
            files as u32
        } else {
            u32::MAX
        },
        icon: icon(record.icon_index, record.icon_custom_uuid),
    }
}

fn precedes(m: &Mirror, a: Uuid, b: Uuid) -> (r: bool)
    requires
        m.entries@.contains_key(a),
        m.entries@.contains_key(b),
    ensures
        r == listed_before(m.entries@, a, b),
{
    match (m.entries.get(&a), m.entries.get(&b)) {
        (Some(x), Some(y)) => x.modified_at > y.modified_at || (x.modified_at == y.modified_at && a
            < b),
        _ => false,
    }
}

fn insert_listed(m: &Mirror, list: &mut Vec<Uuid>, u: Uuid)
    requires
        m.entries@.contains_key(u),
        !old(list)@.contains(u),
        forall|i: int| 0 <= i < old(list)@.len() ==> m.entries@.contains_key(#[trigger] old(list)@[i]),
        forall|i: int, j: int|
            0 <= i < j < old(list)@.len() ==> listed_before(
                m.entries@,
                #[trigger] old(list)@[i],
                #[trigger] old(list)@[j],
            ),
    ensures
        forall|x: Uuid| #[trigger] final(list)@.contains(x) <==> old(list)@.contains(x) || x == u,
        forall|i: int, j: int|
            0 <= i < j < final(list)@.len() ==> listed_before(
                m.entries@,
                #[trigger] final(list)@[i],
                #[trigger] final(list)@[j],
            ),
{
    let ghost s = list@;
    let ghost entries = m.entries@;
    let mut at: usize = 0;
    while at < list.len() && precedes(m, list[at], u)
        invariant
            at <= list.len(),
            list@ == s,
            entries == m.entries@,
            entries.contains_key(u),
            forall|i: int| 0 <= i < s.len() ==> entries.contains_key(#[trigger] s[i]),
            forall|i: int| 0 <= i < at ==> listed_before(entries, #[trigger] s[i], u),
        decreases list.len() - at,
    {
        at = at + 1;
    }
    list.insert(at, u);
    proof {
        order::inserting_keeps_order(s, at as int, u, |a: Uuid, b: Uuid| listed_before(entries, a, b));
    }
}

fn listing(m: &Mirror, group: Option<Uuid>) -> (r: Vec<Uuid>)
    ensures
        lists(m.entries@, group, r@),
{
    let uuids = m.entry_uuids();
    let ghost entries = m.entries@;
    let mut out: Vec<Uuid> = Vec::new();
    let mut i: usize = 0;
    while i < uuids.len()
        invariant
            i <= uuids.len(),
            entries == m.entries@,
            forall|u: Uuid| #[trigger] entries.contains_key(u) <==> uuids@.contains(u),
            uuids@.no_duplicates(),
            forall|u: Uuid| #[trigger]
                out@.contains(u) <==> uuids@.take(i as int).contains(u) && members(
                    entries,
                    group,
                ).contains(u),
            forall|a: int, b: int|
                0 <= a < b < out@.len() ==> listed_before(
                    entries,
                    #[trigger] out@[a],
                    #[trigger] out@[b],
                ),
        decreases uuids.len() - i,
    {
        let u: Uuid = uuids[i];
        let wanted: bool = match group {
            None => true,
            Some(g) => match m.entries.get(&u) {
                Some(record) => record.group_uuid == g,
                None => false,
            },
        };
        proof {
            let less = uuids@.take(i as int);
            order::one_more(uuids@, i as int);
            assert(uuids@.contains(u));
            assert(wanted == members(entries, group).contains(u));
            if less.contains(u) {
                let j = choose|j: int| 0 <= j < less.len() && less[j] == u;
                assert(uuids@[j] == uuids@[i as int]);
            }
            assert forall|a: int| 0 <= a < out@.len() implies entries.contains_key(
                #[trigger] out@[a],
            ) by {
                assert(out@.contains(out@[a]));
            }
        }
        if wanted {
            insert_listed(m, &mut out, u);
        }
        i = i + 1;
    }
    proof {
        assert(uuids@.take(uuids@.len() as int) =~= uuids@);
        assert forall|u: Uuid| #[trigger] out@.contains(u) <==> members(entries, group).contains(
            u,
        ) by {
            if members(entries, group).contains(u) {
                assert(entries.contains_key(u));
            }
        }
    }
    out
}

/// Lists entries, in one group or in all, the one changed last first.
pub fn list_entries(m: &Mirror, group: Option<Uuid>, page: Pagination) -> (r: Vec<EntrySummary>)
    ensures
        exists|s: Seq<Uuid>|
            {
                &&& #[trigger] lists(m.entries@, group, s)
                &&& r@.len() == window(s, page).len()
                &&& forall|i: int|
                    0 <= i < r@.len() ==> summarises(
                        #[trigger] r@[i],
                        window(s, page)[i],
                        m.entries@[window(s, page)[i]],
                    )
            },
{
    let all = listing(m, group);
    let n: usize = all.len();
    let from: usize = if page.offset < n as u64 {
        page.offset as usize
    } else {
        n
    };
    let to: usize = if page.limit < (n - from) as u64 {
        from + page.limit as usize
    } else {
        n
    };
    let ghost shown = window(all@, page);
    let mut out: Vec<EntrySummary> = Vec::new();
    let mut i: usize = from;
    while i < to
        invariant
            from <= i <= to,
            to <= all@.len(),
            out@.len() == i - from,
            shown == all@.subrange(from as int, to as int),
            lists(m.entries@, group, all@),
            forall|k: int|
                0 <= k < out@.len() ==> summarises(
                    #[trigger] out@[k],
                    shown[k],
                    m.entries@[shown[k]],
                ),
        decreases to - i,
    {
        let u: Uuid = all[i];
        proof {
            assert(all@.contains(u));
            assert(members(m.entries@, group).contains(u));
            assert(shown[i - from] == u);
        }
        match m.entries.get(&u) {
            Some(record) => out.push(summary(u, record)),
            None => {},
        }
        i = i + 1;
    }
    assert(lists(m.entries@, group, all@));
    out
}

/// There is only one list: the order settles every tie.
pub proof fn the_list_is_unique(
    entries: Map<Uuid, EntryRecord>,
    group: Option<Uuid>,
    s: Seq<Uuid>,
    t: Seq<Uuid>,
)
    requires
        lists(entries, group, s),
        lists(entries, group, t),
    ensures
        s == t,
{
    order::same_order(s, t, |a: Uuid, b: Uuid| listed_before(entries, a, b));
}

// ----------------------------------------------------------------------- the tree

/// The parent of a group; absent for a root.
pub open spec fn parent_of(groups: Map<Uuid, GroupRow>, u: Uuid) -> Option<Uuid> {
    if groups.contains_key(u) {
        groups[u].parent_uuid
    } else {
        None
    }
}

/// The parent of a group; `None` for a root.
pub fn group_parent_uuid(m: &Mirror, child_uuid: Uuid) -> (r: Result<Option<Uuid>, EngineError>)
    ensures
        if m.groups@.contains_key(child_uuid) {
            r == Ok::<Option<Uuid>, EngineError>(parent_of(m.groups@, child_uuid))
        } else {
            reading::lacks(r, "group"@)
        },
{
    match m.groups.get(&child_uuid) {
        Some(row) => Ok(row.parent_uuid),
        None => Err(EngineError::NotFound { entity: "group" }),
    }
}

/// Whether at most `n` steps up from a group lead to another.
pub open spec fn below(groups: Map<Uuid, GroupRow>, u: Uuid, ancestor: Uuid, n: nat) -> bool
    decreases n,
{
    if n == 0 {
        false
    } else {
        match parent_of(groups, u) {
            None => false,
            Some(p) => p == ancestor || below(groups, p, ancestor, (n - 1) as nat),
        }
    }
}

/// Whether a group lies below another, at any depth. A group does not lie below
/// itself, not even where its parents lead back to it. As many steps up as there
/// are groups are enough.
pub open spec fn descends(groups: Map<Uuid, GroupRow>, u: Uuid, ancestor: Uuid) -> bool {
    u != ancestor && below(groups, u, ancestor, groups.len())
}

/// Whether a group lies below another, at any depth. A group does not lie below
/// itself. The walk up takes no more steps than there are groups.
pub fn is_descendant_of(m: &Mirror, group_uuid: Uuid, ancestor_uuid: Uuid) -> (r: Result<
    bool,
    EngineError,
>)
    ensures
        if m.groups@.contains_key(group_uuid) {
            r == Ok::<bool, EngineError>(descends(m.groups@, group_uuid, ancestor_uuid))
        } else {
            reading::lacks(r, "group"@)
        },
{
    if !m.group_exists(group_uuid) {
        return Err(EngineError::NotFound { entity: "group" });
    }
    if group_uuid == ancestor_uuid {
        return Ok(false);
    }
    let mut at: Uuid = group_uuid;
    let mut left: usize = m.groups.len();
    while left > 0
        invariant
            below(m.groups@, at, ancestor_uuid, left as nat) == below(
                m.groups@,
                group_uuid,
                ancestor_uuid,
                m.groups@.len(),
            ),
            m.groups@.contains_key(group_uuid),
            group_uuid != ancestor_uuid,
        decreases left,
    {
        match m.groups.get(&at) {
            None => {
                return Ok(false);
            },
            Some(row) => match row.parent_uuid {
                None => {
                    return Ok(false);
                },
                Some(p) => {
                    if p == ancestor_uuid {
                        return Ok(true);
                    }
                    at = p;
                },
            },
        }
        left = left - 1;
    }
    Ok(false)
}

/// The group `n` steps up.
pub open spec fn up(groups: Map<Uuid, GroupRow>, u: Uuid, n: nat) -> Option<Uuid>
    decreases n,
{
    if n == 0 {
        Some(u)
    } else {
        match up(groups, u, (n - 1) as nat) {
            None => None,
            Some(w) => parent_of(groups, w),
        }
    }
}

proof fn up_composes(groups: Map<Uuid, GroupRow>, u: Uuid, p: Uuid, n: nat)
    requires
        parent_of(groups, u) == Some(p),
    ensures
        up(groups, u, n + 1) == up(groups, p, n),
    decreases n,
{
    if n > 0 {
        up_composes(groups, u, p, (n - 1) as nat);
    } else {
        assert(up(groups, u, 0) == Some(u));
        assert(up(groups, u, 1) == parent_of(groups, u));
    }
}

proof fn below_is_up(groups: Map<Uuid, GroupRow>, u: Uuid, ancestor: Uuid, n: nat)
    ensures
        below(groups, u, ancestor, n) <==> exists|k: nat|
            1 <= k <= n && #[trigger] up(groups, u, k) == Some(ancestor),
    decreases n,
{
    if n > 0 {
        match parent_of(groups, u) {
            None => {
                assert forall|k: nat| 1 <= k <= n implies #[trigger] up(groups, u, k) is None by {
                    up_ends(groups, u, k);
                }
            },
            Some(p) => {
                below_is_up(groups, p, ancestor, (n - 1) as nat);
                up_composes(groups, u, p, 0);
                assert(up(groups, p, 0) == Some(p));
                if below(groups, u, ancestor, n) {
                    if p == ancestor {
                        assert(up(groups, u, 1) == Some(ancestor));
                    } else {
                        let k = choose|k: nat|
                            1 <= k <= n - 1 && #[trigger] up(groups, p, k) == Some(ancestor);
                        up_composes(groups, u, p, k);
                        assert(up(groups, u, k + 1) == Some(ancestor));
                    }
                }
                if exists|k: nat| 1 <= k <= n && #[trigger] up(groups, u, k) == Some(ancestor) {
                    let k = choose|k: nat|
                        1 <= k <= n && #[trigger] up(groups, u, k) == Some(ancestor);
                    up_composes(groups, u, p, (k - 1) as nat);
                    if k > 1 {
                        assert(up(groups, p, (k - 1) as nat) == Some(ancestor));
                    }
                }
            },
        }
    }
}

proof fn up_ends(groups: Map<Uuid, GroupRow>, u: Uuid, k: nat)
    requires
        k >= 1,
        parent_of(groups, u) is None,
    ensures
        up(groups, u, k) is None,
    decreases k,
{
    if k > 1 {
        up_ends(groups, u, (k - 1) as nat);
    } else {
        assert(up(groups, u, 0) == Some(u));
    }
}

proof fn up_shifts(groups: Map<Uuid, GroupRow>, u: Uuid, a: nat, b: nat, d: nat)
    requires
        up(groups, u, a) == up(groups, u, b),
    ensures
        up(groups, u, a + d) == up(groups, u, b + d),
    decreases d,
{
    if d > 0 {
        up_shifts(groups, u, a, b, (d - 1) as nat);
    }
}

proof fn up_is_known(groups: Map<Uuid, GroupRow>, u: Uuid, a: nat, k: nat)
    requires
        a < k,
        up(groups, u, k) is Some,
    ensures
        up(groups, u, a) is Some,
        groups.contains_key(up(groups, u, a)->0),
    decreases k,
{
    if a < k - 1 {
        up_is_known(groups, u, a, (k - 1) as nat);
    }
}

/// The first `k` groups of a walk up.
spec fn visited(groups: Map<Uuid, GroupRow>, u: Uuid, k: nat) -> Seq<Uuid> {
    Seq::new(k, |i: int| up(groups, u, i as nat)->0)
}

/// The walk up is never cut short: whatever lies any number of steps up is found
/// within as many steps as there are groups.
pub proof fn no_ancestor_is_missed(groups: Map<Uuid, GroupRow>, u: Uuid, ancestor: Uuid, n: nat)
    requires
        groups.dom().finite(),
        below(groups, u, ancestor, n),
    ensures
        below(groups, u, ancestor, groups.len()),
    decreases n,
{
    below_is_up(groups, u, ancestor, n);
    below_is_up(groups, u, ancestor, groups.len());
    let k = choose|k: nat| 1 <= k <= n && #[trigger] up(groups, u, k) == Some(ancestor);
    if k > groups.len() {
        let walk = visited(groups, u, k);
        if walk.no_duplicates() {
            assert(walk.to_set().subset_of(groups.dom())) by {
                assert forall|w: Uuid| walk.to_set().contains(w) implies groups.dom().contains(
                    w,
                ) by {
                    let i = choose|i: int| 0 <= i < walk.len() && walk[i] == w;
                    up_is_known(groups, u, i as nat, k);
                }
            }
            walk.unique_seq_to_set();
            vstd::set_lib::lemma_len_subset(walk.to_set(), groups.dom());
        } else {
            let (a, b) = choose|a: int, b: int|
                0 <= a < walk.len() && 0 <= b < walk.len() && a != b && #[trigger] walk[a]
                    == #[trigger] walk[b];
            let (a, b) = if a < b {
                (a, b)
            } else {
                (b, a)
            };
            up_is_known(groups, u, a as nat, k);
            up_is_known(groups, u, b as nat, k);
            up_shifts(groups, u, a as nat, b as nat, (k - b) as nat);
            let shorter = (a + (k - b)) as nat;
            assert(up(groups, u, shorter) == Some(ancestor));
            below_is_up(groups, u, ancestor, shorter);
            no_ancestor_is_missed(groups, u, ancestor, shorter);
        }
    }
}

// ----------------------------------------------------------------- the whole tree

/// Whether one group is shown before another: roots first, then by name, and of
/// two with one name the one with the smaller identity.
pub open spec fn shown_before(groups: Map<Uuid, GroupRow>, a: Uuid, b: Uuid) -> bool {
    let x = groups[a];
    let y = groups[b];
    if x.parent_uuid is None != y.parent_uuid is None {
        x.parent_uuid is None
    } else {
        order::text_before(x.name@, y.name@) || (x.name@ == y.name@ && a < b)
    }
}

/// Whether a list holds every group once and in order.
pub open spec fn shows_all(groups: Map<Uuid, GroupRow>, s: Seq<Uuid>) -> bool {
    &&& forall|u: Uuid| #[trigger] s.contains(u) <==> groups.contains_key(u)
    &&& forall|i: int, j: int|
        0 <= i < j < s.len() ==> shown_before(groups, #[trigger] s[i], #[trigger] s[j])
}

/// Whether a node shows a group. The recycle bin counts its recycled entries,
/// other groups do not.
pub open spec fn is_node(
    n: GroupNode,
    uuid: Uuid,
    row: GroupRow,
    entries: Map<Uuid, EntryRecord>,
) -> bool {
    let inside = live_members(entries, Some(uuid), !row.is_recycle_bin).len();
    &&& n.uuid == uuid
    &&& n.parent_uuid == row.parent_uuid
    &&& n.name@ == row.name@
    &&& n.icon == icon_of(row.icon_index, row.icon_custom_uuid)
    &&& n.entry_count_direct == (if inside <= u32::MAX {
        inside
    } else {
        u32::MAX as nat
    })
    &&& n.is_recycle_bin == row.is_recycle_bin
}

proof fn shown_is_total(groups: Map<Uuid, GroupRow>, a: Uuid, b: Uuid)
    requires
        a != b,
    ensures
        shown_before(groups, a, b) || shown_before(groups, b, a),
{
    order::text_order_is_total(groups[a].name@, groups[b].name@);
}

proof fn shown_is_transitive(groups: Map<Uuid, GroupRow>, a: Uuid, b: Uuid, c: Uuid)
    requires
        shown_before(groups, a, b),
        shown_before(groups, b, c),
    ensures
        shown_before(groups, a, c),
{
    if order::text_before(groups[a].name@, groups[b].name@) && order::text_before(
        groups[b].name@,
        groups[c].name@,
    ) {
        order::text_order_is_transitive(groups[a].name@, groups[b].name@, groups[c].name@);
    }
}

proof fn shown_is_strict(groups: Map<Uuid, GroupRow>, a: Uuid, b: Uuid)
    ensures
        !shown_before(groups, a, a),
        shown_before(groups, a, b) ==> !shown_before(groups, b, a),
{
    order::text_order_is_total(groups[a].name@, groups[b].name@);
    order::text_order_is_total(groups[a].name@, groups[a].name@);
}

/// No group is shown before itself.
pub proof fn a_group_is_not_before_itself(groups: Map<Uuid, GroupRow>, a: Uuid)
    ensures
        !shown_before(groups, a, a),
{
    shown_is_strict(groups, a, a);
}

/// There is only one order of the groups: it settles every tie.
pub proof fn the_tree_order_is_unique(groups: Map<Uuid, GroupRow>, s: Seq<Uuid>, t: Seq<Uuid>)
    requires
        shows_all(groups, s),
        shows_all(groups, t),
    ensures
        s == t,
{
    let before = |a: Uuid, b: Uuid| shown_before(groups, a, b);
    assert forall|a: Uuid, b: Uuid| #[trigger] before(a, b) implies !before(b, a) by {
        shown_is_strict(groups, a, b);
    }
    order::same_order(s, t, before);
}

fn group_precedes(m: &Mirror, a: Uuid, b: Uuid) -> (r: bool)
    requires
        m.groups@.contains_key(a),
        m.groups@.contains_key(b),
    ensures
        r == shown_before(m.groups@, a, b),
{
    match (m.groups.get(&a), m.groups.get(&b)) {
        (Some(x), Some(y)) => {
            if x.parent_uuid.is_none() != y.parent_uuid.is_none() {
                x.parent_uuid.is_none()
            } else {
                order::comes_before(x.name.as_str(), y.name.as_str()) || (text::same_text(
                    x.name.as_str(),
                    y.name.as_str(),
                ) && a < b)
            }
        },
        _ => false,
    }
}

fn insert_shown(m: &Mirror, list: &mut Vec<Uuid>, u: Uuid)
    requires
        m.groups@.contains_key(u),
        !old(list)@.contains(u),
        forall|i: int| 0 <= i < old(list)@.len() ==> m.groups@.contains_key(#[trigger] old(list)@[i]),
        forall|i: int, j: int|
            0 <= i < j < old(list)@.len() ==> shown_before(
                m.groups@,
                #[trigger] old(list)@[i],
                #[trigger] old(list)@[j],
            ),
    ensures
        forall|x: Uuid| #[trigger] final(list)@.contains(x) <==> old(list)@.contains(x) || x == u,
        forall|i: int, j: int|
            0 <= i < j < final(list)@.len() ==> shown_before(
                m.groups@,
                #[trigger] final(list)@[i],
                #[trigger] final(list)@[j],
            ),
{
    let ghost s = list@;
    let ghost groups = m.groups@;
    let mut at: usize = 0;
    while at < list.len() && group_precedes(m, list[at], u)
        invariant
            at <= list.len(),
            list@ == s,
            groups == m.groups@,
            groups.contains_key(u),
            forall|i: int| 0 <= i < s.len() ==> groups.contains_key(#[trigger] s[i]),
            forall|i: int| 0 <= i < at ==> shown_before(groups, #[trigger] s[i], u),
        decreases list.len() - at,
    {
        at = at + 1;
    }
    list.insert(at, u);
    proof {
        assert(at < s.len() ==> shown_before(groups, u, s[at as int])) by {
            if at < s.len() {
                assert(s.contains(s[at as int]));
                shown_is_total(groups, u, s[at as int]);
            }
        }
        assert forall|j: int| at < j < s.len() implies shown_before(groups, u, #[trigger] s[j]) by {
            shown_is_transitive(groups, u, s[at as int], s[j]);
        }
        order::inserting_keeps_order(s, at as int, u, |a: Uuid, b: Uuid| shown_before(groups, a, b));
    }
}

fn shown_groups(m: &Mirror) -> (r: Vec<Uuid>)
    ensures
        shows_all(m.groups@, r@),
{
    let uuids = m.group_uuids();
    let ghost groups = m.groups@;
    let mut out: Vec<Uuid> = Vec::new();
    let mut i: usize = 0;
    while i < uuids.len()
        invariant
            i <= uuids.len(),
            groups == m.groups@,
            forall|u: Uuid| #[trigger] groups.contains_key(u) <==> uuids@.contains(u),
            uuids@.no_duplicates(),
            forall|u: Uuid| #[trigger] out@.contains(u) <==> uuids@.take(i as int).contains(u),
            forall|a: int, b: int|
                0 <= a < b < out@.len() ==> shown_before(
                    groups,
                    #[trigger] out@[a],
                    #[trigger] out@[b],
                ),
        decreases uuids.len() - i,
    {
        let u: Uuid = uuids[i];
        proof {
            let less = uuids@.take(i as int);
            order::one_more(uuids@, i as int);
            assert(uuids@.contains(u));
            if less.contains(u) {
                let j = choose|j: int| 0 <= j < less.len() && less[j] == u;
                assert(uuids@[j] == uuids@[i as int]);
            }
            assert forall|a: int| 0 <= a < out@.len() implies groups.contains_key(
                #[trigger] out@[a],
            ) by {
                assert(out@.contains(out@[a]));
                let j = choose|j: int| 0 <= j < less.len() && less[j] == out@[a];
                assert(uuids@[j] == out@[a]);
                assert(uuids@.contains(out@[a]));
            }
        }
        insert_shown(m, &mut out, u);
        i = i + 1;
    }
    proof {
        assert(uuids@.take(uuids@.len() as int) =~= uuids@);
    }
    out
}

/// Every group, roots first and then by name.
pub fn group_tree(m: &Mirror) -> (r: Vec<GroupNode>)
    ensures
        exists|s: Seq<Uuid>|
            {
                &&& #[trigger] shows_all(m.groups@, s)
                &&& r@.len() == s.len()
                &&& forall|i: int|
                    0 <= i < r@.len() ==> is_node(
                        #[trigger] r@[i],
                        s[i],
                        m.groups@[s[i]],
                        m.entries@,
                    )
            },
{
    let all = shown_groups(m);
    let mut out: Vec<GroupNode> = Vec::new();
    let mut i: usize = 0;
    while i < all.len()
        invariant
            i <= all.len(),
            out@.len() == i,
            shows_all(m.groups@, all@),
            forall|k: int|
                0 <= k < out@.len() ==> is_node(
                    #[trigger] out@[k],
                    all@[k],
                    m.groups@[all@[k]],
                    m.entries@,
                ),
        decreases all.len() - i,
    {
        let u: Uuid = all[i];
        proof {
            assert(all@.contains(u));
        }
        match m.groups.get(&u) {
            Some(row) => {
                let inside: u64 = live_count(m, Some(u), !row.is_recycle_bin);
                out.push(
                    GroupNode {
                        uuid: u,
                        parent_uuid: row.parent_uuid,
                        name: row.name.clone(),
                        icon: icon(row.icon_index, row.icon_custom_uuid),
                        entry_count_direct: if inside <= 0xffff_ffff {
                            inside as u32
                        } else {
                            u32::MAX
                        },
                        is_recycle_bin: row.is_recycle_bin,
                    },
                );
            },
            None => {},
        }
        i = i + 1;
    }
    assert(shows_all(m.groups@, all@));
    out
}

} // verus!
