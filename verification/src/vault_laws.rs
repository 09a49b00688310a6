//! A written vault, row by row.
//!
//! Each law takes tables that hold a vault, as writing it leaves them, follows a
//! path of positions down from the vault's root, and says what the tables have of
//! what stands there.

use vstd::prelude::*;
use vstd::utf8::*;

use crate::codec;
use crate::codec::Uuid;
use crate::crypto::{NonceSource, SessionKey};
use crate::error::EngineError;
use crate::fingerprint;
use crate::history_snapshot;
use crate::ingest;
use crate::ingest::IngestOutcome;
use crate::meta_tables::MetaTables;
use crate::mirror;
use crate::mirror::{Mirror, MirrorView};
use crate::model::StrengthBucket;
use crate::reading_laws::holds;
use crate::rows;
use crate::text;
use crate::time::Timestamp;
use crate::vault;
use crate::vault::{DeletedObject, Entry, Group, Placed, Vault};

verus! {

// ------------------------------------------------------------------------- the tree

/// The group to which a path of positions leads down from a group.
pub open spec fn group_at(root: Group, path: Seq<nat>) -> Option<Group>
    decreases path.len(),
{
    if path.len() == 0 {
        Some(root)
    } else if path[0] < root.groups@.len() {
        group_at(root.groups@[path[0] as int], path.drop_first())
    } else {
        None
    }
}

/// The `k`-th entry of the group at the end of a path.
pub open spec fn entry_at(root: Group, path: Seq<nat>, k: int) -> Option<Entry> {
    match group_at(root, path) {
        Some(g) => if 0 <= k < g.entries@.len() {
            Some(g.entries@[k])
        } else {
            None
        },
        None => None,
    }
}

/// Whether a path leads to a group or through it.
pub open spec fn passes(root: Group, path: Seq<nat>, id: Uuid) -> bool {
    exists|n: int|
        0 <= n <= path.len() && (#[trigger] group_at(root, path.take(n)) matches Some(g) && g.id
            == id)
}

/// The milliseconds of a time; zero where it is not known.
pub open spec fn is_millis_of(ms: i64, t: Option<Timestamp>) -> bool {
    (t is Some ==> ms == t->0.millis) && (t is None ==> ms == 0)
}

/// The milliseconds of a time, where it is known.
pub open spec fn is_known_millis_of(ms: Option<i64>, t: Option<Timestamp>) -> bool {
    (t is Some ==> ms == Some(t->0.millis)) && (t is None ==> ms is None)
}

/// Whether a text is the host of a URL, with ASCII capitals in lower case; it is
/// empty where the URL has none.
pub open spec fn is_host_of(host: Seq<char>, url: Seq<char>) -> bool {
    if url.len() == 0 || codec::url_host(url) is None {
        host.len() == 0
    } else {
        let h = codec::url_host(url)->0;
        host.len() == h.len() && forall|i: int|
            0 <= i < h.len() ==> (#[trigger] host[i]) as int == if 'A' <= h[i] <= 'Z' {
                h[i] as int + 32
            } else {
                h[i] as int
            }
    }
}

/// A host that is stored for a URL is its host.
pub proof fn a_stored_host_is_the_host(url: Seq<char>)
    ensures
        is_host_of(codec::host_of(url), url),
{
}

proof fn path_steps(root: Group, path: Seq<nat>, n: int)
    requires
        path.len() > 0,
        path[0] < root.groups@.len(),
        1 <= n <= path.len(),
    ensures
        group_at(root, path.take(n)) == group_at(
            root.groups@[path[0] as int],
            path.drop_first().take(n - 1),
        ),
{
    assert(path.take(n).drop_first() =~= path.drop_first().take(n - 1));
}

proof fn passes_steps(root: Group, path: Seq<nat>, id: Uuid)
    requires
        group_at(root, path) is Some,
    ensures
        path.len() == 0 ==> (passes(root, path, id) <==> root.id == id),
        path.len() > 0 ==> (passes(root, path, id) <==> root.id == id || passes(
            root.groups@[path[0] as int],
            path.drop_first(),
            id,
        )),
{
    assert(path.take(0) =~= Seq::<nat>::empty());
    assert(group_at(root, path.take(0)) == Some(root));
    if path.len() > 0 {
        let child = root.groups@[path[0] as int];
        let rest = path.drop_first();
        if passes(root, path, id) && root.id != id {
            let n = choose|n: int|
                0 <= n <= path.len() && (#[trigger] group_at(root, path.take(n)) matches Some(g)
                    && g.id == id);
            path_steps(root, path, n);
            assert(group_at(child, rest.take(n - 1)) is Some);
        }
        if passes(child, rest, id) {
            let n = choose|n: int|
                0 <= n <= rest.len() && (#[trigger] group_at(child, rest.take(n)) matches Some(g)
                    && g.id == id);
            path_steps(root, path, n + 1);
            assert(group_at(root, path.take(n + 1)) is Some);
        }
    }
}

proof fn in_subgroup(
    gs: Seq<Group>,
    n: nat,
    bin: Option<Uuid>,
    under_bin: bool,
    c: int,
    j: int,
) -> (i: int)
    requires
        0 <= c < n <= gs.len(),
        0 <= j < vault::placed_entries(&gs[c], bin, under_bin).len(),
    ensures
        i == vault::placed_in_subgroups::<'static>(gs, c as nat, bin, under_bin).len() + j,
        0 <= i < vault::placed_in_subgroups(gs, n, bin, under_bin).len(),
        vault::placed_in_subgroups(gs, n, bin, under_bin)[i] == vault::placed_entries(
            &gs[c],
            bin,
            under_bin,
        )[j],
    decreases n,
{
    let before = vault::placed_in_subgroups(gs, (n - 1) as nat, bin, under_bin);
    if c == n - 1 {
        before.len() + j
    } else {
        in_subgroup(gs, (n - 1) as nat, bin, under_bin, c, j)
    }
}

/// How many entries the groups of a list and of everything below them have.
pub open spec fn entries_below(gs: Seq<Group>, n: nat) -> nat
    decreases gs, n,
{
    if n == 0 || n > gs.len() {
        0
    } else {
        entries_below(gs, (n - 1) as nat) + entries_within(gs[n - 1])
    }
}

/// How many entries a group and everything below it has.
pub open spec fn entries_within(g: Group) -> nat
    decreases g, 0nat,
{
    g.entries@.len() + entries_below(g.groups@, g.groups@.len())
}

/// A walk meets as many entries as there are.
pub proof fn walk_is_whole(g: &Group, bin: Option<Uuid>, under_bin: bool)
    ensures
        vault::placed_entries(g, bin, under_bin).len() == entries_within(*g),
    decreases g, 0nat,
{
    walk_below_is_whole(g.groups@, g.groups@.len(), bin, under_bin || vault::is_bin(bin, g.id));
}

proof fn walk_below_is_whole(gs: Seq<Group>, n: nat, bin: Option<Uuid>, under_bin: bool)
    requires
        n <= gs.len(),
    ensures
        vault::placed_in_subgroups::<'static>(gs, n, bin, under_bin).len() == entries_below(gs, n),
    decreases gs, n,
{
    if n > 0 {
        walk_below_is_whole(gs, (n - 1) as nat, bin, under_bin);
        walk_is_whole(&gs[n - 1], bin, under_bin);
    }
}

/// The place of an entry among all that a tree has: a group's own entries come
/// before those of the groups below it.
pub open spec fn place_of(root: Group, path: Seq<nat>, k: int) -> int
    decreases path.len(),
{
    if path.len() == 0 {
        k
    } else {
        root.entries@.len() + entries_below(root.groups@, path[0]) + place_of(
            root.groups@[path[0] as int],
            path.drop_first(),
            k,
        )
    }
}

proof fn places_differ(root: Group, path: Seq<nat>, a: int, b: int)
    ensures
        place_of(root, path, a) - place_of(root, path, b) == a - b,
    decreases path.len(),
{
    if path.len() > 0 {
        places_differ(root.groups@[path[0] as int], path.drop_first(), a, b);
    }
}

/// The walk meets what a path leads to.
pub proof fn walk_meets(
    root: &Group,
    bin: Option<Uuid>,
    under_bin: bool,
    path: Seq<nat>,
    k: int,
) -> (i: int)
    requires
        entry_at(*root, path, k) is Some,
    ensures
        i == place_of(*root, path, k),
        0 <= i < vault::placed_entries(root, bin, under_bin).len(),
        *vault::placed_entries(root, bin, under_bin)[i].entry == entry_at(*root, path, k)->0,
        vault::placed_entries(root, bin, under_bin)[i].group == group_at(*root, path)->0.id,
        vault::placed_entries(root, bin, under_bin)[i].recycled <==> under_bin || (bin is Some
            && passes(*root, path, bin->0)),
    decreases path.len(),
{
    let own = vault::own_entries(root, bin, under_bin);
    if bin is Some {
        passes_steps(*root, path, bin->0);
    }
    if path.len() == 0 {
        assert(vault::placed_entries(root, bin, under_bin)[k] == own[k]);
        k
    } else {
        let c = path[0] as int;
        let below = under_bin || vault::is_bin(bin, root.id);
        let j = walk_meets(&root.groups@[c], bin, below, path.drop_first(), k);
        walk_below_is_whole(root.groups@, path[0], bin, below);
        let i = in_subgroup(root.groups@, root.groups@.len(), bin, below, c, j);
        own.len() + i
    }
}

proof fn from_subgroup(
    gs: Seq<Group>,
    n: nat,
    bin: Option<Uuid>,
    under_bin: bool,
    i: int,
) -> (r: (Seq<nat>, int))
    requires
        n <= gs.len(),
        0 <= i < vault::placed_in_subgroups(gs, n, bin, under_bin).len(),
    ensures
        r.0.len() > 0,
        r.0[0] < n,
        entry_at(gs[r.0[0] as int], r.0.drop_first(), r.1) == Some(
            *vault::placed_in_subgroups(gs, n, bin, under_bin)[i].entry,
        ),
        i == entries_below(gs, r.0[0]) + place_of(gs[r.0[0] as int], r.0.drop_first(), r.1),
    decreases gs, n,
{
    let before = vault::placed_in_subgroups(gs, (n - 1) as nat, bin, under_bin);
    if i < before.len() {
        from_subgroup(gs, (n - 1) as nat, bin, under_bin, i)
    } else {
        let (path, k) = from_walk(&gs[n - 1], bin, under_bin, i - before.len());
        walk_below_is_whole(gs, (n - 1) as nat, bin, under_bin);
        let longer = seq![(n - 1) as nat] + path;
        assert(longer.drop_first() =~= path);
        (longer, k)
    }
}

/// What the walk meets, a path leads to.
pub proof fn from_walk(root: &Group, bin: Option<Uuid>, under_bin: bool, i: int) -> (r: (Seq<nat>, int))
    requires
        0 <= i < vault::placed_entries(root, bin, under_bin).len(),
    ensures
        entry_at(*root, r.0, r.1) == Some(*vault::placed_entries(root, bin, under_bin)[i].entry),
        i == place_of(*root, r.0, r.1),
    decreases root, 0nat,
{
    let own = vault::own_entries(root, bin, under_bin);
    if i < own.len() {
        assert(vault::placed_entries(root, bin, under_bin)[i] == own[i]);
        assert(group_at(*root, Seq::empty()) == Some(*root));
        (Seq::empty(), i)
    } else {
        let below = under_bin || vault::is_bin(bin, root.id);
        from_subgroup(root.groups@, root.groups@.len(), bin, below, i - own.len())
    }
}

// ---------------------------------------------------------------------- the writing

/// Writing a vault leaves tables that hold it, whatever was there before; or it
/// is refused and they stay as they were.
pub proof fn writing_leaves_the_vault(
    m: &mut Mirror,
    t: &mut MetaTables,
    fingerprint_key: &[u8; 32],
    session_key: &SessionKey,
    nonces: &mut NonceSource,
    v: &Vault,
    r: Result<IngestOutcome, EngineError>,
)
    requires
        call_ensures(
            ingest::ingest_vault,
            (m, t, fingerprint_key, session_key, nonces, v),
            r,
        ),
    ensures
        r is Ok ==> holds(
            *final(m),
            old(m).opened(session_key@),
            v,
            session_key@,
            fingerprint_key@,
        ),
        r is Err ==> *final(m) == *old(m) && *final(t) == *old(t),
{
}

/// Every entry of a vault has a row under its identity, with the entry's own
/// texts, icon and times, in the group that holds it.
pub proof fn an_entry_keeps_its_columns(
    m: Mirror,
    before: MirrorView,
    v: &Vault,
    key: Seq<u8>,
    fingerprint_key: Seq<u8>,
    path: Seq<nat>,
    k: int,
)
    requires
        holds(m, before, v, key, fingerprint_key),
        entry_at(v.root, path, k) is Some,
    ensures
        ({
            let e = entry_at(v.root, path, k)->0;
            let row = m.entries@[e.id];
            &&& m.entries@.contains_key(e.id)
            &&& row.group_uuid == group_at(v.root, path)->0.id
            &&& row.title@ == e.content.title@
            &&& row.username@ == e.content.username@
            &&& row.url@ == e.content.url@
            &&& is_host_of(row.url_host@, e.content.url@)
            &&& row.notes@ == e.content.notes@
            &&& row.icon_index == e.content.icon_id
            &&& row.icon_custom_uuid == e.content.custom_icon_uuid
            &&& is_millis_of(row.created_at, e.content.times.creation_time)
            &&& is_millis_of(row.modified_at, e.content.times.last_modification_time)
            &&& is_millis_of(row.accessed_at, e.content.times.last_access_time)
            &&& is_known_millis_of(row.last_used_at, e.content.times.last_access_time)
            &&& e.content.times.expires ==> is_known_millis_of(
                row.expires_at,
                e.content.times.expiry_time,
            )
            &&& !e.content.times.expires ==> row.expires_at is None
            &&& StrengthBucket::of_ordinal(row.password_strength_bucket) == Some(
                e.content.strength.bucket,
            )
            &&& row.password_entropy == e.content.strength.entropy
            &&& row.is_recycled <==> v.meta.recycle_bin_uuid is Some && passes(
                v.root,
                path,
                v.meta.recycle_bin_uuid->0,
            )
            &&& row.history@.len() == e.history@.len()
        }),
{
    let i = walk_meets(&v.root, v.meta.recycle_bin_uuid, false, path, k);
    let p = ingest::vault_entries(v)[i];
    ingest::mirror_holds_the_entries(before, v, fingerprint_key, p.entry.id);
    assert(m.opened(key).entries.contains_key(p.entry.id));
    let row = m.entries@[p.entry.id];
    assert(row.opened(key) == mirror::record_of(
        p.entry.deep_view(),
        p.group,
        p.recycled,
        fingerprint_key,
        v.binaries.deep_view(),
    ));
    assert(row.opened(key).history.len() == p.entry.deep_view().history.len());
}

/// An entry's row tells whether it has a one-time-password secret, and bears the
/// fingerprint of its password, which an empty password has not.
pub proof fn an_entry_keeps_its_marks(
    m: Mirror,
    before: MirrorView,
    v: &Vault,
    key: Seq<u8>,
    fingerprint_key: Seq<u8>,
    path: Seq<nat>,
    k: int,
)
    requires
        holds(m, before, v, key, fingerprint_key),
        entry_at(v.root, path, k) is Some,
    ensures
        ({
            let e = entry_at(v.root, path, k)->0;
            let row = m.entries@[e.id];
            &&& row.has_totp <==> e.content.otpauth_url || exists|n: int|
                0 <= n < e.content.custom_fields@.len() && (
                #[trigger] e.content.custom_fields@[n]).totp_key
            &&& e.content.password@.len() == 0 ==> row.password_fingerprint is None
            &&& e.content.password@.len() > 0 ==> row.password_fingerprint is Some
                && row.password_fingerprint->0@ == fingerprint::hmac_sha256(
                fingerprint_key,
                encode_utf8(e.content.password@),
            )
        }),
{
    let i = walk_meets(&v.root, v.meta.recycle_bin_uuid, false, path, k);
    let p = ingest::vault_entries(v)[i];
    let e = entry_at(v.root, path, k)->0;
    ingest::mirror_holds_the_entries(before, v, fingerprint_key, p.entry.id);
    assert(m.opened(key).entries.contains_key(p.entry.id));
    let row = m.entries@[p.entry.id];
    assert(row.opened(key) == mirror::record_of(
        p.entry.deep_view(),
        p.group,
        p.recycled,
        fingerprint_key,
        v.binaries.deep_view(),
    ));
    let fields = e.content.deep_view().custom_fields;
    assert forall|n: int| 0 <= n < fields.len() implies (#[trigger] fields[n]).totp_key
        == e.content.custom_fields@[n].totp_key by {}
    if exists|n: int|
        0 <= n < e.content.custom_fields@.len() && (
        #[trigger] e.content.custom_fields@[n]).totp_key {
        let n = choose|n: int|
            0 <= n < e.content.custom_fields@.len() && (
            #[trigger] e.content.custom_fields@[n]).totp_key;
        assert(fields[n].totp_key);
    }
}

/// An entry that the walk of a vault meets stands at the end of a path.
pub proof fn a_walked_entry_is_on_a_path(v: &Vault, i: int) -> (r: (Seq<nat>, int))
    requires
        0 <= i < ingest::vault_entries(v).len(),
    ensures
        entry_at(v.root, r.0, r.1) == Some(*ingest::vault_entries(v)[i].entry),
{
    from_walk(&v.root, v.meta.recycle_bin_uuid, false, i)
}

/// The row of what a path leads to, as its key opens it.
pub proof fn a_record_at(
    m: Mirror,
    before: MirrorView,
    v: &Vault,
    key: Seq<u8>,
    fingerprint_key: Seq<u8>,
    path: Seq<nat>,
    k: int,
)
    requires
        holds(m, before, v, key, fingerprint_key),
        entry_at(v.root, path, k) is Some,
    ensures
        ({
            let e = entry_at(v.root, path, k)->0;
            &&& m.entries@.contains_key(e.id)
            &&& m.entries@[e.id].opened(key) == mirror::record_of(
                e.deep_view(),
                group_at(v.root, path)->0.id,
                v.meta.recycle_bin_uuid is Some && passes(
                    v.root,
                    path,
                    v.meta.recycle_bin_uuid->0,
                ),
                fingerprint_key,
                v.binaries.deep_view(),
            )
            &&& mirror::storable(e.deep_view())
            &&& exists|i: int|
                0 <= i < ingest::vault_entries(v).len() && *(
                #[trigger] ingest::vault_entries(v)[i]).entry == e
        }),
{
    let i = walk_meets(&v.root, v.meta.recycle_bin_uuid, false, path, k);
    let p = ingest::vault_entries(v)[i];
    ingest::mirror_holds_the_entries(before, v, fingerprint_key, p.entry.id);
    assert(m.opened(key).entries.contains_key(p.entry.id));
}

/// A history record of what a path leads to, as its key opens it.
pub proof fn a_past_record_at(
    m: Mirror,
    before: MirrorView,
    v: &Vault,
    key: Seq<u8>,
    fingerprint_key: Seq<u8>,
    path: Seq<nat>,
    k: int,
    h: int,
)
    requires
        holds(m, before, v, key, fingerprint_key),
        entry_at(v.root, path, k) is Some,
        0 <= h < entry_at(v.root, path, k)->0.history@.len(),
    ensures
        ({
            let e = entry_at(v.root, path, k)->0;
            &&& m.entries@.contains_key(e.id)
            &&& m.entries@[e.id].history@.len() == e.history@.len()
            &&& m.entries@[e.id].history@[h].opened(key) == history_snapshot::snapshot_of(
                e.history@[h].deep_view(),
                v.binaries.deep_view(),
            )
        }),
{
    a_record_at(m, before, v, key, fingerprint_key, path, k);
    let e = entry_at(v.root, path, k)->0;
    let row = m.entries@[e.id];
    assert(row.opened(key).history.len() == e.deep_view().history.len());
    assert(row.opened(key).history[h] == row.history@[h].opened(key));
    assert(e.deep_view().history[h] == e.history@[h].deep_view());
}

/// The tables have no entry that the vault has not.
pub proof fn no_entry_but_the_vaults(
    m: Mirror,
    before: MirrorView,
    v: &Vault,
    key: Seq<u8>,
    fingerprint_key: Seq<u8>,
    u: Uuid,
)
    requires
        holds(m, before, v, key, fingerprint_key),
        m.entries@.contains_key(u),
    ensures
        exists|path: Seq<nat>, k: int| #[trigger]
            entry_at(v.root, path, k) matches Some(e) && e.id == u,
{
    ingest::mirror_holds_the_entries(before, v, fingerprint_key, u);
    assert(m.opened(key).entries.contains_key(u));
    let placed = ingest::vault_entries(v);
    let i = choose|i: int| 0 <= i < placed.len() && (#[trigger] placed[i]).entry.id == u;
    let (path, k) = from_walk(&v.root, v.meta.recycle_bin_uuid, false, i);
    assert(entry_at(v.root, path, k) is Some);
}

// -------------------------------------------------------------------------- history

/// Every history record of an entry is stored with that earlier content's own
/// texts, tags and icon, and with its times of creation, of last change and of
/// last access, in the order of the history.
pub proof fn a_past_version_keeps_its_columns(
    m: Mirror,
    before: MirrorView,
    v: &Vault,
    key: Seq<u8>,
    fingerprint_key: Seq<u8>,
    path: Seq<nat>,
    k: int,
    h: int,
)
    requires
        holds(m, before, v, key, fingerprint_key),
        entry_at(v.root, path, k) is Some,
        0 <= h < entry_at(v.root, path, k)->0.history@.len(),
    ensures
        ({
            let e = entry_at(v.root, path, k)->0;
            let c = e.history@[h];
            let past = m.entries@[e.id].history@[h];
            &&& m.entries@.contains_key(e.id)
            &&& h < m.entries@[e.id].history@.len()
            &&& past.title@ == c.title@
            &&& past.username@ == c.username@
            &&& past.url@ == c.url@
            &&& is_host_of(past.url_host@, c.url@)
            &&& past.notes@ == c.notes@
            &&& is_millis_of(past.created_at, c.times.creation_time)
            &&& is_millis_of(past.modified_at, c.times.last_modification_time)
            &&& is_millis_of(past.accessed_at, c.times.last_access_time)
            &&& is_known_millis_of(past.last_used_at, c.times.last_access_time)
            &&& c.times.expires ==> is_known_millis_of(past.expires_at, c.times.expiry_time)
            &&& !c.times.expires ==> past.expires_at is None
            &&& past.icon_index == Some(c.icon_id)
            &&& c.custom_icon_uuid is None ==> past.icon_custom_uuid is None
            &&& c.custom_icon_uuid is Some ==> past.icon_custom_uuid is Some
                && past.icon_custom_uuid->0@ == codec::uuid_text(c.custom_icon_uuid->0)
            &&& past.tags@.len() == c.tags@.len()
            &&& forall|n: int|
                0 <= n < c.tags@.len() ==> (#[trigger] past.tags@[n])@ == c.tags@[n]@
            &&& c.password@.len() == 0 ==> past.password_strength_bucket is None
                && past.password_entropy is None
            &&& c.password@.len() > 0 ==> past.password_entropy == Some(c.strength.entropy)
                && past.password_strength_bucket is Some && StrengthBucket::of_ordinal(
                past.password_strength_bucket->0,
            ) == Some(c.strength.bucket)
        }),
{
    an_entry_keeps_its_columns(m, before, v, key, fingerprint_key, path, k);
    let i = walk_meets(&v.root, v.meta.recycle_bin_uuid, false, path, k);
    let p = ingest::vault_entries(v)[i];
    let e = entry_at(v.root, path, k)->0;
    let row = m.entries@[e.id];
    ingest::mirror_holds_the_entries(before, v, fingerprint_key, e.id);
    assert(m.opened(key).entries[e.id] == row.opened(key));
    assert(row.opened(key).history[h] == row.history@[h].opened(key));
    assert(e.deep_view().history[h] == e.history@[h].deep_view());
    let past = row.history@[h];
    let c = e.history@[h];
    assert(past.opened(key).tags == c.deep_view().tags);
    assert(past.tags.deep_view().len() == past.tags@.len());
    assert forall|n: int| 0 <= n < c.tags@.len() implies (#[trigger] past.tags@[n])@
        == c.tags@[n]@ by {
        assert(past.tags.deep_view()[n] == past.tags@[n]@);
        assert(c.tags.deep_view()[n] == c.tags@[n]@);
    }
    assert(past.opened(key).icon_custom_uuid == past.icon_custom_uuid.deep_view());
}

/// The files of a history record are stored in order, each with its name, and
/// with the length and the digest of what it refers to.
pub proof fn a_past_version_keeps_its_files(
    m: Mirror,
    before: MirrorView,
    v: &Vault,
    key: Seq<u8>,
    fingerprint_key: Seq<u8>,
    path: Seq<nat>,
    k: int,
    h: int,
    a: int,
)
    requires
        holds(m, before, v, key, fingerprint_key),
        entry_at(v.root, path, k) is Some,
        0 <= h < entry_at(v.root, path, k)->0.history@.len(),
        0 <= a < entry_at(v.root, path, k)->0.history@[h].attachments@.len(),
    ensures
        ({
            let e = entry_at(v.root, path, k)->0;
            let file = e.history@[h].attachments@[a];
            let past = m.entries@[e.id].history@[h];
            let bytes = if file.ref_id < v.binaries@.len() {
                v.binaries@[file.ref_id as int]@
            } else {
                Seq::empty()
            };
            &&& past.attachments@.len() == e.history@[h].attachments@.len()
            &&& past.attachments@[a].name@ == file.name@
            &&& past.attachments@[a].size == bytes.len() as u64
            &&& past.attachments@[a].sha256_hex@ == text::hex_of(codec::sha256(bytes))
        }),
{
    an_entry_keeps_its_columns(m, before, v, key, fingerprint_key, path, k);
    let i = walk_meets(&v.root, v.meta.recycle_bin_uuid, false, path, k);
    let e = entry_at(v.root, path, k)->0;
    let row = m.entries@[e.id];
    ingest::mirror_holds_the_entries(before, v, fingerprint_key, e.id);
    assert(ingest::vault_entries(v)[i].entry.id == e.id);
    assert(m.opened(key).entries[e.id] == row.opened(key));
    assert(row.opened(key).history[h] == row.history@[h].opened(key));
    assert(e.deep_view().history[h] == e.history@[h].deep_view());
    let past = row.history@[h];
    let c = e.history@[h];
    let files = past.attachments.deep_view();
    assert(past.opened(key).attachments == files);
    assert(files[a] == past.attachments@[a].deep_view());
    assert(files.len() == past.attachments@.len());
    assert(c.attachments.deep_view()[a] == c.attachments@[a].deep_view());
    assert(files.len() == c.attachments.deep_view().len());
    if c.attachments@[a].ref_id < v.binaries@.len() {
        assert(v.binaries.deep_view()[c.attachments@[a].ref_id as int]
            == v.binaries@[c.attachments@[a].ref_id as int]@);
    }
}

// --------------------------------------------------------------------------- groups

/// The identity of the group that a path leads to from, if it leads anywhere.
pub open spec fn parent_on(root: Group, path: Seq<nat>) -> Option<Uuid> {
    if path.len() == 0 {
        None
    } else {
        match group_at(root, path.drop_last()) {
            Some(g) => Some(g.id),
            None => None,
        }
    }
}

proof fn row_in_subgroup(
    gs: Seq<Group>,
    n: nat,
    parent: Option<Uuid>,
    bin: Option<Uuid>,
    c: int,
    j: int,
) -> (i: int)
    requires
        0 <= c < n <= gs.len(),
        0 <= j < mirror::group_rows(gs[c], parent, mirror::stored_position(c as nat), bin).len(),
    ensures
        i == mirror::subgroup_rows(gs, c as nat, parent, bin).len() + j,
        0 <= i < mirror::subgroup_rows(gs, n, parent, bin).len(),
        mirror::subgroup_rows(gs, n, parent, bin)[i] == mirror::group_rows(
            gs[c],
            parent,
            mirror::stored_position(c as nat),
            bin,
        )[j],
    decreases n,
{
    let before = mirror::subgroup_rows(gs, (n - 1) as nat, parent, bin);
    if c == n - 1 {
        before.len() + j
    } else {
        row_in_subgroup(gs, (n - 1) as nat, parent, bin, c, j)
    }
}

/// Where the walk of the groups comes to the end of a path.
spec fn row_number(root: Group, bin: Option<Uuid>, path: Seq<nat>) -> int
    decreases path.len(),
{
    if path.len() == 0 {
        0
    } else {
        1 + mirror::subgroup_rows(root.groups@, path[0], Some(root.id), bin).len() + row_number(
            root.groups@[path[0] as int],
            bin,
            path.drop_first(),
        )
    }
}

proof fn earlier_rows_are_fewer(
    gs: Seq<Group>,
    a: nat,
    b: nat,
    parent: Option<Uuid>,
    bin: Option<Uuid>,
)
    requires
        a <= b <= gs.len(),
    ensures
        mirror::subgroup_rows(gs, a, parent, bin).len() <= mirror::subgroup_rows(
            gs,
            b,
            parent,
            bin,
        ).len(),
    decreases b,
{
    if a < b {
        earlier_rows_are_fewer(gs, a, (b - 1) as nat, parent, bin);
    }
}

proof fn paths_end_apart(root: Group, bin: Option<Uuid>, p: Seq<nat>, q: Seq<nat>)
    requires
        group_at(root, p) is Some,
        group_at(root, q) is Some,
        row_number(root, bin, p) == row_number(root, bin, q),
    ensures
        p == q,
    decreases p.len(),
{
    if p.len() == 0 || q.len() == 0 {
        let i = rows_meet(root, None, 0, bin, p);
        let j = rows_meet(root, None, 0, bin, q);
        assert(p =~= q);
    } else {
        let gs = root.groups@;
        let own = Some(root.id);
        let pc = mirror::stored_position(p[0]);
        let qc = mirror::stored_position(q[0]);
        let i = rows_meet(gs[p[0] as int], own, pc, bin, p.drop_first());
        let j = rows_meet(gs[q[0] as int], own, qc, bin, q.drop_first());
        if p[0] < q[0] {
            earlier_rows_are_fewer(gs, p[0] + 1, q[0], own, bin);
        } else if q[0] < p[0] {
            earlier_rows_are_fewer(gs, q[0] + 1, p[0], own, bin);
        } else {
            paths_end_apart(gs[p[0] as int], bin, p.drop_first(), q.drop_first());
            assert(p =~= seq![p[0]] + p.drop_first());
            assert(q =~= seq![q[0]] + q.drop_first());
        }
    }
}

/// Two paths of a written vault that end at groups with one identity are one
/// path.
pub proof fn an_identity_is_one_group(
    m: Mirror,
    before: MirrorView,
    v: &Vault,
    key: Seq<u8>,
    fingerprint_key: Seq<u8>,
    p: Seq<nat>,
    q: Seq<nat>,
)
    requires
        holds(m, before, v, key, fingerprint_key),
        group_at(v.root, p) is Some,
        group_at(v.root, q) is Some,
        group_at(v.root, p)->0.id == group_at(v.root, q)->0.id,
    ensures
        p == q,
{
    let bin = v.meta.recycle_bin_uuid;
    let i = rows_meet(v.root, None, 0, bin, p);
    let j = rows_meet(v.root, None, 0, bin, q);
    let rows = ingest::vault_groups(*v);
    if i < j {
        assert(rows[i].0 != rows[j].0);
    } else if j < i {
        assert(rows[j].0 != rows[i].0);
    }
    paths_end_apart(v.root, bin, p, q);
}

/// The entries whose rows lie in a group of the vault are the group's own, and
/// there are as many as it has.
pub proof fn a_group_holds_its_entries(
    m: Mirror,
    before: MirrorView,
    v: &Vault,
    key: Seq<u8>,
    fingerprint_key: Seq<u8>,
    path: Seq<nat>,
    inside: Set<Uuid>,
)
    requires
        holds(m, before, v, key, fingerprint_key),
        group_at(v.root, path) is Some,
        forall|u: Uuid| #[trigger]
            inside.contains(u) <==> m.entries@.contains_key(u) && m.entries@[u].group_uuid
                == group_at(v.root, path)->0.id,
    ensures
        inside.finite(),
        inside.len() == group_at(v.root, path)->0.entries@.len(),
        forall|u: Uuid| #[trigger]
            inside.contains(u) <==> exists|k: int|
                0 <= k < group_at(v.root, path)->0.entries@.len() && (#[trigger] group_at(
                    v.root,
                    path,
                )->0.entries@[k]).id == u,
{
    let g = group_at(v.root, path)->0;
    let bin = v.meta.recycle_bin_uuid;
    let ids = Seq::new(g.entries@.len(), |k: int| g.entries@[k].id);
    let placed = ingest::vault_entries(v);
    assert forall|a: int, b: int| 0 <= a < ids.len() && 0 <= b < ids.len() && a != b implies ids[a]
        != ids[b] by {
        assert(entry_at(v.root, path, a) is Some && entry_at(v.root, path, b) is Some);
        let i = walk_meets(&v.root, bin, false, path, a);
        let j = walk_meets(&v.root, bin, false, path, b);
        places_differ(v.root, path, a, b);
        if i < j {
            assert(placed[i].entry.id != placed[j].entry.id);
        } else {
            assert(placed[j].entry.id != placed[i].entry.id);
        }
    }
    assert forall|u: Uuid| #[trigger] inside.contains(u) <==> exists|k: int|
        0 <= k < g.entries@.len() && (#[trigger] g.entries@[k]).id == u by {
        if inside.contains(u) {
            no_entry_but_the_vaults(m, before, v, key, fingerprint_key, u);
            let (p, k) = choose|p: Seq<nat>, k: int| #[trigger]
                entry_at(v.root, p, k) matches Some(e) && e.id == u;
            an_entry_keeps_its_columns(m, before, v, key, fingerprint_key, p, k);
            an_identity_is_one_group(m, before, v, key, fingerprint_key, path, p);
            assert(g.entries@[k].id == u);
        }
        if exists|k: int| 0 <= k < g.entries@.len() && (#[trigger] g.entries@[k]).id == u {
            let k = choose|k: int| 0 <= k < g.entries@.len() && (#[trigger] g.entries@[k]).id == u;
            assert(entry_at(v.root, path, k) is Some);
            an_entry_keeps_its_columns(m, before, v, key, fingerprint_key, path, k);
        }
    }
    assert(ids.no_duplicates());
    ids.unique_seq_to_set();
    assert(inside =~= ids.to_set()) by {
        assert forall|u: Uuid| inside.contains(u) <==> ids.to_set().contains(u) by {
            if inside.contains(u) {
                let k = choose|k: int|
                    0 <= k < g.entries@.len() && (#[trigger] g.entries@[k]).id == u;
                assert(ids[k] == u);
            }
            if ids.contains(u) {
                let k = choose|k: int| 0 <= k < ids.len() && ids[k] == u;
                assert(g.entries@[k].id == u);
            }
        }
    }
}

/// The walk of the groups meets what a path leads to.
proof fn rows_meet(
    root: Group,
    parent: Option<Uuid>,
    sort_order: u32,
    bin: Option<Uuid>,
    path: Seq<nat>,
) -> (i: int)
    requires
        group_at(root, path) is Some,
    ensures
        i == row_number(root, bin, path),
        path.len() > 0 ==> i > 0,
        0 <= i < mirror::group_rows(root, parent, sort_order, bin).len(),
        mirror::group_rows(root, parent, sort_order, bin)[i] == (
            group_at(root, path)->0.id,
            mirror::group_row_of(
                group_at(root, path)->0,
                if path.len() == 0 {
                    parent
                } else {
                    parent_on(root, path)
                },
                if path.len() == 0 {
                    sort_order
                } else {
                    mirror::stored_position(path.last())
                },
                bin,
            ),
        ),
    decreases path.len(),
{
    if path.len() == 0 {
        0
    } else {
        let c = path[0] as int;
        let position = mirror::stored_position(path[0]);
        let rest = path.drop_first();
        let child = root.groups@[c];
        let j = rows_meet(child, Some(root.id), position, bin, rest);
        let i = row_in_subgroup(root.groups@, root.groups@.len(), Some(root.id), bin, c, j);
        let sub = mirror::subgroup_rows(root.groups@, root.groups@.len(), Some(root.id), bin);
        assert(mirror::group_rows(root, parent, sort_order, bin)[i + 1] == sub[i]);
        if path.len() == 1 {
            assert(path.drop_last() =~= Seq::empty());
            assert(path.last() == path[0]);
        } else {
            assert(path.drop_last().drop_first() =~= rest.drop_last());
            assert(path.drop_last()[0] == path[0]);
            assert(rest.last() == path.last());
        }
        i + 1
    }
}

/// The row of a group below the first groups of a list, and a path to the group.
pub proof fn row_from_subgroup(
    gs: Seq<Group>,
    n: nat,
    parent: Option<Uuid>,
    bin: Option<Uuid>,
    i: int,
) -> (path: Seq<nat>)
    requires
        n <= gs.len(),
        0 <= i < mirror::subgroup_rows(gs, n, parent, bin).len(),
    ensures
        path.len() > 0,
        path[0] < n,
        group_at(gs[path[0] as int], path.drop_first()) matches Some(g) && g.id
            == mirror::subgroup_rows(gs, n, parent, bin)[i].0,
    decreases gs, n,
{
    let before = mirror::subgroup_rows(gs, (n - 1) as nat, parent, bin);
    if i < before.len() {
        row_from_subgroup(gs, (n - 1) as nat, parent, bin, i)
    } else {
        let position = mirror::stored_position((n - 1) as nat);
        let rest = row_from_walk(gs[n - 1], parent, position, bin, i - before.len());
        let path = seq![(n - 1) as nat] + rest;
        assert(path.drop_first() =~= rest);
        path
    }
}

/// The row of a group, and a path to the group.
pub proof fn row_from_walk(
    root: Group,
    parent: Option<Uuid>,
    sort_order: u32,
    bin: Option<Uuid>,
    i: int,
) -> (path: Seq<nat>)
    requires
        0 <= i < mirror::group_rows(root, parent, sort_order, bin).len(),
    ensures
        group_at(root, path) matches Some(g) && g.id == mirror::group_rows(
            root,
            parent,
            sort_order,
            bin,
        )[i].0,
    decreases root, 0nat,
{
    if i == 0 {
        Seq::empty()
    } else {
        let sub = mirror::subgroup_rows(root.groups@, root.groups@.len(), Some(root.id), bin);
        assert(mirror::group_rows(root, parent, sort_order, bin)[i] == sub[i - 1]);
        row_from_subgroup(root.groups@, root.groups@.len(), Some(root.id), bin, i - 1)
    }
}

/// Every group of a vault has a row under its identity, with the group's own
/// texts, icon and times, under the group that holds it, at its position there;
/// and it is the recycle bin just where the metadata names it.
pub proof fn a_group_keeps_its_columns(
    m: Mirror,
    before: MirrorView,
    v: &Vault,
    key: Seq<u8>,
    fingerprint_key: Seq<u8>,
    path: Seq<nat>,
)
    requires
        holds(m, before, v, key, fingerprint_key),
        group_at(v.root, path) is Some,
    ensures
        ({
            let g = group_at(v.root, path)->0;
            let row = m.groups@[g.id];
            &&& m.groups@.contains_key(g.id)
            &&& row.parent_uuid == parent_on(v.root, path)
            &&& row.name@ == g.name@
            &&& row.notes@ == g.notes@
            &&& row.icon_index == g.icon_id
            &&& row.icon_custom_uuid == g.custom_icon_uuid
            &&& is_millis_of(row.created_at, g.times.creation_time)
            &&& is_millis_of(row.modified_at, g.times.last_modification_time)
            &&& g.times.expires ==> is_known_millis_of(row.expires_at, g.times.expiry_time)
            &&& !g.times.expires ==> row.expires_at is None
            &&& row.is_recycle_bin <==> v.meta.recycle_bin_uuid == Some(g.id)
            &&& path.len() == 0 ==> row.sort_order == 0
            &&& path.len() > 0 && path.last() <= u32::MAX ==> row.sort_order == path.last()
        }),
{
    let i = rows_meet(v.root, None, 0, v.meta.recycle_bin_uuid, path);
    let g = group_at(v.root, path)->0;
    ingest::mirror_holds_the_groups(before, v, fingerprint_key, g.id);
    assert(ingest::vault_groups(*v)[i].0 == g.id);
    assert(m.opened(key).groups.contains_key(g.id));
    assert(m.opened(key).groups[g.id] == m.groups@[g.id].deep_view());
}

/// The tables have no group that the vault has not.
pub proof fn no_group_but_the_vaults(
    m: Mirror,
    before: MirrorView,
    v: &Vault,
    key: Seq<u8>,
    fingerprint_key: Seq<u8>,
    u: Uuid,
)
    requires
        holds(m, before, v, key, fingerprint_key),
        m.groups@.contains_key(u),
    ensures
        exists|path: Seq<nat>| #[trigger] group_at(v.root, path) matches Some(g) && g.id == u,
{
    ingest::mirror_holds_the_groups(before, v, fingerprint_key, u);
    assert(m.opened(key).groups.contains_key(u));
    let rows = ingest::vault_groups(*v);
    let i = choose|i: int| 0 <= i < rows.len() && (#[trigger] rows[i]).0 == u;
    let path = row_from_walk(v.root, None, 0, v.meta.recycle_bin_uuid, i);
    assert(group_at(v.root, path) is Some);
}

/// The root is the one group without a parent.
pub proof fn only_the_root_has_no_parent(
    m: Mirror,
    before: MirrorView,
    v: &Vault,
    key: Seq<u8>,
    fingerprint_key: Seq<u8>,
    u: Uuid,
)
    requires
        holds(m, before, v, key, fingerprint_key),
        m.groups@.contains_key(u),
    ensures
        m.groups@[u].parent_uuid is None <==> u == v.root.id,
{
    no_group_but_the_vaults(m, before, v, key, fingerprint_key, u);
    let path = choose|path: Seq<nat>| #[trigger]
        group_at(v.root, path) matches Some(g) && g.id == u;
    a_group_keeps_its_columns(m, before, v, key, fingerprint_key, path);
    assert(group_at(v.root, Seq::empty()) == Some(v.root));
    a_group_keeps_its_columns(m, before, v, key, fingerprint_key, Seq::empty());
    if path.len() > 0 {
        a_path_has_its_parent(v.root, path);
    }
}

proof fn a_path_has_its_parent(root: Group, path: Seq<nat>)
    requires
        path.len() > 0,
        group_at(root, path) is Some,
    ensures
        group_at(root, path.drop_last()) is Some,
    decreases path.len(),
{
    if path.len() > 1 {
        a_path_has_its_parent(root.groups@[path[0] as int], path.drop_first());
        assert(path.drop_last().drop_first() =~= path.drop_first().drop_last());
        assert(path.drop_last()[0] == path[0]);
    }
}

// ----------------------------------------------------------------------- tombstones

proof fn stone_at(deleted: Seq<DeletedObject>, n: nat, i: int)
    requires
        0 <= i < n <= deleted.len(),
        ingest::distinct_tombstones(deleted, n),
    ensures
        ingest::tombstone_table(deleted, n).contains_key(deleted[i].uuid),
        is_known_millis_of(
            ingest::tombstone_table(deleted, n)[deleted[i].uuid],
            deleted[i].deleted_at,
        ),
    decreases n,
{
    if i < n - 1 {
        assert(deleted[i].uuid != deleted[n - 1].uuid);
        stone_at(deleted, (n - 1) as nat, i);
    }
}

proof fn stone_from(deleted: Seq<DeletedObject>, n: nat, u: Uuid)
    requires
        n <= deleted.len(),
        ingest::tombstone_table(deleted, n).contains_key(u),
    ensures
        exists|i: int| 0 <= i < n && (#[trigger] deleted[i]).uuid == u,
    decreases n,
{
    if n > 0 {
        if deleted[n - 1].uuid != u {
            stone_from(deleted, (n - 1) as nat, u);
            let i = choose|i: int| 0 <= i < n - 1 && (#[trigger] deleted[i]).uuid == u;
            assert(deleted[i].uuid == u);
        }
    }
}

proof fn entries_leave_tombstones(
    m: MirrorView,
    placed: Seq<Placed>,
    n: nat,
    fingerprint_key: Seq<u8>,
    binaries: Seq<Seq<u8>>,
)
    requires
        n <= placed.len(),
    ensures
        ingest::stored(m, placed, n, fingerprint_key, binaries).tombstones == m.tombstones,
    decreases n,
{
    if n > 0 {
        entries_leave_tombstones(m, placed, (n - 1) as nat, fingerprint_key, binaries);
    }
}

/// Every tombstone of a vault is stored with its time of deletion, and no other.
pub proof fn tombstones_are_kept(
    m: Mirror,
    before: MirrorView,
    v: &Vault,
    key: Seq<u8>,
    fingerprint_key: Seq<u8>,
    u: Uuid,
)
    requires
        holds(m, before, v, key, fingerprint_key),
    ensures
        m.tombstones@.contains_key(u) <==> exists|i: int|
            0 <= i < v.deleted_objects@.len() && (#[trigger] v.deleted_objects@[i]).uuid == u,
        forall|i: int|
            0 <= i < v.deleted_objects@.len() && (#[trigger] v.deleted_objects@[i]).uuid == u
                ==> is_known_millis_of(m.tombstones@[u], v.deleted_objects@[i].deleted_at),
{
    let stones = v.deleted_objects@;
    let placed = ingest::vault_entries(v);
    entries_leave_tombstones(
        ingest::without_entries(*v),
        placed,
        placed.len(),
        fingerprint_key,
        v.binaries.deep_view(),
    );
    assert(m.opened(key).tombstones == m.tombstones@);
    assert forall|i: int| 0 <= i < stones.len() && (#[trigger] stones[i]).uuid
        == u implies m.tombstones@.contains_key(u) && is_known_millis_of(
        m.tombstones@[u],
        stones[i].deleted_at,
    ) by {
        stone_at(stones, stones.len(), i);
    }
    if m.tombstones@.contains_key(u) {
        stone_from(stones, stones.len(), u);
    }
}

// ------------------------------------------------------------------ tags and other data

/// The tags that an entry keeps are those it has, trimmed, and no blank ones.
pub proof fn tag_kept(tags: Seq<Seq<char>>, t: Seq<char>)
    ensures
        rows::tag_names_of(tags).contains(t) <==> t.len() > 0 && exists|i: int|
            0 <= i < tags.len() && text::trimmed(#[trigger] tags[i]) == t,
        rows::tag_names_of(tags).no_duplicates(),
    decreases tags.len(),
{
    let all = rows::tag_names_of(tags);
    if tags.len() > 0 {
        let less = tags.drop_last();
        let held = rows::tag_names_of(less);
        let name = text::trimmed(tags.last());
        tag_kept(less, t);
        tag_kept(less, name);
        if held.contains(t) {
            let j = choose|j: int| 0 <= j < held.len() && held[j] == t;
            assert(all[j] == t);
            let i = choose|i: int| 0 <= i < less.len() && text::trimmed(#[trigger] less[i]) == t;
            assert(text::trimmed(tags[i]) == t);
        }
        if all.contains(t) && !held.contains(t) {
            assert(text::trimmed(tags[tags.len() - 1]) == t);
        }
        if t.len() > 0 && exists|i: int|
            0 <= i < tags.len() && text::trimmed(#[trigger] tags[i]) == t {
            let i = choose|i: int| 0 <= i < tags.len() && text::trimmed(#[trigger] tags[i]) == t;
            if i < tags.len() - 1 {
                assert(text::trimmed(less[i]) == t);
            } else if !held.contains(t) {
                assert(all[all.len() - 1] == t);
            }
        }
    }
}

/// An entry's row has the entry's tags, each once, without the white space around
/// them; blank ones are left out.
pub proof fn an_entry_keeps_its_tags(
    m: Mirror,
    before: MirrorView,
    v: &Vault,
    key: Seq<u8>,
    fingerprint_key: Seq<u8>,
    path: Seq<nat>,
    k: int,
    t: Seq<char>,
)
    requires
        holds(m, before, v, key, fingerprint_key),
        entry_at(v.root, path, k) is Some,
    ensures
        ({
            let e = entry_at(v.root, path, k)->0;
            let row = m.entries@[e.id];
            &&& (exists|i: int| 0 <= i < row.tags@.len() && (#[trigger] row.tags@[i])@ == t)
                <==> t.len() > 0 && exists|i: int|
                0 <= i < e.content.tags@.len() && text::trimmed(
                    (#[trigger] e.content.tags@[i])@,
                ) == t
            &&& forall|i: int, j: int|
                0 <= i < j < row.tags@.len() ==> (#[trigger] row.tags@[i])@ != (
                #[trigger] row.tags@[j])@
        }),
{
    an_entry_keeps_its_columns(m, before, v, key, fingerprint_key, path, k);
    let n = walk_meets(&v.root, v.meta.recycle_bin_uuid, false, path, k);
    let e = entry_at(v.root, path, k)->0;
    let row = m.entries@[e.id];
    ingest::mirror_holds_the_entries(before, v, fingerprint_key, e.id);
    assert(ingest::vault_entries(v)[n].entry.id == e.id);
    assert(m.opened(key).entries[e.id] == row.opened(key));
    let tags = e.content.tags.deep_view();
    let held = row.tags.deep_view();
    assert(row.opened(key).tags == held);
    assert(held == rows::tag_names_of(tags));
    tag_kept(tags, t);
    if exists|i: int| 0 <= i < row.tags@.len() && (#[trigger] row.tags@[i])@ == t {
        let i = choose|i: int| 0 <= i < row.tags@.len() && (#[trigger] row.tags@[i])@ == t;
        assert(held[i] == t);
        let j = choose|j: int| 0 <= j < tags.len() && text::trimmed(#[trigger] tags[j]) == t;
        assert(text::trimmed(e.content.tags@[j]@) == t);
    }
    if t.len() > 0 && exists|i: int|
        0 <= i < e.content.tags@.len() && text::trimmed((#[trigger] e.content.tags@[i])@) == t {
        let j = choose|i: int|
            0 <= i < e.content.tags@.len() && text::trimmed((#[trigger] e.content.tags@[i])@)
                == t;
        assert(text::trimmed(tags[j]) == t);
        let i = choose|i: int| 0 <= i < held.len() && held[i] == t;
        assert(row.tags@[i]@ == t);
    }
    assert forall|i: int, j: int| 0 <= i < j < row.tags@.len() implies (#[trigger] row.tags@[i])@
        != (#[trigger] row.tags@[j])@ by {
        assert(held[i] != held[j]);
    }
}

/// The client-specific data of an entry is stored in order: key, value and time
/// of last change.
pub proof fn an_entry_keeps_its_data(
    m: Mirror,
    before: MirrorView,
    v: &Vault,
    key: Seq<u8>,
    fingerprint_key: Seq<u8>,
    path: Seq<nat>,
    k: int,
    n: int,
)
    requires
        holds(m, before, v, key, fingerprint_key),
        entry_at(v.root, path, k) is Some,
        0 <= n < entry_at(v.root, path, k)->0.content.custom_data@.len(),
    ensures
        ({
            let e = entry_at(v.root, path, k)->0;
            let row = m.entries@[e.id];
            let item = e.content.custom_data@[n];
            &&& row.custom_data@.len() == e.content.custom_data@.len()
            &&& row.custom_data@[n].key@ == item.key@
            &&& row.custom_data@[n].value@ == item.value@
            &&& is_known_millis_of(row.custom_data@[n].last_modified_at, item.last_modified)
        }),
{
    an_entry_keeps_its_columns(m, before, v, key, fingerprint_key, path, k);
    let i = walk_meets(&v.root, v.meta.recycle_bin_uuid, false, path, k);
    let e = entry_at(v.root, path, k)->0;
    let row = m.entries@[e.id];
    ingest::mirror_holds_the_entries(before, v, fingerprint_key, e.id);
    assert(ingest::vault_entries(v)[i].entry.id == e.id);
    assert(m.opened(key).entries[e.id] == row.opened(key));
    assert(row.opened(key).custom_data == row.custom_data.deep_view());
    assert(row.custom_data.deep_view()[n] == row.custom_data@[n].deep_view());
    assert(e.content.custom_data.deep_view()[n] == e.content.custom_data@[n].deep_view());
}

} // verus!
