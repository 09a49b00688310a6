use keys_engine::codec::{b64_decode, Uuid};
use keys_engine::conflict_rows::ConflictRecord;
use keys_engine::crypto::{unwrap_with_session_key, NonceSource, SessionKey};
use keys_engine::error::{EngineError, IngestError, SqliteError};
use keys_engine::ingest::ingest_vault;
use keys_engine::meta::{MemoryProtection, Meta};
use keys_engine::meta_tables::MetaTables;
use keys_engine::mirror::Mirror;
use keys_engine::model::StrengthBucket;
use keys_engine::peer::{ingest_peer, Classification, IngestPeerOutcome, ResolutionRecord};
use keys_engine::time::Timestamp;
use keys_engine::vault::{
    CustomField, DeletedObject, Entry, EntryContent, Group, Strength, Timestamps, Vault,
};

const FP_KEY: [u8; 32] = [0x11; 32];
const SK: [u8; 32] = [0x9c; 32];
const ID: Uuid = 0x1000_0000_0000_4000_8000_0000_0000_0001;
const OTHER: Uuid = 0x2000_0000_0000_4000_8000_0000_0000_0002;

fn secs(s: i64) -> Timestamp {
    Timestamp { millis: s * 1000, nanos: 0 }
}

fn ts(s: i64) -> Timestamps {
    Timestamps { last_modification_time: Some(secs(s)), ..no_times() }
}

fn no_times() -> Timestamps {
    Timestamps {
        creation_time: None,
        last_modification_time: None,
        last_access_time: None,
        expiry_time: None,
        expires: false,
    }
}

fn content(title: &str, password: &str) -> EntryContent {
    EntryContent {
        title: title.to_string(),
        username: String::new(),
        password: password.to_string(),
        url: String::new(),
        notes: String::new(),
        tags: Vec::new(),
        times: no_times(),
        icon_id: 0,
        custom_icon_uuid: None,
        custom_fields: Vec::new(),
        custom_data: Vec::new(),
        attachments: Vec::new(),
        strength: Strength { bucket: StrengthBucket::VeryWeak, entropy: 0 },
        otpauth_url: false,
    }
}

fn note(value: &str) -> CustomField {
    CustomField {
        key: "note".to_string(),
        value: value.to_string(),
        protected: false,
        totp_key: false,
    }
}

fn forked(id: Uuid, base: (&str, &str), base_secs: i64, current: (&str, &str)) -> Entry {
    let mut snap = content(base.0, base.1);
    snap.times = ts(base_secs);
    Entry { id, content: content(current.0, current.1), history: vec![snap] }
}

fn forked_note(id: Uuid, base_note: &str, base_secs: i64, current_note: &str) -> Entry {
    let mut snap = content("", "");
    snap.custom_fields = vec![note(base_note)];
    snap.times = ts(base_secs);
    let mut current = content("", "");
    current.custom_fields = vec![note(current_note)];
    Entry { id, content: current, history: vec![snap] }
}

fn entry_at(id: Uuid, title: &str, mtime: i64) -> Entry {
    let mut c = content(title, "");
    c.times = ts(mtime);
    Entry { id, content: c, history: Vec::new() }
}

fn meta() -> Meta {
    Meta {
        generator: String::new(),
        database_name: String::new(),
        database_description: String::new(),
        default_username: String::new(),
        color: String::new(),
        header_hash: String::new(),
        database_name_changed: None,
        database_description_changed: None,
        default_username_changed: None,
        recycle_bin_changed: None,
        settings_changed: None,
        master_key_changed: None,
        master_key_change_rec: -1,
        master_key_change_force: -1,
        history_max_items: 10,
        history_max_size: 6 * 1024 * 1024,
        maintenance_history_days: 365,
        memory_protection: MemoryProtection {
            protect_title: false,
            protect_username: false,
            protect_password: true,
            protect_url: false,
            protect_notes: false,
        },
        unknown_xml: Vec::new(),
        custom_icons: Vec::new(),
        custom_data: Vec::new(),
        recycle_bin_uuid: None,
        recycle_bin_enabled: false,
    }
}

fn vault_of(root: Uuid, entries: Vec<Entry>) -> Vault {
    Vault {
        root: Group {
            id: root,
            name: "Root".to_string(),
            notes: String::new(),
            icon_id: 0,
            custom_icon_uuid: None,
            times: no_times(),
            entries,
            groups: Vec::new(),
        },
        meta: meta(),
        binaries: Vec::new(),
        deleted_objects: Vec::new(),
    }
}

fn ours(entries: Vec<Entry>) -> Vault {
    vault_of(7, entries)
}

fn theirs(entries: Vec<Entry>) -> Vault {
    vault_of(8, entries)
}

fn tombstone(id: Uuid, s: i64) -> DeletedObject {
    DeletedObject { uuid: id, deleted_at: Some(secs(s)) }
}

fn with_tombstones(mut v: Vault, tombs: Vec<DeletedObject>) -> Vault {
    v.deleted_objects = tombs;
    v
}

fn resolved(id: Uuid, s: i64) -> Vec<ResolutionRecord> {
    vec![ResolutionRecord { entry: id, resolved_at: secs(s) }]
}

fn key() -> SessionKey {
    SessionKey::from_bytes(SK)
}

fn seeded(local: &Vault) -> Mirror {
    let mut mirror = Mirror::new();
    let mut tables = MetaTables::new();
    ingest_vault(&mut mirror, &mut tables, &FP_KEY, &key(), &mut NonceSource::from_os(), local)
        .expect("seed local");
    mirror
}

fn peer_into(
    mirror: Mirror,
    owner: &str,
    local: &Vault,
    peer: &Vault,
    verdicts: Vec<Classification>,
) -> (Mirror, IngestPeerOutcome) {
    settle_into(mirror, owner, local, peer, Vec::new(), Vec::new(), verdicts)
}

fn settle_into(
    mirror: Mirror,
    owner: &str,
    local: &Vault,
    peer: &Vault,
    local_resolved: Vec<ResolutionRecord>,
    peer_resolved: Vec<ResolutionRecord>,
    verdicts: Vec<Classification>,
) -> (Mirror, IngestPeerOutcome) {
    ingest_peer(
        mirror,
        &FP_KEY,
        &key(),
        &mut NonceSource::from_os(),
        owner,
        local,
        peer,
        &local_resolved,
        &peer_resolved,
        &verdicts,
    )
    .expect("ingest_peer")
}

fn run(
    local: &Vault,
    owner: &str,
    peer: &Vault,
    verdicts: Vec<Classification>,
) -> (Mirror, IngestPeerOutcome) {
    peer_into(seeded(local), owner, local, peer, verdicts)
}

fn conflict(remote: Entry) -> Vec<Classification> {
    vec![Classification::Conflict { remote }]
}

fn merged(entry: Entry) -> Vec<Classification> {
    vec![Classification::AutoMerged { merged: entry }]
}

fn conflict_rows_for(m: &Mirror, id: Uuid) -> usize {
    m.conflicts.rows.iter().filter(|r| r.entry_uuid == id).count()
}

fn local_title(m: &Mirror, id: Uuid) -> String {
    m.entries.get(&id).expect("local entry").title.clone()
}

fn held<'a>(m: &'a Mirror, owner: &str, id: Uuid) -> &'a ConflictRecord {
    m.conflicts
        .rows
        .iter()
        .find(|r| r.owner == owner && r.entry_uuid == id)
        .expect("held value")
}

fn wrapped<'a>(m: &'a Mirror, owner: &str, id: Uuid, field: &str) -> &'a Vec<u8> {
    &held(m, owner, id)
        .fields
        .protected
        .iter()
        .find(|p| p.field_name == field)
        .expect("protected row")
        .wrapped_blob
}

fn peer_protected(m: &Mirror, owner: &str, id: Uuid, field: &str) -> Vec<u8> {
    unwrap_with_session_key(&key(), wrapped(m, owner, id, field)).expect("unseal")
}

fn tombstone_rows(m: &Mirror, id: Uuid) -> usize {
    if m.tombstones.contains_key(&id) {
        1
    } else {
        0
    }
}

#[test]
fn in_sync_peer_writes_nothing() {
    let local = ours(vec![forked(ID, ("T", "p0"), 1000, ("T", "p0"))]);
    let peer = theirs(vec![forked(ID, ("T", "p0"), 1000, ("T", "p0"))]);
    let (m, outcome) = run(&local, "peerB", &peer, vec![Classification::InSync]);
    assert_eq!(outcome.in_sync, 1);
    assert!(outcome.conflicted.is_empty());
    assert!(outcome.auto_merged.is_empty());
    assert_eq!(conflict_rows_for(&m, ID), 0);
}

#[test]
fn one_sided_peer_edit_advances_local() {
    let local = ours(vec![forked(ID, ("T", "p0"), 1000, ("T", "p0"))]);
    let peer = theirs(vec![forked(ID, ("T", "p0"), 1000, ("T-PEER", "p0"))]);
    let verdict = merged(forked(ID, ("T", "p0"), 1000, ("T-PEER", "p0")));
    let (m, outcome) = run(&local, "peerB", &peer, verdict);
    assert_eq!(outcome.auto_merged, vec![ID]);
    assert!(outcome.conflicted.is_empty());
    assert_eq!(local_title(&m, ID), "T-PEER", "peer's edit adopted locally");
    assert_eq!(conflict_rows_for(&m, ID), 0, "auto-merge stores no peer row");
}

#[test]
fn both_sided_same_field_holds_local_and_stores_peer_row() {
    let local = ours(vec![forked(ID, ("T", "p0"), 1000, ("T", "p-MINE"))]);
    let peer = theirs(vec![forked(ID, ("T", "p0"), 1000, ("T", "p-THEIRS"))]);
    let verdict = conflict(forked(ID, ("T", "p0"), 1000, ("T", "p-THEIRS")));
    let (m, outcome) = run(&local, "peerB", &peer, verdict);
    assert_eq!(outcome.conflicted, vec![ID]);
    assert!(outcome.auto_merged.is_empty(), "hold-open: local not advanced");
    assert_eq!(conflict_rows_for(&m, ID), 1);
    assert_eq!(local_title(&m, ID), "T");
    assert_eq!(peer_protected(&m, "peerB", ID, "Password"), b"p-THEIRS");
}

#[test]
fn field_granularity_different_fields_auto_merge() {
    let local = ours(vec![forked(ID, ("T", "p0"), 1000, ("T-MINE", "p0"))]);
    let peer = theirs(vec![forked(ID, ("T", "p0"), 1000, ("T", "p-PEER"))]);
    let verdict = merged(forked(ID, ("T", "p0"), 1000, ("T-MINE", "p-PEER")));
    let (m, outcome) = run(&local, "peerB", &peer, verdict);
    assert_eq!(outcome.auto_merged, vec![ID]);
    assert!(
        outcome.conflicted.is_empty(),
        "disjoint-field edits auto-merge, no conflict parked"
    );
    assert_eq!(conflict_rows_for(&m, ID), 0);
    assert_eq!(local_title(&m, ID), "T-MINE");
}

#[test]
fn peer_password_is_sealed_not_plaintext() {
    let local = ours(vec![forked(ID, ("T", "p0"), 1000, ("T", "mine"))]);
    let peer = theirs(vec![forked(ID, ("T", "p0"), 1000, ("T", "theirs"))]);
    let verdict = conflict(forked(ID, ("T", "p0"), 1000, ("T", "theirs")));
    let (m, _) = run(&local, "peerB", &peer, verdict);
    let blob = wrapped(&m, "peerB", ID, "Password");
    assert_ne!(blob.as_slice(), b"theirs", "stored sealed, not plaintext");
    assert_eq!(blob.len(), 12 + "theirs".len() + 16);
    assert_eq!(peer_protected(&m, "peerB", ID, "Password"), b"theirs");
}

#[test]
fn a_pull_takes_nonces_in_walk_order() {
    let local = ours(vec![forked(ID, ("T", "p0"), 1000, ("T", "mine"))]);
    let remote = || forked(ID, ("T", "p0"), 1000, ("T", "same"));
    let peer = theirs(vec![remote(), forked(OTHER, ("N", "same"), 1000, ("N", "same"))]);
    let mut nonces = NonceSource { drawn: (1..=5).map(|n| [n; 12]).collect() };
    let verdicts =
        vec![Classification::Conflict { remote: remote() }, Classification::Unrecognised];
    let (m, outcome) = ingest_peer(
        seeded(&local),
        &FP_KEY,
        &key(),
        &mut nonces,
        "peerB",
        &local,
        &peer,
        &Vec::new(),
        &Vec::new(),
        &verdicts,
    )
    .expect("ingest_peer");
    assert_eq!(outcome.conflicted, vec![ID]);
    assert_eq!(nonces.drawn, vec![[1; 12], [2; 12]]);
    let added = m.entries.get(&OTHER).expect("added");
    let blobs = [
        wrapped(&m, "peerB", ID, "Password").clone(),
        added.fields.protected[0].wrapped_blob.clone(),
        b64_decode(&added.history[0].password).unwrap(),
    ];
    assert_eq!([blobs[0][0], blobs[1][0], blobs[2][0]], [5, 4, 3]);
    assert!(blobs[0] != blobs[1] && blobs[1] != blobs[2] && blobs[0] != blobs[2]);
}

#[test]
fn repull_refreshes_peer_row_in_place() {
    let local = ours(vec![forked(ID, ("T", "p0"), 1000, ("T", "mine"))]);
    let m = seeded(&local);
    let v1 = theirs(vec![forked(ID, ("T", "p0"), 1000, ("T", "theirs-1"))]);
    let verdict = conflict(forked(ID, ("T", "p0"), 1000, ("T", "theirs-1")));
    let (m, _) = peer_into(m, "peerB", &local, &v1, verdict);
    assert_eq!(peer_protected(&m, "peerB", ID, "Password"), b"theirs-1");

    let v2 = theirs(vec![forked(ID, ("T", "p0"), 1000, ("T", "theirs-2"))]);
    let verdict = conflict(forked(ID, ("T", "p0"), 1000, ("T", "theirs-2")));
    let (m, _) = peer_into(m, "peerB", &local, &v2, verdict);
    let owner_rows = m.conflicts.rows.iter().filter(|r| r.owner == "peerB" && r.entry_uuid == ID);
    assert_eq!(owner_rows.count(), 1, "refresh in place, no accumulation");
    assert_eq!(peer_protected(&m, "peerB", ID, "Password"), b"theirs-2");
}

#[test]
fn multiple_peers_store_distinct_rows() {
    let local = ours(vec![forked(ID, ("T", "p0"), 1000, ("T", "mine"))]);
    let m = seeded(&local);
    let (m, _) = peer_into(
        m,
        "peerB",
        &local,
        &theirs(vec![forked(ID, ("T", "p0"), 1000, ("T", "from-B"))]),
        conflict(forked(ID, ("T", "p0"), 1000, ("T", "from-B"))),
    );
    let (m, _) = peer_into(
        m,
        "peerC",
        &local,
        &theirs(vec![forked(ID, ("T", "p0"), 1000, ("T", "from-C"))]),
        conflict(forked(ID, ("T", "p0"), 1000, ("T", "from-C"))),
    );
    assert_eq!(conflict_rows_for(&m, ID), 2, "one row per peer — native multi-peer");
    assert_eq!(peer_protected(&m, "peerB", ID, "Password"), b"from-B");
    assert_eq!(peer_protected(&m, "peerC", ID, "Password"), b"from-C");
}

#[test]
fn peer_only_entry_is_added_locally() {
    let local = ours(vec![forked(ID, ("T", "p0"), 1000, ("T", "p0"))]);
    let peer = theirs(vec![
        forked(ID, ("T", "p0"), 1000, ("T", "p0")),
        forked(OTHER, ("X", "x0"), 1000, ("New", "x0")),
    ]);
    let verdicts = vec![Classification::InSync, Classification::Unrecognised];
    let (m, outcome) = run(&local, "peerB", &peer, verdicts);
    assert_eq!(outcome.added, vec![OTHER]);
    assert!(outcome.conflicted.is_empty());
    assert_eq!(conflict_rows_for(&m, OTHER), 0, "an add is not a conflict");
    assert!(m.entry_exists(OTHER), "peer-only entry inserted into the local mirror");
    assert_eq!(local_title(&m, OTHER), "New");
}

#[test]
fn conflict_then_reagreement_clears_row() {
    let local = ours(vec![forked(ID, ("T", "p0"), 1000, ("T", "mine"))]);
    let m = seeded(&local);
    let (m, _) = peer_into(
        m,
        "peerB",
        &local,
        &theirs(vec![forked(ID, ("T", "p0"), 1000, ("T", "theirs"))]),
        conflict(forked(ID, ("T", "p0"), 1000, ("T", "theirs"))),
    );
    assert_eq!(conflict_rows_for(&m, ID), 1);
    let (m, _) = peer_into(
        m,
        "peerB",
        &local,
        &theirs(vec![forked(ID, ("T", "p0"), 1000, ("T", "mine"))]),
        vec![Classification::InSync],
    );
    assert_eq!(conflict_rows_for(&m, ID), 0, "re-agreement clears the badge for free");
}

#[test]
fn non_protected_custom_field_conflict_stores_peer_value() {
    let local = ours(vec![forked_note(ID, "n0", 1000, "A")]);
    let peer = theirs(vec![forked_note(ID, "n0", 1000, "B")]);
    let verdict = conflict(forked_note(ID, "n0", 1000, "B"));
    let (m, outcome) = run(&local, "peerB", &peer, verdict);
    assert_eq!(outcome.conflicted, vec![ID]);
    let stored = held(&m, "peerB", ID)
        .fields
        .plain
        .iter()
        .find(|p| p.field_name == "note")
        .expect("custom field row");
    assert_eq!(stored.value, "B", "peer's non-protected custom field stored as theirs");
}

#[test]
fn no_shared_ancestor_falls_back_to_conflict() {
    let local = ours(vec![forked(ID, ("T", "p0"), 1000, ("T", "mine"))]);
    let peer = theirs(vec![forked(ID, ("X", "x0"), 9999, ("T", "theirs"))]);
    let verdict = conflict(forked(ID, ("X", "x0"), 9999, ("T", "theirs")));
    let (m, outcome) = run(&local, "peerB", &peer, verdict);
    assert_eq!(outcome.conflicted, vec![ID]);
    assert_eq!(conflict_rows_for(&m, ID), 1);
}

#[test]
fn peer_resolution_record_is_adopted() {
    let local = ours(vec![forked(ID, ("T", "p0"), 1000, ("T-MINE", "p0"))]);
    let peer = theirs(vec![forked(ID, ("T", "p0"), 1000, ("T-THEIRS", "p0"))]);
    let verdict = conflict(forked(ID, ("T", "p0"), 1000, ("T-THEIRS", "p0")));
    let (m, outcome) = settle_into(
        seeded(&local),
        "peerB",
        &local,
        &peer,
        Vec::new(),
        resolved(ID, 2000),
        verdict,
    );
    assert_eq!(outcome.auto_merged, vec![ID], "peer's resolution adopted");
    assert!(outcome.conflicted.is_empty());
    assert_eq!(conflict_rows_for(&m, ID), 0, "badge clears on adopt");
    assert_eq!(local_title(&m, ID), "T-THEIRS", "local advanced to the peer's resolved value");
}

#[test]
fn local_resolution_is_not_re_held() {
    let local = ours(vec![forked(ID, ("T", "p0"), 1000, ("T-MINE", "p0"))]);
    let peer = theirs(vec![forked(ID, ("T", "p0"), 1000, ("T-THEIRS", "p0"))]);
    let verdict = conflict(forked(ID, ("T", "p0"), 1000, ("T-THEIRS", "p0")));
    let (m, outcome) = settle_into(
        seeded(&local),
        "peerB",
        &local,
        &peer,
        resolved(ID, 2000),
        Vec::new(),
        verdict,
    );
    assert!(outcome.conflicted.is_empty(), "we already resolved → don't re-hold");
    assert!(outcome.auto_merged.is_empty(), "local keeps its value, no advance");
    assert_eq!(conflict_rows_for(&m, ID), 0, "badge stays clear");
    assert_eq!(local_title(&m, ID), "T-MINE", "local keeps its chosen value");
}

#[test]
fn stale_local_resolution_reopens_on_fresh_peer_edit() {
    let local = ours(vec![forked(ID, ("T", "p0"), 1000, ("T-MINE", "p0"))]);
    let mut edited = forked(ID, ("T", "p0"), 1000, ("T-THEIRS-NEW", "p0"));
    edited.content.times = ts(3000);
    let mut remote = forked(ID, ("T", "p0"), 1000, ("T-THEIRS-NEW", "p0"));
    remote.content.times = ts(3000);
    let peer = theirs(vec![edited]);
    let (m, outcome) = settle_into(
        seeded(&local),
        "peerB",
        &local,
        &peer,
        resolved(ID, 2000),
        Vec::new(),
        conflict(remote),
    );
    assert_eq!(
        outcome.conflicted,
        vec![ID],
        "fresh peer edit after our resolution re-opens the conflict"
    );
    assert!(outcome.auto_merged.is_empty(), "re-opened conflict holds open, no silent adopt");
    assert_eq!(conflict_rows_for(&m, ID), 1);
}

#[test]
fn local_resolution_still_holds_when_peer_edit_predates_it() {
    let local = ours(vec![forked(ID, ("T", "p0"), 1000, ("T-MINE", "p0"))]);
    let mut edited = forked(ID, ("T", "p0"), 1000, ("T-THEIRS", "p0"));
    edited.content.times = ts(1500);
    let mut remote = forked(ID, ("T", "p0"), 1000, ("T-THEIRS", "p0"));
    remote.content.times = ts(1500);
    let peer = theirs(vec![edited]);
    let (m, outcome) = settle_into(
        seeded(&local),
        "peerB",
        &local,
        &peer,
        resolved(ID, 2000),
        Vec::new(),
        conflict(remote),
    );
    assert!(
        outcome.conflicted.is_empty(),
        "pre-resolution peer value is the settled conflict → no re-hold"
    );
    assert_eq!(conflict_rows_for(&m, ID), 0, "badge stays clear");
    assert_eq!(local_title(&m, ID), "T-MINE", "local keeps its value");
}

#[test]
fn peer_tombstone_propagates_delete() {
    let local = ours(vec![entry_at(ID, "X", 1000)]);
    let peer = with_tombstones(theirs(Vec::new()), vec![tombstone(ID, 2000)]);
    let (m, outcome) = run(&local, "peerB", &peer, Vec::new());
    assert_eq!(outcome.deleted, vec![ID], "peer delete propagated");
    assert!(outcome.auto_merged.is_empty());
    assert!(outcome.conflicted.is_empty());
    assert!(!m.entry_exists(ID), "entry removed locally");
    assert_eq!(tombstone_rows(&m, ID), 1, "tombstone unioned for onward propagation");
}

#[test]
fn edit_vs_delete_keeps_local_edit() {
    let local = ours(vec![entry_at(ID, "X-edited", 3000)]);
    let peer = with_tombstones(theirs(Vec::new()), vec![tombstone(ID, 2000)]);
    let (m, outcome) = run(&local, "peerB", &peer, Vec::new());
    assert!(outcome.deleted.is_empty(), "edit wins → not deleted");
    assert!(m.entry_exists(ID), "local edit kept");
    assert_eq!(local_title(&m, ID), "X-edited");
    assert_eq!(
        tombstone_rows(&m, ID),
        0,
        "no tombstone against a live entry (cross-client re-delete hazard)"
    );
}

#[test]
fn local_only_add_absent_on_peer_is_kept() {
    let local = ours(vec![entry_at(ID, "X", 1000)]);
    let peer = theirs(Vec::new());
    let (m, outcome) = run(&local, "peerB", &peer, Vec::new());
    assert!(outcome.deleted.is_empty(), "no tombstone → not a delete");
    assert!(m.entry_exists(ID), "local-only add kept");
    assert_eq!(tombstone_rows(&m, ID), 0);
}

#[test]
fn orphan_tombstone_is_unioned() {
    let local = ours(Vec::new());
    let peer = with_tombstones(theirs(Vec::new()), vec![tombstone(OTHER, 4000)]);
    let (m, outcome) = run(&local, "peerB", &peer, Vec::new());
    assert!(outcome.deleted.is_empty());
    assert!(outcome.added.is_empty());
    assert!(outcome.auto_merged.is_empty());
    assert_eq!(tombstone_rows(&m, OTHER), 1, "orphan tombstone unioned");
}

#[test]
fn stale_peer_does_not_resurrect_deleted_entry() {
    let local = with_tombstones(ours(Vec::new()), vec![tombstone(ID, 3000)]);
    let peer = theirs(vec![entry_at(ID, "X-stale", 2000)]);
    let (m, outcome) = run(&local, "peerB", &peer, vec![Classification::Unrecognised]);
    assert!(outcome.added.is_empty(), "stale peer copy not resurrected");
    assert!(!m.entry_exists(ID), "entry stays deleted");
    assert_eq!(tombstone_rows(&m, ID), 1, "our tombstone is retained");
}

#[test]
fn peer_edit_after_delete_resurrects_entry() {
    let local = with_tombstones(ours(Vec::new()), vec![tombstone(ID, 2000)]);
    let peer = theirs(vec![entry_at(ID, "X-revived", 3000)]);
    let (m, outcome) = run(&local, "peerB", &peer, vec![Classification::Unrecognised]);
    assert_eq!(outcome.added, vec![ID], "peer's newer edit resurrects the entry");
    assert!(m.entry_exists(ID));
    assert_eq!(local_title(&m, ID), "X-revived");
    assert_eq!(
        tombstone_rows(&m, ID),
        0,
        "tombstone scrubbed on resurrection (never live entry + tombstone)"
    );
}

#[test]
fn a_tombstone_goes_even_where_the_vault_does_not_name_it() {
    let local = ours(Vec::new());
    let mut m = seeded(&local);
    m.tombstones.insert(ID, Some(1));
    let peer = theirs(vec![entry_at(ID, "X", 3000)]);
    let (m, _) = peer_into(m, "peerB", &local, &peer, vec![Classification::Unrecognised]);
    assert!(m.entry_exists(ID));
    assert_eq!(tombstone_rows(&m, ID), 0, "no live entry has a tombstone");
}

#[test]
fn a_tie_goes_to_the_deletion() {
    let local = ours(vec![entry_at(ID, "X", 2000)]);
    let peer = with_tombstones(theirs(Vec::new()), vec![tombstone(ID, 2000)]);
    let (m, outcome) = run(&local, "peerB", &peer, Vec::new());
    assert_eq!(outcome.deleted, vec![ID]);
    assert!(!m.entry_exists(ID));
}

#[test]
fn an_undated_deletion_never_drops_a_live_entry() {
    let local = ours(vec![entry_at(ID, "X", 2000)]);
    let undated = DeletedObject { uuid: ID, deleted_at: None };
    let peer = with_tombstones(theirs(Vec::new()), vec![undated]);
    let (m, outcome) = run(&local, "peerB", &peer, Vec::new());
    assert!(outcome.deleted.is_empty());
    assert!(m.entry_exists(ID));
}

#[test]
fn of_two_tombstones_the_earlier_is_kept() {
    let local = with_tombstones(ours(Vec::new()), vec![tombstone(OTHER, 5000)]);
    let peer = with_tombstones(
        theirs(Vec::new()),
        vec![tombstone(OTHER, 4500), tombstone(OTHER, 4000)],
    );
    let (m, _) = run(&local, "peerB", &peer, Vec::new());
    assert_eq!(m.tombstones.get(&OTHER), Some(&Some(4_000_000)));
}

#[test]
fn an_unrecognised_verdict_changes_nothing() {
    let local = ours(vec![forked(ID, ("T", "p0"), 1000, ("T", "mine"))]);
    let peer = theirs(vec![forked(ID, ("T", "p0"), 1000, ("T", "theirs"))]);
    let (m, outcome) = run(&local, "peerB", &peer, vec![Classification::Unrecognised]);
    assert_eq!(outcome.in_sync, 0);
    assert!(outcome.auto_merged.is_empty() && outcome.conflicted.is_empty());
    assert_eq!(local_title(&m, ID), "T");
    assert_eq!(conflict_rows_for(&m, ID), 0);
}

#[test]
fn a_local_edit_after_the_peer_settled_reopens_the_conflict() {
    let mut mine = forked(ID, ("T", "p0"), 1000, ("T-MINE", "p0"));
    mine.content.times = ts(3000);
    let local = ours(vec![mine]);
    let peer = theirs(vec![forked(ID, ("T", "p0"), 1000, ("T-THEIRS", "p0"))]);
    let verdict = conflict(forked(ID, ("T", "p0"), 1000, ("T-THEIRS", "p0")));
    let (m, outcome) = settle_into(
        seeded(&local),
        "peerB",
        &local,
        &peer,
        Vec::new(),
        resolved(ID, 2000),
        verdict,
    );
    assert_eq!(outcome.conflicted, vec![ID]);
    assert_eq!(local_title(&m, ID), "T-MINE");
}

#[test]
fn a_merge_onto_a_missing_row_fails() {
    let local = ours(vec![forked(ID, ("T", "p0"), 1000, ("T", "p0"))]);
    let peer = theirs(vec![forked(ID, ("T", "p0"), 1000, ("N", "p0"))]);
    let verdict = merged(forked(ID, ("T", "p0"), 1000, ("N", "p0")));
    let empty = seeded(&ours(Vec::new()));
    let r = ingest_peer(
        empty,
        &FP_KEY,
        &key(),
        &mut NonceSource::from_os(),
        "peerB",
        &local,
        &peer,
        &Vec::new(),
        &Vec::new(),
        &verdict,
    );
    assert!(matches!(r, Err(EngineError::Sqlite(SqliteError::QueryReturnedNoRows))));
}

#[test]
fn fields_that_share_a_name_cannot_be_held() {
    let mut twice = forked_note(ID, "n0", 1000, "B");
    twice.content.custom_fields.push(note("C"));
    let mut remote = forked_note(ID, "n0", 1000, "B");
    remote.content.custom_fields.push(note("C"));
    let local = ours(vec![forked_note(ID, "n0", 1000, "A")]);
    let peer = theirs(vec![twice]);
    let r = ingest_peer(
        seeded(&local),
        &FP_KEY,
        &key(),
        &mut NonceSource::from_os(),
        "peerB",
        &local,
        &peer,
        &Vec::new(),
        &Vec::new(),
        &conflict(remote),
    );
    assert!(matches!(r, Err(EngineError::Sqlite(SqliteError::Constraint))));
    assert!(!matches!(r, Err(EngineError::Ingest(IngestError::Wrap(_)))));
}
