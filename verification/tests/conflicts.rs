use keys_engine::codec::Uuid;
use keys_engine::conflict_resolution::{
    find_entry_in_group, find_entry_parent_group, merge_stats, record_resolutions, resolved_entries,
    reveal_conflict_field_from_vault, AttachmentChoice, AttachmentChoices, ConflictKind,
    ConflictSide, ConflictStash, DeleteEditChoice, FieldChoices, MergeBuckets,
    PendingConflictContext, Resolution,
};
use keys_engine::conflict_rows::{build_conflict, ConflictTable};
use keys_engine::crypto::{NonceSource, SessionKey};
use keys_engine::error::{EngineError, ProjectionError};
use keys_engine::events::{ConflictPayload, EntryConflict, EntryParentGroups};
use keys_engine::meta::{MemoryProtection, Meta};
use keys_engine::model::StrengthBucket;
use keys_engine::time::Timestamp;
use keys_engine::vault::{CustomField, Entry, EntryContent, Group, Strength, Timestamps, Vault};

const SK: [u8; 32] = [0x9c; 32];
const A: Uuid = 0x1000_0000_0000_4000_8000_0000_0000_0001;
const B: Uuid = 0x2000_0000_0000_4000_8000_0000_0000_0002;

fn no_times() -> Timestamps {
    Timestamps {
        creation_time: None,
        last_modification_time: None,
        last_access_time: None,
        expiry_time: None,
        expires: false,
    }
}

fn content(title: &str, password: &str) -> EntryContent {
    EntryContent {
        title: title.to_string(),
        username: String::new(),
        password: password.to_string(),
        url: String::new(),
        notes: String::new(),
        tags: Vec::new(),
        times: no_times(),
        icon_id: 0,
        custom_icon_uuid: None,
        custom_fields: Vec::new(),
        custom_data: Vec::new(),
        attachments: Vec::new(),
        strength: Strength { bucket: StrengthBucket::VeryWeak, entropy: 0 },
        otpauth_url: false,
    }
}

fn entry(id: Uuid, title: &str, password: &str) -> Entry {
    Entry { id, content: content(title, password), history: Vec::new() }
}

fn group(id: Uuid, entries: Vec<Entry>, groups: Vec<Group>) -> Group {
    Group {
        id,
        name: format!("group {id}"),
        notes: String::new(),
        icon_id: 0,
        custom_icon_uuid: None,
        times: no_times(),
        entries,
        groups,
    }
}

fn meta() -> Meta {
    Meta {
        generator: "Keys".to_string(),
        database_name: "Vault".to_string(),
        database_description: String::new(),
        default_username: String::new(),
        color: String::new(),
        header_hash: String::new(),
        database_name_changed: None,
        database_description_changed: None,
        default_username_changed: None,
        recycle_bin_changed: None,
        settings_changed: None,
        master_key_changed: None,
        master_key_change_rec: -1,
        master_key_change_force: -1,
        history_max_items: 10,
        history_max_size: 6 * 1024 * 1024,
        maintenance_history_days: 365,
        memory_protection: MemoryProtection {
            protect_title: false,
            protect_username: false,
            protect_password: true,
            protect_url: false,
            protect_notes: false,
        },
        unknown_xml: Vec::new(),
        custom_icons: Vec::new(),
        custom_data: Vec::new(),
        recycle_bin_uuid: None,
        recycle_bin_enabled: false,
    }
}

fn vault(root: Group) -> Vault {
    Vault { root, meta: meta(), binaries: Vec::new(), deleted_objects: Vec::new() }
}

fn sk() -> SessionKey {
    SessionKey::from_bytes(SK)
}

fn insert_peer(
    table: &mut ConflictTable,
    owner: &str,
    id: Uuid,
    title: &str,
    password: &str,
    cf: &[(&str, &str, bool)],
) {
    let mut e = entry(id, title, password);
    for (key, value, protected) in cf {
        e.content.custom_fields.push(CustomField {
            key: key.to_string(),
            value: value.to_string(),
            protected: *protected,
            totp_key: false,
        });
    }
    table.insert(build_conflict(owner, &e, &sk(), &mut NonceSource::from_os()).expect("build"));
}

#[test]
fn badge_query_returns_distinct_uuids() {
    let mut t = ConflictTable::new();
    insert_peer(&mut t, "peerB", B, "B", "z", &[]);
    insert_peer(&mut t, "peerB", A, "A", "x", &[]);
    insert_peer(&mut t, "peerC", A, "A", "y", &[]);
    let uuids = t.parked_conflict_uuids();
    assert_eq!(uuids, vec![A, B], "distinct entry uuids, not per-owner rows");
}

#[test]
fn owners_for_lists_each_peer() {
    let mut t = ConflictTable::new();
    insert_peer(&mut t, "peerC", A, "A", "y", &[]);
    insert_peer(&mut t, "peerB", A, "A", "x", &[]);
    assert_eq!(t.conflict_owners_for(A), vec!["peerB".to_string(), "peerC".to_string()]);
    assert!(t.conflict_owners_for(B).is_empty());
}

#[test]
fn reconstruct_round_trips_fields_and_unseals_secrets() {
    let mut t = ConflictTable::new();
    insert_peer(
        &mut t,
        "peerB",
        A,
        "Acme",
        "s3cret",
        &[("note", "hello", false), ("TOTP", "seed", true)],
    );
    let e = t.reconstruct_peer_entry("peerB", A, &sk()).expect("reconstruct").expect("entry present");
    assert_eq!(e.id, A);
    assert_eq!(e.content.title, "Acme");
    assert_eq!(e.content.password, "s3cret", "password unsealed");
    let totp = e.content.custom_fields.iter().find(|f| f.key == "TOTP").expect("totp");
    assert_eq!(totp.value, "seed");
    assert!(totp.protected, "protected bit reconstructed");
    let note = e.content.custom_fields.iter().find(|f| f.key == "note").expect("note");
    assert_eq!(note.value, "hello");
    assert!(!note.protected);
    assert!(e.history.is_empty());
}

#[test]
fn reconstruct_unknown_entry_returns_none() {
    let t = ConflictTable::new();
    assert!(t.reconstruct_peer_entry("peerB", A, &sk()).expect("reconstruct").is_none());
}

#[test]
fn reconstruction_orders_fields_and_keeps_times() {
    let mut t = ConflictTable::new();
    let mut e = entry(A, "t", "p");
    e.content.times.creation_time = Some(Timestamp { millis: 5, nanos: 9 });
    e.content.times.expiry_time = Some(Timestamp { millis: 6, nanos: 0 });
    e.content.times.expires = true;
    e.content.icon_id = 7;
    e.content.custom_icon_uuid = Some(B);
    for (k, p) in [("z", false), ("b", true), ("a", false), ("Zed", true)] {
        e.content.custom_fields.push(CustomField {
            key: k.into(),
            value: k.into(),
            protected: p,
            totp_key: false,
        });
    }
    t.insert(build_conflict("o", &e, &sk(), &mut NonceSource::from_os()).unwrap());
    let back = t.reconstruct_peer_entry("o", A, &sk()).unwrap().unwrap().content;
    let keys: Vec<&str> = back.custom_fields.iter().map(|f| f.key.as_str()).collect();
    assert_eq!(keys, vec!["Zed", "b", "a", "z"], "sealed fields first, each kind by name");
    assert_eq!(back.times.creation_time, Some(Timestamp { millis: 5, nanos: 0 }));
    assert_eq!(back.times.last_modification_time, None, "an unknown time stays unknown");
    assert_eq!(back.times.last_access_time, None);
    assert_eq!(back.times.expiry_time, Some(Timestamp { millis: 6, nanos: 0 }));
    assert!(back.times.expires);
    assert_eq!((back.icon_id, back.custom_icon_uuid), (7, Some(B)));
}

#[test]
fn held_secrets_take_a_nonce_each() {
    let mut e = entry(A, "t", "same");
    e.content.custom_fields.push(CustomField {
        key: "pin".into(),
        value: "same".into(),
        protected: true,
        totp_key: false,
    });
    let mut nonces = NonceSource { drawn: vec![[1; 12], [2; 12], [3; 12]] };
    let c = build_conflict("o", &e, &sk(), &mut nonces).unwrap();
    assert_eq!(nonces.drawn, vec![[1; 12]]);
    let blobs: Vec<&[u8]> = c.fields.protected.iter().map(|r| r.wrapped_blob.as_slice()).collect();
    assert_eq!(blobs[0][..12], [3; 12]);
    assert_eq!(blobs[1][..12], [2; 12]);
    assert_eq!((blobs[0].len(), blobs[1].len()), (32, 32));
    assert_ne!(blobs[0][12..], blobs[1][12..]);
}

#[test]
fn a_value_that_does_not_open_is_reported() {
    let mut t = ConflictTable::new();
    insert_peer(&mut t, "peerB", A, "Acme", "s3cret", &[]);
    let wrong = SessionKey::from_bytes([1; 32]);
    let unwrap = |e: EngineError| match e {
        EngineError::Projection(ProjectionError::Unwrap(t)) => t,
        other => panic!("unexpected {other:?}"),
    };
    assert_eq!(
        unwrap(t.reconstruct_peer_entry("peerB", A, &wrong).unwrap_err()),
        "conflict peerB/10000000-0000-4000-8000-000000000001 field Password: aead::Error"
    );
    t.rows[0].fields.protected[0].wrapped_blob.truncate(5);
    assert_eq!(
        unwrap(t.reconstruct_peer_entry("peerB", A, &sk()).unwrap_err()),
        "conflict peerB/10000000-0000-4000-8000-000000000001 field Password: wrapped blob too short"
    );
}

#[test]
fn odd_columns_fall_back() {
    let mut t = ConflictTable::new();
    insert_peer(&mut t, "o", A, "x", "y", &[]);
    t.rows[0].icon_index = -3;
    t.rows[0].icon_custom_uuid = Some("nonsense".into());
    t.rows[0].expires_at = Some(i64::MAX);
    t.rows[0].created_at = None;
    let back = t.reconstruct_peer_entry("o", A, &sk()).unwrap().unwrap().content;
    assert_eq!((back.icon_id, back.custom_icon_uuid), (0, None));
    assert!(!back.times.expires);
    assert_eq!(back.times.creation_time, None);
}

#[test]
fn dropping_clears_every_peer() {
    let mut t = ConflictTable::new();
    insert_peer(&mut t, "peerB", A, "A", "x", &[]);
    insert_peer(&mut t, "peerB", B, "B", "x", &[]);
    insert_peer(&mut t, "peerC", A, "A", "y", &[]);
    assert_eq!(t.drop_conflict_rows(A), 2);
    assert_eq!(t.parked_conflict_uuids(), vec![B]);
    assert_eq!(t.drop_conflict_rows(A), 0);
}

// ---------------------------------------------------------------------- the stash

fn payload(id: i64) -> ConflictPayload {
    ConflictPayload::new(
        id,
        vec![EntryConflict {
            entry_id: B,
            field_names: vec!["Title".into()],
            attachment_names: Vec::new(),
            icon_differs: false,
        }],
        vec![A, B],
    )
}

fn buckets() -> MergeBuckets {
    MergeBuckets {
        added_on_disk: 1,
        disk_only_changes: 2,
        local_only_changes: 3,
        entry_conflicts: 4,
        deleted_on_disk: 5,
    }
}

fn two_sided() -> (Vault, Vault) {
    let mut mine = entry(A, "a", "mine");
    mine.content.custom_fields.push(CustomField {
        key: "Token".into(),
        value: "first".into(),
        protected: true,
        totp_key: false,
    });
    mine.content.custom_fields.push(CustomField {
        key: "Token".into(),
        value: "second".into(),
        protected: true,
        totp_key: false,
    });
    let local = vault(group(1, Vec::new(), vec![group(2, vec![mine, entry(B, "b", "")], Vec::new())]));
    let remote = vault(group(1, vec![entry(A, "a", "theirs")], Vec::new()));
    (local, remote)
}

fn stash() -> ConflictStash {
    let (local_vault, remote_vault) = two_sided();
    let mut s = ConflictStash::new();
    s.stash_conflict_payload(payload(5));
    s.stash_conflict_context(PendingConflictContext {
        payload: payload(5),
        outcome: buckets(),
        local_vault,
        remote_vault,
    });
    s
}

#[test]
fn a_stashed_conflict_can_be_looked_at() {
    let s = stash();
    assert_eq!(s.pending_conflict_count(), 1);
    let p = s.pending_conflict(5).expect("payload");
    assert_eq!(p.entry_conflicts[0].field_names, vec!["Title"]);
    assert_eq!(p.delete_edit_conflicts, vec![A, B]);
    assert!(s.pending_conflict(6).is_none());
    assert!(s.pending_conflict(5).is_some(), "looking does not consume");
}

#[test]
fn parents_are_found_on_both_sides() {
    let s = stash();
    let parents = s.pending_conflict_parent_groups(5).expect("stashed");
    assert_eq!(
        parents,
        vec![
            (A, EntryParentGroups { local: Some(2), remote: Some(1) }),
            (B, EntryParentGroups { local: Some(2), remote: None }),
        ]
    );
    assert!(s.pending_conflict_parent_groups(6).is_none());
}

fn missing(r: Result<String, EngineError>) -> &'static str {
    match r {
        Err(EngineError::NotFound { entity }) => entity,
        other => panic!("unexpected {other:?}"),
    }
}

#[test]
fn fields_are_revealed_on_either_side() {
    let s = stash();
    assert_eq!(s.reveal_conflict_local_field(5, A, "Password").unwrap(), "mine");
    assert_eq!(s.reveal_conflict_remote_field(5, A, "Password").unwrap(), "theirs");
    assert_eq!(s.reveal_conflict_local_field(5, A, "Token").unwrap(), "first");
    assert_eq!(missing(s.reveal_conflict_remote_field(5, A, "Token")), "custom_field");
    assert_eq!(missing(s.reveal_conflict_remote_field(5, B, "Password")), "entry");
    assert_eq!(missing(s.reveal_conflict_local_field(6, A, "Password")), "conflict_payload");
    assert_eq!(missing(s.reveal_conflict_remote_field(6, A, "Password")), "conflict_payload");
}

#[test]
fn the_first_entry_met_is_the_one_found() {
    let v = vault(group(
        1,
        Vec::new(),
        vec![
            group(2, vec![entry(A, "first", "")], Vec::new()),
            group(3, vec![entry(A, "second", "")], Vec::new()),
        ],
    ));
    assert_eq!(find_entry_in_group(&v.root, A).unwrap().content.title, "first");
    assert_eq!(find_entry_parent_group(&v.root, A), Some(2));
    assert!(find_entry_in_group(&v.root, B).is_none());
    assert_eq!(find_entry_parent_group(&v.root, B), None);
    assert_eq!(reveal_conflict_field_from_vault(&v, A, "Password").unwrap(), "");
}

#[test]
fn a_log_line_shows_no_vault() {
    let (local_vault, remote_vault) = two_sided();
    let ctx = PendingConflictContext {
        payload: payload(-5),
        outcome: buckets(),
        local_vault,
        remote_vault,
    };
    assert_eq!(
        ctx.debug_text(),
        "PendingConflictContext { payload_id: -5, entry_conflicts: 1, delete_edit_conflicts: 2, .. }"
    );
}

#[test]
fn discarding_drops_both_halves() {
    let mut s = stash();
    s.discard_conflict(9);
    assert_eq!(s.pending_conflict_count(), 1);
    s.discard_conflict(5);
    assert!(s.pending_conflict(5).is_none());
    assert!(s.take_pending_conflict_context(5).is_none());
    s.discard_conflict(5);
}

fn decision(side: ConflictSide) -> Resolution {
    Resolution {
        entry_field_choices: vec![FieldChoices {
            entry: B,
            fields: vec![("Title".into(), side), ("Notes".into(), side)],
        }],
        entry_attachment_choices: vec![AttachmentChoices {
            entry: A,
            attachments: vec![("f.txt".into(), AttachmentChoice::KeepBoth)],
        }],
        entry_icon_choices: vec![(7, side)],
        delete_edit_choices: vec![(9, DeleteEditChoice::KeepLocal), (7, DeleteEditChoice::KeepLocal)],
    }
}

#[test]
fn decisions_leave_one_record_per_facet() {
    let now = Timestamp { millis: 77, nanos: 0 };
    let records = record_resolutions(&decision(ConflictSide::Local), now);
    let flat: Vec<(Uuid, ConflictKind, Option<String>)> =
        records.iter().map(|r| (r.entry, r.kind, r.key.clone())).collect();
    assert_eq!(
        flat,
        vec![
            (B, ConflictKind::Field, Some("Title".into())),
            (B, ConflictKind::Field, Some("Notes".into())),
            (A, ConflictKind::Attachment, Some("f.txt".into())),
            (7, ConflictKind::Icon, None),
        ]
    );
    assert!(records.iter().all(|r| r.resolved_at == now));
    let other = record_resolutions(&decision(ConflictSide::Remote), now);
    let same: Vec<(Uuid, ConflictKind, Option<String>)> =
        other.iter().map(|r| (r.entry, r.kind, r.key.clone())).collect();
    assert_eq!(flat, same, "records do not tell which side won");
}

#[test]
fn every_entry_decided_on_counts_once() {
    assert_eq!(resolved_entries(&decision(ConflictSide::Local)), vec![7, 9, A, B]);
}

#[test]
fn merges_are_counted() {
    let s = merge_stats(&buckets());
    assert_eq!((s.entries_added, s.entries_updated, s.entries_deleted), (1, 9, 5));
    assert_eq!((s.groups_added, s.history_pruned), (0, 0));
}
