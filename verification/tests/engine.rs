use keys_engine::codec::{uuid_to_string, Uuid};
use keys_engine::conflict_resolution::{
    ConflictSide, DeleteEditChoice, FieldChoices, MergeBuckets, MergeFault, PendingConflictContext,
    Resolution,
};
use keys_engine::conflict_rows::build_conflict;
use keys_engine::crypto::{NonceSource, SessionKey};
use keys_engine::engine::{
    ensure_fingerprint_key, history_record, keep_drawn_key, DeletedSubtree, DisconnectReason,
    Engine, EngineShared, KdbxStateSignature, SelfWriteSignature, SignatureRows, VaultState,
};
use keys_engine::error::{EngineError, IngestError, SqliteError};
use keys_engine::events::{
    ChangeEvent, ConflictPayload, EntryDeletionInfo, EntryMove, GroupDeletionInfo, GroupMove,
};
use keys_engine::file_watcher::FileWatcherEvent;
use keys_engine::meta::{MemoryProtection, Meta};
use keys_engine::meta_tables::MetaTables;
use keys_engine::mirror::Mirror;
use keys_engine::model::StrengthBucket;
use keys_engine::peer::{Classification, ResolutionRecord};
use keys_engine::properties::HeaderFacts;
use keys_engine::settings::{SettingKey, SettingTable};
use keys_engine::time::Timestamp;
use keys_engine::vault::{CustomDataItem, Entry, EntryContent, Group, Strength, Timestamps, Vault};

const NO_ROWS: SignatureRows = SignatureRows { mtime_ms: None, byte_count: None };

fn no_times() -> Timestamps {
    Timestamps {
        creation_time: None,
        last_modification_time: None,
        last_access_time: None,
        expiry_time: None,
        expires: false,
    }
}

fn content(title: &str, password: &str) -> EntryContent {
    EntryContent {
        title: title.to_string(),
        username: String::new(),
        password: password.to_string(),
        url: String::new(),
        notes: String::new(),
        tags: Vec::new(),
        times: no_times(),
        icon_id: 0,
        custom_icon_uuid: None,
        custom_fields: Vec::new(),
        custom_data: Vec::new(),
        attachments: Vec::new(),
        strength: Strength { bucket: StrengthBucket::VeryWeak, entropy: 0 },
        otpauth_url: false,
    }
}

fn entry(id: Uuid, title: &str, password: &str) -> Entry {
    Entry { id, content: content(title, password), history: Vec::new() }
}

fn group(id: Uuid, entries: Vec<Entry>, groups: Vec<Group>) -> Group {
    Group {
        id,
        name: format!("group {id}"),
        notes: String::new(),
        icon_id: 0,
        custom_icon_uuid: None,
        times: no_times(),
        entries,
        groups,
    }
}

fn meta() -> Meta {
    Meta {
        generator: "Keys".to_string(),
        database_name: "Vault".to_string(),
        database_description: String::new(),
        default_username: String::new(),
        color: String::new(),
        header_hash: String::new(),
        database_name_changed: None,
        database_description_changed: None,
        default_username_changed: None,
        recycle_bin_changed: None,
        settings_changed: None,
        master_key_changed: None,
        master_key_change_rec: -1,
        master_key_change_force: -1,
        history_max_items: 10,
        history_max_size: 6 * 1024 * 1024,
        maintenance_history_days: 365,
        memory_protection: MemoryProtection {
            protect_title: false,
            protect_username: false,
            protect_password: true,
            protect_url: false,
            protect_notes: false,
        },
        unknown_xml: Vec::new(),
        custom_icons: Vec::new(),
        custom_data: Vec::new(),
        recycle_bin_uuid: None,
        recycle_bin_enabled: false,
    }
}

fn vault(root: Group) -> Vault {
    Vault { root, meta: meta(), binaries: Vec::new(), deleted_objects: Vec::new() }
}

fn key() -> SessionKey {
    SessionKey::from_bytes([0x9c; 32])
}

fn fresh() -> Engine {
    let mut e = Engine::open(Mirror::new(), MetaTables::new(), NO_ROWS).expect("open");
    e.set_observer();
    e
}

fn facts() -> HeaderFacts {
    HeaderFacts { cipher_id: [3; 16], kdf_params: None, transform_rounds: None }
}

fn sample() -> Vault {
    let mut e = entry(10, "now", "s3cret");
    e.history = vec![content("first", "a"), content("second", "b"), content("third", "c")];
    vault(group(1, vec![e, entry(11, "other", "")], vec![group(2, Vec::new(), Vec::new())]))
}

fn filled() -> Engine {
    let mut e = fresh();
    e.ingest_from_kdbx(&sample(), &facts(), &key(), &mut NonceSource::from_os()).expect("ingest");
    e
}

fn shown(e: &mut Engine) -> Vec<String> {
    e.take_events().iter().map(|x| format!("{x:?}")).collect()
}

fn not_found<T: std::fmt::Debug>(r: Result<T, EngineError>) -> &'static str {
    match r {
        Err(EngineError::NotFound { entity }) => entity,
        other => panic!("unexpected {other:?}"),
    }
}

fn refusal<T>() -> Result<T, EngineError> {
    Err(EngineError::NotFound { entity: "entry" })
}

// ------------------------------------------------------------------ the watched file

fn changed(mtime: Option<i128>, size: Option<u64>) -> FileWatcherEvent {
    FileWatcherEvent::ContentChanged { mtime, size }
}

#[test]
fn the_echo_of_a_write_is_swallowed_once() {
    let mut s = EngineShared::new();
    s.has_trigger = true;
    s.last_self_write = Some(SelfWriteSignature { mtime: 7, size: 9 });
    assert!(!s.on_event(changed(Some(7), Some(9))));
    assert_eq!(s.pending_reconcile_calls, 0);
    assert!(s.on_event(changed(Some(7), Some(9))));
    assert_eq!(s.pending_reconcile_calls, 1);
}

#[test]
fn only_an_exact_match_is_an_echo() {
    let mut s = EngineShared::new();
    s.has_trigger = true;
    s.last_self_write = Some(SelfWriteSignature { mtime: 7, size: 9 });
    assert!(s.on_event(changed(Some(7), Some(8))));
    assert!(s.on_event(changed(Some(6), Some(9))));
    assert!(s.on_event(changed(None, Some(9))));
    assert!(s.on_event(changed(Some(7), None)));
    assert_eq!(s.pending_reconcile_calls, 4);
    assert!(s.last_self_write.is_some());
    s.has_trigger = false;
    assert!(!s.on_event(changed(None, None)));
    assert_eq!(s.pending_reconcile_calls, 5);
}

#[test]
fn the_state_follows_the_file() {
    let mut s = EngineShared::new();
    assert!(matches!(s.state, VaultState::Active));
    assert!(!s.on_event(FileWatcherEvent::Unavailable { reason: "gone".into() }));
    match &s.state {
        VaultState::Disconnected { reason: DisconnectReason::FileUnreadable(t) } => {
            assert_eq!(t, "gone")
        }
        other => panic!("unexpected {other:?}"),
    }
    assert!(!s.on_event(FileWatcherEvent::ConflictMarker { description: "x".into() }));
    assert!(matches!(s.state, VaultState::Disconnected { .. }));
    assert!(!s.on_event(FileWatcherEvent::Available));
    assert!(matches!(s.state, VaultState::Active));
}

#[test]
fn a_self_write_signature_is_consumed() {
    let mut s = EngineShared::new();
    assert!(!s.consume_self_write_signature(7, 9));
    s.last_self_write = Some(SelfWriteSignature { mtime: 7, size: 9 });
    assert!(!s.consume_self_write_signature(7, 10));
    assert!(s.consume_self_write_signature(7, 9));
    assert!(!s.consume_self_write_signature(7, 9));
}

// --------------------------------------------------------------- key and signature

#[test]
fn the_fingerprint_key_is_made_once() {
    let mut t = SettingTable::new();
    let a = ensure_fingerprint_key(&mut t).unwrap();
    assert_ne!(a, [0u8; 32]);
    assert_eq!(t.get_blob(SettingKey::FingerprintKey), Some(a.to_vec()));
    assert_eq!(ensure_fingerprint_key(&mut t).unwrap(), a);
    let mut other = SettingTable::new();
    assert_ne!(ensure_fingerprint_key(&mut other).unwrap(), a);
}

#[test]
fn a_fingerprint_key_of_the_wrong_length_is_refused() {
    let mut t = SettingTable::new();
    t.set_blob(SettingKey::FingerprintKey, vec![1; 31]);
    assert!(matches!(
        ensure_fingerprint_key(&mut t),
        Err(EngineError::Sqlite(SqliteError::WrongLength { found: 31 }))
    ));
    let mut tables = MetaTables::new();
    tables.settings = t;
    assert!(Engine::open(Mirror::new(), tables, NO_ROWS).is_err());
}

#[test]
fn fingerprints_depend_on_the_key() {
    let mut e = fresh();
    let tag = e.fingerprint(b"hunter2");
    assert_eq!(tag, e.fingerprint(b"hunter2"));
    assert_ne!(tag, e.fingerprint(b"hunter3"));
    assert_ne!(tag, fresh().fingerprint(b"hunter2"));
    e.wipe();
    assert_eq!(e.fingerprint_key, [0u8; 32]);
}

#[test]
fn the_state_signature_reads_back() {
    let mut e = fresh();
    assert_eq!(e.kdbx_state_signature(), None);
    let sig = KdbxStateSignature { mtime_ms: -5, byte_count: 77 };
    e.record_kdbx_state_signature(sig);
    assert_eq!(e.kdbx_state_signature(), Some(sig));
    e.record_kdbx_state_signature(KdbxStateSignature { mtime_ms: 0, byte_count: u64::MAX });
    assert_eq!(e.kdbx_state_signature().unwrap().byte_count, i64::MAX as u64);
    e.signature = SignatureRows { mtime_ms: Some(1), byte_count: Some(-3) };
    assert_eq!(e.kdbx_state_signature().unwrap().byte_count, 0);
    e.signature = SignatureRows { mtime_ms: Some(1), byte_count: None };
    assert_eq!(e.kdbx_state_signature(), None);
}

#[test]
fn saved_bytes_read_back() {
    let mut e = fresh();
    assert_eq!(e.last_saved_kdbx_bytes(), None);
    e.set_last_saved_kdbx_bytes(vec![1, 2, 3]);
    assert_eq!(e.last_saved_kdbx_bytes(), Some(vec![1, 2, 3]));
    e.set_last_saved_kdbx_bytes(Vec::new());
    assert_eq!(e.last_saved_kdbx_bytes(), Some(Vec::new()));
}

// --------------------------------------------------------------------- whole vaults

#[test]
fn ingesting_tells_groups_then_entries() {
    let mut e = filled();
    assert_eq!(shown(&mut e), vec!["GroupsAdded([1, 2])", "EntriesAdded([10, 11])"]);
    assert!(shown(&mut e).is_empty());
    let only_groups = vault(group(5, Vec::new(), Vec::new()));
    e.ingest_from_kdbx(&only_groups, &facts(), &key(), &mut NonceSource::from_os()).unwrap();
    assert_eq!(shown(&mut e), vec!["GroupsAdded([5])"]);
}

#[test]
fn a_refused_vault_is_not_told() {
    let mut e = filled();
    e.take_events();
    let bad = vault(group(1, vec![entry(10, "", ""), entry(10, "", "")], Vec::new()));
    assert!(e.ingest_from_kdbx(&bad, &facts(), &key(), &mut NonceSource::from_os()).is_err());
    assert!(shown(&mut e).is_empty());
    assert_eq!(e.mirror.entries.len(), 2);
}

#[test]
fn nothing_is_kept_without_an_observer() {
    let mut e = fresh();
    e.clear_observer();
    e.emit(ChangeEvent::SaveCompleted);
    assert!(shown(&mut e).is_empty());
    e.set_observer();
    e.emit(ChangeEvent::VaultLocked);
    e.emit(ChangeEvent::VaultUnlocked);
    assert_eq!(shown(&mut e), vec!["VaultLocked", "VaultUnlocked"]);
}

fn with_conflict(e: &mut Engine) {
    let payload = || ConflictPayload::new(3, Vec::new(), Vec::new());
    e.stash.stash_conflict_payload(payload());
    e.stash.stash_conflict_context(PendingConflictContext {
        payload: payload(),
        outcome: MergeBuckets {
            added_on_disk: 1,
            disk_only_changes: 2,
            local_only_changes: 3,
            entry_conflicts: 4,
            deleted_on_disk: 5,
        },
        local_vault: sample(),
        remote_vault: sample(),
    });
    for (owner, id) in [("peerB", 10), ("peerC", 10), ("peerB", 11)] {
        let c = build_conflict(owner, &entry(id, "theirs", "p"), &key(), &mut NonceSource::from_os());
        e.mirror.insert_conflict(c.unwrap()).unwrap();
    }
}

fn decision(entry: Uuid) -> Resolution {
    Resolution {
        entry_field_choices: vec![FieldChoices {
            entry,
            fields: vec![("Title".into(), ConflictSide::Remote)],
        }],
        entry_attachment_choices: Vec::new(),
        entry_icon_choices: Vec::new(),
        delete_edit_choices: vec![(99, DeleteEditChoice::KeepLocal)],
    }
}

#[test]
fn settling_a_conflict_merges_once() {
    let mut e = filled();
    with_conflict(&mut e);
    e.take_events();
    let merged = vault(group(1, vec![entry(10, "theirs", "p")], Vec::new()));
    e.apply_conflict_resolution(3, &decision(10), Ok(merged), Ok(&key()), &mut NonceSource::from_os())
        .unwrap();
    assert_eq!(e.mirror.entries.get(&10).unwrap().title, "theirs");
    assert_eq!(e.entries_with_parked_conflict(), vec![11], "both peers' rows of the entry are gone");
    assert_eq!(e.tables.settings.get_blob(SettingKey::KdbxCipherOid), Some(vec![3; 16]));
    match &e.take_events()[..] {
        [ChangeEvent::ExternalChangeMerged { applied }] => {
            assert_eq!(
                (applied.entries_added, applied.entries_updated, applied.entries_deleted),
                (1, 9, 5)
            )
        }
        other => panic!("unexpected {other:?}"),
    }
    let again = vault(group(1, Vec::new(), Vec::new()));
    let r = e.apply_conflict_resolution(3, &decision(10), Ok(again), Ok(&key()), &mut NonceSource::from_os());
    assert_eq!(not_found(r), "conflict_payload");
    assert!(e.mirror.entry_exists(10));
    assert!(shown(&mut e).is_empty());
}

#[test]
fn a_decision_that_does_not_fit_uses_up_the_conflict() {
    let mut e = filled();
    with_conflict(&mut e);
    e.take_events();
    let bad = Err(MergeFault::Mismatch("field".into()));
    let r = e.apply_conflict_resolution(3, &decision(10), bad, Ok(&key()), &mut NonceSource::from_os());
    assert!(matches!(r, Err(EngineError::ResolutionMismatch { reason }) if reason == "field"));
    assert!(e.stash.pending_conflict(3).is_none());
    assert_eq!(e.entries_with_parked_conflict(), vec![10, 11]);
    assert!(shown(&mut e).is_empty());
}

#[test]
fn a_record_that_cannot_be_added_is_reported() {
    let mut e = filled();
    with_conflict(&mut e);
    let bad = Err(MergeFault::Record("too many".into()));
    let r = e.apply_conflict_resolution(3, &decision(10), bad, Ok(&key()), &mut NonceSource::from_os());
    match r {
        Err(EngineError::Serialise(t)) => assert_eq!(t, "add_conflict_resolution: too many"),
        other => panic!("unexpected {other:?}"),
    }
    assert!(e.stash.pending_conflict(3).is_none());
}

#[test]
fn a_conflict_is_used_up_even_without_a_session_key() {
    let mut e = filled();
    with_conflict(&mut e);
    e.take_events();
    let merged = vault(group(1, vec![entry(10, "theirs", "p")], Vec::new()));
    let r = e.apply_conflict_resolution(
        3,
        &decision(10),
        Ok(merged),
        Err("locked".into()),
        &mut NonceSource::from_os(),
    );
    assert!(matches!(r, Err(EngineError::Ingest(IngestError::SessionKey(t))) if t == "locked"));
    assert!(e.stash.pending_conflict(3).is_none());
    assert_eq!(e.mirror.entries.get(&10).unwrap().title, "now");
    assert!(shown(&mut e).is_empty());
    let r = e.apply_conflict_resolution(
        4,
        &decision(10),
        Err(MergeFault::Mismatch(String::new())),
        Err("locked".into()),
        &mut NonceSource::from_os(),
    );
    assert_eq!(not_found(r), "conflict_payload");
}

#[test]
fn a_drawn_key_is_kept() {
    let mut s = SettingTable::new();
    let drawn: Vec<u8> = (0..32).collect();
    assert_eq!(keep_drawn_key(&mut s, Ok(drawn.clone())).unwrap().to_vec(), drawn);
    assert_eq!(s.get_blob(SettingKey::FingerprintKey), Some(drawn.clone()));
    assert_eq!(ensure_fingerprint_key(&mut s).unwrap().to_vec(), drawn);
    let mut s = SettingTable::new();
    let r = keep_drawn_key(&mut s, Err("no entropy".into()));
    assert!(matches!(r, Err(EngineError::Random(t)) if t == "no entropy"));
    assert_eq!(s.get_blob(SettingKey::FingerprintKey), None);
    let a = ensure_fingerprint_key(&mut SettingTable::new()).unwrap();
    let b = ensure_fingerprint_key(&mut SettingTable::new()).unwrap();
    assert_ne!(a, b);
}

#[test]
fn a_marker_can_be_cleared() {
    let mut e = filled();
    with_conflict(&mut e);
    assert_eq!(e.entries_with_parked_conflict(), vec![10, 11]);
    assert_eq!(e.clear_parked_conflict_marker(10), 2);
    assert_eq!(e.entries_with_parked_conflict(), vec![11]);
    assert_eq!(e.clear_parked_conflict_marker(10), 0);
}

// ----------------------------------------------------------------------- properties

#[test]
fn the_bin_is_moved_and_cleared() {
    let mut e = filled();
    e.take_events();
    assert_eq!(e.recycle_bin_uuid(), None);
    e.set_recycle_bin(true, Some(2)).unwrap();
    assert_eq!(e.recycle_bin_uuid(), Some(uuid_to_string(2)));
    assert!(e.recycle_bin_enabled());
    e.set_recycle_bin(true, Some(1)).unwrap();
    assert_eq!(e.recycle_bin_uuid(), Some(uuid_to_string(1)));
    assert!(!e.mirror.groups.get(&2).unwrap().is_recycle_bin);
    e.take_events();
    e.set_recycle_bin(false, None).unwrap();
    assert_eq!(e.recycle_bin_uuid(), None);
    assert!(!e.recycle_bin_enabled());
    assert_eq!(e.take_events().len(), 1);
}

#[test]
fn history_caps_can_be_set() {
    let mut e = fresh();
    assert_eq!(e.history_max_items().unwrap(), 10);
    assert_eq!(e.history_max_size().unwrap(), 6 * 1024 * 1024);
    e.set_history_max_items(-1);
    e.set_history_max_size(5);
    assert_eq!(e.history_max_items().unwrap(), -1);
    assert_eq!(e.history_max_size().unwrap(), 5);
    assert_eq!(
        shown(&mut e),
        vec![
            "MetaUpdated { keys: [\"meta.history_max_items\"] }",
            "MetaUpdated { keys: [\"meta.history_max_size\"] }"
        ]
    );
}

#[test]
fn a_new_icon_is_told_once() {
    let mut e = fresh();
    let id = e.add_custom_icon(b"png", 5).unwrap();
    assert_eq!(shown(&mut e), vec!["MetaUpdated { keys: [\"meta.custom_icons\"] }"]);
    assert_eq!(e.add_custom_icon(b"png", 6).unwrap(), id);
    assert!(shown(&mut e).is_empty());
    let uuid = uuid::Uuid::parse_str(&id).unwrap().as_u128();
    assert_eq!(e.custom_icon_bytes(uuid), Some(b"png".to_vec()));
    assert_eq!(e.custom_icon_bytes(uuid + 1), None);
}

#[test]
fn metadata_is_shown() {
    let mut e = filled();
    let d = e.database_metadata(None, None).unwrap();
    assert_eq!((d.generator.as_str(), d.cipher_display.as_str()), ("Keys", "Unknown"));
    e.tables.settings.set_blob(SettingKey::KdbxTransformRounds, vec![1]);
    assert!(e.database_metadata(None, None).is_err());
}

// -------------------------------------------------------------------------- history

#[test]
fn deleting_a_history_record_moves_the_later_ones_up() {
    let mut e = filled();
    e.take_events();
    let stone = |v: &str| CustomDataItem {
        key: "stone".into(),
        value: v.into(),
        last_modified: Some(Timestamp { millis: 4, nanos: 0 }),
    };
    e.delete_history_at(10, 1, Some(&stone("one"))).unwrap();
    let titles = |e: &Engine| -> Vec<String> {
        e.mirror.entries.get(&10).unwrap().history.iter().map(|h| h.title.clone()).collect()
    };
    assert_eq!(titles(&e), vec!["first", "third"]);
    e.delete_history_at(10, 0, Some(&stone("two"))).unwrap();
    assert_eq!(titles(&e), vec!["third"]);
    let data = &e.mirror.entries.get(&10).unwrap().custom_data;
    assert_eq!(data.len(), 1, "the tombstones are one item");
    assert_eq!((data[0].value.as_str(), data[0].last_modified_at), ("two", Some(4)));
    assert_eq!(e.mirror.entries.get(&10).unwrap().title, "now");
    assert_eq!(shown(&mut e), vec!["EntriesUpdated([10])", "EntriesUpdated([10])"]);
    assert_eq!(not_found(e.delete_history_at(10, 1, None)), "history_snapshot");
    assert_eq!(not_found(e.delete_history_at(77, 0, None)), "entry");
    assert!(shown(&mut e).is_empty());
}

#[test]
fn the_record_to_delete_is_looked_up() {
    let v = sample();
    let (found, i) = history_record(&v, 10, 2).unwrap();
    assert_eq!((found.content.title.as_str(), i), ("now", 2));
    assert_eq!(found.history[i].title, "third");
    assert_eq!(not_found(history_record(&v, 10, 3)), "history_snapshot");
    assert_eq!(not_found(history_record(&v, 77, 0)), "entry");
}

// -------------------------------------------------------------------- small changes

#[test]
fn touching_changes_only_the_last_use() {
    let mut e = filled();
    e.take_events();
    let modified = e.mirror.entries.get(&10).unwrap().modified_at;
    e.touch_entry(10, 99).unwrap();
    let r = e.mirror.entries.get(&10).unwrap();
    assert_eq!((r.last_used_at, r.modified_at, r.history.len()), (Some(99), modified, 3));
    e.clear_entry_last_access(10).unwrap();
    assert_eq!(e.mirror.entries.get(&10).unwrap().last_used_at, None);
    e.link_entry_custom_icon(10, 77).unwrap();
    let r = e.mirror.entries.get(&10).unwrap();
    assert_eq!((r.icon_custom_uuid, r.modified_at, r.history.len()), (Some(77), modified, 3));
    assert_eq!(
        shown(&mut e),
        vec!["EntryTouched { uuid: 10 }", "EntriesUpdated([10])", "EntriesUpdated([10])"]
    );
    assert_eq!(not_found(e.touch_entry(5, 1)), "entry");
    assert_eq!(not_found(e.clear_entry_last_access(5)), "entry");
    assert_eq!(not_found(e.link_entry_custom_icon(5, 1)), "entry");
    assert!(shown(&mut e).is_empty());
    assert_eq!(e.mirror.entries.len(), 2);
}

#[test]
fn the_engine_shows_its_shared_state() {
    let mut e = fresh();
    assert!(matches!(e.state(), VaultState::Active));
    assert_eq!(e.last_self_write(), None);
    e.set_last_self_write(SelfWriteSignature { mtime: 7, size: 9 });
    assert_eq!(e.last_self_write(), Some(SelfWriteSignature { mtime: 7, size: 9 }));
    assert!(!e.consume_self_write_signature(8, 9));
    assert!(e.consume_self_write_signature(7, 9));
    e.set_reconcile_trigger();
    assert!(e.shared.on_event(changed(None, None)));
    e.clear_reconcile_trigger();
    assert!(!e.shared.on_event(changed(None, None)));
    assert_eq!(e.pending_reconcile_calls_for_test(), 2);
}

#[test]
fn the_engine_shows_its_conflicts() {
    let mut e = filled();
    with_conflict(&mut e);
    assert_eq!(e.pending_conflict_count_for_test(), 1);
    assert_eq!(e.pending_conflict(3).unwrap().id, 3);
    assert!(e.pending_conflict_parent_groups(3).unwrap().is_empty());
    assert_eq!(e.reveal_conflict_local_field(3, 10, "Password").unwrap(), "s3cret");
    assert_eq!(not_found(e.reveal_conflict_remote_field(4, 10, "Password")), "conflict_payload");
    assert_eq!(e.parked_conflict_uuids_from_rows(), vec![10, 11]);
    e.discard_conflict(3);
    assert!(e.pending_conflict(3).is_none());
}

#[test]
fn a_failed_pull_leaves_the_engine_as_it_was() {
    let mut e = filled();
    let mut theirs = entry(20, "new", "");
    theirs.content.custom_data = vec![
        CustomDataItem { key: "k".into(), value: "1".into(), last_modified: None },
        CustomDataItem { key: "k".into(), value: "2".into(), last_modified: None },
    ];
    let peer = vault(group(1, vec![entry(21, "fine", ""), theirs], Vec::new()));
    let verdicts = || vec![Classification::InSync, Classification::InSync];
    let none: Vec<ResolutionRecord> = Vec::new();
    let before = format!("{:?}", e.mirror);
    let r = e.ingest_peer(
        "peerB", &sample(), &peer, &none, &none, &verdicts(), &key(), &mut NonceSource::from_os(),
    );
    assert!(r.is_err());
    assert_eq!(format!("{:?}", e.mirror), before);
    let good = vault(group(1, vec![entry(21, "fine", ""), entry(22, "also", "")], Vec::new()));
    let r = e.ingest_peer(
        "peerB", &sample(), &good, &none, &none, &verdicts(), &key(), &mut NonceSource::from_os(),
    );
    assert_eq!(r.unwrap().added, vec![21, 22]);
    assert!(e.mirror.entry_exists(21) && e.mirror.entry_exists(10));
}

// ---------------------------------------------------------------------- told changes

#[test]
fn changes_of_entries_are_told() {
    let mut e = fresh();
    assert_eq!(e.create_entry(Ok(7)).unwrap(), 7);
    e.update_entry(7, Ok(())).unwrap();
    e.save_entry(7, Ok(())).unwrap();
    e.set_non_protected_custom_field(7, Ok(())).unwrap();
    e.remove_custom_field(7, Ok(())).unwrap();
    e.restore_entry_from_history(7, Ok(())).unwrap();
    e.clear_entry_custom_icon(7, Ok(())).unwrap();
    let told = shown(&mut e);
    assert_eq!(told[0], "EntriesAdded([7])");
    assert_eq!(told.len(), 7);
    assert!(told[1..].iter().all(|t| t == "EntriesUpdated([7])"));
    e.recycle_entry(7, Ok(())).unwrap();
    e.restore_entry(7, Ok(())).unwrap();
    e.attach_file(7, Ok(())).unwrap();
    e.set_attachment(7, Ok(())).unwrap();
    e.remove_attachment(7, Ok(())).unwrap();
    e.set_protected_field(7, "Password", Ok(())).unwrap();
    e.move_entry(Ok(EntryMove { uuid: 7, from_group: 1, to_group: 2 })).unwrap();
    e.delete_entry(7, Ok(2)).unwrap();
    assert_eq!(
        shown(&mut e),
        vec![
            "EntriesRecycled([7])",
            "EntriesRestored([7])",
            "AttachmentsChanged([7])",
            "AttachmentsChanged([7])",
            "AttachmentsChanged([7])",
            "ProtectedFieldChanged { entry_uuid: 7, field_name: \"Password\" }",
            "EntriesMoved([EntryMove { uuid: 7, from_group: 1, to_group: 2 }])",
            "EntriesDeleted([EntryDeletionInfo { uuid: 7, previous_group: 2 }])",
        ]
    );
}

#[test]
fn setting_tags_is_told_as_tags() {
    let mut e = fresh();
    e.set_tags(7, Ok(())).unwrap();
    let told = shown(&mut e);
    assert!(told.contains(&"TagsChanged([7])".to_string()), "{told:?}");
}

#[test]
fn changes_of_groups_are_told() {
    let mut e = fresh();
    assert_eq!(e.create_group(Ok(3)).unwrap(), 3);
    e.update_group(3, Ok(())).unwrap();
    e.recycle_group(3, Ok(())).unwrap();
    e.restore_group(3, Ok(())).unwrap();
    e.reorder_group(Ok(vec![4, 3])).unwrap();
    e.move_group(Ok(GroupMove { uuid: 3, from_parent: 1, to_parent: 2 })).unwrap();
    assert_eq!(
        shown(&mut e),
        vec![
            "GroupsAdded([3])",
            "GroupsUpdated([3])",
            "GroupsRecycled([3])",
            "GroupsRestored([3])",
            "GroupsReordered([4, 3])",
            "GroupsMoved([GroupMove { uuid: 3, from_parent: 1, to_parent: 2 }])",
        ]
    );
}

#[test]
fn a_deleted_group_takes_its_entries_along() {
    let mut e = fresh();
    let groups = || vec![GroupDeletionInfo { uuid: 3, previous_parent: None }];
    let entries = vec![EntryDeletionInfo { uuid: 7, previous_group: 3 }];
    e.delete_group(Ok(DeletedSubtree { deleted_entries: entries, deleted_groups: groups() })).unwrap();
    e.delete_group(Ok(DeletedSubtree { deleted_entries: Vec::new(), deleted_groups: groups() }))
        .unwrap();
    let told = e.take_events();
    assert!(matches!(told[0], ChangeEvent::EntriesDeleted(_)));
    assert!(matches!(told[1], ChangeEvent::GroupsDeleted(_)));
    assert!(matches!(told[2], ChangeEvent::GroupsDeleted(_)));
    assert_eq!(told.len(), 3);
}

#[test]
fn smart_folders_and_saves_are_told() {
    let mut e = fresh();
    assert_eq!(e.create_smart_folder(Ok(8)).unwrap(), 8);
    e.update_smart_folder(8, Ok(())).unwrap();
    e.delete_smart_folder(8, Ok(())).unwrap();
    e.save_to_kdbx(Ok(())).unwrap();
    assert_eq!(
        shown(&mut e),
        vec!["SmartFolderCreated(8)", "SmartFolderUpdated(8)", "SmartFolderDeleted(8)", "SaveCompleted"]
    );
}

#[test]
fn an_import_tells_its_icon_if_new() {
    let mut e = fresh();
    assert_eq!(e.import_entry(Ok((7, false))).unwrap(), 7);
    assert_eq!(shown(&mut e), vec!["EntriesAdded([7])"]);
    e.import_entry(Ok((8, true))).unwrap();
    assert_eq!(
        shown(&mut e),
        vec!["EntriesAdded([8])", "MetaUpdated { keys: [\"meta.custom_icons\"] }"]
    );
}

#[test]
fn a_bin_is_told_only_where_it_was_made() {
    let mut e = fresh();
    let id = || Ok(Some(uuid_to_string(9)));
    assert_eq!(e.ensure_recycle_bin(true, id()).unwrap(), Some(uuid_to_string(9)));
    assert!(shown(&mut e).is_empty());
    e.ensure_recycle_bin(false, id()).unwrap();
    assert_eq!(shown(&mut e), vec!["GroupsAdded([9])"]);
    assert_eq!(e.ensure_recycle_bin(false, Ok(None)).unwrap(), None);
    e.ensure_recycle_bin(false, Ok(Some("nonsense".into()))).unwrap();
    assert!(e.ensure_recycle_bin(false, refusal()).is_err());
    assert!(shown(&mut e).is_empty());
}

#[test]
fn what_failed_is_not_told() {
    let mut e = fresh();
    assert_eq!(not_found(e.create_entry(refusal())), "entry");
    assert_eq!(not_found(e.update_entry(7, refusal())), "entry");
    assert_eq!(not_found(e.set_tags(7, refusal())), "entry");
    assert_eq!(not_found(e.set_protected_field(7, "x", refusal())), "entry");
    assert_eq!(not_found(e.delete_entry(7, refusal())), "entry");
    assert_eq!(not_found(e.move_entry(refusal())), "entry");
    assert_eq!(not_found(e.delete_group(refusal())), "entry");
    assert_eq!(not_found(e.reorder_group(refusal())), "entry");
    assert_eq!(not_found(e.create_smart_folder(refusal())), "entry");
    assert_eq!(not_found(e.import_entry(refusal())), "entry");
    assert_eq!(not_found(e.save_to_kdbx(refusal())), "entry");
    assert!(shown(&mut e).is_empty());
}
