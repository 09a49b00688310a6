use keys_engine::codec::{b64_decode, uuid_to_string, Uuid};
use keys_engine::crypto::{unwrap_with_session_key, NonceSource, SessionKey};
use keys_engine::error::{EngineError, SqliteError};
use keys_engine::history_snapshot::HistorySnapshotIo;
use keys_engine::ingest::{ingest, ingest_vault};
use keys_engine::meta::{MemoryProtection, Meta};
use keys_engine::meta_tables::MetaTables;
use keys_engine::mirror::{EntryRecord, Mirror};
use keys_engine::model::StrengthBucket;
use keys_engine::properties::{read_kdf_display, read_recycle_bin_enabled, read_recycle_bin_uuid, HeaderFacts};
use keys_engine::settings::SettingKey;
use keys_engine::text::hex_encode;
use keys_engine::time::Timestamp;
use keys_engine::vault::{
    Attachment, CustomDataItem, CustomField, DeletedObject, Entry, EntryContent, Group, Strength,
    Timestamps, Vault,
};
use sha2::Digest;

const FP: [u8; 32] = [0x11; 32];

fn no_times() -> Timestamps {
    Timestamps {
        creation_time: None,
        last_modification_time: None,
        last_access_time: None,
        expiry_time: None,
        expires: false,
    }
}

fn content(title: &str, password: &str) -> EntryContent {
    EntryContent {
        title: title.to_string(),
        username: String::new(),
        password: password.to_string(),
        url: String::new(),
        notes: String::new(),
        tags: Vec::new(),
        times: no_times(),
        icon_id: 0,
        custom_icon_uuid: None,
        custom_fields: Vec::new(),
        custom_data: Vec::new(),
        attachments: Vec::new(),
        strength: Strength { bucket: StrengthBucket::VeryWeak, entropy: 0 },
        otpauth_url: false,
    }
}

fn entry(id: Uuid, title: &str, password: &str) -> Entry {
    Entry { id, content: content(title, password), history: Vec::new() }
}

fn group(id: Uuid, entries: Vec<Entry>, groups: Vec<Group>) -> Group {
    Group {
        id,
        name: format!("group {id}"),
        notes: String::new(),
        icon_id: 0,
        custom_icon_uuid: None,
        times: no_times(),
        entries,
        groups,
    }
}

fn meta() -> Meta {
    Meta {
        generator: "Keys".to_string(),
        database_name: "Vault".to_string(),
        database_description: String::new(),
        default_username: String::new(),
        color: String::new(),
        header_hash: String::new(),
        database_name_changed: None,
        database_description_changed: None,
        default_username_changed: None,
        recycle_bin_changed: None,
        settings_changed: None,
        master_key_changed: None,
        master_key_change_rec: -1,
        master_key_change_force: -1,
        history_max_items: 10,
        history_max_size: 6 * 1024 * 1024,
        maintenance_history_days: 365,
        memory_protection: MemoryProtection {
            protect_title: false,
            protect_username: false,
            protect_password: true,
            protect_url: false,
            protect_notes: false,
        },
        unknown_xml: Vec::new(),
        custom_icons: Vec::new(),
        custom_data: Vec::new(),
        recycle_bin_uuid: None,
        recycle_bin_enabled: false,
    }
}

fn vault(root: Group) -> Vault {
    Vault { root, meta: meta(), binaries: Vec::new(), deleted_objects: Vec::new() }
}

fn key() -> SessionKey {
    SessionKey::from_bytes([0x9c; 32])
}

fn written(v: &Vault) -> (Mirror, MetaTables) {
    let mut m = Mirror::new();
    let mut t = MetaTables::new();
    ingest_vault(&mut m, &mut t, &FP, &key(), &mut NonceSource::from_os(), v).expect("ingest");
    (m, t)
}

fn refused(v: &Vault) -> EngineError {
    let (mut m, mut t) = written(&vault(group(1, vec![entry(2, "kept", "")], Vec::new())));
    let r = ingest_vault(&mut m, &mut t, &FP, &key(), &mut NonceSource::from_os(), v);
    assert!(m.entry_exists(2), "a refused vault changes nothing");
    assert_eq!(m.groups.len(), 1);
    r.err().expect("refused")
}

fn is_constraint(e: &EngineError) -> bool {
    matches!(e, EngineError::Sqlite(SqliteError::Constraint))
}

fn record(m: &Mirror, id: Uuid) -> &EntryRecord {
    m.entries.get(&id).expect("record")
}

fn opened(r: &EntryRecord, field: &str) -> Vec<u8> {
    let row = r.fields.protected.iter().find(|p| p.field_name == field).expect("sealed row");
    unwrap_with_session_key(&key(), &row.wrapped_blob).expect("open")
}

fn field(key: &str, value: &str, protected: bool) -> CustomField {
    CustomField { key: key.to_string(), value: value.to_string(), protected, totp_key: false }
}

fn at(ms: i64) -> Option<Timestamp> {
    Some(Timestamp { millis: ms, nanos: 0 })
}

fn facts() -> HeaderFacts {
    HeaderFacts { cipher_id: [3; 16], kdf_params: None, transform_rounds: Some(6_000_000) }
}

#[test]
fn groups_and_entries_come_out_in_walk_order() {
    let v = vault(group(
        1,
        vec![entry(10, "a", "")],
        vec![
            group(2, vec![entry(20, "b", ""), entry(21, "c", "")], vec![group(3, vec![entry(30, "d", "")], Vec::new())]),
            group(4, vec![entry(40, "e", "")], Vec::new()),
        ],
    ));
    let mut m = Mirror::new();
    let mut t = MetaTables::new();
    let out = ingest_vault(&mut m, &mut t, &FP, &key(), &mut NonceSource::from_os(), &v).unwrap();
    assert_eq!(out.group_uuids, vec![1, 2, 3, 4]);
    assert_eq!(out.entry_uuids, vec![10, 20, 21, 30, 40]);
    let row = m.groups.get(&3).unwrap();
    assert_eq!(row.parent_uuid, Some(2));
    assert_eq!(m.groups.get(&4).unwrap().sort_order, 1);
    assert_eq!(m.groups.get(&1).unwrap().parent_uuid, None);
    assert_eq!(record(&m, 30).group_uuid, 3);
}

#[test]
fn an_entry_gives_all_its_rows() {
    let mut c = content("Acme", "s3cret");
    c.username = "bob".to_string();
    c.url = "https://Login.Example.COM/x".to_string();
    c.notes = "n".to_string();
    c.tags = vec![" work ".to_string(), "".to_string(), "home".to_string(), "work".to_string()];
    c.times.creation_time = at(1);
    c.times.last_modification_time = at(2);
    c.times.last_access_time = at(3);
    c.times.expiry_time = at(4);
    c.times.expires = true;
    c.icon_id = 5;
    c.custom_icon_uuid = Some(6);
    c.strength = Strength { bucket: StrengthBucket::Strong, entropy: 60.5f64.to_bits() };
    c.custom_fields = vec![field("Token", "t0k", true), field("Site", "example", false), field("Password", "x", true)];
    c.custom_data = vec![CustomDataItem { key: "k".into(), value: "v".into(), last_modified: at(9) }];
    c.attachments = vec![
        Attachment { name: "a.txt".into(), ref_id: 0 },
        Attachment { name: "b.txt".into(), ref_id: 9 },
        Attachment { name: "c.txt".into(), ref_id: 0 },
    ];
    let mut v = vault(group(1, vec![Entry { id: 10, content: c, history: Vec::new() }], Vec::new()));
    v.binaries = vec![b"hello".to_vec()];
    let (m, _) = written(&v);
    let r = record(&m, 10);
    assert_eq!(r.title, "Acme");
    assert_eq!(r.url_host, "login.example.com");
    assert_eq!((r.created_at, r.modified_at, r.accessed_at), (1, 2, 3));
    assert_eq!(r.last_used_at, Some(3));
    assert_eq!(r.expires_at, Some(4));
    assert_eq!(r.icon_index, 5);
    assert_eq!(r.icon_custom_uuid, Some(6));
    assert_eq!(r.password_strength_bucket, 3);
    assert_eq!(f64::from_bits(r.password_entropy), 60.5);
    assert_eq!(r.tags, vec!["work", "home"]);
    assert_eq!(m.tags, vec!["work", "home"]);
    assert_eq!(opened(r, "Password"), b"s3cret");
    assert_eq!(opened(r, "Token"), b"t0k");
    assert_eq!(r.fields.protected.len(), 2);
    assert_eq!(r.fields.plain.len(), 1);
    assert_eq!(r.fields.plain[0].value, "example");
    assert_eq!(r.custom_data[0].last_modified_at, Some(9));
    let names: Vec<&str> = r.attachments.iter().map(|a| a.attachment_name.as_str()).collect();
    assert_eq!(names, vec!["a.txt", "c.txt"]);
    assert_eq!(m.blobs.len(), 1);
    assert_eq!(m.blobs[0].size, 5);
    assert_eq!(m.blobs[0].sha256, sha2::Sha256::digest(b"hello").to_vec());
    let tag = keys_engine::fingerprint::fingerprint(&FP, b"s3cret");
    assert_eq!(r.password_fingerprint, Some(tag.to_vec()));
    assert!(!r.has_totp && !r.is_recycled);
}

#[test]
fn an_empty_password_has_no_fingerprint_but_a_slot() {
    let (m, _) = written(&vault(group(1, vec![entry(10, "a", "")], Vec::new())));
    let r = record(&m, 10);
    assert_eq!(r.password_fingerprint, None);
    assert_eq!(opened(r, "Password"), b"");
    assert_eq!((r.created_at, r.last_used_at, r.expires_at), (0, None, None));
}

#[test]
fn an_expiry_not_in_force_is_not_stored() {
    let mut e = entry(10, "a", "");
    e.content.times.expiry_time = at(4);
    let (m, _) = written(&vault(group(1, vec![e], Vec::new())));
    assert_eq!(record(&m, 10).expires_at, None);
}

#[test]
fn one_time_passwords_are_marked() {
    let mut by_url = entry(10, "a", "");
    by_url.content.otpauth_url = true;
    let mut by_field = entry(11, "b", "");
    by_field.content.custom_fields = vec![CustomField {
        key: "otp".into(),
        value: "x".into(),
        protected: true,
        totp_key: true,
    }];
    let (m, _) = written(&vault(group(1, vec![by_url, by_field, entry(12, "c", "")], Vec::new())));
    assert!(record(&m, 10).has_totp);
    assert!(record(&m, 11).has_totp);
    assert!(!record(&m, 12).has_totp);
}

#[test]
fn history_is_sealed_and_reads_back() {
    let mut e = entry(10, "now", "new");
    let mut old = content("then", "old");
    old.tags = vec!["t".into()];
    old.url = "https://Old.example/".into();
    old.custom_fields = vec![field("Token", "a", true), field("Site", "s", false), field("Token", "b", true)];
    old.attachments = vec![Attachment { name: "f".into(), ref_id: 0 }, Attachment { name: "g".into(), ref_id: 5 }];
    old.strength = Strength { bucket: StrengthBucket::Weak, entropy: 7 };
    e.history = vec![old];
    let mut v = vault(group(1, vec![e], Vec::new()));
    v.binaries = vec![b"hello".to_vec()];
    let (m, _) = written(&v);
    let h: &HistorySnapshotIo = &record(&m, 10).history[0];
    assert_eq!(h.title, "then");
    assert_eq!(h.url_host, "old.example");
    assert_eq!(h.tags, vec!["t"]);
    assert_eq!(h.password_strength_bucket, Some(1));
    let sealed = b64_decode(&h.password).unwrap();
    assert_eq!(unwrap_with_session_key(&key(), &sealed).unwrap(), b"old");
    let token = h.custom_fields.iter().find(|f| f.key == "Token").unwrap();
    assert!(token.protected);
    let sealed = b64_decode(&token.value).unwrap();
    assert_eq!(unwrap_with_session_key(&key(), &sealed).unwrap(), b"b");
    assert_eq!(h.custom_fields.len(), 2);
    let site = h.custom_fields.iter().find(|f| f.key == "Site").unwrap();
    assert_eq!((site.value.as_str(), site.protected), ("s", false));
    assert_eq!(h.attachments[0].size, 5);
    assert_eq!(h.attachments[0].sha256_hex, hex_encode(&sha2::Sha256::digest(b"hello")));
    assert_eq!(h.attachments[1].size, 0);
    assert_eq!(h.attachments[1].sha256_hex, hex_encode(&sha2::Sha256::digest(b"")));
}

#[test]
fn past_values_take_a_nonce_each() {
    let mut old = content("then", "old");
    old.custom_fields =
        vec![field("A", "1", true), field("Site", "s", false), field("B", "2", true), field("A", "3", true)];
    let mut nonces = NonceSource { drawn: vec![[1; 12], [2; 12], [3; 12], [4; 12]] };
    let h = HistorySnapshotIo::from_entry(&old, &key(), &mut nonces, &Vec::new()).expect("record");
    assert_eq!(nonces.drawn, vec![[1; 12]]);
    let sealed: Vec<Vec<u8>> = h
        .custom_fields
        .iter()
        .filter(|f| f.protected)
        .map(|f| b64_decode(&f.value).unwrap())
        .collect();
    assert_eq!(sealed[0][..12], [4; 12]);
    assert_eq!(sealed[1][..12], [3; 12]);
    assert_eq!(b64_decode(&h.password).unwrap()[..12], [2; 12]);
    let opened: Vec<Vec<u8>> =
        sealed.iter().map(|b| unwrap_with_session_key(&key(), b).unwrap()).collect();
    assert!(opened.contains(&b"2".to_vec()) && opened.contains(&b"3".to_vec()));
}

#[test]
fn a_pass_takes_nonces_in_walk_order() {
    let mut e = entry(10, "now", "same");
    e.content.custom_fields = vec![field("Token", "same", true)];
    let mut old = content("then", "same");
    old.custom_fields = vec![field("Token", "same", true)];
    e.history = vec![old];
    let v = vault(group(1, vec![e, entry(11, "", "")], Vec::new()));
    let mut nonces = NonceSource { drawn: (1..=7).map(|n| [n; 12]).collect() };
    let mut m = Mirror::new();
    let mut t = MetaTables::new();
    ingest_vault(&mut m, &mut t, &FP, &key(), &mut nonces, &v).expect("ingest");
    assert_eq!(nonces.drawn, vec![[1; 12], [2; 12]]);
    let mut blobs: Vec<Vec<u8>> = Vec::new();
    for id in [10, 11] {
        let r = record(&m, id);
        blobs.extend(r.fields.protected.iter().map(|p| p.wrapped_blob.clone()));
        for h in &r.history {
            blobs.extend(h.custom_fields.iter().map(|f| b64_decode(&f.value).unwrap()));
            blobs.push(b64_decode(&h.password).unwrap());
        }
    }
    let heads: Vec<u8> = blobs.iter().map(|b| b[0]).collect();
    assert_eq!(heads, vec![7, 6, 5, 4, 3]);
    for i in 0..blobs.len() {
        assert!(!blobs[..i].contains(&blobs[i]), "no two blobs of a pass are the same");
    }
}

#[test]
fn what_lies_under_the_bin_is_recycled() {
    let mut v = vault(group(
        1,
        vec![entry(10, "a", "")],
        vec![group(2, vec![entry(20, "b", "")], vec![group(3, vec![entry(30, "c", "")], Vec::new())])],
    ));
    v.meta.recycle_bin_uuid = Some(2);
    v.meta.recycle_bin_enabled = true;
    let (m, t) = written(&v);
    assert!(!record(&m, 10).is_recycled);
    assert!(record(&m, 20).is_recycled);
    assert!(record(&m, 30).is_recycled);
    assert_eq!(read_recycle_bin_uuid(&m), Some(2));
    assert!(read_recycle_bin_enabled(&t.settings, &m));
    assert!(!m.groups.get(&3).unwrap().is_recycle_bin);
}

#[test]
fn an_enabled_bin_without_a_group_stays_enabled() {
    let mut v = vault(group(1, Vec::new(), Vec::new()));
    v.meta.recycle_bin_enabled = true;
    let (m, t) = written(&v);
    assert_eq!(read_recycle_bin_uuid(&m), None);
    assert!(read_recycle_bin_enabled(&t.settings, &m));
}

#[test]
fn writing_replaces_everything() {
    let first = vault(group(1, vec![entry(10, "a", "x")], vec![group(2, Vec::new(), Vec::new())]));
    let second = vault(group(5, vec![entry(50, "z", "y")], Vec::new()));
    let (mut m, mut t) = written(&first);
    ingest_vault(&mut m, &mut t, &FP, &key(), &mut NonceSource::from_os(), &second).unwrap();
    assert!(!m.entry_exists(10) && !m.group_exists(1) && !m.group_exists(2));
    assert!(m.entry_exists(50) && m.group_exists(5));
    ingest_vault(&mut m, &mut t, &FP, &key(), &mut NonceSource::from_os(), &second).unwrap();
    assert_eq!((m.entries.len(), m.groups.len()), (1, 1));
}

#[test]
fn settings_that_are_no_metadata_survive() {
    let v = vault(group(1, Vec::new(), Vec::new()));
    let (mut m, mut t) = written(&v);
    t.settings.set_blob(SettingKey::FingerprintKey, vec![1; 32]);
    t.settings.set_blob(SettingKey::LastSavedKdbxBytes, vec![2]);
    ingest(&mut m, &mut t, &FP, &key(), &mut NonceSource::from_os(), &v, &facts()).unwrap();
    assert_eq!(t.settings.get_blob(SettingKey::FingerprintKey), Some(vec![1; 32]));
    assert_eq!(t.settings.get_blob(SettingKey::LastSavedKdbxBytes), Some(vec![2]));
}

#[test]
fn the_envelope_stays_unless_given() {
    let v = vault(group(1, Vec::new(), Vec::new()));
    let (mut m, mut t) = written(&v);
    assert_eq!(read_kdf_display(&t.settings, None).unwrap(), "Unknown KDF");
    ingest(&mut m, &mut t, &FP, &key(), &mut NonceSource::from_os(), &v, &facts()).unwrap();
    assert_eq!(read_kdf_display(&t.settings, None).unwrap(), "AES-KDF (6,000,000 rounds)");
    ingest_vault(&mut m, &mut t, &FP, &key(), &mut NonceSource::from_os(), &v).unwrap();
    assert_eq!(read_kdf_display(&t.settings, None).unwrap(), "AES-KDF (6,000,000 rounds)");
    assert_eq!(t.settings.get_blob(SettingKey::KdbxCipherOid), Some(vec![3; 16]));
    let newer = HeaderFacts { cipher_id: [4; 16], kdf_params: Some(vec![9]), transform_rounds: None };
    ingest(&mut m, &mut t, &FP, &key(), &mut NonceSource::from_os(), &v, &newer).unwrap();
    assert_eq!(t.settings.get_blob(SettingKey::KdbxTransformRounds), None);
    assert_eq!(t.settings.get_blob(SettingKey::KdbxKdfParameters), Some(vec![9]));
}

#[test]
fn tombstones_are_stored() {
    let mut v = vault(group(1, Vec::new(), Vec::new()));
    v.deleted_objects = vec![
        DeletedObject { uuid: 5, deleted_at: at(7) },
        DeletedObject { uuid: 6, deleted_at: None },
    ];
    let (m, _) = written(&v);
    assert_eq!(m.tombstones.get(&5), Some(&Some(7)));
    assert_eq!(m.tombstones.get(&6), Some(&None));
}

#[test]
fn collisions_are_refused() {
    let twice = vault(group(1, vec![entry(10, "a", ""), entry(10, "b", "")], Vec::new()));
    assert!(is_constraint(&refused(&twice)));
    let groups = vault(group(1, Vec::new(), vec![group(1, Vec::new(), Vec::new())]));
    assert!(is_constraint(&refused(&groups)));
    let mut tombs = vault(group(1, Vec::new(), Vec::new()));
    tombs.deleted_objects = vec![
        DeletedObject { uuid: 5, deleted_at: None },
        DeletedObject { uuid: 5, deleted_at: at(1) },
    ];
    assert!(is_constraint(&refused(&tombs)));
    let mut fields = entry(10, "a", "");
    fields.content.custom_fields = vec![field("x", "1", true), field("x", "2", true)];
    assert!(is_constraint(&refused(&vault(group(1, vec![fields], Vec::new())))));
    let mut data = entry(10, "a", "");
    let item = |v: &str| CustomDataItem { key: "k".into(), value: v.into(), last_modified: None };
    data.content.custom_data = vec![item("1"), item("2")];
    assert!(is_constraint(&refused(&vault(group(1, vec![data], Vec::new())))));
}

#[test]
fn a_sealed_and_a_plain_field_may_share_a_name() {
    let mut e = entry(10, "a", "");
    e.content.custom_fields = vec![field("x", "1", true), field("x", "2", false), field("Password", "p", false)];
    let (m, _) = written(&vault(group(1, vec![e], Vec::new())));
    let r = record(&m, 10);
    assert_eq!(opened(r, "x"), b"1");
    assert_eq!(r.fields.plain.len(), 2);
}

#[test]
fn held_conflicts_survive_a_write() {
    let v = vault(group(1, vec![entry(10, "a", "")], Vec::new()));
    let (mut m, mut t) = written(&v);
    let held = keys_engine::conflict_rows::build_conflict(
        "peerB",
        &entry(10, "theirs", "p"),
        &key(),
        &mut NonceSource::from_os(),
    )
    .unwrap();
    m.insert_conflict(held).unwrap();
    ingest_vault(&mut m, &mut t, &FP, &key(), &mut NonceSource::from_os(), &v).unwrap();
    assert_eq!(m.conflicts.parked_conflict_uuids(), vec![10]);
    assert_eq!(uuid_to_string(10), "00000000-0000-0000-0000-00000000000a");
}

#[test]
fn deleting_an_entry_sweeps_tags_that_nothing_carries() {
    let mut a = entry(10, "a", "");
    a.content.tags = vec!["only".into(), "both".into()];
    let mut b = entry(11, "b", "");
    b.content.tags = vec!["both".into()];
    let (mut m, _) = written(&vault(group(1, vec![a, b], Vec::new())));
    assert_eq!(m.tags, vec!["only", "both"]);
    m.delete_local_entry(10);
    assert_eq!(m.tags, vec!["both"]);
    assert!(!m.tag_used("only") && m.tag_used("both"));
}
