use keys_engine::codec::Uuid;
use keys_engine::crypto::{NonceSource, SessionKey};
use keys_engine::details::{entry as entry_full, history, list_tags, tag_usage_counts};
use keys_engine::error::{is_wrong_key, opening_error, EngineError, RevealError, SqliteError};
use keys_engine::ingest::ingest_vault;
use keys_engine::meta::{MemoryProtection, Meta};
use keys_engine::meta_tables::MetaTables;
use keys_engine::mirror::Mirror;
use keys_engine::model::{IconRef, Pagination, StrengthBucket};
use keys_engine::queries::{
    entry_count, group_parent_uuid, group_tree, is_descendant_of, list_entries,
};
use keys_engine::reading::{
    attachment_bytes, history_attachment_bytes, history_field, non_protected_custom_field,
    reveal_custom_field, reveal_history_field, reveal_password, sealed_field, HistoryField,
};
use keys_engine::time::Timestamp;
use keys_engine::vault::{
    Attachment, CustomField, Entry, EntryContent, Group, Strength, Timestamps, Vault,
};

fn no_times() -> Timestamps {
    Timestamps {
        creation_time: None,
        last_modification_time: None,
        last_access_time: None,
        expiry_time: None,
        expires: false,
    }
}

fn content(title: &str, password: &str) -> EntryContent {
    EntryContent {
        title: title.to_string(),
        username: String::new(),
        password: password.to_string(),
        url: String::new(),
        notes: String::new(),
        tags: Vec::new(),
        times: no_times(),
        icon_id: 0,
        custom_icon_uuid: None,
        custom_fields: Vec::new(),
        custom_data: Vec::new(),
        attachments: Vec::new(),
        strength: Strength { bucket: StrengthBucket::VeryWeak, entropy: 0 },
        otpauth_url: false,
    }
}

fn entry(id: Uuid, title: &str, password: &str) -> Entry {
    Entry { id, content: content(title, password), history: Vec::new() }
}

fn group(id: Uuid, entries: Vec<Entry>, groups: Vec<Group>) -> Group {
    Group {
        id,
        name: format!("group {id}"),
        notes: String::new(),
        icon_id: 0,
        custom_icon_uuid: None,
        times: no_times(),
        entries,
        groups,
    }
}

fn meta() -> Meta {
    Meta {
        generator: "Keys".to_string(),
        database_name: "Vault".to_string(),
        database_description: String::new(),
        default_username: String::new(),
        color: String::new(),
        header_hash: String::new(),
        database_name_changed: None,
        database_description_changed: None,
        default_username_changed: None,
        recycle_bin_changed: None,
        settings_changed: None,
        master_key_changed: None,
        master_key_change_rec: -1,
        master_key_change_force: -1,
        history_max_items: 10,
        history_max_size: 6 * 1024 * 1024,
        maintenance_history_days: 365,
        memory_protection: MemoryProtection {
            protect_title: false,
            protect_username: false,
            protect_password: true,
            protect_url: false,
            protect_notes: false,
        },
        unknown_xml: Vec::new(),
        custom_icons: Vec::new(),
        custom_data: Vec::new(),
        recycle_bin_uuid: None,
        recycle_bin_enabled: false,
    }
}

fn vault(root: Group) -> Vault {
    Vault { root, meta: meta(), binaries: Vec::new(), deleted_objects: Vec::new() }
}

fn key() -> SessionKey {
    SessionKey::from_bytes([0x9c; 32])
}

fn written(v: &Vault) -> Mirror {
    let mut m = Mirror::new();
    let mut t = MetaTables::new();
    ingest_vault(&mut m, &mut t, &[0x11; 32], &key(), &mut NonceSource::from_os(), v)
        .expect("ingest");
    m
}

fn field(key: &str, value: &str, protected: bool) -> CustomField {
    CustomField { key: key.to_string(), value: value.to_string(), protected, totp_key: false }
}

fn sample() -> Mirror {
    let mut e = entry(10, "now", "s3cret\u{1F511}");
    e.content.custom_fields = vec![
        field("Token", "t0k", true),
        field("Site", "example", false),
        field("Both", "sealed", true),
        field("Both", "plain", false),
    ];
    e.content.attachments = vec![
        Attachment { name: "gone".into(), ref_id: 9 },
        Attachment { name: "a".into(), ref_id: 0 },
        Attachment { name: "a".into(), ref_id: 1 },
    ];
    let mut old = content("then", "old");
    old.custom_fields = vec![field("Token", "past", true), field("Site", "old site", false)];
    old.attachments = vec![
        Attachment { name: "b".into(), ref_id: 0 },
        Attachment { name: "c".into(), ref_id: 2 },
    ];
    e.history = vec![old];
    let mut v = vault(group(1, vec![e], vec![group(2, Vec::new(), vec![group(3, Vec::new(), Vec::new())])]));
    v.binaries = vec![b"hello".to_vec(), b"other".to_vec(), b"never live".to_vec()];
    written(&v)
}

fn not_found<T: std::fmt::Debug>(r: Result<T, EngineError>) -> &'static str {
    match r {
        Err(EngineError::NotFound { entity }) => entity,
        other => panic!("unexpected {other:?}"),
    }
}

fn unwrap_fault<T: std::fmt::Debug>(r: Result<T, EngineError>) -> String {
    match r {
        Err(EngineError::Reveal(RevealError::Unwrap(t))) => t,
        other => panic!("unexpected {other:?}"),
    }
}

#[test]
fn what_was_sealed_is_revealed() {
    let m = sample();
    let k = key();
    assert_eq!(reveal_password(&m, 10, Ok(&k)).unwrap(), "s3cret\u{1F511}");
    assert_eq!(reveal_custom_field(&m, 10, "Password", Ok(&k)).unwrap(), "s3cret\u{1F511}");
    assert_eq!(reveal_custom_field(&m, 10, "Token", Ok(&k)).unwrap(), "t0k");
    assert_eq!(reveal_custom_field(&m, 10, "Both", Ok(&k)).unwrap(), "sealed");
    assert_eq!(non_protected_custom_field(&m, 10, "Site"), Some("example".into()));
    assert_eq!(non_protected_custom_field(&m, 10, "Both"), Some("plain".into()));
    assert_eq!(non_protected_custom_field(&m, 10, "Token"), None);
    assert_eq!(non_protected_custom_field(&m, 5, "Site"), None);
    assert!(sealed_field(&m, 10, "Token").unwrap() != b"t0k");
}

#[test]
fn what_is_not_there_is_named() {
    let m = sample();
    let k = key();
    assert_eq!(not_found(reveal_password(&m, 5, Ok(&k))), "password");
    assert_eq!(not_found(reveal_custom_field(&m, 10, "Site", Ok(&k))), "custom_field");
    assert_eq!(not_found(reveal_custom_field(&m, 10, "nope", Err("no key".into()))), "custom_field");
    assert_eq!(not_found(reveal_history_field(&m, 10, 1, "Token", Ok(&k))), "history_snapshot");
    assert_eq!(not_found(reveal_history_field(&m, 5, 0, "Token", Ok(&k))), "history_snapshot");
    assert_eq!(not_found(reveal_history_field(&m, 10, 0, "nope", Ok(&k))), "history_field");
    assert_eq!(not_found(attachment_bytes(&m, 10, "gone")), "attachment");
    assert_eq!(not_found(attachment_bytes(&m, 5, "a")), "attachment");
    assert_eq!(not_found(history_attachment_bytes(&m, 10, 0, "a")), "attachment");
    assert_eq!(not_found(history_attachment_bytes(&m, 10, 1, "b")), "attachment");
}

#[test]
fn a_key_that_cannot_be_had_is_reported() {
    let m = sample();
    match reveal_password(&m, 10, Err("locked".into())) {
        Err(EngineError::Reveal(RevealError::SessionKey(t))) => assert_eq!(t, "locked"),
        other => panic!("unexpected {other:?}"),
    }
    assert_eq!(
        reveal_history_field(&m, 10, 0, "Site", Err("locked".into())).unwrap(),
        "old site",
        "a plain value takes no key"
    );
}

#[test]
fn what_does_not_open_is_reported() {
    let mut m = sample();
    let wrong = SessionKey::from_bytes([1; 32]);
    assert_eq!(unwrap_fault(reveal_password(&m, 10, Ok(&wrong))), "aead::Error");
    m.entries.get_mut(&10).unwrap().fields.protected[0].wrapped_blob.truncate(3);
    assert_eq!(unwrap_fault(reveal_password(&m, 10, Ok(&key()))), "wrapped blob too short");
    m.entries.get_mut(&10).unwrap().history[0].password = "!".into();
    let t = unwrap_fault(reveal_history_field(&m, 10, 0, "Password", Ok(&key())));
    assert!(t.starts_with("Invalid"), "{t}");
    assert!(unwrap_fault(history_field(&m, 10, 0, "Password")).starts_with("Invalid"));
}

#[test]
fn history_is_revealed() {
    let m = sample();
    let k = key();
    assert_eq!(reveal_history_field(&m, 10, 0, "Password", Ok(&k)).unwrap(), "old");
    assert_eq!(reveal_history_field(&m, 10, 0, "Token", Ok(&k)).unwrap(), "past");
    assert!(matches!(history_field(&m, 10, 0, "Token"), Ok(HistoryField::Sealed(_))));
    match history_field(&m, 10, 0, "Site").unwrap() {
        HistoryField::Plain(t) => assert_eq!(t, "old site"),
        other => panic!("unexpected {other:?}"),
    }
}

#[test]
fn files_are_read_from_the_pool() {
    let mut m = sample();
    assert_eq!(attachment_bytes(&m, 10, "a").unwrap(), b"hello");
    assert_eq!(history_attachment_bytes(&m, 10, 0, "b").unwrap(), b"hello");
    assert_eq!(not_found(history_attachment_bytes(&m, 10, 0, "c")), "attachment");
    m.entries.get_mut(&10).unwrap().history[0].attachments[0].sha256_hex = String::new();
    assert_eq!(not_found(history_attachment_bytes(&m, 10, 0, "b")), "attachment");
    m.blobs.clear();
    assert_eq!(not_found(attachment_bytes(&m, 10, "a")), "attachment");
}

#[test]
fn a_copy_holds_the_same() {
    let m = sample();
    assert_eq!(format!("{m:?}"), format!("{:?}", m.copy()));
}

// -------------------------------------------------------------------------- queries

#[test]
fn the_tree_is_walked_upwards() {
    let mut m = sample();
    assert_eq!(group_parent_uuid(&m, 3).unwrap(), Some(2));
    assert_eq!(group_parent_uuid(&m, 1).unwrap(), None);
    assert_eq!(not_found(group_parent_uuid(&m, 9)), "group");
    assert!(is_descendant_of(&m, 3, 1).unwrap());
    assert!(is_descendant_of(&m, 3, 2).unwrap());
    assert!(!is_descendant_of(&m, 1, 3).unwrap());
    assert!(!is_descendant_of(&m, 2, 2).unwrap(), "a group is not below itself");
    assert!(!is_descendant_of(&m, 3, 9).unwrap());
    assert_eq!(not_found(is_descendant_of(&m, 9, 1)), "group");
    m.groups.get_mut(&1).unwrap().parent_uuid = Some(3);
    assert!(!is_descendant_of(&m, 3, 9).unwrap(), "a loop is left");
    assert!(is_descendant_of(&m, 1, 3).unwrap());
    assert!(!is_descendant_of(&m, 2, 2).unwrap(), "not even in a loop");
    m.groups.get_mut(&1).unwrap().parent_uuid = Some(1);
    assert!(!is_descendant_of(&m, 1, 1).unwrap());
    assert!(is_descendant_of(&m, 3, 1).unwrap());
}

fn listed() -> Mirror {
    let at = |id: Uuid, ms: i64| {
        let mut e = entry(id, &format!("t{id}"), "");
        e.content.times.last_modification_time = Some(Timestamp { millis: ms, nanos: 0 });
        e
    };
    written(&vault(group(
        1,
        vec![at(10, 5), at(11, 9), at(12, 5)],
        vec![group(2, vec![at(20, 7)], Vec::new())],
    )))
}

fn ids(m: &Mirror, g: Option<Uuid>, offset: u64, limit: u64) -> Vec<Uuid> {
    list_entries(m, g, Pagination { offset, limit }).iter().map(|s| s.uuid).collect()
}

#[test]
fn entries_are_counted_and_listed() {
    let m = listed();
    assert_eq!(entry_count(&m, None), 4);
    assert_eq!(entry_count(&m, Some(1)), 3);
    assert_eq!(entry_count(&m, Some(2)), 1);
    assert_eq!(entry_count(&m, Some(9)), 0);
    assert_eq!(ids(&m, None, 0, u64::MAX), vec![11, 20, 10, 12]);
    assert_eq!(ids(&m, Some(1), 0, u64::MAX), vec![11, 10, 12]);
    assert_eq!(ids(&m, None, 1, 2), vec![20, 10]);
    assert_eq!(ids(&m, None, 3, u64::MAX), vec![12]);
    assert!(ids(&m, None, 9, 1).is_empty());
    assert!(ids(&m, None, u64::MAX, u64::MAX).is_empty());
    assert!(ids(&m, None, 0, 0).is_empty());
}

#[test]
fn a_summary_shows_the_entry() {
    let m = sample();
    let s = &list_entries(&m, None, Pagination::all())[0];
    assert_eq!((s.title.as_str(), s.group_uuid, s.attachment_count), ("now", 1, 1));
    assert_eq!(s.icon, IconRef::Builtin(0));
    assert_eq!(s.password_strength_bucket, Some(StrengthBucket::VeryWeak));
    let mut m = m;
    m.entries.get_mut(&10).unwrap().icon_custom_uuid = Some(7);
    m.entries.get_mut(&10).unwrap().password_strength_bucket = 9;
    let s = &list_entries(&m, None, Pagination::all())[0];
    assert_eq!((s.icon, s.password_strength_bucket), (IconRef::Custom(7), None));
}

#[test]
fn an_entry_is_shown_in_full() {
    let m = sample();
    let f = entry_full(&m, 10).unwrap();
    assert_eq!((f.title.as_str(), f.group_uuid, f.history_count), ("now", 1, 1));
    let fields: Vec<(&str, bool)> =
        f.custom_fields.iter().map(|c| (c.name.as_str(), c.is_protected)).collect();
    assert_eq!(fields, vec![("Token", true), ("Both", true), ("Site", false), ("Both", false)]);
    assert_eq!(f.attachments.len(), 1);
    assert_eq!((f.attachments[0].name.as_str(), f.attachments[0].size), ("a", 5));
    assert!(entry_full(&m, 5).is_none());
}

#[test]
fn the_history_is_shown() {
    let mut m = sample();
    let h = &history(&m, 10).unwrap()[0];
    assert_eq!((h.history_index, h.title.as_str(), h.icon), (0, "then", IconRef::Builtin(0)));
    let fields: Vec<(&str, bool)> =
        h.custom_fields.iter().map(|c| (c.name.as_str(), c.is_protected)).collect();
    assert_eq!(fields, vec![("Site", false), ("Token", true)]);
    assert_eq!(h.attachments[1].size, 10);
    assert_eq!(h.password_strength_bucket, Some(StrengthBucket::VeryWeak));
    let s = &mut m.entries.get_mut(&10).unwrap().history[0];
    s.icon_custom_uuid = Some("00000000-0000-0000-0000-000000000007".into());
    assert_eq!(history(&m, 10).unwrap()[0].icon, IconRef::Custom(7));
    m.entries.get_mut(&10).unwrap().history[0].icon_custom_uuid = Some("nonsense".into());
    assert_eq!(history(&m, 10).unwrap()[0].icon, IconRef::Builtin(0));
    assert_eq!(not_found(history(&m, 5)), "entry");
}

#[test]
fn tags_are_listed_and_counted() {
    let tagged = |id: Uuid, tags: &[&str]| {
        let mut e = entry(id, "t", "");
        e.content.tags = tags.iter().map(|t| t.to_string()).collect();
        e
    };
    let mut v = vault(group(
        1,
        vec![tagged(10, &["beta", "Alpha"]), tagged(11, &["alpha", "beta"])],
        vec![group(2, vec![tagged(12, &["Zed", "beta"])], Vec::new())],
    ));
    v.meta.recycle_bin_uuid = Some(2);
    let mut m = written(&v);
    m.tags.push("nobody".into());
    assert_eq!(list_tags(&m), vec!["Alpha", "Zed", "alpha", "beta", "nobody"]);
    assert_eq!(
        tag_usage_counts(&m),
        vec![("Alpha".into(), 1), ("alpha".into(), 1), ("beta".into(), 3), ("Zed".into(), 1)]
    );
}

#[test]
fn the_tree_is_shown() {
    let mut root = group(9, vec![entry(90, "", "")], Vec::new());
    root.name = "zzz".into();
    let named = |id: Uuid, name: &str, entries: Vec<Entry>| {
        let mut g = group(id, entries, Vec::new());
        g.name = name.into();
        g
    };
    root.groups = vec![
        named(4, "b", vec![entry(40, "", "")]),
        named(2, "b", Vec::new()),
        named(3, "a", vec![entry(30, "", ""), entry(31, "", "")]),
    ];
    let mut v = vault(root);
    v.meta.recycle_bin_uuid = Some(3);
    let mut m = written(&v);
    m.entries.get_mut(&40).unwrap().is_recycled = true;
    let nodes = group_tree(&m);
    let order: Vec<Uuid> = nodes.iter().map(|n| n.uuid).collect();
    assert_eq!(order, vec![9, 3, 2, 4]);
    let counts: Vec<u32> = nodes.iter().map(|n| n.entry_count_direct).collect();
    assert_eq!(counts, vec![1, 2, 0, 0], "only the bin counts recycled entries");
    assert!(nodes[1].is_recycle_bin);
    assert_eq!((nodes[0].parent_uuid, nodes[1].parent_uuid), (None, Some(9)));
}

#[test]
fn a_wrong_key_is_told_apart() {
    assert!(is_wrong_key(&SqliteError::NotADatabase));
    assert!(!is_wrong_key(&SqliteError::Constraint));
    assert!(matches!(opening_error(SqliteError::NotADatabase), EngineError::WrongKey));
    assert!(matches!(
        opening_error(SqliteError::Other("io".into())),
        EngineError::Sqlite(SqliteError::Other(_))
    ));
}
