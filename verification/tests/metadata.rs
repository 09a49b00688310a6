use keys_engine::codec::{uuid_to_string, Uuid};
use keys_engine::error::{EngineError, ProjectionError, SqliteError};
use keys_engine::meta::{
    deserialise_unknown_xml, pack_memory_protection, read_custom_data, read_deleted_objects,
    serialise_unknown_xml, unpack_memory_protection, CustomIcon, IconRow, MemoryProtection, Meta,
    TombstoneRow, UnknownElement, UnknownXmlRecord,
};
use keys_engine::meta_tables::MetaTables;
use keys_engine::mirror::Mirror;
use keys_engine::properties::{
    add_custom_icon_dedup, cipher_display, content_addressed_icon_uuid, format_kdf_params,
    read_attachment_pool_stats, read_cipher_display, read_cipher_id, read_custom_icon_bytes, read_database_metadata,
    read_history_max_items, read_history_max_size, read_kdf_display, Argon2Variant, KdfParams,
    KnownCipher,
};
use keys_engine::rows::{BlobRow, CustomDataRow};
use keys_engine::settings::{SettingKey, SettingTable};
use keys_engine::time::Timestamp;
use keys_engine::vault::CustomDataItem;
use sha2::Digest;

fn at(ms: i64) -> Option<Timestamp> {
    Some(Timestamp { millis: ms, nanos: 0 })
}

fn meta() -> Meta {
    Meta {
        generator: "Keys".into(),
        database_name: "Größe".into(),
        database_description: "d".into(),
        default_username: "bob".into(),
        color: "#fff".into(),
        header_hash: "hash".into(),
        database_name_changed: at(1),
        database_description_changed: at(2),
        default_username_changed: None,
        recycle_bin_changed: at(4),
        settings_changed: at(-5),
        master_key_changed: at(6),
        master_key_change_rec: -1,
        master_key_change_force: 90,
        history_max_items: -1,
        history_max_size: 1 << 40,
        maintenance_history_days: 365,
        memory_protection: MemoryProtection {
            protect_title: true,
            protect_username: false,
            protect_password: true,
            protect_url: true,
            protect_notes: false,
        },
        unknown_xml: vec![UnknownElement { tag: "VendorThing".into(), raw_xml: b"<x/>".to_vec() }],
        custom_icons: vec![
            CustomIcon { uuid: 9, data: vec![1, 2], name: "b".into(), last_modified: at(8) },
            CustomIcon { uuid: 3, data: vec![3], name: "a".into(), last_modified: None },
        ],
        custom_data: vec![
            CustomDataItem { key: "z".into(), value: "1".into(), last_modified: None },
            CustomDataItem { key: "a".into(), value: "2".into(), last_modified: at(7) },
        ],
        recycle_bin_uuid: None,
        recycle_bin_enabled: false,
    }
}

fn blank() -> Meta {
    let mut m = meta();
    m.generator = "other".into();
    m.database_name = "other".into();
    m.database_name_changed = at(99);
    m.default_username_changed = at(99);
    m.history_max_items = 10;
    m.unknown_xml = Vec::new();
    m.custom_icons = Vec::new();
    m.custom_data = Vec::new();
    m
}

#[test]
fn metadata_is_read_as_it_was_written() {
    let mut t = MetaTables::new();
    t.write_meta(&meta()).unwrap();
    let back = t.read_meta_into(blank()).unwrap();
    assert_eq!(back.generator, "Keys");
    assert_eq!(back.database_name, "Größe");
    assert_eq!(back.header_hash, "hash");
    assert_eq!(back.database_name_changed, at(1));
    assert_eq!(back.default_username_changed, None, "an absent time stays absent");
    assert_eq!(back.settings_changed, at(-5));
    assert_eq!((back.master_key_change_rec, back.master_key_change_force), (-1, 90));
    assert_eq!((back.history_max_items, back.history_max_size), (-1, 1 << 40));
    assert_eq!(back.maintenance_history_days, 365);
    assert_eq!(back.memory_protection, meta().memory_protection);
    assert_eq!(back.unknown_xml[0].tag, "VendorThing");
    assert_eq!(back.unknown_xml[0].raw_xml, b"<x/>");
    let icons: Vec<Uuid> = back.custom_icons.iter().map(|i| i.uuid).collect();
    assert_eq!(icons, vec![3, 9], "icons in the order of their identities");
    assert_eq!(back.custom_icons[1].last_modified, at(8));
    let keys: Vec<&str> = back.custom_data.iter().map(|d| d.key.as_str()).collect();
    assert_eq!(keys, vec!["a", "z"]);
    assert_eq!(back.custom_data[0].last_modified, at(7));
    assert_eq!((back.custom_data[1].value.as_str(), back.custom_data[1].last_modified), ("1", None));
    assert_eq!((back.custom_icons[0].name.as_str(), back.custom_icons[0].last_modified), ("a", None));
}

#[test]
fn what_was_never_written_keeps_the_given_value() {
    let t = MetaTables::new();
    let back = t.read_meta_into(blank()).unwrap();
    assert_eq!(back.generator, "other");
    assert_eq!(back.history_max_items, 10);
    assert_eq!(back.database_name_changed, None);
    assert!(back.custom_icons.is_empty());
}

#[test]
fn clearing_drops_metadata_only() {
    let mut t = MetaTables::new();
    t.write_meta(&meta()).unwrap();
    t.settings.set_blob(SettingKey::RecycleBinEnabled, vec![1]);
    t.settings.set_blob(SettingKey::FingerprintKey, vec![2; 32]);
    t.settings.set_blob(SettingKey::KdbxCipherOid, vec![3; 16]);
    t.clear_meta_tables(true);
    assert_eq!(t.settings.get_blob(SettingKey::Generator), None);
    assert_eq!(t.settings.get_blob(SettingKey::RecycleBinEnabled), Some(vec![1]));
    assert_eq!(t.settings.get_blob(SettingKey::KdbxCipherOid), Some(vec![3; 16]));
    assert!(t.icons.is_empty() && t.custom_data.is_empty() && t.unknown_xml.is_none());
    t.clear_meta_tables(false);
    assert_eq!(t.settings.get_blob(SettingKey::KdbxCipherOid), None);
    assert_eq!(t.settings.get_blob(SettingKey::FingerprintKey), Some(vec![2; 32]));
}

#[test]
fn icons_and_items_must_not_collide() {
    let mut t = MetaTables::new();
    let mut m = meta();
    m.custom_icons[1].uuid = 9;
    assert!(matches!(t.write_meta(&m), Err(EngineError::Sqlite(SqliteError::Constraint))));
    let mut m = meta();
    m.custom_data[1].key = "z".into();
    assert!(matches!(t.write_meta(&m), Err(EngineError::Sqlite(SqliteError::Constraint))));
    assert_eq!(t.settings.get_blob(SettingKey::Generator), None);
}

fn broken_row(e: EngineError) -> String {
    match e {
        EngineError::Projection(ProjectionError::SchemaInvariant(t)) => t,
        other => panic!("unexpected {other:?}"),
    }
}

#[test]
fn settings_of_the_wrong_width_are_reported() {
    let mut s = SettingTable::new();
    s.set_blob(SettingKey::HistoryMaxSize, vec![1, 2, 3]);
    assert_eq!(
        broken_row(s.get_i64(SettingKey::HistoryMaxSize).unwrap_err()),
        "meta.history_max_size: expected 8-byte i64, got 3 bytes"
    );
    s.set_blob(SettingKey::HistoryMaxItems, vec![0; 8]);
    assert_eq!(
        broken_row(s.get_i32(SettingKey::HistoryMaxItems).unwrap_err()),
        "meta.history_max_items: expected 4-byte i32, got 8 bytes"
    );
    s.set_blob(SettingKey::MaintenanceHistoryDays, vec![]);
    assert_eq!(
        broken_row(s.get_u32(SettingKey::MaintenanceHistoryDays).unwrap_err()),
        "meta.maintenance_history_days: expected 4-byte u32, got 0 bytes"
    );
    s.set_blob(SettingKey::Generator, vec![0xff]);
    let text = broken_row(s.get_text(SettingKey::Generator).unwrap_err());
    assert!(text.starts_with("meta.generator: non-utf8 setting value: "), "{text}");
}

#[test]
fn numbers_are_stored_little_endian() {
    let mut s = SettingTable::new();
    s.set_i64(SettingKey::HistoryMaxSize, -2);
    assert_eq!(
        s.get_blob(SettingKey::HistoryMaxSize),
        Some(vec![0xfe, 0xff, 0xff, 0xff, 0xff, 0xff, 0xff, 0xff])
    );
    assert_eq!(s.get_i64(SettingKey::HistoryMaxSize).unwrap(), Some(-2));
    s.set_i32(SettingKey::HistoryMaxItems, i32::MIN);
    assert_eq!(s.get_i32(SettingKey::HistoryMaxItems).unwrap(), Some(i32::MIN));
    s.set_u32(SettingKey::MaintenanceHistoryDays, 0x0102_0304);
    assert_eq!(s.get_blob(SettingKey::MaintenanceHistoryDays), Some(vec![4, 3, 2, 1]));
}

#[test]
fn caps_have_defaults() {
    let mut s = SettingTable::new();
    assert_eq!(read_history_max_items(&s).unwrap(), 10);
    assert_eq!(read_history_max_size(&s).unwrap(), 6 * 1024 * 1024);
    s.set_i32(SettingKey::HistoryMaxItems, 3);
    assert_eq!(read_history_max_items(&s).unwrap(), 3);
    s.set_blob(SettingKey::HistoryMaxItems, vec![]);
    assert!(read_history_max_items(&s).is_err());
}

#[test]
fn memory_protection_round_trips() {
    let mp = MemoryProtection {
        protect_title: true,
        protect_username: false,
        protect_password: true,
        protect_url: true,
        protect_notes: false,
    };
    let b = pack_memory_protection(mp);
    let back = unpack_memory_protection(b);
    assert_eq!(mp, back);
    assert_eq!(b, 0b0000_1101);
}

#[test]
fn unknown_xml_round_trips_through_json() {
    let elements = vec![
        UnknownElement {
            tag: "VendorThing".into(),
            raw_xml: b"<VendorThing>hello</VendorThing>".to_vec(),
        },
        UnknownElement { tag: "Binary".into(), raw_xml: vec![0x00, 0xff, 0x10, 0x80] },
    ];
    let records = serialise_unknown_xml(&elements);
    let json = serde_json::Value::Array(
        records
            .iter()
            .map(|r| {
                let mut o = serde_json::Map::new();
                o.insert("tag".into(), r.tag.clone().into());
                o.insert("raw_xml".into(), r.raw_xml.clone().into());
                serde_json::Value::Object(o)
            })
            .collect(),
    )
    .to_string();
    let parsed: serde_json::Value = serde_json::from_str(&json).expect("deserialise");
    let read: Vec<UnknownXmlRecord> = parsed
        .as_array()
        .expect("array")
        .iter()
        .map(|v| UnknownXmlRecord {
            tag: v["tag"].as_str().expect("tag").to_string(),
            raw_xml: v["raw_xml"].as_str().expect("raw_xml").to_string(),
        })
        .collect();
    let back = deserialise_unknown_xml(&read).expect("deserialise");
    assert_eq!(elements.len(), back.len());
    for (a, b) in elements.iter().zip(back.iter()) {
        assert_eq!(a.tag, b.tag);
        assert_eq!(a.raw_xml, b.raw_xml);
    }
}

#[test]
fn bad_base64_is_reported() {
    let bad = vec![UnknownXmlRecord { tag: "t".into(), raw_xml: "!".into() }];
    let e = deserialise_unknown_xml(&bad).unwrap_err();
    assert!(e.starts_with("decode raw_xml base64: "), "{e}");
    let mut t = MetaTables::new();
    t.unknown_xml = Some(bad);
    let e = broken_row(t.read_meta_into(blank()).unwrap_err());
    assert!(e.starts_with("meta.unknown_xml: decode raw_xml base64: "), "{e}");
}

#[test]
fn content_addressed_icon_uuid_is_deterministic_and_well_formed() {
    let h1: [u8; 32] = sha2::Sha256::digest(b"icon-bytes-A").into();
    let h2: [u8; 32] = sha2::Sha256::digest(b"icon-bytes-B").into();
    assert_eq!(content_addressed_icon_uuid(&h1), content_addressed_icon_uuid(&h1));
    assert_ne!(content_addressed_icon_uuid(&h1), content_addressed_icon_uuid(&h2));
    let u = uuid::Uuid::from_u128(content_addressed_icon_uuid(&h1));
    assert_eq!(u.get_version_num(), 8);
    assert_eq!(u.get_variant(), uuid::Variant::RFC4122);
    let mut b = [0u8; 16];
    b.copy_from_slice(&h1[..16]);
    b[6] = (b[6] & 0x0F) | 0x80;
    b[8] = (b[8] & 0x3F) | 0x80;
    assert_eq!(u, uuid::Uuid::from_bytes(b));
}

#[test]
fn an_image_is_added_once() {
    let mut icons: Vec<IconRow> = Vec::new();
    let (a, added) = add_custom_icon_dedup(&mut icons, b"png", 5).unwrap();
    assert!(added);
    assert_eq!(icons[0].uuid, uuid_to_string(a));
    assert_eq!((icons[0].name.as_str(), icons[0].last_modified_at), ("", Some(5)));
    icons[0].name = "kept".into();
    let (b, added) = add_custom_icon_dedup(&mut icons, b"png", 6).unwrap();
    assert!(!added);
    assert_eq!(a, b);
    assert_eq!((icons.len(), icons[0].name.as_str()), (1, "kept"));
    assert_eq!(read_custom_icon_bytes(&icons, a), Some(b"png".to_vec()));
    assert_eq!(read_custom_icon_bytes(&icons, 1), None);
}

#[test]
fn a_stored_icon_under_a_bad_identity_is_reported() {
    let mut icons = vec![IconRow {
        uuid: "nonsense".into(),
        name: String::new(),
        bytes: b"png".to_vec(),
        last_modified_at: None,
    }];
    let e = broken_row(add_custom_icon_dedup(&mut icons, b"png", 5).unwrap_err());
    assert!(e.starts_with("meta_custom_icon.uuid not a UUID: "), "{e}");
    let (u, _) = add_custom_icon_dedup(&mut icons, b"other", 5).unwrap();
    let mut taken = vec![IconRow {
        uuid: uuid_to_string(u),
        name: String::new(),
        bytes: b"something else".to_vec(),
        last_modified_at: None,
    }];
    assert!(matches!(
        add_custom_icon_dedup(&mut taken, b"other", 5),
        Err(EngineError::Sqlite(SqliteError::Constraint))
    ));
}

#[test]
fn tombstones_and_items_are_read_in_order() {
    let rows = vec![
        TombstoneRow { uuid: uuid_to_string(9), deleted_at: Some(4) },
        TombstoneRow { uuid: uuid_to_string(3), deleted_at: None },
    ];
    let v = read_deleted_objects(&rows).unwrap();
    assert_eq!((v[0].uuid, v[0].deleted_at), (3, None));
    assert_eq!((v[1].uuid, v[1].deleted_at), (9, at(4)));
    let bad = vec![TombstoneRow { uuid: "x".into(), deleted_at: None }];
    let e = broken_row(read_deleted_objects(&bad).unwrap_err());
    assert!(e.starts_with("meta_deleted_object.uuid not a UUID: "), "{e}");
    let items = vec![
        CustomDataRow { key: "b".into(), value: "1".into(), last_modified_at: None },
        CustomDataRow { key: "a".into(), value: "2".into(), last_modified_at: Some(i64::MAX) },
    ];
    let v = read_custom_data(&items);
    assert_eq!((v[0].key.as_str(), v[0].last_modified), ("a", None));
}

#[test]
fn key_derivations_are_shown() {
    let argon = KdfParams::Argon2 {
        variant: Argon2Variant::Argon2id,
        memory_bytes: 64 * 1024 * 1024,
        iterations: 2,
        parallelism: 4,
    };
    assert_eq!(format_kdf_params(&argon), "Argon2id (64 MB \u{00B7} 2 iter \u{00B7} 4 threads)");
    assert_eq!(format_kdf_params(&KdfParams::AesKdf { rounds: 6_000_000 }), "AES-KDF (6,000,000 rounds)");
    assert_eq!(format_kdf_params(&KdfParams::Other), "Unknown KDF");
    let mut s = SettingTable::new();
    assert_eq!(read_kdf_display(&s, Some(argon)).unwrap(), "Unknown KDF");
    s.set_blob(SettingKey::KdbxKdfParameters, vec![1]);
    assert!(read_kdf_display(&s, Some(argon)).unwrap().starts_with("Argon2id"));
    s.set_i64(SettingKey::KdbxTransformRounds, -1);
    assert_eq!(
        read_kdf_display(&s, None).unwrap(),
        "AES-KDF (18,446,744,073,709,551,615 rounds)"
    );
    s.set_blob(SettingKey::KdbxTransformRounds, vec![1]);
    assert!(read_kdf_display(&s, None).is_err());
}

#[test]
fn ciphers_are_shown() {
    assert_eq!(cipher_display(Some(KnownCipher::Aes256Cbc)), "AES-256-CBC");
    assert_eq!(cipher_display(Some(KnownCipher::ChaCha20)), "ChaCha20");
    assert_eq!(cipher_display(Some(KnownCipher::TwofishCbc)), "Twofish-CBC");
    assert_eq!(cipher_display(None), "Unknown");
    let mut s = SettingTable::new();
    assert_eq!(read_cipher_id(&s), None);
    s.set_blob(SettingKey::KdbxCipherOid, vec![1; 15]);
    assert_eq!(read_cipher_id(&s), None);
    s.set_blob(SettingKey::KdbxCipherOid, vec![1; 16]);
    assert_eq!(read_cipher_id(&s), Some(vec![1; 16]));
    assert_eq!(read_cipher_display(&s, Some(KnownCipher::ChaCha20)), "ChaCha20");
    s.set_blob(SettingKey::KdbxCipherOid, vec![1; 15]);
    assert_eq!(read_cipher_display(&s, Some(KnownCipher::ChaCha20)), "Unknown");
}

#[test]
fn the_properties_sheet_is_filled() {
    let mut t = MetaTables::new();
    let mut m = Mirror::new();
    let d = read_database_metadata(&t, &m, None, None).unwrap();
    assert_eq!((d.generator.as_str(), d.cipher_display.as_str(), d.kdf_display.as_str()), ("", "Unknown", "Unknown KDF"));
    t.write_meta(&meta()).unwrap();
    m.blobs.push(BlobRow { sha256: vec![1], bytes: vec![], size: 40 });
    m.blobs.push(BlobRow { sha256: vec![2], bytes: vec![], size: 2 });
    let d = read_database_metadata(&t, &m, Some(KnownCipher::ChaCha20), None).unwrap();
    assert_eq!((d.generator.as_str(), d.cipher_display.as_str()), ("Keys", "Unknown"));
    t.settings.set_blob(SettingKey::KdbxCipherOid, vec![7; 16]);
    let d = read_database_metadata(&t, &m, Some(KnownCipher::ChaCha20), None).unwrap();
    assert_eq!(d.cipher_display, "ChaCha20");
    assert_eq!((d.attachment_total_count, d.attachment_total_bytes), (2, 42));
    m.blobs.push(BlobRow { sha256: vec![3], bytes: vec![], size: i64::MAX });
    assert!(matches!(read_attachment_pool_stats(&m), Err(EngineError::Sqlite(_))));
    m.blobs[2].size = -100;
    assert_eq!(read_attachment_pool_stats(&m).unwrap(), (3, 0));
}
