use hmac::Mac;

use keys_engine::codec::{b64_decode, b64_encode, parse_host, parse_uuid, text_from_utf8, uuid_to_string};
use keys_engine::crypto::{unwrap_with_session_key, wrap_with_nonce, wrap_with_session_key, NonceSource, SessionKey};
use keys_engine::error::{EngineError, IngestError, ProjectionError, RevealError, SqliteError};
use keys_engine::file_watcher::{FileChange, FileWatcherError, FileWatcherEvent, Presence};
use keys_engine::fingerprint::fingerprint;
use keys_engine::key_provider::{key_statement, DbKey, KeyProvider, KeyProviderError};
use keys_engine::migrations::{known_migrations, pending, MigrationError, SchemaVersions};
use keys_engine::model::{AttachmentRef, CustomFieldRef, Pagination, SmartFolder, StrengthBucket};
use keys_engine::order::{comes_before, insert_ascending, insert_text};
use keys_engine::text::{decimal, format_with_thousands, hex_encode, to_ascii_lower, trim};
use keys_engine::time::{
    earliest, earliest_ms, edited_after, live_edit_wins, ms_to_dt, Timestamp, MAX_MILLIS, MIN_MILLIS,
};

// ----------------------------------------------------------------------- texts

#[test]
fn engine_hex_encode_lowercases_all_bytes() {
    let bytes = [0xab; 32];
    assert_eq!(hex_encode(&bytes), "ab".repeat(32));
}

#[test]
fn engine_hex_encode_handles_zero_and_ff() {
    let mut bytes = [0u8; 32];
    bytes[0] = 0x00;
    bytes[1] = 0xff;
    bytes[2] = 0x10;
    bytes[3] = 0x0f;
    let s = hex_encode(&bytes);
    assert!(s.starts_with("00ff100f"));
    assert_eq!(s.len(), 64);
}

#[test]
fn mod_hex_encode_lowercases_all_bytes() {
    let bytes = [0xab; 32];
    let s = hex_encode(&bytes);
    assert_eq!(&*s, &"ab".repeat(32));
}

#[test]
fn mod_hex_encode_handles_zero_and_ff() {
    let mut bytes = [0u8; 32];
    bytes[0] = 0x00;
    bytes[1] = 0xff;
    bytes[2] = 0x10;
    bytes[3] = 0x0f;
    let s = hex_encode(&bytes);
    assert!(s.starts_with("00ff100f"));
    assert_eq!(s.len(), 64);
}

#[test]
fn thousands_are_set_apart() {
    assert_eq!(format_with_thousands(0), "0");
    assert_eq!(format_with_thousands(999), "999");
    assert_eq!(format_with_thousands(1000), "1,000");
    assert_eq!(format_with_thousands(6_000_000), "6,000,000");
    assert_eq!(format_with_thousands(u64::MAX), "18,446,744,073,709,551,615");
}

#[test]
fn numbers_are_written_in_decimal() {
    assert_eq!(decimal(0), "0");
    assert_eq!(decimal(1024), "1024");
    assert_eq!(decimal(u64::MAX), "18446744073709551615");
}

#[test]
fn only_ascii_is_lowered() {
    assert_eq!(to_ascii_lower("ÄBC-Z9"), "Äbc-z9");
}

#[test]
fn white_space_is_trimmed_at_both_ends() {
    assert_eq!(trim("  work\t\n"), "work");
    assert_eq!(trim("\u{3000}a b\u{00a0}"), "a b");
    assert_eq!(trim(" \r\n "), "");
}

#[test]
fn texts_are_ordered_by_code_points() {
    assert!(comes_before("a", "b"));
    assert!(comes_before("a", "aa"));
    assert!(comes_before("Z", "a"));
    assert!(!comes_before("b", "b"));
    let mut v = vec!["a".to_string(), "c".to_string()];
    insert_text(&mut v, "b");
    insert_text(&mut v, "c");
    assert_eq!(v, vec!["a", "b", "c"]);
}

#[test]
fn identities_are_kept_ascending_and_once() {
    let mut v = Vec::new();
    for u in [3u128, 1, 2, 3, 1] {
        insert_ascending(&mut v, u);
    }
    assert_eq!(v, vec![1, 2, 3]);
}

// ---------------------------------------------------------------------- encodings

#[test]
fn parse_host_lowercases() {
    assert_eq!(parse_host("https://Login.Example.COM/path"), "login.example.com");
}

#[test]
fn parse_host_empty_for_unparseable() {
    assert_eq!(parse_host(""), "");
    assert_eq!(parse_host("not a url"), "");
    assert_eq!(parse_host("example.com"), "");
}

#[test]
fn base64_reads_back() {
    assert_eq!(b64_encode(b"any carnal pleas"), "YW55IGNhcm5hbCBwbGVhcw==");
    assert_eq!(b64_decode("YW55IGNhcm5hbCBwbGVhcw==").unwrap(), b"any carnal pleas");
    assert!(b64_decode("not base64!").is_err());
}

#[test]
fn uuids_read_back() {
    let u = 0x6ba7b810_9dad_11d1_80b4_00c04fd430c8u128;
    assert_eq!(uuid_to_string(u), "6ba7b810-9dad-11d1-80b4-00c04fd430c8");
    assert_eq!(parse_uuid("6BA7B810-9DAD-11D1-80B4-00C04FD430C8").unwrap(), u);
    assert!(parse_uuid("nonsense").is_err());
}

#[test]
fn only_utf8_is_text() {
    assert_eq!(text_from_utf8("grün".as_bytes().to_vec()).unwrap(), "grün");
    assert!(text_from_utf8(vec![0xff, 0xfe]).is_err());
}

// ------------------------------------------------------------------------- sealing

#[test]
fn sealed_values_open_under_their_key_only() {
    let key = SessionKey::from_bytes([7; 32]);
    let other = SessionKey::from_bytes([8; 32]);
    let blob = wrap_with_session_key(&key, &mut NonceSource::from_os(), b"secret").unwrap();
    assert_eq!(blob.len(), 12 + 6 + 16);
    assert_eq!(unwrap_with_session_key(&key, &blob).unwrap(), b"secret");
    assert_eq!(unwrap_with_session_key(&other, &blob), Err("aead::Error".to_string()));
    let mut bent = blob.clone();
    bent[20] ^= 1;
    assert!(unwrap_with_session_key(&key, &bent).is_err());
    assert_eq!(
        unwrap_with_session_key(&key, &blob[..27]),
        Err("wrapped blob too short".to_string())
    );
}

#[test]
fn sealing_follows_the_cipher() {
    // AES-256-GCM of an empty message under a zero key and nonce.
    let key = SessionKey::from_bytes([0; 32]);
    let blob = wrap_with_nonce(&key, &[0; 12], b"").unwrap();
    assert_eq!(hex_encode(&blob[12..]), "530f8afbc74536b9a963b4f1c4cb738b");
}

#[test]
fn drawn_nonces_are_used_in_turn() {
    let key = SessionKey::from_bytes([7; 32]);
    let mut nonces = NonceSource { drawn: vec![[1; 12], [2; 12]] };
    let a = wrap_with_session_key(&key, &mut nonces, b"x").unwrap();
    let b = wrap_with_session_key(&key, &mut nonces, b"x").unwrap();
    assert_ne!(a[..12], b[..12]);
    let c = wrap_with_session_key(&key, &mut nonces, b"x").unwrap();
    assert_eq!(unwrap_with_session_key(&key, &c).unwrap(), b"x");
}

#[test]
fn fingerprint_helper_matches_known_vector() {
    let key = [0x0b; 32];
    let data = b"Hi There";
    let got = fingerprint(&key, data);
    let mut mac = hmac::Hmac::<sha2::Sha256>::new_from_slice(&key).unwrap();
    mac.update(data);
    let expected = mac.finalize().into_bytes();
    assert_eq!(&got[..], &expected[..]);
    assert_eq!(got.len(), 32);
}

// --------------------------------------------------------------------------- times

fn at(ms: i64) -> Option<Timestamp> {
    Some(Timestamp { millis: ms, nanos: 0 })
}

#[test]
fn the_earlier_deletion_is_kept() {
    assert_eq!(earliest_ms(Some(5), Some(3)), Some(3));
    assert_eq!(earliest_ms(None, Some(3)), Some(3));
    assert_eq!(earliest_ms(Some(5), None), Some(5));
    assert_eq!(earliest_ms(None, None), None);
    assert_eq!(earliest(at(5), at(3)), at(3));
    assert_eq!(earliest(None, at(3)), at(3));
}

#[test]
fn an_edit_wins_only_if_later() {
    assert!(live_edit_wins(at(2), at(1)));
    assert!(!live_edit_wins(at(1), at(1)));
    assert!(!live_edit_wins(None, at(1)));
    assert!(live_edit_wins(None, None));
    assert!(edited_after(at(2), at(1)));
    assert!(!edited_after(at(1), at(1)));
    assert!(!edited_after(None, at(1)));
    assert!(!edited_after(at(1), None));
    let late = Some(Timestamp { millis: 1, nanos: 7 });
    assert!(edited_after(late, at(1)));
}

#[test]
fn times_outside_the_calendar_are_none() {
    assert_eq!(ms_to_dt(0), at(0));
    assert_eq!(ms_to_dt(-1), at(-1));
    assert_eq!(ms_to_dt(i64::MAX), None);
    assert_eq!(ms_to_dt(i64::MIN), None);
}

#[test]
fn the_calendar_ends_where_it_ends() {
    let top = chrono::DateTime::<chrono::Utc>::MAX_UTC.timestamp_millis();
    let bottom = chrono::DateTime::<chrono::Utc>::MIN_UTC.timestamp_millis();
    assert_eq!(ms_to_dt(top), at(top));
    assert_eq!(ms_to_dt(top + 1), None);
    assert_eq!(ms_to_dt(bottom), at(bottom));
    assert_eq!(ms_to_dt(bottom - 1), None);
    assert_eq!((bottom, top), (MIN_MILLIS, MAX_MILLIS));
}

// -------------------------------------------------------------------------- errors

#[test]
fn recoverable_sidecar_failures_are_exactly_the_stale_key_class() {
    let recoverable = [
        EngineError::WrongKey,
        EngineError::Projection(ProjectionError::Unwrap("tag mismatch".into())),
        EngineError::Projection(ProjectionError::SessionKey("se gone".into())),
        EngineError::Reveal(RevealError::Unwrap("tag mismatch".into())),
        EngineError::Reveal(RevealError::SessionKey("se gone".into())),
    ];
    for err in &recoverable {
        assert!(
            err.is_recoverable_sidecar_failure(),
            "{err:?} should be a recoverable sidecar failure",
        );
    }
}

#[test]
fn non_recoverable_failures_are_not_self_healed() {
    let not_recoverable = [
        EngineError::KeyProvider(KeyProviderError::KeyUnavailable("locked".into())),
        EngineError::Wrap("seal failed".into()),
        EngineError::SessionKey("se gone".into()),
        EngineError::Ingest(IngestError::Wrap("seal failed".into())),
        EngineError::Ingest(IngestError::SessionKey("se gone".into())),
        EngineError::Serialise("unlock disk kdbx: decryption failed".into()),
        EngineError::Projection(ProjectionError::SchemaInvariant("no root group".into())),
        EngineError::NotEvaluable,
        EngineError::CycleDetected,
        EngineError::NotFound { entity: "password" },
    ];
    for err in &not_recoverable {
        assert!(!err.is_recoverable_sidecar_failure(), "{err:?} must NOT be self-healed");
    }
}

#[test]
fn errors_are_put_in_words() {
    assert_eq!(
        EngineError::WrongKey.message(),
        "wrong database key — supplied key does not decrypt this database"
    );
    assert_eq!(
        EngineError::Ingest(IngestError::Wrap("x".into())).message(),
        "ingest failed: protected field wrap failed: x"
    );
    assert_eq!(EngineError::NotFound { entity: "entry" }.message(), "not found: entry");
    assert_eq!(
        EngineError::Migration(MigrationError::SchemaTooNew { binary_max: 12, file_current: 13 })
            .message(),
        "migration error: database schema version 13 is newer than this binary supports (max 12); \
         upgrade the application"
    );
    assert_eq!(
        EngineError::Sqlite(SqliteError::WrongLength { found: 31 }).message(),
        "sqlite error: value of unexpected length 31"
    );
    assert_eq!(
        EngineError::FileWatcher(FileWatcherError::Io("gone".into())).message(),
        "file watcher error: io error: gone"
    );
    assert_eq!(
        EngineError::Reveal(RevealError::Json("eof".into())).message(),
        "reveal failed: history snapshot deserialisation failed: eof"
    );
}

// ---------------------------------------------------------------------- migrations

#[test]
fn migrations_array_is_strictly_increasing_and_starts_at_one() {
    let migrations = known_migrations();
    assert!(!migrations.is_empty(), "must ship at least one migration");
    assert_eq!(migrations[0].version, 1, "first migration is v1");
    for pair in migrations.windows(2) {
        assert!(
            pair[1].version > pair[0].version,
            "migration versions must strictly increase: {:?} -> {:?}",
            pair[0],
            pair[1],
        );
    }
}

#[test]
fn apply_pending_records_max_version() {
    let mut table = SchemaVersions::new();
    table.apply_pending().expect("apply");
    assert_eq!(table.current(), i64::from(known_migrations().last().unwrap().version));
}

#[test]
fn apply_pending_is_idempotent() {
    let mut table = SchemaVersions::new();
    table.apply_pending().expect("first");
    let again = table.apply_pending().expect("second");
    assert!(again.is_empty());
    assert_eq!(table.versions.len(), known_migrations().len());
}

#[test]
fn apply_pending_rejects_schema_newer_than_binary() {
    let mut table = SchemaVersions::new();
    table.apply_pending().expect("apply");
    let future = known_migrations().last().unwrap().version + 1;
    table.versions.push(i64::from(future));
    let err = table.apply_pending().expect_err("must reject");
    match err {
        MigrationError::SchemaTooNew { binary_max, file_current } => {
            assert_eq!(binary_max, known_migrations().last().unwrap().version);
            assert_eq!(file_current, future);
        }
        other => panic!("expected SchemaTooNew, got {other:?}"),
    }
}

#[test]
fn only_the_missing_steps_are_pending() {
    let steps = pending(10).unwrap();
    assert_eq!(steps.len(), 2);
    assert_eq!(steps[0].version, 11);
    assert_eq!(steps[0].name, "group_location_changed");
    assert_eq!(steps[1].sql, "migrations/0012_persistence_watermark.sql");
    assert_eq!(pending(-1).unwrap().len(), 12);
    assert!(pending(12).unwrap().is_empty());
}

#[test]
fn a_database_ahead_of_this_build_is_refused_however_far() {
    for (recorded, shown) in [(13, 13), (0xffff_ffff, u32::MAX), (0x1_0000_0000, u32::MAX), (i64::MAX, u32::MAX)] {
        match pending(recorded) {
            Err(MigrationError::SchemaTooNew { binary_max, file_current }) => {
                assert_eq!((binary_max, file_current), (12, shown));
            }
            other => panic!("unexpected {other:?}"),
        }
    }
    let mut table = SchemaVersions::new();
    table.versions.push(0x1_0000_000c);
    assert!(table.apply_pending().is_err());
    assert_eq!(table.versions, vec![0x1_0000_000c]);
}

// ----------------------------------------------------------------------------- keys

struct FixedKey([u8; 32]);

impl KeyProvider for FixedKey {
    fn acquire_db_key(&self) -> Result<DbKey, KeyProviderError> {
        Ok(DbKey::from_bytes(self.0))
    }
}

struct FailingKey(String);

impl KeyProvider for FailingKey {
    fn acquire_db_key(&self) -> Result<DbKey, KeyProviderError> {
        Err(KeyProviderError::KeyUnavailable(self.0.clone()))
    }
}

#[test]
fn db_key_round_trips_bytes() {
    let raw = [7u8; 32];
    let key = DbKey::from_bytes(raw);
    assert_eq!(key.as_bytes(), &raw);
}

#[test]
fn db_key_debug_redacts() {
    let key = DbKey::from_bytes([0u8; 32]);
    assert_eq!(key.debug_text(), "DbKey(<redacted>)");
}

#[test]
fn provider_returns_key() {
    let provider = FixedKey([3u8; 32]);
    let key = provider.acquire_db_key().ok().expect("key");
    assert_eq!(key.as_bytes(), &[3u8; 32]);
}

#[test]
fn provider_propagates_error() {
    let provider = FailingKey("keychain locked".into());
    let err = provider.acquire_db_key().err().expect("must error");
    assert_eq!(err, KeyProviderError::KeyUnavailable("keychain locked".into()));
    assert_eq!(err.message(), "db key provider key unavailable: keychain locked");
}

#[test]
fn delete_db_key_default_fails_closed() {
    let provider = FixedKey([1u8; 32]);
    match provider.delete_db_key().expect_err("default delete must fail closed") {
        KeyProviderError::KeyUnavailable(msg) => assert!(
            msg.contains("not implemented"),
            "default error should name the unimplemented method: {msg}",
        ),
        other => panic!("unexpected {other:?}"),
    }
}

struct RecordingKey {
    deleted: std::sync::atomic::AtomicBool,
}

impl KeyProvider for RecordingKey {
    fn acquire_db_key(&self) -> Result<DbKey, KeyProviderError> {
        Ok(DbKey::from_bytes([2u8; 32]))
    }

    fn delete_db_key(&self) -> Result<(), KeyProviderError> {
        self.deleted.store(true, std::sync::atomic::Ordering::SeqCst);
        Ok(())
    }
}

#[test]
fn delete_db_key_override_is_invoked() {
    let provider = RecordingKey { deleted: std::sync::atomic::AtomicBool::new(false) };
    assert!(!provider.deleted.load(std::sync::atomic::Ordering::SeqCst));
    provider.delete_db_key().expect("override delete succeeds");
    assert!(
        provider.deleted.load(std::sync::atomic::Ordering::SeqCst),
        "override must record the deletion",
    );
}

#[test]
fn a_wiped_key_is_zero() {
    let mut key = DbKey::from_bytes([9; 32]);
    let copy = key.clone();
    key.wipe();
    assert_eq!(key.as_bytes(), &[0; 32]);
    assert_eq!(copy.as_bytes(), &[9; 32]);
}

#[test]
fn the_key_statement_carries_raw_hex() {
    let key = DbKey::from_bytes([0xab; 32]);
    let want = format!("PRAGMA key = \"x'{}'\"", "ab".repeat(32));
    assert_eq!(key_statement(&key), want);
}

// -------------------------------------------------------------------- the file watcher

#[test]
fn changes_become_events() {
    let mut p = Presence { was_available: true };
    let e = p.translate(FileChange::Modify, true, Some(5), Some(6), "/v.kdbx");
    assert!(matches!(
        e,
        Some(FileWatcherEvent::ContentChanged { mtime: Some(5), size: Some(6) })
    ));
    assert!(p.translate(FileChange::Access, true, None, None, "/v.kdbx").is_none());
    assert!(p.translate(FileChange::Remove, false, None, None, "/v.kdbx").is_none());
    assert!(p.was_available);
    match p.translate(FileChange::Remove, true, None, None, "/v.kdbx") {
        Some(FileWatcherEvent::Unavailable { reason }) => {
            assert_eq!(reason, "file removed: /v.kdbx")
        }
        other => panic!("unexpected {other:?}"),
    }
    assert!(!p.was_available);
    assert!(matches!(
        p.translate(FileChange::Create, true, Some(1), Some(2), "/v.kdbx"),
        Some(FileWatcherEvent::Available)
    ));
    assert!(matches!(
        p.translate(FileChange::Create, true, Some(1), Some(2), "/v.kdbx"),
        Some(FileWatcherEvent::ContentChanged { mtime: Some(1), size: Some(2) })
    ));
}

#[test]
fn a_file_that_is_moved_away_is_gone() {
    let mut p = Presence { was_available: true };
    let gone = |e: Option<FileWatcherEvent>| match e {
        Some(FileWatcherEvent::Unavailable { reason }) => reason,
        other => panic!("unexpected {other:?}"),
    };
    assert_eq!(
        gone(p.translate(FileChange::MoveAway, true, None, None, "/v.kdbx")),
        "file moved away: /v.kdbx"
    );
    assert!(!p.was_available);
    assert!(matches!(
        p.translate(FileChange::MoveIn, true, Some(1), Some(2), "/v.kdbx"),
        Some(FileWatcherEvent::Available)
    ));
    assert!(p.was_available);
    assert!(matches!(
        p.translate(FileChange::MoveIn, true, Some(3), Some(4), "/v.kdbx"),
        Some(FileWatcherEvent::ContentChanged { mtime: Some(3), size: Some(4) })
    ));
    assert_eq!(
        gone(p.translate(FileChange::Move, true, None, None, "/v.kdbx")),
        "file moved away: /v.kdbx"
    );
    assert!(matches!(
        p.translate(FileChange::Move, true, Some(5), Some(6), "/v.kdbx"),
        Some(FileWatcherEvent::Available)
    ));
    assert!(p.translate(FileChange::MoveAway, false, None, None, "/v.kdbx").is_none());
    assert!(p.was_available);
}

// ----------------------------------------------------------------------------- model

#[test]
fn pagination_all_returns_full_range() {
    let p = Pagination::all();
    assert_eq!(p.offset, 0);
    assert_eq!(p.limit, u64::MAX);
}

#[test]
fn buckets_are_numbered_from_the_weakest() {
    assert_eq!(StrengthBucket::VeryWeak.to_ordinal(), 0);
    assert_eq!(StrengthBucket::VeryStrong.to_ordinal(), 4);
}

#[test]
fn references_compare_by_value() {
    let a = CustomFieldRef { name: "x".into(), is_protected: true };
    assert_ne!(a, CustomFieldRef { name: "x".into(), is_protected: false });
    let f = AttachmentRef { name: "f".into(), size: 3 };
    assert_eq!(f, AttachmentRef { name: "f".into(), size: 3 });
    let s = SmartFolder {
        id: 1,
        name: "n".into(),
        predicate: "{}".into(),
        version: 1,
        evaluable: true,
        created_at: 0,
        modified_at: 0,
    };
    assert_eq!(s.version, 1);
}
