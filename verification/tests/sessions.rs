use gaze_hermes_sidecar::crypto::{
    decrypt_session_payload, decrypt_snapshot, derive_session_key, encrypt_session_payload,
};
use gaze_hermes_sidecar::sessions::registry::{SessionBook, SessionIndex, SnapshotRead};
use gaze_hermes_sidecar::sessions::{
    is_stale_tmp, namespace_bytes, snapshot_file_name, temp_file_name, SessionKey, StoreError,
};

fn key(profile: &str, session: &str) -> SessionKey {
    SessionKey {
        profile_id: profile.to_string(),
        session_id: session.to_string(),
    }
}

const MASTER: [u8; 32] = [7u8; 32];

fn refused<T>(r: Result<T, StoreError>) -> StoreError {
    match r {
        Ok(_) => panic!("expected an error"),
        Err(e) => e,
    }
}

#[test]
fn round_trip_restore_returns_plaintext() {
    let envelope =
        encrypt_session_payload(&MASTER, "profile-a", "session-1", b"alice@example.invalid")
            .unwrap();
    let bytes = decrypt_session_payload(&MASTER, "profile-a", "session-1", &envelope).unwrap();
    assert_eq!(bytes, b"alice@example.invalid");
}

#[test]
fn wrong_master_key_fails_to_decrypt() {
    let envelope =
        encrypt_session_payload(&MASTER, "profile-a", "session-1", b"alice@example.invalid")
            .unwrap();
    let mut wrong = [0x42u8; 32];
    wrong[0] ^= 0xff;
    let err = decrypt_session_payload(&wrong, "profile-a", "session-1", &envelope).unwrap_err();
    assert!(matches!(err, StoreError::Decrypt | StoreError::Integrity));
}

#[test]
fn tampered_snapshot_never_replaces_live_session() {
    let k = key("profile-a", "session-1");
    let mut envelope =
        encrypt_session_payload(&MASTER, "profile-a", "session-1", b"alice@example.invalid")
            .unwrap();
    let last = envelope.len() - 1;
    envelope[last] ^= 0xff;

    let err = decrypt_session_payload(&MASTER, "profile-a", "session-1", &envelope).unwrap_err();
    assert!(matches!(err, StoreError::Decrypt | StoreError::Integrity));
    let mut book = SessionBook::new(vec![]);
    let err = refused(book.restore(&k, &MASTER, SnapshotRead::Found(envelope)));
    assert!(matches!(err, StoreError::RecoveryBlocked));
    assert!(book.cached(&k).is_none());
}

#[test]
fn stale_tmp_ignored_next_to_valid_snapshot() {
    let name = snapshot_file_name(&key("profile-a", "session-1"));
    assert!(!is_stale_tmp(&name));
    assert!(is_stale_tmp(&format!("{name}.tmp-deadbeef")));
    let tmp = temp_file_name(Some(&name));
    assert!(tmp.starts_with(&format!("{name}.tmp-")));
    assert_eq!(tmp.len(), name.len() + ".tmp-".len() + 8);
    assert!(is_stale_tmp(&tmp));
    assert!(temp_file_name(None).starts_with("snapshot.tmp-"));
}

#[test]
fn profile_and_session_namespaces_are_separate() {
    let a1 = encrypt_session_payload(&MASTER, "profile-a", "session-1", b"a1@example.invalid")
        .unwrap();
    assert!(decrypt_session_payload(&MASTER, "profile-b", "session-1", &a1).is_err());
    assert!(decrypt_session_payload(&MASTER, "profile-a", "session-2", &a1).is_err());
    assert_eq!(
        decrypt_session_payload(&MASTER, "profile-a", "session-1", &a1).unwrap(),
        b"a1@example.invalid"
    );
    assert_ne!(
        snapshot_file_name(&key("profile-a", "session-1")),
        snapshot_file_name(&key("profile-b", "session-1"))
    );
    assert_ne!(namespace_bytes("ab", "c"), namespace_bytes("a", "bc"));
}

#[test]
fn recovery_blocked_on_corrupt_snapshot_and_delete_clears() {
    let k = key("profile-a", "session-1");
    let mut book = SessionBook::new(vec![key("profile-a", "session-1")]);
    let err = refused(book.restore(
        &k,
        &MASTER,
        SnapshotRead::Found(b"not-a-valid-envelope".to_vec()),
    ));
    assert!(matches!(err, StoreError::RecoveryBlocked));
    let metadata = book.metadata(&k, true, None, 0);
    assert!(metadata.recovery_blocked);

    book.drop_handle(&k);
    assert!(book.forget(&k));
    assert!(!book.is_blocked(&k));
    assert!(book.index_keys().is_empty());

    let handle = book.restore(&k, &MASTER, SnapshotRead::Missing).unwrap();
    assert!(handle.session.try_lock().is_ok());
    assert!(book.cached(&k).is_some());
}

#[test]
fn request_id_not_in_snapshot_path() {
    let name = snapshot_file_name(&key("profile-a", "session-1"));
    assert!(name.ends_with(".enc"));
    assert_eq!(name.len(), 64 + 4);
    assert!(!name.contains("request"));
    assert!(!name.contains("alice"));
    assert!(name[..64].chars().all(|c| c.is_ascii_hexdigit() && !c.is_ascii_uppercase()));
}

#[test]
fn snapshot_bytes_are_not_plaintext() {
    let on_disk =
        encrypt_session_payload(&MASTER, "profile-a", "session-1", b"alice@example.invalid")
            .unwrap();
    assert!(!on_disk.windows(14).any(|w| w == b"alice@example"));
    assert!(on_disk.starts_with(b"gaze-hermes-session-v1\n"));
}

#[test]
fn get_or_restore_round_trips_gaze_session() {
    let k = key("profile-a", "session-1");
    let mut book = SessionBook::new(vec![]);
    let handle = book.restore(&k, &MASTER, SnapshotRead::Missing).unwrap();
    assert!(handle.session.try_lock().is_ok());
    let envelope = book.envelope_for(&k, &MASTER).unwrap();
    book.record(&k);
    assert_eq!(book.index_keys(), vec![key("profile-a", "session-1")]);

    let mut reopened = SessionBook::new(book.index_keys());
    let reloaded = reopened
        .restore(&k, &MASTER, SnapshotRead::Found(envelope))
        .unwrap();
    assert!(reloaded.session.try_lock().is_ok());
    assert!(!reopened.is_blocked(&k));
}

#[test]
fn persisting_without_a_live_session_is_refused() {
    let book = SessionBook::new(vec![]);
    match book.envelope_for(&key("p", "s"), &MASTER) {
        Err(StoreError::Session(m)) => assert_eq!(m, "no active session"),
        _ => panic!("expected a session error"),
    }
}

#[test]
fn unknown_session_is_reported_by_name() {
    let book = SessionBook::new(vec![key("p", "known")]);
    assert!(book.check_known(&key("p", "known")).is_ok());
    match book.check_known(&key("p", "other")) {
        Err(StoreError::Session(m)) => assert_eq!(m, "unknown session p/other"),
        _ => panic!("expected a session error"),
    }
}

#[test]
fn installing_twice_keeps_the_first_handle() {
    let k = key("p", "s");
    let mut book = SessionBook::new(vec![]);
    let first = book.restore(&k, &MASTER, SnapshotRead::Missing).unwrap();
    let second = book.restore(&k, &MASTER, SnapshotRead::Missing).unwrap();
    assert!(std::sync::Arc::ptr_eq(&first, &second));
}

#[test]
fn index_lists_keys_sorted_without_duplicates() {
    let index = SessionIndex::from_keys(vec![
        key("profile-b", "session-1"),
        key("profile-a", "session-2"),
        key("profile-a", "session-1"),
        key("profile-b", "session-1"),
    ]);
    assert_eq!(
        index.sorted_keys(),
        vec![
            key("profile-a", "session-1"),
            key("profile-a", "session-2"),
            key("profile-b", "session-1"),
        ]
    );
    let mut index = index;
    assert!(index.remove(&key("profile-a", "session-2")));
    assert!(!index.remove(&key("profile-a", "session-2")));
    assert!(!index.insert(key("profile-b", "session-1")));
    assert!(index.insert(key("profile-0", "x")));
    assert_eq!(index.sorted_keys()[0], key("profile-0", "x"));
}

#[test]
fn io_failures_pass_through() {
    let mut book = SessionBook::new(vec![]);
    let err = refused(book.restore(
        &key("p", "s"),
        &MASTER,
        SnapshotRead::Failed(std::io::Error::other("disk")),
    ));
    assert!(matches!(err, StoreError::Io(_)));
}

#[test]
fn snapshot_and_index_paths_live_in_the_sessions_directory() {
    let dir = std::path::Path::new("/data/sessions");
    let k = key("profile-a", "session-1");
    let path = gaze_hermes_sidecar::sessions::snapshot_path(dir, &k);
    assert_eq!(path, dir.join(snapshot_file_name(&k)));
    assert_eq!(
        gaze_hermes_sidecar::sessions::index_path(dir),
        dir.join("index.json")
    );
}

#[test]
fn session_payload_is_sealed_under_derived_key_not_master() {
    let envelope =
        encrypt_session_payload(&MASTER, "profile-a", "session-1", b"alice@example.invalid")
            .unwrap();
    let aad = namespace_bytes("profile-a", "session-1");
    assert!(decrypt_snapshot(&MASTER, &aad, &envelope).is_err());
    let derived = derive_session_key(&MASTER, "profile-a", "session-1");
    assert_ne!(derived, MASTER);
    assert_eq!(derived, derive_session_key(&MASTER, "profile-a", "session-1"));
    assert_ne!(derived, derive_session_key(&MASTER, "profile-a", "session-2"));
    assert_eq!(
        decrypt_snapshot(&derived, &aad, &envelope).unwrap(),
        b"alice@example.invalid".to_vec()
    );
}

#[test]
fn session_envelope_length_is_magic_nonce_ciphertext_and_tag() {
    let m = b"alice@example.invalid";
    let envelope = encrypt_session_payload(&MASTER, "profile-a", "session-1", m).unwrap();
    assert_eq!(envelope.len(), 23 + 12 + m.len() + 16);
}
