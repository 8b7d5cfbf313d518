use gaze_hermes_sidecar::auth::AuthState;
use gaze_hermes_sidecar::config::{
    bind_allowed, data_dir_source, parse_token, trim, DataDirSource, IpAddress, DEFAULT_BIND,
};
use gaze_hermes_sidecar::crypto::{decrypt_snapshot, encrypt_snapshot, MAGIC, NONCE_LEN};
use gaze_hermes_sidecar::policies::ValidationResult;
use gaze_hermes_sidecar::sessions::StoreError;

#[test]
fn bearer_token_must_match_exactly() {
    let auth = AuthState::new("secret-token");
    assert!(auth.matches(b"secret-token"));
    assert!(!auth.matches(b"secret-tokem"));
    assert!(!auth.matches(b"secret"));
    assert!(auth.authorizes(Some("Bearer secret-token")));
    assert!(!auth.authorizes(Some("bearer secret-token")));
    assert!(!auth.authorizes(Some("Bearer wrong")));
    assert!(!auth.authorizes(None));
}

#[test]
fn token_file_contents_are_trimmed() {
    assert_eq!(parse_token("  abc \n").as_deref(), Some("abc"));
    assert_eq!(parse_token(" \n\t "), None);
    assert_eq!(trim("\u{3000}x y\u{a0}"), "x y");
}

#[test]
fn only_loopback_binds_unless_allowed() {
    assert_eq!(DEFAULT_BIND, "127.0.0.1:65113");
    assert!(bind_allowed(&IpAddress::V4([127, 0, 0, 1]), false));
    assert!(bind_allowed(&IpAddress::V4([127, 9, 9, 9]), false));
    assert!(!bind_allowed(&IpAddress::V4([0, 0, 0, 0]), false));
    assert!(bind_allowed(&IpAddress::V4([0, 0, 0, 0]), true));
    assert!(bind_allowed(&IpAddress::V6([0, 0, 0, 0, 0, 0, 0, 1]), false));
    assert!(!bind_allowed(&IpAddress::V6([0, 0, 0, 0, 0, 0xffff, 0x7f00, 1]), false));
}

#[test]
fn data_dir_follows_the_first_available_source() {
    assert_eq!(data_dir_source(true, true, true, true, true), DataDirSource::Explicit);
    assert_eq!(data_dir_source(false, true, true, true, true), DataDirSource::BesideTokenFile);
    assert_eq!(data_dir_source(false, false, false, true, true), DataDirSource::XdgDataHome);
    assert_eq!(data_dir_source(false, false, false, false, true), DataDirSource::Home);
    assert_eq!(
        data_dir_source(false, false, false, false, false),
        DataDirSource::WorkingDirectory
    );
}

#[test]
fn snapshot_envelope_round_trips_and_rejects_bad_framing() {
    let key = [3u8; 32];
    let envelope = encrypt_snapshot(&key, b"aad", b"payload").unwrap();
    assert_eq!(envelope.len(), MAGIC.len() + NONCE_LEN + b"payload".len() + 16);
    assert_eq!(decrypt_snapshot(&key, b"aad", &envelope).unwrap(), b"payload");
    assert!(matches!(
        decrypt_snapshot(&key, b"other", &envelope),
        Err(StoreError::Decrypt)
    ));
    assert!(matches!(
        decrypt_snapshot(&key, b"aad", b"short"),
        Err(StoreError::Integrity)
    ));
    let first = encrypt_snapshot(&key, b"aad", b"payload").unwrap();
    assert_ne!(first, envelope, "each envelope draws a fresh nonce");
}

#[test]
fn validation_results_carry_messages() {
    let ok = ValidationResult::ok();
    assert!(ok.ok && ok.errors.is_empty());
    let bad = ValidationResult::from_error("boom".to_string());
    assert!(!bad.ok);
    assert_eq!(bad.errors, vec!["boom".to_string()]);
}
