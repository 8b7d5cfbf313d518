use std::sync::Arc;

use gaze_hermes_sidecar::sessions::SessionHandle;
use gaze_hermes_sidecar::streaming::socket::{Inbound, OpenRefusal, Outbound, SocketState, Step};
use gaze_hermes_sidecar::streaming::{StreamError, StreamManager, StreamRestorer};

const EMAIL: &str = "alice@example.invalid";

fn fixture_session_with_email(email: &str) -> (Arc<SessionHandle>, String) {
    let session = gaze::Session::new(gaze::Scope::Conversation("stream-fixture".into())).unwrap();
    let protected = session.tokenize(&gaze::PiiClass::Email, email).unwrap();
    assert_ne!(protected, email, "fixture email must tokenize");
    let handle = Arc::new(SessionHandle {
        session: std::sync::Mutex::new(session),
    });
    (handle, protected)
}

#[test]
fn split_token_is_never_emitted_partially() {
    let (session, token) = fixture_session_with_email(EMAIL);
    for split in 1..token.len() {
        if !token.is_char_boundary(split) {
            continue;
        }
        let mut r = StreamRestorer::new(session.clone());
        assert_eq!(r.feed(1, "text", &token[..split]).unwrap(), "");
        assert_eq!(
            r.feed(2, "text", &token[split..]).unwrap(),
            EMAIL,
            "split at byte {split}"
        );
    }
}

#[test]
fn two_tokens_in_one_chunk_restore_together() {
    let (session, token) = fixture_session_with_email(EMAIL);
    let chunk = format!("A {token} and {token} B");
    let mut r = StreamRestorer::new(session.clone());
    let out = r.feed(1, "text", &chunk).unwrap();
    assert_eq!(out, format!("A {EMAIL} and {EMAIL} B"));
}

#[test]
fn interleaved_lanes_keep_independent_carries() {
    let (session, token) = fixture_session_with_email(EMAIL);
    let mut r = StreamRestorer::new(session.clone());
    let mid = token.len() / 2;
    let mid = if token.is_char_boundary(mid) {
        mid
    } else {
        mid + 1
    };
    assert_eq!(r.feed(1, "text", &token[..mid]).unwrap(), "");
    assert_eq!(
        r.feed(2, "reasoning", "thinking...").unwrap(),
        "thinking..."
    );
    assert_eq!(r.feed(3, "text", &token[mid..]).unwrap(), EMAIL);
    r.finish().unwrap();
}

#[test]
fn duplicate_sequence_rejected() {
    let (session, _token) = fixture_session_with_email(EMAIL);
    let mut r = StreamRestorer::new(session.clone());
    r.feed(1, "text", "hello").unwrap();
    let err = r.feed(1, "text", "world").unwrap_err();
    assert!(matches!(err, StreamError::DuplicateSequence));
}

#[test]
fn skipped_sequence_rejected() {
    let (session, _token) = fixture_session_with_email(EMAIL);
    let mut r = StreamRestorer::new(session.clone());
    r.feed(1, "text", "hello").unwrap();
    let err = r.feed(3, "text", "world").unwrap_err();
    assert!(matches!(err, StreamError::SkippedSequence));
}

#[test]
fn finish_with_dangling_token_prefix_fails() {
    let (session, token) = fixture_session_with_email(EMAIL);
    let mut r = StreamRestorer::new(session.clone());
    let mid = token.len() / 2;
    let mid = if token.is_char_boundary(mid) {
        mid
    } else {
        mid + 1
    };
    r.feed(1, "text", &token[..mid]).unwrap();
    let err = r.finish().unwrap_err();
    assert!(matches!(err, StreamError::StrictRestore));
}

#[test]
fn finish_with_complete_text_succeeds() {
    let (session, token) = fixture_session_with_email(EMAIL);
    let mut r = StreamRestorer::new(session.clone());
    r.feed(1, "text", &format!("hi {token}")).unwrap();
    r.finish().unwrap();
}

#[test]
fn abort_removes_stream_state() {
    let (session, token) = fixture_session_with_email(EMAIL);
    let mut manager = StreamManager::default();
    manager
        .open("s-1", StreamRestorer::new(session.clone()))
        .unwrap();
    assert!(manager.contains("s-1"));
    manager
        .get("s-1")
        .unwrap()
        .feed(&mut manager, 1, "text", &token[..1.min(token.len())])
        .unwrap();
    manager.abort("s-1").unwrap();
    assert!(!manager.contains("s-1"));
    let err = manager.abort("s-1").unwrap_err();
    assert!(matches!(err, StreamError::UnknownStream));
}

#[test]
fn plain_text_without_token_prefix_is_released_at_once() {
    let (session, _token) = fixture_session_with_email(EMAIL);
    let mut r = StreamRestorer::new(session);
    assert_eq!(r.feed(1, "text", "hello world").unwrap(), "hello world");
    r.finish().unwrap();
}

#[test]
fn feeding_after_finish_is_refused() {
    let (session, _token) = fixture_session_with_email(EMAIL);
    let mut r = StreamRestorer::new(session);
    r.feed(1, "text", "hello").unwrap();
    r.finish().unwrap();
    let err = r.feed(2, "text", "more").unwrap_err();
    assert!(matches!(err, StreamError::SkippedSequence));
}

#[test]
fn stream_error_codes_are_stable() {
    assert_eq!(StreamError::DuplicateSequence.code(), "duplicate_sequence");
    assert_eq!(StreamError::SkippedSequence.code(), "skipped_sequence");
    assert_eq!(StreamError::StrictRestore.code(), "strict_restore_failed");
    assert_eq!(StreamError::UnknownStream.code(), "unknown_stream");
    assert_eq!(StreamError::AlreadyOpen.code(), "stream_already_open");
}

#[test]
fn opening_a_stream_twice_is_refused() {
    let (session, _token) = fixture_session_with_email(EMAIL);
    let mut manager = StreamManager::new();
    manager.open("s-1", StreamRestorer::new(session.clone())).unwrap();
    let err = manager
        .open("s-1", StreamRestorer::new(session))
        .unwrap_err();
    assert!(matches!(err, StreamError::AlreadyOpen));
}

#[test]
fn longest_owned_prefix_counts_held_back_characters() {
    let tokens: Vec<Vec<char>> = vec!["<tok:1>".chars().collect()];
    let text: Vec<char> = "hello <to".chars().collect();
    assert_eq!(
        gaze_hermes_sidecar::streaming::restorer::longest_owned_token_prefix_suffix(&text, &tokens),
        3
    );
    let none: Vec<char> = "hello".chars().collect();
    assert_eq!(
        gaze_hermes_sidecar::streaming::restorer::longest_owned_token_prefix_suffix(&none, &tokens),
        0
    );
}

fn frames(step: Step) -> Vec<Outbound> {
    match step {
        Step::Continue(f) | Step::End(f) => f,
        Step::PrepareOpen => panic!("unexpected open"),
    }
}

#[test]
fn socket_chunk_before_open_is_invalid() {
    let mut manager = StreamManager::new();
    let mut state = SocketState::new();
    let step = state.on_message(
        &mut manager,
        "s-1",
        Inbound::Chunk {
            seq: Some(1),
            kind: None,
            text: Some("x".into()),
        },
    );
    assert_eq!(frames(step), vec![Outbound::Error("invalid_message".into())]);
}

#[test]
fn socket_open_feed_finish_round_trip() {
    let (session, token) = fixture_session_with_email(EMAIL);
    let mut manager = StreamManager::new();
    let mut state = SocketState::new();
    assert!(matches!(
        state.on_message(&mut manager, "s-1", Inbound::Open),
        Step::PrepareOpen
    ));
    let opened = state.opened(&mut manager, "s-1", Ok(StreamRestorer::new(session)));
    assert_eq!(opened, vec![Outbound::Opened("s-1".into())]);
    assert!(matches!(
        state.on_message(&mut manager, "s-1", Inbound::Open),
        Step::Continue(ref f) if f == &vec![Outbound::Error("stream_already_open".into())]
    ));
    let step = state.on_message(
        &mut manager,
        "s-1",
        Inbound::Chunk {
            seq: Some(1),
            kind: None,
            text: Some(format!("mail {token}")),
        },
    );
    assert_eq!(frames(step), vec![Outbound::Chunk(1, format!("mail {EMAIL}"))]);
    let step = state.on_message(&mut manager, "s-1", Inbound::Chunk { seq: None, kind: None, text: None });
    assert_eq!(frames(step), vec![Outbound::Error("invalid_chunk".into())]);
    let step = state.on_message(&mut manager, "s-1", Inbound::Finish);
    assert_eq!(frames(step), vec![Outbound::Finished]);
    assert!(state.finished);
    let step = state.on_message(&mut manager, "s-1", Inbound::Finish);
    assert_eq!(frames(step), vec![Outbound::Error("invalid_message".into())]);
}

#[test]
fn socket_sequence_error_closes_and_drops_stream() {
    let (session, _token) = fixture_session_with_email(EMAIL);
    let mut manager = StreamManager::new();
    let mut state = SocketState::new();
    let _ = state.on_message(&mut manager, "s-2", Inbound::Open);
    state.opened(&mut manager, "s-2", Ok(StreamRestorer::new(session)));
    let step = state.on_message(
        &mut manager,
        "s-2",
        Inbound::Chunk { seq: Some(5), kind: Some("text".into()), text: Some("x".into()) },
    );
    match step {
        Step::End(f) => assert_eq!(
            f,
            vec![Outbound::Error("skipped_sequence".into()), Outbound::Close]
        ),
        _ => panic!("expected end"),
    }
    assert!(!manager.contains("s-2"));
}

#[test]
fn socket_open_refusals_report_codes() {
    let mut manager = StreamManager::new();
    let mut state = SocketState::new();
    assert_eq!(
        state.opened(&mut manager, "s", Err(OpenRefusal::InvalidNamespace)),
        vec![Outbound::Error("invalid_namespace".into())]
    );
    assert_eq!(
        state.opened(&mut manager, "s", Err(OpenRefusal::SessionUnavailable)),
        vec![Outbound::Error("session_unavailable".into())]
    );
    assert!(!state.opened);
}

#[test]
fn socket_abort_replies_and_closes() {
    let mut manager = StreamManager::new();
    let mut state = SocketState::new();
    match state.on_message(&mut manager, "s", Inbound::Abort) {
        Step::End(f) => assert_eq!(f, vec![Outbound::Aborted, Outbound::Close]),
        _ => panic!("expected end"),
    }
    match state.on_message(&mut manager, "s", Inbound::NotJson) {
        Step::Continue(f) => assert_eq!(f, vec![Outbound::Error("invalid_message".into())]),
        _ => panic!("expected continue"),
    }
}

#[test]
fn failed_finish_keeps_the_dangling_prefix_so_a_retry_fails_too() {
    let (session, token) = fixture_session_with_email(EMAIL);
    let mut r = StreamRestorer::new(session);
    let mid = token.len() / 2;
    let mid = if token.is_char_boundary(mid) { mid } else { mid + 1 };
    r.feed(1, "text", &token[..mid]).unwrap();
    assert!(matches!(r.finish().unwrap_err(), StreamError::StrictRestore));
    assert!(matches!(r.finish().unwrap_err(), StreamError::StrictRestore));
}
