use gaze_hermes_sidecar::api::metrics::{observe_latency, Metrics, RequestKind};
use gaze_hermes_sidecar::api::privacy::{collect_detections, guess_class, merge_detections, restore_fields};
use gaze_hermes_sidecar::protocol::{DetectionCount, PolicyTestFieldResult, RequestNamespace, TextField};
use gaze_hermes_sidecar::sessions::SessionHandle;
use gaze_hermes_sidecar::streaming::StreamError;

#[test]
fn guess_class_prefers_the_first_lost_word() {
    assert_eq!(
        guess_class("mail alice@example.invalid now", "mail <t:1> now").as_deref(),
        Some("email")
    );
    assert_eq!(
        guess_class("ask Alice today", "ask <t:1> today").as_deref(),
        Some("name")
    );
    assert_eq!(guess_class("same words", "same words"), None);
    assert_eq!(guess_class("a b", "c d"), None);
    assert_eq!(guess_class("(Bo)", "x").as_deref(), Some("name"));
    assert_eq!(guess_class("(B)", "x"), None);
}

#[test]
fn collect_detections_counts_changed_fields_only() {
    let mut out = Vec::new();
    collect_detections("hi Alice", "hi Alice", &mut out);
    assert!(out.is_empty());
    collect_detections("hi Alice", "hi <t:1>", &mut out);
    assert_eq!(
        out,
        vec![DetectionCount {
            class: "name".into(),
            count: 1
        }]
    );
}

#[test]
fn merge_detections_sums_by_class_in_first_seen_order() {
    let d = |c: &str, n: u64| DetectionCount {
        class: c.into(),
        count: n,
    };
    let merged = merge_detections(vec![d("email", 1), d("name", 2), d("email", 3)]);
    assert_eq!(merged, vec![d("email", 4), d("name", 2)]);
    assert!(merge_detections(vec![]).is_empty());
}

#[test]
fn metrics_snapshot_reports_counters() {
    let mut m = Metrics::new();
    m.record_request(RequestKind::Clean);
    m.record_outcome(RequestKind::Clean, Some(7));
    m.record_request(RequestKind::Restore);
    m.record_outcome(RequestKind::Restore, None);
    m.record_policy_conflict();
    let s = m.snapshot();
    assert_eq!(s.clean_requests, 1);
    assert_eq!(s.clean_latency_ms_sum, 7);
    assert_eq!(s.clean_latency_ms_max, 7);
    assert_eq!(s.restore_requests, 1);
    assert_eq!(s.restore_errors, 1);
    assert_eq!(s.policy_apply_conflicts, 1);
    assert_eq!(Metrics::default(), Metrics::new());
}

#[test]
fn latency_sum_wraps_and_max_keeps_largest() {
    let mut sum = u64::MAX;
    let mut max = 10;
    observe_latency(&mut sum, &mut max, 3);
    assert_eq!(sum, 2);
    assert_eq!(max, 10);
    observe_latency(&mut sum, &mut max, 12);
    assert_eq!(sum, 14);
    assert_eq!(max, 12);
}

#[test]
fn session_key_ignores_request_id() {
    let ns = RequestNamespace {
        profile_id: "p".into(),
        session_id: "s".into(),
        request_id: "r-1".into(),
    };
    let k = ns.session_key();
    assert_eq!(k.profile_id, "p");
    assert_eq!(k.session_id, "s");
}

#[test]
fn policy_test_field_reports_round_trip() {
    let f = PolicyTestFieldResult::new("/a".into(), "x".into(), "y".into(), "x".into());
    assert!(f.original_present);
    assert!(f.round_trip_ok);
    let g = PolicyTestFieldResult::new("/a".into(), "x".into(), "x".into(), "z".into());
    assert!(!g.original_present);
    assert!(!g.round_trip_ok);
}

#[test]
fn restore_fields_keeps_paths_and_restores_tokens() {
    let session = gaze::Session::new(gaze::Scope::Conversation("restore".into())).unwrap();
    let token = session
        .tokenize(&gaze::PiiClass::Email, "alice@example.invalid")
        .unwrap();
    let handle = SessionHandle {
        session: std::sync::Mutex::new(session),
    };
    let fields = vec![
        TextField {
            path: "/0".into(),
            text: format!("to {token}"),
        },
        TextField {
            path: "/1".into(),
            text: "plain".into(),
        },
    ];
    let out = restore_fields(&handle, &fields).unwrap();
    assert_eq!(out[0].path, "/0");
    assert_eq!(out[0].text, "to alice@example.invalid");
    assert_eq!(out[1].text, "plain");
}

#[test]
fn restore_fields_refuses_unknown_tokens() {
    let other = gaze::Session::new(gaze::Scope::Conversation("other".into())).unwrap();
    let foreign = other
        .tokenize(&gaze::PiiClass::Email, "bob@example.invalid")
        .unwrap();
    let session = gaze::Session::new(gaze::Scope::Conversation("restore".into())).unwrap();
    let handle = SessionHandle {
        session: std::sync::Mutex::new(session),
    };
    let fields = vec![TextField {
        path: "/0".into(),
        text: foreign,
    }];
    assert!(matches!(
        restore_fields(&handle, &fields),
        Err(StreamError::StrictRestore)
    ));
}
