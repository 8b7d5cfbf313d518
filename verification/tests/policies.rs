use gaze_hermes_sidecar::policies::{bundled_rulepack, BundledRulepack};
use gaze_hermes_sidecar::model::ModelProvisioner;
use gaze_hermes_sidecar::policies::document::{apply_global_edit, apply_profile_edit};
use gaze_hermes_sidecar::policies::{
    merge_policy_documents, rule_identity, sha256_hex, validate_profile_id, MergeError, PolicyDocuments,
    PolicyEdit, PolicyScope, PolicyStoreError, RecognizerEdit, RuleEdit,
};

const BASE_GLOBAL: &str = r#"
schema_version = "0.1.0"

[session]
scope = "conversation"

[policy.rulepacks]
bundled = ["core"]

[[rule]]
kind = "class"
class = "email"
action = "tokenize"

[[rule]]
kind = "class"
class = "name"
action = "tokenize"
"#;

const OVERLAY: &str = r#"
schema_version = "gaze-hermes-profile-1"

[[overrides.rules]]
kind = "class"
class = "email"
action = "redact"
"#;

fn store() -> PolicyDocuments {
    PolicyDocuments::new(BASE_GLOBAL.to_string())
}

fn store_with_profiles(ids: &[&str]) -> PolicyDocuments {
    let mut docs = store();
    for id in ids {
        docs.insert_profile(id.to_string(), OVERLAY.to_string()).unwrap();
    }
    docs
}

/// Applies `raw` the way the store does once every candidate has built.
fn apply(
    docs: &mut PolicyDocuments,
    scope: PolicyScope,
    expected: &str,
    raw: &str,
) -> Result<(), PolicyStoreError> {
    let candidates = docs.apply_candidates(&scope, expected, raw)?;
    for candidate in candidates {
        if let Err(err) = candidate.document {
            return Err(PolicyStoreError::Merge(err));
        }
    }
    docs.commit(&scope, raw);
    Ok(())
}

#[test]
fn profile_override_replaces_one_rule_without_flattening_base() {
    let base = r#"
schema_version = "0.1.0"
[[rule]]
kind = "class"
class = "email"
action = "tokenize"
[[rule]]
kind = "class"
class = "name"
action = "tokenize"
"#;
    let overlay = r#"
schema_version = "gaze-hermes-profile-1"
[[overrides.rules]]
kind = "class"
class = "email"
action = "redact"
"#;

    let effective = merge_policy_documents(base, overlay).unwrap();
    assert!(effective.contains("class = \"email\""));
    assert!(effective.contains("action = \"redact\""));
    assert!(effective.contains("class = \"name\""));
}

#[test]
fn profile_override_replaces_recognizer_by_name() {
    let base = r#"
schema_version = "0.1.0"

[session]
scope = "conversation"

[policy.rulepacks]
bundled = ["core"]

[[policy.custom_recognizers]]
kind = "regex"
name = "tenant_order"
pattern = 'ORD-[0-9]+'
class = "custom:order_id"

[[rule]]
kind = "class"
class = "custom:order_id"
action = "tokenize"
"#;
    let overlay = r#"
schema_version = "gaze-hermes-profile-1"

[[overrides.recognizers]]
kind = "regex"
name = "tenant_order"
pattern = 'TXN-[0-9]+'
class = "custom:order_id"
"#;

    let effective = merge_policy_documents(base, overlay).unwrap();
    assert!(effective.contains("TXN-[0-9]+"));
    assert!(!effective.contains("ORD-[0-9]+"));
    assert!(effective.contains("name = \"tenant_order\""));
    let occurrences = effective.matches("name = \"tenant_order\"").count();
    assert_eq!(occurrences, 1);
}

#[test]
fn remove_rules_deletes_inherited_entries() {
    let base = r#"
schema_version = "0.1.0"

[session]
scope = "conversation"

[[rule]]
kind = "class"
class = "email"
action = "tokenize"

[[rule]]
kind = "column"
column = "ssn"
action = "tokenize"

[[rule]]
kind = "default"
action = "tokenize"
"#;
    let overlay = r#"
schema_version = "gaze-hermes-profile-1"
remove_rules = ["class:email", "column:ssn", "default"]
"#;

    let effective = merge_policy_documents(base, overlay).unwrap();
    assert!(!effective.contains("class = \"email\""));
    assert!(!effective.contains("column = \"ssn\""));
    assert!(!effective.contains("kind = \"default\""));
    assert!(!effective.contains("remove_rules"));
}

#[test]
fn remove_recognizers_deletes_inherited_entries() {
    let base = r#"
schema_version = "0.1.0"

[session]
scope = "conversation"

[[policy.custom_recognizers]]
kind = "regex"
name = "legacy_rec"
pattern = 'OLD-[0-9]+'
class = "custom:old"

[[policy.custom_recognizers]]
kind = "regex"
name = "kept_rec"
pattern = 'KEEP-[0-9]+'
class = "custom:kept"

[[rule]]
kind = "class"
class = "custom:old"
action = "tokenize"
"#;
    let overlay = r#"
schema_version = "gaze-hermes-profile-1"
remove_recognizers = ["legacy_rec"]
remove_rules = ["class:custom:old"]
"#;

    let effective = merge_policy_documents(base, overlay).unwrap();
    assert!(!effective.contains("legacy_rec"));
    assert!(!effective.contains("OLD-[0-9]+"));
    assert!(effective.contains("kept_rec"));
    assert!(effective.contains("KEEP-[0-9]+"));
    assert!(!effective.contains("remove_recognizers"));
}

#[test]
fn merge_preserves_advanced_global_keys_and_comments() {
    let base = r#"
schema_version = "0.1.0"

# advanced operator knob stays untouched
[session]
scope = "conversation"
ttl_secs = 3600

[locale]
active = ["en-US"]

[policy.rulepacks]
bundled = ["core"]

[[rule]]
kind = "class"
class = "email"
action = "tokenize"
"#;
    let overlay = r#"
schema_version = "gaze-hermes-profile-1"
[[overrides.rules]]
kind = "class"
class = "email"
action = "format_preserve"
"#;

    let effective = merge_policy_documents(base, overlay).unwrap();
    assert!(effective.contains("# advanced operator knob stays untouched"));
    assert!(effective.contains("ttl_secs = 3600"));
    assert!(effective.contains("[locale]"));
    assert!(effective.contains("active = [\"en-US\"]"));
    assert!(effective.contains("action = \"format_preserve\""));
    assert!(!effective.contains("gaze-hermes-profile-1"));
    assert!(!effective.contains("overrides"));
}

#[test]
fn merge_appends_rule_when_base_lacks_identity() {
    let base = r#"
schema_version = "0.1.0"

[[rule]]
kind = "class"
class = "email"
action = "tokenize"
"#;
    let overlay = r#"
schema_version = "gaze-hermes-profile-1"
[[overrides.rules]]
kind = "class"
class = "location"
action = "redact"
"#;

    let effective = merge_policy_documents(base, overlay).unwrap();
    assert!(effective.contains("class = \"location\""));
    assert!(effective.contains("action = \"redact\""));
    assert!(effective.contains("class = \"email\""));
}

#[test]
fn merge_reports_which_document_does_not_parse() {
    let err = merge_policy_documents("rule = [", OVERLAY).unwrap_err();
    assert!(matches!(err, MergeError::BaseParse(_)));
    let err = merge_policy_documents(BASE_GLOBAL, "[[overrides.rules]\n").unwrap_err();
    assert!(matches!(err, MergeError::OverlayParse(_)));
    assert!(err.message().starts_with("failed to parse overlay: "));
}

#[test]
fn merge_orders_overrides_by_identity_after_kept_rules() {
    let base = "[[rule]]\nkind = \"class\"\nclass = \"name\"\naction = \"tokenize\"\n";
    let overlay = r#"
[[overrides.rules]]
kind = "class"
class = "zip"
action = "redact"

[[overrides.rules]]
kind = "class"
class = "city"
action = "redact"

[[rule]]
kind = "class"
class = "zip"
action = "tokenize"
"#;
    let merged = merge_policy_documents(base, overlay).unwrap();
    let name = merged.find("class = \"name\"").unwrap();
    let city = merged.find("class = \"city\"").unwrap();
    let zip = merged.find("class = \"zip\"").unwrap();
    assert!(name < city && city < zip);
    assert_eq!(merged.matches("class = \"zip\"").count(), 1);
    assert!(merged.contains("schema_version = \"0.1.0\""));
}

#[test]
fn effective_merges_profile_over_global() {
    let docs = store_with_profiles(&["team-a"]);

    let global = docs.effective_document(None).unwrap();
    assert!(global.contains("action = \"tokenize\""));
    assert!(!global.contains("action = \"redact\""));

    let profile = docs.effective_document(Some("team-a")).unwrap();
    assert!(profile.contains("action = \"redact\""));
    assert!(profile.contains("class = \"name\""));
    assert_ne!(
        sha256_hex(global.as_bytes()),
        sha256_hex(profile.as_bytes())
    );
}

#[test]
fn effective_unknown_profile_is_error() {
    let docs = store();
    assert!(docs.effective_document(Some("nope")).is_err());
    assert!(matches!(
        docs.effective_document(Some("../evil")),
        Err(PolicyStoreError::InvalidProfileId(_))
    ));
}

#[test]
fn edit_returns_candidate_without_touching_active_or_file() {
    let docs = store();
    let scope = PolicyScope::Global;
    let hash = docs.document_hash(&scope);

    let candidate = docs
        .edit(
            scope.clone(),
            &hash,
            PolicyEdit::UpsertRule(RuleEdit {
                kind: "class".to_string(),
                class: Some("location".to_string()),
                column: None,
                action: "redact".to_string(),
            }),
        )
        .unwrap();

    assert!(candidate.toml.contains("class = \"location\""));
    assert_eq!(candidate.hash, sha256_hex(candidate.toml.as_bytes()));

    let active = docs.effective_document(None).unwrap();
    assert!(!active.contains("class = \"location\""));
    assert_eq!(docs.document_hash(&scope), hash);
}

#[test]
fn edit_with_stale_hash_conflicts() {
    let docs = store();
    let err = docs
        .edit(
            PolicyScope::Global,
            "deadbeef",
            PolicyEdit::RemoveRule {
                identity: "class:email".to_string(),
            },
        )
        .unwrap_err();
    assert!(matches!(err, PolicyStoreError::Conflict));
}

#[test]
fn apply_with_current_hash_activates_and_rotates_hash() {
    let mut docs = store();
    let scope = PolicyScope::Global;
    let hash = docs.document_hash(&scope);

    let candidate = docs
        .edit(
            scope.clone(),
            &hash,
            PolicyEdit::UpsertRule(RuleEdit {
                kind: "class".to_string(),
                class: Some("location".to_string()),
                column: None,
                action: "tokenize".to_string(),
            }),
        )
        .unwrap();

    apply(&mut docs, scope.clone(), &hash, &candidate.toml).unwrap();
    assert_eq!(docs.document_hash(&scope), candidate.hash);
    assert_ne!(docs.document_hash(&scope), hash);

    let active = docs.effective_document(None).unwrap();
    assert!(active.contains("class = \"location\""));
}

#[test]
fn apply_with_stale_hash_changes_nothing() {
    let mut docs = store();
    let before = docs.document_hash(&PolicyScope::Global);

    let good = BASE_GLOBAL.replace("tokenize", "redact");
    let err = apply(&mut docs, PolicyScope::Global, "deadbeef", &good).unwrap_err();
    assert!(matches!(err, PolicyStoreError::Conflict));

    assert_eq!(before, docs.document_hash(&PolicyScope::Global));
    assert_eq!(docs.global(), BASE_GLOBAL);
}

#[test]
fn profile_apply_updates_only_that_profile() {
    let mut docs = store_with_profiles(&["team-a", "team-b"]);

    let scope = PolicyScope::Profile("team-a".to_string());
    let hash = docs.document_hash(&scope);
    let new_overlay = OVERLAY.replace("redact", "format_preserve");
    apply(&mut docs, scope, &hash, &new_overlay).unwrap();

    let team_a = docs.effective_document(Some("team-a")).unwrap();
    assert!(team_a.contains("format_preserve"));
    let team_b = docs.effective_document(Some("team-b")).unwrap();
    assert!(team_b.contains("redact"));
    let global = docs.effective_document(None).unwrap();
    assert!(!global.contains("redact"));
}

#[test]
fn global_apply_lists_every_profile_for_rebuild() {
    let docs = store_with_profiles(&["team-b", "team-a"]);
    let hash = docs.document_hash(&PolicyScope::Global);
    let candidates = docs
        .apply_candidates(&PolicyScope::Global, &hash, BASE_GLOBAL)
        .unwrap();
    assert_eq!(candidates.len(), 3);
    assert!(candidates[0].profile.is_none());
    assert_eq!(candidates[1].profile.as_deref(), Some("team-a"));
    assert_eq!(candidates[2].profile.as_deref(), Some("team-b"));
    assert_eq!(docs.profile_ids(), vec!["team-a".to_string(), "team-b".to_string()]);
}

#[test]
fn remove_rule_edit_persists_through_apply() {
    let mut docs = store();
    let scope = PolicyScope::Global;
    let hash = docs.document_hash(&scope);

    let candidate = docs
        .edit(
            scope.clone(),
            &hash,
            PolicyEdit::RemoveRule {
                identity: "class:name".to_string(),
            },
        )
        .unwrap();
    assert!(!candidate.toml.contains("class = \"name\""));

    apply(&mut docs, scope, &hash, &candidate.toml).unwrap();
    let active = docs.effective_document(None).unwrap();
    assert!(!active.contains("class = \"name\""));
}

#[test]
fn upsert_recognizer_edit_round_trips() {
    let mut docs = store();
    let scope = PolicyScope::Global;
    let hash = docs.document_hash(&scope);

    let candidate = docs
        .edit(
            scope.clone(),
            &hash,
            PolicyEdit::UpsertRecognizer(RecognizerEdit {
                kind: "regex".to_string(),
                name: "employee_id".to_string(),
                pattern: Some(r"\bEMP-[0-9]{5}\b".to_string()),
                class: "custom:employee_id".to_string(),
                terms: None,
                terms_file: None,
                terms_from_context: None,
                case_sensitive: None,
                token_family: None,
                safety_tier: None,
            }),
        )
        .unwrap();
    assert!(candidate.toml.contains("name = \"employee_id\""));

    apply(&mut docs, scope, &hash, &candidate.toml).unwrap();
    let active = docs.effective_document(None).unwrap();
    assert!(active.contains(r"\bEMP-[0-9]{5}\b"));
}

#[test]
fn profile_scope_rejects_path_traversal_ids() {
    let mut docs = store();
    let scope = PolicyScope::Profile("../evil".to_string());
    assert!(docs.document_hash(&scope).is_empty());
    let err = apply(&mut docs, scope, "deadbeef", "schema_version = \"0.1.0\"").unwrap_err();
    assert!(matches!(err, PolicyStoreError::InvalidProfileId(_)));
}

#[test]
fn profile_ids_are_validated() {
    assert!(validate_profile_id("team-a").is_ok());
    for bad in ["", "a/b", "a\\b", "a..b", ".hidden"] {
        assert!(matches!(
            validate_profile_id(bad),
            Err(PolicyStoreError::InvalidProfileId(id)) if id == bad
        ));
    }
}

#[test]
fn profile_remove_edit_records_removal_and_drops_override() {
    let edited = apply_profile_edit(
        OVERLAY,
        &PolicyEdit::RemoveRule {
            identity: "class:email".to_string(),
        },
        BASE_GLOBAL,
    )
    .unwrap();
    assert!(edited.contains("remove_rules"));
    assert!(edited.contains("class:email"));
    assert!(!edited.contains("action = \"redact\""));

    let err = apply_profile_edit(
        OVERLAY,
        &PolicyEdit::RemoveRule {
            identity: "class:nothing".to_string(),
        },
        BASE_GLOBAL,
    )
    .unwrap_err();
    match err {
        PolicyStoreError::Policy(m) => assert_eq!(m, "rule not found in global: class:nothing"),
        _ => panic!("expected a policy error"),
    }
}

#[test]
fn profile_remove_edit_is_recorded_once() {
    let edit = PolicyEdit::RemoveRule {
        identity: "class:name".to_string(),
    };
    let once = apply_profile_edit(OVERLAY, &edit, BASE_GLOBAL).unwrap();
    let twice = apply_profile_edit(&once, &edit, BASE_GLOBAL).unwrap();
    assert_eq!(twice.matches("class:name").count(), 1);
}

#[test]
fn global_edit_of_unparsable_document_is_a_policy_error() {
    let err = apply_global_edit(
        "rule = [",
        &PolicyEdit::RemoveRule {
            identity: "class:email".to_string(),
        },
    )
    .unwrap_err();
    assert!(matches!(err, PolicyStoreError::Policy(_)));
}

#[test]
fn upsert_rule_replaces_same_identity() {
    let edited = apply_global_edit(
        BASE_GLOBAL,
        &PolicyEdit::UpsertRule(RuleEdit {
            kind: "class".to_string(),
            class: Some("email".to_string()),
            column: None,
            action: "redact".to_string(),
        }),
    )
    .unwrap();
    assert_eq!(edited.matches("class = \"email\"").count(), 1);
    assert!(edited.contains("action = \"redact\""));
    assert!(edited.contains("class = \"name\""));
}

#[test]
fn validation_candidate_merges_overlays_only() {
    let docs = store();
    let plain = docs.validation_candidate(BASE_GLOBAL).unwrap();
    assert_eq!(plain, BASE_GLOBAL);
    let merged = docs.validation_candidate(OVERLAY).unwrap();
    assert!(merged.contains("action = \"redact\""));
    assert!(!merged.contains("gaze-hermes-profile-1"));
}

#[test]
fn rule_identity_names_each_kind() {
    assert_eq!(rule_identity("class", Some("email"), None), "class:email");
    assert_eq!(rule_identity("column", None, Some("ssn")), "column:ssn");
    assert_eq!(rule_identity("class", None, None), "class:");
    assert_eq!(rule_identity("default", None, None), "default");
    assert_eq!(rule_identity("regex", None, None), "kind:regex");
}

#[test]
fn sha256_hex_of_empty_input() {
    assert_eq!(
        sha256_hex(b""),
        "e3b0c44298fc1c149afbf4c8996fb92427ae41e4649b934ca495991b7852b855"
    );
}

#[test]
fn global_apply_keeps_profile_overlays() {
    let mut docs = store_with_profiles(&["team-a"]);
    let hash = docs.document_hash(&PolicyScope::Global);
    let profile_hash = docs.document_hash(&PolicyScope::Profile("team-a".into()));
    let new_global = BASE_GLOBAL.replace("class = \"name\"", "class = \"location\"");
    apply(&mut docs, PolicyScope::Global, &hash, &new_global).unwrap();
    assert_eq!(
        docs.document_hash(&PolicyScope::Profile("team-a".into())),
        profile_hash
    );
    let team_a = docs.effective_document(Some("team-a")).unwrap();
    assert!(team_a.contains("class = \"location\""));
    assert!(team_a.contains("action = \"redact\""));
}

struct FakeProvisioner {
    path: std::path::PathBuf,
}

impl ModelProvisioner for FakeProvisioner {
    fn ensure(&self) -> Result<std::path::PathBuf, gaze_hermes_sidecar::model::ModelError> {
        Ok(self.path.clone())
    }
}

#[test]
fn fake_provisioner_ensure_returns_configured_path_without_network() {
    let fake = FakeProvisioner {
        path: std::path::PathBuf::from("/models/fake-bundle"),
    };
    assert_eq!(
        fake.ensure().unwrap(),
        std::path::PathBuf::from("/models/fake-bundle")
    );
}

fn terms_recognizer() -> RecognizerEdit {
    RecognizerEdit {
        kind: "dictionary".to_string(),
        name: "staff".to_string(),
        pattern: None,
        class: "custom:staff".to_string(),
        terms: Some(vec!["Alice".to_string(), "Bob".to_string()]),
        terms_file: None,
        terms_from_context: None,
        case_sensitive: Some(true),
        token_family: None,
        safety_tier: None,
    }
}

#[test]
fn recognizer_edit_is_refused_when_policy_is_not_a_table() {
    let current = "schema_version = \"0.1.0\"\npolicy = 3\n";
    let err = apply_global_edit(current, &PolicyEdit::UpsertRecognizer(terms_recognizer()))
        .unwrap_err();
    match err {
        PolicyStoreError::Policy(m) => assert_eq!(m, "policy table missing"),
        other => panic!("unexpected error {other:?}"),
    }
    let ok = apply_global_edit(current, &PolicyEdit::UpsertRule(RuleEdit {
        kind: "class".to_string(),
        class: Some("email".to_string()),
        column: None,
        action: "redact".to_string(),
    }));
    assert!(ok.is_ok());
}

#[test]
fn upserted_recognizer_keeps_terms_and_case_flag() {
    let candidate =
        apply_global_edit(BASE_GLOBAL, &PolicyEdit::UpsertRecognizer(terms_recognizer())).unwrap();
    assert!(candidate.contains("terms = [\"Alice\", \"Bob\"]"));
    assert!(candidate.contains("case_sensitive = true"));
}

#[test]
fn global_edit_keeps_comments_and_unrelated_keys() {
    let current = "schema_version = \"0.1.0\"\n\n# operator knob\n[session]\nttl_secs = 3600\n";
    let candidate = apply_global_edit(current, &PolicyEdit::UpsertRule(RuleEdit {
        kind: "class".to_string(),
        class: Some("email".to_string()),
        column: None,
        action: "redact".to_string(),
    }))
    .unwrap();
    assert!(candidate.contains("# operator knob"));
    assert!(candidate.contains("ttl_secs = 3600"));
    assert!(candidate.contains("action = \"redact\""));
}

#[test]
fn bundled_rulepack_names_embedded_packs_and_store_files() {
    assert_eq!(bundled_rulepack("core"), BundledRulepack::Embedded);
    assert_eq!(bundled_rulepack("core-extended"), BundledRulepack::Embedded);
    assert_eq!(bundled_rulepack("team-pack.toml"), BundledRulepack::StoreFile);
}

#[test]
fn document_hash_is_sixty_four_hex_digits() {
    assert_eq!(sha256_hex(BASE_GLOBAL.as_bytes()).len(), 64);
    assert_eq!(sha256_hex(b"").len(), 64);
}
