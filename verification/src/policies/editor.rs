//! Visual-editor patch types for policy documents.

use vstd::prelude::*;
use vstd::string::StringExecFns;

use crate::text::{chars_contain, chars_of, occurs_in};

verus! {

/// Which document an edit or apply targets.
#[derive(Debug, Clone, PartialEq, Eq)]
pub enum PolicyScope {
    Global,
    Profile(String),
}

#[derive(Debug, Clone, PartialEq, Eq)]
pub struct RuleEdit {
    pub kind: String,
    pub class: Option<String>,
    pub column: Option<String>,
    pub action: String,
}

#[derive(Debug, Clone, PartialEq, Eq)]
pub struct RecognizerEdit {
    pub kind: String,
    pub name: String,
    pub pattern: Option<String>,
    pub class: String,
    pub terms: Option<Vec<String>>,
    pub terms_file: Option<String>,
    pub terms_from_context: Option<String>,
    pub case_sensitive: Option<bool>,
    pub token_family: Option<String>,
    pub safety_tier: Option<String>,
}

#[derive(Debug, Clone, PartialEq, Eq)]
pub enum PolicyEdit {
    UpsertRule(RuleEdit),
    RemoveRule { identity: String },
    UpsertRecognizer(RecognizerEdit),
    RemoveRecognizer { name: String },
}

/// A candidate document and its hash.
#[derive(Debug, Clone, PartialEq, Eq)]
pub struct EditedPolicy {
    pub toml: String,
    pub hash: String,
}

/// The identity of a rule: `class:<class>`, `column:<column>`, `default`,
/// or `kind:<kind>` for any other kind; a missing class or column counts as
/// empty.
pub open spec fn rule_identity_spec(
    kind: Seq<char>,
    class: Option<Seq<char>>,
    column: Option<Seq<char>>,
) -> Seq<char> {
    if kind == "class"@ {
        "class:"@ + match class {
            Some(c) => c,
            None => Seq::empty(),
        }
    } else if kind == "column"@ {
        "column:"@ + match column {
            Some(c) => c,
            None => Seq::empty(),
        }
    } else if kind == "default"@ {
        "default"@
    } else {
        "kind:"@ + kind
    }
}

pub open spec fn opt_view(s: Option<&str>) -> Option<Seq<char>> {
    match s {
        Some(v) => Some(v@),
        None => None,
    }
}

pub fn rule_identity(kind: &str, class: Option<&str>, column: Option<&str>) -> (r: String)
    ensures
        r@ == rule_identity_spec(kind@, opt_view(class), opt_view(column)),
{
    let k = String::from_str(kind);
    if k == String::from_str("class") {
        let prefix = String::from_str("class:");
        match class {
            Some(c) => prefix.concat(c),
            None => {
                assert(prefix@ + Seq::<char>::empty() =~= prefix@);
                prefix
            },
        }
    } else if k == String::from_str("column") {
        let prefix = String::from_str("column:");
        match column {
            Some(c) => prefix.concat(c),
            None => {
                assert(prefix@ + Seq::<char>::empty() =~= prefix@);
                prefix
            },
        }
    } else if k == String::from_str("default") {
        String::from_str("default")
    } else {
        String::from_str("kind:").concat(kind)
    }
}

/// A document is taken for a profile overlay when it carries the overlay
/// schema version or any overlay-only key.
pub open spec fn is_profile_overlay_spec(raw: Seq<char>) -> bool {
    ||| occurs_in("schema_version = \"gaze-hermes-profile-1\""@, raw)
    ||| occurs_in("[overrides"@, raw)
    ||| occurs_in("remove_rules"@, raw)
    ||| occurs_in("remove_recognizers"@, raw)
}

pub fn is_profile_overlay(raw: &str) -> (r: bool)
    ensures
        r == is_profile_overlay_spec(raw@),
{
    let text = chars_of(raw);
    chars_contain(&text, &chars_of("schema_version = \"gaze-hermes-profile-1\""))
        || chars_contain(&text, &chars_of("[overrides"))
        || chars_contain(&text, &chars_of("remove_rules"))
        || chars_contain(&text, &chars_of("remove_recognizers"))
}

} // verus!
