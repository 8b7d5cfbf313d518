//! Policy store: global + profile overlays, validation, optimistic CAS apply.

pub mod document;
pub mod editor;
pub mod keyed;
pub mod merge;
pub mod toml_doc;

use vstd::prelude::*;
use vstd::string::{StrSliceExecFns, StringExecFns};
use vstd::utf8::encode_utf8;

pub use editor::{
    is_profile_overlay, rule_identity, EditedPolicy, PolicyEdit, PolicyScope, RecognizerEdit,
    RuleEdit,
};
pub use merge::{merge_policy_documents, MergeError};

use document::{apply_global_edit, apply_profile_edit};
use keyed::{pairs_map, KeyedValues};

use crate::sessions::{sha256_digest, sha256_spec};
use crate::text::{chars_contain, chars_eq, chars_of, hex_lower, hex_spec, occurs_in};

verus! {

#[derive(Debug)]
pub enum PolicyStoreError {
    Io(std::io::Error),
    Policy(String),
    Build(String),
    Merge(MergeError),
    Conflict,
    UnknownProfile(String),
    InvalidProfileId(String),
    UnknownBundledRulepack(String),
}

/// The outcome of validating a candidate policy.
#[derive(Debug, Clone)]
pub struct ValidationResult {
    pub ok: bool,
    pub errors: Vec<String>,
}

impl ValidationResult {
    pub fn ok() -> (r: Self)
        ensures
            r.ok,
            r.errors@.len() == 0,
    {
        ValidationResult { ok: true, errors: Vec::new() }
    }

    /// A failed validation carrying the error's message.
    pub fn from_error(message: String) -> (r: Self)
        ensures
            !r.ok,
            r.errors@.len() == 1,
            r.errors@[0]@ == message@,
    {
        let mut errors = Vec::new();
        errors.push(message);
        ValidationResult { ok: false, errors }
    }
}

/// Lowercase hex SHA-256 of `bytes`.
pub fn sha256_hex(bytes: &[u8]) -> (r: String)
    ensures
        r@ == hex_spec(sha256_spec(bytes@)),
        r@.len() == 64,
{
    let digest = sha256_digest(bytes);
    proof {
        crate::text::lemma_hex_len(digest@);
    }
    hex_lower(digest.as_slice())
}

/// A profile id names a file in the profiles directory: it is nonempty,
/// holds no path separator and no `..`, and does not start with a dot.
pub open spec fn valid_profile_id(id: Seq<char>) -> bool {
    &&& id.len() > 0
    &&& !id.contains('/')
    &&& !id.contains('\\')
    &&& !occurs_in(".."@, id)
    &&& id[0] != '.'
}

fn contains_char(text: &Vec<char>, c: char) -> (r: bool)
    ensures
        r == text@.contains(c),
{
    let n = text.len();
    for i in 0..n
        invariant
            n == text@.len(),
            forall|j: int| 0 <= j < i ==> text@[j] != c,
    {
        if text[i] == c {
            return true;
        }
    }
    false
}

pub fn validate_profile_id(id: &str) -> (r: Result<(), PolicyStoreError>)
    ensures
        valid_profile_id(id@) ==> r is Ok,
        !valid_profile_id(id@) ==> (r matches Err(PolicyStoreError::InvalidProfileId(s)) && s@
            == id@),
{
    let text = chars_of(id);
    if text.len() == 0 || contains_char(&text, '/') || contains_char(&text, '\\') || chars_contain(
        &text,
        &chars_of(".."),
    ) || text[0] == '.' {
        return Err(PolicyStoreError::InvalidProfileId(String::from_str(id)));
    }
    Ok(())
}

pub fn validate_profile_id_public(id: &str) -> (r: Result<(), PolicyStoreError>)
    ensures
        valid_profile_id(id@) ==> r is Ok,
        !valid_profile_id(id@) ==> (r matches Err(PolicyStoreError::InvalidProfileId(s)) && s@
            == id@),
{
    validate_profile_id(id)
}

/// Where a rulepack named in `[policy.rulepacks] bundled` comes from.
#[derive(Debug, Clone, Copy, PartialEq, Eq, Structural)]
pub enum BundledRulepack {
    /// One of the packs built into the recognizers (`core`, `core-extended`).
    Embedded,
    /// A file of that name in the policy directory.
    StoreFile,
}

/// The embedded packs are `core` and `core-extended`; any other name is
/// looked up in the policy directory.
pub fn bundled_rulepack(name: &str) -> (r: BundledRulepack)
    ensures
        r == (if name@ == "core"@ || name@ == "core-extended"@ {
            BundledRulepack::Embedded
        } else {
            BundledRulepack::StoreFile
        }),
{
    let n = chars_of(name);
    if chars_eq(&n, &chars_of("core")) || chars_eq(&n, &chars_of("core-extended")) {
        BundledRulepack::Embedded
    } else {
        BundledRulepack::StoreFile
    }
}

pub fn is_overlay_document(raw: &str) -> (r: bool)
    ensures
        r == editor::is_profile_overlay_spec(raw@),
{
    is_profile_overlay(raw)
}

/// The text of a document's hash: lowercase hex SHA-256 of its UTF-8 bytes.
pub open spec fn hash_text(doc: Seq<char>) -> Seq<char> {
    hex_spec(sha256_spec(encode_utf8(doc)))
}

/// What a policy store holds: the global document and each profile's overlay.
pub struct PolicyDocumentsView {
    pub global: Seq<char>,
    pub profiles: Map<Seq<char>, Seq<char>>,
}

/// The profile id a scope names; empty for the global scope.
pub open spec fn scope_id(scope: PolicyScope) -> Seq<char> {
    match scope {
        PolicyScope::Global => Seq::empty(),
        PolicyScope::Profile(id) => id@,
    }
}

/// A profile scope whose id is not a valid profile id.
pub open spec fn invalid_profile_scope(scope: PolicyScope) -> bool {
    scope is Profile && !valid_profile_id(scope_id(scope))
}

pub open spec fn names_profile(p: Option<String>, id: Seq<char>) -> bool {
    match p {
        Some(s) => s@ == id,
        None => false,
    }
}

/// The document a scope names, if there is one.
pub open spec fn scope_document(v: PolicyDocumentsView, scope: PolicyScope) -> Option<Seq<char>> {
    match scope {
        PolicyScope::Global => Some(v.global),
        PolicyScope::Profile(id) => if v.profiles.contains_key(id@) {
            Some(v.profiles[id@])
        } else {
            None
        },
    }
}

/// The hash a scope's document is known by: empty for an invalid profile
/// id or a profile that does not exist.
pub open spec fn document_hash_spec(v: PolicyDocumentsView, scope: PolicyScope) -> Seq<char> {
    match scope {
        PolicyScope::Global => hash_text(v.global),
        PolicyScope::Profile(id) => if !valid_profile_id(id@) {
            Seq::empty()
        } else {
            match scope_document(v, scope) {
                Some(doc) => hash_text(doc),
                None => Seq::empty(),
            }
        },
    }
}

/// The store after `raw` became the document of `scope`.
pub open spec fn committed(v: PolicyDocumentsView, scope: PolicyScope, raw: Seq<char>) -> PolicyDocumentsView {
    match scope {
        PolicyScope::Global => PolicyDocumentsView { global: raw, profiles: v.profiles },
        PolicyScope::Profile(id) => PolicyDocumentsView {
            global: v.global,
            profiles: v.profiles.insert(id@, raw),
        },
    }
}

/// Whether an edit or apply against `scope` that expects `expected` goes
/// ahead: the profile id must be valid and the hash current.
pub open spec fn hash_is_current(v: PolicyDocumentsView, scope: PolicyScope, expected: Seq<char>) -> bool {
    &&& !invalid_profile_scope(scope)
    &&& document_hash_spec(v, scope) == expected
}

/// Whether `edit` can be applied to the document `doc` of `scope`, with
/// `global` the global document: the document parses; a recognizer written
/// into it needs `policy` absent or table-like; a profile's removal needs
/// the global document to hold the removed entry.
pub open spec fn edit_applies(doc: Seq<char>, edit: PolicyEdit, scope: PolicyScope, global: Seq<char>) -> bool {
    &&& toml_doc::toml_parses(doc)
    &&& match edit {
        PolicyEdit::UpsertRule(_) => true,
        PolicyEdit::UpsertRecognizer(_) => toml_doc::policy_writable(toml_doc::parsed_keys(doc)),
        PolicyEdit::RemoveRule { identity } => scope is Global || document::global_has_rule(
            global,
            identity@,
        ),
        PolicyEdit::RemoveRecognizer { name } => if scope is Global {
            toml_doc::policy_writable(toml_doc::parsed_keys(doc))
        } else {
            document::global_has_recognizer(global, name@)
        },
    }
}

/// A profile rebuilt by a global apply: a loaded profile, whose merge over
/// the new global document succeeds when both documents parse.
pub open spec fn rebuild_candidate(v: PolicyDocumentsView, raw: Seq<char>, c: ApplyCandidate) -> bool {
    match c.profile {
        Some(id) => {
            &&& v.profiles.contains_key(id@)
            &&& c.document is Ok <==> toml_doc::toml_parses(raw) && toml_doc::toml_parses(
                v.profiles[id@],
            )
            &&& c.document matches Ok(d) ==> merge::is_merge_of(raw, v.profiles[id@], d@)
        },
        None => false,
    }
}

/// A document that apply has to build before it commits: the effective
/// policy of the global scope (`None`) or of a profile, or the merge error
/// that stops it.
pub struct ApplyCandidate {
    pub profile: Option<String>,
    pub document: Result<String, MergeError>,
}

/// The global document and the profile overlays, with the hash checks,
/// edits and merges of the policy store. Building a pipeline from a
/// document and writing it to disk happen outside.
pub struct PolicyDocuments {
    global: String,
    profiles: KeyedValues<String>,
}

impl PolicyDocuments {
    pub closed spec fn view(&self) -> PolicyDocumentsView {
        PolicyDocumentsView {
            global: self.global@,
            profiles: pairs_map(self.profiles.pairs()).map_values(|d: String| d@),
        }
    }

    pub closed spec fn wf(&self) -> bool {
        &&& self.profiles.wf()
        &&& forall|id: Seq<char>| #[trigger] self.view().profiles.contains_key(id) ==> valid_profile_id(id)
    }

    /// A store with the global document and no profile.
    pub fn new(global: String) -> (r: Self)
        ensures
            r.wf(),
            r.view().global == global@,
            r.view().profiles == Map::<Seq<char>, Seq<char>>::empty(),
    {
        let r = PolicyDocuments { global, profiles: KeyedValues::new() };
        assert(r.view().profiles =~= Map::<Seq<char>, Seq<char>>::empty());
        r
    }

    /// Adds (or replaces) a profile overlay read from the profiles directory.
    pub fn insert_profile(&mut self, id: String, overlay: String) -> (r: Result<(), PolicyStoreError>)
        requires
            old(self).wf(),
        ensures
            final(self).wf(),
            valid_profile_id(id@) ==> r is Ok && final(self).view() == committed(
                old(self).view(),
                PolicyScope::Profile(id),
                overlay@,
            ),
            !valid_profile_id(id@) ==> (r matches Err(PolicyStoreError::InvalidProfileId(s)) && s@
                == id@) && final(self).view() == old(self).view(),
    {
        let checked = validate_profile_id(id.as_str());
        if checked.is_err() {
            return Err(PolicyStoreError::InvalidProfileId(id));
        }
        self.commit_profile(id, overlay);
        Ok(())
    }

    fn commit_profile(&mut self, id: String, overlay: String)
        requires
            old(self).wf(),
            valid_profile_id(id@),
        ensures
            final(self).wf(),
            final(self).view() == committed(old(self).view(), PolicyScope::Profile(id), overlay@),
    {
        let ghost before = self.view();
        let ghost idv = id@;
        let ghost ov = overlay@;
        let ghost old_map = pairs_map(self.profiles.pairs());
        self.profiles.insert(id, overlay);
        assert(self.view().profiles =~= before.profiles.insert(idv, ov));
    }

    pub fn global(&self) -> (r: &String)
        ensures
            r@ == self.view().global,
    {
        &self.global
    }

    /// The overlay of profile `id`, if it is loaded.
    pub fn profile(&self, id: &str) -> (r: Option<&String>)
        requires
            self.wf(),
        ensures
            r matches Some(d) ==> self.view().profiles.contains_key(id@) && self.view().profiles[id@]
                == d@,
            r is None ==> !self.view().profiles.contains_key(id@),
    {
        self.profiles.get(id)
    }

    /// The ids of the loaded profiles, ascending.
    pub fn profile_ids(&self) -> (r: Vec<String>)
        requires
            self.wf(),
        ensures
            forall|i: int| 0 <= i < r@.len() ==> self.view().profiles.contains_key(#[trigger] r@[i]@),
            forall|id: Seq<char>| #[trigger] self.view().profiles.contains_key(id) ==> exists|i: int|
                0 <= i < r@.len() && r@[i]@ == id,
            forall|i: int, j: int| 0 <= i < j < r@.len() ==> keyed::str_lt(#[trigger] r@[i]@, #[trigger] r@[j]@),
            r@.len() == self.view().profiles.dom().len(),
    {
        let mut r: Vec<String> = Vec::new();
        let n = self.profiles.len();
        for i in 0..n
            invariant
                n == self.profiles.pairs().len(),
                self.wf(),
                r@.len() == i,
                forall|j: int| 0 <= j < i ==> #[trigger] r@[j]@ == self.profiles.pairs()[j].0,
        {
            let (id, _) = self.profiles.entry(i);
            r.push(id.clone());
        }
        proof {
            keyed::lemma_pairs_map_len(self.profiles.pairs());
            assert(self.view().profiles.dom() =~= pairs_map(self.profiles.pairs()).dom());
            assert forall|i: int| 0 <= i < r@.len() implies self.view().profiles.contains_key(#[trigger] r@[i]@) by {
                keyed::lemma_pairs_map_at(self.profiles.pairs(), i);
            }
            assert forall|i: int, j: int| 0 <= i < j < r@.len() implies keyed::str_lt(#[trigger] r@[i]@, #[trigger] r@[j]@) by {
                assert(keyed::str_lt(self.profiles.pairs()[i].0, self.profiles.pairs()[j].0));
            }
            assert forall|id: Seq<char>| #[trigger] self.view().profiles.contains_key(id) implies exists|i: int|
                0 <= i < r@.len() && r@[i]@ == id by {
                let i = keyed::key_index(self.profiles.pairs(), id);
                assert(r@[i]@ == id);
            }
        }
        r
    }

    /// The hash the document of `scope` is known by; empty for an invalid
    /// or unknown profile.
    pub fn document_hash(&self, scope: &PolicyScope) -> (r: String)
        requires
            self.wf(),
        ensures
            r@ == document_hash_spec(self.view(), *scope),
            !invalid_profile_scope(*scope) && scope_document(self.view(), *scope) is Some ==> r@.len()
                == 64,
    {
        match scope {
            PolicyScope::Global => sha256_hex(self.global.as_str().as_bytes()),
            PolicyScope::Profile(id) => {
                if validate_profile_id(id.as_str()).is_err() {
                    return String::new();
                }
                match self.profiles.get(id.as_str()) {
                    Some(doc) => sha256_hex(doc.as_str().as_bytes()),
                    None => String::new(),
                }
            },
        }
    }

    /// Refuses an invalid profile id, then a hash that is not current.
    pub fn check_hash(&self, scope: &PolicyScope, expected_hash: &str) -> (r: Result<(), PolicyStoreError>)
        requires
            self.wf(),
        ensures
            hash_is_current(self.view(), *scope, expected_hash@) <==> r is Ok,
            invalid_profile_scope(*scope) ==> (r matches Err(PolicyStoreError::InvalidProfileId(s))
                && s@ == scope_id(*scope)),
            !invalid_profile_scope(*scope) && document_hash_spec(self.view(), *scope)
                != expected_hash@ ==> r matches Err(PolicyStoreError::Conflict),
            !invalid_profile_scope(*scope) && scope_document(self.view(), *scope) is Some
                && expected_hash@.len() != 64 ==> r matches Err(PolicyStoreError::Conflict),
    {
        if let PolicyScope::Profile(id) = scope {
            validate_profile_id(id.as_str())?;
        }
        let current = self.document_hash(scope);
        if current != String::from_str(expected_hash) {
            return Err(PolicyStoreError::Conflict);
        }
        Ok(())
    }

    /// The document of `scope`; an unknown profile is an error.
    pub fn document_for(&self, scope: &PolicyScope) -> (r: Result<String, PolicyStoreError>)
        requires
            self.wf(),
        ensures
            scope_document(self.view(), *scope) matches Some(d) ==> (r matches Ok(s) && s@ == d),
            scope_document(self.view(), *scope) is None ==> (r matches Err(
                PolicyStoreError::UnknownProfile(s),
            ) && s@ == scope_id(*scope)),
    {
        match scope {
            PolicyScope::Global => Ok(self.global.clone()),
            PolicyScope::Profile(id) => match self.profiles.get(id.as_str()) {
                Some(doc) => Ok(doc.clone()),
                None => Err(PolicyStoreError::UnknownProfile(id.clone())),
            },
        }
    }

    /// A candidate document with an edit applied, and its hash; the store
    /// is left as it was.
    pub fn edit(&self, scope: PolicyScope, expected_hash: &str, edit: PolicyEdit) -> (r: Result<
        EditedPolicy,
        PolicyStoreError,
    >)
        requires
            self.wf(),
        ensures
            !hash_is_current(self.view(), scope, expected_hash@) ==> r is Err,
            invalid_profile_scope(scope) ==> r matches Err(PolicyStoreError::InvalidProfileId(_)),
            !invalid_profile_scope(scope) && document_hash_spec(self.view(), scope)
                != expected_hash@ ==> r matches Err(PolicyStoreError::Conflict),
            !invalid_profile_scope(scope) && scope_document(self.view(), scope) is Some
                && expected_hash@.len() != 64 ==> r matches Err(PolicyStoreError::Conflict),
            r is Ok <==> (hash_is_current(self.view(), scope, expected_hash@) && scope_document(
                self.view(),
                scope,
            ) is Some && edit_applies(
                scope_document(self.view(), scope)->0,
                edit,
                scope,
                self.view().global,
            )),
            r matches Ok(e) ==> e.hash@ == hash_text(e.toml@),
            r matches Ok(e) ==> exists|l: toml_doc::DocLists, d: toml_edit::DocumentMut|
                #![trigger toml_doc::parses_to(scope_document(self.view(), scope)->0, l), toml_doc::doc_text(d)]
                {
                    &&& scope_document(self.view(), scope) is Some
                    &&& toml_doc::parses_to(scope_document(self.view(), scope)->0, l)
                    &&& e.toml@ == toml_doc::doc_text(d)
                    &&& scope is Global ==> document::global_edited(l, edit, toml_doc::doc_lists(d))
                    &&& scope is Profile ==> document::profile_edited(l, edit, toml_doc::doc_lists(d))
                },
    {
        self.check_hash(&scope, expected_hash)?;
        let current = self.document_for(&scope)?;
        let candidate = match &scope {
            PolicyScope::Global => apply_global_edit(current.as_str(), &edit)?,
            PolicyScope::Profile(_) => apply_profile_edit(
                current.as_str(),
                &edit,
                self.global.as_str(),
            )?,
        };
        let hash = sha256_hex(candidate.as_str().as_bytes());
        Ok(EditedPolicy { toml: candidate, hash })
    }

    /// The documents that applying `raw_toml` to `scope` has to build, in
    /// order: for the global scope the new global document, then each
    /// profile merged over it; for a profile, its overlay merged over the
    /// global document, whose merge error stops the apply at once.
    pub fn apply_candidates(&self, scope: &PolicyScope, expected_hash: &str, raw_toml: &str) -> (r:
        Result<Vec<ApplyCandidate>, PolicyStoreError>)
        requires
            self.wf(),
        ensures
            !hash_is_current(self.view(), *scope, expected_hash@) ==> r is Err,
            invalid_profile_scope(*scope) ==> r matches Err(PolicyStoreError::InvalidProfileId(_)),
            !invalid_profile_scope(*scope) && document_hash_spec(self.view(), *scope)
                != expected_hash@ ==> r matches Err(PolicyStoreError::Conflict),
            !invalid_profile_scope(*scope) && scope_document(self.view(), *scope) is Some
                && expected_hash@.len() != 64 ==> r matches Err(PolicyStoreError::Conflict),
            hash_is_current(self.view(), *scope, expected_hash@) && scope is Global ==> (r matches Ok(
                c,
            ) && c@.len() == self.view().profiles.dom().len() + 1 && c@[0].profile is None && (
            c@[0].document matches Ok(d) && d@ == raw_toml@) && (forall|i: int|
                1 <= i < c@.len() ==> rebuild_candidate(self.view(), raw_toml@, #[trigger] c@[i]))
                && forall|i: int, j: int|
                1 <= i < j < c@.len() ==> keyed::str_lt(
                    (#[trigger] c@[i]).profile->0@,
                    (#[trigger] c@[j]).profile->0@,
                )),
            hash_is_current(self.view(), *scope, expected_hash@) && scope is Profile ==> (r is Ok
                <==> toml_doc::toml_parses(self.view().global) && toml_doc::toml_parses(raw_toml@)),
            r matches Ok(c) ==> (scope is Profile ==> c@.len() == 1 && names_profile(
                c@[0].profile,
                scope_id(*scope),
            ) && c@[0].document is Ok && merge::is_merge_of(
                self.view().global,
                raw_toml@,
                c@[0].document->Ok_0@,
            )),
    {
        self.check_hash(scope, expected_hash)?;
        match scope {
            PolicyScope::Global => {
                let mut out: Vec<ApplyCandidate> = Vec::new();
                out.push(
                    ApplyCandidate { profile: None, document: Ok(String::from_str(raw_toml)) },
                );
                let n = self.profiles.len();
                for i in 0..n
                    invariant
                        n == self.profiles.pairs().len(),
                        self.wf(),
                        out@.len() == i + 1,
                        out@[0].profile is None,
                        out@[0].document matches Ok(d) && d@ == raw_toml@,
                        forall|j: int|
                            1 <= j < out@.len() ==> rebuild_candidate(self.view(), raw_toml@, #[trigger] out@[j])
                                && out@[j].profile->0@ == self.profiles.pairs()[j - 1].0,
                {
                    let (id, overlay) = self.profiles.entry(i);
                    proof {
                        keyed::lemma_pairs_map_at(self.profiles.pairs(), i as int);
                    }
                    let document = merge_policy_documents(raw_toml, overlay.as_str());
                    let ghost before = out@;
                    out.push(ApplyCandidate { profile: Some(id.clone()), document });
                    assert(out@[i + 1].profile->0@ == self.profiles.pairs()[i as int].0);
                    assert(self.view().profiles[id@] == overlay@);
                    assert forall|j: int| 1 <= j < out@.len() implies rebuild_candidate(self.view(), raw_toml@, #[trigger] out@[j])
                        && out@[j].profile->0@ == self.profiles.pairs()[j - 1].0 by {
                        if j < i + 1 {
                            assert(out@[j] == before[j]);
                        }
                    }
                }
                proof {
                    keyed::lemma_pairs_map_len(self.profiles.pairs());
                    assert(self.view().profiles.dom() =~= pairs_map(self.profiles.pairs()).dom());
                    assert forall|a: int, b: int| 1 <= a < b < out@.len() implies keyed::str_lt(
                        (#[trigger] out@[a]).profile->0@,
                        (#[trigger] out@[b]).profile->0@,
                    ) by {
                        assert(keyed::sorted_keys(self.profiles.pairs()));
                        assert(keyed::str_lt(self.profiles.pairs()[a - 1].0, self.profiles.pairs()[b - 1].0));
                    }
                }
                Ok(out)
            },
            PolicyScope::Profile(id) => {
                match merge_policy_documents(self.global.as_str(), raw_toml) {
                    Ok(merged) => {
                        let mut out: Vec<ApplyCandidate> = Vec::new();
                        out.push(ApplyCandidate { profile: Some(id.clone()), document: Ok(merged) });
                        Ok(out)
                    },
                    Err(e) => Err(PolicyStoreError::Merge(e)),
                }
            },
        }
    }

    /// Makes `raw_toml` the document of `scope`, once apply has built it.
    pub fn commit(&mut self, scope: &PolicyScope, raw_toml: &str)
        requires
            old(self).wf(),
            scope matches PolicyScope::Profile(id) ==> valid_profile_id(id@),
        ensures
            final(self).wf(),
            final(self).view() == committed(old(self).view(), *scope, raw_toml@),
    {
        match scope {
            PolicyScope::Global => {
                self.global = String::from_str(raw_toml);
                assert(self.view().profiles == old(self).view().profiles);
            },
            PolicyScope::Profile(id) => {
                self.commit_profile(id.clone(), String::from_str(raw_toml));
            },
        }
    }

    /// The effective document of the global scope or of a loaded profile:
    /// the profile's overlay merged over the global document.
    pub fn effective_document(&self, profile_id: Option<&str>) -> (r: Result<String, PolicyStoreError>)
        requires
            self.wf(),
        ensures
            profile_id is None ==> (r matches Ok(s) && s@ == self.view().global),
            profile_id is Some && !valid_profile_id(profile_id->0@) ==> (r matches Err(
                PolicyStoreError::InvalidProfileId(s),
            ) && s@ == profile_id->0@),
            profile_id is Some && valid_profile_id(profile_id->0@)
                && !self.view().profiles.contains_key(profile_id->0@) ==> (r matches Err(
                PolicyStoreError::UnknownProfile(s),
            ) && s@ == profile_id->0@),
            profile_id is Some && valid_profile_id(profile_id->0@)
                && self.view().profiles.contains_key(profile_id->0@) ==> (r is Ok
                <==> toml_doc::toml_parses(self.view().global) && toml_doc::toml_parses(
                self.view().profiles[profile_id->0@],
            )),
            r matches Ok(s) ==> profile_id is Some ==> merge::is_merge_of(
                self.view().global,
                self.view().profiles[profile_id->0@],
                s@,
            ),
    {
        match profile_id {
            None => Ok(self.global.clone()),
            Some(id) => {
                validate_profile_id(id)?;
                match self.profiles.get(id) {
                    Some(overlay) => match merge_policy_documents(self.global.as_str(), overlay.as_str()) {
                        Ok(merged) => Ok(merged),
                        Err(e) => Err(PolicyStoreError::Merge(e)),
                    },
                    None => Err(PolicyStoreError::UnknownProfile(String::from_str(id))),
                }
            },
        }
    }

    /// The document that validation builds: an overlay is merged over the
    /// global document first, and a merge failure is reported by its message.
    pub fn validation_candidate(&self, raw_toml: &str) -> (r: Result<String, String>)
        ensures
            !editor::is_profile_overlay_spec(raw_toml@) ==> (r matches Ok(s) && s@ == raw_toml@),
            editor::is_profile_overlay_spec(raw_toml@) ==> (r is Ok <==> toml_doc::toml_parses(
                self.view().global,
            ) && toml_doc::toml_parses(raw_toml@)),
            r matches Ok(s) ==> editor::is_profile_overlay_spec(raw_toml@) ==> merge::is_merge_of(
                self.view().global,
                raw_toml@,
                s@,
            ),
    {
        if is_overlay_document(raw_toml) {
            match merge_policy_documents(self.global.as_str(), raw_toml) {
                Ok(merged) => Ok(merged),
                Err(e) => Err(e.message()),
            }
        } else {
            Ok(String::from_str(raw_toml))
        }
    }
}

/// Applying a document to a scope makes the scope's hash the hash of that
/// document: the hash an edit returned with its candidate is the one the
/// store reports once the candidate is applied.
pub proof fn apply_rotates_hash(v: PolicyDocumentsView, scope: PolicyScope, raw: Seq<char>)
    requires
        !invalid_profile_scope(scope),
    ensures
        document_hash_spec(committed(v, scope, raw), scope) == hash_text(raw),
        scope_document(committed(v, scope, raw), scope) == Some(raw),
{
}

/// Applying a profile's overlay changes no other document: the global
/// document and every other profile keep their text and their hash.
pub proof fn profile_apply_is_local(
    v: PolicyDocumentsView,
    id: String,
    raw: Seq<char>,
    other: PolicyScope,
)
    requires
        valid_profile_id(id@),
        other is Global || scope_id(other) != id@,
    ensures
        scope_document(committed(v, PolicyScope::Profile(id), raw), other) == scope_document(
            v,
            other,
        ),
        document_hash_spec(committed(v, PolicyScope::Profile(id), raw), other)
            == document_hash_spec(v, other),
{
}

/// Applying the global document changes no profile overlay.
pub proof fn global_apply_keeps_profiles(v: PolicyDocumentsView, raw: Seq<char>, id: String)
    ensures
        scope_document(committed(v, PolicyScope::Global, raw), PolicyScope::Profile(id))
            == scope_document(v, PolicyScope::Profile(id)),
{
}

impl MergeError {
    /// The error's message.
    pub fn message(&self) -> (r: String)
        ensures
            self matches MergeError::BaseParse(m) ==> r@ == "failed to parse base policy: "@ + m@,
            self matches MergeError::OverlayParse(m) ==> r@ == "failed to parse overlay: "@ + m@,
    {
        match self {
            MergeError::BaseParse(m) => String::from_str("failed to parse base policy: ").concat(
                m.as_str(),
            ),
            MergeError::OverlayParse(m) => String::from_str("failed to parse overlay: ").concat(
                m.as_str(),
            ),
        }
    }
}

} // verus!
