//! Visual-editor edits of policy documents: upserting and removing rules
//! and custom recognizers, and the removal lists of profile overlays.

use toml_edit::{DocumentMut, Value};
use vstd::prelude::*;
use vstd::string::StringExecFns;

use super::editor::{PolicyEdit, RecognizerEdit, RuleEdit};
use super::merge::{field, strings_of, strs_view, value_strings};
use super::toml_doc::{
    bool_value, doc_keys, doc_lists, doc_text, has_nested_key, document_contains_key, document_has_nested,
    document_is_table_like, doc_rest, parsed_keys, parsed_rest, policy_writable, rest_kept, table_leaves, value_leaves,
    document_insert_nested_values, document_insert_table, document_insert_values,
    document_nested_values, document_values, entries, inline_table_insert, inline_table_value,
    nested, new_inline_table, parse_document, parses_to, render_document, root,
    string_list_value, string_value, table_fields, toml_parse_error, toml_parses, value_field,
    value_fields, value_string, with_array, with_nested_array, DocLists, DocPath, Leaf, no_leaf,
    entry_of,
};
use super::PolicyStoreError;

verus! {

/// The identity of a rule as an edit matches it: none without a string
/// `kind`, nor for a class or column rule that lacks its class or column.
pub open spec fn strict_identity(f: Map<Seq<char>, Seq<char>>) -> Option<Seq<char>> {
    if !f.contains_key("kind"@) {
        None
    } else {
        let kind = f["kind"@];
        if kind == "class"@ {
            if f.contains_key("class"@) {
                Some("class:"@ + f["class"@])
            } else {
                None
            }
        } else if kind == "column"@ {
            if f.contains_key("column"@) {
                Some("column:"@ + f["column"@])
            } else {
                None
            }
        } else if kind == "default"@ {
            Some("default"@)
        } else {
            Some("kind:"@ + kind)
        }
    }
}

/// What an edit matches entries by.
#[derive(Debug, Clone, Copy, PartialEq, Eq, Structural)]
pub enum MatchBy {
    /// Rules, by their identity.
    Identity,
    /// Custom recognizers, by their name.
    Name,
}

pub open spec fn edit_key(v: Value, by: MatchBy) -> Option<Seq<char>> {
    match by {
        MatchBy::Identity => strict_identity(value_fields(v)),
        MatchBy::Name => field(value_fields(v), "name"@),
    }
}

/// `vals` without the entries whose key is `k`, in order.
pub open spec fn without_key(vals: Seq<Value>, k: Seq<char>, by: MatchBy) -> Seq<Value>
    decreases vals.len(),
{
    if vals.len() == 0 {
        Seq::empty()
    } else {
        let rest = without_key(vals.drop_last(), k, by);
        if edit_key(vals.last(), by) == Some(k) {
            rest
        } else {
            rest.push(vals.last())
        }
    }
}

proof fn lemma_without_key(vals: Seq<Value>, k: Seq<char>, by: MatchBy)
    ensures
        forall|i: int|
            0 <= i < without_key(vals, k, by).len() ==> edit_key(
                #[trigger] without_key(vals, k, by)[i],
                by,
            ) != Some(k),
    decreases vals.len(),
{
    if vals.len() > 0 {
        lemma_without_key(vals.drop_last(), k, by);
    }
}

/// A rule that names what its kind needs: a class rule its class, a
/// column rule its column.
pub open spec fn rule_is_complete(rule: RuleEdit) -> bool {
    &&& rule.kind@ == "class"@ ==> rule.class is Some
    &&& rule.kind@ == "column"@ ==> rule.column is Some
}

/// Upserting a rule leaves exactly one rule of its identity, the new one,
/// at the end; removing an identity leaves none. (A class or column rule
/// written without its class or column has no identity an edit can match.)
pub proof fn upsert_keeps_one_rule_per_identity(values: Seq<Value>, rule: RuleEdit, r: Seq<Value>)
    requires
        rule_is_complete(rule),
        r.len() >= 1,
        r.drop_last() == without_key(
            values,
            super::editor::rule_identity_spec(rule.kind@, opt_string(rule.class), opt_string(rule.column)),
            MatchBy::Identity,
        ),
        value_fields(r.last()) == rule_fields(rule),
    ensures
        edit_key(r.last(), MatchBy::Identity) == Some(
            super::editor::rule_identity_spec(rule.kind@, opt_string(rule.class), opt_string(rule.column)),
        ),
        forall|i: int|
            0 <= i < r.len() - 1 ==> edit_key(#[trigger] r[i], MatchBy::Identity) != Some(
                super::editor::rule_identity_spec(rule.kind@, opt_string(rule.class), opt_string(rule.column)),
            ),
{
    let id = super::editor::rule_identity_spec(rule.kind@, opt_string(rule.class), opt_string(rule.column));
    lemma_without_key(values, id, MatchBy::Identity);
    assert forall|i: int| 0 <= i < r.len() - 1 implies edit_key(#[trigger] r[i], MatchBy::Identity) != Some(id) by {
        assert(r[i] == r.drop_last()[i]);
    }
    reveal_strlit("kind");
    reveal_strlit("class");
    reveal_strlit("column");
    reveal_strlit("action");
    assert("kind"@.len() == 4 && "class"@.len() == 5 && "column"@.len() == 6);
    assert("action"@.len() == 6 && "column"@[0] == 'c' && "action"@[0] == 'a');
    let f = rule_fields(rule);
    assert(f.contains_key("kind"@) && f["kind"@] == rule.kind@);
    if rule.kind@ == "class"@ {
        assert(f.contains_key("class"@) && f["class"@] == rule.class->0@);
    } else if rule.kind@ == "column"@ {
        assert(f.contains_key("column"@) && f["column"@] == rule.column->0@);
    }
}

/// Removing a key leaves no entry with that key.
pub proof fn removal_leaves_no_entry(vals: Seq<Value>, k: Seq<char>, by: MatchBy)
    ensures
        forall|i: int|
            0 <= i < without_key(vals, k, by).len() ==> edit_key(
                #[trigger] without_key(vals, k, by)[i],
                by,
            ) != Some(k),
{
    lemma_without_key(vals, k, by);
}

/// The string entries of the table written for a rule.
pub open spec fn rule_fields(rule: RuleEdit) -> Map<Seq<char>, Seq<char>> {
    let m0 = Map::<Seq<char>, Seq<char>>::empty().insert("kind"@, rule.kind@);
    let m1 = match rule.class {
        Some(c) => m0.insert("class"@, c@),
        None => m0,
    };
    let m2 = match rule.column {
        Some(c) => m1.insert("column"@, c@),
        None => m1,
    };
    m2.insert("action"@, rule.action@)
}

pub open spec fn put_opt(
    m: Map<Seq<char>, Seq<char>>,
    k: Seq<char>,
    v: Option<String>,
) -> Map<Seq<char>, Seq<char>> {
    match v {
        Some(s) => m.insert(k, s@),
        None => m,
    }
}

/// The string entries of the table written for a custom recognizer; the
/// term list and the case flag are written too, but are not strings.
pub open spec fn recognizer_fields(rec: RecognizerEdit) -> Map<Seq<char>, Seq<char>> {
    let m0 = Map::<Seq<char>, Seq<char>>::empty().insert("kind"@, rec.kind@).insert(
        "name"@,
        rec.name@,
    );
    let m1 = put_opt(m0, "pattern"@, rec.pattern).insert("class"@, rec.class@);
    let m2 = put_opt(m1, "terms_file"@, rec.terms_file);
    let m3 = put_opt(m2, "terms_from_context"@, rec.terms_from_context);
    let m4 = put_opt(m3, "token_family"@, rec.token_family);
    put_opt(m4, "safety_tier"@, rec.safety_tier)
}

/// The leaf of a string entry: neither a boolean, nor a list, nor an
/// integer.
pub open spec fn string_leaf() -> Leaf {
    no_leaf()
}

pub open spec fn leaf_opt(m: Map<Seq<char>, Leaf>, k: Seq<char>, v: Option<String>) -> Map<
    Seq<char>,
    Leaf,
> {
    match v {
        Some(_) => m.insert(k, string_leaf()),
        None => m,
    }
}

/// The leaves of the table written for a custom recognizer, entry by
/// entry in the order they are written: the term list as its strings, the
/// case flag as its boolean, and every other entry as a string.
pub open spec fn recognizer_leaves(rec: RecognizerEdit) -> Map<Seq<char>, Leaf> {
    let m0 = Map::<Seq<char>, Leaf>::empty().insert("kind"@, string_leaf()).insert(
        "name"@,
        string_leaf(),
    );
    let m1 = leaf_opt(m0, "pattern"@, rec.pattern).insert("class"@, string_leaf());
    let m2 = match rec.terms {
        Some(ts) => m1.insert(
            "terms"@,
            (None::<bool>, Some(Seq::new(ts@.len(), |i: int| ts@[i]@)), None::<i64>),
        ),
        None => m1,
    };
    let m3 = leaf_opt(leaf_opt(m2, "terms_file"@, rec.terms_file), "terms_from_context"@, rec.terms_from_context);
    let m4 = match rec.case_sensitive {
        Some(b) => m3.insert("case_sensitive"@, (Some(b), None::<Seq<Seq<char>>>, None::<i64>)),
        None => m3,
    };
    leaf_opt(leaf_opt(m4, "token_family"@, rec.token_family), "safety_tier"@, rec.safety_tier)
}

/// A table's string entries carry each field of the rule edit `rule` under
/// its own key: `kind` and `action` as given, `class` and `column` where
/// given and nowhere else.
pub open spec fn holds_rule(fields: Map<Seq<char>, Seq<char>>, rule: RuleEdit) -> bool {
    &&& field(fields, "kind"@) == Some(rule.kind@)
    &&& field(fields, "action"@) == Some(rule.action@)
    &&& field(fields, "class"@) == opt_string(rule.class)
    &&& field(fields, "column"@) == opt_string(rule.column)
}

/// The table written for a rule holds the rule as it was edited.
proof fn lemma_rule_written_as_given(rule: RuleEdit)
    ensures
        holds_rule(rule_fields(rule), rule),
{
    reveal_strlit("kind");
    reveal_strlit("class");
    reveal_strlit("column");
    reveal_strlit("action");
    assert("kind"@.len() == 4);
    assert("class"@.len() == 5);
    assert("column"@.len() == 6);
    assert("action"@.len() == 6 && "action"@[0] == 'a' && "column"@[0] == 'c');
    let f = rule_fields(rule);
    assert(field(f, "kind"@) == Some(rule.kind@));
    assert(field(f, "action"@) == Some(rule.action@));
    assert(field(f, "class"@) == opt_string(rule.class));
    assert(field(f, "column"@) == opt_string(rule.column));
}

/// An upserted rule is the last rule of the edited document, and it holds
/// the edit as given: kind, class, column and action each under its own
/// key.
pub proof fn upserted_rule_holds_the_edit(lb: DocLists, rule: RuleEdit, lf: DocLists)
    requires
        rule_upserted(lb, rule, lf),
    ensures
        lf[root("rule"@)].len() >= 1,
        holds_rule(lf[root("rule"@)].last().0, rule),
{
    let (v, r) = choose|v: Seq<Value>, r: Seq<Value>|
        #![trigger entries(v), entries(r)]
        {
            &&& entries(v) == lb[root("rule"@)]
            &&& r.len() >= 1
            &&& r.drop_last() == without_key(v, rule_id(rule), MatchBy::Identity)
            &&& value_fields(r.last()) == rule_fields(rule)
            &&& value_string(r.last()) is None
            &&& forall|p: DocPath| #[trigger] lf[p] == with_array(lb, "rule"@, entries(r), p)
        };
    assert(lf[root("rule"@)] == with_array(lb, "rule"@, entries(r), root("rule"@)));
    assert(entries(r).last() == entry_of(r.last()));
    lemma_rule_written_as_given(rule);
}

/// A table's entries, as strings and leaves, carry each field of the
/// recognizer edit `rec` under its own key: `kind`, `name` and `class` as
/// given, each optional string field where it is given and nowhere else,
/// the term list as its strings, and the case flag as its boolean.
pub open spec fn holds_recognizer(
    fields: Map<Seq<char>, Seq<char>>,
    leaves: Map<Seq<char>, Leaf>,
    rec: RecognizerEdit,
) -> bool {
    &&& field(fields, "kind"@) == Some(rec.kind@)
    &&& field(fields, "name"@) == Some(rec.name@)
    &&& field(fields, "class"@) == Some(rec.class@)
    &&& field(fields, "pattern"@) == opt_string(rec.pattern)
    &&& field(fields, "terms_file"@) == opt_string(rec.terms_file)
    &&& field(fields, "terms_from_context"@) == opt_string(rec.terms_from_context)
    &&& field(fields, "token_family"@) == opt_string(rec.token_family)
    &&& field(fields, "safety_tier"@) == opt_string(rec.safety_tier)
    &&& match rec.terms {
        Some(ts) => leaves.contains_key("terms"@) && leaves["terms"@] == (
            None::<bool>,
            Some(Seq::new(ts@.len(), |i: int| ts@[i]@)),
            None::<i64>,
        ),
        None => !leaves.contains_key("terms"@),
    }
    &&& match rec.case_sensitive {
        Some(b) => leaves.contains_key("case_sensitive"@) && leaves["case_sensitive"@] == (
            Some(b),
            None::<Seq<Seq<char>>>,
            None::<i64>,
        ),
        None => !leaves.contains_key("case_sensitive"@),
    }
}

/// The table written for a recognizer holds the recognizer as it was
/// edited.
proof fn lemma_recognizer_written_as_given(rec: RecognizerEdit)
    ensures
        holds_recognizer(recognizer_fields(rec), recognizer_leaves(rec), rec),
{
    reveal_strlit("kind");
    reveal_strlit("name");
    reveal_strlit("pattern");
    reveal_strlit("class");
    reveal_strlit("terms");
    reveal_strlit("terms_file");
    reveal_strlit("terms_from_context");
    reveal_strlit("case_sensitive");
    reveal_strlit("token_family");
    reveal_strlit("safety_tier");
    assert("kind"@.len() == 4 && "kind"@[0] == 'k');
    assert("name"@.len() == 4 && "name"@[0] == 'n');
    assert("pattern"@.len() == 7);
    assert("class"@.len() == 5 && "class"@[0] == 'c');
    assert("terms"@.len() == 5 && "terms"@[0] == 't');
    assert("terms_file"@.len() == 10);
    assert("terms_from_context"@.len() == 18);
    assert("case_sensitive"@.len() == 14);
    assert("token_family"@.len() == 12);
    assert("safety_tier"@.len() == 11);
    let f = recognizer_fields(rec);
    let l = recognizer_leaves(rec);
    assert(field(f, "kind"@) == Some(rec.kind@));
    assert(field(f, "name"@) == Some(rec.name@));
    assert(field(f, "class"@) == Some(rec.class@));
    assert(field(f, "pattern"@) == opt_string(rec.pattern));
    assert(field(f, "terms_file"@) == opt_string(rec.terms_file));
    assert(field(f, "terms_from_context"@) == opt_string(rec.terms_from_context));
    assert(field(f, "token_family"@) == opt_string(rec.token_family));
    assert(field(f, "safety_tier"@) == opt_string(rec.safety_tier));
}

/// An upserted recognizer is the last custom recognizer of the edited
/// document, and it holds the edit as given: every field under its own
/// key, the term list and the case flag included.
pub proof fn upserted_recognizer_holds_the_edit(lb: DocLists, rec: RecognizerEdit, lf: DocLists)
    requires
        recognizer_upserted(lb, rec, lf),
    ensures
        lf[recognizers_at()].len() >= 1,
        holds_recognizer(lf[recognizers_at()].last().0, lf[recognizers_at()].last().2, rec),
{
    let (v, r) = choose|v: Seq<Value>, r: Seq<Value>|
        #![trigger entries(v), entries(r)]
        {
            &&& entries(v) == lb[recognizers_at()]
            &&& r.len() >= 1
            &&& r.drop_last() == without_key(v, rec.name@, MatchBy::Name)
            &&& value_fields(r.last()) == recognizer_fields(rec)
            &&& value_leaves(r.last()) == recognizer_leaves(rec)
            &&& value_string(r.last()) is None
            &&& recognizers_written(lb, entries(r), lf)
        };
    reveal_strlit("policy");
    assert(recognizers_at() != root("policy"@));
    assert(lf[recognizers_at()] == entries(r));
    assert(entries(r).last() == entry_of(r.last()));
    lemma_recognizer_written_as_given(rec);
}

/// The identity of a rule entry, as an edit matches it.
pub fn rule_identity_from_table(value: &Value) -> (r: Option<String>)
    ensures
        r matches Some(s) ==> strict_identity(value_fields(*value)) == Some(s@),
        r is None ==> strict_identity(value_fields(*value)) is None,
{
    let kind = match value_field(value, "kind") {
        Some(k) => k,
        None => return None,
    };
    if kind == String::from_str("class") {
        match value_field(value, "class") {
            Some(c) => Some(String::from_str("class:").concat(c.as_str())),
            None => None,
        }
    } else if kind == String::from_str("column") {
        match value_field(value, "column") {
            Some(c) => Some(String::from_str("column:").concat(c.as_str())),
            None => None,
        }
    } else if kind == String::from_str("default") {
        Some(String::from_str("default"))
    } else {
        Some(String::from_str("kind:").concat(kind.as_str()))
    }
}

fn edit_key_of(value: &Value, by: MatchBy) -> (r: Option<String>)
    ensures
        r matches Some(s) ==> edit_key(*value, by) == Some(s@),
        r is None ==> edit_key(*value, by) is None,
{
    match by {
        MatchBy::Identity => rule_identity_from_table(value),
        MatchBy::Name => value_field(value, "name"),
    }
}

/// The entries of `values` whose key is not `key`, in order.
pub fn retain_without(values: &Vec<Value>, key: &str, by: MatchBy) -> (r: Vec<Value>)
    ensures
        r@ == without_key(values@, key@, by),
{
    let target = String::from_str(key);
    let mut r: Vec<Value> = Vec::new();
    let n = values.len();
    for i in 0..n
        invariant
            n == values@.len(),
            target@ == key@,
            r@ == without_key(values@.take(i as int), key@, by),
    {
        assert(values@.take(i + 1).drop_last() =~= values@.take(i as int));
        let same = match edit_key_of(&values[i], by) {
            Some(k) => k == target,
            None => false,
        };
        if !same {
            r.push(values[i].clone());
        }
    }
    assert(values@.take(n as int) =~= values@);
    r
}

/// Whether some entry of `values` has key `key`.
pub fn any_with_key(values: &Vec<Value>, key: &str, by: MatchBy) -> (r: bool)
    ensures
        r == exists|i: int| 0 <= i < values@.len() && edit_key(#[trigger] values@[i], by) == Some(
            key@,
        ),
{
    let target = String::from_str(key);
    let n = values.len();
    for i in 0..n
        invariant
            n == values@.len(),
            target@ == key@,
            forall|j: int| 0 <= j < i ==> edit_key(#[trigger] values@[j], by) != Some(key@),
    {
        match edit_key_of(&values[i], by) {
            Some(k) => {
                if k == target {
                    return true;
                }
            },
            None => {},
        }
    }
    false
}

fn put_string(t: &mut toml_edit::InlineTable, key: &str, value: &String)
    ensures
        table_fields(*final(t)) == table_fields(*old(t)).insert(key@, value@),
        table_leaves(*final(t)) == table_leaves(*old(t)).insert(key@, string_leaf()),
{
    inline_table_insert(t, key, string_value(value.as_str()));
}

fn put_optional(t: &mut toml_edit::InlineTable, key: &str, value: &Option<String>)
    ensures
        table_fields(*final(t)) == put_opt(table_fields(*old(t)), key@, *value),
        table_leaves(*final(t)) == leaf_opt(table_leaves(*old(t)), key@, *value),
{
    if let Some(v) = value {
        put_string(t, key, v);
    }
}

/// The inline table written for a rule: kind, class and column where
/// given, and action.
pub fn rule_table(rule: &RuleEdit) -> (v: Value)
    ensures
        value_fields(v) == rule_fields(*rule),
        holds_rule(value_fields(v), *rule),
        value_string(v) is None,
{
    let mut t = new_inline_table();
    put_string(&mut t, "kind", &rule.kind);
    put_optional(&mut t, "class", &rule.class);
    put_optional(&mut t, "column", &rule.column);
    put_string(&mut t, "action", &rule.action);
    assert(table_fields(t) =~= rule_fields(*rule));
    proof {
        lemma_rule_written_as_given(*rule);
    }
    inline_table_value(t)
}

/// The inline table written for a custom recognizer, its entries in the
/// editor's order.
pub fn recognizer_table(rec: &RecognizerEdit) -> (v: Value)
    ensures
        value_fields(v) == recognizer_fields(*rec),
        value_leaves(v) == recognizer_leaves(*rec),
        holds_recognizer(value_fields(v), value_leaves(v), *rec),
        value_string(v) is None,
{
    proof {
        reveal_strlit("kind");
        reveal_strlit("name");
        reveal_strlit("pattern");
        reveal_strlit("class");
        reveal_strlit("terms");
        reveal_strlit("terms_file");
        reveal_strlit("terms_from_context");
        reveal_strlit("case_sensitive");
    }
    let mut t = new_inline_table();
    put_string(&mut t, "kind", &rec.kind);
    put_string(&mut t, "name", &rec.name);
    put_optional(&mut t, "pattern", &rec.pattern);
    put_string(&mut t, "class", &rec.class);
    let ghost before_terms = table_fields(t);
    if let Some(terms) = &rec.terms {
        inline_table_insert(&mut t, "terms", string_list_value(terms));
        assert("terms"@[0] == 't' && "kind"@[0] == 'k' && "name"@[0] == 'n');
        assert("pattern"@[0] == 'p' && "class"@[0] == 'c');
        assert(!before_terms.contains_key("terms"@));
        assert(table_fields(t) =~= before_terms);
    }
    put_optional(&mut t, "terms_file", &rec.terms_file);
    put_optional(&mut t, "terms_from_context", &rec.terms_from_context);
    let ghost before_case = table_fields(t);
    if let Some(cs) = rec.case_sensitive {
        inline_table_insert(&mut t, "case_sensitive", bool_value(cs));
        assert("case_sensitive"@.len() == 14 && "class"@.len() == 5);
        assert("terms_file"@[0] == 't' && "terms_from_context"@[0] == 't');
        assert(!before_case.contains_key("case_sensitive"@));
        assert(table_fields(t) =~= before_case);
    }
    put_optional(&mut t, "token_family", &rec.token_family);
    put_optional(&mut t, "safety_tier", &rec.safety_tier);
    assert(table_fields(t) =~= recognizer_fields(*rec));
    assert(table_leaves(t) =~= recognizer_leaves(*rec));
    proof {
        lemma_recognizer_written_as_given(*rec);
    }
    inline_table_value(t)
}

/// The rule list with `rule` upserted: entries of the same identity are
/// dropped and the new rule goes last.
pub fn upsert_rule_values(values: &Vec<Value>, rule: &RuleEdit) -> (r: Vec<Value>)
    ensures
        r@.len() >= 1,
        r@.drop_last() == without_key(
            values@,
            super::editor::rule_identity_spec(
                rule.kind@,
                opt_string(rule.class),
                opt_string(rule.column),
            ),
            MatchBy::Identity,
        ),
        value_fields(r@.last()) == rule_fields(*rule),
        value_string(r@.last()) is None,
{
    let class_ref: Option<&str> = match &rule.class {
        Some(c) => Some(c.as_str()),
        None => None,
    };
    let column_ref: Option<&str> = match &rule.column {
        Some(c) => Some(c.as_str()),
        None => None,
    };
    let identity = super::editor::rule_identity(rule.kind.as_str(), class_ref, column_ref);
    let mut r = retain_without(values, identity.as_str(), MatchBy::Identity);
    let ghost kept = r@;
    r.push(rule_table(rule));
    assert(r@.drop_last() =~= kept);
    r
}

pub open spec fn opt_string(s: Option<String>) -> Option<Seq<char>> {
    match s {
        Some(v) => Some(v@),
        None => None,
    }
}

/// The recognizer list with `rec` upserted by name: the new entry goes last.
pub fn upsert_recognizer_values(values: &Vec<Value>, rec: &RecognizerEdit) -> (r: Vec<Value>)
    ensures
        r@.len() >= 1,
        r@.drop_last() == without_key(values@, rec.name@, MatchBy::Name),
        value_fields(r@.last()) == recognizer_fields(*rec),
        value_leaves(r@.last()) == recognizer_leaves(*rec),
        value_string(r@.last()) is None,
{
    let mut r = retain_without(values, rec.name.as_str(), MatchBy::Name);
    let ghost kept = r@;
    r.push(recognizer_table(rec));
    assert(r@.drop_last() =~= kept);
    r
}

/// A document parsed for editing; a parse failure is a policy error that
/// carries the parser's message.
pub fn parse_doc(raw: &str) -> (r: Result<DocumentMut, PolicyStoreError>)
    ensures
        r is Ok <==> toml_parses(raw@),
        r matches Err(e) ==> (e matches PolicyStoreError::Policy(m) && m@ == toml_parse_error(
            raw@,
        )),
        r matches Ok(d) ==> parses_to(raw@, doc_lists(d)),
        r matches Ok(d) ==> doc_keys(d) == parsed_keys(raw@),
        r matches Ok(d) ==> forall|ks: Set<Seq<char>>| #[trigger] doc_rest(d, ks) == parsed_rest(raw@, ks),
{
    match parse_document(raw) {
        Ok(doc) => Ok(doc),
        Err(m) => Err(PolicyStoreError::Policy(m)),
    }
}

/// The identity an upserted rule is matched by.
pub open spec fn rule_id(rule: RuleEdit) -> Seq<char> {
    super::editor::rule_identity_spec(rule.kind@, opt_string(rule.class), opt_string(rule.column))
}

/// The path of the custom recognizers.
pub open spec fn recognizers_at() -> DocPath {
    nested("policy"@, "custom_recognizers"@)
}

/// `lf` is `lb` with its rules upserted with `rule`: the rules of another
/// identity in their order, then the new rule.
pub open spec fn rule_upserted(lb: DocLists, rule: RuleEdit, lf: DocLists) -> bool {
    exists|v: Seq<Value>, r: Seq<Value>|
        #![trigger entries(v), entries(r)]
        {
            &&& entries(v) == lb[root("rule"@)]
            &&& r.len() >= 1
            &&& r.drop_last() == without_key(v, rule_id(rule), MatchBy::Identity)
            &&& value_fields(r.last()) == rule_fields(rule)
            &&& value_string(r.last()) is None
            &&& forall|p: DocPath| #[trigger] lf[p] == with_array(lb, "rule"@, entries(r), p)
        }
}

/// `lf` is `lb` without the rules of identity `id`.
pub open spec fn rule_removed(lb: DocLists, id: Seq<char>, lf: DocLists) -> bool {
    exists|v: Seq<Value>|
        #![trigger entries(v)]
        {
            &&& entries(v) == lb[root("rule"@)]
            &&& forall|p: DocPath|
                #[trigger] lf[p] == with_array(
                    lb,
                    "rule"@,
                    entries(without_key(v, id, MatchBy::Identity)),
                    p,
                )
        }
}

/// `lf` holds `es` as its custom recognizers; only the `[policy]` table
/// itself may change besides.
pub open spec fn recognizers_written(lb: DocLists, es: Seq<(Map<Seq<char>, Seq<char>>, Option<Seq<char>>, Map<Seq<char>, (Option<bool>, Option<Seq<Seq<char>>>, Option<i64>)>, (Option<bool>, Option<Seq<Seq<char>>>, Option<i64>))>, lf: DocLists) -> bool {
    forall|p: DocPath|
        p != root("policy"@) ==> #[trigger] lf[p] == if p == recognizers_at() {
            es
        } else {
            lb[p]
        }
}

/// Nothing but the `[policy]` table itself changed.
pub open spec fn recognizers_kept(lb: DocLists, lf: DocLists) -> bool {
    forall|p: DocPath| p != root("policy"@) ==> #[trigger] lf[p] == lb[p]
}

/// `lf` is `lb` with its custom recognizers upserted with `rec`, by name.
pub open spec fn recognizer_upserted(lb: DocLists, rec: RecognizerEdit, lf: DocLists) -> bool {
    exists|v: Seq<Value>, r: Seq<Value>|
        #![trigger entries(v), entries(r)]
        {
            &&& entries(v) == lb[recognizers_at()]
            &&& r.len() >= 1
            &&& r.drop_last() == without_key(v, rec.name@, MatchBy::Name)
            &&& value_fields(r.last()) == recognizer_fields(rec)
            &&& value_leaves(r.last()) == recognizer_leaves(rec)
            &&& value_string(r.last()) is None
            &&& recognizers_written(lb, entries(r), lf)
        }
}

/// `lf` is `lb` without the custom recognizers named `name`.
pub open spec fn recognizer_removed(lb: DocLists, name: Seq<char>, lf: DocLists) -> bool {
    exists|v: Seq<Value>|
        #![trigger entries(v)]
        {
            &&& entries(v) == lb[recognizers_at()]
            &&& recognizers_written(lb, entries(without_key(v, name, MatchBy::Name)), lf)
        }
}

fn upsert_rule(doc: &mut DocumentMut, rule: &RuleEdit)
    ensures
        rule_upserted(doc_lists(*old(doc)), *rule, doc_lists(*final(doc))),
        rest_kept(*old(doc), *final(doc), "rule"@),
{
    let ghost lb = doc_lists(*doc);
    let values = document_values(doc, "rule");
    let updated = upsert_rule_values(&values, rule);
    let ghost (v, r) = (values@, updated@);
    document_insert_values(doc, "rule", updated);
    assert(entries(v) == lb[root("rule"@)]);
    assert(entries(r).len() == r.len());
}

fn remove_rule(doc: &mut DocumentMut, identity: &str)
    ensures
        rule_removed(doc_lists(*old(doc)), identity@, doc_lists(*final(doc))),
        rest_kept(*old(doc), *final(doc), "rule"@),
{
    let ghost lb = doc_lists(*doc);
    let values = document_values(doc, "rule");
    let ghost v = values@;
    document_insert_values(doc, "rule", retain_without(&values, identity, MatchBy::Identity));
    assert(entries(v) == lb[root("rule"@)]);
}

fn write_recognizer_values(doc: &mut DocumentMut, values: Vec<Value>) -> (r: Result<
    (),
    PolicyStoreError,
>)
    ensures
        r is Ok <==> policy_writable(doc_keys(*old(doc))),
        r is Ok ==> recognizers_written(doc_lists(*old(doc)), entries(values@), doc_lists(*final(doc))),
        r is Ok ==> rest_kept(*old(doc), *final(doc), "policy"@),
        r is Err ==> *final(doc) == *old(doc),
        r matches Err(e) ==> (e matches PolicyStoreError::Policy(m) && m@
            == "policy table missing"@),
{
    let ghost lb = doc_lists(*doc);
    let ghost es = entries(values@);
    if !document_contains_key(doc, "policy") {
        document_insert_table(doc, "policy");
    }
    assert(forall|p: DocPath| p != root("policy"@) ==> #[trigger] doc_lists(*doc)[p] == lb[p]);
    if document_is_table_like(doc, "policy") {
        document_insert_nested_values(doc, "policy", "custom_recognizers", values);
        Ok(())
    } else {
        Err(PolicyStoreError::Policy(String::from_str("policy table missing")))
    }
}

fn upsert_recognizer(doc: &mut DocumentMut, rec: &RecognizerEdit) -> (r: Result<
    (),
    PolicyStoreError,
>)
    ensures
        r is Ok <==> policy_writable(doc_keys(*old(doc))),
        r is Ok ==> recognizer_upserted(doc_lists(*old(doc)), *rec, doc_lists(*final(doc))),
        r is Ok ==> rest_kept(*old(doc), *final(doc), "policy"@),
        r is Err ==> *final(doc) == *old(doc),
        r matches Err(e) ==> (e matches PolicyStoreError::Policy(m) && m@
            == "policy table missing"@),
{
    let ghost lb = doc_lists(*doc);
    let values = document_nested_values(doc, "policy", "custom_recognizers");
    let updated = upsert_recognizer_values(&values, rec);
    let ghost (v, r) = (values@, updated@);
    let result = write_recognizer_values(doc, updated);
    assert(entries(v) == lb[recognizers_at()]);
    assert(entries(r).len() == r.len());
    result
}

fn remove_recognizer(doc: &mut DocumentMut, name: &str) -> (r: Result<(), PolicyStoreError>)
    ensures
        r is Ok <==> policy_writable(doc_keys(*old(doc))),
        r is Ok ==> recognizer_removed(doc_lists(*old(doc)), name@, doc_lists(*final(doc))),
        r is Ok ==> rest_kept(*old(doc), *final(doc), "policy"@),
        r is Err ==> *final(doc) == *old(doc),
        r matches Err(e) ==> (e matches PolicyStoreError::Policy(m) && m@
            == "policy table missing"@),
{
    let ghost lb = doc_lists(*doc);
    let values = document_nested_values(doc, "policy", "custom_recognizers");
    let ghost v = values@;
    let result = write_recognizer_values(doc, retain_without(&values, name, MatchBy::Name));
    assert(entries(v) == lb[recognizers_at()]);
    result
}

/// The removal list `key` with `value` added at its end, unless the list
/// already holds it.
pub fn add_remove_string_values(values: &Vec<Value>, value: &str) -> (r: Option<Vec<Value>>)
    ensures
        value_strings(values@).contains(value@) <==> r is None,
        r matches Some(v) ==> v@.drop_last() == values@ && value_string(v@.last()) == Some(
            value@,
        ) && v@.len() == values@.len() + 1,
{
    let present = strings_of(values);
    let target = String::from_str(value);
    let n = present.len();
    for i in 0..n
        invariant
            n == present@.len(),
            target@ == value@,
            strs_view(present@) == value_strings(values@),
            forall|j: int| 0 <= j < i ==> present@[j]@ != value@,
    {
        if present[i] == target {
            assert(strs_view(present@)[i as int] == value@);
            return None;
        }
    }
    assert(!value_strings(values@).contains(value@)) by {
        if value_strings(values@).contains(value@) {
            let j = choose|j: int| 0 <= j < strs_view(present@).len() && strs_view(present@)[j]
                == value@;
            assert(present@[j]@ == value@);
        }
    }
    let mut r: Vec<Value> = Vec::new();
    for i in 0..values.len()
        invariant
            r@ == values@.take(i as int),
    {
        r.push(values[i].clone());
        assert(values@.take(i + 1) =~= values@.take(i as int).push(values@[i as int]));
    }
    assert(values@.take(values@.len() as int) =~= values@);
    r.push(string_value(value));
    assert(r@.drop_last() =~= values@);
    Some(r)
}

/// `lf` is `lb` with `value` recorded in the removal list at root `key`,
/// unless the list already holds it.
pub open spec fn removal_recorded(lb: DocLists, key: Seq<char>, value: Seq<char>, lf: DocLists) -> bool {
    exists|v: Seq<Value>|
        #![trigger entries(v)]
        {
            &&& entries(v) == lb[root(key)]
            &&& value_strings(v).contains(value) ==> lf == lb
            &&& !value_strings(v).contains(value) ==> exists|r: Seq<Value>|
                #![trigger entries(r)]
                {
                    &&& r.len() == v.len() + 1
                    &&& r.drop_last() == v
                    &&& value_string(r.last()) == Some(value)
                    &&& forall|p: DocPath| #[trigger] lf[p] == with_array(lb, key, entries(r), p)
                }
        }
}

/// `lf` is `lb` without the entries of key `target` in the `[overrides]`
/// list `key`, where that list exists.
pub open spec fn override_dropped(
    lb: DocLists,
    key: Seq<char>,
    target: Seq<char>,
    by: MatchBy,
    lf: DocLists,
) -> bool {
    ||| lf == lb
    ||| override_list_dropped(lb, key, target, by, lf)
}

/// `lf` is `lb` with the `[overrides]` list `key` rewritten as an array
/// without the entries of key `target`.
pub open spec fn override_list_dropped(
    lb: DocLists,
    key: Seq<char>,
    target: Seq<char>,
    by: MatchBy,
    lf: DocLists,
) -> bool {
    exists|v: Seq<Value>|
        #![trigger entries(v)]
        {
            &&& entries(v) == lb[nested("overrides"@, key)]
            &&& forall|p: DocPath|
                #[trigger] lf[p] == with_nested_array(
                    lb,
                    "overrides"@,
                    key,
                    entries(without_key(v, target, by)),
                    p,
                )
        }
}

fn add_remove_string(doc: &mut DocumentMut, key: &str, value: &str)
    ensures
        removal_recorded(doc_lists(*old(doc)), key@, value@, doc_lists(*final(doc))),
        rest_kept(*old(doc), *final(doc), key@),
{
    let ghost lb = doc_lists(*doc);
    let values = document_values(doc, key);
    let ghost v = values@;
    assert(entries(v) == lb[root(key@)]);
    if let Some(updated) = add_remove_string_values(&values, value) {
        let ghost r = updated@;
        document_insert_values(doc, key, updated);
        assert(entries(r).len() == r.len());
    }
}

/// Drops the entries with key `target` from the `[overrides]` list `key`,
/// when that list exists.
fn remove_nested_override(doc: &mut DocumentMut, key: &str, target: &str, by: MatchBy)
    ensures
        override_dropped(doc_lists(*old(doc)), key@, target@, by, doc_lists(*final(doc))),
        has_nested_key(doc_keys(*old(doc)), "overrides"@, key@) ==> override_list_dropped(
            doc_lists(*old(doc)),
            key@,
            target@,
            by,
            doc_lists(*final(doc)),
        ),
        !has_nested_key(doc_keys(*old(doc)), "overrides"@, key@) ==> doc_lists(*final(doc))
            == doc_lists(*old(doc)),
        rest_kept(*old(doc), *final(doc), "overrides"@),
{
    if !document_has_nested(doc, "overrides", key) {
        return;
    }
    let ghost lb = doc_lists(*doc);
    let values = document_nested_values(doc, "overrides", key);
    let ghost v = values@;
    assert(entries(v) == lb[nested("overrides"@, key@)]);
    document_insert_nested_values(doc, "overrides", key, retain_without(&values, target, by));
}

/// The global document parses and holds a rule of identity `id`.
pub open spec fn global_has_rule(global: Seq<char>, id: Seq<char>) -> bool {
    exists|l: DocLists|
        #![trigger parses_to(global, l)]
        parses_to(global, l) && exists|i: int|
            0 <= i < l[root("rule"@)].len() && strict_identity(
                #[trigger] l[root("rule"@)][i].0,
            ) == Some(id)
}

/// The global document parses and holds a custom recognizer named `name`.
pub open spec fn global_has_recognizer(global: Seq<char>, name: Seq<char>) -> bool {
    exists|l: DocLists|
        #![trigger parses_to(global, l)]
        parses_to(global, l) && exists|i: int|
            0 <= i < l[recognizers_at()].len() && field(
                #[trigger] l[recognizers_at()][i].0,
                "name"@,
            ) == Some(name)
}

/// Whether the global document holds a rule of identity `identity`; false
/// when it does not parse.
pub fn global_contains_rule(global: &str, identity: &str) -> (r: bool)
    ensures
        r == global_has_rule(global@, identity@),
{
    match parse_document(global) {
        Ok(doc) => {
            let values = document_values(&doc, "rule");
            let found = any_with_key(&values, identity, MatchBy::Identity);
            let ghost l = doc_lists(doc);
            proof {
                assert(entries(values@) == l[root("rule"@)]);
                if found {
                    let i = choose|i: int| 0 <= i < values@.len() && edit_key(#[trigger] values@[i], MatchBy::Identity) == Some(identity@);
                    assert(l[root("rule"@)][i].0 == value_fields(values@[i]));
                }
                if global_has_rule(global@, identity@) {
                    let l2 = choose|l2: DocLists| #[trigger] parses_to(global@, l2) && exists|i: int|
                        0 <= i < l2[root("rule"@)].len() && strict_identity(#[trigger] l2[root("rule"@)][i].0) == Some(identity@);
                    assert(l2 == l);
                    let i = choose|i: int| 0 <= i < l[root("rule"@)].len() && strict_identity(#[trigger] l[root("rule"@)][i].0) == Some(identity@);
                    assert(l[root("rule"@)][i].0 == value_fields(values@[i]));
                    assert(edit_key(values@[i], MatchBy::Identity) == Some(identity@));
                }
            }
            found
        },
        Err(_) => false,
    }
}

/// Whether the global document holds a custom recognizer named `name`;
/// false when it does not parse.
pub fn global_contains_recognizer(global: &str, name: &str) -> (r: bool)
    ensures
        r == global_has_recognizer(global@, name@),
{
    match parse_document(global) {
        Ok(doc) => {
            let values = document_nested_values(&doc, "policy", "custom_recognizers");
            let found = any_with_key(&values, name, MatchBy::Name);
            let ghost l = doc_lists(doc);
            proof {
                assert(entries(values@) == l[recognizers_at()]);
                if found {
                    let i = choose|i: int| 0 <= i < values@.len() && edit_key(#[trigger] values@[i], MatchBy::Name) == Some(name@);
                    assert(l[recognizers_at()][i].0 == value_fields(values@[i]));
                }
                if global_has_recognizer(global@, name@) {
                    let l2 = choose|l2: DocLists| #[trigger] parses_to(global@, l2) && exists|i: int|
                        0 <= i < l2[recognizers_at()].len() && field(#[trigger] l2[recognizers_at()][i].0, "name"@) == Some(name@);
                    assert(l2 == l);
                    let i = choose|i: int| 0 <= i < l[recognizers_at()].len() && field(#[trigger] l[recognizers_at()][i].0, "name"@) == Some(name@);
                    assert(l[recognizers_at()][i].0 == value_fields(values@[i]));
                    assert(edit_key(values@[i], MatchBy::Name) == Some(name@));
                }
            }
            found
        },
        Err(_) => false,
    }
}

/// What an edit does to the lists of the global document.
pub open spec fn global_edited(lb: DocLists, edit: PolicyEdit, lf: DocLists) -> bool {
    match edit {
        PolicyEdit::UpsertRule(rule) => rule_upserted(lb, rule, lf),
        PolicyEdit::RemoveRule { identity } => rule_removed(lb, identity@, lf),
        PolicyEdit::UpsertRecognizer(rec) => recognizer_upserted(lb, rec, lf),
        PolicyEdit::RemoveRecognizer { name } => recognizer_removed(lb, name@, lf),
    }
}

/// What an edit does to the lists of a profile overlay: an upsert is the
/// overlay's own, a removal is recorded and drops the matching override.
pub open spec fn profile_edited(lb: DocLists, edit: PolicyEdit, lf: DocLists) -> bool {
    match edit {
        PolicyEdit::UpsertRule(rule) => rule_upserted(lb, rule, lf),
        PolicyEdit::UpsertRecognizer(rec) => recognizer_upserted(lb, rec, lf),
        PolicyEdit::RemoveRule { identity } => exists|l1: DocLists|
            #![trigger removal_recorded(lb, "remove_rules"@, identity@, l1)]
            removal_recorded(lb, "remove_rules"@, identity@, l1) && override_dropped(
                l1,
                "rules"@,
                identity@,
                MatchBy::Identity,
                lf,
            ),
        PolicyEdit::RemoveRecognizer { name } => exists|l1: DocLists|
            #![trigger removal_recorded(lb, "remove_recognizers"@, name@, l1)]
            removal_recorded(lb, "remove_recognizers"@, name@, l1) && override_dropped(
                l1,
                "recognizers"@,
                name@,
                MatchBy::Name,
                lf,
            ),
    }
}

/// The root keys a global edit may change.
pub open spec fn global_edit_keys() -> Set<Seq<char>> {
    set!["rule"@, "policy"@]
}

/// The root keys a profile edit may change.
pub open spec fn profile_edit_keys() -> Set<Seq<char>> {
    set!["rule"@, "policy"@, "remove_rules"@, "remove_recognizers"@, "overrides"@]
}

/// Applies an edit to the global document and gives the candidate's text.
pub fn apply_global_edit(current: &str, edit: &PolicyEdit) -> (r: Result<String, PolicyStoreError>)
    ensures
        !toml_parses(current@) ==> (r matches Err(PolicyStoreError::Policy(m)) && m@
            == toml_parse_error(current@)),
        toml_parses(current@) ==> (r is Ok <==> (edit is UpsertRule || edit is RemoveRule
            || policy_writable(parsed_keys(current@)))),
        toml_parses(current@) && r is Err ==> (r matches Err(PolicyStoreError::Policy(m)) && m@
            == "policy table missing"@),
        r matches Ok(s) ==> exists|l: DocLists, d: toml_edit::DocumentMut|
            #![trigger parses_to(current@, l), doc_text(d)]
            parses_to(current@, l) && s@ == doc_text(d) && global_edited(l, *edit, doc_lists(d))
                && doc_rest(d, global_edit_keys()) == parsed_rest(current@, global_edit_keys()),
{
    let mut doc = parse_doc(current)?;
    let ghost l = doc_lists(doc);
    match edit {
        PolicyEdit::UpsertRule(rule) => upsert_rule(&mut doc, rule),
        PolicyEdit::RemoveRule { identity } => remove_rule(&mut doc, identity.as_str()),
        PolicyEdit::UpsertRecognizer(rec) => upsert_recognizer(&mut doc, rec)?,
        PolicyEdit::RemoveRecognizer { name } => remove_recognizer(&mut doc, name.as_str())?,
    }
    let text = render_document(&doc);
    assert(global_edited(l, *edit, doc_lists(doc)));
    assert(global_edit_keys().contains("rule"@) && global_edit_keys().contains("policy"@));
    Ok(text)
}

/// Applies an edit to a profile overlay and gives the candidate's text.
/// Upserts go into the overlay; a removal is recorded in the overlay's
/// removal list, drops a matching override, and is refused when the global
/// document has no such entry.
pub fn apply_profile_edit(current: &str, edit: &PolicyEdit, global: &str) -> (r: Result<
    String,
    PolicyStoreError,
>)
    ensures
        !toml_parses(current@) ==> (r matches Err(PolicyStoreError::Policy(m)) && m@
            == toml_parse_error(current@)),
        toml_parses(current@) && edit is UpsertRule ==> r is Ok,
        edit is UpsertRecognizer ==> (toml_parses(current@) ==> (r is Ok <==> policy_writable(
            parsed_keys(current@),
        ))),
        edit matches PolicyEdit::RemoveRule { identity } ==> (toml_parses(current@) ==> (r is Ok
            <==> global_has_rule(global@, identity@))),
        edit matches PolicyEdit::RemoveRule { identity } ==> (toml_parses(current@)
            && !global_has_rule(global@, identity@) ==> (r matches Err(PolicyStoreError::Policy(m))
            && m@ == "rule not found in global: "@ + identity@)),
        edit matches PolicyEdit::RemoveRecognizer { name } ==> (toml_parses(current@) ==> (r is Ok
            <==> global_has_recognizer(global@, name@))),
        edit matches PolicyEdit::RemoveRecognizer { name } ==> (toml_parses(current@)
            && !global_has_recognizer(global@, name@) ==> (r matches Err(
            PolicyStoreError::Policy(m),
        ) && m@ == "recognizer not found in global: "@ + name@)),
        r matches Ok(s) ==> exists|l: DocLists, d: DocumentMut|
            #![trigger parses_to(current@, l), doc_text(d)]
            parses_to(current@, l) && s@ == doc_text(d) && profile_edited(l, *edit, doc_lists(d))
                && doc_rest(d, profile_edit_keys()) == parsed_rest(current@, profile_edit_keys()),
{
    let mut doc = parse_doc(current)?;
    let ghost l = doc_lists(doc);
    match edit {
        PolicyEdit::UpsertRule(rule) => {
            upsert_rule(&mut doc, rule);
        },
        PolicyEdit::RemoveRule { identity } => {
            if !global_contains_rule(global, identity.as_str()) {
                return Err(
                    PolicyStoreError::Policy(
                        String::from_str("rule not found in global: ").concat(identity.as_str()),
                    ),
                );
            }
            add_remove_string(&mut doc, "remove_rules", identity.as_str());
            let ghost l1 = doc_lists(doc);
            remove_nested_override(&mut doc, "rules", identity.as_str(), MatchBy::Identity);
            assert(removal_recorded(l, "remove_rules"@, identity@, l1));
        },
        PolicyEdit::UpsertRecognizer(rec) => {
            upsert_recognizer(&mut doc, rec)?;
        },
        PolicyEdit::RemoveRecognizer { name } => {
            if !global_contains_recognizer(global, name.as_str()) {
                return Err(
                    PolicyStoreError::Policy(
                        String::from_str("recognizer not found in global: ").concat(name.as_str()),
                    ),
                );
            }
            add_remove_string(&mut doc, "remove_recognizers", name.as_str());
            let ghost l1 = doc_lists(doc);
            remove_nested_override(&mut doc, "recognizers", name.as_str(), MatchBy::Name);
            assert(removal_recorded(l, "remove_recognizers"@, name@, l1));
        },
    }
    assert(profile_edit_keys().contains("rule"@) && profile_edit_keys().contains("policy"@)
        && profile_edit_keys().contains("remove_rules"@) && profile_edit_keys().contains(
        "remove_recognizers"@,
    ) && profile_edit_keys().contains("overrides"@));
    Ok(render_document(&doc))
}

} // verus!
