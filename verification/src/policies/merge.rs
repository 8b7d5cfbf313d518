//! Profile overlay merge over base (global) policy documents.

use toml_edit::{DocumentMut, Value};
use vstd::prelude::*;
use vstd::string::StringExecFns;

use super::editor::rule_identity_spec;
use super::keyed::{
    lemma_pairs_map_at, lemma_sorted_distinct, last_wins, pair_values, pairs_map, sorted_keys,
    KeyedValues,
};
use super::toml_doc::{
    doc_keys, doc_lists, doc_rest, doc_text, document_contains_key, is_table_at,
    document_insert_nested_values, document_insert_string, document_is_table_like,
    document_replace_string, parsed_rest, rest_kept,
    document_insert_table, document_insert_values, document_nested_values, document_remove,
    document_values, entries, entry_of, nested, parse_document, parses_to,
    render_document, root, toml_parse_error, toml_parses, value_as_str, value_field, value_fields,
    value_string, with_array, with_nested_array, with_table, without_entry, DocLists, DocPath,
    TomlEntry, DocKeys, parsed_keys, policy_writable,
};

verus! {

/// Why a merge failed.
#[derive(Debug, PartialEq, Eq)]
pub enum MergeError {
    BaseParse(String),
    OverlayParse(String),
}

/// The entry `k` of `f`, if there is one.
pub open spec fn field(f: Map<Seq<char>, Seq<char>>, k: Seq<char>) -> Option<Seq<char>> {
    if f.contains_key(k) {
        Some(f[k])
    } else {
        None
    }
}

/// The identity of a rule as the merge reads it: none without a string
/// `kind`; a missing class or column counts as empty.
pub open spec fn loose_identity(f: Map<Seq<char>, Seq<char>>) -> Option<Seq<char>> {
    if f.contains_key("kind"@) {
        Some(rule_identity_spec(f["kind"@], field(f, "class"@), field(f, "column"@)))
    } else {
        None
    }
}

/// What an entry of a merged list is keyed by.
#[derive(Debug, Clone, Copy, PartialEq, Eq, Structural)]
pub enum KeyedBy {
    /// Rules, by their identity.
    Identity,
    /// Custom recognizers, by their name.
    Name,
}

pub open spec fn entry_key(v: Value, by: KeyedBy) -> Option<Seq<char>> {
    match by {
        KeyedBy::Identity => loose_identity(value_fields(v)),
        KeyedBy::Name => field(value_fields(v), "name"@),
    }
}

/// The keyed entries of `vals`, in order; entries without a key are left out.
pub open spec fn keyed_pairs(vals: Seq<Value>, by: KeyedBy) -> Seq<(Seq<char>, Value)>
    decreases vals.len(),
{
    if vals.len() == 0 {
        Seq::empty()
    } else {
        let rest = keyed_pairs(vals.drop_last(), by);
        match entry_key(vals.last(), by) {
            Some(k) => rest.push((k, vals.last())),
            None => rest,
        }
    }
}

/// The base entries that stay: those without a key, and those whose key is
/// neither removed nor overridden.
pub open spec fn kept(
    base: Seq<Value>,
    removes: Seq<Seq<char>>,
    over: Map<Seq<char>, Value>,
    by: KeyedBy,
) -> Seq<Value>
    decreases base.len(),
{
    if base.len() == 0 {
        Seq::empty()
    } else {
        let rest = kept(base.drop_last(), removes, over, by);
        let v = base.last();
        match entry_key(v, by) {
            Some(k) => if removes.contains(k) || over.contains_key(k) {
                rest
            } else {
                rest.push(v)
            },
            None => rest.push(v),
        }
    }
}

/// `r` is the merge of `overrides` into `base`: the kept base entries in
/// their order, then one entry per override key (the last one given under
/// that key), ascending by key.
pub open spec fn is_merge(
    base: Seq<Value>,
    overrides: Seq<Value>,
    removes: Seq<Seq<char>>,
    by: KeyedBy,
    r: Seq<Value>,
) -> bool {
    let over = last_wins(keyed_pairs(overrides, by));
    exists|o: Seq<(Seq<char>, Value)>|
        #![trigger pairs_map(o)]
        sorted_keys(o) && pairs_map(o) == over && r == kept(base, removes, over, by) + pair_values(
            o,
        )
}

pub open spec fn strs_view(v: Seq<String>) -> Seq<Seq<char>> {
    Seq::new(v.len(), |i: int| v[i]@)
}

/// The strings among `vals`, in order.
pub open spec fn value_strings(vals: Seq<Value>) -> Seq<Seq<char>>
    decreases vals.len(),
{
    if vals.len() == 0 {
        Seq::empty()
    } else {
        let rest = value_strings(vals.drop_last());
        match value_string(vals.last()) {
            Some(s) => rest.push(s),
            None => rest,
        }
    }
}

/// No entry of `vals` has a key exactly when none is keyed.
proof fn lemma_keyed_pairs_empty(vals: Seq<Value>, by: KeyedBy)
    ensures
        keyed_pairs(vals, by).len() == 0 <==> forall|i: int|
            0 <= i < vals.len() ==> (#[trigger] entry_key(vals[i], by)) is None,
    decreases vals.len(),
{
    if vals.len() > 0 {
        let rest = vals.drop_last();
        lemma_keyed_pairs_empty(rest, by);
        if keyed_pairs(vals, by).len() == 0 {
            assert forall|i: int| 0 <= i < vals.len() implies (#[trigger] entry_key(vals[i], by)) is None by {
                if i < vals.len() - 1 {
                    assert(rest[i] == vals[i]);
                }
            }
        } else {
            if forall|i: int| 0 <= i < vals.len() ==> (#[trigger] entry_key(vals[i], by)) is None {
                assert(entry_key(vals[vals.len() - 1], by) is None);
                assert forall|i: int| 0 <= i < rest.len() implies (#[trigger] entry_key(rest[i], by)) is None by {
                    assert(rest[i] == vals[i]);
                }
            }
        }
    }
}

proof fn lemma_kept_keys(
    base: Seq<Value>,
    removes: Seq<Seq<char>>,
    over: Map<Seq<char>, Value>,
    by: KeyedBy,
)
    ensures
        forall|i: int|
            0 <= i < kept(base, removes, over, by).len() ==> match entry_key(
                #[trigger] kept(base, removes, over, by)[i],
                by,
            ) {
                Some(k) => !removes.contains(k) && !over.contains_key(k),
                None => true,
            },
    decreases base.len(),
{
    if base.len() > 0 {
        lemma_kept_keys(base.drop_last(), removes, over, by);
    }
}

proof fn lemma_last_wins_keys(vals: Seq<Value>, by: KeyedBy)
    ensures
        forall|k: Seq<char>|
            #[trigger] last_wins(keyed_pairs(vals, by)).contains_key(k) ==> entry_key(
                last_wins(keyed_pairs(vals, by))[k],
                by,
            ) == Some(k),
    decreases vals.len(),
{
    if vals.len() > 0 {
        lemma_last_wins_keys(vals.drop_last(), by);
        let rest = keyed_pairs(vals.drop_last(), by);
        match entry_key(vals.last(), by) {
            Some(k) => {
                assert(rest.push((k, vals.last())).drop_last() =~= rest);
            },
            None => {},
        }
    }
}

/// What a merge guarantees of each key: a key that is removed and not
/// overridden is carried by no entry of the result; an overridden key is
/// carried by exactly one entry, the last override given under it.
pub proof fn merge_removes_and_replaces(
    base: Seq<Value>,
    overrides: Seq<Value>,
    removes: Seq<Seq<char>>,
    by: KeyedBy,
    r: Seq<Value>,
)
    requires
        is_merge(base, overrides, removes, by, r),
    ensures
        forall|k: Seq<char>|
            removes.contains(k) && !last_wins(keyed_pairs(overrides, by)).contains_key(k)
                ==> forall|i: int| 0 <= i < r.len() ==> entry_key(#[trigger] r[i], by) != Some(k),
        forall|k: Seq<char>|
            #[trigger] last_wins(keyed_pairs(overrides, by)).contains_key(k) ==> exists|i: int|
                0 <= i < r.len() && r[i] == last_wins(keyed_pairs(overrides, by))[k] && forall|
                    j: int,
                | 0 <= j < r.len() && j != i ==> entry_key(#[trigger] r[j], by) != Some(k),
{
    let over = last_wins(keyed_pairs(overrides, by));
    let o = choose|o: Seq<(Seq<char>, Value)>|
        #![trigger pairs_map(o)]
        sorted_keys(o) && pairs_map(o) == over && r == kept(base, removes, over, by) + pair_values(
            o,
        );
    let kb = kept(base, removes, over, by);
    lemma_kept_keys(base, removes, over, by);
    lemma_last_wins_keys(overrides, by);
    assert forall|i: int| 0 <= i < o.len() implies entry_key(#[trigger] pair_values(o)[i], by)
        == Some(o[i].0) && over.contains_key(o[i].0) by {
        lemma_pairs_map_at(o, i);
    }
    assert forall|k: Seq<char>|
        removes.contains(k) && !over.contains_key(k) implies forall|i: int|
        0 <= i < r.len() ==> entry_key(#[trigger] r[i], by) != Some(k) by {
        assert forall|i: int| 0 <= i < r.len() implies entry_key(#[trigger] r[i], by) != Some(k) by {
            if i < kb.len() {
                assert(r[i] == kb[i]);
            } else {
                assert(r[i] == pair_values(o)[i - kb.len()]);
            }
        }
    }
    assert forall|k: Seq<char>| #[trigger] over.contains_key(k) implies exists|i: int|
        0 <= i < r.len() && r[i] == over[k] && forall|j: int|
            0 <= j < r.len() && j != i ==> entry_key(#[trigger] r[j], by) != Some(k) by {
        assert(pairs_map(o).contains_key(k));
        let w = choose|w: int| 0 <= w < o.len() && #[trigger] o[w].0 == k;
        lemma_pairs_map_at(o, w);
        let i = kb.len() + w;
        assert(r[i] == pair_values(o)[w]);
        assert forall|j: int| 0 <= j < r.len() && j != i implies entry_key(#[trigger] r[j], by)
            != Some(k) by {
            if j < kb.len() {
                assert(r[j] == kb[j]);
            } else {
                assert(r[j] == pair_values(o)[j - kb.len()]);
                lemma_sorted_distinct(o, j - kb.len(), w);
            }
        }
    }
}

/// The strings among `values`.
pub fn strings_of(values: &Vec<Value>) -> (r: Vec<String>)
    ensures
        strs_view(r@) == value_strings(values@),
{
    let mut r: Vec<String> = Vec::new();
    let n = values.len();
    for i in 0..n
        invariant
            n == values@.len(),
            strs_view(r@) == value_strings(values@.take(i as int)),
    {
        assert(values@.take(i + 1).drop_last() =~= values@.take(i as int));
        let ghost before = strs_view(r@);
        if let Some(s) = value_as_str(&values[i]) {
            r.push(s);
            assert(strs_view(r@) =~= before.push(value_string(values@[i as int])->0));
        }
    }
    assert(values@.take(n as int) =~= values@);
    r
}

/// The identity of a rule entry, as the merge reads it.
pub fn rule_identity_of(value: &Value) -> (r: Option<String>)
    ensures
        r matches Some(s) ==> loose_identity(value_fields(*value)) == Some(s@),
        r is None ==> loose_identity(value_fields(*value)) is None,
{
    let kind = match value_field(value, "kind") {
        Some(k) => k,
        None => return None,
    };
    let class = value_field(value, "class");
    let column = value_field(value, "column");
    let class_ref: Option<&str> = match &class {
        Some(c) => Some(c.as_str()),
        None => None,
    };
    let column_ref: Option<&str> = match &column {
        Some(c) => Some(c.as_str()),
        None => None,
    };
    Some(super::editor::rule_identity(kind.as_str(), class_ref, column_ref))
}

fn entry_key_of(value: &Value, by: KeyedBy) -> (r: Option<String>)
    ensures
        r matches Some(s) ==> entry_key(*value, by) == Some(s@),
        r is None ==> entry_key(*value, by) is None,
{
    match by {
        KeyedBy::Identity => rule_identity_of(value),
        KeyedBy::Name => value_field(value, "name"),
    }
}

fn contains_string(list: &Vec<String>, s: &String) -> (r: bool)
    ensures
        r == strs_view(list@).contains(s@),
{
    let n = list.len();
    for i in 0..n
        invariant
            n == list@.len(),
            forall|j: int| 0 <= j < i ==> list@[j]@ != s@,
    {
        if list[i] == *s {
            assert(strs_view(list@)[i as int] == s@);
            return true;
        }
    }
    assert(!strs_view(list@).contains(s@)) by {
        if strs_view(list@).contains(s@) {
            let j = choose|j: int| 0 <= j < strs_view(list@).len() && strs_view(list@)[j] == s@;
            assert(list@[j]@ == s@);
        }
    }
    false
}

/// Merges override entries into base entries: a base entry is dropped when
/// its key is removed or overridden; the overrides follow, one per key.
pub fn merge_values(base: Vec<Value>, overrides: Vec<Value>, removes: &Vec<String>, by: KeyedBy) -> (r: (
    Vec<Value>,
    bool,
))
    ensures
        is_merge(base@, overrides@, strs_view(removes@), by, r.0@),
        r.1 == (keyed_pairs(overrides@, by).len() > 0),
{
    let mut over = KeyedValues::new();
    let mut any = false;
    let n = overrides.len();
    for i in 0..n
        invariant
            n == overrides@.len(),
            over.wf(),
            pairs_map(over.pairs()) == last_wins(keyed_pairs(overrides@.take(i as int), by)),
            any == (keyed_pairs(overrides@.take(i as int), by).len() > 0),
    {
        assert(overrides@.take(i + 1).drop_last() =~= overrides@.take(i as int));
        assert(overrides@.take(i + 1).last() == overrides@[i as int]);
        let ghost kp0 = keyed_pairs(overrides@.take(i as int), by);
        if let Some(k) = entry_key_of(&overrides[i], by) {
            let ghost kv = k@;
            let v = overrides[i].clone();
            assert(keyed_pairs(overrides@.take(i + 1), by) == kp0.push((kv, v)));
            assert(kp0.push((kv, v)).drop_last() =~= kp0);
            over.insert(k, v);
            any = true;
        }
    }
    assert(overrides@.take(n as int) =~= overrides@);
    let ghost om = pairs_map(over.pairs());
    let mut r: Vec<Value> = Vec::new();
    let m = base.len();
    for i in 0..m
        invariant
            m == base@.len(),
            over.wf(),
            om == pairs_map(over.pairs()),
            r@ == kept(base@.take(i as int), strs_view(removes@), om, by),
    {
        assert(base@.take(i + 1).drop_last() =~= base@.take(i as int));
        assert(base@.take(i + 1).last() == base@[i as int]);
        match entry_key_of(&base[i], by) {
            Some(k) => {
                if !contains_string(removes, &k) && !over.contains_key(&k) {
                    r.push(base[i].clone());
                }
            },
            None => {
                r.push(base[i].clone());
            },
        }
    }
    assert(base@.take(m as int) =~= base@);
    let ghost o = over.pairs();
    let tail = over.into_values();
    let ghost before = r@;
    let mut out = r;
    let mut tail = tail;
    out.append(&mut tail);
    assert(out@ == before + pair_values(o));
    assert(sorted_keys(o) && pairs_map(o) == last_wins(keyed_pairs(overrides@, by)));
    (out, any)
}

/// The rule list after applying the overlay: base rules that are neither
/// removed nor overridden, then the overriding rules ascending by identity.
pub fn merge_rule_values(base: Vec<Value>, overrides: Vec<Value>, removes: &Vec<String>) -> (r:
    Vec<Value>)
    ensures
        is_merge(base@, overrides@, strs_view(removes@), KeyedBy::Identity, r@),
{
    merge_values(base, overrides, removes, KeyedBy::Identity).0
}

/// The custom-recognizer list after applying the overlay, by name; `None`
/// when there is nothing to write: no base recognizer, no removal and no
/// named override.
pub fn merge_recognizer_values(base: Vec<Value>, overrides: Vec<Value>, removes: &Vec<String>) -> (r:
    Option<Vec<Value>>)
    ensures
        r is None <==> (base@.len() == 0 && removes@.len() == 0 && keyed_pairs(
            overrides@,
            KeyedBy::Name,
        ).len() == 0),
        r matches Some(v) ==> is_merge(base@, overrides@, strs_view(removes@), KeyedBy::Name, v@),
{
    let base_empty = base.len() == 0;
    let (merged, any) = merge_values(base, overrides, removes, KeyedBy::Name);
    if base_empty && removes.len() == 0 && !any {
        None
    } else {
        Some(merged)
    }
}

fn concat_values(a: Vec<Value>, b: Vec<Value>) -> (r: Vec<Value>)
    ensures
        r@ == a@ + b@,
{
    let mut a = a;
    let mut b = b;
    a.append(&mut b);
    a
}

fn concat_strings(a: Vec<String>, b: Vec<String>) -> (r: Vec<String>)
    ensures
        strs_view(r@) == strs_view(a@) + strs_view(b@),
{
    let mut a = a;
    let mut b = b;
    let ghost (av, bv) = (a@, b@);
    a.append(&mut b);
    assert(strs_view(a@) =~= strs_view(av) + strs_view(bv));
    a
}

/// The strings among `es`, in order.
pub open spec fn entry_strings(es: Seq<TomlEntry>) -> Seq<Seq<char>>
    decreases es.len(),
{
    if es.len() == 0 {
        Seq::empty()
    } else {
        let rest = entry_strings(es.drop_last());
        match es.last().1 {
            Some(s) => rest.push(s),
            None => rest,
        }
    }
}

proof fn lemma_entry_strings(vs: Seq<Value>)
    ensures
        value_strings(vs) == entry_strings(entries(vs)),
    decreases vs.len(),
{
    if vs.len() > 0 {
        lemma_entry_strings(vs.drop_last());
        assert(entries(vs).drop_last() =~= entries(vs.drop_last()));
    }
}

/// The strings an overlay lists under `key`: at its root, then under
/// `[overrides]`.
pub open spec fn overlay_list(lo: DocLists, key: Seq<char>) -> Seq<Seq<char>> {
    entry_strings(lo[root(key)]) + entry_strings(lo[nested("overrides"@, key)])
}

/// The strings listed under `key`, at the root and under `[overrides]`.
fn overlay_strings(overlay: &DocumentMut, key: &str) -> (r: Vec<String>)
    ensures
        strs_view(r@) == overlay_list(doc_lists(*overlay), key@),
{
    let top_values = document_values(overlay, key);
    let nested_values = document_nested_values(overlay, "overrides", key);
    proof {
        lemma_entry_strings(top_values@);
        lemma_entry_strings(nested_values@);
    }
    let top = strings_of(&top_values);
    let nested = strings_of(&nested_values);
    concat_strings(top, nested)
}

/// `lf` holds the rules of `lb` merged with the rule overrides of `lo`
/// (those under `[overrides]`, then the overlay's own `[[rule]]` entries),
/// the rules keyed by `removes` dropped; every other path is as in `lb`.
pub open spec fn rules_merged(lb: DocLists, lo: DocLists, removes: Seq<Seq<char>>, lf: DocLists) -> bool {
    exists|bv: Seq<Value>, ov: Seq<Value>, r: Seq<Value>|
        #![trigger entries(bv), entries(ov), entries(r)]
        {
            &&& entries(bv) == lb[root("rule"@)]
            &&& entries(ov) == lo[nested("overrides"@, "rules"@)] + lo[root("rule"@)]
            &&& is_merge(bv, ov, removes, KeyedBy::Identity, r)
            &&& forall|p: DocPath| #[trigger] lf[p] == with_array(lb, "rule"@, entries(r), p)
        }
}

/// `lf` holds the custom recognizers of `lb` merged by name with those of
/// `lo` (under `[overrides]`, then under `[policy]`), the ones named by
/// `removes` dropped, whenever there is something to merge and the base's
/// `[policy]` can take them (`writable`); otherwise `lf` is `lb`. Only the
/// `[policy]` table itself may change besides.
pub open spec fn recognizers_merged(
    lb: DocLists,
    lo: DocLists,
    removes: Seq<Seq<char>>,
    writable: bool,
    lf: DocLists,
) -> bool {
    let at = nested("policy"@, "custom_recognizers"@);
    &&& forall|p: DocPath| p != root("policy"@) && p != at ==> #[trigger] lf[p] == lb[p]
    &&& recognizer_merge_due(lb, lo, removes) && writable ==> recognizer_list_merged(lb, lo, removes, lf)
    &&& !(recognizer_merge_due(lb, lo, removes) && writable) ==> lf == lb
}

/// `lf` holds, as the custom recognizers, the merge of the base's
/// recognizers with the overlay's named overrides and its removals.
pub open spec fn recognizer_list_merged(
    lb: DocLists,
    lo: DocLists,
    removes: Seq<Seq<char>>,
    lf: DocLists,
) -> bool {
    let at = nested("policy"@, "custom_recognizers"@);
    exists|bv: Seq<Value>, ov: Seq<Value>, r: Seq<Value>|
        #![trigger entries(bv), entries(ov), entries(r)]
        {
            &&& entries(bv) == lb[at]
            &&& entries(ov) == lo[nested("overrides"@, "recognizers"@)] + lo[at]
            &&& is_merge(bv, ov, removes, KeyedBy::Name, r)
            &&& lf[at] == entries(r)
        }
}

/// The overlay's recognizer overrides: `[overrides] recognizers`, then its
/// own custom recognizers.
pub open spec fn recognizer_overrides(lo: DocLists) -> Seq<TomlEntry> {
    lo[nested("overrides"@, "recognizers"@)] + lo[nested("policy"@, "custom_recognizers"@)]
}

/// Merging recognizers has something to do: the base holds custom
/// recognizers, recognizers are removed, or an override has a name.
pub open spec fn recognizer_merge_due(lb: DocLists, lo: DocLists, removes: Seq<Seq<char>>) -> bool {
    ||| lb[nested("policy"@, "custom_recognizers"@)].len() > 0
    ||| removes.len() > 0
    ||| exists|i: int|
        0 <= i < recognizer_overrides(lo).len() && (#[trigger] recognizer_overrides(lo)[i]).0.contains_key(
            "name"@,
        )
}

/// `lf` is `l` without the overlay's own keys, and with `schema_version`
/// set to a string (which holds no list).
pub open spec fn overlay_keys_stripped(l: DocLists, lf: DocLists) -> bool {
    forall|p: DocPath|
        #[trigger] lf[p] == if p == root("remove_rules"@) || p.0 == Some("remove_rules"@) || p
            == root("remove_recognizers"@) || p.0 == Some("remove_recognizers"@) || p == root(
            "overrides"@,
        ) || p.0 == Some("overrides"@) || p == root("schema_version"@) || p.0 == Some(
            "schema_version"@,
        ) {
            Seq::<TomlEntry>::empty()
        } else {
            l[p]
        }
}

/// What merging overlay lists `lo` into base lists `lb` gives: the rules
/// merged, then the custom recognizers merged, then the overlay keys
/// stripped.
pub open spec fn merged_lists(lb: DocLists, lo: DocLists, keys: DocKeys, lf: DocLists) -> bool {
    exists|l1: DocLists, l2: DocLists|
        #![trigger rules_merged(lb, lo, overlay_list(lo, "remove_rules"@), l1), recognizers_merged(l1, lo, overlay_list(lo, "remove_recognizers"@), policy_writable(keys), l2)]
        {
            &&& rules_merged(lb, lo, overlay_list(lo, "remove_rules"@), l1)
            &&& recognizers_merged(l1, lo, overlay_list(lo, "remove_recognizers"@), policy_writable(keys), l2)
            &&& overlay_keys_stripped(l2, lf)
        }
}

/// The root keys a merge writes or strips; everything else of the base
/// document is left as it was.
pub open spec fn merge_keys() -> Set<Seq<char>> {
    set!["rule"@, "policy"@, "remove_rules"@, "remove_recognizers"@, "overrides"@, "schema_version"@]
}

/// `out` is the text of a merge of overlay `overlay` into base `base`: both
/// parse, and `out` renders a document that holds their merged lists, keeps
/// the rest of the base (comments and unrelated entries) as it was, and
/// has `schema_version = "0.1.0"`.
pub open spec fn is_merge_of(base: Seq<char>, overlay: Seq<char>, out: Seq<char>) -> bool {
    exists|lb: DocLists, lo: DocLists, d: DocumentMut|
        #![trigger parses_to(base, lb), parses_to(overlay, lo), doc_text(d)]
        {
            &&& parses_to(base, lb)
            &&& parses_to(overlay, lo)
            &&& out == doc_text(d)
            &&& merged_lists(lb, lo, parsed_keys(base), doc_lists(d))
            &&& doc_rest(d, merge_keys()) == parsed_rest(base, merge_keys())
            &&& doc_keys(d).contains_key("schema_version"@)
            &&& doc_keys(d)["schema_version"@] == (None::<Set<Seq<char>>>, Some("0.1.0"@))
        }
}

fn apply_rule_overrides(base: &mut DocumentMut, overlay: &DocumentMut, removes: &Vec<String>)
    ensures
        rules_merged(doc_lists(*old(base)), doc_lists(*overlay), strs_view(removes@), doc_lists(*final(base))),
        doc_keys(*final(base)) == doc_keys(*old(base)).insert("rule"@, (None::<Set<Seq<char>>>, None::<Seq<char>>)),
        rest_kept(*old(base), *final(base), "rule"@),
{
    let base_rules = document_values(base, "rule");
    let overrides = concat_values(
        document_nested_values(overlay, "overrides", "rules"),
        document_values(overlay, "rule"),
    );
    let ghost bv = base_rules@;
    let ghost ov = overrides@;
    assert(entries(ov) =~= doc_lists(*overlay)[nested("overrides"@, "rules"@)] + doc_lists(*overlay)[root("rule"@)]);
    let merged = merge_rule_values(base_rules, overrides, removes);
    let ghost r = merged@;
    let ghost lb = doc_lists(*base);
    document_insert_values(base, "rule", merged);
    assert(entries(bv) == lb[root("rule"@)]);
    assert(entries(r).len() == r.len());
}

fn apply_recognizer_overrides(base: &mut DocumentMut, overlay: &DocumentMut, removes: &Vec<String>)
    ensures
        recognizers_merged(
            doc_lists(*old(base)),
            doc_lists(*overlay),
            strs_view(removes@),
            policy_writable(doc_keys(*old(base))),
            doc_lists(*final(base)),
        ),
        recognizer_merge_due(doc_lists(*old(base)), doc_lists(*overlay), strs_view(removes@)) && (
        !doc_keys(*old(base)).contains_key("policy"@) || is_table_at(doc_keys(*old(base)), "policy"@))
            ==> recognizer_list_merged(
            doc_lists(*old(base)),
            doc_lists(*overlay),
            strs_view(removes@),
            doc_lists(*final(base)),
        ),
        rest_kept(*old(base), *final(base), "policy"@),
        !(recognizer_merge_due(doc_lists(*old(base)), doc_lists(*overlay), strs_view(removes@)) && (
        !doc_keys(*old(base)).contains_key("policy"@) || is_table_at(doc_keys(*old(base)), "policy"@)))
            ==> doc_lists(*final(base)) == doc_lists(*old(base)),
{
    let ghost lb = doc_lists(*base);
    let ghost lo = doc_lists(*overlay);
    let ghost at = nested("policy"@, "custom_recognizers"@);
    let base_values = document_nested_values(base, "policy", "custom_recognizers");
    let overrides = concat_values(
        document_nested_values(overlay, "overrides", "recognizers"),
        document_nested_values(overlay, "policy", "custom_recognizers"),
    );
    let ghost bv = base_values@;
    let ghost ov = overrides@;
    assert(entries(ov) =~= lo[nested("overrides"@, "recognizers"@)] + lo[at]);
    proof {
        lemma_keyed_pairs_empty(ov, KeyedBy::Name);
        assert(recognizer_overrides(lo) == entries(ov));
        if recognizer_merge_due(lb, lo, strs_view(removes@)) {
            if bv.len() == 0 && removes@.len() == 0 {
                let i = choose|i: int|
                    0 <= i < recognizer_overrides(lo).len() && (#[trigger] recognizer_overrides(lo)[i]).0.contains_key(
                        "name"@,
                    );
                assert(entries(ov)[i].0 == value_fields(ov[i]));
                assert(entry_key(ov[i], KeyedBy::Name) is Some);
            }
        } else {
            assert forall|i: int| 0 <= i < ov.len() implies entry_key(ov[i], KeyedBy::Name) is None by {
                assert(entries(ov)[i] == recognizer_overrides(lo)[i]);
            }
        }
    }
    if let Some(merged) = merge_recognizer_values(base_values, overrides, removes) {
        let ghost r = merged@;
        let present = document_contains_key(base, "policy");
        if !present {
            document_insert_table(base, "policy");
        }
        let ghost lt = doc_lists(*base);
        assert(forall|p: DocPath| p != root("policy"@) ==> #[trigger] lt[p] == lb[p]);
        if document_is_table_like(base, "policy") {
            document_insert_nested_values(base, "policy", "custom_recognizers", merged);
            assert(doc_lists(*base)[at] == entries(r));
        }
    }
}

fn strip_overlay_keys(doc: &mut DocumentMut)
    ensures
        overlay_keys_stripped(doc_lists(*old(doc)), doc_lists(*final(doc))),
        forall|ks: Set<Seq<char>>|
            ks.contains("remove_rules"@) && ks.contains("remove_recognizers"@) && ks.contains(
                "overrides"@,
            ) && ks.contains("schema_version"@) ==> #[trigger] doc_rest(*final(doc), ks) == doc_rest(
                *old(doc),
                ks,
            ),
        doc_keys(*final(doc)).contains_key("schema_version"@),
        doc_keys(*final(doc))["schema_version"@] == (None::<Set<Seq<char>>>, Some("0.1.0"@)),
{
    document_remove(doc, "remove_rules");
    document_remove(doc, "remove_recognizers");
    document_remove(doc, "overrides");
    if !document_replace_string(doc, "schema_version", "0.1.0") {
        document_insert_string(doc, "schema_version", "0.1.0");
    }
}

/// Applies a profile overlay to a base policy document and gives the
/// merged document's text; fails when either document does not parse, the
/// base first.
pub fn merge_policy_documents(base: &str, overlay: &str) -> (r: Result<String, MergeError>)
    ensures
        !toml_parses(base@) ==> (r matches Err(MergeError::BaseParse(m)) && m@ == toml_parse_error(
            base@,
        )),
        toml_parses(base@) && !toml_parses(overlay@) ==> (r matches Err(
            MergeError::OverlayParse(m),
        ) && m@ == toml_parse_error(overlay@)),
        toml_parses(base@) && toml_parses(overlay@) ==> r is Ok,
        r matches Ok(s) ==> is_merge_of(base@, overlay@, s@),
{
    let mut base_doc = match parse_document(base) {
        Ok(doc) => doc,
        Err(m) => return Err(MergeError::BaseParse(m)),
    };
    let overlay_doc = match parse_document(overlay) {
        Ok(doc) => doc,
        Err(m) => return Err(MergeError::OverlayParse(m)),
    };
    let ghost lb = doc_lists(base_doc);
    let ghost lo = doc_lists(overlay_doc);
    let ghost kb = doc_keys(base_doc);
    let remove_rules = overlay_strings(&overlay_doc, "remove_rules");
    let remove_recognizers = overlay_strings(&overlay_doc, "remove_recognizers");
    apply_rule_overrides(&mut base_doc, &overlay_doc, &remove_rules);
    let ghost l1 = doc_lists(base_doc);
    let ghost k1 = doc_keys(base_doc);
    apply_recognizer_overrides(&mut base_doc, &overlay_doc, &remove_recognizers);
    let ghost l2 = doc_lists(base_doc);
    strip_overlay_keys(&mut base_doc);
    let text = render_document(&base_doc);
    assert(rules_merged(lb, lo, overlay_list(lo, "remove_rules"@), l1));
    assert(policy_writable(k1) == policy_writable(kb)) by {
        reveal_strlit("rule");
        reveal_strlit("policy");
        assert("rule"@.len() != "policy"@.len());
    }
    assert(recognizers_merged(l1, lo, overlay_list(lo, "remove_recognizers"@), policy_writable(kb), l2));
    assert(merged_lists(lb, lo, kb, doc_lists(base_doc)));
    assert(parses_to(base@, lb) && parses_to(overlay@, lo) && text@ == doc_text(base_doc));
    assert(merge_keys().contains("rule"@) && merge_keys().contains("policy"@));
    assert(merge_keys().contains("remove_rules"@) && merge_keys().contains("remove_recognizers"@)
        && merge_keys().contains("overrides"@) && merge_keys().contains("schema_version"@));
    Ok(text)
}

/// A keyed value's key is a key of the map its list builds.
proof fn lemma_keyed_in_last_wins(vals: Seq<Value>, by: KeyedBy, idx: int, k: Seq<char>)
    requires
        0 <= idx < vals.len(),
        entry_key(vals[idx], by) == Some(k),
    ensures
        last_wins(keyed_pairs(vals, by)).contains_key(k),
    decreases vals.len(),
{
    let rest = keyed_pairs(vals.drop_last(), by);
    if idx < vals.len() - 1 {
        assert(vals.drop_last()[idx] == vals[idx]);
        lemma_keyed_in_last_wins(vals.drop_last(), by, idx, k);
    }
    match entry_key(vals.last(), by) {
        Some(k2) => {
            assert(rest.push((k2, vals.last())).drop_last() =~= rest);
        },
        None => {},
    }
}

/// A recognizer that a profile overlay defines reaches the effective
/// policy: when the overlay holds, under `[policy] custom_recognizers`, a
/// recognizer named `k`, and the base's `[policy]` is absent or a table,
/// the merged document holds exactly one custom recognizer named `k`.
pub proof fn overlay_recognizer_reaches_merge(
    base: Seq<char>,
    overlay: Seq<char>,
    out: Seq<char>,
    lo: DocLists,
    i: int,
)
    requires
        is_merge_of(base, overlay, out),
        parses_to(overlay, lo),
        policy_writable(parsed_keys(base)),
        0 <= i < lo[nested("policy"@, "custom_recognizers"@)].len(),
        lo[nested("policy"@, "custom_recognizers"@)][i].0.contains_key("name"@),
    ensures
        exists|d: DocumentMut, j: int|
            #![trigger doc_lists(d)[nested("policy"@, "custom_recognizers"@)][j]]
            {
                let at = nested("policy"@, "custom_recognizers"@);
                let k = lo[at][i].0["name"@];
                &&& out == doc_text(d)
                &&& 0 <= j < doc_lists(d)[at].len()
                &&& doc_lists(d)[at][j].0.contains_key("name"@)
                &&& doc_lists(d)[at][j].0["name"@] == k
                &&& forall|m: int|
                    0 <= m < doc_lists(d)[at].len() && m != j ==> !(
                    #[trigger] doc_lists(d)[at][m].0.contains_key("name"@) && doc_lists(d)[at][m].0["name"@]
                        == k)
            },
{
    let at = nested("policy"@, "custom_recognizers"@);
    let k = lo[at][i].0["name"@];
    let (lb, lo2, d) = choose|lb: DocLists, lo2: DocLists, d: DocumentMut|
        {
            &&& parses_to(base, lb)
            &&& parses_to(overlay, lo2)
            &&& out == doc_text(d)
            &&& merged_lists(lb, lo2, parsed_keys(base), doc_lists(d))
            &&& doc_rest(d, merge_keys()) == parsed_rest(base, merge_keys())
            &&& doc_keys(d).contains_key("schema_version"@)
            &&& doc_keys(d)["schema_version"@] == (None::<Set<Seq<char>>>, Some("0.1.0"@))
        };
    assert(lo2 == lo);
    let rrec = overlay_list(lo, "remove_recognizers"@);
    let (l1, l2) = choose|l1: DocLists, l2: DocLists|
        {
            &&& rules_merged(lb, lo, overlay_list(lo, "remove_rules"@), l1)
            &&& recognizers_merged(l1, lo, rrec, policy_writable(parsed_keys(base)), l2)
            &&& overlay_keys_stripped(l2, doc_lists(d))
        };
    let n_ovr = lo[nested("overrides"@, "recognizers"@)].len();
    assert(recognizer_overrides(lo)[n_ovr + i] == lo[at][i]);
    assert(recognizer_merge_due(l1, lo, rrec));
    let (bv, ov, r) = choose|bv: Seq<Value>, ov: Seq<Value>, r: Seq<Value>|
        {
            &&& entries(bv) == l1[at]
            &&& entries(ov) == lo[nested("overrides"@, "recognizers"@)] + lo[at]
            &&& is_merge(bv, ov, rrec, KeyedBy::Name, r)
            &&& l2[at] == entries(r)
        };
    let idx = n_ovr + i;
    assert(entries(ov).len() == ov.len());
    assert(idx < ov.len());
    assert(entries(ov)[idx] == entry_of(ov[idx]));
    assert(entries(ov)[idx] == lo[at][i]);
    assert(entry_key(ov[idx], KeyedBy::Name) == Some(k));
    lemma_keyed_in_last_wins(ov, KeyedBy::Name, idx, k);
    merge_removes_and_replaces(bv, ov, rrec, KeyedBy::Name, r);
    lemma_last_wins_keys(ov, KeyedBy::Name);
    let over = last_wins(keyed_pairs(ov, KeyedBy::Name));
    let j = choose|j: int|
        0 <= j < r.len() && r[j] == over[k] && forall|m: int|
            0 <= m < r.len() && m != j ==> entry_key(#[trigger] r[m], KeyedBy::Name) != Some(k);
    assert(doc_lists(d)[at] == l2[at]) by {
        reveal_strlit("policy");
        reveal_strlit("remove_rules");
        reveal_strlit("remove_recognizers");
        reveal_strlit("overrides");
        reveal_strlit("schema_version");
        assert("policy"@ != "remove_rules"@ && "policy"@ != "remove_recognizers"@ && "policy"@
            != "overrides"@ && "policy"@ != "schema_version"@) by {
            assert("policy"@.len() == 6);
        }
    }
    assert(entries(r)[j] == entry_of(r[j]));
    assert forall|m: int|
        0 <= m < doc_lists(d)[at].len() && m != j implies !(
        #[trigger] doc_lists(d)[at][m].0.contains_key("name"@) && doc_lists(d)[at][m].0["name"@]
            == k) by {
        assert(entries(r)[m] == entry_of(r[m]));
    }
}

} // verus!
