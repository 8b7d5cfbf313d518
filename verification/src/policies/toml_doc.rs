//! The calls into `toml_edit` that the policy code makes.
//!
//! Verus sees nothing inside a `toml_edit` value, so each is read through
//! names. A single value: the string it is, if it is a string, and the
//! string-valued entries it holds, if it is an inline table. A document: at
//! each path (a root key, or a key inside a root table) the values that the
//! policy code reads there, each as its entries and its string; its root
//! keys, with the keys of its tables and its root strings; and, for any set
//! of root keys, the rest of the document outside them, which the calls
//! that change one entry leave as it was. The text a document renders to
//! is a name of its own.

use toml_edit::{Array, DocumentMut, InlineTable, Item, Table, Value};
use vstd::prelude::*;

verus! {

#[verifier::external_type_specification]
#[verifier::external_body]
pub struct ExDocumentMut(DocumentMut);

#[verifier::external_type_specification]
#[verifier::external_body]
pub struct ExValue(Value);

#[verifier::external_type_specification]
#[verifier::external_body]
pub struct ExInlineTable(InlineTable);

#[verifier::external_type_specification]
#[verifier::external_body]
pub struct ExTable(Table);

/// What an inline-table value holds, as far as the policy code reads it:
/// its entries whose values are strings. Any other value holds none.
pub uninterp spec fn value_fields(v: Value) -> Map<Seq<char>, Seq<char>>;

/// The string that `v` is, if `v` is a string value (`Value::as_str`).
pub uninterp spec fn value_string(v: Value) -> Option<Seq<char>>;

/// The entries of an inline table whose values are strings.
pub uninterp spec fn table_fields(t: InlineTable) -> Map<Seq<char>, Seq<char>>;

/// What a document holds: for every path, the values found there (see
/// `document_values` and `document_nested_values`), each as its string
/// entries and its string; a path where nothing is found holds none. A path
/// is a root key (`None` for the table), or a key inside the root entry
/// named by the table.
pub uninterp spec fn doc_lists(d: DocumentMut) -> Map<
    (Option<Seq<char>>, Seq<char>),
    Seq<(Map<Seq<char>, Seq<char>>, Option<Seq<char>>, Map<Seq<char>, (Option<bool>, Option<Seq<Seq<char>>>, Option<i64>)>, (Option<bool>, Option<Seq<Seq<char>>>, Option<i64>))>,
>;

/// The document's root keys (those `Table::contains_key` finds), each with
/// the keys its entry holds (those `TableLike::get` finds) where the entry
/// is table-like (a table or an inline table, `Item::as_table_like`), and
/// the string it is where the entry is a string value (`Item::as_str`).
pub uninterp spec fn doc_keys(d: DocumentMut) -> Map<
    Seq<char>,
    (Option<Set<Seq<char>>>, Option<Seq<char>>),
>;

/// The text the document would render to (`DocumentMut`'s `Display`) once
/// its root entries at the keys of `ks` were removed (`Table::remove`):
/// everything of the document outside those entries, comments included.
pub uninterp spec fn doc_rest(d: DocumentMut, ks: Set<Seq<char>>) -> Seq<char>;

/// The text a document renders to (`DocumentMut`'s `Display`).
pub uninterp spec fn doc_text(d: DocumentMut) -> Seq<char>;

/// What parsing `raw` gives: the lists, the keys and the rests (see
/// `doc_lists`, `doc_keys`, `doc_rest`) of the parsed document, or the
/// message of the parse error. It depends on the text alone.
pub uninterp spec fn toml_parse(raw: Seq<char>) -> Result<
    (
        Map<(Option<Seq<char>>, Seq<char>), Seq<(Map<Seq<char>, Seq<char>>, Option<Seq<char>>, Map<Seq<char>, (Option<bool>, Option<Seq<Seq<char>>>, Option<i64>)>, (Option<bool>, Option<Seq<Seq<char>>>, Option<i64>))>>,
        Map<Seq<char>, (Option<Set<Seq<char>>>, Option<Seq<char>>)>,
        Map<Set<Seq<char>>, Seq<char>>,
    ),
    Seq<char>,
>;

/// The boolean a value is, the strings of a value that is an array of
/// strings, and the integer a value is (`Value::as_bool`,
/// `Value::as_array`, `Value::as_integer`).
pub uninterp spec fn value_leaf(v: Value) -> (Option<bool>, Option<Seq<Seq<char>>>, Option<i64>);

/// What `value_leaf` gives for each entry of an inline table.
pub uninterp spec fn table_leaves(t: InlineTable) -> Map<Seq<char>, (Option<bool>, Option<Seq<Seq<char>>>, Option<i64>)>;

/// What `value_leaf` gives for each entry of an inline-table value; empty
/// for any other value.
pub uninterp spec fn value_leaves(v: Value) -> Map<Seq<char>, (Option<bool>, Option<Seq<Seq<char>>>, Option<i64>)>;

/// Whether `toml_edit` parses `raw` as a document.
pub open spec fn toml_parses(raw: Seq<char>) -> bool {
    toml_parse(raw) is Ok
}

/// The keys of the document `raw` parses to.
pub open spec fn parsed_keys(raw: Seq<char>) -> DocKeys {
    match toml_parse(raw) {
        Ok(p) => p.1,
        Err(_) => Map::empty(),
    }
}

/// The rest, outside the keys of `ks`, of the document `raw` parses to.
pub open spec fn parsed_rest(raw: Seq<char>, ks: Set<Seq<char>>) -> Seq<char> {
    match toml_parse(raw) {
        Ok(p) => p.2[ks],
        Err(_) => Seq::empty(),
    }
}

/// The message of the error `toml_edit` reports for `raw`, when it does not parse.
pub open spec fn toml_parse_error(raw: Seq<char>) -> Seq<char> {
    match toml_parse(raw) {
        Ok(_) => Seq::empty(),
        Err(m) => m,
    }
}

/// The root keys of a document, with the keys of its table-like entries
/// and the strings of its string entries.
pub type DocKeys = Map<Seq<char>, (Option<Set<Seq<char>>>, Option<Seq<char>>)>;

/// The root entry `table` is table-like.
pub open spec fn is_table_at(keys: DocKeys, table: Seq<char>) -> bool {
    keys.contains_key(table) && keys[table].0 is Some
}

/// The root entry `table` is table-like and holds `key`.
pub open spec fn has_nested_key(keys: DocKeys, table: Seq<char>, key: Seq<char>) -> bool {
    is_table_at(keys, table) && keys[table].0->0.contains(key)
}

/// Custom recognizers can be written: `policy` is absent or table-like.
pub open spec fn policy_writable(keys: DocKeys) -> bool {
    !keys.contains_key("policy"@) || is_table_at(keys, "policy"@)
}

/// Every rest that leaves out `key` is the same in `a` and `b`.
pub open spec fn rest_kept(a: DocumentMut, b: DocumentMut, key: Seq<char>) -> bool {
    forall|ks: Set<Seq<char>>| ks.contains(key) ==> #[trigger] doc_rest(b, ks) == doc_rest(a, ks)
}

/// The non-string content of a value: the boolean it is, the strings of an
/// array of strings, the integer it is.
pub type Leaf = (Option<bool>, Option<Seq<Seq<char>>>, Option<i64>);

/// The leaf of a value that is none of these (a string, a table, ...).
pub open spec fn no_leaf() -> Leaf {
    (None, None, None)
}

/// A value as the policy code reads it: its string entries, its string,
/// the leaves of its entries, and its own leaf.
pub type TomlEntry = (Map<Seq<char>, Seq<char>>, Option<Seq<char>>, Map<Seq<char>, (Option<bool>, Option<Seq<Seq<char>>>, Option<i64>)>, (Option<bool>, Option<Seq<Seq<char>>>, Option<i64>));

/// A path of a document: a root key, or a key inside a root entry.
pub type DocPath = (Option<Seq<char>>, Seq<char>);

/// What a document holds at each path.
pub type DocLists = Map<DocPath, Seq<TomlEntry>>;

/// `raw` parses, to a document holding `l`.
pub open spec fn parses_to(
    raw: Seq<char>,
    l: Map<(Option<Seq<char>>, Seq<char>), Seq<(Map<Seq<char>, Seq<char>>, Option<Seq<char>>, Map<Seq<char>, (Option<bool>, Option<Seq<Seq<char>>>, Option<i64>)>, (Option<bool>, Option<Seq<Seq<char>>>, Option<i64>))>>,
) -> bool {
    match toml_parse(raw) {
        Ok(m) => m.0 == l,
        Err(_) => false,
    }
}

/// `raw` does not parse, and the error's message is `m`.
pub open spec fn fails_with(raw: Seq<char>, m: Seq<char>) -> bool {
    match toml_parse(raw) {
        Ok(_) => false,
        Err(e) => e == m,
    }
}

/// A value as the policy code reads it.
pub open spec fn entry_of(v: Value) -> (Map<Seq<char>, Seq<char>>, Option<Seq<char>>, Map<Seq<char>, (Option<bool>, Option<Seq<Seq<char>>>, Option<i64>)>, (Option<bool>, Option<Seq<Seq<char>>>, Option<i64>)) {
    (value_fields(v), value_string(v), value_leaves(v), value_leaf(v))
}

pub open spec fn entries(vs: Seq<Value>) -> Seq<(Map<Seq<char>, Seq<char>>, Option<Seq<char>>, Map<Seq<char>, (Option<bool>, Option<Seq<Seq<char>>>, Option<i64>)>, (Option<bool>, Option<Seq<Seq<char>>>, Option<i64>))> {
    Seq::new(vs.len(), |i: int| entry_of(vs[i]))
}

/// The path of a root key.
pub open spec fn root(key: Seq<char>) -> (Option<Seq<char>>, Seq<char>) {
    (None, key)
}

/// The path of `key` inside the root entry `table`.
pub open spec fn nested(table: Seq<char>, key: Seq<char>) -> (Option<Seq<char>>, Seq<char>) {
    (Some(table), key)
}

/// At path `p`, once the root entry `key` holds an array of `es`: the
/// array's values there, nothing under it, and elsewhere what was there.
pub open spec fn with_array(
    l: Map<(Option<Seq<char>>, Seq<char>), Seq<(Map<Seq<char>, Seq<char>>, Option<Seq<char>>, Map<Seq<char>, (Option<bool>, Option<Seq<Seq<char>>>, Option<i64>)>, (Option<bool>, Option<Seq<Seq<char>>>, Option<i64>))>>,
    key: Seq<char>,
    es: Seq<(Map<Seq<char>, Seq<char>>, Option<Seq<char>>, Map<Seq<char>, (Option<bool>, Option<Seq<Seq<char>>>, Option<i64>)>, (Option<bool>, Option<Seq<Seq<char>>>, Option<i64>))>,
    p: (Option<Seq<char>>, Seq<char>),
) -> Seq<(Map<Seq<char>, Seq<char>>, Option<Seq<char>>, Map<Seq<char>, (Option<bool>, Option<Seq<Seq<char>>>, Option<i64>)>, (Option<bool>, Option<Seq<Seq<char>>>, Option<i64>))> {
    if p == root(key) {
        es
    } else if p.0 == Some(key) {
        Seq::empty()
    } else {
        l[p]
    }
}

/// At path `p`, once the root entry `key` is an empty table.
pub open spec fn with_table(
    l: Map<(Option<Seq<char>>, Seq<char>), Seq<(Map<Seq<char>, Seq<char>>, Option<Seq<char>>, Map<Seq<char>, (Option<bool>, Option<Seq<Seq<char>>>, Option<i64>)>, (Option<bool>, Option<Seq<Seq<char>>>, Option<i64>))>>,
    key: Seq<char>,
    p: (Option<Seq<char>>, Seq<char>),
) -> Seq<(Map<Seq<char>, Seq<char>>, Option<Seq<char>>, Map<Seq<char>, (Option<bool>, Option<Seq<Seq<char>>>, Option<i64>)>, (Option<bool>, Option<Seq<Seq<char>>>, Option<i64>))> {
    if p == root(key) {
        seq![(Map::<Seq<char>, Seq<char>>::empty(), None::<Seq<char>>, Map::<Seq<char>, Leaf>::empty(), no_leaf())]
    } else if p.0 == Some(key) {
        Seq::empty()
    } else {
        l[p]
    }
}

/// At path `p`, once the root entry `key` holds neither an array nor a table.
pub open spec fn without_entry(
    l: Map<(Option<Seq<char>>, Seq<char>), Seq<(Map<Seq<char>, Seq<char>>, Option<Seq<char>>, Map<Seq<char>, (Option<bool>, Option<Seq<Seq<char>>>, Option<i64>)>, (Option<bool>, Option<Seq<Seq<char>>>, Option<i64>))>>,
    key: Seq<char>,
    p: (Option<Seq<char>>, Seq<char>),
) -> Seq<(Map<Seq<char>, Seq<char>>, Option<Seq<char>>, Map<Seq<char>, (Option<bool>, Option<Seq<Seq<char>>>, Option<i64>)>, (Option<bool>, Option<Seq<Seq<char>>>, Option<i64>))> {
    if p == root(key) || p.0 == Some(key) {
        Seq::empty()
    } else {
        l[p]
    }
}

/// The leaf of an array of the values `es`: its strings, where every value
/// is a string.
pub open spec fn array_leaf(es: Seq<TomlEntry>) -> Leaf {
    if forall|i: int| 0 <= i < es.len() ==> (#[trigger] es[i]).1 is Some {
        (None, Some(Seq::new(es.len(), |i: int| es[i].1->0)), None)
    } else {
        no_leaf()
    }
}

/// At path `p`, once the entry `key` of the root table `table` holds an
/// array of `es`: the table itself no longer has a string under `key`.
pub open spec fn with_nested_array(
    l: Map<(Option<Seq<char>>, Seq<char>), Seq<(Map<Seq<char>, Seq<char>>, Option<Seq<char>>, Map<Seq<char>, (Option<bool>, Option<Seq<Seq<char>>>, Option<i64>)>, (Option<bool>, Option<Seq<Seq<char>>>, Option<i64>))>>,
    table: Seq<char>,
    key: Seq<char>,
    es: Seq<(Map<Seq<char>, Seq<char>>, Option<Seq<char>>, Map<Seq<char>, (Option<bool>, Option<Seq<Seq<char>>>, Option<i64>)>, (Option<bool>, Option<Seq<Seq<char>>>, Option<i64>))>,
    p: (Option<Seq<char>>, Seq<char>),
) -> Seq<(Map<Seq<char>, Seq<char>>, Option<Seq<char>>, Map<Seq<char>, (Option<bool>, Option<Seq<Seq<char>>>, Option<i64>)>, (Option<bool>, Option<Seq<Seq<char>>>, Option<i64>))> {
    if p == nested(table, key) {
        es
    } else if p == root(table) {
        Seq::new(
            l[p].len(),
            |i: int| (l[p][i].0.remove(key), l[p][i].1, l[p][i].2.insert(key, array_leaf(es)), l[p][i].3),
        )
    } else {
        l[p]
    }
}

/// `<DocumentMut as FromStr>::from_str`: parses a TOML document, and on
/// failure gives the error's message (`TomlError`'s `Display`).
#[verifier::external_body]
pub(crate) fn parse_document(raw: &str) -> (r: Result<DocumentMut, String>)
    ensures
        r is Ok <==> toml_parse(raw@) is Ok,
        r matches Err(m) ==> fails_with(raw@, m@),
        r matches Ok(d) ==> parses_to(raw@, doc_lists(d)),
        r matches Ok(d) ==> doc_keys(d) == parsed_keys(raw@),
        r matches Ok(d) ==> forall|ks: Set<Seq<char>>| #[trigger] doc_rest(d, ks) == parsed_rest(raw@, ks),
{
    match raw.parse::<DocumentMut>() {
        Ok(doc) => Ok(doc),
        Err(err) => Err(err.to_string()),
    }
}

/// The text of a document (`DocumentMut`'s `Display`).
#[verifier::external_body]
pub(crate) fn render_document(doc: &DocumentMut) -> (r: String)
    ensures
        r@ == doc_text(*doc),
{
    doc.to_string()
}

/// An entry of a table, as converting the table to an inline table reads
/// it: a value, a nested table, or anything else (which is left out).
pub enum TableItem {
    Plain(Value),
    Nested(Table),
    Ignored,
}

/// What a path of a document holds, as the policy code reads it.
pub enum DocItem {
    /// Nothing is there.
    Missing,
    /// The elements of an array value.
    Values(Vec<Value>),
    /// The tables of an array of tables.
    Tables(Vec<Table>),
    /// A table.
    Single(Table),
    /// Any other item.
    Other,
}

/// The string-valued entries of a table.
pub uninterp spec fn table_strings(t: Table) -> Map<Seq<char>, Seq<char>>;

/// What `value_leaf` gives for each entry of a table, a nested table being
/// no leaf.
pub uninterp spec fn table_leafs(t: Table) -> Map<Seq<char>, Leaf>;

/// How deeply tables are nested inside a table; a nested table is
/// shallower than the table that holds it.
pub uninterp spec fn table_depth(t: Table) -> nat;

/// The string entries that the first `n` entries of a table give, in
/// order: a string value sets its key, any other value or a nested table
/// unsets it, anything else leaves the map as it is.
pub open spec fn entry_strings(es: Seq<(String, TableItem)>, n: int) -> Map<Seq<char>, Seq<char>>
    decreases n,
{
    if n <= 0 {
        Map::empty()
    } else {
        let m = entry_strings(es, n - 1);
        let k = es[n - 1].0@;
        match es[n - 1].1 {
            TableItem::Plain(v) => match value_string(v) {
                Some(s) => m.insert(k, s),
                None => m.remove(k),
            },
            TableItem::Nested(_) => m.remove(k),
            TableItem::Ignored => m,
        }
    }
}

/// The leaves that the first `n` entries of a table give, in order.
pub open spec fn entry_leaf_map(es: Seq<(String, TableItem)>, n: int) -> Map<Seq<char>, Leaf>
    decreases n,
{
    if n <= 0 {
        Map::empty()
    } else {
        let m = entry_leaf_map(es, n - 1);
        let k = es[n - 1].0@;
        match es[n - 1].1 {
            TableItem::Plain(v) => m.insert(k, value_leaf(v)),
            TableItem::Nested(_) => m.insert(k, no_leaf()),
            TableItem::Ignored => m,
        }
    }
}

/// The values a path holds, each as the policy code reads it: the
/// elements of an array, and each table as the inline table of its values.
pub open spec fn item_entries(item: DocItem) -> Seq<TomlEntry> {
    match item {
        DocItem::Values(vs) => entries(vs@),
        DocItem::Tables(ts) => Seq::new(
            ts@.len(),
            |i: int| (table_strings(ts@[i]), None::<Seq<char>>, table_leafs(ts@[i]), no_leaf()),
        ),
        DocItem::Single(t) => seq![(table_strings(t), None::<Seq<char>>, table_leafs(t), no_leaf())],
        _ => Seq::empty(),
    }
}

/// The entries of a table (`Table::iter`), each cloned and told apart by
/// its item's variant.
#[verifier::external_body]
pub(crate) fn table_entries(t: &Table) -> (r: Vec<(String, TableItem)>)
    ensures
        table_strings(*t) == entry_strings(r@, r@.len() as int),
        table_leafs(*t) == entry_leaf_map(r@, r@.len() as int),
        forall|i: int|
            0 <= i < r@.len() ==> ((#[trigger] r@[i]).1 matches TableItem::Nested(n) ==> table_depth(n)
                < table_depth(*t)),
{
    t.iter().map(|(k, item)| (k.to_string(), match item {
        Item::Value(v) => TableItem::Plain(v.clone()),
        Item::Table(n) => TableItem::Nested(n.clone()),
        _ => TableItem::Ignored,
    })).collect()
}

/// The item at a root key (`Table::get`), cloned and told apart by its
/// variant.
#[verifier::external_body]
pub(crate) fn root_item(doc: &DocumentMut, key: &str) -> (r: DocItem)
    ensures
        item_entries(r) == doc_lists(*doc)[root(key@)],
{
    match doc.get(key) {
        Some(Item::Value(Value::Array(a))) => DocItem::Values(a.iter().cloned().collect()),
        Some(Item::ArrayOfTables(ts)) => DocItem::Tables(ts.iter().cloned().collect()),
        Some(Item::Table(t)) => DocItem::Single(t.clone()),
        Some(_) => DocItem::Other,
        None => DocItem::Missing,
    }
}

/// The item at `key` inside the table-like root entry `table`
/// (`Item::as_table_like`, `TableLike::get`), read as `root_item` reads.
#[verifier::external_body]
pub(crate) fn nested_item(doc: &DocumentMut, table: &str, key: &str) -> (r: DocItem)
    ensures
        item_entries(r) == doc_lists(*doc)[nested(table@, key@)],
{
    match doc.get(table).and_then(Item::as_table_like).and_then(|t| t.get(key)) {
        Some(Item::Value(Value::Array(a))) => DocItem::Values(a.iter().cloned().collect()),
        Some(Item::ArrayOfTables(ts)) => DocItem::Tables(ts.iter().cloned().collect()),
        Some(Item::Table(t)) => DocItem::Single(t.clone()),
        Some(_) => DocItem::Other,
        None => DocItem::Missing,
    }
}

/// A table as an inline table: each value copied as it is written, each
/// nested table converted the same way, anything else left out.
pub fn table_to_inline(t: &Table) -> (r: InlineTable)
    ensures
        table_fields(r) == table_strings(*t),
        table_leaves(r) == table_leafs(*t),
    decreases table_depth(*t),
{
    let items = table_entries(t);
    let mut out = new_inline_table();
    let n = items.len();
    for i in 0..n
        invariant
            n == items@.len(),
            table_strings(*t) == entry_strings(items@, n as int),
            table_leafs(*t) == entry_leaf_map(items@, n as int),
            forall|j: int|
                0 <= j < items@.len() ==> ((#[trigger] items@[j]).1 matches TableItem::Nested(m)
                    ==> table_depth(m) < table_depth(*t)),
            table_fields(out) == entry_strings(items@, i as int),
            table_leaves(out) == entry_leaf_map(items@, i as int),
    {
        let key = items[i].0.as_str();
        match &items[i].1 {
            TableItem::Plain(v) => {
                inline_table_insert(&mut out, key, v.clone());
            },
            TableItem::Nested(nested) => {
                assert(items@[i as int].1 matches TableItem::Nested(m) && table_depth(m) < table_depth(*t));
                let inner = table_to_inline(nested);
                inline_table_insert(&mut out, key, inline_table_value(inner));
            },
            TableItem::Ignored => {},
        }
    }
    out
}

/// The values a path holds: the elements of an array, each table of an
/// array of tables as an inline table, a table as one inline table, and
/// nothing otherwise.
fn item_values(item: DocItem) -> (r: Vec<Value>)
    ensures
        entries(r@) == item_entries(item),
{
    match item {
        DocItem::Values(vs) => vs,
        DocItem::Tables(ts) => {
            let mut r: Vec<Value> = Vec::new();
            let n = ts.len();
            for i in 0..n
                invariant
                    n == ts@.len(),
                    r@.len() == i,
                    forall|j: int| 0 <= j < i ==> #[trigger] entry_of(r@[j]) == (table_strings(ts@[j]), None::<Seq<char>>, table_leafs(ts@[j]), no_leaf()),
            {
                let v = inline_table_value(table_to_inline(&ts[i]));
                r.push(v);
            }
            assert(entries(r@) =~= item_entries(DocItem::Tables(ts)));
            r
        },
        DocItem::Single(t) => {
            let mut r: Vec<Value> = Vec::new();
            r.push(inline_table_value(table_to_inline(&t)));
            assert(entries(r@) =~= item_entries(DocItem::Single(t)));
            r
        },
        DocItem::Missing => {
            let r: Vec<Value> = Vec::new();
            assert(entries(r@) =~= Seq::<TomlEntry>::empty());
            r
        },
        DocItem::Other => {
            let r: Vec<Value> = Vec::new();
            assert(entries(r@) =~= Seq::<TomlEntry>::empty());
            r
        },
    }
}

/// The values at a root key.
pub(crate) fn document_values(doc: &DocumentMut, key: &str) -> (r: Vec<Value>)
    ensures
        entries(r@) == doc_lists(*doc)[root(key@)],
{
    item_values(root_item(doc, key))
}

/// The values at `key` inside the table-like root entry `table`.
pub(crate) fn document_nested_values(doc: &DocumentMut, table: &str, key: &str) -> (r: Vec<Value>)
    ensures
        entries(r@) == doc_lists(*doc)[nested(table@, key@)],
{
    item_values(nested_item(doc, table, key))
}

/// Whether the root entry `table` is table-like and has an entry `key`;
/// where it has not, nothing is found at that path.
#[verifier::external_body]
pub(crate) fn document_has_nested(doc: &DocumentMut, table: &str, key: &str) -> (r: bool)
    ensures
        r == has_nested_key(doc_keys(*doc), table@, key@),
        !r ==> doc_lists(*doc)[nested(table@, key@)].len() == 0,
{
    doc.get(table).and_then(Item::as_table_like).and_then(|t| t.get(key)).is_some()
}

/// `Table::contains_key` on the document's root; where the key is absent,
/// nothing is found at it or under it.
#[verifier::external_body]
pub(crate) fn document_contains_key(doc: &DocumentMut, key: &str) -> (r: bool)
    ensures
        r == doc_keys(*doc).contains_key(key@),
        !r ==> forall|p: (Option<Seq<char>>, Seq<char>)|
            (p == root(key@) || p.0 == Some(key@)) ==> (#[trigger] doc_lists(*doc)[p]).len() == 0,
{
    doc.contains_key(key)
}

/// `Table::insert` of an array of `values` at the document's root.
#[verifier::external_body]
pub(crate) fn document_insert_values(doc: &mut DocumentMut, key: &str, values: Vec<Value>)
    ensures
        forall|p: (Option<Seq<char>>, Seq<char>)|
            #[trigger] doc_lists(*final(doc))[p] == with_array(
                doc_lists(*old(doc)),
                key@,
                entries(values@),
                p,
            ),
        doc_keys(*final(doc)) == doc_keys(*old(doc)).insert(key@, (None, None)),
        rest_kept(*old(doc), *final(doc), key@),
{
    doc.insert(key, Item::Value(Value::Array(Array::from_iter(values))));
}

/// `Table::insert` of an empty table at the document's root.
#[verifier::external_body]
pub(crate) fn document_insert_table(doc: &mut DocumentMut, key: &str)
    ensures
        forall|p: (Option<Seq<char>>, Seq<char>)|
            #[trigger] doc_lists(*final(doc))[p] == with_table(doc_lists(*old(doc)), key@, p),
        doc_keys(*final(doc)) == doc_keys(*old(doc)).insert(
            key@,
            (Some(Set::<Seq<char>>::empty()), None),
        ),
        rest_kept(*old(doc), *final(doc), key@),
{
    doc.insert(key, Item::Table(Table::new()));
}

/// `Item::is_table_like` of the root entry `key`; false where there is none.
#[verifier::external_body]
pub(crate) fn document_is_table_like(doc: &DocumentMut, key: &str) -> (r: bool)
    ensures
        r == is_table_at(doc_keys(*doc), key@),
{
    doc.get(key).is_some_and(Item::is_table_like)
}

/// `TableLike::insert` of an array of `values` into the table-like root
/// entry `table` (`Item::as_table_like_mut`).
#[verifier::external_body]
pub(crate) fn document_insert_nested_values(
    doc: &mut DocumentMut,
    table: &str,
    key: &str,
    values: Vec<Value>,
)
    requires
        is_table_at(doc_keys(*old(doc)), table@),
    ensures
        forall|p: (Option<Seq<char>>, Seq<char>)|
            #[trigger] doc_lists(*final(doc))[p] == with_nested_array(
                doc_lists(*old(doc)),
                table@,
                key@,
                entries(values@),
                p,
            ),
        doc_keys(*final(doc)) == doc_keys(*old(doc)).insert(
            table@,
            (Some(doc_keys(*old(doc))[table@].0->0.insert(key@)), doc_keys(*old(doc))[table@].1),
        ),
        rest_kept(*old(doc), *final(doc), table@),
{
    if let Some(t) = doc.get_mut(table).and_then(Item::as_table_like_mut) {
        t.insert(key, Item::Value(Value::Array(Array::from_iter(values))));
    }
}

/// `Table::remove` at the document's root.
#[verifier::external_body]
pub(crate) fn document_remove(doc: &mut DocumentMut, key: &str)
    ensures
        forall|p: (Option<Seq<char>>, Seq<char>)|
            #[trigger] doc_lists(*final(doc))[p] == without_entry(doc_lists(*old(doc)), key@, p),
        doc_keys(*final(doc)) == doc_keys(*old(doc)).remove(key@),
        rest_kept(*old(doc), *final(doc), key@),
{
    doc.remove(key);
}

/// `Table::get_mut` of the root entry `key`, replaced in place by the
/// string `value`; false, with nothing changed, where there is no entry.
#[verifier::external_body]
pub(crate) fn document_replace_string(doc: &mut DocumentMut, key: &str, value: &str) -> (r: bool)
    ensures
        r == doc_keys(*old(doc)).contains_key(key@),
        r ==> forall|p: (Option<Seq<char>>, Seq<char>)|
            #[trigger] doc_lists(*final(doc))[p] == without_entry(doc_lists(*old(doc)), key@, p),
        r ==> doc_keys(*final(doc)) == doc_keys(*old(doc)).insert(key@, (None, Some(value@))),
        r ==> rest_kept(*old(doc), *final(doc), key@),
        !r ==> *final(doc) == *old(doc),
{
    match doc.get_mut(key) {
        Some(item) => {
            *item = Item::Value(Value::from(value));
            true
        },
        None => false,
    }
}

/// `Table::insert` of the string `value` at the document's root.
#[verifier::external_body]
pub(crate) fn document_insert_string(doc: &mut DocumentMut, key: &str, value: &str)
    ensures
        forall|p: (Option<Seq<char>>, Seq<char>)|
            #[trigger] doc_lists(*final(doc))[p] == without_entry(doc_lists(*old(doc)), key@, p),
        doc_keys(*final(doc)) == doc_keys(*old(doc)).insert(key@, (None, Some(value@))),
        rest_kept(*old(doc), *final(doc), key@),
{
    doc.insert(key, Item::Value(Value::from(value)));
}

/// `Value::as_inline_table`, `InlineTable::get` and `Value::as_str`: the
/// string entry `key` of an inline-table value.
#[verifier::external_body]
pub(crate) fn value_field(v: &Value, key: &str) -> (r: Option<String>)
    ensures
        r matches Some(s) ==> value_fields(*v).contains_key(key@) && value_fields(*v)[key@]
            == s@,
        r is None ==> !value_fields(*v).contains_key(key@),
{
    v.as_inline_table().and_then(|t| t.get(key)).and_then(|x| x.as_str()).map(String::from)
}

/// `Value::as_str`.
#[verifier::external_body]
pub(crate) fn value_as_str(v: &Value) -> (r: Option<String>)
    ensures
        r matches Some(s) ==> value_string(*v) == Some(s@),
        r is None ==> value_string(*v) is None,
{
    v.as_str().map(String::from)
}

/// `Value::from(&str)`: a string value, which holds no entries.
#[verifier::external_body]
pub(crate) fn string_value(s: &str) -> (v: Value)
    ensures
        value_string(v) == Some(s@),
        value_fields(v).dom().is_empty(),
        value_leaf(v) == no_leaf(),
        value_leaves(v).dom().is_empty(),
{
    Value::from(s)
}

/// `Value::from(bool)`: a boolean value, neither a string nor a table.
#[verifier::external_body]
pub(crate) fn bool_value(b: bool) -> (v: Value)
    ensures
        value_string(v) is None,
        value_fields(v).dom().is_empty(),
        value_leaf(v) == (Some(b), None::<Seq<Seq<char>>>, None::<i64>),
        value_leaves(v).dom().is_empty(),
{
    Value::from(b)
}

/// An array value of strings (`Array`'s `FromIterator`, `Value::Array`).
#[verifier::external_body]
pub(crate) fn string_list_value(items: &Vec<String>) -> (v: Value)
    ensures
        value_string(v) is None,
        value_fields(v).dom().is_empty(),
        value_leaf(v) == (None::<bool>, Some(Seq::new(items@.len(), |i: int| items@[i]@)), None::<i64>),
        value_leaves(v).dom().is_empty(),
{
    Value::Array(items.iter().map(String::as_str).collect())
}

/// `InlineTable::new`.
#[verifier::external_body]
pub(crate) fn new_inline_table() -> (t: InlineTable)
    ensures
        table_fields(t).dom().is_empty(),
        table_leaves(t).dom().is_empty(),
{
    InlineTable::new()
}

/// `InlineTable::insert`: the entry `key` now holds `v`.
#[verifier::external_body]
pub(crate) fn inline_table_insert(t: &mut InlineTable, key: &str, v: Value)
    ensures
        value_string(v) matches Some(s) ==> table_fields(*final(t)) == table_fields(
            *old(t),
        ).insert(key@, s),
        value_string(v) is None ==> table_fields(*final(t)) == table_fields(*old(t)).remove(
            key@,
        ),
        table_leaves(*final(t)) == table_leaves(*old(t)).insert(key@, value_leaf(v)),
{
    t.insert(key, v);
}

/// `Value::InlineTable`: the table as a value.
#[verifier::external_body]
pub(crate) fn inline_table_value(t: InlineTable) -> (v: Value)
    ensures
        value_fields(v) == table_fields(t),
        value_leaves(v) == table_leaves(t),
        value_leaf(v) == no_leaf(),
        value_string(v) is None,
{
    Value::InlineTable(t)
}

/// Cloning a value gives a value equal to it.
pub assume_specification[ <Value as Clone>::clone ](v: &Value) -> (r: Value)
    ensures
        r == *v,
;

} // verus!
