//! Values kept under string keys in ascending key order, a later insert
//! under a key replacing the earlier one.

use vstd::prelude::*;
use vstd::string::StringExecFns;

use crate::text::chars_of;

verus! {

/// The order of `String`'s `Ord`: lexicographic by code point (UTF-8 byte
/// order and code-point order agree).
pub open spec fn str_lt(a: Seq<char>, b: Seq<char>) -> bool
    decreases a.len(),
{
    if a.len() == 0 {
        b.len() > 0
    } else if b.len() == 0 {
        false
    } else if a[0] != b[0] {
        a[0] < b[0]
    } else {
        str_lt(a.drop_first(), b.drop_first())
    }
}

pub proof fn lemma_str_lt_irreflexive(a: Seq<char>)
    ensures
        !str_lt(a, a),
    decreases a.len(),
{
    if a.len() > 0 {
        lemma_str_lt_irreflexive(a.drop_first());
    }
}

pub proof fn lemma_str_lt_transitive(a: Seq<char>, b: Seq<char>, c: Seq<char>)
    requires
        str_lt(a, b),
        str_lt(b, c),
    ensures
        str_lt(a, c),
    decreases a.len(),
{
    if a.len() > 0 && b.len() > 0 && c.len() > 0 && a[0] == b[0] && b[0] == c[0] {
        lemma_str_lt_transitive(a.drop_first(), b.drop_first(), c.drop_first());
    }
}

pub proof fn lemma_str_lt_total(a: Seq<char>, b: Seq<char>)
    ensures
        a == b || str_lt(a, b) || str_lt(b, a),
    decreases a.len(),
{
    if a.len() > 0 && b.len() > 0 && a[0] == b[0] {
        lemma_str_lt_total(a.drop_first(), b.drop_first());
        if a.drop_first() == b.drop_first() {
            assert(a =~= seq![a[0]] + a.drop_first());
            assert(b =~= seq![b[0]] + b.drop_first());
        }
    } else if a.len() > 0 && b.len() > 0 {
    } else if a.len() == 0 && b.len() == 0 {
        assert(a =~= b);
    }
}

proof fn lemma_str_lt_skip(a: Seq<char>, b: Seq<char>, i: int)
    requires
        0 <= i <= a.len(),
        i <= b.len(),
        a.take(i) == b.take(i),
    ensures
        str_lt(a, b) == str_lt(a.skip(i), b.skip(i)),
    decreases i,
{
    if i > 0 {
        assert(a[0] == a.take(i)[0]);
        assert(b[0] == b.take(i)[0]);
        assert(a.drop_first().take(i - 1) =~= a.take(i).drop_first());
        assert(b.drop_first().take(i - 1) =~= b.take(i).drop_first());
        lemma_str_lt_skip(a.drop_first(), b.drop_first(), i - 1);
        assert(a.drop_first().skip(i - 1) =~= a.skip(i));
        assert(b.drop_first().skip(i - 1) =~= b.skip(i));
    } else {
        assert(a.skip(0) =~= a);
        assert(b.skip(0) =~= b);
    }
}

/// Whether `a` comes before `b` in `String`'s order.
pub fn str_less(a: &str, b: &str) -> (r: bool)
    ensures
        r == str_lt(a@, b@),
{
    let x = chars_of(a);
    let y = chars_of(b);
    let mut i: usize = 0;
    while i < x.len() && i < y.len() && x[i] == y[i]
        invariant
            i <= x@.len(),
            i <= y@.len(),
            x@.take(i as int) == y@.take(i as int),
        decreases x@.len() - i,
    {
        assert(x@.take(i + 1) =~= x@.take(i as int).push(x@[i as int]));
        assert(y@.take(i + 1) =~= y@.take(i as int).push(y@[i as int]));
        i = i + 1;
    }
    proof {
        lemma_str_lt_skip(x@, y@, i as int);
    }
    if i == x.len() {
        i < y.len()
    } else if i == y.len() {
        false
    } else {
        assert(x@.skip(i as int)[0] == x@[i as int]);
        assert(y@.skip(i as int)[0] == y@[i as int]);
        x[i] < y[i]
    }
}

/// Keys strictly ascending.
pub open spec fn sorted_keys<V>(s: Seq<(Seq<char>, V)>) -> bool {
    forall|i: int, j: int| 0 <= i < j < s.len() ==> str_lt(#[trigger] s[i].0, #[trigger] s[j].0)
}

/// A position of key `k` in `s`.
pub open spec fn key_index<V>(s: Seq<(Seq<char>, V)>, k: Seq<char>) -> int {
    choose|i: int| 0 <= i < s.len() && #[trigger] s[i].0 == k
}

/// The map from each key to its value.
pub open spec fn pairs_map<V>(s: Seq<(Seq<char>, V)>) -> Map<Seq<char>, V> {
    Map::new(
        |k: Seq<char>| exists|i: int| 0 <= i < s.len() && #[trigger] s[i].0 == k,
        |k: Seq<char>| s[key_index(s, k)].1,
    )
}

/// The map after inserting `pairs` in order, a later key replacing an earlier.
pub open spec fn last_wins<V>(pairs: Seq<(Seq<char>, V)>) -> Map<Seq<char>, V>
    decreases pairs.len(),
{
    if pairs.len() == 0 {
        Map::empty()
    } else {
        last_wins(pairs.drop_last()).insert(pairs.last().0, pairs.last().1)
    }
}

/// The values of `s`, in order.
pub open spec fn pair_values<V>(s: Seq<(Seq<char>, V)>) -> Seq<V> {
    Seq::new(s.len(), |i: int| s[i].1)
}

/// Values under distinct keys, ascending by key.
pub struct KeyedValues<V> {
    entries: Vec<(String, V)>,
}

impl<V> KeyedValues<V> {
    pub closed spec fn pairs(&self) -> Seq<(Seq<char>, V)> {
        Seq::new(self.entries@.len(), |i: int| (self.entries@[i].0@, self.entries@[i].1))
    }

    pub open spec fn wf(&self) -> bool {
        sorted_keys(self.pairs())
    }

    pub fn new() -> (r: Self)
        ensures
            r.wf(),
            r.pairs() == Seq::<(Seq<char>, V)>::empty(),
    {
        let r = KeyedValues { entries: Vec::new() };
        assert(r.pairs() =~= Seq::<(Seq<char>, V)>::empty());
        r
    }

    /// Puts `value` under `key`, replacing what was there.
    pub fn insert(&mut self, key: String, value: V)
        requires
            old(self).wf(),
        ensures
            final(self).wf(),
            pairs_map(final(self).pairs()) == pairs_map(old(self).pairs()).insert(key@, value),
    {
        let ghost old_pairs = self.pairs();
        let n = self.entries.len();
        let mut i: usize = 0;
        while i < n && str_less(self.entries[i].0.as_str(), key.as_str())
            invariant
                n == self.entries@.len(),
                i <= n,
                old_pairs == self.pairs(),
                forall|j: int| 0 <= j < i ==> str_lt(#[trigger] old_pairs[j].0, key@),
            decreases n - i,
        {
            assert(old_pairs[i as int].0 == self.entries@[i as int].0@);
            i = i + 1;
        }
        let same = i < n && self.entries[i].0 == key;
        let ghost k = key@;
        proof {
            if i < n && !same {
                assert(old_pairs[i as int].0 == self.entries@[i as int].0@);
                lemma_str_lt_total(old_pairs[i as int].0, k);
            }
        }
        if same {
            self.entries.set(i, (key, value));
            let ghost np = self.pairs();
            assert(np =~= old_pairs.update(i as int, (k, value)));
            proof {
                proof_sorted_update(old_pairs, i as int, k, value);
            }
            assert(pairs_map(np) =~= pairs_map(old_pairs).insert(k, value)) by {
                assert forall|kk: Seq<char>| #[trigger] pairs_map(np).contains_key(kk) implies pairs_map(old_pairs).insert(k, value).contains_key(kk) by {
                    let w = choose|w: int| 0 <= w < np.len() && np[w].0 == kk;
                    if w != i {
                        assert(old_pairs[w].0 == kk);
                    }
                }
                assert forall|kk: Seq<char>| #[trigger] pairs_map(old_pairs).insert(k, value).contains_key(kk) implies pairs_map(np).contains_key(kk) && pairs_map(np)[kk] == pairs_map(old_pairs).insert(k, value)[kk] by {
                    if kk == k {
                        assert(np[i as int].0 == kk);
                        let w = choose|w: int| 0 <= w < np.len() && np[w].0 == kk;
                        proof_sorted_update(old_pairs, i as int, k, value);
                        lemma_pairs_map_at(np, i as int);
                    } else {
                        let w = choose|w: int| 0 <= w < old_pairs.len() && old_pairs[w].0 == kk;
                        assert(np[w].0 == kk);
                        proof_sorted_update(old_pairs, i as int, k, value);
                        lemma_pairs_map_at(np, w);
                        lemma_pairs_map_at(old_pairs, w);
                    }
                }
            }
        } else {
            self.entries.insert(i, (key, value));
            let ghost np = self.pairs();
            assert(np =~= old_pairs.insert(i as int, (k, value)));
            assert forall|a: int, b: int| 0 <= a < b < np.len() implies str_lt(
                #[trigger] np[a].0,
                #[trigger] np[b].0,
            ) by {
                if b < i {
                } else if a < i && b == i {
                } else if a < i && b > i {
                    assert(np[b] == old_pairs[b - 1]);
                    if i < n {
                        assert(str_lt(k, old_pairs[i as int].0));
                        if b - 1 > i {
                            lemma_str_lt_transitive(k, old_pairs[i as int].0, old_pairs[b - 1].0);
                        }
                    }
                    lemma_str_lt_transitive(np[a].0, k, np[b].0);
                } else if a == i {
                    assert(np[b] == old_pairs[b - 1]);
                    if b - 1 > i {
                        lemma_str_lt_transitive(k, old_pairs[i as int].0, old_pairs[b - 1].0);
                    }
                } else {
                    assert(np[a] == old_pairs[a - 1]);
                    assert(np[b] == old_pairs[b - 1]);
                }
            }
            assert(pairs_map(np) =~= pairs_map(old_pairs).insert(k, value)) by {
                assert forall|kk: Seq<char>| #[trigger] pairs_map(np).contains_key(kk) implies pairs_map(old_pairs).insert(k, value).contains_key(kk) by {
                    let w = choose|w: int| 0 <= w < np.len() && np[w].0 == kk;
                    if w < i {
                        assert(old_pairs[w].0 == kk);
                    } else if w > i {
                        assert(old_pairs[w - 1].0 == kk);
                    }
                }
                assert forall|kk: Seq<char>| #[trigger] pairs_map(old_pairs).insert(k, value).contains_key(kk) implies pairs_map(np).contains_key(kk) && pairs_map(np)[kk] == pairs_map(old_pairs).insert(k, value)[kk] by {
                    if kk == k {
                        assert(np[i as int].0 == kk);
                        lemma_pairs_map_at(np, i as int);
                    } else {
                        let w = choose|w: int| 0 <= w < old_pairs.len() && old_pairs[w].0 == kk;
                        let w1 = if w < i { w } else { w + 1 };
                        assert(np[w1] == old_pairs[w]);
                        assert(np[w1].0 == kk);
                        lemma_pairs_map_at(np, w1);
                        lemma_pairs_map_at(old_pairs, w);
                    }
                }
            }
        }
    }

    /// Whether a value is kept under `key`.
    pub fn contains_key(&self, key: &String) -> (r: bool)
        ensures
            r == pairs_map(self.pairs()).contains_key(key@),
    {
        let n = self.entries.len();
        for i in 0..n
            invariant
                n == self.entries@.len(),
                forall|j: int| 0 <= j < i ==> #[trigger] self.pairs()[j].0 != key@,
        {
            if self.entries[i].0 == *key {
                assert(self.pairs()[i as int].0 == key@);
                return true;
            }
        }
        false
    }

    /// The values, ascending by key.
    pub fn into_values(self) -> (r: Vec<V>)
        ensures
            r@ == pair_values(self.pairs()),
    {
        let ghost all = self.pairs();
        let mut entries = self.entries;
        let mut r: Vec<V> = Vec::new();
        let n = entries.len();
        while entries.len() > 0
            invariant
                n == all.len(),
                entries@.len() + r@.len() == n,
                r@ == pair_values(all).take(r@.len() as int),
                forall|j: int| 0 <= j < entries@.len() ==> #[trigger] entries@[j].1 == all[r@.len() + j].1,
            decreases entries@.len(),
        {
            let ghost k: int = r@.len() as int;
            let (_, v) = entries.remove(0);
            r.push(v);
            assert(pair_values(all).take(k + 1) =~= pair_values(all).take(k).push(all[k].1));
        }
        assert(pair_values(all).take(n as int) =~= pair_values(all));
        r
    }

    /// How many keys hold a value.
    pub fn len(&self) -> (r: usize)
        ensures
            r == self.pairs().len(),
    {
        self.entries.len()
    }

    /// The `i`-th key and its value, ascending by key.
    pub fn entry(&self, i: usize) -> (r: (&String, &V))
        requires
            i < self.pairs().len(),
        ensures
            r.0@ == self.pairs()[i as int].0,
            *r.1 == self.pairs()[i as int].1,
    {
        (&self.entries[i].0, &self.entries[i].1)
    }

    /// The value under `key`, if any.
    pub fn get(&self, key: &str) -> (r: Option<&V>)
        requires
            self.wf(),
        ensures
            r matches Some(v) ==> pairs_map(self.pairs()).contains_key(key@) && pairs_map(
                self.pairs(),
            )[key@] == *v,
            r is None ==> !pairs_map(self.pairs()).contains_key(key@),
    {
        let target = String::from_str(key);
        let n = self.entries.len();
        for i in 0..n
            invariant
                n == self.entries@.len(),
                self.wf(),
                target@ == key@,
                forall|j: int| 0 <= j < i ==> #[trigger] self.pairs()[j].0 != key@,
        {
            if self.entries[i].0 == target {
                assert(self.pairs()[i as int].0 == key@);
                proof {
                    lemma_pairs_map_at(self.pairs(), i as int);
                }
                return Some(&self.entries[i].1);
            }
        }
        None
    }
}

/// A sorted sequence has as many keys as entries.
pub proof fn lemma_pairs_map_len<V>(s: Seq<(Seq<char>, V)>)
    requires
        sorted_keys(s),
    ensures
        pairs_map(s).dom().len() == s.len(),
        pairs_map(s).dom().finite(),
    decreases s.len(),
{
    if s.len() == 0 {
        assert(pairs_map(s).dom() =~= Set::<Seq<char>>::empty());
    } else {
        let t = s.drop_last();
        assert(sorted_keys(t));
        lemma_pairs_map_len(t);
        assert forall|k: Seq<char>| #[trigger] pairs_map(s).dom().contains(k) implies pairs_map(t).dom().insert(s.last().0).contains(k) by {
            let w = choose|w: int| 0 <= w < s.len() && #[trigger] s[w].0 == k;
            if w < s.len() - 1 {
                assert(t[w].0 == k);
            }
        }
        assert forall|k: Seq<char>| #[trigger] pairs_map(t).dom().insert(s.last().0).contains(k) implies pairs_map(s).dom().contains(k) by {
            if k == s.last().0 {
                assert(s[s.len() - 1].0 == k);
            } else {
                let w = choose|w: int| 0 <= w < t.len() && #[trigger] t[w].0 == k;
                assert(s[w].0 == k);
            }
        }
        assert(pairs_map(s).dom() =~= pairs_map(t).dom().insert(s.last().0));
        assert(!pairs_map(t).dom().contains(s.last().0)) by {
            if pairs_map(t).dom().contains(s.last().0) {
                let w = choose|w: int| 0 <= w < t.len() && #[trigger] t[w].0 == s.last().0;
                lemma_sorted_distinct(s, w, s.len() - 1);
            }
        }
    }
}

/// In a sorted sequence, each key maps to the value stored with it.
pub proof fn lemma_pairs_map_at<V>(s: Seq<(Seq<char>, V)>, idx: int)
    requires
        sorted_keys(s),
        0 <= idx < s.len(),
    ensures
        pairs_map(s).contains_key(s[idx].0),
        pairs_map(s)[s[idx].0] == s[idx].1,
{
    let k = s[idx].0;
    assert(pairs_map(s).contains_key(k));
    let c = key_index(s, k);
    if c != idx {
        lemma_sorted_distinct(s, c, idx);
    }
}

/// Replacing the value at a key keeps the keys sorted.
proof fn proof_sorted_update<V>(s: Seq<(Seq<char>, V)>, i: int, k: Seq<char>, v: V)
    requires
        sorted_keys(s),
        0 <= i < s.len(),
        s[i].0 == k,
    ensures
        sorted_keys(s.update(i, (k, v))),
{
    assert forall|a: int, b: int| 0 <= a < b < s.len() implies str_lt(
        #[trigger] s.update(i, (k, v))[a].0,
        #[trigger] s.update(i, (k, v))[b].0,
    ) by {
        assert(str_lt(s[a].0, s[b].0));
    }
}

/// Keys of a sorted sequence are distinct.
pub proof fn lemma_sorted_distinct<V>(s: Seq<(Seq<char>, V)>, a: int, b: int)
    requires
        sorted_keys(s),
        0 <= a < s.len(),
        0 <= b < s.len(),
        a != b,
    ensures
        s[a].0 != s[b].0,
{
    if a < b {
        lemma_str_lt_irreflexive(s[a].0);
    } else {
        lemma_str_lt_irreflexive(s[b].0);
    }
}

} // verus!
