//! Detection summaries of the clean endpoint: which class of value a
//! protected field most likely lost, and the per-class counts.

use vstd::prelude::*;
use vstd::string::StringExecFns;

use crate::protocol::{DetectionCount, TextField};
use crate::sessions::SessionHandle;
use crate::streaming::restorer::strict_restoration;
use crate::streaming::StreamError;
use crate::text::{
    chars_eq, chars_of, contains_chars, split_whitespace, vecs_view, words,
};

verus! {

/// What `char::is_alphanumeric` returns for `c`: whether `c` has the
/// Unicode `Alphabetic` property or a numeric general category.
pub uninterp spec fn alphanumeric(c: char) -> bool;

/// `char::is_alphanumeric` from std.
#[verifier::external_body]
fn char_is_alphanumeric(c: char) -> (r: bool)
    ensures
        r == alphanumeric(c),
{
    c.is_alphanumeric()
}

/// `w` without its leading characters that are not alphanumeric.
pub open spec fn trim_front(w: Seq<char>) -> Seq<char>
    decreases w.len(),
{
    if w.len() > 0 && !alphanumeric(w[0]) {
        trim_front(w.drop_first())
    } else {
        w
    }
}

/// `w` without its trailing characters that are not alphanumeric.
pub open spec fn trim_back(w: Seq<char>) -> Seq<char>
    decreases w.len(),
{
    if w.len() > 0 && !alphanumeric(w.last()) {
        trim_back(w.drop_last())
    } else {
        w
    }
}

/// `w` with non-alphanumeric characters trimmed from both ends.
pub open spec fn trim_non_alphanumeric(w: Seq<char>) -> Seq<char> {
    trim_back(trim_front(w))
}

/// A word that looks like a name: once trimmed, it starts with an ASCII
/// capital and has more than one character.
pub open spec fn looks_like_name(w: Seq<char>) -> bool {
    let t = trim_non_alphanumeric(w);
    t.len() > 1 && 'A' <= t[0] <= 'Z'
}

/// The guess over the words of the original from index `i` on: the first
/// word that the protected text no longer holds decides, `email` if it
/// holds `@`, `name` if it looks like a name; other lost words are passed over.
pub open spec fn guess_from(orig: Seq<Seq<char>>, kept: Seq<Seq<char>>, i: int) -> Option<
    Seq<char>,
>
    decreases orig.len() - i,
{
    if i < 0 || i >= orig.len() {
        None
    } else if kept.contains(orig[i]) {
        guess_from(orig, kept, i + 1)
    } else if orig[i].contains('@') {
        Some("email"@)
    } else if looks_like_name(orig[i]) {
        Some("name"@)
    } else {
        guess_from(orig, kept, i + 1)
    }
}

/// The class guessed for a field whose text `original` became `protected`.
pub open spec fn guess_class_spec(original: Seq<char>, protected: Seq<char>) -> Option<Seq<char>> {
    guess_from(words(original), words(protected), 0)
}

/// Word `i` of the original is lost: the protected text no longer holds it.
pub open spec fn lost_word(original: Seq<char>, protected: Seq<char>, i: int) -> bool {
    !words(protected).contains(words(original)[i])
}

/// A lost word that tells what was taken out: an email address (it holds
/// `@`) or a name.
pub open spec fn telling(w: Seq<char>) -> bool {
    w.contains('@') || looks_like_name(w)
}

/// The class a telling word stands for.
pub open spec fn class_of_word(w: Seq<char>) -> Seq<char> {
    if w.contains('@') {
        "email"@
    } else {
        "name"@
    }
}

/// The guess is decided by the first lost word that tells: some earlier
/// lost words may be neither an email nor a name and are passed over.
proof fn lemma_guess_from(orig: Seq<Seq<char>>, kept: Seq<Seq<char>>, i: int)
    requires
        0 <= i,
    ensures
        guess_from(orig, kept, i) matches Some(c) ==> exists|k: int|
            i <= k < orig.len() && !kept.contains(orig[k]) && telling(#[trigger] orig[k]) && c
                == class_of_word(orig[k]) && forall|j: int|
                i <= j < k && !kept.contains(orig[j]) ==> !telling(#[trigger] orig[j]),
        guess_from(orig, kept, i) is None ==> forall|k: int|
            i <= k < orig.len() && !kept.contains(orig[k]) ==> !telling(#[trigger] orig[k]),
    decreases orig.len() - i,
{
    if i < orig.len() {
        lemma_guess_from(orig, kept, i + 1);
        if !kept.contains(orig[i]) && telling(orig[i]) {
            assert(guess_from(orig, kept, i) == Some(class_of_word(orig[i])));
        }
    }
}

/// The guessed class is decided by the first lost word of the original
/// that is an email address or a name; lost words that are neither are
/// passed over, and with no such word there is no guess.
pub proof fn guess_is_first_telling_lost_word(original: Seq<char>, protected: Seq<char>)
    ensures
        guess_class_spec(original, protected) matches Some(c) ==> exists|k: int|
            0 <= k < words(original).len() && lost_word(original, protected, k) && telling(
                #[trigger] words(original)[k],
            ) && c == class_of_word(words(original)[k]) && forall|j: int|
                0 <= j < k && lost_word(original, protected, j) ==> !telling(
                    #[trigger] words(original)[j],
                ),
        guess_class_spec(original, protected) is None ==> forall|k: int|
            0 <= k < words(original).len() && lost_word(original, protected, k) ==> !telling(
                #[trigger] words(original)[k],
            ),
{
    lemma_guess_from(words(original), words(protected), 0);
}

fn trimmed(w: &Vec<char>) -> (t: Vec<char>)
    ensures
        t@ == trim_non_alphanumeric(w@),
{
    let n = w.len();
    let mut lo: usize = 0;
    assert(w@.skip(0) =~= w@);
    while lo < n && !char_is_alphanumeric(w[lo])
        invariant
            n == w@.len(),
            lo <= n,
            trim_front(w@) == trim_front(w@.skip(lo as int)),
        decreases n - lo,
    {
        assert(w@.skip(lo as int).drop_first() =~= w@.skip(lo + 1));
        lo = lo + 1;
    }
    assert(trim_front(w@.skip(lo as int)) == w@.skip(lo as int));
    let mut hi: usize = n;
    while hi > lo && !char_is_alphanumeric(w[hi - 1])
        invariant
            n == w@.len(),
            lo <= hi <= n,
            trim_non_alphanumeric(w@) == trim_back(w@.subrange(lo as int, hi as int)),
        decreases hi,
    {
        assert(w@.subrange(lo as int, hi as int).drop_last() =~= w@.subrange(
            lo as int,
            hi - 1,
        ));
        hi = hi - 1;
    }
    assert(w@.skip(lo as int) =~= w@.subrange(lo as int, n as int));
    crate::text::chars_range(w, lo, hi)
}

fn contains_at(w: &Vec<char>) -> (r: bool)
    ensures
        r == w@.contains('@'),
{
    let n = w.len();
    for i in 0..n
        invariant
            n == w@.len(),
            forall|j: int| 0 <= j < i ==> w@[j] != '@',
    {
        if w[i] == '@' {
            return true;
        }
    }
    false
}

fn name_like(w: &Vec<char>) -> (r: bool)
    ensures
        r == looks_like_name(w@),
{
    let t = trimmed(w);
    t.len() > 1 && 'A' <= t[0] && t[0] <= 'Z'
}

/// Guesses which class of value protection took out of `original`.
pub fn guess_class(original: &str, protected: &str) -> (r: Option<String>)
    ensures
        r matches Some(s) ==> guess_class_spec(original@, protected@) == Some(s@),
        r is None ==> guess_class_spec(original@, protected@) is None,
        r matches Some(s) ==> exists|k: int|
            0 <= k < words(original@).len() && lost_word(original@, protected@, k) && telling(
                #[trigger] words(original@)[k],
            ) && s@ == class_of_word(words(original@)[k]) && forall|j: int|
                0 <= j < k && lost_word(original@, protected@, j) ==> !telling(
                    #[trigger] words(original@)[j],
                ),
        r is None ==> forall|k: int|
            0 <= k < words(original@).len() && lost_word(original@, protected@, k) ==> !telling(
                #[trigger] words(original@)[k],
            ),
{
    proof {
        lemma_guess_from(words(original@), words(protected@), 0);
    }
    let kept = split_whitespace(&chars_of(protected));
    let orig = split_whitespace(&chars_of(original));
    let n = orig.len();
    let mut i: usize = 0;
    while i < n
        invariant
            n == orig@.len(),
            i <= n,
            vecs_view(kept@) == words(protected@),
            vecs_view(orig@) == words(original@),
            guess_class_spec(original@, protected@) == guess_from(
                vecs_view(orig@),
                vecs_view(kept@),
                i as int,
            ),
        decreases n - i,
    {
        let w = &orig[i];
        assert(vecs_view(orig@)[i as int] == w@);
        proof {
            lemma_guess_from(words(original@), words(protected@), 0);
        }
        if contains_chars(&kept, w) {
            i = i + 1;
            continue;
        }
        if contains_at(w) {
            return Some(String::from_str("email"));
        }
        if name_like(w) {
            return Some(String::from_str("name"));
        }
        i = i + 1;
    }
    None
}

/// Restores every field of a restore request through the session, keeping
/// each field's path; the first field that does not restore strictly fails
/// the whole request.
pub fn restore_fields(handle: &SessionHandle, fields: &Vec<TextField>) -> (r: Result<
    Vec<TextField>,
    StreamError,
>)
    ensures
        r matches Ok(out) ==> out@.len() == fields@.len() && forall|i: int|
            0 <= i < fields@.len() ==> (#[trigger] out@[i]).path@ == fields@[i].path@
                && strict_restoration(fields@[i].text@, out@[i].text@),
        r matches Err(e) ==> e == StreamError::StrictRestore,
        fields@.len() == 0 ==> (r matches Ok(out) && out@.len() == 0),
{
    let mut out: Vec<TextField> = Vec::new();
    let n = fields.len();
    for i in 0..n
        invariant
            n == fields@.len(),
            out@.len() == i,
            forall|j: int| 0 <= j < i ==> (#[trigger] out@[j]).path@ == fields@[j].path@
                && strict_restoration(fields@[j].text@, out@[j].text@),
    {
        let text = crate::streaming::restorer::restore(handle, fields[i].text.as_str())?;
        out.push(TextField { path: fields[i].path.clone(), text });
    }
    Ok(out)
}

/// One detection of `class`, if the field changed and a class was guessed.
pub open spec fn detection_of(original: Seq<char>, protected: Seq<char>) -> Option<Seq<char>> {
    if original == protected {
        None
    } else {
        guess_class_spec(original, protected)
    }
}

pub open spec fn detections_view(ds: Seq<DetectionCount>) -> Seq<(Seq<char>, u64)> {
    Seq::new(ds.len(), |i: int| (ds[i].class@, ds[i].count))
}

/// Appends one detection for a changed field whose class can be guessed.
pub fn collect_detections(original: &str, protected: &str, out: &mut Vec<DetectionCount>)
    ensures
        detection_of(original@, protected@) matches Some(c) ==> detections_view(final(out)@)
            == detections_view(old(out)@).push((c, 1u64)),
        detection_of(original@, protected@) is None ==> final(out)@ == old(out)@,
{
    if chars_eq(&chars_of(original), &chars_of(protected)) {
        return;
    }
    if let Some(class) = guess_class(original, protected) {
        let ghost before = detections_view(out@);
        let ghost cv = class@;
        out.push(DetectionCount { class, count: 1 });
        assert(detections_view(out@) =~= before.push((cv, 1u64)));
    }
}

/// The sum of the counts of `ds`.
pub open spec fn total(ds: Seq<(Seq<char>, u64)>) -> int
    decreases ds.len(),
{
    if ds.len() == 0 {
        0
    } else {
        total(ds.drop_last()) + ds.last().1
    }
}

/// The index of the first entry of class `c` in `m`, or -1.
pub open spec fn class_pos(m: Seq<(Seq<char>, u64)>, c: Seq<char>) -> int
    decreases m.len(),
{
    if m.len() == 0 {
        -1
    } else if m[0].0 == c {
        0
    } else {
        let p = class_pos(m.drop_first(), c);
        if p < 0 {
            -1
        } else {
            p + 1
        }
    }
}

/// Per-class totals in the order in which each class first occurs.
pub open spec fn merged_spec(ds: Seq<(Seq<char>, u64)>) -> Seq<(Seq<char>, u64)>
    decreases ds.len(),
{
    if ds.len() == 0 {
        Seq::empty()
    } else {
        let m = merged_spec(ds.drop_last());
        let d = ds.last();
        let k = class_pos(m, d.0);
        if k < 0 {
            m.push(d)
        } else {
            m.update(k, (d.0, (m[k].1 + d.1) as u64))
        }
    }
}

proof fn lemma_class_pos(m: Seq<(Seq<char>, u64)>, c: Seq<char>, k: int)
    requires
        0 <= k <= m.len(),
        forall|j: int| 0 <= j < k ==> m[j].0 != c,
        k < m.len() ==> m[k].0 == c,
    ensures
        class_pos(m, c) == if k < m.len() { k } else { -1 },
    decreases m.len(),
{
    if m.len() > 0 && k > 0 {
        assert forall|j: int| 0 <= j < k - 1 implies m.drop_first()[j].0 != c by {
            assert(m.drop_first()[j] == m[j + 1]);
        }
        lemma_class_pos(m.drop_first(), c, k - 1);
    }
}

proof fn lemma_class_pos_range(m: Seq<(Seq<char>, u64)>, c: Seq<char>)
    ensures
        -1 <= class_pos(m, c) < m.len(),
        class_pos(m, c) >= 0 ==> m[class_pos(m, c)].0 == c,
    decreases m.len(),
{
    if m.len() > 0 && m[0].0 != c {
        lemma_class_pos_range(m.drop_first(), c);
    }
}

proof fn lemma_total_update(m: Seq<(Seq<char>, u64)>, k: int, e: (Seq<char>, u64))
    requires
        0 <= k < m.len(),
    ensures
        total(m.update(k, e)) == total(m) - m[k].1 + e.1,
    decreases m.len(),
{
    if k < m.len() - 1 {
        assert(m.update(k, e).drop_last() =~= m.drop_last().update(k, e));
        lemma_total_update(m.drop_last(), k, e);
    } else {
        assert(m.update(k, e).drop_last() =~= m.drop_last());
    }
}

proof fn lemma_total_bounds(m: Seq<(Seq<char>, u64)>, k: int)
    requires
        0 <= k < m.len(),
    ensures
        m[k].1 <= total(m),
        0 <= total(m),
    decreases m.len(),
{
    lemma_total_nonneg(m.drop_last());
    if k < m.len() - 1 {
        lemma_total_bounds(m.drop_last(), k);
        assert(m.drop_last()[k] == m[k]);
    }
}

/// Merging detections keeps the total count: no detection is lost or
/// counted twice.
pub proof fn merge_keeps_total(ds: Seq<(Seq<char>, u64)>)
    requires
        total(ds) <= u64::MAX,
    ensures
        total(merged_spec(ds)) == total(ds),
    decreases ds.len(),
{
    if ds.len() > 0 {
        let m = merged_spec(ds.drop_last());
        let d = ds.last();
        if ds.len() > 1 {
            lemma_total_bounds(ds.drop_last(), 0);
        }
        merge_keeps_total(ds.drop_last());
        lemma_class_pos_range(m, d.0);
        let k = class_pos(m, d.0);
        if k < 0 {
            assert(m.push(d).drop_last() =~= m);
        } else {
            lemma_total_bounds(m, k);
            lemma_total_update(m, k, (d.0, (m[k].1 + d.1) as u64));
        }
    }
}

/// Sums the counts of equal classes; each class keeps the place of its first
/// occurrence.
pub fn merge_detections(detections: Vec<DetectionCount>) -> (merged: Vec<DetectionCount>)
    requires
        total(detections_view(detections@)) <= u64::MAX,
    ensures
        detections_view(merged@) == merged_spec(detections_view(detections@)),
{
    let ghost dv = detections_view(detections@);
    let mut merged: Vec<DetectionCount> = Vec::new();
    let n = detections.len();
    for i in 0..n
        invariant
            n == detections@.len(),
            dv == detections_view(detections@),
            total(dv) <= u64::MAX,
            detections_view(merged@) == merged_spec(dv.take(i as int)),
    {
        let ghost m = detections_view(merged@);
        let ghost prefix = dv.take(i + 1);
        assert(prefix.drop_last() =~= dv.take(i as int));
        assert(prefix.last() == dv[i as int]);
        proof {
            lemma_total_prefix(dv, i + 1);
            merge_keeps_total(prefix);
            merge_keeps_total(dv.take(i as int));
        }
        let class = detections[i].class.clone();
        let count = detections[i].count;
        let mut k: usize = 0;
        while k < merged.len() && !chars_eq(&chars_of(merged[k].class.as_str()), &chars_of(class.as_str()))
            invariant
                k <= merged@.len(),
                m == detections_view(merged@),
                forall|j: int| 0 <= j < k ==> m[j].0 != class@,
            decreases merged@.len() - k,
        {
            k = k + 1;
        }
        proof {
            lemma_class_pos(m, class@, k as int);
        }
        if k < merged.len() {
            proof {
                lemma_total_bounds(m, k as int);
                lemma_total_bounds(prefix, i as int);
            }
            let updated = DetectionCount { class: merged[k].class.clone(), count: merged[k].count + count };
            merged.set(k, updated);
            assert(detections_view(merged@) =~= m.update(k as int, (class@, (m[k as int].1 + count) as u64)));
        } else {
            merged.push(DetectionCount { class, count });
            assert(detections_view(merged@) =~= m.push(dv[i as int]));
        }
    }
    assert(dv.take(n as int) =~= dv);
    merged
}

proof fn lemma_total_prefix(ds: Seq<(Seq<char>, u64)>, k: int)
    requires
        0 <= k <= ds.len(),
    ensures
        0 <= total(ds.take(k)) <= total(ds),
    decreases ds.len() - k,
{
    if k < ds.len() {
        lemma_total_prefix(ds, k + 1);
        assert(ds.take(k + 1).drop_last() =~= ds.take(k));
        lemma_total_nonneg(ds.take(k));
    } else {
        assert(ds.take(k) =~= ds);
        lemma_total_nonneg(ds);
    }
}

proof fn lemma_total_nonneg(ds: Seq<(Seq<char>, u64)>)
    ensures
        0 <= total(ds),
    decreases ds.len(),
{
    if ds.len() > 0 {
        lemma_total_nonneg(ds.drop_last());
    }
}

} // verus!
