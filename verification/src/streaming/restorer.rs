//! Per-lane carry buffers that hold back a possible token prefix until the
//! next chunk shows whether it completes an owned token.

use std::sync::Arc;

use vstd::prelude::*;
use vstd::string::StringExecFns;

use crate::sessions::SessionHandle;
use crate::text::{chars_of, chars_range, concat_chars, is_proper_prefix, string_from_chars};

verus! {

/// Errors of a restoring stream.
#[derive(Debug, Clone, Copy, PartialEq, Eq, Structural)]
pub enum StreamError {
    DuplicateSequence,
    SkippedSequence,
    StrictRestore,
    UnknownStream,
    AlreadyOpen,
}

/// The wire code of each stream error.
pub open spec fn stream_error_code(e: StreamError) -> Seq<char> {
    match e {
        StreamError::DuplicateSequence => "duplicate_sequence"@,
        StreamError::SkippedSequence => "skipped_sequence"@,
        StreamError::StrictRestore => "strict_restore_failed"@,
        StreamError::UnknownStream => "unknown_stream"@,
        StreamError::AlreadyOpen => "stream_already_open"@,
    }
}

impl StreamError {
    pub fn code(&self) -> (c: &'static str)
        ensures
            c@ == stream_error_code(*self),
    {
        match self {
            StreamError::DuplicateSequence => "duplicate_sequence",
            StreamError::SkippedSequence => "skipped_sequence",
            StreamError::StrictRestore => "strict_restore_failed",
            StreamError::UnknownStream => "unknown_stream",
            StreamError::AlreadyOpen => "stream_already_open",
        }
    }
}

/// The suffix of `text` of length `n` is a nonempty proper prefix of some token.
pub open spec fn is_pending(text: Seq<char>, tokens: Seq<Seq<char>>, n: int) -> bool {
    &&& 0 < n <= text.len()
    &&& exists|t: int|
        0 <= t < tokens.len() && is_proper_prefix(
            text.subrange(text.len() - n, text.len() as int),
            #[trigger] tokens[t],
        )
}

/// The largest length `m <= n` of a pending suffix of `text`, or 0 if there is none.
pub open spec fn held_upto(text: Seq<char>, tokens: Seq<Seq<char>>, n: nat) -> nat
    decreases n,
{
    if n == 0 {
        0
    } else if is_pending(text, tokens, n as int) {
        n
    } else {
        held_upto(text, tokens, (n - 1) as nat)
    }
}

/// How many trailing characters of `text` are held back: the length of the
/// longest nonempty suffix that is a proper prefix of an owned token, or 0.
pub open spec fn held_len(text: Seq<char>, tokens: Seq<Seq<char>>) -> nat {
    held_upto(text, tokens, text.len())
}

/// One step of a lane: the carry grows by `chunk`; the held suffix stays as
/// the new carry and the rest is released for restoration.
pub open spec fn lane_step(carry: Seq<char>, chunk: Seq<char>, tokens: Seq<Seq<char>>) -> (
    Seq<char>,
    Seq<char>,
) {
    let pending = carry + chunk;
    let keep = pending.len() - held_len(pending, tokens);
    (pending.subrange(0, keep), pending.subrange(keep, pending.len() as int))
}

/// A carry that a lane may hold between chunks: empty, or held back whole.
pub open spec fn carry_ok(carry: Seq<char>, tokens: Seq<Seq<char>>) -> bool {
    carry.len() == 0 || held_len(carry, tokens) == carry.len()
}

/// The carry of lane `kind`; a lane never fed has an empty carry.
pub open spec fn carry_of(lanes: Seq<(Seq<char>, Seq<char>)>, kind: Seq<char>) -> Seq<char> {
    if exists|i: int| 0 <= i < lanes.len() && #[trigger] lanes[i].0 == kind {
        lanes[choose|i: int| 0 <= i < lanes.len() && #[trigger] lanes[i].0 == kind].1
    } else {
        Seq::empty()
    }
}

pub open spec fn distinct_kinds(lanes: Seq<(Seq<char>, Seq<char>)>) -> bool {
    forall|i: int, j: int|
        0 <= i < lanes.len() && 0 <= j < lanes.len() && i != j ==> #[trigger] lanes[i].0
            != #[trigger] lanes[j].0
}

/// What a restorer is, abstractly.
pub struct RestorerState {
    /// The session the stream restores through.
    pub handle: Arc<SessionHandle>,
    /// The tokens the restorer holds back prefixes of.
    pub tokens: Seq<Seq<char>>,
    /// The tokens the session reported owning when the stream was opened
    /// (`gaze::Session::tokens`), in the order it reported them.
    pub owned: Seq<Seq<char>>,
    /// Each lane's kind and carry, in the order the lanes were first fed.
    pub lanes: Seq<(Seq<char>, Seq<char>)>,
    /// The sequence number the next chunk must carry.
    pub next_seq: u64,
    pub finished: bool,
    /// Every text handed to the session for restoration, with its lane.
    pub released: Seq<(Seq<char>, Seq<char>)>,
}

struct Lane {
    kind: String,
    carry: Vec<char>,
}

/// Restores session tokens in a chunked stream, per lane, without ever
/// handing a partial token to the session.
pub struct StreamRestorer {
    handle: Arc<SessionHandle>,
    tokens: Vec<Vec<char>>,
    lanes: Vec<Lane>,
    next_seq: u64,
    finished: bool,
    released: Ghost<Seq<(Seq<char>, Seq<char>)>>,
    owned: Ghost<Seq<Seq<char>>>,
}

pub open spec fn tokens_view(tokens: Seq<Vec<char>>) -> Seq<Seq<char>> {
    Seq::new(tokens.len(), |i: int| tokens[i]@)
}

spec fn lanes_view(lanes: Seq<Lane>) -> Seq<(Seq<char>, Seq<char>)> {
    Seq::new(lanes.len(), |i: int| (lanes[i].kind@, lanes[i].carry@))
}

proof fn lemma_held_upto(text: Seq<char>, tokens: Seq<Seq<char>>, n: nat)
    requires
        n <= text.len(),
    ensures
        held_upto(text, tokens, n) == 0 ==> forall|m: int| 1 <= m <= n ==> !is_pending(text, tokens, m),
        held_upto(text, tokens, n) > 0 ==> {
            &&& held_upto(text, tokens, n) <= n
            &&& is_pending(text, tokens, held_upto(text, tokens, n) as int)
            &&& forall|m: int| held_upto(text, tokens, n) < m <= n ==> !is_pending(text, tokens, m)
        },
    decreases n,
{
    if n > 0 && !is_pending(text, tokens, n as int) {
        lemma_held_upto(text, tokens, (n - 1) as nat);
    }
}

/// The carry that a lane step keeps is held back whole by the next step.
proof fn lemma_kept_carry_ok(pending: Seq<char>, tokens: Seq<Seq<char>>)
    ensures
        carry_ok(
            pending.subrange(pending.len() - held_len(pending, tokens), pending.len() as int),
            tokens,
        ),
{
    let h = held_len(pending, tokens);
    let c = pending.subrange(pending.len() - h, pending.len() as int);
    lemma_held_upto(pending, tokens, pending.len());
    if h > 0 {
        assert(c.subrange(c.len() - h, c.len() as int) =~= pending.subrange(
            pending.len() - h,
            pending.len() as int,
        ));
        assert(is_pending(c, tokens, h as int));
    }
}

/// Whether the last `n` characters of `text` are a proper prefix of some token.
fn suffix_is_pending(text: &Vec<char>, tokens: &Vec<Vec<char>>, n: usize) -> (r: bool)
    requires
        0 < n <= text@.len(),
    ensures
        r == is_pending(text@, tokens_view(tokens@), n as int),
{
    let len = text.len();
    let start = len - n;
    let ghost suffix = text@.subrange(start as int, len as int);
    let ghost tv = tokens_view(tokens@);
    let count = tokens.len();
    for t in 0..count
        invariant
            len == text@.len(),
            start == len - n,
            0 < n <= len,
            count == tokens@.len(),
            tv == tokens_view(tokens@),
            suffix == text@.subrange(start as int, len as int),
            forall|k: int| 0 <= k < t ==> !is_proper_prefix(suffix, #[trigger] tv[k]),
    {
        let token = &tokens[t];
        if token.len() > n {
            let mut j: usize = 0;
            let mut same = true;
            while j < n
                invariant
                    len == text@.len(),
                    start == len - n,
                    0 < n <= len,
                    n < token@.len(),
                    j <= n,
                    same == (forall|m: int| 0 <= m < j ==> token@[m] == text@[start + m]),
                decreases n - j,
            {
                if token[j] != text[start + j] {
                    same = false;
                }
                j += 1;
            }
            if same {
                assert(token@.subrange(0, n as int) =~= suffix);
                assert(is_proper_prefix(suffix, tv[t as int]));
                return true;
            }
            assert(!is_proper_prefix(suffix, tv[t as int])) by {
                let w = choose|m: int| 0 <= m < n && token@[m] != text@[start + m];
                assert(token@.subrange(0, n as int)[w] == token@[w]);
                assert(suffix[w] == text@[start + w]);
            }
        }
    }
    false
}

/// The number of trailing characters of `text` held back: the length of the
/// longest nonempty suffix that is a proper prefix of one of `tokens`, or 0.
pub fn longest_owned_token_prefix_suffix(text: &Vec<char>, tokens: &Vec<Vec<char>>) -> (n: usize)
    ensures
        n == held_len(text@, tokens_view(tokens@)),
{
    let ghost tv = tokens_view(tokens@);
    let mut k = text.len();
    while k > 0
        invariant
            k <= text@.len(),
            tv == tokens_view(tokens@),
            held_len(text@, tv) == held_upto(text@, tv, k as nat),
        decreases k,
    {
        if suffix_is_pending(text, tokens, k) {
            return k;
        }
        k -= 1;
    }
    0
}

proof fn lemma_carry_of_at(lanes: Seq<(Seq<char>, Seq<char>)>, i: int)
    requires
        distinct_kinds(lanes),
        0 <= i < lanes.len(),
    ensures
        carry_of(lanes, lanes[i].0) == lanes[i].1,
{
    let k = lanes[i].0;
    assert(exists|j: int| 0 <= j < lanes.len() && #[trigger] lanes[j].0 == k);
    let c = choose|j: int| 0 <= j < lanes.len() && #[trigger] lanes[j].0 == k;
    if c != i {
        assert(lanes[c].0 != lanes[i].0);
    }
}

proof fn lemma_carry_of_absent(lanes: Seq<(Seq<char>, Seq<char>)>, k: Seq<char>)
    requires
        forall|j: int| 0 <= j < lanes.len() ==> #[trigger] lanes[j].0 != k,
    ensures
        carry_of(lanes, k) == Seq::<char>::empty(),
{
}

/// Replacing (or adding) the lane `kind` changes the carry of that lane only.
proof fn lemma_carry_of_replaced(
    old_lanes: Seq<(Seq<char>, Seq<char>)>,
    new_lanes: Seq<(Seq<char>, Seq<char>)>,
    kind: Seq<char>,
    carry: Seq<char>,
)
    requires
        distinct_kinds(old_lanes),
        distinct_kinds(new_lanes),
        (exists|i: int|
            0 <= i < old_lanes.len() && old_lanes[i].0 == kind && new_lanes == old_lanes.update(
                i,
                (kind, carry),
            )) || ((forall|j: int| 0 <= j < old_lanes.len() ==> #[trigger] old_lanes[j].0 != kind)
            && new_lanes == old_lanes.push((kind, carry))),
    ensures
        carry_of(new_lanes, kind) == carry,
        forall|k: Seq<char>| k != kind ==> carry_of(new_lanes, k) == carry_of(old_lanes, k),
{
    let n = if new_lanes.len() == old_lanes.len() {
        choose|i: int|
            0 <= i < old_lanes.len() && old_lanes[i].0 == kind && new_lanes == old_lanes.update(
                i,
                (kind, carry),
            )
    } else {
        old_lanes.len() as int
    };
    assert(new_lanes[n] == (kind, carry));
    lemma_carry_of_at(new_lanes, n);
    assert forall|k: Seq<char>| k != kind implies carry_of(new_lanes, k) == carry_of(
        old_lanes,
        k,
    ) by {
        if exists|j: int| 0 <= j < old_lanes.len() && #[trigger] old_lanes[j].0 == k {
            let j = choose|j: int| 0 <= j < old_lanes.len() && #[trigger] old_lanes[j].0 == k;
            assert(j != n);
            assert(new_lanes[j] == old_lanes[j]);
            lemma_carry_of_at(old_lanes, j);
            lemma_carry_of_at(new_lanes, j);
        } else {
            assert forall|j: int| 0 <= j < new_lanes.len() implies #[trigger] new_lanes[j].0 != k by {
                if j != n {
                    assert(new_lanes[j] == old_lanes[j]);
                }
            }
        }
    }
}

/// `restored` is what strict restoration of `text` gives
/// (`gaze::Session::restore_strict_text`): `text` with each owned token
/// replaced by the value the session holds for it. Which pairs hold
/// depends on the session's tokens at the time.
pub uninterp spec fn strict_restoration(text: Seq<char>, restored: Seq<char>) -> bool;

/// Asks the session to restore the owned tokens in `text`: a call of
/// `gaze::Session::restore_strict_text` under the handle's lock, whose
/// error becomes `StrictRestore`. What comes back is a strict restoration
/// of `text`; which one depends on the tokens the session holds at the time
/// of the call. A poisoned lock fails with `StrictRestore` too.
#[verifier::external_body]
pub(crate) fn restore(handle: &SessionHandle, text: &str) -> (r: Result<String, StreamError>)
    ensures
        r matches Err(e) ==> e == StreamError::StrictRestore,
        r matches Ok(s) ==> strict_restoration(text@, s@),
{
    let session = match handle.session.lock() {
        Ok(guard) => guard,
        Err(_) => return Err(StreamError::StrictRestore),
    };
    match session.restore_strict_text(text) {
        Ok(restored) => Ok(restored),
        Err(_) => Err(StreamError::StrictRestore),
    }
}

/// The tokens that the session owns now (`gaze::Session::tokens` under the
/// handle's lock). They depend on the session's state, so nothing is
/// stated. A poisoned lock is taken over as it is: holding back prefixes
/// needs every owned token, and no list at all would let partial tokens pass.
#[verifier::external_body]
fn session_tokens(handle: &SessionHandle) -> Vec<String> {
    let session = match handle.session.lock() {
        Ok(guard) => guard,
        Err(poisoned) => poisoned.into_inner(),
    };
    session.tokens()
}

/// The first lane, in order, that holds a nonempty carry.
pub open spec fn first_nonempty(lanes: Seq<(Seq<char>, Seq<char>)>, i: int) -> bool {
    &&& 0 <= i < lanes.len()
    &&& lanes[i].1.len() > 0
    &&& forall|j: int| 0 <= j < i ==> #[trigger] lanes[j].1.len() == 0
}

impl View for StreamRestorer {
    type V = RestorerState;

    closed spec fn view(&self) -> RestorerState {
        RestorerState {
            handle: self.handle,
            tokens: tokens_view(self.tokens@),
            owned: self.owned@,
            lanes: lanes_view(self.lanes@),
            next_seq: self.next_seq,
            finished: self.finished,
            released: self.released@,
        }
    }
}

impl StreamRestorer {
    /// The restorer's invariant: lane kinds are distinct, every carry is held
    /// back whole, and sequence numbers start at 1.
    pub closed spec fn wf(&self) -> bool {
        &&& distinct_kinds(self@.lanes)
        &&& self@.tokens == self@.owned
        &&& forall|i: int|
            0 <= i < self@.lanes.len() ==> carry_ok(#[trigger] self@.lanes[i].1, self@.tokens)
        &&& self.next_seq >= 1
    }
}

/// What feeding chunk `seq` of lane `kind` does to a restorer in state `old`.
pub open spec fn feed_outcome(
    old: RestorerState,
    new: RestorerState,
    seq: u64,
    kind: Seq<char>,
    chunk: Seq<char>,
    r: Result<String, StreamError>,
) -> bool {
    &&& new.handle == old.handle
    &&& new.tokens == old.tokens
    &&& new.owned == old.owned
    &&& old.finished ==> r == Err::<String, StreamError>(StreamError::SkippedSequence) && new == old
    &&& !old.finished && seq < old.next_seq ==> r == Err::<String, StreamError>(
        StreamError::DuplicateSequence,
    ) && new == old
    &&& !old.finished && seq > old.next_seq ==> r == Err::<String, StreamError>(
        StreamError::SkippedSequence,
    ) && new == old
    &&& !old.finished && seq == old.next_seq ==> {
        let step = lane_step(carry_of(old.lanes, kind), chunk, old.tokens);
        &&& new.next_seq == seq + 1
        &&& !new.finished
        &&& new.released == old.released.push((kind, step.0))
        &&& carry_of(new.lanes, kind) == step.1
        &&& forall|k: Seq<char>| k != kind ==> carry_of(new.lanes, k) == carry_of(old.lanes, k)
        &&& (exists|i: int|
            0 <= i < old.lanes.len() && old.lanes[i].0 == kind && new.lanes == old.lanes.update(
                i,
                (kind, step.1),
            )) || ((forall|j: int| 0 <= j < old.lanes.len() ==> #[trigger] old.lanes[j].0 != kind)
            && new.lanes == old.lanes.push((kind, step.1)))
        &&& r matches Err(e) ==> e == StreamError::StrictRestore
        &&& r matches Ok(s) ==> strict_restoration(step.0, s@)
    }
}

/// Feeding is defined unless the sequence counter would overflow.
pub open spec fn feed_allowed(old: RestorerState, seq: u64) -> bool {
    !old.finished && seq == old.next_seq ==> seq < u64::MAX
}

/// What a manager's feed does to a stream: a stream whose sequence
/// counter is full takes no further chunk and is left as it was; any
/// other feed is the restorer's.
pub open spec fn fed(
    old: RestorerState,
    new: RestorerState,
    seq: u64,
    kind: Seq<char>,
    chunk: Seq<char>,
    r: Result<String, StreamError>,
) -> bool {
    if feed_allowed(old, seq) {
        feed_outcome(old, new, seq, kind, chunk, r)
    } else {
        r == Err::<String, StreamError>(StreamError::SkippedSequence) && new == old
    }
}

/// What finishing does to a restorer in state `old`.
pub open spec fn finish_outcome(old: RestorerState, new: RestorerState, r: Result<(), StreamError>) -> bool {
    &&& new.handle == old.handle
    &&& new.tokens == old.tokens
    &&& new.owned == old.owned
    &&& new.next_seq == old.next_seq
    &&& new.released == old.released
    &&& old.finished ==> r is Ok && new == old
    &&& !old.finished && (forall|i: int| 0 <= i < old.lanes.len() ==> #[trigger] old.lanes[i].1.len() == 0)
        ==> r is Ok && new.finished && new.lanes == Seq::<(Seq<char>, Seq<char>)>::empty()
    &&& !old.finished && (exists|i: int| 0 <= i < old.lanes.len() && #[trigger] old.lanes[i].1.len() > 0)
        ==> r == Err::<(), StreamError>(StreamError::StrictRestore) && new == old
}

impl StreamRestorer {
    /// Opens a restorer over the tokens that the session owns now.
    pub fn new(handle: Arc<SessionHandle>) -> (r: Self)
        ensures
            r.wf(),
            r@.handle == handle,
            r@.lanes == Seq::<(Seq<char>, Seq<char>)>::empty(),
            r@.next_seq == 1,
            !r@.finished,
            r@.released == Seq::<(Seq<char>, Seq<char>)>::empty(),
            r@.tokens == r@.owned,
    {
        let raw = session_tokens(&*handle);
        let ghost owned = Seq::new(raw@.len(), |i: int| raw@[i]@);
        let mut tokens: Vec<Vec<char>> = Vec::new();
        let count = raw.len();
        for i in 0..count
            invariant
                count == raw@.len(),
                tokens@.len() == i,
                forall|j: int| 0 <= j < i ==> #[trigger] tokens@[j]@ == raw@[j]@,
        {
            tokens.push(chars_of(raw[i].as_str()));
        }
        assert(tokens_view(tokens@) =~= owned);
        let r = StreamRestorer {
            handle,
            tokens,
            lanes: Vec::new(),
            next_seq: 1,
            finished: false,
            released: Ghost(Seq::empty()),
            owned: Ghost(owned),
        };
        assert(r@.lanes =~= Seq::<(Seq<char>, Seq<char>)>::empty());
        r
    }

    /// Feeds chunk number `seq` of lane `kind`. Chunks must come numbered
    /// 1, 2, 3, ... across all lanes. The lane's carry grows by the chunk;
    /// its longest suffix that could still become an owned token is kept
    /// back, and the rest is handed to the session, whose restoration is
    /// returned.
    pub fn feed(&mut self, seq: u64, kind: &str, chunk: &str) -> (r: Result<String, StreamError>)
        requires
            old(self).wf(),
            feed_allowed(old(self)@, seq),
        ensures
            final(self).wf(),
            feed_outcome(old(self)@, final(self)@, seq, kind@, chunk@, r),
    {
        if self.finished {
            return Err(StreamError::SkippedSequence);
        }
        if seq == self.next_seq {
            self.next_seq = self.next_seq + 1;
        } else if seq < self.next_seq {
            return Err(StreamError::DuplicateSequence);
        } else {
            return Err(StreamError::SkippedSequence);
        }
        let ghost old_lanes = lanes_view(self.lanes@);
        let ghost tv = tokens_view(self.tokens@);
        let kind_s = String::from_str(kind);
        let chunk_c = chars_of(chunk);
        let n = self.lanes.len();
        let mut idx: usize = 0;
        let mut found = false;
        while !found && idx < n
            invariant
                n == self.lanes@.len(),
                idx <= n,
                old_lanes == lanes_view(self.lanes@),
                kind_s@ == kind@,
                found ==> idx < n && old_lanes[idx as int].0 == kind@,
                forall|j: int| 0 <= j < idx ==> #[trigger] old_lanes[j].0 != kind@,
            decreases n + 1 - idx - (if found { 1int } else { 0int }),
        {
            if self.lanes[idx].kind == kind_s {
                found = true;
            } else {
                idx += 1;
            }
        }
        proof {
            if !found {
                lemma_carry_of_absent(old_lanes, kind@);
            } else {
                lemma_carry_of_at(old_lanes, idx as int);
            }
        }
        let pending = if found {
            concat_chars(&self.lanes[idx].carry, &chunk_c)
        } else {
            assert(chunk_c@ =~= Seq::<char>::empty() + chunk_c@);
            chunk_c
        };
        assert(pending@ == carry_of(old_lanes, kind@) + chunk@);
        let held = longest_owned_token_prefix_suffix(&pending, &self.tokens);
        proof {
            lemma_held_upto(pending@, tv, pending@.len());
            lemma_kept_carry_ok(pending@, tv);
        }
        let keep = pending.len() - held;
        let safe = chars_range(&pending, 0, keep);
        let carry = chars_range(&pending, keep, pending.len());
        let ghost new_carry = carry@;
        if found {
            self.lanes.set(idx, Lane { kind: kind_s, carry });
            assert(lanes_view(self.lanes@) =~= old_lanes.update(idx as int, (kind@, new_carry)));
        } else {
            self.lanes.push(Lane { kind: kind_s, carry });
            assert(lanes_view(self.lanes@) =~= old_lanes.push((kind@, new_carry)));
        }
        proof {
            let nl = lanes_view(self.lanes@);
            assert(distinct_kinds(nl)) by {
                assert forall|i: int, j: int|
                    0 <= i < nl.len() && 0 <= j < nl.len() && i != j implies #[trigger] nl[i].0
                    != #[trigger] nl[j].0 by {
                    if found {
                        if i != idx && j != idx {
                            assert(nl[i] == old_lanes[i] && nl[j] == old_lanes[j]);
                        } else if i == idx {
                            assert(nl[j] == old_lanes[j]);
                            assert(nl[i].0 == old_lanes[idx as int].0);
                        } else {
                            assert(nl[i] == old_lanes[i]);
                            assert(nl[j].0 == old_lanes[idx as int].0);
                        }
                    } else {
                        if i < old_lanes.len() && j < old_lanes.len() {
                            assert(nl[i] == old_lanes[i] && nl[j] == old_lanes[j]);
                        } else if i == old_lanes.len() {
                            assert(nl[j] == old_lanes[j]);
                        } else {
                            assert(nl[i] == old_lanes[i]);
                        }
                    }
                }
            }
            assert forall|i: int| 0 <= i < nl.len() implies carry_ok(#[trigger] nl[i].1, tv) by {
                if found {
                    if i != idx {
                        assert(nl[i] == old_lanes[i]);
                    }
                } else if i < old_lanes.len() {
                    assert(nl[i] == old_lanes[i]);
                }
            }
            if found {
                assert(old_lanes[idx as int].0 == kind@);
            }
            lemma_carry_of_replaced(old_lanes, nl, kind@, new_carry);
        }
        let text = string_from_chars(&safe);
        proof {
            self.released@ = self.released@.push((kind@, safe@));
        }
        restore(&*self.handle, text.as_str())
    }

    /// Ends the stream. Every lane must have released all its text: a lane
    /// still holding back a token prefix fails with `StrictRestore`.
    pub fn finish(&mut self) -> (r: Result<(), StreamError>)
        requires
            old(self).wf(),
        ensures
            final(self).wf(),
            finish_outcome(old(self)@, final(self)@, r),
    {
        if self.finished {
            return Ok(());
        }
        let ghost old_lanes = lanes_view(self.lanes@);
        let ghost tv = tokens_view(self.tokens@);
        let n = self.lanes.len();
        for i in 0..n
            invariant
                n == self.lanes@.len(),
                old_lanes == lanes_view(self.lanes@),
                tv == tokens_view(self.tokens@),
                !self.finished,
                self.wf(),
                self@ == old(self)@,
                forall|j: int| 0 <= j < i ==> #[trigger] old_lanes[j].1.len() == 0,
        {
            if self.lanes[i].carry.len() > 0 {
                assert(carry_ok(old_lanes[i as int].1, tv));
                let held = longest_owned_token_prefix_suffix(&self.lanes[i].carry, &self.tokens);
                if held == self.lanes[i].carry.len() {
                    return Err(StreamError::StrictRestore);
                }
                let text = string_from_chars(&self.lanes[i].carry);
                restore(&*self.handle, text.as_str())?;
            }
        }
        self.lanes.clear();
        self.finished = true;
        assert(lanes_view(self.lanes@) =~= Seq::<(Seq<char>, Seq<char>)>::empty());
        Ok(())
    }
}

/// Feeding `chunks` one after another into a fresh lane: the text released
/// so far, and the carry left.
pub open spec fn lane_run(chunks: Seq<Seq<char>>, tokens: Seq<Seq<char>>) -> (Seq<char>, Seq<char>)
    decreases chunks.len(),
{
    if chunks.len() == 0 {
        (Seq::empty(), Seq::empty())
    } else {
        let prev = lane_run(chunks.drop_last(), tokens);
        let step = lane_step(prev.1, chunks.last(), tokens);
        (prev.0 + step.0, step.1)
    }
}

/// All of `chunks`, in order.
pub open spec fn joined(chunks: Seq<Seq<char>>) -> Seq<char>
    decreases chunks.len(),
{
    if chunks.len() == 0 {
        Seq::empty()
    } else {
        joined(chunks.drop_last()) + chunks.last()
    }
}

/// Owned tokens are delimited: no piece of a token that starts after its
/// first character, and no whole token, is a proper prefix of a token.
/// Tokens of the form `<Class_id>` have this shape.
pub open spec fn tokens_delimited(tokens: Seq<Seq<char>>) -> bool {
    forall|a: int, b: int, j: int, k: int|
        0 <= a < tokens.len() && 0 <= b < tokens.len() && 0 <= j < k <= tokens[a].len() && (j
            > 0 || k == tokens[a].len()) ==> !is_proper_prefix(
            #[trigger] tokens[a].subrange(j, k),
            #[trigger] tokens[b],
        )
}

proof fn lemma_step_parts(carry: Seq<char>, chunk: Seq<char>, tokens: Seq<Seq<char>>)
    ensures
        lane_step(carry, chunk, tokens).0 + lane_step(carry, chunk, tokens).1 == carry + chunk,
{
    let pending = carry + chunk;
    lemma_held_upto(pending, tokens, pending.len());
    let keep = pending.len() - held_len(pending, tokens);
    assert(pending.subrange(0, keep) + pending.subrange(keep, pending.len() as int) =~= pending);
}

/// No text is lost or repeated in a lane: what the lane has released, followed
/// by what it still holds back, is exactly what it was fed.
pub proof fn lane_text_is_conserved(chunks: Seq<Seq<char>>, tokens: Seq<Seq<char>>)
    ensures
        lane_run(chunks, tokens).0 + lane_run(chunks, tokens).1 == joined(chunks),
    decreases chunks.len(),
{
    if chunks.len() > 0 {
        let prev = lane_run(chunks.drop_last(), tokens);
        lane_text_is_conserved(chunks.drop_last(), tokens);
        lemma_step_parts(prev.1, chunks.last(), tokens);
        let step = lane_step(prev.1, chunks.last(), tokens);
        assert(prev.0 + step.0 + step.1 =~= prev.0 + (step.0 + step.1));
        assert(prev.0 + (prev.1 + chunks.last()) =~= (prev.0 + prev.1) + chunks.last());
    }
}

/// A token split across two chunks is never handed to the session in part:
/// the first chunk is held back whole, and the second releases the token
/// whole and leaves nothing behind.
pub proof fn split_token_is_released_whole(tokens: Seq<Seq<char>>, t: int, k: int)
    requires
        tokens_delimited(tokens),
        0 <= t < tokens.len(),
        0 < k < tokens[t].len(),
    ensures
        lane_step(Seq::empty(), tokens[t].subrange(0, k), tokens) == (
            Seq::<char>::empty(),
            tokens[t].subrange(0, k),
        ),
        lane_step(tokens[t].subrange(0, k), tokens[t].subrange(k, tokens[t].len() as int), tokens)
            == (tokens[t], Seq::<char>::empty()),
{
    let tok = tokens[t];
    let first = tok.subrange(0, k);
    let p1 = Seq::<char>::empty() + first;
    assert(p1 =~= first);
    assert(p1.subrange(p1.len() - k, p1.len() as int) =~= first);
    assert(is_proper_prefix(first, tok)) by {
        assert(tok.subrange(0, first.len() as int) =~= first);
    }
    assert(is_pending(p1, tokens, k));
    assert(p1.subrange(0, 0) =~= Seq::<char>::empty());
    assert(p1.subrange(0, p1.len() as int) =~= first);
    let p2 = first + tok.subrange(k, tok.len() as int);
    assert(p2 =~= tok);
    assert forall|m: int| 1 <= m <= tok.len() implies !is_pending(p2, tokens, m) by {
        assert(p2.subrange(p2.len() - m, p2.len() as int) =~= tok.subrange(
            tok.len() - m,
            tok.len() as int,
        ));
        assert forall|b: int| 0 <= b < tokens.len() implies !is_proper_prefix(
            p2.subrange(p2.len() - m, p2.len() as int),
            #[trigger] tokens[b],
        ) by {
            assert(!is_proper_prefix(tokens[t].subrange(tok.len() - m, tok.len() as int), tokens[b]));
        }
    }
    lemma_held_upto(p2, tokens, p2.len());
    assert(p2.subrange(0, p2.len() as int) =~= tok);
    assert(p2.subrange(p2.len() as int, p2.len() as int) =~= Seq::<char>::empty());
}

/// What a lane holds back is always empty or a proper prefix of an owned
/// token, so a finished stream never swallows restorable text.
pub proof fn carry_is_owned_token_prefix(r: &StreamRestorer, kind: Seq<char>)
    requires
        r.wf(),
    ensures
        carry_of(r@.lanes, kind).len() == 0 || exists|t: int|
            0 <= t < r@.tokens.len() && is_proper_prefix(
                carry_of(r@.lanes, kind),
                #[trigger] r@.tokens[t],
            ),
{
    let c = carry_of(r@.lanes, kind);
    if exists|i: int| 0 <= i < r@.lanes.len() && #[trigger] r@.lanes[i].0 == kind {
        let i = choose|i: int| 0 <= i < r@.lanes.len() && #[trigger] r@.lanes[i].0 == kind;
        assert(carry_ok(r@.lanes[i].1, r@.tokens));
        if c.len() > 0 {
            lemma_held_upto(c, r@.tokens, c.len());
            assert(c.subrange(c.len() - c.len(), c.len() as int) =~= c);
        }
    }
}

/// The open streams, by id.
pub struct StreamManager {
    streams: Vec<(String, StreamRestorer)>,
}

/// A stream found open in a manager; each use looks the stream up again.
pub struct StreamGuard {
    stream_id: String,
}

impl StreamManager {
    /// The ids of the open streams, in the order they were opened.
    pub closed spec fn ids(&self) -> Seq<Seq<char>> {
        Seq::new(self.streams@.len(), |i: int| self.streams@[i].0@)
    }

    /// The state of the `i`-th open stream.
    pub closed spec fn state(&self, i: int) -> RestorerState {
        self.streams@[i].1@
    }

    /// Ids are distinct and every stream is well formed.
    pub closed spec fn wf(&self) -> bool {
        &&& forall|i: int, j: int|
            0 <= i < self.ids().len() && 0 <= j < self.ids().len() && i != j ==> #[trigger] self.ids()[i]
                != #[trigger] self.ids()[j]
        &&& forall|i: int| 0 <= i < self.streams@.len() ==> #[trigger] self.streams@[i].1.wf()
    }

    pub fn new() -> (m: Self)
        ensures
            m.wf(),
            m.ids() == Seq::<Seq<char>>::empty(),
    {
        let m = StreamManager { streams: Vec::new() };
        assert(m.ids() =~= Seq::<Seq<char>>::empty());
        m
    }

    fn position(&self, stream_id: &str) -> (r: Option<usize>)
        ensures
            r matches Some(i) ==> i < self.ids().len() && self.ids()[i as int] == stream_id@,
            r is None ==> !self.ids().contains(stream_id@),
    {
        let id = String::from_str(stream_id);
        let n = self.streams.len();
        for i in 0..n
            invariant
                n == self.streams@.len(),
                id@ == stream_id@,
                forall|j: int| 0 <= j < i ==> self.ids()[j] != stream_id@,
        {
            if self.streams[i].0 == id {
                return Some(i);
            }
        }
        None
    }

    /// Registers `restorer` under `stream_id`, unless that id is open already.
    pub fn open(&mut self, stream_id: &str, restorer: StreamRestorer) -> (r: Result<(), StreamError>)
        requires
            old(self).wf(),
            restorer.wf(),
        ensures
            final(self).wf(),
            old(self).ids().contains(stream_id@) ==> r == Err::<(), StreamError>(
                StreamError::AlreadyOpen,
            ) && final(self).ids() == old(self).ids() && forall|i: int|
                0 <= i < old(self).ids().len() ==> final(self).state(i) == old(self).state(i),
            !old(self).ids().contains(stream_id@) ==> r is Ok && final(self).ids() == old(self).ids().push(stream_id@) && final(self).state(old(self).ids().len() as int)
                == restorer@ && forall|i: int|
                0 <= i < old(self).ids().len() ==> final(self).state(i) == old(self).state(i),
    {
        if self.position(stream_id).is_some() {
            return Err(StreamError::AlreadyOpen);
        }
        let ghost old_ids = self.ids();
        self.streams.push((String::from_str(stream_id), restorer));
        assert(self.ids() =~= old_ids.push(stream_id@));
        Ok(())
    }

    /// Whether a stream `stream_id` is open.
    pub fn contains(&self, stream_id: &str) -> (r: bool)
        ensures
            r == self.ids().contains(stream_id@),
    {
        self.position(stream_id).is_some()
    }

    /// A guard for stream `stream_id`, if it is open.
    pub fn get(&self, stream_id: &str) -> (r: Result<StreamGuard, StreamError>)
        ensures
            self.ids().contains(stream_id@) ==> (r matches Ok(g) && g.id() == stream_id@),
            !self.ids().contains(stream_id@) ==> r == Err::<StreamGuard, StreamError>(
                StreamError::UnknownStream,
            ),
    {
        if self.contains(stream_id) {
            Ok(StreamGuard { stream_id: String::from_str(stream_id) })
        } else {
            Err(StreamError::UnknownStream)
        }
    }

    /// Drops stream `stream_id` and all it holds.
    pub fn abort(&mut self, stream_id: &str) -> (r: Result<(), StreamError>)
        requires
            old(self).wf(),
        ensures
            final(self).wf(),
            !old(self).ids().contains(stream_id@) ==> r == Err::<(), StreamError>(
                StreamError::UnknownStream,
            ) && final(self).ids() == old(self).ids(),
            old(self).ids().contains(stream_id@) ==> r is Ok && exists|i: int|
                0 <= i < old(self).ids().len() && old(self).ids()[i] == stream_id@ && final(self).ids() == old(self).ids().remove(i),
            !final(self).ids().contains(stream_id@),
    {
        match self.position(stream_id) {
            None => Err(StreamError::UnknownStream),
            Some(i) => {
                let ghost old_ids = self.ids();
                let ghost old_streams = self.streams@;
                let _removed = self.streams.remove(i);
                assert(self.ids() =~= old_ids.remove(i as int));
                assert forall|j: int| 0 <= j < self.streams@.len() implies #[trigger] self.streams@[j].1.wf() by {
                    if j < i {
                        assert(self.streams@[j] == old_streams[j]);
                    } else {
                        assert(self.streams@[j] == old_streams[j + 1]);
                    }
                }
                assert(!self.ids().contains(stream_id@)) by {
                    if self.ids().contains(stream_id@) {
                        let j = choose|j: int| 0 <= j < self.ids().len() && self.ids()[j] == stream_id@;
                        if j < i {
                            assert(old_ids[j] == stream_id@);
                        } else {
                            assert(old_ids[j + 1] == stream_id@);
                        }
                    }
                }
                Ok(())
            },
        }
    }

    /// Feeds a chunk to stream `stream_id`.
    pub fn feed(&mut self, stream_id: &str, seq: u64, kind: &str, chunk: &str) -> (r: Result<
        String,
        StreamError,
    >)
        requires
            old(self).wf(),
        ensures
            final(self).wf(),
            final(self).ids() == old(self).ids(),
            !old(self).ids().contains(stream_id@) ==> r == Err::<String, StreamError>(
                StreamError::UnknownStream,
            ) && forall|i: int| 0 <= i < old(self).ids().len() ==> final(self).state(i) == old(self).state(i),
            old(self).ids().contains(stream_id@) ==> exists|i: int|
                0 <= i < old(self).ids().len() && old(self).ids()[i] == stream_id@ && fed(
                    old(self).state(i),
                    final(self).state(i),
                    seq,
                    kind@,
                    chunk@,
                    r,
                ) && forall|j: int|
                    0 <= j < old(self).ids().len() && j != i ==> final(self).state(j) == old(self).state(j),
    {
        match self.position(stream_id) {
            None => Err(StreamError::UnknownStream),
            Some(i) => {
                let ghost old_streams = self.streams@;
                if !self.streams[i].1.finished && seq == self.streams[i].1.next_seq && seq
                    == u64::MAX {
                    return Err(StreamError::SkippedSequence);
                }
                assert(feed_allowed(self.state(i as int), seq));
                let (id, mut restorer) = self.streams.remove(i);
                let r = restorer.feed(seq, kind, chunk);
                self.streams.insert(i, (id, restorer));
                proof {
                    assert forall|j: int| 0 <= j < self.streams@.len() && j != i implies self.streams@[j]
                        == old_streams[j] by {
                        if j < i {
                        } else {
                        }
                    }
                    assert(self.ids() =~= Seq::new(old_streams.len(), |k: int| old_streams[k].0@));
                }
                r
            },
        }
    }

    /// Finishes stream `stream_id`.
    pub fn finish(&mut self, stream_id: &str) -> (r: Result<(), StreamError>)
        requires
            old(self).wf(),
        ensures
            final(self).wf(),
            final(self).ids() == old(self).ids(),
            !old(self).ids().contains(stream_id@) ==> r == Err::<(), StreamError>(
                StreamError::UnknownStream,
            ) && forall|i: int| 0 <= i < old(self).ids().len() ==> final(self).state(i) == old(self).state(i),
            old(self).ids().contains(stream_id@) ==> exists|i: int|
                0 <= i < old(self).ids().len() && old(self).ids()[i] == stream_id@ && finish_outcome(
                    old(self).state(i),
                    final(self).state(i),
                    r,
                ) && forall|j: int|
                    0 <= j < old(self).ids().len() && j != i ==> final(self).state(j) == old(self).state(j),
    {
        match self.position(stream_id) {
            None => Err(StreamError::UnknownStream),
            Some(i) => {
                let ghost old_streams = self.streams@;
                let (id, mut restorer) = self.streams.remove(i);
                let r = restorer.finish();
                self.streams.insert(i, (id, restorer));
                proof {
                    assert forall|j: int| 0 <= j < self.streams@.len() && j != i implies self.streams@[j]
                        == old_streams[j] by {
                        if j < i {
                        } else {
                        }
                    }
                    assert(self.ids() =~= Seq::new(old_streams.len(), |k: int| old_streams[k].0@));
                }
                r
            },
        }
    }
}

impl Default for StreamManager {
    fn default() -> (m: Self)
        ensures
            m.wf(),
            m.ids() == Seq::<Seq<char>>::empty(),
    {
        StreamManager::new()
    }
}

impl StreamGuard {
    /// The id of the stream this guard was issued for.
    pub closed spec fn id(&self) -> Seq<char> {
        self.stream_id@
    }

    /// Feeds a chunk to this guard's stream of `manager`.
    pub fn feed(&self, manager: &mut StreamManager, seq: u64, kind: &str, chunk: &str) -> (r: Result<
        String,
        StreamError,
    >)
        requires
            old(manager).wf(),
        ensures
            final(manager).wf(),
            final(manager).ids() == old(manager).ids(),
            !old(manager).ids().contains(self.id()) ==> r == Err::<String, StreamError>(
                StreamError::UnknownStream,
            ),
            old(manager).ids().contains(self.id()) ==> exists|i: int|
                0 <= i < old(manager).ids().len() && old(manager).ids()[i] == self.id() && fed(
                    old(manager).state(i),
                    final(manager).state(i),
                    seq,
                    kind@,
                    chunk@,
                    r,
                ),
    {
        manager.feed(self.stream_id.as_str(), seq, kind, chunk)
    }

    /// Finishes this guard's stream of `manager`.
    pub fn finish(&self, manager: &mut StreamManager) -> (r: Result<(), StreamError>)
        requires
            old(manager).wf(),
        ensures
            final(manager).wf(),
            final(manager).ids() == old(manager).ids(),
            !old(manager).ids().contains(self.id()) ==> r == Err::<(), StreamError>(
                StreamError::UnknownStream,
            ),
            old(manager).ids().contains(self.id()) ==> exists|i: int|
                0 <= i < old(manager).ids().len() && old(manager).ids()[i] == self.id() && finish_outcome(
                    old(manager).state(i),
                    final(manager).state(i),
                    r,
                ),
    {
        manager.finish(self.stream_id.as_str())
    }
}

/// A token that the session owned when the stream opened, split in two and
/// fed as the first two chunks of a lane, is never handed to the session in
/// part: the first feed releases nothing, the second releases the whole
/// token and leaves nothing behind, and what comes back is its restoration.
pub proof fn owned_token_split_across_two_feeds(
    s0: RestorerState,
    s1: RestorerState,
    s2: RestorerState,
    kind: Seq<char>,
    t: int,
    k: int,
    r1: Result<String, StreamError>,
    r2: Result<String, StreamError>,
)
    requires
        s0.tokens == s0.owned,
        s0.lanes == Seq::<(Seq<char>, Seq<char>)>::empty(),
        !s0.finished,
        s0.next_seq == 1,
        tokens_delimited(s0.owned),
        0 <= t < s0.owned.len(),
        0 < k < s0.owned[t].len(),
        feed_outcome(s0, s1, 1, kind, s0.owned[t].subrange(0, k), r1),
        feed_outcome(s1, s2, 2, kind, s0.owned[t].subrange(k, s0.owned[t].len() as int), r2),
    ensures
        s1.released == s0.released.push((kind, Seq::<char>::empty())),
        r1 matches Ok(x) ==> strict_restoration(Seq::empty(), x@),
        s2.released == s1.released.push((kind, s0.owned[t])),
        r2 matches Ok(x) ==> strict_restoration(s0.owned[t], x@),
        carry_of(s2.lanes, kind) == Seq::<char>::empty(),
{
    let tok = s0.owned[t];
    split_token_is_released_whole(s0.tokens, t, k);
    assert(carry_of(s0.lanes, kind) == Seq::<char>::empty());
}

} // verus!
