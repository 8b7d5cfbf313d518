//! The bookkeeping of the session registry: the live handles, the index of
//! persisted sessions, and the sessions whose recovery is blocked.

use std::sync::Arc;

use vstd::prelude::*;
use vstd::string::StringExecFns;

use super::{SessionHandle, SessionKey, StoreError};
use crate::crypto::{
    decrypt_session_payload, envelope_framed, envelope_plaintext, session_key_spec, KEY_LEN,
};
use crate::policies::keyed::{
    lemma_str_lt_irreflexive, lemma_str_lt_total, lemma_str_lt_transitive, str_less, str_lt,
};
use super::namespace_spec;

verus! {

/// A session key as a pair of strings.
pub open spec fn key_view(k: SessionKey) -> (Seq<char>, Seq<char>) {
    (k.profile_id@, k.session_id@)
}

/// The order of session keys: by profile id, then by session id.
pub open spec fn key_lt(a: (Seq<char>, Seq<char>), b: (Seq<char>, Seq<char>)) -> bool {
    str_lt(a.0, b.0) || (a.0 == b.0 && str_lt(a.1, b.1))
}

proof fn lemma_key_lt_irreflexive(a: (Seq<char>, Seq<char>))
    ensures
        !key_lt(a, a),
{
    lemma_str_lt_irreflexive(a.0);
    lemma_str_lt_irreflexive(a.1);
}

proof fn lemma_key_lt_transitive(
    a: (Seq<char>, Seq<char>),
    b: (Seq<char>, Seq<char>),
    c: (Seq<char>, Seq<char>),
)
    requires
        key_lt(a, b),
        key_lt(b, c),
    ensures
        key_lt(a, c),
{
    if str_lt(a.0, b.0) && str_lt(b.0, c.0) {
        lemma_str_lt_transitive(a.0, b.0, c.0);
    } else if str_lt(a.0, b.0) {
    } else if str_lt(b.0, c.0) {
    } else {
        lemma_str_lt_transitive(a.1, b.1, c.1);
    }
}

proof fn lemma_key_lt_total(a: (Seq<char>, Seq<char>), b: (Seq<char>, Seq<char>))
    ensures
        a == b || key_lt(a, b) || key_lt(b, a),
{
    lemma_str_lt_total(a.0, b.0);
    lemma_str_lt_total(a.1, b.1);
}

/// Whether `a` orders before `b`.
pub fn key_less(a: &SessionKey, b: &SessionKey) -> (r: bool)
    ensures
        r == key_lt(key_view(*a), key_view(*b)),
{
    if str_less(a.profile_id.as_str(), b.profile_id.as_str()) {
        true
    } else if a.profile_id == b.profile_id {
        str_less(a.session_id.as_str(), b.session_id.as_str())
    } else {
        false
    }
}

/// A copy of a key.
pub fn copy_key(k: &SessionKey) -> (r: SessionKey)
    ensures
        key_view(r) == key_view(*k),
{
    SessionKey { profile_id: k.profile_id.clone(), session_id: k.session_id.clone() }
}

pub open spec fn keys_view(ks: Seq<SessionKey>) -> Seq<(Seq<char>, Seq<char>)> {
    Seq::new(ks.len(), |i: int| key_view(ks[i]))
}

pub open spec fn strictly_sorted(s: Seq<(Seq<char>, Seq<char>)>) -> bool {
    forall|i: int, j: int| 0 <= i < j < s.len() ==> key_lt(#[trigger] s[i], #[trigger] s[j])
}

/// A set of session keys, kept in key order.
pub struct SessionIndex {
    keys: Vec<SessionKey>,
}

impl SessionIndex {
    /// The keys, ascending.
    pub closed spec fn ordered(&self) -> Seq<(Seq<char>, Seq<char>)> {
        keys_view(self.keys@)
    }

    pub closed spec fn wf(&self) -> bool {
        strictly_sorted(self.ordered())
    }

    /// The keys, as a set.
    pub open spec fn view(&self) -> Set<(Seq<char>, Seq<char>)> {
        self.ordered().to_set()
    }

    pub fn new() -> (r: Self)
        ensures
            r.wf(),
            r@ == Set::<(Seq<char>, Seq<char>)>::empty(),
    {
        let r = SessionIndex { keys: Vec::new() };
        assert(r.ordered() =~= Seq::<(Seq<char>, Seq<char>)>::empty());
        assert(r@ =~= Set::<(Seq<char>, Seq<char>)>::empty());
        r
    }

    /// The index of a list of keys, duplicates collapsed.
    pub fn from_keys(keys: Vec<SessionKey>) -> (r: Self)
        ensures
            r.wf(),
            r@ == keys_view(keys@).to_set(),
    {
        let mut r = SessionIndex::new();
        let n = keys.len();
        for i in 0..n
            invariant
                n == keys@.len(),
                r.wf(),
                r@ == keys_view(keys@.take(i as int)).to_set(),
        {
            let ghost before = r@;
            r.insert(copy_key(&keys[i]));
            assert(keys_view(keys@.take(i + 1)) =~= keys_view(keys@.take(i as int)).push(
                key_view(keys@[i as int]),
            ));
            proof {
                keys_view(keys@.take(i as int)).lemma_push_to_set_commute(key_view(keys@[i as int]));
            }
        }
        assert(keys@.take(n as int) =~= keys@);
        r
    }

    /// Whether `key` is in the index.
    pub fn contains(&self, key: &SessionKey) -> (r: bool)
        ensures
            r == self@.contains(key_view(*key)),
    {
        let n = self.keys.len();
        for i in 0..n
            invariant
                n == self.keys@.len(),
                forall|j: int| 0 <= j < i ==> #[trigger] self.ordered()[j] != key_view(*key),
        {
            if self.keys[i].profile_id == key.profile_id && self.keys[i].session_id
                == key.session_id {
                assert(self.ordered()[i as int] == key_view(*key));
                return true;
            }
        }
        false
    }

    fn position(&self, key: &SessionKey) -> (r: usize)
        requires
            self.wf(),
        ensures
            r <= self.ordered().len(),
            forall|j: int| 0 <= j < r ==> key_lt(#[trigger] self.ordered()[j], key_view(*key)),
            r < self.ordered().len() ==> !key_lt(self.ordered()[r as int], key_view(*key)),
    {
        let n = self.keys.len();
        let mut i: usize = 0;
        while i < n && key_less(&self.keys[i], key)
            invariant
                n == self.keys@.len(),
                i <= n,
                forall|j: int| 0 <= j < i ==> key_lt(#[trigger] self.ordered()[j], key_view(*key)),
            decreases n - i,
        {
            assert(self.ordered()[i as int] == key_view(self.keys@[i as int]));
            i = i + 1;
        }
        i
    }

    /// Adds `key`; true when it was not there before.
    pub fn insert(&mut self, key: SessionKey) -> (r: bool)
        requires
            old(self).wf(),
        ensures
            final(self).wf(),
            final(self)@ == old(self)@.insert(key_view(key)),
            r == !old(self)@.contains(key_view(key)),
    {
        let ghost s = self.ordered();
        let ghost k = key_view(key);
        let i = self.position(&key);
        let present = i < self.keys.len() && self.keys[i].profile_id == key.profile_id
            && self.keys[i].session_id == key.session_id;
        proof {
            if i < s.len() {
                assert(s[i as int] == key_view(self.keys@[i as int]));
                lemma_key_lt_total(s[i as int], k);
            }
            assert forall|j: int| 0 <= j < s.len() && s[j] == k implies j == i by {
                if j < i {
                    lemma_key_lt_irreflexive(k);
                } else if j > i {
                    lemma_key_lt_transitive(k, s[i as int], s[j]);
                    lemma_key_lt_irreflexive(k);
                }
            }
        }
        if present {
            assert(s.to_set().insert(k) =~= s.to_set()) by {
                assert(s.contains(k)) by {
                    assert(s[i as int] == k);
                }
            }
            return false;
        }
        self.keys.insert(i, key);
        let ghost t = self.ordered();
        assert(t =~= s.insert(i as int, k));
        assert forall|a: int, b: int| 0 <= a < b < t.len() implies key_lt(
            #[trigger] t[a],
            #[trigger] t[b],
        ) by {
            if b < i {
            } else if a < i && b == i {
            } else if a < i && b > i {
                assert(t[b] == s[b - 1]);
                if b - 1 > i {
                    lemma_key_lt_transitive(k, s[i as int], s[b - 1]);
                }
                lemma_key_lt_transitive(t[a], k, t[b]);
            } else if a == i {
                assert(t[b] == s[b - 1]);
                if b - 1 > i {
                    lemma_key_lt_transitive(k, s[i as int], s[b - 1]);
                }
            } else {
                assert(t[a] == s[a - 1]);
                assert(t[b] == s[b - 1]);
            }
        }
        assert(t.to_set() =~= s.to_set().insert(k)) by {
            assert forall|x| #[trigger] t.to_set().contains(x) implies s.to_set().insert(k).contains(x) by {
                let w = choose|w: int| 0 <= w < t.len() && t[w] == x;
                if w < i {
                    assert(s[w] == x);
                } else if w > i {
                    assert(s[w - 1] == x);
                }
            }
            assert forall|x| #[trigger] s.to_set().insert(k).contains(x) implies t.to_set().contains(x) by {
                if x == k {
                    assert(t[i as int] == x);
                } else {
                    let w = choose|w: int| 0 <= w < s.len() && s[w] == x;
                    if w < i {
                        assert(t[w] == x);
                    } else {
                        assert(t[w + 1] == x);
                    }
                }
            }
        }
        assert(!s.to_set().contains(k)) by {
            if s.to_set().contains(k) {
                let w = choose|w: int| 0 <= w < s.len() && s[w] == k;
                assert(w == i);
            }
        }
        true
    }

    /// Drops `key`; true when it was there.
    pub fn remove(&mut self, key: &SessionKey) -> (r: bool)
        requires
            old(self).wf(),
        ensures
            final(self).wf(),
            final(self)@ == old(self)@.remove(key_view(*key)),
            r == old(self)@.contains(key_view(*key)),
    {
        let ghost s = self.ordered();
        let ghost k = key_view(*key);
        let i = self.position(key);
        let present = i < self.keys.len() && self.keys[i].profile_id == key.profile_id
            && self.keys[i].session_id == key.session_id;
        proof {
            if i < s.len() {
                assert(s[i as int] == key_view(self.keys@[i as int]));
            }
            assert forall|j: int| 0 <= j < s.len() && s[j] == k implies j == i by {
                if j < i {
                    lemma_key_lt_irreflexive(k);
                } else if j > i {
                    lemma_key_lt_total(s[i as int], k);
                    if key_lt(k, s[i as int]) {
                        lemma_key_lt_transitive(k, s[i as int], s[j]);
                    }
                    lemma_key_lt_irreflexive(k);
                }
            }
        }
        if !present {
            assert(!s.to_set().contains(k)) by {
                if s.to_set().contains(k) {
                    let w = choose|w: int| 0 <= w < s.len() && s[w] == k;
                    assert(w == i);
                }
            }
            assert(s.to_set().remove(k) =~= s.to_set());
            return false;
        }
        self.keys.remove(i);
        let ghost t = self.ordered();
        assert(t =~= s.remove(i as int));
        assert forall|a: int, b: int| 0 <= a < b < t.len() implies key_lt(
            #[trigger] t[a],
            #[trigger] t[b],
        ) by {
            if a < i && b >= i {
                assert(t[b] == s[b + 1]);
                lemma_key_lt_transitive(s[a], s[i as int], s[b + 1]);
            } else if a >= i {
                assert(t[a] == s[a + 1]);
                assert(t[b] == s[b + 1]);
            }
        }
        assert(t.to_set() =~= s.to_set().remove(k)) by {
            assert forall|x| #[trigger] t.to_set().contains(x) implies s.to_set().remove(k).contains(x) by {
                let w = choose|w: int| 0 <= w < t.len() && t[w] == x;
                let v = if w < i { w } else { w + 1 };
                assert(s[v] == x);
                if x == k {
                    assert(v == i);
                }
            }
            assert forall|x| #[trigger] s.to_set().remove(k).contains(x) implies t.to_set().contains(x) by {
                let w = choose|w: int| 0 <= w < s.len() && s[w] == x;
                if w < i {
                    assert(t[w] == x);
                } else {
                    assert(w != i);
                    assert(t[w - 1] == x);
                }
            }
        }
        assert(s.to_set().contains(k)) by {
            assert(s[i as int] == k);
        }
        true
    }

    /// The keys, ascending by profile id and then session id.
    pub fn sorted_keys(&self) -> (r: Vec<SessionKey>)
        ensures
            keys_view(r@) == self.ordered(),
    {
        let mut r: Vec<SessionKey> = Vec::new();
        let n = self.keys.len();
        for i in 0..n
            invariant
                n == self.keys@.len(),
                keys_view(r@) == self.ordered().take(i as int),
        {
            let ghost before = keys_view(r@);
            r.push(copy_key(&self.keys[i]));
            assert(keys_view(r@) =~= before.push(key_view(self.keys@[i as int])));
            assert(self.ordered().take(i + 1) =~= self.ordered().take(i as int).push(
                self.ordered()[i as int],
            ));
        }
        assert(self.ordered().take(n as int) =~= self.ordered());
        r
    }

    /// The listing order is ascending and lists each key of the index once.
    pub proof fn lemma_ordered(&self)
        requires
            self.wf(),
        ensures
            strictly_sorted(self.ordered()),
            self.ordered().to_set() == self@,
            self.ordered().no_duplicates(),
    {
        assert forall|i: int, j: int| 0 <= i < self.ordered().len() && 0 <= j < self.ordered().len() && i != j implies self.ordered()[i] != self.ordered()[j] by {
            if i < j {
                lemma_key_lt_irreflexive(self.ordered()[i]);
            } else {
                lemma_key_lt_irreflexive(self.ordered()[j]);
            }
        }
    }
}

/// The outcome of reading a session's snapshot file.
pub enum SnapshotRead {
    Found(Vec<u8>),
    Missing,
    Failed(std::io::Error),
}

/// `gaze::Session::new` with a conversation scope named by the session id;
/// a failure gives the error's message. The session draws fresh random
/// secrets, so nothing is stated of it; the second part reports, as a
/// ghost, the scope id it was given.
#[verifier::external_body]
fn new_conversation_session(session_id: &str) -> (r: (Result<gaze::Session, String>, Ghost<
    Seq<char>,
>))
    ensures
        r.1@ == session_id@,
{
    let given = Ghost(session_id@);
    match gaze::Session::new(gaze::Scope::Conversation(session_id.to_string())) {
        Ok(session) => (Ok(session), given),
        Err(err) => (Err(err.to_string()), given),
    }
}

/// `gaze::Session::import` of snapshot bytes; `None` when gaze refuses them.
/// Whether it accepts them depends on the clock as well (snapshots expire),
/// so nothing is stated of the outcome; the second part reports, as a
/// ghost, the bytes it was given.
#[verifier::external_body]
fn import_session(plaintext: Vec<u8>) -> (r: (Option<gaze::Session>, Ghost<Seq<u8>>))
    ensures
        r.1@ == plaintext@,
{
    let given = Ghost(plaintext@);
    (gaze::Session::import(gaze::SensitiveSnapshot::from(plaintext)).ok(), given)
}

/// A shared handle around a session (`Arc::new`, `Mutex::new`).
#[verifier::external_body]
fn new_handle(session: gaze::Session) -> Arc<SessionHandle> {
    Arc::new(SessionHandle { session: std::sync::Mutex::new(session) })
}

/// `gaze::Session::export` of the handle's session as bytes; a failure
/// gives the error's message, and a poisoned lock is a failure too
/// (`PoisonError`'s message).
#[verifier::external_body]
fn export_session(handle: &SessionHandle) -> Result<Vec<u8>, String> {
    let session = match handle.session.lock() {
        Ok(guard) => guard,
        Err(poisoned) => return Err(poisoned.to_string()),
    };
    match session.export() {
        Ok(snapshot) => Ok(snapshot.into_bytes()),
        Err(err) => Err(err.to_string()),
    }
}

/// std's wall-clock time, held opaquely.
#[verifier::external_type_specification]
#[verifier::external_body]
pub struct ExSystemTime(std::time::SystemTime);

/// What the sessions endpoints report of a session.
#[derive(Debug, Clone)]
pub struct SessionMetadata {
    pub profile_id: String,
    pub session_id: String,
    pub has_snapshot: bool,
    pub recovery_blocked: bool,
    pub updated_at: Option<std::time::SystemTime>,
    pub mapping_count: usize,
}

/// Where a live session came from.
pub enum SessionOrigin {
    /// Made new, with this conversation scope id.
    Fresh(Seq<char>),
    /// Imported from these snapshot bytes.
    Imported(Seq<u8>),
}

/// What the registry knows of its sessions.
pub struct SessionBookView {
    /// Sessions with a live handle.
    pub live: Set<(Seq<char>, Seq<char>)>,
    /// Sessions recorded in the persisted index.
    pub index: Set<(Seq<char>, Seq<char>)>,
    /// Sessions whose snapshot exists but could not be restored.
    pub blocked: Set<(Seq<char>, Seq<char>)>,
    /// Where each session that `restore` made live came from.
    pub origins: Map<(Seq<char>, Seq<char>), SessionOrigin>,
}

/// The live handles, the persisted index and the blocked sessions.
pub struct SessionBook {
    handles: Vec<(SessionKey, Arc<SessionHandle>)>,
    index: SessionIndex,
    blocked: SessionIndex,
    origins: Ghost<Map<(Seq<char>, Seq<char>), SessionOrigin>>,
}

pub open spec fn message_unknown_session(k: (Seq<char>, Seq<char>)) -> Seq<char> {
    "unknown session "@ + k.0 + "/"@ + k.1
}

impl SessionBook {
    closed spec fn live_keys(&self) -> Seq<(Seq<char>, Seq<char>)> {
        Seq::new(self.handles@.len(), |i: int| key_view(self.handles@[i].0))
    }

    pub closed spec fn view(&self) -> SessionBookView {
        SessionBookView {
            live: self.live_keys().to_set(),
            index: self.index@,
            blocked: self.blocked@,
            origins: self.origins@,
        }
    }

    /// Every key live in `self` other than `except` is still live in
    /// `other`, with the same handle.
    pub closed spec fn handles_kept_in(&self, other: &SessionBook, except: (Seq<char>, Seq<char>)) -> bool {
        forall|k: (Seq<char>, Seq<char>)|
            k != except && #[trigger] self@.live.contains(k) ==> other@.live.contains(k)
                && other.handle_of(k) == self.handle_of(k)
    }

    /// The handle held for `k`, if any.
    pub closed spec fn handle_of(&self, k: (Seq<char>, Seq<char>)) -> Arc<SessionHandle> {
        self.handles@[choose|i: int| 0 <= i < self.handles@.len() && #[trigger] key_view(self.handles@[i].0) == k].1
    }

    pub closed spec fn wf(&self) -> bool {
        &&& self.index.wf()
        &&& self.blocked.wf()
        &&& self.live_keys().no_duplicates()
    }

    /// A registry that knows the persisted `index` and holds no session yet.
    pub fn new(index: Vec<SessionKey>) -> (r: Self)
        ensures
            r.wf(),
            r@.live == Set::<(Seq<char>, Seq<char>)>::empty(),
            r@.index == keys_view(index@).to_set(),
            r@.blocked == Set::<(Seq<char>, Seq<char>)>::empty(),
    {
        let r = SessionBook {
            handles: Vec::new(),
            index: SessionIndex::from_keys(index),
            blocked: SessionIndex::new(),
            origins: Ghost(Map::empty()),
        };
        assert(r.live_keys() =~= Seq::<(Seq<char>, Seq<char>)>::empty());
        assert(r@.live =~= Set::<(Seq<char>, Seq<char>)>::empty());
        r
    }

    fn find(&self, key: &SessionKey) -> (r: Option<usize>)
        ensures
            r matches Some(i) ==> i < self.handles@.len() && key_view(self.handles@[i as int].0)
                == key_view(*key),
            r is None ==> !self.live_keys().contains(key_view(*key)),
    {
        let n = self.handles.len();
        for i in 0..n
            invariant
                n == self.handles@.len(),
                forall|j: int| 0 <= j < i ==> #[trigger] self.live_keys()[j] != key_view(*key),
        {
            if self.handles[i].0.profile_id == key.profile_id && self.handles[i].0.session_id
                == key.session_id {
                return Some(i);
            }
        }
        proof {
            if self.live_keys().contains(key_view(*key)) {
                let j = choose|j: int| 0 <= j < self.live_keys().len() && self.live_keys()[j] == key_view(*key);
                assert(self.live_keys()[j] != key_view(*key));
            }
        }
        None
    }

    /// The live handle of `key`, if it has one.
    pub fn cached(&self, key: &SessionKey) -> (r: Option<Arc<SessionHandle>>)
        requires
            self.wf(),
        ensures
            r is Some <==> self@.live.contains(key_view(*key)),
            r matches Some(h) ==> h == self.handle_of(key_view(*key)),
    {
        match self.find(key) {
            Some(i) => {
                proof {
                    self.lemma_handle_at(i as int);
                }
                Some(self.handles[i].1.clone())
            },
            None => None,
        }
    }

    proof fn lemma_handle_at(&self, i: int)
        requires
            self.wf(),
            0 <= i < self.handles@.len(),
        ensures
            self@.live.contains(key_view(self.handles@[i].0)),
            self.handle_of(key_view(self.handles@[i].0)) == self.handles@[i].1,
    {
        let k = key_view(self.handles@[i].0);
        assert(self.live_keys()[i] == k);
        let c = choose|c: int| 0 <= c < self.handles@.len() && #[trigger] key_view(self.handles@[c].0) == k;
        assert(self.live_keys()[c] == k);
    }

    /// Holds `handle` for `key`, unless a handle is already held for it; the
    /// handle held afterwards is returned.
    pub fn install(&mut self, key: SessionKey, handle: Arc<SessionHandle>) -> (r: Arc<SessionHandle>)
        requires
            old(self).wf(),
        ensures
            final(self).wf(),
            final(self)@.live == old(self)@.live.insert(key_view(key)),
            final(self)@.index == old(self)@.index,
            final(self)@.blocked == old(self)@.blocked,
            old(self)@.live.contains(key_view(key)) ==> r == old(self).handle_of(key_view(key)),
            !old(self)@.live.contains(key_view(key)) ==> r == handle,
            r == final(self).handle_of(key_view(key)),
            old(self).handles_kept_in(&*final(self), key_view(key)),
            final(self)@.origins == old(self)@.origins,
    {
        let ghost ob = *self;
        if let Some(existing) = self.cached(&key) {
            assert(self@.live.insert(key_view(key)) =~= self@.live);
            return existing;
        }
        let ghost k = key_view(key);
        let ghost before = self.live_keys();
        let ghost n = self.handles@.len();
        self.handles.push((key, handle.clone()));
        assert(self.live_keys() =~= before.push(k));
        proof {
            before.lemma_push_to_set_commute(k);
            assert(self.live_keys().no_duplicates()) by {
                assert forall|a: int, b: int| 0 <= a < self.live_keys().len() && 0 <= b < self.live_keys().len() && a != b implies self.live_keys()[a] != self.live_keys()[b] by {
                    if a == n {
                        assert(!before.contains(k));
                        assert(before[b] == self.live_keys()[b]);
                    } else if b == n {
                        assert(before[a] == self.live_keys()[a]);
                    }
                }
            }
            self.lemma_handle_at(n as int);
            assert forall|x: (Seq<char>, Seq<char>)| x != k && #[trigger] ob@.live.contains(x) implies self@.live.contains(x)
                && self.handle_of(x) == ob.handle_of(x) by {
                let i = choose|i: int| 0 <= i < before.len() && before[i] == x;
                ob.lemma_handle_at(i);
                assert(self.handles@[i] == ob.handles@[i]);
                self.lemma_handle_at(i);
            }
        }
        handle
    }

    /// Drops the live handle of `key`.
    pub fn drop_handle(&mut self, key: &SessionKey)
        requires
            old(self).wf(),
        ensures
            final(self).wf(),
            final(self)@.live == old(self)@.live.remove(key_view(*key)),
            final(self)@.index == old(self)@.index,
            final(self)@.blocked == old(self)@.blocked,
            final(self)@.origins == old(self)@.origins,
    {
        match self.find(key) {
            Some(i) => {
                let ghost before = self.live_keys();
                let ghost k = key_view(*key);
                self.handles.remove(i);
                assert(self.live_keys() =~= before.remove(i as int));
                assert(self@.live =~= before.to_set().remove(k)) by {
                    assert forall|x| #[trigger] self.live_keys().to_set().contains(x) implies before.to_set().remove(k).contains(x) by {
                        let w = choose|w: int| 0 <= w < self.live_keys().len() && self.live_keys()[w] == x;
                        let v = if w < i { w } else { w + 1 };
                        assert(before[v] == x);
                        assert(v != i);
                        assert(before[i as int] == k);
                        assert(before[v] != before[i as int]);
                    }
                    assert forall|x| #[trigger] before.to_set().remove(k).contains(x) implies self.live_keys().to_set().contains(x) by {
                        let w = choose|w: int| 0 <= w < before.len() && before[w] == x;
                        assert(w != i);
                        if w < i {
                            assert(self.live_keys()[w] == x);
                        } else {
                            assert(self.live_keys()[w - 1] == x);
                        }
                    }
                }
            },
            None => {
                assert(self@.live.remove(key_view(*key)) =~= self@.live);
            },
        }
    }

    /// Records `key` in the persisted index.
    pub fn record(&mut self, key: &SessionKey)
        requires
            old(self).wf(),
        ensures
            final(self).wf(),
            final(self)@.index == old(self)@.index.insert(key_view(*key)),
            final(self)@.live == old(self)@.live,
            final(self)@.blocked == old(self)@.blocked,
            old(self).handles_kept_in(&*final(self), key_view(*key)),
            final(self)@.origins == old(self)@.origins,
    {
        self.index.insert(copy_key(key));
    }

    /// Forgets a deleted session: it is no longer blocked nor indexed. True
    /// when the index changed.
    pub fn forget(&mut self, key: &SessionKey) -> (r: bool)
        requires
            old(self).wf(),
        ensures
            final(self).wf(),
            final(self)@.index == old(self)@.index.remove(key_view(*key)),
            final(self)@.blocked == old(self)@.blocked.remove(key_view(*key)),
            final(self)@.live == old(self)@.live,
            r == old(self)@.index.contains(key_view(*key)),
            old(self).handles_kept_in(&*final(self), key_view(*key)),
            final(self)@.origins == old(self)@.origins,
    {
        self.blocked.remove(key);
        self.index.remove(key)
    }

    /// Whether the registry knows `key`: indexed, or live.
    pub fn known(&self, key: &SessionKey) -> (r: bool)
        requires
            self.wf(),
        ensures
            r == (self@.index.contains(key_view(*key)) || self@.live.contains(key_view(*key))),
    {
        if self.index.contains(key) {
            return true;
        }
        match self.find(key) {
            Some(i) => {
                assert(self.live_keys()[i as int] == key_view(*key));
                true
            },
            None => false,
        }
    }

    /// Refuses a key the registry does not know.
    pub fn check_known(&self, key: &SessionKey) -> (r: Result<(), StoreError>)
        requires
            self.wf(),
        ensures
            r is Ok <==> (self@.index.contains(key_view(*key)) || self@.live.contains(
                key_view(*key),
            )),
            r matches Err(e) ==> (e matches StoreError::Session(m) && m@ == message_unknown_session(
                key_view(*key),
            )),
    {
        if self.known(key) {
            Ok(())
        } else {
            let m = String::from_str("unknown session ").concat(key.profile_id.as_str()).concat(
                "/",
            ).concat(key.session_id.as_str());
            Err(StoreError::Session(m))
        }
    }

    pub fn is_blocked(&self, key: &SessionKey) -> (r: bool)
        ensures
            r == self@.blocked.contains(key_view(*key)),
    {
        self.blocked.contains(key)
    }

    /// The indexed keys, ascending by profile id and then session id.
    pub fn index_keys(&self) -> (r: Vec<SessionKey>)
        requires
            self.wf(),
        ensures
            strictly_sorted(keys_view(r@)),
            keys_view(r@).to_set() == self@.index,
    {
        let r = self.index.sorted_keys();
        proof {
            self.index.lemma_ordered();
        }
        r
    }

    /// The metadata of `key`, given what the file system and the live
    /// session report: whether the snapshot exists and when it changed, and
    /// how many tokens the session maps.
    pub fn metadata(
        &self,
        key: &SessionKey,
        has_snapshot: bool,
        updated_at: Option<std::time::SystemTime>,
        mapping_count: usize,
    ) -> (r: SessionMetadata)
        ensures
            r.profile_id@ == key.profile_id@,
            r.session_id@ == key.session_id@,
            r.has_snapshot == has_snapshot,
            r.recovery_blocked == self@.blocked.contains(key_view(*key)),
            r.updated_at == updated_at,
            r.mapping_count == mapping_count,
    {
        SessionMetadata {
            profile_id: key.profile_id.clone(),
            session_id: key.session_id.clone(),
            has_snapshot,
            recovery_blocked: self.is_blocked(key),
            updated_at,
            mapping_count,
        }
    }

    /// Restores a session that holds no live handle from what reading its
    /// snapshot gave. A snapshot that cannot be opened or imported blocks
    /// the session's recovery; a restored one lifts the block; a missing one
    /// starts a new session.
    pub fn restore(
        &mut self,
        key: &SessionKey,
        master_key: &[u8; KEY_LEN],
        read: SnapshotRead,
    ) -> (r: Result<Arc<SessionHandle>, StoreError>)
        requires
            old(self).wf(),
        ensures
            final(self).wf(),
            final(self)@.index == old(self)@.index,
            r is Ok ==> final(self)@.live == old(self)@.live.insert(key_view(*key)),
            r matches Ok(h) ==> h == final(self).handle_of(key_view(*key)),
            r is Err ==> final(self)@.live == old(self)@.live,
            old(self).handles_kept_in(&*final(self), key_view(*key)),
            !(r is Ok && !old(self)@.live.contains(key_view(*key))) ==> final(self)@.origins == old(
                self,
            )@.origins,
            r is Ok && !old(self)@.live.contains(key_view(*key)) ==> final(self)@.origins == old(
                self,
            )@.origins.insert(
                key_view(*key),
                match read {
                    SnapshotRead::Found(ct) => SessionOrigin::Imported(
                        envelope_plaintext(
                            session_key_spec(master_key@, key.profile_id@, key.session_id@),
                            namespace_spec(key.profile_id@, key.session_id@),
                            ct@,
                        )->0,
                    ),
                    _ => SessionOrigin::Fresh(key.session_id@),
                },
            ),
            match read {
                SnapshotRead::Failed(_) => (r matches Err(StoreError::Io(_))) && final(self)@.blocked
                    == old(self)@.blocked,
                SnapshotRead::Missing => final(self)@.blocked == old(self)@.blocked && (r is Err ==> r matches Err(
                    StoreError::Session(_),
                )),
                SnapshotRead::Found(ct) => {
                    &&& (!envelope_framed(ct@) || envelope_plaintext(
                        session_key_spec(master_key@, key.profile_id@, key.session_id@),
                        namespace_spec(key.profile_id@, key.session_id@),
                        ct@,
                    ) is None) ==> r is Err
                    &&& r is Err ==> (r matches Err(StoreError::RecoveryBlocked)) && final(self)@.blocked
                        == old(self)@.blocked.insert(key_view(*key))
                    &&& r is Ok ==> final(self)@.blocked == old(self)@.blocked.remove(key_view(*key))
                        && envelope_framed(ct@) && envelope_plaintext(
                        session_key_spec(master_key@, key.profile_id@, key.session_id@),
                        namespace_spec(key.profile_id@, key.session_id@),
                        ct@,
                    ) is Some
                },
            },
    {
        let ghost was_live = self@.live.contains(key_view(*key));
        match read {
            SnapshotRead::Failed(err) => Err(StoreError::Io(err)),
            SnapshotRead::Missing => {
                let (made, given) = new_conversation_session(key.session_id.as_str());
                match made {
                    Ok(session) => {
                        let h = self.install(copy_key(key), new_handle(session));
                        proof {
                            if !was_live {
                                self.origins@ = self.origins@.insert(
                                    key_view(*key),
                                    SessionOrigin::Fresh(given@),
                                );
                            }
                        }
                        Ok(h)
                    },
                    Err(m) => Err(StoreError::Session(m)),
                }
            },
            SnapshotRead::Found(ciphertext) => {
                let restored = match decrypt_session_payload(
                    master_key,
                    key.profile_id.as_str(),
                    key.session_id.as_str(),
                    ciphertext.as_slice(),
                ) {
                    Ok(plaintext) => {
                        let (imported, given) = import_session(plaintext);
                        match imported {
                            Some(session) => Some((session, given)),
                            None => None,
                        }
                    },
                    Err(_) => None,
                };
                match restored {
                    Some((session, given)) => {
                        self.blocked.remove(key);
                        let h = self.install(copy_key(key), new_handle(session));
                        proof {
                            if !was_live {
                                self.origins@ = self.origins@.insert(
                                    key_view(*key),
                                    SessionOrigin::Imported(given@),
                                );
                            }
                        }
                        Ok(h)
                    },
                    None => {
                        self.blocked.insert(copy_key(key));
                        Err(StoreError::RecoveryBlocked)
                    },
                }
            },
        }
    }

    /// The sealed snapshot of a live session, ready to be written.
    pub fn envelope_for(&self, key: &SessionKey, master_key: &[u8; KEY_LEN]) -> (r: Result<
        Vec<u8>,
        StoreError,
    >)
        requires
            self.wf(),
        ensures
            !self@.live.contains(key_view(*key)) ==> (r matches Err(StoreError::Session(m)) && m@
                == "no active session"@),
            r matches Ok(e) ==> envelope_framed(e@) && envelope_plaintext(
                session_key_spec(master_key@, key.profile_id@, key.session_id@),
                namespace_spec(key.profile_id@, key.session_id@),
                e@,
            ) is Some,
    {
        let handle = match self.cached(key) {
            Some(h) => h,
            None => return Err(StoreError::Session(String::from_str("no active session"))),
        };
        let plaintext = match export_session(&handle) {
            Ok(bytes) => bytes,
            Err(m) => return Err(StoreError::Session(m)),
        };
        if plaintext.len() > usize::MAX - 16 {
            return Err(StoreError::Encrypt);
        }
        crate::crypto::encrypt_session_payload(
            master_key,
            key.profile_id.as_str(),
            key.session_id.as_str(),
            plaintext.as_slice(),
        )
    }
}

} // verus!
