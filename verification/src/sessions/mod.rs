//! Session keys, handles, snapshot naming and their errors.

pub mod registry;
pub mod store;

use sha2::{Digest, Sha256};
use vstd::prelude::*;
use vstd::string::StringExecFns;
use vstd::utf8::{
    char_is_scalar, encode_scalar, encode_utf8, encode_utf8_decode_utf8, has_width_1_encoding,
    has_width_2_encoding, has_width_3_encoding, is_scalar,
};

pub use store::StoreError;

use crate::text::{chars_contain, chars_of, hex_lower, hex_spec, occurs_in};

verus! {

/// The session type of the `gaze` crate, held opaquely.
#[verifier::external_type_specification]
#[verifier::external_body]
pub struct ExGazeSession(gaze::Session);

/// std's mutex, held opaquely.
#[verifier::external_type_specification]
#[verifier::external_body]
#[verifier::reject_recursive_types(T)]
pub struct ExStdMutex<T: ?Sized>(std::sync::Mutex<T>);

/// A live session shared between requests and streams.
pub struct SessionHandle {
    pub session: std::sync::Mutex<gaze::Session>,
}

/// Sessions are namespaced by profile and session; request ids never are.
#[derive(Debug, Clone, PartialEq, Eq, Hash)]
pub struct SessionKey {
    pub profile_id: String,
    pub session_id: String,
}

impl SessionKey {
    pub fn new(profile_id: &str, session_id: &str) -> (k: SessionKey)
        ensures
            k.profile_id@ == profile_id@,
            k.session_id@ == session_id@,
    {
        SessionKey { profile_id: String::from_str(profile_id), session_id: String::from_str(session_id) }
    }
}

/// The first bytes of every session namespace: `gaze-hermes-session-v1\0`.
pub const AAD_PREFIX: [u8; 23] = [
    103, 97, 122, 101, 45, 104, 101, 114, 109, 101, 115, 45, 115, 101, 115, 115, 105, 111, 110, 45,
    118, 49, 0,
];

/// The namespace of a session: the prefix, the profile id's UTF-8 bytes, a
/// zero byte, and the session id's UTF-8 bytes.
pub open spec fn namespace_spec(profile_id: Seq<char>, session_id: Seq<char>) -> Seq<u8> {
    AAD_PREFIX@ + encode_utf8(profile_id) + seq![0u8] + encode_utf8(session_id)
}

proof fn lemma_scalar_bytes_nonzero(v: u32)
    requires
        is_scalar(v),
        v != 0,
    ensures
        forall|i: int| 0 <= i < encode_scalar(v).len() ==> encode_scalar(v)[i] != 0,
{
    if has_width_1_encoding(v) {
        assert(((v & 0x7F) as u8) != 0) by (bit_vector)
            requires
                1 <= v <= 0x7F,
        ;
    } else {
        assert(0xC0u8 | ((v >> 6) & 0x1F) as u8 != 0) by (bit_vector);
        assert(0xE0u8 | ((v >> 12) & 0x0F) as u8 != 0) by (bit_vector);
        assert(0xF0u8 | ((v >> 18) & 0x7) as u8 != 0) by (bit_vector);
        assert(0x80u8 | (v & 0x3F) as u8 != 0) by (bit_vector);
        assert(0x80u8 | ((v >> 6) & 0x3F) as u8 != 0) by (bit_vector);
        assert(0x80u8 | ((v >> 12) & 0x3F) as u8 != 0) by (bit_vector);
        if has_width_2_encoding(v) {
        } else if has_width_3_encoding(v) {
        } else {
        }
    }
}

/// The UTF-8 encoding of a text without NUL characters holds no zero byte.
proof fn lemma_encode_no_zero(p: Seq<char>)
    requires
        !p.contains('\0'),
    ensures
        forall|j: int| 0 <= j < encode_utf8(p).len() ==> encode_utf8(p)[j] != 0,
    decreases p.len(),
{
    if p.len() > 0 {
        let c = p[0];
        assert(c != '\0') by {
            if c == '\0' {
                assert(p.contains('\0'));
            }
        }
        char_is_scalar(c);
        assert((c as u32) != 0) by {
            vstd::utf8::char_u32_cast(c, c as u32);
            if c as u32 == 0 {
                assert((0u32 as char) == c);
                assert(('\0' as u32) == 0);
                vstd::utf8::char_u32_cast('\0', 0u32);
            }
        }
        lemma_scalar_bytes_nonzero(c as u32);
        let rest = p.drop_first();
        assert(!rest.contains('\0')) by {
            if rest.contains('\0') {
                let k = choose|k: int| 0 <= k < rest.len() && rest[k] == '\0';
                assert(p[k + 1] == '\0');
            }
        }
        lemma_encode_no_zero(rest);
        let head = encode_scalar(c as u32);
        assert forall|j: int| 0 <= j < encode_utf8(p).len() implies encode_utf8(p)[j] != 0 by {
            if j < head.len() {
                assert(encode_utf8(p)[j] == head[j]);
            } else {
                assert(encode_utf8(p)[j] == encode_utf8(rest)[j - head.len()]);
            }
        }
    }
}

/// Two sessions share a namespace only when they are the same session:
/// the namespace determines the profile id and the session id, as long as
/// profile ids hold no NUL character (the separator).
pub proof fn namespaces_are_distinct(p1: Seq<char>, s1: Seq<char>, p2: Seq<char>, s2: Seq<char>)
    requires
        !p1.contains('\0'),
        !p2.contains('\0'),
        namespace_spec(p1, s1) == namespace_spec(p2, s2),
    ensures
        p1 == p2,
        s1 == s2,
{
    let n = namespace_spec(p1, s1);
    let e1 = encode_utf8(p1);
    let e2 = encode_utf8(p2);
    let f1 = encode_utf8(s1);
    let f2 = encode_utf8(s2);
    let a = AAD_PREFIX@;
    lemma_encode_no_zero(p1);
    lemma_encode_no_zero(p2);
    assert(a.len() == 23);
    let k1: int = 23 + e1.len() as int;
    let k2: int = 23 + e2.len() as int;
    assert(n == a + e1 + seq![0u8] + f1);
    assert(n == a + e2 + seq![0u8] + f2);
    assert(n[k1] == 0u8);
    assert(n[k2] == 0u8);
    if k1 < k2 {
        assert(n[k1] == e2[k1 - 23]);
    }
    if k2 < k1 {
        assert(n[k2] == e1[k2 - 23]);
    }
    assert(k1 == k2);
    assert(e1 =~= n.subrange(23, k1));
    assert(e2 =~= n.subrange(23, k2));
    assert(f1 =~= n.skip(k1 + 1));
    assert(f2 =~= n.skip(k2 + 1));
    encode_utf8_decode_utf8(p1);
    encode_utf8_decode_utf8(p2);
    encode_utf8_decode_utf8(s1);
    encode_utf8_decode_utf8(s2);
}

fn push_bytes(out: &mut Vec<u8>, bytes: &[u8])
    ensures
        final(out)@ == old(out)@ + bytes@,
{
    let n = bytes.len();
    let ghost start = out@;
    for i in 0..n
        invariant
            n == bytes@.len(),
            out@ == start + bytes@.take(i as int),
    {
        out.push(bytes[i]);
        assert(start + bytes@.take(i + 1) =~= (start + bytes@.take(i as int)).push(bytes@[i as int]));
    }
    assert(bytes@.take(n as int) =~= bytes@);
}

pub fn namespace_bytes(profile_id: &str, session_id: &str) -> (out: Vec<u8>)
    ensures
        out@ == namespace_spec(profile_id@, session_id@),
{
    let mut out: Vec<u8> = Vec::new();
    push_bytes(&mut out, &AAD_PREFIX);
    push_bytes(&mut out, profile_id.as_bytes());
    out.push(0);
    push_bytes(&mut out, session_id.as_bytes());
    out
}

/// SHA-256 of `data`.
pub uninterp spec fn sha256_spec(data: Seq<u8>) -> Seq<u8>;

/// `Sha256::digest` from the `sha2` crate: the 32-byte SHA-256 digest.
#[verifier::external_body]
pub(crate) fn sha256_digest(data: &[u8]) -> (d: Vec<u8>)
    ensures
        d@ == sha256_spec(data@),
        d@.len() == 32,
{
    Sha256::digest(data).to_vec()
}

/// The snapshot file of a session: the lowercase hex SHA-256 of its
/// namespace, then `.enc`. Request ids take no part in it.
pub fn snapshot_file_name(key: &SessionKey) -> (name: String)
    ensures
        name@ == hex_spec(sha256_spec(namespace_spec(key.profile_id@, key.session_id@)))
            + ".enc"@,
{
    let ns = namespace_bytes(key.profile_id.as_str(), key.session_id.as_str());
    let digest = sha256_digest(ns.as_slice());
    let hex = hex_lower(digest.as_slice());
    hex.concat(".enc")
}

/// std's borrowed path, held opaquely.
#[verifier::external_type_specification]
#[verifier::external_body]
pub struct ExPath(std::path::Path);

/// The path `Path::join` gives for `name` inside `dir`; it depends on the
/// two arguments alone.
pub uninterp spec fn path_joined(dir: &std::path::Path, name: Seq<char>) -> std::path::PathBuf;

/// `Path::join`: `name` inside `dir`, as `path_joined` names it.
#[verifier::external_body]
fn path_join(dir: &std::path::Path, name: &str) -> (r: std::path::PathBuf)
    ensures
        r == path_joined(dir, name@),
{
    dir.join(name)
}

/// Where a session's snapshot lives in the sessions directory.
pub fn snapshot_path(dir: &std::path::Path, key: &SessionKey) -> (r: std::path::PathBuf)
    ensures
        r == path_joined(
            dir,
            hex_spec(sha256_spec(namespace_spec(key.profile_id@, key.session_id@))) + ".enc"@,
        ),
{
    let name = snapshot_file_name(key);
    path_join(dir, name.as_str())
}

/// Where the index of persisted sessions lives.
pub fn index_path(dir: &std::path::Path) -> (r: std::path::PathBuf)
    ensures
        r == path_joined(dir, "index.json"@),
{
    path_join(dir, "index.json")
}

/// A temporary file left by an interrupted write: its name holds `.tmp-`.
pub fn is_stale_tmp(name: &str) -> (r: bool)
    ensures
        r == occurs_in(".tmp-"@, name@),
{
    chars_contain(&chars_of(name), &chars_of(".tmp-"))
}

/// Four random bytes (`rand::random`).
#[verifier::external_body]
fn random_tag() -> (r: [u8; 4]) {
    rand::random::<[u8; 4]>()
}

/// The name of the temporary file a write goes through: the target's file
/// name (`snapshot` when it has none), `.tmp-`, and eight random hex digits.
pub fn temp_file_name(file_name: Option<&str>) -> (r: String)
    ensures
        exists|tag: Seq<u8>|
            tag.len() == 4 && r@ == match file_name {
                Some(n) => n@,
                None => "snapshot"@,
            } + ".tmp-"@ + hex_spec(tag),
{
    let tag = random_tag();
    let stem = match file_name {
        Some(n) => String::from_str(n),
        None => String::from_str("snapshot"),
    };
    let hex = hex_lower(&tag);
    let r = stem.concat(".tmp-").concat(hex.as_str());
    assert(tag@.len() == 4);
    r
}

} // verus!
