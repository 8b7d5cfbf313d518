//! ChaCha20-Poly1305 snapshot envelopes: `MAGIC ++ nonce ++ ciphertext`.

use chacha20poly1305::aead::{Aead, KeyInit, Payload};
use chacha20poly1305::{ChaCha20Poly1305, Nonce};
use vstd::prelude::*;

use crate::sessions::{namespace_bytes, namespace_spec, StoreError};

verus! {

pub const NONCE_LEN: usize = 12;

pub const KEY_LEN: usize = 32;

/// The first bytes of every snapshot envelope: `gaze-hermes-session-v1\n`.
pub const MAGIC: [u8; 23] = [
    103, 97, 122, 101, 45, 104, 101, 114, 109, 101, 115, 45, 115, 101, 115, 115, 105, 111, 110, 45,
    118, 49, 10,
];

/// The error type of the `aead` traits, held opaquely.
#[verifier::external_type_specification]
#[verifier::external_body]
pub struct ExAeadError(chacha20poly1305::aead::Error);

/// ChaCha20-Poly1305 sealing of `msg` under `key`, `nonce` and `aad`:
/// ciphertext followed by the 16-byte tag.
pub uninterp spec fn aead_seal(key: Seq<u8>, nonce: Seq<u8>, aad: Seq<u8>, msg: Seq<u8>) -> Seq<u8>;

/// ChaCha20-Poly1305 opening of `sealed`: the plaintext, or `None` when the
/// tag does not authenticate it.
pub uninterp spec fn aead_open(key: Seq<u8>, nonce: Seq<u8>, aad: Seq<u8>, sealed: Seq<u8>) -> Option<
    Seq<u8>,
>;

/// `ChaCha20Poly1305::encrypt` from the `chacha20poly1305` crate. Claimed: it
/// fails exactly when the message has `u32::MAX` or more 64-byte blocks; its
/// output is `aead_seal` of the arguments, 16 bytes longer than the message;
/// and opening that output with the same key, nonce and aad gives the message
/// back (AEAD correctness).
#[verifier::external_body]
fn aead_encrypt(key: &[u8; KEY_LEN], nonce: &[u8; NONCE_LEN], aad: &[u8], msg: &[u8]) -> (r: Result<
    Vec<u8>,
    chacha20poly1305::aead::Error,
>)
    requires
        msg@.len() + 16 <= usize::MAX,
    ensures
        r is Ok <==> msg@.len() / 64 < u32::MAX,
        r matches Ok(c) ==> c@ == aead_seal(key@, nonce@, aad@, msg@) && c@.len() == msg@.len() + 16
            && aead_open(key@, nonce@, aad@, c@) == Some(msg@),
{
    let cipher = ChaCha20Poly1305::new(key.into());
    cipher.encrypt(Nonce::from_slice(nonce), Payload { msg, aad })
}

/// `ChaCha20Poly1305::decrypt` from the `chacha20poly1305` crate. Claimed: it
/// gives back exactly `aead_open` of the arguments.
#[verifier::external_body]
fn aead_decrypt(key: &[u8; KEY_LEN], nonce: &[u8], aad: &[u8], sealed: &[u8]) -> (r: Result<
    Vec<u8>,
    chacha20poly1305::aead::Error,
>)
    requires
        nonce@.len() == NONCE_LEN,
    ensures
        r is Ok <==> aead_open(key@, nonce@, aad@, sealed@) is Some,
        r matches Ok(p) ==> aead_open(key@, nonce@, aad@, sealed@) == Some(p@),
{
    let cipher = ChaCha20Poly1305::new(key.into());
    cipher.decrypt(Nonce::from_slice(nonce), Payload { msg: sealed, aad })
}

/// HKDF-SHA-256 (RFC 5869) without salt: the first 32 bytes of the output
/// keying material derived from `ikm` with context `info`.
pub uninterp spec fn hkdf_sha256(ikm: Seq<u8>, info: Seq<u8>) -> Seq<u8>;

/// `Hkdf::<Sha256>::new(None, ikm)` followed by `expand(info, ..)` into 32
/// bytes, from the `hkdf` crate. Claimed: the output is `hkdf_sha256` of the
/// arguments. `expand` fails only when more than 255 * 32 bytes are asked
/// for, so it always succeeds here.
#[verifier::external_body]
fn hkdf_expand(ikm: &[u8; KEY_LEN], info: &[u8]) -> (r: Option<[u8; KEY_LEN]>)
    ensures
        r is Some,
        r matches Some(k) ==> k@ == hkdf_sha256(ikm@, info@),
{
    let mut okm = [0u8; KEY_LEN];
    match hkdf::Hkdf::<sha2::Sha256>::new(None, ikm).expand(info, &mut okm) {
        Ok(()) => Some(okm),
        Err(_) => None,
    }
}

/// Fresh random nonce bytes (`rand::random`). Nothing is known of them.
#[verifier::external_body]
fn random_nonce() -> [u8; NONCE_LEN] {
    rand::random::<[u8; NONCE_LEN]>()
}

/// An envelope that starts with `MAGIC` and has room for a nonce.
pub open spec fn envelope_framed(envelope: Seq<u8>) -> bool {
    envelope.len() >= MAGIC@.len() + NONCE_LEN && envelope.subrange(0, MAGIC@.len() as int)
        == MAGIC@
}

/// The plaintext a framed envelope opens to under `key` and `aad`.
pub open spec fn envelope_plaintext(key: Seq<u8>, aad: Seq<u8>, envelope: Seq<u8>) -> Option<Seq<u8>> {
    aead_open(
        key,
        envelope.subrange(MAGIC@.len() as int, MAGIC@.len() + NONCE_LEN),
        aad,
        envelope.subrange(MAGIC@.len() + NONCE_LEN, envelope.len() as int),
    )
}

fn extend_bytes(out: &mut Vec<u8>, bytes: &[u8])
    ensures
        final(out)@ == old(out)@ + bytes@,
{
    let n = bytes.len();
    let ghost start = out@;
    for i in 0..n
        invariant
            n == bytes@.len(),
            out@ == start + bytes@.take(i as int),
    {
        out.push(bytes[i]);
        assert(start + bytes@.take(i + 1) =~= (start + bytes@.take(i as int)).push(bytes@[i as int]));
    }
    assert(bytes@.take(n as int) =~= bytes@);
}

/// Seals `plaintext` under `key` and `aad` with a fresh random nonce.
/// The envelope opens back to `plaintext` under the same key and aad.
pub fn encrypt_snapshot(key: &[u8; KEY_LEN], aad: &[u8], plaintext: &[u8]) -> (r: Result<
    Vec<u8>,
    StoreError,
>)
    requires
        plaintext@.len() + 16 <= usize::MAX,
    ensures
        r is Ok <==> plaintext@.len() / 64 < u32::MAX,
        r matches Err(e) ==> e is Encrypt,
        r matches Ok(envelope) ==> {
            &&& envelope_framed(envelope@)
            &&& envelope@.len() == MAGIC@.len() + NONCE_LEN + plaintext@.len() + 16
            &&& envelope_plaintext(key@, aad@, envelope@) == Some(plaintext@)
            &&& envelope@.subrange(MAGIC@.len() + NONCE_LEN, envelope@.len() as int) == aead_seal(
                key@,
                envelope@.subrange(MAGIC@.len() as int, MAGIC@.len() + NONCE_LEN),
                aad@,
                plaintext@,
            )
        },
{
    let nonce_bytes = random_nonce();
    let ciphertext = match aead_encrypt(key, &nonce_bytes, aad, plaintext) {
        Ok(c) => c,
        Err(_) => {
            return Err(StoreError::Encrypt);
        },
    };
    let mut out: Vec<u8> = Vec::new();
    extend_bytes(&mut out, &MAGIC);
    extend_bytes(&mut out, &nonce_bytes);
    extend_bytes(&mut out, ciphertext.as_slice());
    let ghost m = MAGIC@;
    let ghost n = nonce_bytes@;
    assert(out@.subrange(0, m.len() as int) =~= m);
    assert(out@.subrange(m.len() as int, m.len() + NONCE_LEN) =~= n);
    assert(out@.subrange(m.len() + NONCE_LEN, out@.len() as int) =~= ciphertext@);
    Ok(out)
}

/// Opens an envelope made by `encrypt_snapshot`.
pub fn decrypt_snapshot(key: &[u8; KEY_LEN], aad: &[u8], envelope: &[u8]) -> (r: Result<
    Vec<u8>,
    StoreError,
>)
    ensures
        !envelope_framed(envelope@) ==> (r matches Err(e) && e is Integrity),
        envelope_framed(envelope@) ==> match envelope_plaintext(key@, aad@, envelope@) {
            Some(p) => (r matches Ok(q) && q@ == p),
            None => (r matches Err(e) && e is Decrypt),
        },
{
    let m = MAGIC.len();
    if envelope.len() < m + NONCE_LEN {
        return Err(StoreError::Integrity);
    }
    let mut i: usize = 0;
    while i < m
        invariant
            m == MAGIC@.len(),
            m + NONCE_LEN <= envelope@.len(),
            i <= m,
            forall|j: int| 0 <= j < i ==> envelope@[j] == MAGIC@[j],
        decreases m - i,
    {
        if envelope[i] != MAGIC[i] {
            assert(envelope@.subrange(0, m as int)[i as int] != MAGIC@[i as int]);
            return Err(StoreError::Integrity);
        }
        i += 1;
    }
    assert(envelope@.subrange(0, m as int) =~= MAGIC@);
    let nonce = slice_range(envelope, m, m + NONCE_LEN);
    let sealed = slice_range(envelope, m + NONCE_LEN, envelope.len());
    match aead_decrypt(key, nonce.as_slice(), aad, sealed.as_slice()) {
        Ok(p) => Ok(p),
        Err(_) => Err(StoreError::Decrypt),
    }
}

fn slice_range(bytes: &[u8], from: usize, to: usize) -> (v: Vec<u8>)
    requires
        from <= to <= bytes@.len(),
    ensures
        v@ == bytes@.subrange(from as int, to as int),
{
    let mut v: Vec<u8> = Vec::new();
    for i in from..to
        invariant
            from <= to <= bytes@.len(),
            v@ == bytes@.subrange(from as int, i as int),
    {
        v.push(bytes[i]);
        assert(bytes@.subrange(from as int, i + 1) =~= bytes@.subrange(from as int, i as int).push(
            bytes@[i as int],
        ));
    }
    v
}

/// The context under which session keys are derived:
/// `gaze-hermes-session-key-v1\n`.
pub const SESSION_KEY_INFO: [u8; 27] = [
    103, 97, 122, 101, 45, 104, 101, 114, 109, 101, 115, 45, 115, 101, 115, 115, 105, 111, 110, 45,
    107, 101, 121, 45, 118, 49, 10,
];

/// The key a session's snapshots are sealed under: HKDF-SHA-256 of the
/// master key, with the session's namespace as context.
pub open spec fn session_key_spec(master: Seq<u8>, profile_id: Seq<char>, session_id: Seq<char>) -> Seq<u8> {
    hkdf_sha256(master, SESSION_KEY_INFO@ + namespace_spec(profile_id, session_id))
}

/// Derives the per-session key from the master key.
pub fn derive_session_key(master: &[u8; KEY_LEN], profile_id: &str, session_id: &str) -> (r: [u8;
    KEY_LEN])
    ensures
        r@ == session_key_spec(master@, profile_id@, session_id@),
{
    let mut info: Vec<u8> = Vec::new();
    extend_bytes(&mut info, &SESSION_KEY_INFO);
    let ns = namespace_bytes(profile_id, session_id);
    extend_bytes(&mut info, ns.as_slice());
    match hkdf_expand(master, info.as_slice()) {
        Some(k) => k,
        None => [0u8; KEY_LEN],
    }
}

/// Seals a session snapshot under the session's derived key; the aad binds
/// it to its profile and session.
pub fn encrypt_session_payload(
    key: &[u8; KEY_LEN],
    profile_id: &str,
    session_id: &str,
    plaintext: &[u8],
) -> (r: Result<Vec<u8>, StoreError>)
    requires
        plaintext@.len() + 16 <= usize::MAX,
    ensures
        r is Ok <==> plaintext@.len() / 64 < u32::MAX,
        r matches Err(e) ==> e is Encrypt,
        r matches Ok(envelope) ==> {
            let k = session_key_spec(key@, profile_id@, session_id@);
            let aad = namespace_spec(profile_id@, session_id@);
            &&& envelope_framed(envelope@)
            &&& envelope@.len() == MAGIC@.len() + NONCE_LEN + plaintext@.len() + 16
            &&& envelope_plaintext(k, aad, envelope@) == Some(plaintext@)
            &&& envelope@.subrange(MAGIC@.len() + NONCE_LEN, envelope@.len() as int) == aead_seal(
                k,
                envelope@.subrange(MAGIC@.len() as int, MAGIC@.len() + NONCE_LEN),
                aad,
                plaintext@,
            )
        },
{
    let session_key = derive_session_key(key, profile_id, session_id);
    let aad = namespace_bytes(profile_id, session_id);
    encrypt_snapshot(&session_key, aad.as_slice(), plaintext)
}

/// Opens a session snapshot sealed for this profile and session, under the
/// session's derived key.
pub fn decrypt_session_payload(
    key: &[u8; KEY_LEN],
    profile_id: &str,
    session_id: &str,
    envelope: &[u8],
) -> (r: Result<Vec<u8>, StoreError>)
    ensures
        !envelope_framed(envelope@) ==> (r matches Err(e) && e is Integrity),
        envelope_framed(envelope@) ==> match envelope_plaintext(
            session_key_spec(key@, profile_id@, session_id@),
            namespace_spec(profile_id@, session_id@),
            envelope@,
        ) {
            Some(p) => (r matches Ok(q) && q@ == p),
            None => (r matches Err(e) && e is Decrypt),
        },
{
    let session_key = derive_session_key(key, profile_id, session_id);
    let aad = namespace_bytes(profile_id, session_id);
    decrypt_snapshot(&session_key, aad.as_slice(), envelope)
}

} // verus!
