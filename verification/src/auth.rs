//! Bearer authentication for loopback management endpoints.

use std::sync::Arc;

use subtle::ConstantTimeEq;
use vstd::prelude::*;
use vstd::slice::slice_to_vec;
use vstd::string::{StrSliceExecFns, StringSliceAdditionalSpecFns};
use vstd::utf8::encode_utf8;

use crate::text::{chars_eq, chars_of, is_prefix};

verus! {

/// The shared secret that management requests must present.
#[derive(Clone)]
pub struct AuthState {
    token: Arc<Vec<u8>>,
}

/// `ConstantTimeEq::ct_eq` on byte slices from the `subtle` crate: true
/// exactly when both slices have the same length and the same bytes.
#[verifier::external_body]
fn ct_eq(a: &[u8], b: &[u8]) -> (r: bool)
    ensures
        r == (a@ == b@),
{
    bool::from(a.ct_eq(b))
}

/// The header prefix that introduces a bearer token.
pub open spec fn bearer_prefix() -> Seq<char> {
    "Bearer "@
}

impl AuthState {
    /// The UTF-8 bytes of the expected token.
    pub closed spec fn token(&self) -> Seq<u8> {
        (*self.token)@
    }

    pub fn new(token: &str) -> (a: Self)
        ensures
            a.token() == encode_utf8(token@),
    {
        AuthState { token: Arc::new(slice_to_vec(token.as_bytes())) }
    }

    /// Whether `presented` is the token; compared in constant time once the
    /// lengths agree.
    pub fn matches(&self, presented: &[u8]) -> (r: bool)
        ensures
            r == (presented@ == self.token()),
    {
        let expected = (*self.token).as_slice();
        if expected.len() != presented.len() {
            return false;
        }
        ct_eq(expected, presented)
    }

    /// Whether an `Authorization` header value carries the token as
    /// `Bearer <token>`. An absent header is refused.
    pub fn authorizes(&self, header: Option<&str>) -> (r: bool)
        ensures
            r == (header matches Some(h) && is_prefix(bearer_prefix(), h@) && encode_utf8(
                h@.skip(bearer_prefix().len() as int),
            ) == self.token()),
    {
        match header {
            None => false,
            Some(h) => {
                let chars = chars_of(h);
                let prefix = chars_of("Bearer ");
                if chars.len() < prefix.len() {
                    return false;
                }
                let head = crate::text::chars_range(&chars, 0, prefix.len());
                if !chars_eq(&head, &prefix) {
                    return false;
                }
                let rest = h.substring_char(prefix.len(), chars.len());
                assert(rest@ == h@.skip(bearer_prefix().len() as int));
                self.matches(rest.as_bytes())
            },
        }
    }
}

} // verus!
