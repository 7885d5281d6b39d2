//! Helpers for the simple-payment-setup side of the stack: fresh bearer
//! tokens and shared secrets from the system RNG, and the Authorization
//! header derived from the credentials of an endpoint URL.

use vstd::prelude::*;
use vstd::slice::slice_to_vec;

use crate::oer::push_bytes;

verus! {

/// What base64's URL-safe alphabet without padding produces for a byte
/// string.
pub uninterp spec fn base64_url_nopad_of(b: Seq<u8>) -> Seq<char>;

/// What base64's standard alphabet with padding produces for a byte
/// string, as ASCII bytes.
pub uninterp spec fn base64_std_of(b: Seq<u8>) -> Seq<u8>;

/// Relies on base64::encode_config with base64::URL_SAFE_NO_PAD: the
/// result depends on the input bytes alone; without padding it has two
/// output characters for one trailing byte and three for two.
#[verifier::external_body]
fn base64_url_nopad(b: &[u8]) -> (r: String)
    requires
        b@.len() <= usize::MAX / 4,
    ensures
        r@ == base64_url_nopad_of(b@),
        r@.len() == (4 * b@.len() + 2) / 3,
{
    base64::encode_config(b, base64::URL_SAFE_NO_PAD)
}

/// Relies on base64::encode: the standard alphabet with `=` padding, four
/// output bytes for every started block of three input bytes; the result
/// depends on the input bytes alone.
#[verifier::external_body]
fn base64_std(b: &[u8]) -> (r: Vec<u8>)
    requires
        b@.len() <= usize::MAX / 4,
    ensures
        r@ == base64_std_of(b@),
        r@.len() == 4 * ((b@.len() + 2) / 3),
{
    base64::encode(b).into_bytes()
}

/// Relies on ring::rand::SystemRandom::fill for cryptographically secure
/// random bytes; nothing is promised of the values, and a refusal of the
/// system RNG comes back as None.
#[verifier::external_body]
fn random_bytes<const N: usize>() -> Option<[u8; N]> {
    let mut bytes: [u8; N] = [0; N];
    match ring::rand::SecureRandom::fill(&ring::rand::SystemRandom::new(), &mut bytes) {
        Ok(()) => Some(bytes),
        Err(_) => None,
    }
}

/// A fresh URL-safe bearer token: 18 random bytes, base64url-encoded
/// without padding, 24 characters. None only when the system RNG refuses.
pub fn random_token() -> (r: Option<String>)
    ensures
        r is Some ==> (r->0)@.len() == 24,
{
    match random_bytes::<18>() {
        Some(bytes) => Some(base64_url_nopad(bytes.as_slice())),
        None => None,
    }
}

/// A fresh 32-byte shared secret. None only when the system RNG refuses.
pub fn random_secret() -> (r: Option<[u8; 32]>) {
    random_bytes::<32>()
}

/// The bytes of `"Basic "`.
pub open spec fn basic_prefix() -> Seq<u8> {
    seq![66u8, 97, 115, 105, 99, 32]
}

/// The bytes of `"Bearer "`.
pub open spec fn bearer_prefix() -> Seq<u8> {
    seq![66u8, 101, 97, 114, 101, 114, 32]
}

/// The Authorization header for an endpoint's credentials: HTTP basic
/// auth over `user:password` when a username is present (an absent
/// password counts as empty), a bearer token when only a password is,
/// nothing when neither is.
pub fn spsp_auth_header(username: &[u8], password: Option<&[u8]>) -> (r: Option<Vec<u8>>)
    requires
        username@.len() <= usize::MAX / 8,
        password is Some ==> (password->0)@.len() <= usize::MAX / 8,
    ensures
        username@.len() > 0 ==> r is Some && (r->0)@ == basic_prefix() + base64_std_of(
            username@ + seq![58u8] + if password is Some {
                (password->0)@
            } else {
                Seq::<u8>::empty()
            },
        ),
        username@.len() == 0 && password is Some ==> r is Some && (r->0)@ == bearer_prefix() + (
        password->0)@,
        username@.len() == 0 && password is None ==> r is None,
{
    if username.len() > 0 {
        let mut creds: Vec<u8> = slice_to_vec(username);
        creds.push(58);
        match password {
            Some(p) => push_bytes(&mut creds, p),
            None => {
                proof {
                    assert(creds@ =~= username@ + seq![58u8] + Seq::<u8>::empty());
                }
            },
        }
        let encoded = base64_std(creds.as_slice());
        let mut out: Vec<u8> = vec![66u8, 97, 115, 105, 99, 32];
        proof {
            assert(out@ =~= basic_prefix());
            assert(creds@ =~= username@ + seq![58u8] + if password is Some {
                (password->0)@
            } else {
                Seq::<u8>::empty()
            });
        }
        push_bytes(&mut out, encoded.as_slice());
        Some(out)
    } else {
        match password {
            Some(p) => {
                let mut out: Vec<u8> = vec![66u8, 101, 97, 114, 101, 114, 32];
                proof {
                    assert(out@ =~= bearer_prefix());
                }
                push_bytes(&mut out, p);
                Some(out)
            },
            None => None,
        }
    }
}

} // verus!
