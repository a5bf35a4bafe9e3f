//! Basic-auth gate: decoding and checking the `Authorization` header against
//! the configured credentials. Base64 and UTF-8 decoding come from outside
//! code behind trusted wrappers; the credential comparison is verified.

use vstd::prelude::*;
use base64::Engine;
use crate::strutil::{has_prefix, str_eq, str_has_prefix};

verus! {

/// The configured Basic-auth credentials.
#[derive(Clone, Debug)]
pub struct AuthConfig {
    pub username: String,
    pub password: String,
}

/// What the standard-alphabet base64 decoding of `s` yields: a function of
/// the input alone; `None` for invalid input.
pub uninterp spec fn b64_decode_of(s: Seq<char>) -> Option<Seq<u8>>;

/// Relies on base64's `Engine::decode` with the standard alphabet and
/// padding: the result is a function of the input characters alone.
#[verifier::external_body]
fn base64_decode(s: &str) -> (r: Option<Vec<u8>>)
    ensures
        r matches Some(b) ==> b64_decode_of(s@) == Some(b@),
        r is None ==> b64_decode_of(s@) is None,
{
    base64::engine::general_purpose::STANDARD.decode(s).ok()
}

/// What UTF-8 decoding of `b` yields: a function of the bytes alone; `None`
/// for invalid UTF-8.
pub uninterp spec fn utf8_decode_of(b: Seq<u8>) -> Option<Seq<char>>;

/// Relies on String::from_utf8 (std): on success the returned string encodes
/// back to exactly the input bytes.
#[verifier::external_body]
fn utf8_to_string(b: Vec<u8>) -> (r: Option<String>)
    ensures
        r matches Some(s) ==> utf8_decode_of(b@) == Some(s@) && vstd::utf8::encode_utf8(s@) == b@,
        r is None ==> utf8_decode_of(b@) is None,
{
    String::from_utf8(b).ok()
}

/// `decoded` splits at its first `:` into exactly the configured user name
/// and password.
pub open spec fn credentials_match(decoded: Seq<char>, user: Seq<char>, pass: Seq<char>) -> bool {
    exists|i: int|
        {
            &&& 0 <= i < decoded.len()
            &&& #[trigger] decoded[i] == ':'
            &&& forall|j: int| 0 <= j < i ==> decoded[j] != ':'
            &&& decoded.subrange(0, i) == user
            &&& decoded.subrange(i + 1, decoded.len() as int) == pass
        }
}

/// Decides `credentials_match(decoded@, username@, password@)`.
pub fn check_credentials(decoded: &str, username: &str, password: &str) -> (r: bool)
    ensures
        r == credentials_match(decoded@, username@, password@),
{
    let len = decoded.unicode_len();
    let mut i: usize = 0;
    while i < len && decoded.get_char(i) != ':'
        invariant
            0 <= i <= len,
            len == decoded@.len(),
            forall|j: int| 0 <= j < i ==> decoded@[j] != ':',
        decreases len - i,
    {
        i = i + 1;
    }
    if i == len {
        // no colon at all: any witness index would have to carry one
        assert(!credentials_match(decoded@, username@, password@));
        return false;
    }
    let user_part = decoded.substring_char(0, i);
    let pass_part = decoded.substring_char(i + 1, len);
    let ok = str_eq(user_part, username) && str_eq(pass_part, password);
    proof {
        if ok {
            assert(credentials_match(decoded@, username@, password@));
        } else {
            // the first colon is the only possible witness
            assert forall|w: int|
                0 <= w < decoded@.len() && #[trigger] decoded@[w] == ':' && (forall|j: int|
                    0 <= j < w ==> decoded@[j] != ':') implies w == i by {}
        }
    }
    ok
}

/// The full gate decision on the raw `Authorization` header value: present,
/// `Basic `-prefixed, base64 of valid UTF-8, and matching credentials.
pub open spec fn basic_auth_ok(header: Option<Seq<char>>, user: Seq<char>, pass: Seq<char>) -> bool {
    match header {
        None => false,
        Some(h) => {
            &&& has_prefix(h, "Basic "@)
            &&& match b64_decode_of(h.skip("Basic "@.len() as int)) {
                Some(bytes) => match utf8_decode_of(bytes) {
                    Some(t) => credentials_match(t, user, pass),
                    None => false,
                },
                None => false,
            }
        },
    }
}

/// Decides whether the request passes the Basic-auth gate. The transport
/// layer forwards the request on `true` and answers 401 with a
/// `WWW-Authenticate: Basic` challenge on `false`.
pub fn check_basic_auth(header: Option<&str>, config: &AuthConfig) -> (r: bool)
    ensures
        r == basic_auth_ok(
            match header {
                Some(h) => Some(h@),
                None => None,
            },
            config.username@,
            config.password@,
        ),
{
    proof {
        reveal_strlit("Basic ");
    }
    let h = match header {
        Some(h) => h,
        None => {
            return false;
        },
    };
    if !str_has_prefix(h, "Basic ") {
        return false;
    }
    let len = h.unicode_len();
    let credentials = h.substring_char(6, len);
    proof {
        assert(credentials@ =~= h@.skip(6));
    }
    let bytes = match base64_decode(credentials) {
        Some(b) => b,
        None => {
            return false;
        },
    };
    let decoded = match utf8_to_string(bytes) {
        Some(s) => s,
        None => {
            return false;
        },
    };
    check_credentials(decoded.as_str(), config.username.as_str(), config.password.as_str())
}

} // verus!
