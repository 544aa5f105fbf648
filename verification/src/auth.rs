//! The basic-authorization header value. Acquiring a secret and the OAuth
//! token exchange live outside the library; what is verified here is the
//! shape of the header built from a user and a secret.

use vstd::prelude::*;

use vstd::utf8::encode_utf8;

use crate::errors::Error;

verus! {

/// The secret used for the whole run: the value resolved from the
/// environment when there is one, else the interactively entered value,
/// else a credential error — as when input is disabled and the
/// environment holds nothing.
pub fn resolve_secret(env_value: Option<String>, prompted: Option<String>) -> (r: Result<
    String,
    Error,
>)
    ensures
        match env_value {
            Option::Some(p) => r matches Ok(q) && q@ == p@,
            Option::None => match prompted {
                Option::Some(p) => r matches Ok(q) && q@ == p@,
                Option::None => r matches Err(e) && e is Credential,
            },
        },
{
    match env_value {
        Some(p) => Ok(p),
        None => match prompted {
            Some(p) => Ok(p),
            None => Err(
                Error::Credential("no secret in the environment and none entered".to_owned()),
            ),
        },
    }
}

/// What base64 encoding yields on these bytes — the standard alphabet with
/// padding; a fixed function of the input bytes.
pub uninterp spec fn base64_of(bytes: Seq<u8>) -> Seq<char>;

/// Relies on base64::encode: the standard character set with padding,
/// deterministic in the input bytes.
#[verifier::external_body]
fn b64_encode(bytes: &Vec<u8>) -> (r: String)
    ensures
        r@ == base64_of(bytes@),
{
    base64::encode(bytes.as_slice())
}

/// The basic-authorization header value: `Basic` and the base64 encoding
/// of `user:pass` in UTF-8 (58 is the colon).
pub open spec fn basic_auth_spec(user: Seq<char>, pass: Seq<char>) -> Seq<char> {
    "Basic "@ + base64_of(encode_utf8(user) + seq![58u8] + encode_utf8(pass))
}

/// Builds the basic-authorization header value for a user and a secret.
pub fn basic_auth(user: &str, pass: &str) -> (r: String)
    ensures
        r@ == basic_auth_spec(user@, pass@),
{
    let mut creds = user.as_bytes_vec();
    creds.push(58u8);
    let mut pass_bytes = pass.as_bytes_vec();
    creds.append(&mut pass_bytes);
    proof {
        assert(creds@ =~= encode_utf8(user@) + seq![58u8] + encode_utf8(pass@));
    }
    let encoded = b64_encode(&creds);
    let mut out = String::new();
    out.append("Basic ");
    out.append(encoded.as_str());
    proof {
        assert(out@ =~= basic_auth_spec(user@, pass@));
    }
    out
}

} // verus!
