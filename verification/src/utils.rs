//! Reading the credentials that a client presents.
use crate::config::Auth;
use crate::text::find_char;
use crate::text::split_once;
use crate::text::starts_with;
use crate::text::substring;
use crate::text::to_chars;
use vstd::prelude::*;
use vstd::utf8::decode_utf8;
use vstd::utf8::valid_utf8;

verus! {

/// Why a client is not let through.
#[derive(Debug, Clone, Copy, PartialEq, Eq, Structural)]
pub enum AuthError {
    /// The request carries no credentials.
    Missing,
    /// The credentials do not begin with `Basic `.
    Scheme,
    /// The credentials are no base64 text, or what they encode is no UTF-8.
    Encoding,
    /// What the credentials encode holds no colon.
    Format,
    /// The credentials are not those that the proxy asks for.
    Mismatch,
}

/// The error of `base64::decode`, carried through and never read.
#[verifier::external_type_specification]
#[verifier::external_body]
pub struct ExDecodeError(base64::DecodeError);

/// The bytes that `input` encodes in base64 with the standard alphabet, as
/// `base64::decode` reads them; `None` where it refuses `input`.
pub uninterp spec fn base64_decoded(input: Seq<char>) -> Option<Seq<u8>>;

/// `base64::decode`: a function of its argument. The contract gives its
/// result a name and says no more of it.
#[verifier::external_body]
fn base64_decode(input: &str) -> (r: Result<Vec<u8>, base64::DecodeError>)
    ensures
        r is Ok <==> base64_decoded(input@) is Some,
        r matches Ok(bytes) ==> base64_decoded(input@) == Some(bytes@),
{
    base64::decode(input)
}

/// The user name and the password in what was decoded: the text before the
/// first colon and the text after it.
pub open spec fn spec_credentials(decoded: Option<Seq<u8>>) -> Result<
    (Seq<char>, Seq<char>),
    AuthError,
> {
    match decoded {
        None => Err(AuthError::Encoding),
        Some(bytes) => if !valid_utf8(bytes) {
            Err(AuthError::Encoding)
        } else {
            match split_once(decode_utf8(bytes), ':') {
                None => Err(AuthError::Format),
                Some((username, password)) => Ok((username, password)),
            }
        },
    }
}

/// `r`, each of its two strings taken by its view.
pub open spec fn view_pair<E>(r: Result<(String, String), E>) -> Result<(Seq<char>, Seq<char>), E> {
    match r {
        Ok((a, b)) => Ok((a@, b@)),
        Err(e) => Err(e),
    }
}

/// `decoded` as the argument of `spec_credentials`.
pub open spec fn view_decoded(decoded: Result<Vec<u8>, base64::DecodeError>) -> Option<Seq<u8>> {
    match decoded {
        Ok(bytes) => Some(bytes@),
        Err(_) => None,
    }
}

/// Cuts what was decoded into user name and password.
pub fn credentials(decoded: Result<Vec<u8>, base64::DecodeError>) -> (r: Result<
    (String, String),
    AuthError,
>)
    ensures
        view_pair(r) == spec_credentials(view_decoded(decoded)),
{
    let bytes = match decoded {
        Ok(bytes) => bytes,
        Err(_) => {
            return Err(AuthError::Encoding);
        },
    };
    let text = match core::str::from_utf8(bytes.as_slice()) {
        Ok(text) => text,
        Err(_) => {
            return Err(AuthError::Encoding);
        },
    };
    let chars = to_chars(text);
    let n = chars.len();
    let i = find_char(&chars, 0, ':');
    proof {
        assert(chars@.skip(0) =~= chars@);
    }
    if i == n {
        return Err(AuthError::Format);
    }
    proof {
        assert(chars@.subrange(0, i as int) =~= chars@.take(i as int));
        assert(chars@.subrange(i + 1, n as int) =~= chars@.skip(i + 1));
    }
    Ok((substring(text, 0, i), substring(text, i + 1, n)))
}

/// Reads user name and password from the base64 text `string`.
pub fn decode(string: &String) -> (r: Result<(String, String), AuthError>)
    ensures
        view_pair(r) == spec_credentials(base64_decoded(string@)),
{
    credentials(base64_decode(string.as_str()))
}

/// The credentials in the value of `Proxy-Authorization`: the value begins
/// with `Basic `, and what follows encodes `user:password` in base64.
pub open spec fn spec_authenticate(header: Option<Seq<char>>) -> Result<
    (Seq<char>, Seq<char>),
    AuthError,
> {
    match header {
        None => Err(AuthError::Missing),
        Some(value) => if !"Basic "@.is_prefix_of(value) {
            Err(AuthError::Scheme)
        } else {
            spec_credentials(base64_decoded(value.skip("Basic "@.len() as int)))
        },
    }
}

/// Reads the credentials from the value of `Proxy-Authorization`.
pub fn authenticate(header: Option<&String>) -> (r: Result<(String, String), AuthError>)
    ensures
        view_pair(r) == spec_authenticate(
            match header {
                Some(value) => Some(value@),
                None => None,
            },
        ),
{
    let value = match header {
        Some(value) => value,
        None => {
            return Err(AuthError::Missing);
        },
    };
    let chars = to_chars(value.as_str());
    let prefix = to_chars("Basic ");
    if !starts_with(&chars, &prefix) {
        return Err(AuthError::Scheme);
    }
    let rest = substring(value.as_str(), prefix.len(), chars.len());
    proof {
        assert(chars@.subrange(prefix.len() as int, chars.len() as int) =~= value@.skip(
            "Basic "@.len() as int,
        ));
    }
    decode(&rest)
}

/// Whether `header` lets a client through a proxy that asks for `auth`: it
/// holds credentials, and they are those of `auth`.
pub open spec fn spec_authorize(auth: Auth, header: Option<Seq<char>>) -> Result<
    Seq<char>,
    AuthError,
> {
    match spec_authenticate(header) {
        Err(e) => Err(e),
        Ok((username, password)) => if username == auth.username@ && password == auth.password@ {
            Ok(username)
        } else {
            Err(AuthError::Mismatch)
        },
    }
}

/// Checks the value of `Proxy-Authorization` against the credentials that the
/// proxy asks for. Returns the user name, for the log.
pub fn authorize(auth: &Auth, header: Option<&String>) -> (r: Result<String, AuthError>)
    ensures
        match r {
            Ok(username) => spec_authorize(
                *auth,
                match header {
                    Some(value) => Some(value@),
                    None => None,
                },
            ) == Ok::<Seq<char>, AuthError>(username@),
            Err(e) => spec_authorize(
                *auth,
                match header {
                    Some(value) => Some(value@),
                    None => None,
                },
            ) == Err::<Seq<char>, AuthError>(e),
        },
{
    let (username, password) = authenticate(header)?;
    if username == auth.username && password == auth.password {
        Ok(username)
    } else {
        Err(AuthError::Mismatch)
    }
}

} // verus!
