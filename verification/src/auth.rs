//! Basic authentication: checking the credentials that a request carries.

use vstd::prelude::*;
use vstd::string::*;
use vstd::utf8::{decode_utf8, valid_utf8};
use base64::engine::general_purpose::STANDARD;
use base64::Engine;
use crate::text::{
    chars_of, find_char, first_position, lemma_first_position, same_text, slice_chars,
    string_of,
};

verus! {

/// The bytes that a text in standard base64 (with padding) stands for, or
/// `None` where the text is not valid base64.
pub uninterp spec fn base64_decoded(text: Seq<char>) -> Option<Seq<u8>>;

/// Decodes standard base64.
///
/// Trusted: `Engine::decode` of the `STANDARD` engine returns the bytes
/// that the text stands for, or an error where it is not valid base64.
#[verifier::external_body]
pub(crate) fn decode_base64(text: &str) -> (bytes: Option<Vec<u8>>)
    ensures
        match bytes {
            Some(decoded) => base64_decoded(text@) == Some(decoded@),
            None => base64_decoded(text@).is_none(),
        },
{
    STANDARD.decode(text).ok()
}

/// Reads bytes as UTF-8 text.
///
/// Trusted: `String::from_utf8` returns the text that the bytes encode
/// where they are valid UTF-8, and an error otherwise.
#[verifier::external_body]
pub(crate) fn text_of_bytes(bytes: Vec<u8>) -> (text: Option<String>)
    ensures
        match text {
            Some(decoded) => valid_utf8(bytes@) && decoded@ == decode_utf8(bytes@),
            None => !valid_utf8(bytes@),
        },
{
    String::from_utf8(bytes).ok()
}

/// The two parts of a text that holds a separator exactly once: what
/// stands before it and what stands after it.
pub open spec fn split_once(text: Seq<char>, separator: char) -> Option<(Seq<char>, Seq<char>)> {
    let at = first_position(text, separator);
    if at < text.len() && !text.subrange(at + 1, text.len() as int).contains(separator) {
        Some((text.subrange(0, at), text.subrange(at + 1, text.len() as int)))
    } else {
        None
    }
}

/// Whether a decoded credential names this user with this password: it is
/// the user name, one colon, and the password.
pub open spec fn credentials_match(
    decoded: Seq<char>,
    username: Seq<char>,
    password: Seq<char>,
) -> bool {
    match split_once(decoded, ':') {
        Some(parts) => parts.0 == username && parts.1 == password,
        None => false,
    }
}

/// The word that an authorization of this kind begins with.
pub open spec fn basic() -> Seq<char> {
    "Basic"@
}

/// Whether a header authorizes the request: it is the word `Basic`, one
/// space, and the base64 form of a credential that names the user with the
/// password.
pub open spec fn authorized(
    header: Option<String>,
    username: Seq<char>,
    password: Seq<char>,
) -> bool {
    match header {
        None => false,
        Some(text) => match split_once(text@, ' ') {
            None => false,
            Some(parts) => parts.0 == basic() && match base64_decoded(parts.1) {
                Some(bytes) => valid_utf8(bytes) && credentials_match(
                    decode_utf8(bytes),
                    username,
                    password,
                ),
                None => false,
            },
        },
    }
}

/// Takes a text apart at a separator that it holds exactly once.
fn split_at_only(chars: &Vec<char>, separator: char) -> (parts: Option<(String, String)>)
    ensures
        match parts {
            Some(pair) => split_once(chars@, separator) == Some((pair.0@, pair.1@)),
            None => split_once(chars@, separator).is_none(),
        },
{
    let at: usize = find_char(chars, separator);
    if at >= chars.len() {
        return None;
    }
    let rest = slice_chars(chars, at + 1, chars.len());
    proof {
        lemma_first_position(rest@, separator);
    }
    if find_char(&rest, separator) < rest.len() {
        return None;
    }
    let head = slice_chars(chars, 0, at);
    Some((string_of(&head), string_of(&rest)))
}

/// Whether a decoded credential names this user with this password.
pub fn check_credentials(decoded: &str, username: &str, password: &str) -> (granted: bool)
    ensures
        granted == credentials_match(decoded@, username@, password@),
{
    let chars = chars_of(decoded);
    match split_at_only(&chars, ':') {
        Some((name, secret)) => same_text(name.as_str(), username) && same_text(
            secret.as_str(),
            password,
        ),
        None => false,
    }
}

/// Whether the `Authorization` header of a request authorizes it for this
/// user and password.
pub fn basic_authorization(
    authorization_header: Option<String>,
    username: String,
    password: String,
) -> (granted: bool)
    ensures
        granted == authorized(authorization_header, username@, password@),
{
    let text = match authorization_header {
        Some(text) => text,
        None => {
            return false;
        },
    };
    let chars = chars_of(text.as_str());
    let (kind, payload) = match split_at_only(&chars, ' ') {
        Some(parts) => parts,
        None => {
            return false;
        },
    };
    if !same_text(kind.as_str(), "Basic") {
        return false;
    }
    let bytes = match decode_base64(payload.as_str()) {
        Some(bytes) => bytes,
        None => {
            return false;
        },
    };
    match text_of_bytes(bytes) {
        Some(decoded) => check_credentials(decoded.as_str(), username.as_str(), password.as_str()),
        None => false,
    }
}

} // verus!
