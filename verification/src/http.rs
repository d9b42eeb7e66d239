//! What a request carries and what comes back of it, as plain values.

use vstd::prelude::*;

use crate::text::{err_text, join2, join3, outcome_text};

verus! {

/// What came back of a request.
pub enum Reply<T> {
    /// No response arrived; the text says why.
    Unreachable(String),
    /// A response whose status is no success: the status code, the status as
    /// it is shown, and the body.
    Refused { code: u16, status: String, body: String },
    /// A success whose body could not be read; the text says why.
    Garbled(String),
    /// A success with its body.
    Delivered(T),
}

/// Whether a status code is a success.
pub fn is_success(code: u16) -> (r: bool)
    ensures
        r == (200 <= code < 300),
{
    200 <= code && code < 300
}

/// The value of a setting that must be there.
pub fn required(value: Option<String>, name: &str) -> (r: Result<String, String>)
    ensures
        match value {
            Some(v) => r == Ok::<String, String>(v),
            None => r matches Err(e) && e@ == name@ + " not set"@,
        },
{
    match value {
        Some(v) => Ok(v),
        None => Err(join2(name, " not set")),
    }
}

/// What adding something came to: its id, empty where the reply names none.
pub open spec fn created_id(reply: Reply<Option<String>>) -> Result<Seq<char>, Seq<char>> {
    match reply {
        Reply::Unreachable(e) => Err(e@),
        Reply::Refused { status, body, .. } => Err(status@ + ": "@ + body@),
        Reply::Garbled(e) => Err(e@),
        Reply::Delivered(Some(id)) => Ok(id@),
        Reply::Delivered(None) => Ok(Seq::empty()),
    }
}

/// The id of what a request added, from the reply to it.
pub fn accept_created(reply: Reply<Option<String>>) -> (r: Result<String, String>)
    ensures
        outcome_text(r) == created_id(reply),
{
    match reply {
        Reply::Unreachable(e) => Err(e),
        Reply::Refused { status, body, .. } => Err(join3(status.as_str(), ": ", body.as_str())),
        Reply::Garbled(e) => Err(e),
        Reply::Delivered(id) => match id {
            Some(text) => Ok(text),
            None => Ok(String::new()),
        },
    }
}

/// What the standard Base64 alphabet with padding makes of the UTF-8 bytes of
/// a text.
pub uninterp spec fn base64_text(text: Seq<char>) -> Seq<char>;

/// `base64::engine::general_purpose::STANDARD.encode`. It is a function of the
/// bytes of the text, which are those of its UTF-8 form.
#[verifier::external_body]
fn encode_base64(text: &str) -> (r: String)
    ensures
        r@ == base64_text(text@),
{
    base64::Engine::encode(&base64::engine::general_purpose::STANDARD, text)
}

/// The value of an `Authorization` header from encoded credentials.
pub fn basic_value(encoded: &str) -> (r: String)
    ensures
        r@ == "Basic "@ + encoded@,
{
    join2("Basic ", encoded)
}

/// The value of an `Authorization` header for a user and a password.
pub fn basic_auth(user: &str, password: &str) -> (r: String)
    ensures
        r@ == "Basic "@ + base64_text(user@ + ":"@ + password@),
{
    let credentials = join3(user, ":", password);
    let encoded = encode_base64(credentials.as_str());
    basic_value(encoded.as_str())
}

/// The value of an `Authorization` header for a token.
pub fn bearer(token: &str) -> (r: String)
    ensures
        r@ == "Bearer "@ + token@,
{
    join2("Bearer ", token)
}

/// Whether a text can be the value of a header: no control character but the
/// tab.
pub open spec fn is_header_text(text: Seq<char>) -> bool {
    forall|i: int|
        0 <= i < text.len() ==> (#[trigger] text[i] == '\t' || (text[i] >= ' ' && text[i]
            != '\u{7f}'))
}

/// `reqwest::header::HeaderValue::from_str` takes a text exactly where no byte
/// of it is a control character other than the tab, and its error has one
/// message.
#[verifier::external_body]
pub(crate) fn check_header_text(text: &str) -> (r: Result<(), String>)
    ensures
        err_text(r) == if is_header_text(text@) {
            Ok::<(), Seq<char>>(())
        } else {
            Err::<(), Seq<char>>("failed to parse header value"@)
        },
{
    match reqwest::header::HeaderValue::from_str(text) {
        Ok(_) => Ok(()),
        Err(e) => Err(e.to_string()),
    }
}

/// Something was added exactly where the request succeeded, and its id is the
/// one that the reply names, or empty. A refusal is told with its status and its
/// body.
pub proof fn law_added_exactly_on_success(reply: Reply<Option<String>>)
    ensures
        created_id(reply) is Ok == (reply is Delivered),
        reply matches Reply::Delivered(Some(id)) ==> created_id(reply) == Ok::<Seq<char>, Seq<char>>(
            id@,
        ),
        reply matches Reply::Refused { status, body, .. } ==> created_id(reply) == Err::<
            Seq<char>,
            Seq<char>,
        >(status@ + ": "@ + body@),
{
}

}
