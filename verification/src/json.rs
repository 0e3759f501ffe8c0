//! How a response body is shown: a body that is a JSON document is printed
//! anew, indented; any other body is shown as it is.

use vstd::prelude::*;
use vstd::string::*;

verus! {

/// `serde_json::Error`, the error of reading and of writing JSON. It is
/// carried through unopened: nothing is claimed of what it holds.
#[verifier::external_type_specification]
#[verifier::external_body]
pub struct ExJsonError(serde_json::Error);

/// Whether `serde_json::from_str` reads `text` as one JSON value.
pub uninterp spec fn json_document(text: Seq<char>) -> bool;

/// The indented text that `serde_json::to_string_pretty` writes for the
/// JSON value that `text` holds, where `text` holds one and the value can be
/// written.
pub uninterp spec fn json_reprint(text: Seq<char>) -> Option<Seq<char>>;

/// Reads `text` with `serde_json::from_str` as a `serde_json::Value` and
/// writes the value out with `serde_json::to_string_pretty`.
///
/// Taken on trust: the result is `None` exactly where `text` is not read as
/// a JSON value; otherwise it is what writing the value gave, the indented
/// text or the error. Both depend on `text` alone, which `json_document` and
/// `json_reprint` give a name to.
#[verifier::external_body]
fn reprint(text: &str) -> (r: Option<Result<String, serde_json::Error>>)
    ensures
        r is Some <==> json_document(text@),
        r matches Some(Ok(printed)) ==> json_reprint(text@) == Some(printed@),
        r matches Some(Err(_)) ==> json_reprint(text@) is None,
{
    match serde_json::from_str::<serde_json::Value>(text) {
        Ok(value) => Some(serde_json::to_string_pretty(&value)),
        Err(_) => None,
    }
}

/// Why a response could not be rendered.
#[derive(Debug, Clone, Copy, PartialEq, Eq, Structural)]
pub enum RenderError {
    /// The body is a JSON document that could not be written out again.
    Serialization,
}

impl RenderError {
    /// The error in words.
    pub fn message(&self) -> (r: String)
        ensures
            r@ == "JSON body could not be written"@,
    {
        match self {
            RenderError::Serialization => String::from_str("JSON body could not be written"),
        }
    }
}

/// The text that is shown for `body`, given whether the body is a JSON
/// document and what printing it anew gave: the indented text for a
/// document, the body itself for anything else. There is no text where a
/// document could not be written.
pub open spec fn shown_from(body: Seq<char>, document: bool, reprint: Option<Seq<char>>) -> Option<
    Seq<char>,
> {
    if document {
        reprint
    } else {
        Some(body)
    }
}

/// The text that is shown for `body`.
pub open spec fn shown_body(body: Seq<char>) -> Option<Seq<char>> {
    shown_from(body, json_document(body), json_reprint(body))
}

/// Chooses the text that is shown for `body` from what reading and
/// printing it as JSON gave: `None` where it is no JSON document.
pub fn body_text_from(body: &str, reprinted: Option<Result<String, serde_json::Error>>) -> (r:
    Result<String, RenderError>)
    ensures
        match reprinted {
            Some(Ok(printed)) => r is Ok && r->Ok_0@ == printed@,
            Some(Err(_)) => r == Err::<String, RenderError>(RenderError::Serialization),
            None => r is Ok && r->Ok_0@ == body@,
        },
{
    match reprinted {
        Some(Ok(printed)) => Ok(printed),
        Some(Err(_)) => Err(RenderError::Serialization),
        None => Ok(String::from_str(body)),
    }
}

/// The text that is shown for `body`.
pub fn body_text(body: &str) -> (r: Result<String, RenderError>)
    ensures
        match r {
            Ok(text) => shown_body(body@) == Some(text@),
            Err(error) => shown_body(body@) is None && error == RenderError::Serialization,
        },
{
    body_text_from(body, reprint(body))
}

} // verus!
