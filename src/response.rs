use vstd::prelude::*;
use crate::error::ErrorType;

verus! {

#[verifier::external_type_specification]
#[verifier::external_body]
pub struct ExJsonError(serde_json::Error);

/// The text is one well-formed JSON value.
pub uninterp spec fn json_parses(text: Seq<char>) -> bool;

/// The string found by looking up key `outer`, then key `inner`, in the JSON
/// value that the text holds, or `None` where nothing is there or it is not
/// a string.
pub uninterp spec fn json_string_at(text: Seq<char>, outer: Seq<char>, inner: Seq<char>) -> Option<Seq<char>>;

/// Relies on `serde_json::from_str` into a `Value`, then on indexing it by
/// key, which yields `Null` where a key is missing: whether the text parses,
/// and the string found under the two keys, depend on the arguments alone.
#[verifier::external_body]
fn string_in_json(text: &str, outer: &str, inner: &str) -> (r: Result<Option<String>, serde_json::Error>)
    ensures
        r is Ok <==> json_parses(text@),
        r matches Ok(c) ==> match c {
            Some(s) => json_string_at(text@, outer@, inner@) == Some(s@),
            None => json_string_at(text@, outer@, inner@) is None,
        },
{
    let v: serde_json::Value = serde_json::from_str(text)?;
    match &v[outer][inner] {
        serde_json::Value::String(s) => Ok(Some(s.clone())),
        _ => Ok(None),
    }
}

/// Where a node's answer to a `view_code` query holds the code.
pub open spec fn code_in_response(body: Seq<char>) -> Option<Seq<char>> {
    json_string_at(body, "result"@, "code_base64"@)
}

/// Reads the base64 code out of the body of a node's answer to a
/// `view_code` query: the string at `result.code_base64`, verbatim. A body
/// that is not JSON fails with `FailedToParseJson`; one that holds no string
/// there fails with `CodeNotFound`.
pub fn code_from_response(body: &String) -> (r: Result<String, ErrorType>)
    ensures
        r == Err::<String, ErrorType>(ErrorType::FailedToParseJson) <==> !json_parses(body@),
        r == Err::<String, ErrorType>(ErrorType::CodeNotFound) <==> json_parses(body@) && code_in_response(body@) is None,
        r matches Ok(s) ==> json_parses(body@) && code_in_response(body@) == Some(s@),
        r matches Err(e) ==> e == ErrorType::FailedToParseJson || e == ErrorType::CodeNotFound,
{
    match string_in_json(body.as_str(), "result", "code_base64") {
        Err(_) => Err(ErrorType::FailedToParseJson),
        Ok(Some(code)) => Ok(code),
        Ok(None) => Err(ErrorType::CodeNotFound),
    }
}

} // verus!
