use vstd::prelude::*;
use vstd::string::StringExecFns;

verus! {

/// The lowercase hexadecimal digit of `n`, for `n < 16`.
pub open spec fn hex_digit(n: int) -> char {
    seq!['0', '1', '2', '3', '4', '5', '6', '7', '8', '9', 'a', 'b', 'c', 'd', 'e', 'f'][n]
}

/// How one character stands inside a JSON string: quote and backslash are
/// escaped, as are the control characters below U+0020, with a short escape
/// where JSON has one; every other character stands as it is.
pub open spec fn json_escaped(c: char) -> Seq<char> {
    if c == '"' {
        seq!['\\', '"']
    } else if c == '\\' {
        seq!['\\', '\\']
    } else if c == '\u{8}' {
        seq!['\\', 'b']
    } else if c == '\t' {
        seq!['\\', 't']
    } else if c == '\n' {
        seq!['\\', 'n']
    } else if c == '\u{c}' {
        seq!['\\', 'f']
    } else if c == '\r' {
        seq!['\\', 'r']
    } else if (c as u32) < 0x20 {
        seq!['\\', 'u', '0', '0', hex_digit((c as u32) as int / 16), hex_digit((c as u32) as int % 16)]
    } else {
        seq![c]
    }
}

/// The characters of a text, each escaped for a JSON string.
pub open spec fn json_escaped_text(text: Seq<char>) -> Seq<char>
    decreases text.len(),
{
    if text.len() == 0 {
        seq![]
    } else {
        json_escaped(text[0]) + json_escaped_text(text.drop_first())
    }
}

/// The JSON string literal that stands for a text.
pub open spec fn json_string_literal(text: Seq<char>) -> Seq<char> {
    seq!['"'] + json_escaped_text(text) + seq!['"']
}

/// Relies on `serde_json::to_string` on a `str`: it writes a quote, the text
/// with each character escaped as `json_escaped` says, and a quote, into a
/// `Vec`, which cannot fail.
#[verifier::external_body]
fn json_string(text: &str) -> (r: Result<String, serde_json::Error>)
    ensures
        r is Ok,
        r matches Ok(q) ==> q@ == json_string_literal(text@),
{
    serde_json::to_string(text)
}

/// The body of a JSON-RPC `query` that asks for the code of the account
/// whose JSON string literal is `account`, in its final state.
pub open spec fn view_code_request(account: Seq<char>) -> Seq<char> {
    "{\"id\":\"dontcare\",\"jsonrpc\":\"2.0\",\"method\":\"query\",\"params\":{\"account_id\":"@ + account
        + ",\"finality\":\"final\",\"request_type\":\"view_code\"}}"@
}

/// Builds the `view_code` request around an account id that is already a
/// JSON string literal.
pub fn request_with_account(account: &str) -> (r: String)
    ensures
        r@ == view_code_request(account@),
{
    let mut body = <String as StringExecFns>::from_str(
        "{\"id\":\"dontcare\",\"jsonrpc\":\"2.0\",\"method\":\"query\",\"params\":{\"account_id\":",
    );
    body.append(account);
    body.append(",\"finality\":\"final\",\"request_type\":\"view_code\"}}");
    body
}

/// Builds the `view_code` request for a contract id. Every id can be
/// written as JSON, so this always succeeds.
pub fn request_body(contract_id: &str) -> (r: Option<String>)
    ensures
        r is Some,
        r matches Some(b) ==> b@ == view_code_request(json_string_literal(contract_id@)),
{
    match json_string(contract_id) {
        Ok(account) => Some(request_with_account(account.as_str())),
        Err(_) => None,
    }
}

} // verus!
