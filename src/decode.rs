use vstd::prelude::*;
use crate::error::ErrorType;
use crate::walker::{exported_functions, names_result, parse_module};

verus! {

#[verifier::external_type_specification]
#[verifier::external_body]
pub struct ExDecodeError(base64::DecodeError);

/// The bytes that a standard base64 text stands for, or `None` where the text
/// is not valid base64 (a character outside the alphabet, a bad length, or
/// trailing bits that are not zero).
pub uninterp spec fn base64_decoded(text: Seq<char>) -> Option<Seq<u8>>;

/// A character of the standard base64 alphabet, or the padding `=`.
pub open spec fn base64_symbol(c: char) -> bool {
    ('A' <= c <= 'Z') || ('a' <= c <= 'z') || ('0' <= c <= '9') || c == '+' || c == '/' || c == '='
}

/// The text holds a character that base64 never uses.
pub open spec fn has_foreign_symbol(text: Seq<char>) -> bool {
    exists|i: int| 0 <= i < text.len() && !base64_symbol(#[trigger] text[i])
}

/// Relies on `base64::decode` (standard alphabet): it succeeds exactly when
/// the text is valid base64, and its bytes depend on the text alone. Every
/// byte of the text is looked up, and one outside the alphabet and `=` is an
/// error.
#[verifier::external_body]
fn decode_base64(code: &String) -> (r: Result<Vec<u8>, base64::DecodeError>)
    ensures
        r is Ok <==> base64_decoded(code@) is Some,
        r matches Ok(b) ==> base64_decoded(code@) == Some(b@),
        has_foreign_symbol(code@) ==> r is Err,
{
    base64::decode(code)
}

/// The names of the functions that the module encoded in base64 by `code`
/// exports, in declaration order.
pub open spec fn methods_of(code: Seq<char>) -> Result<Seq<Seq<char>>, ErrorType> {
    match base64_decoded(code) {
        None => Err(ErrorType::ErrorDecodeWasmCode),
        Some(bytes) => exported_functions(bytes),
    }
}

/// Decodes a base64-encoded module and lists the names of its exported
/// functions. Text that is not base64 fails before any byte is parsed.
pub fn parse_wasm_to_methods(code: &String) -> (r: Result<Vec<String>, ErrorType>)
    ensures
        names_result(r) == methods_of(code@),
        has_foreign_symbol(code@) ==> r == Err::<Vec<String>, ErrorType>(ErrorType::ErrorDecodeWasmCode),
{
    let bytes = match decode_base64(code) {
        Ok(b) => b,
        Err(_) => return Err(ErrorType::ErrorDecodeWasmCode),
    };
    parse_module(bytes.as_slice())
}

} // verus!
