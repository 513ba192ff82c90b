use vstd::prelude::*;

verus! {

/// Every way in which fetching a contract's code or listing its exported
/// functions can fail. Each variant names one stage of the pipeline.
#[derive(Debug, Clone, Copy, PartialEq, Eq, Structural)]
pub enum ErrorType {
    /// The request to the node could not be sent.
    FailedToSend,
    /// The body of the node's response could not be read.
    FailedToParseResponse,
    /// The body of the node's response is not JSON.
    FailedToParseJson,
    /// The response holds no text at `result.code_base64`.
    CodeNotFound,
    /// The code is not valid standard base64.
    ErrorDecodeWasmCode,
    /// The module does not start with the magic bytes and version 1.
    BadHeader,
    /// A LEB128 integer runs past five bytes or past 32 bits.
    MalformedVarint,
    /// A read needs more bytes than remain.
    UnexpectedEnd,
    /// A section header is cut short, or its payload runs past the module.
    TruncatedSection,
    /// The export section holds fewer or shorter entries than it declares.
    TruncatedExportEntry,
    /// An export name is not valid UTF-8.
    InvalidUtf8,
}

} // verus!
