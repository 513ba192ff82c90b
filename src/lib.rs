use vstd::prelude::*;

pub mod decode;
pub mod error;
pub mod laws;
pub mod network;
pub mod reader;
pub mod request;
pub mod response;
pub mod walker;

pub use decode::parse_wasm_to_methods;
pub use error::ErrorType;
pub use network::NetwrokId;

verus! {

} // verus!
