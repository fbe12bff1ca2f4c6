//! An HTTP/1.1 message model: headers, requests and responses, persistent
//! builders for them, the wire text of a request and the parsing of a raw
//! response.
pub mod text;
pub mod number;
pub mod message;
pub mod parse;
pub mod laws;
pub mod target;
