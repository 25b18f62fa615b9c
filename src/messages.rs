use vstd::prelude::*;

verus! {

/// A request from a client: store a value under a key, or look a key up.
#[derive(Debug, Clone)]
pub enum Request {
    Write { key: String, value: String },
    Read { key: String },
}

/// The server's answer to one request.
#[derive(Debug, Clone)]
pub enum Response {
    /// The write was applied and made durable (`"Ok"` on the wire).
    Done,
    /// The value stored under the key that was read.
    Value(String),
    /// The key that was read has never been written.
    NotFound,
    /// The request failed; the text says why.
    Error(String),
}

} // verus!
