use vstd::prelude::*;

verus! {

/// The failures that the store and its protocol report.
#[derive(Debug)]
pub enum KVStoreError {
    /// The log file could not be opened, read, appended to or flushed.
    Io(String),
    /// A message could not be encoded or decoded.
    Serialization(String),
    /// The transport failed.
    MachnetError(String),
    /// A key or value that the log format cannot hold.
    Validation(String),
}

/// The text that `KVStoreError::message` shows for an error.
pub open spec fn error_text(e: KVStoreError) -> Seq<char> {
    match e {
        KVStoreError::Io(m) => "I/O error: "@ + m@,
        KVStoreError::Serialization(m) => "Serialization error: "@ + m@,
        KVStoreError::MachnetError(m) => "Machnet error: "@ + m@,
        KVStoreError::Validation(m) => "Validation error: "@ + m@,
    }
}

impl KVStoreError {
    /// A human-readable description: the kind of failure, then its detail.
    pub fn message(&self) -> (r: String)
        ensures
            r@ == error_text(*self),
    {
        let (prefix, detail) = match self {
            KVStoreError::Io(m) => ("I/O error: ", m),
            KVStoreError::Serialization(m) => ("Serialization error: ", m),
            KVStoreError::MachnetError(m) => ("Machnet error: ", m),
            KVStoreError::Validation(m) => ("Validation error: ", m),
        };
        let mut r = String::from_str(prefix);
        r.append(detail.as_str());
        r
    }
}

} // verus!
