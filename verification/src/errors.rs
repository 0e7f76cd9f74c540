//! The error a transport client or server reports: connection trouble,
//! a frame that would not decode, or anything else as plain text.

use vstd::prelude::*;

verus! {

/// What went wrong on the network path. The payload carries the underlying
/// error rendered as text.
#[derive(Debug)]
pub enum NetworkError {
    Connection(String),
    Serialization(String),
    Other(String),
}

impl NetworkError {
    /// A human-readable message for the error.
    pub fn message(&self) -> (r: String)
        ensures
            *self is Connection ==> r@ == "Connection error"@,
            *self is Serialization ==> r@ == "Error serializing/deserializing data"@,
            self matches NetworkError::Other(m) ==> r@ == m@,
    {
        match self {
            NetworkError::Connection(_) => "Connection error".to_owned(),
            NetworkError::Serialization(_) => "Error serializing/deserializing data".to_owned(),
            NetworkError::Other(m) => m.clone(),
        }
    }
}

} // verus!
