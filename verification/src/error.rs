//! What a request can be refused for before the log is touched.

use vstd::prelude::*;
use vstd::string::StringExecFns;

verus! {

#[derive(Debug)]
pub enum Error {
    InvalidTopicName,
}

impl Error {
    /// The text that describes the error.
    pub fn message(&self) -> (text: String)
        ensures
            text@ == "Invalid topic name"@,
    {
        match self {
            Error::InvalidTopicName => String::from_str("Invalid topic name"),
        }
    }
}

} // verus!
