//! The queue in front of the writers: one queue for each topic, opened when
//! the first request for the topic comes.

use vstd::prelude::*;
use vstd::string::StringExecFns;

verus! {

/// How many requests a topic's queue holds.
pub const QUEUE_SIZE: usize = 64;

#[derive(Debug)]
pub enum Error {
    /// A failure of the file system, with its description.
    Io(String),
    TopicDoesNotExist,
}

impl Error {
    /// The text that describes the error.
    pub fn message(&self) -> (text: String)
        ensures
            text@ == match self {
                Error::Io(description) => description@,
                Error::TopicDoesNotExist => "Topic does not exist"@,
            },
    {
        match self {
            Error::Io(description) => description.clone(),
            Error::TopicDoesNotExist => String::from_str("Topic does not exist"),
        }
    }
}

/// What is done with a request to append.
#[derive(Debug, Clone, Copy, PartialEq, Eq, Structural)]
pub enum Dispatch {
    /// The topic has its queue: the request goes there.
    Forward,
    /// The topic exists and has no queue yet: one is opened, a task started
    /// on it, and the request goes there.
    Open,
    /// The topic does not exist: the request is answered with
    /// `TopicDoesNotExist`.
    Refuse,
}

/// Decides what is done with a request, from whether its topic has a queue
/// and, where it has none, whether its directory exists.
pub fn dispatch(has_queue: bool, topic_exists: bool) -> (decision: Dispatch)
    ensures
        decision == if has_queue {
            Dispatch::Forward
        } else if topic_exists {
            Dispatch::Open
        } else {
            Dispatch::Refuse
        },
{
    if has_queue {
        Dispatch::Forward
    } else if topic_exists {
        Dispatch::Open
    } else {
        Dispatch::Refuse
    }
}

} // verus!
