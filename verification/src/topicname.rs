//! The name of a topic, which is also the name of its directory.

use vstd::prelude::*;
use vstd::string::{StrSliceExecFns, StringExecFns};
use vstd::utf8::encode_utf8;

verus! {

#[derive(Debug, PartialEq, Eq, Hash)]
pub struct TopicName(String);

pub const MAX_LENGTH: usize = 32;

/// What `char::is_alphanumeric` says of the character.
pub uninterp spec fn is_alphanumeric(ch: char) -> bool;

/// Calls `char::is_alphanumeric`: whether the character is a letter or a
/// number, as Unicode has it.
#[verifier::external_body]
fn alphanumeric(ch: char) -> (yes: bool)
    ensures
        yes == is_alphanumeric(ch),
{
    ch.is_alphanumeric()
}

/// Whether the character may stand in a topic name: a letter, a number,
/// `_` or `%`.
pub open spec fn valid_char(ch: char) -> bool {
    is_alphanumeric(ch) || ch == '_' || ch == '%'
}

/// Whether the text is a topic name: at most 32 bytes long, and made of
/// valid characters only.
pub open spec fn valid_name(name: Seq<char>) -> bool {
    &&& encode_utf8(name).len() <= MAX_LENGTH
    &&& forall|i: int| 0 <= i < name.len() ==> valid_char(#[trigger] name[i])
}

pub fn valid_topic_name_char(ch: char) -> (valid: bool)
    ensures
        valid == valid_char(ch),
{
    alphanumeric(ch) || ch == '_' || ch == '%'
}

impl View for TopicName {
    type V = Seq<char>;

    closed spec fn view(&self) -> Seq<char> {
        self.0@
    }
}

impl Clone for TopicName {
    fn clone(&self) -> (name: TopicName)
        ensures
            name@ == self@,
    {
        proof {
            use_type_invariant(self);
        }
        TopicName(self.0.clone())
    }
}

impl TopicName {
    #[verifier::type_invariant]
    spec fn is_valid(&self) -> bool {
        valid_name(self.0@)
    }

    pub fn parse(name: &str) -> (parsed: Option<TopicName>)
        ensures
            parsed is Some <==> valid_name(name@),
            parsed is Some ==> parsed->0@ == name@,
    {
        let short_enough: bool = name.as_bytes().len() <= MAX_LENGTH;
        if !short_enough {
            return None;
        }
        let count: usize = name.unicode_len();
        let mut i: usize = 0;
        while i < count
            invariant
                i <= count,
                count == name@.len(),
                forall|k: int| 0 <= k < i ==> valid_char(#[trigger] name@[k]),
            decreases count - i,
        {
            if !valid_topic_name_char(name.get_char(i)) {
                return None;
            }
            i += 1;
        }

        // Might need to check for windows restricted names?
        Some(TopicName(String::from_str(name)))
    }

    pub fn to_str(&self) -> (name: &str)
        ensures
            name@ == self@,
            valid_name(name@),
    {
        proof {
            use_type_invariant(self);
        }
        self.0.as_str()
    }
}

} // verus!
