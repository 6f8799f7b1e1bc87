//! The query string of a request: pairs of a key and a value, each key once.

use vstd::prelude::*;
use vstd::string::StringSliceAdditionalSpecFns;

use crate::text::{find, lemma_find_within, same_text, split, split_once};

verus! {

/// The pairs of a query string, in the order in which they were written. No
/// key occurs twice.
#[derive(Debug, PartialEq)]
pub struct ParsedQuery<'a> {
    pairs: Vec<(&'a str, &'a str)>,
}

/// A key and its value, as bytes.
pub type Pair = (Seq<u8>, Seq<u8>);

/// The pairs as bytes.
pub open spec fn pairs_view(pairs: Seq<(&str, &str)>) -> Seq<Pair> {
    Seq::new(pairs.len(), |i: int| (pairs[i].0.spec_bytes(), pairs[i].1.spec_bytes()))
}

/// The key and the value of one piece of a query string: what stands in
/// front of its `=` and behind it. A piece without `=`, or with more than
/// one, is none.
pub open spec fn pair_of(piece: Seq<u8>) -> Option<Pair> {
    let at = find(piece, 0x3d);
    let value = piece.subrange(at + 1, piece.len() as int);
    if 0 <= at < piece.len() && find(value, 0x3d) == value.len() {
        Some((piece.subrange(0, at), value))
    } else {
        None
    }
}

/// Whether one of the pairs has this key.
pub open spec fn has_key(pairs: Seq<Pair>, key: Seq<u8>) -> bool {
    exists|i: int| 0 <= i < pairs.len() && (#[trigger] pairs[i]).0 == key
}

/// Whether each key occurs once.
pub open spec fn distinct_keys(pairs: Seq<Pair>) -> bool {
    forall|i: int, j: int|
        0 <= i < j < pairs.len() ==> (#[trigger] pairs[i]).0 != (#[trigger] pairs[j]).0
}

/// The pairs found so far, followed by those of the pieces that are left:
/// none if a piece is no pair, or brings a key that was there before.
pub open spec fn pairs_from(found: Seq<Pair>, pieces: Seq<Seq<u8>>) -> Option<Seq<Pair>>
    decreases pieces.len(),
{
    if pieces.len() == 0 {
        Some(found)
    } else {
        match pair_of(pieces[0]) {
            Some(pair) => if has_key(found, pair.0) {
                None
            } else {
                pairs_from(found.push(pair), pieces.drop_first())
            },
            None => None,
        }
    }
}

/// The pairs of a query string: none for the empty one, else those of its
/// pieces between the `&`.
pub open spec fn parsed(query: Seq<u8>) -> Option<Seq<Pair>> {
    if query.len() == 0 {
        Some(Seq::empty())
    } else {
        pairs_from(Seq::empty(), split(query, 0x26))
    }
}

impl<'a> View for ParsedQuery<'a> {
    type V = Seq<Pair>;

    closed spec fn view(&self) -> Seq<Pair> {
        pairs_view(self.pairs@)
    }
}

/// One more pair with a new key keeps each key once.
pub proof fn lemma_new_key_keeps_distinct(found: Seq<Pair>, pair: Pair)
    requires
        distinct_keys(found),
        !has_key(found, pair.0),
    ensures
        distinct_keys(found.push(pair)),
{
    let all = found.push(pair);
    assert forall|i: int, j: int| 0 <= i < j < all.len() implies (#[trigger] all[i]).0 != (
    #[trigger] all[j]).0 by {
        if j < found.len() {
            assert(all[i] == found[i] && all[j] == found[j]);
        } else {
            assert(all[i] == found[i]);
        }
    }
}

/// In the pairs of a query string no key occurs twice.
pub proof fn lemma_pairs_have_distinct_keys(found: Seq<Pair>, pieces: Seq<Seq<u8>>)
    requires
        distinct_keys(found),
        pairs_from(found, pieces) is Some,
    ensures
        distinct_keys(pairs_from(found, pieces)->0),
    decreases pieces.len(),
{
    if pieces.len() > 0 {
        let pair = pair_of(pieces[0])->0;
        lemma_new_key_keeps_distinct(found, pair);
        lemma_pairs_have_distinct_keys(found.push(pair), pieces.drop_first());
    }
}

impl<'a> ParsedQuery<'a> {
    #[verifier::type_invariant]
    spec fn each_key_once(&self) -> bool {
        distinct_keys(pairs_view(self.pairs@))
    }

    /// A query without pairs.
    pub fn new() -> (query: ParsedQuery<'a>)
        ensures
            query@ == Seq::<Pair>::empty(),
    {
        let query = ParsedQuery { pairs: Vec::new() };
        assert(query@ =~= Seq::<Pair>::empty());
        query
    }

    /// How many pairs there are.
    pub fn len(&self) -> (len: usize)
        ensures
            len == self@.len(),
    {
        self.pairs.len()
    }

    /// Pair `index`: its key and its value.
    pub fn pair(&self, index: usize) -> (pair: (&'a str, &'a str))
        requires
            index < self@.len(),
        ensures
            (pair.0.spec_bytes(), pair.1.spec_bytes()) == self@[index as int],
    {
        self.pairs[index]
    }

    pub fn contains_key(&self, key: &str) -> (found: bool)
        ensures
            found == has_key(self@, key.spec_bytes()),
    {
        let n: usize = self.pairs.len();
        let mut i: usize = 0;
        while i < n
            invariant
                i <= n,
                n == self.pairs@.len(),
                forall|k: int| 0 <= k < i ==> (#[trigger] self@[k]).0 != key.spec_bytes(),
            decreases n - i,
        {
            if same_text(self.pairs[i].0, key) {
                assert(self@[i as int].0 == key.spec_bytes());
                return true;
            }
            i += 1;
        }
        false
    }

    fn insert(self, key: &'a str, value: &'a str) -> (query: ParsedQuery<'a>)
        requires
            !has_key(self@, key.spec_bytes()),
        ensures
            query@ == self@.push((key.spec_bytes(), value.spec_bytes())),
    {
        proof {
            use_type_invariant(&self);
            lemma_new_key_keeps_distinct(self@, (key.spec_bytes(), value.spec_bytes()));
            assert(pairs_view(self.pairs@.push((key, value))) =~= self@.push(
                (key.spec_bytes(), value.spec_bytes()),
            ));
        }
        let mut pairs = self.pairs;
        pairs.push((key, value));
        ParsedQuery { pairs }
    }
}

pub fn parse_query_string<'a>(query_string: &'a str) -> (result: Option<ParsedQuery<'a>>)
    ensures
        match result {
            Some(query) => parsed(query_string.spec_bytes()) == Some(query@),
            None => parsed(query_string.spec_bytes()) is None,
        },
{
    if query_string.as_bytes().len() == 0 {
        return Some(ParsedQuery::new());
    }
    let mut result: ParsedQuery<'a> = ParsedQuery::new();
    let mut rest: &'a str = query_string;
    let mut more: bool = true;
    let ghost whole = parsed(query_string.spec_bytes());
    let ghost mut pieces: Seq<Seq<u8>> = split(query_string.spec_bytes(), 0x26);

    while more
        invariant
            whole == parsed(query_string.spec_bytes()),
            whole == pairs_from(result@, pieces),
            more ==> pieces == split(rest.spec_bytes(), 0x26),
            !more ==> pieces.len() == 0,
        decreases rest.spec_bytes().len() + if more { 1nat } else { 0nat },
    {
        let (pair, behind) = split_once(rest, 0x26);
        proof {
            lemma_find_within(rest.spec_bytes(), 0x26);
            assert(pieces[0] == pair.spec_bytes());
            if behind is Some {
                assert(pieces.drop_first() =~= split(behind->0.spec_bytes(), 0x26));
            } else {
                assert(pieces.drop_first() =~= Seq::<Seq<u8>>::empty());
            }
            pieces = pieces.drop_first();
        }
        let (k, after) = split_once(pair, 0x3d);
        let v: &'a str = match after {
            Some(v) => v,
            None => {
                return None;
            },
        };
        let (_, again) = split_once(v, 0x3d);
        if again.is_some() {
            return None;
        }
        if result.contains_key(k) {
            return None;
        } else {
            result = result.insert(k, v);
        }
        match behind {
            Some(next) => {
                rest = next;
            },
            None => {
                more = false;
            },
        }
    }

    Some(result)
}

} // verus!
