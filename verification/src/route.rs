//! Which request goes where: the path cut into its parts, and the handler
//! that the method and the parts select.

use vstd::prelude::*;
use vstd::string::StringSliceAdditionalSpecFns;

use crate::text::{lemma_find_within, same_text, split, split_once};

verus! {

/// The parts of a path between its `/`, without what stands in front of the
/// first `/` and without an empty last part.
pub open spec fn path_parts(path: Seq<u8>) -> Seq<Seq<u8>> {
    let parts = split(path, 0x2f).drop_first();
    if parts.len() > 0 && parts.last().len() == 0 {
        parts.drop_last()
    } else {
        parts
    }
}

/// The parts as bytes.
pub open spec fn parts_view(parts: Seq<&str>) -> Seq<Seq<u8>> {
    Seq::new(parts.len(), |i: int| parts[i].spec_bytes())
}

pub fn parse_path_parts<'a>(path: &'a str) -> (path_parts: Vec<&'a str>)
    ensures
        parts_view(path_parts@) == self::path_parts(path.spec_bytes()),
{
    let mut parts: Vec<&'a str> = Vec::new();
    let (_, behind) = split_once(path, 0x2f);
    proof {
        lemma_find_within(path.spec_bytes(), 0x2f);
    }
    let mut rest: &'a str = match behind {
        Some(rest) => rest,
        None => {
            assert(split(path.spec_bytes(), 0x2f).drop_first() =~= Seq::<Seq<u8>>::empty());
            assert(parts_view(parts@) =~= Seq::<Seq<u8>>::empty());
            return parts;
        },
    };
    let mut more: bool = true;
    let ghost skipped = split(path.spec_bytes(), 0x2f).drop_first();
    assert(skipped =~= split(rest.spec_bytes(), 0x2f));
    let ghost mut pieces = skipped;
    while more
        invariant
            skipped == parts_view(parts@) + pieces,
            more ==> pieces == split(rest.spec_bytes(), 0x2f),
            !more ==> pieces.len() == 0,
        decreases rest.spec_bytes().len() + if more { 1nat } else { 0nat },
    {
        let (part, behind) = split_once(rest, 0x2f);
        proof {
            lemma_find_within(rest.spec_bytes(), 0x2f);
            assert(pieces[0] == part.spec_bytes());
            if behind is Some {
                assert(pieces.drop_first() =~= split(behind->0.spec_bytes(), 0x2f));
            } else {
                assert(pieces.drop_first() =~= Seq::<Seq<u8>>::empty());
            }
        }
        let ghost before = parts_view(parts@);
        parts.push(part);
        proof {
            assert(parts_view(parts@) =~= before.push(part.spec_bytes()));
            assert(before.push(pieces[0]) + pieces.drop_first() =~= before + pieces);
            pieces = pieces.drop_first();
        }
        match behind {
            Some(next) => {
                rest = next;
            },
            None => {
                more = false;
            },
        }
    }
    assert(parts_view(parts@) =~= skipped);
    let n: usize = parts.len();
    if n > 0 && parts[n - 1].as_bytes().len() == 0 {
        let ghost before = parts_view(parts@);
        parts.pop();
        assert(parts_view(parts@) =~= before.drop_last());
    }
    parts
}

/// The method of a request, as far as the routes tell methods apart.
#[derive(Debug, Clone, Copy, PartialEq, Eq, Structural)]
pub enum Method {
    Get,
    Put,
    Post,
    Other,
}

/// The handler that a request goes to, with the topic's name where it has one.
#[derive(Debug, Clone, Copy, PartialEq, Eq)]
pub enum Route<'a> {
    Index,
    CreateTopic(&'a str),
    AppendItem(&'a str),
    ReadItems(&'a str),
    NotFound,
}

/// A `Route` with the name as bytes.
pub enum Target {
    Index,
    CreateTopic(Seq<u8>),
    AppendItem(Seq<u8>),
    ReadItems(Seq<u8>),
    NotFound,
}

impl<'a> View for Route<'a> {
    type V = Target;

    open spec fn view(&self) -> Target {
        match self {
            Route::Index => Target::Index,
            Route::CreateTopic(name) => Target::CreateTopic(name.spec_bytes()),
            Route::AppendItem(name) => Target::AppendItem(name.spec_bytes()),
            Route::ReadItems(name) => Target::ReadItems(name.spec_bytes()),
            Route::NotFound => Target::NotFound,
        }
    }
}

/// Where a request with this method and these path parts goes: `GET /` to
/// the index, `PUT /topic/<name>` to the creation of a topic,
/// `POST /topic/<name>/items` to an append, `GET /topic/<name>/items` to a
/// read, and anything else nowhere.
pub open spec fn target(method: Method, parts: Seq<Seq<u8>>) -> Target {
    if method == Method::Get && parts.len() == 0 {
        Target::Index
    } else if parts.len() == 2 && parts[0] == "topic".spec_bytes() && method == Method::Put {
        Target::CreateTopic(parts[1])
    } else if parts.len() == 3 && parts[0] == "topic".spec_bytes() && parts[2]
        == "items".spec_bytes() && method == Method::Post {
        Target::AppendItem(parts[1])
    } else if parts.len() == 3 && parts[0] == "topic".spec_bytes() && parts[2]
        == "items".spec_bytes() && method == Method::Get {
        Target::ReadItems(parts[1])
    } else {
        Target::NotFound
    }
}

pub fn route<'a>(method: Method, path_parts: &Vec<&'a str>) -> (route: Route<'a>)
    ensures
        route@ == target(method, parts_view(path_parts@)),
{
    let n: usize = path_parts.len();
    let ghost parts = parts_view(path_parts@);
    if n == 0 {
        return match method {
            Method::Get => Route::Index,
            _ => Route::NotFound,
        };
    }
    assert(parts[0] == path_parts@[0].spec_bytes());
    if !same_text(path_parts[0], "topic") {
        return Route::NotFound;
    }
    if n == 2 {
        assert(parts[1] == path_parts@[1].spec_bytes());
        match method {
            Method::Put => Route::CreateTopic(path_parts[1]),
            _ => Route::NotFound,
        }
    } else if n == 3 {
        assert(parts[1] == path_parts@[1].spec_bytes());
        assert(parts[2] == path_parts@[2].spec_bytes());
        if !same_text(path_parts[2], "items") {
            return Route::NotFound;
        }
        match method {
            Method::Post => Route::AppendItem(path_parts[1]),
            Method::Get => Route::ReadItems(path_parts[1]),
            _ => Route::NotFound,
        }
    } else {
        Route::NotFound
    }
}

} // verus!
