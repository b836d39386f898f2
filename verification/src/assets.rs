//! Which static asset a request path stands for.

use crate::text::to_chars;
use vstd::prelude::*;
use vstd::string::{StrSliceExecFns, StringExecFns};

verus! {

/// The page that is served for the root and for every path that is no file.
pub const INDEX_HTML: &'static str = "index.html";

/// What is served for a path.
#[derive(Clone, Copy, Debug, PartialEq, Eq, Structural)]
pub enum StaticRoute {
    /// The index page.
    Index,
    /// The asset of that path.
    Asset,
    /// Nothing.
    NotFound,
}

/// The path without the slashes at its start.
pub open spec fn without_leading_slashes(path: Seq<char>) -> Seq<char>
    decreases path.len(),
{
    if path.len() > 0 && path[0] == '/' {
        without_leading_slashes(path.drop_first())
    } else {
        path
    }
}

/// The path of the asset that a request path stands for: the request path
/// without the slashes at its start.
pub fn asset_path(uri_path: &str) -> (r: String)
    ensures
        r@ == without_leading_slashes(uri_path@),
{
    let chars = to_chars(uri_path);
    let n = chars.len();
    let mut a: usize = 0;
    let mut going = true;
    assert(uri_path@.subrange(0, n as int) =~= uri_path@);
    while a < n && going
        invariant
            a <= n,
            n == uri_path@.len(),
            chars@ == uri_path@,
            without_leading_slashes(uri_path@) == without_leading_slashes(
                uri_path@.subrange(a as int, n as int),
            ),
            !going ==> a < n && uri_path@[a as int] != '/',
        decreases n - a + (if going {
            1int
        } else {
            0int
        }),
    {
        let ghost here = uri_path@.subrange(a as int, n as int);
        assert(here[0] == uri_path@[a as int]);
        if chars[a] == '/' {
            assert(here.drop_first() =~= uri_path@.subrange(a + 1, n as int));
            a += 1;
        } else {
            going = false;
        }
    }
    proof {
        let here = uri_path@.subrange(a as int, n as int);
        if a < n {
            assert(here[0] == uri_path@[a as int]);
        }
    }
    String::from_str(uri_path.substring_char(a, n))
}

/// What is served for an asset path, given whether there is an asset of
/// that path: the index page for the empty path and for its own; else the
/// asset, where there is one; else nothing for a path with a dot in it,
/// which is taken for a file, and the index page for any other.
pub open spec fn route_of(path: Seq<char>, found: bool) -> StaticRoute {
    if path.len() == 0 || path == INDEX_HTML@ {
        StaticRoute::Index
    } else if found {
        StaticRoute::Asset
    } else if path.contains('.') {
        StaticRoute::NotFound
    } else {
        StaticRoute::Index
    }
}

/// What is served for an asset path, given whether there is an asset of
/// that path.
pub fn static_route(path: &str, found: bool) -> (r: StaticRoute)
    ensures
        r == route_of(path@, found),
{
    let chars = to_chars(path);
    let index = to_chars(INDEX_HTML);
    if chars.len() == 0 {
        return StaticRoute::Index;
    }
    if chars.len() == index.len() && crate::text::starts_with(&chars, &index) {
        assert(index@ =~= chars@.subrange(0, index@.len() as int));
        assert(chars@.subrange(0, chars@.len() as int) =~= chars@);
        return StaticRoute::Index;
    }
    assert(path@ != INDEX_HTML@) by {
        if path@ == INDEX_HTML@ {
            assert(chars@.subrange(0, chars@.len() as int) =~= chars@);
        }
    }
    if found {
        return StaticRoute::Asset;
    }
    let mut i: usize = 0;
    while i < chars.len()
        invariant
            i <= chars.len(),
            chars@ == path@,
            path@.len() > 0,
            path@ != INDEX_HTML@,
            !found,
            forall|j: int| 0 <= j < i ==> chars@[j] != '.',
        decreases chars.len() - i,
    {
        if chars[i] == '.' {
            assert(chars@.contains('.'));
            return StaticRoute::NotFound;
        }
        i += 1;
    }
    assert(!chars@.contains('.'));
    StaticRoute::Index
}

} // verus!
