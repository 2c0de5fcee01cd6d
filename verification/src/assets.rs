//! Which bundled page a request path names.
//!
//! The HTTP layer serves the browser client from files bundled into the
//! binary. The rule that picks the file is small and worth pinning down:
//! leading slashes are dropped, and a request for nothing at all means the
//! index page.

use vstd::prelude::*;

verus! {

/// The index page's file name, as bytes.
pub open spec fn index_page() -> Seq<u8> {
    seq![105u8, 110u8, 100u8, 101u8, 120u8, 46u8, 104u8, 116u8, 109u8, 108u8]
}

/// Index of the first byte at or after `i` that is not a slash, or the end.
pub open spec fn skip_slashes(s: Seq<u8>, i: int) -> int
    recommends
        0 <= i <= s.len(),
    decreases s.len() - i,
{
    if i < s.len() && s[i] == 47u8 {
        skip_slashes(s, i + 1)
    } else {
        i
    }
}

/// The file a request path names: the path without its leading slashes, or
/// the index page where nothing is left.
pub open spec fn asset_for(path: Seq<u8>) -> Seq<u8> {
    let t = path.skip(skip_slashes(path, 0));
    if t.len() == 0 {
        index_page()
    } else {
        t
    }
}

/// Resolve a request path to the bundled file it asks for.
pub fn asset_file(path: &[u8]) -> (file: Vec<u8>)
    ensures
        file@ == asset_for(path@),
{
    let n = path.len();
    let mut i: usize = 0;
    while i < n && path[i] == 47u8
        invariant
            i <= n,
            n == path@.len(),
            skip_slashes(path@, 0) == skip_slashes(path@, i as int),
        decreases n - i,
    {
        i = i + 1;
    }
    assert(skip_slashes(path@, 0) == i as int);
    if i >= n {
        let mut index: Vec<u8> = Vec::new();
        index.push(105u8);
        index.push(110u8);
        index.push(100u8);
        index.push(101u8);
        index.push(120u8);
        index.push(46u8);
        index.push(104u8);
        index.push(116u8);
        index.push(109u8);
        index.push(108u8);
        proof {
            assert(index@ =~= index_page());
            assert(path@.skip(i as int).len() == 0);
        }
        index
    } else {
        let file = vstd::slice::slice_to_vec(vstd::slice::slice_subrange(path, i, n));
        proof {
            assert(file@ =~= path@.skip(i as int));
        }
        file
    }
}

} // verus!
