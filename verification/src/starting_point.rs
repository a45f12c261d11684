//! The canonicalized root directory that the search is confined to.
//!
//! Canonicalizing a directory reads the filesystem and so happens outside
//! this crate; the library receives the canonical path as a plain string
//! and carries it from there.

use vstd::prelude::*;

verus! {

/// The canonicalized starting point of a search.
#[derive(Debug)]
pub struct StartingPoint(pub String);

impl StartingPoint {
    /// Wraps an already-canonicalized directory path.
    pub fn new(canonical: String) -> (r: Self)
        ensures
            r.0@ == canonical@,
    {
        StartingPoint(canonical)
    }

    /// The starting point as a string slice.
    pub fn as_ref(&self) -> (r: &str)
        ensures
            r@ == self.0@,
    {
        self.0.as_str()
    }
}

/// The message reported when the starting point cannot be canonicalized:
/// it does not exist or cannot be read.
pub fn canonicalize_error_message(path: &str) -> (r: String)
    ensures
        r@ == "The specified starting point \""@ + path@
            + "\" cannot be normalized. Perhaps, it might not exist or cannot be read."@,
{
    let mut out = "The specified starting point \"".to_owned();
    out.append(path);
    out.append("\" cannot be normalized. Perhaps, it might not exist or cannot be read.");
    out
}

} // verus!
