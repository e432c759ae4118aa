//! A minimal success-or-error carrier for a piece of text: either the
//! content that was read, or a human-readable error message.

use vstd::prelude::*;

verus! {

/// Holds a string together with a flag saying whether it is an error
/// message (`err == true`) or real content (`err == false`).
pub struct Response {
    pub cont: String,
    pub err: bool,
}

impl Response {
    /// Wraps `s` as successful content.
    pub fn ok(s: String) -> (r: Response)
        ensures
            r.cont@ == s@,
            !r.err,
    {
        Response { cont: s, err: false }
    }

    /// Wraps `s` as an error message.
    pub fn err(s: String) -> (r: Response)
        ensures
            r.cont@ == s@,
            r.err,
    {
        Response { cont: s, err: true }
    }

    /// True exactly when this response carries content, not an error.
    pub fn is_ok(&self) -> (r: bool)
        ensures
            r == !self.err,
    {
        !self.err
    }

    /// Returns the carried string, whichever kind it is.
    pub fn unwrap(&self) -> (r: String)
        ensures
            r@ == self.cont@,
    {
        self.cont.clone()
    }
}

} // verus!
