//! Numbers that are never zero.

use vstd::prelude::*;

verus! {

/// A `usize` that is never zero.
#[derive(Clone, Copy, Debug, PartialEq, Eq, Structural)]
pub struct NonZeroUsize {
    value: usize,
}

impl NonZeroUsize {
    /// The value is never zero.
    #[verifier::type_invariant]
    spec fn nonzero(self) -> bool {
        self.value > 0
    }

    /// The number.
    pub closed spec fn spec_get(self) -> usize {
        self.value
    }

    /// `n` as a `NonZeroUsize`, or `None` where `n` is zero.
    pub fn new(n: usize) -> (r: Option<Self>)
        ensures
            n == 0 <==> r is None,
            r matches Some(v) ==> v.spec_get() == n,
    {
        if n == 0 {
            None
        } else {
            Some(NonZeroUsize { value: n })
        }
    }

    /// The number.
    pub fn get(self) -> (r: usize)
        ensures
            r == self.spec_get(),
            r > 0,
    {
        proof {
            use_type_invariant(&self);
        }
        self.value
    }
}

} // verus!
