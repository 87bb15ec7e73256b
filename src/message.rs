use vstd::prelude::*;

verus! {

/// A message receiver that keeps nothing of what it is handed: decoding into
/// it measures the decoder alone.
pub struct NullMessageFactory {}

impl NullMessageFactory {
    pub fn new() -> (r: Self)
        ensures
            r == (NullMessageFactory {}),
    {
        NullMessageFactory {}
    }
}

} // verus!
