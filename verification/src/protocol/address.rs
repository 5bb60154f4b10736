//! Sketch-level account ids.

use vstd::prelude::*;

verus! {

/// A placeholder account id.
#[derive(Copy, Clone)]
pub struct Address {
    pub id: u64,
}

impl Address {
    #[allow(dead_code)]
    fn new(val: u64) -> (r: Address)
        ensures
            r.id == val,
    {
        Address { id: val }
    }
}

} // verus!
