//! Sketch-level transactions.

use vstd::prelude::*;
use crate::protocol::address::Address;

verus! {

/// A transfer from one account to a list of recipients.
pub struct Transaction {
    pub input: (Address, u64),
    pub output: Vec<(Address, u64)>,
}

impl Transaction {
    pub fn new(input: (Address, u64), output: Vec<(Address, u64)>) -> (r: Transaction)
        ensures
            r.input == input,
            r.output == output,
    {
        Transaction { input, output }
    }
}

} // verus!
