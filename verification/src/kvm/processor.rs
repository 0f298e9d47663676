//! Container for processor fields.

use vstd::prelude::*;

verus! {

pub struct Processor {
    /// Program counter: the word index the next fetch reads.
    pub pc: usize,
    /// Instruction register: the word the last fetch read.
    pub ir: u32,
}

impl Processor {
    pub fn new() -> (p: Processor)
        ensures
            p.pc == 0,
            p.ir == 0,
    {
        Processor { pc: 0, ir: 0 }
    }
}

} // verus!
