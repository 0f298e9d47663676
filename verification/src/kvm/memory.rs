//! Runtime storage owned by the machine: the data stack, the call stack,
//! and the address-keyed global store.

use super::Frame;
use std::collections::HashMap;
use vstd::prelude::*;

verus! {

broadcast use vstd::std_specs::hash::group_hash_axioms;

pub struct Memory {
    /// Execution/data stack of signed machine words.
    pub data_stack: Vec<i32>,
    /// One frame per live function invocation; the active frame is the top.
    pub call_stack: Vec<Frame>,
    /// Global slots, populated lazily as stores occur.
    pub global_storage: HashMap<usize, i32>,
}

impl Memory {
    /// The mathematical content of the global store.
    pub open spec fn globals(&self) -> Map<usize, i32> {
        self.global_storage@
    }

    pub fn new() -> (m: Memory)
        ensures
            m.data_stack@ == Seq::<i32>::empty(),
            m.call_stack@ == Seq::<Frame>::empty(),
            m.globals() == Map::<usize, i32>::empty(),
    {
        Memory {
            data_stack: Vec::new(),
            call_stack: Vec::new(),
            global_storage: HashMap::new(),
        }
    }

    /// The value of a global slot, or `None` when no store ever reached it.
    pub fn read(&self, address: usize) -> (r: Option<i32>)
        ensures
            r == (if self.globals().contains_key(address) {
                Some(self.globals()[address])
            } else {
                None::<i32>
            }),
    {
        match self.global_storage.get(&address) {
            Some(v) => Some(*v),
            None => None,
        }
    }

    /// Set a global slot, creating it on first store.
    pub fn write(&mut self, address: usize, value: i32)
        ensures
            final(self).globals() == old(self).globals().insert(address, value),
            final(self).data_stack == old(self).data_stack,
            final(self).call_stack == old(self).call_stack,
    {
        self.global_storage.insert(address, value);
    }
}

} // verus!
