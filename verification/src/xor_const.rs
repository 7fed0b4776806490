//! Xor a constant value with every sample of an integer stream.
use vstd::prelude::*;

verus! {

/// XorConst xors a constant value to every sample.
#[derive(Clone, Copy, Debug, PartialEq, Eq, Structural)]
pub struct XorConst {
    /// The constant xored into every sample.
    pub val: u32,
}

impl XorConst {
    /// Create a new XorConst, providing the constant to be xored.
    pub fn new(val: u32) -> (r: XorConst)
        ensures
            r.val == val,
    {
        XorConst { val }
    }

    /// One sample through the block.
    pub fn process_one(&self, a: &u32) -> (r: u32)
        ensures
            r == *a ^ self.val,
    {
        *a ^ self.val
    }

    /// A batch of samples through the block, in order.
    pub fn process_block(&self, input: &[u32]) -> (r: Vec<u32>)
        ensures
            r@.len() == input@.len(),
            forall|i: int| 0 <= i < input@.len() ==> r@[i] == (input@[i] ^ self.val),
    {
        let mut out: Vec<u32> = Vec::new();
        let mut i: usize = 0;
        while i < input.len()
            invariant
                i <= input@.len(),
                out@.len() == i,
                forall|j: int| 0 <= j < i ==> out@[j] == (input@[j] ^ self.val),
            decreases input@.len() - i,
        {
            out.push(input[i] ^ self.val);
            i = i + 1;
        }
        out
    }
}

} // verus!
