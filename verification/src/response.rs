//! Synthetic input sequences for the time-domain simulator.
//!
//! The simulator steps a discrete transfer function as a recursive
//! difference equation; the input it is driven by is one of three synthetic
//! sequences. Their shapes are exact integers: an impulse is `1, 0, 0, ...`,
//! a step is all ones, and a ramp grows with the sample index. The ramp's
//! scaling by the sample period is the caller's.

use vstd::prelude::*;

verus! {

/// Which synthetic input drives a time-domain simulation.
#[derive(Clone, Copy, PartialEq, Eq, Structural, Debug)]
pub enum ResponseType {
    Impulse,
    Step,
    Ramp,
}

/// The unscaled value of sample `i` of a synthetic input.
pub open spec fn input_weight(response_type: ResponseType, i: int) -> int {
    match response_type {
        ResponseType::Impulse => if i == 0 {
            1
        } else {
            0
        },
        ResponseType::Step => 1,
        ResponseType::Ramp => i,
    }
}

impl ResponseType {
    /// The integer profile of `count` samples of this input: `1, 0, 0, ...`
    /// for an impulse, all ones for a step, and the sample index for a ramp
    /// (the caller multiplies by the sample period). An impulse needs at
    /// least one sample to hold its unit pulse.
    pub fn input_weights(self, count: usize) -> (r: Vec<usize>)
        requires
            self == ResponseType::Impulse ==> count >= 1,
        ensures
            r@.len() == count,
            forall|i: int| 0 <= i < count ==> #[trigger] r@[i] as int == input_weight(self, i),
    {
        match self {
            ResponseType::Impulse => {
                let mut x: Vec<usize> = vec![0usize; count];
                x[0] = 1;
                x
            },
            ResponseType::Step => {
                let x: Vec<usize> = vec![1usize; count];
                x
            },
            ResponseType::Ramp => {
                let mut x: Vec<usize> = Vec::new();
                let mut i: usize = 0;
                while i < count
                    invariant
                        i <= count,
                        x@.len() == i,
                        forall|k: int| 0 <= k < i ==> #[trigger] x@[k] == k,
                    decreases count - i,
                {
                    x.push(i);
                    i += 1;
                }
                x
            },
        }
    }
}

} // verus!
