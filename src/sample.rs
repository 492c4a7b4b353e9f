//! One labelled glyph: a class name and its bipolar feature vector.
use vstd::prelude::*;

use crate::error::ModelError;

verus! {

/// The bipolar code of one raw pixel: `1` when it is set (nonzero), else `-1`.
pub open spec fn pixel_code(v: i32) -> i8 {
    if v != 0 {
        1i8
    } else {
        -1i8
    }
}

/// The feature vector of a raw grid: the bias `1`, then one bipolar code per
/// pixel, in order.
pub open spec fn encoded(grid: Seq<i32>) -> Seq<i8> {
    seq![1i8] + grid.map_values(|v: i32| pixel_code(v))
}

/// Every feature is `1` or `-1`.
pub open spec fn all_bipolar(x: Seq<i8>) -> bool {
    forall|j: int| 0 <= j < x.len() ==> #[trigger] x[j] == 1 || x[j] == -1
}

/// An encoded grid is one longer than the grid; it starts with the bias `1`,
/// then holds `1` for each set pixel and `-1` for each clear one, in order;
/// so every feature is `1` or `-1`.
pub proof fn lemma_encoding_is_bipolar(grid: Seq<i32>)
    ensures
        encoded(grid).len() == grid.len() + 1,
        encoded(grid)[0] == 1,
        forall|i: int|
            0 <= i < grid.len() ==> #[trigger] encoded(grid)[i + 1] == (if grid[i] != 0 {
                1i8
            } else {
                -1i8
            }),
        all_bipolar(encoded(grid)),
{
    assert forall|i: int| 0 <= i < grid.len() implies #[trigger] encoded(grid)[i + 1] == (if grid[i]
        != 0 {
        1i8
    } else {
        -1i8
    }) by {
        assert(encoded(grid)[i + 1] == pixel_code(grid[i]));
    }
    assert forall|j: int| 0 <= j < encoded(grid).len() implies #[trigger] encoded(grid)[j] == 1
        || encoded(grid)[j] == -1 by {
        if j > 0 {
            assert(encoded(grid)[j] == pixel_code(grid[j - 1]));
        }
    }
}

/// A labelled sample. `grid` holds the features: bias first, then pixels.
pub struct Sample {
    pub character: String,
    pub grid: Vec<i8>,
}

impl Sample {
    /// Encodes a raw grid of `pixel_count` pixels under the label `c`.
    pub fn new(c: String, grid: &[i32], pixel_count: usize) -> (r: Result<Sample, ModelError>)
        ensures
            grid@.len() == pixel_count ==> (r matches Ok(s) && s.character@ == c@
                && s.grid@ == encoded(grid@)),
            grid@.len() != pixel_count ==> r == Err::<Sample, ModelError>(
                ModelError::MalformedSample { expected: pixel_count, actual: grid@.len() as usize },
            ),
    {
        if grid.len() != pixel_count {
            return Err(ModelError::MalformedSample { expected: pixel_count, actual: grid.len() });
        }
        let mut features: Vec<i8> = Vec::new();
        features.push(1i8);
        let mut i: usize = 0;
        while i < grid.len()
            invariant
                i <= grid@.len(),
                features@ == seq![1i8] + grid@.subrange(0, i as int).map_values(
                    |v: i32| pixel_code(v),
                ),
            decreases grid@.len() - i,
        {
            let code: i8 = if grid[i] != 0 {
                1
            } else {
                -1
            };
            features.push(code);
            proof {
                assert(grid@.subrange(0, i + 1) == grid@.subrange(0, i as int).push(grid@[i as int]));
            }
            i += 1;
        }
        proof {
            assert(grid@.subrange(0, grid@.len() as int) == grid@);
        }
        Ok(Sample { character: c, grid: features })
    }
}

} // verus!
