//! Label-level shapes of the tensors the calculator combines.
//!
//! A block shape carries everything the verified engine reads: the key and
//! the label axes. The dense numeric arrays those labels index stay with
//! the unverified shell.
use vstd::prelude::*;

use crate::labels::{
    first_index, lemma_first_index, lemma_first_index_is, GradientSample, PowerSpectrumKey,
    PowerSpectrumProperty, Sample, SphericalExpansionKey,
};

verus! {

/// Label-level shape of one power-spectrum block, as pre-allocated by the
/// caller: the key, the requested sample rows, the requested `(l, n1, n2)`
/// properties, and the sample rows of the optional gradient sub-blocks.
/// The dense numeric arrays these labels index live outside the verified
/// core; every function here works on the shape alone.
pub struct PowerSpectrumBlock {
    pub key: PowerSpectrumKey,
    pub samples: Vec<Sample>,
    pub properties: Vec<PowerSpectrumProperty>,
    /// Sample rows of the "positions" gradient sub-block, if requested.
    pub positions_gradient_samples: Option<Vec<GradientSample>>,
    /// Sample rows of the "cell" gradient sub-block, if requested; each entry
    /// is the index of the base-block row it differentiates.
    pub cell_gradient_samples: Option<Vec<i32>>,
}

/// Label-level shape of one spherical-expansion block: the key, the sample
/// rows, the radial indexes `n` on the property axis, and the sample rows of
/// the "positions" gradient sub-block when it was computed.
pub struct SphericalExpansionBlock {
    pub key: SphericalExpansionKey,
    pub samples: Vec<Sample>,
    pub properties: Vec<i32>,
    pub positions_gradient_samples: Option<Vec<GradientSample>>,
}

/// Row correspondence between one power-spectrum block and the two
/// spherical-expansion blocks it combines.
pub struct SamplesMapping {
    /// For each value row of the output block, the row holding the same
    /// sample in the first and in the second spherical-expansion block.
    pub values: Vec<(usize, usize)>,
    /// For each positions-gradient row of the output block, the matching
    /// gradient row in each spherical-expansion block; a gradient sample may
    /// exist for only one of the two neighbor species, so either side may be
    /// absent independently.
    pub gradients: Vec<(Option<usize>, Option<usize>)>,
}

/// Fully resolved coordinates for one output property `(l, n1, n2)`: which
/// two spherical-expansion blocks to combine and where `n1` and `n2` sit on
/// their property axes. All resolution happens before the numeric kernel
/// runs, so the kernel only ever uses these pre-validated indexes.
#[derive(Debug, Clone, Copy, PartialEq, Eq, Structural)]
pub struct SpxPropertiesToCombine {
    /// value of l; the kernel contracts `2l + 1` magnetic components and
    /// divides by `sqrt(2l + 1)`
    pub spherical_harmonics_l: usize,
    /// index of the first spherical-expansion block
    pub block_1: usize,
    /// index of the second spherical-expansion block
    pub block_2: usize,
    /// position of n1 in the first block's properties
    pub property_1: usize,
    /// position of n2 in the second block's properties
    pub property_2: usize,
}

/// The keys of a spherical-expansion block list, in order.
pub open spec fn spx_keys(s: Seq<SphericalExpansionBlock>) -> Seq<SphericalExpansionKey> {
    s.map_values(|b: SphericalExpansionBlock| b.key)
}

/// Position of the first block carrying `key`.
pub fn spx_block_position(
    spx: &Vec<SphericalExpansionBlock>,
    key: &SphericalExpansionKey,
) -> (r: Option<usize>)
    ensures
        match r {
            Some(i) => first_index(spx_keys(spx@), *key) == Some(i as int),
            None => first_index(spx_keys(spx@), *key) is None,
        },
{
    proof {
        assert(spx_keys(spx@).len() == spx@.len());
    }
    let mut i: usize = 0;
    while i < spx.len()
        invariant
            0 <= i <= spx@.len(),
            spx_keys(spx@).len() == spx@.len(),
            forall|j: int| 0 <= j < i ==> spx_keys(spx@)[j] != *key,
        decreases spx@.len() - i,
    {
        proof {
            assert(spx_keys(spx@)[i as int] == spx@[i as int].key);
        }
        if spx[i].key == *key {
            proof {
                lemma_first_index_is(spx_keys(spx@), *key, i as int);
            }
            return Some(i);
        }
        i = i + 1;
    }
    proof {
        lemma_first_index(spx_keys(spx@), *key);
        if spx_keys(spx@).contains(*key) {
            let w = choose|w: int|
                0 <= w < spx_keys(spx@).len() && spx_keys(spx@)[w] == *key;
            assert(spx_keys(spx@)[w] != *key);
        }
    }
    None
}

/// The spherical-expansion sample axis does not depend on the angular
/// channel: any two non-padding blocks sharing center and neighbor species
/// carry the same sample rows. Blocks that are empty on both axes only pad
/// the key set over the angular range and are exempt. The planner requests
/// exactly this, and a compliant inner calculator preserves it.
pub open spec fn channel_independent_samples(spx: Seq<SphericalExpansionBlock>) -> bool {
    forall|i: int, j: int|
        0 <= i < spx.len() && 0 <= j < spx.len()
            && (#[trigger] spx[i]).key.species_center == (#[trigger] spx[j]).key.species_center
            && spx[i].key.species_neighbor == spx[j].key.species_neighbor
            && (spx[i].properties@.len() > 0 || spx[i].samples@.len() > 0)
            && (spx[j].properties@.len() > 0 || spx[j].samples@.len() > 0)
            ==> spx[i].samples@ == spx[j].samples@
}

} // verus!
