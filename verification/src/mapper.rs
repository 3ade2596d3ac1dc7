//! The samples-correspondence mapper: for every block of the requested
//! output, the row-to-row correspondence with the two spherical-expansion
//! blocks being combined, for values and for positions gradients.
use vstd::prelude::*;

use crate::blocks::{
    spx_block_position, spx_keys, PowerSpectrumBlock, SamplesMapping, SphericalExpansionBlock,
};
use crate::errors::Error;
use crate::labels::{
    first_index, gradient_sample_position, sample_position, SphericalExpansionKey,
};

verus! {

/// The first spherical-expansion key a non-empty block combines: the
/// angular channel of its first requested property with its first neighbor
/// species. The sample axis of the spherical expansion is channel
/// independent, so any requested channel serves for sample resolution.
pub open spec fn spx_key_1(d: PowerSpectrumBlock) -> SphericalExpansionKey {
    SphericalExpansionKey {
        spherical_harmonics_l: d.properties@[0].l,
        species_center: d.key.species_center,
        species_neighbor: d.key.species_neighbor_1,
    }
}

/// As `spx_key_1`, for the second neighbor species.
pub open spec fn spx_key_2(d: PowerSpectrumBlock) -> SphericalExpansionKey {
    SphericalExpansionKey {
        spherical_harmonics_l: d.properties@[0].l,
        species_center: d.key.species_center,
        species_neighbor: d.key.species_neighbor_2,
    }
}

/// A resolved row position, `r`, agrees with the specification-level
/// lookup, `s`.
pub open spec fn position_option_matches(r: Option<usize>, s: Option<int>) -> bool {
    match r {
        Some(a) => s == Some(a as int),
        None => s is None,
    }
}

/// Every lookup the mapper performs for block `d` succeeds: both
/// spherical-expansion blocks exist, every output sample resolves on both
/// sides, and gradient sub-blocks are present wherever the output carries
/// one. Blocks without properties use a placeholder identity mapping and
/// resolve nothing. The planner guarantees all of this for its own output.
pub open spec fn block_resolvable(
    d: PowerSpectrumBlock,
    spx: Seq<SphericalExpansionBlock>,
) -> bool {
    d.properties@.len() == 0 || {
        let k1 = first_index(spx_keys(spx), spx_key_1(d));
        let k2 = first_index(spx_keys(spx), spx_key_2(d));
        &&& k1 is Some
        &&& k2 is Some
        &&& forall|i: int|
            0 <= i < d.samples@.len() ==> first_index(
                spx[k1->Some_0].samples@,
                #[trigger] d.samples@[i],
            ) is Some
        &&& forall|i: int|
            0 <= i < d.samples@.len() ==> first_index(
                spx[k2->Some_0].samples@,
                #[trigger] d.samples@[i],
            ) is Some
        &&& (d.positions_gradient_samples is Some ==> spx[k1->Some_0].positions_gradient_samples
            is Some && spx[k2->Some_0].positions_gradient_samples is Some)
    }
}

/// Every block of `desc` can be resolved against `spx`.
pub open spec fn mapping_resolvable(
    desc: Seq<PowerSpectrumBlock>,
    spx: Seq<SphericalExpansionBlock>,
) -> bool {
    forall|b: int| 0 <= b < desc.len() ==> block_resolvable(#[trigger] desc[b], spx)
}

/// `m` is the exact row correspondence for block `d` against `spx`: row `i`
/// of the output maps to the rows holding the same sample in the two
/// spherical-expansion blocks of `d`'s species pairs; gradient rows map the
/// same way, each side independently optional. A block without properties
/// gets the placeholder identity mapping, which the kernel never consults.
pub open spec fn mapping_correct_for(
    d: PowerSpectrumBlock,
    spx: Seq<SphericalExpansionBlock>,
    m: SamplesMapping,
) -> bool {
    if d.properties@.len() == 0 {
        &&& m.values@.len() == d.samples@.len()
        &&& forall|i: int| 0 <= i < m.values@.len() ==> #[trigger] m.values@[i] == (i as usize, i as usize)
        &&& match d.positions_gradient_samples {
            Some(g) => m.gradients@.len() == g@.len() && forall|i: int|
                0 <= i < m.gradients@.len() ==> #[trigger] m.gradients@[i] == (
                Some(i as usize),
                Some(i as usize),
            ),
            None => m.gradients@.len() == 0,
        }
    } else {
        let k1 = first_index(spx_keys(spx), spx_key_1(d))->Some_0;
        let k2 = first_index(spx_keys(spx), spx_key_2(d))->Some_0;
        &&& m.values@.len() == d.samples@.len()
        &&& forall|i: int|
            0 <= i < d.samples@.len() ==> first_index(spx[k1].samples@, #[trigger] d.samples@[i])
                == Some(m.values@[i].0 as int) && first_index(spx[k2].samples@, d.samples@[i])
                == Some(m.values@[i].1 as int)
        &&& match d.positions_gradient_samples {
            Some(g) => {
                &&& m.gradients@.len() == g@.len()
                &&& forall|i: int|
                    0 <= i < g@.len() ==> position_option_matches(
                        (#[trigger] m.gradients@[i]).0,
                        first_index(spx[k1].positions_gradient_samples->Some_0@, g@[i]),
                    ) && position_option_matches(
                        m.gradients@[i].1,
                        first_index(spx[k2].positions_gradient_samples->Some_0@, g@[i]),
                    )
            },
            None => m.gradients@.len() == 0,
        }
    }
}

/// The row correspondence between every block of the requested output and
/// the spherical-expansion blocks it combines, for values and for
/// positions gradients. Any lookup that the planner's guarantees should
/// have made impossible to miss reports an internal error.
pub fn samples_mapping(
    descriptor: &Vec<PowerSpectrumBlock>,
    spherical_expansion: &Vec<SphericalExpansionBlock>,
) -> (r: Result<Vec<SamplesMapping>, Error>)
    ensures
        r is Ok <==> mapping_resolvable(descriptor@, spherical_expansion@),
        r is Err ==> r->Err_0 is Internal,
        r is Ok ==> (r->Ok_0)@.len() == descriptor@.len() && forall|b: int|
            0 <= b < descriptor@.len() ==> mapping_correct_for(
                #[trigger] descriptor@[b],
                spherical_expansion@,
                (r->Ok_0)@[b],
            ),
{
    let mut mapping: Vec<SamplesMapping> = Vec::new();
    let mut b: usize = 0;
    while b < descriptor.len()
        invariant
            0 <= b <= descriptor@.len(),
            mapping@.len() == b,
            forall|b2: int|
                0 <= b2 < b ==> block_resolvable(#[trigger] descriptor@[b2], spherical_expansion@),
            forall|b2: int|
                0 <= b2 < b ==> mapping_correct_for(
                    #[trigger] descriptor@[b2],
                    spherical_expansion@,
                    mapping@[b2],
                ),
        decreases descriptor@.len() - b,
    {
        let d = &descriptor[b];
        if d.properties.len() == 0 {
            // no properties to compute: the sample correspondence cannot be
            // resolved (there is no angular channel to pick a block with)
            // and is never consulted, so use a placeholder identity mapping
            let mut values: Vec<(usize, usize)> = Vec::new();
            let mut i: usize = 0;
            while i < d.samples.len()
                invariant
                    0 <= i <= d.samples@.len(),
                    values@.len() == i,
                    forall|j: int| 0 <= j < i ==> #[trigger] values@[j] == (j as usize, j as usize),
                decreases d.samples@.len() - i,
            {
                values.push((i, i));
                i = i + 1;
            }
            let mut gradients: Vec<(Option<usize>, Option<usize>)> = Vec::new();
            match &d.positions_gradient_samples {
                Some(g) => {
                    let mut i: usize = 0;
                    while i < g.len()
                        invariant
                            0 <= i <= g@.len(),
                            gradients@.len() == i,
                            forall|j: int|
                                0 <= j < i ==> #[trigger] gradients@[j] == (
                                Some(j as usize),
                                Some(j as usize),
                            ),
                        decreases g@.len() - i,
                    {
                        gradients.push((Some(i), Some(i)));
                        i = i + 1;
                    }
                },
                None => {},
            }
            mapping.push(SamplesMapping { values, gradients });
        } else {
            let first_l = d.properties[0].l;
            let key_1 = SphericalExpansionKey {
                spherical_harmonics_l: first_l,
                species_center: d.key.species_center,
                species_neighbor: d.key.species_neighbor_1,
            };
            let block_id_1 = match spx_block_position(spherical_expansion, &key_1) {
                Some(id) => id,
                None => {
                    proof {
                        assert(!block_resolvable(descriptor@[b as int], spherical_expansion@));
                    }
                    return Err(
                        Error::Internal("missing block in spherical expansion".to_owned()),
                    );
                },
            };
            let key_2 = SphericalExpansionKey {
                spherical_harmonics_l: first_l,
                species_center: d.key.species_center,
                species_neighbor: d.key.species_neighbor_2,
            };
            let block_id_2 = match spx_block_position(spherical_expansion, &key_2) {
                Some(id) => id,
                None => {
                    proof {
                        assert(!block_resolvable(descriptor@[b as int], spherical_expansion@));
                    }
                    return Err(
                        Error::Internal("missing block in spherical expansion".to_owned()),
                    );
                },
            };
            proof {
                crate::labels::lemma_first_index(spx_keys(spherical_expansion@), key_1);
                crate::labels::lemma_first_index(spx_keys(spherical_expansion@), key_2);
                assert(spx_keys(spherical_expansion@).len() == spherical_expansion@.len());
            }
            let spx_block_1 = &spherical_expansion[block_id_1];
            let spx_block_2 = &spherical_expansion[block_id_2];

            let mut values: Vec<(usize, usize)> = Vec::new();
            let mut i: usize = 0;
            while i < d.samples.len()
                invariant
                    0 <= i <= d.samples@.len(),
                    values@.len() == i,
                    0 <= b < descriptor@.len(),
                    d == descriptor@[b as int],
                    d.properties@.len() > 0,
                    0 <= block_id_1 < spherical_expansion@.len(),
                    0 <= block_id_2 < spherical_expansion@.len(),
                    spx_block_1 == spherical_expansion@[block_id_1 as int],
                    spx_block_2 == spherical_expansion@[block_id_2 as int],
                    first_index(spx_keys(spherical_expansion@), spx_key_1(descriptor@[b as int]))
                        == Some(block_id_1 as int),
                    first_index(spx_keys(spherical_expansion@), spx_key_2(descriptor@[b as int]))
                        == Some(block_id_2 as int),
                    forall|j: int|
                        0 <= j < i ==> first_index(
                            spherical_expansion@[block_id_1 as int].samples@,
                            #[trigger] d.samples@[j],
                        ) == Some(values@[j].0 as int) && first_index(
                            spherical_expansion@[block_id_2 as int].samples@,
                            d.samples@[j],
                        ) == Some(values@[j].1 as int),
                decreases d.samples@.len() - i,
            {
                let sample = d.samples[i];
                let sample_1 = match sample_position(&spx_block_1.samples, &sample) {
                    Some(p) => p,
                    None => {
                        proof {
                            assert(!block_resolvable(descriptor@[b as int], spherical_expansion@));
                        }
                        return Err(
                            Error::Internal("missing spherical expansion sample".to_owned()),
                        );
                    },
                };
                let sample_2 = match sample_position(&spx_block_2.samples, &sample) {
                    Some(p) => p,
                    None => {
                        proof {
                            assert(!block_resolvable(descriptor@[b as int], spherical_expansion@));
                        }
                        return Err(
                            Error::Internal("missing spherical expansion sample".to_owned()),
                        );
                    },
                };
                values.push((sample_1, sample_2));
                i = i + 1;
            }

            let mut gradients: Vec<(Option<usize>, Option<usize>)> = Vec::new();
            match &d.positions_gradient_samples {
                Some(g) => {
                    let spx_gradient_1 = match &spx_block_1.positions_gradient_samples {
                        Some(rows) => rows,
                        None => {
                            proof {
                                assert(!block_resolvable(
                                    descriptor@[b as int],
                                    spherical_expansion@,
                                ));
                            }
                            return Err(
                                Error::Internal(
                                    "missing spherical expansion gradients".to_owned(),
                                ),
                            );
                        },
                    };
                    let spx_gradient_2 = match &spx_block_2.positions_gradient_samples {
                        Some(rows) => rows,
                        None => {
                            proof {
                                assert(!block_resolvable(
                                    descriptor@[b as int],
                                    spherical_expansion@,
                                ));
                            }
                            return Err(
                                Error::Internal(
                                    "missing spherical expansion gradients".to_owned(),
                                ),
                            );
                        },
                    };
                    let mut i: usize = 0;
                    while i < g.len()
                        invariant
                            0 <= i <= g@.len(),
                            gradients@.len() == i,
                            spx_gradient_1@
                                == spherical_expansion@[block_id_1 as int].positions_gradient_samples->Some_0@,
                            spx_gradient_2@
                                == spherical_expansion@[block_id_2 as int].positions_gradient_samples->Some_0@,
                            0 <= block_id_1 < spherical_expansion@.len(),
                            0 <= block_id_2 < spherical_expansion@.len(),
                            forall|j: int|
                                0 <= j < i ==> position_option_matches(
                                    (#[trigger] gradients@[j]).0,
                                    first_index(spx_gradient_1@, g@[j]),
                                ) && position_option_matches(
                                    gradients@[j].1,
                                    first_index(spx_gradient_2@, g@[j]),
                                ),
                        decreases g@.len() - i,
                    {
                        let row = g[i];
                        let p1 = gradient_sample_position(spx_gradient_1, &row);
                        let p2 = gradient_sample_position(spx_gradient_2, &row);
                        gradients.push((p1, p2));
                        i = i + 1;
                    }
                },
                None => {},
            }
            mapping.push(SamplesMapping { values, gradients });
            proof {
                assert(block_resolvable(descriptor@[b as int], spherical_expansion@));
            }
        }
        b = b + 1;
    }
    Ok(mapping)
}

} // verus!
