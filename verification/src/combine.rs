//! Per-property index resolution: for every requested `(l, n1, n2)`, the
//! two spherical-expansion blocks to combine and the positions of `n1` and
//! `n2` on their property axes.
use vstd::prelude::*;

use crate::blocks::{
    spx_block_position, spx_keys, SphericalExpansionBlock, SpxPropertiesToCombine,
};
use crate::errors::Error;
use crate::labels::{
    first_index, lemma_first_index, radial_position, PowerSpectrumKey, PowerSpectrumProperty,
    SphericalExpansionKey,
};

verus! {

/// The spherical-expansion key combined on the first slot for property
/// `prop` of an output block keyed `key`.
pub open spec fn combine_key_1(
    key: PowerSpectrumKey,
    prop: PowerSpectrumProperty,
) -> SphericalExpansionKey {
    SphericalExpansionKey {
        spherical_harmonics_l: prop.l,
        species_center: key.species_center,
        species_neighbor: key.species_neighbor_1,
    }
}

/// As `combine_key_1`, for the second slot.
pub open spec fn combine_key_2(
    key: PowerSpectrumKey,
    prop: PowerSpectrumProperty,
) -> SphericalExpansionKey {
    SphericalExpansionKey {
        spherical_harmonics_l: prop.l,
        species_center: key.species_center,
        species_neighbor: key.species_neighbor_2,
    }
}

/// Property `prop` of a block keyed `key` can be resolved against `spx`:
/// its channel is valid, both spherical-expansion blocks exist and their
/// property axes hold `n1` respectively `n2`. The planner guarantees this
/// for every property it was shown.
pub open spec fn property_resolvable(
    key: PowerSpectrumKey,
    prop: PowerSpectrumProperty,
    spx: Seq<SphericalExpansionBlock>,
) -> bool {
    let k1 = first_index(spx_keys(spx), combine_key_1(key, prop));
    let k2 = first_index(spx_keys(spx), combine_key_2(key, prop));
    &&& prop.l >= 0
    &&& k1 is Some
    &&& k2 is Some
    &&& first_index(spx[k1->Some_0].properties@, prop.n1) is Some
    &&& first_index(spx[k2->Some_0].properties@, prop.n2) is Some
}

/// `e` holds exactly the coordinates the kernel must combine for property
/// `prop` of a block keyed `key`: the first blocks carrying the two
/// spherical-expansion keys, and the first positions of `n1` and `n2` on
/// their property axes — all in bounds, so the numeric kernel needs no
/// further validation.
pub open spec fn combination_correct_for(
    key: PowerSpectrumKey,
    prop: PowerSpectrumProperty,
    spx: Seq<SphericalExpansionBlock>,
    e: SpxPropertiesToCombine,
) -> bool {
    &&& prop.l >= 0
    &&& e.spherical_harmonics_l == prop.l as usize
    &&& 0 <= e.block_1 < spx.len()
    &&& 0 <= e.block_2 < spx.len()
    &&& first_index(spx_keys(spx), combine_key_1(key, prop)) == Some(e.block_1 as int)
    &&& first_index(spx_keys(spx), combine_key_2(key, prop)) == Some(e.block_2 as int)
    &&& spx[e.block_1 as int].key == combine_key_1(key, prop)
    &&& spx[e.block_2 as int].key == combine_key_2(key, prop)
    &&& e.property_1 < spx[e.block_1 as int].properties@.len()
    &&& e.property_2 < spx[e.block_2 as int].properties@.len()
    &&& first_index(spx[e.block_1 as int].properties@, prop.n1) == Some(e.property_1 as int)
    &&& first_index(spx[e.block_2 as int].properties@, prop.n2) == Some(e.property_2 as int)
    &&& spx[e.block_1 as int].properties@[e.property_1 as int] == prop.n1
    &&& spx[e.block_2 as int].properties@[e.property_2 as int] == prop.n2
}

/// Resolve, once per output block, every coordinate the kernel needs to
/// combine spherical-expansion values into the block's properties. A
/// lookup that the planner's guarantees should have made impossible to
/// miss reports an internal error.
pub fn spx_properties_to_combine(
    key: &PowerSpectrumKey,
    properties: &Vec<PowerSpectrumProperty>,
    spherical_expansion: &Vec<SphericalExpansionBlock>,
) -> (r: Result<Vec<SpxPropertiesToCombine>, Error>)
    ensures
        r is Ok <==> (forall|p: int|
            0 <= p < properties@.len() ==> property_resolvable(
                *key,
                #[trigger] properties@[p],
                spherical_expansion@,
            )),
        r is Err ==> r->Err_0 is Internal,
        r is Ok ==> (r->Ok_0)@.len() == properties@.len() && forall|p: int|
            0 <= p < properties@.len() ==> combination_correct_for(
                *key,
                #[trigger] properties@[p],
                spherical_expansion@,
                (r->Ok_0)@[p],
            ),
{
    let mut r: Vec<SpxPropertiesToCombine> = Vec::new();
    let mut p: usize = 0;
    while p < properties.len()
        invariant
            0 <= p <= properties@.len(),
            r@.len() == p,
            forall|p2: int|
                0 <= p2 < p ==> property_resolvable(
                    *key,
                    #[trigger] properties@[p2],
                    spherical_expansion@,
                ),
            forall|p2: int|
                0 <= p2 < p ==> combination_correct_for(
                    *key,
                    #[trigger] properties@[p2],
                    spherical_expansion@,
                    r@[p2],
                ),
        decreases properties@.len() - p,
    {
        let prop = properties[p];
        if prop.l < 0 {
            proof {
                assert(!property_resolvable(*key, properties@[p as int], spherical_expansion@));
            }
            return Err(
                Error::Internal("negative spherical harmonics channel in property".to_owned()),
            );
        }
        let key_1 = SphericalExpansionKey {
            spherical_harmonics_l: prop.l,
            species_center: key.species_center,
            species_neighbor: key.species_neighbor_1,
        };
        let block_1 = match spx_block_position(spherical_expansion, &key_1) {
            Some(id) => id,
            None => {
                proof {
                    assert(!property_resolvable(*key, properties@[p as int], spherical_expansion@));
                }
                return Err(
                    Error::Internal(
                        "missing first neighbor species block in spherical expansion".to_owned(),
                    ),
                );
            },
        };
        let key_2 = SphericalExpansionKey {
            spherical_harmonics_l: prop.l,
            species_center: key.species_center,
            species_neighbor: key.species_neighbor_2,
        };
        let block_2 = match spx_block_position(spherical_expansion, &key_2) {
            Some(id) => id,
            None => {
                proof {
                    assert(!property_resolvable(*key, properties@[p as int], spherical_expansion@));
                }
                return Err(
                    Error::Internal(
                        "missing second neighbor species block in spherical expansion".to_owned(),
                    ),
                );
            },
        };
        proof {
            lemma_first_index(spx_keys(spherical_expansion@), key_1);
            lemma_first_index(spx_keys(spherical_expansion@), key_2);
            assert(spx_keys(spherical_expansion@).len() == spherical_expansion@.len());
            assert(spx_keys(spherical_expansion@)[block_1 as int]
                == spherical_expansion@[block_1 as int].key);
            assert(spx_keys(spherical_expansion@)[block_2 as int]
                == spherical_expansion@[block_2 as int].key);
        }
        let spx_block_1 = &spherical_expansion[block_1];
        let spx_block_2 = &spherical_expansion[block_2];
        let property_1 = match radial_position(&spx_block_1.properties, prop.n1) {
            Some(q) => q,
            None => {
                proof {
                    assert(!property_resolvable(*key, properties@[p as int], spherical_expansion@));
                }
                return Err(Error::Internal("missing n1".to_owned()));
            },
        };
        let property_2 = match radial_position(&spx_block_2.properties, prop.n2) {
            Some(q) => q,
            None => {
                proof {
                    assert(!property_resolvable(*key, properties@[p as int], spherical_expansion@));
                }
                return Err(Error::Internal("missing n2".to_owned()));
            },
        };
        proof {
            lemma_first_index(spx_block_1.properties@, prop.n1);
            lemma_first_index(spx_block_2.properties@, prop.n2);
        }
        r.push(
            SpxPropertiesToCombine {
                spherical_harmonics_l: prop.l as usize,
                block_1,
                block_2,
                property_1,
                property_2,
            },
        );
        proof {
            assert(combination_correct_for(
                *key,
                properties@[p as int],
                spherical_expansion@,
                r@[p as int],
            ));
        }
        p = p + 1;
    }
    proof {
        assert forall|p2: int| 0 <= p2 < properties@.len() implies property_resolvable(
            *key,
            properties@[p2],
            spherical_expansion@,
        ) by {}
    }
    Ok(r)
}

} // verus!
