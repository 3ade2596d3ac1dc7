//! Laws relating the planner, the mapper and the index resolution: the
//! planner's selection suffices for the mapper, relabeling the stored
//! neighbor pair only swaps the two sides of a combination, and resolved
//! coordinates depend on one output element alone.
use vstd::prelude::*;

use crate::blocks::{
    channel_independent_samples, spx_keys, PowerSpectrumBlock, SamplesMapping,
    SphericalExpansionBlock, SpxPropertiesToCombine,
};
use crate::combine::{combination_correct_for, combine_key_1, combine_key_2};
use crate::labels::{
    distinct, first_index, lemma_first_index, PowerSpectrumKey, PowerSpectrumProperty, Sample,
};
use crate::mapper::{block_resolvable, mapping_correct_for, mapping_resolvable, spx_key_1, spx_key_2};
use crate::planner::{needs_key, needs_sample, pair_matches, requests_l, sample_match, selection_correct};

verus! {

/// A spherical-expansion tensor that covers the inner request — its keys
/// are distinct, it has a block for every key the output needs, every block
/// of a requested angular channel holds every sample the output needs for
/// its species pair, and gradient sub-blocks are everywhere if the output
/// asks for gradients anywhere — resolves the whole sample mapping: no
/// lookup of the mapper can miss. The mapper resolves samples only on
/// requested channels, so the empty padding blocks of unrequested channels
/// do not matter. The planner's output provides exactly these guarantees,
/// so a compliant inner calculator makes the mapper's internal errors
/// unreachable.
pub proof fn lemma_covering_expansion_resolves(
    desc: Seq<PowerSpectrumBlock>,
    spx: Seq<SphericalExpansionBlock>,
    max_angular: int,
)
    requires
        distinct(spx_keys(spx)),
        forall|k: crate::labels::SphericalExpansionKey|
            #[trigger] needs_key(desc, max_angular, k) ==> spx_keys(spx).contains(k),
        forall|t: int, x: Sample|
            0 <= t < spx.len() && requests_l(desc, spx[t].key.spherical_harmonics_l)
                && #[trigger] needs_sample(
                desc,
                spx[t].key.species_center,
                spx[t].key.species_neighbor,
                x,
            ) ==> spx[t].samples@.contains(x),
        (exists|b: int|
            0 <= b < desc.len() && (#[trigger] desc[b]).positions_gradient_samples is Some)
            ==> (forall|t: int|
            0 <= t < spx.len() ==> (#[trigger] spx[t]).positions_gradient_samples is Some),
    ensures
        mapping_resolvable(desc, spx),
{
    assert forall|b: int| 0 <= b < desc.len() implies block_resolvable(
        #[trigger] desc[b],
        spx,
    ) by {
        let d = desc[b];
        if d.properties@.len() > 0 {
            let k1key = spx_key_1(d);
            let k2key = spx_key_2(d);
            assert(needs_key(desc, max_angular, k1key)) by {
                assert(pair_matches(desc[b], k1key.species_center, k1key.species_neighbor));
                assert((desc[b].properties@[0]).l == k1key.spherical_harmonics_l);
            }
            assert(needs_key(desc, max_angular, k2key)) by {
                assert(pair_matches(desc[b], k2key.species_center, k2key.species_neighbor));
                assert((desc[b].properties@[0]).l == k2key.spherical_harmonics_l);
            }
            lemma_first_index(spx_keys(spx), k1key);
            lemma_first_index(spx_keys(spx), k2key);
            let k1 = first_index(spx_keys(spx), k1key)->Some_0;
            let k2 = first_index(spx_keys(spx), k2key)->Some_0;
            assert(spx_keys(spx)[k1] == k1key && spx_keys(spx)[k2] == k2key);
            assert(spx[k1].key == k1key && spx[k2].key == k2key);
            assert(requests_l(desc, k1key.spherical_harmonics_l)) by {
                assert((desc[b].properties@[0]).l == k1key.spherical_harmonics_l);
            }
            assert forall|i: int| 0 <= i < d.samples@.len() implies first_index(
                spx[k1].samples@,
                #[trigger] d.samples@[i],
            ) is Some by {
                assert(needs_sample(desc, k1key.species_center, k1key.species_neighbor, d.samples@[i]))
                    by {
                    assert(sample_match(desc[b], i, k1key.species_center, k1key.species_neighbor, d.samples@[i]));
                }
                assert(spx[k1].samples@.contains(d.samples@[i]));
                lemma_first_index(spx[k1].samples@, d.samples@[i]);
            }
            assert forall|i: int| 0 <= i < d.samples@.len() implies first_index(
                spx[k2].samples@,
                #[trigger] d.samples@[i],
            ) is Some by {
                assert(needs_sample(desc, k2key.species_center, k2key.species_neighbor, d.samples@[i]))
                    by {
                    assert(sample_match(desc[b], i, k2key.species_center, k2key.species_neighbor, d.samples@[i]));
                }
                assert(spx[k2].samples@.contains(d.samples@[i]));
                lemma_first_index(spx[k2].samples@, d.samples@[i]);
            }
            if d.positions_gradient_samples is Some {
                assert(exists|b2: int|
                    0 <= b2 < desc.len() && (#[trigger] desc[b2]).positions_gradient_samples
                        is Some) by {
                    assert(desc[b].positions_gradient_samples is Some);
                }
            }
        }
    }
}

/// Partial computation cannot fail at row alignment: whatever subset of
/// keys, samples and properties a caller requests, the selection the
/// planner derives for it already resolves the sample mapping, as long as
/// the request carries no gradient sub-blocks (gradient rows are added by
/// the inner calculator on top of the planned selection).
pub proof fn lemma_planner_selection_resolves(
    desc: Seq<PowerSpectrumBlock>,
    max_angular: int,
    sel: Seq<SphericalExpansionBlock>,
)
    requires
        selection_correct(desc, max_angular, sel),
        forall|b: int| 0 <= b < desc.len() ==> (#[trigger] desc[b]).positions_gradient_samples is None,
    ensures
        mapping_resolvable(desc, sel),
{
    assert forall|t: int, x: Sample|
        0 <= t < sel.len() && requests_l(desc, sel[t].key.spherical_harmonics_l)
            && #[trigger] needs_sample(
            desc,
            sel[t].key.species_center,
            sel[t].key.species_neighbor,
            x,
        ) implies sel[t].samples@.contains(x) by {
        assert(crate::planner::block_contents_ok(desc, sel[t]));
    }
    lemma_covering_expansion_resolves(desc, sel, max_angular);
}

/// The key with its neighbor species relabeled in the opposite order.
pub open spec fn mirror_key(k: PowerSpectrumKey) -> PowerSpectrumKey {
    PowerSpectrumKey {
        species_center: k.species_center,
        species_neighbor_1: k.species_neighbor_2,
        species_neighbor_2: k.species_neighbor_1,
    }
}

/// The property with its radial indexes swapped to follow `mirror_key`.
pub open spec fn mirror_property(p: PowerSpectrumProperty) -> PowerSpectrumProperty {
    PowerSpectrumProperty { l: p.l, n1: p.n2, n2: p.n1 }
}

/// Ordering symmetry of the stored neighbor labeling: resolving a property
/// under the mirrored key swaps the two sides of the combination and
/// changes nothing else. The kernel multiplies the two sides pointwise
/// over the same magnetic components, so the accumulated value is
/// unchanged, and the sqrt(2) correction for distinct neighbor species
/// applies to the mirrored labeling exactly when it applies to the
/// original.
pub proof fn lemma_ordering_symmetry_combination(
    key: PowerSpectrumKey,
    prop: PowerSpectrumProperty,
    spx: Seq<SphericalExpansionBlock>,
    e: SpxPropertiesToCombine,
    em: SpxPropertiesToCombine,
)
    requires
        combination_correct_for(key, prop, spx, e),
        combination_correct_for(mirror_key(key), mirror_property(prop), spx, em),
    ensures
        em.block_1 == e.block_2,
        em.block_2 == e.block_1,
        em.property_1 == e.property_2,
        em.property_2 == e.property_1,
        em.spherical_harmonics_l == e.spherical_harmonics_l,
        (mirror_key(key).species_neighbor_1 != mirror_key(key).species_neighbor_2) == (
        key.species_neighbor_1 != key.species_neighbor_2),
{
    assert(combine_key_1(mirror_key(key), mirror_property(prop)) == combine_key_2(key, prop));
    assert(combine_key_2(mirror_key(key), mirror_property(prop)) == combine_key_1(key, prop));
}

/// Ordering symmetry of the sample correspondence: a block with the
/// mirrored key and the same samples (and the same leading angular
/// channel) maps every row to the same pair of spherical-expansion rows,
/// with the two sides exchanged.
pub proof fn lemma_ordering_symmetry_mapping(
    d: PowerSpectrumBlock,
    dm: PowerSpectrumBlock,
    spx: Seq<SphericalExpansionBlock>,
    m: SamplesMapping,
    mm: SamplesMapping,
)
    requires
        d.properties@.len() > 0,
        dm.properties@.len() > 0,
        dm.key == mirror_key(d.key),
        dm.samples@ == d.samples@,
        dm.properties@[0].l == d.properties@[0].l,
        dm.positions_gradient_samples == d.positions_gradient_samples,
        mapping_correct_for(d, spx, m),
        mapping_correct_for(dm, spx, mm),
    ensures
        mm.values@.len() == m.values@.len(),
        forall|i: int|
            0 <= i < m.values@.len() ==> (#[trigger] mm.values@[i]).0 == m.values@[i].1
                && mm.values@[i].1 == m.values@[i].0,
        mm.gradients@.len() == m.gradients@.len(),
        forall|i: int|
            0 <= i < m.gradients@.len() ==> (#[trigger] mm.gradients@[i]).0 == m.gradients@[i].1
                && mm.gradients@[i].1 == m.gradients@[i].0,
{
    assert(spx_key_1(dm) == spx_key_2(d));
    assert(spx_key_2(dm) == spx_key_1(d));
    let k1 = first_index(spx_keys(spx), spx_key_1(d))->Some_0;
    let k2 = first_index(spx_keys(spx), spx_key_2(d))->Some_0;
    assert forall|i: int| 0 <= i < m.values@.len() implies (#[trigger] mm.values@[i]).0
        == m.values@[i].1 && mm.values@[i].1 == m.values@[i].0 by {
        assert(first_index(spx[k2].samples@, d.samples@[i]) == Some(m.values@[i].1 as int));
        assert(first_index(spx[k2].samples@, dm.samples@[i]) == Some(mm.values@[i].0 as int));
        assert(first_index(spx[k1].samples@, d.samples@[i]) == Some(m.values@[i].0 as int));
        assert(first_index(spx[k1].samples@, dm.samples@[i]) == Some(mm.values@[i].1 as int));
    }
    match d.positions_gradient_samples {
        Some(g) => {
            assert forall|i: int| 0 <= i < m.gradients@.len() implies (
            #[trigger] mm.gradients@[i]).0 == m.gradients@[i].1 && mm.gradients@[i].1
                == m.gradients@[i].0 by {
                let s1 = first_index(spx[k1].positions_gradient_samples->Some_0@, g@[i]);
                let s2 = first_index(spx[k2].positions_gradient_samples->Some_0@, g@[i]);
                assert(crate::mapper::position_option_matches(m.gradients@[i].0, s1));
                assert(crate::mapper::position_option_matches(m.gradients@[i].1, s2));
                assert(crate::mapper::position_option_matches(mm.gradients@[i].0, s2));
                assert(crate::mapper::position_option_matches(mm.gradients@[i].1, s1));
                match (m.gradients@[i].0, mm.gradients@[i].1) {
                    (Some(a), Some(b)) => {
                        assert(a as int == b as int);
                    },
                    _ => {},
                }
                match (m.gradients@[i].1, mm.gradients@[i].0) {
                    (Some(a), Some(b)) => {
                        assert(a as int == b as int);
                    },
                    _ => {},
                }
            }
        },
        None => {},
    }
}

/// Selection invariance: the coordinates the kernel combines for one
/// output element are a function of that element's key, sample and
/// property alone — never of the other keys, samples or properties in the
/// request. Two requests sharing an element therefore read exactly the
/// same spherical-expansion entries for it, and computing a subset yields
/// the same values as restricting a full computation to that subset.
pub proof fn lemma_selection_invariance(
    d1: PowerSpectrumBlock,
    m1: SamplesMapping,
    e1: SpxPropertiesToCombine,
    d2: PowerSpectrumBlock,
    m2: SamplesMapping,
    e2: SpxPropertiesToCombine,
    spx: Seq<SphericalExpansionBlock>,
    i1: int,
    i2: int,
    prop: PowerSpectrumProperty,
)
    requires
        distinct(spx_keys(spx)),
        channel_independent_samples(spx),
        d1.key == d2.key,
        d1.properties@.len() > 0,
        d2.properties@.len() > 0,
        0 <= i1 < d1.samples@.len(),
        0 <= i2 < d2.samples@.len(),
        d1.samples@[i1] == d2.samples@[i2],
        block_resolvable(d1, spx),
        block_resolvable(d2, spx),
        mapping_correct_for(d1, spx, m1),
        mapping_correct_for(d2, spx, m2),
        combination_correct_for(d1.key, prop, spx, e1),
        combination_correct_for(d2.key, prop, spx, e2),
    ensures
        e1 == e2,
        m1.values@[i1] == m2.values@[i2],
{
    assert(e1 == e2) by {
        assert(e1.block_1 == e2.block_1 && e1.block_2 == e2.block_2);
        assert(e1.property_1 == e2.property_1 && e1.property_2 == e2.property_2);
        assert(e1.spherical_harmonics_l == prop.l as usize);
    }
    let k11 = first_index(spx_keys(spx), spx_key_1(d1))->Some_0;
    let k12 = first_index(spx_keys(spx), spx_key_2(d1))->Some_0;
    let k21 = first_index(spx_keys(spx), spx_key_1(d2))->Some_0;
    let k22 = first_index(spx_keys(spx), spx_key_2(d2))->Some_0;
    lemma_first_index(spx_keys(spx), spx_key_1(d1));
    lemma_first_index(spx_keys(spx), spx_key_2(d1));
    lemma_first_index(spx_keys(spx), spx_key_1(d2));
    lemma_first_index(spx_keys(spx), spx_key_2(d2));
    assert(spx_keys(spx).len() == spx.len());
    assert(spx[k11].key == spx_key_1(d1) && spx[k21].key == spx_key_1(d2)) by {
        assert(spx_keys(spx)[k11] == spx[k11].key);
        assert(spx_keys(spx)[k21] == spx[k21].key);
    }
    assert(spx[k12].key == spx_key_2(d1) && spx[k22].key == spx_key_2(d2)) by {
        assert(spx_keys(spx)[k12] == spx[k12].key);
        assert(spx_keys(spx)[k22] == spx[k22].key);
    }
    // the two blocks resolve samples on possibly different angular
    // channels, but the sample axes agree because the spherical-expansion
    // sample axis is channel independent
    assert(spx[k11].samples@ == spx[k21].samples@);
    assert(spx[k12].samples@ == spx[k22].samples@);
    assert(first_index(spx[k11].samples@, d1.samples@[i1]) == Some(m1.values@[i1].0 as int));
    assert(first_index(spx[k21].samples@, d2.samples@[i2]) == Some(m2.values@[i2].0 as int));
    assert(first_index(spx[k12].samples@, d1.samples@[i1]) == Some(m1.values@[i1].1 as int));
    assert(first_index(spx[k22].samples@, d2.samples@[i2]) == Some(m2.values@[i2].1 as int));
    assert(m1.values@[i1].0 == m2.values@[i2].0 && m1.values@[i1].1 == m2.values@[i2].1);
}

/// Index safety of a finished plan: when the spherical expansion has
/// distinct keys and channel-independent sample axes (as a compliant inner
/// calculator produces for a planned selection), the row indexes resolved
/// by the mapper are valid in the per-property blocks resolved by the
/// combiner — even though the mapper resolved them on a different angular
/// channel — and the rows they point at hold exactly the output row's
/// sample. The numeric kernel therefore accesses every array strictly in
/// bounds, at the coordinates of the requested element.
pub proof fn lemma_plan_indexes_valid(
    d: PowerSpectrumBlock,
    m: SamplesMapping,
    e: SpxPropertiesToCombine,
    spx: Seq<SphericalExpansionBlock>,
    i: int,
    prop: PowerSpectrumProperty,
)
    requires
        distinct(spx_keys(spx)),
        channel_independent_samples(spx),
        d.properties@.len() > 0,
        0 <= i < d.samples@.len(),
        block_resolvable(d, spx),
        mapping_correct_for(d, spx, m),
        combination_correct_for(d.key, prop, spx, e),
    ensures
        (m.values@[i].0 as int) < spx[e.block_1 as int].samples@.len(),
        (m.values@[i].1 as int) < spx[e.block_2 as int].samples@.len(),
        spx[e.block_1 as int].samples@[m.values@[i].0 as int] == d.samples@[i],
        spx[e.block_2 as int].samples@[m.values@[i].1 as int] == d.samples@[i],
{
    let k1 = first_index(spx_keys(spx), spx_key_1(d))->Some_0;
    let k2 = first_index(spx_keys(spx), spx_key_2(d))->Some_0;
    lemma_first_index(spx_keys(spx), spx_key_1(d));
    lemma_first_index(spx_keys(spx), spx_key_2(d));
    assert(spx_keys(spx).len() == spx.len());
    assert(spx[k1].key == spx_key_1(d)) by {
        assert(spx_keys(spx)[k1] == spx[k1].key);
    }
    assert(spx[k2].key == spx_key_2(d)) by {
        assert(spx_keys(spx)[k2] == spx[k2].key);
    }
    // the mapper's block and the combiner's block share center and
    // neighbor species, so their sample axes agree
    assert(spx[e.block_1 as int].samples@ == spx[k1].samples@);
    assert(spx[e.block_2 as int].samples@ == spx[k2].samples@);
    assert(first_index(spx[k1].samples@, d.samples@[i]) == Some(m.values@[i].0 as int));
    assert(first_index(spx[k2].samples@, d.samples@[i]) == Some(m.values@[i].1 as int));
    lemma_first_index(spx[k1].samples@, d.samples@[i]);
    lemma_first_index(spx[k2].samples@, d.samples@[i]);
}

} // verus!
