//! The selection planner: from a requested power-spectrum output, derive
//! the minimal sufficient spherical-expansion request, grouped by angular
//! channel, center species and neighbor species, padded so the key set is
//! dense over the referenced angular range.
use vstd::prelude::*;

use crate::blocks::{spx_keys, PowerSpectrumBlock, SphericalExpansionBlock};
use crate::errors::Error;
use crate::labels::{
    distinct, insert_radial, insert_sample, sample_lex_before, sorted_radial_axis,
    sorted_sample_axis, Sample, SphericalExpansionKey,
};
use crate::power_spectrum::SoapPowerSpectrum;

verus! {

/// `b` is an output block whose key pairs center species `c` with neighbor
/// species `s` (on either neighbor slot).
pub open spec fn pair_matches(b: PowerSpectrumBlock, c: i32, s: i32) -> bool {
    b.key.species_center == c && (b.key.species_neighbor_1 == s || b.key.species_neighbor_2 == s)
}

/// Some output block pairs center species `c` with neighbor species `s`.
pub open spec fn pair_needed(desc: Seq<PowerSpectrumBlock>, c: i32, s: i32) -> bool {
    exists|b: int| 0 <= b < desc.len() && pair_matches(#[trigger] desc[b], c, s)
}

/// Property `p` of block `b` asks angular channel `l` of the spherical
/// expansion of species pair `(c, s)` to carry radial index `n`: the block
/// is centered on `c` and the property combines `(l, n)` on a neighbor slot
/// holding `s`.
pub open spec fn radial_match(
    b: PowerSpectrumBlock,
    p: int,
    l: i32,
    c: i32,
    s: i32,
    n: i32,
) -> bool {
    b.key.species_center == c && b.properties@[p].l == l && ((b.key.species_neighbor_1 == s
        && b.properties@[p].n1 == n) || (b.key.species_neighbor_2 == s && b.properties@[p].n2
        == n))
}

/// Radial index `n` is needed for the spherical-expansion key `(l, c, s)`
/// somewhere in the requested output.
pub open spec fn needs_radial(
    desc: Seq<PowerSpectrumBlock>,
    l: i32,
    c: i32,
    s: i32,
    n: i32,
) -> bool {
    exists|b: int, p: int|
        0 <= b < desc.len() && 0 <= p < desc[b].properties@.len() && #[trigger] radial_match(
            desc[b],
            p,
            l,
            c,
            s,
            n,
        )
}

/// As `needs_radial`, restricted to properties strictly before position
/// `(bq, pq)` in the block-then-property scan order.
pub open spec fn needs_radial_before(
    desc: Seq<PowerSpectrumBlock>,
    bq: int,
    pq: int,
    l: i32,
    c: i32,
    s: i32,
    n: i32,
) -> bool {
    exists|b: int, p: int|
        0 <= b < desc.len() && 0 <= p < desc[b].properties@.len() && (b < bq || (b == bq && p
            < pq)) && #[trigger] radial_match(desc[b], p, l, c, s, n)
}

/// Sample row `i` of block `b` requests sample `x` from the spherical
/// expansion of species pair `(c, s)`.
pub open spec fn sample_match(b: PowerSpectrumBlock, i: int, c: i32, s: i32, x: Sample) -> bool {
    pair_matches(b, c, s) && b.samples@[i] == x
}

/// Sample `x` is needed for species pair `(c, s)` somewhere in the
/// requested output. The union is intentionally taken over every matching
/// block, whatever its angular channels: the spherical-expansion sample
/// axis is channel-independent.
pub open spec fn needs_sample(desc: Seq<PowerSpectrumBlock>, c: i32, s: i32, x: Sample) -> bool {
    exists|b: int, i: int|
        0 <= b < desc.len() && 0 <= i < desc[b].samples@.len() && #[trigger] sample_match(
            desc[b],
            i,
            c,
            s,
            x,
        )
}

/// As `needs_sample`, restricted to rows strictly before `(bq, iq)` in the
/// block-then-row scan order.
pub open spec fn needs_sample_before(
    desc: Seq<PowerSpectrumBlock>,
    bq: int,
    iq: int,
    c: i32,
    s: i32,
    x: Sample,
) -> bool {
    exists|b: int, i: int|
        0 <= b < desc.len() && 0 <= i < desc[b].samples@.len() && (b < bq || (b == bq && i < iq))
            && #[trigger] sample_match(desc[b], i, c, s, x)
}

/// Angular channel `l` appears in some requested property.
pub open spec fn requests_l(desc: Seq<PowerSpectrumBlock>, l: i32) -> bool {
    exists|b: int, p: int|
        0 <= b < desc.len() && 0 <= p < desc[b].properties@.len() && (#[trigger] desc[b].properties@[p]).l
            == l
}

/// As `requests_l`, restricted to properties strictly before `(bq, pq)`.
pub open spec fn requests_l_before(desc: Seq<PowerSpectrumBlock>, bq: int, pq: int, l: i32) -> bool {
    exists|b: int, p: int|
        0 <= b < desc.len() && 0 <= p < desc[b].properties@.len() && (b < bq || (b == bq && p
            < pq)) && (#[trigger] desc[b].properties@[p]).l == l
}

/// Every requested property has a non-negative angular channel.
pub open spec fn all_l_nonnegative(desc: Seq<PowerSpectrumBlock>) -> bool {
    forall|b: int, p: int|
        0 <= b < desc.len() && 0 <= p < desc[b].properties@.len() ==> (
        #[trigger] desc[b].properties@[p]).l >= 0
}

/// The spherical-expansion key `k` must exist in the inner request for
/// `desc`: its species pair appears in some output key, and its angular
/// channel is either requested somewhere or within the configured maximum.
pub open spec fn needs_key(
    desc: Seq<PowerSpectrumBlock>,
    max_angular: int,
    k: SphericalExpansionKey,
) -> bool {
    pair_needed(desc, k.species_center, k.species_neighbor) && (requests_l(
        desc,
        k.spherical_harmonics_l,
    ) || 0 <= k.spherical_harmonics_l <= max_angular)
}

/// The requested radial indexes for spherical-expansion key `(l, c, s)`:
/// scan every property of every block and keep the deduplicated `n1`/`n2`
/// entries whose block and slot match, in ascending order.
fn selected_properties_for(
    descriptor: &Vec<PowerSpectrumBlock>,
    l: i32,
    c: i32,
    s: i32,
) -> (r: Vec<i32>)
    ensures
        distinct(r@),
        sorted_radial_axis(r@),
        forall|n: i32| r@.contains(n) <==> needs_radial(descriptor@, l, c, s, n),
{
    let mut r: Vec<i32> = Vec::new();
    let mut b: usize = 0;
    while b < descriptor.len()
        invariant
            0 <= b <= descriptor@.len(),
            distinct(r@),
            sorted_radial_axis(r@),
            forall|n: i32| r@.contains(n) <==> needs_radial_before(descriptor@, b as int, 0, l, c, s, n),
        decreases descriptor@.len() - b,
    {
        let block = &descriptor[b];
        if block.key.species_center == c && (block.key.species_neighbor_1 == s
            || block.key.species_neighbor_2 == s) {
            let mut p: usize = 0;
            while p < block.properties.len()
                invariant
                    0 <= b < descriptor@.len(),
                    0 <= p <= block.properties@.len(),
                    block == descriptor@[b as int],
                    block.key.species_center == c,
                    block.key.species_neighbor_1 == s || block.key.species_neighbor_2 == s,
                    distinct(r@),
                    sorted_radial_axis(r@),
                    forall|n: i32|
                        r@.contains(n) <==> needs_radial_before(
                            descriptor@,
                            b as int,
                            p as int,
                            l,
                            c,
                            s,
                            n,
                        ),
                decreases block.properties@.len() - p,
            {
                let prop = block.properties[p];
                let ghost rmid = r@;
                if prop.l == l {
                    if block.key.species_neighbor_1 == s {
                        insert_radial(&mut r, prop.n1);
                    }
                    let ghost rn1 = r@;
                    if block.key.species_neighbor_2 == s {
                        insert_radial(&mut r, prop.n2);
                    }
                    proof {
                        assert forall|n: i32| r@.contains(n) <==> needs_radial_before(
                            descriptor@,
                            b as int,
                            p + 1,
                            l,
                            c,
                            s,
                            n,
                        ) by {
                            if r@.contains(n) {
                                if rmid.contains(n) {
                                    let (b2, p2) = choose|b2: int, p2: int|
                                        0 <= b2 < descriptor@.len() && 0 <= p2 < descriptor@[b2].properties@.len()
                                            && (b2 < b as int || (b2 == b as int && p2 < p as int))
                                            && radial_match(descriptor@[b2], p2, l, c, s, n);
                                    assert(radial_match(descriptor@[b2], p2, l, c, s, n));
                                } else {
                                    assert(radial_match(descriptor@[b as int], p as int, l, c, s, n));
                                }
                            }
                            if needs_radial_before(descriptor@, b as int, p + 1, l, c, s, n) {
                                let (b2, p2) = choose|b2: int, p2: int|
                                    0 <= b2 < descriptor@.len() && 0 <= p2 < descriptor@[b2].properties@.len()
                                        && (b2 < b as int || (b2 == b as int && p2 < p + 1))
                                        && radial_match(descriptor@[b2], p2, l, c, s, n);
                                if b2 == b as int && p2 == p as int {
                                    assert(r@.contains(n));
                                } else {
                                    assert(needs_radial_before(descriptor@, b as int, p as int, l, c, s, n));
                                }
                            }
                        }
                    }
                } else {
                    proof {
                        assert forall|n: i32| r@.contains(n) <==> needs_radial_before(
                            descriptor@,
                            b as int,
                            p + 1,
                            l,
                            c,
                            s,
                            n,
                        ) by {
                            if needs_radial_before(descriptor@, b as int, p + 1, l, c, s, n) {
                                let (b2, p2) = choose|b2: int, p2: int|
                                    0 <= b2 < descriptor@.len() && 0 <= p2 < descriptor@[b2].properties@.len()
                                        && (b2 < b as int || (b2 == b as int && p2 < p + 1))
                                        && radial_match(descriptor@[b2], p2, l, c, s, n);
                                if b2 == b as int && p2 == p as int {
                                    assert(false);
                                } else {
                                    assert(needs_radial_before(descriptor@, b as int, p as int, l, c, s, n));
                                }
                            }
                        }
                    }
                }
                p = p + 1;
            }
            proof {
                assert forall|n: i32| r@.contains(n) <==> needs_radial_before(
                    descriptor@,
                    b + 1,
                    0,
                    l,
                    c,
                    s,
                    n,
                ) by {
                    if r@.contains(n) {
                        let (b2, p2) = choose|b2: int, p2: int|
                            0 <= b2 < descriptor@.len() && 0 <= p2 < descriptor@[b2].properties@.len()
                                && (b2 < b as int || (b2 == b as int && p2 < block.properties@.len()))
                                && radial_match(descriptor@[b2], p2, l, c, s, n);
                        assert(radial_match(descriptor@[b2], p2, l, c, s, n));
                    }
                    if needs_radial_before(descriptor@, b + 1, 0, l, c, s, n) {
                        let (b2, p2) = choose|b2: int, p2: int|
                            0 <= b2 < descriptor@.len() && 0 <= p2 < descriptor@[b2].properties@.len()
                                && (b2 < b + 1) && radial_match(descriptor@[b2], p2, l, c, s, n);
                        if b2 == b as int {
                            assert(needs_radial_before(descriptor@, b as int, block.properties@.len() as int, l, c, s, n));
                        } else {
                            assert(needs_radial_before(descriptor@, b as int, 0, l, c, s, n));
                        }
                    }
                }
            }
        } else {
            proof {
                assert forall|n: i32| r@.contains(n) <==> needs_radial_before(
                    descriptor@,
                    b + 1,
                    0,
                    l,
                    c,
                    s,
                    n,
                ) by {
                    if needs_radial_before(descriptor@, b + 1, 0, l, c, s, n) {
                        let (b2, p2) = choose|b2: int, p2: int|
                            0 <= b2 < descriptor@.len() && 0 <= p2 < descriptor@[b2].properties@.len()
                                && (b2 < b + 1) && radial_match(descriptor@[b2], p2, l, c, s, n);
                        if b2 == b as int {
                            assert(false);
                        } else {
                            assert(needs_radial_before(descriptor@, b as int, 0, l, c, s, n));
                        }
                    }
                }
            }
        }
        b = b + 1;
    }
    proof {
        assert forall|n: i32| r@.contains(n) <==> needs_radial(descriptor@, l, c, s, n) by {
            if r@.contains(n) {
                let (b2, p2) = choose|b2: int, p2: int|
                    0 <= b2 < descriptor@.len() && 0 <= p2 < descriptor@[b2].properties@.len() && (
                    b2 < descriptor@.len() || (b2 == descriptor@.len() && p2 < 0)) && radial_match(
                        descriptor@[b2],
                        p2,
                        l,
                        c,
                        s,
                        n,
                    );
                assert(radial_match(descriptor@[b2], p2, l, c, s, n));
            }
            if needs_radial(descriptor@, l, c, s, n) {
                let (b2, p2) = choose|b2: int, p2: int|
                    0 <= b2 < descriptor@.len() && 0 <= p2 < descriptor@[b2].properties@.len()
                        && radial_match(descriptor@[b2], p2, l, c, s, n);
                assert(needs_radial_before(descriptor@, descriptor@.len() as int, 0, l, c, s, n));
            }
        }
    }
    r
}

/// The requested sample rows for a spherical-expansion block of species
/// pair `(c, s)`: the deduplicated union of the sample axes of every output
/// block whose key pairs `c` with `s`, in system-then-center order.
fn selected_samples_for(descriptor: &Vec<PowerSpectrumBlock>, c: i32, s: i32) -> (r: Vec<Sample>)
    ensures
        distinct(r@),
        sorted_sample_axis(r@),
        forall|x: Sample| r@.contains(x) <==> needs_sample(descriptor@, c, s, x),
{
    let mut r: Vec<Sample> = Vec::new();
    let mut b: usize = 0;
    while b < descriptor.len()
        invariant
            0 <= b <= descriptor@.len(),
            distinct(r@),
            sorted_sample_axis(r@),
            forall|x: Sample|
                r@.contains(x) <==> needs_sample_before(descriptor@, b as int, 0, c, s, x),
        decreases descriptor@.len() - b,
    {
        let block = &descriptor[b];
        if block.key.species_center == c && (block.key.species_neighbor_1 == s
            || block.key.species_neighbor_2 == s) {
            let mut i: usize = 0;
            while i < block.samples.len()
                invariant
                    0 <= b < descriptor@.len(),
                    0 <= i <= block.samples@.len(),
                    block == descriptor@[b as int],
                    pair_matches(descriptor@[b as int], c, s),
                    distinct(r@),
                    sorted_sample_axis(r@),
                    forall|x: Sample|
                        r@.contains(x) <==> needs_sample_before(
                            descriptor@,
                            b as int,
                            i as int,
                            c,
                            s,
                            x,
                        ),
                decreases block.samples@.len() - i,
            {
                let row = block.samples[i];
                let ghost rmid = r@;
                insert_sample(&mut r, row);
                proof {
                    assert forall|x: Sample| r@.contains(x) <==> needs_sample_before(
                        descriptor@,
                        b as int,
                        i + 1,
                        c,
                        s,
                        x,
                    ) by {
                        if r@.contains(x) {
                            if rmid.contains(x) {
                                let (b2, i2) = choose|b2: int, i2: int|
                                    0 <= b2 < descriptor@.len() && 0 <= i2 < descriptor@[b2].samples@.len()
                                        && (b2 < b as int || (b2 == b as int && i2 < i as int))
                                        && sample_match(descriptor@[b2], i2, c, s, x);
                                assert(sample_match(descriptor@[b2], i2, c, s, x));
                            } else {
                                assert(sample_match(descriptor@[b as int], i as int, c, s, x));
                            }
                        }
                        if needs_sample_before(descriptor@, b as int, i + 1, c, s, x) {
                            let (b2, i2) = choose|b2: int, i2: int|
                                0 <= b2 < descriptor@.len() && 0 <= i2 < descriptor@[b2].samples@.len()
                                    && (b2 < b as int || (b2 == b as int && i2 < i + 1))
                                    && sample_match(descriptor@[b2], i2, c, s, x);
                            if b2 == b as int && i2 == i as int {
                                assert(x == row);
                                assert(r@.contains(x));
                            } else {
                                assert(needs_sample_before(descriptor@, b as int, i as int, c, s, x));
                            }
                        }
                    }
                }
                i = i + 1;
            }
            proof {
                assert forall|x: Sample| r@.contains(x) <==> needs_sample_before(
                    descriptor@,
                    b + 1,
                    0,
                    c,
                    s,
                    x,
                ) by {
                    if r@.contains(x) {
                        let (b2, i2) = choose|b2: int, i2: int|
                            0 <= b2 < descriptor@.len() && 0 <= i2 < descriptor@[b2].samples@.len()
                                && (b2 < b as int || (b2 == b as int && i2 < block.samples@.len()))
                                && sample_match(descriptor@[b2], i2, c, s, x);
                        assert(sample_match(descriptor@[b2], i2, c, s, x));
                    }
                    if needs_sample_before(descriptor@, b + 1, 0, c, s, x) {
                        let (b2, i2) = choose|b2: int, i2: int|
                            0 <= b2 < descriptor@.len() && 0 <= i2 < descriptor@[b2].samples@.len()
                                && (b2 < b + 1) && sample_match(descriptor@[b2], i2, c, s, x);
                        if b2 == b as int {
                            assert(needs_sample_before(descriptor@, b as int, block.samples@.len() as int, c, s, x));
                        } else {
                            assert(needs_sample_before(descriptor@, b as int, 0, c, s, x));
                        }
                    }
                }
            }
        } else {
            proof {
                assert forall|x: Sample| r@.contains(x) <==> needs_sample_before(
                    descriptor@,
                    b + 1,
                    0,
                    c,
                    s,
                    x,
                ) by {
                    if needs_sample_before(descriptor@, b + 1, 0, c, s, x) {
                        let (b2, i2) = choose|b2: int, i2: int|
                            0 <= b2 < descriptor@.len() && 0 <= i2 < descriptor@[b2].samples@.len()
                                && (b2 < b + 1) && sample_match(descriptor@[b2], i2, c, s, x);
                        if b2 == b as int {
                            assert(false);
                        } else {
                            assert(needs_sample_before(descriptor@, b as int, 0, c, s, x));
                        }
                    }
                }
            }
        }
        b = b + 1;
    }
    proof {
        assert forall|x: Sample| r@.contains(x) <==> needs_sample(descriptor@, c, s, x) by {
            if r@.contains(x) {
                let (b2, i2) = choose|b2: int, i2: int|
                    0 <= b2 < descriptor@.len() && 0 <= i2 < descriptor@[b2].samples@.len() && (b2
                        < descriptor@.len() || (b2 == descriptor@.len() && i2 < 0)) && sample_match(
                        descriptor@[b2],
                        i2,
                        c,
                        s,
                        x,
                    );
                assert(sample_match(descriptor@[b2], i2, c, s, x));
            }
            if needs_sample(descriptor@, c, s, x) {
                let (b2, i2) = choose|b2: int, i2: int|
                    0 <= b2 < descriptor@.len() && 0 <= i2 < descriptor@[b2].samples@.len()
                        && sample_match(descriptor@[b2], i2, c, s, x);
                assert(needs_sample_before(descriptor@, descriptor@.len() as int, 0, c, s, x));
            }
        }
    }
    r
}

/// A (center species, neighbor species) pair referenced by some output key.
#[derive(Debug, Clone, Copy, PartialEq, Eq, Structural, Hash)]
pub struct SpeciesPair {
    pub species_center: i32,
    pub species_neighbor: i32,
}

/// Append `x` unless already present, keeping first-seen order and
/// distinctness.
fn insert_species_pair(v: &mut Vec<SpeciesPair>, x: SpeciesPair)
    requires
        distinct(old(v)@),
    ensures
        distinct(final(v)@),
        forall|y: SpeciesPair| final(v)@.contains(y) <==> (old(v)@.contains(y) || y == x),
{
    let mut i: usize = 0;
    while i < v.len()
        invariant
            0 <= i <= v@.len(),
            v@ == old(v)@,
            distinct(v@),
            forall|j: int| 0 <= j < i ==> v@[j] != x,
        decreases v@.len() - i,
    {
        if v[i] == x {
            assert(v@.contains(x)) by {
                assert(v@[i as int] == x);
            }
            return ;
        }
        i = i + 1;
    }
    assert(forall|j: int| 0 <= j < v@.len() ==> v@[j] != x);
    let ghost before = v@;
    v.push(x);
    proof {
        assert forall|y: SpeciesPair| v@.contains(y) <==> (before.contains(y) || y == x) by {
            assert(v@ == before.push(x));
            if v@.contains(y) {
                let j = choose|j: int| 0 <= j < v@.len() && v@[j] == y;
                if j < before.len() {
                    assert(before[j] == y);
                }
            }
            if before.contains(y) {
                let j = choose|j: int| 0 <= j < before.len() && before[j] == y;
                assert(v@[j] == y);
            }
            if y == x {
                assert(v@[before.len() as int] == y);
            }
        }
    }
}

/// As `pair_needed`, restricted to output blocks strictly before `bq`.
pub open spec fn pair_needed_before(
    desc: Seq<PowerSpectrumBlock>,
    bq: int,
    c: i32,
    s: i32,
) -> bool {
    exists|b: int| 0 <= b < desc.len() && b < bq && pair_matches(#[trigger] desc[b], c, s)
}

/// Every (center species, neighbor species) pair referenced by an output
/// key, deduplicated, in first-seen order.
fn collect_species_pairs(descriptor: &Vec<PowerSpectrumBlock>) -> (r: Vec<SpeciesPair>)
    ensures
        distinct(r@),
        forall|j: int|
            0 <= j < r@.len() ==> pair_needed(
                descriptor@,
                (#[trigger] r@[j]).species_center,
                r@[j].species_neighbor,
            ),
        forall|c: i32, s: i32|
            #[trigger] pair_needed(descriptor@, c, s) ==> r@.contains(
                SpeciesPair { species_center: c, species_neighbor: s },
            ),
{
    let mut r: Vec<SpeciesPair> = Vec::new();
    let mut b: usize = 0;
    while b < descriptor.len()
        invariant
            0 <= b <= descriptor@.len(),
            distinct(r@),
            forall|j: int|
                0 <= j < r@.len() ==> pair_needed_before(
                    descriptor@,
                    b as int,
                    (#[trigger] r@[j]).species_center,
                    r@[j].species_neighbor,
                ),
            forall|c: i32, s: i32|
                #[trigger] pair_needed_before(descriptor@, b as int, c, s) ==> r@.contains(
                    SpeciesPair { species_center: c, species_neighbor: s },
                ),
        decreases descriptor@.len() - b,
    {
        let block = &descriptor[b];
        let c = block.key.species_center;
        let s1 = block.key.species_neighbor_1;
        let s2 = block.key.species_neighbor_2;
        insert_species_pair(&mut r, SpeciesPair { species_center: c, species_neighbor: s1 });
        insert_species_pair(&mut r, SpeciesPair { species_center: c, species_neighbor: s2 });
        proof {
            assert forall|j: int| 0 <= j < r@.len() implies pair_needed_before(
                descriptor@,
                b + 1,
                (r@[j]).species_center,
                r@[j].species_neighbor,
            ) by {
                let y = r@[j];
                assert(r@.contains(y));
                if y == (SpeciesPair { species_center: c, species_neighbor: s1 }) || y == (
                SpeciesPair { species_center: c, species_neighbor: s2 }) {
                    assert(pair_matches(descriptor@[b as int], y.species_center, y.species_neighbor));
                } else {
                    assert(pair_needed_before(descriptor@, b as int, y.species_center, y.species_neighbor));
                    let b2 = choose|b2: int|
                        0 <= b2 < descriptor@.len() && b2 < b as int && pair_matches(
                            descriptor@[b2],
                            y.species_center,
                            y.species_neighbor,
                        );
                    assert(pair_matches(descriptor@[b2], y.species_center, y.species_neighbor));
                }
            }
            assert forall|c2: i32, s2b: i32| pair_needed_before(descriptor@, b + 1, c2, s2b)
                implies r@.contains(SpeciesPair { species_center: c2, species_neighbor: s2b }) by {
                let b2 = choose|b2: int|
                    0 <= b2 < descriptor@.len() && b2 < b + 1 && pair_matches(
                        descriptor@[b2],
                        c2,
                        s2b,
                    );
                if b2 == b as int {
                    assert(c2 == c && (s2b == s1 || s2b == s2));
                } else {
                    assert(pair_needed_before(descriptor@, b as int, c2, s2b));
                }
            }
        }
        b = b + 1;
    }
    proof {
        assert forall|j: int| 0 <= j < r@.len() implies pair_needed(
            descriptor@,
            (r@[j]).species_center,
            r@[j].species_neighbor,
        ) by {
            assert(pair_needed_before(
                descriptor@,
                descriptor@.len() as int,
                r@[j].species_center,
                r@[j].species_neighbor,
            ));
            let b2 = choose|b2: int|
                0 <= b2 < descriptor@.len() && b2 < descriptor@.len() && pair_matches(
                    descriptor@[b2],
                    r@[j].species_center,
                    r@[j].species_neighbor,
                );
            assert(pair_matches(descriptor@[b2], r@[j].species_center, r@[j].species_neighbor));
        }
        assert forall|c: i32, s: i32| pair_needed(descriptor@, c, s) implies r@.contains(
            SpeciesPair { species_center: c, species_neighbor: s },
        ) by {
            let b2 = choose|b2: int|
                0 <= b2 < descriptor@.len() && pair_matches(descriptor@[b2], c, s);
            assert(pair_needed_before(descriptor@, descriptor@.len() as int, c, s));
        }
    }
    r
}

/// The angular channels appearing in requested properties, deduplicated,
/// in first-seen order.
#[verifier::spinoff_prover]
fn collect_requested_channels(descriptor: &Vec<PowerSpectrumBlock>) -> (r: Vec<i32>)
    ensures
        distinct(r@),
        forall|j: int| 0 <= j < r@.len() ==> requests_l(descriptor@, #[trigger] r@[j]),
        forall|l: i32| #[trigger] requests_l(descriptor@, l) ==> r@.contains(l),
{
    let mut r: Vec<i32> = Vec::new();
    let mut b: usize = 0;
    while b < descriptor.len()
        invariant
            0 <= b <= descriptor@.len(),
            distinct(r@),
            sorted_radial_axis(r@),
            forall|j: int|
                0 <= j < r@.len() ==> requests_l_before(descriptor@, b as int, 0, #[trigger] r@[j]),
            forall|l: i32| #[trigger] requests_l_before(descriptor@, b as int, 0, l) ==> r@.contains(l),
        decreases descriptor@.len() - b,
    {
        let block = &descriptor[b];
        let mut p: usize = 0;
        while p < block.properties.len()
            invariant
                0 <= b < descriptor@.len(),
                0 <= p <= block.properties@.len(),
                block == descriptor@[b as int],
                distinct(r@),
                sorted_radial_axis(r@),
                forall|j: int|
                    0 <= j < r@.len() ==> requests_l_before(
                        descriptor@,
                        b as int,
                        p as int,
                        #[trigger] r@[j],
                    ),
                forall|l: i32|
                    #[trigger] requests_l_before(descriptor@, b as int, p as int, l)
                        ==> r@.contains(l),
            decreases block.properties@.len() - p,
        {
            let prop = block.properties[p];
            let ghost rmid = r@;
            insert_radial(&mut r, prop.l);
            proof {
                assert forall|j: int| 0 <= j < r@.len() implies requests_l_before(
                    descriptor@,
                    b as int,
                    p + 1,
                    r@[j],
                ) by {
                    let lv = r@[j];
                    assert(r@.contains(lv));
                    if lv == prop.l {
                        assert((descriptor@[b as int].properties@[p as int]).l == lv);
                    } else {
                        assert(rmid.contains(lv));
                        assert(requests_l_before(descriptor@, b as int, p as int, lv));
                        let (b2, p2) = choose|b2: int, p2: int|
                            0 <= b2 < descriptor@.len() && 0 <= p2 < descriptor@[b2].properties@.len()
                                && (b2 < b as int || (b2 == b as int && p2 < p as int)) && (
                            descriptor@[b2].properties@[p2]).l == lv;
                        assert((descriptor@[b2].properties@[p2]).l == lv);
                    }
                }
                assert forall|l: i32| requests_l_before(descriptor@, b as int, p + 1, l)
                    implies r@.contains(l) by {
                    let (b2, p2) = choose|b2: int, p2: int|
                        0 <= b2 < descriptor@.len() && 0 <= p2 < descriptor@[b2].properties@.len()
                            && (b2 < b as int || (b2 == b as int && p2 < p + 1)) && (
                        descriptor@[b2].properties@[p2]).l == l;
                    if b2 == b as int && p2 == p as int {
                        assert(l == prop.l);
                    } else {
                        assert(requests_l_before(descriptor@, b as int, p as int, l));
                    }
                }
            }
            p = p + 1;
        }
        proof {
            assert forall|j: int| 0 <= j < r@.len() implies requests_l_before(
                descriptor@,
                b + 1,
                0,
                r@[j],
            ) by {
                assert(requests_l_before(descriptor@, b as int, block.properties@.len() as int, r@[j]));
                let (b2, p2) = choose|b2: int, p2: int|
                    0 <= b2 < descriptor@.len() && 0 <= p2 < descriptor@[b2].properties@.len() && (
                    b2 < b as int || (b2 == b as int && p2 < block.properties@.len())) && (
                descriptor@[b2].properties@[p2]).l == r@[j];
                assert((descriptor@[b2].properties@[p2]).l == r@[j]);
            }
            assert(p as int == block.properties@.len() as int);
            assert forall|l: i32| requests_l_before(descriptor@, b + 1, 0, l) implies r@.contains(
                l,
            ) by {
                let (b2, p2) = choose|b2: int, p2: int|
                    0 <= b2 < descriptor@.len() && 0 <= p2 < descriptor@[b2].properties@.len() && (
                    b2 < b + 1) && (descriptor@[b2].properties@[p2]).l == l;
                if b2 == b as int {
                    assert(requests_l_before(descriptor@, b as int, p as int, l));
                } else {
                    assert(requests_l_before(descriptor@, b as int, 0, l));
                }
            }
        }
        b = b + 1;
    }
    proof {
        assert forall|j: int| 0 <= j < r@.len() implies requests_l(descriptor@, r@[j]) by {
            assert(requests_l_before(descriptor@, descriptor@.len() as int, 0, r@[j]));
            let (b2, p2) = choose|b2: int, p2: int|
                0 <= b2 < descriptor@.len() && 0 <= p2 < descriptor@[b2].properties@.len() && (b2
                    < descriptor@.len() || (b2 == descriptor@.len() && p2 < 0)) && (
            descriptor@[b2].properties@[p2]).l == r@[j];
            assert((descriptor@[b2].properties@[p2]).l == r@[j]);
        }
        assert forall|l: i32| requests_l(descriptor@, l) implies r@.contains(l) by {
            let (b2, p2) = choose|b2: int, p2: int|
                0 <= b2 < descriptor@.len() && 0 <= p2 < descriptor@[b2].properties@.len() && (
            descriptor@[b2].properties@[p2]).l == l;
            assert(requests_l_before(descriptor@, descriptor@.len() as int, 0, l));
        }
    }
    r
}

/// The requested channels together with every channel up to `max_angular`,
/// deduplicated: the channel set the inner key set must be dense over.
fn pad_angular_channels(channels: &Vec<i32>, max_angular: i32) -> (r: Vec<i32>)
    requires
        0 <= max_angular < i32::MAX,
    ensures
        distinct(r@),
        forall|j: int|
            0 <= j < r@.len() ==> channels@.contains(#[trigger] r@[j]) || 0 <= r@[j]
                <= max_angular,
        forall|l: i32| #[trigger] channels@.contains(l) ==> r@.contains(l),
        forall|l: i32| 0 <= l <= max_angular ==> #[trigger] r@.contains(l),
{
    let mut r: Vec<i32> = Vec::new();
    let mut i: usize = 0;
    while i < channels.len()
        invariant
            0 <= i <= channels@.len(),
            distinct(r@),
            sorted_radial_axis(r@),
            forall|j: int| 0 <= j < r@.len() ==> channels@.contains(#[trigger] r@[j]),
            forall|i2: int| 0 <= i2 < i ==> r@.contains(#[trigger] channels@[i2]),
        decreases channels@.len() - i,
    {
        let ghost rmid = r@;
        insert_radial(&mut r, channels[i]);
        proof {
            assert(channels@.contains(channels@[i as int]));
            assert forall|j: int| 0 <= j < r@.len() implies channels@.contains(r@[j]) by {
                let lv = r@[j];
                assert(r@.contains(lv));
                if lv != channels@[i as int] {
                    assert(rmid.contains(lv));
                    let j2 = choose|j2: int| 0 <= j2 < rmid.len() && rmid[j2] == lv;
                    assert(channels@.contains(rmid[j2]));
                }
            }
        }
        i = i + 1;
    }
    proof {
        assert forall|l: i32| channels@.contains(l) implies r@.contains(l) by {
            let j = choose|j: int| 0 <= j < channels@.len() && channels@[j] == l;
            assert(r@.contains(channels@[j]));
        }
    }
    let mut l2: i32 = 0;
    while l2 <= max_angular
        invariant
            0 <= l2 <= max_angular + 1,
            max_angular < i32::MAX,
            distinct(r@),
            sorted_radial_axis(r@),
            forall|j: int|
                0 <= j < r@.len() ==> channels@.contains(#[trigger] r@[j]) || 0 <= r@[j] < l2,
            forall|l: i32| #[trigger] channels@.contains(l) ==> r@.contains(l),
            forall|l: i32| 0 <= l < l2 ==> #[trigger] r@.contains(l),
        decreases max_angular + 1 - l2,
    {
        let ghost rmid = r@;
        insert_radial(&mut r, l2);
        proof {
            assert forall|j: int| 0 <= j < r@.len() implies channels@.contains(r@[j]) || 0
                <= r@[j] < l2 + 1 by {
                let lv = r@[j];
                assert(r@.contains(lv));
                if lv != l2 {
                    assert(rmid.contains(lv));
                    let j2 = choose|j2: int| 0 <= j2 < rmid.len() && rmid[j2] == lv;
                    assert(channels@.contains(rmid[j2]) || 0 <= rmid[j2] < l2);
                }
            }
        }
        l2 = l2 + 1;
    }
    proof {
        assert forall|j: int| 0 <= j < r@.len() implies channels@.contains(r@[j]) || 0 <= r@[j]
            <= max_angular by {}
    }
    r
}

/// The spherical-expansion key produced at position `t` when walking the
/// cartesian product of `ps` (outer) and `ls` (inner).
pub open spec fn key_at(ps: Seq<SpeciesPair>, ls: Seq<i32>, t: int) -> SphericalExpansionKey {
    SphericalExpansionKey {
        spherical_harmonics_l: ls[t % ls.len() as int],
        species_center: ps[t / ls.len() as int].species_center,
        species_neighbor: ps[t / ls.len() as int].species_neighbor,
    }
}

/// The contents of one selected spherical-expansion block are exactly what
/// the requested output `desc` needs for that block's key: the needed
/// radial indexes, and — when the block's angular channel appears in some
/// requested property — the full sample union of its species pair, both
/// axes in ascending order. A block padding an unrequested channel is
/// empty on both axes: it only makes the key set dense.
pub open spec fn block_contents_ok(
    desc: Seq<PowerSpectrumBlock>,
    blk: SphericalExpansionBlock,
) -> bool {
    &&& distinct(blk.properties@)
    &&& distinct(blk.samples@)
    &&& crate::labels::sorted_radial_axis(blk.properties@)
    &&& crate::labels::sorted_sample_axis(blk.samples@)
    &&& blk.positions_gradient_samples is None
    &&& forall|n: i32|
        blk.properties@.contains(n) <==> needs_radial(
            desc,
            blk.key.spherical_harmonics_l,
            blk.key.species_center,
            blk.key.species_neighbor,
            n,
        )
    &&& if requests_l(desc, blk.key.spherical_harmonics_l) {
        forall|x: Sample|
            blk.samples@.contains(x) <==> needs_sample(
                desc,
                blk.key.species_center,
                blk.key.species_neighbor,
                x,
            )
    } else {
        blk.samples@.len() == 0
    }
}

/// The selection `sel` is the correct inner request for the output `desc`:
/// its keys are exactly those `needs_key` demands, without duplicates, and
/// every block holds exactly the needed radial indexes and sample rows.
pub open spec fn selection_correct(
    desc: Seq<PowerSpectrumBlock>,
    max_angular: int,
    sel: Seq<SphericalExpansionBlock>,
) -> bool {
    &&& distinct(spx_keys(sel))
    &&& forall|t: int| 0 <= t < sel.len() ==> needs_key(desc, max_angular, (#[trigger] sel[t]).key)
    &&& forall|k: SphericalExpansionKey|
        #[trigger] needs_key(desc, max_angular, k) ==> spx_keys(sel).contains(k)
    &&& forall|t: int| 0 <= t < sel.len() ==> block_contents_ok(desc, #[trigger] sel[t])
}

impl SoapPowerSpectrum {
    /// The spherical-expansion request needed to fill the requested output
    /// `descriptor`.
    ///
    /// For every angular channel appearing in a request — and every channel
    /// up to `max_angular`, so the key set is dense over the referenced
    /// range — and every species pair referenced by an output key, the
    /// request holds one block. Its radial indexes are the deduplicated
    /// union of the matching `n1`/`n2` entries. Blocks of requested channels
    /// carry the union of the sample axes of every output block with a
    /// matching species pair — whatever their own channels, because the
    /// spherical-expansion sample axis is channel-independent — while
    /// blocks padding an unrequested channel are empty on both axes.
    /// Requests with a negative angular channel are rejected as invalid
    /// parameters.
    pub fn selected_spx_labels(&self, descriptor: &Vec<PowerSpectrumBlock>) -> (r: Result<
        Vec<SphericalExpansionBlock>,
        Error,
    >)
        requires
            self.parameters.max_angular < i32::MAX,
        ensures
            r is Ok <==> all_l_nonnegative(descriptor@),
            r is Err ==> r->Err_0 is InvalidParameter,
            r is Ok ==> selection_correct(
                descriptor@,
                self.parameters.max_angular as int,
                r->Ok_0@,
            ),
    {
        let ma: i32 = self.parameters.max_angular as i32;

        let mut b: usize = 0;
        while b < descriptor.len()
            invariant
                0 <= b <= descriptor@.len(),
                forall|b2: int, p2: int|
                    0 <= b2 < b && 0 <= p2 < descriptor@[b2].properties@.len() ==> (
                    #[trigger] descriptor@[b2].properties@[p2]).l >= 0,
            decreases descriptor@.len() - b,
        {
            let block = &descriptor[b];
            let mut p: usize = 0;
            while p < block.properties.len()
                invariant
                    0 <= b < descriptor@.len(),
                    0 <= p <= block.properties@.len(),
                    block == descriptor@[b as int],
                    forall|b2: int, p2: int|
                        0 <= b2 < b && 0 <= p2 < descriptor@[b2].properties@.len() ==> (
                        #[trigger] descriptor@[b2].properties@[p2]).l >= 0,
                    forall|p2: int|
                        0 <= p2 < p ==> (#[trigger] descriptor@[b as int].properties@[p2]).l >= 0,
                decreases block.properties@.len() - p,
            {
                if block.properties[p].l < 0 {
                    assert(!all_l_nonnegative(descriptor@)) by {
                        assert((descriptor@[b as int].properties@[p as int]).l < 0);
                    }
                    return Err(
                        Error::InvalidParameter(
                            "spherical harmonics channel l cannot be negative".to_owned(),
                        ),
                    );
                }
                p = p + 1;
            }
            proof {
                assert forall|b2: int, p2: int|
                    0 <= b2 < b + 1 && 0 <= p2 < descriptor@[b2].properties@.len() implies (
                descriptor@[b2].properties@[p2]).l >= 0 by {
                    if b2 == b as int {
                        assert((descriptor@[b as int].properties@[p2]).l >= 0);
                    }
                }
            }
            b = b + 1;
        }

        let pairs = collect_species_pairs(descriptor);
        let requested = collect_requested_channels(descriptor);
        let ls = pad_angular_channels(&requested, ma);

        proof {
            assert forall|j: int| 0 <= j < ls@.len() implies requests_l(
                descriptor@,
                #[trigger] ls@[j],
            ) || 0 <= ls@[j] <= ma by {
                if ls@[j] < 0 || ls@[j] > ma {
                    assert(requested@.contains(ls@[j]));
                    let j2 = choose|j2: int| 0 <= j2 < requested@.len() && requested@[j2] == ls@[j];
                    assert(requests_l(descriptor@, requested@[j2]));
                }
            }
            assert forall|l: i32| #[trigger] requests_l(descriptor@, l) implies ls@.contains(
                l,
            ) by {
                assert(requested@.contains(l));
            }
        }
        let mut result: Vec<SphericalExpansionBlock> = Vec::new();
        let mut a: usize = 0;
        while a < pairs.len()
            invariant
                0 <= a <= pairs@.len(),
                distinct(pairs@),
                distinct(ls@),
                forall|j: int|
                    0 <= j < pairs@.len() ==> pair_needed(
                        descriptor@,
                        (#[trigger] pairs@[j]).species_center,
                        pairs@[j].species_neighbor,
                    ),
                forall|j: int|
                    0 <= j < ls@.len() ==> requests_l(descriptor@, #[trigger] ls@[j]) || 0 <= ls@[j]
                        <= ma,
                forall|j2: int|
                    0 <= j2 < requested@.len() ==> requests_l(
                        descriptor@,
                        #[trigger] requested@[j2],
                    ),
                forall|l: i32| #[trigger] requests_l(descriptor@, l) ==> requested@.contains(l),
                result@.len() == a * ls@.len(),
                forall|t: int|
                    0 <= t < result@.len() ==> (#[trigger] result@[t]).key == key_at(
                        pairs@,
                        ls@,
                        t,
                    ),
                forall|t: int|
                    0 <= t < result@.len() ==> block_contents_ok(descriptor@, #[trigger] result@[t]),
            decreases pairs@.len() - a,
        {
            let c = pairs[a].species_center;
            let s = pairs[a].species_neighbor;
            let mut bi: usize = 0;
            while bi < ls.len()
                invariant
                    0 <= a < pairs@.len(),
                    0 <= bi <= ls@.len(),
                    c == pairs@[a as int].species_center,
                    s == pairs@[a as int].species_neighbor,
                    forall|j2: int|
                        0 <= j2 < requested@.len() ==> requests_l(
                            descriptor@,
                            #[trigger] requested@[j2],
                        ),
                    forall|l: i32| #[trigger] requests_l(descriptor@, l) ==> requested@.contains(l),
                    result@.len() == a * ls@.len() + bi,
                    forall|t: int|
                        0 <= t < result@.len() ==> (#[trigger] result@[t]).key == key_at(
                            pairs@,
                            ls@,
                            t,
                        ),
                    forall|t: int|
                        0 <= t < result@.len() ==> block_contents_ok(
                            descriptor@,
                            #[trigger] result@[t],
                        ),
                decreases ls@.len() - bi,
            {
                let l = ls[bi];
                let properties = selected_properties_for(descriptor, l, c, s);
                // a channel no requested property mentions gets an empty
                // sample axis: its block only pads the key set
                let samples = match crate::labels::radial_position(&requested, l) {
                    Some(_) => {
                        proof {
                            crate::labels::lemma_first_index(requested@, l);
                            assert(requested@.contains(l));
                            let j2 = choose|j2: int|
                                0 <= j2 < requested@.len() && requested@[j2] == l;
                            assert(requests_l(descriptor@, requested@[j2]));
                        }
                        selected_samples_for(descriptor, c, s)
                    },
                    None => {
                        proof {
                            crate::labels::lemma_first_index(requested@, l);
                            if requests_l(descriptor@, l) {
                                assert(requested@.contains(l));
                            }
                        }
                        Vec::new()
                    },
                };
                let ghost tnew = result@.len() as int;
                let blk = SphericalExpansionBlock {
                    key: SphericalExpansionKey {
                        spherical_harmonics_l: l,
                        species_center: c,
                        species_neighbor: s,
                    },
                    samples,
                    properties,
                    positions_gradient_samples: None,
                };
                result.push(blk);
                proof {
                    vstd::arithmetic::div_mod::lemma_fundamental_div_mod_converse(
                        tnew,
                        ls@.len() as int,
                        a as int,
                        bi as int,
                    );
                    assert(result@[tnew].key == key_at(pairs@, ls@, tnew));
                }
                bi = bi + 1;
            }
            proof {
                assert((a as int) * (ls@.len() as int) + (ls@.len() as int) == ((a + 1) as int) * (
                ls@.len() as int)) by (nonlinear_arith);
            }
            a = a + 1;
        }

        proof {
            let desc = descriptor@;
            let mai = self.parameters.max_angular as int;
            let sel = result@;
            let lsn = ls@.len() as int;
            let psn = pairs@.len() as int;
            assert(sel.len() == psn * lsn);

            assert(spx_keys(sel).len() == sel.len());
            assert forall|t: int| 0 <= t < sel.len() implies #[trigger] spx_keys(sel)[t]
                == sel[t].key by {}

            if lsn > 0 {
                assert forall|t: int| 0 <= t < sel.len() implies 0 <= #[trigger] (t / lsn) < psn && 0 <= t
                    % lsn < lsn by {
                    vstd::arithmetic::div_mod::lemma_mod_bound(t, lsn);
                    vstd::arithmetic::div_mod::lemma_multiply_divide_lt(t, lsn, psn);
                    vstd::arithmetic::div_mod::lemma_div_pos_is_pos(t, lsn);
                }
            }

            assert forall|i: int, j: int| 0 <= i < j < spx_keys(sel).len() implies spx_keys(sel)[i]
                != spx_keys(sel)[j] by {
                vstd::arithmetic::div_mod::lemma_fundamental_div_mod(i, lsn);
                vstd::arithmetic::div_mod::lemma_fundamental_div_mod(j, lsn);
                if i / lsn == j / lsn && i % lsn == j % lsn {
                    assert(i == lsn * (i / lsn) + i % lsn);
                    assert(j == lsn * (j / lsn) + j % lsn);
                    assert(false);
                } else if i / lsn == j / lsn {
                    assert(ls@[i % lsn] != ls@[j % lsn]);
                } else {
                    assert(pairs@[i / lsn] != pairs@[j / lsn]);
                }
            }

            assert forall|t: int| 0 <= t < sel.len() implies needs_key(desc, mai, (sel[t]).key) by {
                let k = sel[t].key;
                assert(k == key_at(pairs@, ls@, t));
                assert(pair_needed(desc, k.species_center, k.species_neighbor));
                assert(requests_l(desc, k.spherical_harmonics_l) || 0 <= k.spherical_harmonics_l
                    <= mai);
            }

            assert forall|k: SphericalExpansionKey| needs_key(desc, mai, k) implies spx_keys(
                sel,
            ).contains(k) by {
                let pr = SpeciesPair {
                    species_center: k.species_center,
                    species_neighbor: k.species_neighbor,
                };
                assert(pairs@.contains(pr));
                let a0 = choose|a0: int| 0 <= a0 < pairs@.len() && pairs@[a0] == pr;
                assert(ls@.contains(k.spherical_harmonics_l));
                let b0 = choose|b0: int| 0 <= b0 < ls@.len() && ls@[b0] == k.spherical_harmonics_l;
                let t = a0 * lsn + b0;
                assert(0 <= t) by (nonlinear_arith)
                    requires
                        0 <= a0,
                        0 <= b0,
                        0 <= lsn,
                        t == a0 * lsn + b0,
                ;
                assert(t < psn * lsn) by (nonlinear_arith)
                    requires
                        0 <= a0,
                        a0 <= psn - 1,
                        0 <= b0,
                        b0 < lsn,
                        t == a0 * lsn + b0,
                ;
                vstd::arithmetic::div_mod::lemma_fundamental_div_mod_converse(t, lsn, a0, b0);
                assert(key_at(pairs@, ls@, t) == k);
                assert(spx_keys(sel)[t] == k);
            }
        }

        Ok(result)
    }
}

} // verus!
