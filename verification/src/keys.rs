//! Key, sample and gradient-sample enumeration from atomic systems: which
//! `(center, neighbor 1, neighbor 2)` species keys a set of systems
//! produces, which centers sample each key, and which atoms move each
//! sample's environment.
use vstd::prelude::*;

use crate::errors::Error;
use crate::labels::{distinct, sample_lex_before, GradientSample, PowerSpectrumKey, Sample};
use crate::power_spectrum::SoapPowerSpectrum;
use crate::system::{neighbors_well_formed, other_end, SimpleSystem};

verus! {

/// Center `i` has an atom of species `sp` in its environment: itself (the
/// center always counts as its own neighbor) or the far end of one of its
/// pairs.
pub open spec fn center_sees(sys: SimpleSystem, i: int, sp: usize) -> bool {
    ||| sys.species@[i] == sp
    ||| exists|k: int|
        0 <= k < sys.neighbors->Some_0.pairs_by_center@[i]@.len() && sys.species@[#[trigger] other_end(
            sys,
            i,
            k,
        )] == sp
}

/// As `center_sees`, restricted to pair-list entries strictly before `kq`.
pub open spec fn center_sees_before(sys: SimpleSystem, i: int, kq: int, sp: usize) -> bool {
    ||| sys.species@[i] == sp
    ||| exists|k: int|
        0 <= k < sys.neighbors->Some_0.pairs_by_center@[i]@.len() && k < kq
            && sys.species@[#[trigger] other_end(sys, i, k)] == sp
}

/// Append `x` unless already present, keeping first-seen order and
/// distinctness.
fn insert_usize(v: &mut Vec<usize>, x: usize)
    requires
        distinct(old(v)@),
    ensures
        distinct(final(v)@),
        forall|y: usize| final(v)@.contains(y) <==> (old(v)@.contains(y) || y == x),
{
    let mut i: usize = 0;
    while i < v.len()
        invariant
            0 <= i <= v@.len(),
            v@ == old(v)@,
            distinct(v@),
            forall|j: int| 0 <= j < i ==> v@[j] != x,
        decreases v@.len() - i,
    {
        if v[i] == x {
            assert(v@.contains(x)) by {
                assert(v@[i as int] == x);
            }
            return ;
        }
        i = i + 1;
    }
    assert(forall|j: int| 0 <= j < v@.len() ==> v@[j] != x);
    let ghost before = v@;
    v.push(x);
    proof {
        assert forall|y: usize| v@.contains(y) <==> (before.contains(y) || y == x) by {
            assert(v@ == before.push(x));
            if v@.contains(y) {
                let j = choose|j: int| 0 <= j < v@.len() && v@[j] == y;
                if j < before.len() {
                    assert(before[j] == y);
                }
            }
            if before.contains(y) {
                let j = choose|j: int| 0 <= j < before.len() && before[j] == y;
                assert(v@[j] == y);
            }
            if y == x {
                assert(v@[before.len() as int] == y);
            }
        }
    }
}

/// Append `x` unless already present, keeping first-seen order and
/// distinctness.
pub(crate) fn insert_key(v: &mut Vec<PowerSpectrumKey>, x: PowerSpectrumKey)
    requires
        distinct(old(v)@),
    ensures
        distinct(final(v)@),
        forall|y: PowerSpectrumKey| final(v)@.contains(y) <==> (old(v)@.contains(y) || y == x),
{
    let mut i: usize = 0;
    while i < v.len()
        invariant
            0 <= i <= v@.len(),
            v@ == old(v)@,
            distinct(v@),
            forall|j: int| 0 <= j < i ==> v@[j] != x,
        decreases v@.len() - i,
    {
        if v[i] == x {
            assert(v@.contains(x)) by {
                assert(v@[i as int] == x);
            }
            return ;
        }
        i = i + 1;
    }
    assert(forall|j: int| 0 <= j < v@.len() ==> v@[j] != x);
    let ghost before = v@;
    v.push(x);
    proof {
        assert forall|y: PowerSpectrumKey| v@.contains(y) <==> (before.contains(y) || y == x) by {
            assert(v@ == before.push(x));
            if v@.contains(y) {
                let j = choose|j: int| 0 <= j < v@.len() && v@[j] == y;
                if j < before.len() {
                    assert(before[j] == y);
                }
            }
            if before.contains(y) {
                let j = choose|j: int| 0 <= j < before.len() && before[j] == y;
                assert(v@[j] == y);
            }
            if y == x {
                assert(v@[before.len() as int] == y);
            }
        }
    }
}

/// The distinct species codes in the environment of center `i`: its own
/// species followed by the far-end species of its pairs, in first-seen
/// order.
pub fn center_species_list(sys: &SimpleSystem, i: usize) -> (r: Vec<usize>)
    requires
        neighbors_well_formed(*sys),
        i < sys.species@.len(),
    ensures
        distinct(r@),
        forall|sp: usize| r@.contains(sp) <==> center_sees(*sys, i as int, sp),
{
    let mut r: Vec<usize> = Vec::new();
    let own = sys.species[i];
    r.push(own);
    proof {
        assert(r@[0] == own);
        assert forall|sp: usize| r@.contains(sp) <==> center_sees_before(*sys, i as int, 0, sp) by {
            if r@.contains(sp) {
                let j = choose|j: int| 0 <= j < r@.len() && r@[j] == sp;
                assert(j == 0);
            }
        }
    }
    let pair_list = sys.pairs_containing(i);
    let mut k: usize = 0;
    while k < pair_list.len()
        invariant
            neighbors_well_formed(*sys),
            i < sys.species@.len(),
            pair_list == &sys.neighbors->Some_0.pairs_by_center@[i as int],
            0 <= k <= pair_list@.len(),
            distinct(r@),
            forall|sp: usize| r@.contains(sp) <==> center_sees_before(*sys, i as int, k as int, sp),
        decreases pair_list@.len() - k,
    {
        let p = pair_list[k];
        let other = if p.first == i {
            p.second
        } else {
            p.first
        };
        proof {
            assert(other as int == other_end(*sys, i as int, k as int));
        }
        let ghost rmid = r@;
        insert_usize(&mut r, sys.species[other]);
        proof {
            assert forall|sp: usize| r@.contains(sp) <==> center_sees_before(
                *sys,
                i as int,
                k + 1,
                sp,
            ) by {
                if r@.contains(sp) {
                    if rmid.contains(sp) {
                        assert(center_sees_before(*sys, i as int, k as int, sp));
                    } else {
                        assert(sys.species@[other_end(*sys, i as int, k as int)] == sp);
                    }
                }
                if center_sees_before(*sys, i as int, k + 1, sp) && !center_sees_before(
                    *sys,
                    i as int,
                    k as int,
                    sp,
                ) {
                    let k2 = choose|k2: int|
                        0 <= k2 < sys.neighbors->Some_0.pairs_by_center@[i as int]@.len() && k2 < k
                            + 1 && sys.species@[other_end(*sys, i as int, k2)] == sp;
                    assert(k2 == k as int);
                    assert(sp == sys.species@[other as int]);
                }
            }
        }
        k = k + 1;
    }
    proof {
        assert forall|sp: usize| r@.contains(sp) <==> center_sees(*sys, i as int, sp) by {
            if r@.contains(sp) && sys.species@[i as int] != sp {
                let k2 = choose|k2: int|
                    0 <= k2 < sys.neighbors->Some_0.pairs_by_center@[i as int]@.len() && k2 < k
                        as int && sys.species@[other_end(*sys, i as int, k2)] == sp;
                assert(sys.species@[other_end(*sys, i as int, k2)] == sp);
            }
            if center_sees(*sys, i as int, sp) && sys.species@[i as int] != sp {
                let k2 = choose|k2: int|
                    0 <= k2 < sys.neighbors->Some_0.pairs_by_center@[i as int]@.len()
                        && sys.species@[other_end(*sys, i as int, k2)] == sp;
                assert(center_sees_before(*sys, i as int, k as int, sp));
            }
        }
    }
    r
}

/// Center `i` has an atom whose species code equals the (possibly
/// negative) label value `v` in its environment.
pub open spec fn center_sees_species(sys: SimpleSystem, i: int, v: i32) -> bool {
    exists|sp: usize| #[trigger] center_sees(sys, i, sp) && sp as int == v as int
}

/// `key` is one of the keys contributed by center `i`: the center species
/// matches, the neighbor species are ordered, and both are present in the
/// center's environment.
pub open spec fn center_key_enumerated(sys: SimpleSystem, i: int, key: PowerSpectrumKey) -> bool {
    &&& sys.species@[i] as int == key.species_center as int
    &&& key.species_neighbor_1 <= key.species_neighbor_2
    &&& center_sees_species(sys, i, key.species_neighbor_1)
    &&& center_sees_species(sys, i, key.species_neighbor_2)
}

/// `key` is contributed by some center of some system.
pub open spec fn key_enumerated(systems: Seq<SimpleSystem>, key: PowerSpectrumKey) -> bool {
    exists|s: int, i: int|
        0 <= s < systems.len() && 0 <= i < systems[s].species@.len()
            && #[trigger] center_key_enumerated(systems[s], i, key)
}

/// As `key_enumerated`, restricted to centers strictly before `(sq, iq)`
/// in the system-then-center scan order.
pub open spec fn key_enumerated_before(
    systems: Seq<SimpleSystem>,
    sq: int,
    iq: int,
    key: PowerSpectrumKey,
) -> bool {
    exists|s: int, i: int|
        0 <= s < systems.len() && 0 <= i < systems[s].species@.len() && (s < sq || (s == sq && i
            < iq)) && #[trigger] center_key_enumerated(systems[s], i, key)
}

impl SoapPowerSpectrum {
    /// The full key set for the given systems: one `(center species,
    /// neighbor species 1, neighbor species 2)` key, with the neighbor
    /// species ordered, for every ordered species pair seen in the
    /// environment of some center. A center always counts as its own
    /// neighbor. Neighbor lists must have been installed by the shell
    /// beforehand (the shell owns the floating-point geometry), so key
    /// enumeration itself cannot fail.
    pub fn keys(&self, systems: &Vec<SimpleSystem>) -> (r: Result<Vec<PowerSpectrumKey>, Error>)
        requires
            forall|s: int|
                0 <= s < systems@.len() ==> neighbors_well_formed(#[trigger] systems@[s]),
            forall|s: int, i: int|
                0 <= s < systems@.len() && 0 <= i < systems@[s].species@.len() ==> (
                #[trigger] systems@[s].species@[i]) as int <= i32::MAX as int,
        ensures
            r is Ok,
            distinct((r->Ok_0)@),
            forall|j: int|
                0 <= j < (r->Ok_0)@.len() ==> key_enumerated(systems@, #[trigger] (r->Ok_0)@[j]),
            forall|key: PowerSpectrumKey|
                #[trigger] key_enumerated(systems@, key) ==> (r->Ok_0)@.contains(key),
    {
        let mut result: Vec<PowerSpectrumKey> = Vec::new();
        let mut s: usize = 0;
        while s < systems.len()
            invariant
                0 <= s <= systems@.len(),
                forall|s2: int|
                    0 <= s2 < systems@.len() ==> neighbors_well_formed(#[trigger] systems@[s2]),
                forall|s2: int, i2: int|
                    0 <= s2 < systems@.len() && 0 <= i2 < systems@[s2].species@.len() ==> (
                    #[trigger] systems@[s2].species@[i2]) as int <= i32::MAX as int,
                distinct(result@),
                forall|j: int|
                    0 <= j < result@.len() ==> key_enumerated_before(
                        systems@,
                        s as int,
                        0,
                        #[trigger] result@[j],
                    ),
                forall|key: PowerSpectrumKey|
                    #[trigger] key_enumerated_before(systems@, s as int, 0, key)
                        ==> result@.contains(key),
            decreases systems@.len() - s,
        {
            let sys = &systems[s];
            let natoms = sys.size();
            let mut i: usize = 0;
            while i < natoms
                invariant
                    0 <= s < systems@.len(),
                    0 <= i <= natoms,
                    sys == systems@[s as int],
                    natoms == sys.species@.len(),
                    forall|s2: int|
                        0 <= s2 < systems@.len() ==> neighbors_well_formed(#[trigger] systems@[s2]),
                    forall|s2: int, i2: int|
                        0 <= s2 < systems@.len() && 0 <= i2 < systems@[s2].species@.len() ==> (
                        #[trigger] systems@[s2].species@[i2]) as int <= i32::MAX as int,
                    distinct(result@),
                    forall|j: int|
                        0 <= j < result@.len() ==> key_enumerated_before(
                            systems@,
                            s as int,
                            i as int,
                            #[trigger] result@[j],
                        ),
                    forall|key: PowerSpectrumKey|
                        #[trigger] key_enumerated_before(systems@, s as int, i as int, key)
                            ==> result@.contains(key),
                decreases natoms - i,
            {
                let local = center_species_list(sys, i);
                proof {
                    assert forall|a: int| 0 <= a < local@.len() implies (#[trigger] local@[a]) as int
                        <= i32::MAX as int by {
                        let sp = local@[a];
                        assert(local@.contains(sp));
                        assert(center_sees(*sys, i as int, sp));
                        if sys.species@[i as int] != sp {
                            let k2 = choose|k2: int|
                                0 <= k2 < sys.neighbors->Some_0.pairs_by_center@[i as int]@.len()
                                    && sys.species@[other_end(*sys, i as int, k2)] == sp;
                            assert(sys.species@[other_end(*sys, i as int, k2)] == sp);
                        }
                    }
                }
                let ci = sys.species[i] as i32;
                let mut ai: usize = 0;
                while ai < local.len()
                    invariant
                        0 <= ai <= local@.len(),
                        0 <= s < systems@.len(),
                        0 <= i < natoms,
                        sys == systems@[s as int],
                        natoms == sys.species@.len(),
                        ci as int == sys.species@[i as int] as int,
                        distinct(local@),
                        forall|a: int|
                            0 <= a < local@.len() ==> (#[trigger] local@[a]) as int <= i32::MAX as int,
                        forall|sp: usize| local@.contains(sp) <==> center_sees(*sys, i as int, sp),
                        distinct(result@),
                        forall|j: int|
                            0 <= j < result@.len() ==> key_enumerated_before(
                                systems@,
                                s as int,
                                i as int,
                                #[trigger] result@[j],
                            ) || center_key_enumerated(systems@[s as int], i as int, result@[j]),
                        forall|key: PowerSpectrumKey|
                            #[trigger] key_enumerated_before(systems@, s as int, i as int, key)
                                ==> result@.contains(key),
                        forall|a: int, b: int|
                            0 <= a < ai && 0 <= b < local@.len() && #[trigger] local@[a]
                                <= #[trigger] local@[b] ==> result@.contains(
                                PowerSpectrumKey {
                                    species_center: ci,
                                    species_neighbor_1: local@[a] as i32,
                                    species_neighbor_2: local@[b] as i32,
                                },
                            ),
                    decreases local@.len() - ai,
                {
                    let a_val = local[ai];
                    let mut bi: usize = 0;
                    while bi < local.len()
                        invariant
                            0 <= ai < local@.len(),
                            0 <= bi <= local@.len(),
                            a_val == local@[ai as int],
                            0 <= s < systems@.len(),
                            0 <= i < natoms,
                            sys == systems@[s as int],
                            natoms == sys.species@.len(),
                            ci as int == sys.species@[i as int] as int,
                            distinct(local@),
                            forall|a: int|
                                0 <= a < local@.len() ==> (#[trigger] local@[a]) as int <= i32::MAX
                                    as int,
                            forall|sp: usize|
                                local@.contains(sp) <==> center_sees(*sys, i as int, sp),
                            distinct(result@),
                            forall|j: int|
                                0 <= j < result@.len() ==> key_enumerated_before(
                                    systems@,
                                    s as int,
                                    i as int,
                                    #[trigger] result@[j],
                                ) || center_key_enumerated(systems@[s as int], i as int, result@[j]),
                            forall|key: PowerSpectrumKey|
                                #[trigger] key_enumerated_before(systems@, s as int, i as int, key)
                                    ==> result@.contains(key),
                            forall|a: int, b: int|
                                0 <= a < ai && 0 <= b < local@.len() && #[trigger] local@[a]
                                    <= #[trigger] local@[b] ==> result@.contains(
                                    PowerSpectrumKey {
                                        species_center: ci,
                                        species_neighbor_1: local@[a] as i32,
                                        species_neighbor_2: local@[b] as i32,
                                    },
                                ),
                            forall|b: int|
                                0 <= b < bi && local@[ai as int] <= #[trigger] local@[b]
                                    ==> result@.contains(
                                    PowerSpectrumKey {
                                        species_center: ci,
                                        species_neighbor_1: local@[ai as int] as i32,
                                        species_neighbor_2: local@[b] as i32,
                                    },
                                ),
                        decreases local@.len() - bi,
                    {
                        let b_val = local[bi];
                        if a_val <= b_val {
                            let key = PowerSpectrumKey {
                                species_center: ci,
                                species_neighbor_1: a_val as i32,
                                species_neighbor_2: b_val as i32,
                            };
                            let ghost rprev = result@;
                            insert_key(&mut result, key);
                            proof {
                                assert(local@.contains(local@[ai as int])) by {
                                    assert(local@[ai as int] == a_val);
                                }
                                assert(local@.contains(local@[bi as int])) by {
                                    assert(local@[bi as int] == b_val);
                                }
                                assert(center_sees(*sys, i as int, a_val));
                                assert(center_sees(*sys, i as int, b_val));
                                assert(center_sees_species(systems@[s as int], i as int, a_val as i32));
                                assert(center_sees_species(systems@[s as int], i as int, b_val as i32));
                                assert(center_key_enumerated(systems@[s as int], i as int, key));
                                assert forall|j: int| 0 <= j < result@.len() implies
                                    key_enumerated_before(
                                        systems@,
                                        s as int,
                                        i as int,
                                        #[trigger] result@[j],
                                    ) || center_key_enumerated(
                                        systems@[s as int],
                                        i as int,
                                        result@[j],
                                    ) by {
                                    let kj = result@[j];
                                    assert(result@.contains(kj));
                                    if kj != key {
                                        assert(rprev.contains(kj));
                                        let j2 = choose|j2: int|
                                            0 <= j2 < rprev.len() && rprev[j2] == kj;
                                        assert(key_enumerated_before(
                                            systems@,
                                            s as int,
                                            i as int,
                                            rprev[j2],
                                        ) || center_key_enumerated(
                                            systems@[s as int],
                                            i as int,
                                            rprev[j2],
                                        ));
                                    }
                                }
                            }
                        }
                        bi = bi + 1;
                    }
                    ai = ai + 1;
                }
                proof {
                    assert forall|key: PowerSpectrumKey| key_enumerated_before(
                        systems@,
                        s as int,
                        i + 1,
                        key,
                    ) implies result@.contains(key) by {
                        let (s2, i2) = choose|s2: int, i2: int|
                            0 <= s2 < systems@.len() && 0 <= i2 < systems@[s2].species@.len() && (s2
                                < s as int || (s2 == s as int && i2 < i + 1))
                                && center_key_enumerated(systems@[s2], i2, key);
                        if s2 == s as int && i2 == i as int {
                            let sp1 = choose|sp1: usize|
                                center_sees(systems@[s2], i2, sp1) && sp1 as int
                                    == key.species_neighbor_1 as int;
                            let sp2 = choose|sp2: usize|
                                center_sees(systems@[s2], i2, sp2) && sp2 as int
                                    == key.species_neighbor_2 as int;
                            assert(local@.contains(sp1));
                            assert(local@.contains(sp2));
                            let a0 = choose|a0: int| 0 <= a0 < local@.len() && local@[a0] == sp1;
                            let b0 = choose|b0: int| 0 <= b0 < local@.len() && local@[b0] == sp2;
                            assert(local@[a0] <= local@[b0]);
                            assert(result@.contains(
                                PowerSpectrumKey {
                                    species_center: ci,
                                    species_neighbor_1: local@[a0] as i32,
                                    species_neighbor_2: local@[b0] as i32,
                                },
                            ));
                            assert(PowerSpectrumKey {
                                species_center: ci,
                                species_neighbor_1: local@[a0] as i32,
                                species_neighbor_2: local@[b0] as i32,
                            } == key);
                        } else {
                            assert(key_enumerated_before(systems@, s as int, i as int, key));
                        }
                    }
                    assert forall|j: int| 0 <= j < result@.len() implies key_enumerated_before(
                        systems@,
                        s as int,
                        i + 1,
                        #[trigger] result@[j],
                    ) by {
                        let key = result@[j];
                        if key_enumerated_before(systems@, s as int, i as int, key) {
                            let (s2, i2) = choose|s2: int, i2: int|
                                0 <= s2 < systems@.len() && 0 <= i2 < systems@[s2].species@.len()
                                    && (s2 < s as int || (s2 == s as int && i2 < i as int))
                                    && center_key_enumerated(systems@[s2], i2, key);
                            assert(center_key_enumerated(systems@[s2], i2, key));
                        } else {
                            assert(center_key_enumerated(systems@[s as int], i as int, key));
                        }
                    }
                }
                i = i + 1;
            }
            proof {
                assert forall|j: int| 0 <= j < result@.len() implies key_enumerated_before(
                    systems@,
                    s + 1,
                    0,
                    #[trigger] result@[j],
                ) by {
                    let (s2, i2) = choose|s2: int, i2: int|
                        0 <= s2 < systems@.len() && 0 <= i2 < systems@[s2].species@.len() && (s2 < s
                            as int || (s2 == s as int && i2 < i as int))
                            && center_key_enumerated(systems@[s2], i2, result@[j]);
                    assert(center_key_enumerated(systems@[s2], i2, result@[j]));
                }
                assert forall|key: PowerSpectrumKey| key_enumerated_before(systems@, s + 1, 0, key)
                    implies result@.contains(key) by {
                    let (s2, i2) = choose|s2: int, i2: int|
                        0 <= s2 < systems@.len() && 0 <= i2 < systems@[s2].species@.len() && (s2 < s
                            + 1) && center_key_enumerated(systems@[s2], i2, key);
                    if s2 == s as int {
                        assert(key_enumerated_before(systems@, s as int, i as int, key));
                    } else {
                        assert(key_enumerated_before(systems@, s as int, 0, key));
                    }
                }
            }
            s = s + 1;
        }
        proof {
            assert forall|j: int| 0 <= j < result@.len() implies key_enumerated(
                systems@,
                #[trigger] result@[j],
            ) by {
                let (s2, i2) = choose|s2: int, i2: int|
                    0 <= s2 < systems@.len() && 0 <= i2 < systems@[s2].species@.len() && (s2 < s
                        as int || (s2 == s as int && i2 < 0)) && center_key_enumerated(
                        systems@[s2],
                        i2,
                        result@[j],
                    );
                assert(center_key_enumerated(systems@[s2], i2, result@[j]));
            }
            assert forall|key: PowerSpectrumKey| key_enumerated(systems@, key)
                implies result@.contains(key) by {
                let (s2, i2) = choose|s2: int, i2: int|
                    0 <= s2 < systems@.len() && 0 <= i2 < systems@[s2].species@.len()
                        && center_key_enumerated(systems@[s2], i2, key);
                assert(key_enumerated_before(systems@, systems@.len() as int, 0, key));
            }
        }
        Ok(result)
    }
}

/// `v` denotes a species code present in `local` (a negative label value
/// matches no code).
pub open spec fn list_has_species_spec(local: Seq<usize>, v: i32) -> bool {
    exists|sp: usize| #[trigger] local.contains(sp) && sp as int == v as int
}

/// Whether the species list holds the code the label value `v` denotes.
fn list_has_species(local: &Vec<usize>, v: i32) -> (r: bool)
    ensures
        r == list_has_species_spec(local@, v),
{
    if v < 0 {
        proof {
            if list_has_species_spec(local@, v) {
                let sp = choose|sp: usize| local@.contains(sp) && sp as int == v as int;
                assert(sp as int >= 0);
            }
        }
        return false;
    }
    let target = v as usize;
    let mut i: usize = 0;
    while i < local.len()
        invariant
            0 <= i <= local@.len(),
            target as int == v as int,
            forall|j: int| 0 <= j < i ==> local@[j] != target,
        decreases local@.len() - i,
    {
        if local[i] == target {
            proof {
                assert(local@.contains(target)) by {
                    assert(local@[i as int] == target);
                }
            }
            return true;
        }
        i = i + 1;
    }
    proof {
        if list_has_species_spec(local@, v) {
            let sp = choose|sp: usize| local@.contains(sp) && sp as int == v as int;
            assert(sp == target);
            let j = choose|j: int| 0 <= j < local@.len() && local@[j] == sp;
            assert(local@[j] != target);
        }
    }
    false
}

/// Center `i` of system `s` belongs to the sample set of `key`: its
/// species is the key's center species and its environment holds both
/// neighbor species of the key.
pub open spec fn sample_included(
    systems: Seq<SimpleSystem>,
    key: PowerSpectrumKey,
    s: int,
    i: int,
) -> bool {
    &&& systems[s].species@[i] as int == key.species_center as int
    &&& center_sees_species(systems[s], i, key.species_neighbor_1)
    &&& center_sees_species(systems[s], i, key.species_neighbor_2)
}

/// As `sample_included` quantified over centers strictly before `(sq, iq)`.
pub open spec fn sample_row_before(
    systems: Seq<SimpleSystem>,
    key: PowerSpectrumKey,
    sq: int,
    iq: int,
    row: Sample,
) -> bool {
    exists|s: int, i: int|
        0 <= s < systems.len() && 0 <= i < systems[s].species@.len() && (s < sq || (s == sq && i
            < iq)) && #[trigger] sample_included(systems, key, s, i) && row == (Sample {
            structure: s as i32,
            center: i as i32,
        })
}

impl SoapPowerSpectrum {
    /// The maximal sample set of one key: every center of the key's center
    /// species whose environment holds both neighbor species, in
    /// system-then-center order.
    pub fn samples_for_key(&self, key: &PowerSpectrumKey, systems: &Vec<SimpleSystem>) -> (r: Vec<
        Sample,
    >)
        requires
            forall|s: int|
                0 <= s < systems@.len() ==> neighbors_well_formed(#[trigger] systems@[s]),
            systems@.len() <= i32::MAX as int,
            forall|s: int|
                0 <= s < systems@.len() ==> (#[trigger] systems@[s].species@.len()) <= i32::MAX
                    as int,
        ensures
            distinct(r@),
            forall|u: int, v: int| 0 <= u < v < r@.len() ==> sample_lex_before(r@[u], r@[v]),
            forall|j: int|
                0 <= j < r@.len() ==> sample_row_before(
                    systems@,
                    *key,
                    systems@.len() as int,
                    0,
                    #[trigger] r@[j],
                ),
            forall|s: int, i: int|
                0 <= s < systems@.len() && 0 <= i < systems@[s].species@.len()
                    && #[trigger] sample_included(systems@, *key, s, i) ==> r@.contains(
                    Sample { structure: s as i32, center: i as i32 },
                ),
    {
        let mut r: Vec<Sample> = Vec::new();
        let mut s: usize = 0;
        while s < systems.len()
            invariant
                0 <= s <= systems@.len(),
                forall|s2: int|
                    0 <= s2 < systems@.len() ==> neighbors_well_formed(#[trigger] systems@[s2]),
                systems@.len() <= i32::MAX as int,
                forall|s2: int|
                    0 <= s2 < systems@.len() ==> (#[trigger] systems@[s2].species@.len())
                        <= i32::MAX as int,
                distinct(r@),
                forall|u: int, v: int| 0 <= u < v < r@.len() ==> sample_lex_before(r@[u], r@[v]),
                forall|u: int|
                    0 <= u < r@.len() ==> 0 <= (#[trigger] r@[u]).structure < s && 0 <= r@[u].center,
                forall|j: int|
                    0 <= j < r@.len() ==> sample_row_before(
                        systems@,
                        *key,
                        s as int,
                        0,
                        #[trigger] r@[j],
                    ),
                forall|s2: int, i2: int|
                    0 <= s2 < s && 0 <= i2 < systems@[s2].species@.len()
                        && #[trigger] sample_included(systems@, *key, s2, i2) ==> r@.contains(
                        Sample { structure: s2 as i32, center: i2 as i32 },
                    ),
            decreases systems@.len() - s,
        {
            let sys = &systems[s];
            let natoms = sys.size();
            let mut i: usize = 0;
            while i < natoms
                invariant
                    0 <= s < systems@.len(),
                    0 <= i <= natoms,
                    sys == systems@[s as int],
                    natoms == sys.species@.len(),
                    forall|s2: int|
                        0 <= s2 < systems@.len() ==> neighbors_well_formed(#[trigger] systems@[s2]),
                    systems@.len() <= i32::MAX as int,
                    forall|s2: int|
                        0 <= s2 < systems@.len() ==> (#[trigger] systems@[s2].species@.len())
                            <= i32::MAX as int,
                    distinct(r@),
                    forall|u: int, v: int|
                        0 <= u < v < r@.len() ==> sample_lex_before(r@[u], r@[v]),
                    forall|u: int|
                        0 <= u < r@.len() ==> 0 <= (#[trigger] r@[u]).structure && 0 <= r@[u].center
                            && (r@[u].structure < s || (r@[u].structure == s && r@[u].center < i)),
                    forall|j: int|
                        0 <= j < r@.len() ==> sample_row_before(
                            systems@,
                            *key,
                            s as int,
                            i as int,
                            #[trigger] r@[j],
                        ),
                    forall|s2: int, i2: int|
                        0 <= s2 < systems@.len() && 0 <= i2 < systems@[s2].species@.len() && (s2 < s
                            || (s2 == s && i2 < i)) && #[trigger] sample_included(
                            systems@,
                            *key,
                            s2,
                            i2,
                        ) ==> r@.contains(Sample { structure: s2 as i32, center: i2 as i32 }),
                decreases natoms - i,
            {
                let species_i = sys.species[i];
                let included = if key.species_center >= 0 && species_i == (
                key.species_center as usize) {
                    let local = center_species_list(sys, i);
                    list_has_species(&local, key.species_neighbor_1) && list_has_species(
                        &local,
                        key.species_neighbor_2,
                    )
                } else {
                    false
                };
                proof {
                    assert(included == sample_included(systems@, *key, s as int, i as int));
                }
                if included {
                    let row = Sample { structure: s as i32, center: i as i32 };
                    let ghost rprev = r@;
                    r.push(row);
                    proof {
                        assert(r@ == rprev.push(row));
                        assert(r@[rprev.len() as int] == row);
                        assert(sample_included(systems@, *key, s as int, i as int));
                        assert(sample_row_before(systems@, *key, s as int, i + 1, row));
                        assert forall|j: int| 0 <= j < r@.len() implies sample_row_before(
                            systems@,
                            *key,
                            s as int,
                            i + 1,
                            #[trigger] r@[j],
                        ) by {
                            if j < rprev.len() {
                                assert(sample_row_before(systems@, *key, s as int, i as int, rprev[j]));
                                let (s2, i2) = choose|s2: int, i2: int|
                                    0 <= s2 < systems@.len() && 0 <= i2 < systems@[s2].species@.len()
                                        && (s2 < s as int || (s2 == s as int && i2 < i as int))
                                        && sample_included(systems@, *key, s2, i2) && rprev[j] == (
                                    Sample { structure: s2 as i32, center: i2 as i32 });
                                assert(sample_included(systems@, *key, s2, i2));
                            }
                        }
                        assert forall|s2: int, i2: int|
                            0 <= s2 < systems@.len() && 0 <= i2 < systems@[s2].species@.len() && (s2
                                < s as int || (s2 == s as int && i2 < i + 1)) && sample_included(
                                systems@,
                                *key,
                                s2,
                                i2,
                            ) implies r@.contains(
                            Sample { structure: s2 as i32, center: i2 as i32 },
                        ) by {
                            if s2 == s as int && i2 == i as int {
                                assert(r@[rprev.len() as int] == (Sample {
                                    structure: s2 as i32,
                                    center: i2 as i32,
                                }));
                            } else {
                                assert(rprev.contains(
                                    Sample { structure: s2 as i32, center: i2 as i32 },
                                ));
                                let j2 = choose|j2: int|
                                    0 <= j2 < rprev.len() && rprev[j2] == (Sample {
                                        structure: s2 as i32,
                                        center: i2 as i32,
                                    });
                                assert(r@[j2] == rprev[j2]);
                            }
                        }
                    }
                } else {
                    proof {
                        assert forall|s2: int, i2: int|
                            0 <= s2 < systems@.len() && 0 <= i2 < systems@[s2].species@.len() && (s2
                                < s as int || (s2 == s as int && i2 < i + 1)) && sample_included(
                                systems@,
                                *key,
                                s2,
                                i2,
                            ) implies r@.contains(
                            Sample { structure: s2 as i32, center: i2 as i32 },
                        ) by {
                            if !(s2 == s as int && i2 == i as int) {
                                assert(sample_included(systems@, *key, s2, i2) && (s2 < s as int || (
                                s2 == s as int && i2 < i as int)));
                            }
                        }
                        assert forall|j: int| 0 <= j < r@.len() implies sample_row_before(
                            systems@,
                            *key,
                            s as int,
                            i + 1,
                            #[trigger] r@[j],
                        ) by {
                            assert(sample_row_before(systems@, *key, s as int, i as int, r@[j]));
                            let (s2, i2) = choose|s2: int, i2: int|
                                0 <= s2 < systems@.len() && 0 <= i2 < systems@[s2].species@.len()
                                    && (s2 < s as int || (s2 == s as int && i2 < i as int))
                                    && sample_included(systems@, *key, s2, i2) && r@[j] == (Sample {
                                    structure: s2 as i32,
                                    center: i2 as i32,
                                });
                            assert(sample_included(systems@, *key, s2, i2));
                        }
                    }
                }
                i = i + 1;
            }
            proof {
                assert forall|j: int| 0 <= j < r@.len() implies sample_row_before(
                    systems@,
                    *key,
                    s + 1,
                    0,
                    #[trigger] r@[j],
                ) by {
                    assert(sample_row_before(systems@, *key, s as int, i as int, r@[j]));
                    let (s2, i2) = choose|s2: int, i2: int|
                        0 <= s2 < systems@.len() && 0 <= i2 < systems@[s2].species@.len() && (s2 < s
                            as int || (s2 == s as int && i2 < i as int)) && sample_included(
                            systems@,
                            *key,
                            s2,
                            i2,
                        ) && r@[j] == (Sample { structure: s2 as i32, center: i2 as i32 });
                    assert(sample_included(systems@, *key, s2, i2));
                }
            }
            s = s + 1;
        }
        proof {
            assert forall|s2: int, i2: int|
                0 <= s2 < systems@.len() && 0 <= i2 < systems@[s2].species@.len()
                    && #[trigger] sample_included(systems@, *key, s2, i2) implies r@.contains(
                Sample { structure: s2 as i32, center: i2 as i32 },
            ) by {}
        }
        r
    }

    /// The maximal sample set for each key: one list per key, in
    /// system-then-center order.
    pub fn samples(&self, keys: &Vec<PowerSpectrumKey>, systems: &Vec<SimpleSystem>) -> (r: Result<
        Vec<Vec<Sample>>,
        Error,
    >)
        requires
            forall|s: int|
                0 <= s < systems@.len() ==> neighbors_well_formed(#[trigger] systems@[s]),
            systems@.len() <= i32::MAX as int,
            forall|s: int|
                0 <= s < systems@.len() ==> (#[trigger] systems@[s].species@.len()) <= i32::MAX
                    as int,
        ensures
            r is Ok,
            (r->Ok_0)@.len() == keys@.len(),
            forall|k: int, s2: int, i2: int|
                0 <= k < keys@.len() && 0 <= s2 < systems@.len() && 0 <= i2
                    < systems@[s2].species@.len() && #[trigger] sample_included(
                    systems@,
                    keys@[k],
                    s2,
                    i2,
                ) ==> (r->Ok_0)@[k]@.contains(Sample { structure: s2 as i32, center: i2 as i32 }),
            forall|k: int, j: int|
                0 <= k < keys@.len() && 0 <= j < (r->Ok_0)@[k]@.len() ==> sample_row_before(
                    systems@,
                    keys@[k],
                    systems@.len() as int,
                    0,
                    #[trigger] (r->Ok_0)@[k]@[j],
                ),
            forall|k: int| 0 <= k < keys@.len() ==> distinct((#[trigger] (r->Ok_0)@[k])@),
            forall|k: int, u: int, v: int|
                0 <= k < keys@.len() && 0 <= u < v < (r->Ok_0)@[k]@.len() ==> sample_lex_before(
                    #[trigger] (r->Ok_0)@[k]@[u],
                    #[trigger] (r->Ok_0)@[k]@[v],
                ),
    {
        let mut r: Vec<Vec<Sample>> = Vec::new();
        let mut k: usize = 0;
        while k < keys.len()
            invariant
                0 <= k <= keys@.len(),
                r@.len() == k,
                forall|s2: int|
                    0 <= s2 < systems@.len() ==> neighbors_well_formed(#[trigger] systems@[s2]),
                systems@.len() <= i32::MAX as int,
                forall|s2: int|
                    0 <= s2 < systems@.len() ==> (#[trigger] systems@[s2].species@.len())
                        <= i32::MAX as int,
                forall|k2: int, s2: int, i2: int|
                    0 <= k2 < k && 0 <= s2 < systems@.len() && 0 <= i2
                        < systems@[s2].species@.len() && #[trigger] sample_included(
                        systems@,
                        keys@[k2],
                        s2,
                        i2,
                    ) ==> r@[k2]@.contains(Sample { structure: s2 as i32, center: i2 as i32 }),
                forall|k2: int, j: int|
                    0 <= k2 < k && 0 <= j < r@[k2]@.len() ==> sample_row_before(
                        systems@,
                        keys@[k2],
                        systems@.len() as int,
                        0,
                        #[trigger] r@[k2]@[j],
                    ),
                forall|k2: int| 0 <= k2 < k ==> distinct((#[trigger] r@[k2])@),
                forall|k2: int, u: int, v: int|
                    0 <= k2 < k && 0 <= u < v < r@[k2]@.len() ==> sample_lex_before(
                        #[trigger] r@[k2]@[u],
                        #[trigger] r@[k2]@[v],
                    ),
            decreases keys@.len() - k,
        {
            let row = self.samples_for_key(&keys[k], systems);
            r.push(row);
            k = k + 1;
        }
        Ok(r)
    }
}

/// Atom `a` moves the density around center `i` for `key`: it is the
/// center itself, or the far end of one of the center's pairs whose
/// species is one of the key's neighbor species.
pub open spec fn gradient_atom_included(
    sys: SimpleSystem,
    i: int,
    key: PowerSpectrumKey,
    a: int,
) -> bool {
    ||| a == i
    ||| exists|k: int|
        0 <= k < sys.neighbors->Some_0.pairs_by_center@[i]@.len() && #[trigger] other_end(
            sys,
            i,
            k,
        ) == a && (sys.species@[a] as int == key.species_neighbor_1 as int || sys.species@[a] as int
            == key.species_neighbor_2 as int)
}

/// As `gradient_atom_included`, restricted to pair entries strictly before
/// `kq`.
pub open spec fn gradient_atom_before(
    sys: SimpleSystem,
    i: int,
    kq: int,
    key: PowerSpectrumKey,
    a: int,
) -> bool {
    ||| a == i
    ||| exists|k: int|
        0 <= k < sys.neighbors->Some_0.pairs_by_center@[i]@.len() && k < kq && #[trigger] other_end(
            sys,
            i,
            k,
        ) == a && (sys.species@[a] as int == key.species_neighbor_1 as int || sys.species@[a] as int
            == key.species_neighbor_2 as int)
}

/// The distinct atoms that move the environment of center `i` for `key`:
/// the center itself first, then the matching far ends in pair order.
fn moved_atoms_for(sys: &SimpleSystem, i: usize, key: &PowerSpectrumKey) -> (r: Vec<usize>)
    requires
        neighbors_well_formed(*sys),
        i < sys.species@.len(),
    ensures
        distinct(r@),
        forall|a: usize| r@.contains(a) <==> gradient_atom_included(*sys, i as int, *key, a as int),
        forall|u: int| 0 <= u < r@.len() ==> (#[trigger] r@[u]) < sys.species@.len(),
{
    let mut r: Vec<usize> = Vec::new();
    r.push(i);
    proof {
        assert(r@[0] == i);
        assert forall|a: usize| r@.contains(a) <==> gradient_atom_before(
            *sys,
            i as int,
            0,
            *key,
            a as int,
        ) by {
            if r@.contains(a) {
                let j = choose|j: int| 0 <= j < r@.len() && r@[j] == a;
                assert(j == 0);
            }
            if gradient_atom_before(*sys, i as int, 0, *key, a as int) {
                assert(a == i);
                assert(r@[0] == a);
            }
        }
    }
    let pair_list = sys.pairs_containing(i);
    let mut k: usize = 0;
    while k < pair_list.len()
        invariant
            neighbors_well_formed(*sys),
            i < sys.species@.len(),
            pair_list == &sys.neighbors->Some_0.pairs_by_center@[i as int],
            0 <= k <= pair_list@.len(),
            distinct(r@),
            forall|a: usize| r@.contains(a) <==> gradient_atom_before(
                *sys,
                i as int,
                k as int,
                *key,
                a as int,
            ),
        decreases pair_list@.len() - k,
    {
        let p = pair_list[k];
        let other = if p.first == i {
            p.second
        } else {
            p.first
        };
        proof {
            assert(other as int == other_end(*sys, i as int, k as int));
        }
        let sp = sys.species[other];
        let matches_species = (key.species_neighbor_1 >= 0 && sp == (
        key.species_neighbor_1 as usize)) || (key.species_neighbor_2 >= 0 && sp == (
        key.species_neighbor_2 as usize));
        let ghost rmid = r@;
        if matches_species {
            insert_usize(&mut r, other);
        }
        proof {
            assert forall|a: usize| r@.contains(a) <==> gradient_atom_before(
                *sys,
                i as int,
                k + 1,
                *key,
                a as int,
            ) by {
                if r@.contains(a) {
                    if rmid.contains(a) {
                        assert(gradient_atom_before(*sys, i as int, k as int, *key, a as int));
                    } else {
                        assert(a == other);
                        assert(other_end(*sys, i as int, k as int) == a as int);
                    }
                }
                if gradient_atom_before(*sys, i as int, k + 1, *key, a as int) && !(a as int == i
                    as int) && !gradient_atom_before(*sys, i as int, k as int, *key, a as int) {
                    let k2 = choose|k2: int|
                        0 <= k2 < sys.neighbors->Some_0.pairs_by_center@[i as int]@.len() && k2 < k
                            + 1 && other_end(*sys, i as int, k2) == a as int && (sys.species@[a as int]
                            as int == key.species_neighbor_1 as int || sys.species@[a as int] as int
                            == key.species_neighbor_2 as int);
                    assert(k2 == k as int);
                    assert(a == other);
                    assert(matches_species);
                    assert(r@.contains(a));
                }
            }
        }
        k = k + 1;
    }
    proof {
        assert forall|a: usize| r@.contains(a) <==> gradient_atom_included(
            *sys,
            i as int,
            *key,
            a as int,
        ) by {
            if r@.contains(a) && a as int != i as int {
                let k2 = choose|k2: int|
                    0 <= k2 < sys.neighbors->Some_0.pairs_by_center@[i as int]@.len() && k2 < k
                        as int && other_end(*sys, i as int, k2) == a as int && (sys.species@[a as int]
                        as int == key.species_neighbor_1 as int || sys.species@[a as int] as int
                        == key.species_neighbor_2 as int);
                assert(other_end(*sys, i as int, k2) == a as int);
            }
            if gradient_atom_included(*sys, i as int, *key, a as int) && a as int != i as int {
                let k2 = choose|k2: int|
                    0 <= k2 < sys.neighbors->Some_0.pairs_by_center@[i as int]@.len() && other_end(
                        *sys,
                        i as int,
                        k2,
                    ) == a as int && (sys.species@[a as int] as int == key.species_neighbor_1 as int
                        || sys.species@[a as int] as int == key.species_neighbor_2 as int);
                assert(gradient_atom_before(*sys, i as int, k as int, *key, a as int));
            }
        }
        assert forall|u: int| 0 <= u < r@.len() implies (#[trigger] r@[u])
            < sys.species@.len() by {
            let a = r@[u];
            assert(r@.contains(a));
            assert(gradient_atom_included(*sys, i as int, *key, a as int));
            if a as int != i as int {
                let k2 = choose|k2: int|
                    0 <= k2 < sys.neighbors->Some_0.pairs_by_center@[i as int]@.len() && other_end(
                        *sys,
                        i as int,
                        k2,
                    ) == a as int && (sys.species@[a as int] as int == key.species_neighbor_1 as int
                        || sys.species@[a as int] as int == key.species_neighbor_2 as int);
                assert(other_end(*sys, i as int, k2) == a as int);
            }
        }
    }
    r
}

/// `gs` is the gradient row for base row `j` of `rows` and moved atom `a`.
pub open spec fn gradient_row_match(
    systems: Seq<SimpleSystem>,
    key: PowerSpectrumKey,
    rows: Seq<Sample>,
    j: int,
    a: int,
    gs: GradientSample,
) -> bool {
    &&& 0 <= j < rows.len()
    &&& 0 <= rows[j].structure < systems.len()
    &&& 0 <= rows[j].center < systems[rows[j].structure as int].species@.len()
    &&& 0 <= a < systems[rows[j].structure as int].species@.len()
    &&& gradient_atom_included(systems[rows[j].structure as int], rows[j].center as int, key, a)
    &&& gs == (GradientSample { sample: j as i32, structure: rows[j].structure, atom: a as i32 })
}

/// `gs` belongs to the positions-gradient sample set of a block keyed
/// `key` with value rows `rows`.
pub open spec fn gradient_row_for(
    systems: Seq<SimpleSystem>,
    key: PowerSpectrumKey,
    rows: Seq<Sample>,
    gs: GradientSample,
) -> bool {
    exists|j: int, a: int| #[trigger] gradient_row_match(systems, key, rows, j, a, gs)
}

/// As `gradient_row_for`, restricted to base rows strictly before `jq`.
pub open spec fn gradient_row_before(
    systems: Seq<SimpleSystem>,
    key: PowerSpectrumKey,
    rows: Seq<Sample>,
    jq: int,
    gs: GradientSample,
) -> bool {
    exists|j: int, a: int| j < jq && #[trigger] gradient_row_match(systems, key, rows, j, a, gs)
}

impl SoapPowerSpectrum {
    /// The positions-gradient sample set for each key: for every value row,
    /// one `(sample, structure, atom)` row per atom that moves that
    /// environment — the center itself and every neighbor carrying either
    /// of the key's neighbor species.
    pub fn positions_gradient_samples(
        &self,
        keys: &Vec<PowerSpectrumKey>,
        samples: &Vec<Vec<Sample>>,
        systems: &Vec<SimpleSystem>,
    ) -> (r: Result<Vec<Vec<GradientSample>>, Error>)
        requires
            keys@.len() == samples@.len(),
            forall|s: int|
                0 <= s < systems@.len() ==> neighbors_well_formed(#[trigger] systems@[s]),
            forall|s: int|
                0 <= s < systems@.len() ==> (#[trigger] systems@[s].species@.len()) <= i32::MAX
                    as int,
            forall|k: int, j: int|
                0 <= k < samples@.len() && 0 <= j < samples@[k]@.len() ==> {
                    let row = #[trigger] samples@[k]@[j];
                    &&& 0 <= row.structure < systems@.len()
                    &&& 0 <= row.center < systems@[row.structure as int].species@.len()
                },
            forall|k: int| 0 <= k < samples@.len() ==> (#[trigger] samples@[k])@.len() <= i32::MAX
                as int,
        ensures
            r is Ok,
            (r->Ok_0)@.len() == keys@.len(),
            forall|k: int| 0 <= k < keys@.len() ==> distinct((#[trigger] (r->Ok_0)@[k])@),
            forall|k: int, u: int|
                0 <= k < keys@.len() && 0 <= u < (r->Ok_0)@[k]@.len() ==> gradient_row_for(
                    systems@,
                    keys@[k],
                    samples@[k]@,
                    #[trigger] (r->Ok_0)@[k]@[u],
                ),
            forall|k: int, gs: GradientSample|
                0 <= k < keys@.len() && #[trigger] gradient_row_for(
                    systems@,
                    keys@[k],
                    samples@[k]@,
                    gs,
                ) ==> (r->Ok_0)@[k]@.contains(gs),
    {
        let mut out: Vec<Vec<GradientSample>> = Vec::new();
        let mut k: usize = 0;
        while k < keys.len()
            invariant
                0 <= k <= keys@.len(),
                out@.len() == k,
                keys@.len() == samples@.len(),
                forall|s: int|
                    0 <= s < systems@.len() ==> neighbors_well_formed(#[trigger] systems@[s]),
                forall|s: int|
                    0 <= s < systems@.len() ==> (#[trigger] systems@[s].species@.len()) <= i32::MAX
                        as int,
                forall|k2: int, j: int|
                    0 <= k2 < samples@.len() && 0 <= j < samples@[k2]@.len() ==> {
                        let row = #[trigger] samples@[k2]@[j];
                        &&& 0 <= row.structure < systems@.len()
                        &&& 0 <= row.center < systems@[row.structure as int].species@.len()
                    },
                forall|k2: int|
                    0 <= k2 < samples@.len() ==> (#[trigger] samples@[k2])@.len() <= i32::MAX
                        as int,
                forall|k2: int| 0 <= k2 < k ==> distinct((#[trigger] out@[k2])@),
                forall|k2: int, u: int|
                    0 <= k2 < k && 0 <= u < out@[k2]@.len() ==> gradient_row_for(
                        systems@,
                        keys@[k2],
                        samples@[k2]@,
                        #[trigger] out@[k2]@[u],
                    ),
                forall|k2: int, gs: GradientSample|
                    0 <= k2 < k && #[trigger] gradient_row_for(
                        systems@,
                        keys@[k2],
                        samples@[k2]@,
                        gs,
                    ) ==> out@[k2]@.contains(gs),
            decreases keys@.len() - k,
        {
            let key = keys[k];
            let srows = &samples[k];
            let mut rk: Vec<GradientSample> = Vec::new();
            let mut j: usize = 0;
            while j < srows.len()
                invariant
                    0 <= k < keys@.len(),
                    keys@.len() == samples@.len(),
                    key == keys@[k as int],
                    srows == &samples@[k as int],
                    0 <= j <= srows@.len(),
                    srows@.len() <= i32::MAX as int,
                    forall|s: int|
                        0 <= s < systems@.len() ==> neighbors_well_formed(#[trigger] systems@[s]),
                    forall|s: int|
                        0 <= s < systems@.len() ==> (#[trigger] systems@[s].species@.len())
                            <= i32::MAX as int,
                    forall|j2: int|
                        0 <= j2 < srows@.len() ==> {
                            let row = #[trigger] srows@[j2];
                            &&& 0 <= row.structure < systems@.len()
                            &&& 0 <= row.center < systems@[row.structure as int].species@.len()
                        },
                    distinct(rk@),
                    forall|u: int|
                        0 <= u < rk@.len() ==> 0 <= (#[trigger] rk@[u]).sample < j,
                    forall|u: int|
                        0 <= u < rk@.len() ==> gradient_row_before(
                            systems@,
                            key,
                            srows@,
                            j as int,
                            #[trigger] rk@[u],
                        ),
                    forall|gs: GradientSample|
                        #[trigger] gradient_row_before(systems@, key, srows@, j as int, gs)
                            ==> rk@.contains(gs),
                decreases srows@.len() - j,
            {
                let row = srows[j];
                let st = row.structure as usize;
                let ct = row.center as usize;
                let sys = &systems[st];
                let moved = moved_atoms_for(sys, ct, &key);
                let ghost base = rk@;
                proof {
                    assert forall|w2: int| 0 <= w2 < moved@.len() implies (#[trigger] moved@[w2])
                        as int <= i32::MAX as int by {
                        assert(moved@[w2] < systems@[row.structure as int].species@.len());
                    }
                }
                let mut w: usize = 0;
                while w < moved.len()
                    invariant
                        0 <= w <= moved@.len(),
                        forall|w2: int|
                            0 <= w2 < moved@.len() ==> (#[trigger] moved@[w2]) as int <= i32::MAX
                                as int,
                        rk@.len() == base.len() + w,
                        forall|u: int| 0 <= u < base.len() ==> #[trigger] rk@[u] == base[u],
                        forall|w2: int|
                            0 <= w2 < w ==> #[trigger] rk@[base.len() + w2] == (GradientSample {
                                sample: j as i32,
                                structure: row.structure,
                                atom: moved@[w2] as i32,
                            }),
                        0 <= j < srows@.len(),
                        srows@.len() <= i32::MAX as int,
                        row == srows@[j as int],
                    decreases moved@.len() - w,
                {
                    let atom = moved[w];
                    rk.push(GradientSample { sample: j as i32, structure: row.structure, atom: atom as i32 });
                    w = w + 1;
                }
                proof {
                    let sysg = systems@[row.structure as int];
                    assert(sys == &sysg);
                    assert(moved@.len() == w);
                    // bounds and injectivity of the atom casts
                    assert forall|w2: int| 0 <= w2 < moved@.len() implies (#[trigger] moved@[w2])
                        as int <= i32::MAX as int by {
                        assert(moved@[w2] < sysg.species@.len());
                    }
                    // distinctness of the grown list
                    assert forall|u: int, v: int| 0 <= u < v < rk@.len() implies rk@[u]
                        != rk@[v] by {
                        if u < base.len() && v < base.len() {
                            assert(rk@[u] == base[u] && rk@[v] == base[v]);
                            assert(base[u] != base[v]);
                        } else if u < base.len() {
                            let wv = v - base.len();
                            assert(rk@[base.len() + wv] == (GradientSample {
                                sample: j as i32,
                                structure: row.structure,
                                atom: moved@[wv] as i32,
                            }));
                            assert((rk@[u].sample as int) < j as int);
                            assert(rk@[v].sample as int == j as int);
                        } else {
                            let wu = u - base.len();
                            let wv = v - base.len();
                            assert(rk@[base.len() + wu] == (GradientSample {
                                sample: j as i32,
                                structure: row.structure,
                                atom: moved@[wu] as i32,
                            }));
                            assert(rk@[base.len() + wv] == (GradientSample {
                                sample: j as i32,
                                structure: row.structure,
                                atom: moved@[wv] as i32,
                            }));
                            assert(moved@[wu] != moved@[wv]);
                            assert(moved@[wu] as int <= i32::MAX as int);
                            assert(moved@[wv] as int <= i32::MAX as int);
                            assert(rk@[u].atom as int == moved@[wu] as int);
                            assert(rk@[v].atom as int == moved@[wv] as int);
                        }
                    }
                    // every kept row is a gradient row of some base row
                    assert forall|u: int| 0 <= u < rk@.len() implies gradient_row_before(
                        systems@,
                        key,
                        srows@,
                        j + 1,
                        #[trigger] rk@[u],
                    ) by {
                        if u < base.len() {
                            assert(gradient_row_before(systems@, key, srows@, j as int, base[u]));
                            let (j2, a2) = choose|j2: int, a2: int|
                                j2 < j as int && gradient_row_match(
                                    systems@,
                                    key,
                                    srows@,
                                    j2,
                                    a2,
                                    base[u],
                                );
                            assert(gradient_row_match(systems@, key, srows@, j2, a2, rk@[u]));
                        } else {
                            let w2 = u - base.len();
                            assert(rk@[base.len() + w2] == (GradientSample {
                                sample: j as i32,
                                structure: row.structure,
                                atom: moved@[w2] as i32,
                            }));
                            let a2 = moved@[w2] as int;
                            assert(moved@.contains(moved@[w2]));
                            assert(gradient_atom_included(sysg, row.center as int, key, a2));
                            assert(gradient_row_match(systems@, key, srows@, j as int, a2, rk@[u]));
                        }
                    }
                    // every gradient row of a processed base row is kept
                    assert forall|gs: GradientSample| gradient_row_before(
                        systems@,
                        key,
                        srows@,
                        j + 1,
                        gs,
                    ) implies rk@.contains(gs) by {
                        let (j2, a2) = choose|j2: int, a2: int|
                            j2 < j + 1 && gradient_row_match(systems@, key, srows@, j2, a2, gs);
                        if j2 == j as int {
                            assert(gradient_atom_included(sysg, row.center as int, key, a2));
                            assert(0 <= a2 < sysg.species@.len());
                            assert(a2 <= i32::MAX as int);
                            let a2u = a2 as usize;
                            assert(gradient_atom_included(sysg, row.center as int, key, a2u as int));
                            assert(moved@.contains(a2u));
                            let w2 = choose|w2: int| 0 <= w2 < moved@.len() && moved@[w2] == a2u;
                            assert(rk@[base.len() + w2] == (GradientSample {
                                sample: j as i32,
                                structure: row.structure,
                                atom: moved@[w2] as i32,
                            }));
                            assert(rk@[base.len() + w2] == gs);
                        } else {
                            assert(gradient_row_before(systems@, key, srows@, j as int, gs));
                            let (j3, a3) = choose|j3: int, a3: int|
                                j3 < j as int && gradient_row_match(systems@, key, srows@, j3, a3, gs);
                            assert(base.contains(gs));
                            let u3 = choose|u3: int| 0 <= u3 < base.len() && base[u3] == gs;
                            assert(rk@[u3] == gs);
                        }
                    }
                    // sample indexes stay below the next row index
                    assert forall|u: int| 0 <= u < rk@.len() implies 0 <= (
                    #[trigger] rk@[u]).sample < j + 1 by {
                        if u < base.len() {
                            assert(rk@[u] == base[u]);
                            assert(base[u].sample < j);
                        } else {
                            let w2 = u - base.len();
                            assert(rk@[base.len() + w2] == (GradientSample {
                                sample: j as i32,
                                structure: row.structure,
                                atom: moved@[w2] as i32,
                            }));
                        }
                    }
                }
                j = j + 1;
            }
            out.push(rk);
            proof {
                assert forall|u: int| 0 <= u < out@[k as int]@.len() implies gradient_row_for(
                    systems@,
                    keys@[k as int],
                    samples@[k as int]@,
                    #[trigger] out@[k as int]@[u],
                ) by {
                    assert(gradient_row_before(
                        systems@,
                        key,
                        srows@,
                        j as int,
                        out@[k as int]@[u],
                    ));
                    let (j2, a2) = choose|j2: int, a2: int|
                        j2 < j as int && gradient_row_match(
                            systems@,
                            key,
                            srows@,
                            j2,
                            a2,
                            out@[k as int]@[u],
                        );
                    assert(gradient_row_match(systems@, key, srows@, j2, a2, out@[k as int]@[u]));
                }
                assert forall|gs: GradientSample| gradient_row_for(
                    systems@,
                    keys@[k as int],
                    samples@[k as int]@,
                    gs,
                ) implies out@[k as int]@.contains(gs) by {
                    let (j2, a2) = choose|j2: int, a2: int|
                        gradient_row_match(systems@, key, srows@, j2, a2, gs);
                    assert(gradient_row_before(systems@, key, srows@, j as int, gs));
                }
            }
            k = k + 1;
        }
        Ok(out)
    }
}

} // verus!
