//! Label values and verified lookup/insertion helpers.
//!
//! Keys, samples and properties are named tuples of integer label values.
//! Axes are vectors of such tuples; `first_index` is the shared
//! specification of positional lookup, and the insert helpers build
//! deduplicated axes in ascending order.
use vstd::prelude::*;

verus! {

/// One sample row of a power-spectrum or spherical-expansion block: one
/// atomic center in one structure.
#[derive(Debug, Clone, Copy, PartialEq, Eq, Structural, Hash)]
pub struct Sample {
    pub structure: i32,
    pub center: i32,
}

/// Key of one power-spectrum block. Species codes are arbitrary integers;
/// by convention stored blocks have `species_neighbor_1 <=
/// species_neighbor_2` (the combination kernel compensates for the unstored
/// mirror ordering), but nothing here requires it.
#[derive(Debug, Clone, Copy, PartialEq, Eq, Structural, Hash)]
pub struct PowerSpectrumKey {
    pub species_center: i32,
    pub species_neighbor_1: i32,
    pub species_neighbor_2: i32,
}

/// One requested power-spectrum property: angular channel `l` and the two
/// radial indexes combined for it.
#[derive(Debug, Clone, Copy, PartialEq, Eq, Structural, Hash)]
pub struct PowerSpectrumProperty {
    pub l: i32,
    pub n1: i32,
    pub n2: i32,
}

/// Key of one spherical-expansion block.
#[derive(Debug, Clone, Copy, PartialEq, Eq, Structural, Hash)]
pub struct SphericalExpansionKey {
    pub spherical_harmonics_l: i32,
    pub species_center: i32,
    pub species_neighbor: i32,
}

/// One row of a positions-gradient sub-block: `sample` is the row of the
/// base block being differentiated, `(structure, atom)` the atom moved.
#[derive(Debug, Clone, Copy, PartialEq, Eq, Structural, Hash)]
pub struct GradientSample {
    pub sample: i32,
    pub structure: i32,
    pub atom: i32,
}

/// Index of the first occurrence of `x` in `s`, if any.
pub open spec fn first_index<A>(s: Seq<A>, x: A) -> Option<int>
    decreases s.len(),
{
    if s.len() <= 0 {
        None
    } else if s[0] == x {
        Some(0int)
    } else {
        match first_index(s.skip(1), x) {
            Some(i) => Some(i + 1),
            None => None,
        }
    }
}

/// No two entries of `s` are equal.
pub open spec fn distinct<A>(s: Seq<A>) -> bool {
    forall|i: int, j: int| 0 <= i < j < s.len() ==> s[i] != s[j]
}

/// `a` comes strictly before `b` in the system-then-center order.
pub open spec fn sample_lex_before(a: Sample, b: Sample) -> bool {
    a.structure < b.structure || (a.structure == b.structure && a.center < b.center)
}

/// The radial axis is strictly ascending.
pub open spec fn sorted_radial_axis(s: Seq<i32>) -> bool {
    forall|i: int, j: int| 0 <= i < j < s.len() ==> s[i] < s[j]
}

/// The sample axis is strictly ascending in the system-then-center order.
pub open spec fn sorted_sample_axis(s: Seq<Sample>) -> bool {
    forall|i: int, j: int| 0 <= i < j < s.len() ==> sample_lex_before(s[i], s[j])
}

/// Whether `a` comes strictly before `b` in the system-then-center order.
pub fn sample_before(a: &Sample, b: &Sample) -> (r: bool)
    ensures
        r == sample_lex_before(*a, *b),
{
    a.structure < b.structure || (a.structure == b.structure && a.center < b.center)
}

/// `first_index` returns an in-range position holding `x` and preceded by no
/// other occurrence, and returns `None` exactly when `x` is absent.
pub proof fn lemma_first_index<A>(s: Seq<A>, x: A)
    ensures
        match first_index(s, x) {
            Some(i) => 0 <= i < s.len() && s[i] == x && (forall|j: int| 0 <= j < i ==> s[j] != x),
            None => forall|j: int| 0 <= j < s.len() ==> s[j] != x,
        },
        (first_index(s, x) is Some) == s.contains(x),
    decreases s.len(),
{
    if s.len() <= 0 {
    } else if s[0] == x {
        assert(s.contains(x)) by {
            assert(s[0] == x);
        }
    } else {
        lemma_first_index(s.skip(1), x);
        let t = s.skip(1);
        assert(forall|j: int| 0 <= j < t.len() ==> t[j] == s[j + 1]);
        match first_index(t, x) {
            Some(i) => {
                assert(t[i] == x);
                assert(s[i + 1] == x);
                assert forall|j: int| 0 <= j < i + 1 implies s[j] != x by {
                    if j > 0 {
                        assert(t[j - 1] != x);
                        assert(t[j - 1] == s[j]);
                    }
                }
                assert(s.contains(x)) by {
                    assert(s[i + 1] == x);
                }
            },
            None => {
                assert forall|j: int| 0 <= j < s.len() implies s[j] != x by {
                    if j > 0 {
                        assert(t[j - 1] != x);
                        assert(t[j - 1] == s[j]);
                    }
                }
                if s.contains(x) {
                    let w = choose|w: int| 0 <= w < s.len() && s[w] == x;
                    assert(s[w] != x);
                }
            },
        }
    }
}

/// A position that holds `x` and is preceded by no occurrence of `x` is the
/// first index of `x`.
pub proof fn lemma_first_index_is<A>(s: Seq<A>, x: A, i: int)
    requires
        0 <= i < s.len(),
        s[i] == x,
        forall|j: int| 0 <= j < i ==> s[j] != x,
    ensures
        first_index(s, x) == Some(i),
{
    lemma_first_index(s, x);
    assert(s.contains(x)) by {
        assert(s[i] == x);
    }
    let f = first_index(s, x)->Some_0;
    if f < i {
        assert(s[f] != x);
    }
    if i < f {
        assert(s[i] != x);
    }
}

/// Position of the first row equal to `x` in a sample axis.
pub fn sample_position(v: &Vec<Sample>, x: &Sample) -> (r: Option<usize>)
    ensures
        match r {
            Some(i) => first_index(v@, *x) == Some(i as int),
            None => first_index(v@, *x) is None,
        },
{
    let mut i: usize = 0;
    while i < v.len()
        invariant
            0 <= i <= v@.len(),
            forall|j: int| 0 <= j < i ==> v@[j] != *x,
        decreases v@.len() - i,
    {
        if v[i] == *x {
            proof {
                lemma_first_index_is(v@, *x, i as int);
            }
            return Some(i);
        }
        i = i + 1;
    }
    proof {
        lemma_first_index(v@, *x);
        if v@.contains(*x) {
            let w = choose|w: int| 0 <= w < v@.len() && v@[w] == *x;
            assert(v@[w] != *x);
        }
    }
    None
}

/// Position of the first entry equal to `n` in a radial-index axis.
pub fn radial_position(v: &Vec<i32>, n: i32) -> (r: Option<usize>)
    ensures
        match r {
            Some(i) => first_index(v@, n) == Some(i as int),
            None => first_index(v@, n) is None,
        },
{
    let mut i: usize = 0;
    while i < v.len()
        invariant
            0 <= i <= v@.len(),
            forall|j: int| 0 <= j < i ==> v@[j] != n,
        decreases v@.len() - i,
    {
        if v[i] == n {
            proof {
                lemma_first_index_is(v@, n, i as int);
            }
            return Some(i);
        }
        i = i + 1;
    }
    proof {
        lemma_first_index(v@, n);
        if v@.contains(n) {
            let w = choose|w: int| 0 <= w < v@.len() && v@[w] == n;
            assert(v@[w] != n);
        }
    }
    None
}

/// Position of the first row equal to `x` in a positions-gradient sample
/// axis.
pub fn gradient_sample_position(v: &Vec<GradientSample>, x: &GradientSample) -> (r: Option<usize>)
    ensures
        match r {
            Some(i) => first_index(v@, *x) == Some(i as int),
            None => first_index(v@, *x) is None,
        },
{
    let mut i: usize = 0;
    while i < v.len()
        invariant
            0 <= i <= v@.len(),
            forall|j: int| 0 <= j < i ==> v@[j] != *x,
        decreases v@.len() - i,
    {
        if v[i] == *x {
            proof {
                lemma_first_index_is(v@, *x, i as int);
            }
            return Some(i);
        }
        i = i + 1;
    }
    proof {
        lemma_first_index(v@, *x);
        if v@.contains(*x) {
            let w = choose|w: int| 0 <= w < v@.len() && v@[w] == *x;
            assert(v@[w] != *x);
        }
    }
    None
}

/// Insert `x` at its sorted position unless already present, keeping the
/// axis strictly ascending in the system-then-center order.
#[verifier::rlimit(50)]
pub fn insert_sample(v: &mut Vec<Sample>, x: Sample)
    requires
        sorted_sample_axis(old(v)@),
    ensures
        sorted_sample_axis(final(v)@),
        distinct(final(v)@),
        forall|y: Sample| final(v)@.contains(y) <==> (old(v)@.contains(y) || y == x),
{
    let mut i: usize = 0;
    while i < v.len() && sample_before(&v[i], &x)
        invariant
            0 <= i <= v@.len(),
            v@ == old(v)@,
            sorted_sample_axis(v@),
            forall|j: int| 0 <= j < i ==> sample_lex_before(#[trigger] v@[j], x),
        decreases v@.len() - i,
    {
        i = i + 1;
    }
    if i < v.len() && v[i] == x {
        proof {
            assert(v@.contains(x)) by {
                assert(v@[i as int] == x);
            }
            assert forall|u: int, w: int| 0 <= u < w < v@.len() implies v@[u] != v@[w] by {
                assert(sample_lex_before(v@[u], v@[w]));
            }
        }
        return ;
    }
    let ghost before = v@;
    proof {
        assert forall|j: int| i <= j < before.len() implies sample_lex_before(
            x,
            #[trigger] before[j],
        ) by {
            if i < before.len() {
                assert(!sample_lex_before(before[i as int], x));
                assert(before[i as int] != x);
                if j > i {
                    assert(sample_lex_before(before[i as int], before[j]));
                }
            }
        }
        before.insert_ensures(i as int, x);
    }
    v.insert(i, x);
    proof {
        assert(v@ == before.insert(i as int, x));
        assert forall|u: int, w: int| 0 <= u < w < v@.len() implies sample_lex_before(
            #[trigger] v@[u],
            #[trigger] v@[w],
        ) by {
            if w < i {
                assert(v@[u] == before[u] && v@[w] == before[w]);
            } else if w == i {
                assert(v@[u] == before[u] && v@[w] == x);
            } else {
                assert(v@[w] == before[w - 1]);
                assert(sample_lex_before(x, before[w - 1]));
                if u < i {
                    assert(v@[u] == before[u]);
                    assert(sample_lex_before(before[u], x));
                } else if u == i {
                    assert(v@[u] == x);
                } else {
                    assert(v@[u] == before[u - 1]);
                    assert(sample_lex_before(before[u - 1], before[w - 1]));
                }
            }
        }
        assert forall|y: Sample| v@.contains(y) <==> (before.contains(y) || y == x) by {
            if v@.contains(y) {
                let j = choose|j: int| 0 <= j < v@.len() && v@[j] == y;
                if j < i {
                    assert(before[j] == y);
                } else if j > i {
                    assert(before[j - 1] == y);
                }
            }
            if before.contains(y) {
                let j = choose|j: int| 0 <= j < before.len() && before[j] == y;
                if j < i {
                    assert(v@[j] == y);
                } else {
                    assert(v@[j + 1] == y);
                }
            }
            if y == x {
                assert(v@[i as int] == y);
            }
        }
        assert forall|u: int, w: int| 0 <= u < w < v@.len() implies v@[u] != v@[w] by {
            assert(sample_lex_before(v@[u], v@[w]));
        }
    }
}

/// Insert `n` at its sorted position unless already present, keeping the
/// axis strictly ascending.
#[verifier::rlimit(50)]
pub fn insert_radial(v: &mut Vec<i32>, n: i32)
    requires
        sorted_radial_axis(old(v)@),
    ensures
        sorted_radial_axis(final(v)@),
        distinct(final(v)@),
        forall|m: i32| final(v)@.contains(m) <==> (old(v)@.contains(m) || m == n),
{
    let mut i: usize = 0;
    while i < v.len() && v[i] < n
        invariant
            0 <= i <= v@.len(),
            v@ == old(v)@,
            sorted_radial_axis(v@),
            forall|j: int| 0 <= j < i ==> #[trigger] v@[j] < n,
        decreases v@.len() - i,
    {
        i = i + 1;
    }
    if i < v.len() && v[i] == n {
        proof {
            assert(v@.contains(n)) by {
                assert(v@[i as int] == n);
            }
        }
        return ;
    }
    let ghost before = v@;
    proof {
        assert forall|j: int| i <= j < before.len() implies n < #[trigger] before[j] by {
            if i < before.len() {
                assert(!(before[i as int] < n));
                assert(before[i as int] != n);
                if j > i {
                    assert(before[i as int] < before[j]);
                }
            }
        }
        before.insert_ensures(i as int, n);
    }
    v.insert(i, n);
    proof {
        assert(v@ == before.insert(i as int, n));
        assert forall|u: int, w: int| 0 <= u < w < v@.len() implies #[trigger] v@[u]
            < #[trigger] v@[w] by {
            if w < i {
                assert(v@[u] == before[u] && v@[w] == before[w]);
            } else if w == i {
                assert(v@[u] == before[u] && v@[w] == n);
            } else {
                assert(v@[w] == before[w - 1]);
                assert(n < before[w - 1]);
                if u < i {
                    assert(v@[u] == before[u]);
                    assert(before[u] < n);
                } else if u == i {
                    assert(v@[u] == n);
                } else {
                    assert(v@[u] == before[u - 1]);
                    assert(before[u - 1] < before[w - 1]);
                }
            }
        }
        assert forall|m: i32| v@.contains(m) <==> (before.contains(m) || m == n) by {
            if v@.contains(m) {
                let j = choose|j: int| 0 <= j < v@.len() && v@[j] == m;
                if j < i {
                    assert(before[j] == m);
                } else if j > i {
                    assert(before[j - 1] == m);
                }
            }
            if before.contains(m) {
                let j = choose|j: int| 0 <= j < before.len() && before[j] == m;
                if j < i {
                    assert(v@[j] == m);
                } else {
                    assert(v@[j + 1] == m);
                }
            }
            if m == n {
                assert(v@[i as int] == m);
            }
        }
    }
}

} // verus!
