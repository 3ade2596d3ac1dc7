use vstd::prelude::*;

use crate::blocks::{PowerSpectrumBlock, SamplesMapping, SphericalExpansionBlock, SpxPropertiesToCombine};
use crate::combine::{combination_correct_for, property_resolvable, spx_properties_to_combine};
use crate::errors::Error;
use crate::labels::{PowerSpectrumKey, PowerSpectrumProperty};
use crate::mapper::{mapping_correct_for, mapping_resolvable, samples_mapping};

verus! {

/// Configuration of the power-spectrum calculator.
///
/// Only `max_radial` and `max_angular` steer the verified combination
/// engine. The real-valued settings parameterize the spherical-expansion
/// calculator and the neighbor-list machinery, both of which run outside the
/// verified core; they are carried here as IEEE-754 bit patterns so the
/// whole configuration can travel through the library unchanged. The choice
/// of radial basis, cutoff function and radial scaling is consumed only by
/// the spherical-expansion calculator and stays with the unverified shell.
#[derive(Debug, Clone, Copy, PartialEq, Eq, Structural, Hash)]
pub struct PowerSpectrumParameters {
    /// spherical cutoff for atomic environments, as an IEEE-754 bit pattern
    pub cutoff: u64,
    /// number of radial basis functions
    pub max_radial: usize,
    /// number of spherical harmonics
    pub max_angular: usize,
    /// width of the atom-centered gaussian, as an IEEE-754 bit pattern
    pub atomic_gaussian_width: u64,
    /// weight of the central atom's own density contribution, as an
    /// IEEE-754 bit pattern
    pub center_atom_weight: u64,
}

/// The verified core of the SOAP power-spectrum calculator: it plans the
/// spherical-expansion request for a requested output, aligns the rows of
/// the two tensors, and resolves every array coordinate the numeric kernel
/// will touch.
pub struct SoapPowerSpectrum {
    /// configuration this calculator was created with
    pub parameters: PowerSpectrumParameters,
}

/// `a` comes strictly before `b` in the lexicographic `(l, n1, n2)` order.
pub open spec fn property_lex_before(a: PowerSpectrumProperty, b: PowerSpectrumProperty) -> bool {
    a.l < b.l || (a.l == b.l && (a.n1 < b.n1 || (a.n1 == b.n1 && a.n2 < b.n2)))
}

/// `r` is the full default property enumeration: every `(l, n1, n2)` with
/// `l <= max_angular` and `n1, n2 < max_radial`, exactly once, in
/// lexicographic order.
pub open spec fn is_full_property_list(
    r: Seq<PowerSpectrumProperty>,
    max_angular: int,
    max_radial: int,
) -> bool {
    &&& r.len() == (max_angular + 1) * max_radial * max_radial
    &&& forall|i: int|
        0 <= i < r.len() ==> 0 <= (#[trigger] r[i]).l <= max_angular && 0 <= r[i].n1 < max_radial
            && 0 <= r[i].n2 < max_radial
    &&& forall|l: i32, n1: i32, n2: i32|
        0 <= l <= max_angular && 0 <= n1 < max_radial && 0 <= n2 < max_radial ==> r.contains(
            PowerSpectrumProperty { l, n1, n2 },
        )
    &&& forall|i: int, j: int|
        0 <= i < j < r.len() ==> property_lex_before(#[trigger] r[i], #[trigger] r[j])
}

impl SoapPowerSpectrum {
    /// Build a calculator from its configuration. The spherical-expansion
    /// calculator serving the inner requests is owned by the unverified
    /// shell, which validates the real-valued settings; nothing here can
    /// fail.
    pub fn new(parameters: PowerSpectrumParameters) -> (r: Result<SoapPowerSpectrum, Error>)
        ensures
            r is Ok,
            r->Ok_0.parameters == parameters,
    {
        Ok(SoapPowerSpectrum { parameters })
    }

    /// The default property enumeration of one block: all `(l, n1, n2)`
    /// with `l <= max_angular` and `n1, n2 < max_radial`, in lexicographic
    /// order.
    pub fn default_properties(&self) -> (r: Vec<PowerSpectrumProperty>)
        requires
            self.parameters.max_angular < i32::MAX,
            self.parameters.max_radial <= i32::MAX,
        ensures
            is_full_property_list(
                r@,
                self.parameters.max_angular as int,
                self.parameters.max_radial as int,
            ),
    {
        let ma: i32 = self.parameters.max_angular as i32;
        let mr: i32 = self.parameters.max_radial as i32;
        let mut r: Vec<PowerSpectrumProperty> = Vec::new();
        let mut l: i32 = 0;
        while l <= ma
            invariant
                0 <= l <= ma + 1,
                ma < i32::MAX,
                0 <= mr,
                r@.len() == l * (mr as int) * (mr as int),
                forall|i: int|
                    0 <= i < r@.len() ==> 0 <= (#[trigger] r@[i]).l < l && 0 <= r@[i].n1 < mr
                        && 0 <= r@[i].n2 < mr,
                forall|l2: i32, m1: i32, m2: i32|
                    0 <= l2 < l && 0 <= m1 < mr && 0 <= m2 < mr ==> r@.contains(
                        PowerSpectrumProperty { l: l2, n1: m1, n2: m2 },
                    ),
                forall|i: int, j: int|
                    0 <= i < j < r@.len() ==> property_lex_before(
                        #[trigger] r@[i],
                        #[trigger] r@[j],
                    ),
            decreases ma + 1 - l,
        {
            let mut n1: i32 = 0;
            while n1 < mr
                invariant
                    0 <= l <= ma,
                    ma < i32::MAX,
                    0 <= mr,
                    0 <= n1 <= mr,
                    r@.len() == l * (mr as int) * (mr as int) + n1 * (mr as int),
                    forall|i: int|
                        0 <= i < r@.len() ==> 0 <= (#[trigger] r@[i]).l <= l && 0 <= r@[i].n1 < mr
                            && 0 <= r@[i].n2 < mr && (r@[i].l == l ==> r@[i].n1 < n1),
                    forall|l2: i32, m1: i32, m2: i32|
                        0 <= l2 < l && 0 <= m1 < mr && 0 <= m2 < mr ==> r@.contains(
                            PowerSpectrumProperty { l: l2, n1: m1, n2: m2 },
                        ),
                    forall|m1: i32, m2: i32|
                        0 <= m1 < n1 && 0 <= m2 < mr ==> r@.contains(
                            PowerSpectrumProperty { l, n1: m1, n2: m2 },
                        ),
                    forall|i: int, j: int|
                        0 <= i < j < r@.len() ==> property_lex_before(
                            #[trigger] r@[i],
                            #[trigger] r@[j],
                        ),
                decreases mr - n1,
            {
                let mut n2: i32 = 0;
                while n2 < mr
                    invariant
                        0 <= l <= ma,
                        ma < i32::MAX,
                        0 <= mr,
                        0 <= n1 < mr,
                        0 <= n2 <= mr,
                        r@.len() == l * (mr as int) * (mr as int) + n1 * (mr as int) + n2,
                        forall|i: int|
                            0 <= i < r@.len() ==> 0 <= (#[trigger] r@[i]).l <= l && 0 <= r@[i].n1
                                < mr && 0 <= r@[i].n2 < mr && (r@[i].l == l ==> r@[i].n1 <= n1)
                                && (r@[i].l == l && r@[i].n1 == n1 ==> r@[i].n2 < n2),
                        forall|l2: i32, m1: i32, m2: i32|
                            0 <= l2 < l && 0 <= m1 < mr && 0 <= m2 < mr ==> r@.contains(
                                PowerSpectrumProperty { l: l2, n1: m1, n2: m2 },
                            ),
                        forall|m1: i32, m2: i32|
                            0 <= m1 < n1 && 0 <= m2 < mr ==> r@.contains(
                                PowerSpectrumProperty { l, n1: m1, n2: m2 },
                            ),
                        forall|m2: i32|
                            0 <= m2 < n2 ==> r@.contains(PowerSpectrumProperty { l, n1, n2: m2 }),
                        forall|i: int, j: int|
                            0 <= i < j < r@.len() ==> property_lex_before(
                                #[trigger] r@[i],
                                #[trigger] r@[j],
                            ),
                    decreases mr - n2,
                {
                    let ghost before = r@;
                    r.push(PowerSpectrumProperty { l, n1, n2 });
                    proof {
                        assert(r@ == before.push(PowerSpectrumProperty { l, n1, n2 }));
                        assert forall|y: PowerSpectrumProperty| before.contains(y)
                            implies r@.contains(y) by {
                            let j = choose|j: int| 0 <= j < before.len() && before[j] == y;
                            assert(r@[j] == y);
                        }
                        assert(r@[before.len() as int] == PowerSpectrumProperty { l, n1, n2 });
                        assert forall|l2: i32, m1: i32, m2: i32|
                            0 <= l2 < l && 0 <= m1 < mr && 0 <= m2 < mr implies r@.contains(
                            PowerSpectrumProperty { l: l2, n1: m1, n2: m2 },
                        ) by {
                            let p = PowerSpectrumProperty { l: l2, n1: m1, n2: m2 };
                            assert(before.contains(p));
                            let j = choose|j: int| 0 <= j < before.len() && before[j] == p;
                            assert(r@[j] == p);
                        }
                        assert forall|m1: i32, m2: i32|
                            0 <= m1 < n1 && 0 <= m2 < mr implies r@.contains(
                            PowerSpectrumProperty { l, n1: m1, n2: m2 },
                        ) by {
                            let p = PowerSpectrumProperty { l, n1: m1, n2: m2 };
                            assert(before.contains(p));
                            let j = choose|j: int| 0 <= j < before.len() && before[j] == p;
                            assert(r@[j] == p);
                        }
                        assert forall|m2: i32| 0 <= m2 < n2 + 1 implies r@.contains(
                            PowerSpectrumProperty { l, n1, n2: m2 },
                        ) by {
                            if m2 < n2 {
                                assert(before.contains(PowerSpectrumProperty { l, n1, n2: m2 }));
                            } else {
                                assert(r@[before.len() as int] == PowerSpectrumProperty {
                                    l,
                                    n1,
                                    n2: m2,
                                });
                            }
                        }
                    }
                    n2 = n2 + 1;
                }
                proof {
                    let mri = mr as int;
                    assert(l * mri * mri + n1 * mri + mri == l * mri * mri + (n1 + 1) * mri)
                        by (nonlinear_arith);
                }
                n1 = n1 + 1;
            }
            proof {
                let mri = mr as int;
                assert(l * mri * mri + mri * mri == (l + 1) * mri * mri) by (nonlinear_arith);
            }
            l = l + 1;
        }
        proof {
            let mri = mr as int;
            assert((ma + 1) * mri * mri == ((self.parameters.max_angular as int) + 1) * (
            self.parameters.max_radial as int) * (self.parameters.max_radial as int));
        }
        r
    }

    /// The name of this calculator.
    pub fn name(&self) -> (r: String)
        ensures
            r@ == "SOAP power spectrum"@,
    {
        "SOAP power spectrum".to_owned()
    }

    /// The component axes of each block: the power spectrum is rotationally
    /// invariant, so every key gets an empty list of component axes (an
    /// axis, were there one, would be a list of component label values).
    pub fn components(&self, keys: &Vec<PowerSpectrumKey>) -> (r: Vec<Vec<Vec<i32>>>)
        ensures
            r@.len() == keys@.len(),
            forall|k: int| 0 <= k < r@.len() ==> (#[trigger] r@[k])@.len() == 0,
    {
        let mut r: Vec<Vec<Vec<i32>>> = Vec::new();
        let mut k: usize = 0;
        while k < keys.len()
            invariant
                0 <= k <= keys@.len(),
                r@.len() == k,
                forall|k2: int| 0 <= k2 < r@.len() ==> (#[trigger] r@[k2])@.len() == 0,
            decreases keys@.len() - k,
        {
            r.push(Vec::new());
            k = k + 1;
        }
        r
    }

    /// The names of the sample-axis columns.
    pub fn samples_names(&self) -> (r: Vec<&str>)
        ensures
            r@.len() == 2,
            r@[0]@ == "structure"@,
            r@[1]@ == "center"@,
    {
        let mut r: Vec<&str> = Vec::new();
        r.push("structure");
        r.push("center");
        r
    }

    /// The names of the property-axis columns.
    pub fn properties_names(&self) -> (r: Vec<&str>)
        ensures
            r@.len() == 3,
            r@[0]@ == "l"@,
            r@[1]@ == "n1"@,
            r@[2]@ == "n2"@,
    {
        let mut r: Vec<&str> = Vec::new();
        r.push("l");
        r.push("n1");
        r.push("n2");
        r
    }

    /// One full default property list per key.
    pub fn properties(&self, keys: &Vec<PowerSpectrumKey>) -> (r: Vec<Vec<PowerSpectrumProperty>>)
        requires
            self.parameters.max_angular < i32::MAX,
            self.parameters.max_radial <= i32::MAX,
        ensures
            r@.len() == keys@.len(),
            forall|k: int|
                0 <= k < r@.len() ==> is_full_property_list(
                    (#[trigger] r@[k])@,
                    self.parameters.max_angular as int,
                    self.parameters.max_radial as int,
                ),
    {
        let mut r: Vec<Vec<PowerSpectrumProperty>> = Vec::new();
        let mut k: usize = 0;
        while k < keys.len()
            invariant
                0 <= k <= keys@.len(),
                r@.len() == k,
                self.parameters.max_angular < i32::MAX,
                self.parameters.max_radial <= i32::MAX,
                forall|j: int|
                    0 <= j < r@.len() ==> is_full_property_list(
                        (#[trigger] r@[j])@,
                        self.parameters.max_angular as int,
                        self.parameters.max_radial as int,
                    ),
            decreases keys@.len() - k,
        {
            r.push(self.default_properties());
            k = k + 1;
        }
        r
    }
}

/// Everything the numeric kernel needs, fully resolved: one row
/// correspondence and one list of combination coordinates per output
/// block. Every index in a plan is validated against the block shapes
/// before the kernel runs, and rows are independent, so the kernel can
/// fill them in parallel without further checks.
pub struct ComputePlan {
    pub mapping: Vec<SamplesMapping>,
    pub combinations: Vec<Vec<SpxPropertiesToCombine>>,
}

impl SoapPowerSpectrum {
    /// The decision phase of a compute call: align every output block's
    /// rows with the spherical-expansion blocks it combines and resolve
    /// the coordinates of every requested property. Succeeds exactly when
    /// every lookup resolves — which the planner's selection guarantees —
    /// and reports a broken invariant as an internal error otherwise. The
    /// floating-point accumulation that follows runs outside the verified
    /// core, driven by this plan alone.
    pub fn prepare_compute(
        descriptor: &Vec<PowerSpectrumBlock>,
        spherical_expansion: &Vec<SphericalExpansionBlock>,
    ) -> (r: Result<ComputePlan, Error>)
        ensures
            r is Err ==> r->Err_0 is Internal,
            r is Ok <==> mapping_resolvable(descriptor@, spherical_expansion@) && (forall|
                b: int,
                p: int,
            |
                0 <= b < descriptor@.len() && 0 <= p < descriptor@[b].properties@.len()
                    ==> property_resolvable(
                    descriptor@[b].key,
                    #[trigger] descriptor@[b].properties@[p],
                    spherical_expansion@,
                )),
            r is Ok ==> {
                let plan = r->Ok_0;
                &&& plan.mapping@.len() == descriptor@.len()
                &&& plan.combinations@.len() == descriptor@.len()
                &&& forall|b: int|
                    0 <= b < descriptor@.len() ==> mapping_correct_for(
                        #[trigger] descriptor@[b],
                        spherical_expansion@,
                        plan.mapping@[b],
                    )
                &&& forall|b: int|
                    0 <= b < descriptor@.len() ==> (#[trigger] plan.combinations@[b])@.len()
                        == descriptor@[b].properties@.len()
                &&& forall|b: int, p: int|
                    0 <= b < descriptor@.len() && 0 <= p < descriptor@[b].properties@.len()
                        ==> combination_correct_for(
                        descriptor@[b].key,
                        #[trigger] descriptor@[b].properties@[p],
                        spherical_expansion@,
                        plan.combinations@[b]@[p],
                    )
            },
    {
        let mapping = match samples_mapping(descriptor, spherical_expansion) {
            Ok(m) => m,
            Err(e) => {
                return Err(e);
            },
        };
        let mut combinations: Vec<Vec<SpxPropertiesToCombine>> = Vec::new();
        let mut b: usize = 0;
        while b < descriptor.len()
            invariant
                0 <= b <= descriptor@.len(),
                combinations@.len() == b,
                forall|b2: int, p: int|
                    0 <= b2 < b && 0 <= p < descriptor@[b2].properties@.len()
                        ==> property_resolvable(
                        descriptor@[b2].key,
                        #[trigger] descriptor@[b2].properties@[p],
                        spherical_expansion@,
                    ),
                forall|b2: int|
                    0 <= b2 < b ==> (#[trigger] combinations@[b2])@.len()
                        == descriptor@[b2].properties@.len(),
                forall|b2: int, p: int|
                    0 <= b2 < b && 0 <= p < descriptor@[b2].properties@.len()
                        ==> combination_correct_for(
                        descriptor@[b2].key,
                        #[trigger] descriptor@[b2].properties@[p],
                        spherical_expansion@,
                        combinations@[b2]@[p],
                    ),
            decreases descriptor@.len() - b,
        {
            let d = &descriptor[b];
            let combine = match spx_properties_to_combine(&d.key, &d.properties, spherical_expansion) {
                Ok(c) => c,
                Err(e) => {
                    return Err(e);
                },
            };
            combinations.push(combine);
            b = b + 1;
        }
        Ok(ComputePlan { mapping, combinations })
    }
}

} // verus!
