use rascaline::blocks::{PowerSpectrumBlock, SphericalExpansionBlock};
use rascaline::combine::spx_properties_to_combine;
use rascaline::labels::{
    GradientSample, PowerSpectrumKey, PowerSpectrumProperty, Sample, SphericalExpansionKey,
};
use rascaline::mapper::samples_mapping;
use rascaline::power_spectrum::{PowerSpectrumParameters, SoapPowerSpectrum};
use rascaline::system::{NeighborsList, Pair, SimpleSystem, UnitCell, Vector3D};
use rascaline::Error;

fn parameters() -> PowerSpectrumParameters {
    PowerSpectrumParameters {
        cutoff: 3.5f64.to_bits(),
        max_radial: 6,
        max_angular: 6,
        atomic_gaussian_width: 0.3f64.to_bits(),
        center_atom_weight: 1.0f64.to_bits(),
    }
}

fn key(c: i32, n1: i32, n2: i32) -> PowerSpectrumKey {
    PowerSpectrumKey { species_center: c, species_neighbor_1: n1, species_neighbor_2: n2 }
}

fn prop(l: i32, n1: i32, n2: i32) -> PowerSpectrumProperty {
    PowerSpectrumProperty { l, n1, n2 }
}

fn sample(structure: i32, center: i32) -> Sample {
    Sample { structure, center }
}

fn block(
    k: PowerSpectrumKey,
    samples: Vec<Sample>,
    properties: Vec<PowerSpectrumProperty>,
) -> PowerSpectrumBlock {
    PowerSpectrumBlock {
        key: k,
        samples,
        properties,
        positions_gradient_samples: None,
        cell_gradient_samples: None,
    }
}

/// The requested output used by the partial-computation tests: a key
/// subset that includes one key outside the default enumeration.
fn partial_descriptor() -> Vec<PowerSpectrumBlock> {
    let properties = vec![
        prop(0, 0, 1),
        prop(3, 3, 3),
        prop(2, 4, 3),
        prop(1, 4, 4),
        prop(5, 1, 0),
        prop(1, 1, 2),
    ];
    let samples = vec![sample(0, 2), sample(0, 1)];
    let keys = vec![
        key(1, 1, 1),
        key(6, 6, 6),
        key(1, 8, 6), // not part of the default keys
        key(1, 6, 6),
        key(1, 1, 6),
        key(6, 1, 1),
        key(6, 1, 6),
    ];
    keys.into_iter().map(|k| block(k, samples.clone(), properties.clone())).collect()
}

fn find_spx<'a>(
    selected: &'a [SphericalExpansionBlock],
    l: i32,
    c: i32,
    s: i32,
) -> &'a SphericalExpansionBlock {
    let wanted = SphericalExpansionKey {
        spherical_harmonics_l: l,
        species_center: c,
        species_neighbor: s,
    };
    selected.iter().find(|b| b.key == wanted).expect("missing selected block")
}

#[test]
fn default_properties_enumeration() {
    let calculator = SoapPowerSpectrum::new(parameters()).unwrap();
    let props = calculator.default_properties();
    assert_eq!(props.len(), 7 * 6 * 6);
    assert_eq!(props[0], prop(0, 0, 0));
    assert_eq!(props[1], prop(0, 0, 1));
    assert_eq!(props[6], prop(0, 1, 0));
    assert_eq!(props[36], prop(1, 0, 0));
    assert_eq!(props[7 * 6 * 6 - 1], prop(6, 5, 5));

    let keys = vec![key(1, 1, 1), key(1, 1, 6)];
    let per_key = calculator.properties(&keys);
    assert_eq!(per_key.len(), 2);
    assert_eq!(per_key[0], props);
    assert_eq!(per_key[1], props);
}

#[test]
fn selected_spx_labels_partial() {
    let calculator = SoapPowerSpectrum::new(parameters()).unwrap();
    let descriptor = partial_descriptor();
    let selected = calculator.selected_spx_labels(&descriptor).unwrap();

    // 5 distinct species pairs over all keys, every angular channel up to
    // max_angular: the request is dense over the referenced channel range
    assert_eq!(selected.len(), 5 * 7);

    // the key outside the default enumeration still gets validly shaped
    // blocks for every channel it needs; axes come out sorted ascending
    let b = find_spx(&selected, 2, 1, 8);
    assert_eq!(b.samples, vec![sample(0, 1), sample(0, 2)]);
    assert_eq!(b.properties, vec![4]);

    // an angular channel nobody requested is padded with an empty block:
    // no properties and no samples, it only makes the key set dense
    let empty = find_spx(&selected, 6, 1, 1);
    assert_eq!(empty.properties, Vec::<i32>::new());
    assert_eq!(empty.samples, Vec::<Sample>::new());

    // accumulated radial indexes for channel 0 of the (1, 1) pair
    let b011 = find_spx(&selected, 0, 1, 1);
    assert_eq!(b011.properties, vec![0, 1]);

    // no gradient rows belong to a selection
    assert!(selected.iter().all(|b| b.positions_gradient_samples.is_none()));
}

#[test]
fn selected_spx_labels_rejects_negative_channel() {
    let calculator = SoapPowerSpectrum::new(parameters()).unwrap();
    let descriptor = vec![block(key(1, 1, 1), vec![sample(0, 0)], vec![prop(-1, 0, 0)])];
    let result = calculator.selected_spx_labels(&descriptor);
    assert!(matches!(result, Err(Error::InvalidParameter(_))));
}

#[test]
fn samples_mapping_rows() {
    let calculator = SoapPowerSpectrum::new(parameters()).unwrap();
    let descriptor = partial_descriptor();
    let selected = calculator.selected_spx_labels(&descriptor).unwrap();
    let mapping = samples_mapping(&descriptor, &selected).unwrap();

    assert_eq!(mapping.len(), descriptor.len());
    for (d, m) in descriptor.iter().zip(&mapping) {
        assert_eq!(m.values.len(), d.samples.len());
        assert!(m.gradients.is_empty());
    }
    // the selected sample axes are sorted, so the requested rows resolve
    // to their sorted positions
    assert_eq!(mapping[2].values, vec![(1, 1), (0, 0)]);
}

#[test]
fn samples_mapping_zero_property_identity() {
    let descriptor = vec![block(
        key(6, 6, 6),
        vec![sample(0, 0), sample(0, 3)],
        Vec::new(),
    )];
    // no spherical expansion data at all: the placeholder mapping must
    // still be produced, it is never consulted
    let mapping = samples_mapping(&descriptor, &Vec::new()).unwrap();
    assert_eq!(mapping.len(), 1);
    assert_eq!(mapping[0].values, vec![(0, 0), (1, 1)]);
    assert!(mapping[0].gradients.is_empty());
}

#[test]
fn samples_mapping_missing_block_is_internal() {
    let descriptor = vec![block(key(1, 1, 1), vec![sample(0, 0)], vec![prop(0, 0, 0)])];
    let result = samples_mapping(&descriptor, &Vec::new());
    match result {
        Err(e) => assert!(e.is_internal()),
        Ok(_) => panic!("mapping must fail without spherical expansion blocks"),
    }
}

#[test]
fn properties_to_combine_resolution() {
    let calculator = SoapPowerSpectrum::new(parameters()).unwrap();
    let descriptor = partial_descriptor();
    let selected = calculator.selected_spx_labels(&descriptor).unwrap();

    for d in &descriptor {
        let combine = spx_properties_to_combine(&d.key, &d.properties, &selected).unwrap();
        assert_eq!(combine.len(), d.properties.len());
        for (p, e) in d.properties.iter().zip(&combine) {
            assert_eq!(e.spherical_harmonics_l, p.l as usize);
            // the resolved blocks carry the right keys
            assert_eq!(selected[e.block_1].key.spherical_harmonics_l, p.l);
            assert_eq!(selected[e.block_1].key.species_center, d.key.species_center);
            assert_eq!(selected[e.block_1].key.species_neighbor, d.key.species_neighbor_1);
            assert_eq!(selected[e.block_2].key.species_neighbor, d.key.species_neighbor_2);
            // the resolved positions hold the requested radial indexes
            assert_eq!(selected[e.block_1].properties[e.property_1], p.n1);
            assert_eq!(selected[e.block_2].properties[e.property_2], p.n2);
        }
    }
}

#[test]
fn properties_to_combine_missing_radial_is_internal() {
    let spx = vec![SphericalExpansionBlock {
        key: SphericalExpansionKey {
            spherical_harmonics_l: 0,
            species_center: 1,
            species_neighbor: 1,
        },
        samples: vec![sample(0, 0)],
        properties: vec![0],
        positions_gradient_samples: None,
    }];
    let k = key(1, 1, 1);
    let result = spx_properties_to_combine(&k, &vec![prop(0, 0, 5)], &spx);
    match result {
        Err(e) => assert!(e.is_internal()),
        Ok(_) => panic!("resolution must fail when a radial index is missing"),
    }
}

#[test]
fn ordering_symmetry_swaps_sides() {
    let calculator = SoapPowerSpectrum::new(parameters()).unwrap();
    let samples = vec![sample(0, 2), sample(0, 1)];
    let stored = block(key(1, 6, 8), samples.clone(), vec![prop(2, 3, 4)]);
    let mirrored = block(key(1, 8, 6), samples.clone(), vec![prop(2, 4, 3)]);
    let descriptor = vec![stored, mirrored];
    let selected = calculator.selected_spx_labels(&descriptor).unwrap();
    let mapping = samples_mapping(&descriptor, &selected).unwrap();

    let e = spx_properties_to_combine(
        &descriptor[0].key,
        &descriptor[0].properties,
        &selected,
    )
    .unwrap()[0];
    let em = spx_properties_to_combine(
        &descriptor[1].key,
        &descriptor[1].properties,
        &selected,
    )
    .unwrap()[0];

    // relabeling the stored neighbor pair swaps the two sides of the
    // combination and nothing else, so the accumulated value is unchanged
    assert_eq!(em.block_1, e.block_2);
    assert_eq!(em.block_2, e.block_1);
    assert_eq!(em.property_1, e.property_2);
    assert_eq!(em.property_2, e.property_1);
    assert_eq!(em.spherical_harmonics_l, e.spherical_harmonics_l);
    for (v, vm) in mapping[0].values.iter().zip(&mapping[1].values) {
        assert_eq!(vm.0, v.1);
        assert_eq!(vm.1, v.0);
    }
}

#[test]
fn selection_invariance_of_coordinates() {
    let calculator = SoapPowerSpectrum::new(parameters()).unwrap();
    let full = partial_descriptor();
    // a sub-request keeping one key, one sample and two properties
    let subset = vec![block(
        key(1, 8, 6),
        vec![sample(0, 1)],
        vec![prop(2, 4, 3), prop(5, 1, 0)],
    )];

    let selected = calculator.selected_spx_labels(&full).unwrap();
    let mapping_full = samples_mapping(&full, &selected).unwrap();
    let mapping_sub = samples_mapping(&subset, &selected).unwrap();

    let combine_full =
        spx_properties_to_combine(&full[2].key, &full[2].properties, &selected).unwrap();
    let combine_sub =
        spx_properties_to_combine(&subset[0].key, &subset[0].properties, &selected).unwrap();

    // shared elements resolve to identical spherical-expansion coordinates
    assert_eq!(combine_sub[0], combine_full[2]);
    assert_eq!(combine_sub[1], combine_full[4]);
    assert_eq!(mapping_sub[0].values[0], mapping_full[2].values[1]);
}

#[test]
fn keys_for_three_atom_system() {
    // three atoms, two species, everything within the cutoff: every center
    // sees both species, giving exactly 6 distinct keys
    let mut system = SimpleSystem::new(UnitCell::cubic(10.0f64.to_bits()));
    system.add_atom(8, Vector3D::new(0, 0, 0));
    system.add_atom(1, Vector3D::new(0, 0, 0));
    system.add_atom(1, Vector3D::new(0, 0, 0));

    let zero = 0.0f64.to_bits();
    let mk = |first: usize, second: usize| Pair {
        first,
        second,
        distance: 1.0f64.to_bits(),
        vector: Vector3D::new(zero, zero, zero),
    };
    let p01 = mk(0, 1);
    let p02 = mk(0, 2);
    let p12 = mk(1, 2);
    system.set_neighbors(NeighborsList {
        cutoff: 3.5f64.to_bits(),
        pairs: vec![p01, p02, p12],
        pairs_by_center: vec![vec![p01, p02], vec![p01, p12], vec![p02, p12]],
    });

    let calculator = SoapPowerSpectrum::new(parameters()).unwrap();
    let systems = vec![system];
    let keys = calculator.keys(&systems).unwrap();

    assert_eq!(keys.len(), 6);
    for k in [
        key(8, 1, 1),
        key(8, 1, 8),
        key(8, 8, 8),
        key(1, 1, 1),
        key(1, 1, 8),
        key(1, 8, 8),
    ] {
        assert!(keys.contains(&k), "missing key {:?}", k);
    }

    // samples: every center whose environment holds both neighbor species
    let samples = calculator.samples(&keys, &systems).unwrap();
    assert_eq!(samples.len(), keys.len());
    for (k, rows) in keys.iter().zip(&samples) {
        let expected_centers: Vec<i32> = if k.species_center == 8 { vec![0] } else { vec![1, 2] };
        let got: Vec<i32> = rows.iter().map(|r| r.center).collect();
        assert_eq!(got, expected_centers, "samples for key {:?}", k);
        assert!(rows.iter().all(|r| r.structure == 0));
    }
}

fn grad(sample: i32, structure: i32, atom: i32) -> GradientSample {
    GradientSample { sample, structure, atom }
}

#[test]
fn gradient_samples_per_moved_atom() {
    // same three-atom system as the key enumeration test
    let mut system = SimpleSystem::new(UnitCell::cubic(10.0f64.to_bits()));
    system.add_atom(8, Vector3D::new(0, 0, 0));
    system.add_atom(1, Vector3D::new(0, 0, 0));
    system.add_atom(1, Vector3D::new(0, 0, 0));
    let zero = 0.0f64.to_bits();
    let mk = |first: usize, second: usize| Pair {
        first,
        second,
        distance: 1.0f64.to_bits(),
        vector: Vector3D::new(zero, zero, zero),
    };
    let (p01, p02, p12) = (mk(0, 1), mk(0, 2), mk(1, 2));
    system.set_neighbors(NeighborsList {
        cutoff: 3.5f64.to_bits(),
        pairs: vec![p01, p02, p12],
        pairs_by_center: vec![vec![p01, p02], vec![p01, p12], vec![p02, p12]],
    });
    let systems = vec![system];

    let calculator = SoapPowerSpectrum::new(parameters()).unwrap();
    let keys = vec![key(8, 1, 8), key(1, 8, 8)];
    let samples = calculator.samples(&keys, &systems).unwrap();
    assert_eq!(samples[0], vec![sample(0, 0)]);
    assert_eq!(samples[1], vec![sample(0, 1), sample(0, 2)]);

    let gradients = calculator.positions_gradient_samples(&keys, &samples, &systems).unwrap();

    // moving the center or either hydrogen changes the oxygen environment
    assert_eq!(gradients[0], vec![grad(0, 0, 0), grad(0, 0, 1), grad(0, 0, 2)]);
    // a hydrogen environment for neighbor species 8 moves with the center
    // itself and with the oxygen only
    assert_eq!(gradients[1], vec![grad(0, 0, 1), grad(0, 0, 0), grad(1, 0, 2), grad(1, 0, 0)]);
}

#[test]
fn gradient_mapping_sides_are_independent() {
    let descriptor = vec![PowerSpectrumBlock {
        key: key(1, 6, 8),
        samples: vec![sample(0, 0)],
        properties: vec![prop(0, 0, 0)],
        positions_gradient_samples: Some(vec![grad(0, 0, 1)]),
        cell_gradient_samples: None,
    }];
    let spx = vec![
        SphericalExpansionBlock {
            key: SphericalExpansionKey {
                spherical_harmonics_l: 0,
                species_center: 1,
                species_neighbor: 6,
            },
            samples: vec![sample(0, 0)],
            properties: vec![0],
            positions_gradient_samples: Some(vec![grad(0, 0, 1)]),
        },
        SphericalExpansionBlock {
            key: SphericalExpansionKey {
                spherical_harmonics_l: 0,
                species_center: 1,
                species_neighbor: 8,
            },
            samples: vec![sample(0, 0)],
            properties: vec![0],
            positions_gradient_samples: Some(vec![grad(0, 0, 2)]),
        },
    ];
    let mapping = samples_mapping(&descriptor, &spx).unwrap();
    assert_eq!(mapping[0].values, vec![(0, 0)]);
    // the gradient row exists only in the first neighbor species' block:
    // one side resolves, the other is absent, and that is not an error
    assert_eq!(mapping[0].gradients, vec![(Some(0), None)]);
}

#[test]
fn axis_names() {
    let calculator = SoapPowerSpectrum::new(parameters()).unwrap();
    assert_eq!(calculator.samples_names(), vec!["structure", "center"]);
    assert_eq!(calculator.properties_names(), vec!["l", "n1", "n2"]);
}
