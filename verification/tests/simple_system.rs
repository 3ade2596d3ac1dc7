use rascaline::system::{NeighborsList, Pair, SimpleSystem, UnitCell, Vector3D};

fn vec3(x: f64, y: f64, z: f64) -> Vector3D {
    Vector3D::new(x.to_bits(), y.to_bits(), z.to_bits())
}

#[test]
fn add_atoms() {
    let mut system = SimpleSystem::new(UnitCell::cubic(10.0f64.to_bits()));
    system.add_atom(3, vec3(2.0, 3.0, 4.0));
    system.add_atom(1, vec3(1.0, 3.0, 4.0));
    system.add_atom(3, vec3(5.0, 3.0, 4.0));

    assert_eq!(system.size(), 3);
    assert_eq!(system.species.len(), 3);
    assert_eq!(system.positions.len(), 3);

    assert_eq!(system.species(), &vec![3, 1, 3]);
    assert_eq!(
        system.positions(),
        &vec![vec3(2.0, 3.0, 4.0), vec3(1.0, 3.0, 4.0), vec3(5.0, 3.0, 4.0)]
    );
}

#[test]
fn neighbor_list_caching() {
    let mut system = SimpleSystem::new(UnitCell::cubic(10.0f64.to_bits()));
    system.add_atom(1, vec3(0.0, 0.0, 0.0));
    system.add_atom(1, vec3(1.0, 0.0, 0.0));

    let cutoff = 3.5f64.to_bits();
    assert!(!system.neighbors_computed_for(cutoff));

    let pair = Pair { first: 0, second: 1, distance: 1.0f64.to_bits(), vector: vec3(1.0, 0.0, 0.0) };
    system.set_neighbors(NeighborsList {
        cutoff,
        pairs: vec![pair],
        pairs_by_center: vec![vec![pair], vec![pair]],
    });

    assert!(system.neighbors_computed_for(cutoff));
    assert!(!system.neighbors_computed_for(0.5f64.to_bits()));
    assert_eq!(system.pairs().len(), 1);
    assert_eq!(system.pairs_containing(1).len(), 1);

    // any mutable position access invalidates the cached list
    let positions = system.positions_mut();
    positions[0] = vec3(0.5, 0.0, 0.0);
    assert!(!system.neighbors_computed_for(cutoff));
}
