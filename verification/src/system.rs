//! A simple owned atomistic system and its neighbor-list bookkeeping.
//! Real-valued data is carried as IEEE-754 bit patterns: the verified core
//! stores and moves it, and the unverified shell does the geometry.
use vstd::prelude::*;

verus! {

/// A 3-vector of real components stored as IEEE-754 bit patterns. The
/// verified core only stores and moves positions; the floating-point
/// geometry on them runs in the unverified shell, which converts at the
/// boundary.
#[derive(Debug, Clone, Copy, PartialEq, Eq, Structural, Hash)]
pub struct Vector3D {
    pub x: u64,
    pub y: u64,
    pub z: u64,
}

impl Vector3D {
    /// Build a vector from its three component bit patterns.
    pub fn new(x: u64, y: u64, z: u64) -> (r: Vector3D)
        ensures
            r == (Vector3D { x, y, z }),
    {
        Vector3D { x, y, z }
    }
}

/// Unit cell of a periodic system: three row vectors whose components are
/// IEEE-754 bit patterns. An all-zero cell stands for a non-periodic
/// system.
#[derive(Debug, Clone, Copy, PartialEq, Eq, Structural, Hash)]
pub struct UnitCell {
    pub row_a: Vector3D,
    pub row_b: Vector3D,
    pub row_c: Vector3D,
}

impl UnitCell {
    /// A cubic cell with the given edge length (bit pattern) on the
    /// diagonal. The zero bit pattern is the number zero.
    pub fn cubic(length: u64) -> (r: UnitCell)
        ensures
            r.row_a == (Vector3D { x: length, y: 0u64, z: 0u64 }),
            r.row_b == (Vector3D { x: 0u64, y: length, z: 0u64 }),
            r.row_c == (Vector3D { x: 0u64, y: 0u64, z: length }),
    {
        UnitCell {
            row_a: Vector3D { x: length, y: 0, z: 0 },
            row_b: Vector3D { x: 0, y: length, z: 0 },
            row_c: Vector3D { x: 0, y: 0, z: length },
        }
    }
}

/// One entry of a neighbor list: the two atom indexes, their distance and
/// the connecting vector (bit patterns).
#[derive(Debug, Clone, Copy, PartialEq, Eq, Structural, Hash)]
pub struct Pair {
    pub first: usize,
    pub second: usize,
    pub distance: u64,
    pub vector: Vector3D,
}

/// A computed neighbor list: the cutoff it was built for (bit pattern),
/// all pairs within that cutoff, and per-center views of the same pairs.
/// Building the list is floating-point geometry and happens in the
/// unverified shell; the verified core stores it, reuses it while the
/// cutoff is unchanged, and drops it when positions change.
#[derive(Debug)]
pub struct NeighborsList {
    pub cutoff: u64,
    pub pairs: Vec<Pair>,
    pub pairs_by_center: Vec<Vec<Pair>>,
}

/// The atom at the far end of entry `k` of center `i`'s pair list.
pub open spec fn other_end(sys: SimpleSystem, i: int, k: int) -> int {
    let p = sys.neighbors->Some_0.pairs_by_center@[i]@[k];
    if p.first as int == i {
        p.second as int
    } else {
        p.first as int
    }
}

/// A usable installed neighbor list: every pair links two atoms of the
/// system; the per-center lists cover it exactly — one list per atom,
/// every entry of center `i`'s list is a pair of the list containing `i`,
/// each pair containing `i` appears in `i`'s list, and no entry repeats.
pub open spec fn neighbors_well_formed(sys: SimpleSystem) -> bool {
    &&& sys.neighbors is Some
    &&& sys.neighbors->Some_0.pairs_by_center@.len() == sys.species@.len()
    &&& forall|q: int|
        0 <= q < sys.neighbors->Some_0.pairs@.len() ==> ((
        #[trigger] sys.neighbors->Some_0.pairs@[q]).first as int) < sys.species@.len() && (
        sys.neighbors->Some_0.pairs@[q].second as int) < sys.species@.len()
    &&& forall|i: int, k: int|
        0 <= i < sys.species@.len() && 0 <= k
            < sys.neighbors->Some_0.pairs_by_center@[i]@.len() ==> {
            let p = #[trigger] sys.neighbors->Some_0.pairs_by_center@[i]@[k];
            &&& (p.first as int == i || p.second as int == i)
            &&& (p.first as int) < sys.species@.len()
            &&& (p.second as int) < sys.species@.len()
            &&& sys.neighbors->Some_0.pairs@.contains(p)
        }
    &&& forall|i: int|
        0 <= i < sys.species@.len() ==> crate::labels::distinct(
            (#[trigger] sys.neighbors->Some_0.pairs_by_center@[i])@,
        )
    &&& forall|i: int, q: int|
        0 <= i < sys.species@.len() && 0 <= q < sys.neighbors->Some_0.pairs@.len() && (
        sys.neighbors->Some_0.pairs@[q].first as int == i || sys.neighbors->Some_0.pairs@[q].second
            as int == i) ==> #[trigger] sys.neighbors->Some_0.pairs_by_center@[i]@.contains(
            sys.neighbors->Some_0.pairs@[q],
        )
}

/// A simple owned implementation of an atomistic system to use when no
/// other is available.
#[derive(Debug)]
pub struct SimpleSystem {
    pub cell: UnitCell,
    pub species: Vec<usize>,
    pub positions: Vec<Vector3D>,
    pub neighbors: Option<NeighborsList>,
}

impl SimpleSystem {
    /// Create a new empty system with the given unit cell.
    pub fn new(cell: UnitCell) -> (s: SimpleSystem)
        ensures
            s.cell == cell,
            s.species@.len() == 0,
            s.positions@.len() == 0,
            s.neighbors is None,
    {
        SimpleSystem { cell, species: Vec::new(), positions: Vec::new(), neighbors: None }
    }

    /// Add an atom with the given species and position to this system.
    pub fn add_atom(&mut self, species: usize, position: Vector3D)
        ensures
            final(self).species@ == old(self).species@.push(species),
            final(self).positions@ == old(self).positions@.push(position),
            final(self).cell == old(self).cell,
            final(self).neighbors == old(self).neighbors,
    {
        self.species.push(species);
        self.positions.push(position);
    }

    /// Mutable access to the positions. Any position access invalidates the
    /// neighbor list.
    pub fn positions_mut(&mut self) -> (r: &mut Vec<Vector3D>)
        ensures
            *r == old(self).positions,
            final(self).positions == *final(r),
            final(self).neighbors is None,
            final(self).cell == old(self).cell,
            final(self).species == old(self).species,
    {
        self.neighbors = None;
        &mut self.positions
    }

    /// Number of atoms in the system.
    pub fn size(&self) -> (r: usize)
        ensures
            r == self.species@.len(),
    {
        self.species.len()
    }

    /// The atomic positions.
    pub fn positions(&self) -> (r: &Vec<Vector3D>)
        ensures
            r == &self.positions,
    {
        &self.positions
    }

    /// The atomic species codes.
    pub fn species(&self) -> (r: &Vec<usize>)
        ensures
            r == &self.species,
    {
        &self.species
    }

    /// The unit cell.
    pub fn cell(&self) -> (r: UnitCell)
        ensures
            r == self.cell,
    {
        self.cell
    }

    /// True when a neighbor list computed for exactly this cutoff (as a bit
    /// pattern) is already installed and can be reused. This is the caching
    /// decision of neighbor-list computation; the list itself is built by
    /// the unverified shell and installed with `set_neighbors`.
    pub fn neighbors_computed_for(&self, cutoff: u64) -> (r: bool)
        ensures
            r == (self.neighbors is Some && self.neighbors->Some_0.cutoff == cutoff),
    {
        match &self.neighbors {
            Some(nl) => nl.cutoff == cutoff,
            None => false,
        }
    }

    /// Install a neighbor list computed by the shell for this system.
    pub fn set_neighbors(&mut self, neighbors: NeighborsList)
        ensures
            final(self).neighbors == Some(neighbors),
            final(self).cell == old(self).cell,
            final(self).species == old(self).species,
            final(self).positions == old(self).positions,
    {
        self.neighbors = Some(neighbors);
    }

    /// All neighbor pairs. A neighbor list must have been installed.
    pub fn pairs(&self) -> (r: &Vec<Pair>)
        requires
            self.neighbors is Some,
        ensures
            r == &self.neighbors->Some_0.pairs,
    {
        match &self.neighbors {
            Some(nl) => &nl.pairs,
            None => vstd::pervasive::unreached(),
        }
    }

    /// All neighbor pairs containing the given center: exactly the pairs
    /// of the installed list that involve it, each once. A well-formed
    /// neighbor list must have been installed.
    pub fn pairs_containing(&self, center: usize) -> (r: &Vec<Pair>)
        requires
            neighbors_well_formed(*self),
            center < self.species@.len(),
        ensures
            r == &self.neighbors->Some_0.pairs_by_center@[center as int],
            crate::labels::distinct(r@),
            forall|k: int|
                0 <= k < r@.len() ==> ((#[trigger] r@[k]).first as int == center as int
                    || r@[k].second as int == center as int)
                    && self.neighbors->Some_0.pairs@.contains(r@[k]),
            forall|q: int|
                0 <= q < self.neighbors->Some_0.pairs@.len() && ((
                #[trigger] self.neighbors->Some_0.pairs@[q]).first as int == center as int
                    || self.neighbors->Some_0.pairs@[q].second as int == center as int)
                    ==> r@.contains(self.neighbors->Some_0.pairs@[q]),
    {
        match &self.neighbors {
            Some(nl) => &nl.pairs_by_center[center],
            None => vstd::pervasive::unreached(),
        }
    }
}

} // verus!
