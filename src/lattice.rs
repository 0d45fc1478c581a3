//! Sampling side of the tessellation: the sign of the field at each
//! lattice point, and the crossing vertex of each lattice edge.
//!
//! Every lattice corner owns seven outgoing edges: the three axis steps, the
//! three face diagonals and the body diagonal, all towards higher
//! coordinates. An edge carries a crossing vertex exactly when the samples
//! at its two ends have opposite signs. Because each physical edge is owned
//! by its lower corner alone, neighbouring cells share crossing vertices.
use vstd::prelude::*;

use crate::MeshError;

verus! {

/// Sign of the field at one lattice sample.
#[derive(Clone, Copy, Debug, PartialEq, Eq, Structural)]
pub enum Sign {
    Negative,
    Zero,
    Positive,
}

/// Two samples whose product is negative.
pub open spec fn opposite(a: Sign, b: Sign) -> bool {
    (a == Sign::Negative && b == Sign::Positive) || (a == Sign::Positive && b == Sign::Negative)
}

/// Whether two samples have strictly opposite signs.
pub fn signs_opposite(a: Sign, b: Sign) -> (r: bool)
    ensures
        r == opposite(a, b),
{
    match (a, b) {
        (Sign::Negative, Sign::Positive) => true,
        (Sign::Positive, Sign::Negative) => true,
        _ => false,
    }
}

/// Number of outgoing edge directions owned by each lattice corner.
pub const DIRECTIONS: usize = 7;

/// Lattice step of each direction: X, Y, Z, XY, YZ, XZ, XYZ.
pub open spec fn dir_step(d: int) -> (usize, usize, usize) {
    if d == 0 {
        (1, 0, 0)
    } else if d == 1 {
        (0, 1, 0)
    } else if d == 2 {
        (0, 0, 1)
    } else if d == 3 {
        (1, 1, 0)
    } else if d == 4 {
        (0, 1, 1)
    } else if d == 5 {
        (1, 0, 1)
    } else {
        (1, 1, 1)
    }
}

/// The lattice step of direction `d`.
pub fn direction_step(d: usize) -> (r: (usize, usize, usize))
    requires
        d < DIRECTIONS,
    ensures
        r == dir_step(d as int),
{
    match d {
        0 => (1, 0, 0),
        1 => (0, 1, 0),
        2 => (0, 0, 1),
        3 => (1, 1, 0),
        4 => (0, 1, 1),
        5 => (1, 0, 1),
        _ => (1, 1, 1),
    }
}

/// One lattice edge: a corner and one of its seven outgoing directions.
#[derive(Clone, Copy, Debug, PartialEq, Eq, Structural)]
pub struct EdgeSlot {
    pub x: usize,
    pub y: usize,
    pub z: usize,
    pub dir: usize,
}

/// The edge of corner `(x, y, z)` in direction `d`.
pub open spec fn slot(x: int, y: int, z: int, d: int) -> EdgeSlot {
    EdgeSlot { x: x as usize, y: y as usize, z: z as usize, dir: d as usize }
}

impl EdgeSlot {
    /// The edge starts at a corner of a lattice of `split` cells per axis.
    pub open spec fn in_lattice(self, split: int) -> bool {
        self.x <= split && self.y <= split && self.z <= split && self.dir < DIRECTIONS
    }

    /// Lexicographic order on `(x, y, z, dir)`: the order of vertex creation.
    pub open spec fn precedes(self, o: EdgeSlot) -> bool {
        ||| self.x < o.x
        ||| (self.x == o.x && self.y < o.y)
        ||| (self.x == o.x && self.y == o.y && self.z < o.z)
        ||| (self.x == o.x && self.y == o.y && self.z == o.z && self.dir < o.dir)
    }
}

/// Signs of the field sampled on a cube lattice with `split` cells per axis.
///
/// Samples are indexed `signs[x][y][z]`, with `split + 2` samples per axis:
/// the outgoing edges of the last lattice corners reach one step further.
#[derive(Debug)]
pub struct SampleGrid {
    pub split: usize,
    pub signs: Vec<Vec<Vec<Sign>>>,
}

impl SampleGrid {
    /// Every axis holds `split + 2` samples.
    pub open spec fn shaped(&self) -> bool {
        &&& self.signs@.len() == self.split + 2
        &&& forall|x: int|
            0 <= x < self.split + 2 ==> (#[trigger] self.signs@[x])@.len() == self.split + 2
        &&& forall|x: int, y: int|
            0 <= x < self.split + 2 && 0 <= y < self.split + 2 ==> (#[trigger] self.signs@[x]@[y])@.len()
                == self.split + 2
    }

    pub open spec fn sign_at(&self, x: int, y: int, z: int) -> Sign {
        self.signs@[x]@[y]@[z]
    }

    /// The samples at the two ends of edge `s` have opposite signs.
    pub open spec fn crosses(&self, s: EdgeSlot) -> bool {
        let step = dir_step(s.dir as int);
        opposite(
            self.sign_at(s.x as int, s.y as int, s.z as int),
            self.sign_at(s.x + step.0, s.y + step.1, s.z + step.2),
        )
    }

    /// Whether every axis holds `split + 2` samples.
    pub fn is_shaped(&self) -> (r: bool)
        ensures
            r == self.shaped(),
    {
        let outer = self.signs.len();
        if self.split > usize::MAX - 2 || outer != self.split + 2 {
            return false;
        }
        let side = self.split + 2;
        for x in 0..side
            invariant
                side == self.split + 2,
                self.signs@.len() == side,
                forall|i: int| 0 <= i < x ==> (#[trigger] self.signs@[i])@.len() == side,
                forall|i: int, j: int|
                    0 <= i < x && 0 <= j < side ==> (#[trigger] self.signs@[i]@[j])@.len() == side,
        {
            if self.signs[x].len() != side {
                return false;
            }
            for y in 0..side
                invariant
                    side == self.split + 2,
                    self.signs@.len() == side,
                    x < side,
                    self.signs@[x as int]@.len() == side,
                    forall|j: int| 0 <= j < y ==> (#[trigger] self.signs@[x as int]@[j])@.len() == side,
            {
                if self.signs[x][y].len() != side {
                    return false;
                }
            }
        }
        true
    }
}

/// What the table entry `v` of edge `s` must be, given the created vertices.
pub open spec fn entry_ok(grid: &SampleGrid, s: EdgeSlot, v: Option<usize>, origins: Seq<EdgeSlot>) -> bool {
    match v {
        Some(i) => grid.crosses(s) && i < origins.len() && origins[i as int] == s,
        None => !grid.crosses(s),
    }
}

/// Created vertices sit on crossing lattice edges, in creation order.
pub open spec fn origins_ok(grid: &SampleGrid, origins: Seq<EdgeSlot>) -> bool {
    &&& forall|i: int|
        0 <= i < origins.len() ==> (#[trigger] origins[i]).in_lattice(grid.split as int) && grid.crosses(
            origins[i],
        )
    &&& forall|i: int, j: int|
        0 <= i < j < origins.len() ==> (#[trigger] origins[i]).precedes(#[trigger] origins[j])
}

/// `longer` keeps every element of `shorter` in place.
pub open spec fn extends(longer: Seq<EdgeSlot>, shorter: Seq<EdgeSlot>) -> bool {
    shorter.len() <= longer.len() && forall|i: int|
        0 <= i < shorter.len() ==> #[trigger] longer[i] == shorter[i]
}

/// Crossing vertices of every lattice edge.
///
/// `slots[x][y][z][d]` is the id of the vertex on edge `(x, y, z, d)`, if
/// that edge crosses the level set; `origins[i]` is the edge of vertex `i`.
/// Vertex ids are handed out in the lexicographic order of the edges.
#[derive(Debug)]
pub struct CrossingTable {
    pub split: usize,
    pub slots: Vec<Vec<Vec<Vec<Option<usize>>>>>,
    pub origins: Vec<EdgeSlot>,
}

impl CrossingTable {
    /// `split + 1` corners per axis, seven edges per corner.
    pub open spec fn shaped(&self) -> bool {
        &&& self.slots@.len() == self.split + 1
        &&& forall|x: int|
            0 <= x <= self.split ==> (#[trigger] self.slots@[x])@.len() == self.split + 1
        &&& forall|x: int, y: int|
            0 <= x <= self.split && 0 <= y <= self.split ==> (#[trigger] self.slots@[x]@[y])@.len()
                == self.split + 1
        &&& forall|x: int, y: int, z: int|
            0 <= x <= self.split && 0 <= y <= self.split && 0 <= z <= self.split
                ==> (#[trigger] self.slots@[x]@[y]@[z])@.len() == DIRECTIONS
    }

    /// The table entry of edge `s`.
    pub open spec fn id_at(&self, s: EdgeSlot) -> Option<usize> {
        self.slots@[s.x as int]@[s.y as int]@[s.z as int]@[s.dir as int]
    }

    /// Number of crossing vertices.
    pub open spec fn vertex_count(&self) -> nat {
        self.origins@.len()
    }

    /// Shape, and every entry names a vertex created on that very edge.
    pub open spec fn wf(&self) -> bool {
        &&& self.shaped()
        &&& forall|s: EdgeSlot|
            s.in_lattice(self.split as int) && (#[trigger] self.id_at(s)) is Some ==> {
                let i = self.id_at(s)->Some_0;
                i < self.origins@.len() && self.origins@[i as int] == s
            }
        &&& forall|i: int|
            0 <= i < self.origins@.len() ==> (#[trigger] self.origins@[i]).in_lattice(
                self.split as int,
            )
        &&& forall|i: int, j: int|
            0 <= i < j < self.origins@.len() ==> (#[trigger] self.origins@[i]).precedes(
                #[trigger] self.origins@[j],
            )
    }

    /// This is the crossing table of `grid`: an edge holds a vertex exactly
    /// when it crosses, and vertices are numbered in edge order.
    pub open spec fn samples(&self, grid: &SampleGrid) -> bool {
        &&& self.wf()
        &&& self.split == grid.split
        &&& forall|s: EdgeSlot|
            s.in_lattice(self.split as int) ==> ((#[trigger] self.id_at(s)) is Some
                <==> grid.crosses(s))
        &&& forall|i: int| 0 <= i < self.origins@.len() ==> grid.crosses(#[trigger] self.origins@[i])
    }
}

/// Crossing vertices of the seven edges of corner `(x, y, z)`.
fn sample_corner(grid: &SampleGrid, x: usize, y: usize, z: usize, origins: &mut Vec<EdgeSlot>) -> (r:
    Vec<Option<usize>>)
    requires
        grid.shaped(),
        x <= grid.split,
        y <= grid.split,
        z <= grid.split,
        origins_ok(grid, old(origins)@),
        forall|i: int|
            0 <= i < old(origins)@.len() ==> (#[trigger] old(origins)@[i]).precedes(slot(x as int, y as int, z as int, 0)),
    ensures
        origins_ok(grid, final(origins)@),
        extends(final(origins)@, old(origins)@),
        forall|i: int|
            0 <= i < final(origins)@.len() ==> (#[trigger] final(origins)@[i]).precedes(slot(x as int, y as int, z as int, 7)),
        r@.len() == DIRECTIONS,
        forall|d: int|
            0 <= d < DIRECTIONS ==> entry_ok(grid, slot(x as int, y as int, z as int, d), #[trigger] r@[d], final(origins)@),
{
    let mut r: Vec<Option<usize>> = Vec::new();
    let side = grid.signs.len();
    let p0 = grid.signs[x][y][z];
    for d in 0..DIRECTIONS
        invariant
            grid.shaped(),
            x <= grid.split,
            y <= grid.split,
            z <= grid.split,
            p0 == grid.sign_at(x as int, y as int, z as int),
            side == grid.split + 2,
            r@.len() == d,
            origins_ok(grid, origins@),
            extends(origins@, old(origins)@),
            forall|i: int|
                0 <= i < origins@.len() ==> (#[trigger] origins@[i]).precedes(slot(x as int, y as int, z as int, d as int)),
            forall|e: int|
                0 <= e < d ==> entry_ok(grid, slot(x as int, y as int, z as int, e), #[trigger] r@[e], origins@),
    {
        let step = direction_step(d);
        let p1 = grid.signs[x + step.0][y + step.1][z + step.2];
        if signs_opposite(p0, p1) {
            r.push(Some(origins.len()));
            origins.push(EdgeSlot { x, y, z, dir: d });
        } else {
            r.push(None);
        }
    }
    r
}

/// An entry that is right for some vertices stays right once more are created.
proof fn lemma_entry_ok_extends(
    grid: &SampleGrid,
    s: EdgeSlot,
    v: Option<usize>,
    shorter: Seq<EdgeSlot>,
    longer: Seq<EdgeSlot>,
)
    requires
        extends(longer, shorter),
        entry_ok(grid, s, v, shorter),
    ensures
        entry_ok(grid, s, v, longer),
{
    if let Some(i) = v {
        assert(longer[i as int] == shorter[i as int]);
    }
}

/// Crossing vertices of the corners `(x, y, 0..=split)`.
fn sample_row(grid: &SampleGrid, x: usize, y: usize, origins: &mut Vec<EdgeSlot>) -> (r: Vec<
    Vec<Option<usize>>,
>)
    requires
        grid.shaped(),
        x <= grid.split,
        y <= grid.split,
        origins_ok(grid, old(origins)@),
        forall|i: int|
            0 <= i < old(origins)@.len() ==> (#[trigger] old(origins)@[i]).precedes(
                slot(x as int, y as int, 0, 0),
            ),
    ensures
        origins_ok(grid, final(origins)@),
        extends(final(origins)@, old(origins)@),
        forall|i: int|
            0 <= i < final(origins)@.len() ==> (#[trigger] final(origins)@[i]).precedes(
                slot(x as int, y as int, grid.split as int, 7),
            ),
        r@.len() == grid.split + 1,
        forall|z: int| 0 <= z <= grid.split ==> (#[trigger] r@[z])@.len() == DIRECTIONS,
        forall|z: int, d: int|
            0 <= z <= grid.split && 0 <= d < DIRECTIONS ==> entry_ok(
                grid,
                slot(x as int, y as int, z, d),
                #[trigger] r@[z]@[d],
                final(origins)@,
            ),
{
    let mut r: Vec<Vec<Option<usize>>> = Vec::new();
    let side = grid.signs.len();
    let corners = grid.split + 1;
    for z in 0..corners
        invariant
            grid.shaped(),
            side == grid.split + 2,
            corners == grid.split + 1,
            x <= grid.split,
            y <= grid.split,
            r@.len() == z,
            origins_ok(grid, origins@),
            extends(origins@, old(origins)@),
            forall|i: int|
                0 <= i < origins@.len() ==> (#[trigger] origins@[i]).precedes(
                    slot(x as int, y as int, z as int, 0),
                ),
            forall|w: int| 0 <= w < z ==> (#[trigger] r@[w])@.len() == DIRECTIONS,
            forall|w: int, d: int|
                0 <= w < z && 0 <= d < DIRECTIONS ==> entry_ok(
                    grid,
                    slot(x as int, y as int, w, d),
                    #[trigger] r@[w]@[d],
                    origins@,
                ),
    {
        let ghost before = origins@;
        let corner = sample_corner(grid, x, y, z, origins);
        proof {
            assert forall|w: int, d: int|
                0 <= w < z && 0 <= d < DIRECTIONS implies entry_ok(
                grid,
                slot(x as int, y as int, w, d),
                #[trigger] r@[w]@[d],
                origins@,
            ) by {
                lemma_entry_ok_extends(grid, slot(x as int, y as int, w, d), r@[w]@[d], before, origins@);
            }
        }
        r.push(corner);
        proof {
            assert forall|w: int, d: int|
                0 <= w <= z && 0 <= d < DIRECTIONS implies entry_ok(
                grid,
                slot(x as int, y as int, w, d),
                #[trigger] r@[w]@[d],
                origins@,
            ) by {
                if w == z {
                    assert(r@[w] == corner);
                }
            }
        }
    }
    r
}

/// Crossing vertices of the corners `(x, 0..=split, 0..=split)`.
fn sample_plane(grid: &SampleGrid, x: usize, origins: &mut Vec<EdgeSlot>) -> (r: Vec<
    Vec<Vec<Option<usize>>>,
>)
    requires
        grid.shaped(),
        x <= grid.split,
        origins_ok(grid, old(origins)@),
        forall|i: int|
            0 <= i < old(origins)@.len() ==> (#[trigger] old(origins)@[i]).precedes(
                slot(x as int, 0, 0, 0),
            ),
    ensures
        origins_ok(grid, final(origins)@),
        extends(final(origins)@, old(origins)@),
        forall|i: int|
            0 <= i < final(origins)@.len() ==> (#[trigger] final(origins)@[i]).precedes(
                slot(x as int, grid.split as int, grid.split as int, 7),
            ),
        r@.len() == grid.split + 1,
        forall|y: int| 0 <= y <= grid.split ==> (#[trigger] r@[y])@.len() == grid.split + 1,
        forall|y: int, z: int|
            0 <= y <= grid.split && 0 <= z <= grid.split ==> (#[trigger] r@[y]@[z])@.len()
                == DIRECTIONS,
        forall|y: int, z: int, d: int|
            0 <= y <= grid.split && 0 <= z <= grid.split && 0 <= d < DIRECTIONS ==> entry_ok(
                grid,
                slot(x as int, y, z, d),
                #[trigger] r@[y]@[z]@[d],
                final(origins)@,
            ),
{
    let mut r: Vec<Vec<Vec<Option<usize>>>> = Vec::new();
    let side = grid.signs.len();
    let corners = grid.split + 1;
    for y in 0..corners
        invariant
            grid.shaped(),
            side == grid.split + 2,
            corners == grid.split + 1,
            x <= grid.split,
            r@.len() == y,
            origins_ok(grid, origins@),
            extends(origins@, old(origins)@),
            forall|i: int|
                0 <= i < origins@.len() ==> (#[trigger] origins@[i]).precedes(
                    slot(x as int, y as int, 0, 0),
                ),
            forall|v: int| 0 <= v < y ==> (#[trigger] r@[v])@.len() == grid.split + 1,
            forall|v: int, z: int|
                0 <= v < y && 0 <= z <= grid.split ==> (#[trigger] r@[v]@[z])@.len() == DIRECTIONS,
            forall|v: int, z: int, d: int|
                0 <= v < y && 0 <= z <= grid.split && 0 <= d < DIRECTIONS ==> entry_ok(
                    grid,
                    slot(x as int, v, z, d),
                    #[trigger] r@[v]@[z]@[d],
                    origins@,
                ),
    {
        let ghost before = origins@;
        let row = sample_row(grid, x, y, origins);
        proof {
            assert forall|v: int, z: int, d: int|
                0 <= v < y && 0 <= z <= grid.split && 0 <= d < DIRECTIONS implies entry_ok(
                grid,
                slot(x as int, v, z, d),
                #[trigger] r@[v]@[z]@[d],
                origins@,
            ) by {
                lemma_entry_ok_extends(grid, slot(x as int, v, z, d), r@[v]@[z]@[d], before, origins@);
            }
        }
        r.push(row);
        proof {
            assert forall|v: int, z: int, d: int|
                0 <= v <= y && 0 <= z <= grid.split && 0 <= d < DIRECTIONS implies entry_ok(
                grid,
                slot(x as int, v, z, d),
                #[trigger] r@[v]@[z]@[d],
                origins@,
            ) by {
                if v == y {
                    assert(r@[v] == row);
                }
            }
        }
    }
    r
}

/// Records a crossing vertex on every lattice edge whose two samples have
/// opposite signs, numbering the vertices in the lexicographic order of
/// their edges.
///
/// Fails with `InvalidSplit` when `split` is zero, and with `SampleShape`
/// when the grid does not hold `split + 2` samples per axis.
pub fn sample_crossings(grid: &SampleGrid) -> (r: Result<CrossingTable, MeshError>)
    ensures
        grid.split == 0 ==> r == Err::<CrossingTable, MeshError>(MeshError::InvalidSplit),
        grid.split > 0 && !grid.shaped() ==> r == Err::<CrossingTable, MeshError>(
            MeshError::SampleShape,
        ),
        grid.split > 0 && grid.shaped() ==> r is Ok && r->Ok_0.samples(grid),
{
    if grid.split == 0 {
        return Err(MeshError::InvalidSplit);
    }
    if !grid.is_shaped() {
        return Err(MeshError::SampleShape);
    }
    let side = grid.signs.len();
    let corners = grid.split + 1;
    let mut slots: Vec<Vec<Vec<Vec<Option<usize>>>>> = Vec::new();
    let mut origins: Vec<EdgeSlot> = Vec::new();
    for x in 0..corners
        invariant
            grid.shaped(),
            side == grid.split + 2,
            corners == grid.split + 1,
            slots@.len() == x,
            origins_ok(grid, origins@),
            forall|i: int|
                0 <= i < origins@.len() ==> (#[trigger] origins@[i]).precedes(slot(x as int, 0, 0, 0)),
            forall|u: int| 0 <= u < x ==> (#[trigger] slots@[u])@.len() == grid.split + 1,
            forall|u: int, y: int|
                0 <= u < x && 0 <= y <= grid.split ==> (#[trigger] slots@[u]@[y])@.len() == grid.split
                    + 1,
            forall|u: int, y: int, z: int|
                0 <= u < x && 0 <= y <= grid.split && 0 <= z <= grid.split
                    ==> (#[trigger] slots@[u]@[y]@[z])@.len() == DIRECTIONS,
            forall|u: int, y: int, z: int, d: int|
                0 <= u < x && 0 <= y <= grid.split && 0 <= z <= grid.split && 0 <= d < DIRECTIONS
                    ==> entry_ok(grid, slot(u, y, z, d), #[trigger] slots@[u]@[y]@[z]@[d], origins@),
    {
        let ghost before = origins@;
        let plane = sample_plane(grid, x, &mut origins);
        proof {
            assert forall|u: int, y: int, z: int, d: int|
                0 <= u < x && 0 <= y <= grid.split && 0 <= z <= grid.split && 0 <= d
                    < DIRECTIONS implies entry_ok(
                grid,
                slot(u, y, z, d),
                #[trigger] slots@[u]@[y]@[z]@[d],
                origins@,
            ) by {
                lemma_entry_ok_extends(grid, slot(u, y, z, d), slots@[u]@[y]@[z]@[d], before, origins@);
            }
        }
        slots.push(plane);
        proof {
            assert forall|u: int, y: int, z: int, d: int|
                0 <= u <= x && 0 <= y <= grid.split && 0 <= z <= grid.split && 0 <= d
                    < DIRECTIONS implies entry_ok(
                grid,
                slot(u, y, z, d),
                #[trigger] slots@[u]@[y]@[z]@[d],
                origins@,
            ) by {
                if u == x {
                    assert(slots@[u] == plane);
                }
            }
        }
    }
    let table = CrossingTable { split: grid.split, slots, origins };
    proof {
        assert forall|s: EdgeSlot| s.in_lattice(table.split as int) implies entry_ok(
            grid,
            s,
            #[trigger] table.id_at(s),
            table.origins@,
        ) by {
            assert(slot(s.x as int, s.y as int, s.z as int, s.dir as int) == s);
        }
    }
    Ok(table)
}

} // verus!
