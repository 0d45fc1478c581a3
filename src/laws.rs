//! Properties of the whole tessellation that relate several of its steps.
use vstd::prelude::*;

use crate::cell::{
    body_edges_of, body_faces, face_edge_of, face_slots, present, Triangle, CELL_BODIES, CELL_SLOTS,
};
use crate::half_edge::HalfEdgeMesh;
use crate::lattice::{slot, CrossingTable, EdgeSlot, SampleGrid, Sign};

verus! {

impl SampleGrid {
    /// No sample is negative.
    pub open spec fn never_negative(&self) -> bool {
        forall|x: int, y: int, z: int|
            0 <= x < self.split + 2 && 0 <= y < self.split + 2 && 0 <= z < self.split + 2
                ==> #[trigger] self.sign_at(x, y, z) != Sign::Negative
    }

    /// No sample is positive.
    pub open spec fn never_positive(&self) -> bool {
        forall|x: int, y: int, z: int|
            0 <= x < self.split + 2 && 0 <= y < self.split + 2 && 0 <= z < self.split + 2
                ==> #[trigger] self.sign_at(x, y, z) != Sign::Positive
    }
}

/// Every face names three of the nineteen crossing slots.
proof fn lemma_face_slots_range(f: int)
    requires
        0 <= f < 18,
    ensures
        face_slots(f).0 < CELL_SLOTS,
        face_slots(f).1 < CELL_SLOTS,
        face_slots(f).2 < CELL_SLOTS,
{
}

/// Every tetrahedron names four of the eighteen faces.
proof fn lemma_body_faces_range(b: int)
    requires
        0 <= b < CELL_BODIES,
    ensures
        body_faces(b).0 < 18,
        body_faces(b).1 < 18,
        body_faces(b).2 < 18,
        body_faces(b).3 < 18,
{
}

/// A cell with no crossing has no segment on any tetrahedron.
proof fn lemma_empty_cell_no_edges(c: Seq<Option<usize>>, b: int)
    requires
        c.len() == CELL_SLOTS,
        forall|i: int| 0 <= i < CELL_SLOTS ==> #[trigger] c[i] is None,
        0 <= b < CELL_BODIES,
    ensures
        body_edges_of(c, b).len() == 0,
{
    let q = body_faces(b);
    lemma_body_faces_range(b);
    lemma_face_slots_range(q.0 as int);
    lemma_face_slots_range(q.1 as int);
    lemma_face_slots_range(q.2 as int);
    lemma_face_slots_range(q.3 as int);
    let s = seq![
        face_edge_of(c, q.0 as int),
        face_edge_of(c, q.1 as int),
        face_edge_of(c, q.2 as int),
        face_edge_of(c, q.3 as int),
    ];
    assert(s[0] is None && s[1] is None && s[2] is None && s[3] is None);
    assert(s.drop_last().drop_last().drop_last().drop_last().len() == 0);
    reveal_with_fuel(present, 5);
    assert(s.drop_last() =~= seq![s[0], s[1], s[2]]);
    assert(s.drop_last().drop_last() =~= seq![s[0], s[1]]);
    assert(s.drop_last().drop_last().drop_last() =~= seq![s[0]]);
}

/// No tetrahedron of any cell has a segment.
spec fn no_body_edges(table: &CrossingTable) -> bool {
    forall|x: int, y: int, z: int, b: int|
        0 <= x < table.split && 0 <= y < table.split && 0 <= z < table.split && 0 <= b < CELL_BODIES
            ==> (#[trigger] table.body_edges(x, y, z, b)).len() == 0
}

/// With no segment anywhere, the first `b` tetrahedra of a cell give no triangle.
proof fn lemma_cell_empty(table: &CrossingTable, x: int, y: int, z: int, b: int)
    requires
        no_body_edges(table),
        0 <= x < table.split && 0 <= y < table.split && 0 <= z < table.split,
        0 <= b <= CELL_BODIES,
    ensures
        table.cell_triangles(x, y, z, b) == Seq::<Triangle>::empty(),
    decreases b,
{
    if b > 0 {
        lemma_cell_empty(table, x, y, z, b - 1);
        assert(table.body_edges(x, y, z, b - 1).len() == 0);
        assert(table.cell_triangles(x, y, z, b) =~= Seq::<Triangle>::empty());
    }
}

/// See `lemma_cell_empty`, for the cells `(x, y, 0..z)`.
proof fn lemma_row_empty(table: &CrossingTable, x: int, y: int, z: int)
    requires
        no_body_edges(table),
        0 <= x < table.split && 0 <= y < table.split,
        0 <= z <= table.split,
    ensures
        table.row_triangles(x, y, z) == Seq::<Triangle>::empty(),
    decreases z,
{
    if z > 0 {
        lemma_row_empty(table, x, y, z - 1);
        lemma_cell_empty(table, x, y, z - 1, CELL_BODIES as int);
        assert(table.row_triangles(x, y, z) =~= Seq::<Triangle>::empty());
    }
}

/// See `lemma_cell_empty`, for the cells `(x, 0..y, _)`.
proof fn lemma_slab_empty(table: &CrossingTable, x: int, y: int)
    requires
        no_body_edges(table),
        0 <= x < table.split,
        0 <= y <= table.split,
    ensures
        table.slab_triangles(x, y) == Seq::<Triangle>::empty(),
    decreases y,
{
    if y > 0 {
        lemma_slab_empty(table, x, y - 1);
        lemma_row_empty(table, x, y - 1, table.split as int);
        assert(table.slab_triangles(x, y) =~= Seq::<Triangle>::empty());
    }
}

/// See `lemma_cell_empty`, for the cells `(0..x, _, _)`.
proof fn lemma_block_empty(table: &CrossingTable, x: int)
    requires
        no_body_edges(table),
        0 <= x <= table.split,
    ensures
        table.block_triangles(x) == Seq::<Triangle>::empty(),
    decreases x,
{
    if x > 0 {
        lemma_block_empty(table, x - 1);
        lemma_slab_empty(table, x - 1, table.split as int);
        assert(table.block_triangles(x) =~= Seq::<Triangle>::empty());
    }
}

/// A table whose tetrahedra all lack segments has no triangle.
proof fn lemma_no_triangles(table: &CrossingTable)
    requires
        no_body_edges(table),
    ensures
        table.triangles() == Seq::<Triangle>::empty(),
{
    lemma_block_empty(table, table.split as int);
}

/// A field that never takes opposite signs at two samples has no crossing
/// vertex and no triangle, so the mesh built from it has no vertex, no
/// half-edge and no face.
pub proof fn lemma_constant_sign_is_empty(grid: &SampleGrid, table: &CrossingTable)
    requires
        grid.shaped(),
        table.samples(grid),
        grid.never_negative() || grid.never_positive(),
    ensures
        table.vertex_count() == 0,
        table.triangles() == Seq::<Triangle>::empty(),
        forall|m: HalfEdgeMesh|
            #[trigger] m.built_from(table.vertex_count(), table.triangles()) ==> m.n_vertices() == 0
                && m.n_half_edges() == 0 && m.n_faces() == 0,
{
    let n = table.split as int;
    assert forall|s: EdgeSlot| s.in_lattice(n) implies !grid.crosses(s) by {
        let st = crate::lattice::dir_step(s.dir as int);
        assert(grid.sign_at(s.x as int, s.y as int, s.z as int) != Sign::Negative || grid.never_positive());
        assert(grid.sign_at(s.x + st.0, s.y + st.1, s.z + st.2) != Sign::Negative
            || grid.never_positive());
        if grid.never_positive() {
            assert(grid.sign_at(s.x as int, s.y as int, s.z as int) != Sign::Positive);
            assert(grid.sign_at(s.x + st.0, s.y + st.1, s.z + st.2) != Sign::Positive);
        }
    }
    if table.origins@.len() > 0 {
        assert(grid.crosses(table.origins@[0]));
        assert(table.origins@[0].in_lattice(n));
    }
    assert forall|x: int, y: int, z: int, b: int|
        0 <= x < n && 0 <= y < n && 0 <= z < n && 0 <= b < CELL_BODIES implies (
        #[trigger] table.body_edges(x, y, z, b)).len() == 0 by {
        let c = table.cell_crossings(x, y, z);
        assert forall|i: int| 0 <= i < CELL_SLOTS implies #[trigger] c[i] is None by {
            let o = crate::cell::cell_slot(i);
            let s = slot(x + o.0, y + o.1, z + o.2, o.3 as int);
            assert(s.in_lattice(n));
            assert(!grid.crosses(s));
        }
        lemma_empty_cell_no_edges(c, b);
    }
    lemma_no_triangles(table);
}

/// Coordinate `i` (0, 1 or 2) of a lattice point.
pub open spec fn coord(v: (int, int, int), i: int) -> int {
    if i == 0 {
        v.0
    } else if i == 1 {
        v.1
    } else {
        v.2
    }
}

/// `p` is a reordering of the three axes: a permutation of `(0, 1, 2)`.
pub open spec fn is_axis_permutation(p: (int, int, int)) -> bool {
    &&& 0 <= p.0 < 3
    &&& 0 <= p.1 < 3
    &&& 0 <= p.2 < 3
    &&& p.0 != p.1
    &&& p.1 != p.2
    &&& p.0 != p.2
}

/// The point whose coordinate `k` is coordinate `p.k` of `v`.
pub open spec fn permute(p: (int, int, int), v: (int, int, int)) -> (int, int, int) {
    (coord(v, p.0), coord(v, p.1), coord(v, p.2))
}

/// The direction whose step is `v`, for each of the seven nonzero steps
/// with coordinates in `{0, 1}`.
pub open spec fn dir_of(v: (int, int, int)) -> int {
    if v == (1int, 0int, 0int) {
        0
    } else if v == (0int, 1int, 0int) {
        1
    } else if v == (0int, 0int, 1int) {
        2
    } else if v == (1int, 1int, 0int) {
        3
    } else if v == (0int, 1int, 1int) {
        4
    } else if v == (1int, 0int, 1int) {
        5
    } else {
        6
    }
}

/// The step of direction `d`, over `int`.
pub open spec fn step_of(d: int) -> (int, int, int) {
    let st = crate::lattice::dir_step(d);
    (st.0 as int, st.1 as int, st.2 as int)
}

/// The lattice edge that `s` is carried to by the axis permutation `p`.
pub open spec fn permute_slot(p: (int, int, int), s: EdgeSlot) -> EdgeSlot {
    let c = permute(p, (s.x as int, s.y as int, s.z as int));
    slot(c.0, c.1, c.2, dir_of(permute(p, step_of(s.dir as int))))
}

impl CrossingTable {
    /// Some crossing vertex sits on lattice edge `s`.
    pub open spec fn has_vertex_on(&self, s: EdgeSlot) -> bool {
        exists|j: int| 0 <= j < self.origins@.len() && self.origins@[j] == s
    }
}

impl SampleGrid {
    /// The sample at `(x, y, z)` equals the sample at its image under `p`.
    pub open spec fn symmetric_at(&self, p: (int, int, int), x: int, y: int, z: int) -> bool {
        let c = permute(p, (x, y, z));
        self.sign_at(x, y, z) == self.sign_at(c.0, c.1, c.2)
    }

    /// The samples are unchanged by the axis permutation `p`.
    pub open spec fn invariant_under(&self, p: (int, int, int)) -> bool {
        forall|x: int, y: int, z: int|
            0 <= x < self.split + 2 && 0 <= y < self.split + 2 && 0 <= z < self.split + 2
                ==> #[trigger] self.symmetric_at(p, x, y, z)
    }
}

/// Permuting the axes carries each of the seven steps to one of them.
proof fn lemma_permuted_step(p: (int, int, int), d: int)
    requires
        is_axis_permutation(p),
        0 <= d < 7,
    ensures
        0 <= dir_of(permute(p, step_of(d))) < 7,
        step_of(dir_of(permute(p, step_of(d)))) == permute(p, step_of(d)),
{
}

/// Permuting the axes commutes with adding a step.
proof fn lemma_permute_add(p: (int, int, int), v: (int, int, int), w: (int, int, int))
    requires
        is_axis_permutation(p),
    ensures
        permute(p, (v.0 + w.0, v.1 + w.1, v.2 + w.2)) == (
            permute(p, v).0 + permute(p, w).0,
            permute(p, v).1 + permute(p, w).1,
            permute(p, v).2 + permute(p, w).2,
        ),
{
}

/// A field whose samples are unchanged by a permutation of the axes has a
/// crossing vertex on a lattice edge exactly when it has one on the
/// permuted edge; so the permutation maps the set of vertices onto itself.
pub proof fn lemma_axis_symmetry(grid: &SampleGrid, table: &CrossingTable, p: (int, int, int))
    requires
        grid.shaped(),
        table.samples(grid),
        is_axis_permutation(p),
        grid.invariant_under(p),
    ensures
        forall|s: EdgeSlot|
            s.in_lattice(table.split as int) ==> permute_slot(p, s).in_lattice(table.split as int) && (
            table.id_at(s) is Some <==> #[trigger] table.id_at(permute_slot(p, s)) is Some),
        forall|i: int|
            0 <= i < table.vertex_count() ==> table.has_vertex_on(
                permute_slot(p, #[trigger] table.origins@[i]),
            ),
{
    let n = table.split as int;
    assert forall|s: EdgeSlot| s.in_lattice(n) implies permute_slot(p, s).in_lattice(n) && (
    grid.crosses(s) <==> grid.crosses(permute_slot(p, s))) by {
        let c = (s.x as int, s.y as int, s.z as int);
        let st = step_of(s.dir as int);
        let c1 = (c.0 + st.0, c.1 + st.1, c.2 + st.2);
        lemma_permuted_step(p, s.dir as int);
        lemma_permute_add(p, c, st);
        assert(grid.symmetric_at(p, c.0, c.1, c.2));
        assert(grid.symmetric_at(p, c1.0, c1.1, c1.2));
        let t = permute_slot(p, s);
        let pc = permute(p, c);
        assert(t.x == pc.0 && t.y == pc.1 && t.z == pc.2);
    }
    assert forall|s: EdgeSlot| s.in_lattice(n) implies permute_slot(p, s).in_lattice(n) && (
    table.id_at(s) is Some <==> #[trigger] table.id_at(permute_slot(p, s)) is Some) by {
        assert(permute_slot(p, s).in_lattice(n));
        assert(table.id_at(s) is Some <==> grid.crosses(s));
        assert(table.id_at(permute_slot(p, s)) is Some <==> grid.crosses(permute_slot(p, s)));
    }
    assert forall|i: int| 0 <= i < table.vertex_count() implies table.has_vertex_on(
        permute_slot(p, #[trigger] table.origins@[i]),
    ) by {
        let s = table.origins@[i];
        let t = permute_slot(p, s);
        assert(s.in_lattice(n));
        assert(grid.crosses(s));
        assert(t.in_lattice(n));
        assert(table.id_at(t) is Some);
        let j = table.id_at(t)->Some_0 as int;
        assert(table.origins@[j] == t);
    }
}

/// Two enumerations of the crossing edges agree on their first `k` entries.
proof fn lemma_enumeration_prefix(grid: &SampleGrid, t1: &CrossingTable, t2: &CrossingTable, k: int)
    requires
        t1.samples(grid),
        t2.samples(grid),
        0 <= k <= t1.origins@.len(),
        k <= t2.origins@.len(),
    ensures
        forall|i: int| 0 <= i < k ==> #[trigger] t1.origins@[i] == t2.origins@[i],
    decreases k,
{
    if k > 0 {
        let m = k - 1;
        lemma_enumeration_prefix(grid, t1, t2, m);
        let a = t1.origins@[m];
        let b = t2.origins@[m];
        assert(a.in_lattice(t1.split as int) && grid.crosses(a));
        assert(b.in_lattice(t1.split as int) && grid.crosses(b));
        let j = t2.id_at(a)->Some_0 as int;
        let i = t1.id_at(b)->Some_0 as int;
        assert(t2.origins@[j] == a);
        assert(t1.origins@[i] == b);
        if j < m {
            assert(t1.origins@[j] == t2.origins@[j]);
            assert(t1.origins@[j].precedes(a));
        }
        if i < m {
            assert(t1.origins@[i] == t2.origins@[i]);
            assert(t2.origins@[i].precedes(b));
        }
        if j > m && i > m {
            assert(b.precedes(a));
            assert(a.precedes(b));
        }
        if j == m {
        } else if i == m {
        }
    }
}

/// The crossing table of a grid is unique: two tables that both sample
/// `grid` hold the same vertices, the same entries and the same triangles,
/// so a tessellation request always gives the same result.
pub proof fn lemma_sampling_deterministic(grid: &SampleGrid, t1: &CrossingTable, t2: &CrossingTable)
    requires
        t1.samples(grid),
        t2.samples(grid),
    ensures
        t1.origins@ == t2.origins@,
        forall|s: EdgeSlot| s.in_lattice(t1.split as int) ==> #[trigger] t1.id_at(s) == t2.id_at(s),
        t1.triangles() == t2.triangles(),
{
    let n1 = t1.origins@.len() as int;
    let n2 = t2.origins@.len() as int;
    let k = if n1 <= n2 {
        n1
    } else {
        n2
    };
    lemma_enumeration_prefix(grid, t1, t2, k);
    if n1 < n2 {
        let b = t2.origins@[n1];
        assert(b.in_lattice(t1.split as int) && grid.crosses(b));
        let i = t1.id_at(b)->Some_0 as int;
        assert(t1.origins@[i] == t2.origins@[i]);
        assert(t2.origins@[i].precedes(b));
    }
    if n2 < n1 {
        let a = t1.origins@[n2];
        assert(a.in_lattice(t1.split as int) && grid.crosses(a));
        let j = t2.id_at(a)->Some_0 as int;
        assert(t1.origins@[j] == t2.origins@[j]);
        assert(t1.origins@[j].precedes(a));
    }
    assert(t1.origins@ =~= t2.origins@);
    assert forall|s: EdgeSlot| s.in_lattice(t1.split as int) implies #[trigger] t1.id_at(s) == t2.id_at(s) by {
        if t1.id_at(s) is Some {
            let i = t1.id_at(s)->Some_0 as int;
            let j = t2.id_at(s)->Some_0 as int;
            assert(t1.origins@[i] == s);
            assert(t2.origins@[j] == s);
            if i < j {
                assert(t1.origins@[i].precedes(t1.origins@[j]));
            } else if j < i {
                assert(t1.origins@[j].precedes(t1.origins@[i]));
            }
        }
    }
    assert forall|x: int, y: int, z: int|
        0 <= x < t1.split && 0 <= y < t1.split && 0 <= z < t1.split implies #[trigger] t1.cell_crossings(
        x,
        y,
        z,
    ) == t2.cell_crossings(x, y, z) by {
        assert forall|i: int| 0 <= i < CELL_SLOTS implies #[trigger] t1.cell_crossing(x, y, z, i)
            == t2.cell_crossing(x, y, z, i) by {
            let o = crate::cell::cell_slot(i);
            let s = slot(x + o.0, y + o.1, z + o.2, o.3 as int);
            assert(s.in_lattice(t1.split as int));
        }
        assert(t1.cell_crossings(x, y, z) =~= t2.cell_crossings(x, y, z));
    }
    lemma_same_blocks(t1, t2, t1.split as int);
}

/// Tables of one split whose cells read the same crossings agree on the
/// first `b` tetrahedra of a cell.
proof fn lemma_same_cells(t1: &CrossingTable, t2: &CrossingTable, x: int, y: int, z: int, b: int)
    requires
        t1.cell_crossings(x, y, z) == t2.cell_crossings(x, y, z),
        0 <= b <= CELL_BODIES,
    ensures
        t1.cell_triangles(x, y, z, b) == t2.cell_triangles(x, y, z, b),
    decreases b,
{
    if b > 0 {
        lemma_same_cells(t1, t2, x, y, z, b - 1);
    }
}

/// See `lemma_same_cells`, for the cells `(x, y, 0..z)`.
proof fn lemma_same_rows(t1: &CrossingTable, t2: &CrossingTable, x: int, y: int, z: int)
    requires
        t1.split == t2.split,
        0 <= x < t1.split && 0 <= y < t1.split,
        0 <= z <= t1.split,
        forall|x: int, y: int, z: int|
            0 <= x < t1.split && 0 <= y < t1.split && 0 <= z < t1.split ==> #[trigger] t1.cell_crossings(
                x,
                y,
                z,
            ) == t2.cell_crossings(x, y, z),
    ensures
        t1.row_triangles(x, y, z) == t2.row_triangles(x, y, z),
    decreases z,
{
    if z > 0 {
        lemma_same_rows(t1, t2, x, y, z - 1);
        assert(t1.cell_crossings(x, y, z - 1) == t2.cell_crossings(x, y, z - 1));
        lemma_same_cells(t1, t2, x, y, z - 1, CELL_BODIES as int);
    }
}

/// See `lemma_same_cells`, for the cells `(x, 0..y, _)`.
proof fn lemma_same_slabs(t1: &CrossingTable, t2: &CrossingTable, x: int, y: int)
    requires
        t1.split == t2.split,
        0 <= x < t1.split,
        0 <= y <= t1.split,
        forall|x: int, y: int, z: int|
            0 <= x < t1.split && 0 <= y < t1.split && 0 <= z < t1.split ==> #[trigger] t1.cell_crossings(
                x,
                y,
                z,
            ) == t2.cell_crossings(x, y, z),
    ensures
        t1.slab_triangles(x, y) == t2.slab_triangles(x, y),
    decreases y,
{
    if y > 0 {
        lemma_same_slabs(t1, t2, x, y - 1);
        lemma_same_rows(t1, t2, x, y - 1, t1.split as int);
    }
}

/// See `lemma_same_cells`, for the cells `(0..x, _, _)`.
proof fn lemma_same_blocks(t1: &CrossingTable, t2: &CrossingTable, x: int)
    requires
        t1.split == t2.split,
        0 <= x <= t1.split,
        forall|x: int, y: int, z: int|
            0 <= x < t1.split && 0 <= y < t1.split && 0 <= z < t1.split ==> #[trigger] t1.cell_crossings(
                x,
                y,
                z,
            ) == t2.cell_crossings(x, y, z),
    ensures
        t1.block_triangles(x) == t2.block_triangles(x),
    decreases x,
{
    if x > 0 {
        lemma_same_blocks(t1, t2, x - 1);
        lemma_same_slabs(t1, t2, x - 1, t1.split as int);
    }
}

} // verus!
