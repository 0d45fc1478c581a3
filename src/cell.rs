//! Cell side of the tessellation: each lattice cell is cut into six
//! tetrahedra, the crossings on each tetrahedron are chained into a polygon
//! loop, and each loop becomes one or two triangles.
//!
//! A cell reads nineteen crossing slots: the seven edges of its lower
//! corner and twelve edges owned by neighbouring corners. Its tetrahedra
//! have eighteen triangular faces between them; a face yields a segment when
//! exactly two of its three edges carry a crossing.
use vstd::prelude::*;

use crate::lattice::{slot, CrossingTable};

verus! {

/// Three vertex ids, in winding order.
pub type Triangle = (usize, usize, usize);

/// Number of crossing slots a cell reads.
pub const CELL_SLOTS: usize = 19;

/// Number of triangular faces between the six tetrahedra of a cell.
pub const CELL_FACES: usize = 18;

/// Number of tetrahedra a cell is cut into.
pub const CELL_BODIES: usize = 6;

/// Crossing slot `i` of a cell, as `(dx, dy, dz, dir)`: the edge in direction
/// `dir` of the corner at offset `(dx, dy, dz)` from the cell's lower corner.
pub open spec fn cell_slot(i: int) -> (usize, usize, usize, usize) {
    if 0 <= i < 7 {
        (0, 0, 0, i as usize)
    } else if i == 7 {
        (1, 0, 0, 1)
    } else if i == 8 {
        (1, 0, 0, 2)
    } else if i == 9 {
        (1, 0, 0, 4)
    } else if i == 10 {
        (0, 1, 0, 0)
    } else if i == 11 {
        (0, 1, 0, 2)
    } else if i == 12 {
        (0, 1, 0, 5)
    } else if i == 13 {
        (0, 0, 1, 0)
    } else if i == 14 {
        (0, 0, 1, 1)
    } else if i == 15 {
        (0, 0, 1, 3)
    } else if i == 16 {
        (1, 1, 0, 2)
    } else if i == 17 {
        (0, 1, 1, 0)
    } else {
        (1, 0, 1, 1)
    }
}

/// The three crossing slots on face `f` of the cell's tetrahedra.
pub open spec fn face_slots(f: int) -> (usize, usize, usize) {
    if f == 0 {
        (4, 6, 17)
    } else if f == 1 {
        (1, 6, 12)
    } else if f == 2 {
        (3, 6, 16)
    } else if f == 3 {
        (0, 6, 9)
    } else if f == 4 {
        (5, 6, 18)
    } else if f == 5 {
        (2, 6, 15)
    } else if f == 6 {
        (2, 4, 14)
    } else if f == 7 {
        (1, 4, 11)
    } else if f == 8 {
        (11, 12, 17)
    } else if f == 9 {
        (10, 12, 16)
    } else if f == 10 {
        (7, 9, 16)
    } else if f == 11 {
        (8, 9, 18)
    } else if f == 12 {
        (0, 5, 8)
    } else if f == 13 {
        (2, 5, 13)
    } else if f == 14 {
        (1, 3, 10)
    } else if f == 15 {
        (0, 3, 7)
    } else if f == 16 {
        (14, 15, 17)
    } else {
        (13, 15, 18)
    }
}

/// The four faces of tetrahedron `b`.
pub open spec fn body_faces(b: int) -> (usize, usize, usize, usize) {
    if b == 0 {
        (0, 5, 6, 16)
    } else if b == 1 {
        (0, 1, 7, 8)
    } else if b == 2 {
        (1, 2, 9, 14)
    } else if b == 3 {
        (2, 3, 10, 15)
    } else if b == 4 {
        (3, 4, 11, 12)
    } else {
        (4, 5, 13, 17)
    }
}

fn cell_slot_offset(i: usize) -> (r: (usize, usize, usize, usize))
    requires
        i < CELL_SLOTS,
    ensures
        r == cell_slot(i as int),
{
    match i {
        7 => (1, 0, 0, 1),
        8 => (1, 0, 0, 2),
        9 => (1, 0, 0, 4),
        10 => (0, 1, 0, 0),
        11 => (0, 1, 0, 2),
        12 => (0, 1, 0, 5),
        13 => (0, 0, 1, 0),
        14 => (0, 0, 1, 1),
        15 => (0, 0, 1, 3),
        16 => (1, 1, 0, 2),
        17 => (0, 1, 1, 0),
        18 => (1, 0, 1, 1),
        _ => (0, 0, 0, i),
    }
}

fn face_slot_triple(f: usize) -> (r: (usize, usize, usize))
    requires
        f < CELL_FACES,
    ensures
        r == face_slots(f as int),
{
    match f {
        0 => (4, 6, 17),
        1 => (1, 6, 12),
        2 => (3, 6, 16),
        3 => (0, 6, 9),
        4 => (5, 6, 18),
        5 => (2, 6, 15),
        6 => (2, 4, 14),
        7 => (1, 4, 11),
        8 => (11, 12, 17),
        9 => (10, 12, 16),
        10 => (7, 9, 16),
        11 => (8, 9, 18),
        12 => (0, 5, 8),
        13 => (2, 5, 13),
        14 => (1, 3, 10),
        15 => (0, 3, 7),
        16 => (14, 15, 17),
        _ => (13, 15, 18),
    }
}

fn body_face_quad(b: usize) -> (r: (usize, usize, usize, usize))
    requires
        b < CELL_BODIES,
    ensures
        r == body_faces(b as int),
{
    match b {
        0 => (0, 5, 6, 16),
        1 => (0, 1, 7, 8),
        2 => (1, 2, 9, 14),
        3 => (2, 3, 10, 15),
        4 => (3, 4, 11, 12),
        _ => (4, 5, 13, 17),
    }
}

/// The segment of a face whose three slots hold `a`, `b`, `c`: present when
/// exactly two of them hold a crossing, joining them in slot order.
pub open spec fn segment(a: Option<usize>, b: Option<usize>, c: Option<usize>) -> Option<
    (usize, usize),
> {
    match (a, b, c) {
        (Some(p), Some(q), None) => Some((p, q)),
        (Some(p), None, Some(q)) => Some((p, q)),
        (None, Some(p), Some(q)) => Some((p, q)),
        _ => None,
    }
}

/// The values held, in order, dropping the absent ones.
pub open spec fn present(s: Seq<Option<(usize, usize)>>) -> Seq<(usize, usize)>
    decreases s.len(),
{
    if s.len() == 0 {
        Seq::empty()
    } else {
        let head = present(s.drop_last());
        match s.last() {
            Some(e) => head.push(e),
            None => head,
        }
    }
}

/// Segment of face `f`, given the nineteen crossing slots `c` of a cell.
pub open spec fn face_edge_of(c: Seq<Option<usize>>, f: int) -> Option<(usize, usize)> {
    let t = face_slots(f);
    segment(c[t.0 as int], c[t.1 as int], c[t.2 as int])
}

/// Segments on the faces of tetrahedron `b`, in face order.
pub open spec fn body_edges_of(c: Seq<Option<usize>>, b: int) -> Seq<(usize, usize)> {
    let q = body_faces(b);
    present(
        seq![
            face_edge_of(c, q.0 as int),
            face_edge_of(c, q.1 as int),
            face_edge_of(c, q.2 as int),
            face_edge_of(c, q.3 as int),
        ],
    )
}

/// Segment `e` has `v` as an end.
pub open spec fn touches(e: (usize, usize), v: usize) -> bool {
    e.0 == v || e.1 == v
}

/// The end of `e` that is not `v`.
pub open spec fn other_end(e: (usize, usize), v: usize) -> usize {
    if e.0 == v {
        e.1
    } else {
        e.0
    }
}

/// The first segment at index `k` or later that is unused and has `v` as an end.
pub open spec fn next_link(edges: Seq<(usize, usize)>, used: Seq<bool>, v: usize, k: int) -> Option<
    int,
>
    decreases edges.len() - k,
{
    if k < 0 || k >= edges.len() {
        None
    } else if !used[k] && touches(edges[k], v) {
        Some(k)
    } else {
        next_link(edges, used, v, k + 1)
    }
}

/// What `next_link` finds is an unused segment at `k` or later that touches `v`.
proof fn lemma_next_link(edges: Seq<(usize, usize)>, used: Seq<bool>, v: usize, k: int)
    requires
        0 <= k,
    ensures
        next_link(edges, used, v, k) is Some ==> {
            let i = next_link(edges, used, v, k)->Some_0;
            k <= i < edges.len() && !used[i] && touches(edges[i], v)
        },
    decreases edges.len() - k,
{
    if k < edges.len() && !(!used[k] && touches(edges[k], v)) {
        lemma_next_link(edges, used, v, k + 1);
    }
}

/// Extends the open path by at most `fuel` unused segments, each time taking
/// the first one that shares the path's tail, and stopping once the path
/// closes on its first vertex or nothing extends it.
pub open spec fn chain(edges: Seq<(usize, usize)>, used: Seq<bool>, path: Seq<usize>, fuel: nat) -> Seq<
    usize,
>
    decreases fuel,
{
    if fuel == 0 || path.len() == 0 || path.last() == path[0] {
        path
    } else {
        match next_link(edges, used, path.last(), 0) {
            None => path,
            Some(i) => chain(
                edges,
                used.update(i, true),
                path.push(other_end(edges[i], path.last())),
                (fuel - 1) as nat,
            ),
        }
    }
}

/// The polygon loop assembled from undirected segments: it starts with the
/// last segment, is extended by `chain` over the others, and loses its
/// repeated closing vertex when it closes.
pub open spec fn loop_of(edges: Seq<(usize, usize)>) -> Seq<usize> {
    if edges.len() == 0 {
        Seq::empty()
    } else {
        let rest = edges.drop_last();
        let path = chain(
            rest,
            Seq::new(rest.len(), |i: int| false),
            seq![edges.last().0, edges.last().1],
            rest.len(),
        );
        if path.last() == path[0] {
            path.drop_last()
        } else {
            path
        }
    }
}

/// The triangles of a loop `(v0, v1, v2)` or `(v0, v1, v2, v3)`; a quad is
/// split along its `v1`-`v3` diagonal.
pub open spec fn loop_triangles(lp: Seq<usize>) -> Seq<Triangle> {
    if lp.len() == 3 {
        seq![(lp[0], lp[1], lp[2])]
    } else if lp.len() == 4 {
        seq![(lp[0], lp[1], lp[3]), (lp[1], lp[2], lp[3])]
    } else {
        Seq::empty()
    }
}

/// A loop that the triangulation rules cover.
pub open spec fn regular_loop(lp: Seq<usize>) -> bool {
    lp.len() == 3 || lp.len() == 4
}

/// Chains undirected segments into one ordered polygon loop (see `loop_of`).
pub fn assemble_loop(edges: &Vec<(usize, usize)>) -> (r: Vec<usize>)
    ensures
        r@ == loop_of(edges@),
{
    let n = edges.len();
    if n == 0 {
        return Vec::new();
    }
    let rest_len = n - 1;
    let ghost rest = edges@.drop_last();
    let first = edges[rest_len];
    let mut used: Vec<bool> = Vec::new();
    for i in 0..rest_len
        invariant
            used@ == Seq::new(i as nat, |k: int| false),
    {
        used.push(false);
        assert(used@ =~= Seq::new((i + 1) as nat, |k: int| false));
    }
    let ghost target = chain(
        rest,
        Seq::new(rest.len(), |i: int| false),
        seq![first.0, first.1],
        rest.len(),
    );
    let mut path: Vec<usize> = Vec::new();
    path.push(first.0);
    path.push(first.1);
    assert(path@ =~= seq![first.0, first.1]);
    let mut fuel: usize = rest_len;
    loop
        invariant
            n == edges@.len(),
            rest_len == n - 1,
            rest == edges@.drop_last(),
            rest.len() == rest_len,
            used@.len() == rest_len,
            path@.len() >= 2,
            fuel <= rest_len,
            chain(rest, used@, path@, fuel as nat) == target,
        ensures
            path@ == target,
            path@.len() >= 2,
        decreases fuel,
    {
        let tail = path[path.len() - 1];
        if fuel == 0 || tail == path[0] {
            break;
        }
        let mut k: usize = 0;
        let mut found: Option<usize> = None;
        while k < rest_len
            invariant_except_break
                found is None,
            invariant
                rest == edges@.drop_last(),
                rest.len() == rest_len,
                n == edges@.len(),
                rest_len == n - 1,
                used@.len() == rest_len,
                k <= rest_len,
                next_link(rest, used@, tail, 0) == next_link(rest, used@, tail, k as int),
            ensures
                found is Some ==> next_link(rest, used@, tail, 0) == Some(found->Some_0 as int),
                found is None ==> next_link(rest, used@, tail, 0) is None,
            decreases rest_len - k,
        {
            let e = edges[k];
            assert(e == rest[k as int]);
            if !used[k] && (e.0 == tail || e.1 == tail) {
                found = Some(k);
                break;
            }
            k = k + 1;
        }
        match found {
            None => {
                break;
            },
            Some(i) => {
                proof {
                    lemma_next_link(rest, used@, tail, 0);
                }
                let e = edges[i];
                assert(e == rest[i as int]);
                let nxt = if e.0 == tail {
                    e.1
                } else {
                    e.0
                };
                used.set(i, true);
                path.push(nxt);
                fuel = fuel - 1;
            },
        }
    }
    assert(first == edges@.last());
    finish_loop(path)
}

/// Drops the repeated closing vertex of a finished path.
fn finish_loop(path: Vec<usize>) -> (r: Vec<usize>)
    requires
        path@.len() >= 2,
    ensures
        r@ == (if path@.last() == path@[0] {
            path@.drop_last()
        } else {
            path@
        }),
{
    let mut path = path;
    let last = path.len() - 1;
    if path[last] == path[0] {
        path.pop();
    }
    path
}

/// Triangulates a polygon loop. A triangle `(v0, v1, v2)` is kept as it
/// is; a quad `(v0, v1, v2, v3)` becomes `(v0, v1, v3)` and `(v1, v2, v3)`.
/// Loops of any other length are rejected with `None`.
pub fn triangulate_loop(lp: &Vec<usize>) -> (r: Option<Vec<Triangle>>)
    ensures
        r is Some <==> regular_loop(lp@),
        r is Some ==> r->Some_0@ == loop_triangles(lp@),
        lp@.len() == 4 ==> r is Some && r->Some_0@ == seq![(lp@[0], lp@[1], lp@[3]), (lp@[1], lp@[2], lp@[3])],
{
    let mut out: Vec<Triangle> = Vec::new();
    if lp.len() == 3 {
        out.push((lp[0], lp[1], lp[2]));
        assert(out@ =~= loop_triangles(lp@));
        Some(out)
    } else if lp.len() == 4 {
        out.push((lp[0], lp[1], lp[3]));
        out.push((lp[1], lp[2], lp[3]));
        assert(out@ =~= loop_triangles(lp@));
        Some(out)
    } else {
        None
    }
}

/// Every vertex id named by a triangle is below `n`.
pub open spec fn triangles_below(ts: Seq<Triangle>, n: int) -> bool {
    forall|k: int| 0 <= k < ts.len() ==> (#[trigger] ts[k]).0 < n && ts[k].1 < n && ts[k].2 < n
}

/// A loop built from segments whose ends are below `n` stays below `n`.
proof fn lemma_chain_below(
    edges: Seq<(usize, usize)>,
    used: Seq<bool>,
    path: Seq<usize>,
    fuel: nat,
    n: int,
)
    requires
        forall|k: int| 0 <= k < edges.len() ==> #[trigger] edges[k].0 < n && edges[k].1 < n,
        forall|k: int| 0 <= k < path.len() ==> #[trigger] path[k] < n,
    ensures
        chain(edges, used, path, fuel).len() >= path.len(),
        forall|k: int|
            0 <= k < chain(edges, used, path, fuel).len() ==> #[trigger] chain(edges, used, path, fuel)[k]
                < n,
    decreases fuel,
{
    if fuel > 0 && path.len() > 0 && path.last() != path[0] {
        lemma_next_link(edges, used, path.last(), 0);
        if let Some(i) = next_link(edges, used, path.last(), 0) {
            let longer = path.push(other_end(edges[i], path.last()));
            assert forall|k: int| 0 <= k < longer.len() implies #[trigger] longer[k] < n by {
                if k < path.len() {
                    assert(longer[k] == path[k]);
                }
            }
            lemma_chain_below(edges, used.update(i, true), longer, (fuel - 1) as nat, n);
            assert(chain(edges, used, path, fuel) == chain(
                edges,
                used.update(i, true),
                longer,
                (fuel - 1) as nat,
            ));
        } else {
            assert(chain(edges, used, path, fuel) == path);
        }
    } else {
        assert(chain(edges, used, path, fuel) == path);
    }
}

/// The loop of segments whose ends are below `n` has its vertices below `n`.
proof fn lemma_loop_below(edges: Seq<(usize, usize)>, n: int)
    requires
        forall|k: int| 0 <= k < edges.len() ==> #[trigger] edges[k].0 < n && edges[k].1 < n,
    ensures
        forall|k: int| 0 <= k < loop_of(edges).len() ==> #[trigger] loop_of(edges)[k] < n,
{
    if edges.len() > 0 {
        let rest = edges.drop_last();
        let start = seq![edges.last().0, edges.last().1];
        assert(edges.last() == edges[edges.len() - 1]);
        assert forall|k: int| 0 <= k < rest.len() implies #[trigger] rest[k].0 < n && rest[k].1 < n by {
            assert(rest[k] == edges[k]);
        }
        lemma_chain_below(rest, Seq::new(rest.len(), |i: int| false), start, rest.len(), n);
        let path = chain(rest, Seq::new(rest.len(), |i: int| false), start, rest.len());
        assert(path.len() >= 2);
        assert forall|k: int| 0 <= k < path.drop_last().len() implies #[trigger] path.drop_last()[k] < n by {
            assert(path.drop_last()[k] == path[k]);
        }
    }
}

impl CrossingTable {
    /// Crossing slot `i` of the cell whose lower corner is `(x, y, z)`.
    pub open spec fn cell_crossing(&self, x: int, y: int, z: int, i: int) -> Option<usize> {
        let o = cell_slot(i);
        self.id_at(slot(x + o.0, y + o.1, z + o.2, o.3 as int))
    }

    /// The nineteen crossing slots of cell `(x, y, z)`.
    pub open spec fn cell_crossings(&self, x: int, y: int, z: int) -> Seq<Option<usize>> {
        Seq::new(CELL_SLOTS as nat, |i: int| self.cell_crossing(x, y, z, i))
    }

    /// Segments on the faces of tetrahedron `b` of cell `(x, y, z)`.
    pub open spec fn body_edges(&self, x: int, y: int, z: int, b: int) -> Seq<(usize, usize)> {
        body_edges_of(self.cell_crossings(x, y, z), b)
    }

    /// Polygon loop of tetrahedron `b` of cell `(x, y, z)`.
    pub open spec fn body_loop(&self, x: int, y: int, z: int, b: int) -> Seq<usize> {
        loop_of(self.body_edges(x, y, z, b))
    }

    /// Tetrahedron `b` of cell `(x, y, z)` contributes nothing, or a loop of
    /// three or four vertices.
    pub open spec fn body_regular(&self, x: int, y: int, z: int, b: int) -> bool {
        self.body_edges(x, y, z, b).len() < 3 || regular_loop(self.body_loop(x, y, z, b))
    }

    /// Triangles of tetrahedron `b` of cell `(x, y, z)`: none when it has
    /// fewer than three segments.
    pub open spec fn body_triangles(&self, x: int, y: int, z: int, b: int) -> Seq<Triangle> {
        if self.body_edges(x, y, z, b).len() < 3 {
            Seq::empty()
        } else {
            loop_triangles(self.body_loop(x, y, z, b))
        }
    }

    /// Triangles of the first `b` tetrahedra of cell `(x, y, z)`.
    pub open spec fn cell_triangles(&self, x: int, y: int, z: int, b: int) -> Seq<Triangle>
        decreases b,
    {
        if b <= 0 {
            Seq::empty()
        } else {
            self.cell_triangles(x, y, z, b - 1) + self.body_triangles(x, y, z, b - 1)
        }
    }

    /// Triangles of the cells `(x, y, 0..z)`.
    pub open spec fn row_triangles(&self, x: int, y: int, z: int) -> Seq<Triangle>
        decreases z,
    {
        if z <= 0 {
            Seq::empty()
        } else {
            self.row_triangles(x, y, z - 1) + self.cell_triangles(x, y, z - 1, CELL_BODIES as int)
        }
    }

    /// Triangles of the cells `(x, 0..y, _)`.
    pub open spec fn slab_triangles(&self, x: int, y: int) -> Seq<Triangle>
        decreases y,
    {
        if y <= 0 {
            Seq::empty()
        } else {
            self.slab_triangles(x, y - 1) + self.row_triangles(x, y - 1, self.split as int)
        }
    }

    /// Triangles of the cells `(0..x, _, _)`.
    pub open spec fn block_triangles(&self, x: int) -> Seq<Triangle>
        decreases x,
    {
        if x <= 0 {
            Seq::empty()
        } else {
            self.block_triangles(x - 1) + self.slab_triangles(x - 1, self.split as int)
        }
    }

    /// The triangle soup of the whole lattice, cell by cell in
    /// lexicographic order, tetrahedron by tetrahedron within a cell.
    pub open spec fn triangles(&self) -> Seq<Triangle> {
        self.block_triangles(self.split as int)
    }

    /// Every tetrahedron of cell `(x, y, z)` is regular.
    pub open spec fn cell_regular(&self, x: int, y: int, z: int) -> bool {
        forall|b: int| 0 <= b < CELL_BODIES ==> #[trigger] self.body_regular(x, y, z, b)
    }

    /// Every tetrahedron of every cell is regular.
    pub open spec fn loops_regular(&self) -> bool {
        forall|x: int, y: int, z: int|
            0 <= x < self.split && 0 <= y < self.split && 0 <= z < self.split
                ==> #[trigger] self.cell_regular(x, y, z)
    }
}

/// Segment of face `f`, given the crossing slots `c` of a cell.
fn face_edge(c: &Vec<Option<usize>>, f: usize, bound: Ghost<int>) -> (r: Option<(usize, usize)>)
    requires
        c@.len() == CELL_SLOTS,
        f < CELL_FACES,
        forall|i: int| 0 <= i < c@.len() && (#[trigger] c@[i]) is Some ==> c@[i]->Some_0 < bound@,
    ensures
        r == face_edge_of(c@, f as int),
        r is Some ==> r->Some_0.0 < bound@ && r->Some_0.1 < bound@,
{
    let t = face_slot_triple(f);
    match (c[t.0], c[t.1], c[t.2]) {
        (Some(p), Some(q), None) => Some((p, q)),
        (Some(p), None, Some(q)) => Some((p, q)),
        (None, Some(p), Some(q)) => Some((p, q)),
        _ => None,
    }
}

/// The nineteen crossing slots of cell `(x, y, z)`.
fn cell_crossing_list(table: &CrossingTable, x: usize, y: usize, z: usize) -> (r: Vec<Option<usize>>)
    requires
        table.wf(),
        x < table.split,
        y < table.split,
        z < table.split,
    ensures
        r@ == table.cell_crossings(x as int, y as int, z as int),
        forall|i: int|
            0 <= i < r@.len() && (#[trigger] r@[i]) is Some ==> r@[i]->Some_0 < table.vertex_count(),
{
    let mut r: Vec<Option<usize>> = Vec::new();
    for i in 0..CELL_SLOTS
        invariant
            table.wf(),
            x < table.split,
            y < table.split,
            z < table.split,
            r@ == table.cell_crossings(x as int, y as int, z as int).take(i as int),
            forall|k: int|
                0 <= k < r@.len() && (#[trigger] r@[k]) is Some ==> r@[k]->Some_0 < table.vertex_count(),
    {
        let o = cell_slot_offset(i);
        let v = table.slots[x + o.0][y + o.1][z + o.2][o.3];
        proof {
            let s = slot(x + o.0, y + o.1, z + o.2, o.3 as int);
            assert(s.in_lattice(table.split as int));
            assert(v == table.id_at(s));
        }
        r.push(v);
        assert(r@ =~= table.cell_crossings(x as int, y as int, z as int).take(i + 1));
    }
    assert(r@ =~= table.cell_crossings(x as int, y as int, z as int));
    r
}

/// Segments on the faces of tetrahedron `b`, given the crossing slots `c`.
fn body_edge_list(c: &Vec<Option<usize>>, b: usize, bound: Ghost<int>) -> (r: Vec<(usize, usize)>)
    requires
        c@.len() == CELL_SLOTS,
        b < CELL_BODIES,
        forall|i: int| 0 <= i < c@.len() && (#[trigger] c@[i]) is Some ==> c@[i]->Some_0 < bound@,
    ensures
        r@ == body_edges_of(c@, b as int),
        forall|k: int| 0 <= k < r@.len() ==> #[trigger] r@[k].0 < bound@ && r@[k].1 < bound@,
{
    let q = body_face_quad(b);
    let faces = [q.0, q.1, q.2, q.3];
    let ghost opts = seq![
        face_edge_of(c@, q.0 as int),
        face_edge_of(c@, q.1 as int),
        face_edge_of(c@, q.2 as int),
        face_edge_of(c@, q.3 as int),
    ];
    let mut r: Vec<(usize, usize)> = Vec::new();
    assert(opts.take(0) =~= Seq::<Option<(usize, usize)>>::empty());
    for k in 0..4
        invariant
            c@.len() == CELL_SLOTS,
            q == body_faces(b as int),
            faces@ == seq![q.0, q.1, q.2, q.3],
            opts.len() == 4,
            forall|j: int| 0 <= j < 4 ==> #[trigger] opts[j] == face_edge_of(c@, faces@[j] as int),
            forall|i: int| 0 <= i < c@.len() && (#[trigger] c@[i]) is Some ==> c@[i]->Some_0 < bound@,
            r@ == present(opts.take(k as int)),
            forall|j: int| 0 <= j < r@.len() ==> #[trigger] r@[j].0 < bound@ && r@[j].1 < bound@,
    {
        let f = faces[k];
        let e = face_edge(c, f, bound);
        assert(opts.take(k + 1).drop_last() =~= opts.take(k as int));
        if let Some(seg) = e {
            r.push(seg);
        }
    }
    assert(opts.take(4) =~= opts);
    r
}

/// Joining two triangle lists whose ids are below `n` keeps them below `n`.
proof fn lemma_below_concat(a: Seq<Triangle>, b: Seq<Triangle>, n: int)
    requires
        triangles_below(a, n),
        triangles_below(b, n),
    ensures
        triangles_below(a + b, n),
{
    assert forall|k: int| 0 <= k < (a + b).len() implies #[trigger] (a + b)[k].0 < n && (a
        + b)[k].1 < n && (a + b)[k].2 < n by {
        if k < a.len() {
            assert((a + b)[k] == a[k]);
            assert(a[k].0 < n && a[k].1 < n && a[k].2 < n);
        } else {
            let j = k - a.len();
            assert((a + b)[k] == b[j]);
            assert(b[j].0 < n && b[j].1 < n && b[j].2 < n);
        }
    }
}

/// Appends the triangles of cell `(x, y, z)` to `tris`.
fn append_cell(table: &CrossingTable, x: usize, y: usize, z: usize, tris: &mut Vec<Triangle>)
    requires
        table.wf(),
        x < table.split,
        y < table.split,
        z < table.split,
        triangles_below(old(tris)@, table.vertex_count() as int),
    ensures
        final(tris)@ == old(tris)@ + table.cell_triangles(x as int, y as int, z as int, CELL_BODIES as int),
        triangles_below(final(tris)@, table.vertex_count() as int),
{
    let ghost n = table.vertex_count() as int;
    let ghost start = tris@;
    let c = cell_crossing_list(table, x, y, z);
    proof {
        lemma_cell_crossings_distinct(table, x as int, y as int, z as int);
    }
    for b in 0..CELL_BODIES
        invariant
            table.wf(),
            x < table.split,
            y < table.split,
            z < table.split,
            n == table.vertex_count(),
            start == old(tris)@,
            c@ == table.cell_crossings(x as int, y as int, z as int),
            c@.len() == CELL_SLOTS,
            distinct_crossings(c@),
            forall|i: int| 0 <= i < c@.len() && (#[trigger] c@[i]) is Some ==> c@[i]->Some_0 < n,
            tris@ == start + table.cell_triangles(x as int, y as int, z as int, b as int),
            triangles_below(tris@, n),
    {
        let edges = body_edge_list(&c, b, Ghost(n));
        let ghost before = tris@;
        let ghost body = table.body_triangles(x as int, y as int, z as int, b as int);
        assert(edges@ == table.body_edges(x as int, y as int, z as int, b as int));
        if edges.len() >= 3 {
            let lp = assemble_loop(&edges);
            proof {
                lemma_loop_below(edges@, n);
                lemma_body_regular(c@, b as int);
            }
            if let Some(ts) = triangulate_loop(&lp) {
                assert(ts@ == body);
                assert(triangles_below(ts@, n));
                let mut ts = ts;
                tris.append(&mut ts);
                proof {
                    lemma_below_concat(before, body, n);
                }
            }
        } else {
            assert(body == Seq::<Triangle>::empty());
            assert(tris@ =~= before + body);
        }
        proof {
            vstd::seq_lib::lemma_concat_associative(
                start,
                table.cell_triangles(x as int, y as int, z as int, b as int),
                body,
            );
            assert(table.cell_triangles(x as int, y as int, z as int, b + 1) == table.cell_triangles(
                x as int,
                y as int,
                z as int,
                b as int,
            ) + body);
        }
    }
}

/// Appends the triangles of the cells `(x, y, 0..split)`.
fn append_row(table: &CrossingTable, x: usize, y: usize, tris: &mut Vec<Triangle>)
    requires
        table.wf(),
        x < table.split,
        y < table.split,
        triangles_below(old(tris)@, table.vertex_count() as int),
    ensures
        final(tris)@ == old(tris)@ + table.row_triangles(x as int, y as int, table.split as int),
        triangles_below(final(tris)@, table.vertex_count() as int),
{
    let n = table.split;
    let ghost start = tris@;
    for z in 0..n
        invariant
            table.wf(),
            n == table.split,
            x < n,
            y < n,
            start == old(tris)@,
            tris@ == start + table.row_triangles(x as int, y as int, z as int),
            triangles_below(tris@, table.vertex_count() as int),
    {
        append_cell(table, x, y, z, tris);
        proof {
            let cell = table.cell_triangles(x as int, y as int, z as int, CELL_BODIES as int);
            vstd::seq_lib::lemma_concat_associative(
                start,
                table.row_triangles(x as int, y as int, z as int),
                cell,
            );
            assert(table.row_triangles(x as int, y as int, z + 1) == table.row_triangles(
                x as int,
                y as int,
                z as int,
            ) + cell);
        }
    }
}

/// Appends the triangles of the cells `(x, _, _)`.
fn append_slab(table: &CrossingTable, x: usize, tris: &mut Vec<Triangle>)
    requires
        table.wf(),
        x < table.split,
        triangles_below(old(tris)@, table.vertex_count() as int),
    ensures
        final(tris)@ == old(tris)@ + table.slab_triangles(x as int, table.split as int),
        triangles_below(final(tris)@, table.vertex_count() as int),
{
    let n = table.split;
    let ghost start = tris@;
    for y in 0..n
        invariant
            table.wf(),
            n == table.split,
            x < n,
            start == old(tris)@,
            tris@ == start + table.slab_triangles(x as int, y as int),
            triangles_below(tris@, table.vertex_count() as int),
    {
        append_row(table, x, y, tris);
        proof {
            let row = table.row_triangles(x as int, y as int, n as int);
            vstd::seq_lib::lemma_concat_associative(start, table.slab_triangles(x as int, y as int), row);
            assert(table.slab_triangles(x as int, y + 1) == table.slab_triangles(x as int, y as int)
                + row);
        }
    }
}

/// Tessellates every cell of the lattice, in lexicographic cell order, into
/// one triangle soup over the crossing vertices. Every tetrahedron yields
/// nothing, one triangle or a split quad (see `lemma_loops_regular`).
pub fn tessellate(table: &CrossingTable) -> (r: Vec<Triangle>)
    requires
        table.wf(),
    ensures
        r@ == table.triangles(),
        triangles_below(r@, table.vertex_count() as int),
{
    let n = table.split;
    let mut tris: Vec<Triangle> = Vec::new();
    for x in 0..n
        invariant
            table.wf(),
            n == table.split,
            tris@ == table.block_triangles(x as int),
            triangles_below(tris@, table.vertex_count() as int),
    {
        append_slab(table, x, &mut tris);
        assert(table.block_triangles(x + 1) == table.block_triangles(x as int) + table.slab_triangles(
            x as int,
            n as int,
        ));
    }
    tris
}

/// The nineteen slots of a cell are nineteen different lattice edges.
proof fn lemma_cell_slots_distinct(i: int, j: int)
    requires
        0 <= i < CELL_SLOTS,
        0 <= j < CELL_SLOTS,
        i != j,
    ensures
        cell_slot(i) != cell_slot(j),
{
}

/// In a well-formed table, the crossing ids of a cell are distinct.
proof fn lemma_cell_crossings_distinct(table: &CrossingTable, x: int, y: int, z: int)
    requires
        table.wf(),
        0 <= x < table.split,
        0 <= y < table.split,
        0 <= z < table.split,
    ensures
        distinct_crossings(table.cell_crossings(x, y, z)),
{
    let c = table.cell_crossings(x, y, z);
    assert forall|i: int, j: int|
        0 <= i < c.len() && 0 <= j < c.len() && i != j && (#[trigger] c[i]) is Some && (
        #[trigger] c[j]) is Some implies c[i] != c[j] by {
        let oi = cell_slot(i);
        let oj = cell_slot(j);
        let si = slot(x + oi.0, y + oi.1, z + oi.2, oi.3 as int);
        let sj = slot(x + oj.0, y + oj.1, z + oj.2, oj.3 as int);
        assert(si.in_lattice(table.split as int));
        assert(sj.in_lattice(table.split as int));
        assert(c[i] == table.id_at(si));
        assert(c[j] == table.id_at(sj));
        lemma_cell_slots_distinct(i, j);
        if c[i] == c[j] {
            assert(si == sj);
        }
    }
}

/// Every tetrahedron of a well-formed table yields nothing, a triangle or a
/// quad: the rule for other loop lengths is never needed.
pub proof fn lemma_loops_regular(table: &CrossingTable)
    requires
        table.wf(),
    ensures
        table.loops_regular(),
{
    assert forall|x: int, y: int, z: int|
        0 <= x < table.split && 0 <= y < table.split && 0 <= z < table.split implies #[trigger] table.cell_regular(
        x,
        y,
        z,
    ) by {
        lemma_cell_crossings_distinct(table, x, y, z);
        assert forall|b: int| 0 <= b < CELL_BODIES implies #[trigger] table.body_regular(x, y, z, b) by {
            lemma_body_regular(table.cell_crossings(x, y, z), b);
        }
    }
}

/// The crossing ids of a cell are pairwise distinct.
pub open spec fn distinct_crossings(c: Seq<Option<usize>>) -> bool {
    forall|i: int, j: int|
        0 <= i < c.len() && 0 <= j < c.len() && i != j && (#[trigger] c[i]) is Some && (#[trigger] c[j]) is Some
            ==> c[i] != c[j]
}

/// Six crossing slots of a cell hold pairwise distinct ids, where present.
proof fn lemma_six_distinct(c: Seq<Option<usize>>, k: (int, int, int, int, int, int))
    requires
        c.len() == CELL_SLOTS,
        distinct_crossings(c),
        0 <= k.0 < k.1 < k.2 < k.3 < k.4 < k.5 < CELL_SLOTS,
    ensures
        c[k.0] is None || (c[k.0] != c[k.1] && c[k.0] != c[k.2] && c[k.0] != c[k.3] && c[k.0] != c[k.4]
            && c[k.0] != c[k.5]),
        c[k.1] is None || (c[k.1] != c[k.2] && c[k.1] != c[k.3] && c[k.1] != c[k.4] && c[k.1] != c[k.5]),
        c[k.2] is None || (c[k.2] != c[k.3] && c[k.2] != c[k.4] && c[k.2] != c[k.5]),
        c[k.3] is None || (c[k.3] != c[k.4] && c[k.3] != c[k.5]),
        c[k.4] is None || c[k.4] != c[k.5],
{
}

/// With distinct crossing ids, every tetrahedron of a cell either has
/// fewer than three segments or chains them into a triangle or a quad.
#[verifier::rlimit(100)]
pub proof fn lemma_body_regular(c: Seq<Option<usize>>, b: int)
    requires
        c.len() == CELL_SLOTS,
        distinct_crossings(c),
        0 <= b < CELL_BODIES,
    ensures
        body_edges_of(c, b).len() < 3 || regular_loop(loop_of(body_edges_of(c, b))),
{
    reveal_with_fuel(present, 5);
    reveal_with_fuel(chain, 4);
    reveal_with_fuel(next_link, 4);
    if b == 0 {
        lemma_six_distinct(c, (2, 4, 6, 14, 15, 17));
    } else if b == 1 {
        lemma_six_distinct(c, (1, 4, 6, 11, 12, 17));
    } else if b == 2 {
        lemma_six_distinct(c, (1, 3, 6, 10, 12, 16));
    } else if b == 3 {
        lemma_six_distinct(c, (0, 3, 6, 7, 9, 16));
    } else if b == 4 {
        lemma_six_distinct(c, (0, 5, 6, 8, 9, 18));
    } else {
        lemma_six_distinct(c, (2, 5, 6, 13, 15, 18));
    }
}

} // verus!
