//! Half-edge topology built from a triangle soup, held in index arenas.
//!
//! Triangle `t` owns the half-edges `3t`, `3t + 1` and `3t + 2`, which start
//! at its first, second and third vertex and follow one another around the
//! triangle. Two half-edges are paired when they join the same two vertices
//! in opposite directions; positions are not stored here, a vertex is its
//! index in the caller's position list.
use vstd::prelude::*;

use std::collections::HashMap;

use crate::cell::Triangle;
use crate::MeshError;

verus! {

broadcast use vstd::std_specs::hash::group_hash_axioms;

/// One directed edge of a face boundary.
#[derive(Clone, Copy, Debug, PartialEq, Eq, Structural)]
pub struct HalfEdge {
    /// The vertex the half-edge starts at.
    pub origin: usize,
    /// The following half-edge around the same face.
    pub next: usize,
    /// The oppositely directed half-edge over the same two vertices, if any.
    pub pair: Option<usize>,
    /// The face the half-edge bounds.
    pub face: usize,
}

/// A half-edge mesh over the vertices `0..vertex_edges.len()`.
///
/// `vertex_edges[v]` is a half-edge starting at `v`, used as a traversal
/// seed; `faces[f]` is one half-edge on the boundary of face `f`.
#[derive(Debug)]
pub struct HalfEdgeMesh {
    pub vertex_edges: Vec<Option<usize>>,
    pub edges: Vec<HalfEdge>,
    pub faces: Vec<usize>,
}

/// Vertex `k` (0, 1 or 2) of triangle `t`.
pub open spec fn corner(t: Triangle, k: int) -> usize {
    if k == 0 {
        t.0
    } else if k == 1 {
        t.1
    } else {
        t.2
    }
}

/// Origin of half-edge `e` of the soup `tris`.
pub open spec fn he_origin(tris: Seq<Triangle>, e: int) -> usize {
    corner(tris[e / 3], e % 3)
}

/// Half-edge following `e` around its triangle.
pub open spec fn he_next(e: int) -> int {
    e - e % 3 + (e % 3 + 1) % 3
}

/// Vertex at which half-edge `e` of the soup `tris` ends.
pub open spec fn he_target(tris: Seq<Triangle>, e: int) -> usize {
    he_origin(tris, he_next(e))
}

/// Half-edges `f` and `e` go from the same vertex to the same vertex.
pub open spec fn same_direction(tris: Seq<Triangle>, f: int, e: int) -> bool {
    he_origin(tris, f) == he_origin(tris, e) && he_target(tris, f) == he_target(tris, e)
}

/// No earlier half-edge of the soup goes from the same vertex to the same vertex.
pub open spec fn first_of_kind(tris: Seq<Triangle>, e: int) -> bool {
    forall|f: int| 0 <= f < e ==> !#[trigger] same_direction(tris, f, e)
}

/// Half-edges `e` and `c` are paired: they are distinct, each is the first
/// of its direction, and they join the same two vertices in opposite
/// directions.
pub open spec fn twins(tris: Seq<Triangle>, e: int, c: int) -> bool {
    &&& e != c
    &&& first_of_kind(tris, e)
    &&& first_of_kind(tris, c)
    &&& he_origin(tris, c) == he_target(tris, e)
    &&& he_target(tris, c) == he_origin(tris, e)
}

/// Half-edge `e` is the first one that starts at `v`.
pub open spec fn first_from(tris: Seq<Triangle>, v: int, e: int) -> bool {
    he_origin(tris, e) == v && forall|f: int| 0 <= f < e ==> #[trigger] he_origin(tris, f) != v
}

/// Every triangle names vertices below `n` only.
pub open spec fn soup_in_range(tris: Seq<Triangle>, n: int) -> bool {
    forall|t: int| 0 <= t < tris.len() ==> (#[trigger] tris[t]).0 < n && tris[t].1 < n && tris[t].2 < n
}

/// Key of the directed vertex pair `(a, b)` in the pairing map.
pub open spec fn direction_key(a: usize, b: usize) -> u128 {
    (a as int * 0x1_0000_0000_0000_0000 + b as int) as u128
}

/// Key of the direction of half-edge `e`.
pub open spec fn he_key(tris: Seq<Triangle>, e: int) -> u128 {
    direction_key(he_origin(tris, e), he_target(tris, e))
}

/// Direction keys fit in `u128` and tell directions apart.
proof fn lemma_direction_key(a: usize, b: usize, c: usize, d: usize)
    ensures
        direction_key(a, b) == a as int * 0x1_0000_0000_0000_0000 + b as int,
        direction_key(a, b) == direction_key(c, d) ==> a == c && b == d,
{
    assert(a as int * 0x1_0000_0000_0000_0000 + b as int <= u128::MAX) by (nonlinear_arith)
        requires
            a <= u64::MAX,
            b <= u64::MAX,
    ;
    assert(c as int * 0x1_0000_0000_0000_0000 + d as int <= u128::MAX) by (nonlinear_arith)
        requires
            c <= u64::MAX,
            d <= u64::MAX,
    ;
    if direction_key(a, b) == direction_key(c, d) {
        assert(a == c && b == d) by (nonlinear_arith)
            requires
                a as int * 0x1_0000_0000_0000_0000 + b as int == c as int * 0x1_0000_0000_0000_0000
                    + d as int,
                0 <= b <= u64::MAX,
                0 <= d <= u64::MAX,
                0 <= a,
                0 <= c,
        ;
    }
}

fn make_direction_key(a: usize, b: usize) -> (r: u128)
    ensures
        r == direction_key(a, b),
{
    proof {
        lemma_direction_key(a, b, a, b);
    }
    (a as u128) * 0x1_0000_0000_0000_0000u128 + (b as u128)
}

impl HalfEdgeMesh {
    /// Number of vertices.
    pub open spec fn n_vertices(&self) -> nat {
        self.vertex_edges@.len()
    }

    /// Number of half-edges.
    pub open spec fn n_half_edges(&self) -> nat {
        self.edges@.len()
    }

    /// Number of faces.
    pub open spec fn n_faces(&self) -> nat {
        self.faces@.len()
    }

    /// Vertex at which half-edge `e` ends.
    pub open spec fn target(&self, e: int) -> usize {
        self.edges@[self.edges@[e].next as int].origin
    }

    /// The structural invariants of a half-edge mesh: every index is in
    /// range, `next` closes each face after three steps, pairing is an
    /// involution between opposite half-edges, and every seed and face
    /// entry points at a half-edge of its own.
    pub open spec fn wf(&self) -> bool {
        &&& forall|e: int|
            0 <= e < self.edges@.len() ==> {
                let h = #[trigger] self.edges@[e];
                &&& h.origin < self.n_vertices()
                &&& h.next < self.edges@.len()
                &&& h.face < self.faces@.len()
                &&& self.edges@[h.next as int].next < self.edges@.len()
                &&& self.edges@[self.edges@[self.edges@[h.next as int].next as int].next as int]
                    == h
                &&& self.edges@[h.next as int].face == h.face
            }
        &&& forall|e: int|
            0 <= e < self.edges@.len() && (#[trigger] self.edges@[e]).pair is Some ==> {
                let c = self.edges@[e].pair->Some_0 as int;
                &&& 0 <= c < self.edges@.len()
                &&& c != e
                &&& self.edges@[c].pair == Some(e as usize)
                &&& self.edges@[c].origin == self.target(e)
                &&& self.target(c) == self.edges@[e].origin
            }
        &&& forall|f: int|
            0 <= f < self.faces@.len() ==> {
                let e = #[trigger] self.faces@[f];
                e < self.edges@.len() && self.edges@[e as int].face == f
            }
        &&& forall|v: int|
            0 <= v < self.vertex_edges@.len() && (#[trigger] self.vertex_edges@[v]) is Some ==> {
                let e = self.vertex_edges@[v]->Some_0;
                e < self.edges@.len() && self.edges@[e as int].origin == v
            }
    }

    /// This mesh is the one built from `n` vertices and the soup `tris`.
    pub open spec fn built_from(&self, n: nat, tris: Seq<Triangle>) -> bool {
        &&& self.vertex_edges@.len() == n
        &&& self.edges@.len() == 3 * tris.len()
        &&& self.faces@.len() == tris.len()
        &&& forall|e: int|
            0 <= e < 3 * tris.len() ==> {
                let h = #[trigger] self.edges@[e];
                &&& h.origin == he_origin(tris, e)
                &&& h.next == he_next(e)
                &&& h.face == e / 3
                &&& h.pair is Some ==> h.pair->Some_0 < 3 * tris.len()
            }
        &&& forall|e: int, c: int|
            0 <= e < 3 * tris.len() && 0 <= c < 3 * tris.len() ==> ((#[trigger] self.edges@[e]).pair
                == Some(c as usize) <==> #[trigger] twins(tris, e, c))
        &&& forall|f: int| 0 <= f < tris.len() ==> #[trigger] self.faces@[f] == 3 * f
        &&& forall|v: int|
            0 <= v < n ==> match #[trigger] self.vertex_edges@[v] {
                Some(e) => e < 3 * tris.len() && first_from(tris, v, e as int),
                None => forall|e: int| 0 <= e < 3 * tris.len() ==> he_origin(tris, e) != v,
            }
    }
}

/// Half-edge `e` of a soup, before pairing.
pub open spec fn unpaired_half_edge(tris: Seq<Triangle>, e: int) -> HalfEdge {
    HalfEdge {
        origin: he_origin(tris, e),
        next: he_next(e) as usize,
        pair: None,
        face: (e / 3) as usize,
    }
}

/// Half-edge `3t + k` is corner `k` of triangle `t`.
proof fn lemma_triangle_slots(t: int, k: int)
    requires
        0 <= k < 3,
    ensures
        (3 * t + k) / 3 == t,
        (3 * t + k) % 3 == k,
{
    assert((3 * t + k) / 3 == t && (3 * t + k) % 3 == k) by (nonlinear_arith)
        requires
            0 <= k < 3,
    ;
}

/// The three half-edges and the face of every triangle, not yet paired.
fn build_cycles(tris: &Vec<Triangle>) -> (r: (Vec<HalfEdge>, Vec<usize>))
    requires
        3 * tris@.len() <= usize::MAX,
    ensures
        r.0@.len() == 3 * tris@.len(),
        forall|e: int| 0 <= e < 3 * tris@.len() ==> #[trigger] r.0@[e] == unpaired_half_edge(tris@, e),
        r.1@.len() == tris@.len(),
        forall|f: int| 0 <= f < tris@.len() ==> #[trigger] r.1@[f] == 3 * f,
{
    let mut edges: Vec<HalfEdge> = Vec::new();
    let mut faces: Vec<usize> = Vec::new();
    for t in 0..tris.len()
        invariant
            3 * tris@.len() <= usize::MAX,
            edges@.len() == 3 * t,
            forall|e: int| 0 <= e < 3 * t ==> #[trigger] edges@[e] == unpaired_half_edge(tris@, e),
            faces@.len() == t,
            forall|f: int| 0 <= f < t ==> #[trigger] faces@[f] == 3 * f,
    {
        let tri = tris[t];
        let base = 3 * t;
        proof {
            lemma_triangle_slots(t as int, 0);
            lemma_triangle_slots(t as int, 1);
            lemma_triangle_slots(t as int, 2);
        }
        edges.push(HalfEdge { origin: tri.0, next: base + 1, pair: None, face: t });
        edges.push(HalfEdge { origin: tri.1, next: base + 2, pair: None, face: t });
        edges.push(HalfEdge { origin: tri.2, next: base, pair: None, face: t });
        faces.push(base);
        assert forall|e: int| 0 <= e < 3 * (t + 1) implies #[trigger] edges@[e] == unpaired_half_edge(
            tris@,
            e,
        ) by {
            if e >= 3 * t {
                assert(tris@[e / 3] == tri);
            }
        }
    }
    (edges, faces)
}

/// The traversal seed of every vertex: the first half-edge starting there.
fn seed_vertices(n: usize, tris: &Vec<Triangle>, edges: &Vec<HalfEdge>) -> (r: Vec<Option<usize>>)
    requires
        soup_in_range(tris@, n as int),
        edges@.len() == 3 * tris@.len(),
        forall|e: int| 0 <= e < 3 * tris@.len() ==> #[trigger] edges@[e].origin == he_origin(tris@, e),
    ensures
        r@.len() == n,
        forall|v: int|
            0 <= v < n ==> match #[trigger] r@[v] {
                Some(e) => e < 3 * tris@.len() && first_from(tris@, v, e as int),
                None => forall|e: int| 0 <= e < 3 * tris@.len() ==> he_origin(tris@, e) != v,
            },
{
    let mut seeds: Vec<Option<usize>> = Vec::new();
    for v in 0..n
        invariant
            seeds@.len() == v,
            forall|w: int| 0 <= w < v ==> #[trigger] seeds@[w] is None,
    {
        seeds.push(None);
    }
    for e in 0..edges.len()
        invariant
            soup_in_range(tris@, n as int),
            edges@.len() == 3 * tris@.len(),
            forall|f: int| 0 <= f < 3 * tris@.len() ==> #[trigger] edges@[f].origin == he_origin(tris@, f),
            seeds@.len() == n,
            forall|v: int|
                0 <= v < n ==> match #[trigger] seeds@[v] {
                    Some(f) => f < e && first_from(tris@, v, f as int),
                    None => forall|f: int| 0 <= f < e ==> he_origin(tris@, f) != v,
                },
    {
        let v = edges[e].origin;
        proof {
            lemma_origin_in_range(tris@, n as int, e as int);
        }
        if seeds[v].is_none() {
            seeds[v] = Some(e);
        }
    }
    seeds
}

/// Every half-edge of a soup in range starts at a vertex in range.
proof fn lemma_origin_in_range(tris: Seq<Triangle>, n: int, e: int)
    requires
        soup_in_range(tris, n),
        0 <= e < 3 * tris.len(),
    ensures
        he_origin(tris, e) < n,
{
    let t = e / 3;
    assert(0 <= t < tris.len());
    assert(tris[t].0 < n && tris[t].1 < n && tris[t].2 < n);
}

/// The half-edges of `soup` keep their place in their triangle, and only
/// half-edges before `e` are paired yet.
spec fn cycles_kept(soup: Seq<Triangle>, es: Seq<HalfEdge>, e: int) -> bool {
    &&& es.len() == 3 * soup.len()
    &&& forall|f: int|
        0 <= f < es.len() ==> {
            let h = #[trigger] es[f];
            &&& h.origin == he_origin(soup, f)
            &&& h.next == he_next(f)
            &&& h.face == f / 3
            &&& h.pair is Some ==> h.pair->Some_0 < e
        }
}

/// Among the half-edges before `e`, exactly the twins are paired.
spec fn twins_linked(soup: Seq<Triangle>, es: Seq<HalfEdge>, e: int) -> bool {
    &&& forall|f: int|
        0 <= f < es.len() && (#[trigger] es[f]).pair is Some ==> {
            let c = es[f].pair->Some_0 as int;
            f < e && c < e && twins(soup, f, c)
        }
    &&& forall|f: int, c: int|
        0 <= f < e && 0 <= c < e && #[trigger] twins(soup, f, c) ==> es[f].pair == Some(c as usize)
}

/// The map holds, for each direction taken before `e`, the first
/// half-edge that takes it.
spec fn firsts_known(soup: Seq<Triangle>, m: Map<u128, usize>, e: int) -> bool {
    &&& forall|k: u128|
        #[trigger] m.contains_key(k) ==> {
            let g = m[k] as int;
            &&& 0 <= g < e
            &&& he_key(soup, g) == k
            &&& first_of_kind(soup, g)
        }
    &&& forall|f: int| 0 <= f < e ==> m.contains_key(#[trigger] he_key(soup, f))
}

/// Step of `pair_edges` on a half-edge whose direction was taken before.
proof fn lemma_pair_step_repeat(soup: Seq<Triangle>, es: Seq<HalfEdge>, m: Map<u128, usize>, e: int)
    requires
        0 <= e < 3 * soup.len(),
        3 * soup.len() <= usize::MAX,
        cycles_kept(soup, es, e),
        twins_linked(soup, es, e),
        firsts_known(soup, m, e),
        m.contains_key(he_key(soup, e)),
    ensures
        cycles_kept(soup, es, e + 1),
        twins_linked(soup, es, e + 1),
        firsts_known(soup, m, e + 1),
{
    let ka = he_key(soup, e);
    let g = m[ka] as int;
    lemma_direction_key(he_origin(soup, e), he_target(soup, e), he_origin(soup, g), he_target(soup, g));
    assert(same_direction(soup, g, e));
    assert(!first_of_kind(soup, e));
    assert forall|f: int, c: int|
        0 <= f < e + 1 && 0 <= c < e + 1 && #[trigger] twins(soup, f, c) implies es[f].pair == Some(
        c as usize,
    ) by {
        if f == e || c == e {
            assert(!twins(soup, f, c));
        }
    }
}

/// Step of `pair_edges` on the first half-edge of its direction, when the
/// opposite direction has not been taken yet.
proof fn lemma_pair_step_alone(soup: Seq<Triangle>, es: Seq<HalfEdge>, m: Map<u128, usize>, e: int)
    requires
        0 <= e < 3 * soup.len(),
        3 * soup.len() <= usize::MAX,
        cycles_kept(soup, es, e),
        twins_linked(soup, es, e),
        firsts_known(soup, m, e),
        !m.contains_key(he_key(soup, e)),
        !m.contains_key(direction_key(he_target(soup, e), he_origin(soup, e))),
    ensures
        cycles_kept(soup, es, e + 1),
        twins_linked(soup, es, e + 1),
        firsts_known(soup, m.insert(he_key(soup, e), e as usize), e + 1),
{
    let a = he_origin(soup, e);
    let b = he_target(soup, e);
    let ka = direction_key(a, b);
    lemma_first_when_new(soup, m, e);
    assert forall|d: int| 0 <= d < e implies !#[trigger] twins(soup, e, d) by {
        if twins(soup, e, d) {
            assert(m.contains_key(he_key(soup, d)));
        }
    }
    assert forall|f: int, c: int|
        0 <= f < e + 1 && 0 <= c < e + 1 && #[trigger] twins(soup, f, c) implies es[f].pair == Some(
        c as usize,
    ) by {
        if f == e {
            assert(!twins(soup, e, c));
        }
        if c == e {
            assert(!twins(soup, e, f));
        }
    }
    let m2 = m.insert(ka, e as usize);
    assert forall|k: u128| #[trigger] m2.contains_key(k) implies {
        let g = m2[k] as int;
        &&& 0 <= g < e + 1
        &&& he_key(soup, g) == k
        &&& first_of_kind(soup, g)
    } by {
        if k != ka {
            assert(m.contains_key(k));
        }
    }
}

/// A half-edge whose direction the map does not know is the first of it.
proof fn lemma_first_when_new(soup: Seq<Triangle>, m: Map<u128, usize>, e: int)
    requires
        firsts_known(soup, m, e),
        !m.contains_key(he_key(soup, e)),
    ensures
        first_of_kind(soup, e),
{
    assert forall|f: int| 0 <= f < e implies !#[trigger] same_direction(soup, f, e) by {
        assert(m.contains_key(he_key(soup, f)));
        lemma_direction_key(he_origin(soup, e), he_target(soup, e), he_origin(soup, f), he_target(soup, f));
    }
}

/// Step of `pair_edges` on the first half-edge of its direction, when the
/// half-edge `c` took the opposite direction first.
proof fn lemma_pair_step_link(
    soup: Seq<Triangle>,
    es: Seq<HalfEdge>,
    m: Map<u128, usize>,
    e: int,
    c: int,
)
    requires
        0 <= e < 3 * soup.len(),
        3 * soup.len() <= usize::MAX,
        cycles_kept(soup, es, e),
        twins_linked(soup, es, e),
        firsts_known(soup, m, e),
        !m.contains_key(he_key(soup, e)),
        m.contains_key(direction_key(he_target(soup, e), he_origin(soup, e))),
        m[direction_key(he_target(soup, e), he_origin(soup, e))] == c,
    ensures
        0 <= c < e,
        cycles_kept(
            soup,
            es.update(e, HalfEdge { pair: Some(c as usize), ..es[e] }).update(
                c,
                HalfEdge { pair: Some(e as usize), ..es[c] },
            ),
            e + 1,
        ),
        twins_linked(
            soup,
            es.update(e, HalfEdge { pair: Some(c as usize), ..es[e] }).update(
                c,
                HalfEdge { pair: Some(e as usize), ..es[c] },
            ),
            e + 1,
        ),
        firsts_known(soup, m.insert(he_key(soup, e), e as usize), e + 1),
{
    let a = he_origin(soup, e);
    let b = he_target(soup, e);
    let ka = direction_key(a, b);
    let kb = direction_key(b, a);
    lemma_first_when_new(soup, m, e);
    lemma_direction_key(b, a, he_origin(soup, c), he_target(soup, c));
    assert(twins(soup, e, c));
    assert(twins(soup, c, e));
    assert forall|d: int| 0 <= d < es.len() && #[trigger] twins(soup, e, d) implies d == c by {
        if d < c {
            assert(!same_direction(soup, d, c));
        } else if d > c {
            assert(!same_direction(soup, c, d));
        }
    }
    assert forall|d: int| 0 <= d < e implies !#[trigger] twins(soup, c, d) by {
        if twins(soup, c, d) {
            assert(m.contains_key(he_key(soup, d)));
        }
    }
    let es2 = es.update(e, HalfEdge { pair: Some(c as usize), ..es[e] }).update(
        c,
        HalfEdge { pair: Some(e as usize), ..es[c] },
    );
    assert forall|f: int|
        0 <= f < es2.len() && (#[trigger] es2[f]).pair is Some implies {
        let d = es2[f].pair->Some_0 as int;
        f < e + 1 && d < e + 1 && twins(soup, f, d)
    } by {
        if f != e && f != c {
            assert(es2[f] == es[f]);
        }
    }
    assert forall|f: int, d: int|
        0 <= f < e + 1 && 0 <= d < e + 1 && #[trigger] twins(soup, f, d) implies es2[f].pair == Some(
        d as usize,
    ) by {
        if f == e {
        } else if f == c {
            if d < e {
                assert(!twins(soup, c, d));
            }
        } else {
            assert(es2[f] == es[f]);
            if d == e {
                assert(twins(soup, e, f));
            }
        }
    }
    let m2 = m.insert(ka, e as usize);
    assert forall|k: u128| #[trigger] m2.contains_key(k) implies {
        let g = m2[k] as int;
        &&& 0 <= g < e + 1
        &&& he_key(soup, g) == k
        &&& first_of_kind(soup, g)
    } by {
        if k != ka {
            assert(m.contains_key(k));
        }
    }
}

/// Links every pair of twin half-edges (see `twins`), using a map from
/// each direction `(origin, target)` to the first half-edge that takes it.
fn pair_edges(tris: &Vec<Triangle>, edges: &mut Vec<HalfEdge>)
    requires
        3 * tris@.len() <= usize::MAX,
        old(edges)@.len() == 3 * tris@.len(),
        forall|e: int| 0 <= e < 3 * tris@.len() ==> #[trigger] old(edges)@[e] == unpaired_half_edge(tris@, e),
    ensures
        final(edges)@.len() == 3 * tris@.len(),
        forall|e: int|
            0 <= e < 3 * tris@.len() ==> {
                let h = #[trigger] final(edges)@[e];
                &&& h.origin == he_origin(tris@, e)
                &&& h.next == he_next(e)
                &&& h.face == e / 3
                &&& h.pair is Some ==> h.pair->Some_0 < 3 * tris@.len()
            },
        forall|e: int, c: int|
            0 <= e < 3 * tris@.len() && 0 <= c < 3 * tris@.len() ==> ((#[trigger] final(edges)@[e]).pair
                == Some(c as usize) <==> #[trigger] twins(tris@, e, c)),
{
    let total = edges.len();
    let ghost soup = tris@;
    let mut firsts: HashMap<u128, usize> = HashMap::new();
    assert(firsts_known(soup, firsts@, 0));
    for e in 0..total
        invariant
            total == 3 * soup.len(),
            soup == tris@,
            cycles_kept(soup, edges@, e as int),
            twins_linked(soup, edges@, e as int),
            firsts_known(soup, firsts@, e as int),
    {
        let nx = edges[e].next;
        proof {
            lemma_next_in_range(soup, e as int);
        }
        let a = edges[e].origin;
        let b = edges[nx].origin;
        let ka = make_direction_key(a, b);
        if firsts.contains_key(&ka) {
            proof {
                lemma_pair_step_repeat(soup, edges@, firsts@, e as int);
            }
        } else {
            let kb = make_direction_key(b, a);
            match firsts.get(&kb) {
                Some(found) => {
                    let c = *found;
                    proof {
                        lemma_pair_step_link(soup, edges@, firsts@, e as int, c as int);
                    }
                    let h = edges[e];
                    edges[e] = HalfEdge { pair: Some(c), ..h };
                    let g = edges[c];
                    edges[c] = HalfEdge { pair: Some(e), ..g };
                },
                None => {
                    proof {
                        lemma_pair_step_alone(soup, edges@, firsts@, e as int);
                    }
                },
            }
            firsts.insert(ka, e);
        }
    }
}

/// The half-edge after `e` is a half-edge of the same soup.
proof fn lemma_next_in_range(tris: Seq<Triangle>, e: int)
    requires
        0 <= e < 3 * tris.len(),
    ensures
        0 <= he_next(e) < 3 * tris.len(),
        he_next(e) / 3 == e / 3,
        he_next(he_next(he_next(e))) == e,
{
    let t = e / 3;
    let k = e % 3;
    assert(e == 3 * t + k && 0 <= k < 3 && t < tris.len());
    lemma_triangle_slots(t, 0);
    lemma_triangle_slots(t, 1);
    lemma_triangle_slots(t, 2);
}

/// A mesh built from a soup whose vertices are in range is well formed.
proof fn lemma_built_wf(mesh: &HalfEdgeMesh, n: nat, tris: Seq<Triangle>)
    requires
        mesh.built_from(n, tris),
        soup_in_range(tris, n as int),
    ensures
        mesh.wf(),
{
    let es = mesh.edges@;
    assert forall|e: int| 0 <= e < es.len() implies {
        let h = #[trigger] es[e];
        &&& h.origin < mesh.n_vertices()
        &&& h.next < es.len()
        &&& h.face < mesh.faces@.len()
        &&& es[h.next as int].next < es.len()
        &&& es[es[es[h.next as int].next as int].next as int] == h
        &&& es[h.next as int].face == h.face
    } by {
        lemma_next_in_range(tris, e);
        lemma_next_in_range(tris, he_next(e));
        lemma_next_in_range(tris, he_next(he_next(e)));
        lemma_origin_in_range(tris, n as int, e);
        assert(es[he_next(e)].next == he_next(he_next(e)));
        assert(es[he_next(he_next(e))].next == he_next(he_next(he_next(e))));
    }
    assert forall|e: int| 0 <= e < es.len() && (#[trigger] es[e]).pair is Some implies {
        let c = es[e].pair->Some_0 as int;
        &&& 0 <= c < es.len()
        &&& c != e
        &&& es[c].pair == Some(e as usize)
        &&& es[c].origin == mesh.target(e)
        &&& mesh.target(c) == es[e].origin
    } by {
        let c = es[e].pair->Some_0 as int;
        assert(twins(tris, e, c));
        assert(twins(tris, c, e));
        lemma_next_in_range(tris, e);
        lemma_next_in_range(tris, c);
        assert(es[he_next(e)].origin == he_origin(tris, he_next(e)));
        assert(es[he_next(c)].origin == he_origin(tris, he_next(c)));
    }
    assert forall|f: int| 0 <= f < mesh.faces@.len() implies {
        let e = #[trigger] mesh.faces@[f];
        e < es.len() && es[e as int].face == f
    } by {
        lemma_triangle_slots(f, 0);
        assert(es[3 * f].face == (3 * f) / 3);
    }
}

impl HalfEdgeMesh {
    /// Builds the half-edge mesh of `n` vertices and the triangles `tris`.
    ///
    /// Triangle `t` becomes face `t` with the half-edges `3t`, `3t + 1`,
    /// `3t + 2`; twin half-edges (see `twins`) are paired, and each vertex's
    /// seed is the first half-edge that starts at it. Fails with
    /// `TooManyTriangles` when the half-edges could not all be indexed, and
    /// otherwise with `VertexOutOfRange` when a triangle names a vertex
    /// `n` or above.
    pub fn from_triangles(n: usize, tris: &Vec<Triangle>) -> (r: Result<HalfEdgeMesh, MeshError>)
        ensures
            3 * tris@.len() > usize::MAX ==> r == Err::<HalfEdgeMesh, MeshError>(
                MeshError::TooManyTriangles,
            ),
            3 * tris@.len() <= usize::MAX && !soup_in_range(tris@, n as int) ==> r == Err::<
                HalfEdgeMesh,
                MeshError,
            >(MeshError::VertexOutOfRange),
            3 * tris@.len() <= usize::MAX && soup_in_range(tris@, n as int) ==> r is Ok && r->Ok_0.built_from(
                n as nat,
                tris@,
            ) && r->Ok_0.wf(),
    {
        if tris.len() > usize::MAX / 3 {
            return Err(MeshError::TooManyTriangles);
        }
        let limit = usize::MAX / 3;
        assert(3 * tris@.len() <= usize::MAX) by (nonlinear_arith)
            requires
                tris@.len() <= limit,
                limit == usize::MAX / 3,
        ;
        for t in 0..tris.len()
            invariant
                3 * tris@.len() <= usize::MAX,
                forall|u: int| 0 <= u < t ==> (#[trigger] tris@[u]).0 < n && tris@[u].1 < n && tris@[u].2 < n,
        {
            let tri = tris[t];
            if tri.0 >= n || tri.1 >= n || tri.2 >= n {
                assert(!soup_in_range(tris@, n as int));
                return Err(MeshError::VertexOutOfRange);
            }
        }
        let (mut edges, faces) = build_cycles(tris);
        let vertex_edges = seed_vertices(n, tris, &edges);
        pair_edges(tris, &mut edges);
        let mesh = HalfEdgeMesh { vertex_edges, edges, faces };
        proof {
            lemma_built_wf(&mesh, n as nat, tris@);
        }
        Ok(mesh)
    }
}

/// Wireframe segments of the first `k` half-edges: `(origin, origin of the
/// pair)` for each paired half-edge, in half-edge order.
pub open spec fn segments_upto(es: Seq<HalfEdge>, k: int) -> Seq<(usize, usize)>
    decreases k,
{
    if k <= 0 {
        Seq::empty()
    } else {
        let prev = segments_upto(es, k - 1);
        match es[k - 1].pair {
            Some(c) => prev.push((es[k - 1].origin, es[c as int].origin)),
            None => prev,
        }
    }
}

/// The unpaired half-edges among the first `k`, in order.
pub open spec fn unpaired_upto(es: Seq<HalfEdge>, k: int) -> Seq<usize>
    decreases k,
{
    if k <= 0 {
        Seq::empty()
    } else {
        let prev = unpaired_upto(es, k - 1);
        if es[k - 1].pair is Some {
            prev
        } else {
            prev.push((k - 1) as usize)
        }
    }
}

impl HalfEdgeMesh {
    /// The vertices of face `f`, found by walking `next` from its seed.
    pub open spec fn face_walk(&self, f: int) -> Triangle {
        let e0 = self.faces@[f] as int;
        let e1 = self.edges@[e0].next as int;
        let e2 = self.edges@[e1].next as int;
        (self.edges@[e0].origin, self.edges@[e1].origin, self.edges@[e2].origin)
    }

    /// Number of vertices.
    pub fn vertex_count(&self) -> (r: usize)
        ensures
            r == self.n_vertices(),
    {
        self.vertex_edges.len()
    }

    /// Number of half-edges.
    pub fn half_edge_count(&self) -> (r: usize)
        ensures
            r == self.n_half_edges(),
    {
        self.edges.len()
    }

    /// Number of faces.
    pub fn face_count(&self) -> (r: usize)
        ensures
            r == self.n_faces(),
    {
        self.faces.len()
    }

    /// The pair of half-edge `e`, or `None` on a boundary or non-manifold edge.
    pub fn pair_of(&self, e: usize) -> (r: Option<usize>)
        requires
            e < self.n_half_edges(),
        ensures
            r == self.edges@[e as int].pair,
    {
        self.edges[e].pair
    }

    /// The vertex at which half-edge `e` ends.
    pub fn target_of(&self, e: usize) -> (r: usize)
        requires
            self.wf(),
            e < self.n_half_edges(),
        ensures
            r == self.target(e as int),
    {
        let nx = self.edges[e].next;
        self.edges[nx].origin
    }

    /// Segments for wireframe display: one per paired half-edge, from its
    /// origin to its pair's origin, in half-edge order. Unpaired half-edges
    /// are skipped; `unpaired_edges` lists them.
    pub fn edge_segments(&self) -> (r: Vec<(usize, usize)>)
        requires
            self.wf(),
        ensures
            r@ == segments_upto(self.edges@, self.edges@.len() as int),
    {
        let mut r: Vec<(usize, usize)> = Vec::new();
        for e in 0..self.edges.len()
            invariant
                self.wf(),
                r@ == segments_upto(self.edges@, e as int),
        {
            let h = self.edges[e];
            if let Some(c) = h.pair {
                r.push((h.origin, self.edges[c].origin));
            }
        }
        r
    }

    /// The half-edges without a pair, in order.
    pub fn unpaired_edges(&self) -> (r: Vec<usize>)
        ensures
            r@ == unpaired_upto(self.edges@, self.edges@.len() as int),
    {
        let mut r: Vec<usize> = Vec::new();
        for e in 0..self.edges.len()
            invariant
                r@ == unpaired_upto(self.edges@, e as int),
        {
            if self.edges[e].pair.is_none() {
                r.push(e);
            }
        }
        r
    }

    /// Whether every half-edge has a pair, that is, the mesh has no boundary.
    pub fn is_closed(&self) -> (r: bool)
        ensures
            r == forall|e: int| 0 <= e < self.edges@.len() ==> (#[trigger] self.edges@[e]).pair is Some,
    {
        for e in 0..self.edges.len()
            invariant
                forall|f: int| 0 <= f < e ==> (#[trigger] self.edges@[f]).pair is Some,
        {
            if self.edges[e].pair.is_none() {
                return false;
            }
        }
        true
    }

    /// The vertex loop of every face, in face order, each walked along
    /// `next` from the face's seed half-edge.
    pub fn face_loops(&self) -> (r: Vec<Triangle>)
        requires
            self.wf(),
        ensures
            r@.len() == self.n_faces(),
            forall|f: int| 0 <= f < r@.len() ==> #[trigger] r@[f] == self.face_walk(f),
    {
        let mut r: Vec<Triangle> = Vec::new();
        for f in 0..self.faces.len()
            invariant
                self.wf(),
                r@.len() == f,
                forall|g: int| 0 <= g < f ==> #[trigger] r@[g] == self.face_walk(g),
        {
            let e0 = self.faces[f];
            let e1 = self.edges[e0].next;
            let e2 = self.edges[e1].next;
            r.push((self.edges[e0].origin, self.edges[e1].origin, self.edges[e2].origin));
        }
        r
    }
}

/// Walking the faces of a mesh built from a triangle soup gives back the
/// soup: face `f` visits the vertices of triangle `f`, in their order.
pub proof fn lemma_face_loops_round_trip(mesh: &HalfEdgeMesh, n: nat, tris: Seq<Triangle>)
    requires
        mesh.built_from(n, tris),
    ensures
        forall|f: int| 0 <= f < tris.len() ==> #[trigger] mesh.face_walk(f) == tris[f],
{
    assert forall|f: int| 0 <= f < tris.len() implies #[trigger] mesh.face_walk(f) == tris[f] by {
        lemma_triangle_slots(f, 0);
        lemma_triangle_slots(f, 1);
        lemma_triangle_slots(f, 2);
        assert(mesh.faces@[f] == 3 * f);
        assert(mesh.edges@[3 * f].next == 3 * f + 1);
        assert(mesh.edges@[3 * f + 1].next == 3 * f + 2);
        assert(mesh.edges@[3 * f].origin == tris[f].0);
        assert(mesh.edges@[3 * f + 1].origin == tris[f].1);
        assert(mesh.edges@[3 * f + 2].origin == tris[f].2);
    }
}

} // verus!
