//! Topological operations on triangle-list index buffers: edges and
//! boundaries, winding, re-indexing for flat shading and welding, and the
//! vertex-to-triangle adjacency used to smooth normals.
//!
//! Triangle `t` of an index list `idx` is `idx[3t], idx[3t+1], idx[3t+2]`;
//! trailing indices that do not make up a whole triangle are ignored.
//! Its three edge slots are `r = 0: (idx[3t], idx[3t+1])`,
//! `r = 1: (idx[3t+1], idx[3t+2])` and `r = 2: (idx[3t+2], idx[3t])`.

use vstd::prelude::*;

verus! {

/// An undirected edge between two vertices, smaller index first.
#[derive(Clone, Copy, Debug, PartialEq, Eq, Hash, Structural)]
pub struct Edge(pub u32, pub u32);

/// The edge between `a` and `b`, whichever order they are given in.
pub open spec fn spec_edge(a: u32, b: u32) -> Edge {
    if a < b {
        Edge(a, b)
    } else {
        Edge(b, a)
    }
}

impl Edge {
    /// The edge between vertices `a` and `b`, smaller index first.
    pub fn new(a: u32, b: u32) -> (e: Edge)
        ensures
            e == spec_edge(a, b),
    {
        if a < b {
            Edge(a, b)
        } else {
            Edge(b, a)
        }
    }
}

/// An edge does not depend on the order of its two vertices; it names both
/// of them, and the smaller one first.
pub proof fn law_edge_unordered(a: u32, b: u32)
    ensures
        spec_edge(a, b) == spec_edge(b, a),
        spec_edge(a, b).0 <= spec_edge(a, b).1,
        (spec_edge(a, b).0 == a && spec_edge(a, b).1 == b) || (spec_edge(a, b).0 == b && spec_edge(
            a,
            b,
        ).1 == a),
{
}

/// Number of whole triangles of an index list.
pub open spec fn tri_count(idx: Seq<u32>) -> int {
    idx.len() as int / 3
}

/// Edge slot `r` of triangle `t` exists.
pub open spec fn valid_slot(idx: Seq<u32>, t: int, r: int) -> bool {
    0 <= t < tri_count(idx) && 0 <= r < 3
}

/// The edge in slot `r` of triangle `t`.
pub open spec fn slot_edge(idx: Seq<u32>, t: int, r: int) -> Edge {
    if r == 0 {
        spec_edge(idx[3 * t], idx[3 * t + 1])
    } else if r == 1 {
        spec_edge(idx[3 * t + 1], idx[3 * t + 2])
    } else {
        spec_edge(idx[3 * t + 2], idx[3 * t])
    }
}

/// No other edge slot of any triangle holds the edge of slot `(t, r)`.
pub open spec fn slot_is_unique(idx: Seq<u32>, t: int, r: int) -> bool {
    forall|t2: int, r2: int|
        valid_slot(idx, t2, r2) && (t2 != t || r2 != r) ==> #[trigger] slot_edge(idx, t2, r2)
            != slot_edge(idx, t, r)
}

/// A boundary edge is an edge that belongs to exactly one triangle side.
pub open spec fn is_boundary_edge(idx: Seq<u32>, e: Edge) -> bool {
    exists|t: int, r: int|
        valid_slot(idx, t, r) && #[trigger] slot_edge(idx, t, r) == e && slot_is_unique(idx, t, r)
}

proof fn lemma_slot_in_bounds(len: int, t: int)
    requires
        0 <= t < len / 3,
        0 <= len,
    ensures
        3 * t + 2 < len,
{
}

fn slot_edge_exec(indices: &Vec<u32>, t: usize, r: usize) -> (e: Edge)
    requires
        valid_slot(indices@, t as int, r as int),
    ensures
        e == slot_edge(indices@, t as int, r as int),
{
    let len = indices.len();
    proof {
        lemma_slot_in_bounds(len as int, t as int);
    }
    let i = 3 * t;
    if r == 0 {
        Edge::new(indices[i], indices[i + 1])
    } else if r == 1 {
        Edge::new(indices[i + 1], indices[i + 2])
    } else {
        Edge::new(indices[i + 2], indices[i])
    }
}

fn slot_unique_exec(indices: &Vec<u32>, t: usize, r: usize) -> (u: bool)
    requires
        valid_slot(indices@, t as int, r as int),
    ensures
        u == slot_is_unique(indices@, t as int, r as int),
{
    let e = slot_edge_exec(indices, t, r);
    let n = indices.len() / 3;
    let mut t2: usize = 0;
    while t2 < n
        invariant
            n == tri_count(indices@),
            valid_slot(indices@, t as int, r as int),
            e == slot_edge(indices@, t as int, r as int),
            t2 <= n,
            forall|a: int, b: int|
                0 <= a < t2 && 0 <= b < 3 && (a != t || b != r) ==> #[trigger] slot_edge(
                    indices@,
                    a,
                    b,
                ) != e,
        decreases n - t2,
    {
        let mut r2: usize = 0;
        while r2 < 3
            invariant
                n == tri_count(indices@),
                valid_slot(indices@, t as int, r as int),
                e == slot_edge(indices@, t as int, r as int),
                t2 < n,
                r2 <= 3,
                forall|a: int, b: int|
                    ((0 <= a < t2 && 0 <= b < 3) || (a == t2 && 0 <= b < r2)) && (a != t || b != r)
                        ==> #[trigger] slot_edge(indices@, a, b) != e,
            decreases 3 - r2,
        {
            if t2 != t || r2 != r {
                let e2 = slot_edge_exec(indices, t2, r2);
                if e2 == e {
                    return false;
                }
            }
            r2 += 1;
        }
        t2 += 1;
    }
    true
}

/// The edges that belong to exactly one triangle side, each listed once.
pub fn boundary_edges(indices: &Vec<u32>) -> (edges: Vec<Edge>)
    ensures
        forall|k: int| 0 <= k < edges@.len() ==> is_boundary_edge(indices@, #[trigger] edges@[k]),
        forall|t: int, r: int|
            valid_slot(indices@, t, r) && slot_is_unique(indices@, t, r) ==> edges@.contains(
                #[trigger] slot_edge(indices@, t, r),
            ),
        edges@.no_duplicates(),
{
    let mut edges: Vec<Edge> = Vec::new();
    let ghost mut origins: Seq<(int, int)> = Seq::empty();
    let n = indices.len() / 3;
    let mut t: usize = 0;
    while t < n
        invariant
            n == tri_count(indices@),
            t <= n,
            origins.len() == edges@.len(),
            forall|k: int|
                0 <= k < origins.len() ==> {
                    let (a, b) = #[trigger] origins[k];
                    &&& valid_slot(indices@, a, b)
                    &&& a < t
                    &&& slot_edge(indices@, a, b) == edges@[k]
                    &&& slot_is_unique(indices@, a, b)
                },
            forall|a: int, b: int|
                0 <= a < t && 0 <= b < 3 && slot_is_unique(indices@, a, b) ==> edges@.contains(
                    #[trigger] slot_edge(indices@, a, b),
                ),
            edges@.no_duplicates(),
        decreases n - t,
    {
        let mut r: usize = 0;
        while r < 3
            invariant
                n == tri_count(indices@),
                t < n,
                r <= 3,
                origins.len() == edges@.len(),
                forall|k: int|
                    0 <= k < origins.len() ==> {
                        let (a, b) = #[trigger] origins[k];
                        &&& valid_slot(indices@, a, b)
                        &&& (a < t || (a == t && b < r))
                        &&& slot_edge(indices@, a, b) == edges@[k]
                        &&& slot_is_unique(indices@, a, b)
                    },
                forall|a: int, b: int|
                    ((0 <= a < t && 0 <= b < 3) || (a == t && 0 <= b < r)) && slot_is_unique(
                        indices@,
                        a,
                        b,
                    ) ==> edges@.contains(#[trigger] slot_edge(indices@, a, b)),
                edges@.no_duplicates(),
            decreases 3 - r,
        {
            if slot_unique_exec(indices, t, r) {
                let e = slot_edge_exec(indices, t, r);
                proof {
                    assert forall|k: int| 0 <= k < edges@.len() implies edges@[k] != e by {
                        let (a, b) = origins[k];
                        assert(slot_edge(indices@, a, b) == edges@[k]);
                    }
                }
                let ghost old_edges = edges@;
                edges.push(e);
                proof {
                    origins = origins.push((t as int, r as int));
                    assert forall|a: int, b: int|
                        ((0 <= a < t && 0 <= b < 3) || (a == t && 0 <= b < r + 1)) && slot_is_unique(
                            indices@,
                            a,
                            b,
                        ) implies edges@.contains(#[trigger] slot_edge(indices@, a, b)) by {
                        if a == t && b == r {
                            assert(edges@[edges@.len() - 1] == e);
                        } else {
                            assert(old_edges.contains(slot_edge(indices@, a, b)));
                            let j = choose|j: int|
                                0 <= j < old_edges.len() && old_edges[j] == slot_edge(
                                    indices@,
                                    a,
                                    b,
                                );
                            assert(edges@[j] == old_edges[j]);
                        }
                    }
                    assert forall|k: int| 0 <= k < origins.len() implies {
                        let (a, b) = #[trigger] origins[k];
                        &&& valid_slot(indices@, a, b)
                        &&& (a < t || (a == t && b < r + 1))
                        &&& slot_edge(indices@, a, b) == edges@[k]
                        &&& slot_is_unique(indices@, a, b)
                    } by {
                        if k < origins.len() - 1 {
                            assert(edges@[k] == old_edges[k]);
                        }
                    }
                }
            }
            r += 1;
        }
        t += 1;
    }
    proof {
        assert forall|k: int| 0 <= k < edges@.len() implies is_boundary_edge(
            indices@,
            #[trigger] edges@[k],
        ) by {
            let (a, b) = origins[k];
            assert(slot_edge(indices@, a, b) == edges@[k]);
        }
    }
    edges
}

/// Whether the mesh is closed: no edge belongs to only one triangle side.
pub fn is_watertight(indices: &Vec<u32>) -> (w: bool)
    ensures
        w <==> (forall|t: int, r: int|
            valid_slot(indices@, t, r) ==> !slot_is_unique(indices@, t, r)),
        w <==> (forall|e: Edge| !is_boundary_edge(indices@, e)),
{
    let boundary = boundary_edges(indices);
    let w = boundary.len() == 0;
    proof {
        if w {
            assert forall|t: int, r: int| valid_slot(indices@, t, r) implies !slot_is_unique(
                indices@,
                t,
                r,
            ) by {
                if slot_is_unique(indices@, t, r) {
                    assert(boundary@.contains(slot_edge(indices@, t, r)));
                }
            }
        } else {
            assert(is_boundary_edge(indices@, boundary@[0]));
        }
    }
    w
}


// ---------------------------------------------------------------------------
// Winding
// ---------------------------------------------------------------------------

/// Every whole triangle with its last two corners swapped, which turns it
/// to face the other way; trailing indices stay as they are.
pub open spec fn flip_triangle_order(s: Seq<u32>) -> Seq<u32> {
    Seq::new(
        s.len(),
        |k: int|
            if k < 3 * (s.len() as int / 3) {
                if k % 3 == 1 {
                    s[k + 1]
                } else if k % 3 == 2 {
                    s[k - 1]
                } else {
                    s[k]
                }
            } else {
                s[k]
            },
    )
}

/// Reverse the winding of every triangle of the index list.
pub fn flip_winding(indices: &mut Vec<u32>)
    ensures
        final(indices)@ == flip_triangle_order(old(indices)@),
{
    let len = indices.len();
    let n = len / 3;
    let ghost orig = old(indices)@;
    let mut t: usize = 0;
    while t < n
        invariant
            len == orig.len(),
            n == orig.len() as int / 3,
            t <= n,
            indices@.len() == orig.len(),
            forall|k: int|
                0 <= k < indices@.len() ==> #[trigger] indices@[k] == if k < 3 * t {
                    flip_triangle_order(orig)[k]
                } else {
                    orig[k]
                },
        decreases n - t,
    {
        proof {
            lemma_slot_in_bounds(len as int, t as int);
        }
        let i = 3 * t;
        let second = indices[i + 1];
        let third = indices[i + 2];
        indices.set(i + 1, third);
        indices.set(i + 2, second);
        proof {
            assert forall|k: int| 0 <= k < indices@.len() implies #[trigger] indices@[k] == if k < 3
                * (t + 1) {
                flip_triangle_order(orig)[k]
            } else {
                orig[k]
            } by {
                if 3 * t <= k < 3 * t + 3 {
                    assert(k % 3 == k - 3 * t);
                }
            }
        }
        t += 1;
    }
    assert(indices@ =~= flip_triangle_order(orig));
}

/// Flipping the winding twice gives back the original index list.
pub proof fn law_flip_involution(s: Seq<u32>)
    ensures
        flip_triangle_order(flip_triangle_order(s)) == s,
{
    let f = flip_triangle_order(s);
    assert(f.len() == s.len());
    assert forall|k: int| 0 <= k < s.len() implies #[trigger] flip_triangle_order(f)[k] == s[k] by {
        if k < 3 * (s.len() as int / 3) {
            if k % 3 == 1 {
                assert((k + 1) % 3 == 2);
            } else if k % 3 == 2 {
                assert((k - 1) % 3 == 1);
            }
        }
    }
    assert(flip_triangle_order(f) =~= s);
}

// ---------------------------------------------------------------------------
// Re-indexing
// ---------------------------------------------------------------------------

/// The index list `0, 1, .., count - 1` of a mesh whose vertices were
/// duplicated so that each triangle has vertices of its own (flat shading).
pub fn flat_shading_indices(count: usize) -> (indices: Vec<u32>)
    requires
        count <= u32::MAX + 1,
    ensures
        indices@.len() == count,
        forall|k: int| 0 <= k < count ==> #[trigger] indices@[k] == k,
{
    let mut indices: Vec<u32> = Vec::new();
    let mut k: usize = 0;
    while k < count
        invariant
            k <= count,
            count <= u32::MAX + 1,
            indices@.len() == k,
            forall|j: int| 0 <= j < k ==> #[trigger] indices@[j] == j,
        decreases count - k,
    {
        indices.push(k as u32);
        k += 1;
    }
    indices
}

/// The attribute values picked by `sources`: entry `k` of the result is
/// `items[sources[k]]`.
pub fn gather<T: Copy>(items: &Vec<T>, sources: &Vec<u32>) -> (picked: Vec<T>)
    requires
        forall|k: int| 0 <= k < sources@.len() ==> #[trigger] sources@[k] < items@.len(),
    ensures
        picked@.len() == sources@.len(),
        forall|k: int| 0 <= k < sources@.len() ==> #[trigger] picked@[k] == items@[sources@[k] as int],
{
    let mut picked: Vec<T> = Vec::new();
    let mut k: usize = 0;
    while k < sources.len()
        invariant
            k <= sources@.len(),
            forall|j: int| 0 <= j < sources@.len() ==> #[trigger] sources@[j] < items@.len(),
            picked@.len() == k,
            forall|j: int| 0 <= j < k ==> #[trigger] picked@[j] == items@[sources@[j] as int],
        decreases sources@.len() - k,
    {
        let s = sources[k] as usize;
        picked.push(items[s]);
        k += 1;
    }
    picked
}

/// Replace every index `i` by `map[i]` (after vertices were merged).
pub fn remap_indices(indices: &Vec<u32>, map: &Vec<u32>) -> (remapped: Vec<u32>)
    requires
        forall|k: int| 0 <= k < indices@.len() ==> #[trigger] indices@[k] < map@.len(),
    ensures
        remapped@.len() == indices@.len(),
        forall|k: int| 0 <= k < indices@.len() ==> #[trigger] remapped@[k] == map@[indices@[k] as int],
{
    gather(map, indices)
}

// ---------------------------------------------------------------------------
// Vertex adjacency
// ---------------------------------------------------------------------------

/// The triangles using vertex `v` among the first `n` index slots, one entry
/// per slot that names `v`, in slot order.
pub open spec fn triangles_at(idx: Seq<u32>, v: int, n: nat) -> Seq<usize>
    decreases n,
{
    if n == 0 {
        Seq::empty()
    } else if idx[n - 1] == v {
        triangles_at(idx, v, (n - 1) as nat).push(((n - 1) / 3) as usize)
    } else {
        triangles_at(idx, v, (n - 1) as nat)
    }
}

/// For each of `vertex_count` vertices, the triangles that use it.
pub fn vertex_triangles(indices: &Vec<u32>, vertex_count: usize) -> (adjacency: Vec<Vec<usize>>)
    requires
        forall|k: int| 0 <= k < 3 * tri_count(indices@) ==> #[trigger] indices@[k] < vertex_count,
    ensures
        adjacency@.len() == vertex_count,
        forall|v: int|
            0 <= v < vertex_count ==> (#[trigger] adjacency@[v])@ == triangles_at(
                indices@,
                v,
                (3 * tri_count(indices@)) as nat,
            ),
{
    let mut adjacency: Vec<Vec<usize>> = Vec::new();
    let mut v: usize = 0;
    while v < vertex_count
        invariant
            v <= vertex_count,
            adjacency@.len() == v,
            forall|w: int| 0 <= w < v ==> (#[trigger] adjacency@[w])@ == Seq::<usize>::empty(),
        decreases vertex_count - v,
    {
        adjacency.push(Vec::new());
        v += 1;
    }
    let slots = 3 * (indices.len() / 3);
    let mut j: usize = 0;
    while j < slots
        invariant
            slots == 3 * tri_count(indices@),
            slots <= indices@.len(),
            j <= slots,
            adjacency@.len() == vertex_count,
            forall|k: int| 0 <= k < 3 * tri_count(indices@) ==> #[trigger] indices@[k] < vertex_count,
            forall|w: int|
                0 <= w < vertex_count ==> (#[trigger] adjacency@[w])@ == triangles_at(
                    indices@,
                    w,
                    j as nat,
                ),
        decreases slots - j,
    {
        let vi = indices[j] as usize;
        let ghost before = adjacency@;
        adjacency[vi].push(j / 3);
        proof {
            assert forall|w: int| 0 <= w < vertex_count implies (#[trigger] adjacency@[w])@
                == triangles_at(indices@, w, (j + 1) as nat) by {
                if w != vi {
                    assert(adjacency@[w] == before[w]);
                }
            }
        }
        j += 1;
    }
    adjacency
}

/// Flipping leaves the trailing indices that make up no whole triangle
/// where they are.
pub proof fn law_flip_trailing(s: Seq<u32>, k: int)
    requires
        3 * (s.len() / 3) <= k < s.len(),
    ensures
        flip_triangle_order(s)[k] == s[k],
{
}

/// Flipping swaps the second and third corner of every whole triangle `t`
/// and keeps its first corner.
pub proof fn law_flip_whole_triangle(s: Seq<u32>, t: int)
    requires
        0 <= t < s.len() / 3,
    ensures
        flip_triangle_order(s).len() == s.len(),
        flip_triangle_order(s)[3 * t] == s[3 * t],
        flip_triangle_order(s)[3 * t + 1] == s[3 * t + 2],
        flip_triangle_order(s)[3 * t + 2] == s[3 * t + 1],
{
    assert((3 * t) % 3 == 0);
    assert((3 * t + 1) % 3 == 1);
    assert((3 * t + 2) % 3 == 2);
}

/// The three edge slots of triangle `t = (a, b, c)` hold the edges between
/// `a` and `b`, `b` and `c`, and `c` and `a`, each with its smaller vertex
/// first.
pub proof fn law_slot_edges(idx: Seq<u32>, t: int)
    requires
        0 <= t < tri_count(idx),
    ensures
        ({
            let (a, b, c) = (idx[3 * t], idx[3 * t + 1], idx[3 * t + 2]);
            &&& slot_edge(idx, t, 0) == Edge(if a < b { a } else { b }, if a < b { b } else { a })
            &&& slot_edge(idx, t, 1) == Edge(if b < c { b } else { c }, if b < c { c } else { b })
            &&& slot_edge(idx, t, 2) == Edge(if c < a { c } else { a }, if c < a { a } else { c })
        }),
{
}

/// Triangle `t` is listed for vertex `v` exactly when one of the first `n`
/// index slots that belongs to triangle `t` names `v`.
pub proof fn law_triangles_at_members(idx: Seq<u32>, v: int, n: nat, t: usize)
    requires
        n <= idx.len(),
        idx.len() <= usize::MAX,
    ensures
        triangles_at(idx, v, n).contains(t) <==> exists|k: int|
            0 <= k < n && #[trigger] idx[k] == v && k / 3 == t,
    decreases n,
{
    if n > 0 {
        let prev = (n - 1) as nat;
        law_triangles_at_members(idx, v, prev, t);
        let before = triangles_at(idx, v, prev);
        if idx[n - 1] == v {
            let after = before.push(((n - 1) / 3) as usize);
            assert(triangles_at(idx, v, n) == after);
            if after.contains(t) {
                if !before.contains(t) {
                    let j = choose|j: int| 0 <= j < after.len() && after[j] == t;
                    assert(j == before.len());
                    assert(((n - 1) / 3) as usize == (n - 1) / 3);
                    assert(idx[n - 1] == v && (n - 1) / 3 == t);
                }
            }
            if exists|k: int| 0 <= k < n && #[trigger] idx[k] == v && k / 3 == t {
                let k = choose|k: int| 0 <= k < n && #[trigger] idx[k] == v && k / 3 == t;
                if k < n - 1 {
                    assert(before.contains(t));
                    let j = choose|j: int| 0 <= j < before.len() && before[j] == t;
                    assert(after[j] == t);
                } else {
                    assert(after[before.len() as int] == t);
                }
            }
        } else {
            if exists|k: int| 0 <= k < n && #[trigger] idx[k] == v && k / 3 == t {
                let k = choose|k: int| 0 <= k < n && #[trigger] idx[k] == v && k / 3 == t;
                assert(k < n - 1);
            }
        }
    }
}

} // verus!
