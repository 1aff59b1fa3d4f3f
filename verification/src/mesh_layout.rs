//! Index lists of the tank's procedural meshes.
//!
//! Each function here produces the complete index list of one kind of mesh,
//! for the vertex order in which that mesh's vertices are emitted.  The
//! matching `*_vertex_count` spec function gives the number of vertices of
//! that order, and every index list is proved to reference only those
//! vertices.  The triangle-count estimates used for budgeting are proved to
//! agree with the index lists.

use vstd::prelude::*;
use crate::topology::{
    quad_seq, strip_seq, fan_seq, grid_seq, refs_below, StripWinding, push_quad, push_strip,
    push_fan, grid_indices, lemma_refs_concat, lemma_refs_weaken, lemma_quad_seq,
    lemma_strip_seq, lemma_fan_seq, lemma_grid_seq, strip_cell, fan_tri, grid_cell, lemma_strip_at,
    lemma_fan_at, lemma_grid_at,
};

verus! {

// ---------------------------------------------------------------------------
// Runs of quads: boxes and flat panels
// ---------------------------------------------------------------------------

/// `n` quads whose corners are consecutive groups of four vertices starting
/// at `base`.
pub open spec fn quads_seq(base: int, n: nat) -> Seq<u32>
    decreases n,
{
    if n == 0 {
        Seq::empty()
    } else {
        quads_seq(base, (n - 1) as nat) + quad_seq(base + 4 * (n - 1))
    }
}

pub proof fn lemma_quads_seq(base: int, n: nat)
    requires
        0 <= base,
        base + 4 * n <= u32::MAX + 1,
    ensures
        quads_seq(base, n).len() == 6 * n,
        refs_below(quads_seq(base, n), base + 4 * n),
    decreases n,
{
    if n > 0 {
        lemma_quads_seq(base, (n - 1) as nat);
        lemma_quad_seq(base + 4 * (n - 1));
        lemma_refs_weaken(quads_seq(base, (n - 1) as nat), base + 4 * (n - 1), base + 4 * n);
        lemma_refs_concat(
            quads_seq(base, (n - 1) as nat),
            quad_seq(base + 4 * (n - 1)),
            base + 4 * n,
        );
    }
}

/// Append `n` quads over consecutive groups of four vertices from `base`.
pub fn push_quads(indices: &mut Vec<u32>, base: u32, n: u32)
    requires
        base + 4 * n <= u32::MAX + 1,
    ensures
        final(indices)@ == old(indices)@ + quads_seq(base as int, n as nat),
{
    let mut i: u32 = 0;
    while i < n
        invariant
            i <= n,
            base + 4 * n <= u32::MAX + 1,
            indices@ == old(indices)@ + quads_seq(base as int, i as nat),
        decreases n - i,
    {
        let ghost before = indices@;
        push_quad(indices, base + 4 * i);
        assert(quads_seq(base as int, (i + 1) as nat) =~= quads_seq(base as int, i as nat)
            + quad_seq(base + 4 * i));
        assert(indices@ =~= old(indices)@ + quads_seq(base as int, (i + 1) as nat));
        i += 1;
    }
}

/// Vertices of `boxes` axis-aligned boxes: four per face, six faces each.
pub open spec fn box_vertex_count(boxes: nat) -> nat {
    24 * boxes
}

/// Index list of `boxes` boxes emitted one after the other, each as six
/// faces of four vertices (the hull is three such boxes, a track link one).
pub fn box_indices(boxes: u32) -> (indices: Vec<u32>)
    requires
        box_vertex_count(boxes as nat) <= u32::MAX,
    ensures
        indices@ == quads_seq(0, 6 * boxes as nat),
        indices@.len() == 36 * boxes,
        refs_below(indices@, box_vertex_count(boxes as nat) as int),
{
    let mut indices: Vec<u32> = Vec::new();
    push_quads(&mut indices, 0, 6 * boxes);
    proof {
        assert(indices@ =~= quads_seq(0, 6 * boxes as nat));
        lemma_quads_seq(0, 6 * boxes as nat);
    }
    indices
}

// ---------------------------------------------------------------------------
// Cylinders: the detailed cylinder, the gun barrel
// ---------------------------------------------------------------------------

/// Vertices of a cylinder: `(radial + 1) * (height + 1)` on the side, and
/// for each cap a center and a ring of `radial + 1` vertices.
pub open spec fn cylinder_vertex_count(radial: nat, height: nat, bottom: bool, top: bool) -> nat {
    (radial + 1) * (height + 1) + (if bottom { radial + 2 } else { 0nat }) + (if top {
        radial + 2
    } else {
        0nat
    })
}

/// The side grid, then the bottom cap as a fan wound clockwise seen from
/// outside, then the top cap.
pub open spec fn cylinder_index_seq(radial: nat, height: nat, bottom: bool, top: bool) -> Seq<
    u32,
> {
    let side = (radial + 1) * (height + 1);
    let top_center = if bottom {
        side + radial + 2
    } else {
        side
    };
    grid_seq(radial, height) + (if bottom {
        fan_seq(side as int, (side + 1) as int, radial, true)
    } else {
        Seq::empty()
    }) + (if top {
        fan_seq(top_center as int, (top_center + 1) as int, radial, false)
    } else {
        Seq::empty()
    })
}

proof fn lemma_side_fits(radial: nat, height: nat)
    ensures
        (radial + 1) * (height + 1) >= radial + 1,
        (radial + 1) * (height + 1) >= height + 1,
{
    assert((radial + 1) * (height + 1) >= radial + 1) by (nonlinear_arith);
    assert((radial + 1) * (height + 1) >= height + 1) by (nonlinear_arith);
}

/// Index list of a cylinder with `radial_segments` around and
/// `height_segments` along, with the caps that are present.
pub fn cylinder_indices(
    radial_segments: u32,
    height_segments: u32,
    bottom_cap: bool,
    top_cap: bool,
) -> (indices: Vec<u32>)
    requires
        cylinder_vertex_count(radial_segments as nat, height_segments as nat, bottom_cap, top_cap)
            <= u32::MAX,
    ensures
        indices@ == cylinder_index_seq(
            radial_segments as nat,
            height_segments as nat,
            bottom_cap,
            top_cap,
        ),
        indices@.len() == 6 * radial_segments * height_segments + (if bottom_cap {
            3 * radial_segments
        } else {
            0
        }) + (if top_cap {
            3 * radial_segments
        } else {
            0
        }),
        refs_below(
            indices@,
            cylinder_vertex_count(
                radial_segments as nat,
                height_segments as nat,
                bottom_cap,
                top_cap,
            ) as int,
        ),
{
    let ghost radial = radial_segments as nat;
    let ghost height = height_segments as nat;
    let ghost total = cylinder_vertex_count(radial, height, bottom_cap, top_cap) as int;
    proof {
        lemma_side_fits(radial, height);
    }
    let mut indices = grid_indices(radial_segments, height_segments);
    let side = (radial_segments + 1) * (height_segments + 1);
    proof {
        lemma_grid_seq(radial, height, height);
        lemma_refs_weaken(grid_seq(radial, height), side as int, total);
    }
    let ghost after_side = indices@;
    let mut next = side;
    if bottom_cap {
        push_fan(&mut indices, next, next + 1, radial_segments, true);
        proof {
            lemma_fan_seq(side as int, side + 1, radial, true, total);
            lemma_refs_concat(after_side, fan_seq(side as int, side + 1, radial, true), total);
        }
        next = next + radial_segments + 2;
    } else {
        assert(indices@ =~= after_side + Seq::<u32>::empty());
    }
    let ghost after_bottom = indices@;
    if top_cap {
        push_fan(&mut indices, next, next + 1, radial_segments, false);
        proof {
            lemma_fan_seq(next as int, next + 1, radial, false, total);
            lemma_refs_concat(after_bottom, fan_seq(next as int, next + 1, radial, false), total);
        }
    } else {
        assert(indices@ =~= after_bottom + Seq::<u32>::empty());
    }
    indices
}

/// Triangle estimate of a detailed cylinder: two per side cell, and two
/// fans of `radial_segments` triangles unless the cylinder is open ended.
pub fn detailed_cylinder_triangle_count(radial_segments: u32, height_segments: u32, open_ended: bool) -> (n: u32)
    requires
        radial_segments * height_segments * 2 + (if open_ended {
            0
        } else {
            radial_segments * 2
        }) <= u32::MAX,
    ensures
        n == radial_segments * height_segments * 2 + (if open_ended {
            0
        } else {
            radial_segments * 2
        }),
{
    proof {
        assert(radial_segments * height_segments * 2 >= 0) by (nonlinear_arith);
    }
    let side_tris = radial_segments * height_segments * 2;
    let cap_tris = if open_ended {
        0
    } else {
        radial_segments * 2
    };
    side_tris + cap_tris
}

/// The triangle estimate of a detailed cylinder counts exactly the triangles
/// of its index list whenever its caps are all present (closed cylinder) or
/// all absent (open cylinder).
pub proof fn law_cylinder_triangle_count(radial: u32, height: u32, open_ended: bool)
    ensures
        cylinder_index_seq(radial as nat, height as nat, !open_ended, !open_ended).len() == 3 * (
        radial * height * 2 + (if open_ended {
            0
        } else {
            radial * 2
        })),
{
    let r = radial as nat;
    let h = height as nat;
    assert((r + 1) * (h + 1) >= 0) by (nonlinear_arith);
    let side = (r + 1) * (h + 1);
    lemma_grid_len(r, h);
    if !open_ended {
        assert(fan_seq(side as int, (side + 1) as int, r, true).len() == 3 * r) by {
            lemma_fan_len(side as int, (side + 1) as int, r, true);
        }
        assert(fan_seq((side + r + 2) as int, (side + r + 3) as int, r, false).len() == 3 * r) by {
            lemma_fan_len((side + r + 2) as int, (side + r + 3) as int, r, false);
        }
    }
    assert(6 * r * h == 3 * (r * h * 2)) by (nonlinear_arith);
}

/// Length of a grid's index list, without any bound on its size.
pub proof fn lemma_grid_len(cols: nat, rows: nat)
    ensures
        grid_seq(cols, rows).len() == 6 * cols * rows,
    decreases rows,
{
    if rows > 0 {
        let prev = (rows - 1) as nat;
        lemma_grid_len(cols, prev);
        lemma_grid_row_len(cols, prev, cols);
        assert(grid_seq(cols, rows) == grid_seq(cols, prev) + crate::topology::grid_row(cols, prev, cols));
        assert(6 * cols * prev + 6 * cols == 6 * cols * rows) by (nonlinear_arith)
            requires
                prev + 1 == rows,
        ;
    } else {
        assert(6 * cols * rows == 0) by (nonlinear_arith)
            requires
                rows == 0,
        ;
    }
}

proof fn lemma_grid_row_len(cols: nat, z: nat, n: nat)
    ensures
        crate::topology::grid_row(cols, z, n).len() == 6 * n,
    decreases n,
{
    if n > 0 {
        lemma_grid_row_len(cols, z, (n - 1) as nat);
    }
}

/// Length of a fan's index list.
pub proof fn lemma_fan_len(center: int, ring: int, n: nat, reversed: bool)
    ensures
        fan_seq(center, ring, n, reversed).len() == 3 * n,
    decreases n,
{
    if n > 0 {
        lemma_fan_len(center, ring, (n - 1) as nat, reversed);
    }
}

/// Length of a strip's index list.
pub proof fn lemma_strip_len(base: int, n: nat, winding: StripWinding)
    ensures
        strip_seq(base, n, winding).len() == 6 * n,
    decreases n,
{
    if n > 0 {
        lemma_strip_len(base, (n - 1) as nat, winding);
    }
}


// ---------------------------------------------------------------------------
// The beveled box
// ---------------------------------------------------------------------------

/// The closed three-triangle cap over a corner: a center vertex `b` and the
/// three edge vertices `b+1, b+2, b+3`.
pub open spec fn corner_seq(b: int) -> Seq<u32> {
    seq![
        b as u32, (b + 1) as u32, (b + 2) as u32,
        b as u32, (b + 2) as u32, (b + 3) as u32,
        b as u32, (b + 3) as u32, (b + 1) as u32,
    ]
}

/// `n` corner caps over consecutive groups of four vertices from `base`.
pub open spec fn corners_seq(base: int, n: nat) -> Seq<u32>
    decreases n,
{
    if n == 0 {
        Seq::empty()
    } else {
        corners_seq(base, (n - 1) as nat) + corner_seq(base + 4 * (n - 1))
    }
}

/// Winding of the `k`-th edge strip of a beveled box: the four edges along
/// X (strips 0..4) and along Z (strips 8..12) are laddered one way, the four
/// edges along Y (strips 4..8) the other way.
pub open spec fn bevel_strip_winding(k: int) -> StripWinding {
    if 4 <= k < 8 {
        StripWinding::LadderReversed
    } else {
        StripWinding::Ladder
    }
}

/// The first `n` edge strips of a beveled box, each of `segments` quads over
/// `2 * (segments + 1)` vertices, the first starting at `base`.
pub open spec fn edge_strips_seq(base: int, segments: nat, n: nat) -> Seq<u32>
    decreases n,
{
    if n == 0 {
        Seq::empty()
    } else {
        edge_strips_seq(base, segments, (n - 1) as nat) + strip_seq(
            base + (n - 1) * (2 * (segments + 1)),
            segments,
            bevel_strip_winding(n - 1),
        )
    }
}

/// A beveled box gets its rounded edges and corners only when the bevel
/// radius is above the threshold and there is at least one bevel segment.
pub open spec fn beveled_box_is_rounded(segments: nat, radius_above_threshold: bool) -> bool {
    radius_above_threshold && segments > 0
}

/// Vertices of a beveled box: 24 for the six inset faces; when rounded,
/// `2 * (segments + 1)` for each of the 12 edges and 4 for each of the 8
/// corners.
pub open spec fn beveled_box_vertex_count(segments: nat, radius_above_threshold: bool) -> nat {
    24 + if beveled_box_is_rounded(segments, radius_above_threshold) {
        24 * (segments + 1) + 32
    } else {
        0
    }
}

/// Faces, then (when rounded) the 12 edge strips, then the 8 corner caps.
pub open spec fn beveled_box_index_seq(segments: nat, radius_above_threshold: bool) -> Seq<u32> {
    quads_seq(0, 6) + if beveled_box_is_rounded(segments, radius_above_threshold) {
        edge_strips_seq(24, segments, 12) + corners_seq((24 + 24 * (segments + 1)) as int, 8)
    } else {
        Seq::empty()
    }
}

pub proof fn lemma_corners_seq(base: int, n: nat)
    requires
        0 <= base,
        base + 4 * n <= u32::MAX + 1,
    ensures
        corners_seq(base, n).len() == 9 * n,
        refs_below(corners_seq(base, n), base + 4 * n),
    decreases n,
{
    if n > 0 {
        lemma_corners_seq(base, (n - 1) as nat);
        let c = corner_seq(base + 4 * (n - 1));
        assert(refs_below(c, base + 4 * n));
        lemma_refs_weaken(corners_seq(base, (n - 1) as nat), base + 4 * (n - 1), base + 4 * n);
        lemma_refs_concat(corners_seq(base, (n - 1) as nat), c, base + 4 * n);
    }
}

pub proof fn lemma_edge_strips_seq(base: int, segments: nat, n: nat)
    requires
        0 <= base,
        base + n * (2 * (segments + 1)) <= u32::MAX + 1,
    ensures
        edge_strips_seq(base, segments, n).len() == 6 * segments * n,
        refs_below(edge_strips_seq(base, segments, n), base + n * (2 * (segments + 1))),
    decreases n,
{
    if n > 0 {
        let stride = 2 * (segments + 1);
        let prev = (n - 1) as nat;
        assert(prev * stride + stride == n * stride) by (nonlinear_arith)
            requires
                prev + 1 == n,
        ;
        assert(0 <= prev * stride) by (nonlinear_arith);
        lemma_edge_strips_seq(base, segments, prev);
        let start = base + prev * stride;
        lemma_strip_seq(start, segments, bevel_strip_winding(prev as int));
        lemma_refs_weaken(edge_strips_seq(base, segments, prev), start, base + n * stride);
        lemma_refs_concat(
            edge_strips_seq(base, segments, prev),
            strip_seq(start, segments, bevel_strip_winding(prev as int)),
            base + n * stride,
        );
        assert(6 * segments * prev + 6 * segments == 6 * segments * n) by (nonlinear_arith)
            requires
                prev + 1 == n,
        ;
    } else {
        assert(6 * segments * n == 0) by (nonlinear_arith)
            requires
                n == 0,
        ;
        assert(base + n * (2 * (segments + 1)) == base) by (nonlinear_arith)
            requires
                n == 0,
        ;
    }
}

/// Append the closed cap over the corner whose center vertex is `base`.
pub fn push_corner(indices: &mut Vec<u32>, base: u32)
    requires
        base + 3 <= u32::MAX,
    ensures
        final(indices)@ == old(indices)@ + corner_seq(base as int),
{
    indices.push(base);
    indices.push(base + 1);
    indices.push(base + 2);
    indices.push(base);
    indices.push(base + 2);
    indices.push(base + 3);
    indices.push(base);
    indices.push(base + 3);
    indices.push(base + 1);
    assert(indices@ =~= old(indices)@ + corner_seq(base as int));
}

/// Index list of a box with beveled edges and `bevel_segments` segments per
/// edge; `radius_above_threshold` tells whether the bevel radius is large
/// enough for the rounded edges and corners to be built at all.
pub fn beveled_box_indices(bevel_segments: u32, radius_above_threshold: bool) -> (indices: Vec<u32>)
    requires
        beveled_box_vertex_count(bevel_segments as nat, radius_above_threshold) <= u32::MAX,
    ensures
        indices@ == beveled_box_index_seq(bevel_segments as nat, radius_above_threshold),
        indices@.len() == if beveled_box_is_rounded(bevel_segments as nat, radius_above_threshold) {
            108 + 72 * bevel_segments
        } else {
            36
        },
        refs_below(
            indices@,
            beveled_box_vertex_count(bevel_segments as nat, radius_above_threshold) as int,
        ),
{
    let ghost seg = bevel_segments as nat;
    let ghost total = beveled_box_vertex_count(seg, radius_above_threshold) as int;
    let mut indices: Vec<u32> = Vec::new();
    push_quads(&mut indices, 0, 6);
    proof {
        assert(indices@ =~= quads_seq(0, 6));
        lemma_quads_seq(0, 6);
        lemma_refs_weaken(indices@, 24, total);
    }
    if radius_above_threshold && bevel_segments > 0 {
        let stride = 2 * (bevel_segments + 1);
        let ghost faces = indices@;
        let mut base: u32 = 24;
        let mut k: u32 = 0;
        while k < 12
            invariant
                k <= 12,
                stride == 2 * (seg + 1),
                seg == bevel_segments,
                24 + 12 * stride + 32 <= u32::MAX,
                base == 24 + k * stride,
                indices@ == faces + edge_strips_seq(24, seg, k as nat),
            decreases 12 - k,
        {
            proof {
                assert(k * stride + stride <= 12 * stride) by (nonlinear_arith)
                    requires
                        k < 12,
                        stride >= 0,
                ;
                assert((k + 1) * stride == k * stride + stride) by (nonlinear_arith);
            }
            let winding = if 4 <= k && k < 8 {
                StripWinding::LadderReversed
            } else {
                StripWinding::Ladder
            };
            let ghost before = indices@;
            push_strip(&mut indices, base, bevel_segments, winding);
            assert(edge_strips_seq(24, seg, (k + 1) as nat) =~= edge_strips_seq(24, seg, k as nat)
                + strip_seq(24 + k * (2 * (seg + 1)), seg, bevel_strip_winding(k as int)));
            assert(indices@ =~= faces + edge_strips_seq(24, seg, (k + 1) as nat));
            base = base + stride;
            k += 1;
        }
        let ghost after_edges = indices@;
        let corner_start = base;
        let mut c: u32 = 0;
        while c < 8
            invariant
                c <= 8,
                corner_start == 24 + 12 * stride,
                24 + 12 * stride + 32 <= u32::MAX,
                base == corner_start + 4 * c,
                indices@ == after_edges + corners_seq(corner_start as int, c as nat),
            decreases 8 - c,
        {
            let ghost before = indices@;
            push_corner(&mut indices, base);
            assert(corners_seq(corner_start as int, (c + 1) as nat) =~= corners_seq(
                corner_start as int,
                c as nat,
            ) + corner_seq(corner_start + 4 * c));
            assert(indices@ =~= after_edges + corners_seq(corner_start as int, (c + 1) as nat));
            base = base + 4;
            c += 1;
        }
        proof {
            assert(12 * stride == 24 * (seg + 1));
            assert(indices@ =~= beveled_box_index_seq(seg, radius_above_threshold));
            lemma_edge_strips_seq(24, seg, 12);
            lemma_corners_seq(corner_start as int, 8);
            lemma_refs_weaken(edge_strips_seq(24, seg, 12), corner_start as int, total);
            lemma_refs_concat(faces, edge_strips_seq(24, seg, 12), total);
            lemma_refs_concat(
                faces + edge_strips_seq(24, seg, 12),
                corners_seq(corner_start as int, 8),
                total,
            );
            assert(after_edges + corners_seq(corner_start as int, 8) =~= faces + (edge_strips_seq(
                24,
                seg,
                12,
            ) + corners_seq(corner_start as int, 8)));
        }
    } else {
        assert(indices@ =~= beveled_box_index_seq(seg, radius_above_threshold));
    }
    indices
}

/// Triangle estimate of a beveled box: two per face, two per segment of
/// each of the 12 edges, three per corner.
pub fn beveled_box_triangle_count(bevel_segments: u32) -> (n: u32)
    requires
        36 + 24 * bevel_segments <= u32::MAX,
    ensures
        n == 36 + 24 * bevel_segments,
{
    12 + 12 * bevel_segments * 2 + 8 * 3
}

/// The triangle estimate of a beveled box counts exactly the triangles of
/// its index list whenever its edges are rounded.
pub proof fn law_beveled_box_triangle_count(bevel_segments: u32, radius_above_threshold: bool)
    requires
        beveled_box_is_rounded(bevel_segments as nat, radius_above_threshold),
    ensures
        beveled_box_index_seq(bevel_segments as nat, radius_above_threshold).len() == 3 * (36 + 24
            * bevel_segments),
{
    let seg = bevel_segments as nat;
    lemma_quads_len(0, 6);
    lemma_edge_strips_len(24, seg, 12);
    lemma_corners_len((24 + 24 * (seg + 1)) as int, 8);
}

proof fn lemma_quads_len(base: int, n: nat)
    ensures
        quads_seq(base, n).len() == 6 * n,
    decreases n,
{
    if n > 0 {
        lemma_quads_len(base, (n - 1) as nat);
    }
}

proof fn lemma_corners_len(base: int, n: nat)
    ensures
        corners_seq(base, n).len() == 9 * n,
    decreases n,
{
    if n > 0 {
        lemma_corners_len(base, (n - 1) as nat);
    }
}

proof fn lemma_edge_strips_len(base: int, segments: nat, n: nat)
    ensures
        edge_strips_seq(base, segments, n).len() == 6 * segments * n,
    decreases n,
{
    if n > 0 {
        let prev = (n - 1) as nat;
        lemma_edge_strips_len(base, segments, prev);
        lemma_strip_len(base + prev * (2 * (segments + 1)), segments, bevel_strip_winding(prev as int));
        assert(6 * segments * prev + 6 * segments == 6 * segments * n) by (nonlinear_arith)
            requires
                prev + 1 == n,
        ;
    } else {
        assert(6 * segments * n == 0) by (nonlinear_arith)
            requires
                n == 0,
        ;
    }
}


// ---------------------------------------------------------------------------
// The riveted panel
// ---------------------------------------------------------------------------

/// How rivets are placed on a panel, as far as their number is concerned.
#[derive(Clone, Copy, Debug, PartialEq, Eq)]
pub enum RivetLayout {
    /// A grid of `rows` by `cols` rivets.
    Grid { rows: u32, cols: u32 },
    /// `count_per_edge` rivets along the top and along the bottom edge, and
    /// the same number along the left and right edges without their corners.
    Edge { count_per_edge: u32 },
    /// Rivets at `count` given positions.
    Custom { count: usize },
}

/// The number of rivets a layout places.
pub open spec fn spec_rivet_count(layout: RivetLayout) -> nat {
    match layout {
        RivetLayout::Grid { rows, cols } => (rows * cols) as nat,
        RivetLayout::Edge { count_per_edge } => (2 * count_per_edge + if count_per_edge >= 2 {
            2 * (count_per_edge - 2)
        } else {
            0
        }) as nat,
        RivetLayout::Custom { count } => count as nat,
    }
}

/// A grid layout needs at least one row and one column: its first rivet is
/// placed by centering `rows - 1` and `cols - 1` spacings.
pub open spec fn rivet_layout_valid(layout: RivetLayout) -> bool {
    match layout {
        RivetLayout::Grid { rows, cols } => rows >= 1 && cols >= 1 && rows * cols <= usize::MAX,
        RivetLayout::Edge { count_per_edge } => 4 * count_per_edge <= usize::MAX,
        RivetLayout::Custom { count } => true,
    }
}

/// Number of rivets the layout places on a panel.
pub fn rivet_count(layout: &RivetLayout) -> (n: usize)
    requires
        rivet_layout_valid(*layout),
    ensures
        n == spec_rivet_count(*layout),
{
    match layout {
        RivetLayout::Grid { rows, cols } => {
            let r = *rows as usize;
            let c = *cols as usize;
            r * c
        },
        RivetLayout::Edge { count_per_edge } => {
            let c = *count_per_edge as usize;
            let sides = if c >= 2 {
                c - 2
            } else {
                0
            };
            2 * c + 2 * sides
        },
        RivetLayout::Custom { count } => *count,
    }
}

/// Where one rivet sits, before it is turned into a position on the panel.
#[derive(Clone, Copy, Debug, PartialEq, Eq, Structural)]
pub enum RivetSlot {
    /// Row `row`, column `col` of a grid.
    Grid { row: u32, col: u32 },
    /// The `i`-th of the evenly spaced rivets along the top edge.
    Top { i: u32 },
    /// The `i`-th of the evenly spaced rivets along the bottom edge.
    Bottom { i: u32 },
    /// The `i`-th rivet along the left edge.
    Left { i: u32 },
    /// The `i`-th rivet along the right edge.
    Right { i: u32 },
    /// The `k`-th given position.
    Custom { k: usize },
}

/// Columns `0 .. n` of grid row `row`.
pub open spec fn grid_row_slots(row: u32, n: nat) -> Seq<RivetSlot>
    decreases n,
{
    if n == 0 {
        Seq::empty()
    } else {
        grid_row_slots(row, (n - 1) as nat).push(RivetSlot::Grid { row, col: (n - 1) as u32 })
    }
}

/// Rows `0 .. n` of a grid with `cols` columns, row after row.
pub open spec fn grid_slots(cols: u32, n: nat) -> Seq<RivetSlot>
    decreases n,
{
    if n == 0 {
        Seq::empty()
    } else {
        grid_slots(cols, (n - 1) as nat) + grid_row_slots((n - 1) as u32, cols as nat)
    }
}

/// For `i` in `0 .. n`: the top rivet `i`, then the bottom rivet `i`.
pub open spec fn top_bottom_slots(n: nat) -> Seq<RivetSlot>
    decreases n,
{
    if n == 0 {
        Seq::empty()
    } else {
        top_bottom_slots((n - 1) as nat).push(RivetSlot::Top { i: (n - 1) as u32 }).push(
            RivetSlot::Bottom { i: (n - 1) as u32 },
        )
    }
}

/// For `i` in `1 .. m`: the left rivet `i`, then the right rivet `i`.
pub open spec fn side_slots(m: nat) -> Seq<RivetSlot>
    decreases m,
{
    if m <= 1 {
        Seq::empty()
    } else {
        side_slots((m - 1) as nat).push(RivetSlot::Left { i: (m - 1) as u32 }).push(
            RivetSlot::Right { i: (m - 1) as u32 },
        )
    }
}

/// Positions `0 .. n` of a custom layout.
pub open spec fn custom_slots(n: nat) -> Seq<RivetSlot>
    decreases n,
{
    if n == 0 {
        Seq::empty()
    } else {
        custom_slots((n - 1) as nat).push(RivetSlot::Custom { k: (n - 1) as usize })
    }
}

/// The rivets of a layout in the order they are placed: a grid row by row;
/// edges with the top and bottom rivets pairwise, then the side rivets
/// (corners excluded) pairwise; custom positions in the given order.
pub open spec fn spec_rivet_slots(layout: RivetLayout) -> Seq<RivetSlot> {
    match layout {
        RivetLayout::Grid { rows, cols } => grid_slots(cols, rows as nat),
        RivetLayout::Edge { count_per_edge } => top_bottom_slots(count_per_edge as nat) + side_slots(
            if count_per_edge >= 1 {
                (count_per_edge - 1) as nat
            } else {
                0
            },
        ),
        RivetLayout::Custom { count } => custom_slots(count as nat),
    }
}

/// The rivets that the layout places, in placement order.
pub fn rivet_slots(layout: &RivetLayout) -> (slots: Vec<RivetSlot>)
    requires
        rivet_layout_valid(*layout),
    ensures
        slots@ == spec_rivet_slots(*layout),
{
    let mut slots: Vec<RivetSlot> = Vec::new();
    assert(slots@ =~= Seq::<RivetSlot>::empty());
    match layout {
        RivetLayout::Grid { rows, cols } => {
            let mut row: u32 = 0;
            while row < *rows
                invariant
                    row <= *rows,
                    slots@ == grid_slots(*cols, row as nat),
                decreases *rows - row,
            {
                let ghost before = slots@;
                let mut col: u32 = 0;
                while col < *cols
                    invariant
                        col <= *cols,
                        row < *rows,
                        slots@ == before + grid_row_slots(row, col as nat),
                    decreases *cols - col,
                {
                    slots.push(RivetSlot::Grid { row, col });
                    assert(slots@ =~= before + grid_row_slots(row, (col + 1) as nat));
                    col += 1;
                }
                assert(grid_slots(*cols, (row + 1) as nat) =~= grid_slots(*cols, row as nat)
                    + grid_row_slots(row, *cols as nat));
                row += 1;
            }
        },
        RivetLayout::Edge { count_per_edge } => {
            let c = *count_per_edge;
            let mut i: u32 = 0;
            while i < c
                invariant
                    i <= c,
                    c == *count_per_edge,
                    slots@ == top_bottom_slots(i as nat),
                decreases c - i,
            {
                slots.push(RivetSlot::Top { i });
                slots.push(RivetSlot::Bottom { i });
                assert(slots@ =~= top_bottom_slots((i + 1) as nat));
                i += 1;
            }
            let ghost tb = slots@;
            let end = if c >= 1 {
                c - 1
            } else {
                0
            };
            let mut j: u32 = 1;
            assert(slots@ =~= tb + side_slots(1));
            while j < end
                invariant
                    1 <= j,
                    j <= end || j == 1,
                    c == *count_per_edge,
                    end == (if c >= 1 {
                        c - 1
                    } else {
                        0
                    }),
                    tb == top_bottom_slots(c as nat),
                    slots@ == tb + side_slots(j as nat),
                decreases end - j,
            {
                slots.push(RivetSlot::Left { i: j });
                slots.push(RivetSlot::Right { i: j });
                assert(slots@ =~= tb + side_slots((j + 1) as nat));
                j += 1;
            }
            proof {
                if end == 0 {
                    assert(side_slots(0) =~= side_slots(1));
                }
                assert(slots@ =~= spec_rivet_slots(*layout));
            }
        },
        RivetLayout::Custom { count } => {
            let mut k: usize = 0;
            while k < *count
                invariant
                    k <= *count,
                    slots@ == custom_slots(k as nat),
                decreases *count - k,
            {
                slots.push(RivetSlot::Custom { k });
                assert(slots@ =~= custom_slots((k + 1) as nat));
                k += 1;
            }
        },
    }
    slots
}

proof fn lemma_grid_row_slots_len(row: u32, n: nat)
    ensures
        grid_row_slots(row, n).len() == n,
    decreases n,
{
    if n > 0 {
        lemma_grid_row_slots_len(row, (n - 1) as nat);
    }
}

proof fn lemma_grid_slots_len(cols: u32, n: nat)
    ensures
        grid_slots(cols, n).len() == cols * n,
    decreases n,
{
    if n > 0 {
        lemma_grid_slots_len(cols, (n - 1) as nat);
        lemma_grid_row_slots_len((n - 1) as u32, cols as nat);
        assert(cols * (n - 1) + cols == cols * n) by (nonlinear_arith);
    } else {
        assert(cols * n == 0) by (nonlinear_arith)
            requires
                n == 0,
        ;
    }
}

proof fn lemma_top_bottom_len(n: nat)
    ensures
        top_bottom_slots(n).len() == 2 * n,
    decreases n,
{
    if n > 0 {
        lemma_top_bottom_len((n - 1) as nat);
    }
}

proof fn lemma_side_slots_len(m: nat)
    ensures
        side_slots(m).len() == if m >= 1 {
            2 * (m - 1)
        } else {
            0
        },
    decreases m,
{
    if m > 1 {
        lemma_side_slots_len((m - 1) as nat);
    }
}

proof fn lemma_custom_slots_len(n: nat)
    ensures
        custom_slots(n).len() == n,
    decreases n,
{
    if n > 0 {
        lemma_custom_slots_len((n - 1) as nat);
    }
}

/// The rivet count used for the triangle estimate is the number of rivets
/// the layout actually places.
pub proof fn law_rivet_count_matches_slots(layout: RivetLayout)
    ensures
        spec_rivet_slots(layout).len() == spec_rivet_count(layout),
{
    match layout {
        RivetLayout::Grid { rows, cols } => {
            lemma_grid_slots_len(cols, rows as nat);
            assert(cols * rows == rows * cols) by (nonlinear_arith);
        },
        RivetLayout::Edge { count_per_edge } => {
            lemma_top_bottom_len(count_per_edge as nat);
            let m: nat = if count_per_edge >= 1 {
                (count_per_edge - 1) as nat
            } else {
                0
            };
            lemma_side_slots_len(m);
        },
        RivetLayout::Custom { count } => {
            lemma_custom_slots_len(count as nat);
        },
    }
}

/// Vertices of a riveted panel: four for each of its six faces, then a
/// center and a ring of seven for each rivet.
pub open spec fn riveted_panel_vertex_count(rivets: nat) -> nat {
    24 + 8 * rivets
}

/// The domes of the first `n` rivets, the first at vertex `base`: six
/// triangles each, fanned around the rivet's center.
pub open spec fn rivet_domes_seq(base: int, n: nat) -> Seq<u32>
    decreases n,
{
    if n == 0 {
        Seq::empty()
    } else {
        let b = base + 8 * (n - 1);
        rivet_domes_seq(base, (n - 1) as nat) + fan_seq(b, b + 1, 6, false)
    }
}

/// The six faces of the panel, then the rivet domes.
pub open spec fn riveted_panel_index_seq(rivets: nat) -> Seq<u32> {
    quads_seq(0, 6) + rivet_domes_seq(24, rivets)
}

pub proof fn lemma_rivet_domes_seq(base: int, n: nat)
    requires
        0 <= base,
        base + 8 * n <= u32::MAX + 1,
    ensures
        rivet_domes_seq(base, n).len() == 18 * n,
        refs_below(rivet_domes_seq(base, n), base + 8 * n),
    decreases n,
{
    if n > 0 {
        let b = base + 8 * (n - 1);
        lemma_rivet_domes_seq(base, (n - 1) as nat);
        lemma_fan_seq(b, b + 1, 6, false, base + 8 * n);
        lemma_refs_weaken(rivet_domes_seq(base, (n - 1) as nat), b, base + 8 * n);
        lemma_refs_concat(
            rivet_domes_seq(base, (n - 1) as nat),
            fan_seq(b, b + 1, 6, false),
            base + 8 * n,
        );
    }
}

/// Index list of a riveted panel with `rivets` rivets.
pub fn riveted_panel_indices(rivets: u32) -> (indices: Vec<u32>)
    requires
        riveted_panel_vertex_count(rivets as nat) <= u32::MAX,
    ensures
        indices@ == riveted_panel_index_seq(rivets as nat),
        indices@.len() == 36 + 18 * rivets,
        refs_below(indices@, riveted_panel_vertex_count(rivets as nat) as int),
{
    let mut indices: Vec<u32> = Vec::new();
    push_quads(&mut indices, 0, 6);
    let ghost faces = indices@;
    assert(faces =~= quads_seq(0, 6));
    let mut r: u32 = 0;
    while r < rivets
        invariant
            r <= rivets,
            24 + 8 * rivets <= u32::MAX,
            indices@ == faces + rivet_domes_seq(24, r as nat),
        decreases rivets - r,
    {
        let b = 24 + 8 * r;
        push_fan(&mut indices, b, b + 1, 6, false);
        assert(rivet_domes_seq(24, (r + 1) as nat) =~= rivet_domes_seq(24, r as nat) + fan_seq(
            b as int,
            b + 1,
            6,
            false,
        ));
        assert(indices@ =~= faces + rivet_domes_seq(24, (r + 1) as nat));
        r += 1;
    }
    proof {
        lemma_quads_seq(0, 6);
        lemma_rivet_domes_seq(24, rivets as nat);
        lemma_refs_weaken(faces, 24, 24 + 8 * rivets);
        lemma_refs_concat(faces, rivet_domes_seq(24, rivets as nat), 24 + 8 * rivets);
    }
    indices
}

/// Triangle estimate of a riveted panel: two per face and six per rivet.
pub fn riveted_panel_triangle_count(rivets: u32) -> (n: u32)
    requires
        12 + 6 * rivets <= u32::MAX,
    ensures
        n == 12 + 6 * rivets,
{
    let panel_tris: u32 = 12;
    panel_tris + rivets * 6
}

/// The triangle estimate of a riveted panel counts exactly the triangles of
/// its index list.
pub proof fn law_riveted_panel_triangle_count(rivets: u32)
    ensures
        riveted_panel_index_seq(rivets as nat).len() == 3 * (12 + 6 * rivets),
{
    lemma_quads_len(0, 6);
    lemma_rivet_domes_len(24, rivets as nat);
}

proof fn lemma_rivet_domes_len(base: int, n: nat)
    ensures
        rivet_domes_seq(base, n).len() == 18 * n,
    decreases n,
{
    if n > 0 {
        let b = base + 8 * (n - 1);
        lemma_rivet_domes_len(base, (n - 1) as nat);
        lemma_fan_len(b, b + 1, 6, false);
    }
}

// ---------------------------------------------------------------------------
// Turret, wheels, river, terrain
// ---------------------------------------------------------------------------

/// Vertices of the turret: the side grid of `(segments + 1) * (height + 1)`
/// vertices, then the top center, then the bottom center.
pub open spec fn turret_vertex_count(segments: nat, height: nat) -> nat {
    (segments + 1) * (height + 1) + 2
}

/// The side grid, the top cap fanned around the top center over the last
/// ring of the grid, and the bottom cap fanned the other way around the
/// bottom center over the first ring.
pub open spec fn turret_index_seq(segments: nat, height: nat) -> Seq<u32> {
    let side = (segments + 1) * (height + 1);
    grid_seq(segments, height) + fan_seq(side as int, (height * (segments + 1)) as int, segments, false)
        + fan_seq((side + 1) as int, 0, segments, true)
}

/// Index list of the turret body with `segments` around and `height`
/// segments up.
pub fn turret_indices(segments: u32, height_segments: u32) -> (indices: Vec<u32>)
    requires
        turret_vertex_count(segments as nat, height_segments as nat) <= u32::MAX,
    ensures
        indices@ == turret_index_seq(segments as nat, height_segments as nat),
        indices@.len() == 6 * segments * height_segments + 6 * segments,
        refs_below(indices@, turret_vertex_count(segments as nat, height_segments as nat) as int),
{
    let ghost s = segments as nat;
    let ghost h = height_segments as nat;
    let ghost total = turret_vertex_count(s, h) as int;
    proof {
        lemma_side_fits(s, h);
        assert(h * (s + 1) + s <= (s + 1) * (h + 1)) by (nonlinear_arith);
        assert(h * (s + 1) >= 0) by (nonlinear_arith);
    }
    let mut indices = grid_indices(segments, height_segments);
    let row_width = segments + 1;
    let side = row_width * (height_segments + 1);
    let top_ring = height_segments * row_width;
    let ghost grid = indices@;
    push_fan(&mut indices, side, top_ring, segments, false);
    let ghost with_top = indices@;
    push_fan(&mut indices, side + 1, 0, segments, true);
    proof {
        lemma_grid_seq(s, h, h);
        lemma_refs_weaken(grid, side as int, total);
        lemma_fan_seq(side as int, top_ring as int, s, false, total);
        lemma_fan_seq(side + 1, 0, s, true, total);
        lemma_refs_concat(grid, fan_seq(side as int, top_ring as int, s, false), total);
        lemma_refs_concat(with_top, fan_seq(side + 1, 0, s, true), total);
        assert(indices@ =~= turret_index_seq(s, h));
    }
    indices
}

/// Vertices of a simple wheel of `segments` segments: the rim as
/// `segments + 1` pairs, then the front cap (center and ring of
/// `segments + 1`), then the back cap.
pub open spec fn wheel_vertex_count(segments: nat) -> nat {
    4 * segments + 6
}

/// The rim strip, the front cap, then the back cap wound the other way.
pub open spec fn wheel_index_seq(segments: nat) -> Seq<u32> {
    let front = 2 * (segments + 1);
    let back = front + segments + 2;
    strip_seq(0, segments, StripWinding::CrossDiagonal) + fan_seq(
        front as int,
        (front + 1) as int,
        segments,
        false,
    ) + fan_seq(back as int, (back + 1) as int, segments, true)
}

/// Index list of a simple wheel (road wheel, sprocket, idler, return roller).
pub fn wheel_indices(segments: u32) -> (indices: Vec<u32>)
    requires
        wheel_vertex_count(segments as nat) <= u32::MAX,
    ensures
        indices@ == wheel_index_seq(segments as nat),
        indices@.len() == 12 * segments,
        refs_below(indices@, wheel_vertex_count(segments as nat) as int),
{
    let ghost total = wheel_vertex_count(segments as nat) as int;
    let mut indices: Vec<u32> = Vec::new();
    push_strip(&mut indices, 0, segments, StripWinding::CrossDiagonal);
    let ghost rim = indices@;
    let front = 2 * (segments + 1);
    push_fan(&mut indices, front, front + 1, segments, false);
    let ghost with_front = indices@;
    let back = front + segments + 2;
    push_fan(&mut indices, back, back + 1, segments, true);
    proof {
        assert(rim =~= strip_seq(0, segments as nat, StripWinding::CrossDiagonal));
        lemma_strip_seq(0, segments as nat, StripWinding::CrossDiagonal);
        lemma_refs_weaken(rim, 2 * segments + 2, total);
        lemma_fan_seq(front as int, front + 1, segments as nat, false, total);
        lemma_fan_seq(back as int, back + 1, segments as nat, true, total);
        lemma_refs_concat(rim, fan_seq(front as int, front + 1, segments as nat, false), total);
        lemma_refs_concat(with_front, fan_seq(back as int, back + 1, segments as nat, true), total);
        assert(indices@ =~= wheel_index_seq(segments as nat));
    }
    indices
}

/// Index list of a river ribbon of `segments` segments: two vertices (left
/// and right bank) per center point.
pub fn river_indices(segments: u32) -> (indices: Vec<u32>)
    requires
        2 * segments + 2 <= u32::MAX,
    ensures
        indices@ == strip_seq(0, segments as nat, StripWinding::Ladder),
        indices@.len() == 6 * segments,
        refs_below(indices@, 2 * segments + 2),
{
    let mut indices: Vec<u32> = Vec::new();
    push_strip(&mut indices, 0, segments, StripWinding::Ladder);
    proof {
        assert(indices@ =~= strip_seq(0, segments as nat, StripWinding::Ladder));
        lemma_strip_seq(0, segments as nat, StripWinding::Ladder);
    }
    indices
}

/// Index list of the terrain: a square grid of `subdivisions` by
/// `subdivisions` quads over `(subdivisions + 1)^2` vertices.
pub fn terrain_indices(subdivisions: u32) -> (indices: Vec<u32>)
    requires
        (subdivisions + 1) * (subdivisions + 1) <= u32::MAX,
    ensures
        indices@ == grid_seq(subdivisions as nat, subdivisions as nat),
        indices@.len() == 6 * subdivisions * subdivisions,
        refs_below(indices@, ((subdivisions + 1) * (subdivisions + 1)) as int),
{
    let indices = grid_indices(subdivisions, subdivisions);
    proof {
        lemma_grid_seq(subdivisions as nat, subdivisions as nat, subdivisions as nat);
    }
    indices
}

// ---------------------------------------------------------------------------
// Merging meshes
// ---------------------------------------------------------------------------

/// Shift every index of `part` by `base`.
pub open spec fn offset_seq(part: Seq<u32>, base: int) -> Seq<u32> {
    part.map_values(|i: u32| (i + base) as u32)
}

/// Append the indices of a mesh whose vertices were appended after `base`
/// vertices of the merged mesh.
pub fn append_with_offset(indices: &mut Vec<u32>, part: &Vec<u32>, base: u32)
    requires
        forall|k: int| 0 <= k < part@.len() ==> part@[k] + base <= u32::MAX,
    ensures
        final(indices)@ == old(indices)@ + offset_seq(part@, base as int),
{
    let mut k: usize = 0;
    while k < part.len()
        invariant
            k <= part@.len(),
            forall|j: int| 0 <= j < part@.len() ==> part@[j] + base <= u32::MAX,
            indices@ == old(indices)@ + offset_seq(part@.take(k as int), base as int),
        decreases part@.len() - k,
    {
        let ghost before = indices@;
        indices.push(base + part[k]);
        assert(part@.take((k + 1) as int) =~= part@.take(k as int).push(part@[k as int]));
        assert(offset_seq(part@.take((k + 1) as int), base as int) =~= offset_seq(
            part@.take(k as int),
            base as int,
        ).push((part@[k as int] + base) as u32));
        assert(indices@ =~= old(indices)@ + offset_seq(part@.take((k + 1) as int), base as int));
        k += 1;
    }
    assert(part@.take(part@.len() as int) =~= part@);
}

/// Merged triangles reference the merged vertices: if a part references
/// only its own `count` vertices, its offset copy references only the
/// vertices `base .. base + count` of the merged mesh.
pub proof fn law_offset_refs(part: Seq<u32>, base: int, count: int)
    requires
        0 <= base,
        refs_below(part, count),
        base + count <= u32::MAX + 1,
    ensures
        refs_below(offset_seq(part, base), base + count),
        forall|k: int| 0 <= k < part.len() ==> base <= #[trigger] offset_seq(part, base)[k],
        offset_seq(part, base).len() == part.len(),
{
    assert forall|k: int| 0 <= k < offset_seq(part, base).len() implies (#[trigger] offset_seq(
        part,
        base,
    )[k]) < base + count by {
        assert(part[k] < count);
    }
}

/// Sum over the parts of a merged mesh of each part's triangle count, the
/// index count divided by three.
pub open spec fn sum_triangle_counts(index_counts: Seq<u32>) -> nat
    decreases index_counts.len(),
{
    if index_counts.len() == 0 {
        0
    } else {
        sum_triangle_counts(index_counts.drop_last()) + (index_counts.last() / 3) as nat
    }
}

/// Triangle estimate of a merged mesh from the index counts of its parts.
pub fn compound_triangle_count(index_counts: &Vec<u32>) -> (n: u32)
    requires
        sum_triangle_counts(index_counts@) <= u32::MAX,
    ensures
        n == sum_triangle_counts(index_counts@),
{
    let mut total: u32 = 0;
    let mut k: usize = 0;
    while k < index_counts.len()
        invariant
            k <= index_counts@.len(),
            sum_triangle_counts(index_counts@) <= u32::MAX,
            total == sum_triangle_counts(index_counts@.take(k as int)),
        decreases index_counts@.len() - k,
    {
        proof {
            lemma_sum_triangle_counts_prefix(index_counts@, (k + 1) as int);
            assert(index_counts@.take((k + 1) as int).drop_last() =~= index_counts@.take(k as int));
        }
        total = total + index_counts[k] / 3;
        k += 1;
    }
    assert(index_counts@.take(index_counts@.len() as int) =~= index_counts@);
    total
}

proof fn lemma_sum_triangle_counts_prefix(s: Seq<u32>, k: int)
    requires
        0 <= k <= s.len(),
    ensures
        sum_triangle_counts(s.take(k)) <= sum_triangle_counts(s),
    decreases s.len(),
{
    if k < s.len() {
        assert(s.drop_last().take(k) =~= s.take(k));
        lemma_sum_triangle_counts_prefix(s.drop_last(), k);
    } else {
        assert(s.take(k) =~= s);
    }
}

/// Sum of the index counts of the parts of a merged mesh.
pub open spec fn sum_counts(index_counts: Seq<u32>) -> nat
    decreases index_counts.len(),
{
    if index_counts.len() == 0 {
        0
    } else {
        sum_counts(index_counts.drop_last()) + index_counts.last() as nat
    }
}

/// When every part is a whole number of triangles, the triangle estimate of
/// a merged mesh counts exactly the triangles of the merged index list,
/// whose length is the sum of the parts' lengths.
pub proof fn law_compound_triangle_count(index_counts: Seq<u32>)
    requires
        forall|k: int| 0 <= k < index_counts.len() ==> #[trigger] index_counts[k] % 3 == 0,
    ensures
        3 * sum_triangle_counts(index_counts) == sum_counts(index_counts),
    decreases index_counts.len(),
{
    if index_counts.len() > 0 {
        let init = index_counts.drop_last();
        assert forall|k: int| 0 <= k < init.len() implies #[trigger] init[k] % 3 == 0 by {
            assert(init[k] == index_counts[k]);
        }
        law_compound_triangle_count(init);
        assert(index_counts[index_counts.len() - 1] % 3 == 0);
    }
}

// ---------------------------------------------------------------------------
// What each index list holds, triangle by triangle
// ---------------------------------------------------------------------------

proof fn lemma_quads_at(base: int, n: nat, q: int, j: int)
    requires
        0 <= q < n,
        0 <= j < 6,
    ensures
        quads_seq(base, n)[6 * q + j] == quad_seq(base + 4 * q)[j],
    decreases n,
{
    let prev = (n - 1) as nat;
    lemma_quads_len(base, prev);
    if q < prev {
        lemma_quads_at(base, prev, q, j);
    }
}

proof fn lemma_corners_at(base: int, n: nat, c: int, j: int)
    requires
        0 <= c < n,
        0 <= j < 9,
    ensures
        corners_seq(base, n)[9 * c + j] == corner_seq(base + 4 * c)[j],
    decreases n,
{
    let prev = (n - 1) as nat;
    lemma_corners_len(base, prev);
    if c < prev {
        lemma_corners_at(base, prev, c, j);
    }
}

proof fn lemma_edge_strips_at(base: int, s: nat, n: nat, k: int, i: int, j: int)
    requires
        0 <= k < n,
        0 <= i < s,
        0 <= j < 6,
    ensures
        edge_strips_seq(base, s, n)[6 * s * k + 6 * i + j] == strip_cell(
            base + k * (2 * (s + 1)) + 2 * i,
            bevel_strip_winding(k),
        )[j],
    decreases n,
{
    let prev = (n - 1) as nat;
    lemma_edge_strips_len(base, s, prev);
    if k < prev {
        lemma_edge_strips_at(base, s, prev, k, i, j);
        assert(6 * s * k + 6 * i + j < 6 * s * prev) by (nonlinear_arith)
            requires
                k + 1 <= prev,
                0 <= i < s,
                0 <= j < 6,
                k >= 0,
        ;
    } else {
        assert(6 * s * k + 6 * i + j == 6 * s * prev + (6 * i + j)) by (nonlinear_arith)
            requires
                k == prev,
        ;
        lemma_strip_at(base + prev * (2 * (s + 1)), s, bevel_strip_winding(prev as int), i, j);
    }
}

proof fn lemma_bevel_parts(s: nat)
    requires
        s > 0,
    ensures
        beveled_box_index_seq(s, true) == quads_seq(0, 6) + (edge_strips_seq(24, s, 12)
            + corners_seq((24 + 24 * (s + 1)) as int, 8)),
        quads_seq(0, 6).len() == 36,
        edge_strips_seq(24, s, 12).len() == 72 * s,
        corners_seq((24 + 24 * (s + 1)) as int, 8).len() == 72,
{
    lemma_quads_len(0, 6);
    lemma_edge_strips_len(24, s, 12);
    lemma_corners_len((24 + 24 * (s + 1)) as int, 8);
}

/// The six inset faces of a beveled box, rounded or not, come first: face
/// `f` is the quad over vertices `4f .. 4f+3`, cut into `(4f, 4f+1, 4f+2)`
/// and `(4f, 4f+2, 4f+3)`.
pub proof fn law_beveled_box_face(s: nat, radius_above_threshold: bool, f: int)
    requires
        0 <= f < 6,
    ensures
        ({
            let idx = beveled_box_index_seq(s, radius_above_threshold);
            let p = 6 * f;
            let v = 4 * f;
            &&& idx[p] == v && idx[p + 1] == v + 1 && idx[p + 2] == v + 2
            &&& idx[p + 3] == v && idx[p + 4] == v + 2 && idx[p + 5] == v + 3
        }),
{
    lemma_quads_len(0, 6);
    lemma_quads_at(0, 6, f, 0);
    lemma_quads_at(0, 6, f, 1);
    lemma_quads_at(0, 6, f, 2);
    lemma_quads_at(0, 6, f, 3);
    lemma_quads_at(0, 6, f, 4);
    lemma_quads_at(0, 6, f, 5);
}

proof fn lemma_bevel_strip_at(s: nat, k: int, i: int, j: int)
    requires
        s > 0,
        0 <= k < 12,
        0 <= i < s,
        0 <= j < 6,
    ensures
        beveled_box_index_seq(s, true)[36 + 6 * s * k + 6 * i + j] == strip_cell(
            24 + 2 * (s + 1) * k + 2 * i,
            bevel_strip_winding(k),
        )[j],
{
    lemma_bevel_parts(s);
    lemma_edge_strips_at(24, s, 12, k, i, j);
    assert(k * (2 * (s + 1)) == 2 * (s + 1) * k) by (nonlinear_arith);
    assert(6 * s * k + 6 * i + j < 72 * s) by (nonlinear_arith)
        requires
            0 <= k < 12,
            0 <= i < s,
            0 <= j < 6,
    ;
    assert(0 <= 6 * s * k) by (nonlinear_arith)
        requires
            k >= 0,
    ;
}

/// Edge strip `k` of a rounded beveled box, quad `i`: it sits at position
/// `36 + 6 s k + 6 i` over the rung that starts at vertex
/// `v = 24 + 2 (s + 1) k + 2 i`.  The edges along X (strips 0..4) and along
/// Z (strips 8..12) are cut into `(v, v+2, v+1)` and `(v+1, v+2, v+3)`; the
/// edges along Y (strips 4..8) face the other way, `(v, v+1, v+2)` and
/// `(v+1, v+3, v+2)`.
pub proof fn law_beveled_box_edge_strip(s: nat, k: int, i: int)
    requires
        s > 0,
        0 <= k < 12,
        0 <= i < s,
        beveled_box_vertex_count(s, true) <= u32::MAX,
    ensures
        ({
            let idx = beveled_box_index_seq(s, true);
            let p = 36 + 6 * s * k + 6 * i;
            let v = 24 + 2 * (s + 1) * k + 2 * i;
            &&& 4 <= k < 8 ==> idx[p] == v && idx[p + 1] == v + 1 && idx[p + 2] == v + 2 && idx[p
                + 3] == v + 1 && idx[p + 4] == v + 3 && idx[p + 5] == v + 2
            &&& (k < 4 || 8 <= k) ==> idx[p] == v && idx[p + 1] == v + 2 && idx[p + 2] == v + 1
                && idx[p + 3] == v + 1 && idx[p + 4] == v + 2 && idx[p + 5] == v + 3
        }),
{
    assert(24 + 2 * (s + 1) * k + 2 * i + 3 <= 24 + 24 * (s + 1) + 32) by (nonlinear_arith)
        requires
            0 <= k < 12,
            0 <= i < s,
    ;
    assert(0 <= 2 * (s + 1) * k) by (nonlinear_arith)
        requires
            k >= 0,
    ;
    lemma_bevel_strip_at(s, k, i, 0);
    lemma_bevel_strip_at(s, k, i, 1);
    lemma_bevel_strip_at(s, k, i, 2);
    lemma_bevel_strip_at(s, k, i, 3);
    lemma_bevel_strip_at(s, k, i, 4);
    lemma_bevel_strip_at(s, k, i, 5);
}

proof fn lemma_bevel_corner_at(s: nat, c: int, j: int)
    requires
        s > 0,
        0 <= c < 8,
        0 <= j < 9,
    ensures
        beveled_box_index_seq(s, true)[36 + 72 * s + 9 * c + j] == corner_seq(
            24 + 24 * (s + 1) + 4 * c,
        )[j],
{
    lemma_bevel_parts(s);
    lemma_corners_at((24 + 24 * (s + 1)) as int, 8, c, j);
}

/// Corner `c` of a rounded beveled box closes the corner with three
/// triangles around its center vertex `b = 24 + 24 (s + 1) + 4 c`:
/// `(b, b+1, b+2)`, `(b, b+2, b+3)`, `(b, b+3, b+1)`, at position
/// `36 + 72 s + 9 c`, after all faces and edge strips.
pub proof fn law_beveled_box_corner(s: nat, c: int)
    requires
        s > 0,
        0 <= c < 8,
        beveled_box_vertex_count(s, true) <= u32::MAX,
    ensures
        ({
            let idx = beveled_box_index_seq(s, true);
            let p = 36 + 72 * s + 9 * c;
            let b = 24 + 24 * (s + 1) + 4 * c;
            &&& idx[p] == b && idx[p + 1] == b + 1 && idx[p + 2] == b + 2
            &&& idx[p + 3] == b && idx[p + 4] == b + 2 && idx[p + 5] == b + 3
            &&& idx[p + 6] == b && idx[p + 7] == b + 3 && idx[p + 8] == b + 1
        }),
{
    lemma_bevel_corner_at(s, c, 0);
    lemma_bevel_corner_at(s, c, 1);
    lemma_bevel_corner_at(s, c, 2);
    lemma_bevel_corner_at(s, c, 3);
    lemma_bevel_corner_at(s, c, 4);
    lemma_bevel_corner_at(s, c, 5);
    lemma_bevel_corner_at(s, c, 6);
    lemma_bevel_corner_at(s, c, 7);
    lemma_bevel_corner_at(s, c, 8);
}

/// Side cell `(h, i)` of the turret (row `h` of `height`, column `i` of
/// `segments` around): at position `6 (h segments + i)`, the triangles
/// `(a, a + segments + 1, a + 1)` and `(a + 1, a + segments + 1,
/// a + segments + 2)` with `a = h (segments + 1) + i`, the rings of
/// `segments + 1` vertices being stacked from the bottom.
pub proof fn law_turret_side_cell(segments: nat, height: nat, h: int, i: int)
    requires
        0 <= h < height,
        0 <= i < segments,
        turret_vertex_count(segments, height) <= u32::MAX,
    ensures
        ({
            let idx = turret_index_seq(segments, height);
            let p = 6 * (h * segments + i);
            let a = h * (segments + 1) + i;
            &&& idx[p] == a && idx[p + 1] == a + segments + 1 && idx[p + 2] == a + 1
            &&& idx[p + 3] == a + 1 && idx[p + 4] == a + segments + 1 && idx[p + 5] == a
                + segments + 2
        }),
{
    let side = (segments + 1) * (height + 1);
    lemma_grid_len(segments, height);
    lemma_fan_len(side as int, (height * (segments + 1)) as int, segments, false);
    crate::topology::law_grid_cell_values(segments, height, h, i);
    assert(6 * (h * segments + i) + 5 < 6 * segments * height) by (nonlinear_arith)
        requires
            0 <= h < height,
            0 <= i < segments,
    ;
    assert(0 <= h * segments) by (nonlinear_arith)
        requires
            h >= 0,
    ;
}

/// The turret's caps: top triangle `i` (at `6 segments height + 3 i`) joins
/// the top center `t = (segments + 1)(height + 1)` to the top ring,
/// `(t, r + i, r + i + 1)` with `r = height (segments + 1)`; bottom triangle
/// `i` (after the top cap) joins the bottom center `t + 1` to the bottom ring
/// the other way round, `(t + 1, i + 1, i)`.
pub proof fn law_turret_caps(segments: nat, height: nat, i: int)
    requires
        0 <= i < segments,
        turret_vertex_count(segments, height) <= u32::MAX,
    ensures
        ({
            let idx = turret_index_seq(segments, height);
            let t = (segments + 1) * (height + 1);
            let r = height * (segments + 1);
            let top = 6 * segments * height + 3 * i;
            let bottom = 6 * segments * height + 3 * segments + 3 * i;
            &&& idx[top] == t && idx[top + 1] == r + i && idx[top + 2] == r + i + 1
            &&& idx[bottom] == t + 1 && idx[bottom + 1] == i + 1 && idx[bottom + 2] == i
        }),
{
    let side = (segments + 1) * (height + 1);
    let ring = height * (segments + 1);
    assert(ring + segments <= side) by (nonlinear_arith)
        requires
            ring == height * (segments + 1),
            side == (segments + 1) * (height + 1),
    ;
    lemma_grid_len(segments, height);
    lemma_fan_len(side as int, ring as int, segments, false);
    lemma_fan_len((side + 1) as int, 0, segments, true);
    lemma_fan_at(side as int, ring as int, segments, false, i, 0);
    lemma_fan_at(side as int, ring as int, segments, false, i, 1);
    lemma_fan_at(side as int, ring as int, segments, false, i, 2);
    lemma_fan_at((side + 1) as int, 0, segments, true, i, 0);
    lemma_fan_at((side + 1) as int, 0, segments, true, i, 1);
    lemma_fan_at((side + 1) as int, 0, segments, true, i, 2);
}

/// Side cell `(h, i)` of a cylinder with `radial` segments around and
/// `height` along: at position `6 (h radial + i)`, the triangles
/// `(a, a + radial + 1, a + 1)` and `(a + 1, a + radial + 1, a + radial + 2)`
/// with `a = h (radial + 1) + i`.
pub proof fn law_cylinder_side_cell(radial: nat, height: nat, bottom: bool, top: bool, h: int, i: int)
    requires
        0 <= h < height,
        0 <= i < radial,
        cylinder_vertex_count(radial, height, bottom, top) <= u32::MAX,
    ensures
        ({
            let idx = cylinder_index_seq(radial, height, bottom, top);
            let p = 6 * (h * radial + i);
            let a = h * (radial + 1) + i;
            &&& idx[p] == a && idx[p + 1] == a + radial + 1 && idx[p + 2] == a + 1
            &&& idx[p + 3] == a + 1 && idx[p + 4] == a + radial + 1 && idx[p + 5] == a + radial
                + 2
        }),
{
    lemma_side_fits(radial, height);
    lemma_grid_len(radial, height);
    crate::topology::law_grid_cell_values(radial, height, h, i);
    assert(6 * (h * radial + i) + 5 < 6 * radial * height) by (nonlinear_arith)
        requires
            0 <= h < height,
            0 <= i < radial,
    ;
    assert(0 <= h * radial) by (nonlinear_arith)
        requires
            h >= 0,
    ;
}

/// A cylinder's caps come after its side grid of `g = 6 radial height`
/// indices, over the side's `n = (radial + 1)(height + 1)` vertices.  The
/// bottom cap (when present) is the fan around center `n` over the ring from
/// `n + 1`, wound clockwise: triangle `i` is `(n, n + i + 2, n + i + 1)` at
/// `g + 3 i`.  The top cap (when present) follows, around center
/// `c = n + radial + 2` if there is a bottom cap and `c = n` otherwise:
/// triangle `i` is `(c, c + i + 1, c + i + 2)`.
pub proof fn law_cylinder_caps(radial: nat, height: nat, bottom: bool, top: bool, i: int)
    requires
        0 <= i < radial,
        cylinder_vertex_count(radial, height, bottom, top) <= u32::MAX,
    ensures
        ({
            let idx = cylinder_index_seq(radial, height, bottom, top);
            let n = (radial + 1) * (height + 1);
            let g = 6 * radial * height;
            let c = if bottom {
                n + radial + 2
            } else {
                n
            };
            let q = if bottom {
                g + 3 * radial + 3 * i
            } else {
                g + 3 * i
            };
            &&& idx.len() == g + (if bottom {
                3 * radial
            } else {
                0
            }) + (if top {
                3 * radial
            } else {
                0
            })
            &&& bottom ==> idx[g + 3 * i] == n && idx[g + 3 * i + 1] == n + i + 2 && idx[g + 3 * i
                + 2] == n + i + 1
            &&& top ==> idx[q] == c && idx[q + 1] == c + i + 1 && idx[q + 2] == c + i + 2
        }),
{
    let n = (radial + 1) * (height + 1);
    let c = if bottom {
        n + radial + 2
    } else {
        n
    };
    lemma_side_fits(radial, height);
    lemma_grid_len(radial, height);
    lemma_fan_len(n as int, (n + 1) as int, radial, true);
    lemma_fan_len(c as int, (c + 1) as int, radial, false);
    lemma_fan_at(n as int, (n + 1) as int, radial, true, i, 0);
    lemma_fan_at(n as int, (n + 1) as int, radial, true, i, 1);
    lemma_fan_at(n as int, (n + 1) as int, radial, true, i, 2);
    lemma_fan_at(c as int, (c + 1) as int, radial, false, i, 0);
    lemma_fan_at(c as int, (c + 1) as int, radial, false, i, 1);
    lemma_fan_at(c as int, (c + 1) as int, radial, false, i, 2);
}

/// A wheel's rim quad `i` (at `6 i`) over the rung `v = 2 i` is cut along
/// the other diagonal: `(v, v+1, v+3)` and `(v, v+3, v+2)`.  Then the front
/// cap around `f = 2 (segments + 1)`, triangle `i` at `6 segments + 3 i`
/// being `(f, f + i + 1, f + i + 2)`, and the back cap around
/// `b = f + segments + 2`, wound the other way: `(b, b + i + 2, b + i + 1)`
/// at `9 segments + 3 i`.
pub proof fn law_wheel_triangles(segments: nat, i: int)
    requires
        0 <= i < segments,
        wheel_vertex_count(segments) <= u32::MAX,
    ensures
        ({
            let idx = wheel_index_seq(segments);
            let v = 2 * i;
            let f = 2 * (segments + 1);
            let b = f + segments + 2;
            let front = 6 * segments + 3 * i;
            let back = 9 * segments + 3 * i;
            &&& idx[6 * i] == v && idx[6 * i + 1] == v + 1 && idx[6 * i + 2] == v + 3
            &&& idx[6 * i + 3] == v && idx[6 * i + 4] == v + 3 && idx[6 * i + 5] == v + 2
            &&& idx[front] == f && idx[front + 1] == f + i + 1 && idx[front + 2] == f + i + 2
            &&& idx[back] == b && idx[back + 1] == b + i + 2 && idx[back + 2] == b + i + 1
        }),
{
    let f = 2 * (segments + 1);
    let b = f + segments + 2;
    lemma_strip_len(0, segments, StripWinding::CrossDiagonal);
    lemma_fan_len(f as int, (f + 1) as int, segments, false);
    lemma_fan_len(b as int, (b + 1) as int, segments, true);
    crate::topology::law_strip_cell_values(0, segments, StripWinding::CrossDiagonal, i);
    lemma_fan_at(f as int, (f + 1) as int, segments, false, i, 0);
    lemma_fan_at(f as int, (f + 1) as int, segments, false, i, 1);
    lemma_fan_at(f as int, (f + 1) as int, segments, false, i, 2);
    lemma_fan_at(b as int, (b + 1) as int, segments, true, i, 0);
    lemma_fan_at(b as int, (b + 1) as int, segments, true, i, 1);
    lemma_fan_at(b as int, (b + 1) as int, segments, true, i, 2);
}

/// The boxes of `box_indices`: face `q` (the `q mod 6`-th face of box
/// `q / 6`) is the quad over vertices `4q .. 4q+3`, cut into
/// `(4q, 4q+1, 4q+2)` and `(4q, 4q+2, 4q+3)` at position `6q`.
pub proof fn law_box_face(boxes: nat, q: int)
    requires
        0 <= q < 6 * boxes,
        box_vertex_count(boxes) <= u32::MAX,
    ensures
        ({
            let idx = quads_seq(0, 6 * boxes);
            let v = 4 * q;
            &&& idx.len() == 36 * boxes
            &&& idx[6 * q] == v && idx[6 * q + 1] == v + 1 && idx[6 * q + 2] == v + 2
            &&& idx[6 * q + 3] == v && idx[6 * q + 4] == v + 2 && idx[6 * q + 5] == v + 3
        }),
{
    lemma_quads_len(0, 6 * boxes);
    lemma_quads_at(0, 6 * boxes, q, 0);
    lemma_quads_at(0, 6 * boxes, q, 1);
    lemma_quads_at(0, 6 * boxes, q, 2);
    lemma_quads_at(0, 6 * boxes, q, 3);
    lemma_quads_at(0, 6 * boxes, q, 4);
    lemma_quads_at(0, 6 * boxes, q, 5);
}

proof fn lemma_rivet_domes_at(base: int, n: nat, q: int, t: int, j: int)
    requires
        0 <= q < n,
        0 <= t < 6,
        0 <= j < 3,
    ensures
        rivet_domes_seq(base, n)[18 * q + 3 * t + j] == fan_tri(
            base + 8 * q,
            base + 8 * q + 1,
            t,
            false,
        )[j],
    decreases n,
{
    let prev = (n - 1) as nat;
    lemma_rivet_domes_len(base, prev);
    if q < prev {
        lemma_rivet_domes_at(base, prev, q, t, j);
    } else {
        let b = base + 8 * prev;
        lemma_fan_at(b, b + 1, 6, false, t, j);
    }
}

/// A riveted panel: its six faces first (face `f` is the quad over vertices
/// `4f .. 4f+3`, `(4f, 4f+1, 4f+2)` and `(4f, 4f+2, 4f+3)`), then each rivet
/// `q`'s dome of six triangles around its center `c = 24 + 8q`: triangle `t`
/// at `36 + 18q + 3t` is `(c, c + t + 1, c + t + 2)`.
pub proof fn law_riveted_panel_triangles(rivets: nat, f: int, q: int, t: int)
    requires
        0 <= f < 6,
        0 <= q < rivets,
        0 <= t < 6,
        riveted_panel_vertex_count(rivets) <= u32::MAX,
    ensures
        ({
            let idx = riveted_panel_index_seq(rivets);
            let v = 4 * f;
            let c = 24 + 8 * q;
            let p = 36 + 18 * q + 3 * t;
            &&& idx[6 * f] == v && idx[6 * f + 1] == v + 1 && idx[6 * f + 2] == v + 2
            &&& idx[6 * f + 3] == v && idx[6 * f + 4] == v + 2 && idx[6 * f + 5] == v + 3
            &&& idx[p] == c && idx[p + 1] == c + t + 1 && idx[p + 2] == c + t + 2
        }),
{
    lemma_quads_len(0, 6);
    lemma_rivet_domes_len(24, rivets);
    lemma_quads_at(0, 6, f, 0);
    lemma_quads_at(0, 6, f, 1);
    lemma_quads_at(0, 6, f, 2);
    lemma_quads_at(0, 6, f, 3);
    lemma_quads_at(0, 6, f, 4);
    lemma_quads_at(0, 6, f, 5);
    lemma_rivet_domes_at(24, rivets, q, t, 0);
    lemma_rivet_domes_at(24, rivets, q, t, 1);
    lemma_rivet_domes_at(24, rivets, q, t, 2);
}

proof fn lemma_grid_row_slots_at(row: u32, n: nat, c: int)
    requires
        0 <= c < n,
    ensures
        grid_row_slots(row, n)[c] == (RivetSlot::Grid { row, col: c as u32 }),
    decreases n,
{
    lemma_grid_row_slots_len(row, (n - 1) as nat);
    if c < n - 1 {
        lemma_grid_row_slots_at(row, (n - 1) as nat, c);
    }
}

proof fn lemma_grid_slots_at(cols: u32, n: nat, r: int, c: int)
    requires
        0 <= r < n,
        0 <= c < cols,
    ensures
        grid_slots(cols, n)[r * cols + c] == (RivetSlot::Grid { row: r as u32, col: c as u32 }),
    decreases n,
{
    let prev = (n - 1) as nat;
    lemma_grid_slots_len(cols, prev);
    lemma_grid_row_slots_len(prev as u32, cols as nat);
    if r < prev {
        lemma_grid_slots_at(cols, prev, r, c);
        assert(r * cols + c < cols * prev) by (nonlinear_arith)
            requires
                r + 1 <= prev,
                0 <= c < cols,
                r >= 0,
        ;
    } else {
        assert(r * cols + c == cols * prev + c) by (nonlinear_arith)
            requires
                r == prev,
        ;
        lemma_grid_row_slots_at(prev as u32, cols as nat, c);
    }
    assert(0 <= r * cols) by (nonlinear_arith)
        requires
            r >= 0,
    ;
}

/// A grid of `rows` by `cols` rivets is placed row by row: rivet
/// `r * cols + c` is the one in row `r`, column `c`, for every `r < rows`
/// and `c < cols`, and there are exactly `rows * cols` of them.
pub proof fn law_grid_rivet_slots(rows: u32, cols: u32, r: u32, c: u32)
    requires
        r < rows,
        c < cols,
    ensures
        spec_rivet_slots(RivetLayout::Grid { rows, cols }).len() == rows * cols,
        spec_rivet_slots(RivetLayout::Grid { rows, cols })[r * cols + c] == (RivetSlot::Grid {
            row: r,
            col: c,
        }),
{
    lemma_grid_slots_len(cols, rows as nat);
    assert(cols * rows == rows * cols) by (nonlinear_arith);
    lemma_grid_slots_at(cols, rows as nat, r as int, c as int);
}

/// Equivalently: slot `k` of a grid layout is in row `k / cols` and column
/// `k % cols`, so every slot lies inside the grid.
pub proof fn law_grid_rivet_slot_position(rows: u32, cols: u32, k: int)
    requires
        0 <= k < rows * cols,
    ensures
        ({
            let slot = spec_rivet_slots(RivetLayout::Grid { rows, cols })[k];
            &&& slot == (RivetSlot::Grid { row: (k / (cols as int)) as u32, col: (k % (cols as int)) as u32 })
            &&& (k / (cols as int)) < rows
            &&& (k % (cols as int)) < cols
        }),
{
    assert(cols > 0) by (nonlinear_arith)
        requires
            0 <= k < rows * cols,
    ;
    let r = k / (cols as int);
    let c = k % (cols as int);
    vstd::arithmetic::div_mod::lemma_fundamental_div_mod(k, (cols as int));
    assert(0 <= r) by (nonlinear_arith)
        requires
            k >= 0,
            cols > 0,
            r == k / (cols as int),
    ;
    assert(r < rows) by (nonlinear_arith)
        requires
            k < rows * cols,
            k == cols * r + c,
            0 <= c,
            cols > 0,
    ;
    law_grid_rivet_slots(rows, cols, r as u32, c as u32);
    assert(r * cols + c == k) by (nonlinear_arith)
        requires
            k == cols * r + c,
    ;
}

proof fn lemma_top_bottom_at(n: nat, i: int)
    requires
        0 <= i < n,
    ensures
        top_bottom_slots(n)[2 * i] == (RivetSlot::Top { i: i as u32 }),
        top_bottom_slots(n)[2 * i + 1] == (RivetSlot::Bottom { i: i as u32 }),
    decreases n,
{
    lemma_top_bottom_len((n - 1) as nat);
    if i < n - 1 {
        lemma_top_bottom_at((n - 1) as nat, i);
    }
}

proof fn lemma_side_slots_at(m: nat, j: int)
    requires
        1 <= j < m,
    ensures
        side_slots(m)[2 * (j - 1)] == (RivetSlot::Left { i: j as u32 }),
        side_slots(m)[2 * (j - 1) + 1] == (RivetSlot::Right { i: j as u32 }),
    decreases m,
{
    lemma_side_slots_len((m - 1) as nat);
    if j < m - 1 {
        lemma_side_slots_at((m - 1) as nat, j);
    }
}

/// An edge layout with `n` rivets per edge places, for each `i < n`, the
/// `i`-th top rivet at slot `2i` and the `i`-th bottom rivet at slot
/// `2i + 1`; then, for each `j` with `1 <= j < n - 1` (the corners are
/// already placed), the left rivet `j` at slot `2n + 2(j - 1)` and the right
/// rivet `j` right after it.
pub proof fn law_edge_rivet_slots(n: u32, i: u32, j: u32)
    requires
        i < n,
        1 <= j,
        j + 1 < n,
    ensures
        spec_rivet_slots(RivetLayout::Edge { count_per_edge: n })[2 * i] == (RivetSlot::Top { i }),
        spec_rivet_slots(RivetLayout::Edge { count_per_edge: n })[2 * i + 1] == (RivetSlot::Bottom {
            i,
        }),
        spec_rivet_slots(RivetLayout::Edge { count_per_edge: n })[2 * n + 2 * (j - 1)]
            == (RivetSlot::Left { i: j }),
        spec_rivet_slots(RivetLayout::Edge { count_per_edge: n })[2 * n + 2 * (j - 1) + 1]
            == (RivetSlot::Right { i: j }),
{
    lemma_top_bottom_len(n as nat);
    lemma_side_slots_len((n - 1) as nat);
    lemma_top_bottom_at(n as nat, i as int);
    lemma_side_slots_at((n - 1) as nat, j as int);
}

/// The top and bottom rivets of an edge layout, for any number per edge.
pub proof fn law_edge_rivet_slots_top_bottom(n: u32, i: u32)
    requires
        i < n,
    ensures
        spec_rivet_slots(RivetLayout::Edge { count_per_edge: n })[2 * i] == (RivetSlot::Top { i }),
        spec_rivet_slots(RivetLayout::Edge { count_per_edge: n })[2 * i + 1] == (RivetSlot::Bottom {
            i,
        }),
{
    lemma_top_bottom_len(n as nat);
    lemma_side_slots_len((n - 1) as nat);
    lemma_top_bottom_at(n as nat, i as int);
}

proof fn lemma_custom_slots_at(n: nat, k: int)
    requires
        0 <= k < n,
    ensures
        custom_slots(n)[k] == (RivetSlot::Custom { k: k as usize }),
    decreases n,
{
    lemma_custom_slots_len((n - 1) as nat);
    if k < n - 1 {
        lemma_custom_slots_at((n - 1) as nat, k);
    }
}

/// A custom layout places the given positions in the given order: slot `k`
/// is position `k`, for every `k < count`.
pub proof fn law_custom_rivet_slots(count: usize, k: usize)
    requires
        k < count,
    ensures
        spec_rivet_slots(RivetLayout::Custom { count })[k as int] == (RivetSlot::Custom { k }),
{
    lemma_custom_slots_at(count as nat, k as int);
}

} // verus!
