//! Index-buffer topology of the procedural meshes.
//!
//! Every mesh of the tank and of the terrain is a triangle list: a vertex
//! buffer (positions, normals, texture coordinates) and a list of `u32`
//! vertex indices, three per triangle.  The vertex attributes are computed
//! with floating point by the caller; the functions here produce the index
//! lists, whose layout is fixed by the order in which the vertices are
//! emitted.  The spec functions below state that layout exactly.

use vstd::prelude::*;

verus! {

// ---------------------------------------------------------------------------
// Elementary patterns
// ---------------------------------------------------------------------------

/// Two triangles over the quad whose corners are `b, b+1, b+2, b+3` in
/// order around the face: `(b, b+1, b+2)` and `(b, b+2, b+3)`.
pub open spec fn quad_seq(b: int) -> Seq<u32> {
    seq![b as u32, (b + 1) as u32, (b + 2) as u32, b as u32, (b + 2) as u32, (b + 3) as u32]
}

/// How a strip of quads between two parallel rows of vertices is cut into
/// triangles.  The strip's vertices come in pairs: vertex `2i` and `2i+1`
/// are the two ends of the `i`-th rung.
#[derive(Clone, Copy, Debug, PartialEq, Eq)]
pub enum StripWinding {
    /// `(i, i+2, i+1)` and `(i+1, i+2, i+3)`.
    Ladder,
    /// The same two triangles with the opposite orientation:
    /// `(i, i+1, i+2)` and `(i+1, i+3, i+2)`.
    LadderReversed,
    /// The quad cut along the other diagonal:
    /// `(i, i+1, i+3)` and `(i, i+3, i+2)`.
    CrossDiagonal,
}

/// The six indices of the quad between rungs starting at vertex `i`.
pub open spec fn strip_cell(i: int, winding: StripWinding) -> Seq<u32> {
    match winding {
        StripWinding::Ladder => seq![
            i as u32, (i + 2) as u32, (i + 1) as u32,
            (i + 1) as u32, (i + 2) as u32, (i + 3) as u32,
        ],
        StripWinding::LadderReversed => seq![
            i as u32, (i + 1) as u32, (i + 2) as u32,
            (i + 1) as u32, (i + 3) as u32, (i + 2) as u32,
        ],
        StripWinding::CrossDiagonal => seq![
            i as u32, (i + 1) as u32, (i + 3) as u32,
            i as u32, (i + 3) as u32, (i + 2) as u32,
        ],
    }
}

/// A strip of `n` quads whose first rung starts at vertex `base`.
pub open spec fn strip_seq(base: int, n: nat, winding: StripWinding) -> Seq<u32>
    decreases n,
{
    if n == 0 {
        Seq::empty()
    } else {
        strip_seq(base, (n - 1) as nat, winding) + strip_cell(base + 2 * (n - 1), winding)
    }
}

/// Triangle `i` of a fan around `center` over the ring that starts at
/// vertex `ring`: `(center, ring+i, ring+i+1)`, or `(center, ring+i+1,
/// ring+i)` when `reversed`.
pub open spec fn fan_tri(center: int, ring: int, i: int, reversed: bool) -> Seq<u32> {
    if reversed {
        seq![center as u32, (ring + i + 1) as u32, (ring + i) as u32]
    } else {
        seq![center as u32, (ring + i) as u32, (ring + i + 1) as u32]
    }
}

/// A fan of `n` triangles.
pub open spec fn fan_seq(center: int, ring: int, n: nat, reversed: bool) -> Seq<u32>
    decreases n,
{
    if n == 0 {
        Seq::empty()
    } else {
        fan_seq(center, ring, (n - 1) as nat, reversed) + fan_tri(center, ring, n - 1, reversed)
    }
}

/// The cell at column `x` of row `z` of a grid with `cols` cells per row,
/// whose vertices are laid out row by row, `cols + 1` per row.
pub open spec fn grid_cell(cols: int, z: int, x: int) -> Seq<u32> {
    let a = z * (cols + 1) + x;
    seq![
        a as u32, (a + cols + 1) as u32, (a + 1) as u32,
        (a + 1) as u32, (a + cols + 1) as u32, (a + cols + 2) as u32,
    ]
}

/// The first `n` cells of row `z`.
pub open spec fn grid_row(cols: nat, z: nat, n: nat) -> Seq<u32>
    decreases n,
{
    if n == 0 {
        Seq::empty()
    } else {
        grid_row(cols, z, (n - 1) as nat) + grid_cell(cols as int, z as int, n - 1)
    }
}

/// All cells of a grid of `cols` by `rows` cells, row after row.
pub open spec fn grid_seq(cols: nat, rows: nat) -> Seq<u32>
    decreases rows,
{
    if rows == 0 {
        Seq::empty()
    } else {
        grid_seq(cols, (rows - 1) as nat) + grid_row(cols, (rows - 1) as nat, cols)
    }
}

/// Every index of `s` names a vertex below `n`.
pub open spec fn refs_below(s: Seq<u32>, n: int) -> bool {
    forall|k: int| 0 <= k < s.len() ==> (#[trigger] s[k]) < n
}

// ---------------------------------------------------------------------------
// Appending the elementary patterns
// ---------------------------------------------------------------------------

/// Append the two triangles of the quad `base .. base+3`.
pub fn push_quad(indices: &mut Vec<u32>, base: u32)
    requires
        base + 3 <= u32::MAX,
    ensures
        final(indices)@ == old(indices)@ + quad_seq(base as int),
{
    indices.push(base);
    indices.push(base + 1);
    indices.push(base + 2);
    indices.push(base);
    indices.push(base + 2);
    indices.push(base + 3);
    assert(indices@ =~= old(indices)@ + quad_seq(base as int));
}

/// Append a strip of `segments` quads whose first rung starts at `base`.
pub fn push_strip(indices: &mut Vec<u32>, base: u32, segments: u32, winding: StripWinding)
    requires
        base + 2 * segments + 1 <= u32::MAX,
    ensures
        final(indices)@ == old(indices)@ + strip_seq(base as int, segments as nat, winding),
{
    let mut i: u32 = 0;
    while i < segments
        invariant
            i <= segments,
            base + 2 * segments + 1 <= u32::MAX,
            indices@ == old(indices)@ + strip_seq(base as int, i as nat, winding),
        decreases segments - i,
    {
        let idx = base + i * 2;
        let ghost before = indices@;
        match winding {
            StripWinding::Ladder => {
                indices.push(idx);
                indices.push(idx + 2);
                indices.push(idx + 1);
                indices.push(idx + 1);
                indices.push(idx + 2);
                indices.push(idx + 3);
            },
            StripWinding::LadderReversed => {
                indices.push(idx);
                indices.push(idx + 1);
                indices.push(idx + 2);
                indices.push(idx + 1);
                indices.push(idx + 3);
                indices.push(idx + 2);
            },
            StripWinding::CrossDiagonal => {
                indices.push(idx);
                indices.push(idx + 1);
                indices.push(idx + 3);
                indices.push(idx);
                indices.push(idx + 3);
                indices.push(idx + 2);
            },
        }
        assert(indices@ =~= before + strip_cell(base + 2 * i, winding));
        assert(strip_seq(base as int, (i + 1) as nat, winding) =~= strip_seq(
            base as int,
            i as nat,
            winding,
        ) + strip_cell(base + 2 * i, winding));
        i += 1;
    }
}

/// Append a fan of `segments` triangles around `center` over the ring that
/// starts at `ring`.
pub fn push_fan(indices: &mut Vec<u32>, center: u32, ring: u32, segments: u32, reversed: bool)
    requires
        ring + segments <= u32::MAX,
    ensures
        final(indices)@ == old(indices)@ + fan_seq(center as int, ring as int, segments as nat, reversed),
{
    let mut i: u32 = 0;
    while i < segments
        invariant
            i <= segments,
            ring + segments <= u32::MAX,
            indices@ == old(indices)@ + fan_seq(center as int, ring as int, i as nat, reversed),
        decreases segments - i,
    {
        let ghost before = indices@;
        indices.push(center);
        if reversed {
            indices.push(ring + i + 1);
            indices.push(ring + i);
        } else {
            indices.push(ring + i);
            indices.push(ring + i + 1);
        }
        assert(indices@ =~= before + fan_tri(center as int, ring as int, i as int, reversed));
        assert(fan_seq(center as int, ring as int, (i + 1) as nat, reversed) =~= fan_seq(
            center as int,
            ring as int,
            i as nat,
            reversed,
        ) + fan_tri(center as int, ring as int, i as int, reversed));
        i += 1;
    }
}

proof fn lemma_grid_cell_fits(cols: int, rows: int, z: int, x: int)
    requires
        0 <= z < rows,
        0 <= x < cols,
        (cols + 1) * (rows + 1) <= u32::MAX,
    ensures
        z * (cols + 1) + x + cols + 2 <= (cols + 1) * (rows + 1) - 1,
        0 <= z * (cols + 1),
{
    assert((z + 1) * (cols + 1) <= rows * (cols + 1)) by (nonlinear_arith)
        requires
            z + 1 <= rows,
            cols + 1 >= 0,
    ;
    assert((cols + 1) * (rows + 1) == rows * (cols + 1) + cols + 1) by (nonlinear_arith);
    assert((z + 1) * (cols + 1) == z * (cols + 1) + cols + 1) by (nonlinear_arith);
    assert(0 <= z * (cols + 1)) by (nonlinear_arith)
        requires
            z >= 0,
            cols >= 0,
    ;
}

/// The index list of a grid of `cols` by `rows` quads whose
/// `(cols + 1) * (rows + 1)` vertices are laid out row by row.
pub fn grid_indices(cols: u32, rows: u32) -> (indices: Vec<u32>)
    requires
        (cols + 1) * (rows + 1) <= u32::MAX,
    ensures
        indices@ == grid_seq(cols as nat, rows as nat),
{
    let mut indices: Vec<u32> = Vec::new();
    proof {
        assert((cols + 1) * (rows + 1) >= cols + 1) by (nonlinear_arith)
            requires
                rows >= 0,
                cols >= 0,
        ;
    }
    let row_width = cols + 1;
    let mut z: u32 = 0;
    assert(indices@ =~= grid_seq(cols as nat, 0));
    while z < rows
        invariant
            z <= rows,
            row_width == cols + 1,
            (cols + 1) * (rows + 1) <= u32::MAX,
            indices@ == grid_seq(cols as nat, z as nat),
        decreases rows - z,
    {
        let mut x: u32 = 0;
        assert(indices@ =~= grid_seq(cols as nat, z as nat) + grid_row(cols as nat, z as nat, 0));
        while x < cols
            invariant
                x <= cols,
                z < rows,
                row_width == cols + 1,
                (cols + 1) * (rows + 1) <= u32::MAX,
                indices@ == grid_seq(cols as nat, z as nat) + grid_row(
                    cols as nat,
                    z as nat,
                    x as nat,
                ),
            decreases cols - x,
        {
            proof {
                lemma_grid_cell_fits(cols as int, rows as int, z as int, x as int);
            }
            let a = z * row_width + x;
            let ghost before = indices@;
            indices.push(a);
            indices.push(a + row_width);
            indices.push(a + 1);
            indices.push(a + 1);
            indices.push(a + row_width);
            indices.push(a + row_width + 1);
            assert(indices@ =~= before + grid_cell(cols as int, z as int, x as int));
            assert(grid_row(cols as nat, z as nat, (x + 1) as nat) =~= grid_row(
                cols as nat,
                z as nat,
                x as nat,
            ) + grid_cell(cols as int, z as int, x as int));
            x += 1;
        }
        assert(grid_seq(cols as nat, (z + 1) as nat) =~= grid_seq(cols as nat, z as nat) + grid_row(
            cols as nat,
            z as nat,
            cols as nat,
        ));
        z += 1;
    }
    indices
}


// ---------------------------------------------------------------------------
// Lengths and vertex references of the elementary patterns
// ---------------------------------------------------------------------------

/// Concatenating index lists keeps them within a vertex bound.
pub proof fn lemma_refs_concat(a: Seq<u32>, b: Seq<u32>, n: int)
    requires
        refs_below(a, n),
        refs_below(b, n),
    ensures
        refs_below(a + b, n),
{
    assert forall|k: int| 0 <= k < (a + b).len() implies (#[trigger] (a + b)[k]) < n by {
        if k < a.len() {
            assert((a + b)[k] == a[k]);
        } else {
            assert((a + b)[k] == b[k - a.len()]);
        }
    }
}

/// A bound on vertex references still holds under a larger bound.
pub proof fn lemma_refs_weaken(s: Seq<u32>, n: int, m: int)
    requires
        refs_below(s, n),
        n <= m,
    ensures
        refs_below(s, m),
{
}

pub proof fn lemma_quad_seq(b: int)
    requires
        0 <= b,
        b + 3 <= u32::MAX,
    ensures
        quad_seq(b).len() == 6,
        refs_below(quad_seq(b), b + 4),
{
}

pub proof fn lemma_strip_seq(base: int, n: nat, winding: StripWinding)
    requires
        0 <= base,
        base + 2 * n + 1 <= u32::MAX,
    ensures
        strip_seq(base, n, winding).len() == 6 * n,
        refs_below(strip_seq(base, n, winding), base + 2 * n + 2),
    decreases n,
{
    if n > 0 {
        lemma_strip_seq(base, (n - 1) as nat, winding);
        let prev = strip_seq(base, (n - 1) as nat, winding);
        let cell = strip_cell(base + 2 * (n - 1), winding);
        assert(refs_below(cell, base + 2 * n + 2));
        lemma_refs_weaken(prev, base + 2 * (n - 1) + 2, base + 2 * n + 2);
        lemma_refs_concat(prev, cell, base + 2 * n + 2);
    }
}

pub proof fn lemma_fan_seq(center: int, ring: int, n: nat, reversed: bool, bound: int)
    requires
        0 <= center < bound,
        0 <= ring,
        ring + n < bound,
        bound <= u32::MAX + 1,
    ensures
        fan_seq(center, ring, n, reversed).len() == 3 * n,
        refs_below(fan_seq(center, ring, n, reversed), bound),
    decreases n,
{
    if n > 0 {
        lemma_fan_seq(center, ring, (n - 1) as nat, reversed, bound);
        let tri = fan_tri(center, ring, n - 1, reversed);
        assert(refs_below(tri, bound));
        lemma_refs_concat(fan_seq(center, ring, (n - 1) as nat, reversed), tri, bound);
    }
}

proof fn lemma_grid_cell_bound(cols: int, rows: int, z: int, x: int)
    requires
        0 <= z < rows,
        0 <= x < cols,
    ensures
        0 <= z * (cols + 1),
        z * (cols + 1) + x + cols + 2 <= (cols + 1) * (rows + 1) - 1,
{
    assert((z + 1) * (cols + 1) <= rows * (cols + 1)) by (nonlinear_arith)
        requires
            z + 1 <= rows,
            cols + 1 >= 0,
    ;
    assert((cols + 1) * (rows + 1) == rows * (cols + 1) + cols + 1) by (nonlinear_arith);
    assert((z + 1) * (cols + 1) == z * (cols + 1) + cols + 1) by (nonlinear_arith);
    assert(0 <= z * (cols + 1)) by (nonlinear_arith)
        requires
            z >= 0,
            cols >= 0,
    ;
}

proof fn lemma_grid_row(cols: nat, rows: nat, z: nat, n: nat)
    requires
        z < rows,
        n <= cols,
        (cols + 1) * (rows + 1) <= u32::MAX,
    ensures
        grid_row(cols, z, n).len() == 6 * n,
        refs_below(grid_row(cols, z, n), ((cols + 1) * (rows + 1)) as int),
    decreases n,
{
    if n > 0 {
        lemma_grid_row(cols, rows, z, (n - 1) as nat);
        lemma_grid_cell_bound(cols as int, rows as int, z as int, n - 1);
        let cell = grid_cell(cols as int, z as int, n - 1);
        assert(refs_below(cell, ((cols + 1) * (rows + 1)) as int));
        lemma_refs_concat(grid_row(cols, z, (n - 1) as nat), cell, ((cols + 1) * (rows + 1)) as int);
    }
}

/// The grid of `cols` by `rows` cells has six indices per cell, and every
/// index names one of its `(cols + 1) * (rows + 1)` vertices.
pub proof fn lemma_grid_seq(cols: nat, rows: nat, r: nat)
    requires
        r <= rows,
        (cols + 1) * (rows + 1) <= u32::MAX,
    ensures
        grid_seq(cols, r).len() == 6 * cols * r,
        refs_below(grid_seq(cols, r), ((cols + 1) * (rows + 1)) as int),
    decreases r,
{
    if r > 0 {
        lemma_grid_seq(cols, rows, (r - 1) as nat);
        lemma_grid_row(cols, rows, (r - 1) as nat, cols);
        lemma_refs_concat(
            grid_seq(cols, (r - 1) as nat),
            grid_row(cols, (r - 1) as nat, cols),
            ((cols + 1) * (rows + 1)) as int,
        );
        assert(6 * cols * (r - 1) + 6 * cols == 6 * cols * r) by (nonlinear_arith);
    }
}

// ---------------------------------------------------------------------------
// Where each cell of a pattern lands in its index list
// ---------------------------------------------------------------------------

/// Index `6 * i + j` of a strip is index `j` of its `i`-th cell.
pub proof fn lemma_strip_at(base: int, n: nat, winding: StripWinding, i: int, j: int)
    requires
        0 <= i < n,
        0 <= j < 6,
    ensures
        strip_seq(base, n, winding).len() == 6 * n,
        strip_seq(base, n, winding)[6 * i + j] == strip_cell(base + 2 * i, winding)[j],
    decreases n,
{
    let prev = (n - 1) as nat;
    lemma_strip_len_any(base, prev, winding);
    if i < n - 1 {
        lemma_strip_at(base, prev, winding, i, j);
    }
}

proof fn lemma_strip_len_any(base: int, n: nat, winding: StripWinding)
    ensures
        strip_seq(base, n, winding).len() == 6 * n,
    decreases n,
{
    if n > 0 {
        lemma_strip_len_any(base, (n - 1) as nat, winding);
    }
}

/// Index `3 * i + j` of a fan is index `j` of its `i`-th triangle.
pub proof fn lemma_fan_at(center: int, ring: int, n: nat, reversed: bool, i: int, j: int)
    requires
        0 <= i < n,
        0 <= j < 3,
    ensures
        fan_seq(center, ring, n, reversed).len() == 3 * n,
        fan_seq(center, ring, n, reversed)[3 * i + j] == fan_tri(center, ring, i, reversed)[j],
    decreases n,
{
    let prev = (n - 1) as nat;
    lemma_fan_len_any(center, ring, prev, reversed);
    if i < n - 1 {
        lemma_fan_at(center, ring, prev, reversed, i, j);
    }
}

proof fn lemma_fan_len_any(center: int, ring: int, n: nat, reversed: bool)
    ensures
        fan_seq(center, ring, n, reversed).len() == 3 * n,
    decreases n,
{
    if n > 0 {
        lemma_fan_len_any(center, ring, (n - 1) as nat, reversed);
    }
}

proof fn lemma_grid_row_at(cols: nat, z: nat, n: nat, i: int, j: int)
    requires
        0 <= i < n,
        0 <= j < 6,
    ensures
        grid_row(cols, z, n).len() == 6 * n,
        grid_row(cols, z, n)[6 * i + j] == grid_cell(cols as int, z as int, i)[j],
    decreases n,
{
    let prev = (n - 1) as nat;
    lemma_grid_row_len_any(cols, z, prev);
    if i < n - 1 {
        lemma_grid_row_at(cols, z, prev, i, j);
    }
}

proof fn lemma_grid_row_len_any(cols: nat, z: nat, n: nat)
    ensures
        grid_row(cols, z, n).len() == 6 * n,
    decreases n,
{
    if n > 0 {
        lemma_grid_row_len_any(cols, z, (n - 1) as nat);
    }
}

proof fn lemma_grid_len_any(cols: nat, rows: nat)
    ensures
        grid_seq(cols, rows).len() == 6 * cols * rows,
    decreases rows,
{
    if rows > 0 {
        lemma_grid_len_any(cols, (rows - 1) as nat);
        lemma_grid_row_len_any(cols, (rows - 1) as nat, cols);
        assert(6 * cols * (rows - 1) + 6 * cols == 6 * cols * rows) by (nonlinear_arith);
    } else {
        assert(6 * cols * rows == 0) by (nonlinear_arith)
            requires
                rows == 0,
        ;
    }
}

/// Index `6 * (h * cols + i) + j` of a grid is index `j` of the cell at
/// column `i` of row `h`.
pub proof fn lemma_grid_at(cols: nat, rows: nat, h: int, i: int, j: int)
    requires
        0 <= h < rows,
        0 <= i < cols,
        0 <= j < 6,
    ensures
        grid_seq(cols, rows).len() == 6 * cols * rows,
        grid_seq(cols, rows)[6 * (h * cols + i) + j] == grid_cell(cols as int, h, i)[j],
    decreases rows,
{
    let prev = (rows - 1) as nat;
    lemma_grid_len_any(cols, rows);
    lemma_grid_len_any(cols, prev);
    if h < prev {
        lemma_grid_at(cols, prev, h, i, j);
        assert(6 * (h * cols + i) + j < 6 * cols * prev) by (nonlinear_arith)
            requires
                h + 1 <= prev,
                0 <= i < cols,
                0 <= j < 6,
                h >= 0,
        ;
    } else {
        assert(6 * (h * cols + i) + j == 6 * cols * prev + (6 * i + j)) by (nonlinear_arith)
            requires
                h == prev,
        ;
        lemma_grid_row_at(cols, prev, cols, i, j);
    }
}

/// A strip's cell `i` is the quad between rungs `i` and `i + 1`, cut and
/// oriented as its winding says: for every cell, the six indices are the
/// ones listed below in terms of the cell's first vertex `v = base + 2 i`.
pub proof fn law_strip_cell_values(base: int, n: nat, winding: StripWinding, i: int)
    requires
        0 <= i < n,
        0 <= base,
        base + 2 * n + 1 <= u32::MAX,
    ensures
        ({
            let s = strip_seq(base, n, winding);
            let p = 6 * i;
            let v = base + 2 * i;
            &&& s.len() == 6 * n
            &&& winding == StripWinding::Ladder ==> s[p] == v && s[p + 1] == v + 2 && s[p + 2]
                == v + 1 && s[p + 3] == v + 1 && s[p + 4] == v + 2 && s[p + 5] == v + 3
            &&& winding == StripWinding::LadderReversed ==> s[p] == v && s[p + 1] == v + 1 && s[p
                + 2] == v + 2 && s[p + 3] == v + 1 && s[p + 4] == v + 3 && s[p + 5] == v + 2
            &&& winding == StripWinding::CrossDiagonal ==> s[p] == v && s[p + 1] == v + 1 && s[p
                + 2] == v + 3 && s[p + 3] == v && s[p + 4] == v + 3 && s[p + 5] == v + 2
        }),
{
    lemma_strip_at(base, n, winding, i, 0);
    lemma_strip_at(base, n, winding, i, 1);
    lemma_strip_at(base, n, winding, i, 2);
    lemma_strip_at(base, n, winding, i, 3);
    lemma_strip_at(base, n, winding, i, 4);
    lemma_strip_at(base, n, winding, i, 5);
}

/// Triangle `i` of a fan joins the center to ring vertices `ring + i` and
/// `ring + i + 1`, in that order, or the other way round when reversed.
pub proof fn law_fan_triangle_values(center: int, ring: int, n: nat, reversed: bool, i: int)
    requires
        0 <= i < n,
        0 <= center <= u32::MAX,
        0 <= ring,
        ring + n <= u32::MAX,
    ensures
        ({
            let s = fan_seq(center, ring, n, reversed);
            let p = 3 * i;
            &&& s.len() == 3 * n
            &&& s[p] == center
            &&& !reversed ==> s[p + 1] == ring + i && s[p + 2] == ring + i + 1
            &&& reversed ==> s[p + 1] == ring + i + 1 && s[p + 2] == ring + i
        }),
{
    lemma_fan_at(center, ring, n, reversed, i, 0);
    lemma_fan_at(center, ring, n, reversed, i, 1);
    lemma_fan_at(center, ring, n, reversed, i, 2);
}

/// Cell `(h, i)` of a grid of `cols` by `rows` quads, whose vertices come
/// row by row, `cols + 1` to a row, is the two triangles
/// `(a, a + cols + 1, a + 1)` and `(a + 1, a + cols + 1, a + cols + 2)` with
/// `a = h * (cols + 1) + i`, at position `6 * (h * cols + i)`.
pub proof fn law_grid_cell_values(cols: nat, rows: nat, h: int, i: int)
    requires
        0 <= h < rows,
        0 <= i < cols,
        (cols + 1) * (rows + 1) <= u32::MAX,
    ensures
        ({
            let s = grid_seq(cols, rows);
            let p = 6 * (h * cols + i);
            let a = h * (cols + 1) + i;
            &&& s.len() == 6 * cols * rows
            &&& s[p] == a
            &&& s[p + 1] == a + cols + 1
            &&& s[p + 2] == a + 1
            &&& s[p + 3] == a + 1
            &&& s[p + 4] == a + cols + 1
            &&& s[p + 5] == a + cols + 2
        }),
{
    lemma_grid_cell_bound(cols as int, rows as int, h, i);
    lemma_grid_at(cols, rows, h, i, 0);
    lemma_grid_at(cols, rows, h, i, 1);
    lemma_grid_at(cols, rows, h, i, 2);
    lemma_grid_at(cols, rows, h, i, 3);
    lemma_grid_at(cols, rows, h, i, 4);
    lemma_grid_at(cols, rows, h, i, 5);
}

} // verus!
