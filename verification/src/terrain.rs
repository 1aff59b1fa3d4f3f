//! Terrain classes and the addressing of the Monte Cassino heightmap.

use vstd::prelude::*;

verus! {

/// Side of the square heightmap grid, in samples.
pub const MC_GRID_SIZE: usize = 129;

/// Kinds of ground, by how they affect the tank's mobility.
#[derive(Clone, Copy, Debug, PartialEq, Eq, Structural)]
pub enum TerrainType {
    /// Roads and concrete.
    Hard,
    /// Grass and packed dirt.
    Medium,
    /// Mud, sand and snow.
    Soft,
}

impl Default for TerrainType {
    /// Medium ground.
    fn default() -> (t: Self)
        ensures
            t == TerrainType::Medium,
    {
        TerrainType::Medium
    }
}

/// The name under which a terrain type is shown to the player.
pub open spec fn spec_terrain_label(t: TerrainType) -> Seq<char> {
    match t {
        TerrainType::Hard => "Hard (Road)"@,
        TerrainType::Medium => "Medium (Grass)"@,
        TerrainType::Soft => "Soft (Mud)"@,
    }
}

/// The name of the terrain type shown in the terrain indicator.
pub fn terrain_label(t: TerrainType) -> (s: &'static str)
    ensures
        s@ == spec_terrain_label(t),
{
    match t {
        TerrainType::Hard => "Hard (Road)",
        TerrainType::Medium => "Medium (Grass)",
        TerrainType::Soft => "Soft (Mud)",
    }
}

/// Sample number of grid point `(x, z)`: the samples are stored row by row.
pub open spec fn sample_index(x: int, z: int) -> int {
    z * 129 + x
}

/// The next grid line after `i`, or `i` itself on the last line.
pub open spec fn next_line(i: int) -> int {
    if i + 1 < 129 {
        i + 1
    } else {
        128
    }
}

/// The sample numbers of the four corners of the heightmap cell whose
/// lower corner is `(x0, z0)`, in the order `(x0, z0)`, `(x1, z0)`,
/// `(x0, z1)`, `(x1, z1)`, where `x1` and `z1` are the next grid lines,
/// clamped to the last one at the far edges.
pub fn heightmap_cell_indices(x0: usize, z0: usize) -> (c: (usize, usize, usize, usize))
    requires
        x0 < MC_GRID_SIZE,
        z0 < MC_GRID_SIZE,
    ensures
        c.0 == sample_index(x0 as int, z0 as int),
        c.1 == sample_index(next_line(x0 as int), z0 as int),
        c.2 == sample_index(x0 as int, next_line(z0 as int)),
        c.3 == sample_index(next_line(x0 as int), next_line(z0 as int)),
        c.0 < MC_GRID_SIZE * MC_GRID_SIZE,
        c.1 < MC_GRID_SIZE * MC_GRID_SIZE,
        c.2 < MC_GRID_SIZE * MC_GRID_SIZE,
        c.3 < MC_GRID_SIZE * MC_GRID_SIZE,
{
    let last = MC_GRID_SIZE - 1;
    let x1 = if x0 + 1 < last {
        x0 + 1
    } else {
        last
    };
    let z1 = if z0 + 1 < last {
        z0 + 1
    } else {
        last
    };
    (z0 * MC_GRID_SIZE + x0, z0 * MC_GRID_SIZE + x1, z1 * MC_GRID_SIZE + x0, z1 * MC_GRID_SIZE + x1)
}

/// The nine samples that smoothing averages around the interior grid point
/// `(x, z)`: the point itself, the points below and above it, left and right
/// of it, and the four diagonal neighbors (below-left, below-right,
/// above-left, above-right).
pub open spec fn spec_smoothing_window(x: int, z: int) -> Seq<int> {
    seq![
        sample_index(x, z),
        sample_index(x, z - 1),
        sample_index(x, z + 1),
        sample_index(x - 1, z),
        sample_index(x + 1, z),
        sample_index(x - 1, z - 1),
        sample_index(x + 1, z - 1),
        sample_index(x - 1, z + 1),
        sample_index(x + 1, z + 1),
    ]
}

/// Sample numbers of the 3 by 3 window that heightmap smoothing averages
/// around the interior grid point `(x, z)`.
pub fn smoothing_window(x: usize, z: usize) -> (w: [usize; 9])
    requires
        1 <= x < MC_GRID_SIZE - 1,
        1 <= z < MC_GRID_SIZE - 1,
    ensures
        forall|k: int| 0 <= k < 9 ==> w@[k] == #[trigger] spec_smoothing_window(x as int, z as int)[k],
        forall|k: int| 0 <= k < 9 ==> #[trigger] w@[k] < MC_GRID_SIZE * MC_GRID_SIZE,
{
    let s = MC_GRID_SIZE;
    [
        z * s + x,
        (z - 1) * s + x,
        (z + 1) * s + x,
        z * s + (x - 1),
        z * s + (x + 1),
        (z - 1) * s + (x - 1),
        (z - 1) * s + (x + 1),
        (z + 1) * s + (x - 1),
        (z + 1) * s + (x + 1),
    ]
}

/// The corners of a heightmap cell: for `x0, z0 < 129`, the samples
/// `129 z0 + x0`, `129 z0 + x1`, `129 z1 + x0` and `129 z1 + x1`, where `x1`
/// is `x0 + 1` except on the last grid line, where it stays `128` (likewise
/// `z1`).
pub proof fn law_heightmap_cell_values(x0: int, z0: int)
    requires
        0 <= x0 < 129,
        0 <= z0 < 129,
    ensures
        ({
            let x1 = if x0 < 128 {
                x0 + 1
            } else {
                128
            };
            let z1 = if z0 < 128 {
                z0 + 1
            } else {
                128
            };
            &&& sample_index(x0, z0) == 129 * z0 + x0
            &&& sample_index(next_line(x0), z0) == 129 * z0 + x1
            &&& sample_index(x0, next_line(z0)) == 129 * z1 + x0
            &&& sample_index(next_line(x0), next_line(z0)) == 129 * z1 + x1
        }),
{
}

/// The smoothing window of `(x, z)` holds exactly the sample itself and its
/// eight neighbors: `c`, `c - 129`, `c + 129`, `c - 1`, `c + 1`, `c - 130`,
/// `c - 128`, `c + 128`, `c + 130` with `c = 129 z + x`.
pub proof fn law_smoothing_window_values(x: int, z: int)
    ensures
        ({
            let w = spec_smoothing_window(x, z);
            let c = 129 * z + x;
            &&& w.len() == 9
            &&& w[0] == c && w[1] == c - 129 && w[2] == c + 129
            &&& w[3] == c - 1 && w[4] == c + 1
            &&& w[5] == c - 130 && w[6] == c - 128 && w[7] == c + 128 && w[8] == c + 130
        }),
{
}

} // verus!
