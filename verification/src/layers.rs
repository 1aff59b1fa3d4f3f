//! Collision layers: which bodies are tested against which.
//!
//! A body belongs to the layers set in its `membership` mask and collides
//! with the layers set in its `filter` mask.  Two bodies collide when each
//! one's membership meets the other's filter.

use vstd::prelude::*;

verus! {

/// Layer masks of a collidable body.
#[derive(Clone, Copy, Debug, PartialEq, Eq, Structural)]
pub struct CollisionLayers {
    /// The layers this body belongs to.
    pub membership: u32,
    /// The layers this body collides with.
    pub filter: u32,
}

/// The two masks share at least one layer.
pub open spec fn masks_meet(a: u32, b: u32) -> bool {
    a & b != 0
}

/// Bodies with layers `a` and `b` are tested against each other.
pub open spec fn spec_should_collide(a: CollisionLayers, b: CollisionLayers) -> bool {
    masks_meet(a.membership, b.filter) && masks_meet(a.filter, b.membership)
}

impl CollisionLayers {
    /// The layer of tanks.
    pub const TANK: u32 = 1;
    /// The layer of buildings.
    pub const BUILDING: u32 = 2;
    /// The layer of the terrain.
    pub const TERRAIN: u32 = 4;
    /// The layer of projectiles.
    pub const PROJECTILE: u32 = 8;
    /// The layer of debris.
    pub const DEBRIS: u32 = 16;

    /// A tank: belongs to the tank layer, collides with buildings and the
    /// terrain.
    pub fn tank() -> (layers: Self)
        ensures
            layers.membership == 1,
            layers.filter == 2 | 4,
    {
        CollisionLayers { membership: Self::TANK, filter: Self::BUILDING | Self::TERRAIN }
    }

    /// A building: belongs to the building layer, collides with tanks and
    /// projectiles.
    pub fn building() -> (layers: Self)
        ensures
            layers.membership == 2,
            layers.filter == 1 | 8,
    {
        CollisionLayers { membership: Self::BUILDING, filter: Self::TANK | Self::PROJECTILE }
    }

    /// Whether a body with these layers is tested against one with `other`.
    pub fn should_collide(&self, other: &CollisionLayers) -> (c: bool)
        ensures
            c == spec_should_collide(*self, *other),
    {
        (self.membership & other.filter) != 0 && (self.filter & other.membership) != 0
    }
}

impl Default for CollisionLayers {
    /// Member of every layer, colliding with every layer.
    fn default() -> (layers: Self)
        ensures
            layers.membership == 0xFFFF_FFFF,
            layers.filter == 0xFFFF_FFFF,
    {
        CollisionLayers { membership: 0xFFFF_FFFF, filter: 0xFFFF_FFFF }
    }
}

/// Whether two bodies collide does not depend on which one asks.
pub proof fn law_should_collide_symmetric(a: CollisionLayers, b: CollisionLayers)
    ensures
        spec_should_collide(a, b) == spec_should_collide(b, a),
{
    let (am, af, bm, bf) = (a.membership, a.filter, b.membership, b.filter);
    assert(am & bf == bf & am) by (bit_vector);
    assert(af & bm == bm & af) by (bit_vector);
}

/// A body on every layer collides exactly with the bodies that belong to
/// some layer and collide with some layer.
pub proof fn law_default_collides_with_any_layered(other: CollisionLayers)
    ensures
        spec_should_collide(
            CollisionLayers { membership: 0xFFFF_FFFF, filter: 0xFFFF_FFFF },
            other,
        ) == (other.membership != 0 && other.filter != 0),
{
    let (m, f) = (other.membership, other.filter);
    assert(0xFFFF_FFFFu32 & f == f) by (bit_vector);
    assert(f & 0xFFFF_FFFFu32 == f) by (bit_vector);
    assert(0xFFFF_FFFFu32 & m == m) by (bit_vector);
    assert(m & 0xFFFF_FFFFu32 == m) by (bit_vector);
}

} // verus!
