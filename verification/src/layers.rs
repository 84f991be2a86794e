//! The collision layer matrix: which bodies collide with which.
use vstd::prelude::*;

verus! {

/// Membership and filter bits of a collider: it collides with colliders whose membership
/// meets its filter, and whose filter meets its membership.
#[derive(Clone, Copy, Debug, PartialEq, Eq, Structural)]
pub struct CollisionGroupBits {
    pub memberships: u32,
    pub filters: u32,
}

/// Whether colliders with groups `a` and `b` collide.
pub open spec fn interacts(a: CollisionGroupBits, b: CollisionGroupBits) -> bool {
    (a.memberships & b.filters) != 0 && (b.memberships & a.filters) != 0
}

/// The group bits of players, enemies and terrain.
#[derive(Clone, Copy, Debug)]
pub struct CollisionLayers {
    pub player: u32,
    pub enemy: u32,
    pub terrain: u32,
}

impl Default for CollisionLayers {
    /// Players in group 1, enemies in group 2, terrain in group 3.
    fn default() -> (r: Self)
        ensures
            r.player == 1 && r.enemy == 2 && r.terrain == 4,
    {
        CollisionLayers { player: 1, enemy: 2, terrain: 4 }
    }
}

impl CollisionLayers {
    /// Players collide with enemies and terrain.
    pub fn player_groups(&self) -> (r: CollisionGroupBits)
        ensures
            r.memberships == self.player,
            r.filters == self.enemy | self.terrain,
    {
        CollisionGroupBits { memberships: self.player, filters: self.enemy | self.terrain }
    }

    /// Enemies collide with players and terrain.
    pub fn enemy_groups(&self) -> (r: CollisionGroupBits)
        ensures
            r.memberships == self.enemy,
            r.filters == self.player | self.terrain,
    {
        CollisionGroupBits { memberships: self.enemy, filters: self.player | self.terrain }
    }

    /// Terrain collides with players and enemies.
    pub fn terrain_groups(&self) -> (r: CollisionGroupBits)
        ensures
            r.memberships == self.terrain,
            r.filters == self.player | self.enemy,
    {
        CollisionGroupBits { memberships: self.terrain, filters: self.player | self.enemy }
    }
}

/// Law: when players, enemies and terrain have non-empty, pairwise disjoint group bits (as the
/// default layers do), every two kinds of body collide with each other and bodies of one kind
/// pass through each other.
pub proof fn law_layer_matrix(layers: CollisionLayers, p: CollisionGroupBits, e: CollisionGroupBits, t: CollisionGroupBits)
    requires
        layers.player != 0 && layers.enemy != 0 && layers.terrain != 0,
        layers.player & layers.enemy == 0,
        layers.player & layers.terrain == 0,
        layers.enemy & layers.terrain == 0,
        p.memberships == layers.player && p.filters == layers.enemy | layers.terrain,
        e.memberships == layers.enemy && e.filters == layers.player | layers.terrain,
        t.memberships == layers.terrain && t.filters == layers.player | layers.enemy,
    ensures
        interacts(p, e) && interacts(e, p),
        interacts(p, t) && interacts(t, p),
        interacts(e, t) && interacts(t, e),
        !interacts(p, p) && !interacts(e, e) && !interacts(t, t),
{
    let a = layers.player;
    let b = layers.enemy;
    let c = layers.terrain;
    assert(a & (a | c) == a && a & (a | b) == a && b & (b | c) == b && b & (a | b) == b
        && c & (b | c) == c && c & (a | c) == c) by (bit_vector);
    assert(a & (b | c) == 0 && b & (a | c) == 0 && c & (a | b) == 0) by (bit_vector)
        requires
            a & b == 0,
            a & c == 0,
            b & c == 0,
    ;
}

/// The default layers have non-empty, pairwise disjoint bits.
pub proof fn lemma_default_layers_disjoint()
    ensures
        (1u32 & 2u32) == 0 && (1u32 & 4u32) == 0 && (2u32 & 4u32) == 0,
{
    assert((1u32 & 2u32) == 0 && (1u32 & 4u32) == 0 && (2u32 & 4u32) == 0) by (bit_vector);
}

} // verus!
