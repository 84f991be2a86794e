//! Enemy health: how hits wear an enemy down.
use vstd::prelude::*;

verus! {

/// What a hit did to an enemy.
#[derive(Clone, Copy, Debug, PartialEq, Eq, Structural)]
pub enum HitOutcome {
    /// The enemy was already down; nothing happens.
    Ignored,
    /// The enemy lost a point of health and still stands.
    Hurt,
    /// The enemy lost its last point of health: it dies now.
    Killed,
}

/// Remaining health points of an enemy.
#[derive(Clone, Copy, Debug)]
pub struct EnemyHealth {
    pub current: i32,
}

impl EnemyHealth {
    /// A dummy enemy's starting health.
    pub fn dummy() -> (r: Self)
        ensures
            r.current == 3,
    {
        EnemyHealth { current: 3 }
    }

    /// A hit takes one point of health from a standing enemy; an enemy at zero or below is not
    /// hurt again.
    pub fn take_hit(&mut self) -> (r: HitOutcome)
        ensures
            hit_step(*old(self), *final(self), r),
    {
        if self.current <= 0 {
            return HitOutcome::Ignored;
        }
        self.current = self.current - 1;
        if self.current <= 0 {
            HitOutcome::Killed
        } else {
            HitOutcome::Hurt
        }
    }
}

/// What one hit does: an enemy at zero or below is not hurt again (`Ignored`); otherwise it
/// loses a point, and dies (`Killed`) when that was its last one.
pub open spec fn hit_step(before: EnemyHealth, after: EnemyHealth, outcome: HitOutcome) -> bool {
    if before.current <= 0 {
        outcome == HitOutcome::Ignored && after.current == before.current
    } else {
        &&& after.current == before.current - 1
        &&& outcome == if after.current <= 0 {
            HitOutcome::Killed
        } else {
            HitOutcome::Hurt
        }
    }
}

/// Law: an enemy dies at most once: after the hit that kills it, every further hit is ignored
/// and leaves its health as it is. Health never goes up.
pub proof fn law_enemy_dies_once(
    h0: EnemyHealth,
    h1: EnemyHealth,
    o1: HitOutcome,
    h2: EnemyHealth,
    o2: HitOutcome,
)
    requires
        hit_step(h0, h1, o1),
        hit_step(h1, h2, o2),
    ensures
        o1 == HitOutcome::Killed ==> o2 == HitOutcome::Ignored && h2.current == h1.current,
        !(o1 == HitOutcome::Killed && o2 == HitOutcome::Killed),
        h2.current <= h1.current <= h0.current,
{
}

} // verus!
