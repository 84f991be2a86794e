//! Melee combat rules: the attack cycle, combo counting and round-robin hit sounds.
use vstd::prelude::*;

verus! {

/// Phase of the player's attack.
#[derive(Clone, Copy, Debug, PartialEq, Eq, Structural)]
pub enum AttackPhase {
    Idle,
    Windup,
    Active,
    Recovery,
}

/// The attack cycle: its phase and whether an attack is queued.
#[derive(Clone, Copy, Debug)]
pub struct AttackState {
    pub phase: AttackPhase,
    pub queued: bool,
}

/// The phase that follows `p` once its timer runs out.
pub open spec fn next_phase(p: AttackPhase) -> AttackPhase {
    match p {
        AttackPhase::Idle => AttackPhase::Windup,
        AttackPhase::Windup => AttackPhase::Active,
        AttackPhase::Active => AttackPhase::Recovery,
        AttackPhase::Recovery => AttackPhase::Idle,
    }
}

impl AttackState {
    /// Idle, nothing queued.
    pub fn new() -> (r: Self)
        ensures
            r.phase == AttackPhase::Idle,
            !r.queued,
    {
        AttackState { phase: AttackPhase::Idle, queued: false }
    }

    /// An attack press queues an attack while idle or recovering; otherwise nothing changes.
    pub fn queue_attack(&mut self, attack_pressed: bool)
        ensures
            final(self).phase == old(self).phase,
            final(self).queued == (old(self).queued || (attack_pressed && (old(self).phase
                == AttackPhase::Idle || old(self).phase == AttackPhase::Recovery))),
    {
        if attack_pressed {
            match self.phase {
                AttackPhase::Idle | AttackPhase::Recovery => {
                    if !self.queued {
                        self.queued = true;
                    }
                },
                _ => {},
            }
        }
    }

    /// Without a player the attack is dropped: idle, nothing queued.
    pub fn cancel(&mut self)
        ensures
            final(self).phase == AttackPhase::Idle,
            !final(self).queued,
    {
        self.phase = AttackPhase::Idle;
        self.queued = false;
    }

    /// One frame of the attack cycle. When idle, a queued attack starts its wind-up; in the
    /// other phases the cycle moves on once `timer_expired`. Returns the phase entered, if any,
    /// which is also the event to announce.
    pub fn advance(&mut self, timer_expired: bool) -> (entered: Option<AttackPhase>)
        ensures
            attack_step(*old(self), *final(self), timer_expired, entered),
            old(self).phase != AttackPhase::Idle && !timer_expired ==> *final(self) == *old(self) && entered is None,
            old(self).phase != AttackPhase::Idle && old(self).queued ==> final(self).queued,
            final(self).queued ==> old(self).queued,
            old(self).phase == AttackPhase::Idle ==> (entered is Some <==> old(self).queued),
    {
        match self.phase {
            AttackPhase::Idle => {
                if self.queued {
                    self.queued = false;
                    self.phase = AttackPhase::Windup;
                    Some(AttackPhase::Windup)
                } else {
                    None
                }
            },
            AttackPhase::Windup => {
                if timer_expired {
                    self.phase = AttackPhase::Active;
                    Some(AttackPhase::Active)
                } else {
                    None
                }
            },
            AttackPhase::Active => {
                if timer_expired {
                    self.phase = AttackPhase::Recovery;
                    Some(AttackPhase::Recovery)
                } else {
                    None
                }
            },
            AttackPhase::Recovery => {
                if timer_expired {
                    self.phase = AttackPhase::Idle;
                    Some(AttackPhase::Idle)
                } else {
                    None
                }
            },
        }
    }
}

/// One frame of the attack cycle from `before` to `after`, announcing `entered`: when idle, a
/// queued attack starts its wind-up (and is no longer queued); in the other phases the cycle
/// moves to the next phase once the timer has expired; otherwise nothing changes.
pub open spec fn attack_step(before: AttackState, after: AttackState, timer_expired: bool, entered: Option<AttackPhase>) -> bool {
    if before.phase == AttackPhase::Idle {
        if before.queued {
            &&& entered == Some(AttackPhase::Windup)
            &&& after.phase == AttackPhase::Windup
            &&& !after.queued
        } else {
            &&& entered is None
            &&& after == before
        }
    } else if timer_expired {
        &&& entered == Some(next_phase(before.phase))
        &&& after.phase == next_phase(before.phase)
        &&& after.queued == before.queued
    } else {
        &&& entered is None
        &&& after == before
    }
}

/// Law: an attack queued while the cycle runs is kept until the cycle is idle again, and then
/// starts the wind-up: a frame whose timer has not run out changes nothing outside idle, no
/// frame queues an attack by itself, and an idle frame starts the wind-up exactly when an attack
/// is queued.
pub proof fn law_queued_attack_waits(before: AttackState, after: AttackState, entered: Option<AttackPhase>, timer_expired: bool)
    requires
        attack_step(before, after, timer_expired, entered),
    ensures
        before.phase != AttackPhase::Idle && !timer_expired ==> after == before && entered is None,
        before.phase != AttackPhase::Idle && before.queued ==> after.queued,
        after.queued ==> before.queued,
        before.phase == AttackPhase::Idle ==> (entered == Some(AttackPhase::Windup) <==> before.queued),
        before.phase == AttackPhase::Idle && before.queued ==> after.phase == AttackPhase::Windup && !after.queued,
{
}

/// Law: every frame of the attack cycle either keeps the phase or moves to the next one, and
/// the phase changes exactly when an event is announced, naming the new phase.
pub proof fn law_attack_cycle_steps(before: AttackState, after: AttackState, entered: Option<AttackPhase>, timer_expired: bool)
    requires
        attack_step(before, after, timer_expired, entered),
    ensures
        after.phase == before.phase || after.phase == next_phase(before.phase),
        (after.phase != before.phase) <==> entered is Some,
        entered matches Some(p) ==> p == after.phase,
{
}

/// Consecutive combo hits, the best combo, and the last enemy defeated during the combo.
pub struct ComboTracker {
    current: u32,
    best: u32,
    last_defeated_entity: Option<u64>,
    last_defeated_name: Option<String>,
    last_defeated_time_bits: Option<u32>,
}

impl ComboTracker {
    #[verifier::type_invariant]
    spec fn best_covers_current(self) -> bool {
        self.current <= self.best
    }

    /// Hits in the running combo.
    pub closed spec fn current_spec(self) -> u32 {
        self.current
    }

    /// Best combo so far.
    pub closed spec fn best_spec(self) -> u32 {
        self.best
    }

    /// Bits of the entity last defeated during the combo.
    pub closed spec fn last_entity_spec(self) -> Option<u64> {
        self.last_defeated_entity
    }

    /// Name of the enemy last defeated during the combo.
    pub closed spec fn last_name_spec(self) -> Option<String> {
        self.last_defeated_name
    }

    /// Bit pattern of the `f32` time at which that enemy was defeated.
    pub closed spec fn last_time_spec(self) -> Option<u32> {
        self.last_defeated_time_bits
    }

    /// No combo, nothing defeated.
    pub fn new() -> (r: Self)
        ensures
            r.current_spec() == 0,
            r.best_spec() == 0,
            r.last_entity_spec() is None,
            r.last_name_spec() is None,
            r.last_time_spec() is None,
    {
        ComboTracker {
            current: 0,
            best: 0,
            last_defeated_entity: None,
            last_defeated_name: None,
            last_defeated_time_bits: None,
        }
    }

    /// Hits in the running combo, never more than the best combo.
    pub fn current(&self) -> (r: u32)
        ensures
            r == self.current_spec(),
            r <= self.best_spec(),
    {
        proof {
            use_type_invariant(self);
        }
        self.current
    }

    pub fn best(&self) -> (r: u32)
        ensures
            r == self.best_spec(),
    {
        self.best
    }

    /// Whether a combo is running.
    pub fn is_active(&self) -> (r: bool)
        ensures
            r == (self.current_spec() > 0),
    {
        self.current > 0
    }

    pub fn last_defeated_entity(&self) -> (r: Option<u64>)
        ensures
            r == self.last_entity_spec(),
    {
        self.last_defeated_entity
    }

    pub fn last_defeated_name(&self) -> (r: Option<&str>)
        ensures
            match r {
                Some(s) => self.last_name_spec() matches Some(n) && s@ == n@,
                None => self.last_name_spec() is None,
            },
    {
        match &self.last_defeated_name {
            Some(n) => Some(n.as_str()),
            None => None,
        }
    }

    pub fn last_defeated_time_bits(&self) -> (r: Option<u32>)
        ensures
            r == self.last_time_spec(),
    {
        self.last_defeated_time_bits
    }

    /// One frame of combo counting. `hit` says whether an enemy was hit this frame and
    /// `decay_expired` whether the combo window had run out. A hit after the window ran out
    /// starts a new combo; a hit extends the combo by one (stopping at `u32::MAX`) and lifts the
    /// best combo to it. Without a hit, an expired window ends a running combo. Ending a combo
    /// forgets the last defeated enemy. Returns whether the combo window restarts.
    pub fn register_hits(&mut self, hit: bool, decay_expired: bool) -> (restart_window: bool)
        ensures
            restart_window == hit,
            final(self).best_spec() >= old(self).best_spec(),
            final(self).current_spec() <= final(self).best_spec(),
            ({
                let base = if decay_expired { 0 } else { old(self).current_spec() as int };
                if hit {
                    &&& final(self).current_spec() == if base == u32::MAX { u32::MAX as int } else { base + 1 }
                    &&& final(self).best_spec() == if final(self).current_spec() > old(self).best_spec() {
                        final(self).current_spec()
                    } else {
                        old(self).best_spec()
                    }
                } else {
                    &&& final(self).current_spec() == base
                    &&& final(self).best_spec() == old(self).best_spec()
                }
            }),
            (if hit { decay_expired } else { decay_expired && old(self).current_spec() > 0 }) ==> {
                &&& final(self).last_entity_spec() is None
                &&& final(self).last_name_spec() is None
                &&& final(self).last_time_spec() is None
            },
            !(if hit { decay_expired } else { decay_expired && old(self).current_spec() > 0 }) ==> {
                &&& final(self).last_entity_spec() == old(self).last_entity_spec()
                &&& final(self).last_name_spec() == old(self).last_name_spec()
                &&& final(self).last_time_spec() == old(self).last_time_spec()
            },
    {
        proof {
            use_type_invariant(&*self);
        }
        if hit {
            if decay_expired {
                self.current = 0;
                self.last_defeated_entity = None;
                self.last_defeated_name = None;
                self.last_defeated_time_bits = None;
            }
            let next = self.current.saturating_add(1);
            let best = if next > self.best { next } else { self.best };
            self.best = best;
            self.current = next;
            true
        } else {
            if decay_expired && self.current > 0 {
                self.current = 0;
                self.last_defeated_entity = None;
                self.last_defeated_name = None;
                self.last_defeated_time_bits = None;
            }
            false
        }
    }

    /// Records the enemies defeated this frame, in order, at the time whose `f32` bits are
    /// `now_bits`: the last one becomes the last defeated enemy. Any defeat ends a running
    /// combo. Returns whether the combo window must be emptied.
    pub fn register_defeats(&mut self, defeated: &Vec<(u64, Option<String>)>, now_bits: u32) -> (empty_window: bool)
        ensures
            defeated@.len() == 0 ==> {
                &&& final(self).current_spec() == old(self).current_spec()
                &&& final(self).last_entity_spec() == old(self).last_entity_spec()
                &&& final(self).last_name_spec() == old(self).last_name_spec()
                &&& final(self).last_time_spec() == old(self).last_time_spec()
                &&& !empty_window
            },
            defeated@.len() > 0 ==> {
                let last = defeated@[defeated@.len() - 1];
                &&& final(self).last_entity_spec() == Some(last.0)
                &&& final(self).last_name_spec() == last.1
                &&& final(self).last_time_spec() == Some(now_bits)
                &&& final(self).current_spec() == 0
                &&& empty_window == (old(self).current_spec() > 0)
            },
            final(self).best_spec() == old(self).best_spec(),
            final(self).current_spec() <= final(self).best_spec(),
    {
        proof {
            use_type_invariant(&*self);
        }
        let n = defeated.len();
        let mut i: usize = 0;
        while i < n
            invariant
                n == defeated@.len(),
                i <= n,
                self.current == old(self).current,
                self.best == old(self).best,
                self.current <= self.best,
                i == 0 ==> self.last_defeated_entity == old(self).last_defeated_entity
                    && self.last_defeated_name == old(self).last_defeated_name
                    && self.last_defeated_time_bits == old(self).last_defeated_time_bits,
                i > 0 ==> self.last_defeated_entity == Some(defeated@[i - 1].0)
                    && self.last_defeated_name == defeated@[i - 1].1
                    && self.last_defeated_time_bits == Some(now_bits),
            decreases n - i,
        {
            let entity = defeated[i].0;
            let name = defeated[i].1.clone();
            self.last_defeated_entity = Some(entity);
            self.last_defeated_name = name;
            self.last_defeated_time_bits = Some(now_bits);
            i = i + 1;
        }
        if n > 0 && self.current > 0 {
            self.current = 0;
            true
        } else {
            false
        }
    }
}

/// The enemies an attack hitbox has already hit, by entity bits.
#[derive(Clone, Debug)]
pub struct AttackHitbox {
    pub hit_entities: Vec<u64>,
}

impl AttackHitbox {
    /// A fresh hitbox that has hit nothing.
    pub fn new() -> (r: Self)
        ensures
            r.hit_entities@ == Seq::<u64>::empty(),
    {
        AttackHitbox { hit_entities: Vec::new() }
    }

    /// Whether `enemy` has been hit by this hitbox.
    pub fn has_hit(&self, enemy: u64) -> (r: bool)
        ensures
            r == self.hit_entities@.contains(enemy),
    {
        let n = self.hit_entities.len();
        let mut i: usize = 0;
        while i < n
            invariant
                n == self.hit_entities@.len(),
                i <= n,
                forall|j: int| 0 <= j < i ==> self.hit_entities@[j] != enemy,
            decreases n - i,
        {
            if self.hit_entities[i] == enemy {
                return true;
            }
            i = i + 1;
        }
        false
    }

    /// An enemy within reach of the hitbox is hit, unless this hitbox already hit it. Returns
    /// whether the hit lands (and is recorded).
    pub fn try_hit(&mut self, enemy: u64, in_reach: bool) -> (landed: bool)
        ensures
            landed == (in_reach && !old(self).hit_entities@.contains(enemy)),
            final(self).hit_entities@ == if landed {
                old(self).hit_entities@.push(enemy)
            } else {
                old(self).hit_entities@
            },
    {
        if !in_reach || self.has_hit(enemy) {
            return false;
        }
        self.hit_entities.push(enemy);
        true
    }
}

/// Law: a hitbox lands at most one hit on each enemy: once a hit on `enemy` has landed, every
/// later attempt on it fails.
pub proof fn law_hit_once(h0: AttackHitbox, h1: AttackHitbox, landed: bool, enemy: u64, in_reach: bool)
    requires
        landed,
        h1.hit_entities@ == h0.hit_entities@.push(enemy),
    ensures
        h1.hit_entities@.contains(enemy),
        !(in_reach && !h1.hit_entities@.contains(enemy)),
{
    assert(h1.hit_entities@[h0.hit_entities@.len() as int] == enemy);
}

/// Picks the sound to play from `len` sounds, round robin: `next` wrapped into range, and the
/// cursor for the following pick.
pub fn round_robin(next: usize, len: usize) -> (r: (usize, usize))
    requires
        len > 0,
    ensures
        r.0 == next % len,
        r.1 == (r.0 + 1) % len as int,
        r.0 < len && r.1 < len,
{
    let index = next % len;
    (index, (index + 1) % len)
}

} // verus!
