//! Terrain contacts of moving bodies: a mover is blocked while it touches terrain.
use std::collections::HashMap;
use vstd::prelude::*;

verus! {

broadcast use vstd::std_specs::hash::group_hash_axioms;

/// Number of terrain contacts of each mover, keyed by the mover entity's bits. A mover with no
/// contact has no entry.
pub struct ContactTracker {
    pub counts: HashMap<u64, u32>,
}

impl ContactTracker {
    /// Contacts per mover.
    pub open spec fn counts_spec(&self) -> Map<u64, u32> {
        self.counts@
    }

    /// No stored count is zero.
    pub open spec fn wf(&self) -> bool {
        forall|m: u64| #[trigger] self.counts@.contains_key(m) ==> self.counts@[m] > 0
    }

    /// Number of terrain contacts of `mover`.
    pub open spec fn contacts(&self, mover: u64) -> int {
        if self.counts@.contains_key(mover) {
            self.counts@[mover] as int
        } else {
            0
        }
    }

    /// No contact at all.
    pub fn new() -> (r: Self)
        ensures
            r.wf(),
            r.counts_spec() == Map::<u64, u32>::empty(),
    {
        ContactTracker { counts: HashMap::new() }
    }

    /// Number of terrain contacts of `mover`.
    pub fn contact_count(&self, mover: u64) -> (r: u32)
        ensures
            r == self.contacts(mover),
    {
        match self.counts.get(&mover) {
            Some(c) => *c,
            None => 0,
        }
    }

    /// `mover` starts touching terrain: one more contact. The mover is blocked from now on.
    pub fn begin_contact(&mut self, mover: u64)
        requires
            old(self).wf(),
            old(self).contacts(mover) < u32::MAX,
        ensures
            final(self).wf(),
            contact_begun(*old(self), *final(self), mover),
    {
        let count = match self.counts.get(&mover) {
            Some(c) => *c,
            None => 0,
        };
        self.counts.insert(mover, count + 1);
    }

    /// `mover` stops touching terrain: one contact fewer, and the entry goes when none is left.
    /// Returns `true` when this ended the mover's last contact, so it is no longer blocked. A
    /// mover without contacts is left as it is.
    pub fn end_contact(&mut self, mover: u64) -> (unblocked: bool)
        requires
            old(self).wf(),
        ensures
            final(self).wf(),
            contact_ended(*old(self), *final(self), mover, unblocked),
    {
        match self.counts.get(&mover) {
            None => false,
            Some(c) => {
                let count = *c;
                let left = count - 1;
                if left == 0 {
                    self.counts.remove(&mover);
                    true
                } else {
                    self.counts.insert(mover, left);
                    false
                }
            },
        }
    }
}

/// `after` is `before` with one more contact for `mover`.
pub open spec fn contact_begun(before: ContactTracker, after: ContactTracker, mover: u64) -> bool {
    after.counts_spec() == before.counts_spec().insert(mover, (before.contacts(mover) + 1) as u32)
}

/// `after` is `before` with one contact fewer for `mover`: the entry goes with the last
/// contact, which `unblocked` reports; a mover without contacts is left alone.
pub open spec fn contact_ended(before: ContactTracker, after: ContactTracker, mover: u64, unblocked: bool) -> bool {
    if before.contacts(mover) == 0 {
        !unblocked && after.counts_spec() == before.counts_spec()
    } else if before.contacts(mover) == 1 {
        unblocked && after.counts_spec() == before.counts_spec().remove(mover)
    } else {
        !unblocked && after.counts_spec() == before.counts_spec().insert(
            mover,
            (before.contacts(mover) - 1) as u32,
        )
    }
}

/// Law: a contact that begins and then ends leaves every mover's count as it was, and the
/// mover is unblocked exactly when that was its only contact.
pub proof fn law_contact_round_trip(t0: ContactTracker, t1: ContactTracker, t2: ContactTracker, mover: u64, unblocked: bool)
    requires
        t0.wf(),
        t0.contacts(mover) < u32::MAX,
        contact_begun(t0, t1, mover),
        contact_ended(t1, t2, mover, unblocked),
    ensures
        t2.counts_spec() == t0.counts_spec(),
        unblocked == (t0.contacts(mover) == 0),
{
    if t0.contacts(mover) == 0 {
        assert(t2.counts_spec() =~= t0.counts_spec());
    } else {
        assert(t2.counts_spec() =~= t0.counts_spec());
    }
}

} // verus!
