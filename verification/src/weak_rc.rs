//! The reference counts of a value shared by strong and weak references.
//!
//! The strong count counts strong references; its top bit marks a value that
//! was destructed. The weak count goes in steps of [`WEAK_ONE`] per weak
//! reference, and its lowest bit, [`NO_WEAK`], is set while no weak
//! reference was ever taken. Each update is one read-modify-write of a
//! count, as an atomic operation would do it.
use vstd::prelude::*;

verus! {

/// The flag in the weak count while no weak reference was taken.
pub const NO_WEAK: usize = 1;

/// The step of the weak count for one weak reference.
pub const WEAK_ONE: usize = 2;

/// The flag in the strong count of a destructed value.
pub open spec fn destructed() -> usize {
    (1usize << (usize::BITS - 1) as usize) as usize
}

/// The flag in the strong count of a destructed value: the top bit.
pub fn destructed_flag() -> (r: usize)
    ensures
        r == destructed(),
{
    1usize << (usize::BITS - 1)
}

/// A count at or above this limit aborts the process when it grows.
pub open spec fn limit() -> usize {
    (destructed() >> 1) as usize
}

/// A count at or above this limit aborts the process when it grows: half
/// the destructed flag.
pub fn limit_value() -> (r: usize)
    ensures
        r == limit(),
{
    destructed_flag() >> 1
}

/// The top bit is above the limit, and the limit is half of it.
pub proof fn lemma_flags()
    ensures
        destructed() == 2 * limit(),
        limit() > 0,
{
    assert(usize::BITS == 32 || usize::BITS == 64) by {
        crate::memory::lemma_word_size();
    }
    if usize::BITS == 32 {
        assert((1usize << 31usize) == 2 * ((1usize << 31usize) >> 1usize) && ((1usize << 31usize)
            >> 1usize) > 0) by (bit_vector)
            requires
                usize::BITS == 32,
        ;
    } else {
        assert((1usize << 63usize) == 2 * ((1usize << 63usize) >> 1usize) && ((1usize << 63usize)
            >> 1usize) > 0) by (bit_vector)
            requires
                usize::BITS == 64,
        ;
    }
}

/// What dropping the last strong reference asks for.
#[derive(Clone, Copy, Debug, PartialEq, Eq, Structural)]
pub enum DropOutcome {
    /// Other strong references remain, or the value was already taken care
    /// of: nothing to do.
    Kept,
    /// No weak reference was ever taken: drop the value and free its memory.
    DropAndFree,
    /// The value is destructed; weak references keep its memory.
    Destructed,
    /// The value is destructed and no weak reference is left: free its
    /// memory.
    DestructedAndFree,
}

/// The strong and weak counts of a shared value.
pub struct WeakRc {
    strong: usize,
    weak: usize,
}

impl WeakRc {
    /// The strong count.
    pub closed spec fn strong_count(self) -> usize {
        self.strong
    }

    /// The weak count.
    pub closed spec fn weak_count(self) -> usize {
        self.weak
    }

    /// The counts of a fresh value: one strong reference and no weak one.
    pub fn new() -> (r: Self)
        ensures
            r.strong_count() == 1,
            r.weak_count() == NO_WEAK + WEAK_ONE,
    {
        WeakRc { strong: 1, weak: NO_WEAK + WEAK_ONE }
    }

    /// Takes another strong reference. The process aborts when the count is
    /// at the limit, so the count must be below it.
    pub fn incr_strong(&mut self)
        requires
            old(self).strong_count() < limit(),
        ensures
            incr_strong_post(*old(self), *final(self)),
    {
        let val = self.strong;
        self.strong = val.wrapping_add(1);
    }

    /// Gives up a strong reference; the last one runs [`WeakRc::drop_slow`].
    pub fn decr_strong(&mut self) -> (r: DropOutcome)
        ensures
            decr_strong_post(*old(self), *final(self), r),
    {
        let val = self.strong;
        self.strong = val.wrapping_sub(1);
        if val == 1 {
            return self.drop_slow();
        }
        DropOutcome::Kept
    }

    /// Settles a value whose strong count fell to zero (see
    /// [`drop_slow_post`]).
    pub fn drop_slow(&mut self) -> (r: DropOutcome)
        ensures
            drop_slow_post(old(self).strong_count(), old(self).weak_count(), *final(self), r),
    {
        let weak = self.weak;
        if weak == NO_WEAK + WEAK_ONE {
            // drop + dealloc!
            return DropOutcome::DropAndFree;
        }
        if self.strong == 0 {
            self.strong = destructed_flag();
            // destruct
            let val = self.weak;
            self.weak = val.wrapping_sub(WEAK_ONE);
            if val == WEAK_ONE {
                // dealloc
                return DropOutcome::DestructedAndFree;
            }
            return DropOutcome::Destructed;
        }
        DropOutcome::Kept
    }

    /// Takes a weak reference. The process aborts when the count is at the
    /// limit, so the count must be below it. The first weak reference
    /// clears the [`NO_WEAK`] flag.
    pub fn incr_weak(&mut self)
        requires
            old(self).weak_count() < limit(),
        ensures
            incr_weak_post(*old(self), *final(self)),
    {
        proof {
            lemma_flags();
        }
        let val = self.weak;
        self.weak = val.wrapping_add(WEAK_ONE);
        if val == NO_WEAK + WEAK_ONE {
            // unset NO_WEAK flag
            let cur = self.weak;
            self.weak = cur.wrapping_sub(NO_WEAK);
        }
    }

    /// Gives up a weak reference; returns whether it was the last one, so
    /// that the memory is to be freed.
    pub fn decr_weak(&mut self) -> (r: bool)
        ensures
            decr_weak_post(*old(self), *final(self), r),
    {
        let val = self.weak;
        self.weak = val.wrapping_sub(WEAK_ONE);
        val == WEAK_ONE
    }

    /// Tries to turn a weak reference into a strong one. Only a destructed
    /// value is handled, which the attempt reports by leaving the count one
    /// higher.
    pub fn upgrade(&mut self)
        requires
            old(self).strong_count() & destructed() != 0,
        ensures
            final(self).strong_count() == old(self).strong_count().wrapping_add(1),
            final(self).weak_count() == old(self).weak_count(),
    {
        let strong = self.strong;
        self.strong = strong.wrapping_add(1);
        if strong & destructed_flag() != 0 {
            // we detected a failure
            return;
        }
    }

    /// Turns a strong reference into a weak one.
    pub fn downgrade(&mut self) -> (r: DropOutcome)
        requires
            old(self).weak_count() < limit(),
        ensures
            old(self).strong_count() != 1 ==> {
                &&& r == DropOutcome::Kept
                &&& final(self).strong_count() == old(self).strong_count().wrapping_sub(1)
                &&& final(self).weak_count() == weak_after_incr(old(self).weak_count())
            },
            old(self).strong_count() == 1 ==> drop_slow_post(
                0,
                weak_after_incr(old(self).weak_count()),
                *final(self),
                r,
            ),
    {
        self.incr_weak();
        self.decr_strong()
    }

    /// Exclusive access to the value: nothing to do on the counts.
    pub fn get_mut(&mut self)
        ensures
            *final(self) == *old(self),
    {
    }

    /// Takes the value out of a unique reference: nothing to do on the
    /// counts.
    pub fn into_inner(self) {
    }
}

/// The weak count after [`WeakRc::incr_weak`] from `w`.
pub open spec fn weak_after_incr(w: usize) -> usize {
    if w == NO_WEAK + WEAK_ONE {
        (w + WEAK_ONE - NO_WEAK) as usize
    } else {
        (w + WEAK_ONE) as usize
    }
}

/// What [`WeakRc::drop_slow`] does from the strong count `s` and weak count
/// `w`: with no weak reference ever taken it asks to drop and free the value;
/// otherwise a zero strong count becomes the destructed flag and one weak
/// step is given up, and the memory is freed when that was the last;
/// otherwise nothing changes.
pub open spec fn drop_slow_post(s: usize, w: usize, after: WeakRc, r: DropOutcome) -> bool {
    if w == NO_WEAK + WEAK_ONE {
        r == DropOutcome::DropAndFree && after.strong_count() == s && after.weak_count() == w
    } else if s == 0 {
        &&& after.strong_count() == destructed()
        &&& after.weak_count() == w.wrapping_sub(WEAK_ONE)
        &&& r == if w == WEAK_ONE {
            DropOutcome::DestructedAndFree
        } else {
            DropOutcome::Destructed
        }
    } else {
        r == DropOutcome::Kept && after.strong_count() == s && after.weak_count() == w
    }
}

/// What [`WeakRc::incr_strong`] leaves: one more strong reference.
pub open spec fn incr_strong_post(before: WeakRc, after: WeakRc) -> bool {
    &&& after.strong_count() == before.strong_count() + 1
    &&& after.weak_count() == before.weak_count()
}

/// What [`WeakRc::decr_strong`] leaves and returns: one strong reference
/// fewer, and for the last one what [`WeakRc::drop_slow`] does.
pub open spec fn decr_strong_post(before: WeakRc, after: WeakRc, r: DropOutcome) -> bool {
    if before.strong_count() != 1 {
        &&& r == DropOutcome::Kept
        &&& after.strong_count() == before.strong_count().wrapping_sub(1)
        &&& after.weak_count() == before.weak_count()
    } else {
        drop_slow_post(0, before.weak_count(), after, r)
    }
}

/// What [`WeakRc::incr_weak`] leaves: one more weak reference.
pub open spec fn incr_weak_post(before: WeakRc, after: WeakRc) -> bool {
    &&& after.strong_count() == before.strong_count()
    &&& after.weak_count() == weak_after_incr(before.weak_count())
}

/// What [`WeakRc::decr_weak`] leaves and returns: one weak step fewer, and
/// whether it was the last.
pub open spec fn decr_weak_post(before: WeakRc, after: WeakRc, freed: bool) -> bool {
    &&& freed == (before.weak_count() == WEAK_ONE)
    &&& after.weak_count() == before.weak_count().wrapping_sub(WEAK_ONE)
    &&& after.strong_count() == before.strong_count()
}

/// Taking a strong reference and giving it back again leaves both counts as
/// they were and asks for nothing, while another strong reference is held.
pub proof fn lemma_incr_decr_strong(before: WeakRc, mid: WeakRc, after: WeakRc, r: DropOutcome)
    requires
        1 <= before.strong_count() < limit(),
        incr_strong_post(before, mid),
        decr_strong_post(mid, after, r),
    ensures
        after.strong_count() == before.strong_count(),
        after.weak_count() == before.weak_count(),
        r == DropOutcome::Kept,
{
}

/// Taking a weak reference and giving it back again leaves both counts as
/// they were once a weak reference was taken before; it frees the memory
/// only when the weak count was zero.
pub proof fn lemma_incr_decr_weak(before: WeakRc, mid: WeakRc, after: WeakRc, freed: bool)
    requires
        before.weak_count() < limit(),
        before.weak_count() != NO_WEAK + WEAK_ONE,
        incr_weak_post(before, mid),
        decr_weak_post(mid, after, freed),
    ensures
        after.strong_count() == before.strong_count(),
        after.weak_count() == before.weak_count(),
        freed == (before.weak_count() == 0),
{
    lemma_flags();
}

/// The weak count `w` accounts for `k` weak references: while a weak
/// reference was ever taken (`ever_weak`) it is one step per weak reference
/// plus one step that the strong references hold together; before that it
/// is that one step with the [`NO_WEAK`] flag, and there are no weak
/// references.
pub open spec fn weak_accounts(w: usize, k: nat, ever_weak: bool) -> bool {
    if ever_weak {
        w == 2 * (k + 1)
    } else {
        k == 0 && w == 3
    }
}

/// A fresh value has no weak reference, and taking one keeps the weak count
/// accounting for the references: one more weak reference, and from then on
/// a weak reference was taken.
pub proof fn lemma_incr_weak_accounts(before: WeakRc, after: WeakRc, k: nat, ever_weak: bool)
    requires
        weak_accounts(before.weak_count(), k, ever_weak),
        before.weak_count() < limit(),
        incr_weak_post(before, after),
    ensures
        weak_accounts(after.weak_count(), k + 1, true),
{
    lemma_flags();
}

/// Giving up the last strong reference asks for the memory to be freed
/// exactly when no weak reference is left; otherwise the value is
/// destructed and its memory kept for the weak references.
pub proof fn lemma_last_strong_frees_iff_no_weak(
    before: WeakRc,
    after: WeakRc,
    r: DropOutcome,
    k: nat,
    ever_weak: bool,
)
    requires
        before.strong_count() == 1,
        weak_accounts(before.weak_count(), k, ever_weak),
        decr_strong_post(before, after, r),
    ensures
        r != DropOutcome::Kept,
        (r == DropOutcome::DropAndFree || r == DropOutcome::DestructedAndFree) <==> k == 0,
        r == DropOutcome::Destructed ==> after.weak_count() == 2 * k && after.strong_count() == destructed(),
{
}

/// Giving up a weak reference frees the memory only after the value was
/// destructed, and then exactly when it was the last weak reference; while
/// a strong reference is held it never frees.
pub proof fn lemma_weak_release_frees_last(before: WeakRc, after: WeakRc, freed: bool, k: nat, destructed_value: bool)
    requires
        k >= 1,
        destructed_value ==> before.weak_count() == 2 * k,
        !destructed_value ==> weak_accounts(before.weak_count(), k, true),
        decr_weak_post(before, after, freed),
    ensures
        freed <==> (destructed_value && k == 1),
        destructed_value ==> after.weak_count() == 2 * (k - 1),
        !destructed_value ==> weak_accounts(after.weak_count(), (k - 1) as nat, true),
{
}

} // verus!
