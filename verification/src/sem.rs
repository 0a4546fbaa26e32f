//! Counters for semaphores. They hold the count and say what each
//! operation does to it; to wait for another thread is the caller's part,
//! who shares the counter under a lock.

use vstd::prelude::*;

verus! {

/// A counter that is taken from and given to, and that can also go round
/// the turns `1` to `RESOURCES`.
#[derive(Debug, Clone)]
pub struct Sem<const RESOURCES: usize> {
    value: i16,
}

impl<const RESOURCES: usize> Sem<RESOURCES> {
    /// The count.
    pub closed spec fn count(&self) -> int {
        self.value as int
    }

    /// A counter that stands at 1.
    pub fn new() -> (s: Self)
        ensures
            s.count() == 1,
    {
        Sem { value: 1 }
    }

    /// A counter that stands at `val`, which may not be above `RESOURCES`.
    pub fn from(val: i16) -> (s: Self)
        requires
            val <= RESOURCES,
        ensures
            s.count() == val,
    {
        Sem { value: val }
    }

    /// Takes one. The caller has waited until the count was above 0.
    pub fn wait(&mut self)
        requires
            old(self).count() > 0,
        ensures
            final(self).count() == old(self).count() - 1,
    {
        self.value = self.value - 1;
    }

    /// Gives one.
    pub fn signal(&mut self)
        requires
            old(self).count() < i16::MAX,
        ensures
            final(self).count() == old(self).count() + 1,
    {
        self.value = self.value + 1;
    }

    /// Goes on to the next turn: from `RESOURCES` back to 1, else up by
    /// one.
    pub fn next(&mut self)
        requires
            RESOURCES <= i16::MAX,
            old(self).count() < i16::MAX,
        ensures
            final(self).count() == (if old(self).count() == RESOURCES {
                1
            } else {
                old(self).count() + 1
            }),
    {
        if self.value == RESOURCES as i16 {
            self.value = 1;
        } else {
            self.value = self.value + 1;
        }
    }

    /// Puts the count at `val`.
    pub fn set(&mut self, val: i16)
        ensures
            final(self).count() == val,
    {
        self.value = val;
    }

    /// Whether the count stands at `turn`.
    pub fn is_turn(&self, turn: i16) -> (r: bool)
        ensures
            r == (self.count() == turn),
    {
        self.value == turn
    }

    /// The count.
    pub fn status(&self) -> (r: i16)
        ensures
            r == self.count(),
    {
        self.value
    }

    /// The turn as an index that counts from 0.
    pub fn as_idx(&self) -> (r: usize)
        requires
            self.count() >= 1,
        ensures
            r == self.count() - 1,
    {
        self.value as usize - 1
    }
}

/// The counter of a semaphore that lets `MAX` callers in. Below 0, the
/// count is the number of callers that are kept waiting.
#[derive(Debug)]
pub struct Semaphore<const MAX: u16> {
    count: i16,
}

impl<const MAX: u16> Semaphore<MAX> {
    /// The count.
    pub closed spec fn count(&self) -> int {
        self.count as int
    }

    /// A counter that stands at `MAX`.
    pub fn new() -> (s: Self)
        requires
            MAX <= i16::MAX,
        ensures
            s.count() == MAX,
    {
        Semaphore { count: MAX as i16 }
    }

    /// A caller comes. Says whether that caller has to be kept waiting:
    /// whether the count has gone below 0.
    pub fn wait(&mut self) -> (blocked: bool)
        requires
            old(self).count() > i16::MIN,
        ensures
            final(self).count() == old(self).count() - 1,
            blocked == (final(self).count() < 0),
    {
        self.count = self.count - 1;
        self.count < 0
    }

    /// A caller leaves. Says whether one of those kept waiting is to be
    /// woken: whether the count is still not above 0.
    pub fn signal(&mut self) -> (wake: bool)
        requires
            old(self).count() < i16::MAX,
        ensures
            final(self).count() == old(self).count() + 1,
            wake == (final(self).count() <= 0),
    {
        self.count = self.count + 1;
        self.count <= 0
    }

    /// The count.
    pub fn status(&self) -> (r: i16)
        ensures
            r == self.count(),
    {
        self.count
    }
}

} // verus!
