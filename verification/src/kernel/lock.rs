//! Critical sections: when interrupts are switched off and on again, and how many locks are held.
//!
//! A section switches interrupts off and remembers whether they were on. Leaving it restores that
//! state, so sections nest. No lock may be held across a context switch; the count of held locks
//! is what `yield` and `exit` test.

use vstd::prelude::*;

verus! {

/// The interrupt flag in the flags register.
pub const INTERRUPT_FLAG: u64 = 0x200;

/// Whether interrupts are on, given the flags register.
#[must_use]
pub fn interrupts_enabled(flags: u64) -> (enabled: bool)
    ensures
        enabled == (flags & INTERRUPT_FLAG != 0),
        enabled == (flags & 0x200 != 0),
{
    flags & INTERRUPT_FLAG != 0
}

/// A section with interrupts off.
#[derive(Clone, Copy, PartialEq, Eq, Structural, Debug)]
pub struct CriticalSection {
    /// Whether interrupts were on at the start, and go on again at the end.
    pub restore: bool,
}

impl CriticalSection {
    /// Enters a section, given whether interrupts are on. They have to be switched off exactly if
    /// the section will restore them.
    #[must_use]
    pub fn enter(enabled: bool) -> (section: Self)
        ensures
            section.restore == enabled,
    {
        Self { restore: enabled }
    }

    /// Whether interrupts are on after the section, given whether they are on at its end.
    pub open spec fn after(self, enabled: bool) -> bool {
        self.restore || enabled
    }

    /// Leaves the section: whether interrupts are on afterwards.
    #[must_use]
    pub fn leave(self, enabled: bool) -> (result: bool)
        ensures
            result == self.after(enabled),
            result <==> self.restore || enabled,
    {
        self.restore || enabled
    }
}

/// Enters a section, given whether interrupts are on.
#[must_use]
pub fn critical(enabled: bool) -> (section: CriticalSection)
    ensures
        section.restore == enabled,
{
    CriticalSection::enter(enabled)
}

/// A section leaves interrupts as it found them, and a section inside another one never switches
/// them on.
pub proof fn law_sections_nest(enabled: bool, outer: CriticalSection, inner: CriticalSection)
    requires
        outer.restore == enabled,
        inner.restore == false,
    ensures
        outer.after(false) == enabled,
        inner.after(false) == false,
        outer.after(inner.after(false)) == enabled,
{
}

/// How many locks are held.
#[derive(Clone, Copy, PartialEq, Eq, Structural, Debug)]
pub struct HeldLocks {
    /// The number of locks.
    pub count: usize,
}

impl HeldLocks {
    /// No lock is held.
    #[must_use]
    pub fn new() -> (held: Self)
        ensures
            held.count == 0,
    {
        Self { count: 0 }
    }

    /// A lock was taken.
    pub fn acquire(&mut self)
        requires
            old(self).count < usize::MAX,
        ensures
            final(self).count == old(self).count + 1,
    {
        self.count = self.count + 1;
    }

    /// A lock was given back.
    pub fn release(&mut self)
        requires
            old(self).count > 0,
        ensures
            final(self).count == old(self).count - 1,
    {
        self.count = self.count - 1;
    }

    /// How many locks are held.
    #[must_use]
    pub fn held_count(&self) -> (count: usize)
        ensures
            count == self.count,
    {
        self.count
    }

    /// Whether the processor may be given to another thread.
    #[must_use]
    pub fn may_switch(&self) -> (result: bool)
        ensures
            result == (self.count == 0),
    {
        self.count == 0
    }
}

} // verus!
