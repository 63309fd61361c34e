//! Port I/O as data: what is to be written where, in order.
//!
//! A list of writes has a fixed size, so that interrupts can be answered without allocating.

use vstd::prelude::*;
use vstd::slice::*;

verus! {

/// How many writes a [`PortWrites`] can hold.
pub const MAX_WRITES: usize = 20;

/// One byte written to an 8-bit I/O port.
#[derive(Clone, Copy, PartialEq, Eq, Structural, Debug)]
pub struct PortWrite {
    /// The port.
    pub port: u16,
    /// The byte.
    pub value: u8,
}

impl PortWrite {
    /// The write of `value` to `port`.
    #[must_use]
    pub fn new(port: u16, value: u8) -> (write: Self)
        ensures
            write == (PortWrite { port, value }),
    {
        Self { port, value }
    }
}

/// A list of writes, in order.
#[derive(Clone, Copy, Debug)]
pub struct PortWrites {
    /// The writes; those from `len` on do not count.
    pub items: [PortWrite; MAX_WRITES],
    /// Number of writes.
    pub len: usize,
}

impl View for PortWrites {
    type V = Seq<PortWrite>;

    open spec fn view(&self) -> Seq<PortWrite> {
        self.items@.take(self.len as int)
    }
}

impl PortWrites {
    /// Whether the number of writes is in range.
    pub open spec fn well_formed(&self) -> bool {
        self.len <= MAX_WRITES
    }

    /// No writes.
    #[must_use]
    pub fn new() -> (writes: Self)
        ensures
            writes.well_formed(),
            writes@ == Seq::<PortWrite>::empty(),
    {
        Self { items: [PortWrite { port: 0, value: 0 }; MAX_WRITES], len: 0 }
    }

    /// Appends a write.
    pub fn push(&mut self, port: u16, value: u8)
        requires
            old(self).well_formed(),
            old(self)@.len() < MAX_WRITES,
        ensures
            final(self).well_formed(),
            final(self)@ == old(self)@.push(PortWrite { port, value }),
    {
        self.items[self.len] = PortWrite::new(port, value);
        self.len = self.len + 1;
        assert(self@ =~= old(self)@.push(PortWrite { port, value }));
    }

    /// Appends all writes of another list.
    pub fn append(&mut self, other: &PortWrites)
        requires
            old(self).well_formed(),
            other.well_formed(),
            old(self)@.len() + other@.len() <= MAX_WRITES,
        ensures
            final(self).well_formed(),
            final(self)@ == old(self)@ + other@,
    {
        let mut i: usize = 0;
        assert(other@.take(0) =~= Seq::<PortWrite>::empty());
        assert(self@ =~= old(self)@ + other@.take(0));
        while i < other.len
            invariant
                i <= other.len,
                other.well_formed(),
                self.well_formed(),
                old(self)@.len() + other@.len() <= MAX_WRITES,
                self@ == old(self)@ + other@.take(i as int),
            decreases other.len - i,
        {
            self.push(other.items[i].port, other.items[i].value);
            i = i + 1;
            assert(self@ =~= old(self)@ + other@.take(i as int));
        }
        assert(other@.take(i as int) =~= other@);
    }

    /// The writes, in order.
    #[must_use]
    pub fn as_slice(&self) -> (writes: &[PortWrite])
        requires
            self.well_formed(),
        ensures
            writes@ == self@,
    {
        slice_subrange(vstd::array::array_as_slice(&self.items), 0, self.len)
    }
}

} // verus!
