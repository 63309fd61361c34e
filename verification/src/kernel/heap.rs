//! The kernel's heap: the free list on a range of physical memory.

use vstd::prelude::*;

use crate::heap::{FreeList, HeapStats, MAX_ALIGN};
use crate::math::{lemma_powers_divide, power_of_two};

verus! {

/// Size of the kernel's heap: 256 frames, 1 MiB.
pub const HEAP_SIZE: usize = 0x10_0000;

/// The heap and where it lies.
#[derive(Clone, Copy, PartialEq, Eq, Structural, Debug)]
pub struct HeapState {
    /// The free list; its blocks lie in the heap itself.
    pub list: FreeList,
    /// Address of the heap; 0 before it is set up.
    pub base: u64,
    /// Length of the heap.
    pub len: usize,
}

impl HeapState {
    /// Whether the heap ends inside the address space and the list stays inside the heap.
    pub open spec fn well_formed(&self) -> bool {
        &&& self.base + self.len <= u64::MAX
        &&& self.list.span() <= self.len
    }

    /// Whether the heap was set up.
    pub open spec fn ready(&self) -> bool {
        self.len != 0 && self.base != 0
    }

    /// Whether an address belongs to the heap.
    pub open spec fn owns(&self, address: u64) -> bool {
        self.ready() && address != 0 && self.base <= address < self.base + self.len
    }

    /// A heap that was not set up.
    #[must_use]
    pub fn new() -> (state: Self)
        ensures
            state == (HeapState { list: FreeList::spec_empty(), base: 0, len: 0 }),
            state.well_formed(),
    {
        Self { list: FreeList::empty(), base: 0, len: 0 }
    }

    /// Sets the heap up on `arena`, which lies at `base`.
    pub fn init(&mut self, arena: &mut [u8], base: u64)
        requires
            base + old(arena)@.len() <= u64::MAX,
        ensures
            final(self).well_formed(),
            final(self).base == base,
            final(self).len == old(arena)@.len(),
            final(self).list.well_formed(final(arena)@),
            final(self).list == FreeList::init_outcome(old(arena)@).0,
            final(arena)@ == FreeList::init_outcome(old(arena)@).1,
    {
        let len: usize = arena.len();
        self.list = FreeList::init(arena);
        self.base = base;
        self.len = len;
    }

    /// The heap's range: address and length.
    #[must_use]
    pub fn region(&self) -> (region: (u64, usize))
        ensures
            region == (self.base, self.len),
    {
        (self.base, self.len)
    }

    /// Statistics of the heap.
    #[must_use]
    pub fn stats(&self) -> (stats: HeapStats)
        ensures
            stats == self.list.counts(),
    {
        self.list.stats()
    }

    /// Allocates `size` bytes aligned to `align`; `None` stands for a null pointer.
    pub fn allocate(&mut self, arena: &mut [u8], size: usize, align: usize) -> (address: Option<u64>)
        requires
            old(self).well_formed(),
        ensures
            final(self).well_formed(),
            final(self).base == old(self).base,
            final(self).len == old(self).len,
            ({
                let (offset, list, after) = old(self).list.alloc_outcome(
                    old(arena)@,
                    size,
                    align,
                );
                if old(self).ready() {
                    &&& address == (match offset {
                        Some(offset) => Some((old(self).base + offset) as u64),
                        None => None,
                    })
                    &&& final(self).list == list
                    &&& final(arena)@ == after
                } else {
                    &&& address is None
                    &&& *final(self) == *old(self)
                    &&& final(arena)@ == old(arena)@
                }
            }),
            address matches Some(address) ==> old(self).owns(address) && address + size <= old(
                self,
            ).base + old(self).len,
            old(self).list.well_formed(old(arena)@) ==> final(self).list.well_formed(final(arena)@),
            address matches Some(address) ==> old(self).base % MAX_ALIGN as u64 == 0 ==> address
                % align as u64 == 0,
            // A heap that was set up answers as its list does, from its address on; no other
            // serves a request.
            address is Some <==> old(self).len != 0 && old(self).base != 0 && old(
                self,
            ).list.alloc_outcome(old(arena)@, size, align).0 is Some,
            address matches Some(address) ==> {
                &&& address - old(self).base == old(self).list.alloc_outcome(
                    old(arena)@,
                    size,
                    align,
                ).0->0
                &&& old(self).base < address
                &&& address + size <= old(self).base + old(self).len
            },
    {
        if self.len == 0 || self.base == 0 {
            return None;
        }
        match self.list.allocate(arena, size, align) {
            Some(offset) => {
                proof {
                    if self.base % MAX_ALIGN as u64 == 0 {
                        lemma_alignment_carries(self.base as int, offset as int, align as int);
                    }
                }
                Some(self.base + offset as u64)
            },
            None => None,
        }
    }

    /// Gives back the payload at `address`.
    ///
    /// An address outside the heap is ignored, and so is one that the free list refuses: there is
    /// no way to report it, and the heap stays consistent.
    pub fn dealloc(&mut self, arena: &mut [u8], address: u64)
        requires
            old(self).well_formed(),
        ensures
            final(self).well_formed(),
            final(self).base == old(self).base,
            final(self).len == old(self).len,
            ({
                let offset = (address - old(self).base) as usize;
                let (_, list, after) = old(self).list.dealloc_outcome(old(arena)@, offset);
                if old(self).owns(address) {
                    final(self).list == list && final(arena)@ == after
                } else {
                    *final(self) == *old(self) && final(arena)@ == old(arena)@
                }
            }),
            old(self).list.well_formed(old(arena)@) ==> final(self).list.well_formed(final(arena)@),
            old(self).list.well_formed(old(arena)@) && !(old(self).owns(address) && old(
                self,
            ).list.is_live(old(arena)@, (address - old(self).base) as usize)) ==> *final(self)
                == *old(self) && final(arena)@ == old(arena)@,
            // Every address of a heap that was set up reaches the list, and no other does.
            old(self).len != 0 && old(self).base != 0 && old(self).base <= address < old(self).base
                + old(self).len ==> {
                let (_, list, after) = old(self).list.dealloc_outcome(
                    old(arena)@,
                    (address - old(self).base) as usize,
                );
                final(self).list == list && final(arena)@ == after
            },
            old(self).len == 0 || old(self).base == 0 || address < old(self).base || address >= old(
                self,
            ).base + old(self).len ==> *final(self) == *old(self) && final(arena)@ == old(arena)@,
    {
        if self.len == 0 || self.base == 0 || address == 0 {
            return ;
        }
        if address < self.base || address >= self.base + self.len as u64 {
            return ;
        }
        let offset: usize = (address - self.base) as usize;
        let _ = self.list.dealloc(arena, offset);
    }
}

/// An offset that is aligned stays so when a page-aligned address is added: every alignment a
/// request may ask for divides the page size.
proof fn lemma_alignment_carries(base: int, offset: int, align: int)
    requires
        base % MAX_ALIGN as int == 0,
        offset % align == 0,
        align >= 1,
        power_of_two(align as nat),
        align <= MAX_ALIGN,
    ensures
        (base + offset) % align == 0,
{
    reveal_with_fuel(power_of_two, 14);
    let per_page = lemma_powers_divide(align as nat, 4096);
    let pages = base / 4096;
    vstd::arithmetic::div_mod::lemma_fundamental_div_mod(offset, align);
    let parts = pages * per_page + offset / align;
    assert(base + offset == parts * align) by (nonlinear_arith)
        requires
            base == 4096 * pages,
            4096 == per_page * align,
            offset == align * (offset / align),
            parts == pages * per_page + offset / align,
    ;
    vstd::arithmetic::div_mod::lemma_mod_multiples_basic(parts, align);
}

} // verus!
