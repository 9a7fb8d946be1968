//! Buffers that are handed out in turn.

use vstd::prelude::*;
use crate::buf::PacketBuf;
#[allow(unused_imports)]
use crate::buf::PacketBufView;
use crate::card::types::Sge;
use crate::types::Key;

verus! {

/// A slot buffer allocated by `PacketBufAllocator`
#[derive(Debug, Clone, Copy)]
pub struct Slot<const SLOT_SIZE: usize> {
    /// Where the buffer starts
    pub addr: usize,
    /// The key of its memory
    pub key: Key,
}

impl<const SLOT_SIZE: usize> Slot<SLOT_SIZE> {
    /// Convert a slot into a sge so that it can be integrated into RDMA wqe
    pub fn into_sge(self, real_size: u32) -> (r: Sge)
        requires
            real_size <= SLOT_SIZE,
        ensures
            r == (Sge { phy_addr: self.addr as u64, len: real_size, key: self.key }),
    {
        Sge { phy_addr: self.addr as u64, len: real_size, key: self.key }
    }
}

/// A structure to hold the acknowledge and basic nic packet buffer
#[derive(Debug)]
pub struct PacketBufAllocator<const SLOT_SIZE: usize> {
    slots: PacketBuf<SLOT_SIZE>,
}

impl<const SLOT_SIZE: usize> View for PacketBufAllocator<SLOT_SIZE> {
    type V = PacketBufView;

    closed spec fn view(&self) -> PacketBufView {
        self.slots@
    }
}

impl<const SLOT_SIZE: usize> PacketBufAllocator<SLOT_SIZE> {
    /// There is a slot to hand out, and the slots lie inside the address space.
    pub open spec fn wf(&self) -> bool {
        &&& self@.next < self@.slots
        &&& self@.start + self@.slots * SLOT_SIZE <= usize::MAX
    }

    /// Create a new `PacketBufAllocator` on the `length` bytes from `start_va` on.
    /// The count of slots is kept in 16 bits.
    pub fn new(start_va: usize, length: usize, lkey: Key) -> (r: Self)
        requires
            SLOT_SIZE > 0,
            length % SLOT_SIZE == 0,
        ensures
            r@ == (PacketBufView {
                start: start_va,
                slots: ((length / SLOT_SIZE) % 0x1_0000) as u16,
                next: 0,
                lkey,
            }),
            0 < length / SLOT_SIZE < 0x1_0000 && start_va + length <= usize::MAX ==> r.wf(),
    {
        Self { slots: PacketBuf::new(start_va, length, lkey) }
    }

    /// Take a buffer from current ring allocator; after the last one the first
    /// one comes again.
    pub fn recycle_buf(&mut self) -> (r: Slot<SLOT_SIZE>)
        requires
            old(self).wf(),
        ensures
            final(self).wf(),
            r.addr == old(self)@.slot_addr(old(self)@.next as int, SLOT_SIZE as int),
            r.key == old(self)@.lkey,
            final(self)@ == old(self)@.advanced(),
    {
        let slot = self.slots.recycle_buf();
        Slot { addr: slot.addr, key: slot.key }
    }

    /// Start address
    pub fn start_va(&self) -> (r: usize)
        ensures
            r == self@.start,
    {
        self.slots.get_register_params().0
    }

    /// The lkey of current buffer
    pub fn lkey(&self) -> (r: Key)
        ensures
            r == self@.lkey,
    {
        self.slots.get_register_params().1
    }
}

} // verus!
