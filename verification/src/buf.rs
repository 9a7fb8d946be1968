//! Buffers for acknowledgements and plain packets, handed out in turn.

use vstd::prelude::*;
use crate::types::{Key, Sge};

verus! {

/// The size of a buffer for an acknowledgement.
pub const RDMA_ACK_BUFFER_SLOT_SIZE: usize = 64;

/// The size of a buffer for a plain packet.
pub const NIC_PACKET_BUFFER_SLOT_SIZE: usize = 4096;

/// A buffer of `SLOT_SIZE` bytes, by its address and the key of its memory
#[derive(Debug)]
pub struct Slot<const SLOT_SIZE: usize> {
    pub addr: usize,
    pub key: Key,
}

impl<const SLOT_SIZE: usize> Slot<SLOT_SIZE> {
    /// The first `real_size` bytes of the buffer, as an element of a descriptor
    pub fn into_sge(self, real_size: u32) -> (r: Sge)
        requires
            real_size <= SLOT_SIZE,
        ensures
            r == (Sge { addr: self.addr as u64, len: real_size, key: self.key }),
    {
        Sge { addr: self.addr as u64, len: real_size, key: self.key }
    }

    /// The buffer at the given address
    pub fn from_raw_parts_mut(addr: usize, key: Key) -> (r: Self)
        ensures
            r.addr == addr,
            r.key == key,
    {
        Self { addr, key }
    }
}

/// Memory that is divided into slots of `SLOT_SIZE` bytes
#[derive(Debug)]
pub struct PacketBuf<const SLOT_SIZE: usize> {
    head: u16,
    start_va: usize,
    slot_length: u16,
    lkey: Key,
}

/// The slots of a `PacketBuf` and which of them comes next
pub struct PacketBufView {
    pub start: usize,
    pub slots: u16,
    pub next: u16,
    pub lkey: Key,
}

impl PacketBufView {
    /// The address of slot `i`, where each has `size` bytes
    pub open spec fn slot_addr(self, i: int, size: int) -> int {
        self.start + i * size
    }

    /// After one slot was handed out
    pub open spec fn advanced(self) -> PacketBufView {
        PacketBufView { next: ((self.next + 1) % self.slots as int) as u16, ..self }
    }
}

/// Slots that are handed out at different places in turn do not overlap.
pub proof fn law_slots_disjoint(b: PacketBufView, i: int, j: int, size: int)
    requires
        0 <= i < j < b.slots,
        size > 0,
    ensures
        b.slot_addr(i, size) + size <= b.slot_addr(j, size),
{
    assert(i * size + size <= j * size) by (nonlinear_arith)
        requires
            0 <= i < j,
            size > 0,
    ;
}

/// As many slots after one as there are slots, the same one comes again.
pub proof fn law_slots_recycle(b: PacketBufView, n: nat)
    requires
        b.slots > 0,
        b.next < b.slots,
    ensures
        advanced_by(b, n).next == (b.next + n) % b.slots as int,
        advanced_by(b, b.slots as nat).next == b.next,
    decreases n,
{
    lemma_advanced_by(b, n);
    lemma_advanced_by(b, b.slots as nat);
    vstd::arithmetic::div_mod::lemma_mod_add_multiples_vanish(b.next as int, b.slots as int);
    vstd::arithmetic::div_mod::lemma_small_mod(b.next as nat, b.slots as nat);
}

/// After `n` slots were handed out.
pub open spec fn advanced_by(b: PacketBufView, n: nat) -> PacketBufView
    decreases n,
{
    if n == 0 {
        b
    } else {
        advanced_by(b, (n - 1) as nat).advanced()
    }
}

proof fn lemma_advanced_by(b: PacketBufView, n: nat)
    requires
        b.slots > 0,
        b.next < b.slots,
    ensures
        advanced_by(b, n).next == (b.next + n) % b.slots as int,
        advanced_by(b, n).slots == b.slots,
    decreases n,
{
    if n == 0 {
        vstd::arithmetic::div_mod::lemma_small_mod(b.next as nat, b.slots as nat);
    } else {
        lemma_advanced_by(b, (n - 1) as nat);
        vstd::arithmetic::div_mod::lemma_add_mod_noop(b.next + n - 1, 1, b.slots as int);
        let m = b.slots as int;
        let x = (b.next + n - 1) % m;
        if m > 1 {
            vstd::arithmetic::div_mod::lemma_small_mod(1, m as nat);
        } else {
            assert((b.next + n) % 1 == 0);
            assert((x + 1) % 1 == 0);
        }
    }
}

impl<const SLOT_SIZE: usize> View for PacketBuf<SLOT_SIZE> {
    type V = PacketBufView;

    closed spec fn view(&self) -> PacketBufView {
        PacketBufView { start: self.start_va, slots: self.slot_length, next: self.head, lkey: self.lkey }
    }
}

impl<const SLOT_SIZE: usize> PacketBuf<SLOT_SIZE> {
    /// There is a slot to hand out, and the slots lie inside the address space.
    pub open spec fn wf(&self) -> bool {
        &&& self@.next < self@.slots
        &&& self@.start + self@.slots * SLOT_SIZE <= usize::MAX
    }

    /// The slots in the `length` bytes from `start_va` on. The count of slots is
    /// kept in 16 bits.
    pub fn new(start_va: usize, length: usize, lkey: Key) -> (r: Self)
        requires
            SLOT_SIZE > 0,
            length % SLOT_SIZE == 0,
        ensures
            r@ == (PacketBufView {
                start: start_va,
                slots: ((length / SLOT_SIZE) % 0x1_0000) as u16,
                next: 0,
                lkey,
            }),
            0 < length / SLOT_SIZE < 0x1_0000 && start_va + length <= usize::MAX ==> r.wf(),
    {
        let count: usize = length / SLOT_SIZE;
        proof {
            vstd::arithmetic::div_mod::lemma_fundamental_div_mod(length as int, SLOT_SIZE as int);
            assert(count * SLOT_SIZE == SLOT_SIZE * count) by (nonlinear_arith);
        }
        Self { head: 0, start_va, slot_length: (count % 0x1_0000) as u16, lkey }
    }

    /// Hands out the next slot; after the last one the first one comes again.
    pub fn recycle_buf(&mut self) -> (r: Slot<SLOT_SIZE>)
        requires
            old(self).wf(),
        ensures
            final(self).wf(),
            r.addr == old(self)@.slot_addr(old(self)@.next as int, SLOT_SIZE as int),
            r.key == old(self)@.lkey,
            final(self)@ == old(self)@.advanced(),
    {
        let prev: u16 = self.head;
        proof {
            assert(prev * SLOT_SIZE <= self.slot_length * SLOT_SIZE) by (nonlinear_arith)
                requires
                    prev < self.slot_length,
            ;
        }
        let next: u16 = (prev + 1) % self.slot_length;
        self.head = next;
        Slot { addr: self.start_va + prev as usize * SLOT_SIZE, key: self.lkey }
    }

    /// Where the slots start, and the key of their memory
    pub fn get_register_params(&self) -> (r: (usize, Key))
        ensures
            r == (self@.start, self@.lkey),
    {
        (self.start_va, self.lkey)
    }
}

} // verus!
