//! The rings through which host and card hand each other descriptors.
//!
//! A ring of `DEPTH` slots has two indices, each of which counts to twice the
//! depth before it starts again: `head`, where the next descriptor is written,
//! and `tail`, where the next one is read. The ring is empty when the two are
//! equal, and full when they are `DEPTH` apart. The owner of a ring caches the
//! indices here, and exchanges them with the card when it is asked to.

use vstd::prelude::*;
#[allow(unused_imports)]
use vstd::arithmetic::div_mod::{lemma_fundamental_div_mod_converse, lemma_mod_breakdown, lemma_mod_multiples_vanish};
#[allow(unused_imports)]
use vstd::arithmetic::power2::{lemma2_to64, lemma_pow2_adds, lemma_pow2_pos, lemma_pow2_strictly_increases, lemma_pow2_unfold, pow2};
#[allow(unused_imports)]
use vstd::bits::lemma_usize_low_bits_mask_is_mod;
use crate::device::error::DeviceError;

verus! {

/// A ring can have this many slots: a power of two, so that indices can be
/// masked.
pub open spec fn valid_depth(depth: usize) -> bool {
    exists|k: nat| k <= 30 && depth == #[trigger] pow2(k)
}

/// The index `cnt` places after `current`.
pub open spec fn index_after(depth: usize, current: usize, cnt: usize) -> usize {
    ((current + cnt) % (2 * depth)) as usize
}

/// Whether a ring with these indices is full: they name the same slot, but not
/// the same round.
pub open spec fn ring_full(depth: usize, head: usize, tail: usize) -> bool {
    &&& head % depth == tail % depth
    &&& head % ((2 * depth) as usize) != tail % ((2 * depth) as usize)
}

/// Where the slot of an index starts.
pub open spec fn slot_offset(depth: usize, elem_size: usize, idx: usize) -> int {
    (idx % depth) * elem_size
}

/// How many descriptors lie between two indices of a ring.
pub open spec fn ring_count(depth: usize, head: usize, tail: usize) -> int {
    (head - tail) % (2 * depth)
}

proof fn lemma_masks(depth: usize, x: usize)
    requires
        valid_depth(depth),
    ensures
        0 < depth <= 0x4000_0000,
        x & ((depth - 1) as usize) == x % depth,
        x & ((2 * depth - 1) as usize) == x % ((2 * depth) as usize),
        x & depth == x % ((2 * depth) as usize) - x % depth,
{
    let k = choose|k: nat| k <= 30 && depth == #[trigger] pow2(k);
    lemma2_to64();
    lemma_pow2_pos(k);
    if k < 30 {
        lemma_pow2_strictly_increases(k, 30);
    }
    lemma_pow2_unfold(k + 1);
    assert(usize::BITS >= 32);
    lemma_usize_low_bits_mask_is_mod(x, k);
    lemma_usize_low_bits_mask_is_mod(x, k + 1);
    lemma_usize_low_bits_mask_is_mod(depth, k);
    assert(depth % depth == 0);
    assert(x & ((2 * depth - 1) as usize) == (x & ((depth - 1) as usize)) + (x & depth)) by (bit_vector)
        requires
            0 < depth <= 0x4000_0000,
            depth & ((depth - 1) as usize) == 0,
    ;
}

proof fn lemma_wrapping_index(depth: usize, a: usize, b: usize, sum: usize)
    requires
        valid_depth(depth),
        sum == (a + b) % (usize::MAX + 1),
    ensures
        sum % ((2 * depth) as usize) == (a + b) % (2 * depth),
{
    let k = choose|k: nat| k <= 30 && depth == #[trigger] pow2(k);
    lemma2_to64();
    lemma_pow2_pos(k);
    if k < 30 {
        lemma_pow2_strictly_increases(k, 30);
    }
    lemma_pow2_unfold(k + 1);
    let w: nat = usize::BITS as nat;
    assert(pow2(w) == usize::MAX + 1) by {
        assert(w == 32 || w == 64);
    }
    let m = pow2(k + 1) as int;
    let z = pow2((w - k - 1) as nat) as int;
    lemma_pow2_adds(k + 1, (w - k - 1) as nat);
    lemma_pow2_pos((w - k - 1) as nat);
    lemma_mod_breakdown(a + b, m, z);
    lemma_mod_multiples_vanish(((a + b) / m) % z, (a + b) % m, m);
    vstd::arithmetic::div_mod::lemma_mod_twice(a + b, m);
}

/// A ring is full when its indices are `DEPTH` apart, empty when they are
/// equal, and otherwise holds as many descriptors as they are apart.
pub proof fn law_ring_full(depth: usize, head: usize, tail: usize)
    requires
        valid_depth(depth),
        head < 2 * depth,
        tail < 2 * depth,
    ensures
        ring_full(depth, head, tail) <==> ring_count(depth, head, tail) == depth,
        head == tail <==> ring_count(depth, head, tail) == 0,
{
    lemma_masks(depth, head);
    let d = depth as int;
    if head >= tail {
        lemma_fundamental_div_mod_converse(head - tail, 2 * d, 0, head - tail);
    } else {
        lemma_fundamental_div_mod_converse(head - tail, 2 * d, -1, head - tail + 2 * d);
    }
    lemma_round(d, head as int);
    lemma_round(d, tail as int);
}

proof fn lemma_round(d: int, x: int)
    requires
        0 <= x < 2 * d,
    ensures
        x % d == (if x < d {
            x
        } else {
            x - d
        }),
        x % (2 * d) == x,
{
    if x < d {
        lemma_fundamental_div_mod_converse(x, d, 0, x);
    } else {
        lemma_fundamental_div_mod_converse(x, d, 1, x - d);
    }
    lemma_fundamental_div_mod_converse(x, 2 * d, 0, x);
}

/// A writer never gets a slot that holds a descriptor that has not been read:
/// where the ring is not full, the slot at `head` is another one than those at
/// the `n`th place after `tail`, for every `n` up to where the writer is; and
/// all slots lie inside the ring's memory.
pub proof fn law_slot_is_free(depth: usize, elem_size: usize, head: usize, tail: usize, n: usize)
    requires
        valid_depth(depth),
        head < 2 * depth,
        tail < 2 * depth,
        ring_count(depth, head, tail) < depth,
        n < ring_count(depth, head, tail),
    ensures
        ({
            let free = slot_offset(depth, elem_size, head);
            let used = slot_offset(depth, elem_size, index_after(depth, tail, n));
            &&& 0 <= free <= (depth - 1) * elem_size
            &&& 0 <= used <= (depth - 1) * elem_size
            &&& free + elem_size <= used || used + elem_size <= free
        }),
{
    lemma_masks(depth, head);
    let d = depth as int;
    if head >= tail {
        lemma_fundamental_div_mod_converse(head - tail, 2 * d, 0, head - tail);
    } else {
        lemma_fundamental_div_mod_converse(head - tail, 2 * d, -1, head - tail + 2 * d);
    }
    if tail + n < 2 * d {
        lemma_fundamental_div_mod_converse(tail + n, 2 * d, 0, tail + n);
    } else {
        lemma_fundamental_div_mod_converse(tail + n, 2 * d, 1, tail + n - 2 * d);
    }
    let idx = index_after(depth, tail, n);
    lemma_round(d, head as int);
    lemma_round(d, idx as int);
    let i = (head % depth) as int;
    let j = (idx % depth) as int;
    let e = elem_size as int;
    assert(0 <= i * e <= (d - 1) * e && 0 <= j * e <= (d - 1) * e) by (nonlinear_arith)
        requires
            0 <= i < d,
            0 <= j < d,
            0 <= e,
    ;
    assert(i * e + e <= j * e || j * e + e <= i * e) by (nonlinear_arith)
        requires
            i != j,
            0 <= e,
    ;
}

/// Whether a ring with these indices is full
fn is_full_helper(head: usize, tail: usize, memory_idx_mask: usize, hardware_idx_guard_mask: usize) -> (r: bool)
    requires
        valid_depth(hardware_idx_guard_mask),
        memory_idx_mask == hardware_idx_guard_mask - 1,
    ensures
        r == ring_full(hardware_idx_guard_mask, head, tail),
{
    proof {
        lemma_masks(hardware_idx_guard_mask, head);
        lemma_masks(hardware_idx_guard_mask, tail);
    }
    // Since the highest bit stands for two times of the DEPTH in bineary, if the head and tail have different highest bit and the rest bits are the same,
    // it means the ringbuf is full.
    // In hardware we use like `(head.idx == tail.idx) && (head.guard != tail.guard)`
    let head_guard: usize = head & hardware_idx_guard_mask;
    let tail_guard: usize = tail & hardware_idx_guard_mask;
    let head_low: usize = head & memory_idx_mask;
    let tail_low: usize = tail & memory_idx_mask;
    (head_guard != tail_guard) && (head_low == tail_low)
}

/// The index `cnt` places after `current`
fn wrapping_add_helper<const DEPTH: usize>(current: usize, cnt: usize) -> (r: usize)
    requires
        valid_depth(DEPTH),
    ensures
        r == index_after(DEPTH, current, cnt),
        r < 2 * DEPTH,
{
    let sum: usize = current.wrapping_add(cnt);
    proof {
        lemma_masks(DEPTH, sum);
        lemma_wrapping_index(DEPTH, current, cnt, sum);
    }
    sum & (DEPTH * 2 - 1)
}

/// Where the slot of an index starts
fn descriptor_offset<const DEPTH: usize, const ELEM_SIZE: usize>(idx: usize) -> (r: usize)
    requires
        valid_depth(DEPTH),
        DEPTH * ELEM_SIZE <= usize::MAX,
    ensures
        r == slot_offset(DEPTH, ELEM_SIZE, idx),
        r + ELEM_SIZE <= DEPTH * ELEM_SIZE,
{
    proof {
        lemma_masks(DEPTH, idx);
        let i = (idx % DEPTH) as int;
        assert(i * ELEM_SIZE + ELEM_SIZE <= DEPTH * ELEM_SIZE && 0 <= i * ELEM_SIZE) by (nonlinear_arith)
            requires
                0 <= i < DEPTH,
        ;
    }
    (idx & (DEPTH - 1)) * ELEM_SIZE
}

/// The number `cnt + 1`, where counting starts again at zero.
pub open spec fn counted(cnt: usize) -> usize {
    if cnt == usize::MAX {
        0
    } else {
        (cnt + 1) as usize
    }
}

/// The Ringbuf is a circular buffer used comunicate between the host and the card.
///
/// `DEPTH` is the max capacity of the ringbuf.
/// `ELEM_SIZE` is the size of each descriptor.
/// `PAGE_SIZE` is the size of the page. In real hardware, the buffer should be aligned to `PAGE_SIZE`.
#[derive(Debug, Clone, Copy)]
pub struct Ringbuf<const DEPTH: usize, const ELEM_SIZE: usize, const PAGE_SIZE: usize> {
    /// Where the next descriptor is written
    pub head: usize,
    /// Where the next descriptor is read
    pub tail: usize,
}

impl<const DEPTH: usize, const ELEM_SIZE: usize, const PAGE_SIZE: usize> Ringbuf<DEPTH, ELEM_SIZE, PAGE_SIZE> {
    /// An empty ring in the `size` bytes of memory at `addr`, which have to be
    /// whole pages and enough
    pub fn new(addr: usize, size: usize) -> (r: Self)
        requires
            PAGE_SIZE > 0,
            addr % PAGE_SIZE == 0,
            size % PAGE_SIZE == 0,
            size >= DEPTH * ELEM_SIZE,
        ensures
            r.head == 0,
            r.tail == 0,
    {
        Self { head: 0, tail: 0 }
    }

    /// Return a writer to write descriptors to the ring buffer.
    pub fn write(&self) -> (r: RingbufWriter<DEPTH, ELEM_SIZE>)
        ensures
            r.head == self.head,
            r.tail == self.tail,
            r.written_cnt == 0,
    {
        RingbufWriter { head: self.head, tail: self.tail, written_cnt: 0 }
    }

    /// Takes the indices back from a writer
    pub fn end_write(&mut self, writer: RingbufWriter<DEPTH, ELEM_SIZE>)
        ensures
            final(self).head == writer.head,
            final(self).tail == writer.tail,
    {
        self.head = writer.head;
        self.tail = writer.tail;
    }

    /// Get a reader to read descriptors from the ring buffer.
    pub fn read(&self) -> (r: RingbufReader<DEPTH, ELEM_SIZE>)
        ensures
            r.head == self.head,
            r.tail == self.tail,
            r.read_cnt == 0,
    {
        RingbufReader { head: self.head, tail: self.tail, read_cnt: 0 }
    }

    /// Takes the indices back from a reader
    pub fn end_read(&mut self, reader: RingbufReader<DEPTH, ELEM_SIZE>)
        ensures
            final(self).head == reader.head,
            final(self).tail == reader.tail,
    {
        self.head = reader.head;
        self.tail = reader.tail;
    }

    /// Get a reader that looks at the descriptors themselves to see whether they
    /// are ready.
    pub fn read_via_poll_descriptor(&self) -> (r: RingbufPollDescriptorReader<DEPTH, ELEM_SIZE>)
        ensures
            r.head == self.head,
            r.tail == self.tail,
    {
        RingbufPollDescriptorReader { head: self.head, tail: self.tail }
    }

    /// Takes the indices back from a polling reader
    pub fn end_poll(&mut self, reader: RingbufPollDescriptorReader<DEPTH, ELEM_SIZE>)
        ensures
            final(self).head == reader.head,
            final(self).tail == reader.tail,
    {
        self.head = reader.head;
        self.tail = reader.tail;
    }
}

/// Whether to go on waiting for the card after `elapsed` nanoseconds, of which
/// the timeout allows a number. Only without a timeout there is no end to it.
///
/// # Errors
/// More time has passed than the timeout says.
pub fn keep_waiting(timeout: Option<u128>, elapsed: u128) -> (r: Result<(), DeviceError>)
    ensures
        r == (if timeout is Some && timeout->0 < elapsed {
            Err::<(), DeviceError>(DeviceError::Timeout)
        } else {
            Ok(())
        }),
{
    if let Some(allowed) = timeout {
        if allowed < elapsed {
            return Err(DeviceError::Timeout);
        }
    }
    Ok(())
}

/// What a writer can do next
#[derive(Debug, Clone, Copy, PartialEq, Eq, Structural)]
pub enum WriterStep {
    /// Write a descriptor to the slot at this offset
    Slot(usize),
    /// Tell the card this head, and then ask it for its tail
    Full(u32),
}

/// A writer for host to write descriptors to the ring buffer.
#[derive(Debug, Clone, Copy)]
pub struct RingbufWriter<const DEPTH: usize, const ELEM_SIZE: usize> {
    /// The head that the card was told
    pub head: usize,
    /// The tail that the card told last
    pub tail: usize,
    /// How many descriptors were written since
    pub written_cnt: usize,
}

impl<const DEPTH: usize, const ELEM_SIZE: usize> RingbufWriter<DEPTH, ELEM_SIZE> {
    /// The index of the next descriptor.
    pub open spec fn next_idx(&self) -> usize {
        index_after(DEPTH, self.head, self.written_cnt)
    }

    /// Whether there is no room as long as the card's tail is the given one.
    fn would_it_full(&self, new_head: usize, new_tail: usize) -> (r: bool)
        requires
            valid_depth(DEPTH),
        ensures
            r == ring_full(DEPTH, new_head, new_tail),
    {
        proof {
            lemma_masks(DEPTH, new_head);
        }
        is_full_helper(new_head, new_tail, DEPTH - 1, DEPTH)
    }

    fn next_head_idx(&self) -> (r: usize)
        requires
            valid_depth(DEPTH),
        ensures
            r == self.next_idx(),
            r < 2 * DEPTH <= 0x8000_0000,
    {
        proof {
            lemma_masks(DEPTH, 0);
        }
        wrapping_add_helper::<DEPTH>(self.head, self.written_cnt)
    }

    /// get a buffer to write a descriptor to the ring buffer
    ///
    /// Where there is none, the card is to be told the head, by which
    /// `head_written` is then called, and asked for its tail.
    pub fn next(&mut self) -> (r: WriterStep)
        requires
            valid_depth(DEPTH),
            DEPTH * ELEM_SIZE <= usize::MAX,
        ensures
            ({
                let idx = old(self).next_idx();
                if ring_full(DEPTH, idx, old(self).tail) {
                    &&& r == WriterStep::Full(idx as u32)
                    &&& *final(self) == (RingbufWriter { head: idx, ..*old(self) })
                } else {
                    &&& r == WriterStep::Slot(slot_offset(DEPTH, ELEM_SIZE, idx) as usize)
                    &&& *final(self) == (RingbufWriter { written_cnt: counted(old(self).written_cnt), ..*old(self) })
                }
            }),
    {
        let idx: usize = self.next_head_idx();
        if self.would_it_full(idx, self.tail) {
            // write back first
            WriterStep::Full(self.flush())
        } else {
            let offset: usize = descriptor_offset::<DEPTH, ELEM_SIZE>(idx);
            self.written_cnt = self.written_cnt.wrapping_add(1);
            WriterStep::Slot(offset)
        }
    }

    /// Takes the tail that the card has told. The next slot is free unless that
    /// tail says that the ring is still full.
    pub fn tail_read(&mut self, new_tail: u32) -> (r: Option<usize>)
        requires
            valid_depth(DEPTH),
            DEPTH * ELEM_SIZE <= usize::MAX,
        ensures
            ({
                let idx = old(self).next_idx();
                if ring_full(DEPTH, idx, new_tail as usize) {
                    &&& r is None
                    &&& *final(self) == *old(self)
                } else {
                    &&& r == Some(slot_offset(DEPTH, ELEM_SIZE, idx) as usize)
                    &&& *final(self) == (RingbufWriter {
                        tail: new_tail as usize,
                        written_cnt: counted(old(self).written_cnt),
                        ..*old(self)
                    })
                }
            }),
    {
        let idx: usize = self.next_head_idx();
        if self.would_it_full(idx, new_tail as usize) {
            None
        } else {
            let offset: usize = descriptor_offset::<DEPTH, ELEM_SIZE>(idx);
            self.tail = new_tail as usize;
            self.written_cnt = self.written_cnt.wrapping_add(1);
            Some(offset)
        }
    }

    /// Write back the head pointer to the hardware: gives the head that the card
    /// is to be told.
    pub fn flush(&mut self) -> (r: u32)
        requires
            valid_depth(DEPTH),
        ensures
            r == old(self).next_idx(),
            *final(self) == (RingbufWriter { head: old(self).next_idx(), ..*old(self) }),
    {
        let new_head: usize = self.next_head_idx();
        self.head = new_head;
        new_head as u32
    }

    /// The card was told the head
    pub fn head_written(&mut self)
        ensures
            *final(self) == (RingbufWriter { written_cnt: 0, ..*old(self) }),
    {
        self.written_cnt = 0;
    }
}

/// Telling the card the head does not move the place of the next descriptor.
pub proof fn law_flush_keeps_place<const DEPTH: usize, const ELEM_SIZE: usize>(
    writer: RingbufWriter<DEPTH, ELEM_SIZE>,
)
    requires
        valid_depth(DEPTH),
    ensures
        ({
            let flushed = RingbufWriter::<DEPTH, ELEM_SIZE> { head: writer.next_idx(), written_cnt: 0, ..writer };
            flushed.next_idx() == writer.next_idx()
        }),
{
    lemma_masks(DEPTH, 0);
    lemma_round(DEPTH as int, writer.next_idx() as int);
}

/// A reader follows a writer: one that has read as many descriptors as were
/// written since both were at `start` looks at the slot that is written next,
/// however many of them were made known to the other side since.
pub proof fn law_reader_follows_writer<const DEPTH: usize, const ELEM_SIZE: usize>(
    writer: RingbufWriter<DEPTH, ELEM_SIZE>,
    reader: RingbufReader<DEPTH, ELEM_SIZE>,
    start: usize,
    flushed: usize,
    released: usize,
)
    requires
        valid_depth(DEPTH),
        writer.head == index_after(DEPTH, start, flushed),
        reader.tail == index_after(DEPTH, start, released),
        flushed + writer.written_cnt == released + reader.read_cnt,
    ensures
        writer.next_idx() == reader.next_idx(),
        slot_offset(DEPTH, ELEM_SIZE, writer.next_idx()) == slot_offset(DEPTH, ELEM_SIZE, reader.next_idx()),
{
    lemma_masks(DEPTH, 0);
    let d = 2 * DEPTH as int;
    let w = writer.written_cnt as int;
    let r = reader.read_cnt as int;
    lemma_round(DEPTH as int, writer.head as int);
    vstd::arithmetic::div_mod::lemma_mod_bound(start + flushed, d);
    vstd::arithmetic::div_mod::lemma_mod_bound(start + released, d);
    vstd::arithmetic::div_mod::lemma_add_mod_noop(start + flushed, w, d);
    vstd::arithmetic::div_mod::lemma_add_mod_noop((start + flushed) % d, w, d);
    vstd::arithmetic::div_mod::lemma_mod_twice(start + flushed, d);
    vstd::arithmetic::div_mod::lemma_add_mod_noop(start + released, r, d);
    vstd::arithmetic::div_mod::lemma_add_mod_noop((start + released) % d, r, d);
    vstd::arithmetic::div_mod::lemma_mod_twice(start + released, d);
}

/// A reader for host to read descriptors from the ring buffer.
#[derive(Debug, Clone, Copy)]
pub struct RingbufReader<const DEPTH: usize, const ELEM_SIZE: usize> {
    /// The head that the card told last
    pub head: usize,
    /// The tail that the card was told
    pub tail: usize,
    /// How many descriptors were read since
    pub read_cnt: usize,
}

impl<const DEPTH: usize, const ELEM_SIZE: usize> RingbufReader<DEPTH, ELEM_SIZE> {
    /// The index of the next descriptor.
    pub open spec fn next_idx(&self) -> usize {
        index_after(DEPTH, self.tail, self.read_cnt)
    }

    fn next_tail_idx(&self) -> (r: usize)
        requires
            valid_depth(DEPTH),
        ensures
            r == self.next_idx(),
            r < 2 * DEPTH <= 0x8000_0000,
    {
        proof {
            lemma_masks(DEPTH, 0);
        }
        wrapping_add_helper::<DEPTH>(self.tail, self.read_cnt)
    }

    /// Whether the card has to be told a tail before the next descriptor is
    /// read, because it takes the ring for full
    pub fn is_full(&self) -> (r: bool)
        requires
            valid_depth(DEPTH),
        ensures
            r == ring_full(DEPTH, self.head, self.tail),
    {
        proof {
            lemma_masks(DEPTH, self.head);
        }
        is_full_helper(self.head, self.tail, DEPTH - 1, DEPTH)
    }

    /// read a descriptor from the ring buffer: the offset of its slot, or
    /// nothing where the card has to be asked for its head
    pub fn next(&mut self) -> (r: Option<usize>)
        requires
            valid_depth(DEPTH),
            DEPTH * ELEM_SIZE <= usize::MAX,
        ensures
            ({
                let idx = old(self).next_idx();
                if old(self).head == idx {
                    &&& r is None
                    &&& *final(self) == *old(self)
                } else {
                    &&& r == Some(slot_offset(DEPTH, ELEM_SIZE, idx) as usize)
                    &&& *final(self) == (RingbufReader { read_cnt: counted(old(self).read_cnt), ..*old(self) })
                }
            }),
    {
        let next_tail_idx: usize = self.next_tail_idx();
        if self.head == next_tail_idx {
            None
        } else {
            self.read_cnt = self.read_cnt.wrapping_add(1);
            Some(descriptor_offset::<DEPTH, ELEM_SIZE>(next_tail_idx))
        }
    }

    /// Takes the head that the card has told. There is a descriptor unless that
    /// head says that the ring is still empty.
    pub fn head_read(&mut self, new_head: u32) -> (r: Option<usize>)
        requires
            valid_depth(DEPTH),
            DEPTH * ELEM_SIZE <= usize::MAX,
        ensures
            ({
                let idx = old(self).next_idx();
                if new_head == idx {
                    &&& r is None
                    &&& *final(self) == *old(self)
                } else {
                    &&& r == Some(slot_offset(DEPTH, ELEM_SIZE, idx) as usize)
                    &&& *final(self) == (RingbufReader {
                        head: new_head as usize,
                        read_cnt: counted(old(self).read_cnt),
                        ..*old(self)
                    })
                }
            }),
    {
        let next_tail_idx: usize = self.next_tail_idx();
        if new_head as usize == next_tail_idx {
            None
        } else {
            self.head = new_head as usize;
            self.read_cnt = self.read_cnt.wrapping_add(1);
            Some(descriptor_offset::<DEPTH, ELEM_SIZE>(next_tail_idx))
        }
    }

    /// Write back the tail pointer to the hardware: gives the tail that the card
    /// is to be told.
    pub fn flush(&self) -> (r: u32)
        requires
            valid_depth(DEPTH),
        ensures
            r == self.next_idx(),
    {
        self.next_tail_idx() as u32
    }

    /// The card was told the tail
    pub fn tail_written(&mut self)
        requires
            valid_depth(DEPTH),
        ensures
            *final(self) == (RingbufReader { tail: old(self).next_idx(), read_cnt: 0, ..*old(self) }),
    {
        self.tail = self.next_tail_idx();
        self.read_cnt = 0;
    }
}

/// A polling reader for host to read descriptors from the ring buffer.
#[derive(Debug, Clone, Copy)]
pub struct RingbufPollDescriptorReader<const DEPTH: usize, const ELEM_SIZE: usize> {
    /// Where the next descriptor is read
    pub head: usize,
    /// The same
    pub tail: usize,
}

impl<const DEPTH: usize, const ELEM_SIZE: usize> RingbufPollDescriptorReader<DEPTH, ELEM_SIZE> {
    /// The offset of the slot that is to be polled
    pub fn current(&self) -> (r: usize)
        requires
            valid_depth(DEPTH),
            DEPTH * ELEM_SIZE <= usize::MAX,
        ensures
            r == slot_offset(DEPTH, ELEM_SIZE, self.head),
            r + ELEM_SIZE <= DEPTH * ELEM_SIZE,
    {
        descriptor_offset::<DEPTH, ELEM_SIZE>(self.head)
    }

    /// Takes what polling the current slot has given: where its descriptor is
    /// ready, gives the slot and goes on to the next one.
    pub fn next(&mut self, ready: bool) -> (r: Option<usize>)
        requires
            valid_depth(DEPTH),
            DEPTH * ELEM_SIZE <= usize::MAX,
        ensures
            if ready {
                &&& r == Some(slot_offset(DEPTH, ELEM_SIZE, old(self).head) as usize)
                &&& final(self).head == index_after(DEPTH, old(self).head, 1)
                &&& final(self).tail == final(self).head
            } else {
                &&& r is None
                &&& *final(self) == *old(self)
            },
    {
        if ready {
            let offset: usize = self.current();
            let next_idx: usize = wrapping_add_helper::<DEPTH>(self.head, 1);
            self.head = next_idx;
            self.tail = next_idx;
            Some(offset)
        } else {
            None
        }
    }
}

/// The places of a ring follow each other: after an index comes the next one, in
/// the next slot, and after the last slot the first one; going on twice is going
/// on by both steps together.
pub proof fn law_places_follow(depth: usize, elem_size: usize, idx: usize, a: usize, b: usize)
    requires
        valid_depth(depth),
        idx < 2 * depth,
        a + b <= usize::MAX,
    ensures
        index_after(depth, idx, 0) == idx,
        index_after(depth, idx, 1) == (if idx + 1 == 2 * depth {
            0
        } else {
            idx + 1
        }),
        slot_offset(depth, elem_size, idx) == (if idx < depth {
            idx as int
        } else {
            idx - depth
        }) * elem_size,
        index_after(depth, index_after(depth, idx, a), b) == index_after(depth, idx, (a + b) as usize),
{
    lemma_masks(depth, idx);
    let d = 2 * depth as int;
    lemma_round(depth as int, idx as int);
    if idx + 1 < d {
        lemma_round(depth as int, idx + 1);
    } else {
        lemma_fundamental_div_mod_converse(idx + 1, d, 1, 0);
    }
    vstd::arithmetic::div_mod::lemma_mod_bound(idx + a, d);
    vstd::arithmetic::div_mod::lemma_add_mod_noop(idx + a, b as int, d);
    vstd::arithmetic::div_mod::lemma_add_mod_noop((idx + a) % d, b as int, d);
    vstd::arithmetic::div_mod::lemma_mod_twice(idx + a, d);
}

} // verus!
