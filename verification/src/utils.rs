//! Packet arithmetic and memory areas.

use vstd::prelude::*;
use vstd::arithmetic::div_mod::{lemma_fundamental_div_mod, lemma_fundamental_div_mod_converse};
use crate::types::{Error, Pmtu, Resource, PAGE_SIZE};

verus! {

/// The largest length of the first packet of a transfer to `va`.
pub open spec fn first_packet_max_length(va: int, pmtu: int) -> int {
    pmtu - va % pmtu
}

/// `a / b`, rounded up.
pub open spec fn ceil_div(a: int, b: int) -> int {
    (a + b - 1) / b
}

/// The packets that a transfer of `len` bytes to `addr` takes: the first one up
/// to the next multiple of `pmtu`, and one for each `pmtu` bytes, or part of
/// them, that are left.
pub open spec fn packet_cnt(pmtu: int, addr: int, len: int) -> int {
    let first = first_packet_max_length(addr, pmtu);
    if len <= first {
        1
    } else {
        1 + ceil_div(len - first, pmtu)
    }
}

/// Get the length of the first packet.
///
/// A buffer will be divided into multiple packets if any slice is crossed the boundary of pmtu
/// For example, if pmtu = 256 and va = 254, then the first packet can be at most 2 bytes.
/// If pmtu = 256 and va = 256, then the first packet can be at most 256 bytes.
pub fn get_first_packet_max_length(va: u64, pmtu: u32) -> (r: u32)
    requires
        pmtu > 0,
    ensures
        r == first_packet_max_length(va as int, pmtu as int),
        0 < r <= pmtu,
{
    let offset: u32 = (va % pmtu as u64) as u32;
    pmtu - offset
}

/// The quotient of two numbers, rounded up.
pub fn div_ceil(a: u32, b: u32) -> (r: u32)
    requires
        b > 0,
    ensures
        r == ceil_div(a as int, b as int),
        r <= a,
{
    let q: u32 = a / b;
    proof {
        lemma_fundamental_div_mod(a as int, b as int);
        let m = a as int % b as int;
        assert(q * b == b * q) by (nonlinear_arith);
        if m == 0 {
            lemma_fundamental_div_mod_converse(a + b - 1, b as int, q as int, b - 1);
        } else {
            assert((q + 1) * b == q * b + b) by (nonlinear_arith);
            lemma_fundamental_div_mod_converse(a + b - 1, b as int, q + 1, m - 1);
        }
        assert(q <= b * q) by (nonlinear_arith)
            requires
                b > 0,
                q >= 0,
        ;
    }
    if a % b == 0 {
        q
    } else {
        q + 1
    }
}

/// How many packets a transfer takes
pub fn calculate_packet_cnt(pmtu: Pmtu, raddr: u64, total_len: u32) -> (r: u32)
    ensures
        r == packet_cnt(pmtu.size_spec() as int, raddr as int, total_len as int),
        1 <= r <= 0x100_0001,
{
    let size: u32 = u32::from(&pmtu);
    let first_pkt_max_len: u32 = get_first_packet_max_length(raddr, size);
    let first_pkt_len: u32 = if total_len < first_pkt_max_len { total_len } else { first_pkt_max_len };
    let rest: u32 = total_len - first_pkt_len;
    let more: u32 = div_ceil(rest, size);
    proof {
        match pmtu {
            Pmtu::Mtu256 => assert(more == (rest + 255) / 256),
            Pmtu::Mtu512 => assert(more == (rest + 511) / 512),
            Pmtu::Mtu1024 => assert(more == (rest + 1023) / 1024),
            Pmtu::Mtu2048 => assert(more == (rest + 2047) / 2048),
            Pmtu::Mtu4096 => assert(more == (rest + 4095) / 4096),
        }
    }
    1 + more
}

/// A transfer takes as many packets as there are `pmtu` sized blocks that it
/// touches.
pub proof fn law_packets_are_blocks_touched(pmtu: Pmtu, addr: u64, len: u32)
    requires
        len > 0,
    ensures
        ({
            let p = pmtu.size_spec() as int;
            packet_cnt(p, addr as int, len as int) == (addr + len - 1) / p - addr as int / p + 1
        }),
{
    let p = pmtu.size_spec() as int;
    let a = addr as int % p;
    let x = a + len - 1;
    lemma_fundamental_div_mod(addr as int, p);
    lemma_fundamental_div_mod(x, p);
    let blocks = addr as int / p + x / p;
    assert(blocks * p == p * (addr as int / p) + p * (x / p)) by (nonlinear_arith)
        requires
            blocks == addr as int / p + x / p,
    ;
    lemma_fundamental_div_mod_converse(addr + len - 1, p, blocks, x % p);
    if x < p {
        vstd::arithmetic::div_mod::lemma_basic_div(x, p);
    }
}

/// The number that the bytes `s` make, the first one highest.
pub open spec fn be_value(s: Seq<u8>) -> nat
    decreases s.len(),
{
    if s.len() == 0 {
        0
    } else {
        be_value(s.drop_last()) * 256 + s.last() as nat
    }
}

/// Shifting a byte into the last eight bytes of a number.
proof fn lemma_shift_in(v: int, acc: u64, b: u8)
    requires
        acc == v % 0x1_0000_0000_0000_0000,
    ensures
        (v * 256 + b) % 0x1_0000_0000_0000_0000 == (acc as int % 0x100_0000_0000_0000) * 256 + b,
        (acc as int % 0x100_0000_0000_0000) * 256 + b <= u64::MAX,
{
    let q = v / 0x1_0000_0000_0000_0000;
    let h = acc as int / 0x100_0000_0000_0000;
    let low = acc as int % 0x100_0000_0000_0000;
    assert(v * 256 + b == (q * 256 + h) * 0x1_0000_0000_0000_0000 + (low * 256 + b));
    lemma_fundamental_div_mod_converse(v * 256 + b, 0x1_0000_0000_0000_0000, q * 256 + h, low * 256 + b);
}

/// The number that the bytes of `slice` make, the first one highest. Of more
/// than eight bytes only the last eight count.
pub fn u8_slice_to_u64(slice: &[u8]) -> (r: u64)
    ensures
        r == be_value(slice@) % 0x1_0000_0000_0000_0000,
{
    let mut acc: u64 = 0;
    let mut i: usize = 0;
    while i < slice.len()
        invariant
            i <= slice@.len(),
            acc == be_value(slice@.take(i as int)) % 0x1_0000_0000_0000_0000,
        decreases slice@.len() - i,
    {
        proof {
            let t = slice@.take(i as int + 1);
            assert(t.drop_last() =~= slice@.take(i as int));
            assert(t.last() == slice@[i as int]);
            lemma_shift_in(be_value(slice@.take(i as int)) as int, acc, slice@[i as int]);
        }
        acc = (acc % 0x100_0000_0000_0000) * 256 + slice[i] as u64;
        i = i + 1;
    }
    assert(slice@.take(i as int) =~= slice@);
    acc
}

/// `addr`, rounded up to a multiple of `page`.
pub open spec fn align_up_spec(addr: int, page: int) -> int {
    ceil_div(addr, page) * page
}

/// Rounds an address up to the next multiple of the page size.
pub fn align_up<const PAGE: usize>(addr: usize) -> (r: usize)
    requires
        PAGE > 0,
        addr + PAGE - 1 <= usize::MAX,
    ensures
        r == align_up_spec(addr as int, PAGE as int),
        addr <= r < addr + PAGE,
        r % PAGE == 0,
{
    let top: usize = addr + (PAGE - 1);
    let q: usize = top / PAGE;
    proof {
        lemma_fundamental_div_mod(top as int, PAGE as int);
        assert(q * PAGE == PAGE * q) by (nonlinear_arith);
        vstd::arithmetic::div_mod::lemma_mod_multiples_basic(q as int, PAGE as int);
    }
    q * PAGE
}

/// A struct to manage hugepage memory
#[derive(Debug)]
pub struct MmapMemory {
    size: usize,
    addr: usize,
}

impl MmapMemory {
    /// size of the huge page
    pub const HUGE_PAGE_SIZE: usize = 0x20_0000;

    /// Where the memory starts
    pub closed spec fn start(&self) -> usize {
        self.addr
    }

    /// How many bytes it holds
    pub closed spec fn bytes(&self) -> usize {
        self.size
    }

    /// The size of the mapping that holds `size` bytes: whole huge pages
    pub fn mapping_size(size: usize) -> (r: usize)
        requires
            size + 0x1f_ffff <= usize::MAX,
        ensures
            r == align_up_spec(size as int, 0x20_0000),
            size <= r,
    {
        align_up::<0x20_0000>(size)
    }

    /// The memory that was mapped at `addr`
    pub fn new(addr: usize, size: usize) -> (r: Self)
        ensures
            r.start() == addr,
            r.bytes() == size,
    {
        Self { size, addr }
    }

    /// get the address of huge page buffer
    #[must_use]
    pub fn as_ptr(&self) -> (r: usize)
        ensures
            r == self.start(),
    {
        self.addr
    }

    /// get size of the huge page buffer
    #[must_use]
    pub fn size(&self) -> (r: usize)
        ensures
            r == self.bytes(),
    {
        self.size
    }
}

/// An aligned memory buffer.
#[derive(Debug)]
pub struct AlignedMemory {
    size: usize,
    addr: usize,
}

/// Whether memory of `size` bytes can be asked for at page alignment: rounded
/// up to whole pages it must not exceed what a signed number of the machine's
/// width holds.
pub open spec fn aligned_size_ok(size: usize) -> bool {
    size <= isize::MAX - (PAGE_SIZE - 1)
}

impl AlignedMemory {
    /// Where the memory starts
    pub closed spec fn start(&self) -> usize {
        self.addr
    }

    /// How many bytes it holds
    pub closed spec fn bytes(&self) -> usize {
        self.size
    }

    /// The memory of `size` bytes that was allocated at `addr`
    ///
    /// # Errors
    /// Return an error if the size is too large.
    pub fn new(addr: usize, size: usize) -> (r: Result<Self, Error>)
        ensures
            aligned_size_ok(size) ==> r is Ok && r->Ok_0.start() == addr && r->Ok_0.bytes() == size,
            !aligned_size_ok(size) ==> r == Err::<AlignedMemory, Error>(Error::ResourceNoAvailable(Resource::Memory)),
    {
        if size > isize::MAX as usize - (PAGE_SIZE - 1) {
            return Err(Error::ResourceNoAvailable(Resource::Memory));
        }
        Ok(AlignedMemory { size, addr })
    }

    /// Length of the buffer
    pub fn len(&self) -> (r: usize)
        ensures
            r == self.bytes(),
    {
        self.size
    }

    /// get the address of the buffer
    pub fn as_ptr(&self) -> (r: usize)
        ensures
            r == self.start(),
    {
        self.addr
    }
}

/// Memory that a ring buffer lives in
#[derive(Debug)]
pub enum Buffer {
    DmaBuffer(MmapMemory),
    AlignedMemory(AlignedMemory),
}

impl Buffer {
    /// Where the memory starts
    pub open spec fn start(&self) -> usize {
        match self {
            Buffer::DmaBuffer(m) => m.start(),
            Buffer::AlignedMemory(m) => m.start(),
        }
    }

    /// How many bytes it holds
    pub open spec fn bytes(&self) -> usize {
        match self {
            Buffer::DmaBuffer(m) => m.bytes(),
            Buffer::AlignedMemory(m) => m.bytes(),
        }
    }

    /// How many bytes it holds
    pub fn size(&self) -> (r: usize)
        ensures
            r == self.bytes(),
    {
        match self {
            Buffer::DmaBuffer(huge_page) => huge_page.size(),
            Buffer::AlignedMemory(aligned_memory) => aligned_memory.len(),
        }
    }

    /// The address of the 64 bit word with the given index
    pub fn index(&self, index: usize) -> (r: usize)
        requires
            self.start() + index * 8 <= usize::MAX,
        ensures
            r == self.start() + index * 8,
    {
        match self {
            Buffer::DmaBuffer(buffer) => buffer.as_ptr() + index * 8,
            Buffer::AlignedMemory(aligned_memory) => aligned_memory.as_ptr() + index * 8,
        }
    }
}

} // verus!
