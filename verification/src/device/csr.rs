//! The card's registers, and the addresses that are written to them.

use vstd::prelude::*;
use crate::device::error::DeviceError;

verus! {

/// The length of the card's register space
pub const CSR_LENGTH: usize = 0x10_0000;

/// Typical page size shift for 4KB pages
pub const PAGE_SHIFT: u64 = 12;

/// The registers that say where the rings are
#[derive(Debug, Clone, Copy, PartialEq, Eq, Structural)]
pub enum QueueRegister {
    CmdReqQueueAddrLow,
    CmdReqQueueAddrHigh,
    CmdRespQueueAddrLow,
    CmdRespQueueAddrHigh,
    SendQueueAddrLow,
    SendQueueAddrHigh,
    MetaReportQueueAddrLow,
    MetaReportQueueAddrHigh,
}

/// A write to one of the registers
#[derive(Debug, Clone, Copy, PartialEq, Eq, Structural)]
pub struct CsrWrite {
    pub register: QueueRegister,
    pub value: u32,
}

/// Where the rings are, as the card sees them
#[derive(Debug, Clone, Copy, PartialEq, Eq, Structural)]
pub struct RingAddrs {
    /// Commands to the card
    pub cmd_req: u64,
    /// Answers to commands
    pub cmd_resp: u64,
    /// Work for the card
    pub send: u64,
    /// Reports of the card
    pub meta_report: u64,
}

/// The lower half of an address.
pub open spec fn low_half(addr: u64) -> u32 {
    (addr % 0x1_0000_0000) as u32
}

/// The upper half of an address.
pub open spec fn high_half(addr: u64) -> u32 {
    (addr / 0x1_0000_0000) as u32
}

/// The two halves make the address.
pub proof fn law_halves_make_address(addr: u64)
    ensures
        high_half(addr) * 0x1_0000_0000 + low_half(addr) == addr,
{
}

/// The writes that tell the card where the ring of a queue is.
pub open spec fn queue_writes(low: QueueRegister, high: QueueRegister, addr: u64) -> Seq<CsrWrite> {
    seq![(CsrWrite { register: low, value: low_half(addr) }), (CsrWrite { register: high, value: high_half(addr) })]
}

/// The writes that tell the card where the first `n` of its rings are, in the
/// order in which it is told.
pub open spec fn setup_writes(addrs: RingAddrs, n: int) -> Seq<CsrWrite> {
    let none = Seq::<CsrWrite>::empty();
    let first = if n > 0 {
        none + queue_writes(QueueRegister::CmdReqQueueAddrLow, QueueRegister::CmdReqQueueAddrHigh, addrs.cmd_req)
    } else {
        none
    };
    let second = if n > 1 {
        first + queue_writes(QueueRegister::CmdRespQueueAddrLow, QueueRegister::CmdRespQueueAddrHigh, addrs.cmd_resp)
    } else {
        first
    };
    let third = if n > 2 {
        second + queue_writes(QueueRegister::SendQueueAddrLow, QueueRegister::SendQueueAddrHigh, addrs.send)
    } else {
        second
    };
    if n > 3 {
        third + queue_writes(
            QueueRegister::MetaReportQueueAddrLow,
            QueueRegister::MetaReportQueueAddrHigh,
            addrs.meta_report,
        )
    } else {
        third
    }
}

fn push_queue(out: &mut Vec<CsrWrite>, low: QueueRegister, high: QueueRegister, addr: u64)
    ensures
        final(out)@ == old(out)@ + queue_writes(low, high, addr),
{
    let ghost before = out@;
    out.push(CsrWrite { register: low, value: (addr % 0x1_0000_0000) as u32 });
    out.push(CsrWrite { register: high, value: (addr / 0x1_0000_0000) as u32 });
    assert(out@ =~= before + queue_writes(low, high, addr));
}

/// The writes that tell the card where its rings are
pub fn ring_setup(addrs: RingAddrs) -> (r: Vec<CsrWrite>)
    ensures
        r@ == setup_writes(addrs, 4),
{
    let mut out: Vec<CsrWrite> = Vec::new();
    push_queue(&mut out, QueueRegister::CmdReqQueueAddrLow, QueueRegister::CmdReqQueueAddrHigh, addrs.cmd_req);
    push_queue(&mut out, QueueRegister::CmdRespQueueAddrLow, QueueRegister::CmdRespQueueAddrHigh, addrs.cmd_resp);
    push_queue(&mut out, QueueRegister::SendQueueAddrLow, QueueRegister::SendQueueAddrHigh, addrs.send);
    push_queue(
        &mut out,
        QueueRegister::MetaReportQueueAddrLow,
        QueueRegister::MetaReportQueueAddrHigh,
        addrs.meta_report,
    );
    out
}

/// The address of memory of the shared heap as an emulated card sees it: none
/// before the heap's start.
pub open spec fn heap_addr(virt_addr: u64, heap_mem_start_addr: u64) -> Result<u64, DeviceError> {
    if virt_addr < heap_mem_start_addr {
        Err(DeviceError::Device)
    } else {
        Ok((virt_addr - heap_mem_start_addr) as u64)
    }
}

/// The address of memory of the shared heap as an emulated card sees it
pub fn get_phys_addr(virt_addr: u64, heap_mem_start_addr: u64) -> (r: Result<u64, DeviceError>)
    ensures
        r == heap_addr(virt_addr, heap_mem_start_addr),
{
    if virt_addr < heap_mem_start_addr {
        return Err(DeviceError::Device);
    }
    Ok(virt_addr - heap_mem_start_addr)
}

/// How many rings of an emulated card, from the first on, lie in the heap.
pub open spec fn rings_in_heap(virt: RingAddrs, heap_mem_start_addr: u64) -> int {
    if virt.cmd_req < heap_mem_start_addr {
        0
    } else if virt.cmd_resp < heap_mem_start_addr {
        1
    } else if virt.send < heap_mem_start_addr {
        2
    } else if virt.meta_report < heap_mem_start_addr {
        3
    } else {
        4
    }
}

/// The rings as an emulated card sees them.
pub open spec fn rings_from_heap(virt: RingAddrs, heap_mem_start_addr: u64) -> RingAddrs {
    RingAddrs {
        cmd_req: (virt.cmd_req - heap_mem_start_addr) as u64,
        cmd_resp: (virt.cmd_resp - heap_mem_start_addr) as u64,
        send: (virt.send - heap_mem_start_addr) as u64,
        meta_report: (virt.meta_report - heap_mem_start_addr) as u64,
    }
}

/// The writes that tell an emulated card where its rings are, given where the
/// driver sees them. They end before the first ring that does not lie in the
/// shared heap, and there is an error then.
pub fn emulated_ring_setup(virt: RingAddrs, heap_mem_start_addr: u64) -> (r: (Vec<CsrWrite>, Result<(), DeviceError>))
    ensures
        r.0@ == setup_writes(rings_from_heap(virt, heap_mem_start_addr), rings_in_heap(virt, heap_mem_start_addr)),
        r.1 == (if rings_in_heap(virt, heap_mem_start_addr) < 4 {
            Err::<(), DeviceError>(DeviceError::Device)
        } else {
            Ok(())
        }),
{
    let mut out: Vec<CsrWrite> = Vec::new();
    match get_phys_addr(virt.cmd_req, heap_mem_start_addr) {
        Ok(addr) => push_queue(
            &mut out,
            QueueRegister::CmdReqQueueAddrLow,
            QueueRegister::CmdReqQueueAddrHigh,
            addr,
        ),
        Err(e) => {
            return (out, Err(e));
        },
    }
    match get_phys_addr(virt.cmd_resp, heap_mem_start_addr) {
        Ok(addr) => push_queue(
            &mut out,
            QueueRegister::CmdRespQueueAddrLow,
            QueueRegister::CmdRespQueueAddrHigh,
            addr,
        ),
        Err(e) => {
            return (out, Err(e));
        },
    }
    match get_phys_addr(virt.send, heap_mem_start_addr) {
        Ok(addr) => push_queue(&mut out, QueueRegister::SendQueueAddrLow, QueueRegister::SendQueueAddrHigh, addr),
        Err(e) => {
            return (out, Err(e));
        },
    }
    match get_phys_addr(virt.meta_report, heap_mem_start_addr) {
        Ok(addr) => push_queue(
            &mut out,
            QueueRegister::MetaReportQueueAddrLow,
            QueueRegister::MetaReportQueueAddrHigh,
            addr,
        ),
        Err(e) => {
            return (out, Err(e));
        },
    }
    (out, Ok(()))
}

/// Whether there is a register at the address
pub fn check_csr_addr(addr: usize) -> (r: Result<(), DeviceError>)
    ensures
        r == (if addr >= CSR_LENGTH {
            Err::<(), DeviceError>(DeviceError::Device)
        } else {
            Ok(())
        }),
{
    if addr >= CSR_LENGTH {
        return Err(DeviceError::Device);
    }
    Ok(())
}

/// Where the entry of the page that holds `vaddr` stands in the page map, which
/// has 8 bytes for each page
pub fn pagemap_offset(vaddr: u64) -> (r: u64)
    ensures
        r == (vaddr as int / 4096) * 8,
{
    let vpn: u64 = vaddr >> PAGE_SHIFT;
    assert(vaddr >> 12u64 == vaddr / 4096) by (bit_vector);
    vpn * 8
}

/// The physical address of `vaddr`, given the page map's entry for its page: the
/// lower 55 bits of the entry are the number of the page frame. Bits that do not
/// fit into an address are lost.
pub fn phys_addr(vaddr: u64, entry: u64) -> (r: u64)
    ensures
        r == ((entry as int % 0x80_0000_0000_0000) * 4096) % 0x1_0000_0000_0000_0000 + vaddr as int % 4096,
{
    let offset: u64 = vaddr % 4096;
    let pfn: u64 = entry & 0x7f_ffff_ffff_ffff;
    proof {
        assert(entry & 0x7f_ffff_ffff_ffff == entry % 0x80_0000_0000_0000) by (bit_vector);
        assert((pfn << 12u64) as int == (pfn % 0x10_0000_0000_0000) * 4096) by (bit_vector);
        assert((pfn << 12u64) | offset == (pfn << 12u64) + offset) by (bit_vector)
            requires
                offset < 4096,
        ;
        assert((pfn * 4096) % 0x1_0000_0000_0000_0000 == (pfn % 0x10_0000_0000_0000) * 4096);
    }
    (pfn << PAGE_SHIFT) | offset
}

/// Each ring is told to the card by two registers of its own, which together hold
/// its address. With fewer rings the writes for the later ones are missing.
pub proof fn law_rings_are_told(addrs: RingAddrs, n: int)
    requires
        0 <= n <= 4,
    ensures
        ({
            let w = setup_writes(addrs, n);
            let told = |k: int, low: QueueRegister, high: QueueRegister, addr: u64|
                w[2 * k].register == low && w[2 * k + 1].register == high && w[2 * k].value + w[2 * k + 1].value
                    * 0x1_0000_0000 == addr;
            &&& w.len() == 2 * n
            &&& n > 0 ==> told(0, QueueRegister::CmdReqQueueAddrLow, QueueRegister::CmdReqQueueAddrHigh, addrs.cmd_req)
            &&& n > 1 ==> told(
                1,
                QueueRegister::CmdRespQueueAddrLow,
                QueueRegister::CmdRespQueueAddrHigh,
                addrs.cmd_resp,
            )
            &&& n > 2 ==> told(2, QueueRegister::SendQueueAddrLow, QueueRegister::SendQueueAddrHigh, addrs.send)
            &&& n > 3 ==> told(
                3,
                QueueRegister::MetaReportQueueAddrLow,
                QueueRegister::MetaReportQueueAddrHigh,
                addrs.meta_report,
            )
        }),
{
}

/// An emulated card counts addresses from the start of the heap: what it is told,
/// and that start, make the address that the driver sees. It is told of all rings
/// if and only if all lie in the heap.
pub proof fn law_heap_addresses(virt: RingAddrs, heap_mem_start_addr: u64)
    ensures
        ({
            let n = rings_in_heap(virt, heap_mem_start_addr);
            let seen = rings_from_heap(virt, heap_mem_start_addr);
            &&& 0 <= n <= 4
            &&& n > 0 ==> seen.cmd_req + heap_mem_start_addr == virt.cmd_req
            &&& n > 1 ==> seen.cmd_resp + heap_mem_start_addr == virt.cmd_resp
            &&& n > 2 ==> seen.send + heap_mem_start_addr == virt.send
            &&& n > 3 ==> seen.meta_report + heap_mem_start_addr == virt.meta_report
            &&& n == 4 <==> virt.cmd_req >= heap_mem_start_addr && virt.cmd_resp >= heap_mem_start_addr && virt.send
                >= heap_mem_start_addr && virt.meta_report >= heap_mem_start_addr
        }),
{
}

} // verus!
