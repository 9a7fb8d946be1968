//! Scheduling of work descriptors: long ones are split into segments, and a
//! strategy decides in which order the segments go to the card.

use vstd::prelude::*;
#[allow(unused_imports)]
use vstd::arithmetic::div_mod::{lemma_fundamental_div_mod, lemma_fundamental_div_mod_converse};
use crate::device::error::DeviceError;
use crate::device::sgl::{cut_from_sgl, SGList};
#[allow(unused_imports)]
use crate::device::sgl::{left, shortened, taken, total_length, used_up};
use crate::device::work::{DescSge, ToCardWorkRbDesc, ToCardWorkRbDescCommon, ToCardWorkRbDescWrite, ToCardWorkRbDescWriteWithImm};
use crate::types::{Msn, Pmtu, Psn, Qpn};
#[allow(unused_imports)]
use crate::types::{add24, ThreeBytesStruct};
use crate::utils::{calculate_packet_cnt, div_ceil, get_first_packet_max_length};
#[allow(unused_imports)]
use crate::utils::{first_packet_max_length, law_packets_are_blocks_touched, packet_cnt};

/// What sending the packets of a write in another order amounts to.
pub mod order;
/// The strategy that serves the queue pairs in turn.
pub mod round_robin;
/// A strategy that lets a handler see the descriptors first.
pub mod testing;

verus! {

/// The length of a segment
pub const SCHEDULER_SIZE: u32 = 32768;

/// Size of each batch pop from the scheduler
pub const POP_BATCH_SIZE: usize = 8;

/// A batch of descriptors: `POP_BATCH_SIZE` places, of which the first ones are
/// taken.
pub type BatchDescs = Vec<Option<SealedDesc>>;

/// The descriptors that are sealed in a list.
pub open spec fn unsealed(descs: Seq<SealedDesc>) -> Seq<ToCardWorkRbDesc> {
    descs.map_values(|d: SealedDesc| d@)
}

/// The descriptors in the places of a batch.
pub open spec fn places(batch: Seq<Option<SealedDesc>>) -> Seq<Option<ToCardWorkRbDesc>> {
    batch.map_values(
        |place: Option<SealedDesc>|
            match place {
                Some(d) => Some(d@),
                None => None,
            },
    )
}

/// What a strategy was asked for a batch, and gave: the places and their number,
/// or nothing where it failed.
pub open spec fn given_batch(r: Result<(BatchDescs, u32), DeviceError>) -> Option<
    (Seq<Option<ToCardWorkRbDesc>>, u32),
> {
    match r {
        Ok((batch, n)) => Some((places(batch@), n)),
        Err(_) => None,
    }
}

/// A scheduler strategy that schedule the descriptor to the device.
pub trait SchedulerStrategy: Sized {
    /// Whether a push of `descs` for queue pair `qpn` may leave `after`, and
    /// succeed as `ok` says. Of a strategy that does not say, nothing is known.
    open spec fn may_push(before: Self, qpn: u32, descs: Seq<ToCardWorkRbDesc>, after: Self, ok: bool) -> bool {
        true
    }

    /// Whether a pop may give `batch` and leave `after`. Of a strategy that does
    /// not say, nothing is known.
    open spec fn may_pop(before: Self, batch: Option<(Seq<Option<ToCardWorkRbDesc>>, u32)>, after: Self) -> bool {
        true
    }

    /// Push the descriptor to the scheduler, where the descriptor is of same `MSN`.
    fn push(&mut self, qpn: Qpn, desc: Vec<SealedDesc>) -> (r: Result<(), DeviceError>)
        ensures
            Self::may_push(*old(self), qpn@, unsealed(desc@), *final(self), r is Ok),
    ;

    /// Pop a batch of descriptors from the scheduler.
    fn pop_batch(&mut self) -> (r: Result<(BatchDescs, u32), DeviceError>)
        ensures
            Self::may_pop(*old(self), given_batch(r), *final(self)),
    ;
}

/// The descriptors in those places of a batch that are taken, in order.
pub open spec fn taken_places(batch: Seq<Option<ToCardWorkRbDesc>>) -> Seq<ToCardWorkRbDesc>
    decreases batch.len(),
{
    if batch.len() == 0 {
        Seq::empty()
    } else {
        match batch.last() {
            Some(d) => taken_places(batch.drop_last()).push(d),
            None => taken_places(batch.drop_last()),
        }
    }
}

/// What goes to the card of what a strategy gave: nothing where it failed, or
/// says that there is none.
pub open spec fn handed_out(batch: Option<(Seq<Option<ToCardWorkRbDesc>>, u32)>) -> Seq<ToCardWorkRbDesc> {
    match batch {
        Some((all, n)) => if n == 0 {
            Seq::empty()
        } else {
            taken_places(all)
        },
        None => Seq::empty(),
    }
}

/// Whether a strategy may be `after` once the segments of a descriptor, if there
/// is one, were pushed for its queue pair.
pub open spec fn took_in<S: SchedulerStrategy>(before: S, desc: Option<ToCardWorkRbDesc>, after: S) -> bool {
    match desc {
        Some(d) => exists|ok: bool| #[trigger]
            S::may_push(before, common_of(d).dqpn@, segments(d), after, ok),
        None => after == before,
    }
}

/// Whether a strategy may be `after` once it gave a batch of which `out` goes to
/// the card.
pub open spec fn gave_out<S: SchedulerStrategy>(before: S, out: Seq<ToCardWorkRbDesc>, after: S) -> bool {
    exists|batch: Option<(Seq<Option<ToCardWorkRbDesc>>, u32)>| #[trigger]
        S::may_pop(before, batch, after) && out == handed_out(batch)
}

/// The descriptor in a box, if there is one.
pub open spec fn unboxed(desc: Option<Box<ToCardWorkRbDesc>>) -> Option<ToCardWorkRbDesc> {
    match desc {
        Some(d) => Some(*d),
        None => None,
    }
}

/// One turn of the scheduler: what has come in is split and pushed, and a batch
/// goes out. What the strategy refuses is dropped. The first element has to hold
/// all the bytes of a descriptor that is split.
pub fn schedule_once<S: SchedulerStrategy>(strategy: &mut S, desc: Option<Box<ToCardWorkRbDesc>>) -> (r: Vec<
    Box<ToCardWorkRbDesc>,
>)
    requires
        desc matches Some(d) ==> is_split(*d) ==> sge0_of(*d).len >= common_of(*d).total_len,
    ensures
        ({
            let incoming = unboxed(desc);
            let out = r@.map_values(|d: Box<ToCardWorkRbDesc>| *d);
            exists|mid: S| #[trigger]
                took_in(*old(strategy), incoming, mid) && gave_out(mid, out, *final(strategy))
        }),
{
    let ghost incoming = unboxed(desc);
    if let Some(desc) = desc {
        let dqpn: Qpn = get_to_card_desc_common(&desc).dqpn;
        let ghost all = segments(*desc);
        let parts: Vec<SealedDesc> = split_descriptor(desc);
        assert(unsealed(parts@) =~= all);
        let pushed: Result<(), DeviceError> = strategy.push(dqpn, parts);
        assert(S::may_push(*old(strategy), dqpn@, all, *strategy, pushed is Ok));
    }
    let ghost mid = *strategy;
    assert(took_in(*old(strategy), incoming, mid));
    let mut out: Vec<Box<ToCardWorkRbDesc>> = Vec::new();
    let popped: Result<(BatchDescs, u32), DeviceError> = strategy.pop_batch();
    let ghost given = given_batch(popped);
    if let Ok((batch, n)) = popped {
        if n > 0 {
            out = take_places(batch);
        }
    }
    proof {
        assert(out@.map_values(|d: Box<ToCardWorkRbDesc>| *d) =~= handed_out(given));
        assert(gave_out(mid, handed_out(given), *strategy));
    }
    out
}

/// The descriptors of a batch
fn take_places(batch: BatchDescs) -> (r: Vec<Box<ToCardWorkRbDesc>>)
    ensures
        r@.map_values(|d: Box<ToCardWorkRbDesc>| *d) == taken_places(places(batch@)),
{
    let mut batch: BatchDescs = batch;
    let ghost all = batch@;
    let mut out: Vec<Box<ToCardWorkRbDesc>> = Vec::new();
    let ghost mut i: int = 0;
    assert(places(all.take(0)) =~= Seq::<Option<ToCardWorkRbDesc>>::empty());
    while batch.len() > 0
        invariant
            0 <= i <= all.len(),
            batch@ == all.skip(i),
            out@.map_values(|d: Box<ToCardWorkRbDesc>| *d) == taken_places(places(all.take(i))),
        decreases batch@.len(),
    {
        let place: Option<SealedDesc> = batch.remove(0);
        proof {
            assert(place == all[i]);
            assert(places(all.take(i + 1)).drop_last() =~= places(all.take(i)));
            assert(batch@ =~= all.skip(i + 1));
        }
        let ghost before = out@;
        if let Some(d) = place {
            out.push(d.into_desc());
            assert(out@.map_values(|d: Box<ToCardWorkRbDesc>| *d) =~= before.map_values(
                |d: Box<ToCardWorkRbDesc>| *d,
            ).push(d@));
        }
        proof {
            i = i + 1;
        }
    }
    assert(all.take(i) =~= all);
    out
}

/// The fields that all work descriptors have.
pub open spec fn common_of(desc: ToCardWorkRbDesc) -> ToCardWorkRbDescCommon {
    match desc {
        ToCardWorkRbDesc::Read(req) => req.common,
        ToCardWorkRbDesc::Write(req) => req.common,
        ToCardWorkRbDesc::ReadResp(req) => req.common,
        ToCardWorkRbDesc::WriteWithImm(req) => req.common,
    }
}

/// The first element of a descriptor that sends data.
pub open spec fn sge0_of(desc: ToCardWorkRbDesc) -> DescSge {
    match desc {
        ToCardWorkRbDesc::Read(req) => req.sge,
        ToCardWorkRbDesc::Write(req) => req.sge0,
        ToCardWorkRbDesc::ReadResp(req) => req.sge0,
        ToCardWorkRbDesc::WriteWithImm(req) => req.sge0,
    }
}

/// The fields that all work descriptors have
pub fn get_to_card_desc_common(desc: &ToCardWorkRbDesc) -> (r: &ToCardWorkRbDescCommon)
    ensures
        *r == common_of(*desc),
{
    match desc {
        ToCardWorkRbDesc::Read(req) => &req.common,
        ToCardWorkRbDesc::Write(req) => &req.common,
        ToCardWorkRbDesc::ReadResp(req) => &req.common,
        ToCardWorkRbDesc::WriteWithImm(req) => &req.common,
    }
}

/// How many bytes a descriptor is about
pub fn get_total_len(desc: &ToCardWorkRbDesc) -> (r: u32)
    ensures
        r == common_of(*desc).total_len,
{
    get_to_card_desc_common(desc).total_len
}

/// What one part of a descriptor has of its own
#[derive(Debug, Clone, Copy)]
pub struct Piece {
    /// Where the data comes from
    pub sge0: DescSge,
    /// The length that the headers speak of
    pub total_len: u32,
    /// Where the data goes
    pub raddr: u64,
    /// The first packet's number
    pub psn: Psn,
    /// Whether the message begins here
    pub is_first: bool,
    /// Whether the message ends here
    pub is_last: bool,
}

/// The descriptor of one part of `desc`; a read request has no parts.
pub open spec fn with_part(desc: ToCardWorkRbDesc, p: Piece) -> ToCardWorkRbDesc {
    let common = ToCardWorkRbDescCommon {
        total_len: p.total_len,
        raddr: p.raddr,
        psn: p.psn,
        ..common_of(desc)
    };
    match desc {
        ToCardWorkRbDesc::Read(req) => desc,
        ToCardWorkRbDesc::Write(req) => ToCardWorkRbDesc::Write(
            ToCardWorkRbDescWrite { common, sge0: p.sge0, is_first: p.is_first, is_last: p.is_last, ..req },
        ),
        ToCardWorkRbDesc::ReadResp(req) => ToCardWorkRbDesc::ReadResp(
            ToCardWorkRbDescWrite { common, sge0: p.sge0, is_first: p.is_first, is_last: p.is_last, ..req },
        ),
        ToCardWorkRbDesc::WriteWithImm(req) => ToCardWorkRbDesc::WriteWithImm(
            ToCardWorkRbDescWriteWithImm { common, sge0: p.sge0, is_first: p.is_first, is_last: p.is_last, ..req },
        ),
    }
}

fn make_part(desc: &ToCardWorkRbDesc, p: Piece) -> (r: ToCardWorkRbDesc)
    ensures
        r == with_part(*desc, p),
{
    let mut common: ToCardWorkRbDescCommon = *get_to_card_desc_common(desc);
    common.total_len = p.total_len;
    common.raddr = p.raddr;
    common.psn = p.psn;
    match desc {
        ToCardWorkRbDesc::Read(req) => ToCardWorkRbDesc::Read(*req),
        ToCardWorkRbDesc::Write(req) => ToCardWorkRbDesc::Write(
            ToCardWorkRbDescWrite { common, sge0: p.sge0, is_first: p.is_first, is_last: p.is_last, ..*req },
        ),
        ToCardWorkRbDesc::ReadResp(req) => ToCardWorkRbDesc::ReadResp(
            ToCardWorkRbDescWrite { common, sge0: p.sge0, is_first: p.is_first, is_last: p.is_last, ..*req },
        ),
        ToCardWorkRbDesc::WriteWithImm(req) => ToCardWorkRbDesc::WriteWithImm(
            ToCardWorkRbDescWriteWithImm { common, sge0: p.sge0, is_first: p.is_first, is_last: p.is_last, ..*req },
        ),
    }
}

/// How many bytes lie between `va` and the next segment boundary.
pub open spec fn first_segment_length(va: int) -> int {
    32768 - va % 32768
}

/// The length of the first segment of a transfer to `va`
pub fn get_first_schedule_segment_length(va: u64) -> (r: u32)
    ensures
        r == first_segment_length(va as int),
        0 < r <= SCHEDULER_SIZE,
{
    let offset: u32 = (va % SCHEDULER_SIZE as u64) as u32;
    SCHEDULER_SIZE - offset
}

/// Recalculate the PSN of the descriptor
///
/// # Example
/// `base_psn` = 0 , `raddr` = 4095,`pmtu` = 4096 and `total_len` = 4096 * 4.
///
/// so the `first_packet_length` = 4096 - 4095 = 1
/// then the psn = 0 + ceil((4096 * 4 - `first_packet_length`),4096) = 4
/// That means we will send 5 packets in total(psn=0,1,2,3,4)
/// And the next psn will be 5
pub fn recalculate_psn(raddr: u64, pmtu: Pmtu, total_len: u32, base_psn: Psn) -> (r: Psn)
    ensures
        r@ == add24(base_psn@ as int, packet_cnt(pmtu.size_spec() as int, raddr as int, total_len as int)),
        r == Psn::of(r@),
{
    let size: u32 = u32::from(&pmtu);
    let first_packet_max: u32 = get_first_packet_max_length(raddr, size);
    let first_packet_length: u32 = if total_len < first_packet_max { total_len } else { first_packet_max };
    // first packet psn = base_psn
    let more: u32 = div_ceil(total_len - first_packet_length, size);
    proof {
        match pmtu {
            Pmtu::Mtu256 => {},
            Pmtu::Mtu512 => {},
            Pmtu::Mtu1024 => {},
            Pmtu::Mtu2048 => {},
            Pmtu::Mtu4096 => {},
        }
    }
    let last_packet_psn: Psn = base_psn.wrapping_add(more);
    last_packet_psn.wrapping_add(1)
}

/// Where segment `k` of a transfer to `raddr` starts, counted from `raddr`.
pub open spec fn segment_offset(raddr: u64, k: int) -> int {
    if k <= 0 {
        0
    } else {
        first_segment_length(raddr as int) + (k - 1) * 32768
    }
}

/// How many segments a transfer of `total_len` bytes to `raddr` has.
pub open spec fn segment_cnt(raddr: u64, total_len: u32) -> int {
    1 + (total_len - first_segment_length(raddr as int) + 32767) / 32768
}

/// The length of segment `k`: up to where the next one starts, or to the end.
pub open spec fn segment_length(raddr: u64, total_len: u32, k: int) -> int {
    let next = segment_offset(raddr, k + 1);
    (if next < total_len {
        next
    } else {
        total_len as int
    }) - segment_offset(raddr, k)
}

/// How many packets come before byte `offset` of a transfer to `raddr`, where a
/// packet starts there.
pub open spec fn packets_before(pmtu: Pmtu, raddr: u64, offset: int) -> int {
    let p = pmtu.size_spec() as int;
    (raddr + offset) / p - raddr as int / p
}

/// Segment `k` of a descriptor.
pub open spec fn segment(desc: ToCardWorkRbDesc, k: int) -> ToCardWorkRbDesc {
    let common = common_of(desc);
    let sge = sge0_of(desc);
    let offset = segment_offset(common.raddr, k);
    let length = segment_length(common.raddr, common.total_len, k);
    with_part(
        desc,
        Piece {
            sge0: DescSge { addr: ((sge.addr + offset) % 0x1_0000_0000_0000_0000) as u64, len: length as u32, key: sge.key },
            total_len: if k == 0 {
                common.total_len
            } else {
                length as u32
            },
            raddr: ((common.raddr + offset) % 0x1_0000_0000_0000_0000) as u64,
            psn: Psn::of(add24(common.psn@ as int, packets_before(common.pmtu, common.raddr, offset))),
            is_first: k == 0,
            is_last: k == segment_cnt(common.raddr, common.total_len) - 1,
        },
    )
}

/// Whether a descriptor is sent in segments.
pub open spec fn is_split(desc: ToCardWorkRbDesc) -> bool {
    !(desc is Read) && common_of(desc).total_len >= SCHEDULER_SIZE
}

/// What a descriptor is split into.
pub open spec fn segments(desc: ToCardWorkRbDesc) -> Seq<ToCardWorkRbDesc> {
    if is_split(desc) {
        Seq::new(
            segment_cnt(common_of(desc).raddr, common_of(desc).total_len) as nat,
            |k: int| segment(desc, k),
        )
    } else {
        seq![desc]
    }
}

/// Segments are not empty, and all but the last end at a segment boundary.
proof fn lemma_segment(raddr: u64, total_len: u32, k: int)
    requires
        total_len >= SCHEDULER_SIZE,
        0 <= k < segment_cnt(raddr, total_len),
    ensures
        ({
            let offset = segment_offset(raddr, k);
            let len = segment_length(raddr, total_len, k);
            let next = segment_offset(raddr, k + 1);
            &&& 0 <= offset < total_len
            &&& 0 < len <= SCHEDULER_SIZE
            &&& offset + len <= total_len
            &&& k > 0 ==> (raddr + offset) % 32768 == 0
            &&& k + 1 < segment_cnt(raddr, total_len) ==> {
                &&& offset + len == next < total_len
                &&& (raddr + next) % 32768 == 0
                &&& segment_length(raddr, total_len, k + 1) == (if total_len - next > SCHEDULER_SIZE {
                    SCHEDULER_SIZE as int
                } else {
                    total_len - next
                })
            }
            &&& k + 1 == segment_cnt(raddr, total_len) ==> offset + len == total_len
        }),
{
}

/// The PSN at which the next segment starts.
proof fn lemma_next_psn(pmtu: Pmtu, raddr: u64, psn: u32, offset: int, va: u64, len: u32)
    requires
        0 <= offset,
        va == (raddr + offset) % 0x1_0000_0000_0000_0000,
        len > 0,
        (raddr + offset + len) % 32768 == 0,
    ensures
        add24(
            add24(psn as int, packets_before(pmtu, raddr, offset)) as int,
            packet_cnt(pmtu.size_spec() as int, va as int, len as int),
        ) == add24(psn as int, packets_before(pmtu, raddr, offset + len)),
{
    let x = raddr + offset;
    let p = pmtu.size_spec() as int;
    let w = x / 0x1_0000_0000_0000_0000;
    let n = (x + len) / 32768;
    law_packets_are_blocks_touched(pmtu, va, len);
    match pmtu {
        Pmtu::Mtu256 => lemma_block_ends(256, 0x100_0000_0000_0000, x, va as int, len as int, w, 128 * n),
        Pmtu::Mtu512 => lemma_block_ends(512, 0x80_0000_0000_0000, x, va as int, len as int, w, 64 * n),
        Pmtu::Mtu1024 => lemma_block_ends(1024, 0x40_0000_0000_0000, x, va as int, len as int, w, 32 * n),
        Pmtu::Mtu2048 => lemma_block_ends(2048, 0x20_0000_0000_0000, x, va as int, len as int, w, 16 * n),
        Pmtu::Mtu4096 => lemma_block_ends(4096, 0x10_0000_0000_0000, x, va as int, len as int, w, 8 * n),
    }
    lemma_add24_twice(
        psn as int,
        packets_before(pmtu, raddr, offset),
        packet_cnt(p, va as int, len as int),
    );
}

/// Adding twice is adding the sum.
proof fn lemma_add24_twice(a: int, b: int, c: int)
    ensures
        add24(add24(a, b) as int, c) == add24(a, b + c),
{
}

/// A transfer that ends where a block ends touches the blocks from its start to
/// its end, also when the addresses wrap around.
proof fn lemma_block_ends(p: int, q: int, x: int, va: int, len: int, w: int, m: int)
    requires
        p > 0,
        x == va + (p * q) * w,
        x + len == p * m,
    ensures
        (va + len - 1) / p - va / p + 1 == (x + len) / p - x / p,
{
    lemma_fundamental_div_mod(x, p);
    assert(va == (x / p - q * w) * p + x % p) by (nonlinear_arith)
        requires
            x == va + (p * q) * w,
            x == p * (x / p) + x % p,
    ;
    lemma_fundamental_div_mod_converse(va, p, x / p - q * w, x % p);
    assert(va + len - 1 == (m - 1 - q * w) * p + (p - 1)) by (nonlinear_arith)
        requires
            x == va + (p * q) * w,
            x + len == p * m,
    ;
    lemma_fundamental_div_mod_converse(va + len - 1, p, m - 1 - q * w, p - 1);
    assert(p * m == m * p + 0) by (nonlinear_arith);
    lemma_fundamental_div_mod_converse(x + len, p, m, 0);
}

/// Cutting the front off a single element.
proof fn lemma_cut_one(here: DescSge, n: u32)
    requires
        n <= here.len,
    ensures
        ({
            let rest = seq![here];
            &&& total_length(rest) == here.len
            &&& taken(rest, n as nat) == seq![(DescSge { len: n, ..here })]
            &&& left(rest, n as nat) == seq![shortened(here, n)]
            &&& used_up(rest, n as nat) == (if n == here.len {
                1nat
            } else {
                0
            })
        }),
{
    let rest = seq![here];
    assert(rest.drop_first() =~= Seq::<DescSge>::empty());
    assert(total_length(rest.drop_first()) == 0);
    assert(taken(rest, n as nat) =~= seq![(DescSge { len: n, ..here })]);
    assert(left(rest, n as nat) =~= seq![shortened(here, n)]);
}

/// What splitting has reached: segment `k` comes next, `offset` bytes lie before
/// it, and it is `len` bytes long.
#[verifier::opaque]
spec fn reached(raddr: u64, total_len: u32, k: int, offset: int, len: u32) -> bool {
    &&& total_len >= SCHEDULER_SIZE
    &&& 0 <= k < segment_cnt(raddr, total_len)
    &&& offset == segment_offset(raddr, k)
    &&& len == segment_length(raddr, total_len, k)
}

/// The addresses and the packet number `offset` bytes into a descriptor.
#[verifier::opaque]
spec fn placed(desc: ToCardWorkRbDesc, offset: int, va: u64, here: DescSge, psn: u32) -> bool {
    let common = common_of(desc);
    &&& 0 <= offset <= sge0_of(desc).len
    &&& va == (common.raddr + offset) % 0x1_0000_0000_0000_0000
    &&& here == shortened(sge0_of(desc), offset as u32)
    &&& psn == add24(common.psn@ as int, packets_before(common.pmtu, common.raddr, offset))
}

proof fn lemma_reached_start(desc: ToCardWorkRbDesc, len: u32)
    requires
        is_split(desc),
        len == first_segment_length(common_of(desc).raddr as int),
        common_of(desc).psn@ <= 0xff_ffff,
    ensures
        reached(common_of(desc).raddr, common_of(desc).total_len, 0, 0, len),
        placed(desc, 0, common_of(desc).raddr, sge0_of(desc), common_of(desc).psn@),
{
    reveal(reached);
    reveal(placed);
}

proof fn lemma_reached_bounds(raddr: u64, total_len: u32, k: int, offset: int, len: u32)
    requires
        reached(raddr, total_len, k, offset, len),
    ensures
        0 <= k,
        0 <= offset,
        0 < len <= SCHEDULER_SIZE,
        offset + len <= total_len,
        (offset + len == total_len) == (k == segment_cnt(raddr, total_len) - 1),
        k == 0 ==> offset == 0,
{
    reveal(reached);
    lemma_segment(raddr, total_len, k);
}

proof fn lemma_reached_step(raddr: u64, total_len: u32, k: int, offset: int, len: u32, next_len: u32)
    requires
        reached(raddr, total_len, k, offset, len),
        offset + len < total_len,
        next_len == (if total_len - offset - len > SCHEDULER_SIZE {
            SCHEDULER_SIZE as int
        } else {
            total_len - offset - len
        }),
    ensures
        reached(raddr, total_len, k + 1, offset + len, next_len),
{
    reveal(reached);
    lemma_segment(raddr, total_len, k);
}

proof fn lemma_wrap(a: int, b: int)
    ensures
        (a % 0x1_0000_0000_0000_0000 + b) % 0x1_0000_0000_0000_0000 == (a + b) % 0x1_0000_0000_0000_0000,
{
}

/// The place `len` bytes further on, where a segment ends.
proof fn lemma_placed_step(
    desc: ToCardWorkRbDesc,
    k: int,
    offset: int,
    len: u32,
    va: u64,
    here: DescSge,
    psn: u32,
    next_va: u64,
    next_here: DescSge,
    next_psn: u32,
)
    requires
        reached(common_of(desc).raddr, common_of(desc).total_len, k, offset, len),
        offset + len < common_of(desc).total_len <= sge0_of(desc).len,
        placed(desc, offset, va, here, psn),
        next_va == (va + len) % 0x1_0000_0000_0000_0000,
        next_here == shortened(here, len),
        next_psn == add24(
            psn as int,
            packet_cnt(common_of(desc).pmtu.size_spec() as int, va as int, len as int),
        ),
    ensures
        placed(desc, offset + len, next_va, next_here, next_psn),
{
    let common = common_of(desc);
    assert(0 <= offset && len > 0 && (common.raddr + offset + len) % 32768 == 0) by {
        reveal(reached);
        lemma_segment(common.raddr, common.total_len, k);
    }
    reveal(placed);
    assert(next_psn == add24(common.psn@ as int, packets_before(common.pmtu, common.raddr, offset + len))) by {
        lemma_next_psn(common.pmtu, common.raddr, common.psn@, offset, va, len);
    }
    lemma_wrap(common.raddr + offset, len as int);
    lemma_wrap(sge0_of(desc).addr + offset, len as int);
}

/// What is made of a place that splitting has reached is a segment.
proof fn lemma_placed_segment(
    desc: ToCardWorkRbDesc,
    k: int,
    offset: int,
    len: u32,
    va: u64,
    here: DescSge,
    psn: u32,
    part: Piece,
)
    requires
        reached(common_of(desc).raddr, common_of(desc).total_len, k, offset, len),
        placed(desc, offset, va, here, psn),
        part.sge0 == (DescSge { len, ..here }),
        part.total_len == (if k == 0 {
            common_of(desc).total_len
        } else {
            len
        }),
        part.raddr == va,
        part.psn == Psn::of(psn),
        part.is_first == (k == 0),
        part.is_last == (k == segment_cnt(common_of(desc).raddr, common_of(desc).total_len) - 1),
    ensures
        with_part(desc, part) == segment(desc, k),
{
    reveal(reached);
    reveal(placed);
}

/// Split the descriptor into multiple descriptors if it is greater than the `SCHEDULER_SIZE` size.
/// The first element has to hold all the bytes of a descriptor that is split.
#[verifier::spinoff_prover]
#[verifier::rlimit(60)]
pub fn split_descriptor(desc: Box<ToCardWorkRbDesc>) -> (r: Vec<SealedDesc>)
    requires
        is_split(*desc) ==> sge0_of(*desc).len >= common_of(*desc).total_len,
    ensures
        r@.map_values(|d: SealedDesc| d@) == segments(*desc),
{
    let is_read: bool = matches!(*desc, ToCardWorkRbDesc::Read(_));
    let total_len: u32 = get_total_len(&desc);
    let mut descs: Vec<SealedDesc> = Vec::new();
    if is_read || total_len < SCHEDULER_SIZE {
        descs.push(SealedDesc(desc));
        assert(descs@.map_values(|d: SealedDesc| d@) =~= seq![*desc]);
        return descs;
    }
    let common: ToCardWorkRbDescCommon = *get_to_card_desc_common(&desc);
    let sge: DescSge = match &*desc {
        ToCardWorkRbDesc::Read(req) => req.sge,
        ToCardWorkRbDesc::Write(req) => req.sge0,
        ToCardWorkRbDesc::ReadResp(req) => req.sge0,
        ToCardWorkRbDesc::WriteWithImm(req) => req.sge0,
    };
    let raddr: u64 = common.raddr;
    let mut sg_list: SGList = SGList::new_from_sge(sge);
    let mut this_length: u32 = get_first_schedule_segment_length(raddr);
    let mut remain_data_length: u32 = total_len;
    let mut current_va: u64 = raddr;
    let mut base_psn: Psn = common.psn;
    let ghost cnt = segment_cnt(raddr, total_len);
    let ghost mut offset: int = 0;
    let ghost mut here = sge;
    let first_psn: u32 = base_psn.get();
    proof {
        Psn::lemma_of(first_psn);
        Psn::lemma_view_injective(base_psn, Psn::of(base_psn@));
        lemma_reached_start(*desc, this_length);
    }
    while remain_data_length > 0
        invariant
            is_split(*desc),
            common == common_of(*desc),
            sge == sge0_of(*desc),
            raddr == common.raddr,
            total_len == common.total_len,
            sge.len >= total_len,
            cnt == segment_cnt(raddr, total_len),
            0 <= offset <= total_len,
            remain_data_length == total_len - offset,
            remain_data_length > 0 ==> {
                &&& reached(raddr, total_len, descs@.len() as int, offset, this_length)
                &&& placed(*desc, offset, current_va, here, base_psn@)
                &&& base_psn == Psn::of(base_psn@)
                &&& sg_list.cur_level == 0
            },
            remain_data_length == 0 ==> descs@.len() == cnt,
            sg_list.wf(),
            sg_list.len == 1,
            sg_list.data@ == seq![here],
            here.len == sge.len - offset,
            forall|k: int| 0 <= k < descs@.len() ==> (#[trigger] descs@[k])@ == segment(*desc, k),
        decreases remain_data_length,
    {
        let ghost n = descs@.len() as int;
        proof {
            lemma_reached_bounds(raddr, total_len, n, offset, this_length);
            assert(sg_list.rest() =~= seq![here]);
            lemma_cut_one(here, this_length);
        }
        let ghost before = sg_list;
        let cut: SGList = cut_from_sgl(this_length, &mut sg_list);
        let new_sge: DescSge = cut.data[0];
        proof {
            assert(before.data@.subrange(0, 0) =~= Seq::<DescSge>::empty());
            assert(before.data@.subrange(1, 1) =~= Seq::<DescSge>::empty());
            assert(sg_list.data@ =~= seq![shortened(here, this_length)]);
        }
        let is_first: bool = descs.len() == 0;
        let part = Piece {
            sge0: new_sge,
            total_len: if is_first { total_len } else { this_length },
            raddr: current_va,
            psn: base_psn,
            is_first,
            is_last: remain_data_length == this_length,
        };
        proof {
            lemma_placed_segment(*desc, n, offset, this_length, current_va, here, base_psn@, part);
        }
        let next_psn: Psn = recalculate_psn(current_va, common.pmtu, this_length, base_psn);
        descs.push(SealedDesc(Box::new(make_part(&desc, part))));
        let next_va: u64 = current_va.wrapping_add(this_length as u64);
        remain_data_length = remain_data_length - this_length;
        let next_length: u32 = if remain_data_length > SCHEDULER_SIZE { SCHEDULER_SIZE } else { remain_data_length };
        proof {
            let next_here = shortened(here, this_length);
            if remain_data_length > 0 {
                lemma_reached_step(raddr, total_len, n, offset, this_length, next_length);
                lemma_placed_step(
                    *desc,
                    n,
                    offset,
                    this_length,
                    current_va,
                    here,
                    base_psn@,
                    next_va,
                    next_here,
                    next_psn@,
                );
            }
            offset = offset + this_length;
            here = next_here;
        }
        base_psn = next_psn;
        current_va = next_va;
        this_length = next_length;
    }
    assert(descs@.map_values(|d: SealedDesc| d@) =~= segments(*desc));
    descs
}

/// The segments of a split descriptor cover its bytes, one after the other:
/// the first one starts where the descriptor does, and each other one where the
/// one before it ended, at both ends of the transfer, with the packet number
/// after it. The last one ends where the descriptor does. All but the first
/// start at a segment boundary, and none is longer than `SCHEDULER_SIZE`. The
/// first one announces the length of the whole message, the others their own.
pub proof fn law_segments_cover(desc: ToCardWorkRbDesc, k: int)
    requires
        is_split(desc),
        0 <= k < segments(desc).len(),
        sge0_of(desc).len >= common_of(desc).total_len,
        common_of(desc).psn@ <= 0xff_ffff,
    ensures
        ({
            let all = segments(desc);
            let common = common_of(all[k]);
            let sge = sge0_of(all[k]);
            &&& k == 0 ==> common.raddr == common_of(desc).raddr && sge.addr == sge0_of(desc).addr
                && common.psn@ == common_of(desc).psn@
            &&& 0 < sge.len <= SCHEDULER_SIZE
            &&& k == 0 ==> common.total_len == common_of(desc).total_len
            &&& k > 0 ==> common.total_len == sge.len
            &&& sge.key == sge0_of(desc).key
            &&& k > 0 ==> common.raddr % 32768 == 0
            &&& k + 1 < all.len() ==> {
                &&& common_of(all[k + 1]).raddr == (common.raddr + sge.len) % 0x1_0000_0000_0000_0000
                &&& sge0_of(all[k + 1]).addr == (sge.addr + sge.len) % 0x1_0000_0000_0000_0000
                &&& common_of(all[k + 1]).psn@ == add24(
                    common.psn@ as int,
                    packet_cnt(common.pmtu.size_spec() as int, common.raddr as int, sge.len as int),
                )
            }
            &&& k + 1 == all.len() ==> segment_offset(common_of(desc).raddr, k) + sge.len == common_of(
                desc,
            ).total_len
        }),
{
    let raddr = common_of(desc).raddr;
    let total_len = common_of(desc).total_len;
    let offset = segment_offset(raddr, k);
    let len = segment_length(raddr, total_len, k) as u32;
    let all = segments(desc);
    assert(all[k] == segment(desc, k));
    assert(reached(raddr, total_len, k, offset, len)) by {
        reveal(reached);
        lemma_segment(raddr, total_len, k);
    }
    lemma_reached_bounds(raddr, total_len, k, offset, len);
    lemma_segment_place(desc, k, offset, len);
    let common = common_of(all[k]);
    let sge = sge0_of(all[k]);
    if k == 0 {
        lemma_reached_start(desc, len);
        lemma_placed_once(desc, 0, raddr, sge0_of(desc), common_of(desc).psn@, common.raddr, DescSge { len: sge0_of(desc).len, ..sge }, common.psn@);
    } else {
        lemma_segment(raddr, total_len, k);
    }
    if k + 1 < all.len() {
        let next_len = segment_length(raddr, total_len, k + 1) as u32;
        assert(all[k + 1] == segment(desc, k + 1));
        lemma_segment(raddr, total_len, k);
        lemma_segment(raddr, total_len, k + 1);
        lemma_reached_step(raddr, total_len, k, offset, len, next_len);
        lemma_segment_place(desc, k + 1, offset + len, next_len);
        let here = DescSge { len: (sge0_of(desc).len - offset) as u32, ..sge };
        let next_va = ((common.raddr + len) % 0x1_0000_0000_0000_0000) as u64;
        let next_psn = add24(
            common.psn@ as int,
            packet_cnt(common.pmtu.size_spec() as int, common.raddr as int, len as int),
        );
        lemma_placed_step(desc, k, offset, len, common.raddr, here, common.psn@, next_va, shortened(here, len), next_psn);
        let next = common_of(all[k + 1]);
        let next_here = DescSge { len: (sge0_of(desc).len - offset - len) as u32, ..sge0_of(all[k + 1]) };
        lemma_placed_once(desc, offset + len, next_va, shortened(here, len), next_psn, next.raddr, next_here, next.psn@);
    }
}

/// A segment is of the kind of its descriptor, and differs from it in nothing but
/// its place. The message begins in the first one and ends in the last one.
pub proof fn law_segments_keep_the_rest(desc: ToCardWorkRbDesc, k: int)
    requires
        is_split(desc),
        0 <= k < segments(desc).len(),
    ensures
        ({
            let part = segments(desc)[k];
            let c = common_of(part);
            let d = common_of(desc);
            let last = k == segments(desc).len() - 1;
            &&& c.rkey == d.rkey && c.dqp_ip == d.dqp_ip && c.dqpn == d.dqpn && c.mac_addr == d.mac_addr
            &&& c.pmtu == d.pmtu && c.flags == d.flags && c.qp_type == d.qp_type && c.msn == d.msn
            &&& match (desc, part) {
                (ToCardWorkRbDesc::Write(a), ToCardWorkRbDesc::Write(b)) => b.is_first == (k == 0) && b.is_last == last
                    && b.sge1 == a.sge1 && b.sge2 == a.sge2 && b.sge3 == a.sge3,
                (ToCardWorkRbDesc::ReadResp(a), ToCardWorkRbDesc::ReadResp(b)) => b.is_first == (k == 0) && b.is_last
                    == last && b.sge1 == a.sge1 && b.sge2 == a.sge2 && b.sge3 == a.sge3,
                (ToCardWorkRbDesc::WriteWithImm(a), ToCardWorkRbDesc::WriteWithImm(b)) => b.is_first == (k == 0)
                    && b.is_last == last && b.imm == a.imm && b.sge1 == a.sge1 && b.sge2 == a.sge2 && b.sge3 == a.sge3,
                _ => false,
            }
        }),
{
    let c = common_of(desc);
    assert(segments(desc)[k] == segment(desc, k));
    lemma_segment(c.raddr, c.total_len, k);
}

/// A descriptor that is not split stays one.
pub proof fn law_short_descriptor_stays(desc: ToCardWorkRbDesc)
    requires
        desc is Read || common_of(desc).total_len < 32768,
    ensures
        segments(desc) == seq![desc],
{
}

/// The fields of a segment are those of its place.
proof fn lemma_segment_place(desc: ToCardWorkRbDesc, k: int, offset: int, len: u32)
    requires
        is_split(desc),
        reached(common_of(desc).raddr, common_of(desc).total_len, k, offset, len),
        sge0_of(desc).len >= common_of(desc).total_len,
    ensures
        ({
            let s = segment(desc, k);
            &&& placed(
                desc,
                offset,
                common_of(s).raddr,
                DescSge { len: (sge0_of(desc).len - offset) as u32, ..sge0_of(s) },
                common_of(s).psn@,
            )
            &&& sge0_of(s).len == len
            &&& common_of(s).pmtu == common_of(desc).pmtu
            &&& k > 0 ==> common_of(s).raddr % 32768 == 0
        }),
{
    let common = common_of(desc);
    lemma_reached_bounds(common.raddr, common.total_len, k, offset, len);
    let s = segment(desc, k);
    assert(offset == segment_offset(common.raddr, k) && len == segment_length(common.raddr, common.total_len, k) && (k
        > 0 ==> (common.raddr + offset) % 32768 == 0)) by {
        reveal(reached);
        lemma_segment(common.raddr, common.total_len, k);
    }
    lemma_aligned_wrap(common.raddr + offset);
    lemma_segment_fields(desc, k, offset, len);
    assert(placed(
        desc,
        offset,
        common_of(s).raddr,
        DescSge { len: (sge0_of(desc).len - offset) as u32, ..sge0_of(s) },
        common_of(s).psn@,
    )) by {
        reveal(placed);
    }
}

/// The fields of a segment.
proof fn lemma_segment_fields(desc: ToCardWorkRbDesc, k: int, offset: int, len: u32)
    requires
        is_split(desc),
        offset == segment_offset(common_of(desc).raddr, k),
        len == segment_length(common_of(desc).raddr, common_of(desc).total_len, k),
    ensures
        ({
            let s = segment(desc, k);
            let common = common_of(desc);
            &&& common_of(s).raddr == ((common.raddr + offset) % 0x1_0000_0000_0000_0000) as u64
            &&& sge0_of(s) == (DescSge {
                addr: ((sge0_of(desc).addr + offset) % 0x1_0000_0000_0000_0000) as u64,
                len,
                key: sge0_of(desc).key,
            })
            &&& common_of(s).psn@ == add24(
                common.psn@ as int,
                packets_before(common.pmtu, common.raddr, offset),
            )
            &&& common_of(s).pmtu == common.pmtu
        }),
{
    broadcast use ThreeBytesStruct::lemma_of;

}

proof fn lemma_aligned_wrap(x: int)
    ensures
        x % 32768 == 0 ==> (x % 0x1_0000_0000_0000_0000) % 32768 == 0,
{
}

/// There is one place for an offset.
proof fn lemma_placed_once(
    desc: ToCardWorkRbDesc,
    offset: int,
    va: u64,
    here: DescSge,
    psn: u32,
    va1: u64,
    here1: DescSge,
    psn1: u32,
)
    requires
        placed(desc, offset, va, here, psn),
        placed(desc, offset, va1, here1, psn1),
    ensures
        va == va1,
        here == here1,
        psn == psn1,
{
    reveal(placed);
}

/// A sealed struct of `ToCardWorkRbDesc`
#[derive(Debug)]
pub struct SealedDesc(Box<ToCardWorkRbDesc>);

impl View for SealedDesc {
    type V = ToCardWorkRbDesc;

    closed spec fn view(&self) -> ToCardWorkRbDesc {
        *self.0
    }
}

impl Clone for SealedDesc {
    fn clone(&self) -> (r: Self)
        ensures
            r@ == self@,
    {
        SealedDesc(Box::new(*self.0))
    }
}

impl From<Box<ToCardWorkRbDesc>> for SealedDesc {
    fn from(desc: Box<ToCardWorkRbDesc>) -> (r: Self)
        ensures
            r@ == *desc,
    {
        SealedDesc(desc)
    }
}

impl vstd::std_specs::convert::FromSpecImpl<Box<ToCardWorkRbDesc>> for SealedDesc {
    open spec fn obeys_from_spec() -> bool {
        true
    }

    closed spec fn from_spec(desc: Box<ToCardWorkRbDesc>) -> Self {
        SealedDesc(desc)
    }
}

/// Where packet `i` of a transfer starts when its packets are sent out of
/// order: the first packet goes up to the next multiple of the packet size, and
/// the last one has what the others leave of the last packet size. `i` may be
/// the number of packets, for the end of the transfer.
pub open spec fn packet_start(pmtu: Pmtu, raddr: u64, total_len: u32, i: int) -> int {
    let p = pmtu.size_spec() as int;
    let first = first_packet_max_length(raddr as int, p);
    let cnt = packet_cnt(p, raddr as int, total_len as int);
    if i <= 0 {
        0
    } else if i < cnt || cnt == 1 {
        first + (i - 1) * p
    } else {
        first + (cnt - 2) * p + (total_len - first) % p
    }
}

/// The runs of consecutive numbers among the first `n` of `order`, each with
/// its first and its last number. The first number counts as zero.
pub open spec fn runs(order: Seq<i32>, n: nat) -> Seq<(i32, i32)>
    decreases n,
{
    if n <= 1 {
        seq![(0i32, 0i32)]
    } else {
        let before = runs(order, (n - 1) as nat);
        let i = order[n - 1];
        let last = if n == 2 {
            0
        } else {
            order[n - 2]
        };
        if i == last + 1 {
            before.update(before.len() - 1, (before.last().0, i))
        } else {
            before.push((i, i))
        }
    }
}

/// The runs of all of `order`; a single number ends the run from zero.
pub open spec fn all_runs(order: Seq<i32>) -> Seq<(i32, i32)> {
    if order.len() == 1 {
        seq![(0i32, order[0])]
    } else {
        runs(order, order.len())
    }
}

/// The part of `desc` that the packets of a run make.
pub open spec fn run_part(desc: ToCardWorkRbDescWrite, run: (i32, i32)) -> ToCardWorkRbDesc {
    let c = desc.common;
    let start = packet_start(c.pmtu, c.raddr, c.total_len, run.0 as int);
    let len = (packet_start(c.pmtu, c.raddr, c.total_len, run.1 + 1) - start) as u32;
    let cnt = packet_cnt(c.pmtu.size_spec() as int, c.raddr as int, c.total_len as int);
    with_part(
        ToCardWorkRbDesc::Write(desc),
        Piece {
            sge0: DescSge { addr: (desc.sge0.addr + start) as u64, len, key: desc.sge0.key },
            total_len: len,
            raddr: (c.raddr + start) as u64,
            psn: Psn::of(add24(c.psn@ as int, run.0 as int)),
            is_first: run.0 == 0,
            is_last: run.1 == cnt - 1,
        },
    )
}

/// Whether a write can be reordered: the numbers are those of its packets, and
/// no address overflows. Of several numbers the first one does not count.
pub open spec fn can_reorder(desc: ToCardWorkRbDescWrite, order: Seq<i32>) -> bool {
    let c = desc.common;
    let cnt = packet_cnt(c.pmtu.size_spec() as int, c.raddr as int, c.total_len as int);
    &&& order.len() > 0
    &&& forall|k: int| 0 <= k < order.len() && (k > 0 || order.len() == 1) ==> 0 <= #[trigger] order[k] < cnt
    &&& forall|k: int|
        0 <= k < all_runs(order).len() ==> {
            let start = packet_start(c.pmtu, c.raddr, c.total_len, (#[trigger] all_runs(order)[k]).0 as int);
            c.raddr + start <= u64::MAX && desc.sge0.addr + start <= u64::MAX
        }
}

/// What a descriptor becomes when its packets are sent in another order; only
/// writes are.
pub open spec fn reordered(desc: ToCardWorkRbDesc, order: Seq<i32>) -> Seq<ToCardWorkRbDesc> {
    match desc {
        ToCardWorkRbDesc::Write(req) => all_runs(order).map_values(|run: (i32, i32)| run_part(req, run)),
        _ => Seq::empty(),
    }
}

/// The starts of the packets are ascending and fit.
proof fn lemma_packet_start(pmtu: Pmtu, raddr: u64, total_len: u32, i: int)
    requires
        0 <= i < packet_cnt(pmtu.size_spec() as int, raddr as int, total_len as int),
    ensures
        ({
            let p = pmtu.size_spec() as int;
            let cnt = packet_cnt(p, raddr as int, total_len as int);
            let first = first_packet_max_length(raddr as int, p);
            let start = packet_start(pmtu, raddr, total_len, i);
            let next = packet_start(pmtu, raddr, total_len, i + 1);
            &&& 0 <= start <= next <= u32::MAX
            &&& i > 0 ==> total_len >= first
            &&& next - start == (if i == 0 {
                first
            } else if i == cnt - 1 {
                (total_len - first) % p
            } else {
                p
            })
        }),
{
    let p = pmtu.size_spec() as int;
    let first = first_packet_max_length(raddr as int, p);
    let cnt = packet_cnt(p, raddr as int, total_len as int);
    let rest = total_len - first;
    assert(0 < first <= p);
    if cnt > 1 {
        lemma_fundamental_div_mod(rest + p - 1, p);
        lemma_fundamental_div_mod(rest, p);
        let c = cnt - 1;
        assert((c - 1) * p < rest) by (nonlinear_arith)
            requires
                rest + p - 1 == p * c + (rest + p - 1) % p,
                0 <= (rest + p - 1) % p < p,
        ;
        assert((c - 1) * p + rest % p <= rest) by (nonlinear_arith)
            requires
                (c - 1) * p < rest,
                rest == p * (rest / p) + rest % p,
                0 <= rest % p < p,
                p > 0,
        ;
        if 0 < i < c {
            assert((i - 1) * p + p == i * p && 0 <= (i - 1) * p && i * p <= (c - 1) * p) by (nonlinear_arith)
                requires
                    0 < i < c,
                    p > 0,
            ;
        }
        assert(0 <= (c - 1) * p) by (nonlinear_arith)
            requires
                c >= 1,
                p > 0,
        ;
        if c == 1 {
            assert((c - 1) * p == 0) by (nonlinear_arith)
                requires
                    c == 1,
            ;
        }
    }
}

/// The starts of the packets are ascending.
proof fn lemma_packet_start_ascending(pmtu: Pmtu, raddr: u64, total_len: u32, i: int, j: int)
    requires
        0 <= i <= j <= packet_cnt(pmtu.size_spec() as int, raddr as int, total_len as int),
    ensures
        packet_start(pmtu, raddr, total_len, i) <= packet_start(pmtu, raddr, total_len, j),
    decreases j - i,
{
    if i < j {
        lemma_packet_start(pmtu, raddr, total_len, j - 1);
        lemma_packet_start_ascending(pmtu, raddr, total_len, i, j - 1);
    }
}

/// The starts of the packets of a transfer, and its end
fn packet_starts(pmtu: Pmtu, raddr: u64, total_len: u32) -> (r: Vec<u32>)
    ensures
        r@.len() == packet_cnt(pmtu.size_spec() as int, raddr as int, total_len as int) + 1,
        forall|i: int| 0 <= i < r@.len() ==> #[trigger] r@[i] == packet_start(pmtu, raddr, total_len, i),
{
    let size: u32 = u32::from(&pmtu);
    let cnt: u32 = calculate_packet_cnt(pmtu, raddr, total_len);
    let max_len: u32 = get_first_packet_max_length(raddr, size);
    let mut presums: Vec<u32> = Vec::new();
    let mut presum: u32 = 0;
    let mut i: u32 = 0;
    while i < cnt
        invariant
            size == pmtu.size_spec(),
            size > 0,
            cnt == packet_cnt(size as int, raddr as int, total_len as int),
            max_len == first_packet_max_length(raddr as int, size as int),
            i <= cnt,
            presum == packet_start(pmtu, raddr, total_len, i as int),
            presums@.len() == i,
            forall|k: int| 0 <= k < i ==> #[trigger] presums@[k] == packet_start(pmtu, raddr, total_len, k),
        decreases cnt - i,
    {
        proof {
            lemma_packet_start(pmtu, raddr, total_len, i as int);
        }
        presums.push(presum);
        let len: u32 = if i == 0 {
            max_len
        } else if i == cnt - 1 {
            (total_len - max_len) % size
        } else {
            size
        };
        presum = presum + len;
        i = i + 1;
    }
    presums.push(presum);
    presums
}

/// The runs of consecutive numbers
fn find_runs(order: &Vec<i32>, cnt: u32) -> (r: Vec<(i32, i32)>)
    requires
        order@.len() > 0,
        1 <= cnt <= 0x100_0001,
        forall|k: int| 0 <= k < order@.len() && (k > 0 || order@.len() == 1) ==> 0 <= #[trigger] order@[k] < cnt,
    ensures
        r@ == all_runs(order@),
        forall|k: int| 0 <= k < r@.len() ==> 0 <= (#[trigger] r@[k]).0 <= r@[k].1 < cnt,
{
    let mut segments: Vec<(i32, i32)> = Vec::new();
    if order.len() == 1 {
        segments.push((0, order[0]));
        return segments;
    }
    segments.push((0, 0));
    let mut last: i32 = 0;
    let mut n: usize = 1;
    while n < order.len()
        invariant
            1 <= n <= order@.len(),
            cnt <= 0x100_0001,
            cnt >= 1,
            last == (if n == 1 {
                0
            } else {
                order@[n - 1]
            }),
            0 <= last < cnt,
            forall|k: int| 0 < k < order@.len() ==> 0 <= #[trigger] order@[k] < cnt,
            segments@ == runs(order@, n as nat),
            segments@.len() > 0,
            segments@.last().1 == last,
            forall|k: int| 0 <= k < segments@.len() ==> 0 <= (#[trigger] segments@[k]).0 <= segments@[k].1 < cnt,
        decreases order@.len() - n,
    {
        let i: i32 = order[n];
        if i == last + 1 {
            let at: usize = segments.len() - 1;
            let start: i32 = segments[at].0;
            segments.set(at, (start, i));
        } else {
            segments.push((i, i));
        }
        last = i;
        n = n + 1;
    }
    segments
}

impl SealedDesc {
    /// Seals a descriptor
    pub fn new(desc: Box<ToCardWorkRbDesc>) -> (r: Self)
        ensures
            r@ == *desc,
    {
        SealedDesc(desc)
    }

    /// reorder a descripotr
    pub fn reorder(&self, idx_map: Vec<i32>) -> (r: Vec<SealedDesc>)
        requires
            self@ matches ToCardWorkRbDesc::Write(req) ==> can_reorder(req, idx_map@),
        ensures
            r@.map_values(|d: SealedDesc| d@) == reordered(self@, idx_map@),
    {
        let mut results: Vec<SealedDesc> = Vec::new();
        if let ToCardWorkRbDesc::Write(desc) = &*self.0 {
            let c: ToCardWorkRbDescCommon = desc.common;
            let cnt: u32 = calculate_packet_cnt(c.pmtu, c.raddr, c.total_len);
            let presums: Vec<u32> = packet_starts(c.pmtu, c.raddr, c.total_len);
            let all_segments: Vec<(i32, i32)> = find_runs(&idx_map, cnt);
            let mut k: usize = 0;
            while k < all_segments.len()
                invariant
                    c == desc.common,
                    can_reorder(*desc, idx_map@),
                    cnt == packet_cnt(c.pmtu.size_spec() as int, c.raddr as int, c.total_len as int),
                    cnt <= 0x100_0001,
                    presums@.len() == cnt + 1,
                    forall|i: int|
                        0 <= i < presums@.len() ==> #[trigger] presums@[i] == packet_start(
                            c.pmtu,
                            c.raddr,
                            c.total_len,
                            i,
                        ),
                    all_segments@ == all_runs(idx_map@),
                    forall|j: int|
                        0 <= j < all_segments@.len() ==> 0 <= (#[trigger] all_segments@[j]).0 <= all_segments@[j].1
                            < cnt,
                    k <= all_segments@.len(),
                    results@.len() == k,
                    forall|j: int|
                        0 <= j < k ==> (#[trigger] results@[j])@ == run_part(*desc, all_runs(idx_map@)[j]),
                decreases all_segments@.len() - k,
            {
                let (start, end): (i32, i32) = all_segments[k];
                assert(all_segments@[k as int] == all_runs(idx_map@)[k as int]);
                proof {
                    lemma_packet_start_ascending(c.pmtu, c.raddr, c.total_len, start as int, end + 1);
                }
                let from: u32 = presums[start as usize];
                let len: u32 = presums[end as usize + 1] - from;
                let part = make_part(
                    &ToCardWorkRbDesc::Write(*desc),
                    Piece {
                        sge0: DescSge { addr: desc.sge0.addr + from as u64, len, key: desc.sge0.key },
                        total_len: len,
                        raddr: c.raddr + from as u64,
                        psn: c.psn.wrapping_add(start as u32),
                        is_first: start == 0,
                        is_last: end == cnt as i32 - 1,
                    },
                );
                results.push(SealedDesc(Box::new(part)));
                k = k + 1;
            }
        }
        assert(results@.map_values(|d: SealedDesc| d@) =~= reordered(self@, idx_map@));
        results
    }

    /// get msn of a descriptor
    pub fn msn(&self) -> (r: Option<Msn>)
        ensures
            r == (match self@ {
                ToCardWorkRbDesc::Write(desc) => Some(desc.common.msn),
                _ => None,
            }),
    {
        if let ToCardWorkRbDesc::Write(desc) = &*self.0 {
            Some(desc.common.msn)
        } else {
            None
        }
    }

    /// The descriptor that is sealed
    pub fn into_desc(self) -> (r: Box<ToCardWorkRbDesc>)
        ensures
            *r == self@,
    {
        self.0
    }

    /// Get the destination QPN of the descriptor
    pub fn get_dqpn(&self) -> (r: Qpn)
        ensures
            r == common_of(self@).dqpn,
    {
        get_to_card_desc_common(&self.0).dqpn
    }

    /// Get the PSN of the descriptor
    pub fn get_psn(&self) -> (r: Psn)
        ensures
            r == common_of(self@).psn,
    {
        get_to_card_desc_common(&self.0).psn
    }
}

} // verus!
