//! Sending work descriptors again when no answer comes.

use std::collections::HashMap;
use vstd::prelude::*;
use crate::device::work::{DescSge, ToCardWorkRbDesc, ToCardWorkRbDescCommon, ToCardWorkRbDescWrite};
use crate::op_ctx::make_operation_key;
#[allow(unused_imports)]
use crate::op_ctx::operation_key;
#[allow(unused_imports)]
use crate::types::{add24, ThreeBytesStruct};
use crate::types::{Error, Msn, Pmtu, Psn, Qpn, Subject};
use crate::utils::{calculate_packet_cnt, get_first_packet_max_length};
#[allow(unused_imports)]
use crate::utils::{first_packet_max_length, packet_cnt};

verus! {

broadcast use vstd::std_specs::hash::group_hash_axioms;

/// Where packet `psn` of a transfer from `base_addr` starts, counted from there.
pub open spec fn packet_offset(base_addr: u64, pmtu: Pmtu, psn: u32) -> int {
    if psn == 0 {
        0
    } else {
        first_packet_max_length(base_addr as int, pmtu.size_spec() as int) + (psn - 1) * pmtu.size_spec()
    }
}

/// Giving the absolute PSN, return the offset to that PSN
pub fn psn_addr_offset(base_addr: u64, pmtu: Pmtu, psn: u32) -> (r: u64)
    ensures
        r == packet_offset(base_addr, pmtu, psn),
        r <= 0x1000_0000_0000,
{
    if psn == 0 {
        return 0;
    }
    let size: u32 = u32::from(&pmtu);
    let first_pkt_length: u32 = get_first_packet_max_length(base_addr, size);
    assert((psn - 1) * size <= 0xffff_fffe * 4096 && (psn - 1) * size >= 0) by (nonlinear_arith)
        requires
            1 <= psn <= 0xffff_ffff,
            0 <= size <= 4096,
    ;
    (psn as u64 - 1) * size as u64 + first_pkt_length as u64
}

/// Packets lie one after the other: each but the first starts at a multiple of
/// the packet size, right behind the one before it.
pub proof fn law_packets_are_aligned(base_addr: u64, pmtu: Pmtu, psn: u32)
    requires
        0 < psn,
    ensures
        ({
            let size = pmtu.size_spec() as int;
            let offset = packet_offset(base_addr, pmtu, psn);
            let before = packet_offset(base_addr, pmtu, (psn - 1) as u32);
            &&& (base_addr + offset) % size == 0
            &&& before < offset <= before + size
            &&& psn > 1 ==> offset == before + size
        }),
{
    let size = pmtu.size_spec() as int;
    let q = base_addr as int / size;
    vstd::arithmetic::div_mod::lemma_fundamental_div_mod(base_addr as int, size);
    let offset = packet_offset(base_addr, pmtu, psn);
    assert(base_addr + offset == (q + psn) * size) by (nonlinear_arith)
        requires
            base_addr == size * q + base_addr as int % size,
            offset == size - base_addr as int % size + (psn - 1) * size,
    ;
    vstd::arithmetic::div_mod::lemma_mod_multiples_basic(q + psn, size);
    if psn > 1 {
        assert((psn - 1) * size == (psn - 2) * size + size) by (nonlinear_arith);
    } else {
        assert((psn - 1) * size == 0) by (nonlinear_arith)
            requires
                psn == 1,
        ;
    }
}

/// A descriptor that may have to be sent again
#[derive(Debug, Clone, Copy)]
pub struct RetryContext {
    /// What was sent
    pub descriptor: ToCardWorkRbDesc,
    /// How many times it may still be sent
    pub retry_counter: u32,
    /// When it is sent again, in milliseconds
    pub next_timeout: u128,
    /// Whether it is sent again without being asked for
    pub is_initiative: bool,
}

/// The descriptors that wait for an answer, by queue pair and message
#[derive(Debug)]
pub struct RetryMap {
    max_retry: u32,
    retry_timeout: u128,
    map: HashMap<u64, RetryContext>,
}

/// What a `RetryMap` holds
pub struct RetryMapView {
    /// How many times a descriptor may be sent again
    pub max_retry: u32,
    /// How long to wait before, in milliseconds
    pub retry_timeout: u128,
    /// The descriptors, by queue pair and message
    pub map: Map<(u32, u16), RetryContext>,
}

spec fn by_operation(m: Map<u64, RetryContext>) -> Map<(u32, u16), RetryContext> {
    Map::new(|k: (u32, u16)| m.contains_key(operation_key(k.0, k.1)), |k: (u32, u16)| m[operation_key(k.0, k.1)])
}

impl View for RetryMap {
    type V = RetryMapView;

    closed spec fn view(&self) -> RetryMapView {
        RetryMapView {
            max_retry: self.max_retry,
            retry_timeout: self.retry_timeout,
            map: by_operation(self.map@),
        }
    }
}

/// The packets `from` up to `to` of a write. Its addresses and its PSN are those
/// of packet `from`, and its length goes to where packet `to` starts.
pub open spec fn cut_range(desc: ToCardWorkRbDescWrite, from: u32, to: u32) -> ToCardWorkRbDescWrite {
    let c = desc.common;
    let start = packet_offset(desc.sge0.addr, c.pmtu, from);
    let end = packet_offset(desc.sge0.addr, c.pmtu, to);
    let len = ((end - start) % 0x1_0000_0000) as u32;
    ToCardWorkRbDescWrite {
        common: ToCardWorkRbDescCommon {
            psn: Psn::of(add24(c.psn@ as int, from as int)),
            total_len: len,
            raddr: ((c.raddr + start) % 0x1_0000_0000_0000_0000) as u64,
            ..c
        },
        is_first: from == 0,
        is_last: packet_cnt(c.pmtu.size_spec() as int, c.raddr as int, c.total_len as int) - 1 == to,
        sge0: DescSge {
            addr: ((desc.sge0.addr + start) % 0x1_0000_0000_0000_0000) as u64,
            len,
            key: desc.sge0.key,
        },
        ..desc
    }
}

/// Two parts of a write adjoin: the second starts where the first one ends, in
/// both memories and in the packet numbers.
pub proof fn law_parts_adjoin(desc: ToCardWorkRbDescWrite, from: u32, middle: u32, to: u32)
    requires
        from <= middle <= to,
        packet_offset(desc.sge0.addr, desc.common.pmtu, middle) - packet_offset(
            desc.sge0.addr,
            desc.common.pmtu,
            from,
        ) <= u32::MAX,
    ensures
        ({
            let a = cut_range(desc, from, middle);
            let b = cut_range(desc, middle, to);
            &&& a.sge0.len == a.common.total_len
            &&& b.common.raddr == (a.common.raddr + a.common.total_len) % 0x1_0000_0000_0000_0000
            &&& b.sge0.addr == (a.sge0.addr + a.sge0.len) % 0x1_0000_0000_0000_0000
            &&& b.common.psn@ == add24(a.common.psn@ as int, middle - from)
        }),
{
    let c = desc.common;
    let x = packet_offset(desc.sge0.addr, c.pmtu, from);
    let y = packet_offset(desc.sge0.addr, c.pmtu, middle);
    let a = cut_range(desc, from, middle);
    let b = cut_range(desc, middle, to);
    lemma_packet_offset_ascending(desc.sge0.addr, c.pmtu, from, middle);
    assert(a.common.total_len == y - x && a.sge0.len == y - x);
    lemma_further(c.raddr, x, y);
    lemma_further(desc.sge0.addr, x, y);
    lemma_psn_further(c.psn@, from, middle);
    assert(a.common.psn@ == add24(c.psn@ as int, from as int) && b.common.psn@ == add24(c.psn@ as int, middle as int))
        by {
        broadcast use crate::types::ThreeBytesStruct::lemma_of;

    }
}

/// Going on to `x` and then to `y` is going on to `y`.
proof fn lemma_further(addr: u64, x: int, y: int)
    requires
        0 <= x <= y <= x + u32::MAX,
    ensures
        (addr + y) % 0x1_0000_0000_0000_0000 == ((addr + x) % 0x1_0000_0000_0000_0000 + (y - x))
            % 0x1_0000_0000_0000_0000,
        0 <= (addr + x) % 0x1_0000_0000_0000_0000 <= u64::MAX,
{
}

proof fn lemma_psn_further(psn: u32, from: u32, middle: u32)
    requires
        from <= middle,
    ensures
        add24(add24(psn as int, from as int) as int, middle - from) == add24(psn as int, middle as int),
{
}

/// What asking for a part of a descriptor gives: only a write has parts, and
/// only where both ends are packets of it, in order.
pub open spec fn part_of(desc: ToCardWorkRbDesc, range: Option<(u32, u32)>) -> Result<ToCardWorkRbDesc, Error> {
    match range {
        None => Ok(desc),
        Some((from, to)) => match desc {
            ToCardWorkRbDesc::Write(req) => {
                let cnt = packet_cnt(
                    req.common.pmtu.size_spec() as int,
                    req.common.raddr as int,
                    req.common.total_len as int,
                );
                if from > to || to >= cnt {
                    Err(Error::Invalid(Subject::PsnRange))
                } else {
                    Ok(ToCardWorkRbDesc::Write(cut_range(req, from, to)))
                }
            },
            _ => Err(Error::Invalid(Subject::DescriptorType)),
        },
    }
}

proof fn lemma_packet_offset_ascending(base_addr: u64, pmtu: Pmtu, from: u32, to: u32)
    requires
        from <= to,
    ensures
        0 <= packet_offset(base_addr, pmtu, from) <= packet_offset(base_addr, pmtu, to),
    decreases to,
{
    let size = pmtu.size_spec() as int;
    assert(0 < first_packet_max_length(base_addr as int, size));
    if from > 0 {
        assert(0 <= (from - 1) * size <= (to - 1) * size) by (nonlinear_arith)
            requires
                1 <= from <= to,
                size > 0,
        ;
    } else if to > 0 {
        assert(0 <= (to - 1) * size) by (nonlinear_arith)
            requires
                1 <= to,
                size > 0,
        ;
    }
}

/// The part of a descriptor that a range names
pub fn cut_descriptor(desc: &ToCardWorkRbDesc, range: Option<(u32, u32)>) -> (r: Result<Box<ToCardWorkRbDesc>, Error>)
    ensures
        match part_of(*desc, range) {
            Ok(part) => r matches Ok(d) && *d == part,
            Err(e) => r == Err::<Box<ToCardWorkRbDesc>, Error>(e),
        },
{
    let (from, to): (u32, u32) = match range {
        None => {
            return Ok(Box::new(*desc));
        },
        Some(range) => range,
    };
    match desc {
        ToCardWorkRbDesc::Write(write_desc) => {
            let mut new_desc: ToCardWorkRbDescWrite = *write_desc;
            let pmtu: Pmtu = write_desc.common.pmtu;
            let max_pkt: u32 = calculate_packet_cnt(pmtu, write_desc.common.raddr, write_desc.common.total_len);
            if from > to || from >= max_pkt || to >= max_pkt {
                return Err(Error::Invalid(Subject::PsnRange));
            }
            let start_offset: u64 = psn_addr_offset(write_desc.sge0.addr, pmtu, from);
            let end_offset: u64 = psn_addr_offset(write_desc.sge0.addr, pmtu, to);
            proof {
                lemma_packet_offset_ascending(write_desc.sge0.addr, pmtu, from, to);
            }
            let new_length: u32 = ((end_offset - start_offset) % 0x1_0000_0000) as u32;
            new_desc.is_first = from == 0;
            new_desc.is_last = max_pkt - 1 == to;
            new_desc.sge0.addr = write_desc.sge0.addr.wrapping_add(start_offset);
            new_desc.sge0.len = new_length;
            new_desc.common.psn = write_desc.common.psn.wrapping_add(from);
            new_desc.common.total_len = new_length;
            new_desc.common.raddr = write_desc.common.raddr.wrapping_add(start_offset);
            assert(new_desc == cut_range(*write_desc, from, to));
            Ok(Box::new(ToCardWorkRbDesc::Write(new_desc)))
        },
        _ => Err(Error::Invalid(Subject::DescriptorType)),
    }
}

/// Whether the time to send a descriptor again has come.
pub open spec fn is_due(ctx: RetryContext, now: u128) -> bool {
    ctx.is_initiative && ctx.next_timeout <= now
}

/// A descriptor after a look at the clock: one that is sent again has one try
/// less, and waits for another `timeout`.
pub open spec fn after_check(ctx: RetryContext, now: u128, timeout: u128) -> RetryContext {
    if is_due(ctx, now) && ctx.retry_counter > 0 {
        RetryContext {
            retry_counter: (ctx.retry_counter - 1) as u32,
            next_timeout: (now + timeout) as u128,
            ..ctx
        }
    } else {
        ctx
    }
}

/// Whether some descriptor is due and has no try left.
pub open spec fn some_exhausted(map: Map<(u32, u16), RetryContext>, now: u128) -> bool {
    exists|k: (u32, u16)| #[trigger] map.contains_key(k) && is_due(map[k], now) && map[k].retry_counter == 0
}

/// The descriptors after a look at the clock. When one is given up, all that
/// have no try left are dropped.
pub open spec fn checked(
    map: Map<(u32, u16), RetryContext>,
    now: u128,
    timeout: u128,
) -> Map<(u32, u16), RetryContext> {
    Map::new(
        |k: (u32, u16)|
            map.contains_key(k) && (some_exhausted(map, now) ==> after_check(map[k], now, timeout).retry_counter > 0),
        |k: (u32, u16)| after_check(map[k], now, timeout),
    )
}

/// What is to be done about a descriptor that is due
#[derive(Debug, Clone, Copy)]
pub enum RetryAction {
    /// Send it again
    Resend { qpn: Qpn, msn: Msn, descriptor: ToCardWorkRbDesc },
    /// Tell the user that there were too many tries
    GiveUp { qpn: Qpn, msn: Msn },
}

impl RetryAction {
    /// The operation that it is about.
    pub open spec fn operation(self) -> (u32, u16) {
        match self {
            RetryAction::Resend { qpn, msn, descriptor } => (qpn@, msn@),
            RetryAction::GiveUp { qpn, msn } => (qpn@, msn@),
        }
    }
}

/// Whether an action is the right one for a descriptor that is due.
pub open spec fn right_action(action: RetryAction, ctx: RetryContext) -> bool {
    match action {
        RetryAction::Resend { qpn, msn, descriptor } => ctx.retry_counter > 0 && descriptor == ctx.descriptor,
        RetryAction::GiveUp { qpn, msn } => ctx.retry_counter == 0,
    }
}

/// The cause that a user is told of an operation that is given up
pub const EXCEED_MAX_RETRY: &'static str = "exceed max retry count";

impl RetryMap {
    /// The map holds nothing but operations.
    pub closed spec fn wf(&self) -> bool {
        forall|k: u64| #[trigger] self.map@.contains_key(k) ==> k < 0x100_0000_0000
    }

    /// An empty map
    pub fn new(max_retry: u32, retry_timeout: u128) -> (r: Self)
        ensures
            r.wf(),
            r@ == (RetryMapView { max_retry, retry_timeout, map: Map::empty() }),
    {
        let r = Self { max_retry, retry_timeout, map: HashMap::new() };
        assert(r@.map =~= Map::empty());
        r
    }

    /// Keeps a descriptor that was sent at `now`. Where one is kept for the
    /// operation already nothing changes, and the result is true.
    pub fn add(
        &mut self,
        key: (Qpn, Msn),
        descriptor: Box<ToCardWorkRbDesc>,
        is_initiative: bool,
        now: u128,
    ) -> (r: bool)
        requires
            old(self).wf(),
        ensures
            final(self).wf(),
            r == old(self)@.map.contains_key((key.0@, key.1@)),
            r ==> final(self)@ == old(self)@,
            !r ==> final(self)@ == (RetryMapView {
                map: old(self)@.map.insert(
                    (key.0@, key.1@),
                    RetryContext {
                        descriptor: *descriptor,
                        retry_counter: old(self)@.max_retry,
                        next_timeout: ((now + old(self)@.retry_timeout) % (u128::MAX + 1))
                            as u128,
                        is_initiative,
                    },
                ),
                ..old(self)@
            }),
    {
        let ghost before = self@.map;
        let k: u64 = make_operation_key(key.0, key.1);
        assert(before.contains_key((key.0@, key.1@)) == self.map@.contains_key(k));
        if self.map.contains_key(&k) {
            return true;
        }
        let next_timeout: u128 = now.wrapping_add(self.retry_timeout);
        let ctx = RetryContext { descriptor: *descriptor, retry_counter: self.max_retry, next_timeout, is_initiative };
        let qpn: u32 = key.0.get();
        self.map.insert(k, ctx);
        proof {
            assert(k < 0x100_0000_0000);
            assert(self@.map =~= before.insert((key.0@, key.1@), ctx)) by {
                assert forall|o: (u32, u16)| operation_key(o.0, o.1) == k implies o == (key.0@, key.1@) by {}
            }
        }
        false
    }

    /// Drops the descriptor of an operation; true where there was none
    pub fn cancel(&mut self, key: (Qpn, Msn)) -> (r: bool)
        requires
            old(self).wf(),
        ensures
            final(self).wf(),
            r == !old(self)@.map.contains_key((key.0@, key.1@)),
            final(self)@ == (RetryMapView { map: old(self)@.map.remove((key.0@, key.1@)), ..old(self)@ }),
    {
        let ghost before = self@.map;
        let k: u64 = make_operation_key(key.0, key.1);
        assert(before.contains_key((key.0@, key.1@)) == self.map@.contains_key(k));
        let removed: Option<RetryContext> = self.map.remove(&k);
        proof {
            assert(self@.map =~= before.remove((key.0@, key.1@))) by {
                assert forall|o: (u32, u16)| operation_key(o.0, o.1) == k implies o == (key.0@, key.1@) by {}
            }
        }
        removed.is_none()
    }

    /// fetch the descriptor from the map.
    ///
    /// If a range is given, the descriptor will be cut into the range
    pub fn get_descritpor(
        &self,
        key: (Qpn, Msn),
        range: Option<(u32, u32)>,
    ) -> (r: Result<Option<Box<ToCardWorkRbDesc>>, Error>)
        ensures
            ({
                let o = (key.0@, key.1@);
                if !self@.map.contains_key(o) {
                    r == Ok::<Option<Box<ToCardWorkRbDesc>>, Error>(None)
                } else {
                    match part_of(self@.map[o].descriptor, range) {
                        Ok(part) => r matches Ok(Some(d)) && *d == part,
                        Err(e) => r == Err::<Option<Box<ToCardWorkRbDesc>>, Error>(e),
                    }
                }
            }),
    {
        let k: u64 = make_operation_key(key.0, key.1);
        match self.map.get(&k) {
            None => Ok(None),
            Some(ctx) => match cut_descriptor(&ctx.descriptor, range) {
                Ok(desc) => Ok(Some(desc)),
                Err(e) => Err(e),
            },
        }
    }

    /// The keys of all that is kept, each once
    fn keys(&self) -> (r: Vec<u64>)
        ensures
            r@.no_duplicates(),
            forall|k: u64| r@.contains(k) <==> #[trigger] self.map@.contains_key(k),
    {
        let mut keys: Vec<u64> = Vec::new();
        for k in it: self.map.keys()
            invariant
                keys@ == it.seq().unref().take(it.index()),
                it.seq().no_duplicates(),
                it.seq().unref().to_set() == self.map@.dom(),
                keys@.no_duplicates(),
                it.index() == it.seq().len() ==> keys@ == it.seq().unref(),
                it.index() == it.seq().len() ==> keys@.to_set() == self.map@.dom(),
        {
            proof {
                let all = it.seq().unref();
                assert(all.take(it.index() + 1) =~= all.take(it.index()).push(all[it.index()]));
                assert forall|i: int| 0 <= i < keys@.len() implies #[trigger] keys@[i] != *k by {
                    assert(keys@[i] == *it.seq()[i]);
                    assert(it.seq()[i] != it.seq()[it.index()]);
                }
                assert(all.take(all.len() as int) =~= all);
            }
            keys.push(*k);
        }
        assert forall|k: u64| keys@.contains(k) <==> #[trigger] self.map@.contains_key(k) by {
            assert(keys@.to_set().contains(k) == keys@.contains(k));
        }
        keys
    }

    /// Drops the descriptors that have no try left
    pub fn clean_exceed_timeout(&mut self)
        requires
            old(self).wf(),
        ensures
            final(self).wf(),
            final(self)@ == (RetryMapView { map: with_tries(old(self)@.map), ..old(self)@ }),
    {
        let ghost m0 = self.map@;
        let keys: Vec<u64> = self.keys();
        let mut i: usize = 0;
        while i < keys.len()
            invariant
                self.max_retry == old(self).max_retry,
                self.retry_timeout == old(self).retry_timeout,
                i <= keys@.len(),
                forall|k: u64| keys@.contains(k) <==> #[trigger] m0.contains_key(k),
                forall|k: u64| #[trigger]
                    self.map@.contains_key(k) ==> m0.contains_key(k) && self.map@[k] == m0[k],
                forall|k: u64|
                    m0.contains_key(k) && m0[k].retry_counter > 0 ==> #[trigger] self.map@.contains_key(k),
                forall|j: int|
                    0 <= j < i ==> self.map@.contains_key(#[trigger] keys@[j]) ==> m0[keys@[j]].retry_counter > 0,
            decreases keys@.len() - i,
        {
            let k: u64 = keys[i];
            if let Some(ctx) = self.map.get(&k) {
                if ctx.retry_counter == 0 {
                    self.map.remove(&k);
                }
            }
            i = i + 1;
        }
        proof {
            assert forall|k: u64| #[trigger] self.map@.contains_key(k) implies m0[k].retry_counter > 0 by {
                assert(keys@.contains(k));
            }
            assert(self@.map =~= with_tries(by_operation(m0)));
        }
    }
}

/// The descriptors that have a try left.
pub open spec fn with_tries(map: Map<(u32, u16), RetryContext>) -> Map<(u32, u16), RetryContext> {
    Map::new(|k: (u32, u16)| map.contains_key(k) && map[k].retry_counter > 0, |k: (u32, u16)| map[k])
}

/// The operation of a key
fn split_key(k: u64) -> (r: (Qpn, Msn))
    requires
        k < 0x100_0000_0000,
    ensures
        operation_key(r.0@, r.1@) == k,
{
    (Qpn::new((k / 0x1_0000) as u32), Msn::new((k % 0x1_0000) as u16))
}

/// Whether the actions are one for each descriptor that is due, the right one.
pub open spec fn answers(actions: Seq<RetryAction>, map: Map<(u32, u16), RetryContext>, now: u128) -> bool {
    &&& forall|a: int|
        0 <= a < actions.len() ==> {
            let o = (#[trigger] actions[a]).operation();
            map.contains_key(o) && is_due(map[o], now) && right_action(actions[a], map[o])
        }
    &&& forall|a: int, b: int|
        0 <= a < b < actions.len() ==> (#[trigger] actions[a]).operation() != (#[trigger] actions[b]).operation()
    &&& forall|o: (u32, u16)| #[trigger]
        map.contains_key(o) && is_due(map[o], now) ==> exists|a: int|
            0 <= a < actions.len() && (#[trigger] actions[a]).operation() == o
}

/// Typically the checking_interval should at most 1% of retry_timeout
/// So that the retrying won't drift too much
#[derive(Debug, Clone, Copy, PartialEq, Eq, Structural)]
pub struct RetryConfig {
    /// Whether descriptors are sent again at all
    pub is_enable: bool,
    /// How many times
    pub max_retry: u32,
    /// How long to wait before, in milliseconds
    pub retry_timeout: u128,
    /// How long to wait between two looks at the clock, in milliseconds
    pub checking_interval: u128,
}

impl RetryConfig {
    /// Create a new retry config
    pub fn new(is_enable: bool, max_retry: u32, retry_timeout: u128, checking_interval: u128) -> (r: Self)
        ensures
            r == (RetryConfig { is_enable, max_retry, retry_timeout, checking_interval }),
    {
        Self { is_enable, max_retry, retry_timeout, checking_interval }
    }
}

/// What is needed to keep a descriptor for sending it again
#[derive(Debug, Clone, Copy)]
pub struct RetryRecord {
    pub descriptor: ToCardWorkRbDesc,
    pub qpn: Qpn,
    pub msn: Msn,
    pub initiative: bool,
}

impl RetryRecord {
    /// Create a new record
    pub fn new(descriptor: Box<ToCardWorkRbDesc>, qpn: Qpn, msn: Msn, initiative: bool) -> (r: Self)
        ensures
            r == (RetryRecord { descriptor: *descriptor, qpn, msn, initiative }),
    {
        Self { descriptor: *descriptor, qpn, msn, initiative }
    }
}

/// Looks at the clock, again and again
#[derive(Debug)]
pub struct RetryMonitorContext {
    pub map: RetryMap,
    pub config: RetryConfig,
}

impl RetryMonitorContext {
    /// Looks for descriptors that are due at `now`, and says what is to be done
    /// about each.
    pub fn check_timeout(&mut self, now: u128) -> (actions: Vec<RetryAction>)
        requires
            old(self).map.wf(),
            now + old(self).config.retry_timeout <= u128::MAX,
        ensures
            final(self).map.wf(),
            final(self).config == old(self).config,
            final(self).map@ == (RetryMapView {
                map: checked(old(self).map@.map, now, old(self).config.retry_timeout),
                ..old(self).map@
            }),
            answers(actions@, old(self).map@.map, now),
    {
        let ghost m0 = self.map.map@;
        let ghost v0 = self.map@.map;
        let timeout: u128 = self.config.retry_timeout;
        let keys: Vec<u64> = self.map.keys();
        let mut actions: Vec<RetryAction> = Vec::new();
        let ghost mut idx: Seq<int> = Seq::empty();
        let mut has_removed: bool = false;
        let mut i: usize = 0;
        while i < keys.len()
            invariant
                self.config == old(self).config,
                timeout == self.config.retry_timeout,
                now + timeout <= u128::MAX,
                self.map.max_retry == old(self).map.max_retry,
                self.map.retry_timeout == old(self).map.retry_timeout,
                forall|k: u64| #[trigger] m0.contains_key(k) ==> k < 0x100_0000_0000,
                i <= keys@.len(),
                keys@.no_duplicates(),
                forall|k: u64| keys@.contains(k) <==> #[trigger] m0.contains_key(k),
                self.map.map@.dom() =~= m0.dom(),
                forall|j: int|
                    0 <= j < keys@.len() ==> self.map.map@[#[trigger] keys@[j]] == (if j < i {
                        after_check(m0[keys@[j]], now, timeout)
                    } else {
                        m0[keys@[j]]
                    }),
                has_removed == exists|j: int|
                    0 <= j < i && is_due(m0[#[trigger] keys@[j]], now) && m0[keys@[j]].retry_counter == 0,
                idx.len() == actions@.len(),
                forall|a: int|
                    0 <= a < idx.len() ==> 0 <= #[trigger] idx[a] < i && is_due(m0[keys@[idx[a]]], now),
                forall|a: int|
                    0 <= a < idx.len() ==> {
                        let act = #[trigger] actions@[a];
                        let k = keys@[idx[a]];
                        operation_key(act.operation().0, act.operation().1) == k && right_action(act, m0[k])
                    },
                forall|a: int, b: int| 0 <= a < b < idx.len() ==> #[trigger] idx[a] < #[trigger] idx[b],
                forall|j: int| 0 <= j < i && is_due(m0[#[trigger] keys@[j]], now) ==> idx.contains(j),
            decreases keys@.len() - i,
        {
            let k: u64 = keys[i];
            assert(keys@.contains(k));
            assert(m0.contains_key(k));
            let ghost acts0 = actions@;
            let ghost idx0 = idx;
            let found: Option<&RetryContext> = self.map.map.get(&k);
            if let Some(found) = found {
                let ctx: RetryContext = *found;
                if ctx.is_initiative && ctx.next_timeout <= now {
                    let (qpn, msn): (Qpn, Msn) = split_key(k);
                    if ctx.retry_counter > 0 {
                        let next = RetryContext {
                            descriptor: ctx.descriptor,
                            retry_counter: ctx.retry_counter - 1,
                            next_timeout: now + timeout,
                            is_initiative: ctx.is_initiative,
                        };
                        self.map.map.insert(k, next);
                        actions.push(RetryAction::Resend { qpn, msn, descriptor: ctx.descriptor });
                    } else {
                        // Encounter max retry, remove it and tell user the error
                        has_removed = true;
                        actions.push(RetryAction::GiveUp { qpn, msn });
                    }
                    proof {
                        idx = idx.push(i as int);
                    }
                }
            }
            proof {
                assert forall|j: int| 0 <= j < i + 1 && is_due(m0[#[trigger] keys@[j]], now) implies idx.contains(
                    j,
                ) by {
                    if j < i {
                        let a = choose|a: int| 0 <= a < idx0.len() && idx0[a] == j;
                        assert(idx[a] == j);
                    } else {
                        assert(idx[idx.len() - 1] == j);
                    }
                }
            }
            i = i + 1;
        }
        proof {
            assert forall|k: u64| #[trigger] m0.contains_key(k) implies self.map.map@[k] == after_check(
                m0[k],
                now,
                timeout,
            ) by {
                assert(keys@.contains(k));
                let j = choose|j: int| 0 <= j < keys@.len() && keys@[j] == k;
                assert(keys@[j] == k);
            }
            assert(has_removed == some_exhausted(v0, now)) by {
                if has_removed {
                    let j = choose|j: int|
                        0 <= j < keys@.len() && is_due(m0[#[trigger] keys@[j]], now) && m0[keys@[j]].retry_counter
                            == 0;
                    assert(keys@.contains(keys@[j]));
                    lemma_operation(m0, keys@[j]);
                    let o = ((keys@[j] / 0x1_0000) as u32, (keys@[j] % 0x1_0000) as u16);
                    assert(v0.contains_key(o));
                }
                if some_exhausted(v0, now) {
                    let o = choose|o: (u32, u16)| #[trigger]
                        v0.contains_key(o) && is_due(v0[o], now) && v0[o].retry_counter == 0;
                    let k = operation_key(o.0, o.1);
                    assert(m0.contains_key(k));
                    assert(keys@.contains(k));
                    let j = choose|j: int| 0 <= j < keys@.len() && keys@[j] == k;
                    assert(is_due(m0[keys@[j]], now));
                }
            }
            assert(answers(actions@, v0, now)) by {
                assert forall|a: int| 0 <= a < actions@.len() implies {
                    let o = (#[trigger] actions@[a]).operation();
                    v0.contains_key(o) && is_due(v0[o], now) && right_action(actions@[a], v0[o])
                } by {
                    let k = keys@[idx[a]];
                    assert(keys@.contains(k));
                    assert(m0.contains_key(k));
                }
                assert forall|a: int, b: int| 0 <= a < b < actions@.len() implies (
                #[trigger] actions@[a]).operation() != (#[trigger] actions@[b]).operation() by {
                    assert(idx[a] < idx[b]);
                    assert(keys@[idx[a]] != keys@[idx[b]]);
                }
                assert forall|o: (u32, u16)| #[trigger] v0.contains_key(o) && is_due(v0[o], now) implies exists|
                    a: int,
                |
                    0 <= a < actions@.len() && (#[trigger] actions@[a]).operation() == o by {
                    let k = operation_key(o.0, o.1);
                    assert(m0.contains_key(k));
                    assert(keys@.contains(k));
                    let j = choose|j: int| 0 <= j < keys@.len() && keys@[j] == k;
                    assert(is_due(m0[keys@[j]], now));
                    assert(idx.contains(j));
                    let a = choose|a: int| 0 <= a < idx.len() && idx[a] == j;
                    assert(actions@[a].operation() == o);
                }
            }
        }
        if has_removed {
            self.map.clean_exceed_timeout();
        }
        assert(self.map@.map =~= checked(v0, now, timeout));
        actions
    }
}

proof fn lemma_operation(m: Map<u64, RetryContext>, k: u64)
    requires
        m.contains_key(k),
        k < 0x100_0000_0000,
    ensures
        ({
            let o = ((k / 0x1_0000) as u32, (k % 0x1_0000) as u16);
            by_operation(m).contains_key(o) && by_operation(m)[o] == m[k]
        }),
{
}

/// An operation that is retried is given up: each look at the clock that finds
/// it due takes one of its tries, and one that finds it due without a try left
/// drops it. One that is not due, or not to be sent on its own, keeps its tries.
pub proof fn law_tries_run_out(map: Map<(u32, u16), RetryContext>, o: (u32, u16), now: u128, timeout: u128)
    requires
        map.contains_key(o),
        now + timeout <= u128::MAX,
    ensures
        ({
            let ctx = map[o];
            let after = checked(map, now, timeout);
            &&& is_due(ctx, now) && ctx.retry_counter == 0 ==> !after.contains_key(o)
            &&& is_due(ctx, now) && ctx.retry_counter > 1 ==> after.contains_key(o) && after[o].retry_counter
                == ctx.retry_counter - 1 && after[o].next_timeout == now + timeout
            &&& !is_due(ctx, now) && ctx.retry_counter > 0 ==> after.contains_key(o) && after[o] == ctx
            &&& after.contains_key(o) ==> after[o].descriptor == ctx.descriptor
        }),
{
}

/// A part of a write starts where its first packet does. In the local memory that
/// is the write's start for the first packet, and a multiple of the packet size
/// for every other one; the remote memory is gone on in as far as the local one.
/// It reaches to where its last packet starts, carries the number of its first
/// packet, and says no other than the write of where it goes and what it is.
pub proof fn law_part_starts_at_its_packet(desc: ToCardWorkRbDescWrite, from: u32, to: u32)
    requires
        from <= to,
        to < packet_cnt(desc.common.pmtu.size_spec() as int, desc.common.raddr as int, desc.common.total_len as int),
    ensures
        part_of(ToCardWorkRbDesc::Write(desc), Some((from, to))) matches Ok(ToCardWorkRbDesc::Write(p)) && {
            let size = desc.common.pmtu.size_spec() as int;
            let first = desc.sge0.addr as int / size;
            let m = 0x1_0000_0000_0000_0000int;
            &&& from == 0 ==> p.sge0.addr == desc.sge0.addr && p.common.raddr == desc.common.raddr
            &&& from > 0 ==> p.sge0.addr == ((first + from) * size) % m
            &&& (p.common.raddr - desc.common.raddr) % m == (p.sge0.addr - desc.sge0.addr) % m
            &&& from > 0 && (to - from) * size <= u32::MAX ==> p.sge0.len == (to - from) * size
            &&& from == 0 && to == 0 ==> p.sge0.len == 0
            &&& from == 0 && to > 0 && (first + to) * size - desc.sge0.addr <= u32::MAX ==> desc.sge0.addr + p.sge0.len == (
            first + to) * size
            &&& p.common.total_len == p.sge0.len
            &&& p.common.psn@ == (desc.common.psn@ + from) % 0x100_0000
            &&& p.is_first <==> from == 0
            &&& p.is_last <==> to + 1 == packet_cnt(size, desc.common.raddr as int, desc.common.total_len as int)
            &&& p.sge0.key == desc.sge0.key
            &&& p.sge1 == desc.sge1 && p.sge2 == desc.sge2 && p.sge3 == desc.sge3
            &&& p.common.rkey == desc.common.rkey
            &&& p.common.dqpn == desc.common.dqpn
            &&& p.common.msn == desc.common.msn
            &&& p.common.pmtu == desc.common.pmtu
            &&& p.common.flags == desc.common.flags
            &&& p.common.qp_type == desc.common.qp_type
            &&& p.common.dqp_ip == desc.common.dqp_ip
            &&& p.common.mac_addr == desc.common.mac_addr
        },
{
    let c = desc.common;
    let addr = desc.sge0.addr;
    let start = packet_offset(addr, c.pmtu, from);
    ThreeBytesStruct::lemma_of(add24(c.psn@ as int, from as int));
    lemma_packet_offset_ascending(addr, c.pmtu, from, to);
    lemma_packet_at(addr, c.pmtu, from);
    lemma_packet_at(addr, c.pmtu, to);
    let size = c.pmtu.size_spec() as int;
    let first = addr as int / size;
    assert((first + to) * size - (first + from) * size == (to - from) * size) by (nonlinear_arith);
    lemma_gone_on(c.raddr as int, start);
    lemma_gone_on(addr as int, start);
}

/// Each packet but the first starts at its multiple of the packet size.
proof fn lemma_packet_at(addr: u64, pmtu: Pmtu, psn: u32)
    ensures
        psn > 0 ==> addr + packet_offset(addr, pmtu, psn) == (addr as int / pmtu.size_spec() as int + psn)
            * pmtu.size_spec(),
{
    let size = pmtu.size_spec() as int;
    let q = addr as int / size;
    let offset = packet_offset(addr, pmtu, psn);
    vstd::arithmetic::div_mod::lemma_fundamental_div_mod(addr as int, size);
    if psn > 0 {
        assert(addr + offset == (q + psn) * size) by (nonlinear_arith)
            requires
                addr == size * q + addr as int % size,
                offset == size - addr as int % size + (psn - 1) * size,
        ;
    }
}

/// How far an address was gone on from.
proof fn lemma_gone_on(addr: int, x: int)
    requires
        0 <= addr <= u64::MAX,
    ensures
        ((addr + x) % 0x1_0000_0000_0000_0000 - addr) % 0x1_0000_0000_0000_0000 == x % 0x1_0000_0000_0000_0000,
{
}

/// Each operation that is due is sent again as it was first sent, if it has a try
/// left; else its user is told. Nothing is done about one that is not due.
pub proof fn law_due_operation_is_tried(
    actions: Seq<RetryAction>,
    map: Map<(u32, u16), RetryContext>,
    now: u128,
    o: (u32, u16),
)
    requires
        answers(actions, map, now),
        map.contains_key(o),
    ensures
        ({
            let ctx = map[o];
            let due = ctx.is_initiative && ctx.next_timeout <= now;
            &&& due && ctx.retry_counter > 0 ==> exists|a: int|
                0 <= a < actions.len() && (#[trigger] actions[a] matches RetryAction::Resend { qpn, msn, descriptor }
                    && qpn@ == o.0 && msn@ == o.1 && descriptor == ctx.descriptor)
            &&& due && ctx.retry_counter == 0 ==> exists|a: int|
                0 <= a < actions.len() && (#[trigger] actions[a] matches RetryAction::GiveUp { qpn, msn } && qpn@ == o.0
                    && msn@ == o.1)
            &&& !due ==> forall|a: int|
                0 <= a < actions.len() ==> match #[trigger] actions[a] {
                    RetryAction::Resend { qpn, msn, descriptor } => qpn@ != o.0 || msn@ != o.1,
                    RetryAction::GiveUp { qpn, msn } => qpn@ != o.0 || msn@ != o.1,
                }
        }),
{
    let ctx = map[o];
    let due = ctx.is_initiative && ctx.next_timeout <= now;
    if due {
        assert(is_due(ctx, now));
        let a = choose|a: int| 0 <= a < actions.len() && (#[trigger] actions[a]).operation() == o;
        assert(right_action(actions[a], map[o]));
    } else {
        assert forall|a: int| 0 <= a < actions.len() implies match #[trigger] actions[a] {
            RetryAction::Resend { qpn, msn, descriptor } => qpn@ != o.0 || msn@ != o.1,
            RetryAction::GiveUp { qpn, msn } => qpn@ != o.0 || msn@ != o.1,
        } by {
            assert(actions[a].operation() != o);
        }
    }
}

} // verus!
