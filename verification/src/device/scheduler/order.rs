//! What sending the packets of a write in another order amounts to.

use vstd::prelude::*;
#[allow(unused_imports)]
use vstd::arithmetic::div_mod::{lemma_fundamental_div_mod, lemma_fundamental_div_mod_converse};
#[allow(unused_imports)]
use crate::device::scheduler::{
    all_runs, lemma_packet_start, lemma_packet_start_ascending, packet_start, reordered, run_part, runs,
};
#[allow(unused_imports)]
use crate::device::work::{ToCardWorkRbDesc, ToCardWorkRbDescWrite};
#[allow(unused_imports)]
use crate::types::{add24, Pmtu, ThreeBytesStruct};
#[allow(unused_imports)]
use crate::utils::{first_packet_max_length, packet_cnt};

verus! {

/// The numbers of a run, one after the other.
pub open spec fn numbers_of(run: (i32, i32)) -> Seq<int> {
    Seq::new((run.1 - run.0 + 1) as nat, |i: int| run.0 + i)
}

/// The numbers of the first `n` runs, one run after the other.
pub open spec fn numbers(rs: Seq<(i32, i32)>, n: nat) -> Seq<int>
    decreases n,
{
    if n == 0 {
        Seq::empty()
    } else {
        numbers(rs, (n - 1) as nat) + numbers_of(rs[n - 1])
    }
}

/// Runs whose first ones agree have the same first numbers.
proof fn lemma_numbers_agree(rs: Seq<(i32, i32)>, ts: Seq<(i32, i32)>, n: nat)
    requires
        forall|i: int| 0 <= i < n ==> rs[i] == ts[i],
    ensures
        numbers(rs, n) == numbers(ts, n),
    decreases n,
{
    if n > 0 {
        lemma_numbers_agree(rs, ts, (n - 1) as nat);
    }
}

/// The runs of the first numbers give those numbers back.
proof fn lemma_numbers(order: Seq<i32>, n: nat)
    requires
        1 <= n <= order.len(),
    ensures
        ({
            let rs = runs(order, n);
            let ns = numbers(rs, rs.len());
            &&& rs.len() > 0
            &&& rs.last().0 <= rs.last().1
            &&& rs.last().1 == (if n == 1 {
                0
            } else {
                order[n - 1]
            })
            &&& ns.len() == n
            &&& forall|i: int| 0 < i < n ==> #[trigger] ns[i] == order[i]
            &&& ns[0] == 0
        }),
    decreases n,
{
    let rs = runs(order, n);
    if n == 1 {
        assert(rs =~= seq![(0i32, 0i32)]);
        assert(numbers(rs, 0) =~= Seq::<int>::empty());
        assert(numbers(rs, 1) =~= numbers_of((0i32, 0i32)));
    } else {
        lemma_numbers(order, (n - 1) as nat);
        let before = runs(order, (n - 1) as nat);
        let m = (before.len() - 1) as nat;
        let i = order[n - 1];
        let last = before.last().1;
        lemma_numbers_agree(before, rs, m);
        if i == last + 1 {
            assert(numbers_of(rs[m as int]) =~= numbers_of(before[m as int]).push(i as int));
            assert(numbers(rs, rs.len()) =~= numbers(before, before.len()).push(i as int));
        } else {
            lemma_numbers_agree(before, rs, before.len());
            assert(numbers_of((i, i)) =~= seq![i as int]);
            assert(numbers(rs, rs.len()) =~= numbers(before, before.len()).push(i as int));
        }
    }
}

/// A write that is reordered is sent packet by packet in the order that was asked
/// for, but that it starts with its first packet: the packets of its parts, one
/// part after the other, are those of the order.
pub proof fn law_parts_follow_the_order(desc: ToCardWorkRbDescWrite, order: Seq<i32>)
    requires
        order.len() > 1,
    ensures
        ({
            let rs = all_runs(order);
            let sent = numbers(rs, rs.len());
            let parts = reordered(ToCardWorkRbDesc::Write(desc), order);
            &&& parts.len() == rs.len()
            &&& forall|k: int| 0 <= k < parts.len() ==> #[trigger] parts[k] == run_part(desc, rs[k])
            &&& sent.len() == order.len()
            &&& sent[0] == 0
            &&& forall|i: int| 0 < i < order.len() ==> #[trigger] sent[i] == order[i]
        }),
{
    lemma_numbers(order, order.len());
}

/// Packet `i` starts at its multiple of the packet size.
proof fn lemma_packet_start_at(pmtu: Pmtu, raddr: u64, total_len: u32, i: int)
    requires
        0 < i < packet_cnt(pmtu.size_spec() as int, raddr as int, total_len as int),
    ensures
        raddr + packet_start(pmtu, raddr, total_len, i) == (raddr as int / pmtu.size_spec() as int + i)
            * pmtu.size_spec(),
{
    let p = pmtu.size_spec() as int;
    let q = raddr as int / p;
    let start = packet_start(pmtu, raddr, total_len, i);
    lemma_fundamental_div_mod(raddr as int, p);
    assert(raddr + start == (q + i) * p) by (nonlinear_arith)
        requires
            raddr == p * q + raddr as int % p,
            start == p - raddr as int % p + (i - 1) * p,
    ;
}

/// The last packet ends where the transfer does, if that is inside a packet.
proof fn lemma_packet_start_end(pmtu: Pmtu, raddr: u64, total_len: u32)
    requires
        packet_cnt(pmtu.size_spec() as int, raddr as int, total_len as int) > 1,
        (raddr + total_len) % pmtu.size_spec() as int != 0,
    ensures
        packet_start(
            pmtu,
            raddr,
            total_len,
            packet_cnt(pmtu.size_spec() as int, raddr as int, total_len as int),
        ) == total_len,
{
    let p = pmtu.size_spec() as int;
    let first = first_packet_max_length(raddr as int, p);
    let cnt = packet_cnt(p, raddr as int, total_len as int);
    let rest = total_len - first;
    let c = cnt - 1;
    let q = raddr as int / p;
    lemma_fundamental_div_mod(raddr as int, p);
    lemma_fundamental_div_mod(rest, p);
    lemma_fundamental_div_mod(rest + p - 1, p);
    let k = rest / p;
    let r = rest % p;
    if r == 0 {
        assert(raddr + total_len == (q + 1 + k) * p) by (nonlinear_arith)
            requires
                raddr == p * q + raddr as int % p,
                first == p - raddr as int % p,
                rest == total_len - first,
                rest == p * k + r,
                r == 0,
        ;
        vstd::arithmetic::div_mod::lemma_mod_multiples_basic(q + 1 + k, p);
        assert(false);
    }
    assert(rest + p - 1 == (k + 1) * p + (r - 1)) by (nonlinear_arith)
        requires
            rest == p * k + r,
    ;
    lemma_fundamental_div_mod_converse(rest + p - 1, p, k + 1, r - 1);
    assert(c == k + 1);
    assert((c - 1) * p == p * k) by (nonlinear_arith)
        requires
            c == k + 1,
    ;
}

/// What a part of a reordered write is. It carries the packets of its run: it starts
/// where the first of them does, at a multiple of the packet size but for the
/// write's first packet, and ends where the packet after the last one starts, or
/// with the write. It is as far into the local memory as into the remote one, has
/// the number of its first packet, and else says what the write says.
pub proof fn law_part_carries_its_packets(desc: ToCardWorkRbDescWrite, run: (i32, i32))
    requires
        ({
            let c = desc.common;
            let start = packet_start(c.pmtu, c.raddr, c.total_len, run.0 as int);
            &&& 0 <= run.0 <= run.1
            &&& run.1 < packet_cnt(c.pmtu.size_spec() as int, c.raddr as int, c.total_len as int)
            &&& c.raddr + start <= u64::MAX
            &&& desc.sge0.addr + start <= u64::MAX
        }),
    ensures
        run_part(desc, run) matches ToCardWorkRbDesc::Write(p) && {
            let c = desc.common;
            let size = c.pmtu.size_spec() as int;
            let cnt = packet_cnt(size, c.raddr as int, c.total_len as int);
            let block = c.raddr as int / size;
            &&& run.0 == 0 ==> p.common.raddr == c.raddr
            &&& run.0 > 0 ==> p.common.raddr == (block + run.0) * size
            &&& p.sge0.addr - desc.sge0.addr == p.common.raddr - c.raddr
            &&& run.1 < cnt - 1 ==> p.common.raddr + p.common.total_len == (block + run.1 + 1) * size
            &&& run.1 == cnt - 1 && cnt > 1 && (c.raddr + c.total_len) % size != 0 ==> p.common.raddr + p.common.total_len
                == c.raddr + c.total_len
            &&& p.sge0.len == p.common.total_len
            &&& p.common.psn@ == (c.psn@ + run.0) % 0x100_0000
            &&& p.is_first <==> run.0 == 0
            &&& p.is_last <==> run.1 == cnt - 1
            &&& p.sge0.key == desc.sge0.key
            &&& p.sge1 == desc.sge1 && p.sge2 == desc.sge2 && p.sge3 == desc.sge3
            &&& p.common.rkey == c.rkey
            &&& p.common.dqpn == c.dqpn
            &&& p.common.msn == c.msn
            &&& p.common.pmtu == c.pmtu
            &&& p.common.flags == c.flags
            &&& p.common.qp_type == c.qp_type
            &&& p.common.dqp_ip == c.dqp_ip
            &&& p.common.mac_addr == c.mac_addr
        },
{
    let c = desc.common;
    let size = c.pmtu.size_spec() as int;
    let cnt = packet_cnt(size, c.raddr as int, c.total_len as int);
    lemma_packet_start(c.pmtu, c.raddr, c.total_len, run.0 as int);
    lemma_packet_start(c.pmtu, c.raddr, c.total_len, run.1 as int);
    lemma_packet_start_ascending(c.pmtu, c.raddr, c.total_len, run.0 as int, run.1 + 1);
    ThreeBytesStruct::lemma_of(add24(c.psn@ as int, run.0 as int));
    if run.0 > 0 {
        lemma_packet_start_at(c.pmtu, c.raddr, c.total_len, run.0 as int);
    }
    if run.1 < cnt - 1 {
        lemma_packet_start_at(c.pmtu, c.raddr, c.total_len, run.1 + 1);
    } else if cnt > 1 && (c.raddr + c.total_len) % size != 0 {
        lemma_packet_start_end(c.pmtu, c.raddr, c.total_len);
    }
}

} // verus!
