//! What the checker makes of a whole message, in whatever order its packets come.

use vstd::prelude::*;
#[allow(unused_imports)]
use crate::checker::{
    after_all, continuous_range, distinct, find, law_complete_message_is_answered, law_range_is_forward, lemma_find,
    lemma_find_is, msn_status, per_qp, CheckState, CheckerAction, CtxView, PacketCheckEvent, PerQpView,
    RecentQpMsnStatus,
};
#[allow(unused_imports)]
use crate::device::work::{ToHostWorkRbDescWriteOrReadResp, ToHostWorkRbDescWriteType};
#[allow(unused_imports)]
use crate::qp::{QpContext, QpStatus};
#[allow(unused_imports)]
use crate::types::{add24, sub24, Msn, Pmtu, Psn, Qpn, ThreeBytesStruct, PSN_MAX_WINDOW_SIZE};
#[allow(unused_imports)]
use crate::utils::packet_cnt;
#[allow(unused_imports)]
use crate::window::{
    ascending, covered, law_insert_adds_the_range, law_window_complete, lemma_upto, merged, separated, upto, Interval,
    WindowView,
};

verus! {

/// Which packet of a message a report is about, counted from the message's first
/// packet, which has the number `start`.
pub open spec fn place(event: PacketCheckEvent, start: Psn) -> int {
    sub24(event->Write_0.psn@ as int, start@ as int) as int
}

/// A report of one of the `n` packets of a message.
pub open spec fn of_message(event: PacketCheckEvent, qpn: Qpn, msn: Msn, start: Psn, n: int, is_read_resp: bool) -> bool {
    &&& event matches PacketCheckEvent::Write(e)
    &&& e.common.dqpn == qpn
    &&& e.common.msn == msn
    &&& e.is_read_resp == is_read_resp
    &&& e.psn@ <= 0xff_ffff
    &&& e.common.expected_psn@ <= 0xff_ffff
    &&& place(event, start) < n
    &&& e.write_type == (if place(event, start) == 0 {
        ToHostWorkRbDescWriteType::First
    } else if place(event, start) == n - 1 {
        ToHostWorkRbDescWriteType::Last
    } else {
        ToHostWorkRbDescWriteType::Middle
    })
}

/// Packet `x` has been reported.
pub open spec fn reported(events: Seq<PacketCheckEvent>, start: Psn, x: int) -> bool {
    exists|k: int| 0 <= k < events.len() && place(#[trigger] events[k], start) == x
}

/// All of `n` packets have been reported.
pub open spec fn all_reported(events: Seq<PacketCheckEvent>, start: Psn, n: int) -> bool {
    forall|x: int| 0 <= x < n ==> #[trigger] reported(events, start, x)
}

/// A packet came in its turn: it is the one that the card expected.
pub open spec fn in_its_turn(event: PacketCheckEvent) -> bool {
    event->Write_0.common.expected_psn == event->Write_0.psn
}

/// What the card expects follows from what came: it is the packet after one that
/// was reported before, and after the last one as long as all came in their turn.
pub open spec fn expects_rightly(status: QpStatus, events: Seq<PacketCheckEvent>, start: Psn, k: int) -> bool {
    let before = sub24(events[k]->Write_0.common.expected_psn@ - 1, start@ as int) as int;
    &&& reported(events.take(k), start, before)
    &&& status == QpStatus::Normal && (forall|j: int| 0 <= j < k ==> in_its_turn(#[trigger] events[j])) ==> before == k - 1
}

/// The number of the newest packet that the checker knows of when a message
/// starts, counted from the message's first packet.
pub open spec fn newest_at_start(s: CheckState, qpn: Qpn, first: PacketCheckEvent) -> int {
    let e = first->Write_0;
    let largest = per_qp(
        s.recv,
        qpn@,
        if in_its_turn(first) {
            0
        } else {
            e.psn@
        },
    ).largest;
    sub24(largest as int, e.psn@ as int) as int
}

/// The reports of a message of `n` packets, the first packet first and the others
/// in any order, some perhaps more than once, to a checker that has not heard of
/// the message. The newest packet that it knows of does not lie so far ahead that
/// it counts as newer than some of the message's packets, and as older than
/// others.
pub open spec fn delivered(
    s: CheckState,
    events: Seq<PacketCheckEvent>,
    qpn: Qpn,
    msn: Msn,
    n: int,
    is_read_resp: bool,
) -> bool {
    let e = events[0]->Write_0;
    let newest = newest_at_start(s, qpn, events[0]);
    &&& events.len() > 0
    &&& s.qps.contains_key(qpn@)
    &&& s.qps[qpn@].status == QpStatus::OutOfOrder ==> s.recv.contains_key(qpn@)
    &&& s.recv.contains_key(qpn@) ==> distinct(s.recv[qpn@].ctxs) && s.recv[qpn@].recent.len() == 16
        && !s.recv[qpn@].has(msn@)
    &&& msn_status(s.recv, qpn@, msn@) == RecentQpMsnStatus::NoExist
    &&& n == packet_cnt(s.qps[qpn@].pmtu.size_spec() as int, e.addr as int, e.len as int)
    &&& 2 <= n <= PSN_MAX_WINDOW_SIZE
    &&& newest < PSN_MAX_WINDOW_SIZE || newest >= PSN_MAX_WINDOW_SIZE + n - 1
    &&& forall|k: int| 0 <= k < events.len() ==> of_message(#[trigger] events[k], qpn, msn, e.psn, n, is_read_resp)
    &&& forall|k: int|
        0 < k < events.len() ==> #[trigger] expects_rightly(
            s.qps[qpn@].status,
            events,
            e.psn,
            k,
        )
}

/// The answer to a message: who reads is woken up, and a write is acknowledged with
/// its last packet.
pub open spec fn is_answer(action: CheckerAction, qpn: Qpn, msn: Msn, last: u32, is_read_resp: bool) -> bool {
    if is_read_resp {
        action == (CheckerAction::WakeUp { qpn, msn })
    } else {
        action is SendAck && action->SendAck_qpn == qpn && action->SendAck_msn == msn && action->SendAck_psn@ == last
    }
}

/// Nothing was asked for but that the card goes on.
pub open spec fn only_recoveries(before: Seq<CheckerAction>, after: Seq<CheckerAction>) -> bool {
    &&& before.len() <= after.len()
    &&& after.take(before.len() as int) == before
    &&& forall|i: int| before.len() <= i < after.len() ==> (#[trigger] after[i]) is Recover
}

/// One answer was asked for, and else nothing but that the card goes on.
pub open spec fn answered_once(
    before: Seq<CheckerAction>,
    after: Seq<CheckerAction>,
    qpn: Qpn,
    msn: Msn,
    last: u32,
    is_read_resp: bool,
) -> bool {
    &&& before.len() < after.len()
    &&& after.take(before.len() as int) == before
    &&& exists|k: int|
        {
            &&& before.len() <= k < after.len()
            &&& is_answer(#[trigger] after[k], qpn, msn, last, is_read_resp)
            &&& forall|i: int| before.len() <= i < after.len() && i != k ==> (#[trigger] after[i]) is Recover
        }
}

/// All packets of a message came in their turn, on a queue pair whose order was not
/// lost.
pub open spec fn all_in_turn(s: CheckState, events: Seq<PacketCheckEvent>, qpn: Qpn) -> bool {
    &&& s.qps[qpn@].status == QpStatus::Normal
    &&& forall|j: int| 0 <= j < events.len() ==> in_its_turn(#[trigger] events[j])
}

/// The checker knows the message.
spec fn known(t: CheckState, qpn: Qpn, msn: Msn) -> bool {
    let p = t.recv[qpn@];
    &&& t.recv.contains_key(qpn@)
    &&& distinct(p.ctxs)
    &&& p.recent.len() == 16
    &&& p.recent[(msn@ % 16) as int] == (msn@, RecentQpMsnStatus::Processing)
    &&& p.has(msn@)
}

/// How many other messages were being received when the message started.
spec fn others(s: CheckState, qpn: Qpn) -> int {
    if s.recv.contains_key(qpn@) {
        s.recv[qpn@].ctxs.len() as int
    } else {
        0
    }
}

/// The checker after the first packets of a message came in their turn.
spec fn waiting(s: CheckState, t: CheckState, first: PacketCheckEvent, qpn: Qpn, msn: Msn) -> bool {
    let e = first->Write_0;
    let p = t.recv[qpn@];
    let ctx = p.ctx(msn@);
    &&& known(t, qpn, msn)
    &&& t.qps == s.qps
    &&& s.qps[qpn@].status == QpStatus::Normal
    &&& t.actions == s.actions
    &&& ctx.is_read_resp == e.is_read_resp
    &&& ctx.start_addr == e.addr
    &&& ctx.len == e.len
    &&& ctx.start_psn == e.psn@
    &&& sub24(p.largest as int, e.psn@ as int) == newest_at_start(s, qpn, first)
    &&& p.ctxs.len() == others(s, qpn) + 1
}

/// The checker after packets of a message came, of which one did not come in its
/// turn; before that one came the first `m` in their turn.
spec fn recorded(
    s: CheckState,
    t: CheckState,
    part: Seq<PacketCheckEvent>,
    qpn: Qpn,
    msn: Msn,
    n: int,
    m: int,
) -> bool {
    let e = part[0]->Write_0;
    let p = t.recv[qpn@];
    let ctx = p.ctx(msn@);
    let w = ctx.window->0;
    let newest = sub24(p.largest as int, e.psn@ as int);
    &&& known(t, qpn, msn)
    &&& t.qps.contains_key(qpn@)
    &&& t.qps[qpn@].status == QpStatus::OutOfOrder
    &&& t.qps[qpn@].pmtu == s.qps[qpn@].pmtu
    &&& ctx.is_read_resp == e.is_read_resp
    &&& ctx.window is Some
    &&& w.start == e.psn@
    &&& w.count == n
    &&& ascending(w.intervals)
    &&& separated(w.intervals)
    &&& forall|x: int| covered(w.intervals, x) <==> reported(part, e.psn, x)
    &&& 1 <= m < n
    &&& forall|x: int| 0 <= x < m ==> reported(part, e.psn, x)
    &&& newest < PSN_MAX_WINDOW_SIZE
    &&& forall|x: int| reported(part, e.psn, x) ==> x < m || x <= newest
    &&& newest_at_start(s, qpn, part[0]) < n || newest_at_start(s, qpn, part[0]) >= PSN_MAX_WINDOW_SIZE ==> newest < n
    &&& p.ctxs.len() == others(s, qpn) + 1
    &&& only_recoveries(s.actions, t.actions)
}

/// Storing a message.
proof fn lemma_stored(p: PerQpView, msn: u16, ctx: CtxView)
    requires
        distinct(p.ctxs),
        p.recent.len() == 16,
    ensures
        ({
            let q = p.with_ctx(msn, ctx);
            &&& distinct(q.ctxs)
            &&& q.recent.len() == 16
            &&& q.has(msn)
            &&& q.ctx(msn) == ctx
            &&& q.largest == p.largest
            &&& p.has(msn) ==> q.ctxs.len() == p.ctxs.len() && q.recent == p.recent
            &&& !p.has(msn) ==> q.ctxs.len() == p.ctxs.len() + 1 && q.recent[(msn % 16) as int] == (
                msn,
                RecentQpMsnStatus::Processing,
            )
        }),
{
    lemma_find(p.ctxs, msn);
    let q = p.with_ctx(msn, ctx);
    let f = find(p.ctxs, msn);
    if p.has(msn) {
        assert(distinct(q.ctxs)) by {
            assert forall|j: int, k: int| #![trigger q.ctxs[j], q.ctxs[k]] 0 <= j < k < q.ctxs.len() implies q.ctxs[j].0
                != q.ctxs[k].0 by {
                assert(p.ctxs[j].0 != p.ctxs[k].0);
            }
        }
        lemma_find_is(q.ctxs, msn, f);
    } else {
        assert(distinct(q.ctxs)) by {
            assert forall|j: int, k: int| #![trigger q.ctxs[j], q.ctxs[k]] 0 <= j < k < q.ctxs.len() implies q.ctxs[j].0
                != q.ctxs[k].0 by {
                if k < p.ctxs.len() {
                    assert(p.ctxs[j].0 != p.ctxs[k].0);
                } else {
                    assert(p.ctxs[j].0 != msn);
                }
            }
        }
        lemma_find_is(q.ctxs, msn, p.ctxs.len() as int);
    }
}

/// Starting to record the packets of all messages.
proof fn lemma_windows(p: PerQpView, msn: u16, last: u32, recved: u32, pmtu: Pmtu)
    requires
        distinct(p.ctxs),
    ensures
        ({
            let q = p.with_windows(last, recved, pmtu);
            &&& distinct(q.ctxs)
            &&& q.recent == p.recent
            &&& q.largest == p.largest
            &&& q.ctxs.len() == p.ctxs.len()
            &&& q.has(msn) == p.has(msn)
            &&& p.has(msn) ==> q.ctx(msn) == p.ctx(msn).with_window(last, recved, pmtu)
        }),
{
    let q = p.with_windows(last, recved, pmtu);
    assert forall|j: int, k: int| #![trigger q.ctxs[j], q.ctxs[k]] 0 <= j < k < q.ctxs.len() implies q.ctxs[j].0
        != q.ctxs[k].0 by {
        assert(p.ctxs[j].0 != p.ctxs[k].0);
    }
    lemma_find(p.ctxs, msn);
    lemma_find(q.ctxs, msn);
    if p.has(msn) {
        lemma_find_is(q.ctxs, msn, find(p.ctxs, msn));
    } else if q.has(msn) {
        assert(p.ctxs[find(q.ctxs, msn)].0 != msn);
    }
}

/// What was received from the start on without a gap is the first interval.
proof fn lemma_first_interval(s: Seq<Interval>, m: int)
    requires
        ascending(s),
        separated(s),
        m >= 1,
        forall|x: int| 0 <= x < m ==> covered(s, x),
    ensures
        s.len() > 0,
        s[0].0 == 0,
        s[0].1 >= m - 1,
{
    assert(covered(s, 0));
    let j = choose|j: int| 0 <= j < s.len() && (#[trigger] s[j]).0 <= 0 <= s[j].1;
    if j > 0 {
        assert(s[0].0 < s[j].0);
    }
    let e = s[0].1 as int;
    if e < m - 1 {
        assert(covered(s, e + 1));
        let k = choose|k: int| 0 <= k < s.len() && (#[trigger] s[k]).0 <= e + 1 <= s[k].1;
        if k > 0 {
            assert(s[0].1 + 1 < s[k].0);
        }
        assert(false);
    }
}

/// Inserting what was received from the start on without a gap changes nothing.
proof fn lemma_insert_again(w: WindowView, m: int, from: u32, to: u32)
    requires
        ascending(w.intervals),
        separated(w.intervals),
        m >= 1,
        forall|x: int| 0 <= x < m ==> covered(w.intervals, x),
        sub24(from as int, w.start as int) < PSN_MAX_WINDOW_SIZE && sub24(to as int, w.start as int)
            < PSN_MAX_WINDOW_SIZE ==> sub24(from as int, w.start as int) <= sub24(to as int, w.start as int) < m,
    ensures
        w.inserted(from, to) == w,
{
    let s = w.intervals;
    let l = sub24(from as int, w.start as int);
    let r = sub24(to as int, w.start as int);
    if l < PSN_MAX_WINDOW_SIZE && r < PSN_MAX_WINDOW_SIZE {
        lemma_first_interval(s, m);
        lemma_upto(s, l);
        let i = upto(s, l) as int;
        if i == 0 {
            assert(s[0].0 > l);
        }
        if i > 1 {
            assert(s[i - 1].0 <= l);
            assert(s[0].1 + 1 < s[i - 1].0);
        }
        assert(merged(s, l, r) == s);
    }
}

/// Inserting one packet into a window that is not complete.
proof fn lemma_insert_one(w: WindowView, psn: u32)
    requires
        ascending(w.intervals),
        separated(w.intervals),
        !w.complete(),
        sub24(psn as int, w.start as int) < PSN_MAX_WINDOW_SIZE,
    ensures
        ({
            let v = w.inserted(psn, psn);
            &&& ascending(v.intervals)
            &&& separated(v.intervals)
            &&& v.start == w.start
            &&& v.count == w.count
            &&& forall|x: int|
                covered(v.intervals, x) <==> covered(w.intervals, x) || x == sub24(psn as int, w.start as int)
        }),
{
    law_insert_adds_the_range(w, psn, psn);
}

/// What one more report changes.
proof fn lemma_one_more(part: Seq<PacketCheckEvent>, event: PacketCheckEvent, start: Psn, x: int)
    ensures
        reported(part.push(event), start, x) <==> reported(part, start, x) || place(event, start) == x,
{
    let all = part.push(event);
    if reported(part, start, x) {
        let k = choose|k: int| 0 <= k < part.len() && place(#[trigger] part[k], start) == x;
        assert(all[k] == part[k]);
    }
    if place(event, start) == x {
        assert(all[part.len() as int] == event);
    }
    if reported(all, start, x) {
        let k = choose|k: int| 0 <= k < all.len() && place(#[trigger] all[k], start) == x;
        if k < part.len() {
            assert(all[k] == part[k]);
        }
    }
}

/// A window is complete where all packets have been reported.
proof fn lemma_complete(w: WindowView, part: Seq<PacketCheckEvent>, start: Psn, n: int)
    requires
        ascending(w.intervals),
        separated(w.intervals),
        w.count == n,
        0 < n <= PSN_MAX_WINDOW_SIZE,
        forall|x: int| covered(w.intervals, x) <==> reported(part, start, x),
        forall|k: int| 0 <= k < part.len() ==> place(#[trigger] part[k], start) < n,
    ensures
        w.complete() <==> all_reported(part, start, n),
{
    assert forall|x: int| covered(w.intervals, x) implies x < n by {
        assert(reported(part, start, x));
    }
    law_window_complete(w);
    if w.complete() {
        assert forall|x: int| 0 <= x < n implies #[trigger] reported(part, start, x) by {
            assert(covered(w.intervals, x));
        }
    }
    if all_reported(part, start, n) {
        assert forall|x: int| 0 <= x < n implies covered(w.intervals, x) by {
            assert(reported(part, start, x));
        }
    }
}

/// Noting a packet of the message keeps the newest one.
proof fn lemma_newest(p: PerQpView, start: u32, psn: u32, n: int)
    requires
        start <= 0xff_ffff,
        psn <= 0xff_ffff,
        n <= PSN_MAX_WINDOW_SIZE,
        sub24(psn as int, start as int) < n,
        sub24(p.largest as int, start as int) < PSN_MAX_WINDOW_SIZE || sub24(p.largest as int, start as int)
            >= PSN_MAX_WINDOW_SIZE + n - 1,
    ensures
        ({
            let q = p.with_largest(psn);
            let before = sub24(p.largest as int, start as int);
            let newest = sub24(q.largest as int, start as int);
            let d = sub24(psn as int, start as int);
            &&& q == (PerQpView { largest: q.largest, ..p })
            &&& before < PSN_MAX_WINDOW_SIZE ==> newest == (if before >= d {
                before
            } else {
                d
            })
            &&& before >= PSN_MAX_WINDOW_SIZE ==> newest == d
        }),
{
}

/// The range that a report fills in lies in what came without a gap, if it is
/// recorded at all.
proof fn lemma_filled(largest: u32, expected: u32, start: u32, m: int)
    requires
        continuous_range(largest, expected) is Some,
        sub24(largest as int, start as int) < PSN_MAX_WINDOW_SIZE ==> {
            let before = sub24(expected - 1, start as int);
            before < m || before <= sub24(largest as int, start as int)
        },
        sub24(largest as int, start as int) >= PSN_MAX_WINDOW_SIZE ==> sub24(expected - 1, start as int) < m,
    ensures
        ({
            let (from, to) = continuous_range(largest, expected)->0;
            let l = sub24(from as int, start as int);
            let r = sub24(to as int, start as int);
            l < PSN_MAX_WINDOW_SIZE && r < PSN_MAX_WINDOW_SIZE ==> l <= r < m
        }),
{
    law_range_is_forward(largest, expected, start);
}

/// A packet that is recorded while the order is lost.
#[verifier::rlimit(40)]
proof fn lemma_record(
    s: CheckState,
    t: CheckState,
    part: Seq<PacketCheckEvent>,
    event: PacketCheckEvent,
    qpn: Qpn,
    msn: Msn,
    n: int,
    m: int,
)
    requires
        part.len() > 0,
        recorded(s, t, part, qpn, msn, n, m),
        !all_reported(part, part[0]->Write_0.psn, n),
        2 <= n <= PSN_MAX_WINDOW_SIZE,
        part[0]->Write_0.psn@ <= 0xff_ffff,
        forall|k: int|
            0 <= k < part.len() ==> of_message(
                #[trigger] part[k],
                qpn,
                msn,
                part[0]->Write_0.psn,
                n,
                part[0]->Write_0.is_read_resp,
            ),
        of_message(event, qpn, msn, part[0]->Write_0.psn, n, part[0]->Write_0.is_read_resp),
        reported(
            part,
            part[0]->Write_0.psn,
            sub24(event->Write_0.common.expected_psn@ - 1, part[0]->Write_0.psn@ as int) as int,
        ),
    ensures
        ({
            let start = part[0]->Write_0.psn;
            let after = t.after(event);
            let all = part.push(event);
            &&& !all_reported(all, start, n) ==> recorded(s, after, all, qpn, msn, n, m)
            &&& all_reported(all, start, n) ==> done_late(s, after, all, qpn, msn, n)
        }),
{
    let e0 = part[0]->Write_0;
    let start = e0.psn;
    let e = event->Write_0;
    let p = t.recv[qpn@];
    let ctx = p.ctx(msn@);
    let w = ctx.window->0;
    let d = place(event, start);
    let all = part.push(event);
    let after = t.after(event);
    assert(after == t.out_of_order(e, t.qps[qpn@].pmtu));
    assert(all[0] == part[0]);
    lemma_complete(w, part, start, n);
    lemma_newest(p, start@, e.psn@, n);
    assert forall|x: int| reported(all, start, x) <==> reported(part, start, x) || d == x by {
        lemma_one_more(part, event, start, x);
    }
    if d == 0 {
        assert(msn_status(t.recv, qpn@, msn@) == RecentQpMsnStatus::Processing);
        assert(reported(part, start, 0)) by {
            assert(place(part[0], start) == 0);
        }
        assert forall|x: int| reported(all, start, x) <==> reported(part, start, x) by {}
        assert(!all_reported(all, start, n)) by {
            let y = choose|y: int| 0 <= y < n && !#[trigger] reported(part, start, y);
            assert(!reported(all, start, y));
        }
        assert(after.recv[qpn@] == p.with_largest(e.psn@));
        assert(recorded(s, after, all, qpn, msn, n, m));
    } else {
        let range = continuous_range(p.largest, e.common.expected_psn@);
        if range is Some {
            lemma_filled(p.largest, e.common.expected_psn@, start@, m);
            lemma_insert_again(w, m, (range->0).0, (range->0).1);
        }
        lemma_insert_one(w, e.psn@);
        let ctx2 = ctx.with_packet(range, e.psn@);
        let w2 = ctx2.window->0;
        assert(w2 == w.inserted(e.psn@, e.psn@));
        let q = p.with_ctx(msn@, ctx2);
        lemma_stored(p, msn@, ctx2);
        lemma_newest(q, start@, e.psn@, n);
        let q2 = q.with_largest(e.psn@);
        let u = CheckState { recv: t.recv.insert(qpn@, q2), ..t };
        assert(after == u.settled(qpn, msn)) by {
            assert(crate::checker::recv_with_ctx(t.recv, qpn@, msn@, ctx2).insert(qpn@, q2) =~= t.recv.insert(qpn@, q2));
        }
        assert(u.recv[qpn@].ctx(msn@) == ctx2);
        assert forall|k: int| 0 <= k < all.len() implies place(#[trigger] all[k], start) < n by {
            if k < part.len() {
                assert(all[k] == part[k]);
            }
        }
        lemma_complete(w2, all, start, n);
        law_complete_message_is_answered(u, qpn, msn);
        if !all_reported(all, start, n) {
            assert(only_recoveries(s.actions, after.actions)) by {
                assert forall|i: int| s.actions.len() <= i < after.actions.len() implies (#[trigger] after.actions[i]) is Recover by {
                    if i < u.actions.len() {
                        assert(after.actions.take(u.actions.len() as int)[i] == u.actions[i]);
                    }
                }
                assert(after.actions.take(s.actions.len() as int) =~= u.actions.take(s.actions.len() as int)) by {
                    assert forall|i: int| 0 <= i < s.actions.len() implies after.actions[i] == u.actions[i] by {
                        assert(after.actions.take(u.actions.len() as int)[i] == u.actions[i]);
                    }
                }
            }
            assert(recorded(s, after, all, qpn, msn, n, m));
        } else {
            lemma_done_late(s, u, after, all, qpn, msn, n, m);
        }
    }
}

/// The message is finished, after its order was lost.
pub open spec fn done_late(
    s: CheckState,
    t: CheckState,
    events: Seq<PacketCheckEvent>,
    qpn: Qpn,
    msn: Msn,
    n: int,
) -> bool {
    let e = events[0]->Write_0;
    let newest = newest_at_start(s, qpn, events[0]);
    &&& answered_once(s.actions, t.actions, qpn, msn, add24(e.psn@ as int, n - 1), e.is_read_resp)
    &&& t.recv.contains_key(qpn@)
    &&& !t.recv[qpn@].has(msn@)
    &&& msn_status(t.recv, qpn@, msn@) == RecentQpMsnStatus::Finished
    &&& (!s.recv.contains_key(qpn@) || s.recv[qpn@].ctxs.len() == 0) && (newest < n || newest
        >= PSN_MAX_WINDOW_SIZE) ==> {
        &&& t.actions.last() is Recover
        &&& t.actions.last()->Recover_qpn == qpn
        &&& t.actions.last()->Recover_psn@ == add24(e.psn@ as int, n)
    }
}

/// The last step of a message whose order was lost.
#[verifier::rlimit(40)]
proof fn lemma_done_late(
    s: CheckState,
    u: CheckState,
    after: CheckState,
    all: Seq<PacketCheckEvent>,
    qpn: Qpn,
    msn: Msn,
    n: int,
    m: int,
)
    requires
        recorded(s, u, all, qpn, msn, n, m),
        after == u.settled(qpn, msn),
        u.recv[qpn@].ctx(msn@).window->0.complete(),
        2 <= n <= PSN_MAX_WINDOW_SIZE,
        all[0]->Write_0.psn@ <= 0xff_ffff,
        reported(all, all[0]->Write_0.psn, n - 1),
    ensures
        done_late(s, after, all, qpn, msn, n),
{
    let e = all[0]->Write_0;
    let w = u.recv[qpn@].ctx(msn@).window->0;
    law_complete_message_is_answered(u, qpn, msn);
    let k = u.actions.len() as int;
    assert forall|i: int| 0 <= i < k implies after.actions[i] == u.actions[i] by {
        assert(after.actions.take(k)[i] == u.actions[i]);
    }
    assert(after.actions.take(s.actions.len() as int) =~= u.actions.take(s.actions.len() as int));
    assert(is_answer(after.actions[k], qpn, msn, add24(e.psn@ as int, n - 1), e.is_read_resp));
    assert forall|i: int| s.actions.len() <= i < after.actions.len() && i != k implies (#[trigger] after.actions[i]) is Recover by {}
    assert(answered_once(s.actions, after.actions, qpn, msn, add24(e.psn@ as int, n - 1), e.is_read_resp));
    ThreeBytesStruct::lemma_of(w.recover_psn()->0);
    lemma_find(u.recv[qpn@].ctxs, msn@);
}

/// A message that is finished is not being received any more.
proof fn lemma_removed(p: PerQpView, msn: u16)
    requires
        distinct(p.ctxs),
        p.recent.len() == 16,
    ensures
        !p.without_ctx(msn).has(msn),
        crate::checker::recent_status(p.without_ctx(msn).recent, msn) == RecentQpMsnStatus::Finished,
{
    lemma_find(p.ctxs, msn);
    let f = find(p.ctxs, msn);
    if f >= 0 {
        let rest = p.ctxs.remove(f);
        lemma_find(rest, msn);
        let g = find(rest, msn);
        if g >= 0 {
            let h = if g < f {
                g
            } else {
                g + 1
            };
            assert(rest[g] == p.ctxs[h]);
            assert(p.ctxs[h].0 == p.ctxs[f].0);
            assert(false);
        }
    }
}

/// The first report of a message.
#[verifier::rlimit(40)]
proof fn lemma_starts(s: CheckState, events: Seq<PacketCheckEvent>, qpn: Qpn, msn: Msn, n: int, is_read_resp: bool)
    requires
        delivered(s, events, qpn, msn, n, is_read_resp),
    ensures
        ({
            let t = s.after(events[0]);
            if s.qps[qpn@].status == QpStatus::Normal && in_its_turn(events[0]) {
                waiting(s, t, events[0], qpn, msn)
            } else {
                recorded(s, t, events.take(1), qpn, msn, n, 1)
            }
        }),
{
    let first = events[0];
    let e = first->Write_0;
    let start = e.psn;
    let t = s.after(first);
    assert(of_message(first, qpn, msn, start, n, is_read_resp));
    assert(place(first, start) == 0);
    assert(e.write_type == ToHostWorkRbDescWriteType::First);
    let pmtu = s.qps[qpn@].pmtu;
    if s.qps[qpn@].status == QpStatus::Normal && in_its_turn(first) {
        let p = per_qp(s.recv, qpn@, 0);
        lemma_find(p.ctxs, msn@);
        lemma_stored(p, msn@, CtxView::of_event(e));
        assert(t.recv[qpn@] == p.with_ctx(msn@, CtxView::of_event(e)));
    } else {
        let v = if s.qps[qpn@].status == QpStatus::Normal {
            s.entered_error(e)
        } else {
            s
        };
        let p0 = per_qp(s.recv, qpn@, e.psn@);
        let p = v.recv[qpn@];
        if s.qps[qpn@].status == QpStatus::Normal {
            lemma_find(p0.ctxs, msn@);
            lemma_windows(p0, msn@, sub24(e.common.expected_psn@ as int, 1), e.psn@, pmtu);
        }
        assert(t == v.out_of_order(e, pmtu));
        assert(msn_status(v.recv, qpn@, msn@) == RecentQpMsnStatus::NoExist);
        let ctx = CtxView::of_event_with_window(e, pmtu);
        lemma_stored(p, msn@, ctx);
        let q = p.with_ctx(msn@, ctx);
        lemma_newest(q, start@, e.psn@, n);
        assert(t.recv[qpn@] == q.with_largest(e.psn@));
        let w0 = WindowView::fresh(e.psn@, n as u32);
        lemma_insert_one(w0, e.psn@);
        let part = events.take(1);
        assert(part[0] == first);
        assert forall|x: int| reported(part, start, x) <==> x == 0 by {
            if x == 0 {
                assert(place(part[0], start) == 0);
            }
        }
        assert forall|x: int| !covered(w0.intervals, x) by {}
        assert(t.actions.take(s.actions.len() as int) =~= s.actions);
    }
}

/// The first `k` packets have been reported, and no other.
spec fn reported_up_to(part: Seq<PacketCheckEvent>, start: Psn, k: int) -> bool {
    forall|x: int| reported(part, start, x) <==> 0 <= x < k
}

/// As long as all packets come in their turn, the next one is the next one.
#[verifier::rlimit(40)]
proof fn lemma_turns(
    s: CheckState,
    events: Seq<PacketCheckEvent>,
    qpn: Qpn,
    msn: Msn,
    n: int,
    is_read_resp: bool,
    k: int,
)
    requires
        delivered(s, events, qpn, msn, n, is_read_resp),
        1 <= k <= events.len(),
        all_in_turn(s, events.take(k), qpn),
    ensures
        reported_up_to(events.take(k), events[0]->Write_0.psn, k),
    decreases k,
{
    let start = events[0]->Write_0.psn;
    let part = events.take(k);
    let event = events[k - 1];
    assert(of_message(event, qpn, msn, start, n, is_read_resp));
    assert(in_its_turn(part[k - 1]));
    if k == 1 {
        assert forall|x: int| reported(part, start, x) <==> 0 <= x < k by {
            if x == 0 {
                assert(place(part[0], start) == 0);
            }
        }
    } else {
        let shorter = events.take(k - 1);
        assert forall|j: int| 0 <= j < k - 1 implies in_its_turn(#[trigger] shorter[j]) by {
            assert(in_its_turn(part[j]));
        }
        lemma_turns(s, events, qpn, msn, n, is_read_resp, k - 1);
        assert(expects_rightly(s.qps[qpn@].status, events, start, k - 1));
        assert forall|j: int| 0 <= j < k - 1 implies in_its_turn(#[trigger] events[j]) by {
            assert(in_its_turn(part[j]));
        }
        assert(part =~= shorter.push(event));
        let before = sub24(event->Write_0.common.expected_psn@ - 1, start@ as int) as int;
        assert(before == k - 2);
        let j = choose|j: int| 0 <= j < shorter.len() && place(#[trigger] shorter[j], start) == before;
        assert(of_message(events[j], qpn, msn, start, n, is_read_resp));
        assert(place(event, start) == k - 1);
        assert forall|x: int| reported(part, start, x) <==> 0 <= x < k by {
            lemma_one_more(shorter, event, start, x);
        }
    }
}

/// What has been reported after the first packet that does not come in its turn.
#[verifier::rlimit(40)]
proof fn lemma_lost_reports(
    s: CheckState,
    events: Seq<PacketCheckEvent>,
    qpn: Qpn,
    msn: Msn,
    n: int,
    is_read_resp: bool,
    k: int,
)
    requires
        delivered(s, events, qpn, msn, n, is_read_resp),
        1 <= k < events.len(),
        all_in_turn(s, events.take(k), qpn),
        !all_reported(events.take(k), events[0]->Write_0.psn, n),
        !in_its_turn(events[k]),
    ensures
        ({
            let start = events[0]->Write_0.psn;
            let e = events[k]->Write_0;
            let all = events.take(k + 1);
            &&& k < n
            &&& sub24(e.common.expected_psn@ - 1, start@ as int) == k - 1
            &&& sub24(e.psn@ as int, start@ as int) != k
            &&& forall|x: int| reported(all, start, x) <==> 0 <= x < k || x == sub24(e.psn@ as int, start@ as int)
            &&& !all_reported(all, start, n)
            &&& forall|j: int| 0 <= j < all.len() ==> place(#[trigger] all[j], start) < n
            &&& all[0] == events[0]
        }),
{
    let start = events[0]->Write_0.psn;
    let event = events[k];
    let e = event->Write_0;
    let part = events.take(k);
    let all = events.take(k + 1);
    let d = place(event, start);
    assert(of_message(events[0], qpn, msn, start, n, is_read_resp));
    assert(of_message(event, qpn, msn, start, n, is_read_resp));
    lemma_turns(s, events, qpn, msn, n, is_read_resp, k);
    if k >= n {
        assert forall|x: int| 0 <= x < n implies #[trigger] reported(part, start, x) by {}
        assert(false);
    }
    assert(expects_rightly(s.qps[qpn@].status, events, start, k));
    assert forall|j: int| 0 <= j < k implies in_its_turn(#[trigger] events[j]) by {
        assert(in_its_turn(part[j]));
    }
    ThreeBytesStruct::lemma_view_injective(e.common.expected_psn, e.psn);
    assert(all =~= part.push(event));
    assert forall|x: int| reported(all, start, x) <==> 0 <= x < k || x == d by {
        lemma_one_more(part, event, start, x);
    }
    assert(!all_reported(all, start, n)) by {
        assert(!reported(all, start, k));
    }
    assert forall|j: int| 0 <= j < all.len() implies place(#[trigger] all[j], start) < n by {
        assert(of_message(events[j], qpn, msn, start, n, is_read_resp));
    }
}

/// The order is lost with the first packet that does not come in its turn.
proof fn lemma_loses_order(
    s: CheckState,
    t: CheckState,
    first: PacketCheckEvent,
    e: ToHostWorkRbDescWriteOrReadResp,
    qpn: Qpn,
    msn: Msn,
)
    requires
        s.qps.contains_key(qpn@),
        waiting(s, t, first, qpn, msn),
        e.common.dqpn == qpn,
        !in_its_turn(PacketCheckEvent::Write(e)),
    ensures
        t.after(PacketCheckEvent::Write(e)) == t.entered_error(e).out_of_order(e, s.qps[qpn@].pmtu),
{
}

/// The first packet that does not come in its turn.
#[verifier::spinoff_prover]
#[verifier::rlimit(40)]
proof fn lemma_order_lost(
    s: CheckState,
    t: CheckState,
    all: Seq<PacketCheckEvent>,
    e: ToHostWorkRbDescWriteOrReadResp,
    qpn: Qpn,
    msn: Msn,
    n: int,
    k: int,
)
    requires
        s.qps.contains_key(qpn@),
        waiting(s, t, all[0], qpn, msn),
        all.len() > 0,
        1 <= k < n <= PSN_MAX_WINDOW_SIZE,
        n == packet_cnt(
            s.qps[qpn@].pmtu.size_spec() as int,
            all[0]->Write_0.addr as int,
            all[0]->Write_0.len as int,
        ),
        newest_at_start(s, qpn, all[0]) < PSN_MAX_WINDOW_SIZE || newest_at_start(s, qpn, all[0])
            >= PSN_MAX_WINDOW_SIZE + n - 1,
        all[0]->Write_0.psn@ <= 0xff_ffff,
        of_message(PacketCheckEvent::Write(e), qpn, msn, all[0]->Write_0.psn, n, all[0]->Write_0.is_read_resp),
        !in_its_turn(PacketCheckEvent::Write(e)),
        forall|j: int| 0 <= j < all.len() ==> place(#[trigger] all[j], all[0]->Write_0.psn) < n,
        sub24(e.common.expected_psn@ - 1, all[0]->Write_0.psn@ as int) == k - 1,
        sub24(e.psn@ as int, all[0]->Write_0.psn@ as int) != k,
        forall|x: int|
            reported(all, all[0]->Write_0.psn, x) <==> 0 <= x < k || x == sub24(
                e.psn@ as int,
                all[0]->Write_0.psn@ as int,
            ),
        !all_reported(all, all[0]->Write_0.psn, n),
    ensures
        recorded(s, t.after(PacketCheckEvent::Write(e)), all, qpn, msn, n, k),
{
    let start = all[0]->Write_0.psn;
    let v = t.entered_error(e);
    lemma_loses_order(s, t, all[0], e, qpn, msn);
    let w = lemma_first_window(start@, n, k, sub24(e.common.expected_psn@ as int, 1), e.psn@);
    lemma_entered(s, t, all[0], e, qpn, msn, n, w);
    assert(s.actions.take(s.actions.len() as int) =~= s.actions);
    lemma_first_record(s, v, all, e, qpn, msn, n, k);
}

/// When the order is lost, the message starts to record its packets.
#[verifier::rlimit(40)]
proof fn lemma_entered(
    s: CheckState,
    t: CheckState,
    first: PacketCheckEvent,
    e: ToHostWorkRbDescWriteOrReadResp,
    qpn: Qpn,
    msn: Msn,
    n: int,
    w: WindowView,
)
    requires
        s.qps.contains_key(qpn@),
        waiting(s, t, first, qpn, msn),
        e.common.dqpn == qpn,
        1 <= n <= PSN_MAX_WINDOW_SIZE,
        n == packet_cnt(s.qps[qpn@].pmtu.size_spec() as int, first->Write_0.addr as int, first->Write_0.len as int),
        w == WindowView::fresh(first->Write_0.psn@, n as u32).inserted(
            first->Write_0.psn@,
            sub24(e.common.expected_psn@ as int, 1),
        ).inserted(e.psn@, e.psn@),
    ensures
        ({
            let v = t.entered_error(e);
            let p = v.recv[qpn@];
            &&& known(v, qpn, msn)
            &&& v.qps.contains_key(qpn@)
            &&& v.qps[qpn@].status == QpStatus::OutOfOrder
            &&& v.qps[qpn@].pmtu == s.qps[qpn@].pmtu
            &&& v.actions == s.actions
            &&& p.ctx(msn@).window == Some(w)
            &&& p.ctx(msn@).is_read_resp == first->Write_0.is_read_resp
            &&& p.largest == t.recv[qpn@].largest
            &&& p.ctxs.len() == t.recv[qpn@].ctxs.len()
        }),
{
    let p = t.recv[qpn@];
    let v = t.entered_error(e);
    let last = sub24(e.common.expected_psn@ as int, 1);
    lemma_windows(p, msn@, last, e.psn@, s.qps[qpn@].pmtu);
    assert(v.recv[qpn@] == p.with_windows(last, e.psn@, s.qps[qpn@].pmtu));
}

/// The window of a message of which the first `k` packets came in their turn, and
/// then one that did not.
proof fn lemma_first_window(start: u32, n: int, k: int, last: u32, psn: u32) -> (w: WindowView)
    requires
        1 <= k < n <= PSN_MAX_WINDOW_SIZE,
        sub24(last as int, start as int) == k - 1,
        sub24(psn as int, start as int) < n,
        sub24(psn as int, start as int) != k,
    ensures
        w == WindowView::fresh(start, n as u32).inserted(start, last).inserted(psn, psn),
        ascending(w.intervals),
        separated(w.intervals),
        w.start == start,
        w.count == n,
        forall|x: int| covered(w.intervals, x) <==> 0 <= x < k || x == sub24(psn as int, start as int),
{
    let w0 = WindowView::fresh(start, n as u32);
    let w1 = w0.inserted(start, last);
    assert(sub24(start as int, start as int) == 0);
    assert(w1.intervals =~= seq![(0u32, (k - 1) as u32)]);
    assert forall|x: int| covered(w1.intervals, x) <==> 0 <= x < k by {
        if 0 <= x < k {
            assert(w1.intervals[0].0 <= x <= w1.intervals[0].1);
        }
    }
    lemma_insert_one(w1, psn);
    w1.inserted(psn, psn)
}

/// The packet that did not come in its turn, once the order is known to be lost.
#[verifier::rlimit(40)]
proof fn lemma_first_record(
    s: CheckState,
    v: CheckState,
    all: Seq<PacketCheckEvent>,
    e: ToHostWorkRbDescWriteOrReadResp,
    qpn: Qpn,
    msn: Msn,
    n: int,
    k: int,
)
    requires
        known(v, qpn, msn),
        v.qps.contains_key(qpn@),
        v.qps[qpn@].status == QpStatus::OutOfOrder,
        v.qps[qpn@].pmtu == s.qps[qpn@].pmtu,
        v.actions == s.actions,
        s.actions.take(s.actions.len() as int) == s.actions,
        1 <= k < n <= PSN_MAX_WINDOW_SIZE,
        all.len() > 0,
        all[0]->Write_0.psn@ <= 0xff_ffff,
        of_message(PacketCheckEvent::Write(e), qpn, msn, all[0]->Write_0.psn, n, all[0]->Write_0.is_read_resp),
        forall|j: int| 0 <= j < all.len() ==> place(#[trigger] all[j], all[0]->Write_0.psn) < n,
        sub24(e.common.expected_psn@ - 1, all[0]->Write_0.psn@ as int) == k - 1,
        forall|x: int|
            reported(all, all[0]->Write_0.psn, x) <==> 0 <= x < k || x == sub24(
                e.psn@ as int,
                all[0]->Write_0.psn@ as int,
            ),
        !all_reported(all, all[0]->Write_0.psn, n),
        ({
            let p = v.recv[qpn@];
            let ctx = p.ctx(msn@);
            let w = ctx.window->0;
            let start = all[0]->Write_0.psn;
            let newest = sub24(p.largest as int, start@ as int);
            &&& ctx.is_read_resp == all[0]->Write_0.is_read_resp
            &&& ctx.window is Some
            &&& ascending(w.intervals)
            &&& separated(w.intervals)
            &&& w.start == start@
            &&& w.count == n
            &&& forall|x: int| covered(w.intervals, x) <==> reported(all, start, x)
            &&& newest == newest_at_start(s, qpn, all[0])
            &&& newest < PSN_MAX_WINDOW_SIZE || newest >= PSN_MAX_WINDOW_SIZE + n - 1
            &&& p.ctxs.len() == others(s, qpn) + 1
        }),
    ensures
        recorded(s, v.out_of_order(e, v.qps[qpn@].pmtu), all, qpn, msn, n, k),
{
    let start = all[0]->Write_0.psn;
    let pmtu = v.qps[qpn@].pmtu;
    let after = v.out_of_order(e, pmtu);
    let p = v.recv[qpn@];
    let ctx = p.ctx(msn@);
    let w = ctx.window->0;
    let d = sub24(e.psn@ as int, start@ as int);
    lemma_complete(w, all, start, n);
    lemma_newest(p, start@, e.psn@, n);
    if d == 0 {
        assert(msn_status(v.recv, qpn@, msn@) == RecentQpMsnStatus::Processing);
        assert(after.recv[qpn@] == p.with_largest(e.psn@));
        assert(recorded(s, after, all, qpn, msn, n, k));
    } else {
        let range = continuous_range(p.largest, e.common.expected_psn@);
        if range is Some {
            lemma_filled(p.largest, e.common.expected_psn@, start@, k);
            lemma_insert_again(w, k, (range->0).0, (range->0).1);
        }
        lemma_insert_one(w, e.psn@);
        let ctx2 = ctx.with_packet(range, e.psn@);
        let w2 = ctx2.window->0;
        assert(w2 == w.inserted(e.psn@, e.psn@));
        let q = p.with_ctx(msn@, ctx2);
        lemma_stored(p, msn@, ctx2);
        lemma_newest(q, start@, e.psn@, n);
        let q2 = q.with_largest(e.psn@);
        let u = CheckState { recv: v.recv.insert(qpn@, q2), ..v };
        assert(after == u.settled(qpn, msn)) by {
            assert(crate::checker::recv_with_ctx(v.recv, qpn@, msn@, ctx2).insert(qpn@, q2) =~= v.recv.insert(qpn@, q2));
        }
        assert(u.recv[qpn@].ctx(msn@) == ctx2);
        lemma_complete(w2, all, start, n);
        law_complete_message_is_answered(u, qpn, msn);
        assert(recorded(s, after, all, qpn, msn, n, k));
    }
}

/// The checker in the middle of a message.
spec fn under_way(s: CheckState, t: CheckState, part: Seq<PacketCheckEvent>, qpn: Qpn, msn: Msn, n: int) -> bool {
    if all_in_turn(s, part, qpn) {
        waiting(s, t, part[0], qpn, msn)
    } else {
        exists|m: int| recorded(s, t, part, qpn, msn, n, m)
    }
}

/// The checker is in the middle of a message until all its packets were reported.
#[verifier::rlimit(40)]
proof fn lemma_under_way(
    s: CheckState,
    events: Seq<PacketCheckEvent>,
    qpn: Qpn,
    msn: Msn,
    n: int,
    is_read_resp: bool,
    k: int,
)
    requires
        delivered(s, events, qpn, msn, n, is_read_resp),
        1 <= k <= events.len(),
        !all_reported(events.take(k), events[0]->Write_0.psn, n),
    ensures
        under_way(s, after_all(s, events.take(k)), events.take(k), qpn, msn, n),
    decreases k,
{
    let start = events[0]->Write_0.psn;
    let part = events.take(k);
    let event = events[k - 1];
    let shorter = events.take(k - 1);
    assert(part.drop_last() =~= shorter);
    assert(part.last() == event);
    assert(part[0] == events[0]);
    if k == 1 {
        assert(after_all(s, shorter) == s);
        lemma_starts(s, events, qpn, msn, n, is_read_resp);
        if s.qps[qpn@].status == QpStatus::Normal && in_its_turn(events[0]) {
            assert(all_in_turn(s, part, qpn));
        } else {
            if s.qps[qpn@].status == QpStatus::Normal {
                assert(!in_its_turn(part[0]));
            }
            assert(recorded(s, s.after(events[0]), part, qpn, msn, n, 1));
        }
    } else {
        assert(part =~= shorter.push(event));
        assert(!all_reported(shorter, start, n)) by {
            let y = choose|y: int| 0 <= y < n && !#[trigger] reported(part, start, y);
            lemma_one_more(shorter, event, start, y);
            assert(!reported(shorter, start, y));
        }
        lemma_under_way(s, events, qpn, msn, n, is_read_resp, k - 1);
        lemma_next(s, events, qpn, msn, n, is_read_resp, k - 1);
    }
}

/// One step in the middle of a message.
proof fn lemma_next(
    s: CheckState,
    events: Seq<PacketCheckEvent>,
    qpn: Qpn,
    msn: Msn,
    n: int,
    is_read_resp: bool,
    k: int,
)
    requires
        delivered(s, events, qpn, msn, n, is_read_resp),
        1 <= k < events.len(),
        !all_reported(events.take(k), events[0]->Write_0.psn, n),
        under_way(s, after_all(s, events.take(k)), events.take(k), qpn, msn, n),
    ensures
        ({
            let t = after_all(s, events.take(k + 1));
            let start = events[0]->Write_0.psn;
            let part = events.take(k + 1);
            &&& !all_reported(part, start, n) ==> under_way(s, t, part, qpn, msn, n)
            &&& all_reported(part, start, n) && !all_in_turn(s, part, qpn) ==> done_late(s, t, part, qpn, msn, n)
            &&& all_reported(part, start, n) && all_in_turn(s, part, qpn) ==> done_in_turn(s, t, part, qpn, msn, n)
        }),
{
    let start = events[0]->Write_0.psn;
    let before = events.take(k);
    let part = events.take(k + 1);
    let event = events[k];
    let t = after_all(s, before);
    let after = after_all(s, part);
    assert(part.drop_last() =~= before);
    assert(part.last() == event);
    assert(part =~= before.push(event));
    assert(part[0] == events[0] && before[0] == events[0]);
    assert(after == t.after(event));
    assert(of_message(events[0], qpn, msn, start, n, is_read_resp));
    assert(of_message(event, qpn, msn, start, n, is_read_resp));
    assert(expects_rightly(s.qps[qpn@].status, events, start, k));
    if all_in_turn(s, before, qpn) {
        lemma_turns(s, events, qpn, msn, n, is_read_resp, k);
        if in_its_turn(event) {
            assert(all_in_turn(s, part, qpn)) by {
                assert forall|j: int| 0 <= j < part.len() implies in_its_turn(#[trigger] part[j]) by {
                    if j < k {
                        assert(in_its_turn(before[j]));
                    }
                }
            }
            lemma_turns(s, events, qpn, msn, n, is_read_resp, k + 1);
            lemma_in_turn(s, t, events, qpn, msn, n, is_read_resp, k);
        } else {
            lemma_lost_reports(s, events, qpn, msn, n, is_read_resp, k);
            assert(event == PacketCheckEvent::Write(event->Write_0));
            lemma_order_lost(s, t, part, event->Write_0, qpn, msn, n, k);
            assert(!all_in_turn(s, part, qpn)) by {
                assert(!in_its_turn(part[k]));
            }
        }
    } else {
        let m = choose|m: int| recorded(s, t, before, qpn, msn, n, m);
        assert forall|j: int| 0 <= j < before.len() implies of_message(
            #[trigger] before[j],
            qpn,
            msn,
            start,
            n,
            before[0]->Write_0.is_read_resp,
        ) by {
            assert(of_message(events[j], qpn, msn, start, n, is_read_resp));
        }
        lemma_record(s, t, before, event, qpn, msn, n, m);
        assert(!all_in_turn(s, part, qpn)) by {
            if s.qps[qpn@].status == QpStatus::Normal {
                let j = choose|j: int| 0 <= j < before.len() && !in_its_turn(#[trigger] before[j]);
                assert(!in_its_turn(part[j]));
            }
        }
    }
}

/// The message is finished, and all its packets came in their turn.
pub open spec fn done_in_turn(
    s: CheckState,
    t: CheckState,
    events: Seq<PacketCheckEvent>,
    qpn: Qpn,
    msn: Msn,
    n: int,
) -> bool {
    let e = events[0]->Write_0;
    &&& t.qps == s.qps
    &&& if !e.is_read_resp && events.last()->Write_0.can_auto_ack {
        t.actions == s.actions
    } else {
        answered_once(s.actions, t.actions, qpn, msn, add24(e.psn@ as int, n - 1), e.is_read_resp) && t.actions.len()
            == s.actions.len() + 1
    }
    &&& t.recv.contains_key(qpn@)
    &&& !t.recv[qpn@].has(msn@)
    &&& msn_status(t.recv, qpn@, msn@) == RecentQpMsnStatus::Finished
}

/// A packet that comes in its turn.
proof fn lemma_in_turn(
    s: CheckState,
    t: CheckState,
    events: Seq<PacketCheckEvent>,
    qpn: Qpn,
    msn: Msn,
    n: int,
    is_read_resp: bool,
    k: int,
)
    requires
        delivered(s, events, qpn, msn, n, is_read_resp),
        1 <= k < events.len(),
        waiting(s, t, events[0], qpn, msn),
        in_its_turn(events[k]),
        !all_reported(events.take(k), events[0]->Write_0.psn, n),
        reported_up_to(events.take(k), events[0]->Write_0.psn, k),
        reported_up_to(events.take(k + 1), events[0]->Write_0.psn, k + 1),
    ensures
        ({
            let after = t.after(events[k]);
            let part = events.take(k + 1);
            let start = events[0]->Write_0.psn;
            &&& !all_reported(part, start, n) ==> waiting(s, after, events[0], qpn, msn)
            &&& all_reported(part, start, n) ==> done_in_turn(s, after, part, qpn, msn, n)
        }),
{
    let e0 = events[0]->Write_0;
    let start = e0.psn;
    let event = events[k];
    let e = event->Write_0;
    let part = events.take(k + 1);
    let after = t.after(event);
    assert(of_message(events[0], qpn, msn, start, n, is_read_resp));
    assert(of_message(event, qpn, msn, start, n, is_read_resp));
    if k >= n {
        assert forall|x: int| 0 <= x < n implies #[trigger] reported(events.take(k), start, x) by {}
        assert(false);
    }
    assert(place(event, start) == k) by {
        assert(reported(part, start, k));
        let j = choose|j: int| 0 <= j < part.len() && place(#[trigger] part[j], start) == k;
        if j < k {
            assert(events.take(k)[j] == part[j]);
            assert(reported(events.take(k), start, k));
        }
    }
    assert(after == t.in_order(e));
    if k < n - 1 {
        assert(after == t);
        assert(!all_reported(part, start, n)) by {
            assert(!reported(part, start, n - 1));
        }
    } else {
        assert(e.write_type == ToHostWorkRbDescWriteType::Last);
        assert(all_reported(part, start, n)) by {
            assert forall|x: int| 0 <= x < n implies #[trigger] reported(part, start, x) by {}
        }
        let p = t.recv[qpn@];
        lemma_removed(p, msn@);
        assert(part.last() == event && part[0] == events[0]);
        assert(e.psn@ == add24(start@ as int, n - 1));
        ThreeBytesStruct::lemma_of(e.psn@);
        if e.is_read_resp || !e.can_auto_ack {
            let i = s.actions.len() as int;
            assert(after.actions.take(i) =~= s.actions);
            assert(is_answer(after.actions[i], qpn, msn, add24(start@ as int, n - 1), is_read_resp));
        }
    }
}

/// Nobody is told that a message is there while a packet of it is missing, in
/// whatever order the others come.
pub proof fn law_incomplete_message_is_not_answered(
    s: CheckState,
    events: Seq<PacketCheckEvent>,
    qpn: Qpn,
    msn: Msn,
    n: int,
    is_read_resp: bool,
)
    requires
        delivered(s, events, qpn, msn, n, is_read_resp),
        !all_reported(events, events[0]->Write_0.psn, n),
    ensures
        only_recoveries(s.actions, after_all(s, events).actions),
{
    assert(events.take(events.len() as int) =~= events);
    lemma_under_way(s, events, qpn, msn, n, is_read_resp, events.len() as int);
    assert(s.actions.take(s.actions.len() as int) =~= s.actions);
}

/// A message is answered once, when the last missing one of its packets has come,
/// in whatever order they come: who reads is woken up, and a write is acknowledged
/// with the number of its last packet. It is then not being received any more, but
/// remembered as finished. Only a write whose packets all came in their turn may
/// be left to the card to acknowledge. Where a packet did not come in its turn and
/// no other message is being received, the card is told to go on after the
/// message's last packet.
pub proof fn law_message_is_answered_in_any_order(
    s: CheckState,
    events: Seq<PacketCheckEvent>,
    qpn: Qpn,
    msn: Msn,
    n: int,
    is_read_resp: bool,
)
    requires
        delivered(s, events, qpn, msn, n, is_read_resp),
        all_reported(events, events[0]->Write_0.psn, n),
        !all_reported(events.drop_last(), events[0]->Write_0.psn, n),
    ensures
        ({
            let t = after_all(s, events);
            let start = events[0]->Write_0.psn@ as int;
            let newest = newest_at_start(s, qpn, events[0]);
            let alone = !s.recv.contains_key(qpn@) || s.recv[qpn@].ctxs.len() == 0;
            &&& if all_in_turn(s, events, qpn) && !is_read_resp && events.last()->Write_0.can_auto_ack {
                t.actions == s.actions
            } else {
                answered_once(s.actions, t.actions, qpn, msn, add24(start, n - 1), is_read_resp)
            }
            &&& t.recv.contains_key(qpn@)
            &&& !t.recv[qpn@].has(msn@)
            &&& msn_status(t.recv, qpn@, msn@) == RecentQpMsnStatus::Finished
            &&& !all_in_turn(s, events, qpn) && alone && (newest < n || newest >= PSN_MAX_WINDOW_SIZE) ==> {
                &&& t.actions.last() is Recover
                &&& t.actions.last()->Recover_qpn == qpn
                &&& t.actions.last()->Recover_psn@ == add24(start, n)
            }
        }),
{
    let k = events.len() - 1;
    let start = events[0]->Write_0.psn;
    assert(of_message(events[0], qpn, msn, start, n, is_read_resp));
    assert(events.take(k) =~= events.drop_last());
    assert(events.take(k + 1) =~= events);
    if k == 0 {
        assert(!reported(events, start, 1)) by {
            assert(place(events[0], start) == 0);
        }
        assert(false);
    }
    lemma_under_way(s, events, qpn, msn, n, is_read_resp, k);
    lemma_next(s, events, qpn, msn, n, is_read_resp, k);
}

/// A message of a single packet is answered when it comes, whatever came before:
/// who reads is woken up, and a write is acknowledged unless the card does so by
/// itself.
pub proof fn law_single_packet_is_answered(s: CheckState, e: ToHostWorkRbDescWriteOrReadResp)
    requires
        s.qps.contains_key(e.common.dqpn@),
        e.write_type == ToHostWorkRbDescWriteType::Only,
    ensures
        ({
            let t = s.after(PacketCheckEvent::Write(e));
            &&& if !e.is_read_resp && e.can_auto_ack {
                t.actions == s.actions
            } else {
                answered_once(s.actions, t.actions, e.common.dqpn, e.common.msn, e.psn@, e.is_read_resp)
                    && t.actions.len() == s.actions.len() + 1
            }
            &&& s.recv.contains_key(e.common.dqpn@) && s.recv[e.common.dqpn@].recent.len() == 16 ==> msn_status(
                t.recv,
                e.common.dqpn@,
                e.common.msn@,
            ) == RecentQpMsnStatus::Finished
        }),
{
    let t = s.after(PacketCheckEvent::Write(e));
    let i = s.actions.len() as int;
    ThreeBytesStruct::lemma_of(e.psn@);
    if e.is_read_resp || !e.can_auto_ack {
        assert(t.actions.take(i) =~= s.actions);
        assert(is_answer(t.actions[i], e.common.dqpn, e.common.msn, e.psn@, e.is_read_resp));
    }
}

} // verus!
