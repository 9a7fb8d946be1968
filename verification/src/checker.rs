//! Follows the packets that the card reports: which messages are complete, what
//! to acknowledge, and when a queue pair that lost the order can go on.

use vstd::prelude::*;
use std::collections::HashMap;
use crate::buf::PacketBuf;
#[allow(unused_imports)]
use crate::buf::PacketBufView;
use crate::device::ctrl::{ToCardCtrlRbDesc, ToCardCtrlRbDescCommon, ToCardCtrlRbDescUpdateErrPsnRecoverPoint};
use crate::device::work::{
    ToCardWorkRbDesc, ToHostWorkRbDescAck, ToHostWorkRbDescAethCode, ToHostWorkRbDescRead,
    ToHostWorkRbDescWriteOrReadResp, ToHostWorkRbDescWriteType,
};
#[allow(unused_imports)]
use crate::device::work::{ToHostWorkRbDescStatus, ToHostWorkRbDescTransType};
use crate::qp::{QpContext, QpStatus, QpTable};
#[allow(unused_imports)]
use crate::qp::with_status;
use crate::responser::{make_read_resp, ACK_SLOT_SIZE};
#[allow(unused_imports)]
use crate::responser::{after_read_resp, read_resp_desc};
use crate::types::{Key, Msn, Pmtu, Psn, Qpn, PSN_MAX_WINDOW_SIZE};
#[allow(unused_imports)]
use crate::types::{add24, sub24, ThreeBytesStruct};
use crate::utils::calculate_packet_cnt;
#[allow(unused_imports)]
use crate::utils::packet_cnt;
use crate::window::SlidingWindow;
#[allow(unused_imports)]
use crate::window::{ascending, forward, separated, WindowView};

verus! {

broadcast use vstd::std_specs::hash::group_hash_axioms;

/// How many messages of a queue pair are remembered.
pub const MAX_MSN_WINDOW_PER_QP: usize = 16;

/// What became of a message
#[derive(Debug, Clone, Copy, PartialEq, Eq, Structural)]
pub enum RecentQpMsnStatus {
    NoExist,
    Processing,
    Finished,
    UnKnown,
}

impl Default for RecentQpMsnStatus {
    fn default() -> (r: Self)
        ensures
            r == RecentQpMsnStatus::NoExist,
    {
        Self::NoExist
    }
}

/// A message that is being received
#[derive(Debug)]
pub struct RecvContext {
    is_read_resp: bool,
    start_addr: u64,
    len_in_bytes: u32,
    start_psn: Psn,
    recv_map: Option<SlidingWindow>,
}

/// What is known of a message that is being received
pub struct CtxView {
    pub is_read_resp: bool,
    pub start_addr: u64,
    pub len: u32,
    pub start_psn: u32,
    /// The packets that have arrived, once the order was lost
    pub window: Option<WindowView>,
}

impl View for RecvContext {
    type V = CtxView;

    closed spec fn view(&self) -> CtxView {
        CtxView {
            is_read_resp: self.is_read_resp,
            start_addr: self.start_addr,
            len: self.len_in_bytes,
            start_psn: self.start_psn@,
            window: match self.recv_map {
                Some(w) => Some(w@),
                None => None,
            },
        }
    }
}

/// A window that can be worked with: its intervals ascend and neither overlap
/// nor touch, and its message has a packet.
pub open spec fn window_wf(w: WindowView) -> bool {
    ascending(w.intervals) && separated(w.intervals) && w.count > 0
}

impl CtxView {
    /// A message of which the packet `e` arrived.
    pub open spec fn of_event(e: ToHostWorkRbDescWriteOrReadResp) -> CtxView {
        CtxView { is_read_resp: e.is_read_resp, start_addr: e.addr, len: e.len, start_psn: e.psn@, window: None }
    }

    /// A message of which only the packet `e`, its first one, arrived, while the
    /// order is lost.
    pub open spec fn of_event_with_window(e: ToHostWorkRbDescWriteOrReadResp, pmtu: Pmtu) -> CtxView {
        let count = packet_cnt(pmtu.size_spec() as int, e.addr as int, e.len as int) as u32;
        CtxView {
            window: Some(WindowView::fresh(e.psn@, count).inserted(e.psn@, e.psn@)),
            ..CtxView::of_event(e)
        }
    }

    /// The message when the order gets lost: its packets up to `last` arrived,
    /// and the packet `recved`.
    pub open spec fn with_window(self, last: u32, recved: u32, pmtu: Pmtu) -> CtxView {
        let count = packet_cnt(pmtu.size_spec() as int, self.start_addr as int, self.len as int) as u32;
        CtxView {
            window: Some(
                WindowView::fresh(self.start_psn, count).inserted(self.start_psn, last).inserted(recved, recved),
            ),
            ..self
        }
    }

    /// The message after a packet arrived, and before it those of `range`.
    pub open spec fn with_packet(self, range: Option<(u32, u32)>, psn: u32) -> CtxView {
        let w = self.window->0;
        let w1 = if range is Some { w.inserted((range->0).0, (range->0).1) } else { w };
        CtxView { window: Some(w1.inserted(psn, psn)), ..self }
    }

    /// Its window, if there is one, can be worked with.
    pub open spec fn wf(self) -> bool {
        self.window is Some ==> window_wf(self.window->0)
    }
}

impl RecvContext {
    /// A message whose first packet arrived while the order is lost
    pub fn new_with_recvmap(event: &ToHostWorkRbDescWriteOrReadResp, pmtu: Pmtu) -> (r: Self)
        ensures
            r@ == CtxView::of_event_with_window(*event, pmtu),
            r@.wf(),
            r@.is_read_resp == event.is_read_resp,
            r@.start_addr == event.addr,
            r@.len == event.len,
            r@.start_psn == event.psn@,
            r@.window is Some,
            r@.window->0.start == event.psn@,
            r@.window->0.count == packet_cnt(pmtu.size_spec() as int, event.addr as int, event.len as int),
    {
        let pkt_len: u32 = calculate_packet_cnt(pmtu, event.addr, event.len);
        let mut map = SlidingWindow::new(event.psn, pkt_len);
        map.insert((event.psn, event.psn));
        Self {
            is_read_resp: event.is_read_resp,
            start_addr: event.addr,
            len_in_bytes: event.len,
            start_psn: event.psn,
            recv_map: Some(map),
        }
    }

    /// A message whose first packet arrived in order
    pub fn from_event(event: &ToHostWorkRbDescWriteOrReadResp) -> (r: Self)
        ensures
            r@ == CtxView::of_event(*event),
            r@.wf(),
            r@.is_read_resp == event.is_read_resp,
            r@.start_addr == event.addr,
            r@.len == event.len,
            r@.start_psn == event.psn@,
            r@.window is None,
    {
        Self {
            is_read_resp: event.is_read_resp,
            start_addr: event.addr,
            len_in_bytes: event.len,
            start_psn: event.psn,
            recv_map: None,
        }
    }

    /// Starts to record packets, now that the order is lost
    pub fn create_map_on_psn(&mut self, last_continous_psn: Psn, recved_psn: Psn, pmtu: Pmtu)
        ensures
            final(self)@ == old(self)@.with_window(last_continous_psn@, recved_psn@, pmtu),
            final(self)@.wf(),
            final(self)@ == (CtxView { window: final(self)@.window, ..old(self)@ }),
            final(self)@.window is Some,
            final(self)@.window->0.start == old(self)@.start_psn,
            final(self)@.window->0.count == packet_cnt(
                pmtu.size_spec() as int,
                old(self)@.start_addr as int,
                old(self)@.len as int,
            ),
    {
        let pkt_len: u32 = calculate_packet_cnt(pmtu, self.start_addr, self.len_in_bytes);
        let mut map = SlidingWindow::new(self.start_psn, pkt_len);
        map.insert((self.start_psn, last_continous_psn));
        map.insert((recved_psn, recved_psn));
        self.recv_map = Some(map);
    }

    /// Records the packets of `range` and the packet `psn`
    fn record(&mut self, range: Option<(Psn, Psn)>, psn: Psn)
        requires
            old(self)@.wf(),
            old(self)@.window is Some,
            range matches Some((from, to)) ==> forward(old(self)@.window->0.start, from@, to@),
        ensures
            final(self)@ == old(self)@.with_packet(range_values(range), psn@),
            final(self)@.wf(),
    {
        match self.recv_map.take() {
            Some(map) => {
                let mut map = map;
                if let Some(continous_range) = range {
                    map.insert(continous_range);
                }
                map.insert((psn, psn));
                self.recv_map = Some(map);
            },
            None => {},
        }
    }

    /// The packets that have arrived, once the order was lost
    pub fn window(&self) -> (r: Option<&SlidingWindow>)
        ensures
            r is Some <==> self@.window is Some,
            r is Some ==> (r->0)@ == self@.window->0,
    {
        self.recv_map.as_ref()
    }
}

/// The numbers of a range of packets.
pub open spec fn range_values(range: Option<(Psn, Psn)>) -> Option<(u32, u32)> {
    match range {
        Some((a, b)) => Some((a@, b@)),
        None => None,
    }
}

/// The packets after `largest` and before `expected`, where there are any.
pub open spec fn continuous_range(largest: u32, expected: u32) -> Option<(u32, u32)> {
    let left = add24(largest as int, 1);
    let right = sub24(expected as int, 1);
    if sub24(right as int, left as int) <= PSN_MAX_WINDOW_SIZE {
        Some((left, right))
    } else {
        None
    }
}

/// The packets that the card took in order since the last one that it reported:
/// those after `largest_psn_recved` and before `expected_psn`
pub fn get_continous_range(largest_psn_recved: Psn, expected_psn: Psn) -> (r: Option<(Psn, Psn)>)
    ensures
        range_values(r) == continuous_range(largest_psn_recved@, expected_psn@),
{
    let left: Psn = largest_psn_recved.wrapping_add(1);
    let right: Psn = expected_psn.wrapping_sub(1);
    let left_value: u32 = left.get();
    if right.wrapping_sub(left_value).get() <= PSN_MAX_WINDOW_SIZE {
        Some((left, right))
    } else {
        None
    }
}

/// A range of packets never runs backwards, seen from a packet at most half of
/// the number range before both of its ends.
pub proof fn law_range_is_forward(largest: u32, expected: u32, start: u32)
    requires
        continuous_range(largest, expected) is Some,
    ensures
        ({
            let (left, right) = continuous_range(largest, expected)->0;
            forward(start, left, right)
        }),
{
}

/// What is known of the messages of a queue pair
pub struct PerQpView {
    /// The messages that are being received, by their numbers
    pub ctxs: Seq<(u16, CtxView)>,
    /// The newest packet that was reported
    pub largest: u32,
    /// What became of the last messages
    pub recent: Seq<(u16, RecentQpMsnStatus)>,
}

/// Where the message `msn` stands; -1 if it does not.
pub open spec fn find(s: Seq<(u16, CtxView)>, msn: u16) -> int
    decreases s.len(),
{
    if s.len() == 0 {
        -1
    } else if s.last().0 == msn {
        s.len() - 1
    } else {
        find(s.drop_last(), msn)
    }
}

/// No message stands twice.
pub open spec fn distinct(s: Seq<(u16, CtxView)>) -> bool {
    forall|j: int, k: int| #![trigger s[j], s[k]] 0 <= j < k < s.len() ==> s[j].0 != s[k].0
}

/// `find` finds.
pub proof fn lemma_find(s: Seq<(u16, CtxView)>, msn: u16)
    ensures
        -1 <= find(s, msn) < s.len(),
        find(s, msn) >= 0 ==> s[find(s, msn)].0 == msn,
        find(s, msn) < 0 ==> forall|k: int| #![trigger s[k]] 0 <= k < s.len() ==> s[k].0 != msn,
    decreases s.len(),
{
    if s.len() > 0 && s.last().0 != msn {
        let t = s.drop_last();
        lemma_find(t, msn);
        if find(s, msn) < 0 {
            assert forall|k: int| #![trigger s[k]] 0 <= k < s.len() implies s[k].0 != msn by {
                if k < t.len() {
                    assert(t[k].0 != msn);
                }
            }
        }
    }
}

/// `find` finds where a message stands.
pub proof fn lemma_find_is(s: Seq<(u16, CtxView)>, msn: u16, i: int)
    requires
        distinct(s),
        0 <= i < s.len(),
        s[i].0 == msn,
    ensures
        find(s, msn) == i,
{
    lemma_find(s, msn);
    let f = find(s, msn);
    if f >= 0 && f != i {
        assert(s[f].0 == s[i].0);
    }
}

/// What became of a message, as far as it is remembered: of messages that share
/// a place, the last one.
pub open spec fn recent_status(recent: Seq<(u16, RecentQpMsnStatus)>, msn: u16) -> RecentQpMsnStatus {
    let entry = recent[(msn % 16) as int];
    if entry.1 == RecentQpMsnStatus::Finished && entry.0 != msn {
        RecentQpMsnStatus::NoExist
    } else {
        entry.1
    }
}

impl PerQpView {
    /// No message yet.
    pub open spec fn fresh(largest: u32) -> PerQpView {
        PerQpView {
            ctxs: Seq::empty(),
            largest,
            recent: Seq::new(16, |i: int| (0u16, RecentQpMsnStatus::NoExist)),
        }
    }

    /// The message `msn` is being received.
    pub open spec fn has(self, msn: u16) -> bool {
        find(self.ctxs, msn) >= 0
    }

    /// What is known of the message `msn`.
    pub open spec fn ctx(self, msn: u16) -> CtxView {
        self.ctxs[find(self.ctxs, msn)].1
    }

    /// With what became of a message.
    pub open spec fn with_recent(self, msn: u16, status: RecentQpMsnStatus) -> PerQpView {
        PerQpView { recent: self.recent.update((msn % 16) as int, (msn, status)), ..self }
    }

    /// With a message: a new one is being received, another one is replaced.
    pub open spec fn with_ctx(self, msn: u16, ctx: CtxView) -> PerQpView {
        if self.has(msn) {
            PerQpView { ctxs: self.ctxs.update(find(self.ctxs, msn), (msn, ctx)), ..self }
        } else {
            PerQpView { ctxs: self.ctxs.push((msn, ctx)), ..self }.with_recent(msn, RecentQpMsnStatus::Processing)
        }
    }

    /// With a message finished.
    pub open spec fn without_ctx(self, msn: u16) -> PerQpView {
        let p = if self.has(msn) {
            PerQpView { ctxs: self.ctxs.remove(find(self.ctxs, msn)), ..self }
        } else {
            self
        };
        p.with_recent(msn, RecentQpMsnStatus::Finished)
    }

    /// With packet `psn` reported: the newest one counts.
    pub open spec fn with_largest(self, psn: u32) -> PerQpView {
        if sub24(self.largest as int, psn as int) < PSN_MAX_WINDOW_SIZE {
            self
        } else {
            PerQpView { largest: psn, ..self }
        }
    }

    /// When the order gets lost: every message starts to record its packets.
    pub open spec fn with_windows(self, last: u32, recved: u32, pmtu: Pmtu) -> PerQpView {
        PerQpView {
            ctxs: Seq::new(
                self.ctxs.len(),
                |i: int| (self.ctxs[i].0, self.ctxs[i].1.with_window(last, recved, pmtu)),
            ),
            ..self
        }
    }

    /// It can be worked with.
    pub open spec fn wf(self) -> bool {
        &&& distinct(self.ctxs)
        &&& self.recent.len() == 16
        &&& forall|i: int| #![trigger self.ctxs[i]] 0 <= i < self.ctxs.len() ==> self.ctxs[i].1.wf()
    }

    /// Every message records its packets.
    pub open spec fn recording(self) -> bool {
        forall|i: int| #![trigger self.ctxs[i]] 0 <= i < self.ctxs.len() ==> self.ctxs[i].1.window is Some
    }
}

/// The messages of a queue pair
#[derive(Debug)]
pub struct PerQpContextMap {
    map: Vec<(u16, RecvContext)>,
    largest_psn_recved: Psn,
    recent_msn_finished: Vec<(u16, RecentQpMsnStatus)>,
}

impl View for PerQpContextMap {
    type V = PerQpView;

    closed spec fn view(&self) -> PerQpView {
        PerQpView {
            ctxs: self.map@.map_values(|e: (u16, RecvContext)| (e.0, e.1@)),
            largest: self.largest_psn_recved@,
            recent: self.recent_msn_finished@,
        }
    }
}

impl PerQpContextMap {
    /// No message yet; `largest_psn_recved` is the newest packet
    pub fn new(largest_psn_recved: Psn) -> (r: Self)
        ensures
            r@ == PerQpView::fresh(largest_psn_recved@),
            r@.wf(),
    {
        let mut recent: Vec<(u16, RecentQpMsnStatus)> = Vec::new();
        let mut i: usize = 0;
        while i < MAX_MSN_WINDOW_PER_QP
            invariant
                i <= 16,
                recent@.len() == i,
                forall|k: int| 0 <= k < i ==> #[trigger] recent@[k] == (0u16, RecentQpMsnStatus::NoExist),
            decreases 16 - i,
        {
            recent.push((0, RecentQpMsnStatus::NoExist));
            i = i + 1;
        }
        let r = Self { map: Vec::new(), largest_psn_recved, recent_msn_finished: recent };
        assert(r@.ctxs =~= Seq::<(u16, CtxView)>::empty());
        assert(r@.recent =~= PerQpView::fresh(largest_psn_recved@).recent);
        r
    }

    /// Takes note of a packet: the newest one counts
    pub fn update_largest_psn_recved(&mut self, psn: Psn)
        ensures
            final(self)@ == old(self)@.with_largest(psn@),
    {
        if !self.largest_psn_recved.larger_in_psn(psn) {
            self.largest_psn_recved = psn;
        }
        assert(self@.ctxs =~= old(self)@.ctxs);
    }

    /// The newest packet that was reported
    pub fn largest_psn_recved(&self) -> (r: Psn)
        ensures
            r@ == self@.largest,
    {
        self.largest_psn_recved
    }

    /// What became of a message
    pub fn query_recent_msn_status(&self, msn: Msn) -> (r: RecentQpMsnStatus)
        requires
            self@.wf(),
        ensures
            r == recent_status(self@.recent, msn@),
    {
        let value: u16 = msn.get();
        let idx: usize = (value % 16) as usize;
        let (previous_msn, status): (u16, RecentQpMsnStatus) = self.recent_msn_finished[idx];
        match status {
            RecentQpMsnStatus::NoExist => RecentQpMsnStatus::NoExist,
            RecentQpMsnStatus::Processing => RecentQpMsnStatus::Processing,
            RecentQpMsnStatus::Finished => {
                if previous_msn == value {
                    RecentQpMsnStatus::Finished
                } else {
                    RecentQpMsnStatus::NoExist
                }
            },
            RecentQpMsnStatus::UnKnown => RecentQpMsnStatus::UnKnown,
        }
    }

    /// Remembers what became of a message
    pub fn set_recent_msn_status(&mut self, msn: Msn, status: RecentQpMsnStatus)
        requires
            old(self)@.wf(),
        ensures
            final(self)@ == old(self)@.with_recent(msn@, status),
            final(self)@.wf(),
    {
        let value: u16 = msn.get();
        let idx: usize = (value % 16) as usize;
        self.recent_msn_finished.set(idx, (value, status));
        assert(self@.ctxs =~= old(self)@.ctxs);
    }

    fn position(&self, msn: u16) -> (r: Option<usize>)
        requires
            self@.wf(),
        ensures
            r is Some ==> r->0 == find(self@.ctxs, msn),
            r is None ==> find(self@.ctxs, msn) < 0,
    {
        proof {
            lemma_find(self@.ctxs, msn);
        }
        let mut i: usize = 0;
        while i < self.map.len()
            invariant
                i <= self.map@.len(),
                self@.wf(),
                forall|k: int| 0 <= k < i ==> (#[trigger] self@.ctxs[k]).0 != msn,
            decreases self.map@.len() - i,
        {
            assert(self@.ctxs[i as int].0 == self.map@[i as int].0);
            if self.map[i].0 == msn {
                proof {
                    lemma_find_is(self@.ctxs, msn, i as int);
                }
                return Some(i);
            }
            i = i + 1;
        }
        None
    }

    /// How many messages are being received
    pub fn len(&self) -> (r: usize)
        ensures
            r == self@.ctxs.len(),
    {
        self.map.len()
    }

    /// A message that is being received
    pub fn get(&self, msn: Msn) -> (r: Option<&RecvContext>)
        requires
            self@.wf(),
        ensures
            r is Some <==> self@.has(msn@),
            r is Some ==> (r->0)@ == self@.ctx(msn@),
    {
        proof {
            lemma_find(self@.ctxs, msn@);
        }
        match self.position(msn.get()) {
            Some(i) => Some(&self.map[i].1),
            None => None,
        }
    }

    /// Stores a message, and takes note that it is being received if it is new
    fn insert(&mut self, msn: Msn, ctx: RecvContext)
        requires
            old(self)@.wf(),
            ctx@.wf(),
        ensures
            final(self)@ == old(self)@.with_ctx(msn@, ctx@),
            final(self)@.wf(),
    {
        let value: u16 = msn.get();
        let ghost new = ctx@;
        proof {
            lemma_find(self@.ctxs, value);
        }
        match self.position(value) {
            Some(i) => {
                self.map.set(i, (value, ctx));
                assert(self@.ctxs =~= old(self)@.ctxs.update(i as int, (value, new)));
            },
            None => {
                self.map.push((value, ctx));
                assert(self@.ctxs =~= old(self)@.ctxs.push((value, new)));
                self.set_recent_msn_status(msn, RecentQpMsnStatus::Processing);
            },
        }
    }

    /// Takes a message out, and takes note that it is finished
    fn remove(&mut self, msn: Msn)
        requires
            old(self)@.wf(),
        ensures
            final(self)@ == old(self)@.without_ctx(msn@),
            final(self)@.wf(),
    {
        let value: u16 = msn.get();
        proof {
            lemma_find(self@.ctxs, value);
        }
        if let Some(i) = self.position(value) {
            let _ = self.map.remove(i);
            assert(self@.ctxs =~= old(self)@.ctxs.remove(i as int));
            assert(self@.wf());
        }
        self.set_recent_msn_status(msn, RecentQpMsnStatus::Finished);
    }

    /// Records packets of a message
    fn record(&mut self, msn: Msn, range: Option<(Psn, Psn)>, psn: Psn)
        requires
            old(self)@.wf(),
            old(self)@.has(msn@),
            old(self)@.ctx(msn@).window is Some,
            range matches Some((from, to)) ==> forward(old(self)@.ctx(msn@).window->0.start, from@, to@),
        ensures
            final(self)@ == old(self)@.with_ctx(
                msn@,
                old(self)@.ctx(msn@).with_packet(range_values(range), psn@),
            ),
            final(self)@.wf(),
    {
        let value: u16 = msn.get();
        proof {
            lemma_find(self@.ctxs, value);
        }
        if let Some(i) = self.position(value) {
            let (m, ctx): (u16, RecvContext) = self.map.remove(i);
            let mut ctx = ctx;
            assert(ctx@ == old(self)@.ctxs[i as int].1);
            ctx.record(range, psn);
            let ghost new = ctx@;
            self.map.insert(i, (m, ctx));
            assert(self@.ctxs =~= old(self)@.ctxs.update(i as int, (value, new)));
        }
    }

    /// Lets every message start to record its packets
    fn create_maps(&mut self, last: Psn, recved: Psn, pmtu: Pmtu)
        requires
            old(self)@.wf(),
        ensures
            final(self)@ == old(self)@.with_windows(last@, recved@, pmtu),
            final(self)@.wf(),
            final(self)@.recording(),
    {
        let ghost s = self@;
        let ghost t = s.with_windows(last@, recved@, pmtu);
        let mut i: usize = 0;
        while i < self.map.len()
            invariant
                i <= self.map@.len(),
                self.map@.len() == s.ctxs.len(),
                s == old(self)@,
                s.wf(),
                t == s.with_windows(last@, recved@, pmtu),
                self@.largest == s.largest,
                self@.recent == s.recent,
                forall|k: int| 0 <= k < i ==> #[trigger] self@.ctxs[k] == t.ctxs[k] && self@.ctxs[k].1.wf(),
                forall|k: int| i <= k < s.ctxs.len() ==> #[trigger] self@.ctxs[k] == s.ctxs[k],
            decreases self.map@.len() - i,
        {
            let ghost before = self@;
            let (m, ctx): (u16, RecvContext) = self.map.remove(i);
            let mut ctx = ctx;
            assert((m, ctx@) == before.ctxs[i as int]);
            ctx.create_map_on_psn(last, recved, pmtu);
            let ghost new = ctx@;
            self.map.insert(i, (m, ctx));
            assert(self@.ctxs =~= before.ctxs.update(i as int, (m, new)));
            i = i + 1;
        }
        assert(self@.ctxs =~= t.ctxs);
        assert forall|j: int, k: int| #![trigger self@.ctxs[j], self@.ctxs[k]] 0 <= j < k < self@.ctxs.len() implies self@.ctxs[j].0
            != self@.ctxs[k].0 by {
            assert(s.ctxs[j].0 != s.ctxs[k].0);
        }
    }
}

/// The messages of all queue pairs
#[derive(Debug)]
pub struct RecvContextMap {
    map: HashMap<u32, PerQpContextMap>,
}

impl View for RecvContextMap {
    type V = Map<u32, PerQpView>;

    closed spec fn view(&self) -> Map<u32, PerQpView> {
        self.map@.map_values(|p: PerQpContextMap| p@)
    }
}

/// What is known of the messages of all queue pairs
pub type RecvMap = Map<u32, PerQpView>;

/// They can be worked with.
pub open spec fn recv_wf(m: RecvMap) -> bool {
    forall|q: u32| #[trigger] m.contains_key(q) ==> m[q].wf()
}

/// The queue pair's messages; none if it is not known.
pub open spec fn per_qp(m: RecvMap, qpn: u32, largest: u32) -> PerQpView {
    if m.contains_key(qpn) {
        m[qpn]
    } else {
        PerQpView::fresh(largest)
    }
}

/// What became of a message.
pub open spec fn msn_status(m: RecvMap, qpn: u32, msn: u16) -> RecentQpMsnStatus {
    if m.contains_key(qpn) {
        recent_status(m[qpn].recent, msn)
    } else {
        RecentQpMsnStatus::NoExist
    }
}

/// With a message of a queue pair.
pub open spec fn recv_with_ctx(m: RecvMap, qpn: u32, msn: u16, ctx: CtxView) -> RecvMap {
    m.insert(qpn, per_qp(m, qpn, 0).with_ctx(msn, ctx))
}

/// With a message of a queue pair finished.
pub open spec fn recv_without_ctx(m: RecvMap, qpn: u32, msn: u16) -> RecvMap {
    if m.contains_key(qpn) {
        m.insert(qpn, m[qpn].without_ctx(msn))
    } else {
        m
    }
}

/// With what became of a message of a queue pair.
pub open spec fn recv_with_recent(m: RecvMap, qpn: u32, msn: u16, status: RecentQpMsnStatus) -> RecvMap {
    if m.contains_key(qpn) {
        m.insert(qpn, m[qpn].with_recent(msn, status))
    } else {
        m
    }
}

impl RecvContextMap {
    /// No queue pair yet
    pub fn new() -> (r: Self)
        ensures
            r@ == Map::<u32, PerQpView>::empty(),
            recv_wf(r@),
    {
        let r = Self { map: HashMap::new() };
        assert(r@ =~= Map::<u32, PerQpView>::empty());
        r
    }

    fn take(&mut self, qpn: u32) -> (r: Option<PerQpContextMap>)
        ensures
            r is Some <==> old(self)@.contains_key(qpn),
            r is Some ==> (r->0)@ == old(self)@[qpn],
            final(self)@ == old(self)@.remove(qpn),
    {
        let r = self.map.remove(&qpn);
        assert(self@ =~= old(self)@.remove(qpn));
        r
    }

    fn put(&mut self, qpn: u32, p: PerQpContextMap)
        ensures
            final(self)@ == old(self)@.insert(qpn, p@),
    {
        let ghost v = p@;
        let _ = self.map.insert(qpn, p);
        assert(self@ =~= old(self)@.insert(qpn, v));
    }

    fn insert_ctx(&mut self, qpn: Qpn, msn: Msn, ctx: RecvContext)
        requires
            recv_wf(old(self)@),
            ctx@.wf(),
        ensures
            final(self)@ == recv_with_ctx(old(self)@, qpn@, msn@, ctx@),
            recv_wf(final(self)@),
    {
        let key: u32 = qpn.get();
        let mut p = match self.take(key) {
            Some(p) => p,
            None => PerQpContextMap::new(Psn::default()),
        };
        p.insert(msn, ctx);
        self.put(key, p);
        assert(self@ =~= recv_with_ctx(old(self)@, qpn@, msn@, ctx@));
    }

    fn remove_ctx(&mut self, qpn: Qpn, msn: Msn)
        requires
            recv_wf(old(self)@),
        ensures
            final(self)@ == recv_without_ctx(old(self)@, qpn@, msn@),
            recv_wf(final(self)@),
    {
        let key: u32 = qpn.get();
        if let Some(p) = self.take(key) {
            let mut p = p;
            p.remove(msn);
            self.put(key, p);
        }
        assert(self@ =~= recv_without_ctx(old(self)@, qpn@, msn@));
    }

    /// Forgets the messages of a queue pair
    pub fn remove_per_qp_ctx(&mut self, qpn: Qpn)
        ensures
            final(self)@ == old(self)@.remove(qpn@),
    {
        let _ = self.take(qpn.get());
    }

    /// The messages of a queue pair
    pub fn get_per_qp_ctx(&self, qpn: Qpn) -> (r: Option<&PerQpContextMap>)
        ensures
            r is Some <==> self@.contains_key(qpn@),
            r is Some ==> (r->0)@ == self@[qpn@],
    {
        self.map.get(&qpn.get())
    }

    /// A message of a queue pair that is being received
    pub fn get_ctx(&self, qpn: Qpn, msn: Msn) -> (r: Option<&RecvContext>)
        requires
            recv_wf(self@),
        ensures
            r is Some <==> self@.contains_key(qpn@) && self@[qpn@].has(msn@),
            r is Some ==> (r->0)@ == self@[qpn@].ctx(msn@),
    {
        match self.get_per_qp_ctx(qpn) {
            Some(p) => p.get(msn),
            None => None,
        }
    }

    fn query_recent_msn_status(&self, qpn: Qpn, msn: Msn) -> (r: RecentQpMsnStatus)
        requires
            recv_wf(self@),
        ensures
            r == msn_status(self@, qpn@, msn@),
    {
        match self.get_per_qp_ctx(qpn) {
            Some(p) => p.query_recent_msn_status(msn),
            None => RecentQpMsnStatus::NoExist,
        }
    }

    fn set_recent_msn_status(&mut self, qpn: Qpn, msn: Msn, status: RecentQpMsnStatus)
        requires
            recv_wf(old(self)@),
        ensures
            final(self)@ == recv_with_recent(old(self)@, qpn@, msn@, status),
            recv_wf(final(self)@),
    {
        let key: u32 = qpn.get();
        if let Some(p) = self.take(key) {
            let mut p = p;
            p.set_recent_msn_status(msn, status);
            self.put(key, p);
        }
        assert(self@ =~= recv_with_recent(old(self)@, qpn@, msn@, status));
    }
}

/// What the card reports to the checker
#[derive(Debug, Clone, Copy)]
pub enum PacketCheckEvent {
    Write(ToHostWorkRbDescWriteOrReadResp),
    Ack(ToHostWorkRbDescAck),
    ReadReq(ToHostWorkRbDescRead),
}

impl Default for PacketCheckEvent {
    fn default() -> (r: Self)
        ensures
            r matches PacketCheckEvent::Write(e) && e.write_type == ToHostWorkRbDescWriteType::Only && !e.is_read_resp
                && !e.can_auto_ack && e.psn@ == 0 && e.addr == 0 && e.len == 0 && e.common.status
                == ToHostWorkRbDescStatus::Normal && e.common.trans == ToHostWorkRbDescTransType::Rc
                && e.common.dqpn@ == 0 && e.common.msn@ == 0 && e.common.expected_psn@ == 0,
    {
        Self::Write(ToHostWorkRbDescWriteOrReadResp::default())
    }
}

impl From<ToHostWorkRbDescWriteOrReadResp> for PacketCheckEvent {
    fn from(desc: ToHostWorkRbDescWriteOrReadResp) -> (r: Self) {
        Self::Write(desc)
    }
}

impl vstd::std_specs::convert::FromSpecImpl<ToHostWorkRbDescWriteOrReadResp> for PacketCheckEvent {
    open spec fn obeys_from_spec() -> bool {
        true
    }

    open spec fn from_spec(desc: ToHostWorkRbDescWriteOrReadResp) -> Self {
        PacketCheckEvent::Write(desc)
    }
}

impl From<ToHostWorkRbDescAck> for PacketCheckEvent {
    fn from(desc: ToHostWorkRbDescAck) -> (r: Self) {
        Self::Ack(desc)
    }
}

impl vstd::std_specs::convert::FromSpecImpl<ToHostWorkRbDescAck> for PacketCheckEvent {
    open spec fn obeys_from_spec() -> bool {
        true
    }

    open spec fn from_spec(desc: ToHostWorkRbDescAck) -> Self {
        PacketCheckEvent::Ack(desc)
    }
}

impl From<ToHostWorkRbDescRead> for PacketCheckEvent {
    fn from(desc: ToHostWorkRbDescRead) -> (r: Self) {
        Self::ReadReq(desc)
    }
}

impl vstd::std_specs::convert::FromSpecImpl<ToHostWorkRbDescRead> for PacketCheckEvent {
    open spec fn obeys_from_spec() -> bool {
        true
    }

    open spec fn from_spec(desc: ToHostWorkRbDescRead) -> Self {
        PacketCheckEvent::ReadReq(desc)
    }
}

/// What the checker wants done
#[derive(Debug, Clone, Copy)]
pub enum CheckerAction {
    /// Send an acknowledgement from the slot at `addr`
    SendAck { addr: usize, key: Key, qpn: Qpn, msn: Msn, psn: Psn },
    /// Wake up whoever waits for the message
    WakeUp { qpn: Qpn, msn: Msn },
    /// Tell the card from which packet on the queue pair is in order again
    Recover { qpn: Qpn, psn: Psn },
    /// Send the answer to a read request
    SendReadResp(ToCardWorkRbDesc),
}

/// What the checker works on
pub struct CheckState {
    /// The messages that are being received
    pub recv: RecvMap,
    /// The queue pairs
    pub qps: Map<u32, QpContext>,
    /// The slots for acknowledgements
    pub slots: PacketBufView,
    /// What is to be done
    pub actions: Seq<CheckerAction>,
}

impl CheckState {
    /// With an acknowledgement to be sent from the next slot.
    pub open spec fn acked(self, qpn: Qpn, msn: Msn, psn: u32) -> CheckState {
        CheckState {
            slots: self.slots.advanced(),
            actions: self.actions.push(
                CheckerAction::SendAck {
                    addr: self.slots.slot_addr(self.slots.next as int, ACK_SLOT_SIZE as int) as usize,
                    key: self.slots.lkey,
                    qpn,
                    msn,
                    psn: ThreeBytesStruct::of(psn),
                },
            ),
            ..self
        }
    }

    /// With somebody to be woken up.
    pub open spec fn woken(self, qpn: Qpn, msn: Msn) -> CheckState {
        CheckState { actions: self.actions.push(CheckerAction::WakeUp { qpn, msn }), ..self }
    }

    /// At the end of a message in order: who read is woken up, and a write is
    /// acknowledged unless the card does so by itself.
    pub open spec fn ended(self, e: ToHostWorkRbDescWriteOrReadResp) -> CheckState {
        if e.is_read_resp {
            self.woken(e.common.dqpn, e.common.msn)
        } else if !e.can_auto_ack {
            self.acked(e.common.dqpn, e.common.msn, e.psn@)
        } else {
            self
        }
    }

    /// When the order of a queue pair gets lost.
    pub open spec fn entered_error(self, e: ToHostWorkRbDescWriteOrReadResp) -> CheckState {
        let qpn = e.common.dqpn@;
        let p = per_qp(self.recv, qpn, e.psn@).with_windows(
            sub24(e.common.expected_psn@ as int, 1),
            e.psn@,
            self.qps[qpn].pmtu,
        );
        CheckState {
            qps: with_status(self.qps, qpn, QpStatus::OutOfOrder),
            recv: self.recv.insert(qpn, p),
            ..self
        }
    }

    /// A packet that came in order.
    pub open spec fn in_order(self, e: ToHostWorkRbDescWriteOrReadResp) -> CheckState {
        let qpn = e.common.dqpn@;
        let msn = e.common.msn@;
        match e.write_type {
            ToHostWorkRbDescWriteType::First => if msn_status(self.recv, qpn, msn) == RecentQpMsnStatus::NoExist {
                CheckState { recv: recv_with_ctx(self.recv, qpn, msn, CtxView::of_event(e)), ..self }
            } else {
                self
            },
            ToHostWorkRbDescWriteType::Middle => self,
            ToHostWorkRbDescWriteType::Last => CheckState {
                recv: recv_without_ctx(self.recv, qpn, msn),
                ..self
            }.ended(e),
            ToHostWorkRbDescWriteType::Only => CheckState {
                recv: recv_with_recent(self.recv, qpn, msn, RecentQpMsnStatus::Finished),
                ..self
            }.ended(e),
        }
    }

    /// With a packet reported.
    pub open spec fn noted(self, e: ToHostWorkRbDescWriteOrReadResp) -> CheckState {
        let qpn = e.common.dqpn@;
        CheckState { recv: self.recv.insert(qpn, self.recv[qpn].with_largest(e.psn@)), ..self }
    }

    /// A message of which a packet was recorded: a complete one is finished.
    /// Where no other message is left to be received, and this one has no gap up
    /// to the newest packet, the card is told to go on from there.
    pub open spec fn settled(self, qpn: Qpn, msn: Msn) -> CheckState {
        let ctx = self.recv[qpn@].ctx(msn@);
        let w = ctx.window->0;
        let s = if w.complete() {
            let t = CheckState { recv: recv_without_ctx(self.recv, qpn@, msn@), ..self };
            if ctx.is_read_resp {
                t.woken(qpn, msn)
            } else {
                t.acked(qpn, msn, w.last_psn())
            }
        } else {
            self
        };
        if s.recv[qpn@].ctxs.len() <= 1 && w.recover_psn() == Some(add24(s.recv[qpn@].largest as int, 1)) {
            CheckState {
                actions: s.actions.push(
                    CheckerAction::Recover { qpn, psn: ThreeBytesStruct::of(w.recover_psn()->0) },
                ),
                ..s
            }
        } else {
            s
        }
    }

    /// A packet while the order is lost.
    pub open spec fn out_of_order(self, e: ToHostWorkRbDescWriteOrReadResp, pmtu: Pmtu) -> CheckState {
        let qpn = e.common.dqpn@;
        let msn = e.common.msn@;
        match e.write_type {
            ToHostWorkRbDescWriteType::First => (if msn_status(self.recv, qpn, msn) == RecentQpMsnStatus::NoExist {
                CheckState {
                    recv: recv_with_ctx(self.recv, qpn, msn, CtxView::of_event_with_window(e, pmtu)),
                    ..self
                }
            } else {
                self
            }).noted(e),
            ToHostWorkRbDescWriteType::Middle | ToHostWorkRbDescWriteType::Last => if self.recv[qpn].has(msn) {
                let range = continuous_range(self.recv[qpn].largest, e.common.expected_psn@);
                let ctx = self.recv[qpn].ctx(msn).with_packet(range, e.psn@);
                CheckState { recv: recv_with_ctx(self.recv, qpn, msn, ctx), ..self }.noted(e).settled(
                    e.common.dqpn,
                    e.common.msn,
                )
            } else {
                self.noted(e)
            },
            ToHostWorkRbDescWriteType::Only => CheckState {
                recv: recv_with_recent(self.recv, qpn, msn, RecentQpMsnStatus::Finished),
                ..self
            }.ended(e).noted(e),
        }
    }

    /// A packet of a write, or of the answer to a read. Those for an unknown
    /// queue pair do not count.
    pub open spec fn wrote(self, e: ToHostWorkRbDescWriteOrReadResp) -> CheckState {
        let qpn = e.common.dqpn@;
        if !self.qps.contains_key(qpn) {
            self
        } else if self.qps[qpn].status != QpStatus::Normal {
            self.out_of_order(e, self.qps[qpn].pmtu)
        } else if e.common.expected_psn != e.psn {
            self.entered_error(e).out_of_order(e, self.qps[qpn].pmtu)
        } else {
            self.in_order(e)
        }
    }

    /// A read request: it is answered if its queue pair is known.
    pub open spec fn asked(self, e: ToHostWorkRbDescRead) -> CheckState {
        let qpn = e.common.dqpn@;
        let s = CheckState {
            recv: recv_with_recent(self.recv, qpn, e.common.msn@, RecentQpMsnStatus::Finished),
            ..self
        };
        if self.qps.contains_key(qpn) {
            CheckState {
                qps: self.qps.insert(qpn, after_read_resp(self.qps[qpn], e)),
                actions: self.actions.push(CheckerAction::SendReadResp(read_resp_desc(self.qps[qpn], e))),
                ..s
            }
        } else {
            s
        }
    }

    /// After an event.
    pub open spec fn after(self, event: PacketCheckEvent) -> CheckState {
        match event {
            PacketCheckEvent::Write(e) => self.wrote(e),
            PacketCheckEvent::ReadReq(e) => self.asked(e),
            PacketCheckEvent::Ack(e) => if e.code == ToHostWorkRbDescAethCode::Ack {
                self.woken(e.common.dqpn, e.common.msn)
            } else {
                self
            },
        }
    }

    /// Every queue pair that lost the order records the packets of its messages.
    pub open spec fn ready(self) -> bool {
        forall|q: u32|
            #![trigger self.qps.contains_key(q)]
            self.qps.contains_key(q) && self.qps[q].status == QpStatus::OutOfOrder ==> self.recv.contains_key(q)
                && self.recv[q].recording()
    }
}

/// Follows the packets that the card reports
#[derive(Debug)]
pub struct PacketCheckerContext {
    recv_ctx_map: RecvContextMap,
    ack_buffers: PacketBuf<ACK_SLOT_SIZE>,
}

impl PacketCheckerContext {
    /// The messages that are being received
    pub closed spec fn recv(&self) -> RecvMap {
        self.recv_ctx_map@
    }

    /// The slots for acknowledgements
    pub closed spec fn slots(&self) -> PacketBufView {
        self.ack_buffers@
    }

    /// What the checker works on, before anything is to be done
    pub open spec fn state(&self, qps: Map<u32, QpContext>) -> CheckState {
        CheckState { recv: self.recv(), qps, slots: self.slots(), actions: Seq::empty() }
    }

    /// It can be worked with.
    pub closed spec fn wf(&self) -> bool {
        recv_wf(self.recv_ctx_map@) && self.ack_buffers.wf()
    }

    /// A checker that has seen nothing
    pub fn new(ack_buffers: PacketBuf<ACK_SLOT_SIZE>) -> (r: Self)
        requires
            ack_buffers.wf(),
        ensures
            r.wf(),
            r.recv() == Map::<u32, PerQpView>::empty(),
            r.slots() == ack_buffers@,
    {
        Self { recv_ctx_map: RecvContextMap::new(), ack_buffers }
    }

    /// The messages that are being received
    pub fn recv_ctx_map(&self) -> (r: &RecvContextMap)
        requires
            self.wf(),
        ensures
            r@ == self.recv(),
            recv_wf(r@),
    {
        &self.recv_ctx_map
    }

    /// Takes note of what the card reports, and says what is to be done.
    pub fn handle_check_event(&mut self, qp_table: &mut QpTable, event: &PacketCheckEvent) -> (r: Vec<CheckerAction>)
        requires
            old(self).wf(),
            old(self).state(old(qp_table)@).ready(),
        ensures
            final(self).wf(),
            recv_wf(final(self).recv()),
            ({
                let s = old(self).state(old(qp_table)@).after(*event);
                &&& final(self).recv() == s.recv
                &&& final(qp_table)@ == s.qps
                &&& final(self).slots() == s.slots
                &&& r@ == s.actions
                &&& s.ready()
            }),
    {
        let mut actions: Vec<CheckerAction> = Vec::new();
        let ghost start = self.state(qp_table@);
        match event {
            PacketCheckEvent::Write(event) => {
                self.handle_write(qp_table, event, &mut actions);
            },
            PacketCheckEvent::ReadReq(event) => {
                self.recv_ctx_map.set_recent_msn_status(
                    event.common.dqpn,
                    event.common.msn,
                    RecentQpMsnStatus::Finished,
                );
                if let Ok(desc) = make_read_resp(qp_table, event) {
                    actions.push(CheckerAction::SendReadResp(*desc));
                }
                proof {
                    let s = start.asked(*event);
                    assert(actions@ =~= s.actions);
                    assert(s.ready());
                }
            },
            PacketCheckEvent::Ack(event) => {
                if matches!(event.code, ToHostWorkRbDescAethCode::Ack) {
                    actions.push(CheckerAction::WakeUp { qpn: event.common.dqpn, msn: event.common.msn });
                }
                proof {
                    let s = start.after(PacketCheckEvent::Ack(*event));
                    assert(actions@ =~= s.actions);
                    assert(s.ready());
                }
            },
        }
        actions
    }

    fn handle_write(
        &mut self,
        qp_table: &mut QpTable,
        event: &ToHostWorkRbDescWriteOrReadResp,
        actions: &mut Vec<CheckerAction>,
    )
        requires
            old(self).wf(),
            old(self).state(old(qp_table)@).ready(),
            old(actions)@ == Seq::<CheckerAction>::empty(),
        ensures
            final(self).wf(),
            ({
                let s = old(self).state(old(qp_table)@).wrote(*event);
                &&& final(self).recv() == s.recv
                &&& final(qp_table)@ == s.qps
                &&& final(self).slots() == s.slots
                &&& final(actions)@ == s.actions
                &&& s.ready()
            }),
    {
        let qpn: Qpn = event.common.dqpn;
        let expected_psn: Psn = event.common.expected_psn;
        let psn: Psn = event.psn;
        let enter_error: bool = expected_psn != psn;
        let qp: QpContext = match qp_table.get(qpn) {
            Some(qp) => qp,
            None => return,
        };
        let is_normal: bool = qp.status.is_normal();
        if is_normal && !enter_error {
            self.handle_qp_normal(event, actions);
            proof {
                lemma_in_order_ready(old(self).state(old(qp_table)@), *event);
            }
        } else {
            if is_normal {
                self.enter_qp_error_status(qp_table, event, qp.pmtu);
            }
            proof {
                let s0 = old(self).state(old(qp_table)@);
                let s1 = if is_normal { s0.entered_error(*event) } else { s0 };
                if is_normal {
                    lemma_entered_ready(s0, *event);
                }
                lemma_out_of_order_ready(s1, *event, qp.pmtu);
            }
            self.handle_qp_ooo(Ghost(qp_table@), event, qp.pmtu, actions);
        }
    }

    fn send_ack(&mut self, qpn: Qpn, msn: Msn, psn: Psn, actions: &mut Vec<CheckerAction>)
        requires
            old(self).wf(),
        ensures
            final(self).wf(),
            final(self).recv() == old(self).recv(),
            final(self).slots() == old(self).slots().advanced(),
            final(actions)@ == old(actions)@.push(
                CheckerAction::SendAck {
                    addr: old(self).slots().slot_addr(old(self).slots().next as int, ACK_SLOT_SIZE as int) as usize,
                    key: old(self).slots().lkey,
                    qpn,
                    msn,
                    psn,
                },
            ),
    {
        let slot = self.ack_buffers.recycle_buf();
        actions.push(CheckerAction::SendAck { addr: slot.addr, key: slot.key, qpn, msn, psn });
    }

    fn end_message(&mut self, event: &ToHostWorkRbDescWriteOrReadResp, actions: &mut Vec<CheckerAction>)
        requires
            old(self).wf(),
        ensures
            final(self).wf(),
            ({
                let s = (CheckState {
                    recv: old(self).recv(),
                    qps: Map::empty(),
                    slots: old(self).slots(),
                    actions: old(actions)@,
                }).ended(*event);
                &&& final(self).recv() == s.recv
                &&& final(self).slots() == s.slots
                &&& final(actions)@ == s.actions
            }),
    {
        let qpn: Qpn = event.common.dqpn;
        let msn: Msn = event.common.msn;
        proof {
            ThreeBytesStruct::lemma_of(event.psn@);
            ThreeBytesStruct::lemma_view_injective(event.psn, ThreeBytesStruct::of(event.psn@));
        }
        if event.is_read_resp {
            actions.push(CheckerAction::WakeUp { qpn, msn });
        } else if !event.can_auto_ack {
            self.send_ack(qpn, msn, event.psn, actions);
        }
    }

    fn handle_qp_normal(&mut self, event: &ToHostWorkRbDescWriteOrReadResp, actions: &mut Vec<CheckerAction>)
        requires
            old(self).wf(),
        ensures
            final(self).wf(),
            ({
                let s = (CheckState {
                    recv: old(self).recv(),
                    qps: Map::empty(),
                    slots: old(self).slots(),
                    actions: old(actions)@,
                }).in_order(*event);
                &&& final(self).recv() == s.recv
                &&& final(self).slots() == s.slots
                &&& final(actions)@ == s.actions
            }),
    {
        let qpn: Qpn = event.common.dqpn;
        let msn: Msn = event.common.msn;
        match event.write_type {
            ToHostWorkRbDescWriteType::First => {
                let status = self.recv_ctx_map.query_recent_msn_status(qpn, msn);
                if matches!(status, RecentQpMsnStatus::NoExist) {
                    let ctx = RecvContext::from_event(event);
                    self.recv_ctx_map.insert_ctx(qpn, msn, ctx);
                }
            },
            ToHostWorkRbDescWriteType::Last => {
                self.recv_ctx_map.remove_ctx(qpn, msn);
                self.end_message(event, actions);
            },
            ToHostWorkRbDescWriteType::Only => {
                self.recv_ctx_map.set_recent_msn_status(qpn, msn, RecentQpMsnStatus::Finished);
                self.end_message(event, actions);
            },
            ToHostWorkRbDescWriteType::Middle => {},
        }
    }

    fn enter_qp_error_status(&mut self, qp_table: &mut QpTable, event: &ToHostWorkRbDescWriteOrReadResp, pmtu: Pmtu)
        requires
            old(self).wf(),
            old(qp_table)@.contains_key(event.common.dqpn@),
            pmtu == old(qp_table)@[event.common.dqpn@].pmtu,
        ensures
            final(self).wf(),
            ({
                let s = old(self).state(old(qp_table)@).entered_error(*event);
                &&& final(self).recv() == s.recv
                &&& final(qp_table)@ == s.qps
                &&& final(self).slots() == s.slots
            }),
    {
        let qpn: Qpn = event.common.dqpn;
        let key: u32 = qpn.get();
        qp_table.set_status(qpn, QpStatus::OutOfOrder);
        let mut p = match self.recv_ctx_map.take(key) {
            Some(p) => p,
            None => PerQpContextMap::new(event.psn),
        };
        // the expected_psn is the psn that we should receive **next**
        let start_psn: Psn = event.common.expected_psn.wrapping_sub(1);
        p.create_maps(start_psn, event.psn, pmtu);
        self.recv_ctx_map.put(key, p);
        assert(self.recv() =~= old(self).state(old(qp_table)@).entered_error(*event).recv);
    }

    fn note_psn(&mut self, qpn: Qpn, psn: Psn)
        requires
            old(self).wf(),
            old(self).recv().contains_key(qpn@),
        ensures
            final(self).wf(),
            final(self).recv() == old(self).recv().insert(qpn@, old(self).recv()[qpn@].with_largest(psn@)),
            final(self).slots() == old(self).slots(),
    {
        let key: u32 = qpn.get();
        if let Some(p) = self.recv_ctx_map.take(key) {
            let mut p = p;
            p.update_largest_psn_recved(psn);
            self.recv_ctx_map.put(key, p);
        }
        assert(self.recv() =~= old(self).recv().insert(qpn@, old(self).recv()[qpn@].with_largest(psn@)));
    }

    fn record_packet(&mut self, event: &ToHostWorkRbDescWriteOrReadResp, range: Option<(Psn, Psn)>)
        requires
            old(self).wf(),
            old(self).recv().contains_key(event.common.dqpn@),
            old(self).recv()[event.common.dqpn@].has(event.common.msn@),
            old(self).recv()[event.common.dqpn@].ctx(event.common.msn@).window is Some,
            range matches Some((from, to)) ==> forward(
                old(self).recv()[event.common.dqpn@].ctx(event.common.msn@).window->0.start,
                from@,
                to@,
            ),
        ensures
            final(self).wf(),
            final(self).recv() == recv_with_ctx(
                old(self).recv(),
                event.common.dqpn@,
                event.common.msn@,
                old(self).recv()[event.common.dqpn@].ctx(event.common.msn@).with_packet(range_values(range), event.psn@),
            ),
            final(self).slots() == old(self).slots(),
    {
        let key: u32 = event.common.dqpn.get();
        let ghost m = old(self).recv();
        let ghost ctx = m[key].ctx(event.common.msn@).with_packet(range_values(range), event.psn@);
        if let Some(p) = self.recv_ctx_map.take(key) {
            let mut p = p;
            p.record(event.common.msn, range, event.psn);
            self.recv_ctx_map.put(key, p);
        }
        assert(self.recv() =~= recv_with_ctx(m, key, event.common.msn@, ctx));
    }

    // handle qp that out-of-order
    fn handle_qp_ooo(
        &mut self,
        Ghost(qps): Ghost<Map<u32, QpContext>>,
        event: &ToHostWorkRbDescWriteOrReadResp,
        pmtu: Pmtu,
        actions: &mut Vec<CheckerAction>,
    )
        requires
            old(self).wf(),
            old(self).recv().contains_key(event.common.dqpn@),
            old(self).recv()[event.common.dqpn@].recording(),
        ensures
            final(self).wf(),
            ({
                let s = (CheckState {
                    recv: old(self).recv(),
                    qps,
                    slots: old(self).slots(),
                    actions: old(actions)@,
                }).out_of_order(*event, pmtu);
                &&& final(self).recv() == s.recv
                &&& final(self).slots() == s.slots
                &&& final(actions)@ == s.actions
            }),
    {
        let qpn: Qpn = event.common.dqpn;
        let msn: Msn = event.common.msn;
        let recved_psn: Psn = event.psn;
        let ghost s0 = CheckState { recv: self.recv(), qps, slots: self.slots(), actions: actions@ };
        match event.write_type {
            ToHostWorkRbDescWriteType::First => {
                let status = self.recv_ctx_map.query_recent_msn_status(qpn, msn);
                if matches!(status, RecentQpMsnStatus::NoExist) {
                    let ctx = RecvContext::new_with_recvmap(event, pmtu);
                    self.recv_ctx_map.insert_ctx(qpn, msn, ctx);
                }
                self.note_psn(qpn, recved_psn);
            },
            ToHostWorkRbDescWriteType::Middle | ToHostWorkRbDescWriteType::Last => {
                let mut found: bool = false;
                let mut largest: Psn = recved_psn;
                if let Some(p) = self.recv_ctx_map.get_per_qp_ctx(qpn) {
                    largest = p.largest_psn_recved();
                    found = p.get(msn).is_some();
                }
                // otherwise, we ignore this packet,but we should record its psn
                if found {
                    let range = get_continous_range(largest, event.common.expected_psn);
                    proof {
                        let p = self.recv()[qpn@];
                        lemma_find(p.ctxs, msn@);
                        if range is Some {
                            law_range_is_forward(
                                largest@,
                                event.common.expected_psn@,
                                p.ctx(msn@).window->0.start,
                            );
                        }
                    }
                    self.record_packet(event, range);
                    let ghost s1 = CheckState {
                        recv: recv_with_ctx(
                            s0.recv,
                            qpn@,
                            msn@,
                            s0.recv[qpn@].ctx(msn@).with_packet(range_values(range), recved_psn@),
                        ),
                        ..s0
                    };
                    self.note_psn(qpn, recved_psn);
                    proof {
                        let p = s0.recv[qpn@];
                        let i = find(p.ctxs, msn@);
                        let q = s1.recv[qpn@];
                        lemma_find_is(q.ctxs, msn@, i);
                        lemma_find_is(q.with_largest(recved_psn@).ctxs, msn@, i);
                    }
                    self.check_completed_and_try_recover(Ghost(qps), qpn, msn, actions);
                } else {
                    self.note_psn(qpn, recved_psn);
                }
            },
            ToHostWorkRbDescWriteType::Only => {
                self.recv_ctx_map.set_recent_msn_status(qpn, msn, RecentQpMsnStatus::Finished);
                self.end_message(event, actions);
                self.note_psn(qpn, recved_psn);
            },
        }
    }

    /// Check if corresponding msn is completed and try to recover the qp status
    fn check_completed_and_try_recover(
        &mut self,
        Ghost(qps): Ghost<Map<u32, QpContext>>,
        qpn: Qpn,
        msn: Msn,
        actions: &mut Vec<CheckerAction>,
    )
        requires
            old(self).wf(),
            old(self).recv().contains_key(qpn@),
            old(self).recv()[qpn@].has(msn@),
            old(self).recv()[qpn@].ctx(msn@).window is Some,
        ensures
            final(self).wf(),
            ({
                let s = (CheckState {
                    recv: old(self).recv(),
                    qps,
                    slots: old(self).slots(),
                    actions: old(actions)@,
                }).settled(qpn, msn);
                &&& final(self).recv() == s.recv
                &&& final(self).slots() == s.slots
                &&& final(actions)@ == s.actions
            }),
    {
        let ghost m = self.recv();
        let ghost ctx = m[qpn@].ctx(msn@);
        proof {
            lemma_find(m[qpn@].ctxs, msn@);
        }
        let mut is_read_resp: bool = false;
        let mut is_completed: bool = false;
        let mut last_psn: Psn = Psn::default();
        let mut recover_psn: Option<Psn> = None;
        if let Some(ctx) = self.recv_ctx_map.get_ctx(qpn, msn) {
            is_read_resp = ctx.is_read_resp;
            if let Some(recv_map) = ctx.window() {
                is_completed = recv_map.is_complete();
                last_psn = recv_map.last_psn();
                recover_psn = recv_map.try_get_recover_psn();
            }
        }
        proof {
            let v = ctx.window->0;
            assert(is_completed == v.complete());
            ThreeBytesStruct::lemma_of(last_psn@);
            ThreeBytesStruct::lemma_view_injective(last_psn, ThreeBytesStruct::of(last_psn@));
        }
        if is_completed {
            self.recv_ctx_map.remove_ctx(qpn, msn);
            if is_read_resp {
                actions.push(CheckerAction::WakeUp { qpn, msn });
            } else {
                // we should manually send ack the packet
                self.send_ack(qpn, msn, last_psn, actions);
            }
        }
        // if there is only one recv context and it's in-order,
        // we can try to recover the qp status
        if let Some(p) = self.recv_ctx_map.get_per_qp_ctx(qpn) {
            if p.len() <= 1 {
                if let Some(recover_psn) = recover_psn {
                    let next: Psn = p.largest_psn_recved().wrapping_add(1);
                    proof {
                        ThreeBytesStruct::lemma_view_injective(recover_psn, next);
                        ThreeBytesStruct::lemma_of(recover_psn@);
                        ThreeBytesStruct::lemma_view_injective(recover_psn, ThreeBytesStruct::of(recover_psn@));
                    }
                    // recover_psn should be largest_psn_recved + 1
                    if recover_psn == next {
                        actions.push(CheckerAction::Recover { qpn, psn: recover_psn });
                    }
                }
            }
        }
    }
}

/// The command that tells the card from which packet on a queue pair is in
/// order again
pub fn recover_desc(qpn: Qpn, recover_psn: Psn) -> (r: ToCardCtrlRbDesc)
    ensures
        r == ToCardCtrlRbDesc::UpdateErrorPsnRecoverPoint(
            ToCardCtrlRbDescUpdateErrPsnRecoverPoint {
                common: ToCardCtrlRbDescCommon { op_id: 0 },
                qpn,
                recover_psn,
            },
        ),
{
    ToCardCtrlRbDesc::UpdateErrorPsnRecoverPoint(
        ToCardCtrlRbDescUpdateErrPsnRecoverPoint { common: ToCardCtrlRbDescCommon::default(), qpn, recover_psn },
    )
}

/// Once the card has answered that command: if it succeeded, the queue pair is
/// normal.
pub fn on_recovered(qp_table: &mut QpTable, qpn: Qpn, is_succ: bool)
    ensures
        final(qp_table)@ == (if is_succ {
            with_status(old(qp_table)@, qpn@, QpStatus::Normal)
        } else {
            old(qp_table)@
        }),
{
    if is_succ {
        qp_table.set_status(qpn, QpStatus::Normal);
    }
}

proof fn lemma_in_order_ready(s: CheckState, e: ToHostWorkRbDescWriteOrReadResp)
    requires
        s.ready(),
        s.qps.contains_key(e.common.dqpn@) ==> s.qps[e.common.dqpn@].status == QpStatus::Normal,
    ensures
        s.in_order(e).ready(),
{
    let t = s.in_order(e);
    assert(t.qps == s.qps);
    assert forall|q: u32|
        #![trigger t.qps.contains_key(q)]
        t.qps.contains_key(q) && t.qps[q].status == QpStatus::OutOfOrder implies t.recv.contains_key(q)
            && t.recv[q].recording() by {
        assert(s.qps.contains_key(q));
        assert(q != e.common.dqpn@);
    }
}

proof fn lemma_entered_ready(s: CheckState, e: ToHostWorkRbDescWriteOrReadResp)
    requires
        s.ready(),
        s.qps.contains_key(e.common.dqpn@),
    ensures
        s.entered_error(e).ready(),
{
    let t = s.entered_error(e);
    assert forall|q: u32|
        #![trigger t.qps.contains_key(q)]
        t.qps.contains_key(q) && t.qps[q].status == QpStatus::OutOfOrder implies t.recv.contains_key(q)
            && t.recv[q].recording() by {
        assert(s.qps.contains_key(q));
    }
}

/// Storing a message that records its packets keeps all messages recording.
proof fn lemma_with_ctx_recording(p: PerQpView, msn: u16, ctx: CtxView)
    requires
        p.recording(),
        ctx.window is Some,
    ensures
        p.with_ctx(msn, ctx).recording(),
{
    lemma_find(p.ctxs, msn);
}

proof fn lemma_without_ctx_recording(p: PerQpView, msn: u16)
    requires
        p.recording(),
    ensures
        p.without_ctx(msn).recording(),
{
    lemma_find(p.ctxs, msn);
}

proof fn lemma_out_of_order_ready(s: CheckState, e: ToHostWorkRbDescWriteOrReadResp, pmtu: Pmtu)
    requires
        s.ready(),
        s.recv.contains_key(e.common.dqpn@),
        s.recv[e.common.dqpn@].recording(),
    ensures
        s.out_of_order(e, pmtu).ready(),
{
    let qpn = e.common.dqpn@;
    let msn = e.common.msn@;
    let t = s.out_of_order(e, pmtu);
    let p = s.recv[qpn];
    lemma_with_ctx_recording(p, msn, CtxView::of_event_with_window(e, pmtu));
    let ctx = p.ctx(msn).with_packet(continuous_range(p.largest, e.common.expected_psn@), e.psn@);
    lemma_with_ctx_recording(p, msn, ctx);
    lemma_without_ctx_recording(p.with_ctx(msn, ctx).with_largest(e.psn@), msn);
    assert(t.qps == s.qps);
    assert(t.recv.contains_key(qpn) && t.recv[qpn].recording());
    assert forall|q: u32|
        #![trigger t.qps.contains_key(q)]
        t.qps.contains_key(q) && t.qps[q].status == QpStatus::OutOfOrder implies t.recv.contains_key(q)
            && t.recv[q].recording() by {
        assert(s.qps.contains_key(q));
        if q != qpn {
            assert(t.recv[q] == s.recv[q]);
        }
    }
}

/// A queue pair that lost the order gets it back only by the card's answer: no
/// report makes it normal again.
pub proof fn law_order_stays_lost(s: CheckState, event: PacketCheckEvent, q: u32)
    requires
        s.qps.contains_key(q),
        s.qps[q].status == QpStatus::OutOfOrder,
    ensures
        s.after(event).qps.contains_key(q),
        s.after(event).qps[q].status == QpStatus::OutOfOrder,
{
}

/// Reports for a queue pair that is not known neither send anything nor change
/// a queue pair, but for the wake-up by an acknowledgement.
pub proof fn law_unknown_qp_ignored(s: CheckState, e: ToHostWorkRbDescWriteOrReadResp, d: ToHostWorkRbDescRead)
    requires
        !s.qps.contains_key(e.common.dqpn@),
        !s.qps.contains_key(d.common.dqpn@),
    ensures
        s.after(PacketCheckEvent::Write(e)) == s,
        s.after(PacketCheckEvent::ReadReq(d)).actions == s.actions,
        s.after(PacketCheckEvent::ReadReq(d)).qps == s.qps,
{
}

/// The first packet of a message that is finished, and still remembered, starts
/// nothing.
pub proof fn law_finished_message_not_restarted(s: CheckState, e: ToHostWorkRbDescWriteOrReadResp)
    requires
        e.write_type == ToHostWorkRbDescWriteType::First,
        s.qps.contains_key(e.common.dqpn@),
        s.qps[e.common.dqpn@].status == QpStatus::Normal,
        e.common.expected_psn == e.psn,
        msn_status(s.recv, e.common.dqpn@, e.common.msn@) == RecentQpMsnStatus::Finished,
    ensures
        s.after(PacketCheckEvent::Write(e)) == s,
{
}

/// The card is told to go on only from the packet after the newest one, and
/// only where no other message is being received.
pub proof fn law_recovers_after_newest(s: CheckState, qpn: Qpn, msn: Msn)
    ensures
        ({
            let t = s.settled(qpn, msn);
            t.actions.len() > 0 && t.actions.last() is Recover && (s.actions.len() == 0 || s.actions.last() !is Recover)
                ==> t.actions.last()->Recover_psn@ == add24(t.recv[qpn@].largest as int, 1) && t.recv[qpn@].ctxs.len()
                <= 1
        }),
{
    ThreeBytesStruct::lemma_of(s.recv[qpn@].ctx(msn@).window->0.recover_psn()->0);
}

/// A message is answered when none of its packets is missing any more, and not
/// before: a write is acknowledged with its last packet, and who reads is woken
/// up. From then on it is no longer being received, but remembered as finished.
pub proof fn law_complete_message_is_answered(s: CheckState, qpn: Qpn, msn: Msn)
    requires
        s.recv.contains_key(qpn@),
        distinct(s.recv[qpn@].ctxs),
        s.recv[qpn@].recent.len() == 16,
        s.recv[qpn@].has(msn@),
    ensures
        ({
            let ctx = s.recv[qpn@].ctx(msn@);
            let w = ctx.window->0;
            let t = s.settled(qpn, msn);
            let n = s.actions.len() as int;
            &&& n <= t.actions.len()
            &&& t.actions.take(n) == s.actions
            &&& t.qps == s.qps
            &&& w.complete() ==> {
                &&& t.actions.len() > n
                &&& ctx.is_read_resp ==> t.actions[n] == (CheckerAction::WakeUp { qpn, msn }) && t.slots == s.slots
                &&& !ctx.is_read_resp ==> t.actions[n] is SendAck && t.actions[n]->SendAck_qpn == qpn
                    && t.actions[n]->SendAck_msn == msn && t.actions[n]->SendAck_psn@ == w.last_psn()
                &&& !t.recv[qpn@].has(msn@)
                &&& msn_status(t.recv, qpn@, msn@) == RecentQpMsnStatus::Finished
            }
            &&& !w.complete() ==> {
                &&& t.recv == s.recv
                &&& t.slots == s.slots
                &&& forall|i: int| n <= i < t.actions.len() ==> #[trigger] t.actions[i] is Recover
            }
        }),
{
    let p = s.recv[qpn@];
    let ctx = p.ctx(msn@);
    let w = ctx.window->0;
    let t = s.settled(qpn, msn);
    assert(t.actions.take(s.actions.len() as int) =~= s.actions);
    if w.complete() {
        lemma_find(p.ctxs, msn@);
        let f = find(p.ctxs, msn@);
        let rest = p.ctxs.remove(f);
        lemma_find(rest, msn@);
        let g = find(rest, msn@);
        if g >= 0 {
            let h = if g < f {
                g
            } else {
                g + 1
            };
            assert(rest[g] == p.ctxs[h]);
            assert(p.ctxs[h].0 == p.ctxs[f].0);
            assert(false);
        }
        ThreeBytesStruct::lemma_of(w.last_psn());
    }
}

/// After a number of events.
pub open spec fn after_all(s: CheckState, events: Seq<PacketCheckEvent>) -> CheckState
    decreases events.len(),
{
    if events.len() == 0 {
        s
    } else {
        after_all(s, events.drop_last()).after(events.last())
    }
}

/// Packet `k` of `n` packets of the message `msn` that came in order.
pub open spec fn in_turn(event: PacketCheckEvent, qpn: Qpn, msn: Msn, k: int, n: int) -> bool {
    &&& event matches PacketCheckEvent::Write(e)
    &&& e.common.dqpn == qpn
    &&& e.common.msn == msn
    &&& e.common.expected_psn == e.psn
    &&& e.write_type == (if k == 0 {
        ToHostWorkRbDescWriteType::First
    } else if k == n - 1 {
        ToHostWorkRbDescWriteType::Last
    } else {
        ToHostWorkRbDescWriteType::Middle
    })
}

/// A message whose packets all come in order is answered once, at its end: who
/// reads is woken up, and a write that the card does not acknowledge by itself is
/// acknowledged with its last packet. The queue pairs stay as they are.
pub proof fn law_message_in_order_is_answered(s: CheckState, events: Seq<PacketCheckEvent>, qpn: Qpn, msn: Msn)
    requires
        s.qps.contains_key(qpn@),
        s.qps[qpn@].status == QpStatus::Normal,
        events.len() > 1,
        forall|k: int| 0 <= k < events.len() ==> in_turn(#[trigger] events[k], qpn, msn, k, events.len() as int),
    ensures
        ({
            let t = after_all(s, events);
            let e = events.last()->Write_0;
            &&& t.qps == s.qps
            &&& e.is_read_resp ==> t.actions == s.actions.push(CheckerAction::WakeUp { qpn, msn })
            &&& !e.is_read_resp && e.can_auto_ack ==> t.actions == s.actions
            &&& !e.is_read_resp && !e.can_auto_ack ==> {
                &&& t.actions.len() == s.actions.len() + 1
                &&& t.actions.drop_last() == s.actions
                &&& t.actions.last() is SendAck
                &&& t.actions.last()->SendAck_qpn == qpn
                &&& t.actions.last()->SendAck_msn == msn
                &&& t.actions.last()->SendAck_psn@ == e.psn@
            }
            &&& msn_status(s.recv, qpn@, msn@) == RecentQpMsnStatus::NoExist && (s.recv.contains_key(qpn@)
                ==> s.recv[qpn@].wf()) ==> msn_status(t.recv, qpn@, msn@) == RecentQpMsnStatus::Finished
        }),
{
    let n = events.len() as int;
    lemma_all_but_the_last(s, events, qpn, msn, n - 1);
    let before = events.drop_last();
    assert(before =~= events.take(n - 1));
    let u = after_all(s, before);
    let e = events.last()->Write_0;
    assert(in_turn(events[n - 1], qpn, msn, n - 1, n));
    let t = u.after(events.last());
    assert(t == u.in_order(e));
    if !e.is_read_resp && !e.can_auto_ack {
        assert(t.actions.drop_last() =~= s.actions);
        ThreeBytesStruct::lemma_of(e.psn@);
    }
}

/// Before its end a message in order asks for nothing, and is being received.
proof fn lemma_all_but_the_last(s: CheckState, events: Seq<PacketCheckEvent>, qpn: Qpn, msn: Msn, k: int)
    requires
        s.qps.contains_key(qpn@),
        s.qps[qpn@].status == QpStatus::Normal,
        0 < k < events.len(),
        forall|k: int| 0 <= k < events.len() ==> in_turn(#[trigger] events[k], qpn, msn, k, events.len() as int),
    ensures
        ({
            let t = after_all(s, events.take(k));
            &&& t.qps == s.qps
            &&& t.actions == s.actions
            &&& msn_status(s.recv, qpn@, msn@) == RecentQpMsnStatus::NoExist && (s.recv.contains_key(qpn@)
                ==> s.recv[qpn@].wf()) ==> t.recv.contains_key(qpn@) && t.recv[qpn@].recent.len() == 16
        }),
    decreases k,
{
    let part = events.take(k);
    assert(part.drop_last() =~= events.take(k - 1));
    assert(part.last() == events[k - 1]);
    if k > 1 {
        lemma_all_but_the_last(s, events, qpn, msn, k - 1);
    } else {
        assert(after_all(s, events.take(0)) == s);
    }
}

/// In every state of the checker, what a window has recorded is kept in intervals
/// that ascend and neither overlap nor touch.
pub proof fn law_windows_stay_apart(context: PacketCheckerContext, q: u32, i: int)
    requires
        context.wf(),
        context.recv().contains_key(q),
        0 <= i < context.recv()[q].ctxs.len(),
        context.recv()[q].ctxs[i].1.window is Some,
    ensures
        ({
            let w = context.recv()[q].ctxs[i].1.window->0;
            ascending(w.intervals) && separated(w.intervals) && w.count > 0
        }),
{
    assert(context.recv()[q].wf());
}

/// An acknowledgement wakes up who waits for its message, and a negative one
/// nobody. Neither changes what is being received.
pub proof fn law_acknowledgement_wakes(s: CheckState, e: ToHostWorkRbDescAck)
    ensures
        ({
            let t = s.after(PacketCheckEvent::Ack(e));
            &&& e.code == ToHostWorkRbDescAethCode::Ack ==> {
                &&& t.actions.len() == s.actions.len() + 1
                &&& t.actions.drop_last() == s.actions
                &&& t.actions.last() matches CheckerAction::WakeUp { qpn, msn }
                &&& qpn == e.common.dqpn
                &&& msn == e.common.msn
            }
            &&& e.code != ToHostWorkRbDescAethCode::Ack ==> t.actions == s.actions
            &&& t.recv == s.recv
            &&& t.qps == s.qps
            &&& t.slots == s.slots
        }),
{
    assert(s.after(PacketCheckEvent::Ack(e)).actions.drop_last() =~= s.actions || e.code
        != ToHostWorkRbDescAethCode::Ack);
}

/// A read request is answered once, by what it asks for: as many bytes, from where
/// it says, to where it says, under the keys that it gives and the number of its
/// message. The answer takes the next packet numbers of its queue pair, as many as
/// it has packets; no other queue pair is changed.
pub proof fn law_read_request_is_answered_once(s: CheckState, e: ToHostWorkRbDescRead, q: u32)
    requires
        s.qps.contains_key(e.common.dqpn@),
        s.qps[e.common.dqpn@].sending_psn@ <= 0xff_ffff,
    ensures
        ({
            let t = s.after(PacketCheckEvent::ReadReq(e));
            let qp = s.qps[e.common.dqpn@];
            let after = t.qps[e.common.dqpn@];
            &&& t.actions.len() == s.actions.len() + 1
            &&& t.actions.drop_last() == s.actions
            &&& t.actions.last() matches CheckerAction::SendReadResp(ToCardWorkRbDesc::ReadResp(d))
            &&& d.is_first && d.is_last
            &&& d.common.total_len == e.len
            &&& d.common.raddr == e.raddr
            &&& d.common.rkey == e.rkey
            &&& d.sge0.addr == e.laddr && d.sge0.len == e.len && d.sge0.key == e.lkey
            &&& d.sge1 is None && d.sge2 is None && d.sge3 is None
            &&& d.common.msn == e.common.msn
            &&& d.common.dqpn == e.common.dqpn
            &&& d.common.dqp_ip == qp.dqp_ip
            &&& d.common.mac_addr == qp.dqp_mac_addr
            &&& d.common.pmtu == qp.pmtu
            &&& d.common.qp_type == qp.qp_type
            &&& d.common.psn == qp.sending_psn
            &&& after.sending_psn@ == (qp.sending_psn@ + packet_cnt(
                qp.pmtu.size_spec() as int,
                e.raddr as int,
                e.len as int,
            )) % 0x100_0000
            &&& (QpContext { sending_psn: qp.sending_psn, ..after }) == qp
            &&& q != e.common.dqpn@ ==> t.qps.contains_key(q) == s.qps.contains_key(q) && t.qps[q] == s.qps[q]
            &&& t.slots == s.slots
        }),
{
    let t = s.after(PacketCheckEvent::ReadReq(e));
    let qp = s.qps[e.common.dqpn@];
    assert(t.actions.drop_last() =~= s.actions);
    ThreeBytesStruct::lemma_of(
        add24(qp.sending_psn@ as int, packet_cnt(qp.pmtu.size_spec() as int, e.raddr as int, e.len as int)),
    );
}

/// What became of a message is remembered until another one takes its place: the
/// last sixteen messages have a place each.
pub proof fn law_last_messages_are_remembered(p: PerQpView, msn: u16, status: RecentQpMsnStatus, other: u16)
    requires
        p.recent.len() == 16,
    ensures
        recent_status(p.with_recent(msn, status).recent, msn) == status,
        msn != other && msn - other < 16 && other - msn < 16 ==> recent_status(
            p.with_recent(msn, status).recent,
            other,
        ) == recent_status(p.recent, other),
        status == RecentQpMsnStatus::Finished && other != msn && other % 16 == msn % 16 ==> recent_status(
            p.with_recent(msn, status).recent,
            other,
        ) == RecentQpMsnStatus::NoExist,
        recent_status(PerQpView::fresh(p.largest).recent, other) == RecentQpMsnStatus::NoExist,
        p.with_recent(msn, status).ctxs == p.ctxs && p.with_recent(msn, status).largest == p.largest,
{
}

/// A report is about one queue pair: what is known of the others stays, and so does
/// what was to be done before.
pub proof fn law_other_queue_pairs_keep(s: CheckState, event: PacketCheckEvent, q: u32)
    requires
        q != (match event {
            PacketCheckEvent::Write(e) => e.common.dqpn@,
            PacketCheckEvent::ReadReq(e) => e.common.dqpn@,
            PacketCheckEvent::Ack(e) => e.common.dqpn@,
        }),
    ensures
        ({
            let t = s.after(event);
            &&& t.recv.contains_key(q) <==> s.recv.contains_key(q)
            &&& s.recv.contains_key(q) ==> t.recv[q] == s.recv[q]
            &&& t.qps.contains_key(q) <==> s.qps.contains_key(q)
            &&& s.qps.contains_key(q) ==> t.qps[q] == s.qps[q]
            &&& s.actions.len() <= t.actions.len() <= s.actions.len() + 2
            &&& t.actions.take(s.actions.len() as int) == s.actions
        }),
{
    assert(s.after(event).actions.take(s.actions.len() as int) =~= s.actions);
}

} // verus!
