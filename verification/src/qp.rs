//! Queue pairs.

use vstd::prelude::*;
use std::collections::HashMap;
use crate::pd::Pd;
use crate::types::{Error, Ipv4Addr, MacAddress, MemAccessTypeFlag, Msn, Pmtu, Psn, Qp, QpType, Qpn, Resource};

verus! {

broadcast use vstd::std_specs::hash::group_hash_axioms;

/// How many queue pairs there can be.
pub const QP_MAX_CNT: usize = 1024;

/// The status of current QP
#[derive(Debug, Clone, Copy, PartialEq, Eq, Structural)]
pub enum QpStatus {
    /// The QP is normal
    Normal,
    /// The QP is out of order
    OutOfOrder,
}

impl QpStatus {
    /// Whether packets arrive in order
    pub fn is_normal(&self) -> (r: bool)
        ensures
            r == (*self == QpStatus::Normal),
    {
        matches!(self, QpStatus::Normal)
    }
}

impl Default for QpStatus {
    fn default() -> (r: Self)
        ensures
            r == QpStatus::Normal,
    {
        Self::Normal
    }
}

/// QP context
#[derive(Debug, Clone, Copy)]
pub struct QpContext {
    pub pd: Pd,
    pub qpn: Qpn,
    pub peer_qpn: Qpn,
    pub qp_type: QpType,
    pub rq_acc_flags: MemAccessTypeFlag,
    pub pmtu: Pmtu,
    pub local_mac: MacAddress,
    pub local_ip: Ipv4Addr,
    pub dqp_ip: Ipv4Addr,
    pub dqp_mac_addr: MacAddress,
    /// The number of the next packet to be sent
    pub sending_psn: Psn,
    pub status: QpStatus,
    /// The number of the next message to be sent
    pub next_msn: u16,
}

impl QpContext {
    /// create a qp context
    ///
    /// currently, `sending_psn` is set to 0 at begining
    #[must_use]
    pub fn new(qp: &Qp, local_ip: Ipv4Addr, local_mac: MacAddress) -> (r: Self)
        ensures
            r.pd == qp.pd && r.qpn == qp.qpn && r.peer_qpn == qp.peer_qpn && r.qp_type == qp.qp_type,
            r.rq_acc_flags == qp.rq_acc_flags && r.pmtu == qp.pmtu,
            r.local_ip == local_ip && r.local_mac == local_mac,
            r.dqp_ip == qp.dqp_ip && r.dqp_mac_addr == qp.dqp_mac,
            r.sending_psn@ == 0 && r.status == QpStatus::Normal && r.next_msn == 0,
    {
        Self {
            pd: qp.pd,
            qpn: qp.qpn,
            peer_qpn: qp.peer_qpn,
            qp_type: qp.qp_type,
            rq_acc_flags: qp.rq_acc_flags,
            pmtu: qp.pmtu,
            local_ip,
            local_mac,
            dqp_ip: qp.dqp_ip,
            dqp_mac_addr: qp.dqp_mac,
            sending_psn: Psn::new(0),
            status: QpStatus::Normal,
            next_msn: 0,
        }
    }

    /// The number for the next message; the numbers start again after the last
    pub fn next_msn(&mut self) -> (r: Msn)
        ensures
            r@ == old(self).next_msn,
            *final(self) == (QpContext { next_msn: ((old(self).next_msn + 1) % 0x1_0000) as u16, ..*old(self) }),
    {
        let msn: u16 = self.next_msn;
        self.next_msn = if msn == 0xffff { 0 } else { msn + 1 };
        Msn::new(msn)
    }

    /// The number for the first of `count` packets
    pub fn take_psns(&mut self, count: u32) -> (r: Psn)
        ensures
            r == old(self).sending_psn,
            final(self).sending_psn@ == crate::types::add24(old(self).sending_psn@ as int, count as int),
            *final(self) == (QpContext { sending_psn: final(self).sending_psn, ..*old(self) }),
    {
        let first = self.sending_psn;
        self.sending_psn = first.wrapping_add(count);
        first
    }
}

impl Default for QpContext {
    fn default() -> (r: Self)
        ensures
            r.pd.handle == 0 && r.qpn@ == 0 && r.peer_qpn@ == 0 && r.qp_type == QpType::Rc,
            r.rq_acc_flags@ == 0 && r.pmtu == Pmtu::Mtu4096,
            r.local_mac.octets@ == seq![0u8, 0, 0, 0, 0, 0] && r.dqp_mac_addr.octets@ == seq![0u8, 0, 0, 0, 0, 0],
            r.local_ip.octets@ == seq![127u8, 0, 0, 1] && r.dqp_ip.octets@ == seq![127u8, 0, 0, 1],
            r.sending_psn@ == 0 && r.status == QpStatus::Normal && r.next_msn == 0,
    {
        Self {
            pd: Pd::default(),
            qpn: Qpn::default(),
            peer_qpn: Qpn::default(),
            qp_type: QpType::Rc,
            rq_acc_flags: MemAccessTypeFlag::empty(),
            pmtu: Pmtu::Mtu4096,
            local_mac: MacAddress::default(),
            local_ip: Ipv4Addr::new(127, 0, 0, 1),
            dqp_ip: Ipv4Addr::new(127, 0, 0, 1),
            dqp_mac_addr: MacAddress::default(),
            sending_psn: Psn::default(),
            status: QpStatus::Normal,
            next_msn: 0,
        }
    }
}

/// The queue pairs of a device, by their numbers
#[derive(Debug)]
pub struct QpTable {
    map: HashMap<u32, QpContext>,
}

impl View for QpTable {
    type V = Map<u32, QpContext>;

    closed spec fn view(&self) -> Map<u32, QpContext> {
        self.map@
    }
}

impl QpTable {
    /// A table without queue pairs
    pub fn new() -> (r: Self)
        ensures
            r@ == Map::<u32, QpContext>::empty(),
    {
        Self { map: HashMap::new() }
    }

    /// The queue pair with the given number
    pub fn get(&self, qpn: Qpn) -> (r: Option<QpContext>)
        ensures
            r == (if self@.contains_key(qpn@) {
                Some(self@[qpn@])
            } else {
                None::<QpContext>
            }),
    {
        match self.map.get(&qpn.get()) {
            Some(qp) => Some(*qp),
            None => None,
        }
    }

    /// Stores a queue pair, and returns the one that had the number before
    pub fn insert(&mut self, qpn: Qpn, qp: QpContext) -> (r: Option<QpContext>)
        ensures
            final(self)@ == old(self)@.insert(qpn@, qp),
            r == (if old(self)@.contains_key(qpn@) {
                Some(old(self)@[qpn@])
            } else {
                None::<QpContext>
            }),
    {
        self.map.insert(qpn.get(), qp)
    }

    /// Takes a queue pair out
    pub fn remove(&mut self, qpn: Qpn) -> (r: Option<QpContext>)
        ensures
            final(self)@ == old(self)@.remove(qpn@),
            r == (if old(self)@.contains_key(qpn@) {
                Some(old(self)@[qpn@])
            } else {
                None::<QpContext>
            }),
    {
        self.map.remove(&qpn.get())
    }

    /// Sets the status of a queue pair, if there is one with the number
    pub fn set_status(&mut self, qpn: Qpn, status: QpStatus)
        ensures
            final(self)@ == with_status(old(self)@, qpn@, status),
    {
        if let Some(qp) = self.get(qpn) {
            let mut qp = qp;
            qp.status = status;
            let _ = self.insert(qpn, qp);
        }
    }
}

/// The table with another status for the queue pair `qpn`, if there is one.
pub open spec fn with_status(table: Map<u32, QpContext>, qpn: u32, status: QpStatus) -> Map<u32, QpContext> {
    if table.contains_key(qpn) {
        table.insert(qpn, QpContext { status, ..table[qpn] })
    } else {
        table
    }
}

impl Default for QpTable {
    fn default() -> (r: Self)
        ensures
            r@ == Map::<u32, QpContext>::empty(),
    {
        Self::new()
    }
}

/// QP manager
///
/// The QP manager is used to allocate and free QP numbers(QPN).
///
/// The max QP number is `QP_MAX_CNT`, and QP0 and QP1 are reserved.
#[derive(Debug)]
pub struct QpManager {
    qp_availability: Vec<bool>,
}

impl View for QpManager {
    type V = Set<int>;

    /// The numbers that can be allocated
    closed spec fn view(&self) -> Set<int> {
        Set::new(|n: int| 0 <= n < self.qp_availability@.len() && self.qp_availability@[n])
    }
}

/// The smallest number of a set.
pub open spec fn is_least(s: Set<int>, n: int) -> bool {
    s.contains(n) && forall|m: int| s.contains(m) ==> n <= m
}

impl QpManager {
    /// There is room for every number, and the reserved ones are never free.
    pub closed spec fn wf(&self) -> bool {
        self.qp_availability@.len() == QP_MAX_CNT && !self.qp_availability@[0] && !self.qp_availability@[1]
    }

    /// No number outside the range, and none of the reserved ones, can be
    /// allocated.
    pub proof fn law_numbers_in_range(&self)
        requires
            self.wf(),
        ensures
            forall|n: int| #[trigger] self@.contains(n) ==> 2 <= n < QP_MAX_CNT,
    {
    }

    /// create a QP manager
    #[must_use]
    pub fn new() -> (r: Self)
        ensures
            r.wf(),
            r@ == Set::new(|n: int| 2 <= n < QP_MAX_CNT),
    {
        let mut qp_availability: Vec<bool> = Vec::new();
        let mut i: usize = 0;
        while i < QP_MAX_CNT
            invariant
                i <= QP_MAX_CNT,
                qp_availability@.len() == i,
                forall|k: int| 0 <= k < i ==> #[trigger] qp_availability@[k] == (k >= 2),
            decreases QP_MAX_CNT - i,
        {
            qp_availability.push(i >= 2);
            i = i + 1;
        }
        let r = Self { qp_availability };
        assert(r@ =~= Set::new(|n: int| 2 <= n < QP_MAX_CNT));
        r
    }

    /// allocate a qp number
    ///
    /// # Errors
    ///
    /// Will return `Err` if:
    /// not have enough qp number
    pub fn allocate(&mut self) -> (r: Result<Qpn, Error>)
        requires
            old(self).wf(),
        ensures
            final(self).wf(),
            match r {
                Ok(qpn) => is_least(old(self)@, qpn@ as int) && final(self)@ == old(self)@.remove(qpn@ as int),
                Err(e) => e == Error::ResourceNoAvailable(Resource::Qp) && old(self)@ == Set::<int>::empty() && final(self)@ == old(self)@,
            },
    {
        let mut i: usize = 0;
        while i < self.qp_availability.len()
            invariant
                i <= self.qp_availability@.len(),
                *self == *old(self),
                self.wf(),
                forall|k: int| 0 <= k < i ==> !#[trigger] self.qp_availability@[k],
            decreases self.qp_availability@.len() - i,
        {
            if self.qp_availability[i] {
                self.qp_availability.set(i, false);
                assert(self@ =~= old(self)@.remove(i as int));
                let n: u32 = i as u32;
                return Ok(Qpn::new(n));
            }
            i = i + 1;
        }
        assert(self@ =~= Set::<int>::empty());
        Err(Error::ResourceNoAvailable(Resource::Qp))
    }

    /// free a qp number
    ///
    /// If the QP number is not allocated, it will be ignored.
    pub fn free(&mut self, qpn: Qpn)
        requires
            old(self).wf(),
        ensures
            final(self).wf(),
            final(self)@ == (if 2 <= qpn@ < QP_MAX_CNT {
                old(self)@.insert(qpn@ as int)
            } else {
                old(self)@
            }),
    {
        let n: usize = qpn.get() as usize;
        if n >= 2 && n < self.qp_availability.len() {
            self.qp_availability.set(n, true);
            assert(self@ =~= old(self)@.insert(n as int));
        }
    }
}

impl Default for QpManager {
    fn default() -> (r: Self)
        ensures
            r.wf(),
            r@ == Set::new(|n: int| 2 <= n < QP_MAX_CNT),
    {
        Self::new()
    }
}

/// A number that was allocated and freed again can be allocated as before.
pub proof fn law_alloc_free(free: Set<int>, n: int)
    requires
        is_least(free, n),
    ensures
        free.remove(n).insert(n) == free,
{
    assert(free.remove(n).insert(n) =~= free);
}

/// A change of its status changes nothing else of a queue pair, and no other one.
pub proof fn law_status_changes_alone(table: Map<u32, QpContext>, qpn: u32, status: QpStatus, q: u32)
    ensures
        ({
            let after = with_status(table, qpn, status);
            &&& after.contains_key(q) <==> table.contains_key(q)
            &&& table.contains_key(q) && q != qpn ==> after[q] == table[q]
            &&& table.contains_key(qpn) ==> after[qpn].status == status && (QpContext {
                status: table[qpn].status,
                ..after[qpn]
            }) == table[qpn]
        }),
{
}

} // verus!
