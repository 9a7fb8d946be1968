//! The device as its users see it: what it keeps of protection domains, queue
//! pairs and operations, and the descriptors that it sends for them.
//!
//! An operation that needs the card has two halves. The first one, such as
//! `create_qp`, says what is to be sent to the card. The second one, such as
//! `create_qp_done`, takes the card's answer.

use std::collections::HashSet;
use vstd::prelude::*;
use crate::checker::{CheckerAction, PacketCheckEvent, PacketCheckerContext};
#[allow(unused_imports)]
use crate::checker::CheckState;
use crate::device::ctrl::{ToCardCtrlRbDesc, ToCardCtrlRbDescCommon, ToCardCtrlRbDescQpManagement, ToCardCtrlRbDescSetNetworkParam, ToCardCtrlRbDescSetRawPacketReceiveMeta};
use crate::device::work::{ToCardWorkRbDesc, ToCardWorkRbDescBuilder, ToCardWorkRbDescCommon, ToCardWorkRbDescOpcode};
#[allow(unused_imports)]
use crate::device::work::{DescSge, ToCardWorkRbDescRead, ToCardWorkRbDescWrite};
use crate::op_ctx::make_operation_key;
#[allow(unused_imports)]
use crate::op_ctx::operation_key;
use crate::pd::{Pd, PdPool};
#[allow(unused_imports)]
use crate::pd::{dealloc_result, PdCtxView};
use crate::qp::{QpContext, QpTable};
#[allow(unused_imports)]
use crate::qp::{with_status, QpStatus};
#[allow(unused_imports)]
use crate::types::{add24, Pmtu, QpType, ThreeBytesStruct};
use crate::types::{CardOp, Error, Key, MacAddress, MemAccessTypeFlag, Msn, Psn, Qp, Qpn, RdmaDeviceNetworkParam, Resource, Sge, Subject, WorkReqSendFlag};
use crate::utils::calculate_packet_cnt;
#[allow(unused_imports)]
use crate::utils::packet_cnt;

verus! {

broadcast use vstd::std_specs::hash::group_hash_axioms;

/// A user space RDMA device.
///
/// The device provides a general interface, like `write`, `read`, `create_qp`, `alloc_pd`, etc.
#[derive(Debug)]
pub struct Device {
    pd: PdPool,
    qp_table: QpTable,
    user_ops: HashSet<u64>,
    ctrl_ops: HashSet<u32>,
    next_ctrl_op_id: u32,
    local_network: RdmaDeviceNetworkParam,
}

/// What a device keeps
pub struct DeviceView {
    /// The protection domains
    pub pds: Map<u32, PdCtxView>,
    /// The queue pairs
    pub qps: Map<u32, QpContext>,
    /// The reads and writes, by their keys
    pub user_ops: Set<u64>,
    /// The commands, by their ids
    pub ctrl_ops: Set<u32>,
    /// The id of the next command
    pub next_ctrl_op_id: u32,
    /// The network of the device
    pub network: RdmaDeviceNetworkParam,
}

impl View for Device {
    type V = DeviceView;

    closed spec fn view(&self) -> DeviceView {
        DeviceView {
            pds: self.pd@,
            qps: self.qp_table@,
            user_ops: self.user_ops@,
            ctrl_ops: self.ctrl_ops@,
            next_ctrl_op_id: self.next_ctrl_op_id,
            network: self.local_network,
        }
    }
}

/// The id after `id`; the ids start again after the last.
pub open spec fn id_after(id: u32) -> u32 {
    if id == u32::MAX {
        0
    } else {
        (id + 1) as u32
    }
}

impl DeviceView {
    /// With the id of the next command used up.
    pub open spec fn id_taken(self) -> DeviceView {
        DeviceView { next_ctrl_op_id: id_after(self.next_ctrl_op_id), ..self }
    }

    /// With a command under way that has the next id.
    pub open spec fn ctrl_started(self) -> DeviceView {
        DeviceView { ctrl_ops: self.ctrl_ops.insert(self.next_ctrl_op_id), ..self.id_taken() }
    }

    /// Whether a command can get the next id: none that is known has it.
    pub open spec fn ctrl_result(self, desc: ToCardCtrlRbDesc) -> Result<ToCardCtrlRbDesc, Error> {
        if self.ctrl_ops.contains(self.next_ctrl_op_id) {
            Err(Error::CreateOpCtxFailed)
        } else {
            Ok(desc)
        }
    }
}

/// What the card's answer to a command means: there has to be one, and it has to
/// report success.
pub open spec fn ctrl_outcome(reply: Result<Option<bool>, Error>, op: CardOp) -> Result<(), Error> {
    match reply {
        Err(e) => Err(e),
        Ok(None) => Err(Error::SetCtxResultFailed),
        Ok(Some(false)) => Err(Error::DeviceReturnFailed(op)),
        Ok(Some(true)) => Ok(()),
    }
}

/// What the card's answer to a command means
pub fn check_ctrl_reply(reply: Result<Option<bool>, Error>, op: CardOp) -> (r: Result<(), Error>)
    ensures
        r == ctrl_outcome(reply, op),
{
    match reply {
        Err(e) => Err(e),
        Ok(None) => Err(Error::SetCtxResultFailed),
        Ok(Some(res)) => if res { Ok(()) } else { Err(Error::DeviceReturnFailed(op)) },
    }
}

/// The command that sets up a queue pair.
pub open spec fn create_qp_desc(qp: Qp, op_id: u32) -> ToCardCtrlRbDesc {
    ToCardCtrlRbDesc::QpManagement(
        ToCardCtrlRbDescQpManagement {
            common: ToCardCtrlRbDescCommon { op_id },
            is_valid: true,
            qpn: qp.qpn,
            pd_hdl: qp.pd.handle,
            qp_type: qp.qp_type,
            rq_acc_flags: qp.rq_acc_flags,
            pmtu: qp.pmtu,
            peer_qpn: qp.peer_qpn,
        },
    )
}

/// The command that tears down a queue pair.
pub open spec fn destroy_qp_desc(qp: QpContext, op_id: u32) -> ToCardCtrlRbDesc {
    ToCardCtrlRbDesc::QpManagement(
        ToCardCtrlRbDescQpManagement {
            common: ToCardCtrlRbDescCommon { op_id },
            is_valid: false,
            qpn: qp.qpn,
            pd_hdl: 0,
            qp_type: qp.qp_type,
            rq_acc_flags: MemAccessTypeFlag::of(0),
            pmtu: qp.pmtu,
            peer_qpn: qp.peer_qpn,
        },
    )
}

/// The context of a new queue pair.
pub open spec fn new_context(qp: Qp, network: RdmaDeviceNetworkParam) -> QpContext {
    QpContext {
        pd: qp.pd,
        qpn: qp.qpn,
        peer_qpn: qp.peer_qpn,
        qp_type: qp.qp_type,
        rq_acc_flags: qp.rq_acc_flags,
        pmtu: qp.pmtu,
        local_mac: network.macaddr,
        local_ip: network.ipaddr,
        dqp_ip: qp.dqp_ip,
        dqp_mac_addr: qp.dqp_mac,
        sending_psn: Psn::of(0),
        status: QpStatus::Normal,
        next_msn: 0,
    }
}

/// A protection domain with one more queue pair.
pub open spec fn pd_with(pd: PdCtxView, qpn: u32) -> PdCtxView {
    PdCtxView { qp: pd.qp.insert(qpn), ..pd }
}

/// A protection domain without a queue pair.
pub open spec fn pd_without(pd: PdCtxView, qpn: u32) -> PdCtxView {
    PdCtxView { qp: pd.qp.remove(qpn), ..pd }
}

/// The device after the card has set up a queue pair. One that is known to the
/// protection domain already is not set up again.
pub open spec fn qp_created(s: DeviceView, qp: Qp) -> DeviceView {
    let pd = s.pds[qp.pd.handle];
    if pd.qp.contains(qp.qpn@) {
        s
    } else {
        DeviceView {
            pds: s.pds.insert(qp.pd.handle, pd_with(pd, qp.qpn@)),
            qps: s.qps.insert(qp.qpn@, new_context(qp, s.network)),
            ..s
        }
    }
}

/// The device after the card has torn down a queue pair.
pub open spec fn qp_destroyed(s: DeviceView, qpn: u32) -> DeviceView {
    let handle = s.qps[qpn].pd.handle;
    DeviceView { pds: s.pds.insert(handle, pd_without(s.pds[handle], qpn)), qps: s.qps.remove(qpn), ..s }
}

/// Tearing down a queue pair that has just been set up leaves the protection
/// domains and the queue pairs as they were.
pub proof fn law_create_destroy_qp(s: DeviceView, qp: Qp)
    requires
        s.pds.contains_key(qp.pd.handle),
        !s.pds[qp.pd.handle].qp.contains(qp.qpn@),
        !s.qps.contains_key(qp.qpn@),
    ensures
        qp_destroyed(qp_created(s, qp), qp.qpn@).pds == s.pds,
        qp_destroyed(qp_created(s, qp), qp.qpn@).qps == s.qps,
{
    let pd = s.pds[qp.pd.handle];
    assert(pd_without(pd_with(pd, qp.qpn@), qp.qpn@) =~= pd);
    assert(qp_destroyed(qp_created(s, qp), qp.qpn@).pds =~= s.pds);
    assert(qp_destroyed(qp_created(s, qp), qp.qpn@).qps =~= s.qps);
}

/// A protection domain cannot be given back while one of its queue pairs
/// exists.
pub proof fn law_pd_with_qp_stays(s: DeviceView, qp: Qp)
    requires
        s.pds.contains_key(qp.pd.handle),
    ensures
        dealloc_result(qp_created(s, qp).pds, qp.pd) matches Err(Error::PdInUse { by_mr: _ }),
{
    let after = qp_created(s, qp).pds[qp.pd.handle];
    assert(after.qp.contains(qp.qpn@));
    assert(after.qp != Set::<u32>::empty());
}

/// How many packet numbers a read or a write takes: a read takes one, for its
/// request.
pub open spec fn psns_taken(qp: QpContext, raddr: u64, len: u32, is_read: bool) -> int {
    if is_read {
        1
    } else {
        packet_cnt(qp.pmtu.size_spec() as int, raddr as int, len as int)
    }
}

/// A queue pair after a read or a write.
pub open spec fn qp_after_work(qp: QpContext, raddr: u64, len: u32, is_read: bool) -> QpContext {
    QpContext {
        next_msn: ((qp.next_msn + 1) % 0x1_0000) as u16,
        sending_psn: Psn::of(add24(qp.sending_psn@ as int, psns_taken(qp, raddr, len, is_read))),
        ..qp
    }
}

/// The descriptor of a read or a write.
pub open spec fn work_desc(
    qp: QpContext,
    raddr: u64,
    rkey: Key,
    flags: WorkReqSendFlag,
    sge0: Sge,
    is_read: bool,
) -> ToCardWorkRbDesc {
    let common = ToCardWorkRbDescCommon {
        total_len: sge0.len,
        raddr,
        rkey,
        dqp_ip: qp.dqp_ip,
        dqpn: qp.qpn,
        mac_addr: qp.dqp_mac_addr,
        pmtu: qp.pmtu,
        flags,
        qp_type: qp.qp_type,
        psn: qp.sending_psn,
        msn: Msn::of(qp.next_msn),
    };
    let sge = DescSge { addr: sge0.addr, len: sge0.len, key: sge0.key };
    if is_read {
        ToCardWorkRbDesc::Read(ToCardWorkRbDescRead { common, sge })
    } else {
        ToCardWorkRbDesc::Write(
            ToCardWorkRbDescWrite {
                common,
                is_last: true,
                is_first: true,
                sge0: sge,
                sge1: None,
                sge2: None,
                sge3: None,
            },
        )
    }
}

/// Messages of a queue pair follow each other: the next one has the next message
/// number, and starts with the packet number after the last one's last.
pub proof fn law_messages_follow(
    qp: QpContext,
    raddr: u64,
    rkey: Key,
    flags: WorkReqSendFlag,
    sge: Sge,
    is_read: bool,
    raddr2: u64,
    sge2: Sge,
)
    ensures
        ({
            let first = work_desc(qp, raddr, rkey, flags, sge, is_read);
            let after = qp_after_work(qp, raddr, sge.len, is_read);
            let second = work_desc(after, raddr2, rkey, flags, sge2, false)->Write_0.common;
            let c = if is_read {
                first->Read_0.common
            } else {
                first->Write_0.common
            };
            &&& second.msn@ == (c.msn@ + 1) % 0x1_0000
            &&& second.psn@ == add24(c.psn@ as int, psns_taken(qp, raddr, sge.len, is_read))
            &&& second.dqpn == c.dqpn
        }),
{
    broadcast use ThreeBytesStruct::lemma_of;
    broadcast use Msn::lemma_of;

}

/// A checker that works on the queue pairs of a device stays ready, whatever the
/// users of the device do with them: set one up, tear one down, read and write;
/// and so it does when the card has recovered one.
pub proof fn law_checker_stays_ready(s: CheckState, d: DeviceView, qp: Qp, qpn: u32, raddr: u64, len: u32, is_read: bool)
    requires
        s.qps == d.qps,
        s.ready(),
        d.qps.contains_key(qpn),
    ensures
        (CheckState { qps: qp_created(d, qp).qps, ..s }).ready(),
        (CheckState { qps: qp_destroyed(d, qpn).qps, ..s }).ready(),
        (CheckState { qps: d.qps.insert(qpn, qp_after_work(d.qps[qpn], raddr, len, is_read)), ..s }).ready(),
        (CheckState { qps: with_status(d.qps, qpn, QpStatus::Normal), ..s }).ready(),
{
    let created = CheckState { qps: qp_created(d, qp).qps, ..s };
    assert forall|q: u32|
        #![trigger created.qps.contains_key(q)]
        created.qps.contains_key(q) && created.qps[q].status == QpStatus::OutOfOrder implies s.qps.contains_key(q)
            && s.qps[q].status == QpStatus::OutOfOrder by {}
    let destroyed = CheckState { qps: qp_destroyed(d, qpn).qps, ..s };
    assert forall|q: u32|
        #![trigger destroyed.qps.contains_key(q)]
        destroyed.qps.contains_key(q) implies s.qps.contains_key(q) && s.qps[q] == destroyed.qps[q] by {}
    let worked = CheckState { qps: d.qps.insert(qpn, qp_after_work(d.qps[qpn], raddr, len, is_read)), ..s };
    assert forall|q: u32|
        #![trigger worked.qps.contains_key(q)]
        worked.qps.contains_key(q) implies s.qps.contains_key(q) && s.qps[q].status == worked.qps[q].status by {}
    let recovered = CheckState { qps: with_status(d.qps, qpn, QpStatus::Normal), ..s };
    assert forall|q: u32|
        #![trigger recovered.qps.contains_key(q)]
        recovered.qps.contains_key(q) && recovered.qps[q].status == QpStatus::OutOfOrder implies s.qps.contains_key(q)
            && s.qps[q].status == QpStatus::OutOfOrder by {}
}

impl Device {
    /// A device without protection domains, queue pairs and operations
    pub fn new(network_config: RdmaDeviceNetworkParam) -> (r: Self)
        ensures
            r@.pds == Map::<u32, PdCtxView>::empty(),
            r@.qps == Map::<u32, QpContext>::empty(),
            r@.user_ops == Set::<u64>::empty(),
            r@.ctrl_ops == Set::<u32>::empty(),
            r@.next_ctrl_op_id == 0,
            r@.network == network_config,
    {
        Self {
            pd: PdPool::new(),
            qp_table: QpTable::new(),
            user_ops: HashSet::new(),
            ctrl_ops: HashSet::new(),
            next_ctrl_op_id: 0,
            local_network: network_config,
        }
    }

    /// The id for the next command
    pub fn get_ctrl_op_id(&mut self) -> (r: u32)
        ensures
            r == old(self)@.next_ctrl_op_id,
            final(self)@ == old(self)@.id_taken(),
    {
        let id: u32 = self.next_ctrl_op_id;
        self.next_ctrl_op_id = self.next_ctrl_op_id.wrapping_add(1);
        id
    }

    /// Takes note of a command that is to be sent
    ///
    /// # Errors
    /// Will return `Err` if there is a command with the id already.
    pub fn do_ctrl_op(&mut self, id: u32) -> (r: Result<(), Error>)
        ensures
            final(self)@ == (DeviceView { ctrl_ops: old(self)@.ctrl_ops.insert(id), ..old(self)@ }),
            r == (if old(self)@.ctrl_ops.contains(id) {
                Err::<(), Error>(Error::CreateOpCtxFailed)
            } else {
                Ok(())
            }),
    {
        if self.ctrl_ops.insert(id) {
            Ok(())
        } else {
            Err(Error::CreateOpCtxFailed)
        }
    }

    /// Takes note of a read or a write that was sent
    ///
    /// # Errors
    /// Will return `Err` if there is one with the number already.
    pub fn start_user_op(&mut self, dqpn: Qpn, msn: Msn) -> (r: Result<(), Error>)
        ensures
            final(self)@ == (DeviceView {
                user_ops: old(self)@.user_ops.insert(operation_key(dqpn@, msn@)),
                ..old(self)@
            }),
            r == (if old(self)@.user_ops.contains(operation_key(dqpn@, msn@)) {
                Err::<(), Error>(Error::CreateOpCtxFailed)
            } else {
                Ok(())
            }),
    {
        if self.user_ops.insert(make_operation_key(dqpn, msn)) {
            Ok(())
        } else {
            Err(Error::CreateOpCtxFailed)
        }
    }

    /// Allocate a Protection Domain
    ///
    /// # Errors
    /// Will return `Err` if the handle, which is drawn at random, is in use. The
    /// protection domain that has it is then replaced.
    pub fn alloc_pd(&mut self) -> (r: Result<Pd, Error>)
        ensures
            match r {
                Ok(pd) => !old(self)@.pds.contains_key(pd.handle) && final(self)@ == (DeviceView {
                    pds: old(self)@.pds.insert(pd.handle, PdCtxView::empty()),
                    ..old(self)@
                }),
                Err(e) => e matches Error::Invalid(Subject::Pd(pd)) && old(self)@.pds.contains_key(pd.handle)
                    && final(self)@ == (DeviceView {
                    pds: old(self)@.pds.insert(pd.handle, PdCtxView::empty()),
                    ..old(self)@
                }),
            },
    {
        self.pd.alloc_pd()
    }

    /// Deallocate a Protection Domain
    ///
    /// # Errors
    /// Will return `Err` if there is no such protection domain, or something
    /// belongs to it.
    pub fn dealloc_pd(&mut self, pd: Pd) -> (r: Result<(), Error>)
        ensures
            r == dealloc_result(old(self)@.pds, pd),
            final(self)@ == (DeviceView {
                pds: if r is Ok {
                    old(self)@.pds.remove(pd.handle)
                } else {
                    old(self)@.pds
                },
                ..old(self)@
            }),
    {
        self.pd.dealloc_pd(pd)
    }

    /// create a qp: the command to be sent
    ///
    /// # Errors
    ///
    /// Will return `Err` if there is no such protection domain.
    pub fn create_qp(&mut self, qp: &Qp) -> (r: Result<ToCardCtrlRbDesc, Error>)
        ensures
            if !old(self)@.pds.contains_key(qp.pd.handle) {
                &&& r == Err::<ToCardCtrlRbDesc, Error>(Error::Invalid(Subject::Pd(qp.pd)))
                &&& final(self)@ == old(self)@
            } else {
                &&& r == old(self)@.ctrl_result(create_qp_desc(*qp, old(self)@.next_ctrl_op_id))
                &&& final(self)@ == old(self)@.ctrl_started()
            },
    {
        if !self.pd.contains(qp.pd) {
            return Err(Error::Invalid(Subject::Pd(qp.pd)));
        }
        let op_id: u32 = self.get_ctrl_op_id();
        let desc = ToCardCtrlRbDesc::QpManagement(
            ToCardCtrlRbDescQpManagement {
                common: ToCardCtrlRbDescCommon { op_id },
                is_valid: true,
                qpn: qp.qpn,
                pd_hdl: qp.pd.handle,
                qp_type: qp.qp_type,
                rq_acc_flags: qp.rq_acc_flags,
                pmtu: qp.pmtu,
                peer_qpn: qp.peer_qpn,
            },
        );
        match self.do_ctrl_op(op_id) {
            Ok(()) => Ok(desc),
            Err(e) => Err(e),
        }
    }

    /// create a qp: takes the card's answer
    ///
    /// # Errors
    ///
    /// Will return `Err` if:
    /// * the card did not do it
    /// * the protection domain has the queue pair already
    /// * there was a queue pair with the number, which is then replaced
    pub fn create_qp_done(&mut self, qp: &Qp, reply: Result<Option<bool>, Error>) -> (r: Result<(), Error>)
        requires
            old(self)@.pds.contains_key(qp.pd.handle),
        ensures
            ({
                let s = old(self)@;
                let outcome = ctrl_outcome(reply, CardOp::CreateQp);
                if outcome is Err {
                    &&& r == outcome
                    &&& final(self)@ == s
                } else {
                    &&& r == (if s.pds[qp.pd.handle].qp.contains(qp.qpn@) || s.qps.contains_key(qp.qpn@) {
                        Err::<(), Error>(Error::Invalid(Subject::Qp(qp.qpn)))
                    } else {
                        Ok(())
                    })
                    &&& final(self)@.pds =~= qp_created(s, *qp).pds
                    &&& final(self)@ == (DeviceView { pds: final(self)@.pds, ..qp_created(s, *qp) })
                }
            }),
    {
        match check_ctrl_reply(reply, CardOp::CreateQp) {
            Ok(()) => {},
            Err(e) => {
                return Err(e);
            },
        }
        let ghost s = self@;
        let qpc: QpContext = QpContext::new(qp, self.local_network.ipaddr, self.local_network.macaddr);
        proof {
            ThreeBytesStruct::lemma_of(0);
            ThreeBytesStruct::lemma_view_injective(qpc.sending_psn, Psn::of(0));
            assert(qpc == new_context(*qp, s.network));
        }
        let is_new: bool = self.pd.add_qp(qp.pd, qp.qpn);
        if !is_new {
            proof {
                assert(s.pds[qp.pd.handle].qp.insert(qp.qpn@) =~= s.pds[qp.pd.handle].qp);
            }
            return Err(Error::Invalid(Subject::Qp(qp.qpn)));
        }
        let before: Option<QpContext> = self.qp_table.insert(qp.qpn, qpc);
        if before.is_some() {
            return Err(Error::Invalid(Subject::Qp(qp.qpn)));
        }
        Ok(())
    }

    /// destory a qp: the command to be sent
    ///
    /// # Errors
    ///
    /// Will return `Err` if there is no such queue pair, or its protection
    /// domain is gone. An id is used up in any case.
    pub fn destroy_qp(&mut self, qp: Qpn) -> (r: Result<ToCardCtrlRbDesc, Error>)
        ensures
            ({
                let s = old(self)@;
                if !s.qps.contains_key(qp@) {
                    &&& r == Err::<ToCardCtrlRbDesc, Error>(Error::Invalid(Subject::Qp(qp)))
                    &&& final(self)@ == s.id_taken()
                } else if !s.pds.contains_key(s.qps[qp@].pd.handle) {
                    &&& r == Err::<ToCardCtrlRbDesc, Error>(Error::Invalid(Subject::Pd(s.qps[qp@].pd)))
                    &&& final(self)@ == s.id_taken()
                } else {
                    &&& r == s.ctrl_result(destroy_qp_desc(s.qps[qp@], s.next_ctrl_op_id))
                    &&& final(self)@ == s.ctrl_started()
                }
            }),
    {
        let op_id: u32 = self.get_ctrl_op_id();
        let qp_ctx: QpContext = match self.qp_table.get(qp) {
            Some(qp_ctx) => qp_ctx,
            None => {
                return Err(Error::Invalid(Subject::Qp(qp)));
            },
        };
        if !self.pd.contains(qp_ctx.pd) {
            return Err(Error::Invalid(Subject::Pd(qp_ctx.pd)));
        }
        let no_flags: MemAccessTypeFlag = MemAccessTypeFlag::empty();
        let desc = ToCardCtrlRbDesc::QpManagement(
            ToCardCtrlRbDescQpManagement {
                common: ToCardCtrlRbDescCommon { op_id },
                is_valid: false,
                qpn: qp_ctx.qpn,
                pd_hdl: 0,
                qp_type: qp_ctx.qp_type,
                rq_acc_flags: no_flags,
                pmtu: qp_ctx.pmtu,
                peer_qpn: qp_ctx.peer_qpn,
            },
        );
        match self.do_ctrl_op(op_id) {
            Ok(()) => Ok(desc),
            Err(e) => Err(e),
        }
    }

    /// destory a qp: takes the card's answer
    ///
    /// # Errors
    ///
    /// Will return `Err` if the card did not do it.
    pub fn destroy_qp_done(&mut self, qp: Qpn, reply: Result<Option<bool>, Error>) -> (r: Result<(), Error>)
        requires
            old(self)@.qps.contains_key(qp@),
            old(self)@.pds.contains_key(old(self)@.qps[qp@].pd.handle),
        ensures
            r == ctrl_outcome(reply, CardOp::DestroyQp),
            final(self)@ == (if r is Ok {
                qp_destroyed(old(self)@, qp@)
            } else {
                old(self)@
            }),
    {
        match check_ctrl_reply(reply, CardOp::DestroyQp) {
            Ok(()) => {},
            Err(e) => {
                return Err(e);
            },
        }
        if let Some(qp_ctx) = self.qp_table.get(qp) {
            self.pd.remove_qp(qp_ctx.pd, qp);
        }
        let _ = self.qp_table.remove(qp);
        Ok(())
    }

    /// The queue pair with the given number
    pub fn queue_pair(&self, qpn: Qpn) -> (r: Option<QpContext>)
        ensures
            r == (if self@.qps.contains_key(qpn@) {
                Some(self@.qps[qpn@])
            } else {
                None
            }),
    {
        self.qp_table.get(qpn)
    }

    /// The queue pairs
    pub fn qp_table(&self) -> (r: &QpTable)
        ensures
            r@ == self@.qps,
    {
        &self.qp_table
    }

    /// Lets the checker take note of what the card reports, and says what is to
    /// be done.
    pub fn handle_check_event(
        &mut self,
        checker: &mut PacketCheckerContext,
        event: &PacketCheckEvent,
    ) -> (r: Vec<CheckerAction>)
        requires
            old(checker).wf(),
            old(checker).state(old(self)@.qps).ready(),
        ensures
            final(checker).wf(),
            ({
                let s = old(checker).state(old(self)@.qps).after(*event);
                &&& final(checker).recv() == s.recv
                &&& final(self)@ == (DeviceView { qps: s.qps, ..old(self)@ })
                &&& final(checker).slots() == s.slots
                &&& r@ == s.actions
                &&& s.ready()
            }),
    {
        checker.handle_check_event(&mut self.qp_table, event)
    }

    /// Once the card has answered the command that recovers a queue pair: if it
    /// succeeded, the queue pair is normal.
    pub fn on_recovered(&mut self, qpn: Qpn, is_succ: bool)
        ensures
            final(self)@ == (DeviceView {
                qps: if is_succ {
                    with_status(old(self)@.qps, qpn@, QpStatus::Normal)
                } else {
                    old(self)@.qps
                },
                ..old(self)@
            }),
    {
        crate::checker::on_recovered(&mut self.qp_table, qpn, is_succ);
    }

    fn write_or_read(
        &mut self,
        dqpn: Qpn,
        raddr: u64,
        rkey: Key,
        flags: WorkReqSendFlag,
        sge0: Sge,
        is_read: bool,
    ) -> (r: Result<Box<ToCardWorkRbDesc>, Error>)
        ensures
            ({
                let s = old(self)@;
                if s.qps.contains_key(dqpn@) {
                    let qp = s.qps[dqpn@];
                    &&& r matches Ok(desc)
                    &&& *desc == work_desc(qp, raddr, rkey, flags, sge0, is_read)
                    &&& final(self)@ == (DeviceView {
                        qps: s.qps.insert(dqpn@, qp_after_work(qp, raddr, sge0.len, is_read)),
                        ..s
                    })
                } else {
                    &&& r == Err::<Box<ToCardWorkRbDesc>, Error>(Error::Invalid(Subject::Qp(dqpn)))
                    &&& final(self)@ == s
                }
            }),
    {
        let mut qp: QpContext = match self.qp_table.get(dqpn) {
            Some(qp) => qp,
            None => {
                return Err(Error::Invalid(Subject::Qp(dqpn)));
            },
        };
        let ghost qp0 = qp;
        let total_len: u32 = sge0.len;
        let msn: Msn = qp.next_msn();
        let packet_cnt: u32 = if !is_read { calculate_packet_cnt(qp.pmtu, raddr, total_len) } else { 1 };
        let psn: Psn = qp.take_psns(packet_cnt);
        proof {
            ThreeBytesStruct::lemma_of(qp.sending_psn@);
            ThreeBytesStruct::lemma_view_injective(qp.sending_psn, Psn::of(qp.sending_psn@));
            Msn::lemma_of(msn@);
            Msn::lemma_view_injective(msn, Msn::of(msn@));
            assert(qp == qp_after_work(qp0, raddr, total_len, is_read));
        }
        let common = ToCardWorkRbDescCommon {
            total_len,
            raddr,
            rkey,
            dqp_ip: qp.dqp_ip,
            dqpn: qp.qpn,
            mac_addr: qp.dqp_mac_addr,
            pmtu: qp.pmtu,
            flags,
            qp_type: qp.qp_type,
            psn,
            msn,
        };
        let _ = self.qp_table.insert(dqpn, qp);
        let opcode: ToCardWorkRbDescOpcode = if !is_read {
            ToCardWorkRbDescOpcode::Write
        } else {
            ToCardWorkRbDescOpcode::Read
        };
        ToCardWorkRbDescBuilder::new(opcode).with_common(common).with_sge(sge0).build()
    }

    /// RDMA write operation: the descriptor to be sent. Once it was sent,
    /// `start_user_op` takes note of it.
    ///
    /// # Errors
    ///
    /// Will return `Err` if there is no such queue pair.
    pub fn write(
        &mut self,
        dqpn: Qpn,
        raddr: u64,
        rkey: Key,
        flags: WorkReqSendFlag,
        sge0: Sge,
    ) -> (r: Result<Box<ToCardWorkRbDesc>, Error>)
        ensures
            ({
                let s = old(self)@;
                if s.qps.contains_key(dqpn@) {
                    let qp = s.qps[dqpn@];
                    &&& r matches Ok(desc)
                    &&& *desc == work_desc(qp, raddr, rkey, flags, sge0, false)
                    &&& final(self)@ == (DeviceView {
                        qps: s.qps.insert(dqpn@, qp_after_work(qp, raddr, sge0.len, false)),
                        ..s
                    })
                } else {
                    &&& r == Err::<Box<ToCardWorkRbDesc>, Error>(Error::Invalid(Subject::Qp(dqpn)))
                    &&& final(self)@ == s
                }
            }),
    {
        self.write_or_read(dqpn, raddr, rkey, flags, sge0, false)
    }

    /// RDMA read operation: the descriptor to be sent. Once it was sent,
    /// `start_user_op` takes note of it.
    ///
    /// # Errors
    ///
    /// Will return `Err` if there is no such queue pair.
    pub fn read(
        &mut self,
        dqpn: Qpn,
        raddr: u64,
        rkey: Key,
        flags: WorkReqSendFlag,
        sge: Sge,
    ) -> (r: Result<Box<ToCardWorkRbDesc>, Error>)
        ensures
            ({
                let s = old(self)@;
                if s.qps.contains_key(dqpn@) {
                    let qp = s.qps[dqpn@];
                    &&& r matches Ok(desc)
                    &&& *desc == work_desc(qp, raddr, rkey, flags, sge, true)
                    &&& final(self)@ == (DeviceView {
                        qps: s.qps.insert(dqpn@, qp_after_work(qp, raddr, sge.len, true)),
                        ..s
                    })
                } else {
                    &&& r == Err::<Box<ToCardWorkRbDesc>, Error>(Error::Invalid(Subject::Qp(dqpn)))
                    &&& final(self)@ == s
                }
            }),
    {
        self.write_or_read(dqpn, raddr, rkey, flags, sge, true)
    }

    /// What the network interface's answer to a question for a MAC address
    /// means. There is no answer where the interface is not ready.
    ///
    /// # Errors
    /// Will return `Err` if the interface is not ready, or does not know the
    /// address.
    pub fn query_mac_address(answer: Option<Option<MacAddress>>) -> (r: Result<MacAddress, Error>)
        ensures
            r == (match answer {
                Some(Some(mac)) => Ok::<MacAddress, Error>(mac),
                Some(None) => Err(Error::ResourceNoAvailable(Resource::MacAddress)),
                None => Err(Error::ResourceNoAvailable(Resource::Nic)),
            }),
    {
        match answer {
            Some(Some(mac)) => Ok(mac),
            Some(None) => Err(Error::ResourceNoAvailable(Resource::MacAddress)),
            None => Err(Error::ResourceNoAvailable(Resource::Nic)),
        }
    }

    /// Enable the NIC interface so that hardware can send Arp, ICMP, etc.: the
    /// command that tells the card where to put plain packets. The memory has to
    /// be registered, and the interface ready.
    ///
    /// # Errors
    /// Will return `Err` if the interface is not ready.
    pub fn enable_nic_interface(
        &mut self,
        nic_ready: bool,
        start_va: u64,
        lkey: Key,
    ) -> (r: Result<ToCardCtrlRbDesc, Error>)
        ensures
            if !nic_ready {
                &&& r == Err::<ToCardCtrlRbDesc, Error>(Error::ResourceNoAvailable(Resource::Nic))
                &&& final(self)@ == old(self)@
            } else {
                &&& r == old(self)@.ctrl_result(
                    ToCardCtrlRbDesc::SetRawPacketReceiveMeta(
                        ToCardCtrlRbDescSetRawPacketReceiveMeta {
                            common: ToCardCtrlRbDescCommon { op_id: old(self)@.next_ctrl_op_id },
                            base_write_addr: start_va,
                            key: lkey,
                        },
                    ),
                )
                &&& final(self)@ == old(self)@.ctrl_started()
            },
    {
        if !nic_ready {
            return Err(Error::ResourceNoAvailable(Resource::Nic));
        }
        let op_id: u32 = self.get_ctrl_op_id();
        let desc = ToCardCtrlRbDesc::SetRawPacketReceiveMeta(
            ToCardCtrlRbDescSetRawPacketReceiveMeta {
                common: ToCardCtrlRbDescCommon { op_id },
                base_write_addr: start_va,
                key: lkey,
            },
        );
        match self.do_ctrl_op(op_id) {
            Ok(()) => Ok(desc),
            Err(e) => Err(e),
        }
    }

    /// The command that tells the card its network. It uses up two ids, of
    /// which the command has the second.
    pub fn set_network(&mut self) -> (r: ToCardCtrlRbDesc)
        ensures
            r == ToCardCtrlRbDesc::SetNetworkParam(
                ToCardCtrlRbDescSetNetworkParam {
                    common: ToCardCtrlRbDescCommon { op_id: id_after(old(self)@.next_ctrl_op_id) },
                    gateway: old(self)@.network.gateway,
                    netmask: old(self)@.network.netmask,
                    ipaddr: old(self)@.network.ipaddr,
                    macaddr: old(self)@.network.macaddr,
                },
            ),
            final(self)@ == old(self)@.id_taken().id_taken(),
    {
        let op_id: u32 = self.get_ctrl_op_id();
        let network: RdmaDeviceNetworkParam = self.local_network;
        let mut desc = ToCardCtrlRbDesc::SetNetworkParam(
            ToCardCtrlRbDescSetNetworkParam {
                common: ToCardCtrlRbDescCommon { op_id },
                gateway: network.gateway,
                netmask: network.netmask,
                ipaddr: network.ipaddr,
                macaddr: network.macaddr,
            },
        );
        self.send_ctrl_desc(&mut desc);
        desc
    }

    /// Gives a command the next id. Once it was sent, `do_ctrl_op` takes note of
    /// it.
    pub fn send_ctrl_desc(&mut self, desc: &mut ToCardCtrlRbDesc)
        ensures
            *final(desc) == old(desc).with_id(old(self)@.next_ctrl_op_id),
            final(self)@ == old(self)@.id_taken(),
    {
        let id: u32 = self.get_ctrl_op_id();
        desc.set_id(id);
    }
}

/// get a descriptor of specific size
pub fn get_descriptor(size: u32) -> (r: Box<ToCardWorkRbDesc>)
    ensures
        ({
            &&& *r matches ToCardWorkRbDesc::Write(desc)
            &&& desc.common.total_len == size && desc.common.raddr == 0 && desc.common.rkey@ == 0
            &&& desc.common.dqp_ip.octets@ == seq![0u8, 0, 0, 0] && desc.common.dqpn@ == 0
            &&& desc.common.mac_addr.octets@ == seq![0u8, 0, 0, 0, 0, 0] && desc.common.pmtu == Pmtu::Mtu256
            &&& desc.common.flags@ == 0 && desc.common.qp_type == QpType::Rc
            &&& desc.common.psn@ == 0 && desc.common.msn@ == 0
            &&& desc.sge0 == (DescSge { addr: 0, len: size, key: Key::of(0) })
            &&& desc.sge1 is None && desc.sge2 is None && desc.sge3 is None
            &&& desc.is_first && desc.is_last
        }),
{
    let mut common: ToCardWorkRbDescCommon = ToCardWorkRbDescCommon::default();
    common.total_len = size;
    let sge = Sge { len: size, addr: 0, key: Key::default() };
    ToCardWorkRbDescBuilder::new(ToCardWorkRbDescOpcode::Write).with_common(common).with_sge(sge).build().unwrap()
}

/// A command has succeeded just where the card said so; else the cause is given: the
/// error that came instead of an answer, that there is no answer, or that the card
/// refused.
pub proof fn law_command_succeeds_when_card_says(reply: Result<Option<bool>, Error>, op: CardOp)
    ensures
        ctrl_outcome(reply, op) is Ok <==> reply == Ok::<Option<bool>, Error>(Some(true)),
        reply matches Err(e) ==> ctrl_outcome(reply, op) == Err::<(), Error>(e),
        reply == Ok::<Option<bool>, Error>(None) ==> ctrl_outcome(reply, op) == Err::<(), Error>(
            Error::SetCtxResultFailed,
        ),
        reply == Ok::<Option<bool>, Error>(Some(false)) ==> ctrl_outcome(reply, op) == Err::<(), Error>(
            Error::DeviceReturnFailed(op),
        ),
{
}

/// Commands have ids that follow each other, and an id that a command under way has
/// is not given to another one.
pub proof fn law_commands_have_their_own_ids(s: DeviceView, desc: ToCardCtrlRbDesc)
    ensures
        s.id_taken().next_ctrl_op_id == (s.next_ctrl_op_id + 1) % 0x1_0000_0000,
        s.id_taken().ctrl_ops == s.ctrl_ops,
        s.ctrl_started().next_ctrl_op_id == (s.next_ctrl_op_id + 1) % 0x1_0000_0000,
        s.ctrl_started().ctrl_ops.contains(s.next_ctrl_op_id),
        forall|id: u32| id != s.next_ctrl_op_id ==> (s.ctrl_started().ctrl_ops.contains(id) <==> s.ctrl_ops.contains(id)),
        s.ctrl_started().pds == s.pds && s.ctrl_started().qps == s.qps,
        s.ctrl_result(desc) is Ok <==> !s.ctrl_ops.contains(s.next_ctrl_op_id),
        s.ctrl_result(desc) matches Ok(d) ==> d == desc,
{
}

/// A queue pair that was set up is known under its number and belongs to its
/// protection domain; nothing else has changed.
pub proof fn law_created_queue_pair_is_known(s: DeviceView, qp: Qp, q: u32, pd: u32)
    requires
        s.pds.contains_key(qp.pd.handle),
        !s.pds[qp.pd.handle].qp.contains(qp.qpn@),
    ensures
        ({
            let t = qp_created(s, qp);
            &&& t.qps.contains_key(qp.qpn@)
            &&& t.qps[qp.qpn@].qpn == qp.qpn && t.qps[qp.qpn@].peer_qpn == qp.peer_qpn && t.qps[qp.qpn@].pd == qp.pd
            &&& t.qps[qp.qpn@].dqp_ip == qp.dqp_ip && t.qps[qp.qpn@].dqp_mac_addr == qp.dqp_mac
            &&& t.qps[qp.qpn@].local_ip == s.network.ipaddr && t.qps[qp.qpn@].local_mac == s.network.macaddr
            &&& t.pds[qp.pd.handle].qp.contains(qp.qpn@)
            &&& t.pds[qp.pd.handle].mr == s.pds[qp.pd.handle].mr
            &&& q != qp.qpn@ ==> t.qps.contains_key(q) == s.qps.contains_key(q) && t.qps[q] == s.qps[q]
            &&& q != qp.qpn@ ==> t.pds[qp.pd.handle].qp.contains(q) == s.pds[qp.pd.handle].qp.contains(q)
            &&& pd != qp.pd.handle ==> t.pds.contains_key(pd) == s.pds.contains_key(pd) && t.pds[pd] == s.pds[pd]
            &&& t.ctrl_ops == s.ctrl_ops && t.next_ctrl_op_id == s.next_ctrl_op_id && t.network == s.network
        }),
{
}

} // verus!
