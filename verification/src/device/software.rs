//! A card in software: what it sends for a descriptor, what it reports of a
//! packet that it receives, and the tables that it keeps.

use std::collections::HashMap;
use vstd::prelude::*;
#[allow(unused_imports)]
use vstd::arithmetic::div_mod::lemma_fundamental_div_mod;
use crate::device::ctrl::{CtrlRbDescOpcode, ToCardCtrlRbDesc, ToCardCtrlRbDescQpManagement, ToCardCtrlRbDescUpdateMrTable, ToHostCtrlRbDesc, ToHostCtrlRbDescCommon};
use crate::device::scheduler::get_to_card_desc_common;
#[allow(unused_imports)]
use crate::device::scheduler::common_of;
use crate::device::sgl::{PayloadInfo, SGList};
#[allow(unused_imports)]
use crate::device::sgl::{address_in, byte_at, law_cut_splits_bytes, law_rest_keeps_bytes, law_slices_keep_bytes, lemma_rest_after, rest_after, slice_of, taken, total_length, SliceInfo};
use crate::device::work::{DescSge, ToCardWorkRbDesc, ToCardWorkRbDescCommon, ToHostWorkRbDesc, ToHostWorkRbDescAck, ToHostWorkRbDescAethCode, ToHostWorkRbDescCommon, ToHostWorkRbDescOpcode, ToHostWorkRbDescRead, ToHostWorkRbDescStatus, ToHostWorkRbDescTransType, ToHostWorkRbDescWriteOrReadResp, ToHostWorkRbDescWriteType, ToHostWorkRbDescWriteWithImm};
#[allow(unused_imports)]
use crate::types::{add24, ThreeBytesStruct};
use crate::types::{Key, MemAccessTypeFlag, Msn, Pmtu, Psn, QpType, Qpn};
use crate::utils::get_first_packet_max_length;
#[allow(unused_imports)]
use crate::utils::{first_packet_max_length, packet_cnt};

verus! {

broadcast use vstd::std_specs::hash::group_hash_axioms;

/// The UDP port of RDMA packets
pub const RDMA_PORT: u16 = 4791;

/// What can go wrong in the card
#[derive(Debug, Clone, Copy, PartialEq, Eq, Structural)]
pub enum BlueRdmaLogicError {
    /// A packet could not be sent or received
    NetAgentError,
    /// Raw packet length is too long: the PMTU, and the length
    RawPacketLengthTooLong(u32, u32),
    /// The elements of a descriptor hold too few bytes
    Unreachable,
}

/// The extended transport header: what memory of the peer a packet is about
#[derive(Debug, Clone, Copy, PartialEq, Eq, Structural)]
pub struct RethHeader {
    pub va: u64,
    pub rkey: Key,
    pub len: u32,
}

/// What every packet says
#[derive(Debug, Clone, Copy, PartialEq, Eq, Structural)]
pub struct RdmaMessageMetaCommon {
    pub tran_type: ToHostWorkRbDescTransType,
    pub opcode: ToHostWorkRbDescOpcode,
    pub solicited: bool,
    /// We use the pkey to store msn
    pub pkey: u16,
    pub dqpn: Qpn,
    pub ack_req: bool,
    pub psn: Psn,
}

/// The headers of a packet that is not an acknowledgement
#[derive(Debug, Clone, Copy, PartialEq, Eq, Structural)]
pub struct RdmaGeneralMeta {
    pub common_meta: RdmaMessageMetaCommon,
    pub reth: RethHeader,
    pub imm: Option<u32>,
    pub secondary_reth: Option<RethHeader>,
}

impl RdmaGeneralMeta {
    /// Whether bytes follow the headers.
    pub open spec fn has_payload_spec(self) -> bool {
        self.common_meta.opcode != ToHostWorkRbDescOpcode::RdmaReadRequest && self.common_meta.opcode
            != ToHostWorkRbDescOpcode::Acknowledge
    }

    /// Whether bytes follow the headers
    pub fn has_payload(&self) -> (r: bool)
        ensures
            r == self.has_payload_spec(),
    {
        self.common_meta.opcode != ToHostWorkRbDescOpcode::RdmaReadRequest && self.common_meta.opcode
            != ToHostWorkRbDescOpcode::Acknowledge
    }

    /// The access that the packet needs, as bits.
    pub open spec fn needed_permissions_spec(self) -> u8 {
        if self.has_payload_spec() {
            MemAccessTypeFlag::IBV_ACCESS_REMOTE_WRITE
        } else {
            MemAccessTypeFlag::IBV_ACCESS_REMOTE_READ
        }
    }

    /// The access that the packet needs: to write where it brings bytes, else to
    /// read
    pub fn needed_permissions(&self) -> (r: MemAccessTypeFlag)
        ensures
            r@ == self.needed_permissions_spec(),
    {
        if self.has_payload() {
            MemAccessTypeFlag::from_bits(MemAccessTypeFlag::IBV_ACCESS_REMOTE_WRITE)
        } else {
            MemAccessTypeFlag::from_bits(MemAccessTypeFlag::IBV_ACCESS_REMOTE_READ)
        }
    }
}

/// The headers of an acknowledgement
#[derive(Debug, Clone, Copy, PartialEq, Eq, Structural)]
pub struct RdmaAckMeta {
    pub common_meta: RdmaMessageMetaCommon,
    pub aeth_code: ToHostWorkRbDescAethCode,
    pub aeth_value: u8,
    pub msn: u32,
}

/// The headers of a packet
#[derive(Debug, Clone, Copy, PartialEq, Eq, Structural)]
pub enum Metadata {
    General(RdmaGeneralMeta),
    Acknowledge(RdmaAckMeta),
}

impl Metadata {
    /// What every packet says.
    pub open spec fn common_spec(self) -> RdmaMessageMetaCommon {
        match self {
            Metadata::General(meta) => meta.common_meta,
            Metadata::Acknowledge(meta) => meta.common_meta,
        }
    }

    /// What every packet says
    pub fn common_meta(&self) -> (r: RdmaMessageMetaCommon)
        ensures
            r == self.common_spec(),
    {
        match self {
            Metadata::General(meta) => meta.common_meta,
            Metadata::Acknowledge(meta) => meta.common_meta,
        }
    }
}

/// A packet
#[derive(Debug)]
pub struct RdmaMessage {
    pub meta_data: Metadata,
    pub payload: PayloadInfo,
}

/// What a packet says and brings
pub struct MessageView {
    pub meta_data: Metadata,
    /// Where the bytes come from
    pub payload: Seq<SliceInfo>,
    /// How many there are
    pub length: u32,
}

impl View for RdmaMessage {
    type V = MessageView;

    open spec fn view(&self) -> MessageView {
        MessageView { meta_data: self.meta_data, payload: self.payload@, length: self.payload.length() }
    }
}

/// The transport of a queue pair; that of plain packets is not one of RDMA.
pub open spec fn transport_of(qp_type: QpType) -> ToHostWorkRbDescTransType {
    match qp_type {
        QpType::Rc => ToHostWorkRbDescTransType::Rc,
        QpType::Uc => ToHostWorkRbDescTransType::Uc,
        QpType::Ud => ToHostWorkRbDescTransType::Ud,
        QpType::XrcSend => ToHostWorkRbDescTransType::Xrc,
        QpType::XrcRecv => ToHostWorkRbDescTransType::Xrc,
        QpType::RawPacket => ToHostWorkRbDescTransType::DtldExtended,
    }
}

fn transport(qp_type: QpType) -> (r: ToHostWorkRbDescTransType)
    ensures
        r == transport_of(qp_type),
{
    match qp_type {
        QpType::Rc => ToHostWorkRbDescTransType::Rc,
        QpType::Uc => ToHostWorkRbDescTransType::Uc,
        QpType::Ud => ToHostWorkRbDescTransType::Ud,
        QpType::XrcSend => ToHostWorkRbDescTransType::Xrc,
        QpType::XrcRecv => ToHostWorkRbDescTransType::Xrc,
        QpType::RawPacket => ToHostWorkRbDescTransType::DtldExtended,
    }
}

/// The place of a descriptor's data in its message, and its kind
#[derive(Debug, Clone, Copy, PartialEq, Eq, Structural)]
pub struct WriteKind {
    /// The message begins here
    pub is_first: bool,
    /// The message ends here
    pub is_last: bool,
    /// It answers a read request
    pub is_resp: bool,
    /// The immediate data, if it has any
    pub imm: Option<u32>,
}

impl WriteKind {
    /// The opcode of the first of several packets.
    pub open spec fn first_opcode(self) -> ToHostWorkRbDescOpcode {
        match (self.is_first, self.is_resp) {
            (true, true) => ToHostWorkRbDescOpcode::RdmaReadResponseFirst,
            (true, false) => ToHostWorkRbDescOpcode::RdmaWriteFirst,
            (false, true) => ToHostWorkRbDescOpcode::RdmaReadResponseMiddle,
            (false, false) => ToHostWorkRbDescOpcode::RdmaWriteMiddle,
        }
    }

    /// The opcode of a packet that is neither the first nor the last.
    pub open spec fn middle_opcode(self) -> ToHostWorkRbDescOpcode {
        if self.is_resp {
            ToHostWorkRbDescOpcode::RdmaReadResponseMiddle
        } else {
            ToHostWorkRbDescOpcode::RdmaWriteMiddle
        }
    }

    /// The opcode and the immediate data of the last of several packets.
    pub open spec fn last_opcode(self) -> (ToHostWorkRbDescOpcode, Option<u32>) {
        if !self.is_last {
            (self.middle_opcode(), None)
        } else if self.is_resp {
            (ToHostWorkRbDescOpcode::RdmaReadResponseLast, None)
        } else if self.imm is Some {
            (ToHostWorkRbDescOpcode::RdmaWriteLastWithImmediate, self.imm)
        } else {
            (ToHostWorkRbDescOpcode::RdmaWriteLast, None)
        }
    }

    /// The opcode and the immediate data of a single packet.
    pub open spec fn only_opcode(self) -> (ToHostWorkRbDescOpcode, Option<u32>) {
        if !self.is_first {
            self.last_opcode()
        } else if !self.is_last {
            (self.first_opcode(), None)
        } else if self.is_resp {
            (ToHostWorkRbDescOpcode::RdmaReadResponseOnly, None)
        } else if self.imm is Some {
            (ToHostWorkRbDescOpcode::RdmaWriteOnlyWithImmediate, self.imm)
        } else {
            (ToHostWorkRbDescOpcode::RdmaWriteOnly, None)
        }
    }

    /// The opcode of the first of several packets
    pub fn write_first_opcode(&self) -> (r: ToHostWorkRbDescOpcode)
        ensures
            r == self.first_opcode(),
    {
        if self.is_first {
            if self.is_resp {
                ToHostWorkRbDescOpcode::RdmaReadResponseFirst
            } else {
                ToHostWorkRbDescOpcode::RdmaWriteFirst
            }
        } else {
            self.write_middle_opcode()
        }
    }

    /// The opcode of a packet that is neither the first nor the last
    pub fn write_middle_opcode(&self) -> (r: ToHostWorkRbDescOpcode)
        ensures
            r == self.middle_opcode(),
    {
        if self.is_resp {
            ToHostWorkRbDescOpcode::RdmaReadResponseMiddle
        } else {
            ToHostWorkRbDescOpcode::RdmaWriteMiddle
        }
    }

    /// The opcode and the immediate data of the last of several packets
    pub fn write_last_opcode_with_imm(&self) -> (r: (ToHostWorkRbDescOpcode, Option<u32>))
        ensures
            r == self.last_opcode(),
    {
        if !self.is_last {
            (self.write_middle_opcode(), None)
        } else if self.is_resp {
            (ToHostWorkRbDescOpcode::RdmaReadResponseLast, None)
        } else if self.imm.is_some() {
            (ToHostWorkRbDescOpcode::RdmaWriteLastWithImmediate, self.imm)
        } else {
            (ToHostWorkRbDescOpcode::RdmaWriteLast, None)
        }
    }

    /// The opcode and the immediate data of a single packet
    pub fn write_only_opcode_with_imm(&self) -> (r: (ToHostWorkRbDescOpcode, Option<u32>))
        ensures
            r == self.only_opcode(),
    {
        if !self.is_first {
            self.write_last_opcode_with_imm()
        } else if !self.is_last {
            (self.write_first_opcode(), None)
        } else if self.is_resp {
            (ToHostWorkRbDescOpcode::RdmaReadResponseOnly, None)
        } else if self.imm.is_some() {
            (ToHostWorkRbDescOpcode::RdmaWriteOnlyWithImmediate, self.imm)
        } else {
            (ToHostWorkRbDescOpcode::RdmaWriteOnly, None)
        }
    }
}

/// The kind of a descriptor; none for a read request.
pub open spec fn kind_of(desc: ToCardWorkRbDesc) -> Option<WriteKind> {
    match desc {
        ToCardWorkRbDesc::Read(req) => None,
        ToCardWorkRbDesc::Write(req) => Some(
            WriteKind { is_first: req.is_first, is_last: req.is_last, is_resp: false, imm: None },
        ),
        ToCardWorkRbDesc::ReadResp(req) => Some(
            WriteKind { is_first: req.is_first, is_last: req.is_last, is_resp: true, imm: None },
        ),
        ToCardWorkRbDesc::WriteWithImm(req) => Some(
            WriteKind { is_first: req.is_first, is_last: req.is_last, is_resp: false, imm: Some(req.imm) },
        ),
    }
}

spec fn with_option(s: Seq<DescSge>, e: Option<DescSge>) -> Seq<DescSge> {
    match e {
        Some(e) => s.push(e),
        None => s,
    }
}

/// The elements that a descriptor has, in order.
pub open spec fn present(e0: DescSge, e1: Option<DescSge>, e2: Option<DescSge>, e3: Option<DescSge>) -> Seq<DescSge> {
    let s0 = seq![e0];
    let s1 = match e1 {
        Some(e) => s0.push(e),
        None => s0,
    };
    let s2 = match e2 {
        Some(e) => s1.push(e),
        None => s1,
    };
    match e3 {
        Some(e) => s2.push(e),
        None => s2,
    }
}

/// The elements of a descriptor.
pub open spec fn elements(desc: ToCardWorkRbDesc) -> Seq<DescSge> {
    match desc {
        ToCardWorkRbDesc::Read(req) => seq![req.sge],
        ToCardWorkRbDesc::Write(req) => present(req.sge0, req.sge1, req.sge2, req.sge3),
        ToCardWorkRbDesc::ReadResp(req) => present(req.sge0, req.sge1, req.sge2, req.sge3),
        ToCardWorkRbDesc::WriteWithImm(req) => present(req.sge0, req.sge1, req.sge2, req.sge3),
    }
}

fn push_option(list: &mut Vec<DescSge>, e: Option<DescSge>)
    ensures
        final(list)@ == with_option(old(list)@, e),
{
    if let Some(e) = e {
        list.push(e);
    }
}

fn list_elements(e0: DescSge, e1: Option<DescSge>, e2: Option<DescSge>, e3: Option<DescSge>) -> (r: Vec<DescSge>)
    ensures
        r@ == present(e0, e1, e2, e3),
        r@.len() <= 4,
{
    let mut list: Vec<DescSge> = Vec::new();
    list.push(e0);
    push_option(&mut list, e1);
    push_option(&mut list, e2);
    push_option(&mut list, e3);
    assert(list@ =~= present(e0, e1, e2, e3));
    list
}

/// What every packet of a descriptor says, if it is its first.
pub open spec fn first_meta(desc: ToCardWorkRbDesc) -> RdmaMessageMetaCommon {
    let c = common_of(desc);
    RdmaMessageMetaCommon {
        tran_type: transport_of(c.qp_type),
        opcode: ToHostWorkRbDescOpcode::RdmaWriteOnly,
        solicited: false,
        pkey: c.msn@,
        dqpn: c.dqpn,
        ack_req: false,
        psn: c.psn,
    }
}

/// The memory of the elements.
pub open spec fn slices(s: Seq<DescSge>) -> Seq<SliceInfo> {
    s.map_values(|e: DescSge| slice_of(e))
}

/// The packet of a read request: the memory that is read, and the memory that
/// the answer goes to.
pub open spec fn read_message(desc: ToCardWorkRbDesc) -> MessageView {
    let c = common_of(desc);
    let sge = elements(desc)[0];
    MessageView {
        meta_data: Metadata::General(
            RdmaGeneralMeta {
                common_meta: RdmaMessageMetaCommon {
                    opcode: ToHostWorkRbDescOpcode::RdmaReadRequest,
                    ..first_meta(desc)
                },
                reth: RethHeader { va: c.raddr, rkey: c.rkey, len: c.total_len },
                imm: None,
                secondary_reth: Some(RethHeader { va: sge.addr, rkey: sge.key, len: sge.len }),
            },
        ),
        payload: Seq::empty(),
        length: 0,
    }
}

/// The only packet of a descriptor whose data fits into one. Its length is that
/// of the message where it starts one of several descriptors; the elements,
/// from which it is taken otherwise, have been used up by then.
pub open spec fn only_message(desc: ToCardWorkRbDesc, kind: WriteKind) -> MessageView {
    let c = common_of(desc);
    let (opcode, imm) = kind.only_opcode();
    MessageView {
        meta_data: Metadata::General(
            RdmaGeneralMeta {
                common_meta: RdmaMessageMetaCommon { opcode, ..first_meta(desc) },
                reth: RethHeader {
                    va: c.raddr,
                    rkey: c.rkey,
                    len: if opcode.is_first_spec() {
                        c.total_len
                    } else {
                        0
                    },
                },
                imm,
                secondary_reth: None,
            },
        ),
        payload: slices(elements(desc)),
        length: total_length(elements(desc)) as u32,
    }
}

/// How many packets the data of a descriptor takes.
pub open spec fn message_cnt(desc: ToCardWorkRbDesc) -> int {
    let c = common_of(desc);
    packet_cnt(c.pmtu.size_spec() as int, c.raddr as int, total_length(elements(desc)) as int)
}

/// Where packet `k` of a descriptor starts, counted from its first byte.
pub open spec fn message_offset(desc: ToCardWorkRbDesc, k: int) -> int {
    let c = common_of(desc);
    let p = c.pmtu.size_spec() as int;
    if k <= 0 {
        0
    } else {
        first_packet_max_length(c.raddr as int, p) + (k - 1) * p
    }
}

/// How many bytes packet `k` of a descriptor brings.
pub open spec fn message_length(desc: ToCardWorkRbDesc, k: int) -> int {
    (if k == message_cnt(desc) - 1 {
        total_length(elements(desc)) as int
    } else {
        message_offset(desc, k + 1)
    }) - message_offset(desc, k)
}

/// What is left of the elements before packet `k`.
pub open spec fn elements_before(desc: ToCardWorkRbDesc, k: nat) -> Seq<DescSge>
    decreases k,
{
    if k == 0 {
        elements(desc)
    } else {
        rest_after(elements_before(desc, (k - 1) as nat), message_length(desc, k - 1) as nat)
    }
}

/// Packet `k` of a descriptor whose data takes several.
pub open spec fn nth_message(desc: ToCardWorkRbDesc, kind: WriteKind, k: int) -> MessageView {
    let c = common_of(desc);
    let length = message_length(desc, k);
    let (opcode, imm) = if k == 0 {
        (kind.first_opcode(), None)
    } else if k < message_cnt(desc) - 1 {
        (kind.middle_opcode(), None)
    } else {
        kind.last_opcode()
    };
    MessageView {
        meta_data: Metadata::General(
            RdmaGeneralMeta {
                common_meta: RdmaMessageMetaCommon {
                    opcode,
                    psn: Psn::of(add24(c.psn@ as int, k)),
                    ..first_meta(desc)
                },
                reth: RethHeader {
                    va: ((c.raddr + message_offset(desc, k)) % 0x1_0000_0000_0000_0000) as u64,
                    rkey: c.rkey,
                    len: if k == 0 && opcode.is_first_spec() {
                        c.total_len
                    } else {
                        length as u32
                    },
                },
                imm,
                secondary_reth: None,
            },
        ),
        payload: slices(taken(elements_before(desc, k as nat), length as nat)),
        length: length as u32,
    }
}

/// The packets that are sent for a descriptor that is not a plain packet.
pub open spec fn messages(desc: ToCardWorkRbDesc) -> Seq<MessageView> {
    match kind_of(desc) {
        None => seq![read_message(desc)],
        Some(kind) => if message_cnt(desc) == 1 {
            seq![only_message(desc, kind)]
        } else {
            Seq::new(message_cnt(desc) as nat, |k: int| nth_message(desc, kind, k))
        },
    }
}

/// What the card sends
#[derive(Debug)]
pub enum Outgoing {
    /// RDMA packets, in this order
    Messages(Vec<RdmaMessage>),
    /// A packet without headers of its own
    Raw(PayloadInfo),
}

/// Facts about the packets of a descriptor.
proof fn lemma_message(desc: ToCardWorkRbDesc, k: int)
    requires
        total_length(elements(desc)) <= u32::MAX,
        message_cnt(desc) > 1,
        0 <= k < message_cnt(desc),
    ensures
        0 <= message_offset(desc, k) < total_length(elements(desc)),
        0 < message_length(desc, k) <= common_of(desc).pmtu.size_spec(),
        k == 0 ==> message_length(desc, k) == first_packet_max_length(
            common_of(desc).raddr as int,
            common_of(desc).pmtu.size_spec() as int,
        ),
        k > 0 ==> (k < message_cnt(desc) - 1 <==> total_length(elements(desc)) - message_offset(desc, k)
            > common_of(desc).pmtu.size_spec()),
        0 < k < message_cnt(desc) - 1 ==> message_length(desc, k) == common_of(desc).pmtu.size_spec(),
        k == message_cnt(desc) - 1 ==> message_offset(desc, k) + message_length(desc, k) == total_length(
            elements(desc),
        ),
        k < message_cnt(desc) - 1 ==> message_offset(desc, k) + message_length(desc, k) == message_offset(desc, k + 1),
{
    let p = common_of(desc).pmtu.size_spec() as int;
    let first = first_packet_max_length(common_of(desc).raddr as int, p);
    let total = total_length(elements(desc)) as int;
    let rest = total - first;
    let c = message_cnt(desc) - 1;
    assert(0 < first <= p);
    lemma_fundamental_div_mod(rest + p - 1, p);
    assert((c - 1) * p < rest && rest <= c * p) by (nonlinear_arith)
        requires
            rest + p - 1 == p * c + (rest + p - 1) % p,
            0 <= (rest + p - 1) % p < p,
    ;
    if k > 0 {
        assert((k - 1) * p + p == k * p) by (nonlinear_arith);
        assert(0 <= (k - 1) * p <= (c - 1) * p) by (nonlinear_arith)
            requires
                0 < k <= c,
                p > 0,
        ;
        if k < c {
            assert(k * p <= (c - 1) * p) by (nonlinear_arith)
                requires
                    k <= c - 1,
                    p > 0,
            ;
        }
    }
}

/// The elements before a packet hold the bytes that are not sent yet.
proof fn lemma_elements_before(desc: ToCardWorkRbDesc, k: nat)
    requires
        total_length(elements(desc)) <= u32::MAX,
        message_cnt(desc) > 1,
        k < message_cnt(desc),
    ensures
        total_length(elements_before(desc, k)) == total_length(elements(desc)) - message_offset(desc, k as int),
    decreases k,
{
    if k > 0 {
        lemma_elements_before(desc, (k - 1) as nat);
        lemma_message(desc, k - 1);
        lemma_message(desc, k as int);
        lemma_rest_after(elements_before(desc, (k - 1) as nat), message_length(desc, k - 1) as nat);
    }
}

/// The packets of a descriptor bring its bytes, one after the other: each starts
/// where the one before it ended, with the next packet number; together they
/// bring all the bytes, and none brings more than the packet size. All but the
/// first start at a multiple of it. The first packet of a message announces the
/// length of the whole message, the others their own.
pub proof fn law_messages_cover(desc: ToCardWorkRbDesc, k: int)
    requires
        total_length(elements(desc)) <= u32::MAX,
        !(desc is Read),
        message_cnt(desc) > 1,
        0 <= k < messages(desc).len(),
        common_of(desc).psn@ <= 0xff_ffff,
    ensures
        ({
            let p = common_of(desc).pmtu.size_spec();
            let all = messages(desc);
            let m = all[k];
            let meta = m.meta_data->General_0;
            &&& k == 0 ==> meta.reth.va == common_of(desc).raddr && meta.common_meta.psn@ == common_of(desc).psn@
            &&& 0 < m.length <= p
            &&& m.meta_data is General
            &&& meta.reth.rkey == common_of(desc).rkey
            &&& meta.reth.len == (if k == 0 && kind_of(desc)->0.is_first {
                common_of(desc).total_len
            } else {
                m.length
            })
            &&& k > 0 ==> meta.reth.va as int % p as int == 0
            &&& k + 1 < all.len() ==> {
                let next = all[k + 1].meta_data->General_0;
                &&& next.reth.va == (meta.reth.va + m.length) % 0x1_0000_0000_0000_0000
                &&& next.common_meta.psn@ == add24(meta.common_meta.psn@ as int, 1)
            }
            &&& message_offset(desc, k) + m.length == (if k + 1 < all.len() {
                message_offset(desc, k + 1)
            } else {
                total_length(elements(desc)) as int
            })
        }),
{
    let kind = kind_of(desc)->0;
    let all = messages(desc);
    let c = common_of(desc);
    let offset = message_offset(desc, k);
    assert(all[k] == nth_message(desc, kind, k));
    lemma_message(desc, k);
    lemma_nth_message_fields(desc, kind, k);
    if k > 0 {
        lemma_offset_aligned(c.raddr, c.pmtu, k);
    }
    if k + 1 < all.len() {
        assert(all[k + 1] == nth_message(desc, kind, k + 1));
        lemma_message(desc, k + 1);
        lemma_nth_message_fields(desc, kind, k + 1);
        lemma_wrap(c.raddr + offset, message_length(desc, k));
        lemma_add24_one(c.psn@ as int, k);
    }
}

/// The fields of a packet that its neighbours depend on.
proof fn lemma_nth_message_fields(desc: ToCardWorkRbDesc, kind: WriteKind, k: int)
    ensures
        ({
            let m = nth_message(desc, kind, k);
            let meta = m.meta_data->General_0;
            let c = common_of(desc);
            &&& m.meta_data is General
            &&& meta.reth.va == ((c.raddr + message_offset(desc, k)) % 0x1_0000_0000_0000_0000) as u64
            &&& meta.common_meta.psn@ == add24(c.psn@ as int, k)
            &&& m.length == message_length(desc, k) as u32
            &&& meta.reth.rkey == c.rkey
            &&& meta.reth.len == (if k == 0 && kind.is_first {
                c.total_len
            } else {
                m.length
            })
        }),
{
    broadcast use ThreeBytesStruct::lemma_of;

}

/// Packets but the first start at a multiple of the packet size, wrapped around
/// or not.
proof fn lemma_offset_aligned(raddr: u64, pmtu: Pmtu, k: int)
    requires
        k > 0,
    ensures
        ({
            let p = pmtu.size_spec() as int;
            let va = raddr + (first_packet_max_length(raddr as int, p) + (k - 1) * p);
            (va % 0x1_0000_0000_0000_0000) % p == 0
        }),
{
    let p = pmtu.size_spec() as int;
    let q = raddr as int / p;
    let va = raddr + (first_packet_max_length(raddr as int, p) + (k - 1) * p);
    lemma_fundamental_div_mod(raddr as int, p);
    assert(va == (q + k) * p) by (nonlinear_arith)
        requires
            raddr == p * q + raddr as int % p,
            va == raddr + (p - raddr as int % p + (k - 1) * p),
    ;
    let m = 0x1_0000_0000_0000_0000int;
    assert(m % p == 0);
    let w = va / m;
    let t = m / p;
    lemma_fundamental_div_mod(va, m);
    lemma_fundamental_div_mod(m, p);
    assert(va % m == (q + k - w * t) * p) by (nonlinear_arith)
        requires
            va == (q + k) * p,
            va == m * w + va % m,
            m == p * t,
    ;
    vstd::arithmetic::div_mod::lemma_mod_multiples_basic(q + k - w * t, p);
}

/// What a packet brings is what its place in the descriptor holds: byte `j` of
/// packet `k` is the byte of the elements that lies `j` behind the packet's
/// start.
pub proof fn law_messages_bring_bytes(desc: ToCardWorkRbDesc, k: nat, j: nat)
    requires
        total_length(elements(desc)) <= u32::MAX,
        !(desc is Read),
        message_cnt(desc) > 1,
        k < messages(desc).len(),
        j < messages(desc)[k as int].length,
    ensures
        ({
            let m = messages(desc)[k as int];
            let brought = taken(elements_before(desc, k), m.length as nat);
            &&& m.payload == slices(brought)
            &&& total_length(brought) == m.length
            &&& byte_at(brought, j) == byte_at(elements(desc), (message_offset(desc, k as int) + j) as nat)
        }),
{
    let kind = kind_of(desc)->0;
    let m = messages(desc)[k as int];
    assert(m == nth_message(desc, kind, k as int));
    lemma_message(desc, k as int);
    lemma_nth_message_fields(desc, kind, k as int);
    lemma_elements_before(desc, k);
    law_cut_splits_bytes(elements_before(desc, k), m.length as nat, j);
    lemma_bytes_before(desc, k, j);
}

/// The elements before packet `k` hold the bytes from its start on.
proof fn lemma_bytes_before(desc: ToCardWorkRbDesc, k: nat, j: nat)
    requires
        total_length(elements(desc)) <= u32::MAX,
        message_cnt(desc) > 1,
        k < message_cnt(desc),
        message_offset(desc, k as int) + j < total_length(elements(desc)),
    ensures
        byte_at(elements_before(desc, k), j) == byte_at(
            elements(desc),
            (message_offset(desc, k as int) + j) as nat,
        ),
    decreases k,
{
    if k > 0 {
        let n = message_length(desc, k - 1) as nat;
        lemma_message(desc, k - 1);
        lemma_message(desc, k as int);
        lemma_elements_before(desc, (k - 1) as nat);
        law_rest_keeps_bytes(elements_before(desc, (k - 1) as nat), n, j);
        lemma_bytes_before(desc, (k - 1) as nat, n + j);
    }
}

proof fn lemma_wrap(a: int, b: int)
    ensures
        (a % 0x1_0000_0000_0000_0000 + b) % 0x1_0000_0000_0000_0000 == (a + b) % 0x1_0000_0000_0000_0000,
{
}

proof fn lemma_add24_one(a: int, k: int)
    ensures
        add24(add24(a, k) as int, 1) == add24(a, k + 1),
{
}

/// A message with the given headers and payload
fn general_message(meta: RdmaGeneralMeta, payload: PayloadInfo) -> (r: RdmaMessage)
    ensures
        r@ == (MessageView { meta_data: Metadata::General(meta), payload: payload@, length: payload.length() }),
{
    RdmaMessage { meta_data: Metadata::General(meta), payload }
}

/// The packets of a descriptor that sends data.
fn write_messages(request: &ToCardWorkRbDesc, kind: WriteKind, sges: Vec<DescSge>) -> (r: Vec<RdmaMessage>)
    requires
        kind_of(*request) == Some(kind),
        elements(*request) == sges@,
        sges@.len() <= 4,
        total_length(elements(*request)) <= u32::MAX,
    ensures
        r@.map_values(|m: RdmaMessage| m@) == messages(*request),
{
    let ghost desc = *request;
    let common: &ToCardWorkRbDescCommon = get_to_card_desc_common(request);
    let pmtu: u32 = u32::from(&common.pmtu);
    let first_packet_max_length: u32 = get_first_packet_max_length(common.raddr, pmtu);
    let mut sg_list: SGList = SGList::from_sges(sges);
    // a default metadata. It will be updated later
    let mut meta = RdmaGeneralMeta {
        common_meta: RdmaMessageMetaCommon {
            tran_type: transport(common.qp_type),
            opcode: ToHostWorkRbDescOpcode::RdmaWriteOnly,
            solicited: false,
            pkey: common.msn.get(),
            dqpn: common.dqpn,
            ack_req: false,
            psn: common.psn,
        },
        reth: RethHeader { va: common.raddr, rkey: common.rkey, len: common.total_len },
        imm: None,
        secondary_reth: None,
    };
    let mut out: Vec<RdmaMessage> = Vec::new();
    let sge_total_length: u32 = sg_list.get_total_length();
    let ghost cnt = message_cnt(desc);
    let ghost p = pmtu as int;
    if sge_total_length <= first_packet_max_length {
        // RdmaWriteOnly or RdmaWriteOnlyWithImmediate
        let payload: PayloadInfo = sg_list.cut_all_levels();
        let (opcode, imm): (ToHostWorkRbDescOpcode, Option<u32>) = kind.write_only_opcode_with_imm();
        meta.common_meta.opcode = opcode;
        meta.imm = imm;
        meta.reth.len = if opcode.is_first() {
            common.total_len
        } else {
            sg_list.get_total_length()
        };
        out.push(general_message(meta, payload));
        assert(out@.map_values(|m: RdmaMessage| m@) =~= messages(desc));
        return out;
    }
    proof {
        assert(cnt > 1) by {
            let rest = sge_total_length - first_packet_max_length;
            lemma_fundamental_div_mod(rest + p - 1, p);
            assert((rest + p - 1) / p >= 1) by (nonlinear_arith)
                requires
                    rest >= 1,
                    p > 0,
                    rest + p - 1 == p * ((rest + p - 1) / p) + (rest + p - 1) % p,
                    (rest + p - 1) % p < p,
            ;
        }
        lemma_message(desc, 0);
        lemma_elements_before(desc, 0);
    }
    let psn_value: u32 = common.psn.get();
    // we specifically handle the first and last packet
    // The first va might not align to pmtu
    let first: Option<PayloadInfo> = sg_list.cut(first_packet_max_length);
    meta.common_meta.opcode = kind.write_first_opcode();
    meta.reth.len = if meta.common_meta.opcode.is_first() {
        common.total_len
    } else {
        first_packet_max_length
    };
    if let Some(payload) = first {
        out.push(general_message(meta, payload));
    }
    let mut cur_len: u32 = sge_total_length - first_packet_max_length;
    let mut psn: Psn = common.psn.wrapping_add(1);
    let mut cur_va: u64 = common.raddr.wrapping_add(first_packet_max_length as u64);
    proof {
        ThreeBytesStruct::lemma_of(psn_value);
        ThreeBytesStruct::lemma_view_injective(common.psn, Psn::of(psn_value));
        assert(add24(psn_value as int, 0) == psn_value);
        assert(out@[0]@ == nth_message(desc, kind, 0));
        lemma_message(desc, 1);
        lemma_elements_before(desc, 1);
    }
    // send the middle packets
    meta.reth.len = pmtu;
    while cur_len > pmtu
        invariant
            common_of(desc) == *common,
            kind_of(desc) == Some(kind),
            total_length(elements(desc)) <= u32::MAX,
            cnt == message_cnt(desc),
            cnt > 1,
            pmtu == common.pmtu.size_spec(),
            1 <= out@.len() < cnt,
            cur_len == total_length(elements(desc)) - message_offset(desc, out@.len() as int),
            cur_len > 0,
            psn == Psn::of(add24(common.psn@ as int, out@.len() as int)),
            psn@ == add24(common.psn@ as int, out@.len() as int),
            cur_va == (common.raddr + message_offset(desc, out@.len() as int)) % 0x1_0000_0000_0000_0000,
            sg_list.wf(),
            sg_list.rest() == elements_before(desc, out@.len()),
            total_length(sg_list.rest()) == cur_len,
            meta.common_meta == (RdmaMessageMetaCommon {
                opcode: meta.common_meta.opcode,
                psn: meta.common_meta.psn,
                ..first_meta(desc)
            }),
            meta.reth == (RethHeader { va: meta.reth.va, rkey: common.rkey, len: pmtu }),
            meta.imm is None,
            meta.secondary_reth is None,
            forall|k: int| 0 <= k < out@.len() ==> (#[trigger] out@[k])@ == nth_message(desc, kind, k),
        decreases cur_len,
    {
        let ghost k = out@.len() as int;
        proof {
            lemma_message(desc, k);
            lemma_message(desc, k + 1);
            lemma_elements_before(desc, (k + 1) as nat);
        }
        let middle: Option<PayloadInfo> = sg_list.cut(pmtu);
        meta.common_meta.opcode = kind.write_middle_opcode();
        meta.reth.va = cur_va;
        meta.common_meta.psn = psn;
        if let Some(payload) = middle {
            out.push(general_message(meta, payload));
        }
        assert(out@[k]@ == nth_message(desc, kind, k));
        cur_len = cur_len - pmtu;
        psn = psn.wrapping_add(1);
        cur_va = cur_va.wrapping_add(pmtu as u64);
    }
    // cur_len <= pmtu, send last packet
    proof {
        lemma_message(desc, out@.len() as int);
    }
    let last: Option<PayloadInfo> = sg_list.cut(cur_len);
    // The last packet may be with immediate data
    let (opcode, imm): (ToHostWorkRbDescOpcode, Option<u32>) = kind.write_last_opcode_with_imm();
    meta.common_meta.opcode = opcode;
    meta.common_meta.psn = psn;
    meta.imm = imm;
    meta.reth.va = cur_va;
    meta.reth.len = cur_len;
    let ghost k = out@.len() as int;
    if let Some(payload) = last {
        out.push(general_message(meta, payload));
    }
    assert(out@[k]@ == nth_message(desc, kind, k));
    assert(out@.map_values(|m: RdmaMessage| m@) =~= messages(desc));
    out
}

/// The packet of a read request
fn read_messages(request: &ToCardWorkRbDesc, sge: DescSge) -> (r: Vec<RdmaMessage>)
    requires
        *request is Read,
        elements(*request) == seq![sge],
    ensures
        r@.map_values(|m: RdmaMessage| m@) == messages(*request),
{
    let common: &ToCardWorkRbDescCommon = get_to_card_desc_common(request);
    let meta = RdmaGeneralMeta {
        common_meta: RdmaMessageMetaCommon {
            tran_type: transport(common.qp_type),
            opcode: ToHostWorkRbDescOpcode::RdmaReadRequest,
            solicited: false,
            pkey: common.msn.get(),
            dqpn: common.dqpn,
            ack_req: false,
            psn: common.psn,
        },
        reth: RethHeader { va: common.raddr, rkey: common.rkey, len: common.total_len },
        imm: None,
        secondary_reth: Some(RethHeader { va: sge.addr, rkey: sge.key, len: sge.len }),
    };
    let mut out: Vec<RdmaMessage> = Vec::new();
    out.push(general_message(meta, PayloadInfo::new()));
    assert(out@.map_values(|m: RdmaMessage| m@) =~= messages(*request));
    out
}

/// Whether the card can send a plain packet, and what goes wrong if not.
pub open spec fn raw_error(desc: ToCardWorkRbDesc) -> Option<BlueRdmaLogicError> {
    let c = common_of(desc);
    if c.total_len > c.pmtu.size_spec() {
        Some(BlueRdmaLogicError::RawPacketLengthTooLong(c.pmtu.size_spec(), c.total_len))
    } else if c.total_len > total_length(elements(desc)) {
        Some(BlueRdmaLogicError::Unreachable)
    } else {
        None
    }
}

/// A plain packet
fn raw_packet(request: &ToCardWorkRbDesc, sges: Vec<DescSge>) -> (r: Result<Outgoing, BlueRdmaLogicError>)
    requires
        elements(*request) == sges@,
        0 < sges@.len() <= 4,
        total_length(elements(*request)) <= u32::MAX,
    ensures
        match raw_error(*request) {
            Some(e) => r == Err::<Outgoing, BlueRdmaLogicError>(e),
            None => {
                let len = common_of(*request).total_len;
                &&& r matches Ok(Outgoing::Raw(payload))
                &&& payload@ == slices(taken(elements(*request), len as nat))
                &&& payload.length() == len
            },
        },
{
    let common: &ToCardWorkRbDescCommon = get_to_card_desc_common(request);
    let total_length: u32 = common.total_len;
    let pmtu: u32 = u32::from(&common.pmtu);
    if total_length > pmtu {
        return Err(BlueRdmaLogicError::RawPacketLengthTooLong(pmtu, total_length));
    }
    let mut sg_list: SGList = SGList::from_sges(sges);
    match sg_list.cut(total_length) {
        Some(payload) => Ok(Outgoing::Raw(payload)),
        None => Err(BlueRdmaLogicError::Unreachable),
    }
}

/// What the card sends for a descriptor, to the descriptor's peer: RDMA packets,
/// or a plain packet where the queue pair is one for those.
pub fn send(desc: &ToCardWorkRbDesc) -> (r: Result<Outgoing, BlueRdmaLogicError>)
    requires
        total_length(elements(*desc)) <= u32::MAX,
    ensures
        if common_of(*desc).qp_type == QpType::RawPacket {
            match raw_error(*desc) {
                Some(e) => r == Err::<Outgoing, BlueRdmaLogicError>(e),
                None => {
                    let len = common_of(*desc).total_len;
                    &&& r matches Ok(Outgoing::Raw(payload))
                    &&& payload@ == slices(taken(elements(*desc), len as nat))
                    &&& payload.length() == len
                },
            }
        } else {
            &&& r matches Ok(Outgoing::Messages(out))
            &&& out@.map_values(|m: RdmaMessage| m@) == messages(*desc)
        },
{
    let is_raw: bool = get_to_card_desc_common(desc).qp_type == QpType::RawPacket;
    let (kind, sges): (Option<WriteKind>, Vec<DescSge>) = match desc {
        ToCardWorkRbDesc::Read(req) => (None, list_elements(req.sge, None, None, None)),
        ToCardWorkRbDesc::Write(req) => (
            Some(WriteKind { is_first: req.is_first, is_last: req.is_last, is_resp: false, imm: None }),
            list_elements(req.sge0, req.sge1, req.sge2, req.sge3),
        ),
        ToCardWorkRbDesc::ReadResp(req) => (
            Some(WriteKind { is_first: req.is_first, is_last: req.is_last, is_resp: true, imm: None }),
            list_elements(req.sge0, req.sge1, req.sge2, req.sge3),
        ),
        ToCardWorkRbDesc::WriteWithImm(req) => (
            Some(WriteKind { is_first: req.is_first, is_last: req.is_last, is_resp: false, imm: Some(req.imm) }),
            list_elements(req.sge0, req.sge1, req.sge2, req.sge3),
        ),
    };
    // if it's a raw packet, send it directly
    if is_raw {
        return raw_packet(desc, sges);
    }
    match kind {
        Some(kind) => Ok(Outgoing::Messages(write_messages(desc, kind, sges))),
        None => Ok(Outgoing::Messages(read_messages(desc, sges[0]))),
    }
}

/// The hardware queue pair context
#[derive(Debug, Clone, Copy, PartialEq, Eq, Structural)]
pub struct QueuePair {
    pub pmtu: Pmtu,
    pub qp_type: QpType,
    pub qp_access_flags: MemAccessTypeFlag,
    pub pdkey: u32,
}

/// The hardware memory region context
#[derive(Debug, Clone, Copy, PartialEq, Eq, Structural)]
pub struct MemoryRegion {
    pub key: Key,
    pub acc_flags: MemAccessTypeFlag,
    pub pdkey: u32,
    pub addr: u64,
    pub len: u32,
    pub pgt_offset: u32,
}

/// The simulating hardware logic of `BlueRDMA`
///
/// User use the `send` function to turn a `ToCardWorkRbDesc` into packets, and use the `update` method to update the hardware context.
/// And the received packets are parsed by `recv` into what is reported to the host.
#[derive(Debug)]
pub struct BlueRDMALogic {
    mr_rkey_table: HashMap<u32, MemoryRegion>,
    qp_table: HashMap<u32, QueuePair>,
}

/// What the card keeps
pub struct LogicView {
    /// The memory regions, by key
    pub mrs: Map<u32, MemoryRegion>,
    /// The queue pairs, by number
    pub qps: Map<u32, QueuePair>,
}

impl View for BlueRDMALogic {
    type V = LogicView;

    closed spec fn view(&self) -> LogicView {
        LogicView { mrs: self.mr_rkey_table@, qps: self.qp_table@ }
    }
}

/// The queue pair that a command is about.
pub open spec fn queue_pair_of(desc: ToCardCtrlRbDescQpManagement) -> QueuePair {
    QueuePair {
        pmtu: desc.pmtu,
        qp_type: desc.qp_type,
        qp_access_flags: desc.rq_acc_flags,
        pdkey: desc.pd_hdl,
    }
}

/// The memory region that a command is about.
pub open spec fn memory_region_of(desc: ToCardCtrlRbDescUpdateMrTable) -> MemoryRegion {
    MemoryRegion {
        key: desc.key,
        acc_flags: desc.acc_flags,
        pdkey: desc.pd_hdl,
        addr: desc.addr,
        len: desc.len,
        pgt_offset: desc.pgt_offset,
    }
}

/// The tables after a command. Queue pairs are set up or torn down, memory
/// regions are set; the other commands mean nothing to a card in software.
pub open spec fn updated(state: LogicView, desc: ToCardCtrlRbDesc) -> LogicView {
    match desc {
        ToCardCtrlRbDesc::QpManagement(desc) => LogicView {
            qps: if desc.is_valid {
                state.qps.insert(desc.qpn@, queue_pair_of(desc))
            } else {
                state.qps.remove(desc.qpn@)
            },
            ..state
        },
        ToCardCtrlRbDesc::UpdateMrTable(desc) => LogicView {
            mrs: state.mrs.insert(desc.key@, memory_region_of(desc)),
            ..state
        },
        _ => state,
    }
}

/// Whether a command succeeds: all do, but tearing down a queue pair that there
/// is not.
pub open spec fn update_succeeds(state: LogicView, desc: ToCardCtrlRbDesc) -> bool {
    desc matches ToCardCtrlRbDesc::QpManagement(desc) ==> desc.is_valid || state.qps.contains_key(desc.qpn@)
}

/// The kind of a command
pub fn to_host_ctrl_opcode(desc: &ToCardCtrlRbDesc) -> (r: CtrlRbDescOpcode)
    ensures
        r == desc.opcode_spec(),
{
    match desc {
        ToCardCtrlRbDesc::UpdateMrTable(_) => CtrlRbDescOpcode::UpdateMrTable,
        ToCardCtrlRbDesc::UpdatePageTable(_) => CtrlRbDescOpcode::UpdatePageTable,
        ToCardCtrlRbDesc::QpManagement(_) => CtrlRbDescOpcode::QpManagement,
        ToCardCtrlRbDesc::SetNetworkParam(_) => CtrlRbDescOpcode::SetNetworkParam,
        ToCardCtrlRbDesc::SetRawPacketReceiveMeta(_) => CtrlRbDescOpcode::SetRawPacketReceiveMeta,
        ToCardCtrlRbDesc::UpdateErrorPsnRecoverPoint(_) => CtrlRbDescOpcode::UpdateErrorPsnRecoverPoint,
    }
}

/// Whether a peer may touch the memory: the key has to be known, the access
/// allowed, and the memory inside the region.
pub open spec fn access_status(
    mrs: Map<u32, MemoryRegion>,
    rkey: u32,
    needed_permissions: u8,
    va: u64,
    length: u32,
) -> ToHostWorkRbDescStatus {
    if !mrs.contains_key(rkey) {
        ToHostWorkRbDescStatus::InvMrKey
    } else {
        let mr = mrs[rkey];
        if mr.acc_flags@ & needed_permissions != needed_permissions {
            ToHostWorkRbDescStatus::InvAccFlag
        } else if !(mr.addr <= va && va + length <= mr.addr + mr.len) {
            ToHostWorkRbDescStatus::InvMrRegion
        } else {
            ToHostWorkRbDescStatus::Normal
        }
    }
}

/// Memory that a peer may touch lies inside a memory region that allows it: no
/// address and no length reach past its end, nor around that of the address
/// space where the region does not.
pub proof fn law_access_stays_inside(
    mrs: Map<u32, MemoryRegion>,
    rkey: u32,
    needed_permissions: u8,
    va: u64,
    length: u32,
)
    requires
        access_status(mrs, rkey, needed_permissions, va, length) == ToHostWorkRbDescStatus::Normal,
    ensures
        mrs.contains_key(rkey),
        mrs[rkey].addr <= va,
        va + length <= mrs[rkey].addr + mrs[rkey].len,
        mrs[rkey].addr + mrs[rkey].len <= u64::MAX ==> va + length <= u64::MAX,
        mrs[rkey].acc_flags@ & needed_permissions == needed_permissions,
{
}

/// What the card does about a packet that it receives
#[derive(Debug, Clone, Copy, PartialEq, Eq, Structural)]
pub struct Received {
    /// Where the payload is to be copied, if anywhere
    pub copy_to: Option<u64>,
    /// What is reported to the host, if anything
    pub descriptor: Option<ToHostWorkRbDesc>,
}

/// The common fields of a report, before the packet was looked at closer.
pub open spec fn default_meta(meta: RdmaMessageMetaCommon, status: ToHostWorkRbDescStatus) -> ToHostWorkRbDescCommon {
    ToHostWorkRbDescCommon {
        status,
        trans: ToHostWorkRbDescTransType::Rc,
        dqpn: meta.dqpn,
        msn: Msn::of(meta.pkey),
        expected_psn: Psn::of(0),
    }
}

fn recv_default_meta(meta: &RdmaMessageMetaCommon, status: ToHostWorkRbDescStatus) -> (r: ToHostWorkRbDescCommon)
    ensures
        r == default_meta(*meta, status),
{
    ToHostWorkRbDescCommon {
        status,
        trans: ToHostWorkRbDescTransType::Rc,
        dqpn: meta.dqpn,
        msn: Msn::new(meta.pkey),
        expected_psn: Psn::new(0),
    }
}

/// What is reported of a packet that is not an acknowledgement. A read request
/// that does not say where the answer goes is not reported.
pub open spec fn report_general(header: RdmaGeneralMeta, status: ToHostWorkRbDescStatus) -> Option<ToHostWorkRbDesc> {
    let common = default_meta(header.common_meta, status);
    let opcode = header.common_meta.opcode;
    let write_type = match opcode.write_type_spec() {
        Some(write_type) => write_type,
        None => ToHostWorkRbDescWriteType::Only,
    };
    match opcode {
        ToHostWorkRbDescOpcode::RdmaWriteLastWithImmediate | ToHostWorkRbDescOpcode::RdmaWriteOnlyWithImmediate => Some(
            ToHostWorkRbDesc::WriteWithImm(
                ToHostWorkRbDescWriteWithImm {
                    common,
                    write_type,
                    psn: header.common_meta.psn,
                    imm: match header.imm {
                        Some(imm) => imm,
                        None => 0,
                    },
                    addr: header.reth.va,
                    len: header.reth.len,
                    key: header.reth.rkey,
                },
            ),
        ),
        ToHostWorkRbDescOpcode::RdmaReadRequest => match header.secondary_reth {
            Some(sec_reth) => Some(
                ToHostWorkRbDesc::Read(
                    ToHostWorkRbDescRead {
                        common,
                        len: header.reth.len,
                        laddr: header.reth.va,
                        lkey: header.reth.rkey,
                        raddr: sec_reth.va,
                        rkey: sec_reth.rkey,
                    },
                ),
            ),
            None => None,
        },
        _ => Some(
            ToHostWorkRbDesc::WriteOrReadResp(
                ToHostWorkRbDescWriteOrReadResp {
                    common,
                    is_read_resp: opcode.is_resp_spec(),
                    write_type,
                    psn: header.common_meta.psn,
                    addr: header.reth.va,
                    len: header.reth.len,
                    can_auto_ack: false,
                },
            ),
        ),
    }
}

/// What the card does about a packet.
pub open spec fn received(state: LogicView, meta: Metadata) -> Received {
    match meta {
        Metadata::General(header) => {
            let status = access_status(
                state.mrs,
                header.reth.rkey@,
                header.needed_permissions_spec(),
                header.reth.va,
                header.reth.len,
            );
            Received {
                copy_to: if status == ToHostWorkRbDescStatus::Normal && header.has_payload_spec() {
                    Some(header.reth.va)
                } else {
                    None
                },
                descriptor: report_general(header, status),
            }
        },
        Metadata::Acknowledge(header) => Received {
            copy_to: None,
            descriptor: Some(
                ToHostWorkRbDesc::Ack(
                    ToHostWorkRbDescAck {
                        common: default_meta(header.common_meta, ToHostWorkRbDescStatus::Normal),
                        msn: Msn::of((header.msn % 0x1_0000) as u16),
                        value: header.aeth_value,
                        psn: header.common_meta.psn,
                        code: ToHostWorkRbDescAethCode::Ack,
                        retry_psn: Psn::of(0),
                    },
                ),
            ),
        },
    }
}

impl BlueRDMALogic {
    /// A card without queue pairs and memory regions
    pub fn new() -> (r: Self)
        ensures
            r@ == (LogicView { mrs: Map::empty(), qps: Map::empty() }),
    {
        BlueRDMALogic { mr_rkey_table: HashMap::new(), qp_table: HashMap::new() }
    }

    /// The queue pair with the given number
    pub fn queue_pair(&self, qpn: Qpn) -> (r: Option<QueuePair>)
        ensures
            r == (if self@.qps.contains_key(qpn@) {
                Some(self@.qps[qpn@])
            } else {
                None
            }),
    {
        match self.qp_table.get(&qpn.get()) {
            Some(qp) => Some(*qp),
            None => None,
        }
    }

    /// The memory region with the given key
    pub fn memory_region(&self, key: Key) -> (r: Option<MemoryRegion>)
        ensures
            r == (if self@.mrs.contains_key(key@) {
                Some(self@.mrs[key@])
            } else {
                None
            }),
    {
        match self.mr_rkey_table.get(&key.get()) {
            Some(mr) => Some(*mr),
            None => None,
        }
    }

    /// Carries out a command, and answers it.
    pub fn update(&mut self, desc: ToCardCtrlRbDesc) -> (r: ToHostCtrlRbDesc)
        ensures
            final(self)@ == updated(old(self)@, desc),
            r.common == (ToHostCtrlRbDescCommon {
                op_id: desc.op_id_spec(),
                opcode: desc.opcode_spec(),
                is_success: update_succeeds(old(self)@, desc),
            }),
    {
        let opcode: CtrlRbDescOpcode = to_host_ctrl_opcode(&desc);
        let ghost state = self@;
        let (op_id, is_success): (u32, bool) = match desc {
            ToCardCtrlRbDesc::QpManagement(desc) => {
                let qpn: u32 = desc.qpn.get();
                let qp = QueuePair {
                    pmtu: desc.pmtu,
                    qp_type: desc.qp_type,
                    qp_access_flags: desc.rq_acc_flags,
                    pdkey: desc.pd_hdl,
                };
                let is_success: bool = if desc.is_valid {
                    // create
                    self.qp_table.insert(qpn, qp);
                    true
                } else {
                    // delete
                    self.qp_table.remove(&qpn).is_some()
                };
                (desc.common.op_id, is_success)
            },
            ToCardCtrlRbDesc::UpdateMrTable(desc) => {
                let mr = MemoryRegion {
                    key: desc.key,
                    acc_flags: desc.acc_flags,
                    pdkey: desc.pd_hdl,
                    addr: desc.addr,
                    len: desc.len,
                    pgt_offset: desc.pgt_offset,
                };
                self.mr_rkey_table.insert(desc.key.get(), mr);
                (desc.common.op_id, true)
            },
            // Userspace types use virtual address directly
            ToCardCtrlRbDesc::UpdatePageTable(desc) => (desc.common.op_id, true),
            ToCardCtrlRbDesc::SetNetworkParam(desc) => (desc.common.op_id, true),
            ToCardCtrlRbDesc::SetRawPacketReceiveMeta(desc) => (desc.common.op_id, true),
            ToCardCtrlRbDesc::UpdateErrorPsnRecoverPoint(desc) => (desc.common.op_id, true),
        };
        assert(self@.qps =~= updated(state, desc).qps);
        assert(self@.mrs =~= updated(state, desc).mrs);
        ToHostCtrlRbDesc { common: ToHostCtrlRbDescCommon { op_id, opcode, is_success } }
    }

    /// Validate the permission, va and length of corresponding memory region.
    ///
    /// The function will check the following things:
    /// * if the rkey is valid. If not, return `InvMrKey`
    /// * if the permission is valid. If not, return `InvAccFlag`
    /// * if the va and length are valid. If not, return `InvMrRegion`
    /// Otherwise, return `Normal`
    pub fn validate_rkey(
        &self,
        rkey: Key,
        needed_permissions: MemAccessTypeFlag,
        va: u64,
        length: u32,
    ) -> (r: ToHostWorkRbDescStatus)
        ensures
            r == access_status(self@.mrs, rkey@, needed_permissions@, va, length),
    {
        let mr: MemoryRegion = match self.mr_rkey_table.get(&rkey.get()) {
            Some(mr) => *mr,
            None => {
                return ToHostWorkRbDescStatus::InvMrKey;
            },
        };
        // check the permission.
        if !mr.acc_flags.contains(needed_permissions) {
            return ToHostWorkRbDescStatus::InvAccFlag;
        }
        // check if the va and length are valid.
        let end: u128 = va as u128 + length as u128;
        let region_end: u128 = mr.addr as u128 + mr.len as u128;
        if va < mr.addr || end > region_end {
            return ToHostWorkRbDescStatus::InvMrRegion;
        }
        ToHostWorkRbDescStatus::Normal
    }

    /// What to do about a packet that was received. An acknowledgement has to
    /// be one with the acknowledgement's own headers and to say that all is
    /// well.
    pub fn recv(&self, message: &RdmaMessage) -> (r: Received)
        requires
            message.meta_data matches Metadata::General(header) ==> header.common_meta.opcode
                != ToHostWorkRbDescOpcode::Acknowledge,
            message.meta_data matches Metadata::Acknowledge(header) ==> header.aeth_code
                == ToHostWorkRbDescAethCode::Ack,
        ensures
            r == received(self@, message.meta_data),
    {
        match &message.meta_data {
            Metadata::General(header) => {
                // validate the rkey
                let needed_permissions: MemAccessTypeFlag = header.needed_permissions();
                let va: u64 = header.reth.va;
                let len: u32 = header.reth.len;
                let status: ToHostWorkRbDescStatus = self.validate_rkey(header.reth.rkey, needed_permissions, va, len);
                let copy_to: Option<u64> = if status.is_ok() && header.has_payload() { Some(va) } else { None };
                // The default value will not be used since the `write_type` will only appear
                // in those write related opcodes.
                let opcode: ToHostWorkRbDescOpcode = header.common_meta.opcode;
                let write_type: ToHostWorkRbDescWriteType = match opcode.write_type() {
                    Some(write_type) => write_type,
                    None => ToHostWorkRbDescWriteType::Only,
                };
                let common: ToHostWorkRbDescCommon = recv_default_meta(&header.common_meta, status);
                let descriptor: Option<ToHostWorkRbDesc> = match opcode {
                    ToHostWorkRbDescOpcode::RdmaWriteLastWithImmediate
                    | ToHostWorkRbDescOpcode::RdmaWriteOnlyWithImmediate => Some(
                        ToHostWorkRbDesc::WriteWithImm(
                            ToHostWorkRbDescWriteWithImm {
                                common,
                                write_type,
                                psn: header.common_meta.psn,
                                imm: match header.imm {
                                    Some(imm) => imm,
                                    None => 0,
                                },
                                addr: va,
                                len,
                                key: header.reth.rkey,
                            },
                        ),
                    ),
                    ToHostWorkRbDescOpcode::RdmaReadRequest => match header.secondary_reth {
                        Some(sec_reth) => Some(
                            ToHostWorkRbDesc::Read(
                                ToHostWorkRbDescRead {
                                    common,
                                    len,
                                    laddr: va,
                                    lkey: header.reth.rkey,
                                    raddr: sec_reth.va,
                                    rkey: sec_reth.rkey,
                                },
                            ),
                        ),
                        None => None,
                    },
                    _ => Some(
                        ToHostWorkRbDesc::WriteOrReadResp(
                            ToHostWorkRbDescWriteOrReadResp {
                                common,
                                is_read_resp: opcode.is_resp(),
                                write_type,
                                psn: header.common_meta.psn,
                                addr: va,
                                len,
                                can_auto_ack: false,
                            },
                        ),
                    ),
                };
                Received { copy_to, descriptor }
            },
            Metadata::Acknowledge(header) => {
                let common: ToHostWorkRbDescCommon = recv_default_meta(
                    &header.common_meta,
                    ToHostWorkRbDescStatus::Normal,
                );
                // msn is u16 currently. So we can just truncate it.
                let msn: u16 = (header.msn % 0x1_0000) as u16;
                Received {
                    copy_to: None,
                    descriptor: Some(
                        ToHostWorkRbDesc::Ack(
                            ToHostWorkRbDescAck {
                                common,
                                msn: Msn::new(msn),
                                value: header.aeth_value,
                                psn: header.common_meta.psn,
                                code: ToHostWorkRbDescAethCode::Ack,
                                retry_psn: Psn::default(),
                            },
                        ),
                    ),
                }
            },
        }
    }
}

/// Whether the card of a peer lets bytes be written to the `len` bytes at `va`
/// under the key `rkey`.
pub open spec fn may_write(peer: LogicView, rkey: u32, va: u64, len: u32) -> bool {
    &&& peer.mrs.contains_key(rkey)
    &&& peer.mrs[rkey].acc_flags@ & 2u8 == 2u8
    &&& peer.mrs[rkey].addr <= va
    &&& va + len <= peer.mrs[rkey].addr + peer.mrs[rkey].len
}

/// What a card sends of a write, or of an answer to a read, is what its peer
/// reports: each packet goes to the memory that its descriptor names, where the
/// peer allows that, and the report has its message, its queue pair and its
/// packet number. The report of the first packet has the length of the whole
/// message, from which the peer knows how many packets there are. The last packet
/// of a write with an immediate number is not meant.
pub proof fn law_sent_is_reported(desc: ToCardWorkRbDesc, k: int, peer: LogicView)
    requires
        !(desc is Read),
        total_length(elements(desc)) <= u32::MAX,
        message_cnt(desc) > 1,
        0 <= k < messages(desc).len(),
        desc is WriteWithImm ==> k < messages(desc).len() - 1 || !desc->WriteWithImm_0.is_last,
    ensures
        ({
            let m = messages(desc)[k];
            let c = common_of(desc);
            let va = ((c.raddr + message_offset(desc, k)) % 0x1_0000_0000_0000_0000) as u64;
            let (is_first, is_last) = match desc {
                ToCardWorkRbDesc::Read(_) => (true, true),
                ToCardWorkRbDesc::Write(d) => (d.is_first, d.is_last),
                ToCardWorkRbDesc::ReadResp(d) => (d.is_first, d.is_last),
                ToCardWorkRbDesc::WriteWithImm(d) => (d.is_first, d.is_last),
            };
            &&& received(peer, m.meta_data).descriptor matches Some(ToHostWorkRbDesc::WriteOrReadResp(report))
            &&& report.addr == va
            &&& report.len == (if k == 0 && is_first {
                c.total_len
            } else {
                m.length
            })
            &&& k == 0 && is_first && c.total_len == total_length(elements(desc)) ==> packet_cnt(
                c.pmtu.size_spec() as int,
                report.addr as int,
                report.len as int,
            ) == messages(desc).len()
            &&& report.psn@ == add24(c.psn@ as int, k)
            &&& report.common.dqpn == c.dqpn
            &&& report.common.msn@ == c.msn@
            &&& report.is_read_resp == desc is ReadResp
            &&& !report.can_auto_ack
            &&& report.write_type == (if k == 0 && is_first {
                ToHostWorkRbDescWriteType::First
            } else if k == messages(desc).len() - 1 && is_last {
                ToHostWorkRbDescWriteType::Last
            } else {
                ToHostWorkRbDescWriteType::Middle
            })
            &&& report.common.status == ToHostWorkRbDescStatus::Normal <==> may_write(peer, c.rkey@, va, report.len)
            &&& received(peer, m.meta_data).copy_to == (if may_write(peer, c.rkey@, va, report.len) {
                Some(va)
            } else {
                None
            })
        }),
{
    broadcast use ThreeBytesStruct::lemma_of;
    broadcast use Msn::lemma_of;

    let kind = kind_of(desc)->0;
    assert(messages(desc)[k] == nth_message(desc, kind, k));
    lemma_message(desc, k);
    lemma_nth_message_fields(desc, kind, k);
    assert(common_of(desc).raddr as int % 0x1_0000_0000_0000_0000 == common_of(desc).raddr);
}

/// The immediate number of a write comes with its last packet, and is what the
/// peer reports.
pub proof fn law_immediate_is_reported(desc: ToCardWorkRbDesc, peer: LogicView)
    requires
        desc is WriteWithImm,
        desc->WriteWithImm_0.is_last,
        total_length(elements(desc)) <= u32::MAX,
        message_cnt(desc) > 1,
    ensures
        ({
            let c = common_of(desc);
            let k = message_cnt(desc) - 1;
            let m = messages(desc)[k];
            &&& received(peer, m.meta_data).descriptor matches Some(ToHostWorkRbDesc::WriteWithImm(report))
            &&& report.imm == desc->WriteWithImm_0.imm
            &&& report.addr == (c.raddr + message_offset(desc, k)) % 0x1_0000_0000_0000_0000
            &&& report.key == c.rkey
            &&& report.psn@ == add24(c.psn@ as int, k)
            &&& report.common.dqpn == c.dqpn
            &&& report.common.msn@ == c.msn@
            &&& report.write_type == ToHostWorkRbDescWriteType::Last
            &&& forall|j: int|
                0 <= j < k ==> received(
                    peer,
                    (#[trigger] messages(desc)[j]).meta_data,
                ).descriptor is Some && received(peer, messages(desc)[j].meta_data).descriptor->0 is WriteOrReadResp
        }),
{
    broadcast use ThreeBytesStruct::lemma_of;
    broadcast use Msn::lemma_of;

    let kind = kind_of(desc)->0;
    let k = message_cnt(desc) - 1;
    assert(messages(desc)[k] == nth_message(desc, kind, k));
    assert forall|j: int| 0 <= j < k implies received(
        peer,
        (#[trigger] messages(desc)[j]).meta_data,
    ).descriptor is Some && received(peer, messages(desc)[j].meta_data).descriptor->0 is WriteOrReadResp by {
        assert(messages(desc)[j] == nth_message(desc, kind, j));
    }
}

/// Data that fits into one packet is reported with its message and its packet
/// number, at the memory that its descriptor names. A descriptor that is both
/// the first and the last of its message gives a report of a whole message.
pub proof fn law_only_is_reported(desc: ToCardWorkRbDesc, peer: LogicView)
    requires
        desc is Write || desc is ReadResp,
        message_cnt(desc) == 1,
    ensures
        ({
            let m = messages(desc)[0];
            let c = common_of(desc);
            let kind = kind_of(desc)->0;
            &&& messages(desc).len() == 1
            &&& received(peer, m.meta_data).descriptor matches Some(ToHostWorkRbDesc::WriteOrReadResp(report))
            &&& report.addr == c.raddr
            &&& report.psn == c.psn
            &&& report.common.dqpn == c.dqpn
            &&& report.common.msn@ == c.msn@
            &&& report.is_read_resp == desc is ReadResp
            &&& !report.can_auto_ack
            &&& report.len == (if kind.is_first && !kind.is_last {
                c.total_len
            } else {
                0
            })
            &&& report.write_type == (if kind.is_first && kind.is_last {
                ToHostWorkRbDescWriteType::Only
            } else if kind.is_first {
                ToHostWorkRbDescWriteType::First
            } else if kind.is_last {
                ToHostWorkRbDescWriteType::Last
            } else {
                ToHostWorkRbDescWriteType::Middle
            })
            &&& report.common.status == ToHostWorkRbDescStatus::Normal <==> may_write(
                peer,
                c.rkey@,
                c.raddr,
                report.len,
            )
            &&& received(peer, m.meta_data).copy_to == (if may_write(peer, c.rkey@, c.raddr, report.len) {
                Some(c.raddr)
            } else {
                None
            })
        }),
{
    broadcast use Msn::lemma_of;

    assert(messages(desc)[0] == only_message(desc, kind_of(desc)->0));
}

/// The immediate number of a write that fits into one packet comes with it.
pub proof fn law_only_immediate_is_reported(desc: ToCardWorkRbDesc, peer: LogicView)
    requires
        desc is WriteWithImm,
        desc->WriteWithImm_0.is_last,
        message_cnt(desc) == 1,
    ensures
        ({
            let m = messages(desc)[0];
            let c = common_of(desc);
            &&& messages(desc).len() == 1
            &&& received(peer, m.meta_data).descriptor matches Some(ToHostWorkRbDesc::WriteWithImm(report))
            &&& report.imm == desc->WriteWithImm_0.imm
            &&& report.addr == c.raddr
            &&& report.key == c.rkey
            &&& report.psn == c.psn
            &&& report.common.dqpn == c.dqpn
            &&& report.common.msn@ == c.msn@
            &&& report.write_type == (if desc->WriteWithImm_0.is_first {
                ToHostWorkRbDescWriteType::Only
            } else {
                ToHostWorkRbDescWriteType::Last
            })
        }),
{
    broadcast use Msn::lemma_of;

    assert(messages(desc)[0] == only_message(desc, kind_of(desc)->0));
}

/// A read request is reported with both memories: the one that is read, with its
/// length, and the one that the answer goes to. It copies nothing.
pub proof fn law_read_is_reported(desc: ToCardWorkRbDesc, peer: LogicView)
    requires
        desc is Read,
    ensures
        ({
            let m = messages(desc)[0];
            let c = common_of(desc);
            let sge = desc->Read_0.sge;
            &&& messages(desc).len() == 1
            &&& received(peer, m.meta_data).descriptor matches Some(ToHostWorkRbDesc::Read(report))
            &&& report.len == c.total_len
            &&& report.laddr == c.raddr
            &&& report.lkey == c.rkey
            &&& report.raddr == sge.addr
            &&& report.rkey == sge.key
            &&& report.common.dqpn == c.dqpn
            &&& report.common.msn@ == c.msn@
            &&& received(peer, m.meta_data).copy_to is None
            &&& report.common.status == ToHostWorkRbDescStatus::Normal <==> peer.mrs.contains_key(c.rkey@)
                && peer.mrs[c.rkey@].acc_flags@ & 4u8 == 4u8 && peer.mrs[c.rkey@].addr <= c.raddr && c.raddr
                + c.total_len <= peer.mrs[c.rkey@].addr + peer.mrs[c.rkey@].len
            &&& m.payload.len() == 0 && m.length == 0
        }),
{
    broadcast use Msn::lemma_of;

    assert(messages(desc)[0] == read_message(desc));
}

/// How many bytes the packets before packet `k` bring.
pub open spec fn sent_before(all: Seq<MessageView>, k: nat) -> int
    decreases k,
{
    if k == 0 {
        0
    } else {
        sent_before(all, (k - 1) as nat) + all[k - 1].length
    }
}

proof fn lemma_sent_before(desc: ToCardWorkRbDesc, k: nat)
    requires
        total_length(elements(desc)) <= u32::MAX,
        !(desc is Read),
        k <= messages(desc).len(),
    ensures
        sent_before(messages(desc), k) == (if k == messages(desc).len() {
            total_length(elements(desc)) as int
        } else {
            message_offset(desc, k as int)
        }),
    decreases k,
{
    let kind = kind_of(desc)->0;
    if k > 0 {
        lemma_sent_before(desc, (k - 1) as nat);
        if message_cnt(desc) > 1 {
            assert(messages(desc)[k - 1] == nth_message(desc, kind, k - 1));
            lemma_message(desc, k - 1);
            lemma_nth_message_fields(desc, kind, k - 1);
        } else {
            assert(messages(desc)[0] == only_message(desc, kind));
        }
    }
}

/// Sending moves every byte once, in order: byte `i` of packet `k`, which is byte
/// `j` of the descriptor, comes from where byte `j` of its elements lies, and goes
/// `j` bytes behind the remote address, under the remote key. Together the packets
/// bring all the bytes.
pub proof fn law_every_byte_is_sent(desc: ToCardWorkRbDesc, k: nat, i: nat)
    requires
        total_length(elements(desc)) <= u32::MAX,
        !(desc is Read),
        k < messages(desc).len(),
        i < messages(desc)[k as int].length,
    ensures
        ({
            let all = messages(desc);
            let m = all[k as int];
            let c = common_of(desc);
            let j = sent_before(all, k) + i;
            let meta = m.meta_data->General_0;
            &&& m.meta_data is General
            &&& 0 <= j < total_length(elements(desc))
            &&& address_in(m.payload, i) == byte_at(elements(desc), j as nat).0
            &&& (meta.reth.va + i) % 0x1_0000_0000_0000_0000 == (c.raddr + j) % 0x1_0000_0000_0000_0000
            &&& meta.reth.rkey == c.rkey
            &&& meta.common_meta.dqpn == c.dqpn
            &&& meta.common_meta.pkey == c.msn@
            &&& c.psn@ <= 0xff_ffff ==> meta.common_meta.psn@ == add24(c.psn@ as int, k as int)
            &&& sent_before(all, all.len()) == total_length(elements(desc))
        }),
{
    let kind = kind_of(desc)->0;
    let all = messages(desc);
    let m = all[k as int];
    let c = common_of(desc);
    lemma_sent_before(desc, k);
    lemma_sent_before(desc, all.len());
    if message_cnt(desc) > 1 {
        assert(m == nth_message(desc, kind, k as int));
        lemma_message(desc, k as int);
        lemma_nth_message_fields(desc, kind, k as int);
        law_messages_bring_bytes(desc, k, i);
        law_slices_keep_bytes(taken(elements_before(desc, k), m.length as nat), i);
        lemma_wrap(c.raddr + message_offset(desc, k as int), i as int);
    } else {
        assert(m == only_message(desc, kind));
        law_slices_keep_bytes(elements(desc), i);
    }
}

/// The packets of a descriptor say over which transport they go, and neither ask
/// for an acknowledgement nor for attention.
pub proof fn law_packets_name_the_transport(desc: ToCardWorkRbDesc, k: int)
    requires
        0 <= k < messages(desc).len(),
    ensures
        ({
            let meta = messages(desc)[k].meta_data->General_0.common_meta;
            &&& messages(desc)[k].meta_data is General
            &&& !meta.solicited && !meta.ack_req
            &&& match common_of(desc).qp_type {
                QpType::Rc => meta.tran_type is Rc,
                QpType::Uc => meta.tran_type is Uc,
                QpType::Ud => meta.tran_type is Ud,
                QpType::XrcSend => meta.tran_type is Xrc,
                QpType::XrcRecv => meta.tran_type is Xrc,
                QpType::RawPacket => meta.tran_type is DtldExtended,
            }
        }),
{
    if desc is Read {
        assert(messages(desc)[k] == read_message(desc));
    } else if message_cnt(desc) == 1 {
        assert(messages(desc)[k] == only_message(desc, kind_of(desc)->0));
    } else {
        assert(messages(desc)[k] == nth_message(desc, kind_of(desc)->0, k));
    }
}

/// What the commands to a card mean to it: a queue pair that was set up is known
/// with what the command says, memory that was registered can be reached with its
/// key, and what the command is not about stays. A queue pair that was torn down
/// is not known any more.
pub proof fn law_commands_are_kept(
    state: LogicView,
    qp: ToCardCtrlRbDescQpManagement,
    mr: ToCardCtrlRbDescUpdateMrTable,
    other: u32,
)
    ensures
        ({
            let with_qp = updated(state, ToCardCtrlRbDesc::QpManagement(qp));
            &&& qp.is_valid ==> with_qp.qps.contains_key(qp.qpn@) && with_qp.qps[qp.qpn@].pmtu == qp.pmtu
                && with_qp.qps[qp.qpn@].qp_type == qp.qp_type && with_qp.qps[qp.qpn@].qp_access_flags
                == qp.rq_acc_flags && with_qp.qps[qp.qpn@].pdkey == qp.pd_hdl
            &&& !qp.is_valid ==> !with_qp.qps.contains_key(qp.qpn@)
            &&& other != qp.qpn@ ==> (with_qp.qps.contains_key(other) <==> state.qps.contains_key(other))
                && with_qp.qps[other] == state.qps[other]
            &&& with_qp.mrs == state.mrs
            &&& update_succeeds(state, ToCardCtrlRbDesc::QpManagement(qp)) <==> qp.is_valid || state.qps.contains_key(
                qp.qpn@,
            )
        }),
        ({
            let with_mr = updated(state, ToCardCtrlRbDesc::UpdateMrTable(mr));
            &&& with_mr.qps == state.qps
            &&& other != mr.key@ ==> (with_mr.mrs.contains_key(other) <==> state.mrs.contains_key(other))
                && with_mr.mrs[other] == state.mrs[other]
            &&& update_succeeds(state, ToCardCtrlRbDesc::UpdateMrTable(mr))
            &&& forall|va: u64, len: u32| #[trigger]
                may_write(with_mr, mr.key@, va, len) <==> mr.acc_flags@ & 2u8 == 2u8 && mr.addr <= va && va + len
                    <= mr.addr + mr.len
        }),
{
}

/// The bytes of a descriptor are those of its elements, one element after the
/// other.
pub proof fn law_elements_follow(
    e0: DescSge,
    e1: Option<DescSge>,
    e2: Option<DescSge>,
    e3: Option<DescSge>,
    desc: ToCardWorkRbDesc,
    j: nat,
)
    requires
        match desc {
            ToCardWorkRbDesc::Read(_) => false,
            ToCardWorkRbDesc::Write(d) => d.sge0 == e0 && d.sge1 == e1 && d.sge2 == e2 && d.sge3 == e3,
            ToCardWorkRbDesc::ReadResp(d) => d.sge0 == e0 && d.sge1 == e1 && d.sge2 == e2 && d.sge3 == e3,
            ToCardWorkRbDesc::WriteWithImm(d) => d.sge0 == e0 && d.sge1 == e1 && d.sge2 == e2 && d.sge3 == e3,
        },
    ensures
        ({
            let l0 = e0.len as int;
            let l1 = l0 + length_of(e1);
            let l2 = l1 + length_of(e2);
            let l3 = l2 + length_of(e3);
            &&& total_length(elements(desc)) == l3
            &&& j < l0 ==> byte_at(elements(desc), j) == ((e0.addr + j) % 0x1_0000_0000_0000_0000, e0.key)
            &&& l0 <= j < l1 ==> byte_at(elements(desc), j) == (
                (e1->0.addr + (j - l0)) % 0x1_0000_0000_0000_0000,
                e1->0.key,
            )
            &&& l1 <= j < l2 ==> byte_at(elements(desc), j) == (
                (e2->0.addr + (j - l1)) % 0x1_0000_0000_0000_0000,
                e2->0.key,
            )
            &&& l2 <= j < l3 ==> byte_at(elements(desc), j) == (
                (e3->0.addr + (j - l2)) % 0x1_0000_0000_0000_0000,
                e3->0.key,
            )
        }),
{
    let s3 = of_option(e3);
    let s2 = of_option(e2) + s3;
    let s1 = of_option(e1) + s2;
    let s0 = seq![e0] + s1;
    assert(elements(desc) =~= s0);
    assert(total_length(Seq::<DescSge>::empty()) == 0);
    lemma_front(e3, Seq::empty(), (j - e0.len - length_of(e1) - length_of(e2)));
    assert(s3 + Seq::<DescSge>::empty() =~= s3);
    lemma_front(e2, s3, j - e0.len - length_of(e1));
    lemma_front(e1, s2, j - e0.len);
    lemma_front(Some(e0), s1, j as int);
}

/// How many bytes an element has, if there is one.
pub open spec fn length_of(e: Option<DescSge>) -> int {
    match e {
        Some(e) => e.len as int,
        None => 0,
    }
}

spec fn of_option(e: Option<DescSge>) -> Seq<DescSge> {
    match e {
        Some(e) => seq![e],
        None => Seq::empty(),
    }
}

proof fn lemma_front(e: Option<DescSge>, rest: Seq<DescSge>, j: int)
    ensures
        total_length(of_option(e) + rest) == length_of(e) + total_length(rest),
        0 <= j < length_of(e) ==> byte_at(of_option(e) + rest, j as nat) == (
            (e->0.addr + j) % 0x1_0000_0000_0000_0000,
            e->0.key,
        ),
        length_of(e) <= j ==> byte_at(of_option(e) + rest, j as nat) == byte_at(rest, (j - length_of(e)) as nat),
{
    let s = of_option(e) + rest;
    if e is Some {
        assert(s.drop_first() =~= rest);
        assert(s[0] == e->0);
    } else {
        assert(s =~= rest);
    }
}

/// An acknowledgement that arrives is reported with its packet number, the number
/// of its message and the queue pair it is for, and brings no bytes.
pub proof fn law_acknowledgement_is_reported(state: LogicView, header: RdmaAckMeta)
    ensures
        ({
            let r = received(state, Metadata::Acknowledge(header));
            &&& r.copy_to is None
            &&& r.descriptor matches Some(ToHostWorkRbDesc::Ack(d))
            &&& d.msn@ == header.msn % 0x1_0000
            &&& d.psn == header.common_meta.psn
            &&& d.value == header.aeth_value
            &&& d.code == ToHostWorkRbDescAethCode::Ack
            &&& d.common.dqpn == header.common_meta.dqpn
            &&& d.common.msn@ == header.common_meta.pkey
            &&& d.common.status == ToHostWorkRbDescStatus::Normal
        }),
{
    broadcast use Msn::lemma_of;
}

/// A packet that the card refuses is reported with the cause: its key is not known,
/// or its region does not allow the access, or the bytes do not lie in it.
pub proof fn law_refusal_names_the_cause(mrs: Map<u32, MemoryRegion>, rkey: u32, needed: u8, va: u64, length: u32)
    ensures
        ({
            let status = access_status(mrs, rkey, needed, va, length);
            let mr = mrs[rkey];
            let known = mrs.contains_key(rkey);
            let allowed = mr.acc_flags@ & needed == needed;
            let inside = mr.addr <= va && va + length <= mr.addr + mr.len;
            &&& status == ToHostWorkRbDescStatus::InvMrKey <==> !known
            &&& status == ToHostWorkRbDescStatus::InvAccFlag <==> known && !allowed
            &&& status == ToHostWorkRbDescStatus::InvMrRegion <==> known && allowed && !inside
            &&& status == ToHostWorkRbDescStatus::Normal <==> known && allowed && inside
        }),
{
}

} // verus!
