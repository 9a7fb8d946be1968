//! Descriptors of the command queues.

use vstd::prelude::*;
use crate::bits::{get_bits, write_fields, Field};
#[allow(unused_imports)]
use crate::bits::{field, lemma_written_at, written};
use crate::device::error::{DescField, DeviceError};
use crate::device::work::{flag_value, DESC_SIZE};
#[allow(unused_imports)]
use crate::device::work::{addr_value, flag, ipv4_number, lemma_ipv4_number, lemma_mac_number, mac_number};
use crate::types::{Ipv4Addr, Key, MacAddress, MemAccessTypeFlag, Pmtu, Psn, QpType, Qpn};
use crate::utils::u8_slice_to_u64;
use vstd::arithmetic::power2::lemma2_to64;

verus! {

/// Common header of a command
#[derive(Debug, Clone, Copy, PartialEq, Eq, Structural)]
pub struct ToCardCtrlRbDescCommon {
    /// The operation id
    pub op_id: u32,
}

impl Default for ToCardCtrlRbDescCommon {
    fn default() -> (r: Self)
        ensures
            r.op_id == 0,
    {
        Self { op_id: 0 }
    }
}

/// Update memory region table
#[derive(Debug, Clone, Copy)]
pub struct ToCardCtrlRbDescUpdateMrTable {
    pub common: ToCardCtrlRbDescCommon,
    /// The base virtual address of the memory region
    pub addr: u64,
    /// The length of the memory region
    pub len: u32,
    /// The lkey of the memory region
    pub key: Key,
    /// The pd handler of the memory region
    pub pd_hdl: u32,
    /// The access flags of the memory region
    pub acc_flags: MemAccessTypeFlag,
    /// The offset of in the page table
    pub pgt_offset: u32,
}

/// Update page table
#[derive(Debug, Clone, Copy)]
pub struct ToCardCtrlRbDescUpdatePageTable {
    pub common: ToCardCtrlRbDescCommon,
    /// The start address of the page table
    pub start_addr: u64,
    /// The index of the page table
    pub pgt_idx: u32,
    /// The count of page table entries
    pub pgte_cnt: u32,
}

/// QP management
#[derive(Debug, Clone, Copy)]
pub struct ToCardCtrlRbDescQpManagement {
    pub common: ToCardCtrlRbDescCommon,
    /// is this qp valid
    pub is_valid: bool,
    /// The QP number
    pub qpn: Qpn,
    /// The PD handle
    pub pd_hdl: u32,
    /// The type of the QP
    pub qp_type: QpType,
    /// The access flags of the receive queue
    pub rq_acc_flags: MemAccessTypeFlag,
    /// The pmtu of the QP
    pub pmtu: Pmtu,
    /// The peer QP number
    pub peer_qpn: Qpn,
}

/// Set network param
#[derive(Debug, Clone, Copy)]
pub struct ToCardCtrlRbDescSetNetworkParam {
    pub common: ToCardCtrlRbDescCommon,
    /// The gateway of the network
    pub gateway: Ipv4Addr,
    /// The netmask of the network
    pub netmask: Ipv4Addr,
    /// The ip address of the network
    pub ipaddr: Ipv4Addr,
    /// The mac address of the network
    pub macaddr: MacAddress,
}

/// Set raw packet receive meta
#[derive(Debug, Clone, Copy)]
pub struct ToCardCtrlRbDescSetRawPacketReceiveMeta {
    pub common: ToCardCtrlRbDescCommon,
    /// The base write address of the raw packet receive meta
    pub base_write_addr: u64,
    /// The key of the memory region
    pub key: Key,
}

/// Update error psn recover point
#[derive(Debug, Clone, Copy)]
pub struct ToCardCtrlRbDescUpdateErrPsnRecoverPoint {
    pub common: ToCardCtrlRbDescCommon,
    /// The QP number
    pub qpn: Qpn,
    /// The PSN to recover this qp
    pub recover_psn: Psn,
}

/// A command for the card
#[derive(Debug, Clone, Copy)]
pub enum ToCardCtrlRbDesc {
    /// Update memory region table
    UpdateMrTable(ToCardCtrlRbDescUpdateMrTable),
    /// Update page table
    UpdatePageTable(ToCardCtrlRbDescUpdatePageTable),
    /// QP management
    QpManagement(ToCardCtrlRbDescQpManagement),
    /// Set network param
    SetNetworkParam(ToCardCtrlRbDescSetNetworkParam),
    /// Set raw packet receive meta
    SetRawPacketReceiveMeta(ToCardCtrlRbDescSetRawPacketReceiveMeta),
    /// Update error psn recover point
    UpdateErrorPsnRecoverPoint(ToCardCtrlRbDescUpdateErrPsnRecoverPoint),
}

/// The kinds of commands
#[derive(Debug, Clone, Copy, PartialEq, Eq, Structural)]
pub enum CtrlRbDescOpcode {
    UpdateMrTable,
    UpdatePageTable,
    QpManagement,
    SetNetworkParam,
    SetRawPacketReceiveMeta,
    UpdateErrorPsnRecoverPoint,
}

impl CtrlRbDescOpcode {
    /// The number by which the card knows the kind
    pub open spec fn code_spec(self) -> u8 {
        match self {
            CtrlRbDescOpcode::UpdateMrTable => 0,
            CtrlRbDescOpcode::UpdatePageTable => 1,
            CtrlRbDescOpcode::QpManagement => 2,
            CtrlRbDescOpcode::SetNetworkParam => 3,
            CtrlRbDescOpcode::SetRawPacketReceiveMeta => 4,
            CtrlRbDescOpcode::UpdateErrorPsnRecoverPoint => 5,
        }
    }

    /// The number by which the card knows the kind
    pub fn code(self) -> (r: u8)
        ensures
            r == self.code_spec(),
    {
        match self {
            CtrlRbDescOpcode::UpdateMrTable => 0,
            CtrlRbDescOpcode::UpdatePageTable => 1,
            CtrlRbDescOpcode::QpManagement => 2,
            CtrlRbDescOpcode::SetNetworkParam => 3,
            CtrlRbDescOpcode::SetRawPacketReceiveMeta => 4,
            CtrlRbDescOpcode::UpdateErrorPsnRecoverPoint => 5,
        }
    }

    /// The kind that has the given number
    pub open spec fn of_code(code: u8) -> Option<Self> {
        match code {
            0 => Some(CtrlRbDescOpcode::UpdateMrTable),
            1 => Some(CtrlRbDescOpcode::UpdatePageTable),
            2 => Some(CtrlRbDescOpcode::QpManagement),
            3 => Some(CtrlRbDescOpcode::SetNetworkParam),
            4 => Some(CtrlRbDescOpcode::SetRawPacketReceiveMeta),
            5 => Some(CtrlRbDescOpcode::UpdateErrorPsnRecoverPoint),
            _ => None,
        }
    }

    /// The kind that has the given number
    pub fn try_from_code(code: u8) -> (r: Option<Self>)
        ensures
            r == Self::of_code(code),
    {
        match code {
            0 => Some(CtrlRbDescOpcode::UpdateMrTable),
            1 => Some(CtrlRbDescOpcode::UpdatePageTable),
            2 => Some(CtrlRbDescOpcode::QpManagement),
            3 => Some(CtrlRbDescOpcode::SetNetworkParam),
            4 => Some(CtrlRbDescOpcode::SetRawPacketReceiveMeta),
            5 => Some(CtrlRbDescOpcode::UpdateErrorPsnRecoverPoint),
            _ => None,
        }
    }
}

/// The layout of the header of a command.
pub open spec fn ctrl_header_layout(opcode: CtrlRbDescOpcode, op_id: u32) -> Seq<Field> {
    seq![
        (Field { lo: 0, width: 1, value: 1 }),
        (Field { lo: 1, width: 1, value: 0 }),
        (Field { lo: 2, width: 6, value: opcode.code_spec() as u64 }),
        (Field { lo: 8, width: 4, value: 0 }),
        (Field { lo: 12, width: 20, value: 0 }),
        (Field { lo: 32, width: 32, value: op_id as u64 }),
    ]
}

/// The layout of what follows the header.
pub open spec fn ctrl_body_layout(desc: ToCardCtrlRbDesc) -> Seq<Field> {
    match desc {
        ToCardCtrlRbDesc::UpdateMrTable(d) => seq![
            (Field { lo: 64, width: 64, value: d.addr }),
            (Field { lo: 128, width: 32, value: d.len as u64 }),
            (Field { lo: 160, width: 32, value: d.key@ as u64 }),
            (Field { lo: 192, width: 32, value: d.pd_hdl as u64 }),
            (Field { lo: 224, width: 8, value: d.acc_flags@ as u64 }),
            (Field { lo: 232, width: 17, value: d.pgt_offset as u64 }),
        ],
        ToCardCtrlRbDesc::UpdatePageTable(d) => seq![
            (Field { lo: 64, width: 64, value: d.start_addr }),
            (Field { lo: 128, width: 32, value: d.pgt_idx as u64 }),
            (Field { lo: 160, width: 32, value: (d.pgte_cnt * 8) as u64 }),
        ],
        ToCardCtrlRbDesc::QpManagement(d) => seq![
            (Field { lo: 64, width: 1, value: flag(d.is_valid) }),
            (Field { lo: 65, width: 1, value: 0 }),
            (Field { lo: 72, width: 24, value: d.qpn@ as u64 }),
            (Field { lo: 96, width: 32, value: d.pd_hdl as u64 }),
            (Field { lo: 128, width: 4, value: d.qp_type.code_spec() as u64 }),
            (Field { lo: 136, width: 8, value: d.rq_acc_flags@ as u64 }),
            (Field { lo: 144, width: 3, value: d.pmtu.code_spec() as u64 }),
            (Field { lo: 152, width: 24, value: d.peer_qpn@ as u64 }),
        ],
        ToCardCtrlRbDesc::SetNetworkParam(d) => seq![
            (Field { lo: 64, width: 32, value: addr_value(d.gateway.octets@) }),
            (Field { lo: 96, width: 32, value: addr_value(d.netmask.octets@) }),
            (Field { lo: 128, width: 32, value: addr_value(d.ipaddr.octets@) }),
            (Field { lo: 192, width: 48, value: addr_value(d.macaddr.octets@) }),
        ],
        ToCardCtrlRbDesc::SetRawPacketReceiveMeta(d) => seq![
            (Field { lo: 64, width: 64, value: d.base_write_addr }),
            (Field { lo: 128, width: 32, value: d.key@ as u64 }),
        ],
        ToCardCtrlRbDesc::UpdateErrorPsnRecoverPoint(d) => seq![
            (Field { lo: 64, width: 24, value: d.recover_psn@ as u64 }),
            (Field { lo: 96, width: 24, value: d.qpn@ as u64 }),
        ],
    }
}

fn write_common_header(dst: &mut [u8], opcode: CtrlRbDescOpcode, op_id: u32)
    requires
        old(dst)@.len() >= DESC_SIZE,
    ensures
        written(old(dst)@, final(dst)@, ctrl_header_layout(opcode, op_id)),
{
    let fields: [Field; 6] = [
        Field { lo: 0, width: 1, value: 1 },
        Field { lo: 1, width: 1, value: 0 },
        Field { lo: 2, width: 6, value: opcode.code() as u64 },
        Field { lo: 8, width: 4, value: 0 },
        Field { lo: 12, width: 20, value: 0 },
        Field { lo: 32, width: 32, value: op_id as u64 },
    ];
    proof {
        assert(fields@ =~= ctrl_header_layout(opcode, op_id));
    }
    write_fields(dst, fields.as_slice());
}

fn write_update_mr_table(dst: &mut [u8], desc: &ToCardCtrlRbDescUpdateMrTable)
    requires
        old(dst)@.len() >= DESC_SIZE,
    ensures
        written(old(dst)@, final(dst)@, ctrl_body_layout(ToCardCtrlRbDesc::UpdateMrTable(*desc))),
{
    let fields: [Field; 6] = [
        Field { lo: 64, width: 64, value: desc.addr },
        Field { lo: 128, width: 32, value: desc.len as u64 },
        Field { lo: 160, width: 32, value: desc.key.get() as u64 },
        Field { lo: 192, width: 32, value: desc.pd_hdl as u64 },
        Field { lo: 224, width: 8, value: desc.acc_flags.bits() as u64 },
        Field { lo: 232, width: 17, value: desc.pgt_offset as u64 },
    ];
    proof {
        assert(fields@ =~= ctrl_body_layout(ToCardCtrlRbDesc::UpdateMrTable(*desc)));
    }
    write_fields(dst, fields.as_slice());
}

fn write_update_page_table(dst: &mut [u8], desc: &ToCardCtrlRbDescUpdatePageTable)
    requires
        old(dst)@.len() >= DESC_SIZE,
        desc.pgte_cnt * 8 <= u32::MAX,
    ensures
        written(old(dst)@, final(dst)@, ctrl_body_layout(ToCardCtrlRbDesc::UpdatePageTable(*desc))),
{
    let fields: [Field; 3] = [
        Field { lo: 64, width: 64, value: desc.start_addr },
        Field { lo: 128, width: 32, value: desc.pgt_idx as u64 },
        Field { lo: 160, width: 32, value: (desc.pgte_cnt * 8) as u64 },
    ];
    proof {
        assert(fields@ =~= ctrl_body_layout(ToCardCtrlRbDesc::UpdatePageTable(*desc)));
    }
    write_fields(dst, fields.as_slice());
}

fn write_qp_management(dst: &mut [u8], desc: &ToCardCtrlRbDescQpManagement)
    requires
        old(dst)@.len() >= DESC_SIZE,
    ensures
        written(old(dst)@, final(dst)@, ctrl_body_layout(ToCardCtrlRbDesc::QpManagement(*desc))),
{
    let fields: [Field; 8] = [
        Field { lo: 64, width: 1, value: flag_value(desc.is_valid) },
        Field { lo: 65, width: 1, value: 0 },
        Field { lo: 72, width: 24, value: desc.qpn.get() as u64 },
        Field { lo: 96, width: 32, value: desc.pd_hdl as u64 },
        Field { lo: 128, width: 4, value: desc.qp_type.code() as u64 },
        Field { lo: 136, width: 8, value: desc.rq_acc_flags.bits() as u64 },
        Field { lo: 144, width: 3, value: desc.pmtu.code() as u64 },
        Field { lo: 152, width: 24, value: desc.peer_qpn.get() as u64 },
    ];
    proof {
        assert(fields@ =~= ctrl_body_layout(ToCardCtrlRbDesc::QpManagement(*desc)));
    }
    write_fields(dst, fields.as_slice());
}

fn write_set_network_param(dst: &mut [u8], desc: &ToCardCtrlRbDescSetNetworkParam)
    requires
        old(dst)@.len() >= DESC_SIZE,
    ensures
        written(old(dst)@, final(dst)@, ctrl_body_layout(ToCardCtrlRbDesc::SetNetworkParam(*desc))),
{
    let fields: [Field; 4] = [
        Field { lo: 64, width: 32, value: u8_slice_to_u64(desc.gateway.octets.as_slice()) },
        Field { lo: 96, width: 32, value: u8_slice_to_u64(desc.netmask.octets.as_slice()) },
        Field { lo: 128, width: 32, value: u8_slice_to_u64(desc.ipaddr.octets.as_slice()) },
        Field { lo: 192, width: 48, value: u8_slice_to_u64(desc.macaddr.octets.as_slice()) },
    ];
    proof {
        assert(fields@ =~= ctrl_body_layout(ToCardCtrlRbDesc::SetNetworkParam(*desc)));
    }
    write_fields(dst, fields.as_slice());
}

fn write_set_raw_packet_receive_meta(dst: &mut [u8], desc: &ToCardCtrlRbDescSetRawPacketReceiveMeta)
    requires
        old(dst)@.len() >= DESC_SIZE,
    ensures
        written(old(dst)@, final(dst)@, ctrl_body_layout(ToCardCtrlRbDesc::SetRawPacketReceiveMeta(*desc))),
{
    let fields: [Field; 2] = [
        Field { lo: 64, width: 64, value: desc.base_write_addr },
        Field { lo: 128, width: 32, value: desc.key.get() as u64 },
    ];
    proof {
        assert(fields@ =~= ctrl_body_layout(ToCardCtrlRbDesc::SetRawPacketReceiveMeta(*desc)));
    }
    write_fields(dst, fields.as_slice());
}

fn write_update_err_psn_recover_point(dst: &mut [u8], desc: &ToCardCtrlRbDescUpdateErrPsnRecoverPoint)
    requires
        old(dst)@.len() >= DESC_SIZE,
    ensures
        written(old(dst)@, final(dst)@, ctrl_body_layout(ToCardCtrlRbDesc::UpdateErrorPsnRecoverPoint(*desc))),
{
    let fields: [Field; 2] = [
        Field { lo: 64, width: 24, value: desc.recover_psn.get() as u64 },
        Field { lo: 96, width: 24, value: desc.qpn.get() as u64 },
    ];
    proof {
        assert(fields@ =~= ctrl_body_layout(ToCardCtrlRbDesc::UpdateErrorPsnRecoverPoint(*desc)));
    }
    write_fields(dst, fields.as_slice());
}

/// The header, and what follows it, together.
proof fn lemma_header_and_body(a: Seq<u8>, b: Seq<u8>, c: Seq<u8>, desc: ToCardCtrlRbDesc)
    requires
        a.len() >= DESC_SIZE,
        written(a, b, ctrl_header_layout(desc.opcode_spec(), desc.op_id_spec())),
        written(b, c, ctrl_body_layout(desc)),
    ensures
        written(a, c, desc.layout()),
{
    crate::bits::lemma_written_both(a, b, c, ctrl_header_layout(desc.opcode_spec(), desc.op_id_spec()), ctrl_body_layout(desc), 64);
}

impl ToCardCtrlRbDesc {
    /// The kind of the command
    pub open spec fn opcode_spec(self) -> CtrlRbDescOpcode {
        match self {
            ToCardCtrlRbDesc::UpdateMrTable(_) => CtrlRbDescOpcode::UpdateMrTable,
            ToCardCtrlRbDesc::UpdatePageTable(_) => CtrlRbDescOpcode::UpdatePageTable,
            ToCardCtrlRbDesc::QpManagement(_) => CtrlRbDescOpcode::QpManagement,
            ToCardCtrlRbDesc::SetNetworkParam(_) => CtrlRbDescOpcode::SetNetworkParam,
            ToCardCtrlRbDesc::SetRawPacketReceiveMeta(_) => CtrlRbDescOpcode::SetRawPacketReceiveMeta,
            ToCardCtrlRbDesc::UpdateErrorPsnRecoverPoint(_) => CtrlRbDescOpcode::UpdateErrorPsnRecoverPoint,
        }
    }

    /// The operation id
    pub open spec fn op_id_spec(self) -> u32 {
        match self {
            ToCardCtrlRbDesc::UpdateMrTable(desc) => desc.common.op_id,
            ToCardCtrlRbDesc::UpdatePageTable(desc) => desc.common.op_id,
            ToCardCtrlRbDesc::QpManagement(desc) => desc.common.op_id,
            ToCardCtrlRbDesc::SetNetworkParam(desc) => desc.common.op_id,
            ToCardCtrlRbDesc::SetRawPacketReceiveMeta(desc) => desc.common.op_id,
            ToCardCtrlRbDesc::UpdateErrorPsnRecoverPoint(desc) => desc.common.op_id,
        }
    }

    /// The bits of the descriptor
    pub open spec fn layout(self) -> Seq<Field> {
        ctrl_header_layout(self.opcode_spec(), self.op_id_spec()) + ctrl_body_layout(self)
    }

    /// The command with another operation id
    pub open spec fn with_id(self, id: u32) -> Self {
        let common = ToCardCtrlRbDescCommon { op_id: id };
        match self {
            ToCardCtrlRbDesc::UpdateMrTable(desc) => ToCardCtrlRbDesc::UpdateMrTable(
                ToCardCtrlRbDescUpdateMrTable { common, ..desc },
            ),
            ToCardCtrlRbDesc::UpdatePageTable(desc) => ToCardCtrlRbDesc::UpdatePageTable(
                ToCardCtrlRbDescUpdatePageTable { common, ..desc },
            ),
            ToCardCtrlRbDesc::QpManagement(desc) => ToCardCtrlRbDesc::QpManagement(
                ToCardCtrlRbDescQpManagement { common, ..desc },
            ),
            ToCardCtrlRbDesc::SetNetworkParam(desc) => ToCardCtrlRbDesc::SetNetworkParam(
                ToCardCtrlRbDescSetNetworkParam { common, ..desc },
            ),
            ToCardCtrlRbDesc::SetRawPacketReceiveMeta(desc) => ToCardCtrlRbDesc::SetRawPacketReceiveMeta(
                ToCardCtrlRbDescSetRawPacketReceiveMeta { common, ..desc },
            ),
            ToCardCtrlRbDesc::UpdateErrorPsnRecoverPoint(desc) => ToCardCtrlRbDesc::UpdateErrorPsnRecoverPoint(
                ToCardCtrlRbDescUpdateErrPsnRecoverPoint { common, ..desc },
            ),
        }
    }

    /// Gives the command an operation id
    pub fn set_id(&mut self, id: u32)
        ensures
            *final(self) == old(self).with_id(id),
    {
        match self {
            ToCardCtrlRbDesc::UpdateMrTable(desc) => desc.common.op_id = id,
            ToCardCtrlRbDesc::UpdatePageTable(desc) => desc.common.op_id = id,
            ToCardCtrlRbDesc::QpManagement(desc) => desc.common.op_id = id,
            ToCardCtrlRbDesc::SetNetworkParam(desc) => desc.common.op_id = id,
            ToCardCtrlRbDesc::SetRawPacketReceiveMeta(desc) => desc.common.op_id = id,
            ToCardCtrlRbDesc::UpdateErrorPsnRecoverPoint(desc) => desc.common.op_id = id,
        }
    }

    /// Writes the command to a slot. The count of page table entries, in bytes,
    /// must fit its field.
    pub fn write(&self, dst: &mut [u8])
        requires
            old(dst)@.len() >= DESC_SIZE,
            self matches ToCardCtrlRbDesc::UpdatePageTable(desc) ==> desc.pgte_cnt * 8 <= u32::MAX,
        ensures
            written(old(dst)@, final(dst)@, self.layout()),
    {
        let ghost a = dst@;
        match self {
            ToCardCtrlRbDesc::UpdateMrTable(desc) => {
                write_common_header(dst, CtrlRbDescOpcode::UpdateMrTable, desc.common.op_id);
                let ghost b = dst@;
                write_update_mr_table(dst, desc);
                proof {
                    lemma_header_and_body(a, b, dst@, *self);
                }
            },
            ToCardCtrlRbDesc::UpdatePageTable(desc) => {
                write_common_header(dst, CtrlRbDescOpcode::UpdatePageTable, desc.common.op_id);
                let ghost b = dst@;
                write_update_page_table(dst, desc);
                proof {
                    lemma_header_and_body(a, b, dst@, *self);
                }
            },
            ToCardCtrlRbDesc::QpManagement(desc) => {
                write_common_header(dst, CtrlRbDescOpcode::QpManagement, desc.common.op_id);
                let ghost b = dst@;
                write_qp_management(dst, desc);
                proof {
                    lemma_header_and_body(a, b, dst@, *self);
                }
            },
            ToCardCtrlRbDesc::SetNetworkParam(desc) => {
                write_common_header(dst, CtrlRbDescOpcode::SetNetworkParam, desc.common.op_id);
                let ghost b = dst@;
                write_set_network_param(dst, desc);
                proof {
                    lemma_header_and_body(a, b, dst@, *self);
                }
            },
            ToCardCtrlRbDesc::SetRawPacketReceiveMeta(desc) => {
                write_common_header(dst, CtrlRbDescOpcode::SetRawPacketReceiveMeta, desc.common.op_id);
                let ghost b = dst@;
                write_set_raw_packet_receive_meta(dst, desc);
                proof {
                    lemma_header_and_body(a, b, dst@, *self);
                }
            },
            ToCardCtrlRbDesc::UpdateErrorPsnRecoverPoint(desc) => {
                write_common_header(dst, CtrlRbDescOpcode::UpdateErrorPsnRecoverPoint, desc.common.op_id);
                let ghost b = dst@;
                write_update_err_psn_recover_point(dst, desc);
                proof {
                    lemma_header_and_body(a, b, dst@, *self);
                }
            },
        }
    }
}

/// Common header of the answer to a command
#[derive(Debug, Clone, Copy, PartialEq, Eq, Structural)]
pub struct ToHostCtrlRbDescCommon {
    /// The operation id
    pub op_id: u32,
    /// The opcode of the descriptor
    pub opcode: CtrlRbDescOpcode,
    /// The result of the operation
    pub is_success: bool,
}

/// The answer to a command
#[derive(Debug, Clone, Copy, PartialEq, Eq, Structural)]
pub struct ToHostCtrlRbDesc {
    pub common: ToHostCtrlRbDescCommon,
}

/// What a slot with an answer means.
pub open spec fn parse_ctrl(s: Seq<u8>) -> Result<ToHostCtrlRbDesc, DeviceError> {
    let code = field(s, 2, 6) as u8;
    match CtrlRbDescOpcode::of_code(code) {
        Some(opcode) => Ok(
            ToHostCtrlRbDesc {
                common: ToHostCtrlRbDescCommon {
                    op_id: field(s, 32, 32) as u32,
                    opcode,
                    is_success: field(s, 1, 1) == 1,
                },
            },
        ),
        None => Err(DeviceError::ParseDesc(DescField::CtrlOpcode, code)),
    }
}

impl ToHostCtrlRbDesc {
    /// Reads a slot with an answer. It must be marked valid and take no
    /// further slot.
    pub fn read(src: &[u8]) -> (r: Result<ToHostCtrlRbDesc, DeviceError>)
        requires
            src@.len() >= DESC_SIZE,
            field(src@, 0, 1) == 1,
            field(src@, 8, 4) == 0,
        ensures
            r == parse_ctrl(src@),
    {
        proof {
            lemma2_to64();
        }
        let is_success: bool = get_bits(src, 1, 1) == 1;
        let opcode_raw: u8 = get_bits(src, 2, 6) as u8;
        let opcode = match CtrlRbDescOpcode::try_from_code(opcode_raw) {
            Some(opcode) => opcode,
            None => return Err(DeviceError::ParseDesc(DescField::CtrlOpcode, opcode_raw)),
        };
        let op_id: u32 = get_bits(src, 32, 32) as u32;
        Ok(ToHostCtrlRbDesc { common: ToHostCtrlRbDescCommon { op_id, opcode, is_success } })
    }

    /// Reads a slot with an answer, if it is marked valid and takes no further
    /// slot.
    pub fn read_checked(src: &[u8]) -> (r: Option<Result<ToHostCtrlRbDesc, DeviceError>>)
        ensures
            r == (if src@.len() >= DESC_SIZE && field(src@, 0, 1) == 1 && field(src@, 8, 4) == 0 {
                Some(parse_ctrl(src@))
            } else {
                None::<Result<ToHostCtrlRbDesc, DeviceError>>
            }),
    {
        if src.len() < DESC_SIZE {
            return None;
        }
        if get_bits(src, 0, 1) != 1 || get_bits(src, 8, 4) != 0 {
            return None;
        }
        Some(Self::read(src))
    }
}

/// A slot to which a command was written names the command's kind and id, as
/// an answer would that has not succeeded.
pub proof fn law_command_header_reads_back(desc: ToCardCtrlRbDesc, old_buf: Seq<u8>, new_buf: Seq<u8>)
    requires
        written(old_buf, new_buf, desc.layout()),
    ensures
        field(new_buf, 0, 1) == 1,
        field(new_buf, 8, 4) == 0,
        parse_ctrl(new_buf) == Ok::<ToHostCtrlRbDesc, DeviceError>(
            (ToHostCtrlRbDesc {
                common: ToHostCtrlRbDescCommon {
                    op_id: desc.op_id_spec(),
                    opcode: desc.opcode_spec(),
                    is_success: false,
                },
            }),
        ),
{
    lemma2_to64();
    let fs = desc.layout();
    lemma_written_at(old_buf, new_buf, fs, 0, Field { lo: 0, width: 1, value: 1 });
    lemma_written_at(old_buf, new_buf, fs, 1, Field { lo: 1, width: 1, value: 0 });
    lemma_written_at(old_buf, new_buf, fs, 2, Field { lo: 2, width: 6, value: desc.opcode_spec().code_spec() as u64 });
    lemma_written_at(old_buf, new_buf, fs, 3, Field { lo: 8, width: 4, value: 0 });
    lemma_written_at(old_buf, new_buf, fs, 5, Field { lo: 32, width: 32, value: desc.op_id_spec() as u64 });
}

/// A command that is written to a slot, with each of its numbers read back where
/// the card looks for it.
pub proof fn law_command_reads_back(desc: ToCardCtrlRbDesc, old_buf: Seq<u8>, new_buf: Seq<u8>)
    requires
        written(old_buf, new_buf, desc.layout()),
    ensures
        match desc {
            ToCardCtrlRbDesc::UpdateMrTable(d) => {
                &&& field(new_buf, 64, 64) == d.addr
                &&& field(new_buf, 128, 32) == d.len
                &&& field(new_buf, 160, 32) == d.key@
                &&& field(new_buf, 192, 32) == d.pd_hdl
                &&& field(new_buf, 224, 8) == d.acc_flags@
                &&& d.pgt_offset < 0x2_0000 ==> field(new_buf, 232, 17) == d.pgt_offset
            },
            ToCardCtrlRbDesc::UpdatePageTable(d) => {
                &&& field(new_buf, 64, 64) == d.start_addr
                &&& field(new_buf, 128, 32) == d.pgt_idx
                &&& d.pgte_cnt * 8 <= u32::MAX ==> field(new_buf, 160, 32) == d.pgte_cnt * 8
            },
            ToCardCtrlRbDesc::QpManagement(d) => {
                &&& field(new_buf, 64, 1) == 1 <==> d.is_valid
                &&& field(new_buf, 65, 1) == 0
                &&& d.qpn@ <= 0xff_ffff ==> field(new_buf, 72, 24) == d.qpn@
                &&& field(new_buf, 96, 32) == d.pd_hdl
                &&& field(new_buf, 128, 4) == d.qp_type.code_spec()
                &&& field(new_buf, 136, 8) == d.rq_acc_flags@
                &&& field(new_buf, 144, 3) == d.pmtu.code_spec()
                &&& d.peer_qpn@ <= 0xff_ffff ==> field(new_buf, 152, 24) == d.peer_qpn@
            },
            ToCardCtrlRbDesc::SetNetworkParam(d) => {
                &&& field(new_buf, 64, 32) == ipv4_number(d.gateway)
                &&& field(new_buf, 96, 32) == ipv4_number(d.netmask)
                &&& field(new_buf, 128, 32) == ipv4_number(d.ipaddr)
                &&& field(new_buf, 192, 48) == mac_number(d.macaddr)
            },
            ToCardCtrlRbDesc::SetRawPacketReceiveMeta(d) => {
                &&& field(new_buf, 64, 64) == d.base_write_addr
                &&& field(new_buf, 128, 32) == d.key@
            },
            ToCardCtrlRbDesc::UpdateErrorPsnRecoverPoint(d) => {
                &&& d.recover_psn@ <= 0xff_ffff ==> field(new_buf, 64, 24) == d.recover_psn@
                &&& d.qpn@ <= 0xff_ffff ==> field(new_buf, 96, 24) == d.qpn@
            },
        },
{
    lemma2_to64();
    let fs = desc.layout();
    let body = ctrl_body_layout(desc);
    match desc {
        ToCardCtrlRbDesc::UpdateMrTable(d) => {
            lemma_written_at(old_buf, new_buf, fs, 6, body[0]);
            lemma_written_at(old_buf, new_buf, fs, 7, body[1]);
            lemma_written_at(old_buf, new_buf, fs, 8, body[2]);
            lemma_written_at(old_buf, new_buf, fs, 9, body[3]);
            lemma_written_at(old_buf, new_buf, fs, 10, body[4]);
            if d.pgt_offset < 0x2_0000 {
                lemma_written_at(old_buf, new_buf, fs, 11, body[5]);
            }
        },
        ToCardCtrlRbDesc::UpdatePageTable(d) => {
            lemma_written_at(old_buf, new_buf, fs, 6, body[0]);
            lemma_written_at(old_buf, new_buf, fs, 7, body[1]);
            if d.pgte_cnt * 8 <= u32::MAX {
                lemma_written_at(old_buf, new_buf, fs, 8, body[2]);
            }
        },
        ToCardCtrlRbDesc::QpManagement(d) => {
            lemma_written_at(old_buf, new_buf, fs, 6, body[0]);
            lemma_written_at(old_buf, new_buf, fs, 7, body[1]);
            if d.qpn@ <= 0xff_ffff {
                lemma_written_at(old_buf, new_buf, fs, 8, body[2]);
            }
            lemma_written_at(old_buf, new_buf, fs, 9, body[3]);
            lemma_written_at(old_buf, new_buf, fs, 10, body[4]);
            lemma_written_at(old_buf, new_buf, fs, 11, body[5]);
            lemma_written_at(old_buf, new_buf, fs, 12, body[6]);
            if d.peer_qpn@ <= 0xff_ffff {
                lemma_written_at(old_buf, new_buf, fs, 13, body[7]);
            }
        },
        ToCardCtrlRbDesc::SetNetworkParam(d) => {
            lemma_ipv4_number(d.gateway);
            lemma_ipv4_number(d.netmask);
            lemma_ipv4_number(d.ipaddr);
            lemma_mac_number(d.macaddr);
            lemma_written_at(old_buf, new_buf, fs, 6, body[0]);
            lemma_written_at(old_buf, new_buf, fs, 7, body[1]);
            lemma_written_at(old_buf, new_buf, fs, 8, body[2]);
            lemma_written_at(old_buf, new_buf, fs, 9, body[3]);
        },
        ToCardCtrlRbDesc::SetRawPacketReceiveMeta(d) => {
            lemma_written_at(old_buf, new_buf, fs, 6, body[0]);
            lemma_written_at(old_buf, new_buf, fs, 7, body[1]);
        },
        ToCardCtrlRbDesc::UpdateErrorPsnRecoverPoint(d) => {
            if d.recover_psn@ <= 0xff_ffff {
                lemma_written_at(old_buf, new_buf, fs, 6, body[0]);
            }
            if d.qpn@ <= 0xff_ffff {
                lemma_written_at(old_buf, new_buf, fs, 7, body[1]);
            }
        },
    }
}

} // verus!
