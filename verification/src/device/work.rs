//! Descriptors of the work queues.

use vstd::prelude::*;
use crate::bits::{get_bits, write_fields, Field};
#[allow(unused_imports)]
use crate::bits::{field, lemma_field_bound, lemma_written_at, written};
use crate::device::error::{DescField, DeviceError};
use crate::types::{
    DescPart, Error, Imm, Ipv4Addr, Key, MacAddress, Msn, Pmtu, Psn, QpType, Qpn, Sge, ThreeBytesStruct,
    WorkReqSendFlag,
};
#[allow(unused_imports)]
use crate::utils::be_value;
use crate::utils::u8_slice_to_u64;
use vstd::arithmetic::power2::lemma2_to64;
#[allow(unused_imports)]
use vstd::arithmetic::power2::{lemma2_to64_rest, pow2};

verus! {

/// The length of a descriptor in bytes.
pub const DESC_SIZE: usize = 32;

/// A scatter gather element of a descriptor
#[derive(Debug, Clone, Copy, PartialEq, Eq, Structural)]
pub struct DescSge {
    pub addr: u64,
    pub len: u32,
    pub key: Key,
}

impl Default for DescSge {
    fn default() -> (r: Self)
        ensures
            r == (DescSge { addr: 0, len: 0, key: Key::of(0) }),
    {
        Self { addr: 0, len: 0, key: Key::default() }
    }
}

impl From<Sge> for DescSge {
    fn from(sge: Sge) -> (r: Self) {
        Self { addr: sge.addr, len: sge.len, key: sge.key }
    }
}

impl vstd::std_specs::convert::FromSpecImpl<Sge> for DescSge {
    open spec fn obeys_from_spec() -> bool {
        true
    }

    open spec fn from_spec(sge: Sge) -> Self {
        DescSge { addr: sge.addr, len: sge.len, key: sge.key }
    }
}

/// Common fields of a work descriptor for the card
#[derive(Debug, Clone, Copy)]
pub struct ToCardWorkRbDescCommon {
    /// Total length of the payload
    pub total_len: u32,
    /// Remote virtual address
    pub raddr: u64,
    /// `rkey` for raddr
    pub rkey: Key,
    /// destination qp ip
    pub dqp_ip: Ipv4Addr,
    /// destination qp number
    pub dqpn: Qpn,
    /// destination mac address
    pub mac_addr: MacAddress,
    /// PMTU
    pub pmtu: Pmtu,
    /// Send flags
    pub flags: WorkReqSendFlag,
    /// QP type
    pub qp_type: QpType,
    /// PSN
    pub psn: Psn,
    /// MSN
    pub msn: Msn,
}

impl Default for ToCardWorkRbDescCommon {
    fn default() -> (r: Self)
        ensures
            r.total_len == 0,
            r.raddr == 0,
            r.rkey@ == 0,
            r.dqp_ip.octets@ == seq![0u8, 0, 0, 0],
            r.dqpn@ == 0,
            r.mac_addr.octets@ == seq![0u8, 0, 0, 0, 0, 0],
            r.pmtu == Pmtu::Mtu256,
            r.flags@ == 0,
            r.qp_type == QpType::Rc,
            r.psn@ == 0,
            r.msn@ == 0,
    {
        Self {
            total_len: 0,
            raddr: 0,
            rkey: Key::default(),
            dqp_ip: Ipv4Addr::new(0, 0, 0, 0),
            dqpn: Qpn::default(),
            mac_addr: MacAddress::default(),
            pmtu: Pmtu::Mtu256,
            flags: WorkReqSendFlag::empty(),
            qp_type: QpType::Rc,
            psn: Psn::default(),
            msn: Msn::default(),
        }
    }
}

/// Read request for the card
#[derive(Debug, Clone, Copy)]
pub struct ToCardWorkRbDescRead {
    pub common: ToCardWorkRbDescCommon,
    pub sge: DescSge,
}

/// Write, or response to a read, for the card
#[derive(Debug, Clone, Copy)]
pub struct ToCardWorkRbDescWrite {
    pub common: ToCardWorkRbDescCommon,
    /// Is last descriptor of this transaction
    pub is_last: bool,
    /// Is the first descriptor of this transaction
    pub is_first: bool,
    pub sge0: DescSge,
    pub sge1: Option<DescSge>,
    pub sge2: Option<DescSge>,
    pub sge3: Option<DescSge>,
}

/// Write with immediate data for the card
#[derive(Debug, Clone, Copy)]
pub struct ToCardWorkRbDescWriteWithImm {
    pub common: ToCardWorkRbDescCommon,
    /// Is last descriptor of this transaction
    pub is_last: bool,
    /// Is the first descriptor of this transaction
    pub is_first: bool,
    pub imm: u32,
    pub sge0: DescSge,
    pub sge1: Option<DescSge>,
    pub sge2: Option<DescSge>,
    pub sge3: Option<DescSge>,
}

/// Work descriptor for the card
#[derive(Debug, Clone, Copy)]
pub enum ToCardWorkRbDesc {
    Read(ToCardWorkRbDescRead),
    Write(ToCardWorkRbDescWrite),
    WriteWithImm(ToCardWorkRbDescWriteWithImm),
    ReadResp(ToCardWorkRbDescWrite),
}

/// The kinds of work descriptors for the card
#[derive(Debug, Clone, Copy, PartialEq, Eq, Structural)]
pub enum ToCardWorkRbDescOpcode {
    Write,
    WriteWithImm,
    Read,
    ReadResp,
}

impl ToCardWorkRbDescOpcode {
    /// The number by which the card knows the kind
    pub open spec fn code_spec(self) -> u8 {
        match self {
            ToCardWorkRbDescOpcode::Write => 0,
            ToCardWorkRbDescOpcode::WriteWithImm => 1,
            ToCardWorkRbDescOpcode::Read => 4,
            ToCardWorkRbDescOpcode::ReadResp => 12,
        }
    }

    /// The number by which the card knows the kind
    pub fn code(self) -> (r: u8)
        ensures
            r == self.code_spec(),
    {
        match self {
            ToCardWorkRbDescOpcode::Write => 0,
            ToCardWorkRbDescOpcode::WriteWithImm => 1,
            ToCardWorkRbDescOpcode::Read => 4,
            ToCardWorkRbDescOpcode::ReadResp => 12,
        }
    }
}

/// The number that the bytes of an address make, the first one highest.
pub open spec fn addr_value(octets: Seq<u8>) -> u64 {
    (be_value(octets) % 0x1_0000_0000_0000_0000) as u64
}

/// 1 for true, 0 for false.
pub open spec fn flag(b: bool) -> u64 {
    if b {
        1
    } else {
        0
    }
}

/// 1 for true, 0 for false.
pub fn flag_value(b: bool) -> (r: u64)
    ensures
        r == flag(b),
{
    if b {
        1
    } else {
        0
    }
}

/// The layout of the first segment of a work descriptor.
pub open spec fn seg0_layout(
    code: u8,
    is_first: bool,
    is_last: bool,
    extra_segment_cnt: u64,
    common: ToCardWorkRbDescCommon,
) -> Seq<Field> {
    seq![
        (Field { lo: 0, width: 1, value: 1 }),
        (Field { lo: 1, width: 1, value: 0 }),
        (Field { lo: 2, width: 1, value: flag(is_first) }),
        (Field { lo: 3, width: 1, value: flag(is_last) }),
        (Field { lo: 4, width: 4, value: code as u64 }),
        (Field { lo: 8, width: 4, value: extra_segment_cnt }),
        (Field { lo: 32, width: 32, value: common.total_len as u64 }),
        (Field { lo: 64, width: 64, value: common.raddr }),
        (Field { lo: 128, width: 32, value: common.rkey@ as u64 }),
        (Field { lo: 160, width: 32, value: addr_value(common.dqp_ip.octets@) }),
        (Field { lo: 192, width: 16, value: common.msn@ as u64 }),
    ]
}

/// The layout of the second segment of a work descriptor.
pub open spec fn seg1_layout(common: ToCardWorkRbDescCommon, sge_cnt: u64, imm: u32) -> Seq<Field> {
    seq![
        (Field { lo: 0, width: 3, value: common.pmtu.code_spec() as u64 }),
        (Field { lo: 8, width: 5, value: common.flags@ as u64 }),
        (Field { lo: 16, width: 4, value: common.qp_type.code_spec() as u64 }),
        (Field { lo: 24, width: 3, value: sge_cnt }),
        (Field { lo: 32, width: 24, value: common.psn@ as u64 }),
        (Field { lo: 64, width: 48, value: addr_value(common.mac_addr.octets@) }),
        (Field { lo: 128, width: 24, value: common.dqpn@ as u64 }),
        (Field { lo: 160, width: 32, value: imm as u64 }),
    ]
}

/// The layout of a segment that holds two scatter gather elements. The second
/// one comes first; one that is missing is all zero.
pub open spec fn sge_layout(low: Option<DescSge>, high: Option<DescSge>) -> Seq<Field> {
    seq![
        (Field { lo: 0, width: 32, value: if high is Some { high->0.key@ as u64 } else { 0 } }),
        (Field { lo: 32, width: 32, value: if high is Some { high->0.len as u64 } else { 0 } }),
        (Field { lo: 64, width: 64, value: if high is Some { high->0.addr } else { 0 } }),
        (Field { lo: 128, width: 32, value: if low is Some { low->0.key@ as u64 } else { 0 } }),
        (Field { lo: 160, width: 32, value: if low is Some { low->0.len as u64 } else { 0 } }),
        (Field { lo: 192, width: 64, value: if low is Some { low->0.addr } else { 0 } }),
    ]
}

fn write_seg0(
    dst: &mut [u8],
    code: u8,
    is_first: bool,
    is_last: bool,
    extra_segment_cnt: u32,
    common: &ToCardWorkRbDescCommon,
)
    requires
        old(dst)@.len() >= DESC_SIZE,
    ensures
        written(
            old(dst)@,
            final(dst)@,
            seg0_layout(code, is_first, is_last, extra_segment_cnt as u64, *common),
        ),
{
    let fields: [Field; 11] = [
        Field { lo: 0, width: 1, value: 1 },
        Field { lo: 1, width: 1, value: 0 },
        Field { lo: 2, width: 1, value: flag_value(is_first) },
        Field { lo: 3, width: 1, value: flag_value(is_last) },
        Field { lo: 4, width: 4, value: code as u64 },
        Field { lo: 8, width: 4, value: extra_segment_cnt as u64 },
        Field { lo: 32, width: 32, value: common.total_len as u64 },
        Field { lo: 64, width: 64, value: common.raddr },
        Field { lo: 128, width: 32, value: common.rkey.get() as u64 },
        Field { lo: 160, width: 32, value: u8_slice_to_u64(common.dqp_ip.octets.as_slice()) },
        Field { lo: 192, width: 16, value: common.msn.get() as u64 },
    ];
    proof {
        assert(fields@ =~= seg0_layout(code, is_first, is_last, extra_segment_cnt as u64, *common));
    }
    write_fields(dst, fields.as_slice());
}

fn write_seg1(dst: &mut [u8], common: &ToCardWorkRbDescCommon, sge_cnt: u64, imm: u32)
    requires
        old(dst)@.len() >= DESC_SIZE,
    ensures
        written(old(dst)@, final(dst)@, seg1_layout(*common, sge_cnt, imm)),
{
    let fields: [Field; 8] = [
        Field { lo: 0, width: 3, value: common.pmtu.code() as u64 },
        Field { lo: 8, width: 5, value: common.flags.bits() as u64 },
        Field { lo: 16, width: 4, value: common.qp_type.code() as u64 },
        Field { lo: 24, width: 3, value: sge_cnt },
        Field { lo: 32, width: 24, value: common.psn.get() as u64 },
        Field { lo: 64, width: 48, value: u8_slice_to_u64(common.mac_addr.octets.as_slice()) },
        Field { lo: 128, width: 24, value: common.dqpn.get() as u64 },
        Field { lo: 160, width: 32, value: imm as u64 },
    ];
    proof {
        assert(fields@ =~= seg1_layout(*common, sge_cnt, imm));
    }
    write_fields(dst, fields.as_slice());
}

fn write_sges(dst: &mut [u8], low: Option<DescSge>, high: Option<DescSge>)
    requires
        old(dst)@.len() >= DESC_SIZE,
    ensures
        written(old(dst)@, final(dst)@, sge_layout(low, high)),
{
    let (hkey, hlen, haddr): (u64, u64, u64) = match high {
        Some(sge) => (sge.key.get() as u64, sge.len as u64, sge.addr),
        None => (0, 0, 0),
    };
    let (lkey, llen, laddr): (u64, u64, u64) = match low {
        Some(sge) => (sge.key.get() as u64, sge.len as u64, sge.addr),
        None => (0, 0, 0),
    };
    let fields: [Field; 6] = [
        Field { lo: 0, width: 32, value: hkey },
        Field { lo: 32, width: 32, value: hlen },
        Field { lo: 64, width: 64, value: haddr },
        Field { lo: 128, width: 32, value: lkey },
        Field { lo: 160, width: 32, value: llen },
        Field { lo: 192, width: 64, value: laddr },
    ];
    proof {
        assert(fields@ =~= sge_layout(low, high));
    }
    write_fields(dst, fields.as_slice());
}

impl ToCardWorkRbDesc {
    /// The common fields
    pub open spec fn common_spec(self) -> ToCardWorkRbDescCommon {
        match self {
            ToCardWorkRbDesc::Read(desc) => desc.common,
            ToCardWorkRbDesc::Write(desc) => desc.common,
            ToCardWorkRbDesc::WriteWithImm(desc) => desc.common,
            ToCardWorkRbDesc::ReadResp(desc) => desc.common,
        }
    }

    /// The kind of the descriptor
    pub open spec fn opcode_spec(self) -> ToCardWorkRbDescOpcode {
        match self {
            ToCardWorkRbDesc::Read(_) => ToCardWorkRbDescOpcode::Read,
            ToCardWorkRbDesc::Write(_) => ToCardWorkRbDescOpcode::Write,
            ToCardWorkRbDesc::WriteWithImm(_) => ToCardWorkRbDescOpcode::WriteWithImm,
            ToCardWorkRbDesc::ReadResp(_) => ToCardWorkRbDescOpcode::ReadResp,
        }
    }

    /// Whether it starts its transaction
    pub open spec fn is_first_spec(self) -> bool {
        match self {
            ToCardWorkRbDesc::Read(_) => true,
            ToCardWorkRbDesc::Write(desc) => desc.is_first,
            ToCardWorkRbDesc::WriteWithImm(desc) => desc.is_first,
            ToCardWorkRbDesc::ReadResp(desc) => desc.is_first,
        }
    }

    /// Whether it ends its transaction
    pub open spec fn is_last_spec(self) -> bool {
        match self {
            ToCardWorkRbDesc::Read(_) => true,
            ToCardWorkRbDesc::Write(desc) => desc.is_last,
            ToCardWorkRbDesc::WriteWithImm(desc) => desc.is_last,
            ToCardWorkRbDesc::ReadResp(desc) => desc.is_last,
        }
    }

    /// The scatter gather elements, by position
    pub open spec fn sges_spec(self) -> (DescSge, Option<DescSge>, Option<DescSge>, Option<DescSge>) {
        match self {
            ToCardWorkRbDesc::Read(desc) => (desc.sge, None, None, None),
            ToCardWorkRbDesc::Write(desc) => (desc.sge0, desc.sge1, desc.sge2, desc.sge3),
            ToCardWorkRbDesc::WriteWithImm(desc) => (desc.sge0, desc.sge1, desc.sge2, desc.sge3),
            ToCardWorkRbDesc::ReadResp(desc) => (desc.sge0, desc.sge1, desc.sge2, desc.sge3),
        }
    }

    /// The immediate data; 0 where there is none
    pub open spec fn imm_spec(self) -> u32 {
        match self {
            ToCardWorkRbDesc::WriteWithImm(desc) => desc.imm,
            _ => 0,
        }
    }

    /// How many segments the descriptor takes
    pub open spec fn segments(self) -> u32 {
        if self.sges_spec().2 is Some {
            4
        } else {
            3
        }
    }

    /// How many scatter gather elements there are
    pub open spec fn sge_cnt(self) -> u64 {
        let s = self.sges_spec();
        (1 + flag(s.1 is Some) + flag(s.2 is Some) + flag(s.3 is Some)) as u64
    }

    /// The bits of the segments, in their order
    pub open spec fn layout(self) -> Seq<Seq<Field>> {
        let s = self.sges_spec();
        seq![
            seg0_layout(
                self.opcode_spec().code_spec(),
                self.is_first_spec(),
                self.is_last_spec(),
                (self.segments() - 1) as u64,
                self.common_spec(),
            ),
            seg1_layout(self.common_spec(), self.sge_cnt(), self.imm_spec()),
            sge_layout(Some(s.0), s.1),
            sge_layout(s.2, s.3),
        ]
    }

    fn sges(&self) -> (r: (DescSge, Option<DescSge>, Option<DescSge>, Option<DescSge>))
        ensures
            r == self.sges_spec(),
    {
        match self {
            ToCardWorkRbDesc::Read(desc) => (desc.sge, None, None, None),
            ToCardWorkRbDesc::Write(desc) | ToCardWorkRbDesc::ReadResp(desc) => {
                (desc.sge0, desc.sge1, desc.sge2, desc.sge3)
            },
            ToCardWorkRbDesc::WriteWithImm(desc) => (desc.sge0, desc.sge1, desc.sge2, desc.sge3),
        }
    }

    /// Writes the first segment
    pub fn write_0(&self, dst: &mut [u8])
        requires
            old(dst)@.len() >= DESC_SIZE,
        ensures
            written(old(dst)@, final(dst)@, self.layout()[0]),
    {
        let (common, opcode, is_first, is_last): (&ToCardWorkRbDescCommon, ToCardWorkRbDescOpcode, bool, bool) = match self {
            ToCardWorkRbDesc::Read(desc) => (&desc.common, ToCardWorkRbDescOpcode::Read, true, true),
            ToCardWorkRbDesc::Write(desc) => {
                (&desc.common, ToCardWorkRbDescOpcode::Write, desc.is_first, desc.is_last)
            },
            ToCardWorkRbDesc::WriteWithImm(desc) => {
                (&desc.common, ToCardWorkRbDescOpcode::WriteWithImm, desc.is_first, desc.is_last)
            },
            ToCardWorkRbDesc::ReadResp(desc) => {
                (&desc.common, ToCardWorkRbDescOpcode::ReadResp, desc.is_first, desc.is_last)
            },
        };
        let extra_segment_cnt: u32 = self.serialized_desc_cnt() - 1;
        write_seg0(dst, opcode.code(), is_first, is_last, extra_segment_cnt, common);
    }

    /// Writes the second segment
    pub fn write_1(&self, dst: &mut [u8])
        requires
            old(dst)@.len() >= DESC_SIZE,
        ensures
            written(old(dst)@, final(dst)@, self.layout()[1]),
    {
        let (common, imm): (&ToCardWorkRbDescCommon, u32) = match self {
            ToCardWorkRbDesc::Read(desc) => (&desc.common, 0),
            ToCardWorkRbDesc::Write(desc) | ToCardWorkRbDesc::ReadResp(desc) => (&desc.common, 0),
            ToCardWorkRbDesc::WriteWithImm(desc) => (&desc.common, desc.imm),
        };
        let sges = self.sges();
        let sge_cnt: u64 = 1 + flag_value(sges.1.is_some()) + flag_value(sges.2.is_some()) + flag_value(
            sges.3.is_some(),
        );
        write_seg1(dst, common, sge_cnt, imm);
    }

    /// Writes the third segment: the first two scatter gather elements
    pub fn write_2(&self, dst: &mut [u8])
        requires
            old(dst)@.len() >= DESC_SIZE,
        ensures
            written(old(dst)@, final(dst)@, self.layout()[2]),
    {
        let sges = self.sges();
        write_sges(dst, Some(sges.0), sges.1);
    }

    /// Writes the fourth segment: the other two scatter gather elements
    pub fn write_3(&self, dst: &mut [u8])
        requires
            old(dst)@.len() >= DESC_SIZE,
        ensures
            written(old(dst)@, final(dst)@, self.layout()[3]),
    {
        let sges = self.sges();
        write_sges(dst, sges.2, sges.3);
    }

    /// How many segments the descriptor takes
    pub fn serialized_desc_cnt(&self) -> (r: u32)
        ensures
            r == self.segments(),
            3 <= r <= 4,
    {
        let sge_desc_cnt: u32 = match self {
            ToCardWorkRbDesc::Read(_) => 1,
            ToCardWorkRbDesc::Write(desc) | ToCardWorkRbDesc::ReadResp(desc) => if desc.sge2.is_some() {
                2
            } else {
                1
            },
            ToCardWorkRbDesc::WriteWithImm(desc) => if desc.sge2.is_some() {
                2
            } else {
                1
            },
        };
        2 + sge_desc_cnt
    }
}

/// What the first segment of a work descriptor is written to carry, it gives
/// back: the flags, the opcode, the count of segments, the length, the remote
/// address and key, and the message number.
pub proof fn law_segment_0_reads_back(desc: ToCardWorkRbDesc, old_buf: Seq<u8>, new_buf: Seq<u8>)
    requires
        written(old_buf, new_buf, desc.layout()[0]),
    ensures
        field(new_buf, 0, 1) == 1,
        field(new_buf, 2, 1) == flag(desc.is_first_spec()),
        field(new_buf, 3, 1) == flag(desc.is_last_spec()),
        field(new_buf, 4, 4) == desc.opcode_spec().code_spec(),
        field(new_buf, 8, 4) == desc.segments() - 1,
        field(new_buf, 32, 32) == desc.common_spec().total_len,
        field(new_buf, 64, 64) == desc.common_spec().raddr,
        field(new_buf, 128, 32) == desc.common_spec().rkey@,
        field(new_buf, 192, 16) == desc.common_spec().msn@,
{
    lemma2_to64();
    let fs = desc.layout()[0];
    let common = desc.common_spec();
    lemma_written_at(old_buf, new_buf, fs, 0, Field { lo: 0, width: 1, value: 1 });
    lemma_written_at(old_buf, new_buf, fs, 2, Field { lo: 2, width: 1, value: flag(desc.is_first_spec()) });
    lemma_written_at(old_buf, new_buf, fs, 3, Field { lo: 3, width: 1, value: flag(desc.is_last_spec()) });
    lemma_written_at(
        old_buf,
        new_buf,
        fs,
        4,
        Field { lo: 4, width: 4, value: desc.opcode_spec().code_spec() as u64 },
    );
    lemma_written_at(old_buf, new_buf, fs, 5, Field { lo: 8, width: 4, value: (desc.segments() - 1) as u64 });
    lemma_written_at(old_buf, new_buf, fs, 6, Field { lo: 32, width: 32, value: common.total_len as u64 });
    lemma_written_at(old_buf, new_buf, fs, 7, Field { lo: 64, width: 64, value: common.raddr });
    lemma_written_at(old_buf, new_buf, fs, 8, Field { lo: 128, width: 32, value: common.rkey@ as u64 });
    lemma_written_at(old_buf, new_buf, fs, 10, Field { lo: 192, width: 16, value: common.msn@ as u64 });
}

/// What the second segment of a work descriptor is written to carry, it gives
/// back: the packet size, the type of the queue pair, the count of elements,
/// the packet number, the destination and the immediate.
pub proof fn law_segment_1_reads_back(desc: ToCardWorkRbDesc, old_buf: Seq<u8>, new_buf: Seq<u8>)
    requires
        written(old_buf, new_buf, desc.layout()[1]),
        desc.common_spec().psn@ <= 0xff_ffff,
        desc.common_spec().dqpn@ <= 0xff_ffff,
    ensures
        field(new_buf, 0, 3) == desc.common_spec().pmtu.code_spec(),
        field(new_buf, 16, 4) == desc.common_spec().qp_type.code_spec(),
        field(new_buf, 24, 3) == desc.sge_cnt(),
        field(new_buf, 32, 24) == desc.common_spec().psn@,
        field(new_buf, 128, 24) == desc.common_spec().dqpn@,
        field(new_buf, 160, 32) == desc.imm_spec(),
{
    lemma2_to64();
    let fs = desc.layout()[1];
    let common = desc.common_spec();
    lemma_written_at(old_buf, new_buf, fs, 0, Field { lo: 0, width: 3, value: common.pmtu.code_spec() as u64 });
    lemma_written_at(old_buf, new_buf, fs, 2, Field { lo: 16, width: 4, value: common.qp_type.code_spec() as u64 });
    lemma_written_at(old_buf, new_buf, fs, 3, Field { lo: 24, width: 3, value: desc.sge_cnt() });
    lemma_written_at(old_buf, new_buf, fs, 4, Field { lo: 32, width: 24, value: common.psn@ as u64 });
    lemma_written_at(old_buf, new_buf, fs, 6, Field { lo: 128, width: 24, value: common.dqpn@ as u64 });
    lemma_written_at(old_buf, new_buf, fs, 7, Field { lo: 160, width: 32, value: desc.imm_spec() as u64 });
}

/// The segments of elements give the elements back, the first of the two in
/// the upper half; where there is none they give zero.
pub proof fn law_sge_segment_reads_back(
    low: Option<DescSge>,
    high: Option<DescSge>,
    old_buf: Seq<u8>,
    new_buf: Seq<u8>,
)
    requires
        written(old_buf, new_buf, sge_layout(low, high)),
    ensures
        low is Some ==> field(new_buf, 128, 32) == low->0.key@ && field(new_buf, 160, 32) == low->0.len && field(
            new_buf,
            192,
            64,
        ) == low->0.addr,
        low is None ==> field(new_buf, 128, 32) == 0 && field(new_buf, 160, 32) == 0 && field(new_buf, 192, 64) == 0,
        high is Some ==> field(new_buf, 0, 32) == high->0.key@ && field(new_buf, 32, 32) == high->0.len && field(
            new_buf,
            64,
            64,
        ) == high->0.addr,
        high is None ==> field(new_buf, 0, 32) == 0 && field(new_buf, 32, 32) == 0 && field(new_buf, 64, 64) == 0,
{
    lemma2_to64();
    let fs = sge_layout(low, high);
    lemma_written_at(old_buf, new_buf, fs, 0, fs[0]);
    lemma_written_at(old_buf, new_buf, fs, 1, fs[1]);
    lemma_written_at(old_buf, new_buf, fs, 2, fs[2]);
    lemma_written_at(old_buf, new_buf, fs, 3, fs[3]);
    lemma_written_at(old_buf, new_buf, fs, 4, fs[4]);
    lemma_written_at(old_buf, new_buf, fs, 5, fs[5]);
}

/// The number that an IPv4 address is on the wire.
pub open spec fn ipv4_number(ip: Ipv4Addr) -> int {
    ip.octets@[0] * 0x100_0000 + ip.octets@[1] * 0x1_0000 + ip.octets@[2] * 0x100 + ip.octets@[3]
}

/// The number that a MAC address is on the wire.
pub open spec fn mac_number(mac: MacAddress) -> int {
    mac.octets@[0] * 0x100_0000_0000 + mac.octets@[1] * 0x1_0000_0000 + mac.octets@[2] * 0x100_0000 + mac.octets@[3]
        * 0x1_0000 + mac.octets@[4] * 0x100 + mac.octets@[5]
}

/// The value of an IPv4 address is its number.
pub proof fn lemma_ipv4_number(ip: Ipv4Addr)
    ensures
        addr_value(ip.octets@) == ipv4_number(ip),
        0 <= ipv4_number(ip) <= 0xffff_ffff,
{
    reveal_with_fuel(be_value, 5);
}

/// The value of a MAC address is its number.
pub proof fn lemma_mac_number(mac: MacAddress)
    ensures
        addr_value(mac.octets@) == mac_number(mac),
        0 <= mac_number(mac) < pow2(48),
{
    lemma2_to64_rest();
    reveal_with_fuel(be_value, 7);
}

/// Where a work descriptor names its peer: the address of the host in the first
/// segment, the address on the link in the second one.
pub proof fn law_descriptor_names_the_peer(desc: ToCardWorkRbDesc, old_buf: Seq<u8>, new_buf: Seq<u8>)
    ensures
        written(old_buf, new_buf, desc.layout()[0]) ==> field(new_buf, 160, 32) == ipv4_number(
            desc.common_spec().dqp_ip,
        ),
        written(old_buf, new_buf, desc.layout()[1]) ==> field(new_buf, 64, 48) == mac_number(
            desc.common_spec().mac_addr,
        ),
        written(old_buf, new_buf, desc.layout()[1]) && desc.common_spec().flags@ < 32 ==> field(new_buf, 8, 5)
            == desc.common_spec().flags@,
{
    lemma2_to64();
    let common = desc.common_spec();
    lemma_ipv4_number(common.dqp_ip);
    lemma_mac_number(common.mac_addr);
    if written(old_buf, new_buf, desc.layout()[0]) {
        let fs = desc.layout()[0];
        lemma_written_at(old_buf, new_buf, fs, 9, fs[9]);
    }
    if written(old_buf, new_buf, desc.layout()[1]) {
        let fs = desc.layout()[1];
        lemma_written_at(old_buf, new_buf, fs, 5, fs[5]);
        if common.flags@ < 32 {
            lemma_written_at(old_buf, new_buf, fs, 1, fs[1]);
        }
    }
}

/// The first segment says what is asked for. A read is a transaction of its own;
/// of a write that takes several descriptors the first and the last are marked.
pub proof fn law_descriptor_names_its_kind(desc: ToCardWorkRbDesc, old_buf: Seq<u8>, new_buf: Seq<u8>)
    requires
        written(old_buf, new_buf, desc.layout()[0]),
    ensures
        match desc {
            ToCardWorkRbDesc::Write(d) => {
                &&& field(new_buf, 4, 4) == 0
                &&& field(new_buf, 2, 1) == 1 <==> d.is_first
                &&& field(new_buf, 3, 1) == 1 <==> d.is_last
                &&& field(new_buf, 32, 32) == d.common.total_len
                &&& field(new_buf, 64, 64) == d.common.raddr
                &&& field(new_buf, 8, 4) == (if d.sge2 is Some { 3nat } else { 2nat })
            },
            ToCardWorkRbDesc::WriteWithImm(d) => {
                &&& field(new_buf, 4, 4) == 1
                &&& field(new_buf, 2, 1) == 1 <==> d.is_first
                &&& field(new_buf, 3, 1) == 1 <==> d.is_last
                &&& field(new_buf, 32, 32) == d.common.total_len
                &&& field(new_buf, 64, 64) == d.common.raddr
                &&& field(new_buf, 8, 4) == (if d.sge2 is Some { 3nat } else { 2nat })
            },
            ToCardWorkRbDesc::Read(d) => {
                &&& field(new_buf, 4, 4) == 4
                &&& field(new_buf, 2, 1) == 1
                &&& field(new_buf, 3, 1) == 1
                &&& field(new_buf, 32, 32) == d.common.total_len
                &&& field(new_buf, 64, 64) == d.common.raddr
                &&& field(new_buf, 8, 4) == 2
            },
            ToCardWorkRbDesc::ReadResp(d) => {
                &&& field(new_buf, 4, 4) == 12
                &&& field(new_buf, 2, 1) == 1 <==> d.is_first
                &&& field(new_buf, 3, 1) == 1 <==> d.is_last
                &&& field(new_buf, 32, 32) == d.common.total_len
                &&& field(new_buf, 64, 64) == d.common.raddr
                &&& field(new_buf, 8, 4) == (if d.sge2 is Some { 3nat } else { 2nat })
            },
        },
{
    law_segment_0_reads_back(desc, old_buf, new_buf);
}

/// Element `k` of a descriptor: none where there are fewer.
pub open spec fn element_at(desc: ToCardWorkRbDesc, k: int) -> Option<DescSge> {
    match desc {
        ToCardWorkRbDesc::Read(d) => if k == 0 {
            Some(d.sge)
        } else {
            None
        },
        ToCardWorkRbDesc::Write(d) | ToCardWorkRbDesc::ReadResp(d) => if k == 0 {
            Some(d.sge0)
        } else if k == 1 {
            d.sge1
        } else if k == 2 {
            d.sge2
        } else {
            d.sge3
        },
        ToCardWorkRbDesc::WriteWithImm(d) => if k == 0 {
            Some(d.sge0)
        } else if k == 1 {
            d.sge1
        } else if k == 2 {
            d.sge2
        } else {
            d.sge3
        },
    }
}

/// The third and the fourth segment carry two elements each, the earlier one in
/// the upper half.
pub proof fn law_elements_read_back(desc: ToCardWorkRbDesc, old_buf: Seq<u8>, new_buf: Seq<u8>, k: int)
    requires
        0 <= k < 4,
        element_at(desc, k) is Some,
        written(old_buf, new_buf, desc.layout()[2 + k / 2]),
    ensures
        ({
            let sge = element_at(desc, k)->0;
            let at = if k % 2 == 0 { 128int } else { 0int };
            &&& field(new_buf, at, 32) == sge.key@
            &&& field(new_buf, at + 32, 32) == sge.len
            &&& field(new_buf, at + 64, 64) == sge.addr
        }),
{
    let s = desc.sges_spec();
    if k < 2 {
        law_sge_segment_reads_back(Some(s.0), s.1, old_buf, new_buf);
    } else {
        law_sge_segment_reads_back(s.2, s.3, old_buf, new_buf);
    }
}

/// The outcome of a request, as the card reports it
#[derive(Debug, Clone, Copy, PartialEq, Eq, Structural)]
pub enum ToHostWorkRbDescStatus {
    /// Normal status
    Normal,
    /// Invalid access flag
    InvAccFlag,
    /// Invalid opcode
    InvOpcode,
    /// Invalid MR key
    InvMrKey,
    /// Invalid MR region
    InvMrRegion,
    /// Unknown error
    Unknown,
}

impl Default for ToHostWorkRbDescStatus {
    fn default() -> (r: Self)
        ensures
            r == ToHostWorkRbDescStatus::Normal,
    {
        Self::Normal
    }
}

impl ToHostWorkRbDescStatus {
    /// The status that has the given number
    pub open spec fn of_code(code: u8) -> Option<Self> {
        match code {
            1 => Some(ToHostWorkRbDescStatus::Normal),
            2 => Some(ToHostWorkRbDescStatus::InvAccFlag),
            3 => Some(ToHostWorkRbDescStatus::InvOpcode),
            4 => Some(ToHostWorkRbDescStatus::InvMrKey),
            5 => Some(ToHostWorkRbDescStatus::InvMrRegion),
            6 => Some(ToHostWorkRbDescStatus::Unknown),
            _ => None,
        }
    }

    /// The status that has the given number
    pub fn try_from_code(code: u8) -> (r: Option<Self>)
        ensures
            r == Self::of_code(code),
    {
        match code {
            1 => Some(ToHostWorkRbDescStatus::Normal),
            2 => Some(ToHostWorkRbDescStatus::InvAccFlag),
            3 => Some(ToHostWorkRbDescStatus::InvOpcode),
            4 => Some(ToHostWorkRbDescStatus::InvMrKey),
            5 => Some(ToHostWorkRbDescStatus::InvMrRegion),
            6 => Some(ToHostWorkRbDescStatus::Unknown),
            _ => None,
        }
    }

    /// Whether the request went well
    pub fn is_ok(&self) -> (r: bool)
        ensures
            r == (*self == ToHostWorkRbDescStatus::Normal),
    {
        matches!(self, ToHostWorkRbDescStatus::Normal)
    }
}

/// Transport types
#[derive(Debug, Clone, Copy, PartialEq, Eq, Structural)]
pub enum ToHostWorkRbDescTransType {
    Rc,
    Uc,
    Rd,
    Ud,
    Cnp,
    Xrc,
    /// For packets that are not RDMA
    DtldExtended,
}

impl Default for ToHostWorkRbDescTransType {
    fn default() -> (r: Self)
        ensures
            r == ToHostWorkRbDescTransType::Rc,
    {
        Self::Rc
    }
}

impl ToHostWorkRbDescTransType {
    /// The type that has the given number
    pub open spec fn of_code(code: u8) -> Option<Self> {
        match code {
            0 => Some(ToHostWorkRbDescTransType::Rc),
            1 => Some(ToHostWorkRbDescTransType::Uc),
            2 => Some(ToHostWorkRbDescTransType::Rd),
            3 => Some(ToHostWorkRbDescTransType::Ud),
            4 => Some(ToHostWorkRbDescTransType::Cnp),
            5 => Some(ToHostWorkRbDescTransType::Xrc),
            6 => Some(ToHostWorkRbDescTransType::DtldExtended),
            _ => None,
        }
    }

    /// The type that has the given number
    pub fn try_from_code(code: u8) -> (r: Option<Self>)
        ensures
            r == Self::of_code(code),
    {
        match code {
            0 => Some(ToHostWorkRbDescTransType::Rc),
            1 => Some(ToHostWorkRbDescTransType::Uc),
            2 => Some(ToHostWorkRbDescTransType::Rd),
            3 => Some(ToHostWorkRbDescTransType::Ud),
            4 => Some(ToHostWorkRbDescTransType::Cnp),
            5 => Some(ToHostWorkRbDescTransType::Xrc),
            6 => Some(ToHostWorkRbDescTransType::DtldExtended),
            _ => None,
        }
    }
}

/// Which packet of a write it is
#[derive(Debug, Clone, Copy, PartialEq, Eq, Structural)]
pub enum ToHostWorkRbDescWriteType {
    First,
    Middle,
    Last,
    Only,
}

/// Opcodes of received packets
#[derive(Debug, Clone, Copy, PartialEq, Eq, Structural)]
pub enum ToHostWorkRbDescOpcode {
    RdmaWriteFirst,
    RdmaWriteMiddle,
    RdmaWriteLast,
    RdmaWriteLastWithImmediate,
    RdmaWriteOnly,
    RdmaWriteOnlyWithImmediate,
    RdmaReadResponseFirst,
    RdmaReadResponseMiddle,
    RdmaReadResponseLast,
    RdmaReadResponseOnly,
    RdmaReadRequest,
    Acknowledge,
}

impl ToHostWorkRbDescOpcode {
    /// The number that stands for the opcode in a packet
    pub open spec fn code_spec(self) -> u8 {
        match self {
            ToHostWorkRbDescOpcode::RdmaWriteFirst => 0x06,
            ToHostWorkRbDescOpcode::RdmaWriteMiddle => 0x07,
            ToHostWorkRbDescOpcode::RdmaWriteLast => 0x08,
            ToHostWorkRbDescOpcode::RdmaWriteLastWithImmediate => 0x09,
            ToHostWorkRbDescOpcode::RdmaWriteOnly => 0x0a,
            ToHostWorkRbDescOpcode::RdmaWriteOnlyWithImmediate => 0x0b,
            ToHostWorkRbDescOpcode::RdmaReadRequest => 0x0c,
            ToHostWorkRbDescOpcode::RdmaReadResponseFirst => 0x0d,
            ToHostWorkRbDescOpcode::RdmaReadResponseMiddle => 0x0e,
            ToHostWorkRbDescOpcode::RdmaReadResponseLast => 0x0f,
            ToHostWorkRbDescOpcode::RdmaReadResponseOnly => 0x10,
            ToHostWorkRbDescOpcode::Acknowledge => 0x11,
        }
    }

    /// The opcode that has the given number
    pub open spec fn of_code(code: u8) -> Option<Self> {
        match code {
            0x06 => Some(ToHostWorkRbDescOpcode::RdmaWriteFirst),
            0x07 => Some(ToHostWorkRbDescOpcode::RdmaWriteMiddle),
            0x08 => Some(ToHostWorkRbDescOpcode::RdmaWriteLast),
            0x09 => Some(ToHostWorkRbDescOpcode::RdmaWriteLastWithImmediate),
            0x0a => Some(ToHostWorkRbDescOpcode::RdmaWriteOnly),
            0x0b => Some(ToHostWorkRbDescOpcode::RdmaWriteOnlyWithImmediate),
            0x0c => Some(ToHostWorkRbDescOpcode::RdmaReadRequest),
            0x0d => Some(ToHostWorkRbDescOpcode::RdmaReadResponseFirst),
            0x0e => Some(ToHostWorkRbDescOpcode::RdmaReadResponseMiddle),
            0x0f => Some(ToHostWorkRbDescOpcode::RdmaReadResponseLast),
            0x10 => Some(ToHostWorkRbDescOpcode::RdmaReadResponseOnly),
            0x11 => Some(ToHostWorkRbDescOpcode::Acknowledge),
            _ => None,
        }
    }

    /// The opcode that has the given number
    pub fn try_from_code(code: u8) -> (r: Option<Self>)
        ensures
            r == Self::of_code(code),
    {
        match code {
            0x06 => Some(ToHostWorkRbDescOpcode::RdmaWriteFirst),
            0x07 => Some(ToHostWorkRbDescOpcode::RdmaWriteMiddle),
            0x08 => Some(ToHostWorkRbDescOpcode::RdmaWriteLast),
            0x09 => Some(ToHostWorkRbDescOpcode::RdmaWriteLastWithImmediate),
            0x0a => Some(ToHostWorkRbDescOpcode::RdmaWriteOnly),
            0x0b => Some(ToHostWorkRbDescOpcode::RdmaWriteOnlyWithImmediate),
            0x0c => Some(ToHostWorkRbDescOpcode::RdmaReadRequest),
            0x0d => Some(ToHostWorkRbDescOpcode::RdmaReadResponseFirst),
            0x0e => Some(ToHostWorkRbDescOpcode::RdmaReadResponseMiddle),
            0x0f => Some(ToHostWorkRbDescOpcode::RdmaReadResponseLast),
            0x10 => Some(ToHostWorkRbDescOpcode::RdmaReadResponseOnly),
            0x11 => Some(ToHostWorkRbDescOpcode::Acknowledge),
            _ => None,
        }
    }

    /// The number of an opcode stands for that opcode and no other.
    pub proof fn law_opcode_codes(self, code: u8)
        ensures
            Self::of_code(self.code_spec()) == Some(self),
            Self::of_code(code) is Some ==> Self::of_code(code)->0.code_spec() == code,
    {
    }

    /// Whether the packet starts a message of several packets
    pub open spec fn is_first_spec(self) -> bool {
        self == ToHostWorkRbDescOpcode::RdmaWriteFirst || self == ToHostWorkRbDescOpcode::RdmaReadResponseFirst
    }

    /// Whether the packet answers a read request
    pub open spec fn is_resp_spec(self) -> bool {
        self == ToHostWorkRbDescOpcode::RdmaReadResponseFirst || self
            == ToHostWorkRbDescOpcode::RdmaReadResponseMiddle || self
            == ToHostWorkRbDescOpcode::RdmaReadResponseLast || self
            == ToHostWorkRbDescOpcode::RdmaReadResponseOnly
    }

    /// Which packet of a write it is, if it is one
    pub open spec fn write_type_spec(self) -> Option<ToHostWorkRbDescWriteType> {
        match self {
            ToHostWorkRbDescOpcode::RdmaWriteFirst | ToHostWorkRbDescOpcode::RdmaReadResponseFirst => Some(
                ToHostWorkRbDescWriteType::First,
            ),
            ToHostWorkRbDescOpcode::RdmaWriteMiddle | ToHostWorkRbDescOpcode::RdmaReadResponseMiddle => Some(
                ToHostWorkRbDescWriteType::Middle,
            ),
            ToHostWorkRbDescOpcode::RdmaWriteLast
            | ToHostWorkRbDescOpcode::RdmaWriteLastWithImmediate
            | ToHostWorkRbDescOpcode::RdmaReadResponseLast => Some(ToHostWorkRbDescWriteType::Last),
            ToHostWorkRbDescOpcode::RdmaWriteOnlyWithImmediate
            | ToHostWorkRbDescOpcode::RdmaWriteOnly
            | ToHostWorkRbDescOpcode::RdmaReadResponseOnly => Some(ToHostWorkRbDescWriteType::Only),
            ToHostWorkRbDescOpcode::RdmaReadRequest | ToHostWorkRbDescOpcode::Acknowledge => None,
        }
    }

    /// Whether the packet starts a message of several packets
    pub fn is_first(&self) -> (r: bool)
        ensures
            r == self.is_first_spec(),
    {
        matches!(
            self,
            ToHostWorkRbDescOpcode::RdmaWriteFirst | ToHostWorkRbDescOpcode::RdmaReadResponseFirst
        )
    }

    /// Whether the packet answers a request
    pub fn is_resp(&self) -> (r: bool)
        ensures
            r == self.is_resp_spec(),
    {
        matches!(
            self,
            ToHostWorkRbDescOpcode::RdmaReadResponseFirst
                | ToHostWorkRbDescOpcode::RdmaReadResponseMiddle
                | ToHostWorkRbDescOpcode::RdmaReadResponseLast
                | ToHostWorkRbDescOpcode::RdmaReadResponseOnly
        )
    }

    /// Whether the packet answers a read request
    pub fn is_read_resp(&self) -> (r: bool)
        ensures
            r == self.is_resp_spec(),
    {
        self.is_resp()
    }

    /// Which packet of a write it is, if it is one
    pub fn write_type(&self) -> (r: Option<ToHostWorkRbDescWriteType>)
        ensures
            r == self.write_type_spec(),
    {
        match self {
            ToHostWorkRbDescOpcode::RdmaWriteFirst | ToHostWorkRbDescOpcode::RdmaReadResponseFirst => Some(
                ToHostWorkRbDescWriteType::First,
            ),
            ToHostWorkRbDescOpcode::RdmaWriteMiddle | ToHostWorkRbDescOpcode::RdmaReadResponseMiddle => Some(
                ToHostWorkRbDescWriteType::Middle,
            ),
            ToHostWorkRbDescOpcode::RdmaWriteLast
            | ToHostWorkRbDescOpcode::RdmaWriteLastWithImmediate
            | ToHostWorkRbDescOpcode::RdmaReadResponseLast => Some(ToHostWorkRbDescWriteType::Last),
            ToHostWorkRbDescOpcode::RdmaWriteOnlyWithImmediate
            | ToHostWorkRbDescOpcode::RdmaWriteOnly
            | ToHostWorkRbDescOpcode::RdmaReadResponseOnly => Some(ToHostWorkRbDescWriteType::Only),
            ToHostWorkRbDescOpcode::RdmaReadRequest | ToHostWorkRbDescOpcode::Acknowledge => None,
        }
    }
}

/// Codes of acknowledgements
#[derive(Debug, Clone, Copy, PartialEq, Eq, Structural)]
pub enum ToHostWorkRbDescAethCode {
    Ack,
    Rnr,
    Rsvd,
    Nak,
}

impl Default for ToHostWorkRbDescAethCode {
    fn default() -> (r: Self)
        ensures
            r == ToHostWorkRbDescAethCode::Rsvd,
    {
        Self::Rsvd
    }
}

impl ToHostWorkRbDescAethCode {
    /// The code that has the given number
    pub open spec fn of_code(code: u8) -> Option<Self> {
        match code {
            0 => Some(ToHostWorkRbDescAethCode::Ack),
            1 => Some(ToHostWorkRbDescAethCode::Rnr),
            2 => Some(ToHostWorkRbDescAethCode::Rsvd),
            3 => Some(ToHostWorkRbDescAethCode::Nak),
            _ => None,
        }
    }

    /// The code that has the given number
    pub fn try_from_code(code: u8) -> (r: Option<Self>)
        ensures
            r == Self::of_code(code),
    {
        match code {
            0 => Some(ToHostWorkRbDescAethCode::Ack),
            1 => Some(ToHostWorkRbDescAethCode::Rnr),
            2 => Some(ToHostWorkRbDescAethCode::Rsvd),
            3 => Some(ToHostWorkRbDescAethCode::Nak),
            _ => None,
        }
    }
}

/// Common fields of a work descriptor for the host
#[derive(Debug, Clone, Copy, PartialEq, Eq, Structural)]
pub struct ToHostWorkRbDescCommon {
    /// status of the descriptor
    pub status: ToHostWorkRbDescStatus,
    /// transport type
    pub trans: ToHostWorkRbDescTransType,
    /// destination qp number
    pub dqpn: Qpn,
    /// MSN
    pub msn: Msn,
    /// expected PSN
    pub expected_psn: Psn,
}

impl Default for ToHostWorkRbDescCommon {
    fn default() -> (r: Self)
        ensures
            r == (ToHostWorkRbDescCommon {
                status: ToHostWorkRbDescStatus::Normal,
                trans: ToHostWorkRbDescTransType::Rc,
                dqpn: ThreeBytesStruct::of(0),
                msn: Msn::of(0),
                expected_psn: ThreeBytesStruct::of(0),
            }),
    {
        Self {
            status: ToHostWorkRbDescStatus::Normal,
            trans: ToHostWorkRbDescTransType::Rc,
            dqpn: Qpn::default(),
            msn: Msn::default(),
            expected_psn: Psn::default(),
        }
    }
}

/// A read request of the peer
#[derive(Debug, Clone, Copy, PartialEq, Eq, Structural)]
pub struct ToHostWorkRbDescRead {
    pub common: ToHostWorkRbDescCommon,
    /// length of the payload
    pub len: u32,
    /// local address
    pub laddr: u64,
    /// local key
    pub lkey: Key,
    /// remote address
    pub raddr: u64,
    /// remote key
    pub rkey: Key,
}

impl Default for ToHostWorkRbDescRead {
    fn default() -> (r: Self)
        ensures
            r.len == 0 && r.laddr == 0 && r.raddr == 0 && r.lkey@ == 0 && r.rkey@ == 0,
            r.common.status == ToHostWorkRbDescStatus::Normal,
            r.common.trans == ToHostWorkRbDescTransType::Rc,
            r.common.dqpn@ == 0 && r.common.msn@ == 0 && r.common.expected_psn@ == 0,
    {
        proof {
            ThreeBytesStruct::lemma_of(0);
            Msn::lemma_of(0);
        }
        Self {
            common: ToHostWorkRbDescCommon::default(),
            len: 0,
            laddr: 0,
            lkey: Key::default(),
            raddr: 0,
            rkey: Key::default(),
        }
    }
}

/// A packet of a write of the peer, or of its answer to a read
#[derive(Debug, Clone, Copy, PartialEq, Eq, Structural)]
pub struct ToHostWorkRbDescWriteOrReadResp {
    pub common: ToHostWorkRbDescCommon,
    /// Is this a read response?
    pub is_read_resp: bool,
    /// Write type
    pub write_type: ToHostWorkRbDescWriteType,
    /// PSN
    pub psn: Psn,
    /// Write address
    pub addr: u64,
    /// Write length
    pub len: u32,
    /// Can hardware auto ack
    pub can_auto_ack: bool,
}

impl Default for ToHostWorkRbDescWriteOrReadResp {
    fn default() -> (r: Self)
        ensures
            !r.is_read_resp && !r.can_auto_ack && r.addr == 0 && r.len == 0 && r.psn@ == 0,
            r.write_type == ToHostWorkRbDescWriteType::Only,
            r.common.status == ToHostWorkRbDescStatus::Normal,
            r.common.trans == ToHostWorkRbDescTransType::Rc,
            r.common.dqpn@ == 0 && r.common.msn@ == 0 && r.common.expected_psn@ == 0,
    {
        proof {
            ThreeBytesStruct::lemma_of(0);
            Msn::lemma_of(0);
        }
        Self {
            common: ToHostWorkRbDescCommon::default(),
            is_read_resp: false,
            write_type: ToHostWorkRbDescWriteType::Only,
            psn: Psn::default(),
            addr: 0,
            len: 0,
            can_auto_ack: false,
        }
    }
}

/// The last packet of a write with immediate data
#[derive(Debug, Clone, Copy, PartialEq, Eq, Structural)]
pub struct ToHostWorkRbDescWriteWithImm {
    pub common: ToHostWorkRbDescCommon,
    /// Write type
    pub write_type: ToHostWorkRbDescWriteType,
    /// PSN
    pub psn: Psn,
    /// Immediate data
    pub imm: u32,
    /// Write address
    pub addr: u64,
    /// Write length
    pub len: u32,
    /// Write key
    pub key: Key,
}

/// An acknowledgement
#[derive(Debug, Clone, Copy, PartialEq, Eq, Structural)]
pub struct ToHostWorkRbDescAck {
    pub common: ToHostWorkRbDescCommon,
    /// MSN
    pub msn: Msn,
    /// The value beside the code
    pub value: u8,
    /// PSN
    pub psn: Psn,
    /// AETH code
    pub code: ToHostWorkRbDescAethCode,
    /// The last PSN to be sent again
    pub retry_psn: Psn,
}

impl Default for ToHostWorkRbDescAck {
    fn default() -> (r: Self)
        ensures
            r.msn@ == 0 && r.value == 0 && r.psn@ == 0 && r.retry_psn@ == 0,
            r.code == ToHostWorkRbDescAethCode::Rsvd,
            r.common.status == ToHostWorkRbDescStatus::Normal,
            r.common.trans == ToHostWorkRbDescTransType::Rc,
            r.common.dqpn@ == 0 && r.common.msn@ == 0 && r.common.expected_psn@ == 0,
    {
        proof {
            ThreeBytesStruct::lemma_of(0);
            Msn::lemma_of(0);
        }
        Self {
            common: ToHostWorkRbDescCommon::default(),
            msn: Msn::default(),
            value: 0,
            psn: Psn::default(),
            code: ToHostWorkRbDescAethCode::default(),
            retry_psn: Psn::default(),
        }
    }
}

/// A negative acknowledgement: the packets from `lost_from` up to `lost_to`
/// did not arrive
#[derive(Debug, Clone, Copy, PartialEq, Eq, Structural)]
pub struct ToHostWorkRbDescNack {
    pub common: ToHostWorkRbDescCommon,
    /// MSN
    pub msn: Msn,
    /// The value beside the code
    pub value: u8,
    /// The first lost packet
    pub lost_from: Psn,
    /// Where the lost packets end
    pub lost_to: Psn,
}

/// A packet that is not RDMA
#[derive(Debug, Clone, Copy, PartialEq, Eq, Structural)]
pub struct ToHostWorkRbDescRaw {
    pub common: ToHostWorkRbDescCommon,
    /// Raw data address
    pub addr: u64,
    /// Raw data length
    pub len: u32,
    /// Raw data lkey
    pub key: Key,
}

impl Default for ToHostWorkRbDescRaw {
    fn default() -> (r: Self)
        ensures
            r.addr == 0 && r.len == 0 && r.key@ == 0,
            r.common.status == ToHostWorkRbDescStatus::Normal,
            r.common.trans == ToHostWorkRbDescTransType::Rc,
            r.common.dqpn@ == 0 && r.common.msn@ == 0 && r.common.expected_psn@ == 0,
    {
        proof {
            ThreeBytesStruct::lemma_of(0);
            Msn::lemma_of(0);
        }
        Self { common: ToHostWorkRbDescCommon::default(), addr: 0, len: 0, key: Key::default() }
    }
}

/// Work descriptor for the host
#[derive(Debug, Clone, Copy, PartialEq, Eq, Structural)]
pub enum ToHostWorkRbDesc {
    Read(ToHostWorkRbDescRead),
    WriteOrReadResp(ToHostWorkRbDescWriteOrReadResp),
    WriteWithImm(ToHostWorkRbDescWriteWithImm),
    Ack(ToHostWorkRbDescAck),
    Nack(ToHostWorkRbDescNack),
    Raw(ToHostWorkRbDescRaw),
}

/// A descriptor of which the first of two slots was read
///
/// Most descriptors take only one slot, but a read request and a raw packet
/// take two.
#[derive(Debug, Clone, Copy, PartialEq, Eq, Structural)]
pub enum IncompleteToHostWorkRbDesc {
    Read(ToHostWorkRbDescRead),
    Raw(ToHostWorkRbDescRaw),
}

/// Why a slot gave no descriptor
#[derive(Debug, Clone, Copy, PartialEq, Eq, Structural)]
pub enum ToHostWorkRbDescError {
    /// The next slot is needed
    Incomplete(IncompleteToHostWorkRbDesc),
    /// The slot holds a number that has no meaning
    DeviceError(DeviceError),
}

/// The numbers in a slot that reports a received packet
#[derive(Debug, Clone, Copy, PartialEq, Eq, Structural)]
pub struct MetaReport {
    pub expected_psn: u32,
    pub status: u8,
    pub trans: u8,
    pub opcode: u8,
    pub qpn: u32,
    pub psn: u32,
    pub va: u64,
    pub rkey: u32,
    pub dlen: u32,
    pub msn: u16,
    pub imm: u32,
    pub can_auto_ack: bool,
    pub aeth_psn: u32,
    pub aeth_msn: u16,
    pub aeth_value: u8,
    pub aeth_code: u8,
}

/// Where the numbers of a slot stand.
pub open spec fn meta_report(s: Seq<u8>) -> MetaReport {
    MetaReport {
        expected_psn: field(s, 0, 24) as u32,
        status: field(s, 24, 8) as u8,
        trans: field(s, 32, 3) as u8,
        opcode: field(s, 35, 5) as u8,
        qpn: field(s, 40, 24) as u32,
        psn: field(s, 64, 24) as u32,
        va: field(s, 96, 64) as u64,
        rkey: field(s, 160, 32) as u32,
        dlen: field(s, 192, 32) as u32,
        msn: field(s, 224, 16) as u16,
        imm: field(s, 224, 32) as u32,
        can_auto_ack: field(s, 255, 1) == 1,
        aeth_psn: field(s, 96, 24) as u32,
        aeth_msn: field(s, 120, 16) as u16,
        aeth_value: field(s, 144, 5) as u8,
        aeth_code: field(s, 149, 3) as u8,
    }
}

/// Reads the numbers of a slot.
pub fn read_meta_report(src: &[u8]) -> (r: MetaReport)
    requires
        src@.len() >= DESC_SIZE,
    ensures
        r == meta_report(src@),
        r.expected_psn <= 0xff_ffff,
        r.qpn <= 0xff_ffff,
        r.psn <= 0xff_ffff,
        r.aeth_psn <= 0xff_ffff,
{
    proof {
        lemma2_to64();
    }
    MetaReport {
        expected_psn: get_bits(src, 0, 24) as u32,
        status: get_bits(src, 24, 8) as u8,
        trans: get_bits(src, 32, 3) as u8,
        opcode: get_bits(src, 35, 5) as u8,
        qpn: get_bits(src, 40, 24) as u32,
        psn: get_bits(src, 64, 24) as u32,
        va: get_bits(src, 96, 64),
        rkey: get_bits(src, 160, 32) as u32,
        dlen: get_bits(src, 192, 32) as u32,
        msn: get_bits(src, 224, 16) as u16,
        imm: get_bits(src, 224, 32) as u32,
        can_auto_ack: get_bits(src, 255, 1) == 1,
        aeth_psn: get_bits(src, 96, 24) as u32,
        aeth_msn: get_bits(src, 120, 16) as u16,
        aeth_value: get_bits(src, 144, 5) as u8,
        aeth_code: get_bits(src, 149, 3) as u8,
    }
}

/// What the numbers of a slot mean.
pub open spec fn parse_report(m: MetaReport) -> Result<ToHostWorkRbDesc, ToHostWorkRbDescError> {
    let status = ToHostWorkRbDescStatus::of_code(m.status);
    let trans = ToHostWorkRbDescTransType::of_code(m.trans);
    let opcode = ToHostWorkRbDescOpcode::of_code(m.opcode);
    let code = ToHostWorkRbDescAethCode::of_code(m.aeth_code);
    if status is None {
        Err(ToHostWorkRbDescError::DeviceError(DeviceError::ParseDesc(DescField::Status, m.status)))
    } else if trans is None {
        Err(ToHostWorkRbDescError::DeviceError(DeviceError::ParseDesc(DescField::TransType, m.trans)))
    } else if opcode is None {
        Err(ToHostWorkRbDescError::DeviceError(DeviceError::ParseDesc(DescField::Opcode, m.opcode)))
    } else {
        let op = opcode->0;
        let common = ToHostWorkRbDescCommon {
            status: status->0,
            trans: trans->0,
            dqpn: ThreeBytesStruct::of(m.qpn),
            msn: Msn::of(m.msn),
            expected_psn: ThreeBytesStruct::of(m.expected_psn),
        };
        if op == ToHostWorkRbDescOpcode::Acknowledge {
            if code is None {
                Err(ToHostWorkRbDescError::DeviceError(DeviceError::ParseDesc(DescField::AethCode, m.aeth_code)))
            } else if code->0 == ToHostWorkRbDescAethCode::Nak {
                Ok(
                    ToHostWorkRbDesc::Nack(
                        ToHostWorkRbDescNack {
                            common,
                            msn: Msn::of(m.aeth_msn),
                            value: m.aeth_value,
                            lost_from: ThreeBytesStruct::of(m.psn),
                            lost_to: ThreeBytesStruct::of(m.aeth_psn),
                        },
                    ),
                )
            } else {
                Ok(
                    ToHostWorkRbDesc::Ack(
                        ToHostWorkRbDescAck {
                            common,
                            msn: Msn::of(m.aeth_msn),
                            value: m.aeth_value,
                            psn: ThreeBytesStruct::of(m.psn),
                            code: code->0,
                            retry_psn: ThreeBytesStruct::of(m.aeth_psn),
                        },
                    ),
                )
            }
        } else if op == ToHostWorkRbDescOpcode::RdmaReadRequest {
            Err(
                ToHostWorkRbDescError::Incomplete(
                    IncompleteToHostWorkRbDesc::Read(
                        ToHostWorkRbDescRead {
                            common,
                            len: m.dlen,
                            laddr: m.va,
                            lkey: Key::of(m.rkey),
                            raddr: 0,
                            rkey: Key::of(0),
                        },
                    ),
                ),
            )
        } else if op == ToHostWorkRbDescOpcode::RdmaWriteLastWithImmediate || op
            == ToHostWorkRbDescOpcode::RdmaWriteOnlyWithImmediate {
            if trans->0 == ToHostWorkRbDescTransType::DtldExtended {
                Err(
                    ToHostWorkRbDescError::Incomplete(
                        IncompleteToHostWorkRbDesc::Raw(
                            ToHostWorkRbDescRaw { common, addr: m.va, len: m.dlen, key: Key::of(m.rkey) },
                        ),
                    ),
                )
            } else {
                Ok(
                    ToHostWorkRbDesc::WriteWithImm(
                        ToHostWorkRbDescWriteWithImm {
                            common,
                            write_type: op.write_type_spec()->0,
                            psn: ThreeBytesStruct::of(m.psn),
                            imm: m.imm,
                            addr: m.va,
                            len: m.dlen,
                            key: Key::of(m.rkey),
                        },
                    ),
                )
            }
        } else {
            Ok(
                ToHostWorkRbDesc::WriteOrReadResp(
                    ToHostWorkRbDescWriteOrReadResp {
                        common,
                        is_read_resp: op.is_resp_spec(),
                        write_type: op.write_type_spec()->0,
                        psn: ThreeBytesStruct::of(m.psn),
                        addr: m.va,
                        len: m.dlen,
                        can_auto_ack: m.can_auto_ack,
                    },
                ),
            )
        }
    }
}

impl ToHostWorkRbDesc {
    /// The outcome that the descriptor reports
    pub open spec fn status_spec(self) -> ToHostWorkRbDescStatus {
        match self {
            ToHostWorkRbDesc::Read(desc) => desc.common.status,
            ToHostWorkRbDesc::WriteOrReadResp(desc) => desc.common.status,
            ToHostWorkRbDesc::WriteWithImm(desc) => desc.common.status,
            ToHostWorkRbDesc::Ack(desc) => desc.common.status,
            ToHostWorkRbDesc::Nack(desc) => desc.common.status,
            ToHostWorkRbDesc::Raw(desc) => desc.common.status,
        }
    }

    /// The outcome that the descriptor reports
    pub fn status(&self) -> (r: &ToHostWorkRbDescStatus)
        ensures
            *r == self.status_spec(),
    {
        match self {
            ToHostWorkRbDesc::Read(desc) => &desc.common.status,
            ToHostWorkRbDesc::WriteOrReadResp(desc) => &desc.common.status,
            ToHostWorkRbDesc::WriteWithImm(desc) => &desc.common.status,
            ToHostWorkRbDesc::Ack(desc) => &desc.common.status,
            ToHostWorkRbDesc::Nack(desc) => &desc.common.status,
            ToHostWorkRbDesc::Raw(desc) => &desc.common.status,
        }
    }

    /// Reads a slot that reports a received packet.
    pub fn read(src: &[u8]) -> (r: Result<ToHostWorkRbDesc, ToHostWorkRbDescError>)
        requires
            src@.len() >= DESC_SIZE,
        ensures
            r == parse_report(meta_report(src@)),
    {
        let m: MetaReport = read_meta_report(src);
        let status = match ToHostWorkRbDescStatus::try_from_code(m.status) {
            Some(status) => status,
            None => return Err(
                ToHostWorkRbDescError::DeviceError(DeviceError::ParseDesc(DescField::Status, m.status)),
            ),
        };
        let trans = match ToHostWorkRbDescTransType::try_from_code(m.trans) {
            Some(trans) => trans,
            None => return Err(
                ToHostWorkRbDescError::DeviceError(DeviceError::ParseDesc(DescField::TransType, m.trans)),
            ),
        };
        let opcode = match ToHostWorkRbDescOpcode::try_from_code(m.opcode) {
            Some(opcode) => opcode,
            None => return Err(
                ToHostWorkRbDescError::DeviceError(DeviceError::ParseDesc(DescField::Opcode, m.opcode)),
            ),
        };
        let psn = Psn::new(m.psn);
        let key = Key::new(m.rkey);
        let common = ToHostWorkRbDescCommon {
            status,
            trans,
            dqpn: Qpn::new(m.qpn),
            msn: Msn::new(m.msn),
            expected_psn: Psn::new(m.expected_psn),
        };
        let is_read_resp: bool = opcode.is_read_resp();
        // Only the opcodes of writes use it.
        let write_type = match opcode.write_type() {
            Some(write_type) => write_type,
            None => ToHostWorkRbDescWriteType::Only,
        };
        match opcode {
            ToHostWorkRbDescOpcode::RdmaWriteFirst
            | ToHostWorkRbDescOpcode::RdmaWriteMiddle
            | ToHostWorkRbDescOpcode::RdmaWriteLast
            | ToHostWorkRbDescOpcode::RdmaWriteOnly
            | ToHostWorkRbDescOpcode::RdmaReadResponseFirst
            | ToHostWorkRbDescOpcode::RdmaReadResponseMiddle
            | ToHostWorkRbDescOpcode::RdmaReadResponseLast
            | ToHostWorkRbDescOpcode::RdmaReadResponseOnly => Ok(
                ToHostWorkRbDesc::WriteOrReadResp(
                    ToHostWorkRbDescWriteOrReadResp {
                        common,
                        is_read_resp,
                        write_type,
                        psn,
                        addr: m.va,
                        len: m.dlen,
                        can_auto_ack: m.can_auto_ack,
                    },
                ),
            ),
            ToHostWorkRbDescOpcode::RdmaWriteLastWithImmediate
            | ToHostWorkRbDescOpcode::RdmaWriteOnlyWithImmediate => {
                if matches!(trans, ToHostWorkRbDescTransType::DtldExtended) {
                    Err(
                        ToHostWorkRbDescError::Incomplete(
                            IncompleteToHostWorkRbDesc::Raw(
                                ToHostWorkRbDescRaw { common, addr: m.va, len: m.dlen, key },
                            ),
                        ),
                    )
                } else {
                    Ok(
                        ToHostWorkRbDesc::WriteWithImm(
                            ToHostWorkRbDescWriteWithImm {
                                common,
                                write_type,
                                psn,
                                imm: m.imm,
                                addr: m.va,
                                len: m.dlen,
                                key,
                            },
                        ),
                    )
                }
            },
            ToHostWorkRbDescOpcode::RdmaReadRequest => Err(
                ToHostWorkRbDescError::Incomplete(
                    IncompleteToHostWorkRbDesc::Read(
                        ToHostWorkRbDescRead {
                            common,
                            len: m.dlen,
                            laddr: m.va,
                            lkey: key,
                            raddr: 0,
                            rkey: Key::default(),
                        },
                    ),
                ),
            ),
            ToHostWorkRbDescOpcode::Acknowledge => {
                let code = match ToHostWorkRbDescAethCode::try_from_code(m.aeth_code) {
                    Some(code) => code,
                    None => return Err(
                        ToHostWorkRbDescError::DeviceError(
                            DeviceError::ParseDesc(DescField::AethCode, m.aeth_code),
                        ),
                    ),
                };
                let last_psn = Psn::new(m.aeth_psn);
                let msn_in_ack = Msn::new(m.aeth_msn);
                match code {
                    ToHostWorkRbDescAethCode::Nak => Ok(
                        ToHostWorkRbDesc::Nack(
                            ToHostWorkRbDescNack {
                                common,
                                msn: msn_in_ack,
                                value: m.aeth_value,
                                lost_from: psn,
                                lost_to: last_psn,
                            },
                        ),
                    ),
                    _ => Ok(
                        ToHostWorkRbDesc::Ack(
                            ToHostWorkRbDescAck {
                                common,
                                msn: msn_in_ack,
                                value: m.aeth_value,
                                psn,
                                code,
                                retry_psn: last_psn,
                            },
                        ),
                    ),
                }
            },
        }
    }
}

impl IncompleteToHostWorkRbDesc {
    /// The descriptor, once the second slot `s` is there: a read request takes
    /// its remote address and key from it.
    pub open spec fn complete(self, s: Seq<u8>) -> ToHostWorkRbDesc {
        match self {
            IncompleteToHostWorkRbDesc::Read(desc) => ToHostWorkRbDesc::Read(
                ToHostWorkRbDescRead {
                    raddr: field(s, 0, 64) as u64,
                    rkey: Key::of(field(s, 64, 32) as u32),
                    ..desc
                },
            ),
            IncompleteToHostWorkRbDesc::Raw(desc) => ToHostWorkRbDesc::Raw(desc),
        }
    }

    /// Reads the second slot.
    pub fn read(self, src: &[u8]) -> (r: Result<ToHostWorkRbDesc, ToHostWorkRbDescError>)
        requires
            src@.len() >= DESC_SIZE,
        ensures
            r == Ok::<ToHostWorkRbDesc, ToHostWorkRbDescError>(self.complete(src@)),
    {
        match self {
            IncompleteToHostWorkRbDesc::Read(desc) => {
                let raddr: u64 = get_bits(src, 0, 64);
                let key: u64 = get_bits(src, 64, 32);
                Ok(
                    ToHostWorkRbDesc::Read(
                        ToHostWorkRbDescRead {
                            common: desc.common,
                            len: desc.len,
                            laddr: desc.laddr,
                            lkey: desc.lkey,
                            raddr,
                            rkey: Key::new(key as u32),
                        },
                    ),
                )
            },
            IncompleteToHostWorkRbDesc::Raw(desc) => Ok(ToHostWorkRbDesc::Raw(desc)),
        }
    }
}

/// What every slot says of the packet it reports.
pub open spec fn common_of(s: Seq<u8>, common: ToHostWorkRbDescCommon) -> bool {
    &&& common.dqpn@ == field(s, 40, 24)
    &&& common.msn@ == field(s, 224, 16)
    &&& common.expected_psn@ == field(s, 0, 24)
    &&& common.status == ToHostWorkRbDescStatus::Normal <==> field(s, 24, 8) == 1
}

/// How the numbers of a slot fit where they are kept.
proof fn lemma_report_numbers(s: Seq<u8>)
    ensures
        ({
            let m = meta_report(s);
            &&& m.expected_psn == field(s, 0, 24)
            &&& m.status == field(s, 24, 8)
            &&& m.trans == field(s, 32, 3)
            &&& m.opcode == field(s, 35, 5)
            &&& m.qpn == field(s, 40, 24)
            &&& m.psn == field(s, 64, 24)
            &&& m.va == field(s, 96, 64)
            &&& m.rkey == field(s, 160, 32)
            &&& m.dlen == field(s, 192, 32)
            &&& m.msn == field(s, 224, 16)
            &&& m.imm == field(s, 224, 32)
            &&& m.aeth_psn == field(s, 96, 24)
            &&& m.aeth_msn == field(s, 120, 16)
            &&& m.aeth_value == field(s, 144, 5)
            &&& m.aeth_code == field(s, 149, 3)
        }),
{
    lemma2_to64();
    lemma_field_bound(s, 0, 24);
    lemma_field_bound(s, 24, 8);
    lemma_field_bound(s, 32, 3);
    lemma_field_bound(s, 35, 5);
    lemma_field_bound(s, 40, 24);
    lemma_field_bound(s, 64, 24);
    lemma_field_bound(s, 96, 64);
    lemma_field_bound(s, 160, 32);
    lemma_field_bound(s, 192, 32);
    lemma_field_bound(s, 224, 16);
    lemma_field_bound(s, 224, 32);
    lemma_field_bound(s, 96, 24);
    lemma_field_bound(s, 120, 16);
    lemma_field_bound(s, 144, 5);
    lemma_field_bound(s, 149, 3);
}

/// A slot that reports a packet of a write, or of the answer to a read, gives the
/// packet's number, where its bytes went and how many there are, and which packet
/// of its message it is.
pub proof fn law_slot_reports_a_write(s: Seq<u8>)
    requires
        1 <= field(s, 24, 8) <= 6,
        field(s, 32, 3) <= 6,
        ({
            let op = field(s, 35, 5);
            6 <= op <= 8 || op == 10 || 13 <= op <= 16
        }),
    ensures
        parse_report(meta_report(s)) matches Ok(ToHostWorkRbDesc::WriteOrReadResp(r)) && {
            let op = field(s, 35, 5);
            &&& common_of(s, r.common)
            &&& r.psn@ == field(s, 64, 24)
            &&& r.addr == field(s, 96, 64)
            &&& r.len == field(s, 192, 32)
            &&& r.can_auto_ack <==> field(s, 255, 1) == 1
            &&& r.is_read_resp <==> op >= 13
            &&& r.write_type == ToHostWorkRbDescWriteType::First <==> op == 6 || op == 13
            &&& r.write_type == ToHostWorkRbDescWriteType::Middle <==> op == 7 || op == 14
            &&& r.write_type == ToHostWorkRbDescWriteType::Last <==> op == 8 || op == 15
            &&& r.write_type == ToHostWorkRbDescWriteType::Only <==> op == 10 || op == 16
        },
{
    lemma_report_numbers(s);
    broadcast use ThreeBytesStruct::lemma_of, Msn::lemma_of;
}

/// A slot that reports a write with immediate data gives the data too. A raw packet
/// is reported under the same number, and takes a second slot.
pub proof fn law_slot_reports_an_immediate(s: Seq<u8>)
    requires
        1 <= field(s, 24, 8) <= 6,
        field(s, 32, 3) <= 6,
        field(s, 35, 5) == 9 || field(s, 35, 5) == 11,
    ensures
        field(s, 32, 3) < 6 ==> (parse_report(meta_report(s)) matches Ok(ToHostWorkRbDesc::WriteWithImm(r)) && {
            &&& common_of(s, r.common)
            &&& r.psn@ == field(s, 64, 24)
            &&& r.addr == field(s, 96, 64)
            &&& r.len == field(s, 192, 32)
            &&& r.key@ == field(s, 160, 32)
            &&& r.imm == field(s, 224, 32)
            &&& r.write_type == (if field(s, 35, 5) == 9 {
                ToHostWorkRbDescWriteType::Last
            } else {
                ToHostWorkRbDescWriteType::Only
            })
        }),
        field(s, 32, 3) == 6 ==> (parse_report(meta_report(s)) matches Err(
            ToHostWorkRbDescError::Incomplete(IncompleteToHostWorkRbDesc::Raw(r)),
        ) && {
            &&& common_of(s, r.common)
            &&& r.addr == field(s, 96, 64)
            &&& r.len == field(s, 192, 32)
            &&& r.key@ == field(s, 160, 32)
        }),
{
    lemma_report_numbers(s);
    broadcast use ThreeBytesStruct::lemma_of, Msn::lemma_of, Key::lemma_of;
}

/// A read request takes two slots: the first says what is asked for, the second
/// where the answer goes.
pub proof fn law_slots_report_a_read(s: Seq<u8>, second: Seq<u8>)
    requires
        1 <= field(s, 24, 8) <= 6,
        field(s, 32, 3) <= 6,
        field(s, 35, 5) == 12,
    ensures
        parse_report(meta_report(s)) matches Err(ToHostWorkRbDescError::Incomplete(part)) && (part.complete(
            second,
        ) matches ToHostWorkRbDesc::Read(r) && {
            &&& common_of(s, r.common)
            &&& r.laddr == field(s, 96, 64)
            &&& r.lkey@ == field(s, 160, 32)
            &&& r.len == field(s, 192, 32)
            &&& r.raddr == field(second, 0, 64)
            &&& r.rkey@ == field(second, 64, 32)
        }),
{
    lemma2_to64();
    lemma_report_numbers(s);
    lemma_field_bound(second, 0, 64);
    lemma_field_bound(second, 64, 32);
    broadcast use ThreeBytesStruct::lemma_of, Msn::lemma_of, Key::lemma_of;
}

/// A slot that reports an acknowledgement names the message, and what was lost
/// where something was.
pub proof fn law_slot_reports_an_acknowledgement(s: Seq<u8>)
    requires
        1 <= field(s, 24, 8) <= 6,
        field(s, 32, 3) <= 6,
        field(s, 35, 5) == 17,
    ensures
        field(s, 149, 3) <= 2 ==> (parse_report(meta_report(s)) matches Ok(ToHostWorkRbDesc::Ack(r)) && {
            &&& common_of(s, r.common)
            &&& r.msn@ == field(s, 120, 16)
            &&& r.psn@ == field(s, 64, 24)
            &&& r.value == field(s, 144, 5)
            &&& r.retry_psn@ == field(s, 96, 24)
            &&& r.code == ToHostWorkRbDescAethCode::Ack <==> field(s, 149, 3) == 0
            &&& r.code == ToHostWorkRbDescAethCode::Rnr <==> field(s, 149, 3) == 1
        }),
        field(s, 149, 3) == 3 ==> (parse_report(meta_report(s)) matches Ok(ToHostWorkRbDesc::Nack(r)) && {
            &&& common_of(s, r.common)
            &&& r.msn@ == field(s, 120, 16)
            &&& r.lost_from@ == field(s, 64, 24)
            &&& r.lost_to@ == field(s, 96, 24)
            &&& r.value == field(s, 144, 5)
        }),
        field(s, 149, 3) > 3 ==> parse_report(meta_report(s)) is Err,
{
    lemma_report_numbers(s);
    broadcast use ThreeBytesStruct::lemma_of, Msn::lemma_of;
}

/// Puts a work descriptor for the card together
#[derive(Debug)]
pub struct ToCardWorkRbDescBuilder {
    type_: ToCardWorkRbDescOpcode,
    common: Option<ToCardWorkRbDescCommon>,
    seg_list: Vec<Sge>,
    imm: Option<u32>,
}

/// What has been given to a builder
pub struct BuilderParts {
    pub type_: ToCardWorkRbDescOpcode,
    pub common: Option<ToCardWorkRbDescCommon>,
    pub seg_list: Seq<Sge>,
    pub imm: Option<u32>,
}

impl View for ToCardWorkRbDescBuilder {
    type V = BuilderParts;

    closed spec fn view(&self) -> BuilderParts {
        BuilderParts { type_: self.type_, common: self.common, seg_list: self.seg_list@, imm: self.imm }
    }
}

/// The element that was given `k` elements before the last one.
pub open spec fn sge_from_end(s: Seq<Sge>, k: int) -> Option<DescSge> {
    if k < s.len() {
        let sge = s[s.len() - 1 - k];
        Some(DescSge { addr: sge.addr, len: sge.len, key: sge.key })
    } else {
        None
    }
}

impl BuilderParts {
    /// The descriptor that the parts make, or what is missing.
    pub open spec fn built(self) -> Result<ToCardWorkRbDesc, Error> {
        let s = self.seg_list;
        if self.common is None {
            Err(Error::BuildDescFailed(DescPart::Common))
        } else if s.len() == 0 {
            Err(Error::BuildDescFailed(DescPart::Sge))
        } else {
            let write = ToCardWorkRbDescWrite {
                common: self.common->0,
                is_last: true,
                is_first: true,
                sge0: sge_from_end(s, 0)->0,
                sge1: sge_from_end(s, 1),
                sge2: sge_from_end(s, 2),
                sge3: sge_from_end(s, 3),
            };
            match self.type_ {
                ToCardWorkRbDescOpcode::Write => Ok(ToCardWorkRbDesc::Write(write)),
                ToCardWorkRbDescOpcode::ReadResp => Ok(ToCardWorkRbDesc::ReadResp(write)),
                ToCardWorkRbDescOpcode::Read => Ok(
                    ToCardWorkRbDesc::Read(ToCardWorkRbDescRead { common: write.common, sge: write.sge0 }),
                ),
                ToCardWorkRbDescOpcode::WriteWithImm => if self.imm is None {
                    Err(Error::BuildDescFailed(DescPart::Imm))
                } else {
                    Ok(
                        ToCardWorkRbDesc::WriteWithImm(
                            ToCardWorkRbDescWriteWithImm {
                                common: write.common,
                                is_last: true,
                                is_first: true,
                                imm: self.imm->0,
                                sge0: write.sge0,
                                sge1: write.sge1,
                                sge2: write.sge2,
                                sge3: write.sge3,
                            },
                        ),
                    )
                },
            }
        }
    }
}

fn pop_sge(list: &mut Vec<Sge>) -> (r: Option<DescSge>)
    ensures
        r == sge_from_end(old(list)@, 0),
        old(list)@.len() > 0 ==> final(list)@ == old(list)@.drop_last(),
        old(list)@.len() == 0 ==> final(list)@ == old(list)@,
{
    match list.pop() {
        Some(sge) => Some(DescSge::from(sge)),
        None => None,
    }
}

impl ToCardWorkRbDescBuilder {
    /// Create a new `ToCardWorkRbDescBuilder`
    pub fn new(type_: ToCardWorkRbDescOpcode) -> (r: Self)
        ensures
            r@ == (BuilderParts { type_, common: None, seg_list: Seq::empty(), imm: None }),
    {
        Self { type_, common: None, seg_list: Vec::new(), imm: None }
    }

    /// with `ToCardWorkRbDescCommon`
    pub fn with_common(self, common: ToCardWorkRbDescCommon) -> (r: Self)
        ensures
            r@ == (BuilderParts { common: Some(common), ..self@ }),
    {
        let mut this = self;
        this.common = Some(common);
        this
    }

    /// with one more scatter gather element
    pub fn with_sge(self, seg: Sge) -> (r: Self)
        ensures
            r@ == (BuilderParts { seg_list: self@.seg_list.push(seg), ..self@ }),
    {
        let mut this = self;
        this.seg_list.push(seg);
        this
    }

    /// with immediate
    pub fn with_imm(self, imm: Imm) -> (r: Self)
        ensures
            r@ == (BuilderParts { imm: Some(imm@), ..self@ }),
    {
        let mut this = self;
        this.imm = Some(imm.get());
        this
    }

    /// The descriptor that was put together. The element that was given last
    /// comes first.
    ///
    /// # Errors
    /// Return an error if a part is missing.
    pub fn build(self) -> (r: Result<Box<ToCardWorkRbDesc>, Error>)
        ensures
            self@.built() is Ok ==> r is Ok && *r->Ok_0 == self@.built()->Ok_0,
            self@.built() is Err ==> r is Err && r->Err_0 == self@.built()->Err_0,
    {
        let mut this = self;
        let common = match this.common {
            Some(common) => common,
            None => return Err(Error::BuildDescFailed(DescPart::Common)),
        };
        let ghost s = this.seg_list@;
        let sge0 = match pop_sge(&mut this.seg_list) {
            Some(sge0) => sge0,
            None => return Err(Error::BuildDescFailed(DescPart::Sge)),
        };
        let sge1 = pop_sge(&mut this.seg_list);
        let sge2 = pop_sge(&mut this.seg_list);
        let sge3 = pop_sge(&mut this.seg_list);
        assert(sge1 == sge_from_end(s, 1));
        assert(sge2 == sge_from_end(s, 2));
        assert(sge3 == sge_from_end(s, 3));
        let desc = match this.type_ {
            ToCardWorkRbDescOpcode::Write => ToCardWorkRbDesc::Write(
                ToCardWorkRbDescWrite { common, is_last: true, is_first: true, sge0, sge1, sge2, sge3 },
            ),
            ToCardWorkRbDescOpcode::WriteWithImm => {
                let imm: u32 = match this.imm {
                    Some(imm) => imm,
                    None => return Err(Error::BuildDescFailed(DescPart::Imm)),
                };
                ToCardWorkRbDesc::WriteWithImm(
                    ToCardWorkRbDescWriteWithImm {
                        common,
                        is_last: true,
                        is_first: true,
                        imm,
                        sge0,
                        sge1,
                        sge2,
                        sge3,
                    },
                )
            },
            ToCardWorkRbDescOpcode::Read => ToCardWorkRbDesc::Read(ToCardWorkRbDescRead { common, sge: sge0 }),
            ToCardWorkRbDescOpcode::ReadResp => ToCardWorkRbDesc::ReadResp(
                ToCardWorkRbDescWrite { common, is_last: true, is_first: true, sge0, sge1, sge2, sge3 },
            ),
        };
        Ok(Box::new(desc))
    }
}

/// A builder makes a descriptor of what it was given: of its kind, with its header
/// and its immediate data, as a transaction of its own. The element that was given
/// last comes first. Only what is missing stops it.
pub proof fn law_builder_makes_what_it_was_given(parts: BuilderParts, k: int)
    requires
        0 <= k < 4,
    ensures
        parts.built() is Ok <==> parts.common is Some && parts.seg_list.len() > 0 && (parts.type_
            == ToCardWorkRbDescOpcode::WriteWithImm ==> parts.imm is Some),
        parts.built() matches Ok(desc) ==> {
            let n = parts.seg_list.len();
            let sge = parts.seg_list[n - 1 - k];
            &&& match desc {
                ToCardWorkRbDesc::Write(d) => parts.type_ == ToCardWorkRbDescOpcode::Write && d.common
                    == parts.common->0 && d.is_first && d.is_last,
                ToCardWorkRbDesc::ReadResp(d) => parts.type_ == ToCardWorkRbDescOpcode::ReadResp && d.common
                    == parts.common->0 && d.is_first && d.is_last,
                ToCardWorkRbDesc::Read(d) => parts.type_ == ToCardWorkRbDescOpcode::Read && d.common == parts.common->0,
                ToCardWorkRbDesc::WriteWithImm(d) => parts.type_ == ToCardWorkRbDescOpcode::WriteWithImm && d.common
                    == parts.common->0 && d.is_first && d.is_last && Some(d.imm) == parts.imm,
            }
            &&& k < n && (k == 0 || desc !is Read) ==> (element_at(desc, k) matches Some(e) && e.addr == sge.addr
                && e.len == sge.len && e.key == sge.key)
            &&& k >= n ==> element_at(desc, k) is None
        },
{
}

} // verus!
