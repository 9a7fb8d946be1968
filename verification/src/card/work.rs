//! Work descriptors with a single element.

use vstd::prelude::*;
use crate::bits::{write_fields, Field};
#[allow(unused_imports)]
use crate::bits::{field, lemma_written_at, written};
use crate::card::types::Sge;
use crate::device::work::{DescSge, ToCardWorkRbDescCommon, ToCardWorkRbDescOpcode, ToHostWorkRbDescAethCode, ToHostWorkRbDescCommon, ToHostWorkRbDescRaw, ToHostWorkRbDescRead, ToHostWorkRbDescStatus, ToHostWorkRbDescWriteOrReadResp, ToHostWorkRbDescWriteWithImm, DESC_SIZE};
#[allow(unused_imports)]
use crate::device::work::{
    law_descriptor_names_its_kind, law_segment_0_reads_back, law_segment_1_reads_back, meta_report, parse_report,
};
#[allow(unused_imports)]
use crate::types::{DescPart, Error, Imm, Msn, Psn};

verus! {

/// Host to card workq read request descriptor
#[derive(Debug, Clone, Copy)]
pub struct ToCardWorkRbDescRead {
    pub common: ToCardWorkRbDescCommon,
    pub sge: DescSge,
}

/// Host to card workq write descriptor
#[derive(Debug, Clone, Copy)]
pub struct ToCardWorkRbDescWrite {
    pub common: ToCardWorkRbDescCommon,
    /// Is last descriptor of this transaction
    pub is_last: bool,
    /// Is the first descriptor of this transaction
    pub is_first: bool,
    pub sge0: DescSge,
}

/// Host to card workq write with immediate descriptor
#[derive(Debug, Clone, Copy)]
pub struct ToCardWorkRbDescWriteWithImm {
    pub common: ToCardWorkRbDescCommon,
    /// Is last descriptor of this transaction
    pub is_last: bool,
    /// Is the first descriptor of this transaction
    pub is_first: bool,
    pub imm: u32,
    pub sge0: DescSge,
}

/// Host to card work ring buffer descriptor
#[derive(Debug, Clone, Copy)]
pub enum ToCardWorkRbDesc {
    Read(ToCardWorkRbDescRead),
    Write(ToCardWorkRbDescWrite),
    WriteWithImm(ToCardWorkRbDescWriteWithImm),
    ReadResp(ToCardWorkRbDescWrite),
}

/// The same descriptor in the form that has room for four elements.
pub open spec fn widened(desc: ToCardWorkRbDesc) -> crate::device::work::ToCardWorkRbDesc {
    match desc {
        ToCardWorkRbDesc::Read(d) => crate::device::work::ToCardWorkRbDesc::Read(
            crate::device::work::ToCardWorkRbDescRead { common: d.common, sge: d.sge },
        ),
        ToCardWorkRbDesc::Write(d) => crate::device::work::ToCardWorkRbDesc::Write(
            crate::device::work::ToCardWorkRbDescWrite {
                common: d.common,
                is_last: d.is_last,
                is_first: d.is_first,
                sge0: d.sge0,
                sge1: None,
                sge2: None,
                sge3: None,
            },
        ),
        ToCardWorkRbDesc::ReadResp(d) => crate::device::work::ToCardWorkRbDesc::ReadResp(
            crate::device::work::ToCardWorkRbDescWrite {
                common: d.common,
                is_last: d.is_last,
                is_first: d.is_first,
                sge0: d.sge0,
                sge1: None,
                sge2: None,
                sge3: None,
            },
        ),
        ToCardWorkRbDesc::WriteWithImm(d) => crate::device::work::ToCardWorkRbDesc::WriteWithImm(
            crate::device::work::ToCardWorkRbDescWriteWithImm {
                common: d.common,
                is_last: d.is_last,
                is_first: d.is_first,
                imm: d.imm,
                sge0: d.sge0,
                sge1: None,
                sge2: None,
                sge3: None,
            },
        ),
    }
}

/// The layout of an element in the third segment: the upper half of it.
pub open spec fn element_layout(sge: DescSge) -> Seq<Field> {
    seq![
        (Field { lo: 192, width: 64, value: sge.addr }),
        (Field { lo: 160, width: 32, value: sge.len as u64 }),
        (Field { lo: 128, width: 32, value: sge.key@ as u64 }),
    ]
}

impl ToCardWorkRbDesc {
    fn widen(&self) -> (r: crate::device::work::ToCardWorkRbDesc)
        ensures
            r == widened(*self),
    {
        match self {
            ToCardWorkRbDesc::Read(d) => crate::device::work::ToCardWorkRbDesc::Read(
                crate::device::work::ToCardWorkRbDescRead { common: d.common, sge: d.sge },
            ),
            ToCardWorkRbDesc::Write(d) => crate::device::work::ToCardWorkRbDesc::Write(
                crate::device::work::ToCardWorkRbDescWrite {
                    common: d.common,
                    is_last: d.is_last,
                    is_first: d.is_first,
                    sge0: d.sge0,
                    sge1: None,
                    sge2: None,
                    sge3: None,
                },
            ),
            ToCardWorkRbDesc::ReadResp(d) => crate::device::work::ToCardWorkRbDesc::ReadResp(
                crate::device::work::ToCardWorkRbDescWrite {
                    common: d.common,
                    is_last: d.is_last,
                    is_first: d.is_first,
                    sge0: d.sge0,
                    sge1: None,
                    sge2: None,
                    sge3: None,
                },
            ),
            ToCardWorkRbDesc::WriteWithImm(d) => crate::device::work::ToCardWorkRbDesc::WriteWithImm(
                crate::device::work::ToCardWorkRbDescWriteWithImm {
                    common: d.common,
                    is_last: d.is_last,
                    is_first: d.is_first,
                    imm: d.imm,
                    sge0: d.sge0,
                    sge1: None,
                    sge2: None,
                    sge3: None,
                },
            ),
        }
    }

    /// The element.
    pub open spec fn element(self) -> DescSge {
        match self {
            ToCardWorkRbDesc::Read(d) => d.sge,
            ToCardWorkRbDesc::Write(d) => d.sge0,
            ToCardWorkRbDesc::ReadResp(d) => d.sge0,
            ToCardWorkRbDesc::WriteWithImm(d) => d.sge0,
        }
    }

    /// Writes the first segment
    pub fn write_0(&self, dst: &mut [u8])
        requires
            old(dst)@.len() >= DESC_SIZE,
        ensures
            written(old(dst)@, final(dst)@, widened(*self).layout()[0]),
    {
        self.widen().write_0(dst);
    }

    /// Writes the second segment
    pub fn write_1(&self, dst: &mut [u8])
        requires
            old(dst)@.len() >= DESC_SIZE,
        ensures
            written(old(dst)@, final(dst)@, widened(*self).layout()[1]),
    {
        self.widen().write_1(dst);
    }

    /// Writes the third segment: the element. The lower half stays as it is.
    pub fn write_2(&self, dst: &mut [u8])
        requires
            old(dst)@.len() >= DESC_SIZE,
        ensures
            written(old(dst)@, final(dst)@, element_layout(self.element())),
    {
        let sge0: DescSge = match self {
            ToCardWorkRbDesc::Read(d) => d.sge,
            ToCardWorkRbDesc::Write(d) => d.sge0,
            ToCardWorkRbDesc::ReadResp(d) => d.sge0,
            ToCardWorkRbDesc::WriteWithImm(d) => d.sge0,
        };
        // Note that the order of the sges is reversed in the struct
        let fields: [Field; 3] = [
            Field { lo: 192, width: 64, value: sge0.addr },
            Field { lo: 160, width: 32, value: sge0.len as u64 },
            Field { lo: 128, width: 32, value: sge0.key.get() as u64 },
        ];
        proof {
            assert(fields@ =~= element_layout(self.element()));
        }
        write_fields(dst, fields.as_slice());
    }

    /// How many segments the descriptor takes
    pub fn serialized_desc_cnt(&self) -> (r: u32)
        ensures
            r == 3,
            r == widened(*self).segments(),
    {
        3
    }
}

/// What the third segment is written to carry, it gives back.
pub proof fn law_element_reads_back(desc: ToCardWorkRbDesc, old_buf: Seq<u8>, new_buf: Seq<u8>)
    requires
        written(old_buf, new_buf, element_layout(desc.element())),
    ensures
        field(new_buf, 128, 32) == desc.element().key@,
        field(new_buf, 160, 32) == desc.element().len,
        field(new_buf, 192, 64) == desc.element().addr,
{
    vstd::arithmetic::power2::lemma2_to64();
    let fs = element_layout(desc.element());
    lemma_written_at(old_buf, new_buf, fs, 0, fs[0]);
    lemma_written_at(old_buf, new_buf, fs, 1, fs[1]);
    lemma_written_at(old_buf, new_buf, fs, 2, fs[2]);
}

/// Host to card work acknowledge descriptor
#[derive(Debug, Clone, Copy, PartialEq, Eq, Structural)]
pub struct ToHostWorkRbDescAck {
    pub common: ToHostWorkRbDescCommon,
    /// MSN
    pub msn: Msn,
    /// PSN
    pub psn: Psn,
    /// AETH code
    pub code: ToHostWorkRbDescAethCode,
    /// The value beside the code
    pub value: u8,
}

/// Card to host work ring buffer descriptor
#[derive(Debug, Clone, Copy, PartialEq, Eq, Structural)]
pub enum ToHostWorkRbDesc {
    Read(ToHostWorkRbDescRead),
    WriteOrReadResp(ToHostWorkRbDescWriteOrReadResp),
    WriteWithImm(ToHostWorkRbDescWriteWithImm),
    Ack(ToHostWorkRbDescAck),
    Raw(ToHostWorkRbDescRaw),
}

/// Why a slot gave no descriptor
pub type ToHostWorkRbDescError = crate::device::work::ToHostWorkRbDescError;

/// A descriptor in which acknowledgements of every kind are one.
pub open spec fn narrowed(desc: crate::device::work::ToHostWorkRbDesc) -> ToHostWorkRbDesc {
    match desc {
        crate::device::work::ToHostWorkRbDesc::Read(d) => ToHostWorkRbDesc::Read(d),
        crate::device::work::ToHostWorkRbDesc::WriteOrReadResp(d) => ToHostWorkRbDesc::WriteOrReadResp(d),
        crate::device::work::ToHostWorkRbDesc::WriteWithImm(d) => ToHostWorkRbDesc::WriteWithImm(d),
        crate::device::work::ToHostWorkRbDesc::Raw(d) => ToHostWorkRbDesc::Raw(d),
        crate::device::work::ToHostWorkRbDesc::Ack(d) => ToHostWorkRbDesc::Ack(
            ToHostWorkRbDescAck { common: d.common, msn: d.msn, psn: d.psn, code: d.code, value: d.value },
        ),
        crate::device::work::ToHostWorkRbDesc::Nack(d) => ToHostWorkRbDesc::Ack(
            ToHostWorkRbDescAck {
                common: d.common,
                msn: d.msn,
                psn: d.lost_from,
                code: ToHostWorkRbDescAethCode::Nak,
                value: d.value,
            },
        ),
    }
}

fn narrow(desc: crate::device::work::ToHostWorkRbDesc) -> (r: ToHostWorkRbDesc)
    ensures
        r == narrowed(desc),
{
    match desc {
        crate::device::work::ToHostWorkRbDesc::Read(d) => ToHostWorkRbDesc::Read(d),
        crate::device::work::ToHostWorkRbDesc::WriteOrReadResp(d) => ToHostWorkRbDesc::WriteOrReadResp(d),
        crate::device::work::ToHostWorkRbDesc::WriteWithImm(d) => ToHostWorkRbDesc::WriteWithImm(d),
        crate::device::work::ToHostWorkRbDesc::Raw(d) => ToHostWorkRbDesc::Raw(d),
        crate::device::work::ToHostWorkRbDesc::Ack(d) => ToHostWorkRbDesc::Ack(
            ToHostWorkRbDescAck { common: d.common, msn: d.msn, psn: d.psn, code: d.code, value: d.value },
        ),
        crate::device::work::ToHostWorkRbDesc::Nack(d) => ToHostWorkRbDesc::Ack(
            ToHostWorkRbDescAck {
                common: d.common,
                msn: d.msn,
                psn: d.lost_from,
                code: ToHostWorkRbDescAethCode::Nak,
                value: d.value,
            },
        ),
    }
}

impl ToHostWorkRbDesc {
    /// The outcome that the descriptor reports.
    pub open spec fn status_spec(self) -> ToHostWorkRbDescStatus {
        match self {
            ToHostWorkRbDesc::Read(d) => d.common.status,
            ToHostWorkRbDesc::WriteOrReadResp(d) => d.common.status,
            ToHostWorkRbDesc::WriteWithImm(d) => d.common.status,
            ToHostWorkRbDesc::Ack(d) => d.common.status,
            ToHostWorkRbDesc::Raw(d) => d.common.status,
        }
    }

    /// The outcome that the descriptor reports
    pub fn status(&self) -> (r: ToHostWorkRbDescStatus)
        ensures
            r == self.status_spec(),
    {
        match self {
            ToHostWorkRbDesc::Read(d) => d.common.status,
            ToHostWorkRbDesc::WriteOrReadResp(d) => d.common.status,
            ToHostWorkRbDesc::WriteWithImm(d) => d.common.status,
            ToHostWorkRbDesc::Ack(d) => d.common.status,
            ToHostWorkRbDesc::Raw(d) => d.common.status,
        }
    }

    /// Reads a slot that reports a received packet.
    pub fn read(src: &[u8]) -> (r: Result<ToHostWorkRbDesc, ToHostWorkRbDescError>)
        requires
            src@.len() >= DESC_SIZE,
        ensures
            r == (match parse_report(meta_report(src@)) {
                Ok(desc) => Ok::<ToHostWorkRbDesc, ToHostWorkRbDescError>(narrowed(desc)),
                Err(e) => Err(e),
            }),
    {
        match crate::device::work::ToHostWorkRbDesc::read(src) {
            Ok(desc) => Ok(narrow(desc)),
            Err(e) => Err(e),
        }
    }

    /// Reads the second slot of a descriptor of which the first was read.
    pub fn read_second(
        first: crate::device::work::IncompleteToHostWorkRbDesc,
        src: &[u8],
    ) -> (r: Result<ToHostWorkRbDesc, ToHostWorkRbDescError>)
        requires
            src@.len() >= DESC_SIZE,
        ensures
            r == Ok::<ToHostWorkRbDesc, ToHostWorkRbDescError>(narrowed(first.complete(src@))),
    {
        match first.read(src) {
            Ok(desc) => Ok(narrow(desc)),
            Err(e) => Err(e),
        }
    }
}

/// Puts a work descriptor for the card together
#[derive(Debug, Clone, Copy)]
pub struct ToCardWorkRbDescBuilder {
    /// The kind of the descriptor
    pub type_: ToCardWorkRbDescOpcode,
    /// The header
    pub common: Option<ToCardWorkRbDescCommon>,
    /// The element
    pub sge: Option<Sge>,
    /// The immediate data
    pub imm: Option<u32>,
}

impl ToCardWorkRbDescBuilder {
    /// The descriptor that the parts make, or what is missing.
    pub open spec fn built(self) -> Result<ToCardWorkRbDesc, Error> {
        if self.common is None {
            Err(Error::BuildDescFailed(DescPart::Common))
        } else if self.sge is None {
            Err(Error::BuildDescFailed(DescPart::Sge))
        } else {
            let common = self.common->0;
            let s = self.sge->0;
            let sge0 = DescSge { addr: s.phy_addr, len: s.len, key: s.key };
            let write = ToCardWorkRbDescWrite { common, is_last: true, is_first: true, sge0 };
            match self.type_ {
                ToCardWorkRbDescOpcode::Write => Ok(ToCardWorkRbDesc::Write(write)),
                ToCardWorkRbDescOpcode::ReadResp => Ok(ToCardWorkRbDesc::ReadResp(write)),
                ToCardWorkRbDescOpcode::Read => Ok(ToCardWorkRbDesc::Read(ToCardWorkRbDescRead { common, sge: sge0 })),
                ToCardWorkRbDescOpcode::WriteWithImm => if self.imm is None {
                    Err(Error::BuildDescFailed(DescPart::Imm))
                } else {
                    Ok(
                        ToCardWorkRbDesc::WriteWithImm(
                            ToCardWorkRbDescWriteWithImm {
                                common,
                                is_last: true,
                                is_first: true,
                                imm: self.imm->0,
                                sge0,
                            },
                        ),
                    )
                },
            }
        }
    }

    /// Create a new `ToCardWorkRbDescBuilder`
    pub fn new(type_: ToCardWorkRbDescOpcode) -> (r: Self)
        ensures
            r == (ToCardWorkRbDescBuilder { type_, common: None, sge: None, imm: None }),
    {
        Self { type_, common: None, sge: None, imm: None }
    }

    /// with `ToCardWorkRbDescCommon`
    pub fn with_common(self, common: ToCardWorkRbDescCommon) -> (r: Self)
        ensures
            r == (ToCardWorkRbDescBuilder { common: Some(common), ..self }),
    {
        Self { common: Some(common), ..self }
    }

    /// with scatter gather element
    pub fn with_sge(self, sge: Sge) -> (r: Self)
        ensures
            r == (ToCardWorkRbDescBuilder { sge: Some(sge), ..self }),
    {
        Self { sge: Some(sge), ..self }
    }

    /// with immediate
    pub fn with_imm(self, imm: Imm) -> (r: Self)
        ensures
            r == (ToCardWorkRbDescBuilder { imm: Some(imm@), ..self }),
    {
        Self { imm: Some(imm.get()), ..self }
    }

    /// build a to card work ringbuf descriptor
    ///
    /// # Errors
    /// Return an error if a part is missing.
    pub fn build(self) -> (r: Result<Box<ToCardWorkRbDesc>, Error>)
        ensures
            match self.built() {
                Ok(desc) => r matches Ok(d) && *d == desc,
                Err(e) => r == Err::<Box<ToCardWorkRbDesc>, Error>(e),
            },
    {
        let common: ToCardWorkRbDescCommon = match self.common {
            Some(common) => common,
            None => {
                return Err(Error::BuildDescFailed(DescPart::Common));
            },
        };
        let sge0: DescSge = match self.sge {
            Some(sge) => DescSge { addr: sge.phy_addr, len: sge.len, key: sge.key },
            None => {
                return Err(Error::BuildDescFailed(DescPart::Sge));
            },
        };
        let desc: ToCardWorkRbDesc = match self.type_ {
            ToCardWorkRbDescOpcode::Write => ToCardWorkRbDesc::Write(
                ToCardWorkRbDescWrite { common, is_last: true, is_first: true, sge0 },
            ),
            ToCardWorkRbDescOpcode::ReadResp => ToCardWorkRbDesc::ReadResp(
                ToCardWorkRbDescWrite { common, is_last: true, is_first: true, sge0 },
            ),
            ToCardWorkRbDescOpcode::Read => ToCardWorkRbDesc::Read(ToCardWorkRbDescRead { common, sge: sge0 }),
            ToCardWorkRbDescOpcode::WriteWithImm => match self.imm {
                Some(imm) => ToCardWorkRbDesc::WriteWithImm(
                    ToCardWorkRbDescWriteWithImm { common, is_last: true, is_first: true, imm, sge0 },
                ),
                None => {
                    return Err(Error::BuildDescFailed(DescPart::Imm));
                },
            },
        };
        Ok(Box::new(desc))
    }
}

/// The first two segments of a descriptor say what it is, where it goes and how
/// long it is, as its fields do.
pub proof fn law_segments_read_back(
    desc: ToCardWorkRbDesc,
    common: ToCardWorkRbDescCommon,
    old_buf: Seq<u8>,
    new_buf: Seq<u8>,
)
    requires
        match desc {
            ToCardWorkRbDesc::Read(d) => d.common == common,
            ToCardWorkRbDesc::Write(d) => d.common == common,
            ToCardWorkRbDesc::ReadResp(d) => d.common == common,
            ToCardWorkRbDesc::WriteWithImm(d) => d.common == common,
        },
    ensures
        written(old_buf, new_buf, widened(desc).layout()[0]) ==> {
            &&& field(new_buf, 4, 4) == (match desc {
                ToCardWorkRbDesc::Write(d) => 0nat,
                ToCardWorkRbDesc::WriteWithImm(d) => 1nat,
                ToCardWorkRbDesc::Read(d) => 4nat,
                ToCardWorkRbDesc::ReadResp(d) => 12nat,
            })
            &&& field(new_buf, 2, 1) == 1 <==> (match desc {
                ToCardWorkRbDesc::Write(d) => d.is_first,
                ToCardWorkRbDesc::WriteWithImm(d) => d.is_first,
                ToCardWorkRbDesc::Read(d) => true,
                ToCardWorkRbDesc::ReadResp(d) => d.is_first,
            })
            &&& field(new_buf, 3, 1) == 1 <==> (match desc {
                ToCardWorkRbDesc::Write(d) => d.is_last,
                ToCardWorkRbDesc::WriteWithImm(d) => d.is_last,
                ToCardWorkRbDesc::Read(d) => true,
                ToCardWorkRbDesc::ReadResp(d) => d.is_last,
            })
            &&& field(new_buf, 8, 4) == 2
            &&& field(new_buf, 32, 32) == common.total_len
            &&& field(new_buf, 64, 64) == common.raddr
            &&& field(new_buf, 128, 32) == common.rkey@
            &&& field(new_buf, 192, 16) == common.msn@
        },
        written(old_buf, new_buf, widened(desc).layout()[1]) && common.psn@ <= 0xff_ffff && common.dqpn@ <= 0xff_ffff
            ==> {
            &&& field(new_buf, 0, 3) == common.pmtu.code_spec()
            &&& field(new_buf, 16, 4) == common.qp_type.code_spec()
            &&& field(new_buf, 24, 3) == 1
            &&& field(new_buf, 32, 24) == common.psn@
            &&& field(new_buf, 128, 24) == common.dqpn@
            &&& field(new_buf, 160, 32) == (match desc {
                ToCardWorkRbDesc::WriteWithImm(d) => d.imm as nat,
                _ => 0nat,
            })
        },
{
    if written(old_buf, new_buf, widened(desc).layout()[0]) {
        law_descriptor_names_its_kind(widened(desc), old_buf, new_buf);
        law_segment_0_reads_back(widened(desc), old_buf, new_buf);
    }
    if written(old_buf, new_buf, widened(desc).layout()[1]) && common.psn@ <= 0xff_ffff && common.dqpn@ <= 0xff_ffff {
        law_segment_1_reads_back(widened(desc), old_buf, new_buf);
    }
}

/// A report reads as it does where negative acknowledgements stand apart, but that
/// such a one is an acknowledgement too, with the number of the first packet lost
/// and a code that says so.
pub proof fn law_reports_read_alike(desc: crate::device::work::ToHostWorkRbDesc)
    ensures
        match desc {
            crate::device::work::ToHostWorkRbDesc::Read(d) => narrowed(desc) matches ToHostWorkRbDesc::Read(r) && r == d,
            crate::device::work::ToHostWorkRbDesc::WriteOrReadResp(d) => narrowed(
                desc,
            ) matches ToHostWorkRbDesc::WriteOrReadResp(r) && r == d,
            crate::device::work::ToHostWorkRbDesc::WriteWithImm(d) => narrowed(
                desc,
            ) matches ToHostWorkRbDesc::WriteWithImm(r) && r == d,
            crate::device::work::ToHostWorkRbDesc::Raw(d) => narrowed(desc) matches ToHostWorkRbDesc::Raw(r) && r == d,
            crate::device::work::ToHostWorkRbDesc::Ack(d) => narrowed(desc) matches ToHostWorkRbDesc::Ack(r) && r.common
                == d.common && r.msn == d.msn && r.psn == d.psn && r.code == d.code && r.value == d.value,
            crate::device::work::ToHostWorkRbDesc::Nack(d) => narrowed(desc) matches ToHostWorkRbDesc::Ack(r)
                && r.common == d.common && r.msn == d.msn && r.psn == d.lost_from && r.code
                == ToHostWorkRbDescAethCode::Nak && r.value == d.value,
        },
{
}

/// A builder makes a descriptor of what it was given: of its kind, with its header,
/// its element and its immediate data, as a transaction of its own. Only what is
/// missing stops it.
pub proof fn law_builder_makes_what_it_was_given(parts: ToCardWorkRbDescBuilder)
    ensures
        parts.built() is Ok <==> parts.common is Some && parts.sge is Some && (parts.type_
            == ToCardWorkRbDescOpcode::WriteWithImm ==> parts.imm is Some),
        parts.built() matches Ok(desc) ==> {
            let sge = parts.sge->0;
            let e = desc.element();
            &&& e.addr == sge.phy_addr && e.len == sge.len && e.key == sge.key
            &&& match desc {
                ToCardWorkRbDesc::Write(d) => parts.type_ == ToCardWorkRbDescOpcode::Write && d.common
                    == parts.common->0 && d.is_first && d.is_last && d.sge0 == e,
                ToCardWorkRbDesc::ReadResp(d) => parts.type_ == ToCardWorkRbDescOpcode::ReadResp && d.common
                    == parts.common->0 && d.is_first && d.is_last && d.sge0 == e,
                ToCardWorkRbDesc::Read(d) => parts.type_ == ToCardWorkRbDescOpcode::Read && d.common == parts.common->0
                    && d.sge == e,
                ToCardWorkRbDesc::WriteWithImm(d) => parts.type_ == ToCardWorkRbDescOpcode::WriteWithImm && d.common
                    == parts.common->0 && d.is_first && d.is_last && Some(d.imm) == parts.imm && d.sge0 == e,
            }
        },
{
}

} // verus!
