//! The bytes of descriptors.

use open_rdma_driver::bits::{get_bits, set_bits};
use open_rdma_driver::card;
use open_rdma_driver::device::ctrl::{
    CtrlRbDescOpcode, ToCardCtrlRbDesc, ToCardCtrlRbDescCommon, ToCardCtrlRbDescQpManagement,
    ToCardCtrlRbDescSetNetworkParam, ToCardCtrlRbDescSetRawPacketReceiveMeta, ToCardCtrlRbDescUpdateErrPsnRecoverPoint,
    ToCardCtrlRbDescUpdateMrTable, ToCardCtrlRbDescUpdatePageTable, ToHostCtrlRbDesc,
};
use open_rdma_driver::device::error::{DescField, DeviceError};
use open_rdma_driver::device::work::{
    flag_value, read_meta_report, DescSge, IncompleteToHostWorkRbDesc, ToCardWorkRbDesc, ToCardWorkRbDescBuilder,
    ToCardWorkRbDescCommon, ToCardWorkRbDescOpcode, ToHostWorkRbDesc, ToHostWorkRbDescAethCode,
    ToHostWorkRbDescError, ToHostWorkRbDescOpcode, ToHostWorkRbDescStatus, ToHostWorkRbDescTransType,
    ToHostWorkRbDescWriteType, DESC_SIZE,
};
use open_rdma_driver::types::{
    DescPart, Error, Imm, Ipv4Addr, Key, MacAddress, MemAccessTypeFlag, Msn, Pmtu, Psn, QpType, Qpn, Sge,
    WorkReqSendFlag,
};

fn common() -> ToCardWorkRbDescCommon {
    ToCardWorkRbDescCommon {
        total_len: 0x0102_0304,
        raddr: 0x1122_3344_5566_7788,
        rkey: Key::new(0xaabb_ccdd),
        dqp_ip: Ipv4Addr::new(10, 1, 2, 3),
        dqpn: Qpn::new(0x012345),
        mac_addr: MacAddress { octets: [1, 2, 3, 4, 5, 6] },
        pmtu: Pmtu::Mtu4096,
        flags: WorkReqSendFlag::empty(),
        qp_type: QpType::Rc,
        psn: Psn::new(0x0a0b0c),
        msn: Msn::new(0x0d0e),
    }
}

fn build(opcode: ToCardWorkRbDescOpcode, sges: usize) -> Result<Box<ToCardWorkRbDesc>, Error> {
    let mut builder = ToCardWorkRbDescBuilder::new(opcode).with_common(common());
    for i in 0..sges {
        builder = builder.with_sge(Sge::new(0x1000 + i as u64, 16, Key::new(i as u32)));
    }
    builder.build()
}

#[test]
fn a_work_descriptor_is_laid_out_in_segments() {
    let desc = build(ToCardWorkRbDescOpcode::Write, 1).unwrap();
    assert_eq!(desc.serialized_desc_cnt(), 3);
    let mut seg = [0u8; DESC_SIZE];
    desc.write_0(&mut seg);
    assert_eq!(
        seg,
        [
            0x0d, 0x02, 0, 0, 0x04, 0x03, 0x02, 0x01, 0x88, 0x77, 0x66, 0x55, 0x44, 0x33, 0x22, 0x11, 0xdd, 0xcc,
            0xbb, 0xaa, 3, 2, 1, 10, 0x0e, 0x0d, 0, 0, 0, 0, 0, 0
        ]
    );
    let mut seg = [0u8; DESC_SIZE];
    desc.write_1(&mut seg);
    assert_eq!(
        seg,
        [
            5, 0, 2, 1, 0x0c, 0x0b, 0x0a, 0, 6, 5, 4, 3, 2, 1, 0, 0, 0x45, 0x23, 0x01, 0, 0, 0, 0, 0, 0, 0, 0, 0, 0,
            0, 0, 0
        ]
    );
    let mut seg = [0u8; DESC_SIZE];
    desc.write_2(&mut seg);
    assert_eq!(get_bits(&seg, 160, 32), 16);
    assert_eq!(get_bits(&seg, 192, 64), 0x1000);
    assert_eq!(get_bits(&seg, 0, 64), 0);
    let desc = build(ToCardWorkRbDescOpcode::Write, 4).unwrap();
    assert_eq!(desc.serialized_desc_cnt(), 4);
    // the element that was given last comes first
    let mut seg = [0u8; DESC_SIZE];
    desc.write_2(&mut seg);
    assert_eq!(get_bits(&seg, 192, 64), 0x1003);
    assert_eq!(get_bits(&seg, 64, 64), 0x1002);
    let mut seg = [0u8; DESC_SIZE];
    desc.write_3(&mut seg);
    assert_eq!(get_bits(&seg, 192, 64), 0x1001);
    assert_eq!(get_bits(&seg, 64, 64), 0x1000);
}

#[test]
fn builders_want_all_parts() {
    let missing = |part| Some(Error::BuildDescFailed(part));
    let nothing = ToCardWorkRbDescBuilder::new(ToCardWorkRbDescOpcode::Write);
    assert_eq!(nothing.build().err(), missing(DescPart::Common));
    assert_eq!(build(ToCardWorkRbDescOpcode::Write, 0).err(), missing(DescPart::Sge));
    assert_eq!(build(ToCardWorkRbDescOpcode::WriteWithImm, 1).err(), missing(DescPart::Imm));
    let with_imm = ToCardWorkRbDescBuilder::new(ToCardWorkRbDescOpcode::WriteWithImm)
        .with_common(common())
        .with_sge(Sge::new(0, 1, Key::new(2)))
        .with_imm(Imm::new(77))
        .build()
        .unwrap();
    match *with_imm {
        ToCardWorkRbDesc::WriteWithImm(desc) => {
            assert_eq!(desc.imm, 77);
            assert_eq!(desc.sge0, DescSge::from(Sge::new(0, 1, Key::new(2))));
        }
        _ => panic!("not a write with immediate data"),
    }
    assert!(matches!(*build(ToCardWorkRbDescOpcode::Read, 1).unwrap(), ToCardWorkRbDesc::Read(_)));
    assert!(matches!(*build(ToCardWorkRbDescOpcode::ReadResp, 2).unwrap(), ToCardWorkRbDesc::ReadResp(_)));
    assert_eq!(ToCardWorkRbDescOpcode::ReadResp.code(), 12);
    assert_eq!((flag_value(true), flag_value(false)), (1, 0));
}

/// A report with the given numbers.
fn report(status: u64, trans: u64, opcode: u64) -> [u8; DESC_SIZE] {
    let mut s = [0u8; DESC_SIZE];
    set_bits(&mut s, 0, 24, 7);
    set_bits(&mut s, 24, 8, status);
    set_bits(&mut s, 32, 3, trans);
    set_bits(&mut s, 35, 5, opcode);
    set_bits(&mut s, 40, 24, 5);
    set_bits(&mut s, 64, 24, 8);
    s
}

#[test]
fn reports_of_writes() {
    let mut s = report(1, 0, 6);
    set_bits(&mut s, 96, 64, 0x1234);
    set_bits(&mut s, 192, 32, 100);
    set_bits(&mut s, 224, 16, 3);
    set_bits(&mut s, 255, 1, 1);
    assert_eq!(read_meta_report(&s).opcode, 6);
    match ToHostWorkRbDesc::read(&s).unwrap() {
        ToHostWorkRbDesc::WriteOrReadResp(desc) => {
            assert_eq!(desc.write_type, ToHostWorkRbDescWriteType::First);
            assert_eq!((desc.addr, desc.len, desc.psn.get()), (0x1234, 100, 8));
            assert_eq!((desc.common.dqpn.get(), desc.common.msn.get()), (5, 3));
            assert_eq!(desc.common.expected_psn.get(), 7);
            assert!(desc.can_auto_ack);
            assert!(!desc.is_read_resp);
            assert_eq!(*ToHostWorkRbDesc::WriteOrReadResp(desc).status(), ToHostWorkRbDescStatus::Normal);
        }
        _ => panic!("not a write"),
    }
}

#[test]
fn reports_in_two_slots() {
    let read_request = (0u8..32)
        .find(|c| ToHostWorkRbDescOpcode::try_from_code(*c) == Some(ToHostWorkRbDescOpcode::RdmaReadRequest))
        .unwrap();
    let mut s = report(1, 0, read_request as u64);
    set_bits(&mut s, 96, 64, 0x1234);
    let first = match ToHostWorkRbDesc::read(&s) {
        Err(ToHostWorkRbDescError::Incomplete(first)) => first,
        _ => panic!("a read request takes two slots"),
    };
    assert!(matches!(first, IncompleteToHostWorkRbDesc::Read(_)));
    let mut second = [0u8; DESC_SIZE];
    set_bits(&mut second, 0, 64, 0x5678);
    set_bits(&mut second, 64, 32, 9);
    match first.read(&second).unwrap() {
        ToHostWorkRbDesc::Read(desc) => {
            assert_eq!((desc.laddr, desc.raddr, desc.rkey.get()), (0x1234, 0x5678, 9));
        }
        _ => panic!("not a read request"),
    }
    // the card's own descriptors
    let first = match card::work::ToHostWorkRbDesc::read(&s) {
        Err(ToHostWorkRbDescError::Incomplete(first)) => first,
        _ => panic!("a read request takes two slots"),
    };
    match card::work::ToHostWorkRbDesc::read_second(first, &second).unwrap() {
        card::work::ToHostWorkRbDesc::Read(desc) => assert_eq!(desc.raddr, 0x5678),
        _ => panic!("not a read request"),
    }
}

#[test]
fn reports_that_mean_nothing() {
    let refused = |field, code| Err(ToHostWorkRbDescError::DeviceError(DeviceError::ParseDesc(field, code)));
    assert_eq!(ToHostWorkRbDesc::read(&report(200, 0, 6)), refused(DescField::Status, 200));
    assert_eq!(ToHostWorkRbDesc::read(&report(1, 7, 6)), refused(DescField::TransType, 7));
    assert_eq!(ToHostWorkRbDesc::read(&report(1, 0, 31)), refused(DescField::Opcode, 31));
    let mut s = report(1, 0, 17);
    set_bits(&mut s, 149, 3, 7);
    assert_eq!(ToHostWorkRbDesc::read(&s), refused(DescField::AethCode, 7));
    assert!(ToHostWorkRbDescTransType::try_from_code(7).is_none());
    assert!(ToHostWorkRbDescAethCode::try_from_code(7).is_none());
}

#[test]
fn reports_of_acknowledgements() {
    let mut s = report(1, 0, 17);
    set_bits(&mut s, 96, 24, 20);
    set_bits(&mut s, 120, 16, 21);
    set_bits(&mut s, 149, 3, 0);
    match ToHostWorkRbDesc::read(&s).unwrap() {
        ToHostWorkRbDesc::Ack(ack) => assert_eq!((ack.psn.get(), ack.msn.get(), ack.retry_psn.get()), (8, 21, 20)),
        _ => panic!("not an acknowledgement"),
    }
    set_bits(&mut s, 149, 3, 3);
    match ToHostWorkRbDesc::read(&s).unwrap() {
        ToHostWorkRbDesc::Nack(nack) => assert_eq!((nack.lost_from.get(), nack.lost_to.get()), (8, 20)),
        _ => panic!("not a negative acknowledgement"),
    }
    match card::work::ToHostWorkRbDesc::read(&s).unwrap() {
        card::work::ToHostWorkRbDesc::Ack(ack) => assert_eq!(ack.code, ToHostWorkRbDescAethCode::Nak),
        _ => panic!("not an acknowledgement"),
    }
}

#[test]
fn commands_are_laid_out() {
    let mut s = [0u8; DESC_SIZE];
    ToCardCtrlRbDesc::UpdateMrTable(ToCardCtrlRbDescUpdateMrTable {
        common: ToCardCtrlRbDescCommon { op_id: 0x01020304 },
        addr: 0x1122334455667788,
        len: 0x0a0b0c0d,
        key: Key::new(0x55667788),
        pd_hdl: 0x99,
        acc_flags: MemAccessTypeFlag::from_bits(6),
        pgt_offset: 0x1_0203,
    })
    .write(&mut s);
    assert_eq!(
        s,
        [
            0x01, 0, 0, 0, 4, 3, 2, 1, 0x88, 0x77, 0x66, 0x55, 0x44, 0x33, 0x22, 0x11, 0x0d, 0x0c, 0x0b, 0x0a, 0x88,
            0x77, 0x66, 0x55, 0x99, 0, 0, 0, 6, 3, 2, 1
        ]
    );
    // a command names its kind and its id as an answer would
    let answer = ToHostCtrlRbDesc::read(&s).unwrap();
    assert_eq!(answer.common.op_id, 0x01020304);
    assert_eq!(answer.common.opcode, CtrlRbDescOpcode::UpdateMrTable);
    assert!(!answer.common.is_success);

    let mut s = [0u8; DESC_SIZE];
    ToCardCtrlRbDesc::UpdatePageTable(ToCardCtrlRbDescUpdatePageTable {
        common: ToCardCtrlRbDescCommon { op_id: 1 },
        start_addr: 0x1000,
        pgt_idx: 2,
        pgte_cnt: 3,
    })
    .write(&mut s);
    assert_eq!((get_bits(&s, 128, 32), get_bits(&s, 160, 32)), (2, 24));

    let mut s = [0u8; DESC_SIZE];
    ToCardCtrlRbDesc::QpManagement(ToCardCtrlRbDescQpManagement {
        common: ToCardCtrlRbDescCommon { op_id: 1 },
        is_valid: true,
        qpn: Qpn::new(0x1234),
        pd_hdl: 7,
        qp_type: QpType::Ud,
        rq_acc_flags: MemAccessTypeFlag::from_bits(2),
        pmtu: Pmtu::Mtu512,
        peer_qpn: Qpn::new(0x4321),
    })
    .write(&mut s);
    assert_eq!((get_bits(&s, 64, 2), get_bits(&s, 72, 24)), (1, 0x1234));
    assert_eq!((get_bits(&s, 128, 4), get_bits(&s, 144, 3), get_bits(&s, 152, 24)), (4, 2, 0x4321));

    let mut s = [0u8; DESC_SIZE];
    ToCardCtrlRbDesc::SetNetworkParam(ToCardCtrlRbDescSetNetworkParam {
        common: ToCardCtrlRbDescCommon { op_id: 1 },
        gateway: Ipv4Addr::new(10, 0, 0, 1),
        netmask: Ipv4Addr::new(255, 255, 255, 0),
        ipaddr: Ipv4Addr::new(10, 0, 0, 2),
        macaddr: MacAddress { octets: [1, 2, 3, 4, 5, 6] },
    })
    .write(&mut s);
    assert_eq!((get_bits(&s, 64, 32), get_bits(&s, 96, 32)), (0x0a000001, 0xffffff00));
    assert_eq!((get_bits(&s, 128, 32), get_bits(&s, 192, 48)), (0x0a000002, 0x010203040506));

    let mut s = [0u8; DESC_SIZE];
    ToCardCtrlRbDesc::SetRawPacketReceiveMeta(ToCardCtrlRbDescSetRawPacketReceiveMeta {
        common: ToCardCtrlRbDescCommon { op_id: 1 },
        base_write_addr: 0x77,
        key: Key::new(0x88),
    })
    .write(&mut s);
    assert_eq!((get_bits(&s, 64, 64), get_bits(&s, 128, 32)), (0x77, 0x88));

    let mut s = [0u8; DESC_SIZE];
    let mut recover = ToCardCtrlRbDesc::UpdateErrorPsnRecoverPoint(ToCardCtrlRbDescUpdateErrPsnRecoverPoint {
        common: ToCardCtrlRbDescCommon { op_id: 1 },
        qpn: Qpn::new(3),
        recover_psn: Psn::new(4),
    });
    recover.set_id(9);
    recover.write(&mut s);
    assert_eq!((get_bits(&s, 64, 24), get_bits(&s, 96, 24), get_bits(&s, 32, 32)), (4, 3, 9));
}

#[test]
fn answers_to_commands() {
    let mut s = [0u8; DESC_SIZE];
    // not marked valid
    assert!(ToHostCtrlRbDesc::read_checked(&s).is_none());
    set_bits(&mut s, 0, 1, 1);
    set_bits(&mut s, 1, 1, 1);
    set_bits(&mut s, 2, 6, 2);
    set_bits(&mut s, 32, 32, 0x10);
    let answer = ToHostCtrlRbDesc::read_checked(&s).unwrap().unwrap();
    assert!(answer.common.is_success);
    assert_eq!((answer.common.op_id, answer.common.opcode), (0x10, CtrlRbDescOpcode::QpManagement));
    set_bits(&mut s, 2, 6, 9);
    assert_eq!(
        ToHostCtrlRbDesc::read_checked(&s),
        Some(Err(DeviceError::ParseDesc(DescField::CtrlOpcode, 9)))
    );
    // a further slot
    set_bits(&mut s, 8, 4, 1);
    assert!(ToHostCtrlRbDesc::read_checked(&s).is_none());
    assert!(ToHostCtrlRbDesc::read_checked(&s[..31]).is_none());
    for code in 0..=5u8 {
        assert_eq!(CtrlRbDescOpcode::try_from_code(code).unwrap().code(), code);
    }
}

#[test]
fn descriptors_of_the_card_have_one_element() {
    let missing = |part| Some(Error::BuildDescFailed(part));
    let builder = card::work::ToCardWorkRbDescBuilder::new(ToCardWorkRbDescOpcode::Write);
    assert_eq!(builder.build().err(), missing(DescPart::Common));
    let builder = builder.with_common(common());
    assert_eq!(builder.build().err(), missing(DescPart::Sge));
    let builder = builder.with_sge(card::types::Sge::new(0x1000, 16, Key::new(0)));
    let desc = builder.build().unwrap();
    assert_eq!(desc.serialized_desc_cnt(), 3);
    let wide = build(ToCardWorkRbDescOpcode::Write, 1).unwrap();
    let mut a = [0u8; DESC_SIZE];
    let mut b = [0u8; DESC_SIZE];
    desc.write_0(&mut a);
    wide.write_0(&mut b);
    assert_eq!(a, b);
    desc.write_1(&mut a);
    wide.write_1(&mut b);
    assert_eq!(a, b);
    // the place of a second element is left as it was
    let mut a = [7u8; DESC_SIZE];
    desc.write_2(&mut a);
    wide.write_2(&mut b);
    assert_eq!(&a[..16], &[7u8; 16]);
    assert_eq!(&a[16..], &b[16..]);
    let s = report(1, 0, 10);
    assert_eq!(card::work::ToHostWorkRbDesc::read(&s).unwrap().status(), ToHostWorkRbDescStatus::Normal);
    let imm = card::work::ToCardWorkRbDescBuilder::new(ToCardWorkRbDescOpcode::WriteWithImm)
        .with_common(common())
        .with_sge(card::types::Sge::new(0x1000, 16, Key::new(0)));
    assert_eq!(imm.build().err(), missing(DescPart::Imm));
    assert!(imm.with_imm(Imm::new(1)).build().is_ok());
}

#[test]
fn codes_of_reports() {
    assert!(ToHostWorkRbDescStatus::Normal.is_ok());
    assert!(!ToHostWorkRbDescStatus::InvMrKey.is_ok());
    assert_eq!(ToHostWorkRbDescStatus::try_from_code(1), Some(ToHostWorkRbDescStatus::Normal));
    assert_eq!(ToHostWorkRbDescOpcode::try_from_code(6), Some(ToHostWorkRbDescOpcode::RdmaWriteFirst));
    assert!(ToHostWorkRbDescOpcode::RdmaWriteFirst.is_first());
    assert!(ToHostWorkRbDescOpcode::RdmaReadResponseOnly.is_resp());
    assert!(ToHostWorkRbDescOpcode::RdmaReadResponseLast.is_read_resp());
    assert!(!ToHostWorkRbDescOpcode::RdmaWriteLast.is_read_resp());
    assert_eq!(ToHostWorkRbDescOpcode::Acknowledge.write_type(), None);
    assert_eq!(ToHostWorkRbDescOpcode::RdmaWriteOnly.write_type(), Some(ToHostWorkRbDescWriteType::Only));
}
