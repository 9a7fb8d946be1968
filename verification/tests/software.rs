//! A card in software.

use open_rdma_driver::device::ctrl::{
    CtrlRbDescOpcode, ToCardCtrlRbDesc, ToCardCtrlRbDescCommon, ToCardCtrlRbDescQpManagement,
    ToCardCtrlRbDescSetRawPacketReceiveMeta, ToCardCtrlRbDescUpdateMrTable,
};
use open_rdma_driver::device::sgl::PayloadInfo;
use open_rdma_driver::device::software::{
    send, to_host_ctrl_opcode, BlueRDMALogic, BlueRdmaLogicError, Metadata, Outgoing, RdmaAckMeta, RdmaGeneralMeta,
    RdmaMessage, RdmaMessageMetaCommon, RethHeader, WriteKind, RDMA_PORT,
};
use open_rdma_driver::device::work::{
    DescSge, ToCardWorkRbDesc, ToCardWorkRbDescCommon, ToCardWorkRbDescRead, ToCardWorkRbDescWrite,
    ToCardWorkRbDescWriteWithImm, ToHostWorkRbDesc, ToHostWorkRbDescAethCode, ToHostWorkRbDescOpcode,
    ToHostWorkRbDescStatus, ToHostWorkRbDescTransType, ToHostWorkRbDescWriteType,
};
use open_rdma_driver::types::{Key, MemAccessTypeFlag, Msn, Pmtu, Psn, QpType, Qpn};

fn remote_write() -> MemAccessTypeFlag {
    MemAccessTypeFlag::from_bits(MemAccessTypeFlag::IBV_ACCESS_REMOTE_WRITE)
}

fn remote_read() -> MemAccessTypeFlag {
    MemAccessTypeFlag::from_bits(MemAccessTypeFlag::IBV_ACCESS_REMOTE_READ)
}

fn both() -> MemAccessTypeFlag {
    MemAccessTypeFlag::from_bits(
        MemAccessTypeFlag::IBV_ACCESS_REMOTE_WRITE | MemAccessTypeFlag::IBV_ACCESS_REMOTE_READ,
    )
}

fn qp_desc(qpn: u32, is_valid: bool, pmtu: Pmtu) -> ToCardCtrlRbDesc {
    ToCardCtrlRbDesc::QpManagement(ToCardCtrlRbDescQpManagement {
        common: ToCardCtrlRbDescCommon { op_id: 0 },
        is_valid,
        qpn: Qpn::new(qpn),
        pd_hdl: 1,
        qp_type: QpType::Rc,
        rq_acc_flags: remote_write(),
        pmtu,
        peer_qpn: Qpn::new(qpn),
    })
}

fn mr_desc(addr: u64, len: u32, key: u32, acc_flags: MemAccessTypeFlag) -> ToCardCtrlRbDesc {
    ToCardCtrlRbDesc::UpdateMrTable(ToCardCtrlRbDescUpdateMrTable {
        common: ToCardCtrlRbDescCommon { op_id: 0 },
        addr,
        len,
        key: Key::new(key),
        pd_hdl: 0,
        acc_flags,
        pgt_offset: 0,
    })
}

// test update mr table, qp table
#[test]
fn test_logic_update() {
    let mut logic = BlueRDMALogic::new();
    // test updating qp
    {
        assert!(logic.update(qp_desc(1234, true, Pmtu::Mtu1024)).common.is_success);
        {
            let inner = logic.queue_pair(Qpn::new(1234)).unwrap();
            assert!(matches!(inner.pmtu, Pmtu::Mtu1024));
            assert!(matches!(inner.qp_type, QpType::Rc));
            assert!(inner.qp_access_flags.contains(remote_write()));
        }

        // write again
        assert!(logic.update(qp_desc(1234, true, Pmtu::Mtu2048)).common.is_success);
        {
            let inner = logic.queue_pair(Qpn::new(1234)).unwrap();
            assert!(matches!(inner.pmtu, Pmtu::Mtu2048));
            assert!(matches!(inner.qp_type, QpType::Rc));
            assert!(inner.qp_access_flags.contains(remote_write()));
        }
    }

    // test updating mr
    {
        assert!(logic.update(mr_desc(0x1234567812345678, 1024 * 16, 1234, remote_write())).common.is_success);
        {
            let read_guard = logic.memory_region(Key::new(1234_u32)).unwrap();
            assert_eq!(read_guard.addr, 0x1234567812345678);
            assert_eq!(read_guard.len, 1024 * 16);
            assert_eq!(read_guard.pdkey, 0);
            assert!(read_guard.acc_flags.contains(remote_write()));
            assert_eq!(read_guard.pgt_offset, 0);
        }

        // update again
        assert!(logic.update(mr_desc(0x1234567812345678, 1024 * 24, 1234, both())).common.is_success);
        {
            let read_guard = logic.memory_region(Key::new(1234_u32)).unwrap();
            assert_eq!(read_guard.addr, 0x1234567812345678);
            assert_eq!(read_guard.len, 1024 * 24);
            assert_eq!(read_guard.pdkey, 0);
            assert!(read_guard.acc_flags.contains(remote_write()));
            assert!(read_guard.acc_flags.contains(remote_read()));
            assert_eq!(read_guard.pgt_offset, 0);
        }
    }
}

#[test]
fn queue_pairs_can_be_torn_down_once() {
    let mut logic = BlueRDMALogic::new();
    logic.update(qp_desc(7, true, Pmtu::Mtu256));
    assert!(logic.update(qp_desc(7, false, Pmtu::Mtu256)).common.is_success);
    assert!(logic.queue_pair(Qpn::new(7)).is_none());
    let answer = logic.update(qp_desc(7, false, Pmtu::Mtu256));
    assert!(!answer.common.is_success);
    assert_eq!(answer.common.opcode, CtrlRbDescOpcode::QpManagement);
    let other = ToCardCtrlRbDesc::SetRawPacketReceiveMeta(ToCardCtrlRbDescSetRawPacketReceiveMeta {
        common: ToCardCtrlRbDescCommon { op_id: 42 },
        base_write_addr: 0,
        key: Key::new(0),
    });
    assert_eq!(to_host_ctrl_opcode(&other), CtrlRbDescOpcode::SetRawPacketReceiveMeta);
    let answer = logic.update(other);
    assert_eq!((answer.common.op_id, answer.common.is_success), (42, true));
}

/// A peer with memory for both sides of a transfer.
fn loopback() -> BlueRDMALogic {
    let mut device = BlueRDMALogic::new();
    device.update(mr_desc(0x10000, 2048, 1234, both()));
    device.update(mr_desc(0x20000, 2048, 4321, both()));
    device.update(qp_desc(5, true, Pmtu::Mtu512));
    device
}

fn write_to(raddr: u64, len: u32) -> ToCardWorkRbDesc {
    ToCardWorkRbDesc::Write(ToCardWorkRbDescWrite {
        common: ToCardWorkRbDescCommon {
            total_len: len,
            raddr,
            rkey: Key::new(1234),
            dqpn: Qpn::new(5),
            pmtu: Pmtu::Mtu512,
            qp_type: QpType::Rc,
            psn: Psn::new(1234),
            msn: Msn::new(77),
            ..Default::default()
        },
        is_last: true,
        is_first: true,
        sge0: DescSge { addr: 0x20000, len, key: Key::new(0) },
        sge1: None,
        sge2: None,
        sge3: None,
    })
}

fn sent(desc: &ToCardWorkRbDesc) -> Vec<RdmaMessage> {
    match send(desc) {
        Ok(Outgoing::Messages(messages)) => messages,
        _ => panic!("unexpected descriptor"),
    }
}

#[test]
fn test_loopback_software_device_write_and_read() {
    let device = loopback();
    let dqpn = 5;
    let pmtu = 512;
    let dest_addr = 0x10000;

    // test a align sending
    {
        let messages = sent(&write_to(dest_addr, 1024));
        assert_eq!(messages.len(), 2);
        let q1 = device.recv(&messages[0]);
        match q1.descriptor.unwrap() {
            ToHostWorkRbDesc::WriteOrReadResp(data) => {
                assert_eq!(data.common.dqpn.get(), dqpn);
                assert!(matches!(data.write_type, ToHostWorkRbDescWriteType::First));
            }
            ToHostWorkRbDesc::Read(_)
            | ToHostWorkRbDesc::WriteWithImm(_)
            | ToHostWorkRbDesc::Ack(_)
            | ToHostWorkRbDesc::Nack(_)
            | ToHostWorkRbDesc::Raw(_) => panic!("unexpected descriptor"),
        }
        let q2 = device.recv(&messages[1]);
        match q2.descriptor.unwrap() {
            ToHostWorkRbDesc::WriteOrReadResp(data) => {
                assert_eq!(data.common.dqpn.get(), dqpn);
                assert!(matches!(data.write_type, ToHostWorkRbDescWriteType::Last));
                assert_eq!(data.addr, dest_addr + 512);
            }
            ToHostWorkRbDesc::Read(_)
            | ToHostWorkRbDesc::WriteWithImm(_)
            | ToHostWorkRbDesc::Ack(_)
            | ToHostWorkRbDesc::Nack(_)
            | ToHostWorkRbDesc::Raw(_) => panic!("unexpected descriptor"),
        }
        // each packet's data goes to where the write names it
        let copies = vec![
            (q1.copy_to, messages[0].payload.get_sg_list()[0].data, messages[0].payload.get_length()),
            (q2.copy_to, messages[1].payload.get_sg_list()[0].data, messages[1].payload.get_length()),
        ];
        assert_eq!(copies, vec![(Some(0x10000), 0x20000, 512), (Some(0x10200), 0x20200, 512)]);
    }

    // test a unalign sending
    // still 2ptmu, but offset = 5
    {
        let offset = 5;
        let messages = sent(&write_to(dest_addr + offset, 1024));
        assert_eq!(messages.len(), 3);
        let expected = [
            (ToHostWorkRbDescWriteType::First, dest_addr + offset, 507),
            (ToHostWorkRbDescWriteType::Middle, dest_addr + pmtu, 512),
            (ToHostWorkRbDescWriteType::Last, dest_addr + 2 * pmtu, 5),
        ];
        for (k, (write_type, addr, len)) in expected.iter().enumerate() {
            let received = device.recv(&messages[k]);
            match received.descriptor.unwrap() {
                ToHostWorkRbDesc::WriteOrReadResp(data) => {
                    assert_eq!(data.common.dqpn.get(), dqpn);
                    assert_eq!(data.write_type, *write_type);
                    assert_eq!(data.addr, *addr);
                    assert_eq!(data.psn.get(), 1234 + k as u32);
                    assert_eq!(data.common.msn.get(), 77);
                    assert_eq!(data.common.status, ToHostWorkRbDescStatus::Normal);
                }
                _ => panic!("unexpected descriptor"),
            }
            assert_eq!(received.copy_to, Some(*addr));
            assert_eq!(messages[k].payload.get_length(), *len);
        }
    }
}

#[test]
fn a_write_that_fits_is_one_packet() {
    let messages = sent(&write_to(0x10000, 100));
    assert_eq!(messages.len(), 1);
    assert_eq!(messages[0].meta_data.common_meta().opcode, ToHostWorkRbDescOpcode::RdmaWriteOnly);
    assert_eq!(messages[0].payload.get_length(), 100);
}

#[test]
fn a_read_says_where_the_answer_goes() {
    let desc = ToCardWorkRbDesc::Read(ToCardWorkRbDescRead {
        common: ToCardWorkRbDescCommon {
            total_len: 1024,
            raddr: 0x10000,
            rkey: Key::new(1234),
            dqpn: Qpn::new(5),
            ..Default::default()
        },
        sge: DescSge { addr: 0x20000, len: 1024, key: Key::new(4321) },
    });
    let messages = sent(&desc);
    assert_eq!(messages.len(), 1);
    let received = loopback().recv(&messages[0]);
    assert_eq!(received.copy_to, None);
    match received.descriptor.unwrap() {
        ToHostWorkRbDesc::Read(read) => {
            assert_eq!((read.laddr, read.lkey.get(), read.len), (0x10000, 1234, 1024));
            assert_eq!((read.raddr, read.rkey.get()), (0x20000, 4321));
        }
        _ => panic!("unexpected descriptor"),
    }
}

fn raw(len: u32) -> ToCardWorkRbDesc {
    ToCardWorkRbDesc::WriteWithImm(ToCardWorkRbDescWriteWithImm {
        common: ToCardWorkRbDescCommon { total_len: len, qp_type: QpType::RawPacket, ..Default::default() },
        is_last: true,
        is_first: true,
        imm: 0,
        sge0: DescSge { addr: 0x20000, len, key: Key::new(0) },
        sge1: None,
        sge2: None,
        sge3: None,
    })
}

#[test]
fn plain_packets_are_sent_as_they_are() {
    match send(&raw(66)) {
        Ok(Outgoing::Raw(payload)) => assert_eq!(payload.get_length(), 66),
        _ => panic!("not a plain packet"),
    }
    assert!(matches!(send(&raw(1 << 20)), Err(BlueRdmaLogicError::RawPacketLengthTooLong(_, _))));
    assert_eq!(RDMA_PORT, 4791);
}

#[test]
fn memory_is_checked_before_it_is_touched() {
    let device = loopback();
    assert_eq!(device.validate_rkey(Key::new(1), both(), 0x10000, 1), ToHostWorkRbDescStatus::InvMrKey);
    let local = MemAccessTypeFlag::from_bits(MemAccessTypeFlag::IBV_ACCESS_LOCAL_WRITE);
    assert_eq!(device.validate_rkey(Key::new(1234), local, 0x10000, 1), ToHostWorkRbDescStatus::InvAccFlag);
    assert_eq!(device.validate_rkey(Key::new(1234), both(), 0xffff, 1), ToHostWorkRbDescStatus::InvMrRegion);
    assert_eq!(device.validate_rkey(Key::new(1234), both(), 0x10000, 2049), ToHostWorkRbDescStatus::InvMrRegion);
    assert_eq!(device.validate_rkey(Key::new(1234), both(), 0x10000, 2048), ToHostWorkRbDescStatus::Normal);
    assert_eq!(device.validate_rkey(Key::new(1234), both(), u64::MAX, 2), ToHostWorkRbDescStatus::InvMrRegion);
    assert_eq!(device.validate_rkey(Key::new(1234), both(), 0x10801, 0), ToHostWorkRbDescStatus::InvMrRegion);
    // a packet for memory that is not allowed is reported, and not copied
    let messages = sent(&write_to(0x30000, 1024));
    let received = device.recv(&messages[0]);
    assert_eq!(received.copy_to, None);
    assert_eq!(received.descriptor.map(|d| *d.status()), Some(ToHostWorkRbDescStatus::InvMrRegion));
}

fn meta(opcode: ToHostWorkRbDescOpcode) -> RdmaMessageMetaCommon {
    RdmaMessageMetaCommon {
        tran_type: ToHostWorkRbDescTransType::Rc,
        opcode,
        solicited: false,
        pkey: 3,
        dqpn: Qpn::new(5),
        ack_req: false,
        psn: Psn::new(9),
    }
}

#[test]
fn acknowledgements_are_reported() {
    let message = RdmaMessage {
        meta_data: Metadata::Acknowledge(RdmaAckMeta {
            common_meta: meta(ToHostWorkRbDescOpcode::Acknowledge),
            aeth_code: ToHostWorkRbDescAethCode::Ack,
            aeth_value: 4,
            msn: 0x1_0002,
        }),
        payload: PayloadInfo::new(),
    };
    match BlueRDMALogic::new().recv(&message).descriptor.unwrap() {
        ToHostWorkRbDesc::Ack(ack) => {
            assert_eq!((ack.msn.get(), ack.value, ack.psn.get()), (2, 4, 9));
            assert_eq!(ack.common.msn.get(), 3);
        }
        _ => panic!("unexpected descriptor"),
    }
}

#[test]
fn needed_permissions_follow_the_packet() {
    let reth = RethHeader { va: 0, rkey: Key::new(0), len: 0 };
    let general = |opcode| RdmaGeneralMeta { common_meta: meta(opcode), reth, imm: None, secondary_reth: None };
    let write = general(ToHostWorkRbDescOpcode::RdmaWriteOnly);
    assert!(write.has_payload());
    assert_eq!(write.needed_permissions(), remote_write());
    let read = general(ToHostWorkRbDescOpcode::RdmaReadRequest);
    assert!(!read.has_payload());
    assert_eq!(read.needed_permissions(), remote_read());
    // a request that does not say where the answer goes is not reported
    let message = RdmaMessage { meta_data: Metadata::General(read), payload: PayloadInfo::new() };
    assert!(loopback().recv(&message).descriptor.is_none());
}

#[test]
fn opcodes_of_the_packets_of_a_write() {
    let kind = WriteKind { is_first: true, is_last: true, is_resp: false, imm: Some(8) };
    assert_eq!(kind.write_first_opcode(), ToHostWorkRbDescOpcode::RdmaWriteFirst);
    assert_eq!(kind.write_middle_opcode(), ToHostWorkRbDescOpcode::RdmaWriteMiddle);
    assert_eq!(
        kind.write_last_opcode_with_imm(),
        (ToHostWorkRbDescOpcode::RdmaWriteLastWithImmediate, Some(8))
    );
    assert_eq!(
        kind.write_only_opcode_with_imm(),
        (ToHostWorkRbDescOpcode::RdmaWriteOnlyWithImmediate, Some(8))
    );
    let kind = WriteKind { is_first: false, is_last: true, is_resp: true, imm: None };
    assert_eq!(kind.write_first_opcode(), ToHostWorkRbDescOpcode::RdmaReadResponseMiddle);
    assert_eq!(kind.write_last_opcode_with_imm(), (ToHostWorkRbDescOpcode::RdmaReadResponseLast, None));
}

#[test]
fn packets_bring_the_bytes_of_their_place() {
    let mut desc = match write_to(0x10100, 1000) {
        ToCardWorkRbDesc::Write(desc) => desc,
        _ => panic!("unexpected descriptor"),
    };
    desc.sge0 = DescSge { addr: 0x20000, len: 300, key: Key::new(0) };
    desc.sge1 = Some(DescSge { addr: 0x30000, len: 700, key: Key::new(0) });
    let messages = sent(&ToCardWorkRbDesc::Write(desc));
    let pieces: Vec<Vec<(u64, u32)>> = messages
        .iter()
        .map(|message| message.payload.get_sg_list().iter().map(|piece| (piece.data, piece.len)).collect())
        .collect();
    assert_eq!(
        pieces,
        vec![vec![(0x20000, 256)], vec![(0x20100, 44), (0x30000, 468)], vec![(0x30000 + 468, 232)]]
    );
    let addrs: Vec<u64> = messages
        .iter()
        .map(|message| match &message.meta_data {
            Metadata::General(header) => header.reth.va,
            _ => panic!("unexpected packet"),
        })
        .collect();
    assert_eq!(addrs, vec![0x10100, 0x10200, 0x10400]);
}

#[test]
fn a_write_that_fits_is_reported_as_a_whole() {
    let messages = sent(&write_to(0x10000, 100));
    let received = loopback().recv(&messages[0]);
    assert_eq!(received.copy_to, Some(0x10000));
    match received.descriptor.unwrap() {
        ToHostWorkRbDesc::WriteOrReadResp(report) => {
            assert_eq!(report.write_type, ToHostWorkRbDescWriteType::Only);
            assert_eq!((report.addr, report.psn.get()), (0x10000, 1234));
            assert_eq!((report.common.dqpn.get(), report.common.msn.get()), (5, 77));
            assert_eq!(report.common.status, ToHostWorkRbDescStatus::Normal);
            assert!(!report.is_read_resp);
        }
        _ => panic!("unexpected descriptor"),
    }
}

#[test]
fn the_immediate_number_comes_with_the_last_packet() {
    let write = match write_to(0x10000, 1024) {
        ToCardWorkRbDesc::Write(desc) => desc,
        _ => panic!("unexpected descriptor"),
    };
    let messages = sent(&ToCardWorkRbDesc::WriteWithImm(ToCardWorkRbDescWriteWithImm {
        common: write.common,
        is_last: true,
        is_first: true,
        imm: 0x5678,
        sge0: write.sge0,
        sge1: None,
        sge2: None,
        sge3: None,
    }));
    assert_eq!(messages.len(), 2);
    let device = loopback();
    assert!(matches!(device.recv(&messages[0]).descriptor, Some(ToHostWorkRbDesc::WriteOrReadResp(_))));
    match device.recv(&messages[1]).descriptor.unwrap() {
        ToHostWorkRbDesc::WriteWithImm(report) => {
            assert_eq!(report.imm, 0x5678);
            assert_eq!((report.addr, report.psn.get()), (0x10200, 1235));
            assert_eq!(report.write_type, ToHostWorkRbDescWriteType::Last);
        }
        _ => panic!("unexpected descriptor"),
    }
}
