//! The packets and descriptors with which the driver answers its peer.

use open_rdma_driver::buf::PacketBuf;
use open_rdma_driver::device::work::{ToCardWorkRbDesc, ToHostWorkRbDescCommon, ToHostWorkRbDescRead};
use open_rdma_driver::pd::Pd;
use open_rdma_driver::qp::{QpContext, QpTable};
use open_rdma_driver::responser::{
    calculate_icrc, calculate_ipv4_checksum, icrc_input, make_ack, make_nack, make_read_resp, write_icrc,
    write_packet, write_packet_headers, ACKPACKET_SIZE, ACK_SLOT_SIZE,
};
use open_rdma_driver::types::{
    Error, Ipv4Addr, Key, MacAddress, Msn, Pmtu, Psn, QpType, Qpn, Subject, WorkReqSendFlag,
};

const BUFFER_SIZE: usize = 1024 * ACK_SLOT_SIZE;

#[test]
fn test_icrc_computing() {
    let packet = [
        0x45, 0x00, 0x00, 0xbc, 0x00, 0x01, 0x00, 0x00, 0x40, 0x11, 0xf8, 0xda, 0xc0, 0xa8, 0x00, 0x02, 0xc0, 0xa8,
        0x00, 0x03, 0x12, 0xb7, 0x12, 0xb7, 0x00, 0xa8, 0x00, 0x00, 0x0a, 0x80, 0x00, 0x00, 0x00, 0x00, 0x00, 0x02,
        0x80, 0x00, 0x00, 0x00, 0x00, 0x00, 0x7f, 0x7e, 0x91, 0x00, 0x00, 0x00, 0x01, 0x70, 0x9a, 0x33, 0x00, 0x00,
        0x00, 0x80, 0xff, 0xff, 0xff, 0xff, 0xff, 0xff, 0xff, 0xff, 0xff, 0xff, 0xff, 0xff, 0xff, 0xff, 0xff, 0xff,
        0xff, 0xff, 0xff, 0xff, 0xff, 0xff, 0xff, 0xff, 0xff, 0xff, 0xff, 0xff, 0xff, 0xff, 0xff, 0xff, 0xff, 0xff,
        0xff, 0xff, 0xff, 0xff, 0xff, 0xff, 0xff, 0xff, 0xff, 0xff, 0xff, 0xff, 0xff, 0xff, 0xff, 0xff, 0xff, 0xff,
        0xff, 0xff, 0xff, 0xff, 0xff, 0xff, 0xff, 0xff, 0xff, 0xff, 0xff, 0xff, 0xff, 0xff, 0xff, 0xff, 0xff, 0xff,
        0xff, 0xff, 0xff, 0xff, 0xff, 0xff, 0xff, 0xff, 0xff, 0xff, 0xff, 0xff, 0xff, 0xff, 0xff, 0xff, 0xff, 0xff,
        0xff, 0xff, 0xff, 0xff, 0xff, 0xff, 0xff, 0xff, 0xff, 0xff, 0xff, 0xff, 0xff, 0xff, 0xff, 0xff, 0xff, 0xff,
        0xff, 0xff, 0xff, 0xff, 0xff, 0xff, 0xff, 0xff, 0xff, 0xff, 0xff, 0xff, 0xff, 0xff, 0xff, 0xff, 0xff, 0xff,
        0xff, 0xff, 0xff, 0xff, 0xc6, 0x87, 0x22, 0x98,
    ];
    let icrc = calculate_icrc(&packet);
    assert_eq!(icrc, u32::from_le_bytes([0xc6, 0x87, 0x22, 0x98]));
    let packet = [
        69, 0, 0, 0, 0, 0, 0, 0, 64, 17, 124, 232, 127, 0, 0, 3, 127, 0, 0, 2, 18, 183, 18, 183, 0, 32, 0, 0, 17, 0,
        0, 0, 0, 0, 0, 2, 0, 0, 0, 0, 0, 0, 0, 0, 0, 0, 0, 0, 0, 0, 0, 0,
    ];
    let icrc = calculate_icrc(&packet);
    assert_eq!(icrc, u32::from_le_bytes([64, 33, 163, 207]));
}

#[test]
fn test_calculate_ipv4_checksum() {
    // capture from a real packet
    let ref_header: [u8; 20] = [
        0x45, 0x00, 0x00, 0x34, 0xb4, 0xef, 0x40, 0x00, 0x25, 0x06, 0x00, 0x00, 0x14, 0x59, 0xed, 0x08, 0xac, 0x1b,
        0xe8, 0xda,
    ];
    let expected_checksum: u16 = u16::from_be_bytes([0x0a, 0x7d]);
    let checksum = calculate_ipv4_checksum(&ref_header);
    assert_eq!(checksum, expected_checksum);
    let ref_header = [
        0x45, 0x00, 0x02, 0x0c, 0x3f, 0x3b, 0x40, 0x00, 0x29, 0x06, 0x00, 0x00, 0x8c, 0x52, 0x72, 0x15, 0xac, 0x1b,
        0xe8, 0xda,
    ];
    let expected_checksum: u16 = u16::from_be_bytes([0x7d, 0x53]);
    let checksum = calculate_ipv4_checksum(&ref_header);
    assert_eq!(checksum, expected_checksum);
    let ref_header = [
        0x45, 0x0, 0x0, 0xbc, 0x0, 0x1, 0x0, 0x0, 0x40, 0x11, 0x0, 0x0, 0xc0, 0xa8, 0x0, 0x2, 0xc0, 0xa8, 0x0, 0x3,
    ];
    let checksum = calculate_ipv4_checksum(&ref_header);
    let expected_checksum: u16 = u16::from_be_bytes([0xf8, 0xda]);
    assert_eq!(checksum, expected_checksum);
}

#[test]
fn test_make_ack() {
    let mut buffer = vec![0u8; BUFFER_SIZE];
    let lkey = Key::new(0x1000);
    let mut ack_buffers: PacketBuf<ACK_SLOT_SIZE> = PacketBuf::new(buffer.as_ptr() as usize, BUFFER_SIZE, lkey);
    let mut qp_table = QpTable::new();
    let qpn = Qpn::new(321);
    let msn = Msn::new(0x123);
    let psn = Psn::new(0x456);
    let local_mac = MacAddress { octets: [0x12, 0x34, 0x56, 0x78, 0x9a, 0xbc] };
    let dqp_mac_addr = MacAddress { octets: [0x21, 0x43, 0x65, 0x87, 0x9a, 0xbc] };
    qp_table.insert(
        qpn,
        QpContext {
            pd: Pd { handle: 1 },
            qpn,
            local_mac,
            dqp_mac_addr,
            ..Default::default()
        },
    );
    let ack_buf = ack_buffers.recycle_buf();
    let desc = make_ack(&mut buffer[0..ACK_SLOT_SIZE], ack_buf, &qp_table, qpn, msn, psn).unwrap();
    // check the desc
    match *desc {
        ToCardWorkRbDesc::WriteWithImm(desc) => {
            assert_eq!(desc.common.dqpn.get(), qpn.get());
            assert_eq!(desc.common.total_len, ACKPACKET_SIZE as u32);
            assert!(matches!(desc.common.pmtu, Pmtu::Mtu4096));
            assert_eq!(desc.common.flags.bits(), 0);
            assert!(matches!(desc.common.qp_type, QpType::RawPacket));
            assert_eq!(desc.sge0.len, ACKPACKET_SIZE as u32);
            assert_eq!(desc.sge0.key.get(), lkey.get());
        }
        ToCardWorkRbDesc::Read(_) | ToCardWorkRbDesc::Write(_) | ToCardWorkRbDesc::ReadResp(_) => {
            panic!("Unexpected desc type");
        }
    }
    // check the content
    // the following context is checked manually
    let expected_buffer = [
        0x21, 0x43, 0x65, 0x87, 0x9a, 0xbc, 0x12, 0x34, 0x56, 0x78, 0x9a, 0xbc, 0x08, 0x00, 0x45, 0x00, 0x00, 0x34,
        0x27, 0x00, 0x00, 0x00, 0x40, 0x11, 0x55, 0xb7, 0x7f, 0x00, 0x00, 0x01, 0x7f, 0x00, 0x00, 0x01, 0x12, 0xb7,
        0x12, 0xb7, 0x00, 0x20, 0x00, 0x00, 0x11, 0x00, 0x00, 0x00, 0x00, 0x00, 0x01, 0x41, 0x00, 0x00, 0x04, 0x56,
        0x00, 0x00, 0x01, 0x23, 0x00, 0x00, 0x00, 0x00, 0xa6, 0x91, 0x8e, 0xe5,
    ];
    assert_eq!(&buffer[0..ACKPACKET_SIZE], &expected_buffer);
}

#[test]
fn test_make_nack() {
    let mut buffer = vec![0u8; BUFFER_SIZE];
    let lkey = Key::new(0x1000);
    let mut ack_buffers: PacketBuf<ACK_SLOT_SIZE> = PacketBuf::new(buffer.as_ptr() as usize, BUFFER_SIZE, lkey);
    let mut qp_table = QpTable::new();
    let qpn = Qpn::new(321);
    let msn = Msn::new(0x123);
    let psn = Psn::new(0x456);
    let expeceted_psn = Psn::new(0x789);
    let local_mac = MacAddress { octets: [0x12, 0x34, 0x56, 0x78, 0x9a, 0xbc] };
    let dqp_mac_addr = MacAddress { octets: [0x21, 0x43, 0x65, 0x87, 0x9a, 0xbc] };
    qp_table.insert(
        qpn,
        QpContext {
            pd: Pd { handle: 1 },
            qpn,
            local_mac,
            dqp_mac_addr,
            ..Default::default()
        },
    );
    let ack_buf = ack_buffers.recycle_buf();
    let desc =
        make_nack(&mut buffer[0..ACK_SLOT_SIZE], ack_buf, &qp_table, qpn, msn, psn, expeceted_psn).unwrap();
    // check the desc
    match *desc {
        ToCardWorkRbDesc::WriteWithImm(desc) => {
            assert_eq!(desc.common.dqpn.get(), qpn.get());
            assert_eq!(desc.common.total_len, ACKPACKET_SIZE as u32);
            assert!(matches!(desc.common.pmtu, Pmtu::Mtu4096));
            assert_eq!(desc.common.flags.bits(), 0);
            assert!(matches!(desc.common.qp_type, QpType::RawPacket));
            assert_eq!(desc.sge0.len, ACKPACKET_SIZE as u32);
            assert_eq!(desc.sge0.key.get(), lkey.get());
        }
        ToCardWorkRbDesc::Read(_) | ToCardWorkRbDesc::Write(_) | ToCardWorkRbDesc::ReadResp(_) => {
            panic!("Unexpected desc type");
        }
    }

    // check the content
    // the following context is checked manually
    let expected_buffer = [
        0x21, 0x43, 0x65, 0x87, 0x9a, 0xbc, 0x12, 0x34, 0x56, 0x78, 0x9a, 0xbc, 0x08, 0x00, 0x45, 0x00, 0x00, 0x34,
        0x27, 0x00, 0x00, 0x00, 0x40, 0x11, 0x55, 0xb7, 0x7f, 0x00, 0x00, 0x01, 0x7f, 0x00, 0x00, 0x01, 0x12, 0xb7,
        0x12, 0xb7, 0x00, 0x20, 0x00, 0x00, 0x11, 0x00, 0x00, 0x00, 0x00, 0x00, 0x01, 0x41, 0x00, 0x00, 0x04, 0x56,
        0x06, 0x00, 0x01, 0x23, 0x00, 0x07, 0x89, 0x00, 0xa6, 0xad, 0xef, 0xcc,
    ];
    assert_eq!(&buffer[0..ACKPACKET_SIZE], &expected_buffer);
}

#[test]
fn test_make_read_resp() {
    let mut qp_table = QpTable::new();
    let qpn = Qpn::new(321);
    let msn = Msn::new(0x123);
    let start_psn = Psn::new(0x1234);
    qp_table.insert(
        qpn,
        QpContext {
            pd: Pd { handle: 1 },
            qpn,
            sending_psn: start_psn,
            ..Default::default()
        },
    );
    let len = 4321;
    let laddr = 0x12345678;
    let lkey = Key::new(0x1000);
    let raddr = 0x87654321;
    let rkey = Key::new(0x2000);
    let read_req = ToHostWorkRbDescRead {
        common: ToHostWorkRbDescCommon {
            dqpn: qpn,
            msn,
            ..Default::default()
        },
        len,
        laddr,
        lkey,
        raddr,
        rkey,
    };
    let desc = make_read_resp(&mut qp_table, &read_req).unwrap();
    match *desc {
        ToCardWorkRbDesc::ReadResp(desc) => {
            assert_eq!(desc.common.dqpn.get(), qpn.get());
            assert_eq!(desc.common.total_len, len);
            assert_eq!(desc.common.rkey, rkey);
            assert_eq!(desc.common.raddr, raddr);
            assert_eq!(desc.common.dqp_ip, Ipv4Addr::new(127, 0, 0, 1));
            assert_eq!(desc.common.mac_addr, MacAddress::default());
            assert!(matches!(desc.common.pmtu, Pmtu::Mtu4096));
            assert_eq!(desc.common.flags, WorkReqSendFlag::empty());
            assert!(matches!(desc.common.qp_type, QpType::Rc));
            assert_eq!(desc.common.psn, start_psn);
            assert_eq!(desc.sge0.len, len);
            assert_eq!(desc.sge0.key, lkey);
        }
        ToCardWorkRbDesc::Read(_) | ToCardWorkRbDesc::Write(_) | ToCardWorkRbDesc::WriteWithImm(_) => {
            panic!("Unexpected desc type");
        }
    }
    // the next response goes on after the packets of this one
    assert_eq!(qp_table.get(qpn).unwrap().sending_psn, Psn::new(0x1236));
}

#[test]
fn nothing_is_answered_for_an_unknown_queue_pair() {
    let mut qp_table = QpTable::new();
    let qpn = Qpn::new(3);
    let mut mem = vec![7u8; ACK_SLOT_SIZE];
    let mut bufs: PacketBuf<ACK_SLOT_SIZE> = PacketBuf::new(0x1000, BUFFER_SIZE, Key::new(1));
    let refused = Error::Invalid(Subject::Qp(qpn));
    let slot = bufs.recycle_buf();
    assert_eq!(make_ack(&mut mem, slot, &qp_table, qpn, Msn::new(1), Psn::new(2)).err(), Some(refused));
    let slot = bufs.recycle_buf();
    assert_eq!(
        make_nack(&mut mem, slot, &qp_table, qpn, Msn::new(1), Psn::new(2), Psn::new(3)).err(),
        Some(refused)
    );
    assert_eq!(mem, vec![7u8; ACK_SLOT_SIZE]);
    let read_req = ToHostWorkRbDescRead {
        common: ToHostWorkRbDescCommon { dqpn: qpn, ..Default::default() },
        ..Default::default()
    };
    assert_eq!(make_read_resp(&mut qp_table, &read_req).err(), Some(refused));
}

#[test]
fn a_packet_is_its_headers_and_their_check_code() {
    let src = (MacAddress { octets: [1; 6] }, Ipv4Addr::new(10, 0, 0, 1));
    let dst = (MacAddress { octets: [2; 6] }, Ipv4Addr::new(10, 0, 0, 2));
    let mut whole = vec![0xffu8; 80];
    write_packet(&mut whole, src, dst, Qpn::new(5), Msn::new(6), Psn::new(7), None);
    let mut parts = vec![0xffu8; 80];
    write_packet_headers(&mut parts, src, dst, Qpn::new(5), Msn::new(6), Psn::new(7), None);
    let icrc = calculate_icrc(&parts[14..ACKPACKET_SIZE]);
    write_icrc(&mut parts, icrc);
    assert_eq!(whole, parts);
    // the header's checksum sums up to nothing
    let mut header = whole[14..34].to_vec();
    assert_eq!(calculate_ipv4_checksum(&header), 0);
    let stored = u16::from_be_bytes([header[10], header[11]]);
    header[10] = 0;
    header[11] = 0;
    assert_eq!(calculate_ipv4_checksum(&header), stored);
    // what follows the packet is not touched
    assert_eq!(&whole[ACKPACKET_SIZE..], &[0xffu8; 14]);
}

#[test]
fn what_may_change_on_the_way_is_not_checked() {
    let mut packet = vec![1u8; 60];
    let before = calculate_icrc(&packet);
    packet[1] = 9; // type of service
    packet[8] = 9; // time to live
    packet[10] = 9; // header checksum
    packet[59] = 9; // the code itself
    assert_eq!(calculate_icrc(&packet), before);
    packet[12] = 9; // source address
    assert_ne!(calculate_icrc(&packet), before);
    let input = icrc_input(&packet);
    assert_eq!(&input[0..8], &[0xff; 8]);
    assert_eq!(input.len(), 8 + 56);
}
