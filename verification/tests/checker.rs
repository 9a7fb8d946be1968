//! Following the packets that the card reports.

use open_rdma_driver::buf::{PacketBuf, Slot};
use open_rdma_driver::checker::{
    get_continous_range, on_recovered, recover_desc, CheckerAction, PacketCheckEvent, PacketCheckerContext,
    PerQpContextMap, RecentQpMsnStatus, RecvContext, MAX_MSN_WINDOW_PER_QP,
};
use open_rdma_driver::device::ctrl::ToCardCtrlRbDesc;
use open_rdma_driver::device::work::{
    ToCardWorkRbDesc, ToHostWorkRbDescAck, ToHostWorkRbDescAethCode, ToHostWorkRbDescCommon, ToHostWorkRbDescRead,
    ToHostWorkRbDescWriteOrReadResp, ToHostWorkRbDescWriteType,
};
use open_rdma_driver::pd::Pd;
use open_rdma_driver::qp::{QpContext, QpStatus, QpTable};
use open_rdma_driver::responser::{make_ack, ACK_SLOT_SIZE};
use open_rdma_driver::types::{Key, Msn, Pmtu, Psn, QpType, Qpn};
use open_rdma_driver::utils::{calculate_packet_cnt, get_first_packet_max_length};

const BUFFER_SIZE: usize = 1024 * ACK_SLOT_SIZE;

/// A checker, its queue pairs, and what it asked for.
struct Fixture {
    context: PacketCheckerContext,
    qp_table: QpTable,
    ctrl_queue: Vec<(Qpn, ToCardCtrlRbDesc)>,
    work_queue: Vec<ToCardWorkRbDesc>,
    woken: Vec<(Qpn, Msn)>,
}

fn construct_context(qpn: Qpn) -> Fixture {
    let mut qp_table = QpTable::new();
    qp_table.insert(qpn, QpContext { qpn, ..Default::default() });
    Fixture {
        context: PacketCheckerContext::new(PacketBuf::new(0x1000_0000, BUFFER_SIZE, Key::new(0x1000))),
        qp_table,
        ctrl_queue: Vec::new(),
        work_queue: Vec::new(),
        woken: Vec::new(),
    }
}

impl Fixture {
    fn handle_check_event(&mut self, event: PacketCheckEvent) {
        for action in self.context.handle_check_event(&mut self.qp_table, &event) {
            match action {
                CheckerAction::SendAck { addr, key, qpn, msn, psn } => {
                    let mut mem = vec![0u8; ACK_SLOT_SIZE];
                    let slot: Slot<ACK_SLOT_SIZE> = Slot::from_raw_parts_mut(addr, key);
                    let desc = make_ack(&mut mem, slot, &self.qp_table, qpn, msn, psn).unwrap();
                    self.work_queue.push(*desc);
                }
                CheckerAction::WakeUp { qpn, msn } => self.woken.push((qpn, msn)),
                CheckerAction::Recover { qpn, psn } => self.ctrl_queue.push((qpn, recover_desc(qpn, psn))),
                CheckerAction::SendReadResp(desc) => self.work_queue.push(desc),
            }
        }
    }

    fn ctrl_pop_and_exec_handler(&mut self, is_succ: bool) {
        if let Some((qpn, _)) = self.ctrl_queue.pop() {
            on_recovered(&mut self.qp_table, qpn, is_succ);
        }
    }

    fn has_ctrl_desc(&self) -> bool {
        !self.ctrl_queue.is_empty()
    }

    fn work_pop(&mut self) -> Option<ToCardWorkRbDesc> {
        self.work_queue.pop()
    }
}

fn make_ref_packet_event(qpn: Qpn, start_psn: u32, msn: u16, addr: u64, len: u32) -> PacketCheckEvent {
    PacketCheckEvent::Write(ToHostWorkRbDescWriteOrReadResp {
        common: ToHostWorkRbDescCommon {
            dqpn: qpn,
            msn: Msn::new(msn),
            expected_psn: Psn::new(start_psn),
            ..Default::default()
        },
        psn: Psn::new(start_psn),
        write_type: ToHostWorkRbDescWriteType::First,
        can_auto_ack: true,
        addr,
        len,
        is_read_resp: false,
    })
}

fn update<F: Fn(&mut ToHostWorkRbDescWriteOrReadResp)>(pkt: &mut PacketCheckEvent, f: F) {
    if let PacketCheckEvent::Write(ref mut e) = pkt {
        f(e)
    }
}

fn set_expected_psn(pkt: &mut PacketCheckEvent, psn: Psn) {
    update(pkt, |desc| {
        desc.common.expected_psn = psn;
    });
}

fn reset_packet_psn(packets: &mut [PacketCheckEvent], psn: u32, expected: u32) {
    let base_psn = if let PacketCheckEvent::Write(p) = &packets[0] {
        p.psn
    } else {
        panic!("should be a write event")
    };
    set_expected_psn(&mut packets[Psn::new(psn).wrapping_abs(base_psn) as usize], base_psn.wrapping_add(expected));
}

/// Generate a range of packets
fn generate_range_of_packet(pkt: PacketCheckEvent, pmtu: Pmtu) -> Vec<PacketCheckEvent> {
    let (start_psn, start_addr, length) = if let PacketCheckEvent::Write(ref e) = pkt {
        (e.psn, e.addr, e.len)
    } else {
        panic!("pkt should be a write event")
    };
    let count = calculate_packet_cnt(pmtu, start_addr, length);
    let mut results = Vec::with_capacity(count as usize);
    for i in 0..count {
        let mut pkt = pkt.clone();
        update(&mut pkt, |desc| {
            if i == 0 {
                desc.write_type = ToHostWorkRbDescWriteType::First;
                desc.addr = start_addr;
                desc.len = length
            } else if i == count - 1 {
                desc.write_type = ToHostWorkRbDescWriteType::Last;
                desc.addr = start_addr - (start_addr % u64::from(&pmtu)) + i as u64 * u64::from(&pmtu);
                let first_pkt_length = get_first_packet_max_length(start_addr, u32::from(&pmtu));
                desc.len = (length - first_pkt_length) % u32::from(&pmtu);
            } else {
                desc.write_type = ToHostWorkRbDescWriteType::Middle;
                desc.addr = start_addr - (start_addr % u64::from(&pmtu)) + i as u64 * u64::from(&pmtu);
                desc.len = u32::from(&pmtu);
            }
            desc.psn = start_psn.wrapping_add(i);
            desc.common.expected_psn = desc.psn;
        });
        results.push(pkt);
    }
    results
}

fn check_qp_status(f: &Fixture, qpn: Qpn, status: QpStatus) {
    assert_eq!(f.qp_table.get(qpn).unwrap().status, status);
}

fn check_recv_ctx_exist(f: &Fixture, qpn: Qpn, msn: Msn, is_exist: bool) {
    assert_eq!(f.context.recv_ctx_map().get_ctx(qpn, msn).is_some(), is_exist)
}

fn check_recv_ctx_flag_and_intervals(
    f: &Fixture,
    qpn: Qpn,
    msn: Msn,
    is_complete: bool,
    is_out_of_order: bool,
    intervals: usize,
) {
    let ctx = f.context.recv_ctx_map().get_ctx(qpn, msn).unwrap();
    let wnd = ctx.window().unwrap();
    assert_eq!(wnd.is_complete(), is_complete, "qpn:{:?},msn:{:?},intervals:{}", qpn, msn, intervals);
    assert_eq!(wnd.is_out_of_order(), is_out_of_order, "qpn:{:?},msn:{:?},intervals:{}", qpn, msn, intervals);
    assert_eq!(wnd.get_intervals_len(), intervals, "qpn:{:?},msn:{:?},intervals:{}", qpn, msn, intervals);
}

#[test]
fn test_checker_on_recv_read_request() {
    let qpn = Qpn::new(0x1234);
    let mut device = construct_context(qpn);
    let event = PacketCheckEvent::ReadReq(ToHostWorkRbDescRead {
        common: ToHostWorkRbDescCommon {
            dqpn: qpn,
            msn: Msn::new(0x1234),
            ..Default::default()
        },
        ..Default::default()
    });
    device.handle_check_event(event);
    let desc = device.work_pop().expect("should get a read response");
    if let ToCardWorkRbDesc::ReadResp(desc) = desc {
        assert_eq!(desc.common.dqpn, qpn);
        assert_eq!(desc.common.msn, Msn::new(0x1234));
    } else {
        panic!("should be a read response");
    }
}

#[test]
fn test_checker_normal() {
    let qpn = Qpn::new(0x1234);
    let mut device = construct_context(qpn);
    let start_psn = Psn::new(0x1234);
    let msn = Msn::new(0x1235);
    let num_of_pkt = 5;
    let packet_first = make_ref_packet_event(qpn, 0x1234, 0x1235, 0, 0);
    device.handle_check_event(packet_first.clone()); // should create a new qp context

    let mut packet_last = packet_first.clone();
    if let PacketCheckEvent::Write(ref mut e) = packet_last {
        e.write_type = ToHostWorkRbDescWriteType::Last;
        e.psn = start_psn.wrapping_add(num_of_pkt - 1);
        e.common.expected_psn = e.psn;
    }

    device.handle_check_event(packet_last.clone()); // should create a new qp context

    assert!(device.work_pop().is_none());

    // test can't auto ack
    let mut packet_first_can_not_ack = packet_first.clone();
    if let PacketCheckEvent::Write(ref mut e) = packet_first_can_not_ack {
        e.can_auto_ack = false;
    }
    let mut packet_last_can_not_ack = packet_last.clone();
    if let PacketCheckEvent::Write(ref mut e) = packet_last_can_not_ack {
        e.can_auto_ack = false;
    }
    device.handle_check_event(packet_first_can_not_ack);
    device.handle_check_event(packet_last_can_not_ack);
    let desc = device.work_pop().expect("should get a ack");
    if let ToCardWorkRbDesc::WriteWithImm(desc) = desc {
        assert_eq!(desc.common.dqpn, qpn);
        assert_eq!(desc.common.msn, msn);
    } else {
        panic!("should be an ack");
    }

    // test only
    let mut packet_only = packet_first.clone();
    if let PacketCheckEvent::Write(ref mut e) = packet_only {
        e.can_auto_ack = false;
        e.write_type = ToHostWorkRbDescWriteType::Only;
    }
    device.handle_check_event(packet_only);
    let desc = device.work_pop().expect("should get a ack");
    if let ToCardWorkRbDesc::WriteWithImm(desc) = desc {
        assert_eq!(desc.common.dqpn, qpn);
        assert_eq!(desc.common.msn, msn);
    } else {
        panic!("should be an ack");
    }
}

#[test]
fn test_checker_miss_and_then_recover() {
    let qpn = Qpn::new(0x1234);
    let mut device = construct_context(qpn);
    let msn = Msn::new(0x1235);

    let packet_ref = make_ref_packet_event(qpn, 0, 0x1235, 0x500, 4096 * 5);
    let packets = generate_range_of_packet(packet_ref, Pmtu::Mtu4096);
    assert_eq!(packets.len(), 6);
    // psn = 0,expected_psn=0,
    // psn = 3,expected_psn=2,
    // psn = 5,expected_psn=5,
    // should be [0,1] [3,5]
    let mut input_packets = [packets[0].clone(), packets[3].clone(), packets[5].clone()];
    set_expected_psn(&mut input_packets[1], Psn::new(2));
    set_expected_psn(&mut input_packets[2], Psn::new(5));

    device.handle_check_event(input_packets[0].clone());
    check_qp_status(&device, qpn, QpStatus::Normal);

    device.handle_check_event(input_packets[1].clone());
    check_qp_status(&device, qpn, QpStatus::OutOfOrder);
    check_recv_ctx_flag_and_intervals(&device, qpn, msn, false, true, 2);

    device.handle_check_event(input_packets[2].clone());
    check_qp_status(&device, qpn, QpStatus::OutOfOrder);
    check_recv_ctx_flag_and_intervals(&device, qpn, msn, false, true, 2);

    // retry
    // psn = 0,expected_psn=6,
    // psn = 1,expected_psn=6,
    // psn = 2,expected_psn=6,
    // psn = 3,expected_psn=6
    // psn = 4,expected_psn=6
    // psn = 5,expected_psn=6

    for pkt in packets.iter().take(6) {
        let mut pkt = pkt.clone();
        set_expected_psn(&mut pkt, Psn::new(6));
        device.handle_check_event(pkt);
    }
    check_recv_ctx_exist(&device, qpn, msn, false);
    let desc = device.work_pop().expect("should get a ack");
    if let ToCardWorkRbDesc::WriteWithImm(desc) = desc {
        assert_eq!(desc.common.dqpn, qpn);
        assert_eq!(desc.common.msn, msn);
        assert!(matches!(desc.common.qp_type, QpType::RawPacket));
    } else {
        panic!("should be an ack");
    }

    device.ctrl_pop_and_exec_handler(true);
    check_qp_status(&device, qpn, QpStatus::Normal);
}

#[test]
fn test_checker_out_of_order_and_miss() {
    let qpn = Qpn::new(0x1234);
    let mut device = construct_context(qpn);
    let msn = Msn::new(0x1235);

    // the first message
    // ID
    // [0]pkt 0 : first,expected_psn=0
    // [1]pkt 5 : last, psn=5,expected_psn=1
    // [2]pkt 3 : psn=3,expected_psn=6
    // [3]pkt 1 : psn=1,expected_psn=6
    // [4]pkt 4 : psn=4,expected_psn=6
    // should be [0-1] [3-5]
    let packet_ref = make_ref_packet_event(qpn, 0, 0x1235, 0x500, 4096 * 5);
    let packets = generate_range_of_packet(packet_ref, Pmtu::Mtu4096);
    assert_eq!(packets.len(), 6);
    let mut input_packets = [
        packets[0].clone(),
        packets[5].clone(),
        packets[3].clone(),
        packets[1].clone(),
        packets[4].clone(),
    ];
    set_expected_psn(&mut input_packets[1], Psn::new(1));
    set_expected_psn(&mut input_packets[2], Psn::new(6));
    set_expected_psn(&mut input_packets[3], Psn::new(6));
    set_expected_psn(&mut input_packets[4], Psn::new(6));

    device.handle_check_event(input_packets[0].clone());
    check_qp_status(&device, qpn, QpStatus::Normal);

    device.handle_check_event(input_packets[1].clone());
    check_qp_status(&device, qpn, QpStatus::OutOfOrder);
    check_recv_ctx_flag_and_intervals(&device, qpn, msn, false, true, 2);

    device.handle_check_event(input_packets[2].clone());
    check_recv_ctx_flag_and_intervals(&device, qpn, msn, false, true, 3);

    device.handle_check_event(input_packets[3].clone());
    check_recv_ctx_flag_and_intervals(&device, qpn, msn, false, true, 3);

    device.handle_check_event(input_packets[4].clone());
    check_recv_ctx_flag_and_intervals(&device, qpn, msn, false, true, 2);

    for packet in packets.iter().take(6) {
        let mut pkt = packet.clone();
        set_expected_psn(&mut pkt, Psn::new(6));
        device.handle_check_event(pkt);
    }
    check_recv_ctx_exist(&device, qpn, msn, false);
    let desc = device.work_pop().expect("should get a ack");
    if let ToCardWorkRbDesc::WriteWithImm(desc) = desc {
        assert_eq!(desc.common.dqpn, qpn);
        assert_eq!(desc.common.msn, msn);
        assert!(matches!(desc.common.qp_type, QpType::RawPacket));
    } else {
        panic!("should be an ack");
    }

    device.ctrl_pop_and_exec_handler(true);
    check_qp_status(&device, qpn, QpStatus::Normal);

    // the second message
    // start_psn=6, end_psn=12, total=7 packets
    //
    // [0]pkt 6 : first,psn=6,expected_psn=6   [6]
    // [1]pkt 8 : psn=8,expected_psn=7     [6] [8]
    // [2]pkt 7 : psn=7,expected_psn=9    [6,8] in order
    // [3]pkt 11: psn=11,expected_psn=10  [6,9] [11]
    // [4]pkt 10: psn=10,expected_psn=12  [6,11],in order
    let msn = Msn::new(0x1236);
    let packet_ref = make_ref_packet_event(qpn, 6, 0x1236, 0x500, 4096 * 6);
    let packets = generate_range_of_packet(packet_ref, Pmtu::Mtu4096);
    assert_eq!(packets.len(), 7);
    let mut input_packets = [
        packets[0].clone(),
        packets[2].clone(),
        packets[1].clone(),
        packets[5].clone(),
        packets[4].clone(),
        packets[6].clone(),
    ];
    set_expected_psn(&mut input_packets[1], Psn::new(7));
    set_expected_psn(&mut input_packets[2], Psn::new(9));
    set_expected_psn(&mut input_packets[3], Psn::new(10));
    set_expected_psn(&mut input_packets[4], Psn::new(12));

    device.handle_check_event(input_packets[0].clone());
    check_qp_status(&device, qpn, QpStatus::Normal);

    device.handle_check_event(input_packets[1].clone());
    check_qp_status(&device, qpn, QpStatus::OutOfOrder);
    check_recv_ctx_flag_and_intervals(&device, qpn, msn, false, true, 2);

    device.handle_check_event(input_packets[2].clone());
    check_recv_ctx_flag_and_intervals(&device, qpn, msn, false, false, 1);

    device.handle_check_event(input_packets[3].clone());
    check_recv_ctx_flag_and_intervals(&device, qpn, msn, false, true, 2);
    device.ctrl_pop_and_exec_handler(false);
    check_qp_status(&device, qpn, QpStatus::OutOfOrder);

    device.handle_check_event(input_packets[4].clone());
    check_recv_ctx_flag_and_intervals(&device, qpn, msn, false, false, 1);

    device.handle_check_event(input_packets[5].clone());
    check_recv_ctx_exist(&device, qpn, msn, false);
    device.ctrl_pop_and_exec_handler(true);
    check_qp_status(&device, qpn, QpStatus::Normal);

    assert!(device.work_pop().is_some())
}

#[test]
fn test_checker_single_msn_receive_out_of_order_first() {
    let qpn = Qpn::new(0x1234);
    let mut device = construct_context(qpn);
    let msn = Msn::new(0x1235);

    // the first message
    let packet_ref = make_ref_packet_event(qpn, 0, 0x1235, 0x500, 4096 * 3);
    let mut packets = generate_range_of_packet(packet_ref, Pmtu::Mtu4096);
    assert_eq!(packets.len(), 4);

    set_expected_psn(&mut packets[1], Psn::new(0));
    device.handle_check_event(packets[1].clone());
    check_qp_status(&device, qpn, QpStatus::OutOfOrder);
    let largest_psn_recved = device.context.recv_ctx_map().get_per_qp_ctx(qpn).unwrap().largest_psn_recved();
    assert_eq!(largest_psn_recved.get(), 1);
    check_recv_ctx_exist(&device, qpn, msn, false);

    set_expected_psn(&mut packets[3], Psn::new(3));
    device.handle_check_event(packets[3].clone());
    let largest_psn_recved = device.context.recv_ctx_map().get_per_qp_ctx(qpn).unwrap().largest_psn_recved();
    assert_eq!(largest_psn_recved.get(), 3);
    check_recv_ctx_exist(&device, qpn, msn, false);
}

#[test]
fn test_checker_miss_packet_recover_and_miss_again() {
    let qpn = Qpn::new(0x1234);
    let mut device = construct_context(qpn);
    let msn = Msn::new(0x1235);

    let packet_ref = make_ref_packet_event(qpn, 0, 0x1235, 0, 4096 * 11);
    let mut packets = generate_range_of_packet(packet_ref, Pmtu::Mtu4096);
    assert_eq!(packets.len(), 11);

    // psn = 0,expected_psn=0,
    // psn = 4,expected_psn=3
    // psn = 3,expected_psn=5 resume
    // psn = 7,expected_psn=6
    // psn = 6,expected_psn=8 resume
    // psn = 10,expected_psn=10
    reset_packet_psn(&mut packets, 0, 0);
    reset_packet_psn(&mut packets, 4, 3);
    reset_packet_psn(&mut packets, 3, 5);
    reset_packet_psn(&mut packets, 7, 6);
    reset_packet_psn(&mut packets, 6, 8);
    reset_packet_psn(&mut packets, 10, 10);

    device.handle_check_event(packets[0].clone());
    check_qp_status(&device, qpn, QpStatus::Normal);

    device.handle_check_event(packets[4].clone());
    check_qp_status(&device, qpn, QpStatus::OutOfOrder);
    check_recv_ctx_flag_and_intervals(&device, qpn, msn, false, true, 2);

    device.handle_check_event(packets[3].clone());
    check_recv_ctx_flag_and_intervals(&device, qpn, msn, false, false, 1);

    device.ctrl_pop_and_exec_handler(true); // resume
    check_qp_status(&device, qpn, QpStatus::Normal);

    device.handle_check_event(packets[7].clone());
    check_qp_status(&device, qpn, QpStatus::OutOfOrder);
    check_recv_ctx_flag_and_intervals(&device, qpn, msn, false, true, 2);

    device.handle_check_event(packets[6].clone());
    check_recv_ctx_flag_and_intervals(&device, qpn, msn, false, false, 1);

    device.ctrl_pop_and_exec_handler(true); // resume
    check_qp_status(&device, qpn, QpStatus::Normal);

    device.handle_check_event(packets[10].clone());
    check_qp_status(&device, qpn, QpStatus::Normal);
}

#[test]
fn test_checker_redudant_packets() {
    let qpn = Qpn::new(0x1234);
    let mut device = construct_context(qpn);
    let msn = Msn::new(0x1235);

    let packet_ref = make_ref_packet_event(qpn, 0, 0x1235, 0, 4096 * 11);
    let mut packets = generate_range_of_packet(packet_ref, Pmtu::Mtu4096);
    assert_eq!(packets.len(), 11);

    // psn = 0,expected_psn=0
    // psn = 9,expected_psn=8, miss 8
    // psn = 9,expected_psn=10,redudant
    // psn = 10,expected_psn=10,last
    // psn = 10,expected_psn=11,redudant
    // psn = 1,expected_psn=11
    // psn = 2,expected_psn=11
    // psn = 3,expected_psn=11
    // psn = 4,expected_psn=11
    // psn = 5,expected_psn=11
    // psn = 6,expected_psn=11
    // psn = 7,expected_psn=11
    // psn = 8,expected_psn=11
    // psn = 9,expected_psn=11,[ack]
    // psn = 10,expected_psn=11,drop
    // psn = 10,expected_psn=11,drop
    // psn = 0,expected_psn=11,drop
    reset_packet_psn(&mut packets, 0, 0);
    device.handle_check_event(packets[0].clone());
    check_qp_status(&device, qpn, QpStatus::Normal);

    reset_packet_psn(&mut packets, 9, 8);
    device.handle_check_event(packets[9].clone());
    check_qp_status(&device, qpn, QpStatus::OutOfOrder);
    check_recv_ctx_flag_and_intervals(&device, qpn, msn, false, true, 2);

    reset_packet_psn(&mut packets, 9, 10);
    device.handle_check_event(packets[9].clone());
    check_recv_ctx_flag_and_intervals(&device, qpn, msn, false, true, 2);

    reset_packet_psn(&mut packets, 10, 10);
    device.handle_check_event(packets[10].clone());
    check_recv_ctx_flag_and_intervals(&device, qpn, msn, false, true, 2);

    reset_packet_psn(&mut packets, 10, 10);
    device.handle_check_event(packets[10].clone());
    check_recv_ctx_flag_and_intervals(&device, qpn, msn, false, true, 2);

    for i in 0..=7 {
        reset_packet_psn(&mut packets, i, 11);
        device.handle_check_event(packets[i as usize].clone());
        check_recv_ctx_flag_and_intervals(&device, qpn, msn, false, true, 2);
    }

    reset_packet_psn(&mut packets, 8, 11);
    device.handle_check_event(packets[8].clone());
    assert!(device.work_pop().is_some());

    device.ctrl_pop_and_exec_handler(false);
    reset_packet_psn(&mut packets, 9, 11);
    device.handle_check_event(packets[9].clone());
    check_qp_status(&device, qpn, QpStatus::OutOfOrder);
    check_recv_ctx_exist(&device, qpn, msn, false);

    reset_packet_psn(&mut packets, 10, 11);
    device.handle_check_event(packets[10].clone());
    check_recv_ctx_exist(&device, qpn, msn, false);

    reset_packet_psn(&mut packets, 0, 11);
    device.handle_check_event(packets[0].clone());
    check_recv_ctx_exist(&device, qpn, msn, false);
}

#[test]
fn test_checker_miss_first() {
    // psn = 1,expected_psn=0
    // // received psn from 2-5,no reported
    // psn = 6,last,expected_psn=6
    // psn = 0,first,expected_psn=7
    // // send nack, descriptor 1-6 is sent.
    // psn = 1,expected_psn=7
    // psn = 2,expected_psn=7
    // psn = 3,expected_psn=7
    // psn = 4,expected_psn=7
    // psn = 5,expected_psn=7
    // psn = 6,expected_psn=7 [try resume]
    let qpn = Qpn::new(0x1234);
    let mut device = construct_context(qpn);
    let msn = Msn::new(0x1235);

    let packet_ref = make_ref_packet_event(qpn, 0, 0x1235, 0, 4096 * 7);
    let mut packets = generate_range_of_packet(packet_ref, Pmtu::Mtu4096);
    assert_eq!(packets.len(), 7);

    reset_packet_psn(&mut packets, 1, 0);
    device.handle_check_event(packets[1].clone());
    check_qp_status(&device, qpn, QpStatus::OutOfOrder);
    check_recv_ctx_exist(&device, qpn, msn, false);

    reset_packet_psn(&mut packets, 6, 6);
    device.handle_check_event(packets[6].clone());
    check_recv_ctx_exist(&device, qpn, msn, false);

    reset_packet_psn(&mut packets, 0, 7);
    device.handle_check_event(packets[0].clone());
    check_recv_ctx_flag_and_intervals(&device, qpn, msn, false, false, 1);
    assert!(!device.has_ctrl_desc());

    for i in 1..=6 {
        reset_packet_psn(&mut packets, i, 7);
        device.handle_check_event(packets[i as usize].clone());
        if i == 6 {
            check_recv_ctx_exist(&device, qpn, msn, false);
            assert!(device.has_ctrl_desc());
        } else {
            check_recv_ctx_flag_and_intervals(&device, qpn, msn, false, false, 1);
            assert!(!device.has_ctrl_desc());
        }
    }
}

#[test]
fn test_checker_multiple_later_msn_come_first() {
    // msn = 1, psn = 6, expected_psn=0
    // msn = 1, psn = 11, expected_psn=11 ,last,send ack
    // msn = 0, psn = 0,expected_psn=12,first
    // msn = 0, psn = 1,expected_psn=12
    // msn = 0, psn = 2,expected_psn=12
    // msn = 0, psn = 3,expected_psn=12
    // msn = 0, psn = 4,expected_psn=12
    // msn = 0, psn = 5,expected_psn=12,last,try_resume,send ack
    let qpn = Qpn::new(0x1234);
    let mut device = construct_context(qpn);

    let packet_ref1 = make_ref_packet_event(qpn, 0, 0, 0, 4096 * 6);
    let mut packets = generate_range_of_packet(packet_ref1, Pmtu::Mtu4096);
    let packet_ref2 = make_ref_packet_event(qpn, 6, 1, 0, 4096 * 6);
    packets.extend(generate_range_of_packet(packet_ref2, Pmtu::Mtu4096));

    assert_eq!(packets.len(), 12);

    reset_packet_psn(&mut packets, 6, 0);
    device.handle_check_event(packets[6].clone());
    check_qp_status(&device, qpn, QpStatus::OutOfOrder);
    check_recv_ctx_exist(&device, qpn, Msn::new(1), true);

    reset_packet_psn(&mut packets, 11, 11);
    assert!(!device.has_ctrl_desc());
    device.handle_check_event(packets[11].clone());
    check_qp_status(&device, qpn, QpStatus::OutOfOrder);
    check_recv_ctx_exist(&device, qpn, Msn::new(1), false);
    device.ctrl_pop_and_exec_handler(false);
    assert!(device.work_pop().is_some());

    for i in 0..6 {
        reset_packet_psn(&mut packets, i, 12);
        device.handle_check_event(packets[i as usize].clone());
        if i == 5 {
            check_recv_ctx_exist(&device, qpn, Msn::new(0), false);
            assert!(device.work_pop().is_some());
        } else {
            check_recv_ctx_flag_and_intervals(&device, qpn, Msn::new(0), false, false, 1);
        }
    }
}

#[test]
fn test_checker_multiple_msn() {
    let qpn = Qpn::new(0x1234);
    let mut device = construct_context(qpn);

    let packet_ref1 = make_ref_packet_event(qpn, 0, 1, 0, 4096 * 6);
    let mut packets = generate_range_of_packet(packet_ref1, Pmtu::Mtu4096);
    let packet_ref2 = make_ref_packet_event(qpn, 6, 2, 0, 4096 * 6);
    packets.extend(generate_range_of_packet(packet_ref2, Pmtu::Mtu4096));
    let packet_ref3 = make_ref_packet_event(qpn, 12, 3, 0, 4096 * 6);
    packets.extend(generate_range_of_packet(packet_ref3, Pmtu::Mtu4096));
    assert_eq!(packets.len(), 18);
    // msn = 1, psn = 0, expected_psn=0,[first],5 pkts
    // msn = 1, psn = 4, expected_psn=3,[lost 3]
    // msn = 1, psn = 5, expected_psn=5,[last]
    // msn = 2, psn = 6, expected_psn=6,[first]
    // msn = 2, psn = 11, expected_psn=11,[last]
    // msn = 2, psn = 12, expected_psn=12,[first]
    // msn = 1, psn = 3, expected_psn=13,[ack]
    // msn = 2, psn = 6, expected_psn=13,[invalid first]
    // msn = 1, psn = 0, expected_psn=13,[invalid first]

    reset_packet_psn(&mut packets, 0, 0);
    device.handle_check_event(packets[0].clone());
    check_qp_status(&device, qpn, QpStatus::Normal);
    check_recv_ctx_exist(&device, qpn, Msn::new(1), true);

    reset_packet_psn(&mut packets, 4, 3);
    device.handle_check_event(packets[4].clone());
    check_qp_status(&device, qpn, QpStatus::OutOfOrder);
    check_recv_ctx_flag_and_intervals(&device, qpn, Msn::new(1), false, true, 2);

    reset_packet_psn(&mut packets, 5, 5);
    device.handle_check_event(packets[5].clone());
    check_recv_ctx_flag_and_intervals(&device, qpn, Msn::new(1), false, true, 2);

    reset_packet_psn(&mut packets, 6, 6);
    device.handle_check_event(packets[6].clone());
    check_recv_ctx_flag_and_intervals(&device, qpn, Msn::new(2), false, false, 1);

    reset_packet_psn(&mut packets, 11, 11);
    device.handle_check_event(packets[11].clone());
    check_recv_ctx_exist(&device, qpn, Msn::new(2), false);
    device.work_pop().expect("should get a ack");

    reset_packet_psn(&mut packets, 12, 12);
    device.handle_check_event(packets[12].clone());
    check_recv_ctx_exist(&device, qpn, Msn::new(3), true);
    check_recv_ctx_flag_and_intervals(&device, qpn, Msn::new(3), false, false, 1);

    reset_packet_psn(&mut packets, 3, 13);
    device.handle_check_event(packets[3].clone());
    check_recv_ctx_exist(&device, qpn, Msn::new(1), false);
    device.work_pop().expect("should get a ack");

    reset_packet_psn(&mut packets, 6, 13);
    device.handle_check_event(packets[6].clone());
    check_recv_ctx_exist(&device, qpn, Msn::new(2), false);

    reset_packet_psn(&mut packets, 0, 13);
    device.handle_check_event(packets[0].clone());
    check_recv_ctx_exist(&device, qpn, Msn::new(2), false);
}

#[test]
fn test_try_recover() {
    let qpn = Qpn::new(123);
    let mut qp_table = QpTable::new();
    qp_table.insert(
        qpn,
        QpContext {
            pd: Pd { handle: 1 },
            qpn,
            status: QpStatus::OutOfOrder,
            ..Default::default()
        },
    );

    let mut sent = vec![recover_desc(qpn, Psn::default())];

    assert_eq!(sent.len(), 1);
    let desc = sent.pop().unwrap();
    if let ToCardCtrlRbDesc::UpdateErrorPsnRecoverPoint(desc) = desc {
        assert_eq!(desc.qpn, qpn);
        assert_eq!(desc.recover_psn, Psn::default());
    } else {
        panic!("unexpected desc type");
    }

    on_recovered(&mut qp_table, qpn, true);
    let status = qp_table.get(qpn).unwrap().status;
    assert!(matches!(status, QpStatus::Normal));
}

#[test]
fn test_recv_ctx() {
    let mut per_qp_map = PerQpContextMap::new(Psn::new(10));
    per_qp_map.update_largest_psn_recved(Psn::new(20));
    assert_eq!(per_qp_map.largest_psn_recved(), Psn::new(20));
    per_qp_map.update_largest_psn_recved(Psn::new(0));
    assert_eq!(per_qp_map.largest_psn_recved(), Psn::new(20));
    per_qp_map.update_largest_psn_recved(Psn::new(0));
    assert_eq!(per_qp_map.largest_psn_recved(), Psn::new(20));

    let r = get_continous_range(Psn::new(10), Psn::new(20));
    assert_eq!(r, Some((Psn::new(11), Psn::new(19))));
    let r = get_continous_range(Psn::new(10), Psn::new(11));
    assert_eq!(r, None);
    let r = get_continous_range(Psn::new(10), Psn::new(10));
    assert_eq!(r, None);
    let r = get_continous_range(Psn::new(10), Psn::new(9));
    assert_eq!(r, None);
}

#[test]
fn a_failed_recovery_changes_nothing() {
    let qpn = Qpn::new(7);
    let mut qp_table = QpTable::new();
    qp_table.insert(qpn, QpContext { qpn, status: QpStatus::OutOfOrder, ..Default::default() });
    on_recovered(&mut qp_table, qpn, false);
    assert_eq!(qp_table.get(qpn).unwrap().status, QpStatus::OutOfOrder);
    // a queue pair that is gone is left alone
    on_recovered(&mut qp_table, Qpn::new(8), true);
    assert!(qp_table.get(Qpn::new(8)).is_none());
}

#[test]
fn only_acknowledgements_wake_the_sender() {
    let qpn = Qpn::new(5);
    let mut device = construct_context(qpn);
    let common = ToHostWorkRbDescCommon { dqpn: qpn, msn: Msn::new(9), ..Default::default() };
    let ack = ToHostWorkRbDescAck { common, code: ToHostWorkRbDescAethCode::Ack, ..Default::default() };
    device.handle_check_event(PacketCheckEvent::Ack(ToHostWorkRbDescAck {
        code: ToHostWorkRbDescAethCode::Nak,
        ..ack
    }));
    assert_eq!(device.woken, vec![]);
    device.handle_check_event(PacketCheckEvent::from(ack));
    assert_eq!(device.woken, vec![(qpn, Msn::new(9))]);
}

#[test]
fn the_last_packet_of_a_read_response_wakes_the_reader() {
    let qpn = Qpn::new(5);
    let mut device = construct_context(qpn);
    let mut only = make_ref_packet_event(qpn, 3, 4, 0, 10);
    update(&mut only, |desc| {
        desc.is_read_resp = true;
        desc.can_auto_ack = false;
        desc.write_type = ToHostWorkRbDescWriteType::Only;
    });
    device.handle_check_event(only);
    assert_eq!(device.woken, vec![(qpn, Msn::new(4))]);
    assert!(device.work_pop().is_none());
}

#[test]
fn packets_of_unknown_queue_pairs_are_dropped() {
    let mut device = construct_context(Qpn::new(5));
    device.handle_check_event(make_ref_packet_event(Qpn::new(6), 3, 4, 0, 10));
    assert!(device.context.recv_ctx_map().get_per_qp_ctx(Qpn::new(6)).is_none());
    assert!(device.work_pop().is_none());
}

#[test]
fn acknowledgements_use_the_slots_in_turn() {
    let qpn = Qpn::new(5);
    let mut device = construct_context(qpn);
    let mut addrs = Vec::new();
    for i in 0..3u32 {
        let mut only = make_ref_packet_event(qpn, i, i as u16, 0, 10);
        update(&mut only, |desc| {
            desc.can_auto_ack = false;
            desc.write_type = ToHostWorkRbDescWriteType::Only;
        });
        device.handle_check_event(only);
        if let Some(ToCardWorkRbDesc::WriteWithImm(desc)) = device.work_pop() {
            addrs.push(desc.sge0.addr);
        }
    }
    assert_eq!(addrs, vec![0x1000_0000, 0x1000_0080, 0x1000_0100]);
}

#[test]
fn recent_messages_are_remembered() {
    let mut map = PerQpContextMap::new(Psn::new(0));
    assert_eq!(map.len(), 0);
    assert!(map.get(Msn::new(3)).is_none());
    map.set_recent_msn_status(Msn::new(3), RecentQpMsnStatus::Finished);
    assert_eq!(map.query_recent_msn_status(Msn::new(3)), RecentQpMsnStatus::Finished);
    assert_eq!(RecentQpMsnStatus::default(), RecentQpMsnStatus::NoExist);
    // a message that uses the same place takes it
    let next = 3 + MAX_MSN_WINDOW_PER_QP as u16;
    assert_ne!(map.query_recent_msn_status(Msn::new(next)), RecentQpMsnStatus::Finished);
    map.set_recent_msn_status(Msn::new(next), RecentQpMsnStatus::Processing);
    assert_eq!(map.query_recent_msn_status(Msn::new(next)), RecentQpMsnStatus::Processing);
    assert_ne!(map.query_recent_msn_status(Msn::new(3)), RecentQpMsnStatus::Finished);
}

#[test]
fn contexts_of_messages() {
    let event = ToHostWorkRbDescWriteOrReadResp {
        psn: Psn::new(10),
        addr: 0,
        len: 4096 * 3,
        ..Default::default()
    };
    assert!(RecvContext::from_event(&event).window().is_none());
    let ctx = RecvContext::new_with_recvmap(&event, Pmtu::Mtu4096);
    let wnd = ctx.window().unwrap();
    assert_eq!(wnd.last_psn(), Psn::new(12));
    assert!(!wnd.is_complete());
    let mut ctx = RecvContext::from_event(&event);
    ctx.create_map_on_psn(Psn::new(10), Psn::new(12), Pmtu::Mtu4096);
    assert!(ctx.window().unwrap().is_out_of_order());
}

#[test]
fn the_default_event_is_a_whole_write() {
    match PacketCheckEvent::default() {
        PacketCheckEvent::Write(event) => {
            assert_eq!(event.write_type, ToHostWorkRbDescWriteType::Only);
            assert_eq!((event.addr, event.len, event.psn.get()), (0, 0, 0));
            assert!(!event.is_read_resp);
        }
        _ => panic!("not a write"),
    }
}

#[test]
fn a_message_in_order_is_acknowledged_once() {
    let qpn = Qpn::new(0x1234);
    let mut device = construct_context(qpn);
    let first = make_ref_packet_event(qpn, 0x1234, 0x1235, 0, 4096 * 4);
    for mut packet in generate_range_of_packet(first, Pmtu::Mtu4096) {
        update(&mut packet, |e| {
            e.can_auto_ack = false;
            e.common.expected_psn = e.psn;
        });
        assert!(device.work_queue.is_empty());
        device.handle_check_event(packet);
    }
    assert_eq!(device.work_queue.len(), 1);
    assert!(!device.has_ctrl_desc());
    check_qp_status(&device, qpn, QpStatus::Normal);
    check_recv_ctx_exist(&device, qpn, Msn::new(0x1235), false);
}
