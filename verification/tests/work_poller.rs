//! What becomes of the descriptors that the card reports.

use open_rdma_driver::checker::PacketCheckEvent;
use open_rdma_driver::device::error::DeviceError;
use open_rdma_driver::device::work::{
    ToHostWorkRbDesc, ToHostWorkRbDescAck, ToHostWorkRbDescAethCode, ToHostWorkRbDescCommon, ToHostWorkRbDescNack,
    ToHostWorkRbDescRaw, ToHostWorkRbDescRead, ToHostWorkRbDescStatus, ToHostWorkRbDescWriteOrReadResp,
    ToHostWorkRbDescWriteType,
};
use open_rdma_driver::types::{Key, Msn, Psn, Qpn};
use open_rdma_driver::work_poller::{recv_a_desc, NicRecvNotification, PollAction};

fn poll(input: Vec<ToHostWorkRbDesc>) -> (Vec<PacketCheckEvent>, Vec<NicRecvNotification>) {
    let mut checked = Vec::new();
    let mut notified = Vec::new();
    for desc in input {
        match recv_a_desc(Ok(desc)) {
            Some(PollAction::Check(event)) => checked.push(event),
            Some(PollAction::Nic(notification)) => notified.push(notification),
            None => {}
        }
    }
    (checked, notified)
}

#[test]
fn test_work_poller_test_work_desc_poller() {
    let input = vec![
        // test writeFirst
        ToHostWorkRbDesc::WriteOrReadResp(ToHostWorkRbDescWriteOrReadResp {
            common: ToHostWorkRbDescCommon {
                dqpn: Qpn::new(3),
                ..Default::default()
            },
            len: 4096,
            write_type: ToHostWorkRbDescWriteType::First,
            psn: Psn::new(0),
            ..Default::default()
        }),
        // test writeMiddle
        ToHostWorkRbDesc::WriteOrReadResp(ToHostWorkRbDescWriteOrReadResp {
            common: ToHostWorkRbDescCommon {
                dqpn: Qpn::new(3),
                expected_psn: Psn::new(1),
                ..Default::default()
            },
            addr: 1024,
            len: 1024,
            write_type: ToHostWorkRbDescWriteType::First,
            psn: Psn::new(1),
            ..Default::default()
        }),
        // test writeLast
        ToHostWorkRbDesc::WriteOrReadResp(ToHostWorkRbDescWriteOrReadResp {
            common: ToHostWorkRbDescCommon {
                dqpn: Qpn::new(3),
                expected_psn: Psn::new(2),
                ..Default::default()
            },
            addr: 1024,
            len: 1024,
            write_type: ToHostWorkRbDescWriteType::First,
            psn: Psn::new(2),
            ..Default::default()
        }),
        // test read
        ToHostWorkRbDesc::Read(ToHostWorkRbDescRead {
            common: ToHostWorkRbDescCommon {
                dqpn: Qpn::new(3),
                ..Default::default()
            },
            len: 2048,
            laddr: 0,
            lkey: Key::new(0),
            raddr: 0,
            rkey: Key::new(0),
        }),
        ToHostWorkRbDesc::Ack(ToHostWorkRbDescAck {
            common: ToHostWorkRbDescCommon {
                dqpn: Qpn::new(3),
                ..Default::default()
            },
            psn: Psn::new(2),
            code: ToHostWorkRbDescAethCode::Ack,
            ..Default::default()
        }),
        ToHostWorkRbDesc::Raw(ToHostWorkRbDescRaw {
            common: ToHostWorkRbDescCommon {
                dqpn: Qpn::new(3),
                ..Default::default()
            },
            addr: 0xa00_0000_0000,
            len: 4096,
            key: Default::default(),
        }),
    ];
    let (checked, notified) = poll(input);
    let mut checker_recv_queue = checked.into_iter();
    if let PacketCheckEvent::Write(w) = checker_recv_queue.next().unwrap() {
        assert_eq!(w.psn.get(), 0);
    } else {
        panic!("not a write event");
    }
    if let PacketCheckEvent::Write(w) = checker_recv_queue.next().unwrap() {
        assert_eq!(w.psn.get(), 1);
    } else {
        panic!("not a write event");
    }
    if let PacketCheckEvent::Write(w) = checker_recv_queue.next().unwrap() {
        assert_eq!(w.psn.get(), 2);
    } else {
        panic!("not a write event");
    }
    if let PacketCheckEvent::ReadReq(w) = checker_recv_queue.next().unwrap() {
        assert_eq!(w.len, 2048);
    } else {
        panic!("not a read event");
    }
    if let PacketCheckEvent::Ack(a) = checker_recv_queue.next().unwrap() {
        assert_eq!(a.psn.get(), 2);
    } else {
        panic!("not a ack event");
    }
    assert_eq!(notified.len(), 1);
    assert_eq!(notified[0].buf().addr, 0xa00_0000_0000);
    assert_eq!(notified[0].len, 4096);
}

#[test]
fn what_went_wrong_is_left_alone() {
    assert!(recv_a_desc(Err(DeviceError::Overflow)).is_none());
    let bad = ToHostWorkRbDescCommon { status: ToHostWorkRbDescStatus::InvMrKey, ..Default::default() };
    let raw = ToHostWorkRbDescRaw { common: bad, ..Default::default() };
    assert!(recv_a_desc(Ok(ToHostWorkRbDesc::Raw(raw))).is_none());
    let nack = ToHostWorkRbDescNack {
        common: ToHostWorkRbDescCommon::default(),
        msn: Msn::new(0),
        value: 0,
        lost_from: Psn::new(0),
        lost_to: Psn::new(1),
    };
    assert!(recv_a_desc(Ok(ToHostWorkRbDesc::Nack(nack))).is_none());
}
