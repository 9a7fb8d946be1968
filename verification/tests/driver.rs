//! The device as its users see it.

use open_rdma_driver::device::ctrl::ToCardCtrlRbDesc;
use open_rdma_driver::device::work::ToCardWorkRbDesc;
use open_rdma_driver::driver::{check_ctrl_reply, get_descriptor, Device};
use open_rdma_driver::pd::{Pd, PdPool};
use open_rdma_driver::qp::{QpContext, QpManager, QpStatus, QpTable, QP_MAX_CNT};
use open_rdma_driver::types::{
    CardOp, Error, Ipv4Addr, Key, MacAddress, MemAccessTypeFlag, Msn, Pmtu, Psn, Qp, QpType, Qpn,
    RdmaDeviceNetworkParam, Resource, Sge, Subject, WorkReqSendFlag,
};

fn network() -> RdmaDeviceNetworkParam {
    RdmaDeviceNetworkParam {
        gateway: Ipv4Addr::new(10, 0, 0, 254),
        netmask: Ipv4Addr::new(255, 255, 255, 0),
        ipaddr: Ipv4Addr::new(10, 0, 0, 1),
        macaddr: MacAddress { octets: [1, 2, 3, 4, 5, 6] },
    }
}

fn qp(pd: Pd, qpn: u32) -> Qp {
    Qp {
        pd,
        qpn: Qpn::new(qpn),
        peer_qpn: Qpn::new(99),
        qp_type: QpType::Rc,
        rq_acc_flags: MemAccessTypeFlag::from_bits(2),
        pmtu: Pmtu::Mtu1024,
        dqp_ip: Ipv4Addr::new(10, 0, 0, 2),
        dqp_mac: MacAddress { octets: [6, 5, 4, 3, 2, 1] },
    }
}

fn op_id(desc: &ToCardCtrlRbDesc) -> u32 {
    match desc {
        ToCardCtrlRbDesc::UpdateMrTable(d) => d.common.op_id,
        ToCardCtrlRbDesc::UpdatePageTable(d) => d.common.op_id,
        ToCardCtrlRbDesc::QpManagement(d) => d.common.op_id,
        ToCardCtrlRbDesc::SetNetworkParam(d) => d.common.op_id,
        ToCardCtrlRbDesc::SetRawPacketReceiveMeta(d) => d.common.op_id,
        ToCardCtrlRbDesc::UpdateErrorPsnRecoverPoint(d) => d.common.op_id,
    }
}

#[test]
fn protection_domains_get_handles_at_random() {
    let mut pool = PdPool::new();
    let mut handles = Vec::new();
    for _ in 0..8 {
        if let Ok(pd) = pool.alloc_pd() {
            assert!(pool.contains(pd));
            handles.push(pd.handle);
        }
    }
    handles.sort();
    handles.dedup();
    assert!(handles.len() >= 7);
    // they do not count up
    assert!(handles.windows(2).any(|w| w[1] - w[0] > 1));
    for handle in handles {
        assert_eq!(pool.dealloc_pd(Pd { handle }), Ok(()));
        assert_eq!(pool.dealloc_pd(Pd { handle }), Err(Error::Invalid(Subject::Pd(Pd { handle }))));
    }
}

#[test]
fn protection_domains_in_use_stay() {
    let mut pool = PdPool::new();
    let pd = pool.insert_pd(4).unwrap();
    assert!(pool.add_qp(pd, Qpn::new(1)));
    assert!(!pool.add_qp(pd, Qpn::new(1)));
    assert_eq!(pool.dealloc_pd(pd), Err(Error::PdInUse { by_mr: false }));
    pool.remove_qp(pd, Qpn::new(1));
    assert_eq!(pool.dealloc_pd(pd), Ok(()));
    pool.insert_pd(5).unwrap();
    assert_eq!(pool.insert_pd(5), Err(Error::Invalid(Subject::Pd(Pd { handle: 5 }))));
    assert_eq!(Pd::default().handle, 0);
}

#[test]
fn queue_pairs_are_created_and_destroyed() {
    let mut dev = Device::new(network());
    let pd = dev.alloc_pd().unwrap();
    let qp5 = qp(pd, 5);
    match dev.create_qp(&qp5).unwrap() {
        ToCardCtrlRbDesc::QpManagement(desc) => {
            assert!(desc.is_valid);
            assert_eq!((desc.qpn.get(), desc.pd_hdl, desc.peer_qpn.get()), (5, pd.handle, 99));
        }
        _ => panic!("not a command for queue pairs"),
    }
    assert!(dev.queue_pair(Qpn::new(5)).is_none());
    assert_eq!(dev.create_qp_done(&qp5, Ok(Some(true))), Ok(()));
    let ctx = dev.queue_pair(Qpn::new(5)).unwrap();
    assert_eq!(ctx.local_ip, Ipv4Addr::new(10, 0, 0, 1));
    assert_eq!(ctx.dqp_mac_addr, MacAddress { octets: [6, 5, 4, 3, 2, 1] });
    assert_eq!(ctx.status, QpStatus::Normal);
    // it holds its protection domain
    assert_eq!(dev.dealloc_pd(pd), Err(Error::PdInUse { by_mr: false }));
    // and there is only one
    let again = dev.create_qp(&qp5);
    assert!(again.is_ok());
    assert_eq!(dev.create_qp_done(&qp5, Ok(Some(true))), Err(Error::Invalid(Subject::Qp(Qpn::new(5)))));
    match dev.destroy_qp(Qpn::new(5)).unwrap() {
        ToCardCtrlRbDesc::QpManagement(desc) => {
            assert!(!desc.is_valid);
            assert_eq!(desc.qpn.get(), 5);
        }
        _ => panic!("not a command for queue pairs"),
    }
    assert_eq!(
        dev.destroy_qp_done(Qpn::new(5), Ok(Some(false))),
        Err(Error::DeviceReturnFailed(CardOp::DestroyQp))
    );
    assert!(dev.queue_pair(Qpn::new(5)).is_some());
    assert_eq!(dev.destroy_qp_done(Qpn::new(5), Ok(Some(true))), Ok(()));
    assert!(dev.queue_pair(Qpn::new(5)).is_none());
    assert_eq!(dev.dealloc_pd(pd), Ok(()));
}

#[test]
fn queue_pairs_need_a_protection_domain() {
    let mut dev = Device::new(network());
    let nowhere = Pd { handle: 1 };
    assert_eq!(dev.create_qp(&qp(nowhere, 5)).err(), Some(Error::Invalid(Subject::Pd(nowhere))));
    assert_eq!(dev.destroy_qp(Qpn::new(5)).err(), Some(Error::Invalid(Subject::Qp(Qpn::new(5)))));
    let pd = dev.alloc_pd().unwrap();
    dev.create_qp(&qp(pd, 5)).unwrap();
    assert_eq!(
        dev.create_qp_done(&qp(pd, 5), Ok(Some(false))),
        Err(Error::DeviceReturnFailed(CardOp::CreateQp))
    );
    assert!(dev.queue_pair(Qpn::new(5)).is_none());
}

#[test]
fn answers_of_the_card() {
    assert_eq!(check_ctrl_reply(Ok(Some(true)), CardOp::SetNetwork), Ok(()));
    assert_eq!(
        check_ctrl_reply(Ok(Some(false)), CardOp::SetNetwork),
        Err(Error::DeviceReturnFailed(CardOp::SetNetwork))
    );
    let failed = Err(Error::Device("no answer"));
    assert_eq!(check_ctrl_reply(failed, CardOp::SetNetwork), Err(Error::Device("no answer")));
}

#[test]
fn writes_and_reads_follow_each_other() {
    let mut dev = Device::new(network());
    let pd = dev.alloc_pd().unwrap();
    dev.create_qp(&qp(pd, 5)).unwrap();
    dev.create_qp_done(&qp(pd, 5), Ok(Some(true))).unwrap();
    let qpn = Qpn::new(5);
    let sge = Sge::new(0x1000, 2048, Key::new(3));
    let mut seen = Vec::new();
    for is_read in [false, true, false] {
        let desc = if is_read {
            dev.read(qpn, 0x10, Key::new(4), WorkReqSendFlag::empty(), sge)
        } else {
            dev.write(qpn, 0x10, Key::new(4), WorkReqSendFlag::empty(), sge)
        };
        let common = match *desc.unwrap() {
            ToCardWorkRbDesc::Write(desc) => {
                assert!(!is_read && desc.is_first && desc.is_last);
                desc.common
            }
            ToCardWorkRbDesc::Read(desc) => {
                assert!(is_read);
                desc.common
            }
            _ => panic!("unexpected descriptor"),
        };
        assert_eq!((common.total_len, common.raddr, common.rkey.get()), (2048, 0x10, 4));
        assert_eq!(common.dqp_ip, Ipv4Addr::new(10, 0, 0, 2));
        seen.push((common.msn.get(), common.psn.get()));
    }
    // a write of three packets, a read, and another write
    assert_eq!(seen, vec![(0, 0), (1, 3), (2, 4)]);
    let unknown = Qpn::new(6);
    assert_eq!(
        dev.write(unknown, 0, Key::new(0), WorkReqSendFlag::empty(), sge).err(),
        Some(Error::Invalid(Subject::Qp(unknown)))
    );
    assert_eq!(
        dev.read(unknown, 0, Key::new(0), WorkReqSendFlag::empty(), sge).err(),
        Some(Error::Invalid(Subject::Qp(unknown)))
    );
}

#[test]
fn operations_have_numbers_of_their_own() {
    let mut dev = Device::new(network());
    let a = dev.get_ctrl_op_id();
    let b = dev.get_ctrl_op_id();
    assert_ne!(a, b);
    assert_eq!(dev.do_ctrl_op(a), Ok(()));
    assert_eq!(dev.do_ctrl_op(a), Err(Error::CreateOpCtxFailed));
    assert_eq!(dev.start_user_op(Qpn::new(1), Msn::new(2)), Ok(()));
    assert_eq!(dev.start_user_op(Qpn::new(1), Msn::new(2)), Err(Error::CreateOpCtxFailed));
    assert_eq!(dev.start_user_op(Qpn::new(2), Msn::new(2)), Ok(()));
    let mut desc = dev.set_network();
    assert_eq!(op_id(&desc), b + 2);
    dev.send_ctrl_desc(&mut desc);
    assert_eq!(op_id(&desc), b + 3);
    match desc {
        ToCardCtrlRbDesc::SetNetworkParam(desc) => {
            assert_eq!(desc.ipaddr, Ipv4Addr::new(10, 0, 0, 1));
            assert_eq!(desc.gateway, Ipv4Addr::new(10, 0, 0, 254));
        }
        _ => panic!("not a command for the network"),
    }
}

#[test]
fn the_network_interface() {
    let mut dev = Device::new(network());
    assert_eq!(
        dev.enable_nic_interface(false, 0x1000, Key::new(1)).err(),
        Some(Error::ResourceNoAvailable(Resource::Nic))
    );
    match dev.enable_nic_interface(true, 0x1000, Key::new(1)).unwrap() {
        ToCardCtrlRbDesc::SetRawPacketReceiveMeta(desc) => {
            assert_eq!((desc.base_write_addr, desc.key.get()), (0x1000, 1));
        }
        _ => panic!("not a command for plain packets"),
    }
    let mac = MacAddress { octets: [9; 6] };
    assert_eq!(Device::query_mac_address(Some(Some(mac))), Ok(mac));
    assert_eq!(Device::query_mac_address(Some(None)), Err(Error::ResourceNoAvailable(Resource::MacAddress)));
    assert_eq!(Device::query_mac_address(None), Err(Error::ResourceNoAvailable(Resource::Nic)));
}

#[test]
fn descriptors_of_a_size() {
    match *get_descriptor(123) {
        ToCardWorkRbDesc::Write(desc) => assert_eq!((desc.common.total_len, desc.sge0.len), (123, 123)),
        _ => panic!("not a write"),
    }
}

#[test]
fn numbers_of_queue_pairs_run_out() {
    let mut manager = QpManager::new();
    let mut got = Vec::new();
    while let Ok(qpn) = manager.allocate() {
        got.push(qpn.get());
    }
    assert_eq!(manager.allocate().err(), Some(Error::ResourceNoAvailable(Resource::Qp)));
    // zero and one are not handed out
    assert_eq!(got, (2..QP_MAX_CNT as u32).collect::<Vec<u32>>());
    manager.free(Qpn::new(1));
    assert!(manager.allocate().is_err());
    manager.free(Qpn::new(77));
    assert_eq!(manager.allocate().map(|q| q.get()), Ok(77));
}

#[test]
fn a_table_of_queue_pairs() {
    let mut table = QpTable::default();
    let qpn = Qpn::new(3);
    assert!(table.insert(qpn, QpContext { qpn, ..Default::default() }).is_none());
    table.set_status(qpn, QpStatus::OutOfOrder);
    assert!(!table.get(qpn).unwrap().status.is_normal());
    assert!(table.insert(qpn, QpContext::default()).is_some());
    assert!(table.remove(qpn).is_some());
    assert!(table.remove(qpn).is_none());
    let mut ctx = QpContext::new(&qp(Pd::default(), 4), Ipv4Addr::new(1, 2, 3, 4), MacAddress::default());
    assert_eq!((ctx.next_msn().get(), ctx.next_msn().get()), (0, 1));
    assert_eq!(ctx.take_psns(0xff_ffff), Psn::new(0));
    assert_eq!(ctx.take_psns(2), Psn::new(0xff_ffff));
    assert_eq!(ctx.sending_psn, Psn::new(1));
}
