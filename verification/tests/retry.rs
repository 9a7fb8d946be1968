//! Sending work descriptors again when no answer comes.

use open_rdma_driver::device::work::{
    DescSge, ToCardWorkRbDesc, ToCardWorkRbDescCommon, ToCardWorkRbDescRead, ToCardWorkRbDescWrite,
};
use open_rdma_driver::op_ctx::{make_operation_key, CtxStatus, OpCtx};
use open_rdma_driver::retry::{
    cut_descriptor, psn_addr_offset, RetryAction, RetryConfig, RetryMap, RetryMonitorContext, RetryRecord,
    EXCEED_MAX_RETRY,
};
use open_rdma_driver::types::{Error, Key, Msn, Pmtu, Psn, Qpn, Subject};

fn write_desc(common: ToCardWorkRbDescCommon, sge0: DescSge) -> Box<ToCardWorkRbDesc> {
    Box::new(ToCardWorkRbDesc::Write(ToCardWorkRbDescWrite {
        common,
        is_last: true,
        is_first: true,
        sge0,
        sge1: None,
        sge2: None,
        sge3: None,
    }))
}

fn read_desc() -> Box<ToCardWorkRbDesc> {
    Box::new(ToCardWorkRbDesc::Read(ToCardWorkRbDescRead {
        common: ToCardWorkRbDescCommon::default(),
        sge: DescSge::default(),
    }))
}

#[test]
fn test_psn_addr_offset() {
    assert_eq!(psn_addr_offset(0, Pmtu::Mtu2048, 0), 0);
    assert_eq!(psn_addr_offset(0, Pmtu::Mtu2048, 1), 2048);
    assert_eq!(psn_addr_offset(0, Pmtu::Mtu2048, 2), 4096);
    assert_eq!(psn_addr_offset(1234, Pmtu::Mtu2048, 0), 0);
    assert_eq!(psn_addr_offset(1234, Pmtu::Mtu2048, 1), 814);
    assert_eq!(psn_addr_offset(1234, Pmtu::Mtu2048, 2), 2862);
}

/// Looks at the clock every ten milliseconds from `from` up to `to`.
fn monitor(context: &mut RetryMonitorContext, from: u128, to: u128, sent: &mut usize, op: &mut OpCtx<()>) {
    let mut now = from;
    while now < to {
        now += context.config.checking_interval;
        for action in context.check_timeout(now) {
            match action {
                RetryAction::Resend { .. } => *sent += 1,
                RetryAction::GiveUp { .. } => {
                    let _ = op.set_error(EXCEED_MAX_RETRY);
                }
            }
        }
    }
}

#[test]
fn test_retry_monitor() {
    let mut context = RetryMonitorContext {
        map: RetryMap::new(3, 1000),
        config: RetryConfig::new(true, 3, 1000, 10),
    };
    let mut op: OpCtx<()> = OpCtx::new_running();
    let desc = write_desc(
        ToCardWorkRbDescCommon::default(),
        DescSge { addr: 0x1000, len: 512, key: Key::new(0x1234_u32) },
    );
    let key = (Qpn::default(), Msn::default());
    context.map.add(key, desc, true, 0);
    let mut sent = 0;

    // should send first retry
    monitor(&mut context, 0, 1020, &mut sent, &mut op);
    assert_eq!(sent, 1);
    // should send second retry
    monitor(&mut context, 1020, 2 * 1020, &mut sent, &mut op);
    assert_eq!(sent, 2);
    // should send last retry
    monitor(&mut context, 2 * 1020, 3 * 1020, &mut sent, &mut op);
    assert_eq!(sent, 3);

    monitor(&mut context, 3 * 1020, 4 * 1020, &mut sent, &mut op);
    // should remove the record
    assert!(matches!(op.status(), CtxStatus::Failed(_)));
    assert!(context.map.get_descritpor(key, None).unwrap().is_none());
    monitor(&mut context, 4 * 1020, 5 * 1020, &mut sent, &mut op);
    assert_eq!(sent, 3);
}

#[test]
fn what_is_kept_is_given_back() {
    let mut map = RetryMap::new(1, 100);
    let key = (Qpn::new(1), Msn::new(2));
    assert!(map.get_descritpor(key, None).unwrap().is_none());
    assert!(!map.add(key, read_desc(), false, 0));
    // what is there already stays
    let other = write_desc(ToCardWorkRbDescCommon::default(), DescSge::default());
    assert!(map.add(key, other, false, 0));
    let kept = map.get_descritpor(key, None).unwrap().unwrap();
    assert!(matches!(*kept, ToCardWorkRbDesc::Read(_)));
    assert_eq!(map.get_descritpor(key, Some((0, 0))).err(), Some(Error::Invalid(Subject::DescriptorType)));
    assert!(!map.cancel(key));
    assert!(map.cancel(key));
    assert!(map.get_descritpor(key, None).unwrap().is_none());
}

#[test]
fn only_what_waits_for_an_answer_is_sent_again() {
    let mut context = RetryMonitorContext { map: RetryMap::new(1, 100), config: RetryConfig::new(true, 1, 100, 10) };
    context.map.add((Qpn::new(1), Msn::new(1)), read_desc(), false, 0);
    context.map.add((Qpn::new(1), Msn::new(2)), read_desc(), true, 50);
    assert_eq!(context.check_timeout(149).len(), 0);
    let actions = context.check_timeout(150);
    assert_eq!(actions.len(), 1);
    assert!(matches!(actions[0], RetryAction::Resend { qpn, msn, .. } if qpn.get() == 1 && msn.get() == 2));
    assert_eq!(context.check_timeout(200).len(), 0);
    let actions = context.check_timeout(250);
    assert!(matches!(actions[0], RetryAction::GiveUp { msn, .. } if msn.get() == 2));
    // the other one has its try left
    assert!(context.map.get_descritpor((Qpn::new(1), Msn::new(1)), None).unwrap().is_some());
}

#[test]
fn exhausted_records_are_dropped() {
    let mut map = RetryMap::new(0, 100);
    map.add((Qpn::new(1), Msn::new(1)), read_desc(), false, 0);
    map.clean_exceed_timeout();
    assert!(map.get_descritpor((Qpn::new(1), Msn::new(1)), None).unwrap().is_none());
}

#[test]
fn a_part_of_a_write_can_be_asked_for() {
    let common = ToCardWorkRbDescCommon {
        total_len: 256 * 4,
        raddr: 0x1_0000,
        pmtu: Pmtu::Mtu256,
        psn: Psn::new(10),
        ..Default::default()
    };
    let desc = write_desc(common, DescSge { addr: 0x2_0000, len: 256 * 4, key: Key::new(9) });
    let part = cut_descriptor(&desc, Some((1, 3))).unwrap();
    match *part {
        ToCardWorkRbDesc::Write(part) => {
            assert_eq!(part.common.psn.get(), 11);
            assert_eq!(part.common.raddr, 0x1_0000 + 256);
            assert_eq!(part.common.total_len, 512);
            assert_eq!(part.sge0, DescSge { addr: 0x2_0000 + 256, len: 512, key: Key::new(9) });
            assert!(!part.is_first);
            assert!(part.is_last);
        }
        _ => panic!("not a write"),
    }
    let refused = Some(Error::Invalid(Subject::PsnRange));
    assert_eq!(cut_descriptor(&desc, Some((2, 1))).err(), refused);
    assert_eq!(cut_descriptor(&desc, Some((0, 4))).err(), refused);
    assert!(cut_descriptor(&desc, None).is_ok());
}

#[test]
fn records_and_keys() {
    let record = RetryRecord::new(read_desc(), Qpn::new(4), Msn::new(5), true);
    assert_eq!((record.qpn.get(), record.msn.get(), record.initiative), (4, 5, true));
    // the message's number stands below that of the queue pair
    assert_eq!(make_operation_key(Qpn::new(1), Msn::new(2)), 0x1_0002);
    assert_ne!(make_operation_key(Qpn::new(2), Msn::new(1)), make_operation_key(Qpn::new(1), Msn::new(2)));
    let config = RetryConfig::new(false, 2, 30, 4);
    assert_eq!((config.is_enable, config.max_retry), (false, 2));
    assert_eq!((config.retry_timeout, config.checking_interval), (30, 4));
}

#[test]
fn test_op_ctx() {
    let mut ctx = OpCtx::new_running();
    // the user has to wait
    assert!(ctx.wait());
    assert!(ctx.set_result(true).is_ok());
    assert_eq!(ctx.get_result(), Some(true).as_ref());

    let mut ctx = OpCtx::new_running();
    assert!(ctx.set_result(false).is_ok());
    let _ = ctx.wait_result();
    assert_eq!(ctx.get_result(), Some(false).as_ref());
}

#[test]
fn operations_fail_or_finish_once() {
    let mut ctx: OpCtx<u32> = OpCtx::new_running();
    assert!(matches!(ctx.status(), CtxStatus::Running));
    assert!(ctx.get_result().is_none());
    ctx.set_error("no answer");
    assert!(matches!(ctx.status(), CtxStatus::Failed("no answer")));
    assert_eq!(ctx.wait_result(), Err(Error::Device("no answer")));
    let mut ctx: OpCtx<u32> = OpCtx::new_running();
    assert!(ctx.set_result(1).is_ok());
    assert_eq!(ctx.set_result(2).err(), Some(Error::SetCtxResultFailed));
    assert_eq!(ctx.get_result(), Some(&1));
    assert!(matches!(ctx.status(), CtxStatus::Finished));
}

#[test]
fn parts_of_a_write_adjoin() {
    let common = ToCardWorkRbDescCommon {
        total_len: 256 * 4,
        raddr: 0x1_0000,
        pmtu: Pmtu::Mtu256,
        psn: Psn::new(0xff_ffff),
        ..Default::default()
    };
    let desc = write_desc(common, DescSge { addr: 0x2_0010, len: 256 * 4, key: Key::new(9) });
    let first = cut_descriptor(&desc, Some((0, 2))).unwrap();
    let second = cut_descriptor(&desc, Some((2, 3))).unwrap();
    match (*first, *second) {
        (ToCardWorkRbDesc::Write(first), ToCardWorkRbDesc::Write(second)) => {
            assert_eq!(first.common.total_len, 240 + 256);
            assert_eq!(second.common.raddr, first.common.raddr + u64::from(first.common.total_len));
            assert_eq!(second.sge0.addr, first.sge0.addr + u64::from(first.sge0.len));
            assert_eq!((first.common.psn.get(), second.common.psn.get()), (0xff_ffff, 1));
        }
        _ => panic!("not a write"),
    }
}
