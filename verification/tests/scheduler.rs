//! Cutting work into pieces, and handing it out in turn.

use open_rdma_driver::device::error::DeviceError;
use open_rdma_driver::device::ringbuf::{Ringbuf, WriterStep};
use open_rdma_driver::device::scheduler::round_robin::RoundRobinStrategy;
use open_rdma_driver::device::scheduler::testing::{TestingHandler, TestingStrategy};
use open_rdma_driver::device::scheduler::{
    get_first_schedule_segment_length, get_to_card_desc_common, get_total_len, recalculate_psn, schedule_once,
    split_descriptor, SchedulerStrategy, SealedDesc, POP_BATCH_SIZE, SCHEDULER_SIZE,
};
use open_rdma_driver::device::sgl::{cut_from_sgl, SGList};
use open_rdma_driver::device::work::{
    DescSge, ToCardWorkRbDesc, ToCardWorkRbDescCommon, ToCardWorkRbDescRead, ToCardWorkRbDescWrite,
    ToCardWorkRbDescWriteWithImm,
};
use open_rdma_driver::types::{Ipv4Addr, Key, MacAddress, Msn, Pmtu, Psn, QpType, Qpn, WorkReqSendFlag};

fn write_of(common: ToCardWorkRbDescCommon, sge0: DescSge) -> ToCardWorkRbDescWrite {
    ToCardWorkRbDescWrite { common, is_last: true, is_first: true, sge0, sge1: None, sge2: None, sge3: None }
}

#[test]
fn test_helper_function_first_length() {
    let length = get_first_schedule_segment_length(0);
    assert_eq!(length, 1024 * 32);
    let length = get_first_schedule_segment_length(1024 * 29);
    assert_eq!(length, 1024 * 3);
    let length = get_first_schedule_segment_length(1024 * 32 + 1);
    assert_eq!(length, 1024 * 32 - 1);
}

#[test]
fn test_cut_from_sgl() {
    let mut sgl = SGList::from_sges(vec![DescSge { addr: 0, len: 1024, key: Key::default() }]);
    let new_sgl = cut_from_sgl(512, &mut sgl);
    assert_eq!(new_sgl.len, 1);
    assert_eq!(new_sgl.data[0].len, 512);
    assert_eq!(sgl.data[0].len, 512);
    assert_eq!(sgl.data[0].addr, 512);
}

#[test]
fn test() {
    let va = 128;
    let desc = SealedDesc::new(Box::new(ToCardWorkRbDesc::Write(write_of(
        ToCardWorkRbDescCommon {
            total_len: 256 * 10,
            raddr: va,
            dqpn: Qpn::new(2),
            pmtu: Pmtu::Mtu256,
            flags: WorkReqSendFlag::empty(),
            msn: Msn::new(0x27),
            ..Default::default()
        },
        DescSge { addr: 0, len: 256 * 10, key: Key::new(3) },
    ))));
    let results = desc.reorder(vec![0, 1, 5, 4, 2, 3, 6, 7, 8, 9, 10]);
    assert_eq!(results.len(), 5);
    // should cut into [0,1] [5],[4] [2,3],[6,10]
    let psns: Vec<u32> = results.iter().map(|d| d.get_psn().get()).collect();
    assert_eq!(psns, vec![0, 5, 4, 2, 6]);
    let lens: Vec<u32> = results.into_iter().map(|d| get_total_len(&d.into_desc())).collect();
    assert_eq!(lens, vec![128 + 256, 256, 256, 512, 256 * 4 + 128]);
}

fn generate_random_descriptors(qpn: u32, num: usize) -> Vec<SealedDesc> {
    let desc = Box::new(ToCardWorkRbDesc::Write(ToCardWorkRbDescWrite {
        common: ToCardWorkRbDescCommon {
            total_len: 512,
            raddr: 0x0,
            rkey: Key::new(1234_u32),
            dqp_ip: Ipv4Addr::new(127, 0, 0, 1),
            dqpn: Qpn::new(qpn),
            mac_addr: MacAddress::default(),
            pmtu: Pmtu::Mtu1024,
            flags: WorkReqSendFlag::empty(),
            qp_type: QpType::Rc,
            psn: Psn::new(1234),
            msn: Msn::new(0),
        },
        is_last: true,
        is_first: true,
        sge0: DescSge { addr: 0x1000, len: 512, key: Key::new(0x1234_u32) },
        sge1: None,
        sge2: None,
        sge3: None,
    }));
    let mut ret = Vec::new();
    for _ in 0..num {
        ret.push(SealedDesc::from(desc.clone()));
    }
    ret
}

#[test]
fn test_round_robin() {
    let mut round_robin = RoundRobinStrategy::new();
    let qpn1 = Qpn::new(1);
    let qpn2 = Qpn::new(2);
    let qpn1_descs = generate_random_descriptors(1, 2);
    round_robin.push(qpn1, qpn1_descs).unwrap();
    let qpn2_descs = generate_random_descriptors(2, 3);
    round_robin.push(qpn2, qpn2_descs).unwrap();
    let (desc, n) = round_robin.pop_batch().unwrap();
    assert_eq!(n, 5);
    let descs = desc.into_iter().flatten().map(|s| s.get_dqpn().get()).collect::<Vec<u32>>();
    let result_dqpns = vec![1, 2, 1, 2, 2];
    assert_eq!(descs, result_dqpns);

    // test merge descriptors
    let (_desc, n) = round_robin.pop_batch().unwrap();
    assert_eq!(n, 0);
    let qpn1_descs = generate_random_descriptors(1, 9);
    round_robin.push(qpn1, qpn1_descs).unwrap();
    let qpn2_descs = generate_random_descriptors(2, 1);
    round_robin.push(qpn2, qpn2_descs).unwrap();
    let (desc, _n) = round_robin.pop_batch().unwrap();
    let descs = desc.into_iter().flatten().map(|s| s.get_dqpn().get()).collect::<Vec<u32>>();
    let result_dqpns = vec![1, 2, 1, 1, 1, 1, 1, 1];
    assert_eq!(descs, result_dqpns);
}

struct Handlers {
    handler: fn(&mut Vec<SealedDesc>),
}

impl TestingHandler for Handlers {
    fn handle_pkt(&self, desc: &mut Vec<SealedDesc>) -> Result<(), DeviceError> {
        (self.handler)(desc);
        Ok(())
    }
}

fn generate_read_request() -> SealedDesc {
    let desc = Box::new(ToCardWorkRbDesc::Read(ToCardWorkRbDescRead {
        common: ToCardWorkRbDescCommon::default(),
        sge: DescSge::default(),
    }));
    SealedDesc::from(desc)
}

fn generate_numbered_descriptors(qpn: u32, psn: u32, num: usize) -> Vec<SealedDesc> {
    let common = ToCardWorkRbDescCommon {
        psn: Psn::new(psn),
        dqpn: Qpn::new(qpn),
        ..ToCardWorkRbDescCommon::default()
    };
    (0..num)
        .map(|idx| {
            let mut common_clone = common.clone();
            common_clone.psn = common_clone.psn.wrapping_add(idx.try_into().unwrap());
            let desc = Box::new(ToCardWorkRbDesc::Write(write_of(common_clone, DescSge::default())));
            SealedDesc::from(desc)
        })
        .collect()
}

fn filter_threes_fold(desc: &mut Vec<SealedDesc>) {
    desc.retain(|desc| desc.get_psn().get() % 3 != 0);
}

#[test]
fn test_testing_strategy() {
    let mut strategy = TestingStrategy::new(Handlers { handler: filter_threes_fold });
    // generate psn from 1 to 10
    let desc = generate_numbered_descriptors(2, 1, 10);
    // should filter 3, 6, 9
    strategy.push(Qpn::new(2), desc).unwrap();
    let (batch1, n) = strategy.pop_batch().unwrap();
    assert_eq!(n, 7);
    let result_psn = batch1.into_iter().flatten().map(|desc| desc.get_psn().get()).collect::<Vec<u32>>();
    assert_eq!(result_psn, vec![1, 2, 4, 5, 7, 8, 10]);

    let (_, n) = strategy.pop_batch().unwrap();
    assert_eq!(n, 0);

    // test filter read
    let desc = generate_read_request();
    strategy.push(Qpn::new(2), vec![desc]).unwrap();
    let (_, n) = strategy.pop_batch().unwrap();
    assert_eq!(n, 0);
}

struct Refusing;

impl TestingHandler for Refusing {
    fn handle_pkt(&self, _desc: &mut Vec<SealedDesc>) -> Result<(), DeviceError> {
        Err(DeviceError::Scheduler)
    }
}

#[test]
fn a_handler_that_fails_keeps_the_work_out() {
    let mut strategy = TestingStrategy::new(Refusing);
    let pushed = strategy.push(Qpn::new(2), generate_numbered_descriptors(2, 1, 1));
    assert_eq!(pushed, Err(DeviceError::Scheduler));
    let (_, n) = strategy.pop_batch().unwrap();
    assert_eq!(n, 0);
}

/// Puts what is waiting into a ring of slots, and gives the head that the card
/// is told.
fn drain(strategy: &mut RoundRobinStrategy, ring: &mut Ringbuf<128, 32, 4096>, slots: &mut [u8]) -> u32 {
    let mut writer = ring.write();
    loop {
        let (batch, n) = strategy.pop_batch().unwrap();
        if n == 0 {
            break;
        }
        for desc in batch.into_iter().flatten() {
            let desc = desc.into_desc();
            for i in 0..desc.serialized_desc_cnt() {
                let offset = match writer.next() {
                    WriterStep::Slot(offset) => offset,
                    WriterStep::Full(_) => panic!("the ring is full"),
                };
                let slot = &mut slots[offset..offset + 32];
                match i {
                    0 => desc.write_0(slot),
                    1 => desc.write_1(slot),
                    2 => desc.write_2(slot),
                    _ => desc.write_3(slot),
                }
            }
        }
    }
    let head = writer.flush();
    writer.head_written();
    ring.end_write(writer);
    head
}

#[test]
fn test_scheduler() {
    let va = 29 * 1024;
    let length = 1024 * 36; // should cut into 3 segments: 29k - 32k, 32k - 64k, 64k-65k
    let mut strategy = RoundRobinStrategy::new();
    let mut slots = vec![0u8; 4096];
    let mut ringbuf = Ringbuf::<128, 32, 4096>::new(0, 4096);
    let desc = ToCardWorkRbDesc::Write(write_of(
        ToCardWorkRbDescCommon {
            total_len: length,
            raddr: va,
            dqpn: Qpn::new(2),
            pmtu: Pmtu::Mtu4096,
            flags: WorkReqSendFlag::empty(),
            msn: Msn::new(0x27),
            ..Default::default()
        },
        DescSge { addr: 0, len: length, key: Key::new(3) },
    ));
    strategy.push(Qpn::new(2), split_descriptor(Box::new(desc))).unwrap();

    let head = drain(&mut strategy, &mut ringbuf, &mut slots);
    assert_eq!(head, 9); // 3 descriptors, each has 3 segments

    // test a raw packet
    let desc = ToCardWorkRbDesc::WriteWithImm(ToCardWorkRbDescWriteWithImm {
        common: ToCardWorkRbDescCommon {
            total_len: 66,
            qp_type: QpType::RawPacket,
            ..Default::default()
        },
        is_last: false,
        is_first: false,
        imm: 0,
        sge0: DescSge::default(),
        sge1: None,
        sge2: None,
        sge3: None,
    });
    strategy.push(Qpn::new(0), split_descriptor(Box::new(desc))).unwrap();
    let head = drain(&mut strategy, &mut ringbuf, &mut slots);
    assert_eq!(head, 9 + 3); // 1 descriptor, which has 3 segments
}

#[test]
fn the_pieces_of_a_write_cover_it() {
    let desc = ToCardWorkRbDesc::Write(write_of(
        ToCardWorkRbDescCommon {
            total_len: 1024 * 36,
            raddr: 29 * 1024,
            pmtu: Pmtu::Mtu4096,
            psn: Psn::new(0xff_ffff),
            ..Default::default()
        },
        DescSge { addr: 0x1_0000, len: 1024 * 36, key: Key::new(3) },
    ));
    let pieces: Vec<ToCardWorkRbDescWrite> = split_descriptor(Box::new(desc))
        .into_iter()
        .map(|d| match *d.into_desc() {
            ToCardWorkRbDesc::Write(req) => req,
            _ => panic!("not a write"),
        })
        .collect();
    assert_eq!(pieces.len(), 3);
    let lens: Vec<u32> = pieces.iter().map(|p| p.sge0.len).collect();
    assert_eq!(lens, vec![3 * 1024, 32 * 1024, 1024]);
    let raddrs: Vec<u64> = pieces.iter().map(|p| p.common.raddr).collect();
    assert_eq!(raddrs, vec![29 * 1024, 32 * 1024, 64 * 1024]);
    let addrs: Vec<u64> = pieces.iter().map(|p| p.sge0.addr).collect();
    assert_eq!(addrs, vec![0x1_0000, 0x1_0000 + 3 * 1024, 0x1_0000 + 35 * 1024]);
    // the first piece is one packet, the second eight
    let psns: Vec<u32> = pieces.iter().map(|p| p.common.psn.get()).collect();
    assert_eq!(psns, vec![0xff_ffff, 0, 8]);
    let ends: Vec<(bool, bool)> = pieces.iter().map(|p| (p.is_first, p.is_last)).collect();
    assert_eq!(ends, vec![(true, false), (false, false), (false, true)]);
}

#[test]
fn reads_are_not_cut() {
    let read = ToCardWorkRbDesc::Read(ToCardWorkRbDescRead {
        common: ToCardWorkRbDescCommon { total_len: 1 << 20, ..Default::default() },
        sge: DescSge { addr: 0, len: 1 << 20, key: Key::new(1) },
    });
    assert_eq!(get_total_len(&read), 1 << 20);
    assert_eq!(get_to_card_desc_common(&read).total_len, 1 << 20);
    assert_eq!(split_descriptor(Box::new(read)).len(), 1);
}

#[test]
fn psns_count_packets() {
    assert_eq!(recalculate_psn(0, Pmtu::Mtu1024, 4096, Psn::new(10)).get(), 14);
    assert_eq!(recalculate_psn(1, Pmtu::Mtu1024, 4096, Psn::new(10)).get(), 15);
    assert_eq!(recalculate_psn(0, Pmtu::Mtu4096, 4096, Psn::new(0xff_ffff)).get(), 0);
}

#[test]
fn batches_keep_the_order_of_each_queue_pair() {
    let mut strategy = RoundRobinStrategy::default();
    strategy.push(Qpn::new(1), generate_numbered_descriptors(1, 0, 6)).unwrap();
    strategy.push(Qpn::new(2), generate_numbered_descriptors(2, 100, 6)).unwrap();
    // more of a queue pair that is waiting goes behind what it has
    strategy.push(Qpn::new(1), generate_numbered_descriptors(1, 6, 1)).unwrap();
    let mut seen: Vec<(u32, u32)> = Vec::new();
    loop {
        let (batch, n) = strategy.pop_batch().unwrap();
        assert_eq!(batch.len(), POP_BATCH_SIZE);
        if n == 0 {
            break;
        }
        for desc in batch.into_iter().flatten() {
            seen.push((desc.get_dqpn().get(), desc.get_psn().get()));
        }
    }
    let of = |qpn: u32| seen.iter().filter(|s| s.0 == qpn).map(|s| s.1).collect::<Vec<u32>>();
    assert_eq!(of(1), (0..7).collect::<Vec<u32>>());
    assert_eq!(of(2), (100..106).collect::<Vec<u32>>());
    assert_eq!(seen[0].0, 1);
    assert_eq!(seen[1].0, 2);
}

#[test]
fn sealed_descriptors_tell_their_message() {
    let mut common = ToCardWorkRbDescCommon::default();
    common.msn = Msn::new(5);
    let write = write_of(common, DescSge::default());
    let sealed = SealedDesc::new(Box::new(ToCardWorkRbDesc::Write(write)));
    assert_eq!(sealed.clone().get_psn(), sealed.get_psn());
    assert_eq!(sealed.msn().map(|m| m.get()), Some(5));
    assert_eq!(generate_read_request().msn(), None);
    assert_eq!(generate_read_request().reorder(vec![1, 0]).len(), 0);
}

#[test]
fn a_turn_splits_queues_and_hands_out() {
    let mut strategy = RoundRobinStrategy::new();
    let common = ToCardWorkRbDescCommon {
        total_len: SCHEDULER_SIZE * 2,
        dqpn: Qpn::new(3),
        ..ToCardWorkRbDescCommon::default()
    };
    let sge = DescSge { addr: 0x1000, len: SCHEDULER_SIZE * 2, ..DescSge::default() };
    let desc = Box::new(ToCardWorkRbDesc::Write(write_of(common, sge)));
    let out = schedule_once(&mut strategy, Some(desc));
    let raddrs: Vec<u64> = out.iter().map(|desc| get_to_card_desc_common(desc).raddr).collect();
    assert_eq!(raddrs, vec![0, u64::from(SCHEDULER_SIZE)]);
    assert!(schedule_once(&mut strategy, None).is_empty());

    // what the strategy refuses is dropped
    let mut strategy = TestingStrategy::new(Refusing);
    let desc = Box::new(ToCardWorkRbDesc::Write(write_of(common, sge)));
    assert!(schedule_once(&mut strategy, Some(desc)).is_empty());
}

#[test]
fn the_first_of_several_numbers_does_not_count() {
    let common = ToCardWorkRbDescCommon { total_len: 256 * 3, pmtu: Pmtu::Mtu256, ..Default::default() };
    let desc = SealedDesc::new(Box::new(ToCardWorkRbDesc::Write(write_of(
        common,
        DescSge { addr: 0, len: 256 * 3, key: Key::new(3) },
    ))));
    let psns: Vec<u32> = desc.reorder(vec![-7, 2, 1]).iter().map(|d| d.get_psn().get()).collect();
    assert_eq!(psns, vec![0, 2, 1]);
}
