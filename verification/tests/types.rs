//! Numbers, flags and byte order.

use open_rdma_driver::card::types::{Psn as CardPsn, Qpn as CardQpn, Sge as CardSge};
use open_rdma_driver::endian::{swap16, swap24, swap32};
use open_rdma_driver::types::{
    Imm, Ipv4Addr, Key, MacAddress, MemAccessTypeFlag, Msn, Pmtu, Psn, QpType, Qpn, Sge, WorkReqSendFlag,
};

#[test]
fn test_wrapping_add() {
    let psn = CardPsn::new(0xffffff);
    let ret = psn.wrapping_add(CardPsn::new(1));
    assert_eq!(0, ret.get());

    let ret = psn.wrapping_add(CardPsn::new(2));
    assert_eq!(ret.get(), 1);

    let ret = psn.wrapping_add(CardPsn::new(0xffffff));
    assert_eq!(ret.get(), 0xffffff - 1);
}

#[test]
fn types_test_wrapping_add() {
    let psn = Psn::new(0xffffff);
    let ret = psn.wrapping_add(1);
    assert_eq!(0, ret.get());

    let ret = psn.wrapping_add(2);
    assert_eq!(ret.get(), 1);

    let ret = psn.wrapping_add(0xffffff);
    assert_eq!(ret.get(), 0xffffff - 1);
}

#[test]
fn test_to_ne() {
    let psn = CardPsn::new(0x123456);
    let mem = psn.into_ne();
    let buf = mem.to_ne_bytes();
    assert_eq!(&buf, &[0x12, 0x34, 0x56, 0]);
    assert_eq!(CardPsn::from_ne(mem).get(), 0x123456);

    let key = Key::new_unchecked(0x12345678);
    let mem = key.into_ne();
    let buf = mem.to_ne_bytes();
    assert_eq!(&buf, &[0x12, 0x34, 0x56, 0x78]);
    assert_eq!(Key::from_ne(mem).get(), 0x12345678);
}

#[test]
fn test_to_be() {
    let psn = Psn::new(0x123456);
    let mem = psn.into_be();
    let buf = mem.to_ne_bytes();
    assert_eq!(&buf, &[0x12, 0x34, 0x56, 0]);
    assert_eq!(Psn::from_be(mem).get(), 0x123456);

    let key = Key::new(0x12345678);
    let mem = key.into_be();
    let buf = mem.to_ne_bytes();
    assert_eq!(&buf, &[0x12, 0x34, 0x56, 0x78]);
    assert_eq!(Key::from_be(mem).get(), 0x12345678);
}

#[test]
fn test_wrapping_sub() {
    let psn = CardPsn::new(0);
    let psn2 = psn.wrapping_sub(CardPsn::new(1));
    assert_eq!(psn2, 0xffffff);

    let psn = CardPsn::new(0x800001);
    let diff = psn.wrapping_sub(CardPsn::new(0));
    assert_eq!(diff, 0x800001);

    let psn = CardPsn::new(0);
    let diff = psn.wrapping_sub(CardPsn::new(0x800001));
    assert_eq!(diff, 0x7fffff);
}

#[test]
fn test_wrapping_abs() {
    let psn = Psn::new(0);
    let psn2 = psn.wrapping_sub(1);
    assert_eq!(psn2.get(), 0xffffff);

    let psn = psn.wrapping_abs(psn2);
    assert_eq!(psn, 1);

    // psn greater than 2**24
    let psn = Psn::new(0x123456);
    let psn2 = psn.wrapping_sub(0x12345678);
    assert_eq!(psn2.get(), psn.wrapping_sub(0x345678).get());
}

#[test]
fn test_pmtu() {
    let pmtu = Pmtu::Mtu256;
    assert_eq!(u32::from(pmtu), 256);
    let pmtu = Pmtu::Mtu512;
    assert_eq!(u32::from(pmtu), 512);
    let pmtu = Pmtu::Mtu1024;
    assert_eq!(u32::from(pmtu), 1024);
    let pmtu = Pmtu::Mtu2048;
    assert_eq!(u32::from(pmtu), 2048);
    let pmtu = Pmtu::Mtu4096;
    assert_eq!(u32::from(pmtu), 4096);
}

#[test]
fn pmtu_codes_count_up_from_one() {
    assert_eq!(Pmtu::Mtu256.code(), 1);
    assert_eq!(Pmtu::Mtu512.code(), 2);
    assert_eq!(Pmtu::Mtu1024.code(), 3);
    assert_eq!(Pmtu::Mtu2048.code(), 4);
    assert_eq!(Pmtu::Mtu4096.code(), 5);
    assert_eq!(u64::from(&Pmtu::Mtu2048), 2048);
    assert_eq!(u32::from(&Pmtu::Mtu512), 512);
}

#[test]
fn queue_pair_types_have_codes() {
    assert_eq!(QpType::Rc.code(), 2);
    assert_eq!(QpType::RawPacket.code(), 8);
    for code in 0u8..=255 {
        match QpType::try_from_code(code) {
            Some(t) => assert_eq!(t.code(), code),
            None => assert!(![2u8, 3, 4, 8, 9, 10].contains(&code)),
        }
    }
}

#[test]
fn swapping_twice_gives_the_number_back() {
    assert_eq!(swap16(0x1234), 0x3412);
    assert_eq!(swap24(0x123456), 0x563412);
    assert_eq!(swap32(0x12345678), 0x78563412);
    assert_eq!(swap16(swap16(0xabcd)), 0xabcd);
    assert_eq!(swap24(swap24(0xabcdef)), 0xabcdef);
    assert_eq!(swap32(swap32(0xabcdef01)), 0xabcdef01);
}

#[test]
fn numbers_in_network_order() {
    assert_eq!(Imm::new(0x01020304).into_be(), 0x04030201);
    assert_eq!(Imm::from_be(0x04030201).get(), 0x01020304);
    assert_eq!(Imm::from_ne(Imm::new(77).into_ne()).get(), 77);
    assert_eq!(Msn::new(0x0102).into_be(), 0x0201);
    assert_eq!(Msn::new(0x0102).into_ne(), 0x0201);
    assert_eq!(Msn::default().get(), 0);
    assert_eq!(Msn::from(9u16).get(), 9);
    assert_eq!(Imm::from(9u32).get(), 9);
    assert_eq!(Imm::default().get(), 0);
}

#[test]
fn keys_hold_the_region_and_the_secret() {
    // the region's index stands in the upper bits, the secret below it
    assert_eq!(Key::from_parts(5, 0x1234).get(), 0x0500_0012);
    assert_eq!(Key::from_parts(0x1ff, 0xffff_ffff).get(), 0xffff_ffff);
    assert_eq!(Key::from(3u32), Key::new(3));
    assert_eq!(Key::default().get(), 0);
}

#[test]
fn three_byte_numbers_drop_what_does_not_fit() {
    assert_eq!(Psn::new(0x1000001).get(), 1);
    assert_eq!(Qpn::from(0xff_ffff).get(), Qpn::MAX_VALUE);
    assert_eq!(Psn::default().get(), 0);
}

#[test]
fn later_packets_are_larger() {
    assert!(Psn::new(5).larger_in_psn(Psn::new(3)));
    assert!(!Psn::new(3).larger_in_psn(Psn::new(5)));
    // past the wrap-around
    assert!(Psn::new(1).larger_in_psn(Psn::new(0xff_ffff)));
    assert!(!Psn::new(0xff_ffff).larger_in_psn(Psn::new(1)));
}

#[test]
fn differences_lead_back() {
    for (a, b) in [(0u32, 1u32), (7, 3), (0xff_ffff, 0), (0x80_0000, 0x7f_ffff)] {
        let diff = CardPsn::new(a).wrapping_sub(CardPsn::new(b));
        assert_eq!(CardPsn::new(b).wrapping_add(CardPsn::new(diff)).get(), a);
        assert_eq!(Psn::new(b).wrapping_add(Psn::new(a).wrapping_sub(b).get()).get(), a);
    }
}

#[test]
fn access_flags() {
    let flags = MemAccessTypeFlag::from_bits(
        MemAccessTypeFlag::IBV_ACCESS_REMOTE_WRITE | MemAccessTypeFlag::IBV_ACCESS_LOCAL_WRITE,
    );
    assert_eq!(flags.bits(), 3);
    assert!(flags.contains(MemAccessTypeFlag::from_bits(2)));
    assert!(!flags.contains(MemAccessTypeFlag::from_bits(4)));
    assert!(!flags.contains(MemAccessTypeFlag::from_bits(6)));
    assert!(flags.contains(MemAccessTypeFlag::empty()));
    assert_eq!(MemAccessTypeFlag::empty().bits(), 0);
}

#[test]
fn send_flags() {
    assert_eq!(WorkReqSendFlag::empty().bits(), 0);
    assert_eq!(WorkReqSendFlag::default(), WorkReqSendFlag::empty());
    assert_eq!(
        WorkReqSendFlag::from_bits(WorkReqSendFlag::IBV_SEND_SIGNALED).map(|f| f.bits()),
        Some(2)
    );
    assert_eq!(WorkReqSendFlag::from_bits(31).map(|f| f.bits()), Some(31));
    assert!(WorkReqSendFlag::from_bits(32).is_none());
}

#[test]
fn plain_values() {
    assert_eq!(Sge::new(1, 2, Key::new(3)), Sge { addr: 1, len: 2, key: Key::new(3) });
    assert_eq!(CardSge::new(1, 2, Key::new(3)), CardSge { phy_addr: 1, len: 2, key: Key::new(3) });
    assert_eq!(CardQpn::new(12).get(), 12);
    assert_eq!(CardQpn::default().get(), 0);
    assert_eq!(Ipv4Addr::new(10, 0, 0, 1).octets, [10, 0, 0, 1]);
    assert_eq!(MacAddress::default().octets, [0; 6]);
}

#[test]
fn the_absolute_difference_is_the_same_both_ways() {
    assert_eq!(Psn::new(1).wrapping_abs(Psn::new(3)), 2);
    assert_eq!(Psn::new(3).wrapping_abs(Psn::new(1)), 2);
    assert_eq!(Psn::new(0xff_ffff).wrapping_abs(Psn::new(0)), 1);
    assert_eq!(Psn::new(0).wrapping_abs(Psn::new(0x80_0000)), 0x80_0000);
    assert_eq!(Psn::new(0).wrapping_abs(Psn::new(0x80_0001)), 0x7f_ffff);
    assert_eq!(Psn::new(7).wrapping_abs(Psn::new(7)), 0);
}
