//! Packet arithmetic, memory areas, buffers and bit fields.

use open_rdma_driver::bits::{get_bits, set_bits, write_fields, Field};
use open_rdma_driver::buf::{PacketBuf, Slot, RDMA_ACK_BUFFER_SLOT_SIZE};
use open_rdma_driver::card;
use open_rdma_driver::card::recycle_allocator::PacketBufAllocator;
use open_rdma_driver::types::{Error, Key, Pmtu, Resource, Sge};
use open_rdma_driver::utils::{
    align_up, calculate_packet_cnt, div_ceil, get_first_packet_max_length, u8_slice_to_u64, AlignedMemory, Buffer,
    MmapMemory,
};

#[test]
fn test_calculate_packet_cnt() {
    let raddr = 0;
    let total_len = 4096;
    let packet_cnt = calculate_packet_cnt(Pmtu::Mtu1024, raddr, total_len);
    assert_eq!(packet_cnt, 4);

    for raddr in 1..1023 {
        let packet_cnt = calculate_packet_cnt(Pmtu::Mtu1024, raddr, total_len);
        assert_eq!(packet_cnt, 5);
    }
}

#[test]
fn utils_test_calculate_packet_cnt() {
    let raddr = 0;
    let total_len = 4096;
    let packet_cnt = open_rdma_driver::utils::calculate_packet_cnt(Pmtu::Mtu1024, raddr, total_len);
    assert_eq!(packet_cnt, 4);

    for raddr in 1..1023 {
        let packet_cnt = open_rdma_driver::utils::calculate_packet_cnt(Pmtu::Mtu1024, raddr, total_len);
        assert_eq!(packet_cnt, 5);
    }
}

#[test]
fn test_get_first_packet_max_length() {
    for i in 0..4096 {
        assert_eq!(get_first_packet_max_length(i, 4096), (4096 - i) as u32);
    }
}

#[test]
fn test_u8_slice_to_u64() {
    let input = [0x2, 0x3, 0x4, 0x5];
    assert_eq!(card::utils::u8_slice_to_u64(&input), 0x02030405);
    let input = [0x2, 0x3, 0x4, 0x5, 0x06, 0x07];
    assert_eq!(card::utils::u8_slice_to_u64(&input), 0x020304050607);
    let input = [0x2, 0x3, 0x4, 0x5, 0x06, 0x07, 0x08, 0x09];
    assert_eq!(card::utils::u8_slice_to_u64(&input), 0x0203040506070809);
    let input = [0x2, 0x3, 0x4, 0x5, 0x06, 0x07, 0x08, 0x09, 0x10];
    assert_eq!(card::utils::u8_slice_to_u64(&input), 0x0203040506070809);
}

#[test]
fn align_up_test() {
    let a = align_up::<{ 1024 * 1024 * 2 }>(1024);
    let b = align_up::<{ 1024 * 1024 * 2 }>(1024 * 1024 * 2 + 1);

    assert_eq!(a, 1024 * 1024 * 2);
    assert_eq!(b, 1024 * 1024 * 4);
}

#[test]
fn test_buffer() {
    let mem = vec![0u8; 1024 * RDMA_ACK_BUFFER_SLOT_SIZE];
    let base_va = mem.as_ptr() as usize;
    let mut buffer: PacketBuf<RDMA_ACK_BUFFER_SLOT_SIZE> = PacketBuf::new(base_va, 1024 * 64, Key::new(0x1000));
    for i in 0..2048 {
        let slot = buffer.recycle_buf();
        assert_eq!(slot.addr, mem.as_ptr() as usize + (i % 1024) * RDMA_ACK_BUFFER_SLOT_SIZE);
    }
}

#[test]
fn test_recycle_buffer() {
    // test if the buffer can be recycled
    const RDMA_ACK_BUFFER_SLOT_SIZE: usize = 128;
    let mem = vec![0u8; 1024 * RDMA_ACK_BUFFER_SLOT_SIZE];
    let base_va = mem.as_ptr() as usize;
    let mut buffer: PacketBufAllocator<RDMA_ACK_BUFFER_SLOT_SIZE> =
        PacketBufAllocator::new(base_va, 1024 * RDMA_ACK_BUFFER_SLOT_SIZE, Key::new_unchecked(0x1000));
    for i in 0..2048 {
        let slot = buffer.recycle_buf();
        assert_eq!(slot.addr, mem.as_ptr() as usize + (i % 1024) * RDMA_ACK_BUFFER_SLOT_SIZE);
    }
    assert_eq!(buffer.lkey(), Key::new_unchecked(0x1000));
    assert_eq!(buffer.start_va(), base_va);
}

#[test]
fn division_rounds_up() {
    assert_eq!(div_ceil(0, 7), 0);
    assert_eq!(div_ceil(7, 7), 1);
    assert_eq!(div_ceil(8, 7), 2);
    assert_eq!(div_ceil(u32::MAX, 1), u32::MAX);
}

#[test]
fn a_message_that_fits_its_first_packet_has_one() {
    assert_eq!(calculate_packet_cnt(Pmtu::Mtu256, 255, 1), 1);
    assert_eq!(calculate_packet_cnt(Pmtu::Mtu256, 255, 2), 2);
    assert_eq!(calculate_packet_cnt(Pmtu::Mtu4096, 1, 0), 1);
}

#[test]
fn bytes_make_a_number() {
    assert_eq!(u8_slice_to_u64(&[]), 0);
    assert_eq!(u8_slice_to_u64(&[1, 0]), 256);
    assert_eq!(u8_slice_to_u64(&[0xff; 8]), u64::MAX);
}

#[test]
fn slots_become_elements() {
    let slot: Slot<64> = Slot::from_raw_parts_mut(0x2000, Key::new(7));
    assert_eq!(slot.into_sge(60), Sge { addr: 0x2000, len: 60, key: Key::new(7) });
    let buffer: PacketBuf<64> = PacketBuf::new(0x4000, 640, Key::new(9));
    assert_eq!(buffer.get_register_params(), (0x4000, Key::new(9)));
    let mut allocator: PacketBufAllocator<64> = PacketBufAllocator::new(0x4000, 128, Key::new(9));
    let first = allocator.recycle_buf();
    assert_eq!(first.into_sge(10).phy_addr, 0x4000);
    assert_eq!(allocator.recycle_buf().into_sge(64).len, 64);
    assert_eq!(allocator.recycle_buf().addr, 0x4000);
}

#[test]
fn mapped_memory_is_whole_pages() {
    assert_eq!(MmapMemory::mapping_size(1), MmapMemory::HUGE_PAGE_SIZE);
    assert_eq!(MmapMemory::mapping_size(0x20_0000), 0x20_0000);
    assert_eq!(MmapMemory::mapping_size(0x20_0001), 0x40_0000);
    let mem = MmapMemory::new(0x40_0000, 0x20_0000);
    assert_eq!((mem.as_ptr(), mem.size()), (0x40_0000, 0x20_0000));
    let buffer = Buffer::DmaBuffer(mem);
    assert_eq!(buffer.size(), 0x20_0000);
    assert_eq!(buffer.index(3), 0x40_0000 + 24);
}

#[test]
fn aligned_memory_is_not_too_large() {
    let mem = AlignedMemory::new(0x20_0000, 100).unwrap();
    assert_eq!((mem.as_ptr(), mem.len()), (0x20_0000, 100));
    assert_eq!(Buffer::AlignedMemory(mem).size(), 100);
    let too_large = isize::MAX as usize;
    assert_eq!(AlignedMemory::new(0x20_0000, too_large).err(), Some(Error::ResourceNoAvailable(Resource::Memory)));
}

#[test]
fn bits_read_back_as_written() {
    let mut buf = [0xffu8; 16];
    set_bits(&mut buf, 5, 11, 0b101_0011_0101);
    assert_eq!(get_bits(&buf, 5, 11), 0b101_0011_0101);
    // what stands beside the field is kept
    assert_eq!(get_bits(&buf, 0, 5), 31);
    assert_eq!(get_bits(&buf, 16, 64), u64::MAX);
    set_bits(&mut buf, 32, 64, 0x0123_4567_89ab_cdef);
    assert_eq!(&buf[4..12], &[0xef, 0xcd, 0xab, 0x89, 0x67, 0x45, 0x23, 0x01]);
    // what does not fit is dropped
    set_bits(&mut buf, 0, 3, 9);
    assert_eq!(get_bits(&buf, 0, 3), 1);
    let mut buf = [0u8; 4];
    write_fields(&mut buf, &[Field { lo: 0, width: 4, value: 3 }, Field { lo: 8, width: 16, value: 0x0102 }]);
    assert_eq!(buf, [3, 2, 1, 0]);
}
