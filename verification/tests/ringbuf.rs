//! The rings between the host and the card.

use open_rdma_driver::device::csr::{
    check_csr_addr, emulated_ring_setup, get_phys_addr, pagemap_offset, phys_addr, ring_setup, QueueRegister,
    RingAddrs, CSR_LENGTH,
};
use open_rdma_driver::device::error::DeviceError;
use open_rdma_driver::device::ib_verbs::RDMAGetUContextSyscallReq;
use open_rdma_driver::device::ringbuf::{keep_waiting, Ringbuf, RingbufReader, RingbufWriter, WriterStep};
use open_rdma_driver::types::PAGE_SIZE;

const MAX_DEPTH: usize = 128;
const MAX_VALUE: u32 = 255;

/// The card's side of a ring.
struct Card {
    head: u32,
    tail: u32,
}

impl Card {
    fn consume(&mut self) {
        // move the tail to the head
        self.tail = self.head;
    }

    fn check(&self, max_value: u32) {
        assert!(self.tail <= max_value && self.head <= max_value);
        let diff = (self.head as i32 - self.tail as i32) as u32 & max_value;
        assert!(diff <= max_value);
    }

    fn produce(&mut self, cnt: usize) {
        // move the head to the tail
        let cnt = cnt % (MAX_DEPTH + 1);
        let is_full = ((self.head as i32 - self.tail as i32) as usize) == MAX_DEPTH;
        if !is_full {
            self.head = (self.head + cnt as u32) % (MAX_DEPTH * 2) as u32;
        }
    }
}

/// The slot for the next descriptor. Each question to the card takes a
/// while; where there is no timeout, the card takes what there is meanwhile.
fn write_next(
    writer: &mut RingbufWriter<MAX_DEPTH, 32>,
    card: &mut Card,
    timeout: Option<u128>,
) -> Result<usize, DeviceError> {
    match writer.next() {
        WriterStep::Slot(offset) => Ok(offset),
        WriterStep::Full(head) => {
            card.head = head;
            writer.head_written();
            let mut elapsed = 0;
            loop {
                if let Some(offset) = writer.tail_read(card.tail) {
                    return Ok(offset);
                }
                elapsed += 1;
                keep_waiting(timeout, elapsed)?;
                if timeout.is_none() {
                    card.consume();
                }
            }
        }
    }
}

fn end_write(ringbuf: &mut Ringbuf<MAX_DEPTH, 32, 4096>, mut writer: RingbufWriter<MAX_DEPTH, 32>, card: &mut Card) {
    card.head = writer.flush();
    writer.head_written();
    ringbuf.end_write(writer);
}

#[test]
fn test_ringbuf_writer() {
    let mut card = Card { head: 0, tail: 0 };
    let mut buffer = vec![0u8; PAGE_SIZE];
    let mut ringbuf = Ringbuf::<MAX_DEPTH, 32, 4096>::new(0, PAGE_SIZE);
    let mut writer = ringbuf.write();

    for i in 0..128 {
        let offset = write_next(&mut writer, &mut card, Some(10)).unwrap();
        buffer[offset..offset + 32].fill(i);
    }
    end_write(&mut ringbuf, writer, &mut card);
    assert!(card.head == 128);
    assert!(card.tail == 0);
    for i in 0..128 {
        assert_eq!(buffer[i * 32..(i + 1) * 32], [i as u8; 32]);
    }
    let mut writer = ringbuf.write();
    assert!(write_next(&mut writer, &mut card, Some(10)).is_err());
    assert!(write_next(&mut writer, &mut card, Some(10)).is_err());
    end_write(&mut ringbuf, writer, &mut card);
    card.consume();
    card.check(MAX_VALUE);
    assert!(card.head == 128);
    assert!(card.tail == 128);
    // test if blocking?

    let mut writer = ringbuf.write();
    for i in 0..=256 {
        let offset = write_next(&mut writer, &mut card, None).unwrap();
        buffer[offset..offset + 32].fill(i as u8);
        card.check(MAX_VALUE);
    }
    end_write(&mut ringbuf, writer, &mut card);
    // 128 and 257 more
    assert_eq!(card.head, (128 + 257) % 256);
}

#[test]
fn test_ringbuf_writer_random_write() {
    // test if we write random number of descriptors, will it work correctly
    let mut card = Card { head: 0, tail: 0 };
    let mut ringbuf = Ringbuf::<MAX_DEPTH, 32, 4096>::new(0, PAGE_SIZE);
    let mut written: usize = 0;
    let mut seed: u32 = 10;
    for _ in 0..500 {
        let mut writer = ringbuf.write();
        seed = seed.wrapping_mul(1103515245).wrapping_add(12345);
        let batch_to_write = 3 + (seed >> 16) % 197; // less than 200
        for _ in 0..batch_to_write {
            let offset = write_next(&mut writer, &mut card, None).unwrap();
            assert_eq!(offset, (written % 128) * 32);
            written += 1;
        }
        end_write(&mut ringbuf, writer, &mut card);
        card.check(MAX_VALUE);
        assert_eq!(card.head as usize, written % 256);
    }
}

/// The slot of the next descriptor. The card puts `cnt` more when it is asked.
fn read_next(reader: &mut RingbufReader<MAX_DEPTH, 32>, card: &mut Card, cnt: usize) -> usize {
    if reader.is_full() {
        card.tail = reader.flush();
        reader.tail_written();
    }
    if let Some(offset) = reader.next() {
        return offset;
    }
    loop {
        if let Some(offset) = reader.head_read(card.head) {
            return offset;
        }
        card.tail = reader.flush();
        card.produce(cnt);
    }
}

#[test]
fn test_ringbuf_reader() {
    let mut card = Card { head: 0, tail: 0 };
    let mut ringbuf = Ringbuf::<MAX_DEPTH, 32, 4096>::new(0, PAGE_SIZE);
    card.produce(128);
    card.check(MAX_VALUE);
    let mut reader = ringbuf.read();
    for i in 0..128 {
        let offset = read_next(&mut reader, &mut card, 10);
        assert_eq!(offset, i * 32);
    }
    card.tail = reader.flush();
    reader.tail_written();
    ringbuf.end_read(reader);
    assert!(card.tail == 128);

    let mut reader = ringbuf.read();
    for i in 0..130 {
        let offset = read_next(&mut reader, &mut card, 100);
        assert_eq!(offset, (i % 128) * 32);
    }
    assert_eq!(reader.flush(), 128 + 130 - 256);
}

#[test]
fn test_ringbuf_reader_random() {
    let mut card = Card { head: 0, tail: 0 };
    let mut buffer = vec![0u8; PAGE_SIZE];

    for i in 0..128 {
        for j in 0..32 {
            buffer[i * 32 + j] = i as u8;
        }
    }
    let ringbuf = Ringbuf::<MAX_DEPTH, 32, 4096>::new(0, PAGE_SIZE);
    let mut reader = ringbuf.read();
    let mut seed: u32 = 10;
    for i in 0..4096 {
        seed = seed.wrapping_mul(1103515245).wrapping_add(12345);
        let produce = 1 + (seed >> 16) as usize % 127;
        let offset = read_next(&mut reader, &mut card, produce);
        assert!(buffer[offset] == (i % 128) as u8);
        card.check(MAX_VALUE);
    }
}

struct MockDma {
    head: u32,
    memory: Vec<u8>,
}

impl MockDma {
    fn poll(&mut self, offset: usize) -> bool {
        if self.memory[offset] == 1 {
            self.memory[offset] = 0;
            true
        } else {
            false
        }
    }

    fn move_head(&mut self, n: u32, depth: u32, elem_size: u32) {
        let head = self.head;
        let n = n % (depth + 1);
        for i in 0..n {
            let offset = (((head + i) % depth) * elem_size) as usize;
            self.memory[offset] = 1;
        }
        let next_head = (head + n) % depth;
        self.head = next_head;
    }
}

#[test]
fn test_ringbuf_reader_polling() {
    let mut buffer = vec![0u8; PAGE_SIZE];

    for i in 0..128 {
        for j in 0..32 {
            buffer[i * 32 + j] = i as u8;
        }
        buffer[i * 32] = 0;
    }
    let mut dma = MockDma { head: 0, memory: buffer };

    let mut ringbuf = Ringbuf::<MAX_DEPTH, 32, 4096>::new(0, PAGE_SIZE);
    let mut reader = ringbuf.read_via_poll_descriptor();
    assert!(reader.next(false).is_none());
    dma.move_head(64, MAX_DEPTH.try_into().unwrap(), 32);
    for i in 0..64 {
        let ready = dma.poll(reader.current());
        let offset = reader.next(ready).unwrap();
        let desc = &dma.memory[offset..offset + 32];
        assert_eq!(desc[1], i);
    }
    dma.move_head(128, MAX_DEPTH.try_into().unwrap(), 32);
    for i in 64..192 {
        let ready = dma.poll(reader.current());
        let offset = reader.next(ready).unwrap();
        let desc = &dma.memory[offset..offset + 32];
        assert_eq!(desc[1], i % 128);
    }
    assert!(!dma.poll(reader.current()));
    ringbuf.end_poll(reader);
    assert_eq!((ringbuf.head, ringbuf.tail), (192, 192));
}

#[test]
fn flushing_keeps_the_place_of_the_next_descriptor() {
    let ringbuf = Ringbuf::<8, 32, 4096>::new(0, 4096);
    let mut writer = ringbuf.write();
    assert_eq!(writer.next(), WriterStep::Slot(0));
    assert_eq!(writer.next(), WriterStep::Slot(32));
    assert_eq!(writer.flush(), 2);
    writer.head_written();
    assert_eq!(writer.next(), WriterStep::Slot(64));
    for i in 3..8 {
        assert_eq!(writer.next(), WriterStep::Slot(i * 32));
    }
    assert_eq!(writer.next(), WriterStep::Full(8));
}

#[test]
fn the_card_is_told_where_its_rings_are() {
    let addrs = RingAddrs { cmd_req: 0x1_0000_0002, cmd_resp: 3, send: 0x5_0000_0000, meta_report: u64::MAX };
    let writes: Vec<(QueueRegister, u32)> = ring_setup(addrs).iter().map(|w| (w.register, w.value)).collect();
    assert_eq!(
        writes,
        vec![
            (QueueRegister::CmdReqQueueAddrLow, 2),
            (QueueRegister::CmdReqQueueAddrHigh, 1),
            (QueueRegister::CmdRespQueueAddrLow, 3),
            (QueueRegister::CmdRespQueueAddrHigh, 0),
            (QueueRegister::SendQueueAddrLow, 0),
            (QueueRegister::SendQueueAddrHigh, 5),
            (QueueRegister::MetaReportQueueAddrLow, u32::MAX),
            (QueueRegister::MetaReportQueueAddrHigh, u32::MAX),
        ]
    );
}

#[test]
fn an_emulated_card_sees_the_shared_heap() {
    assert_eq!(get_phys_addr(0x5000, 0x1000), Ok(0x4000));
    assert_eq!(get_phys_addr(0xfff, 0x1000), Err(DeviceError::Device));
    let virt = RingAddrs { cmd_req: 0x2000, cmd_resp: 0x3000, send: 0x800, meta_report: 0x4000 };
    let (writes, outcome) = emulated_ring_setup(virt, 0x1000);
    assert_eq!(outcome, Err(DeviceError::Device));
    assert_eq!(writes.len(), 4);
    assert_eq!((writes[0].value, writes[2].value), (0x1000, 0x2000));
    let (writes, outcome) = emulated_ring_setup(virt, 0x800);
    assert_eq!(outcome, Ok(()));
    assert_eq!(writes.len(), 8);
    assert_eq!(writes[4].value, 0);
}

#[test]
fn registers_and_pages() {
    assert_eq!(check_csr_addr(CSR_LENGTH - 1), Ok(()));
    assert_eq!(check_csr_addr(CSR_LENGTH), Err(DeviceError::Device));
    assert_eq!(pagemap_offset(0x12345), 0x12 * 8);
    assert_eq!(phys_addr(0x12345, (1 << 63) | 0x77), 0x77345);
}

#[test]
fn waiting_ends_with_the_timeout() {
    assert_eq!(keep_waiting(None, u128::MAX), Ok(()));
    assert_eq!(keep_waiting(Some(0), 0), Ok(()));
    assert_eq!(keep_waiting(Some(0), 1), Err(DeviceError::Timeout));
    assert_eq!(keep_waiting(Some(10), 10), Ok(()));
    assert_eq!(keep_waiting(Some(10), 11), Err(DeviceError::Timeout));
}

#[test]
fn the_kernel_is_asked_for_a_context() {
    let req = RDMAGetUContextSyscallReq::new_get_context(0x1000);
    assert_eq!((req.req.length, req.req.method_id, req.req.num_attrs), (40, 3, 1));
    assert_eq!((req.attr.attr_id, req.attr.len, req.attr.flags, req.attr.data), (4097, 72, 1, 0x1000));
}

#[test]
fn a_reader_follows_a_writer() {
    let ringbuf = Ringbuf::<8, 32, 4096>::new(0, 4096);
    let mut writer = ringbuf.write();
    let mut reader = ringbuf.read();
    for i in 0..20_u32 {
        let written = match writer.next() {
            WriterStep::Slot(offset) => offset,
            WriterStep::Full(_) => {
                writer.head_written();
                writer.tail_read(i % 16).unwrap()
            }
        };
        let read = match reader.next() {
            Some(offset) => offset,
            None => reader.head_read((i + 1) % 16).unwrap(),
        };
        assert_eq!(written, read);
        if i % 3 == 0 {
            assert_eq!(writer.flush(), (i + 1) % 16);
            writer.head_written();
        }
        if i % 5 == 0 {
            assert_eq!(reader.flush(), (i + 1) % 16);
            reader.tail_written();
        }
    }
}
