//! The packets and descriptors with which the driver answers its peer.

use vstd::prelude::*;
#[allow(unused_imports)]
use vstd::arithmetic::power2::{lemma2_to64, lemma2_to64_rest};
use crate::bits::{set_bits, write_fields, Field};
#[allow(unused_imports)]
use crate::bits::{
    field, layout_ok, lemma_written_at, lemma_written_both, lemma_written_keeps_byte, lemma_written_over, written,
};
use crate::buf::Slot;
use crate::device::work::{
    ToCardWorkRbDesc, ToCardWorkRbDescBuilder, ToCardWorkRbDescCommon, ToCardWorkRbDescOpcode, ToHostWorkRbDescRead,
};
#[allow(unused_imports)]
use crate::device::work::{DescSge, ToCardWorkRbDescWrite, ToCardWorkRbDescWriteWithImm};
use crate::endian::swap16;
#[allow(unused_imports)]
use crate::endian::{swap16_spec, swap24_spec};
use crate::qp::{QpContext, QpTable};
use crate::types::{
    Error, Imm, Ipv4Addr, Key, MacAddress, Msn, Psn, QpType, Qpn, Sge, Subject, WorkReqSendFlag,
};
#[allow(unused_imports)]
use crate::types::{add24, ThreeBytesStruct};
use crate::utils::calculate_packet_cnt;
#[allow(unused_imports)]
use crate::utils::packet_cnt;

verus! {

const ICRC_SIZE: usize = 4;

/// The length of an acknowledgement: the headers of the Ethernet (14), IP (20),
/// UDP (8) and transport (12) layers, those of the acknowledgement (4) and the
/// retry (4), and the check value (4).
pub const ACKPACKET_SIZE: usize = 66;

/// The size of the slots that acknowledgements are written to.
pub const ACK_SLOT_SIZE: usize = 128;

/// The six bytes of a MAC address as a number whose lowest byte is sent first.
pub open spec fn mac_value(mac: MacAddress) -> u64 {
    let o = mac.octets@;
    (o[0] + o[1] * 0x100 + o[2] * 0x1_0000 + o[3] * 0x100_0000 + o[4] * 0x1_0000_0000 + o[5] * 0x100_0000_0000) as u64
}

/// The four bytes of an IP address as a number whose lowest byte is sent first.
pub open spec fn ip_value(ip: Ipv4Addr) -> u64 {
    let o = ip.octets@;
    (o[0] + o[1] * 0x100 + o[2] * 0x1_0000 + o[3] * 0x100_0000) as u64
}

/// Covert the MAC address to a u64 in big endian
fn mac_to_be64(mac: MacAddress) -> (r: u64)
    ensures
        r == mac_value(mac),
{
    let o: [u8; 6] = mac.octets;
    o[0] as u64 + o[1] as u64 * 0x100 + o[2] as u64 * 0x1_0000 + o[3] as u64 * 0x100_0000 + o[4] as u64
        * 0x1_0000_0000 + o[5] as u64 * 0x100_0000_0000
}

fn ip_to_be32(ip: Ipv4Addr) -> (r: u64)
    ensures
        r == ip_value(ip),
{
    let o: [u8; 4] = ip.octets;
    o[0] as u64 + o[1] as u64 * 0x100 + o[2] as u64 * 0x1_0000 + o[3] as u64 * 0x100_0000
}

/// The sum of the first `n` big endian 16 bit words of `h`.
pub open spec fn words_sum(h: Seq<u8>, n: nat) -> nat
    decreases n,
{
    if n == 0 {
        0
    } else {
        words_sum(h, (n - 1) as nat) + (h[2 * n - 2] * 256 + h[2 * n - 1]) as nat
    }
}

/// A sum in which what leaves 16 bits at the top comes back at the bottom.
pub open spec fn end_around(sum: nat) -> nat {
    if sum == 0 {
        0
    } else {
        1 + (sum - 1) as nat % 0xffff
    }
}

/// The checksum over the bytes of an IPv4 header: the complement of the sum of
/// its words.
pub open spec fn ipv4_checksum(h: Seq<u8>) -> u16 {
    (0xffff - end_around(words_sum(h, 10))) as u16
}

/// The header with zeros in place of its checksum.
pub open spec fn without_checksum(h: Seq<u8>) -> Seq<u8> {
    h.update(10, 0).update(11, 0)
}

proof fn lemma_words_sum_bound(h: Seq<u8>, n: nat)
    ensures
        words_sum(h, n) <= n * 0xffff,
    decreases n,
{
    if n > 0 {
        lemma_words_sum_bound(h, (n - 1) as nat);
    }
}

/// Calculate the checksum of the IPv4 header
///
/// The `header` should be a valid IPv4 header, and the checksum field is set to 0.
/// It is a standard header of 20 bytes.
pub fn calculate_ipv4_checksum(header: &[u8]) -> (r: u16)
    requires
        header@.len() == 20,
    ensures
        r == ipv4_checksum(header@),
{
    let mut sum: u32 = 0;
    let mut i: usize = 0;
    while i < 10
        invariant
            i <= 10,
            header@.len() == 20,
            sum == words_sum(header@, i as nat),
            sum <= i * 0xffff,
        decreases 10 - i,
    {
        let word: u32 = header[2 * i] as u32 * 256 + header[2 * i + 1] as u32;
        sum = sum + word;
        i = i + 1;
    }
    let ghost total = sum as nat;
    while sum / 0x1_0000 != 0
        invariant
            end_around(sum as nat) == end_around(total),
        decreases sum,
    {
        sum = sum % 0x1_0000 + sum / 0x1_0000;
    }
    0xffff - sum as u16
}

/// The sum over a header that holds its checksum is all ones in 16 bits, up to
/// a carry around, and its checksum is zero: what a receiver tests.
pub proof fn law_checksum_verifies(h: Seq<u8>, c: Seq<u8>)
    requires
        h.len() == 20,
        h[10] == 0 && h[11] == 0,
        c == h.update(10, (ipv4_checksum(h) / 0x100) as u8).update(11, (ipv4_checksum(h) % 0x100) as u8),
    ensures
        words_sum(c, 10) % 0xffff == 0,
        ipv4_checksum(c) == 0,
{
    reveal_with_fuel(words_sum, 11);
    let s = words_sum(h, 10);
    lemma_words_sum_bound(h, 10);
    assert(words_sum(c, 10) == s + ipv4_checksum(h));
}

/// The layout of the Ethernet header.
pub open spec fn mac_layout(src: MacAddress, dst: MacAddress) -> Seq<Field> {
    seq![
        (Field { lo: 0, width: 48, value: mac_value(dst) }),
        (Field { lo: 48, width: 48, value: mac_value(src) }),
        (Field { lo: 96, width: 16, value: 8 }),
    ]
}

/// The layout of the IP header: version 4 with five words, 52 bytes from here
/// on, at most 64 hops, UDP.
pub open spec fn ip_layout(src: Ipv4Addr, dst: Ipv4Addr, checksum: u16) -> Seq<Field> {
    seq![
        (Field { lo: 112, width: 8, value: 0x45 }),
        (Field { lo: 120, width: 8, value: 0 }),
        (Field { lo: 128, width: 16, value: 0x3400 }),
        (Field { lo: 144, width: 16, value: 0x27 }),
        (Field { lo: 160, width: 16, value: 0 }),
        (Field { lo: 176, width: 8, value: 64 }),
        (Field { lo: 184, width: 8, value: 17 }),
        (Field { lo: 192, width: 16, value: swap16_spec(checksum) as u64 }),
        (Field { lo: 208, width: 32, value: ip_value(src) }),
        (Field { lo: 240, width: 32, value: ip_value(dst) }),
    ]
}

/// The layout of the UDP header (both ports are 4791, the length is 32, there
/// is no checksum) and of the transport header of an acknowledgement.
pub open spec fn transport_layout(dqpn: Qpn, psn: Psn) -> Seq<Field> {
    seq![
        (Field { lo: 272, width: 16, value: 0xb712 }),
        (Field { lo: 288, width: 16, value: 0xb712 }),
        (Field { lo: 304, width: 16, value: 0x2000 }),
        (Field { lo: 320, width: 16, value: 0 }),
        (Field { lo: 336, width: 8, value: 0x11 }),
        (Field { lo: 346, width: 2, value: 0 }),
        (Field { lo: 352, width: 16, value: 0 }),
        (Field { lo: 368, width: 8, value: 0 }),
        (Field { lo: 376, width: 24, value: swap24_spec(dqpn@) as u64 }),
        (Field { lo: 408, width: 24, value: swap24_spec(psn@) as u64 }),
    ]
}

/// The layout of the acknowledgement and retry headers: code 0 acknowledges,
/// code 3 asks for the packets up to `expected_psn` again.
pub open spec fn ack_header_layout(msn: Msn, expected_psn: Option<Psn>) -> Seq<Field> {
    seq![
        (Field { lo: 433, width: 2, value: if expected_psn is Some { 3 } else { 0 } }),
        (Field { lo: 435, width: 5, value: 0 }),
        (Field { lo: 448, width: 16, value: swap16_spec(msn@) as u64 }),
        (Field {
            lo: 464,
            width: 24,
            value: if expected_psn is Some { swap24_spec(expected_psn->0@) as u64 } else { 0 },
        }),
    ]
}

/// Who talks to whom, and of what
pub struct AckParams {
    pub src: (MacAddress, Ipv4Addr),
    pub dst: (MacAddress, Ipv4Addr),
    pub dqpn: Qpn,
    pub msn: Msn,
    pub psn: Psn,
    pub expected_psn: Option<Psn>,
}

/// The layout of an acknowledgement without its check value.
pub open spec fn ack_layout(p: AckParams, checksum: u16) -> Seq<Field> {
    mac_layout(p.src.0, p.dst.0) + (ip_layout(p.src.1, p.dst.1, checksum) + (transport_layout(p.dqpn, p.psn)
        + ack_header_layout(p.msn, p.expected_psn)))
}

/// The bytes over which the check value is taken: eight bytes of ones, and the
/// packet from its IP header to before the check value, with ones in place of
/// what changes on the way (service type, hop count, checksums, congestion
/// marks).
pub open spec fn icrc_bytes(data: Seq<u8>) -> Seq<u8> {
    Seq::new(
        (data.len() + 4) as nat,
        |i: int|
            if i < 8 || i == 9 || i == 16 || i == 18 || i == 19 || i == 34 || i == 35 || i == 40 {
                0xffu8
            } else {
                data[i - 8]
            },
    )
}

/// Whether byte `i` of a packet may change on its way: the type of service, the
/// time to live and the checksum of the IP header, the checksum of the UDP
/// header and the reserved byte of the BTH header.
pub open spec fn changes_on_the_way(i: int) -> bool {
    i == 1 || i == 8 || i == 10 || i == 11 || i == 26 || i == 27 || i == 32
}

/// The bytes over which the check value is taken do not depend on those that may
/// change on the way, nor on the check value itself.
pub proof fn law_icrc_stays_on_the_way(sent: Seq<u8>, received: Seq<u8>)
    requires
        sent.len() >= 44,
        received.len() == sent.len(),
        forall|i: int|
            0 <= i < sent.len() - 4 && !changes_on_the_way(i) ==> #[trigger] sent[i] == received[i],
    ensures
        icrc_bytes(sent) == icrc_bytes(received),
{
    assert(icrc_bytes(sent) =~= icrc_bytes(received));
}

/// The CRC-32 of the bytes `data`, as the `crc32fast` crate computes it.
pub uninterp spec fn crc32_of(data: Seq<u8>) -> u32;

/// `crc32fast::hash`. Its result is the value named `crc32_of` of the bytes;
/// nothing else is claimed of it.
#[verifier::external_body]
fn crc32(data: &[u8]) -> (r: u32)
    ensures
        r == crc32_of(data@),
{
    crc32fast::hash(data)
}

/// Puts together the bytes over which the check value is taken.
pub fn icrc_input(data: &[u8]) -> (r: Vec<u8>)
    requires
        data@.len() >= 44,
    ensures
        r@ == icrc_bytes(data@),
{
    let mut r: Vec<u8> = Vec::new();
    let mut i: usize = 0;
    while i < 8
        invariant
            i <= 8,
            r@.len() == i,
            forall|k: int| 0 <= k < i ==> #[trigger] r@[k] == 0xff,
        decreases 8 - i,
    {
        r.push(0xff);
        i = i + 1;
    }
    let mut n: usize = 0;
    while n < data.len() - ICRC_SIZE
        invariant
            data@.len() >= 44,
            n <= data@.len() - 4,
            r@.len() == n + 8,
            forall|k: int| 0 <= k < n + 8 ==> #[trigger] r@[k] == icrc_bytes(data@)[k],
        decreases data@.len() - 4 - n,
    {
        let byte: u8 = if n == 1 || n == 8 || n == 10 || n == 11 || n == 26 || n == 27 || n == 32 {
            0xff
        } else {
            data[n]
        };
        r.push(byte);
        n = n + 1;
    }
    assert(r@ =~= icrc_bytes(data@));
    r
}

/// Calculate the RDMA packet ICRC.
///
/// the `data` passing in should include the space for the ICRC(4 bytes): it
/// holds at least an IP header, a UDP header, a BTH header and the ICRC.
pub fn calculate_icrc(data: &[u8]) -> (r: u32)
    requires
        data@.len() >= 44,
    ensures
        r == crc32_of(icrc_bytes(data@)),
{
    let input: Vec<u8> = icrc_input(data);
    crc32(input.as_slice())
}

/// Writes the headers of an acknowledgement; the checksum is left zero.
fn write_headers(
    buf: &mut [u8],
    src: (MacAddress, Ipv4Addr),
    dst: (MacAddress, Ipv4Addr),
    dqpn: Qpn,
    msn: Msn,
    psn: Psn,
    expected_psn: Option<Psn>,
)
    requires
        old(buf)@.len() >= ACKPACKET_SIZE,
    ensures
        written(
            old(buf)@,
            final(buf)@,
            ack_layout((AckParams { src, dst, dqpn, msn, psn, expected_psn }), 0),
        ),
{
    proof {
        reveal(swap16_spec);
    }
    let ghost b0 = buf@;
    let mac: [Field; 3] = [
        Field { lo: 0, width: 48, value: mac_to_be64(dst.0) },
        Field { lo: 48, width: 48, value: mac_to_be64(src.0) },
        Field { lo: 96, width: 16, value: 8 },
    ];
    assert(mac@ =~= mac_layout(src.0, dst.0));
    write_fields(buf, mac.as_slice());
    let ghost b1 = buf@;
    let ip: [Field; 10] = [
        Field { lo: 112, width: 8, value: 0x45 },
        Field { lo: 120, width: 8, value: 0 },
        Field { lo: 128, width: 16, value: 0x3400 },
        Field { lo: 144, width: 16, value: 0x27 },
        Field { lo: 160, width: 16, value: 0 },
        Field { lo: 176, width: 8, value: 64 },
        Field { lo: 184, width: 8, value: 17 },
        Field { lo: 192, width: 16, value: 0 },
        Field { lo: 208, width: 32, value: ip_to_be32(src.1) },
        Field { lo: 240, width: 32, value: ip_to_be32(dst.1) },
    ];
    assert(ip@ =~= ip_layout(src.1, dst.1, 0));
    write_fields(buf, ip.as_slice());
    let ghost b2 = buf@;
    let transport: [Field; 10] = [
        Field { lo: 272, width: 16, value: 0xb712 },
        Field { lo: 288, width: 16, value: 0xb712 },
        Field { lo: 304, width: 16, value: 0x2000 },
        Field { lo: 320, width: 16, value: 0 },
        Field { lo: 336, width: 8, value: 0x11 },
        Field { lo: 346, width: 2, value: 0 },
        Field { lo: 352, width: 16, value: 0 },
        Field { lo: 368, width: 8, value: 0 },
        Field { lo: 376, width: 24, value: dqpn.into_be() as u64 },
        Field { lo: 408, width: 24, value: psn.into_be() as u64 },
    ];
    assert(transport@ =~= transport_layout(dqpn, psn));
    write_fields(buf, transport.as_slice());
    let ghost b3 = buf@;
    let (code, last): (u64, u64) = match expected_psn {
        Some(psn) => (3, psn.into_be() as u64),
        None => (0, 0),
    };
    let ack: [Field; 4] = [
        Field { lo: 433, width: 2, value: code },
        Field { lo: 435, width: 5, value: 0 },
        Field { lo: 448, width: 16, value: msn.into_be() as u64 },
        Field { lo: 464, width: 24, value: last },
    ];
    assert(ack@ =~= ack_header_layout(msn, expected_psn));
    write_fields(buf, ack.as_slice());
    proof {
        let tail = transport@ + ack@;
        lemma_written_both(b2, b3, buf@, transport@, ack@, 432);
        let ip_tail = ip@ + tail;
        assert forall|j: int| #![trigger tail[j]] 0 <= j < tail.len() implies 272 <= tail[j].lo by {
            if j < 10 {
                assert(tail[j] == transport@[j]);
            } else {
                assert(tail[j] == ack@[j - 10]);
            }
        }
        lemma_written_both(b1, b2, buf@, ip@, tail, 272);
        assert forall|j: int| #![trigger ip_tail[j]] 0 <= j < ip_tail.len() implies 112 <= ip_tail[j].lo by {
            if j < 10 {
                assert(ip_tail[j] == ip@[j]);
            } else {
                assert(ip_tail[j] == tail[j - 10]);
            }
        }
        lemma_written_both(b0, b1, buf@, mac@, ip_tail, 112);
    }
}

/// The fields of an acknowledgement share no bit and end before the check
/// value.
proof fn lemma_ack_layout_ok(p: AckParams, checksum: u16)
    ensures
        layout_ok(ack_layout(p, checksum), ACKPACKET_SIZE as nat),
        ack_layout(p, checksum)[10] == (Field { lo: 192, width: 16, value: swap16_spec(checksum) as u64 }),
        ack_layout(p, checksum) == ack_layout(p, 0).update(
            10,
            Field { lo: 192, width: 16, value: swap16_spec(checksum) as u64 },
        ),
        forall|j: int|
            #![trigger ack_layout(p, checksum)[j]]
            0 <= j < 27 ==> ack_layout(p, checksum)[j].lo + ack_layout(p, checksum)[j].width <= 496,
        ack_layout(p, checksum).len() == 27,
{
    let a = mac_layout(p.src.0, p.dst.0);
    let b = ip_layout(p.src.1, p.dst.1, checksum);
    let c = transport_layout(p.dqpn, p.psn);
    let d = ack_header_layout(p.msn, p.expected_psn);
    let fs = ack_layout(p, checksum);
    assert forall|j: int| #![trigger fs[j]] 0 <= j < 27 implies fs[j].width <= 64 && fs[j].lo + fs[j].width <= 496 && (if j < 3 {
        fs[j] == a[j] && fs[j].lo + fs[j].width <= 112
    } else if j < 13 {
        fs[j] == b[j - 3] && 112 <= fs[j].lo && fs[j].lo + fs[j].width <= 272
    } else if j < 23 {
        fs[j] == c[j - 13] && 272 <= fs[j].lo && fs[j].lo + fs[j].width <= 432
    } else {
        fs[j] == d[j - 23] && 432 <= fs[j].lo
    }) by {
        if j < 3 {
            assert(fs[j] == a[j]);
        } else if j < 13 {
            assert(fs[j] == b[j - 3]);
        } else if j < 23 {
            assert(fs[j] == c[j - 13]);
        } else {
            assert(fs[j] == d[j - 23]);
        }
    }
    assert forall|j: int, k: int| #![trigger fs[j], fs[k]] 0 <= j < k < fs.len() implies fs[j].lo + fs[j].width <= fs[k].lo
        || fs[k].lo + fs[k].width <= fs[j].lo by {
        if j < 3 && k < 3 {
            assert(a[j].lo + a[j].width <= a[k].lo);
        } else if 3 <= j && k < 13 {
            assert(b[j - 3].lo + b[j - 3].width <= b[k - 3].lo);
        } else if 13 <= j && k < 23 {
            assert(c[j - 13].lo + c[j - 13].width <= c[k - 13].lo);
        } else if 23 <= j {
            assert(d[j - 23].lo + d[j - 23].width <= d[k - 23].lo);
        }
    }
    let gs = ack_layout(p, 0).update(10, Field { lo: 192, width: 16, value: swap16_spec(checksum) as u64 });
    let b0 = ip_layout(p.src.1, p.dst.1, 0);
    assert forall|j: int| 0 <= j < 27 implies fs[j] == gs[j] by {
        if j < 3 {
            assert(gs[j] == a[j]);
        } else if j < 13 {
            if j != 10 {
                assert(gs[j] == b0[j - 3]);
                assert(b0[j - 3] == b[j - 3]);
            }
        } else if j < 23 {
            assert(gs[j] == c[j - 13]);
        } else {
            assert(gs[j] == d[j - 23]);
        }
    }
    assert(fs =~= gs);
}

/// Writes an acknowledgement without its check value. The checksum is that over
/// the IP header in which it stands.
pub fn write_packet_headers(
    buf: &mut [u8],
    src: (MacAddress, Ipv4Addr),
    dst: (MacAddress, Ipv4Addr),
    dqpn: Qpn,
    msn: Msn,
    psn: Psn,
    expected_psn: Option<Psn>,
)
    requires
        old(buf)@.len() >= ACKPACKET_SIZE,
    ensures
        written(
            old(buf)@,
            final(buf)@,
            ack_layout(
                (AckParams { src, dst, dqpn, msn, psn, expected_psn }),
                ipv4_checksum(without_checksum(final(buf)@.subrange(14, 34))),
            ),
        ),
{
    let ghost p = AckParams { src, dst, dqpn, msn, psn, expected_psn };
    let ghost b0 = buf@;
    write_headers(buf, src, dst, dqpn, msn, psn, expected_psn);
    let ghost b1 = buf@;
    let checksum: u16 = calculate_ipv4_checksum(&buf[14..34]);
    let value: u64 = swap16(checksum) as u64;
    set_bits(buf, 192, 16, value);
    proof {
        let f = Field { lo: 192, width: 16, value };
        lemma_ack_layout_ok(p, checksum);
        lemma_ack_layout_ok(p, 0);
        let fs = ack_layout(p, 0);
        assert(layout_ok(fs, b0.len()));
        lemma_written_over(b0, b1, buf@, fs, 10, f);
        let h = b1.subrange(14, 34);
        let g = buf@.subrange(14, 34);
        assert forall|n: int| 0 <= n < 20 && n != 10 && n != 11 implies g[n] == h[n] by {
            lemma_written_keeps_byte(b1, buf@, seq![f], n + 14);
        }
        lemma_checksum_bytes_zero(b0, b1, p);
        assert(without_checksum(g) =~= h);
    }
}

/// The checksum's two bytes are zero as long as the checksum is.
proof fn lemma_checksum_bytes_zero(b0: Seq<u8>, b1: Seq<u8>, p: AckParams)
    requires
        b0.len() >= ACKPACKET_SIZE,
        written(b0, b1, ack_layout(p, 0)),
    ensures
        b1[24] == 0,
        b1[25] == 0,
{
    lemma_ack_layout_ok(p, 0);
    reveal(swap16_spec);
    let fs = ack_layout(p, 0);
    let f = fs[10];
    assert(f.value == 0);
    assert forall|i: int| 192 <= i < 208 implies !#[trigger] crate::bits::bit(b1, i) by {
        assert(crate::bits::covers(fs[10], i));
        crate::bits::lemma_bit_of_zero((i - 192) as nat);
    }
    crate::bits::lemma_zero_byte(b1, 24);
    crate::bits::lemma_zero_byte(b1, 25);
}

/// Puts the check value at the end of an acknowledgement.
pub fn write_icrc(buf: &mut [u8], icrc: u32)
    requires
        old(buf)@.len() >= ACKPACKET_SIZE,
    ensures
        written(old(buf)@, final(buf)@, seq![(Field { lo: 496, width: 32, value: icrc as u64 })]),
{
    set_bits(buf, 496, 32, icrc as u64);
}

/// Writes an acknowledgement to the start of `buf`: its headers, and the check
/// value over them.
pub fn write_packet(
    buf: &mut [u8],
    src: (MacAddress, Ipv4Addr),
    dst: (MacAddress, Ipv4Addr),
    dqpn: Qpn,
    msn: Msn,
    psn: Psn,
    expected_psn: Option<Psn>,
)
    requires
        old(buf)@.len() >= ACKPACKET_SIZE,
    ensures
        ack_written(
            old(buf)@,
            final(buf)@,
            (AckParams { src, dst, dqpn, msn, psn, expected_psn }),
        ),
{
    let ghost p = AckParams { src, dst, dqpn, msn, psn, expected_psn };
    let ghost b0 = buf@;
    write_packet_headers(buf, src, dst, dqpn, msn, psn, expected_psn);
    let ghost b1 = buf@;
    let icrc: u32 = calculate_icrc(&buf[14..66]);
    write_icrc(buf, icrc);
    proof {
        let f = Field { lo: 496, width: 32, value: icrc as u64 };
        let c = ipv4_checksum(without_checksum(b1.subrange(14, 34)));
        lemma_ack_layout_ok(p, c);
        let fs = ack_layout(p, c);
        lemma_written_both(b0, b1, buf@, fs, seq![f], 496);
        assert forall|n: int| 0 <= n < 62 implies buf@[n] == b1[n] by {
            lemma_written_keeps_byte(b1, buf@, seq![f], n);
        }
        assert(buf@.subrange(14, 34) =~= b1.subrange(14, 34));
        assert(icrc_bytes(buf@.subrange(14, 66)) =~= icrc_bytes(b1.subrange(14, 66)));
    }
}

/// `after` is `before` with the acknowledgement `p` written to its start.
pub open spec fn ack_written(before: Seq<u8>, after: Seq<u8>, p: AckParams) -> bool {
    let checksum = ipv4_checksum(without_checksum(after.subrange(14, 34)));
    let icrc = crc32_of(icrc_bytes(after.subrange(14, 66)));
    written(before, after, ack_layout(p, checksum) + seq![(Field { lo: 496, width: 32, value: icrc as u64 })])
}

/// The descriptor that sends an acknowledgement from the slot at `addr`.
pub open spec fn ack_desc(qp: QpContext, qpn: Qpn, msn: Msn, addr: u64, key: Key) -> ToCardWorkRbDesc {
    ToCardWorkRbDesc::WriteWithImm(
        ToCardWorkRbDescWriteWithImm {
            common: ToCardWorkRbDescCommon {
                total_len: 66,
                raddr: 0,
                rkey: Key::of(0),
                dqp_ip: qp.dqp_ip,
                dqpn: qpn,
                mac_addr: qp.dqp_mac_addr,
                pmtu: qp.pmtu,
                flags: WorkReqSendFlag::of(0),
                qp_type: QpType::RawPacket,
                psn: ThreeBytesStruct::of(0),
                msn,
            },
            is_last: true,
            is_first: true,
            imm: 0,
            sge0: DescSge { addr, len: 66, key },
            sge1: None,
            sge2: None,
            sge3: None,
        },
    )
}

fn make_ack_or_nack<const SLOT_SIZE: usize>(
    mem: &mut [u8],
    ack_buf: Slot<SLOT_SIZE>,
    qp_table: &QpTable,
    qpn: Qpn,
    msn: Msn,
    psn: Psn,
    expected_psn: Option<Psn>,
) -> (r: Result<Box<ToCardWorkRbDesc>, Error>)
    requires
        SLOT_SIZE >= ACKPACKET_SIZE,
        old(mem)@.len() == SLOT_SIZE,
    ensures
        !qp_table@.contains_key(qpn@) ==> r == Err::<Box<ToCardWorkRbDesc>, Error>(Error::Invalid(Subject::Qp(qpn)))
            && final(mem)@ == old(mem)@,
        qp_table@.contains_key(qpn@) ==> {
            let qp = qp_table@[qpn@];
            &&& r is Ok
            &&& *r->Ok_0 == ack_desc(qp, qpn, msn, ack_buf.addr as u64, ack_buf.key)
            &&& ack_written(
                old(mem)@,
                final(mem)@,
                AckParams {
                    src: (qp.local_mac, qp.local_ip),
                    dst: (qp.dqp_mac_addr, qp.dqp_ip),
                    dqpn: qpn,
                    msn,
                    psn,
                    expected_psn,
                },
            )
        },
{
    let qp: QpContext = match qp_table.get(qpn) {
        Some(qp) => qp,
        None => return Err(Error::Invalid(Subject::Qp(qpn))),
    };
    let common = ToCardWorkRbDescCommon {
        total_len: 66,
        rkey: Key::default(),
        raddr: 0,
        dqp_ip: qp.dqp_ip,
        dqpn: qpn,
        mac_addr: qp.dqp_mac_addr,
        pmtu: qp.pmtu,
        flags: WorkReqSendFlag::empty(),
        qp_type: QpType::RawPacket,
        psn: Psn::default(),
        msn,
    };
    write_packet(
        mem,
        (qp.local_mac, qp.local_ip),
        (qp.dqp_mac_addr, qp.dqp_ip),
        qpn,
        msn,
        psn,
        expected_psn,
    );
    let sge: Sge = ack_buf.into_sge(66);
    ToCardWorkRbDescBuilder::new(ToCardWorkRbDescOpcode::WriteWithImm).with_common(common).with_sge(sge).with_imm(
        Imm::default(),
    ).build()
}

/// make an ack packet in the buffer, and return a work descriptor
///
/// The slot can be allocated by `PacketBuf::recycle_buf`; `mem` is its memory.
///
/// # Errors
/// There is no queue pair with the number.
pub fn make_ack<const SLOT_SIZE: usize>(
    mem: &mut [u8],
    ack_buf: Slot<SLOT_SIZE>,
    qp_table: &QpTable,
    qpn: Qpn,
    msn: Msn,
    psn: Psn,
) -> (r: Result<Box<ToCardWorkRbDesc>, Error>)
    requires
        SLOT_SIZE >= ACKPACKET_SIZE,
        old(mem)@.len() == SLOT_SIZE,
    ensures
        !qp_table@.contains_key(qpn@) ==> r == Err::<Box<ToCardWorkRbDesc>, Error>(Error::Invalid(Subject::Qp(qpn)))
            && final(mem)@ == old(mem)@,
        qp_table@.contains_key(qpn@) ==> {
            let qp = qp_table@[qpn@];
            &&& r is Ok
            &&& *r->Ok_0 == ack_desc(qp, qpn, msn, ack_buf.addr as u64, ack_buf.key)
            &&& ack_written(
                old(mem)@,
                final(mem)@,
                AckParams {
                    src: (qp.local_mac, qp.local_ip),
                    dst: (qp.dqp_mac_addr, qp.dqp_ip),
                    dqpn: qpn,
                    msn,
                    psn,
                    expected_psn: None,
                },
            )
        },
{
    make_ack_or_nack(mem, ack_buf, qp_table, qpn, msn, psn, None)
}

/// make a nack packet in the buffer, and return a work descriptor
///
/// The slot can be allocated by `PacketBuf::recycle_buf`; `mem` is its memory.
///
/// # Errors
/// There is no queue pair with the number.
pub fn make_nack<const SLOT_SIZE: usize>(
    mem: &mut [u8],
    ack_buf: Slot<SLOT_SIZE>,
    qp_table: &QpTable,
    qpn: Qpn,
    msn: Msn,
    start_psn: Psn,
    end_psn: Psn,
) -> (r: Result<Box<ToCardWorkRbDesc>, Error>)
    requires
        SLOT_SIZE >= ACKPACKET_SIZE,
        old(mem)@.len() == SLOT_SIZE,
    ensures
        !qp_table@.contains_key(qpn@) ==> r == Err::<Box<ToCardWorkRbDesc>, Error>(Error::Invalid(Subject::Qp(qpn)))
            && final(mem)@ == old(mem)@,
        qp_table@.contains_key(qpn@) ==> {
            let qp = qp_table@[qpn@];
            &&& r is Ok
            &&& *r->Ok_0 == ack_desc(qp, qpn, msn, ack_buf.addr as u64, ack_buf.key)
            &&& ack_written(
                old(mem)@,
                final(mem)@,
                AckParams {
                    src: (qp.local_mac, qp.local_ip),
                    dst: (qp.dqp_mac_addr, qp.dqp_ip),
                    dqpn: qpn,
                    msn,
                    psn: start_psn,
                    expected_psn: Some(end_psn),
                },
            )
        },
{
    make_ack_or_nack(mem, ack_buf, qp_table, qpn, msn, start_psn, Some(end_psn))
}

/// The descriptor that answers a read request with the packets from `psn` on.
pub open spec fn read_resp_desc(qp: QpContext, req: ToHostWorkRbDescRead) -> ToCardWorkRbDesc {
    ToCardWorkRbDesc::ReadResp(
        ToCardWorkRbDescWrite {
            common: ToCardWorkRbDescCommon {
                total_len: req.len,
                raddr: req.raddr,
                rkey: req.rkey,
                dqp_ip: qp.dqp_ip,
                dqpn: req.common.dqpn,
                mac_addr: qp.dqp_mac_addr,
                pmtu: qp.pmtu,
                flags: WorkReqSendFlag::of(0),
                qp_type: qp.qp_type,
                psn: qp.sending_psn,
                msn: req.common.msn,
            },
            is_last: true,
            is_first: true,
            sge0: DescSge { addr: req.laddr, len: req.len, key: req.lkey },
            sge1: None,
            sge2: None,
            sge3: None,
        },
    )
}

/// The queue pair after the packets of an answer were numbered.
pub open spec fn after_read_resp(qp: QpContext, req: ToHostWorkRbDescRead) -> QpContext {
    QpContext {
        sending_psn: ThreeBytesStruct::of(
            add24(
                qp.sending_psn@ as int,
                packet_cnt(qp.pmtu.size_spec() as int, req.raddr as int, req.len as int),
            ),
        ),
        ..qp
    }
}

/// make a read response work descriptor
///
/// read_req is a reference to the read request descriptor. The numbers of the
/// packets that the answer takes are used up.
///
/// # Errors
/// There is no queue pair with the number.
pub fn make_read_resp(qp_table: &mut QpTable, read_req: &ToHostWorkRbDescRead) -> (r: Result<
    Box<ToCardWorkRbDesc>,
    Error,
>)
    ensures
        ({
            let qpn = read_req.common.dqpn@;
            let table = old(qp_table)@;
            if table.contains_key(qpn) {
                &&& r is Ok
                &&& *r->Ok_0 == read_resp_desc(table[qpn], *read_req)
                &&& final(qp_table)@ == table.insert(qpn, after_read_resp(table[qpn], *read_req))
            } else {
                &&& r == Err::<Box<ToCardWorkRbDesc>, Error>(Error::Invalid(Subject::Qp(read_req.common.dqpn)))
                &&& final(qp_table)@ == table
            }
        }),
{
    let dqpn: Qpn = read_req.common.dqpn;
    let mut qp: QpContext = match qp_table.get(dqpn) {
        Some(qp) => qp,
        None => return Err(Error::Invalid(Subject::Qp(dqpn))),
    };
    let count: u32 = calculate_packet_cnt(qp.pmtu, read_req.raddr, read_req.len);
    let psn: Psn = qp.take_psns(count);
    proof {
        ThreeBytesStruct::lemma_of(qp.sending_psn@);
        ThreeBytesStruct::lemma_view_injective(qp.sending_psn, ThreeBytesStruct::of(qp.sending_psn@));
    }
    let common = ToCardWorkRbDescCommon {
        total_len: read_req.len,
        rkey: read_req.rkey,
        raddr: read_req.raddr,
        dqp_ip: qp.dqp_ip,
        dqpn,
        mac_addr: qp.dqp_mac_addr,
        pmtu: qp.pmtu,
        flags: WorkReqSendFlag::empty(),
        qp_type: qp.qp_type,
        psn,
        msn: read_req.common.msn,
    };
    let _ = qp_table.insert(dqpn, qp);
    let sge = Sge { addr: read_req.laddr, len: read_req.len, key: read_req.lkey };
    ToCardWorkRbDescBuilder::new(ToCardWorkRbDescOpcode::ReadResp).with_common(common).with_sge(sge).build()
}

/// What an acknowledgement says, byte by byte as it goes over the wire: the MAC
/// addresses (to, from), IP version 4, the length, UDP, the IP addresses (from,
/// to), the ports and the UDP length; the opcode, the queue pair and the packet
/// number; the code, the message number and the last packet that is asked for
/// again. Numbers of several bytes have their highest byte first.
pub proof fn law_acknowledgement_on_the_wire(before: Seq<u8>, after: Seq<u8>, p: AckParams)
    requires
        ack_written(before, after, p),
    ensures
        ({
            let to = p.dst.0.octets@;
            let from = p.src.0.octets@;
            let src = p.src.1.octets@;
            let dst = p.dst.1.octets@;
            let swapped = |v: int| (v % 0x100) * 0x1_0000 + (v / 0x100) % 0x100 * 0x100 + (v / 0x1_0000) % 0x100;
            &&& field(after, 0, 48) == to[0] + to[1] * 0x100 + to[2] * 0x1_0000 + to[3] * 0x100_0000 + to[4]
                * 0x1_0000_0000 + to[5] * 0x100_0000_0000
            &&& field(after, 48, 48) == from[0] + from[1] * 0x100 + from[2] * 0x1_0000 + from[3] * 0x100_0000 + from[4]
                * 0x1_0000_0000 + from[5] * 0x100_0000_0000
            &&& field(after, 96, 16) == 8
            &&& field(after, 112, 8) == 0x45
            &&& field(after, 128, 16) == 52int * 0x100
            &&& field(after, 184, 8) == 17
            &&& field(after, 208, 32) == src[0] + src[1] * 0x100 + src[2] * 0x1_0000 + src[3] * 0x100_0000
            &&& field(after, 240, 32) == dst[0] + dst[1] * 0x100 + dst[2] * 0x1_0000 + dst[3] * 0x100_0000
            &&& field(after, 272, 16) == (4791int % 0x100) * 0x100 + 4791int / 0x100
            &&& field(after, 288, 16) == (4791int % 0x100) * 0x100 + 4791int / 0x100
            &&& field(after, 304, 16) == 32int * 0x100
            &&& field(after, 336, 8) == 0x11
            &&& field(after, 376, 24) == swapped(p.dqpn@ as int)
            &&& field(after, 408, 24) == swapped(p.psn@ as int)
            &&& field(after, 433, 2) == (if p.expected_psn is Some { 3nat } else { 0nat })
            &&& field(after, 448, 16) == (p.msn@ % 0x100) * 0x100 + p.msn@ / 0x100
            &&& p.expected_psn is Some ==> field(after, 464, 24) == swapped(p.expected_psn->0@ as int)
            &&& field(after, 496, 32) == crc32_of(icrc_bytes(after.subrange(14, 66)))
        }),
{
    reveal(swap16_spec);
    reveal(swap24_spec);
    lemma2_to64();
    lemma2_to64_rest();
    let checksum = ipv4_checksum(without_checksum(after.subrange(14, 34)));
    let icrc = crc32_of(icrc_bytes(after.subrange(14, 66)));
    let a = mac_layout(p.src.0, p.dst.0);
    let b = ip_layout(p.src.1, p.dst.1, checksum);
    let c = transport_layout(p.dqpn, p.psn);
    let d = ack_header_layout(p.msn, p.expected_psn);
    let fs = ack_layout(p, checksum) + seq![(Field { lo: 496, width: 32, value: icrc as u64 })];
    lemma_written_at(before, after, fs, 0, a[0]);
    lemma_written_at(before, after, fs, 1, a[1]);
    lemma_written_at(before, after, fs, 2, a[2]);
    lemma_written_at(before, after, fs, 3, b[0]);
    lemma_written_at(before, after, fs, 5, b[2]);
    lemma_written_at(before, after, fs, 9, b[6]);
    lemma_written_at(before, after, fs, 11, b[8]);
    lemma_written_at(before, after, fs, 12, b[9]);
    lemma_written_at(before, after, fs, 13, c[0]);
    lemma_written_at(before, after, fs, 14, c[1]);
    lemma_written_at(before, after, fs, 15, c[2]);
    lemma_written_at(before, after, fs, 17, c[4]);
    lemma_written_at(before, after, fs, 21, c[8]);
    lemma_written_at(before, after, fs, 22, c[9]);
    lemma_written_at(before, after, fs, 23, d[0]);
    lemma_written_at(before, after, fs, 25, d[2]);
    lemma_written_at(before, after, fs, 26, d[3]);
    lemma_written_at(before, after, fs, 27, Field { lo: 496, width: 32, value: icrc as u64 });
}

} // verus!
