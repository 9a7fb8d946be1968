//! The numbers, flags and addresses that the driver deals in.

use vstd::prelude::*;
use crate::endian::{swap16, swap24, swap32};
#[allow(unused_imports)]
use crate::endian::{swap16_spec, swap24_spec, swap32_spec};
use crate::pd::Pd;

verus! {

/// page size is 2MB.
pub const PAGE_SIZE: usize = 0x20_0000;

/// Two packet sequence numbers are ordered as long as they lie less than this
/// far apart.
pub const PSN_MAX_WINDOW_SIZE: u32 = 0x80_0000;

/// Type for `Imm`
#[derive(Debug, Clone, Copy, Hash, PartialEq, Eq, Structural)]
pub struct Imm(u32);

impl View for Imm {
    type V = u32;

    closed spec fn view(&self) -> u32 {
        self.0
    }
}

impl Imm {
    /// The one with the value `v`
    pub closed spec fn of(v: u32) -> Self {
        Self(v)
    }

    /// `of` gives the value that it was given
    pub broadcast proof fn lemma_of(v: u32)
        ensures
            #[trigger] Self::of(v)@ == v,
    {
    }

    /// Create a new `Imm` with the given value.
    #[must_use]
    pub fn new(imm: u32) -> (r: Self)
        ensures
            r@ == imm,
            r == Self::of(imm),
    {
        Self(imm)
    }

    /// Get the value of `Imm`.
    #[must_use]
    pub fn get(&self) -> (r: u32)
        ensures
            r == self@,
    {
        self.0
    }

    /// Convert the value of `Imm` to big endian.
    #[must_use]
    pub fn into_be(self) -> (r: u32)
        ensures
            r == swap32_spec(self@),
    {
        swap32(self.0)
    }

    /// Convert the value of big endian to `Imm`.
    #[must_use]
    pub fn from_be(val: u32) -> (r: Self)
        ensures
            r@ == swap32_spec(val),
    {
        Self::new(swap32(val))
    }

    /// Convert the value of `Imm` to network endian.
    #[must_use]
    pub fn into_ne(self) -> (r: u32)
        ensures
            r == swap32_spec(self@),
    {
        self.into_be()
    }

    /// Convert a network endian value to `Imm`.
    #[must_use]
    pub fn from_ne(val: u32) -> (r: Self)
        ensures
            r@ == swap32_spec(val),
    {
        Self::from_be(val)
    }
}

impl From<u32> for Imm {
    fn from(imm: u32) -> (r: Self)
        ensures
            r@ == imm,
    {
        Self::new(imm)
    }
}

impl vstd::std_specs::convert::FromSpecImpl<u32> for Imm {
    open spec fn obeys_from_spec() -> bool {
        true
    }

    closed spec fn from_spec(imm: u32) -> Self {
        Self(imm)
    }
}

impl Default for Imm {
    fn default() -> (r: Self)
        ensures
            r@ == 0,
            r == Self::of(0),
    {
        Self::new(0)
    }
}

/// Message Sequence Number
#[derive(Debug, Clone, Copy, Hash, PartialEq, Eq, Structural)]
pub struct Msn(u16);

impl View for Msn {
    type V = u16;

    closed spec fn view(&self) -> u16 {
        self.0
    }
}

impl Msn {
    /// The one with the value `v`
    pub closed spec fn of(v: u16) -> Self {
        Self(v)
    }

    /// `of` gives the value that it was given
    pub broadcast proof fn lemma_of(v: u16)
        ensures
            #[trigger] Self::of(v)@ == v,
    {
    }

    /// Create a new `Msn` with the given value.
    #[must_use]
    pub fn new(msn: u16) -> (r: Self)
        ensures
            r@ == msn,
            r == Self::of(msn),
    {
        Self(msn)
    }

    /// Get the value of `Msn`.
    #[must_use]
    pub fn get(&self) -> (r: u16)
        ensures
            r == self@,
    {
        self.0
    }

    /// Convert the value of `Msn` to big endian.
    #[must_use]
    pub fn into_be(self) -> (r: u16)
        ensures
            r == swap16_spec(self@),
    {
        swap16(self.0)
    }

    /// Convert the value of `Msn` to network endian.
    #[must_use]
    pub fn into_ne(self) -> (r: u16)
        ensures
            r == swap16_spec(self@),
    {
        self.into_be()
    }

    /// Two numbers are the same where their values are.
    pub proof fn lemma_view_injective(a: Msn, b: Msn)
        ensures
            a@ == b@ <==> a == b,
    {
    }
}

impl From<u16> for Msn {
    fn from(msn: u16) -> (r: Self)
        ensures
            r@ == msn,
    {
        Self::new(msn)
    }
}

impl vstd::std_specs::convert::FromSpecImpl<u16> for Msn {
    open spec fn obeys_from_spec() -> bool {
        true
    }

    closed spec fn from_spec(msn: u16) -> Self {
        Self(msn)
    }
}

impl Default for Msn {
    fn default() -> (r: Self)
        ensures
            r@ == 0,
            r == Self::of(0),
    {
        Self::new(0)
    }
}

/// `RKey` and `LKey`
#[derive(Debug, Clone, Copy, Hash, PartialEq, Eq, Structural)]
pub struct Key(u32);

impl View for Key {
    type V = u32;

    closed spec fn view(&self) -> u32 {
        self.0
    }
}

impl Key {
    /// The one with the value `v`
    pub closed spec fn of(v: u32) -> Self {
        Self(v)
    }

    /// `of` gives the value that it was given
    pub broadcast proof fn lemma_of(v: u32)
        ensures
            #[trigger] Self::of(v)@ == v,
    {
    }

    /// Create a new `Key` with the given value.
    #[must_use]
    pub fn new(key: u32) -> (r: Self)
        ensures
            r@ == key,
            r == Self::of(key),
    {
        Self(key)
    }

    /// Get the value of `Key`.
    #[must_use]
    pub fn get(&self) -> (r: u32)
        ensures
            r == self@,
    {
        self.0
    }

    /// Convert the value of `Key` to big endian.
    #[must_use]
    pub fn into_be(self) -> (r: u32)
        ensures
            r == swap32_spec(self@),
    {
        swap32(self.0)
    }

    /// Convert a big endian value to `Key`.
    #[must_use]
    pub fn from_be(val: u32) -> (r: Self)
        ensures
            r@ == swap32_spec(val),
    {
        Self::new(swap32(val))
    }

    /// The key of a memory region: the region's index in the upper 8 bits, and
    /// the upper 24 bits of a secret in the others.
    #[must_use]
    pub fn from_parts(mr_idx: u32, key_secret: u32) -> (r: Self)
        ensures
            r@ == region_key(mr_idx, key_secret),
    {
        let key_idx: u32 = (mr_idx % 0x100) * 0x100_0000;
        let key_secret: u32 = key_secret / 0x100;
        Self(key_idx + key_secret)
    }

    /// Create a new `Key` with the given value, whatever it names.
    #[must_use]
    pub fn new_unchecked(key: u32) -> (r: Self)
        ensures
            r@ == key,
            r == Self::of(key),
    {
        Self(key)
    }

    /// Convert the value of `Key` to network endian.
    #[must_use]
    pub fn into_ne(self) -> (r: u32)
        ensures
            r == swap32_spec(self@),
    {
        self.into_be()
    }

    /// Convert a network endian value to `Key`.
    #[must_use]
    pub fn from_ne(val: u32) -> (r: Self)
        ensures
            r@ == swap32_spec(val),
    {
        Self::from_be(val)
    }

    /// Two keys are the same where their values are.
    pub proof fn lemma_view_injective(a: Key, b: Key)
        ensures
            a@ == b@ <==> a == b,
    {
    }
}

/// The key of a memory region.
pub open spec fn region_key(mr_idx: u32, key_secret: u32) -> u32 {
    ((mr_idx % 0x100) * 0x100_0000 + key_secret / 0x100) as u32
}

/// A region's key tells the region, and its secret up to the lowest 8 bits.
pub proof fn law_region_key(mr_idx: u32, key_secret: u32)
    ensures
        region_key(mr_idx, key_secret) / 0x100_0000 == mr_idx % 0x100,
        region_key(mr_idx, key_secret) % 0x100_0000 == key_secret / 0x100,
{
}

impl From<u32> for Key {
    fn from(key: u32) -> (r: Self)
        ensures
            r@ == key,
    {
        Self::new(key)
    }
}

impl vstd::std_specs::convert::FromSpecImpl<u32> for Key {
    open spec fn obeys_from_spec() -> bool {
        true
    }

    closed spec fn from_spec(key: u32) -> Self {
        Self(key)
    }
}

impl Default for Key {
    fn default() -> (r: Self)
        ensures
            r@ == 0,
            r == Self::of(0),
    {
        Self::new(0)
    }
}

/// Packet Sequence Number
pub type Psn = ThreeBytesStruct;

/// Queue Pair Number
pub type Qpn = ThreeBytesStruct;

/// In RDMA, some numbers are 24 bits wide.
/// For example : `PSN`, `QPN` etc.
///
/// This struct is used to represent these 24 bits.
#[derive(Debug, Clone, Copy, Hash, PartialEq, Eq, Structural)]
pub struct ThreeBytesStruct(u32);

impl View for ThreeBytesStruct {
    type V = u32;

    closed spec fn view(&self) -> u32 {
        self.0
    }
}

/// `a + b` as a 24 bit number.
pub open spec fn add24(a: int, b: int) -> u32 {
    ((a + b) % 0x100_0000) as u32
}

/// `a - b` as a 24 bit number.
pub open spec fn sub24(a: int, b: int) -> u32 {
    ((a - b) % 0x100_0000) as u32
}

/// How far apart two 24 bit numbers lie, whichever comes first: the shorter way
/// round.
pub open spec fn distance24(a: int, b: int) -> u32 {
    if sub24(a, b) <= sub24(b, a) {
        sub24(a, b)
    } else {
        sub24(b, a)
    }
}

impl ThreeBytesStruct {
    /// The largest number that fits.
    pub const MAX_VALUE: u32 = 0xff_ffff;

    #[verifier::type_invariant]
    closed spec fn fits(self) -> bool {
        self.0 <= 0xff_ffff
    }

    /// The one with the value `v`
    pub closed spec fn of(v: u32) -> Self {
        Self(v)
    }

    /// `of` gives the value that it was given
    pub broadcast proof fn lemma_of(v: u32)
        ensures
            #[trigger] Self::of(v)@ == v,
    {
    }

    /// Create a new `ThreeBytesStruct` with the given value.
    ///
    /// If the value is greater than 24 bits, the higher bits will be ignored.
    #[must_use]
    pub fn new(key: u32) -> (r: Self)
        ensures
            r@ == key % 0x100_0000,
            r == Self::of((key % 0x100_0000) as u32),
    {
        Self(key % 0x100_0000)
    }

    /// Get the value of `ThreeBytesStruct`.
    #[must_use]
    pub fn get(&self) -> (r: u32)
        ensures
            r == self@,
            r <= 0xff_ffff,
    {
        proof {
            use_type_invariant(self);
        }
        self.0
    }

    /// Convert the value of `ThreeBytesStruct` to big endian.
    #[must_use]
    pub fn into_be(self) -> (r: u32)
        ensures
            r == swap24_spec(self@),
            r <= 0xff_ffff,
    {
        swap24(self.0)
    }

    /// Convert a big endian value to `ThreeBytesStruct`.
    #[must_use]
    pub fn from_be(val: u32) -> (r: Self)
        ensures
            r@ == swap24_spec(val),
    {
        Self::new(swap24(val))
    }

    /// wrapping add the current value with rhs
    #[must_use]
    pub fn wrapping_add(&self, rhs: u32) -> (r: Self)
        ensures
            r@ == add24(self@ as int, rhs as int),
            r == Self::of(add24(self@ as int, rhs as int)),
    {
        proof {
            use_type_invariant(self);
        }
        Self((self.0 + rhs % 0x100_0000) % 0x100_0000)
    }

    /// wrapping sub the current value with rhs
    #[must_use]
    pub fn wrapping_sub(&self, rhs: u32) -> (r: Self)
        ensures
            r@ == sub24(self@ as int, rhs as int),
            r == Self::of(sub24(self@ as int, rhs as int)),
    {
        proof {
            use_type_invariant(self);
        }
        Self((self.0 + 0x100_0000 - rhs % 0x100_0000) % 0x100_0000)
    }

    /// The absolute difference between two PSN
    /// We assume that the bigger PSN should not exceed the
    /// smaller PSN by more than 2^23(that half of the range)
    #[must_use]
    pub fn wrapping_abs(&self, rhs: Psn) -> (r: u32)
        ensures
            r == distance24(self@ as int, rhs@ as int),
            r <= PSN_MAX_WINDOW_SIZE,
    {
        proof {
            use_type_invariant(self);
            use_type_invariant(&rhs);
        }
        let diff: u32 = if self.0 >= rhs.0 {
            self.0 - rhs.0
        } else {
            rhs.0 - self.0
        };
        if diff <= PSN_MAX_WINDOW_SIZE {
            diff
        } else {
            0x100_0000 - diff
        }
    }

    /// Whether the current PSN comes at or after `rhs`, where the two lie less
    /// than half of the range apart.
    #[must_use]
    pub fn larger_in_psn(&self, rhs: Psn) -> (r: bool)
        ensures
            r == (sub24(self@ as int, rhs@ as int) < PSN_MAX_WINDOW_SIZE),
    {
        let rhs_value: u32 = rhs.get();
        self.wrapping_sub(rhs_value).get() < PSN_MAX_WINDOW_SIZE
    }

    /// Two numbers are the same where their values are.
    pub proof fn lemma_view_injective(a: ThreeBytesStruct, b: ThreeBytesStruct)
        ensures
            a@ == b@ <==> a == b,
    {
    }
}

impl From<u32> for ThreeBytesStruct {
    fn from(key: u32) -> (r: Self)
        ensures
            r@ == key % 0x100_0000,
    {
        Self::new(key)
    }
}

impl vstd::std_specs::convert::FromSpecImpl<u32> for ThreeBytesStruct {
    open spec fn obeys_from_spec() -> bool {
        true
    }

    closed spec fn from_spec(key: u32) -> Self {
        Self((key % 0x100_0000) as u32)
    }
}

impl Default for ThreeBytesStruct {
    fn default() -> (r: Self)
        ensures
            r@ == 0,
            r == Self::of(0),
    {
        Self::new(0)
    }
}

/// Adding and then subtracting the same number, in either order, changes no 24
/// bit number; what is subtracted to get from one to the other leads back.
pub proof fn law_wrapping_inverse(a: u32, b: u32, n: u32)
    requires
        a <= 0xff_ffff,
        b <= 0xff_ffff,
    ensures
        sub24(add24(a as int, n as int) as int, n as int) == a,
        add24(sub24(a as int, n as int) as int, n as int) == a,
        add24(a as int, sub24(b as int, a as int) as int) == b,
{
}

/// Of two different PSN exactly one comes after the other, unless they lie
/// exactly half of the range apart.
pub proof fn law_psn_order(a: u32, b: u32)
    requires
        a <= 0xff_ffff,
        b <= 0xff_ffff,
        a != b,
        sub24(a as int, b as int) != PSN_MAX_WINDOW_SIZE,
    ensures
        (sub24(a as int, b as int) < PSN_MAX_WINDOW_SIZE) != (sub24(b as int, a as int) < PSN_MAX_WINDOW_SIZE),
{
}

/// The absolute difference of two PSN is the same both ways round, at most half
/// of the range, and leads from the one that comes first to the other.
pub proof fn law_distance(a: u32, b: u32)
    requires
        a <= 0xff_ffff,
        b <= 0xff_ffff,
    ensures
        distance24(a as int, b as int) == distance24(b as int, a as int),
        distance24(a as int, b as int) <= PSN_MAX_WINDOW_SIZE,
        distance24(a as int, b as int) == 0 <==> a == b,
        add24(a as int, distance24(a as int, b as int) as int) == b || add24(
            b as int,
            distance24(a as int, b as int) as int,
        ) == a,
{
}

/// What is converted to big endian and back is the same number.
pub proof fn law_endian_round_trip(imm: u32, key: u32, psn: u32)
    requires
        psn <= 0xff_ffff,
    ensures
        swap32_spec(swap32_spec(imm)) == imm,
        swap32_spec(swap32_spec(key)) == key,
        swap24_spec(swap24_spec(psn)) == psn,
{
    crate::endian::swap_involutive(0, psn, imm);
    crate::endian::swap_involutive(0, psn, key);
}

/// Memory access bit flags
#[derive(Debug, Clone, Copy, PartialEq, Eq, Structural)]
pub struct MemAccessTypeFlag {
    bits: u8,
}

impl View for MemAccessTypeFlag {
    type V = u8;

    closed spec fn view(&self) -> u8 {
        self.bits
    }
}

impl MemAccessTypeFlag {
    /// No access flag
    pub const IBV_ACCESS_NO_FLAGS: u8 = 0;

    /// Local write
    pub const IBV_ACCESS_LOCAL_WRITE: u8 = 1;

    /// Remote write
    pub const IBV_ACCESS_REMOTE_WRITE: u8 = 2;

    /// Remote read
    pub const IBV_ACCESS_REMOTE_READ: u8 = 4;

    /// Remote atomic
    pub const IBV_ACCESS_REMOTE_ATOMIC: u8 = 8;

    /// Mw bind
    pub const IBV_ACCESS_MW_BIND: u8 = 16;

    /// Zero based
    pub const IBV_ACCESS_ZERO_BASED: u8 = 32;

    /// On demand
    pub const IBV_ACCESS_ON_DEMAND: u8 = 64;

    /// Hugetlb
    pub const IBV_ACCESS_HUGETLB: u8 = 128;

    /// The set with the given bits
    pub closed spec fn of(bits: u8) -> Self {
        Self { bits }
    }

    /// `of` gives the bits that it was given
    pub broadcast proof fn lemma_of(bits: u8)
        ensures
            #[trigger] Self::of(bits)@ == bits,
    {
    }

    /// The set of the given flags. Every bit stands for a flag.
    pub fn from_bits(bits: u8) -> (r: Self)
        ensures
            r@ == bits,
            r == Self::of(bits),
    {
        Self { bits }
    }

    /// No flag at all
    pub fn empty() -> (r: Self)
        ensures
            r@ == 0,
            r == Self::of(0),
    {
        Self { bits: 0 }
    }

    /// The flags as bits
    pub fn bits(&self) -> (r: u8)
        ensures
            r == self@,
    {
        self.bits
    }

    /// Whether each of the flags of `other` is set
    pub fn contains(&self, other: Self) -> (r: bool)
        ensures
            r == (self@ & other@ == other@),
    {
        self.bits & other.bits == other.bits
    }
}

/// Work Request Send Flag
#[derive(Debug, Clone, Copy, PartialEq, Eq, Structural)]
pub struct WorkReqSendFlag {
    bits: u8,
}

impl View for WorkReqSendFlag {
    type V = u8;

    closed spec fn view(&self) -> u8 {
        self.bits
    }
}

impl WorkReqSendFlag {
    /// The flags with the bits `v`
    pub closed spec fn of(v: u8) -> Self {
        WorkReqSendFlag { bits: v }
    }

    /// `of` gives the bits that it was given
    pub broadcast proof fn lemma_of(v: u8)
        ensures
            #[trigger] Self::of(v)@ == v,
    {
    }

    /// No flags
    pub const IBV_SEND_NO_FLAGS: u8 = 0;

    /// Send fence
    pub const IBV_SEND_FENCE: u8 = 1;

    /// Send signaled
    pub const IBV_SEND_SIGNALED: u8 = 2;

    /// Send solicited
    pub const IBV_SEND_SOLICITED: u8 = 4;

    /// Send inline
    pub const IBV_SEND_INLINE: u8 = 8;

    /// Send IP checksum
    pub const IBV_SEND_CHECKSUM: u8 = 16;

    /// The set of the given flags, if each of the bits stands for one
    pub fn from_bits(bits: u8) -> (r: Option<Self>)
        ensures
            bits < 32 ==> r is Some && r->0@ == bits,
            bits >= 32 ==> r is None,
    {
        if bits < 32 {
            Some(Self { bits })
        } else {
            None
        }
    }

    /// No flag at all
    pub fn empty() -> (r: Self)
        ensures
            r@ == 0,
            r == Self::of(0),
    {
        Self { bits: 0 }
    }

    /// The flags as bits
    pub fn bits(&self) -> (r: u8)
        ensures
            r == self@,
    {
        self.bits
    }
}

impl Default for WorkReqSendFlag {
    fn default() -> (r: Self)
        ensures
            r@ == 0,
    {
        Self::empty()
    }
}

/// Queue Pair Type for software/hardware
#[derive(Debug, Clone, Copy, PartialEq, Eq, Structural)]
pub enum QpType {
    /// Reliable Connection
    Rc,
    /// Unreliable Connection
    Uc,
    /// Unreliable Datagram
    Ud,
    /// Raw Packet
    RawPacket,
    /// XRC Send
    XrcSend,
    /// XRC Receive
    XrcRecv,
}

impl QpType {
    /// The number by which the card knows the type
    pub open spec fn code_spec(self) -> u8 {
        match self {
            QpType::Rc => 2,
            QpType::Uc => 3,
            QpType::Ud => 4,
            QpType::RawPacket => 8,
            QpType::XrcSend => 9,
            QpType::XrcRecv => 10,
        }
    }

    /// The number by which the card knows the type
    pub fn code(self) -> (r: u8)
        ensures
            r == self.code_spec(),
            2 <= r <= 10,
    {
        match self {
            QpType::Rc => 2,
            QpType::Uc => 3,
            QpType::Ud => 4,
            QpType::RawPacket => 8,
            QpType::XrcSend => 9,
            QpType::XrcRecv => 10,
        }
    }

    /// The type that has the given number
    pub fn try_from_code(code: u8) -> (r: Option<Self>)
        ensures
            r is Some ==> r->0.code_spec() == code,
            r is None ==> forall|t: QpType| t.code_spec() != code,
    {
        match code {
            2 => Some(QpType::Rc),
            3 => Some(QpType::Uc),
            4 => Some(QpType::Ud),
            8 => Some(QpType::RawPacket),
            9 => Some(QpType::XrcSend),
            10 => Some(QpType::XrcRecv),
            _ => None,
        }
    }
}

/// Packet MTU
#[derive(Debug, Clone, Copy, PartialEq, Eq, Structural)]
pub enum Pmtu {
    /// 256 bytes
    Mtu256,
    /// 512 bytes
    Mtu512,
    /// 1024 bytes
    Mtu1024,
    /// 2048 bytes
    Mtu2048,
    /// 4096 bytes
    Mtu4096,
}

impl Pmtu {
    /// The size in bytes
    pub open spec fn size_spec(self) -> u32 {
        match self {
            Pmtu::Mtu256 => 256,
            Pmtu::Mtu512 => 512,
            Pmtu::Mtu1024 => 1024,
            Pmtu::Mtu2048 => 2048,
            Pmtu::Mtu4096 => 4096,
        }
    }

    /// The number by which the card knows the size
    pub open spec fn code_spec(self) -> u8 {
        match self {
            Pmtu::Mtu256 => 1,
            Pmtu::Mtu512 => 2,
            Pmtu::Mtu1024 => 3,
            Pmtu::Mtu2048 => 4,
            Pmtu::Mtu4096 => 5,
        }
    }

    /// The number by which the card knows the size
    pub fn code(self) -> (r: u8)
        ensures
            r == self.code_spec(),
    {
        match self {
            Pmtu::Mtu256 => 1,
            Pmtu::Mtu512 => 2,
            Pmtu::Mtu1024 => 3,
            Pmtu::Mtu2048 => 4,
            Pmtu::Mtu4096 => 5,
        }
    }
}

impl From<&Pmtu> for u64 {
    fn from(pmtu: &Pmtu) -> (r: u64) {
        match pmtu {
            Pmtu::Mtu256 => 256,
            Pmtu::Mtu512 => 512,
            Pmtu::Mtu1024 => 1024,
            Pmtu::Mtu2048 => 2048,
            Pmtu::Mtu4096 => 4096,
        }
    }
}

impl From<Pmtu> for u32 {
    fn from(pmtu: Pmtu) -> (r: u32) {
        u32::from(&pmtu)
    }
}

impl vstd::std_specs::convert::FromSpecImpl<Pmtu> for u32 {
    open spec fn obeys_from_spec() -> bool {
        true
    }

    open spec fn from_spec(pmtu: Pmtu) -> u32 {
        pmtu.size_spec()
    }
}

impl vstd::std_specs::convert::FromSpecImpl<&Pmtu> for u64 {
    open spec fn obeys_from_spec() -> bool {
        true
    }

    open spec fn from_spec(pmtu: &Pmtu) -> u64 {
        pmtu.size_spec() as u64
    }
}

impl From<&Pmtu> for u32 {
    fn from(pmtu: &Pmtu) -> (r: u32) {
        match pmtu {
            Pmtu::Mtu256 => 256,
            Pmtu::Mtu512 => 512,
            Pmtu::Mtu1024 => 1024,
            Pmtu::Mtu2048 => 2048,
            Pmtu::Mtu4096 => 4096,
        }
    }
}

impl vstd::std_specs::convert::FromSpecImpl<&Pmtu> for u32 {
    open spec fn obeys_from_spec() -> bool {
        true
    }

    open spec fn from_spec(pmtu: &Pmtu) -> u32 {
        pmtu.size_spec()
    }
}

/// Scatter Gather Element
#[derive(Debug, Clone, Copy, PartialEq, Eq, Structural)]
pub struct Sge {
    /// Address(physical address)
    pub addr: u64,
    /// Length
    pub len: u32,
    /// LKey
    pub key: Key,
}

impl Sge {
    /// Create a new `Sge`
    #[must_use]
    pub fn new(addr: u64, len: u32, key: Key) -> (r: Self)
        ensures
            r == (Sge { addr, len, key }),
    {
        Self { addr, len, key }
    }
}

/// A MAC address, in the order in which its bytes are sent
#[derive(Debug, Clone, Copy, PartialEq, Eq)]
pub struct MacAddress {
    pub octets: [u8; 6],
}

impl Default for MacAddress {
    fn default() -> (r: Self)
        ensures
            r.octets@ == seq![0u8, 0, 0, 0, 0, 0],
    {
        Self { octets: [0, 0, 0, 0, 0, 0] }
    }
}

/// An IPv4 address, in the order in which its bytes are sent
#[derive(Debug, Clone, Copy, PartialEq, Eq)]
pub struct Ipv4Addr {
    pub octets: [u8; 4],
}

impl Ipv4Addr {
    /// The address `a.b.c.d`
    pub fn new(a: u8, b: u8, c: u8, d: u8) -> (r: Self)
        ensures
            r.octets@ == seq![a, b, c, d],
    {
        Self { octets: [a, b, c, d] }
    }
}

/// RDMA network param
#[derive(Debug, Clone, Copy)]
pub struct RdmaDeviceNetworkParam {
    /// Network gateway
    pub gateway: Ipv4Addr,
    /// Network netmask
    pub netmask: Ipv4Addr,
    /// IP address
    pub ipaddr: Ipv4Addr,
    /// MAC address
    pub macaddr: MacAddress,
}

/// Queue Pair imuutable context
#[derive(Debug, Clone, Copy)]
pub struct Qp {
    /// Protection Domain
    pub pd: Pd,
    /// Queue Pair Number
    pub qpn: Qpn,
    /// Peer Queue Pair Number
    pub peer_qpn: Qpn,
    /// Queue Pair Type
    pub qp_type: QpType,
    /// Receive Queue Access Flags
    pub rq_acc_flags: MemAccessTypeFlag,
    /// Packet MTU
    pub pmtu: Pmtu,
    /// Destination IP
    pub dqp_ip: Ipv4Addr,
    /// Destination MAC
    pub dqp_mac: MacAddress,
}

/// What an error speaks of
#[derive(Debug, Clone, Copy, PartialEq, Eq, Structural)]
pub enum Subject {
    /// A protection domain
    Pd(Pd),
    /// A queue pair
    Qp(Qpn),
    /// A range of packets
    PsnRange,
    /// The kind of a descriptor
    DescriptorType,
}

/// A part that a descriptor cannot be built without
#[derive(Debug, Clone, Copy, PartialEq, Eq, Structural)]
pub enum DescPart {
    /// The header
    Common,
    /// A scatter gather element
    Sge,
    /// The immediate
    Imm,
}

/// An operation of the card
#[derive(Debug, Clone, Copy, PartialEq, Eq, Structural)]
pub enum CardOp {
    /// Setting up a queue pair
    CreateQp,
    /// Tearing down a queue pair
    DestroyQp,
    /// Setting the network parameters
    SetNetwork,
    /// Setting where raw packets are received
    SetRawPacketReceiveMeta,
}

/// What there may be too little of
#[derive(Debug, Clone, Copy, PartialEq, Eq, Structural)]
pub enum Resource {
    /// Numbers for queue pairs
    Qp,
    /// Memory
    Memory,
    /// The network interface, which is not ready
    Nic,
    /// The address of a peer, which the network interface does not know
    MacAddress,
}

/// Error type for RDMA user space driver library
#[derive(Debug, Clone, Copy, PartialEq, Eq)]
pub enum Error {
    /// Some error occurred in the device, for the given cause
    Device(&'static str),
    /// Double initialization
    DoubleInit,
    /// Device busy. Typically ringbuffer is full
    DeviceBusy,
    /// Adaptor device return a failed status
    DeviceReturnFailed(CardOp),
    /// Passing an invalid PD handle,MR key or QPN
    Invalid(Subject),
    /// Pd is in use: by memory regions, or else by queue pairs
    PdInUse { by_mr: bool },
    /// No available resource
    ResourceNoAvailable(Resource),
    /// Building descriptor failed
    BuildDescFailed(DescPart),
    /// Address not aligned
    AddressNotAlign(usize),
    /// Create operation context failed: the MSN exists
    CreateOpCtxFailed,
    /// Set context result failed
    SetCtxResultFailed,
    /// Get physical address failed
    GetPhysAddrFailed,
    /// Not support OS or ISA
    NotSupport,
    /// Pipe broken: the given one
    PipeBroken(&'static str),
}

/// The card knows a packet size by how often 128 is doubled to get it.
pub proof fn law_pmtu_code_doubles(pmtu: Pmtu)
    ensures
        pmtu.size_spec() == 128 * vstd::arithmetic::power2::pow2(pmtu.code_spec() as nat),
        1 <= pmtu.code_spec() <= 5,
{
    vstd::arithmetic::power2::lemma2_to64();
}

/// 24 bit numbers go round: after the largest one comes zero, and what is added or
/// subtracted counts up to a multiple of their range.
pub proof fn law_numbers_go_round(a: u32, b: u32)
    requires
        a <= 0xff_ffff,
        b <= 0xff_ffff,
    ensures
        add24(a as int, b as int) == (if a + b <= 0xff_ffff {
            a + b
        } else {
            a + b - 0x100_0000
        }),
        sub24(a as int, b as int) == (if a >= b {
            a - b
        } else {
            a - b + 0x100_0000
        }),
{
}

} // verus!
