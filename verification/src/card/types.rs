//! Packet numbers, queue pair numbers and elements.

use vstd::prelude::*;
use crate::endian::swap24;
#[allow(unused_imports)]
use crate::endian::{swap24_spec, swap_involutive};
use crate::types::Key;
#[allow(unused_imports)]
use crate::types::{add24, sub24};

verus! {

/// Queue Pair Number
#[derive(Debug, Clone, Copy, Hash, PartialEq, Eq, Structural)]
pub struct Qpn(u32);

impl View for Qpn {
    type V = u32;

    closed spec fn view(&self) -> u32 {
        self.0
    }
}

impl Qpn {
    #[verifier::type_invariant]
    closed spec fn fits(self) -> bool {
        self.0 <= 0xff_ffff
    }

    /// The `QPN` value should be less than 2^24;
    pub fn new(qpn: u32) -> (r: Self)
        requires
            qpn <= 0xff_ffff,
        ensures
            r@ == qpn,
    {
        Self(qpn)
    }

    /// Get the value of `Qpn`.
    #[must_use]
    pub fn get(&self) -> (r: u32)
        ensures
            r == self@,
            r <= 0xff_ffff,
    {
        proof {
            use_type_invariant(self);
        }
        self.0
    }
}

impl Default for Qpn {
    fn default() -> (r: Self)
        ensures
            r@ == 0,
    {
        Self(0)
    }
}

/// In RDMA, some structs are defined as 24 bits.
/// For example : `PSN`, `QPN` etc.
///
/// This struct is used to represent these 24 bits.
#[derive(Debug, Clone, Copy, Hash, PartialEq, Eq, Structural)]
pub struct Psn(u32);

impl View for Psn {
    type V = u32;

    closed spec fn view(&self) -> u32 {
        self.0
    }
}

impl Psn {
    #[verifier::type_invariant]
    closed spec fn fits(self) -> bool {
        self.0 <= 0xff_ffff
    }

    /// Create a new `Psn` with the given value, which has to fit into 24 bits.
    #[must_use]
    pub fn new(psn: u32) -> (r: Self)
        requires
            psn <= 0xff_ffff,
        ensures
            r@ == psn,
    {
        Self(psn)
    }

    /// Get the value of `psn`.
    #[must_use]
    pub fn get(&self) -> (r: u32)
        ensures
            r == self@,
            r <= 0xff_ffff,
    {
        proof {
            use_type_invariant(self);
        }
        self.0
    }

    /// Convert the value of `psn` to big endian.
    pub fn into_ne(self) -> (r: u32)
        ensures
            r == swap24_spec(self@),
            r <= 0xff_ffff,
    {
        swap24(self.0)
    }

    /// Convert a big endian value to `psn`.
    pub fn from_ne(val: u32) -> (r: Self)
        ensures
            r@ == swap24_spec(val),
    {
        Self::new(swap24(val))
    }

    /// wrapping add the current value with rhs
    pub fn wrapping_add(self, rhs: Self) -> (r: Self)
        ensures
            r@ == add24(self@ as int, rhs@ as int),
    {
        proof {
            use_type_invariant(&self);
            use_type_invariant(&rhs);
        }
        Self((self.0 + rhs.0) % 0x100_0000)
    }

    /// Get the difference between two PSN
    #[must_use]
    pub fn wrapping_sub(self, rhs: Self) -> (r: u32)
        ensures
            r == sub24(self@ as int, rhs@ as int),
            r <= 0xff_ffff,
    {
        proof {
            use_type_invariant(&self);
            use_type_invariant(&rhs);
        }
        if self.0 >= rhs.0 {
            self.0 - rhs.0
        } else {
            self.0 + 0x100_0000 - rhs.0
        }
    }
}

impl Default for Psn {
    fn default() -> (r: Self)
        ensures
            r@ == 0,
    {
        Self(0)
    }
}

/// The difference of two numbers is what has to be added to get from one to the
/// other.
pub proof fn law_difference_leads_back(a: u32, b: u32)
    requires
        a <= 0xff_ffff,
        b <= 0xff_ffff,
    ensures
        add24(b as int, sub24(a as int, b as int) as int) == a,
{
}

/// A number in network byte order reads back.
pub proof fn law_psn_network_order(psn: u32)
    requires
        psn <= 0xff_ffff,
    ensures
        swap24_spec(swap24_spec(psn)) == psn,
{
    swap_involutive(0, psn, 0);
}

/// Scatter Gather Element
#[derive(Debug, Clone, Copy, PartialEq, Eq, Structural)]
pub struct Sge {
    /// physical address
    pub phy_addr: u64,
    /// Length
    pub len: u32,
    /// LKey
    pub key: Key,
}

impl Sge {
    /// Create a new `Sge`
    #[must_use]
    pub fn new(phy_addr: u64, len: u32, key: Key) -> (r: Self)
        ensures
            r == (Sge { phy_addr, len, key }),
    {
        Self { phy_addr, len, key }
    }
}

} // verus!
