//! Numbers made of bytes.

use vstd::prelude::*;
#[allow(unused_imports)]
use crate::utils::be_value;

verus! {

/// The bytes that make a number: no more than the first eight.
pub open spec fn first_eight(s: Seq<u8>) -> Seq<u8> {
    if s.len() > 8 {
        s.take(8)
    } else {
        s
    }
}

proof fn lemma_be_value_bound(s: Seq<u8>)
    requires
        s.len() <= 8,
    ensures
        s.len() == 0 ==> be_value(s) == 0,
        s.len() <= 1 ==> be_value(s) < 0x100,
        s.len() <= 2 ==> be_value(s) < 0x1_0000,
        s.len() <= 3 ==> be_value(s) < 0x100_0000,
        s.len() <= 4 ==> be_value(s) < 0x1_0000_0000,
        s.len() <= 5 ==> be_value(s) < 0x100_0000_0000,
        s.len() <= 6 ==> be_value(s) < 0x1_0000_0000_0000,
        s.len() <= 7 ==> be_value(s) < 0x100_0000_0000_0000,
        be_value(s) < 0x1_0000_0000_0000_0000,
    decreases s.len(),
{
    if s.len() > 0 {
        lemma_be_value_bound(s.drop_last());
    }
}

/// convert an u8 slice to a u64: the number that its bytes make, the first one
/// highest. No more than the first eight bytes count.
pub fn u8_slice_to_u64(slice: &[u8]) -> (r: u64)
    ensures
        r == be_value(first_eight(slice@)),
{
    let mut acc: u64 = 0;
    let mut i: usize = 0;
    while i < slice.len() && i < 8
        invariant
            i <= slice@.len(),
            i <= 8,
            acc == be_value(slice@.take(i as int)),
        decreases slice@.len() - i,
    {
        proof {
            let t = slice@.take(i as int + 1);
            assert(t.drop_last() =~= slice@.take(i as int));
            assert(t.last() == slice@[i as int]);
            lemma_be_value_bound(slice@.take(i as int));
        }
        acc = acc * 256 + slice[i] as u64;
        i = i + 1;
    }
    assert(slice@.take(i as int) =~= first_eight(slice@));
    acc
}

} // verus!
