//! Bit fields inside byte buffers.
//!
//! Bit `i` of a buffer is bit `i % 8` of byte `i / 8`, counted from the least
//! significant one. A field is a run of bits, its lowest bit first.

use vstd::prelude::*;
use vstd::arithmetic::power2::{lemma2_to64, lemma2_to64_rest, lemma_pow2_pos, lemma_pow2_unfold, lemma_pow2_strictly_increases, pow2};

verus! {

/// Bit `i` of the buffer `s`.
pub open spec fn bit(s: Seq<u8>, i: int) -> bool {
    (s[i / 8] >> ((i % 8) as u8)) & 1u8 == 1u8
}

/// The number held by the `width` bits of `s` that start at bit `lo`.
pub open spec fn field(s: Seq<u8>, lo: int, width: nat) -> nat
    decreases width,
{
    if width == 0 {
        0
    } else {
        (if bit(s, lo) { 1nat } else { 0nat }) + 2 * field(s, lo + 1, (width - 1) as nat)
    }
}

/// Bit `k` of the number `v`.
pub open spec fn bit_of(v: nat, k: nat) -> bool
    decreases k,
{
    if k == 0 {
        v % 2 == 1
    } else {
        bit_of(v / 2, (k - 1) as nat)
    }
}

/// One field of a layout and the number to be put there.
#[derive(Debug, Clone, Copy)]
pub struct Field {
    pub lo: usize,
    pub width: usize,
    pub value: u64,
}

/// Bit `i` belongs to the field `f`.
pub open spec fn covers(f: Field, i: int) -> bool {
    f.lo <= i < f.lo + f.width
}

/// The bits of `new` are those of `old` but for the fields `fs`, each of which
/// holds its value (of which only the lowest `width` bits count).
pub open spec fn written(old_buf: Seq<u8>, new_buf: Seq<u8>, fs: Seq<Field>) -> bool {
    &&& new_buf.len() == old_buf.len()
    &&& forall|j: int, i: int|
        #![trigger fs[j], bit(new_buf, i)]
        0 <= j < fs.len() && covers(fs[j], i) ==> bit(new_buf, i) == bit_of(
            fs[j].value as nat,
            (i - fs[j].lo) as nat,
        )
    &&& forall|i: int|
        #![trigger bit(new_buf, i)]
        0 <= i < 8 * old_buf.len() && (forall|j: int| 0 <= j < fs.len() ==> !covers(#[trigger] fs[j], i))
            ==> bit(new_buf, i) == bit(old_buf, i)
}

/// No bit belongs to two of the fields `fs`, and all lie inside `len` bytes. No
/// field is wider than a machine word.
pub open spec fn layout_ok(fs: Seq<Field>, len: nat) -> bool {
    &&& forall|j: int|
        #![trigger fs[j]]
        0 <= j < fs.len() ==> fs[j].width <= 64 && fs[j].lo + fs[j].width <= 8 * len && fs[j].lo + fs[j].width <= usize::MAX
    &&& forall|j: int, k: int|
        #![trigger fs[j], fs[k]]
        0 <= j < k < fs.len() ==> fs[j].lo + fs[j].width <= fs[k].lo || fs[k].lo + fs[k].width <= fs[j].lo
}

proof fn lemma_byte_bits(x: u8, k: u8, j: u8)
    by (bit_vector)
    requires
        k < 8,
        j < 8,
    ensures
        ((x | (1u8 << k)) >> j) & 1u8 == (if j == k { 1u8 } else { (x >> j) & 1u8 }),
        ((x & !(1u8 << k)) >> j) & 1u8 == (if j == k { 0u8 } else { (x >> j) & 1u8 }),
{
}

/// A field of `width` bits holds less than `2^width`.
pub proof fn lemma_field_bound(s: Seq<u8>, lo: int, width: nat)
    ensures
        field(s, lo, width) < pow2(width),
    decreases width,
{
    if width == 0 {
        lemma2_to64();
    } else {
        lemma_field_bound(s, lo + 1, (width - 1) as nat);
        lemma_pow2_unfold(width);
    }
}

/// A field whose bits are those of `v` holds `v` modulo `2^width`.
pub proof fn lemma_field_of_bits(s: Seq<u8>, lo: int, width: nat, v: nat)
    requires
        forall|k: nat| k < width ==> bit(s, lo + k) == #[trigger] bit_of(v, k),
    ensures
        field(s, lo, width) == v % pow2(width),
    decreases width,
{
    lemma_pow2_pos(width);
    if width == 0 {
        lemma2_to64();
    } else {
        let w1 = (width - 1) as nat;
        assert(bit(s, lo + 0) == bit_of(v, 0));
        assert forall|k: nat| k < w1 implies bit(s, lo + 1 + k) == #[trigger] bit_of(v / 2, k) by {
            assert(bit_of(v, k + 1) == bit_of(v / 2, k));
            assert(lo + (k + 1) == lo + 1 + k);
        }
        lemma_field_of_bits(s, lo + 1, w1, v / 2);
        lemma_pow2_unfold(width);
        lemma_pow2_pos(w1);
        let p = pow2(w1);
        assert(v % (2 * p) == v % 2 + 2 * ((v / 2) % p)) by (nonlinear_arith)
            requires
                p > 0,
        {
            let q = (v / 2) / p;
            let r = (v / 2) % p;
            assert(v / 2 == p * q + r);
            assert(v == 2 * (v / 2) + v % 2);
            assert(v == (2 * p) * q + (2 * r + v % 2));
            assert(0 <= 2 * r + v % 2 < 2 * p);
            vstd::arithmetic::div_mod::lemma_fundamental_div_mod_converse(v as int, (2 * p) as int, q as int, (2 * r + v % 2) as int);
        }
    }
}

/// Fields see the same number where their bits agree.
pub proof fn lemma_field_eq(s: Seq<u8>, t: Seq<u8>, lo: int, width: nat)
    requires
        forall|i: int| lo <= i < lo + width ==> #[trigger] bit(s, i) == bit(t, i),
    ensures
        field(s, lo, width) == field(t, lo, width),
    decreases width,
{
    if width > 0 {
        assert(bit(s, lo) == bit(t, lo));
        lemma_field_eq(s, t, lo + 1, (width - 1) as nat);
    }
}

/// What was written to a field is read back, up to the field's width.
pub proof fn lemma_written_read(old_buf: Seq<u8>, new_buf: Seq<u8>, fs: Seq<Field>, j: int)
    requires
        written(old_buf, new_buf, fs),
        0 <= j < fs.len(),
    ensures
        field(new_buf, fs[j].lo as int, fs[j].width as nat) == fs[j].value as nat % pow2(fs[j].width as nat),
{
    let f = fs[j];
    assert forall|k: nat| k < f.width implies bit(new_buf, f.lo + k) == #[trigger] bit_of(f.value as nat, k) by {
        assert(covers(fs[j], f.lo + k));
        assert((f.lo + k - fs[j].lo) as nat == k);
    }
    lemma_field_of_bits(new_buf, f.lo as int, f.width as nat, f.value as nat);
}

/// What was written to a field is read back where it fits.
pub proof fn lemma_written_at(old_buf: Seq<u8>, new_buf: Seq<u8>, fs: Seq<Field>, j: int, f: Field)
    requires
        written(old_buf, new_buf, fs),
        0 <= j < fs.len(),
        fs[j] == f,
        f.width <= 64,
        f.width < 64 ==> f.value < pow2(f.width as nat),
    ensures
        field(new_buf, f.lo as int, f.width as nat) == f.value,
{
    lemma_written_read(old_buf, new_buf, fs, j);
    lemma2_to64();
    lemma_pow2_pos(f.width as nat);
    vstd::arithmetic::div_mod::lemma_small_mod(f.value as nat, pow2(f.width as nat));
}

/// A field that shares no bit with the fields written keeps what it held.
pub proof fn law_other_fields_keep(old_buf: Seq<u8>, new_buf: Seq<u8>, fs: Seq<Field>, lo: int, width: nat)
    requires
        written(old_buf, new_buf, fs),
        0 <= lo,
        lo + width <= 8 * old_buf.len(),
        forall|j: int| #![trigger fs[j]] 0 <= j < fs.len() ==> fs[j].lo + fs[j].width <= lo || lo + width <= fs[j].lo,
    ensures
        field(new_buf, lo, width) == field(old_buf, lo, width),
{
    assert forall|i: int| lo <= i < lo + width implies #[trigger] bit(new_buf, i) == bit(old_buf, i) by {
        assert forall|j: int| 0 <= j < fs.len() implies !covers(#[trigger] fs[j], i) by {}
    }
    lemma_field_eq(new_buf, old_buf, lo, width);
}

/// Writing no field leaves the buffer as it is.
pub proof fn lemma_written_none(s: Seq<u8>)
    ensures
        written(s, s, Seq::empty()),
{
}

/// One more field after others, where the fields share no bit.
pub proof fn lemma_written_push(a: Seq<u8>, b: Seq<u8>, c: Seq<u8>, fs: Seq<Field>, f: Field)
    requires
        written(a, b, fs),
        written(b, c, seq![f]),
        layout_ok(fs.push(f), a.len()),
    ensures
        written(a, c, fs.push(f)),
{
    let gs = fs.push(f);
    let one = seq![f];
    assert forall|j: int, i: int|
        #![trigger gs[j], bit(c, i)]
        0 <= j < gs.len() && covers(gs[j], i) implies bit(c, i) == bit_of(gs[j].value as nat, (i - gs[j].lo) as nat) by {
        assert(one[0] == f);
        if j < fs.len() {
            assert(gs[j] == fs[j]);
            assert(gs[fs.len() as int] == f);
            assert(!covers(f, i));
            assert(bit(c, i) == bit(b, i));
        } else {
            assert(gs[j] == one[0]);
        }
    }
    assert forall|i: int|
        #![trigger bit(c, i)]
        0 <= i < 8 * a.len() && (forall|j: int| 0 <= j < gs.len() ==> !covers(#[trigger] gs[j], i)) implies bit(c, i) == bit(a, i) by {
        assert(gs[fs.len() as int] == f);
        assert(one[0] == f);
        assert(bit(c, i) == bit(b, i));
        assert forall|j: int| 0 <= j < fs.len() implies !covers(#[trigger] fs[j], i) by {
            assert(gs[j] == fs[j]);
        }
        assert(bit(b, i) == bit(a, i));
    }
}

/// A field that is written again holds what it was given last.
pub proof fn lemma_written_over(a: Seq<u8>, b: Seq<u8>, c: Seq<u8>, fs: Seq<Field>, j: int, f: Field)
    requires
        written(a, b, fs),
        written(b, c, seq![f]),
        layout_ok(fs, a.len()),
        0 <= j < fs.len(),
        fs[j].lo == f.lo,
        fs[j].width == f.width,
    ensures
        written(a, c, fs.update(j, f)),
{
    let gs = fs.update(j, f);
    let one = seq![f];
    assert(one[0] == f);
    assert forall|k: int, i: int|
        #![trigger gs[k], bit(c, i)]
        0 <= k < gs.len() && covers(gs[k], i) implies bit(c, i) == bit_of(gs[k].value as nat, (i - gs[k].lo) as nat) by {
        if k == j {
            assert(gs[k] == one[0]);
        } else {
            assert(gs[k] == fs[k]);
            if k < j {
                assert(fs[k].lo + fs[k].width <= fs[j].lo || fs[j].lo + fs[j].width <= fs[k].lo);
            } else {
                assert(fs[j].lo + fs[j].width <= fs[k].lo || fs[k].lo + fs[k].width <= fs[j].lo);
            }
            assert(!covers(f, i));
            assert(bit(c, i) == bit(b, i));
        }
    }
    assert forall|i: int|
        #![trigger bit(c, i)]
        0 <= i < 8 * a.len() && (forall|k: int| 0 <= k < gs.len() ==> !covers(#[trigger] gs[k], i)) implies bit(c, i) == bit(a, i) by {
        assert(!covers(gs[j], i));
        assert(bit(c, i) == bit(b, i));
        assert forall|k: int| 0 <= k < fs.len() implies !covers(#[trigger] fs[k], i) by {
            assert(!covers(gs[k], i));
        }
        assert(bit(b, i) == bit(a, i));
    }
}

proof fn lemma_byte_eq(x: u8, y: u8)
    by (bit_vector)
    requires
        (x >> 0u8) & 1u8 == (y >> 0u8) & 1u8,
        (x >> 1u8) & 1u8 == (y >> 1u8) & 1u8,
        (x >> 2u8) & 1u8 == (y >> 2u8) & 1u8,
        (x >> 3u8) & 1u8 == (y >> 3u8) & 1u8,
        (x >> 4u8) & 1u8 == (y >> 4u8) & 1u8,
        (x >> 5u8) & 1u8 == (y >> 5u8) & 1u8,
        (x >> 6u8) & 1u8 == (y >> 6u8) & 1u8,
        (x >> 7u8) & 1u8 == (y >> 7u8) & 1u8,
    ensures
        x == y,
{
}

/// A byte none of whose bits was written keeps its value.
pub proof fn lemma_written_keeps_byte(a: Seq<u8>, b: Seq<u8>, fs: Seq<Field>, n: int)
    requires
        written(a, b, fs),
        0 <= n < a.len(),
        forall|j: int| #![trigger fs[j]] 0 <= j < fs.len() ==> fs[j].lo + fs[j].width <= 8 * n || 8 * n + 8 <= fs[j].lo,
    ensures
        b[n] == a[n],
{
    assert forall|k: int| 0 <= k < 8 implies #[trigger] bit(b, 8 * n + k) == bit(a, 8 * n + k) by {
        assert forall|j: int| 0 <= j < fs.len() implies !covers(#[trigger] fs[j], 8 * n + k) by {}
    }
    let x = b[n];
    let y = a[n];
    assert forall|k: int| 0 <= k < 8 implies (#[trigger] (x >> (k as u8))) & 1u8 == (y >> (k as u8)) & 1u8 by {
        assert(bit(b, 8 * n + k) == bit(a, 8 * n + k));
        assert((8 * n + k) / 8 == n && (8 * n + k) % 8 == k);
        lemma_low_bit(x >> (k as u8));
        lemma_low_bit(y >> (k as u8));
    }
    assert((x >> (0int as u8)) & 1u8 == (y >> (0int as u8)) & 1u8);
    assert((x >> (1int as u8)) & 1u8 == (y >> (1int as u8)) & 1u8);
    assert((x >> (2int as u8)) & 1u8 == (y >> (2int as u8)) & 1u8);
    assert((x >> (3int as u8)) & 1u8 == (y >> (3int as u8)) & 1u8);
    assert((x >> (4int as u8)) & 1u8 == (y >> (4int as u8)) & 1u8);
    assert((x >> (5int as u8)) & 1u8 == (y >> (5int as u8)) & 1u8);
    assert((x >> (6int as u8)) & 1u8 == (y >> (6int as u8)) & 1u8);
    assert((x >> (7int as u8)) & 1u8 == (y >> (7int as u8)) & 1u8);
    lemma_byte_eq(x, y);
}

/// Zero has no bit set.
pub proof fn lemma_bit_of_zero(k: nat)
    ensures
        !bit_of(0, k),
    decreases k,
{
    if k > 0 {
        lemma_bit_of_zero((k - 1) as nat);
    }
}

proof fn lemma_byte_zero(x: u8)
    by (bit_vector)
    requires
        (x >> 0u8) & 1u8 == 0u8,
        (x >> 1u8) & 1u8 == 0u8,
        (x >> 2u8) & 1u8 == 0u8,
        (x >> 3u8) & 1u8 == 0u8,
        (x >> 4u8) & 1u8 == 0u8,
        (x >> 5u8) & 1u8 == 0u8,
        (x >> 6u8) & 1u8 == 0u8,
        (x >> 7u8) & 1u8 == 0u8,
    ensures
        x == 0,
{
}

/// A byte without a set bit is zero.
pub proof fn lemma_zero_byte(s: Seq<u8>, n: int)
    requires
        0 <= n < s.len(),
        forall|i: int| 8 * n <= i < 8 * n + 8 ==> !#[trigger] bit(s, i),
    ensures
        s[n] == 0,
{
    let x = s[n];
    assert forall|k: int| 0 <= k < 8 implies (#[trigger] (x >> (k as u8))) & 1u8 == 0u8 by {
        assert(!bit(s, 8 * n + k));
        assert((8 * n + k) / 8 == n && (8 * n + k) % 8 == k);
        lemma_low_bit(x >> (k as u8));
    }
    assert((x >> (0int as u8)) & 1u8 == 0u8);
    assert((x >> (1int as u8)) & 1u8 == 0u8);
    assert((x >> (2int as u8)) & 1u8 == 0u8);
    assert((x >> (3int as u8)) & 1u8 == 0u8);
    assert((x >> (4int as u8)) & 1u8 == 0u8);
    assert((x >> (5int as u8)) & 1u8 == 0u8);
    assert((x >> (6int as u8)) & 1u8 == 0u8);
    assert((x >> (7int as u8)) & 1u8 == 0u8);
    lemma_byte_zero(x);
}

/// Two lots of fields, the first below bit `cut` and the second from there on.
pub proof fn lemma_written_both(a: Seq<u8>, b: Seq<u8>, c: Seq<u8>, fs: Seq<Field>, gs: Seq<Field>, cut: int)
    requires
        written(a, b, fs),
        written(b, c, gs),
        forall|j: int| #![trigger fs[j]] 0 <= j < fs.len() ==> fs[j].lo + fs[j].width <= cut && cut <= 8 * a.len(),
        forall|j: int| #![trigger gs[j]] 0 <= j < gs.len() ==> cut <= gs[j].lo,
    ensures
        written(a, c, fs + gs),
{
    let hs = fs + gs;
    assert forall|j: int, i: int|
        #![trigger hs[j], bit(c, i)]
        0 <= j < hs.len() && covers(hs[j], i) implies bit(c, i) == bit_of(hs[j].value as nat, (i - hs[j].lo) as nat) by {
        if j < fs.len() {
            assert(hs[j] == fs[j]);
            assert forall|k: int| 0 <= k < gs.len() implies !covers(#[trigger] gs[k], i) by {}
            assert(bit(c, i) == bit(b, i));
        } else {
            assert(hs[j] == gs[j - fs.len()]);
        }
    }
    assert forall|i: int|
        #![trigger bit(c, i)]
        0 <= i < 8 * a.len() && (forall|j: int| 0 <= j < hs.len() ==> !covers(#[trigger] hs[j], i)) implies bit(c, i) == bit(a, i) by {
        assert forall|k: int| 0 <= k < gs.len() implies !covers(#[trigger] gs[k], i) by {
            assert(hs[fs.len() + k] == gs[k]);
        }
        assert forall|k: int| 0 <= k < fs.len() implies !covers(#[trigger] fs[k], i) by {
            assert(hs[k] == fs[k]);
        }
        assert(bit(c, i) == bit(b, i));
        assert(bit(b, i) == bit(a, i));
    }
}

/// Reads the `width` bits of `buf` that start at bit `lo`.
pub fn get_bits(buf: &[u8], lo: usize, width: usize) -> (r: u64)
    requires
        width <= 64,
        lo + width <= 8 * buf@.len(),
        lo + width <= usize::MAX,
    ensures
        r == field(buf@, lo as int, width as nat),
        width < 64 ==> r < pow2(width as nat),
{
    let mut acc: u64 = 0;
    let mut left: usize = width;
    proof {
        lemma2_to64();
        lemma2_to64_rest();
    }
    while left > 0
        invariant
            width <= 64,
            left <= width,
            lo + width <= 8 * buf@.len(),
            lo + width <= usize::MAX,
            acc == field(buf@, lo + left, (width - left) as nat),
            pow2(64) == 0x1_0000_0000_0000_0000,
        decreases left,
    {
        proof {
            lemma_field_bound(buf@, lo + left, (width - left) as nat);
            lemma_field_bound(buf@, lo + left - 1, (width - left + 1) as nat);
            if width - left + 1 < 64 {
                lemma_pow2_strictly_increases((width - left + 1) as nat, 64);
            }
        }
        left = left - 1;
        let i: usize = lo + left;
        let byte: u8 = buf[i / 8];
        let one: u8 = (byte >> ((i % 8) as u8)) & 1u8;
        assert((byte >> ((i % 8) as u8)) & 1u8 <= 1u8) by {
            lemma_low_bit(byte >> ((i % 8) as u8));
        }
        assert(bit(buf@, i as int) <==> one == 1);
        assert(field(buf@, i as int, (width - left) as nat) == one as nat + 2 * acc);
        acc = acc * 2 + one as u64;
    }
    proof {
        lemma_field_bound(buf@, lo as int, width as nat);
    }
    acc
}

proof fn lemma_low_bit(x: u8)
    by (bit_vector)
    ensures
        x & 1u8 <= 1u8,
{
}

/// Puts the lowest `width` bits of `value` at bit `lo` of `buf`.
pub fn set_bits(buf: &mut [u8], lo: usize, width: usize, value: u64)
    requires
        width <= 64,
        lo + width <= 8 * old(buf)@.len(),
        lo + width <= usize::MAX,
    ensures
        written(old(buf)@, final(buf)@, seq![(Field { lo, width, value })]),
{
    let ghost start = buf@;
    let ghost f = Field { lo, width, value };
    let mut rest: u64 = value;
    let mut done: usize = 0;
    while done < width
        invariant
            width <= 64,
            done <= width,
            lo + width <= 8 * start.len(),
            lo + width <= usize::MAX,
            buf@.len() == start.len(),
            f == (Field { lo, width, value }),
            forall|k: nat| bit_of(value as nat, (done + k) as nat) == #[trigger] bit_of(rest as nat, k),
            forall|i: int| lo <= i < lo + done ==> #[trigger] bit(buf@, i) == bit_of(value as nat, (i - lo) as nat),
            forall|i: int| 0 <= i < 8 * start.len() && !(lo <= i < lo + done) ==> #[trigger] bit(buf@, i) == bit(start, i),
        decreases width - done,
    {
        let ghost before = buf@;
        let i: usize = lo + done;
        let k: u8 = (i % 8) as u8;
        let byte: u8 = buf[i / 8];
        let next: u8 = if rest % 2 == 1 { byte | (1u8 << k) } else { byte & !(1u8 << k) };
        buf[i / 8] = next;
        proof {
            assert(bit_of(value as nat, (done + 0) as nat) == bit_of(rest as nat, 0));
            assert forall|j: int| 0 <= j < 8 * start.len() implies #[trigger] bit(buf@, j) == (if j == i {
                rest % 2 == 1
            } else {
                bit(before, j)
            }) by {
                if j / 8 == i / 8 {
                    lemma_byte_bits(byte, k, (j % 8) as u8);
                    assert(j == i <==> j % 8 == k);
                }
            }
            assert forall|m: nat| bit_of(value as nat, (done + 1 + m) as nat) == #[trigger] bit_of((rest / 2) as nat, m) by {
                assert(bit_of(value as nat, (done + (m + 1)) as nat) == bit_of(rest as nat, m + 1));
                assert(rest as nat / 2 == (rest / 2) as nat);
            }
        }
        rest = rest / 2;
        done = done + 1;
    }
    proof {
        let fs = seq![f];
        assert(fs[0] == f);
        assert forall|i: int|
            #![trigger bit(buf@, i)]
            0 <= i < 8 * start.len() && (forall|j: int| 0 <= j < fs.len() ==> !covers(#[trigger] fs[j], i)) implies bit(buf@, i) == bit(start, i) by {
            assert(!covers(fs[0], i));
        }
    }
}

/// Writes all of the fields `fs`.
pub fn write_fields(buf: &mut [u8], fs: &[Field])
    requires
        layout_ok(fs@, old(buf)@.len()),
    ensures
        written(old(buf)@, final(buf)@, fs@),
{
    let ghost start = buf@;
    let mut i: usize = 0;
    proof {
        assert(fs@.take(0) =~= Seq::<Field>::empty());
        lemma_written_none(start);
    }
    while i < fs.len()
        invariant
            i <= fs@.len(),
            layout_ok(fs@, start.len()),
            written(start, buf@, fs@.take(i as int)),
        decreases fs@.len() - i,
    {
        let ghost before = buf@;
        let f: Field = fs[i];
        set_bits(buf, f.lo, f.width, f.value);
        proof {
            let done = fs@.take(i as int);
            assert(f == (Field { lo: f.lo, width: f.width, value: f.value }));
            assert(done.push(f) =~= fs@.take(i as int + 1));
            assert(layout_ok(done.push(f), start.len())) by {
                let gs = done.push(f);
                assert forall|j: int| #![trigger gs[j]] 0 <= j < gs.len() implies gs[j].width <= 64 && gs[j].lo + gs[j].width <= 8 * start.len()
                    && gs[j].lo + gs[j].width <= usize::MAX by {
                    assert(gs[j] == fs@[j]);
                }
                assert forall|j: int, k: int| #![trigger gs[j], gs[k]] 0 <= j < k < gs.len() implies gs[j].lo + gs[j].width <= gs[k].lo
                    || gs[k].lo + gs[k].width <= gs[j].lo by {
                    assert(gs[j] == fs@[j]);
                    assert(gs[k] == fs@[k]);
                }
            }
            lemma_written_push(start, before, buf@, done, f);
        }
        i = i + 1;
    }
    assert(fs@.take(i as int) =~= fs@);
}

/// The bits of a byte make the byte.
proof fn lemma_bits_make_byte(x: u8)
    by (bit_vector)
    ensures
        x == ((x >> 0u8) & 1u8) + 2 * ((x >> 1u8) & 1u8) + 4 * ((x >> 2u8) & 1u8) + 8 * ((x >> 3u8) & 1u8) + 16 * ((x
            >> 4u8) & 1u8) + 32 * ((x >> 5u8) & 1u8) + 64 * ((x >> 6u8) & 1u8) + 128 * ((x >> 7u8) & 1u8),
        ((x >> 0u8) & 1u8) <= 1,
        ((x >> 1u8) & 1u8) <= 1,
        ((x >> 2u8) & 1u8) <= 1,
        ((x >> 3u8) & 1u8) <= 1,
        ((x >> 4u8) & 1u8) <= 1,
        ((x >> 5u8) & 1u8) <= 1,
        ((x >> 6u8) & 1u8) <= 1,
        ((x >> 7u8) & 1u8) <= 1,
{
}

/// The field that a byte takes holds the byte.
pub proof fn law_byte_is_a_field(s: Seq<u8>, n: int)
    requires
        0 <= n < s.len(),
    ensures
        field(s, 8 * n, 8) == s[n],
{
    reveal_with_fuel(field, 9);
    let x = s[n];
    lemma_bits_make_byte(x);
    assert(bit(s, 8 * n) == ((x >> 0u8) & 1u8 == 1u8));
    assert(bit(s, 8 * n + 1) == ((x >> 1u8) & 1u8 == 1u8));
    assert(bit(s, 8 * n + 2) == ((x >> 2u8) & 1u8 == 1u8));
    assert(bit(s, 8 * n + 3) == ((x >> 3u8) & 1u8 == 1u8));
    assert(bit(s, 8 * n + 4) == ((x >> 4u8) & 1u8 == 1u8));
    assert(bit(s, 8 * n + 5) == ((x >> 5u8) & 1u8 == 1u8));
    assert(bit(s, 8 * n + 6) == ((x >> 6u8) & 1u8 == 1u8));
    assert(bit(s, 8 * n + 7) == ((x >> 7u8) & 1u8 == 1u8));
}

/// A field is made of the fields of its lower and of its upper bits.
pub proof fn law_fields_join(s: Seq<u8>, lo: int, a: nat, b: nat)
    ensures
        field(s, lo, a + b) == field(s, lo, a) + pow2(a) * field(s, lo + a, b),
    decreases a,
{
    if a == 0 {
        lemma2_to64();
        assert(field(s, lo, 0) == 0);
    } else {
        let rest = (a - 1) as nat;
        law_fields_join(s, lo + 1, rest, b);
        lemma_pow2_unfold(a);
        let x = field(s, lo + a, b);
        assert(2 * (pow2(rest) * x) == (2 * pow2(rest)) * x) by (nonlinear_arith);
        assert((a + b - 1) as nat == rest + b);
        assert(lo + 1 + rest == lo + a);
    }
}

} // verus!
