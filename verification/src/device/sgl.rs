//! Lists of scatter gather elements, and cutting bytes off their front.

use vstd::prelude::*;
use crate::device::work::DescSge;
#[allow(unused_imports)]
use crate::types::Key;

verus! {

/// How many bytes the elements hold.
pub open spec fn total_length(s: Seq<DescSge>) -> nat
    decreases s.len(),
{
    if s.len() == 0 {
        0
    } else {
        s[0].len as nat + total_length(s.drop_first())
    }
}

/// The address and the key of byte `k` of the elements.
pub open spec fn byte_at(s: Seq<DescSge>, k: nat) -> (int, Key)
    decreases s.len(),
{
    if s.len() == 0 {
        (0, Key::of(0))
    } else if k < s[0].len {
        ((s[0].addr + k) % 0x1_0000_0000_0000_0000, s[0].key)
    } else {
        byte_at(s.drop_first(), (k - s[0].len) as nat)
    }
}

/// The element after its first `n` bytes were cut off.
pub open spec fn shortened(e: DescSge, n: u32) -> DescSge {
    DescSge { addr: ((e.addr + n) % 0x1_0000_0000_0000_0000) as u64, len: (e.len - n) as u32, key: e.key }
}

/// The elements that hold the first `n` bytes.
pub open spec fn taken(s: Seq<DescSge>, n: nat) -> Seq<DescSge>
    decreases s.len(),
{
    if s.len() == 0 {
        Seq::empty()
    } else if s[0].len >= n {
        seq![(DescSge { len: n as u32, ..s[0] })]
    } else {
        seq![s[0]] + taken(s.drop_first(), (n - s[0].len) as nat)
    }
}

/// The elements after their first `n` bytes were cut off; one that gave all its
/// bytes stays where it is, without any.
pub open spec fn left(s: Seq<DescSge>, n: nat) -> Seq<DescSge>
    decreases s.len(),
{
    if s.len() == 0 {
        s
    } else if s[0].len >= n {
        seq![shortened(s[0], n as u32)] + s.drop_first()
    } else {
        seq![(DescSge { len: 0, ..s[0] })] + left(s.drop_first(), (n - s[0].len) as nat)
    }
}

/// How many of the elements give all their bytes to the first `n`.
pub open spec fn used_up(s: Seq<DescSge>, n: nat) -> nat
    decreases s.len(),
{
    if s.len() == 0 || s[0].len > n {
        0
    } else if s[0].len == n {
        1
    } else {
        1 + used_up(s.drop_first(), (n - s[0].len) as nat)
    }
}

/// Cutting splits the bytes: those taken are the first `n`, in order, and those
/// left are the others, in order.
pub proof fn law_cut_splits_bytes(s: Seq<DescSge>, n: nat, k: nat)
    requires
        n <= total_length(s),
        k < total_length(s),
    ensures
        total_length(taken(s, n)) == n,
        total_length(left(s, n)) == total_length(s) - n,
        k < n ==> byte_at(taken(s, n), k) == byte_at(s, k),
        k >= n ==> byte_at(left(s, n), (k - n) as nat) == byte_at(s, k),
    decreases s.len(),
{
    if s.len() == 0 {
    } else if s[0].len >= n {
        let t = taken(s, n);
        assert(t.drop_first() =~= Seq::<DescSge>::empty());
        assert(total_length(t.drop_first()) == 0);
        let l = left(s, n);
        assert(l.drop_first() =~= s.drop_first());
        assert(l[0] == shortened(s[0], n as u32));
        if k >= n && k < s[0].len {
            let a = s[0].addr as int;
            let m = 0x1_0000_0000_0000_0000int;
            let low = (a + n) % m;
            vstd::arithmetic::div_mod::lemma_add_mod_noop(a + n, k - n, m);
            assert((k - n) % m == k - n);
            assert((low + (k - n)) % m == (a + k) % m);
        }
    } else {
        let rest = s.drop_first();
        let n1 = (n - s[0].len) as nat;
        let t = taken(s, n);
        let l = left(s, n);
        assert(t.drop_first() =~= taken(rest, n1));
        assert(l.drop_first() =~= left(rest, n1));
        assert(l[0].len == 0);
        if total_length(rest) > 0 {
            if k >= s[0].len {
                law_cut_splits_bytes(rest, n1, (k - s[0].len) as nat);
            } else {
                law_cut_splits_bytes(rest, n1, 0);
            }
        }
    }
}

/// What is left after the first `n` bytes were cut off, without the elements
/// that gave all their bytes.
pub open spec fn rest_after(s: Seq<DescSge>, n: nat) -> Seq<DescSge> {
    left(s, n).subrange(used_up(s, n) as int, s.len() as int)
}

/// Cutting takes away as many bytes as were asked for.
pub proof fn lemma_rest_after(s: Seq<DescSge>, n: nat)
    requires
        n <= total_length(s),
    ensures
        left(s, n).len() == s.len(),
        used_up(s, n) <= s.len(),
        total_length(rest_after(s, n)) == total_length(s) - n,
    decreases s.len(),
{
    if s.len() == 0 {
        assert(rest_after(s, n) =~= s);
    } else if s[0].len >= n {
        let l = left(s, n);
        assert(l.drop_first() =~= s.drop_first());
        if s[0].len == n {
            assert(rest_after(s, n) =~= s.drop_first());
        } else {
            assert(rest_after(s, n) =~= l);
        }
    } else {
        let rest = s.drop_first();
        let n1 = (n - s[0].len) as nat;
        lemma_rest_after(rest, n1);
        assert(rest_after(s, n) =~= rest_after(rest, n1));
    }
}

/// What is left after a cut holds the bytes behind it, in order.
pub proof fn law_rest_keeps_bytes(s: Seq<DescSge>, n: nat, k: nat)
    requires
        n + k < total_length(s),
    ensures
        byte_at(rest_after(s, n), k) == byte_at(s, n + k),
    decreases s.len(),
{
    if s.len() == 0 {
    } else if s[0].len >= n {
        law_cut_splits_bytes(s, n, n + k);
        let l = left(s, n);
        assert(l.drop_first() =~= s.drop_first());
        if s[0].len == n {
            assert(rest_after(s, n) =~= s.drop_first());
        } else {
            assert(rest_after(s, n) =~= l);
        }
    } else {
        let rest = s.drop_first();
        let n1 = (n - s[0].len) as nat;
        lemma_rest_after(rest, n1);
        assert(rest_after(s, n) =~= rest_after(rest, n1));
        law_rest_keeps_bytes(rest, n1, k);
    }
}

/// A list of scatter gather elements, some of which may be used up
#[derive(Debug)]
pub struct SGList {
    /// The elements
    pub data: Vec<DescSge>,
    /// The first element that is not used up
    pub cur_level: u32,
    /// How many elements there are
    pub len: u32,
}

impl SGList {
    /// The elements that are not used up lie inside the list.
    pub open spec fn wf(&self) -> bool {
        self.cur_level <= self.len <= self.data@.len()
    }

    /// The elements that are not used up.
    pub open spec fn rest(&self) -> Seq<DescSge> {
        self.data@.subrange(self.cur_level as int, self.len as int)
    }

    /// A list of one element
    pub fn new_from_sge(sge: DescSge) -> (r: Self)
        ensures
            r.wf(),
            r.data@ == seq![sge],
            r.cur_level == 0,
            r.len == 1,
    {
        let mut data: Vec<DescSge> = Vec::new();
        data.push(sge);
        Self { data, cur_level: 0, len: 1 }
    }

    /// A list of the given elements
    pub fn from_sges(data: Vec<DescSge>) -> (r: Self)
        requires
            data@.len() <= u32::MAX,
        ensures
            r.wf(),
            r.data@ == data@,
            r.cur_level == 0,
            r.len == data@.len(),
            r.rest() == data@,
    {
        let len: u32 = data.len() as u32;
        let r = Self { data, cur_level: 0, len };
        assert(r.rest() =~= r.data@);
        r
    }

    /// How many bytes are left
    pub fn get_total_length(&self) -> (r: u32)
        requires
            self.wf(),
            total_length(self.rest()) <= u32::MAX,
        ensures
            r == total_length(self.rest()),
    {
        let mut sum: u32 = 0;
        let mut i: usize = self.len as usize;
        while i > self.cur_level as usize
            invariant
                self.wf(),
                self.cur_level <= i <= self.len,
                sum == total_length(self.data@.subrange(i as int, self.len as int)),
                total_length(self.rest()) <= u32::MAX,
            decreases i,
        {
            proof {
                let d = self.data@;
                let s = d.subrange(i - 1, self.len as int);
                assert(s.drop_first() =~= d.subrange(i as int, self.len as int));
                assert(s[0] == d[i - 1]);
                lemma_suffix_total(self.rest(), i - 1 - self.cur_level);
                assert(self.rest().subrange(i - 1 - self.cur_level, self.rest().len() as int) =~= s);
            }
            i = i - 1;
            sum = sum + self.data[i].len;
        }
        sum
    }
}

/// A tail of a list holds no more bytes than the list.
proof fn lemma_suffix_total(s: Seq<DescSge>, k: int)
    requires
        0 <= k <= s.len(),
    ensures
        total_length(s.subrange(k, s.len() as int)) <= total_length(s),
    decreases k,
{
    if k == 0 {
        assert(s.subrange(0, s.len() as int) =~= s);
    } else {
        let t = s.drop_first();
        lemma_suffix_total(t, k - 1);
        assert(t.subrange(k - 1, t.len() as int) =~= s.subrange(k, s.len() as int));
    }
}

/// The list after its first `n` bytes were cut off.
pub open spec fn cut_data(sgl: SGList, n: nat) -> Seq<DescSge> {
    sgl.data@.subrange(0, sgl.cur_level as int) + left(sgl.rest(), n) + sgl.data@.subrange(
        sgl.len as int,
        sgl.data@.len() as int,
    )
}

proof fn lemma_left_len(s: Seq<DescSge>, n: nat)
    ensures
        left(s, n).len() == s.len(),
    decreases s.len(),
{
    if s.len() > 0 && s[0].len < n {
        lemma_left_len(s.drop_first(), (n - s[0].len) as nat);
    }
}

/// Cuts the first `length` bytes off a list. There must be as many, and an
/// element that is not used up.
pub fn cut_from_sgl(length: u32, origin_sgl: &mut SGList) -> (r: SGList)
    requires
        old(origin_sgl).wf(),
        old(origin_sgl).cur_level < old(origin_sgl).len,
        length <= total_length(old(origin_sgl).rest()),
    ensures
        r.wf(),
        r.data@ == taken(old(origin_sgl).rest(), length as nat),
        r.len == r.data@.len(),
        r.cur_level == 0,
        final(origin_sgl).wf(),
        final(origin_sgl).data@ == cut_data(*old(origin_sgl), length as nat),
        final(origin_sgl).len == old(origin_sgl).len,
        final(origin_sgl).cur_level == old(origin_sgl).cur_level + used_up(old(origin_sgl).rest(), length as nat),
{
    let ghost start = *origin_sgl;
    let ghost whole = start.rest();
    let ghost before = start.data@.subrange(0, start.cur_level as int);
    let ghost after = start.data@.subrange(start.len as int, start.data@.len() as int);
    let mut current_level: usize = origin_sgl.cur_level as usize;
    let mut data: Vec<DescSge> = Vec::new();
    let mut length: u32 = length;
    let ghost n0 = length as nat;
    let ghost mut passed: Seq<DescSge> = Seq::empty();
    proof {
        assert(origin_sgl.data@ =~= before + passed + whole + after);
        assert(data@ + taken(whole, n0) =~= taken(whole, n0));
        assert(passed + left(whole, n0) =~= left(whole, n0));
    }
    let mut done: bool = false;
    let mut next_level: usize = current_level;
    while !done
        invariant
            start == *old(origin_sgl),
            start.wf(),
            n0 <= u32::MAX,
            whole == start.rest(),
            before == start.data@.subrange(0, start.cur_level as int),
            after == start.data@.subrange(start.len as int, start.data@.len() as int),
            origin_sgl.len == start.len,
            origin_sgl.cur_level == start.cur_level,
            origin_sgl.data@.len() == start.data@.len(),
            !done ==> ({
                let rest = start.data@.subrange(current_level as int, start.len as int);
                &&& start.cur_level <= current_level < start.len
                &&& passed.len() == current_level - start.cur_level
                &&& data@.len() == passed.len()
                &&& length <= total_length(rest)
                &&& origin_sgl.data@ == before + passed + rest + after
                &&& data@ + taken(rest, length as nat) == taken(whole, n0)
                &&& passed + left(rest, length as nat) == left(whole, n0)
                &&& passed.len() + used_up(rest, length as nat) == used_up(whole, n0)
            }),
            done ==> data@ == taken(whole, n0) && data@.len() <= start.len && origin_sgl.data@ == before + left(whole, n0) + after
                && next_level == start.cur_level + used_up(whole, n0) && next_level <= start.len,
        decreases start.len - current_level + (if done { 0int } else { 1int }),
    {
        let ghost rest = start.data@.subrange(current_level as int, start.len as int);
        let elem: DescSge = origin_sgl.data[current_level];
        assert(elem == rest[0]) by {
            assert(origin_sgl.data@[current_level as int] == (before + passed + rest + after)[current_level as int]);
        }
        if elem.len >= length {
            data.push(DescSge { addr: elem.addr, len: length, key: elem.key });
            let cut = DescSge { addr: elem.addr.wrapping_add(length as u64), len: elem.len - length, key: elem.key };
            assert(cut == shortened(elem, length as u32)) by {
                if elem.addr + length > u64::MAX {
                    assert(elem.addr + length - 0x1_0000_0000_0000_0000 < 0x1_0000_0000_0000_0000);
                }
            }
            origin_sgl.data.set(current_level, cut);
            proof {
                assert(data@ =~= taken(whole, n0));
                assert(origin_sgl.data@ =~= before + (passed + left(rest, length as nat)) + after);
                lemma_left_len(whole, n0);
            }
            next_level = if elem.len == length { current_level + 1 } else { current_level };
            done = true;
        } else {
            data.push(elem);
            let empty = DescSge { addr: elem.addr, len: 0, key: elem.key };
            origin_sgl.data.set(current_level, empty);
            proof {
                let rest1 = rest.drop_first();
                let n1 = (length - elem.len) as nat;
                assert(rest1 =~= start.data@.subrange(current_level + 1, start.len as int));
                let passed1 = passed.push(empty);
                assert(origin_sgl.data@ =~= before + passed1 + rest1 + after);
                assert(data@ + taken(rest1, n1) =~= (data@.drop_last() + taken(rest, length as nat)));
                assert(data@.drop_last() + taken(rest, length as nat) == taken(whole, n0));
                assert(passed1 + left(rest1, n1) =~= passed + left(rest, length as nat));
                if rest1.len() == 0 {
                    assert(total_length(rest) == elem.len + total_length(rest1));
                    assert(false);
                }
                passed = passed1;
            }
            length = length - elem.len;
            current_level = current_level + 1;
        }
    }
    origin_sgl.cur_level = next_level as u32;
    proof {
        lemma_left_len(whole, n0);
    }
    let len: u32 = data.len() as u32;
    SGList { data, cur_level: 0, len }
}

/// A piece of memory that is part of a payload
#[derive(Debug, Clone, Copy, PartialEq, Eq, Structural)]
pub struct SliceInfo {
    /// Where it starts
    pub data: u64,
    /// How many bytes it has
    pub len: u32,
}

/// The pieces of memory that make a packet's payload
#[derive(Debug)]
pub struct PayloadInfo {
    sg_list: Vec<SliceInfo>,
    total_len: u32,
}

/// The piece of memory of an element.
pub open spec fn slice_of(e: DescSge) -> SliceInfo {
    SliceInfo { data: e.addr, len: e.len }
}

/// Where byte `j` of a payload comes from.
pub open spec fn address_in(payload: Seq<SliceInfo>, j: nat) -> int
    decreases payload.len(),
{
    if payload.len() == 0 {
        0
    } else if j < payload[0].len {
        (payload[0].data + j) % 0x1_0000_0000_0000_0000
    } else {
        address_in(payload.drop_first(), (j - payload[0].len) as nat)
    }
}

/// The memory of elements is that of their bytes, in order.
pub proof fn law_slices_keep_bytes(s: Seq<DescSge>, j: nat)
    requires
        j < total_length(s),
    ensures
        address_in(s.map_values(|e: DescSge| slice_of(e)), j) == byte_at(s, j).0,
    decreases s.len(),
{
    if s.len() > 0 {
        let t = s.map_values(|e: DescSge| slice_of(e));
        assert(t[0] == slice_of(s[0]));
        assert(t.drop_first() =~= s.drop_first().map_values(|e: DescSge| slice_of(e)));
        if j >= s[0].len {
            law_slices_keep_bytes(s.drop_first(), (j - s[0].len) as nat);
        }
    }
}

impl View for PayloadInfo {
    type V = Seq<SliceInfo>;

    closed spec fn view(&self) -> Seq<SliceInfo> {
        self.sg_list@
    }
}

impl PayloadInfo {
    /// How many bytes the payload has
    pub closed spec fn length(&self) -> u32 {
        self.total_len
    }

    /// No payload
    pub fn new() -> (r: Self)
        ensures
            r@ == Seq::<SliceInfo>::empty(),
            r.length() == 0,
    {
        Self { sg_list: Vec::new(), total_len: 0 }
    }

    /// The payload of the given elements
    pub fn from_sgl(sgl: &SGList, total_len: u32) -> (r: Self)
        ensures
            r@ == sgl.data@.map_values(|e: DescSge| slice_of(e)),
            r.length() == total_len,
    {
        let mut sg_list: Vec<SliceInfo> = Vec::new();
        let mut i: usize = 0;
        while i < sgl.data.len()
            invariant
                i <= sgl.data@.len(),
                sg_list@.len() == i,
                forall|k: int| 0 <= k < i ==> #[trigger] sg_list@[k] == slice_of(sgl.data@[k]),
            decreases sgl.data@.len() - i,
        {
            let e: DescSge = sgl.data[i];
            sg_list.push(SliceInfo { data: e.addr, len: e.len });
            i = i + 1;
        }
        assert(sg_list@ =~= sgl.data@.map_values(|e: DescSge| slice_of(e)));
        Self { sg_list, total_len }
    }

    /// How many bytes the payload has
    pub fn get_length(&self) -> (r: u32)
        ensures
            r == self.length(),
    {
        self.total_len
    }

    /// The pieces of memory
    pub fn get_sg_list(&self) -> (r: &Vec<SliceInfo>)
        ensures
            r@ == self@,
    {
        &self.sg_list
    }
}

impl SGList {
    /// Cuts a payload of `length` bytes off the list; none if there are not as
    /// many.
    pub fn cut(&mut self, length: u32) -> (r: Option<PayloadInfo>)
        requires
            old(self).wf(),
            total_length(old(self).rest()) <= u32::MAX,
        ensures
            final(self).wf(),
            final(self).len == old(self).len,
            ({
                let rest = old(self).rest();
                if rest.len() > 0 && length <= total_length(rest) {
                    &&& r is Some
                    &&& (r->0)@ == taken(rest, length as nat).map_values(|e: DescSge| slice_of(e))
                    &&& (r->0).length() == length
                    &&& final(self).data@ == cut_data(*old(self), length as nat)
                    &&& final(self).cur_level == old(self).cur_level + used_up(rest, length as nat)
                    &&& final(self).rest() == rest_after(rest, length as nat)
                } else {
                    &&& r is None
                    &&& *final(self) == *old(self)
                }
            }),
    {
        if self.cur_level >= self.len {
            return None;
        }
        let total: u32 = self.get_total_length();
        if length > total {
            return None;
        }
        let ghost rest = self.rest();
        let part: SGList = cut_from_sgl(length, self);
        proof {
            lemma_rest_after(rest, length as nat);
            assert(self.rest() =~= rest_after(rest, length as nat));
        }
        Some(PayloadInfo::from_sgl(&part, length))
    }

    /// Cuts off all that is left.
    pub fn cut_all_levels(&mut self) -> (r: PayloadInfo)
        requires
            old(self).wf(),
            total_length(old(self).rest()) <= u32::MAX,
        ensures
            final(self).wf(),
            final(self).len == old(self).len,
            final(self).cur_level == old(self).len,
            r@ == old(self).rest().map_values(|e: DescSge| slice_of(e)),
            r.length() == total_length(old(self).rest()),
            final(self).rest().len() == 0,
            final(self).data@.len() == old(self).data@.len(),
            forall|k: int|
                #![trigger final(self).data@[k]]
                0 <= k < final(self).data@.len() ==> final(self).data@[k] == (if old(self).cur_level <= k < old(self).len {
                    DescSge { len: 0, ..old(self).data@[k] }
                } else {
                    old(self).data@[k]
                }),
    {
        let ghost start = *self;
        let total_len: u32 = self.get_total_length();
        let mut sg_list: Vec<SliceInfo> = Vec::new();
        let mut level: usize = self.cur_level as usize;
        while level < self.len as usize
            invariant
                start == *old(self),
                start.wf(),
                self.len == start.len,
                self.cur_level == start.cur_level,
                self.data@.len() == start.data@.len(),
                start.cur_level <= level <= start.len,
                sg_list@.len() == level - start.cur_level,
                forall|k: int| 0 <= k < sg_list@.len() ==> #[trigger] sg_list@[k] == slice_of(start.rest()[k]),
                forall|k: int|
                    #![trigger self.data@[k]]
                    0 <= k < self.data@.len() ==> self.data@[k] == (if start.cur_level <= k < level {
                        DescSge { len: 0, ..start.data@[k] }
                    } else {
                        start.data@[k]
                    }),
            decreases start.len - level,
        {
            let e: DescSge = self.data[level];
            assert(e == start.rest()[level - start.cur_level]);
            sg_list.push(SliceInfo { data: e.addr, len: e.len });
            self.data.set(level, DescSge { addr: e.addr, len: 0, key: e.key });
            level = level + 1;
        }
        self.cur_level = self.len;
        assert(sg_list@ =~= start.rest().map_values(|e: DescSge| slice_of(e)));
        PayloadInfo { sg_list, total_len }
    }
}

} // verus!
