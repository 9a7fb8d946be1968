//! Which packets of a message have been received.

use vstd::prelude::*;
use crate::types::{Psn, PSN_MAX_WINDOW_SIZE};
#[allow(unused_imports)]
use crate::types::{add24, sub24};

verus! {

/// An interval of packets, by their distance from the first one: its first and
/// its last packet.
pub type Interval = (u32, u32);

/// What a window has recorded
pub struct WindowView {
    /// The intervals of received packets, by ascending first packet
    pub intervals: Seq<Interval>,
    /// The number of the first packet of the message
    pub start: u32,
    /// How many packets the message has
    pub count: u32,
}

/// The packet at distance `x` has been received.
pub open spec fn covered(s: Seq<Interval>, x: int) -> bool {
    exists|k: int| 0 <= k < s.len() && (#[trigger] s[k]).0 <= x <= s[k].1
}

/// The first packets ascend, and no interval leaves the window.
pub open spec fn ascending(s: Seq<Interval>) -> bool {
    &&& forall|j: int, k: int| #![trigger s[j], s[k]] 0 <= j < k < s.len() ==> s[j].0 < s[k].0
    &&& forall|j: int|
        #![trigger s[j]]
        0 <= j < s.len() ==> s[j].0 < PSN_MAX_WINDOW_SIZE && s[j].1 < PSN_MAX_WINDOW_SIZE
}

/// The intervals neither overlap nor touch, and none is empty.
pub open spec fn separated(s: Seq<Interval>) -> bool {
    &&& forall|j: int, k: int| #![trigger s[j], s[k]] 0 <= j < k < s.len() ==> s[j].1 + 1 < s[k].0
    &&& forall|j: int| #![trigger s[j]] 0 <= j < s.len() ==> s[j].0 <= s[j].1
}

/// How many of the first intervals start at or before `x`.
pub open spec fn upto(s: Seq<Interval>, x: u32) -> nat
    decreases s.len(),
{
    if s.len() == 0 || s.last().0 <= x {
        s.len()
    } else {
        upto(s.drop_last(), x)
    }
}

/// The interval `new` among those that start elsewhere.
pub open spec fn put(s: Seq<Interval>, new: Interval) -> Seq<Interval> {
    let i = upto(s, new.0) as int;
    if i > 0 && s[i - 1].0 == new.0 {
        s.update(i - 1, new)
    } else {
        s.insert(i, new)
    }
}

/// `s` after the packets from `l` to `r` were received. They join the interval
/// before them where they touch it, and the next one after their first packet
/// where they reach it: then the joined interval ends where that one ended.
pub open spec fn merged(s: Seq<Interval>, l: u32, r: u32) -> Seq<Interval> {
    let i = upto(s, l) as int;
    let left = i > 0 && l <= s[i - 1].1 + 1;
    let right = i < s.len() && r >= s[i].0 - 1;
    if i > 0 && r <= s[i - 1].1 {
        s
    } else if left && right {
        s.update(i - 1, (s[i - 1].0, s[i].1)).remove(i)
    } else if left {
        s.update(i - 1, (s[i - 1].0, r))
    } else if right {
        put(s.remove(i), (l, s[i].1))
    } else {
        put(s, (l, r))
    }
}

/// The range of packets from `from` to `to` does not run backwards, as far as a
/// window that starts at `start` records it.
pub open spec fn forward(start: u32, from: u32, to: u32) -> bool {
    let l = sub24(from as int, start as int);
    let r = sub24(to as int, start as int);
    l < PSN_MAX_WINDOW_SIZE && r < PSN_MAX_WINDOW_SIZE ==> l <= r
}

impl WindowView {
    /// Every packet of the message has been received.
    pub open spec fn complete(self) -> bool {
        self.intervals.len() > 0 && self.intervals[0] == (0u32, (self.count - 1) as u32)
    }

    /// Some packet is missing before one that has been received.
    pub open spec fn out_of_order(self) -> bool {
        !self.complete() && self.intervals.len() > 1
    }

    /// The first packet of the message has been received.
    pub open spec fn has_start(self) -> bool {
        self.intervals.len() > 0 && self.intervals[0].0 == 0
    }

    /// The packet from which to go on, where the packets up to it are in order.
    pub open spec fn recover_psn(self) -> Option<u32> {
        if self.has_start() && !self.out_of_order() {
            Some(add24(self.start as int, self.intervals[0].1 + 1))
        } else {
            None
        }
    }

    /// The number of the last packet of the message.
    pub open spec fn last_psn(self) -> u32 {
        add24(self.start as int, self.count - 1)
    }

    /// The window after the packets with the numbers from `from` to `to` were
    /// received. A complete window stays as it is, and packets that lie half of
    /// the number range or more from the first one are not recorded.
    pub open spec fn inserted(self, from: u32, to: u32) -> WindowView {
        let l = sub24(from as int, self.start as int);
        let r = sub24(to as int, self.start as int);
        if self.complete() || l >= PSN_MAX_WINDOW_SIZE || r >= PSN_MAX_WINDOW_SIZE {
            self
        } else {
            WindowView { intervals: merged(self.intervals, l, r), ..self }
        }
    }

    /// A window in which nothing has been received.
    pub open spec fn fresh(start: u32, count: u32) -> WindowView {
        WindowView { intervals: Seq::empty(), start, count }
    }
}

/// `upto` splits the intervals at `x`.
pub proof fn lemma_upto(s: Seq<Interval>, x: u32)
    requires
        ascending(s),
    ensures
        upto(s, x) <= s.len(),
        forall|k: int| #![trigger s[k]] 0 <= k < upto(s, x) ==> s[k].0 <= x,
        forall|k: int| #![trigger s[k]] upto(s, x) <= k < s.len() ==> s[k].0 > x,
    decreases s.len(),
{
    if s.len() > 0 && s.last().0 > x {
        let t = s.drop_last();
        assert forall|k: int| #![trigger t[k]] 0 <= k < t.len() implies t[k] == s[k] by {}
        assert(ascending(t)) by {
            assert forall|j: int, k: int| #![trigger t[j], t[k]] 0 <= j < k < t.len() implies t[j].0 < t[k].0 by {
                assert(s[j].0 < s[k].0);
            }
            assert forall|j: int| #![trigger t[j]] 0 <= j < t.len() implies t[j].0 < PSN_MAX_WINDOW_SIZE && t[j].1
                < PSN_MAX_WINDOW_SIZE by {
                assert(s[j].0 < PSN_MAX_WINDOW_SIZE);
            }
        }
        lemma_upto(t, x);
        assert forall|k: int| #![trigger s[k]] 0 <= k < upto(s, x) implies s[k].0 <= x by {
            assert(t[k].0 <= x);
        }
        assert forall|k: int| #![trigger s[k]] upto(s, x) <= k < s.len() implies s[k].0 > x by {
            if k < t.len() {
                assert(t[k].0 > x);
            }
        }
    } else if s.len() > 0 {
        assert forall|k: int| #![trigger s[k]] 0 <= k < s.len() implies s[k].0 <= x by {
            assert(s[s.len() - 1] == s.last());
        }
    }
}

/// The split of `upto` is the only one.
proof fn lemma_upto_is(s: Seq<Interval>, x: u32, i: nat)
    requires
        ascending(s),
        i <= s.len(),
        i > 0 ==> s[i - 1].0 <= x,
        i < s.len() ==> s[i as int].0 > x,
    ensures
        upto(s, x) == i,
{
    lemma_upto(s, x);
    let u = upto(s, x);
    if u < i {
        assert(s[i - 1].0 > x);
    } else if u > i {
        assert(s[i as int].0 <= x);
    }
}

/// Recording packets keeps the intervals ascending.
pub proof fn lemma_merged_ascending(s: Seq<Interval>, l: u32, r: u32)
    requires
        ascending(s),
        l < PSN_MAX_WINDOW_SIZE,
        r < PSN_MAX_WINDOW_SIZE,
    ensures
        ascending(merged(s, l, r)),
{
    lemma_upto(s, l);
    let i = upto(s, l) as int;
    let right = i < s.len() && r >= s[i].0 - 1;
    let left = i > 0 && l <= s[i - 1].1 + 1;
    if right && !left {
        let t = s.remove(i);
        assert(ascending(t));
        lemma_upto_is(t, l, i as nat);
    }
}

/// `t` is `s` after the packets from `l` to `r` were received, where the first `i`
/// intervals start at or before `l`.
spec fn joined(s: Seq<Interval>, t: Seq<Interval>, i: int, l: u32, r: u32) -> bool {
    let right = i < s.len() && r >= s[i].0 - 1;
    let left = i > 0 && l <= s[i - 1].1 + 1;
    &&& 0 <= i <= s.len()
    &&& l <= r < PSN_MAX_WINDOW_SIZE
    &&& i > 0 ==> s[i - 1].0 <= l && s[i - 1].0 <= s[i - 1].1
    &&& i < s.len() ==> l < s[i].0
    &&& if i > 0 && r <= s[i - 1].1 {
        t == s
    } else if left && right {
        t == s.update(i - 1, (s[i - 1].0, s[i].1)).remove(i)
    } else if left {
        t == s.update(i - 1, (s[i - 1].0, r))
    } else if right {
        t == s.update(i, (l, s[i].1))
    } else {
        t == s.insert(i, (l, r))
    }
}

/// What an insertion makes of the intervals.
proof fn lemma_merged_is(s: Seq<Interval>, l: u32, r: u32)
    requires
        ascending(s),
        separated(s),
        l <= r < PSN_MAX_WINDOW_SIZE,
    ensures
        joined(s, merged(s, l, r), upto(s, l) as int, l, r),
{
    lemma_upto(s, l);
    let i = upto(s, l) as int;
    let right = i < s.len() && r >= s[i].0 - 1;
    let left = i > 0 && l <= s[i - 1].1 + 1;
    if i > 0 {
        assert(s[i - 1].0 <= l && s[i - 1].0 <= s[i - 1].1);
    }
    if right && !left {
        let u = s.remove(i);
        assert(ascending(u));
        lemma_upto_is(u, l, i as nat);
        if i > 0 {
            assert(u[i - 1] == s[i - 1]);
        }
        assert(put(u, (l, s[i].1)) == u.insert(i, (l, s[i].1)));
        assert(u.insert(i, (l, s[i].1)) =~= s.update(i, (l, s[i].1)));
    }
}

/// Recording packets keeps the intervals apart, as long as the range is not
/// empty.
pub proof fn law_window_keeps_apart(s: Seq<Interval>, l: u32, r: u32)
    requires
        ascending(s),
        separated(s),
        l <= r < PSN_MAX_WINDOW_SIZE,
    ensures
        separated(merged(s, l, r)),
{
    lemma_merged_is(s, l, r);
    lemma_joined_apart(s, merged(s, l, r), upto(s, l) as int, l, r);
}

proof fn lemma_joined_apart(s: Seq<Interval>, t: Seq<Interval>, i: int, l: u32, r: u32)
    requires
        separated(s),
        joined(s, t, i, l, r),
    ensures
        separated(t),
{
    let right = i < s.len() && r >= s[i].0 - 1;
    let left = i > 0 && l <= s[i - 1].1 + 1;
    if i > 0 && i < s.len() {
        assert(s[i - 1].1 + 1 < s[i].0);
    }
    if i > 0 && r <= s[i - 1].1 {
    } else if left && right {
        assert forall|j: int| #![trigger t[j]] 0 <= j < t.len() implies t[j] == (if j < i - 1 {
            s[j]
        } else if j == i - 1 {
            (s[i - 1].0, s[i].1)
        } else {
            s[j + 1]
        }) by {}
    } else if !left && !right {
        assert forall|j: int| #![trigger t[j]] 0 <= j < t.len() implies t[j] == (if j < i {
            s[j]
        } else if j == i {
            (l, r)
        } else {
            s[j - 1]
        }) by {}
    }
}

/// A window never claims more than was received: a packet that counts as
/// received after an insertion was received before it or lies in the inserted
/// range.
pub proof fn law_window_sound(s: Seq<Interval>, l: u32, r: u32, x: int)
    requires
        ascending(s),
        separated(s),
        l <= r < PSN_MAX_WINDOW_SIZE,
        covered(merged(s, l, r), x),
    ensures
        covered(s, x) || l <= x <= r,
{
    let t = merged(s, l, r);
    let k = choose|k: int| 0 <= k < t.len() && (#[trigger] t[k]).0 <= x <= t[k].1;
    lemma_merged_is(s, l, r);
    let m = lemma_came_from(s, t, upto(s, l) as int, l, r, k, x);
    if !(l <= x <= r) {
        lemma_covered_by(s, m, x);
    }
}

/// Where a packet in interval `k` after an insertion was before it, unless it is
/// one of those that were inserted.
proof fn lemma_came_from(s: Seq<Interval>, t: Seq<Interval>, i: int, l: u32, r: u32, k: int, x: int) -> (m: int)
    requires
        joined(s, t, i, l, r),
        0 <= k < t.len(),
        t[k].0 <= x <= t[k].1,
    ensures
        l <= x <= r || (0 <= m < s.len() && s[m].0 <= x <= s[m].1),
{
    let right = i < s.len() && r >= s[i].0 - 1;
    let left = i > 0 && l <= s[i - 1].1 + 1;
    if i > 0 && r <= s[i - 1].1 {
        k
    } else if left && right {
        if k < i - 1 {
            k
        } else if k == i - 1 {
            if x <= s[i - 1].1 {
                i - 1
            } else {
                i
            }
        } else {
            k + 1
        }
    } else if left || right || k <= i {
        k
    } else {
        k - 1
    }
}

/// Where a packet in interval `m` before an insertion is after it.
proof fn lemma_went_to(s: Seq<Interval>, t: Seq<Interval>, i: int, l: u32, r: u32, m: int, x: int) -> (k: int)
    requires
        joined(s, t, i, l, r),
        0 <= m < s.len(),
        s[m].0 <= x <= s[m].1,
        0 < i < s.len() ==> s[i - 1].1 < s[i].0 <= s[i].1,
    ensures
        0 <= k < t.len() && t[k].0 <= x <= t[k].1,
{
    let right = i < s.len() && r >= s[i].0 - 1;
    let left = i > 0 && l <= s[i - 1].1 + 1;
    if i > 0 && r <= s[i - 1].1 {
        m
    } else if left && right {
        if m < i {
            m
        } else {
            m - 1
        }
    } else if left || right || m < i {
        m
    } else {
        m + 1
    }
}

/// Where an inserted packet is, unless the range runs past the end of the
/// interval that it reaches.
proof fn lemma_put_to(s: Seq<Interval>, t: Seq<Interval>, i: int, l: u32, r: u32, x: int) -> (k: int)
    requires
        joined(s, t, i, l, r),
        l <= x <= r,
        i < s.len() && r >= s[i].0 - 1 ==> r <= s[i].1,
    ensures
        0 <= k < t.len() && t[k].0 <= x <= t[k].1,
{
    if i > 0 && l <= s[i - 1].1 + 1 {
        i - 1
    } else {
        i
    }
}

/// An interval that holds `x` shows that `x` was received.
proof fn lemma_covered_by(s: Seq<Interval>, k: int, x: int)
    requires
        0 <= k < s.len(),
        s[k].0 <= x <= s[k].1,
    ensures
        covered(s, x),
{
}

/// A window never forgets: what counted as received still does after an
/// insertion. What was inserted counts too, unless the range runs past the end
/// of the interval that it reaches.
pub proof fn law_window_keeps(s: Seq<Interval>, l: u32, r: u32, x: int)
    requires
        ascending(s),
        separated(s),
        l <= r < PSN_MAX_WINDOW_SIZE,
        covered(s, x) || (l <= x <= r && (upto(s, l) < s.len() && r >= s[upto(s, l) as int].0 - 1 ==> r
            <= s[upto(s, l) as int].1)),
    ensures
        covered(merged(s, l, r), x),
{
    let t = merged(s, l, r);
    let i = upto(s, l) as int;
    lemma_merged_is(s, l, r);
    if covered(s, x) {
        let m = choose|m: int| 0 <= m < s.len() && (#[trigger] s[m]).0 <= x <= s[m].1;
        if 0 < i < s.len() {
            assert(s[i - 1].1 + 1 < s[i].0);
        }
        let k = lemma_went_to(s, t, i, l, r, m, x);
        lemma_covered_by(t, k, x);
    } else {
        let k = lemma_put_to(s, t, i, l, r, x);
        lemma_covered_by(t, k, x);
    }
}

/// What was received has one form as intervals that neither overlap nor touch:
/// they are its longest runs.
pub proof fn law_runs_are_unique(s: Seq<Interval>, t: Seq<Interval>)
    requires
        separated(s),
        separated(t),
        forall|x: int| covered(s, x) <==> covered(t, x),
    ensures
        s == t,
    decreases s.len(),
{
    if s.len() == 0 {
        if t.len() > 0 {
            lemma_covered_by(t, 0, t[0].0 as int);
            assert(covered(s, t[0].0 as int));
        }
        assert(s =~= t);
    } else {
        let n = s.len() - 1;
        lemma_covered_by(s, n, s[n].0 as int);
        assert(covered(t, s[n].0 as int));
        assert(t.len() > 0);
        let m = t.len() - 1;
        lemma_last_run(s, t);
        lemma_last_run(t, s);
        assert(s[n].1 == t[m].1);
        lemma_last_run_starts(s, t);
        lemma_last_run_starts(t, s);
        let s0 = s.drop_last();
        let t0 = t.drop_last();
        assert forall|x: int| covered(s0, x) <==> covered(t0, x) by {
            lemma_covered_before_last(s, x);
            lemma_covered_before_last(t, x);
        }
        assert(separated(s0)) by {
            assert forall|j: int, k: int| #![trigger s0[j], s0[k]] 0 <= j < k < s0.len() implies s0[j].1 + 1
                < s0[k].0 by {
                assert(s[j].1 + 1 < s[k].0);
            }
            assert forall|j: int| #![trigger s0[j]] 0 <= j < s0.len() implies s0[j].0 <= s0[j].1 by {
                assert(s[j].0 <= s[j].1);
            }
        }
        assert(separated(t0)) by {
            assert forall|j: int, k: int| #![trigger t0[j], t0[k]] 0 <= j < k < t0.len() implies t0[j].1 + 1
                < t0[k].0 by {
                assert(t[j].1 + 1 < t[k].0);
            }
            assert forall|j: int| #![trigger t0[j]] 0 <= j < t0.len() implies t0[j].0 <= t0[j].1 by {
                assert(t[j].0 <= t[j].1);
            }
        }
        law_runs_are_unique(s0, t0);
        assert(s =~= s0.push(s[n]));
        assert(t =~= t0.push(t[m]));
    }
}

/// The last run of `s` ends no later than that of `t`.
proof fn lemma_last_run(s: Seq<Interval>, t: Seq<Interval>)
    requires
        separated(s),
        separated(t),
        s.len() > 0,
        t.len() > 0,
        forall|x: int| covered(s, x) <==> covered(t, x),
    ensures
        s.last().1 <= t.last().1,
{
    let e = s.last().1 as int;
    assert(s[s.len() - 1].0 <= e <= s[s.len() - 1].1);
    lemma_covered_by(s, s.len() - 1, e);
    assert(covered(t, e));
    let k = choose|k: int| 0 <= k < t.len() && (#[trigger] t[k]).0 <= e <= t[k].1;
    if k < t.len() - 1 {
        assert(t[k].1 + 1 < t[t.len() - 1].0);
        assert(t[t.len() - 1].0 <= t[t.len() - 1].1);
    }
}

/// The last run of `t` starts no later than that of `s`, where both end alike.
proof fn lemma_last_run_starts(s: Seq<Interval>, t: Seq<Interval>)
    requires
        separated(s),
        separated(t),
        s.len() > 0,
        t.len() > 0,
        s.last().1 == t.last().1,
        forall|x: int| covered(s, x) <==> covered(t, x),
    ensures
        t.last().0 <= s.last().0,
{
    let c = t.last().0 as int;
    assert(t[t.len() - 1].0 <= t[t.len() - 1].1);
    if s.last().0 < c {
        lemma_covered_by(s, s.len() - 1, c - 1);
        assert(covered(t, c - 1));
        let k = choose|k: int| 0 <= k < t.len() && (#[trigger] t[k]).0 <= c - 1 <= t[k].1;
        if k < t.len() - 1 {
            assert(t[k].1 + 1 < t[t.len() - 1].0);
        }
        assert(false);
    }
}

/// What the runs before the last one hold lies before the last one.
proof fn lemma_covered_before_last(s: Seq<Interval>, x: int)
    requires
        separated(s),
        s.len() > 0,
    ensures
        covered(s.drop_last(), x) <==> covered(s, x) && x < s.last().0,
{
    let t = s.drop_last();
    if covered(t, x) {
        let k = choose|k: int| 0 <= k < t.len() && (#[trigger] t[k]).0 <= x <= t[k].1;
        assert(t[k] == s[k]);
        assert(s[k].1 + 1 < s[s.len() - 1].0);
        lemma_covered_by(s, k, x);
    }
    if covered(s, x) && x < s.last().0 {
        let k = choose|k: int| 0 <= k < s.len() && (#[trigger] s[k]).0 <= x <= s[k].1;
        assert(k < s.len() - 1);
        assert(t[k] == s[k]);
        lemma_covered_by(t, k, x);
    }
}

/// What an insertion does to a window that is not complete, for a range that does
/// not run past the end of a run that it reaches: the packets of the range are
/// added to those that count as received, and nothing else is. They stay in their
/// longest runs, the first packet and the number of packets stay, and the same
/// range again changes nothing.
pub proof fn law_insert_adds_the_range(w: WindowView, from: u32, to: u32)
    requires
        ascending(w.intervals),
        separated(w.intervals),
        !w.complete(),
        sub24(from as int, w.start as int) <= sub24(to as int, w.start as int) < PSN_MAX_WINDOW_SIZE,
        forall|k: int|
            0 <= k < w.intervals.len() && sub24(from as int, w.start as int) < (#[trigger] w.intervals[k]).0 <= sub24(
                to as int,
                w.start as int,
            ) + 1 ==> w.intervals[k].1 >= sub24(to as int, w.start as int),
    ensures
        ({
            let a = sub24(from as int, w.start as int) as int;
            let b = sub24(to as int, w.start as int) as int;
            let after = w.inserted(from, to);
            &&& after.start == w.start
            &&& after.count == w.count
            &&& ascending(after.intervals)
            &&& separated(after.intervals)
            &&& forall|x: int| covered(after.intervals, x) <==> covered(w.intervals, x) || a <= x <= b
            &&& after.inserted(from, to) == after
        }),
{
    let s = w.intervals;
    let a = sub24(from as int, w.start as int);
    let b = sub24(to as int, w.start as int);
    let after = w.inserted(from, to);
    let t = after.intervals;
    lemma_upto(s, a);
    lemma_merged_ascending(s, a, b);
    law_window_keeps_apart(s, a, b);
    let i = upto(s, a) as int;
    if i < s.len() && b >= s[i].0 - 1 {
        assert(b <= s[i].1);
    }
    assert forall|x: int| covered(t, x) <==> covered(s, x) || a <= x <= b by {
        if covered(t, x) {
            law_window_sound(s, a, b, x);
        }
        if covered(s, x) || a <= x <= b {
            law_window_keeps(s, a, b, x);
        }
    }
    if !after.complete() {
        let u = merged(t, a, b);
        lemma_merged_ascending(t, a, b);
        law_window_keeps_apart(t, a, b);
        assert forall|x: int| covered(u, x) <==> covered(t, x) by {
            if covered(u, x) {
                law_window_sound(t, a, b, x);
            }
            if covered(t, x) {
                law_window_keeps(t, a, b, x);
            }
        }
        law_runs_are_unique(u, t);
    }
}

/// A window is complete just where each packet of the message counts as
/// received and none beyond.
pub proof fn law_window_complete(w: WindowView)
    requires
        ascending(w.intervals),
        separated(w.intervals),
        0 < w.count <= PSN_MAX_WINDOW_SIZE,
        forall|x: int| covered(w.intervals, x) ==> x < w.count,
    ensures
        w.complete() <==> forall|x: int| 0 <= x < w.count ==> covered(w.intervals, x),
{
    let s = w.intervals;
    if w.complete() {
        assert forall|x: int| 0 <= x < w.count implies covered(s, x) by {
            assert(s[0].0 <= x <= s[0].1);
        }
    } else if forall|x: int| 0 <= x < w.count ==> covered(s, x) {
        assert(covered(s, 0));
        let k = choose|k: int| 0 <= k < s.len() && (#[trigger] s[k]).0 <= 0 <= s[k].1;
        if k > 0 {
            assert(s[0].0 < s[k].0);
        }
        assert(s[0].0 == 0);
        let e = s[0].1 as int;
        assert(covered(s, e)) by {
            assert(s[0].0 <= e <= s[0].1);
        }
        assert(e < w.count - 1);
        assert(covered(s, e + 1));
        let m = choose|m: int| 0 <= m < s.len() && (#[trigger] s[m]).0 <= e + 1 <= s[m].1;
        if m > 0 {
            assert(s[0].1 + 1 < s[m].0);
        }
        assert(false);
    }
}

/// The packets of a message that have been received
#[derive(Debug)]
pub struct SlidingWindow {
    intervals: Vec<Interval>,
    start_psn: Psn,
    num_of_packets: u32,
}

impl View for SlidingWindow {
    type V = WindowView;

    closed spec fn view(&self) -> WindowView {
        WindowView { intervals: self.intervals@, start: self.start_psn@, count: self.num_of_packets }
    }
}

impl SlidingWindow {
    /// The intervals ascend, and the message has a packet.
    pub open spec fn wf(&self) -> bool {
        ascending(self@.intervals) && self@.count > 0
    }

    /// A window for a message of `num_of_packets` packets
    pub fn new(start: Psn, num_of_packets: u32) -> (r: Self)
        requires
            num_of_packets > 0,
        ensures
            r.wf(),
            r@ == WindowView::fresh(start@, num_of_packets),
    {
        Self { intervals: Vec::new(), start_psn: start, num_of_packets }
    }

    fn put(&mut self, pos: usize, new: Interval)
        requires
            ascending(old(self)@.intervals),
            pos == upto(old(self)@.intervals, new.0),
        ensures
            final(self)@ == (WindowView { intervals: put(old(self)@.intervals, new), ..old(self)@ }),
    {
        proof {
            lemma_upto(self.intervals@, new.0);
        }
        if pos > 0 && self.intervals[pos - 1].0 == new.0 {
            self.intervals.set(pos - 1, new);
        } else {
            self.intervals.insert(pos, new);
        }
    }

    /// Records that the packets from `from` to `to` were received.
    pub fn insert(&mut self, range: (Psn, Psn))
        requires
            old(self).wf(),
        ensures
            final(self).wf(),
            final(self)@ == old(self)@.inserted(range.0@, range.1@),
            separated(old(self)@.intervals) && forward(old(self)@.start, range.0@, range.1@) ==> separated(
                final(self)@.intervals,
            ),
    {
        if self.is_complete() {
            return;
        }
        let start: u32 = self.start_psn.get();
        let abs_left: u32 = range.0.wrapping_sub(start).get();
        if abs_left >= PSN_MAX_WINDOW_SIZE {
            return;
        }
        let abs_right: u32 = range.1.wrapping_sub(start).get();
        if abs_right >= PSN_MAX_WINDOW_SIZE {
            return;
        }
        let ghost s = self.intervals@;
        let mut pos: usize = 0;
        while pos < self.intervals.len() && self.intervals[pos].0 <= abs_left
            invariant
                ascending(s),
                self.intervals@ == s,
                pos <= s.len(),
                pos > 0 ==> s[pos - 1].0 <= abs_left,
            decreases s.len() - pos,
        {
            pos = pos + 1;
        }
        proof {
            lemma_upto_is(s, abs_left, pos as nat);
            lemma_merged_ascending(s, abs_left, abs_right);
            if separated(s) && abs_left <= abs_right {
                law_window_keeps_apart(s, abs_left, abs_right);
            }
        }
        if pos > 0 && abs_right <= self.intervals[pos - 1].1 {
            return;
        }
        let merge_left: bool = pos > 0 && abs_left <= self.intervals[pos - 1].1 + 1;
        let merge_right: bool = pos < self.intervals.len() && abs_right >= self.intervals[pos].0 - 1;
        if merge_left && merge_right {
            let left_start: u32 = self.intervals[pos - 1].0;
            let right_end: u32 = self.intervals[pos].1;
            self.intervals.set(pos - 1, (left_start, right_end));
            let _ = self.intervals.remove(pos);
        } else if merge_left {
            let left_start: u32 = self.intervals[pos - 1].0;
            self.intervals.set(pos - 1, (left_start, abs_right));
        } else if merge_right {
            let right_end: u32 = self.intervals[pos].1;
            let _ = self.intervals.remove(pos);
            proof {
                assert(ascending(s.remove(pos as int)));
                lemma_upto_is(s.remove(pos as int), abs_left, pos as nat);
            }
            self.put(pos, (abs_left, right_end));
        } else {
            self.put(pos, (abs_left, abs_right));
        }
    }

    /// Whether every packet of the message has been received
    pub fn is_complete(&self) -> (r: bool)
        requires
            self.wf(),
        ensures
            r == self@.complete(),
    {
        if self.intervals.len() == 0 {
            return false;
        }
        let (start, end): (u32, u32) = self.intervals[0];
        end == self.num_of_packets - 1 && start == 0
    }

    /// Whether some packet is missing before one that has been received
    pub fn is_out_of_order(&self) -> (r: bool)
        requires
            self.wf(),
        ensures
            r == self@.out_of_order(),
    {
        !self.is_complete() && self.intervals.len() > 1
    }

    /// The packet from which to go on, where the packets up to it are in order
    /// and the first one is among them
    pub fn try_get_recover_psn(&self) -> (r: Option<Psn>)
        requires
            self.wf(),
        ensures
            r is Some <==> self@.recover_psn() is Some,
            r is Some ==> r->0@ == self@.recover_psn()->0,
    {
        if self.is_out_of_order() || self.intervals.len() == 0 || self.intervals[0].0 != 0 {
            return None;
        }
        Some(self.start_psn.wrapping_add(self.intervals[0].1 + 1))
    }

    /// The number of the last packet of the message
    pub fn last_psn(&self) -> (r: Psn)
        requires
            self.wf(),
        ensures
            r@ == self@.last_psn(),
    {
        self.start_psn.wrapping_add(self.num_of_packets - 1)
    }

    /// How many intervals have been recorded
    pub fn get_intervals_len(&self) -> (r: usize)
        ensures
            r == self@.intervals.len(),
    {
        self.intervals.len()
    }
}

/// Where there is a packet to go on from, just the packets before it count as
/// received; where there is none, the first packet is missing, or one before
/// another that was received.
pub proof fn law_recovers_without_a_gap(w: WindowView)
    requires
        ascending(w.intervals),
        separated(w.intervals),
        !w.complete(),
        w.start <= 0xff_ffff,
        forall|x: int| covered(w.intervals, x) ==> x < PSN_MAX_WINDOW_SIZE,
    ensures
        w.recover_psn() matches Some(p) ==> forall|x: int|
            covered(w.intervals, x) <==> 0 <= x < sub24(p as int, w.start as int),
        w.recover_psn() is None ==> !covered(w.intervals, 0) || exists|x: int, y: int|
            0 <= x < y && !#[trigger] covered(w.intervals, x) && #[trigger] covered(w.intervals, y),
{
    let s = w.intervals;
    if w.recover_psn() is Some {
        assert(s.len() == 1);
        let e = s[0].1 as int;
        assert(covered(s, e)) by {
            assert(s[0].0 <= e <= s[0].1);
        }
        let p = w.recover_psn()->0;
        assert(sub24(p as int, w.start as int) == e + 1);
        assert forall|x: int| covered(s, x) <==> 0 <= x < sub24(p as int, w.start as int) by {
            if 0 <= x <= e {
                assert(s[0].0 <= x <= s[0].1);
            }
        }
    } else if covered(s, 0) {
        let j = choose|j: int| 0 <= j < s.len() && (#[trigger] s[j]).0 <= 0 <= s[j].1;
        if j > 0 {
            assert(s[0].0 < s[j].0);
        }
        assert(s.len() > 1);
        let x = s[0].1 + 1;
        let y = s[1].0 as int;
        assert(x < y);
        assert(covered(s, y)) by {
            assert(s[1].0 <= y <= s[1].1);
        }
        if covered(s, x) {
            let m = choose|m: int| 0 <= m < s.len() && (#[trigger] s[m]).0 <= x <= s[m].1;
            if m > 0 {
                assert(s[0].1 + 1 < s[m].0);
            }
            assert(false);
        }
    }
}

} // verus!
