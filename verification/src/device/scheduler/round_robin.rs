//! The strategy that serves the queue pairs in turn.

use vstd::prelude::*;
use crate::device::error::DeviceError;
use crate::device::scheduler::{BatchDescs, SchedulerStrategy, SealedDesc, POP_BATCH_SIZE};
#[allow(unused_imports)]
use crate::device::scheduler::{common_of, gave_out, given_batch, handed_out, places, segments, taken_places, took_in, unsealed};
#[allow(unused_imports)]
use crate::device::work::ToCardWorkRbDesc;
use crate::types::Qpn;

verus! {

/// The queue pairs in the order in which they are served, each with the
/// descriptors that wait for it.
pub type Queue = Seq<(u32, Seq<ToCardWorkRbDesc>)>;

/// The queue after `descs` were pushed for queue pair `n`: behind what waits for
/// it already, or in a new place at the end.
pub open spec fn pushed(q: Queue, n: u32, descs: Seq<ToCardWorkRbDesc>) -> Queue
    decreases q.len(),
{
    if q.len() == 0 {
        seq![(n, descs)]
    } else if q[0].0 == n {
        seq![(n, q[0].1 + descs)] + q.drop_first()
    } else {
        seq![q[0]] + pushed(q.drop_first(), n, descs)
    }
}

/// What popping up to `k` descriptors gives, with the queue pair of each, and
/// what it leaves. The queue pair at the front gives one and goes to the end,
/// or leaves when it has no more; the one that gives the last of a full batch
/// stays at the front.
pub open spec fn popped(q: Queue, k: nat) -> (Seq<(u32, ToCardWorkRbDesc)>, Queue)
    decreases k, q.len(),
{
    if k == 0 || q.len() == 0 {
        (Seq::empty(), q)
    } else {
        let (n, waiting) = q[0];
        let others = q.drop_first();
        if waiting.len() == 0 {
            popped(others, k)
        } else {
            let more = waiting.drop_first();
            let next = if k == 1 {
                seq![(n, more)] + others
            } else if more.len() == 0 {
                others
            } else {
                others.push((n, more))
            };
            let r = popped(next, (k - 1) as nat);
            (seq![(n, waiting[0])] + r.0, r.1)
        }
    }
}

/// How many descriptors wait.
pub open spec fn waiting_cnt(q: Queue) -> nat
    decreases q.len(),
{
    if q.len() == 0 {
        0
    } else {
        q[0].1.len() + waiting_cnt(q.drop_first())
    }
}

/// The descriptors that wait for queue pair `n`.
pub open spec fn waiting_for(q: Queue, n: u32) -> Seq<ToCardWorkRbDesc>
    decreases q.len(),
{
    if q.len() == 0 {
        Seq::empty()
    } else if q[0].0 == n {
        q[0].1 + waiting_for(q.drop_first(), n)
    } else {
        waiting_for(q.drop_first(), n)
    }
}

/// The descriptors of queue pair `n` among those that were popped.
pub open spec fn given_to(out: Seq<(u32, ToCardWorkRbDesc)>, n: u32) -> Seq<ToCardWorkRbDesc>
    decreases out.len(),
{
    if out.len() == 0 {
        Seq::empty()
    } else if out[0].0 == n {
        seq![out[0].1] + given_to(out.drop_first(), n)
    } else {
        given_to(out.drop_first(), n)
    }
}

/// No queue pair has two places.
pub open spec fn distinct(q: Queue) -> bool {
    forall|i: int, j: int| 0 <= i < j < q.len() ==> (#[trigger] q[i]).0 != (#[trigger] q[j]).0
}

proof fn lemma_waiting_push(q: Queue, e: (u32, Seq<ToCardWorkRbDesc>), n: u32)
    ensures
        waiting_cnt(q.push(e)) == waiting_cnt(q) + e.1.len(),
        waiting_for(q.push(e), n) == (if e.0 == n {
            waiting_for(q, n) + e.1
        } else {
            waiting_for(q, n)
        }),
    decreases q.len(),
{
    let all = q.push(e);
    if q.len() == 0 {
        assert(all.drop_first() =~= Seq::empty());
        assert(waiting_cnt(all.drop_first()) == 0);
        assert(waiting_for(all.drop_first(), n) =~= Seq::empty());
        assert(waiting_for(all, n) =~= if e.0 == n {
            e.1
        } else {
            Seq::empty()
        });
        assert(waiting_for(q, n) + e.1 =~= e.1);
    } else {
        assert(all.drop_first() =~= q.drop_first().push(e));
        lemma_waiting_push(q.drop_first(), e, n);
        assert(q[0].1 + (waiting_for(q.drop_first(), n) + e.1) =~= (q[0].1 + waiting_for(q.drop_first(), n)) + e.1);
    }
}

proof fn lemma_not_waiting(q: Queue, n: u32)
    requires
        forall|i: int| 0 <= i < q.len() ==> (#[trigger] q[i]).0 != n,
    ensures
        waiting_for(q, n) == Seq::<ToCardWorkRbDesc>::empty(),
    decreases q.len(),
{
    if q.len() > 0 {
        assert(q[0].0 != n);
        assert forall|i: int| 0 <= i < q.drop_first().len() implies (#[trigger] q.drop_first()[i]).0 != n by {
            assert(q.drop_first()[i] == q[i + 1]);
        }
        lemma_not_waiting(q.drop_first(), n);
    }
}

/// A batch is full unless nothing more waits, and what is not popped waits on.
pub proof fn law_pop_conserves(q: Queue, k: nat)
    ensures
        popped(q, k).0.len() == (if waiting_cnt(q) < k {
            waiting_cnt(q)
        } else {
            k
        }),
        waiting_cnt(popped(q, k).1) + popped(q, k).0.len() == waiting_cnt(q),
    decreases k, q.len(),
{
    if k > 0 && q.len() > 0 {
        let (n, waiting) = q[0];
        let others = q.drop_first();
        if waiting.len() == 0 {
            law_pop_conserves(others, k);
        } else {
            let more = waiting.drop_first();
            lemma_waiting_push(others, (n, more), n);
            let front = seq![(n, more)] + others;
            assert(front.drop_first() =~= others);
            let next = if k == 1 {
                front
            } else if more.len() == 0 {
                others
            } else {
                others.push((n, more))
            };
            law_pop_conserves(next, (k - 1) as nat);
        }
    }
}

/// Each queue pair's descriptors are popped in the order in which they wait:
/// those in the batch, followed by those that still wait, are those that waited.
pub proof fn law_pop_keeps_order(q: Queue, k: nat, n: u32)
    requires
        distinct(q),
    ensures
        given_to(popped(q, k).0, n) + waiting_for(popped(q, k).1, n) == waiting_for(q, n),
        distinct(popped(q, k).1),
    decreases k, q.len(),
{
    if k == 0 || q.len() == 0 {
        assert(Seq::<ToCardWorkRbDesc>::empty() + waiting_for(q, n) =~= waiting_for(q, n));
    } else {
        let (m, waiting) = q[0];
        let others = q.drop_first();
        assert(distinct(others)) by {
            assert forall|i: int, j: int| 0 <= i < j < others.len() implies (#[trigger] others[i]).0 != (
            #[trigger] others[j]).0 by {
                assert(others[i] == q[i + 1] && others[j] == q[j + 1]);
            }
        }
        assert forall|i: int| 0 <= i < others.len() implies (#[trigger] others[i]).0 != m by {
            assert(others[i] == q[i + 1]);
            assert(q[0].0 != q[i + 1].0);
        }
        lemma_not_waiting(others, m);
        if waiting.len() == 0 {
            law_pop_keeps_order(others, k, n);
            assert(waiting + waiting_for(others, n) =~= waiting_for(others, n));
        } else {
            let more = waiting.drop_first();
            let front = seq![(m, more)] + others;
            assert(front.drop_first() =~= others);
            lemma_waiting_push(others, (m, more), n);
            let next = if k == 1 {
                front
            } else if more.len() == 0 {
                others
            } else {
                others.push((m, more))
            };
            assert(distinct(next)) by {
                if k == 1 {
                    assert forall|i: int, j: int| 0 <= i < j < next.len() implies (#[trigger] next[i]).0 != (
                    #[trigger] next[j]).0 by {
                        assert(next[j] == others[j - 1]);
                        if i > 0 {
                            assert(next[i] == others[i - 1]);
                        }
                    }
                }
            }
            law_pop_keeps_order(next, (k - 1) as nat, n);
            let r = popped(next, (k - 1) as nat);
            let out = seq![(m, waiting[0])] + r.0;
            assert(out.drop_first() =~= r.0);
            if m == n {
                assert(waiting_for(next, n) =~= more);
                assert(given_to(out, n) + waiting_for(r.1, n) =~= seq![waiting[0]] + (given_to(r.0, n) + waiting_for(
                    r.1,
                    n,
                )));
                assert(seq![waiting[0]] + more =~= waiting);
                assert(waiting_for(q, n) =~= waiting);
            } else {
                assert(waiting_for(next, n) =~= waiting_for(others, n));
            }
        }
    }
}

/// The queue pairs are served in turn: the first descriptors of a batch are one
/// from each, in the order of the queue.
pub proof fn law_pop_in_turn(q: Queue, k: nat, i: int)
    requires
        forall|j: int| 0 <= j < q.len() ==> (#[trigger] q[j]).1.len() > 0,
        0 <= i < q.len(),
        i < k,
    ensures
        i < popped(q, k).0.len(),
        popped(q, k).0[i] == (q[i].0, q[i].1[0]),
    decreases k,
{
    let (n, waiting) = q[0];
    let others = q.drop_first();
    let more = waiting.drop_first();
    assert(q[0].1.len() > 0);
    if i > 0 {
        let next = if more.len() == 0 {
            others
        } else {
            others.push((n, more))
        };
        assert forall|j: int| 0 <= j < next.len() implies (#[trigger] next[j]).1.len() > 0 by {
            if j < others.len() {
                assert(next[j] == q[j + 1]);
            }
        }
        law_pop_in_turn(next, (k - 1) as nat, i - 1);
        assert(next[i - 1] == q[i]);
    }
}

/// Pushing for a queue pair puts its descriptors behind those that wait for it,
/// leaves those of the others as they are, and gives it no second place.
pub proof fn law_push_appends(q: Queue, n: u32, descs: Seq<ToCardWorkRbDesc>, m: u32)
    requires
        distinct(q),
    ensures
        waiting_for(pushed(q, n, descs), m) == (if m == n {
            waiting_for(q, m) + descs
        } else {
            waiting_for(q, m)
        }),
        waiting_cnt(pushed(q, n, descs)) == waiting_cnt(q) + descs.len(),
        distinct(pushed(q, n, descs)),
        forall|i: int|
            0 <= i < pushed(q, n, descs).len() ==> (#[trigger] pushed(q, n, descs)[i]).0 == n || i < q.len()
                && pushed(q, n, descs)[i].0 == q[i].0,
    decreases q.len(),
{
    let after = pushed(q, n, descs);
    if q.len() == 0 {
        assert(after =~= q.push((n, descs)));
        lemma_waiting_push(q, (n, descs), m);
    } else {
        let others = q.drop_first();
        assert(distinct(others)) by {
            assert forall|i: int, j: int| 0 <= i < j < others.len() implies (#[trigger] others[i]).0 != (
            #[trigger] others[j]).0 by {
                assert(others[i] == q[i + 1] && others[j] == q[j + 1]);
            }
        }
        if q[0].0 == n {
            assert(after.drop_first() =~= others);
            assert forall|i: int| 0 <= i < others.len() implies (#[trigger] others[i]).0 != n by {
                assert(others[i] == q[i + 1]);
                assert(q[0].0 != q[i + 1].0);
            }
            lemma_not_waiting(others, n);
            if m == n {
                assert(waiting_for(after, m) =~= waiting_for(q, m) + descs);
            }
            assert forall|i: int, j: int| 0 <= i < j < after.len() implies (#[trigger] after[i]).0 != (
            #[trigger] after[j]).0 by {
                assert(after[j] == q[j]);
                assert(after[i].0 == q[i].0);
                assert(q[i].0 != q[j].0);
            }
        } else {
            law_push_appends(others, n, descs, m);
            let rest = pushed(others, n, descs);
            assert(after.drop_first() =~= rest);
            if m == q[0].0 {
                assert(waiting_for(after, m) =~= waiting_for(q, m));
            }
            assert forall|i: int, j: int| 0 <= i < j < after.len() implies (#[trigger] after[i]).0 != (
            #[trigger] after[j]).0 by {
                assert(after[j] == rest[j - 1]);
                if i > 0 {
                    assert(after[i] == rest[i - 1]);
                } else if rest[j - 1].0 != n {
                    assert(others[j - 1] == q[j]);
                    assert(q[0].0 != q[j].0);
                }
            }
            assert forall|i: int| 0 <= i < after.len() implies (#[trigger] after[i]).0 == n || i < q.len()
                && after[i].0 == q[i].0 by {
                if i > 0 {
                    assert(after[i] == rest[i - 1]);
                    if rest[i - 1].0 != n {
                        assert(others[i - 1] == q[i]);
                    }
                }
            }
        }
    }
}

/// The round-robin strategy for the scheduler.
#[derive(Debug)]
pub struct RoundRobinStrategy {
    queue: Vec<(u32, Vec<SealedDesc>)>,
}

impl View for RoundRobinStrategy {
    type V = Queue;

    closed spec fn view(&self) -> Queue {
        queue_of(self.queue@)
    }
}

spec fn queue_of(queue: Seq<(u32, Vec<SealedDesc>)>) -> Queue {
    queue.map_values(|e: (u32, Vec<SealedDesc>)| (e.0, unsealed(e.1@)))
}

/// Pushing for a queue pair that has its place at `i`.
proof fn lemma_pushed_at(q: Queue, n: u32, descs: Seq<ToCardWorkRbDesc>, i: int)
    requires
        0 <= i < q.len(),
        q[i].0 == n,
        forall|j: int| 0 <= j < i ==> (#[trigger] q[j]).0 != n,
    ensures
        pushed(q, n, descs) == q.update(i, (n, q[i].1 + descs)),
    decreases i,
{
    if i == 0 {
        assert(pushed(q, n, descs) =~= q.update(0, (n, q[0].1 + descs)));
    } else {
        let others = q.drop_first();
        assert(q[0].0 != n);
        assert forall|j: int| 0 <= j < i - 1 implies (#[trigger] others[j]).0 != n by {
            assert(others[j] == q[j + 1]);
        }
        lemma_pushed_at(others, n, descs, i - 1);
        assert(pushed(q, n, descs) =~= q.update(i, (n, q[i].1 + descs)));
    }
}

/// Pushing for a queue pair that has no place.
proof fn lemma_pushed_new(q: Queue, n: u32, descs: Seq<ToCardWorkRbDesc>)
    requires
        forall|j: int| 0 <= j < q.len() ==> (#[trigger] q[j]).0 != n,
    ensures
        pushed(q, n, descs) == q.push((n, descs)),
    decreases q.len(),
{
    if q.len() == 0 {
        assert(pushed(q, n, descs) =~= q.push((n, descs)));
    } else {
        let others = q.drop_first();
        assert(q[0].0 != n);
        assert forall|j: int| 0 <= j < others.len() implies (#[trigger] others[j]).0 != n by {
            assert(others[j] == q[j + 1]);
        }
        lemma_pushed_new(others, n, descs);
        assert(pushed(q, n, descs) =~= q.push((n, descs)));
    }
}

/// Whether a batch holds the given descriptors, in its first places.
pub open spec fn batch_holds(batch: Seq<Option<SealedDesc>>, out: Seq<(u32, ToCardWorkRbDesc)>) -> bool {
    &&& batch.len() == POP_BATCH_SIZE
    &&& out.len() <= POP_BATCH_SIZE
    &&& forall|i: int|
        0 <= i < batch.len() ==> match #[trigger] batch[i] {
            Some(d) => i < out.len() && d@ == out[i].1,
            None => i >= out.len(),
        }
}

impl RoundRobinStrategy {
    /// Create a new round-robin strategy.
    pub fn new() -> (r: Self)
        ensures
            r@ == Queue::empty(),
    {
        let r = Self { queue: Vec::new() };
        assert(r@ =~= Queue::empty());
        r
    }
}

impl Default for RoundRobinStrategy {
    fn default() -> (r: Self)
        ensures
            r@ == Queue::empty(),
    {
        Self::new()
    }
}

/// Whether the first places of a batch hold the given descriptors, and the
/// others none.
pub open spec fn places_hold(all: Seq<Option<ToCardWorkRbDesc>>, out: Seq<(u32, ToCardWorkRbDesc)>) -> bool {
    &&& all.len() == POP_BATCH_SIZE
    &&& out.len() <= POP_BATCH_SIZE
    &&& forall|i: int|
        0 <= i < all.len() ==> #[trigger] all[i] == (if i < out.len() {
            Some(out[i].1)
        } else {
            None
        })
}

impl SchedulerStrategy for RoundRobinStrategy {
    /// A push succeeds, and appends.
    open spec fn may_push(before: Self, qpn: u32, descs: Seq<ToCardWorkRbDesc>, after: Self, ok: bool) -> bool {
        ok && after@ == pushed(before@, qpn, descs)
    }

    /// A pop succeeds, and gives what is next.
    open spec fn may_pop(before: Self, batch: Option<(Seq<Option<ToCardWorkRbDesc>>, u32)>, after: Self) -> bool {
        &&& batch matches Some((all, n))
        &&& places_hold(all, popped(before@, POP_BATCH_SIZE as nat).0)
        &&& n == popped(before@, POP_BATCH_SIZE as nat).0.len()
        &&& after@ == popped(before@, POP_BATCH_SIZE as nat).1
    }

    fn push(&mut self, qpn: Qpn, desc: Vec<SealedDesc>) -> (r: Result<(), DeviceError>)
        ensures
            r is Ok,
            final(self)@ == pushed(old(self)@, qpn@, unsealed(desc@)),
    {
        let ghost before = self@;
        let n: u32 = qpn.get();
        let ghost descs = unsealed(desc@);
        let mut i: usize = 0;
        while i < self.queue.len()
            invariant
                before == old(self)@,
                self@ == before,
                n == qpn@,
                descs == unsealed(desc@),
                i <= self.queue@.len(),
                forall|j: int| 0 <= j < i ==> (#[trigger] before[j]).0 != n,
            decreases self.queue@.len() - i,
        {
            // merge the descriptor if the qpn is already in the queue
            if self.queue[i].0 == n {
                let (place, mut list): (u32, Vec<SealedDesc>) = self.queue.remove(i);
                let mut desc: Vec<SealedDesc> = desc;
                let ghost waiting = list@;
                list.append(&mut desc);
                assert(unsealed(list@) =~= unsealed(waiting) + descs);
                self.queue.insert(i, (place, list));
                proof {
                    lemma_pushed_at(before, n, descs, i as int);
                    assert(self@ =~= before.update(i as int, (n, before[i as int].1 + descs)));
                }
                return Ok(());
            }
            assert(before[i as int].0 == self.queue@[i as int].0);
            i = i + 1;
        }
        proof {
            lemma_pushed_new(before, n, descs);
        }
        self.queue.push((n, desc));
        assert(self@ =~= before.push((n, descs)));
        Ok(())
    }

    fn pop_batch(&mut self) -> (r: Result<(BatchDescs, u32), DeviceError>)
        ensures
            r is Ok,
            batch_holds((r->Ok_0).0@, popped(old(self)@, POP_BATCH_SIZE as nat).0),
            (r->Ok_0).1 == popped(old(self)@, POP_BATCH_SIZE as nat).0.len(),
            final(self)@ == popped(old(self)@, POP_BATCH_SIZE as nat).1,
    {
        let ghost before = self@;
        let mut result: BatchDescs = Vec::new();
        let ghost mut out: Seq<(u32, ToCardWorkRbDesc)> = Seq::empty();
        let ghost all = popped(before, POP_BATCH_SIZE as nat);
        assert(out + all.0 =~= all.0);
        let mut full: bool = false;
        while !full && self.queue.len() > 0
            invariant
                result@.len() == out.len() <= POP_BATCH_SIZE,
                full == (result@.len() == POP_BATCH_SIZE),
                forall|i: int|
                    0 <= i < result@.len() ==> (#[trigger] result@[i] matches Some(d) && d@ == out[i].1),
                all.0 == out + popped(self@, (POP_BATCH_SIZE - out.len()) as nat).0,
                all.1 == popped(self@, (POP_BATCH_SIZE - out.len()) as nat).1,
            decreases POP_BATCH_SIZE - result@.len(), self.queue@.len(),
        {
            let ghost q = self@;
            let ghost k = (POP_BATCH_SIZE - out.len()) as nat;
            let (n, mut list): (u32, Vec<SealedDesc>) = self.queue.remove(0);
            let ghost waiting = unsealed(list@);
            assert(self@ =~= q.drop_first());
            assert(q[0] == (n, waiting));
            if list.len() > 0 {
                let first: SealedDesc = list.remove(0);
                assert(unsealed(list@) =~= waiting.drop_first());
                assert(first@ == waiting[0]);
                result.push(Some(first));
                full = result.len() == POP_BATCH_SIZE;
                if full {
                    self.queue.insert(0, (n, list));
                    assert(self@ =~= seq![(n, waiting.drop_first())] + q.drop_first());
                } else if list.len() > 0 {
                    self.queue.push((n, list));
                    assert(self@ =~= q.drop_first().push((n, waiting.drop_first())));
                }
                proof {
                    let r = popped(self@, (k - 1) as nat);
                    assert(popped(q, k) == (seq![(n, waiting[0])] + r.0, r.1));
                    assert(out + (seq![(n, waiting[0])] + r.0) =~= out.push((n, waiting[0])) + r.0);
                    out = out.push((n, waiting[0]));
                }
            }
        }
        proof {
            let r = popped(self@, (POP_BATCH_SIZE - out.len()) as nat);
            assert(r.0 =~= Seq::empty() && r.1 == self@);
            assert(all.0 =~= out);
        }
        let counter: u32 = result.len() as u32;
        while result.len() < POP_BATCH_SIZE
            invariant
                counter == out.len() <= result@.len() <= POP_BATCH_SIZE,
                forall|i: int|
                    0 <= i < result@.len() ==> match #[trigger] result@[i] {
                        Some(d) => i < out.len() && d@ == out[i].1,
                        None => i >= out.len(),
                    },
            decreases POP_BATCH_SIZE - result@.len(),
        {
            result.push(None);
        }
        assert(places_hold(places(result@), out));
        Ok((result, counter))
    }
}

/// The taken places of a batch are its first ones.
proof fn lemma_taken_places(all: Seq<Option<ToCardWorkRbDesc>>, out: Seq<(u32, ToCardWorkRbDesc)>, k: int)
    requires
        places_hold(all, out),
        0 <= k <= all.len(),
    ensures
        taken_places(all.take(k)) == out.take(if k < out.len() {
            k
        } else {
            out.len() as int
        }).map_values(|e: (u32, ToCardWorkRbDesc)| e.1),
    decreases k,
{
    let part = all.take(k);
    let m = if k < out.len() {
        k
    } else {
        out.len() as int
    };
    let descs = out.take(m).map_values(|e: (u32, ToCardWorkRbDesc)| e.1);
    if k == 0 {
        assert(taken_places(part) =~= descs);
    } else {
        lemma_taken_places(all, out, k - 1);
        assert(part.drop_last() =~= all.take(k - 1));
        assert(part.last() == all[k - 1]);
        assert(taken_places(part) =~= descs);
    }
}

/// A turn of the scheduler with this strategy: the segments of what comes in are
/// appended for its queue pair, and what is next goes to the card.
pub proof fn law_turn_serves_what_is_next(
    before: RoundRobinStrategy,
    desc: Option<ToCardWorkRbDesc>,
    mid: RoundRobinStrategy,
    out: Seq<ToCardWorkRbDesc>,
    after: RoundRobinStrategy,
)
    requires
        took_in(before, desc, mid),
        gave_out(mid, out, after),
    ensures
        ({
            let q = match desc {
                Some(d) => pushed(before@, common_of(d).dqpn@, segments(d)),
                None => before@,
            };
            let next = popped(q, POP_BATCH_SIZE as nat);
            &&& out == next.0.map_values(|e: (u32, ToCardWorkRbDesc)| e.1)
            &&& after@ == next.1
        }),
{
    let batch = choose|batch: Option<(Seq<Option<ToCardWorkRbDesc>>, u32)>| #[trigger]
        RoundRobinStrategy::may_pop(mid, batch, after) && out == handed_out(batch);
    let next = popped(mid@, POP_BATCH_SIZE as nat).0;
    let all = (batch->0).0;
    lemma_taken_places(all, next, all.len() as int);
    assert(all.take(all.len() as int) =~= all);
    assert(next.take(next.len() as int) =~= next);
    assert(out =~= next.map_values(|e: (u32, ToCardWorkRbDesc)| e.1));
}

} // verus!
