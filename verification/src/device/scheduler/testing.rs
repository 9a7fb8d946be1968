//! A strategy that lets a handler see, drop or reorder the descriptors before
//! they are scheduled.

use vstd::prelude::*;
use crate::device::error::DeviceError;
use crate::device::scheduler::round_robin::RoundRobinStrategy;
#[allow(unused_imports)]
use crate::device::scheduler::round_robin::{
    batch_holds, distinct, law_push_appends, places_hold, popped, pushed, waiting_for, Queue,
};
use crate::device::scheduler::{BatchDescs, SchedulerStrategy, SealedDesc};
#[allow(unused_imports)]
use crate::device::scheduler::{given_batch, places, unsealed, POP_BATCH_SIZE};
#[allow(unused_imports)]
use crate::device::work::ToCardWorkRbDesc;
use crate::types::Qpn;

verus! {

/// Testing Handler
pub trait TestingHandler {
    /// Whether the handler may leave `left` of the descriptors `given` to it, and
    /// succeed as `ok` says. Of a handler that does not say, nothing is known.
    open spec fn may_leave(&self, given: Seq<ToCardWorkRbDesc>, left: Seq<ToCardWorkRbDesc>, ok: bool) -> bool {
        true
    }

    /// Handle descriptor that will be sent by scheduler
    fn handle_pkt(&self, desc: &mut Vec<SealedDesc>) -> (r: Result<(), DeviceError>)
        ensures
            self.may_leave(unsealed(old(desc)@), unsealed(final(desc)@), r is Ok),
    ;
}

/// The queue after a handler left `descs` for queue pair `n`.
pub open spec fn pushed_handled(q: Queue, n: u32, descs: Seq<ToCardWorkRbDesc>) -> Queue {
    if descs.len() == 0 {
        q
    } else {
        pushed(q, n, descs)
    }
}

/// A stratrgy that allow you to kick or reorder packets.
#[derive(Debug)]
pub struct TestingStrategy<T: TestingHandler>(RoundRobinStrategy, T);

impl<T: TestingHandler> View for TestingStrategy<T> {
    type V = Queue;

    closed spec fn view(&self) -> Queue {
        self.0@
    }
}

impl<T: TestingHandler> TestingStrategy<T> {
    /// The handler that sees the descriptors first
    pub closed spec fn handler(&self) -> T {
        self.1
    }

    /// Create a new testing strategy
    pub fn new(handlers: T) -> (r: Self)
        ensures
            r@ == Queue::empty(),
            r.handler() == handlers,
    {
        TestingStrategy(RoundRobinStrategy::new(), handlers)
    }

    /// Queues what the handler left; nothing where it left nothing.
    pub fn push_handled(&mut self, qpn: Qpn, desc: Vec<SealedDesc>) -> (r: Result<(), DeviceError>)
        ensures
            r is Ok,
            final(self)@ == pushed_handled(old(self)@, qpn@, unsealed(desc@)),
            final(self).handler() == old(self).handler(),
    {
        if desc.len() == 0 {
            return Ok(());
        }
        self.0.push(qpn, desc)
    }
}

/// Whether a push may end so: the handler was given the descriptors, if there
/// are any, and what it left is queued, or nothing where it failed.
pub open spec fn handled<T: TestingHandler>(
    before: TestingStrategy<T>,
    qpn: u32,
    descs: Seq<ToCardWorkRbDesc>,
    after: TestingStrategy<T>,
    ok: bool,
) -> bool {
    &&& after.handler() == before.handler()
    &&& if descs.len() == 0 {
        ok && after@ == before@
    } else if ok {
        exists|left: Seq<ToCardWorkRbDesc>| #[trigger]
            before.handler().may_leave(descs, left, true) && after@ == pushed_handled(before@, qpn, left)
    } else {
        after@ == before@ && exists|left: Seq<ToCardWorkRbDesc>| #[trigger]
            before.handler().may_leave(descs, left, false)
    }
}

impl<T: TestingHandler> SchedulerStrategy for TestingStrategy<T> {
    open spec fn may_push(before: Self, qpn: u32, descs: Seq<ToCardWorkRbDesc>, after: Self, ok: bool) -> bool {
        handled(before, qpn, descs, after, ok)
    }

    /// A pop succeeds, and gives what is next in turn.
    open spec fn may_pop(before: Self, batch: Option<(Seq<Option<ToCardWorkRbDesc>>, u32)>, after: Self) -> bool {
        &&& batch matches Some((all, n))
        &&& places_hold(all, popped(before@, POP_BATCH_SIZE as nat).0)
        &&& n == popped(before@, POP_BATCH_SIZE as nat).0.len()
        &&& after@ == popped(before@, POP_BATCH_SIZE as nat).1
        &&& after.handler() == before.handler()
    }

    fn push(&mut self, qpn: Qpn, desc: Vec<SealedDesc>) -> (r: Result<(), DeviceError>)
        ensures
            final(self).handler() == old(self).handler(),
            desc@.len() == 0 ==> r is Ok && final(self)@ == old(self)@,
            r is Err ==> final(self)@ == old(self)@ && exists|left: Seq<ToCardWorkRbDesc>| #[trigger]
                old(self).handler().may_leave(unsealed(desc@), left, false),
            r is Ok && desc@.len() > 0 ==> exists|left: Seq<ToCardWorkRbDesc>| #[trigger]
                old(self).handler().may_leave(unsealed(desc@), left, true) && final(self)@ == pushed_handled(
                    old(self)@,
                    qpn@,
                    left,
                ),
    {
        let mut desc: Vec<SealedDesc> = desc;
        let ghost given = unsealed(desc@);
        if desc.len() == 0 {
            return Ok(());
        }
        match self.1.handle_pkt(&mut desc) {
            Ok(()) => {},
            Err(e) => {
                assert(old(self).handler().may_leave(given, unsealed(desc@), false));
                return Err(e);
            },
        }
        assert(old(self).handler().may_leave(given, unsealed(desc@), true));
        self.push_handled(qpn, desc)
    }

    fn pop_batch(&mut self) -> (r: Result<(BatchDescs, u32), DeviceError>)
        ensures
            r is Ok,
            batch_holds((r->Ok_0).0@, popped(old(self)@, POP_BATCH_SIZE as nat).0),
            (r->Ok_0).1 == popped(old(self)@, POP_BATCH_SIZE as nat).0.len(),
            final(self)@ == popped(old(self)@, POP_BATCH_SIZE as nat).1,
            final(self).handler() == old(self).handler(),
    {
        self.0.pop_batch()
    }
}

/// What the handler leaves of the descriptors waits behind what waited for their
/// queue pair, and nothing else has changed; where it fails, nothing has.
pub proof fn law_left_descriptors_wait<T: TestingHandler>(
    before: TestingStrategy<T>,
    qpn: u32,
    descs: Seq<ToCardWorkRbDesc>,
    after: TestingStrategy<T>,
    ok: bool,
    m: u32,
)
    requires
        handled(before, qpn, descs, after, ok),
        distinct(before@),
        descs.len() > 0,
    ensures
        ok ==> exists|left: Seq<ToCardWorkRbDesc>| #[trigger]
            before.handler().may_leave(descs, left, true) && waiting_for(after@, m) == (if m == qpn {
                waiting_for(before@, m) + left
            } else {
                waiting_for(before@, m)
            }),
        !ok ==> after@ == before@,
{
    if ok {
        let left = choose|left: Seq<ToCardWorkRbDesc>| #[trigger]
            before.handler().may_leave(descs, left, true) && after@ == pushed_handled(before@, qpn, left);
        law_push_appends(before@, qpn, left, m);
        assert(waiting_for(before@, m) + Seq::<ToCardWorkRbDesc>::empty() =~= waiting_for(before@, m));
        if left.len() == 0 {
            assert(left =~= Seq::<ToCardWorkRbDesc>::empty());
        }
        assert(before.handler().may_leave(descs, left, true));
    }
}

} // verus!
