//! Protection domains.

use vstd::prelude::*;
use std::collections::{HashMap, HashSet};
use crate::types::{Error, Qpn, Subject};
use rand::RngCore;

verus! {

broadcast use vstd::std_specs::hash::group_hash_axioms;

/// Protection Domain
#[derive(Debug, Clone, Copy, PartialEq, Eq, Hash, Structural)]
pub struct Pd {
    pub handle: u32,
}

impl Default for Pd {
    fn default() -> (r: Self)
        ensures
            r.handle == 0,
    {
        Self { handle: 0 }
    }
}

/// What belongs to a protection domain: the keys of its memory regions and the
/// numbers of its queue pairs
#[derive(Debug)]
pub struct PdCtx {
    mr: HashSet<u32>,
    qp: HashSet<u32>,
}

/// What belongs to a protection domain
#[verifier::ext_equal]
pub struct PdCtxView {
    pub mr: Set<u32>,
    pub qp: Set<u32>,
}

impl View for PdCtx {
    type V = PdCtxView;

    closed spec fn view(&self) -> PdCtxView {
        PdCtxView { mr: self.mr@, qp: self.qp@ }
    }
}

impl PdCtxView {
    /// Nothing belongs to it.
    pub open spec fn empty() -> PdCtxView {
        PdCtxView { mr: Set::empty(), qp: Set::empty() }
    }
}

impl PdCtx {
    fn new() -> (r: Self)
        ensures
            r@ == PdCtxView::empty(),
    {
        Self { mr: HashSet::new(), qp: HashSet::new() }
    }
}

/// The protection domains of a device, by their handles
#[derive(Debug)]
pub struct PdPool {
    pool: HashMap<u32, PdCtx>,
}

impl View for PdPool {
    type V = Map<u32, PdCtxView>;

    closed spec fn view(&self) -> Map<u32, PdCtxView> {
        self.pool@.map_values(|c: PdCtx| c@)
    }
}

/// A number from the thread's generator of random numbers: `rand::thread_rng`
/// and `RngCore::next_u32` of `rand`. Nothing is claimed of the number. The
/// generator is seeded by the system, and panics where the system has no
/// randomness to give.
#[verifier::external_body]
fn random_handle() -> (r: u32)
{
    rand::thread_rng().next_u32()
}

impl PdPool {
    /// No protection domain
    pub fn new() -> (r: Self)
        ensures
            r@ == Map::<u32, PdCtxView>::empty(),
    {
        let r = Self { pool: HashMap::new() };
        assert(r@ =~= Map::<u32, PdCtxView>::empty());
        r
    }

    /// Adds an empty protection domain with the given handle.
    ///
    /// # Errors
    /// There was one with the handle. It is empty now.
    pub fn insert_pd(&mut self, handle: u32) -> (r: Result<Pd, Error>)
        ensures
            final(self)@ == old(self)@.insert(handle, PdCtxView::empty()),
            r == (if old(self)@.contains_key(handle) {
                Err::<Pd, Error>(Error::Invalid(Subject::Pd(Pd { handle })))
            } else {
                Ok::<Pd, Error>(Pd { handle })
            }),
    {
        let pd = Pd { handle };
        let res = self.pool.insert(handle, PdCtx::new());
        assert(self@ =~= old(self)@.insert(handle, PdCtxView::empty()));
        if res.is_some() {
            return Err(Error::Invalid(Subject::Pd(pd)));
        }
        Ok(pd)
    }

    /// allocate a pd
    ///
    /// Its handle is drawn at random.
    ///
    /// # Errors
    /// The handle was taken. Its protection domain is empty now.
    pub fn alloc_pd(&mut self) -> (r: Result<Pd, Error>)
        ensures
            match r {
                Ok(pd) => !old(self)@.contains_key(pd.handle) && final(self)@ == old(self)@.insert(
                    pd.handle,
                    PdCtxView::empty(),
                ),
                Err(e) => e matches Error::Invalid(Subject::Pd(pd)) && old(self)@.contains_key(pd.handle) && final(self)@ == old(self)@.insert(pd.handle, PdCtxView::empty()),
            },
    {
        let handle: u32 = random_handle();
        self.insert_pd(handle)
    }

    /// deallocate a pd
    ///
    /// # Errors
    ///
    /// Will return `Err` if:
    /// * invalid Pd
    /// * mr or qp is in use
    pub fn dealloc_pd(&mut self, pd: Pd) -> (r: Result<(), Error>)
        ensures
            r == dealloc_result(old(self)@, pd),
            final(self)@ == (if r is Ok {
                old(self)@.remove(pd.handle)
            } else {
                old(self)@
            }),
    {
        match self.pool.get(&pd.handle) {
            None => {
                return Err(Error::Invalid(Subject::Pd(pd)));
            },
            Some(pd_ctx) => {
                proof {
                    assert(self@[pd.handle] == pd_ctx@);
                }
                if !pd_ctx.mr.is_empty() {
                    return Err(Error::PdInUse { by_mr: true });
                }
                if !pd_ctx.qp.is_empty() {
                    return Err(Error::PdInUse { by_mr: false });
                }
            },
        }
        let _ = self.pool.remove(&pd.handle);
        assert(self@ =~= old(self)@.remove(pd.handle));
        Ok(())
    }

    /// Whether there is a protection domain with the handle
    pub fn contains(&self, pd: Pd) -> (r: bool)
        ensures
            r == self@.contains_key(pd.handle),
    {
        self.pool.contains_key(&pd.handle)
    }

    /// Adds a queue pair to a protection domain, and says whether it is new
    /// there.
    pub fn add_qp(&mut self, pd: Pd, qpn: Qpn) -> (r: bool)
        requires
            old(self)@.contains_key(pd.handle),
        ensures
            r == !old(self)@[pd.handle].qp.contains(qpn@),
            final(self)@ == old(self)@.insert(
                pd.handle,
                PdCtxView { qp: old(self)@[pd.handle].qp.insert(qpn@), ..old(self)@[pd.handle] },
            ),
    {
        let key: u32 = qpn.get();
        let ghost before = self@[pd.handle];
        match self.pool.remove(&pd.handle) {
            Some(ctx) => {
                let mut ctx = ctx;
                let r: bool = ctx.qp.insert(key);
                let ghost after = ctx@;
                let _ = self.pool.insert(pd.handle, ctx);
                assert(after =~= PdCtxView { qp: before.qp.insert(qpn@), ..before });
                assert(self@ =~= old(self)@.insert(pd.handle, after));
                r
            },
            None => false,
        }
    }

    /// Takes a queue pair from a protection domain.
    pub fn remove_qp(&mut self, pd: Pd, qpn: Qpn)
        requires
            old(self)@.contains_key(pd.handle),
        ensures
            final(self)@ == old(self)@.insert(
                pd.handle,
                PdCtxView { qp: old(self)@[pd.handle].qp.remove(qpn@), ..old(self)@[pd.handle] },
            ),
    {
        let key: u32 = qpn.get();
        let ghost before = self@[pd.handle];
        if let Some(ctx) = self.pool.remove(&pd.handle) {
            let mut ctx = ctx;
            let _ = ctx.qp.remove(&key);
            let ghost after = ctx@;
            let _ = self.pool.insert(pd.handle, ctx);
            assert(after =~= PdCtxView { qp: before.qp.remove(qpn@), ..before });
            assert(self@ =~= old(self)@.insert(pd.handle, after));
        }
    }
}

/// Whether a protection domain can be given back, or why not.
pub open spec fn dealloc_result(pool: Map<u32, PdCtxView>, pd: Pd) -> Result<(), Error> {
    if !pool.contains_key(pd.handle) {
        Err(Error::Invalid(Subject::Pd(pd)))
    } else if pool[pd.handle].mr != Set::<u32>::empty() {
        Err(Error::PdInUse { by_mr: true })
    } else if pool[pd.handle].qp != Set::<u32>::empty() {
        Err(Error::PdInUse { by_mr: false })
    } else {
        Ok(())
    }
}

/// A protection domain that was just allocated can be given back, and leaves
/// nothing behind.
pub proof fn law_alloc_dealloc(pool: Map<u32, PdCtxView>, pd: Pd)
    requires
        !pool.contains_key(pd.handle),
    ensures
        dealloc_result(pool.insert(pd.handle, PdCtxView::empty()), pd) is Ok,
        pool.insert(pd.handle, PdCtxView::empty()).remove(pd.handle) == pool,
{
    assert(pool.insert(pd.handle, PdCtxView::empty()).remove(pd.handle) =~= pool);
}

/// A protection domain can be given back just where it exists and nothing uses it
/// any more.
pub proof fn law_unused_pd_goes_back(pool: Map<u32, PdCtxView>, pd: Pd)
    ensures
        dealloc_result(pool, pd) is Ok <==> pool.contains_key(pd.handle) && pool[pd.handle].mr =~= Set::<u32>::empty()
            && pool[pd.handle].qp =~= Set::<u32>::empty(),
        !pool.contains_key(pd.handle) ==> dealloc_result(pool, pd) == Err::<(), Error>(Error::Invalid(Subject::Pd(pd))),
        pool.contains_key(pd.handle) && pool[pd.handle].mr != Set::<u32>::empty() ==> dealloc_result(pool, pd) == Err::<
            (),
            Error,
        >(Error::PdInUse { by_mr: true }),
{
}

} // verus!
