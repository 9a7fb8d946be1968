//! Operations that are under way.

use vstd::prelude::*;
use crate::types::{Error, Msn, Qpn};

verus! {

/// The status of operations.
#[derive(Debug, Clone, Copy)]
pub enum CtxStatus {
    /// The operation is invalid.
    Invalid,
    /// The operation is running.
    Running,
    /// The operation is stopped.
    Failed(&'static str),
    /// The operation is finished.
    Finished,
}

/// The operation context.
///
/// The operation context is track to manage the status of operations.
/// When calling the `read`,`write` or some `control` command, you get an operation context.
///
/// Whoever waits for the operation asks `wait` whether to sleep, and is woken
/// where `set_result` or `set_error` says so.
#[derive(Debug)]
pub struct OpCtx<Payload> {
    status: CtxStatus,
    waiting: bool,
    payload: Option<Payload>,
}

/// What is known of an operation
pub struct OpView<Payload> {
    pub status: CtxStatus,
    /// Somebody sleeps until the operation is done
    pub waiting: bool,
    pub payload: Option<Payload>,
}

impl<Payload> View for OpCtx<Payload> {
    type V = OpView<Payload>;

    closed spec fn view(&self) -> OpView<Payload> {
        OpView { status: self.status, waiting: self.waiting, payload: self.payload }
    }
}

impl<Payload> OpCtx<Payload> {
    /// Create a new operation context with the status of `Running`.
    #[must_use]
    pub fn new_running() -> (r: Self)
        ensures
            r@ == (OpView { status: CtxStatus::Running, waiting: false, payload: None::<Payload> }),
    {
        Self { status: CtxStatus::Running, waiting: false, payload: None }
    }

    /// Whether the caller has to sleep until it is woken: the operation is
    /// running. It is then known that somebody sleeps.
    pub fn wait(&mut self) -> (r: bool)
        ensures
            r == (old(self)@.status is Running),
            final(self)@ == (OpView { waiting: old(self)@.waiting || r, ..old(self)@ }),
    {
        if matches!(self.status, CtxStatus::Running) {
            self.waiting = true;
            true
        } else {
            false
        }
    }

    /// Marks the operation as failed, and says whether a sleeper is to be woken.
    pub fn set_error(&mut self, cause: &'static str) -> (r: bool)
        ensures
            r == old(self)@.waiting,
            final(self)@ == (OpView { status: CtxStatus::Failed(cause), waiting: false, ..old(self)@ }),
    {
        let wake: bool = self.waiting;
        self.status = CtxStatus::Failed(cause);
        self.waiting = false;
        wake
    }

    /// Stores the result, and says whether a sleeper is to be woken.
    ///
    /// # Errors
    /// There is a result already. It stays, and nothing else changes.
    pub fn set_result(&mut self, result: Payload) -> (r: Result<bool, Error>)
        ensures
            old(self)@.payload is Some ==> r == Err::<bool, Error>(Error::SetCtxResultFailed) && final(self)@ == old(self)@,
            old(self)@.payload is None ==> r == Ok::<bool, Error>(old(self)@.waiting) && final(self)@ == (OpView {
                status: CtxStatus::Finished,
                waiting: false,
                payload: Some(result),
            }),
    {
        if self.payload.is_some() {
            return Err(Error::SetCtxResultFailed);
        }
        let wake: bool = self.waiting;
        self.payload = Some(result);
        self.status = CtxStatus::Finished;
        self.waiting = false;
        Ok(wake)
    }

    /// Get the result of the operation.
    ///
    /// Returns `None` if the operation is not finished.
    #[must_use]
    pub fn get_result(&self) -> (r: Option<&Payload>)
        ensures
            r is Some <==> self@.payload is Some,
            r is Some ==> *r->0 == self@.payload->0,
    {
        self.payload.as_ref()
    }

    /// The result, once there is nothing to wait for any more.
    ///
    /// # Errors
    /// Returns the cause if the operation failed.
    pub fn wait_result(&self) -> (r: Result<Option<&Payload>, Error>)
        ensures
            self@.status matches CtxStatus::Failed(cause) ==> r == Err::<Option<&Payload>, Error>(Error::Device(cause)),
            self@.status !is Failed ==> r is Ok && (r->Ok_0 is Some <==> self@.payload is Some) && (r->Ok_0 is Some
                ==> *(r->Ok_0->0) == self@.payload->0),
    {
        if let CtxStatus::Failed(cause) = self.status {
            return Err(Error::Device(cause));
        }
        Ok(self.payload.as_ref())
    }

    /// Get the status of the operation.
    pub fn status(&self) -> (r: CtxStatus)
        ensures
            r == self@.status,
    {
        self.status
    }
}

/// The control command operation context.
pub type CtrlOpCtx = OpCtx<bool>;

/// The key under which an operation is kept: the number of its queue pair, and
/// the number of its message.
pub open spec fn operation_key(qpn: u32, msn: u16) -> u64 {
    (qpn * 0x1_0000 + msn) as u64
}

/// The key under which an operation is kept
pub fn make_operation_key(qpn: Qpn, msn: Msn) -> (r: u64)
    ensures
        r == operation_key(qpn@, msn@),
        r < 0x100_0000_0000,
{
    qpn.get() as u64 * 0x1_0000 + msn.get() as u64
}

/// Different operations have different keys.
pub proof fn law_operation_keys_differ(qpn1: u32, msn1: u16, qpn2: u32, msn2: u16)
    ensures
        operation_key(qpn1, msn1) == operation_key(qpn2, msn2) <==> qpn1 == qpn2 && msn1 == msn2,
{
}

} // verus!
