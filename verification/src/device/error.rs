//! Errors of the device.

use vstd::prelude::*;

verus! {

/// A part of a descriptor that can hold a number without a meaning
#[derive(Debug, Clone, Copy, PartialEq, Eq, Structural)]
pub enum DescField {
    /// The status of a request
    Status,
    /// The transport type
    TransType,
    /// The opcode of a work descriptor
    Opcode,
    /// The code of an acknowledgement
    AethCode,
    /// The opcode of a command
    CtrlOpcode,
}

/// What can go wrong in the device
#[derive(Debug, Clone, Copy, PartialEq, Eq, Structural)]
pub enum DeviceError {
    /// Device related error
    Device,
    /// A ring is full
    Overflow,
    /// The scheduler failed
    Scheduler,
    /// A descriptor holds a number that has no meaning
    ParseDesc(DescField, u8),
    /// Polling timeout
    Timeout,
}

} // verus!
