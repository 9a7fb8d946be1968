//! The request by which the kernel is asked where the card's memory is.

use vstd::prelude::*;

verus! {

/// The number of the request
pub const RDMA_IOCTL_CMD: u64 = 0xc018_1b01;

/// How many bytes the head of a request takes
pub const SYSCALL_REQ_SIZE: u16 = 24;

/// How many bytes an attribute of a request takes
pub const SYSCALL_REQ_ATTR_SIZE: u16 = 16;

/// How many bytes the answer takes: nine numbers of 64 bits
pub const GET_UCONTEXT_RESP_SIZE: u16 = 72;

/// The head of a request
#[derive(Debug, Clone, Copy, PartialEq, Eq, Structural)]
pub struct RDMASyscallReq {
    pub length: u16,
    pub object_id: u16,
    pub method_id: u16,
    pub num_attrs: u16,
    pub reserved1: u64,
    pub driver_id: u32,
    pub reserved2: u32,
}

/// An attribute of a request
#[derive(Debug, Clone, Copy, PartialEq, Eq, Structural)]
pub struct RDMASyscallReqAttr {
    pub attr_id: u16,
    pub len: u16,
    pub flags: u16,
    pub reserved: u16,
    pub data: u64,
}

/// The request for a user context
#[derive(Debug, Clone, Copy, PartialEq, Eq, Structural)]
pub struct RDMAGetUContextSyscallReq {
    pub req: RDMASyscallReq,
    pub attr: RDMASyscallReqAttr,
}

impl RDMAGetUContextSyscallReq {
    /// The request for a user context, whose answer is to be written to the
    /// given address
    pub fn new_get_context(resp_addr: u64) -> (r: Self)
        ensures
            r.req == (RDMASyscallReq {
                length: 40,
                object_id: 0,
                method_id: 3,
                num_attrs: 1,
                reserved1: 0,
                driver_id: 0,
                reserved2: 0,
            }),
            r.attr == (RDMASyscallReqAttr { attr_id: 4097, len: 72, flags: 1, reserved: 0, data: resp_addr }),
    {
        let req = RDMASyscallReq {
            length: SYSCALL_REQ_SIZE + SYSCALL_REQ_ATTR_SIZE,
            object_id: 0,
            method_id: 3,  // get context
            num_attrs: 1,
            reserved1: 0,
            driver_id: 0,  // RDMA Unknown
            reserved2: 0,
        };
        let attr = RDMASyscallReqAttr {
            attr_id: 4097,  // out ptr attr
            len: GET_UCONTEXT_RESP_SIZE,
            flags: 1,
            reserved: 0,
            data: resp_addr,
        };
        Self { req, attr }
    }
}

} // verus!
