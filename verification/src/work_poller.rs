//! What becomes of the descriptors that the card reports.

use vstd::prelude::*;
use crate::buf::Slot;
#[allow(unused_imports)]
use crate::buf::NIC_PACKET_BUFFER_SLOT_SIZE;
use crate::checker::PacketCheckEvent;
use crate::device::error::DeviceError;
use crate::device::work::{ToHostWorkRbDesc, ToHostWorkRbDescRaw, ToHostWorkRbDescStatus};
use crate::types::Key;

verus! {

/// A plain packet that was received
#[derive(Debug, Clone, Copy, PartialEq, Eq, Structural)]
pub struct NicRecvNotification {
    /// Where the packet is
    pub addr: u64,
    /// The key of that memory
    pub key: Key,
    /// How many bytes it has
    pub len: u32,
}

impl NicRecvNotification {
    /// The buffer that holds the packet
    pub fn buf(&self) -> (r: Slot<NIC_PACKET_BUFFER_SLOT_SIZE>)
        requires
            self.addr <= usize::MAX,
        ensures
            r.addr == self.addr,
            r.key == self.key,
    {
        Slot::from_raw_parts_mut(self.addr as usize, self.key)
    }
}

/// What is to be done about a descriptor
#[derive(Debug, Clone, Copy)]
pub enum PollAction {
    /// Hand it to the checker
    Check(PacketCheckEvent),
    /// Hand it to the network interface
    Nic(NicRecvNotification),
}

/// What becomes of what was taken from the ring of reports. Errors, reports of a
/// status that is not normal, and negative acknowledgements are left alone;
/// plain packets go to the network interface, and all others to the checker.
pub open spec fn action_for(popped: Result<ToHostWorkRbDesc, DeviceError>) -> Option<PollAction> {
    match popped {
        Err(e) => None,
        Ok(desc) => if desc.status_spec() != ToHostWorkRbDescStatus::Normal {
            None
        } else {
            match desc {
                ToHostWorkRbDesc::Read(desc) => Some(PollAction::Check(PacketCheckEvent::ReadReq(desc))),
                ToHostWorkRbDesc::WriteOrReadResp(desc) => Some(PollAction::Check(PacketCheckEvent::Write(desc))),
                ToHostWorkRbDesc::Ack(desc) => Some(PollAction::Check(PacketCheckEvent::Ack(desc))),
                ToHostWorkRbDesc::Raw(desc) => Some(
                    PollAction::Nic(NicRecvNotification { addr: desc.addr, key: desc.key, len: desc.len }),
                ),
                ToHostWorkRbDesc::WriteWithImm(desc) => None,
                ToHostWorkRbDesc::Nack(desc) => None,
            }
        },
    }
}

fn handle_work_desc_raw(desc: &ToHostWorkRbDescRaw) -> (r: PollAction)
    ensures
        r == PollAction::Nic(NicRecvNotification { addr: desc.addr, key: desc.key, len: desc.len }),
{
    PollAction::Nic(NicRecvNotification { addr: desc.addr, key: desc.key, len: desc.len })
}

/// What to do about what was taken from the ring of reports. Writes with
/// immediate data are not supported.
pub fn recv_a_desc(popped: Result<ToHostWorkRbDesc, DeviceError>) -> (r: Option<PollAction>)
    requires
        popped matches Ok(desc) ==> !(desc is WriteWithImm) || desc.status_spec() != ToHostWorkRbDescStatus::Normal,
    ensures
        r == action_for(popped),
{
    let desc: ToHostWorkRbDesc = match popped {
        Ok(desc) => desc,
        Err(_) => {
            return None;
        },
    };
    if !matches!(desc.status(), ToHostWorkRbDescStatus::Normal) {
        return None;
    }
    match desc {
        ToHostWorkRbDesc::Read(desc) => Some(PollAction::Check(PacketCheckEvent::from(desc))),
        ToHostWorkRbDesc::WriteOrReadResp(desc) => Some(PollAction::Check(PacketCheckEvent::from(desc))),
        ToHostWorkRbDesc::Ack(desc) => Some(PollAction::Check(PacketCheckEvent::from(desc))),
        ToHostWorkRbDesc::Raw(desc) => Some(handle_work_desc_raw(&desc)),
        ToHostWorkRbDesc::WriteWithImm(_) => None,
        ToHostWorkRbDesc::Nack(_) => None,
    }
}

/// A report whose status is normal is handed on as it is: writes, answers to reads,
/// read requests and acknowledgements to the checker, plain packets to the network
/// interface with their place and length. A negative acknowledgement, and every
/// report whose status is not normal, is left alone.
pub proof fn law_reports_are_handed_on(desc: ToHostWorkRbDesc, e: DeviceError)
    ensures
        action_for(Err(e)) is None,
        match desc {
            ToHostWorkRbDesc::Read(d) => if d.common.status == ToHostWorkRbDescStatus::Normal {
                action_for(Ok(desc)) matches Some(PollAction::Check(PacketCheckEvent::ReadReq(x))) && x == d
            } else {
                action_for(Ok(desc)) is None
            },
            ToHostWorkRbDesc::WriteOrReadResp(d) => if d.common.status == ToHostWorkRbDescStatus::Normal {
                action_for(Ok(desc)) matches Some(PollAction::Check(PacketCheckEvent::Write(x))) && x == d
            } else {
                action_for(Ok(desc)) is None
            },
            ToHostWorkRbDesc::Ack(d) => if d.common.status == ToHostWorkRbDescStatus::Normal {
                action_for(Ok(desc)) matches Some(PollAction::Check(PacketCheckEvent::Ack(x))) && x == d
            } else {
                action_for(Ok(desc)) is None
            },
            ToHostWorkRbDesc::Raw(d) => if d.common.status == ToHostWorkRbDescStatus::Normal {
                action_for(Ok(desc)) matches Some(PollAction::Nic(x)) && x.addr == d.addr && x.key == d.key && x.len
                    == d.len
            } else {
                action_for(Ok(desc)) is None
            },
            ToHostWorkRbDesc::Nack(d) => action_for(Ok(desc)) is None,
            ToHostWorkRbDesc::WriteWithImm(d) => d.common.status != ToHostWorkRbDescStatus::Normal ==> action_for(
                Ok(desc),
            ) is None,
        },
{
}

} // verus!
