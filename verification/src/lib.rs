//! User space driver for an RDMA card: its data types, the descriptors that
//! travel through the card's ring buffers, the packets it answers with, and the
//! bookkeeping of what was received.

/// Bit fields inside byte buffers.
pub mod bits;

/// Numbers in network byte order.
pub mod endian;

/// Protection domains.
pub mod pd;

/// The numbers, flags and addresses that the driver deals in.
pub mod types;

/// Packet arithmetic and memory areas.
pub mod utils;

/// The card as the driver sees it.
pub mod device;

/// Which packets of a message have been received.
pub mod window;

/// Buffers for acknowledgements and plain packets.
pub mod buf;

/// Operations that are under way.
pub mod op_ctx;

/// Queue pairs.
pub mod qp;

/// The packets and descriptors with which the driver answers its peer.
pub mod responser;

/// Follows the packets that the card reports.
pub mod checker;

/// What the checker makes of a whole message.
pub mod delivery;

/// Sending work descriptors again when no answer comes.
pub mod retry;

/// What becomes of the descriptors that the card reports.
pub mod work_poller;

/// The device as its users see it.
pub mod driver;

/// The card's own numbers and descriptors.
pub mod card;

/// What becomes of the bytes of a read or a write.
pub mod transfer;
