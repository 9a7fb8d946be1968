//! The card as the driver sees it: the descriptors and rings through which the
//! two talk.

/// Registers and addresses.
pub mod csr;
/// Descriptors of the command queues.
pub mod ctrl;
/// Errors of the device.
pub mod error;
/// Asking the kernel where the card's memory is.
pub mod ib_verbs;
/// The rings of descriptors.
pub mod ringbuf;
/// Scheduling of work descriptors.
pub mod scheduler;
/// Lists of scatter gather elements.
pub mod sgl;
/// A card in software.
pub mod software;
/// Descriptors of the work queues.
pub mod work;
