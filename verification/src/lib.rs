//! Position-aware voice-chat link over a fixed-layout shared-memory segment.
//!
//! The crate holds the protocol logic only: the exact byte layout of the
//! shared struct, UTF-16 text encoding into its fixed buffers, and the
//! session state machines that decide when the segment is owned, contested
//! or abandoned. Opening, mapping and writing the OS shared-memory object
//! itself is left to the embedding program, which drives the sessions
//! through their per-frame operations and carries segment contents in and
//! out as plain values.

use vstd::prelude::*;

pub mod layout;
pub mod session;
pub mod wide;

pub use layout::LinkedMem;
pub use layout::Position;
pub use session::CloseReason;
pub use session::Inner;
pub use session::MapError;
pub use session::MumbleLink;
pub use session::OpenError;
pub use session::SharedLink;
pub use session::Status;
pub use session::Step;

pub use wide::copy;
pub use wide::read;

verus! {

} // verus!
