//! A simulated smart socket controlled over a line-based text protocol.
//!
//! `device` models the socket, `command` maps one protocol line to a state
//! change and a reply, and `session` turns the bytes of one read from a
//! client into the replies to write back and the decision to close.
pub mod command;
pub mod device;
pub mod session;

pub use command::{CommandError, process_message};
pub use device::SmartSocket;
pub use session::{ChunkReply, handle_chunk, handle_text};
