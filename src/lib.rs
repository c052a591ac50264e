//! The core of a line-based TCP chat server: chat messages and their
//! rendering, the table of registered peers, the fan-out of a broadcast, and
//! the lifecycle of one connection, all as plain state machines that the
//! server's I/O drives. Beside it, text signing, verification and
//! encryption, and the error body of an HTTP reply.
use vstd::prelude::*;

pub mod fanout;
pub mod message;
pub mod registry;
pub mod response;
pub mod session;
pub mod text;

verus! {

} // verus!
