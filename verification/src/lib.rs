//! Core engine for a remote key-value store client: a framed IPC protocol
//! between host-language wrapper processes and a multiplexed backend
//! connection. This crate holds the verified logic: the wire codec for
//! length-prefixed frames, the reassembly buffer that turns a raw byte
//! stream into complete frames, the router that correlates requests with
//! responses, the retry policy, and the per-connection state machine.
//! The socket and backend I/O around it is ordinary async plumbing and
//! lives outside this crate.

pub mod backend;
pub mod codec;
pub mod errors;
pub mod listener;
pub mod protocol;
pub mod rotating_buffer;
pub mod retry;
pub mod router;
