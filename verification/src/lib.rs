//! Verified building blocks for passing data and file descriptors between
//! processes through shared memory and Unix-domain sockets.
//!
//! - `wire`: the byte forms of integers as they cross a process boundary.
//! - `region`: the bytes of a shared-memory region, written and read at
//!   offsets.
//! - `record`: plain-old-data records stored in a region.
//! - `cmsg`: `SCM_RIGHTS` control messages that carry a descriptor.
//! - `transfer`: what the results of `sendmsg`, `recvmsg` and `fcntl` mean.

pub mod cmsg;
pub mod record;
pub mod region;
pub mod transfer;
pub mod wire;
