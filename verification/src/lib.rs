//! Server-side core of the classic file-synchronization daemon wire
//! protocol (version 31.0): the textual preamble state machine, the
//! multiplexed framing layer, the on-the-wire encoding of file entries,
//! and the block-checksum intake.
use vstd::prelude::*;

pub mod errors;
pub mod file_list;
pub mod frame;
pub mod handshake;
pub mod session;
pub mod socket;
pub mod varint;
