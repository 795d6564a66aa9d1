#![allow(non_camel_case_types)]
#![allow(non_snake_case)]
#![allow(non_upper_case_globals)]

//! A blocking USB transport surface for a module that cannot reach the device
//! itself: every call becomes one request posted to a host worker and one
//! reply read back from a shared region. The crate holds the decisions of that
//! bridge (what is posted, how a reply is read and what it means for the
//! caller) and leaves posting, waiting and byte decoding to its embedder.
//!
//! - `heap`: the allocator of the module's memory
//! - `msgs`: the commands and their replies
//! - `channel`: one round trip over the shared region
//! - `structs`, `descriptor`: descriptor records and the trees built of them
//! - `device`, `transfer`, `misc`: the calls of the surface
//! - `printf`, `stdio`: the diagnostics of the protocol engine
//! - `cmd`: the records of the front end

pub mod channel;
pub mod cmd;
pub mod constants;
pub mod descriptor;
pub mod device;
pub mod heap;
pub mod misc;
pub mod msgs;
pub mod printf;
pub mod stdio;
pub mod structs;
pub mod transfer;
