//! A split tracker for a single running game process.
//!
//! The library holds the logic that can be reasoned about: decoding the
//! telemetry wire format, the split-detection state machine, the category
//! records with their best-segment bookkeeping, the persistence codec, and
//! the decisions of the process locator and module injector. The operating
//! system calls, the datagram socket and the on-disk file handling live in
//! the surrounding application.

pub mod bytes;
pub mod frame;
pub mod records;
pub mod engine;
pub mod codec;
pub mod locator;
pub mod inject;
pub mod channel;
