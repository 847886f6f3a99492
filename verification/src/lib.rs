//! Host-side flashing protocol engine for a serial firmware updater.
//!
//! The library covers the protocol logic: the command model, the frame
//! codec (byte stuffing over a compact binary layout), the page builder
//! that turns raw image blocks into checksummed page writes, the
//! transport-exchange helpers (frame chunking and reply classification),
//! and the update sequencer state machine. Actual I/O on the transport
//! is left to the surrounding application.

pub mod builder;
pub mod cobs;
pub mod codec;
pub mod command;
pub mod crc8;
pub mod exchange;
pub mod sequencer;
