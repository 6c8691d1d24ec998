//! Frame synchronization and decoding engine for a serial air-quality sensor
//! that frames its responses with the two magic bytes `0x42 0x4D` ("BM").
//!
//! The library locates that header inside an arbitrarily chunked byte stream,
//! accumulates complete 24-byte frames, and decodes six physical quantities
//! from fixed byte offsets. Opening the serial port, persisting records and
//! the outer polling cadence are left to the surrounding program.

pub mod decode;
pub mod frame;
pub mod poll;
pub mod sync;

pub use decode::Record;
pub use frame::RawFrame;
pub use poll::ReadOutcome;
pub use sync::FrameSynchronizer;
