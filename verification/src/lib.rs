//! Decoding of CAN bus traces.
//!
//! The crate turns the raw frames of a bus trace into decoded events: it holds
//! a database of message, signal and container definitions, extracts signal
//! values from frame payloads bit by bit, and unpacks container frames into the
//! messages they carry. Every function is verified against the contract it
//! states; timestamps are nanoseconds and real-valued attributes are held as
//! exact scalars, so that no floating-point arithmetic happens here.

use vstd::prelude::*;

pub mod bits;
pub mod config;
pub mod container_decoder;
pub mod decoder;
pub mod formats;
pub mod message_decoder;
pub mod scalar;
pub mod signals;
pub mod text;
pub mod types;

pub use config::{CanTpPair, DecoderConfig};
pub use container_decoder::ContainerDecoder;
pub use decoder::{Decoder, DecodingIterator, LogFormat};
pub use message_decoder::MessageDecoder;
pub use scalar::Scalar;
pub use signals::database::DatabaseStats;
pub use types::{
    CanFrame, ContainedMessage, ContainedPdu, ContainerType, DecodedEvent, DecodedSignal,
    DecoderError, PhysicalValue, SignalValue, Timestamp,
};

verus! {

/// The version of the library.
pub const VERSION: &'static str = "0.1.0";

} // verus!
