//! Readers of trace files.

pub mod blf;
pub mod blf_extended;
pub mod bytes;
pub mod inflate;
pub mod mf4;

pub use blf::{
    BlfFileStats, BlfFrameIterator, BlfParser, BlfStep, HybridBlfIterator, HybridBlfParser,
};
pub use blf_extended::{CanFdMessage, ObjectHeader};
pub use mf4::{MdfCanFrame, MdfError, Mf4Item};
