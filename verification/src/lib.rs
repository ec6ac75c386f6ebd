pub mod error;
pub mod laws;
pub mod sird;
pub mod wire;

pub use crate::error::Error;
pub use crate::sird::{Record, RecordIterator, SIRD};
pub use crate::wire::MAGIC;
