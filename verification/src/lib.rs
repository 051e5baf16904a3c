//! Bulk generation of serial-numbered label documents: check digits,
//! rendering, batching and the naming of the files that hold the batches.

pub mod batch;
pub mod check_digit;
pub mod decimal;
pub mod generator;
pub mod orchestrator;
pub mod persist;
pub mod range;
pub mod sorter;
pub mod tag;

pub use crate::check_digit::digit_checksum;
pub use crate::generator::generate_zpl;
pub use crate::orchestrator::Args;
pub use crate::tag::TagData;
