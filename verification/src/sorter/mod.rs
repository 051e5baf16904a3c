//! Putting files into rolls: the order of their names, and the place each
//! file is copied to.

pub mod natural;
pub mod rolls;
pub mod sorting;

pub use crate::sorter::natural::HumanString;
pub use crate::sorter::sorting::NaturalSort;

use vstd::prelude::*;

verus! {

/// What the caller asks for.
#[derive(Debug, Clone)]
pub struct Args {
    /// The directory where files are located.
    pub input_directory: String,
    /// The directory to place all the files.
    pub output_directory: String,
    /// The amount of files per folder.
    pub amount_per_folder: usize,
}

} // verus!
