//! Selective reformatting support: given the hunks of a diff, group the
//! touched line ranges per destination file and prepare the invocation of an
//! external formatting tool restricted to exactly those ranges.

pub mod batcher;
pub mod hunks;
pub mod invoker;
pub mod selector;
