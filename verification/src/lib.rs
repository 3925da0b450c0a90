//! A directory bookmarking store: named bookmarks for directory paths,
//! persisted between invocations in a single JSON document.

use vstd::prelude::*;

pub mod codec;
pub mod pairs;
pub mod store;
pub mod table;

pub use codec::json_of;
pub use codec::json_parsed;
pub use store::save_and_reload;
pub use store::DirectoryCollection;

verus! {

/// The errors this library reports.
#[derive(Debug, Clone, Copy, PartialEq, Eq, Structural)]
pub enum StoreError {
    /// The backing file exists but could not be decoded.
    Load,
    /// The path handed to an insertion did not resolve on the filesystem.
    PathResolution,
}

} // verus!
