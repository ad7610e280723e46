//! Splits the regular files of one flat directory into numbered (or custom-named)
//! subdirectories of at most `chunk` files each, in a chosen order.
//!
//! The library decides everything: which entries are moved, in which order, into
//! which directory. Reading the directory and performing the moves is left to the
//! caller, which hands the listing in and carries the resulting plan out.

pub mod entry;
pub mod naming;
pub mod order;
pub mod partition;
pub mod splitter;

pub use entry::Entry;
pub use naming::{DecimalName, DirectoryNaming, NameFn};
pub use order::{CmpFn, EntryOrder, NaturalOrder};
pub use splitter::{
    Chunk, DestinationAction, FileSplitToDirectory, FileSplitToDirectoryBuilder, SplitError,
    DEFAULT_CHUNK, destination_action,
};
