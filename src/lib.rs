//! Navigation and selection state of a terminal directory browser.
//!
//! The library holds the browser's logic: the model of a directory path, the
//! entries of one directory level, the navigation manager that owns the
//! current directory and its snapshot, and the selection/filter state that
//! decides which entries are visible and which one is highlighted. Reading a
//! directory and renaming a node on disk are done by the caller, which hands
//! the outcome back as plain values.

pub mod entry;
pub mod error;
pub mod manager;
pub mod path;
pub mod snapshot;
pub mod ui;

pub use entry::{Entry, EntryType};
pub use error::NavError;
pub use manager::Manager;
pub use path::FsPath;
pub use snapshot::{ChildInfo, ChildMetadata};
pub use ui::{UIEvent, UIManager};
