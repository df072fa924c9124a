//! A live document store for a markdown preview server.
//!
//! The crate keeps rendered documents in step with the files they come from
//! and tells viewers when to reload. It performs no file or network I/O
//! itself: a driver watches the disk, describes what it saw in plain values,
//! and the functions here decide what the store holds afterwards.
//!
//! - [`watch`] classifies file-system notifications and applies them.
//! - [`store`] holds the tracked documents.
//! - [`broadcast`] is the channel that reload messages go out through.
//! - [`observe`] is the vocabulary in which a driver reports what is on disk.
//! - [`render`], [`paths`], [`scan`], [`tree`] and [`serve`] hold the rules
//!   around them: rendering, file types and keys, the first scan of a
//!   directory, the navigation tree, and the decisions of the serving side.
//! - [`laws`] states what holds of all of it.

pub mod broadcast;
pub mod laws;
pub mod observe;
pub mod paths;
pub mod render;
pub mod scan;
pub mod serve;
pub mod store;
pub mod text;
pub mod tree;
pub mod watch;

pub use crate::broadcast::{ReloadHub, ServerMessage};
pub use crate::observe::{FileError, FileObservation, PathReport};
pub use crate::paths::{guess_image_content_type, is_image_file, is_markdown_file};
pub use crate::render::markdown_to_html;
pub use crate::scan::{scan_markdown_files, ListedPath};
pub use crate::store::{MarkdownState, TrackedFile};
pub use crate::tree::{build_file_tree, TreeNode};
pub use crate::watch::{
    handle_file_event, handle_markdown_file_change, EventKind, FileEvent, Operation, RenameMode,
};
