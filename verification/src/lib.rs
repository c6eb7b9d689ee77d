//! The shared `DeepMind` patch library, as code.
//!
//! One `.syx` and one `.toml` per sound, under `presets/<Category>/`. This crate
//! checks that layout, derives what the program bytes say, and builds the
//! `index.toml` a release ships. An application links it to browse a checkout
//! or an index, to match a program dumped from an instrument back to the patch
//! and version it came from, and to check for updates.

pub mod calendar;
pub mod category;
pub mod create;
pub mod derived;
pub mod document;
pub mod error;
pub mod fetch;
pub mod fingerprint;
pub mod gallery;
pub mod icon;
pub mod index;
pub mod library;
pub mod meta;
pub mod order;
pub mod mp3;
pub mod program;
pub mod release;
pub mod rules;
pub mod slug;
pub mod taxonomy;
pub mod text;
pub mod validate;
pub mod version;

pub use category::Category;
pub use error::Error;
pub use version::LibraryVersion;

use vstd::prelude::*;

verus! {

/// Schema number of `index.toml` this crate reads and writes.
///
/// Bumped when a change would make an older reader misread the file. A reader
/// refuses a higher number instead of guessing.
pub const INDEX_SCHEMA: u32 = 1;

/// Folder the presets live in, relative to the repository root.
pub const PRESETS_DIR: &'static str = "presets";

/// Folder the demos live in, mirroring [`PRESETS_DIR`].
pub const DEMOS_DIR: &'static str = "demos";

/// Folder the icons and palette live in.
pub const RESOURCES_DIR: &'static str = "resources";

/// The vocabularies file at the root.
pub const TAXONOMY_FILE: &'static str = "taxonomy.toml";

} // verus!
