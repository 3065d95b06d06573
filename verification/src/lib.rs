//! Turns a push notification into per-directory archives.
//!
//! A notification lists, commit by commit, the files that were added. The
//! library extracts those paths, groups them by their parent directory and
//! packs each group into one archive held in memory. Reading the member
//! files, running the repository update and serving HTTP are left to the
//! caller, who hands in plain values and gets plain values back.

pub mod json;
pub mod text;
pub mod changes;
pub mod paths;
pub mod groups;
pub mod writer;
pub mod archive;
pub mod sync;
pub mod front;
pub mod pipeline;
pub mod publish;
