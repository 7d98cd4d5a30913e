//! A session-scoped filter that decides which paths of a working tree are in
//! scope for synchronisation: those that version control reports as changed,
//! their ancestor directories and the metadata files that belong to them.

pub mod closure;
pub mod filter;
pub mod laws;
pub mod names;
pub mod path;
pub mod pathset;
pub mod query;
pub mod serve;
pub mod snapshot;
pub mod text;

pub use filter::GitFilter;
pub use names::strip_lua_extension;
pub use path::FsPath;
pub use pathset::PathSet;
pub use query::{ChangeReport, GitError, Query, QueryResult};
pub use snapshot::FsSnapshot;
