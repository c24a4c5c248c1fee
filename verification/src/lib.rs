//! A verified index for a virtual overlay filesystem.
//!
//! Several independently-sourced directory trees ("packs") each contribute
//! files at relative paths. When more than one pack supplies a file at the
//! same path, resolution picks a single winner: a per-path override rule if
//! one is pinned, otherwise the active candidate whose pack has the dominant
//! priority. The index also groups files that collide on a relative path
//! (conflicts) and files that share a content hash (duplicates).

pub mod commands;
pub mod compact;
pub mod detect;
pub mod filters;
pub mod hash;
pub mod index;
pub mod ingest;
pub mod laws;
pub mod ledger;
pub mod model;
pub mod order;
pub mod priority;
pub mod queries;
pub mod resolve;
pub mod rules;

pub use commands::ListPack;
pub use commands::ListTree;
pub use commands::ResultOverTree;
pub use commands::ResultPack;
pub use commands::ViewOverTree;
pub use commands::ViewPack;
pub use index::OverlayIndex;
pub use ingest::IngestEntry;
pub use model::ConflictFile;
pub use model::ConflictFileList;
pub use model::FileNode;
pub use model::FileOverLinkList;
pub use model::FileOverTree;
pub use model::FileTreeNode;
pub use model::HashEqualFiles;
pub use model::InfoBase;
pub use model::OverlayError;
pub use model::OverrideRule;
pub use model::PackInfo;
pub use priority::Priority;
