use vstd::prelude::*;
use crate::priority::Priority;

verus! {

/// The view of a segment list: a sequence of character sequences.
pub open spec fn segs_view(v: Seq<String>) -> Seq<Seq<char>> {
    v.map_values(|s: String| s@)
}

/// One file or directory entry inside a pack's tree.
///
/// Immutable once created, except for the `is_active` / `is_deployed` flags
/// and deletion when the owning pack is removed.
#[derive(Debug, Clone)]
pub struct FileNode {
    /// Identity, minted by the index and unique across all file nodes.
    /// File identities and pack identities are separate namespaces: the
    /// index never compares one against the other, and every reference
    /// names its kind (`file_id` or `pack_id`).
    pub id: u64,
    /// Identity of the owning pack.
    pub pack_id: u64,
    /// Identity of the parent node; `None` for pack-root children.
    pub parent_id: Option<u64>,
    /// Entry name: the last path segment.
    pub name: String,
    /// Path relative to the pack root, split into segments; its length is the depth.
    pub path_segments: Vec<String>,
    /// Whether the entry is a directory.
    pub is_dir: bool,
    /// Content hash, present exactly for non-directory entries.
    pub hash: Option<String>,
    /// Byte size, present exactly for non-directory entries.
    pub size: Option<u64>,
    /// Whether the node takes part in resolution.
    pub is_active: bool,
    /// Cached deployment mark; informational only.
    pub is_deployed: bool,
}

impl FileNode {
    /// The node's relative path as a sequence of character sequences.
    pub open spec fn path_view(self) -> Seq<Seq<char>> {
        segs_view(self.path_segments@)
    }

    /// Structural validity of a single node.
    pub open spec fn wf(self) -> bool {
        &&& self.path_segments@.len() >= 1
        &&& self.name@ == self.path_view().last()
        &&& self.is_dir ==> self.hash is None && self.size is None
        &&& !self.is_dir ==> self.hash is Some && self.size is Some
    }
}

/// Free-form pack metadata, supplied by the caller.
#[derive(Debug, Clone)]
pub struct InfoBase {
    /// Identity of the pack the metadata belongs to.
    pub id: u64,
    /// Display name.
    pub name: String,
    /// Tag list.
    pub tag: Vec<String>,
    /// Description.
    pub description: Option<String>,
    /// Author.
    pub author: Option<String>,
    /// Version string.
    pub version: Option<String>,
}

/// One pack: an ingested directory tree together with its ordering state
/// and metadata.
#[derive(Debug, Clone)]
pub struct PackInfo {
    /// Identity, supplied by the caller and unique across all packs. Pack
    /// identities form their own namespace, distinct from file-node
    /// identities.
    pub id: u64,
    /// Filesystem path of the pack's root.
    pub base_path: String,
    /// Ordering key; a larger value dominates resolution.
    pub priority: Priority,
    /// Display name.
    pub name: Option<String>,
    /// Tag list.
    pub tags: Vec<String>,
    /// Description.
    pub description: Option<String>,
    /// Author.
    pub author: Option<String>,
    /// Version string.
    pub version: Option<String>,
    /// Cached deployment mark; informational only.
    pub is_deployed: bool,
    /// Whether the pack's nodes take part in resolution.
    pub is_active: bool,
    /// Creation time in milliseconds, supplied by the caller.
    pub add_time: i64,
    /// Last metadata-update time in milliseconds, supplied by the caller.
    pub meta_updated_at: i64,
}

/// A manual pin: at `path`, the file `file_id` of pack `pack_id` wins
/// unconditionally, as long as it is still present and its pack is active.
#[derive(Debug, Clone)]
pub struct OverrideRule {
    /// The exact relative path the pin applies to.
    pub path: Vec<String>,
    /// Identity of the pinned file.
    pub file_id: u64,
    /// Identity of the pack the pinned file belongs to.
    pub pack_id: u64,
}

impl OverrideRule {
    /// The rule's relative path as a sequence of character sequences.
    pub open spec fn path_view(self) -> Seq<Seq<char>> {
        segs_view(self.path@)
    }
}

/// A row of the per-pack tree listing.
#[derive(Debug, Clone)]
pub struct FileTreeNode {
    /// Identity of the file.
    pub id: u64,
    /// Entry name.
    pub name: String,
    /// Relative path segments.
    pub path_segments: Vec<String>,
    /// Whether the entry is a directory.
    pub is_dir: bool,
    /// Byte size, for non-directory entries.
    pub size: Option<u64>,
    /// Content hash, for non-directory entries.
    pub hash: Option<String>,
    /// Whether the node takes part in resolution.
    pub is_active: bool,
    /// Cached deployment mark.
    pub is_deployed: bool,
    /// Depth: the number of path segments.
    pub depth: usize,
}

impl FileTreeNode {
    /// The listing row faithfully reflects the stored node `n`.
    pub open spec fn matches_node(self, n: FileNode) -> bool {
        &&& self.id == n.id
        &&& self.name@ == n.name@
        &&& self.path_segments@ == n.path_segments@
        &&& self.is_dir == n.is_dir
        &&& self.size == n.size
        &&& (match (self.hash, n.hash) {
            (Some(a), Some(b)) => a@ == b@,
            (None, None) => true,
            _ => false,
        })
        &&& self.is_active == n.is_active
        &&& self.is_deployed == n.is_deployed
        &&& self.depth == n.path_segments@.len()
    }
}

/// A row of the resolved overlay: the winning node at one relative path.
#[derive(Debug, Clone)]
pub struct FileOverTree {
    /// Identity of the winning file.
    pub file_id: u64,
    /// Identity of its owning pack.
    pub pack_id: u64,
    /// Identity of its parent node; `None` for pack-root children.
    pub parent_id: Option<u64>,
    /// Relative path segments of the resolved path.
    pub path_segments: Vec<String>,
    /// Whether the winner is a directory.
    pub is_dir: bool,
    /// Whether the winning node is active.
    pub is_active: bool,
    /// Cached deployment mark of the winning node.
    pub is_deployed: bool,
}

impl FileOverTree {
    /// The overlay row faithfully reflects the stored node `n`.
    pub open spec fn matches_node(self, n: FileNode) -> bool {
        &&& self.file_id == n.id
        &&& self.pack_id == n.pack_id
        &&& self.parent_id == n.parent_id
        &&& self.path_segments@ == n.path_segments@
        &&& self.is_dir == n.is_dir
        &&& self.is_active == n.is_active
        &&& self.is_deployed == n.is_deployed
    }
}

/// A row of the deployment listing: one winning file with the relative path
/// it resolves and the absolute path of its source inside the pack.
#[derive(Debug, Clone)]
pub struct FileOverLinkList {
    /// Identity of the winning file.
    pub file_id: u64,
    /// Identity of its owning pack.
    pub pack_id: u64,
    /// Identity of its parent node.
    pub parent_id: Option<u64>,
    /// The resolved relative path, segments joined with `/`.
    pub path_relative: String,
    /// The source path: the pack's base path, `/`, and the relative path.
    pub path_absolute: String,
    /// Cached deployment mark of the winning node.
    pub is_deployed: bool,
}

/// One competing file inside a conflict group.
#[derive(Debug, Clone)]
pub struct ConflictFile {
    /// Identity of the owning pack.
    pub pack_id: u64,
    /// Identity of the file.
    pub file_id: u64,
    /// Identity of the parent node.
    pub parent_id: Option<u64>,
    /// The owning pack's priority at query time.
    pub priority: Priority,
    /// Whether the file itself is active.
    pub file_active: bool,
    /// The owning pack's base path.
    pub base_path: String,
}

/// All files competing at one relative path, for operator review.
#[derive(Debug, Clone)]
pub struct ConflictFileList {
    /// The contested relative path, segments joined with `/`.
    pub relative_path: String,
    /// Identity of the first competing file in node order.
    pub file_id: u64,
    /// Identity of that file's pack.
    pub pack_id: u64,
    /// Every file at the path, in node order.
    pub files: Vec<ConflictFile>,
}

/// One member of a group of byte-identical files.
#[derive(Debug, Clone)]
pub struct HashEqualFiles {
    /// Identity of the file.
    pub file_id: u64,
    /// Identity of its owning pack.
    pub pack_id: u64,
    /// The shared content hash.
    pub hash: String,
    /// Relative path segments of the file.
    pub path_segments: Vec<String>,
}

/// Why an index operation was refused.
#[derive(Debug, Clone, PartialEq, Eq, Structural)]
pub enum OverlayError {
    /// No pack has the given identity.
    PackNotFound,
    /// A pack with the given identity already exists.
    PackExists,
    /// No file node has the given identity.
    FileNotFound,
    /// An override rule for the given path already exists.
    OverrideExists,
    /// No override rule matches the given path or pack.
    OverrideNotFound,
}

} // verus!
