use vstd::prelude::*;
use crate::index::OverlayIndex;
use crate::model::FileNode;
use crate::model::InfoBase;
use crate::model::OverlayError;
use crate::model::PackInfo;
use crate::model::segs_view;
use crate::priority::Priority;

verus! {

/// A path separator: both kinds are accepted.
pub open spec fn is_sep(c: char) -> bool {
    c == '/' || c == '\\'
}

/// Splitting `s` from position `i` on, with `cur` the partial segment read
/// so far: the non-empty segments, in order.
pub open spec fn split_from(s: Seq<char>, i: int, cur: Seq<char>) -> Seq<Seq<char>>
    decreases s.len() - i,
{
    if i < 0 || i >= s.len() {
        if cur.len() > 0 {
            seq![cur]
        } else {
            Seq::empty()
        }
    } else if is_sep(s[i]) {
        let head: Seq<Seq<char>> = if cur.len() > 0 {
            seq![cur]
        } else {
            Seq::empty()
        };
        head + split_from(s, i + 1, Seq::empty())
    } else {
        split_from(s, i + 1, cur.push(s[i]))
    }
}

/// A relative path split at separators, empty segments discarded.
pub open spec fn split_path(s: Seq<char>) -> Seq<Seq<char>> {
    split_from(s, 0, Seq::empty())
}

/// Split a relative path into its non-empty segments.
///
/// Both `/` and `\` separate segments; consecutive, leading and trailing
/// separators produce no segment.
pub fn split_segments(path: &str) -> (r: Vec<String>)
    ensures
        segs_view(r@) == split_path(path@),
        forall|k: int| 0 <= k < r@.len() ==> (#[trigger] r@[k])@.len() > 0,
{
    let s_len = path.unicode_len();
    let mut segs: Vec<String> = Vec::new();
    let mut start: usize = 0;
    let mut i: usize = 0;
    proof {
        assert(path@.subrange(0, 0) =~= Seq::<char>::empty());
        assert(segs_view(segs@) + split_from(path@, 0, Seq::<char>::empty()) =~= split_from(
            path@,
            0,
            Seq::<char>::empty(),
        ));
    }
    while i < s_len
        invariant
            s_len == path@.len(),
            start <= i <= s_len,
            forall|k: int| start <= k < i ==> !is_sep(#[trigger] path@[k]),
            forall|k: int| 0 <= k < segs@.len() ==> (#[trigger] segs@[k])@.len() > 0,
            split_path(path@) == segs_view(segs@) + split_from(
                path@,
                i as int,
                path@.subrange(start as int, i as int),
            ),
        decreases s_len - i,
    {
        let c = path.get_char(i);
        let ghost cur = path@.subrange(start as int, i as int);
        if c == '/' || c == '\\' {
            if start < i {
                let piece = path.substring_char(start, i);
                let seg = String::from_str(piece);
                segs.push(seg);
                proof {
                    assert(cur.len() > 0);
                    assert(split_from(path@, i as int, cur) == seq![cur] + split_from(
                        path@,
                        i + 1,
                        Seq::<char>::empty(),
                    ));
                    assert(segs_view(segs@) =~= segs_view(segs@.drop_last()) + seq![cur]);
                    assert((segs_view(segs@.drop_last()) + seq![cur]) + split_from(
                        path@,
                        i + 1,
                        Seq::<char>::empty(),
                    ) =~= segs_view(segs@.drop_last()) + (seq![cur] + split_from(
                        path@,
                        i + 1,
                        Seq::<char>::empty(),
                    )));
                }
            } else {
                proof {
                    assert(cur.len() == 0);
                    assert(split_from(path@, i as int, cur) == split_from(
                        path@,
                        i + 1,
                        Seq::<char>::empty(),
                    ));
                }
            }
            start = i + 1;
            proof {
                assert(path@.subrange(start as int, i + 1) =~= Seq::<char>::empty());
            }
        } else {
            proof {
                assert(split_from(path@, i as int, cur) == split_from(
                    path@,
                    i + 1,
                    cur.push(path@[i as int]),
                ));
                assert(cur.push(path@[i as int]) =~= path@.subrange(start as int, i + 1));
            }
        }
        i = i + 1;
    }
    let ghost cur = path@.subrange(start as int, s_len as int);
    if start < s_len {
        let piece = path.substring_char(start, s_len);
        let seg = String::from_str(piece);
        segs.push(seg);
        proof {
            assert(cur.len() > 0);
            assert(split_from(path@, s_len as int, cur) == seq![cur]);
            assert(segs_view(segs@) =~= segs_view(segs@.drop_last()) + seq![cur]);
        }
    } else {
        proof {
            assert(cur.len() == 0);
            assert(split_from(path@, s_len as int, cur) =~= Seq::<Seq<char>>::empty());
            assert(segs_view(segs@) + Seq::<Seq<char>>::empty() =~= segs_view(segs@));
        }
    }
    segs
}

/// One filesystem entry handed to ingestion: its path relative to the pack
/// root, and what was read of it.
#[derive(Debug, Clone)]
pub struct IngestEntry {
    /// Path relative to the pack root, with `/` or `\` separators.
    pub rel_path: String,
    /// Whether the entry is a directory.
    pub is_dir: bool,
    /// Content hash; expected for files, absent for directories.
    pub hash: Option<String>,
    /// Byte size; expected for files, absent for directories.
    pub size: Option<u64>,
}

/// The fields of a file node, with every string replaced by its view.
pub struct NodeView {
    pub id: u64,
    pub pack_id: u64,
    pub parent_id: Option<u64>,
    pub name: Seq<char>,
    pub path: Seq<Seq<char>>,
    pub is_dir: bool,
    pub hash: Option<Seq<char>>,
    pub size: Option<u64>,
    pub is_active: bool,
    pub is_deployed: bool,
}

/// The view of a stored node.
pub open spec fn node_view(n: FileNode) -> NodeView {
    NodeView {
        id: n.id,
        pack_id: n.pack_id,
        parent_id: n.parent_id,
        name: n.name@,
        path: n.path_view(),
        is_dir: n.is_dir,
        hash: match n.hash {
            Some(h) => Some(h@),
            None => None,
        },
        size: n.size,
        is_active: n.is_active,
        is_deployed: n.is_deployed,
    }
}

/// The views of a node sequence.
pub open spec fn node_views(s: Seq<FileNode>) -> Seq<NodeView> {
    s.map_values(|n: FileNode| node_view(n))
}

/// An entry's split segment sequence.
pub open spec fn entry_segments(e: IngestEntry) -> Seq<Seq<char>> {
    split_path(e.rel_path@)
}

/// An entry ingestion accepts: at least one segment, and hash and size
/// present exactly for files.
pub open spec fn entry_ok(e: IngestEntry) -> bool {
    &&& entry_segments(e).len() >= 1
    &&& (e.is_dir ==> e.hash is None && e.size is None)
    &&& (!e.is_dir ==> e.hash is Some && e.size is Some)
}

/// The identity of the most recently created node of pack `pack_id` whose
/// path is `parent`; `None` when no such node exists yet. An absent parent
/// stands for the pack root: a child observed before its parent is linked
/// to the root, as the concurrent walk this models would have done.
pub open spec fn find_parent_in(nodes: Seq<NodeView>, pack_id: u64, parent: Seq<Seq<char>>) -> Option<u64>
    decreases nodes.len(),
{
    if nodes.len() == 0 {
        None
    } else if nodes.last().pack_id == pack_id && nodes.last().path == parent {
        Some(nodes.last().id)
    } else {
        find_parent_in(nodes.drop_last(), pack_id, parent)
    }
}

/// The view of the node an accepted entry becomes, given the views of the
/// nodes created before it.
pub open spec fn view_of_entry(e: IngestEntry, pack_id: u64, id: u64, prev: Seq<NodeView>) -> NodeView {
    NodeView {
        id: id,
        pack_id: pack_id,
        parent_id: find_parent_in(prev, pack_id, entry_segments(e).drop_last()),
        name: entry_segments(e).last(),
        path: entry_segments(e),
        is_dir: e.is_dir,
        hash: match e.hash {
            Some(h) => Some(h@),
            None => None,
        },
        size: e.size,
        is_active: true,
        is_deployed: false,
    }
}

/// The node views ingestion of `entries` creates, in order: accepted
/// entries in arrival order, rejected entries skipped, identities assigned
/// consecutively from `first_id`.
pub open spec fn built_views(entries: Seq<IngestEntry>, pack_id: u64, first_id: u64) -> Seq<NodeView>
    decreases entries.len(),
{
    if entries.len() == 0 {
        Seq::empty()
    } else {
        let prev = built_views(entries.drop_last(), pack_id, first_id);
        let e = entries.last();
        if entry_ok(e) {
            prev.push(view_of_entry(e, pack_id, (first_id + prev.len()) as u64, prev))
        } else {
            prev
        }
    }
}

/// When no node of the sequence belongs to the pack, no parent is found.
pub proof fn lemma_find_parent_none(nodes: Seq<NodeView>, pack_id: u64, parent: Seq<Seq<char>>)
    requires
        forall|m: int| 0 <= m < nodes.len() ==> (#[trigger] nodes[m]).pack_id != pack_id,
    ensures
        find_parent_in(nodes, pack_id, parent) is None,
    decreases nodes.len(),
{
    if nodes.len() > 0 {
        assert(nodes[nodes.len() - 1].pack_id != pack_id);
        assert(forall|m: int|
            0 <= m < nodes.drop_last().len() ==> (#[trigger] nodes.drop_last()[m]).pack_id
                != pack_id);
        lemma_find_parent_none(nodes.drop_last(), pack_id, parent);
    }
}

/// Nodes of other packs at the front of the sequence never affect the
/// parent search.
pub proof fn lemma_find_parent_skip(
    left: Seq<NodeView>,
    right: Seq<NodeView>,
    pack_id: u64,
    parent: Seq<Seq<char>>,
)
    requires
        forall|m: int| 0 <= m < left.len() ==> (#[trigger] left[m]).pack_id != pack_id,
    ensures
        find_parent_in(left + right, pack_id, parent) == find_parent_in(right, pack_id, parent),
    decreases right.len(),
{
    if right.len() == 0 {
        assert(left + right =~= left);
        lemma_find_parent_none(left, pack_id, parent);
    } else {
        let whole = left + right;
        assert(whole.last() == right.last());
        assert(whole.drop_last() =~= left + right.drop_last());
        lemma_find_parent_skip(left, right.drop_last(), pack_id, parent);
    }
}

/// A found parent is a previously created node of the same pack at the
/// parent path.
pub proof fn lemma_find_parent_in(nodes: Seq<NodeView>, pack_id: u64, parent: Seq<Seq<char>>)
    ensures
        find_parent_in(nodes, pack_id, parent) matches Some(p) ==> exists|j: int|
            0 <= j < nodes.len() && (#[trigger] nodes[j]).id == p && nodes[j].pack_id == pack_id
                && nodes[j].path == parent,
    decreases nodes.len(),
{
    if nodes.len() > 0 {
        if !(nodes.last().pack_id == pack_id && nodes.last().path == parent) {
            lemma_find_parent_in(nodes.drop_last(), pack_id, parent);
            if find_parent_in(nodes, pack_id, parent) is Some {
                let p = find_parent_in(nodes, pack_id, parent)->0;
                let j = choose|j: int|
                    0 <= j < nodes.drop_last().len() && (#[trigger] nodes.drop_last()[j]).id == p
                        && nodes.drop_last()[j].pack_id == pack_id
                        && nodes.drop_last()[j].path == parent;
                assert(nodes[j] == nodes.drop_last()[j]);
            }
        }
    }
}

/// Does the node's path equal the given segment list without its last
/// segment?
fn node_path_matches_parent(n: &FileNode, segs: &Vec<String>) -> (r: bool)
    requires
        segs@.len() >= 1,
    ensures
        r == (n.path_view() == segs_view(segs@).drop_last()),
{
    if n.path_segments.len() != segs.len() - 1 {
        proof {
            assert(n.path_view().len() == n.path_segments@.len());
            assert(segs_view(segs@).drop_last().len() == segs@.len() - 1);
        }
        return false;
    }
    let mut k: usize = 0;
    while k < segs.len() - 1
        invariant
            segs@.len() >= 1,
            n.path_segments@.len() == segs@.len() - 1,
            k <= segs@.len() - 1,
            forall|m: int| 0 <= m < k ==> n.path_segments@[m]@ == segs@[m]@,
        decreases segs@.len() - 1 - k,
    {
        let same: bool = n.path_segments[k] == segs[k];
        if !same {
            proof {
                assert(n.path_view()[k as int] == n.path_segments@[k as int]@);
                assert(segs_view(segs@).drop_last()[k as int] == segs@[k as int]@);
            }
            return false;
        }
        k = k + 1;
    }
    proof {
        assert(n.path_view() =~= segs_view(segs@).drop_last());
    }
    true
}

/// The fields of `new_pack` as stored by `insert_pack`: caller-supplied
/// metadata, the appended priority, active, not deployed.
pub open spec fn new_pack_record(info: InfoBase, base_path: String, counter: i64, now_ms: i64) -> PackInfo {
    PackInfo {
        id: info.id,
        base_path: base_path,
        priority: Priority { num: counter, den: 1 },
        name: Some(info.name),
        tags: info.tag,
        description: info.description,
        author: info.author,
        version: info.version,
        is_deployed: false,
        is_active: true,
        add_time: now_ms,
        meta_updated_at: now_ms,
    }
}

impl OverlayIndex {
    /// Search the nodes from position `lo` on, newest first, for the node
    /// whose path is `segs` without its last segment.
    fn find_parent_from(&self, lo: usize, pack_id: u64, segs: &Vec<String>) -> (r: Option<u64>)
        requires
            lo <= self.nodes@.len(),
            segs@.len() >= 1,
            forall|m: int| 0 <= m < lo ==> (#[trigger] self.nodes@[m]).pack_id != pack_id,
        ensures
            r == find_parent_in(node_views(self.nodes@), pack_id, segs_view(segs@).drop_last()),
    {
        let ghost parent = segs_view(segs@).drop_last();
        let mut j: usize = self.nodes.len();
        proof {
            assert(self.nodes@.take(j as int) =~= self.nodes@);
        }
        while j > lo
            invariant
                lo <= j <= self.nodes@.len(),
                segs@.len() >= 1,
                parent == segs_view(segs@).drop_last(),
                forall|m: int| 0 <= m < lo ==> (#[trigger] self.nodes@[m]).pack_id != pack_id,
                find_parent_in(node_views(self.nodes@.take(j as int)), pack_id, parent)
                    == find_parent_in(node_views(self.nodes@), pack_id, parent),
            decreases j,
        {
            let n = &self.nodes[j - 1];
            let ghost pre = node_views(self.nodes@.take(j as int));
            proof {
                assert(pre.len() == j);
                assert(pre.last() == node_view(self.nodes@[j - 1]));
                assert(pre.drop_last() =~= node_views(self.nodes@.take(j - 1)));
            }
            if n.pack_id == pack_id && node_path_matches_parent(n, segs) {
                proof {
                    assert(node_view(self.nodes@[j - 1]).path == self.nodes@[j - 1].path_view());
                    assert(find_parent_in(pre, pack_id, parent) == Some(self.nodes@[j - 1].id));
                }
                return Some(n.id);
            }
            proof {
                assert(!(pre.last().pack_id == pack_id && pre.last().path == parent));
            }
            j = j - 1;
        }
        proof {
            let prefix = node_views(self.nodes@.take(j as int));
            assert(forall|m: int|
                0 <= m < prefix.len() ==> (#[trigger] prefix[m]).pack_id
                    == self.nodes@.take(j as int)[m].pack_id);
            assert(forall|m: int| 0 <= m < prefix.len() ==> (#[trigger] prefix[m]).pack_id != pack_id);
            lemma_find_parent_none(prefix, pack_id, parent);
        }
        None
    }

    /// Ingest a directory tree as a new pack.
    ///
    /// The appended priority is the current counter value, which only ever
    /// grows and always exceeds every rank a compaction can assign (the
    /// counter stays above the pack count). A priority set manually above
    /// the counter can still outrank later insertions, exactly as an
    /// explicit update outranks a sequence default.
    ///
    /// The pack is appended with the next counter priority, active and not
    /// deployed, carrying the caller's metadata and `now_ms` as both of its
    /// times. Each acceptable entry becomes a node with a fresh identity,
    /// in arrival order; entries whose path has no segment, or whose hash
    /// or size presence does not match their kind, are skipped. A node's
    /// parent is the most recently created node at the path above it, or
    /// the pack root (no parent) when none was seen yet.
    pub fn insert_pack(
        &mut self,
        base_path: String,
        info: InfoBase,
        entries: Vec<IngestEntry>,
        now_ms: i64,
    ) -> (r: Result<(), OverlayError>)
        requires
            old(self).wf(),
            old(self).pack_counter < i64::MAX,
            old(self).node_counter + entries@.len() <= u64::MAX,
        ensures
            final(self).wf(),
            r is Ok <==> !old(self).has_pack(info.id),
            r is Err ==> *final(self) == *old(self) && r == Err::<(), OverlayError>(
                OverlayError::PackExists,
            ),
            r is Ok ==> final(self).packs@ == old(self).packs@.push(
                new_pack_record(info, base_path, old(self).pack_counter, now_ms),
            ),
            r is Ok ==> final(self).pack_counter == old(self).pack_counter + 1,
            r is Ok ==> node_views(final(self).nodes@) == node_views(old(self).nodes@)
                + built_views(entries@, info.id, old(self).node_counter),
            r is Ok ==> final(self).node_counter == old(self).node_counter + built_views(
                entries@,
                info.id,
                old(self).node_counter,
            ).len(),
            final(self).overrides == old(self).overrides,
    {
        if self.find_pack(info.id).is_some() {
            return Err(OverlayError::PackExists);
        }
        let ghost packrec = new_pack_record(info, base_path, self.pack_counter, now_ms);
        let pack_id = info.id;
        let InfoBase { id: _, name: info_name, tag, description, author, version } = info;
        let pack = PackInfo {
            id: pack_id,
            base_path: base_path,
            priority: Priority::from_int(self.pack_counter),
            name: Some(info_name),
            tags: tag,
            description: description,
            author: author,
            version: version,
            is_deployed: false,
            is_active: true,
            add_time: now_ms,
            meta_updated_at: now_ms,
        };
        self.packs.push(pack);
        self.pack_counter = self.pack_counter + 1;
        let nodes_len0 = self.nodes.len();
        let ghost first_id = self.node_counter;
        let ghost entries0 = entries@;
        let ghost total = entries@.len();
        proof {
            assert forall|m: int|
                0 <= m < nodes_len0 implies (#[trigger] self.nodes@[m]).pack_id != pack_id by {
                assert(old(self).has_pack(old(self).nodes@[m].pack_id));
            }
        }
        let mut rest = entries;
        while rest.len() > 0
            invariant
                old(self).wf(),
                !old(self).has_pack(pack_id),
                rest@.len() <= total,
                entries0.len() == total,
                rest@ == entries0.subrange(total - rest@.len(), total as int),
                self.packs@ == old(self).packs@.push(packrec),
                packrec.id == pack_id,
                self.pack_counter == old(self).pack_counter + 1,
                self.overrides == old(self).overrides,
                nodes_len0 == old(self).nodes@.len(),
                first_id == old(self).node_counter,
                old(self).node_counter + total <= u64::MAX,
                nodes_len0 <= self.nodes@.len(),
                self.nodes@.take(nodes_len0 as int) == old(self).nodes@,
                node_views(self.nodes@) == node_views(old(self).nodes@) + built_views(
                    entries0.take(total - rest@.len()),
                    pack_id,
                    first_id,
                ),
                self.node_counter == first_id + self.nodes@.len() - nodes_len0,
                self.nodes@.len() - nodes_len0 <= total - rest@.len(),
                forall|m: int| 0 <= m < nodes_len0 ==> (#[trigger] self.nodes@[m]).pack_id != pack_id,
                forall|m: int|
                    nodes_len0 <= m < self.nodes@.len() ==> {
                        let n = #[trigger] self.nodes@[m];
                        &&& n.pack_id == pack_id
                        &&& n.id == first_id + m - nodes_len0
                        &&& n.wf()
                        &&& n.is_active
                        &&& !n.is_deployed
                    },
                forall|m: int|
                    nodes_len0 <= m < self.nodes@.len() && (#[trigger] self.nodes@[m]).parent_id
                        is Some ==> exists|j: int|
                        0 <= j < self.nodes@.len()
                        && (#[trigger] self.nodes@[j]).id == self.nodes@[m].parent_id->0
                        && self.nodes@[j].pack_id == self.nodes@[m].pack_id
                        && self.nodes@[j].path_view() == self.nodes@[m].path_view().drop_last(),
            decreases rest@.len(),
        {
            let ghost done = total - rest@.len();
            let e = rest.remove(0);
            proof {
                assert(e == entries0[done]);
                assert(entries0.take(done + 1).drop_last() =~= entries0.take(done));
                assert(entries0.take(done + 1).last() == entries0[done]);
                assert(rest@ =~= entries0.subrange(total - rest@.len(), total as int));
            }
            let ghost prev_built = built_views(entries0.take(done), pack_id, first_id);
            let segs = split_segments(&e.rel_path);
            let acceptable: bool = segs.len() >= 1 && (if e.is_dir {
                e.hash.is_none() && e.size.is_none()
            } else {
                e.hash.is_some() && e.size.is_some()
            });
            proof {
                assert(entry_segments(e) == segs_view(segs@));
                assert(entry_segments(e).len() == segs@.len());
                assert(acceptable == entry_ok(e));
            }
            if acceptable {
                let id = self.node_counter;
                self.node_counter = self.node_counter + 1;
                let name = segs[segs.len() - 1].clone();
                let parent_id = self.find_parent_from(nodes_len0, pack_id, &segs);
                let node = FileNode {
                    id: id,
                    pack_id: pack_id,
                    parent_id: parent_id,
                    name: name,
                    path_segments: segs,
                    is_dir: e.is_dir,
                    hash: e.hash,
                    size: e.size,
                    is_active: true,
                    is_deployed: false,
                };
                let ghost pre_nodes = self.nodes@;
                let ghost parentseq = segs_view(node.path_segments@).drop_last();
                proof {
                    assert forall|m: int|
                        0 <= m < pre_nodes.len() - nodes_len0 implies node_views(
                        pre_nodes.skip(nodes_len0 as int),
                    )[m] == node_views(pre_nodes)[m + nodes_len0] by {
                        assert(pre_nodes.skip(nodes_len0 as int)[m] == pre_nodes[m + nodes_len0]);
                    }
                    assert(node_views(pre_nodes).skip(nodes_len0 as int) =~= prev_built);
                    assert(node_views(pre_nodes.skip(nodes_len0 as int)) =~= prev_built);
                    assert(node_views(pre_nodes) =~= node_views(pre_nodes.take(nodes_len0 as int))
                        + node_views(pre_nodes.skip(nodes_len0 as int)));
                    assert(forall|m: int|
                        0 <= m < nodes_len0 ==> (#[trigger] node_views(
                            pre_nodes.take(nodes_len0 as int),
                        )[m]).pack_id == pre_nodes.take(nodes_len0 as int)[m].pack_id);
                    lemma_find_parent_skip(
                        node_views(pre_nodes.take(nodes_len0 as int)),
                        node_views(pre_nodes.skip(nodes_len0 as int)),
                        pack_id,
                        parentseq,
                    );
                    assert(node.parent_id == find_parent_in(prev_built, pack_id, parentseq));
                    assert(node_view(node) == view_of_entry(e, pack_id, id, prev_built));
                }
                self.nodes.push(node);
                proof {
                    assert(self.nodes@.drop_last() =~= pre_nodes);
                    assert(self.nodes@.take(nodes_len0 as int) =~= old(self).nodes@);
                    assert(node_views(self.nodes@) =~= node_views(pre_nodes).push(
                        node_view(node),
                    ));
                    assert(built_views(entries0.take(done + 1), pack_id, first_id) == prev_built
                        .push(view_of_entry(e, pack_id, (first_id + prev_built.len()) as u64, prev_built)));
                    assert(node_views(self.nodes@) =~= node_views(old(self).nodes@) + built_views(
                        entries0.take(done + 1),
                        pack_id,
                        first_id,
                    ));
                    let last = self.nodes@.len() - 1;
                    assert(self.nodes@[last].wf()) by {
                        assert(self.nodes@[last].path_view() == segs_view(node.path_segments@));
                        assert(self.nodes@[last].name@ == entry_segments(e).last());
                    }
                    if self.nodes@[last].parent_id is Some {
                        lemma_find_parent_in(node_views(pre_nodes), pack_id, parentseq);
                        assert(find_parent_in(node_views(pre_nodes), pack_id, parentseq)
                            == node.parent_id);
                        let p = self.nodes@[last].parent_id->0;
                        let j = choose|j: int|
                            0 <= j < node_views(pre_nodes).len() && (#[trigger] node_views(
                            pre_nodes,
                        )[j]).id == p && node_views(pre_nodes)[j].pack_id == pack_id
                                && node_views(pre_nodes)[j].path == parentseq;
                        assert(node_views(pre_nodes)[j] == node_view(pre_nodes[j]));
                        assert(self.nodes@[j] == pre_nodes[j]);
                        assert(self.nodes@[j].id == p);
                        assert(self.nodes@[j].path_view() == self.nodes@[last].path_view().drop_last());
                    }
                    assert forall|m: int|
                        nodes_len0 <= m < self.nodes@.len() && (
                    #[trigger] self.nodes@[m]).parent_id is Some implies exists|j: int|
                        0 <= j < self.nodes@.len()
                        && (#[trigger] self.nodes@[j]).id == self.nodes@[m].parent_id->0
                        && self.nodes@[j].pack_id == self.nodes@[m].pack_id
                        && self.nodes@[j].path_view() == self.nodes@[m].path_view().drop_last() by {
                        if m < self.nodes@.len() - 1 {
                            assert(self.nodes@.drop_last()[m] == self.nodes@[m]);
                            let j = choose|j: int|
                                0 <= j < self.nodes@.drop_last().len()
                                && (#[trigger] self.nodes@.drop_last()[j]).id
                                    == self.nodes@.drop_last()[m].parent_id->0
                                && self.nodes@.drop_last()[j].pack_id
                                    == self.nodes@.drop_last()[m].pack_id
                                && self.nodes@.drop_last()[j].path_view()
                                    == self.nodes@.drop_last()[m].path_view().drop_last();
                            assert(self.nodes@[j] == self.nodes@.drop_last()[j]);
                        }
                    }
                }
            } else {
                proof {
                    assert(built_views(entries0.take(done + 1), pack_id, first_id) == prev_built);
                }
            }
        }
        proof {
            assert(entries0.take(total as int) =~= entries0);
            let post = *self;
            let pre = *old(self);
            assert forall|a: int, b: int|
                #![trigger post.packs@[a].id, post.packs@[b].id]
                0 <= a < b < post.packs@.len() implies post.packs@[a].id != post.packs@[b].id by {
                if b < post.packs@.len() - 1 {
                    assert(pre.packs@[a].id != pre.packs@[b].id);
                } else {
                    assert(post.packs@[b].id == pack_id);
                    assert(pre.packs@[a].id != pack_id) by {
                        if pre.packs@[a].id == pack_id {
                            assert(pre.has_pack(pack_id));
                        }
                    }
                }
            }
            assert forall|k: int|
                0 <= k < post.packs@.len() implies (#[trigger] post.packs@[k]).priority.wf() by {
                if k < post.packs@.len() - 1 {
                    assert(pre.packs@[k].priority.wf());
                }
            }
            assert forall|a: int, b: int|
                #![trigger post.nodes@[a].id, post.nodes@[b].id]
                0 <= a < b < post.nodes@.len() implies post.nodes@[a].id != post.nodes@[b].id by {
                if b < nodes_len0 {
                    assert(post.nodes@[a] == pre.nodes@[a] && post.nodes@[b] == pre.nodes@[b]);
                    assert(pre.nodes@[a].id != pre.nodes@[b].id);
                } else if a < nodes_len0 {
                    assert(post.nodes@[a] == pre.nodes@[a]);
                    assert(pre.nodes@[a].id < pre.node_counter);
                    assert(post.nodes@[b].id >= first_id);
                }
            }
            assert forall|k: int|
                0 <= k < post.nodes@.len() implies (#[trigger] post.nodes@[k]).wf()
                    && post.nodes@[k].id < post.node_counter by {
                if k < nodes_len0 {
                    assert(post.nodes@[k] == pre.nodes@[k]);
                    assert(pre.nodes@[k].wf() && pre.nodes@[k].id < pre.node_counter);
                }
            }
            assert forall|k: int|
                0 <= k < post.nodes@.len() implies post.has_pack(
                (#[trigger] post.nodes@[k]).pack_id) by {
                if k < nodes_len0 {
                    assert(post.nodes@[k] == pre.nodes@[k]);
                    assert(pre.has_pack(pre.nodes@[k].pack_id));
                    let w = pre.pack_index_of(pre.nodes@[k].pack_id);
                    assert(post.packs@[w].id == post.nodes@[k].pack_id);
                } else {
                    assert(post.packs@[post.packs@.len() - 1].id == pack_id);
                }
            }
            assert forall|k: int|
                0 <= k < post.nodes@.len() && post.nodes@[k].parent_id is Some implies exists|
            j: int|
                0 <= j < post.nodes@.len()
                && post.nodes@[j].id == post.nodes@[k].parent_id->0
                && post.nodes@[j].pack_id == post.nodes@[k].pack_id
                && #[trigger] post.nodes@[j].path_view()
                    == post.nodes@[k].path_view().drop_last() by {
                if k < nodes_len0 {
                    assert(post.nodes@[k] == pre.nodes@[k]);
                    let j = choose|j: int|
                        0 <= j < pre.nodes@.len()
                        && pre.nodes@[j].id == pre.nodes@[k].parent_id->0
                        && pre.nodes@[j].pack_id == pre.nodes@[k].pack_id
                        && #[trigger] pre.nodes@[j].path_view()
                            == pre.nodes@[k].path_view().drop_last();
                    assert(post.nodes@[j] == pre.nodes@[j]);
                    assert(post.nodes@[j].path_view() == post.nodes@[k].path_view().drop_last());
                } else {
                    let j = choose|j: int|
                        0 <= j < post.nodes@.len()
                        && (#[trigger] post.nodes@[j]).id == post.nodes@[k].parent_id->0
                        && post.nodes@[j].pack_id == post.nodes@[k].pack_id
                        && post.nodes@[j].path_view() == post.nodes@[k].path_view().drop_last();
                    assert(post.nodes@[j].path_view() == post.nodes@[k].path_view().drop_last());
                }
            }
            assert(node_views(post.nodes@) == node_views(pre.nodes@) + built_views(
                entries0,
                pack_id,
                first_id,
            ));
            assert(post.node_counter == pre.node_counter + built_views(
                entries0,
                pack_id,
                first_id,
            ).len()) by {
                assert(node_views(post.nodes@).len() == post.nodes@.len());
                assert(node_views(pre.nodes@).len() == pre.nodes@.len());
            }
        }
        Ok(())
    }
}

} // verus!
