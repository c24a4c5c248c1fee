use vstd::prelude::*;
use crate::detect::join_rel;
use crate::detect::join_segments;
use crate::filters::keep_seq;
use crate::index::OverlayIndex;
use crate::index::segs_eq;
use crate::model::FileNode;
use crate::model::FileOverLinkList;
use crate::model::FileOverTree;
use crate::model::FileTreeNode;
use crate::model::segs_view;
use crate::order::segs_lt;
use crate::order::sort_over_rows;
use crate::order::sort_tree_rows;
use crate::resolve::clone_segs;
use vstd::string::StrSliceExecFns;
use vstd::string::StringExecFns;

verus! {

/// The predicate keeping every file node owned by pack `id`.
pub open spec fn keep_node_of_pack(id: u64) -> spec_fn(FileNode) -> bool {
    |n: FileNode| n.pack_id == id
}

/// Copy an optional string.
fn clone_opt_string(v: &Option<String>) -> (r: Option<String>)
    ensures
        r == *v,
{
    match v {
        None => None,
        Some(s) => Some(s.clone()),
    }
}

/// Build the listing row of one stored node.
fn tree_row_of(n: &FileNode) -> (r: FileTreeNode)
    ensures
        r.matches_node(*n),
{
    FileTreeNode {
        id: n.id,
        name: n.name.clone(),
        path_segments: clone_segs(&n.path_segments),
        is_dir: n.is_dir,
        size: n.size,
        hash: clone_opt_string(&n.hash),
        is_active: n.is_active,
        is_deployed: n.is_deployed,
        depth: n.path_segments.len(),
    }
}

impl OverlayIndex {
    /// The tree listing of one pack: one row per node of the pack, in
    /// creation order.
    pub fn get_file_by_id(&self, pack_id: u64) -> (r: Vec<FileTreeNode>)
        requires
            self.wf(),
        ensures
            r@.len() == keep_seq(self.nodes@, keep_node_of_pack(pack_id)).len(),
            exists|perm: Seq<int>|
                #![trigger perm.len()]
                {
                    let kept = keep_seq(self.nodes@, keep_node_of_pack(pack_id));
                    &&& perm.len() == kept.len()
                    &&& (forall|m: int| 0 <= m < perm.len() ==> 0 <= #[trigger] perm[m] < kept.len())
                    &&& (forall|m1: int, m2: int|
                        #![trigger perm[m1], perm[m2]]
                        0 <= m1 < m2 < perm.len() ==> perm[m1] != perm[m2])
                    &&& (forall|m: int|
                        0 <= m < perm.len() ==> (#[trigger] r@[m]).matches_node(kept[perm[m]]))
                },
            forall|i: int|
                0 <= i < self.nodes@.len() && (#[trigger] self.nodes@[i]).pack_id == pack_id
                    ==> exists|m: int|
                    0 <= m < r@.len() && (#[trigger] r@[m]).matches_node(self.nodes@[i]),
            forall|m1: int, m2: int|
                #![trigger r@[m1], r@[m2]]
                0 <= m1 < m2 < r@.len() ==> !segs_lt(
                    segs_view(r@[m2].path_segments@),
                    segs_view(r@[m1].path_segments@),
                ),
    {
        let ghost keep = keep_node_of_pack(pack_id);
        let mut r: Vec<FileTreeNode> = Vec::new();
        let mut i: usize = 0;
        proof {
            assert(self.nodes@.take(0) =~= Seq::<FileNode>::empty());
        }
        while i < self.nodes.len()
            invariant
                self.wf(),
                keep == keep_node_of_pack(pack_id),
                i <= self.nodes@.len(),
                r@.len() == keep_seq(self.nodes@.take(i as int), keep).len(),
                forall|m: int|
                    0 <= m < r@.len() ==> (#[trigger] r@[m]).matches_node(
                        keep_seq(self.nodes@.take(i as int), keep)[m],
                    ),
            decreases self.nodes@.len() - i,
        {
            proof {
                assert(self.nodes@.take(i + 1).drop_last() =~= self.nodes@.take(i as int));
                assert(self.nodes@.take(i + 1).last() == self.nodes@[i as int]);
            }
            let n = &self.nodes[i];
            if n.pack_id == pack_id {
                let row = tree_row_of(n);
                r.push(row);
            }
            i = i + 1;
        }
        proof {
            assert(self.nodes@.take(self.nodes@.len() as int) =~= self.nodes@);
        }
        let ghost built = r@;
        let ghost kept = keep_seq(self.nodes@, keep_node_of_pack(pack_id));
        let sorted = sort_tree_rows(r);
        proof {
            let perm = choose|perm: Seq<int>|
                #![trigger perm.len()]
                {
                    &&& perm.len() == built.len()
                    &&& (forall|m: int|
                        0 <= m < perm.len() ==> 0 <= #[trigger] perm[m] < built.len())
                    &&& (forall|m1: int, m2: int|
                        #![trigger perm[m1], perm[m2]]
                        0 <= m1 < m2 < perm.len() ==> perm[m1] != perm[m2])
                    &&& (forall|m: int|
                        0 <= m < perm.len() ==> #[trigger] sorted@[m] == built[perm[m]])
                };
            assert(exists|perm2: Seq<int>|
                #![trigger perm2.len()]
                {
                    &&& perm2.len() == kept.len()
                    &&& (forall|m: int|
                        0 <= m < perm2.len() ==> 0 <= #[trigger] perm2[m] < kept.len())
                    &&& (forall|m1: int, m2: int|
                        #![trigger perm2[m1], perm2[m2]]
                        0 <= m1 < m2 < perm2.len() ==> perm2[m1] != perm2[m2])
                    &&& (forall|m: int|
                        0 <= m < perm2.len() ==> (#[trigger] sorted@[m]).matches_node(
                            kept[perm2[m]],
                        ))
                }) by {
                assert(forall|m: int|
                    0 <= m < perm.len() ==> (#[trigger] sorted@[m]).matches_node(kept[perm[m]]));
            }
            crate::filters::lemma_keep_seq_elements(self.nodes@, keep_node_of_pack(pack_id));
            assert forall|i: int|
                0 <= i < self.nodes@.len() && (#[trigger] self.nodes@[i]).pack_id == pack_id
                    implies exists|m: int|
                0 <= m < sorted@.len() && (#[trigger] sorted@[m]).matches_node(
                    self.nodes@[i],
                ) by {
                let keepf = keep_node_of_pack(pack_id);
                assert(keepf(self.nodes@[i]));
                assert(kept.contains(self.nodes@[i]));
                let k = choose|k: int| 0 <= k < kept.len() && kept[k] == self.nodes@[i];
                assert(built[k].matches_node(kept[k]));
                assert(sorted@.contains(built[k]));
                let m = choose|m: int| 0 <= m < sorted@.len() && sorted@[m] == built[k];
                assert(sorted@[m].matches_node(self.nodes@[i]));
            }
        }
        sorted
    }

    /// Does `segs` start with every segment of `parent`, and go deeper?
    fn segs_extends(segs: &Vec<String>, parent: &Vec<String>) -> (r: bool)
        ensures
            r == (segs@.len() == parent@.len() + 1 && segs_view(segs@).take(parent@.len() as int)
                == segs_view(parent@)),
    {
        if segs.len() == 0 || segs.len() - 1 != parent.len() {
            return false;
        }
        let mut k: usize = 0;
        while k < parent.len()
            invariant
                segs@.len() == parent@.len() + 1,
                k <= parent@.len(),
                forall|m: int| 0 <= m < k ==> segs@[m]@ == parent@[m]@,
            decreases parent@.len() - k,
        {
            let same: bool = segs[k] == parent[k];
            if !same {
                proof {
                    assert(segs_view(segs@).take(parent@.len() as int)[k as int]
                        == segs@[k as int]@);
                    assert(segs_view(parent@)[k as int] == parent@[k as int]@);
                }
                return false;
            }
            k = k + 1;
        }
        proof {
            assert(segs_view(segs@).take(parent@.len() as int) =~= segs_view(parent@));
        }
        true
    }

    /// The resolved overlay restricted to paths of exactly one segment: the
    /// top level of the virtual tree. One row per winning path, in order of
    /// first appearance in the node index.
    pub fn get_top(&self) -> (r: Vec<FileOverTree>)
        requires
            self.wf(),
        ensures
            forall|m: int|
                0 <= m < r@.len() ==> {
                    let pathv = segs_view((#[trigger] r@[m]).path_segments@);
                    &&& pathv.len() == 1
                    &&& self.has_winner(pathv)
                    &&& r@[m].matches_node(self.nodes@[self.winner_index(pathv)])
                },
            forall|m1: int, m2: int|
                #![trigger r@[m1].path_segments, r@[m2].path_segments]
                0 <= m1 < m2 < r@.len() ==> segs_view(r@[m1].path_segments@) != segs_view(
                    r@[m2].path_segments@,
                ),
            forall|i: int|
                0 <= i < self.nodes@.len() && (#[trigger] self.nodes@[i]).path_view().len() == 1
                    && self.has_winner(self.nodes@[i].path_view()) ==> exists|m: int|
                    0 <= m < r@.len() && segs_view((#[trigger] r@[m]).path_segments@)
                        == self.nodes@[i].path_view(),
            forall|m1: int, m2: int|
                #![trigger r@[m1], r@[m2]]
                0 <= m1 < m2 < r@.len() ==> !segs_lt(
                    segs_view(r@[m2].path_segments@),
                    segs_view(r@[m1].path_segments@),
                ),
    {
        self.collect_depth(1, None)
    }

    /// The resolved overlay restricted to the direct children of `parent`:
    /// winning paths one segment deeper whose front equals `parent`. One
    /// row per winning path, in order of first appearance in the node index.
    pub fn get_children(&self, parent: &Vec<String>) -> (r: Vec<FileOverTree>)
        requires
            self.wf(),
            parent@.len() < usize::MAX,
        ensures
            forall|m: int|
                0 <= m < r@.len() ==> {
                    let pathv = segs_view((#[trigger] r@[m]).path_segments@);
                    &&& pathv.len() == parent@.len() + 1
                    &&& pathv.take(parent@.len() as int) == segs_view(parent@)
                    &&& self.has_winner(pathv)
                    &&& r@[m].matches_node(self.nodes@[self.winner_index(pathv)])
                },
            forall|m1: int, m2: int|
                #![trigger r@[m1].path_segments, r@[m2].path_segments]
                0 <= m1 < m2 < r@.len() ==> segs_view(r@[m1].path_segments@) != segs_view(
                    r@[m2].path_segments@,
                ),
            forall|i: int|
                0 <= i < self.nodes@.len() && (#[trigger] self.nodes@[i]).path_view().len()
                    == parent@.len() + 1 && self.nodes@[i].path_view().take(parent@.len() as int)
                    == segs_view(parent@) && self.has_winner(self.nodes@[i].path_view())
                    ==> exists|m: int|
                    0 <= m < r@.len() && segs_view((#[trigger] r@[m]).path_segments@)
                        == self.nodes@[i].path_view(),
            forall|m1: int, m2: int|
                #![trigger r@[m1], r@[m2]]
                0 <= m1 < m2 < r@.len() ==> !segs_lt(
                    segs_view(r@[m2].path_segments@),
                    segs_view(r@[m1].path_segments@),
                ),
    {
        self.collect_depth(parent.len() + 1, Some(parent))
    }

    /// The deployment row reflects the winning node at position `i`: its
    /// identities and deployment mark, the relative path joined with `/`,
    /// and the source path inside the owning pack.
    pub open spec fn link_row_ok(self, row: FileOverLinkList, i: int) -> bool {
        let n = self.nodes@[i];
        let p = self.pack_of(n.pack_id);
        &&& row.file_id == n.id
        &&& row.pack_id == n.pack_id
        &&& row.parent_id == n.parent_id
        &&& row.path_relative@ == join_rel(n.path_view())
        &&& row.path_absolute@ == p.base_path@ + seq!['/'] + join_rel(n.path_view())
        &&& row.is_deployed == n.is_deployed
    }

    /// Every (relative path, source path) pair of the resolved overlay, for
    /// deployment: one row per winning path, at any depth, in order of
    /// first appearance in the node index.
    /// Build the deployment row of the node at position `k`.
    fn link_row_for(&self, k: usize) -> (link: FileOverLinkList)
        requires
            self.wf(),
            k < self.nodes@.len(),
        ensures
            self.link_row_ok(link, k as int),
            link.file_id == self.nodes@[k as int].id,
    {
        let rel = join_segments(&self.nodes[k].path_segments);
        let pi = match self.find_pack(self.nodes[k].pack_id) {
            Some(pi) => pi,
            None => {
                proof {
                    assert(self.has_pack(self.nodes@[k as int].pack_id));
                }
                unreached()
            },
        };
        let mut abs = self.packs[pi].base_path.clone();
        abs.append("/");
        abs.append(rel.as_str());
        proof {
            reveal_strlit("/");
            assert("/"@ =~= seq!['/']);
        }
        FileOverLinkList {
            file_id: self.nodes[k].id,
            pack_id: self.nodes[k].pack_id,
            parent_id: self.nodes[k].parent_id,
            path_relative: rel,
            path_absolute: abs,
            is_deployed: self.nodes[k].is_deployed,
        }
    }

    /// Every (relative path, source path) pair of the resolved overlay, for
    /// deployment: one row per winning path, at any depth, in order of
    /// first appearance in the node index.
    pub fn get_all_paths(&self) -> (r: Vec<FileOverLinkList>)
        requires
            self.wf(),
        ensures
            forall|m: int|
                #![trigger r@[m]]
                0 <= m < r@.len() ==> {
                    let w = self.node_index_of(r@[m].file_id);
                    &&& self.has_node(r@[m].file_id)
                    &&& self.is_winner(self.nodes@[w].path_view(), w)
                    &&& self.link_row_ok(r@[m], w)
                },
            forall|i: int|
                0 <= i < self.nodes@.len() && self.has_winner(
                    (#[trigger] self.nodes@[i]).path_view(),
                ) ==> exists|m: int|
                    0 <= m < r@.len() && (#[trigger] r@[m]).file_id == self.nodes@[
                        self.winner_index(self.nodes@[i].path_view())
                    ].id,
            forall|m1: int, m2: int|
                #![trigger r@[m1], r@[m2]]
                0 <= m1 < m2 < r@.len() ==> r@[m1].file_id != r@[m2].file_id
                    && self.nodes@[self.node_index_of(r@[m1].file_id)].path_view()
                    != self.nodes@[self.node_index_of(r@[m2].file_id)].path_view(),
    {
        let mut r: Vec<FileOverLinkList> = Vec::new();
        let ghost mut srcs: Seq<int> = Seq::empty();
        let mut i: usize = 0;
        while i < self.nodes.len()
            invariant
                self.wf(),
                i <= self.nodes@.len(),
                forall|m: int|
                    #![trigger r@[m]]
                    0 <= m < r@.len() ==> {
                        let w = self.node_index_of(r@[m].file_id);
                        &&& self.has_node(r@[m].file_id)
                        &&& self.is_winner(self.nodes@[w].path_view(), w)
                        &&& self.link_row_ok(r@[m], w)
                    },
                forall|k: int|
                    0 <= k < i && self.has_winner((#[trigger] self.nodes@[k]).path_view())
                        ==> exists|m: int|
                        0 <= m < r@.len() && (#[trigger] r@[m]).file_id == self.nodes@[
                            self.winner_index(self.nodes@[k].path_view())
                        ].id,
                srcs.len() == r@.len(),
                forall|m: int|
                    0 <= m < r@.len() ==> 0 <= #[trigger] srcs[m] < i
                        && self.nodes@[srcs[m]].path_view() == self.nodes@[
                        self.node_index_of(r@[m].file_id)
                    ].path_view(),
                forall|m1: int, m2: int|
                    #![trigger r@[m1], r@[m2]]
                    0 <= m1 < m2 < r@.len() ==> r@[m1].file_id != r@[m2].file_id
                        && self.nodes@[self.node_index_of(r@[m1].file_id)].path_view()
                        != self.nodes@[self.node_index_of(r@[m2].file_id)].path_view(),
            decreases self.nodes@.len() - i,
        {
            let mut dup = false;
            let mut j: usize = 0;
            while j < i
                invariant
                    i < self.nodes@.len(),
                    j <= i,
                    dup ==> exists|j2: int|
                        0 <= j2 < i && (#[trigger] self.nodes@[j2]).path_view() == self.nodes@[
                            i as int
                        ].path_view(),
                    !dup ==> forall|j2: int|
                        0 <= j2 < j ==> (#[trigger] self.nodes@[j2]).path_view() != self.nodes@[
                            i as int
                        ].path_view(),
                decreases i - j,
            {
                if segs_eq(&self.nodes[j].path_segments, &self.nodes[i].path_segments) {
                    dup = true;
                }
                j = j + 1;
            }
            if !dup {
                let ghost r0 = r@;
                match self.resolve_path(&self.nodes[i].path_segments) {
                    None => {},
                    Some(row) => {
                        let ghost pathv = self.nodes@[i as int].path_view();
                        let ghost w = self.winner_index(pathv);
                        proof {
                            assert(self.is_winner(pathv, w));
                            assert(row.matches_node(self.nodes@[w]));
                            if self.has_override(pathv) {
                                assert(self.nodes@[w].path_view() == pathv);
                            } else {
                                assert(self.is_active_candidate(pathv, w));
                            }
                            assert(self.has_node(row.file_id));
                        }
                        let k = match self.find_node(row.file_id) {
                            Some(k) => k,
                            None => unreached(),
                        };
                        proof {
                            self.lemma_node_index(w);
                            assert(k as int == w);
                        }
                        let link = self.link_row_for(k);
                        r.push(link);
                        proof {
                            self.lemma_node_index(k as int);
                            assert(forall|m: int| 0 <= m < r0.len() ==> r@[m] == #[trigger] r0[m]);
                            assert(r@[r@.len() - 1].file_id == self.nodes@[w].id);
                            srcs = srcs.push(i as int);
                            let last = r@.len() - 1;
                            assert(self.node_index_of(r@[last].file_id) == w);
                            assert(self.nodes@[w].path_view() == pathv);
                            assert forall|m: int|
                                0 <= m < last implies r@[m].file_id != r@[last].file_id
                                && self.nodes@[self.node_index_of(r@[m].file_id)].path_view()
                                != self.nodes@[self.node_index_of(r@[last].file_id)].path_view() by {
                                assert(self.nodes@[srcs[m]].path_view() != pathv);
                            }
                        }
                    },
                }
            }
            proof {
                assert forall|k: int|
                    0 <= k < i + 1 && self.has_winner((#[trigger] self.nodes@[k]).path_view())
                        implies exists|m: int|
                        0 <= m < r@.len() && (#[trigger] r@[m]).file_id == self.nodes@[
                            self.winner_index(self.nodes@[k].path_view())
                        ].id by {
                    if k < i {
                        let m = choose|m: int|
                            0 <= m < r@.len() && (#[trigger] r@[m]).file_id == self.nodes@[
                                self.winner_index(self.nodes@[k].path_view())
                            ].id;
                    } else {
                        if dup {
                            let j2 = choose|j2: int|
                                0 <= j2 < i && (#[trigger] self.nodes@[j2]).path_view()
                                    == self.nodes@[i as int].path_view();
                        }
                    }
                }
            }
            i = i + 1;
        }
        r
    }

    /// Walk the node index, resolve each distinct path of depth `depth`
    /// (restricted to children of `parent` when one is given), and collect
    /// the winning rows.
    fn collect_depth(&self, depth: usize, parent: Option<&Vec<String>>) -> (r: Vec<FileOverTree>)
        requires
            self.wf(),
            parent matches Some(p) ==> depth == p@.len() + 1,
        ensures
            forall|m: int|
                0 <= m < r@.len() ==> {
                    let pathv = segs_view((#[trigger] r@[m]).path_segments@);
                    &&& pathv.len() == depth
                    &&& (parent matches Some(p) ==> pathv.take(p@.len() as int) == segs_view(p@))
                    &&& self.has_winner(pathv)
                    &&& r@[m].matches_node(self.nodes@[self.winner_index(pathv)])
                },
            forall|m1: int, m2: int|
                #![trigger r@[m1].path_segments, r@[m2].path_segments]
                0 <= m1 < m2 < r@.len() ==> segs_view(r@[m1].path_segments@) != segs_view(
                    r@[m2].path_segments@,
                ),
            forall|i: int|
                0 <= i < self.nodes@.len() && (#[trigger] self.nodes@[i]).path_view().len()
                    == depth && (parent matches Some(p) ==> self.nodes@[i].path_view().take(
                    p@.len() as int,
                ) == segs_view(p@)) && self.has_winner(self.nodes@[i].path_view())
                    ==> exists|m: int|
                    0 <= m < r@.len() && segs_view((#[trigger] r@[m]).path_segments@)
                        == self.nodes@[i].path_view(),
            forall|m1: int, m2: int|
                #![trigger r@[m1], r@[m2]]
                0 <= m1 < m2 < r@.len() ==> !segs_lt(
                    segs_view(r@[m2].path_segments@),
                    segs_view(r@[m1].path_segments@),
                ),
    {
        let mut r: Vec<FileOverTree> = Vec::new();
        let mut i: usize = 0;
        while i < self.nodes.len()
            invariant
                self.wf(),
                parent matches Some(p) ==> depth == p@.len() + 1,
                i <= self.nodes@.len(),
                forall|m: int|
                    0 <= m < r@.len() ==> {
                        let pathv = segs_view((#[trigger] r@[m]).path_segments@);
                        &&& pathv.len() == depth
                        &&& (parent matches Some(p) ==> pathv.take(p@.len() as int) == segs_view(
                            p@,
                        ))
                        &&& self.has_winner(pathv)
                        &&& r@[m].matches_node(self.nodes@[self.winner_index(pathv)])
                    },
                forall|m1: int, m2: int|
                    #![trigger r@[m1].path_segments, r@[m2].path_segments]
                    0 <= m1 < m2 < r@.len() ==> segs_view(r@[m1].path_segments@) != segs_view(
                        r@[m2].path_segments@,
                    ),
                forall|k: int|
                    0 <= k < i && (#[trigger] self.nodes@[k]).path_view().len() == depth && (
                    parent matches Some(p) ==> self.nodes@[k].path_view().take(p@.len() as int)
                        == segs_view(p@)) && self.has_winner(self.nodes@[k].path_view())
                        ==> exists|m: int|
                        0 <= m < r@.len() && segs_view((#[trigger] r@[m]).path_segments@)
                            == self.nodes@[k].path_view(),
            decreases self.nodes@.len() - i,
        {
            let wanted: bool = match parent {
                None => self.nodes[i].path_segments.len() == depth,
                Some(p) => Self::segs_extends(&self.nodes[i].path_segments, p),
            };
            if wanted {
                let mut seen = false;
                let mut m: usize = 0;
                while m < r.len()
                    invariant
                        i < self.nodes@.len(),
                        m <= r@.len(),
                        seen ==> exists|m2: int|
                            0 <= m2 < r@.len() && segs_view((#[trigger] r@[m2]).path_segments@)
                                == self.nodes@[i as int].path_view(),
                        !seen ==> forall|m2: int|
                            0 <= m2 < m ==> segs_view((#[trigger] r@[m2]).path_segments@)
                                != self.nodes@[i as int].path_view(),
                    decreases r@.len() - m,
                {
                    if segs_eq(&r[m].path_segments, &self.nodes[i].path_segments) {
                        seen = true;
                        proof {
                            assert(segs_view(r@[m as int].path_segments@) == self.nodes@[
                                i as int].path_view());
                        }
                    }
                    m = m + 1;
                }
                if !seen {
                    let ghost r0 = r@;
                    match self.resolve_path(&self.nodes[i].path_segments) {
                        None => {
                        },
                        Some(row) => {
                            proof {
                                let pathv = self.nodes@[i as int].path_view();
                                assert(row.matches_node(
                                    self.nodes@[self.winner_index(pathv)],
                                ));
                                assert(self.is_winner(pathv, self.winner_index(pathv)));
                                if self.has_override(pathv) {
                                    assert(self.nodes@[self.winner_index(pathv)].path_view()
                                        == pathv);
                                } else {
                                    assert(self.is_active_candidate(
                                        pathv,
                                        self.winner_index(pathv),
                                    ));
                                }
                                assert(segs_view(row.path_segments@) == pathv);
                            }
                            r.push(row);
                            proof {
                                assert(forall|m2: int|
                                    0 <= m2 < r0.len() ==> r@[m2] == #[trigger] r0[m2]);
                                assert(segs_view(r@[r@.len() - 1].path_segments@)
                                    == self.nodes@[i as int].path_view());
                            }
                        },
                    }
                }
                proof {
                    assert forall|k: int|
                        0 <= k < i + 1 && (#[trigger] self.nodes@[k]).path_view().len() == depth
                            && (parent matches Some(p) ==> self.nodes@[k].path_view().take(
                            p@.len() as int,
                        ) == segs_view(p@)) && self.has_winner(self.nodes@[k].path_view())
                            implies exists|m2: int|
                            0 <= m2 < r@.len() && segs_view((#[trigger] r@[m2]).path_segments@)
                                == self.nodes@[k].path_view() by {
                        if k < i {
                            let m2 = choose|m2: int|
                                0 <= m2 < r@.len() && segs_view(
                                    (#[trigger] r@[m2]).path_segments@,
                                ) == self.nodes@[k].path_view();
                        }
                    }
                }
            }
            i = i + 1;
        }
        let ghost c = r@;
        let sorted = sort_over_rows(r);
        proof {
            let perm = choose|perm: Seq<int>|
                #![trigger perm.len()]
                {
                    &&& perm.len() == c.len()
                    &&& (forall|m: int| 0 <= m < perm.len() ==> 0 <= #[trigger] perm[m] < c.len())
                    &&& (forall|m1: int, m2: int|
                        #![trigger perm[m1], perm[m2]]
                        0 <= m1 < m2 < perm.len() ==> perm[m1] != perm[m2])
                    &&& (forall|m: int|
                        0 <= m < perm.len() ==> #[trigger] sorted@[m] == c[perm[m]])
                };
            assert forall|m: int|
                0 <= m < sorted@.len() implies {
                let pathv = segs_view((#[trigger] sorted@[m]).path_segments@);
                &&& pathv.len() == depth
                &&& (parent matches Some(p) ==> pathv.take(p@.len() as int) == segs_view(p@))
                &&& self.has_winner(pathv)
                &&& sorted@[m].matches_node(self.nodes@[self.winner_index(pathv)])
            } by {
                assert(sorted@[m] == c[perm[m]]);
            }
            assert forall|m1: int, m2: int|
                #![trigger sorted@[m1].path_segments, sorted@[m2].path_segments]
                0 <= m1 < m2 < sorted@.len() implies segs_view(sorted@[m1].path_segments@)
                != segs_view(sorted@[m2].path_segments@) by {
                assert(sorted@[m1] == c[perm[m1]] && sorted@[m2] == c[perm[m2]]);
                if perm[m1] < perm[m2] {
                    assert(segs_view(c[perm[m1]].path_segments@) != segs_view(
                        c[perm[m2]].path_segments@,
                    ));
                } else {
                    assert(segs_view(c[perm[m2]].path_segments@) != segs_view(
                        c[perm[m1]].path_segments@,
                    ));
                }
            }
            assert forall|i2: int|
                0 <= i2 < self.nodes@.len() && (#[trigger] self.nodes@[i2]).path_view().len()
                    == depth && (parent matches Some(p) ==> self.nodes@[i2].path_view().take(
                    p@.len() as int,
                ) == segs_view(p@)) && self.has_winner(self.nodes@[i2].path_view())
                    implies exists|m: int|
                    0 <= m < sorted@.len() && segs_view((#[trigger] sorted@[m]).path_segments@)
                        == self.nodes@[i2].path_view() by {
                let m0 = choose|m0: int|
                    0 <= m0 < c.len() && segs_view((#[trigger] c[m0]).path_segments@)
                        == self.nodes@[i2].path_view();
                assert(sorted@.contains(c[m0]));
                let m = choose|m: int| 0 <= m < sorted@.len() && sorted@[m] == c[m0];
            }
        }
        sorted
    }
}

} // verus!
