use vstd::prelude::*;
use crate::compact::key_lt;
use crate::compact::rank_priority;
use crate::detect::conflict_members;
use crate::detect::hash_members;
use crate::order::segs_lt;
use crate::filters::keep_seq;
use crate::index::OverlayIndex;
use crate::ingest::IngestEntry;
use crate::ingest::built_views;
use crate::ingest::new_pack_record;
use crate::ingest::node_views;
use crate::ledger::keep_node_not_pack;
use crate::ledger::pack_with_active;
use crate::ledger::pack_with_deployed;
use crate::ledger::pack_with_info;
use crate::ledger::pack_with_priority;
use crate::model::ConflictFileList;
use crate::model::FileOverLinkList;
use crate::model::FileOverTree;
use crate::model::FileTreeNode;
use crate::model::HashEqualFiles;
use crate::model::InfoBase;
use crate::model::OverlayError;
use crate::model::OverrideRule;
use crate::model::PackInfo;
use crate::model::segs_view;
use crate::priority::Priority;
use crate::queries::keep_node_of_pack;
use crate::rules::keep_rule_not_pack;
use crate::rules::node_with_active;
use crate::rules::node_with_deployed;

verus! {

/// A read-only query against the resolved overlay.
pub enum ViewOverTree {
    /// The winners at the top level of the virtual tree.
    GetTop,
    /// The winners among the direct children of the given path.
    GetChildren(Vec<String>),
    /// Every winning path with its deployment source path.
    GetAllPaths,
    /// The files contesting the given relative path.
    GetConflictFiles(String),
    /// The files byte-identical to the given file.
    GetHashEqualFiles(u64),
    /// Every group of byte-identical files.
    GetAllHashEqualFiles,
}

/// What a `ViewOverTree` query returns.
#[derive(Debug)]
pub enum ResultOverTree {
    TreeList(Vec<FileOverTree>),
    LinkList(Vec<FileOverLinkList>),
    ConflictFileList(Vec<ConflictFileList>),
    HashEqualFileList(Vec<HashEqualFiles>),
    HashEqualFileGroup(Vec<Vec<HashEqualFiles>>),
}

impl ResultOverTree {
    /// The overlay rows, or nothing when the result holds another kind.
    pub fn as_file_over_tree(self) -> (r: Vec<FileOverTree>)
        ensures
            self matches ResultOverTree::TreeList(list) ==> r == list,
            !(self matches ResultOverTree::TreeList(_)) ==> r@.len() == 0,
    {
        if let Self::TreeList(list) = self {
            list
        } else {
            Vec::new()
        }
    }

    /// The deployment rows, or nothing when the result holds another kind.
    pub fn as_file_over_link_list(self) -> (r: Vec<FileOverLinkList>)
        ensures
            self matches ResultOverTree::LinkList(list) ==> r == list,
            !(self matches ResultOverTree::LinkList(_)) ==> r@.len() == 0,
    {
        if let Self::LinkList(list) = self {
            list
        } else {
            Vec::new()
        }
    }

    /// The conflict groups, or nothing when the result holds another kind.
    pub fn as_conflict_file_list(self) -> (r: Vec<ConflictFileList>)
        ensures
            self matches ResultOverTree::ConflictFileList(list) ==> r == list,
            !(self matches ResultOverTree::ConflictFileList(_)) ==> r@.len() == 0,
    {
        if let Self::ConflictFileList(list) = self {
            list
        } else {
            Vec::new()
        }
    }

    /// The duplicate rows, or nothing when the result holds another kind.
    pub fn as_hash_equal_file_list(self) -> (r: Vec<HashEqualFiles>)
        ensures
            self matches ResultOverTree::HashEqualFileList(list) ==> r == list,
            !(self matches ResultOverTree::HashEqualFileList(_)) ==> r@.len() == 0,
    {
        if let Self::HashEqualFileList(list) = self {
            list
        } else {
            Vec::new()
        }
    }

    /// The duplicate groups, or nothing when the result holds another kind.
    pub fn as_hash_equal_file_group(self) -> (r: Vec<Vec<HashEqualFiles>>)
        ensures
            self matches ResultOverTree::HashEqualFileGroup(list) ==> r == list,
            !(self matches ResultOverTree::HashEqualFileGroup(_)) ==> r@.len() == 0,
    {
        if let Self::HashEqualFileGroup(list) = self {
            list
        } else {
            Vec::new()
        }
    }
}

/// The `GetTop` result: sound, duplicate-free, complete, and ordered
/// rows of the depth-one resolved overlay — `get_top`'s contract.
pub open spec fn top_rows_ok(idx: OverlayIndex, rows: Seq<FileOverTree>) -> bool {
    &&& (forall|m: int|
        0 <= m < rows.len() ==> {
            let pathv = segs_view((#[trigger] rows[m]).path_segments@);
            &&& pathv.len() == 1
            &&& idx.has_winner(pathv)
            &&& rows[m].matches_node(idx.nodes@[idx.winner_index(pathv)])
        })
    &&& (forall|m1: int, m2: int|
        #![trigger rows[m1].path_segments, rows[m2].path_segments]
        0 <= m1 < m2 < rows.len() ==> segs_view(rows[m1].path_segments@) != segs_view(
            rows[m2].path_segments@,
        ))
    &&& (forall|i: int|
        0 <= i < idx.nodes@.len() && (#[trigger] idx.nodes@[i]).path_view().len() == 1
            && idx.has_winner(idx.nodes@[i].path_view()) ==> exists|m: int|
            0 <= m < rows.len() && segs_view((#[trigger] rows[m]).path_segments@)
                == idx.nodes@[i].path_view())
    &&& (forall|m1: int, m2: int|
        #![trigger rows[m1], rows[m2]]
        0 <= m1 < m2 < rows.len() ==> !segs_lt(
            segs_view(rows[m2].path_segments@),
            segs_view(rows[m1].path_segments@),
        ))
}

/// The `GetChildren` result: sound, duplicate-free, complete, and ordered
/// rows of the overlay one level below `parent` — `get_children`'s contract.
pub open spec fn children_rows_ok(
    idx: OverlayIndex,
    parent: Seq<String>,
    rows: Seq<FileOverTree>,
) -> bool {
    &&& (forall|m: int|
        0 <= m < rows.len() ==> {
            let pathv = segs_view((#[trigger] rows[m]).path_segments@);
            &&& pathv.len() == parent.len() + 1
            &&& pathv.take(parent.len() as int) == segs_view(parent)
            &&& idx.has_winner(pathv)
            &&& rows[m].matches_node(idx.nodes@[idx.winner_index(pathv)])
        })
    &&& (forall|m1: int, m2: int|
        #![trigger rows[m1].path_segments, rows[m2].path_segments]
        0 <= m1 < m2 < rows.len() ==> segs_view(rows[m1].path_segments@) != segs_view(
            rows[m2].path_segments@,
        ))
    &&& (forall|i: int|
        0 <= i < idx.nodes@.len() && (#[trigger] idx.nodes@[i]).path_view().len() == parent.len()
            + 1 && idx.nodes@[i].path_view().take(parent.len() as int) == segs_view(parent)
            && idx.has_winner(idx.nodes@[i].path_view()) ==> exists|m: int|
            0 <= m < rows.len() && segs_view((#[trigger] rows[m]).path_segments@)
                == idx.nodes@[i].path_view())
    &&& (forall|m1: int, m2: int|
        #![trigger rows[m1], rows[m2]]
        0 <= m1 < m2 < rows.len() ==> !segs_lt(
            segs_view(rows[m2].path_segments@),
            segs_view(rows[m1].path_segments@),
        ))
}

/// The `GetAllPaths` result: sound, complete and duplicate-free deployment
/// rows — `get_all_paths`'s contract.
pub open spec fn link_rows_ok(idx: OverlayIndex, rows: Seq<FileOverLinkList>) -> bool {
    &&& (forall|m: int|
        #![trigger rows[m]]
        0 <= m < rows.len() ==> {
            let w = idx.node_index_of(rows[m].file_id);
            &&& idx.has_node(rows[m].file_id)
            &&& idx.is_winner(idx.nodes@[w].path_view(), w)
            &&& idx.link_row_ok(rows[m], w)
        })
    &&& (forall|i: int|
        0 <= i < idx.nodes@.len() && idx.has_winner((#[trigger] idx.nodes@[i]).path_view())
            ==> exists|m: int|
            0 <= m < rows.len() && (#[trigger] rows[m]).file_id == idx.nodes@[
                idx.winner_index(idx.nodes@[i].path_view())
            ].id)
    &&& (forall|m1: int, m2: int|
        #![trigger rows[m1], rows[m2]]
        0 <= m1 < m2 < rows.len() ==> rows[m1].file_id != rows[m2].file_id && idx.nodes@[
            idx.node_index_of(rows[m1].file_id)
        ].path_view() != idx.nodes@[idx.node_index_of(rows[m2].file_id)].path_view())
}

/// The `GetConflictFiles` result: one faithful group exactly when the path
/// is contested — `get_conflict_files`'s contract.
pub open spec fn conflict_groups_ok(
    idx: OverlayIndex,
    q: Seq<char>,
    groups: Seq<ConflictFileList>,
) -> bool {
    let ms = conflict_members(idx.nodes@, q);
    &&& groups.len() == (if ms.len() >= 2 {
        1int
    } else {
        0int
    })
    &&& groups.len() == 1 ==> {
        let g = groups[0];
        &&& g.relative_path@ == q
        &&& g.files@.len() == ms.len()
        &&& (forall|t: int| 0 <= t < ms.len() ==> idx.conflict_row_ok(#[trigger] g.files@[t], ms[t]))
        &&& g.file_id == idx.nodes@[ms[0]].id
        &&& g.pack_id == idx.nodes@[ms[0]].pack_id
    }
}

/// The `GetHashEqualFiles` result on success: every file sharing the
/// file's hash, or nothing for a directory — `get_hash_equal_files`'s
/// contract.
pub open spec fn hash_rows_ok(idx: OverlayIndex, fid: u64, rows: Seq<HashEqualFiles>) -> bool {
    let n = idx.nodes@[idx.node_index_of(fid)];
    if n.is_dir {
        rows.len() == 0
    } else {
        let ms = hash_members(idx.nodes@, n.hash->0@);
        &&& rows.len() == ms.len()
        &&& (forall|t: int| 0 <= t < ms.len() ==> idx.hash_row_ok(#[trigger] rows[t], ms[t]))
    }
}

/// The `GetAllHashEqualFiles` result: the disjoint, complete partition of
/// the duplicated files — `get_all_hash_equal_files`'s contract.
pub open spec fn hash_groups_ok(idx: OverlayIndex, groups: Seq<Vec<HashEqualFiles>>) -> bool {
    &&& (forall|g: int|
        0 <= g < groups.len() ==> {
            let rows = #[trigger] groups[g];
            let ms = hash_members(idx.nodes@, rows@[0].hash@);
            &&& rows@.len() >= 2
            &&& rows@.len() == ms.len()
            &&& (forall|t: int| 0 <= t < ms.len() ==> idx.hash_row_ok(#[trigger] rows@[t], ms[t]))
        })
    &&& (forall|g1: int, g2: int|
        #![trigger groups[g1], groups[g2]]
        0 <= g1 < g2 < groups.len() ==> groups[g1]@[0].hash@ != groups[g2]@[0].hash@)
    &&& (forall|i: int|
        0 <= i < idx.nodes@.len() && !(#[trigger] idx.nodes@[i]).is_dir && hash_members(
            idx.nodes@,
            idx.nodes@[i].hash->0@,
        ).len() >= 2 ==> exists|g: int|
            0 <= g < groups.len() && (#[trigger] groups[g])@[0].hash@ == idx.nodes@[i].hash->0@)
}

impl ViewOverTree {
    /// Run the query against the index. Each variant returns the result of
    /// the like-named query function, in the matching result variant, and
    /// restates that function's contract.
    #[verifier::rlimit(100)]
    #[verifier::spinoff_prover]
    pub fn execute(&self, idx: &OverlayIndex) -> (r: Result<ResultOverTree, OverlayError>)
        requires
            idx.wf(),
            self matches ViewOverTree::GetChildren(p) ==> p@.len() < usize::MAX,
        ensures
            match self {
                ViewOverTree::GetTop => r matches Ok(res) && res matches ResultOverTree::TreeList(
                    rows,
                ) && top_rows_ok(*idx, rows@),
                ViewOverTree::GetChildren(p) => r matches Ok(res) && res
                    matches ResultOverTree::TreeList(rows) && children_rows_ok(*idx, p@, rows@),
                ViewOverTree::GetAllPaths => r matches Ok(res) && res
                    matches ResultOverTree::LinkList(rows) && link_rows_ok(*idx, rows@),
                ViewOverTree::GetConflictFiles(q) => r matches Ok(res) && res
                    matches ResultOverTree::ConflictFileList(groups) && conflict_groups_ok(
                    *idx,
                    q@,
                    groups@,
                ),
                ViewOverTree::GetHashEqualFiles(fid) => (r is Ok <==> idx.has_node(*fid)) && (r
                    is Err ==> r == Err::<ResultOverTree, OverlayError>(
                    OverlayError::FileNotFound,
                )) && (r matches Ok(res) ==> res matches ResultOverTree::HashEqualFileList(rows)
                    && hash_rows_ok(*idx, *fid, rows@)),
                ViewOverTree::GetAllHashEqualFiles => r matches Ok(res) && res
                    matches ResultOverTree::HashEqualFileGroup(groups) && hash_groups_ok(
                    *idx,
                    groups@,
                ),
            },
    {
        match self {
            ViewOverTree::GetTop => {
                let rows = idx.get_top();
                proof {
                    assert(forall|m1: int, m2: int|
                        #![trigger rows@[m1].path_segments, rows@[m2].path_segments]
                        0 <= m1 < m2 < rows@.len() ==> segs_view(rows@[m1].path_segments@)
                            != segs_view(rows@[m2].path_segments@));
                    assert(forall|i: int|
                        0 <= i < idx.nodes@.len() && (#[trigger] idx.nodes@[i]).path_view().len()
                            == 1 && idx.has_winner(idx.nodes@[i].path_view()) ==> exists|m: int|
                            0 <= m < rows@.len() && segs_view(
                                (#[trigger] rows@[m]).path_segments@,
                            ) == idx.nodes@[i].path_view());
                    assert(forall|m1: int, m2: int|
                        #![trigger rows@[m1], rows@[m2]]
                        0 <= m1 < m2 < rows@.len() ==> !segs_lt(
                            segs_view(rows@[m2].path_segments@),
                            segs_view(rows@[m1].path_segments@),
                        ));
                }
                Ok(ResultOverTree::TreeList(rows))
            },
            ViewOverTree::GetChildren(p) => {
                let rows = idx.get_children(p);
                proof {
                    assert(forall|i: int|
                        0 <= i < idx.nodes@.len() && (#[trigger] idx.nodes@[i]).path_view().len()
                            == p@.len() + 1 && idx.nodes@[i].path_view().take(p@.len() as int)
                            == segs_view(p@) && idx.has_winner(idx.nodes@[i].path_view())
                            ==> exists|m: int|
                            0 <= m < rows@.len() && segs_view(
                                (#[trigger] rows@[m]).path_segments@,
                            ) == idx.nodes@[i].path_view());
                }
                Ok(ResultOverTree::TreeList(rows))
            },
            ViewOverTree::GetAllPaths => {
                let rows = idx.get_all_paths();
                proof {
                    assert(forall|i: int|
                        0 <= i < idx.nodes@.len() && idx.has_winner(
                            (#[trigger] idx.nodes@[i]).path_view(),
                        ) ==> exists|m: int|
                            0 <= m < rows@.len() && (#[trigger] rows@[m]).file_id == idx.nodes@[
                                idx.winner_index(idx.nodes@[i].path_view())
                            ].id);
                    assert(forall|m1: int, m2: int|
                        #![trigger rows@[m1], rows@[m2]]
                        0 <= m1 < m2 < rows@.len() ==> rows@[m1].file_id != rows@[m2].file_id
                            && idx.nodes@[idx.node_index_of(rows@[m1].file_id)].path_view()
                            != idx.nodes@[idx.node_index_of(rows@[m2].file_id)].path_view());
                }
                Ok(ResultOverTree::LinkList(rows))
            },
            ViewOverTree::GetConflictFiles(q) => {
                let qs = q.as_str();
                let groups = idx.get_conflict_files(qs);
                proof {
                    assert(qs@ == q@);
                    let ms = conflict_members(idx.nodes@, q@);
                    assert(conflict_members(idx.nodes@, qs@) == ms);
                    assert(groups@.len() == (if ms.len() >= 2 {
                        1int
                    } else {
                        0int
                    }));
                    if groups@.len() == 1 {
                        let g = groups@[0];
                        assert(g.relative_path@ == q@);
                        assert(g.files@.len() == ms.len());
                        assert(g.file_id == idx.nodes@[ms[0]].id);
                        assert(g.pack_id == idx.nodes@[ms[0]].pack_id);
                    }
                }
                Ok(ResultOverTree::ConflictFileList(groups))
            },
            ViewOverTree::GetHashEqualFiles(fid) => {
                match idx.get_hash_equal_files(*fid) {
                    Ok(rows) => {
                        proof {
                            let n = idx.nodes@[idx.node_index_of(*fid)];
                            if !n.is_dir {
                                let ms = hash_members(idx.nodes@, n.hash->0@);
                                assert(rows@.len() == ms.len());
                                assert(forall|t: int|
                                    0 <= t < ms.len() ==> idx.hash_row_ok(
                                        #[trigger] rows@[t],
                                        ms[t],
                                    ));
                            }
                        }
                        Ok(ResultOverTree::HashEqualFileList(rows))
                    },
                    Err(e) => Err(e),
                }
            },
            ViewOverTree::GetAllHashEqualFiles => {
                let groups = idx.get_all_hash_equal_files();
                proof {
                    assert(forall|g1: int, g2: int|
                        #![trigger groups@[g1], groups@[g2]]
                        0 <= g1 < g2 < groups@.len() ==> groups@[g1]@[0].hash@
                            != groups@[g2]@[0].hash@);
                    assert(forall|i: int|
                        0 <= i < idx.nodes@.len() && !(#[trigger] idx.nodes@[i]).is_dir
                            && hash_members(idx.nodes@, idx.nodes@[i].hash->0@).len() >= 2
                            ==> exists|g: int|
                            0 <= g < groups@.len() && (#[trigger] groups@[g])@[0].hash@
                                == idx.nodes@[i].hash->0@);
                }
                Ok(ResultOverTree::HashEqualFileGroup(groups))
            },
        }
    }
}

/// A read-only query over the packs.
pub enum ViewPack {
    /// The pack listing, by ascending priority.
    GetPackInfo,
    /// The tree listing of one pack.
    GetFileById(u64),
}

/// What a `ViewPack` query returns.
#[derive(Debug)]
pub enum ResultPack {
    InfoList(Vec<PackInfo>),
    FileList(Vec<FileTreeNode>),
}

impl ResultPack {
    /// The pack rows, or nothing when the result holds file rows.
    pub fn as_pack_info(self) -> (r: Vec<PackInfo>)
        ensures
            self matches ResultPack::InfoList(list) ==> r == list,
            !(self matches ResultPack::InfoList(_)) ==> r@.len() == 0,
    {
        if let Self::InfoList(list) = self {
            list
        } else {
            Vec::new()
        }
    }

    /// The file rows, or nothing when the result holds pack rows.
    pub fn as_file_tree_node(self) -> (r: Vec<FileTreeNode>)
        ensures
            self matches ResultPack::FileList(list) ==> r == list,
            !(self matches ResultPack::FileList(_)) ==> r@.len() == 0,
    {
        if let Self::FileList(list) = self {
            list
        } else {
            Vec::new()
        }
    }
}

impl ViewPack {
    /// Run the query against the index. Each variant returns the result of
    /// the like-named query function, in the matching result variant, and
    /// restates that function's contract.
    #[verifier::rlimit(100)]
    #[verifier::spinoff_prover]
    pub fn execute(&self, idx: &OverlayIndex) -> (r: ResultPack)
        requires
            idx.wf(),
        ensures
            match self {
                ViewPack::GetPackInfo => r matches ResultPack::InfoList(rows) && rows@.len()
                    == idx.packs@.len() && (exists|perm: Seq<int>|
                    #![trigger perm.len()]
                    {
                        &&& perm.len() == idx.packs@.len()
                        &&& (forall|m: int|
                            0 <= m < perm.len() ==> 0 <= #[trigger] perm[m] < idx.packs@.len())
                        &&& (forall|m1: int, m2: int|
                            #![trigger perm[m1], perm[m2]]
                            0 <= m1 < m2 < perm.len() ==> perm[m1] != perm[m2])
                        &&& (forall|m: int|
                            0 <= m < perm.len() ==> idx.pack_row_matches(
                                #[trigger] rows@[m],
                                idx.packs@[perm[m]],
                            ))
                    }) && (forall|m1: int, m2: int|
                    #![trigger rows@[m1], rows@[m2]]
                    0 <= m1 < m2 < rows@.len() ==> !key_lt(rows@[m2], rows@[m1])),
                ViewPack::GetFileById(pid) => r matches ResultPack::FileList(rows) && rows@.len()
                    == keep_seq(idx.nodes@, keep_node_of_pack(*pid)).len() && (exists|
                perm: Seq<int>|
                    #![trigger perm.len()]
                    {
                        let kept = keep_seq(idx.nodes@, keep_node_of_pack(*pid));
                        &&& perm.len() == kept.len()
                        &&& (forall|m: int|
                            0 <= m < perm.len() ==> 0 <= #[trigger] perm[m] < kept.len())
                        &&& (forall|m1: int, m2: int|
                            #![trigger perm[m1], perm[m2]]
                            0 <= m1 < m2 < perm.len() ==> perm[m1] != perm[m2])
                        &&& (forall|m: int|
                            0 <= m < perm.len() ==> (#[trigger] rows@[m]).matches_node(
                                kept[perm[m]],
                            ))
                    }) && (forall|i: int|
                    0 <= i < idx.nodes@.len() && (#[trigger] idx.nodes@[i]).pack_id == *pid
                        ==> exists|m: int|
                        0 <= m < rows@.len() && (#[trigger] rows@[m]).matches_node(
                            idx.nodes@[i],
                        )) && (forall|m1: int, m2: int|
                    #![trigger rows@[m1], rows@[m2]]
                    0 <= m1 < m2 < rows@.len() ==> !segs_lt(
                        segs_view(rows@[m2].path_segments@),
                        segs_view(rows@[m1].path_segments@),
                    )),
            },
    {
        match self {
            ViewPack::GetPackInfo => ResultPack::InfoList(idx.get_pack_info()),
            ViewPack::GetFileById(pid) => ResultPack::FileList(idx.get_file_by_id(*pid)),
        }
    }
}

/// A mutation of the pack ledger.
pub enum ListPack {
    /// Ingest a tree as a new pack: base path, metadata, walked entries,
    /// and the caller's clock in milliseconds.
    Insert(String, InfoBase, Vec<IngestEntry>, i64),
    /// Remove a pack and everything that references it.
    RemoveById(u64),
    /// Switch a pack's participation in resolution.
    SetActive(u64, bool),
    /// Switch a pack's deployment mark.
    SetDeployed(u64, bool),
    /// Set a pack's priority.
    SetPriority(u64, Priority),
    /// Replace a pack's metadata, stamping the caller's clock.
    SetInfo(u64, InfoBase, i64),
    /// Renumber all priorities to consecutive integers, keeping the order
    /// and the append counter.
    ResetPriority,
}

impl ListPack {
    /// Apply the mutation to the index. Each variant behaves as the
    /// like-named index operation.
    pub fn execute(self, idx: &mut OverlayIndex) -> (r: Result<(), OverlayError>)
        requires
            old(idx).wf(),
            self matches ListPack::Insert(_, _, entries, _) ==> old(idx).pack_counter < i64::MAX
                && old(idx).node_counter + entries@.len() <= u64::MAX,
            self matches ListPack::SetPriority(_, p) ==> p.wf(),
            self matches ListPack::ResetPriority ==> old(idx).packs@.len() + 1 <= i64::MAX,
        ensures
            final(idx).wf(),
            match self {
                ListPack::Insert(base_path, info, entries, now_ms) => (r is Ok <==> !old(idx).has_pack(
                    info.id,
                )) && (r is Ok ==> final(idx).packs@ == old(idx).packs@.push(
                    new_pack_record(info, base_path, old(idx).pack_counter, now_ms),
                ) && node_views(final(idx).nodes@) == node_views(old(idx).nodes@) + built_views(
                    entries@,
                    info.id,
                    old(idx).node_counter,
                ) && final(idx).pack_counter == old(idx).pack_counter + 1 && final(idx).node_counter == old(idx).node_counter + built_views(
                    entries@,
                    info.id,
                    old(idx).node_counter,
                ).len()) && (r is Err ==> *final(idx) == *old(idx) && r == Err::<(), OverlayError>(
                    OverlayError::PackExists,
                )) && final(idx).overrides == old(idx).overrides,
                ListPack::RemoveById(id) => (r is Ok <==> old(idx).has_pack(id)) && (r is Ok
                    ==> final(idx).packs@ == old(idx).packs@.remove(old(idx).pack_index_of(id))
                    && final(idx).nodes@ == keep_seq(old(idx).nodes@, keep_node_not_pack(id))
                    && final(idx).overrides@ == keep_seq(old(idx).overrides@, keep_rule_not_pack(id)))
                    && (r is Err ==> *final(idx) == *old(idx) && r == Err::<(), OverlayError>(
                    OverlayError::PackNotFound,
                )) && final(idx).pack_counter == old(idx).pack_counter && final(idx).node_counter
                    == old(idx).node_counter,
                ListPack::SetActive(id, b) => (r is Ok <==> old(idx).has_pack(id)) && (r is Ok
                    ==> final(idx).packs@ == old(idx).packs@.update(
                    old(idx).pack_index_of(id),
                    pack_with_active(old(idx).pack_of(id), b),
                )) && (r is Err ==> *final(idx) == *old(idx) && r == Err::<(), OverlayError>(
                    OverlayError::PackNotFound,
                )) && final(idx).nodes == old(idx).nodes && final(idx).overrides == old(idx).overrides && final(idx).pack_counter == old(idx).pack_counter && final(idx).node_counter == old(idx).node_counter,
                ListPack::SetDeployed(id, b) => (r is Ok <==> old(idx).has_pack(id)) && (r is Ok
                    ==> final(idx).packs@ == old(idx).packs@.update(
                    old(idx).pack_index_of(id),
                    pack_with_deployed(old(idx).pack_of(id), b),
                )) && (r is Err ==> *final(idx) == *old(idx) && r == Err::<(), OverlayError>(
                    OverlayError::PackNotFound,
                )) && final(idx).nodes == old(idx).nodes && final(idx).overrides == old(idx).overrides && final(idx).pack_counter == old(idx).pack_counter && final(idx).node_counter == old(idx).node_counter,
                ListPack::SetPriority(id, p) => (r is Ok <==> old(idx).has_pack(id)) && (r is Ok
                    ==> final(idx).packs@ == old(idx).packs@.update(
                    old(idx).pack_index_of(id),
                    pack_with_priority(old(idx).pack_of(id), p),
                )) && (r is Err ==> *final(idx) == *old(idx) && r == Err::<(), OverlayError>(
                    OverlayError::PackNotFound,
                )) && final(idx).nodes == old(idx).nodes && final(idx).overrides == old(idx).overrides && final(idx).pack_counter == old(idx).pack_counter && final(idx).node_counter == old(idx).node_counter,
                ListPack::SetInfo(id, info, now_ms) => (r is Ok <==> old(idx).has_pack(id)) && (r
                    is Ok ==> final(idx).packs@ == old(idx).packs@.update(
                    old(idx).pack_index_of(id),
                    pack_with_info(old(idx).pack_of(id), info, now_ms),
                )) && (r is Err ==> *final(idx) == *old(idx) && r == Err::<(), OverlayError>(
                    OverlayError::PackNotFound,
                )) && final(idx).nodes == old(idx).nodes && final(idx).overrides == old(idx).overrides && final(idx).pack_counter == old(idx).pack_counter && final(idx).node_counter == old(idx).node_counter,
                ListPack::ResetPriority => r is Ok && final(idx).packs@.len()
                    == old(idx).packs@.len() && (forall|k: int|
                    0 <= k < old(idx).packs@.len() ==> #[trigger] final(idx).packs@[k]
                        == pack_with_priority(
                        old(idx).packs@[k],
                        rank_priority(old(idx).packs@, k),
                    )) && final(idx).pack_counter == old(idx).pack_counter && final(idx).nodes
                    == old(idx).nodes && final(idx).overrides == old(idx).overrides && final(idx).node_counter == old(idx).node_counter,
            },
    {
        match self {
            ListPack::Insert(base_path, info, entries, now_ms) => idx.insert_pack(
                base_path,
                info,
                entries,
                now_ms,
            ),
            ListPack::RemoveById(id) => idx.remove_pack(id),
            ListPack::SetActive(id, b) => idx.set_pack_active(id, b),
            ListPack::SetDeployed(id, b) => idx.set_pack_deployed(id, b),
            ListPack::SetPriority(id, p) => idx.set_pack_priority(id, p),
            ListPack::SetInfo(id, info, now_ms) => idx.set_pack_info(id, info, now_ms),
            ListPack::ResetPriority => {
                idx.reset_priority();
                Ok(())
            },
        }
    }
}

/// A mutation of the file nodes or the override rules.
pub enum ListTree {
    /// Switch a file's participation in resolution.
    SetActive(u64, bool),
    /// Switch a file's deployment mark.
    SetDeployed(u64, bool),
    /// Pin a file as the winner at a path.
    AddCoverRule(Vec<String>, u64, u64),
    /// Remove the pin at a path.
    RemoveCoverRule(Vec<String>),
    /// Remove every pin owned by a pack.
    RemoveCoverRuleByPackId(u64),
}

impl ListTree {
    /// Apply the mutation to the index. Each variant behaves as the
    /// like-named index operation.
    pub fn execute(self, idx: &mut OverlayIndex) -> (r: Result<(), OverlayError>)
        requires
            old(idx).wf(),
        ensures
            final(idx).wf(),
            match self {
                ListTree::SetActive(id, b) => (r is Ok <==> old(idx).has_node(id)) && (r is Ok
                    ==> final(idx).nodes@ == old(idx).nodes@.update(
                    old(idx).node_index_of(id),
                    node_with_active(old(idx).nodes@[old(idx).node_index_of(id)], b),
                )) && (r is Err ==> *final(idx) == *old(idx) && r == Err::<(), OverlayError>(
                    OverlayError::FileNotFound,
                )) && final(idx).packs == old(idx).packs && final(idx).overrides == old(idx).overrides && final(idx).pack_counter == old(idx).pack_counter && final(idx).node_counter == old(idx).node_counter,
                ListTree::SetDeployed(id, b) => (r is Ok <==> old(idx).has_node(id)) && (r is Ok
                    ==> final(idx).nodes@ == old(idx).nodes@.update(
                    old(idx).node_index_of(id),
                    node_with_deployed(old(idx).nodes@[old(idx).node_index_of(id)], b),
                )) && (r is Err ==> *final(idx) == *old(idx) && r == Err::<(), OverlayError>(
                    OverlayError::FileNotFound,
                )) && final(idx).packs == old(idx).packs && final(idx).overrides == old(idx).overrides && final(idx).pack_counter == old(idx).pack_counter && final(idx).node_counter == old(idx).node_counter,
                ListTree::AddCoverRule(path, file_id, pack_id) => (r is Ok <==> !old(idx).has_override(segs_view(path@)) && (exists|k: int|
                    0 <= k < old(idx).nodes@.len() && old(idx).nodes@[k].id == file_id && (
                    #[trigger] old(idx).nodes@[k]).pack_id == pack_id)) && (r is Ok ==> final(idx).overrides@ == old(idx).overrides@.push(
                    OverrideRule { path, file_id, pack_id },
                )) && (r is Err ==> *final(idx) == *old(idx)) && (r == Err::<(), OverlayError>(
                    OverlayError::OverrideExists,
                ) <==> old(idx).has_override(segs_view(path@))) && (r == Err::<(), OverlayError>(
                    OverlayError::FileNotFound,
                ) <==> !old(idx).has_override(segs_view(path@)) && !(exists|k: int|
                    0 <= k < old(idx).nodes@.len() && old(idx).nodes@[k].id == file_id && (
                    #[trigger] old(idx).nodes@[k]).pack_id == pack_id)) && final(idx).packs == old(idx).packs && final(idx).nodes == old(idx).nodes && final(idx).pack_counter == old(idx).pack_counter && final(idx).node_counter == old(idx).node_counter,
                ListTree::RemoveCoverRule(path) => (r is Ok <==> old(idx).has_override(
                    segs_view(path@),
                )) && (r is Ok ==> final(idx).overrides@ == old(idx).overrides@.remove(
                    old(idx).override_index_of(segs_view(path@)),
                )) && (r is Err ==> *final(idx) == *old(idx) && r == Err::<(), OverlayError>(
                    OverlayError::OverrideNotFound,
                )) && final(idx).packs == old(idx).packs && final(idx).nodes == old(idx).nodes
                    && final(idx).pack_counter == old(idx).pack_counter && final(idx).node_counter
                    == old(idx).node_counter,
                ListTree::RemoveCoverRuleByPackId(pack_id) => r is Ok && final(idx).overrides@
                    == keep_seq(old(idx).overrides@, keep_rule_not_pack(pack_id)) && final(idx).packs == old(idx).packs && final(idx).nodes == old(idx).nodes && final(idx).pack_counter == old(idx).pack_counter && final(idx).node_counter == old(idx).node_counter,
            },
    {
        match self {
            ListTree::SetActive(id, b) => idx.set_file_active(id, b),
            ListTree::SetDeployed(id, b) => idx.set_file_deployed(id, b),
            ListTree::AddCoverRule(path, file_id, pack_id) => idx.add_cover_rule(
                path,
                file_id,
                pack_id,
            ),
            ListTree::RemoveCoverRule(path) => idx.remove_cover_rule(&path),
            ListTree::RemoveCoverRuleByPackId(pack_id) => {
                idx.remove_cover_rule_by_pack_id(pack_id);
                Ok(())
            },
        }
    }
}

} // verus!
