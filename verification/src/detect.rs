use vstd::prelude::*;
use crate::index::OverlayIndex;
use crate::model::ConflictFile;
use crate::model::ConflictFileList;
use crate::model::FileNode;
use crate::model::HashEqualFiles;
use crate::model::OverlayError;
use crate::resolve::clone_segs;
use vstd::string::StrSliceExecFns;
use vstd::string::StringExecFns;

verus! {

/// A segment sequence joined with `/` into one relative path.
pub open spec fn join_rel(segs: Seq<Seq<char>>) -> Seq<char>
    decreases segs.len(),
{
    if segs.len() == 0 {
        Seq::empty()
    } else if segs.len() == 1 {
        segs[0]
    } else {
        join_rel(segs.drop_last()) + seq!['/'] + segs.last()
    }
}

/// Join a segment list with `/` into one relative path string.
pub fn join_segments(v: &Vec<String>) -> (r: String)
    ensures
        r@ == join_rel(crate::model::segs_view(v@)),
{
    let ghost segs = crate::model::segs_view(v@);
    let mut s = String::new();
    let mut i: usize = 0;
    proof {
        reveal_strlit("/");
        assert(segs.take(0) =~= Seq::<Seq<char>>::empty());
    }
    while i < v.len()
        invariant
            segs == crate::model::segs_view(v@),
            i <= v@.len(),
            s@ == join_rel(segs.take(i as int)),
        decreases v@.len() - i,
    {
        proof {
            reveal_strlit("/");
            assert(segs.take(i + 1).drop_last() =~= segs.take(i as int));
            assert(segs.take(i + 1).last() == segs[i as int]);
        }
        if i > 0 {
            s.append("/");
            proof {
                assert("/"@ =~= seq!['/']);
            }
        }
        s.append(v[i].as_str());
        proof {
            if i == 0 {
                assert(segs.take(0).len() == 0);
                assert(join_rel(segs.take(0)) == Seq::<char>::empty());
                assert(s@ =~= segs[0]);
            }
        }
        i = i + 1;
    }
    proof {
        assert(segs.take(v@.len() as int) =~= segs);
    }
    s
}

/// The positions, among the first `k` nodes, whose joined relative path is `q`.
pub open spec fn conflict_members_upto(nodes: Seq<FileNode>, q: Seq<char>, k: int) -> Seq<int>
    decreases k,
{
    if k <= 0 {
        Seq::empty()
    } else {
        let prev = conflict_members_upto(nodes, q, k - 1);
        if join_rel(nodes[k - 1].path_view()) == q {
            prev.push(k - 1)
        } else {
            prev
        }
    }
}

/// The positions of all nodes whose joined relative path is `q`.
pub open spec fn conflict_members(nodes: Seq<FileNode>, q: Seq<char>) -> Seq<int> {
    conflict_members_upto(nodes, q, nodes.len() as int)
}

/// The positions, among the first `k` nodes, of files whose content hash is `h`.
pub open spec fn hash_members_upto(nodes: Seq<FileNode>, h: Seq<char>, k: int) -> Seq<int>
    decreases k,
{
    if k <= 0 {
        Seq::empty()
    } else {
        let prev = hash_members_upto(nodes, h, k - 1);
        let n = nodes[k - 1];
        if !n.is_dir && (n.hash matches Some(x) && x@ == h) {
            prev.push(k - 1)
        } else {
            prev
        }
    }
}

/// The positions of all files whose content hash is `h`.
pub open spec fn hash_members(nodes: Seq<FileNode>, h: Seq<char>) -> Seq<int> {
    hash_members_upto(nodes, h, nodes.len() as int)
}

impl OverlayIndex {
    /// The conflict row for the node at position `i` is faithful: its
    /// identities and active flag come from the node, its priority and base
    /// path from the owning pack.
    pub open spec fn conflict_row_ok(self, cf: ConflictFile, i: int) -> bool {
        let n = self.nodes@[i];
        let p = self.pack_of(n.pack_id);
        &&& cf.pack_id == n.pack_id
        &&& cf.file_id == n.id
        &&& cf.parent_id == n.parent_id
        &&& cf.priority == p.priority
        &&& cf.file_active == n.is_active
        &&& cf.base_path@ == p.base_path@
    }

    /// The duplicate row for the node at position `i` is faithful.
    pub open spec fn hash_row_ok(self, row: HashEqualFiles, i: int) -> bool {
        let n = self.nodes@[i];
        &&& row.file_id == n.id
        &&& row.pack_id == n.pack_id
        &&& (n.hash matches Some(x) && row.hash@ == x@)
        &&& row.path_segments@ == n.path_segments@
    }

    /// Build the conflict row of the node at position `i`.
    fn conflict_row_of(&self, i: usize) -> (cf: ConflictFile)
        requires
            self.wf(),
            i < self.nodes@.len(),
        ensures
            self.conflict_row_ok(cf, i as int),
    {
        let n = &self.nodes[i];
        let pi = match self.find_pack(n.pack_id) {
            Some(pi) => pi,
            None => {
                proof {
                    assert(self.has_pack(self.nodes@[i as int].pack_id));
                }
                unreached()
            },
        };
        let p = &self.packs[pi];
        ConflictFile {
            pack_id: n.pack_id,
            file_id: n.id,
            parent_id: n.parent_id,
            priority: p.priority,
            file_active: n.is_active,
            base_path: p.base_path.clone(),
        }
    }

    /// All files contesting the relative path `path`, as a group for
    /// operator review; empty when fewer than two files sit at the path.
    pub fn get_conflict_files(&self, path: &str) -> (r: Vec<ConflictFileList>)
        requires
            self.wf(),
        ensures
            ({
                let ms = conflict_members(self.nodes@, path@);
                &&& r@.len() == (if ms.len() >= 2 {
                    1int
                } else {
                    0int
                })
                &&& r@.len() == 1 ==> {
                    let g = r@[0];
                    &&& g.relative_path@ == path@
                    &&& g.files@.len() == ms.len()
                    &&& forall|t: int|
                        0 <= t < ms.len() ==> self.conflict_row_ok(#[trigger] g.files@[t], ms[t])
                    &&& g.file_id == self.nodes@[ms[0]].id
                    &&& g.pack_id == self.nodes@[ms[0]].pack_id
                }
            }),
    {
        let target = String::from_str(path);
        let mut files: Vec<ConflictFile> = Vec::new();
        let mut first_file: u64 = 0;
        let mut first_pack: u64 = 0;
        let mut i: usize = 0;
        while i < self.nodes.len()
            invariant
                self.wf(),
                target@ == path@,
                i <= self.nodes@.len(),
                files@.len() == conflict_members_upto(self.nodes@, path@, i as int).len(),
                forall|t: int|
                    0 <= t < files@.len() ==> self.conflict_row_ok(
                        #[trigger] files@[t],
                        conflict_members_upto(self.nodes@, path@, i as int)[t],
                    ),
                files@.len() > 0 ==> first_file == self.nodes@[conflict_members_upto(
                    self.nodes@,
                    path@,
                    i as int,
                )[0]].id && first_pack == self.nodes@[conflict_members_upto(
                    self.nodes@,
                    path@,
                    i as int,
                )[0]].pack_id,
            decreases self.nodes@.len() - i,
        {
            let j = join_segments(&self.nodes[i].path_segments);
            let same: bool = j == target;
            if same {
                if files.len() == 0 {
                    first_file = self.nodes[i].id;
                    first_pack = self.nodes[i].pack_id;
                }
                let cf = self.conflict_row_of(i);
                files.push(cf);
            }
            i = i + 1;
        }
        if files.len() >= 2 {
            let g = ConflictFileList {
                relative_path: target,
                file_id: first_file,
                pack_id: first_pack,
                files: files,
            };
            let mut r: Vec<ConflictFileList> = Vec::new();
            r.push(g);
            r
        } else {
            Vec::new()
        }
    }

    /// Build the duplicate row of the node at position `i`.
    fn hash_row_of(&self, i: usize) -> (row: HashEqualFiles)
        requires
            self.wf(),
            i < self.nodes@.len(),
            self.nodes@[i as int].hash is Some,
        ensures
            self.hash_row_ok(row, i as int),
    {
        let n = &self.nodes[i];
        let h = match &n.hash {
            Some(h) => h.clone(),
            None => unreached(),
        };
        HashEqualFiles {
            file_id: n.id,
            pack_id: n.pack_id,
            hash: h,
            path_segments: clone_segs(&n.path_segments),
        }
    }

    /// All files sharing the content hash of the file `file_id`, the file
    /// itself included; empty for a directory.
    pub fn get_hash_equal_files(&self, file_id: u64) -> (r: Result<Vec<HashEqualFiles>, OverlayError>)
        requires
            self.wf(),
        ensures
            r is Ok <==> self.has_node(file_id),
            r == Err::<Vec<HashEqualFiles>, OverlayError>(OverlayError::FileNotFound)
                <==> !self.has_node(file_id),
            r matches Ok(rows) ==> {
                let n = self.nodes@[self.node_index_of(file_id)];
                if n.is_dir {
                    rows@.len() == 0
                } else {
                    let ms = hash_members(self.nodes@, n.hash->0@);
                    &&& rows@.len() == ms.len()
                    &&& forall|t: int|
                        0 <= t < ms.len() ==> self.hash_row_ok(#[trigger] rows@[t], ms[t])
                }
            },
    {
        let k = match self.find_node(file_id) {
            None => {
                return Err(OverlayError::FileNotFound);
            },
            Some(k) => k,
        };
        if self.nodes[k].is_dir {
            return Ok(Vec::new());
        }
        proof {
            assert(self.nodes@[k as int].wf());
        }
        let target: String = match &self.nodes[k].hash {
            Some(h) => h.clone(),
            None => unreached(),
        };
        let ghost h = self.nodes@[k as int].hash->0@;
        let mut rows: Vec<HashEqualFiles> = Vec::new();
        let mut i: usize = 0;
        while i < self.nodes.len()
            invariant
                self.wf(),
                target@ == h,
                i <= self.nodes@.len(),
                rows@.len() == hash_members_upto(self.nodes@, h, i as int).len(),
                forall|t: int|
                    0 <= t < rows@.len() ==> self.hash_row_ok(
                        #[trigger] rows@[t],
                        hash_members_upto(self.nodes@, h, i as int)[t],
                    ),
            decreases self.nodes@.len() - i,
        {
            let n = &self.nodes[i];
            let mut same = false;
            if !n.is_dir {
                match &n.hash {
                    Some(x) => {
                        if *x == target {
                            same = true;
                        }
                    },
                    None => {},
                }
            }
            proof {
                let nn = self.nodes@[i as int];
                assert(same == (!nn.is_dir && (nn.hash matches Some(x) && x@ == h)));
            }
            if same {
                let row = self.hash_row_of(i);
                rows.push(row);
            }
            i = i + 1;
        }
        Ok(rows)
    }

    /// Every group of two or more byte-identical files, each group sharing
    /// one content hash, groups in order of first appearance.
    pub fn get_all_hash_equal_files(&self) -> (r: Vec<Vec<HashEqualFiles>>)
        requires
            self.wf(),
        ensures
            forall|g: int|
                0 <= g < r@.len() ==> {
                    let rows = #[trigger] r@[g];
                    let ms = hash_members(self.nodes@, rows@[0].hash@);
                    &&& rows@.len() >= 2
                    &&& rows@.len() == ms.len()
                    &&& forall|t: int|
                        0 <= t < ms.len() ==> self.hash_row_ok(#[trigger] rows@[t], ms[t])
                },
            forall|g1: int, g2: int|
                #![trigger r@[g1], r@[g2]]
                0 <= g1 < g2 < r@.len() ==> r@[g1]@[0].hash@ != r@[g2]@[0].hash@,
            forall|i: int|
                0 <= i < self.nodes@.len() && !(#[trigger] self.nodes@[i]).is_dir
                    && hash_members(self.nodes@, self.nodes@[i].hash->0@).len() >= 2
                    ==> exists|g: int|
                    0 <= g < r@.len() && (#[trigger] r@[g])@[0].hash@ == self.nodes@[i].hash->0@,
    {
        let mut r: Vec<Vec<HashEqualFiles>> = Vec::new();
        let mut i: usize = 0;
        while i < self.nodes.len()
            invariant
                self.wf(),
                i <= self.nodes@.len(),
                forall|g: int|
                    0 <= g < r@.len() ==> {
                        let rows = #[trigger] r@[g];
                        let ms = hash_members(self.nodes@, rows@[0].hash@);
                        &&& rows@.len() >= 2
                        &&& rows@.len() == ms.len()
                        &&& forall|t: int|
                            0 <= t < ms.len() ==> self.hash_row_ok(#[trigger] rows@[t], ms[t])
                    },
                forall|g1: int, g2: int|
                    #![trigger r@[g1], r@[g2]]
                    0 <= g1 < g2 < r@.len() ==> r@[g1]@[0].hash@ != r@[g2]@[0].hash@,
                forall|k: int|
                    0 <= k < i && !(#[trigger] self.nodes@[k]).is_dir && hash_members(
                        self.nodes@,
                        self.nodes@[k].hash->0@,
                    ).len() >= 2 ==> exists|g: int|
                    0 <= g < r@.len() && (#[trigger] r@[g])@[0].hash@ == self.nodes@[k].hash
                        ->0@,
            decreases self.nodes@.len() - i,
        {
            proof {
                assert(self.nodes@[i as int].wf());
            }
            if !self.nodes[i].is_dir {
                let target: String = match &self.nodes[i].hash {
                    Some(x) => x.clone(),
                    None => unreached(),
                };
                let ghost h = self.nodes@[i as int].hash->0@;
                let mut seen = false;
                let mut g: usize = 0;
                while g < r.len()
                    invariant
                        target@ == h,
                        g <= r@.len(),
                        seen ==> exists|g2: int|
                            0 <= g2 < r@.len() && (#[trigger] r@[g2])@[0].hash@ == h,
                        !seen ==> forall|g2: int| 0 <= g2 < g ==> (#[trigger] r@[g2])@[0].hash@ != h,
                        forall|g2: int| 0 <= g2 < r@.len() ==> (#[trigger] r@[g2])@.len() >= 1,
                    decreases r@.len() - g,
                {
                    let grp = &r[g];
                    let same: bool = grp[0].hash == target;
                    if same {
                        seen = true;
                    }
                    g = g + 1;
                }
                if !seen {
                    let mut rows: Vec<HashEqualFiles> = Vec::new();
                    let mut m: usize = 0;
                    while m < self.nodes.len()
                        invariant
                            self.wf(),
                            target@ == h,
                            m <= self.nodes@.len(),
                            rows@.len() == hash_members_upto(self.nodes@, h, m as int).len(),
                            forall|t: int|
                                0 <= t < rows@.len() ==> self.hash_row_ok(
                                    #[trigger] rows@[t],
                                    hash_members_upto(self.nodes@, h, m as int)[t],
                                ),
                            forall|t: int|
                                0 <= t < rows@.len() ==> (#[trigger] rows@[t]).hash@ == h,
                        decreases self.nodes@.len() - m,
                    {
                        let n = &self.nodes[m];
                        let mut same = false;
                        if !n.is_dir {
                            match &n.hash {
                                Some(x) => {
                                    if *x == target {
                                        same = true;
                                    }
                                },
                                None => {},
                            }
                        }
                        proof {
                            let nn = self.nodes@[m as int];
                            assert(same == (!nn.is_dir && (nn.hash matches Some(x) && x@ == h)));
                        }
                        if same {
                            let row = self.hash_row_of(m);
                            rows.push(row);
                        }
                        m = m + 1;
                    }
                    if rows.len() >= 2 {
                        let ghost r0 = r@;
                        r.push(rows);
                        proof {
                            assert(forall|g2: int|
                                0 <= g2 < r0.len() ==> r@[g2] == #[trigger] r0[g2]);
                            assert(r@[r@.len() - 1]@[0].hash@ == h);
                        }
                    }
                }
                proof {
                    assert forall|k: int|
                        0 <= k < i + 1 && !(#[trigger] self.nodes@[k]).is_dir && hash_members(
                            self.nodes@,
                            self.nodes@[k].hash->0@,
                        ).len() >= 2 implies exists|g2: int|
                        0 <= g2 < r@.len() && (#[trigger] r@[g2])@[0].hash@ == self.nodes@[k].hash
                            ->0@ by {
                        if k < i {
                            let g2 = choose|g2: int|
                                0 <= g2 < r@.len() && (#[trigger] r@[g2])@[0].hash@
                                    == self.nodes@[k].hash->0@;
                        }
                    }
                }
            }
            i = i + 1;
        }
        r
    }
}

} // verus!
