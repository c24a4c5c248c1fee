use vstd::prelude::*;
use crate::index::OverlayIndex;
use crate::index::segs_eq;
use crate::model::FileOverTree;
use crate::model::segs_view;
use crate::priority::Priority;
use crate::priority::lemma_priority_lt_trans;
use crate::priority::lemma_priority_same_value_lt;
use crate::priority::lemma_priority_trichotomy;

verus! {

/// Copy a segment list.
pub fn clone_segs(v: &Vec<String>) -> (r: Vec<String>)
    ensures
        r@ == v@,
{
    let mut r: Vec<String> = Vec::new();
    let mut i: usize = 0;
    while i < v.len()
        invariant
            i <= v@.len(),
            r@.len() == i,
            forall|k: int| 0 <= k < i ==> r@[k] == v@[k],
        decreases v@.len() - i,
    {
        let s = v[i].clone();
        r.push(s);
        i = i + 1;
    }
    proof {
        assert(r@ =~= v@);
    }
    r
}

impl OverlayIndex {
    /// Node `i` sits at `path`.
    pub open spec fn is_candidate(self, path: Seq<Seq<char>>, i: int) -> bool {
        0 <= i < self.nodes@.len() && self.nodes@[i].path_view() == path
    }

    /// Node `i` sits at `path`, is active itself, and belongs to an active
    /// pack: it takes part in priority resolution.
    pub open spec fn is_active_candidate(self, path: Seq<Seq<char>>, i: int) -> bool {
        &&& self.is_candidate(path, i)
        &&& self.nodes@[i].is_active
        &&& self.has_pack(self.nodes@[i].pack_id)
        &&& self.pack_of(self.nodes@[i].pack_id).is_active
    }

    /// The priority of the pack owning node `i`.
    pub open spec fn node_priority(self, i: int) -> Priority {
        self.pack_of(self.nodes@[i].pack_id).priority
    }

    /// Node `i` dominates node `j`: its pack's priority is strictly larger,
    /// or the priorities are equal in value and `i` has the smaller (older)
    /// identity.
    pub open spec fn node_beats(self, i: int, j: int) -> bool {
        ||| Priority::spec_lt(self.node_priority(j), self.node_priority(i))
        ||| (Priority::same_value(self.node_priority(i), self.node_priority(j))
            && self.nodes@[i].id < self.nodes@[j].id)
    }

    /// Node `i` wins `path` by priority: it is an active candidate and
    /// dominates every other active candidate.
    pub open spec fn is_priority_winner(self, path: Seq<Seq<char>>, i: int) -> bool {
        &&& self.is_active_candidate(path, i)
        &&& forall|j: int|
            self.is_active_candidate(path, j) && j != i ==> self.node_beats(i, j)
    }

    /// Node `i` wins `path`: when the path is pinned, `i` is the pinned
    /// file, still present at that path in the pinned pack, and the pack is
    /// active; otherwise `i` is the priority winner. A pinned path whose pin
    /// is stale has no winner at all.
    pub open spec fn is_winner(self, path: Seq<Seq<char>>, i: int) -> bool {
        if self.has_override(path) {
            let r = self.override_at(path);
            &&& 0 <= i < self.nodes@.len()
            &&& self.nodes@[i].id == r.file_id
            &&& self.nodes@[i].pack_id == r.pack_id
            &&& self.nodes@[i].path_view() == path
            &&& self.has_pack(r.pack_id)
            &&& self.pack_of(r.pack_id).is_active
        } else {
            self.is_priority_winner(path, i)
        }
    }

    /// Some node wins `path`.
    pub open spec fn has_winner(self, path: Seq<Seq<char>>) -> bool {
        exists|i: int| self.is_winner(path, i)
    }

    /// The position of the winning node at `path`.
    pub open spec fn winner_index(self, path: Seq<Seq<char>>) -> int {
        choose|i: int| self.is_winner(path, i)
    }

    /// Domination is transitive.
    pub proof fn lemma_beats_trans(self, a: int, b: int, c: int)
        requires
            self.wf(),
            0 <= a < self.nodes@.len(),
            0 <= b < self.nodes@.len(),
            0 <= c < self.nodes@.len(),
            self.has_pack(self.nodes@[a].pack_id),
            self.has_pack(self.nodes@[b].pack_id),
            self.has_pack(self.nodes@[c].pack_id),
            self.node_beats(a, b),
            self.node_beats(b, c),
        ensures
            self.node_beats(a, c),
    {
        let pa = self.node_priority(a);
        let pb = self.node_priority(b);
        let pc = self.node_priority(c);
        assert(pa.wf() && pb.wf() && pc.wf());
        if Priority::spec_lt(pb, pa) && Priority::spec_lt(pc, pb) {
            lemma_priority_lt_trans(pc, pb, pa);
        } else if Priority::spec_lt(pb, pa) {
            lemma_priority_same_value_lt(pb, pc, pa);
        } else if Priority::spec_lt(pc, pb) {
            lemma_priority_same_value_lt(pa, pb, pc);
        } else {
            lemma_priority_same_value_lt(pa, pb, pc);
        }
    }

    /// Two distinct nodes never dominate each other both ways, and one of
    /// them always dominates the other.
    pub proof fn lemma_beats_total(self, a: int, b: int)
        requires
            self.wf(),
            0 <= a < self.nodes@.len(),
            0 <= b < self.nodes@.len(),
            a != b,
            self.has_pack(self.nodes@[a].pack_id),
            self.has_pack(self.nodes@[b].pack_id),
        ensures
            self.node_beats(a, b) || self.node_beats(b, a),
            !(self.node_beats(a, b) && self.node_beats(b, a)),
    {
        let pa = self.node_priority(a);
        let pb = self.node_priority(b);
        lemma_priority_trichotomy(pa, pb);
        assert(self.nodes@[a].id != self.nodes@[b].id) by {
            if a < b {
                assert(self.nodes@[a].id != self.nodes@[b].id);
            } else {
                assert(self.nodes@[b].id != self.nodes@[a].id);
            }
        }
    }

    /// At most one node wins any path.
    pub proof fn lemma_winner_unique(self, path: Seq<Seq<char>>, i: int, j: int)
        requires
            self.wf(),
            self.is_winner(path, i),
            self.is_winner(path, j),
        ensures
            i == j,
    {
        if self.has_override(path) {
            if i != j {
                if i < j {
                    assert(self.nodes@[i].id != self.nodes@[j].id);
                } else {
                    assert(self.nodes@[j].id != self.nodes@[i].id);
                }
            }
        } else {
            if i != j {
                assert(self.node_beats(i, j));
                assert(self.node_beats(j, i));
                self.lemma_beats_total(i, j);
            }
        }
    }

    /// Resolve one relative path to its winning node, or to `None` when no
    /// node wins it.
    pub fn resolve_path(&self, path: &Vec<String>) -> (r: Option<FileOverTree>)
        requires
            self.wf(),
        ensures
            r is Some <==> self.has_winner(segs_view(path@)),
            r matches Some(row) ==> self.is_winner(segs_view(path@), self.winner_index(segs_view(path@)))
                && row.matches_node(self.nodes@[self.winner_index(segs_view(path@))]),
    {
        let ghost pathv = segs_view(path@);
        match self.find_override(path) {
            Some(oi) => {
                let rule_file = self.overrides[oi].file_id;
                let rule_pack = self.overrides[oi].pack_id;
                proof {
                    assert(self.override_at(pathv) == self.overrides@[oi as int]);
                }
                match self.find_node(rule_file) {
                    None => {
                        proof {
                            assert forall|i: int| !self.is_winner(pathv, i) by {
                                if 0 <= i < self.nodes@.len() && self.nodes@[i].id == rule_file {
                                    assert(self.has_node(rule_file));
                                }
                            }
                        }
                        None
                    },
                    Some(k) => {
                        let n = &self.nodes[k];
                        let path_ok = segs_eq(&n.path_segments, path);
                        if n.pack_id != rule_pack || !path_ok {
                            proof {
                                assert forall|i: int| !self.is_winner(pathv, i) by {
                                    if 0 <= i < self.nodes@.len() && self.nodes@[i].id
                                        == rule_file {
                                        self.lemma_node_index(i);
                                    }
                                }
                            }
                            None
                        } else {
                            match self.find_pack(rule_pack) {
                                None => {
                                    proof {
                                        assert forall|i: int| !self.is_winner(pathv, i) by {}
                                    }
                                    None
                                },
                                Some(pi) => {
                                    if self.packs[pi].is_active {
                                        let row = FileOverTree {
                                            file_id: n.id,
                                            pack_id: n.pack_id,
                                            parent_id: n.parent_id,
                                            path_segments: clone_segs(&n.path_segments),
                                            is_dir: n.is_dir,
                                            is_active: n.is_active,
                                            is_deployed: n.is_deployed,
                                        };
                                        proof {
                                            assert(self.is_winner(pathv, k as int));
                                            self.lemma_winner_unique(
                                                pathv,
                                                k as int,
                                                self.winner_index(pathv),
                                            );
                                        }
                                        Some(row)
                                    } else {
                                        proof {
                                            assert forall|i: int| !self.is_winner(pathv, i) by {}
                                        }
                                        None
                                    }
                                },
                            }
                        }
                    },
                }
            },
            None => {
                let mut best: Option<usize> = None;
                let mut k: usize = 0;
                while k < self.nodes.len()
                    invariant
                        self.wf(),
                        !self.has_override(pathv),
                        pathv == segs_view(path@),
                        k <= self.nodes@.len(),
                        best is None ==> forall|m: int|
                            0 <= m < k ==> !self.is_active_candidate(pathv, m),
                        best matches Some(b) ==> b < k && self.is_active_candidate(
                            pathv,
                            b as int,
                        ) && forall|m: int|
                            0 <= m < k && self.is_active_candidate(pathv, m) && m != b as int
                                ==> self.node_beats(b as int, m),
                    decreases self.nodes@.len() - k,
                {
                    let n = &self.nodes[k];
                    let mut candidate = n.is_active && segs_eq(&n.path_segments, path);
                    let mut n_prio = Priority { num: 0, den: 1 };
                    if candidate {
                        match self.find_pack(n.pack_id) {
                            None => {
                                candidate = false;
                            },
                            Some(pi) => {
                                if self.packs[pi].is_active {
                                    n_prio = self.packs[pi].priority;
                                } else {
                                    candidate = false;
                                }
                            },
                        }
                    }
                    proof {
                        assert(candidate == self.is_active_candidate(pathv, k as int));
                        if candidate {
                            assert(n_prio == self.node_priority(k as int));
                        }
                    }
                    if candidate {
                        match best {
                            None => {
                                best = Some(k);
                            },
                            Some(b) => {
                                let bn = &self.nodes[b];
                                let b_prio = match self.find_pack(bn.pack_id) {
                                    Some(bpi) => self.packs[bpi].priority,
                                    None => Priority { num: 0, den: 1 },
                                };
                                proof {
                                    assert(b_prio == self.node_priority(b as int));
                                }
                                let new_wins: bool = Priority::lt(&b_prio, &n_prio) || (
                                Priority::eq_value(&n_prio, &b_prio) && n.id < bn.id);
                                proof {
                                    assert(new_wins == self.node_beats(k as int, b as int));
                                }
                                if new_wins {
                                    proof {
                                        assert forall|m: int|
                                            0 <= m < k + 1 && self.is_active_candidate(pathv, m)
                                                && m != k as int implies self.node_beats(
                                            k as int,
                                            m,
                                        ) by {
                                            if m != b as int {
                                                self.lemma_beats_trans(k as int, b as int, m);
                                            }
                                        }
                                    }
                                    best = Some(k);
                                } else {
                                    proof {
                                        self.lemma_beats_total(b as int, k as int);
                                        assert(self.node_beats(b as int, k as int));
                                    }
                                }
                            },
                        }
                    }
                    k = k + 1;
                }
                match best {
                    None => {
                        proof {
                            assert forall|i: int| !self.is_winner(pathv, i) by {
                                assert(!self.is_active_candidate(pathv, i));
                            }
                        }
                        None
                    },
                    Some(b) => {
                        let n = &self.nodes[b];
                        let row = FileOverTree {
                            file_id: n.id,
                            pack_id: n.pack_id,
                            parent_id: n.parent_id,
                            path_segments: clone_segs(&n.path_segments),
                            is_dir: n.is_dir,
                            is_active: n.is_active,
                            is_deployed: n.is_deployed,
                        };
                        proof {
                            assert(self.is_priority_winner(pathv, b as int));
                            assert(self.is_winner(pathv, b as int));
                            self.lemma_winner_unique(pathv, b as int, self.winner_index(pathv));
                        }
                        Some(row)
                    },
                }
            },
        }
    }
}

} // verus!
