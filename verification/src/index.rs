use vstd::prelude::*;
use crate::model::FileNode;
use crate::model::InfoBase;
use crate::model::OverlayError;
use crate::model::OverrideRule;
use crate::model::PackInfo;
use crate::model::segs_view;
use crate::priority::Priority;

verus! {

/// Compare two segment lists for equality.
pub fn segs_eq(a: &Vec<String>, b: &Vec<String>) -> (r: bool)
    ensures
        r == (segs_view(a@) == segs_view(b@)),
{
    if a.len() != b.len() {
        proof {
            assert(segs_view(a@).len() != segs_view(b@).len());
        }
        return false;
    }
    let mut i: usize = 0;
    while i < a.len()
        invariant
            i <= a@.len(),
            a@.len() == b@.len(),
            forall|k: int| 0 <= k < i ==> a@[k]@ == b@[k]@,
        decreases a@.len() - i,
    {
        let same: bool = a[i] == b[i];
        if !same {
            proof {
                assert(segs_view(a@)[i as int] == a@[i as int]@);
                assert(segs_view(b@)[i as int] == b@[i as int]@);
            }
            return false;
        }
        i = i + 1;
    }
    proof {
        assert(segs_view(a@) =~= segs_view(b@));
    }
    true
}

/// The single mutable state of the system: every pack, every file node,
/// every override rule, and the counters that mint fresh identities and
/// append priorities.
#[derive(Debug)]
pub struct OverlayIndex {
    /// All packs, in insertion order.
    pub packs: Vec<PackInfo>,
    /// All file nodes of all packs.
    pub nodes: Vec<FileNode>,
    /// All override rules; at most one per relative path.
    pub overrides: Vec<OverrideRule>,
    /// Priority for the next appended pack; never decreased, not reset
    /// by compaction.
    pub pack_counter: i64,
    /// Identity for the next created file node.
    pub node_counter: u64,
}

impl OverlayIndex {
    /// Some pack carries the identity `id`.
    pub open spec fn has_pack(self, id: u64) -> bool {
        exists|i: int| 0 <= i < self.packs@.len() && self.packs@[i].id == id
    }

    /// The position of the pack with identity `id`.
    pub open spec fn pack_index_of(self, id: u64) -> int {
        choose|i: int| 0 <= i < self.packs@.len() && self.packs@[i].id == id
    }

    /// The pack with identity `id`.
    pub open spec fn pack_of(self, id: u64) -> PackInfo {
        self.packs@[self.pack_index_of(id)]
    }

    /// Some node carries the identity `id`.
    pub open spec fn has_node(self, id: u64) -> bool {
        exists|i: int| 0 <= i < self.nodes@.len() && self.nodes@[i].id == id
    }

    /// The position of the node with identity `id`.
    pub open spec fn node_index_of(self, id: u64) -> int {
        choose|i: int| 0 <= i < self.nodes@.len() && self.nodes@[i].id == id
    }

    /// Some override rule pins the path `path`.
    pub open spec fn has_override(self, path: Seq<Seq<char>>) -> bool {
        exists|i: int| 0 <= i < self.overrides@.len() && self.overrides@[i].path_view() == path
    }

    /// The position of the override rule for `path`.
    pub open spec fn override_index_of(self, path: Seq<Seq<char>>) -> int {
        choose|i: int| 0 <= i < self.overrides@.len() && self.overrides@[i].path_view() == path
    }

    /// The override rule for `path`.
    pub open spec fn override_at(self, path: Seq<Seq<char>>) -> OverrideRule {
        self.overrides@[self.override_index_of(path)]
    }

    /// Every node's parent link points at a node of the same pack whose
    /// segment sequence is the child's without its last element.
    pub open spec fn parents_linked(self) -> bool {
        forall|i: int|
            0 <= i < self.nodes@.len() && self.nodes@[i].parent_id is Some
                ==> exists|j: int|
                    0 <= j < self.nodes@.len()
                    && self.nodes@[j].id == self.nodes@[i].parent_id->0
                    && self.nodes@[j].pack_id == self.nodes@[i].pack_id
                    && #[trigger] self.nodes@[j].path_view()
                        == self.nodes@[i].path_view().drop_last()
    }

    /// Well-formedness of the whole index.
    pub open spec fn wf(self) -> bool {
        &&& forall|i: int, j: int|
            #![trigger self.packs@[i].id, self.packs@[j].id]
            0 <= i < j < self.packs@.len() ==> self.packs@[i].id != self.packs@[j].id
        &&& forall|i: int| 0 <= i < self.packs@.len() ==> (#[trigger] self.packs@[i]).priority.wf()
        &&& forall|i: int, j: int|
            #![trigger self.nodes@[i].id, self.nodes@[j].id]
            0 <= i < j < self.nodes@.len() ==> self.nodes@[i].id != self.nodes@[j].id
        &&& forall|i: int| 0 <= i < self.nodes@.len() ==> (#[trigger] self.nodes@[i]).wf()
        &&& forall|i: int|
            0 <= i < self.nodes@.len() ==> self.has_pack((#[trigger] self.nodes@[i]).pack_id)
        &&& forall|i: int|
            0 <= i < self.nodes@.len() ==> (#[trigger] self.nodes@[i]).id < self.node_counter
        &&& forall|i: int, j: int|
            #![trigger self.overrides@[i].path_view(), self.overrides@[j].path_view()]
            0 <= i < j < self.overrides@.len()
                ==> self.overrides@[i].path_view() != self.overrides@[j].path_view()
        &&& self.parents_linked()
        &&& self.pack_counter >= self.packs@.len() + 1
    }

    /// An empty index.
    pub fn new() -> (r: OverlayIndex)
        ensures
            r.wf(),
            r.packs@.len() == 0,
            r.nodes@.len() == 0,
            r.overrides@.len() == 0,
            r.pack_counter == 1,
            r.node_counter == 0,
    {
        OverlayIndex {
            packs: Vec::new(),
            nodes: Vec::new(),
            overrides: Vec::new(),
            pack_counter: 1,
            node_counter: 0,
        }
    }

    /// Any position holding the identity `id` is the position `pack_index_of` names.
    pub proof fn lemma_pack_index(self, k: int)
        requires
            self.wf(),
            0 <= k < self.packs@.len(),
        ensures
            self.pack_index_of(self.packs@[k].id) == k,
            self.pack_of(self.packs@[k].id) == self.packs@[k],
    {
        let id = self.packs@[k].id;
        assert(self.has_pack(id));
        let i = self.pack_index_of(id);
        if i != k {
            if i < k {
                assert(self.packs@[i].id != self.packs@[k].id);
            } else {
                assert(self.packs@[k].id != self.packs@[i].id);
            }
        }
    }

    /// Any position holding the identity `id` is the position `node_index_of` names.
    pub proof fn lemma_node_index(self, k: int)
        requires
            self.wf(),
            0 <= k < self.nodes@.len(),
        ensures
            self.node_index_of(self.nodes@[k].id) == k,
    {
        let id = self.nodes@[k].id;
        assert(self.has_node(id));
        let i = self.node_index_of(id);
        if i != k {
            if i < k {
                assert(self.nodes@[i].id != self.nodes@[k].id);
            } else {
                assert(self.nodes@[k].id != self.nodes@[i].id);
            }
        }
    }

    /// Any position holding a rule for `path` is the position `override_index_of` names.
    pub proof fn lemma_override_index(self, k: int)
        requires
            self.wf(),
            0 <= k < self.overrides@.len(),
        ensures
            self.override_index_of(self.overrides@[k].path_view()) == k,
            self.override_at(self.overrides@[k].path_view()) == self.overrides@[k],
    {
        let p = self.overrides@[k].path_view();
        assert(self.has_override(p));
        let i = self.override_index_of(p);
        if i != k {
            if i < k {
                assert(self.overrides@[i].path_view() != self.overrides@[k].path_view());
            } else {
                assert(self.overrides@[k].path_view() != self.overrides@[i].path_view());
            }
        }
    }

    /// Find the position of the pack with identity `id`.
    pub fn find_pack(&self, id: u64) -> (r: Option<usize>)
        requires
            self.wf(),
        ensures
            r is Some <==> self.has_pack(id),
            r is Some ==> {
                let i = r->0;
                &&& i < self.packs@.len()
                &&& self.packs@[i as int].id == id
                &&& self.pack_index_of(id) == i as int
            },
    {
        let mut i: usize = 0;
        while i < self.packs.len()
            invariant
                self.wf(),
                i <= self.packs@.len(),
                forall|k: int| 0 <= k < i ==> (#[trigger] self.packs@[k]).id != id,
            decreases self.packs@.len() - i,
        {
            if self.packs[i].id == id {
                proof {
                    self.lemma_pack_index(i as int);
                }
                return Some(i);
            }
            i = i + 1;
        }
        None
    }

    /// Find the position of the node with identity `id`.
    pub fn find_node(&self, id: u64) -> (r: Option<usize>)
        requires
            self.wf(),
        ensures
            r is Some <==> self.has_node(id),
            r is Some ==> {
                let i = r->0;
                &&& i < self.nodes@.len()
                &&& self.nodes@[i as int].id == id
                &&& self.node_index_of(id) == i as int
            },
    {
        let mut i: usize = 0;
        while i < self.nodes.len()
            invariant
                self.wf(),
                i <= self.nodes@.len(),
                forall|k: int| 0 <= k < i ==> (#[trigger] self.nodes@[k]).id != id,
            decreases self.nodes@.len() - i,
        {
            if self.nodes[i].id == id {
                proof {
                    self.lemma_node_index(i as int);
                }
                return Some(i);
            }
            i = i + 1;
        }
        None
    }

    /// Find the position of the override rule pinning `path`.
    pub fn find_override(&self, path: &Vec<String>) -> (r: Option<usize>)
        requires
            self.wf(),
        ensures
            r is Some <==> self.has_override(segs_view(path@)),
            r is Some ==> {
                let i = r->0;
                &&& i < self.overrides@.len()
                &&& self.overrides@[i as int].path_view() == segs_view(path@)
                &&& self.override_index_of(segs_view(path@)) == i as int
            },
    {
        let mut i: usize = 0;
        while i < self.overrides.len()
            invariant
                self.wf(),
                i <= self.overrides@.len(),
                forall|k: int|
                    0 <= k < i ==> (#[trigger] self.overrides@[k]).path_view() != segs_view(path@),
            decreases self.overrides@.len() - i,
        {
            if segs_eq(&self.overrides[i].path, path) {
                proof {
                    self.lemma_override_index(i as int);
                }
                return Some(i);
            }
            i = i + 1;
        }
        None
    }
}

} // verus!
