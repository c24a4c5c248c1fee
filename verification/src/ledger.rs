use vstd::prelude::*;
use crate::filters::keep_seq;
use crate::filters::lemma_keep_seq_distinct_by;
use crate::filters::lemma_keep_seq_elements;
use crate::index::OverlayIndex;
use crate::model::FileNode;
use crate::model::InfoBase;
use crate::model::OverlayError;
use crate::model::PackInfo;
use crate::priority::Priority;
use crate::rules::keep_rule_not_pack;

verus! {

/// The predicate keeping every file node not owned by pack `id`.
pub open spec fn keep_node_not_pack(id: u64) -> spec_fn(FileNode) -> bool {
    |n: FileNode| n.pack_id != id
}

/// The identity of a file node, as a key for distinctness arguments.
pub open spec fn node_id_key() -> spec_fn(FileNode) -> u64 {
    |n: FileNode| n.id
}

/// Drop every node of pack `id` from `v`, keeping the order of the rest.
fn retain_nodes_not_pack(v: &mut Vec<FileNode>, id: u64)
    ensures
        final(v)@ == keep_seq(old(v)@, keep_node_not_pack(id)),
{
    let ghost orig = v@;
    let ghost keep = keep_node_not_pack(id);
    let mut rest: Vec<FileNode> = Vec::new();
    core::mem::swap(&mut rest, v);
    let ghost total = rest@.len();
    while rest.len() > 0
        invariant
            keep == keep_node_not_pack(id),
            orig.len() == total,
            rest@.len() <= total,
            rest@ == orig.subrange(total - rest@.len(), total as int),
            v@ == keep_seq(orig.take(total - rest@.len()), keep),
        decreases rest@.len(),
    {
        let ghost done = total - rest@.len();
        let n = rest.remove(0);
        proof {
            assert(n == orig[done]);
            assert(orig.take(done + 1).drop_last() =~= orig.take(done));
            assert(orig.take(done + 1).last() == orig[done]);
            assert(rest@ =~= orig.subrange(total - rest@.len(), total as int));
            assert(keep(n) == (n.pack_id != id));
        }
        if n.pack_id != id {
            v.push(n);
        }
    }
    proof {
        assert(orig.take(total as int) =~= orig);
    }
}

/// `p` with its active flag replaced.
pub open spec fn pack_with_active(p: PackInfo, b: bool) -> PackInfo {
    PackInfo { is_active: b, ..p }
}

/// `p` with its deployment flag replaced.
pub open spec fn pack_with_deployed(p: PackInfo, b: bool) -> PackInfo {
    PackInfo { is_deployed: b, ..p }
}

/// `p` with its priority replaced.
pub open spec fn pack_with_priority(p: PackInfo, pr: Priority) -> PackInfo {
    PackInfo { priority: pr, ..p }
}

/// `p` with its metadata and metadata-update time replaced.
pub open spec fn pack_with_info(p: PackInfo, info: InfoBase, now_ms: i64) -> PackInfo {
    PackInfo {
        name: Some(info.name),
        tags: info.tag,
        description: info.description,
        author: info.author,
        version: info.version,
        meta_updated_at: now_ms,
        ..p
    }
}

/// An index after one pack was replaced by a pack with the same identity
/// and a valid priority is still well formed, and holds the same packs.
pub proof fn lemma_wf_after_pack_update(pre: OverlayIndex, post: OverlayIndex, i: int)
    requires
        pre.wf(),
        0 <= i < pre.packs@.len(),
        post.packs@.len() == pre.packs@.len(),
        forall|k: int| 0 <= k < pre.packs@.len() && k != i ==> post.packs@[k] == pre.packs@[k],
        post.packs@[i].id == pre.packs@[i].id,
        post.packs@[i].priority.wf(),
        post.nodes == pre.nodes,
        post.overrides == pre.overrides,
        post.pack_counter == pre.pack_counter,
        post.node_counter == pre.node_counter,
    ensures
        post.wf(),
        forall|id: u64| post.has_pack(id) == pre.has_pack(id),
        forall|id: u64|
            pre.has_pack(id) ==> #[trigger] post.pack_index_of(id) == pre.pack_index_of(id),
{
    assert(forall|k: int|
        0 <= k < post.packs@.len() ==> (#[trigger] post.packs@[k]).id == pre.packs@[k].id);
    assert forall|id: u64| post.has_pack(id) == pre.has_pack(id) by {
        if pre.has_pack(id) {
            let k = pre.pack_index_of(id);
            assert(post.packs@[k].id == id);
            assert(post.has_pack(id));
        }
        if post.has_pack(id) {
            let k = choose|k: int| 0 <= k < post.packs@.len() && post.packs@[k].id == id;
            assert(pre.packs@[k].id == id);
            assert(pre.has_pack(id));
        }
    }
    assert forall|id: u64|
        pre.has_pack(id) implies #[trigger] post.pack_index_of(id) == pre.pack_index_of(id) by {
        let k = pre.pack_index_of(id);
        assert(post.packs@[k].id == id);
        post.lemma_pack_index_choose(k);
        pre.lemma_pack_index_choose(k);
    }
}

impl OverlayIndex {
    /// `pack_index_of` picks the position `k` when position `k` holds `id`,
    /// given only that pack identities are pairwise distinct.
    pub proof fn lemma_pack_index_choose(self, k: int)
        requires
            forall|i: int, j: int|
                #![trigger self.packs@[i].id, self.packs@[j].id]
                0 <= i < j < self.packs@.len() ==> self.packs@[i].id != self.packs@[j].id,
            0 <= k < self.packs@.len(),
        ensures
            self.pack_index_of(self.packs@[k].id) == k,
    {
        let id = self.packs@[k].id;
        assert(self.has_pack(id));
        let i = self.pack_index_of(id);
        if i != k {
            if i < k {
                assert(self.packs@[i].id != self.packs@[k].id);
            } else {
                assert(self.packs@[k].id != self.packs@[i].id);
            }
        }
    }

    /// Switch a pack's participation in resolution on or off.
    pub fn set_pack_active(&mut self, id: u64, active: bool) -> (r: Result<(), OverlayError>)
        requires
            old(self).wf(),
        ensures
            final(self).wf(),
            r is Ok <==> old(self).has_pack(id),
            r is Err ==> *final(self) == *old(self) && r == Err::<(), OverlayError>(
                OverlayError::PackNotFound,
            ),
            r is Ok ==> final(self).packs@ == old(self).packs@.update(
                old(self).pack_index_of(id),
                pack_with_active(old(self).pack_of(id), active),
            ),
            final(self).nodes == old(self).nodes,
            final(self).overrides == old(self).overrides,
            final(self).pack_counter == old(self).pack_counter,
            final(self).node_counter == old(self).node_counter,
    {
        match self.find_pack(id) {
            None => Err(OverlayError::PackNotFound),
            Some(i) => {
                self.packs[i].is_active = active;
                proof {
                    lemma_wf_after_pack_update(*old(self), *self, i as int);
                    assert(self.packs@ =~= old(self).packs@.update(
                        old(self).pack_index_of(id),
                        pack_with_active(old(self).pack_of(id), active),
                    ));
                }
                Ok(())
            },
        }
    }

    /// Switch a pack's deployment mark on or off.
    pub fn set_pack_deployed(&mut self, id: u64, deployed: bool) -> (r: Result<(), OverlayError>)
        requires
            old(self).wf(),
        ensures
            final(self).wf(),
            r is Ok <==> old(self).has_pack(id),
            r is Err ==> *final(self) == *old(self) && r == Err::<(), OverlayError>(
                OverlayError::PackNotFound,
            ),
            r is Ok ==> final(self).packs@ == old(self).packs@.update(
                old(self).pack_index_of(id),
                pack_with_deployed(old(self).pack_of(id), deployed),
            ),
            final(self).nodes == old(self).nodes,
            final(self).overrides == old(self).overrides,
            final(self).pack_counter == old(self).pack_counter,
            final(self).node_counter == old(self).node_counter,
    {
        match self.find_pack(id) {
            None => Err(OverlayError::PackNotFound),
            Some(i) => {
                self.packs[i].is_deployed = deployed;
                proof {
                    lemma_wf_after_pack_update(*old(self), *self, i as int);
                    assert(self.packs@ =~= old(self).packs@.update(
                        old(self).pack_index_of(id),
                        pack_with_deployed(old(self).pack_of(id), deployed),
                    ));
                }
                Ok(())
            },
        }
    }

    /// Set a pack's priority to an arbitrary valid value.
    pub fn set_pack_priority(&mut self, id: u64, priority: Priority) -> (r: Result<
        (),
        OverlayError,
    >)
        requires
            old(self).wf(),
            priority.wf(),
        ensures
            final(self).wf(),
            r is Ok <==> old(self).has_pack(id),
            r is Err ==> *final(self) == *old(self) && r == Err::<(), OverlayError>(
                OverlayError::PackNotFound,
            ),
            r is Ok ==> final(self).packs@ == old(self).packs@.update(
                old(self).pack_index_of(id),
                pack_with_priority(old(self).pack_of(id), priority),
            ),
            final(self).nodes == old(self).nodes,
            final(self).overrides == old(self).overrides,
            final(self).pack_counter == old(self).pack_counter,
            final(self).node_counter == old(self).node_counter,
    {
        match self.find_pack(id) {
            None => Err(OverlayError::PackNotFound),
            Some(i) => {
                self.packs[i].priority = priority;
                proof {
                    lemma_wf_after_pack_update(*old(self), *self, i as int);
                    assert(self.packs@ =~= old(self).packs@.update(
                        old(self).pack_index_of(id),
                        pack_with_priority(old(self).pack_of(id), priority),
                    ));
                }
                Ok(())
            },
        }
    }

    /// Replace a pack's metadata and stamp the update time.
    pub fn set_pack_info(&mut self, id: u64, info: InfoBase, now_ms: i64) -> (r: Result<
        (),
        OverlayError,
    >)
        requires
            old(self).wf(),
        ensures
            final(self).wf(),
            r is Ok <==> old(self).has_pack(id),
            r is Err ==> *final(self) == *old(self) && r == Err::<(), OverlayError>(
                OverlayError::PackNotFound,
            ),
            r is Ok ==> final(self).packs@ == old(self).packs@.update(
                old(self).pack_index_of(id),
                pack_with_info(old(self).pack_of(id), info, now_ms),
            ),
            final(self).nodes == old(self).nodes,
            final(self).overrides == old(self).overrides,
            final(self).pack_counter == old(self).pack_counter,
            final(self).node_counter == old(self).node_counter,
    {
        match self.find_pack(id) {
            None => Err(OverlayError::PackNotFound),
            Some(i) => {
                let InfoBase { id: _, name, tag, description, author, version } = info;
                self.packs[i].name = Some(name);
                self.packs[i].tags = tag;
                self.packs[i].description = description;
                self.packs[i].author = author;
                self.packs[i].version = version;
                self.packs[i].meta_updated_at = now_ms;
                proof {
                    lemma_wf_after_pack_update(*old(self), *self, i as int);
                    assert(self.packs@ =~= old(self).packs@.update(
                        old(self).pack_index_of(id),
                        pack_with_info(old(self).pack_of(id), info, now_ms),
                    ));
                }
                Ok(())
            },
        }
    }

    /// Remove a pack. The removal cascades: every file node of the pack and
    /// every override rule referencing the pack are removed with it.
    pub fn remove_pack(&mut self, id: u64) -> (r: Result<(), OverlayError>)
        requires
            old(self).wf(),
        ensures
            final(self).wf(),
            r is Ok <==> old(self).has_pack(id),
            r is Err ==> *final(self) == *old(self) && r == Err::<(), OverlayError>(
                OverlayError::PackNotFound,
            ),
            r is Ok ==> final(self).packs@ == old(self).packs@.remove(
                old(self).pack_index_of(id),
            ),
            r is Ok ==> final(self).nodes@ == keep_seq(old(self).nodes@, keep_node_not_pack(id)),
            r is Ok ==> final(self).overrides@ == keep_seq(
                old(self).overrides@,
                keep_rule_not_pack(id),
            ),
            r is Ok ==> !final(self).has_pack(id),
            r is Ok ==> forall|k: int|
                0 <= k < final(self).nodes@.len() ==> (#[trigger] final(self).nodes@[k]).pack_id
                    != id,
            r is Ok ==> forall|k: int|
                0 <= k < final(self).overrides@.len() ==> (
                #[trigger] final(self).overrides@[k]).pack_id != id,
            r is Ok ==> forall|n: FileNode|
                old(self).nodes@.contains(n) && n.pack_id != id ==> final(self).nodes@.contains(n),
            final(self).pack_counter == old(self).pack_counter,
            final(self).node_counter == old(self).node_counter,
    {
        let i = match self.find_pack(id) {
            None => {
                return Err(OverlayError::PackNotFound);
            },
            Some(i) => i,
        };
        self.packs.remove(i);
        retain_nodes_not_pack(&mut self.nodes, id);
        proof {
            let pre = *old(self);
            let post = *self;
            let keep = keep_node_not_pack(id);
            let key = node_id_key();
            assert forall|a: int, b: int|
                #![trigger post.packs@[a].id, post.packs@[b].id]
                0 <= a < b < post.packs@.len() implies post.packs@[a].id != post.packs@[b].id by {
                let a0: int = if a < i { a } else { a + 1 };
                let b0: int = if b < i { b } else { b + 1 };
                assert(post.packs@[a] == pre.packs@[a0]);
                assert(post.packs@[b] == pre.packs@[b0]);
                assert(pre.packs@[a0].id != pre.packs@[b0].id);
            }
            assert forall|k: int|
                0 <= k < post.packs@.len() implies (#[trigger] post.packs@[k]).priority.wf() by {
                let k0: int = if k < i { k } else { k + 1 };
                assert(post.packs@[k] == pre.packs@[k0]);
                assert(pre.packs@[k0].priority.wf());
            }
            lemma_keep_seq_elements(pre.nodes@, keep);
            lemma_keep_seq_distinct_by(pre.nodes@, keep, key);
            let f = keep_seq(pre.nodes@, keep);
            assert forall|i2: int, j2: int|
                #![trigger key(pre.nodes@[i2]), key(pre.nodes@[j2])]
                0 <= i2 < j2 < pre.nodes@.len() implies key(pre.nodes@[i2]) != key(
                pre.nodes@[j2]) by {
                assert(pre.nodes@[i2].id != pre.nodes@[j2].id);
            }
            assert forall|a: int, b: int|
                #![trigger post.nodes@[a].id, post.nodes@[b].id]
                0 <= a < b < post.nodes@.len() implies post.nodes@[a].id != post.nodes@[b].id by {
                assert(key(f[a]) != key(f[b]));
            }
            assert forall|k: int| 0 <= k < post.nodes@.len() implies (
            #[trigger] post.nodes@[k]).wf() && post.nodes@[k].id < post.node_counter
                && post.nodes@[k].pack_id != id by {
                let k0 = choose|k0: int| 0 <= k0 < pre.nodes@.len() && f[k] == pre.nodes@[k0];
                assert(pre.nodes@[k0].wf());
                assert(pre.nodes@[k0].id < pre.node_counter);
            }
            assert forall|k: int|
                0 <= k < post.nodes@.len() implies post.has_pack(
                (#[trigger] post.nodes@[k]).pack_id) by {
                let pid = post.nodes@[k].pack_id;
                assert(pre.has_pack(pid));
                let w = choose|w: int| 0 <= w < pre.packs@.len() && pre.packs@[w].id == pid;
                assert(pre.packs@[i as int].id == id);
                assert(pid != id);
                if w < i {
                    assert(post.packs@[w].id == pid);
                } else {
                    assert(post.packs@[w - 1] == pre.packs@[w]);
                }
            }
            assert forall|k: int|
                0 <= k < post.nodes@.len() && post.nodes@[k].parent_id is Some implies exists|
            j: int|
                0 <= j < post.nodes@.len()
                && post.nodes@[j].id == post.nodes@[k].parent_id->0
                && post.nodes@[j].pack_id == post.nodes@[k].pack_id
                && #[trigger] post.nodes@[j].path_view()
                    == post.nodes@[k].path_view().drop_last() by {
                let k0 = choose|k0: int| 0 <= k0 < pre.nodes@.len() && f[k] == pre.nodes@[k0];
                assert(pre.nodes@[k0].parent_id is Some);
                let j0 = choose|j0: int|
                    0 <= j0 < pre.nodes@.len()
                    && pre.nodes@[j0].id == pre.nodes@[k0].parent_id->0
                    && pre.nodes@[j0].pack_id == pre.nodes@[k0].pack_id
                    && #[trigger] pre.nodes@[j0].path_view()
                        == pre.nodes@[k0].path_view().drop_last();
                assert(keep(pre.nodes@[j0]));
                assert(f.contains(pre.nodes@[j0]));
                let j = choose|j: int| 0 <= j < f.len() && f[j] == pre.nodes@[j0];
                assert(post.nodes@[j].id == post.nodes@[k].parent_id->0);
                assert(post.nodes@[j].path_view() == post.nodes@[k].path_view().drop_last());
            }
            assert(!post.has_pack(id)) by {
                if post.has_pack(id) {
                    let w = choose|w: int| 0 <= w < post.packs@.len() && post.packs@[w].id == id;
                    let w0: int = if w < i { w } else { w + 1 };
                    assert(pre.packs@[w0].id == id);
                    pre.lemma_pack_index(w0);
                    pre.lemma_pack_index(i as int);
                }
            }
        }
        self.remove_cover_rule_by_pack_id(id);
        proof {
            let pre = *old(self);
            lemma_keep_seq_elements(pre.overrides@, keep_rule_not_pack(id));
        }
        Ok(())
    }
}

} // verus!
