use vstd::prelude::*;
use crate::filters::keep_seq;
use crate::filters::lemma_keep_seq_distinct_by;
use crate::index::OverlayIndex;
use crate::model::FileNode;
use crate::model::OverlayError;
use crate::model::OverrideRule;
use crate::model::segs_view;

verus! {

/// `n` with its active flag replaced.
pub open spec fn node_with_active(n: FileNode, b: bool) -> FileNode {
    FileNode { is_active: b, ..n }
}

/// `n` with its deployment flag replaced.
pub open spec fn node_with_deployed(n: FileNode, b: bool) -> FileNode {
    FileNode { is_deployed: b, ..n }
}

/// The predicate keeping every override rule not owned by pack `id`.
pub open spec fn keep_rule_not_pack(id: u64) -> spec_fn(OverrideRule) -> bool {
    |r: OverrideRule| r.pack_id != id
}

/// The path of an override rule, as a key for distinctness arguments.
pub open spec fn rule_path_key() -> spec_fn(OverrideRule) -> Seq<Seq<char>> {
    |r: OverrideRule| r.path_view()
}

/// An index after one node was replaced by a node that differs at most in
/// its two flags is still well formed.
pub proof fn lemma_wf_after_node_update(pre: OverlayIndex, post: OverlayIndex, i: int)
    requires
        pre.wf(),
        0 <= i < pre.nodes@.len(),
        post.nodes@.len() == pre.nodes@.len(),
        forall|k: int| 0 <= k < pre.nodes@.len() && k != i ==> post.nodes@[k] == pre.nodes@[k],
        post.nodes@[i].id == pre.nodes@[i].id,
        post.nodes@[i].pack_id == pre.nodes@[i].pack_id,
        post.nodes@[i].parent_id == pre.nodes@[i].parent_id,
        post.nodes@[i].name == pre.nodes@[i].name,
        post.nodes@[i].path_segments == pre.nodes@[i].path_segments,
        post.nodes@[i].is_dir == pre.nodes@[i].is_dir,
        post.nodes@[i].hash == pre.nodes@[i].hash,
        post.nodes@[i].size == pre.nodes@[i].size,
        post.packs == pre.packs,
        post.overrides == pre.overrides,
        post.pack_counter == pre.pack_counter,
        post.node_counter == pre.node_counter,
    ensures
        post.wf(),
{
    assert(forall|k: int|
        0 <= k < post.nodes@.len() ==> (#[trigger] post.nodes@[k]).id == pre.nodes@[k].id
            && post.nodes@[k].pack_id == pre.nodes@[k].pack_id
            && post.nodes@[k].path_view() == pre.nodes@[k].path_view()
            && post.nodes@[k].parent_id == pre.nodes@[k].parent_id);
    assert forall|k: int| 0 <= k < post.nodes@.len() implies (#[trigger] post.nodes@[k]).wf() by {
        assert(pre.nodes@[k].wf());
    }
    assert forall|k: int|
        0 <= k < post.nodes@.len() && post.nodes@[k].parent_id is Some implies exists|j: int|
            0 <= j < post.nodes@.len()
            && post.nodes@[j].id == post.nodes@[k].parent_id->0
            && post.nodes@[j].pack_id == post.nodes@[k].pack_id
            && #[trigger] post.nodes@[j].path_view() == post.nodes@[k].path_view().drop_last() by {
        assert(pre.nodes@[k].parent_id is Some);
        let j = choose|j: int|
            0 <= j < pre.nodes@.len()
            && pre.nodes@[j].id == pre.nodes@[k].parent_id->0
            && pre.nodes@[j].pack_id == pre.nodes@[k].pack_id
            && #[trigger] pre.nodes@[j].path_view() == pre.nodes@[k].path_view().drop_last();
        assert(post.nodes@[j].id == post.nodes@[k].parent_id->0);
        assert(post.nodes@[j].path_view() == post.nodes@[k].path_view().drop_last());
    }
    assert forall|k: int|
        0 <= k < post.nodes@.len() implies post.has_pack((#[trigger] post.nodes@[k]).pack_id) by {
        assert(pre.has_pack(pre.nodes@[k].pack_id));
        let w = pre.pack_index_of(pre.nodes@[k].pack_id);
        assert(post.packs@[w].id == post.nodes@[k].pack_id);
    }
}

impl OverlayIndex {
    /// Switch a file node's participation in resolution on or off.
    pub fn set_file_active(&mut self, id: u64, active: bool) -> (r: Result<(), OverlayError>)
        requires
            old(self).wf(),
        ensures
            final(self).wf(),
            r is Ok <==> old(self).has_node(id),
            r is Err ==> *final(self) == *old(self) && r == Err::<(), OverlayError>(
                OverlayError::FileNotFound,
            ),
            r is Ok ==> final(self).nodes@ == old(self).nodes@.update(
                old(self).node_index_of(id),
                node_with_active(old(self).nodes@[old(self).node_index_of(id)], active),
            ),
            final(self).packs == old(self).packs,
            final(self).overrides == old(self).overrides,
            final(self).pack_counter == old(self).pack_counter,
            final(self).node_counter == old(self).node_counter,
    {
        match self.find_node(id) {
            None => Err(OverlayError::FileNotFound),
            Some(i) => {
                self.nodes[i].is_active = active;
                proof {
                    lemma_wf_after_node_update(*old(self), *self, i as int);
                    assert(self.nodes@ =~= old(self).nodes@.update(
                        old(self).node_index_of(id),
                        node_with_active(old(self).nodes@[old(self).node_index_of(id)], active),
                    ));
                }
                Ok(())
            },
        }
    }

    /// Switch a file node's deployment mark on or off.
    pub fn set_file_deployed(&mut self, id: u64, deployed: bool) -> (r: Result<(), OverlayError>)
        requires
            old(self).wf(),
        ensures
            final(self).wf(),
            r is Ok <==> old(self).has_node(id),
            r is Err ==> *final(self) == *old(self) && r == Err::<(), OverlayError>(
                OverlayError::FileNotFound,
            ),
            r is Ok ==> final(self).nodes@ == old(self).nodes@.update(
                old(self).node_index_of(id),
                node_with_deployed(old(self).nodes@[old(self).node_index_of(id)], deployed),
            ),
            final(self).packs == old(self).packs,
            final(self).overrides == old(self).overrides,
            final(self).pack_counter == old(self).pack_counter,
            final(self).node_counter == old(self).node_counter,
    {
        match self.find_node(id) {
            None => Err(OverlayError::FileNotFound),
            Some(i) => {
                self.nodes[i].is_deployed = deployed;
                proof {
                    lemma_wf_after_node_update(*old(self), *self, i as int);
                    assert(self.nodes@ =~= old(self).nodes@.update(
                        old(self).node_index_of(id),
                        node_with_deployed(old(self).nodes@[old(self).node_index_of(id)], deployed),
                    ));
                }
                Ok(())
            },
        }
    }

    /// Pin the file `file_id` of pack `pack_id` as the unconditional winner
    /// at `path`. Refused when the path is already pinned or when no such
    /// file of that pack exists.
    pub fn add_cover_rule(&mut self, path: Vec<String>, file_id: u64, pack_id: u64) -> (r: Result<
        (),
        OverlayError,
    >)
        requires
            old(self).wf(),
        ensures
            final(self).wf(),
            r is Ok <==> !old(self).has_override(segs_view(path@)) && (exists|k: int|
                0 <= k < old(self).nodes@.len() && old(self).nodes@[k].id == file_id
                    && (#[trigger] old(self).nodes@[k]).pack_id == pack_id),
            r is Err ==> *final(self) == *old(self),
            r == Err::<(), OverlayError>(OverlayError::OverrideExists) <==> old(self).has_override(
                segs_view(path@),
            ),
            r == Err::<(), OverlayError>(OverlayError::FileNotFound) <==> !old(self).has_override(
                segs_view(path@),
            ) && !(exists|k: int|
                0 <= k < old(self).nodes@.len() && old(self).nodes@[k].id == file_id
                    && (#[trigger] old(self).nodes@[k]).pack_id == pack_id),
            r is Ok ==> final(self).overrides@ == old(self).overrides@.push(
                OverrideRule { path, file_id, pack_id },
            ),
            final(self).packs == old(self).packs,
            final(self).nodes == old(self).nodes,
            final(self).pack_counter == old(self).pack_counter,
            final(self).node_counter == old(self).node_counter,
    {
        if self.find_override(&path).is_some() {
            return Err(OverlayError::OverrideExists);
        }
        let pinned = match self.find_node(file_id) {
            None => None,
            Some(k) => {
                if self.nodes[k].pack_id == pack_id {
                    Some(k)
                } else {
                    None
                }
            },
        };
        if pinned.is_none() {
            proof {
                assert forall|k: int|
                    0 <= k < self.nodes@.len() && self.nodes@[k].id == file_id implies (
                #[trigger] self.nodes@[k]).pack_id != pack_id by {
                    self.lemma_node_index(k);
                }
            }
            return Err(OverlayError::FileNotFound);
        }
        let rule = OverrideRule { path, file_id, pack_id };
        self.overrides.push(rule);
        proof {
            let post = *self;
            let pre = *old(self);
            assert forall|i: int, j: int|
                #![trigger post.overrides@[i].path_view(), post.overrides@[j].path_view()]
                0 <= i < j < post.overrides@.len() implies post.overrides@[i].path_view()
                != post.overrides@[j].path_view() by {
                if j < pre.overrides@.len() {
                    assert(pre.overrides@[i].path_view() != pre.overrides@[j].path_view());
                } else {
                    assert(post.overrides@[j].path_view() == segs_view(path@));
                    assert(!pre.has_override(segs_view(path@)));
                    assert(pre.overrides@[i].path_view() != segs_view(path@));
                }
            }
        }
        Ok(())
    }

    /// Remove the override rule pinning `path`.
    pub fn remove_cover_rule(&mut self, path: &Vec<String>) -> (r: Result<(), OverlayError>)
        requires
            old(self).wf(),
        ensures
            final(self).wf(),
            r is Ok <==> old(self).has_override(segs_view(path@)),
            r is Err ==> *final(self) == *old(self) && r == Err::<(), OverlayError>(
                OverlayError::OverrideNotFound,
            ),
            r is Ok ==> final(self).overrides@ == old(self).overrides@.remove(
                old(self).override_index_of(segs_view(path@)),
            ),
            final(self).packs == old(self).packs,
            final(self).nodes == old(self).nodes,
            final(self).pack_counter == old(self).pack_counter,
            final(self).node_counter == old(self).node_counter,
    {
        match self.find_override(path) {
            None => Err(OverlayError::OverrideNotFound),
            Some(i) => {
                self.overrides.remove(i);
                proof {
                    let pre = *old(self);
                    let post = *self;
                    assert forall|a: int, b: int|
                        #![trigger post.overrides@[a].path_view(), post.overrides@[b].path_view()]
                        0 <= a < b < post.overrides@.len() implies post.overrides@[a].path_view()
                        != post.overrides@[b].path_view() by {
                        let a0: int = if a < i { a } else { a + 1 };
                        let b0: int = if b < i { b } else { b + 1 };
                        assert(post.overrides@[a] == pre.overrides@[a0]);
                        assert(post.overrides@[b] == pre.overrides@[b0]);
                        assert(pre.overrides@[a0].path_view() != pre.overrides@[b0].path_view());
                    }
                }
                Ok(())
            },
        }
    }

    /// Remove every override rule owned by pack `pack_id`.
    pub fn remove_cover_rule_by_pack_id(&mut self, pack_id: u64)
        requires
            old(self).wf(),
        ensures
            final(self).wf(),
            final(self).overrides@ == keep_seq(old(self).overrides@, keep_rule_not_pack(pack_id)),
            final(self).packs == old(self).packs,
            final(self).nodes == old(self).nodes,
            final(self).pack_counter == old(self).pack_counter,
            final(self).node_counter == old(self).node_counter,
    {
        let ghost orig = self.overrides@;
        let ghost keep = keep_rule_not_pack(pack_id);
        let mut rest: Vec<OverrideRule> = Vec::new();
        core::mem::swap(&mut rest, &mut self.overrides);
        let ghost total = rest@.len();
        while rest.len() > 0
            invariant
                orig == old(self).overrides@,
                keep == keep_rule_not_pack(pack_id),
                orig.len() == total,
                rest@.len() <= total,
                rest@ == orig.subrange(total - rest@.len(), total as int),
                self.overrides@ == keep_seq(orig.take(total - rest@.len()), keep),
                self.packs == old(self).packs,
                self.nodes == old(self).nodes,
                self.pack_counter == old(self).pack_counter,
                self.node_counter == old(self).node_counter,
            decreases rest@.len(),
        {
            let ghost done = total - rest@.len();
            let r = rest.remove(0);
            proof {
                assert(r == orig[done]);
                assert(orig.take(done + 1).drop_last() =~= orig.take(done));
                assert(orig.take(done + 1).last() == orig[done]);
                assert(rest@ =~= orig.subrange(total - rest@.len(), total as int));
                assert(keep(r) == (r.pack_id != pack_id));
            }
            if r.pack_id != pack_id {
                self.overrides.push(r);
            }
        }
        proof {
            assert(orig.take(total as int) =~= orig);
            let pre = *old(self);
            let key = rule_path_key();
            assert forall|i: int, j: int|
                #![trigger key(orig[i]), key(orig[j])]
                0 <= i < j < orig.len() implies key(orig[i]) != key(orig[j]) by {
                assert(pre.overrides@[i].path_view() != pre.overrides@[j].path_view());
            }
            lemma_keep_seq_distinct_by(orig, keep, key);
            assert forall|a: int, b: int|
                #![trigger self.overrides@[a].path_view(), self.overrides@[b].path_view()]
                0 <= a < b < self.overrides@.len() implies self.overrides@[a].path_view()
                != self.overrides@[b].path_view() by {
                assert(key(keep_seq(orig, keep)[a]) != key(keep_seq(orig, keep)[b]));
            }
        }
    }
}

} // verus!
