use vstd::prelude::*;
use crate::index::OverlayIndex;
use crate::ledger::pack_with_priority;
use crate::model::PackInfo;
use crate::priority::Priority;

verus! {

/// The compaction order: by priority value, ties broken by pack identity.
/// It is total on any pack list with pairwise-distinct identities.
pub open spec fn key_lt(a: PackInfo, b: PackInfo) -> bool {
    Priority::spec_lt(a.priority, b.priority) || (Priority::same_value(a.priority, b.priority)
        && a.id < b.id)
}

/// How many packs of `s` precede `p` in the compaction order.
pub open spec fn count_lt(s: Seq<PackInfo>, p: PackInfo) -> int
    decreases s.len(),
{
    if s.len() == 0 {
        0
    } else {
        count_lt(s.drop_last(), p) + if key_lt(s.last(), p) {
            1int
        } else {
            0int
        }
    }
}

/// The consecutive integer priority compaction assigns to `s[k]`.
pub open spec fn rank_priority(s: Seq<PackInfo>, k: int) -> Priority {
    Priority { num: (1 + count_lt(s, s[k])) as i64, den: 1 }
}

/// The compaction order is transitive.
pub proof fn lemma_key_lt_trans(a: PackInfo, b: PackInfo, c: PackInfo)
    requires
        a.priority.wf(),
        b.priority.wf(),
        c.priority.wf(),
        key_lt(a, b),
        key_lt(b, c),
    ensures
        key_lt(a, c),
{
    let (pa, pb, pc) = (a.priority, b.priority, c.priority);
    if Priority::spec_lt(pa, pb) && Priority::spec_lt(pb, pc) {
        crate::priority::lemma_priority_lt_trans(pa, pb, pc);
    } else if Priority::spec_lt(pa, pb) {
        crate::priority::lemma_priority_same_value_lt(pb, pc, pa);
    } else if Priority::spec_lt(pb, pc) {
        crate::priority::lemma_priority_same_value_lt(pa, pb, pc);
    } else {
        crate::priority::lemma_priority_same_value_lt(pa, pb, pc);
    }
}

/// Two packs with distinct identities are strictly ordered one way or the
/// other, never both.
pub proof fn lemma_key_lt_total(a: PackInfo, b: PackInfo)
    requires
        a.id != b.id,
    ensures
        key_lt(a, b) || key_lt(b, a),
        !(key_lt(a, b) && key_lt(b, a)),
{
    crate::priority::lemma_priority_trichotomy(a.priority, b.priority);
}

impl OverlayIndex {
    /// The listing row reflects the pack `p`: every scalar field equal,
    /// every string field equal in content.
    pub open spec fn pack_row_matches(self, row: PackInfo, p: PackInfo) -> bool {
        &&& row.id == p.id
        &&& row.base_path@ == p.base_path@
        &&& row.priority == p.priority
        &&& (match (row.name, p.name) {
            (Some(a), Some(b)) => a@ == b@,
            (None, None) => true,
            _ => false,
        })
        &&& row.tags@ == p.tags@
        &&& (match (row.description, p.description) {
            (Some(a), Some(b)) => a@ == b@,
            (None, None) => true,
            _ => false,
        })
        &&& (match (row.author, p.author) {
            (Some(a), Some(b)) => a@ == b@,
            (None, None) => true,
            _ => false,
        })
        &&& (match (row.version, p.version) {
            (Some(a), Some(b)) => a@ == b@,
            (None, None) => true,
            _ => false,
        })
        &&& row.is_deployed == p.is_deployed
        &&& row.is_active == p.is_active
        &&& row.add_time == p.add_time
        &&& row.meta_updated_at == p.meta_updated_at
    }

    /// Build the listing row of the pack at position `i`.
    fn pack_row_of(&self, i: usize) -> (row: PackInfo)
        requires
            i < self.packs@.len(),
        ensures
            self.pack_row_matches(row, self.packs@[i as int]),
    {
        let p = &self.packs[i];
        PackInfo {
            id: p.id,
            base_path: p.base_path.clone(),
            priority: p.priority,
            name: match &p.name {
                Some(s) => Some(s.clone()),
                None => None,
            },
            tags: crate::resolve::clone_segs(&p.tags),
            description: match &p.description {
                Some(s) => Some(s.clone()),
                None => None,
            },
            author: match &p.author {
                Some(s) => Some(s.clone()),
                None => None,
            },
            version: match &p.version {
                Some(s) => Some(s.clone()),
                None => None,
            },
            is_deployed: p.is_deployed,
            is_active: p.is_active,
            add_time: p.add_time,
            meta_updated_at: p.meta_updated_at,
        }
    }

    /// The pack listing: every pack once, ordered by ascending priority,
    /// packs of equal priority ordered by identity.
    pub fn get_pack_info(&self) -> (r: Vec<PackInfo>)
        requires
            self.wf(),
        ensures
            r@.len() == self.packs@.len(),
            exists|perm: Seq<int>|
                #![trigger perm.len()]
                {
                    &&& perm.len() == self.packs@.len()
                    &&& (forall|m: int| 0 <= m < perm.len() ==> 0 <= #[trigger] perm[m]
                        < self.packs@.len())
                    &&& (forall|m1: int, m2: int|
                        #![trigger perm[m1], perm[m2]]
                        0 <= m1 < m2 < perm.len() ==> perm[m1] != perm[m2])
                    &&& (forall|m: int|
                        0 <= m < perm.len() ==> self.pack_row_matches(
                            #[trigger] r@[m],
                            self.packs@[perm[m]],
                        ))
                },
            forall|m1: int, m2: int|
                #![trigger r@[m1], r@[m2]]
                0 <= m1 < m2 < r@.len() ==> !key_lt(r@[m2], r@[m1]),
    {
        let n = self.packs.len();
        let mut idxs: Vec<usize> = Vec::new();
        let mut i: usize = 0;
        while i < n
            invariant
                i <= n,
                idxs@.len() == i,
                forall|m: int| 0 <= m < i ==> #[trigger] idxs@[m] == m,
            decreases n - i,
        {
            idxs.push(i);
            i = i + 1;
        }
        let mut m: usize = 0;
        while m < n
            invariant
                self.wf(),
                n == self.packs@.len(),
                m <= n,
                idxs@.len() == n,
                forall|u: int| 0 <= u < n ==> (#[trigger] idxs@[u]) < n,
                forall|u1: int, u2: int|
                    #![trigger idxs@[u1], idxs@[u2]]
                    0 <= u1 < u2 < n ==> idxs@[u1] != idxs@[u2],
                forall|a: int, b: int|
                    #![trigger idxs@[a], idxs@[b]]
                    0 <= a < b < m ==> !key_lt(
                        self.packs@[idxs@[b] as int],
                        self.packs@[idxs@[a] as int],
                    ),
                forall|a: int, b: int|
                    #![trigger idxs@[a], idxs@[b]]
                    0 <= a < m && m <= b < n ==> !key_lt(
                        self.packs@[idxs@[b] as int],
                        self.packs@[idxs@[a] as int],
                    ),
            decreases n - m,
        {
            let mut tmin: usize = m;
            let mut t: usize = m + 1;
            while t < n
                invariant
                    self.wf(),
                    n == self.packs@.len(),
                    m < n,
                    m <= tmin < t <= n,
                    idxs@.len() == n,
                    forall|u: int| 0 <= u < n ==> (#[trigger] idxs@[u]) < n,
                    forall|u1: int, u2: int|
                        #![trigger idxs@[u1], idxs@[u2]]
                        0 <= u1 < u2 < n ==> idxs@[u1] != idxs@[u2],
                    forall|u: int|
                        m <= u < t ==> !key_lt(
                            self.packs@[(#[trigger] idxs@[u]) as int],
                            self.packs@[idxs@[tmin as int] as int],
                        ),
                decreases n - t,
            {
                let pt = idxs[t];
                let pm = idxs[tmin];
                let smaller: bool = Priority::lt(
                    &self.packs[pt].priority,
                    &self.packs[pm].priority,
                ) || (Priority::eq_value(&self.packs[pt].priority, &self.packs[pm].priority)
                    && self.packs[pt].id < self.packs[pm].id);
                proof {
                    assert(smaller == key_lt(
                        self.packs@[idxs@[t as int] as int],
                        self.packs@[idxs@[tmin as int] as int],
                    ));
                }
                if smaller {
                    proof {
                        assert forall|u: int|
                            m <= u < t implies !key_lt(
                            self.packs@[(#[trigger] idxs@[u]) as int],
                            self.packs@[idxs@[t as int] as int],
                        ) by {
                            if key_lt(
                                self.packs@[idxs@[u] as int],
                                self.packs@[idxs@[t as int] as int],
                            ) {
                                lemma_key_lt_trans(
                                    self.packs@[idxs@[u] as int],
                                    self.packs@[idxs@[t as int] as int],
                                    self.packs@[idxs@[tmin as int] as int],
                                );
                            }
                        }
                    }
                    tmin = t;
                }
                t = t + 1;
            }
            let a = idxs[m];
            let b = idxs[tmin];
            idxs[m] = b;
            idxs[tmin] = a;
            proof {
                let post = idxs@;
                assert forall|u1: int, u2: int|
                    #![trigger post[u1], post[u2]]
                    0 <= u1 < u2 < n implies post[u1] != post[u2] by {
                }
                assert forall|a2: int, b2: int|
                    #![trigger post[a2], post[b2]]
                    0 <= a2 < m + 1 && m + 1 <= b2 < n implies !key_lt(
                    self.packs@[post[b2] as int],
                    self.packs@[post[a2] as int],
                ) by {
                    if a2 == m {
                        if b2 == tmin {
                            assert(post[b2] == a as int);
                        }
                    }
                }
            }
            m = m + 1;
        }
        let mut r: Vec<PackInfo> = Vec::new();
        let mut k: usize = 0;
        while k < n
            invariant
                self.wf(),
                n == self.packs@.len(),
                k <= n,
                r@.len() == k,
                idxs@.len() == n,
                forall|u: int| 0 <= u < n ==> (#[trigger] idxs@[u]) < n,
                forall|u1: int, u2: int|
                    #![trigger idxs@[u1], idxs@[u2]]
                    0 <= u1 < u2 < n ==> idxs@[u1] != idxs@[u2],
                forall|a: int, b: int|
                    #![trigger idxs@[a], idxs@[b]]
                    0 <= a < b < n ==> !key_lt(
                        self.packs@[idxs@[b] as int],
                        self.packs@[idxs@[a] as int],
                    ),
                forall|u: int|
                    0 <= u < k ==> self.pack_row_matches(
                        #[trigger] r@[u],
                        self.packs@[idxs@[u] as int],
                    ),
                forall|u1: int, u2: int|
                    #![trigger r@[u1], r@[u2]]
                    0 <= u1 < u2 < k ==> !key_lt(r@[u2], r@[u1]),
            decreases n - k,
        {
            let idx = idxs[k];
            let row = self.pack_row_of(idx);
            proof {
                assert(row.priority == self.packs@[idxs@[k as int] as int].priority);
                assert(row.id == self.packs@[idxs@[k as int] as int].id);
                assert forall|u1: int|
                    0 <= u1 < k implies !key_lt(row, #[trigger] r@[u1]) by {
                    assert(!key_lt(
                        self.packs@[idxs@[k as int] as int],
                        self.packs@[idxs@[u1] as int],
                    ));
                }
            }
            r.push(row);
            k = k + 1;
        }
        proof {
            let perm = idxs@.map_values(|x: usize| x as int);
            assert(perm.len() == self.packs@.len());
            assert(forall|u: int| 0 <= u < perm.len() ==> 0 <= #[trigger] perm[u]
                < self.packs@.len());
            assert forall|m1: int, m2: int|
                #![trigger perm[m1], perm[m2]]
                0 <= m1 < m2 < perm.len() implies perm[m1] != perm[m2] by {
                assert(idxs@[m1] != idxs@[m2]);
            }
            assert(forall|u: int|
                0 <= u < perm.len() ==> self.pack_row_matches(
                    #[trigger] r@[u],
                    self.packs@[perm[u]],
                ));
        }
        r
    }

    /// Renumber every pack's priority to a consecutive integer, preserving
    /// the relative order; ties in priority value are separated by pack
    /// identity. The append counter is left untouched, so priorities of
    /// future insertions keep growing past the compacted values.
    pub fn reset_priority(&mut self)
        requires
            old(self).wf(),
            old(self).packs@.len() + 1 <= i64::MAX,
        ensures
            final(self).wf(),
            final(self).packs@.len() == old(self).packs@.len(),
            forall|k: int|
                0 <= k < old(self).packs@.len() ==> #[trigger] final(self).packs@[k]
                    == pack_with_priority(
                    old(self).packs@[k],
                    rank_priority(old(self).packs@, k),
                ),
            final(self).nodes == old(self).nodes,
            final(self).overrides == old(self).overrides,
            final(self).pack_counter == old(self).pack_counter,
            final(self).node_counter == old(self).node_counter,
    {
        let ghost orig = self.packs@;
        let n = self.packs.len();
        let mut ranks: Vec<i64> = Vec::new();
        let mut i: usize = 0;
        while i < n
            invariant
                self == old(self),
                old(self).wf(),
                orig == self.packs@,
                n == orig.len(),
                n + 1 <= i64::MAX,
                i <= n,
                ranks@.len() == i,
                forall|k: int| 0 <= k < i ==> #[trigger] ranks@[k] == 1 + count_lt(orig, orig[k]),
            decreases n - i,
        {
            let mut cnt: i64 = 1;
            let mut j: usize = 0;
            proof {
                assert(orig.take(0) =~= Seq::<PackInfo>::empty());
            }
            while j < n
                invariant
                    self == old(self),
                    old(self).wf(),
                    orig == self.packs@,
                    n == orig.len(),
                    n + 1 <= i64::MAX,
                    i < n,
                    j <= n,
                    cnt == 1 + count_lt(orig.take(j as int), orig[i as int]),
                    cnt <= 1 + j,
                decreases n - j,
            {
                let less: bool = Priority::lt(&self.packs[j].priority, &self.packs[i].priority)
                    || (Priority::eq_value(&self.packs[j].priority, &self.packs[i].priority)
                    && self.packs[j].id < self.packs[i].id);
                proof {
                    assert(orig.take(j + 1).drop_last() =~= orig.take(j as int));
                    assert(orig.take(j + 1).last() == orig[j as int]);
                    assert(less == key_lt(orig[j as int], orig[i as int]));
                }
                if less {
                    cnt = cnt + 1;
                }
                j = j + 1;
            }
            proof {
                assert(orig.take(n as int) =~= orig);
            }
            ranks.push(cnt);
            i = i + 1;
        }
        let mut i2: usize = 0;
        while i2 < n
            invariant
                old(self).wf(),
                orig == old(self).packs@,
                n == orig.len(),
                i2 <= n,
                ranks@.len() == n,
                forall|k: int| 0 <= k < n ==> #[trigger] ranks@[k] == 1 + count_lt(orig, orig[k]),
                self.packs@.len() == n,
                forall|k: int|
                    0 <= k < i2 ==> #[trigger] self.packs@[k] == pack_with_priority(
                        orig[k],
                        rank_priority(orig, k),
                    ),
                forall|k: int| i2 <= k < n ==> #[trigger] self.packs@[k] == orig[k],
                self.nodes == old(self).nodes,
                self.overrides == old(self).overrides,
                self.pack_counter == old(self).pack_counter,
                self.node_counter == old(self).node_counter,
            decreases n - i2,
        {
            let r = ranks[i2];
            self.packs[i2].priority = Priority { num: r, den: 1 };
            i2 = i2 + 1;
        }
        proof {
            let post = *self;
            assert forall|a: int, b: int|
                #![trigger post.packs@[a].id, post.packs@[b].id]
                0 <= a < b < post.packs@.len() implies post.packs@[a].id != post.packs@[b].id by {
                assert(post.packs@[a].id == orig[a].id && post.packs@[b].id == orig[b].id);
            }
            assert forall|k: int|
                0 <= k < post.nodes@.len() implies post.has_pack(
                (#[trigger] post.nodes@[k]).pack_id) by {
                assert(old(self).has_pack(old(self).nodes@[k].pack_id));
                let w = old(self).pack_index_of(old(self).nodes@[k].pack_id);
                assert(post.packs@[w].id == post.nodes@[k].pack_id);
            }
        }
    }
}

} // verus!
