use vstd::prelude::*;
use crate::compact::count_lt;
use crate::compact::key_lt;
use crate::compact::lemma_key_lt_total;
use crate::compact::lemma_key_lt_trans;
use crate::compact::rank_priority;
use crate::index::OverlayIndex;
use crate::ledger::pack_with_priority;
use crate::model::PackInfo;
use crate::priority::Priority;

verus! {

/// Any nonempty set of positions below `n`, with a transitive and total
/// strict dominance relation on it, holds one position dominating all the
/// others.
proof fn lemma_exists_dominant(n: int, cand: spec_fn(int) -> bool, beats: spec_fn(int, int) -> bool)
    requires
        exists|i: int| 0 <= i < n && #[trigger] cand(i),
        forall|a: int, b: int, c: int|
            0 <= a < n && 0 <= b < n && 0 <= c < n && cand(a) && cand(b) && cand(c)
                && #[trigger] beats(a, b) && #[trigger] beats(b, c) ==> beats(a, c),
        forall|a: int, b: int|
            0 <= a < n && 0 <= b < n && cand(a) && cand(b) && a != b ==> #[trigger] beats(a, b)
                || beats(b, a),
    ensures
        exists|i: int|
            0 <= i < n && #[trigger] cand(i) && forall|j: int|
                0 <= j < n && #[trigger] cand(j) && j != i ==> beats(i, j),
    decreases n,
{
    let w = choose|i: int| 0 <= i < n && #[trigger] cand(i);
    if w == n - 1 && !(exists|i: int| 0 <= i < n - 1 && #[trigger] cand(i)) {
        assert(cand(n - 1) && forall|j: int|
            0 <= j < n && #[trigger] cand(j) && j != n - 1 ==> beats(n - 1, j));
    } else {
        assert(exists|i: int| 0 <= i < n - 1 && #[trigger] cand(i));
        lemma_exists_dominant(n - 1, cand, beats);
        let b = choose|i: int|
            0 <= i < n - 1 && #[trigger] cand(i) && forall|j: int|
                0 <= j < n - 1 && #[trigger] cand(j) && j != i ==> beats(i, j);
        if cand(n - 1) && n - 1 != b {
            if beats(n - 1, b) {
                assert forall|j: int|
                    0 <= j < n && #[trigger] cand(j) && j != n - 1 implies beats(n - 1, j) by {
                    if j != b {
                        assert(beats(b, j));
                    }
                }
            } else {
                assert(beats(b, n - 1));
                assert(cand(b) && forall|j: int|
                    0 <= j < n && #[trigger] cand(j) && j != b ==> beats(b, j));
            }
        } else {
            assert(cand(b) && forall|j: int|
                0 <= j < n && #[trigger] cand(j) && j != b ==> beats(b, j));
        }
    }
}

/// Path uniqueness of winners: at every path with at least one active
/// candidate — and, when the path is pinned, a pin that is still valid —
/// resolution yields a winner, and only one.
///
/// A pinned path whose pin is stale (the file gone, or its pack inactive)
/// is the one excluded case: there resolution deliberately yields nothing.
#[verifier::rlimit(100)]
#[verifier::spinoff_prover]
pub proof fn lemma_winner_exists_unique(idx: OverlayIndex, path: Seq<Seq<char>>)
    requires
        idx.wf(),
        exists|i: int| idx.is_active_candidate(path, i),
        idx.has_override(path) ==> exists|i: int|
            0 <= i < idx.nodes@.len() && (#[trigger] idx.nodes@[i]).id == idx.override_at(
                path,
            ).file_id && idx.nodes@[i].pack_id == idx.override_at(path).pack_id
                && idx.nodes@[i].path_view() == path && idx.has_pack(idx.override_at(path).pack_id)
                && idx.pack_of(idx.override_at(path).pack_id).is_active,
    ensures
        idx.has_winner(path),
        forall|i: int, j: int|
            idx.is_winner(path, i) && idx.is_winner(path, j) ==> i == j,
{
    if idx.has_override(path) {
        let i = choose|i: int|
            0 <= i < idx.nodes@.len() && (#[trigger] idx.nodes@[i]).id == idx.override_at(
                path,
            ).file_id && idx.nodes@[i].pack_id == idx.override_at(path).pack_id
                && idx.nodes@[i].path_view() == path && idx.has_pack(idx.override_at(path).pack_id)
                && idx.pack_of(idx.override_at(path).pack_id).is_active;
        assert(idx.is_winner(path, i));
    } else {
        let n = idx.nodes@.len() as int;
        let cand = |i: int| idx.is_active_candidate(path, i);
        let beats = |i: int, j: int| idx.node_beats(i, j);
        let w = choose|i: int| idx.is_active_candidate(path, i);
        assert(0 <= w < n && cand(w));
        assert forall|a: int, b2: int, c: int|
            0 <= a < n && 0 <= b2 < n && 0 <= c < n && cand(a) && cand(b2) && cand(c)
                && #[trigger] beats(a, b2) && #[trigger] beats(b2, c) implies beats(a, c) by {
            idx.lemma_beats_trans(a, b2, c);
        }
        assert forall|a: int, b2: int|
            0 <= a < n && 0 <= b2 < n && cand(a) && cand(b2) && a != b2 implies #[trigger] beats(
            a,
            b2,
        ) || beats(b2, a) by {
            idx.lemma_beats_total(a, b2);
        }
        lemma_exists_dominant(n, cand, beats);
        let b = choose|i: int|
            0 <= i < n && #[trigger] cand(i) && forall|j: int|
                0 <= j < n && #[trigger] cand(j) && j != i ==> beats(i, j);
        assert(idx.is_active_candidate(path, b));
        assert forall|j: int|
            idx.is_active_candidate(path, j) && j != b implies idx.node_beats(b, j) by {
            assert(cand(j));
            assert(beats(b, j));
        }
        assert(idx.is_priority_winner(path, b));
        assert(idx.is_winner(path, b));
    }
    assert forall|i: int, j: int|
        idx.is_winner(path, i) && idx.is_winner(path, j) implies i == j by {
        idx.lemma_winner_unique(path, i, j);
    }
}

/// Override precedence: while a rule pins the file at position `k` at
/// `path`, the file is still at that path in the pinned pack, and the pack
/// is active, that file wins — whatever every pack's priority is, since
/// nothing here constrains any priority.
pub proof fn lemma_override_precedence(idx: OverlayIndex, path: Seq<Seq<char>>, k: int)
    requires
        idx.wf(),
        idx.has_override(path),
        0 <= k < idx.nodes@.len(),
        idx.nodes@[k].id == idx.override_at(path).file_id,
        idx.nodes@[k].pack_id == idx.override_at(path).pack_id,
        idx.nodes@[k].path_view() == path,
        idx.has_pack(idx.override_at(path).pack_id),
        idx.pack_of(idx.override_at(path).pack_id).is_active,
    ensures
        idx.is_winner(path, k),
        forall|j: int| idx.is_winner(path, j) ==> j == k,
{
    assert forall|j: int| idx.is_winner(path, j) implies j == k by {
        idx.lemma_winner_unique(path, j, k);
    }
}

/// Priority monotonicity, first half: at a path without an override, the
/// winner is an active candidate that dominates every other active
/// candidate at that path.
pub proof fn lemma_priority_rule(idx: OverlayIndex, path: Seq<Seq<char>>, i: int)
    requires
        idx.wf(),
        !idx.has_override(path),
        idx.is_winner(path, i),
    ensures
        idx.is_active_candidate(path, i),
        forall|j: int|
            idx.is_active_candidate(path, j) && j != i ==> idx.node_beats(i, j),
{
}

/// Priority monotonicity, second half: changing an inactive pack's
/// priority never changes any winner. `b` is `a` with only the priority of
/// the inactive pack at position `k` replaced.
pub proof fn lemma_inactive_priority_irrelevant(
    a: OverlayIndex,
    b: OverlayIndex,
    k: int,
    path: Seq<Seq<char>>,
)
    requires
        a.wf(),
        b.wf(),
        0 <= k < a.packs@.len(),
        b.packs@.len() == a.packs@.len(),
        forall|m: int| 0 <= m < a.packs@.len() && m != k ==> b.packs@[m] == a.packs@[m],
        b.packs@[k] == pack_with_priority(a.packs@[k], b.packs@[k].priority),
        !a.packs@[k].is_active,
        b.nodes == a.nodes,
        b.overrides == a.overrides,
        b.pack_counter == a.pack_counter,
        b.node_counter == a.node_counter,
    ensures
        forall|i: int| a.is_winner(path, i) == b.is_winner(path, i),
        a.has_winner(path) == b.has_winner(path),
{
    assert(forall|m: int|
        0 <= m < b.packs@.len() ==> (#[trigger] b.packs@[m]).id == a.packs@[m].id
            && b.packs@[m].is_active == a.packs@[m].is_active);
    assert forall|id: u64| a.has_pack(id) == b.has_pack(id) by {
        if a.has_pack(id) {
            let m = a.pack_index_of(id);
            assert(b.packs@[m].id == id);
        }
        if b.has_pack(id) {
            let m = b.pack_index_of(id);
            assert(a.packs@[m].id == id);
        }
    }
    assert forall|id: u64|
        a.has_pack(id) implies #[trigger] a.pack_index_of(id) == b.pack_index_of(id) by {
        let m = a.pack_index_of(id);
        assert(b.packs@[m].id == id);
        a.lemma_pack_index_choose(m);
        b.lemma_pack_index_choose(m);
    }
    assert forall|i: int|
        a.is_active_candidate(path, i) == b.is_active_candidate(path, i) by {
        if a.is_active_candidate(path, i) {
            assert(b.pack_of(a.nodes@[i].pack_id).is_active);
        }
        if b.is_active_candidate(path, i) {
            assert(a.pack_of(a.nodes@[i].pack_id).is_active);
        }
    }
    assert forall|i: int, j: int|
        a.is_active_candidate(path, i) && a.is_active_candidate(path, j) implies a.node_beats(
        i,
        j,
    ) == b.node_beats(i, j) by {
        let pid_i = a.nodes@[i].pack_id;
        let pid_j = a.nodes@[j].pack_id;
        assert(a.pack_index_of(pid_i) != k && a.pack_index_of(pid_j) != k) by {
            if a.pack_index_of(pid_i) == k {
                assert(!a.pack_of(pid_i).is_active);
            }
            if a.pack_index_of(pid_j) == k {
                assert(!a.pack_of(pid_j).is_active);
            }
        }
        assert(b.pack_of(pid_i) == a.pack_of(pid_i));
        assert(b.pack_of(pid_j) == a.pack_of(pid_j));
    }
    if a.has_override(path) {
        let m = a.override_index_of(path);
        a.lemma_override_index(m);
        b.lemma_override_index(m);
        assert(a.override_at(path) == b.override_at(path));
        let r = a.override_at(path);
        assert forall|i: int| a.is_winner(path, i) == b.is_winner(path, i) by {
            if a.has_pack(r.pack_id) {
                assert(b.pack_of(r.pack_id).is_active == a.pack_of(r.pack_id).is_active);
            }
        }
    } else {
        assert(!b.has_override(path)) by {
            if b.has_override(path) {
                let m = b.override_index_of(path);
                assert(a.overrides@[m].path_view() == path);
            }
        }
        assert forall|i: int| a.is_winner(path, i) == b.is_winner(path, i) by {
            if a.is_priority_winner(path, i) {
                assert forall|j: int|
                    b.is_active_candidate(path, j) && j != i implies b.node_beats(i, j) by {
                    assert(a.is_active_candidate(path, j));
                    assert(a.node_beats(i, j));
                }
            }
            if b.is_priority_winner(path, i) {
                assert forall|j: int|
                    a.is_active_candidate(path, j) && j != i implies a.node_beats(i, j) by {
                    assert(b.is_active_candidate(path, j));
                    assert(b.node_beats(i, j));
                }
            }
        }
    }
    assert forall|i: int| a.is_winner(path, i) == b.is_winner(path, i) by {}
    if a.has_winner(path) {
        let i = choose|i: int| a.is_winner(path, i);
        assert(b.is_winner(path, i));
    }
    if b.has_winner(path) {
        let i = choose|i: int| b.is_winner(path, i);
        assert(a.is_winner(path, i));
    }
}

/// Cascade deletion: once no node of pack `id` is left — as `remove_pack`
/// guarantees of the pack it removes — no path anywhere resolves to a file
/// of that pack; whatever wins is one of the surviving candidates.
pub proof fn lemma_cascade_no_removed_winner(idx: OverlayIndex, id: u64, path: Seq<Seq<char>>)
    requires
        idx.wf(),
        forall|k: int| 0 <= k < idx.nodes@.len() ==> (#[trigger] idx.nodes@[k]).pack_id != id,
    ensures
        forall|i: int| idx.is_winner(path, i) ==> idx.nodes@[i].pack_id != id,
{
}

/// The pack list after one compaction: each pack keeps everything but its
/// priority, which becomes its consecutive integer rank.
pub open spec fn compacted_packs(s: Seq<PackInfo>) -> Seq<PackInfo> {
    Seq::new(s.len(), |k: int| pack_with_priority(s[k], rank_priority(s, k)))
}

/// Counting is monotone: everything ordered below `p` is ordered below any
/// `q` above `p`.
proof fn lemma_count_lt_le(s: Seq<PackInfo>, p: PackInfo, q: PackInfo)
    requires
        forall|m: int| 0 <= m < s.len() ==> (#[trigger] s[m]).priority.wf(),
        p.priority.wf(),
        q.priority.wf(),
        key_lt(p, q),
    ensures
        count_lt(s, p) <= count_lt(s, q),
    decreases s.len(),
{
    if s.len() > 0 {
        assert(forall|m: int|
            0 <= m < s.drop_last().len() ==> (#[trigger] s.drop_last()[m]).priority.wf());
        lemma_count_lt_le(s.drop_last(), p, q);
        if key_lt(s.last(), p) {
            lemma_key_lt_trans(s.last(), p, q);
        }
    }
}

/// Counting is strictly monotone across a member: the pack at position
/// `idx` is itself counted below `q` but not below itself.
proof fn lemma_count_lt_strict(s: Seq<PackInfo>, idx: int, q: PackInfo)
    requires
        forall|m: int| 0 <= m < s.len() ==> (#[trigger] s[m]).priority.wf(),
        q.priority.wf(),
        0 <= idx < s.len(),
        key_lt(s[idx], q),
    ensures
        count_lt(s, s[idx]) < count_lt(s, q),
    decreases s.len(),
{
    let p = s[idx];
    if idx == s.len() - 1 {
        assert(!key_lt(p, p));
        assert(forall|m: int|
            0 <= m < s.drop_last().len() ==> (#[trigger] s.drop_last()[m]).priority.wf());
        lemma_count_lt_le(s.drop_last(), p, q);
    } else {
        assert(s.drop_last()[idx] == s[idx]);
        assert(forall|m: int|
            0 <= m < s.drop_last().len() ==> (#[trigger] s.drop_last()[m]).priority.wf());
        lemma_count_lt_strict(s.drop_last(), idx, q);
        if key_lt(s.last(), p) {
            lemma_key_lt_trans(s.last(), p, q);
        }
    }
}

/// Two counts agree when their predicates agree position by position.
proof fn lemma_count_lt_congruent(s1: Seq<PackInfo>, p1: PackInfo, s2: Seq<PackInfo>, p2: PackInfo)
    requires
        s1.len() == s2.len(),
        forall|m: int| 0 <= m < s1.len() ==> key_lt(#[trigger] s1[m], p1) == key_lt(s2[m], p2),
    ensures
        count_lt(s1, p1) == count_lt(s2, p2),
    decreases s1.len(),
{
    if s1.len() > 0 {
        assert(forall|m: int|
            0 <= m < s1.drop_last().len() ==> key_lt(#[trigger] s1.drop_last()[m], p1) == key_lt(
                s2.drop_last()[m],
                p2,
            )) by {
            assert(forall|m: int|
                0 <= m < s1.drop_last().len() ==> s1.drop_last()[m] == s1[m] && s2.drop_last()[m]
                    == #[trigger] s2[m]);
        }
        lemma_count_lt_congruent(s1.drop_last(), p1, s2.drop_last(), p2);
        assert(key_lt(s1.last(), p1) == key_lt(s2.last(), p2));
    }
}

/// Compaction idempotence: compacting an already-compacted pack list
/// changes nothing — the ranks of the compacted list are the ranks of the
/// original, so running compaction twice equals running it once.
pub proof fn lemma_compaction_idempotent(s: Seq<PackInfo>)
    requires
        forall|i: int, j: int|
            #![trigger s[i].id, s[j].id]
            0 <= i < j < s.len() ==> s[i].id != s[j].id,
        forall|m: int| 0 <= m < s.len() ==> (#[trigger] s[m]).priority.wf(),
        s.len() + 1 <= i64::MAX,
    ensures
        compacted_packs(compacted_packs(s)) == compacted_packs(s),
{
    let c = compacted_packs(s);
    assert(forall|m: int| 0 <= m < c.len() ==> (#[trigger] c[m]).priority.wf()) by {
        assert(forall|m: int|
            0 <= m < c.len() ==> (#[trigger] c[m]).priority == rank_priority(s, m));
        assert(forall|m: int| 0 <= m < s.len() ==> 0 <= #[trigger] count_lt(s, s[m]) <= s.len())
            by {
            assert forall|m: int|
                0 <= m < s.len() implies 0 <= #[trigger] count_lt(s, s[m]) <= s.len() by {
                lemma_count_lt_bounds(s, s[m]);
            }
        }
    }
    // Ranks reproduce the key order on distinct positions.
    assert forall|a: int, b: int|
        0 <= a < s.len() && 0 <= b < s.len() && a != b implies (key_lt(#[trigger] s[a], #[trigger] s[b])
        == (count_lt(s, s[a]) < count_lt(s, s[b]))) by {
        lemma_key_lt_total(s[a], s[b]);
        if key_lt(s[a], s[b]) {
            lemma_count_lt_strict(s, a, s[b]);
        } else {
            assert(key_lt(s[b], s[a]));
            lemma_count_lt_strict(s, b, s[a]);
        }
    }
    // The compacted keys compare exactly as the original keys.
    assert forall|a: int, b: int|
        0 <= a < s.len() && 0 <= b < s.len() implies key_lt(#[trigger] c[a], #[trigger] c[b])
        == key_lt(s[a], s[b]) by {
        lemma_count_lt_bounds(s, s[a]);
        lemma_count_lt_bounds(s, s[b]);
        let ra = 1 + count_lt(s, s[a]);
        let rb = 1 + count_lt(s, s[b]);
        assert(c[a].priority == Priority { num: ra as i64, den: 1 });
        assert(c[b].priority == Priority { num: rb as i64, den: 1 });
        assert(Priority::spec_lt(c[a].priority, c[b].priority) == (ra < rb));
        assert(Priority::same_value(c[a].priority, c[b].priority) == (ra == rb));
        if a != b {
            lemma_key_lt_total(s[a], s[b]);
            if ra == rb {
                assert(!key_lt(s[a], s[b]) && !key_lt(s[b], s[a]));
            }
        } else {
            assert(!key_lt(c[a], c[b]) && !key_lt(s[a], s[b]));
        }
    }
    assert forall|k: int| 0 <= k < s.len() implies #[trigger] count_lt(c, c[k]) == count_lt(
        s,
        s[k],
    ) by {
        assert(forall|m: int| 0 <= m < c.len() ==> key_lt(#[trigger] c[m], c[k]) == key_lt(
            s[m],
            s[k],
        ));
        lemma_count_lt_congruent(c, c[k], s, s[k]);
    }
    assert forall|k: int|
        0 <= k < s.len() implies #[trigger] compacted_packs(c)[k] == c[k] by {
        assert(rank_priority(c, k) == c[k].priority);
    }
    assert(compacted_packs(compacted_packs(s)) =~= compacted_packs(s));
}

/// A count lies between zero and the list's length.
proof fn lemma_count_lt_bounds(s: Seq<PackInfo>, p: PackInfo)
    ensures
        0 <= count_lt(s, p) <= s.len(),
    decreases s.len(),
{
    if s.len() > 0 {
        lemma_count_lt_bounds(s.drop_last(), p);
    }
}

} // verus!
