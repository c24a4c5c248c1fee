use vstd::prelude::*;

verus! {

/// The subsequence of `s` whose elements satisfy `keep`, in order.
pub open spec fn keep_seq<T>(s: Seq<T>, keep: spec_fn(T) -> bool) -> Seq<T>
    decreases s.len(),
{
    if s.len() == 0 {
        Seq::empty()
    } else {
        let rest = keep_seq(s.drop_last(), keep);
        if keep(s.last()) {
            rest.push(s.last())
        } else {
            rest
        }
    }
}

/// Every element of the filtered sequence satisfies `keep` and occurs in `s`;
/// every element of `s` that satisfies `keep` occurs in the filtered sequence.
pub proof fn lemma_keep_seq_elements<T>(s: Seq<T>, keep: spec_fn(T) -> bool)
    ensures
        forall|m: int|
            0 <= m < keep_seq(s, keep).len() ==> keep(#[trigger] keep_seq(s, keep)[m]) && exists|k: int|
                0 <= k < s.len() && keep_seq(s, keep)[m] == s[k],
        forall|k: int|
            0 <= k < s.len() && keep(#[trigger] s[k]) ==> keep_seq(s, keep).contains(s[k]),
    decreases s.len(),
{
    if s.len() > 0 {
        let prev = s.drop_last();
        lemma_keep_seq_elements(prev, keep);
        let f = keep_seq(s, keep);
        let fp = keep_seq(prev, keep);
        assert forall|m: int| 0 <= m < f.len() implies keep(#[trigger] f[m]) && exists|k: int|
            0 <= k < s.len() && f[m] == s[k] by {
            if m < fp.len() {
                assert(f[m] == fp[m]);
                let k = choose|k: int| 0 <= k < prev.len() && fp[m] == prev[k];
                assert(f[m] == s[k]);
            } else {
                assert(f[m] == s.last());
                assert(f[m] == s[s.len() - 1]);
            }
        }
        assert forall|k: int| 0 <= k < s.len() && keep(#[trigger] s[k]) implies f.contains(s[k]) by {
            if k < s.len() - 1 {
                assert(prev[k] == s[k]);
                assert(fp.contains(s[k]));
                let w = choose|w: int| 0 <= w < fp.len() && fp[w] == s[k];
                assert(f[w] == s[k]);
            } else {
                assert(f[f.len() - 1] == s.last());
            }
        }
    }
}

/// Filtering keeps pairwise-distinct keys pairwise distinct.
pub proof fn lemma_keep_seq_distinct_by<T, K>(s: Seq<T>, keep: spec_fn(T) -> bool, key: spec_fn(T) -> K)
    requires
        forall|i: int, j: int|
            #![trigger key(s[i]), key(s[j])]
            0 <= i < j < s.len() ==> key(s[i]) != key(s[j]),
    ensures
        forall|i: int, j: int|
            #![trigger key(keep_seq(s, keep)[i]), key(keep_seq(s, keep)[j])]
            0 <= i < j < keep_seq(s, keep).len()
                ==> key(keep_seq(s, keep)[i]) != key(keep_seq(s, keep)[j]),
    decreases s.len(),
{
    if s.len() > 0 {
        let prev = s.drop_last();
        assert forall|i: int, j: int|
            #![trigger key(prev[i]), key(prev[j])]
            0 <= i < j < prev.len() implies key(prev[i]) != key(prev[j]) by {
            assert(prev[i] == s[i] && prev[j] == s[j]);
            assert(key(s[i]) != key(s[j]));
        }
        lemma_keep_seq_distinct_by(prev, keep, key);
        lemma_keep_seq_elements(prev, keep);
        let f = keep_seq(s, keep);
        let fp = keep_seq(prev, keep);
        assert forall|i: int, j: int|
            #![trigger key(f[i]), key(f[j])]
            0 <= i < j < f.len() implies key(f[i]) != key(f[j]) by {
            if j < fp.len() {
                assert(f[i] == fp[i] && f[j] == fp[j]);
                assert(key(fp[i]) != key(fp[j]));
            } else {
                // j names the appended last element of s; i lies in the
                // filtered prefix, whose elements all occur before it in s.
                assert(f[j] == s[s.len() - 1]);
                assert(f[i] == fp[i]);
                let k = choose|k: int| 0 <= k < prev.len() && fp[i] == prev[k];
                assert(prev[k] == s[k]);
                assert(key(s[k]) != key(s[s.len() - 1]));
            }
        }
    }
}

} // verus!
