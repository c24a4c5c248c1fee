use vstd::prelude::*;
use crate::model::FileOverTree;
use crate::model::FileTreeNode;
use crate::model::segs_view;
use vstd::string::StrSliceExecFns;

verus! {

/// Lexicographic order on character sequences: the shorter prefix sorts
/// first, otherwise the first differing character decides by scalar value.
pub open spec fn chars_lt(a: Seq<char>, b: Seq<char>) -> bool
    decreases a.len(),
{
    if b.len() == 0 {
        false
    } else if a.len() == 0 {
        true
    } else if a.first() == b.first() {
        chars_lt(a.drop_first(), b.drop_first())
    } else {
        (a.first() as u32) < (b.first() as u32)
    }
}

/// Lexicographic order on segment sequences: shorter prefixes first, then
/// the first differing segment decides by `chars_lt`.
pub open spec fn segs_lt(a: Seq<Seq<char>>, b: Seq<Seq<char>>) -> bool
    decreases a.len(),
{
    if b.len() == 0 {
        false
    } else if a.len() == 0 {
        true
    } else if a.first() == b.first() {
        segs_lt(a.drop_first(), b.drop_first())
    } else {
        chars_lt(a.first(), b.first())
    }
}

/// Distinct characters have distinct scalar values.
proof fn lemma_char_code_injective(a: char, b: char)
    requires
        a != b,
    ensures
        a as u32 != b as u32,
{
}

/// Exactly one of `a < b`, `b < a`, `a == b` holds for character sequences.
pub proof fn lemma_chars_lt_trichotomy(a: Seq<char>, b: Seq<char>)
    ensures
        chars_lt(a, b) || chars_lt(b, a) || a == b,
        !(chars_lt(a, b) && chars_lt(b, a)),
        chars_lt(a, b) ==> a != b,
    decreases a.len(),
{
    if a.len() == 0 && b.len() == 0 {
        assert(a =~= b);
    } else if a.len() > 0 && b.len() > 0 {
        if a.first() != b.first() {
            lemma_char_code_injective(a.first(), b.first());
        } else {
            lemma_chars_lt_trichotomy(a.drop_first(), b.drop_first());
            if a.drop_first() == b.drop_first() {
                assert forall|i: int| 0 <= i < a.len() implies a[i] == b[i] by {
                    if i > 0 {
                        assert(a.drop_first()[i - 1] == b.drop_first()[i - 1]);
                    }
                }
                assert(a =~= b);
            }
            if a == b {
                assert(a.drop_first() =~= b.drop_first());
            }
        }
    }
}

/// Lexicographic order on character sequences is transitive.
pub proof fn lemma_chars_lt_trans(a: Seq<char>, b: Seq<char>, c: Seq<char>)
    requires
        chars_lt(a, b),
        chars_lt(b, c),
    ensures
        chars_lt(a, c),
    decreases a.len(),
{
    if a.len() > 0 && b.len() > 0 && c.len() > 0 {
        if a.first() == b.first() && b.first() == c.first() {
            lemma_chars_lt_trans(a.drop_first(), b.drop_first(), c.drop_first());
        }
    }
}

/// Exactly one of `a < b`, `b < a`, `a == b` holds for segment sequences.
pub proof fn lemma_segs_lt_trichotomy(a: Seq<Seq<char>>, b: Seq<Seq<char>>)
    ensures
        segs_lt(a, b) || segs_lt(b, a) || a == b,
        !(segs_lt(a, b) && segs_lt(b, a)),
        segs_lt(a, b) ==> a != b,
    decreases a.len(),
{
    if a.len() == 0 && b.len() == 0 {
        assert(a =~= b);
    } else if a.len() > 0 && b.len() > 0 {
        if a.first() == b.first() {
            lemma_segs_lt_trichotomy(a.drop_first(), b.drop_first());
            if a.drop_first() == b.drop_first() {
                assert forall|i: int| 0 <= i < a.len() implies a[i] == b[i] by {
                    if i > 0 {
                        assert(a.drop_first()[i - 1] == b.drop_first()[i - 1]);
                    }
                }
                assert(a =~= b);
            }
            if a == b {
                assert(a.drop_first() =~= b.drop_first());
            }
        } else {
            lemma_chars_lt_trichotomy(a.first(), b.first());
        }
    }
}

/// Lexicographic order on segment sequences is transitive.
pub proof fn lemma_segs_lt_trans(a: Seq<Seq<char>>, b: Seq<Seq<char>>, c: Seq<Seq<char>>)
    requires
        segs_lt(a, b),
        segs_lt(b, c),
    ensures
        segs_lt(a, c),
    decreases a.len(),
{
    if a.len() > 0 && b.len() > 0 && c.len() > 0 {
        if a.first() == b.first() && b.first() == c.first() {
            lemma_segs_lt_trans(a.drop_first(), b.drop_first(), c.drop_first());
        } else if a.first() == b.first() {
            assert(chars_lt(a.first(), c.first()));
        } else if b.first() == c.first() {
            assert(chars_lt(a.first(), c.first()));
        } else {
            lemma_chars_lt_trans(a.first(), b.first(), c.first());
            lemma_chars_lt_trichotomy(a.first(), c.first());
        }
    }
}

/// Compare two strings in the lexicographic character order.
pub fn string_lt(a: &String, b: &String) -> (r: bool)
    ensures
        r == chars_lt(a@, b@),
{
    let alen = a.as_str().unicode_len();
    let blen = b.as_str().unicode_len();
    let mut i: usize = 0;
    proof {
        assert(a@.skip(0) =~= a@);
        assert(b@.skip(0) =~= b@);
    }
    while i < alen && i < blen
        invariant
            alen == a@.len(),
            blen == b@.len(),
            i <= alen,
            i <= blen,
            chars_lt(a@, b@) == chars_lt(a@.skip(i as int), b@.skip(i as int)),
        decreases alen - i,
    {
        let ca = a.as_str().get_char(i);
        let cb = b.as_str().get_char(i);
        proof {
            assert(a@.skip(i as int).first() == a@[i as int]);
            assert(b@.skip(i as int).first() == b@[i as int]);
            assert(a@.skip(i as int).drop_first() =~= a@.skip(i + 1));
            assert(b@.skip(i as int).drop_first() =~= b@.skip(i + 1));
        }
        if ca == cb {
            i = i + 1;
        } else {
            return (ca as u32) < (cb as u32);
        }
    }
    proof {
        if i >= blen {
            assert(b@.skip(i as int).len() == 0);
        } else {
            assert(a@.skip(i as int).len() == 0);
            assert(b@.skip(i as int).len() > 0);
        }
    }
    i < blen
}

/// Compare two segment lists in the lexicographic path order.
pub fn path_lt(a: &Vec<String>, b: &Vec<String>) -> (r: bool)
    ensures
        r == segs_lt(segs_view(a@), segs_view(b@)),
{
    let ghost av = segs_view(a@);
    let ghost bv = segs_view(b@);
    let mut i: usize = 0;
    proof {
        assert(av.skip(0) =~= av);
        assert(bv.skip(0) =~= bv);
    }
    while i < a.len() && i < b.len()
        invariant
            av == segs_view(a@),
            bv == segs_view(b@),
            av.len() == a@.len(),
            bv.len() == b@.len(),
            i <= a@.len(),
            i <= b@.len(),
            segs_lt(av, bv) == segs_lt(av.skip(i as int), bv.skip(i as int)),
        decreases a@.len() - i,
    {
        proof {
            assert(av.skip(i as int).first() == a@[i as int]@);
            assert(bv.skip(i as int).first() == b@[i as int]@);
            assert(av.skip(i as int).drop_first() =~= av.skip(i + 1));
            assert(bv.skip(i as int).drop_first() =~= bv.skip(i + 1));
        }
        let same: bool = a[i] == b[i];
        if same {
            i = i + 1;
        } else {
            return string_lt(&a[i], &b[i]);
        }
    }
    proof {
        if i >= b.len() {
            assert(bv.skip(i as int).len() == 0);
        } else {
            assert(av.skip(i as int).len() == 0);
            assert(bv.skip(i as int).len() > 0);
        }
    }
    i < b.len()
}

/// Sort overlay rows by their path segments, ascending: the result is the
/// input reordered by a permutation, every input row still present, no two
/// rows out of order.
pub fn sort_over_rows(rows: Vec<FileOverTree>) -> (r: Vec<FileOverTree>)
    ensures
        r@.len() == rows@.len(),
        exists|perm: Seq<int>|
            #![trigger perm.len()]
            {
                &&& perm.len() == rows@.len()
                &&& (forall|m: int| 0 <= m < perm.len() ==> 0 <= #[trigger] perm[m] < rows@.len())
                &&& (forall|m1: int, m2: int|
                    #![trigger perm[m1], perm[m2]]
                    0 <= m1 < m2 < perm.len() ==> perm[m1] != perm[m2])
                &&& (forall|m: int| 0 <= m < perm.len() ==> #[trigger] r@[m] == rows@[perm[m]])
            },
        forall|k: int| 0 <= k < rows@.len() ==> r@.contains(#[trigger] rows@[k]),
        forall|m1: int, m2: int|
            #![trigger r@[m1], r@[m2]]
            0 <= m1 < m2 < r@.len() ==> !segs_lt(
                segs_view(r@[m2].path_segments@),
                segs_view(r@[m1].path_segments@),
            ),
{
    let ghost orig = rows@;
    let mut rest = rows;
    let mut out: Vec<FileOverTree> = Vec::new();
    let ghost mut perm_out: Seq<int> = Seq::empty();
    let ghost mut rest_idx: Seq<int> = Seq::new(orig.len(), |t: int| t);
    while rest.len() > 0
        invariant
            out@.len() + rest@.len() == orig.len(),
            perm_out.len() == out@.len(),
            rest_idx.len() == rest@.len(),
            forall|m: int|
                0 <= m < out@.len() ==> 0 <= #[trigger] perm_out[m] < orig.len() && out@[m]
                    == orig[perm_out[m]],
            forall|t: int|
                0 <= t < rest@.len() ==> 0 <= #[trigger] rest_idx[t] < orig.len() && rest@[t]
                    == orig[rest_idx[t]],
            forall|m1: int, m2: int|
                #![trigger perm_out[m1], perm_out[m2]]
                0 <= m1 < m2 < perm_out.len() ==> perm_out[m1] != perm_out[m2],
            forall|t1: int, t2: int|
                #![trigger rest_idx[t1], rest_idx[t2]]
                0 <= t1 < t2 < rest_idx.len() ==> rest_idx[t1] != rest_idx[t2],
            forall|m: int, t: int|
                #![trigger perm_out[m], rest_idx[t]]
                0 <= m < perm_out.len() && 0 <= t < rest_idx.len() ==> perm_out[m] != rest_idx[t],
            forall|k: int|
                0 <= k < orig.len() ==> out@.contains(#[trigger] orig[k]) || rest@.contains(
                    orig[k],
                ),
            forall|m1: int, m2: int|
                #![trigger out@[m1], out@[m2]]
                0 <= m1 < m2 < out@.len() ==> !segs_lt(
                    segs_view(out@[m2].path_segments@),
                    segs_view(out@[m1].path_segments@),
                ),
            forall|m: int, t: int|
                #![trigger out@[m], rest@[t]]
                0 <= m < out@.len() && 0 <= t < rest@.len() ==> !segs_lt(
                    segs_view(rest@[t].path_segments@),
                    segs_view(out@[m].path_segments@),
                ),
        decreases rest@.len(),
    {
        let mut tmin: usize = 0;
        let mut t: usize = 1;
        proof {
            lemma_segs_lt_trichotomy(
                segs_view(rest@[0].path_segments@),
                segs_view(rest@[0].path_segments@),
            );
        }
        while t < rest.len()
            invariant
                rest@.len() > 0,
                tmin < rest@.len(),
                tmin < t <= rest@.len() || (t <= rest@.len() && tmin == 0),
                forall|u: int|
                    0 <= u < t ==> !segs_lt(
                        segs_view((#[trigger] rest@[u]).path_segments@),
                        segs_view(rest@[tmin as int].path_segments@),
                    ),
            decreases rest@.len() - t,
        {
            let smaller: bool = path_lt(&rest[t].path_segments, &rest[tmin].path_segments);
            if smaller {
                proof {
                    assert forall|u: int|
                        0 <= u < t implies !segs_lt(
                        segs_view((#[trigger] rest@[u]).path_segments@),
                        segs_view(rest@[t as int].path_segments@),
                    ) by {
                        if segs_lt(
                            segs_view(rest@[u].path_segments@),
                            segs_view(rest@[t as int].path_segments@),
                        ) {
                            lemma_segs_lt_trans(
                                segs_view(rest@[u].path_segments@),
                                segs_view(rest@[t as int].path_segments@),
                                segs_view(rest@[tmin as int].path_segments@),
                            );
                        }
                    }
                    lemma_segs_lt_trichotomy(
                        segs_view(rest@[t as int].path_segments@),
                        segs_view(rest@[t as int].path_segments@),
                    );
                }
                tmin = t;
            }
            t = t + 1;
        }
        let ghost rest0 = rest@;
        let ghost rest_idx0 = rest_idx;
        let chosen = rest.remove(tmin);
        proof {
            perm_out = perm_out.push(rest_idx0[tmin as int]);
            rest_idx = rest_idx0.remove(tmin as int);
            assert(chosen == rest0[tmin as int]);
            assert forall|k: int|
                0 <= k < orig.len() implies out@.push(chosen).contains(#[trigger] orig[k])
                || rest@.contains(orig[k]) by {
                if out@.contains(orig[k]) {
                    let m = choose|m: int| 0 <= m < out@.len() && out@[m] == orig[k];
                    assert(out@.push(chosen)[m] == orig[k]);
                } else if rest0.contains(orig[k]) {
                    let t2 = choose|t2: int| 0 <= t2 < rest0.len() && rest0[t2] == orig[k];
                    if t2 == tmin {
                        assert(out@.push(chosen)[out@.len() as int] == orig[k]);
                    } else if t2 < tmin {
                        assert(rest@[t2] == rest0[t2]);
                    } else {
                        assert(rest@[t2 - 1] == rest0[t2]);
                    }
                }
            }
            assert forall|t2: int|
                0 <= t2 < rest@.len() implies !segs_lt(
                segs_view((#[trigger] rest@[t2]).path_segments@),
                segs_view(chosen.path_segments@),
            ) by {
                let t0: int = if t2 < tmin { t2 } else { t2 + 1 };
                assert(rest@[t2] == rest0[t0]);
            }
        }
        out.push(chosen);
    }
    proof {
        assert forall|k: int|
            0 <= k < orig.len() implies out@.contains(#[trigger] orig[k]) by {}
        assert(exists|perm: Seq<int>|
            #![trigger perm.len()]
            {
                &&& perm.len() == orig.len()
                &&& (forall|m: int| 0 <= m < perm.len() ==> 0 <= #[trigger] perm[m] < orig.len())
                &&& (forall|m1: int, m2: int|
                    #![trigger perm[m1], perm[m2]]
                    0 <= m1 < m2 < perm.len() ==> perm[m1] != perm[m2])
                &&& (forall|m: int| 0 <= m < perm.len() ==> #[trigger] out@[m] == orig[perm[m]])
            }) by {
            assert(perm_out.len() == orig.len());
            assert(forall|m: int| 0 <= m < perm_out.len() ==> #[trigger] out@[m] == orig[
                perm_out[m]]);
        }
    }
    out
}

/// Sort tree-listing rows by their path segments, ascending; same shape of
/// contract as the overlay-row sort.
pub fn sort_tree_rows(rows: Vec<FileTreeNode>) -> (r: Vec<FileTreeNode>)
    ensures
        r@.len() == rows@.len(),
        exists|perm: Seq<int>|
            #![trigger perm.len()]
            {
                &&& perm.len() == rows@.len()
                &&& (forall|m: int| 0 <= m < perm.len() ==> 0 <= #[trigger] perm[m] < rows@.len())
                &&& (forall|m1: int, m2: int|
                    #![trigger perm[m1], perm[m2]]
                    0 <= m1 < m2 < perm.len() ==> perm[m1] != perm[m2])
                &&& (forall|m: int| 0 <= m < perm.len() ==> #[trigger] r@[m] == rows@[perm[m]])
            },
        forall|k: int| 0 <= k < rows@.len() ==> r@.contains(#[trigger] rows@[k]),
        forall|m1: int, m2: int|
            #![trigger r@[m1], r@[m2]]
            0 <= m1 < m2 < r@.len() ==> !segs_lt(
                segs_view(r@[m2].path_segments@),
                segs_view(r@[m1].path_segments@),
            ),
{
    let ghost orig = rows@;
    let mut rest = rows;
    let mut out: Vec<FileTreeNode> = Vec::new();
    let ghost mut perm_out: Seq<int> = Seq::empty();
    let ghost mut rest_idx: Seq<int> = Seq::new(orig.len(), |t: int| t);
    while rest.len() > 0
        invariant
            out@.len() + rest@.len() == orig.len(),
            perm_out.len() == out@.len(),
            rest_idx.len() == rest@.len(),
            forall|m: int|
                0 <= m < out@.len() ==> 0 <= #[trigger] perm_out[m] < orig.len() && out@[m]
                    == orig[perm_out[m]],
            forall|t: int|
                0 <= t < rest@.len() ==> 0 <= #[trigger] rest_idx[t] < orig.len() && rest@[t]
                    == orig[rest_idx[t]],
            forall|m1: int, m2: int|
                #![trigger perm_out[m1], perm_out[m2]]
                0 <= m1 < m2 < perm_out.len() ==> perm_out[m1] != perm_out[m2],
            forall|t1: int, t2: int|
                #![trigger rest_idx[t1], rest_idx[t2]]
                0 <= t1 < t2 < rest_idx.len() ==> rest_idx[t1] != rest_idx[t2],
            forall|m: int, t: int|
                #![trigger perm_out[m], rest_idx[t]]
                0 <= m < perm_out.len() && 0 <= t < rest_idx.len() ==> perm_out[m] != rest_idx[t],
            forall|k: int|
                0 <= k < orig.len() ==> out@.contains(#[trigger] orig[k]) || rest@.contains(
                    orig[k],
                ),
            forall|m1: int, m2: int|
                #![trigger out@[m1], out@[m2]]
                0 <= m1 < m2 < out@.len() ==> !segs_lt(
                    segs_view(out@[m2].path_segments@),
                    segs_view(out@[m1].path_segments@),
                ),
            forall|m: int, t: int|
                #![trigger out@[m], rest@[t]]
                0 <= m < out@.len() && 0 <= t < rest@.len() ==> !segs_lt(
                    segs_view(rest@[t].path_segments@),
                    segs_view(out@[m].path_segments@),
                ),
        decreases rest@.len(),
    {
        let mut tmin: usize = 0;
        let mut t: usize = 1;
        proof {
            lemma_segs_lt_trichotomy(
                segs_view(rest@[0].path_segments@),
                segs_view(rest@[0].path_segments@),
            );
        }
        while t < rest.len()
            invariant
                rest@.len() > 0,
                tmin < rest@.len(),
                tmin < t <= rest@.len() || (t <= rest@.len() && tmin == 0),
                forall|u: int|
                    0 <= u < t ==> !segs_lt(
                        segs_view((#[trigger] rest@[u]).path_segments@),
                        segs_view(rest@[tmin as int].path_segments@),
                    ),
            decreases rest@.len() - t,
        {
            let smaller: bool = path_lt(&rest[t].path_segments, &rest[tmin].path_segments);
            if smaller {
                proof {
                    assert forall|u: int|
                        0 <= u < t implies !segs_lt(
                        segs_view((#[trigger] rest@[u]).path_segments@),
                        segs_view(rest@[t as int].path_segments@),
                    ) by {
                        if segs_lt(
                            segs_view(rest@[u].path_segments@),
                            segs_view(rest@[t as int].path_segments@),
                        ) {
                            lemma_segs_lt_trans(
                                segs_view(rest@[u].path_segments@),
                                segs_view(rest@[t as int].path_segments@),
                                segs_view(rest@[tmin as int].path_segments@),
                            );
                        }
                    }
                    lemma_segs_lt_trichotomy(
                        segs_view(rest@[t as int].path_segments@),
                        segs_view(rest@[t as int].path_segments@),
                    );
                }
                tmin = t;
            }
            t = t + 1;
        }
        let ghost rest0 = rest@;
        let ghost rest_idx0 = rest_idx;
        let chosen = rest.remove(tmin);
        proof {
            perm_out = perm_out.push(rest_idx0[tmin as int]);
            rest_idx = rest_idx0.remove(tmin as int);
            assert(chosen == rest0[tmin as int]);
            assert forall|k: int|
                0 <= k < orig.len() implies out@.push(chosen).contains(#[trigger] orig[k])
                || rest@.contains(orig[k]) by {
                if out@.contains(orig[k]) {
                    let m = choose|m: int| 0 <= m < out@.len() && out@[m] == orig[k];
                    assert(out@.push(chosen)[m] == orig[k]);
                } else if rest0.contains(orig[k]) {
                    let t2 = choose|t2: int| 0 <= t2 < rest0.len() && rest0[t2] == orig[k];
                    if t2 == tmin {
                        assert(out@.push(chosen)[out@.len() as int] == orig[k]);
                    } else if t2 < tmin {
                        assert(rest@[t2] == rest0[t2]);
                    } else {
                        assert(rest@[t2 - 1] == rest0[t2]);
                    }
                }
            }
            assert forall|t2: int|
                0 <= t2 < rest@.len() implies !segs_lt(
                segs_view((#[trigger] rest@[t2]).path_segments@),
                segs_view(chosen.path_segments@),
            ) by {
                let t0: int = if t2 < tmin { t2 } else { t2 + 1 };
                assert(rest@[t2] == rest0[t0]);
            }
        }
        out.push(chosen);
    }
    proof {
        assert(perm_out.len() == orig.len());
        assert(forall|m: int| 0 <= m < perm_out.len() ==> #[trigger] out@[m] == orig[perm_out[m]]);
    }
    out
}

} // verus!
