use vstd::prelude::*;

verus! {

/// The largest numerator magnitude accepted by the midpoint operation.
pub const MID_NUM_BOUND: i64 = 0x7fff_ffff;

/// The largest denominator accepted by the midpoint operation.
pub const MID_DEN_BOUND: u64 = 0x7fff_ffff;

/// A pack's priority: an exact rational number `num / den` with `den >= 1`.
///
/// Priorities are an opaque totally-ordered key. A larger value dominates
/// during overlay resolution. Keeping the value as a rational (rather than
/// an integer) lets a new priority be slotted strictly between any two
/// existing ones without disturbing their order.
#[derive(Clone, Copy, Debug)]
pub struct Priority {
    pub num: i64,
    pub den: u64,
}

impl Priority {
    /// Validity: the denominator is positive, so the rational is defined.
    pub open spec fn wf(self) -> bool {
        self.den >= 1
    }

    /// `a < b` as rationals: `a.num / a.den < b.num / b.den`, cross-multiplied.
    pub open spec fn spec_lt(a: Priority, b: Priority) -> bool {
        a.num * b.den < b.num * a.den
    }

    /// `a` and `b` denote the same rational value.
    pub open spec fn same_value(a: Priority, b: Priority) -> bool {
        a.num * b.den == b.num * a.den
    }

    /// The integer priority `n`.
    pub fn from_int(n: i64) -> (r: Priority)
        ensures
            r.num == n,
            r.den == 1,
            r.wf(),
    {
        Priority { num: n, den: 1 }
    }

    /// Strict comparison of two priorities as rational numbers.
    pub fn lt(a: &Priority, b: &Priority) -> (r: bool)
        requires
            a.wf(),
            b.wf(),
        ensures
            r == Priority::spec_lt(*a, *b),
    {
        proof {
            lemma_cross_product_bounds(a.num as int, b.den as int);
            lemma_cross_product_bounds(b.num as int, a.den as int);
        }
        (a.num as i128) * (b.den as i128) < (b.num as i128) * (a.den as i128)
    }

    /// A priority strictly between `a` and `b`: their exact midpoint.
    /// It is owed whenever both operands' numbers lie within the midpoint
    /// bounds; `None` only outside them, where the midpoint's numbers would
    /// leave the machine range and slotting in needs a prior compaction.
    pub fn between(a: &Priority, b: &Priority) -> (r: Option<Priority>)
        requires
            a.wf(),
            b.wf(),
            Priority::spec_lt(*a, *b),
        ensures
            r matches Some(m) ==> m.wf() && Priority::spec_lt(*a, m) && Priority::spec_lt(m, *b),
            (-MID_NUM_BOUND <= a.num <= MID_NUM_BOUND && -MID_NUM_BOUND <= b.num <= MID_NUM_BOUND
                && a.den <= MID_DEN_BOUND && b.den <= MID_DEN_BOUND) ==> r is Some,
    {
        let bound_num: i64 = MID_NUM_BOUND;
        let bound_den: u64 = MID_DEN_BOUND;
        if a.num > bound_num || a.num < -bound_num || b.num > bound_num || b.num < -bound_num
            || a.den > bound_den || b.den > bound_den {
            return None;
        }
        let (an, ad) = (a.num as i128, a.den as i128);
        let (bn, bd) = (b.num as i128, b.den as i128);
        proof {
            assert(-0x4000_0000_0000_0000 <= an * bd <= 0x4000_0000_0000_0000) by (nonlinear_arith)
                requires -0x7fff_ffff <= an <= 0x7fff_ffff, 1 <= bd <= 0x7fff_ffff,
            ;
            assert(-0x4000_0000_0000_0000 <= bn * ad <= 0x4000_0000_0000_0000) by (nonlinear_arith)
                requires -0x7fff_ffff <= bn <= 0x7fff_ffff, 1 <= ad <= 0x7fff_ffff,
            ;
            assert(1 <= 2 * ad * bd <= 0x8000_0000_0000_0000) by (nonlinear_arith)
                requires 1 <= ad <= 0x7fff_ffff, 1 <= bd <= 0x7fff_ffff,
            ;
        }
        let num = an * bd + bn * ad;
        let den = 2 * ad * bd;
        let m = Priority { num: num as i64, den: den as u64 };
        proof {
            let (mn, md) = (m.num as int, m.den as int);
            let (ani, adi) = (a.num as int, a.den as int);
            let (bni, bdi) = (b.num as int, b.den as int);
            assert(mn == ani * bdi + bni * adi && md == 2 * adi * bdi);
            assert(ani * md < mn * adi) by (nonlinear_arith)
                requires
                    ani * bdi < bni * adi,
                    adi >= 1,
                    bdi >= 1,
                    mn == ani * bdi + bni * adi,
                    md == 2 * adi * bdi,
            ;
            assert(mn * bdi < bni * md) by (nonlinear_arith)
                requires
                    ani * bdi < bni * adi,
                    adi >= 1,
                    bdi >= 1,
                    mn == ani * bdi + bni * adi,
                    md == 2 * adi * bdi,
            ;
        }
        Some(m)
    }

    /// Value equality of two priorities as rational numbers.
    pub fn eq_value(a: &Priority, b: &Priority) -> (r: bool)
        requires
            a.wf(),
            b.wf(),
        ensures
            r == Priority::same_value(*a, *b),
    {
        proof {
            lemma_cross_product_bounds(a.num as int, b.den as int);
            lemma_cross_product_bounds(b.num as int, a.den as int);
        }
        (a.num as i128) * (b.den as i128) == (b.num as i128) * (a.den as i128)
    }
}

/// The cross product of an `i64` numerator and a `u64` denominator fits in `i128`.
pub proof fn lemma_cross_product_bounds(n: int, d: int)
    requires
        i64::MIN <= n <= i64::MAX,
        0 <= d <= u64::MAX,
    ensures
        i128::MIN <= n * d <= i128::MAX,
{
    assert(i128::MIN <= n * d <= i128::MAX) by (nonlinear_arith)
        requires
            -0x8000_0000_0000_0000 <= n <= 0x7fff_ffff_ffff_ffff,
            0 <= d <= 0xffff_ffff_ffff_ffff,
    ;
}

/// Exactly one of `a < b`, `b < a`, `a == b` holds (as rational values).
pub proof fn lemma_priority_trichotomy(a: Priority, b: Priority)
    ensures
        Priority::spec_lt(a, b) || Priority::spec_lt(b, a) || Priority::same_value(a, b),
        Priority::spec_lt(a, b) ==> !Priority::spec_lt(b, a) && !Priority::same_value(a, b),
        Priority::same_value(a, b) ==> !Priority::spec_lt(a, b) && !Priority::spec_lt(b, a),
{
}

/// Strict rational order is transitive.
pub proof fn lemma_priority_lt_trans(a: Priority, b: Priority, c: Priority)
    requires
        a.wf(),
        b.wf(),
        c.wf(),
        Priority::spec_lt(a, b),
        Priority::spec_lt(b, c),
    ensures
        Priority::spec_lt(a, c),
{
    let (an, ad) = (a.num as int, a.den as int);
    let (bn, bd) = (b.num as int, b.den as int);
    let (cn, cd) = (c.num as int, c.den as int);
    assert(an * bd * cd < bn * ad * cd) by (nonlinear_arith)
        requires an * bd < bn * ad, cd >= 1,
    ;
    assert(bn * cd * ad < cn * bd * ad) by (nonlinear_arith)
        requires bn * cd < cn * bd, ad >= 1,
    ;
    assert(bn * ad * cd == bn * cd * ad) by (nonlinear_arith);
    assert(an * bd * cd < cn * bd * ad) by {
        assert(an * bd * cd < bn * ad * cd);
        assert(bn * ad * cd == bn * cd * ad);
        assert(bn * cd * ad < cn * bd * ad);
    }
    assert(an * cd < cn * ad) by (nonlinear_arith)
        requires an * bd * cd < cn * bd * ad, bd >= 1,
    ;
}

/// Equal rational values relate to every third value in the same way.
pub proof fn lemma_priority_same_value_lt(a: Priority, b: Priority, c: Priority)
    requires
        a.wf(),
        b.wf(),
        c.wf(),
        Priority::same_value(a, b),
    ensures
        Priority::spec_lt(a, c) == Priority::spec_lt(b, c),
        Priority::spec_lt(c, a) == Priority::spec_lt(c, b),
        Priority::same_value(a, c) == Priority::same_value(b, c),
{
    let (an, ad) = (a.num as int, a.den as int);
    let (bn, bd) = (b.num as int, b.den as int);
    let (cn, cd) = (c.num as int, c.den as int);
    assert((an * cd < cn * ad) == (bn * cd < cn * bd)) by (nonlinear_arith)
        requires an * bd == bn * ad, ad >= 1, bd >= 1, cd >= 1,
    ;
    assert((cn * ad < an * cd) == (cn * bd < bn * cd)) by (nonlinear_arith)
        requires an * bd == bn * ad, ad >= 1, bd >= 1, cd >= 1,
    ;
    assert((an * cd == cn * ad) == (bn * cd == cn * bd)) by (nonlinear_arith)
        requires an * bd == bn * ad, ad >= 1, bd >= 1, cd >= 1,
    ;
}

} // verus!
