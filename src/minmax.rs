//! Min/max summaries of monthly values and their reduction.
//!
//! Values are climate readings held in tenths of their unit (`i32`), so every
//! operation here is exact.
use vstd::prelude::*;

verus! {

/// `x` is the smallest element of `s`.
pub open spec fn is_min_of(s: Seq<i32>, x: i32) -> bool {
    &&& s.contains(x)
    &&& forall|i: int| 0 <= i < s.len() ==> x <= #[trigger] s[i]
}

/// `x` is the largest element of `s`.
pub open spec fn is_max_of(s: Seq<i32>, x: i32) -> bool {
    &&& s.contains(x)
    &&& forall|i: int| 0 <= i < s.len() ==> #[trigger] s[i] <= x
}

/// The values that are present, in order.
pub open spec fn present_values(s: Seq<Option<i32>>) -> Seq<i32>
    decreases s.len(),
{
    if s.len() == 0 {
        Seq::empty()
    } else {
        let rest = present_values(s.drop_last());
        match s.last() {
            Some(v) => rest.push(v),
            None => rest,
        }
    }
}

/// The pairwise reduction of two (min, max) pairs.
pub open spec fn join_minmax(a: (i32, i32), b: (i32, i32)) -> (i32, i32) {
    (if a.0 < b.0 { a.0 } else { b.0 }, if a.1 > b.1 { a.1 } else { b.1 })
}

/// The pairwise reduction of two optional (min, max) pairs: `None` only when both are.
pub open spec fn join_minmax_maybe(a: Option<(i32, i32)>, b: Option<(i32, i32)>) -> Option<(i32, i32)> {
    match (a, b) {
        (Some(x), Some(y)) => Some(join_minmax(x, y)),
        (Some(_), None) => a,
        _ => b,
    }
}

/// Returns (min, max) of a non-empty slice.
pub fn minmax(values: &[i32]) -> (r: (i32, i32))
    requires
        values@.len() > 0,
    ensures
        is_min_of(values@, r.0),
        is_max_of(values@, r.1),
{
    let mut min = values[0];
    let mut max = values[0];
    let ghost mut min_at: int = 0;
    let ghost mut max_at: int = 0;
    let mut k: usize = 1;
    while k < values.len()
        invariant
            1 <= k <= values@.len(),
            0 <= min_at < k,
            0 <= max_at < k,
            values@[min_at] == min,
            values@[max_at] == max,
            forall|i: int| 0 <= i < k ==> min <= #[trigger] values@[i] <= max,
        decreases values@.len() - k,
    {
        let value = values[k];
        if value < min {
            min = value;
            proof {
                min_at = k as int;
            }
        } else if value > max {
            max = value;
            proof {
                max_at = k as int;
            }
        }
        k = k + 1;
    }
    assert(values@[min_at] == min);
    assert(values@[max_at] == max);
    (min, max)
}

/// Returns `Some((min, max))` over the present values, or `None` when no value is present.
pub fn minmax_maybe(values: &[Option<i32>]) -> (r: Option<(i32, i32)>)
    ensures
        r is None <==> present_values(values@).len() == 0,
        r matches Some(p) ==> is_min_of(present_values(values@), p.0) && is_max_of(
            present_values(values@),
            p.1,
        ),
{
    let mut some_values: Vec<i32> = Vec::new();
    let mut k: usize = 0;
    while k < values.len()
        invariant
            k <= values@.len(),
            some_values@ == present_values(values@.subrange(0, k as int)),
        decreases values@.len() - k,
    {
        proof {
            assert(values@.subrange(0, k as int + 1).drop_last() == values@.subrange(0, k as int));
        }
        if let Some(v) = values[k] {
            some_values.push(v);
        }
        k = k + 1;
    }
    assert(values@.subrange(0, values@.len() as int) == values@);
    if some_values.len() == 0 {
        None
    } else {
        Some(minmax(some_values.as_slice()))
    }
}

/// Reduces two (min, max) pairs into one.
pub fn reduce_minmax(a: (i32, i32), b: (i32, i32)) -> (r: (i32, i32))
    ensures
        r == join_minmax(a, b),
{
    let min = if a.0 < b.0 { a.0 } else { b.0 };
    let max = if a.1 > b.1 { a.1 } else { b.1 };
    (min, max)
}

/// For two `None` returns `None`, for one `Some` returns it, for two reduces them.
pub fn reduce_minmax_maybe(a_maybe: Option<(i32, i32)>, b_maybe: Option<(i32, i32)>) -> (r: Option<(i32, i32)>)
    ensures
        r == join_minmax_maybe(a_maybe, b_maybe),
{
    match (a_maybe, b_maybe) {
        (Some(a), Some(b)) => Some(reduce_minmax(a, b)),
        (Some(_), None) => a_maybe,
        _ => b_maybe,
    }
}

/// The reduction of (min, max) pairs gives the same result whatever the order of its operands.
pub proof fn lemma_join_minmax_commutative(a: (i32, i32), b: (i32, i32))
    ensures
        join_minmax(a, b) == join_minmax(b, a),
{
}

/// The reduction of (min, max) pairs gives the same result whatever the grouping.
pub proof fn lemma_join_minmax_associative(a: (i32, i32), b: (i32, i32), c: (i32, i32))
    ensures
        join_minmax(join_minmax(a, b), c) == join_minmax(a, join_minmax(b, c)),
{
}

/// The reduction of optional pairs gives the same result whatever the order of its operands.
pub proof fn lemma_join_minmax_maybe_commutative(a: Option<(i32, i32)>, b: Option<(i32, i32)>)
    ensures
        join_minmax_maybe(a, b) == join_minmax_maybe(b, a),
{
}

/// The reduction of optional pairs gives the same result whatever the grouping.
pub proof fn lemma_join_minmax_maybe_associative(
    a: Option<(i32, i32)>,
    b: Option<(i32, i32)>,
    c: Option<(i32, i32)>,
)
    ensures
        join_minmax_maybe(join_minmax_maybe(a, b), c) == join_minmax_maybe(
            a,
            join_minmax_maybe(b, c),
        ),
{
}


/// The smallest element of a non-empty sequence.
pub open spec fn seq_min(s: Seq<i32>) -> i32
    decreases s.len(),
{
    if s.len() <= 1 {
        s[0]
    } else {
        let m = seq_min(s.drop_last());
        if s.last() < m {
            s.last()
        } else {
            m
        }
    }
}

/// The largest element of a non-empty sequence.
pub open spec fn seq_max(s: Seq<i32>) -> i32
    decreases s.len(),
{
    if s.len() <= 1 {
        s[0]
    } else {
        let m = seq_max(s.drop_last());
        if s.last() > m {
            s.last()
        } else {
            m
        }
    }
}

/// `seq_min` and `seq_max` are the minimum and the maximum.
pub proof fn lemma_seq_min_max(s: Seq<i32>)
    requires
        s.len() > 0,
    ensures
        is_min_of(s, seq_min(s)),
        is_max_of(s, seq_max(s)),
    decreases s.len(),
{
    if s.len() > 1 {
        let t = s.drop_last();
        lemma_seq_min_max(t);
        let wmin = choose|w: int| 0 <= w < t.len() && t[w] == seq_min(t);
        let wmax = choose|w: int| 0 <= w < t.len() && t[w] == seq_max(t);
        assert(s[wmin] == seq_min(t));
        assert(s[wmax] == seq_max(t));
        assert(s[s.len() - 1] == s.last());
        assert forall|i: int| 0 <= i < s.len() implies seq_min(s) <= #[trigger] s[i] <= seq_max(s) by {
            if i < s.len() - 1 {
                assert(t[i] == s[i]);
            }
        }
    } else {
        assert(s[0] == seq_min(s));
    }
}

/// The minimum and the maximum of a sequence are unique.
pub proof fn lemma_min_max_unique(s: Seq<i32>, lo: i32, hi: i32)
    requires
        s.len() > 0,
        is_min_of(s, lo),
        is_max_of(s, hi),
    ensures
        lo == seq_min(s),
        hi == seq_max(s),
{
    lemma_seq_min_max(s);
    let a = choose|w: int| 0 <= w < s.len() && s[w] == lo;
    let b = choose|w: int| 0 <= w < s.len() && s[w] == seq_min(s);
    assert(lo <= s[b] && seq_min(s) <= s[a]);
    let c = choose|w: int| 0 <= w < s.len() && s[w] == hi;
    let d = choose|w: int| 0 <= w < s.len() && s[w] == seq_max(s);
    assert(s[d] <= hi && s[c] <= seq_max(s));
}

/// A (min, max) pair remapped into a global range: the relative minimum is
/// `min / span` and the relative maximum `max / span`.
#[derive(Clone, Copy, Debug, PartialEq, Eq)]
pub struct RelativeMinMax {
    pub min: i64,
    pub max: i64,
    pub span: i64,
}

/// `arg` relative to `range`: `((arg.0 - range.0) / span, (arg.1 - range.0) / span)`
/// with `span = range.1 - range.0`.
pub open spec fn relative_of(arg: (i32, i32), range: (i32, i32)) -> RelativeMinMax {
    RelativeMinMax {
        min: (arg.0 - range.0) as i64,
        max: (arg.1 - range.0) as i64,
        span: (range.1 - range.0) as i64,
    }
}

/// Returns `arg` relative to `range`, whose span must be positive.
pub fn get_relative_minmax(arg: (i32, i32), range: (i32, i32)) -> (r: RelativeMinMax)
    requires
        range.0 < range.1,
    ensures
        r == relative_of(arg, range),
        r.min == arg.0 - range.0,
        r.max == arg.1 - range.0,
        r.span == range.1 - range.0,
        r.span > 0,
{
    let span = range.1 as i64 - range.0 as i64;
    RelativeMinMax { min: arg.0 as i64 - range.0 as i64, max: arg.1 as i64 - range.0 as i64, span }
}

/// A range taken relative to itself is `(0, 1)`: its relative minimum is 0 and its
/// relative maximum equals the span.
pub proof fn lemma_relative_to_itself(range: (i32, i32))
    requires
        range.0 < range.1,
    ensures
        relative_of(range, range).min == 0,
        relative_of(range, range).max == relative_of(range, range).span,
        relative_of(range, range).span > 0,
{
}

/// The distance between two relative pairs of one variable, over their common span:
/// `|a.min - b.min| + |a.max - b.max|`.
pub open spec fn diff_spec(a: RelativeMinMax, b: RelativeMinMax) -> int {
    let d0 = a.min - b.min;
    let d1 = a.max - b.max;
    (if d0 >= 0 { d0 } else { -d0 }) + (if d1 >= 0 { d1 } else { -d1 })
}

/// Relative pairs of one variable: both lie within the 32-bit range of raw values.
pub open spec fn in_value_range(a: RelativeMinMax) -> bool {
    &&& -0x1_0000_0000 <= a.min <= 0x1_0000_0000
    &&& -0x1_0000_0000 <= a.max <= 0x1_0000_0000
}

/// The numerator, over the common span, of the summed absolute difference between two
/// relative pairs.
pub fn diff_minmax(a: RelativeMinMax, b: RelativeMinMax) -> (r: i64)
    requires
        in_value_range(a),
        in_value_range(b),
    ensures
        r == diff_spec(a, b),
{
    let d0 = a.min - b.min;
    let d1 = a.max - b.max;
    (if d0 >= 0 { d0 } else { -d0 }) + (if d1 >= 0 { d1 } else { -d1 })
}

/// `diff_minmax` when both are present, `None` otherwise.
pub fn diff_minmax_maybe(a: Option<RelativeMinMax>, b: Option<RelativeMinMax>) -> (r: Option<i64>)
    requires
        a matches Some(x) ==> in_value_range(x),
        b matches Some(y) ==> in_value_range(y),
    ensures
        r == (match (a, b) {
            (Some(x), Some(y)) => Some(diff_spec(x, y) as i64),
            _ => None::<i64>,
        }),
{
    match (a, b) {
        (Some(x), Some(y)) => Some(diff_minmax(x, y)),
        _ => None,
    }
}

} // verus!
