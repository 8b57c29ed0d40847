//! Ranking of scored candidates: keep those above a threshold, order them by score
//! (highest first, ties by ascending id) and cut out one page.
//!
//! A score enters as an order-preserving `u32` key (a larger key is a larger score), so
//! ranking compares integers only.
use vstd::prelude::*;

verus! {

broadcast use vstd::seq_lib::group_to_multiset_ensures;

/// `x` may come before `y`: a higher key, or the same key and an id no larger.
pub open spec fn ranks_before(x: (u32, usize), y: (u32, usize)) -> bool {
    x.0 > y.0 || (x.0 == y.0 && x.1 <= y.1)
}

/// Highest key first, ties by ascending id.
pub open spec fn is_ranked(s: Seq<(u32, usize)>) -> bool {
    forall|i: int, j: int| 0 <= i < j < s.len() ==> ranks_before(#[trigger] s[i], #[trigger] s[j])
}

/// The candidates whose key is above `min_key`, in input order.
pub open spec fn survivors(c: Seq<(u32, usize)>, min_key: u32) -> Seq<(u32, usize)>
    decreases c.len(),
{
    if c.len() == 0 {
        Seq::empty()
    } else {
        let rest = survivors(c.drop_last(), min_key);
        if c.last().0 > min_key {
            rest.push(c.last())
        } else {
            rest
        }
    }
}

/// Items `start..start + max` of `s`, as far as `s` reaches.
pub open spec fn page_of(s: Seq<(u32, usize)>, start: int, max: int) -> Seq<(u32, usize)> {
    let lo = if start < s.len() { start } else { s.len() as int };
    let hi = if start + max < s.len() { start + max } else { s.len() as int };
    s.subrange(lo, hi)
}

proof fn lemma_survivors_above(c: Seq<(u32, usize)>, min_key: u32)
    ensures
        forall|k: int| 0 <= k < survivors(c, min_key).len() ==> (#[trigger] survivors(c, min_key)[k]).0 > min_key,
    decreases c.len(),
{
    if c.len() > 0 {
        let rest = survivors(c.drop_last(), min_key);
        lemma_survivors_above(c.drop_last(), min_key);
        assert forall|k: int| 0 <= k < survivors(c, min_key).len() implies (#[trigger] survivors(
            c,
            min_key,
        )[k]).0 > min_key by {
            if k < rest.len() {
                assert(survivors(c, min_key)[k] == rest[k]);
            }
        }
    }
}

/// Merges two ranked lists into one.
fn merge(left: &Vec<(u32, usize)>, right: &Vec<(u32, usize)>) -> (r: Vec<(u32, usize)>)
    requires
        is_ranked(left@),
        is_ranked(right@),
    ensures
        is_ranked(r@),
        r@.to_multiset() == left@.to_multiset().add(right@.to_multiset()),
{
    let mut out: Vec<(u32, usize)> = Vec::new();
    let mut i: usize = 0;
    let mut j: usize = 0;
    while i < left.len() || j < right.len()
        invariant
            i <= left@.len(),
            j <= right@.len(),
            is_ranked(left@),
            is_ranked(right@),
            is_ranked(out@),
            out@.to_multiset() == left@.subrange(0, i as int).to_multiset().add(
                right@.subrange(0, j as int).to_multiset(),
            ),
            out@.len() > 0 && i < left@.len() ==> ranks_before(out@.last(), left@[i as int]),
            out@.len() > 0 && j < right@.len() ==> ranks_before(out@.last(), right@[j as int]),
        decreases left@.len() + right@.len() - i - j,
    {
        let take_left = j >= right.len() || (i < left.len() && (left[i].0 > right[j].0 || (left[i].0
            == right[j].0 && left[i].1 <= right[j].1)));
        let ghost before = out@;
        if take_left {
            let x = left[i];
            out.push(x);
            proof {
                assert(left@.subrange(0, i as int + 1) == left@.subrange(0, i as int).push(x));
                assert forall|a: int, b: int| 0 <= a < b < out@.len() implies ranks_before(
                    #[trigger] out@[a],
                    #[trigger] out@[b],
                ) by {
                    if b == out@.len() - 1 && a < b - 1 {
                        assert(ranks_before(before[a], before.last()));
                    }
                }
                if i + 1 < left@.len() {
                    assert(ranks_before(left@[i as int], left@[i + 1]));
                }
            }
            i = i + 1;
        } else {
            let x = right[j];
            out.push(x);
            proof {
                assert(right@.subrange(0, j as int + 1) == right@.subrange(0, j as int).push(x));
                assert forall|a: int, b: int| 0 <= a < b < out@.len() implies ranks_before(
                    #[trigger] out@[a],
                    #[trigger] out@[b],
                ) by {
                    if b == out@.len() - 1 && a < b - 1 {
                        assert(ranks_before(before[a], before.last()));
                    }
                }
                if j + 1 < right@.len() {
                    assert(ranks_before(right@[j as int], right@[j + 1]));
                }
            }
            j = j + 1;
        }
    }
    assert(left@.subrange(0, left@.len() as int) == left@);
    assert(right@.subrange(0, right@.len() as int) == right@);
    out
}

/// Ranks a list: highest key first, ties by ascending id.
fn sort_ranked(v: Vec<(u32, usize)>) -> (r: Vec<(u32, usize)>)
    ensures
        is_ranked(r@),
        r@.to_multiset() == v@.to_multiset(),
    decreases v@.len(),
{
    if v.len() <= 1 {
        return v;
    }
    let ghost whole = v@;
    let mut left = v;
    let mid = left.len() / 2;
    let right = left.split_off(mid);
    proof {
        assert(whole == left@ + right@);
        vstd::seq_lib::lemma_multiset_commutative(left@, right@);
    }
    let sorted_left = sort_ranked(left);
    let sorted_right = sort_ranked(right);
    merge(&sorted_left, &sorted_right)
}

/// Keeps the candidates whose key is above `min_key`, ranks them (highest key first,
/// ties by ascending id) and returns items `start_index..start_index + max_items` of
/// that ranking.
pub fn rank_page(candidates: &Vec<(u32, usize)>, min_key: u32, start_index: usize, max_items: usize) -> (r: Vec<(u32, usize)>)
    ensures
        forall|k: int| 0 <= k < r@.len() ==> (#[trigger] r@[k]).0 > min_key,
        is_ranked(r@),
        exists|ranked: Seq<(u32, usize)>|
            is_ranked(ranked) && ranked.to_multiset() == survivors(candidates@, min_key).to_multiset()
                && r@ == page_of(ranked, start_index as int, max_items as int),
{
    let mut kept: Vec<(u32, usize)> = Vec::new();
    let mut i: usize = 0;
    while i < candidates.len()
        invariant
            i <= candidates@.len(),
            kept@ == survivors(candidates@.subrange(0, i as int), min_key),
        decreases candidates@.len() - i,
    {
        proof {
            assert(candidates@.subrange(0, i as int + 1).drop_last() == candidates@.subrange(0, i as int));
        }
        if candidates[i].0 > min_key {
            kept.push(candidates[i]);
        }
        i = i + 1;
    }
    assert(candidates@.subrange(0, candidates@.len() as int) == candidates@);
    let ranked = sort_ranked(kept);

    let len = ranked.len();
    let lo = if start_index < len { start_index } else { len };
    let hi = if max_items < len - lo { lo + max_items } else { len };
    let mut page: Vec<(u32, usize)> = Vec::new();
    let mut p: usize = lo;
    while p < hi
        invariant
            lo <= p <= hi,
            hi <= ranked@.len(),
            page@ == ranked@.subrange(lo as int, p as int),
        decreases hi - p,
    {
        page.push(ranked[p]);
        assert(ranked@.subrange(lo as int, p as int + 1) == ranked@.subrange(lo as int, p as int).push(ranked@[p as int]));
        p = p + 1;
    }
    proof {
        assert(page@ == page_of(ranked@, start_index as int, max_items as int));
        lemma_survivors_above(candidates@, min_key);
        assert forall|k: int| 0 <= k < page@.len() implies (#[trigger] page@[k]).0 > min_key by {
            let x = page@[k];
            assert(x == ranked@[lo + k]);
            assert(ranked@.to_multiset().contains(x));
            assert(survivors(candidates@, min_key).to_multiset().contains(x));
        }
        assert forall|a: int, b: int| 0 <= a < b < page@.len() implies ranks_before(
            #[trigger] page@[a],
            #[trigger] page@[b],
        ) by {
            assert(page@[a] == ranked@[lo + a] && page@[b] == ranked@[lo + b]);
        }
    }
    page
}

} // verus!
