//! Splitting a query into `(name, rest)` variants on runs of separators.
use vstd::prelude::*;

verus! {

/// The characters of `s`, in order.
pub fn chars_of(s: &str) -> (r: Vec<char>)
    ensures
        r@ == s@,
{
    let mut cs: Vec<char> = Vec::new();
    for c in it: s.chars()
        invariant
            cs@ == it.seq().subrange(0, it.index() as int),
    {
        cs.push(c);
    }
    cs
}

/// A character that separates query words: space, comma or semicolon.
pub open spec fn is_separator(c: char) -> bool {
    c == ' ' || c == ',' || c == ';'
}

/// `s[start..end]` is a maximal run of separators.
pub open spec fn is_separator_run(s: Seq<char>, start: int, end: int) -> bool {
    &&& 0 <= start < end <= s.len()
    &&& forall|k: int| start <= k < end ==> is_separator(#[trigger] s[k])
    &&& start == 0 || !is_separator(s[start - 1])
    &&& end == s.len() || !is_separator(s[end])
}

/// A separator run with characters on both sides, which splits `s` into a non-empty
/// name and a non-empty rest.
pub open spec fn is_inner_run(s: Seq<char>, start: int, end: int) -> bool {
    &&& is_separator_run(s, start, end)
    &&& 0 < start
    &&& end < s.len()
}

/// `v` is the variant that the inner run `s[start..end]` gives.
pub open spec fn is_split_variant(s: Seq<char>, v: (Seq<char>, Option<Seq<char>>)) -> bool {
    &&& v.1 is Some
    &&& is_inner_run(s, v.0.len() as int, s.len() - v.1->0.len())
    &&& v.0 == s.subrange(0, v.0.len() as int)
    &&& v.1->0 == s.subrange(s.len() - v.1->0.len(), s.len() as int)
}

/// The variants as sequences of characters.
pub open spec fn variants_view(r: Seq<(&str, Option<&str>)>) -> Seq<(Seq<char>, Option<Seq<char>>)> {
    r.map_values(
        |v: (&str, Option<&str>)|
            (
                v.0@,
                match v.1 {
                    Some(x) => Some(x@),
                    None => None,
                },
            ),
    )
}

/// What `split_name_rest` returns for `s`: one `(name, Some(rest))` variant per inner
/// separator run, shortest name first, then `(s, None)`.
pub open spec fn is_split_of(s: Seq<char>, r: Seq<(Seq<char>, Option<Seq<char>>)>) -> bool {
    &&& r.len() >= 1
    &&& r.last() == (s, None::<Seq<char>>)
    &&& forall|k: int| 0 <= k < r.len() - 1 ==> is_split_variant(s, #[trigger] r[k])
    &&& forall|k1: int, k2: int|
        0 <= k1 < k2 < r.len() - 1 ==> (#[trigger] r[k1]).0.len() < (#[trigger] r[k2]).0.len()
    &&& forall|start: int, end: int|
        is_inner_run(s, start, end) ==> exists|k: int|
            0 <= k < r.len() - 1 && (#[trigger] r[k]).0.len() == start
}

/// Splits `input` into all `(name, rest)` variants on runs of ` ,;`, smallest name
/// first; splits with an empty name or an empty rest are left out. The last variant is
/// always `(input, None)`, the only one without a rest.
pub fn split_name_rest<'a>(input: &'a str) -> (r: Vec<(&'a str, Option<&'a str>)>)
    ensures
        is_split_of(input@, variants_view(r@)),
        r@.len() <= input@.len() + 1,
{
    let cs = chars_of(input);
    let n = cs.len();
    let ghost s = input@;
    let mut out: Vec<(&'a str, Option<&'a str>)> = Vec::new();
    let mut i: usize = 0;
    while i < n
        invariant
            cs@ == s,
            s == input@,
            n == s.len(),
            i <= n,
            out@.len() <= i,
            i == 0 || i == n || !is_separator(s[i - 1]) || !is_separator(s[i as int]),
            forall|k: int|
                0 <= k < out@.len() ==> is_split_variant(s, #[trigger] variants_view(out@)[k])
                    && variants_view(out@)[k].0.len() < i,
            forall|k1: int, k2: int|
                0 <= k1 < k2 < out@.len() ==> (#[trigger] variants_view(out@)[k1]).0.len() < (
                #[trigger] variants_view(out@)[k2]).0.len(),
            forall|start: int, end: int|
                is_inner_run(s, start, end) && start < i ==> exists|k: int|
                    0 <= k < out@.len() && (#[trigger] variants_view(out@)[k]).0.len() == start,
        decreases n - i,
    {
        if cs[i] == ' ' || cs[i] == ',' || cs[i] == ';' {
            let start = i;
            while i < n && (cs[i] == ' ' || cs[i] == ',' || cs[i] == ';')
                invariant
                    cs@ == s,
                    s == input@,
                    n == s.len(),
                    start < i || i == start,
                    i <= n,
                    forall|k: int| start <= k < i ==> is_separator(#[trigger] s[k]),
                decreases n - i,
            {
                i = i + 1;
            }
            assert(start < i);
            let ghost old_out = variants_view(out@);
            if start > 0 && i < n {
                let name = input.substring_char(0, start);
                let rest = input.substring_char(i, n);
                out.push((name, Some(rest)));
                proof {
                    assert(variants_view(out@) == old_out.push((name@, Some(rest@))));
                    assert(is_inner_run(s, start as int, i as int));
                }
            }
            proof {
                assert forall|st: int, en: int| is_inner_run(s, st, en) && st < i implies exists|
                    k: int,
                | 0 <= k < out@.len() && (#[trigger] variants_view(out@)[k]).0.len() == st by {
                    if st >= start {
                        if st > start {
                            assert(is_separator(s[st - 1]));
                        }
                        assert(st == start);
                        if start > 0 && i < n {
                            assert(en == i) by {
                                if en < i {
                                    assert(is_separator(s[en]));
                                } else if en > i {
                                    assert(!is_separator(s[i as int]));
                                }
                            }
                            assert(variants_view(out@)[out@.len() - 1].0.len() == st);
                        } else {
                            if i < n {
                                assert(false);
                            } else {
                                assert(en <= n);
                                assert(en == i) by {
                                    if en < i {
                                        assert(is_separator(s[en]));
                                    }
                                }
                            }
                        }
                    } else {
                        let k = choose|k: int|
                            0 <= k < old_out.len() && (#[trigger] old_out[k]).0.len() == st;
                        assert(variants_view(out@)[k] == old_out[k]);
                    }
                }
            }
        } else {
            i = i + 1;
        }
    }
    let ghost before = variants_view(out@);
    out.push((input, None));
    proof {
        assert(variants_view(out@) == before.push((s, None::<Seq<char>>)));
        assert forall|k: int| 0 <= k < variants_view(out@).len() - 1 implies is_split_variant(
            s,
            #[trigger] variants_view(out@)[k],
        ) by {
            assert(variants_view(out@)[k] == before[k]);
        }
        assert forall|k1: int, k2: int|
            0 <= k1 < k2 < variants_view(out@).len() - 1 implies (#[trigger] variants_view(
            out@,
        )[k1]).0.len() < (#[trigger] variants_view(out@)[k2]).0.len() by {
            assert(variants_view(out@)[k1] == before[k1]);
            assert(variants_view(out@)[k2] == before[k2]);
        }
        assert forall|start: int, end: int| is_inner_run(s, start, end) implies exists|k: int|
            0 <= k < variants_view(out@).len() - 1 && (#[trigger] variants_view(out@)[k]).0.len()
                == start by {
            let k = choose|k: int| 0 <= k < before.len() && (#[trigger] before[k]).0.len() == start;
            assert(variants_view(out@)[k] == before[k]);
        }
    }
    out
}

/// Every split ends with the whole input and no rest, and no other variant has an
/// empty name or an empty rest.
pub proof fn lemma_split_variants_non_empty(s: Seq<char>, r: Seq<(Seq<char>, Option<Seq<char>>)>)
    requires
        is_split_of(s, r),
    ensures
        r[r.len() - 1] == (s, None::<Seq<char>>),
        forall|k: int|
            0 <= k < r.len() - 1 ==> (#[trigger] r[k]).0.len() > 0 && r[k].1 is Some
                && r[k].1->0.len() > 0,
{
    assert forall|k: int| 0 <= k < r.len() - 1 implies (#[trigger] r[k]).0.len() > 0 && r[k].1 is Some
        && r[k].1->0.len() > 0 by {
        assert(is_split_variant(s, r[k]));
    }
}

/// The starts of the maximal separator runs of `s`.
pub open spec fn run_starts(s: Seq<char>) -> Set<int> {
    Set::new(|st: int| exists|en: int| is_separator_run(s, st, en))
}

/// On an input that neither starts nor ends with a separator, a split holds one variant
/// per run of separators, plus the final `(input, None)`.
pub proof fn lemma_split_count(s: Seq<char>, r: Seq<(Seq<char>, Option<Seq<char>>)>)
    requires
        is_split_of(s, r),
        s.len() == 0 || (!is_separator(s[0]) && !is_separator(s[s.len() - 1])),
    ensures
        run_starts(s).finite(),
        r.len() == run_starts(s).len() + 1,
{
    let lens = Seq::new((r.len() - 1) as nat, |k: int| r[k].0.len() as int);
    assert(lens.no_duplicates()) by {
        assert forall|i: int, j: int| 0 <= i < lens.len() && 0 <= j < lens.len() && i != j implies lens[i]
            != lens[j] by {
            if i < j {
                assert(r[i].0.len() < r[j].0.len());
            } else {
                assert(r[j].0.len() < r[i].0.len());
            }
        }
    }
    lens.unique_seq_to_set();
    assert forall|x: int| lens.to_set().contains(x) <==> run_starts(s).contains(x) by {
        if lens.to_set().contains(x) {
            let k = choose|k: int| 0 <= k < lens.len() && lens[k] == x;
            assert(is_split_variant(s, r[k]));
            let en = s.len() - r[k].1->0.len();
            assert(is_separator_run(s, x, en));
        }
        if run_starts(s).contains(x) {
            let en = choose|en: int| is_separator_run(s, x, en);
            if x == 0 {
                assert(is_separator(s[0]));
            }
            if en == s.len() {
                assert(is_separator(s[en - 1]));
            }
            assert(is_inner_run(s, x, en));
            let k = choose|k: int| 0 <= k < r.len() - 1 && (#[trigger] r[k]).0.len() == x;
            assert(lens[k] == x);
        }
    }
    assert(lens.to_set() =~= run_starts(s));
}

} // verus!
