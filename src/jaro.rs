//! Jaro and Jaro-Winkler similarity over character sequences.
//!
//! The kernel returns the exact integer counts that define the similarity
//! (matches, transpositions, lengths and the Winkler prefix); the similarity
//! itself is the rational number that `value_num / value_den` denotes.
use vstd::prelude::*;

verus! {

/// How far from the diagonal a match may be searched: `max(|a|,|b|)/2 - 1`, clamped at 0.
pub open spec fn search_extension(a_len: int, b_len: int) -> int {
    let longest = if a_len > b_len { a_len } else { b_len };
    if longest / 2 >= 1 {
        longest / 2 - 1
    } else {
        0
    }
}

/// First index of the search window of row `i`.
pub open spec fn window_start(i: int, ext: int) -> int {
    if i >= ext {
        i - ext
    } else {
        0
    }
}

/// One past the last index of the search window of row `i`.
pub open spec fn window_end(i: int, ext: int, b_len: int) -> int {
    if i + 1 + ext < b_len {
        i + 1 + ext
    } else {
        b_len
    }
}

/// The first `j` in `[j, end)` with `b[j] == c` that is not yet taken.
pub open spec fn first_free_match(c: char, b: Seq<char>, taken: Seq<bool>, j: int, end: int) -> Option<int>
    decreases end - j,
{
    if j >= end {
        None
    } else if b[j] == c && !taken[j] {
        Some(j)
    } else {
        first_free_match(c, b, taken, j + 1, end)
    }
}

/// The flags of `a`, the flags of `b` and the number of matches after the greedy
/// matching has scanned the first `i` characters of `a`.
pub open spec fn greedy_matching(a: Seq<char>, b: Seq<char>, i: nat) -> (Seq<bool>, Seq<bool>, nat)
    decreases i,
{
    if i == 0 {
        (Seq::new(a.len(), |k: int| false), Seq::new(b.len(), |k: int| false), 0)
    } else {
        let prev = greedy_matching(a, b, (i - 1) as nat);
        let ext = search_extension(a.len() as int, b.len() as int);
        let row = i - 1;
        match first_free_match(
            a[row],
            b,
            prev.1,
            window_start(row, ext),
            window_end(row, ext, b.len() as int),
        ) {
            Some(j) => (prev.0.update(row, true), prev.1.update(j, true), prev.2 + 1),
            None => prev,
        }
    }
}

/// The characters of `s[..n]` whose flag is set, in order.
pub open spec fn flagged(s: Seq<char>, f: Seq<bool>, n: int) -> Seq<char>
    decreases n,
{
    if n <= 0 {
        Seq::empty()
    } else if f[n - 1] {
        flagged(s, f, n - 1).push(s[n - 1])
    } else {
        flagged(s, f, n - 1)
    }
}

/// Number of positions where two sequences of equal length differ.
pub open spec fn mismatches(x: Seq<char>, y: Seq<char>) -> nat
    decreases x.len(),
{
    if x.len() == 0 || y.len() == 0 {
        0
    } else {
        mismatches(x.drop_last(), y.drop_last()) + if x.last() != y.last() {
            1nat
        } else {
            0nat
        }
    }
}

/// Number of matching characters of `a` and `b`.
pub open spec fn jaro_matches(a: Seq<char>, b: Seq<char>) -> nat {
    greedy_matching(a, b, a.len()).2
}

/// Number of matched characters of `a` that differ from the matched character of `b`
/// at the same rank.
pub open spec fn jaro_transpositions(a: Seq<char>, b: Seq<char>) -> nat {
    let st = greedy_matching(a, b, a.len());
    mismatches(flagged(a, st.0, a.len() as int), flagged(b, st.1, b.len() as int))
}

/// The counts that determine the Jaro similarity of two sequences.
#[derive(Clone, Copy, Debug, PartialEq, Eq)]
pub struct JaroSimilarity {
    pub matches: usize,
    pub transpositions: usize,
    pub a_len: usize,
    pub b_len: usize,
}

impl JaroSimilarity {
    /// Numerator of the similarity.
    pub open spec fn value_num(&self) -> int {
        let m = self.matches as int;
        let a = self.a_len as int;
        let b = self.b_len as int;
        if a == 0 && b == 0 {
            1
        } else if a == 0 || b == 0 || m == 0 {
            0
        } else {
            m * m * b + m * m * a + (m - self.transpositions as int / 2) * a * b
        }
    }

    /// Denominator of the similarity: `(m/|a| + m/|b| + (m - t/2)/m) / 3` over a common denominator.
    pub open spec fn value_den(&self) -> int {
        let m = self.matches as int;
        let a = self.a_len as int;
        let b = self.b_len as int;
        if a == 0 || b == 0 || m == 0 {
            1
        } else {
            3 * m * a * b
        }
    }

    /// The counts are those of `a` and `b`.
    pub open spec fn describes(&self, a: Seq<char>, b: Seq<char>) -> bool {
        &&& self.a_len == a.len()
        &&& self.b_len == b.len()
        &&& self.matches == jaro_matches(a, b)
        &&& self.transpositions == jaro_transpositions(a, b)
    }
}

/// The Jaro counts plus the Winkler prefix bonus.
#[derive(Clone, Copy, Debug, PartialEq, Eq)]
pub struct JaroWinklerSimilarity {
    pub jaro: JaroSimilarity,
    /// Length of the common prefix (at most 4) that boosts the score; 0 when the
    /// Jaro similarity is not above 0.69999.
    pub prefix_len: usize,
}

impl JaroWinklerSimilarity {
    /// Numerator of `sim + 0.1 * prefix_len * (1 - sim)`.
    pub open spec fn value_num(&self) -> int {
        let l = self.prefix_len as int;
        self.jaro.value_num() * (10 - l) + l * self.jaro.value_den()
    }

    /// Denominator of `sim + 0.1 * prefix_len * (1 - sim)`.
    pub open spec fn value_den(&self) -> int {
        10 * self.jaro.value_den()
    }
}

/// `len` is the length of the longest common prefix of `a` and `b` that is at most `limit` long.
pub open spec fn is_common_prefix_len(a: Seq<char>, b: Seq<char>, limit: int, len: int) -> bool {
    &&& 0 <= len <= limit
    &&& forall|k: int| 0 <= k < len ==> a[k] == b[k]
    &&& len == limit || a[len] != b[len]
}

/// Number of set flags among the first `n`.
pub open spec fn count_true(f: Seq<bool>, n: int) -> nat
    decreases n,
{
    if n <= 0 {
        0
    } else {
        count_true(f, n - 1) + if f[n - 1] {
            1nat
        } else {
            0nat
        }
    }
}

proof fn lemma_count_bound(f: Seq<bool>, n: int)
    requires
        0 <= n,
    ensures
        count_true(f, n) <= n,
    decreases n,
{
    if n > 0 {
        lemma_count_bound(f, n - 1);
    }
}

proof fn lemma_flagged_len(s: Seq<char>, f: Seq<bool>, n: int)
    requires
        0 <= n,
    ensures
        flagged(s, f, n).len() == count_true(f, n),
    decreases n,
{
    if n > 0 {
        lemma_flagged_len(s, f, n - 1);
    }
}

proof fn lemma_count_update(f: Seq<bool>, k: int, n: int)
    requires
        0 <= k < f.len(),
        0 <= n <= f.len(),
    ensures
        count_true(f.update(k, true), n) == count_true(f, n) + if k < n && !f[k] {
            1nat
        } else {
            0nat
        },
    decreases n,
{
    if n > 0 {
        lemma_count_update(f, k, n - 1);
    }
}

/// A larger count further on means a set flag in between.
proof fn lemma_count_grows(f: Seq<bool>, n1: int, n2: int) -> (w: int)
    requires
        0 <= n1 <= n2,
        count_true(f, n1) < count_true(f, n2),
    ensures
        n1 <= w < n2,
        f[w],
    decreases n2,
{
    if f[n2 - 1] {
        n2 - 1
    } else {
        lemma_count_grows(f, n1, n2 - 1)
    }
}

/// An equal count further on means no set flag in between.
proof fn lemma_count_flat(s: Seq<char>, f: Seq<bool>, n1: int, n2: int)
    requires
        0 <= n1 <= n2,
        count_true(f, n1) == count_true(f, n2),
    ensures
        flagged(s, f, n1) == flagged(s, f, n2),
    decreases n2,
{
    if n2 > n1 {
        if f[n2 - 1] {
            lemma_count_monotone(f, n1, n2 - 1);
        } else {
            lemma_count_flat(s, f, n1, n2 - 1);
        }
    }
}

proof fn lemma_count_monotone(f: Seq<bool>, n1: int, n2: int)
    requires
        0 <= n1 <= n2,
    ensures
        count_true(f, n1) <= count_true(f, n2),
    decreases n2,
{
    if n2 > n1 {
        lemma_count_monotone(f, n1, n2 - 1);
    }
}

proof fn lemma_mismatches_bound(x: Seq<char>, y: Seq<char>)
    ensures
        mismatches(x, y) <= x.len(),
    decreases x.len(),
{
    if x.len() > 0 && y.len() > 0 {
        lemma_mismatches_bound(x.drop_last(), y.drop_last());
    }
}

proof fn lemma_mismatches_push(x: Seq<char>, y: Seq<char>, p: char, q: char)
    ensures
        mismatches(x.push(p), y.push(q)) == mismatches(x, y) + if p != q {
            1nat
        } else {
            0nat
        },
{
    assert(x.push(p).drop_last() == x);
    assert(y.push(q).drop_last() == y);
}

proof fn lemma_first_free_match(c: char, b: Seq<char>, taken: Seq<bool>, j: int, end: int)
    requires
        0 <= j,
        end <= b.len(),
        end <= taken.len(),
    ensures
        first_free_match(c, b, taken, j, end) matches Some(k) ==> j <= k < end && b[k] == c
            && !taken[k],
    decreases end - j,
{
    if j < end && !(b[j] == c && !taken[j]) {
        lemma_first_free_match(c, b, taken, j + 1, end);
    }
}

/// What holds of the greedy matching after any number of rows.
proof fn lemma_greedy_matching(a: Seq<char>, b: Seq<char>, i: nat)
    requires
        i <= a.len(),
    ensures
        ({
            let st = greedy_matching(a, b, i);
            &&& st.0.len() == a.len()
            &&& st.1.len() == b.len()
            &&& st.2 <= i
            &&& count_true(st.0, a.len() as int) == st.2
            &&& count_true(st.1, b.len() as int) == st.2
            &&& forall|k: int| i <= k < a.len() ==> !#[trigger] st.0[k]
        }),
    decreases i,
{
    if i == 0 {
        let st = greedy_matching(a, b, 0);
        lemma_count_zero(st.0, a.len() as int);
        lemma_count_zero(st.1, b.len() as int);
    } else {
        let prev = greedy_matching(a, b, (i - 1) as nat);
        lemma_greedy_matching(a, b, (i - 1) as nat);
        let ext = search_extension(a.len() as int, b.len() as int);
        let row = i - 1;
        let start = window_start(row, ext);
        let end = window_end(row, ext, b.len() as int);
        lemma_first_free_match(a[row], b, prev.1, start, end);
        match first_free_match(a[row], b, prev.1, start, end) {
            Some(j) => {
                lemma_count_update(prev.0, row, a.len() as int);
                lemma_count_update(prev.1, j, b.len() as int);
            },
            None => {},
        }
    }
}

proof fn lemma_count_zero(f: Seq<bool>, n: int)
    requires
        0 <= n <= f.len(),
        forall|k: int| 0 <= k < f.len() ==> !f[k],
    ensures
        count_true(f, n) == 0,
    decreases n,
{
    if n > 0 {
        lemma_count_zero(f, n - 1);
    }
}

/// The first free match of `c` in `b[from..to]`.
fn find_free_match(c: char, b: &Vec<char>, taken: &Vec<bool>, from: usize, to: usize) -> (r: Option<usize>)
    requires
        to <= b@.len(),
        to <= taken@.len(),
    ensures
        r == (match first_free_match(c, b@, taken@, from as int, to as int) {
            Some(k) => Some(k as usize),
            None => None::<usize>,
        }),
        r matches Some(k) ==> from <= k < to,
{
    let mut j = from;
    while j < to
        invariant
            from <= j,
            to <= b@.len(),
            to <= taken@.len(),
            first_free_match(c, b@, taken@, from as int, to as int) == first_free_match(
                c,
                b@,
                taken@,
                j as int,
                to as int,
            ),
        decreases to - j,
    {
        if b[j] == c && !taken[j] {
            return Some(j);
        }
        j = j + 1;
    }
    None
}

/// Jaro similarity of `a` and `b`, as the counts that define it.
pub fn jaro_vec(a: &Vec<char>, b: &Vec<char>) -> (r: JaroSimilarity)
    ensures
        r.describes(a@, b@),
{
    let a_len = a.len();
    let b_len = b.len();
    let longest = if a_len > b_len { a_len } else { b_len };
    let ext = if longest / 2 >= 1 { longest / 2 - 1 } else { 0 };
    assert(ext == search_extension(a_len as int, b_len as int));

    let mut a_flags: Vec<bool> = vec![false; a_len];
    let mut b_flags: Vec<bool> = vec![false; b_len];
    let mut matches: usize = 0;
    assert(a_flags@ == Seq::new(a_len as nat, |k: int| false));
    assert(b_flags@ == Seq::new(b_len as nat, |k: int| false));

    let mut i: usize = 0;
    while i < a_len && matches < b_len
        invariant
            i <= a_len,
            a_len == a@.len(),
            b_len == b@.len(),
            ext == search_extension(a_len as int, b_len as int),
            ext <= longest / 2,
            longest == if a_len > b_len { a_len } else { b_len },
            (a_flags@, b_flags@, matches as nat) == greedy_matching(a@, b@, i as nat),
        decreases a_len - i,
    {
        proof {
            lemma_greedy_matching(a@, b@, i as nat);
        }
        let j_from = if i >= ext { i - ext } else { 0 };
        let j_bound = if i + 1 <= b_len && ext < b_len - (i + 1) {
            i + 1 + ext
        } else {
            b_len
        };
        let ghost prev = greedy_matching(a@, b@, i as nat);
        proof {
            lemma_first_free_match(a@[i as int], b@, prev.1, j_from as int, j_bound as int);
        }
        assert(j_from == window_start(i as int, ext as int));
        assert(j_bound == window_end(i as int, ext as int, b_len as int));
        assert(greedy_matching(a@, b@, (i + 1) as nat) == match first_free_match(
            a@[i as int],
            b@,
            prev.1,
            j_from as int,
            j_bound as int,
        ) {
            Some(j) => (prev.0.update(i as int, true), prev.1.update(j, true), prev.2 + 1),
            None => prev,
        });
        match find_free_match(a[i], b, &b_flags, j_from, j_bound) {
            Some(j) => {
                a_flags.set(i, true);
                b_flags.set(j, true);
                matches = matches + 1;
            },
            None => {},
        }
        i = i + 1;
    }
    proof {
        lemma_greedy_matching(a@, b@, i as nat);
        if i < a_len {
            lemma_count_bound(b_flags@, b_len as int);
            lemma_count_full(b_flags@, b_len as int);
            lemma_greedy_saturated(a@, b@, i as nat);
        }
        lemma_greedy_matching(a@, b@, a_len as nat);
    }

    let ghost af = a_flags@;
    let ghost bf = b_flags@;
    let mut transpositions: usize = 0;
    let mut j: usize = 0;
    let mut i: usize = 0;
    while i < a_len && transpositions < matches
        invariant
            i <= a_len,
            j <= b_len,
            matches as nat == count_true(af, a_len as int),
            a_len == a@.len(),
            b_len == b@.len(),
            a_flags@ == af,
            b_flags@ == bf,
            af.len() == a_len,
            bf.len() == b_len,
            count_true(af, a_len as int) == count_true(bf, b_len as int),
            count_true(af, i as int) == count_true(bf, j as int),
            transpositions <= i,
            transpositions == mismatches(flagged(a@, af, i as int), flagged(b@, bf, j as int)),
        decreases a_len - i,
    {
        if a_flags[i] {
            let ghost w: int;
            proof {
                lemma_count_monotone(af, i as int + 1, a_len as int);
                w = lemma_count_grows(bf, j as int, b_len as int);
            }
            while !b_flags[j]
                invariant
                    j <= w < b_len,
                    bf[w],
                    b_flags@ == bf,
                    bf.len() == b_len,
                    count_true(af, i as int) == count_true(bf, j as int),
                    transpositions == mismatches(
                        flagged(a@, af, i as int),
                        flagged(b@, bf, j as int),
                    ),
                decreases w - j,
            {
                j = j + 1;
            }
            proof {
                lemma_mismatches_push(
                    flagged(a@, af, i as int),
                    flagged(b@, bf, j as int),
                    a@[i as int],
                    b@[j as int],
                );
            }
            if a[i] != b[j] {
                transpositions = transpositions + 1;
            }
            j = j + 1;
        }
        i = i + 1;
    }
    proof {
        if i < a_len {
            lemma_flagged_len(a@, af, i as int);
            lemma_mismatches_bound(flagged(a@, af, i as int), flagged(b@, bf, j as int));
            lemma_count_monotone(af, i as int, a_len as int);
            lemma_count_flat(a@, af, i as int, a_len as int);
        }
        lemma_count_flat(b@, bf, j as int, b_len as int);
    }
    JaroSimilarity { matches, transpositions, a_len, b_len }
}

/// The match count is at most either length, and transpositions are at most the matches.
pub proof fn lemma_jaro_counts_bounded(a: Seq<char>, b: Seq<char>)
    ensures
        jaro_matches(a, b) <= a.len(),
        jaro_matches(a, b) <= b.len(),
        jaro_transpositions(a, b) <= jaro_matches(a, b),
{
    let st = greedy_matching(a, b, a.len());
    lemma_greedy_matching(a, b, a.len());
    lemma_count_bound(st.0, a.len() as int);
    lemma_count_bound(st.1, b.len() as int);
    lemma_flagged_len(a, st.0, a.len() as int);
    lemma_mismatches_bound(flagged(a, st.0, a.len() as int), flagged(b, st.1, b.len() as int));
}

/// The Jaro similarity lies in `[0, 1]`.
pub proof fn lemma_jaro_bounded(s: JaroSimilarity, a: Seq<char>, b: Seq<char>)
    requires
        s.describes(a, b),
    ensures
        s.value_den() > 0,
        0 <= s.value_num() <= s.value_den(),
{
    lemma_jaro_counts_bounded(a, b);
    let m = s.matches as int;
    let x = s.a_len as int;
    let y = s.b_len as int;
    let h = s.transpositions as int / 2;
    if x > 0 && y > 0 && m > 0 {
        assert(0 <= m - h <= m);
        assert(m * m * y <= m * x * y) by (nonlinear_arith)
            requires
                0 < m <= x,
                0 < y,
        ;
        assert(m * m * x <= m * x * y) by (nonlinear_arith)
            requires
                0 < m <= y,
                0 < x,
        ;
        assert((m - h) * x * y <= m * x * y) by (nonlinear_arith)
            requires
                0 <= m - h <= m,
                0 < x,
                0 < y,
        ;
        assert(0 <= m * m * y + m * m * x + (m - h) * x * y) by (nonlinear_arith)
            requires
                0 < m,
                0 <= m - h,
                0 < x,
                0 < y,
        ;
        assert(3 * m * x * y > 0) by (nonlinear_arith)
            requires
                0 < m,
                0 < x,
                0 < y,
        ;
        assert(3 * m * x * y == m * x * y + m * x * y + m * x * y) by (nonlinear_arith);
    }
}

/// The Jaro-Winkler similarity lies in `[0, 1]`.
pub proof fn lemma_jaro_winkler_bounded(s: JaroWinklerSimilarity, a: Seq<char>, b: Seq<char>)
    requires
        is_jaro_winkler_of(s, a, b),
    ensures
        s.value_den() > 0,
        0 <= s.value_num() <= s.value_den(),
{
    lemma_jaro_bounded(s.jaro, a, b);
    let n = s.jaro.value_num();
    let d = s.jaro.value_den();
    let l = s.prefix_len as int;
    assert(0 <= n * (10 - l) + l * d <= 10 * d) by (nonlinear_arith)
        requires
            0 <= n <= d,
            0 <= l <= 4,
    ;
}

proof fn lemma_first_free_match_diagonal(a: Seq<char>, i: int, j: int, end: int)
    requires
        0 <= j <= i < end <= a.len(),
    ensures
        first_free_match(a[i], a, Seq::new(a.len(), |k: int| k < i), j, end) == Some(i),
    decreases i - j,
{
    if j < i {
        lemma_first_free_match_diagonal(a, i, j + 1, end);
    }
}

proof fn lemma_greedy_diagonal(a: Seq<char>, i: nat)
    requires
        i <= a.len(),
    ensures
        greedy_matching(a, a, i) == (
            Seq::new(a.len(), |k: int| k < i),
            Seq::new(a.len(), |k: int| k < i),
            i,
        ),
    decreases i,
{
    if i == 0 {
        assert(Seq::new(a.len(), |k: int| k < 0) == Seq::new(a.len(), |k: int| false));
    } else {
        lemma_greedy_diagonal(a, (i - 1) as nat);
        let row = i - 1;
        let ext = search_extension(a.len() as int, a.len() as int);
        lemma_first_free_match_diagonal(
            a,
            row,
            window_start(row, ext),
            window_end(row, ext, a.len() as int),
        );
        assert(Seq::new(a.len(), |k: int| k < row).update(row, true) == Seq::new(
            a.len(),
            |k: int| k < i,
        ));
    }
}

proof fn lemma_flagged_all(s: Seq<char>, n: int)
    requires
        0 <= n <= s.len(),
    ensures
        flagged(s, Seq::new(s.len(), |k: int| k < s.len()), n) == s.subrange(0, n),
    decreases n,
{
    if n > 0 {
        lemma_flagged_all(s, n - 1);
        assert(s.subrange(0, n - 1).push(s[n - 1]) == s.subrange(0, n));
    }
}

proof fn lemma_mismatches_self(x: Seq<char>)
    ensures
        mismatches(x, x) == 0,
    decreases x.len(),
{
    if x.len() > 0 {
        lemma_mismatches_self(x.drop_last());
    }
}

/// Every sequence is fully similar to itself: the Jaro similarity of `a` with `a` is 1.
pub proof fn lemma_jaro_reflexive(s: JaroSimilarity, a: Seq<char>)
    requires
        s.describes(a, a),
    ensures
        s.value_num() == s.value_den(),
{
    lemma_greedy_diagonal(a, a.len());
    lemma_flagged_all(a, a.len() as int);
    assert(a.subrange(0, a.len() as int) == a);
    lemma_mismatches_self(a);
    let x = a.len() as int;
    if x > 0 {
        assert(x * x * x + x * x * x + x * x * x == 3 * x * x * x) by (nonlinear_arith);
    }
}

proof fn lemma_cube_bound(x: int, y: int, z: int)
    requires
        0 <= x <= 0xffff_ffff,
        0 <= y <= 0xffff_ffff,
        0 <= z <= 0xffff_ffff,
    ensures
        0 <= x * y <= 0xffff_ffff * 0xffff_ffff,
        0 <= x * y * z <= 0xffff_ffff * 0xffff_ffff * 0xffff_ffff,
{
    assert(0 <= x * y <= 0xffff_ffff * 0xffff_ffff) by (nonlinear_arith)
        requires
            0 <= x <= 0xffff_ffff,
            0 <= y <= 0xffff_ffff,
    ;
    assert(0 <= (x * y) * z <= (0xffff_ffff * 0xffff_ffff) * 0xffff_ffff) by (nonlinear_arith)
        requires
            0 <= x * y <= 0xffff_ffff * 0xffff_ffff,
            0 <= z <= 0xffff_ffff,
    ;
}

/// Whether the Jaro similarity is above 0.69999, decided exactly. The usual threshold is
/// "above 0.7", but evaluated in double precision an exact 0.7 rounds up and is boosted;
/// the lowered threshold gives the same decisions.
fn above_boost_threshold(s: &JaroSimilarity) -> (r: bool)
    requires
        s.matches <= s.a_len,
        s.matches <= s.b_len,
        s.transpositions <= s.matches,
        s.a_len <= 0xffff_ffff,
        s.b_len <= 0xffff_ffff,
    ensures
        r == (100000 * s.value_num() > 69999 * s.value_den()),
{
    if s.a_len == 0 && s.b_len == 0 {
        true
    } else if s.a_len == 0 || s.b_len == 0 || s.matches == 0 {
        false
    } else {
        let m = s.matches as u128;
        let x = s.a_len as u128;
        let y = s.b_len as u128;
        let h = (s.transpositions / 2) as u128;
        proof {
            lemma_cube_bound(m as int, m as int, y as int);
            lemma_cube_bound(m as int, m as int, x as int);
            lemma_cube_bound((m - h) as int, x as int, y as int);
            lemma_cube_bound(m as int, x as int, y as int);
        }
        let mm = m * m;
        let mmy = mm * y;
        let mmx = mm * x;
        let hx = (m - h) * x;
        let hxy = hx * y;
        let num = mmy + mmx + hxy;
        let den = 3 * (m * x * y);
        assert(3 * (m * x * y) == 3 * m * x * y) by (nonlinear_arith);
        100000 * num > 69999 * den
    }
}

/// Jaro-Winkler similarity of `a` and `b`: the Jaro counts, and the common prefix
/// (at most 4 long) that boosts a Jaro similarity above 0.69999 (see `above_boost_threshold`).
pub fn jaro_winkler_vec(a: &Vec<char>, b: &Vec<char>) -> (r: JaroWinklerSimilarity)
    requires
        a@.len() <= 0xffff_ffff,
        b@.len() <= 0xffff_ffff,
    ensures
        is_jaro_winkler_of(r, a@, b@),
{
    let sim = jaro_vec(a, b);
    proof {
        lemma_jaro_counts_bounded(a@, b@);
    }
    if above_boost_threshold(&sim) {
        let shorter = if a.len() < b.len() { a.len() } else { b.len() };
        let max_prefix_len = if shorter < 4 { shorter } else { 4 };
        let mut prefix_len: usize = 0;
        while prefix_len < max_prefix_len && a[prefix_len] == b[prefix_len]
            invariant
                prefix_len <= max_prefix_len,
                max_prefix_len <= a@.len(),
                max_prefix_len <= b@.len(),
                forall|k: int| 0 <= k < prefix_len ==> a@[k] == b@[k],
            decreases max_prefix_len - prefix_len,
        {
            prefix_len = prefix_len + 1;
        }
        JaroWinklerSimilarity { jaro: sim, prefix_len }
    } else {
        JaroWinklerSimilarity { jaro: sim, prefix_len: 0 }
    }
}

/// The longest prefix that the Winkler bonus looks at: `min(|a|, |b|, 4)`.
pub open spec fn min_len_prefix(a_len: int, b_len: int) -> int {
    let shorter = if a_len < b_len { a_len } else { b_len };
    if shorter < 4 {
        shorter
    } else {
        4
    }
}

/// `r` is the Jaro-Winkler similarity of `a` and `b`.
pub open spec fn is_jaro_winkler_of(r: JaroWinklerSimilarity, a: Seq<char>, b: Seq<char>) -> bool {
    &&& r.jaro.describes(a, b)
    &&& if 100000 * r.jaro.value_num() > 69999 * r.jaro.value_den() {
        is_common_prefix_len(a, b, min_len_prefix(a.len() as int, b.len() as int), r.prefix_len as int)
    } else {
        r.prefix_len == 0
    }
}

/// A full count means every flag is set.
proof fn lemma_count_full(f: Seq<bool>, n: int)
    requires
        0 <= n <= f.len(),
        count_true(f, n) == n,
    ensures
        forall|k: int| 0 <= k < n ==> f[k],
    decreases n,
{
    if n > 0 {
        lemma_count_bound(f, n - 1);
        if !f[n - 1] {
            assert(false);
        }
        lemma_count_full(f, n - 1);
    }
}

proof fn lemma_first_free_match_none(c: char, b: Seq<char>, taken: Seq<bool>, j: int, end: int)
    requires
        0 <= j,
        end <= taken.len(),
        forall|k: int| 0 <= k < taken.len() ==> taken[k],
    ensures
        first_free_match(c, b, taken, j, end) is None,
    decreases end - j,
{
    if j < end {
        lemma_first_free_match_none(c, b, taken, j + 1, end);
    }
}

/// Once every character of `b` is matched, the remaining rows change nothing.
proof fn lemma_greedy_saturated(a: Seq<char>, b: Seq<char>, i: nat)
    requires
        i <= a.len(),
        greedy_matching(a, b, i).1.len() == b.len(),
        forall|k: int| 0 <= k < b.len() ==> greedy_matching(a, b, i).1[k],
    ensures
        greedy_matching(a, b, a.len()) == greedy_matching(a, b, i),
    decreases a.len() - i,
{
    if i < a.len() {
        let st = greedy_matching(a, b, i);
        let ext = search_extension(a.len() as int, b.len() as int);
        lemma_first_free_match_none(
            a[i as int],
            b,
            st.1,
            window_start(i as int, ext),
            window_end(i as int, ext, b.len() as int),
        );
        assert(greedy_matching(a, b, i + 1) == st);
        lemma_greedy_saturated(a, b, i + 1);
    }
}

} // verus!
