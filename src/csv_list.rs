//! The single-field encoding of a list of strings: elements joined by `|`.
//!
//! An empty list would encode like `[""]`, and an element holding `|` would split
//! apart, so encoding refuses both; on every list it accepts, decoding gives the list back.
use vstd::prelude::*;
use crate::split::chars_of;

verus! {

/// The elements of `v` joined by `|`.
pub open spec fn joined(v: Seq<Seq<char>>) -> Seq<char>
    decreases v.len(),
{
    if v.len() == 0 {
        Seq::empty()
    } else if v.len() == 1 {
        v[0]
    } else {
        joined(v.drop_last()) + seq!['|'] + v.last()
    }
}

/// The pieces of `s` between the `|` characters (one piece more than there are `|`).
pub open spec fn pieces(s: Seq<char>) -> Seq<Seq<char>>
    decreases s.len(),
{
    if s.len() == 0 {
        seq![Seq::empty()]
    } else {
        let prev = pieces(s.drop_last());
        if s.last() == '|' {
            prev.push(Seq::empty())
        } else {
            prev.update(prev.len() - 1, prev.last().push(s.last()))
        }
    }
}

/// A list that the encoding accepts: non-empty, and no element holds `|`.
pub open spec fn encodable(v: Seq<Seq<char>>) -> bool {
    &&& v.len() > 0
    &&& forall|k: int| 0 <= k < v.len() ==> !(#[trigger] v[k]).contains('|')
}

/// The characters of each string.
pub open spec fn strings_view(v: Seq<String>) -> Seq<Seq<char>> {
    v.map_values(|s: String| s@)
}

proof fn lemma_pieces_non_empty(s: Seq<char>)
    ensures
        pieces(s).len() >= 1,
    decreases s.len(),
{
    if s.len() > 0 {
        lemma_pieces_non_empty(s.drop_last());
    }
}

proof fn lemma_pieces_append_plain(x: Seq<char>, w: Seq<char>)
    requires
        !w.contains('|'),
    ensures
        pieces(x + w) == pieces(x).update(pieces(x).len() - 1, pieces(x).last() + w),
    decreases w.len(),
{
    lemma_pieces_non_empty(x);
    if w.len() == 0 {
        assert(x + w == x);
        assert(pieces(x).last() + w == pieces(x).last());
        assert(pieces(x).update(pieces(x).len() - 1, pieces(x).last()) == pieces(x));
    } else {
        let w0 = w.drop_last();
        assert(!w0.contains('|')) by {
            if w0.contains('|') {
                let k = choose|k: int| 0 <= k < w0.len() && w0[k] == '|';
                assert(w[k] == '|');
            }
        }
        lemma_pieces_append_plain(x, w0);
        assert((x + w).drop_last() == x + w0);
        assert((x + w).last() == w.last());
        assert(w.last() != '|') by {
            assert(w[w.len() - 1] == w.last());
        }
        lemma_pieces_non_empty(x + w0);
        assert(pieces(x).last() + w0 + seq![w.last()] == pieces(x).last() + w);
        assert((pieces(x).last() + w0).push(w.last()) == pieces(x).last() + w);
    }
}

/// Splitting an encoded list gives the list back.
pub proof fn lemma_pieces_of_joined(v: Seq<Seq<char>>)
    requires
        encodable(v),
    ensures
        pieces(joined(v)) == v,
    decreases v.len(),
{
    if v.len() == 1 {
        lemma_pieces_append_plain(Seq::empty(), v[0]);
        assert(Seq::<char>::empty() + v[0] == v[0]);
        assert(pieces(Seq::<char>::empty()) == seq![Seq::<char>::empty()]);
        assert(Seq::<char>::empty() + v[0] == v[0]);
        assert(seq![Seq::<char>::empty()].update(0, v[0]) == v);
    } else {
        let v0 = v.drop_last();
        assert(encodable(v0)) by {
            assert forall|k: int| 0 <= k < v0.len() implies !(#[trigger] v0[k]).contains('|') by {
                assert(v0[k] == v[k]);
            }
        }
        lemma_pieces_of_joined(v0);
        let x = joined(v0) + seq!['|'];
        assert(x.drop_last() == joined(v0));
        assert(pieces(x) == v0.push(Seq::empty()));
        assert(!v.last().contains('|')) by {
            assert(v[v.len() - 1] == v.last());
        }
        lemma_pieces_append_plain(x, v.last());
        assert(Seq::<char>::empty() + v.last() == v.last());
        assert(v0.push(Seq::empty()).update(v0.len() as int, v.last()) == v);
    }
}

/// Relies on `String::from_iter`: the string of exactly these characters, in order.
#[verifier::external_body]
fn string_from_chars(cs: &Vec<char>) -> (r: String)
    ensures
        r@ == cs@,
{
    cs.iter().collect()
}

/// Joins the elements with `|`; `None` when the list is empty or an element holds `|`.
pub fn validate_and_join(v: &Vec<String>) -> (r: Option<String>)
    ensures
        r is Some <==> encodable(strings_view(v@)),
        r matches Some(s) ==> s@ == joined(strings_view(v@)),
{
    let ghost sv = strings_view(v@);
    if v.len() == 0 {
        return None;
    }
    let mut acc: Vec<char> = Vec::new();
    let mut k: usize = 0;
    while k < v.len()
        invariant
            0 < v@.len(),
            k <= v@.len(),
            sv == strings_view(v@),
            forall|i: int| 0 <= i < k ==> !(#[trigger] sv[i]).contains('|'),
            k > 0 ==> acc@ == joined(sv.subrange(0, k as int)),
            k == 0 ==> acc@ == Seq::<char>::empty(),
        decreases v@.len() - k,
    {
        let cs = chars_of(v[k].as_str());
        assert(cs@ == sv[k as int]);
        let ghost before = acc@;
        if k > 0 {
            acc.push('|');
        }
        let mut i: usize = 0;
        while i < cs.len()
            invariant
                i <= cs@.len(),
                k < v@.len(),
                sv == strings_view(v@),
                cs@ == sv[k as int],
                k > 0 ==> acc@ == before + seq!['|'] + cs@.subrange(0, i as int),
                k == 0 ==> acc@ == cs@.subrange(0, i as int),
                forall|j: int| 0 <= j < i ==> cs@[j] != '|',
            decreases cs@.len() - i,
        {
            if cs[i] == '|' {
                proof {
                    assert(sv[k as int][i as int] == '|');
                    assert(sv[k as int].contains('|'));
                    assert(!encodable(sv));
                }
                return None;
            }
            acc.push(cs[i]);
            proof {
                assert(cs@.subrange(0, i as int + 1) == cs@.subrange(0, i as int).push(cs@[i as int]));
            }
            i = i + 1;
        }
        proof {
            assert(cs@.subrange(0, cs@.len() as int) == cs@);
            assert(!sv[k as int].contains('|')) by {
                if sv[k as int].contains('|') {
                    let j = choose|j: int| 0 <= j < cs@.len() && cs@[j] == '|';
                }
            }
            let next = sv.subrange(0, k as int + 1);
            assert(next.drop_last() == sv.subrange(0, k as int));
            assert(next.last() == sv[k as int]);
            if k == 0 {
                assert(next.len() == 1);
            }
        }
        k = k + 1;
    }
    assert(sv.subrange(0, v@.len() as int) == sv);
    Some(string_from_chars(&acc))
}

/// Splits `s` on every `|` into the list it encodes.
pub fn split_joined(s: &str) -> (r: Vec<String>)
    ensures
        strings_view(r@) == pieces(s@),
{
    let cs = chars_of(s);
    let mut out: Vec<String> = Vec::new();
    let mut cur: Vec<char> = Vec::new();
    let mut i: usize = 0;
    while i < cs.len()
        invariant
            i <= cs@.len(),
            cs@ == s@,
            strings_view(out@).push(cur@) == pieces(cs@.subrange(0, i as int)),
        decreases cs@.len() - i,
    {
        let ghost prefix = cs@.subrange(0, i as int + 1);
        assert(prefix.drop_last() == cs@.subrange(0, i as int));
        assert(prefix.last() == cs@[i as int]);
        if cs[i] == '|' {
            let piece = string_from_chars(&cur);
            let ghost before = strings_view(out@);
            out.push(piece);
            cur = Vec::new();
            assert(strings_view(out@) == before.push(piece@));
        } else {
            let ghost before = strings_view(out@);
            cur.push(cs[i]);
            assert(strings_view(out@).push(cur@) == before.push(cur@));
        }
        i = i + 1;
    }
    let piece = string_from_chars(&cur);
    let ghost before = strings_view(out@);
    out.push(piece);
    assert(strings_view(out@) == before.push(piece@));
    assert(cs@.subrange(0, cs@.len() as int) == cs@);
    out
}

} // verus!
