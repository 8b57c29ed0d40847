//! The climate index: per-city min/max of each monthly variable, remapped into the
//! global range of that variable, and the dispersion filter of the similarity search.
//!
//! Monthly values are held in tenths of their unit, as the dataset records them.
use vstd::prelude::*;
use crate::minmax::{
    get_relative_minmax, join_minmax, join_minmax_maybe, lemma_min_max_unique, minmax, minmax_maybe,
    present_values, reduce_minmax, reduce_minmax_maybe, relative_of, seq_max, seq_min, RelativeMinMax, diff_minmax,
    diff_minmax_maybe, diff_spec, in_value_range,
};

verus! {

/// Monthly climate of one city, each value in tenths of its unit. Humidity may be missing.
#[derive(Clone, Copy, Debug, PartialEq, Eq)]
pub struct CityClimate {
    pub humidity_monthly: [Option<i32>; 12],
    pub ppt_monthly: [i32; 12],
    pub srad_monthly: [i32; 12],
    pub tmax_monthly: [i32; 12],
    pub tmin_monthly: [i32; 12],
    pub ws_monthly: [i32; 12],
}

/// The (min, max) of each climate variable.
#[derive(Clone, Copy, Debug, PartialEq, Eq)]
pub struct ClimateMinMax {
    pub humidity: Option<(i32, i32)>,
    pub ppt: (i32, i32),
    pub srad: (i32, i32),
    pub tmax: (i32, i32),
    pub tmin: (i32, i32),
    pub ws: (i32, i32),
}

/// The (min, max) of a non-empty sequence.
pub open spec fn minmax_of(s: Seq<i32>) -> (i32, i32) {
    (seq_min(s), seq_max(s))
}

/// The (min, max) of the present values, `None` when none is present.
pub open spec fn minmax_maybe_of(s: Seq<Option<i32>>) -> Option<(i32, i32)> {
    if present_values(s).len() == 0 {
        None
    } else {
        Some(minmax_of(present_values(s)))
    }
}

/// The (min, max) of each variable of one city.
pub open spec fn climate_minmax_of(c: CityClimate) -> ClimateMinMax {
    ClimateMinMax {
        humidity: minmax_maybe_of(c.humidity_monthly@),
        ppt: minmax_of(c.ppt_monthly@),
        srad: minmax_of(c.srad_monthly@),
        tmax: minmax_of(c.tmax_monthly@),
        tmin: minmax_of(c.tmin_monthly@),
        ws: minmax_of(c.ws_monthly@),
    }
}

/// Variable by variable reduction of two summaries.
pub open spec fn join_climate(a: ClimateMinMax, b: ClimateMinMax) -> ClimateMinMax {
    ClimateMinMax {
        humidity: join_minmax_maybe(a.humidity, b.humidity),
        ppt: join_minmax(a.ppt, b.ppt),
        srad: join_minmax(a.srad, b.srad),
        tmax: join_minmax(a.tmax, b.tmax),
        tmin: join_minmax(a.tmin, b.tmin),
        ws: join_minmax(a.ws, b.ws),
    }
}

/// The global summary of a non-empty list of cities.
pub open spec fn total_minmax_of(cs: Seq<CityClimate>) -> ClimateMinMax
    decreases cs.len(),
{
    if cs.len() <= 1 {
        climate_minmax_of(cs[0])
    } else {
        join_climate(total_minmax_of(cs.drop_last()), climate_minmax_of(cs.last()))
    }
}

fn minmax_12(values: &[i32; 12]) -> (r: (i32, i32))
    ensures
        r == minmax_of(values@),
{
    let r = minmax(values.as_slice());
    proof {
        lemma_min_max_unique(values@, r.0, r.1);
    }
    r
}

/// The (min, max) of each variable of one city.
pub fn get_climate_min_max(c: &CityClimate) -> (r: ClimateMinMax)
    ensures
        r == climate_minmax_of(*c),
{
    let humidity = minmax_maybe(c.humidity_monthly.as_slice());
    proof {
        if let Some(p) = humidity {
            lemma_min_max_unique(present_values(c.humidity_monthly@), p.0, p.1);
        }
    }
    ClimateMinMax {
        humidity,
        ppt: minmax_12(&c.ppt_monthly),
        srad: minmax_12(&c.srad_monthly),
        tmax: minmax_12(&c.tmax_monthly),
        tmin: minmax_12(&c.tmin_monthly),
        ws: minmax_12(&c.ws_monthly),
    }
}

/// Variable by variable reduction of two summaries.
pub fn reduce_climate_min_max(a: &ClimateMinMax, b: &ClimateMinMax) -> (r: ClimateMinMax)
    ensures
        r == join_climate(*a, *b),
{
    ClimateMinMax {
        humidity: reduce_minmax_maybe(a.humidity, b.humidity),
        ppt: reduce_minmax(a.ppt, b.ppt),
        srad: reduce_minmax(a.srad, b.srad),
        tmax: reduce_minmax(a.tmax, b.tmax),
        tmin: reduce_minmax(a.tmin, b.tmin),
        ws: reduce_minmax(a.ws, b.ws),
    }
}

/// The global summary over all cities; `None` for no city.
pub fn get_total_min_max(cities: &Vec<CityClimate>) -> (r: Option<ClimateMinMax>)
    ensures
        r is None <==> cities@.len() == 0,
        r matches Some(t) ==> t == total_minmax_of(cities@),
{
    if cities.len() == 0 {
        return None;
    }
    let mut total = get_climate_min_max(&cities[0]);
    let mut k: usize = 1;
    while k < cities.len()
        invariant
            1 <= k <= cities@.len(),
            total == total_minmax_of(cities@.subrange(0, k as int)),
        decreases cities@.len() - k,
    {
        let next = get_climate_min_max(&cities[k]);
        total = reduce_climate_min_max(&total, &next);
        proof {
            let s = cities@.subrange(0, k as int + 1);
            assert(s.drop_last() == cities@.subrange(0, k as int));
        }
        k = k + 1;
    }
    assert(cities@.subrange(0, cities@.len() as int) == cities@);
    Some(total)
}

/// One city's variables remapped into the global ranges.
#[derive(Clone, Copy, Debug, PartialEq, Eq)]
pub struct ClimateRelative {
    pub humidity: Option<RelativeMinMax>,
    pub ppt: RelativeMinMax,
    pub srad: RelativeMinMax,
    pub tmax: RelativeMinMax,
    pub tmin: RelativeMinMax,
    pub ws: RelativeMinMax,
}

/// Every global range that the remap divides by is a proper range.
pub open spec fn spans_positive(t: ClimateMinMax, cs: Seq<CityClimate>) -> bool {
    &&& t.ppt.0 < t.ppt.1
    &&& t.srad.0 < t.srad.1
    &&& t.tmax.0 < t.tmax.1
    &&& t.tmin.0 < t.tmin.1
    &&& t.ws.0 < t.ws.1
    &&& (exists|i: int| 0 <= i < cs.len() && (#[trigger] climate_minmax_of(cs[i])).humidity is Some)
        ==> (t.humidity matches Some(h) && h.0 < h.1)
}

/// One city remapped into the global ranges `t`.
pub open spec fn climate_relative_of(c: CityClimate, t: ClimateMinMax) -> ClimateRelative {
    let m = climate_minmax_of(c);
    ClimateRelative {
        humidity: match (m.humidity, t.humidity) {
            (Some(h), Some(th)) => Some(relative_of(h, th)),
            _ => None,
        },
        ppt: relative_of(m.ppt, t.ppt),
        srad: relative_of(m.srad, t.srad),
        tmax: relative_of(m.tmax, t.tmax),
        tmin: relative_of(m.tmin, t.tmin),
        ws: relative_of(m.ws, t.ws),
    }
}

proof fn lemma_total_humidity(cs: Seq<CityClimate>, i: int)
    requires
        cs.len() > 0,
        0 <= i < cs.len(),
        climate_minmax_of(cs[i]).humidity is Some,
    ensures
        total_minmax_of(cs).humidity is Some,
    decreases cs.len(),
{
    if cs.len() > 1 && i < cs.len() - 1 {
        lemma_total_humidity(cs.drop_last(), i);
    }
}

/// The climate index: one item per city, in input order.
pub struct ClimateSearchData {
    pub items: Vec<ClimateRelative>,
}

/// Builds the climate index: every city remapped into the global ranges, in input order.
/// `None` when there is no city or a global range that the remap divides by is empty.
pub fn make_climate_search_data(cities: &Vec<CityClimate>) -> (r: Option<ClimateSearchData>)
    ensures
        r is Some <==> cities@.len() > 0 && spans_positive(total_minmax_of(cities@), cities@),
        r matches Some(d) ==> forall|i: int|
            0 <= i < d.items@.len() ==> relative_in_range(#[trigger] d.items@[i]),
        r matches Some(d) ==> d.items@.len() == cities@.len() && forall|i: int|
            0 <= i < d.items@.len() ==> #[trigger] d.items@[i] == climate_relative_of(
                cities@[i],
                total_minmax_of(cities@),
            ),
{
    let total = match get_total_min_max(cities) {
        Some(t) => t,
        None => return None,
    };
    if !(total.ppt.0 < total.ppt.1 && total.srad.0 < total.srad.1 && total.tmax.0 < total.tmax.1
        && total.tmin.0 < total.tmin.1 && total.ws.0 < total.ws.1) {
        return None;
    }
    let humidity_ok = match total.humidity {
        Some(h) => h.0 < h.1,
        None => true,
    };
    if !humidity_ok {
        proof {
            let h = total.humidity->0;
            assert(exists|i: int|
                0 <= i < cities@.len() && (#[trigger] climate_minmax_of(cities@[i])).humidity is Some)
                by {
                if forall|i: int|
                    0 <= i < cities@.len() ==> (#[trigger] climate_minmax_of(cities@[i])).humidity
                        is None {
                    lemma_total_humidity_none(cities@);
                }
            }
        }
        return None;
    }
    let mut items: Vec<ClimateRelative> = Vec::new();
    let mut k: usize = 0;
    while k < cities.len()
        invariant
            k <= cities@.len(),
            cities@.len() > 0,
            total == total_minmax_of(cities@),
            total.ppt.0 < total.ppt.1,
            total.srad.0 < total.srad.1,
            total.tmax.0 < total.tmax.1,
            total.tmin.0 < total.tmin.1,
            total.ws.0 < total.ws.1,
            total.humidity matches Some(h) ==> h.0 < h.1,
            items@.len() == k,
            forall|i: int|
                0 <= i < k ==> #[trigger] items@[i] == climate_relative_of(cities@[i], total),
            forall|i: int| 0 <= i < k ==> relative_in_range(#[trigger] items@[i]),
        decreases cities@.len() - k,
    {
        let m = get_climate_min_max(&cities[k]);
        let humidity = match (m.humidity, total.humidity) {
            (Some(h), Some(th)) => Some(get_relative_minmax(h, th)),
            _ => None,
        };
        let rel = ClimateRelative {
            humidity,
            ppt: get_relative_minmax(m.ppt, total.ppt),
            srad: get_relative_minmax(m.srad, total.srad),
            tmax: get_relative_minmax(m.tmax, total.tmax),
            tmin: get_relative_minmax(m.tmin, total.tmin),
            ws: get_relative_minmax(m.ws, total.ws),
        };
        items.push(rel);
        k = k + 1;
    }
    proof {
        if exists|i: int|
            0 <= i < cities@.len() && (#[trigger] climate_minmax_of(cities@[i])).humidity is Some {
            let i = choose|i: int|
                0 <= i < cities@.len() && (#[trigger] climate_minmax_of(cities@[i])).humidity is Some;
            lemma_total_humidity(cities@, i);
        }
    }
    Some(ClimateSearchData { items })
}

proof fn lemma_total_humidity_none(cs: Seq<CityClimate>)
    requires
        cs.len() > 0,
        forall|i: int| 0 <= i < cs.len() ==> (#[trigger] climate_minmax_of(cs[i])).humidity is None,
    ensures
        total_minmax_of(cs).humidity is None,
    decreases cs.len(),
{
    if cs.len() > 1 {
        let t = cs.drop_last();
        assert forall|i: int| 0 <= i < t.len() implies (#[trigger] climate_minmax_of(t[i])).humidity
            is None by {
            assert(t[i] == cs[i]);
        }
        lemma_total_humidity_none(t);
        assert(climate_minmax_of(cs[cs.len() - 1]).humidity is None);
    }
}

/// Every relative value lies within the range of differences of 32-bit values.
pub open spec fn relative_in_range(c: ClimateRelative) -> bool {
    &&& c.humidity matches Some(h) ==> in_value_range(h)
    &&& in_value_range(c.ppt)
    &&& in_value_range(c.srad)
    &&& in_value_range(c.tmax)
    &&& in_value_range(c.tmin)
    &&& in_value_range(c.ws)
}

/// How far apart two cities are in each variable, as numerators over that variable's
/// global span; humidity is `None` unless both cities have it.
#[derive(Clone, Copy, Debug, PartialEq, Eq)]
pub struct ClimateDiff {
    pub humidity: Option<i64>,
    pub ppt: i64,
    pub srad: i64,
    pub tmax: i64,
    pub tmin: i64,
    pub ws: i64,
}

/// The per-variable distance between a candidate and the query city.
pub fn get_climate_diff(item: &ClimateRelative, query: &ClimateRelative) -> (r: ClimateDiff)
    requires
        relative_in_range(*item),
        relative_in_range(*query),
    ensures
        r.humidity == (match (item.humidity, query.humidity) {
            (Some(x), Some(y)) => Some(diff_spec(x, y) as i64),
            _ => None::<i64>,
        }),
        r.ppt == diff_spec(item.ppt, query.ppt),
        r.srad == diff_spec(item.srad, query.srad),
        r.tmax == diff_spec(item.tmax, query.tmax),
        r.tmin == diff_spec(item.tmin, query.tmin),
        r.ws == diff_spec(item.ws, query.ws),
{
    ClimateDiff {
        humidity: diff_minmax_maybe(item.humidity, query.humidity),
        ppt: diff_minmax(item.ppt, query.ppt),
        srad: diff_minmax(item.srad, query.srad),
        tmax: diff_minmax(item.tmax, query.tmax),
        tmin: diff_minmax(item.tmin, query.tmin),
        ws: diff_minmax(item.ws, query.ws),
    }
}

/// Whether the candidate at position `p` was found too close to the query or to an
/// accepted candidate that comes before it.
pub open spec fn rejected<F: Fn(usize, usize) -> bool>(
    far_apart: F,
    query: usize,
    candidates: Seq<usize>,
    accepted: Seq<usize>,
    p: int,
) -> bool {
    ||| far_apart.ensures((candidates[p], query), false)
    ||| exists|j: int|
        0 <= j < accepted.len() && accepted[j] < p && far_apart.ensures(
            (candidates[p], candidates[#[trigger] accepted[j] as int]),
            false,
        )
}

/// The result list of a climate search: the query city, then the accepted candidates.
pub open spec fn dispersed_list(query: usize, candidates: Seq<usize>, accepted: Seq<usize>) -> Seq<usize> {
    seq![query] + accepted.map_values(|p: usize| candidates[p as int])
}

/// The dispersion filter. The result list starts with `query`; candidates (ids in
/// ascending order of difference) are taken in turn, and one is accepted when
/// `far_apart(candidate, earlier)` holds for the query and for every candidate accepted
/// before it. The scan stops once the list (query included) holds `limit` items.
/// Returns the positions in `candidates` of the accepted ones, in increasing order.
pub fn select_dispersed<F: Fn(usize, usize) -> bool>(
    query: usize,
    candidates: &Vec<usize>,
    limit: usize,
    far_apart: F,
) -> (r: Vec<usize>)
    requires
        forall|a: usize, b: usize| far_apart.requires((a, b)),
    ensures
        forall|k: int| 0 <= k < r@.len() ==> #[trigger] r@[k] < candidates@.len(),
        forall|k1: int, k2: int| 0 <= k1 < k2 < r@.len() ==> #[trigger] r@[k1] < #[trigger] r@[k2],
        forall|k: int|
            0 <= k < r@.len() ==> far_apart.ensures((candidates@[#[trigger] r@[k] as int], query), true),
        forall|j: int, k: int|
            0 <= j < k < r@.len() ==> far_apart.ensures(
                (candidates@[#[trigger] r@[k] as int], candidates@[#[trigger] r@[j] as int]),
                true,
            ),
        forall|p: int|
            0 <= p < candidates@.len() && !r@.contains(p as usize) && (r@.len() + 1 < limit || (
            r@.len() > 0 && p < r@.last())) ==> rejected(far_apart, query, candidates@, r@, p),
        r@.len() + 1 <= limit || r@.len() <= 1,
        dispersed_list(query, candidates@, r@)[0] == query,
        forall|i: int, j: int|
            0 <= i < j < r@.len() + 1 ==> far_apart.ensures(
                (
                    #[trigger] dispersed_list(query, candidates@, r@)[j],
                    #[trigger] dispersed_list(query, candidates@, r@)[i],
                ),
                true,
            ),
{
    let mut accepted: Vec<usize> = Vec::new();
    let mut p: usize = 0;
    while p < candidates.len()
        invariant
            p <= candidates@.len(),
            forall|a: usize, b: usize| far_apart.requires((a, b)),
            forall|k: int| 0 <= k < accepted@.len() ==> #[trigger] accepted@[k] < p,
            forall|k1: int, k2: int|
                0 <= k1 < k2 < accepted@.len() ==> #[trigger] accepted@[k1] < #[trigger] accepted@[k2],
            forall|k: int|
                0 <= k < accepted@.len() ==> far_apart.ensures(
                    (candidates@[#[trigger] accepted@[k] as int], query),
                    true,
                ),
            forall|j: int, k: int|
                0 <= j < k < accepted@.len() ==> far_apart.ensures(
                    (candidates@[#[trigger] accepted@[k] as int], candidates@[#[trigger] accepted@[j] as int]),
                    true,
                ),
            forall|q: int|
                0 <= q < p && !accepted@.contains(q as usize) ==> rejected(
                    far_apart,
                    query,
                    candidates@,
                    accepted@,
                    q,
                ),
            accepted@.len() + 1 < limit || accepted@.len() == 0,
        decreases candidates@.len() - p,
    {
        let candidate = candidates[p];
        let mut ok = far_apart(candidate, query);
        let mut k: usize = 0;
        while ok && k < accepted.len()
            invariant
                k <= accepted@.len(),
                p < candidates@.len(),
                forall|a: usize, b: usize| far_apart.requires((a, b)),
                forall|j: int| 0 <= j < accepted@.len() ==> #[trigger] accepted@[j] < p,
                candidate == candidates@[p as int],
                ok ==> far_apart.ensures((candidate, query), true),
                ok ==> forall|j: int|
                    0 <= j < k ==> far_apart.ensures(
                        (candidate, candidates@[#[trigger] accepted@[j] as int]),
                        true,
                    ),
                !ok ==> rejected(far_apart, query, candidates@, accepted@, p as int),
            decreases accepted@.len() - k,
        {
            ok = far_apart(candidate, candidates[accepted[k]]);
            proof {
                if !ok {
                    assert(accepted@[k as int] < p);
                    assert(far_apart.ensures(
                        (candidates@[p as int], candidates@[accepted@[k as int] as int]),
                        false,
                    ));
                }
            }
            k = k + 1;
        }
        let ghost before = accepted@;
        if ok {
            accepted.push(p);
            proof {
                assert(accepted@[before.len() as int] == p);
                assert(accepted@.contains(p));
                assert forall|q: int|
                    0 <= q < p + 1 && !accepted@.contains(q as usize) implies rejected(
                    far_apart,
                    query,
                    candidates@,
                    accepted@,
                    q,
                ) by {
                    assert(!before.contains(q as usize)) by {
                        if before.contains(q as usize) {
                            let w = choose|w: int| 0 <= w < before.len() && before[w] == q as usize;
                            assert(accepted@[w] == q as usize);
                        }
                    }
                    assert(rejected(far_apart, query, candidates@, before, q));
                    if far_apart.ensures((candidates@[q], query), false) {
                    } else {
                        let j = choose|j: int|
                            0 <= j < before.len() && before[j] < q && far_apart.ensures(
                                (candidates@[q], candidates@[#[trigger] before[j] as int]),
                                false,
                            );
                        assert(accepted@[j] == before[j]);
                    }
                }
            }
            if accepted.len() + 1 >= limit {
                proof {
                    lemma_dispersed_list(far_apart, query, candidates@, accepted@);
                }
                return accepted;
            }
        } else {
            proof {
                assert forall|q: int|
                    0 <= q < p + 1 && !accepted@.contains(q as usize) implies rejected(
                    far_apart,
                    query,
                    candidates@,
                    accepted@,
                    q,
                ) by {
                    if q < p {
                    }
                }
            }
        }
        p = p + 1;
    }
    proof {
        lemma_dispersed_list(far_apart, query, candidates@, accepted@);
    }
    accepted
}

proof fn lemma_dispersed_list<F: Fn(usize, usize) -> bool>(
    far_apart: F,
    query: usize,
    candidates: Seq<usize>,
    accepted: Seq<usize>,
)
    requires
        forall|k: int| 0 <= k < accepted.len() ==> #[trigger] accepted[k] < candidates.len(),
        forall|k: int|
            0 <= k < accepted.len() ==> far_apart.ensures((candidates[#[trigger] accepted[k] as int], query), true),
        forall|j: int, k: int|
            0 <= j < k < accepted.len() ==> far_apart.ensures(
                (candidates[#[trigger] accepted[k] as int], candidates[#[trigger] accepted[j] as int]),
                true,
            ),
    ensures
        dispersed_list(query, candidates, accepted)[0] == query,
        forall|i: int, j: int|
            0 <= i < j < accepted.len() + 1 ==> far_apart.ensures(
                (
                    #[trigger] dispersed_list(query, candidates, accepted)[j],
                    #[trigger] dispersed_list(query, candidates, accepted)[i],
                ),
                true,
            ),
{
    let l = dispersed_list(query, candidates, accepted);
    assert(l[0] == query);
    assert forall|i: int, j: int| 0 <= i < j < accepted.len() + 1 implies far_apart.ensures(
        (#[trigger] l[j], #[trigger] l[i]),
        true,
    ) by {
        assert(l[j] == candidates[accepted[j - 1] as int]);
        if i > 0 {
            assert(l[i] == candidates[accepted[i - 1] as int]);
        }
    }
}

} // verus!
