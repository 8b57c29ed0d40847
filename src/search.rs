//! The name-search index and queries.
//!
//! Every alternate name, admin unit and country of a city is lowercased and interned;
//! a query is trimmed, lowercased, split into `(name, rest)` variants and interned in a
//! registry of its own. Similarities between a city token and a query token are
//! memoised in a dense matrix indexed by the two ids.
use vstd::prelude::*;
use crate::intern::{InternBuilder, InternRegistry};
use crate::jaro::{is_jaro_winkler_of, jaro_winkler_vec, JaroWinklerSimilarity};
use crate::split::{chars_of, is_split_of, split_name_rest, variants_view};

verus! {

/// What `str::to_lowercase` makes of a string.
pub uninterp spec fn lower_of(s: Seq<char>) -> Seq<char>;

/// What `str::trim` makes of a string.
pub uninterp spec fn trim_of(s: Seq<char>) -> Seq<char>;

/// Relies on `str::to_lowercase`: the Unicode lowercase mapping of the characters.
#[verifier::external_body]
fn to_lowercase(s: &str) -> (r: String)
    ensures
        r@ == lower_of(s@),
{
    s.to_lowercase()
}

/// Relies on `str::trim`: the text without leading and trailing white space.
#[verifier::external_body]
fn trim(s: &str) -> (r: &str)
    ensures
        r@ == trim_of(s@),
{
    s.trim()
}

/// The names of one city that the name search reads.
#[derive(Clone, Debug)]
pub struct CityNames {
    /// Alternate names; the first is the canonical one.
    pub names: Vec<String>,
    pub admin_unit: Option<String>,
    pub country: String,
}

/// One city of the name index: ids of its lowercase tokens in the city registry.
#[derive(Clone, Debug)]
pub struct NameIndexItem {
    /// Position of the city in the input.
    pub id: usize,
    /// The alternate names, in their order.
    pub names: Vec<usize>,
    pub admin_unit: Option<usize>,
    pub country: usize,
}

/// The name index: one item per city, and the registry of city tokens.
pub struct CitySearchData {
    pub items: Vec<NameIndexItem>,
    pub intern_registry: InternRegistry,
}

/// `id` stands for the lowercase form of `s` in the registry `reg`.
pub open spec fn names_lowercase(reg: Seq<Seq<char>>, id: usize, s: Seq<char>) -> bool {
    id < reg.len() && reg[id as int] == lower_of(s)
}

/// `item` indexes `city`, the `i`-th city, against the registry `reg`.
pub open spec fn indexes(item: NameIndexItem, city: CityNames, i: int, reg: Seq<Seq<char>>) -> bool {
    &&& item.id == i
    &&& item.names@.len() == city.names@.len()
    &&& forall|k: int|
        0 <= k < item.names@.len() ==> names_lowercase(reg, #[trigger] item.names@[k], city.names@[k]@)
    &&& item.admin_unit is Some <==> city.admin_unit is Some
    &&& item.admin_unit matches Some(a) ==> names_lowercase(reg, a, city.admin_unit->0@)
    &&& names_lowercase(reg, item.country, city.country@)
}

/// How many strings the index of these cities interns.
pub open spec fn string_count(cs: Seq<CityNames>) -> nat
    decreases cs.len(),
{
    if cs.len() == 0 {
        0
    } else {
        string_count(cs.drop_last()) + cs.last().names@.len() + 2
    }
}

proof fn lemma_string_count_prefix(cs: Seq<CityNames>, i: int)
    requires
        0 <= i < cs.len(),
    ensures
        string_count(cs.subrange(0, i + 1)) == string_count(cs.subrange(0, i)) + cs[i].names@.len() + 2,
        string_count(cs.subrange(0, i + 1)) <= string_count(cs),
    decreases cs.len() - i,
{
    assert(cs.subrange(0, i + 1).drop_last() == cs.subrange(0, i));
    if i + 1 < cs.len() {
        lemma_string_count_prefix(cs, i + 1);
    } else {
        assert(cs.subrange(0, i + 1) == cs);
    }
}

/// Interns the lowercase form of `s`.
fn intern_lowercase(builder: &mut InternBuilder, s: &str) -> (id: usize)
    requires
        old(builder).wf(),
        old(builder).keys().len() < usize::MAX,
    ensures
        final(builder).wf(),
        old(builder).keys().len() <= final(builder).keys().len() <= old(builder).keys().len() + 1,
        forall|j: int|
            0 <= j < old(builder).keys().len() ==> #[trigger] final(builder).keys()[j] == old(
                builder,
            ).keys()[j],
        names_lowercase(final(builder).keys(), id, s@),
{
    let lower = to_lowercase(s);
    let id = builder.intern(chars_of(lower.as_str()));
    proof {
        crate::intern::lemma_intern_resolves(builder, lower@);
    }
    id
}

/// Builds the name index of `cities`, in input order.
pub fn make_search_data(cities: &Vec<CityNames>) -> (r: CitySearchData)
    requires
        string_count(cities@) < usize::MAX,
    ensures
        r.items@.len() == cities@.len(),
        forall|i: int|
            0 <= i < cities@.len() ==> indexes(#[trigger] r.items@[i], cities@[i], i, r.intern_registry@),
{
    let mut builder = InternBuilder::new();
    let mut items: Vec<NameIndexItem> = Vec::new();
    let mut i: usize = 0;
    while i < cities.len()
        invariant
            i <= cities@.len(),
            string_count(cities@) < usize::MAX,
            builder.wf(),
            builder.keys().len() <= string_count(cities@.subrange(0, i as int)),
            items@.len() == i,
            forall|j: int|
                0 <= j < i ==> indexes(#[trigger] items@[j], cities@[j], j, builder.keys()),
        decreases cities@.len() - i,
    {
        proof {
            lemma_string_count_prefix(cities@, i as int);
        }
        let city = &cities[i];
        let ghost start_keys = builder.keys();
        let mut names: Vec<usize> = Vec::new();
        let mut k: usize = 0;
        while k < city.names.len()
            invariant
                k <= city.names@.len(),
                *city == cities@[i as int],
                builder.wf(),
                start_keys.len() <= builder.keys().len() <= start_keys.len() + k,
                start_keys.len() + city.names@.len() + 2 < usize::MAX,
                forall|j: int| 0 <= j < start_keys.len() ==> #[trigger] builder.keys()[j] == start_keys[j],
                names@.len() == k,
                forall|j: int|
                    0 <= j < k ==> names_lowercase(builder.keys(), #[trigger] names@[j], city.names@[j]@),
            decreases city.names@.len() - k,
        {
            let ghost before = builder.keys();
            let id = intern_lowercase(&mut builder, city.names[k].as_str());
            proof {
                assert forall|j: int| 0 <= j < k implies names_lowercase(
                    builder.keys(),
                    #[trigger] names@[j],
                    city.names@[j]@,
                ) by {
                    assert(builder.keys()[names@[j] as int] == before[names@[j] as int]);
                }
            }
            names.push(id);
            k = k + 1;
        }
        let ghost before_admin = builder.keys();
        let admin_unit = match &city.admin_unit {
            Some(a) => Some(intern_lowercase(&mut builder, a.as_str())),
            None => None,
        };
        let ghost before_country = builder.keys();
        let country = intern_lowercase(&mut builder, city.country.as_str());
        let item = NameIndexItem { id: i, names, admin_unit, country };
        proof {
            assert forall|j: int| 0 <= j < item.names@.len() implies names_lowercase(
                builder.keys(),
                #[trigger] item.names@[j],
                city.names@[j]@,
            ) by {
                assert(builder.keys()[item.names@[j] as int] == before_country[item.names@[j] as int]);
                assert(before_country[item.names@[j] as int] == before_admin[item.names@[j] as int]);
            }
            if let Some(a) = admin_unit {
                assert(builder.keys()[a as int] == before_country[a as int]);
            }
            assert forall|j: int| 0 <= j < i implies indexes(
                #[trigger] items@[j],
                cities@[j],
                j,
                builder.keys(),
            ) by {
                let it = items@[j];
                assert forall|m: int| 0 <= m < it.names@.len() implies names_lowercase(
                    builder.keys(),
                    #[trigger] it.names@[m],
                    cities@[j].names@[m]@,
                ) by {
                    assert(names_lowercase(start_keys, it.names@[m], cities@[j].names@[m]@));
                    assert(builder.keys()[it.names@[m] as int] == before_country[it.names@[m] as int]);
                    assert(before_country[it.names@[m] as int] == before_admin[it.names@[m] as int]);
                }
                if let Some(a) = it.admin_unit {
                    assert(names_lowercase(start_keys, a, cities@[j].admin_unit->0@));
                    assert(builder.keys()[a as int] == before_country[a as int]);
                    assert(before_country[a as int] == before_admin[a as int]);
                }
                assert(names_lowercase(start_keys, it.country, cities@[j].country@));
                assert(builder.keys()[it.country as int] == before_country[it.country as int]);
                assert(before_country[it.country as int] == before_admin[it.country as int]);
            }
        }
        items.push(item);
        i = i + 1;
    }
    let intern_registry = builder.build();
    CitySearchData { items, intern_registry }
}

/// A query: its `(name, rest)` variants as ids in the query's own registry.
pub struct CitySearchQuery {
    pub name_rest_variants: Vec<(usize, Option<usize>)>,
    pub intern_registry: InternRegistry,
}

/// The text a query is matched with: trimmed, then lowercased.
pub open spec fn normalized_query(q: Seq<char>) -> Seq<char> {
    lower_of(trim_of(q))
}

/// The variants with each id replaced by its key.
pub open spec fn variants_resolved(v: Seq<(usize, Option<usize>)>, reg: Seq<Seq<char>>) -> Seq<
    (Seq<char>, Option<Seq<char>>),
> {
    v.map_values(
        |p: (usize, Option<usize>)|
            (
                reg[p.0 as int],
                match p.1 {
                    Some(x) => Some(reg[x as int]),
                    None => None,
                },
            ),
    )
}

/// Every id of the variants is issued by the registry.
pub open spec fn variants_in_range(v: Seq<(usize, Option<usize>)>, reg: Seq<Seq<char>>) -> bool {
    forall|k: int|
        0 <= k < v.len() ==> (#[trigger] v[k]).0 < reg.len() && (v[k].1 matches Some(x) ==> x
            < reg.len())
}

/// Builds a query: trims and lowercases the text, splits it into `(name, rest)`
/// variants and interns each part in a registry of the query's own. `None` only for a
/// text with more than `usize::MAX / 2` variants, whose parts could not all get ids.
pub fn make_search_query(query: &str) -> (r: Option<CitySearchQuery>)
    ensures
        r matches Some(q) ==> variants_in_range(q.name_rest_variants@, q.intern_registry@)
            && is_split_of(
            normalized_query(query@),
            variants_resolved(q.name_rest_variants@, q.intern_registry@),
        ),
        r is None ==> exists|sp: Seq<(Seq<char>, Option<Seq<char>>)>|
            is_split_of(normalized_query(query@), sp) && sp.len() >= usize::MAX / 2,
{
    let lowercase_query = to_lowercase(trim(query));
    let splits = split_name_rest(lowercase_query.as_str());
    let ghost target = variants_view(splits@);
    assert(lowercase_query@ == normalized_query(query@));
    assert(target.len() == splits@.len());
    if splits.len() >= usize::MAX / 2 {
        assert(is_split_of(normalized_query(query@), target));
        return None;
    }
    let mut builder = InternBuilder::new();
    let mut variants: Vec<(usize, Option<usize>)> = Vec::new();
    let mut k: usize = 0;
    while k < splits.len()
        invariant
            k <= splits@.len(),
            splits@.len() < usize::MAX / 2,
            target == variants_view(splits@),
            builder.wf(),
            builder.keys().len() <= 2 * k,
            variants@.len() == k,
            variants_in_range(variants@, builder.keys()),
            variants_resolved(variants@, builder.keys()) == target.subrange(0, k as int),
        decreases splits@.len() - k,
    {
        let (name, rest) = splits[k];
        let ghost before = builder.keys();
        let name_id = builder.intern(chars_of(name));
        proof {
            crate::intern::lemma_intern_resolves(&builder, name@);
        }
        let ghost mid = builder.keys();
        let rest_id = match rest {
            Some(x) => {
                let id = builder.intern(chars_of(x));
                proof {
                    crate::intern::lemma_intern_resolves(&builder, x@);
                }
                Some(id)
            },
            None => None,
        };
        let ghost old_variants = variants@;
        variants.push((name_id, rest_id));
        proof {
            let keys = builder.keys();
            assert(forall|j: int| 0 <= j < before.len() ==> #[trigger] keys[j] == before[j]);
            assert(keys[name_id as int] == mid[name_id as int]);
            assert forall|j: int| 0 <= j < k implies (#[trigger] variants_resolved(variants@, keys)[j])
                == variants_resolved(old_variants, before)[j] by {
                let p = old_variants[j];
                assert(variants@[j] == p);
                assert(keys[p.0 as int] == before[p.0 as int]);
                if let Some(x) = p.1 {
                    assert(keys[x as int] == before[x as int]);
                }
            }
            assert(variants_resolved(variants@, keys) =~= target.subrange(0, k as int + 1));
        }
        k = k + 1;
    }
    assert(target.subrange(0, splits@.len() as int) == target);
    Some(CitySearchQuery { name_rest_variants: variants, intern_registry: builder.build() })
}

/// Memoised similarities between city tokens and query tokens: one cell per pair of
/// ids, `None` until the pair is first scored. Each worker keeps a matrix of its own.
pub struct SimilarityCache {
    rows: usize,
    width: usize,
    cells: Vec<Option<JaroWinklerSimilarity>>,
}

/// Every key of the registry is short enough for the similarity arithmetic.
pub open spec fn keys_fit(reg: Seq<Seq<char>>) -> bool {
    forall|k: int| 0 <= k < reg.len() ==> (#[trigger] reg[k]).len() <= 0xffff_ffff
}

proof fn lemma_cell_index(c: int, q: int, rows: int, width: int)
    requires
        0 <= c < rows,
        0 <= q < width,
    ensures
        0 <= c * width + q < rows * width,
{
    assert(0 <= c * width + q < rows * width) by (nonlinear_arith)
        requires
            0 <= c < rows,
            0 <= q < width,
    ;
}

impl SimilarityCache {
    /// The cell of city token `c` and query token `q`.
    pub closed spec fn cell(&self, c: int, q: int) -> Option<JaroWinklerSimilarity> {
        self.cells@[c * self.width + q]
    }

    /// The matrix has one cell per pair of ids of the two registries, and every filled
    /// cell holds the similarity of its pair.
    pub closed spec fn serves(&self, city_reg: Seq<Seq<char>>, query_reg: Seq<Seq<char>>) -> bool {
        &&& self.rows == city_reg.len()
        &&& self.width == query_reg.len()
        &&& self.cells@.len() == self.rows * self.width
        &&& forall|c: int, q: int|
            0 <= c < self.rows && 0 <= q < self.width ==> (#[trigger] self.cell(c, q) matches Some(v)
                ==> is_jaro_winkler_of(v, city_reg[c], query_reg[q]))
    }

    /// An empty matrix for the two registries; `None` when it would have more than
    /// `usize::MAX` cells.
    pub fn new(city_registry: &InternRegistry, query_registry: &InternRegistry) -> (r: Option<
        SimilarityCache,
    >)
        ensures
            r is None <==> city_registry@.len() * query_registry@.len() > usize::MAX,
            r matches Some(c) ==> c.serves(city_registry@, query_registry@),
    {
        let rows = city_registry.len();
        let width = query_registry.len();
        match rows.checked_mul(width) {
            None => None,
            Some(n) => {
                let cells: Vec<Option<JaroWinklerSimilarity>> = vec![None; n];
                let r = SimilarityCache { rows, width, cells };
                proof {
                    assert forall|c: int, q: int| 0 <= c < rows && 0 <= q < width implies (
                    #[trigger] r.cell(c, q) matches Some(v) ==> is_jaro_winkler_of(
                        v,
                        city_registry@[c],
                        query_registry@[q],
                    )) by {
                        lemma_cell_index(c, q, rows as int, width as int);
                    }
                }
                Some(r)
            },
        }
    }

    /// The similarity of city token `city_id` and query token `query_id`, computed on
    /// the first request and read from the matrix afterwards; the flag tells a hit.
    pub fn similarity(
        &mut self,
        city_registry: &InternRegistry,
        query_registry: &InternRegistry,
        city_id: usize,
        query_id: usize,
    ) -> (r: (JaroWinklerSimilarity, bool))
        requires
            old(self).serves(city_registry@, query_registry@),
            city_id < city_registry@.len(),
            query_id < query_registry@.len(),
            keys_fit(city_registry@),
            keys_fit(query_registry@),
        ensures
            final(self).serves(city_registry@, query_registry@),
            is_jaro_winkler_of(r.0, city_registry@[city_id as int], query_registry@[query_id as int]),
            r.1 == old(self).cell(city_id as int, query_id as int) is Some,
    {
        proof {
            lemma_cell_index(city_id as int, query_id as int, self.rows as int, self.width as int);
        }
        let n = self.cells.len();
        assert(city_id * self.width + query_id < n);
        assert(0 <= city_id * self.width <= city_id * self.width + query_id) by (nonlinear_arith)
            requires
                0 <= city_id,
                0 <= self.width,
                0 <= query_id,
        ;
        let index = city_id * self.width + query_id;
        match self.cells[index] {
            Some(v) => {
                assert(self.cell(city_id as int, query_id as int) == Some(v));
                (v, true)
            },
            None => {
                assert(self.cell(city_id as int, query_id as int) is None);
                let a = city_registry.resolve(city_id).unwrap();
                let b = query_registry.resolve(query_id).unwrap();
                let v = jaro_winkler_vec(a, b);
                let ghost before = *self;
                self.cells.set(index, Some(v));
                proof {
                    assert forall|c: int, q: int| 0 <= c < self.rows && 0 <= q < self.width implies (
                    #[trigger] self.cell(c, q) matches Some(w) ==> is_jaro_winkler_of(
                        w,
                        city_registry@[c],
                        query_registry@[q],
                    )) by {
                        lemma_cell_index(c, q, self.rows as int, self.width as int);
                        if c * self.width + q != index {
                            assert(self.cell(c, q) == before.cell(c, q));
                        } else {
                            assert(c == city_id && q == query_id) by (nonlinear_arith)
                                requires
                                    c * self.width + q == city_id * self.width + query_id,
                                    0 <= q < self.width,
                                    0 <= query_id < self.width,
                                    0 <= c,
                                    0 <= city_id,
                            ;
                        }
                    }
                }
                (v, false)
            },
        }
    }
}

/// The similarities that the composite score of one candidate combines: the candidate
/// is the city name at `name_position` paired with the query variant `variant`.
#[derive(Clone, Copy, Debug, PartialEq, Eq)]
pub struct ScoreParts {
    pub variant: usize,
    pub name_position: usize,
    pub name: JaroWinklerSimilarity,
    /// Similarity of the admin unit to the rest; `None` without a rest or an admin unit.
    pub admin_unit: Option<JaroWinklerSimilarity>,
    /// Similarity of the country to the rest; `None` without a rest.
    pub country: Option<JaroWinklerSimilarity>,
    pub cache_hits: u8,
    pub cache_misses: u8,
}

/// The ids of the item are issued by the registry.
pub open spec fn item_in_range(item: NameIndexItem, reg: Seq<Seq<char>>) -> bool {
    &&& forall|k: int| 0 <= k < item.names@.len() ==> #[trigger] item.names@[k] < reg.len()
    &&& item.admin_unit matches Some(a) ==> a < reg.len()
    &&& item.country < reg.len()
}

/// `p` holds the similarities of the name at `pos` of `item` with query variant `v`.
pub open spec fn parts_of(
    p: ScoreParts,
    item: NameIndexItem,
    reg: Seq<Seq<char>>,
    v: (usize, Option<usize>),
    qreg: Seq<Seq<char>>,
) -> bool {
    &&& is_jaro_winkler_of(p.name, reg[item.names@[p.name_position as int] as int], qreg[v.0 as int])
    &&& match v.1 {
        Some(rest) => {
            &&& p.country matches Some(c) && is_jaro_winkler_of(c, reg[item.country as int], qreg[rest as int])
            &&& (p.admin_unit is Some <==> item.admin_unit is Some)
            &&& p.admin_unit matches Some(a) ==> is_jaro_winkler_of(
                a,
                reg[item.admin_unit->0 as int],
                qreg[rest as int],
            )
        },
        None => p.country is None && p.admin_unit is None,
    }
    &&& p.cache_hits + p.cache_misses == 1 + (if p.country is Some { 1int } else { 0 }) + (
    if p.admin_unit is Some {
        1int
    } else {
        0
    })
}

/// The candidates of one city for one query: one entry per pair of a query variant and
/// a city name, variants in order and, within one variant, names in order.
pub fn score_parts(
    item: &NameIndexItem,
    city_registry: &InternRegistry,
    query: &CitySearchQuery,
    cache: &mut SimilarityCache,
) -> (r: Vec<ScoreParts>)
    requires
        old(cache).serves(city_registry@, query.intern_registry@),
        item_in_range(*item, city_registry@),
        variants_in_range(query.name_rest_variants@, query.intern_registry@),
        keys_fit(city_registry@),
        keys_fit(query.intern_registry@),
    ensures
        final(cache).serves(city_registry@, query.intern_registry@),
        r@.len() == query.name_rest_variants@.len() * item.names@.len(),
        forall|k: int|
            0 <= k < r@.len() ==> {
                let p = #[trigger] r@[k];
                &&& p.variant < query.name_rest_variants@.len()
                &&& p.name_position < item.names@.len()
                &&& p.variant * item.names@.len() + p.name_position == k
                &&& parts_of(
                    p,
                    *item,
                    city_registry@,
                    query.name_rest_variants@[p.variant as int],
                    query.intern_registry@,
                )
            },
{
    let ghost reg = city_registry@;
    let ghost qreg = query.intern_registry@;
    let n = item.names.len();
    let mut out: Vec<ScoreParts> = Vec::new();
    let mut v: usize = 0;
    while v < query.name_rest_variants.len()
        invariant
            v <= query.name_rest_variants@.len(),
            n == item.names@.len(),
            reg == city_registry@,
            qreg == query.intern_registry@,
            cache.serves(reg, qreg),
            item_in_range(*item, reg),
            variants_in_range(query.name_rest_variants@, qreg),
            keys_fit(reg),
            keys_fit(qreg),
            out@.len() == v * n,
            forall|k: int|
                0 <= k < out@.len() ==> {
                    let p = #[trigger] out@[k];
                    &&& p.variant < v
                    &&& p.name_position < n
                    &&& p.variant * n + p.name_position == k
                    &&& parts_of(p, *item, reg, query.name_rest_variants@[p.variant as int], qreg)
                },
        decreases query.name_rest_variants@.len() - v,
    {
        let (query_name, query_rest) = query.name_rest_variants[v];
        let mut pos: usize = 0;
        while pos < n
            invariant
                v < query.name_rest_variants@.len(),
                pos <= n,
                n == item.names@.len(),
                reg == city_registry@,
                qreg == query.intern_registry@,
                (query_name, query_rest) == query.name_rest_variants@[v as int],
                cache.serves(reg, qreg),
                item_in_range(*item, reg),
                variants_in_range(query.name_rest_variants@, qreg),
                keys_fit(reg),
                keys_fit(qreg),
                out@.len() == v * n + pos,
                forall|k: int|
                    0 <= k < out@.len() ==> {
                        let p = #[trigger] out@[k];
                        &&& p.variant <= v
                        &&& p.name_position < n
                        &&& p.variant * n + p.name_position == k
                        &&& parts_of(p, *item, reg, query.name_rest_variants@[p.variant as int], qreg)
                    },
            decreases n - pos,
        {
            assert(query.name_rest_variants@[v as int].0 < qreg.len());
            let mut hits: u8 = 0;
            let mut misses: u8 = 0;
            let (name, hit) = cache.similarity(city_registry, &query.intern_registry, item.names[pos], query_name);
            if hit { hits = hits + 1; } else { misses = misses + 1; }
            let (admin_unit, country) = match query_rest {
                Some(rest) => {
                    let (country, hit) = cache.similarity(city_registry, &query.intern_registry, item.country, rest);
                    if hit { hits = hits + 1; } else { misses = misses + 1; }
                    let admin_unit = match item.admin_unit {
                        Some(a) => {
                            let (admin, hit) = cache.similarity(city_registry, &query.intern_registry, a, rest);
                            if hit { hits = hits + 1; } else { misses = misses + 1; }
                            Some(admin)
                        },
                        None => None,
                    };
                    (admin_unit, Some(country))
                },
                None => (None, None),
            };
            let parts = ScoreParts {
                variant: v,
                name_position: pos,
                name,
                admin_unit,
                country,
                cache_hits: hits,
                cache_misses: misses,
            };
            proof {
                assert(v * n + pos + 1 == v * n + (pos + 1));
            }
            out.push(parts);
            pos = pos + 1;
        }
        proof {
            assert((v + 1) * n == v * n + n) by (nonlinear_arith);
        }
        v = v + 1;
    }
    out
}

} // verus!
