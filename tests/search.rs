use city_search::rank::rank_page;
use city_search::search::{
    make_search_data, make_search_query, score_parts, CityNames, SimilarityCache,
};
use city_search::jaro::{JaroSimilarity, JaroWinklerSimilarity};

fn jaro_f32(s: &JaroSimilarity) -> f32 {
    if s.a_len == 0 && s.b_len == 0 {
        return 1.0;
    }
    if s.a_len == 0 || s.b_len == 0 || s.matches == 0 {
        return 0.0;
    }
    let m = s.matches as f32;
    ((m / s.a_len as f32) + (m / s.b_len as f32) + ((s.matches - s.transpositions / 2) as f32 / m)) / 3.0
}

fn jw(s: &JaroWinklerSimilarity) -> f32 {
    let sim = jaro_f32(&s.jaro);
    sim + 0.1 * s.prefix_len as f32 * (1.0 - sim)
}

fn cities() -> Vec<CityNames> {
    vec![
        CityNames { names: vec![String::from("Tokyo"), String::from("Edo")], admin_unit: Some(String::from("Tokyo")), country: String::from("Japan") },
        CityNames { names: vec![String::from("Kyoto")], admin_unit: None, country: String::from("Japan") },
    ]
}

/// The best composite score of city `i`, over all candidates.
fn best_score(query: &str, i: usize, population: u64) -> (f32, usize) {
    let cities = cities();
    let data = make_search_data(&cities);
    let q = make_search_query(query).unwrap();
    let mut cache = SimilarityCache::new(&data.intern_registry, &q.intern_registry).unwrap();
    let parts = score_parts(&data.items[i], &data.intern_registry, &q, &mut cache);
    let mut best = (f32::MIN, 0);
    for p in parts {
        let score = jw(&p.name) - 0.001 * p.name_position as f32 + 0.01 * (population as f32).log10()
            + 0.25 * p.admin_unit.map_or(0.0, |a| jw(&a)) + 0.25 * p.country.map_or(0.0, |c| jw(&c));
        if score >= best.0 {
            best = (score, p.name_position);
        }
    }
    best
}

#[test]
fn index_interns_lowercase_tokens() {
    let data = make_search_data(&cities());
    assert_eq!(2, data.items.len());
    let tokyo = &data.items[0];
    assert_eq!(0, tokyo.id);
    let text = |id: usize| data.intern_registry.resolve(id).unwrap().iter().collect::<String>();
    assert_eq!("tokyo", text(tokyo.names[0]));
    assert_eq!("edo", text(tokyo.names[1]));
    assert_eq!(Some(tokyo.names[0]), tokyo.admin_unit);
    assert_eq!("japan", text(tokyo.country));
    assert_eq!(tokyo.country, data.items[1].country);
    assert_eq!(4, data.intern_registry.len());
}

#[test]
fn query_is_trimmed_lowercased_and_split() {
    let q = make_search_query("  Tokyo JAPAN ").unwrap();
    let text = |id: usize| q.intern_registry.resolve(id).unwrap().iter().collect::<String>();
    assert_eq!(2, q.name_rest_variants.len());
    let (name, rest) = q.name_rest_variants[0];
    assert_eq!(("tokyo".to_string(), Some("japan".to_string())), (text(name), rest.map(text)));
    let (name, rest) = q.name_rest_variants[1];
    assert_eq!(("tokyo japan".to_string(), None), (text(name), rest.map(text)));
}

#[test]
fn cache_hits_on_repeat() {
    let data = make_search_data(&cities());
    let q = make_search_query("tokyo").unwrap();
    let mut cache = SimilarityCache::new(&data.intern_registry, &q.intern_registry).unwrap();
    let first = score_parts(&data.items[0], &data.intern_registry, &q, &mut cache);
    let second = score_parts(&data.items[0], &data.intern_registry, &q, &mut cache);
    assert_eq!(2, first.len());
    assert_eq!(2, first.iter().map(|p| p.cache_misses as usize).sum::<usize>());
    assert_eq!(2, second.iter().map(|p| p.cache_hits as usize).sum::<usize>());
    assert_eq!(1.0, jw(&first[0].name));
}

#[test]
fn tokyo_scenario() {
    let (plain, position) = best_score("Tokyo", 0, 37_000_000);
    assert_eq!(0, position);
    let (with_country, _) = best_score("Tokyo Japan", 0, 37_000_000);
    assert!(with_country > plain);
    assert!(plain > 0.85);
}

#[test]
fn rank_page_filters_sorts_and_pages() {
    let candidates = vec![(5u32, 0usize), (9, 1), (2, 2), (9, 3), (7, 4), (3, 5)];
    assert_eq!(vec![(9, 1), (9, 3), (7, 4), (5, 0)], rank_page(&candidates, 3, 0, 10));
    assert_eq!(vec![(9, 3), (7, 4)], rank_page(&candidates, 3, 1, 2));
    assert_eq!(Vec::<(u32, usize)>::new(), rank_page(&candidates, 3, 4, 2));
    assert_eq!(Vec::<(u32, usize)>::new(), rank_page(&candidates, 9, 0, 10));
    assert_eq!(vec![(9, 1)], rank_page(&candidates, 0, 0, 1));
}

#[test]
fn rank_page_large_input() {
    let candidates: Vec<(u32, usize)> = (0..60_000usize).map(|i| (((i * 7919) % 1000) as u32, i)).collect();
    let page = rank_page(&candidates, 500, 0, usize::MAX);
    assert_eq!(60_000 / 1000 * 499, page.len());
    for w in page.windows(2) {
        assert!(w[0].0 > w[1].0 || (w[0].0 == w[1].0 && w[0].1 < w[1].1));
    }
    assert_eq!(999, page[0].0);
}
