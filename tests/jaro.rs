use city_search::jaro::{jaro_vec, jaro_winkler_vec, JaroSimilarity, JaroWinklerSimilarity};
use rand::{rng, Rng};
use rayon::iter::{IntoParallelIterator, ParallelIterator};
use strsim::{jaro, jaro_winkler};

fn v(s: &str) -> Vec<char> {
    s.chars().collect()
}

/// The similarity as a 32-bit float, computed from its counts.
fn jaro_f32(s: &JaroSimilarity) -> f32 {
    if s.a_len == 0 && s.b_len == 0 {
        return 1.0;
    }
    if s.a_len == 0 || s.b_len == 0 || s.matches == 0 {
        return 0.0;
    }
    let m = s.matches as f32;
    ((m / s.a_len as f32) + (m / s.b_len as f32) + ((s.matches - s.transpositions / 2) as f32 / m)) / 3.0
}

fn jaro_winkler_f32(s: &JaroWinklerSimilarity) -> f32 {
    let sim = jaro_f32(&s.jaro);
    sim + 0.1 * s.prefix_len as f32 * (1.0 - sim)
}

fn jv(a: &str, b: &str) -> f32 {
    jaro_f32(&jaro_vec(&v(a), &v(b)))
}

fn jwv(a: &str, b: &str) -> f32 {
    jaro_winkler_f32(&jaro_winkler_vec(&v(a), &v(b)))
}

const COMMON_EXAMPLES: [(&str, &str, f32); 7] = [
    ("", "a", 0.0),
    ("a", "", 0.0),
    ("a", "b", 0.0),
    ("ab", "cd", 0.0),
    ("", "", 1.0),
    ("a", "a", 1.0),
    ("ab", "ab", 1.0),
];

fn assert_close(expected: f64, actual: f32, msg: &str) {
    assert!((expected as f32 - actual).abs() < 0.0001, "lhs=\"{}\", rhs=\"{}\", message: {}", expected, actual, msg);
}

#[test]
fn test_common() {
    for (a, b, expected) in COMMON_EXAMPLES {
        assert_eq!(expected, jv(a, b), "jaro a=\"{}\", b=\"{}\"", a, b);
        assert_eq!(expected, jwv(a, b), "jaro-winkler a=\"{}\", b=\"{}\"", a, b);
    }
}

#[test]
fn test_jaro() {
    assert_close(jaro("a", "ab"), jv("a", "ab"), "");
    assert_close(jaro("ab", "a"), jv("ab", "a"), "");
    assert_close(jaro("abc", "bac"), jv("abc", "bac"), "");
    assert_close(jaro("abc", "ab"), jv("abc", "ab"), "");
    assert_close(jaro("ab", "abc"), jv("ab", "abc"), "");
    assert_close(jaro("abcd", "abd"), jv("abcd", "abd"), "");
    assert_close(jaro("abcd", "babd"), jv("abcd", "babd"), "");
    assert_close(jaro("abc def", "ab de"), jv("abc def", "ab de"), "");
    assert_close(jaro("abc def ghi", "ab d hi"), jv("abc def ghi", "ab d hi"), "");
    assert_close(jaro("abc123def", "abc321def"), jv("abc123def", "abc321def"), "");
}

#[test]
fn test_jaro_winkler() {
    assert_close(jaro_winkler("a", "a"), jwv("a", "a"), "");
    assert_close(jaro_winkler("ab", "cd"), jwv("ab", "cd"), "");
    assert_close(jaro_winkler("abcdefgh", "a"), jwv("abcdefgh", "a"), "");
    assert_close(jaro_winkler("a", "abcdefgh"), jwv("a", "abcdefgh"), "");
    assert_close(jaro_winkler("abc", "abcde"), jwv("abc", "abcde"), "");
    assert_close(jaro_winkler("abcde", "abc"), jwv("abcde", "abc"), "");
    assert_close(jaro_winkler("abcdef", "abcdefg"), jwv("abcdef", "abcdefg"), "");
}

const RND_CHARS: [char; 11] = ['a', 'b', 'c', 'd', 'e', 'f', 'g', 'h', 'i', 'j', ' '];
const MAX_LEN: usize = 15;

fn make_random_str() -> String {
    let len = rng().random_range(..=MAX_LEN);
    (0..len)
        .map(|_| RND_CHARS[rng().random_range(..RND_CHARS.len())])
        .collect::<String>()
}

#[test]
fn test_randomized() {
    (0..100_000).into_par_iter().for_each(|_| {
        let a = make_random_str();
        let b = make_random_str();
        let msg = format!("a=\"{}\", b=\"{}\"", a, b);

        assert_close(jaro(&a, &b), jv(&a, &b), &msg);
        assert_close(jaro_winkler(&a, &b), jwv(&a, &b), &msg);
    })
}

#[test]
fn jaro_scenario_values() {
    // The search window of two 3-character strings is 0, so only `c` matches: 5/9.
    assert!((jv("abc", "bac") - 0.5556).abs() < 0.0001);
    assert!((jwv("abcdef", "abcdefg") - 0.9714).abs() < 0.0001);
}

#[test]
fn jaro_counts_exact() {
    let s = jaro_vec(&v("abc"), &v("bac"));
    assert_eq!(JaroSimilarity { matches: 1, transpositions: 0, a_len: 3, b_len: 3 }, s);
    let t = jaro_vec(&v("martha"), &v("marhta"));
    assert_eq!(JaroSimilarity { matches: 6, transpositions: 2, a_len: 6, b_len: 6 }, t);
    let w = jaro_winkler_vec(&v("abcdef"), &v("abcdefg"));
    assert_eq!(6, w.jaro.matches);
    assert_eq!(0, w.jaro.transpositions);
    assert_eq!(4, w.prefix_len);
    let low = jaro_winkler_vec(&v("abcd"), &v("axyz"));
    assert_eq!(0, low.prefix_len);
    // Jaro of exactly 0.7 is boosted, as the double-precision formula does (strsim).
    let edge = jaro_winkler_vec(&v("jbgj i fch"), &v("j"));
    assert_eq!(1, edge.prefix_len);
}

#[test]
fn jaro_symmetric_reflexive_bounded_samples() {
    let samples = ["", "a", "ab", "abc", "bac", "martha", "marhta", "dixon", "dicksonx", "aaaa", "abab"];
    for a in samples {
        for b in samples {
            let x = jv(a, b);
            let y = jv(b, a);
            assert!((x - y).abs() < 1e-6, "a={} b={}", a, b);
            assert!((0.0..=1.0).contains(&x));
            let w = jwv(a, b);
            assert!((0.0..=1.0).contains(&w));
        }
        assert_eq!(1.0, jv(a, a));
    }
}

#[test]
fn jaro_symmetric_exhaustive_small() {
    let mut words = vec![String::new()];
    let mut frontier = vec![String::new()];
    for _ in 0..7 {
        let mut next = Vec::new();
        for w in &frontier {
            for c in ['a', 'b'] {
                let mut x = w.clone();
                x.push(c);
                next.push(x);
            }
        }
        words.extend(next.iter().cloned());
        frontier = next;
    }
    for a in &words {
        for b in &words {
            let x = jaro_vec(&v(a), &v(b));
            let y = jaro_vec(&v(b), &v(a));
            assert_eq!((x.matches, x.transpositions), (y.matches, y.transpositions), "a={} b={}", a, b);
        }
    }
}
