use city_search::intern::{InternBuilder, Interner};
use rayon::iter::{IntoParallelIterator, ParallelIterator};
use std::sync::Mutex;

fn v(s: &str) -> Vec<char> {
    s.chars().collect()
}

#[test]
fn test_empty() {
    let registry = InternBuilder::new().build();
    assert_eq!(0, registry.len());
    assert_eq!(None, registry.resolve(0));
    assert_eq!(None, registry.resolve(1));
    assert_eq!(None, registry.resolve(100));
}

#[test]
fn test_several() {
    let mut builder = InternBuilder::new();
    let a_id = builder.intern(v("a"));
    assert_eq!(0, a_id);
    let b_id = builder.intern(v("b"));
    assert_eq!(1, b_id);

    let registry = builder.build();
    assert_eq!(2, registry.len());

    assert_eq!(Some(&v("a")), registry.resolve(0));
    assert_eq!(Some(&v("b")), registry.resolve(1));
    assert_eq!(None, registry.resolve(2));
}

#[test]
fn test_multithreaded() {
    let len = 10_000;
    let builder = Mutex::new(InternBuilder::new());
    (0..len).into_par_iter()
        .for_each(|num| {
            builder.lock().unwrap().intern(v(&num.to_string()));
        });
    let registry = builder.into_inner().unwrap().build();
    assert_eq!(len, registry.len());

    let mut values = (0..len).into_par_iter()
        .map(|id| {
            registry.resolve(id).unwrap().iter().collect::<String>().parse::<usize>().unwrap()
        })
        .collect::<Vec<_>>();
    values.sort();

    assert_eq!((0..len).into_iter().collect::<Vec<usize>>(), values);
}

#[test]
fn duplicates_share_one_id_and_resolve_back() {
    let keys = ["tokyo", "japan", "tokyo", "", "japan", "kantō"];
    let mut builder = InternBuilder::new();
    let ids: Vec<usize> = keys.iter().map(|k| builder.intern(v(k))).collect();
    assert_eq!(vec![0, 1, 0, 2, 1, 3], ids);
    assert_eq!(4, builder.len());
    let registry = builder.build();
    assert_eq!(4, registry.len());
    for (k, id) in keys.iter().zip(ids) {
        assert_eq!(Some(&v(k)), registry.resolve(id));
    }
}

#[test]
fn sequential_interner_keeps_ids() {
    let mut interner = Interner::new();
    assert_eq!(0, interner.len());
    assert_eq!(0, interner.intern(v("x")));
    assert_eq!(1, interner.intern(v("y")));
    assert_eq!(0, interner.intern(v("x")));
    assert_eq!(2, interner.len());
    assert_eq!(Some(&v("y")), interner.resolve(1));
    assert_eq!(None, interner.resolve(2));
}
