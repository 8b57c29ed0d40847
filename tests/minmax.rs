use city_search::minmax::{
    diff_minmax, diff_minmax_maybe, get_relative_minmax, minmax, minmax_maybe, reduce_minmax,
    reduce_minmax_maybe, RelativeMinMax,
};

#[test]
fn minmax_examples() {
    assert_eq!((1, 1), minmax(&vec![1]));
    assert_eq!((1, 3), minmax(&vec![1, 2, 3]));
    assert_eq!((10, 30), minmax(&vec![30, 10, 20]));
    assert_eq!((-5, 7), minmax(&vec![0, 7, -5, 7, -5]));
}

#[test]
fn minmax_maybe_examples() {
    assert_eq!(None, minmax_maybe(&vec![]));
    assert_eq!(None, minmax_maybe(&vec![None, None]));
    assert_eq!(Some((1, 3)), minmax_maybe(&vec![None, Some(3), None, Some(1)]));
}

#[test]
fn reduce_examples() {
    assert_eq!((1, 4), reduce_minmax((1, 3), (2, 4)));
    assert_eq!((1, 4), reduce_minmax((2, 4), (1, 3)));
    assert_eq!(None, reduce_minmax_maybe(None, None));
    assert_eq!(Some((2, 4)), reduce_minmax_maybe(None, Some((2, 4))));
    assert_eq!(Some((1, 3)), reduce_minmax_maybe(Some((1, 3)), None));
    assert_eq!(Some((1, 4)), reduce_minmax_maybe(Some((2, 4)), Some((1, 3))));
}

#[test]
fn reduce_commutative_and_associative_samples() {
    let pairs = [(1, 3), (2, 4), (-1, 0), (5, 9)];
    for a in pairs {
        for b in pairs {
            assert_eq!(reduce_minmax(a, b), reduce_minmax(b, a));
            for c in pairs {
                assert_eq!(reduce_minmax(reduce_minmax(a, b), c), reduce_minmax(a, reduce_minmax(b, c)));
            }
        }
    }
}

#[test]
fn relative_examples() {
    let r = get_relative_minmax((10, 30), (10, 30));
    assert_eq!(RelativeMinMax { min: 0, max: 20, span: 20 }, r);
    assert_eq!(r.min as f32 / r.span as f32, 0.0);
    assert_eq!(r.max as f32 / r.span as f32, 1.0);
    let q = get_relative_minmax((10, 30), (0, 40));
    assert_eq!((0.25, 0.75), (q.min as f32 / q.span as f32, q.max as f32 / q.span as f32));
    let n = get_relative_minmax((-10, 60), (0, 40));
    assert_eq!((-0.25, 1.5), (n.min as f32 / n.span as f32, n.max as f32 / n.span as f32));
}

#[test]
fn diff_examples() {
    let a = RelativeMinMax { min: 10, max: 40, span: 100 };
    let b = RelativeMinMax { min: 20, max: 30, span: 100 };
    assert_eq!(20, diff_minmax(a, b));
    assert_eq!(20, diff_minmax(b, a));
    assert_eq!(0, diff_minmax(a, a));
    assert_eq!(Some(20), diff_minmax_maybe(Some(a), Some(b)));
    assert_eq!(None, diff_minmax_maybe(Some(a), None));
    assert_eq!(None, diff_minmax_maybe(None, Some(b)));
    assert_eq!(None, diff_minmax_maybe(None, None));
}
