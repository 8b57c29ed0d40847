use city_search::squares::iterate_increasing_squares;

#[test]
fn squares_examples() {
    assert_eq!(iterate_increasing_squares(2, 2, 0, 5, 5), vec![(2, 2)]);
    assert_eq!(
        iterate_increasing_squares(2, 2, 1, 5, 5),
        vec![(2, 2), (1, 1), (2, 1), (3, 1), (1, 3), (2, 3), (3, 3), (1, 2), (3, 2)]
    );
    assert_eq!(iterate_increasing_squares(0, 0, 5, 2, 2), vec![(0, 0), (0, 1), (1, 1), (1, 0)]);
    assert_eq!(iterate_increasing_squares(5, 5, 4, 2, 3), vec![(1, 1), (1, 2)]);
}
