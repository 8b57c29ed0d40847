use city_search::split::split_name_rest;

#[test]
fn split_examples() {
    assert_eq!(split_name_rest(""), vec![("", None)]);
    assert_eq!(split_name_rest("ab"), vec![("ab", None)]);
    assert_eq!(split_name_rest("a b c"), vec![("a", Some("b c")), ("a b", Some("c")), ("a b c", None)]);
    assert_eq!(split_name_rest(";,a, ,b,;"), vec![(";,a", Some("b,;")), (";,a, ,b,;", None)]);
}

#[test]
fn split_counts_runs_and_ends_with_input() {
    let input = "new york,usa;ny";
    let variants = split_name_rest(input);
    assert_eq!(4, variants.len());
    assert_eq!((input, None), *variants.last().unwrap());
    for (name, rest) in &variants[..variants.len() - 1] {
        assert!(!name.is_empty());
        assert!(!rest.unwrap().is_empty());
    }
}

#[test]
fn split_non_ascii() {
    assert_eq!(split_name_rest("são paulo"), vec![("são", Some("paulo")), ("são paulo", None)]);
}
