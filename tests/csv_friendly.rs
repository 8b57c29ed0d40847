use city_search::csv_list::{split_joined, validate_and_join};

struct Foo {
    a: String,
    b: Vec<String>,
}

struct FooCsvFriendly {
    a: String,
    b: String,
}

impl From<Foo> for FooCsvFriendly {
    fn from(orig: Foo) -> Self {
        let b = match validate_and_join(&orig.b) {
            Some(joined) => joined,
            None => panic!("{:?} cannot be joined with a delimiter", orig.b),
        };
        FooCsvFriendly { a: orig.a, b }
    }
}

impl From<FooCsvFriendly> for Foo {
    fn from(csv_friendly: FooCsvFriendly) -> Self {
        Foo { a: csv_friendly.a, b: split_joined(&csv_friendly.b) }
    }
}

#[test]
fn test_instantiate() {
    let friendly = FooCsvFriendly {
        a: String::from("foo"),
        b: String::from("bar"),
    };
    assert_eq!(friendly.a, "foo");
}

#[test]
fn test_convert_single_val() {
    let foo = Foo {
        a: String::from("foo"),
        b: vec![String::from("bar")],
    };

    let friendly: FooCsvFriendly = foo.into();
    assert_eq!(friendly.a, "foo");
    assert_eq!(friendly.b, "bar");

    let foo_1: Foo = friendly.into();
    assert_eq!(foo_1.a, "foo");
    assert_eq!(foo_1.b, vec![String::from("bar")]);
}

#[test]
fn test_convert_multiple_val() {
    let foo = Foo {
        a: String::from("foo"),
        b: vec![String::from("bar"), String::from("baz")],
    };

    let friendly: FooCsvFriendly = foo.into();
    assert_eq!(friendly.b, "bar|baz");

    let foo_1: Foo = friendly.into();
    assert_eq!(foo_1.b, vec![String::from("bar"), String::from("baz")]);
}

#[test]
fn test_convert_empty_str() {
    let foo = Foo {
        a: String::from("foo"),
        b: vec![String::from("")],
    };

    let friendly: FooCsvFriendly = foo.into();
    assert_eq!(friendly.b, "");

    let foo_1: Foo = friendly.into();
    assert_eq!(foo_1.b, vec![String::from("")]);
}

#[test]
fn test_convert_with_empty_str() {
    let foo = Foo {
        a: String::from("foo"),
        b: vec![String::from(""), String::from("bar"), String::from("")],
    };

    let friendly: FooCsvFriendly = foo.into();
    assert_eq!(friendly.b, "|bar|");

    let foo_1: Foo = friendly.into();
    assert_eq!(foo_1.b, vec![String::from(""), String::from("bar"), String::from("")]);
}

#[test]
#[should_panic]
fn test_convert_empty() {
    let foo = Foo {
        a: String::from("foo"),
        b: vec![],
    };

    let _friendly: FooCsvFriendly = foo.into();
}

#[test]
#[should_panic]
fn test_convert_bad_name() {
    let foo = Foo {
        a: String::from("foo"),
        b: vec![String::from("ba|r")],
    };

    let _friendly: FooCsvFriendly = foo.into();
}

#[test]
fn join_refuses_empty_list_and_delimiter() {
    assert_eq!(None, validate_and_join(&vec![]));
    assert_eq!(None, validate_and_join(&vec![String::from("a"), String::from("b|c")]));
    assert_eq!(Some(String::from("a|b|c")), validate_and_join(&vec![
        String::from("a"),
        String::from("b"),
        String::from("c"),
    ]));
}

#[test]
fn split_then_join_round_trip() {
    let list = vec![String::from("Tōkyō"), String::new(), String::from("東京")];
    let joined = validate_and_join(&list).unwrap();
    assert_eq!("Tōkyō||東京", joined);
    assert_eq!(list, split_joined(&joined));
    assert_eq!(vec![String::new()], split_joined(""));
    assert_eq!(vec![String::new(), String::new()], split_joined("|"));
}
