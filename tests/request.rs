use city_search::request::{
    parse_request, parse_usize, CityRequest, CitySearchRequest, ClimateSearchRequest,
};

fn json_error() -> Result<CityRequest, String> {
    Err(String::from("expected value at line 1 column 1"))
}

#[test]
fn parse_usize_like_from_str() {
    for s in ["0", "42", "+7", "007", "18446744073709551615", "", "+", "-1", "1a", " 1", "18446744073709551616"] {
        assert_eq!(s.parse::<usize>().ok(), parse_usize(s), "{}", s);
    }
}

#[test]
fn shorthand_integer_is_climate_search() {
    match parse_request("34040", true, json_error()) {
        Ok(CityRequest::SearchClimate(r)) => {
            assert_eq!(ClimateSearchRequest { city_id: 34040, start_index: None, max_items: None }, r)
        },
        _ => panic!("expected a climate search"),
    }
}

#[test]
fn shorthand_text_is_name_search() {
    match parse_request("Tokyo", true, json_error()) {
        Ok(CityRequest::SearchCity(r)) => {
            assert_eq!("Tokyo", r.query);
            assert_eq!((0, 10), r.paging());
        },
        _ => panic!("expected a name search"),
    }
}

#[test]
fn braces_and_network_mode_keep_the_json_error() {
    assert_eq!(Err(String::from("expected value at line 1 column 1")), parse_request("{bad", true, json_error()).map(|_| ()));
    assert_eq!(Err(String::from("expected value at line 1 column 1")), parse_request("Tokyo", false, json_error()).map(|_| ()));
}

#[test]
fn decoded_request_wins() {
    let decoded = CityRequest::SearchCity(CitySearchRequest {
        query: String::from("Lisbon"),
        start_index: Some(2),
        max_items: Some(4),
    });
    match parse_request("42", true, Ok(decoded)) {
        Ok(CityRequest::SearchCity(r)) => {
            assert_eq!("Lisbon", r.query);
            assert_eq!((2, 4), r.paging());
        },
        _ => panic!("expected the decoded request"),
    }
}

#[test]
fn climate_paging_defaults() {
    let r = ClimateSearchRequest { city_id: 1, start_index: None, max_items: None };
    assert_eq!((0, 100), r.paging());
    let r = ClimateSearchRequest { city_id: 1, start_index: Some(5), max_items: Some(3) };
    assert_eq!((5, 3), r.paging());
}
