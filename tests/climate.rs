use city_search::climate::{
    get_climate_diff, get_climate_min_max, get_total_min_max, make_climate_search_data, select_dispersed,
    CityClimate,
};

fn climate(base: i32, humidity: Option<i32>) -> CityClimate {
    let mut months = [0i32; 12];
    for (k, m) in months.iter_mut().enumerate() {
        *m = base + k as i32;
    }
    CityClimate {
        humidity_monthly: [humidity; 12],
        ppt_monthly: months,
        srad_monthly: months,
        tmax_monthly: months,
        tmin_monthly: months,
        ws_monthly: months,
    }
}

#[test]
fn city_min_max() {
    let mut c = climate(10, Some(50));
    c.humidity_monthly[3] = None;
    c.humidity_monthly[4] = Some(80);
    let m = get_climate_min_max(&c);
    assert_eq!((10, 21), m.ppt);
    assert_eq!(Some((50, 80)), m.humidity);
    assert_eq!(None, get_climate_min_max(&climate(0, None)).humidity);
}

#[test]
fn total_and_relative() {
    let cities = vec![climate(0, Some(40)), climate(100, None), climate(50, Some(60))];
    let total = get_total_min_max(&cities).unwrap();
    assert_eq!((0, 111), total.ppt);
    assert_eq!(Some((40, 60)), total.humidity);
    assert_eq!(None, get_total_min_max(&vec![]));

    let index = make_climate_search_data(&cities).unwrap().items;
    assert_eq!(3, index.len());
    assert_eq!((0, 11, 111), (index[0].ppt.min, index[0].ppt.max, index[0].ppt.span));
    assert_eq!((100, 111), (index[1].ppt.min, index[1].ppt.max));
    assert_eq!(None, index[1].humidity);
    assert_eq!(Some((20, 20, 20)), index[2].humidity.map(|h| (h.min, h.max, h.span)));

    let d = get_climate_diff(&index[0], &index[1]);
    assert_eq!(200, d.ppt);
    assert_eq!(None, d.humidity);
    let same = get_climate_diff(&index[2], &index[2]);
    assert_eq!((Some(0), 0), (same.humidity, same.ws));
}

#[test]
fn empty_span_has_no_index() {
    let cities = vec![climate(5, None), climate(5, None)];
    let mut flat = cities.clone();
    flat[0].ppt_monthly = [3; 12];
    flat[1].ppt_monthly = [3; 12];
    assert!(make_climate_search_data(&flat).is_none());
    let mut dry = vec![climate(0, Some(50)), climate(20, Some(50))];
    assert!(make_climate_search_data(&dry).is_none());
    dry[1].humidity_monthly[0] = Some(70);
    assert!(make_climate_search_data(&dry).is_some());
    assert!(make_climate_search_data(&vec![]).is_none());
}

/// Points on a line, 100 units apart per id step; far apart means at least 200 units.
fn far(a: usize, b: usize) -> bool {
    let d = (a as i64 - b as i64).abs() * 100;
    d >= 200
}

#[test]
fn dispersion_keeps_results_apart() {
    let query = 10;
    let candidates = vec![11, 13, 12, 15, 14, 9, 20];
    let accepted = select_dispersed(query, &candidates, 100, far);
    let ids: Vec<usize> = accepted.iter().map(|&p| candidates[p]).collect();
    assert_eq!(vec![13, 15, 20], ids);
    let mut all = vec![query];
    all.extend(ids);
    for i in 0..all.len() {
        for j in 0..i {
            assert!(far(all[i], all[j]));
        }
    }
}

#[test]
fn dispersion_stops_at_limit() {
    let candidates = vec![0, 5, 10, 15, 20];
    let accepted = select_dispersed(100, &candidates, 3, far);
    assert_eq!(vec![0, 1], accepted);
    let one = select_dispersed(100, &candidates, 0, far);
    assert_eq!(vec![0], one);
}
