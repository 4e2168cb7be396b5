use bike_anomaly::cache::CoordinateCache;
use bike_anomaly::resolver::{geocoding_query, Lookup, ResolutionError, Station, StationResolver};

fn feed() -> Vec<Station<(i64, i64)>> {
    vec![
        Station { name: "Waterloo".to_string(), coord: (10, 20) },
        Station { name: "Bank".to_string(), coord: (30, 40) },
        Station { name: "Waterloo".to_string(), coord: (99, 99) },
    ]
}

#[test]
fn cache_hit_comes_first() {
    let mut cache = CoordinateCache::new();
    cache.put("Waterloo".to_string(), (1, 2));
    let mut r = StationResolver::new(cache, feed());
    assert_eq!(r.resolve_local(&"Waterloo".to_string()), Lookup::Cached((1, 2)));
}

#[test]
fn feed_station_needs_no_geocoding_and_is_cached() {
    let mut r = StationResolver::new(CoordinateCache::new(), feed());
    let name = "Waterloo".to_string();
    assert_eq!(r.resolve_local(&name), Lookup::Reference((10, 20)));
    assert_eq!(r.cache.get(&name), Some((10, 20)));
    assert_eq!(r.resolve_local(&name), Lookup::Cached((10, 20)));
}

#[test]
fn unknown_station_is_geocoded_once() {
    let mut r = StationResolver::new(CoordinateCache::new(), feed());
    let name = "Somewhere Else".to_string();
    assert_eq!(r.resolve_local(&name), Lookup::NeedsGeocoding);
    assert_eq!(r.accept_geocoding(&name, &vec![(7, 8), (9, 9)]), Ok((7, 8)));
    assert_eq!(r.cache.get(&name), Some((7, 8)));
    assert_eq!(r.resolve_local(&name), Lookup::Cached((7, 8)));
}

#[test]
fn empty_geocoding_result_is_resolution_error() {
    let mut r = StationResolver::new(CoordinateCache::new(), feed());
    let name = "Nowhere".to_string();
    assert_eq!(r.resolve_local(&name), Lookup::NeedsGeocoding);
    assert_eq!(r.accept_geocoding(&name, &vec![]), Err(ResolutionError));
    assert_eq!(r.cache.get(&name), None);
    assert_eq!(r.resolve_local(&name), Lookup::NeedsGeocoding);
}

#[test]
fn query_appends_locality() {
    assert_eq!(geocoding_query(&"Bank".to_string()), "Bank, London, UK");
}
