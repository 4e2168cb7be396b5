use bike_anomaly::cache::CoordinateCache;
use bike_anomaly::duration::{FormatError, Seconds};
use bike_anomaly::resolver::{Lookup, StationResolver};
use bike_anomaly::trip::{enrich, feature_vector, feature_vectors, record_scores, FeatureVector, Trip};

fn trip(a: &str, b: &str, d: &str) -> Trip {
    Trip { start_station: a.to_string(), end_station: b.to_string(), total_duration: d.to_string() }
}

fn resolved(r: &mut StationResolver<(f64, f64)>, name: &String) -> (f64, f64) {
    match r.resolve_local(name) {
        Lookup::Cached(c) | Lookup::Reference(c) => c,
        Lookup::NeedsGeocoding => panic!("station not seeded"),
    }
}

#[test]
fn seeded_cache_end_to_end() {
    let mut cache = CoordinateCache::new();
    cache.put("A".to_string(), (-0.1, 51.5));
    cache.put("B".to_string(), (-0.2, 51.6));
    cache.put("C".to_string(), (-0.3, 51.7));
    let mut r = StationResolver::new(cache, vec![]);
    let trips = vec![trip("A", "B", "1h"), trip("B", "C", "30m"), trip("C", "A", "2d")];
    let mut rows = vec![];
    for t in trips {
        let s = resolved(&mut r, &t.start_station);
        let e = resolved(&mut r, &t.end_station);
        rows.push(enrich(t, s, e).unwrap());
    }
    let seconds: Vec<u64> = rows.iter().map(|e| e.duration_seconds.unwrap().scaled).collect();
    assert_eq!(seconds, vec![3600, 1800, 172800]);
    assert!(rows.iter().all(|e| e.duration_seconds.unwrap().places == 0));
    let vectors = feature_vectors(&rows);
    assert_eq!(
        vectors,
        vec![
            FeatureVector { origin: (-0.1, 51.5), destination: (-0.2, 51.6), seconds: Seconds { scaled: 3600, places: 0 } },
            FeatureVector { origin: (-0.2, 51.6), destination: (-0.3, 51.7), seconds: Seconds { scaled: 1800, places: 0 } },
            FeatureVector { origin: (-0.3, 51.7), destination: (-0.1, 51.5), seconds: Seconds { scaled: 172800, places: 0 } },
        ]
    );
    assert_eq!(feature_vector(&rows[2]), vectors[2]);
}

#[test]
fn malformed_duration_fails_enrichment() {
    assert!(matches!(enrich(trip("A", "B", "5x"), (0, 0), (1, 1)), Err(FormatError)));
}

#[test]
fn scores_are_written_back_in_order() {
    let mut rows = vec![
        enrich(trip("A", "B", "1s"), (0, 0), (1, 1)).unwrap(),
        enrich(trip("B", "C", "2s"), (1, 1), (2, 2)).unwrap(),
        enrich(trip("C", "A", "3s"), (2, 2), (0, 0)).unwrap(),
    ];
    record_scores(&mut rows, &vec![40, 10]);
    let scores: Vec<Option<u64>> = rows.iter().map(|e| e.score).collect();
    assert_eq!(scores, vec![Some(40), Some(10), None]);
    assert_eq!(rows[1].start_station, "B");
}
