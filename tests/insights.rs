use bike_anomaly::codes::StationCodes;
use bike_anomaly::insights::{least_common, longest_journey, most_common, shortest_journey, station_counts};

fn names(v: &[&str]) -> Vec<String> {
    v.iter().map(|s| s.to_string()).collect()
}

#[test]
fn counts_each_station_once_in_first_appearance_order() {
    let counts = station_counts(&names(&["A", "B", "A", "C", "A", "B"]));
    let pairs: Vec<(String, u64)> = counts.iter().map(|c| (c.name.clone(), c.count)).collect();
    assert_eq!(pairs, vec![("A".to_string(), 3), ("B".to_string(), 2), ("C".to_string(), 1)]);
}

#[test]
fn most_and_least_common_stations() {
    let counts = station_counts(&names(&["A", "B", "A", "C", "A", "B", "D"]));
    assert_eq!(most_common(&counts).map(|i| counts[i].name.as_str()), Some("A"));
    assert_eq!(least_common(&counts).map(|i| counts[i].name.as_str()), Some("C"));
}

#[test]
fn no_journeys_have_no_extremes() {
    let counts = station_counts(&vec![]);
    assert!(counts.is_empty());
    assert_eq!(most_common(&counts), None);
    assert_eq!(least_common(&counts), None);
    assert_eq!(shortest_journey(&vec![]), None);
    assert_eq!(longest_journey(&vec![]), None);
}

#[test]
fn shortest_is_first_minimum_longest_is_last_maximum() {
    let seconds = vec![60, 5, 900, 5, 900, 30];
    assert_eq!(shortest_journey(&seconds), Some(1));
    assert_eq!(longest_journey(&seconds), Some(4));
}

#[test]
fn station_codes_follow_first_appearance() {
    let mut codes = StationCodes::new();
    let got: Vec<u64> = ["A", "B", "A", "C", "B"].iter().map(|n| codes.code_of(&n.to_string())).collect();
    assert_eq!(got, vec![0, 1, 0, 2, 1]);
}
