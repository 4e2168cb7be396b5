use bike_anomaly::split::{shuffle_and_split, split_dataset, InsufficientData};

#[test]
fn split_takes_test_partition_first() {
    let rows: Vec<u32> = (0..10).collect();
    let (test, train) = split_dataset(rows, 3, 5).unwrap();
    assert_eq!(test, vec![0, 1, 2]);
    assert_eq!(train, vec![3, 4, 5, 6, 7, 8, 9]);
}

#[test]
fn below_minimum_is_insufficient() {
    let rows: Vec<u32> = (0..10).collect();
    assert_eq!(split_dataset(rows, 5, 1000), Err(InsufficientData));
}

#[test]
fn more_test_rows_than_records_is_insufficient() {
    let rows: Vec<u32> = (0..10).collect();
    assert_eq!(split_dataset(rows, 11, 1), Err(InsufficientData));
}

#[test]
fn shuffled_split_covers_every_record_once() {
    let rows: Vec<u32> = (0..200).collect();
    let (test, train) = shuffle_and_split(rows, 50, 100).unwrap();
    assert_eq!(test.len(), 50);
    assert_eq!(train.len(), 150);
    let mut all: Vec<u32> = test.iter().chain(train.iter()).copied().collect();
    all.sort();
    assert_eq!(all, (0..200).collect::<Vec<u32>>());
}

#[test]
fn insufficient_data_ends_the_run() {
    let rows: Vec<u32> = (0..10).collect();
    assert!(shuffle_and_split(rows, 5, 1000).is_err());
}
