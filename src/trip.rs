use crate::duration::{duration_places, duration_seconds, parse_duration, FormatError, Seconds, MAX_PLACES};
use vstd::prelude::*;

verus! {

/// One input record: origin and destination station names and the raw
/// duration text.
pub struct Trip {
    pub start_station: String,
    pub end_station: String,
    pub total_duration: String,
}

/// A trip with what the pipeline learned of it. `score` is an order key of the
/// anomaly score: a larger key is a more anomalous record.
pub struct EnrichedTrip<C> {
    pub start_station: String,
    pub start_coords: Option<C>,
    pub end_station: String,
    pub end_coords: Option<C>,
    pub total_duration: String,
    pub duration_seconds: Option<Seconds>,
    pub score: Option<u64>,
}

/// The model input of one trip, in a fixed order: origin coordinate,
/// destination coordinate, duration in seconds.
#[derive(Debug, PartialEq, Eq)]
pub struct FeatureVector<C> {
    pub origin: C,
    pub destination: C,
    pub seconds: Seconds,
}

impl<C> EnrichedTrip<C> {
    /// Coordinates and duration are all known.
    pub open spec fn is_complete(&self) -> bool {
        &&& self.start_coords is Some
        &&& self.end_coords is Some
        &&& self.duration_seconds is Some
    }

    pub open spec fn vector_spec(&self) -> FeatureVector<C> {
        FeatureVector {
            origin: self.start_coords.unwrap(),
            destination: self.end_coords.unwrap(),
            seconds: self.duration_seconds.unwrap(),
        }
    }
}

/// Enriches `trip` with its resolved coordinates and its parsed duration;
/// fails when the duration text is malformed.
pub fn enrich<C>(trip: Trip, start: C, end: C) -> (r: Result<EnrichedTrip<C>, FormatError>)
    ensures
        match r {
            Ok(e) => {
                &&& duration_seconds(trip.total_duration@) == Some(
                    (
                        e.duration_seconds.unwrap().scaled as nat,
                        e.duration_seconds.unwrap().places as nat,
                    ),
                )
                &&& e.start_station == trip.start_station
                &&& e.end_station == trip.end_station
                &&& e.total_duration == trip.total_duration
                &&& e.start_coords == Some(start)
                &&& e.end_coords == Some(end)
                &&& e.duration_seconds is Some
                &&& e.score is None
            },
            Err(_) => duration_seconds(trip.total_duration@) is None || duration_places(
                trip.total_duration@,
            ) > MAX_PLACES || duration_seconds(trip.total_duration@).unwrap().0 > u64::MAX,
        },
{
    match parse_duration(trip.total_duration.as_str()) {
        Ok(seconds) => Ok(
            EnrichedTrip {
                start_station: trip.start_station,
                start_coords: Some(start),
                end_station: trip.end_station,
                end_coords: Some(end),
                total_duration: trip.total_duration,
                duration_seconds: Some(seconds),
                score: None,
            },
        ),
        Err(e) => Err(e),
    }
}

/// The feature vector of a complete record.
pub fn feature_vector<C: Copy>(e: &EnrichedTrip<C>) -> (r: FeatureVector<C>)
    requires
        e.is_complete(),
    ensures
        r == e.vector_spec(),
{
    FeatureVector {
        origin: e.start_coords.unwrap(),
        destination: e.end_coords.unwrap(),
        seconds: e.duration_seconds.unwrap(),
    }
}

/// The feature vectors of `rows`, index by index.
pub fn feature_vectors<C: Copy>(rows: &Vec<EnrichedTrip<C>>) -> (r: Vec<FeatureVector<C>>)
    requires
        forall|i: int| 0 <= i < rows@.len() ==> (#[trigger] rows@[i]).is_complete(),
    ensures
        r@.len() == rows@.len(),
        forall|i: int| 0 <= i < rows@.len() ==> r@[i] == (#[trigger] rows@[i]).vector_spec(),
{
    let mut r: Vec<FeatureVector<C>> = Vec::new();
    let mut i: usize = 0;
    while i < rows.len()
        invariant
            i <= rows@.len(),
            r@.len() == i,
            forall|j: int| 0 <= j < rows@.len() ==> (#[trigger] rows@[j]).is_complete(),
            forall|j: int| 0 <= j < i ==> r@[j] == (#[trigger] rows@[j]).vector_spec(),
        decreases rows@.len() - i,
    {
        r.push(feature_vector(&rows[i]));
        i = i + 1;
    }
    r
}

/// Writes `scores[i]` into the score of `rows[i]`; the records beyond the
/// scores keep theirs.
pub fn record_scores<C>(rows: &mut Vec<EnrichedTrip<C>>, scores: &Vec<u64>)
    requires
        scores@.len() <= old(rows)@.len(),
    ensures
        final(rows)@.len() == old(rows)@.len(),
        forall|i: int|
            0 <= i < final(rows)@.len() ==> ({
                let (a, b) = (#[trigger] final(rows)@[i], old(rows)@[i]);
                &&& a.start_station == b.start_station
                &&& a.start_coords == b.start_coords
                &&& a.end_station == b.end_station
                &&& a.end_coords == b.end_coords
                &&& a.total_duration == b.total_duration
                &&& a.duration_seconds == b.duration_seconds
                &&& a.score == if i < scores@.len() {
                    Some(scores@[i])
                } else {
                    b.score
                }
            }),
{
    let ghost initial = rows@;
    let mut i: usize = 0;
    while i < scores.len()
        invariant
            i <= scores@.len(),
            scores@.len() <= initial.len(),
            rows@.len() == initial.len(),
            forall|j: int|
                0 <= j < rows@.len() ==> ({
                    let (a, b) = (#[trigger] rows@[j], initial[j]);
                    &&& a.start_station == b.start_station
                    &&& a.start_coords == b.start_coords
                    &&& a.end_station == b.end_station
                    &&& a.end_coords == b.end_coords
                    &&& a.total_duration == b.total_duration
                    &&& a.duration_seconds == b.duration_seconds
                    &&& a.score == if j < i {
                        Some(scores@[j])
                    } else {
                        b.score
                    }
                }),
        decreases scores@.len() - i,
    {
        rows[i].score = Some(scores[i]);
        i = i + 1;
    }
}

} // verus!
