//! Feature resolution and anomaly ranking for bicycle-share trip records.
//!
//! The library parses trip durations, resolves station names to coordinates
//! through a read-through cache, turns each trip into a fixed-width feature
//! vector, partitions the dataset, and ranks scored records.

pub mod duration;
pub mod cache;
pub mod resolver;
pub mod trip;
pub mod split;
pub mod rank;
pub mod insights;
pub mod codes;
