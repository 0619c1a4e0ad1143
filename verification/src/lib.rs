//! A durable store of air-quality observations with scan-based queries.
//!
//! Observations are kept in a durable ordered map under identifiers that a
//! durable counter issues. Every query is a scan of the whole map in
//! ascending order of identifier. Measured quantities are binary64 numbers
//! held as their bit patterns; the time of an operation is handed in by the
//! caller.

pub mod codec;
pub mod durable;
pub mod laws;
pub mod listing;
pub mod measure;
pub mod query;
pub mod record;
pub mod store;
pub mod text;

pub use measure::Measure;
pub use query::{get_health_recommendations, Filter, IndexAverage};
pub use durable::StoreMemory;
pub use record::{AirQualityData, AirQualityUpdatePayload, Error, PollutantLevels, WeatherData};
pub use store::{AirQualityStore, OpenError};
