//! Data-availability light client core: per-block sampling pipeline,
//! confidence scoring and packing, and the decision logic of a DHT
//! client that fetches and inserts erasure-coded matrix cells.

pub mod confidence;
pub mod decimal;
pub mod dht;
pub mod pipeline;
pub mod store;
pub mod types;
