//! The exchange's data types and the preparation and interpretation of
//! Bybit v5 requests and responses.

pub mod types;
pub mod bybit;
