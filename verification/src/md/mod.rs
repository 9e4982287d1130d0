//! Market data: the order book, and the handling of feed and replay events.

pub mod bybit_ws;
pub mod handler;
pub mod replay;
pub mod types;
