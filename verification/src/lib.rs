//! Order-book maintenance, order management and request preparation for a
//! Bybit market-making system, with their contracts proved by Verus.

pub mod decimal;
pub mod md;
pub mod exchange;
pub mod text;
pub mod clock;
pub mod exec;
pub mod config;
pub mod signals;
pub mod logging;
