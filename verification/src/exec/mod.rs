//! Order management.

pub mod oms;
