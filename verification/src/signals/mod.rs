//! The integer and decimal parts of the microstructure signals.

pub mod microstructure;
