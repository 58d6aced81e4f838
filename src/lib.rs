//! A cubic grid of cells, each holding a small atomic model, with a
//! parallel resampling pass, parallel aggregation and charge classification.

pub mod atom;
pub mod builder;
mod sampling;
