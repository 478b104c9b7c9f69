//! A relative-error quantile sketch over whole-number counts.
//!
//! Samples are summarised by the bucket they fall into: a sign and an integer
//! bucket index. Bucket counts are whole numbers. Doubles that travel through
//! the library (the base and the offset of an index mapping, the counts inside
//! the byte format) are carried as their IEEE-754 bit patterns.

pub mod error;
pub mod input;
pub mod output;
pub mod flag;
pub mod encoding;
pub mod store_model;
pub mod store;
pub mod index_mapping;
pub mod store_codec;
pub mod sketch_codec;
pub mod sketch;
pub mod laws;
pub mod round_trip;
pub mod records;

pub use crate::sketch::DDSketch;
