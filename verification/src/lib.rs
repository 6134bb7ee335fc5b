//! Extraction of engine and transmission records from line-oriented vehicle
//! definition text, and their aggregation into a catalog keyed by brand.
//!
//! The library works on plain values: the text of a file, the entries of a
//! directory. Reading them from disk and writing the catalog out is left to
//! the caller.
//!
//! * [`text`] and [`pattern`]: characters, whitespace, search, split, join.
//! * [`lines`]: a text to its lines.
//! * [`fields`]: one line to one value.
//! * [`marks`]: the lines that carry a marker, and the name that lines give.
//! * [`engine`] and [`transmission`]: the lines of a definition to a record.
//! * [`listing`]: directory entries to definition files and model folders.
//! * [`models`]: the loaded files of a model folder to the model's entry.
//! * [`catalog`]: model entries grouped under their brands.

pub mod catalog;
pub mod engine;
pub mod fields;
pub mod lines;
pub mod listing;
pub mod marks;
pub mod models;
pub mod pattern;
pub mod records;
pub mod text;
pub mod transmission;
