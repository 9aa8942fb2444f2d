//! Reassembly of nested columnar arrays from decoded leaf columns.
//!
//! A nested schema (structs, lists, fixed-size lists, maps, dictionaries) is
//! stored as a depth-first sequence of flat leaf columns.  This crate walks
//! the schema tree and the stack of leaf columns in lockstep and builds the
//! nested array value together with the bookkeeping of its shape.
//!
//! Reading a field takes three steps.  [`plan::leaf_requests`] says, for each
//! leaf column of the field, under which markers its pages are to be decoded
//! and which decoder will read its values.  The page-level decoder, which is
//! not part of this crate, answers each request with a
//! [`leaf::LeafColumn`].  [`columns_to_iter_recursive`] takes the columns off
//! the end of their stack, the last leaf first, decodes their values and folds
//! them into lists, maps and structs.
//!
//! The library holds floating-point values as bit patterns and 256-bit
//! integers as two halves.  It puts arrays together as the columns say and
//! fails where a column does not answer its request.  Its functions do not
//! panic on inputs that meet their preconditions.
//!
//! - [`schema`] holds the schema tree and the physical storage kinds.
//! - [`plan`] says what to ask of the page-level decoder for each leaf.
//! - [`leaf`] holds the decoders that turn stored values into logical ones.
//! - [`decimal`] reads decimals from big-endian two's-complement bytes.
//! - [`nested_utils`] holds the levels of shape and their validity.
//! - [`array`] holds the array values.
//! - [`nested`] is the reassembly itself, [`columns_to_iter_recursive`].
//! - [`laws`] states what holds of every reassembly.
//! - [`utils`] writes lists of names.

pub mod array;
pub mod decimal;
pub mod error;
pub mod laws;
pub mod leaf;
pub mod nested;
pub mod nested_utils;
pub mod plan;
pub mod schema;
pub mod utils;

pub use crate::error::Error;
pub use crate::nested::columns_to_iter_recursive;
