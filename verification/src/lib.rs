//! Schema-driven flattening of nested documents into flat records.
//!
//! A [`schema::Schema`] says which fields of a document to keep, under which
//! names, and through which transforms. [`schema::Schema::extract`] walks it
//! against a [`value::Value`] and returns the records: nested objects are
//! flattened under a prefix, every element of an array gives rows of its
//! own, and sibling groups of rows are combined by [`merge::merge`], an
//! ordered cross product.
//!
//! What a schema means is stated over its [`plan::Plan`]; `laws` proves of it
//! how many records come out. Their number is the product of the lengths of
//! the arrays that the schema meets, so time and memory grow with that
//! product times the number of fields of the schema.

pub mod extract;
pub mod laws;
pub mod merge;
pub mod plan;
pub mod record;
pub mod schema;
pub mod transform;
pub mod value;
