//! Conversion between record-oriented event streams and Arrow-style columns.
//!
//! Records travel as balanced streams of [`event::Event`]s. A schema, a list
//! of [`schema::Field`]s, directs how such a stream is appended to columns
//! ([`array::Array`]) and how columns are read back into events.
//!
//! - [`serializer::serialize`] builds columns from the events of records,
//!   [`deserializer::deserialize`] reads the events of records from columns,
//!   and [`tracer::trace_schema`] infers a schema from the events of samples.
//! - [`builders`] and [`sources`] append and read single rows; [`finish`]
//!   holds the builders of single columns and the limits of the data types.
//! - [`dsl`] and [`descriptor`] read data types and schemas from their
//!   written forms.
//! - [`laws`] states what holds across these parts.
pub mod error;
pub mod text;
pub mod schema;
pub mod event;
pub mod value;
pub mod parser;
pub mod temporal;
pub mod decimal;
pub mod bitmap;
pub mod float;
pub mod array;
pub mod sources;
pub mod deserializer;
pub mod builders;
pub mod serializer;
pub mod finish;
pub mod tracer;
pub mod dsl;
pub mod descriptor;
pub mod laws;
