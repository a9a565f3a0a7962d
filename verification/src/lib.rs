//! Generates Python `TypedDict` declarations from a relational database's
//! column catalog.
//!
//! The pipeline is: a flat stream of (table, column, nullability, native
//! type) tuples is classified into Python primitive kinds, grouped into one
//! declaration per table, and rendered as a deterministic, version-correct
//! block of Python source text. Database access and file output live in the
//! surrounding application; everything here is pure computation with proved
//! contracts.

pub mod db_introspector;
pub mod python_type_file_writer;
pub mod python_types;
pub mod strings;
pub mod views;
