//! Parsing of IF_DATA blocks of A2L files.
pub mod a2ml;
pub mod ifdata_spec;
pub mod number;
pub mod parser;
pub mod tokens;
pub mod ifdata;
pub mod a2lfile;
pub mod structure;
pub mod ifdata_laws;
pub mod wellformed;
