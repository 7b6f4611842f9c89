pub mod ast;
pub mod builtin;
pub mod config;
pub mod datetime;
pub mod convert;
pub mod emit;
pub mod diag;
pub mod fmt;
pub mod generator;
pub mod keyed;
pub mod number;
pub mod params;
pub mod parser;
pub mod plural;
pub mod resolve;
pub mod resolved;
pub mod syntax;
pub mod text;
pub mod util;
