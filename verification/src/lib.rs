//! Command-line reconstruction: splitting a script into shell-style words,
//! expanding `$NAME` and `${NAME}` references against a layered scope, and
//! quoting argument lists so that a shell reads the same arguments back.

pub mod text;
pub mod words;
pub mod quote;
pub mod round_trip;
pub mod scope;
pub mod interpolate;
pub mod reference_laws;
pub mod arguments;
pub mod segments;
