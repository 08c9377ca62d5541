//! A minimal command-line argument parser.
//!
//! A compact schema template such as `"l,p#,d*"` declares single-character
//! flags and their value kinds: bare letter for a boolean flag, `#` for a
//! signed 32-bit integer, `*` for text. [`args::Args::build`] compiles the
//! template, matches a list of raw tokens such as `-p5050` against it, and
//! the typed accessors read the resulting values.

pub mod args;
pub mod intparse;
pub mod messages;
pub mod model;
