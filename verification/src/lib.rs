//! The logging core of a structured-logging framework for embedded devices.
//!
//! Two things are decided here. At build time, which log statements may
//! emit anything at all: a filter string and the name of the package under
//! compilation make a table of minimum severities ([`env_filter`]), and the
//! table gives, for each severity, the predicate that admits a call site by
//! its namespace path. At run time, what a value puts on the wire
//! ([`format`]): a tag that names its shape, where the reader cannot know
//! the shape, and its payload.
//!
//! Every function states what it returns, and the statements are proved, but
//! for what [`ident`], [`impls`] and [`snapshot`] take on trust of code from
//! outside: each of these says where.

pub mod directive;
pub mod env_filter;
pub mod format;
pub mod ident;
pub mod impls;
pub mod level;
pub mod snapshot;
pub mod text;
pub mod tuples;
pub mod wire;
