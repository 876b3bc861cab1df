//! Call tracing for Rust functions.
//!
//! [`nekotracing`] rewrites a function declaration so that every call
//! appends one record to `tracing.txt`: where the call was compiled, the
//! function's name, its arguments, its result and how long it took. The
//! rewritten body calls back into this crate ([`join_args`], [`arg_entry`],
//! [`receiver_entry`], [`trace_record`]) to build the record, and
//! [`parse_execution_time`] reads the elapsed time back out of a record.
//!
//! Code expanded from the attribute therefore names this crate by path: a
//! crate that uses the attribute depends on this crate at run time, and on
//! `tokio` (features `fs` and `io-util`) when it instruments `async`
//! functions.
pub mod duration;
pub mod record;
pub mod scan;
pub mod text;
pub mod transform;

pub use duration::format_duration;
pub use record::{arg_entry, format_record, join_args, receiver_entry, trace_record};
pub use scan::parse_execution_time;
pub use transform::{nekotracing, param_expr, FnDecl, FnParam};
