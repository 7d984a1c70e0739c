//! Usage log of a command-line search client: the records it keeps, the
//! line-delimited store they live in, and the history and statistics views
//! computed from them.
//!
//! The library is pure: it turns values into values. Reading and writing the
//! log file, the clock, the network and the terminal belong to the caller.
//!
//! - [`record`]: the record kept for each query.
//! - [`store`]: the log as a text of lines, with the laws of appending and reading.
//! - [`history`]: the most recent records, as rows and as printed lines.
//! - [`stats`]: counts and costs per mode, with their laws in [`stats_laws`].
//! - [`response`]: what is shown of an answer.
//! - [`cli`], [`mode`], [`color`], [`text`]: commands, mode tags, terminal
//!   styles and text primitives that the others build on.

pub mod cli;
pub mod color;
pub mod history;
pub mod mode;
pub mod record;
pub mod response;
pub mod stats;
pub mod stats_laws;
pub mod store;
pub mod text;
