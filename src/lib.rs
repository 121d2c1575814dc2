//! Socket-to-process correlation and two-point rate sampling.
//!
//! The library takes plain snapshots of sockets, processes and connection
//! counters, joins them into report rows, derives per-second rates from two
//! samples, aggregates them per socket and ranks the rows.
pub mod aggregate;
pub mod entry;
pub mod lex;
pub mod members;
pub mod process;
pub mod rank;
pub mod sampling;
pub mod socket;
pub mod text;
pub mod throughput;
