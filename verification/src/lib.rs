//! Text formatting for a diagnostic report on graphics adapters: flag-name
//! extraction, greedy line wrapping, grouping of memory types by heap and
//! trimming of a limits dump.

pub mod heaps;
pub mod limits;
pub mod report;
pub mod text;
pub mod tokens;
pub mod wrap;
pub mod wrap_proofs;

