//! Response-body processing: pretty printing, line indexing, view tiers.
pub mod cancel;
pub mod line_index;
pub mod pretty;
pub mod text;
pub mod tier;
