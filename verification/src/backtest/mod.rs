//! Replaying strategies on markets of the past.

pub mod data;
pub mod report;
pub mod simulate;
pub mod sweep;
