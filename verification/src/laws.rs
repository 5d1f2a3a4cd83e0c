//! What holds of every run.

pub mod values;
pub mod order;
pub mod growth;
pub mod halting;
pub mod background;
pub mod records;
pub mod counts;
pub mod termination;
pub mod ends;
pub mod shape;
