//! Analysis core of a histogramming engine for event-structured detector
//! data: a parameter registry, sparse and flattened events, gates
//! ("conditions") that may be combined and redefined by name, and spectra
//! that are incremented by the events their gates accept.
//!
//! Parameter values, axis limits and bin edges are whole numbers (`i64`);
//! bin counts are `u64`.

pub mod errors;
pub mod parameters;
pub mod conditions;
pub mod spectra;
pub mod ring_items;
