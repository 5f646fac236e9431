//! Scanning core of a keyboard-style switch-matrix controller.
//!
//! The core is a per-tick pipeline: a power supervisor decides when the grid
//! is scanned, a debounce filter turns raw per-cell readings into a stable
//! per-cell state, and one edge detector per cell turns stable-state
//! transitions into press/release events.  Pin configuration, the blocking
//! waits and the scan itself are supplied by the surrounding driver
//! environment; this crate holds and verifies the decisions made on the
//! values they produce.

pub mod event_mapper;
pub mod matrix;
pub mod supervisor;
