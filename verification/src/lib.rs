//! A single-line status bar of fixed character width.
//!
//! A bar is an ordered list of segments: fixed-width blanks, dynamic spacers
//! that soak up the leftover width evenly, and groups of content modules
//! wrapped in decorative separators.  The modules themselves are external
//! content providers; this crate holds the rendering engine: separator
//! resolution, width accounting, dynamic-spacer sizing, and the reassembly of
//! the finished line in declaration order.

pub mod bar;
pub mod colored;
pub mod laws;
pub mod separators;
