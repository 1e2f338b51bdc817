//! The presentation layer of a process-listing terminal tool: keyword
//! classification and search, tree ancestor closure, sort-column resolution,
//! column width negotiation, render-policy decisions, and theme-aware color
//! resolution, each with a verified contract.

pub mod config;
pub mod style;
pub mod util;
pub mod view;
