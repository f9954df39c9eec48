//! A small directory-listing library: classify, sort and partition directory
//! entries, and render them as compact or detailed textual listings.

pub mod config;
pub mod entry;
pub mod identity;
pub mod listing;
pub mod mode;
pub mod numeral;
pub mod order;
pub mod render;
