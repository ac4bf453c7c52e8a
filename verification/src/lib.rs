//! Core of an image-based visit counter: themed digit glyph sets are loaded
//! from file contents into a deduplicated per-theme index, named counters are
//! incremented or set, and a counter value is rendered as a vector image that
//! places one glyph per decimal digit.

pub mod numfmt;
pub mod mime;
pub mod encode;
pub mod glyph;
pub mod assoc;
pub mod store;
pub mod theme;
pub mod render;
pub mod service;
