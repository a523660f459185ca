//! Rendering: one renderer for each family of output formats, and what they share.

pub mod generic;
pub mod latex;
pub mod markdown;
pub mod references;
pub mod run;
pub mod shortcode;
pub mod tree;
