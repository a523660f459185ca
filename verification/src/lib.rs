//! A document compiler. Markdown and notebooks with shortcodes become a
//! syntax tree, and the tree is rendered to templated markup, to LaTeX, or
//! back to markdown.
//!
//! `scanner` and `segments` find code spans and shortcodes in raw text,
//! `builder` makes the tree, `ast`, `notebook` and `document` hold the data,
//! `templates` binds shortcode calls to their parameters, and `renderers`
//! turn the tree into a `plan` that the `engine` runs.

pub mod ast;
pub mod builder;
pub mod counter;
pub mod document;
pub mod engine;
pub mod events;
pub mod front_matter;
pub mod notebook;
pub mod plan;
pub mod preprocessors;
pub mod renderers;
pub mod scanner;
pub mod segments;
pub mod templates;
