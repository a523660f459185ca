//! The tree builder: from raw elements to the syntax tree.

pub mod call;
pub mod collector;
pub mod cuts;
pub mod depth;
pub mod markdown;
pub mod numbering;
pub mod roundtrip;
pub mod text;
