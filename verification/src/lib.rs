//! Conversion of arXiv papers into Markdown: identifier parsing, section
//! trees, filtering and rendering, with their contracts proved by Verus.
use vstd::prelude::*;

pub mod text;
pub mod model;
pub mod error;
pub mod id;
pub mod markdown;
pub mod sections;
pub mod cache;
pub mod cli;
pub mod pdf;
pub mod metadata;
pub mod latex;
pub mod dom;
pub mod html;
pub mod pipeline;

verus! {
} // verus!
