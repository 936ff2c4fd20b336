//! Text layout for raster images: tokenizing text into words, whitespace and
//! emoji, measuring pixel extents against a deterministic font-metrics model,
//! and breaking text into width-constrained lines.

pub mod chars;
pub mod registry;
pub mod token;
pub mod emoji_parse;
pub mod source;
pub mod metrics;
pub mod layout;
pub mod measure;
pub mod wrap;
pub mod outline;
