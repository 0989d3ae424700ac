//! Text generation from a base template: placeholders of the form `{name}`
//! are replaced by configured and time-derived values, and lines that open
//! with a marker are centred against the longest line of the document.

pub mod failure;
pub mod text;
pub mod lines;
pub mod center;
pub mod variables;
pub mod substitute;
pub mod moment;
pub mod decimal;
pub mod resolver;
pub mod storage;
pub mod cli;
pub mod config;
pub mod pipeline;
