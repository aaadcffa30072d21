//! Line-oriented pattern search-and-replace engine: a line index over raw
//! bytes, a pattern compiler, a replacement-template compiler, a per-line
//! matcher, renderers for previews and exact rewrites, a context-window
//! controller, and the destination-aware output policy that ties them
//! together.

pub mod cli;
pub mod context;
pub mod file;
pub mod line;
pub mod output;
pub mod pattern;
pub mod render;
pub mod res;
pub mod search;
pub mod util;
