//! A lexical syntax highlighter: classifies a token stream over a source
//! text into a stream of tagged `Part` events, then renders those events
//! through one of three backends (HTML, JSON, LaTeX) with a shared color
//! table.

pub mod backend;
pub mod colors;
pub mod classifier;
