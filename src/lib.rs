//! Turns an ordinary web page into an RSS feed: URL classification, text
//! repair, structured-data and heuristic article extraction, filtering and
//! feed rendering.

pub mod text;
pub mod urls;
pub mod item;
pub mod jsonld;
pub mod dom;
pub mod extract;
pub mod feed;
pub mod pipeline;
