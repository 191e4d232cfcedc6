//! Tags that a media playlist and a master playlist may both hold.
pub mod start;

pub use start::{ExtXStart, ExtXStartView};
