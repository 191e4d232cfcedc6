//! Tags that apply to the segments of a media playlist.
pub mod discontinuity;
pub mod inf;
pub mod key;

pub use discontinuity::ExtXDiscontinuity;
pub use inf::{ExtInf, ExtInfView};
pub use key::{ExtXKey, ExtXKeyView};
