//! Tags that any playlist may hold.
pub mod version;

pub use version::ExtXVersion;
