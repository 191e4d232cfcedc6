//! Value types shared by the tags.
pub mod encryption_method;
pub mod initialization_vector;
pub mod protocol_version;
pub mod seconds;

pub use encryption_method::EncryptionMethod;
pub use initialization_vector::InitializationVector;
pub use protocol_version::ProtocolVersion;
pub use seconds::{Seconds, SecondsView};
