//! Parsing and serialization of the tags of HTTP Live Streaming
//! playlists, in the M3U8 text format.
//!
//! A playlist is a text of lines. A line that begins with the prefix of a
//! tag is read into a typed [`Tag`], whose text, read again, gives the
//! same tag. Each tag knows the lowest protocol version with which it
//! can be used, and a [`Playlist`] holds the version that it declares
//! against the highest that its tags require.
//!
//! Every function of the crate has a contract over the characters of its
//! input, and is proved to meet it.
pub mod attribute;
pub mod error;
pub mod playlist;
pub mod tags;
pub mod text;
pub mod types;
pub mod utils;

pub use attribute::{Attribute, AttributeList};
pub use error::{Cause, Error, ErrorView};
pub use playlist::{
    parse_playlist, parse_playlist_text, split_lines, Entry, Playlist, UnknownPolicy,
};
pub use tags::{Tag, TagKind};
pub use types::{EncryptionMethod, InitializationVector, ProtocolVersion, Seconds};
