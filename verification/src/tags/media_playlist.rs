//! Tags that apply to a media playlist as a whole.
pub mod discontinuity_sequence;
pub mod end_list;
pub mod i_frames_only;
pub mod media_sequence;
pub mod target_duration;

pub use discontinuity_sequence::ExtXDiscontinuitySequence;
pub use end_list::ExtXEndList;
pub use i_frames_only::ExtXIFramesOnly;
pub use media_sequence::ExtXMediaSequence;
pub use target_duration::ExtXTargetDuration;
