//! Naming and sequencing of the media files posted to a monitored channel.
//!
//! A post of the channel may carry a photo, a video or an audio track. The
//! library selects the file to keep ([`extractor`]), counts it within its
//! media group ([`sequencer`]), gives it a name that holds its unique
//! identifier and never leaves the directory it is stored in ([`resolver`]),
//! and leads the caller through fetching and storing it ([`handler`]).
//! Fetching and storing themselves are the caller's part.
//!
//! Every function states what it returns over the characters of its
//! arguments, and the laws that bind the functions together are proved next
//! to them.

pub mod extractor;
pub mod handler;
pub mod path;
pub mod resolver;
pub mod sequencer;
pub mod text;
