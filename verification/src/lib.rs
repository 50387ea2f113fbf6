//! Core editing logic of the `edv` video editor: time values, timelines with
//! tracks and clips, track relationships, edit history, and subtitles.

pub mod utility;
pub mod project;
pub mod subtitle;
