//! Subtitles: the supported formats, subtitle timestamps, styles and errors.

pub mod editor;
pub mod error;
pub mod format;
pub mod model;
pub mod parser;
pub mod style;

use vstd::prelude::*;

pub use self::error::SubtitleError;
pub use self::format::SubtitleFormat;

verus! {

/// Character encodings of subtitle files.
#[derive(Debug, Clone, Copy, PartialEq, Eq, Structural)]
pub enum SubtitleEncoding {
    /// UTF-8.
    Utf8,
    /// UTF-16.
    Utf16,
    /// Latin-1 (ISO-8859-1).
    Latin1,
    /// Detected from the content.
    Auto,
}

impl Default for SubtitleEncoding {
    fn default() -> (e: Self)
        ensures
            e == SubtitleEncoding::Auto,
    {
        SubtitleEncoding::Auto
    }
}

} // verus!
