//! Errors of subtitle processing.

use vstd::prelude::*;
use crate::subtitle::format::TimePosition;

verus! {

/// The errors of subtitle processing.
#[derive(Debug, Clone, PartialEq, Eq)]
pub enum SubtitleError {
    /// A subtitle file could not be parsed.
    ParseError { file: Option<String>, reason: String },
    /// The subtitle format is invalid or not supported.
    InvalidSubtitleFormat(String),
    /// The subtitle format is unknown.
    UnknownFormat,
    /// No parser exists for the format.
    UnsupportedParserFormat(String),
    /// No writer exists for the format.
    UnsupportedExportFormat(String),
    /// A timestamp or timing is invalid.
    TimingError(String),
    /// The formatting is invalid.
    FormattingError(String),
    /// The text could not be encoded or decoded.
    EncodingError(String),
    /// Reading or writing failed; the message says how.
    IoError(String),
    /// The start of a time range is not before its end.
    InvalidTimeRange { start: TimePosition, end: TimePosition },
    /// A split point lies outside the subtitle.
    InvalidSplitPoint { split_time: TimePosition, start: TimePosition, end: TimePosition },
    /// No file path was given for saving.
    NoFilePath,
    /// A subtitle could not be rendered.
    RenderError(String),
    /// Subtitles could not be burnt into a video.
    BurnError(String),
    /// The encoder failed.
    FFmpegError(String),
}

impl SubtitleError {
    /// A timing error with the message `message`.
    pub fn timing_error(message: String) -> (e: Self)
        ensures
            e == SubtitleError::TimingError(message),
    {
        SubtitleError::TimingError(message)
    }

    /// A parse error with only a reason.
    pub fn parse_error_with_reason(reason: String) -> (e: Self)
        ensures
            e == (SubtitleError::ParseError { file: None, reason }),
    {
        SubtitleError::ParseError { file: None, reason }
    }

    /// A parse error of the file `file`.
    pub fn parse_error(file: String, reason: String) -> (e: Self)
        ensures
            e == (SubtitleError::ParseError { file: Some(file), reason }),
    {
        SubtitleError::ParseError { file: Some(file), reason }
    }

    /// An error for a split point outside the subtitle from `start` to `end`.
    pub fn invalid_split_point(split_time: TimePosition, start: TimePosition, end: TimePosition) -> (e: Self)
        ensures
            e == (SubtitleError::InvalidSplitPoint { split_time, start, end }),
    {
        SubtitleError::InvalidSplitPoint { split_time, start, end }
    }

    /// A formatting error with the message `message`.
    pub fn formatting_error(message: String) -> (e: Self)
        ensures
            e == SubtitleError::FormattingError(message),
    {
        SubtitleError::FormattingError(message)
    }

    /// An encoding error with the message `message`.
    pub fn encoding_error(message: String) -> (e: Self)
        ensures
            e == SubtitleError::EncodingError(message),
    {
        SubtitleError::EncodingError(message)
    }

    /// An error for an invalid subtitle format.
    pub fn invalid_subtitle_format(message: String) -> (e: Self)
        ensures
            e == SubtitleError::InvalidSubtitleFormat(message),
    {
        SubtitleError::InvalidSubtitleFormat(message)
    }

    /// An error for a format no parser reads.
    pub fn unsupported_parser_format(format: String) -> (e: Self)
        ensures
            e == SubtitleError::UnsupportedParserFormat(format),
    {
        SubtitleError::UnsupportedParserFormat(format)
    }

    /// An error for a format no writer writes.
    pub fn unsupported_export_format(format: String) -> (e: Self)
        ensures
            e == SubtitleError::UnsupportedExportFormat(format),
    {
        SubtitleError::UnsupportedExportFormat(format)
    }

    /// A rendering error with the message `message`.
    pub fn render_error(message: String) -> (e: Self)
        ensures
            e == SubtitleError::RenderError(message),
    {
        SubtitleError::RenderError(message)
    }

    /// An error of burning subtitles into a video.
    pub fn burn_error(message: String) -> (e: Self)
        ensures
            e == SubtitleError::BurnError(message),
    {
        SubtitleError::BurnError(message)
    }

    /// An error for an unknown subtitle format.
    pub fn unknown_subtitle_format() -> (e: Self)
        ensures
            e == SubtitleError::UnknownFormat,
    {
        SubtitleError::UnknownFormat
    }

    /// An error for saving without a file path.
    pub fn no_file_path() -> (e: Self)
        ensures
            e == SubtitleError::NoFilePath,
    {
        SubtitleError::NoFilePath
    }

    /// An error for an invalid time range.
    pub fn invalid_time_range(start: TimePosition, end: TimePosition) -> (e: Self)
        ensures
            e == (SubtitleError::InvalidTimeRange { start, end }),
    {
        SubtitleError::InvalidTimeRange { start, end }
    }
}

} // verus!
