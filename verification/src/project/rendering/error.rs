//! Errors of rendering.

use vstd::prelude::*;
use crate::utility::text::{push_str, string_from_chars};

verus! {

/// The errors that can occur while rendering.
#[derive(Debug, Clone, PartialEq, Eq)]
pub enum RenderError {
    /// The encoder failed; the message says how.
    FFmpegError(String),
    /// The file system failed; the message says how.
    FileSystemError(String),
    /// The configuration is invalid.
    ConfigError(String),
    /// The render was cancelled.
    Cancelled,
    /// Another rendering error.
    Other(String),
}

/// The message of a render error.
pub open spec fn render_error_text(e: RenderError) -> Seq<char> {
    match e {
        RenderError::FFmpegError(m) => "FFmpeg error: "@ + m@,
        RenderError::FileSystemError(m) => "File system error: "@ + m@,
        RenderError::ConfigError(m) => "Invalid configuration: "@ + m@,
        RenderError::Cancelled => "Rendering was cancelled"@,
        RenderError::Other(m) => "Rendering error: "@ + m@,
    }
}

impl RenderError {
    /// The message of the error.
    pub fn message(&self) -> (s: String)
        ensures
            s@ == render_error_text(*self),
    {
        let mut out: Vec<char> = Vec::new();
        match self {
            RenderError::FFmpegError(m) => {
                push_str(&mut out, "FFmpeg error: ");
                push_str(&mut out, m.as_str());
            },
            RenderError::FileSystemError(m) => {
                push_str(&mut out, "File system error: ");
                push_str(&mut out, m.as_str());
            },
            RenderError::ConfigError(m) => {
                push_str(&mut out, "Invalid configuration: ");
                push_str(&mut out, m.as_str());
            },
            RenderError::Cancelled => push_str(&mut out, "Rendering was cancelled"),
            RenderError::Other(m) => {
                push_str(&mut out, "Rendering error: ");
                push_str(&mut out, m.as_str());
            },
        }
        string_from_chars(&out)
    }
}

} // verus!
