//! Codecs, hardware acceleration types and output formats, with the names the
//! encoder expects for them.

use vstd::prelude::*;
use crate::utility::text::{push_str, string_from_chars};

verus! {

/// Video codecs.
#[derive(Debug, Clone, Copy, PartialEq, Eq, Structural, Hash)]
pub enum VideoCodec {
    /// Copy the video stream without re-encoding.
    Copy,
    /// H.264/AVC.
    H264,
    /// H.265/HEVC.
    H265,
    /// VP9.
    VP9,
    /// AV1.
    AV1,
}

/// The encoder name of a video codec.
pub open spec fn video_codec_name(c: VideoCodec) -> Seq<char> {
    match c {
        VideoCodec::Copy => "copy"@,
        VideoCodec::H264 => "libx264"@,
        VideoCodec::H265 => "libx265"@,
        VideoCodec::VP9 => "libvpx-vp9"@,
        VideoCodec::AV1 => "libaom-av1"@,
    }
}

/// The name of a video codec variant, as in `H264`.
pub open spec fn video_codec_label(c: VideoCodec) -> Seq<char> {
    match c {
        VideoCodec::Copy => "Copy"@,
        VideoCodec::H264 => "H264"@,
        VideoCodec::H265 => "H265"@,
        VideoCodec::VP9 => "VP9"@,
        VideoCodec::AV1 => "AV1"@,
    }
}

impl Default for VideoCodec {
    fn default() -> (c: Self)
        ensures
            c == VideoCodec::H264,
    {
        VideoCodec::H264
    }
}

impl VideoCodec {
    /// The encoder name of the codec.
    pub fn to_ffmpeg_codec(&self) -> (s: &'static str)
        ensures
            s@ == video_codec_name(*self),
    {
        match self {
            VideoCodec::Copy => "copy",
            VideoCodec::H264 => "libx264",
            VideoCodec::H265 => "libx265",
            VideoCodec::VP9 => "libvpx-vp9",
            VideoCodec::AV1 => "libaom-av1",
        }
    }

    /// The name of the variant, as in `H264`.
    pub fn label(&self) -> (s: &'static str)
        ensures
            s@ == video_codec_label(*self),
    {
        match self {
            VideoCodec::Copy => "Copy",
            VideoCodec::H264 => "H264",
            VideoCodec::H265 => "H265",
            VideoCodec::VP9 => "VP9",
            VideoCodec::AV1 => "AV1",
        }
    }
}

/// Audio codecs.
#[derive(Debug, Clone, Copy, PartialEq, Eq, Structural, Hash)]
pub enum AudioCodec {
    /// Copy the audio stream without re-encoding.
    Copy,
    /// AAC.
    AAC,
    /// Opus.
    Opus,
    /// MP3.
    MP3,
    /// Vorbis.
    Vorbis,
}

/// The encoder name of an audio codec.
pub open spec fn audio_codec_name(c: AudioCodec) -> Seq<char> {
    match c {
        AudioCodec::Copy => "copy"@,
        AudioCodec::AAC => "aac"@,
        AudioCodec::Opus => "libopus"@,
        AudioCodec::MP3 => "libmp3lame"@,
        AudioCodec::Vorbis => "libvorbis"@,
    }
}

impl Default for AudioCodec {
    fn default() -> (c: Self)
        ensures
            c == AudioCodec::AAC,
    {
        AudioCodec::AAC
    }
}

impl AudioCodec {
    /// The encoder name of the codec.
    pub fn to_ffmpeg_codec(&self) -> (s: &'static str)
        ensures
            s@ == audio_codec_name(*self),
    {
        match self {
            AudioCodec::Copy => "copy",
            AudioCodec::AAC => "aac",
            AudioCodec::Opus => "libopus",
            AudioCodec::MP3 => "libmp3lame",
            AudioCodec::Vorbis => "libvorbis",
        }
    }
}

/// Hardware acceleration methods.
#[derive(Debug, Clone, Copy, PartialEq, Eq, Structural, Hash)]
pub enum HardwareAccelType {
    /// No hardware acceleration: the CPU only (printed as `None`).
    CpuOnly,
    /// NVIDIA GPUs (NVENC/NVDEC).
    Nvidia,
    /// AMD GPUs (AMF).
    Amd,
    /// Intel Quick Sync.
    Intel,
    /// The Video Acceleration API (Linux).
    Vaapi,
    /// DirectX Video Acceleration (Windows).
    Dxva2,
    /// Video Toolbox (macOS).
    VideoToolbox,
    /// The best method available, chosen when needed.
    Auto,
}

/// The decoder acceleration name of a method (none for `None` and `Auto`).
pub open spec fn hwaccel_name(a: HardwareAccelType) -> Option<Seq<char>> {
    match a {
        HardwareAccelType::CpuOnly => None,
        HardwareAccelType::Nvidia => Some("cuda"@),
        HardwareAccelType::Amd => Some("amf"@),
        HardwareAccelType::Intel => Some("qsv"@),
        HardwareAccelType::Vaapi => Some("vaapi"@),
        HardwareAccelType::Dxva2 => Some("dxva2"@),
        HardwareAccelType::VideoToolbox => Some("videotoolbox"@),
        HardwareAccelType::Auto => None,
    }
}

/// The hardware encoder of a method for a codec, where there is one.
pub open spec fn hw_encoder_name(a: HardwareAccelType, c: VideoCodec) -> Option<Seq<char>> {
    match (a, c) {
        (HardwareAccelType::Nvidia, VideoCodec::H264) => Some("h264_nvenc"@),
        (HardwareAccelType::Nvidia, VideoCodec::H265) => Some("hevc_nvenc"@),
        (HardwareAccelType::Amd, VideoCodec::H264) => Some("h264_amf"@),
        (HardwareAccelType::Amd, VideoCodec::H265) => Some("hevc_amf"@),
        (HardwareAccelType::Intel, VideoCodec::H264) => Some("h264_qsv"@),
        (HardwareAccelType::Intel, VideoCodec::H265) => Some("hevc_qsv"@),
        (HardwareAccelType::Vaapi, VideoCodec::H264) => Some("h264_vaapi"@),
        (HardwareAccelType::Vaapi, VideoCodec::H265) => Some("hevc_vaapi"@),
        (HardwareAccelType::VideoToolbox, VideoCodec::H264) => Some("h264_videotoolbox"@),
        (HardwareAccelType::VideoToolbox, VideoCodec::H265) => Some("hevc_videotoolbox"@),
        _ => None,
    }
}

/// The name of a method variant, as in `Nvidia`.
pub open spec fn accel_label(a: HardwareAccelType) -> Seq<char> {
    match a {
        HardwareAccelType::CpuOnly => "None"@,
        HardwareAccelType::Nvidia => "Nvidia"@,
        HardwareAccelType::Amd => "Amd"@,
        HardwareAccelType::Intel => "Intel"@,
        HardwareAccelType::Vaapi => "Vaapi"@,
        HardwareAccelType::Dxva2 => "Dxva2"@,
        HardwareAccelType::VideoToolbox => "VideoToolbox"@,
        HardwareAccelType::Auto => "Auto"@,
    }
}

/// The methods found on a machine, given what was probed there: `None` always;
/// NVIDIA; AMD with VA-API; Intel; DirectX on Windows; Video Toolbox on macOS;
/// and `Auto` when anything besides `None` was found.
pub open spec fn available_methods(nvidia: bool, amd: bool, intel: bool, windows: bool, macos: bool) -> Seq<
    HardwareAccelType,
> {
    let s0 = seq![HardwareAccelType::CpuOnly];
    let s1 = if nvidia { s0.push(HardwareAccelType::Nvidia) } else { s0 };
    let s2 = if amd { s1.push(HardwareAccelType::Amd).push(HardwareAccelType::Vaapi) } else { s1 };
    let s3 = if intel { s2.push(HardwareAccelType::Intel) } else { s2 };
    let s4 = if windows { s3.push(HardwareAccelType::Dxva2) } else { s3 };
    let s5 = if macos { s4.push(HardwareAccelType::VideoToolbox) } else { s4 };
    if s5.len() > 1 { s5.push(HardwareAccelType::Auto) } else { s5 }
}

impl Default for HardwareAccelType {
    fn default() -> (a: Self)
        ensures
            a == HardwareAccelType::CpuOnly,
    {
        HardwareAccelType::CpuOnly
    }
}

impl HardwareAccelType {
    /// The decoder acceleration name of the method, if it has one.
    pub fn to_ffmpeg_hwaccel(&self) -> (r: Option<&'static str>)
        ensures
            match r {
                Some(s) => hwaccel_name(*self) == Some(s@),
                None => hwaccel_name(*self) is None,
            },
    {
        match self {
            HardwareAccelType::CpuOnly => None,
            HardwareAccelType::Nvidia => Some("cuda"),
            HardwareAccelType::Amd => Some("amf"),
            HardwareAccelType::Intel => Some("qsv"),
            HardwareAccelType::Vaapi => Some("vaapi"),
            HardwareAccelType::Dxva2 => Some("dxva2"),
            HardwareAccelType::VideoToolbox => Some("videotoolbox"),
            HardwareAccelType::Auto => None,
        }
    }

    /// The hardware encoder of the method for `codec`, if there is one.
    pub fn get_hw_encoder_name(&self, codec: VideoCodec) -> (r: Option<&'static str>)
        ensures
            match r {
                Some(s) => hw_encoder_name(*self, codec) == Some(s@),
                None => hw_encoder_name(*self, codec) is None,
            },
    {
        match (self, codec) {
            (HardwareAccelType::Nvidia, VideoCodec::H264) => Some("h264_nvenc"),
            (HardwareAccelType::Nvidia, VideoCodec::H265) => Some("hevc_nvenc"),
            (HardwareAccelType::Amd, VideoCodec::H264) => Some("h264_amf"),
            (HardwareAccelType::Amd, VideoCodec::H265) => Some("hevc_amf"),
            (HardwareAccelType::Intel, VideoCodec::H264) => Some("h264_qsv"),
            (HardwareAccelType::Intel, VideoCodec::H265) => Some("hevc_qsv"),
            (HardwareAccelType::Vaapi, VideoCodec::H264) => Some("h264_vaapi"),
            (HardwareAccelType::Vaapi, VideoCodec::H265) => Some("hevc_vaapi"),
            (HardwareAccelType::VideoToolbox, VideoCodec::H264) => Some("h264_videotoolbox"),
            (HardwareAccelType::VideoToolbox, VideoCodec::H265) => Some("hevc_videotoolbox"),
            _ => None,
        }
    }

    /// The name of the variant, as in `Nvidia`.
    pub fn label(&self) -> (s: &'static str)
        ensures
            s@ == accel_label(*self),
    {
        match self {
            HardwareAccelType::CpuOnly => "None",
            HardwareAccelType::Nvidia => "Nvidia",
            HardwareAccelType::Amd => "Amd",
            HardwareAccelType::Intel => "Intel",
            HardwareAccelType::Vaapi => "Vaapi",
            HardwareAccelType::Dxva2 => "Dxva2",
            HardwareAccelType::VideoToolbox => "VideoToolbox",
            HardwareAccelType::Auto => "Auto",
        }
    }

    /// The methods available on a machine, from what was probed there (see
    /// `available_methods`).
    pub fn available_from(nvidia: bool, amd: bool, intel: bool, windows: bool, macos: bool) -> (v: Vec<Self>)
        ensures
            v@ == available_methods(nvidia, amd, intel, windows, macos),
    {
        let mut v: Vec<HardwareAccelType> = Vec::new();
        v.push(HardwareAccelType::CpuOnly);
        if nvidia {
            v.push(HardwareAccelType::Nvidia);
        }
        if amd {
            v.push(HardwareAccelType::Amd);
            v.push(HardwareAccelType::Vaapi);
        }
        if intel {
            v.push(HardwareAccelType::Intel);
        }
        if windows {
            v.push(HardwareAccelType::Dxva2);
        }
        if macos {
            v.push(HardwareAccelType::VideoToolbox);
        }
        if v.len() > 1 {
            v.push(HardwareAccelType::Auto);
        }
        v
    }
}

/// Whether rendering with the method `accel` and the codec `codec` uses hardware
/// acceleration: never for `None` or `Auto`, otherwise when the method has an
/// encoder for the codec.
pub open spec fn uses_hardware(accel: HardwareAccelType, codec: VideoCodec) -> bool {
    accel != HardwareAccelType::CpuOnly && accel != HardwareAccelType::Auto && hw_encoder_name(accel, codec) is Some
}

/// Whether hardware acceleration is used for the method `accel` and the codec `codec`.
pub fn should_use_hardware_acceleration(accel: HardwareAccelType, codec: VideoCodec) -> (b: bool)
    ensures
        b == uses_hardware(accel, codec),
{
    if accel == HardwareAccelType::CpuOnly {
        return false;
    }
    if accel == HardwareAccelType::Auto {
        return false;
    }
    accel.get_hw_encoder_name(codec).is_some()
}

/// Checks render settings: the output path must be given, both dimensions must be
/// positive, the frame rate must be positive, and a hardware method other than
/// `None` and `Auto` must have an encoder for the codec. The first failed check
/// gives the message.
pub fn validate_settings(
    output_path_is_empty: bool,
    width: u32,
    height: u32,
    frame_rate_is_positive: bool,
    accel: HardwareAccelType,
    codec: VideoCodec,
) -> (r: Result<(), String>)
    ensures
        output_path_is_empty ==> (r matches Err(m) && m@ == "Output path cannot be empty"@),
        !output_path_is_empty && (width == 0 || height == 0) ==> (r matches Err(m) && m@
            == "Video dimensions cannot be zero"@),
        !output_path_is_empty && width > 0 && height > 0 && !frame_rate_is_positive ==> (r matches Err(m) && m@
            == "Frame rate must be positive"@),
        !output_path_is_empty && width > 0 && height > 0 && frame_rate_is_positive && accel
            != HardwareAccelType::CpuOnly && accel != HardwareAccelType::Auto && hw_encoder_name(accel, codec) is None
            ==> (r matches Err(m) && m@ == "Selected video codec ("@ + video_codec_label(codec)
            + ") is not compatible with hardware acceleration type ("@ + accel_label(accel) + ")"@),
        !output_path_is_empty && width > 0 && height > 0 && frame_rate_is_positive && (accel
            == HardwareAccelType::CpuOnly || accel == HardwareAccelType::Auto || hw_encoder_name(accel, codec) is Some)
            ==> r is Ok,
{
    let mut out: Vec<char> = Vec::new();
    if output_path_is_empty {
        push_str(&mut out, "Output path cannot be empty");
        return Err(string_from_chars(&out));
    }
    if width == 0 || height == 0 {
        push_str(&mut out, "Video dimensions cannot be zero");
        return Err(string_from_chars(&out));
    }
    if !frame_rate_is_positive {
        push_str(&mut out, "Frame rate must be positive");
        return Err(string_from_chars(&out));
    }
    if accel != HardwareAccelType::CpuOnly && accel != HardwareAccelType::Auto {
        if accel.get_hw_encoder_name(codec).is_none() {
            push_str(&mut out, "Selected video codec (");
            push_str(&mut out, codec.label());
            push_str(&mut out, ") is not compatible with hardware acceleration type (");
            push_str(&mut out, accel.label());
            push_str(&mut out, ")");
            return Err(string_from_chars(&out));
        }
    }
    Ok(())
}

/// Output container formats.
#[derive(Debug, Clone, Copy, PartialEq, Eq, Structural, Hash)]
pub enum OutputFormat {
    /// MP4 (the default).
    MP4,
    /// WebM.
    WebM,
    /// QuickTime MOV.
    MOV,
    /// Matroska.
    MKV,
    /// Animated GIF (video only).
    GIF,
}

/// The file extension of an output format.
pub open spec fn format_extension(f: OutputFormat) -> Seq<char> {
    match f {
        OutputFormat::MP4 => "mp4"@,
        OutputFormat::WebM => "webm"@,
        OutputFormat::MOV => "mov"@,
        OutputFormat::MKV => "mkv"@,
        OutputFormat::GIF => "gif"@,
    }
}

impl Default for OutputFormat {
    fn default() -> (f: Self)
        ensures
            f == OutputFormat::MP4,
    {
        OutputFormat::MP4
    }
}

impl OutputFormat {
    /// The file extension of the format.
    pub fn extension(&self) -> (s: &'static str)
        ensures
            s@ == format_extension(*self),
    {
        match self {
            OutputFormat::MP4 => "mp4",
            OutputFormat::WebM => "webm",
            OutputFormat::MOV => "mov",
            OutputFormat::MKV => "mkv",
            OutputFormat::GIF => "gif",
        }
    }
}

} // verus!
