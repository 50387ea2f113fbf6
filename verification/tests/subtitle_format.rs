use edv::subtitle::format::{SubtitleFormat, TimePosition};
use edv::subtitle::style::{FontStyle, HorizontalAlign, VerticalAlign};
use edv::subtitle::{SubtitleEncoding, SubtitleError};

#[test]
fn test_subtitle_format_detection_from_extension() {
    assert_eq!(SubtitleFormat::from_extension("test.srt").unwrap(), SubtitleFormat::Srt);
    assert_eq!(SubtitleFormat::from_extension("test.vtt").unwrap(), SubtitleFormat::Vtt);
    assert_eq!(SubtitleFormat::from_extension("test.ass").unwrap(), SubtitleFormat::Ass);
    assert_eq!(SubtitleFormat::from_extension("test.ssa").unwrap(), SubtitleFormat::Ass);
    assert_eq!(SubtitleFormat::from_extension("test.sub").unwrap(), SubtitleFormat::SubViewer);

    assert!(SubtitleFormat::from_extension("test.txt").is_err());
}

#[test]
fn test_time_position_parsing() {
    let srt_time = "01:23:45,678";
    let vtt_time = "01:23:45.678";

    let time1 = TimePosition::parse_srt(srt_time).unwrap();
    let time2 = TimePosition::parse_vtt(vtt_time).unwrap();

    assert_eq!(time1, time2);
    assert_eq!(time1.hours, 1);
    assert_eq!(time1.minutes, 23);
    assert_eq!(time1.seconds, 45);
    assert_eq!(time1.milliseconds, 678);

    assert!(TimePosition::parse_srt("invalid").is_err());
    assert!(TimePosition::parse_vtt("01:23:invalid").is_err());
}

#[test]
fn test_format_display_and_parsing() {
    let formats = [
        SubtitleFormat::Srt,
        SubtitleFormat::Vtt,
        SubtitleFormat::WebVtt,
        SubtitleFormat::Ass,
        SubtitleFormat::AdvancedSsa,
        SubtitleFormat::SubViewer,
        SubtitleFormat::MicroDVD,
    ];
    for format in formats {
        let parsed = SubtitleFormat::parse_name(format.name()).unwrap();
        assert_eq!(format, parsed);
    }
    assert!(SubtitleFormat::parse_name("Unknown").is_err());
    for format in formats {
        let parsed = SubtitleFormat::parse_name(format.extension());
        if format.extension() == "sub" {
            assert_eq!(parsed.unwrap(), SubtitleFormat::SubViewer);
        } else {
            assert_eq!(parsed.unwrap(), format);
        }
    }
    assert_eq!(SubtitleFormat::Srt.name(), "SubRip");
    assert_eq!(SubtitleFormat::Vtt.name(), "WebVTT");
    assert_eq!(SubtitleFormat::AdvancedSsa.name(), "Advanced SubStation Alpha");
    assert_eq!(SubtitleFormat::parse_name("WebVTT").unwrap(), SubtitleFormat::WebVtt);
    assert_eq!(SubtitleFormat::parse_name("microdvd").unwrap(), SubtitleFormat::MicroDVD);
    match SubtitleFormat::parse_name("foo") {
        Err(SubtitleError::InvalidSubtitleFormat(m)) => assert_eq!(m, "Unsupported subtitle format: foo"),
        _ => panic!("expected an error"),
    }
}

#[test]
fn extension_case_and_paths() {
    assert_eq!(SubtitleFormat::from_extension("dir/MOVIE.SRT").unwrap(), SubtitleFormat::Srt);
    assert_eq!(SubtitleFormat::from_extension("a.b/c.vtt").unwrap(), SubtitleFormat::WebVtt);
    assert!(SubtitleFormat::from_extension(".srt").is_err());
    assert!(SubtitleFormat::from_extension("noext").is_err());
    assert!(SubtitleFormat::from_extension("dir.srt/").is_ok());
    match SubtitleFormat::from_extension("x.txt") {
        Err(SubtitleError::InvalidSubtitleFormat(m)) => {
            assert_eq!(m, "Unsupported subtitle extension: Some(\"txt\")")
        }
        _ => panic!("expected an error"),
    }
    match SubtitleFormat::from_extension("x") {
        Err(SubtitleError::InvalidSubtitleFormat(m)) => assert_eq!(m, "Unsupported subtitle extension: None"),
        _ => panic!("expected an error"),
    }
}

#[test]
fn extension_support() {
    assert!(SubtitleFormat::is_supported_extension("SRT"));
    assert!(SubtitleFormat::is_supported_extension("ssa"));
    assert!(SubtitleFormat::is_supported_extension("sub"));
    assert!(!SubtitleFormat::is_supported_extension("txt"));
    assert_eq!(SubtitleFormat::MicroDVD.extension(), "sub");
    assert_eq!(SubtitleFormat::WebVtt.mime_type(), "text/vtt");
    assert_eq!(SubtitleFormat::Srt.mime_type(), "application/x-subrip");
}

#[test]
fn content_detection() {
    assert_eq!(SubtitleFormat::detect_from_content("  WEBVTT\n\n00:00.000 --> 00:01.000\nHi").unwrap(), SubtitleFormat::WebVtt);
    assert_eq!(SubtitleFormat::detect_from_content("[Script Info]\nTitle: x").unwrap(), SubtitleFormat::AdvancedSsa);
    assert_eq!(SubtitleFormat::detect_from_content("{1}{25}Hello").unwrap(), SubtitleFormat::MicroDVD);
    assert_eq!(
        SubtitleFormat::detect_from_content("1\n00:00:01,000 --> 00:00:02,000\nHello\n").unwrap(),
        SubtitleFormat::Srt
    );
    assert_eq!(SubtitleFormat::detect_from_content("[INFORMATION]\n").unwrap(), SubtitleFormat::SubViewer);
    assert_eq!(SubtitleFormat::detect_from_content("a:b").unwrap(), SubtitleFormat::SubViewer);
    match SubtitleFormat::detect_from_content("plain text") {
        Err(SubtitleError::InvalidSubtitleFormat(m)) => {
            assert_eq!(m, "Could not determine subtitle format from content")
        }
        _ => panic!("expected an error"),
    }
}

#[test]
fn timestamp_formatting_and_errors() {
    let t = TimePosition::new(1, 23, 45, 678);
    assert_eq!(t.to_srt_format(), "01:23:45,678");
    assert_eq!(t.to_vtt_format(), "01:23:45.678");
    assert_eq!(t.total_millis(), 5_025_678);
    assert_eq!(TimePosition::from_millis(5_025_678), t);
    assert_eq!(TimePosition::parse("00:00:01,5").unwrap().milliseconds, 5);
    match TimePosition::parse_srt("24:00:00,000") {
        Err(SubtitleError::TimingError(m)) => assert_eq!(m, "Hours out of range (0-23): 24"),
        _ => panic!("expected an error"),
    }
    match TimePosition::parse_srt("00:xx:00,000") {
        Err(SubtitleError::TimingError(m)) => assert_eq!(m, "Invalid minutes in time: xx"),
        _ => panic!("expected an error"),
    }
    match TimePosition::parse("12") {
        Err(SubtitleError::TimingError(m)) => assert_eq!(m, "Unrecognized time format: 12"),
        _ => panic!("expected an error"),
    }
}

#[test]
fn style_names() {
    assert_eq!(FontStyle::BoldItalic.as_css(), "bold italic");
    assert_eq!(FontStyle::default(), FontStyle::Normal);
    assert_eq!(HorizontalAlign::default().as_str(), "center");
    assert_eq!(VerticalAlign::default().as_str(), "bottom");
    assert_eq!(SubtitleEncoding::default(), SubtitleEncoding::Auto);
}

#[test]
fn timestamps_read_back_as_written() {
    let t = TimePosition { hours: 23, minutes: 5, seconds: 59, milliseconds: 7 };
    let srt = t.to_srt_string();
    assert_eq!(srt, "23:05:59,007");
    assert_eq!(TimePosition::parse_srt(&srt).unwrap(), t);
    let vtt = t.to_vtt_string();
    assert_eq!(vtt, "23:05:59.007");
    assert_eq!(TimePosition::parse_vtt(&vtt).unwrap(), t);
}

#[test]
fn millis_read_back_and_bare_extensions() {
    let t = TimePosition::new(1, 23, 45, 678);
    assert_eq!(t.total_millis(), 5_025_678);
    assert_eq!(TimePosition::from_millis(t.total_millis() as u32), t);
    for e in ["SRT", "vtt", "Ass", "ssa", "sub", "txt", ""] {
        let path = format!("f.{e}");
        assert_eq!(SubtitleFormat::is_supported_extension(e), SubtitleFormat::from_extension(&path).is_ok());
    }
    assert!(SubtitleFormat::is_supported_extension("SRT"));
    assert!(!SubtitleFormat::is_supported_extension("txt"));
}
