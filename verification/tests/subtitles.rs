use edv::subtitle::editor::{ShiftBuilder, SubtitleEditor};
use edv::subtitle::format::{SubtitleFormat, TimePosition};
use edv::subtitle::model::{Subtitle, SubtitleBuilder, SubtitleTrack};
use edv::subtitle::parser::{parse_srt, parse_subtitle_content, parse_vtt, subtitle_content_readable};
use edv::subtitle::style::{FontStyle, HorizontalAlign, TextStyle, VerticalAlign};
use edv::subtitle::SubtitleError;

fn at(seconds: f64) -> TimePosition {
    TimePosition::from_millis((seconds * 1000.0).round() as u32)
}

fn secs(t: TimePosition) -> f64 {
    t.total_millis() as f64 / 1000.0
}

const SRT: &str = "1\n00:00:01,000 --> 00:00:04,000\nThis is the first subtitle\n\n2\n00:00:05,500 --> 00:00:07,500\nThis is the second subtitle\nIt has multiple lines\n\n3\n00:01:00,000 --> 00:01:30,000\nThis is the third subtitle\n";

const VTT: &str = "WEBVTT\n\n00:00:01.000 --> 00:00:04.000\nThis is the first subtitle\n\ncue-2\n00:00:05.500 --> 00:00:07.500 align:right\nThis is the second subtitle\nIt has multiple lines\n\nNOTE This is a comment and should be ignored\n\n00:01:00.000 --> 00:01:30.000\nThis is the third subtitle\n";

#[test]
fn test_time_position_conversions() {
    let time = TimePosition::new(1, 23, 45, 678);
    assert_eq!(time.to_srt_format(), "01:23:45,678");
    assert_eq!(time.to_vtt_format(), "01:23:45.678");

    let seconds = secs(time);
    assert!((seconds - 5025.678).abs() < 0.001);

    let time2 = at(seconds);
    assert_eq!(time, time2);
}

#[test]
fn test_subtitle_creation() {
    let start = at(1.0);
    let end = at(4.0);
    let subtitle = Subtitle::new(start, end, "Hello, world!");

    assert_eq!(secs(subtitle.get_start()), 1.0);
    assert_eq!(secs(subtitle.get_end()), 4.0);
    assert_eq!(subtitle.get_text(), "Hello, world!");
    assert_eq!(subtitle.duration() as f64 / 1000.0, 3.0);
}

#[test]
fn test_subtitle_overlap() {
    let sub1 = Subtitle::new(at(1.0), at(4.0), "First");
    let sub2 = Subtitle::new(at(3.0), at(6.0), "Second");
    let sub3 = Subtitle::new(at(5.0), at(8.0), "Third");

    assert!(sub1.overlaps_with(&sub2));
    assert!(sub2.overlaps_with(&sub3));
    assert!(!sub1.overlaps_with(&sub3));
}

#[test]
fn test_subtitle_shift() {
    let mut subtitle = Subtitle::new(at(1.0), at(4.0), "Test");

    subtitle.shift(2000);
    assert_eq!(secs(subtitle.get_start()), 3.0);
    assert_eq!(secs(subtitle.get_end()), 6.0);

    subtitle.shift(-1000);
    assert_eq!(secs(subtitle.get_start()), 2.0);
    assert_eq!(secs(subtitle.get_end()), 5.0);
}

#[test]
fn test_subtitle_track() {
    let mut track = SubtitleTrack::new();
    assert!(track.is_empty());

    track.add_subtitle(Subtitle::new(at(1.0), at(4.0), "First").with_id("1"));
    track.add_subtitle(Subtitle::new(at(5.0), at(8.0), "Second").with_id("2"));

    assert_eq!(track.len(), 2);

    let sub = track.get_subtitle("1").unwrap();
    assert_eq!(sub.get_text(), "First");

    let in_range = track.get_subtitles_in_range(3000, 6000);
    assert_eq!(in_range.len(), 2);

    assert!(track.remove_subtitle("1"));
    assert_eq!(track.len(), 1);
}

#[test]
fn test_subtitle_builder() {
    let subtitle = SubtitleBuilder::new().start_millis(1000).duration(3000).text("Builder test").id("test").build().unwrap();

    assert_eq!(subtitle.get_id(), "test");
    assert_eq!(secs(subtitle.get_start()), 1.0);
    assert_eq!(secs(subtitle.get_end()), 4.0);
    assert_eq!(subtitle.get_text(), "Builder test");

    let result = SubtitleBuilder::new().start_millis(5000).end_millis(3000).text("Invalid").build();

    assert!(result.is_err());
}

#[test]
fn builder_errors() {
    let timing = |r: Result<Subtitle, SubtitleError>| match r {
        Err(SubtitleError::TimingError(m)) => m,
        _ => panic!("expected a timing error"),
    };
    assert_eq!(timing(SubtitleBuilder::new().text("x").build()), "Start time must be set");
    assert_eq!(timing(SubtitleBuilder::new().start_millis(0).build()), "Either end time or duration must be set");
    assert_eq!(timing(SubtitleBuilder::new().start_millis(0).duration(0).build()), "Duration must be positive");
    assert_eq!(timing(SubtitleBuilder::new().start_millis(10).end_millis(10).build()), "End time must be after start time");
    let s = SubtitleBuilder::new().start_millis(100).end_millis(200).duration(5000).build().unwrap();
    assert_eq!(s.get_end().total_millis(), 200);
    assert_eq!(s.get_id(), "");
}

#[test]
fn test_subtitle_basic_workflow() {
    let subtitle = Subtitle::new(at(1.0), at(4.0), "Hello, world!").with_id("1");

    let mut track = SubtitleTrack::new();
    track.add_subtitle(subtitle);

    assert_eq!(track.len(), 1);
    assert!(track.get_subtitle("1").is_some());

    let mut editor = SubtitleEditor::new();
    editor.get_track_mut().add_subtitle(Subtitle::new(at(5.0), at(8.0), "Second subtitle").with_id("2"));

    assert_eq!(editor.get_track().len(), 1);
    assert!(editor.get_subtitle("2").is_some());

    let shift = ShiftBuilder::new(1000);
    editor.shift_subtitles(shift);

    let subtitle = editor.get_subtitle("2").unwrap();
    assert_eq!(secs(subtitle.get_start()), 6.0);
    assert_eq!(secs(subtitle.get_end()), 9.0);
}

#[test]
fn shift_keeps_a_minimum_duration_and_zero() {
    let mut s = Subtitle::new(at(1.0), at(1.05), "short");
    s.shift(-2000);
    assert_eq!(s.get_start().total_millis(), 0);
    assert_eq!(s.get_end().total_millis(), 100);
}

#[test]
fn track_ids_are_generated_and_replaced() {
    let mut track = SubtitleTrack::new();
    track.add_subtitle(Subtitle::new(at(1.0), at(2.0), "a"));
    track.add_subtitle(Subtitle::new(at(3.0), at(4.0), "b"));
    assert_eq!(track.get_subtitle_ids(), vec!["1".to_string(), "2".to_string()]);
    track.add_subtitle(Subtitle::new(at(5.0), at(6.0), "c").with_id("1"));
    assert_eq!(track.len(), 2);
    assert_eq!(track.get_subtitles()[0].get_text(), "c");
    track.replace_subtitle(Subtitle::new(at(0.0), at(1.0), "ignored"));
    assert_eq!(track.len(), 2);
    track.replace_subtitle(Subtitle::new(at(0.0), at(1.0), "new").with_id("x"));
    assert_eq!(track.len(), 3);
    assert!(!track.remove_subtitle("missing"));
    assert!(track.get_subtitle("missing").is_none());
}

#[test]
fn track_sort_overlaps_and_shift() {
    let mut track = SubtitleTrack::new();
    track.add_subtitle(Subtitle::new(at(5.0), at(8.0), "late").with_id("a"));
    track.add_subtitle(Subtitle::new(at(1.0), at(6.0), "early").with_id("b"));
    track.add_subtitle(Subtitle::new(at(5.0), at(5.5), "tie").with_id("c"));
    assert_eq!(
        track.find_overlaps(),
        vec![("a".to_string(), "b".to_string()), ("a".to_string(), "c".to_string()), ("b".to_string(), "c".to_string())]
    );
    track.sort();
    let ids: Vec<&str> = track.get_subtitles().iter().map(|s| s.get_id()).collect();
    assert_eq!(ids, vec!["b", "a", "c"]);
    track.shift_all(500);
    assert_eq!(track.get_subtitle("b").unwrap().get_start().total_millis(), 1500);
}

#[test]
fn track_as_srt_and_vtt() {
    let mut track = SubtitleTrack::new();
    track.add_subtitle(Subtitle::new(at(5.0), at(6.0), "Second").with_id("x"));
    track.add_subtitle(
        Subtitle::new(at(1.0), at(2.5), "First")
            .with_id("y")
            .with_style(TextStyle::new().horizontal_align(HorizontalAlign::Left)),
    );
    assert_eq!(
        track.format_as_srt(),
        "1\n00:00:01,000 --> 00:00:02,500\nFirst\n\n2\n00:00:05,000 --> 00:00:06,000\nSecond\n\n"
    );
    assert_eq!(
        track.format_as_vtt(),
        "WEBVTT\n\ny\n00:00:01.000 --> 00:00:02.500 align:left line:100%\nFirst\n\nx\n00:00:05.000 --> 00:00:06.000\nSecond\n\n"
    );
    assert_eq!(track.get_subtitle("x").unwrap().to_srt(), "x\n00:00:05,000 --> 00:00:06,000\nSecond\n");
}

#[test]
fn test_srt_parsing() {
    let track = parse_srt(SRT).unwrap();

    assert_eq!(track.len(), 3);

    let subtitles = track.get_subtitles();

    assert_eq!(subtitles[0].get_id(), "1");
    assert_eq!(secs(subtitles[0].get_start()), 1.0);
    assert_eq!(secs(subtitles[0].get_end()), 4.0);
    assert_eq!(subtitles[0].get_text(), "This is the first subtitle");

    assert_eq!(subtitles[1].get_id(), "2");
    assert_eq!(secs(subtitles[1].get_start()), 5.5);
    assert_eq!(secs(subtitles[1].get_end()), 7.5);
    assert_eq!(subtitles[1].get_text(), "This is the second subtitle\nIt has multiple lines");

    assert_eq!(subtitles[2].get_id(), "3");
    assert_eq!(secs(subtitles[2].get_start()), 60.0);
    assert_eq!(secs(subtitles[2].get_end()), 90.0);
    assert_eq!(subtitles[2].get_text(), "This is the third subtitle");
}

#[test]
fn test_webvtt_parsing() {
    let track = parse_vtt(VTT).unwrap();

    assert_eq!(track.len(), 3);

    let subtitles = track.get_subtitles();

    assert_eq!(subtitles[0].get_id(), "1");
    assert_eq!(secs(subtitles[0].get_start()), 1.0);
    assert_eq!(secs(subtitles[0].get_end()), 4.0);
    assert_eq!(subtitles[0].get_text(), "This is the first subtitle");

    assert_eq!(subtitles[1].get_id(), "cue-2");
    assert_eq!(secs(subtitles[1].get_start()), 5.5);
    assert_eq!(secs(subtitles[1].get_end()), 7.5);
    assert_eq!(subtitles[1].get_text(), "This is the second subtitle\nIt has multiple lines");

    assert_eq!(subtitles[2].get_id(), "2");
    assert_eq!(secs(subtitles[2].get_start()), 60.0);
    assert_eq!(secs(subtitles[2].get_end()), 90.0);
    assert_eq!(subtitles[2].get_text(), "This is the third subtitle");
}

#[test]
fn test_format_detection() {
    assert_eq!(SubtitleFormat::detect_from_content(SRT).unwrap(), SubtitleFormat::Srt);
    assert_eq!(SubtitleFormat::detect_from_content(VTT).unwrap(), SubtitleFormat::WebVtt);
}

#[test]
fn test_parse_any_subtitle() {
    let track = parse_subtitle_content(SRT, None).unwrap();
    assert_eq!(track.len(), 3);

    let track = parse_subtitle_content(VTT, None).unwrap();
    assert_eq!(track.len(), 3);
}

fn parse_reason(r: Result<SubtitleTrack, SubtitleError>) -> String {
    match r {
        Err(SubtitleError::ParseError { file: None, reason }) => reason,
        Err(e) => panic!("unexpected error {:?}", e),
        Ok(_) => panic!("unexpected success"),
    }
}

fn timing_message(r: Result<SubtitleTrack, SubtitleError>) -> String {
    match r {
        Err(SubtitleError::TimingError(m)) => m,
        Err(e) => panic!("unexpected error {:?}", e),
        Ok(_) => panic!("unexpected success"),
    }
}

#[test]
fn srt_reading_errors() {
    assert_eq!(parse_reason(parse_srt("1\n00:00:01,000 -> 00:00:02,000\nx\n")), "Invalid timing format: 00:00:01,000 -> 00:00:02,000");
    assert_eq!(parse_reason(parse_srt("1\n00:01,000 --> 00:00:02,000\nx\n")), "Invalid time format: 00:01,000");
    assert_eq!(
        parse_reason(parse_srt("1\naa:00:01,000 --> 00:00:02,000\nx\n")),
        "Invalid hours in time format: invalid digit found in string"
    );
    assert_eq!(
        parse_reason(parse_srt("1\n:00:01,000 --> 00:00:02,000\nx\n")),
        "Invalid hours in time format: cannot parse integer from empty string"
    );
    assert_eq!(
        parse_reason(parse_srt("1\n00:99999999999:01,000 --> 00:00:02,000\nx\n")),
        "Invalid minutes in time format: number too large to fit in target type"
    );
    assert_eq!(parse_reason(parse_srt("1\n00:00:01 --> 00:00:02,000\nx\n")), "Invalid seconds format: 01");
    assert_eq!(parse_reason(parse_srt("1\n00:00:61,000 --> 00:00:02,000\nx\n")), "Seconds out of range: 61");
    assert_eq!(parse_reason(parse_srt("1\n100:00:01,000 --> 00:00:02,000\nx\n")), "Hours out of range: 100");
    assert_eq!(parse_reason(parse_srt("1\n00:00:01,1000 --> 00:00:02,000\nx\n")), "Milliseconds out of range: 1000");
    let empty = parse_srt("").unwrap();
    assert!(empty.is_empty());
    let no_text = parse_srt("1\n00:00:01,000 --> 00:00:02,000\n\n").unwrap();
    assert!(no_text.is_empty());
}

#[test]
fn refused_hours_are_detected() {
    let late = "1\n25:00:01,000 --> 25:00:02,000\nx\n";
    assert!(!subtitle_content_readable(late, Some(SubtitleFormat::Srt)));
    assert!(subtitle_content_readable(SRT, Some(SubtitleFormat::Srt)));
    assert!(subtitle_content_readable("1\n100:00:01,000 --> 00:00:02,000\nx\n", Some(SubtitleFormat::Srt)));
    assert!(!subtitle_content_readable("WEBVTT\n\n30:00:00.000 --> 30:00:01.000\nx\n", None));
}

#[test]
fn vtt_reading_details() {
    let t = parse_vtt("WEBVTT\n\n01:02.5 --> 01:03.25 line:0%\nshort\n").unwrap();
    let s = &t.get_subtitles()[0];
    assert_eq!(s.get_start().total_millis(), 62_500);
    assert_eq!(s.get_end().total_millis(), 63_250);
    let t = parse_vtt("WEBVTT\n\n00:00:01 --> 00:00:02.12345\nx\n").unwrap();
    assert_eq!(t.get_subtitles()[0].get_end().total_millis(), 2_123);
    assert_eq!(timing_message(parse_vtt("WEBVTT\n\n00:61.000 --> 01:00.000\nx\n")), "VTT time component out of range (MM/SS): 00:61.000");
    assert_eq!(timing_message(parse_vtt("WEBVTT\n\n1:2:3:4 --> 01:00.000\nx\n")), "Invalid VTT time format (parts): 1:2:3:4");
    assert_eq!(timing_message(parse_vtt("WEBVTT\n\nxx:01.000 --> 01:00.000\nx\n")), "Invalid VTT minutes: xx");
    assert_eq!(timing_message(parse_vtt("WEBVTT\n\n00:01.0x0 --> 01:00.000\nx\n")), "Invalid VTT milliseconds: 0x0");
    assert_eq!(parse_reason(parse_vtt("WEBVTT\n\n00:01.000 -->01:00.000\nx\n")), "Invalid timing format: 00:01.000 -->01:00.000");
}

#[test]
fn unsupported_and_unknown_formats() {
    match parse_subtitle_content("[Script Info]\nTitle: x\n", None) {
        Err(SubtitleError::UnsupportedParserFormat(m)) => assert_eq!(m, "ASS/SSA"),
        other => panic!("unexpected {:?}", other.is_ok()),
    }
    match parse_subtitle_content("anything", Some(SubtitleFormat::MicroDVD)) {
        Err(SubtitleError::UnsupportedParserFormat(m)) => assert_eq!(m, "MicroDVD"),
        other => panic!("unexpected {:?}", other.is_ok()),
    }
    assert_eq!(parse_reason(parse_subtitle_content("plain text", None)), "Could not determine subtitle format from content");
}

#[test]
fn test_style_defaults() {
    let style = TextStyle::default();
    assert_eq!(style.font_family, "sans-serif");
    assert_eq!(style.font_size, 24);
    assert_eq!(style.color, "#FFFFFF");
    assert_eq!(style.horizontal_align, HorizontalAlign::Center);
    assert_eq!(style.vertical_align, VerticalAlign::Bottom);
}

#[test]
fn test_style_builder() {
    let style = TextStyle::new()
        .font_family("Arial")
        .font_size(32)
        .color("#FFCC00")
        .background("#000000")
        .font_style(FontStyle::Italic)
        .horizontal_align(HorizontalAlign::Left)
        .vertical_align(VerticalAlign::Top)
        .outline_color("#333333")
        .outline_width(2000)
        .position(50, 80);

    assert_eq!(style.font_family, "Arial");
    assert_eq!(style.font_size, 32);
    assert_eq!(style.color, "#FFCC00");
    assert_eq!(style.background, "#000000");
    assert_eq!(style.font_style, FontStyle::Italic);
    assert_eq!(style.horizontal_align, HorizontalAlign::Left);
    assert_eq!(style.vertical_align, VerticalAlign::Top);
    assert_eq!(style.outline_color, "#333333");
    assert_eq!(style.outline_width, 2000);
    assert_eq!(style.position, Some((50, 80)));

    let style = style.clear_position();
    assert_eq!(style.position, None);
}

#[test]
fn test_vtt_string_generation() {
    let style = TextStyle::new().horizontal_align(HorizontalAlign::Right).vertical_align(VerticalAlign::Top);

    let vtt = style.to_vtt_string();
    assert!(vtt.contains("align:right"));
    assert!(vtt.contains("line:0%"));

    let style = TextStyle::new().position(25, 75);
    let vtt = style.to_vtt_string();
    assert!(vtt.contains("position:25%"));
    assert!(vtt.contains("line:75%"));
}

#[test]
fn test_css_string_generation() {
    let style = TextStyle::new().font_family("Arial").font_size(32).color("#FFCC00").font_style(FontStyle::BoldItalic);

    let css = style.to_css_string();
    assert!(css.contains("font-family: Arial"));
    assert!(css.contains("font-size: 32px"));
    assert!(css.contains("color: #FFCC00"));
    assert!(css.contains("font-style: bold italic"));
}

#[test]
fn css_text_exactly() {
    let style = TextStyle::new().background("#111").outline_width(1250).position(150, 3);
    assert_eq!(style.position, Some((100, 3)));
    assert_eq!(
        style.to_css_string(),
        "font-family: sans-serif; font-size: 24px; font-style: normal; color: #FFFFFF; background-color: #111; text-shadow: 0 0 1.25px #000000; text-align: center"
    );
    assert_eq!(TextStyle::new().outline_width(0).to_css_string().contains("text-shadow"), false);
    assert_eq!(TextStyle::new().to_vtt_string(), "align:center line:100%");
}

fn create_test_track() -> SubtitleTrack {
    let mut track = SubtitleTrack::new();
    track.add_subtitle(Subtitle::new(at(1.0), at(3.0), "First subtitle").with_id("1"));
    track.add_subtitle(Subtitle::new(at(4.0), at(6.0), "Second subtitle").with_id("2"));
    track.add_subtitle(Subtitle::new(at(7.0), at(9.0), "Third subtitle").with_id("3"));
    track
}

fn editor_with(track: SubtitleTrack) -> SubtitleEditor {
    let mut editor = SubtitleEditor::new();
    *editor.get_track_mut() = track;
    editor
}

#[test]
fn test_editor_add_remove() {
    let mut editor = SubtitleEditor::new();
    assert_eq!(editor.get_track().len(), 0);

    let subtitle = Subtitle::new(at(1.0), at(3.0), "Test subtitle").with_id("1");

    editor.add_subtitle(subtitle);
    assert_eq!(editor.get_track().len(), 1);

    assert!(editor.remove_subtitle("1"));
    assert_eq!(editor.get_track().len(), 0);

    assert!(!editor.remove_subtitle("999"));
}

#[test]
fn test_update_subtitle() {
    let mut editor = editor_with(create_test_track());

    assert!(editor.update_text("2", "Updated text"));
    assert_eq!(editor.get_subtitle("2").unwrap().get_text(), "Updated text");

    let start = at(4.5);
    let end = at(6.5);
    assert!(editor.update_timing("2", start, end).unwrap());

    let subtitle = editor.get_subtitle("2").unwrap();
    assert_eq!(secs(subtitle.get_start()), 4.5);
    assert_eq!(secs(subtitle.get_end()), 6.5);

    let result = editor.update_timing("2", at(7.0), at(6.0));
    assert!(result.is_err());
}

#[test]
fn test_shift_subtitles() {
    let mut editor = editor_with(create_test_track());

    let shift = ShiftBuilder::new(1000);
    let count = editor.shift_subtitles(shift);
    assert_eq!(count, 3);

    assert_eq!(secs(editor.get_subtitle("1").unwrap().get_start()), 2.0);
    assert_eq!(secs(editor.get_subtitle("2").unwrap().get_start()), 5.0);
    assert_eq!(secs(editor.get_subtitle("3").unwrap().get_start()), 8.0);

    let shift = ShiftBuilder::new(-500).after(at(5.0));
    let count = editor.shift_subtitles(shift);
    assert_eq!(count, 2);

    assert_eq!(secs(editor.get_subtitle("1").unwrap().get_start()), 2.0);
    assert_eq!(secs(editor.get_subtitle("2").unwrap().get_start()), 4.5);
    assert_eq!(secs(editor.get_subtitle("3").unwrap().get_start()), 7.5);
}

#[test]
fn shift_by_ids_and_before() {
    let mut editor = editor_with(create_test_track());
    let shift = ShiftBuilder::new(250).with_ids(vec!["1".to_string(), "3".to_string()]).before(at(7.0));
    assert_eq!(editor.shift_subtitles(shift), 2);
    assert_eq!(editor.get_subtitle("1").unwrap().get_start().total_millis(), 1250);
    assert_eq!(editor.get_subtitle("2").unwrap().get_start().total_millis(), 4000);
    assert_eq!(editor.get_subtitle("3").unwrap().get_start().total_millis(), 7250);
    let none = ShiftBuilder::new(250).with_ids(vec!["9".to_string()]);
    assert_eq!(editor.shift_subtitles(none), 0);
}

#[test]
fn test_split_subtitle() {
    let mut editor = SubtitleEditor::new();

    let subtitle = Subtitle::new(at(1.0), at(5.0), "This is a subtitle that will be split").with_id("1");

    editor.add_subtitle(subtitle);

    let result = editor.split_subtitle("1", at(3.0));
    assert!(result.is_ok());
    assert!(result.unwrap());

    assert_eq!(editor.get_track().len(), 2);

    let first = editor.get_subtitle("1").unwrap();
    assert_eq!(secs(first.get_start()), 1.0);
    assert_eq!(secs(first.get_end()), 3.0);

    let second = editor.get_subtitle("1-1").unwrap();
    assert_eq!(secs(second.get_start()), 3.0);
    assert_eq!(secs(second.get_end()), 5.0);
}

#[test]
fn split_refusals() {
    let mut editor = editor_with(create_test_track());
    assert_eq!(editor.split_subtitle("none", at(2.0)).unwrap(), false);
    assert_eq!(
        editor.split_subtitle("1", at(3.0)).unwrap_err(),
        SubtitleError::InvalidSplitPoint { split_time: at(3.0), start: at(1.0), end: at(3.0) }
    );
    assert_eq!(editor.get_track().len(), 3);
}

#[test]
fn test_fix_overlaps() {
    let mut editor = SubtitleEditor::new();

    editor.add_subtitle(Subtitle::new(at(1.0), at(4.0), "First subtitle").with_id("1"));
    editor.add_subtitle(Subtitle::new(at(3.0), at(6.0), "Second subtitle").with_id("2"));

    let fixed = editor.fix_overlaps("shorten", 0);
    assert_eq!(fixed, 1);

    let first = editor.get_subtitle("1").unwrap();
    assert_eq!(secs(first.get_end()), 3.0);

    editor.update_timing("1", at(1.0), at(4.0)).unwrap();

    let fixed = editor.fix_overlaps("gap", 500);
    assert_eq!(fixed, 1);

    let first = editor.get_subtitle("1").unwrap();
    let second = editor.get_subtitle("2").unwrap();

    assert!(secs(first.get_end()) < secs(second.get_start()));
    assert!(secs(second.get_start()) - secs(first.get_end()) >= 0.5);
    assert_eq!(first.get_end().total_millis(), 3250);
    assert_eq!(second.get_start().total_millis(), 3750);
}

#[test]
fn merge_neighbours() {
    let mut editor = editor_with(create_test_track());
    assert_eq!(editor.merge_adjacent_subtitles(999, false), 0);
    assert_eq!(editor.merge_adjacent_subtitles(1000, false), 2);
    assert_eq!(editor.get_track().len(), 1);
    let only = &editor.get_subtitles()[0];
    assert_eq!(only.get_id(), "1");
    assert_eq!(only.get_end().total_millis(), 9000);
    assert_eq!(only.get_text(), "First subtitle\nSecond subtitle\nThird subtitle");
    assert!(editor.is_modified());

    let mut styled = create_test_track();
    styled.replace_subtitle(Subtitle::new(at(4.0), at(6.0), "Second subtitle").with_id("2").with_style(TextStyle::new()));
    let mut editor = editor_with(styled);
    assert_eq!(editor.merge_adjacent_subtitles(1000, true), 0);
}

#[test]
fn test_save_and_load() {
    let mut editor = editor_with(create_test_track());
    editor.set_format(SubtitleFormat::Srt);

    let path = "subs/test.srt";
    let (target, content) = editor.save_content(Some(path)).unwrap();
    editor.mark_saved(&target);
    assert!(!editor.is_modified());
    assert_eq!(editor.get_file_path(), Some(path));

    let mut new_editor = SubtitleEditor::new();
    new_editor.load_content(&target, &content).unwrap();

    assert_eq!(new_editor.get_track().len(), 3);
    assert!(new_editor.get_subtitle("1").is_some());
    assert!(new_editor.get_subtitle("2").is_some());
    assert!(new_editor.get_subtitle("3").is_some());
}

#[test]
fn save_refusals_and_load_format() {
    let mut editor = SubtitleEditor::new();
    assert_eq!(editor.save_content(None).unwrap_err(), SubtitleError::NoFilePath);
    editor.set_format(SubtitleFormat::SubViewer);
    assert_eq!(
        editor.save_content(Some("a.sub")).unwrap_err(),
        SubtitleError::UnsupportedExportFormat("SubViewer".to_string())
    );
    let mut editor = SubtitleEditor::new();
    editor.load_content("movie.VTT", VTT).unwrap();
    assert_eq!(editor.get_format(), SubtitleFormat::WebVtt);
    assert_eq!(editor.get_file_path(), Some("movie.VTT"));
    assert!(!editor.is_modified());
    let (p, c) = editor.save_content(None).unwrap();
    assert_eq!(p, "movie.VTT");
    assert!(c.starts_with("WEBVTT\n\n1\n00:00:01.000 --> 00:00:04.000\n"));
    editor.load_content("other.sub", SRT).unwrap();
    assert_eq!(editor.get_format(), SubtitleFormat::Srt);
    assert!(editor.load_content("bad.srt", "plain text").is_err());
    assert_eq!(editor.get_file_path(), Some("other.sub"));
}

#[test]
fn test_create_new() {
    let mut editor = SubtitleEditor::new();
    editor.add_subtitle(Subtitle::new(at(1.0), at(3.0), "Test").with_id("1"));

    assert_eq!(editor.get_track().len(), 1);

    editor.create_new(SubtitleFormat::WebVtt);
    assert_eq!(editor.get_track().len(), 0);
    assert_eq!(editor.get_format(), SubtitleFormat::WebVtt);
    assert!(editor.is_modified());
}

#[test]
fn adding_without_id_never_overwrites() {
    let mut track = SubtitleTrack::new();
    track.add_subtitle(Subtitle::new(at(1.0), at(2.0), "Kept").with_id("2"));
    track.add_subtitle(Subtitle::new(at(3.0), at(4.0), "Added"));
    assert_eq!(track.len(), 2);
    assert_eq!(track.get_subtitle("2").unwrap().get_text(), "Kept");
    assert_eq!(track.get_subtitles()[1].get_id(), "3");
    assert_eq!(track.get_subtitles()[1].get_text(), "Added");
    track.add_subtitle(Subtitle::new(at(5.0), at(6.0), "Next"));
    assert_eq!(track.get_subtitles()[2].get_id(), "4");
    let mut plain = SubtitleTrack::new();
    plain.add_subtitle(Subtitle::new(at(1.0), at(2.0), "One"));
    assert_eq!(plain.get_subtitles()[0].get_id(), "1");
}
