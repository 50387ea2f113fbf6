use edv::project::{AssetId, ClipId, IdParseError, ProjectId, TrackId};
use edv::utility::time::{Duration, TimePosition};

#[test]
fn test_duration_from_seconds() {
    let d = Duration::from_seconds(5);
    assert_eq!(d.as_seconds(), 5);
    assert_eq!(d.as_millis(), 5000);
}

#[test]
fn test_duration_from_millis() {
    let d = Duration::from_millis(5000);
    assert_eq!(d.as_seconds(), 5);
}

#[test]
fn test_duration_from_frames() {
    let d = Duration::from_frames(150, 30);
    assert_eq!(d.as_seconds(), 5);
}

#[test]
fn test_duration_to_timecode() {
    let d = Duration::from_seconds(3723);
    assert_eq!(d.to_timecode(30), "01:02:03:00");
    assert_eq!(Duration::from_millis(1500).to_timecode(30), "00:00:01:15");
}

#[test]
fn test_duration_add() {
    let d = Duration::from_seconds(5) + Duration::from_seconds(3);
    assert_eq!(d.as_seconds(), 8);
}

#[test]
fn test_duration_sub() {
    let d = Duration::from_seconds(5) - Duration::from_seconds(3);
    assert_eq!(d.as_seconds(), 2);
    assert_eq!((Duration::from_seconds(3) - Duration::from_seconds(5)).as_millis(), 0);
}

#[test]
fn test_time_position_from_seconds() {
    let t = TimePosition::from_seconds(5);
    assert_eq!(t.as_seconds(), 5);
}

#[test]
fn test_time_position_add_duration() {
    let t = TimePosition::from_seconds(5) + Duration::from_seconds(3);
    assert_eq!(t.as_seconds(), 8);
}

#[test]
fn test_time_position_sub_duration() {
    let t = TimePosition::from_seconds(5) - Duration::from_seconds(3);
    assert_eq!(t.as_seconds(), 2);
    assert_eq!((TimePosition::from_seconds(3) - Duration::from_seconds(5)).as_millis(), 0);
}

#[test]
fn test_time_position_sub_position() {
    let d = TimePosition::from_seconds(5) - TimePosition::from_seconds(3);
    assert_eq!(d.as_seconds(), 2);
    assert_eq!((TimePosition::from_seconds(3) - TimePosition::from_seconds(5)).as_millis(), 0);
}

#[test]
fn time_text() {
    assert_eq!(TimePosition::from_millis(1500).to_string(), "1.500s");
    assert_eq!(Duration::from_millis(61_005).to_string(), "61.005s");
    assert!(TimePosition::from_seconds(1).is_before(&TimePosition::from_seconds(2)));
    assert_eq!(TimePosition::from_seconds(2).since(&TimePosition::from_seconds(5)).as_millis(), 0);
    assert_eq!(TimePosition::from_frames(45, 30).as_millis(), 1500);
    assert_eq!(Duration::from_millis(1999).frames(30), 59);
}

#[test]
fn identifiers_round_trip() {
    let id = TrackId::new();
    let text = id.to_string();
    assert_eq!(text.len(), 36);
    assert_eq!(TrackId::parse_str(&text).unwrap(), id);
    let p = ProjectId::from_u128(0x0123456789abcdef0123456789abcdef);
    assert_eq!(p.to_string(), "01234567-89ab-cdef-0123-456789abcdef");
    assert_eq!(ProjectId::from_string("01234567-89ab-cdef-0123-456789abcdef").unwrap(), p);
    assert_eq!(ClipId::parse_str("not an id"), Err(IdParseError));
    assert_ne!(AssetId::new(), AssetId::new());
}
