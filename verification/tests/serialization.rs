use edv::project::serialization::{
    asset_from_record, asset_record, check_project_header, clip_from_record, clip_record,
    current_version_text, is_version_compatible, metadata_from_record, metadata_record,
    project_file_type_text, relationship_records, timeline_from_records, timeline_records,
    track_kind_from_name, AssetRecord, ClipRecord, MetadataRecord, SerializationError, TrackRecord,
};
use edv::project::timeline::multi_track::TrackRelationship;
use edv::project::timeline::{Clip, Timeline, TimelineError, TrackKind};
use edv::project::{AssetId, AssetMetadata, AssetReference, ClipId, ProjectMetadata};
use edv::utility::time::{Duration, TimePosition};

fn clip(n: u128, start_ms: u64, len_ms: u64) -> Clip {
    Clip::new(
        ClipId::from_u128(n),
        AssetId::from_u128(1000 + n),
        TimePosition::from_millis(start_ms),
        Duration::from_millis(len_ms),
        TimePosition::from_millis(250),
        TimePosition::from_millis(250 + len_ms),
    )
}

fn sample_timeline() -> Timeline {
    let mut t = Timeline::new();
    let v = t.add_track(TrackKind::Video);
    let a = t.add_track(TrackKind::Audio);
    let _s = t.add_track(TrackKind::Subtitle);
    assert!(t.add_clip(v, clip(1, 5000, 1000)).is_ok());
    assert!(t.add_clip(v, clip(2, 0, 2000)).is_ok());
    assert!(t.add_clip(a, clip(3, 100, 900)).is_ok());
    t
}

fn clip_record_text(id: &str, asset_id: &str, position: u64) -> ClipRecord {
    ClipRecord {
        id: id.to_string(),
        asset_id: asset_id.to_string(),
        position,
        duration: 1000,
        source_start: 0,
        source_end: 1000,
    }
}

#[test]
fn test_incompatible_version() {
    assert!(check_project_header("1.0.0", "edv_project").is_ok());
    let result = check_project_header("2.0.0", "edv_project");
    assert!(matches!(result, Err(SerializationError::UnsupportedVersion(_))));
}

#[test]
fn header_constants() {
    assert_eq!(current_version_text(), "1.0.0");
    assert_eq!(project_file_type_text(), "edv_project");
}

#[test]
fn versions_with_major_one_and_three_parts_are_read() {
    assert!(is_version_compatible("1.0.0"));
    assert!(is_version_compatible("1.9.42"));
    assert!(is_version_compatible("01.x.y"));
    assert!(is_version_compatible("+1.0.0"));
    assert!(!is_version_compatible("1.0"));
    assert!(!is_version_compatible("1.0.0.0"));
    assert!(!is_version_compatible("2.0.0"));
    assert!(!is_version_compatible("x.0.0"));
    assert!(!is_version_compatible(""));
}

#[test]
fn header_errors_name_the_offending_value() {
    match check_project_header("3.1.4", "other") {
        Err(SerializationError::UnsupportedVersion(v)) => assert_eq!(v, "3.1.4"),
        other => panic!("unexpected: {other:?}"),
    }
    match check_project_header("1.1.0", "other") {
        Err(SerializationError::IncompatibleFormat(v)) => assert_eq!(v, "other"),
        other => panic!("unexpected: {other:?}"),
    }
}

#[test]
fn error_messages() {
    assert_eq!(
        SerializationError::UnsupportedVersion("2.0.0".to_string()).message(),
        "Unsupported project version: 2.0.0"
    );
    assert_eq!(
        SerializationError::IncompatibleFormat("x".to_string()).message(),
        "Incompatible file format: x"
    );
    assert_eq!(SerializationError::Json("eof".to_string()).message(), "JSON error: eof");
    assert_eq!(SerializationError::Io("gone".to_string()).message(), "I/O error: gone");
}

#[test]
fn track_kinds_read_by_name() {
    assert!(matches!(track_kind_from_name("Video"), Ok(TrackKind::Video)));
    assert!(matches!(track_kind_from_name("Audio"), Ok(TrackKind::Audio)));
    assert!(matches!(track_kind_from_name("Subtitle"), Ok(TrackKind::Subtitle)));
    match track_kind_from_name("video") {
        Err(SerializationError::IncompatibleFormat(m)) => assert_eq!(m, "Unknown track kind: video"),
        other => panic!("unexpected: {other:?}"),
    }
}

#[test]
fn timeline_round_trip_keeps_tracks_and_clips() {
    let original = sample_timeline();
    let records = timeline_records(&original);
    assert_eq!(records.len(), 3);
    assert_eq!(records[0].kind, "Video");
    assert_eq!(records[0].name, "Track Video");
    assert_eq!(records[0].clips.len(), 2);
    assert_eq!(records[0].clips[0].position, 0);
    assert_eq!(records[0].clips[1].position, 5000);
    assert_eq!(records[0].clips[0].id, "00000000-0000-0000-0000-000000000002");
    assert_eq!(records[0].id, original.get_tracks()[0].id().to_string());

    let rebuilt = timeline_from_records(&records).unwrap();
    assert_eq!(rebuilt.get_tracks().len(), 3);
    for (a, b) in original.get_tracks().iter().zip(rebuilt.get_tracks().iter()) {
        assert_eq!(a.kind(), b.kind());
        assert_eq!(a.name(), b.name());
        assert_eq!(a.is_muted(), b.is_muted());
        assert_eq!(a.is_locked(), b.is_locked());
        assert_eq!(a.get_clips(), b.get_clips());
    }
    assert!(rebuilt.multi_track_manager().get_all_relationships().is_empty());
}

#[test]
fn records_keep_flags_and_names() {
    let records = vec![TrackRecord {
        id: "ignored".to_string(),
        kind: "Audio".to_string(),
        name: "Narration".to_string(),
        clips: vec![],
        muted: true,
        locked: true,
    }];
    let t = timeline_from_records(&records).unwrap();
    let track = &t.get_tracks()[0];
    assert_eq!(track.kind(), TrackKind::Audio);
    assert_eq!(track.name(), "Narration");
    assert!(track.is_muted());
    assert!(track.is_locked());
}

#[test]
fn unknown_kind_fails_the_rebuild() {
    let records = vec![TrackRecord {
        id: String::new(),
        kind: "Hologram".to_string(),
        name: "x".to_string(),
        clips: vec![],
        muted: false,
        locked: false,
    }];
    match timeline_from_records(&records) {
        Err(SerializationError::IncompatibleFormat(m)) => assert_eq!(m, "Unknown track kind: Hologram"),
        other => panic!("unexpected: {:?}", other.map(|_| ())),
    }
}

#[test]
fn bad_identifiers_are_reported() {
    match clip_from_record(&clip_record_text("not-a-uuid", "00000000-0000-0000-0000-000000000001", 0)) {
        Err(SerializationError::IncompatibleFormat(m)) => assert!(m.starts_with("Invalid clip ID: ")),
        other => panic!("unexpected: {other:?}"),
    }
    match clip_from_record(&clip_record_text("00000000-0000-0000-0000-000000000001", "nope", 0)) {
        Err(SerializationError::IncompatibleFormat(m)) => assert!(m.starts_with("Invalid asset ID: ")),
        other => panic!("unexpected: {other:?}"),
    }
    let ok = clip_from_record(&clip_record_text(
        "00000000-0000-0000-0000-00000000000a",
        "00000000-0000-0000-0000-00000000000b",
        42,
    ))
    .unwrap();
    assert_eq!(ok.id(), ClipId::from_u128(10));
    assert_eq!(ok.asset_id(), AssetId::from_u128(11));
    assert_eq!(ok.position().as_millis(), 42);
    assert_eq!(ok.duration().as_millis(), 1000);
}

#[test]
fn overlapping_clips_fail_the_rebuild() {
    let records = vec![TrackRecord {
        id: String::new(),
        kind: "Video".to_string(),
        name: "v".to_string(),
        clips: vec![
            clip_record_text("00000000-0000-0000-0000-000000000001", "00000000-0000-0000-0000-000000000009", 0),
            clip_record_text("00000000-0000-0000-0000-000000000002", "00000000-0000-0000-0000-000000000009", 500),
        ],
        muted: false,
        locked: false,
    }];
    match timeline_from_records(&records) {
        Err(SerializationError::Timeline(TimelineError::ClipOverlap { position })) => {
            assert_eq!(position.as_millis(), 500)
        }
        other => panic!("unexpected: {:?}", other.map(|_| ())),
    }
}

#[test]
fn clip_records_carry_the_clip() {
    let c = clip(7, 1234, 100);
    let r = clip_record(&c);
    assert_eq!(r.id, "00000000-0000-0000-0000-000000000007");
    assert_eq!(r.asset_id, "00000000-0000-0000-0000-0000000003ef");
    assert_eq!((r.position, r.duration, r.source_start, r.source_end), (1234, 100, 250, 350));
    assert_eq!(clip_from_record(&r).unwrap(), c);
}

#[test]
fn asset_round_trip() {
    let asset = AssetReference {
        id: AssetId::from_u128(77),
        path: "/media/clip.mp4".to_string(),
        metadata: AssetMetadata {
            duration: Some(Duration::from_millis(61_000)),
            dimensions: Some((640, 480)),
            asset_type: "video".to_string(),
            extra: vec![("fps".to_string(), "30".to_string())],
        },
    };
    let r = asset_record(&asset);
    assert_eq!(r.id, "00000000-0000-0000-0000-00000000004d");
    assert_eq!(r.duration, Some(61_000));
    let back = asset_from_record(&r).unwrap();
    assert_eq!(back.id, asset.id);
    assert_eq!(back.path, asset.path);
    assert_eq!(back.metadata.duration, asset.metadata.duration);
    assert_eq!(back.metadata.dimensions, asset.metadata.dimensions);
    assert_eq!(back.metadata.asset_type, asset.metadata.asset_type);
    assert_eq!(back.metadata.extra, asset.metadata.extra);

    let bad = AssetRecord { id: "zzz".to_string(), ..r };
    match asset_from_record(&bad) {
        Err(SerializationError::IncompatibleFormat(m)) => assert!(m.starts_with("Invalid asset ID: ")),
        other => panic!("unexpected: {other:?}"),
    }
}

#[test]
fn metadata_round_trip_through_rfc3339() {
    let m = ProjectMetadata {
        name: "Trip".to_string(),
        created_at: 0,
        modified_at: 947_638_923_004,
        description: "desc".to_string(),
        tags: vec!["a".to_string(), "b".to_string()],
    };
    let r = metadata_record(&m).unwrap();
    assert_eq!(r.created_at, "1970-01-01T00:00:00Z");
    assert_eq!(r.modified_at, "2000-01-12T01:02:03.004Z");
    let back = metadata_from_record(&r).unwrap();
    assert_eq!(back.name, m.name);
    assert_eq!(back.created_at, m.created_at);
    assert_eq!(back.modified_at, m.modified_at);
    assert_eq!(back.description, m.description);
    assert_eq!(back.tags, m.tags);

    let bad = MetadataRecord { created_at: "yesterday".to_string(), ..r };
    assert!(matches!(metadata_from_record(&bad), Err(SerializationError::IncompatibleFormat(_))));
    let far = ProjectMetadata { created_at: i64::MAX, ..m };
    assert!(metadata_record(&far).is_none());
}

#[test]
fn relationships_are_listed_as_text() {
    let mut t = Timeline::new();
    let v = t.add_track(TrackKind::Video);
    let a = t.add_track(TrackKind::Audio);
    assert!(relationship_records(t.multi_track_manager()).is_empty());
    assert!(t
        .multi_track_manager_mut()
        .add_relationship_no_timeline_check(v, a, TrackRelationship::Locked)
        .is_ok());
    let recs = relationship_records(t.multi_track_manager());
    assert_eq!(recs.len(), 1);
    assert_eq!(recs[0].source, v.to_string());
    assert_eq!(recs[0].target, a.to_string());
    assert_eq!(recs[0].relationship, TrackRelationship::Locked);
}
