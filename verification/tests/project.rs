use edv::project::timeline::{Clip, Timeline, TimelineError, TrackKind};
use edv::project::{
    set_entry, AssetId, AssetMetadata, ClipId, Project, ProjectError, ProjectMetadata,
};
use edv::project::rendering::RenderError;
use edv::utility::time::{Duration, TimePosition};

fn metadata(kind: &str) -> AssetMetadata {
    AssetMetadata {
        duration: Some(Duration::from_millis(5000)),
        dimensions: Some((1920, 1080)),
        asset_type: kind.to_string(),
        extra: vec![("codec".to_string(), "h264".to_string())],
    }
}

fn clip(n: u128, start_ms: u64, len_ms: u64) -> Clip {
    Clip::new(
        ClipId::from_u128(n),
        AssetId::from_u128(1000 + n),
        TimePosition::from_millis(start_ms),
        Duration::from_millis(len_ms),
        TimePosition::from_millis(0),
        TimePosition::from_millis(len_ms),
    )
}

fn value_of<'a>(m: &'a [(String, String)], key: &str) -> Option<&'a str> {
    m.iter().find(|(k, _)| k == key).map(|(_, v)| v.as_str())
}

#[test]
fn new_project_is_empty() {
    let p = Project::new("Test Project");
    assert_eq!(p.name, "Test Project");
    assert!(p.timeline.get_tracks().is_empty());
    assert!(p.assets.is_empty());
    assert!(p.metadata.is_empty());
    assert_eq!(p.project_metadata.name, "Test Project");
    assert_eq!(p.project_metadata.created_at, p.project_metadata.modified_at);
    assert!(p.project_metadata.created_at >= 0);
    assert!(p.project_metadata.description.is_empty());
    assert!(p.project_metadata.tags.is_empty());
}

#[test]
fn assets_are_added_found_and_removed() {
    let mut p = Project::new("Assets");
    let created = p.project_metadata.created_at;
    let a = p.add_asset("/media/a.mp4".to_string(), metadata("video"));
    let b = p.add_asset("/media/b.wav".to_string(), metadata("audio"));
    assert_ne!(a, b);
    assert_eq!(p.assets.len(), 2);
    assert_eq!(p.project_metadata.created_at, created);
    assert!(p.project_metadata.modified_at >= created);

    let found = p.get_asset(b).unwrap();
    assert_eq!(found.path, "/media/b.wav");
    assert_eq!(found.metadata.asset_type, "audio");
    assert_eq!(found.metadata.dimensions, Some((1920, 1080)));

    assert!(p.remove_asset(a).is_ok());
    assert_eq!(p.assets.len(), 1);
    assert!(p.get_asset(a).is_none());
    assert!(p.get_asset(b).is_some());

    match p.remove_asset(a) {
        Err(ProjectError::AssetNotFound(id)) => assert_eq!(id, a),
        other => panic!("unexpected result: {other:?}"),
    }
    assert_eq!(p.assets.len(), 1);
}

#[test]
fn missing_asset_message_names_the_identifier() {
    let id = AssetId::from_u128(0x0123_4567_89ab_cdef_0123_4567_89ab_cdef);
    let e = ProjectError::AssetNotFound(id);
    assert_eq!(e.message(), "Asset not found: 01234567-89ab-cdef-0123-456789abcdef");
}

#[test]
fn project_error_messages() {
    assert_eq!(ProjectError::Io("disk full".to_string()).message(), "I/O error: disk full");
    assert_eq!(
        ProjectError::Serialization("bad json".to_string()).message(),
        "Serialization error: bad json"
    );
    assert_eq!(
        ProjectError::Rendering(RenderError::Cancelled).message(),
        "Rendering error: Rendering was cancelled"
    );
    assert_eq!(
        ProjectError::Timeline(TimelineError::InvalidOperation("nope".to_string())).message(),
        "Timeline error: Invalid operation: nope"
    );
}

#[test]
fn simple_timeline_is_left_alone() {
    let mut p = Project::new("Simple");
    let t = p.timeline.add_track(TrackKind::Video);
    assert!(p.timeline.add_clip(t, clip(1, 0, 1000)).is_ok());
    let before = p.project_metadata.modified_at;
    assert!(p.optimize_timeline().is_ok());
    assert!(p.metadata.is_empty());
    assert_eq!(p.project_metadata.modified_at, before);
}

#[test]
fn many_tracks_make_a_complex_timeline() {
    let mut p = Project::new("Tracks");
    for _ in 0..5 {
        p.timeline.add_track(TrackKind::Audio);
    }
    assert!(p.optimize_timeline().is_ok());
    assert_eq!(p.metadata.len(), 3);
    assert_eq!(value_of(&p.metadata, "is_complex_timeline"), Some("true"));
    assert_eq!(value_of(&p.metadata, "track_count"), Some("5"));
    assert_eq!(value_of(&p.metadata, "clip_count"), Some("0"));
}

#[test]
fn four_tracks_and_twenty_clips_are_not_complex() {
    let mut p = Project::new("Edge");
    let first = p.timeline.add_track(TrackKind::Video);
    for _ in 0..3 {
        p.timeline.add_track(TrackKind::Video);
    }
    for n in 0..20u64 {
        assert!(p.timeline.add_clip(first, clip(n as u128 + 1, n * 1000, 1000)).is_ok());
    }
    assert!(p.optimize_timeline().is_ok());
    assert!(p.metadata.is_empty());

    assert!(p.timeline.add_clip(first, clip(99, 20_000, 1000)).is_ok());
    assert!(p.optimize_timeline().is_ok());
    assert_eq!(value_of(&p.metadata, "track_count"), Some("4"));
    assert_eq!(value_of(&p.metadata, "clip_count"), Some("21"));
}

#[test]
fn analysis_replaces_earlier_values() {
    let mut p = Project::new("Again");
    p.metadata.push(("author".to_string(), "me".to_string()));
    p.metadata.push(("track_count".to_string(), "old".to_string()));
    for _ in 0..6 {
        p.timeline.add_track(TrackKind::Video);
    }
    assert!(p.optimize_timeline().is_ok());
    assert_eq!(p.metadata.len(), 4);
    assert_eq!(p.metadata[0], ("author".to_string(), "me".to_string()));
    assert_eq!(p.metadata[1], ("track_count".to_string(), "6".to_string()));
    assert_eq!(value_of(&p.metadata, "is_complex_timeline"), Some("true"));
}

#[test]
fn set_entry_replaces_the_first_match_or_appends() {
    let mut m = vec![("a".to_string(), "1".to_string()), ("b".to_string(), "2".to_string())];
    set_entry(&mut m, "b", "3".to_string());
    assert_eq!(m, vec![("a".to_string(), "1".to_string()), ("b".to_string(), "3".to_string())]);
    set_entry(&mut m, "c", "4".to_string());
    assert_eq!(m.len(), 3);
    assert_eq!(m[2], ("c".to_string(), "4".to_string()));
}

#[test]
fn metadata_update_changes_only_the_modification_time() {
    let mut m = ProjectMetadata::new("Meta");
    m.tags.push("demo".to_string());
    let created = m.created_at;
    m.update_modified();
    assert_eq!(m.name, "Meta");
    assert_eq!(m.created_at, created);
    assert_eq!(m.tags, vec!["demo".to_string()]);
    assert!(m.modified_at >= created);
}

#[test]
fn timeline_is_independent_of_assets() {
    let mut p = Project::new("Mixed");
    let t = p.timeline.add_track(TrackKind::Video);
    let id = p.add_asset("/m.mov".to_string(), metadata("video"));
    assert!(p.remove_asset(id).is_ok());
    assert_eq!(p.timeline.get_tracks().len(), 1);
    assert!(p.timeline.get_track(t).is_some());
    let _unused: Timeline = Timeline::new();
}

#[test]
fn assets_change_in_place() {
    let mut p = Project::new("Mutable");
    let a = p.add_asset("/a.mp4".to_string(), metadata("video"));
    let modified = p.project_metadata.modified_at;
    {
        let asset = p.get_asset_mut(a).unwrap();
        asset.path = "/moved/a.mp4".to_string();
        asset.metadata.dimensions = Some((640, 360));
    }
    assert_eq!(p.get_asset(a).unwrap().path, "/moved/a.mp4");
    assert_eq!(p.get_asset(a).unwrap().metadata.dimensions, Some((640, 360)));
    assert_eq!(p.project_metadata.modified_at, modified);
    assert!(p.get_asset_mut(AssetId::from_u128(5)).is_none());
}
