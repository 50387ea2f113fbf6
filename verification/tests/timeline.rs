use edv::project::timeline::multi_track::{MultiTrackError, MultiTrackManager, TrackRelationship};
use edv::project::timeline::{Clip, Timeline, TimelineError, Track, TrackKind};
use edv::project::{AssetId, ClipId, TrackId};
use edv::utility::time::{Duration, TimePosition};

fn clip_at(id: ClipId, asset: AssetId, pos: u64, dur: u64, src_start: u64, src_end: u64) -> Clip {
    Clip::new(
        id,
        asset,
        TimePosition::from_seconds(pos),
        Duration::from_seconds(dur),
        TimePosition::from_seconds(src_start),
        TimePosition::from_seconds(src_end),
    )
}

#[test]
fn test_add_track() {
    let mut timeline = Timeline::new();
    let track_id = timeline.add_track(TrackKind::Video);

    assert!(timeline.has_track(track_id));
    assert_eq!(timeline.get_tracks().len(), 1);

    let track = timeline.get_track(track_id).unwrap();
    assert_eq!(track.kind(), TrackKind::Video);
    assert_eq!(track.name(), "Track Video");
}

#[test]
fn test_add_clip() {
    let mut timeline = Timeline::new();
    let track_id = timeline.add_track(TrackKind::Video);

    let asset_id = AssetId::new();
    let clip_id = ClipId::new();
    let clip = clip_at(clip_id, asset_id, 10, 5, 0, 5);

    let result = timeline.add_clip(track_id, clip);
    assert!(result.is_ok());

    let track = timeline.get_track(track_id).unwrap();
    assert_eq!(track.get_clips().len(), 1);

    let clip = track.get_clip(clip_id).unwrap();
    assert_eq!(clip.position(), TimePosition::from_seconds(10));
    assert_eq!(clip.duration(), Duration::from_seconds(5));
}

#[test]
fn test_clip_overlap() {
    let mut timeline = Timeline::new();
    let track_id = timeline.add_track(TrackKind::Video);
    let asset_id = AssetId::new();

    let result = timeline.add_clip(track_id, clip_at(ClipId::new(), asset_id, 10, 5, 0, 5));
    assert!(result.is_ok());

    let result = timeline.add_clip(track_id, clip_at(ClipId::new(), asset_id, 12, 5, 0, 5));
    assert!(result.is_err());
    match result {
        Err(TimelineError::ClipOverlap { position }) => assert_eq!(position, TimePosition::from_seconds(12)),
        _ => panic!("expected an overlap"),
    }

    let result = timeline.add_clip(track_id, clip_at(ClipId::new(), asset_id, 20, 5, 0, 5));
    assert!(result.is_ok());

    let track = timeline.get_track(track_id).unwrap();
    assert_eq!(track.get_clips().len(), 2);
}

#[test]
fn test_split_clip() {
    let mut timeline = Timeline::new();
    let track_id = timeline.add_track(TrackKind::Video);
    let asset_id = AssetId::new();
    let clip_id = ClipId::new();

    assert!(timeline.add_clip(track_id, clip_at(clip_id, asset_id, 10, 10, 0, 10)).is_ok());

    let result = timeline.split_clip(track_id, clip_id, TimePosition::from_seconds(15));
    assert!(result.is_ok());
    let new_clip_id = result.unwrap();

    let track = timeline.get_track(track_id).unwrap();
    assert_eq!(track.get_clips().len(), 2);

    let original_clip = track.get_clip(clip_id).unwrap();
    assert_eq!(original_clip.position(), TimePosition::from_seconds(10));
    assert_eq!(original_clip.duration(), Duration::from_seconds(5));
    assert_eq!(original_clip.source_end(), TimePosition::from_seconds(5));

    let new_clip = track.get_clip(new_clip_id).unwrap();
    assert_eq!(new_clip.position(), TimePosition::from_seconds(15));
    assert_eq!(new_clip.duration(), Duration::from_seconds(5));
    assert_eq!(new_clip.source_start(), TimePosition::from_seconds(5));
    assert_eq!(new_clip.source_end(), TimePosition::from_seconds(10));
}

#[test]
fn split_proportion_and_bounds() {
    let mut timeline = Timeline::new();
    let track_id = timeline.add_track(TrackKind::Video);
    let clip_id = ClipId::new();
    // 3 s on the timeline showing 9 s of source: a cut after 1 s falls 3 s into the source.
    assert!(timeline.add_clip(track_id, clip_at(clip_id, AssetId::new(), 0, 3, 10, 19)).is_ok());
    let new_id = timeline.split_clip(track_id, clip_id, TimePosition::from_millis(1000)).unwrap();
    let track = timeline.get_track(track_id).unwrap();
    assert_eq!(track.get_clip(clip_id).unwrap().source_end(), TimePosition::from_seconds(13));
    assert_eq!(track.get_clip(new_id).unwrap().source_start(), TimePosition::from_seconds(13));
    assert_eq!(track.get_clip(new_id).unwrap().duration(), Duration::from_seconds(2));

    match timeline.split_clip(track_id, clip_id, TimePosition::from_seconds(0)) {
        Err(TimelineError::InvalidOperation(m)) => {
            assert_eq!(m, "Split position 0.000s is outside clip bounds")
        }
        _ => panic!("expected an error"),
    }
    let missing = ClipId::new();
    match timeline.split_clip(track_id, missing, TimePosition::from_seconds(1)) {
        Err(TimelineError::ClipNotFound { track, clip }) => {
            assert_eq!(track, track_id);
            assert_eq!(clip, missing);
        }
        _ => panic!("expected an error"),
    }
}

#[test]
fn test_merge_clips() {
    let mut timeline = Timeline::new();
    let track_id = timeline.add_track(TrackKind::Video);
    let asset_id = AssetId::new();
    let clip1_id = ClipId::new();
    let clip2_id = ClipId::new();

    timeline.add_clip(track_id, clip_at(clip1_id, asset_id, 10, 5, 0, 5)).unwrap();
    timeline.add_clip(track_id, clip_at(clip2_id, asset_id, 15, 5, 5, 10)).unwrap();

    let result = timeline.merge_clips(track_id, clip1_id, clip2_id);
    assert!(result.is_ok());

    let track = timeline.get_track(track_id).unwrap();
    assert_eq!(track.get_clips().len(), 1);

    let merged_clip = track.get_clip(clip1_id).unwrap();
    assert_eq!(merged_clip.position(), TimePosition::from_seconds(10));
    assert_eq!(merged_clip.duration(), Duration::from_seconds(10));
    assert_eq!(merged_clip.source_start(), TimePosition::from_seconds(0));
    assert_eq!(merged_clip.source_end(), TimePosition::from_seconds(10));
}

#[test]
fn merge_refusals() {
    let mut timeline = Timeline::new();
    let track_id = timeline.add_track(TrackKind::Video);
    let a = ClipId::new();
    let b = ClipId::new();
    let c = ClipId::new();
    timeline.add_clip(track_id, clip_at(a, AssetId::new(), 0, 5, 0, 5)).unwrap();
    timeline.add_clip(track_id, clip_at(b, AssetId::new(), 5, 5, 0, 5)).unwrap();
    timeline.add_clip(track_id, clip_at(c, AssetId::new(), 20, 5, 0, 5)).unwrap();
    match timeline.merge_clips(track_id, a, b) {
        Err(TimelineError::InvalidOperation(m)) => assert_eq!(m, "Cannot merge clips from different assets"),
        _ => panic!("expected an error"),
    }
    match timeline.merge_clips(track_id, c, b) {
        Err(TimelineError::InvalidOperation(m)) => assert_eq!(m, "Clips are not adjacent"),
        _ => panic!("expected an error"),
    }
    assert_eq!(timeline.get_track(track_id).unwrap().get_clips().len(), 3);
}

#[test]
fn test_move_clip_to_track() {
    let mut timeline = Timeline::new();
    let track1_id = timeline.add_track(TrackKind::Video);
    let track2_id = timeline.add_track(TrackKind::Video);
    let clip_id = ClipId::new();

    timeline.add_clip(track1_id, clip_at(clip_id, AssetId::new(), 10, 5, 0, 5)).unwrap();

    let result = timeline.move_clip_to_track(track1_id, track2_id, clip_id, None);
    assert!(result.is_ok());

    let track1 = timeline.get_track(track1_id).unwrap();
    assert_eq!(track1.get_clips().len(), 0);

    let track2 = timeline.get_track(track2_id).unwrap();
    assert_eq!(track2.get_clips().len(), 1);

    let moved_clip = track2.get_clip(clip_id).unwrap();
    assert_eq!(moved_clip.position(), TimePosition::from_seconds(10));
}

#[test]
fn move_refusals() {
    let mut timeline = Timeline::new();
    let video = timeline.add_track(TrackKind::Video);
    let audio = timeline.add_track(TrackKind::Audio);
    let other = timeline.add_track(TrackKind::Video);
    let clip_id = ClipId::new();
    timeline.add_clip(video, clip_at(clip_id, AssetId::new(), 0, 5, 0, 5)).unwrap();
    timeline.add_clip(other, clip_at(ClipId::new(), AssetId::new(), 20, 5, 0, 5)).unwrap();
    match timeline.move_clip_to_track(video, audio, clip_id, None) {
        Err(TimelineError::InvalidOperation(m)) => {
            assert_eq!(m, "Cannot move clip between different track kinds: Video and Audio")
        }
        _ => panic!("expected an error"),
    }
    // An overlap restores the clip where it was and leaves the timeline as it was.
    let second = ClipId::new();
    timeline.add_clip(video, clip_at(second, AssetId::new(), 10, 5, 0, 5)).unwrap();
    let before: Vec<Clip> = timeline.get_track(video).unwrap().get_clips().to_vec();
    let r = timeline.move_clip_to_track(video, other, clip_id, Some(TimePosition::from_seconds(22)));
    match r {
        Err(TimelineError::ClipOverlap { position }) => assert_eq!(position, TimePosition::from_seconds(22)),
        _ => panic!("expected an overlap"),
    }
    assert_eq!(timeline.get_track(video).unwrap().get_clips().to_vec(), before);
    assert_eq!(timeline.get_track(video).unwrap().get_clips()[0].id(), clip_id);
    assert_eq!(timeline.get_track(video).unwrap().get_clip(clip_id).unwrap().position(), TimePosition::from_seconds(0));
    assert_eq!(timeline.get_track(other).unwrap().get_clips().len(), 1);
    assert!(matches!(
        timeline.move_clip_to_track(TrackId::new(), other, clip_id, None),
        Err(TimelineError::TrackNotFound(_))
    ));
}

#[test]
fn remove_clip_and_track() {
    let mut timeline = Timeline::new();
    let t1 = timeline.add_track(TrackKind::Video);
    let t2 = timeline.add_track(TrackKind::Video);
    let clip_id = ClipId::new();
    timeline.add_clip(t1, clip_at(clip_id, AssetId::new(), 0, 5, 0, 5)).unwrap();
    assert_eq!(timeline.duration(), Duration::from_seconds(5));
    assert!(timeline.remove_clip(t1, clip_id).is_ok());
    assert!(matches!(timeline.remove_clip(t1, clip_id), Err(TimelineError::ClipNotFound { .. })));
    assert_eq!(timeline.duration(), Duration::zero());
    timeline.multi_track_manager_mut().add_relationship_no_timeline_check(t1, t2, TrackRelationship::Locked).unwrap();
    assert!(timeline.remove_track(t1).is_ok());
    assert!(!timeline.has_track(t1));
    assert!(timeline.multi_track_manager().get_all_relationships().is_empty());
    assert!(matches!(timeline.remove_track(t1), Err(TimelineError::TrackNotFound(_))));
}

#[test]
fn clips_stay_ordered() {
    let mut track = Track::new(TrackId::new(), TrackKind::Audio);
    let a = ClipId::new();
    let b = ClipId::new();
    track.add_clip(clip_at(a, AssetId::new(), 30, 5, 0, 5)).unwrap();
    track.add_clip(clip_at(b, AssetId::new(), 10, 5, 0, 5)).unwrap();
    assert_eq!(track.get_clips()[0].id(), b);
    assert_eq!(track.get_clips()[1].id(), a);
    assert_eq!(track.duration(), Duration::from_seconds(35));
}

fn create_test_timeline() -> Timeline {
    let mut timeline = Timeline::new();
    timeline.add_track(TrackKind::Video);
    timeline.add_track(TrackKind::Audio);
    timeline.add_track(TrackKind::Video);
    timeline
}

fn ids(timeline: &Timeline) -> Vec<TrackId> {
    timeline.get_tracks().iter().map(|t| t.id()).collect()
}

#[test]
fn test_add_relationship() {
    let timeline = create_test_timeline();
    let track_ids = ids(&timeline);
    let mut manager = MultiTrackManager::new();
    let result = manager.add_relationship(track_ids[0], track_ids[1], TrackRelationship::Locked, &timeline);
    assert!(result.is_ok());
    assert_eq!(manager.get_relationship(track_ids[0], track_ids[1]), Some(TrackRelationship::Locked));
}

#[test]
fn test_circular_dependency_detection() {
    let timeline = create_test_timeline();
    let track_ids = ids(&timeline);
    let mut manager = MultiTrackManager::new();
    let _ = manager.add_relationship(track_ids[0], track_ids[1], TrackRelationship::Locked, &timeline);
    let _ = manager.add_relationship(track_ids[1], track_ids[2], TrackRelationship::Locked, &timeline);
    let result = manager.add_relationship(track_ids[2], track_ids[0], TrackRelationship::Locked, &timeline);
    assert!(matches!(result, Err(MultiTrackError::CircularDependency(_, _))));
    assert!(manager.depends_on(track_ids[0], track_ids[2]));
    assert!(!manager.depends_on(track_ids[2], track_ids[0]));
}

#[test]
fn test_remove_relationship() {
    let timeline = create_test_timeline();
    let track_ids = ids(&timeline);
    let mut manager = MultiTrackManager::new();
    let _ = manager.add_relationship(track_ids[0], track_ids[1], TrackRelationship::Locked, &timeline);
    let result = manager.remove_relationship(track_ids[0], track_ids[1]);
    assert!(result.is_ok());
    assert_eq!(manager.get_relationship(track_ids[0], track_ids[1]), None);
}

#[test]
fn test_get_dependent_tracks() {
    let timeline = create_test_timeline();
    let track_ids = ids(&timeline);
    let mut manager = MultiTrackManager::new();
    let _ = manager.add_relationship(track_ids[0], track_ids[1], TrackRelationship::Locked, &timeline);
    let _ = manager.add_relationship(track_ids[2], track_ids[1], TrackRelationship::TimingDependent, &timeline);
    let dependents = manager.get_dependent_tracks(track_ids[1]);
    assert_eq!(dependents.len(), 2);
    assert!(dependents.contains(&track_ids[0]));
    assert!(dependents.contains(&track_ids[2]));
}

#[test]
fn test_remove_track() {
    let timeline = create_test_timeline();
    let track_ids = ids(&timeline);
    let mut manager = MultiTrackManager::new();
    let _ = manager.add_relationship(track_ids[0], track_ids[1], TrackRelationship::Locked, &timeline);
    let _ = manager.add_relationship(track_ids[2], track_ids[0], TrackRelationship::TimingDependent, &timeline);
    let result = manager.remove_track(track_ids[0]);
    assert!(result.is_ok());
    assert_eq!(manager.get_relationship(track_ids[0], track_ids[1]), None);
    assert_eq!(manager.get_relationship(track_ids[2], track_ids[0]), None);
    assert!(manager.get_dependent_tracks(track_ids[0]).is_empty());
    assert!(manager.get_track_dependencies(track_ids[0]).is_empty());
}

#[test]
fn relationship_refusals_and_updates() {
    let timeline = create_test_timeline();
    let track_ids = ids(&timeline);
    let mut manager = MultiTrackManager::new();
    let stranger = TrackId::new();
    assert_eq!(
        manager.add_relationship(stranger, track_ids[0], TrackRelationship::Locked, &timeline),
        Err(MultiTrackError::TrackNotFound(stranger))
    );
    assert_eq!(
        manager.add_relationship(track_ids[0], track_ids[0], TrackRelationship::Locked, &timeline),
        Err(MultiTrackError::CircularDependency(track_ids[0], track_ids[0]))
    );
    manager.add_relationship(track_ids[0], track_ids[1], TrackRelationship::Locked, &timeline).unwrap();
    manager.add_relationship(track_ids[0], track_ids[1], TrackRelationship::VisibilityDependent, &timeline).unwrap();
    assert_eq!(manager.get_all_relationships().len(), 1);
    assert_eq!(
        manager.get_track_dependencies(track_ids[0]),
        vec![(track_ids[1], TrackRelationship::VisibilityDependent)]
    );
}

#[test]
fn propagation_between_tracks() {
    let mut timeline = Timeline::new();
    let src = timeline.add_track(TrackKind::Audio);
    let dst = timeline.add_track(TrackKind::Audio);
    let mut manager = MultiTrackManager::new();
    manager.add_relationship(src, dst, TrackRelationship::Locked, &timeline).unwrap();

    // the lock and mute states follow the source
    let mut t = timeline.get_track(src).unwrap().clone();
    t.set_locked(true);
    t.set_muted(true);
    timeline.remove_track(src).unwrap();
    timeline.insert_track(0, t);
    manager.propagate_visibility_changes(src, dst, &mut timeline);
    assert!(timeline.get_track(dst).unwrap().is_locked());
    assert!(timeline.get_track(dst).unwrap().is_muted());

    // timing: a target clip within a second after a source clip takes its timing
    let a = ClipId::new();
    let b = ClipId::new();
    timeline.add_clip(src, clip_at(a, AssetId::new(), 10, 4, 0, 4)).unwrap();
    timeline.add_clip(dst, Clip::new(b, AssetId::new(), TimePosition::from_millis(9500), Duration::from_seconds(2), TimePosition::zero(), TimePosition::from_seconds(2))).unwrap();
    manager.propagate_timing_changes(src, dst, &mut timeline);
    let moved = timeline.get_track(dst).unwrap().get_clip(b).unwrap();
    assert_eq!(moved.position(), TimePosition::from_seconds(10));
    assert_eq!(moved.duration(), Duration::from_seconds(4));

    // no relationship in this direction: nothing happens
    let before = timeline.get_track(src).unwrap().is_muted();
    manager.propagate_edits(dst, src, &mut timeline);
    assert_eq!(timeline.get_track(src).unwrap().is_muted(), before);
}

#[test]
fn tracks_and_clips_change_in_place() {
    let mut timeline = Timeline::new();
    let t = timeline.add_track(TrackKind::Video);
    let c = ClipId::from_u128(1);
    assert!(timeline.add_clip(t, clip_at(c, AssetId::from_u128(2), 0, 1000, 0, 1000)).is_ok());
    {
        let track = timeline.get_track_mut(t).unwrap();
        track.set_name("Main");
        let clip = track.get_clip_mut(c).unwrap();
        clip.set_position(TimePosition::from_millis(500));
    }
    let track = timeline.get_track(t).unwrap();
    assert_eq!(track.name(), "Main");
    assert_eq!(track.get_clip(c).unwrap().position().as_millis(), 500);
    assert!(timeline.get_track_mut(TrackId::from_u128(77)).is_none());
}

#[test]
fn split_parts_meet_at_the_cut() {
    let mut timeline = Timeline::new();
    let track = timeline.add_track(TrackKind::Video);
    let clip_id = ClipId::new();
    timeline.add_clip(track, clip_at(clip_id, AssetId::new(), 10, 10, 0, 10)).unwrap();
    let new_id = timeline.split_clip(track, clip_id, TimePosition::from_seconds(13)).unwrap();
    let t = timeline.get_track(track).unwrap();
    let a = t.get_clip(clip_id).unwrap();
    let b = t.get_clip(new_id).unwrap();
    assert_eq!(a.end_position(), TimePosition::from_seconds(13));
    assert_eq!(b.position(), TimePosition::from_seconds(13));
    assert_eq!(b.end_position(), TimePosition::from_seconds(20));
    assert_eq!(a.duration().as_millis() + b.duration().as_millis(), 10_000);
    assert_eq!(a.source_end(), b.source_start());
    assert_eq!(a.source_end(), TimePosition::from_seconds(3));
}
