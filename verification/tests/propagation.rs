use edv::project::timeline::multi_track::{MultiTrackError, MultiTrackManager, TrackRelationship};
use edv::project::timeline::{Clip, Timeline, Track, TrackKind};
use edv::project::{AssetId, ClipId, TrackId};
use edv::utility::time::{Duration, TimePosition};

fn id(n: u128) -> TrackId {
    TrackId::from_u128(n)
}

fn track(n: u128, kind: TrackKind, muted: bool, locked: bool) -> Track {
    Track::from_parts(id(n), kind, format!("t{n}"), vec![], muted, locked)
}

fn find(t: &Timeline, n: u128) -> &Track {
    t.get_track(id(n)).unwrap()
}

#[test]
fn locked_relationship_brings_the_edited_track_in_line() {
    let mut timeline = Timeline::new();
    timeline.push_track(track(1, TrackKind::Audio, false, false));
    timeline.push_track(track(2, TrackKind::Audio, true, true));
    let mut m = MultiTrackManager::new();
    assert!(m.add_relationship_no_timeline_check(id(2), id(1), TrackRelationship::Locked).is_ok());

    let reached = m
        .apply_edit(
            id(1),
            |t: &mut Track| {
                t.set_name("edited");
                Ok(())
            },
            &mut timeline,
        )
        .unwrap();
    assert_eq!(reached, vec![id(1), id(2)]);
    let edited = find(&timeline, 1);
    assert_eq!(edited.name(), "edited");
    assert!(edited.is_locked());
    assert!(edited.is_muted());
}

#[test]
fn failed_edit_is_reported_and_kept() {
    let mut timeline = Timeline::new();
    timeline.push_track(track(1, TrackKind::Video, false, false));
    let m = MultiTrackManager::new();
    let r = m.apply_edit(
        id(1),
        |t: &mut Track| {
            t.set_muted(true);
            Err("no good".to_string())
        },
        &mut timeline,
    );
    match r {
        Err(MultiTrackError::InvalidTrackState(t, reason)) => {
            assert_eq!(t, id(1));
            assert_eq!(reason, "no good");
        }
        other => panic!("unexpected: {other:?}"),
    }
    assert!(find(&timeline, 1).is_muted());
}

#[test]
fn missing_track_is_reported() {
    let mut timeline = Timeline::new();
    let m = MultiTrackManager::new();
    let r = m.apply_edit(id(9), |_t: &mut Track| Ok(()), &mut timeline);
    assert_eq!(r, Err(MultiTrackError::TrackNotFound(id(9))));
}

#[test]
fn changes_spread_along_chains_once() {
    let mut timeline = Timeline::new();
    timeline.push_track(track(1, TrackKind::Video, false, false));
    timeline.push_track(track(2, TrackKind::Video, true, false));
    timeline.push_track(track(3, TrackKind::Video, false, false));
    timeline.push_track(track(4, TrackKind::Video, false, false));
    let mut m = MultiTrackManager::new();
    assert!(m.add_relationship_no_timeline_check(id(2), id(1), TrackRelationship::VisibilityDependent).is_ok());
    assert!(m.add_relationship_no_timeline_check(id(3), id(2), TrackRelationship::Independent).is_ok());
    assert!(m.add_relationship_no_timeline_check(id(4), id(1), TrackRelationship::Locked).is_ok());

    let reached = m.propagate_changes(id(1), &mut timeline).unwrap();
    // Track 2 is reached and track 1 takes its mute state; the change spreads on
    // from 2 to 3 (independent: reached, nothing synchronised); then track 4 is
    // reached and track 1 takes its lock state (video tracks keep their mute state).
    assert_eq!(reached, vec![id(1), id(2), id(3), id(4)]);
    assert!(find(&timeline, 1).is_muted());
    assert!(!find(&timeline, 1).is_locked());
}

#[test]
fn missing_related_track_stops_the_spreading() {
    let mut timeline = Timeline::new();
    timeline.push_track(track(1, TrackKind::Audio, false, false));
    let mut m = MultiTrackManager::new();
    assert!(m.add_relationship_no_timeline_check(id(5), id(1), TrackRelationship::TimingDependent).is_ok());
    let r = m.propagate_changes(id(1), &mut timeline);
    assert_eq!(r, Err(MultiTrackError::TrackNotFound(id(5))));
}

#[test]
fn timing_dependency_moves_clips() {
    let clip = |n: u128, pos: u64, dur: u64| {
        Clip::new(
            ClipId::from_u128(n),
            AssetId::from_u128(n),
            TimePosition::from_millis(pos),
            Duration::from_millis(dur),
            TimePosition::from_millis(0),
            TimePosition::from_millis(dur),
        )
    };
    let mut timeline = Timeline::new();
    timeline.push_track(Track::from_parts(id(1), TrackKind::Video, "a".to_string(), vec![clip(1, 1000, 500)], false, false));
    timeline.push_track(Track::from_parts(id(2), TrackKind::Video, "b".to_string(), vec![clip(2, 1200, 900)], false, false));
    let mut m = MultiTrackManager::new();
    assert!(m.add_relationship_no_timeline_check(id(2), id(1), TrackRelationship::TimingDependent).is_ok());
    assert_eq!(m.propagate_changes(id(1), &mut timeline), Ok(vec![id(1), id(2)]));
    let moved = find(&timeline, 1).get_clips()[0];
    assert_eq!(moved.position().as_millis(), 1200);
    assert_eq!(moved.duration().as_millis(), 900);
}
