use edv::project::timeline::history::{EditAction, EditHistory, HistoryEntry, HistoryError};
use edv::project::timeline::multi_track::TrackRelationship;
use edv::project::timeline::{Clip, Timeline, TrackKind};
use edv::project::{AssetId, ClipId, TrackId};
use edv::utility::time::{Duration, TimePosition};

fn create_dummy_clip(id: ClipId, asset_id: AssetId, pos: u64, dur: u64) -> Clip {
    Clip::new(
        id,
        asset_id,
        TimePosition::from_seconds(pos),
        Duration::from_seconds(dur),
        TimePosition::from_seconds(0),
        TimePosition::from_seconds(dur),
    )
}

fn create_test_timeline() -> Timeline {
    Timeline::new()
}

#[test]
fn test_new_history() {
    let history = EditHistory::new(Some(10));
    assert_eq!(history.capacity(), Some(10));
    assert!(history.undo_stack().is_empty());
    assert!(history.redo_stack().is_empty());
    assert!(!history.in_transaction());
    assert!(!history.can_undo());
    assert!(!history.can_redo());
}

#[test]
fn test_record_single_action() {
    let mut history = EditHistory::new(None);
    let action = EditAction::SetClipPosition {
        clip_id: ClipId::new(),
        track_id: TrackId::new(),
        original_position: TimePosition::from_seconds(0),
        new_position: TimePosition::from_seconds(10),
    };
    history.record_action(action.clone());
    assert_eq!(history.undo_stack().len(), 1);
    assert!(history.redo_stack().is_empty());
    assert!(history.can_undo());
    assert!(!history.can_redo());
    match &history.undo_stack()[0] {
        HistoryEntry::Single(recorded_action) => {
            assert!(matches!(recorded_action, EditAction::SetClipPosition { .. }));
        }
        _ => panic!("Expected Single entry"),
    }
}

#[test]
fn test_undo_redo_single_action() {
    let mut history = EditHistory::new(None);
    let mut timeline = create_test_timeline();
    let track_id = timeline.add_track(TrackKind::Video);
    let clip_id = ClipId::new();
    let clip = create_dummy_clip(clip_id, AssetId::new(), 0, 5);
    let add_action = EditAction::AddClip { track_id, clip };

    add_action.apply(&mut timeline).unwrap();
    history.record_action(add_action);

    let undo_result = history.undo(&mut timeline);
    assert!(undo_result.is_ok());
    assert!(!history.can_undo());
    assert!(history.can_redo());
    assert_eq!(history.undo_stack().len(), 0);
    assert_eq!(history.redo_stack().len(), 1);
    assert!(timeline.get_track(track_id).unwrap().get_clip(clip_id).is_none());
    assert!(matches!(history.redo_stack()[0], HistoryEntry::Single(EditAction::AddClip { .. })));

    let redo_result = history.redo(&mut timeline);
    assert!(redo_result.is_ok());
    assert!(history.can_undo());
    assert!(!history.can_redo());
    assert_eq!(history.undo_stack().len(), 1);
    assert_eq!(history.redo_stack().len(), 0);
    assert!(timeline.get_track(track_id).unwrap().get_clip(clip_id).is_some());
    assert!(matches!(history.undo_stack()[0], HistoryEntry::Single(EditAction::AddClip { .. })));
}

#[test]
fn test_record_clears_redo_stack() {
    let mut history = EditHistory::new(None);
    let mut timeline = create_test_timeline();
    let clip_id = ClipId::new();
    let track_id = timeline.add_track(TrackKind::Video);
    timeline.add_clip(track_id, create_dummy_clip(clip_id, AssetId::new(), 0, 10)).unwrap();

    let action1 = EditAction::SetClipPosition {
        clip_id,
        track_id,
        original_position: TimePosition::zero(),
        new_position: TimePosition::from_seconds(5),
    };
    let action2 = EditAction::SetClipPosition {
        clip_id,
        track_id,
        original_position: TimePosition::from_seconds(5),
        new_position: TimePosition::from_seconds(10),
    };

    action1.apply(&mut timeline).unwrap();
    history.record_action(action1.clone());

    history.undo(&mut timeline).unwrap();
    assert!(history.can_redo());
    assert_eq!(history.redo_stack().len(), 1);
    assert_eq!(history.undo_stack().len(), 0);

    action1.apply(&mut timeline).unwrap();
    action2.apply(&mut timeline).unwrap();
    history.record_action(action2.clone());

    assert!(!history.can_redo());
    assert_eq!(history.redo_stack().len(), 0);
    assert_eq!(history.undo_stack().len(), 1);
    assert!(matches!(history.undo_stack()[0], HistoryEntry::Single(EditAction::SetClipPosition { .. })));
}

#[test]
fn test_transaction_commit() {
    let mut history = EditHistory::new(None);
    let clip_id = ClipId::new();
    let track_id = TrackId::new();
    let action1 = EditAction::SetClipPosition {
        clip_id,
        track_id,
        original_position: TimePosition::zero(),
        new_position: TimePosition::from_seconds(5),
    };
    let action2 = EditAction::SetClipDuration {
        clip_id,
        track_id,
        original_duration: Duration::from_seconds(10),
        new_duration: Duration::from_seconds(8),
        original_source_end: TimePosition::from_seconds(10),
        new_source_end: TimePosition::from_seconds(8),
    };

    assert!(history.begin_transaction(Some("Clip Edit".to_string())).is_ok());
    history.record_action(action1.clone());
    history.record_action(action2.clone());
    assert!(history.commit_transaction().is_ok());

    assert_eq!(history.undo_stack().len(), 1);
    assert!(history.can_undo());
    assert!(!history.can_redo());
    assert!(!history.in_transaction());

    match &history.undo_stack()[0] {
        HistoryEntry::Group(group) => {
            assert_eq!(group.actions().len(), 2);
            assert_eq!(group.description(), Some("Clip Edit"));
            assert!(matches!(group.actions()[0], EditAction::SetClipPosition { .. }));
            assert!(matches!(group.actions()[1], EditAction::SetClipDuration { .. }));
        }
        _ => panic!("Expected Group entry"),
    }
}

#[test]
fn test_transaction_rollback() {
    let mut history = EditHistory::new(None);
    let action1 = EditAction::SetClipPosition {
        clip_id: ClipId::new(),
        track_id: TrackId::new(),
        original_position: TimePosition::zero(),
        new_position: TimePosition::from_seconds(5),
    };
    assert!(history.begin_transaction(None).is_ok());
    history.record_action(action1.clone());
    assert!(history.rollback_transaction().is_ok());

    assert!(history.undo_stack().is_empty());
    assert!(history.redo_stack().is_empty());
    assert!(!history.can_undo());
    assert!(!history.can_redo());
    assert!(!history.in_transaction());
}

#[test]
fn test_undo_redo_transaction() {
    let mut history = EditHistory::new(None);
    let mut timeline = create_test_timeline();
    let track_id = timeline.add_track(TrackKind::Video);
    let clip_id = ClipId::new();
    let initial_pos = TimePosition::zero();
    let initial_dur = Duration::from_seconds(10);
    let clip = create_dummy_clip(clip_id, AssetId::new(), initial_pos.as_seconds(), initial_dur.as_seconds());
    timeline.add_clip(track_id, clip.clone()).unwrap();

    let action1 = EditAction::SetClipPosition {
        clip_id,
        track_id,
        original_position: initial_pos,
        new_position: TimePosition::from_seconds(5),
    };
    let action2 = EditAction::SetClipDuration {
        clip_id,
        track_id,
        original_duration: initial_dur,
        new_duration: Duration::from_seconds(8),
        original_source_end: initial_pos + initial_dur,
        new_source_end: TimePosition::from_seconds(5) + Duration::from_seconds(8),
    };

    history.begin_transaction(None).unwrap();
    action1.apply(&mut timeline).unwrap();
    history.record_action(action1.clone());
    assert_eq!(
        timeline.get_track(track_id).unwrap().get_clip(clip_id).unwrap().position(),
        TimePosition::from_seconds(5)
    );
    action2.apply(&mut timeline).unwrap();
    history.record_action(action2.clone());
    assert_eq!(
        timeline.get_track(track_id).unwrap().get_clip(clip_id).unwrap().duration(),
        Duration::from_seconds(8)
    );
    history.commit_transaction().unwrap();

    assert!(history.can_undo());
    assert!(!history.can_redo());
    assert_eq!(history.undo_stack().len(), 1);
    assert!(matches!(history.undo_stack()[0], HistoryEntry::Group(_)));

    assert!(history.undo(&mut timeline).is_ok());
    assert!(!history.can_undo());
    assert!(history.can_redo());
    let reverted = timeline.get_track(track_id).unwrap().get_clip(clip_id).unwrap();
    assert_eq!(reverted.position(), initial_pos, "Undo should revert position");
    assert_eq!(reverted.duration(), initial_dur, "Undo should revert duration");
    assert!(matches!(history.redo_stack()[0], HistoryEntry::Group(_)));

    assert!(history.redo(&mut timeline).is_ok());
    assert!(history.can_undo());
    assert!(!history.can_redo());
    let redone = timeline.get_track(track_id).unwrap().get_clip(clip_id).unwrap();
    assert_eq!(redone.position(), TimePosition::from_seconds(5), "Redo should restore position");
    assert_eq!(redone.duration(), Duration::from_seconds(8), "Redo should restore duration");
    assert!(matches!(history.undo_stack()[0], HistoryEntry::Group(_)));
}

#[test]
fn test_history_apply_undo_single_action() {
    let mut history = EditHistory::new(None);
    let mut timeline = create_test_timeline();
    let track_id = timeline.add_track(TrackKind::Video);
    let clip_id = ClipId::new();
    let action = EditAction::AddClip { track_id, clip: create_dummy_clip(clip_id, AssetId::new(), 10, 5) };

    action.apply(&mut timeline).unwrap();
    history.record_action(action);
    assert!(history.can_undo());

    assert!(history.undo(&mut timeline).is_ok());
    assert!(!history.can_undo());
    assert!(history.can_redo());
    assert!(timeline.get_track(track_id).unwrap().get_clip(clip_id).is_none());

    assert!(history.redo(&mut timeline).is_ok());
    assert!(history.can_undo());
    assert!(!history.can_redo());
    assert!(timeline.get_track(track_id).unwrap().get_clip(clip_id).is_some());
}

#[test]
fn test_clear_history() {
    let mut history = EditHistory::new(None);
    let mut timeline = create_test_timeline();
    let track_id = timeline.add_track(TrackKind::Video);
    let clip_id = ClipId::new();
    timeline.add_clip(track_id, create_dummy_clip(clip_id, AssetId::new(), 0, 10)).unwrap();

    let action1 = EditAction::SetClipPosition {
        clip_id,
        track_id,
        original_position: TimePosition::zero(),
        new_position: TimePosition::from_seconds(5),
    };
    action1.apply(&mut timeline).unwrap();
    history.record_action(action1.clone());
    assert!(history.can_undo());

    history.undo(&mut timeline).unwrap();
    assert!(history.can_redo());

    assert!(history.begin_transaction(None).is_ok());
    history.clear();

    assert!(history.undo_stack().is_empty());
    assert!(history.redo_stack().is_empty());
    assert!(!history.in_transaction());
    assert!(!history.can_undo());
    assert!(!history.can_redo());
}

#[test]
fn test_apply_undo_add_clip() {
    let mut timeline = create_test_timeline();
    let track_id = timeline.add_track(TrackKind::Video);
    let clip_id = ClipId::new();
    let action = EditAction::AddClip { track_id, clip: create_dummy_clip(clip_id, AssetId::new(), 10, 5) };

    assert!(action.apply(&mut timeline).is_ok());
    assert!(timeline.get_track(track_id).unwrap().get_clip(clip_id).is_some());

    assert!(action.undo(&mut timeline).is_ok());
    assert!(timeline.get_track(track_id).unwrap().get_clip(clip_id).is_none());
}

#[test]
fn test_set_track_name_apply_undo_redo() {
    let mut history = EditHistory::new(None);
    let mut timeline = create_test_timeline();
    let track_id = timeline.add_track(TrackKind::Video);
    let original_name = timeline.get_track(track_id).unwrap().name().to_string();
    let new_name = "New Awesome Track Name".to_string();
    let action = EditAction::SetTrackName {
        track_id,
        original_name: original_name.clone(),
        new_name: new_name.clone(),
    };

    action.apply(&mut timeline).unwrap();
    history.record_action(action);
    assert_eq!(timeline.get_track(track_id).unwrap().name(), new_name);

    history.undo(&mut timeline).unwrap();
    assert_eq!(timeline.get_track(track_id).unwrap().name(), original_name);

    history.redo(&mut timeline).unwrap();
    assert_eq!(timeline.get_track(track_id).unwrap().name(), new_name);
}

#[test]
fn test_set_track_muted_apply_undo_redo() {
    let mut history = EditHistory::new(None);
    let mut timeline = create_test_timeline();
    let track_id = timeline.add_track(TrackKind::Audio);
    let original_muted = timeline.get_track(track_id).unwrap().is_muted();
    let new_muted = !original_muted;
    let action = EditAction::SetTrackMuted { track_id, original_muted, new_muted };

    action.apply(&mut timeline).unwrap();
    history.record_action(action);
    assert_eq!(timeline.get_track(track_id).unwrap().is_muted(), new_muted);

    history.undo(&mut timeline).unwrap();
    assert_eq!(timeline.get_track(track_id).unwrap().is_muted(), original_muted);

    history.redo(&mut timeline).unwrap();
    assert_eq!(timeline.get_track(track_id).unwrap().is_muted(), new_muted);
}

#[test]
fn test_set_track_locked_apply_undo_redo() {
    let mut history = EditHistory::new(None);
    let mut timeline = create_test_timeline();
    let track_id = timeline.add_track(TrackKind::Video);
    let original_locked = timeline.get_track(track_id).unwrap().is_locked();
    let new_locked = !original_locked;
    let action = EditAction::SetTrackLocked { track_id, original_locked, new_locked };

    action.apply(&mut timeline).unwrap();
    history.record_action(action);
    assert_eq!(timeline.get_track(track_id).unwrap().is_locked(), new_locked);

    history.undo(&mut timeline).unwrap();
    assert_eq!(timeline.get_track(track_id).unwrap().is_locked(), original_locked);

    history.redo(&mut timeline).unwrap();
    assert_eq!(timeline.get_track(track_id).unwrap().is_locked(), new_locked);
}

#[test]
fn test_add_relationship_apply_undo_redo() {
    let mut history = EditHistory::new(None);
    let mut timeline = create_test_timeline();
    let track1_id = timeline.add_track(TrackKind::Video);
    let track2_id = timeline.add_track(TrackKind::Video);
    let action = EditAction::AddRelationship {
        source_id: track1_id,
        target_id: track2_id,
        relationship_kind: TrackRelationship::Locked,
    };

    action.apply(&mut timeline).unwrap();
    history.record_action(action.clone());
    assert_eq!(
        timeline.multi_track_manager().get_relationship(track1_id, track2_id),
        Some(TrackRelationship::Locked)
    );

    history.undo(&mut timeline).unwrap();
    assert!(timeline.multi_track_manager().get_relationship(track1_id, track2_id).is_none());

    history.redo(&mut timeline).unwrap();
    assert_eq!(
        timeline.multi_track_manager().get_relationship(track1_id, track2_id),
        Some(TrackRelationship::Locked)
    );
}

#[test]
fn test_remove_relationship_apply_undo_redo() {
    let mut history = EditHistory::new(None);
    let mut timeline = create_test_timeline();
    let track1_id = timeline.add_track(TrackKind::Video);
    let track2_id = timeline.add_track(TrackKind::Video);
    let original_relationship_kind = TrackRelationship::Locked;
    timeline
        .multi_track_manager_mut()
        .add_relationship_no_timeline_check(track1_id, track2_id, original_relationship_kind)
        .unwrap();
    assert!(timeline.multi_track_manager().get_relationship(track1_id, track2_id).is_some());

    let action = EditAction::RemoveRelationship {
        source_id: track1_id,
        target_id: track2_id,
        original_relationship_kind,
    };
    action.apply(&mut timeline).unwrap();
    history.record_action(action.clone());
    assert!(timeline.multi_track_manager().get_relationship(track1_id, track2_id).is_none());

    history.undo(&mut timeline).unwrap();
    assert_eq!(
        timeline.multi_track_manager().get_relationship(track1_id, track2_id),
        Some(TrackRelationship::Locked)
    );

    history.redo(&mut timeline).unwrap();
    assert!(timeline.multi_track_manager().get_relationship(track1_id, track2_id).is_none());
}

#[test]
fn test_update_relationship_apply_undo_redo() {
    let mut history = EditHistory::new(None);
    let mut timeline = create_test_timeline();
    let track1_id = timeline.add_track(TrackKind::Video);
    let track2_id = timeline.add_track(TrackKind::Audio);
    timeline
        .multi_track_manager_mut()
        .add_relationship_no_timeline_check(track1_id, track2_id, TrackRelationship::Locked)
        .unwrap();

    let action = EditAction::UpdateRelationship {
        source_id: track1_id,
        target_id: track2_id,
        original_relationship_kind: TrackRelationship::Locked,
        updated_relationship_kind: TrackRelationship::TimingDependent,
    };
    action.apply(&mut timeline).unwrap();
    history.record_action(action.clone());
    assert_eq!(
        timeline.multi_track_manager().get_relationship(track1_id, track2_id),
        Some(TrackRelationship::TimingDependent)
    );

    history.undo(&mut timeline).unwrap();
    assert_eq!(
        timeline.multi_track_manager().get_relationship(track1_id, track2_id),
        Some(TrackRelationship::Locked)
    );

    history.redo(&mut timeline).unwrap();
    assert_eq!(
        timeline.multi_track_manager().get_relationship(track1_id, track2_id),
        Some(TrackRelationship::TimingDependent)
    );
}

#[test]
fn history_errors_and_capacity() {
    let mut history = EditHistory::new(Some(2));
    let mut timeline = create_test_timeline();
    assert_eq!(history.undo(&mut timeline), Err(HistoryError::NothingToUndo));
    assert_eq!(history.redo(&mut timeline), Err(HistoryError::NothingToRedo));
    assert_eq!(history.commit_transaction(), Err(HistoryError::NoTransactionInProgress));
    assert_eq!(history.rollback_transaction(), Err(HistoryError::NoTransactionInProgress));
    history.begin_transaction(None).unwrap();
    assert_eq!(history.begin_transaction(None), Err(HistoryError::TransactionInProgress));
    history.commit_transaction().unwrap();
    assert!(history.undo_stack().is_empty());
    for _ in 0..3 {
        history.record_action(EditAction::SetTrackMuted {
            track_id: TrackId::new(),
            original_muted: false,
            new_muted: true,
        });
    }
    assert_eq!(history.undo_stack().len(), 2);
    assert_eq!(HistoryError::NothingToUndo.message(), "Nothing to undo");

    // undoing on a timeline that lacks the track fails and keeps the entry
    match history.undo(&mut timeline) {
        Err(HistoryError::ApplyActionError(m)) => assert!(m.starts_with("Track not found: ")),
        _ => panic!("expected an error"),
    }
    assert_eq!(history.undo_stack().len(), 2);
}

#[test]
fn remove_and_restore_track() {
    let mut timeline = create_test_timeline();
    let a = timeline.add_track(TrackKind::Video);
    let b = timeline.add_track(TrackKind::Audio);
    let data = timeline.get_track(a).unwrap().clone();
    let action = EditAction::RemoveTrack { track_data: data, original_index: 0 };
    action.apply(&mut timeline).unwrap();
    assert!(!timeline.has_track(a));
    action.undo(&mut timeline).unwrap();
    assert_eq!(timeline.get_tracks()[0].id(), a);
    assert_eq!(timeline.get_tracks()[1].id(), b);

    let add = EditAction::AddTrack { track_id: TrackId::new(), track_kind: TrackKind::Subtitle, track_name: "Subs".to_string() };
    add.apply(&mut timeline).unwrap();
    assert_eq!(timeline.get_tracks()[2].name(), "Subs");
    add.undo(&mut timeline).unwrap();
    assert_eq!(timeline.get_tracks().len(), 2);
}

#[test]
fn recording_in_a_transaction_clears_redo() {
    let mut history = EditHistory::new(None);
    let mut timeline = create_test_timeline();
    let track_id = timeline.add_track(TrackKind::Video);
    let mute = EditAction::SetTrackMuted { track_id, original_muted: false, new_muted: true };
    assert!(mute.apply(&mut timeline).is_ok());
    history.record_action(mute);
    assert!(history.undo(&mut timeline).is_ok());
    assert_eq!(history.redo_stack().len(), 1);
    assert!(history.begin_transaction(None).is_ok());
    history.record_action(EditAction::SetTrackLocked { track_id, original_locked: false, new_locked: true });
    assert!(history.redo_stack().is_empty());
    assert!(!history.can_redo());
    assert!(history.undo_stack().is_empty());
}

#[test]
fn remove_and_move_clip_undo_restores() {
    let mut timeline = create_test_timeline();
    let t1 = timeline.add_track(TrackKind::Video);
    let t2 = timeline.add_track(TrackKind::Video);
    let a = ClipId::new();
    let b = ClipId::new();
    let clip_a = create_dummy_clip(a, AssetId::new(), 0, 5);
    timeline.add_clip(t1, clip_a).unwrap();
    timeline.add_clip(t1, create_dummy_clip(b, AssetId::new(), 10, 5)).unwrap();
    let before: Vec<Clip> = timeline.get_track(t1).unwrap().get_clips().to_vec();

    let remove = EditAction::RemoveClip { track_id: t1, clip: clip_a, original_index: 0 };
    assert!(remove.apply(&mut timeline).is_ok());
    assert_eq!(timeline.get_track(t1).unwrap().get_clips().len(), 1);
    assert!(remove.undo(&mut timeline).is_ok());
    assert_eq!(timeline.get_track(t1).unwrap().get_clips().to_vec(), before);

    let mv = EditAction::MoveClip {
        clip_id: a,
        original_track_id: t1,
        original_position: TimePosition::from_seconds(0),
        original_index: 0,
        new_track_id: t2,
        new_position: TimePosition::from_seconds(30),
    };
    assert!(mv.apply(&mut timeline).is_ok());
    assert_eq!(timeline.get_track(t2).unwrap().get_clip(a).unwrap().position(), TimePosition::from_seconds(30));
    assert!(mv.undo(&mut timeline).is_ok());
    assert_eq!(timeline.get_track(t1).unwrap().get_clips().to_vec(), before);
    assert!(timeline.get_track(t2).unwrap().get_clips().is_empty());
}

#[test]
fn undo_stack_never_exceeds_capacity() {
    let mut history = EditHistory::new(Some(2));
    let mut timeline = create_test_timeline();
    let track_id = timeline.add_track(TrackKind::Video);
    let a = EditAction::SetTrackMuted { track_id, original_muted: false, new_muted: true };
    let b = EditAction::SetTrackLocked { track_id, original_locked: false, new_locked: true };
    assert!(a.apply(&mut timeline).is_ok());
    history.record_action(a);
    assert!(b.apply(&mut timeline).is_ok());
    history.record_action(b);
    assert!(history.begin_transaction(None).is_ok());
    history.record_action(EditAction::SetTrackMuted { track_id, original_muted: true, new_muted: true });
    assert!(history.undo(&mut timeline).is_ok());
    assert!(history.commit_transaction().is_ok());
    assert_eq!(history.undo_stack().len(), 2);
    assert!(history.redo(&mut timeline).is_ok());
    assert_eq!(history.undo_stack().len(), 2);
    assert!(matches!(history.undo_stack()[0], HistoryEntry::Group(_)));
    assert!(matches!(history.undo_stack()[1], HistoryEntry::Single(EditAction::SetTrackLocked { .. })));
}
