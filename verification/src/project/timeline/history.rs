//! Undo and redo of timeline edits.
//!
//! Each edit is recorded as an action that knows how to apply itself to a
//! timeline and how to undo itself; actions can be grouped into transactions
//! that are undone and redone as one.

use vstd::prelude::*;
use crate::project::ids::{ClipId, TrackId};
use crate::utility::text::{push_str, string_from_chars};
use crate::utility::time::{duration_ms, lemma_view_bounds, Duration, TimePosition};
use super::{
    lemma_clip_index, lemma_clip_index_update, lemma_remove_added_clip, lemma_without_unique, lemma_reinsert_clip, lemma_insert_fresh_clip, lemma_track_with_clip, lemma_track_index, lemma_track_index_update, lemma_without_track_id_absent,
    sorted_by_position, clip_index, kind_name, overlaps_any, overlaps_other, placed_at, sort_by_position, timeline_error_text,
    track_index, track_with_clip, with_clips, with_track, without_clip, without_track_id, Clip, Timeline,
    TimelineError, TimelineView, Track, TrackKind, TrackView,
};
use super::multi_track::{
    edge_index, lemma_without_edge_absent, lemma_without_track_absent, reaches, with_edge, without_edge, without_track, MultiTrackError, TrackRelationship,
};

verus! {

/// A single reversible edit of a timeline; each variant keeps what is needed to
/// undo it.
#[derive(Debug, Clone)]
pub enum EditAction {
    /// A clip was added to a track.
    AddClip { track_id: TrackId, clip: Clip },
    /// A clip was removed from a track, where it stood at `original_index`.
    RemoveClip { track_id: TrackId, clip: Clip, original_index: usize },
    /// A clip was moved within a track or to another track.
    MoveClip {
        clip_id: ClipId,
        original_track_id: TrackId,
        original_position: TimePosition,
        original_index: usize,
        new_track_id: TrackId,
        new_position: TimePosition,
    },
    /// The duration (and source end) of a clip changed.
    SetClipDuration {
        clip_id: ClipId,
        track_id: TrackId,
        original_duration: Duration,
        new_duration: Duration,
        original_source_end: TimePosition,
        new_source_end: TimePosition,
    },
    /// The position of a clip changed.
    SetClipPosition { clip_id: ClipId, track_id: TrackId, original_position: TimePosition, new_position: TimePosition },
    /// A track was added.
    AddTrack { track_id: TrackId, track_kind: TrackKind, track_name: String },
    /// A track was removed; it stood at `original_index`.
    RemoveTrack { track_data: Track, original_index: usize },
    /// A track was renamed.
    SetTrackName { track_id: TrackId, original_name: String, new_name: String },
    /// A track was muted or unmuted.
    SetTrackMuted { track_id: TrackId, original_muted: bool, new_muted: bool },
    /// A track was locked or unlocked.
    SetTrackLocked { track_id: TrackId, original_locked: bool, new_locked: bool },
    /// A relationship between two tracks was added.
    AddRelationship { source_id: TrackId, target_id: TrackId, relationship_kind: TrackRelationship },
    /// A relationship between two tracks was removed.
    RemoveRelationship {
        source_id: TrackId,
        target_id: TrackId,
        original_relationship_kind: TrackRelationship,
    },
    /// The kind of a relationship between two tracks changed.
    UpdateRelationship {
        source_id: TrackId,
        target_id: TrackId,
        original_relationship_kind: TrackRelationship,
        updated_relationship_kind: TrackRelationship,
    },
}

// ---------------------------------------------------------------------------
// What the timeline operations used by the actions do, as functions of views.
// ---------------------------------------------------------------------------

/// Whether adding `c` to the track `tid` succeeds.
pub open spec fn add_clip_ok(v: TimelineView, tid: TrackId, c: Clip) -> bool {
    let k = track_index(v.tracks, tid);
    k >= 0 && !overlaps_any(v.tracks[k].clips, c)
}

/// The timeline after adding `c` to the track `tid`.
pub open spec fn add_clip_view(v: TimelineView, tid: TrackId, c: Clip) -> TimelineView {
    let k = track_index(v.tracks, tid);
    if add_clip_ok(v, tid, c) {
        with_clips(v, k, sort_by_position(v.tracks[k].clips.push(c)))
    } else {
        v
    }
}

/// The error of adding `c` to the track `tid`, when it fails.
pub open spec fn add_clip_error(v: TimelineView, tid: TrackId, c: Clip, e: TimelineError) -> bool {
    let k = track_index(v.tracks, tid);
    &&& k < 0 ==> e == TimelineError::TrackNotFound(tid)
    &&& k >= 0 ==> (e matches TimelineError::ClipOverlap { position } && position@ == c.pos())
}

/// Whether a clip can be found by identifier `cid` on the track `tid`.
pub open spec fn clip_found(v: TimelineView, tid: TrackId, cid: ClipId) -> bool {
    let k = track_index(v.tracks, tid);
    k >= 0 && clip_index(v.tracks[k].clips, cid) >= 0
}

/// The error when no clip `cid` can be found on the track `tid`.
pub open spec fn clip_lookup_error(v: TimelineView, tid: TrackId, cid: ClipId, e: TimelineError) -> bool {
    let k = track_index(v.tracks, tid);
    &&& k < 0 ==> e == TimelineError::TrackNotFound(tid)
    &&& k >= 0 ==> e == TimelineError::ClipNotFound { track: tid, clip: cid }
}

/// The timeline after removing the clips `cid` from the track `tid`.
pub open spec fn remove_clip_view(v: TimelineView, tid: TrackId, cid: ClipId) -> TimelineView {
    let k = track_index(v.tracks, tid);
    if clip_found(v, tid, cid) {
        with_clips(v, k, without_clip(v.tracks[k].clips, cid))
    } else {
        v
    }
}

/// The timeline after giving the clip `cid` of the track `tid` the duration `d`
/// and the source end `se`.
pub open spec fn clip_duration_view(v: TimelineView, tid: TrackId, cid: ClipId, d: nat, se: nat) -> TimelineView {
    let k = track_index(v.tracks, tid);
    let j = clip_index(v.tracks[k].clips, cid);
    let c = v.tracks[k].clips[j];
    if clip_found(v, tid, cid) {
        with_clips(
            v,
            k,
            v.tracks[k].clips.update(j, Clip::make(c.cid(), c.asset(), c.pos(), d, c.src_start(), se)),
        )
    } else {
        v
    }
}

/// The timeline after moving the clip `cid` of the track `tid` to position `p`
/// and ordering the clips of the track again.
pub open spec fn clip_position_view(v: TimelineView, tid: TrackId, cid: ClipId, p: nat) -> TimelineView {
    let k = track_index(v.tracks, tid);
    let j = clip_index(v.tracks[k].clips, cid);
    let c = v.tracks[k].clips[j];
    if clip_found(v, tid, cid) {
        with_clips(
            v,
            k,
            sort_by_position(
                v.tracks[k].clips.update(j, Clip::make(c.cid(), c.asset(), p, c.dur(), c.src_start(), c.src_end())),
            ),
        )
    } else {
        v
    }
}

/// The timeline after putting the clip `c` back into the track `tid` at index
/// `index` (or at the end when `index` is past it).
pub open spec fn clip_inserted_view(v: TimelineView, tid: TrackId, index: usize, c: Clip) -> TimelineView {
    let k = track_index(v.tracks, tid);
    let clips = v.tracks[k].clips;
    if k >= 0 {
        with_clips(v, k, clips.insert(if index <= clips.len() { index as int } else { clips.len() as int }, c))
    } else {
        v
    }
}

/// Whether moving the clip `cid` from the track `s` to the track `t` succeeds.
pub open spec fn move_ok(v: TimelineView, s: TrackId, t: TrackId, cid: ClipId, p: Option<TimePosition>) -> bool {
    let ts = v.tracks;
    let ks = track_index(ts, s);
    let kt = track_index(ts, t);
    let j = clip_index(ts[ks].clips, cid);
    let v1 = with_clips(v, ks, ts[ks].clips.remove(j));
    &&& ks >= 0 && kt >= 0 && ts[ks].kind == ts[kt].kind && j >= 0
    &&& !overlaps_other(v1.tracks[kt].clips, placed_at(ts[ks].clips[j], p))
}

/// The timeline after moving the clip `cid` from the track `s` to the track `t`
/// (see `Timeline::move_clip_to_track`).
pub open spec fn move_view(v: TimelineView, s: TrackId, t: TrackId, cid: ClipId, p: Option<TimePosition>) -> TimelineView {
    let ts = v.tracks;
    let ks = track_index(ts, s);
    let kt = track_index(ts, t);
    let j = clip_index(ts[ks].clips, cid);
    let v1 = with_clips(v, ks, ts[ks].clips.remove(j));
    let c = placed_at(ts[ks].clips[j], p);
    if !(ks >= 0 && kt >= 0 && ts[ks].kind == ts[kt].kind && j >= 0) || overlaps_other(v1.tracks[kt].clips, c) {
        v
    } else {
        with_clips(v1, kt, sort_by_position(v1.tracks[kt].clips.push(c)))
    }
}

/// The error of moving the clip `cid` from the track `s` to the track `t`, when it fails.
pub open spec fn move_error(
    v: TimelineView,
    s: TrackId,
    t: TrackId,
    cid: ClipId,
    p: Option<TimePosition>,
    e: TimelineError,
) -> bool {
    let ts = v.tracks;
    let ks = track_index(ts, s);
    let kt = track_index(ts, t);
    let j = clip_index(ts[ks].clips, cid);
    &&& ks < 0 ==> e == TimelineError::TrackNotFound(s)
    &&& ks >= 0 && kt < 0 ==> e == TimelineError::TrackNotFound(t)
    &&& ks >= 0 && kt >= 0 && ts[ks].kind != ts[kt].kind ==> (e matches TimelineError::InvalidOperation(msg)
        && msg@ == "Cannot move clip between different track kinds: "@ + kind_name(ts[ks].kind) + " and "@
        + kind_name(ts[kt].kind))
    &&& ks >= 0 && kt >= 0 && ts[ks].kind == ts[kt].kind && j < 0 ==> e == TimelineError::ClipNotFound {
        track: s,
        clip: cid,
    }
    &&& ks >= 0 && kt >= 0 && ts[ks].kind == ts[kt].kind && j >= 0 ==> (e matches TimelineError::ClipOverlap {
        position,
    } && position@ == placed_at(ts[ks].clips[j], p).pos())
}

/// The timeline with the track `tid` replaced by `f` of it, when it exists.
pub open spec fn track_changed(v: TimelineView, tid: TrackId, t: TrackView) -> TimelineView {
    let k = track_index(v.tracks, tid);
    if k >= 0 { with_track(v, k, t) } else { v }
}

/// The track `tid` of `v` (meaningful when it exists).
pub open spec fn track_of(v: TimelineView, tid: TrackId) -> TrackView {
    v.tracks[track_index(v.tracks, tid)]
}

/// The timeline after removing the track `tid` and its relationships.
pub open spec fn remove_track_view(v: TimelineView, tid: TrackId) -> TimelineView {
    if track_index(v.tracks, tid) >= 0 {
        TimelineView { tracks: without_track_id(v.tracks, tid), edges: without_track(v.edges, tid) }
    } else {
        v
    }
}

/// The timeline after inserting the track `t` at index `index` (or at the end).
pub open spec fn track_inserted_view(v: TimelineView, index: usize, t: TrackView) -> TimelineView {
    TimelineView {
        tracks: v.tracks.insert(if index <= v.tracks.len() { index as int } else { v.tracks.len() as int }, t),
        edges: v.edges,
    }
}

/// The timeline after setting the relationship from `s` to `t`, when that closes no cycle.
pub open spec fn relationship_set_view(v: TimelineView, s: TrackId, t: TrackId, kind: TrackRelationship) -> TimelineView {
    if !reaches(v.edges, t, s) {
        TimelineView { edges: with_edge(v.edges, s, t, kind), ..v }
    } else {
        v
    }
}

/// The timeline after removing the relationship from `s` to `t`.
pub open spec fn relationship_removed_view(v: TimelineView, s: TrackId, t: TrackId) -> TimelineView {
    TimelineView { edges: without_edge(v.edges, s, t), ..v }
}

/// The error of a relationship that would close a cycle.
pub open spec fn cycle_error(s: TrackId, t: TrackId) -> TimelineError {
    TimelineError::MultiTrack(MultiTrackError::CircularDependency(s, t))
}

// ---------------------------------------------------------------------------
// What applying and undoing an action does.
// ---------------------------------------------------------------------------

/// Whether applying `a` to the timeline `v` succeeds.
pub open spec fn apply_succeeds(a: EditAction, v: TimelineView) -> bool {
    match a {
        EditAction::AddClip { track_id, clip } => add_clip_ok(v, track_id, clip),
        EditAction::RemoveClip { track_id, clip, .. } => clip_found(v, track_id, clip.cid()),
        EditAction::MoveClip { clip_id, new_track_id, new_position, .. } => {
            let k = track_with_clip(v.tracks, clip_id);
            k >= 0 && move_ok(v, v.tracks[k].id, new_track_id, clip_id, Some(new_position))
        },
        EditAction::SetClipDuration { clip_id, track_id, .. } => clip_found(v, track_id, clip_id),
        EditAction::SetClipPosition { clip_id, track_id, .. } => clip_found(v, track_id, clip_id),
        EditAction::AddTrack { .. } => true,
        EditAction::RemoveTrack { track_data, .. } => track_index(v.tracks, track_data@.id) >= 0,
        EditAction::SetTrackName { track_id, .. } => track_index(v.tracks, track_id) >= 0,
        EditAction::SetTrackMuted { track_id, .. } => track_index(v.tracks, track_id) >= 0,
        EditAction::SetTrackLocked { track_id, .. } => track_index(v.tracks, track_id) >= 0,
        EditAction::AddRelationship { source_id, target_id, .. } => !reaches(v.edges, target_id, source_id),
        EditAction::RemoveRelationship { .. } => true,
        EditAction::UpdateRelationship { source_id, target_id, .. } => !reaches(
            without_edge(v.edges, source_id, target_id),
            target_id,
            source_id,
        ),
    }
}

/// The timeline after applying `a` to `v` (also when it fails part way).
pub open spec fn applied(a: EditAction, v: TimelineView) -> TimelineView {
    match a {
        EditAction::AddClip { track_id, clip } => add_clip_view(v, track_id, clip),
        EditAction::RemoveClip { track_id, clip, .. } => remove_clip_view(v, track_id, clip.cid()),
        EditAction::MoveClip { clip_id, new_track_id, new_position, .. } => {
            let k = track_with_clip(v.tracks, clip_id);
            if k >= 0 {
                move_view(v, v.tracks[k].id, new_track_id, clip_id, Some(new_position))
            } else {
                v
            }
        },
        EditAction::SetClipDuration { clip_id, track_id, new_duration, new_source_end, .. } => clip_duration_view(
            v,
            track_id,
            clip_id,
            new_duration@,
            new_source_end@,
        ),
        EditAction::SetClipPosition { clip_id, track_id, new_position, .. } => clip_position_view(
            v,
            track_id,
            clip_id,
            new_position@,
        ),
        EditAction::AddTrack { track_id, track_kind, track_name } => TimelineView {
            tracks: v.tracks.push(
                TrackView {
                    id: track_id,
                    kind: track_kind,
                    name: track_name@,
                    clips: Seq::empty(),
                    muted: false,
                    locked: false,
                },
            ),
            edges: v.edges,
        },
        EditAction::RemoveTrack { track_data, .. } => remove_track_view(v, track_data@.id),
        EditAction::SetTrackName { track_id, new_name, .. } => track_changed(
            v,
            track_id,
            TrackView { name: new_name@, ..track_of(v, track_id) },
        ),
        EditAction::SetTrackMuted { track_id, new_muted, .. } => track_changed(
            v,
            track_id,
            TrackView { muted: new_muted, ..track_of(v, track_id) },
        ),
        EditAction::SetTrackLocked { track_id, new_locked, .. } => track_changed(
            v,
            track_id,
            TrackView { locked: new_locked, ..track_of(v, track_id) },
        ),
        EditAction::AddRelationship { source_id, target_id, relationship_kind } => relationship_set_view(
            v,
            source_id,
            target_id,
            relationship_kind,
        ),
        EditAction::RemoveRelationship { source_id, target_id, .. } => relationship_removed_view(
            v,
            source_id,
            target_id,
        ),
        EditAction::UpdateRelationship { source_id, target_id, updated_relationship_kind, .. } =>
            relationship_set_view(
            relationship_removed_view(v, source_id, target_id),
            source_id,
            target_id,
            updated_relationship_kind,
        ),
    }
}

/// The error `e` is the one applying `a` to `v` fails with.
pub open spec fn apply_error(a: EditAction, v: TimelineView, e: TimelineError) -> bool {
    match a {
        EditAction::AddClip { track_id, clip } => add_clip_error(v, track_id, clip, e),
        EditAction::RemoveClip { track_id, clip, .. } => clip_lookup_error(v, track_id, clip.cid(), e),
        EditAction::MoveClip { clip_id, new_track_id, new_position, .. } => {
            let k = track_with_clip(v.tracks, clip_id);
            &&& k < 0 ==> (e matches TimelineError::ClipNotFound { clip, .. } && clip == clip_id)
            &&& k >= 0 ==> move_error(v, v.tracks[k].id, new_track_id, clip_id, Some(new_position), e)
        },
        EditAction::SetClipDuration { clip_id, track_id, .. } => clip_lookup_error(v, track_id, clip_id, e),
        EditAction::SetClipPosition { clip_id, track_id, .. } => clip_lookup_error(v, track_id, clip_id, e),
        EditAction::AddTrack { .. } => false,
        EditAction::RemoveTrack { track_data, .. } => e == TimelineError::TrackNotFound(track_data@.id),
        EditAction::SetTrackName { track_id, .. } => e == TimelineError::TrackNotFound(track_id),
        EditAction::SetTrackMuted { track_id, .. } => e == TimelineError::TrackNotFound(track_id),
        EditAction::SetTrackLocked { track_id, .. } => e == TimelineError::TrackNotFound(track_id),
        EditAction::AddRelationship { source_id, target_id, .. } => e == cycle_error(source_id, target_id),
        EditAction::RemoveRelationship { .. } => false,
        EditAction::UpdateRelationship { source_id, target_id, .. } => e == cycle_error(source_id, target_id),
    }
}

/// Whether undoing `a` on the timeline `v` succeeds.
pub open spec fn undo_succeeds(a: EditAction, v: TimelineView) -> bool {
    match a {
        EditAction::AddClip { track_id, clip } => clip_found(v, track_id, clip.cid()),
        EditAction::RemoveClip { track_id, .. } => track_index(v.tracks, track_id) >= 0,
        EditAction::MoveClip { clip_id, original_track_id, original_position, new_track_id, .. } => move_ok(
            v,
            new_track_id,
            original_track_id,
            clip_id,
            Some(original_position),
        ),
        EditAction::SetClipDuration { clip_id, track_id, .. } => clip_found(v, track_id, clip_id),
        EditAction::SetClipPosition { clip_id, track_id, .. } => clip_found(v, track_id, clip_id),
        EditAction::AddTrack { track_id, .. } => track_index(v.tracks, track_id) >= 0,
        EditAction::RemoveTrack { .. } => true,
        EditAction::SetTrackName { track_id, .. } => track_index(v.tracks, track_id) >= 0,
        EditAction::SetTrackMuted { track_id, .. } => track_index(v.tracks, track_id) >= 0,
        EditAction::SetTrackLocked { track_id, .. } => track_index(v.tracks, track_id) >= 0,
        EditAction::AddRelationship { .. } => true,
        EditAction::RemoveRelationship { source_id, target_id, .. } => !reaches(v.edges, target_id, source_id),
        EditAction::UpdateRelationship { source_id, target_id, .. } => !reaches(
            without_edge(v.edges, source_id, target_id),
            target_id,
            source_id,
        ),
    }
}

/// The timeline after undoing `a` on `v` (also when it fails part way).
pub open spec fn undone(a: EditAction, v: TimelineView) -> TimelineView {
    match a {
        EditAction::AddClip { track_id, clip } => remove_clip_view(v, track_id, clip.cid()),
        EditAction::RemoveClip { track_id, clip, original_index } => clip_inserted_view(
            v,
            track_id,
            original_index,
            clip,
        ),
        EditAction::MoveClip { clip_id, original_track_id, original_position, new_track_id, .. } => move_view(
            v,
            new_track_id,
            original_track_id,
            clip_id,
            Some(original_position),
        ),
        EditAction::SetClipDuration { clip_id, track_id, original_duration, original_source_end, .. } =>
            clip_duration_view(v, track_id, clip_id, original_duration@, original_source_end@),
        EditAction::SetClipPosition { clip_id, track_id, original_position, .. } => clip_position_view(
            v,
            track_id,
            clip_id,
            original_position@,
        ),
        EditAction::AddTrack { track_id, .. } => remove_track_view(v, track_id),
        EditAction::RemoveTrack { track_data, original_index } => track_inserted_view(
            v,
            original_index,
            track_data@,
        ),
        EditAction::SetTrackName { track_id, original_name, .. } => track_changed(
            v,
            track_id,
            TrackView { name: original_name@, ..track_of(v, track_id) },
        ),
        EditAction::SetTrackMuted { track_id, original_muted, .. } => track_changed(
            v,
            track_id,
            TrackView { muted: original_muted, ..track_of(v, track_id) },
        ),
        EditAction::SetTrackLocked { track_id, original_locked, .. } => track_changed(
            v,
            track_id,
            TrackView { locked: original_locked, ..track_of(v, track_id) },
        ),
        EditAction::AddRelationship { source_id, target_id, .. } => relationship_removed_view(
            v,
            source_id,
            target_id,
        ),
        EditAction::RemoveRelationship { source_id, target_id, original_relationship_kind } =>
            relationship_set_view(v, source_id, target_id, original_relationship_kind),
        EditAction::UpdateRelationship { source_id, target_id, original_relationship_kind, .. } =>
            relationship_set_view(
            relationship_removed_view(v, source_id, target_id),
            source_id,
            target_id,
            original_relationship_kind,
        ),
    }
}

/// The error `e` is the one undoing `a` on `v` fails with.
pub open spec fn undo_error(a: EditAction, v: TimelineView, e: TimelineError) -> bool {
    match a {
        EditAction::AddClip { track_id, clip } => clip_lookup_error(v, track_id, clip.cid(), e),
        EditAction::RemoveClip { track_id, .. } => e == TimelineError::TrackNotFound(track_id),
        EditAction::MoveClip { clip_id, original_track_id, original_position, new_track_id, .. } => move_error(
            v,
            new_track_id,
            original_track_id,
            clip_id,
            Some(original_position),
            e,
        ),
        EditAction::SetClipDuration { clip_id, track_id, .. } => clip_lookup_error(v, track_id, clip_id, e),
        EditAction::SetClipPosition { clip_id, track_id, .. } => clip_lookup_error(v, track_id, clip_id, e),
        EditAction::AddTrack { track_id, .. } => e == TimelineError::TrackNotFound(track_id),
        EditAction::RemoveTrack { .. } => false,
        EditAction::SetTrackName { track_id, .. } => e == TimelineError::TrackNotFound(track_id),
        EditAction::SetTrackMuted { track_id, .. } => e == TimelineError::TrackNotFound(track_id),
        EditAction::SetTrackLocked { track_id, .. } => e == TimelineError::TrackNotFound(track_id),
        EditAction::AddRelationship { .. } => false,
        EditAction::RemoveRelationship { source_id, target_id, .. } => e == cycle_error(source_id, target_id),
        EditAction::UpdateRelationship { source_id, target_id, .. } => e == cycle_error(source_id, target_id),
    }
}

/// Actions on a timeline that can be applied and undone.
pub trait UndoableAction {
    /// Applies the action to `timeline`.
    fn apply(&self, timeline: &mut Timeline) -> (r: Result<(), TimelineError>);

    /// Undoes the action on `timeline`.
    fn undo(&self, timeline: &mut Timeline) -> (r: Result<(), TimelineError>);
}

impl UndoableAction for EditAction {
    /// Applies the action (see `EditAction::apply`).
    fn apply(&self, timeline: &mut Timeline) -> (r: Result<(), TimelineError>)
        ensures
            r is Ok <==> apply_succeeds(*self, old(timeline)@),
            r matches Err(e) ==> apply_error(*self, old(timeline)@, e),
            final(timeline)@ == applied(*self, old(timeline)@),
    {
        EditAction::apply(self, timeline)
    }

    /// Undoes the action (see `EditAction::undo`).
    fn undo(&self, timeline: &mut Timeline) -> (r: Result<(), TimelineError>)
        ensures
            r is Ok <==> undo_succeeds(*self, old(timeline)@),
            r matches Err(e) ==> undo_error(*self, old(timeline)@, e),
            final(timeline)@ == undone(*self, old(timeline)@),
    {
        EditAction::undo(self, timeline)
    }
}

impl EditAction {
    /// Undoes the action on `timeline`.
    pub fn undo(&self, timeline: &mut Timeline) -> (r: Result<(), TimelineError>)
        ensures
            r is Ok <==> undo_succeeds(*self, old(timeline)@),
            r matches Err(e) ==> undo_error(*self, old(timeline)@, e),
            final(timeline)@ == undone(*self, old(timeline)@),
    {
        match self {
            EditAction::AddClip { track_id, clip } => timeline.remove_clip(*track_id, clip.id()),
            EditAction::RemoveClip { track_id, clip, original_index } => {
                match timeline.track_position(*track_id) {
                    Some(k) => {
                        timeline.insert_clip_in_track(k, *original_index, *clip);
                        Ok(())
                    },
                    None => Err(TimelineError::TrackNotFound(*track_id)),
                }
            },
            EditAction::MoveClip { clip_id, original_track_id, original_position, new_track_id, .. } => {
                timeline.move_clip_to_track(*new_track_id, *original_track_id, *clip_id, Some(*original_position))
            },
            EditAction::SetClipDuration { clip_id, track_id, original_duration, original_source_end, .. } => {
                set_clip_duration(timeline, *track_id, *clip_id, *original_duration, *original_source_end)
            },
            EditAction::SetClipPosition { clip_id, track_id, original_position, .. } => {
                set_clip_position(timeline, *track_id, *clip_id, *original_position)
            },
            EditAction::AddTrack { track_id, .. } => timeline.remove_track(*track_id),
            EditAction::RemoveTrack { track_data, original_index } => {
                timeline.insert_track(*original_index, track_data.duplicate());
                Ok(())
            },
            EditAction::SetTrackName { track_id, original_name, .. } => rename_track(
                timeline,
                *track_id,
                original_name.as_str(),
            ),
            EditAction::SetTrackMuted { track_id, original_muted, .. } => set_track_muted(
                timeline,
                *track_id,
                *original_muted,
            ),
            EditAction::SetTrackLocked { track_id, original_locked, .. } => set_track_locked(
                timeline,
                *track_id,
                *original_locked,
            ),
            EditAction::AddRelationship { source_id, target_id, .. } => {
                remove_relationship(timeline, *source_id, *target_id);
                Ok(())
            },
            EditAction::RemoveRelationship { source_id, target_id, original_relationship_kind } => set_relationship(
                timeline,
                *source_id,
                *target_id,
                *original_relationship_kind,
            ),
            EditAction::UpdateRelationship { source_id, target_id, original_relationship_kind, .. } => {
                remove_relationship(timeline, *source_id, *target_id);
                set_relationship(timeline, *source_id, *target_id, *original_relationship_kind)
            },
        }
    }

    /// Applies the action to `timeline`.
    pub fn apply(&self, timeline: &mut Timeline) -> (r: Result<(), TimelineError>)
        ensures
            r is Ok <==> apply_succeeds(*self, old(timeline)@),
            r matches Err(e) ==> apply_error(*self, old(timeline)@, e),
            final(timeline)@ == applied(*self, old(timeline)@),
    {
        match self {
            EditAction::AddClip { track_id, clip } => timeline.add_clip(*track_id, *clip),
            EditAction::RemoveClip { track_id, clip, .. } => timeline.remove_clip(*track_id, clip.id()),
            EditAction::MoveClip { clip_id, new_track_id, new_position, .. } => {
                let source = match timeline.find_track_containing_clip(*clip_id) {
                    Some(id) => id,
                    None => {
                        return Err(TimelineError::ClipNotFound { track: TrackId::new(), clip: *clip_id });
                    },
                };
                timeline.move_clip_to_track(source, *new_track_id, *clip_id, Some(*new_position))
            },
            EditAction::SetClipDuration { clip_id, track_id, new_duration, new_source_end, .. } => {
                set_clip_duration(timeline, *track_id, *clip_id, *new_duration, *new_source_end)
            },
            EditAction::SetClipPosition { clip_id, track_id, new_position, .. } => {
                set_clip_position(timeline, *track_id, *clip_id, *new_position)
            },
            EditAction::AddTrack { track_id, track_kind, track_name } => {
                let mut track = Track::new(*track_id, *track_kind);
                track.set_name(track_name.as_str());
                timeline.push_track(track);
                Ok(())
            },
            EditAction::RemoveTrack { track_data, .. } => timeline.remove_track(track_data.id()),
            EditAction::SetTrackName { track_id, new_name, .. } => rename_track(timeline, *track_id, new_name.as_str()),
            EditAction::SetTrackMuted { track_id, new_muted, .. } => set_track_muted(timeline, *track_id, *new_muted),
            EditAction::SetTrackLocked { track_id, new_locked, .. } => set_track_locked(
                timeline,
                *track_id,
                *new_locked,
            ),
            EditAction::AddRelationship { source_id, target_id, relationship_kind } => set_relationship(
                timeline,
                *source_id,
                *target_id,
                *relationship_kind,
            ),
            EditAction::RemoveRelationship { source_id, target_id, .. } => {
                remove_relationship(timeline, *source_id, *target_id);
                Ok(())
            },
            EditAction::UpdateRelationship { source_id, target_id, updated_relationship_kind, .. } => {
                remove_relationship(timeline, *source_id, *target_id);
                set_relationship(timeline, *source_id, *target_id, *updated_relationship_kind)
            },
        }
    }
}

// ---------------------------------------------------------------------------
// The timeline operations used by the actions.
// ---------------------------------------------------------------------------

fn set_clip_duration(timeline: &mut Timeline, tid: TrackId, cid: ClipId, d: Duration, se: TimePosition) -> (r: Result<
    (),
    TimelineError,
>)
    ensures
        r is Ok <==> clip_found(old(timeline)@, tid, cid),
        r matches Err(e) ==> clip_lookup_error(old(timeline)@, tid, cid, e),
        final(timeline)@ == clip_duration_view(old(timeline)@, tid, cid, d@, se@),
{
    let k = match timeline.track_position(tid) {
        Some(k) => k,
        None => return Err(TimelineError::TrackNotFound(tid)),
    };
    let j = match timeline.track_at(k).clip_position_of(cid) {
        Some(j) => j,
        None => return Err(TimelineError::ClipNotFound { track: tid, clip: cid }),
    };
    let c = timeline.track_at(k).clip_at(j);
    let nc = Clip::new(c.id(), c.asset_id(), c.position(), d, c.source_start(), se);
    proof {
        Clip::lemma_bounds(c);
        Clip::lemma_bounds(nc);
        Clip::lemma_make(c.cid(), c.asset(), c.pos(), d@, c.src_start(), se@);
        Clip::lemma_ext_equal(nc, Clip::make(c.cid(), c.asset(), c.pos(), d@, c.src_start(), se@));
    }
    timeline.set_clip_in_track(k, j, nc);
    Ok(())
}

fn set_clip_position(timeline: &mut Timeline, tid: TrackId, cid: ClipId, p: TimePosition) -> (r: Result<
    (),
    TimelineError,
>)
    ensures
        r is Ok <==> clip_found(old(timeline)@, tid, cid),
        r matches Err(e) ==> clip_lookup_error(old(timeline)@, tid, cid, e),
        final(timeline)@ == clip_position_view(old(timeline)@, tid, cid, p@),
{
    let k = match timeline.track_position(tid) {
        Some(k) => k,
        None => return Err(TimelineError::TrackNotFound(tid)),
    };
    let j = match timeline.track_at(k).clip_position_of(cid) {
        Some(j) => j,
        None => return Err(TimelineError::ClipNotFound { track: tid, clip: cid }),
    };
    let c = timeline.track_at(k).clip_at(j);
    let nc = Clip::new(c.id(), c.asset_id(), p, c.duration(), c.source_start(), c.source_end());
    proof {
        Clip::lemma_bounds(c);
        Clip::lemma_bounds(nc);
        Clip::lemma_make(c.cid(), c.asset(), p@, c.dur(), c.src_start(), c.src_end());
        Clip::lemma_ext_equal(nc, Clip::make(c.cid(), c.asset(), p@, c.dur(), c.src_start(), c.src_end()));
    }
    let ghost v0 = timeline@;
    timeline.set_clip_in_track(k, j, nc);
    timeline.sort_track_at(k);
    assert(timeline@.tracks =~= with_clips(v0, k as int, sort_by_position(v0.tracks[k as int].clips.update(j as int, nc))).tracks);
    Ok(())
}

fn rename_track(timeline: &mut Timeline, tid: TrackId, name: &str) -> (r: Result<(), TimelineError>)
    ensures
        r is Ok <==> track_index(old(timeline)@.tracks, tid) >= 0,
        r matches Err(e) ==> e == TimelineError::TrackNotFound(tid),
        final(timeline)@ == track_changed(
            old(timeline)@,
            tid,
            TrackView { name: name@, ..track_of(old(timeline)@, tid) },
        ),
{
    match timeline.track_position(tid) {
        Some(k) => {
            timeline.rename_track_at(k, name);
            Ok(())
        },
        None => Err(TimelineError::TrackNotFound(tid)),
    }
}

fn set_track_muted(timeline: &mut Timeline, tid: TrackId, muted: bool) -> (r: Result<(), TimelineError>)
    ensures
        r is Ok <==> track_index(old(timeline)@.tracks, tid) >= 0,
        r matches Err(e) ==> e == TimelineError::TrackNotFound(tid),
        final(timeline)@ == track_changed(old(timeline)@, tid, TrackView { muted, ..track_of(old(timeline)@, tid) }),
{
    match timeline.track_position(tid) {
        Some(k) => {
            let locked = timeline.track_at(k).is_locked();
            timeline.set_track_flags(k, muted, locked);
            Ok(())
        },
        None => Err(TimelineError::TrackNotFound(tid)),
    }
}

fn set_track_locked(timeline: &mut Timeline, tid: TrackId, locked: bool) -> (r: Result<(), TimelineError>)
    ensures
        r is Ok <==> track_index(old(timeline)@.tracks, tid) >= 0,
        r matches Err(e) ==> e == TimelineError::TrackNotFound(tid),
        final(timeline)@ == track_changed(old(timeline)@, tid, TrackView { locked, ..track_of(old(timeline)@, tid) }),
{
    match timeline.track_position(tid) {
        Some(k) => {
            let muted = timeline.track_at(k).is_muted();
            timeline.set_track_flags(k, muted, locked);
            Ok(())
        },
        None => Err(TimelineError::TrackNotFound(tid)),
    }
}

fn set_relationship(timeline: &mut Timeline, s: TrackId, t: TrackId, kind: TrackRelationship) -> (r: Result<
    (),
    TimelineError,
>)
    ensures
        r is Ok <==> !reaches(old(timeline)@.edges, t, s),
        r matches Err(e) ==> e == cycle_error(s, t),
        final(timeline)@ == relationship_set_view(old(timeline)@, s, t, kind),
{
    let m = timeline.multi_track_manager_mut();
    match m.add_relationship_no_timeline_check(s, t, kind) {
        Ok(()) => Ok(()),
        Err(e) => Err(TimelineError::MultiTrack(e)),
    }
}

fn remove_relationship(timeline: &mut Timeline, s: TrackId, t: TrackId)
    ensures
        final(timeline)@ == relationship_removed_view(old(timeline)@, s, t),
{
    let m = timeline.multi_track_manager_mut();
    let _ = m.remove_relationship(s, t);
}

// ---------------------------------------------------------------------------
// Transactions and the history.
// ---------------------------------------------------------------------------

/// A transaction as a value: its description and its actions, in the order they
/// were recorded.
pub struct TransactionGroupView {
    pub description: Option<Seq<char>>,
    pub actions: Seq<EditAction>,
}

/// A group of actions that are undone and redone together.
#[derive(Debug, Clone)]
pub struct TransactionGroup {
    description: Option<String>,
    actions: Vec<EditAction>,
}

impl View for TransactionGroup {
    type V = TransactionGroupView;

    closed spec fn view(&self) -> TransactionGroupView {
        TransactionGroupView {
            description: match self.description {
                Some(d) => Some(d@),
                None => None,
            },
            actions: self.actions@,
        }
    }
}

impl TransactionGroup {
    /// Creates an empty transaction with an optional description.
    pub fn new(description: Option<String>) -> (g: Self)
        ensures
            g@.description == (match description {
                Some(d) => Some(d@),
                None => None::<Seq<char>>,
            }),
            g@.actions == Seq::<EditAction>::empty(),
    {
        TransactionGroup { description, actions: Vec::new() }
    }

    fn add_action(&mut self, action: EditAction)
        ensures
            final(self)@ == (TransactionGroupView {
                actions: old(self)@.actions.push(action),
                ..old(self)@
            }),
    {
        self.actions.push(action);
    }

    /// The actions of the transaction, in the order they were recorded.
    pub fn actions(&self) -> (s: &[EditAction])
        ensures
            s@ == self@.actions,
    {
        self.actions.as_slice()
    }

    /// The description of the transaction, if it has one.
    pub fn description(&self) -> (d: Option<&str>)
        ensures
            match d {
                Some(s) => self@.description == Some(s@),
                None => self@.description is None,
            },
    {
        match &self.description {
            Some(s) => Some(s.as_str()),
            None => None,
        }
    }
}

/// An entry of the history: one action or a transaction.
#[derive(Debug, Clone)]
pub enum HistoryEntry {
    /// A single action.
    Single(EditAction),
    /// A group of actions undone and redone as one.
    Group(TransactionGroup),
}

/// Undoing the actions `acts` on `v`, last to first, stopping at the first that
/// fails: whether all succeeded, and the timeline after.
pub open spec fn group_undone(acts: Seq<EditAction>, v: TimelineView) -> (bool, TimelineView)
    decreases acts.len(),
{
    if acts.len() == 0 {
        (true, v)
    } else if undo_succeeds(acts.last(), v) {
        group_undone(acts.drop_last(), undone(acts.last(), v))
    } else {
        (false, undone(acts.last(), v))
    }
}

/// The error `e` is the one undoing the actions `acts` on `v` stops with.
pub open spec fn group_undo_error(acts: Seq<EditAction>, v: TimelineView, e: TimelineError) -> bool
    decreases acts.len(),
{
    if acts.len() == 0 {
        false
    } else if undo_succeeds(acts.last(), v) {
        group_undo_error(acts.drop_last(), undone(acts.last(), v), e)
    } else {
        undo_error(acts.last(), v, e)
    }
}

/// Applying the actions `acts` to `v`, first to last, stopping at the first that
/// fails: whether all succeeded, and the timeline after.
pub open spec fn group_applied(acts: Seq<EditAction>, v: TimelineView) -> (bool, TimelineView)
    decreases acts.len(),
{
    if acts.len() == 0 {
        (true, v)
    } else if apply_succeeds(acts[0], v) {
        group_applied(acts.drop_first(), applied(acts[0], v))
    } else {
        (false, applied(acts[0], v))
    }
}

/// The error `e` is the one applying the actions `acts` to `v` stops with.
pub open spec fn group_apply_error(acts: Seq<EditAction>, v: TimelineView, e: TimelineError) -> bool
    decreases acts.len(),
{
    if acts.len() == 0 {
        false
    } else if apply_succeeds(acts[0], v) {
        group_apply_error(acts.drop_first(), applied(acts[0], v), e)
    } else {
        apply_error(acts[0], v, e)
    }
}

/// Undoing the entry `h` on `v`: whether it succeeded, and the timeline after.
pub open spec fn entry_undone(h: HistoryEntry, v: TimelineView) -> (bool, TimelineView) {
    match h {
        HistoryEntry::Single(a) => (undo_succeeds(a, v), undone(a, v)),
        HistoryEntry::Group(g) => group_undone(g@.actions, v),
    }
}

/// The error `e` is the one undoing the entry `h` on `v` fails with.
pub open spec fn entry_undo_error(h: HistoryEntry, v: TimelineView, e: TimelineError) -> bool {
    match h {
        HistoryEntry::Single(a) => undo_error(a, v, e),
        HistoryEntry::Group(g) => group_undo_error(g@.actions, v, e),
    }
}

/// Redoing the entry `h` on `v`: whether it succeeded, and the timeline after.
pub open spec fn entry_applied(h: HistoryEntry, v: TimelineView) -> (bool, TimelineView) {
    match h {
        HistoryEntry::Single(a) => (apply_succeeds(a, v), applied(a, v)),
        HistoryEntry::Group(g) => group_applied(g@.actions, v),
    }
}

/// The error `e` is the one redoing the entry `h` on `v` fails with.
pub open spec fn entry_apply_error(h: HistoryEntry, v: TimelineView, e: TimelineError) -> bool {
    match h {
        HistoryEntry::Single(a) => apply_error(a, v, e),
        HistoryEntry::Group(g) => group_apply_error(g@.actions, v, e),
    }
}

fn undo_group(actions: &[EditAction], timeline: &mut Timeline) -> (r: Result<(), TimelineError>)
    ensures
        r is Ok <==> group_undone(actions@, old(timeline)@).0,
        r matches Err(e) ==> group_undo_error(actions@, old(timeline)@, e),
        final(timeline)@ == group_undone(actions@, old(timeline)@).1,
{
    let ghost acts = actions@;
    let mut i = actions.len();
    assert(acts.take(i as int) == acts);
    while i > 0
        invariant
            i <= acts.len(),
            acts == actions@,
            group_undone(acts, old(timeline)@) == group_undone(acts.take(i as int), timeline@),
            forall|e: TimelineError| group_undo_error(acts, old(timeline)@, e) == group_undo_error(
                acts.take(i as int),
                timeline@,
                e,
            ),
        decreases i,
    {
        let ghost t = acts.take(i as int);
        assert(t.last() == actions@[i - 1]);
        assert(t.drop_last() == acts.take(i - 1));
        let r = actions[i - 1].undo(timeline);
        match r {
            Err(e) => {
                return Err(e);
            },
            Ok(()) => {},
        }
        i = i - 1;
    }
    Ok(())
}

fn apply_group(actions: &[EditAction], timeline: &mut Timeline) -> (r: Result<(), TimelineError>)
    ensures
        r is Ok <==> group_applied(actions@, old(timeline)@).0,
        r matches Err(e) ==> group_apply_error(actions@, old(timeline)@, e),
        final(timeline)@ == group_applied(actions@, old(timeline)@).1,
{
    let ghost acts = actions@;
    let mut i: usize = 0;
    assert(acts.skip(0) == acts);
    while i < actions.len()
        invariant
            i <= acts.len(),
            acts == actions@,
            group_applied(acts, old(timeline)@) == group_applied(acts.skip(i as int), timeline@),
            forall|e: TimelineError| group_apply_error(acts, old(timeline)@, e) == group_apply_error(
                acts.skip(i as int),
                timeline@,
                e,
            ),
        decreases acts.len() - i,
    {
        let ghost t = acts.skip(i as int);
        assert(t[0] == actions@[i as int]);
        assert(t.drop_first() == acts.skip(i + 1));
        let r = actions[i].apply(timeline);
        match r {
            Err(e) => {
                return Err(e);
            },
            Ok(()) => {},
        }
        i = i + 1;
    }
    assert(acts.skip(i as int).len() == 0);
    Ok(())
}

/// The errors of the history operations.
#[derive(Debug, Clone, PartialEq, Eq)]
pub enum HistoryError {
    /// There is nothing to undo.
    NothingToUndo,
    /// There is nothing to redo.
    NothingToRedo,
    /// Undoing or redoing failed on the timeline; the message says why.
    ApplyActionError(String),
    /// A transaction is already in progress.
    TransactionInProgress,
    /// No transaction is in progress.
    NoTransactionInProgress,
}

/// The message of a history error.
pub open spec fn history_error_text(e: HistoryError) -> Seq<char> {
    match e {
        HistoryError::NothingToUndo => "Nothing to undo"@,
        HistoryError::NothingToRedo => "Nothing to redo"@,
        HistoryError::ApplyActionError(m) => "Failed to apply action during undo/redo: "@ + m@,
        HistoryError::TransactionInProgress => "Transaction already in progress"@,
        HistoryError::NoTransactionInProgress => "No transaction in progress"@,
    }
}

impl HistoryError {
    /// The error raised when a timeline operation fails during undo or redo.
    pub fn from_timeline_error(e: &TimelineError) -> (h: Self)
        ensures
            h matches HistoryError::ApplyActionError(m) && m@ == timeline_error_text(*e),
    {
        HistoryError::ApplyActionError(e.message())
    }

    /// The message of the error.
    pub fn message(&self) -> (s: String)
        ensures
            s@ == history_error_text(*self),
    {
        let mut out: Vec<char> = Vec::new();
        match self {
            HistoryError::NothingToUndo => push_str(&mut out, "Nothing to undo"),
            HistoryError::NothingToRedo => push_str(&mut out, "Nothing to redo"),
            HistoryError::ApplyActionError(m) => {
                push_str(&mut out, "Failed to apply action during undo/redo: ");
                push_str(&mut out, m.as_str());
            },
            HistoryError::TransactionInProgress => push_str(&mut out, "Transaction already in progress"),
            HistoryError::NoTransactionInProgress => push_str(&mut out, "No transaction in progress"),
        }
        string_from_chars(&out)
    }
}

/// The history as a value: the stacks of entries that can be undone and redone
/// (the last entry is the next one), the transaction in progress and the most
/// entries the undo stack keeps.
pub struct HistoryView {
    pub undo: Seq<HistoryEntry>,
    pub redo: Seq<HistoryEntry>,
    pub current: Option<TransactionGroup>,
    pub capacity: Option<usize>,
}

/// The undo stack `s` after pushing `h`, dropping the oldest entry when it grows
/// past the capacity.
pub open spec fn pushed_within(s: Seq<HistoryEntry>, h: HistoryEntry, capacity: Option<usize>) -> Seq<HistoryEntry> {
    let t = s.push(h);
    if capacity matches Some(c) && t.len() > c {
        t.drop_first()
    } else {
        t
    }
}

/// Whether the undo stack of `h` holds no more entries than its capacity allows.
pub open spec fn within_capacity(h: HistoryView) -> bool {
    h.capacity matches Some(c) ==> h.undo.len() <= c
}

/// The undo and redo history of timeline edits.
#[derive(Debug)]
pub struct EditHistory {
    undo_stack: Vec<HistoryEntry>,
    redo_stack: Vec<HistoryEntry>,
    current_transaction: Option<TransactionGroup>,
    capacity: Option<usize>,
}

impl View for EditHistory {
    type V = HistoryView;

    closed spec fn view(&self) -> HistoryView {
        HistoryView {
            undo: self.undo_stack@,
            redo: self.redo_stack@,
            current: self.current_transaction,
            capacity: self.capacity,
        }
    }
}

impl EditHistory {
    /// The undo stack never holds more entries than the capacity allows.
    #[verifier::type_invariant]
    spec fn capacity_kept(self) -> bool {
        within_capacity(self@)
    }

    /// Creates an empty history that keeps at most `capacity` entries to undo
    /// (without limit when `None`).
    pub fn new(capacity: Option<usize>) -> (h: Self)
        ensures
            h@ == (HistoryView {
                undo: Seq::empty(),
                redo: Seq::empty(),
                current: None,
                capacity,
            }),
    {
        EditHistory { undo_stack: Vec::new(), redo_stack: Vec::new(), current_transaction: None, capacity }
    }

    /// Starts a transaction: the actions recorded until it is committed form one
    /// entry. Clears the redo stack. Fails when a transaction is in progress.
    pub fn begin_transaction(&mut self, description: Option<String>) -> (r: Result<(), HistoryError>)
        ensures
            old(self)@.current is Some ==> r == Err::<(), HistoryError>(HistoryError::TransactionInProgress)
                && final(self)@ == old(self)@,
            old(self)@.current is None ==> r is Ok && final(self)@.undo == old(self)@.undo && final(self)@.redo
                == Seq::<HistoryEntry>::empty() && final(self)@.capacity == old(self)@.capacity && (final(self)@.current matches Some(g) && g@.actions == Seq::<EditAction>::empty() && g@.description == (
            match description {
                Some(d) => Some(d@),
                None => None::<Seq<char>>,
            })),
    {
        proof {
            use_type_invariant(&*self);
        }
        if self.current_transaction.is_some() {
            return Err(HistoryError::TransactionInProgress);
        }
        self.current_transaction = Some(TransactionGroup::new(description));
        self.redo_stack = Vec::new();
        Ok(())
    }

    /// Ends the transaction in progress; its actions, if there are any, become one
    /// entry of the undo stack. Fails when no transaction is in progress.
    pub fn commit_transaction(&mut self) -> (r: Result<(), HistoryError>)
        ensures
            old(self)@.current is None ==> r == Err::<(), HistoryError>(HistoryError::NoTransactionInProgress)
                && final(self)@ == old(self)@,
            old(self)@.current matches Some(g) ==> r is Ok && final(self)@ == (HistoryView {
                undo: if g@.actions.len() > 0 {
                    pushed_within(old(self)@.undo, HistoryEntry::Group(g), old(self)@.capacity)
                } else {
                    old(self)@.undo
                },
                current: None,
                ..old(self)@
            }),
    {
        proof {
            use_type_invariant(&*self);
        }
        let mut current: Option<TransactionGroup> = None;
        std::mem::swap(&mut current, &mut self.current_transaction);
        let transaction = match current {
            Some(g) => g,
            None => return Err(HistoryError::NoTransactionInProgress),
        };
        if transaction.actions.len() > 0 {
            self.push_entry(HistoryEntry::Group(transaction));
        }
        Ok(())
    }

    /// Drops the transaction in progress without recording it; the timeline is left
    /// as it is. Fails when no transaction is in progress.
    pub fn rollback_transaction(&mut self) -> (r: Result<(), HistoryError>)
        ensures
            old(self)@.current is None ==> r == Err::<(), HistoryError>(HistoryError::NoTransactionInProgress)
                && final(self)@ == old(self)@,
            old(self)@.current is Some ==> r is Ok && final(self)@ == (HistoryView { current: None, ..old(self)@ }),
    {
        proof {
            use_type_invariant(&*self);
        }
        if self.current_transaction.is_none() {
            return Err(HistoryError::NoTransactionInProgress);
        }
        self.current_transaction = None;
        Ok(())
    }

    /// Records an action: into the transaction in progress if there is one,
    /// otherwise as an entry of its own. Recording any action clears the redo stack.
    pub fn record_action(&mut self, action: EditAction)
        ensures
            final(self)@.redo == Seq::<HistoryEntry>::empty(),
            within_capacity(final(self)@),
            old(self)@.current matches Some(g) ==> final(self)@.undo == old(self)@.undo && final(self)@.capacity == old(self)@.capacity && (final(self)@.current matches Some(h) && h@ == (TransactionGroupView { actions: g@.actions.push(action), ..g@ })),
            old(self)@.current is None ==> final(self)@ == (HistoryView {
                undo: pushed_within(old(self)@.undo, HistoryEntry::Single(action), old(self)@.capacity),
                redo: Seq::empty(),
                ..old(self)@
            }),
    {
        proof {
            use_type_invariant(&*self);
        }
        self.redo_stack = Vec::new();
        let mut current: Option<TransactionGroup> = None;
        std::mem::swap(&mut current, &mut self.current_transaction);
        match current {
            Some(mut g) => {
                g.add_action(action);
                self.current_transaction = Some(g);
            },
            None => {
                self.push_entry(HistoryEntry::Single(action));
            },
        }
        proof {
            use_type_invariant(&*self);
        }
    }

    fn push_entry(&mut self, entry: HistoryEntry)
        ensures
            final(self)@ == (HistoryView {
                undo: pushed_within(old(self)@.undo, entry, old(self)@.capacity),
                ..old(self)@
            }),
    {
        proof {
            use_type_invariant(&*self);
        }
        let ghost before = self.undo_stack@;
        let mut stack: Vec<HistoryEntry> = Vec::new();
        std::mem::swap(&mut stack, &mut self.undo_stack);
        match self.capacity {
            Some(cap) => {
                if stack.len() >= cap {
                    if stack.len() > 0 {
                        let _ = stack.remove(0);
                    }
                    if cap > 0 {
                        stack.push(entry);
                    }
                    assert(stack@ =~= before.push(entry).drop_first());
                } else {
                    stack.push(entry);
                }
            },
            None => {
                stack.push(entry);
            },
        }
        self.undo_stack = stack;
    }

    /// Undoes the last entry on `timeline` and moves it to the redo stack. Fails when
    /// there is nothing to undo, or when the timeline refuses an action; the entry
    /// then stays on the undo stack, and the actions of a group undone before the
    /// failing one stay undone.
    pub fn undo(&mut self, timeline: &mut Timeline) -> (r: Result<(), HistoryError>)
        ensures
            old(self)@.undo.len() == 0 ==> r == Err::<(), HistoryError>(HistoryError::NothingToUndo)
                && final(self)@ == old(self)@ && final(timeline)@ == old(timeline)@,
            old(self)@.undo.len() > 0 ==> ({
                let h = old(self)@.undo.last();
                let (ok, after) = entry_undone(h, old(timeline)@);
                &&& final(timeline)@ == after
                &&& ok ==> r is Ok && final(self)@ == undo_moved(old(self)@)
                &&& !ok ==> final(self)@ == old(self)@ && (r matches Err(HistoryError::ApplyActionError(m))
                    && exists|e: TimelineError| entry_undo_error(h, old(timeline)@, e) && m@ == timeline_error_text(e))
            }),
    {
        proof {
            use_type_invariant(&*self);
        }
        let mut stack: Vec<HistoryEntry> = Vec::new();
        std::mem::swap(&mut stack, &mut self.undo_stack);
        let entry = match stack.pop() {
            Some(h) => h,
            None => {
                self.undo_stack = stack;
                return Err(HistoryError::NothingToUndo);
            },
        };
        self.undo_stack = stack;
        let result = match &entry {
            HistoryEntry::Single(action) => action.undo(timeline),
            HistoryEntry::Group(group) => undo_group(group.actions(), timeline),
        };
        match result {
            Ok(()) => {
                let mut redo: Vec<HistoryEntry> = Vec::new();
                std::mem::swap(&mut redo, &mut self.redo_stack);
                redo.push(entry);
                self.redo_stack = redo;
                Ok(())
            },
            Err(e) => {
                let mut stack: Vec<HistoryEntry> = Vec::new();
                std::mem::swap(&mut stack, &mut self.undo_stack);
                stack.push(entry);
                assert(stack@ =~= old(self).undo_stack@);
                self.undo_stack = stack;
                Err(HistoryError::from_timeline_error(&e))
            },
        }
    }

    /// Redoes the last undone entry on `timeline` and moves it back to the undo
    /// stack (dropping its oldest entry when it is full). Fails when there is nothing to redo, or when the timeline refuses an
    /// action; the entry then stays on the redo stack.
    pub fn redo(&mut self, timeline: &mut Timeline) -> (r: Result<(), HistoryError>)
        ensures
            old(self)@.redo.len() == 0 ==> r == Err::<(), HistoryError>(HistoryError::NothingToRedo)
                && final(self)@ == old(self)@ && final(timeline)@ == old(timeline)@,
            old(self)@.redo.len() > 0 ==> ({
                let h = old(self)@.redo.last();
                let (ok, after) = entry_applied(h, old(timeline)@);
                &&& final(timeline)@ == after
                &&& ok ==> r is Ok && final(self)@ == redo_moved(old(self)@)
                &&& !ok ==> final(self)@ == old(self)@ && (r matches Err(HistoryError::ApplyActionError(m))
                    && exists|e: TimelineError| entry_apply_error(h, old(timeline)@, e) && m@ == timeline_error_text(e))
            }),
    {
        proof {
            use_type_invariant(&*self);
        }
        let mut redo: Vec<HistoryEntry> = Vec::new();
        std::mem::swap(&mut redo, &mut self.redo_stack);
        let entry = match redo.pop() {
            Some(h) => h,
            None => {
                self.redo_stack = redo;
                return Err(HistoryError::NothingToRedo);
            },
        };
        self.redo_stack = redo;
        let result = match &entry {
            HistoryEntry::Single(action) => action.apply(timeline),
            HistoryEntry::Group(group) => apply_group(group.actions(), timeline),
        };
        match result {
            Ok(()) => {
                self.push_entry(entry);
                Ok(())
            },
            Err(e) => {
                let mut redo: Vec<HistoryEntry> = Vec::new();
                std::mem::swap(&mut redo, &mut self.redo_stack);
                redo.push(entry);
                assert(redo@ =~= old(self).redo_stack@);
                self.redo_stack = redo;
                Err(HistoryError::from_timeline_error(&e))
            },
        }
    }

    /// Whether there is an entry to undo.
    pub fn can_undo(&self) -> (b: bool)
        ensures
            b == (self@.undo.len() > 0),
    {
        self.undo_stack.len() > 0
    }

    /// Whether there is an entry to redo.
    pub fn can_redo(&self) -> (b: bool)
        ensures
            b == (self@.redo.len() > 0),
    {
        self.redo_stack.len() > 0
    }

    /// Forgets every entry and the transaction in progress.
    pub fn clear(&mut self)
        ensures
            final(self)@ == (HistoryView {
                undo: Seq::empty(),
                redo: Seq::empty(),
                current: None,
                ..old(self)@
            }),
    {
        proof {
            use_type_invariant(&*self);
        }
        self.undo_stack = Vec::new();
        self.redo_stack = Vec::new();
        self.current_transaction = None;
    }

    /// The entries that can be undone, oldest first.
    pub fn undo_stack(&self) -> (s: &[HistoryEntry])
        ensures
            s@ == self@.undo,
            within_capacity(self@),
    {
        proof {
            use_type_invariant(self);
        }
        self.undo_stack.as_slice()
    }

    /// The entries that can be redone; the last one is redone first.
    pub fn redo_stack(&self) -> (s: &[HistoryEntry])
        ensures
            s@ == self@.redo,
    {
        self.redo_stack.as_slice()
    }

    /// Whether a transaction is in progress.
    pub fn in_transaction(&self) -> (b: bool)
        ensures
            b == (self@.current is Some),
    {
        self.current_transaction.is_some()
    }

    /// The most entries the undo stack keeps, if limited.
    pub fn capacity(&self) -> (c: Option<usize>)
        ensures
            c == self@.capacity,
    {
        self.capacity
    }
}

impl Default for EditHistory {
    fn default() -> (h: Self)
        ensures
            h@ == (HistoryView { undo: Seq::empty(), redo: Seq::empty(), current: None, capacity: None }),
    {
        EditHistory::new(None)
    }
}

// ---------------------------------------------------------------------------
// Laws.
// ---------------------------------------------------------------------------

/// Undoing a change of the name, mute state or lock state of a track right after
/// applying it gives back the timeline, when the action recorded the value the
/// track had.
pub proof fn lemma_track_change_round_trip(a: EditAction, v: TimelineView)
    requires
        match a {
            EditAction::SetTrackName { track_id, original_name, .. } => track_index(v.tracks, track_id) >= 0
                && track_of(v, track_id).name == original_name@,
            EditAction::SetTrackMuted { track_id, original_muted, .. } => track_index(v.tracks, track_id) >= 0
                && track_of(v, track_id).muted == original_muted,
            EditAction::SetTrackLocked { track_id, original_locked, .. } => track_index(v.tracks, track_id) >= 0
                && track_of(v, track_id).locked == original_locked,
            _ => false,
        },
    ensures
        apply_succeeds(a, v),
        undo_succeeds(a, applied(a, v)),
        undone(a, applied(a, v)) == v,
{
    match a {
        EditAction::SetTrackName { track_id, original_name, new_name } => {
            let k = track_index(v.tracks, track_id);
            lemma_track_index(v.tracks, track_id);
            let t1 = TrackView { name: new_name@, ..v.tracks[k] };
            lemma_track_index_update(v.tracks, k, t1, track_id);
            assert(v.tracks.update(k, t1).update(k, TrackView { name: original_name@, ..t1 }) =~= v.tracks);
        },
        EditAction::SetTrackMuted { track_id, original_muted, new_muted } => {
            let k = track_index(v.tracks, track_id);
            lemma_track_index(v.tracks, track_id);
            let t1 = TrackView { muted: new_muted, ..v.tracks[k] };
            lemma_track_index_update(v.tracks, k, t1, track_id);
            assert(v.tracks.update(k, t1).update(k, TrackView { muted: original_muted, ..t1 }) =~= v.tracks);
        },
        EditAction::SetTrackLocked { track_id, original_locked, new_locked } => {
            let k = track_index(v.tracks, track_id);
            lemma_track_index(v.tracks, track_id);
            let t1 = TrackView { locked: new_locked, ..v.tracks[k] };
            lemma_track_index_update(v.tracks, k, t1, track_id);
            assert(v.tracks.update(k, t1).update(k, TrackView { locked: original_locked, ..t1 }) =~= v.tracks);
        },
        _ => {},
    }
}

/// Undoing the addition of a clip right after applying it gives back the timeline,
/// when the clips of the track were ordered by position, none had the identifier
/// of the clip and none overlapped it.
pub proof fn lemma_add_clip_round_trip(track_id: TrackId, clip: Clip, v: TimelineView)
    requires
        track_index(v.tracks, track_id) >= 0,
        sorted_by_position(track_of(v, track_id).clips),
        clip_index(track_of(v, track_id).clips, clip.cid()) < 0,
        !overlaps_any(track_of(v, track_id).clips, clip),
    ensures
        apply_succeeds(EditAction::AddClip { track_id, clip }, v),
        undo_succeeds(EditAction::AddClip { track_id, clip }, applied(EditAction::AddClip { track_id, clip }, v)),
        undone(EditAction::AddClip { track_id, clip }, applied(EditAction::AddClip { track_id, clip }, v)) == v,
{
    let k = track_index(v.tracks, track_id);
    lemma_track_index(v.tracks, track_id);
    let clips = v.tracks[k].clips;
    lemma_remove_added_clip(clips, clip);
    let t1 = TrackView { clips: sort_by_position(clips.push(clip)), ..v.tracks[k] };
    lemma_track_index_update(v.tracks, k, t1, track_id);
    assert(v.tracks.update(k, t1).update(k, TrackView { clips: without_clip(t1.clips, clip.cid()), ..t1 })
        =~= v.tracks);
}

/// Undoing the removal of a clip right after applying it gives back the timeline,
/// when the action recorded the clip and the index it had, and no other clip of the
/// track has its identifier.
pub proof fn lemma_remove_clip_round_trip(track_id: TrackId, clip: Clip, original_index: usize, v: TimelineView)
    requires
        track_index(v.tracks, track_id) >= 0,
        original_index < track_of(v, track_id).clips.len(),
        track_of(v, track_id).clips[original_index as int] == clip,
        forall|i: int|
            0 <= i < track_of(v, track_id).clips.len() && i != original_index ==> (#[trigger] track_of(
                v,
                track_id,
            ).clips[i]).cid() != clip.cid(),
    ensures
        apply_succeeds(EditAction::RemoveClip { track_id, clip, original_index }, v),
        undo_succeeds(
            EditAction::RemoveClip { track_id, clip, original_index },
            applied(EditAction::RemoveClip { track_id, clip, original_index }, v),
        ),
        undone(
            EditAction::RemoveClip { track_id, clip, original_index },
            applied(EditAction::RemoveClip { track_id, clip, original_index }, v),
        ) == v,
{
    let k = track_index(v.tracks, track_id);
    lemma_track_index(v.tracks, track_id);
    let clips = v.tracks[k].clips;
    let j = original_index as int;
    lemma_clip_index(clips, clip.cid());
    assert(clip_index(clips, clip.cid()) == j) by {
        let ci = clip_index(clips, clip.cid());
        if ci >= 0 && ci != j {
            assert(clips[ci].cid() == clip.cid());
        }
        if ci < 0 {
            assert(clips[j].cid() == clip.cid());
        }
    }
    lemma_without_unique(clips, j, clip.cid());
    let t1 = TrackView { clips: clips.remove(j), ..v.tracks[k] };
    lemma_track_index_update(v.tracks, k, t1, track_id);
    assert(clips.remove(j).insert(j, clip) =~= clips);
    assert(v.tracks.update(k, t1).update(k, TrackView { clips, ..t1 }) =~= v.tracks);
}

/// Undoing a move of a clip to another track right after applying it gives back the
/// timeline, when the action recorded the clip's track and position, the clip's
/// identifier occurs once on the timeline, both tracks are ordered by position, the
/// clips after it on its track lie strictly later, and the clip overlaps nothing on
/// either track at its old or new place.
pub proof fn lemma_move_clip_round_trip(a: EditAction, v: TimelineView)
    requires
        a matches EditAction::MoveClip { clip_id, original_track_id, original_position, new_track_id, new_position, .. }
            && ({
            let ts = v.tracks;
            let ks = track_with_clip(ts, clip_id);
            let kt = track_index(ts, new_track_id);
            let s = ts[ks].clips;
            let j = clip_index(s, clip_id);
            let t = ts[kt].clips;
            &&& ks >= 0 && ts[ks].id == original_track_id && track_index(ts, original_track_id) == ks
            &&& kt >= 0 && kt != ks && ts[ks].kind == ts[kt].kind
            &&& s[j].pos() == original_position@
            &&& sorted_by_position(s)
            &&& forall|i: int| j < i < s.len() ==> #[trigger] s[i].pos() > s[j].pos()
            &&& forall|i: int| 0 <= i < s.len() && i != j ==> (#[trigger] s[i]).cid() != clip_id
            &&& !overlaps_other(s.remove(j), s[j])
            &&& sorted_by_position(t)
            &&& clip_index(t, clip_id) < 0
            &&& !overlaps_other(t, placed_at(s[j], Some(new_position)))
        }),
    ensures
        apply_succeeds(a, v),
        undo_succeeds(a, applied(a, v)),
        undone(a, applied(a, v)) == v,
{
    match a {
        EditAction::MoveClip { clip_id, original_track_id, original_position, new_track_id, new_position, .. } => {
            let ts = v.tracks;
            lemma_track_with_clip(ts, clip_id);
            let ks = track_with_clip(ts, clip_id);
            let kt = track_index(ts, new_track_id);
            lemma_track_index(ts, new_track_id);
            let s = ts[ks].clips;
            let t = ts[kt].clips;
            lemma_clip_index(s, clip_id);
            let j = clip_index(s, clip_id);
            let c = s[j];
            let c1 = placed_at(c, Some(new_position));
            Clip::lemma_bounds(c);
            lemma_view_bounds(duration_ms(0), new_position);
            lemma_view_bounds(duration_ms(0), original_position);
            Clip::lemma_make(c.cid(), c.asset(), new_position@, c.dur(), c.src_start(), c.src_end());
            // Applying: the clip leaves its track and is sorted into the other.
            let v1 = with_clips(v, ks, s.remove(j));
            let ta = TrackView { clips: s.remove(j), ..ts[ks] };
            assert(v1.tracks[kt] == ts[kt]);
            assert(move_ok(v, original_track_id, new_track_id, clip_id, Some(new_position)));
            let u = sort_by_position(t.push(c1));
            lemma_insert_fresh_clip(t, c1);
            let tb = TrackView { clips: u, ..ts[kt] };
            let v2 = with_clips(v1, kt, u);
            assert(applied(a, v) == v2);
            lemma_track_index_update(ts, ks, ta, new_track_id);
            lemma_track_index_update(ts, ks, ta, original_track_id);
            lemma_track_index_update(ts.update(ks, ta), kt, tb, new_track_id);
            lemma_track_index_update(ts.update(ks, ta), kt, tb, original_track_id);
            assert(track_index(v2.tracks, new_track_id) == kt);
            assert(track_index(v2.tracks, original_track_id) == ks);
            // Undoing: the clip leaves the other track and is sorted back in.
            let q = clip_index(u, clip_id);
            assert(u.remove(q) == t);
            Clip::lemma_make(c1.cid(), c1.asset(), original_position@, c1.dur(), c1.src_start(), c1.src_end());
            Clip::lemma_ext_equal(placed_at(c1, Some(original_position)), c);
            assert(placed_at(u[q], Some(original_position)) == c);
            let v3 = with_clips(v2, kt, u.remove(q));
            assert(v3.tracks[ks].clips == s.remove(j));
            assert(!overlaps_other(v3.tracks[ks].clips, c));
            assert(undo_succeeds(a, v2));
            lemma_reinsert_clip(s, j);
            assert(v3.tracks.update(ks, TrackView { clips: s, ..v3.tracks[ks] }) =~= ts);
            assert(undone(a, v2) == v);
        },
        _ => {},
    }
}

/// Undoing a change of the duration of a clip right after applying it gives back
/// the timeline, when the action recorded the duration and source end the clip had.
pub proof fn lemma_clip_duration_round_trip(a: EditAction, v: TimelineView)
    requires
        a matches EditAction::SetClipDuration { clip_id, track_id, original_duration, original_source_end, .. } && ({
            let c = track_of(v, track_id).clips[clip_index(track_of(v, track_id).clips, clip_id)];
            clip_found(v, track_id, clip_id) && c.dur() == original_duration@ && c.src_end() == original_source_end@
        }),
    ensures
        apply_succeeds(a, v),
        undo_succeeds(a, applied(a, v)),
        undone(a, applied(a, v)) == v,
{
    match a {
        EditAction::SetClipDuration { clip_id, track_id, original_duration, new_duration, original_source_end, new_source_end } => {
            let k = track_index(v.tracks, track_id);
            lemma_track_index(v.tracks, track_id);
            let clips = v.tracks[k].clips;
            let j = clip_index(clips, clip_id);
            lemma_clip_index(clips, clip_id);
            let c = clips[j];
            Clip::lemma_bounds(c);
            lemma_view_bounds(new_duration, new_source_end);
            let c1 = Clip::make(c.cid(), c.asset(), c.pos(), new_duration@, c.src_start(), new_source_end@);
            Clip::lemma_make(c.cid(), c.asset(), c.pos(), new_duration@, c.src_start(), new_source_end@);
            lemma_clip_index_update(clips, j, c1, clip_id);
            let t1 = TrackView { clips: clips.update(j, c1), ..v.tracks[k] };
            lemma_track_index_update(v.tracks, k, t1, track_id);
            Clip::lemma_make(c.cid(), c.asset(), c.pos(), c.dur(), c.src_start(), c.src_end());
            Clip::lemma_make_parts(c);
            assert(clips.update(j, c1).update(j, c) =~= clips);
            assert(v.tracks.update(k, t1).update(k, TrackView { clips: clips.update(j, c1).update(j, c), ..t1 })
                =~= v.tracks);
        },
        _ => {},
    }
}

/// Undoing the addition of a track right after applying it gives back the
/// timeline, when no track had its identifier and no relationship named it.
pub proof fn lemma_add_track_round_trip(track_id: TrackId, track_kind: TrackKind, track_name: String, v: TimelineView)
    requires
        track_index(v.tracks, track_id) < 0,
        forall|i: int| 0 <= i < v.edges.len() ==> (#[trigger] v.edges[i]).0 != track_id && v.edges[i].1 != track_id,
    ensures
        apply_succeeds(EditAction::AddTrack { track_id, track_kind, track_name }, v),
        undo_succeeds(
            EditAction::AddTrack { track_id, track_kind, track_name },
            applied(EditAction::AddTrack { track_id, track_kind, track_name }, v),
        ),
        undone(
            EditAction::AddTrack { track_id, track_kind, track_name },
            applied(EditAction::AddTrack { track_id, track_kind, track_name }, v),
        ) == v,
{
    let t = TrackView {
        id: track_id,
        kind: track_kind,
        name: track_name@,
        clips: Seq::empty(),
        muted: false,
        locked: false,
    };
    let ts = v.tracks.push(t);
    assert(ts.drop_last() == v.tracks);
    lemma_without_track_id_absent(v.tracks, track_id);
    lemma_without_track_absent(v.edges, track_id);
}

/// Undoing the addition of a relationship right after applying it gives back the
/// timeline, when the two tracks had no relationship and the new one closed no cycle.
pub proof fn lemma_add_relationship_round_trip(
    source_id: TrackId,
    target_id: TrackId,
    relationship_kind: TrackRelationship,
    v: TimelineView,
)
    requires
        edge_index(v.edges, source_id, target_id) < 0,
        !reaches(v.edges, target_id, source_id),
    ensures
        apply_succeeds(EditAction::AddRelationship { source_id, target_id, relationship_kind }, v),
        undo_succeeds(
            EditAction::AddRelationship { source_id, target_id, relationship_kind },
            applied(EditAction::AddRelationship { source_id, target_id, relationship_kind }, v),
        ),
        undone(
            EditAction::AddRelationship { source_id, target_id, relationship_kind },
            applied(EditAction::AddRelationship { source_id, target_id, relationship_kind }, v),
        ) == v,
{
    let es = v.edges.push((source_id, target_id, relationship_kind));
    assert(es.drop_last() == v.edges);
    lemma_without_edge_absent(v.edges, source_id, target_id);
}

/// The history after its last undo entry moved to the redo stack.
pub open spec fn undo_moved(h: HistoryView) -> HistoryView {
    HistoryView { undo: h.undo.drop_last(), redo: h.redo.push(h.undo.last()), ..h }
}

/// The history after its last redo entry moved back to the undo stack, within its
/// capacity.
pub open spec fn redo_moved(h: HistoryView) -> HistoryView {
    HistoryView { undo: pushed_within(h.undo, h.redo.last(), h.capacity), redo: h.redo.drop_last(), ..h }
}

/// A successful redo right after a successful undo gives back the stacks.
pub proof fn lemma_redo_after_undo(h: HistoryView)
    requires
        h.undo.len() > 0,
        within_capacity(h),
    ensures
        redo_moved(undo_moved(h)) == h,
{
    assert(redo_moved(undo_moved(h)).undo =~= h.undo);
    assert(redo_moved(undo_moved(h)).redo =~= h.redo);
}

/// A successful undo right after a successful redo gives back the stacks, when the
/// redone entry found room on the undo stack.
pub proof fn lemma_undo_after_redo(h: HistoryView)
    requires
        h.redo.len() > 0,
        h.capacity matches Some(c) ==> h.undo.len() < c,
    ensures
        undo_moved(redo_moved(h)) == h,
{
    assert(undo_moved(redo_moved(h)).undo =~= h.undo);
    assert(undo_moved(redo_moved(h)).redo =~= h.redo);
}

/// Recording onto an undo stack within its capacity keeps it within the capacity,
/// with the new entry last and the oldest entries dropped first.
pub proof fn lemma_push_within_capacity(s: Seq<HistoryEntry>, e: HistoryEntry, capacity: Option<usize>)
    requires
        capacity matches Some(c) ==> s.len() <= c,
    ensures
        capacity matches Some(c) ==> pushed_within(s, e, capacity).len() <= c,
        pushed_within(s, e, capacity).len() > 0 ==> pushed_within(s, e, capacity).last() == e,
        pushed_within(s, e, capacity) == s.push(e).skip(s.len() + 1 - pushed_within(s, e, capacity).len()),
{
    let t = pushed_within(s, e, capacity);
    if capacity matches Some(c) && s.len() + 1 > c {
        assert(t =~= s.push(e).skip(1));
    } else {
        assert(t =~= s.push(e).skip(0));
    }
}

/// Whether `a` was recorded from the timeline `v` in a way that undoing it right
/// after applying it gives `v` back: the recorded original values are those of `v`,
/// and the timeline keeps its usual order (clips by position, identifiers once).
/// Changes of a clip's position and the removal of tracks and relationships are left
/// out: undoing them may put things back in another order (and the removal of a
/// track does not bring back its relationships).
pub open spec fn undo_restores(a: EditAction, v: TimelineView) -> bool {
    match a {
        EditAction::AddClip { track_id, clip } => {
            &&& track_index(v.tracks, track_id) >= 0
            &&& sorted_by_position(track_of(v, track_id).clips)
            &&& clip_index(track_of(v, track_id).clips, clip.cid()) < 0
            &&& !overlaps_any(track_of(v, track_id).clips, clip)
        },
        EditAction::RemoveClip { track_id, clip, original_index } => {
            &&& track_index(v.tracks, track_id) >= 0
            &&& original_index < track_of(v, track_id).clips.len()
            &&& track_of(v, track_id).clips[original_index as int] == clip
            &&& forall|i: int|
                0 <= i < track_of(v, track_id).clips.len() && i != original_index ==> (#[trigger] track_of(
                    v,
                    track_id,
                ).clips[i]).cid() != clip.cid()
        },
        EditAction::MoveClip { clip_id, original_track_id, original_position, new_track_id, new_position, .. } => {
            let ts = v.tracks;
            let ks = track_with_clip(ts, clip_id);
            let kt = track_index(ts, new_track_id);
            let s = ts[ks].clips;
            let j = clip_index(s, clip_id);
            let t = ts[kt].clips;
            &&& ks >= 0 && ts[ks].id == original_track_id && track_index(ts, original_track_id) == ks
            &&& kt >= 0 && kt != ks && ts[ks].kind == ts[kt].kind
            &&& s[j].pos() == original_position@
            &&& sorted_by_position(s)
            &&& forall|i: int| j < i < s.len() ==> #[trigger] s[i].pos() > s[j].pos()
            &&& forall|i: int| 0 <= i < s.len() && i != j ==> (#[trigger] s[i]).cid() != clip_id
            &&& !overlaps_other(s.remove(j), s[j])
            &&& sorted_by_position(t)
            &&& clip_index(t, clip_id) < 0
            &&& !overlaps_other(t, placed_at(s[j], Some(new_position)))
        },
        EditAction::SetClipDuration { clip_id, track_id, original_duration, original_source_end, .. } => {
            let c = track_of(v, track_id).clips[clip_index(track_of(v, track_id).clips, clip_id)];
            clip_found(v, track_id, clip_id) && c.dur() == original_duration@ && c.src_end() == original_source_end@
        },
        EditAction::AddTrack { track_id, .. } => {
            &&& track_index(v.tracks, track_id) < 0
            &&& forall|i: int| 0 <= i < v.edges.len() ==> (#[trigger] v.edges[i]).0 != track_id && v.edges[i].1 != track_id
        },
        EditAction::SetTrackName { track_id, original_name, .. } => track_index(v.tracks, track_id) >= 0
            && track_of(v, track_id).name == original_name@,
        EditAction::SetTrackMuted { track_id, original_muted, .. } => track_index(v.tracks, track_id) >= 0
            && track_of(v, track_id).muted == original_muted,
        EditAction::SetTrackLocked { track_id, original_locked, .. } => track_index(v.tracks, track_id) >= 0
            && track_of(v, track_id).locked == original_locked,
        EditAction::AddRelationship { source_id, target_id, .. } => edge_index(v.edges, source_id, target_id) < 0
            && !reaches(v.edges, target_id, source_id),
        _ => false,
    }
}

/// Applying an action recorded from a timeline (see `undo_restores`) succeeds, and
/// undoing it right after succeeds and gives the timeline back: the same tracks in
/// the same order, with the same clips and relationships.
pub proof fn lemma_apply_undo_round_trip(a: EditAction, v: TimelineView)
    requires
        undo_restores(a, v),
    ensures
        apply_succeeds(a, v),
        undo_succeeds(a, applied(a, v)),
        undone(a, applied(a, v)) == v,
{
    match a {
        EditAction::AddClip { track_id, clip } => lemma_add_clip_round_trip(track_id, clip, v),
        EditAction::RemoveClip { track_id, clip, original_index } => lemma_remove_clip_round_trip(
            track_id,
            clip,
            original_index,
            v,
        ),
        EditAction::MoveClip { .. } => lemma_move_clip_round_trip(a, v),
        EditAction::SetClipDuration { .. } => lemma_clip_duration_round_trip(a, v),
        EditAction::AddTrack { track_id, track_kind, track_name } => lemma_add_track_round_trip(
            track_id,
            track_kind,
            track_name,
            v,
        ),
        EditAction::SetTrackName { .. } => lemma_track_change_round_trip(a, v),
        EditAction::SetTrackMuted { .. } => lemma_track_change_round_trip(a, v),
        EditAction::SetTrackLocked { .. } => lemma_track_change_round_trip(a, v),
        EditAction::AddRelationship { source_id, target_id, relationship_kind } => lemma_add_relationship_round_trip(
            source_id,
            target_id,
            relationship_kind,
            v,
        ),
        _ => {},
    }
}

} // verus!
