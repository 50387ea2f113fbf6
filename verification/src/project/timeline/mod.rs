//! Timelines made of tracks that hold clips.
//!
//! A track keeps its clips ordered by position; a clip is only added to a
//! track when it does not overlap a clip already there.

pub mod history;
pub mod keyframes;
pub mod multi_track;

use vstd::prelude::*;
use crate::project::ids::{uuid_text, AssetId, ClipId, TrackId};
use crate::utility::text::{push_str, string_from_chars};
use crate::utility::time::{
    duration_ms, lemma_ms_values, lemma_view_bounds, position_ms, saturating_diff, saturating_sum, seconds_text,
    Duration, TimePosition,
};
use multi_track::{
    find_timing_match, multi_track_error_text, timing_adjusted, timing_adjusted_all, Edge, MultiTrackError, MultiTrackManager,
};

verus! {

/// The kind of a track.
#[derive(Debug, Clone, Copy, PartialEq, Eq, Structural, Hash)]
pub enum TrackKind {
    /// Video track.
    Video,
    /// Audio track.
    Audio,
    /// Subtitle track.
    Subtitle,
}

/// The name of a track kind.
pub open spec fn kind_name(k: TrackKind) -> Seq<char> {
    match k {
        TrackKind::Video => "Video"@,
        TrackKind::Audio => "Audio"@,
        TrackKind::Subtitle => "Subtitle"@,
    }
}

impl TrackKind {
    /// The name of the track kind.
    pub fn as_str(&self) -> (s: &'static str)
        ensures
            s@ == kind_name(*self),
    {
        match self {
            TrackKind::Video => "Video",
            TrackKind::Audio => "Audio",
            TrackKind::Subtitle => "Subtitle",
        }
    }
}

/// A clip: a span of an asset placed on a track.
#[derive(Debug, Clone, Copy, PartialEq, Eq, Structural)]
pub struct Clip {
    id: ClipId,
    asset_id: AssetId,
    position: TimePosition,
    duration: Duration,
    source_start: TimePosition,
    source_end: TimePosition,
}

/// Where a clip ends on the timeline, in milliseconds.
pub open spec fn clip_end(c: Clip) -> nat {
    saturating_sum(c.pos(), c.dur())
}

/// Whether two clips share some time on the timeline.
pub open spec fn clips_overlap(a: Clip, b: Clip) -> bool {
    a.pos() < clip_end(b) && b.pos() < clip_end(a)
}

impl Clip {
    /// The identifier of the clip.
    pub closed spec fn cid(&self) -> ClipId {
        self.id
    }

    /// The asset the clip shows.
    pub closed spec fn asset(&self) -> AssetId {
        self.asset_id
    }

    /// The position of the clip on the timeline, in milliseconds.
    pub closed spec fn pos(&self) -> nat {
        self.position@
    }

    /// The duration of the clip, in milliseconds.
    pub closed spec fn dur(&self) -> nat {
        self.duration@
    }

    /// Where the clip starts in its asset, in milliseconds.
    pub closed spec fn src_start(&self) -> nat {
        self.source_start@
    }

    /// Where the clip ends in its asset, in milliseconds.
    pub closed spec fn src_end(&self) -> nat {
        self.source_end@
    }

    /// Two clips with the same identifier, asset, times and source range are equal.
    pub proof fn lemma_ext_equal(a: Clip, b: Clip)
        requires
            a.cid() == b.cid(),
            a.asset() == b.asset(),
            a.pos() == b.pos(),
            a.dur() == b.dur(),
            a.src_start() == b.src_start(),
            a.src_end() == b.src_end(),
        ensures
            a == b,
    {
        TimePosition::lemma_view_eq(a.position, b.position);
        Duration::lemma_view_eq(a.duration, b.duration);
        TimePosition::lemma_view_eq(a.source_start, b.source_start);
        TimePosition::lemma_view_eq(a.source_end, b.source_end);
    }

    /// The clip with identifier `id`, asset `asset` and the given times in milliseconds.
    pub closed spec fn make(id: ClipId, asset: AssetId, pos: nat, dur: nat, src_start: nat, src_end: nat) -> Clip {
        Clip {
            id,
            asset_id: asset,
            position: position_ms(pos),
            duration: duration_ms(dur),
            source_start: position_ms(src_start),
            source_end: position_ms(src_end),
        }
    }

    /// A clip made by `make` from values that fit has the parts it was made of.
    pub proof fn lemma_make(id: ClipId, asset: AssetId, pos: nat, dur: nat, src_start: nat, src_end: nat)
        requires
            pos <= u64::MAX,
            dur <= u64::MAX,
            src_start <= u64::MAX,
            src_end <= u64::MAX,
        ensures
            Clip::make(id, asset, pos, dur, src_start, src_end).cid() == id,
            Clip::make(id, asset, pos, dur, src_start, src_end).asset() == asset,
            Clip::make(id, asset, pos, dur, src_start, src_end).pos() == pos,
            Clip::make(id, asset, pos, dur, src_start, src_end).dur() == dur,
            Clip::make(id, asset, pos, dur, src_start, src_end).src_start() == src_start,
            Clip::make(id, asset, pos, dur, src_start, src_end).src_end() == src_end,
    {
        lemma_ms_values(pos);
        lemma_ms_values(dur);
        lemma_ms_values(src_start);
        lemma_ms_values(src_end);
    }

    /// The times of a clip fit in a `u64`.
    pub proof fn lemma_bounds(c: Clip)
        ensures
            c.pos() <= u64::MAX,
            c.dur() <= u64::MAX,
            c.src_start() <= u64::MAX,
            c.src_end() <= u64::MAX,
    {
        lemma_view_bounds(c.duration, c.position);
        lemma_view_bounds(c.duration, c.source_start);
        lemma_view_bounds(c.duration, c.source_end);
    }

    /// Every clip is the one `make` builds from its parts.
    pub proof fn lemma_make_parts(c: Clip)
        ensures
            c == Clip::make(c.cid(), c.asset(), c.pos(), c.dur(), c.src_start(), c.src_end()),
    {
        lemma_ms_values(0);
    }

    /// Creates a clip.
    pub fn new(
        id: ClipId,
        asset_id: AssetId,
        position: TimePosition,
        duration: Duration,
        source_start: TimePosition,
        source_end: TimePosition,
    ) -> (c: Self)
        ensures
            c.cid() == id,
            c.asset() == asset_id,
            c.pos() == position@,
            c.dur() == duration@,
            c.src_start() == source_start@,
            c.src_end() == source_end@,
    {
        Clip { id, asset_id, position, duration, source_start, source_end }
    }

    /// The identifier of the clip.
    pub fn id(&self) -> (id: ClipId)
        ensures
            id == self.cid(),
    {
        self.id
    }

    /// The asset the clip shows.
    pub fn asset_id(&self) -> (id: AssetId)
        ensures
            id == self.asset(),
    {
        self.asset_id
    }

    /// The position of the clip on the timeline.
    pub fn position(&self) -> (t: TimePosition)
        ensures
            t@ == self.pos(),
    {
        self.position
    }

    /// Where the clip ends on the timeline (saturating).
    pub fn end_position(&self) -> (t: TimePosition)
        ensures
            t@ == clip_end(*self),
    {
        self.position.plus(self.duration)
    }

    /// The duration of the clip.
    pub fn duration(&self) -> (d: Duration)
        ensures
            d@ == self.dur(),
    {
        self.duration
    }

    /// Where the clip starts in its asset.
    pub fn source_start(&self) -> (t: TimePosition)
        ensures
            t@ == self.src_start(),
    {
        self.source_start
    }

    /// Where the clip ends in its asset.
    pub fn source_end(&self) -> (t: TimePosition)
        ensures
            t@ == self.src_end(),
    {
        self.source_end
    }

    /// Moves the clip on the timeline.
    pub fn set_position(&mut self, position: TimePosition)
        ensures
            final(self).pos() == position@,
            final(self).cid() == old(self).cid(),
            final(self).asset() == old(self).asset(),
            final(self).dur() == old(self).dur(),
            final(self).src_start() == old(self).src_start(),
            final(self).src_end() == old(self).src_end(),
    {
        self.position = position;
    }

    /// Changes the duration of the clip.
    pub fn set_duration(&mut self, duration: Duration)
        ensures
            final(self).dur() == duration@,
            final(self).cid() == old(self).cid(),
            final(self).asset() == old(self).asset(),
            final(self).pos() == old(self).pos(),
            final(self).src_start() == old(self).src_start(),
            final(self).src_end() == old(self).src_end(),
    {
        self.duration = duration;
    }

    /// Changes where the clip starts in its asset.
    pub fn set_source_start(&mut self, start: TimePosition)
        ensures
            final(self).src_start() == start@,
            final(self).cid() == old(self).cid(),
            final(self).asset() == old(self).asset(),
            final(self).pos() == old(self).pos(),
            final(self).dur() == old(self).dur(),
            final(self).src_end() == old(self).src_end(),
    {
        self.source_start = start;
    }

    /// Changes where the clip ends in its asset.
    pub fn set_source_end(&mut self, end: TimePosition)
        ensures
            final(self).src_end() == end@,
            final(self).cid() == old(self).cid(),
            final(self).asset() == old(self).asset(),
            final(self).pos() == old(self).pos(),
            final(self).dur() == old(self).dur(),
            final(self).src_start() == old(self).src_start(),
    {
        self.source_end = end;
    }

    /// Whether this clip shares some time on the timeline with `other`.
    pub fn overlaps_with(&self, other: &Self) -> (b: bool)
        ensures
            b == clips_overlap(*self, *other),
    {
        let other_end = other.end_position();
        let self_end = self.end_position();
        self.position.is_before(&other_end) && other.position.is_before(&self_end)
    }
}

/// Inserts `c` into `s` after the last clip (scanning from the end) whose
/// position is not later than that of `c`: one step of a stable insertion sort.
pub open spec fn insert_by_position(s: Seq<Clip>, c: Clip) -> Seq<Clip>
    decreases s.len(),
{
    if s.len() == 0 || s.last().pos() <= c.pos() {
        s.push(c)
    } else {
        insert_by_position(s.drop_last(), c).push(s.last())
    }
}

/// The clips of `s` ordered by position; clips at the same position keep their
/// order (the result of a stable sort by position).
pub open spec fn sort_by_position(s: Seq<Clip>) -> Seq<Clip>
    decreases s.len(),
{
    if s.len() == 0 {
        s
    } else {
        insert_by_position(sort_by_position(s.drop_last()), s.last())
    }
}

/// Whether the clips of `s` are ordered by position.
pub open spec fn sorted_by_position(s: Seq<Clip>) -> bool {
    forall|i: int, j: int| 0 <= i <= j < s.len() ==> s[i].pos() <= s[j].pos()
}

/// Whether no two clips of `s` overlap.
pub open spec fn no_overlaps(s: Seq<Clip>) -> bool {
    forall|i: int, j: int| 0 <= i < j < s.len() ==> !clips_overlap(s[i], s[j])
}

/// Whether some clip of `s` overlaps `c`.
pub open spec fn overlaps_any(s: Seq<Clip>, c: Clip) -> bool {
    exists|i: int| 0 <= i < s.len() && clips_overlap(#[trigger] s[i], c)
}

/// The index at which `insert_by_position` places `c`.
pub open spec fn insertion_index(s: Seq<Clip>, c: Clip) -> int
    decreases s.len(),
{
    if s.len() == 0 || s.last().pos() <= c.pos() {
        s.len() as int
    } else {
        insertion_index(s.drop_last(), c)
    }
}

proof fn lemma_insert_by_position(s: Seq<Clip>, c: Clip)
    ensures
        0 <= insertion_index(s, c) <= s.len(),
        insert_by_position(s, c) == s.take(insertion_index(s, c)).push(c) + s.skip(
            insertion_index(s, c),
        ),
        forall|j: int| insertion_index(s, c) <= j < s.len() ==> s[j].pos() > c.pos(),
        insertion_index(s, c) > 0 ==> s[insertion_index(s, c) - 1].pos() <= c.pos(),
    decreases s.len(),
{
    if s.len() == 0 || s.last().pos() <= c.pos() {
        assert(s.take(s.len() as int) == s);
        assert(s.skip(s.len() as int) =~= Seq::<Clip>::empty());
    } else {
        let t = s.drop_last();
        lemma_insert_by_position(t, c);
        let k = insertion_index(t, c);
        assert(t.take(k) == s.take(k));
        assert(t.skip(k).push(s.last()) =~= s.skip(k));
        assert((t.take(k).push(c) + t.skip(k)).push(s.last()) =~= t.take(k).push(c) + t.skip(
            k,
        ).push(s.last()));
        assert forall|j: int| k <= j < s.len() implies s[j].pos() > c.pos() by {
            if j < s.len() - 1 {
                assert(s[j] == t[j]);
            }
        }
        if k > 0 {
            assert(s[k - 1] == t[k - 1]);
        }
    }
}

/// The stable insertion of `c` into `s` keeps `s` sorted.
proof fn lemma_insert_sorted(s: Seq<Clip>, c: Clip)
    requires
        sorted_by_position(s),
    ensures
        sorted_by_position(insert_by_position(s, c)),
{
    lemma_insert_by_position(s, c);
    let k = insertion_index(s, c);
    let r = insert_by_position(s, c);
    assert forall|i: int, j: int| 0 <= i <= j < r.len() implies r[i].pos() <= r[j].pos() by {
        if j < k {
            assert(r[i] == s[i] && r[j] == s[j]);
        } else if j == k {
            if i < k {
                assert(r[i] == s[i]);
                assert(s[i].pos() <= s[k - 1].pos());
            }
        } else {
            assert(r[j] == s[j - 1]);
            if i < k {
                assert(r[i] == s[i]);
            } else if i > k {
                assert(r[i] == s[i - 1]);
            }
        }
    }
}

proof fn lemma_sort_sorted(s: Seq<Clip>)
    ensures
        sorted_by_position(sort_by_position(s)),
        sort_by_position(s).len() == s.len(),
    decreases s.len(),
{
    if s.len() > 0 {
        lemma_sort_sorted(s.drop_last());
        lemma_insert_sorted(sort_by_position(s.drop_last()), s.last());
        lemma_insert_by_position(sort_by_position(s.drop_last()), s.last());
    }
}

/// Sorting an already sorted sequence with one clip appended is the stable
/// insertion of that clip.
proof fn lemma_sort_sorted_push(s: Seq<Clip>, c: Clip)
    requires
        sorted_by_position(s),
    ensures
        sort_by_position(s.push(c)) == insert_by_position(s, c),
{
    lemma_sort_of_sorted(s);
    assert(s.push(c).drop_last() == s);
}

pub proof fn lemma_sort_of_sorted(s: Seq<Clip>)
    requires
        sorted_by_position(s),
    ensures
        sort_by_position(s) == s,
    decreases s.len(),
{
    if s.len() > 0 {
        let t = s.drop_last();
        assert(sorted_by_position(t));
        lemma_sort_of_sorted(t);
        assert(t.push(s.last()) == s);
    }
}

/// Adding a clip that overlaps none of the clips of a track keeps the track tidy:
/// when its clips were ordered by position and pairwise free of overlaps, they
/// still are after the clip is added and the clips are sorted again.
pub proof fn lemma_add_clip_keeps_track_tidy(s: Seq<Clip>, c: Clip)
    requires
        sorted_by_position(s),
        no_overlaps(s),
        !overlaps_any(s, c),
    ensures
        sorted_by_position(sort_by_position(s.push(c))),
        no_overlaps(sort_by_position(s.push(c))),
        sort_by_position(s.push(c)).len() == s.len() + 1,
{
    lemma_sort_sorted_push(s, c);
    lemma_insert_sorted(s, c);
    lemma_insert_by_position(s, c);
    let k = insertion_index(s, c);
    let r = insert_by_position(s, c);
    assert forall|i: int, j: int| 0 <= i < j < r.len() implies !clips_overlap(r[i], r[j]) by {
        if j < k {
            assert(r[i] == s[i] && r[j] == s[j]);
        } else if j == k {
            assert(r[i] == s[i]);
            assert(!clips_overlap(s[i], c));
        } else {
            assert(r[j] == s[j - 1]);
            if i < k {
                assert(r[i] == s[i]);
            } else if i == k {
                assert(!clips_overlap(s[j - 1], c));
            } else {
                assert(r[i] == s[i - 1]);
            }
        }
    }
}

/// Inserts `c` into `v` as `insert_by_position` does.
fn insert_clip_sorted(v: &mut Vec<Clip>, c: Clip)
    ensures
        final(v)@ == insert_by_position(old(v)@, c),
{
    proof {
        lemma_insert_by_position(v@, c);
    }
    let mut j = v.len();
    while j > 0 && v[j - 1].position.as_millis() > c.position.as_millis()
        invariant
            0 <= j <= v.len(),
            v@ == old(v)@,
            forall|k: int| j <= k < v.len() ==> v@[k].pos() > c.pos(),
        decreases j,
    {
        j = j - 1;
    }
    proof {
        let s = v@;
        let k = insertion_index(s, c);
        // the insertion index is the unique cut point
        if j < k {
            assert(s[k - 1].pos() <= c.pos());
            assert(s[k - 1].pos() > c.pos());
        }
        if j > k {
            assert(s[j - 1].pos() > c.pos());
            assert(s[j - 1].pos() <= c.pos());
        }
    }
    v.insert(j, c);
    assert(v@ =~= old(v)@.take(j as int).push(c) + old(v)@.skip(j as int));
}

/// The clips of `s` sorted stably by position.
fn sort_clips(s: &Vec<Clip>) -> (r: Vec<Clip>)
    ensures
        r@ == sort_by_position(s@),
{
    let mut r: Vec<Clip> = Vec::new();
    let mut i: usize = 0;
    assert(s@.take(0) =~= Seq::<Clip>::empty());
    while i < s.len()
        invariant
            0 <= i <= s.len(),
            r@ == sort_by_position(s@.take(i as int)),
        decreases s.len() - i,
    {
        assert(s@.take(i + 1).drop_last() == s@.take(i as int));
        insert_clip_sorted(&mut r, s[i]);
        i = i + 1;
    }
    assert(s@.take(s.len() as int) == s@);
    r
}

/// The position at which the last clip of `s` ends (0 when `s` is empty).
pub open spec fn max_clip_end(s: Seq<Clip>) -> nat
    decreases s.len(),
{
    if s.len() == 0 {
        0
    } else {
        let m = max_clip_end(s.drop_last());
        let e = clip_end(s.last());
        if e > m { e } else { m }
    }
}

/// A track as a value: identifier, kind, name, clips and flags.
pub struct TrackView {
    pub id: TrackId,
    pub kind: TrackKind,
    pub name: Seq<char>,
    pub clips: Seq<Clip>,
    pub muted: bool,
    pub locked: bool,
}

/// The default name of a track of kind `k`: `Track <kind>`.
pub open spec fn default_track_name(k: TrackKind) -> Seq<char> {
    "Track "@ + kind_name(k)
}

/// Errors of timeline operations.
#[derive(Debug, Clone, PartialEq, Eq)]
pub enum TimelineError {
    /// No track has the given identifier.
    TrackNotFound(TrackId),
    /// The track does not hold a clip with the given identifier.
    ClipNotFound { track: TrackId, clip: ClipId },
    /// The clip would overlap a clip already on the track.
    ClipOverlap { position: TimePosition },
    /// An operation on track relationships failed.
    MultiTrack(MultiTrackError),
    /// The operation would result in an invalid state.
    InvalidOperation(String),
}

/// The message of a timeline error.
pub open spec fn timeline_error_text(e: TimelineError) -> Seq<char> {
    match e {
        TimelineError::TrackNotFound(id) => "Track not found: "@ + uuid_text(id.value()),
        TimelineError::ClipNotFound { track, clip } => "Clip not found in track "@ + uuid_text(track.value()) + ": "@
            + uuid_text(clip.value()),
        TimelineError::ClipOverlap { position } => "Clip overlap at position "@ + seconds_text(position@),
        TimelineError::MultiTrack(m) => "Multi-track error: "@ + multi_track_error_text(m),
        TimelineError::InvalidOperation(s) => "Invalid operation: "@ + s@,
    }
}

impl TimelineError {
    /// The message of the error.
    pub fn message(&self) -> (s: String)
        ensures
            s@ == timeline_error_text(*self),
    {
        let mut out: Vec<char> = Vec::new();
        match self {
            TimelineError::TrackNotFound(id) => {
                push_str(&mut out, "Track not found: ");
                push_str(&mut out, id.to_string().as_str());
            },
            TimelineError::ClipNotFound { track, clip } => {
                push_str(&mut out, "Clip not found in track ");
                push_str(&mut out, track.to_string().as_str());
                push_str(&mut out, ": ");
                push_str(&mut out, clip.to_string().as_str());
            },
            TimelineError::ClipOverlap { position } => {
                push_str(&mut out, "Clip overlap at position ");
                push_str(&mut out, position.to_string().as_str());
            },
            TimelineError::MultiTrack(m) => {
                push_str(&mut out, "Multi-track error: ");
                push_str(&mut out, m.message().as_str());
            },
            TimelineError::InvalidOperation(s) => {
                push_str(&mut out, "Invalid operation: ");
                push_str(&mut out, s.as_str());
            },
        }
        string_from_chars(&out)
    }
}

/// A track of a timeline.
#[derive(Debug, Clone)]
pub struct Track {
    id: TrackId,
    kind: TrackKind,
    name: String,
    clips: Vec<Clip>,
    muted: bool,
    locked: bool,
}

impl View for Track {
    type V = TrackView;

    closed spec fn view(&self) -> TrackView {
        TrackView {
            id: self.id,
            kind: self.kind,
            name: self.name@,
            clips: self.clips@,
            muted: self.muted,
            locked: self.locked,
        }
    }
}

/// Copies a sequence of clips.
fn copy_clips(v: &Vec<Clip>) -> (r: Vec<Clip>)
    ensures
        r@ == v@,
{
    let mut r: Vec<Clip> = Vec::new();
    let mut i: usize = 0;
    while i < v.len()
        invariant
            0 <= i <= v.len(),
            r@ == v@.take(i as int),
        decreases v.len() - i,
    {
        r.push(v[i]);
        i = i + 1;
        assert(v@.take(i as int) == v@.take(i - 1).push(v@[i - 1]));
    }
    assert(v@.take(v.len() as int) == v@);
    r
}

/// Index of the first clip of `s` with identifier `id`, or -1.
pub open spec fn clip_index(s: Seq<Clip>, id: ClipId) -> int
    decreases s.len(),
{
    if s.len() == 0 {
        -1
    } else {
        let k = clip_index(s.drop_last(), id);
        if k >= 0 {
            k
        } else if s.last().cid() == id {
            s.len() - 1
        } else {
            -1
        }
    }
}

pub proof fn lemma_clip_index(s: Seq<Clip>, id: ClipId)
    ensures
        -1 <= clip_index(s, id) < s.len(),
        clip_index(s, id) >= 0 ==> s[clip_index(s, id)].cid() == id,
        forall|j: int| 0 <= j < s.len() && (clip_index(s, id) < 0 || j < clip_index(s, id))
            ==> #[trigger] s[j].cid() != id,
    decreases s.len(),
{
    if s.len() > 0 {
        lemma_clip_index(s.drop_last(), id);
        assert forall|j: int| 0 <= j < s.len() && (clip_index(s, id) < 0 || j < clip_index(s, id))
            implies #[trigger] s[j].cid() != id by {
            if j < s.len() - 1 {
                assert(s[j] == s.drop_last()[j]);
            }
        }
    }
}

/// Replacing a clip by one with the same identifier leaves the lookup by
/// identifier unchanged.
pub proof fn lemma_clip_index_update(s: Seq<Clip>, k: int, c: Clip, id: ClipId)
    requires
        0 <= k < s.len(),
        c.cid() == s[k].cid(),
    ensures
        clip_index(s.update(k, c), id) == clip_index(s, id),
    decreases s.len(),
{
    let u = s.update(k, c);
    if k == s.len() - 1 {
        assert(u.drop_last() =~= s.drop_last());
    } else {
        assert(u.drop_last() =~= s.drop_last().update(k, c));
        lemma_clip_index_update(s.drop_last(), k, c, id);
    }
}

/// Removing the clips with an identifier none of them has changes nothing.
pub proof fn lemma_without_clip_absent(s: Seq<Clip>, id: ClipId)
    requires
        clip_index(s, id) < 0,
    ensures
        without_clip(s, id) == s,
    decreases s.len(),
{
    lemma_clip_index(s, id);
    if s.len() > 0 {
        let d = s.drop_last();
        lemma_clip_index(d, id);
        if clip_index(d, id) >= 0 {
            assert(s[clip_index(d, id)] == d[clip_index(d, id)]);
        }
        lemma_without_clip_absent(d, id);
        assert(s.last() == s[s.len() - 1]);
        assert(d.push(s.last()) =~= s);
    }
}

/// Taking a clip out again after inserting it by position gives back the clips,
/// when no clip there had its identifier.
proof fn lemma_without_inserted(s: Seq<Clip>, c: Clip)
    requires
        clip_index(s, c.cid()) < 0,
    ensures
        without_clip(insert_by_position(s, c), c.cid()) == s,
    decreases s.len(),
{
    lemma_clip_index(s, c.cid());
    if s.len() == 0 || s.last().pos() <= c.pos() {
        assert(s.push(c).drop_last() == s);
        lemma_without_clip_absent(s, c.cid());
    } else {
        let d = s.drop_last();
        lemma_clip_index(d, c.cid());
        if clip_index(d, c.cid()) >= 0 {
            assert(s[clip_index(d, c.cid())] == d[clip_index(d, c.cid())]);
        }
        lemma_without_inserted(d, c);
        let x = insert_by_position(d, c);
        assert(x.push(s.last()).drop_last() == x);
        assert(s.last() == s[s.len() - 1]);
        assert(d.push(s.last()) =~= s);
    }
}

/// Taking a clip out of clips ordered by position and sorting it back in gives the
/// same clips, when the clips after it lie strictly later.
pub proof fn lemma_reinsert_clip(s: Seq<Clip>, j: int)
    requires
        sorted_by_position(s),
        0 <= j < s.len(),
        forall|i: int| j < i < s.len() ==> #[trigger] s[i].pos() > s[j].pos(),
    ensures
        sort_by_position(s.remove(j).push(s[j])) == s,
{
    let r = s.remove(j);
    let c = s[j];
    assert(sorted_by_position(r)) by {
        assert forall|a: int, b: int| 0 <= a <= b < r.len() implies r[a].pos() <= r[b].pos() by {
            let sa = if a < j { a } else { a + 1 };
            let sb = if b < j { b } else { b + 1 };
            assert(r[a] == s[sa] && r[b] == s[sb]);
        }
    }
    lemma_sort_sorted_push(r, c);
    lemma_insert_by_position(r, c);
    let q = insertion_index(r, c);
    if q < j {
        assert(r[q] == s[q]);
        assert(s[q].pos() <= s[j].pos());
    }
    if q > j {
        assert(r[q - 1] == s[q]);
    }
    assert(q == j);
    assert(r.take(j).push(c) + r.skip(j) =~= s);
}

/// Sorting a clip with a fresh identifier into clips ordered by position puts it at
/// the first index with its identifier; taking it out from there gives the clips back.
pub proof fn lemma_insert_fresh_clip(t: Seq<Clip>, c: Clip)
    requires
        sorted_by_position(t),
        clip_index(t, c.cid()) < 0,
    ensures
        ({
            let u = sort_by_position(t.push(c));
            let q = clip_index(u, c.cid());
            0 <= q < u.len() && u[q] == c && u.remove(q) == t
        }),
{
    lemma_sort_sorted_push(t, c);
    lemma_insert_by_position(t, c);
    lemma_clip_index(t, c.cid());
    let q = insertion_index(t, c);
    let u = insert_by_position(t, c);
    assert(u[q] == c);
    lemma_clip_index(u, c.cid());
    let ci = clip_index(u, c.cid());
    if ci >= 0 && ci < q {
        assert(u[ci] == t[ci]);
    }
    if ci > q || ci < 0 {
        assert(u[q].cid() == c.cid());
    }
    if ci > q {
        assert(u[ci] == t[ci - 1]);
    }
    assert(ci == q);
    assert(u.remove(q) =~= t);
}

/// Removing the clips with an identifier that only the clip at index `j` has
/// removes that clip.
pub proof fn lemma_without_unique(s: Seq<Clip>, j: int, id: ClipId)
    requires
        0 <= j < s.len(),
        s[j].cid() == id,
        forall|i: int| 0 <= i < s.len() && i != j ==> #[trigger] s[i].cid() != id,
    ensures
        without_clip(s, id) == s.remove(j),
    decreases s.len(),
{
    let d = s.drop_last();
    if j == s.len() - 1 {
        lemma_clip_index(d, id);
        if clip_index(d, id) >= 0 {
            assert(s[clip_index(d, id)] == d[clip_index(d, id)]);
        }
        lemma_without_clip_absent(d, id);
        assert(s.remove(j) =~= d);
    } else {
        assert forall|i: int| 0 <= i < d.len() && i != j implies #[trigger] d[i].cid() != id by {
            assert(d[i] == s[i]);
        }
        assert(d[j] == s[j]);
        lemma_without_unique(d, j, id);
        assert(s.last() == s[s.len() - 1]);
        assert(d.remove(j).push(s.last()) =~= s.remove(j));
    }
}

/// Adding a clip to ordered clips and then removing it by identifier gives back
/// the clips, when no clip there had its identifier.
pub proof fn lemma_remove_added_clip(s: Seq<Clip>, c: Clip)
    requires
        sorted_by_position(s),
        clip_index(s, c.cid()) < 0,
    ensures
        without_clip(sort_by_position(s.push(c)), c.cid()) == s,
        clip_index(sort_by_position(s.push(c)), c.cid()) >= 0,
{
    lemma_sort_sorted_push(s, c);
    lemma_without_inserted(s, c);
    lemma_insert_by_position(s, c);
    let r = insert_by_position(s, c);
    lemma_clip_index(r, c.cid());
    assert(r[insertion_index(s, c)] == c);
}

/// Finds the index of the first clip with identifier `id`.
fn find_clip(v: &Vec<Clip>, id: ClipId) -> (r: Option<usize>)
    ensures
        match r {
            Some(i) => clip_index(v@, id) == i,
            None => clip_index(v@, id) == -1,
        },
{
    proof {
        lemma_clip_index(v@, id);
    }
    let mut i: usize = 0;
    while i < v.len()
        invariant
            0 <= i <= v.len(),
            forall|j: int| 0 <= j < i ==> #[trigger] v@[j].cid() != id,
        decreases v.len() - i,
    {
        if v[i].id == id {
            proof {
                lemma_clip_index(v@, id);
                assert(v@[i as int].cid() == id);
                let k = clip_index(v@, id);
                if k >= 0 && k < i {
                    assert(v@[k].cid() == id);
                }
            }
            return Some(i);
        }
        i = i + 1;
    }
    None
}

/// The clips of `s` without those with identifier `id`.
pub open spec fn without_clip(s: Seq<Clip>, id: ClipId) -> Seq<Clip>
    decreases s.len(),
{
    if s.len() == 0 {
        s
    } else {
        let r = without_clip(s.drop_last(), id);
        if s.last().cid() != id { r.push(s.last()) } else { r }
    }
}

impl Track {
    /// Creates an empty track named `Track <kind>`, neither muted nor locked.
    pub fn new(id: TrackId, kind: TrackKind) -> (t: Self)
        ensures
            t@ == (TrackView {
                id,
                kind,
                name: default_track_name(kind),
                clips: Seq::<Clip>::empty(),
                muted: false,
                locked: false,
            }),
    {
        let mut name: Vec<char> = Vec::new();
        push_str(&mut name, "Track ");
        push_str(&mut name, kind.as_str());
        proof {
            reveal_strlit("Track ");
        }
        Track {
            id,
            kind,
            name: string_from_chars(&name),
            clips: Vec::new(),
            muted: false,
            locked: false,
        }
    }

    /// Creates a track from its parts.
    pub fn from_parts(id: TrackId, kind: TrackKind, name: String, clips: Vec<Clip>, muted: bool, locked: bool) -> (t: Self)
        ensures
            t@ == (TrackView { id, kind, name: name@, clips: clips@, muted, locked }),
    {
        Track { id, kind, name, clips, muted, locked }
    }

    /// A copy of the track.
    pub fn duplicate(&self) -> (t: Self)
        ensures
            t@ == self@,
    {
        Track {
            id: self.id,
            kind: self.kind,
            name: self.name.clone(),
            clips: copy_clips(&self.clips),
            muted: self.muted,
            locked: self.locked,
        }
    }

    /// The identifier of the track.
    pub fn id(&self) -> (id: TrackId)
        ensures
            id == self@.id,
    {
        self.id
    }

    /// The kind of the track.
    pub fn kind(&self) -> (k: TrackKind)
        ensures
            k == self@.kind,
    {
        self.kind
    }

    /// The name of the track.
    pub fn name(&self) -> (s: &str)
        ensures
            s@ == self@.name,
    {
        self.name.as_str()
    }

    /// Renames the track.
    pub fn set_name(&mut self, name: &str)
        ensures
            final(self)@ == (TrackView { name: name@, ..old(self)@ }),
    {
        self.name = name.to_string();
    }

    /// Whether the track is muted.
    pub fn is_muted(&self) -> (b: bool)
        ensures
            b == self@.muted,
    {
        self.muted
    }

    /// Mutes or unmutes the track.
    pub fn set_muted(&mut self, muted: bool)
        ensures
            final(self)@ == (TrackView { muted, ..old(self)@ }),
    {
        self.muted = muted;
    }

    /// Whether the track is locked for editing.
    pub fn is_locked(&self) -> (b: bool)
        ensures
            b == self@.locked,
    {
        self.locked
    }

    /// Locks or unlocks the track.
    pub fn set_locked(&mut self, locked: bool)
        ensures
            final(self)@ == (TrackView { locked, ..old(self)@ }),
    {
        self.locked = locked;
    }

    /// The clips of the track.
    pub fn get_clips(&self) -> (s: &[Clip])
        ensures
            s@ == self@.clips,
    {
        self.clips.as_slice()
    }

    /// The first clip with identifier `clip_id`, if any.
    pub fn get_clip(&self, clip_id: ClipId) -> (r: Option<&Clip>)
        ensures
            match r {
                Some(c) => clip_index(self@.clips, clip_id) >= 0 && *c == self@.clips[clip_index(
                    self@.clips,
                    clip_id,
                )],
                None => clip_index(self@.clips, clip_id) == -1,
            },
    {
        proof {
            lemma_clip_index(self.clips@, clip_id);
        }
        match find_clip(&self.clips, clip_id) {
            Some(i) => Some(&self.clips[i]),
            None => None,
        }
    }

    /// The first clip with identifier `clip_id`, if any, to change in place.
    pub fn get_clip_mut(&mut self, clip_id: ClipId) -> (r: Option<&mut Clip>)
        ensures
            match r {
                Some(c) => {
                    let k = clip_index(old(self)@.clips, clip_id);
                    &&& k >= 0
                    &&& *c == old(self)@.clips[k]
                    &&& final(self)@ == (TrackView { clips: old(self)@.clips.update(k, *final(c)), ..old(self)@ })
                },
                None => clip_index(old(self)@.clips, clip_id) == -1 && final(self)@ == old(self)@,
            },
    {
        match self.clip_position_of(clip_id) {
            Some(i) => Some(&mut self.clips[i]),
            None => None,
        }
    }

    /// Adds a clip; fails when it overlaps a clip already on the track. The
    /// clips are then ordered by position (a stable sort).
    pub fn add_clip(&mut self, clip: Clip) -> (r: Result<(), TimelineError>)
        ensures
            overlaps_any(old(self)@.clips, clip) ==> (r matches Err(
                TimelineError::ClipOverlap { position },
            ) && position@ == clip.pos()) && final(self)@ == old(self)@,
            !overlaps_any(old(self)@.clips, clip) ==> r is Ok && final(self)@ == (TrackView {
                clips: sort_by_position(old(self)@.clips.push(clip)),
                ..old(self)@
            }),
    {
        let mut i: usize = 0;
        while i < self.clips.len()
            invariant
                0 <= i <= self.clips.len(),
                forall|j: int| 0 <= j < i ==> !clips_overlap(#[trigger] self.clips@[j], clip),
            decreases self.clips.len() - i,
        {
            if self.clips[i].overlaps_with(&clip) {
                return Err(TimelineError::ClipOverlap { position: clip.position });
            }
            i = i + 1;
        }
        self.clips.push(clip);
        let sorted = sort_clips(&self.clips);
        self.clips = sorted;
        Ok(())
    }

    /// Removes every clip with identifier `clip_id`; tells whether there was one.
    pub fn remove_clip(&mut self, clip_id: ClipId) -> (removed: bool)
        ensures
            removed == (clip_index(old(self)@.clips, clip_id) >= 0),
            final(self)@ == (TrackView { clips: without_clip(old(self)@.clips, clip_id), ..old(self)@ }),
    {
        proof {
            lemma_clip_index(self.clips@, clip_id);
        }
        let mut kept: Vec<Clip> = Vec::new();
        let mut found = false;
        let mut i: usize = 0;
        assert(self.clips@.take(0) =~= Seq::<Clip>::empty());
        while i < self.clips.len()
            invariant
                0 <= i <= self.clips.len(),
                kept@ == without_clip(self.clips@.take(i as int), clip_id),
                found == exists|j: int| 0 <= j < i && #[trigger] self.clips@[j].cid() == clip_id,
            decreases self.clips.len() - i,
        {
            let c = self.clips[i];
            assert(self.clips@.take(i + 1).drop_last() == self.clips@.take(i as int));
            assert(self.clips@.take(i + 1).last() == c);
            if c.id != clip_id {
                kept.push(c);
                assert forall|j: int| 0 <= j < i + 1 && #[trigger] self.clips@[j].cid() == clip_id
                    implies j < i by {}
            } else {
                found = true;
                assert(self.clips@[i as int].cid() == clip_id);
            }
            i = i + 1;
        }
        assert(self.clips@.take(self.clips.len() as int) == self.clips@);
        proof {
            if found {
                let j = choose|j: int| 0 <= j < self.clips@.len() && #[trigger] self.clips@[j].cid() == clip_id;
                assert(self.clips@[j].cid() == clip_id);
            }
        }
        self.clips = kept;
        found
    }

    /// The end of the last clip, as a duration from the start of the timeline.
    pub fn duration(&self) -> (d: Duration)
        ensures
            d@ == max_clip_end(self@.clips),
    {
        let mut best: u64 = 0;
        let mut i: usize = 0;
        assert(self.clips@.take(0) =~= Seq::<Clip>::empty());
        while i < self.clips.len()
            invariant
                0 <= i <= self.clips.len(),
                best == max_clip_end(self.clips@.take(i as int)),
            decreases self.clips.len() - i,
        {
            assert(self.clips@.take(i + 1).drop_last() == self.clips@.take(i as int));
            let e = self.clips[i].end_position().as_millis();
            if e > best {
                best = e;
            }
            i = i + 1;
        }
        assert(self.clips@.take(self.clips.len() as int) == self.clips@);
        Duration::from_millis(best)
    }

    /// Replaces the clip at index `index`.
    pub(crate) fn set_clip_at(&mut self, index: usize, clip: Clip)
        requires
            index < old(self)@.clips.len(),
        ensures
            final(self)@ == (TrackView { clips: old(self)@.clips.update(index as int, clip), ..old(self)@ }),
    {
        self.clips.set(index, clip);
    }

    /// Takes out the clip at index `index`.
    pub(crate) fn take_clip_at(&mut self, index: usize) -> (c: Clip)
        requires
            index < old(self)@.clips.len(),
        ensures
            c == old(self)@.clips[index as int],
            final(self)@ == (TrackView { clips: old(self)@.clips.remove(index as int), ..old(self)@ }),
    {
        self.clips.remove(index)
    }

    /// Appends a clip at the end, without ordering the clips again.
    pub(crate) fn push_clip(&mut self, clip: Clip)
        ensures
            final(self)@ == (TrackView { clips: old(self)@.clips.push(clip), ..old(self)@ }),
    {
        self.clips.push(clip);
    }

    /// Inserts a clip at index `index`, or at the end when `index` is past it.
    pub(crate) fn insert_clip_at(&mut self, index: usize, clip: Clip)
        ensures
            final(self)@ == (TrackView {
                clips: old(self)@.clips.insert(
                    if index <= old(self)@.clips.len() { index as int } else { old(self)@.clips.len() as int },
                    clip,
                ),
                ..old(self)@
            }),
    {
        let at = if index <= self.clips.len() { index } else { self.clips.len() };
        self.clips.insert(at, clip);
    }

    /// Orders the clips by position (a stable sort).
    pub(crate) fn sort_own_clips(&mut self)
        ensures
            final(self)@ == (TrackView { clips: sort_by_position(old(self)@.clips), ..old(self)@ }),
    {
        let sorted = sort_clips(&self.clips);
        self.clips = sorted;
    }

    /// The index of the first clip with identifier `clip_id`.
    pub(crate) fn clip_position_of(&self, clip_id: ClipId) -> (r: Option<usize>)
        ensures
            match r {
                Some(i) => clip_index(self@.clips, clip_id) == i && i < self@.clips.len(),
                None => clip_index(self@.clips, clip_id) == -1,
            },
    {
        proof {
            lemma_clip_index(self.clips@, clip_id);
        }
        find_clip(&self.clips, clip_id)
    }

    /// The clip at index `index`.
    pub(crate) fn clip_at(&self, index: usize) -> (c: Clip)
        requires
            index < self@.clips.len(),
        ensures
            c == self@.clips[index as int],
    {
        self.clips[index]
    }

    /// The number of clips on the track.
    pub(crate) fn clip_count(&self) -> (n: usize)
        ensures
            n == self@.clips.len(),
    {
        self.clips.len()
    }

    /// Gives each clip the timing of its matching clip in `src` (see `timing_adjusted`).
    pub(crate) fn adjust_timing(&mut self, src: &Vec<Clip>)
        ensures
            final(self)@ == (TrackView {
                clips: timing_adjusted_all(src@, old(self)@.clips),
                ..old(self)@
            }),
    {
        let ghost start = self.clips@;
        let mut i: usize = 0;
        while i < self.clips.len()
            invariant
                0 <= i <= self.clips.len(),
                self.clips@.len() == start.len(),
                start == old(self).clips@,
                self.id == old(self).id && self.kind == old(self).kind && self.name == old(self).name,
                self.muted == old(self).muted && self.locked == old(self).locked,
                forall|j: int| 0 <= j < i ==> self.clips@[j] == timing_adjusted(src@, #[trigger] start[j]),
                forall|j: int| i <= j < start.len() ==> self.clips@[j] == #[trigger] start[j],
            decreases self.clips.len() - i,
        {
            let c = self.clips[i];
            match find_timing_match(src, &c) {
                Some(m) => {
                    proof {
                        Clip::lemma_bounds(c);
                        Clip::lemma_bounds(src@[m as int]);
                        Clip::lemma_make(c.cid(), c.asset(), src@[m as int].pos(), src@[m as int].dur(), c.src_start(), c.src_end());
                    }
                    let adjusted = Clip::new(
                        c.id,
                        c.asset_id,
                        src[m].position,
                        src[m].duration,
                        c.source_start,
                        c.source_end,
                    );
                    proof {
                        Clip::lemma_ext_equal(adjusted, timing_adjusted(src@, c));
                    }
                    self.clips.set(i, adjusted);
                },
                None => {},
            }
            i = i + 1;
        }
        assert(self.clips@ =~= timing_adjusted_all(src@, start));
    }

    /// Whether a clip of the track with another identifier overlaps `clip`.
    pub(crate) fn overlaps_other(&self, clip: &Clip) -> (b: bool)
        ensures
            b == overlaps_other(self@.clips, *clip),
    {
        let mut i: usize = 0;
        while i < self.clips.len()
            invariant
                0 <= i <= self.clips.len(),
                forall|j: int| 0 <= j < i ==> !(#[trigger] self.clips@[j].cid() != clip.cid() && clips_overlap(
                    self.clips@[j],
                    *clip,
                )),
            decreases self.clips.len() - i,
        {
            if self.clips[i].id != clip.id && self.clips[i].overlaps_with(clip) {
                return true;
            }
            i = i + 1;
        }
        false
    }
}

/// Whether a clip of `s` with another identifier than `c` overlaps `c`.
pub open spec fn overlaps_other(s: Seq<Clip>, c: Clip) -> bool {
    exists|i: int| 0 <= i < s.len() && (#[trigger] s[i]).cid() != c.cid() && clips_overlap(s[i], c)
}

/// Where in its asset a clip is cut when it is split at `at` on the timeline: the
/// source range is divided in the proportion of the two parts (rounded down).
pub open spec fn split_source_point(c: Clip, at: nat) -> nat {
    c.src_start() + (saturating_diff(c.src_end(), c.src_start()) * saturating_diff(at, c.pos())) / c.dur()
}

/// The part of `c` before `at` when it is split there; it keeps the identifier.
pub open spec fn split_first_part(c: Clip, at: nat) -> Clip {
    Clip::make(c.cid(), c.asset(), c.pos(), saturating_diff(at, c.pos()), c.src_start(), split_source_point(c, at))
}

/// The part of `c` from `at` on when it is split there, with identifier `id`.
pub open spec fn split_second_part(c: Clip, at: nat, id: ClipId) -> Clip {
    Clip::make(
        id,
        c.asset(),
        at,
        saturating_diff(c.dur(), saturating_diff(at, c.pos())),
        split_source_point(c, at),
        c.src_end(),
    )
}

/// The clip `a` extended over the adjacent clip `b` of the same asset.
pub open spec fn merged_clip(a: Clip, b: Clip) -> Clip {
    Clip::make(a.cid(), a.asset(), a.pos(), saturating_sum(a.dur(), b.dur()), a.src_start(), b.src_end())
}

/// Merging the two parts of a clip split strictly inside it gives back the clip.
pub proof fn lemma_merge_split_parts(c: Clip, at: nat, id: ClipId)
    requires
        c.pos() < at < c.pos() + c.dur(),
        at <= u64::MAX,
    ensures
        merged_clip(split_first_part(c, at), split_second_part(c, at, id)) == c,
{
    Clip::lemma_bounds(c);
    let cut = split_source_point(c, at);
    let span = saturating_diff(c.src_end(), c.src_start());
    let part = saturating_diff(at, c.pos());
    assert(cut <= u64::MAX) by {
        assert(span * part <= span * c.dur()) by (nonlinear_arith)
            requires
                part < c.dur(),
        ;
        assert((span * part) / c.dur() <= span) by (nonlinear_arith)
            requires
                span * part <= span * c.dur(),
                c.dur() > 0,
        ;
    }
    Clip::lemma_make(c.cid(), c.asset(), c.pos(), part, c.src_start(), cut);
    Clip::lemma_make(id, c.asset(), at, saturating_diff(c.dur(), part), cut, c.src_end());
    Clip::lemma_make(c.cid(), c.asset(), c.pos(), c.dur(), c.src_start(), c.src_end());
    Clip::lemma_make_parts(c);
}

/// Splitting a clip at a point strictly inside it gives two parts that meet there:
/// the first keeps the identifier, start and source start, the second gets the new
/// identifier and ends where the clip ended; their durations add up to the clip's and
/// their source ranges join where the cut falls.
pub proof fn lemma_split_parts(c: Clip, at: nat, id: ClipId)
    requires
        c.pos() < at < clip_end(c),
    ensures
        ({
            let a = split_first_part(c, at);
            let b = split_second_part(c, at, id);
            &&& a.cid() == c.cid() && b.cid() == id
            &&& a.asset() == c.asset() && b.asset() == c.asset()
            &&& a.pos() == c.pos() && clip_end(a) == at
            &&& b.pos() == at && clip_end(b) == clip_end(c)
            &&& a.dur() + b.dur() == c.dur()
            &&& a.src_start() == c.src_start() && a.src_end() == b.src_start() && b.src_end() == c.src_end()
        }),
{
    Clip::lemma_bounds(c);
    let cut = split_source_point(c, at);
    let span = saturating_diff(c.src_end(), c.src_start());
    let part = saturating_diff(at, c.pos());
    assert(cut <= u64::MAX) by {
        assert(span * part <= span * c.dur()) by (nonlinear_arith)
            requires
                part < c.dur(),
        ;
        assert((span * part) / c.dur() <= span) by (nonlinear_arith)
            requires
                span * part <= span * c.dur(),
                c.dur() > 0,
        ;
    }
    Clip::lemma_make(c.cid(), c.asset(), c.pos(), part, c.src_start(), cut);
    Clip::lemma_make(id, c.asset(), at, saturating_diff(c.dur(), part), cut, c.src_end());
}

/// The clip `c` at position `p`, when there is one.
pub open spec fn placed_at(c: Clip, p: Option<TimePosition>) -> Clip {
    match p {
        Some(t) => Clip::make(c.cid(), c.asset(), t@, c.dur(), c.src_start(), c.src_end()),
        None => c,
    }
}

/// A timeline as a value: its tracks, in order, and the relationships between them.
pub struct TimelineView {
    pub tracks: Seq<TrackView>,
    pub edges: Seq<Edge>,
}

/// Index of the first track of `ts` with identifier `id`, or -1.
pub open spec fn track_index(ts: Seq<TrackView>, id: TrackId) -> int
    decreases ts.len(),
{
    if ts.len() == 0 {
        -1
    } else {
        let k = track_index(ts.drop_last(), id);
        if k >= 0 {
            k
        } else if ts.last().id == id {
            ts.len() - 1
        } else {
            -1
        }
    }
}

/// Facts about `track_index`: it names the first track with the identifier.
pub proof fn lemma_track_index(ts: Seq<TrackView>, id: TrackId)
    ensures
        -1 <= track_index(ts, id) < ts.len(),
        track_index(ts, id) >= 0 ==> ts[track_index(ts, id)].id == id,
        forall|j: int| 0 <= j < ts.len() && (track_index(ts, id) < 0 || j < track_index(ts, id))
            ==> #[trigger] ts[j].id != id,
    decreases ts.len(),
{
    if ts.len() > 0 {
        lemma_track_index(ts.drop_last(), id);
        assert forall|j: int| 0 <= j < ts.len() && (track_index(ts, id) < 0 || j < track_index(ts, id))
            implies #[trigger] ts[j].id != id by {
            if j < ts.len() - 1 {
                assert(ts[j] == ts.drop_last()[j]);
            }
        }
    }
}

/// The tracks of `ts` without those with identifier `id`.
pub open spec fn without_track_id(ts: Seq<TrackView>, id: TrackId) -> Seq<TrackView>
    decreases ts.len(),
{
    if ts.len() == 0 {
        ts
    } else {
        let r = without_track_id(ts.drop_last(), id);
        if ts.last().id != id { r.push(ts.last()) } else { r }
    }
}

/// Replacing a track by one with the same identifier leaves the lookup by
/// identifier unchanged.
pub proof fn lemma_track_index_update(ts: Seq<TrackView>, k: int, t: TrackView, id: TrackId)
    requires
        0 <= k < ts.len(),
        t.id == ts[k].id,
    ensures
        track_index(ts.update(k, t), id) == track_index(ts, id),
    decreases ts.len(),
{
    let u = ts.update(k, t);
    if k == ts.len() - 1 {
        assert(u.drop_last() =~= ts.drop_last());
    } else {
        assert(u.drop_last() =~= ts.drop_last().update(k, t));
        lemma_track_index_update(ts.drop_last(), k, t, id);
    }
}

/// Removing the tracks with an identifier none of them has changes nothing.
pub proof fn lemma_without_track_id_absent(ts: Seq<TrackView>, id: TrackId)
    requires
        track_index(ts, id) < 0,
    ensures
        without_track_id(ts, id) == ts,
    decreases ts.len(),
{
    lemma_track_index(ts, id);
    if ts.len() > 0 {
        let d = ts.drop_last();
        lemma_track_index(d, id);
        if track_index(d, id) >= 0 {
            assert(ts[track_index(d, id)] == d[track_index(d, id)]);
        }
        lemma_without_track_id_absent(d, id);
        assert(ts.last() == ts[ts.len() - 1]);
        assert(d.push(ts.last()) =~= ts);
    }
}

/// The views of a sequence of tracks.
pub open spec fn track_views(ts: Seq<Track>) -> Seq<TrackView> {
    ts.map_values(|t: Track| t@)
}

/// Index of the first track of `ts` that holds a clip with identifier `id`, or -1.
pub open spec fn track_with_clip(ts: Seq<TrackView>, id: ClipId) -> int
    decreases ts.len(),
{
    if ts.len() == 0 {
        -1
    } else {
        let k = track_with_clip(ts.drop_last(), id);
        if k >= 0 {
            k
        } else if clip_index(ts.last().clips, id) >= 0 {
            ts.len() - 1
        } else {
            -1
        }
    }
}

proof fn lemma_track_with_clip(ts: Seq<TrackView>, id: ClipId)
    ensures
        -1 <= track_with_clip(ts, id) < ts.len(),
        track_with_clip(ts, id) >= 0 ==> clip_index(ts[track_with_clip(ts, id)].clips, id) >= 0,
        forall|j: int| 0 <= j < ts.len() && (track_with_clip(ts, id) < 0 || j < track_with_clip(ts, id))
            ==> clip_index(#[trigger] ts[j].clips, id) < 0,
    decreases ts.len(),
{
    if ts.len() > 0 {
        lemma_track_with_clip(ts.drop_last(), id);
        assert forall|j: int| 0 <= j < ts.len() && (track_with_clip(ts, id) < 0 || j < track_with_clip(ts, id))
            implies clip_index(#[trigger] ts[j].clips, id) < 0 by {
            if j < ts.len() - 1 {
                assert(ts[j] == ts.drop_last()[j]);
            }
        }
    }
}

/// The end of the last clip over all tracks (0 without clips).
pub open spec fn timeline_end(ts: Seq<TrackView>) -> nat
    decreases ts.len(),
{
    if ts.len() == 0 {
        0
    } else {
        let m = timeline_end(ts.drop_last());
        let e = max_clip_end(ts.last().clips);
        if e > m { e } else { m }
    }
}

/// The duration of a track is the end of its clip that ends last: no clip ends
/// after it, and it is the end of one of them (0 when there are none).
pub proof fn lemma_track_end(s: Seq<Clip>)
    ensures
        forall|j: int| 0 <= j < s.len() ==> clip_end(#[trigger] s[j]) <= max_clip_end(s),
        s.len() == 0 ==> max_clip_end(s) == 0,
        s.len() > 0 ==> exists|j: int| 0 <= j < s.len() && clip_end(#[trigger] s[j]) == max_clip_end(s),
    decreases s.len(),
{
    if s.len() > 0 {
        let d = s.drop_last();
        lemma_track_end(d);
        assert forall|j: int| 0 <= j < s.len() implies clip_end(#[trigger] s[j]) <= max_clip_end(s) by {
            if j < d.len() {
                assert(s[j] == d[j]);
            }
        }
        if clip_end(s.last()) > max_clip_end(d) || d.len() == 0 {
            assert(clip_end(s[s.len() - 1]) == max_clip_end(s));
        } else {
            let j = choose|j: int| 0 <= j < d.len() && clip_end(#[trigger] d[j]) == max_clip_end(d);
            assert(s[j] == d[j]);
        }
    }
}

/// The duration of a timeline is the end of its clip that ends last, over all
/// tracks: no clip of any track ends after it, and, unless it is 0, it is the end
/// of some clip; a timeline without clips lasts 0.
pub proof fn lemma_timeline_end(ts: Seq<TrackView>)
    ensures
        forall|k: int, j: int|
            0 <= k < ts.len() && 0 <= j < ts[k].clips.len() ==> clip_end(#[trigger] ts[k].clips[j]) <= timeline_end(ts),
        timeline_end(ts) > 0 ==> exists|k: int, j: int|
            0 <= k < ts.len() && 0 <= j < ts[k].clips.len() && clip_end(#[trigger] ts[k].clips[j]) == timeline_end(ts),
        (forall|k: int| 0 <= k < ts.len() ==> (#[trigger] ts[k]).clips.len() == 0) ==> timeline_end(ts) == 0,
    decreases ts.len(),
{
    if ts.len() > 0 {
        let d = ts.drop_last();
        lemma_timeline_end(d);
        let last = ts.last();
        lemma_track_end(last.clips);
        assert forall|k: int, j: int|
            0 <= k < ts.len() && 0 <= j < ts[k].clips.len() implies clip_end(#[trigger] ts[k].clips[j]) <= timeline_end(
            ts,
        ) by {
            if k < d.len() {
                assert(ts[k] == d[k]);
            } else {
                assert(ts[k] == last);
            }
        }
        if timeline_end(ts) > 0 {
            if max_clip_end(last.clips) > timeline_end(d) {
                let j = choose|j: int| 0 <= j < last.clips.len() && clip_end(#[trigger] last.clips[j]) == max_clip_end(
                    last.clips,
                );
                assert(ts[ts.len() - 1] == last);
                assert(clip_end(ts[ts.len() - 1].clips[j]) == timeline_end(ts));
            } else {
                let (k, j) = choose|k: int, j: int|
                    0 <= k < d.len() && 0 <= j < d[k].clips.len() && clip_end(#[trigger] d[k].clips[j]) == timeline_end(d);
                assert(ts[k] == d[k]);
                assert(clip_end(ts[k].clips[j]) == timeline_end(ts));
            }
        }
        if forall|k: int| 0 <= k < ts.len() ==> (#[trigger] ts[k]).clips.len() == 0 {
            assert forall|k: int| 0 <= k < d.len() implies (#[trigger] d[k]).clips.len() == 0 by {
                assert(ts[k] == d[k]);
            }
            assert(ts[ts.len() - 1] == last);
        }
    }
}

/// The timeline `v` with the clips of its track at index `k` replaced by `clips`.
pub open spec fn with_clips(v: TimelineView, k: int, clips: Seq<Clip>) -> TimelineView {
    TimelineView { tracks: v.tracks.update(k, TrackView { clips, ..v.tracks[k] }), edges: v.edges }
}

/// The timeline `v` with its track at index `k` replaced by `t`.
pub open spec fn with_track(v: TimelineView, k: int, t: TrackView) -> TimelineView {
    TimelineView { tracks: v.tracks.update(k, t), edges: v.edges }
}

proof fn lemma_views_update(ts: Seq<Track>, i: int, t: Track)
    requires
        0 <= i < ts.len(),
    ensures
        track_views(ts.update(i, t)) == track_views(ts).update(i, t@),
{
    assert(track_views(ts.update(i, t)) =~= track_views(ts).update(i, t@));
}

/// A timeline: tracks of clips and the relationships between tracks.
#[derive(Debug)]
pub struct Timeline {
    tracks: Vec<Track>,
    multi_track_manager: MultiTrackManager,
}

impl View for Timeline {
    type V = TimelineView;

    closed spec fn view(&self) -> TimelineView {
        TimelineView { tracks: track_views(self.tracks@), edges: self.multi_track_manager@ }
    }
}

impl Timeline {
    /// Creates an empty timeline.
    pub fn new() -> (t: Self)
        ensures
            t@.tracks == Seq::<TrackView>::empty(),
            t@.edges == Seq::<Edge>::empty(),
    {
        let t = Timeline { tracks: Vec::new(), multi_track_manager: MultiTrackManager::new() };
        assert(track_views(t.tracks@) =~= Seq::<TrackView>::empty());
        t
    }

    /// The tracks of the timeline, in order.
    pub fn get_tracks(&self) -> (s: &[Track])
        ensures
            track_views(s@) == self@.tracks,
    {
        self.tracks.as_slice()
    }

    fn find_track(&self, track_id: TrackId) -> (r: Option<usize>)
        ensures
            match r {
                Some(i) => track_index(self@.tracks, track_id) == i && i < self.tracks@.len(),
                None => track_index(self@.tracks, track_id) == -1,
            },
    {
        let ghost ts = self@.tracks;
        proof {
            lemma_track_index(ts, track_id);
        }
        let mut i: usize = 0;
        while i < self.tracks.len()
            invariant
                0 <= i <= self.tracks.len(),
                ts == track_views(self.tracks@),
                ts.len() == self.tracks.len(),
                forall|j: int| 0 <= j < i ==> #[trigger] ts[j].id != track_id,
            decreases self.tracks.len() - i,
        {
            if self.tracks[i].id() == track_id {
                proof {
                    lemma_track_index(ts, track_id);
                    assert(ts[i as int] == self.tracks@[i as int]@);
                    let k = track_index(ts, track_id);
                    if k >= 0 && k < i {
                        assert(ts[k].id == track_id);
                    }
                }
                return Some(i);
            }
            assert(ts[i as int] == self.tracks@[i as int]@);
            i = i + 1;
        }
        None
    }

    /// The first track with identifier `track_id`, if any.
    pub fn get_track(&self, track_id: TrackId) -> (r: Option<&Track>)
        ensures
            match r {
                Some(t) => track_index(self@.tracks, track_id) >= 0 && t@ == self@.tracks[track_index(
                    self@.tracks,
                    track_id,
                )],
                None => track_index(self@.tracks, track_id) == -1,
            },
    {
        match self.find_track(track_id) {
            Some(i) => Some(&self.tracks[i]),
            None => None,
        }
    }

    /// The first track with identifier `track_id`, if any, to change in place.
    pub fn get_track_mut(&mut self, track_id: TrackId) -> (r: Option<&mut Track>)
        ensures
            match r {
                Some(t) => {
                    let k = track_index(old(self)@.tracks, track_id);
                    &&& k >= 0
                    &&& (*t)@ == old(self)@.tracks[k]
                    &&& final(self)@ == with_track(old(self)@, k, (*final(t))@)
                },
                None => track_index(old(self)@.tracks, track_id) == -1 && final(self)@ == old(self)@,
            },
    {
        match self.find_track(track_id) {
            Some(i) => {
                let ghost before = self.tracks@;
                let r = &mut self.tracks[i];
                proof {
                    lemma_views_update(before, i as int, *final(r));
                }
                Some(r)
            },
            None => None,
        }
    }

    /// Whether a track with identifier `track_id` exists.
    pub fn has_track(&self, track_id: TrackId) -> (b: bool)
        ensures
            b == (track_index(self@.tracks, track_id) >= 0),
    {
        self.find_track(track_id).is_some()
    }

    /// The identifier of the first track that holds a clip with identifier `clip_id`.
    pub fn find_track_containing_clip(&self, clip_id: ClipId) -> (r: Option<TrackId>)
        ensures
            match r {
                Some(id) => track_with_clip(self@.tracks, clip_id) >= 0 && id == self@.tracks[track_with_clip(
                    self@.tracks,
                    clip_id,
                )].id,
                None => track_with_clip(self@.tracks, clip_id) == -1,
            },
    {
        let ghost ts = self@.tracks;
        proof {
            lemma_track_with_clip(ts, clip_id);
        }
        let mut i: usize = 0;
        while i < self.tracks.len()
            invariant
                0 <= i <= self.tracks.len(),
                ts == track_views(self.tracks@),
                ts.len() == self.tracks.len(),
                forall|j: int| 0 <= j < i ==> clip_index(#[trigger] ts[j].clips, clip_id) < 0,
            decreases self.tracks.len() - i,
        {
            assert(ts[i as int] == self.tracks@[i as int]@);
            if self.tracks[i].get_clip(clip_id).is_some() {
                proof {
                    lemma_track_with_clip(ts, clip_id);
                    let k = track_with_clip(ts, clip_id);
                    if k >= 0 && k < i {
                        assert(clip_index(ts[k].clips, clip_id) >= 0);
                    }
                }
                return Some(self.tracks[i].id());
            }
            i = i + 1;
        }
        None
    }

    /// Adds a new empty track of kind `kind` with a fresh identifier, at the end.
    pub fn add_track(&mut self, kind: TrackKind) -> (id: TrackId)
        ensures
            final(self)@.tracks == old(self)@.tracks.push(TrackView {
                id,
                kind,
                name: default_track_name(kind),
                clips: Seq::<Clip>::empty(),
                muted: false,
                locked: false,
            }),
            final(self)@.edges == old(self)@.edges,
    {
        let id = TrackId::new();
        let track = Track::new(id, kind);
        self.tracks.push(track);
        assert(track_views(self.tracks@) =~= track_views(old(self).tracks@).push(track@));
        id
    }

    /// Appends a track.
    pub fn push_track(&mut self, track: Track)
        ensures
            final(self)@.tracks == old(self)@.tracks.push(track@),
            final(self)@.edges == old(self)@.edges,
    {
        let ghost v = track@;
        self.tracks.push(track);
        assert(track_views(self.tracks@) =~= track_views(old(self).tracks@).push(v));
    }

    /// Inserts a track at `index`, or at the end when `index` is past it.
    pub fn insert_track(&mut self, index: usize, track: Track)
        ensures
            final(self)@.tracks == old(self)@.tracks.insert(
                if index <= old(self)@.tracks.len() { index as int } else { old(self)@.tracks.len() as int },
                track@,
            ),
            final(self)@.edges == old(self)@.edges,
    {
        let ghost v = track@;
        let at = if index <= self.tracks.len() { index } else { self.tracks.len() };
        self.tracks.insert(at, track);
        assert(track_views(self.tracks@) =~= track_views(old(self).tracks@).insert(at as int, v));
    }

    /// Adds `clip` to the track with identifier `track_id` (see `Track::add_clip`).
    pub fn add_clip(&mut self, track_id: TrackId, clip: Clip) -> (r: Result<(), TimelineError>)
        ensures
            ({
                let k = track_index(old(self)@.tracks, track_id);
                &&& k < 0 ==> r == Err::<(), TimelineError>(TimelineError::TrackNotFound(track_id))
                    && final(self)@ == old(self)@
                &&& k >= 0 && overlaps_any(old(self)@.tracks[k].clips, clip) ==> (r matches Err(
                    TimelineError::ClipOverlap { position },
                ) && position@ == clip.pos()) && final(self)@ == old(self)@
                &&& k >= 0 && !overlaps_any(old(self)@.tracks[k].clips, clip) ==> r is Ok && final(self)@
                    == with_clips(old(self)@, k, sort_by_position(old(self)@.tracks[k].clips.push(clip)))
            }),
    {
        let k = match self.find_track(track_id) {
            Some(k) => k,
            None => return Err(TimelineError::TrackNotFound(track_id)),
        };
        let ghost before = self.tracks@;
        let r = self.tracks[k].add_clip(clip);
        proof {
            lemma_views_update(before, k as int, self.tracks@[k as int]);
            assert(self.tracks@ == before.update(k as int, self.tracks@[k as int]));
            if r is Err {
                assert(track_views(self.tracks@) =~= track_views(before));
            }
        }
        r
    }

    /// Removes the clips with identifier `clip_id` from the track with identifier
    /// `track_id`; fails when the track holds no such clip.
    pub fn remove_clip(&mut self, track_id: TrackId, clip_id: ClipId) -> (r: Result<(), TimelineError>)
        ensures
            ({
                let k = track_index(old(self)@.tracks, track_id);
                &&& k < 0 ==> r == Err::<(), TimelineError>(TimelineError::TrackNotFound(track_id))
                    && final(self)@ == old(self)@
                &&& k >= 0 && clip_index(old(self)@.tracks[k].clips, clip_id) < 0 ==> r == Err::<
                    (),
                    TimelineError,
                >(TimelineError::ClipNotFound { track: track_id, clip: clip_id }) && final(self)@ == old(self)@
                &&& k >= 0 && clip_index(old(self)@.tracks[k].clips, clip_id) >= 0 ==> r is Ok && final(self)@
                    == with_clips(old(self)@, k, without_clip(old(self)@.tracks[k].clips, clip_id))
            }),
    {
        let k = match self.find_track(track_id) {
            Some(k) => k,
            None => return Err(TimelineError::TrackNotFound(track_id)),
        };
        let ghost before = self.tracks@;
        if self.tracks[k].clip_position_of(clip_id).is_none() {
            return Err(TimelineError::ClipNotFound { track: track_id, clip: clip_id });
        }
        let _ = self.tracks[k].remove_clip(clip_id);
        proof {
            lemma_views_update(before, k as int, self.tracks@[k as int]);
            assert(self.tracks@ == before.update(k as int, self.tracks@[k as int]));
        }
        Ok(())
    }

    /// The end of the last clip over all tracks, as a duration from the start.
    pub fn duration(&self) -> (d: Duration)
        ensures
            d@ == timeline_end(self@.tracks),
    {
        let ghost ts = self@.tracks;
        let mut best: u64 = 0;
        let mut i: usize = 0;
        assert(ts.take(0) =~= Seq::<TrackView>::empty());
        while i < self.tracks.len()
            invariant
                0 <= i <= self.tracks.len(),
                ts == track_views(self.tracks@),
                ts.len() == self.tracks.len(),
                best == timeline_end(ts.take(i as int)),
            decreases self.tracks.len() - i,
        {
            assert(ts.take(i + 1).drop_last() == ts.take(i as int));
            assert(ts.take(i + 1).last() == self.tracks@[i as int]@);
            let e = self.tracks[i].duration().as_millis();
            if e > best {
                best = e;
            }
            i = i + 1;
        }
        assert(ts.take(self.tracks.len() as int) == ts);
        Duration::from_millis(best)
    }

    /// Splits the clip with identifier `clip_id` of the track `track_id` at `position`,
    /// which must lie strictly inside the clip. The clip keeps the part before
    /// `position`; a new clip with a fresh identifier takes the rest, and the clips
    /// are ordered by position again. Returns the identifier of the new clip.
    pub fn split_clip(&mut self, track_id: TrackId, clip_id: ClipId, position: TimePosition) -> (r: Result<
        ClipId,
        TimelineError,
    >)
        ensures
            ({
                let k = track_index(old(self)@.tracks, track_id);
                let clips = old(self)@.tracks[k].clips;
                let j = clip_index(clips, clip_id);
                let c = clips[j];
                &&& k < 0 ==> r == Err::<ClipId, TimelineError>(TimelineError::TrackNotFound(track_id))
                    && final(self)@ == old(self)@
                &&& k >= 0 && j < 0 ==> r == Err::<ClipId, TimelineError>(
                    TimelineError::ClipNotFound { track: track_id, clip: clip_id },
                ) && final(self)@ == old(self)@
                &&& k >= 0 && j >= 0 && (position@ <= c.pos() || position@ >= clip_end(c)) ==> (r matches Err(
                    TimelineError::InvalidOperation(msg),
                ) && msg@ == "Split position "@ + seconds_text(position@) + " is outside clip bounds"@)
                    && final(self)@ == old(self)@
                &&& k >= 0 && j >= 0 && c.pos() < position@ < clip_end(c) ==> (r matches Ok(id)
                    && final(self)@ == with_clips(
                    old(self)@,
                    k,
                    sort_by_position(
                        clips.update(j, split_first_part(c, position@)).push(
                            split_second_part(c, position@, id),
                        ),
                    ),
                ))
            }),
    {
        let k = match self.find_track(track_id) {
            Some(k) => k,
            None => return Err(TimelineError::TrackNotFound(track_id)),
        };
        let j = match self.tracks[k].clip_position_of(clip_id) {
            Some(j) => j,
            None => return Err(TimelineError::ClipNotFound { track: track_id, clip: clip_id }),
        };
        proof {
            lemma_clip_index(self.tracks@[k as int]@.clips, clip_id);
        }
        let c = self.tracks[k].clip_at(j);
        let at = position.as_millis();
        let start = c.position().as_millis();
        let end = c.end_position().as_millis();
        if at <= start || at >= end {
            let mut msg: Vec<char> = Vec::new();
            push_str(&mut msg, "Split position ");
            let text = position.to_string();
            push_str(&mut msg, text.as_str());
            push_str(&mut msg, " is outside clip bounds");
            proof {
                reveal_strlit("Split position ");
                reveal_strlit(" is outside clip bounds");
            }
            return Err(TimelineError::InvalidOperation(string_from_chars(&msg)));
        }
        let dur = c.duration().as_millis();
        let first = at - start;
        let second = dur - first;
        let ss = c.source_start().as_millis();
        let se = c.source_end().as_millis();
        let src_len: u64 = if se >= ss { se - ss } else { 0 };
        assert(first < dur);
        assert((src_len as u128) * (first as u128) <= 0xffff_ffff_ffff_ffffu128 * 0xffff_ffff_ffff_ffffu128)
            by (nonlinear_arith)
            requires
                src_len <= 0xffff_ffff_ffff_ffffu64,
                first <= 0xffff_ffff_ffff_ffffu64,
        ;
        let prod: u128 = (src_len as u128) * (first as u128);
        let off128: u128 = prod / (dur as u128);
        assert(off128 <= src_len) by (nonlinear_arith)
            requires
                prod == (src_len as u128) * (first as u128),
                off128 == prod / (dur as u128),
                first < dur,
        ;
        let off = off128 as u64;
        let split = ss + off;
        let new_id = ClipId::new();
        let first_part = Clip::new(
            c.id(),
            c.asset_id(),
            c.position(),
            Duration::from_millis(first),
            c.source_start(),
            TimePosition::from_millis(split),
        );
        let second_part = Clip::new(
            new_id,
            c.asset_id(),
            position,
            Duration::from_millis(second),
            TimePosition::from_millis(split),
            c.source_end(),
        );
        proof {
            assert(split == split_source_point(c, at as nat));
            Clip::lemma_make(c.cid(), c.asset(), c.pos(), first as nat, c.src_start(), split as nat);
            Clip::lemma_ext_equal(first_part, split_first_part(c, at as nat));
            Clip::lemma_make(new_id, c.asset(), at as nat, second as nat, split as nat, c.src_end());
            Clip::lemma_ext_equal(second_part, split_second_part(c, at as nat, new_id));
        }
        let ghost before = self.tracks@;
        self.tracks[k].set_clip_at(j, first_part);
        self.tracks[k].push_clip(second_part);
        self.tracks[k].sort_own_clips();
        proof {
            lemma_views_update(before, k as int, self.tracks@[k as int]);
            assert(self.tracks@ == before.update(k as int, self.tracks@[k as int]));
        }
        Ok(new_id)
    }

    /// Merges two adjacent clips of the same asset on the track `track_id`: the
    /// earlier one (by position) is extended over the later one, which is removed.
    pub fn merge_clips(&mut self, track_id: TrackId, first_clip_id: ClipId, second_clip_id: ClipId) -> (r: Result<
        (),
        TimelineError,
    >)
        ensures
            ({
                let k = track_index(old(self)@.tracks, track_id);
                let clips = old(self)@.tracks[k].clips;
                let j1 = clip_index(clips, first_clip_id);
                let j2 = clip_index(clips, second_clip_id);
                let a = if clips[j1].pos() < clips[j2].pos() { j1 } else { j2 };
                let b = if clips[j1].pos() < clips[j2].pos() { j2 } else { j1 };
                &&& k < 0 ==> r == Err::<(), TimelineError>(TimelineError::TrackNotFound(track_id))
                    && final(self)@ == old(self)@
                &&& k >= 0 && j1 < 0 ==> r == Err::<(), TimelineError>(
                    TimelineError::ClipNotFound { track: track_id, clip: first_clip_id },
                ) && final(self)@ == old(self)@
                &&& k >= 0 && j1 >= 0 && j2 < 0 ==> r == Err::<(), TimelineError>(
                    TimelineError::ClipNotFound { track: track_id, clip: second_clip_id },
                ) && final(self)@ == old(self)@
                &&& k >= 0 && j1 >= 0 && j2 >= 0 && clip_end(clips[a]) != clips[b].pos() ==> (r matches Err(
                    TimelineError::InvalidOperation(msg),
                ) && msg@ == "Clips are not adjacent"@) && final(self)@ == old(self)@
                &&& k >= 0 && j1 >= 0 && j2 >= 0 && clip_end(clips[a]) == clips[b].pos() && clips[a].asset()
                    != clips[b].asset() ==> (r matches Err(TimelineError::InvalidOperation(msg))
                    && msg@ == "Cannot merge clips from different assets"@) && final(self)@ == old(self)@
                &&& k >= 0 && j1 >= 0 && j2 >= 0 && clip_end(clips[a]) == clips[b].pos() && clips[a].asset()
                    == clips[b].asset() ==> r is Ok && final(self)@ == with_clips(
                    old(self)@,
                    k,
                    clips.update(a, merged_clip(clips[a], clips[b])).remove(b),
                )
            }),
    {
        let k = match self.find_track(track_id) {
            Some(k) => k,
            None => return Err(TimelineError::TrackNotFound(track_id)),
        };
        proof {
            lemma_clip_index(self.tracks@[k as int]@.clips, first_clip_id);
            lemma_clip_index(self.tracks@[k as int]@.clips, second_clip_id);
        }
        let j1 = match self.tracks[k].clip_position_of(first_clip_id) {
            Some(j) => j,
            None => return Err(TimelineError::ClipNotFound { track: track_id, clip: first_clip_id }),
        };
        let j2 = match self.tracks[k].clip_position_of(second_clip_id) {
            Some(j) => j,
            None => return Err(TimelineError::ClipNotFound { track: track_id, clip: second_clip_id }),
        };
        let c1 = self.tracks[k].clip_at(j1);
        let c2 = self.tracks[k].clip_at(j2);
        let (a, b) = if c1.position().as_millis() < c2.position().as_millis() {
            (j1, j2)
        } else {
            (j2, j1)
        };
        let ca = self.tracks[k].clip_at(a);
        let cb = self.tracks[k].clip_at(b);
        if ca.end_position().as_millis() != cb.position().as_millis() {
            let mut msg: Vec<char> = Vec::new();
            push_str(&mut msg, "Clips are not adjacent");
            return Err(TimelineError::InvalidOperation(string_from_chars(&msg)));
        }
        if ca.asset_id() != cb.asset_id() {
            let mut msg: Vec<char> = Vec::new();
            push_str(&mut msg, "Cannot merge clips from different assets");
            return Err(TimelineError::InvalidOperation(string_from_chars(&msg)));
        }
        let da = ca.duration().as_millis();
        let db = cb.duration().as_millis();
        let total: u64 = if da > u64::MAX - db { u64::MAX } else { da + db };
        let merged = Clip::new(
            ca.id(),
            ca.asset_id(),
            ca.position(),
            Duration::from_millis(total),
            ca.source_start(),
            cb.source_end(),
        );
        proof {
            Clip::lemma_bounds(ca);
            Clip::lemma_bounds(cb);
            Clip::lemma_make(ca.cid(), ca.asset(), ca.pos(), total as nat, ca.src_start(), cb.src_end());
            Clip::lemma_ext_equal(merged, merged_clip(ca, cb));
        }
        let ghost before = self.tracks@;
        self.tracks[k].set_clip_at(a, merged);
        let _ = self.tracks[k].take_clip_at(b);
        proof {
            lemma_views_update(before, k as int, self.tracks@[k as int]);
            assert(self.tracks@ == before.update(k as int, self.tracks@[k as int]));
        }
        Ok(())
    }

    /// Moves the clip `clip_id` from the track `source_track_id` to the track
    /// `target_track_id` of the same kind, at `new_position` when one is given.
    /// When it would overlap another clip there, the clip is restored where it was
    /// and the move fails; on every failure the timeline is left as it was.
    pub fn move_clip_to_track(
        &mut self,
        source_track_id: TrackId,
        target_track_id: TrackId,
        clip_id: ClipId,
        new_position: Option<TimePosition>,
    ) -> (r: Result<(), TimelineError>)
        ensures
            ({
                let ts = old(self)@.tracks;
                let ks = track_index(ts, source_track_id);
                let kt = track_index(ts, target_track_id);
                let j = clip_index(ts[ks].clips, clip_id);
                let v1 = with_clips(old(self)@, ks, ts[ks].clips.remove(j));
                let c = placed_at(ts[ks].clips[j], new_position);
                &&& ks < 0 ==> r == Err::<(), TimelineError>(TimelineError::TrackNotFound(source_track_id))
                    && final(self)@ == old(self)@
                &&& ks >= 0 && kt < 0 ==> r == Err::<(), TimelineError>(
                    TimelineError::TrackNotFound(target_track_id),
                ) && final(self)@ == old(self)@
                &&& ks >= 0 && kt >= 0 && ts[ks].kind != ts[kt].kind ==> (r matches Err(
                    TimelineError::InvalidOperation(msg),
                ) && msg@ == "Cannot move clip between different track kinds: "@ + kind_name(ts[ks].kind)
                    + " and "@ + kind_name(ts[kt].kind)) && final(self)@ == old(self)@
                &&& ks >= 0 && kt >= 0 && ts[ks].kind == ts[kt].kind && j < 0 ==> r == Err::<(), TimelineError>(
                    TimelineError::ClipNotFound { track: source_track_id, clip: clip_id },
                ) && final(self)@ == old(self)@
                &&& ks >= 0 && kt >= 0 && ts[ks].kind == ts[kt].kind && j >= 0 && overlaps_other(
                    v1.tracks[kt].clips,
                    c,
                ) ==> (r matches Err(TimelineError::ClipOverlap { position }) && position@ == c.pos())
                    && final(self)@ == old(self)@
                &&& ks >= 0 && kt >= 0 && ts[ks].kind == ts[kt].kind && j >= 0 && !overlaps_other(
                    v1.tracks[kt].clips,
                    c,
                ) ==> r is Ok && final(self)@ == with_clips(v1, kt, sort_by_position(v1.tracks[kt].clips.push(c)))
            }),
    {
        let ks = match self.find_track(source_track_id) {
            Some(k) => k,
            None => return Err(TimelineError::TrackNotFound(source_track_id)),
        };
        let kt = match self.find_track(target_track_id) {
            Some(k) => k,
            None => return Err(TimelineError::TrackNotFound(target_track_id)),
        };
        let source_kind = self.tracks[ks].kind();
        let target_kind = self.tracks[kt].kind();
        if source_kind != target_kind {
            let mut msg: Vec<char> = Vec::new();
            push_str(&mut msg, "Cannot move clip between different track kinds: ");
            push_str(&mut msg, source_kind.as_str());
            push_str(&mut msg, " and ");
            push_str(&mut msg, target_kind.as_str());
            proof {
                reveal_strlit("Cannot move clip between different track kinds: ");
                reveal_strlit(" and ");
            }
            return Err(TimelineError::InvalidOperation(string_from_chars(&msg)));
        }
        proof {
            lemma_clip_index(self.tracks@[ks as int]@.clips, clip_id);
        }
        let j = match self.tracks[ks].clip_position_of(clip_id) {
            Some(j) => j,
            None => return Err(TimelineError::ClipNotFound { track: source_track_id, clip: clip_id }),
        };
        let ghost before = self.tracks@;
        let mut clip = self.tracks[ks].take_clip_at(j);
        let original = clip;
        let ghost taken = clip;
        match new_position {
            Some(p) => {
                clip.set_position(p);
            },
            None => {},
        }
        proof {
            lemma_views_update(before, ks as int, self.tracks@[ks as int]);
            assert(self.tracks@ == before.update(ks as int, self.tracks@[ks as int]));
            if new_position is Some {
                Clip::lemma_bounds(taken);
                Clip::lemma_bounds(clip);
                Clip::lemma_make(taken.cid(), taken.asset(), clip.pos(), taken.dur(), taken.src_start(), taken.src_end());
                Clip::lemma_ext_equal(clip, placed_at(taken, new_position));
            }
        }
        let ghost middle = self.tracks@;
        if self.tracks[kt].overlaps_other(&clip) {
            let position = clip.position();
            self.tracks[ks].insert_clip_at(j, original);
            proof {
                lemma_views_update(middle, ks as int, self.tracks@[ks as int]);
                assert(self.tracks@ == middle.update(ks as int, self.tracks@[ks as int]));
                let cs = before[ks as int]@.clips;
                assert(cs.remove(j as int).insert(j as int, cs[j as int]) =~= cs);
                assert(self.tracks@[ks as int]@ == before[ks as int]@);
                assert(track_views(self.tracks@) =~= track_views(before));
            }
            return Err(TimelineError::ClipOverlap { position });
        }
        self.tracks[kt].push_clip(clip);
        self.tracks[kt].sort_own_clips();
        proof {
            lemma_views_update(middle, kt as int, self.tracks@[kt as int]);
            assert(self.tracks@ == middle.update(kt as int, self.tracks@[kt as int]));
        }
        Ok(())
    }

    /// The index of the first track with identifier `track_id`.
    pub(crate) fn track_position(&self, track_id: TrackId) -> (r: Option<usize>)
        ensures
            match r {
                Some(i) => track_index(self@.tracks, track_id) == i && i < self@.tracks.len(),
                None => track_index(self@.tracks, track_id) == -1,
            },
    {
        self.find_track(track_id)
    }

    /// The track at index `k`.
    pub(crate) fn track_at(&self, k: usize) -> (t: &Track)
        requires
            k < self@.tracks.len(),
        ensures
            t@ == self@.tracks[k as int],
    {
        &self.tracks[k]
    }

    /// Puts `track` at index `k` and returns the track that was there.
    pub(crate) fn swap_track_at(&mut self, k: usize, track: Track) -> (old_track: Track)
        requires
            k < old(self)@.tracks.len(),
        ensures
            old_track@ == old(self)@.tracks[k as int],
            final(self)@ == with_track(old(self)@, k as int, track@),
    {
        let ghost before = self.tracks@;
        let previous = self.tracks[k].duplicate();
        self.tracks.set(k, track);
        proof {
            lemma_views_update(before, k as int, self.tracks@[k as int]);
            assert(self.tracks@ == before.update(k as int, self.tracks@[k as int]));
        }
        previous
    }

    /// Sets the mute and lock states of the track at index `k`.
    pub(crate) fn set_track_flags(&mut self, k: usize, muted: bool, locked: bool)
        requires
            k < old(self)@.tracks.len(),
        ensures
            final(self)@ == with_track(
                old(self)@,
                k as int,
                TrackView { muted, locked, ..old(self)@.tracks[k as int] },
            ),
    {
        let ghost before = self.tracks@;
        self.tracks[k].set_muted(muted);
        self.tracks[k].set_locked(locked);
        proof {
            lemma_views_update(before, k as int, self.tracks@[k as int]);
            assert(self.tracks@ == before.update(k as int, self.tracks@[k as int]));
        }
    }

    /// Gives the clips of the track at index `k` the timing of their matching clips in `src`.
    pub(crate) fn adjust_track_timing(&mut self, k: usize, src: &Vec<Clip>)
        requires
            k < old(self)@.tracks.len(),
        ensures
            final(self)@ == with_clips(
                old(self)@,
                k as int,
                timing_adjusted_all(src@, old(self)@.tracks[k as int].clips),
            ),
    {
        let ghost before = self.tracks@;
        self.tracks[k].adjust_timing(src);
        proof {
            lemma_views_update(before, k as int, self.tracks@[k as int]);
            assert(self.tracks@ == before.update(k as int, self.tracks@[k as int]));
        }
    }

    /// Renames the track at index `k`.
    pub(crate) fn rename_track_at(&mut self, k: usize, name: &str)
        requires
            k < old(self)@.tracks.len(),
        ensures
            final(self)@ == with_track(old(self)@, k as int, TrackView { name: name@, ..old(self)@.tracks[k as int] }),
    {
        let ghost before = self.tracks@;
        self.tracks[k].set_name(name);
        proof {
            lemma_views_update(before, k as int, self.tracks@[k as int]);
            assert(self.tracks@ == before.update(k as int, self.tracks@[k as int]));
        }
    }

    /// Replaces the clip at index `j` of the track at index `k`.
    pub(crate) fn set_clip_in_track(&mut self, k: usize, j: usize, clip: Clip)
        requires
            k < old(self)@.tracks.len(),
            j < old(self)@.tracks[k as int].clips.len(),
        ensures
            final(self)@ == with_clips(old(self)@, k as int, old(self)@.tracks[k as int].clips.update(j as int, clip)),
    {
        let ghost before = self.tracks@;
        self.tracks[k].set_clip_at(j, clip);
        proof {
            lemma_views_update(before, k as int, self.tracks@[k as int]);
            assert(self.tracks@ == before.update(k as int, self.tracks@[k as int]));
        }
    }

    /// Orders the clips of the track at index `k` by position.
    pub(crate) fn sort_track_at(&mut self, k: usize)
        requires
            k < old(self)@.tracks.len(),
        ensures
            final(self)@ == with_clips(old(self)@, k as int, sort_by_position(old(self)@.tracks[k as int].clips)),
    {
        let ghost before = self.tracks@;
        self.tracks[k].sort_own_clips();
        proof {
            lemma_views_update(before, k as int, self.tracks@[k as int]);
            assert(self.tracks@ == before.update(k as int, self.tracks@[k as int]));
        }
    }

    /// Inserts a clip into the track at index `k`, at index `index` or at the end
    /// when `index` is past it.
    pub(crate) fn insert_clip_in_track(&mut self, k: usize, index: usize, clip: Clip)
        requires
            k < old(self)@.tracks.len(),
        ensures
            ({
                let clips = old(self)@.tracks[k as int].clips;
                final(self)@ == with_clips(
                    old(self)@,
                    k as int,
                    clips.insert(if index <= clips.len() { index as int } else { clips.len() as int }, clip),
                )
            }),
    {
        let ghost before = self.tracks@;
        self.tracks[k].insert_clip_at(index, clip);
        proof {
            lemma_views_update(before, k as int, self.tracks@[k as int]);
            assert(self.tracks@ == before.update(k as int, self.tracks@[k as int]));
        }
    }

    /// A copy of the clips of the track at index `k`.
    pub(crate) fn track_clips(&self, k: usize) -> (v: Vec<Clip>)
        requires
            k < self@.tracks.len(),
        ensures
            v@ == self@.tracks[k as int].clips,
    {
        copy_clips(&self.tracks[k].clips)
    }

    /// The relationships between the tracks.
    pub fn multi_track_manager(&self) -> (m: &MultiTrackManager)
        ensures
            m@ == self@.edges,
    {
        &self.multi_track_manager
    }

    /// The relationships between the tracks, for changing them.
    pub fn multi_track_manager_mut(&mut self) -> (m: &mut MultiTrackManager)
        ensures
            m@ == old(self)@.edges,
            final(self)@ == (TimelineView { tracks: old(self)@.tracks, edges: final(m)@ }),
    {
        &mut self.multi_track_manager
    }

    /// Removes the track with identifier `track_id` and every relationship it takes part in.
    pub fn remove_track(&mut self, track_id: TrackId) -> (r: Result<(), TimelineError>)
        ensures
            track_index(old(self)@.tracks, track_id) < 0 ==> r == Err::<(), TimelineError>(
                TimelineError::TrackNotFound(track_id),
            ) && final(self)@ == old(self)@,
            track_index(old(self)@.tracks, track_id) >= 0 ==> r is Ok && final(self)@ == (TimelineView {
                tracks: without_track_id(old(self)@.tracks, track_id),
                edges: multi_track::without_track(old(self)@.edges, track_id),
            }),
    {
        if !self.has_track(track_id) {
            return Err(TimelineError::TrackNotFound(track_id));
        }
        let _ = self.multi_track_manager.remove_track(track_id);
        let ghost old_tracks = self.tracks@;
        let mut kept: Vec<Track> = Vec::new();
        let mut old_vec: Vec<Track> = Vec::new();
        std::mem::swap(&mut old_vec, &mut self.tracks);
        assert(old_vec@ == old_tracks);
        let ghost ts = track_views(old_tracks);
        assert(track_views(old_tracks.take(0)) =~= Seq::<TrackView>::empty());
        let mut i: usize = 0;
        let n = old_vec.len();
        while old_vec.len() > 0
            invariant
                i + old_vec.len() == n,
                n == old_tracks.len(),
                old_vec@ == old_tracks.skip(i as int),
                track_views(kept@) == without_track_id(track_views(old_tracks.take(i as int)), track_id),
            decreases old_vec.len(),
        {
            let t = old_vec.remove(0);
            assert(old_tracks[i as int] == t);
            assert(old_tracks.skip(i as int).drop_first() =~= old_tracks.skip(i + 1));
            assert(track_views(old_tracks.take(i + 1)).drop_last() =~= track_views(old_tracks.take(i as int)));
            assert(track_views(old_tracks.take(i + 1)).last() == t@);
            if t.id() != track_id {
                let ghost tv = t@;
                kept.push(t);
                assert(track_views(kept@) =~= track_views(kept@.drop_last()).push(tv));
            }
            i = i + 1;
        }
        assert(old_tracks.take(n as int) == old_tracks);
        self.tracks = kept;
        Ok(())
    }
}

} // verus!
