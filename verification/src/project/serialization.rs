//! The logic of project files: which file versions are read, how the header is
//! checked, and how a timeline is written to and rebuilt from plain records of
//! its tracks and clips. Turning records into JSON text and back is done by the
//! caller.

use vstd::prelude::*;
use crate::project::{copy_pairs, pairs_view, AssetMetadata, AssetReference, ProjectMetadata};
use crate::project::ids::{parse_uuid_text, uuid_error_text, uuid_parse, uuid_text, AssetId, ClipId, TrackId};
use crate::project::timeline::multi_track::{MultiTrackManager, TrackRelationship};
use crate::project::timeline::{
    clips_overlap, kind_name, lemma_sort_of_sorted, no_overlaps, overlaps_any, sort_by_position, sorted_by_position,
    timeline_error_text, track_views, Clip, Timeline, TimelineError, Track, TrackKind, TrackView,
};
use crate::utility::text::{
    chars_of, parse_u32, parse_u32_spec, push_str, push_text, split_chars, split_on, string_from_chars,
    strings_view, text_eq, text_of,
};
use crate::utility::time::{lemma_view_bounds, position_ms, Duration, TimePosition};

verus! {

/// Errors of reading and writing project files.
#[derive(Debug, Clone)]
pub enum SerializationError {
    /// Reading or writing the file failed; the message says how.
    Io(String),
    /// The JSON text could not be read or written; the message says how.
    Json(String),
    /// The file is not a project file this library reads; the message says why.
    IncompatibleFormat(String),
    /// The file has a version this library does not read.
    UnsupportedVersion(String),
    /// Rebuilding the timeline failed.
    Timeline(TimelineError),
}

/// The message of a serialization error.
pub open spec fn serialization_error_text(e: SerializationError) -> Seq<char> {
    match e {
        SerializationError::Io(m) => "I/O error: "@ + m@,
        SerializationError::Json(m) => "JSON error: "@ + m@,
        SerializationError::IncompatibleFormat(m) => "Incompatible file format: "@ + m@,
        SerializationError::UnsupportedVersion(m) => "Unsupported project version: "@ + m@,
        SerializationError::Timeline(t) => "Timeline error: "@ + timeline_error_text(t),
    }
}

impl SerializationError {
    /// The message of the error.
    pub fn message(&self) -> (s: String)
        ensures
            s@ == serialization_error_text(*self),
    {
        let mut out: Vec<char> = Vec::new();
        match self {
            SerializationError::Io(m) => {
                push_str(&mut out, "I/O error: ");
                push_str(&mut out, m.as_str());
            },
            SerializationError::Json(m) => {
                push_str(&mut out, "JSON error: ");
                push_str(&mut out, m.as_str());
            },
            SerializationError::IncompatibleFormat(m) => {
                push_str(&mut out, "Incompatible file format: ");
                push_str(&mut out, m.as_str());
            },
            SerializationError::UnsupportedVersion(m) => {
                push_str(&mut out, "Unsupported project version: ");
                push_str(&mut out, m.as_str());
            },
            SerializationError::Timeline(t) => {
                push_str(&mut out, "Timeline error: ");
                push_str(&mut out, t.message().as_str());
            },
        }
        string_from_chars(&out)
    }
}

/// The version written into project files.
pub open spec fn current_version() -> Seq<char> {
    "1.0.0"@
}

/// The file type written into project files.
pub open spec fn project_file_type() -> Seq<char> {
    "edv_project"@
}

/// The version written into project files.
pub fn current_version_text() -> (s: &'static str)
    ensures
        s@ == current_version(),
{
    "1.0.0"
}

/// The file type written into project files.
pub fn project_file_type_text() -> (s: &'static str)
    ensures
        s@ == project_file_type(),
{
    "edv_project"
}

/// The major version read from the first part of a version: its value when it
/// reads as a `u32`, otherwise 0.
pub open spec fn major_version(part: Seq<char>) -> int {
    match parse_u32_spec(part) {
        Some(x) => x as int,
        None => 0,
    }
}

/// Whether files of version `v` are read: `v` has three parts separated by `.`
/// and the first reads as major version 1.
pub open spec fn version_compatible(v: Seq<char>) -> bool {
    let parts = split_on(v, '.');
    parts.len() == 3 && major_version(parts[0]) == 1
}

/// Whether files of version `version` are read (see `version_compatible`).
pub fn is_version_compatible(version: &str) -> (b: bool)
    ensures
        b == version_compatible(version@),
{
    let chars = chars_of(version);
    let parts = split_chars(&chars, 0, chars.len(), '.');
    assert(chars@.subrange(0, chars@.len() as int) =~= chars@);
    if parts.len() != 3 {
        return false;
    }
    assert(parts@[0]@.subrange(0, parts@[0]@.len() as int) =~= parts@[0]@);
    let major: u32 = match parse_u32(&parts[0], 0, parts[0].len()) {
        Some(x) => x,
        None => 0,
    };
    major == 1
}

/// Checks the header of a project file: the version first, then the file type.
pub fn check_project_header(version: &str, file_type: &str) -> (r: Result<(), SerializationError>)
    ensures
        !version_compatible(version@) ==> (r matches Err(SerializationError::UnsupportedVersion(m))
            && m@ == version@),
        version_compatible(version@) && file_type@ != project_file_type() ==> (r matches Err(
            SerializationError::IncompatibleFormat(m),
        ) && m@ == file_type@),
        version_compatible(version@) && file_type@ == project_file_type() ==> r is Ok,
{
    if !is_version_compatible(version) {
        return Err(SerializationError::UnsupportedVersion(text_of(version)));
    }
    if !text_eq(file_type, project_file_type_text()) {
        return Err(SerializationError::IncompatibleFormat(text_of(file_type)));
    }
    Ok(())
}

/// The track kind written as `s`, if any.
pub open spec fn kind_from_name(s: Seq<char>) -> Option<TrackKind> {
    if s == "Video"@ {
        Some(TrackKind::Video)
    } else if s == "Audio"@ {
        Some(TrackKind::Audio)
    } else if s == "Subtitle"@ {
        Some(TrackKind::Subtitle)
    } else {
        None
    }
}

/// Reads a track kind from its name; fails with `IncompatibleFormat` and the
/// message `Unknown track kind: <name>` for any other text.
pub fn track_kind_from_name(kind: &str) -> (r: Result<TrackKind, SerializationError>)
    ensures
        match kind_from_name(kind@) {
            Some(k) => r == Ok::<TrackKind, SerializationError>(k),
            None => r matches Err(SerializationError::IncompatibleFormat(m)) && m@ == "Unknown track kind: "@
                + kind@,
        },
{
    if text_eq(kind, "Video") {
        Ok(TrackKind::Video)
    } else if text_eq(kind, "Audio") {
        Ok(TrackKind::Audio)
    } else if text_eq(kind, "Subtitle") {
        Ok(TrackKind::Subtitle)
    } else {
        let mut out: Vec<char> = Vec::new();
        push_str(&mut out, "Unknown track kind: ");
        push_str(&mut out, kind);
        Err(SerializationError::IncompatibleFormat(string_from_chars(&out)))
    }
}

/// A clip as written to a project file: identifiers as UUID text, times in
/// milliseconds.
#[derive(Debug, Clone)]
pub struct ClipRecord {
    /// Identifier of the clip.
    pub id: String,
    /// Identifier of the clip's asset.
    pub asset_id: String,
    /// Position of the clip on its track.
    pub position: u64,
    /// Duration of the clip.
    pub duration: u64,
    /// Start of the clip in its asset.
    pub source_start: u64,
    /// End of the clip in its asset.
    pub source_end: u64,
}

/// A track as written to a project file.
#[derive(Debug, Clone)]
pub struct TrackRecord {
    /// Identifier of the track, as UUID text.
    pub id: String,
    /// Kind of the track, by name.
    pub kind: String,
    /// Name of the track.
    pub name: String,
    /// Clips of the track.
    pub clips: Vec<ClipRecord>,
    /// Whether the track is muted.
    pub muted: bool,
    /// Whether the track is locked.
    pub locked: bool,
}

/// What goes wrong while rebuilding a timeline from records: a record that is
/// not understood (with the message), or a clip that overlaps another (at the
/// position of the new clip, in milliseconds).
pub enum RecordFault {
    Format(Seq<char>),
    Overlap(nat),
}

/// Whether the error `e` reports the fault `f`.
pub open spec fn error_is_fault(e: SerializationError, f: RecordFault) -> bool {
    match f {
        RecordFault::Format(m) => e matches SerializationError::IncompatibleFormat(s) && s@ == m,
        RecordFault::Overlap(p) => e matches SerializationError::Timeline(
            TimelineError::ClipOverlap { position },
        ) && position@ == p,
    }
}

/// The clip a record describes, or why it is not understood: the clip identifier
/// is read first, then the asset identifier.
pub open spec fn clip_record_outcome(r: ClipRecord) -> Result<Clip, RecordFault> {
    match uuid_parse(r.id@) {
        None => Err(RecordFault::Format("Invalid clip ID: "@ + uuid_error_text(r.id@))),
        Some(c) => match uuid_parse(r.asset_id@) {
            None => Err(RecordFault::Format("Invalid asset ID: "@ + uuid_error_text(r.asset_id@))),
            Some(a) => Ok(
                Clip::make(
                    ClipId::with_value(c),
                    AssetId::with_value(a),
                    r.position as nat,
                    r.duration as nat,
                    r.source_start as nat,
                    r.source_end as nat,
                ),
            ),
        },
    }
}

/// The clips a track holds after the clip records `rs` are added one by one, as
/// `Track::add_clip` adds them, or the first fault.
pub open spec fn clips_outcome(rs: Seq<ClipRecord>) -> Result<Seq<Clip>, RecordFault>
    decreases rs.len(),
{
    if rs.len() == 0 {
        Ok(Seq::empty())
    } else {
        match clips_outcome(rs.drop_last()) {
            Err(f) => Err(f),
            Ok(cs) => match clip_record_outcome(rs.last()) {
                Err(f) => Err(f),
                Ok(c) => if overlaps_any(cs, c) {
                    Err(RecordFault::Overlap(c.pos()))
                } else {
                    Ok(sort_by_position(cs.push(c)))
                },
            },
        }
    }
}

/// A track without its identifier: kind, name, clips and flags.
pub struct TrackShape {
    pub kind: TrackKind,
    pub name: Seq<char>,
    pub clips: Seq<Clip>,
    pub muted: bool,
    pub locked: bool,
}

/// The shape of a track.
pub open spec fn shape_of(t: TrackView) -> TrackShape {
    TrackShape { kind: t.kind, name: t.name, clips: t.clips, muted: t.muted, locked: t.locked }
}

/// The track a record describes (without its identifier), or the first fault:
/// the kind is read first, then the clips.
pub open spec fn track_record_outcome(r: TrackRecord) -> Result<TrackShape, RecordFault> {
    match kind_from_name(r.kind@) {
        None => Err(RecordFault::Format("Unknown track kind: "@ + r.kind@)),
        Some(k) => match clips_outcome(r.clips@) {
            Err(f) => Err(f),
            Ok(cs) => Ok(TrackShape { kind: k, name: r.name@, clips: cs, muted: r.muted, locked: r.locked }),
        },
    }
}

/// The tracks that the records `rs` describe, in order, or the first fault.
pub open spec fn tracks_outcome(rs: Seq<TrackRecord>) -> Result<Seq<TrackShape>, RecordFault>
    decreases rs.len(),
{
    if rs.len() == 0 {
        Ok(Seq::empty())
    } else {
        match tracks_outcome(rs.drop_last()) {
            Err(f) => Err(f),
            Ok(ts) => match track_record_outcome(rs.last()) {
                Err(f) => Err(f),
                Ok(t) => Ok(ts.push(t)),
            },
        }
    }
}

/// Once the clips of a prefix fail, all of them fail the same way.
proof fn lemma_clips_outcome_err(rs: Seq<ClipRecord>, n: int)
    requires
        0 <= n <= rs.len(),
        clips_outcome(rs.take(n)) is Err,
    ensures
        clips_outcome(rs) == clips_outcome(rs.take(n)),
    decreases rs.len(),
{
    if n == rs.len() {
        assert(rs.take(n) =~= rs);
    } else {
        assert(rs.drop_last().take(n) =~= rs.take(n));
        lemma_clips_outcome_err(rs.drop_last(), n);
    }
}

/// Once the tracks of a prefix fail, all of them fail the same way.
proof fn lemma_tracks_outcome_err(rs: Seq<TrackRecord>, n: int)
    requires
        0 <= n <= rs.len(),
        tracks_outcome(rs.take(n)) is Err,
    ensures
        tracks_outcome(rs) == tracks_outcome(rs.take(n)),
    decreases rs.len(),
{
    if n == rs.len() {
        assert(rs.take(n) =~= rs);
    } else {
        assert(rs.drop_last().take(n) =~= rs.take(n));
        lemma_tracks_outcome_err(rs.drop_last(), n);
    }
}

/// Builds the message `prefix` followed by `detail`.
fn prefixed(prefix: &str, detail: &str) -> (s: String)
    ensures
        s@ == prefix@ + detail@,
{
    let mut out: Vec<char> = Vec::new();
    push_str(&mut out, prefix);
    push_str(&mut out, detail);
    string_from_chars(&out)
}

/// Rebuilds a clip from its record; fails as `clip_record_outcome` says.
pub fn clip_from_record(r: &ClipRecord) -> (res: Result<Clip, SerializationError>)
    ensures
        match clip_record_outcome(*r) {
            Ok(c) => res == Ok::<Clip, SerializationError>(c),
            Err(f) => res matches Err(e) && error_is_fault(e, f),
        },
{
    let cid = match parse_uuid_text(r.id.as_str()) {
        Ok(v) => v,
        Err(m) => {
            return Err(SerializationError::IncompatibleFormat(prefixed("Invalid clip ID: ", m.as_str())));
        },
    };
    let aid = match parse_uuid_text(r.asset_id.as_str()) {
        Ok(v) => v,
        Err(m) => {
            return Err(SerializationError::IncompatibleFormat(prefixed("Invalid asset ID: ", m.as_str())));
        },
    };
    let id = ClipId::from_u128(cid);
    let asset = AssetId::from_u128(aid);
    let c = Clip::new(
        id,
        asset,
        TimePosition::from_millis(r.position),
        Duration::from_millis(r.duration),
        TimePosition::from_millis(r.source_start),
        TimePosition::from_millis(r.source_end),
    );
    proof {
        ClipId::lemma_with_value(cid, id);
        AssetId::lemma_with_value(aid, asset);
        let m = Clip::make(
            ClipId::with_value(cid),
            AssetId::with_value(aid),
            r.position as nat,
            r.duration as nat,
            r.source_start as nat,
            r.source_end as nat,
        );
        Clip::lemma_make(
            ClipId::with_value(cid),
            AssetId::with_value(aid),
            r.position as nat,
            r.duration as nat,
            r.source_start as nat,
            r.source_end as nat,
        );
        Clip::lemma_ext_equal(c, m);
    }
    Ok(c)
}

/// Rebuilds a track from its record, under a new random identifier; fails as
/// `track_record_outcome` says.
pub fn track_from_record(r: &TrackRecord) -> (res: Result<Track, SerializationError>)
    ensures
        match track_record_outcome(*r) {
            Ok(s) => res matches Ok(t) && shape_of(t@) == s,
            Err(f) => res matches Err(e) && error_is_fault(e, f),
        },
{
    let kind = match track_kind_from_name(r.kind.as_str()) {
        Ok(k) => k,
        Err(e) => {
            return Err(e);
        },
    };
    let mut track = Track::from_parts(TrackId::new(), kind, text_of(r.name.as_str()), Vec::new(), r.muted, r.locked);
    let ghost rs = r.clips@;
    assert(rs.take(0) =~= Seq::<ClipRecord>::empty());
    let mut i: usize = 0;
    while i < r.clips.len()
        invariant
            0 <= i <= r.clips.len(),
            rs == r.clips@,
            kind_from_name(r.kind@) == Some(kind),
            track@.kind == kind,
            track@.name == r.name@,
            track@.muted == r.muted,
            track@.locked == r.locked,
            clips_outcome(rs.take(i as int)) == Ok::<Seq<Clip>, RecordFault>(track@.clips),
        decreases r.clips.len() - i,
    {
        let ghost before = track@.clips;
        assert(rs.take(i + 1).drop_last() =~= rs.take(i as int));
        assert(rs.take(i + 1).last() == rs[i as int]);
        let c = match clip_from_record(&r.clips[i]) {
            Ok(c) => c,
            Err(e) => {
                proof {
                    lemma_clips_outcome_err(rs, i + 1);
                }
                return Err(e);
            },
        };
        match track.add_clip(c) {
            Ok(()) => {},
            Err(e) => {
                proof {
                    lemma_clips_outcome_err(rs, i + 1);
                }
                return Err(SerializationError::Timeline(e));
            },
        }
        i = i + 1;
    }
    assert(rs.take(rs.len() as int) =~= rs);
    Ok(track)
}

/// Rebuilds a timeline from the records of its tracks, in order, each track under
/// a new random identifier and with no track relationships; fails with the first
/// fault, as `tracks_outcome` says.
pub fn timeline_from_records(records: &Vec<TrackRecord>) -> (res: Result<Timeline, SerializationError>)
    ensures
        match tracks_outcome(records@) {
            Ok(shapes) => res matches Ok(t) && t@.edges.len() == 0 && t@.tracks.len() == shapes.len()
                && forall|k: int| 0 <= k < shapes.len() ==> #[trigger] shape_of(t@.tracks[k]) == shapes[k],
            Err(f) => res matches Err(e) && error_is_fault(e, f),
        },
{
    let mut timeline = Timeline::new();
    let ghost rs = records@;
    assert(rs.take(0) =~= Seq::<TrackRecord>::empty());
    let mut i: usize = 0;
    while i < records.len()
        invariant
            0 <= i <= records.len(),
            rs == records@,
            timeline@.edges.len() == 0,
            tracks_outcome(rs.take(i as int)) is Ok,
            ({
                let shapes = tracks_outcome(rs.take(i as int))->Ok_0;
                &&& timeline@.tracks.len() == shapes.len()
                &&& forall|k: int| 0 <= k < shapes.len() ==> #[trigger] shape_of(timeline@.tracks[k]) == shapes[k]
            }),
        decreases records.len() - i,
    {
        let ghost shapes = tracks_outcome(rs.take(i as int))->Ok_0;
        assert(rs.take(i + 1).drop_last() =~= rs.take(i as int));
        assert(rs.take(i + 1).last() == rs[i as int]);
        let track = match track_from_record(&records[i]) {
            Ok(t) => t,
            Err(e) => {
                proof {
                    lemma_tracks_outcome_err(rs, i + 1);
                }
                return Err(e);
            },
        };
        let ghost tv = track@;
        timeline.push_track(track);
        proof {
            let next = tracks_outcome(rs.take(i + 1))->Ok_0;
            assert(next == shapes.push(shape_of(tv)));
            assert forall|k: int| 0 <= k < next.len() implies #[trigger] shape_of(timeline@.tracks[k]) == next[k] by {
                if k < shapes.len() {
                    assert(next[k] == shapes[k]);
                }
            }
        }
        i = i + 1;
    }
    assert(rs.take(rs.len() as int) =~= rs);
    Ok(timeline)
}

/// An asset as written to a project file: identifier as UUID text, duration in
/// milliseconds.
#[derive(Debug, Clone)]
pub struct AssetRecord {
    /// Identifier of the asset.
    pub id: String,
    /// Path of the asset's file.
    pub path: String,
    /// Duration of the asset.
    pub duration: Option<u64>,
    /// Width and height of the asset.
    pub dimensions: Option<(u32, u32)>,
    /// Kind of the asset.
    pub asset_type: String,
    /// Further named values, as (name, value) pairs.
    pub extra: Vec<(String, String)>,
}

/// The duration of an asset in milliseconds, if it has one.
pub open spec fn duration_millis(d: Option<Duration>) -> Option<u64> {
    match d {
        Some(x) => Some(x@ as u64),
        None => None,
    }
}

/// Whether the record `r` describes the asset `a` apart from its identifier.
pub open spec fn asset_parts_match(r: AssetRecord, a: AssetReference) -> bool {
    &&& r.path@ == a.path@
    &&& duration_millis(a.metadata.duration) == r.duration
    &&& r.dimensions == a.metadata.dimensions
    &&& r.asset_type@ == a.metadata.asset_type@
    &&& pairs_view(r.extra@) == pairs_view(a.metadata.extra@)
}

/// Rebuilds an asset from its record; fails with `IncompatibleFormat` and the
/// message `Invalid asset ID: <reason>` when the identifier is not a UUID.
pub fn asset_from_record(r: &AssetRecord) -> (res: Result<AssetReference, SerializationError>)
    ensures
        match uuid_parse(r.id@) {
            Some(v) => res matches Ok(a) && a.id.value() == v && asset_parts_match(*r, a),
            None => res matches Err(SerializationError::IncompatibleFormat(m)) && m@ == "Invalid asset ID: "@
                + uuid_error_text(r.id@),
        },
{
    let v = match parse_uuid_text(r.id.as_str()) {
        Ok(v) => v,
        Err(m) => {
            return Err(SerializationError::IncompatibleFormat(prefixed("Invalid asset ID: ", m.as_str())));
        },
    };
    let duration = match r.duration {
        Some(ms) => Some(Duration::from_millis(ms)),
        None => None,
    };
    let metadata = AssetMetadata {
        duration,
        dimensions: r.dimensions,
        asset_type: text_of(r.asset_type.as_str()),
        extra: copy_pairs(&r.extra),
    };
    Ok(AssetReference { id: AssetId::from_u128(v), path: text_of(r.path.as_str()), metadata })
}

/// The record of an asset.
pub fn asset_record(a: &AssetReference) -> (r: AssetRecord)
    ensures
        r.id@ == uuid_text(a.id.value()),
        uuid_parse(r.id@) == Some(a.id.value()),
        asset_parts_match(r, *a),
{
    let duration = match a.metadata.duration {
        Some(d) => Some(d.as_millis()),
        None => None,
    };
    AssetRecord {
        id: a.id.to_string(),
        path: text_of(a.path.as_str()),
        duration,
        dimensions: a.metadata.dimensions,
        asset_type: text_of(a.metadata.asset_type.as_str()),
        extra: copy_pairs(&a.metadata.extra),
    }
}

/// What `chrono::DateTime::from_timestamp_millis(ms)` followed by
/// `to_rfc3339_opts(SecondsFormat::AutoSi, true)` gives: the RFC 3339 text of the
/// instant `ms` milliseconds after the Unix epoch in UTC, written with `Z` and only
/// the fractional digits it needs, or nothing when `ms` is outside the range of
/// instants chrono represents.
pub uninterp spec fn rfc3339_text(ms: i64) -> Option<Seq<char>>;

/// Calls `chrono::DateTime::from_timestamp_millis` and, when it gives an instant,
/// its `to_rfc3339_opts(SecondsFormat::AutoSi, true)`. The contract claims only that the outcome is the one
/// `rfc3339_text` names.
#[verifier::external_body]
fn format_rfc3339(ms: i64) -> (r: Option<String>)
    ensures
        r is Some <==> rfc3339_text(ms) is Some,
        r matches Some(s) ==> rfc3339_text(ms) == Some(s@),
{
    chrono::DateTime::from_timestamp_millis(ms).map(|d| d.to_rfc3339_opts(chrono::SecondsFormat::AutoSi, true))
}

/// What `chrono::DateTime::parse_from_rfc3339` gives for a text, as milliseconds
/// since the Unix epoch (`with_timezone(&Utc)`, then `timestamp_millis`), or
/// nothing when it refuses the text.
pub uninterp spec fn rfc3339_millis(s: Seq<char>) -> Option<i64>;

/// The text of the error `chrono::DateTime::parse_from_rfc3339` gives for a text
/// it refuses (the error's `Display`).
pub uninterp spec fn rfc3339_error_text(s: Seq<char>) -> Seq<char>;

/// Calls `chrono::DateTime::parse_from_rfc3339` and takes the instant to
/// milliseconds since the Unix epoch, or returns the `Display` text of the error.
/// The contract claims only that the outcome is the one `rfc3339_millis` and
/// `rfc3339_error_text` name.
#[verifier::external_body]
fn parse_rfc3339(s: &str) -> (r: Result<i64, String>)
    ensures
        r is Ok <==> rfc3339_millis(s@) is Some,
        r matches Ok(v) ==> rfc3339_millis(s@) == Some(v),
        r matches Err(m) ==> m@ == rfc3339_error_text(s@),
{
    chrono::DateTime::parse_from_rfc3339(s)
        .map(|d| d.with_timezone(&chrono::Utc).timestamp_millis())
        .map_err(|e| e.to_string())
}

/// Project metadata as written to a project file: timestamps as RFC 3339 text.
#[derive(Debug, Clone)]
pub struct MetadataRecord {
    /// Name of the project.
    pub name: String,
    /// When the project was created.
    pub created_at: String,
    /// When the project was last changed.
    pub modified_at: String,
    /// Description of the project.
    pub description: String,
    /// Tags of the project.
    pub tags: Vec<String>,
}

/// A copy of a list of texts.
fn copy_texts(v: &Vec<String>) -> (r: Vec<String>)
    ensures
        strings_view(r@) == strings_view(v@),
{
    let mut r: Vec<String> = Vec::new();
    let mut i: usize = 0;
    while i < v.len()
        invariant
            0 <= i <= v.len(),
            strings_view(r@) == strings_view(v@).take(i as int),
        decreases v.len() - i,
    {
        push_text(&mut r, v[i].as_str());
        assert(strings_view(v@).take(i + 1) =~= strings_view(v@).take(i as int).push(v@[i as int]@));
        i = i + 1;
    }
    assert(strings_view(v@).take(v.len() as int) =~= strings_view(v@));
    r
}

/// The record of project metadata, or nothing when a timestamp is outside the
/// range of instants chrono represents.
pub fn metadata_record(m: &ProjectMetadata) -> (r: Option<MetadataRecord>)
    ensures
        r is Some <==> rfc3339_text(m.created_at) is Some && rfc3339_text(m.modified_at) is Some,
        r matches Some(rec) ==> rec.name@ == m.name@ && rfc3339_text(m.created_at) == Some(rec.created_at@)
            && rfc3339_text(m.modified_at) == Some(rec.modified_at@) && rec.description@ == m.description@
            && strings_view(rec.tags@) == strings_view(m.tags@),
{
    let created_at = match format_rfc3339(m.created_at) {
        Some(s) => s,
        None => return None,
    };
    let modified_at = match format_rfc3339(m.modified_at) {
        Some(s) => s,
        None => return None,
    };
    Some(
        MetadataRecord {
            name: text_of(m.name.as_str()),
            created_at,
            modified_at,
            description: text_of(m.description.as_str()),
            tags: copy_texts(&m.tags),
        },
    )
}

/// Rebuilds project metadata from its record; fails with `IncompatibleFormat` and
/// the parser's message when a timestamp is not RFC 3339 text (the creation time
/// is read first).
pub fn metadata_from_record(r: &MetadataRecord) -> (res: Result<ProjectMetadata, SerializationError>)
    ensures
        rfc3339_millis(r.created_at@) is None ==> (res matches Err(SerializationError::IncompatibleFormat(m))
            && m@ == rfc3339_error_text(r.created_at@)),
        rfc3339_millis(r.created_at@) is Some && rfc3339_millis(r.modified_at@) is None ==> (res matches Err(
            SerializationError::IncompatibleFormat(m),
        ) && m@ == rfc3339_error_text(r.modified_at@)),
        rfc3339_millis(r.created_at@) is Some && rfc3339_millis(r.modified_at@) is Some ==> (res matches Ok(
            pm,
        ) && pm.name@ == r.name@ && rfc3339_millis(r.created_at@) == Some(pm.created_at)
            && rfc3339_millis(r.modified_at@) == Some(pm.modified_at) && pm.description@ == r.description@
            && strings_view(pm.tags@) == strings_view(r.tags@)),
{
    let created_at = match parse_rfc3339(r.created_at.as_str()) {
        Ok(v) => v,
        Err(m) => return Err(SerializationError::IncompatibleFormat(m)),
    };
    let modified_at = match parse_rfc3339(r.modified_at.as_str()) {
        Ok(v) => v,
        Err(m) => return Err(SerializationError::IncompatibleFormat(m)),
    };
    Ok(
        ProjectMetadata {
            name: text_of(r.name.as_str()),
            created_at,
            modified_at,
            description: text_of(r.description.as_str()),
            tags: copy_texts(&r.tags),
        },
    )
}

/// A relationship between two tracks as written to a project file: the
/// identifiers as UUID text.
#[derive(Debug, Clone)]
pub struct RelationshipRecord {
    /// Identifier of the source track.
    pub source: String,
    /// Identifier of the target track.
    pub target: String,
    /// How the target depends on the source.
    pub relationship: TrackRelationship,
}

/// The records of all relationships kept by `manager`, in the order they were
/// added.
pub fn relationship_records(manager: &MultiTrackManager) -> (r: Vec<RelationshipRecord>)
    ensures
        r@.len() == manager@.len(),
        forall|k: int|
            0 <= k < r@.len() ==> {
                let e = #[trigger] manager@[k];
                &&& r@[k].source@ == uuid_text(e.0.value())
                &&& r@[k].target@ == uuid_text(e.1.value())
                &&& r@[k].relationship == e.2
            },
{
    let edges = manager.get_all_relationships();
    let mut records: Vec<RelationshipRecord> = Vec::new();
    let mut i: usize = 0;
    while i < edges.len()
        invariant
            0 <= i <= edges.len(),
            edges@ == manager@,
            records@.len() == i,
            forall|k: int|
                0 <= k < i ==> {
                    let e = #[trigger] manager@[k];
                    &&& records@[k].source@ == uuid_text(e.0.value())
                    &&& records@[k].target@ == uuid_text(e.1.value())
                    &&& records@[k].relationship == e.2
                },
        decreases edges.len() - i,
    {
        let e = edges[i];
        records.push(RelationshipRecord { source: e.0.to_string(), target: e.1.to_string(), relationship: e.2 });
        i = i + 1;
    }
    records
}

/// Reading back the record of an asset gives back the asset: the same
/// identifier, path, duration, dimensions, kind and named values.
pub proof fn lemma_asset_round_trip(a: AssetReference, r: AssetRecord, b: AssetReference)
    requires
        uuid_parse(r.id@) == Some(a.id.value()),
        asset_parts_match(r, a),
        uuid_parse(r.id@) == Some(b.id.value()),
        asset_parts_match(r, b),
    ensures
        b.id == a.id,
        b.path@ == a.path@,
        b.metadata.duration == a.metadata.duration,
        b.metadata.dimensions == a.metadata.dimensions,
        b.metadata.asset_type@ == a.metadata.asset_type@,
        pairs_view(b.metadata.extra@) == pairs_view(a.metadata.extra@),
{
    AssetId::lemma_with_value(a.id.value(), a.id);
    AssetId::lemma_with_value(a.id.value(), b.id);
    match (a.metadata.duration, b.metadata.duration) {
        (Some(x), Some(y)) => {
            lemma_view_bounds(x, position_ms(0));
            lemma_view_bounds(y, position_ms(0));
            Duration::lemma_view_eq(x, y);
        },
        _ => {},
    }
}

/// Whether the record `r` describes the clip `c`: the identifiers as UUID text and
/// the times in milliseconds.
pub open spec fn clip_record_of(r: ClipRecord, c: Clip) -> bool {
    &&& r.id@ == uuid_text(c.cid().value())
    &&& uuid_parse(r.id@) == Some(c.cid().value())
    &&& r.asset_id@ == uuid_text(c.asset().value())
    &&& uuid_parse(r.asset_id@) == Some(c.asset().value())
    &&& r.position == c.pos()
    &&& r.duration == c.dur()
    &&& r.source_start == c.src_start()
    &&& r.source_end == c.src_end()
}

/// Whether the record `r` describes the track `t`.
pub open spec fn track_record_of(r: TrackRecord, t: TrackView) -> bool {
    &&& r.id@ == uuid_text(t.id.value())
    &&& r.kind@ == kind_name(t.kind)
    &&& r.name@ == t.name
    &&& r.muted == t.muted
    &&& r.locked == t.locked
    &&& r.clips@.len() == t.clips.len()
    &&& forall|k: int| 0 <= k < t.clips.len() ==> #[trigger] clip_record_of(r.clips@[k], t.clips[k])
}

/// The record of a clip.
pub fn clip_record(c: &Clip) -> (r: ClipRecord)
    ensures
        clip_record_of(r, *c),
{
    ClipRecord {
        id: c.id().to_string(),
        asset_id: c.asset_id().to_string(),
        position: c.position().as_millis(),
        duration: c.duration().as_millis(),
        source_start: c.source_start().as_millis(),
        source_end: c.source_end().as_millis(),
    }
}

/// The record of a track.
pub fn track_record(t: &Track) -> (r: TrackRecord)
    ensures
        track_record_of(r, t@),
{
    let clips = t.get_clips();
    let mut records: Vec<ClipRecord> = Vec::new();
    let mut i: usize = 0;
    while i < clips.len()
        invariant
            0 <= i <= clips.len(),
            clips@ == t@.clips,
            records@.len() == i,
            forall|k: int| 0 <= k < i ==> #[trigger] clip_record_of(records@[k], clips@[k]),
        decreases clips.len() - i,
    {
        records.push(clip_record(&clips[i]));
        i = i + 1;
    }
    TrackRecord {
        id: t.id().to_string(),
        kind: text_of(t.kind().as_str()),
        name: text_of(t.name()),
        clips: records,
        muted: t.is_muted(),
        locked: t.is_locked(),
    }
}

/// The records of the tracks of a timeline, in order.
pub fn timeline_records(timeline: &Timeline) -> (r: Vec<TrackRecord>)
    ensures
        r@.len() == timeline@.tracks.len(),
        forall|k: int| 0 <= k < r@.len() ==> #[trigger] track_record_of(r@[k], timeline@.tracks[k]),
{
    let tracks = timeline.get_tracks();
    let mut records: Vec<TrackRecord> = Vec::new();
    let mut i: usize = 0;
    while i < tracks.len()
        invariant
            0 <= i <= tracks.len(),
            track_views(tracks@) == timeline@.tracks,
            records@.len() == i,
            forall|k: int| 0 <= k < i ==> #[trigger] track_record_of(records@[k], timeline@.tracks[k]),
        decreases tracks.len() - i,
    {
        records.push(track_record(&tracks[i]));
        assert(timeline@.tracks[i as int] == tracks@[i as int]@);
        i = i + 1;
    }
    records
}

/// Whether the clips of a track are ordered by position and free of overlaps, as
/// adding clips one by one keeps them.
pub open spec fn tidy_clips(s: Seq<Clip>) -> bool {
    sorted_by_position(s) && no_overlaps(s)
}

/// The name of a track kind reads back as that kind.
pub proof fn lemma_kind_name_read(k: TrackKind)
    ensures
        kind_from_name(kind_name(k)) == Some(k),
{
    reveal_strlit("Video");
    reveal_strlit("Audio");
    reveal_strlit("Subtitle");
    match k {
        TrackKind::Video => {},
        TrackKind::Audio => {
            assert("Audio"@ != "Video"@) by {
                assert("Audio"@[0] != "Video"@[0]);
            }
        },
        TrackKind::Subtitle => {
            assert("Subtitle"@ != "Video"@) by {
                assert("Subtitle"@[0] != "Video"@[0]);
            }
            assert("Subtitle"@ != "Audio"@) by {
                assert("Subtitle"@[0] != "Audio"@[0]);
            }
        },
    }
}

/// Reading back the records of tidy clips adds them one by one and gives back
/// the same clips.
proof fn lemma_clips_round_trip(rs: Seq<ClipRecord>, cs: Seq<Clip>)
    requires
        rs.len() == cs.len(),
        forall|k: int| 0 <= k < cs.len() ==> #[trigger] clip_record_of(rs[k], cs[k]),
        tidy_clips(cs),
    ensures
        clips_outcome(rs) == Ok::<Seq<Clip>, RecordFault>(cs),
    decreases rs.len(),
{
    if rs.len() > 0 {
        let n = rs.len() - 1;
        let front = cs.drop_last();
        assert forall|k: int| 0 <= k < front.len() implies #[trigger] clip_record_of(rs.drop_last()[k], front[k]) by {
            assert(rs.drop_last()[k] == rs[k]);
            assert(front[k] == cs[k]);
        }
        assert(tidy_clips(front)) by {
            assert forall|i: int, j: int| 0 <= i <= j < front.len() implies front[i].pos() <= front[j].pos() by {
                assert(front[i] == cs[i] && front[j] == cs[j]);
            }
            assert forall|i: int, j: int| 0 <= i < j < front.len() implies !clips_overlap(
                front[i],
                front[j],
            ) by {
                assert(front[i] == cs[i] && front[j] == cs[j]);
            }
        }
        lemma_clips_round_trip(rs.drop_last(), front);
        let r = rs.last();
        let c = cs.last();
        assert(clip_record_of(rs[n], cs[n]));
        ClipId::lemma_with_value(c.cid().value(), c.cid());
        AssetId::lemma_with_value(c.asset().value(), c.asset());
        Clip::lemma_make_parts(c);
        assert(clip_record_outcome(r) == Ok::<Clip, RecordFault>(c));
        assert(!overlaps_any(front, c)) by {
            if overlaps_any(front, c) {
                let i = choose|i: int| 0 <= i < front.len() && clips_overlap(
                    #[trigger] front[i],
                    c,
                );
                assert(front[i] == cs[i]);
            }
        }
        lemma_sort_of_sorted(front);
        assert(front.push(c) =~= cs);
        lemma_sort_of_sorted(cs);
        assert(rs.drop_last().len() == front.len());
        assert(clips_outcome(rs.drop_last()) == Ok::<Seq<Clip>, RecordFault>(front));
        assert(sort_by_position(front.push(c)) == cs);
    } else {
        assert(cs =~= Seq::<Clip>::empty());
    }
}

/// Reading back the records of the tracks of a timeline whose tracks hold tidy
/// clips gives back every track's kind, name, clips and flags, in order.
pub proof fn lemma_records_round_trip(rs: Seq<TrackRecord>, ts: Seq<TrackView>)
    requires
        rs.len() == ts.len(),
        forall|k: int| 0 <= k < ts.len() ==> #[trigger] track_record_of(rs[k], ts[k]),
        forall|k: int| 0 <= k < ts.len() ==> #[trigger] tidy_clips(ts[k].clips),
    ensures
        tracks_outcome(rs) == Ok::<Seq<TrackShape>, RecordFault>(ts.map_values(|t: TrackView| shape_of(t))),
    decreases rs.len(),
{
    if rs.len() > 0 {
        let n = rs.len() - 1;
        assert forall|k: int| 0 <= k < n implies #[trigger] track_record_of(rs.drop_last()[k], ts.drop_last()[k]) by {
            assert(rs.drop_last()[k] == rs[k]);
            assert(ts.drop_last()[k] == ts[k]);
            assert(track_record_of(rs[k], ts[k]));
        }
        assert forall|k: int| 0 <= k < n implies #[trigger] tidy_clips(ts.drop_last()[k].clips) by {
            assert(ts.drop_last()[k] == ts[k]);
            assert(tidy_clips(ts[k].clips));
        }
        lemma_records_round_trip(rs.drop_last(), ts.drop_last());
        let r = rs[n];
        let t = ts[n];
        assert(track_record_of(r, t));
        assert(tidy_clips(t.clips));
        lemma_clips_round_trip(r.clips@, t.clips);
        lemma_kind_name_read(t.kind);
        assert(track_record_outcome(r) == Ok::<TrackShape, RecordFault>(shape_of(t)));
        assert(ts.map_values(|t: TrackView| shape_of(t)) =~= ts.drop_last().map_values(|t: TrackView| shape_of(t)).push(
            shape_of(t),
        ));
    } else {
        assert(ts.map_values(|t: TrackView| shape_of(t)) =~= Seq::<TrackShape>::empty());
    }
}

} // verus!
