//! Video editing projects: identifiers, assets, timelines and rendering settings.

pub mod ids;
pub mod rendering;
pub mod serialization;
pub mod timeline;

pub use ids::{AssetId, ClipId, IdParseError, ProjectId, TrackId};

use vstd::prelude::*;
use crate::project::ids::uuid_text;
use crate::project::rendering::error::{render_error_text, RenderError};
use crate::project::timeline::{timeline_error_text, track_views, Timeline, TimelineError, Track, TrackView};
use crate::utility::text::{
    decimal, decimal_string, push_str, string_from_chars, strings_view, text_eq, text_of,
};
use crate::utility::time::Duration;

verus! {

/// What is known of an asset: its duration, its size in pixels, its kind
/// (`video`, `audio`, `image`, ...) and further named values.
#[derive(Debug, Clone)]
pub struct AssetMetadata {
    /// Duration of the asset.
    pub duration: Option<Duration>,
    /// Width and height of the asset.
    pub dimensions: Option<(u32, u32)>,
    /// Kind of the asset.
    pub asset_type: String,
    /// Further named values, as (name, value) pairs.
    pub extra: Vec<(String, String)>,
}

/// An asset of a project: its identifier, the path of its file and its metadata.
#[derive(Debug, Clone)]
pub struct AssetReference {
    /// Identifier of the asset.
    pub id: AssetId,
    /// Path of the asset's file.
    pub path: String,
    /// Metadata of the asset.
    pub metadata: AssetMetadata,
}

/// Errors of project operations.
#[derive(Debug, Clone)]
pub enum ProjectError {
    /// A timeline operation failed.
    Timeline(TimelineError),
    /// Reading or writing a file failed; the message says how.
    Io(String),
    /// Reading or writing the project file failed; the message says how.
    Serialization(String),
    /// No asset of the project has the identifier.
    AssetNotFound(AssetId),
    /// Rendering failed.
    Rendering(RenderError),
}

/// The message of a project error.
pub open spec fn project_error_text(e: ProjectError) -> Seq<char> {
    match e {
        ProjectError::Timeline(t) => "Timeline error: "@ + timeline_error_text(t),
        ProjectError::Io(m) => "I/O error: "@ + m@,
        ProjectError::Serialization(m) => "Serialization error: "@ + m@,
        ProjectError::AssetNotFound(id) => "Asset not found: "@ + uuid_text(id.value()),
        ProjectError::Rendering(r) => "Rendering error: "@ + render_error_text(r),
    }
}

impl ProjectError {
    /// The message of the error.
    pub fn message(&self) -> (s: String)
        ensures
            s@ == project_error_text(*self),
    {
        let mut out: Vec<char> = Vec::new();
        match self {
            ProjectError::Timeline(t) => {
                push_str(&mut out, "Timeline error: ");
                push_str(&mut out, t.message().as_str());
            },
            ProjectError::Io(m) => {
                push_str(&mut out, "I/O error: ");
                push_str(&mut out, m.as_str());
            },
            ProjectError::Serialization(m) => {
                push_str(&mut out, "Serialization error: ");
                push_str(&mut out, m.as_str());
            },
            ProjectError::AssetNotFound(id) => {
                push_str(&mut out, "Asset not found: ");
                push_str(&mut out, id.to_string().as_str());
            },
            ProjectError::Rendering(r) => {
                push_str(&mut out, "Rendering error: ");
                push_str(&mut out, r.message().as_str());
            },
        }
        string_from_chars(&out)
    }
}

/// Calls `chrono::Utc::now` and returns its `timestamp_millis`: the current time in
/// milliseconds since the Unix epoch. The value comes from the system clock, so the
/// contract claims only what holds of every outcome: `Utc::now` measures the time
/// since the epoch (it panics when the clock is set before it), so the value is not
/// negative.
#[verifier::external_body]
fn current_millis() -> (ms: i64)
    ensures
        ms >= 0,
{
    chrono::Utc::now().timestamp_millis()
}

/// Name, timestamps (milliseconds since the Unix epoch, UTC), description and tags
/// of a project.
#[derive(Debug, Clone)]
pub struct ProjectMetadata {
    /// Name of the project.
    pub name: String,
    /// When the project was created.
    pub created_at: i64,
    /// When the project was last changed.
    pub modified_at: i64,
    /// Description of the project.
    pub description: String,
    /// Tags of the project.
    pub tags: Vec<String>,
}

/// Whether `b` is `a` with only its modification time changed.
pub open spec fn only_modified_changed(a: ProjectMetadata, b: ProjectMetadata) -> bool {
    &&& b.name@ == a.name@
    &&& b.created_at == a.created_at
    &&& b.description@ == a.description@
    &&& strings_view(b.tags@) == strings_view(a.tags@)
    &&& b.modified_at >= 0
}

impl ProjectMetadata {
    /// Metadata of a project named `name`, created now, with no description and no tags.
    pub fn new(name: &str) -> (m: Self)
        ensures
            m.name@ == name@,
            m.created_at == m.modified_at,
            m.created_at >= 0,
            m.description@.len() == 0,
            m.tags@.len() == 0,
    {
        let now = current_millis();
        ProjectMetadata {
            name: text_of(name),
            created_at: now,
            modified_at: now,
            description: String::new(),
            tags: Vec::new(),
        }
    }

    /// Sets the modification time to now.
    pub fn update_modified(&mut self)
        ensures
            only_modified_changed(*old(self), *final(self)),
    {
        self.modified_at = current_millis();
    }
}

/// Index of the first asset of `s` with identifier `id`, or -1.
pub open spec fn asset_index(s: Seq<AssetReference>, id: AssetId) -> int
    decreases s.len(),
{
    if s.len() == 0 {
        -1
    } else {
        let k = asset_index(s.drop_last(), id);
        if k >= 0 {
            k
        } else if s.last().id == id {
            s.len() - 1
        } else {
            -1
        }
    }
}

/// `asset_index` is the first index holding `id`, and -1 when none does.
pub proof fn lemma_asset_index(s: Seq<AssetReference>, id: AssetId)
    ensures
        -1 <= asset_index(s, id) < s.len(),
        asset_index(s, id) >= 0 ==> s[asset_index(s, id)].id == id,
        forall|j: int| 0 <= j < s.len() && (asset_index(s, id) < 0 || j < asset_index(s, id))
            ==> #[trigger] s[j].id != id,
    decreases s.len(),
{
    if s.len() > 0 {
        lemma_asset_index(s.drop_last(), id);
        assert forall|j: int| 0 <= j < s.len() && (asset_index(s, id) < 0 || j < asset_index(s, id))
            implies #[trigger] s[j].id != id by {
            if j < s.len() - 1 {
                assert(s[j] == s.drop_last()[j]);
            }
        }
    }
}

/// An asset added under an identifier that no asset has yet is the one found by
/// that identifier: it sits at the end.
pub proof fn lemma_added_asset_found(s: Seq<AssetReference>, a: AssetReference)
    requires
        asset_index(s, a.id) == -1,
    ensures
        asset_index(s.push(a), a.id) == s.len(),
{
    assert(s.push(a).drop_last() =~= s);
}

/// Removing the asset just added under an identifier that no asset had gives
/// back the assets there were before.
pub proof fn lemma_add_then_remove_asset(s: Seq<AssetReference>, a: AssetReference)
    requires
        asset_index(s, a.id) == -1,
    ensures
        s.push(a).remove(asset_index(s.push(a), a.id)) == s,
{
    lemma_added_asset_found(s, a);
    assert(s.push(a).remove(s.len() as int) =~= s);
}

/// The (name, value) texts of a list of pairs.
pub open spec fn pairs_view(s: Seq<(String, String)>) -> Seq<(Seq<char>, Seq<char>)> {
    s.map_values(|p: (String, String)| (p.0@, p.1@))
}

/// Index of the first pair of `s` named `k`, or -1.
pub open spec fn entry_index(s: Seq<(Seq<char>, Seq<char>)>, k: Seq<char>) -> int
    decreases s.len(),
{
    if s.len() == 0 {
        -1
    } else {
        let i = entry_index(s.drop_last(), k);
        if i >= 0 {
            i
        } else if s.last().0 == k {
            s.len() - 1
        } else {
            -1
        }
    }
}

/// `entry_index` is the first index named `k`, and -1 when none is.
pub proof fn lemma_entry_index(s: Seq<(Seq<char>, Seq<char>)>, k: Seq<char>)
    ensures
        -1 <= entry_index(s, k) < s.len(),
        entry_index(s, k) >= 0 ==> s[entry_index(s, k)].0 == k,
        forall|j: int| 0 <= j < s.len() && (entry_index(s, k) < 0 || j < entry_index(s, k))
            ==> #[trigger] s[j].0 != k,
    decreases s.len(),
{
    if s.len() > 0 {
        lemma_entry_index(s.drop_last(), k);
        assert forall|j: int| 0 <= j < s.len() && (entry_index(s, k) < 0 || j < entry_index(s, k))
            implies #[trigger] s[j].0 != k by {
            if j < s.len() - 1 {
                assert(s[j] == s.drop_last()[j]);
            }
        }
    }
}

/// `s` with the value named `k` set to `v`: the first pair named `k` gets the new
/// value, or the pair is added at the end when none is named `k`.
pub open spec fn with_entry(s: Seq<(Seq<char>, Seq<char>)>, k: Seq<char>, v: Seq<char>) -> Seq<
    (Seq<char>, Seq<char>),
> {
    let i = entry_index(s, k);
    if i >= 0 {
        s.update(i, (k, v))
    } else {
        s.push((k, v))
    }
}

/// Sets the value named `k` in `m` to `v`.
pub fn set_entry(m: &mut Vec<(String, String)>, k: &str, v: String)
    ensures
        pairs_view(final(m)@) == with_entry(pairs_view(old(m)@), k@, v@),
{
    let ghost s = pairs_view(m@);
    proof {
        lemma_entry_index(s, k@);
    }
    let mut i: usize = 0;
    while i < m.len()
        invariant
            0 <= i <= m.len(),
            m@ == old(m)@,
            s == pairs_view(m@),
            forall|j: int| 0 <= j < i ==> #[trigger] s[j].0 != k@,
        decreases m.len() - i,
    {
        if text_eq(m[i].0.as_str(), k) {
            proof {
                lemma_entry_index(s, k@);
                let e = entry_index(s, k@);
                assert(s[i as int].0 == k@);
                if e < 0 || e > i {
                    assert(s[i as int].0 != k@);
                }
                if e >= 0 && e < i {
                    assert(s[e].0 == k@);
                }
            }
            m.set(i, (text_of(k), v));
            assert(pairs_view(m@) =~= s.update(i as int, (k@, v@)));
            return;
        }
        assert(s[i as int].0 != k@);
        i = i + 1;
    }
    proof {
        lemma_entry_index(s, k@);
        let e = entry_index(s, k@);
        if e >= 0 {
            assert(s[e].0 == k@);
        }
    }
    m.push((text_of(k), v));
    assert(pairs_view(m@) =~= s.push((k@, v@)));
}

/// The number of clips on the tracks `ts`.
pub open spec fn clip_total(ts: Seq<TrackView>) -> nat
    decreases ts.len(),
{
    if ts.len() == 0 {
        0
    } else {
        clip_total(ts.drop_last()) + ts.last().clips.len()
    }
}

/// The largest number of tracks of a timeline that is not complex.
pub const COMPLEX_THRESHOLD_TRACKS: usize = 4;

/// The largest number of clips of a timeline that is not complex.
pub const COMPLEX_THRESHOLD_CLIPS: usize = 20;

/// Whether a timeline with tracks `ts` is complex: it has more than four tracks or
/// more than twenty clips.
pub open spec fn is_complex_timeline(ts: Seq<TrackView>) -> bool {
    ts.len() > COMPLEX_THRESHOLD_TRACKS || clip_total(ts) > COMPLEX_THRESHOLD_CLIPS
}

/// The metadata `m` with the analysis of a complex timeline with tracks `ts`
/// recorded: `is_complex_timeline`, `track_count` and `clip_count`.
pub open spec fn complexity_recorded(m: Seq<(Seq<char>, Seq<char>)>, ts: Seq<TrackView>) -> Seq<
    (Seq<char>, Seq<char>),
> {
    with_entry(
        with_entry(
            with_entry(m, "is_complex_timeline"@, "true"@),
            "track_count"@,
            decimal(ts.len()),
        ),
        "clip_count"@,
        decimal(clip_total(ts)),
    )
}

/// A video editing project: its name, timeline, assets, named metadata values and
/// project metadata.
#[derive(Debug)]
pub struct Project {
    /// Name of the project.
    pub name: String,
    /// Timeline of the project.
    pub timeline: Timeline,
    /// Assets used in the project.
    pub assets: Vec<AssetReference>,
    /// Named metadata values, as (name, value) pairs.
    pub metadata: Vec<(String, String)>,
    /// Project metadata.
    pub project_metadata: ProjectMetadata,
}

impl Project {
    /// A new project named `name`: an empty timeline, no assets and no metadata values.
    pub fn new(name: &str) -> (p: Self)
        ensures
            p.name@ == name@,
            p.timeline@.tracks.len() == 0,
            p.timeline@.edges.len() == 0,
            p.assets@.len() == 0,
            p.metadata@.len() == 0,
            p.project_metadata.name@ == name@,
            p.project_metadata.created_at == p.project_metadata.modified_at,
            p.project_metadata.description@.len() == 0,
            p.project_metadata.tags@.len() == 0,
    {
        Project {
            name: text_of(name),
            timeline: Timeline::new(),
            assets: Vec::new(),
            metadata: Vec::new(),
            project_metadata: ProjectMetadata::new(name),
        }
    }

    /// Adds an asset with the file `path` and `metadata` under a new random
    /// identifier, which it returns, and updates the modification time.
    pub fn add_asset(&mut self, path: String, metadata: AssetMetadata) -> (id: AssetId)
        ensures
            final(self).assets@ == old(self).assets@.push(
                AssetReference { id, path, metadata },
            ),
            final(self).name@ == old(self).name@,
            final(self).timeline@ == old(self).timeline@,
            final(self).metadata@ == old(self).metadata@,
            only_modified_changed(old(self).project_metadata, final(self).project_metadata),
    {
        let id = AssetId::new();
        let asset = AssetReference { id, path, metadata };
        self.assets.push(asset);
        self.project_metadata.update_modified();
        id
    }

    fn find_asset(&self, id: AssetId) -> (r: Option<usize>)
        ensures
            match r {
                Some(i) => i == asset_index(self.assets@, id) && i < self.assets@.len(),
                None => asset_index(self.assets@, id) == -1,
            },
    {
        proof {
            lemma_asset_index(self.assets@, id);
        }
        let mut i: usize = 0;
        while i < self.assets.len()
            invariant
                0 <= i <= self.assets.len(),
                forall|j: int| 0 <= j < i ==> #[trigger] self.assets@[j].id != id,
            decreases self.assets.len() - i,
        {
            if self.assets[i].id == id {
                proof {
                    lemma_asset_index(self.assets@, id);
                    let k = asset_index(self.assets@, id);
                    if k < 0 || k > i {
                        assert(self.assets@[i as int].id != id);
                    }
                    if k >= 0 && k < i {
                        assert(self.assets@[k].id == id);
                    }
                }
                return Some(i);
            }
            i = i + 1;
        }
        proof {
            lemma_asset_index(self.assets@, id);
            let k = asset_index(self.assets@, id);
            if k >= 0 {
                assert(self.assets@[k].id == id);
            }
        }
        None
    }

    /// The first asset with identifier `id`, if any.
    pub fn get_asset(&self, id: AssetId) -> (r: Option<&AssetReference>)
        ensures
            match r {
                Some(a) => asset_index(self.assets@, id) >= 0 && *a == self.assets@[asset_index(
                    self.assets@,
                    id,
                )],
                None => asset_index(self.assets@, id) == -1,
            },
    {
        match self.find_asset(id) {
            Some(i) => Some(&self.assets[i]),
            None => None,
        }
    }

    /// The first asset with identifier `id`, if any, to change in place.
    pub fn get_asset_mut(&mut self, id: AssetId) -> (r: Option<&mut AssetReference>)
        ensures
            final(self).name == old(self).name,
            final(self).timeline@ == old(self).timeline@,
            final(self).metadata@ == old(self).metadata@,
            final(self).project_metadata == old(self).project_metadata,
            match r {
                Some(a) => {
                    let k = asset_index(old(self).assets@, id);
                    &&& k >= 0
                    &&& *a == old(self).assets@[k]
                    &&& final(self).assets@ == old(self).assets@.update(k, *final(a))
                },
                None => asset_index(old(self).assets@, id) == -1 && final(self).assets@ == old(self).assets@,
            },
    {
        match self.find_asset(id) {
            Some(i) => Some(&mut self.assets[i]),
            None => None,
        }
    }

    /// Removes the first asset with identifier `id` and updates the modification
    /// time; fails with `AssetNotFound` when no asset has that identifier, leaving
    /// the project unchanged.
    pub fn remove_asset(&mut self, id: AssetId) -> (r: Result<(), ProjectError>)
        ensures
            final(self).name@ == old(self).name@,
            final(self).timeline@ == old(self).timeline@,
            final(self).metadata@ == old(self).metadata@,
            r is Ok <==> asset_index(old(self).assets@, id) >= 0,
            r is Ok ==> final(self).assets@ == old(self).assets@.remove(
                asset_index(old(self).assets@, id),
            ) && only_modified_changed(old(self).project_metadata, final(self).project_metadata),
            r is Err ==> r == Err::<(), ProjectError>(ProjectError::AssetNotFound(id))
                && final(self).assets@ == old(self).assets@ && final(self).project_metadata
                == old(self).project_metadata,
    {
        match self.find_asset(id) {
            Some(i) => {
                self.assets.remove(i);
                self.project_metadata.update_modified();
                Ok(())
            },
            None => Err(ProjectError::AssetNotFound(id)),
        }
    }

    /// Analyses the timeline: when it is complex (more than four tracks or more
    /// than twenty clips), records `is_complex_timeline` = `true`, `track_count`
    /// and `clip_count` in the metadata values and updates the modification time;
    /// otherwise changes nothing. Never fails.
    pub fn optimize_timeline(&mut self) -> (r: Result<(), ProjectError>)
        requires
            clip_total(old(self).timeline@.tracks) <= usize::MAX,
        ensures
            r is Ok,
            final(self).name@ == old(self).name@,
            final(self).timeline@ == old(self).timeline@,
            final(self).assets@ == old(self).assets@,
            is_complex_timeline(old(self).timeline@.tracks) ==> pairs_view(final(self).metadata@)
                == complexity_recorded(pairs_view(old(self).metadata@), old(self).timeline@.tracks)
                && only_modified_changed(old(self).project_metadata, final(self).project_metadata),
            !is_complex_timeline(old(self).timeline@.tracks) ==> final(self).metadata@ == old(
                self,
            ).metadata@ && final(self).project_metadata == old(self).project_metadata,
    {
        let tracks = self.timeline.get_tracks();
        let track_count = tracks.len();
        let total_clips = count_clips(tracks);
        let is_complex = track_count > COMPLEX_THRESHOLD_TRACKS || total_clips
            > COMPLEX_THRESHOLD_CLIPS;
        if is_complex {
            let mut metadata = copy_pairs(&self.metadata);
            set_entry(&mut metadata, "is_complex_timeline", text_of("true"));
            set_entry(&mut metadata, "track_count", decimal_string(track_count as u64));
            set_entry(&mut metadata, "clip_count", decimal_string(total_clips as u64));
            self.metadata = metadata;
            self.project_metadata.update_modified();
        }
        Ok(())
    }
}

/// The clip count of a prefix of the tracks is at most that of all of them.
pub proof fn lemma_clip_total_prefix(ts: Seq<TrackView>, n: int)
    requires
        0 <= n <= ts.len(),
    ensures
        clip_total(ts.take(n)) <= clip_total(ts),
    decreases ts.len(),
{
    if n < ts.len() {
        assert(ts.drop_last().take(n) =~= ts.take(n));
        lemma_clip_total_prefix(ts.drop_last(), n);
    } else {
        assert(ts.take(n) =~= ts);
    }
}

/// The number of clips on the tracks `tracks`.
fn count_clips(tracks: &[Track]) -> (n: usize)
    requires
        clip_total(track_views(tracks@)) <= usize::MAX,
    ensures
        n == clip_total(track_views(tracks@)),
{
    let ghost ts = track_views(tracks@);
    let mut total: usize = 0;
    let mut i: usize = 0;
    while i < tracks.len()
        invariant
            0 <= i <= tracks.len(),
            ts == track_views(tracks@),
            clip_total(ts) <= usize::MAX,
            total == clip_total(ts.take(i as int)),
        decreases tracks.len() - i,
    {
        proof {
            assert(ts.take(i + 1).drop_last() =~= ts.take(i as int));
            lemma_clip_total_prefix(ts, i + 1);
            assert(ts[i as int] == tracks@[i as int]@);
        }
        total = total + tracks[i].get_clips().len();
        i = i + 1;
    }
    assert(ts.take(ts.len() as int) =~= ts);
    total
}

/// A copy of a list of (name, value) pairs.
pub fn copy_pairs(v: &Vec<(String, String)>) -> (r: Vec<(String, String)>)
    ensures
        pairs_view(r@) == pairs_view(v@),
{
    let mut r: Vec<(String, String)> = Vec::new();
    let mut i: usize = 0;
    while i < v.len()
        invariant
            0 <= i <= v.len(),
            r@.len() == i,
            forall|j: int| 0 <= j < i ==> #[trigger] r@[j].0@ == v@[j].0@ && r@[j].1@ == v@[j].1@,
        decreases v.len() - i,
    {
        let p = (text_of(v[i].0.as_str()), text_of(v[i].1.as_str()));
        r.push(p);
        i = i + 1;
    }
    assert(pairs_view(r@) =~= pairs_view(v@));
    r
}

} // verus!
