//! How video tracks are blended together.

use vstd::prelude::*;
use crate::project::ids::TrackId;
use crate::project::timeline::{
    max_clip_end, track_index, Clip, Timeline, TimelineView, TrackKind, TrackView,
};
use crate::project::rendering::config::{audio_codec_name, video_codec_name, AudioCodec, VideoCodec};
use crate::utility::text::{decimal_string, push_string, push_text, strings_view, text_of};
use crate::utility::time::Duration;
use crate::utility::text::{
    ascii_lower_seq, ascii_lowercase, chars_of, contains_seq, decimal, find_seq, joined, push_chars, push_decimal,
    push_str, string_from_chars,
};

verus! {

/// Blend modes for compositing video tracks.
#[derive(Debug, Clone, Copy, PartialEq, Eq, Structural, Hash)]
pub enum BlendMode {
    /// Standard alpha blending.
    Normal,
    /// Brightness is added.
    Add,
    /// Darker pixels are emphasised.
    Multiply,
    /// Brighter pixels are emphasised.
    Screen,
    /// Contrast is emphasised.
    Overlay,
    /// A soft light effect.
    SoftLight,
    /// A strong light effect.
    HardLight,
    /// Brighter areas are emphasised.
    ColorDodge,
    /// Darker areas are emphasised.
    ColorBurn,
    /// Colour differences are emphasised.
    Difference,
    /// A soft version of difference.
    Exclusion,
}

/// The filter name of a blend mode.
pub open spec fn blend_mode_name(m: BlendMode) -> Seq<char> {
    match m {
        BlendMode::Normal => "normal"@,
        BlendMode::Add => "add"@,
        BlendMode::Multiply => "multiply"@,
        BlendMode::Screen => "screen"@,
        BlendMode::Overlay => "overlay"@,
        BlendMode::SoftLight => "softlight"@,
        BlendMode::HardLight => "hardlight"@,
        BlendMode::ColorDodge => "colordodge"@,
        BlendMode::ColorBurn => "colorburn"@,
        BlendMode::Difference => "difference"@,
        BlendMode::Exclusion => "exclusion"@,
    }
}

impl Default for BlendMode {
    fn default() -> (m: Self)
        ensures
            m == BlendMode::Normal,
    {
        BlendMode::Normal
    }
}

impl BlendMode {
    /// The filter name of the blend mode.
    pub fn as_str(&self) -> (s: &'static str)
        ensures
            s@ == blend_mode_name(*self),
    {
        match self {
            BlendMode::Normal => "normal",
            BlendMode::Add => "add",
            BlendMode::Multiply => "multiply",
            BlendMode::Screen => "screen",
            BlendMode::Overlay => "overlay",
            BlendMode::SoftLight => "softlight",
            BlendMode::HardLight => "hardlight",
            BlendMode::ColorDodge => "colordodge",
            BlendMode::ColorBurn => "colorburn",
            BlendMode::Difference => "difference",
            BlendMode::Exclusion => "exclusion",
        }
    }
}

/// The blend filter name of a mode (`addition` for `Add`).
pub open spec fn blend_filter_name(m: BlendMode) -> Seq<char> {
    match m {
        BlendMode::Add => "addition"@,
        _ => blend_mode_name(m),
    }
}

/// The blend mode a track gets from its name (in any ASCII letter case): `Screen`
/// for an overlay track, `Add` for an effect track, `Multiply` for a shadow track,
/// `Normal` otherwise.
pub open spec fn blend_mode_for_name(name: Seq<char>) -> BlendMode {
    let n = ascii_lower_seq(name);
    if contains_seq(n, "overlay"@) {
        BlendMode::Screen
    } else if contains_seq(n, "effect"@) {
        BlendMode::Add
    } else if contains_seq(n, "shadow"@) {
        BlendMode::Multiply
    } else {
        BlendMode::Normal
    }
}

/// The volume a track gets from its name (in any ASCII letter case), as written
/// in the filter: `0.5` for a background track, `0.7` for an effect track, `1`
/// otherwise.
pub open spec fn volume_for_name(name: Seq<char>) -> Seq<char> {
    let n = ascii_lower_seq(name);
    if contains_seq(n, "background"@) {
        "0.5"@
    } else if contains_seq(n, "effect"@) {
        "0.7"@
    } else {
        "1"@
    }
}

/// The name of the track `id` of the timeline `v`, if it has one.
pub open spec fn track_name_of(v: TimelineView, id: TrackId) -> Option<Seq<char>> {
    let k = track_index(v.tracks, id);
    if k >= 0 { Some(v.tracks[k].name) } else { None }
}

/// Inserts `id` into `s` after the last identifier (from the end) that is not
/// greater: one step of a stable insertion sort by identifier value.
pub open spec fn insert_by_value(s: Seq<TrackId>, id: TrackId) -> Seq<TrackId>
    decreases s.len(),
{
    if s.len() == 0 || s.last().value() <= id.value() {
        s.push(id)
    } else {
        insert_by_value(s.drop_last(), id).push(s.last())
    }
}

/// The identifiers of `s` ordered by value, equal ones in their order (a stable
/// sort; the order of their texts, which have a fixed width).
pub open spec fn sort_by_value(s: Seq<TrackId>) -> Seq<TrackId>
    decreases s.len(),
{
    if s.len() == 0 {
        s
    } else {
        insert_by_value(sort_by_value(s.drop_last()), s.last())
    }
}

/// The label of the prepared video input `i`: the lowest layer is at once the
/// composite of the first layer, `[v1]`; each other layer is `[li]`.
pub open spec fn layer_label(i: nat) -> Seq<char> {
    if i == 0 { "[v1]"@ } else { "[l"@ + decimal(i) + "]"@ }
}

/// The filter that prepares video input `i`, scaled to `w` x `h`, under its label.
pub open spec fn video_layer_filter(i: nat, w: u32, h: u32) -> Seq<char> {
    "["@ + decimal(i) + ":v] format=yuva420p ,scale="@ + decimal(w as nat) + ":"@ + decimal(h as nat)
        + ",setsar=1 "@ + layer_label(i)
}

/// The filter that blends layer `[li]` (from 1) onto the composite of the layers
/// below it, `[vi]`, giving the composite `[v(i+1)]`.
pub open spec fn overlay_filter(i: nat, m: BlendMode) -> Seq<char> {
    let f = match m {
        BlendMode::Normal => "overlay=shortest=1:format=yuv420"@,
        _ => "blend=all_mode="@ + blend_filter_name(m) + ":all_opacity=1"@,
    };
    "[v"@ + decimal(i) + "][l"@ + decimal(i) + "] "@ + f + " [v"@ + decimal(i + 1) + "]"@
}

/// The parts of the video filter graph for the layers `ids`, in that order: each
/// layer's preparation, and for each layer but the first its blend.
pub open spec fn video_parts(v: TimelineView, ids: Seq<TrackId>, w: u32, h: u32) -> Seq<Seq<char>>
    decreases ids.len(),
{
    if ids.len() == 0 {
        Seq::empty()
    } else {
        let i = (ids.len() - 1) as nat;
        let before = video_parts(v, ids.drop_last(), w, h).push(video_layer_filter(i, w, h));
        if i == 0 {
            before
        } else {
            let m = match track_name_of(v, ids.last()) {
                Some(n) => blend_mode_for_name(n),
                None => BlendMode::Normal,
            };
            before.push(overlay_filter(i, m))
        }
    }
}

/// The filter that prepares audio input `i` at volume `vol` as `[ai]`.
pub open spec fn audio_track_filter(i: nat, vol: Seq<char>) -> Seq<char> {
    "["@ + decimal(i) + ":a] aformat=sample_fmts=fltp:channel_layouts=stereo,volume="@ + vol + " [a"@ + decimal(i)
        + "]"@
}

/// The audio preparation filters for the inputs `ids`, in order.
pub open spec fn audio_parts(v: TimelineView, ids: Seq<TrackId>) -> Seq<Seq<char>>
    decreases ids.len(),
{
    if ids.len() == 0 {
        Seq::empty()
    } else {
        let i = (ids.len() - 1) as nat;
        let vol = match track_name_of(v, ids.last()) {
            Some(n) => volume_for_name(n),
            None => "1"@,
        };
        audio_parts(v, ids.drop_last()).push(audio_track_filter(i, vol))
    }
}

/// The labels `[a0][a1]...` of the first `n` audio inputs.
pub open spec fn audio_labels(n: nat) -> Seq<char>
    decreases n,
{
    if n == 0 {
        Seq::empty()
    } else {
        audio_labels((n - 1) as nat) + "[a"@ + decimal((n - 1) as nat) + "]"@
    }
}

/// The audio filter graph for the inputs `ids`: their preparation filters, then
/// a mix of all of them, or for one input the input itself, as `[aout]`.
pub open spec fn audio_graph(v: TimelineView, ids: Seq<TrackId>) -> Seq<char> {
    if ids.len() == 0 {
        Seq::empty()
    } else if ids.len() == 1 {
        joined(audio_parts(v, ids).push("[a0] asetpts=PTS-STARTPTS [aout]"@), ";"@)
    } else {
        joined(
            audio_parts(v, ids).push(
                audio_labels(ids.len()) + " amix=inputs="@ + decimal(ids.len()) + ":duration=longest:normalize=0:dropout_transition=0.5 [aout]"@,
            ),
            ";"@,
        )
    }
}

fn contains_text(hay: &Vec<char>, needle: &str) -> (b: bool)
    ensures
        b == contains_seq(hay@, needle@),
{
    let p = chars_of(needle);
    assert(hay@.subrange(0, hay@.len() as int) == hay@);
    find_seq(hay, 0, hay.len(), &p).is_some()
}

/// The blend mode of a track from its name (see `blend_mode_for_name`).
pub fn blend_mode_for_track_name(name: &str) -> (m: BlendMode)
    ensures
        m == blend_mode_for_name(name@),
{
    let n = ascii_lowercase(name);
    if contains_text(&n, "overlay") {
        BlendMode::Screen
    } else if contains_text(&n, "effect") {
        BlendMode::Add
    } else if contains_text(&n, "shadow") {
        BlendMode::Multiply
    } else {
        BlendMode::Normal
    }
}

/// The volume of a track from its name (see `volume_for_name`).
pub fn volume_for_track_name(name: &str) -> (s: &'static str)
    ensures
        s@ == volume_for_name(name@),
{
    let n = ascii_lowercase(name);
    if contains_text(&n, "background") {
        "0.5"
    } else if contains_text(&n, "effect") {
        "0.7"
    } else {
        "1"
    }
}

fn push_joined(out: &mut Vec<char>, part: &Vec<char>, first: bool, Ghost(parts): Ghost<Seq<Seq<char>>>)
    requires
        old(out)@ == joined(parts, ";"@),
        first <==> parts.len() == 0,
    ensures
        final(out)@ == joined(parts.push(part@), ";"@),
{
    let ghost q = parts.push(part@);
    assert(q.drop_last() == parts);
    if !first {
        out.push(';');
        push_chars(out, part);
        assert(out@ =~= joined(parts, ";"@) + ";"@ + part@) by {
            reveal_strlit(";");
        }
    } else {
        push_chars(out, part);
        assert(out@ =~= part@);
    }
}

/// Composes the tracks of a timeline into one output.
#[derive(Debug)]
pub struct TrackCompositor {
    timeline: Timeline,
    optimize_complex: bool,
}

impl TrackCompositor {
    /// A compositor for `timeline`, without the optimisation for complex timelines.
    pub fn new(timeline: Timeline) -> (c: Self)
        ensures
            c.timeline_view() == timeline@,
            !c.optimizes(),
    {
        TrackCompositor { timeline, optimize_complex: false }
    }

    /// The timeline being composed.
    pub closed spec fn timeline_view(&self) -> TimelineView {
        self.timeline@
    }

    /// Whether complex timelines are optimised.
    pub closed spec fn optimizes(&self) -> bool {
        self.optimize_complex
    }

    /// Sets whether complex timelines are optimised.
    pub fn set_optimize_complex(&mut self, optimize: bool)
        ensures
            final(self).timeline_view() == old(self).timeline_view(),
            final(self).optimizes() == optimize,
    {
        self.optimize_complex = optimize;
    }

    /// The blend mode of the track `track_id`: from its name, `Normal` when the
    /// timeline has no such track.
    pub fn get_blend_mode_for_track(&self, track_id: TrackId) -> (m: BlendMode)
        ensures
            m == match track_name_of(self.timeline_view(), track_id) {
                Some(n) => blend_mode_for_name(n),
                None => BlendMode::Normal,
            },
    {
        match self.timeline.get_track(track_id) {
            Some(t) => blend_mode_for_track_name(t.name()),
            None => BlendMode::Normal,
        }
    }

    /// The volume of the track `track_id` as written in the filter: from its name,
    /// `1` when the timeline has no such track.
    pub fn get_track_volume(&self, track_id: TrackId) -> (s: &'static str)
        ensures
            s@ == match track_name_of(self.timeline_view(), track_id) {
                Some(n) => volume_for_name(n),
                None => "1"@,
            },
    {
        match self.timeline.get_track(track_id) {
            Some(t) => volume_for_track_name(t.name()),
            None => "1",
        }
    }

    /// The video filter graph for the video tracks `video_tracks`, layered from
    /// the lowest identifier up (see `video_parts`), joined with `;`. With `n`
    /// tracks, the composite of all of them is `[vn]`.
    pub fn generate_video_filtergraph(&self, video_tracks: &Vec<TrackId>, width: u32, height: u32) -> (s: String)
        ensures
            s@ == joined(video_parts(self.timeline_view(), sort_by_value(video_tracks@), width, height), ";"@),
    {
        let ordered = sort_track_ids(video_tracks);
        let ghost ids = ordered@;
        let mut out: Vec<char> = Vec::new();
        let mut i: usize = 0;
        assert(ids.take(0) =~= Seq::<TrackId>::empty());
        while i < ordered.len()
            invariant
                0 <= i <= ordered.len(),
                ids == ordered@,
                out@ == joined(video_parts(self.timeline_view(), ids.take(i as int), width, height), ";"@),
            decreases ordered.len() - i,
        {
            let ghost before = video_parts(self.timeline_view(), ids.take(i as int), width, height);
            assert(ids.take(i + 1).drop_last() == ids.take(i as int));
            assert(ids.take(i + 1).last() == ids[i as int]);
            let mut layer: Vec<char> = Vec::new();
            push_str(&mut layer, "[");
            push_decimal(&mut layer, i as u64);
            push_str(&mut layer, ":v] format=yuva420p ,scale=");
            push_decimal(&mut layer, width as u64);
            push_str(&mut layer, ":");
            push_decimal(&mut layer, height as u64);
            push_str(&mut layer, ",setsar=1 ");
            if i == 0 {
                push_str(&mut layer, "[v1]");
            } else {
                push_str(&mut layer, "[l");
                push_decimal(&mut layer, i as u64);
                push_str(&mut layer, "]");
            }
            assert(layer@ =~= video_layer_filter(i as nat, width, height));
            push_joined(&mut out, &layer, i == 0, Ghost(before));
            if i > 0 {
                let mode = self.get_blend_mode_for_track(ordered[i]);
                let mut blend: Vec<char> = Vec::new();
                push_str(&mut blend, "[v");
                push_decimal(&mut blend, i as u64);
                push_str(&mut blend, "][l");
                push_decimal(&mut blend, i as u64);
                push_str(&mut blend, "] ");
                match mode {
                    BlendMode::Normal => push_str(&mut blend, "overlay=shortest=1:format=yuv420"),
                    _ => {
                        push_str(&mut blend, "blend=all_mode=");
                        let name = if mode == BlendMode::Add { "addition" } else { mode.as_str() };
                        push_str(&mut blend, name);
                        push_str(&mut blend, ":all_opacity=1");
                    },
                }
                push_str(&mut blend, " [v");
                push_decimal(&mut blend, i as u64 + 1);
                push_str(&mut blend, "]");
                assert(blend@ == overlay_filter(i as nat, mode));
                push_joined(&mut out, &blend, false, Ghost(before.push(layer@)));
            }
            i = i + 1;
        }
        assert(ids.take(ids.len() as int) == ids);
        string_from_chars(&out)
    }

    /// The audio filter graph for the audio tracks `audio_tracks`, in that order
    /// (see `audio_graph`).
    pub fn generate_audio_filtergraph(&self, audio_tracks: &Vec<TrackId>) -> (s: String)
        requires
            audio_tracks@.len() < u64::MAX,
        ensures
            s@ == audio_graph(self.timeline_view(), audio_tracks@),
    {
        let ghost ids = audio_tracks@;
        let mut out: Vec<char> = Vec::new();
        if audio_tracks.len() == 0 {
            return string_from_chars(&out);
        }
        let mut labels: Vec<char> = Vec::new();
        let mut i: usize = 0;
        assert(ids.take(0) =~= Seq::<TrackId>::empty());
        while i < audio_tracks.len()
            invariant
                0 <= i <= audio_tracks.len(),
                ids == audio_tracks@,
                out@ == joined(audio_parts(self.timeline_view(), ids.take(i as int)), ";"@),
                labels@ == audio_labels(i as nat),
            decreases audio_tracks.len() - i,
        {
            let ghost before = audio_parts(self.timeline_view(), ids.take(i as int));
            assert(ids.take(i + 1).drop_last() == ids.take(i as int));
            assert(ids.take(i + 1).last() == ids[i as int]);
            let vol = self.get_track_volume(audio_tracks[i]);
            let mut part: Vec<char> = Vec::new();
            push_str(&mut part, "[");
            push_decimal(&mut part, i as u64);
            push_str(&mut part, ":a] aformat=sample_fmts=fltp:channel_layouts=stereo,volume=");
            push_str(&mut part, vol);
            push_str(&mut part, " [a");
            push_decimal(&mut part, i as u64);
            push_str(&mut part, "]");
            push_joined(&mut out, &part, i == 0, Ghost(before));
            push_str(&mut labels, "[a");
            push_decimal(&mut labels, i as u64);
            push_str(&mut labels, "]");
            i = i + 1;
        }
        assert(ids.take(ids.len() as int) == ids);
        let ghost parts = audio_parts(self.timeline_view(), ids);
        let mut last: Vec<char> = Vec::new();
        if audio_tracks.len() > 1 {
            push_chars(&mut last, &labels);
            push_str(&mut last, " amix=inputs=");
            push_decimal(&mut last, audio_tracks.len() as u64);
            push_str(&mut last, ":duration=longest:normalize=0:dropout_transition=0.5 [aout]");
        } else {
            push_str(&mut last, "[a0] asetpts=PTS-STARTPTS [aout]");
        }
        push_joined(&mut out, &last, false, Ghost(parts));
        string_from_chars(&out)
    }
}

/// Orders track identifiers by value (see `sort_by_value`).
pub fn sort_track_ids(ids: &Vec<TrackId>) -> (r: Vec<TrackId>)
    ensures
        r@ == sort_by_value(ids@),
{
    let mut r: Vec<TrackId> = Vec::new();
    let mut i: usize = 0;
    assert(ids@.take(0) =~= Seq::<TrackId>::empty());
    while i < ids.len()
        invariant
            0 <= i <= ids.len(),
            r@ == sort_by_value(ids@.take(i as int)),
        decreases ids.len() - i,
    {
        assert(ids@.take(i + 1).drop_last() == ids@.take(i as int));
        insert_id_sorted(&mut r, ids[i]);
        i = i + 1;
    }
    assert(ids@.take(ids.len() as int) == ids@);
    r
}

proof fn lemma_insert_by_value(s: Seq<TrackId>, id: TrackId, k: int)
    requires
        0 <= k <= s.len(),
        forall|j: int| k <= j < s.len() ==> #[trigger] s[j].value() > id.value(),
        k == 0 || s[k - 1].value() <= id.value(),
    ensures
        insert_by_value(s, id) == s.take(k).push(id) + s.skip(k),
    decreases s.len(),
{
    if s.len() == 0 || s.last().value() <= id.value() {
        if k < s.len() {
            assert(s[s.len() - 1].value() > id.value());
        }
        assert(s.take(s.len() as int) == s);
        assert(s.skip(s.len() as int) =~= Seq::<TrackId>::empty());
    } else {
        let t = s.drop_last();
        assert forall|j: int| k <= j < t.len() implies #[trigger] t[j].value() > id.value() by {
            assert(t[j] == s[j]);
        }
        if k > 0 {
            assert(t[k - 1] == s[k - 1]);
        }
        lemma_insert_by_value(t, id, k);
        assert(t.take(k) == s.take(k));
        assert(t.skip(k).push(s.last()) =~= s.skip(k));
        assert((t.take(k).push(id) + t.skip(k)).push(s.last()) =~= t.take(k).push(id) + t.skip(k).push(s.last()));
    }
}

fn insert_id_sorted(v: &mut Vec<TrackId>, id: TrackId)
    ensures
        final(v)@ == insert_by_value(old(v)@, id),
{
    let mut j = v.len();
    while j > 0 && v[j - 1].as_u128() > id.as_u128()
        invariant
            0 <= j <= v.len(),
            v@ == old(v)@,
            forall|k: int| j <= k < v.len() ==> #[trigger] v@[k].value() > id.value(),
        decreases j,
    {
        j = j - 1;
    }
    proof {
        lemma_insert_by_value(v@, id, j as int);
    }
    v.insert(j, id);
    assert(v@ =~= old(v)@.take(j as int).push(id) + old(v)@.skip(j as int));
}

/// The number of processors of the machine (`num_cpus::get`). The number depends
/// on the machine; the contract claims only what `num_cpus` documents of every
/// outcome: it is at least 1.
#[verifier::external_body]
fn available_cpus() -> (n: usize)
    ensures
        n >= 1,
{
    num_cpus::get()
}

/// Errors of composing tracks.
#[derive(Debug, Clone, PartialEq, Eq)]
pub enum CompositionError {
    /// An asset of a clip is missing.
    MissingAsset(crate::project::ids::AssetId),
    /// The tracks cannot be composed together.
    IncompatibleTracks(String),
    /// An asset file cannot be used.
    AssetFileError(String),
    /// An intermediate file could not be made.
    IntermediateFileError(String),
    /// The encoder failed.
    FFmpeg(String),
}

/// A track ready to be composed: its identifier, kind and rendered file, if any.
#[derive(Debug, Clone)]
pub struct PreparedInput {
    pub id: TrackId,
    pub kind: TrackKind,
    pub file: Option<String>,
}

/// The output settings of a composition.
#[derive(Debug, Clone)]
pub struct CompositionSettings {
    pub width: u32,
    pub height: u32,
    pub video_codec: VideoCodec,
    pub audio_codec: AudioCodec,
    /// The frame rate as written on the command line.
    pub frame_rate: String,
}

/// An encoder command: input files, arguments and output file; it runs as
/// `-i <input>` for each input, the arguments, the output and `-y`.
#[derive(Debug, Clone)]
pub struct FFmpegCommand {
    pub inputs: Vec<String>,
    pub args: Vec<String>,
    pub output: Option<String>,
}

/// The files of the prepared tracks that have one, in order.
pub open spec fn input_files(p: Seq<PreparedInput>) -> Seq<Seq<char>>
    decreases p.len(),
{
    if p.len() == 0 {
        Seq::empty()
    } else {
        let before = input_files(p.drop_last());
        match p.last().file {
            Some(f) => before.push(f@),
            None => before,
        }
    }
}

/// The identifiers of the prepared tracks of kind `k` that have a file, in order.
pub open spec fn inputs_of_kind(p: Seq<PreparedInput>, k: TrackKind) -> Seq<TrackId>
    decreases p.len(),
{
    if p.len() == 0 {
        Seq::empty()
    } else {
        let before = inputs_of_kind(p.drop_last(), k);
        if p.last().file is Some && p.last().kind == k {
            before.push(p.last().id)
        } else {
            before
        }
    }
}

/// The filter graph of a composition: that of the video layers `videos`, then,
/// after a `;` where both are there, that of the audio inputs `audios`.
pub open spec fn composition_graph(v: TimelineView, videos: Seq<TrackId>, audios: Seq<TrackId>, w: u32, h: u32) -> Seq<
    char,
> {
    let vg = joined(video_parts(v, sort_by_value(videos), w, h), ";"@);
    if videos.len() > 0 && audios.len() > 0 {
        vg + ";"@ + audio_graph(v, audios)
    } else if videos.len() > 0 {
        vg
    } else {
        audio_graph(v, audios)
    }
}

/// The arguments that map streams: the filter graph `complex` and its outputs
/// where it is not empty, the plain streams otherwise, then the subtitles.
pub open spec fn mapping_args(complex: Seq<char>, nv: nat, na: nat, subs: nat) -> Seq<Seq<char>> {
    let streams = if complex.len() > 0 {
        seq!["-filter_complex"@, complex] + (if nv > 0 {
            seq!["-map"@, "[v"@ + decimal(nv) + "]"@]
        } else {
            Seq::empty()
        }) + (if na > 0 { seq!["-map"@, "[aout]"@] } else { Seq::empty() })
    } else {
        (if nv > 0 { seq!["-map"@, "0:v"@] } else { Seq::empty() }) + (if na > 0 {
            seq!["-map"@, "0:a"@]
        } else {
            Seq::empty()
        })
    };
    streams + if subs > 0 { seq!["-map"@, "0:s"@] } else { Seq::empty() }
}

/// The codec arguments for `nv` video, `na` audio and `subs` subtitle inputs.
pub open spec fn codec_args(nv: nat, na: nat, subs: nat, s: CompositionSettings) -> Seq<Seq<char>> {
    let hevc_or_avc = s.video_codec == VideoCodec::H264 || s.video_codec == VideoCodec::H265;
    let video = if nv > 0 {
        seq!["-c:v"@, video_codec_name(s.video_codec), "-pix_fmt"@, "yuv420p"@] + (if hevc_or_avc {
            seq!["-crf"@, "23"@, "-preset"@, "medium"@]
        } else {
            Seq::empty()
        }) + seq!["-r"@, s.frame_rate@]
    } else {
        Seq::empty()
    };
    let audio = if na > 0 {
        seq!["-c:a"@, audio_codec_name(s.audio_codec)] + (if s.audio_codec != AudioCodec::Copy {
            seq!["-b:a"@, "192k"@]
        } else {
            Seq::empty()
        })
    } else {
        Seq::empty()
    };
    video + audio + if subs > 0 { seq!["-c:s"@, "mov_text"@] } else { Seq::empty() }
}

/// The tuning arguments: with optimisation and more than three video layers, a
/// first pass at one kilobit per thousand pixels and one thread per processor.
pub open spec fn tuning_args(nv: nat, s: CompositionSettings, optimize: bool, cpus: nat) -> Seq<Seq<char>> {
    if optimize && nv > 3 {
        seq![
            "-pass"@,
            "1"@,
            "-b:v"@,
            decimal((s.width as nat * s.height as nat) / 1000) + "k"@,
            "-threads"@,
            decimal(cpus),
        ]
    } else {
        Seq::empty()
    }
}

/// The arguments of a composition of the video layers `videos`, the audio inputs
/// `audios` and `subs` subtitle inputs, with the settings `s`, optimised or not,
/// on a machine with `cpus` processors.
pub open spec fn composition_args(
    v: TimelineView,
    videos: Seq<TrackId>,
    audios: Seq<TrackId>,
    subs: nat,
    s: CompositionSettings,
    optimize: bool,
    cpus: nat,
) -> Seq<Seq<char>> {
    mapping_args(composition_graph(v, videos, audios, s.width, s.height), videos.len(), audios.len(), subs)
        + codec_args(videos.len(), audios.len(), subs, s) + tuning_args(videos.len(), s, optimize, cpus)
}

/// The arguments an encoder command runs with: `-i <input>` for each input, in
/// order, then the arguments, then the output, if any, then `-y`.
pub open spec fn command_line(inputs: Seq<Seq<char>>, args: Seq<Seq<char>>, output: Option<Seq<char>>) -> Seq<
    Seq<char>,
>
    decreases inputs.len(),
{
    if inputs.len() == 0 {
        args + (match output {
            Some(o) => seq![o],
            None => Seq::empty(),
        }) + seq!["-y"@]
    } else {
        seq!["-i"@, inputs[0]] + command_line(inputs.drop_first(), args, output)
    }
}

/// The text of an optional string.
pub open spec fn optional_text(o: Option<String>) -> Option<Seq<char>> {
    match o {
        Some(s) => Some(s@),
        None => None,
    }
}

impl FFmpegCommand {
    /// A command with no inputs, no arguments and no output.
    pub fn new() -> (c: Self)
        ensures
            c.inputs@.len() == 0,
            c.args@.len() == 0,
            c.output is None,
    {
        FFmpegCommand { inputs: Vec::new(), args: Vec::new(), output: None }
    }

    /// Adds an input file.
    pub fn add_input(&mut self, path: &str)
        ensures
            strings_view(final(self).inputs@) == strings_view(old(self).inputs@).push(path@),
            final(self).args@ == old(self).args@,
            final(self).output == old(self).output,
    {
        push_text(&mut self.inputs, path);
    }

    /// Sets the output file.
    pub fn set_output(&mut self, path: &str)
        ensures
            final(self).inputs@ == old(self).inputs@,
            final(self).args@ == old(self).args@,
            final(self).output matches Some(o) && o@ == path@,
    {
        self.output = Some(text_of(path));
    }

    /// Adds the argument `arg` followed by its value.
    pub fn add_arg(&mut self, arg: &str, value: &str)
        ensures
            final(self).inputs@ == old(self).inputs@,
            strings_view(final(self).args@) == strings_view(old(self).args@) + seq![arg@, value@],
            final(self).output == old(self).output,
    {
        push_text(&mut self.args, arg);
        push_text(&mut self.args, value);
    }

    /// Adds a complex filter graph (`-filter_complex <filter>`).
    pub fn add_complex_filter(&mut self, filter: &str)
        ensures
            final(self).inputs@ == old(self).inputs@,
            strings_view(final(self).args@) == strings_view(old(self).args@) + seq!["-filter_complex"@, filter@],
            final(self).output == old(self).output,
    {
        self.add_arg("-filter_complex", filter);
    }

    /// Sets the video codec (`-c:v <codec>`).
    pub fn set_video_codec(&mut self, codec: &str)
        ensures
            final(self).inputs@ == old(self).inputs@,
            strings_view(final(self).args@) == strings_view(old(self).args@) + seq!["-c:v"@, codec@],
            final(self).output == old(self).output,
    {
        self.add_arg("-c:v", codec);
    }

    /// Sets the audio codec (`-c:a <codec>`).
    pub fn set_audio_codec(&mut self, codec: &str)
        ensures
            final(self).inputs@ == old(self).inputs@,
            strings_view(final(self).args@) == strings_view(old(self).args@) + seq!["-c:a"@, codec@],
            final(self).output == old(self).output,
    {
        self.add_arg("-c:a", codec);
    }

    /// Sets the frame rate, as written on the command line (`-r <fps>`).
    pub fn set_frame_rate(&mut self, fps: &str)
        ensures
            final(self).inputs@ == old(self).inputs@,
            strings_view(final(self).args@) == strings_view(old(self).args@) + seq!["-r"@, fps@],
            final(self).output == old(self).output,
    {
        self.add_arg("-r", fps);
    }

    /// Sets the video size (`-s <width>x<height>`).
    pub fn set_video_size(&mut self, width: u32, height: u32)
        ensures
            final(self).inputs@ == old(self).inputs@,
            strings_view(final(self).args@) == strings_view(old(self).args@) + seq![
                "-s"@,
                decimal(width as nat) + "x"@ + decimal(height as nat),
            ],
            final(self).output == old(self).output,
    {
        let mut size: Vec<char> = Vec::new();
        push_decimal(&mut size, width as u64);
        size.push('x');
        push_decimal(&mut size, height as u64);
        assert(size@ =~= decimal(width as nat) + "x"@ + decimal(height as nat)) by {
            reveal_strlit("x");
        }
        let text = string_from_chars(&size);
        self.add_arg("-s", text.as_str());
    }

    /// The arguments the encoder runs with (see `command_line`).
    pub fn command_args(&self) -> (r: Vec<String>)
        ensures
            strings_view(r@) == command_line(
                strings_view(self.inputs@),
                strings_view(self.args@),
                optional_text(self.output),
            ),
    {
        let ghost out = optional_text(self.output);
        let mut tail: Vec<String> = Vec::new();
        push_all_copies(&mut tail, &self.args);
        match &self.output {
            Some(o) => push_text(&mut tail, o.as_str()),
            None => {},
        }
        push_text(&mut tail, "-y");
        let ghost ins = strings_view(self.inputs@);
        assert(strings_view(tail@) =~= command_line(ins.skip(ins.len() as int), strings_view(self.args@), out)) by {
            assert(ins.skip(ins.len() as int) =~= Seq::<Seq<char>>::empty());
        }
        let mut i = self.inputs.len();
        while i > 0
            invariant
                0 <= i <= self.inputs.len(),
                ins == strings_view(self.inputs@),
                strings_view(tail@) == command_line(ins.skip(i as int), strings_view(self.args@), out),
            decreases i,
        {
            i = i - 1;
            let mut head: Vec<String> = Vec::new();
            push_text(&mut head, "-i");
            push_text(&mut head, self.inputs[i].as_str());
            push_all(&mut head, tail);
            assert(ins.skip(i as int).drop_first() =~= ins.skip(i + 1));
            assert(ins.skip(i as int)[0] == self.inputs@[i as int]@);
            tail = head;
        }
        assert(ins.skip(0) =~= ins);
        tail
    }
}

/// Appends copies of the texts of `w` to `v`.
fn push_all_copies(v: &mut Vec<String>, w: &Vec<String>)
    ensures
        strings_view(final(v)@) == strings_view(old(v)@) + strings_view(w@),
{
    let mut i: usize = 0;
    let ghost start = strings_view(v@);
    while i < w.len()
        invariant
            0 <= i <= w.len(),
            strings_view(v@) == start + strings_view(w@.take(i as int)),
        decreases w.len() - i,
    {
        push_text(v, w[i].as_str());
        assert(strings_view(w@.take(i + 1)) =~= strings_view(w@.take(i as int)).push(w@[i as int]@));
        i = i + 1;
    }
    assert(w@.take(w.len() as int) == w@);
}

/// Whether a command holds the inputs, arguments and output given.
pub open spec fn command_is(c: FFmpegCommand, inputs: Seq<Seq<char>>, args: Seq<Seq<char>>, output: Seq<char>) -> bool {
    &&& strings_view(c.inputs@) == inputs
    &&& strings_view(c.args@) == args
    &&& c.output matches Some(o) && o@ == output
}

fn push_all(v: &mut Vec<String>, w: Vec<String>)
    ensures
        strings_view(final(v)@) == strings_view(old(v)@) + strings_view(w@),
{
    let mut i: usize = 0;
    let ghost start = strings_view(v@);
    while i < w.len()
        invariant
            0 <= i <= w.len(),
            strings_view(v@) == start + strings_view(w@.take(i as int)),
        decreases w.len() - i,
    {
        let x = w[i].clone();
        push_string(v, x);
        assert(strings_view(w@.take(i + 1)) =~= strings_view(w@.take(i as int)).push(w@[i as int]@));
        i = i + 1;
    }
    assert(w@.take(w.len() as int) == w@);
}

fn pair(a: &str, b: String) -> (v: Vec<String>)
    ensures
        strings_view(v@) == seq![a@, b@],
{
    let mut v: Vec<String> = Vec::new();
    push_text(&mut v, a);
    push_string(&mut v, b);
    assert(strings_view(v@) =~= seq![a@, b@]);
    v
}

fn no_strings() -> (v: Vec<String>)
    ensures
        strings_view(v@) == Seq::<Seq<char>>::empty(),
{
    let v: Vec<String> = Vec::new();
    assert(strings_view(v@) =~= Seq::<Seq<char>>::empty());
    v
}

/// Splits the prepared tracks: the files of those that have one, in order, and
/// among them the video and audio identifiers and the number of subtitle inputs.
fn classify_inputs(prepared: &Vec<PreparedInput>) -> (r: (Vec<String>, Vec<TrackId>, Vec<TrackId>, usize))
    ensures
        strings_view(r.0@) == input_files(prepared@),
        r.1@ == inputs_of_kind(prepared@, TrackKind::Video),
        r.2@ == inputs_of_kind(prepared@, TrackKind::Audio),
        r.3 == inputs_of_kind(prepared@, TrackKind::Subtitle).len(),
        r.2@.len() <= prepared@.len(),
{
    let mut inputs: Vec<String> = Vec::new();
    let mut videos: Vec<TrackId> = Vec::new();
    let mut audios: Vec<TrackId> = Vec::new();
    let mut subs: usize = 0;
    let mut i: usize = 0;
    let ghost p = prepared@;
    assert(p.take(0) =~= Seq::<PreparedInput>::empty());
    assert(strings_view(inputs@) =~= Seq::<Seq<char>>::empty());
    while i < prepared.len()
        invariant
            0 <= i <= prepared.len(),
            p == prepared@,
            strings_view(inputs@) == input_files(p.take(i as int)),
            videos@ == inputs_of_kind(p.take(i as int), TrackKind::Video),
            audios@ == inputs_of_kind(p.take(i as int), TrackKind::Audio),
            subs == inputs_of_kind(p.take(i as int), TrackKind::Subtitle).len(),
            subs <= i,
            audios@.len() <= i,
        decreases prepared.len() - i,
    {
        assert(p.take(i + 1).drop_last() == p.take(i as int));
        assert(p.take(i + 1).last() == p[i as int]);
        match &prepared[i].file {
            Some(f) => {
                push_text(&mut inputs, f.as_str());
                match prepared[i].kind {
                    TrackKind::Video => videos.push(prepared[i].id),
                    TrackKind::Audio => audios.push(prepared[i].id),
                    TrackKind::Subtitle => {
                        subs = subs + 1;
                    },
                }
            },
            None => {},
        }
        i = i + 1;
    }
    assert(p.take(p.len() as int) == p);
    (inputs, videos, audios, subs)
}

/// The arguments that map streams (see `mapping_args`).
fn mapping_arguments(complex: &Vec<char>, nv: usize, na: usize, subs: usize) -> (r: Vec<String>)
    ensures
        strings_view(r@) == mapping_args(complex@, nv as nat, na as nat, subs as nat),
{
    let mut args: Vec<String> = Vec::new();
    if complex.len() > 0 {
        push_text(&mut args, "-filter_complex");
        push_string(&mut args, string_from_chars(complex));
        if nv > 0 {
            let mut label: Vec<char> = Vec::new();
            push_str(&mut label, "[v");
            push_decimal(&mut label, nv as u64);
            push_str(&mut label, "]");
            push_all(&mut args, pair("-map", string_from_chars(&label)));
        }
        if na > 0 {
            push_all(&mut args, pair("-map", text_of("[aout]")));
        }
    } else {
        if nv > 0 {
            push_all(&mut args, pair("-map", text_of("0:v")));
        }
        if na > 0 {
            push_all(&mut args, pair("-map", text_of("0:a")));
        }
    }
    if subs > 0 {
        push_all(&mut args, pair("-map", text_of("0:s")));
    }
    assert(strings_view(args@) =~= mapping_args(complex@, nv as nat, na as nat, subs as nat));
    args
}

/// The codec arguments (see `codec_args`).
fn codec_arguments(nv: usize, na: usize, subs: usize, settings: &CompositionSettings) -> (r: Vec<String>)
    ensures
        strings_view(r@) == codec_args(nv as nat, na as nat, subs as nat, *settings),
{
    let mut args: Vec<String> = Vec::new();
    if nv > 0 {
        push_all(&mut args, pair("-c:v", text_of(settings.video_codec.to_ffmpeg_codec())));
        push_all(&mut args, pair("-pix_fmt", text_of("yuv420p")));
        if settings.video_codec == VideoCodec::H264 || settings.video_codec == VideoCodec::H265 {
            push_all(&mut args, pair("-crf", text_of("23")));
            push_all(&mut args, pair("-preset", text_of("medium")));
        }
        push_all(&mut args, pair("-r", settings.frame_rate.clone()));
    }
    if na > 0 {
        push_all(&mut args, pair("-c:a", text_of(settings.audio_codec.to_ffmpeg_codec())));
        if settings.audio_codec != AudioCodec::Copy {
            push_all(&mut args, pair("-b:a", text_of("192k")));
        }
    }
    if subs > 0 {
        push_all(&mut args, pair("-c:s", text_of("mov_text")));
    }
    assert(strings_view(args@) =~= codec_args(nv as nat, na as nat, subs as nat, *settings));
    args
}

/// The tuning arguments (see `tuning_args`).
fn tuning_arguments(nv: usize, settings: &CompositionSettings, optimize: bool, cpus: usize) -> (r: Vec<String>)
    ensures
        strings_view(r@) == tuning_args(nv as nat, *settings, optimize, cpus as nat),
{
    let mut args: Vec<String> = Vec::new();
    if optimize && nv > 3 {
        push_all(&mut args, pair("-pass", text_of("1")));
        let w: u64 = settings.width as u64;
        let h: u64 = settings.height as u64;
        assert(w * h <= 0xffff_ffff * 0xffff_ffff) by (nonlinear_arith)
            requires
                w <= 0xffff_ffff,
                h <= 0xffff_ffff,
        ;
        let area: u64 = w * h / 1000;
        let mut rate: Vec<char> = Vec::new();
        push_decimal(&mut rate, area);
        push_str(&mut rate, "k");
        push_all(&mut args, pair("-b:v", string_from_chars(&rate)));
        push_all(&mut args, pair("-threads", decimal_string(cpus as u64)));
    }
    assert(strings_view(args@) =~= tuning_args(nv as nat, *settings, optimize, cpus as nat));
    args
}

impl TrackCompositor {
    /// The filter graph of a composition (see `composition_graph`).
    fn composition_graph_text(&self, videos: &Vec<TrackId>, audios: &Vec<TrackId>, width: u32, height: u32) -> (r:
        Vec<char>)
        requires
            audios@.len() < u64::MAX,
        ensures
            r@ == composition_graph(self.timeline_view(), videos@, audios@, width, height),
    {
        let ghost v = self.timeline_view();
        let mut complex: Vec<char> = Vec::new();
        if videos.len() > 0 {
            let vg = self.generate_video_filtergraph(videos, width, height);
            push_str(&mut complex, vg.as_str());
        }
        if audios.len() > 0 {
            if complex.len() > 0 {
                complex.push(';');
            }
            let ag = self.generate_audio_filtergraph(audios);
            push_str(&mut complex, ag.as_str());
        }
        proof {
            if videos.len() > 0 {
                lemma_video_graph_nonempty(v, sort_by_value(videos@), width, height);
            }
            if audios.len() > 0 && videos.len() > 0 {
                assert(complex@ =~= joined(video_parts(v, sort_by_value(videos@), width, height), ";"@) + ";"@
                    + audio_graph(v, audios@)) by {
                    reveal_strlit(";");
                }
            }
        }
        complex
    }

    /// The command that composes the prepared tracks `prepared` into
    /// `output_path` on a machine with `cpus` processors: the tracks with a file
    /// are the inputs, in order; the arguments are `composition_args`. Fails when
    /// nothing was prepared.
    pub fn composition_command(
        &self,
        prepared: &Vec<PreparedInput>,
        settings: &CompositionSettings,
        output_path: &str,
        cpus: usize,
    ) -> (r: Result<FFmpegCommand, CompositionError>)
        requires
            prepared@.len() < u64::MAX,
        ensures
            prepared@.len() == 0 ==> (r matches Err(CompositionError::IncompatibleTracks(m)) && m@
                == "No prepared tracks to composite"@),
            prepared@.len() > 0 ==> (r matches Ok(c) && command_is(
                c,
                input_files(prepared@),
                composition_args(
                    self.timeline_view(),
                    inputs_of_kind(prepared@, TrackKind::Video),
                    inputs_of_kind(prepared@, TrackKind::Audio),
                    inputs_of_kind(prepared@, TrackKind::Subtitle).len(),
                    *settings,
                    self.optimizes(),
                    cpus as nat,
                ),
                output_path@,
            )),
    {
        if prepared.len() == 0 {
            return Err(CompositionError::IncompatibleTracks(text_of("No prepared tracks to composite")));
        }
        let (inputs, videos, audios, subs) = classify_inputs(prepared);
        let complex = self.composition_graph_text(&videos, &audios, settings.width, settings.height);
        let mut args = mapping_arguments(&complex, videos.len(), audios.len(), subs);
        push_all(&mut args, codec_arguments(videos.len(), audios.len(), subs, settings));
        push_all(&mut args, tuning_arguments(videos.len(), settings, self.optimize_complex, cpus));
        Ok(FFmpegCommand { inputs, args, output: Some(text_of(output_path)) })
    }

    /// The command that composes the prepared tracks `prepared` into
    /// `output_path`, for the number of processors of this machine (see
    /// `composition_command`).
    pub fn composite_tracks(
        &self,
        prepared: &Vec<PreparedInput>,
        settings: &CompositionSettings,
        output_path: &str,
    ) -> (r: Result<FFmpegCommand, CompositionError>)
        requires
            prepared@.len() < u64::MAX,
        ensures
            prepared@.len() == 0 ==> (r matches Err(CompositionError::IncompatibleTracks(m)) && m@
                == "No prepared tracks to composite"@),
            prepared@.len() > 0 ==> (r matches Ok(c) && exists|cpus: nat| cpus >= 1 && command_is(
                c,
                input_files(prepared@),
                composition_args(
                    self.timeline_view(),
                    inputs_of_kind(prepared@, TrackKind::Video),
                    inputs_of_kind(prepared@, TrackKind::Audio),
                    inputs_of_kind(prepared@, TrackKind::Subtitle).len(),
                    *settings,
                    self.optimizes(),
                    cpus,
                ),
                output_path@,
            )),
    {
        let cpus = available_cpus();
        self.composition_command(prepared, settings, output_path, cpus)
    }

    /// The tracks that hold clips, with their kinds, in timeline order: those a
    /// render prepares.
    pub fn tracks_to_process(&self) -> (r: Vec<(TrackId, TrackKind)>)
        ensures
            r@ == tracks_with_clips(self.timeline_view().tracks),
    {
        let tracks = self.timeline.get_tracks();
        let mut out: Vec<(TrackId, TrackKind)> = Vec::new();
        let mut i: usize = 0;
        let ghost ts = self.timeline_view().tracks;
        assert(ts.take(0) =~= Seq::<TrackView>::empty());
        while i < tracks.len()
            invariant
                0 <= i <= tracks.len(),
                crate::project::timeline::track_views(tracks@) == ts,
                tracks@.len() == ts.len(),
                out@ == tracks_with_clips(ts.take(i as int)),
            decreases tracks.len() - i,
        {
            assert(ts.take(i + 1).drop_last() == ts.take(i as int));
            assert(ts.take(i + 1).last() == tracks@[i as int]@);
            if tracks[i].get_clips().len() > 0 {
                out.push((tracks[i].id(), tracks[i].kind()));
            }
            i = i + 1;
        }
        assert(ts.take(ts.len() as int) == ts);
        out
    }

    /// How many threads prepare `n` tracks on a machine with `cpus` processors:
    /// none (one after another) unless complex timelines are optimised and there
    /// are more than four tracks; then half the processors, at least two, at most
    /// one per track.
    pub fn preparation_threads(&self, cpus: usize, n: usize) -> (r: Option<usize>)
        ensures
            !(self.optimizes() && n > 4) ==> r is None,
            self.optimizes() && n > 4 ==> r == Some(
                if cpus / 2 >= 2 {
                    if cpus / 2 <= n { cpus / 2 } else { n }
                } else {
                    2
                },
            ),
    {
        if !(self.optimize_complex && n > 4) {
            return None;
        }
        let half = cpus / 2;
        let at_least = if half >= 2 { half } else { 2 };
        Some(if at_least <= n { at_least } else { n })
    }
}

/// The tracks of `ts` that hold clips, with their kinds, in order.
pub open spec fn tracks_with_clips(ts: Seq<TrackView>) -> Seq<(TrackId, TrackKind)>
    decreases ts.len(),
{
    if ts.len() == 0 {
        Seq::empty()
    } else {
        let before = tracks_with_clips(ts.drop_last());
        if ts.last().clips.len() > 0 { before.push((ts.last().id, ts.last().kind)) } else { before }
    }
}

/// How long a prepared track lasts: until the end of its last clip.
pub fn prepared_duration(clips: &Vec<Clip>) -> (d: Duration)
    ensures
        d@ == max_clip_end(clips@),
{
    let mut best: u64 = 0;
    let mut i: usize = 0;
    assert(clips@.take(0) =~= Seq::<Clip>::empty());
    while i < clips.len()
        invariant
            0 <= i <= clips.len(),
            best == max_clip_end(clips@.take(i as int)),
        decreases clips.len() - i,
    {
        assert(clips@.take(i + 1).drop_last() == clips@.take(i as int));
        let e = clips[i].end_position().as_millis();
        if e > best {
            best = e;
        }
        i = i + 1;
    }
    assert(clips@.take(clips.len() as int) == clips@);
    Duration::from_millis(best)
}

/// The last filter of the video graph for `n` layers gives the composite `[vn]`.
pub proof fn lemma_video_graph_output(v: TimelineView, ids: Seq<TrackId>, w: u32, h: u32)
    requires
        ids.len() > 0,
    ensures
        ({
            let out = "[v"@ + decimal(ids.len()) + "]"@;
            let last = video_parts(v, ids, w, h).last();
            last.len() >= out.len() && last.subrange(last.len() - out.len(), last.len() as int) == out
        }),
{
    let n = ids.len();
    let i = (n - 1) as nat;
    let out = "[v"@ + decimal(n) + "]"@;
    let parts = video_parts(v, ids, w, h);
    let before = video_parts(v, ids.drop_last(), w, h);
    if i == 0 {
        reveal_strlit("[v1]");
        reveal_strlit("[v");
        reveal_strlit("]");
        assert(decimal(1) == seq!['1']);
        assert(out =~= "[v1]"@);
        let p = "["@ + decimal(i) + ":v] format=yuva420p ,scale="@ + decimal(w as nat) + ":"@ + decimal(h as nat)
            + ",setsar=1 "@;
        assert(parts.last() == p + out);
        assert((p + out).subrange(p.len() as int, (p + out).len() as int) =~= out);
    } else {
        let m = match track_name_of(v, ids.last()) {
            Some(nm) => blend_mode_for_name(nm),
            None => BlendMode::Normal,
        };
        let f = match m {
            BlendMode::Normal => "overlay=shortest=1:format=yuv420"@,
            _ => "blend=all_mode="@ + blend_filter_name(m) + ":all_opacity=1"@,
        };
        let p = "[v"@ + decimal(i) + "][l"@ + decimal(i) + "] "@ + f + " "@;
        reveal_strlit(" [v");
        reveal_strlit(" ");
        reveal_strlit("[v");
        assert(" [v"@ =~= " "@ + "[v"@);
        assert(i + 1 == n);
        assert(overlay_filter(i, m) =~= p + out);
        assert(parts.last() == overlay_filter(i, m));
        assert((p + out).subrange(p.len() as int, (p + out).len() as int) =~= out);
    }
}

proof fn lemma_video_graph_nonempty(v: TimelineView, ids: Seq<TrackId>, w: u32, h: u32)
    requires
        ids.len() > 0,
    ensures
        joined(video_parts(v, ids, w, h), ";"@).len() > 0,
    decreases ids.len(),
{
    let i = (ids.len() - 1) as nat;
    let before = video_parts(v, ids.drop_last(), w, h);
    assert(video_layer_filter(i, w, h).len() > 0) by {
        reveal_strlit("[");
    }
    let parts = video_parts(v, ids, w, h);
    if parts.len() == 1 {
        assert(parts[0] == video_layer_filter(i, w, h));
    } else {
        assert(parts.last().len() > 0) by {
            if i == 0 {
                assert(parts.last() == video_layer_filter(i, w, h));
            } else {
                reveal_strlit(" [v");
                assert(parts.last() == overlay_filter(i, match track_name_of(v, ids.last()) {
                    Some(n) => blend_mode_for_name(n),
                    None => BlendMode::Normal,
                }));
            }
        }
    }
}

} // verus!
