//! Subtitles, tracks of subtitles and a builder for subtitles.
//!
//! Times are whole milliseconds: shifting and durations are given in
//! milliseconds.

use vstd::prelude::*;
use crate::subtitle::error::SubtitleError;
use crate::subtitle::format::{time_at, timestamp_millis, timestamp_text, TimePosition};
use crate::subtitle::style::{vtt_settings, TextStyle};
use crate::utility::text::{
    all_digits, decimal, digits_value, lemma_decimal_digits, push_decimal, push_decimal_wide, push_str,
    string_from_chars, text_eq, text_is_empty,
    text_of,
};

verus! {

/// What a subtitle holds: its identifier, when it starts and ends, its text and
/// its style, if any.
pub struct SubtitleView {
    pub id: Seq<char>,
    pub start: TimePosition,
    pub end: TimePosition,
    pub text: Seq<char>,
    pub style: Option<TextStyle>,
}

/// A subtitle: text shown from a start time to an end time, with an identifier
/// and an optional style.
#[derive(Debug, Clone)]
pub struct Subtitle {
    id: String,
    start_time: TimePosition,
    end_time: TimePosition,
    text: String,
    style: Option<TextStyle>,
}

impl View for Subtitle {
    type V = SubtitleView;

    closed spec fn view(&self) -> SubtitleView {
        SubtitleView {
            id: self.id@,
            start: self.start_time,
            end: self.end_time,
            text: self.text@,
            style: self.style,
        }
    }
}

/// The milliseconds of the timestamp `t`, as an integer.
pub open spec fn ms(t: TimePosition) -> int {
    timestamp_millis(t) as int
}

/// `v` taken as a count of milliseconds that fits a `u32`: 0 below, the largest
/// `u32` above.
pub open spec fn clamp_millis(v: int) -> nat {
    if v < 0 {
        0
    } else if v > u32::MAX {
        u32::MAX as nat
    } else {
        v as nat
    }
}

/// The subtitle `x` moved by `delta` milliseconds: it starts no earlier than 0
/// and lasts at least 100 milliseconds, each time held in a `u32` of
/// milliseconds.
pub open spec fn shifted(x: SubtitleView, delta: int) -> SubtitleView {
    let s = if ms(x.start) + delta < 0 { 0 } else { ms(x.start) + delta };
    let e = if ms(x.end) + delta < s + 100 { s + 100 } else { ms(x.end) + delta };
    SubtitleView { start: time_at(clamp_millis(s)), end: time_at(clamp_millis(e)), ..x }
}

/// Whether two subtitles are shown at a common moment.
pub open spec fn overlap(a: SubtitleView, b: SubtitleView) -> bool {
    ms(a.start) < ms(b.end) && ms(b.start) < ms(a.end)
}

/// The SubRip block of a subtitle: identifier, timing line and text, each ended
/// by a line break.
pub open spec fn srt_block(x: SubtitleView) -> Seq<char> {
    x.id + "\n"@ + timestamp_text(x.start, ',') + " --> "@ + timestamp_text(x.end, ',') + "\n"@ + x.text + "\n"@
}

/// The WebVTT cue of a subtitle: its identifier line where it has one, the timing
/// line with the cue settings of its style, and its text.
pub open spec fn vtt_cue(x: SubtitleView) -> Seq<char> {
    let id_line = if x.id.len() > 0 { x.id + "\n"@ } else { Seq::empty() };
    let settings = match x.style {
        Some(st) => if vtt_settings(st).len() > 0 { " "@ + vtt_settings(st) } else { Seq::empty() },
        None => Seq::empty(),
    };
    id_line + timestamp_text(x.start, '.') + " --> "@ + timestamp_text(x.end, '.') + settings + "\n"@ + x.text
        + "\n"@
}

/// A copy of an optional style.
pub(crate) fn copy_style(s: &Option<TextStyle>) -> (r: Option<TextStyle>)
    ensures
        r == *s,
{
    match s {
        Some(st) => Some(st.copy_of()),
        None => None,
    }
}

/// The timestamp `v` milliseconds from the start, `v` taken as `clamp_millis`
/// does.
pub(crate) fn time_from_millis(v: i128) -> (t: TimePosition)
    ensures
        t == time_at(clamp_millis(v as int)),
{
    let m: u32 = if v < 0 {
        0
    } else if v > 4294967295 {
        4294967295
    } else {
        v as u32
    };
    TimePosition::from_millis(m)
}

impl Subtitle {
    /// A subtitle shown from `start_time` to `end_time` with the text `text`, an
    /// empty identifier and no style.
    pub fn new(start_time: TimePosition, end_time: TimePosition, text: &str) -> (s: Self)
        ensures
            s@ == (SubtitleView { id: Seq::empty(), start: start_time, end: end_time, text: text@, style: None }),
    {
        Subtitle { id: String::new(), start_time, end_time, text: text_of(text), style: None }
    }

    /// The subtitle with the identifier `id`.
    pub fn with_id(self, id: &str) -> (s: Self)
        ensures
            s@ == (SubtitleView { id: id@, ..self@ }),
    {
        Subtitle { id: text_of(id), ..self }
    }

    /// The subtitle with the style `style`.
    pub fn with_style(self, style: TextStyle) -> (s: Self)
        ensures
            s@ == (SubtitleView { style: Some(style), ..self@ }),
    {
        Subtitle { style: Some(style), ..self }
    }

    /// A copy of the subtitle.
    pub fn copy_of(&self) -> (s: Self)
        ensures
            s@ == self@,
    {
        Subtitle {
            id: self.id.clone(),
            start_time: self.start_time,
            end_time: self.end_time,
            text: self.text.clone(),
            style: copy_style(&self.style),
        }
    }

    /// The identifier of the subtitle.
    pub fn get_id(&self) -> (r: &str)
        ensures
            r@ == self@.id,
    {
        self.id.as_str()
    }

    /// Sets the identifier of the subtitle.
    pub fn set_id(&mut self, id: &str)
        ensures
            final(self)@ == (SubtitleView { id: id@, ..old(self)@ }),
    {
        self.id = text_of(id);
    }

    /// When the subtitle starts.
    pub fn get_start(&self) -> (t: TimePosition)
        ensures
            t == self@.start,
    {
        self.start_time
    }

    /// Sets when the subtitle starts.
    pub fn set_start(&mut self, time: TimePosition)
        ensures
            final(self)@ == (SubtitleView { start: time, ..old(self)@ }),
    {
        self.start_time = time;
    }

    /// When the subtitle ends.
    pub fn get_end(&self) -> (t: TimePosition)
        ensures
            t == self@.end,
    {
        self.end_time
    }

    /// Sets when the subtitle ends.
    pub fn set_end(&mut self, time: TimePosition)
        ensures
            final(self)@ == (SubtitleView { end: time, ..old(self)@ }),
    {
        self.end_time = time;
    }

    /// The text of the subtitle.
    pub fn get_text(&self) -> (r: &str)
        ensures
            r@ == self@.text,
    {
        self.text.as_str()
    }

    /// Sets the text of the subtitle.
    pub fn set_text(&mut self, text: &str)
        ensures
            final(self)@ == (SubtitleView { text: text@, ..old(self)@ }),
    {
        self.text = text_of(text);
    }

    /// The style of the subtitle, if any.
    pub fn get_style(&self) -> (r: &Option<TextStyle>)
        ensures
            *r == self@.style,
    {
        &self.style
    }

    /// Sets the style of the subtitle.
    pub fn set_style(&mut self, style: TextStyle)
        ensures
            final(self)@ == (SubtitleView { style: Some(style), ..old(self)@ }),
    {
        self.style = Some(style);
    }

    /// How long the subtitle is shown, in milliseconds (negative when it ends
    /// before it starts).
    pub fn duration(&self) -> (d: i64)
        ensures
            d == ms(self@.end) - ms(self@.start),
    {
        self.end_time.total_millis() as i64 - self.start_time.total_millis() as i64
    }

    /// Whether this subtitle and `other` are shown at a common moment.
    pub fn overlaps_with(&self, other: &Self) -> (b: bool)
        ensures
            b == overlap(self@, other@),
    {
        self.start_time.total_millis() < other.end_time.total_millis() && other.start_time.total_millis()
            < self.end_time.total_millis()
    }

    /// Moves the subtitle by `millis` milliseconds (see `shifted`).
    pub fn shift(&mut self, millis: i64)
        ensures
            final(self)@ == shifted(old(self)@, millis as int),
    {
        let a: i128 = self.start_time.total_millis() as i128 + millis as i128;
        let b: i128 = self.end_time.total_millis() as i128 + millis as i128;
        let s: i128 = if a < 0 { 0 } else { a };
        let e: i128 = if b < s + 100 { s + 100 } else { b };
        self.start_time = time_from_millis(s);
        self.end_time = time_from_millis(e);
    }

    /// The subtitle as a SubRip block (see `srt_block`).
    pub fn to_srt(&self) -> (r: String)
        ensures
            r@ == srt_block(self@),
    {
        let mut out: Vec<char> = Vec::new();
        push_str(&mut out, self.id.as_str());
        push_str(&mut out, "\n");
        push_str(&mut out, self.start_time.to_srt_string().as_str());
        push_str(&mut out, " --> ");
        push_str(&mut out, self.end_time.to_srt_string().as_str());
        push_str(&mut out, "\n");
        push_str(&mut out, self.text.as_str());
        push_str(&mut out, "\n");
        string_from_chars(&out)
    }

    /// The subtitle as a WebVTT cue (see `vtt_cue`).
    pub fn to_vtt(&self) -> (r: String)
        ensures
            r@ == vtt_cue(self@),
    {
        let mut out: Vec<char> = Vec::new();
        if !text_is_empty(self.id.as_str()) {
            push_str(&mut out, self.id.as_str());
            push_str(&mut out, "\n");
        }
        push_str(&mut out, self.start_time.to_vtt_string().as_str());
        push_str(&mut out, " --> ");
        push_str(&mut out, self.end_time.to_vtt_string().as_str());
        match &self.style {
            Some(st) => {
                let settings = st.to_vtt_string();
                if !text_is_empty(settings.as_str()) {
                    push_str(&mut out, " ");
                    push_str(&mut out, settings.as_str());
                }
            },
            None => {},
        }
        push_str(&mut out, "\n");
        push_str(&mut out, self.text.as_str());
        push_str(&mut out, "\n");
        string_from_chars(&out)
    }
}

/// The views of the subtitles of `s`, in order.
pub open spec fn views(s: Seq<Subtitle>) -> Seq<SubtitleView> {
    s.map_values(|x: Subtitle| x@)
}

/// Whether no two subtitles of `s` have the same identifier.
pub open spec fn ids_distinct(s: Seq<SubtitleView>) -> bool {
    forall|i: int, j: int| 0 <= i < j < s.len() ==> #[trigger] s[i].id != #[trigger] s[j].id
}

/// Whether every subtitle of `s` has an identifier.
pub open spec fn ids_nonempty(s: Seq<SubtitleView>) -> bool {
    forall|i: int| 0 <= i < s.len() ==> #[trigger] s[i].id.len() > 0
}

/// What every track holds: subtitles with distinct, non-empty identifiers.
pub open spec fn track_wf(s: Seq<SubtitleView>) -> bool {
    ids_distinct(s) && ids_nonempty(s)
}

/// Index of the first subtitle of `s` with identifier `id`, or -1.
pub open spec fn id_index(s: Seq<SubtitleView>, id: Seq<char>) -> int
    decreases s.len(),
{
    if s.len() == 0 {
        -1
    } else {
        let k = id_index(s.drop_last(), id);
        if k >= 0 {
            k
        } else if s.last().id == id {
            s.len() - 1
        } else {
            -1
        }
    }
}

/// `id_index` gives the first subtitle with the identifier, or -1 when there is none.
pub proof fn lemma_id_index(s: Seq<SubtitleView>, id: Seq<char>)
    ensures
        -1 <= id_index(s, id) < s.len(),
        id_index(s, id) >= 0 ==> s[id_index(s, id)].id == id,
        forall|j: int| 0 <= j < s.len() && (id_index(s, id) < 0 || j < id_index(s, id)) ==> #[trigger] s[j].id != id,
    decreases s.len(),
{
    if s.len() > 0 {
        lemma_id_index(s.drop_last(), id);
        assert forall|j: int| 0 <= j < s.len() && (id_index(s, id) < 0 || j < id_index(s, id)) implies #[trigger] s[j].id
            != id by {
            if j < s.len() - 1 {
                assert(s[j] == s.drop_last()[j]);
            }
        }
    }
}

/// `s` with `x` in place of the subtitle with its identifier, or with `x` added at
/// the end when there is none.
pub open spec fn put(s: Seq<SubtitleView>, x: SubtitleView) -> Seq<SubtitleView> {
    let k = id_index(s, x.id);
    if k >= 0 {
        s.update(k, x)
    } else {
        s.push(x)
    }
}

/// Whether a subtitle of `s` has the decimal notation of `n` as its identifier.
pub open spec fn number_taken(s: Seq<SubtitleView>, n: nat) -> bool {
    id_index(s, decimal(n)) >= 0
}

/// Whether `n` is the first number from one past the count of `s` on that no
/// subtitle of `s` has as its identifier.
pub open spec fn first_free_number(s: Seq<SubtitleView>, n: nat) -> bool {
    &&& n >= s.len() + 1
    &&& !number_taken(s, n)
    &&& forall|m: nat| s.len() + 1 <= m < n ==> #[trigger] number_taken(s, m)
}

/// The number that a subtitle added to `s` without an identifier gets: the first
/// from one past the count of `s` that no subtitle of `s` uses (see
/// `lemma_fresh_number`).
pub closed spec fn fresh_number(s: Seq<SubtitleView>) -> nat {
    choose|n: nat| first_free_number(s, n)
}

/// How many subtitles of `s` have an identifier of digits worth at least `n`.
spec fn numbered_from(s: Seq<SubtitleView>, n: nat) -> nat
    decreases s.len(),
{
    if s.len() == 0 {
        0
    } else {
        numbered_from(s.drop_last(), n) + if all_digits(s.last().id) && digits_value(s.last().id) >= n {
            1nat
        } else {
            0nat
        }
    }
}

proof fn lemma_numbered_from_bound(s: Seq<SubtitleView>, n: nat)
    ensures
        numbered_from(s, n) <= s.len(),
        numbered_from(s, n + 1) <= numbered_from(s, n),
    decreases s.len(),
{
    if s.len() > 0 {
        lemma_numbered_from_bound(s.drop_last(), n);
    }
}

/// A subtitle named by the number `n` counts from `n` on but not from `n + 1`.
proof fn lemma_numbered_from_step(s: Seq<SubtitleView>, n: nat, i: int)
    requires
        0 <= i < s.len(),
        s[i].id == decimal(n),
    ensures
        numbered_from(s, n + 1) < numbered_from(s, n),
    decreases s.len(),
{
    lemma_decimal_digits(n);
    let d = s.drop_last();
    lemma_numbered_from_bound(d, n);
    if i < s.len() - 1 {
        assert(d[i] == s[i]);
        lemma_numbered_from_step(d, n, i);
    }
}

proof fn lemma_free_number_search(s: Seq<SubtitleView>, n: nat)
    requires
        n >= s.len() + 1,
        forall|m: nat| s.len() + 1 <= m < n ==> #[trigger] number_taken(s, m),
        n + numbered_from(s, n) <= 2 * s.len() + 1,
    ensures
        exists|k: nat| first_free_number(s, k) && k <= 2 * s.len() + 1,
    decreases numbered_from(s, n),
{
    if !number_taken(s, n) {
        assert(first_free_number(s, n));
    } else {
        lemma_id_index(s, decimal(n));
        lemma_numbered_from_step(s, n, id_index(s, decimal(n)));
        assert forall|m: nat| s.len() + 1 <= m < n + 1 implies #[trigger] number_taken(s, m) by {
            if m < n {
                assert(number_taken(s, m));
            }
        }
        lemma_free_number_search(s, n + 1);
    }
}

/// There is exactly one first free number, and it is at most twice the count of `s`
/// plus one; no subtitle of `s` has it as its identifier.
pub proof fn lemma_fresh_number(s: Seq<SubtitleView>)
    ensures
        first_free_number(s, fresh_number(s)),
        fresh_number(s) <= 2 * s.len() + 1,
        forall|n: nat| #[trigger] first_free_number(s, n) ==> n == fresh_number(s),
        id_index(s, decimal(fresh_number(s))) < 0,
{
    lemma_numbered_from_bound(s, (s.len() + 1) as nat);
    lemma_free_number_search(s, (s.len() + 1) as nat);
    let k = choose|k: nat| first_free_number(s, k) && k <= 2 * s.len() + 1;
    assert forall|a: nat, b: nat| first_free_number(s, a) && first_free_number(s, b) implies a == b by {
        if a < b {
            assert(number_taken(s, a));
        }
        if b < a {
            assert(number_taken(s, b));
        }
    }
    assert(first_free_number(s, fresh_number(s)));
    assert(fresh_number(s) == k);
}

/// `x`, or, where its identifier is empty, `x` with the decimal notation of the
/// first number from one past the count of `s` that no subtitle of `s` uses.
pub open spec fn with_generated_id(s: Seq<SubtitleView>, x: SubtitleView) -> SubtitleView {
    if x.id.len() == 0 {
        SubtitleView { id: decimal(fresh_number(s)), ..x }
    } else {
        x
    }
}

/// `s` after adding `x` (see `put` and `with_generated_id`).
pub open spec fn added(s: Seq<SubtitleView>, x: SubtitleView) -> Seq<SubtitleView> {
    put(s, with_generated_id(s, x))
}

/// `s` without the subtitle with identifier `id`.
pub open spec fn removed(s: Seq<SubtitleView>, id: Seq<char>) -> Seq<SubtitleView> {
    let k = id_index(s, id);
    if k >= 0 {
        s.remove(k)
    } else {
        s
    }
}

/// `s` after replacing by `x` the subtitle with its identifier: unchanged when the
/// identifier of `x` is empty.
pub open spec fn replaced(s: Seq<SubtitleView>, x: SubtitleView) -> Seq<SubtitleView> {
    if x.id.len() == 0 {
        s
    } else {
        put(s, x)
    }
}

/// Inserts `x` after the last subtitle (from the end) that does not start later:
/// one step of a stable insertion sort by start time.
pub open spec fn insert_by_start(s: Seq<SubtitleView>, x: SubtitleView) -> Seq<SubtitleView>
    decreases s.len(),
{
    if s.len() == 0 || ms(s.last().start) <= ms(x.start) {
        s.push(x)
    } else {
        insert_by_start(s.drop_last(), x).push(s.last())
    }
}

/// The subtitles of `s` ordered by start time, those that start together in
/// their order (a stable sort).
pub open spec fn sorted_by_start(s: Seq<SubtitleView>) -> Seq<SubtitleView>
    decreases s.len(),
{
    if s.len() == 0 {
        s
    } else {
        insert_by_start(sorted_by_start(s.drop_last()), s.last())
    }
}

/// The subtitles of `s`, in order, that are shown at some moment after `from`
/// and before `to` milliseconds.
pub open spec fn in_range(s: Seq<SubtitleView>, from: int, to: int) -> Seq<SubtitleView>
    decreases s.len(),
{
    if s.len() == 0 {
        s
    } else {
        let r = in_range(s.drop_last(), from, to);
        if ms(s.last().end) > from && ms(s.last().start) < to {
            r.push(s.last())
        } else {
            r
        }
    }
}

/// The subtitles in a range are exactly those of the track that end after `from`
/// and start before `to`, in the track's order: each one returned meets both
/// bounds and comes from the track, every one of the track that meets both is
/// returned, and none comes more often than in the track.
pub proof fn lemma_in_range_members(s: Seq<SubtitleView>, from: int, to: int)
    ensures
        in_range(s, from, to).len() <= s.len(),
        forall|k: int| 0 <= k < in_range(s, from, to).len() ==> ms(#[trigger] in_range(s, from, to)[k].end) > from
            && ms(in_range(s, from, to)[k].start) < to && s.contains(in_range(s, from, to)[k]),
        forall|k: int| 0 <= k < s.len() && ms(s[k].end) > from && ms(s[k].start) < to ==> in_range(s, from, to).contains(
            #[trigger] s[k],
        ),
        (forall|k: int| 0 <= k < s.len() ==> ms(#[trigger] s[k].end) > from && ms(s[k].start) < to) ==> in_range(
            s,
            from,
            to,
        ) == s,
    decreases s.len(),
{
    if s.len() > 0 {
        let d = s.drop_last();
        lemma_in_range_members(d, from, to);
        let r = in_range(d, from, to);
        let x = s.last();
        assert forall|k: int| 0 <= k < d.len() implies #[trigger] s[k] == d[k] by {}
        let out = in_range(s, from, to);
        assert forall|k: int| 0 <= k < out.len() implies ms(#[trigger] out[k].end) > from && ms(out[k].start) < to
            && s.contains(out[k]) by {
            if k < r.len() {
                assert(out[k] == r[k]);
                assert(ms(r[k].end) > from && d.contains(r[k]));
                let m = choose|m: int| 0 <= m < d.len() && d[m] == r[k];
                assert(s[m] == d[m]);
            } else {
                assert(out[k] == x);
                assert(s[s.len() - 1] == x);
            }
        }
        assert forall|k: int| 0 <= k < s.len() && ms(s[k].end) > from && ms(s[k].start) < to implies out.contains(
            #[trigger] s[k],
        ) by {
            if k < d.len() {
                assert(s[k] == d[k]);
                assert(r.contains(d[k]));
                let m = choose|m: int| 0 <= m < r.len() && r[m] == d[k];
                assert(out[m] == r[m]);
            } else {
                assert(s[k] == x);
                assert(out[out.len() - 1] == x);
            }
        }
        if forall|k: int| 0 <= k < s.len() ==> ms(#[trigger] s[k].end) > from && ms(s[k].start) < to {
            assert forall|k: int| 0 <= k < d.len() implies ms(#[trigger] d[k].end) > from && ms(d[k].start) < to by {
                assert(s[k] == d[k]);
            }
            assert(s[s.len() - 1] == x);
            assert(d.push(x) =~= s);
        }
    }
}

/// Every subtitle of `s` moved by `delta` milliseconds.
pub open spec fn all_shifted(s: Seq<SubtitleView>, delta: int) -> Seq<SubtitleView> {
    s.map_values(|x: SubtitleView| shifted(x, delta))
}

/// The identifier pairs of subtitle `i` of `s` with each later subtitle before
/// index `m` that it overlaps, in order.
pub open spec fn overlap_row(s: Seq<SubtitleView>, i: int, m: int) -> Seq<(Seq<char>, Seq<char>)>
    decreases m - i,
{
    if m <= i + 1 {
        Seq::empty()
    } else {
        let r = overlap_row(s, i, m - 1);
        if overlap(s[i], s[m - 1]) {
            r.push((s[i].id, s[m - 1].id))
        } else {
            r
        }
    }
}

/// The overlapping pairs whose first subtitle is among the first `n` of `s`.
pub open spec fn overlap_pairs_upto(s: Seq<SubtitleView>, n: int) -> Seq<(Seq<char>, Seq<char>)>
    decreases n,
{
    if n <= 0 {
        Seq::empty()
    } else {
        overlap_pairs_upto(s, n - 1) + overlap_row(s, n - 1, s.len() as int)
    }
}

/// The identifier pairs of all subtitles of `s` that overlap, the first of each
/// pair before the second, ordered by first and then by second.
pub open spec fn overlap_pairs(s: Seq<SubtitleView>) -> Seq<(Seq<char>, Seq<char>)> {
    overlap_pairs_upto(s, s.len() as int)
}

/// The SubRip blocks of `t`, numbered from 1 in order, each followed by an empty
/// line.
pub open spec fn srt_blocks(t: Seq<SubtitleView>) -> Seq<char>
    decreases t.len(),
{
    if t.len() == 0 {
        Seq::empty()
    } else {
        srt_blocks(t.drop_last()) + srt_block(SubtitleView { id: decimal(t.len()), ..t.last() }) + "\n"@
    }
}

/// The SubRip file of the subtitles `s`: ordered by start time and numbered.
pub open spec fn srt_document(s: Seq<SubtitleView>) -> Seq<char> {
    srt_blocks(sorted_by_start(s))
}

/// The WebVTT cues of `t` in order, each followed by an empty line.
pub open spec fn vtt_cues(t: Seq<SubtitleView>) -> Seq<char>
    decreases t.len(),
{
    if t.len() == 0 {
        Seq::empty()
    } else {
        vtt_cues(t.drop_last()) + vtt_cue(t.last()) + "\n"@
    }
}

/// The WebVTT file of the subtitles `s`: the header, then the cues ordered by
/// start time.
pub open spec fn vtt_document(s: Seq<SubtitleView>) -> Seq<char> {
    "WEBVTT\n\n"@ + vtt_cues(sorted_by_start(s))
}

/// The identifier pairs as texts.
pub open spec fn pair_views(r: Seq<(String, String)>) -> Seq<(Seq<char>, Seq<char>)> {
    r.map_values(|p: (String, String)| (p.0@, p.1@))
}

proof fn lemma_put_wf(s: Seq<SubtitleView>, x: SubtitleView)
    requires
        track_wf(s),
        x.id.len() > 0,
    ensures
        track_wf(put(s, x)),
{
    lemma_id_index(s, x.id);
    let r = put(s, x);
    let k = id_index(s, x.id);
    assert forall|i: int, j: int| 0 <= i < j < r.len() implies #[trigger] r[i].id != #[trigger] r[j].id by {
        if k < 0 && j == s.len() {
            assert(s[i].id != x.id);
        } else if k >= 0 && i == k {
            assert(s[j].id != s[k].id);
        } else if k >= 0 && j == k {
            assert(s[i].id != s[k].id);
        } else {
            assert(s[i].id != s[j].id);
        }
    }
    assert forall|i: int| 0 <= i < r.len() implies #[trigger] r[i].id.len() > 0 by {
        if i < s.len() && i != k {
            assert(r[i] == s[i]);
        }
    }
}

/// Adding a subtitle grows a track by at most one.
pub proof fn lemma_added_len(s: Seq<SubtitleView>, x: SubtitleView)
    ensures
        added(s, x).len() <= s.len() + 1,
{
    lemma_id_index(s, with_generated_id(s, x).id);
}

proof fn lemma_decimal_nonempty(n: nat)
    ensures
        decimal(n).len() > 0,
{
}

proof fn lemma_remove_wf(s: Seq<SubtitleView>, k: int)
    requires
        track_wf(s),
        0 <= k < s.len(),
    ensures
        track_wf(s.remove(k)),
{
    let r = s.remove(k);
    assert forall|i: int, j: int| 0 <= i < j < r.len() implies #[trigger] r[i].id != #[trigger] r[j].id by {
        let a = if i < k { i } else { i + 1 };
        let b = if j < k { j } else { j + 1 };
        assert(r[i] == s[a]);
        assert(r[j] == s[b]);
        assert(s[a].id != s[b].id);
    }
    assert forall|i: int| 0 <= i < r.len() implies #[trigger] r[i].id.len() > 0 by {
        let a = if i < k { i } else { i + 1 };
        assert(r[i] == s[a]);
    }
}

/// Whether some subtitle of `s` has the identifier `id`.
pub open spec fn has_id(s: Seq<SubtitleView>, id: Seq<char>) -> bool {
    exists|i: int| 0 <= i < s.len() && #[trigger] s[i].id == id
}

proof fn lemma_insert_by_start_wf(t: Seq<SubtitleView>, x: SubtitleView)
    requires
        track_wf(t),
        x.id.len() > 0,
        !has_id(t, x.id),
    ensures
        track_wf(insert_by_start(t, x)),
        insert_by_start(t, x).len() == t.len() + 1,
        forall|id: Seq<char>| #[trigger] has_id(insert_by_start(t, x), id) == (id == x.id || has_id(t, id)),
    decreases t.len(),
{
    let r = insert_by_start(t, x);
    if t.len() == 0 || ms(t.last().start) <= ms(x.start) {
        assert forall|i: int, j: int| 0 <= i < j < r.len() implies #[trigger] r[i].id != #[trigger] r[j].id by {
            if j == t.len() {
                assert(r[i] == t[i]);
                if t[i].id == x.id {
                    assert(has_id(t, x.id));
                }
            } else {
                assert(r[i] == t[i] && r[j] == t[j]);
            }
        }
        assert forall|i: int| 0 <= i < r.len() implies #[trigger] r[i].id.len() > 0 by {
            if i < t.len() {
                assert(r[i] == t[i]);
            }
        }
        assert forall|id: Seq<char>| #[trigger] has_id(r, id) == (id == x.id || has_id(t, id)) by {
            if has_id(r, id) {
                let i = choose|i: int| 0 <= i < r.len() && #[trigger] r[i].id == id;
                if i < t.len() {
                    assert(r[i] == t[i]);
                }
            }
            if id == x.id {
                assert(r[t.len() as int].id == id);
            }
            if has_id(t, id) {
                let i = choose|i: int| 0 <= i < t.len() && #[trigger] t[i].id == id;
                assert(r[i] == t[i]);
            }
        }
    } else {
        let d = t.drop_last();
        assert(track_wf(d)) by {
            assert forall|i: int, j: int| 0 <= i < j < d.len() implies #[trigger] d[i].id != #[trigger] d[j].id by {
                assert(d[i] == t[i] && d[j] == t[j]);
            }
            assert forall|i: int| 0 <= i < d.len() implies #[trigger] d[i].id.len() > 0 by {
                assert(d[i] == t[i]);
            }
        }
        assert(!has_id(d, x.id)) by {
            if has_id(d, x.id) {
                let i = choose|i: int| 0 <= i < d.len() && #[trigger] d[i].id == x.id;
                assert(t[i] == d[i]);
            }
        }
        lemma_insert_by_start_wf(d, x);
        let q = insert_by_start(d, x);
        let y = t.last();
        assert(!has_id(q, y.id)) by {
            if has_id(q, y.id) {
                if y.id == x.id {
                    assert(t[t.len() - 1].id == x.id);
                } else {
                    let i = choose|i: int| 0 <= i < d.len() && #[trigger] d[i].id == y.id;
                    assert(t[i] == d[i]);
                    assert(t[i].id != t[t.len() - 1].id);
                }
            }
        }
        assert(r == q.push(y));
        assert forall|i: int, j: int| 0 <= i < j < r.len() implies #[trigger] r[i].id != #[trigger] r[j].id by {
            if j == q.len() {
                assert(r[i] == q[i]);
                if q[i].id == y.id {
                    assert(has_id(q, y.id));
                }
            } else {
                assert(r[i] == q[i] && r[j] == q[j]);
            }
        }
        assert forall|i: int| 0 <= i < r.len() implies #[trigger] r[i].id.len() > 0 by {
            if i < q.len() {
                assert(r[i] == q[i]);
            } else {
                assert(t[t.len() - 1].id.len() > 0);
            }
        }
        assert forall|id: Seq<char>| #[trigger] has_id(r, id) == (id == x.id || has_id(t, id)) by {
            if has_id(r, id) {
                let i = choose|i: int| 0 <= i < r.len() && #[trigger] r[i].id == id;
                if i < q.len() {
                    assert(r[i] == q[i]);
                    assert(has_id(q, id));
                    if id != x.id {
                        assert(has_id(d, id));
                        let k = choose|k: int| 0 <= k < d.len() && #[trigger] d[k].id == id;
                        assert(t[k] == d[k]);
                    }
                } else {
                    assert(t[t.len() - 1].id == id);
                }
            }
            if id == x.id {
                assert(has_id(q, id));
                let k = choose|k: int| 0 <= k < q.len() && #[trigger] q[k].id == id;
                assert(r[k] == q[k]);
            }
            if has_id(t, id) {
                let k = choose|k: int| 0 <= k < t.len() && #[trigger] t[k].id == id;
                if k < d.len() {
                    assert(d[k] == t[k]);
                    assert(has_id(d, id));
                    assert(has_id(q, id));
                    let m = choose|m: int| 0 <= m < q.len() && #[trigger] q[m].id == id;
                    assert(r[m] == q[m]);
                } else {
                    assert(r[q.len() as int] == y);
                }
            }
        }
    }
}

proof fn lemma_sorted_wf(s: Seq<SubtitleView>)
    requires
        track_wf(s),
    ensures
        track_wf(sorted_by_start(s)),
        sorted_by_start(s).len() == s.len(),
        forall|id: Seq<char>| #[trigger] has_id(sorted_by_start(s), id) == has_id(s, id),
    decreases s.len(),
{
    if s.len() > 0 {
        let d = s.drop_last();
        assert(track_wf(d)) by {
            assert forall|i: int, j: int| 0 <= i < j < d.len() implies #[trigger] d[i].id != #[trigger] d[j].id by {
                assert(d[i] == s[i] && d[j] == s[j]);
            }
            assert forall|i: int| 0 <= i < d.len() implies #[trigger] d[i].id.len() > 0 by {
                assert(d[i] == s[i]);
            }
        }
        lemma_sorted_wf(d);
        let x = s.last();
        assert(!has_id(sorted_by_start(d), x.id)) by {
            if has_id(d, x.id) {
                let i = choose|i: int| 0 <= i < d.len() && #[trigger] d[i].id == x.id;
                assert(s[i] == d[i]);
                assert(s[i].id != s[s.len() - 1].id);
            }
        }
        assert(x.id.len() > 0) by {
            assert(s[s.len() - 1].id.len() > 0);
        }
        lemma_insert_by_start_wf(sorted_by_start(d), x);
        assert forall|id: Seq<char>| #[trigger] has_id(sorted_by_start(s), id) == has_id(s, id) by {
            if has_id(d, id) {
                let i = choose|i: int| 0 <= i < d.len() && #[trigger] d[i].id == id;
                assert(s[i] == d[i]);
            }
            if has_id(s, id) && id != x.id {
                let i = choose|i: int| 0 <= i < s.len() && #[trigger] s[i].id == id;
                assert(i < d.len());
                assert(d[i] == s[i]);
            }
        }
    }
}

proof fn lemma_insert_by_start(s: Seq<SubtitleView>, x: SubtitleView, k: int)
    requires
        0 <= k <= s.len(),
        forall|j: int| k <= j < s.len() ==> ms(#[trigger] s[j].start) > ms(x.start),
        k == 0 || ms(s[k - 1].start) <= ms(x.start),
    ensures
        insert_by_start(s, x) == s.take(k).push(x) + s.skip(k),
    decreases s.len(),
{
    if s.len() == 0 || ms(s.last().start) <= ms(x.start) {
        if k < s.len() {
            assert(ms(s[s.len() - 1].start) > ms(x.start));
        }
        assert(s.take(s.len() as int) == s);
        assert(s.skip(s.len() as int) =~= Seq::<SubtitleView>::empty());
    } else {
        let t = s.drop_last();
        assert forall|j: int| k <= j < t.len() implies ms(#[trigger] t[j].start) > ms(x.start) by {
            assert(t[j] == s[j]);
        }
        if k > 0 {
            assert(t[k - 1] == s[k - 1]);
        }
        lemma_insert_by_start(t, x, k);
        assert(t.take(k) == s.take(k));
        assert(t.skip(k).push(s.last()) =~= s.skip(k));
        assert((t.take(k).push(x) + t.skip(k)).push(s.last()) =~= t.take(k).push(x) + t.skip(k).push(s.last()));
    }
}

/// Whether the subtitles of `s` start in order.
pub open spec fn starts_ordered(s: Seq<SubtitleView>) -> bool {
    forall|i: int, j: int| 0 <= i <= j < s.len() ==> ms(#[trigger] s[i].start) <= ms(#[trigger] s[j].start)
}

proof fn lemma_insert_bounded(t: Seq<SubtitleView>, x: SubtitleView, b: int)
    requires
        forall|k: int| 0 <= k < t.len() ==> ms(#[trigger] t[k].start) <= b,
        ms(x.start) <= b,
    ensures
        forall|k: int| 0 <= k < insert_by_start(t, x).len() ==> ms(#[trigger] insert_by_start(t, x)[k].start) <= b,
        insert_by_start(t, x).len() == t.len() + 1,
    decreases t.len(),
{
    if !(t.len() == 0 || ms(t.last().start) <= ms(x.start)) {
        let d = t.drop_last();
        assert forall|k: int| 0 <= k < d.len() implies ms(#[trigger] d[k].start) <= b by {
            assert(d[k] == t[k]);
        }
        lemma_insert_bounded(d, x, b);
        assert(ms(t[t.len() - 1].start) <= b);
    }
}

proof fn lemma_insert_ordered(t: Seq<SubtitleView>, x: SubtitleView)
    requires
        starts_ordered(t),
    ensures
        starts_ordered(insert_by_start(t, x)),
        insert_by_start(t, x).len() == t.len() + 1,
    decreases t.len(),
{
    let r = insert_by_start(t, x);
    if t.len() == 0 || ms(t.last().start) <= ms(x.start) {
        assert forall|i: int, j: int| 0 <= i <= j < r.len() implies ms(#[trigger] r[i].start) <= ms(
            #[trigger] r[j].start,
        ) by {
            if j == t.len() && i < t.len() {
                assert(ms(t[i].start) <= ms(t[t.len() - 1].start));
            }
        }
    } else {
        let d = t.drop_last();
        assert(starts_ordered(d)) by {
            assert forall|i: int, j: int| 0 <= i <= j < d.len() implies ms(#[trigger] d[i].start) <= ms(
                #[trigger] d[j].start,
            ) by {
                assert(d[i] == t[i] && d[j] == t[j]);
            }
        }
        lemma_insert_ordered(d, x);
        let last = t[t.len() - 1];
        assert forall|k: int| 0 <= k < d.len() implies ms(#[trigger] d[k].start) <= ms(last.start) by {
            assert(d[k] == t[k]);
        }
        lemma_insert_bounded(d, x, ms(last.start));
        let q = insert_by_start(d, x);
        assert(r == q.push(last));
        assert forall|i: int, j: int| 0 <= i <= j < r.len() implies ms(#[trigger] r[i].start) <= ms(
            #[trigger] r[j].start,
        ) by {
            if j == q.len() && i < q.len() {
                assert(r[i] == q[i]);
            } else if j < q.len() {
                assert(r[i] == q[i] && r[j] == q[j]);
            }
        }
    }
}

/// After sorting, the subtitles start in order, and none is lost or added.
pub proof fn lemma_sorted_by_start_ordered(s: Seq<SubtitleView>)
    ensures
        starts_ordered(sorted_by_start(s)),
        sorted_by_start(s).len() == s.len(),
    decreases s.len(),
{
    if s.len() > 0 {
        lemma_sorted_by_start_ordered(s.drop_last());
        lemma_insert_ordered(sorted_by_start(s.drop_last()), s.last());
    }
}

/// In a track whose identifiers are distinct, the only index holding an
/// identifier is the one `id_index` finds.
proof fn lemma_id_index_unique(s: Seq<SubtitleView>, j: int)
    requires
        track_wf(s),
        0 <= j < s.len(),
    ensures
        id_index(s, s[j].id) == j,
{
    lemma_id_index(s, s[j].id);
    let k = id_index(s, s[j].id);
    if k >= 0 && k != j {
        if k < j {
            assert(s[k].id != s[j].id);
        } else {
            assert(s[j].id != s[k].id);
        }
    }
}

/// After a subtitle with an identifier is added to a track, the track holds it
/// under that identifier, and still has distinct, non-empty identifiers.
pub proof fn lemma_added_found(s: Seq<SubtitleView>, x: SubtitleView)
    requires
        track_wf(s),
        x.id.len() > 0,
    ensures
        track_wf(added(s, x)),
        id_index(added(s, x), x.id) >= 0,
        added(s, x)[id_index(added(s, x), x.id)] == x,
{
    lemma_id_index(s, x.id);
    lemma_put_wf(s, x);
    let r = added(s, x);
    assert(r == put(s, x));
    let k = id_index(s, x.id);
    let j = if k >= 0 { k } else { s.len() as int };
    assert(r[j] == x);
    lemma_id_index_unique(r, j);
}

/// After the subtitle with an identifier is removed from a track, the track holds
/// none with that identifier.
pub proof fn lemma_removed_absent(s: Seq<SubtitleView>, id: Seq<char>)
    requires
        track_wf(s),
    ensures
        id_index(removed(s, id), id) == -1,
{
    lemma_id_index(s, id);
    let k = id_index(s, id);
    if k >= 0 {
        let r = s.remove(k);
        lemma_id_index(r, id);
        let m = id_index(r, id);
        if m >= 0 {
            let a = if m < k { m } else { m + 1 };
            assert(r[m] == s[a]);
            if a < k {
                assert(s[a].id != s[k].id);
            } else {
                assert(s[k].id != s[a].id);
            }
        }
    }
}

/// Inserts `x` into `v` as one step of the stable sort by start time.
fn insert_by_start_exec(v: &mut Vec<Subtitle>, x: Subtitle)
    ensures
        views(final(v)@) == insert_by_start(views(old(v)@), x@),
{
    let ghost s = views(v@);
    let mut j = v.len();
    let xs = x.get_start().total_millis();
    while j > 0 && v[j - 1].get_start().total_millis() > xs
        invariant
            0 <= j <= v.len(),
            v@ == old(v)@,
            s == views(v@),
            xs == ms(x@.start),
            forall|k: int| j <= k < v.len() ==> ms(#[trigger] s[k].start) > ms(x@.start),
        decreases j,
    {
        assert(s[j - 1] == v@[j - 1]@);
        j = j - 1;
    }
    proof {
        if j > 0 {
            assert(s[j - 1] == v@[j - 1]@);
        }
        lemma_insert_by_start(s, x@, j as int);
    }
    v.insert(j, x);
    assert(views(v@) =~= s.take(j as int).push(x@) + s.skip(j as int));
}

/// Copies of the subtitles of `v` ordered by start time (see `sorted_by_start`).
fn sorted_copy(v: &Vec<Subtitle>) -> (r: Vec<Subtitle>)
    ensures
        views(r@) == sorted_by_start(views(v@)),
{
    let ghost s = views(v@);
    let mut r: Vec<Subtitle> = Vec::new();
    let mut i: usize = 0;
    assert(s.take(0) =~= Seq::<SubtitleView>::empty());
    assert(views(r@) =~= Seq::<SubtitleView>::empty());
    while i < v.len()
        invariant
            0 <= i <= v.len(),
            s == views(v@),
            views(r@) == sorted_by_start(s.take(i as int)),
        decreases v.len() - i,
    {
        assert(s.take(i + 1).drop_last() == s.take(i as int));
        assert(s.take(i + 1).last() == v@[i as int]@);
        insert_by_start_exec(&mut r, v[i].copy_of());
        i = i + 1;
    }
    assert(s.take(v.len() as int) == s);
    r
}

/// A track of subtitles with distinct identifiers, in order.
#[derive(Debug)]
pub struct SubtitleTrack {
    subtitles: Vec<Subtitle>,
}

impl View for SubtitleTrack {
    type V = Seq<SubtitleView>;

    closed spec fn view(&self) -> Seq<SubtitleView> {
        views(self.subtitles@)
    }
}

impl SubtitleTrack {
    /// Every subtitle has an identifier, and no two the same.
    #[verifier::type_invariant]
    spec fn inv(self) -> bool {
        track_wf(views(self.subtitles@))
    }

    /// An empty track.
    pub fn new() -> (t: Self)
        ensures
            t@ == Seq::<SubtitleView>::empty(),
    {
        let t = SubtitleTrack { subtitles: Vec::new() };
        assert(t@ =~= Seq::<SubtitleView>::empty());
        t
    }

    /// A copy of the track.
    pub fn copy_of(&self) -> (t: Self)
        ensures
            t@ == self@,
    {
        proof {
            use_type_invariant(self);
        }
        let mut v: Vec<Subtitle> = Vec::new();
        let mut i: usize = 0;
        while i < self.subtitles.len()
            invariant
                0 <= i <= self.subtitles.len(),
                views(v@) == views(self.subtitles@).take(i as int),
            decreases self.subtitles.len() - i,
        {
            let ghost before = v@;
            let c = self.subtitles[i].copy_of();
            v.push(c);
            assert(views(v@) =~= views(before).push(c@));
            assert(views(v@) =~= views(self.subtitles@).take(i + 1));
            i = i + 1;
        }
        assert(views(v@) =~= views(self.subtitles@));
        SubtitleTrack { subtitles: v }
    }

    /// The number of subtitles.
    pub fn len(&self) -> (n: usize)
        ensures
            n == self@.len(),
    {
        self.subtitles.len()
    }

    /// Whether the track holds no subtitle.
    pub fn is_empty(&self) -> (b: bool)
        ensures
            b == (self@.len() == 0),
    {
        self.subtitles.len() == 0
    }

    /// The subtitles have distinct, non-empty identifiers.
    pub fn well_formed(&self) -> (b: bool)
        ensures
            b,
            track_wf(self@),
    {
        proof {
            use_type_invariant(self);
        }
        true
    }

    /// Index of the subtitle with identifier `id`.
    pub(crate) fn position_of(&self, id: &str) -> (r: Option<usize>)
        ensures
            match r {
                Some(i) => id_index(self@, id@) == i && i < self@.len(),
                None => id_index(self@, id@) == -1,
            },
    {
        let ghost s = self@;
        proof {
            lemma_id_index(s, id@);
        }
        let mut i: usize = 0;
        while i < self.subtitles.len()
            invariant
                0 <= i <= self.subtitles.len(),
                s == views(self.subtitles@),
                forall|j: int| 0 <= j < i ==> #[trigger] s[j].id != id@,
            decreases self.subtitles.len() - i,
        {
            assert(s[i as int] == self.subtitles@[i as int]@);
            if text_eq(self.subtitles[i].get_id(), id) {
                proof {
                    lemma_id_index(s, id@);
                    let k = id_index(s, id@);
                    if k >= 0 && k < i {
                        assert(s[k].id == id@);
                    }
                }
                return Some(i);
            }
            i = i + 1;
        }
        None
    }

    /// The subtitle at index `k`.
    pub(crate) fn subtitle_at(&self, k: usize) -> (x: &Subtitle)
        requires
            k < self@.len(),
        ensures
            x@ == self@[k as int],
    {
        &self.subtitles[k]
    }

    /// Sets the subtitle at index `k` to `x`, which has the same identifier.
    pub(crate) fn set_at(&mut self, k: usize, x: Subtitle)
        requires
            k < old(self)@.len(),
            x@.id == old(self)@[k as int].id,
        ensures
            final(self)@ == old(self)@.update(k as int, x@),
            track_wf(final(self)@),
    {
        proof {
            use_type_invariant(&*self);
        }
        let ghost s = self@;
        let ghost xv = x@;
        let mut v: Vec<Subtitle> = Vec::new();
        std::mem::swap(&mut v, &mut self.subtitles);
        v.set(k, x);
        assert(views(v@) =~= s.update(k as int, xv));
        proof {
            assert forall|i: int, j: int| 0 <= i < j < views(v@).len() implies #[trigger] views(v@)[i].id
                != #[trigger] views(v@)[j].id by {
                assert(s[i].id != s[j].id);
            }
            assert forall|i: int| 0 <= i < views(v@).len() implies #[trigger] views(v@)[i].id.len() > 0 by {
                assert(s[i].id.len() > 0);
            }
        }
        self.subtitles = v;
    }

    /// Adds `subtitle` (see `added`): it replaces the subtitle with its
    /// identifier, or comes last. One with an empty identifier is given a new one,
    /// the first of the numbers from one past the count of subtitles that no
    /// subtitle uses, and comes last; the others stay as they were.
    pub fn add_subtitle(&mut self, subtitle: Subtitle)
        requires
            old(self)@.len() < usize::MAX,
        ensures
            final(self)@ == added(old(self)@, subtitle@),
            track_wf(final(self)@),
            subtitle@.id.len() == 0 ==> final(self)@ == old(self)@.push(with_generated_id(old(self)@, subtitle@))
                && id_index(old(self)@, final(self)@.last().id) < 0,
    {
        proof {
            use_type_invariant(&*self);
        }
        let ghost s = self@;
        let mut sub = subtitle;
        if text_is_empty(sub.get_id()) {
            proof {
                lemma_fresh_number(s);
                lemma_numbered_from_bound(s, (s.len() + 1) as nat);
            }
            let mut n: u128 = self.subtitles.len() as u128 + 1;
            let mut idv: Vec<char> = Vec::new();
            push_decimal_wide(&mut idv, n);
            let mut candidate = string_from_chars(&idv);
            while self.position_of(candidate.as_str()).is_some()
                invariant
                    self@ == s,
                    n >= s.len() + 1,
                    candidate@ == decimal(n as nat),
                    forall|m: nat| s.len() + 1 <= m < n ==> #[trigger] number_taken(s, m),
                    n + numbered_from(s, n as nat) <= 2 * s.len() + 1,
                    s.len() < usize::MAX,
                decreases numbered_from(s, n as nat),
            {
                proof {
                    lemma_id_index(s, decimal(n as nat));
                    lemma_numbered_from_step(s, n as nat, id_index(s, decimal(n as nat)));
                    assert forall|m: nat| s.len() + 1 <= m < n + 1 implies #[trigger] number_taken(s, m) by {
                        if m < n {
                            assert(number_taken(s, m));
                        }
                    }
                }
                n = n + 1;
                let mut next: Vec<char> = Vec::new();
                push_decimal_wide(&mut next, n);
                candidate = string_from_chars(&next);
            }
            proof {
                assert(first_free_number(s, n as nat));
                lemma_decimal_nonempty(n as nat);
            }
            sub.set_id(candidate.as_str());
        }
        assert(sub@ == with_generated_id(s, subtitle@));
        self.put_subtitle(sub);
        proof {
            if subtitle@.id.len() == 0 {
                lemma_fresh_number(s);
                assert(self@.last() == with_generated_id(s, subtitle@));
            }
        }
    }

    /// Puts `x`, whose identifier is not empty, in place of the subtitle with its
    /// identifier, or last.
    fn put_subtitle(&mut self, x: Subtitle)
        requires
            x@.id.len() > 0,
        ensures
            final(self)@ == put(old(self)@, x@),
            track_wf(final(self)@),
    {
        proof {
            use_type_invariant(&*self);
        }
        let ghost s = self@;
        let ghost xv = x@;
        proof {
            lemma_put_wf(s, xv);
        }
        match self.position_of(x.get_id()) {
            Some(k) => {
                let mut v: Vec<Subtitle> = Vec::new();
        std::mem::swap(&mut v, &mut self.subtitles);
                v.set(k, x);
                assert(views(v@) =~= s.update(k as int, xv));
                self.subtitles = v;
            },
            None => {
                let mut v: Vec<Subtitle> = Vec::new();
        std::mem::swap(&mut v, &mut self.subtitles);
                v.push(x);
                assert(views(v@) =~= s.push(xv));
                self.subtitles = v;
            },
        }
    }

    /// Removes the subtitle with identifier `id`; whether there was one.
    pub fn remove_subtitle(&mut self, id: &str) -> (b: bool)
        ensures
            b == (id_index(old(self)@, id@) >= 0),
            final(self)@ == removed(old(self)@, id@),
            track_wf(final(self)@),
    {
        proof {
            use_type_invariant(&*self);
        }
        let ghost s = self@;
        match self.position_of(id) {
            Some(k) => {
                proof {
                    lemma_remove_wf(s, k as int);
                }
                let mut v: Vec<Subtitle> = Vec::new();
        std::mem::swap(&mut v, &mut self.subtitles);
                let _gone = v.remove(k);
                assert(views(v@) =~= s.remove(k as int));
                self.subtitles = v;
                true
            },
            None => false,
        }
    }

    /// Replaces the subtitle with the identifier of `subtitle` by it, or adds it
    /// last; nothing happens when that identifier is empty (see `replaced`).
    pub fn replace_subtitle(&mut self, subtitle: Subtitle)
        ensures
            final(self)@ == replaced(old(self)@, subtitle@),
            track_wf(final(self)@),
    {
        proof {
            use_type_invariant(&*self);
        }
        if !text_is_empty(subtitle.get_id()) {
            self.put_subtitle(subtitle);
        }
    }

    /// The subtitle with identifier `id`, if any.
    pub fn get_subtitle(&self, id: &str) -> (r: Option<&Subtitle>)
        ensures
            match r {
                Some(x) => id_index(self@, id@) >= 0 && x@ == self@[id_index(self@, id@)],
                None => id_index(self@, id@) == -1,
            },
    {
        match self.position_of(id) {
            Some(k) => Some(&self.subtitles[k]),
            None => None,
        }
    }

    /// The subtitles, in order.
    pub fn get_subtitles(&self) -> (r: &[Subtitle])
        ensures
            views(r@) == self@,
    {
        self.subtitles.as_slice()
    }

    /// The subtitles shown at some moment after `start` and before `end`
    /// milliseconds, in order (see `in_range`).
    pub fn get_subtitles_in_range(&self, start: u64, end: u64) -> (r: Vec<&Subtitle>)
        ensures
            r@.map_values(|x: &Subtitle| x@) == in_range(self@, start as int, end as int),
    {
        let ghost s = self@;
        let mut r: Vec<&Subtitle> = Vec::new();
        let mut i: usize = 0;
        assert(s.take(0) =~= Seq::<SubtitleView>::empty());
        assert(r@.map_values(|x: &Subtitle| x@) =~= Seq::<SubtitleView>::empty());
        while i < self.subtitles.len()
            invariant
                0 <= i <= self.subtitles.len(),
                s == views(self.subtitles@),
                r@.map_values(|x: &Subtitle| x@) == in_range(s.take(i as int), start as int, end as int),
            decreases self.subtitles.len() - i,
        {
            assert(s.take(i + 1).drop_last() == s.take(i as int));
            assert(s.take(i + 1).last() == self.subtitles@[i as int]@);
            let x = &self.subtitles[i];
            if x.get_end().total_millis() > start && x.get_start().total_millis() < end {
                let ghost before = r@;
                r.push(x);
                assert(r@.map_values(|y: &Subtitle| y@) =~= before.map_values(|y: &Subtitle| y@).push(x@));
            }
            i = i + 1;
        }
        assert(s.take(s.len() as int) == s);
        r
    }

    /// Orders the subtitles by start time, keeping the order of those that start
    /// together.
    pub fn sort(&mut self)
        ensures
            final(self)@ == sorted_by_start(old(self)@),
            track_wf(final(self)@),
    {
        proof {
            use_type_invariant(&*self);
            lemma_sorted_wf(self@);
        }
        let v = sorted_copy(&self.subtitles);
        self.subtitles = v;
    }

    /// Moves every subtitle by `millis` milliseconds (see `shifted`).
    pub fn shift_all(&mut self, millis: i64)
        ensures
            final(self)@ == all_shifted(old(self)@, millis as int),
            track_wf(final(self)@),
    {
        proof {
            use_type_invariant(&*self);
        }
        let ghost s = self@;
        let mut v: Vec<Subtitle> = Vec::new();
        let mut i: usize = 0;
        while i < self.subtitles.len()
            invariant
                0 <= i <= self.subtitles.len(),
                s == views(self.subtitles@),
                track_wf(s),
                views(v@) == all_shifted(s, millis as int).take(i as int),
            decreases self.subtitles.len() - i,
        {
            assert(s[i as int] == self.subtitles@[i as int]@);
            let mut x = self.subtitles[i].copy_of();
            x.shift(millis);
            assert(x@ == all_shifted(s, millis as int)[i as int]);
            let ghost before = v@;
            let ghost xv = x@;
            v.push(x);
            assert(views(v@) =~= views(before).push(xv));
            assert(views(v@) =~= all_shifted(s, millis as int).take(i + 1));
            i = i + 1;
        }
        assert(views(v@) =~= all_shifted(s, millis as int));
        proof {
            let r = all_shifted(s, millis as int);
            assert forall|a: int, b: int| 0 <= a < b < r.len() implies #[trigger] r[a].id != #[trigger] r[b].id by {
                assert(s[a].id != s[b].id);
            }
            assert forall|a: int| 0 <= a < r.len() implies #[trigger] r[a].id.len() > 0 by {
                assert(s[a].id.len() > 0);
            }
        }
        self.subtitles = v;
    }

    /// The identifier pairs of overlapping subtitles (see `overlap_pairs`).
    pub fn find_overlaps(&self) -> (r: Vec<(String, String)>)
        ensures
            pair_views(r@) == overlap_pairs(self@),
    {
        let ghost s = self@;
        let n = self.subtitles.len();
        let mut r: Vec<(String, String)> = Vec::new();
        let mut i: usize = 0;
        assert(pair_views(r@) =~= overlap_pairs_upto(s, 0));
        while i < n
            invariant
                0 <= i <= n,
                n == s.len(),
                s == views(self.subtitles@),
                pair_views(r@) == overlap_pairs_upto(s, i as int),
            decreases n - i,
        {
            let mut j = i + 1;
            assert(overlap_pairs_upto(s, i as int) + overlap_row(s, i as int, j as int) =~= overlap_pairs_upto(
                s,
                i as int,
            ));
            while j < n
                invariant
                    i < j <= n,
                    n == s.len(),
                    s == views(self.subtitles@),
                    pair_views(r@) == overlap_pairs_upto(s, i as int) + overlap_row(s, i as int, j as int),
                decreases n - j,
            {
                let a = &self.subtitles[i];
                let b = &self.subtitles[j];
                assert(s[i as int] == a@ && s[j as int] == b@);
                if a.overlaps_with(b) {
                    let ghost before = r@;
                    r.push((a.get_id().to_string(), b.get_id().to_string()));
                    assert(pair_views(r@) =~= pair_views(before).push((s[i as int].id, s[j as int].id)));
                }
                j = j + 1;
            }
            i = i + 1;
        }
        r
    }

    /// The track as a SubRip file (see `srt_document`).
    pub fn format_as_srt(&self) -> (r: String)
        ensures
            r@ == srt_document(self@),
    {
        let sorted = sorted_copy(&self.subtitles);
        let ghost t = views(sorted@);
        let mut out: Vec<char> = Vec::new();
        let mut i: usize = 0;
        assert(t.take(0) =~= Seq::<SubtitleView>::empty());
        while i < sorted.len()
            invariant
                0 <= i <= sorted.len(),
                t == views(sorted@),
                out@ == srt_blocks(t.take(i as int)),
            decreases sorted.len() - i,
        {
            assert(t.take(i + 1).drop_last() == t.take(i as int));
            assert(t.take(i + 1).last() == sorted@[i as int]@);
            let mut c = sorted[i].copy_of();
            let mut idv: Vec<char> = Vec::new();
            push_decimal(&mut idv, (i + 1) as u64);
            c.set_id(string_from_chars(&idv).as_str());
            push_str(&mut out, c.to_srt().as_str());
            push_str(&mut out, "\n");
            i = i + 1;
        }
        assert(t.take(t.len() as int) == t);
        string_from_chars(&out)
    }

    /// The track as a WebVTT file (see `vtt_document`).
    pub fn format_as_vtt(&self) -> (r: String)
        ensures
            r@ == vtt_document(self@),
    {
        let sorted = sorted_copy(&self.subtitles);
        let ghost t = views(sorted@);
        let mut out: Vec<char> = Vec::new();
        push_str(&mut out, "WEBVTT\n\n");
        let mut i: usize = 0;
        assert(t.take(0) =~= Seq::<SubtitleView>::empty());
        while i < sorted.len()
            invariant
                0 <= i <= sorted.len(),
                t == views(sorted@),
                out@ == "WEBVTT\n\n"@ + vtt_cues(t.take(i as int)),
            decreases sorted.len() - i,
        {
            assert(t.take(i + 1).drop_last() == t.take(i as int));
            assert(t.take(i + 1).last() == sorted@[i as int]@);
            push_str(&mut out, sorted[i].to_vtt().as_str());
            push_str(&mut out, "\n");
            i = i + 1;
        }
        assert(t.take(t.len() as int) == t);
        string_from_chars(&out)
    }

    /// The identifiers of the subtitles, in order.
    pub fn get_subtitle_ids(&self) -> (r: Vec<String>)
        ensures
            r@.map_values(|x: String| x@) == self@.map_values(|x: SubtitleView| x.id),
    {
        let ghost s = self@;
        let mut r: Vec<String> = Vec::new();
        let mut i: usize = 0;
        while i < self.subtitles.len()
            invariant
                0 <= i <= self.subtitles.len(),
                s == views(self.subtitles@),
                r@.map_values(|x: String| x@) == s.map_values(|x: SubtitleView| x.id).take(i as int),
            decreases self.subtitles.len() - i,
        {
            let ghost before = r@;
            assert(s[i as int] == self.subtitles@[i as int]@);
            let id = self.subtitles[i].get_id().to_string();
            r.push(id);
            assert(r@.map_values(|x: String| x@) =~= before.map_values(|x: String| x@).push(s[i as int].id));
            assert(r@.map_values(|x: String| x@) =~= s.map_values(|x: SubtitleView| x.id).take(i + 1));
            i = i + 1;
        }
        assert(r@.map_values(|x: String| x@) =~= s.map_values(|x: SubtitleView| x.id));
        r
    }
}

/// What a subtitle builder holds; the duration is in milliseconds.
pub struct SubtitleBuilderView {
    pub id: Option<Seq<char>>,
    pub start: Option<TimePosition>,
    pub end: Option<TimePosition>,
    pub duration: Option<int>,
    pub text: Seq<char>,
    pub style: Option<TextStyle>,
}

/// What building from `b` gives: the subtitle, or the message of the timing
/// error. The start must be set; the end is the one set, or else the start plus a
/// positive duration (held in a `u32` of milliseconds); the end must come after
/// the start.
pub open spec fn built(b: SubtitleBuilderView) -> Result<SubtitleView, Seq<char>> {
    match b.start {
        None => Err("Start time must be set"@),
        Some(start) => {
            let end: Result<TimePosition, Seq<char>> = match b.end {
                Some(e) => Ok(e),
                None => match b.duration {
                    Some(d) => if d <= 0 {
                        Err("Duration must be positive"@)
                    } else {
                        Ok(time_at(clamp_millis(ms(start) + d)))
                    },
                    None => Err("Either end time or duration must be set"@),
                },
            };
            match end {
                Err(m) => Err(m),
                Ok(e) => if ms(start) >= ms(e) {
                    Err("End time must be after start time"@)
                } else {
                    Ok(
                        SubtitleView {
                            id: match b.id {
                                Some(i) => i,
                                None => Seq::empty(),
                            },
                            start,
                            end: e,
                            text: b.text,
                            style: b.style,
                        },
                    )
                },
            }
        },
    }
}

/// A builder of subtitles.
#[derive(Debug)]
pub struct SubtitleBuilder {
    id: Option<String>,
    start_time: Option<TimePosition>,
    end_time: Option<TimePosition>,
    duration: Option<i64>,
    text: String,
    style: Option<TextStyle>,
}

impl View for SubtitleBuilder {
    type V = SubtitleBuilderView;

    closed spec fn view(&self) -> SubtitleBuilderView {
        SubtitleBuilderView {
            id: match self.id {
                Some(i) => Some(i@),
                None => None,
            },
            start: self.start_time,
            end: self.end_time,
            duration: match self.duration {
                Some(d) => Some(d as int),
                None => None,
            },
            text: self.text@,
            style: self.style,
        }
    }
}

impl Default for SubtitleBuilder {
    fn default() -> (b: Self)
        ensures
            b@ == (SubtitleBuilderView {
                id: None,
                start: None,
                end: None,
                duration: None,
                text: Seq::empty(),
                style: None,
            }),
    {
        SubtitleBuilder { id: None, start_time: None, end_time: None, duration: None, text: String::new(), style: None }
    }
}

fn timing_error_of(msg: &str) -> (e: SubtitleError)
    ensures
        e matches SubtitleError::TimingError(m) && m@ == msg@,
{
    SubtitleError::TimingError(text_of(msg))
}

impl SubtitleBuilder {
    /// A builder with nothing set.
    pub fn new() -> (b: Self)
        ensures
            b@ == (SubtitleBuilderView {
                id: None,
                start: None,
                end: None,
                duration: None,
                text: Seq::empty(),
                style: None,
            }),
    {
        Self::default()
    }

    /// Sets the identifier.
    pub fn id(self, id: &str) -> (b: Self)
        ensures
            b@ == (SubtitleBuilderView { id: Some(id@), ..self@ }),
    {
        SubtitleBuilder { id: Some(text_of(id)), ..self }
    }

    /// Sets the start time.
    pub fn start(self, time: TimePosition) -> (b: Self)
        ensures
            b@ == (SubtitleBuilderView { start: Some(time), ..self@ }),
    {
        SubtitleBuilder { start_time: Some(time), ..self }
    }

    /// Sets the start time, `millis` milliseconds from the start.
    pub fn start_millis(self, millis: u32) -> (b: Self)
        ensures
            b@ == (SubtitleBuilderView { start: Some(time_at(millis as nat)), ..self@ }),
    {
        SubtitleBuilder { start_time: Some(TimePosition::from_millis(millis)), ..self }
    }

    /// Sets the end time.
    pub fn end(self, time: TimePosition) -> (b: Self)
        ensures
            b@ == (SubtitleBuilderView { end: Some(time), ..self@ }),
    {
        SubtitleBuilder { end_time: Some(time), ..self }
    }

    /// Sets the end time, `millis` milliseconds from the start.
    pub fn end_millis(self, millis: u32) -> (b: Self)
        ensures
            b@ == (SubtitleBuilderView { end: Some(time_at(millis as nat)), ..self@ }),
    {
        SubtitleBuilder { end_time: Some(TimePosition::from_millis(millis)), ..self }
    }

    /// Sets the duration in milliseconds, used where no end time is set.
    pub fn duration(self, millis: i64) -> (b: Self)
        ensures
            b@ == (SubtitleBuilderView { duration: Some(millis as int), ..self@ }),
    {
        SubtitleBuilder { duration: Some(millis), ..self }
    }

    /// Sets the text.
    pub fn text(self, text: &str) -> (b: Self)
        ensures
            b@ == (SubtitleBuilderView { text: text@, ..self@ }),
    {
        SubtitleBuilder { text: text_of(text), ..self }
    }

    /// Sets the style.
    pub fn style(self, style: TextStyle) -> (b: Self)
        ensures
            b@ == (SubtitleBuilderView { style: Some(style), ..self@ }),
    {
        SubtitleBuilder { style: Some(style), ..self }
    }

    /// Builds the subtitle (see `built`); fails with a timing error.
    pub fn build(self) -> (r: Result<Subtitle, SubtitleError>)
        ensures
            match built(self@) {
                Ok(v) => r matches Ok(x) && x@ == v,
                Err(m) => r matches Err(SubtitleError::TimingError(e)) && e@ == m,
            },
    {
        let start = match self.start_time {
            Some(s) => s,
            None => {
                return Err(timing_error_of("Start time must be set"));
            },
        };
        let end = match self.end_time {
            Some(e) => e,
            None => match self.duration {
                Some(d) => {
                    if d <= 0 {
                        return Err(timing_error_of("Duration must be positive"));
                    }
                    time_from_millis(start.total_millis() as i128 + d as i128)
                },
                None => {
                    return Err(timing_error_of("Either end time or duration must be set"));
                },
            },
        };
        if start.total_millis() >= end.total_millis() {
            return Err(timing_error_of("End time must be after start time"));
        }
        let id = match self.id {
            Some(i) => i,
            None => String::new(),
        };
        Ok(Subtitle { id, start_time: start, end_time: end, text: self.text, style: self.style })
    }
}

} // verus!
