//! Editing subtitles: selective shifts, timing and text changes, merging,
//! splitting and fixing overlaps, and the file an editor works on.
//!
//! Shifts, gaps and durations are whole milliseconds.

use vstd::prelude::*;
use crate::subtitle::error::SubtitleError;
use crate::subtitle::format::{
    format_family, format_name, format_of_extension, path_extension, time_at, SubtitleFormat, TimePosition,
};
use crate::subtitle::model::{
    added, clamp_millis, id_index, lemma_id_index, ms, removed, replaced, shifted, sorted_by_start, srt_document,
    vtt_document, Subtitle, SubtitleTrack, SubtitleView,
};
use crate::subtitle::parser::{error_matches, parse_subtitle_content, subtitle_outcome, Outcome};
use crate::subtitle::style::{optional_styles_match, same_style, TextStyle};
use crate::utility::text::{chars_of, chars_eq_str, push_str, string_from_chars, text_eq, text_of};
use crate::subtitle::model::time_from_millis;

verus! {

/// Whether the timestamp `a` comes before `b`, comparing hours, then minutes,
/// then seconds, then milliseconds.
pub open spec fn ts_less(a: TimePosition, b: TimePosition) -> bool {
    a.hours < b.hours || (a.hours == b.hours && (a.minutes < b.minutes || (a.minutes == b.minutes && (a.seconds
        < b.seconds || (a.seconds == b.seconds && a.milliseconds < b.milliseconds)))))
}

/// Whether `a` comes before `b` (see `ts_less`).
pub fn time_before(a: TimePosition, b: TimePosition) -> (r: bool)
    ensures
        r == ts_less(a, b),
{
    if a.hours != b.hours {
        return a.hours < b.hours;
    }
    if a.minutes != b.minutes {
        return a.minutes < b.minutes;
    }
    if a.seconds != b.seconds {
        return a.seconds < b.seconds;
    }
    a.milliseconds < b.milliseconds
}

/// What a shift holds: the milliseconds to move by, the bounds on the start
/// times of the subtitles it moves, and the identifiers it is limited to (none
/// for all).
pub struct ShiftView {
    pub millis: int,
    pub after: Option<TimePosition>,
    pub before: Option<TimePosition>,
    pub ids: Seq<Seq<char>>,
}

/// Whether the shift `sh` moves the subtitle `x`: its identifier is among those
/// of the shift (when it names any), and it starts neither before `after` nor
/// after `before`.
pub open spec fn shift_selects(sh: ShiftView, x: SubtitleView) -> bool {
    &&& (sh.ids.len() == 0 || sh.ids.contains(x.id))
    &&& match sh.after {
        Some(a) => !ts_less(x.start, a),
        None => true,
    }
    &&& match sh.before {
        Some(b) => !ts_less(b, x.start),
        None => true,
    }
}

/// The subtitles of `s` after the shift `sh`.
pub open spec fn shift_applied(sh: ShiftView, s: Seq<SubtitleView>) -> Seq<SubtitleView> {
    s.map_values(|x: SubtitleView| if shift_selects(sh, x) { shifted(x, sh.millis) } else { x })
}

/// How many subtitles of `s` the shift `sh` moves.
pub open spec fn shift_count(sh: ShiftView, s: Seq<SubtitleView>) -> nat
    decreases s.len(),
{
    if s.len() == 0 {
        0
    } else {
        shift_count(sh, s.drop_last()) + if shift_selects(sh, s.last()) { 1nat } else { 0nat }
    }
}

/// A shift of subtitles, built up from the milliseconds to move by.
#[derive(Debug)]
pub struct ShiftBuilder {
    shift_millis: i64,
    after: Option<TimePosition>,
    before: Option<TimePosition>,
    ids: Vec<String>,
}

impl View for ShiftBuilder {
    type V = ShiftView;

    closed spec fn view(&self) -> ShiftView {
        ShiftView {
            millis: self.shift_millis as int,
            after: self.after,
            before: self.before,
            ids: self.ids@.map_values(|s: String| s@),
        }
    }
}

impl ShiftBuilder {
    /// A shift of every subtitle by `millis` milliseconds.
    pub fn new(millis: i64) -> (b: Self)
        ensures
            b@ == (ShiftView { millis: millis as int, after: None, before: None, ids: Seq::empty() }),
    {
        let b = ShiftBuilder { shift_millis: millis, after: None, before: None, ids: Vec::new() };
        assert(b@.ids =~= Seq::<Seq<char>>::empty());
        b
    }

    /// Limits the shift to subtitles that start at `position` or later.
    pub fn after(self, position: TimePosition) -> (b: Self)
        ensures
            b@ == (ShiftView { after: Some(position), ..self@ }),
    {
        ShiftBuilder { after: Some(position), ..self }
    }

    /// Limits the shift to subtitles that start at `position` or earlier.
    pub fn before(self, position: TimePosition) -> (b: Self)
        ensures
            b@ == (ShiftView { before: Some(position), ..self@ }),
    {
        ShiftBuilder { before: Some(position), ..self }
    }

    /// Limits the shift to the subtitles with the identifiers `subtitle_ids`
    /// (none: no limit).
    pub fn with_ids(self, subtitle_ids: Vec<String>) -> (b: Self)
        ensures
            b@ == (ShiftView { ids: subtitle_ids@.map_values(|s: String| s@), ..self@ }),
    {
        ShiftBuilder { ids: subtitle_ids, ..self }
    }

    fn selects(&self, x: &Subtitle) -> (b: bool)
        ensures
            b == shift_selects(self@, x@),
    {
        let ghost ids = self@.ids;
        if self.ids.len() > 0 {
            let mut found = false;
            let mut i: usize = 0;
            while i < self.ids.len()
                invariant
                    0 <= i <= self.ids.len(),
                    ids == self.ids@.map_values(|s: String| s@),
                    found == exists|j: int| 0 <= j < i && ids[j] == x@.id,
                decreases self.ids.len() - i,
            {
                if chars_eq_str(&chars_of(self.ids[i].as_str()), x.get_id()) {
                    assert(ids[i as int] == x@.id);
                    found = true;
                }
                i = i + 1;
            }
            if !found {
                assert(!ids.contains(x@.id));
                return false;
            }
            assert(ids.contains(x@.id)) by {
                let j = choose|j: int| 0 <= j < ids.len() && ids[j] == x@.id;
            }
        }
        match self.after {
            Some(a) => {
                if time_before(x.get_start(), a) {
                    return false;
                }
            },
            None => {},
        }
        match self.before {
            Some(b) => {
                if time_before(b, x.get_start()) {
                    return false;
                }
            },
            None => {},
        }
        true
    }

    /// Moves the subtitles of `track` that the shift selects (see
    /// `shift_selects` and `shifted`); how many it moved.
    pub fn apply(&self, track: &mut SubtitleTrack) -> (n: usize)
        ensures
            final(track)@ == shift_applied(self@, old(track)@),
            n == shift_count(self@, old(track)@),
    {
        let ghost s = track@;
        let mut count: usize = 0;
        let mut k: usize = 0;
        let n = track.len();
        assert(s.take(0) =~= Seq::<SubtitleView>::empty());
        while k < n
            invariant
                0 <= k <= n,
                n == s.len(),
                track@.len() == n,
                forall|j: int| 0 <= j < k ==> #[trigger] track@[j] == shift_applied(self@, s)[j],
                forall|j: int| k <= j < n ==> #[trigger] track@[j] == s[j],
                count == shift_count(self@, s.take(k as int)),
                count <= k,
            decreases n - k,
        {
            assert(s.take(k + 1).drop_last() == s.take(k as int));
            assert(s.take(k + 1).last() == s[k as int]);
            let x = track.subtitle_at(k);
            if self.selects(x) {
                let mut y = x.copy_of();
                y.shift(self.shift_millis);
                track.set_at(k, y);
                count = count + 1;
            }
            k = k + 1;
        }
        assert(track@ =~= shift_applied(self@, s));
        assert(s.take(n as int) == s);
        count
    }
}

/// What an editor holds: its track, the format it saves in, the file it works
/// on and whether it changed since it was loaded or saved.
pub struct EditorView {
    pub track: Seq<SubtitleView>,
    pub format: SubtitleFormat,
    pub file_path: Option<Seq<char>>,
    pub modified: bool,
}

/// The format an editor takes from the path of the file it loads: WebVTT for
/// `.vtt`, SubStation Alpha for `.ass` and `.ssa`, SubRip otherwise.
pub open spec fn format_for_path(path: Seq<char>) -> SubtitleFormat {
    match path_extension(path) {
        Some(e) => match format_of_extension(e) {
            Some(f) => if format_family(f) == 1 || format_family(f) == 2 {
                f
            } else {
                SubtitleFormat::Srt
            },
            None => SubtitleFormat::Srt,
        },
        None => SubtitleFormat::Srt,
    }
}

/// The subtitle that `a` and the subtitle after it, `b`, merge into: the
/// identifier, start and style of `a`, the end of `b`, and both texts on
/// separate lines.
pub open spec fn merged(a: SubtitleView, b: SubtitleView) -> SubtitleView {
    SubtitleView { id: a.id, start: a.start, end: b.end, text: a.text + "\n"@ + b.text, style: a.style }
}

/// Whether `a` and the subtitle after it, `b`, merge: `b` starts at most `gap`
/// milliseconds after `a` ends, and, where `same` asks for it, both have the same
/// style.
pub open spec fn can_merge(a: SubtitleView, b: SubtitleView, gap: int, same: bool) -> bool {
    ms(b.start) - ms(a.end) <= gap && (!same || optional_styles_match(a.style, b.style))
}

/// `s` with subtitle `i` merged with the next one: the merge replaces the first,
/// and the second is removed.
pub open spec fn merge_at(s: Seq<SubtitleView>, i: int) -> Seq<SubtitleView> {
    removed(replaced(s, merged(s[i], s[i + 1])), s[i + 1].id)
}

/// Merging two neighbouring subtitles leaves one subtitle fewer.
pub proof fn lemma_merge_at_len(s: Seq<SubtitleView>, i: int)
    requires
        0 <= i,
        i + 1 < s.len(),
    ensures
        merge_at(s, i).len() == s.len() - 1,
{
    let m = merged(s[i], s[i + 1]);
    lemma_id_index(s, m.id);
    let t = replaced(s, m);
    assert(t.len() == s.len());
    let k = id_index(s, m.id);
    assert(t[i + 1] == s[i + 1]) by {
        if m.id.len() > 0 {
            assert(k >= 0 && k <= i);
        }
    }
    lemma_id_index(t, s[i + 1].id);
}

/// Merging from subtitle `i` on: while a subtitle and the next one merge they
/// are merged, otherwise the next pair is looked at. The subtitles and the number
/// of merges.
pub open spec fn merge_from(s: Seq<SubtitleView>, i: int, gap: int, same: bool) -> (Seq<SubtitleView>, nat)
    decreases s.len() - i,
{
    if i < 0 || i + 1 >= s.len() {
        (s, 0)
    } else if can_merge(s[i], s[i + 1], gap, same) {
        proof {
            lemma_merge_at_len(s, i);
        }
        let r = merge_from(merge_at(s, i), i, gap, same);
        (r.0, r.1 + 1)
    } else {
        merge_from(s, i + 1, gap, same)
    }
}

/// The first part of subtitle `x` split at `t`: with the identifier `id`, up to `t`.
pub open spec fn first_part(x: SubtitleView, id: Seq<char>, t: TimePosition) -> SubtitleView {
    SubtitleView { id, start: x.start, end: t, text: x.text, style: x.style }
}

/// The second part of subtitle `x` split at `t`: with the identifier `id`
/// followed by `-1`, from `t`.
pub open spec fn second_part(x: SubtitleView, id: Seq<char>, t: TimePosition) -> SubtitleView {
    SubtitleView { id: id + "-1"@, start: t, end: x.end, text: x.text, style: x.style }
}

/// Milliseconds halfway along `v` milliseconds, halves rounded up; 0 for a
/// negative `v`.
pub open spec fn half_millis(v: int) -> int {
    if v < 0 {
        0
    } else {
        (v + 1) / 2
    }
}

/// Where a subtitle ending at `e` ends when it and one starting at `st` are moved
/// apart by `gap` milliseconds around the midpoint.
pub open spec fn gap_end(e: TimePosition, st: TimePosition, gap: int) -> TimePosition {
    time_at(clamp_millis(half_millis(ms(e) + ms(st) - gap)))
}

/// Where a subtitle starting at `st` starts when it and one ending at `e` are
/// moved apart by `gap` milliseconds around the midpoint.
pub open spec fn gap_start(e: TimePosition, st: TimePosition, gap: int) -> TimePosition {
    time_at(clamp_millis(half_millis(ms(e) + ms(st) + gap)))
}

/// Fixing overlaps from pair `i` on, the pairs taken from `snap` and the changes
/// made to `cur`: where a subtitle ends after the next starts, `shorten` ends it
/// where the next starts, and `gap` moves the end of the first and the start of
/// the next `gap` milliseconds apart around their midpoint; another strategy
/// changes nothing. The subtitles and the number of overlaps fixed.
pub open spec fn fix_from(
    snap: Seq<SubtitleView>,
    cur: Seq<SubtitleView>,
    i: int,
    strategy: Seq<char>,
    gap: int,
) -> (Seq<SubtitleView>, nat)
    decreases snap.len() - i,
{
    if i < 0 || i + 1 >= snap.len() {
        (cur, 0)
    } else {
        let a = snap[i];
        let b = snap[i + 1];
        if ts_less(b.start, a.end) && strategy == "shorten"@ {
            let r = fix_from(snap, cur.update(i, SubtitleView { end: b.start, ..cur[i] }), i + 1, strategy, gap);
            (r.0, r.1 + 1)
        } else if ts_less(b.start, a.end) && strategy == "gap"@ {
            let c = cur.update(i, SubtitleView { end: gap_end(a.end, b.start, gap), ..cur[i] });
            let c2 = c.update(i + 1, SubtitleView { start: gap_start(a.end, b.start, gap), ..c[i + 1] });
            let r = fix_from(snap, c2, i + 1, strategy, gap);
            (r.0, r.1 + 1)
        } else {
            fix_from(snap, cur, i + 1, strategy, gap)
        }
    }
}

/// Whether a timestamp is in normal form: minutes and seconds below 60,
/// milliseconds below 1000.
pub open spec fn normal_time(t: TimePosition) -> bool {
    t.minutes < 60 && t.seconds < 60 && t.milliseconds < 1000
}

/// `ts_less` is a strict total order on timestamps: no timestamp comes before
/// itself, of two different ones exactly one comes first, and it is transitive.
pub proof fn lemma_ts_less_order(a: TimePosition, b: TimePosition, c: TimePosition)
    ensures
        !ts_less(a, a),
        ts_less(a, b) ==> !ts_less(b, a),
        ts_less(a, b) && ts_less(b, c) ==> ts_less(a, c),
        a != b ==> ts_less(a, b) || ts_less(b, a),
{
}

/// On timestamps in normal form, one comes before another exactly when it lies
/// fewer milliseconds from the start.
pub proof fn lemma_ts_less_millis(a: TimePosition, b: TimePosition)
    requires
        normal_time(a),
        normal_time(b),
    ensures
        ts_less(a, b) <==> ms(a) < ms(b),
{
    let ra = a.minutes as int * 60_000 + a.seconds as int * 1000 + a.milliseconds as int;
    let rb = b.minutes as int * 60_000 + b.seconds as int * 1000 + b.milliseconds as int;
    assert(ms(a) == a.hours as int * 3_600_000 + ra);
    assert(ms(b) == b.hours as int * 3_600_000 + rb);
    assert(0 <= ra < 3_600_000 && 0 <= rb < 3_600_000);
}

/// A split time strictly inside a subtitle, counted in milliseconds, lies after its
/// start and before its end, so `split_subtitle` accepts it.
pub proof fn lemma_split_point_inside(x: SubtitleView, t: TimePosition)
    requires
        normal_time(x.start),
        normal_time(t),
        normal_time(x.end),
        ms(x.start) < ms(t) < ms(x.end),
    ensures
        ts_less(x.start, t) && ts_less(t, x.end),
{
    lemma_ts_less_millis(x.start, t);
    lemma_ts_less_millis(t, x.end);
}

/// Which subtitles a shift moves: one that starts before the `after` bound, after
/// the `before` bound, or whose identifier the shift does not name (when it names
/// any) stays as it is; every other is moved by the shift's milliseconds.
pub proof fn lemma_shift_moves(sh: ShiftView, s: Seq<SubtitleView>, k: int)
    requires
        0 <= k < s.len(),
    ensures
        shift_applied(sh, s).len() == s.len(),
        sh.after matches Some(a) && ts_less(s[k].start, a) ==> shift_applied(sh, s)[k] == s[k],
        sh.before matches Some(b) && ts_less(b, s[k].start) ==> shift_applied(sh, s)[k] == s[k],
        sh.ids.len() > 0 && !sh.ids.contains(s[k].id) ==> shift_applied(sh, s)[k] == s[k],
        (sh.ids.len() == 0 || sh.ids.contains(s[k].id)) && (sh.after matches Some(a) ==> !ts_less(s[k].start, a)) && (
        sh.before matches Some(b) ==> !ts_less(b, s[k].start)) ==> shift_applied(sh, s)[k] == shifted(s[k], sh.millis),
{
}

/// Whether the subtitle at `j` of `s` ends strictly after the next one starts.
pub open spec fn pair_overlaps(s: Seq<SubtitleView>, j: int) -> bool {
    0 <= j && j + 1 < s.len() && ts_less(s[j + 1].start, s[j].end)
}

/// How many neighbouring pairs of `s` from the pair at `i` on overlap.
pub open spec fn overlapping_pairs(s: Seq<SubtitleView>, i: int) -> nat
    decreases s.len() - i,
{
    if i < 0 || i + 1 >= s.len() {
        0
    } else {
        overlapping_pairs(s, i + 1) + if pair_overlaps(s, i) { 1nat } else { 0nat }
    }
}

/// Fixing overlaps leaves the number of subtitles as it is, and changes none that
/// belongs to no overlapping pair.
pub proof fn lemma_fix_untouched(
    snap: Seq<SubtitleView>,
    cur: Seq<SubtitleView>,
    i: int,
    strategy: Seq<char>,
    gap: int,
    k: int,
)
    requires
        cur.len() == snap.len(),
        0 <= i,
        0 <= k < cur.len(),
        !(k >= i && pair_overlaps(snap, k)),
        !(k - 1 >= i && pair_overlaps(snap, k - 1)),
    ensures
        fix_from(snap, cur, i, strategy, gap).0.len() == cur.len(),
        fix_from(snap, cur, i, strategy, gap).0[k] == cur[k],
    decreases snap.len() - i,
{
    if i + 1 < snap.len() {
        let a = snap[i];
        let b = snap[i + 1];
        if ts_less(b.start, a.end) && strategy == "shorten"@ {
            assert(k != i);
            lemma_fix_untouched(snap, cur.update(i, SubtitleView { end: b.start, ..cur[i] }), i + 1, strategy, gap, k);
        } else if ts_less(b.start, a.end) && strategy == "gap"@ {
            assert(k != i && k != i + 1);
            let c = cur.update(i, SubtitleView { end: gap_end(a.end, b.start, gap), ..cur[i] });
            let c2 = c.update(i + 1, SubtitleView { start: gap_start(a.end, b.start, gap), ..c[i + 1] });
            lemma_fix_untouched(snap, c2, i + 1, strategy, gap, k);
        } else {
            lemma_fix_untouched(snap, cur, i + 1, strategy, gap, k);
        }
    }
}

/// With the `shorten` or `gap` strategy, the number of overlaps fixed is the number
/// of overlapping neighbouring pairs; with any other strategy nothing changes and
/// none is counted. Where no pair overlaps, nothing changes.
pub proof fn lemma_fix_count(snap: Seq<SubtitleView>, cur: Seq<SubtitleView>, i: int, strategy: Seq<char>, gap: int)
    requires
        cur.len() == snap.len(),
        0 <= i,
    ensures
        strategy == "shorten"@ || strategy == "gap"@ ==> fix_from(snap, cur, i, strategy, gap).1 == overlapping_pairs(
            snap,
            i,
        ),
        !(strategy == "shorten"@ || strategy == "gap"@) ==> fix_from(snap, cur, i, strategy, gap) == (cur, 0nat),
        overlapping_pairs(snap, i) == 0 ==> fix_from(snap, cur, i, strategy, gap) == (cur, 0nat),
    decreases snap.len() - i,
{
    if i + 1 < snap.len() {
        let a = snap[i];
        let b = snap[i + 1];
        if ts_less(b.start, a.end) && strategy == "shorten"@ {
            lemma_fix_count(snap, cur.update(i, SubtitleView { end: b.start, ..cur[i] }), i + 1, strategy, gap);
        } else if ts_less(b.start, a.end) && strategy == "gap"@ {
            let c = cur.update(i, SubtitleView { end: gap_end(a.end, b.start, gap), ..cur[i] });
            let c2 = c.update(i + 1, SubtitleView { start: gap_start(a.end, b.start, gap), ..c[i + 1] });
            lemma_fix_count(snap, c2, i + 1, strategy, gap);
        } else {
            lemma_fix_count(snap, cur, i + 1, strategy, gap);
        }
    }
}

/// With the `shorten` strategy, a subtitle that ends after the next one starts is
/// made to end where the next one starts, and keeps the rest.
pub proof fn lemma_fix_shortens(snap: Seq<SubtitleView>, cur: Seq<SubtitleView>, i: int, gap: int, j: int)
    requires
        cur.len() == snap.len(),
        0 <= i <= j,
        pair_overlaps(snap, j),
    ensures
        fix_from(snap, cur, i, "shorten"@, gap).0[j] == (SubtitleView { end: snap[j + 1].start, ..cur[j] }),
    decreases snap.len() - i,
{
    let a = snap[i];
    let b = snap[i + 1];
    if i == j {
        let c = cur.update(i, SubtitleView { end: b.start, ..cur[i] });
        lemma_fix_untouched(snap, c, i + 1, "shorten"@, gap, j);
    } else if ts_less(b.start, a.end) {
        lemma_fix_shortens(snap, cur.update(i, SubtitleView { end: b.start, ..cur[i] }), i + 1, gap, j);
    } else {
        lemma_fix_shortens(snap, cur, i + 1, gap, j);
    }
}

/// The timestamp `n` milliseconds from the start lies `n` milliseconds from the
/// start, for any `n` a `u32` holds.
pub proof fn lemma_time_at_millis(n: nat)
    requires
        n <= u32::MAX,
    ensures
        ms(time_at(n)) == n,
        normal_time(time_at(n)),
{
    let t = time_at(n);
    let msec = n % 1000;
    let secs = n / 1000;
    let mins = secs / 60;
    assert(mins == n / 60_000) by (nonlinear_arith)
        requires
            secs == n / 1000,
            mins == secs / 60,
    ;
    assert(mins / 60 == n / 3_600_000) by (nonlinear_arith)
        requires
            mins == n / 60_000,
    ;
    assert(t.hours == mins / 60 && t.minutes == mins % 60 && t.seconds == secs % 60 && t.milliseconds == msec);
    assert((mins / 60) * 3_600_000 + (mins % 60) * 60_000 + (secs % 60) * 1000 + msec == n) by (nonlinear_arith)
        requires
            msec == n % 1000,
            secs == n / 1000,
            mins == secs / 60,
    ;
}

/// Shifting a subtitle by `delta` milliseconds moves its start and end by exactly
/// `delta` when both stay within the time range and it lasts at least 100
/// milliseconds; in any case a shifted subtitle that stays within the range lasts
/// at least 100 milliseconds and does not start before the start of the range.
pub proof fn lemma_shifted_times(x: SubtitleView, delta: int)
    ensures
        ms(x.start) + delta >= 0 && ms(x.end) + delta <= u32::MAX && ms(x.end) - ms(x.start) >= 100 ==> ms(
            shifted(x, delta).start,
        ) == ms(x.start) + delta && ms(shifted(x, delta).end) == ms(x.end) + delta,
        ms(x.start) + delta + 100 <= u32::MAX && ms(x.end) + delta <= u32::MAX ==> ms(shifted(x, delta).end) >= ms(
            shifted(x, delta).start,
        ) + 100,
        shifted(x, delta).id == x.id && shifted(x, delta).text == x.text && shifted(x, delta).style == x.style,
{
    let st = if ms(x.start) + delta < 0 { 0 } else { ms(x.start) + delta };
    let en = if ms(x.end) + delta < st + 100 { st + 100 } else { ms(x.end) + delta };
    if st <= u32::MAX {
        lemma_time_at_millis(clamp_millis(st));
    }
    if en <= u32::MAX {
        lemma_time_at_millis(clamp_millis(en));
    }
}

/// Moving the end of a subtitle and the start of the next apart with a gap of
/// `gap` milliseconds leaves the end no later than the start, and, away from the
/// limits of the time range, exactly `gap` milliseconds apart.
pub proof fn lemma_gap_apart(e: TimePosition, st: TimePosition, gap: int)
    requires
        gap >= 0,
    ensures
        ms(gap_end(e, st, gap)) <= ms(gap_start(e, st, gap)),
        ms(e) + ms(st) >= gap && ms(e) + ms(st) + gap + 1 <= 2 * (u32::MAX as int) ==> ms(gap_start(e, st, gap)) - ms(
            gap_end(e, st, gap),
        ) == gap,
{
    let x = ms(e) + ms(st);
    let lo = clamp_millis(half_millis(x - gap));
    let hi = clamp_millis(half_millis(x + gap));
    assert(half_millis(x - gap) <= half_millis(x + gap));
    lemma_time_at_millis(lo);
    lemma_time_at_millis(hi);
    if x >= gap && x + gap + 1 <= 2 * (u32::MAX as int) {
        assert((x + gap + 1) / 2 == (x - gap + 1) / 2 + gap) by (nonlinear_arith)
            requires
                x - gap >= 0,
        ;
    }
}

/// What fixing overlaps with the `gap` strategy leaves of a subtitle's start
/// when the pair before it does not overlap, and of its end when the pair it
/// begins does not.
proof fn lemma_fix_gap_keeps(snap: Seq<SubtitleView>, cur: Seq<SubtitleView>, i: int, gap: int, k: int)
    requires
        cur.len() == snap.len(),
        0 <= i,
        0 <= k < cur.len(),
    ensures
        fix_from(snap, cur, i, "gap"@, gap).0.len() == cur.len(),
        !(k - 1 >= i && pair_overlaps(snap, k - 1)) ==> fix_from(snap, cur, i, "gap"@, gap).0[k].start == cur[k].start,
        !(k >= i && pair_overlaps(snap, k)) ==> fix_from(snap, cur, i, "gap"@, gap).0[k].end == cur[k].end,
    decreases snap.len() - i,
{
    reveal_strlit("gap");
    reveal_strlit("shorten");
    assert("gap"@ != "shorten"@) by {
        assert("gap"@.len() != "shorten"@.len());
    }
    if i + 1 < snap.len() {
        let a = snap[i];
        let b = snap[i + 1];
        if ts_less(b.start, a.end) {
            let c = cur.update(i, SubtitleView { end: gap_end(a.end, b.start, gap), ..cur[i] });
            let c2 = c.update(i + 1, SubtitleView { start: gap_start(a.end, b.start, gap), ..c[i + 1] });
            lemma_fix_gap_keeps(snap, c2, i + 1, gap, k);
        } else {
            lemma_fix_gap_keeps(snap, cur, i + 1, gap, k);
        }
    }
}

/// With the `gap` strategy and a gap of at least 0, a subtitle that ended after
/// the next one started ends no later than the next one then starts, and, away
/// from the limits of the time range, exactly `gap` milliseconds before it.
pub proof fn lemma_fix_gap_separates(snap: Seq<SubtitleView>, cur: Seq<SubtitleView>, i: int, gap: int, j: int)
    requires
        cur.len() == snap.len(),
        0 <= i <= j,
        pair_overlaps(snap, j),
        gap >= 0,
    ensures
        ({
            let r = fix_from(snap, cur, i, "gap"@, gap).0;
            let x = ms(snap[j].end) + ms(snap[j + 1].start);
            &&& r[j].end == gap_end(snap[j].end, snap[j + 1].start, gap)
            &&& r[j + 1].start == gap_start(snap[j].end, snap[j + 1].start, gap)
            &&& ms(r[j].end) <= ms(r[j + 1].start)
            &&& x >= gap && x + gap + 1 <= 2 * (u32::MAX as int) ==> ms(r[j + 1].start) - ms(r[j].end) == gap
        }),
    decreases snap.len() - i,
{
    reveal_strlit("gap");
    reveal_strlit("shorten");
    assert("gap"@ != "shorten"@) by {
        assert("gap"@.len() != "shorten"@.len());
    }
    let a = snap[i];
    let b = snap[i + 1];
    lemma_gap_apart(snap[j].end, snap[j + 1].start, gap);
    if i == j {
        let c = cur.update(i, SubtitleView { end: gap_end(a.end, b.start, gap), ..cur[i] });
        let c2 = c.update(i + 1, SubtitleView { start: gap_start(a.end, b.start, gap), ..c[i + 1] });
        lemma_fix_gap_keeps(snap, c2, i + 1, gap, j);
        lemma_fix_gap_keeps(snap, c2, i + 1, gap, j + 1);
    } else if ts_less(b.start, a.end) {
        let c = cur.update(i, SubtitleView { end: gap_end(a.end, b.start, gap), ..cur[i] });
        let c2 = c.update(i + 1, SubtitleView { start: gap_start(a.end, b.start, gap), ..c[i + 1] });
        lemma_fix_gap_separates(snap, c2, i + 1, gap, j);
    } else {
        lemma_fix_gap_separates(snap, cur, i + 1, gap, j);
    }
}

/// What saving the editor's track gives: a SubRip or a WebVTT file for those
/// formats, or, for another, the name of the format, which has no writer.
pub open spec fn export_text(e: EditorView) -> Result<Seq<char>, Seq<char>> {
    match e.format {
        SubtitleFormat::Srt => Ok(srt_document(e.track)),
        SubtitleFormat::WebVtt => Ok(vtt_document(e.track)),
        f => Err(format_name(f)),
    }
}

/// An editor of a track of subtitles.
#[derive(Debug)]
pub struct SubtitleEditor {
    track: SubtitleTrack,
    format: SubtitleFormat,
    file_path: Option<String>,
    modified: bool,
}

impl View for SubtitleEditor {
    type V = EditorView;

    closed spec fn view(&self) -> EditorView {
        EditorView {
            track: self.track@,
            format: self.format,
            file_path: match self.file_path {
                Some(p) => Some(p@),
                None => None,
            },
            modified: self.modified,
        }
    }
}

impl Default for SubtitleEditor {
    fn default() -> (e: Self)
        ensures
            e@ == (EditorView {
                track: Seq::empty(),
                format: SubtitleFormat::Srt,
                file_path: None,
                modified: false,
            }),
    {
        SubtitleEditor { track: SubtitleTrack::new(), format: SubtitleFormat::Srt, file_path: None, modified: false }
    }
}

impl SubtitleEditor {
    /// An editor of an empty SubRip track, with no file.
    pub fn new() -> (e: Self)
        ensures
            e@ == (EditorView {
                track: Seq::empty(),
                format: SubtitleFormat::Srt,
                file_path: None,
                modified: false,
            }),
    {
        Self::default()
    }

    /// Loads the subtitles `content` of the file at `path`, read in the format
    /// recognised from the content (see `subtitle_outcome`); the editor then
    /// saves in the format of the path (see `format_for_path`). On failure the
    /// editor is unchanged.
    pub fn load_content(&mut self, path: &str, content: &str) -> (r: Result<(), SubtitleError>)
        requires
            !(subtitle_outcome(content@, None) is Refused),
        ensures
            match subtitle_outcome(content@, None) {
                Outcome::Done(s) => r is Ok && final(self)@ == (EditorView {
                    track: s,
                    format: format_for_path(path@),
                    file_path: Some(path@),
                    modified: false,
                }),
                Outcome::Failed(f) => r matches Err(e) && error_matches(e, f) && final(self)@ == old(self)@,
                Outcome::Refused => false,
            },
    {
        let track = match parse_subtitle_content(content, None) {
            Ok(t) => t,
            Err(e) => {
                return Err(e);
            },
        };
        let format = match SubtitleFormat::from_extension(path) {
            Ok(f) => {
                if f.family() == 1 || f.family() == 2 {
                    f
                } else {
                    SubtitleFormat::Srt
                }
            },
            Err(_) => SubtitleFormat::Srt,
        };
        self.track = track;
        self.format = format;
        self.file_path = Some(path.to_string());
        self.modified = false;
        Ok(())
    }

    /// Starts an empty track in the format `format`, with no file; the editor
    /// counts as changed.
    pub fn create_new(&mut self, format: SubtitleFormat)
        ensures
            final(self)@ == (EditorView { track: Seq::empty(), format, file_path: None, modified: true }),
    {
        self.track = SubtitleTrack::new();
        self.format = format;
        self.file_path = None;
        self.modified = true;
    }

    /// Adds a subtitle to the track (see `added`).
    pub fn add_subtitle(&mut self, subtitle: Subtitle)
        requires
            old(self)@.track.len() < usize::MAX,
        ensures
            final(self)@ == (EditorView { track: added(old(self)@.track, subtitle@), modified: true, ..old(self)@ }),
    {
        self.track.add_subtitle(subtitle);
        self.modified = true;
    }

    /// Removes the subtitle with identifier `id`; whether there was one. The
    /// editor counts as changed when there was.
    pub fn remove_subtitle(&mut self, id: &str) -> (b: bool)
        ensures
            b == (id_index(old(self)@.track, id@) >= 0),
            final(self)@ == (EditorView {
                track: removed(old(self)@.track, id@),
                modified: old(self)@.modified || b,
                ..old(self)@
            }),
    {
        let b = self.track.remove_subtitle(id);
        if b {
            self.modified = true;
        }
        b
    }

    /// The subtitle with identifier `id`, if any.
    pub fn get_subtitle(&self, id: &str) -> (r: Option<&Subtitle>)
        ensures
            match r {
                Some(x) => id_index(self@.track, id@) >= 0 && x@ == self@.track[id_index(self@.track, id@)],
                None => id_index(self@.track, id@) == -1,
            },
    {
        self.track.get_subtitle(id)
    }

    /// The subtitles, in order.
    pub fn get_subtitles(&self) -> (r: &[Subtitle])
        ensures
            crate::subtitle::model::views(r@) == self@.track,
    {
        self.track.get_subtitles()
    }

    /// Sets the text of the subtitle with identifier `id`; whether there was one.
    /// The editor counts as changed when there was.
    pub fn update_text(&mut self, id: &str, text: &str) -> (b: bool)
        ensures
            b == (id_index(old(self)@.track, id@) >= 0),
            b ==> final(self)@ == (EditorView {
                track: old(self)@.track.update(
                    id_index(old(self)@.track, id@),
                    SubtitleView { text: text@, ..old(self)@.track[id_index(old(self)@.track, id@)] },
                ),
                modified: true,
                ..old(self)@
            }),
            !b ==> final(self)@ == old(self)@,
    {
        match self.track.position_of(id) {
            Some(k) => {
                let mut y = self.track.subtitle_at(k).copy_of();
                y.set_text(text);
                self.track.set_at(k, y);
                self.modified = true;
                true
            },
            None => false,
        }
    }

    /// Sets the style of the subtitle with identifier `id`; whether there was one.
    /// The editor counts as changed when there was.
    pub fn update_style(&mut self, id: &str, style: TextStyle) -> (b: bool)
        ensures
            b == (id_index(old(self)@.track, id@) >= 0),
            b ==> final(self)@ == (EditorView {
                track: old(self)@.track.update(
                    id_index(old(self)@.track, id@),
                    SubtitleView { style: Some(style), ..old(self)@.track[id_index(old(self)@.track, id@)] },
                ),
                modified: true,
                ..old(self)@
            }),
            !b ==> final(self)@ == old(self)@,
    {
        match self.track.position_of(id) {
            Some(k) => {
                let mut y = self.track.subtitle_at(k).copy_of();
                y.set_style(style);
                self.track.set_at(k, y);
                self.modified = true;
                true
            },
            None => false,
        }
    }

    /// Sets when the subtitle with identifier `id` starts and ends; whether there
    /// was one. Fails, changing nothing, unless `start` comes before `end`.
    pub fn update_timing(&mut self, id: &str, start: TimePosition, end: TimePosition) -> (r: Result<bool, SubtitleError>)
        ensures
            !ts_less(start, end) ==> r == Err::<bool, SubtitleError>(SubtitleError::InvalidTimeRange { start, end })
                && final(self)@ == old(self)@,
            ts_less(start, end) ==> r == Ok::<bool, SubtitleError>(id_index(old(self)@.track, id@) >= 0),
            ts_less(start, end) && id_index(old(self)@.track, id@) >= 0 ==> final(self)@ == (EditorView {
                track: old(self)@.track.update(
                    id_index(old(self)@.track, id@),
                    SubtitleView { start, end, ..old(self)@.track[id_index(old(self)@.track, id@)] },
                ),
                modified: true,
                ..old(self)@
            }),
            ts_less(start, end) && id_index(old(self)@.track, id@) < 0 ==> final(self)@ == old(self)@,
    {
        if !time_before(start, end) {
            return Err(SubtitleError::invalid_time_range(start, end));
        }
        match self.track.position_of(id) {
            Some(k) => {
                let mut y = self.track.subtitle_at(k).copy_of();
                y.set_start(start);
                y.set_end(end);
                self.track.set_at(k, y);
                self.modified = true;
                Ok(true)
            },
            None => Ok(false),
        }
    }

    /// Applies the shift `shift` to the track (see `ShiftBuilder::apply`); how
    /// many subtitles it moved. The editor counts as changed when it moved any.
    pub fn shift_subtitles(&mut self, shift: ShiftBuilder) -> (n: usize)
        ensures
            n == shift_count(shift@, old(self)@.track),
            final(self)@ == (EditorView {
                track: shift_applied(shift@, old(self)@.track),
                modified: old(self)@.modified || n > 0,
                ..old(self)@
            }),
    {
        let n = shift.apply(&mut self.track);
        if n > 0 {
            self.modified = true;
        }
        n
    }

    /// Orders the subtitles by start time (see `sorted_by_start`).
    pub fn sort_subtitles(&mut self)
        ensures
            final(self)@ == (EditorView { track: sorted_by_start(old(self)@.track), ..old(self)@ }),
    {
        self.track.sort();
    }

    /// The format the editor saves in.
    pub fn get_format(&self) -> (f: SubtitleFormat)
        ensures
            f == self@.format,
    {
        self.format
    }

    /// Sets the format the editor saves in.
    pub fn set_format(&mut self, format: SubtitleFormat)
        ensures
            final(self)@ == (EditorView { format, ..old(self)@ }),
    {
        self.format = format;
    }

    /// The track being edited.
    pub fn get_track(&self) -> (t: &SubtitleTrack)
        ensures
            t@ == self@.track,
    {
        &self.track
    }

    /// The track being edited, to change; the editor counts as changed.
    pub fn get_track_mut(&mut self) -> (t: &mut SubtitleTrack)
        ensures
            t@ == old(self)@.track,
            final(self)@ == (EditorView { track: final(t)@, modified: true, ..old(self)@ }),
    {
        self.modified = true;
        &mut self.track
    }

    /// Whether the track changed since it was loaded or saved.
    pub fn is_modified(&self) -> (b: bool)
        ensures
            b == self@.modified,
    {
        self.modified
    }

    /// The file the editor works on, if any.
    pub fn get_file_path(&self) -> (r: Option<&str>)
        ensures
            match r {
                Some(p) => self@.file_path == Some(p@),
                None => self@.file_path is None,
            },
    {
        match &self.file_path {
            Some(p) => Some(p.as_str()),
            None => None,
        }
    }
}

fn merged_text(a: &str, b: &str) -> (r: String)
    ensures
        r@ == a@ + "\n"@ + b@,
{
    let mut out: Vec<char> = Vec::new();
    push_str(&mut out, a);
    push_str(&mut out, "\n");
    push_str(&mut out, b);
    string_from_chars(&out)
}

impl SubtitleEditor {
    /// Merges neighbouring subtitles (see `merge_from`, from the first pair,
    /// with `max_gap` milliseconds); how many merges there were. The editor counts
    /// as changed when there was any.
    pub fn merge_adjacent_subtitles(&mut self, max_gap: i64, same_style: bool) -> (n: usize)
        ensures
            n == merge_from(old(self)@.track, 0, max_gap as int, same_style).1,
            final(self)@ == (EditorView {
                track: merge_from(old(self)@.track, 0, max_gap as int, same_style).0,
                modified: old(self)@.modified || n > 0,
                ..old(self)@
            }),
    {
        let ghost goal = merge_from(self.track@, 0, max_gap as int, same_style);
        let start_n = self.track.len();
        let ghost start_len = self.track@.len();
        let mut count: usize = 0;
        let mut i: usize = 0;
        while self.track.len() > 0 && i < self.track.len() - 1
            invariant
                i <= self.track@.len(),
                merge_from(self.track@, i as int, max_gap as int, same_style).0 == goal.0,
                merge_from(self.track@, i as int, max_gap as int, same_style).1 + count == goal.1,
                count + self.track@.len() == start_len,
                start_len == start_n,
                self.format == old(self).format,
                self.file_path == old(self).file_path,
                self.modified == old(self).modified,
            decreases self.track@.len() - i,
        {
            let ghost s = self.track@;
            let cur = self.track.subtitle_at(i).copy_of();
            let nxt = self.track.subtitle_at(i + 1).copy_of();
            let gap: i128 = nxt.get_start().total_millis() as i128 - cur.get_end().total_millis() as i128;
            let can = gap <= max_gap as i128 && (!same_style || crate::subtitle::style::same_style(cur.get_style(), nxt.get_style()));
            if can {
                let text = merged_text(cur.get_text(), nxt.get_text());
                let m = Subtitle::new(cur.get_start(), nxt.get_end(), text.as_str()).with_id(cur.get_id());
                let m = match cur.get_style() {
                    Some(st) => m.with_style(st.copy_of()),
                    None => m,
                };
                assert(m@ == merged(s[i as int], s[i + 1]));
                self.track.replace_subtitle(m);
                self.track.remove_subtitle(nxt.get_id());
                proof {
                    lemma_merge_at_len(s, i as int);
                }
                assert(self.track@ == merge_at(s, i as int));
                count = count + 1;
            } else {
                i = i + 1;
            }
        }
        if count > 0 {
            self.modified = true;
        }
        count
    }

    /// Splits the subtitle with identifier `id` at `split_time` into its first
    /// and second parts (see `first_part` and `second_part`): the first replaces
    /// it, the second is added. `Ok(false)` when there is no such subtitle; fails,
    /// changing nothing, unless `split_time` lies strictly inside the subtitle.
    pub fn split_subtitle(&mut self, id: &str, split_time: TimePosition) -> (r: Result<bool, SubtitleError>)
        requires
            old(self)@.track.len() < usize::MAX,
        ensures
            id_index(old(self)@.track, id@) < 0 ==> r == Ok::<bool, SubtitleError>(false) && final(self)@ == old(
                self,
            )@,
            id_index(old(self)@.track, id@) >= 0 ==> {
                let x = old(self)@.track[id_index(old(self)@.track, id@)];
                if ts_less(x.start, split_time) && ts_less(split_time, x.end) {
                    r == Ok::<bool, SubtitleError>(true) && final(self)@ == (EditorView {
                        track: added(
                            replaced(old(self)@.track, first_part(x, id@, split_time)),
                            second_part(x, id@, split_time),
                        ),
                        modified: true,
                        ..old(self)@
                    })
                } else {
                    r == Err::<bool, SubtitleError>(
                        SubtitleError::InvalidSplitPoint { split_time, start: x.start, end: x.end },
                    ) && final(self)@ == old(self)@
                }
            },
    {
        let k = match self.track.position_of(id) {
            Some(k) => k,
            None => {
                return Ok(false);
            },
        };
        let x = self.track.subtitle_at(k).copy_of();
        let start = x.get_start();
        let end = x.get_end();
        if !time_before(start, split_time) || !time_before(split_time, end) {
            return Err(SubtitleError::InvalidSplitPoint { split_time, start, end });
        }
        let first = Subtitle::new(start, split_time, x.get_text()).with_id(id);
        let mut second_id: Vec<char> = Vec::new();
        push_str(&mut second_id, id);
        push_str(&mut second_id, "-1");
        let sid = string_from_chars(&second_id);
        let second = Subtitle::new(split_time, end, x.get_text()).with_id(sid.as_str());
        let (first, second) = match x.get_style() {
            Some(st) => (first.with_style(st.copy_of()), second.with_style(st.copy_of())),
            None => (first, second),
        };
        proof {
            crate::subtitle::model::lemma_added_len(self.track@, first@);
        }
        self.track.replace_subtitle(first);
        assert(self.track@.len() < usize::MAX) by {
            lemma_id_index(old(self)@.track, id@);
        }
        self.track.add_subtitle(second);
        self.modified = true;
        Ok(true)
    }

    /// Orders the subtitles by start time and fixes the overlaps of neighbours
    /// with the strategy `strategy` and a gap of `min_gap` milliseconds (see
    /// `fix_from`); how many overlaps it fixed. The editor counts as changed when
    /// it fixed any.
    pub fn fix_overlaps(&mut self, strategy: &str, min_gap: i64) -> (n: usize)
        ensures
            n == fix_from(
                sorted_by_start(old(self)@.track),
                sorted_by_start(old(self)@.track),
                0,
                strategy@,
                min_gap as int,
            ).1,
            final(self)@ == (EditorView {
                track: fix_from(
                    sorted_by_start(old(self)@.track),
                    sorted_by_start(old(self)@.track),
                    0,
                    strategy@,
                    min_gap as int,
                ).0,
                modified: old(self)@.modified || n > 0,
                ..old(self)@
            }),
    {
        self.track.sort();
        let snap = self.track.copy_of();
        let ghost sv = snap@;
        let ghost goal = fix_from(sv, sv, 0, strategy@, min_gap as int);
        let shorten = text_eq(strategy, "shorten");
        let gap = text_eq(strategy, "gap");
        let n = snap.len();
        let mut count: usize = 0;
        let mut i: usize = 0;
        while n > 0 && i < n - 1
            invariant
                n == sv.len(),
                sv == snap@,
                i <= n,
                self.track@.len() == n,
                forall|j: int| 0 <= j < n ==> #[trigger] self.track@[j].id == sv[j].id,
                fix_from(sv, self.track@, i as int, strategy@, min_gap as int).0 == goal.0,
                fix_from(sv, self.track@, i as int, strategy@, min_gap as int).1 + count == goal.1,
                count <= i,
                shorten == (strategy@ == "shorten"@),
                gap == (strategy@ == "gap"@),
                self.format == old(self).format,
                self.file_path == old(self).file_path,
                self.modified == old(self).modified,
            decreases n - i,
        {
            let a = snap.subtitle_at(i);
            let b = snap.subtitle_at(i + 1);
            if time_before(b.get_start(), a.get_end()) {
                if shorten {
                    let mut y = self.track.subtitle_at(i).copy_of();
                    y.set_end(b.get_start());
                    self.track.set_at(i, y);
                    count = count + 1;
                } else if gap {
                    let v1: i128 = a.get_end().total_millis() as i128 + b.get_start().total_millis() as i128
                        - min_gap as i128;
                    let v2: i128 = a.get_end().total_millis() as i128 + b.get_start().total_millis() as i128
                        + min_gap as i128;
                    let h1: i128 = if v1 < 0 { 0 } else { (v1 + 1) / 2 };
                    let h2: i128 = if v2 < 0 { 0 } else { (v2 + 1) / 2 };
                    let mut y = self.track.subtitle_at(i).copy_of();
                    y.set_end(time_from_millis(h1));
                    self.track.set_at(i, y);
                    let mut z = self.track.subtitle_at(i + 1).copy_of();
                    z.set_start(time_from_millis(h2));
                    self.track.set_at(i + 1, z);
                    count = count + 1;
                }
            }
            i = i + 1;
        }
        if count > 0 {
            self.modified = true;
        }
        count
    }

    /// The file to save to and its text: the path `path`, or else the editor's
    /// file; the track written in the editor's format (see `export_text`). Fails
    /// when there is no path, or when the format has no writer.
    pub fn save_content(&self, path: Option<&str>) -> (r: Result<(String, String), SubtitleError>)
        ensures
            path is None && self@.file_path is None ==> r == Err::<(String, String), SubtitleError>(
                SubtitleError::NoFilePath,
            ),
            path is Some || self@.file_path is Some ==> match export_text(self@) {
                Ok(text) => r matches Ok(pc) && pc.1@ == text && pc.0@ == match path {
                    Some(p) => p@,
                    None => self@.file_path->0,
                },
                Err(name) => r matches Err(SubtitleError::UnsupportedExportFormat(m)) && m@ == name,
            },
    {
        let target = match path {
            Some(p) => text_of(p),
            None => match &self.file_path {
                Some(p) => p.clone(),
                None => {
                    return Err(SubtitleError::NoFilePath);
                },
            },
        };
        let content = match self.format {
            SubtitleFormat::Srt => self.track.format_as_srt(),
            SubtitleFormat::WebVtt => self.track.format_as_vtt(),
            _ => {
                return Err(SubtitleError::UnsupportedExportFormat(text_of(self.format.name())));
            },
        };
        Ok((target, content))
    }

    /// Records that the track was saved to `path`: that is now the editor's file,
    /// and the editor counts as unchanged.
    pub fn mark_saved(&mut self, path: &str)
        ensures
            final(self)@ == (EditorView { file_path: Some(path@), modified: false, ..old(self)@ }),
    {
        self.file_path = Some(text_of(path));
        self.modified = false;
    }
}

} // verus!
