//! Reading SubRip and WebVTT subtitles from the text of a file.

use vstd::prelude::*;
use crate::subtitle::error::SubtitleError;
use crate::subtitle::format::{format_family, format_of_content, SubtitleFormat, TimePosition};
use crate::subtitle::model::{added, sorted_by_start, Subtitle, SubtitleTrack, SubtitleView};
use crate::utility::text::{
    all_digits, chars_of, contains_seq, decimal, find_seq, is_digit, is_ws, joined, lines_of, occurs_at, parse_u32,
    parse_u32_spec, push_chars, push_decimal, push_str, split_chars, split_lines, split_on, starts_with,
    string_from_chars, trim, trim_bounds, trim_start,
};

verus! {

/// Why reading subtitles failed, with the message: a parse error, a timing
/// error, or a format that has no reader.
pub enum Fault {
    Parse(Seq<char>),
    Timing(Seq<char>),
    Unsupported(Seq<char>),
}

/// What reading gives: a value, a failure, or a refusal. Reading refuses input on
/// which it would make a subtitle timestamp with an hour past 23, or cut the
/// milliseconds of a WebVTT timestamp inside a character.
pub enum Outcome<T> {
    Done(T),
    Failed(Fault),
    Refused,
}

/// Whether the error `e` is the failure `f`.
pub open spec fn error_matches(e: SubtitleError, f: Fault) -> bool {
    match f {
        Fault::Parse(m) => e matches SubtitleError::ParseError { file, reason } && file is None && reason@ == m,
        Fault::Timing(m) => e matches SubtitleError::TimingError(t) && t@ == m,
        Fault::Unsupported(m) => e matches SubtitleError::UnsupportedParserFormat(t) && t@ == m,
    }
}

/// Whether `r` is the timestamp outcome `o`; `Err(None)` stands for a refusal.
pub open spec fn time_result_is(r: Result<TimePosition, Option<SubtitleError>>, o: Outcome<TimePosition>) -> bool {
    match o {
        Outcome::Done(t) => r == Ok::<TimePosition, Option<SubtitleError>>(t),
        Outcome::Failed(f) => r matches Err(Some(e)) && error_matches(e, f),
        Outcome::Refused => r matches Err(None),
    }
}

/// The message of the error of reading `s` as a `u32` where that fails: empty
/// text, a character that is not a digit (after an optional `+`), or a number
/// too large.
pub open spec fn int_error_text(s: Seq<char>) -> Seq<char> {
    let d = if s.len() > 0 && s[0] == '+' { s.drop_first() } else { s };
    if s.len() == 0 {
        "cannot parse integer from empty string"@
    } else if !all_digits(d) {
        "invalid digit found in string"@
    } else {
        "number too large to fit in target type"@
    }
}

/// `s` with every `a` replaced by `b`.
pub open spec fn replace_char(s: Seq<char>, a: char, b: char) -> Seq<char> {
    s.map_values(|c: char| if c == a { b } else { c })
}

/// The SubRip timestamp `t` read as `hh:mm:ss,mmm` (a `.` may stand for the `,`):
/// the hours at most 99, the other parts within their ranges; an hour past 23
/// is refused.
#[verifier::opaque]
pub open spec fn srt_time(t: Seq<char>) -> Outcome<TimePosition> {
    let parts = split_on(replace_char(t, ',', '.'), ':');
    if parts.len() != 3 {
        Outcome::Failed(Fault::Parse("Invalid time format: "@ + t))
    } else if parse_u32_spec(parts[0]) is None {
        Outcome::Failed(Fault::Parse("Invalid hours in time format: "@ + int_error_text(parts[0])))
    } else if parse_u32_spec(parts[1]) is None {
        Outcome::Failed(Fault::Parse("Invalid minutes in time format: "@ + int_error_text(parts[1])))
    } else {
        let sp = split_on(parts[2], '.');
        if sp.len() != 2 {
            Outcome::Failed(Fault::Parse("Invalid seconds format: "@ + parts[2]))
        } else if parse_u32_spec(sp[0]) is None {
            Outcome::Failed(Fault::Parse("Invalid seconds in time format: "@ + sp[0]))
        } else if parse_u32_spec(sp[1]) is None {
            Outcome::Failed(Fault::Parse("Invalid milliseconds in time format: "@ + sp[1]))
        } else {
            let h = parse_u32_spec(parts[0]).unwrap();
            let m = parse_u32_spec(parts[1]).unwrap();
            let sec = parse_u32_spec(sp[0]).unwrap();
            let ms = parse_u32_spec(sp[1]).unwrap();
            if h > 99 {
                Outcome::Failed(Fault::Parse("Hours out of range: "@ + decimal(h as nat)))
            } else if m > 59 {
                Outcome::Failed(Fault::Parse("Minutes out of range: "@ + decimal(m as nat)))
            } else if sec > 59 {
                Outcome::Failed(Fault::Parse("Seconds out of range: "@ + decimal(sec as nat)))
            } else if ms > 999 {
                Outcome::Failed(Fault::Parse("Milliseconds out of range: "@ + decimal(ms as nat)))
            } else if h >= 24 {
                Outcome::Refused
            } else {
                Outcome::Done(TimePosition { hours: h, minutes: m, seconds: sec, milliseconds: ms })
            }
        }
    }
}

/// The number of bytes of `c` in UTF-8.
pub open spec fn utf8_width(c: char) -> nat {
    if (c as u32) < 0x80 {
        1
    } else if (c as u32) < 0x800 {
        2
    } else if (c as u32) < 0x10000 {
        3
    } else {
        4
    }
}

/// The number of bytes of `s` in UTF-8.
pub open spec fn utf8_len(s: Seq<char>) -> nat
    decreases s.len(),
{
    if s.len() == 0 {
        0
    } else {
        utf8_len(s.drop_last()) + utf8_width(s.last())
    }
}

/// The milliseconds text `s` made three bytes long, as the reader does: padded
/// with `0`s when shorter, cut after the third byte when longer; `None` where
/// that cut falls inside a character.
pub open spec fn three_bytes(s: Seq<char>) -> Option<Seq<char>> {
    let n = utf8_len(s);
    if n < 3 {
        Some(s + Seq::new((3 - n) as nat, |i: int| '0'))
    } else if n == 3 {
        Some(s)
    } else if utf8_width(s[0]) == 3 {
        Some(s.take(1))
    } else if utf8_width(s[0]) > 3 {
        None
    } else if utf8_width(s[0]) + utf8_width(s[1]) == 3 {
        Some(s.take(2))
    } else if utf8_width(s[0]) + utf8_width(s[1]) > 3 {
        None
    } else if utf8_width(s[2]) == 1 {
        Some(s.take(3))
    } else {
        None
    }
}

/// The WebVTT timestamp `s` read as `hh:mm:ss.ttt` or `mm:ss.ttt`, the
/// fraction optional and taken to three digits; minutes and seconds at most 59.
/// An hour past 23, or a cut inside a character, is refused.
#[verifier::opaque]
pub open spec fn vtt_time(s: Seq<char>) -> Outcome<TimePosition> {
    let parts = split_on(s, ':');
    if s.len() == 0 {
        Outcome::Failed(Fault::Timing("Cannot parse empty string as VTT time"@))
    } else if parts.len() != 3 && parts.len() != 2 {
        Outcome::Failed(Fault::Timing("Invalid VTT time format (parts): "@ + s))
    } else if parts.len() == 3 && parse_u32_spec(parts[0]) is None {
        Outcome::Failed(Fault::Timing("Invalid VTT hours: "@ + parts[0]))
    } else if parse_u32_spec(parts[parts.len() - 2]) is None {
        Outcome::Failed(Fault::Timing("Invalid VTT minutes: "@ + parts[parts.len() - 2]))
    } else {
        let h: u32 = if parts.len() == 3 { parse_u32_spec(parts[0]).unwrap() } else { 0 };
        let m = parse_u32_spec(parts[parts.len() - 2]).unwrap();
        let secs = parts[parts.len() - 1];
        let dots = split_on(secs, '.');
        let sec_text = dots[0];
        let frac = secs.skip(sec_text.len() as int + 1);
        if parse_u32_spec(sec_text) is None {
            Outcome::Failed(Fault::Timing("Invalid VTT seconds: "@ + sec_text))
        } else {
            let sec = parse_u32_spec(sec_text).unwrap();
            let ms: Outcome<u32> = if dots.len() == 1 || frac.len() == 0 {
                Outcome::Done(0)
            } else {
                match three_bytes(frac) {
                    None => Outcome::Refused,
                    Some(t) => match parse_u32_spec(t) {
                        None => Outcome::Failed(Fault::Timing("Invalid VTT milliseconds: "@ + frac)),
                        Some(v) => Outcome::Done(v),
                    },
                }
            };
            match ms {
                Outcome::Done(msv) => if m > 59 || sec > 59 {
                    Outcome::Failed(Fault::Timing("VTT time component out of range (MM/SS): "@ + s))
                } else if h >= 24 || msv >= 1000 {
                    Outcome::Refused
                } else {
                    Outcome::Done(TimePosition { hours: h, minutes: m, seconds: sec, milliseconds: msv })
                },
                Outcome::Failed(f) => Outcome::Failed(f),
                Outcome::Refused => Outcome::Refused,
            }
        }
    }
}

/// The characters `v[from..to]`.
pub(crate) fn sub_chars(v: &Vec<char>, from: usize, to: usize) -> (r: Vec<char>)
    requires
        from <= to <= v.len(),
    ensures
        r@ == v@.subrange(from as int, to as int),
{
    let mut r: Vec<char> = Vec::new();
    let mut i = from;
    while i < to
        invariant
            from <= i <= to <= v.len(),
            r@ == v@.subrange(from as int, i as int),
        decreases to - i,
    {
        r.push(v[i]);
        assert(r@ =~= v@.subrange(from as int, i + 1));
        i = i + 1;
    }
    r
}

/// `trim(v)`.
pub(crate) fn trimmed(v: &Vec<char>) -> (r: Vec<char>)
    ensures
        r@ == trim(v@),
{
    let (a, b) = trim_bounds(v, 0, v.len());
    assert(v@.subrange(0, v@.len() as int) == v@);
    sub_chars(v, a, b)
}

/// Reads `v` as a `u32`, as `str::parse` does.
pub(crate) fn read_u32(v: &Vec<char>) -> (r: Option<u32>)
    ensures
        r == parse_u32_spec(v@),
{
    assert(v@.subrange(0, v@.len() as int) == v@);
    parse_u32(v, 0, v.len())
}

/// The pieces of `v` between occurrences of `sep`.
pub(crate) fn split_all(v: &Vec<char>, sep: char) -> (r: Vec<Vec<char>>)
    ensures
        r@.len() == split_on(v@, sep).len(),
        forall|k: int| 0 <= k < r@.len() ==> #[trigger] r@[k]@ == split_on(v@, sep)[k],
{
    assert(v@.subrange(0, v@.len() as int) == v@);
    split_chars(v, 0, v.len(), sep)
}

#[verifier::rlimit(30)]
fn int_error(v: &Vec<char>) -> (r: &'static str)
    ensures
        r@ == int_error_text(v@),
{
    if v.len() == 0 {
        return "cannot parse integer from empty string";
    }
    let start: usize = if v[0] == '+' { 1 } else { 0 };
    let ghost d = if v@.len() > 0 && v@[0] == '+' { v@.drop_first() } else { v@ };
    assert(d == v@.subrange(start as int, v@.len() as int));
    if start == v.len() {
        return "invalid digit found in string";
    }
    let mut i = start;
    while i < v.len()
        invariant
            start <= i <= v.len(),
            v@.len() > 0,
            d == v@.subrange(start as int, v@.len() as int),
            d == (if v@.len() > 0 && v@[0] == '+' { v@.drop_first() } else { v@ }),
            forall|j: int| 0 <= j < i - start ==> is_digit(#[trigger] d[j]),
        decreases v.len() - i,
    {
        if !('0' <= v[i] && v[i] <= '9') {
            assert(d[i - start] == v@[i as int]);
            assert(!is_digit(d[i - start]));
            assert(!all_digits(d));
            return "invalid digit found in string";
        }
        i = i + 1;
    }
    "number too large to fit in target type"
}

fn parse_fault(prefix: &str, v: &Vec<char>) -> (e: SubtitleError)
    ensures
        error_matches(e, Fault::Parse(prefix@ + v@)),
{
    let mut m: Vec<char> = Vec::new();
    push_str(&mut m, prefix);
    push_chars(&mut m, v);
    SubtitleError::ParseError { file: None, reason: string_from_chars(&m) }
}

fn parse_fault_text(prefix: &str, t: &str) -> (e: SubtitleError)
    ensures
        error_matches(e, Fault::Parse(prefix@ + t@)),
{
    let mut m: Vec<char> = Vec::new();
    push_str(&mut m, prefix);
    push_str(&mut m, t);
    SubtitleError::ParseError { file: None, reason: string_from_chars(&m) }
}

fn parse_fault_number(prefix: &str, n: u32) -> (e: SubtitleError)
    ensures
        error_matches(e, Fault::Parse(prefix@ + decimal(n as nat))),
{
    let mut m: Vec<char> = Vec::new();
    push_str(&mut m, prefix);
    push_decimal(&mut m, n as u64);
    SubtitleError::ParseError { file: None, reason: string_from_chars(&m) }
}

fn timing_fault(prefix: &str, v: &Vec<char>) -> (e: SubtitleError)
    ensures
        error_matches(e, Fault::Timing(prefix@ + v@)),
{
    let mut m: Vec<char> = Vec::new();
    push_str(&mut m, prefix);
    push_chars(&mut m, v);
    SubtitleError::TimingError(string_from_chars(&m))
}

fn replace_commas(v: &Vec<char>) -> (r: Vec<char>)
    ensures
        r@ == replace_char(v@, ',', '.'),
{
    let mut r: Vec<char> = Vec::new();
    let mut i: usize = 0;
    while i < v.len()
        invariant
            0 <= i <= v.len(),
            r@ == replace_char(v@, ',', '.').take(i as int),
        decreases v.len() - i,
    {
        let c = if v[i] == ',' { '.' } else { v[i] };
        r.push(c);
        assert(r@ =~= replace_char(v@, ',', '.').take(i + 1));
        i = i + 1;
    }
    assert(r@ =~= replace_char(v@, ',', '.'));
    r
}

/// Reads a SubRip timestamp (see `srt_time`).
fn read_srt_time(t: &Vec<char>) -> (r: Result<TimePosition, Option<SubtitleError>>)
    ensures
        time_result_is(r, srt_time(t@)),
{
    proof {
        reveal(srt_time);
    }
    let d = replace_commas(t);
    let parts = split_all(&d, ':');
    if parts.len() != 3 {
        return Err(Some(parse_fault("Invalid time format: ", t)));
    }
    let h = match read_u32(&parts[0]) {
        Some(h) => h,
        None => {
            return Err(Some(parse_fault_text("Invalid hours in time format: ", int_error(&parts[0]))));
        },
    };
    let m = match read_u32(&parts[1]) {
        Some(m) => m,
        None => {
            return Err(Some(parse_fault_text("Invalid minutes in time format: ", int_error(&parts[1]))));
        },
    };
    let sp = split_all(&parts[2], '.');
    if sp.len() != 2 {
        return Err(Some(parse_fault("Invalid seconds format: ", &parts[2])));
    }
    let sec = match read_u32(&sp[0]) {
        Some(x) => x,
        None => {
            return Err(Some(parse_fault("Invalid seconds in time format: ", &sp[0])));
        },
    };
    let ms = match read_u32(&sp[1]) {
        Some(x) => x,
        None => {
            return Err(Some(parse_fault("Invalid milliseconds in time format: ", &sp[1])));
        },
    };
    if h > 99 {
        return Err(Some(parse_fault_number("Hours out of range: ", h)));
    }
    if m > 59 {
        return Err(Some(parse_fault_number("Minutes out of range: ", m)));
    }
    if sec > 59 {
        return Err(Some(parse_fault_number("Seconds out of range: ", sec)));
    }
    if ms > 999 {
        return Err(Some(parse_fault_number("Milliseconds out of range: ", ms)));
    }
    if h >= 24 {
        return Err(None);
    }
    Ok(TimePosition::new(h, m, sec, ms))
}

proof fn lemma_split_on_first(s: Seq<char>, c: char)
    ensures
        split_on(s, c).len() >= 1,
        split_on(s, c)[0].len() <= s.len(),
        split_on(s, c).len() > 1 ==> split_on(s, c)[0].len() < s.len(),
    decreases s.len(),
{
    crate::utility::text::lemma_split_on_nonempty(s, c);
    if s.len() > 0 {
        let d = s.drop_last();
        lemma_split_on_first(d, c);
    }
}

proof fn lemma_utf8_small(s: Seq<char>)
    ensures
        s.len() == 1 ==> utf8_len(s) == utf8_width(s[0]),
        s.len() == 2 ==> utf8_len(s) == utf8_width(s[0]) + utf8_width(s[1]),
{
    reveal_with_fuel(utf8_len, 3);
    if s.len() == 2 {
        assert(s.drop_last().drop_last().len() == 0);
        assert(s.drop_last()[0] == s[0]);
    }
}

fn utf8_width_exec(c: char) -> (w: u32)
    ensures
        w == utf8_width(c),
{
    let n = c as u32;
    if n < 0x80 {
        1
    } else if n < 0x800 {
        2
    } else if n < 0x10000 {
        3
    } else {
        4
    }
}

fn utf8_len_exec(v: &Vec<char>) -> (n: u128)
    ensures
        n == utf8_len(v@),
{
    let mut n: u128 = 0;
    let mut i: usize = 0;
    while i < v.len()
        invariant
            0 <= i <= v.len(),
            n == utf8_len(v@.take(i as int)),
            n <= 4 * i,
        decreases v.len() - i,
    {
        assert(v@.take(i + 1).drop_last() == v@.take(i as int));
        n = n + utf8_width_exec(v[i]) as u128;
        i = i + 1;
    }
    assert(v@.take(v.len() as int) == v@);
    n
}

/// The milliseconds text made three bytes long (see `three_bytes`).
fn three_bytes_exec(v: &Vec<char>) -> (r: Option<Vec<char>>)
    ensures
        match three_bytes(v@) {
            Some(t) => r matches Some(x) && x@ == t,
            None => r is None,
        },
{
    let n = utf8_len_exec(v);
    proof {
        lemma_utf8_small(v@);
        lemma_utf8_small(v@.take(2));
    }
    if n < 3 {
        let mut out = sub_chars(v, 0, v.len());
        assert(v@.subrange(0, v@.len() as int) == v@);
        let mut k: u128 = n;
        while k < 3
            invariant
                n <= k <= 3,
                n < 3,
                n == utf8_len(v@),
                out@ == v@ + Seq::new((k - n) as nat, |i: int| '0'),
            decreases 3 - k,
        {
            out.push('0');
            assert(out@ =~= v@ + Seq::new((k + 1 - n) as nat, |i: int| '0'));
            k = k + 1;
        }
        return Some(out);
    }
    if n == 3 {
        let out = sub_chars(v, 0, v.len());
        assert(v@.subrange(0, v@.len() as int) == v@);
        return Some(out);
    }
    if v.len() == 0 {
        assert(false);
        return None;
    }
    let w0 = utf8_width_exec(v[0]);
    if w0 == 3 {
        return Some(sub_chars(v, 0, 1));
    }
    if w0 > 3 {
        return None;
    }
    if v.len() < 2 {
        assert(false);
        return None;
    }
    let w1 = utf8_width_exec(v[1]);
    if w0 + w1 == 3 {
        return Some(sub_chars(v, 0, 2));
    }
    if w0 + w1 > 3 {
        return None;
    }
    if v.len() < 3 {
        assert(false);
        return None;
    }
    if utf8_width_exec(v[2]) == 1 {
        return Some(sub_chars(v, 0, 3));
    }
    None
}

fn timing_fault_text(t: &str) -> (e: SubtitleError)
    ensures
        error_matches(e, Fault::Timing(t@)),
{
    SubtitleError::TimingError(t.to_string())
}

/// Reads a WebVTT timestamp (see `vtt_time`).
fn read_vtt_time(s: &Vec<char>) -> (r: Result<TimePosition, Option<SubtitleError>>)
    ensures
        time_result_is(r, vtt_time(s@)),
{
    proof {
        reveal(vtt_time);
    }
    if s.len() == 0 {
        return Err(Some(timing_fault_text("Cannot parse empty string as VTT time")));
    }
    let parts = split_all(s, ':');
    let n = parts.len();
    if n != 3 && n != 2 {
        return Err(Some(timing_fault("Invalid VTT time format (parts): ", s)));
    }
    let mut h: u32 = 0;
    if n == 3 {
        match read_u32(&parts[0]) {
            Some(x) => {
                h = x;
            },
            None => {
                return Err(Some(timing_fault("Invalid VTT hours: ", &parts[0])));
            },
        }
    }
    let m = match read_u32(&parts[n - 2]) {
        Some(x) => x,
        None => {
            return Err(Some(timing_fault("Invalid VTT minutes: ", &parts[n - 2])));
        },
    };
    let secs = &parts[n - 1];
    let dots = split_all(secs, '.');
    proof {
        lemma_split_on_first(secs@, '.');
    }
    let sec_text = &dots[0];
    let sec = match read_u32(sec_text) {
        Some(x) => x,
        None => {
            return Err(Some(timing_fault("Invalid VTT seconds: ", sec_text)));
        },
    };
    let mut ms: u32 = 0;
    if dots.len() > 1 {
        let frac = sub_chars(secs, sec_text.len() + 1, secs.len());
        assert(frac@ == secs@.skip(sec_text@.len() as int + 1));
        if frac.len() > 0 {
            match three_bytes_exec(&frac) {
                None => {
                    return Err(None);
                },
                Some(t) => match read_u32(&t) {
                    Some(v) => {
                        ms = v;
                    },
                    None => {
                        return Err(Some(timing_fault("Invalid VTT milliseconds: ", &frac)));
                    },
                },
            }
        }
    }
    if m > 59 || sec > 59 {
        return Err(Some(timing_fault("VTT time component out of range (MM/SS): ", s)));
    }
    if h >= 24 || ms >= 1000 {
        return Err(None);
    }
    Ok(TimePosition::new(h, m, sec, ms))
}

/// The first position at which `p` occurs in `s`, or -1.
pub open spec fn first_occurrence(s: Seq<char>, p: Seq<char>) -> int {
    if contains_seq(s, p) {
        choose|i: int| occurs_at(s, p, i) && forall|j: int| 0 <= j < i ==> !occurs_at(s, p, j)
    } else {
        -1
    }
}

/// The two pieces of `s` where splitting it at each occurrence of `p`, from the
/// left and without overlap, gives exactly two: the text before the first
/// occurrence and the rest, which holds none.
pub open spec fn split_pair(s: Seq<char>, p: Seq<char>) -> Option<(Seq<char>, Seq<char>)> {
    let i = first_occurrence(s, p);
    if i < 0 {
        None
    } else {
        let rest = s.skip(i + p.len());
        if contains_seq(rest, p) {
            None
        } else {
            Some((s.take(i), rest))
        }
    }
}

/// The subtitle of a SubRip entry with identifier `id`, timing line `timing` and
/// text `text`: the timing line is two timestamps around ` --> `.
#[verifier::opaque]
pub open spec fn srt_entry(id: Seq<char>, timing: Seq<char>, text: Seq<char>) -> Outcome<SubtitleView> {
    match split_pair(timing, " --> "@) {
        None => Outcome::Failed(Fault::Parse("Invalid timing format: "@ + timing)),
        Some((a, b)) => match srt_time(trim(a)) {
            Outcome::Done(st) => match srt_time(trim(b)) {
                Outcome::Done(en) => Outcome::Done(SubtitleView { id, start: st, end: en, text, style: None }),
                Outcome::Failed(f) => Outcome::Failed(f),
                Outcome::Refused => Outcome::Refused,
            },
            Outcome::Failed(f) => Outcome::Failed(f),
            Outcome::Refused => Outcome::Refused,
        },
    }
}

/// How far the first word of `u` reaches: up to its first white space.
pub open spec fn word_end(u: Seq<char>) -> int
    decreases u.len(),
{
    if u.len() == 0 || is_ws(u[0]) {
        0
    } else {
        1 + word_end(u.drop_first())
    }
}

/// The first word of `b` (as `split_whitespace` gives it), empty when there is none.
pub open spec fn first_word(b: Seq<char>) -> Seq<char> {
    let u = trim_start(b);
    u.take(word_end(u))
}

/// The subtitle of a WebVTT cue with identifier `id`, timing line `timing` and
/// text `text`: the timing line is two timestamps around ` --> `, the second
/// followed by cue settings, which are ignored. A timing line with nothing after
/// the arrow is refused.
#[verifier::opaque]
pub open spec fn vtt_entry(id: Seq<char>, timing: Seq<char>, text: Seq<char>) -> Outcome<SubtitleView> {
    match split_pair(timing, " --> "@) {
        None => Outcome::Failed(Fault::Parse("Invalid timing format: "@ + timing)),
        Some((a, b)) => if first_word(b).len() == 0 {
            Outcome::Refused
        } else {
            match vtt_time(trim(a)) {
                Outcome::Done(st) => match vtt_time(first_word(b)) {
                    Outcome::Done(en) => Outcome::Done(SubtitleView { id, start: st, end: en, text, style: None }),
                    Outcome::Failed(f) => Outcome::Failed(f),
                    Outcome::Refused => Outcome::Refused,
                },
                Outcome::Failed(f) => Outcome::Failed(f),
                Outcome::Refused => Outcome::Refused,
            }
        },
    }
}

/// The subtitle of an entry `(identifier, timing line, text)` of a WebVTT file
/// (`vtt`) or a SubRip one.
pub open spec fn entry_outcome(e: (Seq<char>, Seq<char>, Seq<char>), vtt: bool) -> Outcome<SubtitleView> {
    if vtt {
        vtt_entry(e.0, e.1, e.2)
    } else {
        srt_entry(e.0, e.1, e.2)
    }
}

/// The subtitles of the entries `es`, added one after another to an empty track;
/// the first entry that fails or is refused decides.
pub open spec fn built_track(es: Seq<(Seq<char>, Seq<char>, Seq<char>)>, vtt: bool) -> Outcome<Seq<SubtitleView>>
    decreases es.len(),
{
    if es.len() == 0 {
        Outcome::Done(Seq::empty())
    } else {
        match built_track(es.drop_last(), vtt) {
            Outcome::Done(s) => match entry_outcome(es.last(), vtt) {
                Outcome::Done(x) => Outcome::Done(added(s, x)),
                Outcome::Failed(f) => Outcome::Failed(f),
                Outcome::Refused => Outcome::Refused,
            },
            Outcome::Failed(f) => Outcome::Failed(f),
            Outcome::Refused => Outcome::Refused,
        }
    }
}

/// The track read, ordered by start time.
pub open spec fn finished(o: Outcome<Seq<SubtitleView>>) -> Outcome<Seq<SubtitleView>> {
    match o {
        Outcome::Done(s) => Outcome::Done(sorted_by_start(s)),
        Outcome::Failed(f) => Outcome::Failed(f),
        Outcome::Refused => Outcome::Refused,
    }
}

/// Where reading a SubRip file is, after some lines: the identifier, timing line
/// and text lines of the entry being read, whether one is being read, and the
/// entries read.
pub struct SrtScan {
    pub id: Seq<char>,
    pub timing: Seq<char>,
    pub text: Seq<Seq<char>>,
    pub open: bool,
    pub entries: Seq<(Seq<char>, Seq<char>, Seq<char>)>,
}

/// One line of a SubRip file, trimmed: a blank line ends an entry that has text;
/// otherwise the line is the identifier of a new entry, its timing line, or a
/// line of its text.
#[verifier::opaque]
pub open spec fn srt_step(st: SrtScan, line: Seq<char>) -> SrtScan {
    let t = trim(line);
    if t.len() == 0 {
        if st.open && st.text.len() > 0 {
            SrtScan {
                id: Seq::empty(),
                timing: Seq::empty(),
                text: Seq::empty(),
                open: false,
                entries: st.entries.push((st.id, st.timing, joined(st.text, "\n"@))),
            }
        } else {
            st
        }
    } else if !st.open {
        SrtScan { id: t, open: true, ..st }
    } else if st.timing.len() == 0 {
        SrtScan { timing: t, ..st }
    } else {
        SrtScan { text: st.text.push(t), ..st }
    }
}

/// Where reading the SubRip lines `ls` leaves the reader.
pub open spec fn srt_scan(ls: Seq<Seq<char>>) -> SrtScan
    decreases ls.len(),
{
    if ls.len() == 0 {
        SrtScan { id: Seq::empty(), timing: Seq::empty(), text: Seq::empty(), open: false, entries: Seq::empty() }
    } else {
        srt_step(srt_scan(ls.drop_last()), ls.last())
    }
}

/// The entries of the SubRip lines `ls`, the last one ended by the end of the
/// file where it has text.
pub open spec fn srt_entries(ls: Seq<Seq<char>>) -> Seq<(Seq<char>, Seq<char>, Seq<char>)> {
    let st = srt_scan(ls);
    if st.open && st.text.len() > 0 {
        st.entries.push((st.id, st.timing, joined(st.text, "\n"@)))
    } else {
        st.entries
    }
}

/// What reading the SubRip file `content` gives.
pub open spec fn srt_outcome(content: Seq<char>) -> Outcome<Seq<SubtitleView>> {
    finished(built_track(srt_entries(lines_of(content)), false))
}

/// Whether `a` begins `b`.
pub open spec fn begins<T>(a: Seq<T>, b: Seq<T>) -> bool {
    a.len() <= b.len() && b.take(a.len() as int) == a
}

proof fn lemma_begins_trans<T>(a: Seq<T>, b: Seq<T>, c: Seq<T>)
    requires
        begins(a, b),
        begins(b, c),
    ensures
        begins(a, c),
{
    assert(c.take(a.len() as int) =~= c.take(b.len() as int).take(a.len() as int));
}

proof fn lemma_srt_scan_begins(ls: Seq<Seq<char>>, j: int)
    requires
        0 <= j <= ls.len(),
    ensures
        begins(srt_scan(ls.take(j)).entries, srt_scan(ls).entries),
    decreases ls.len(),
{
    reveal(srt_step);
    if j == ls.len() {
        assert(ls.take(j) == ls);
        assert(srt_scan(ls).entries.take(srt_scan(ls).entries.len() as int) == srt_scan(ls).entries);
    } else {
        let d = ls.drop_last();
        assert(d.take(j) == ls.take(j));
        lemma_srt_scan_begins(d, j);
        let a = srt_scan(d).entries;
        let b = srt_scan(ls).entries;
        assert(begins(a, b)) by {
            if b.len() > a.len() {
                assert(b == a.push(b.last()));
                assert(b.take(a.len() as int) =~= a);
            } else {
                assert(b.take(a.len() as int) =~= a);
            }
        }
        lemma_begins_trans(srt_scan(ls.take(j)).entries, a, b);
    }
}

proof fn lemma_built_sticky(es: Seq<(Seq<char>, Seq<char>, Seq<char>)>, k: int, vtt: bool)
    requires
        0 <= k <= es.len(),
        !(built_track(es.take(k), vtt) is Done),
    ensures
        built_track(es, vtt) == built_track(es.take(k), vtt),
    decreases es.len(),
{
    if k == es.len() {
        assert(es.take(k) == es);
    } else {
        let d = es.drop_last();
        assert(d.take(k) == es.take(k));
        lemma_built_sticky(d, k, vtt);
    }
}

/// The track outcome `o` as a result: `Err(None)` stands for a refusal.
pub open spec fn track_result_is(r: Result<SubtitleTrack, Option<SubtitleError>>, o: Outcome<Seq<SubtitleView>>) -> bool {
    match o {
        Outcome::Done(s) => r matches Ok(t) && t@ == s,
        Outcome::Failed(f) => r matches Err(Some(e)) && error_matches(e, f),
        Outcome::Refused => r matches Err(None),
    }
}

/// The subtitle outcome `o` as a result: `Err(None)` stands for a refusal.
pub open spec fn entry_result_is(r: Result<Subtitle, Option<SubtitleError>>, o: Outcome<SubtitleView>) -> bool {
    match o {
        Outcome::Done(x) => r matches Ok(t) && t@ == x,
        Outcome::Failed(f) => r matches Err(Some(e)) && error_matches(e, f),
        Outcome::Refused => r matches Err(None),
    }
}

/// The texts of character lists.
pub open spec fn char_lines(v: Seq<Vec<char>>) -> Seq<Seq<char>> {
    v.map_values(|x: Vec<char>| x@)
}

/// Splits `s` around ` --> ` (see `split_pair`).
fn split_arrow(s: &Vec<char>) -> (r: Option<(Vec<char>, Vec<char>)>)
    ensures
        match split_pair(s@, " --> "@) {
            Some((a, b)) => r matches Some(x) && x.0@ == a && x.1@ == b,
            None => r is None,
        },
{
    let p = chars_of(" --> ");
    assert(s@.subrange(0, s@.len() as int) == s@);
    match find_seq(s, 0, s.len(), &p) {
        None => None,
        Some(i) => {
            proof {
                let pred = |k: int| occurs_at(s@, p@, k) && forall|j: int| 0 <= j < k ==> !occurs_at(s@, p@, j);
                assert(pred(i as int));
                assert(contains_seq(s@, p@));
                let k = first_occurrence(s@, p@);
                assert(pred(k));
                assert(k == i) by {
                    if k < i {
                        assert(!occurs_at(s@, p@, k));
                    }
                    if k > i {
                        assert(!occurs_at(s@, p@, i as int));
                    }
                }
            }
            let after = i + p.len();
            let rest = sub_chars(s, after, s.len());
            assert(rest@ == s@.skip(after as int));
            assert(rest@.subrange(0, rest@.len() as int) == rest@);
            match find_seq(&rest, 0, rest.len(), &p) {
                Some(_) => None,
                None => Some((sub_chars(s, 0, i), rest)),
            }
        },
    }
}

/// Joins text lines with line breaks.
fn join_lines(text: &Vec<Vec<char>>) -> (r: Vec<char>)
    ensures
        r@ == joined(char_lines(text@), "\n"@),
{
    let ghost t = char_lines(text@);
    let mut out: Vec<char> = Vec::new();
    let mut i: usize = 0;
    assert(t.take(0) =~= Seq::<Seq<char>>::empty());
    while i < text.len()
        invariant
            0 <= i <= text.len(),
            t == char_lines(text@),
            out@ == joined(t.take(i as int), "\n"@),
        decreases text.len() - i,
    {
        let ghost q = t.take(i + 1);
        assert(q.drop_last() == t.take(i as int));
        assert(q.last() == text@[i as int]@);
        if i > 0 {
            out.push('\n');
            push_chars(&mut out, &text[i]);
            assert(out@ =~= joined(t.take(i as int), "\n"@) + "\n"@ + text@[i as int]@) by {
                reveal_strlit("\n");
            }
        } else {
            push_chars(&mut out, &text[i]);
            assert(q.len() == 1);
            assert(out@ =~= q[0]);
        }
        i = i + 1;
    }
    assert(t.take(text.len() as int) == t);
    out
}

/// Reads a SubRip entry (see `srt_entry`).
fn read_srt_entry(id: &Vec<char>, timing: &Vec<char>, text: &Vec<char>) -> (r: Result<Subtitle, Option<SubtitleError>>)
    ensures
        entry_result_is(r, srt_entry(id@, timing@, text@)),
{
    proof {
        reveal(srt_entry);
    }
    let (a, b) = match split_arrow(timing) {
        Some(x) => x,
        None => {
            return Err(Some(parse_fault("Invalid timing format: ", timing)));
        },
    };
    let st = match read_srt_time(&trimmed(&a)) {
        Ok(t) => t,
        Err(e) => {
            return Err(e);
        },
    };
    let en = match read_srt_time(&trimmed(&b)) {
        Ok(t) => t,
        Err(e) => {
            return Err(e);
        },
    };
    let body = string_from_chars(text);
    let name = string_from_chars(id);
    Ok(Subtitle::new(st, en, body.as_str()).with_id(name.as_str()))
}

/// The first word of `b` (see `first_word`).
fn first_word_exec(b: &Vec<char>) -> (r: Vec<char>)
    ensures
        r@ == first_word(b@),
{
    let (a, _e) = trim_bounds(b, 0, b.len());
    assert(b@.subrange(0, b@.len() as int) == b@);
    let ghost u = trim_start(b@);
    assert(u == b@.subrange(a as int, b@.len() as int));
    let mut k = a;
    while k < b.len() && !crate::utility::text::char_is_ws(b[k])
        invariant
            a <= k <= b.len(),
            u == b@.subrange(a as int, b@.len() as int),
            forall|j: int| 0 <= j < k - a ==> !is_ws(#[trigger] u[j]),
        decreases b.len() - k,
    {
        k = k + 1;
    }
    proof {
        lemma_word_end(u, k - a);
    }
    sub_chars(b, a, k)
}

proof fn lemma_word_end(u: Seq<char>, k: int)
    requires
        0 <= k <= u.len(),
        forall|j: int| 0 <= j < k ==> !is_ws(#[trigger] u[j]),
        k < u.len() ==> is_ws(u[k]),
    ensures
        word_end(u) == k,
    decreases u.len(),
{
    if k > 0 {
        assert forall|j: int| 0 <= j < k - 1 implies !is_ws(#[trigger] u.drop_first()[j]) by {
            assert(u.drop_first()[j] == u[j + 1]);
        }
        if k < u.len() {
            assert(u.drop_first()[k - 1] == u[k]);
        }
        assert(!is_ws(u[0]));
        lemma_word_end(u.drop_first(), k - 1);
    }
}

/// Reads a WebVTT cue (see `vtt_entry`).
fn read_vtt_entry(id: &Vec<char>, timing: &Vec<char>, text: &Vec<char>) -> (r: Result<Subtitle, Option<SubtitleError>>)
    ensures
        entry_result_is(r, vtt_entry(id@, timing@, text@)),
{
    proof {
        reveal(vtt_entry);
    }
    let (a, b) = match split_arrow(timing) {
        Some(x) => x,
        None => {
            return Err(Some(parse_fault("Invalid timing format: ", timing)));
        },
    };
    let w = first_word_exec(&b);
    if w.len() == 0 {
        return Err(None);
    }
    let st = match read_vtt_time(&trimmed(&a)) {
        Ok(t) => t,
        Err(e) => {
            return Err(e);
        },
    };
    let en = match read_vtt_time(&w) {
        Ok(t) => t,
        Err(e) => {
            return Err(e);
        },
    };
    let body = string_from_chars(text);
    let name = string_from_chars(id);
    Ok(Subtitle::new(st, en, body.as_str()).with_id(name.as_str()))
}

proof fn lemma_srt_stops(ls: Seq<Seq<char>>, j: int)
    requires
        0 <= j <= ls.len(),
        !(built_track(srt_scan(ls.take(j)).entries, false) is Done),
    ensures
        built_track(srt_entries(ls), false) == built_track(srt_scan(ls.take(j)).entries, false),
{
    let es = srt_scan(ls.take(j)).entries;
    lemma_srt_scan_begins(ls, j);
    let full = srt_entries(ls);
    assert(begins(srt_scan(ls).entries, full)) by {
        assert(full.take(srt_scan(ls).entries.len() as int) =~= srt_scan(ls).entries);
    }
    lemma_begins_trans(es, srt_scan(ls).entries, full);
    lemma_built_sticky(full, es.len() as int, false);
}

/// Adds to `track` the subtitle of the entry `(id, timing, body)`, of a WebVTT
/// file (`vtt`) or a SubRip one, as the next entry after `es`.
fn add_entry(
    track: &mut SubtitleTrack,
    id: &Vec<char>,
    timing: &Vec<char>,
    body: &Vec<char>,
    vtt: bool,
    Ghost(es): Ghost<Seq<(Seq<char>, Seq<char>, Seq<char>)>>,
) -> (r: Result<(), Option<SubtitleError>>)
    requires
        built_track(es, vtt) == Outcome::Done(old(track)@),
        old(track)@.len() < usize::MAX,
    ensures
        final(track)@.len() <= old(track)@.len() + 1,
        match built_track(es.push((id@, timing@, body@)), vtt) {
            Outcome::Done(s) => r is Ok && final(track)@ == s,
            Outcome::Failed(f) => r matches Err(Some(e)) && error_matches(e, f),
            Outcome::Refused => r matches Err(None),
        },
{
    let ghost e = (id@, timing@, body@);
    assert(es.push(e).drop_last() == es);
    let read = if vtt {
        read_vtt_entry(id, timing, body)
    } else {
        read_srt_entry(id, timing, body)
    };
    match read {
        Ok(sub) => {
            proof {
                crate::subtitle::model::lemma_added_len(old(track)@, sub@);
            }
            track.add_subtitle(sub);
            Ok(())
        },
        Err(err) => Err(err),
    }
}

/// Where a SubRip reader is within the entry it reads.
struct SrtReader {
    id: Vec<char>,
    timing: Vec<char>,
    text: Vec<Vec<char>>,
    open: bool,
}

impl SrtReader {
    spec fn holds(&self, sc: SrtScan) -> bool {
        &&& self.id@ == sc.id
        &&& self.timing@ == sc.timing
        &&& char_lines(self.text@) == sc.text
        &&& self.open == sc.open
    }

    /// Reads one line, adding to `track` the entry that it ends.
    fn feed(&mut self, track: &mut SubtitleTrack, line: &Vec<char>, Ghost(sc): Ghost<SrtScan>) -> (r: Result<
        (),
        Option<SubtitleError>,
    >)
        requires
            old(self).holds(sc),
            built_track(sc.entries, false) == Outcome::Done(old(track)@),
            old(track)@.len() < usize::MAX,
        ensures
            r is Ok ==> final(track)@.len() + (if final(self).open { 1int } else { 0 }) <= old(track)@.len() + (
            if old(self).open {
                1int
            } else {
                0
            }) + 1,
            match built_track(srt_step(sc, line@).entries, false) {
                Outcome::Done(s) => r is Ok && final(track)@ == s && final(self).holds(srt_step(sc, line@)),
                Outcome::Failed(f) => r matches Err(Some(e)) && error_matches(e, f),
                Outcome::Refused => r matches Err(None),
            },
    {
        proof {
            reveal(srt_step);
        }
        let t = trimmed(line);
        if t.len() == 0 {
            if self.open && self.text.len() > 0 {
                let body = join_lines(&self.text);
                let res = add_entry(track, &self.id, &self.timing, &body, false, Ghost(sc.entries));
                if res.is_err() {
                    return res;
                }
                self.id = Vec::new();
                self.timing = Vec::new();
                self.text = Vec::new();
                self.open = false;
                assert(char_lines(self.text@) =~= Seq::<Seq<char>>::empty());
                assert(self.id@ =~= Seq::<char>::empty());
                assert(self.timing@ =~= Seq::<char>::empty());
            }
        } else if !self.open {
            self.id = t;
            self.open = true;
        } else if self.timing.len() == 0 {
            self.timing = t;
        } else {
            let ghost tv = t@;
            self.text.push(t);
            assert(char_lines(self.text@) =~= sc.text.push(tv));
        }
        Ok(())
    }
}

/// Reads a SubRip file (see `srt_outcome`).
fn read_srt(content: &str) -> (r: Result<SubtitleTrack, Option<SubtitleError>>)
    ensures
        track_result_is(r, srt_outcome(content@)),
{
    let v = chars_of(content);
    let lines = split_lines(&v);
    let ghost ls = lines_of(content@);
    let mut track = SubtitleTrack::new();
    let mut reader = SrtReader { id: Vec::new(), timing: Vec::new(), text: Vec::new(), open: false };
    let mut i: usize = 0;
    assert(ls.take(0) =~= Seq::<Seq<char>>::empty());
    assert(char_lines(reader.text@) =~= Seq::<Seq<char>>::empty());
    while i < lines.len()
        invariant
            0 <= i <= lines.len(),
            ls == lines_of(content@),
            ls.len() == lines.len(),
            forall|k: int| 0 <= k < lines@.len() ==> #[trigger] lines@[k]@ == ls[k],
            reader.holds(srt_scan(ls.take(i as int))),
            built_track(srt_scan(ls.take(i as int)).entries, false) == Outcome::Done(track@),
            track@.len() + (if reader.open { 1int } else { 0 }) <= i,
        decreases lines.len() - i,
    {
        assert(ls.take(i + 1).drop_last() == ls.take(i as int));
        assert(ls.take(i + 1).last() == lines@[i as int]@);
        let res = reader.feed(&mut track, &lines[i], Ghost(srt_scan(ls.take(i as int))));
        if let Err(e) = res {
            proof {
                lemma_srt_stops(ls, i + 1);
            }
            return Err(e);
        }
        i = i + 1;
    }
    assert(ls.take(ls.len() as int) == ls);
    if reader.open && reader.text.len() > 0 {
        let body = join_lines(&reader.text);
        let res = add_entry(&mut track, &reader.id, &reader.timing, &body, false, Ghost(srt_scan(ls).entries));
        if let Err(e) = res {
            return Err(e);
        }
    }
    track.sort();
    Ok(track)
}

/// Whether a line of a WebVTT file before its cues is blank or the header.
pub open spec fn is_header_line(l: Seq<char>) -> bool {
    trim(l).len() == 0 || trim(l) == "WEBVTT"@
}

/// The lines of a WebVTT file from the first that is neither blank nor the header.
pub open spec fn skip_header(ls: Seq<Seq<char>>) -> Seq<Seq<char>>
    decreases ls.len(),
{
    if ls.len() > 0 && is_header_line(ls[0]) {
        skip_header(ls.drop_first())
    } else {
        ls
    }
}

/// Where reading a WebVTT file is, after some lines: the identifier, timing line
/// and text lines of the cue being read, whether a cue is being read (its timing
/// line was seen), the number for the next cue without an identifier, and the
/// cues read.
pub struct VttScan {
    pub id: Option<Seq<char>>,
    pub timing: Option<Seq<char>>,
    pub text: Seq<Seq<char>>,
    pub cue: bool,
    pub counter: nat,
    pub entries: Seq<(Seq<char>, Seq<char>, Seq<char>)>,
}

/// The identifier of the cue being read, and the next number: its own identifier
/// where it has a non-empty one, otherwise the current number, which is then
/// used up.
pub open spec fn cue_id(st: VttScan) -> (Seq<char>, nat) {
    match st.id {
        Some(i) => if i.len() > 0 {
            (i, st.counter)
        } else {
            (decimal(st.counter), st.counter + 1)
        },
        None => (decimal(st.counter), st.counter + 1),
    }
}

/// One line of a WebVTT file, trimmed: a blank line ends the cue being read; a
/// `NOTE` or `STYLE` line is skipped, and outside a cue drops the identifier
/// seen; a line with `-->` is a timing line and starts a cue; any other line is
/// text inside a cue, or else an identifier.
#[verifier::opaque]
pub open spec fn vtt_step(st: VttScan, line: Seq<char>) -> VttScan {
    let t = trim(line);
    if t.len() == 0 {
        if st.cue && st.timing is Some {
            VttScan {
                id: None,
                timing: None,
                text: Seq::empty(),
                cue: false,
                counter: cue_id(st).1,
                entries: st.entries.push((cue_id(st).0, st.timing.unwrap(), joined(st.text, "\n"@))),
            }
        } else {
            st
        }
    } else if starts_with(t, "NOTE"@) || starts_with(t, "STYLE"@) {
        if !st.cue {
            VttScan { id: None, ..st }
        } else {
            st
        }
    } else if contains_seq(t, "-->"@) {
        VttScan { timing: Some(t), cue: true, ..st }
    } else if st.cue {
        VttScan { text: st.text.push(t), ..st }
    } else {
        VttScan { id: Some(t), text: Seq::empty(), ..st }
    }
}

/// Where reading the WebVTT lines `ls` (after the header) leaves the reader.
pub open spec fn vtt_scan(ls: Seq<Seq<char>>) -> VttScan
    decreases ls.len(),
{
    if ls.len() == 0 {
        VttScan { id: None, timing: None, text: Seq::empty(), cue: false, counter: 1, entries: Seq::empty() }
    } else {
        vtt_step(vtt_scan(ls.drop_last()), ls.last())
    }
}

/// The cues of the WebVTT lines `ls`, the last one ended by the end of the file.
pub open spec fn vtt_entries(ls: Seq<Seq<char>>) -> Seq<(Seq<char>, Seq<char>, Seq<char>)> {
    let st = vtt_scan(skip_header(ls));
    if st.cue && st.timing is Some {
        st.entries.push((cue_id(st).0, st.timing.unwrap(), joined(st.text, "\n"@)))
    } else {
        st.entries
    }
}

/// What reading the WebVTT file `content` gives.
pub open spec fn vtt_outcome(content: Seq<char>) -> Outcome<Seq<SubtitleView>> {
    finished(built_track(vtt_entries(lines_of(content)), true))
}

proof fn lemma_vtt_scan_begins(ls: Seq<Seq<char>>, j: int)
    requires
        0 <= j <= ls.len(),
    ensures
        begins(vtt_scan(ls.take(j)).entries, vtt_scan(ls).entries),
    decreases ls.len(),
{
    reveal(vtt_step);
    if j == ls.len() {
        assert(ls.take(j) == ls);
        assert(vtt_scan(ls).entries.take(vtt_scan(ls).entries.len() as int) == vtt_scan(ls).entries);
    } else {
        let d = ls.drop_last();
        assert(d.take(j) == ls.take(j));
        lemma_vtt_scan_begins(d, j);
        let a = vtt_scan(d).entries;
        let b = vtt_scan(ls).entries;
        assert(begins(a, b)) by {
            if b.len() > a.len() {
                assert(b.take(a.len() as int) =~= a);
            } else {
                assert(b.take(a.len() as int) =~= a);
            }
        }
        lemma_begins_trans(vtt_scan(ls.take(j)).entries, a, b);
    }
}

proof fn lemma_vtt_stops(ls: Seq<Seq<char>>, j: int)
    requires
        0 <= j <= ls.len(),
        !(built_track(vtt_scan(ls.take(j)).entries, true) is Done),
    ensures
        built_track(
            (if vtt_scan(ls).cue && vtt_scan(ls).timing is Some {
                vtt_scan(ls).entries.push(
                    (cue_id(vtt_scan(ls)).0, vtt_scan(ls).timing.unwrap(), joined(vtt_scan(ls).text, "\n"@)),
                )
            } else {
                vtt_scan(ls).entries
            }),
            true,
        ) == built_track(vtt_scan(ls.take(j)).entries, true),
{
    let es = vtt_scan(ls.take(j)).entries;
    lemma_vtt_scan_begins(ls, j);
    let st = vtt_scan(ls);
    let full = if st.cue && st.timing is Some {
        st.entries.push((cue_id(st).0, st.timing.unwrap(), joined(st.text, "\n"@)))
    } else {
        st.entries
    };
    assert(begins(st.entries, full)) by {
        assert(full.take(st.entries.len() as int) =~= st.entries);
    }
    lemma_begins_trans(es, st.entries, full);
    lemma_built_sticky(full, es.len() as int, true);
}

proof fn lemma_skip_header(ls: Seq<Seq<char>>, k: int)
    requires
        0 <= k <= ls.len(),
        forall|j: int| 0 <= j < k ==> is_header_line(#[trigger] ls[j]),
        k < ls.len() ==> !is_header_line(ls[k]),
    ensures
        skip_header(ls) == ls.skip(k),
    decreases k,
{
    if k == 0 {
        assert(ls.skip(0) == ls);
    } else {
        assert(is_header_line(ls[0]));
        let d = ls.drop_first();
        assert forall|j: int| 0 <= j < k - 1 implies is_header_line(#[trigger] d[j]) by {
            assert(d[j] == ls[j + 1]);
        }
        if k < ls.len() {
            assert(d[k - 1] == ls[k]);
        }
        lemma_skip_header(d, k - 1);
        assert(d.skip(k - 1) =~= ls.skip(k));
    }
}

fn starts_with_text(v: &Vec<char>, p: &str) -> (b: bool)
    ensures
        b == starts_with(v@, p@),
{
    let pv = chars_of(p);
    assert(v@.subrange(0, v@.len() as int) == v@);
    let b = crate::utility::text::occurs_at_exec(v, 0, v.len(), &pv, 0);
    assert(b == starts_with(v@, p@)) by {
        if pv@.len() <= v@.len() {
            assert(v@.take(pv@.len() as int) == v@.subrange(0, pv@.len() as int));
        }
    }
    b
}

fn contains_text_exec(v: &Vec<char>, p: &str) -> (b: bool)
    ensures
        b == contains_seq(v@, p@),
{
    let pv = chars_of(p);
    assert(v@.subrange(0, v@.len() as int) == v@);
    find_seq(v, 0, v.len(), &pv).is_some()
}

fn header_line(l: &Vec<char>) -> (b: bool)
    ensures
        b == is_header_line(l@),
{
    let t = trimmed(l);
    t.len() == 0 || crate::utility::text::chars_eq_str(&t, "WEBVTT")
}

fn copy_chars(v: &Vec<char>) -> (r: Vec<char>)
    ensures
        r@ == v@,
{
    assert(v@.subrange(0, v@.len() as int) == v@);
    sub_chars(v, 0, v.len())
}

/// Where a WebVTT reader is within the cue it reads.
struct VttReader {
    id: Option<Vec<char>>,
    timing: Option<Vec<char>>,
    text: Vec<Vec<char>>,
    cue: bool,
    counter: u64,
}

impl VttReader {
    spec fn holds(&self, sc: VttScan) -> bool {
        &&& match self.id {
            Some(v) => sc.id == Some(v@),
            None => sc.id is None,
        }
        &&& match self.timing {
            Some(v) => sc.timing == Some(v@),
            None => sc.timing is None,
        }
        &&& char_lines(self.text@) == sc.text
        &&& self.cue == sc.cue
        &&& self.counter == sc.counter
    }

    /// The identifier of the cue being read (see `cue_id`), using up a number
    /// where it takes one.
    fn take_id(&mut self, Ghost(sc): Ghost<VttScan>) -> (r: Vec<char>)
        requires
            old(self).holds(sc),
            old(self).counter < u64::MAX,
        ensures
            r@ == cue_id(sc).0,
            final(self).counter == cue_id(sc).1,
            final(self).counter <= old(self).counter + 1,
            final(self).counter >= old(self).counter,
            final(self).id == old(self).id,
            final(self).timing == old(self).timing,
            final(self).text == old(self).text,
            final(self).cue == old(self).cue,
    {
        match &self.id {
            Some(x) => {
                if x.len() > 0 {
                    return copy_chars(x);
                }
            },
            None => {},
        }
        let mut d: Vec<char> = Vec::new();
        push_decimal(&mut d, self.counter);
        self.counter = self.counter + 1;
        d
    }

    /// Reads one line, adding to `track` the cue that it ends.
    fn feed(&mut self, track: &mut SubtitleTrack, line: &Vec<char>, Ghost(sc): Ghost<VttScan>) -> (r: Result<
        (),
        Option<SubtitleError>,
    >)
        requires
            old(self).holds(sc),
            built_track(sc.entries, true) == Outcome::Done(old(track)@),
            old(track)@.len() < usize::MAX,
            old(self).counter < u64::MAX,
        ensures
            r is Ok ==> final(track)@.len() + (if final(self).cue { 1int } else { 0 }) <= old(track)@.len() + (
            if old(self).cue {
                1int
            } else {
                0
            }) + 1,
            r is Ok ==> 2 * final(self).counter + (if final(self).cue { 1int } else { 0 }) <= 2 * old(self).counter + (
            if old(self).cue {
                1int
            } else {
                0
            }) + 1,
            r is Ok ==> final(self).counter >= old(self).counter,
            match built_track(vtt_step(sc, line@).entries, true) {
                Outcome::Done(s) => r is Ok && final(track)@ == s && final(self).holds(vtt_step(sc, line@)),
                Outcome::Failed(f) => r matches Err(Some(e)) && error_matches(e, f),
                Outcome::Refused => r matches Err(None),
            },
    {
        proof {
            reveal(vtt_step);
        }
        let t = trimmed(line);
        if t.len() == 0 {
            if self.cue && self.timing.is_some() {
                let idv = self.take_id(Ghost(sc));
                let tm = match &self.timing {
                    Some(x) => copy_chars(x),
                    None => Vec::new(),
                };
                let body = join_lines(&self.text);
                let res = add_entry(track, &idv, &tm, &body, true, Ghost(sc.entries));
                if res.is_err() {
                    return res;
                }
                self.id = None;
                self.timing = None;
                self.text = Vec::new();
                self.cue = false;
                assert(char_lines(self.text@) =~= Seq::<Seq<char>>::empty());
            }
        } else if starts_with_text(&t, "NOTE") || starts_with_text(&t, "STYLE") {
            if !self.cue {
                self.id = None;
            }
        } else if contains_text_exec(&t, "-->") {
            self.timing = Some(t);
            self.cue = true;
        } else if self.cue {
            let ghost tv = t@;
            self.text.push(t);
            assert(char_lines(self.text@) =~= sc.text.push(tv));
        } else {
            self.id = Some(t);
            self.text = Vec::new();
            assert(char_lines(self.text@) =~= Seq::<Seq<char>>::empty());
        }
        Ok(())
    }
}

/// Reads a WebVTT file (see `vtt_outcome`).
fn read_vtt(content: &str) -> (r: Result<SubtitleTrack, Option<SubtitleError>>)
    ensures
        track_result_is(r, vtt_outcome(content@)),
{
    let v = chars_of(content);
    let lines = split_lines(&v);
    let ghost ls = lines_of(content@);
    let mut k: usize = 0;
    while k < lines.len() && header_line(&lines[k])
        invariant
            0 <= k <= lines.len(),
            ls == lines_of(content@),
            ls.len() == lines.len(),
            forall|q: int| 0 <= q < lines@.len() ==> #[trigger] lines@[q]@ == ls[q],
            forall|j: int| 0 <= j < k ==> is_header_line(#[trigger] ls[j]),
        decreases lines.len() - k,
    {
        k = k + 1;
    }
    proof {
        lemma_skip_header(ls, k as int);
    }
    let ghost body_lines = ls.skip(k as int);
    let mut track = SubtitleTrack::new();
    let mut reader = VttReader { id: None, timing: None, text: Vec::new(), cue: false, counter: 1 };
    let mut i: usize = k;
    assert(body_lines.take(0) =~= Seq::<Seq<char>>::empty());
    assert(char_lines(reader.text@) =~= Seq::<Seq<char>>::empty());
    while i < lines.len()
        invariant
            k <= i <= lines.len(),
            ls == lines_of(content@),
            ls.len() == lines.len(),
            body_lines == ls.skip(k as int),
            skip_header(ls) == body_lines,
            forall|q: int| 0 <= q < lines@.len() ==> #[trigger] lines@[q]@ == ls[q],
            reader.holds(vtt_scan(body_lines.take(i - k))),
            built_track(vtt_scan(body_lines.take(i - k)).entries, true) == Outcome::Done(track@),
            track@.len() + (if reader.cue { 1int } else { 0 }) <= i,
            reader.counter >= 1,
            2 * (reader.counter - 1) + (if reader.cue { 1int } else { 0 }) <= i,
        decreases lines.len() - i,
    {
        assert(body_lines.take(i - k + 1).drop_last() == body_lines.take(i - k));
        assert(body_lines.take(i - k + 1).last() == lines@[i as int]@);
        let res = reader.feed(&mut track, &lines[i], Ghost(vtt_scan(body_lines.take(i - k))));
        if let Err(e) = res {
            proof {
                lemma_vtt_stops(body_lines, i - k + 1);
            }
            return Err(e);
        }
        i = i + 1;
    }
    assert(body_lines.take(body_lines.len() as int) == body_lines);
    assert(body_lines.len() == lines.len() - k);
    if reader.cue && reader.timing.is_some() {
        let ghost sc = vtt_scan(body_lines);
        let idv = reader.take_id(Ghost(sc));
        let tm = match &reader.timing {
            Some(x) => copy_chars(x),
            None => Vec::new(),
        };
        let body = join_lines(&reader.text);
        let res = add_entry(&mut track, &idv, &tm, &body, true, Ghost(sc.entries));
        if let Err(e) = res {
            return Err(e);
        }
    }
    track.sort();
    Ok(track)
}

/// What reading subtitles in the format `f` gives: SubRip and WebVTT have
/// readers, the other formats none.
pub open spec fn outcome_in_format(content: Seq<char>, f: SubtitleFormat) -> Outcome<Seq<SubtitleView>> {
    match format_family(f) {
        0 => srt_outcome(content),
        1 => vtt_outcome(content),
        2 => Outcome::Failed(Fault::Unsupported("ASS/SSA"@)),
        3 => Outcome::Failed(Fault::Unsupported("SubViewer"@)),
        _ => Outcome::Failed(Fault::Unsupported("MicroDVD"@)),
    }
}

/// What reading the subtitles `content` gives, in the format `format`, or with
/// none in the format recognised from the content (see `format_of_content`).
pub open spec fn subtitle_outcome(content: Seq<char>, format: Option<SubtitleFormat>) -> Outcome<Seq<SubtitleView>> {
    match format {
        Some(f) => outcome_in_format(content, f),
        None => match format_of_content(content) {
            Some(f) => outcome_in_format(content, f),
            None => Outcome::Failed(Fault::Parse("Could not determine subtitle format from content"@)),
        },
    }
}

/// Whether `r` is what the outcome `o`, which is no refusal, gives.
pub open spec fn read_as(r: Result<SubtitleTrack, SubtitleError>, o: Outcome<Seq<SubtitleView>>) -> bool {
    match o {
        Outcome::Done(s) => r matches Ok(t) && t@ == s,
        Outcome::Failed(f) => r matches Err(e) && error_matches(e, f),
        Outcome::Refused => false,
    }
}

fn settle(r: Result<SubtitleTrack, Option<SubtitleError>>, Ghost(o): Ghost<Outcome<Seq<SubtitleView>>>) -> (res: Result<
    SubtitleTrack,
    SubtitleError,
>)
    requires
        track_result_is(r, o),
        !(o is Refused),
    ensures
        read_as(res, o),
{
    match r {
        Ok(t) => Ok(t),
        Err(Some(e)) => Err(e),
        Err(None) => Err(SubtitleError::UnknownFormat),
    }
}

/// Reads a SubRip file from its text (see `srt_outcome`). The text must not
/// hold a timestamp that the reader refuses.
pub fn parse_srt(content: &str) -> (r: Result<SubtitleTrack, SubtitleError>)
    requires
        !(srt_outcome(content@) is Refused),
    ensures
        read_as(r, srt_outcome(content@)),
{
    settle(read_srt(content), Ghost(srt_outcome(content@)))
}

/// Reads a WebVTT file from its text (see `vtt_outcome`). The text must not hold
/// a timestamp or timing line that the reader refuses.
pub fn parse_vtt(content: &str) -> (r: Result<SubtitleTrack, SubtitleError>)
    requires
        !(vtt_outcome(content@) is Refused),
    ensures
        read_as(r, vtt_outcome(content@)),
{
    settle(read_vtt(content), Ghost(vtt_outcome(content@)))
}

fn read_in_format(content: &str, f: SubtitleFormat) -> (r: Result<SubtitleTrack, Option<SubtitleError>>)
    ensures
        track_result_is(r, outcome_in_format(content@, f)),
{
    match f.family() {
        0 => read_srt(content),
        1 => read_vtt(content),
        2 => Err(Some(SubtitleError::UnsupportedParserFormat("ASS/SSA".to_string()))),
        3 => Err(Some(SubtitleError::UnsupportedParserFormat("SubViewer".to_string()))),
        _ => Err(Some(SubtitleError::UnsupportedParserFormat("MicroDVD".to_string()))),
    }
}

fn read_subtitles(content: &str, format: Option<SubtitleFormat>) -> (r: Result<SubtitleTrack, Option<SubtitleError>>)
    ensures
        track_result_is(r, subtitle_outcome(content@, format)),
{
    match format {
        Some(f) => read_in_format(content, f),
        None => match SubtitleFormat::detect_from_content(content) {
            Ok(f) => read_in_format(content, f),
            Err(_) => Err(
                Some(
                    SubtitleError::ParseError {
                        file: None,
                        reason: "Could not determine subtitle format from content".to_string(),
                    },
                ),
            ),
        },
    }
}

/// Whether reading the subtitles `content` in the format `format` (see
/// `subtitle_outcome`) comes to an end without a refusal.
pub fn subtitle_content_readable(content: &str, format: Option<SubtitleFormat>) -> (b: bool)
    ensures
        b == !(subtitle_outcome(content@, format) is Refused),
{
    match read_subtitles(content, format) {
        Err(None) => false,
        _ => true,
    }
}

/// Reads subtitles from the text of a file, in the format `format`, or with none
/// in the format recognised from the content (see `subtitle_outcome`). The text
/// must not hold a timestamp or timing line that the reader refuses (see
/// `subtitle_content_readable`).
pub fn parse_subtitle_content(content: &str, format: Option<SubtitleFormat>) -> (r: Result<SubtitleTrack, SubtitleError>)
    requires
        !(subtitle_outcome(content@, format) is Refused),
    ensures
        read_as(r, subtitle_outcome(content@, format)),
{
    settle(read_subtitles(content, format), Ghost(subtitle_outcome(content@, format)))
}

} // verus!
