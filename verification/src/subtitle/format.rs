//! Subtitle formats and subtitle timestamps.

use vstd::prelude::*;
use vstd::std_specs::cmp::PartialEqSpecImpl;
use crate::subtitle::error::SubtitleError;
use crate::utility::text::{
    ascii_lower_seq, ascii_lowercase, chars_eq_str, chars_of, contains_seq, count_char, count_chars, decimal,
    decimal_padded, find_seq, is_digit, lemma_padded_digits, lemma_split_on_join, lemma_split_on_single, lines_of, parse_u32, parse_u32_spec, push_chars, push_decimal, push_decimal_padded,
    push_str, split_chars, split_lines, split_on, starts_with, string_from_chars, trim, trim_bounds, trim_start,
};

verus! {

/// Subtitle formats. `Vtt` and `WebVtt` name the same format, and so do `Ass` and
/// `AdvancedSsa`: such pairs compare equal.
#[derive(Debug, Clone, Copy)]
pub enum SubtitleFormat {
    /// SubRip (`.srt`).
    Srt,
    /// WebVTT (`.vtt`).
    Vtt,
    /// WebVTT (`.vtt`), the same format as `Vtt`.
    WebVtt,
    /// Advanced SubStation Alpha (`.ass`, `.ssa`).
    Ass,
    /// Advanced SubStation Alpha, the same format as `Ass`.
    AdvancedSsa,
    /// SubViewer (`.sub`).
    SubViewer,
    /// MicroDVD (`.sub`).
    MicroDVD,
}

/// The format a variant names: 0 SubRip, 1 WebVTT, 2 SubStation Alpha,
/// 3 SubViewer, 4 MicroDVD.
pub open spec fn format_family(f: SubtitleFormat) -> u8 {
    match f {
        SubtitleFormat::Srt => 0,
        SubtitleFormat::Vtt | SubtitleFormat::WebVtt => 1,
        SubtitleFormat::Ass | SubtitleFormat::AdvancedSsa => 2,
        SubtitleFormat::SubViewer => 3,
        SubtitleFormat::MicroDVD => 4,
    }
}

impl SubtitleFormat {
    /// The format the variant names (see `format_family`).
    pub fn family(&self) -> (n: u8)
        ensures
            n == format_family(*self),
    {
        match self {
            SubtitleFormat::Srt => 0,
            SubtitleFormat::Vtt | SubtitleFormat::WebVtt => 1,
            SubtitleFormat::Ass | SubtitleFormat::AdvancedSsa => 2,
            SubtitleFormat::SubViewer => 3,
            SubtitleFormat::MicroDVD => 4,
        }
    }
}

impl PartialEq for SubtitleFormat {
    fn eq(&self, other: &Self) -> (r: bool) {
        self.family() == other.family()
    }
}

impl PartialEqSpecImpl for SubtitleFormat {
    open spec fn obeys_eq_spec() -> bool {
        true
    }

    open spec fn eq_spec(&self, other: &Self) -> bool {
        format_family(*self) == format_family(*other)
    }
}

impl Eq for SubtitleFormat {
}

/// The file extension of a format.
pub open spec fn format_extension(f: SubtitleFormat) -> Seq<char> {
    match format_family(f) {
        0 => "srt"@,
        1 => "vtt"@,
        2 => "ass"@,
        _ => "sub"@,
    }
}

/// The MIME type of a format.
pub open spec fn format_mime(f: SubtitleFormat) -> Seq<char> {
    match format_family(f) {
        0 => "application/x-subrip"@,
        1 => "text/vtt"@,
        2 => "text/x-ssa"@,
        _ => "text/x-sub"@,
    }
}

/// The display name of a format.
pub open spec fn format_name(f: SubtitleFormat) -> Seq<char> {
    match format_family(f) {
        0 => "SubRip"@,
        1 => "WebVTT"@,
        2 => "Advanced SubStation Alpha"@,
        3 => "SubViewer"@,
        _ => "MicroDVD"@,
    }
}

/// Index of the last `c` in `s`, or -1.
pub open spec fn last_char_index(s: Seq<char>, c: char) -> int
    decreases s.len(),
{
    if s.len() == 0 {
        -1
    } else if s.last() == c {
        s.len() - 1
    } else {
        last_char_index(s.drop_last(), c)
    }
}

/// `s` without its trailing `/` characters.
pub open spec fn without_trailing_slashes(s: Seq<char>) -> Seq<char>
    decreases s.len(),
{
    if s.len() > 0 && s.last() == '/' {
        without_trailing_slashes(s.drop_last())
    } else {
        s
    }
}

/// The file name of a path: its last component after trailing slashes are dropped;
/// none when that is empty, `.` or `..`.
pub open spec fn file_name_of(p: Seq<char>) -> Option<Seq<char>> {
    let t = without_trailing_slashes(p);
    let name = t.skip(last_char_index(t, '/') + 1);
    if name.len() == 0 || name == "."@ || name == ".."@ {
        None
    } else {
        Some(name)
    }
}

/// The extension of a path: what follows the last `.` of its file name, unless
/// that dot starts the name.
pub open spec fn path_extension(p: Seq<char>) -> Option<Seq<char>> {
    match file_name_of(p) {
        Some(name) => {
            let k = last_char_index(name, '.');
            if k > 0 {
                Some(name.skip(k + 1))
            } else {
                None
            }
        },
        None => None,
    }
}

/// The format an extension (in any letter case) stands for, if any.
pub open spec fn format_of_extension(ext: Seq<char>) -> Option<SubtitleFormat> {
    let e = ascii_lower_seq(ext);
    if e == "srt"@ {
        Some(SubtitleFormat::Srt)
    } else if e == "vtt"@ {
        Some(SubtitleFormat::WebVtt)
    } else if e == "ass"@ || e == "ssa"@ {
        Some(SubtitleFormat::AdvancedSsa)
    } else if e == "sub"@ {
        Some(SubtitleFormat::SubViewer)
    } else {
        None
    }
}

/// The format whose name (in any letter case) is `s`, if any; each format's display
/// name is among them.
pub open spec fn format_of_name(s: Seq<char>) -> Option<SubtitleFormat> {
    let e = ascii_lower_seq(s);
    if e == "srt"@ || e == "subrip"@ {
        Some(SubtitleFormat::Srt)
    } else if e == "vtt"@ || e == "webvtt"@ {
        Some(SubtitleFormat::WebVtt)
    } else if e == "ass"@ || e == "ssa"@ || e == "advanced substation alpha"@ {
        Some(SubtitleFormat::AdvancedSsa)
    } else if e == "subviewer"@ || e == "sub"@ {
        Some(SubtitleFormat::SubViewer)
    } else if e == "microdvd"@ {
        Some(SubtitleFormat::MicroDVD)
    } else {
        None
    }
}

/// Each format's display name reads back as that format (or the one it compares
/// equal to).
pub proof fn lemma_name_reads_back(f: SubtitleFormat)
    ensures
        format_of_name(format_name(f)) matches Some(g) && format_family(g) == format_family(f),
{
    let n = format_name(f);
    reveal_strlit("srt");
    reveal_strlit("subrip");
    reveal_strlit("vtt");
    reveal_strlit("webvtt");
    reveal_strlit("ass");
    reveal_strlit("ssa");
    reveal_strlit("advanced substation alpha");
    reveal_strlit("subviewer");
    reveal_strlit("sub");
    reveal_strlit("microdvd");
    if format_family(f) == 0 {
        reveal_strlit("SubRip");
        assert(ascii_lower_seq(n) =~= "subrip"@);
        assert(format_of_name(n) == Some(SubtitleFormat::Srt));
    } else if format_family(f) == 1 {
        reveal_strlit("WebVTT");
        assert(ascii_lower_seq(n) =~= "webvtt"@);
        assert("webvtt"@[0] != "subrip"@[0]);
        assert(format_of_name(n) == Some(SubtitleFormat::WebVtt));
    } else if format_family(f) == 2 {
        reveal_strlit("Advanced SubStation Alpha");
        assert(ascii_lower_seq(n) =~= "advanced substation alpha"@);
        assert(format_of_name(n) == Some(SubtitleFormat::AdvancedSsa));
    } else if format_family(f) == 3 {
        reveal_strlit("SubViewer");
        assert(ascii_lower_seq(n) =~= "subviewer"@);
        assert(format_of_name(n) == Some(SubtitleFormat::SubViewer));
        assert("subviewer"@ != "srt"@ && "subviewer"@ != "vtt"@ && "subviewer"@ != "ass"@ && "subviewer"@ != "ssa"@);
    } else {
        reveal_strlit("MicroDVD");
        assert(ascii_lower_seq(n) =~= "microdvd"@);
        assert(format_of_name(n) == Some(SubtitleFormat::MicroDVD));
    }
}

/// The format recognised from the content of a file: a WebVTT or SubStation header
/// after leading white space; a MicroDVD first line (content starting with `{`, two
/// `{` and two `}` on the first line); a SubRip start (of the first four lines at
/// least three, the first a number, the second holding `-->`); otherwise SubViewer
/// when the content holds `[INFORMATION]` or a `:`; otherwise none.
pub open spec fn format_of_content(content: Seq<char>) -> Option<SubtitleFormat> {
    let t = trim_start(content);
    let ls = lines_of(content);
    let first = if ls.len() > 0 { ls[0] } else { Seq::<char>::empty() };
    if starts_with(t, "WEBVTT"@) {
        Some(SubtitleFormat::WebVtt)
    } else if starts_with(t, "[Script Info]"@) {
        Some(SubtitleFormat::AdvancedSsa)
    } else if starts_with(t, "{"@) && count_char(first, '{') >= 2 && count_char(first, '}') >= 2 {
        Some(SubtitleFormat::MicroDVD)
    } else if ls.len() >= 3 && parse_u32_spec(trim(ls[0])) is Some && contains_seq(ls[1], "-->"@) {
        Some(SubtitleFormat::Srt)
    } else if contains_seq(content, "[INFORMATION]"@) || contains_seq(content, ":"@) {
        Some(SubtitleFormat::SubViewer)
    } else {
        None
    }
}

fn last_index_of_char(v: &Vec<char>, to: usize, c: char) -> (r: Option<usize>)
    requires
        to <= v.len(),
    ensures
        match r {
            Some(i) => last_char_index(v@.take(to as int), c) == i && i < to,
            None => last_char_index(v@.take(to as int), c) == -1,
        },
{
    let mut i = to;
    while i > 0
        invariant
            i <= to <= v.len(),
            last_char_index(v@.take(to as int), c) == last_char_index(v@.take(i as int), c),
        decreases i,
    {
        assert(v@.take(i as int).drop_last() == v@.take(i - 1));
        if v[i - 1] == c {
            return Some(i - 1);
        }
        i = i - 1;
    }
    None
}

fn extension_of(path: &str) -> (r: Option<Vec<char>>)
    ensures
        match r {
            Some(e) => path_extension(path@) == Some(e@),
            None => path_extension(path@) is None,
        },
{
    let v = chars_of(path);
    let mut end = v.len();
    assert(v@.take(end as int) == v@);
    while end > 0 && v[end - 1] == '/'
        invariant
            end <= v.len(),
            v@ == path@,
            without_trailing_slashes(v@.take(end as int)) == without_trailing_slashes(path@),
        decreases end,
    {
        assert(v@.take(end as int).drop_last() == v@.take(end - 1));
        end = end - 1;
    }
    let ghost t = v@.take(end as int);
    assert(without_trailing_slashes(t) == t) by {
        if t.len() > 0 {
            assert(t.last() == v@[end - 1]);
        }
    }
    let start = match last_index_of_char(&v, end, '/') {
        Some(i) => i + 1,
        None => 0,
    };
    let ghost name = t.skip(start as int);
    assert(name == v@.subrange(start as int, end as int));
    let mut nv: Vec<char> = Vec::new();
    let mut i = start;
    while i < end
        invariant
            start <= i <= end <= v.len(),
            nv@ == v@.subrange(start as int, i as int),
        decreases end - i,
    {
        nv.push(v[i]);
        assert(v@.subrange(start as int, i + 1) == v@.subrange(start as int, i as int).push(v@[i as int]));
        i = i + 1;
    }
    if nv.len() == 0 || chars_eq_str(&nv, ".") || chars_eq_str(&nv, "..") {
        return None;
    }
    let n = nv.len();
    assert(nv@.take(n as int) == nv@);
    match last_index_of_char(&nv, n, '.') {
        Some(k) => {
            if k > 0 {
                let mut e: Vec<char> = Vec::new();
                let mut j = k + 1;
                while j < n
                    invariant
                        k + 1 <= j <= n,
                        n == nv@.len(),
                        e@ == nv@.subrange(k + 1, j as int),
                    decreases n - j,
                {
                    e.push(nv[j]);
                    assert(nv@.subrange(k + 1, j + 1) == nv@.subrange(k + 1, j as int).push(nv@[j as int]));
                    j = j + 1;
                }
                assert(nv@.skip(k + 1) == nv@.subrange(k + 1, n as int));
                Some(e)
            } else {
                None
            }
        },
        None => None,
    }
}

fn seq_eq_lit(v: &Vec<char>, lit: &str) -> (r: bool)
    ensures
        r == (v@ == lit@),
{
    chars_eq_str(v, lit)
}

impl SubtitleFormat {
    /// The file extension of the format.
    pub fn extension(&self) -> (s: &'static str)
        ensures
            s@ == format_extension(*self),
    {
        match self {
            SubtitleFormat::Srt => "srt",
            SubtitleFormat::Vtt | SubtitleFormat::WebVtt => "vtt",
            SubtitleFormat::Ass | SubtitleFormat::AdvancedSsa => "ass",
            SubtitleFormat::SubViewer => "sub",
            SubtitleFormat::MicroDVD => "sub",
        }
    }

    /// The MIME type of the format.
    pub fn mime_type(&self) -> (s: &'static str)
        ensures
            s@ == format_mime(*self),
    {
        match self {
            SubtitleFormat::Srt => "application/x-subrip",
            SubtitleFormat::Vtt | SubtitleFormat::WebVtt => "text/vtt",
            SubtitleFormat::Ass | SubtitleFormat::AdvancedSsa => "text/x-ssa",
            SubtitleFormat::SubViewer => "text/x-sub",
            SubtitleFormat::MicroDVD => "text/x-sub",
        }
    }

    /// The display name of the format.
    pub fn name(&self) -> (s: &'static str)
        ensures
            s@ == format_name(*self),
    {
        match self {
            SubtitleFormat::Srt => "SubRip",
            SubtitleFormat::Vtt | SubtitleFormat::WebVtt => "WebVTT",
            SubtitleFormat::Ass | SubtitleFormat::AdvancedSsa => "Advanced SubStation Alpha",
            SubtitleFormat::SubViewer => "SubViewer",
            SubtitleFormat::MicroDVD => "MicroDVD",
        }
    }

    /// The format of a subtitle file, from the extension of its path (`.sub`
    /// counts as SubViewer); fails when the extension is missing or not supported.
    pub fn from_extension(path: &str) -> (r: Result<Self, SubtitleError>)
        ensures
            match path_extension(path@) {
                Some(e) => match format_of_extension(e) {
                    Some(f) => r == Ok::<SubtitleFormat, SubtitleError>(f),
                    None => r matches Err(SubtitleError::InvalidSubtitleFormat(_)),
                },
                None => r matches Err(SubtitleError::InvalidSubtitleFormat(_)),
            },
    {
        let ext = extension_of(path);
        let mut msg: Vec<char> = Vec::new();
        push_str(&mut msg, "Unsupported subtitle extension: ");
        match ext {
            Some(e) => {
                let es = string_from_chars(&e);
                let lower = ascii_lowercase(es.as_str());
                if seq_eq_lit(&lower, "srt") {
                    return Ok(SubtitleFormat::Srt);
                }
                if seq_eq_lit(&lower, "vtt") {
                    return Ok(SubtitleFormat::WebVtt);
                }
                if seq_eq_lit(&lower, "ass") || seq_eq_lit(&lower, "ssa") {
                    return Ok(SubtitleFormat::AdvancedSsa);
                }
                if seq_eq_lit(&lower, "sub") {
                    return Ok(SubtitleFormat::SubViewer);
                }
                push_str(&mut msg, "Some(\"");
                push_chars(&mut msg, &lower);
                push_str(&mut msg, "\")");
            },
            None => {
                push_str(&mut msg, "None");
            },
        }
        Err(SubtitleError::InvalidSubtitleFormat(string_from_chars(&msg)))
    }

    /// The format recognised from the content of a subtitle file (see
    /// `format_of_content`); fails when none is recognised.
    pub fn detect_from_content(content: &str) -> (r: Result<Self, SubtitleError>)
        ensures
            match format_of_content(content@) {
                Some(f) => r == Ok::<SubtitleFormat, SubtitleError>(f),
                None => r matches Err(SubtitleError::InvalidSubtitleFormat(m)) && m@
                    == "Could not determine subtitle format from content"@,
            },
    {
        let v = chars_of(content);
        let n = v.len();
        let (a, _b) = trim_bounds(&v, 0, n);
        assert(v@.subrange(0, n as int) == v@);
        let ghost t = trim_start(v@);
        assert(t == v@.subrange(a as int, n as int));
        let webvtt = chars_of("WEBVTT");
        let script = chars_of("[Script Info]");
        let brace = chars_of("{");
        if starts_at(&v, a, &webvtt) {
            return Ok(SubtitleFormat::WebVtt);
        }
        if starts_at(&v, a, &script) {
            return Ok(SubtitleFormat::AdvancedSsa);
        }
        let lines = split_lines(&v);
        if starts_at(&v, a, &brace) {
            let empty: Vec<char> = Vec::new();
            let first = if lines.len() > 0 { &lines[0] } else { &empty };
            if count_chars(first, '{') >= 2 && count_chars(first, '}') >= 2 {
                return Ok(SubtitleFormat::MicroDVD);
            }
        }
        if lines.len() >= 3 {
            let l0 = &lines[0];
            let (s0, e0) = trim_bounds(l0, 0, l0.len());
            assert(l0@.subrange(0, l0@.len() as int) == l0@);
            if parse_u32(l0, s0, e0).is_some() {
                let l1 = &lines[1];
                let arrow = chars_of("-->");
                assert(l1@.subrange(0, l1@.len() as int) == l1@);
                if find_seq(l1, 0, l1.len(), &arrow).is_some() {
                    return Ok(SubtitleFormat::Srt);
                }
            }
        }
        let info = chars_of("[INFORMATION]");
        let colon = chars_of(":");
        if find_seq(&v, 0, n, &info).is_some() || find_seq(&v, 0, n, &colon).is_some() {
            return Ok(SubtitleFormat::SubViewer);
        }
        let mut msg: Vec<char> = Vec::new();
        push_str(&mut msg, "Could not determine subtitle format from content");
        Err(SubtitleError::InvalidSubtitleFormat(string_from_chars(&msg)))
    }

    /// Whether subtitle files with the extension `extension` (in any letter case) are
    /// supported: `srt`, `vtt`, `ass`, `ssa` and `sub` are.
    pub fn is_supported_extension(extension: &str) -> (b: bool)
        ensures
            b == (format_of_extension(extension@) is Some),
    {
        let lower = ascii_lowercase(extension);
        seq_eq_lit(&lower, "srt") || seq_eq_lit(&lower, "vtt") || seq_eq_lit(&lower, "ass") || seq_eq_lit(
            &lower,
            "ssa",
        ) || seq_eq_lit(&lower, "sub")
    }

    /// The format with the name `s` (in any letter case; see `format_of_name`).
    pub fn parse_name(s: &str) -> (r: Result<Self, SubtitleError>)
        ensures
            match format_of_name(s@) {
                Some(f) => r == Ok::<SubtitleFormat, SubtitleError>(f),
                None => r matches Err(SubtitleError::InvalidSubtitleFormat(m)) && m@ == "Unsupported subtitle format: "@
                    + s@,
            },
    {
        let lower = ascii_lowercase(s);
        if seq_eq_lit(&lower, "srt") || seq_eq_lit(&lower, "subrip") {
            return Ok(SubtitleFormat::Srt);
        }
        if seq_eq_lit(&lower, "vtt") || seq_eq_lit(&lower, "webvtt") {
            return Ok(SubtitleFormat::WebVtt);
        }
        if seq_eq_lit(&lower, "ass") || seq_eq_lit(&lower, "ssa") || seq_eq_lit(&lower, "advanced substation alpha") {
            return Ok(SubtitleFormat::AdvancedSsa);
        }
        if seq_eq_lit(&lower, "subviewer") || seq_eq_lit(&lower, "sub") {
            return Ok(SubtitleFormat::SubViewer);
        }
        if seq_eq_lit(&lower, "microdvd") {
            return Ok(SubtitleFormat::MicroDVD);
        }
        let mut msg: Vec<char> = Vec::new();
        push_str(&mut msg, "Unsupported subtitle format: ");
        push_str(&mut msg, s);
        Err(SubtitleError::InvalidSubtitleFormat(string_from_chars(&msg)))
    }
}

/// Whether `p` occurs in `v` at index `at`.
fn starts_at(v: &Vec<char>, at: usize, p: &Vec<char>) -> (b: bool)
    requires
        at <= v.len(),
    ensures
        b == starts_with(v@.subrange(at as int, v@.len() as int), p@),
{
    let n = v.len();
    if p.len() > n - at {
        return false;
    }
    let mut k: usize = 0;
    while k < p.len()
        invariant
            0 <= k <= p.len(),
            at + p.len() <= n,
            n == v.len(),
            forall|j: int| 0 <= j < k ==> v@[at + j] == p@[j],
        decreases p.len() - k,
    {
        if v[at + k] != p[k] {
            assert(v@.subrange(at as int, n as int).take(p.len() as int)[k as int] != p@[k as int]);
            return false;
        }
        k = k + 1;
    }
    assert(v@.subrange(at as int, n as int).take(p.len() as int) =~= p@);
    true
}

/// A timestamp of a subtitle: hours, minutes, seconds and milliseconds.
#[derive(Debug, Clone, Copy, PartialEq, Eq, Structural, PartialOrd, Ord, Hash)]
pub struct TimePosition {
    pub hours: u32,
    pub minutes: u32,
    pub seconds: u32,
    pub milliseconds: u32,
}

/// The timestamp `hh:mm:ss<sep>mmm`, each part zero-padded.
pub open spec fn timestamp_text(t: TimePosition, sep: char) -> Seq<char> {
    decimal_padded(t.hours as nat, 2) + seq![':'] + decimal_padded(t.minutes as nat, 2) + seq![':']
        + decimal_padded(t.seconds as nat, 2) + seq![sep] + decimal_padded(t.milliseconds as nat, 3)
}

/// The milliseconds from the start to the timestamp `t`.
pub open spec fn timestamp_millis(t: TimePosition) -> nat {
    t.hours as nat * 3_600_000 + t.minutes as nat * 60_000 + t.seconds as nat * 1000 + t.milliseconds as nat
}

/// The timestamp `ms` milliseconds from the start.
pub open spec fn time_at(ms: nat) -> TimePosition {
    TimePosition {
        hours: (ms / 3_600_000) as u32,
        minutes: ((ms / 60_000) % 60) as u32,
        seconds: ((ms / 1000) % 60) as u32,
        milliseconds: (ms % 1000) as u32,
    }
}

/// What reading the timestamp `s` with the separator `sep` before the milliseconds
/// gives: the hours, minutes, seconds and milliseconds, or the error message.
pub open spec fn parse_timestamp(s: Seq<char>, sep: char) -> Result<(u32, u32, u32, u32), Seq<char>> {
    let parts = split_on(s, sep);
    let tp = split_on(parts[0], ':');
    if parts.len() != 2 || tp.len() != 3 {
        Err("Invalid time format: "@ + s)
    } else if parse_u32_spec(tp[0]) is None {
        Err("Invalid hours in time: "@ + tp[0])
    } else if parse_u32_spec(tp[1]) is None {
        Err("Invalid minutes in time: "@ + tp[1])
    } else if parse_u32_spec(tp[2]) is None {
        Err("Invalid seconds in time: "@ + tp[2])
    } else if parse_u32_spec(parts[1]) is None {
        Err("Invalid milliseconds in time: "@ + parts[1])
    } else {
        let h = parse_u32_spec(tp[0]).unwrap();
        let m = parse_u32_spec(tp[1]).unwrap();
        let sec = parse_u32_spec(tp[2]).unwrap();
        let ms = parse_u32_spec(parts[1]).unwrap();
        if h >= 24 {
            Err("Hours out of range (0-23): "@ + decimal(h as nat))
        } else if m >= 60 {
            Err("Minutes out of range (0-59): "@ + decimal(m as nat))
        } else if sec >= 60 {
            Err("Seconds out of range (0-59): "@ + decimal(sec as nat))
        } else if ms >= 1000 {
            Err("Milliseconds out of range (0-999): "@ + decimal(ms as nat))
        } else {
            Ok((h, m, sec, ms))
        }
    }
}

/// Whether `r` is what reading the timestamp `s` with separator `sep` gives.
pub open spec fn parsed_as(r: Result<TimePosition, SubtitleError>, s: Seq<char>, sep: char) -> bool {
    match parse_timestamp(s, sep) {
        Ok((h, m, sec, ms)) => r == Ok::<TimePosition, SubtitleError>(
            TimePosition { hours: h, minutes: m, seconds: sec, milliseconds: ms },
        ),
        Err(msg) => r matches Err(SubtitleError::TimingError(e)) && e@ == msg,
    }
}

/// A text of digits holds no character that is not a digit.
proof fn lemma_digits_lack(d: Seq<char>, c: char)
    requires
        forall|i: int| 0 <= i < d.len() ==> is_digit(#[trigger] d[i]),
        !is_digit(c),
    ensures
        !d.contains(c),
{
    if d.contains(c) {
        let i = choose|i: int| 0 <= i < d.len() && d[i] == c;
        assert(is_digit(d[i]));
    }
}

/// A zero-padded part of a timestamp reads back as its value.
proof fn lemma_part_reads_back(v: u32, w: nat, sep: char)
    requires
        !is_digit(sep),
    ensures
        parse_u32_spec(decimal_padded(v as nat, w)) == Some(v),
        !decimal_padded(v as nat, w).contains(sep),
        !decimal_padded(v as nat, w).contains(':'),
{
    let d = decimal_padded(v as nat, w);
    lemma_padded_digits(v as nat, w);
    assert(is_digit(d[0]));
    lemma_digits_lack(d, sep);
    lemma_digits_lack(d, ':');
}

/// A timestamp written with `timestamp_text` reads back, with the same separator, as the
/// hours, minutes, seconds and milliseconds it was written from, whenever they are in
/// range and the separator is neither `:` nor a digit.
pub proof fn lemma_timestamp_round_trip(t: TimePosition, sep: char)
    requires
        t.hours < 24,
        t.minutes < 60,
        t.seconds < 60,
        t.milliseconds < 1000,
        sep != ':',
        !is_digit(sep),
    ensures
        parse_timestamp(timestamp_text(t, sep), sep) == Ok::<(u32, u32, u32, u32), Seq<char>>(
            (t.hours, t.minutes, t.seconds, t.milliseconds),
        ),
{
    let h = decimal_padded(t.hours as nat, 2);
    let m = decimal_padded(t.minutes as nat, 2);
    let sc = decimal_padded(t.seconds as nat, 2);
    let ms = decimal_padded(t.milliseconds as nat, 3);
    lemma_part_reads_back(t.hours, 2, sep);
    lemma_part_reads_back(t.minutes, 2, sep);
    lemma_part_reads_back(t.seconds, 2, sep);
    lemma_part_reads_back(t.milliseconds, 3, sep);
    let hm = h + seq![':'] + m;
    let x = hm + seq![':'] + sc;
    assert(!x.contains(sep)) by {
        if x.contains(sep) {
            let i = choose|i: int| 0 <= i < x.len() && x[i] == sep;
            if i < h.len() {
                assert(x[i] == h[i]);
            } else if i == h.len() {
            } else if i < h.len() + 1 + m.len() {
                assert(x[i] == m[i - h.len() - 1]);
            } else if i == h.len() + 1 + m.len() {
            } else {
                assert(x[i] == sc[i - h.len() - 2 - m.len()]);
            }
        }
    }
    lemma_split_on_single(x, sep);
    lemma_split_on_join(x, ms, sep);
    lemma_split_on_single(h, ':');
    lemma_split_on_join(h, m, ':');
    lemma_split_on_join(hm, sc, ':');
    let parts = split_on(timestamp_text(t, sep), sep);
    assert(parts =~= seq![x, ms]);
    let tp = split_on(parts[0], ':');
    assert(tp =~= seq![h, m, sc]);
}

/// A timestamp with minutes and seconds below 60 and milliseconds below 1000 is the
/// one that lies its own milliseconds from the start (`from_millis` of `total_millis`).
pub proof fn lemma_millis_round_trip(t: TimePosition)
    requires
        t.minutes < 60,
        t.seconds < 60,
        t.milliseconds < 1000,
    ensures
        time_at(timestamp_millis(t)) == t,
{
    let h = t.hours as int;
    let m = t.minutes as int;
    let s = t.seconds as int;
    let ms = t.milliseconds as int;
    let total = timestamp_millis(t) as int;
    assert(total == ((h * 60 + m) * 60 + s) * 1000 + ms) by (nonlinear_arith)
        requires
            total == h * 3_600_000 + m * 60_000 + s * 1000 + ms,
    ;
    assert(total % 1000 == ms && total / 1000 == (h * 60 + m) * 60 + s) by (nonlinear_arith)
        requires
            total == ((h * 60 + m) * 60 + s) * 1000 + ms,
            0 <= ms < 1000,
            h >= 0,
            0 <= m,
            0 <= s,
    ;
    let sec = (h * 60 + m) * 60 + s;
    assert(sec % 60 == s && sec / 60 == h * 60 + m) by (nonlinear_arith)
        requires
            sec == (h * 60 + m) * 60 + s,
            0 <= s < 60,
            h >= 0,
            m >= 0,
    ;
    let mn = h * 60 + m;
    assert(mn % 60 == m && mn / 60 == h) by (nonlinear_arith)
        requires
            mn == h * 60 + m,
            0 <= m < 60,
            h >= 0,
    ;
    assert(total / 60_000 == mn && total / 3_600_000 == h) by (nonlinear_arith)
        requires
            total == (mn * 60 + s) * 1000 + ms,
            mn == h * 60 + m,
            0 <= ms < 1000,
            0 <= s < 60,
            0 <= m < 60,
            h >= 0,
    ;
}

/// The last `c` of `p + e` is that of `p` when `e` holds no `c`.
proof fn lemma_last_char_index_append(p: Seq<char>, e: Seq<char>, c: char)
    requires
        !e.contains(c),
    ensures
        last_char_index(p + e, c) == last_char_index(p, c),
    decreases e.len(),
{
    if e.len() > 0 {
        assert((p + e).drop_last() =~= p + e.drop_last());
        assert((p + e).last() == e[e.len() - 1]);
        assert(!e.drop_last().contains(c)) by {
            if e.drop_last().contains(c) {
                let i = choose|i: int| 0 <= i < e.drop_last().len() && e.drop_last()[i] == c;
                assert(e[i] == c);
            }
        }
        lemma_last_char_index_append(p, e.drop_last(), c);
    } else {
        assert(p + e =~= p);
    }
}

/// A bare extension `e` (without `.` or `/`) is the extension of the file `f.e`, so
/// `is_supported_extension(e)` holds exactly when `from_extension` recognises `f.e`.
pub proof fn lemma_bare_extension(e: Seq<char>)
    requires
        !e.contains('.'),
        !e.contains('/'),
    ensures
        path_extension(seq!['f', '.'] + e) == Some(e),
        (format_of_extension(e) is Some) == (path_extension(seq!['f', '.'] + e) matches Some(x) && format_of_extension(
            x,
        ) is Some),
{
    let p = seq!['f', '.'];
    let t = p + e;
    assert(t.len() > 0 && t.last() != '/') by {
        if e.len() > 0 {
            assert(t.last() == e[e.len() - 1]);
        } else {
            assert(t =~= p);
        }
    }
    assert(without_trailing_slashes(t) == t);
    lemma_last_char_index_append(p, e, '/');
    assert(last_char_index(p, '/') == -1) by {
        assert(p.drop_last() =~= seq!['f']);
        assert(p.drop_last().drop_last() =~= Seq::<char>::empty());
        assert(last_char_index(p.drop_last().drop_last(), '/') == -1);
        assert(last_char_index(p.drop_last(), '/') == -1);
    }
    assert(t.skip(0) =~= t);
    reveal_strlit(".");
    reveal_strlit("..");
    assert(t != "."@ && t != ".."@) by {
        assert(t[0] == 'f');
    }
    lemma_last_char_index_append(p, e, '.');
    assert(last_char_index(p, '.') == 1);
    assert(t.skip(2) =~= e);
}

fn push_part(out: &mut Vec<char>, v: &Vec<char>)
    ensures
        final(out)@ == old(out)@ + v@,
{
    push_chars(out, v)
}

fn timing_failure(prefix: &str, v: &Vec<char>) -> (r: Result<TimePosition, SubtitleError>)
    ensures
        r matches Err(SubtitleError::TimingError(e)) && e@ == prefix@ + v@,
{
    let mut msg: Vec<char> = Vec::new();
    push_str(&mut msg, prefix);
    push_part(&mut msg, v);
    Err(SubtitleError::TimingError(string_from_chars(&msg)))
}

fn range_failure(prefix: &str, n: u32) -> (r: Result<TimePosition, SubtitleError>)
    ensures
        r matches Err(SubtitleError::TimingError(e)) && e@ == prefix@ + decimal(n as nat),
{
    let mut msg: Vec<char> = Vec::new();
    push_str(&mut msg, prefix);
    push_decimal(&mut msg, n as u64);
    Err(SubtitleError::TimingError(string_from_chars(&msg)))
}

impl TimePosition {
    /// The timestamp with the given parts, each within its range.
    pub fn new(hours: u32, minutes: u32, seconds: u32, milliseconds: u32) -> (t: Self)
        requires
            hours < 24,
            minutes < 60,
            seconds < 60,
            milliseconds < 1000,
        ensures
            t == (TimePosition { hours, minutes, seconds, milliseconds }),
    {
        TimePosition { hours, minutes, seconds, milliseconds }
    }

    /// The timestamp `total_millis` milliseconds from the start.
    pub fn from_millis(total_millis: u32) -> (t: Self)
        ensures
            t.milliseconds == total_millis % 1000,
            t.seconds == (total_millis / 1000) % 60,
            t.minutes == (total_millis / 60_000) % 60,
            t.hours == total_millis / 3_600_000,
            timestamp_millis(t) == total_millis,
            t == time_at(total_millis as nat),
    {
        let milliseconds = total_millis % 1000;
        let total_seconds = total_millis / 1000;
        let seconds = total_seconds % 60;
        let total_minutes = total_seconds / 60;
        let minutes = total_minutes % 60;
        let hours = total_minutes / 60;
        assert(total_minutes == total_millis / 60_000) by (nonlinear_arith)
            requires
                total_seconds == total_millis / 1000,
                total_minutes == total_seconds / 60,
        ;
        assert(hours == total_millis / 3_600_000) by (nonlinear_arith)
            requires
                total_minutes == total_millis / 60_000,
                hours == total_minutes / 60,
        ;
        assert(hours as nat * 3_600_000 + minutes as nat * 60_000 + seconds as nat * 1000 + milliseconds as nat
            == total_millis) by (nonlinear_arith)
            requires
                milliseconds == total_millis % 1000,
                total_seconds == total_millis / 1000,
                seconds == total_seconds % 60,
                total_minutes == total_seconds / 60,
                minutes == total_minutes % 60,
                hours == total_minutes / 60,
        ;
        TimePosition { hours, minutes, seconds, milliseconds }
    }

    /// The milliseconds from the start to the timestamp.
    pub fn total_millis(&self) -> (ms: u64)
        ensures
            ms == timestamp_millis(*self),
    {
        self.hours as u64 * 3_600_000 + self.minutes as u64 * 60_000 + self.seconds as u64 * 1000
            + self.milliseconds as u64
    }

    /// The SubRip notation `hh:mm:ss,mmm`.
    pub fn to_srt_format(&self) -> (s: String)
        ensures
            s@ == timestamp_text(*self, ','),
    {
        self.format_with(',')
    }

    /// The WebVTT notation `hh:mm:ss.mmm`.
    pub fn to_vtt_format(&self) -> (s: String)
        ensures
            s@ == timestamp_text(*self, '.'),
    {
        self.format_with('.')
    }

    /// The SubRip notation `hh:mm:ss,mmm`.
    pub fn to_srt_string(&self) -> (s: String)
        ensures
            s@ == timestamp_text(*self, ','),
    {
        self.format_with(',')
    }

    /// The WebVTT notation `hh:mm:ss.mmm`.
    pub fn to_vtt_string(&self) -> (s: String)
        ensures
            s@ == timestamp_text(*self, '.'),
    {
        self.format_with('.')
    }

    fn format_with(&self, sep: char) -> (s: String)
        ensures
            s@ == timestamp_text(*self, sep),
    {
        let mut out: Vec<char> = Vec::new();
        push_decimal_padded(&mut out, self.hours as u64, 2);
        out.push(':');
        push_decimal_padded(&mut out, self.minutes as u64, 2);
        out.push(':');
        push_decimal_padded(&mut out, self.seconds as u64, 2);
        out.push(sep);
        push_decimal_padded(&mut out, self.milliseconds as u64, 3);
        string_from_chars(&out)
    }

    /// Reads a SubRip timestamp `hh:mm:ss,mmm` (see `parse_timestamp`).
    pub fn parse_srt(time_str: &str) -> (r: Result<Self, SubtitleError>)
        ensures
            parsed_as(r, time_str@, ','),
    {
        Self::parse_time(time_str, ',')
    }

    /// Reads a WebVTT timestamp `hh:mm:ss.mmm` (see `parse_timestamp`).
    pub fn parse_vtt(time_str: &str) -> (r: Result<Self, SubtitleError>)
        ensures
            parsed_as(r, time_str@, '.'),
    {
        Self::parse_time(time_str, '.')
    }

    /// Reads a SubRip timestamp.
    pub fn from_srt_string(s: &str) -> (r: Result<Self, SubtitleError>)
        ensures
            parsed_as(r, s@, ','),
    {
        Self::parse_srt(s)
    }

    /// Reads a WebVTT timestamp.
    pub fn from_vtt_string(s: &str) -> (r: Result<Self, SubtitleError>)
        ensures
            parsed_as(r, s@, '.'),
    {
        Self::parse_vtt(s)
    }

    /// Reads a timestamp in either notation: SubRip when it holds a `,`, otherwise
    /// WebVTT when it holds a `.`.
    pub fn parse(s: &str) -> (r: Result<Self, SubtitleError>)
        ensures
            s@.contains(',') ==> parsed_as(r, s@, ','),
            !s@.contains(',') && s@.contains('.') ==> parsed_as(r, s@, '.'),
            !s@.contains(',') && !s@.contains('.') ==> (r matches Err(SubtitleError::TimingError(e)) && e@
                == "Unrecognized time format: "@ + s@),
    {
        let v = chars_of(s);
        let mut has_comma = false;
        let mut has_dot = false;
        let mut i: usize = 0;
        while i < v.len()
            invariant
                0 <= i <= v.len(),
                v@ == s@,
                has_comma == exists|j: int| 0 <= j < i && v@[j] == ',',
                has_dot == exists|j: int| 0 <= j < i && v@[j] == '.',
            decreases v.len() - i,
        {
            if v[i] == ',' {
                has_comma = true;
            }
            if v[i] == '.' {
                has_dot = true;
            }
            i = i + 1;
        }
        if has_comma {
            return Self::parse_srt(s);
        }
        if has_dot {
            return Self::parse_vtt(s);
        }
        let mut msg: Vec<char> = Vec::new();
        push_str(&mut msg, "Unrecognized time format: ");
        push_str(&mut msg, s);
        Err(SubtitleError::TimingError(string_from_chars(&msg)))
    }

    fn parse_time(time_str: &str, separator: char) -> (r: Result<Self, SubtitleError>)
        ensures
            parsed_as(r, time_str@, separator),
    {
        let v = chars_of(time_str);
        let n = v.len();
        assert(v@.subrange(0, n as int) == v@);
        let parts = split_chars(&v, 0, n, separator);
        proof {
            crate::utility::text::lemma_split_on_nonempty(v@, separator);
        }
        let p0 = &parts[0];
        let tp = split_chars(p0, 0, p0.len(), ':');
        assert(p0@.subrange(0, p0@.len() as int) == p0@);
        if parts.len() != 2 || tp.len() != 3 {
            let mut msg: Vec<char> = Vec::new();
            push_str(&mut msg, "Invalid time format: ");
            push_str(&mut msg, time_str);
            return Err(SubtitleError::TimingError(string_from_chars(&msg)));
        }
        let p1 = &parts[1];
        let t0 = &tp[0];
        let t1 = &tp[1];
        let t2 = &tp[2];
        assert(t0@.subrange(0, t0@.len() as int) == t0@);
        assert(t1@.subrange(0, t1@.len() as int) == t1@);
        assert(t2@.subrange(0, t2@.len() as int) == t2@);
        assert(p1@.subrange(0, p1@.len() as int) == p1@);
        let hours = match parse_u32(t0, 0, t0.len()) {
            Some(h) => h,
            None => return timing_failure("Invalid hours in time: ", t0),
        };
        let minutes = match parse_u32(t1, 0, t1.len()) {
            Some(m) => m,
            None => return timing_failure("Invalid minutes in time: ", t1),
        };
        let seconds = match parse_u32(t2, 0, t2.len()) {
            Some(x) => x,
            None => return timing_failure("Invalid seconds in time: ", t2),
        };
        let milliseconds = match parse_u32(p1, 0, p1.len()) {
            Some(x) => x,
            None => return timing_failure("Invalid milliseconds in time: ", p1),
        };
        if hours >= 24 {
            return range_failure("Hours out of range (0-23): ", hours);
        }
        if minutes >= 60 {
            return range_failure("Minutes out of range (0-59): ", minutes);
        }
        if seconds >= 60 {
            return range_failure("Seconds out of range (0-59): ", seconds);
        }
        if milliseconds >= 1000 {
            return range_failure("Milliseconds out of range (0-999): ", milliseconds);
        }
        Ok(TimePosition { hours, minutes, seconds, milliseconds })
    }
}

} // verus!
