//! Time values for video editing: durations and positions on a timeline.
//!
//! Both are kept in whole milliseconds, which is the precision of every
//! subtitle format the library reads and writes. Arithmetic saturates instead
//! of going below zero or past the largest representable value.

use vstd::prelude::*;
use crate::utility::text::{
    decimal, decimal_padded, push_decimal, push_decimal_padded, string_from_chars,
};

verus! {

/// The millisecond count of `a + b`, saturating at the largest `u64`.
pub open spec fn saturating_sum(a: nat, b: nat) -> nat {
    if a + b <= u64::MAX { a + b } else { u64::MAX as nat }
}

/// The millisecond count of `a - b`, saturating at zero.
pub open spec fn saturating_diff(a: nat, b: nat) -> nat {
    if a >= b { (a - b) as nat } else { 0 }
}

/// The number of whole frames in `ms` milliseconds at `fps` frames per second,
/// saturating at the largest `u64`.
pub open spec fn whole_frames(ms: nat, fps: nat) -> nat {
    let f = ms * fps / 1000;
    if f <= u64::MAX { f } else { u64::MAX as nat }
}

/// The timecode `HH:MM:SS:FF` of a time value of `ms` milliseconds at `fps` frames per second.
pub open spec fn timecode(ms: nat, fps: nat) -> Seq<char> {
    let total = ms / 1000;
    decimal_padded(total / 3600, 2) + seq![':'] + decimal_padded((total % 3600) / 60, 2) + seq![':']
        + decimal_padded(total % 60, 2) + seq![':'] + decimal_padded(whole_frames(ms, fps) % fps, 2)
}

/// The text of a time value of `ms` milliseconds in seconds with three decimals
/// and the unit: `12.345s`.
pub open spec fn seconds_text(ms: nat) -> Seq<char> {
    decimal(ms / 1000) + seq!['.'] + decimal_padded(ms % 1000, 3) + seq!['s']
}

fn seconds_text_of(ms: u64) -> (s: String)
    ensures
        s@ == seconds_text(ms as nat),
{
    let mut out: Vec<char> = Vec::new();
    push_decimal(&mut out, ms / 1000);
    out.push('.');
    push_decimal_padded(&mut out, ms % 1000, 3);
    out.push('s');
    string_from_chars(&out)
}

/// The duration of `ms` milliseconds, for `ms` up to the largest `u64`.
pub closed spec fn duration_ms(ms: nat) -> Duration {
    Duration { millis: ms as u64 }
}

/// The position `ms` milliseconds from the start, for `ms` up to the largest `u64`.
pub closed spec fn position_ms(ms: nat) -> TimePosition {
    TimePosition { millis: ms as u64 }
}

/// `duration_ms` and `position_ms` give back the milliseconds they are made of,
/// and every value is made that way.
pub proof fn lemma_ms_values(ms: nat)
    requires
        ms <= u64::MAX,
    ensures
        duration_ms(ms)@ == ms,
        position_ms(ms)@ == ms,
        forall|d: Duration| #[trigger] duration_ms(d@) == d,
        forall|t: TimePosition| #[trigger] position_ms(t@) == t,
{
}

/// Durations and positions fit in a `u64` of milliseconds.
pub proof fn lemma_view_bounds(d: Duration, t: TimePosition)
    ensures
        d@ <= u64::MAX,
        t@ <= u64::MAX,
{
}

fn frames_of(ms: u64, fps: u64) -> (f: u64)
    ensures
        f == whole_frames(ms as nat, fps as nat),
{
    let a = ms as u128;
    let b = fps as u128;
    assert(a * b <= 0xffff_ffff_ffff_ffffu128 * 0xffff_ffff_ffff_ffffu128) by (nonlinear_arith)
        requires
            a <= 0xffff_ffff_ffff_ffffu128,
            b <= 0xffff_ffff_ffff_ffffu128,
    ;
    let p: u128 = a * b;
    let q: u128 = p / 1000;
    if q > 18446744073709551615u128 {
        u64::MAX
    } else {
        q as u64
    }
}

fn timecode_of(ms: u64, fps: u64) -> (s: String)
    requires
        fps > 0,
    ensures
        s@ == timecode(ms as nat, fps as nat),
{
    let total = ms / 1000;
    let mut out: Vec<char> = Vec::new();
    push_decimal_padded(&mut out, total / 3600, 2);
    out.push(':');
    push_decimal_padded(&mut out, (total % 3600) / 60, 2);
    out.push(':');
    push_decimal_padded(&mut out, total % 60, 2);
    out.push(':');
    let frames = frames_of(ms, fps) % fps;
    push_decimal_padded(&mut out, frames, 2);
    string_from_chars(&out)
}

/// A span of time, in milliseconds.
#[derive(Debug, Clone, Copy, PartialEq, Eq, Structural, PartialOrd, Ord, Hash)]
pub struct Duration {
    millis: u64,
}

impl View for Duration {
    type V = nat;

    /// The duration in milliseconds.
    closed spec fn view(&self) -> nat {
        self.millis as nat
    }
}

impl Duration {
    /// Two durations of the same length are equal.
    pub proof fn lemma_view_eq(a: Duration, b: Duration)
        requires
            a@ == b@,
        ensures
            a == b,
    {
    }

    /// Creates a duration of `ms` milliseconds.
    pub fn from_millis(ms: u64) -> (d: Self)
        ensures
            d@ == ms,
    {
        Duration { millis: ms }
    }

    /// Creates a duration of `seconds` whole seconds.
    pub fn from_seconds(seconds: u64) -> (d: Self)
        requires
            seconds * 1000 <= u64::MAX,
        ensures
            d@ == seconds * 1000,
    {
        Duration { millis: seconds * 1000 }
    }

    /// Creates the duration of `frames` frames at `fps` frames per second,
    /// rounded down to a whole millisecond.
    pub fn from_frames(frames: u64, fps: u64) -> (d: Self)
        requires
            fps > 0,
            frames * 1000 <= u64::MAX,
        ensures
            d@ == (frames * 1000) as nat / (fps as nat),
    {
        Duration { millis: frames * 1000 / fps }
    }

    /// Creates a zero duration.
    pub fn zero() -> (d: Self)
        ensures
            d@ == 0,
    {
        Duration { millis: 0 }
    }

    /// The duration in milliseconds.
    pub fn as_millis(&self) -> (ms: u64)
        ensures
            ms == self@,
    {
        self.millis
    }

    /// The number of whole seconds in the duration.
    pub fn as_seconds(&self) -> (s: u64)
        ensures
            s == self@ / 1000,
    {
        self.millis / 1000
    }

    /// The whole number of frames at `fps` frames per second.
    pub fn frames(&self, fps: u64) -> (f: u64)
        ensures
            f == whole_frames(self@, fps as nat),
    {
        frames_of(self.millis, fps)
    }

    /// The timecode `HH:MM:SS:FF` of the duration at `fps` frames per second.
    pub fn to_timecode(&self, fps: u64) -> (s: String)
        requires
            fps > 0,
        ensures
            s@ == timecode(self@, fps as nat),
    {
        timecode_of(self.millis, fps)
    }

    /// The duration in seconds with three decimals and the unit, as in `1.500s`.
    pub fn to_string(&self) -> (s: String)
        ensures
            s@ == seconds_text(self@),
    {
        seconds_text_of(self.millis)
    }
}

impl Default for Duration {
    fn default() -> (d: Self)
        ensures
            d@ == 0,
    {
        Duration { millis: 0 }
    }
}

impl vstd::std_specs::ops::AddSpecImpl for Duration {
    open spec fn obeys_add_spec() -> bool {
        true
    }

    open spec fn add_req(self, rhs: Self) -> bool {
        true
    }

    closed spec fn add_spec(self, rhs: Self) -> Self {
        Duration { millis: saturating_sum(self@, rhs@) as u64 }
    }
}

impl core::ops::Add for Duration {
    type Output = Self;

    /// Adds two durations, saturating at the largest representable value.
    fn add(self, other: Self) -> (d: Self)
        ensures
            d@ == saturating_sum(self@, other@),
    {
        Duration { millis: self.millis.saturating_add(other.millis) }
    }
}

impl vstd::std_specs::ops::SubSpecImpl for Duration {
    open spec fn obeys_sub_spec() -> bool {
        true
    }

    open spec fn sub_req(self, rhs: Self) -> bool {
        true
    }

    closed spec fn sub_spec(self, rhs: Self) -> Self {
        Duration { millis: saturating_diff(self@, rhs@) as u64 }
    }
}

impl core::ops::Sub for Duration {
    type Output = Self;

    /// Subtracts two durations; the difference never goes below zero.
    fn sub(self, other: Self) -> (d: Self)
        ensures
            d@ == saturating_diff(self@, other@),
    {
        Duration { millis: self.millis.saturating_sub(other.millis) }
    }
}

/// A position on a timeline, in milliseconds from its start.
#[derive(Debug, Clone, Copy, PartialEq, Eq, Structural, PartialOrd, Ord, Hash)]
pub struct TimePosition {
    millis: u64,
}

impl View for TimePosition {
    type V = nat;

    /// The position in milliseconds.
    closed spec fn view(&self) -> nat {
        self.millis as nat
    }
}

impl TimePosition {
    /// Two positions at the same time are equal.
    pub proof fn lemma_view_eq(a: TimePosition, b: TimePosition)
        requires
            a@ == b@,
        ensures
            a == b,
    {
    }

    /// Creates the position `ms` milliseconds from the start.
    pub fn from_millis(ms: u64) -> (t: Self)
        ensures
            t@ == ms,
    {
        TimePosition { millis: ms }
    }

    /// Creates the position `seconds` whole seconds from the start.
    pub fn from_seconds(seconds: u64) -> (t: Self)
        requires
            seconds * 1000 <= u64::MAX,
        ensures
            t@ == seconds * 1000,
    {
        TimePosition { millis: seconds * 1000 }
    }

    /// Creates the position of frame `frames` at `fps` frames per second,
    /// rounded down to a whole millisecond.
    pub fn from_frames(frames: u64, fps: u64) -> (t: Self)
        requires
            fps > 0,
            frames * 1000 <= u64::MAX,
        ensures
            t@ == (frames * 1000) as nat / (fps as nat),
    {
        TimePosition { millis: frames * 1000 / fps }
    }

    /// The start of the timeline.
    pub fn zero() -> (t: Self)
        ensures
            t@ == 0,
    {
        TimePosition { millis: 0 }
    }

    /// The position in milliseconds.
    pub fn as_millis(&self) -> (ms: u64)
        ensures
            ms == self@,
    {
        self.millis
    }

    /// The number of whole seconds from the start.
    pub fn as_seconds(&self) -> (s: u64)
        ensures
            s == self@ / 1000,
    {
        self.millis / 1000
    }

    /// The span from the start of the timeline to this position.
    pub fn to_duration(&self) -> (d: Duration)
        ensures
            d@ == self@,
    {
        Duration::from_millis(self.millis)
    }

    /// The whole number of frames from the start at `fps` frames per second.
    pub fn frames(&self, fps: u64) -> (f: u64)
        ensures
            f == whole_frames(self@, fps as nat),
    {
        frames_of(self.millis, fps)
    }

    /// The timecode `HH:MM:SS:FF` of the position at `fps` frames per second.
    pub fn to_timecode(&self, fps: u64) -> (s: String)
        requires
            fps > 0,
        ensures
            s@ == timecode(self@, fps as nat),
    {
        timecode_of(self.millis, fps)
    }

    /// The position in seconds with three decimals and the unit, as in `1.500s`.
    pub fn to_string(&self) -> (s: String)
        ensures
            s@ == seconds_text(self@),
    {
        seconds_text_of(self.millis)
    }

    /// Whether this position comes strictly before `other`.
    pub fn is_before(&self, other: &Self) -> (b: bool)
        ensures
            b == (self@ < other@),
    {
        self.millis < other.millis
    }

    /// The position `d` later, saturating at the largest representable value.
    pub fn plus(&self, d: Duration) -> (t: Self)
        ensures
            t@ == saturating_sum(self@, d@),
    {
        TimePosition { millis: self.millis.saturating_add(d.as_millis()) }
    }

    /// The position `d` earlier, saturating at the start of the timeline.
    pub fn minus(&self, d: Duration) -> (t: Self)
        ensures
            t@ == saturating_diff(self@, d@),
    {
        TimePosition { millis: self.millis.saturating_sub(d.as_millis()) }
    }

    /// The span from `other` to this position, or zero when `other` is not earlier.
    pub fn since(&self, other: &Self) -> (d: Duration)
        ensures
            d@ == saturating_diff(self@, other@),
    {
        Duration::from_millis(self.millis.saturating_sub(other.millis))
    }
}

impl Default for TimePosition {
    fn default() -> (t: Self)
        ensures
            t@ == 0,
    {
        TimePosition { millis: 0 }
    }
}

impl vstd::std_specs::ops::AddSpecImpl<Duration> for TimePosition {
    open spec fn obeys_add_spec() -> bool {
        true
    }

    open spec fn add_req(self, rhs: Duration) -> bool {
        true
    }

    closed spec fn add_spec(self, rhs: Duration) -> Self {
        TimePosition { millis: saturating_sum(self@, rhs@) as u64 }
    }
}

impl core::ops::Add<Duration> for TimePosition {
    type Output = Self;

    /// The position `other` later, saturating at the largest representable value.
    fn add(self, other: Duration) -> (t: Self)
        ensures
            t@ == saturating_sum(self@, other@),
    {
        self.plus(other)
    }
}

impl vstd::std_specs::ops::SubSpecImpl<Duration> for TimePosition {
    open spec fn obeys_sub_spec() -> bool {
        true
    }

    open spec fn sub_req(self, rhs: Duration) -> bool {
        true
    }

    closed spec fn sub_spec(self, rhs: Duration) -> Self {
        TimePosition { millis: saturating_diff(self@, rhs@) as u64 }
    }
}

impl core::ops::Sub<Duration> for TimePosition {
    type Output = Self;

    /// The position `other` earlier, saturating at the start of the timeline.
    fn sub(self, other: Duration) -> (t: Self)
        ensures
            t@ == saturating_diff(self@, other@),
    {
        self.minus(other)
    }
}

impl vstd::std_specs::ops::SubSpecImpl<TimePosition> for TimePosition {
    open spec fn obeys_sub_spec() -> bool {
        true
    }

    open spec fn sub_req(self, rhs: TimePosition) -> bool {
        true
    }

    closed spec fn sub_spec(self, rhs: TimePosition) -> Duration {
        Duration { millis: saturating_diff(self@, rhs@) as u64 }
    }
}

impl core::ops::Sub<TimePosition> for TimePosition {
    type Output = Duration;

    /// The span between two positions, or zero when `other` is not earlier.
    fn sub(self, other: TimePosition) -> (d: Duration)
        ensures
            d@ == saturating_diff(self@, other@),
    {
        self.since(&other)
    }
}

} // verus!
