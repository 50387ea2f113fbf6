//! Keyframe animation: keyframes kept in time order, tracks of keyframes by
//! property, and how a time falls between keyframes. The values of keyframes are
//! of any type; the easing between them is computed by their user.

use vstd::prelude::*;
use crate::utility::text::{text_eq, text_of};
use crate::utility::time::{Duration, TimePosition};


verus! {

/// How a value moves from one keyframe to the next.
#[derive(Debug, Clone, Copy, PartialEq, Eq, Structural)]
pub enum EasingFunction {
    /// At a constant rate (the default).
    Linear,
    /// Speeding up.
    EaseIn,
    /// Slowing down.
    EaseOut,
    /// Speeding up, then slowing down.
    EaseInOut,
    /// Jumping to the next value at the end.
    Step,
}

/// The name of an easing function.
pub open spec fn easing_name(e: EasingFunction) -> Seq<char> {
    match e {
        EasingFunction::Linear => "linear"@,
        EasingFunction::EaseIn => "ease-in"@,
        EasingFunction::EaseOut => "ease-out"@,
        EasingFunction::EaseInOut => "ease-in-out"@,
        EasingFunction::Step => "step"@,
    }
}

impl Default for EasingFunction {
    fn default() -> (e: Self)
        ensures
            e == EasingFunction::Linear,
    {
        EasingFunction::Linear
    }
}

impl EasingFunction {
    /// The name of the easing function.
    pub fn as_str(&self) -> (s: &'static str)
        ensures
            s@ == easing_name(*self),
    {
        match self {
            EasingFunction::Linear => "linear",
            EasingFunction::EaseIn => "ease-in",
            EasingFunction::EaseOut => "ease-out",
            EasingFunction::EaseInOut => "ease-in-out",
            EasingFunction::Step => "step",
        }
    }
}

/// Errors of keyframe editing.
#[derive(Debug, Clone, PartialEq, Eq)]
pub enum KeyframeError {
    /// A keyframe time is invalid.
    InvalidTime(TimePosition),
    /// A keyframe already exists at the time.
    DuplicateKeyframe(TimePosition),
    /// The animation has no such property.
    PropertyNotFound(String),
    /// The track of the property has no keyframe at the time.
    KeyframeNotFound { property: String, time: TimePosition },
    /// Another error.
    Other(String),
}

/// A keyframe: a value at a time, and how the value moves on to the next one.
#[derive(Debug, Clone, Copy, PartialEq, Eq)]
pub struct KeyframePoint<V: Copy> {
    time: TimePosition,
    value: V,
    easing: EasingFunction,
}

/// What a keyframe holds: its time, value and easing.
pub struct KeyframeView<V> {
    pub time: TimePosition,
    pub value: V,
    pub easing: EasingFunction,
}

impl<V: Copy> View for KeyframePoint<V> {
    type V = KeyframeView<V>;

    closed spec fn view(&self) -> KeyframeView<V> {
        KeyframeView { time: self.time, value: self.value, easing: self.easing }
    }
}

/// The views of the keyframes of `s`, in order.
pub open spec fn point_views<V: Copy>(s: Seq<KeyframePoint<V>>) -> Seq<KeyframeView<V>> {
    s.map_values(|p: KeyframePoint<V>| p@)
}

impl<V: Copy> KeyframePoint<V> {
    /// The keyframe `value` at `time` with the easing `easing`.
    pub fn new(time: TimePosition, value: V, easing: EasingFunction) -> (p: Self)
        ensures
            p@ == (KeyframeView { time, value, easing }),
    {
        KeyframePoint { time, value, easing }
    }

    /// When the keyframe is.
    pub fn time(&self) -> (t: TimePosition)
        ensures
            t == self@.time,
    {
        self.time
    }

    /// The value of the keyframe.
    pub fn value(&self) -> (v: V)
        ensures
            v == self@.value,
    {
        self.value
    }

    /// How the value moves on to the next keyframe.
    pub fn easing(&self) -> (e: EasingFunction)
        ensures
            e == self@.easing,
    {
        self.easing
    }

    /// Sets the value.
    pub fn set_value(&mut self, value: V)
        ensures
            final(self)@ == (KeyframeView { value, ..old(self)@ }),
    {
        self.value = value;
    }

    /// Sets the easing.
    pub fn set_easing(&mut self, easing: EasingFunction)
        ensures
            final(self)@ == (KeyframeView { easing, ..old(self)@ }),
    {
        self.easing = easing;
    }
}

/// Whether the keyframes `s` are in strictly increasing time order.
pub open spec fn times_increasing<V: Copy>(s: Seq<KeyframeView<V>>) -> bool {
    forall|i: int, j: int| 0 <= i < j < s.len() ==> (#[trigger] s[i].time)@ < (#[trigger] s[j].time)@
}

/// Index of the keyframe of `s` at time `t`, or -1.
pub open spec fn time_index<V: Copy>(s: Seq<KeyframeView<V>>, t: TimePosition) -> int
    decreases s.len(),
{
    if s.len() == 0 {
        -1
    } else {
        let k = time_index(s.drop_last(), t);
        if k >= 0 {
            k
        } else if s.last().time == t {
            s.len() - 1
        } else {
            -1
        }
    }
}

/// `time_index` gives the first keyframe at the time, or -1 when there is none.
pub proof fn lemma_time_index<V: Copy>(s: Seq<KeyframeView<V>>, t: TimePosition)
    ensures
        -1 <= time_index(s, t) < s.len(),
        time_index(s, t) >= 0 ==> s[time_index(s, t)].time == t,
        forall|j: int| 0 <= j < s.len() && (time_index(s, t) < 0 || j < time_index(s, t)) ==> #[trigger] s[j].time != t,
    decreases s.len(),
{
    if s.len() > 0 {
        lemma_time_index(s.drop_last(), t);
        assert forall|j: int| 0 <= j < s.len() && (time_index(s, t) < 0 || j < time_index(s, t)) implies #[trigger] s[j].time
            != t by {
            if j < s.len() - 1 {
                assert(s[j] == s.drop_last()[j]);
            }
        }
    }
}

/// `s` with the keyframe `p` put in its place by time: after every keyframe
/// that is earlier.
pub open spec fn insert_keyframe<V: Copy>(s: Seq<KeyframeView<V>>, p: KeyframeView<V>) -> Seq<KeyframeView<V>>
    decreases s.len(),
{
    if s.len() == 0 || s.last().time@ < p.time@ {
        s.push(p)
    } else {
        insert_keyframe(s.drop_last(), p).push(s.last())
    }
}

proof fn lemma_insert_keyframe_shape<V: Copy>(s: Seq<KeyframeView<V>>, p: KeyframeView<V>, k: int)
    requires
        0 <= k <= s.len(),
        forall|j: int| k <= j < s.len() ==> (#[trigger] s[j].time)@ >= p.time@,
        k == 0 || s[k - 1].time@ < p.time@,
    ensures
        insert_keyframe(s, p) == s.take(k).push(p) + s.skip(k),
    decreases s.len(),
{
    if s.len() == 0 || s.last().time@ < p.time@ {
        if k < s.len() {
            assert(s[s.len() - 1].time@ >= p.time@);
        }
        assert(s.take(s.len() as int) == s);
        assert(s.skip(s.len() as int) =~= Seq::<KeyframeView<V>>::empty());
    } else {
        let t = s.drop_last();
        assert forall|j: int| k <= j < t.len() implies (#[trigger] t[j].time)@ >= p.time@ by {
            assert(t[j] == s[j]);
        }
        if k > 0 {
            assert(t[k - 1] == s[k - 1]);
        }
        lemma_insert_keyframe_shape(t, p, k);
        assert(t.take(k) == s.take(k));
        assert(t.skip(k).push(s.last()) =~= s.skip(k));
        assert((t.take(k).push(p) + t.skip(k)).push(s.last()) =~= t.take(k).push(p) + t.skip(k).push(s.last()));
    }
}

/// Where a time falls among the keyframes of a track.
#[derive(Debug, Clone, Copy, PartialEq, Eq)]
pub enum KeyframeSpan {
    /// At or before the first keyframe, at or after the last, or on a keyframe:
    /// the value of the keyframe with this index holds.
    At(usize),
    /// After the keyframe with index `index` and before the next: `elapsed` after
    /// it, of the `length` between the two.
    Between { index: usize, elapsed: Duration, length: Duration },
}

/// Where the time `t` falls among the keyframes `s` (in time order): none
/// without keyframes; the first at or before the first; the last at or after
/// the last; otherwise between the keyframe that is not later and the next.
pub open spec fn span_of<V: Copy>(s: Seq<KeyframeView<V>>, t: TimePosition, i: KeyframeSpan) -> bool {
    if t@ <= s[0].time@ {
        i == KeyframeSpan::At(0)
    } else if t@ >= s.last().time@ {
        i == KeyframeSpan::At((s.len() - 1) as usize)
    } else {
        i matches KeyframeSpan::Between { index, elapsed, length } && index + 1 < s.len() && s[index as int].time@
            <= t@ && t@ < s[index + 1].time@ && elapsed@ == t@ - s[index as int].time@ && length@
            == s[index + 1].time@ - s[index as int].time@
    }
}

/// The value a track gives at a time: the value of a keyframe, or two values
/// to blend with the easing of the first, `elapsed` into the `length` between
/// their keyframes.
#[derive(Debug, Clone, Copy, PartialEq)]
pub enum KeyframeSample<V> {
    Exact(V),
    Blend { from: V, to: V, easing: EasingFunction, elapsed: Duration, length: Duration },
}

/// The sample the keyframes `s` give for the span `i`.
pub open spec fn sample_of<V: Copy>(s: Seq<KeyframeView<V>>, i: KeyframeSpan) -> KeyframeSample<V> {
    match i {
        KeyframeSpan::At(k) => KeyframeSample::Exact(s[k as int].value),
        KeyframeSpan::Between { index, elapsed, length } => KeyframeSample::Blend {
            from: s[index as int].value,
            to: s[index + 1].value,
            easing: s[index as int].easing,
            elapsed,
            length,
        },
    }
}

/// The keyframes of one property, in time order, no two at the same time.
#[derive(Debug)]
pub struct KeyframeTrack<V: Copy> {
    property_name: String,
    keyframes: Vec<KeyframePoint<V>>,
}

impl<V: Copy> KeyframeTrack<V> {
    /// The keyframes are in strictly increasing time order.
    #[verifier::type_invariant]
    spec fn inv(self) -> bool {
        times_increasing(point_views(self.keyframes@))
    }

    /// The name of the property.
    pub closed spec fn spec_property(&self) -> Seq<char> {
        self.property_name@
    }

    /// The keyframes, in time order.
    pub closed spec fn points(&self) -> Seq<KeyframeView<V>> {
        point_views(self.keyframes@)
    }

    /// An empty track of the property `property_name`.
    pub fn new(property_name: &str) -> (t: Self)
        ensures
            t.spec_property() == property_name@,
            t.points() == Seq::<KeyframeView<V>>::empty(),
    {
        KeyframeTrack { property_name: text_of(property_name), keyframes: Vec::new() }
    }

    /// A copy of the track.
    pub fn copy_of(&self) -> (t: Self)
        ensures
            t.spec_property() == self.spec_property(),
            t.points() == self.points(),
    {
        proof {
            use_type_invariant(self);
        }
        let mut v: Vec<KeyframePoint<V>> = Vec::new();
        let mut i: usize = 0;
        while i < self.keyframes.len()
            invariant
                0 <= i <= self.keyframes.len(),
                v@ == self.keyframes@.take(i as int),
            decreases self.keyframes.len() - i,
        {
            v.push(self.keyframes[i]);
            assert(v@ =~= self.keyframes@.take(i + 1));
            i = i + 1;
        }
        assert(v@ =~= self.keyframes@);
        KeyframeTrack { property_name: self.property_name.clone(), keyframes: v }
    }

    /// The name of the property.
    pub fn property_name(&self) -> (s: &str)
        ensures
            s@ == self.spec_property(),
    {
        self.property_name.as_str()
    }

    /// The keyframes are in strictly increasing time order.
    pub fn ordered(&self) -> (b: bool)
        ensures
            b,
            times_increasing(self.points()),
    {
        proof {
            use_type_invariant(self);
        }
        true
    }

    fn position_of(&self, time: TimePosition) -> (r: Option<usize>)
        ensures
            match r {
                Some(i) => time_index(self.points(), time) == i && i < self.points().len(),
                None => time_index(self.points(), time) == -1,
            },
    {
        let ghost s = point_views(self.keyframes@);
        proof {
            lemma_time_index(s, time);
        }
        let mut i: usize = 0;
        while i < self.keyframes.len()
            invariant
                0 <= i <= self.keyframes.len(),
                s == point_views(self.keyframes@),
                forall|j: int| 0 <= j < i ==> #[trigger] s[j].time != time,
            decreases self.keyframes.len() - i,
        {
            assert(s[i as int] == self.keyframes@[i as int]@);
            if self.keyframes[i].time() == time {
                proof {
                    lemma_time_index(s, time);
                    let k = time_index(s, time);
                    if k >= 0 && k < i {
                        assert(s[k].time == time);
                    }
                }
                return Some(i);
            }
            i = i + 1;
        }
        None
    }

    /// Adds the keyframe `value` at `time` in its place by time; fails, changing
    /// nothing, when there is a keyframe at that time already.
    pub fn add_keyframe(&mut self, time: TimePosition, value: V, easing: EasingFunction) -> (r: Result<
        (),
        KeyframeError,
    >)
        ensures
            final(self).spec_property() == old(self).spec_property(),
            time_index(old(self).points(), time) >= 0 ==> r == Err::<(), KeyframeError>(
                KeyframeError::DuplicateKeyframe(time),
            ) && final(self).points() == old(self).points(),
            time_index(old(self).points(), time) < 0 ==> r is Ok && final(self).points() == insert_keyframe(
                old(self).points(),
                KeyframeView::<V> { time, value, easing },
            ),
    {
        proof {
            use_type_invariant(&*self);
        }
        if self.position_of(time).is_some() {
            return Err(KeyframeError::DuplicateKeyframe(time));
        }
        let p = KeyframePoint { time, value, easing };
        let ghost s = point_views(self.keyframes@);
        let mut j = self.keyframes.len();
        while j > 0 && self.keyframes[j - 1].time().as_millis() >= time.as_millis()
            invariant
                0 <= j <= self.keyframes.len(),
                s == point_views(self.keyframes@),
                forall|k: int| j <= k < s.len() ==> (#[trigger] s[k].time)@ >= time@,
            decreases j,
        {
            assert(s[j - 1] == self.keyframes@[j - 1]@);
            j = j - 1;
        }
        if j > 0 {
            assert(s[j - 1] == self.keyframes@[j - 1]@);
        }
        proof {
            lemma_insert_keyframe_shape(s, p@, j as int);
            lemma_time_index(s, time);
        }
        let mut v: Vec<KeyframePoint<V>> = Vec::new();
        std::mem::swap(&mut v, &mut self.keyframes);
        v.insert(j, p);
        let ghost w = point_views(v@);
        assert(w =~= s.take(j as int).push(p@) + s.skip(j as int));
        proof {
            assert forall|a: int, b: int| 0 <= a < b < w.len() implies (#[trigger] w[a].time)@ < (
            #[trigger] w[b].time)@ by {
                if a < j && b < j {
                    assert(s[a].time@ < s[b].time@);
                } else if a < j && b == j {
                    assert(s[a].time@ <= s[j - 1].time@);
                } else if a < j && b > j {
                    assert(s[a].time@ < s[b - 1].time@);
                } else if a == j {
                    assert(s[b - 1].time@ >= time@);
                    assert(s[b - 1].time != time);
                    if s[b - 1].time@ == time@ {
                        TimePosition::lemma_view_eq(s[b - 1].time, time);
                    }
                } else {
                    assert(s[a - 1].time@ < s[b - 1].time@);
                }
            }
        }
        self.keyframes = v;
        Ok(())
    }

    /// Sets the value and easing given of the keyframe at `time`; fails, changing
    /// nothing, when there is none.
    pub fn update_keyframe(&mut self, time: TimePosition, value: Option<V>, easing: Option<EasingFunction>) -> (r:
        Result<(), KeyframeError>)
        ensures
            final(self).spec_property() == old(self).spec_property(),
            time_index(old(self).points(), time) < 0 ==> (r matches Err(
                KeyframeError::KeyframeNotFound { property, time: t },
            ) && property@ == old(self).spec_property() && t == time && final(self).points() == old(self).points()),
            time_index(old(self).points(), time) >= 0 ==> r is Ok && final(self).points() == old(self).points().update(
                time_index(old(self).points(), time),
                KeyframeView::<V> {
                    time,
                    value: match value {
                        Some(v) => v,
                        None => old(self).points()[time_index(old(self).points(), time)].value,
                    },
                    easing: match easing {
                        Some(e) => e,
                        None => old(self).points()[time_index(old(self).points(), time)].easing,
                    },
                },
            ),
    {
        proof {
            use_type_invariant(&*self);
        }
        match self.position_of(time) {
            None => Err(KeyframeError::KeyframeNotFound { property: self.property_name.clone(), time }),
            Some(k) => {
                proof {
                    lemma_time_index(self.points(), time);
                }
                assert(point_views(self.keyframes@)[k as int] == self.keyframes@[k as int]@);
                let mut p = self.keyframes[k];
                if let Some(v) = value {
                    p.set_value(v);
                }
                if let Some(e) = easing {
                    p.set_easing(e);
                }
                let ghost s = point_views(self.keyframes@);
                let mut v: Vec<KeyframePoint<V>> = Vec::new();
                std::mem::swap(&mut v, &mut self.keyframes);
                v.set(k, p);
                let ghost w = point_views(v@);
                assert(w =~= s.update(k as int, p@));
                proof {
                    assert forall|a: int, b: int| 0 <= a < b < w.len() implies (#[trigger] w[a].time)@ < (
                    #[trigger] w[b].time)@ by {
                        assert(s[a].time@ < s[b].time@);
                    }
                }
                self.keyframes = v;
                Ok(())
            },
        }
    }

    /// Removes the keyframe at `time`; fails, changing nothing, when there is none.
    pub fn remove_keyframe(&mut self, time: TimePosition) -> (r: Result<(), KeyframeError>)
        ensures
            final(self).spec_property() == old(self).spec_property(),
            time_index(old(self).points(), time) < 0 ==> (r matches Err(
                KeyframeError::KeyframeNotFound { property, time: t },
            ) && property@ == old(self).spec_property() && t == time && final(self).points() == old(self).points()),
            time_index(old(self).points(), time) >= 0 ==> r is Ok && final(self).points() == old(self).points().remove(
                time_index(old(self).points(), time),
            ),
    {
        proof {
            use_type_invariant(&*self);
        }
        match self.position_of(time) {
            None => Err(KeyframeError::KeyframeNotFound { property: self.property_name.clone(), time }),
            Some(k) => {
                let ghost s = point_views(self.keyframes@);
                let mut v: Vec<KeyframePoint<V>> = Vec::new();
                std::mem::swap(&mut v, &mut self.keyframes);
                let _gone = v.remove(k);
                let ghost w = point_views(v@);
                assert(w =~= s.remove(k as int));
                proof {
                    assert forall|a: int, b: int| 0 <= a < b < w.len() implies (#[trigger] w[a].time)@ < (
                    #[trigger] w[b].time)@ by {
                        let x = if a < k { a } else { a + 1 };
                        let y = if b < k { b } else { b + 1 };
                        assert(w[a] == s[x] && w[b] == s[y]);
                        assert(s[x].time@ < s[y].time@);
                    }
                }
                self.keyframes = v;
                Ok(())
            },
        }
    }

    /// Where `time` falls among the keyframes (see `span_of`); none when there
    /// are no keyframes.
    pub fn locate(&self, time: TimePosition) -> (r: Option<KeyframeSpan>)
        ensures
            self.points().len() == 0 <==> r is None,
            r matches Some(i) ==> span_of(self.points(), time, i),
    {
        proof {
            use_type_invariant(self);
        }
        let n = self.keyframes.len();
        if n == 0 {
            return None;
        }
        let t = time.as_millis();
        assert(point_views(self.keyframes@)[0] == self.keyframes@[0]@);
        assert(point_views(self.keyframes@)[n - 1] == self.keyframes@[n - 1]@);
        if t <= self.keyframes[0].time().as_millis() {
            return Some(KeyframeSpan::At(0));
        }
        if t >= self.keyframes[n - 1].time().as_millis() {
            return Some(KeyframeSpan::At(n - 1));
        }
        let mut i: usize = 0;
        while i + 1 < n
            invariant
                0 <= i < n,
                n == self.keyframes@.len(),
                times_increasing(point_views(self.keyframes@)),
                point_views(self.keyframes@)[i as int].time@ <= t,
                t < point_views(self.keyframes@)[n - 1].time@,
                point_views(self.keyframes@)[0].time@ < t,
                t == time@,
            decreases n - i,
        {
            assert(point_views(self.keyframes@)[i as int] == self.keyframes@[i as int]@);
            assert(point_views(self.keyframes@)[i + 1] == self.keyframes@[i + 1]@);
            let a = self.keyframes[i].time().as_millis();
            let b = self.keyframes[i + 1].time().as_millis();
            if t < b {
                return Some(
                    KeyframeSpan::Between {
                        index: i,
                        elapsed: Duration::from_millis(t - a),
                        length: Duration::from_millis(b - a),
                    },
                );
            }
            i = i + 1;
        }
        assert(false);
        None
    }

    /// What the track gives at `time` (see `locate` and `sample_of`); none when
    /// there are no keyframes.
    pub fn sample(&self, time: TimePosition) -> (r: Option<KeyframeSample<V>>)
        ensures
            self.points().len() == 0 <==> r is None,
            r matches Some(x) ==> exists|i: KeyframeSpan| span_of(self.points(), time, i) && x == sample_of(
                self.points(),
                i,
            ),
    {
        let loc = self.locate(time);
        match loc {
            None => None,
            Some(sp) => {
                let ghost pts = self.points();
                let n = self.keyframes.len();
                assert(pts.len() == n);
                assert(span_of(pts, time, sp));
                let r = match sp {
                    KeyframeSpan::At(k) => {
                        assert(k < pts.len()) by {
                            if time@ > pts[0].time@ {
                                assert(k == pts.len() - 1);
                            }
                        }
                        assert(pts[k as int] == self.keyframes@[k as int]@);
                        KeyframeSample::Exact(self.keyframes[k].value())
                    },
                    KeyframeSpan::Between { index, elapsed, length } => {
                        assert(index + 1 < pts.len());
                        assert(pts[index as int] == self.keyframes@[index as int]@);
                        assert(pts[index + 1] == self.keyframes@[index + 1]@);
                        let a = &self.keyframes[index];
                        let b = &self.keyframes[index + 1];
                        KeyframeSample::Blend { from: a.value(), to: b.value(), easing: a.easing(), elapsed, length }
                    },
                };
                assert(r == sample_of(pts, sp));
                Some(r)
            },
        }
    }

    /// The number of keyframes.
    pub fn keyframe_count(&self) -> (n: usize)
        ensures
            n == self.points().len(),
    {
        self.keyframes.len()
    }

    /// The keyframes, in time order.
    pub fn keyframes(&self) -> (r: &[KeyframePoint<V>])
        ensures
            point_views(r@) == self.points(),
    {
        self.keyframes.as_slice()
    }

    /// Removes every keyframe.
    pub fn clear(&mut self)
        ensures
            final(self).spec_property() == old(self).spec_property(),
            final(self).points() == Seq::<KeyframeView<V>>::empty(),
    {
        self.keyframes = Vec::new();
        assert(self.points() =~= Seq::<KeyframeView<V>>::empty());
    }
}

/// What an animation holds for one property: the property, the name of its
/// track and the track's keyframes.
pub struct PropertyView<V> {
    pub key: Seq<char>,
    pub name: Seq<char>,
    pub points: Seq<KeyframeView<V>>,
}

/// What an animation holds: its tracks by property, in the order the properties
/// were added, and its duration.
pub struct AnimationView<V> {
    pub tracks: Seq<PropertyView<V>>,
    pub duration: nat,
}

/// The views of the tracks of `s`.
pub open spec fn property_views<V: Copy>(s: Seq<(String, KeyframeTrack<V>)>) -> Seq<PropertyView<V>> {
    s.map_values(|e: (String, KeyframeTrack<V>)| PropertyView { key: e.0@, name: e.1.spec_property(), points: e.1.points() })
}

/// Whether no two tracks of `s` are for the same property.
pub open spec fn keys_distinct<V>(s: Seq<PropertyView<V>>) -> bool {
    forall|i: int, j: int| 0 <= i < j < s.len() ==> #[trigger] s[i].key != #[trigger] s[j].key
}

/// Index of the track of `s` for the property `key`, or -1.
pub open spec fn key_index<V>(s: Seq<PropertyView<V>>, key: Seq<char>) -> int
    decreases s.len(),
{
    if s.len() == 0 {
        -1
    } else {
        let k = key_index(s.drop_last(), key);
        if k >= 0 {
            k
        } else if s.last().key == key {
            s.len() - 1
        } else {
            -1
        }
    }
}

/// `key_index` gives the first track for the property, or -1 when there is none.
pub proof fn lemma_key_index<V>(s: Seq<PropertyView<V>>, key: Seq<char>)
    ensures
        -1 <= key_index(s, key) < s.len(),
        key_index(s, key) >= 0 ==> s[key_index(s, key)].key == key,
        forall|j: int| 0 <= j < s.len() && (key_index(s, key) < 0 || j < key_index(s, key)) ==> #[trigger] s[j].key != key,
    decreases s.len(),
{
    if s.len() > 0 {
        lemma_key_index(s.drop_last(), key);
        assert forall|j: int| 0 <= j < s.len() && (key_index(s, key) < 0 || j < key_index(s, key)) implies #[trigger] s[j].key
            != key by {
            if j < s.len() - 1 {
                assert(s[j] == s.drop_last()[j]);
            }
        }
    }
}

/// `s` with `e` in place of the track for its property, or added last.
pub open spec fn put_property<V>(s: Seq<PropertyView<V>>, e: PropertyView<V>) -> Seq<PropertyView<V>> {
    let k = key_index(s, e.key);
    if k >= 0 {
        s.update(k, e)
    } else {
        s.push(e)
    }
}

proof fn lemma_put_property<V>(s: Seq<PropertyView<V>>, e: PropertyView<V>)
    requires
        keys_distinct(s),
    ensures
        keys_distinct(put_property(s, e)),
{
    lemma_key_index(s, e.key);
    let r = put_property(s, e);
    let k = key_index(s, e.key);
    assert forall|i: int, j: int| 0 <= i < j < r.len() implies #[trigger] r[i].key != #[trigger] r[j].key by {
        if k < 0 && j == s.len() {
            assert(s[i].key != e.key);
        } else if k >= 0 && i == k {
            assert(s[j].key != s[k].key);
        } else if k >= 0 && j == k {
            assert(s[i].key != s[k].key);
        } else {
            assert(s[i].key != s[j].key);
        }
    }
}

/// An animation: tracks of keyframes by property, and a duration.
#[derive(Debug)]
pub struct KeyframeAnimation<V: Copy> {
    tracks: Vec<(String, KeyframeTrack<V>)>,
    duration: Duration,
}

impl<V: Copy> View for KeyframeAnimation<V> {
    type V = AnimationView<V>;

    closed spec fn view(&self) -> AnimationView<V> {
        AnimationView { tracks: property_views(self.tracks@), duration: self.duration@ }
    }
}

impl<V: Copy> KeyframeAnimation<V> {
    /// No two tracks are for the same property.
    #[verifier::type_invariant]
    spec fn inv(self) -> bool {
        keys_distinct(property_views(self.tracks@))
    }

    /// An animation of `duration` with no tracks.
    pub fn new(duration: Duration) -> (a: Self)
        ensures
            a@ == (AnimationView::<V> { tracks: Seq::empty(), duration: duration@ }),
    {
        let a = KeyframeAnimation { tracks: Vec::new(), duration };
        assert(property_views(a.tracks@) =~= Seq::<PropertyView<V>>::empty());
        a
    }

    /// The duration.
    pub fn duration(&self) -> (d: Duration)
        ensures
            d@ == self@.duration,
    {
        self.duration
    }

    /// Sets the duration.
    pub fn set_duration(&mut self, duration: Duration)
        ensures
            final(self)@ == (AnimationView { duration: duration@, ..old(self)@ }),
    {
        proof {
            use_type_invariant(&*self);
        }
        self.duration = duration;
    }

    fn position_of(&self, property: &str) -> (r: Option<usize>)
        ensures
            match r {
                Some(i) => key_index(self@.tracks, property@) == i && i < self@.tracks.len(),
                None => key_index(self@.tracks, property@) == -1,
            },
    {
        let ghost s = self@.tracks;
        proof {
            lemma_key_index(s, property@);
        }
        let mut i: usize = 0;
        while i < self.tracks.len()
            invariant
                0 <= i <= self.tracks.len(),
                s == property_views(self.tracks@),
                forall|j: int| 0 <= j < i ==> #[trigger] s[j].key != property@,
            decreases self.tracks.len() - i,
        {
            assert(s[i as int].key == self.tracks@[i as int].0@);
            if text_eq(self.tracks[i].0.as_str(), property) {
                proof {
                    lemma_key_index(s, property@);
                    let k = key_index(s, property@);
                    if k >= 0 && k < i {
                        assert(s[k].key == property@);
                    }
                }
                return Some(i);
            }
            i = i + 1;
        }
        None
    }

    /// Sets the track for `property` to `track`, replacing any there was.
    pub fn add_track(&mut self, property: &str, track: KeyframeTrack<V>) -> (r: Result<(), KeyframeError>)
        ensures
            r is Ok,
            final(self)@ == (AnimationView {
                tracks: put_property(
                    old(self)@.tracks,
                    PropertyView { key: property@, name: track.spec_property(), points: track.points() },
                ),
                ..old(self)@
            }),
    {
        proof {
            use_type_invariant(&*self);
        }
        let ghost s = self@.tracks;
        let ghost e = PropertyView { key: property@, name: track.spec_property(), points: track.points() };
        proof {
            lemma_put_property(s, e);
            lemma_key_index(s, property@);
        }
        let pos = self.position_of(property);
        let mut v: Vec<(String, KeyframeTrack<V>)> = Vec::new();
        std::mem::swap(&mut v, &mut self.tracks);
        match pos {
            Some(k) => {
                v.set(k, (text_of(property), track));
                assert(property_views(v@) =~= s.update(k as int, e));
            },
            None => {
                v.push((text_of(property), track));
                assert(property_views(v@) =~= s.push(e));
            },
        }
        self.tracks = v;
        Ok(())
    }

    /// Adds an empty track for `property` unless there is one.
    pub fn create_track_if_missing(&mut self, property: &str) -> (r: Result<(), KeyframeError>)
        ensures
            r is Ok,
            key_index(old(self)@.tracks, property@) >= 0 ==> final(self)@ == old(self)@,
            key_index(old(self)@.tracks, property@) < 0 ==> final(self)@ == (AnimationView {
                tracks: old(self)@.tracks.push(PropertyView { key: property@, name: property@, points: Seq::empty() }),
                ..old(self)@
            }),
    {
        if self.position_of(property).is_none() {
            let t = KeyframeTrack::new(property);
            let _ = self.add_track(property, t);
        }
        Ok(())
    }

    /// The track for `property`, if any.
    pub fn get_track(&self, property: &str) -> (r: Option<&KeyframeTrack<V>>)
        ensures
            match r {
                Some(t) => key_index(self@.tracks, property@) >= 0 && self@.tracks[key_index(
                    self@.tracks,
                    property@,
                )] == (PropertyView { key: property@, name: t.spec_property(), points: t.points() }),
                None => key_index(self@.tracks, property@) == -1,
            },
    {
        match self.position_of(property) {
            Some(k) => {
                proof {
                    lemma_key_index(self@.tracks, property@);
                }
                Some(&self.tracks[k].1)
            },
            None => None,
        }
    }

    /// What the track for `property` gives at `time` (see
    /// `KeyframeTrack::sample`); none without such a track or keyframes.
    pub fn sample(&self, property: &str, time: TimePosition) -> (r: Option<KeyframeSample<V>>)
        ensures
            key_index(self@.tracks, property@) < 0 ==> r is None,
            key_index(self@.tracks, property@) >= 0 ==> ({
                let t = self@.tracks[key_index(self@.tracks, property@)];
                &&& t.points.len() == 0 <==> r is None
                &&& r matches Some(x) ==> exists|i: KeyframeSpan| span_of(t.points, time, i) && x == sample_of(
                    t.points,
                    i,
                )
            }),
    {
        match self.get_track(property) {
            Some(t) => t.sample(time),
            None => None,
        }
    }

    /// Whether there is a track for `property`.
    pub fn has_property(&self, property: &str) -> (b: bool)
        ensures
            b == (key_index(self@.tracks, property@) >= 0),
    {
        self.position_of(property).is_some()
    }

    /// Adds the keyframe `value` at `time` to the track for `property`, which is
    /// made where missing (see `KeyframeTrack::add_keyframe`).
    pub fn add_keyframe(&mut self, property: &str, time: TimePosition, value: V, easing: EasingFunction) -> (r:
        Result<(), KeyframeError>)
        ensures
            final(self)@.duration == old(self)@.duration,
            key_index(final(self)@.tracks, property@) >= 0,
            ({
                let before = if key_index(old(self)@.tracks, property@) >= 0 {
                    old(self)@.tracks
                } else {
                    old(self)@.tracks.push(PropertyView { key: property@, name: property@, points: Seq::empty() })
                };
                let k = key_index(before, property@);
                let t = before[k];
                &&& time_index(t.points, time) >= 0 ==> r == Err::<(), KeyframeError>(
                    KeyframeError::DuplicateKeyframe(time),
                ) && final(self)@.tracks == before
                &&& time_index(t.points, time) < 0 ==> r is Ok && final(self)@.tracks == before.update(
                    k,
                    PropertyView { points: insert_keyframe(t.points, KeyframeView { time, value, easing }), ..t },
                )
            }),
    {
        let _ = self.create_track_if_missing(property);
        proof {
            use_type_invariant(&*self);
        }
        let ghost before = self@.tracks;
        proof {
            lemma_key_index(before, property@);
            lemma_key_index(old(self)@.tracks, property@);
            if key_index(old(self)@.tracks, property@) < 0 {
                assert(before[before.len() - 1].key == property@);
            }
        }
        let k = match self.position_of(property) {
            Some(k) => k,
            None => {
                assert(false);
                return Err(KeyframeError::PropertyNotFound(text_of(property)));
            },
        };
        let mut v: Vec<(String, KeyframeTrack<V>)> = Vec::new();
        std::mem::swap(&mut v, &mut self.tracks);
        let (key, mut track) = v.remove(k);
        let r = track.add_keyframe(time, value, easing);
        v.insert(k, (key, track));
        assert(property_views(v@) =~= before.update(
            k as int,
            PropertyView { points: property_views(v@)[k as int].points, ..before[k as int] },
        ));
        self.tracks = v;
        proof {
            lemma_key_index(self@.tracks, property@);
            if key_index(self@.tracks, property@) >= 0 && key_index(self@.tracks, property@) != k {
                let j = key_index(self@.tracks, property@);
                if j < k {
                    assert(before[j].key != property@);
                }
            }
            if key_index(self@.tracks, property@) < 0 {
                assert(self@.tracks[k as int].key == property@);
            }
        }
        r
    }

    /// Removes the keyframe at `time` from the track for `property`; fails when
    /// there is no such track (see `KeyframeTrack::remove_keyframe`).
    pub fn remove_keyframe(&mut self, property: &str, time: TimePosition) -> (r: Result<(), KeyframeError>)
        ensures
            final(self)@.duration == old(self)@.duration,
            key_index(old(self)@.tracks, property@) < 0 ==> (r matches Err(KeyframeError::PropertyNotFound(p))
                && p@ == property@ && final(self)@ == old(self)@),
            key_index(old(self)@.tracks, property@) >= 0 ==> ({
                let k = key_index(old(self)@.tracks, property@);
                let t = old(self)@.tracks[k];
                &&& time_index(t.points, time) < 0 ==> r is Err && final(self)@ == old(self)@
                &&& time_index(t.points, time) >= 0 ==> r is Ok && final(self)@.tracks == old(self)@.tracks.update(
                    k,
                    PropertyView { points: t.points.remove(time_index(t.points, time)), ..t },
                )
            }),
    {
        proof {
            use_type_invariant(&*self);
        }
        let ghost before = self@.tracks;
        let k = match self.position_of(property) {
            Some(k) => k,
            None => {
                return Err(KeyframeError::PropertyNotFound(text_of(property)));
            },
        };
        let mut v: Vec<(String, KeyframeTrack<V>)> = Vec::new();
        std::mem::swap(&mut v, &mut self.tracks);
        let (key, mut track) = v.remove(k);
        let r = track.remove_keyframe(time);
        v.insert(k, (key, track));
        assert(property_views(v@) =~= before.update(
            k as int,
            PropertyView { points: property_views(v@)[k as int].points, ..before[k as int] },
        ));
        proof {
            if r is Err {
                assert(property_views(v@) =~= before);
            }
        }
        self.tracks = v;
        r
    }

    /// Removes the track for `property`; fails when there is none.
    pub fn remove_property(&mut self, property: &str) -> (r: Result<(), KeyframeError>)
        ensures
            final(self)@.duration == old(self)@.duration,
            key_index(old(self)@.tracks, property@) < 0 ==> (r matches Err(KeyframeError::PropertyNotFound(p))
                && p@ == property@ && final(self)@ == old(self)@),
            key_index(old(self)@.tracks, property@) >= 0 ==> r is Ok && final(self)@.tracks == old(self)@.tracks.remove(
                key_index(old(self)@.tracks, property@),
            ),
    {
        proof {
            use_type_invariant(&*self);
        }
        let ghost before = self@.tracks;
        match self.position_of(property) {
            Some(k) => {
                let mut v: Vec<(String, KeyframeTrack<V>)> = Vec::new();
                std::mem::swap(&mut v, &mut self.tracks);
                let _gone = v.remove(k);
                assert(property_views(v@) =~= before.remove(k as int));
                proof {
                    let w = property_views(v@);
                    assert forall|a: int, b: int| 0 <= a < b < w.len() implies #[trigger] w[a].key != #[trigger] w[b].key by {
                        let x = if a < k { a } else { a + 1 };
                        let y = if b < k { b } else { b + 1 };
                        assert(w[a] == before[x] && w[b] == before[y]);
                    }
                }
                self.tracks = v;
                Ok(())
            },
            None => Err(KeyframeError::PropertyNotFound(text_of(property))),
        }
    }

    /// The properties that have tracks, in the order they were added.
    pub fn properties(&self) -> (r: Vec<String>)
        ensures
            r@.map_values(|s: String| s@) == self@.tracks.map_values(|e: PropertyView<V>| e.key),
    {
        let ghost s = self@.tracks;
        let mut r: Vec<String> = Vec::new();
        let mut i: usize = 0;
        while i < self.tracks.len()
            invariant
                0 <= i <= self.tracks.len(),
                s == property_views(self.tracks@),
                r@.map_values(|x: String| x@) == s.map_values(|e: PropertyView<V>| e.key).take(i as int),
            decreases self.tracks.len() - i,
        {
            let ghost before = r@;
            assert(s[i as int].key == self.tracks@[i as int].0@);
            let key = self.tracks[i].0.clone();
            r.push(key);
            assert(r@.map_values(|x: String| x@) =~= before.map_values(|x: String| x@).push(s[i as int].key));
            assert(r@.map_values(|x: String| x@) =~= s.map_values(|e: PropertyView<V>| e.key).take(i + 1));
            i = i + 1;
        }
        assert(r@.map_values(|x: String| x@) =~= s.map_values(|e: PropertyView<V>| e.key));
        r
    }

    /// The properties that have tracks, in the order they were added, borrowed.
    pub fn property_names(&self) -> (r: Vec<&str>)
        ensures
            r@.map_values(|s: &str| s@) == self@.tracks.map_values(|e: PropertyView<V>| e.key),
    {
        let ghost s = self@.tracks;
        let mut r: Vec<&str> = Vec::new();
        let mut i: usize = 0;
        while i < self.tracks.len()
            invariant
                0 <= i <= self.tracks.len(),
                s == property_views(self.tracks@),
                r@.map_values(|x: &str| x@) == s.map_values(|e: PropertyView<V>| e.key).take(i as int),
            decreases self.tracks.len() - i,
        {
            let ghost before = r@;
            assert(s[i as int].key == self.tracks@[i as int].0@);
            r.push(self.tracks[i].0.as_str());
            assert(r@.map_values(|x: &str| x@) =~= before.map_values(|x: &str| x@).push(s[i as int].key));
            assert(r@.map_values(|x: &str| x@) =~= s.map_values(|e: PropertyView<V>| e.key).take(i + 1));
            i = i + 1;
        }
        assert(r@.map_values(|x: &str| x@) =~= s.map_values(|e: PropertyView<V>| e.key));
        r
    }

    /// The tracks of the animation, by property, in the order they were added.
    pub fn tracks(&self) -> (r: &[(String, KeyframeTrack<V>)])
        ensures
            property_views(r@) == self@.tracks,
    {
        self.tracks.as_slice()
    }

    /// Removes every track.
    pub fn clear(&mut self)
        ensures
            final(self)@ == (AnimationView::<V> { tracks: Seq::empty(), ..old(self)@ }),
    {
        self.tracks = Vec::new();
        assert(property_views(self.tracks@) =~= Seq::<PropertyView<V>>::empty());
    }
}

} // verus!
