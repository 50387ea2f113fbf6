//! Relationships between the tracks of a timeline.
//!
//! A relationship goes from a source track to a target track: the source
//! depends on the target. The relationships never form a cycle.

use vstd::prelude::*;
use crate::project::ids::{uuid_text, TrackId};
use crate::utility::text::{push_str, string_from_chars};
use crate::utility::time::saturating_diff;
use super::{track_index, with_track, Clip, Timeline, TimelineView, Track, TrackKind, TrackView};

verus! {

/// The kind of a relationship between two tracks.
#[derive(Debug, Clone, Copy, PartialEq, Eq, Structural, Hash)]
pub enum TrackRelationship {
    /// Tracks are independent with no synchronization requirements.
    Independent,
    /// Tracks should be locked for synchronous editing.
    Locked,
    /// One track affects the timing of another.
    TimingDependent,
    /// One track determines visibility of another.
    VisibilityDependent,
}

/// A relationship: source track, target track and kind.
pub type Edge = (TrackId, TrackId, TrackRelationship);

/// Errors of operations on track relationships.
#[derive(Debug, Clone, PartialEq, Eq)]
pub enum MultiTrackError {
    /// A track named in the operation does not exist.
    TrackNotFound(TrackId),
    /// The relationship would create a circular dependency between tracks.
    CircularDependency(TrackId, TrackId),
    /// The relationship conflicts with existing ones.
    ConflictingRelationship(TrackId, TrackId),
    /// The operation would leave a track in an invalid state.
    InvalidTrackState(TrackId, String),
}

/// The message of a multi-track error.
pub open spec fn multi_track_error_text(e: MultiTrackError) -> Seq<char> {
    match e {
        MultiTrackError::TrackNotFound(id) => "Track not found: "@ + uuid_text(id.value()),
        MultiTrackError::CircularDependency(a, b) => "Circular dependency between tracks "@ + uuid_text(a.value())
            + " and "@ + uuid_text(b.value()),
        MultiTrackError::ConflictingRelationship(a, b) => "Conflicting relationship between tracks "@ + uuid_text(
            a.value(),
        ) + " and "@ + uuid_text(b.value()),
        MultiTrackError::InvalidTrackState(id, reason) => "Invalid track state for track "@ + uuid_text(id.value())
            + ": "@ + reason@,
    }
}

impl MultiTrackError {
    /// The message of the error.
    pub fn message(&self) -> (s: String)
        ensures
            s@ == multi_track_error_text(*self),
    {
        let mut out: Vec<char> = Vec::new();
        match self {
            MultiTrackError::TrackNotFound(id) => {
                push_str(&mut out, "Track not found: ");
                push_str(&mut out, id.to_string().as_str());
            },
            MultiTrackError::CircularDependency(a, b) => {
                push_str(&mut out, "Circular dependency between tracks ");
                push_str(&mut out, a.to_string().as_str());
                push_str(&mut out, " and ");
                push_str(&mut out, b.to_string().as_str());
            },
            MultiTrackError::ConflictingRelationship(a, b) => {
                push_str(&mut out, "Conflicting relationship between tracks ");
                push_str(&mut out, a.to_string().as_str());
                push_str(&mut out, " and ");
                push_str(&mut out, b.to_string().as_str());
            },
            MultiTrackError::InvalidTrackState(id, reason) => {
                push_str(&mut out, "Invalid track state for track ");
                push_str(&mut out, id.to_string().as_str());
                push_str(&mut out, ": ");
                push_str(&mut out, reason.as_str());
            },
        }
        string_from_chars(&out)
    }
}

/// Keeps the relationships between the tracks of a timeline.
#[derive(Debug)]
pub struct MultiTrackManager {
    /// The relationships, in the order they were added; at most one per
    /// (source, target) pair.
    edges: Vec<Edge>,
}

impl View for MultiTrackManager {
    type V = Seq<Edge>;

    /// The relationships, in the order they were added.
    closed spec fn view(&self) -> Seq<Edge> {
        self.edges@
    }
}

/// Whether `es` holds a relationship from `a` to `b`.
pub open spec fn step(es: Seq<Edge>, a: TrackId, b: TrackId) -> bool {
    exists|i: int| 0 <= i < es.len() && (#[trigger] es[i]).0 == a && es[i].1 == b
}

/// Whether `p` is a chain of relationships: each track depends on the next.
pub open spec fn is_path(es: Seq<Edge>, p: Seq<TrackId>) -> bool {
    p.len() >= 1 && forall|k: int| 0 <= k < p.len() - 1 ==> #[trigger] step(es, p[k], p[k + 1])
}

/// Whether track `a` depends on track `b`, directly or through other tracks
/// (every track depends on itself).
pub open spec fn reaches(es: Seq<Edge>, a: TrackId, b: TrackId) -> bool {
    exists|p: Seq<TrackId>| is_path(es, p) && p[0] == a && p.last() == b
}

/// Whether the relationships form no cycle: the target of a relationship never
/// depends on its source.
pub open spec fn acyclic(es: Seq<Edge>) -> bool {
    forall|i: int| 0 <= i < es.len() ==> !reaches(es, (#[trigger] es[i]).1, es[i].0)
}

/// Whether there is at most one relationship per (source, target) pair.
pub open spec fn pairs_unique(es: Seq<Edge>) -> bool {
    forall|i: int, j: int|
        0 <= i < es.len() && 0 <= j < es.len() && i != j ==> !((#[trigger] es[i]).0 == (
        #[trigger] es[j]).0 && es[i].1 == es[j].1)
}

/// Index of the relationship from `a` to `b`, or -1.
pub open spec fn edge_index(es: Seq<Edge>, a: TrackId, b: TrackId) -> int
    decreases es.len(),
{
    if es.len() == 0 {
        -1
    } else {
        let k = edge_index(es.drop_last(), a, b);
        if k >= 0 {
            k
        } else if es.last().0 == a && es.last().1 == b {
            es.len() - 1
        } else {
            -1
        }
    }
}

/// The kind of the relationship from `a` to `b`, if there is one.
pub open spec fn relationship_of(es: Seq<Edge>, a: TrackId, b: TrackId) -> Option<TrackRelationship> {
    let k = edge_index(es, a, b);
    if k >= 0 { Some(es[k].2) } else { None }
}

/// The relationships with `(a, b, r)` set: the kind of an existing relationship from
/// `a` to `b` is replaced, otherwise the relationship is appended.
pub open spec fn with_edge(es: Seq<Edge>, a: TrackId, b: TrackId, r: TrackRelationship) -> Seq<Edge> {
    let k = edge_index(es, a, b);
    if k >= 0 { es.update(k, (a, b, r)) } else { es.push((a, b, r)) }
}

/// The relationships without the one from `a` to `b`.
pub open spec fn without_edge(es: Seq<Edge>, a: TrackId, b: TrackId) -> Seq<Edge>
    decreases es.len(),
{
    if es.len() == 0 {
        es
    } else {
        let r = without_edge(es.drop_last(), a, b);
        if es.last().0 == a && es.last().1 == b { r } else { r.push(es.last()) }
    }
}

/// The relationships that involve neither end `t`.
pub open spec fn without_track(es: Seq<Edge>, t: TrackId) -> Seq<Edge>
    decreases es.len(),
{
    if es.len() == 0 {
        es
    } else {
        let r = without_track(es.drop_last(), t);
        if es.last().0 == t || es.last().1 == t { r } else { r.push(es.last()) }
    }
}

proof fn lemma_edge_index(es: Seq<Edge>, a: TrackId, b: TrackId)
    ensures
        -1 <= edge_index(es, a, b) < es.len(),
        edge_index(es, a, b) >= 0 ==> es[edge_index(es, a, b)].0 == a && es[edge_index(es, a, b)].1 == b,
        forall|j: int| 0 <= j < es.len() && (edge_index(es, a, b) < 0 || j < edge_index(es, a, b))
            ==> !((#[trigger] es[j]).0 == a && es[j].1 == b),
    decreases es.len(),
{
    if es.len() > 0 {
        lemma_edge_index(es.drop_last(), a, b);
        assert forall|j: int| 0 <= j < es.len() && (edge_index(es, a, b) < 0 || j < edge_index(es, a, b))
            implies !((#[trigger] es[j]).0 == a && es[j].1 == b) by {
            if j < es.len() - 1 {
                assert(es[j] == es.drop_last()[j]);
            }
        }
    }
}

/// Dependence is transitive.
proof fn lemma_reaches_trans(es: Seq<Edge>, a: TrackId, b: TrackId, c: TrackId)
    requires
        reaches(es, a, b),
        reaches(es, b, c),
    ensures
        reaches(es, a, c),
{
    let p = choose|p: Seq<TrackId>| is_path(es, p) && p[0] == a && p.last() == b;
    let q = choose|q: Seq<TrackId>| is_path(es, q) && q[0] == b && q.last() == c;
    let r = p + q.drop_first();
    assert forall|k: int| 0 <= k < r.len() - 1 implies #[trigger] step(es, r[k], r[k + 1]) by {
        if k < p.len() - 1 {
            assert(r[k] == p[k] && r[k + 1] == p[k + 1]);
        } else if k == p.len() - 1 {
            assert(r[k] == b);
            assert(r[k + 1] == q[1]);
            assert(step(es, q[0], q[1]));
        } else {
            let m = k - p.len() + 1;
            assert(r[k] == q[m] && r[k + 1] == q[m + 1]);
        }
    }
    if q.len() == 1 {
        assert(r =~= p);
    } else {
        assert(r.last() == q.last());
    }
}

/// Every track depends on itself.
proof fn lemma_reaches_refl(es: Seq<Edge>, a: TrackId)
    ensures
        reaches(es, a, a),
{
    let p = seq![a];
    assert(is_path(es, p));
    assert(is_path(es, p) && p[0] == a && p.last() == a);
}

/// A direct relationship is a dependence.
proof fn lemma_step_reaches(es: Seq<Edge>, a: TrackId, b: TrackId)
    requires
        step(es, a, b),
    ensures
        reaches(es, a, b),
{
    let p = seq![a, b];
    assert(p[0] == a && p[1] == b);
    assert forall|k: int| 0 <= k < p.len() - 1 implies #[trigger] step(es, p[k], p[k + 1]) by {
        assert(k == 0);
    }
    assert(is_path(es, p) && p[0] == a && p.last() == b);
}

/// A chain over `es` with one relationship `(s, t, _)` added either avoids it, or
/// passes through `s` before and `t` after.
proof fn lemma_path_with_new_edge(es: Seq<Edge>, e: Edge, p: Seq<TrackId>)
    requires
        is_path(es.push(e), p),
    ensures
        reaches(es, p[0], p.last()) || (reaches(es, p[0], e.0) && reaches(es, e.1, p.last())),
    decreases p.len(),
{
    let nes = es.push(e);
    if p.len() == 1 {
        lemma_reaches_refl(es, p[0]);
    } else {
        let q = p.drop_last();
        assert forall|k: int| 0 <= k < q.len() - 1 implies #[trigger] step(nes, q[k], q[k + 1]) by {
            assert(q[k] == p[k] && q[k + 1] == p[k + 1]);
            assert(step(nes, p[k], p[k + 1]));
        }
        lemma_path_with_new_edge(es, e, q);
        let z = q.last();
        let y = p.last();
        let k = p.len() - 2;
        assert(z == p[k]);
        assert(step(nes, p[k], p[k + 1]));
        let i = choose|i: int| 0 <= i < nes.len() && (#[trigger] nes[i]).0 == z && nes[i].1 == y;
        if i < es.len() {
            assert(nes[i] == es[i]);
            assert(step(es, z, y));
            lemma_step_reaches(es, z, y);
            if reaches(es, p[0], z) {
                lemma_reaches_trans(es, p[0], z, y);
            } else {
                lemma_reaches_trans(es, e.1, z, y);
            }
        } else {
            assert(nes[i] == e);
            lemma_reaches_refl(es, y);
            if reaches(es, p[0], z) {
            }
        }
    }
}

/// Adding a relationship from `s` to `t` to relationships without a cycle keeps them
/// without a cycle when `t` does not depend on `s`.
pub proof fn lemma_push_keeps_acyclic(es: Seq<Edge>, s: TrackId, t: TrackId, r: TrackRelationship)
    requires
        acyclic(es),
        !reaches(es, t, s),
    ensures
        acyclic(es.push((s, t, r))),
{
    let e = (s, t, r);
    let nes = es.push(e);
    assert forall|i: int| 0 <= i < nes.len() implies !reaches(nes, (#[trigger] nes[i]).1, nes[i].0) by {
        let a = nes[i].0;
        let b = nes[i].1;
        if reaches(nes, b, a) {
            let p = choose|p: Seq<TrackId>| is_path(nes, p) && p[0] == b && p.last() == a;
            lemma_path_with_new_edge(es, e, p);
            if i < es.len() {
                assert(nes[i] == es[i]);
                assert(!reaches(es, es[i].1, es[i].0));
                // then b reaches s and t reaches a; with the relationship a -> b, t reaches s
                assert(step(es, a, b));
                lemma_step_reaches(es, a, b);
                lemma_reaches_trans(es, t, a, b);
                lemma_reaches_trans(es, t, b, s);
            } else {
                assert(nes[i] == e);
            }
        }
    }
}

/// Two relationship lists that link the same pairs of tracks have the same chains.
proof fn lemma_same_steps_same_reach(es: Seq<Edge>, fs: Seq<Edge>)
    requires
        forall|a: TrackId, b: TrackId| step(es, a, b) <==> step(fs, a, b),
    ensures
        forall|a: TrackId, b: TrackId| reaches(es, a, b) <==> reaches(fs, a, b),
{
    assert forall|a: TrackId, b: TrackId| reaches(es, a, b) implies reaches(fs, a, b) by {
        let p = choose|p: Seq<TrackId>| is_path(es, p) && p[0] == a && p.last() == b;
        assert forall|k: int| 0 <= k < p.len() - 1 implies #[trigger] step(fs, p[k], p[k + 1]) by {
            assert(step(es, p[k], p[k + 1]));
        }
        assert(is_path(fs, p));
    }
    assert forall|a: TrackId, b: TrackId| reaches(fs, a, b) implies reaches(es, a, b) by {
        let p = choose|p: Seq<TrackId>| is_path(fs, p) && p[0] == a && p.last() == b;
        assert forall|k: int| 0 <= k < p.len() - 1 implies #[trigger] step(es, p[k], p[k + 1]) by {
            assert(step(fs, p[k], p[k + 1]));
        }
        assert(is_path(es, p));
    }
}

/// Removing relationships keeps dependence from growing.
proof fn lemma_fewer_steps_less_reach(es: Seq<Edge>, fs: Seq<Edge>, a: TrackId, b: TrackId)
    requires
        forall|x: TrackId, y: TrackId| step(fs, x, y) ==> step(es, x, y),
        reaches(fs, a, b),
    ensures
        reaches(es, a, b),
{
    let p = choose|p: Seq<TrackId>| is_path(fs, p) && p[0] == a && p.last() == b;
    assert forall|k: int| 0 <= k < p.len() - 1 implies #[trigger] step(es, p[k], p[k + 1]) by {
        assert(step(fs, p[k], p[k + 1]));
    }
    assert(is_path(es, p));
}

/// Whether every relationship of `fs` is one of `es`.
pub open spec fn edges_subset(fs: Seq<Edge>, es: Seq<Edge>) -> bool {
    forall|i: int| 0 <= i < fs.len() ==> es.contains(#[trigger] fs[i])
}

/// Keeping only some of the relationships keeps them without a cycle.
pub proof fn lemma_subset_keeps_acyclic(es: Seq<Edge>, fs: Seq<Edge>)
    requires
        acyclic(es),
        edges_subset(fs, es),
    ensures
        acyclic(fs),
{
    assert forall|x: TrackId, y: TrackId| step(fs, x, y) implies step(es, x, y) by {
        let i = choose|i: int| 0 <= i < fs.len() && (#[trigger] fs[i]).0 == x && fs[i].1 == y;
        assert(es.contains(fs[i]));
        let j = choose|j: int| 0 <= j < es.len() && es[j] == fs[i];
        assert(es[j].0 == x && es[j].1 == y);
    }
    assert forall|i: int| 0 <= i < fs.len() implies !reaches(fs, (#[trigger] fs[i]).1, fs[i].0) by {
        assert(es.contains(fs[i]));
        let j = choose|j: int| 0 <= j < es.len() && es[j] == fs[i];
        assert(!reaches(es, es[j].1, es[j].0));
        if reaches(fs, fs[i].1, fs[i].0) {
            lemma_fewer_steps_less_reach(es, fs, fs[i].1, fs[i].0);
        }
    }
}

proof fn lemma_without_edge_subset(es: Seq<Edge>, a: TrackId, b: TrackId)
    ensures
        edges_subset(without_edge(es, a, b), es),
        forall|i: int| 0 <= i < without_edge(es, a, b).len() ==> !((#[trigger] without_edge(es, a, b)[i]).0 == a
            && without_edge(es, a, b)[i].1 == b),
    decreases es.len(),
{
    if es.len() > 0 {
        let t = es.drop_last();
        lemma_without_edge_subset(t, a, b);
        let r = without_edge(t, a, b);
        assert forall|i: int| 0 <= i < without_edge(es, a, b).len() implies es.contains(
            #[trigger] without_edge(es, a, b)[i],
        ) by {
            if i < r.len() {
                assert(without_edge(es, a, b)[i] == r[i]);
                assert(t.contains(r[i]));
                let j = choose|j: int| 0 <= j < t.len() && t[j] == r[i];
                assert(es[j] == t[j]);
            } else {
                assert(without_edge(es, a, b)[i] == es.last());
                assert(es[es.len() - 1] == es.last());
            }
        }
    }
}

proof fn lemma_without_track_subset(es: Seq<Edge>, x: TrackId)
    ensures
        edges_subset(without_track(es, x), es),
        forall|i: int| 0 <= i < without_track(es, x).len() ==> (#[trigger] without_track(es, x)[i]).0 != x
            && without_track(es, x)[i].1 != x,
    decreases es.len(),
{
    if es.len() > 0 {
        let t = es.drop_last();
        lemma_without_track_subset(t, x);
        let r = without_track(t, x);
        assert forall|i: int| 0 <= i < without_track(es, x).len() implies es.contains(
            #[trigger] without_track(es, x)[i],
        ) by {
            if i < r.len() {
                assert(without_track(es, x)[i] == r[i]);
                assert(t.contains(r[i]));
                let j = choose|j: int| 0 <= j < t.len() && t[j] == r[i];
                assert(es[j] == t[j]);
            } else {
                assert(es[es.len() - 1] == es.last());
            }
        }
    }
}

/// Every track of the chain starting at `a` is among `vis` when `vis` holds `a` and is
/// closed under the relationships.
proof fn lemma_closed_contains_reach(es: Seq<Edge>, vis: Seq<TrackId>, p: Seq<TrackId>)
    requires
        is_path(es, p),
        vis.contains(p[0]),
        forall|i: int, k: int|
            0 <= i < es.len() && 0 <= k < vis.len() && (#[trigger] es[i]).0 == (#[trigger] vis[k])
                ==> vis.contains(es[i].1),
    ensures
        vis.contains(p.last()),
    decreases p.len(),
{
    if p.len() > 1 {
        let q = p.drop_last();
        assert forall|k: int| 0 <= k < q.len() - 1 implies #[trigger] step(es, q[k], q[k + 1]) by {
            assert(q[k] == p[k] && q[k + 1] == p[k + 1]);
            assert(step(es, p[k], p[k + 1]));
        }
        lemma_closed_contains_reach(es, vis, q);
        let m = p.len() - 2;
        assert(step(es, p[m], p[m + 1]));
        let i = choose|i: int| 0 <= i < es.len() && (#[trigger] es[i]).0 == p[p.len() - 2] && es[i].1 == p.last();
        let k = choose|k: int| 0 <= k < vis.len() && vis[k] == q.last();
        assert(es[i].0 == vis[k]);
    }
}

/// A sequence without duplicates whose items all occur in `b` is no longer than `b`.
proof fn lemma_distinct_within(a: Seq<TrackId>, b: Seq<TrackId>)
    requires
        a.no_duplicates(),
        forall|i: int| 0 <= i < a.len() ==> b.contains(#[trigger] a[i]),
    ensures
        a.len() <= b.len(),
{
    broadcast use vstd::seq_lib::group_seq_properties;
    a.unique_seq_to_set();
    b.lemma_cardinality_of_set();
    assert(a.to_set().subset_of(b.to_set())) by {
        assert forall|x: TrackId| a.to_set().contains(x) implies b.to_set().contains(x) by {
            assert(a.contains(x));
            let i = choose|i: int| 0 <= i < a.len() && a[i] == x;
            assert(b.contains(a[i]));
        }
    }
    vstd::set_lib::lemma_len_subset(a.to_set(), b.to_set());
}

/// The sources of the relationships to `t`, in order.
pub open spec fn dependents(es: Seq<Edge>, t: TrackId) -> Seq<TrackId>
    decreases es.len(),
{
    if es.len() == 0 {
        Seq::empty()
    } else {
        let r = dependents(es.drop_last(), t);
        if es.last().1 == t { r.push(es.last().0) } else { r }
    }
}

/// The targets and kinds of the relationships from `t`, in order.
pub open spec fn dependencies_of(es: Seq<Edge>, t: TrackId) -> Seq<(TrackId, TrackRelationship)>
    decreases es.len(),
{
    if es.len() == 0 {
        Seq::empty()
    } else {
        let r = dependencies_of(es.drop_last(), t);
        if es.last().0 == t { r.push((es.last().1, es.last().2)) } else { r }
    }
}

/// The tracks that can appear in a dependence search from `a`: `a` and the targets.
pub open spec fn search_nodes(es: Seq<Edge>, a: TrackId) -> Seq<TrackId> {
    seq![a] + es.map_values(|e: Edge| e.1)
}

impl MultiTrackManager {
    /// At most one relationship per pair of tracks, and no cycle.
    #[verifier::type_invariant]
    spec fn inv(self) -> bool {
        pairs_unique(self.edges@) && acyclic(self.edges@)
    }

    /// Creates a manager with no relationships.
    pub fn new() -> (m: Self)
        ensures
            m@ == Seq::<Edge>::empty(),
    {
        MultiTrackManager { edges: Vec::new() }
    }

    /// Whether track `track` depends on track `dependency`, directly or through other
    /// tracks; every track depends on itself.
    pub fn depends_on(&self, track: TrackId, dependency: TrackId) -> (b: bool)
        ensures
            b == reaches(self@, track, dependency),
    {
        let ghost es = self.edges@;
        let ghost nodes = search_nodes(es, track);
        if track == dependency {
            proof {
                lemma_reaches_refl(es, track);
            }
            return true;
        }
        let mut visited: Vec<TrackId> = Vec::new();
        visited.push(track);
        proof {
            lemma_reaches_refl(es, track);
            assert(nodes[0] == track);
        }
        let mut processed: usize = 0;
        while processed < visited.len()
            invariant
                es == self.edges@,
                nodes == search_nodes(es, track),
                0 <= processed <= visited.len(),
                1 <= visited.len() <= es.len() + 1,
                visited@[0] == track,
                visited@.no_duplicates(),
                !visited@.contains(dependency),
                forall|k: int| 0 <= k < visited.len() ==> reaches(es, track, #[trigger] visited@[k]),
                forall|k: int| 0 <= k < visited.len() ==> nodes.contains(#[trigger] visited@[k]),
                forall|i: int, k: int|
                    0 <= i < es.len() && 0 <= k < processed && (#[trigger] es[i]).0 == (
                    #[trigger] visited@[k]) ==> visited@.contains(es[i].1),
            decreases es.len() + 1 - processed,
        {
            let x = visited[processed];
            let mut i: usize = 0;
            while i < self.edges.len()
                invariant
                    es == self.edges@,
                    nodes == search_nodes(es, track),
                    0 <= processed < visited.len(),
                    visited.len() <= es.len() + 1,
                    x == visited@[processed as int],
                    0 <= i <= es.len(),
                    visited@[0] == track,
                    visited@.no_duplicates(),
                    !visited@.contains(dependency),
                    forall|k: int| 0 <= k < visited.len() ==> reaches(es, track, #[trigger] visited@[k]),
                    forall|k: int| 0 <= k < visited.len() ==> nodes.contains(#[trigger] visited@[k]),
                    forall|j: int, k: int|
                        0 <= j < es.len() && 0 <= k < processed && (#[trigger] es[j]).0 == (
                        #[trigger] visited@[k]) ==> visited@.contains(es[j].1),
                    forall|j: int| 0 <= j < i && (#[trigger] es[j]).0 == x ==> visited@.contains(es[j].1),
                decreases es.len() - i,
            {
                let e = self.edges[i];
                if e.0 == x {
                    proof {
                        assert(step(es, x, e.1));
                        lemma_step_reaches(es, x, e.1);
                        lemma_reaches_trans(es, track, x, e.1);
                    }
                    if e.1 == dependency {
                        return true;
                    }
                    let mut seen = false;
                    let mut k: usize = 0;
                    while k < visited.len()
                        invariant
                            0 <= k <= visited.len(),
                            seen == exists|w: int| 0 <= w < k && visited@[w] == e.1,
                        decreases visited.len() - k,
                    {
                        if visited[k] == e.1 {
                            seen = true;
                            assert(visited@[k as int] == e.1);
                        }
                        k = k + 1;
                    }
                    if !seen {
                        proof {
                            assert(nodes.contains(e.1)) by {
                                assert(nodes[i + 1] == e.1);
                            }
                            let grown = visited@.push(e.1);
                            assert forall|a: int, b: int| 0 <= a < b < grown.len() implies grown[a] != grown[b] by {
                                if b == grown.len() - 1 {
                                    assert(grown[a] == visited@[a]);
                                }
                            }
                            assert forall|a: int| 0 <= a < grown.len() implies nodes.contains(#[trigger] grown[a]) by {
                                if a < visited.len() {
                                    assert(grown[a] == visited@[a]);
                                }
                            }
                            lemma_distinct_within(grown, nodes);
                        }
                        let ghost before = visited@;
                        visited.push(e.1);
                        assert(visited@.drop_last() == before);
                        proof {
                            assert forall|j: int, k2: int|
                                0 <= j < es.len() && 0 <= k2 < processed && (#[trigger] es[j]).0 == (
                                #[trigger] visited@[k2]) implies visited@.contains(es[j].1) by {
                                assert(visited@[k2] == visited@.drop_last()[k2]);
                                assert(visited@.drop_last().contains(es[j].1));
                                let w = choose|w: int| 0 <= w < visited@.drop_last().len() && visited@.drop_last()[w] == es[j].1;
                                assert(visited@[w] == es[j].1);
                            }
                            assert forall|j: int| 0 <= j <= i && (#[trigger] es[j]).0 == x implies visited@.contains(es[j].1) by {
                                if j < i {
                                    assert(visited@.drop_last().contains(es[j].1));
                                    let w = choose|w: int| 0 <= w < visited@.drop_last().len() && visited@.drop_last()[w] == es[j].1;
                                    assert(visited@[w] == es[j].1);
                                } else {
                                    assert(visited@[visited.len() - 1] == e.1);
                                }
                            }
                            assert(!visited@.contains(dependency)) by {
                                if visited@.contains(dependency) {
                                    let w = choose|w: int| 0 <= w < visited@.len() && visited@[w] == dependency;
                                    if w < visited.len() - 1 {
                                        assert(visited@.drop_last()[w] == dependency);
                                    }
                                }
                            }
                        }
                    }
                }
                i = i + 1;
            }
            processed = processed + 1;
        }
        proof {
            assert(visited@[0] == track);
            assert(visited@.contains(track));
            assert forall|p: Seq<TrackId>| is_path(es, p) && p[0] == track implies p.last() != dependency by {
                lemma_closed_contains_reach(es, visited@, p);
            }
        }
        false
    }

    /// Sets the relationship from `source_id` to `target_id` without looking at a
    /// timeline; fails when `target_id` depends on `source_id`, since the relationship
    /// would close a cycle (also when the two are the same track).
    pub fn add_relationship_no_timeline_check(
        &mut self,
        source_id: TrackId,
        target_id: TrackId,
        relationship: TrackRelationship,
    ) -> (r: Result<(), MultiTrackError>)
        ensures
            reaches(old(self)@, target_id, source_id) ==> r == Err::<(), MultiTrackError>(
                MultiTrackError::CircularDependency(source_id, target_id),
            ) && final(self)@ == old(self)@,
            !reaches(old(self)@, target_id, source_id) ==> r is Ok && final(self)@ == with_edge(
                old(self)@,
                source_id,
                target_id,
                relationship,
            ),
            acyclic(final(self)@),
    {
        proof {
            use_type_invariant(&*self);
        }
        if self.depends_on(target_id, source_id) {
            return Err(MultiTrackError::CircularDependency(source_id, target_id));
        }
        let ghost es = self.edges@;
        proof {
            lemma_edge_index(es, source_id, target_id);
        }
        let mut i: usize = 0;
        while i < self.edges.len()
            invariant
                0 <= i <= self.edges.len(),
                es == self.edges@,
                es == old(self)@,
                acyclic(es),
                pairs_unique(es),
                !reaches(es, target_id, source_id),
                forall|j: int| 0 <= j < i ==> !((#[trigger] es[j]).0 == source_id && es[j].1 == target_id),
            decreases self.edges.len() - i,
        {
            if self.edges[i].0 == source_id && self.edges[i].1 == target_id {
                proof {
                    lemma_edge_index(es, source_id, target_id);
                    let k = edge_index(es, source_id, target_id);
                    if k >= 0 && k < i {
                        assert(es[k].0 == source_id && es[k].1 == target_id);
                    }
                    assert(edge_index(es, source_id, target_id) == i);
                    let fs = es.update(i as int, (source_id, target_id, relationship));
                    assert forall|a: TrackId, b: TrackId| step(es, a, b) <==> step(fs, a, b) by {
                        if step(es, a, b) {
                            let j = choose|j: int| 0 <= j < es.len() && (#[trigger] es[j]).0 == a && es[j].1 == b;
                            assert(fs[j].0 == a && fs[j].1 == b);
                        }
                        if step(fs, a, b) {
                            let j = choose|j: int| 0 <= j < fs.len() && (#[trigger] fs[j]).0 == a && fs[j].1 == b;
                            assert(es[j].0 == a && es[j].1 == b);
                        }
                    }
                    lemma_same_steps_same_reach(es, fs);
                    assert forall|j: int| 0 <= j < fs.len() implies !reaches(fs, (#[trigger] fs[j]).1, fs[j].0) by {
                        assert(fs[j].0 == es[j].0 && fs[j].1 == es[j].1);
                        assert(!reaches(es, es[j].1, es[j].0));
                    }
                    assert forall|x: int, y: int|
                        0 <= x < fs.len() && 0 <= y < fs.len() && x != y implies !((#[trigger] fs[x]).0 == (
                        #[trigger] fs[y]).0 && fs[x].1 == fs[y].1) by {
                        assert(fs[x].0 == es[x].0 && fs[x].1 == es[x].1);
                        assert(fs[y].0 == es[y].0 && fs[y].1 == es[y].1);
                    }
                }
                let mut edges: Vec<Edge> = Vec::new();
                std::mem::swap(&mut edges, &mut self.edges);
                edges.set(i, (source_id, target_id, relationship));
                self.edges = edges;
                return Ok(());
            }
            i = i + 1;
        }
        proof {
            lemma_edge_index(es, source_id, target_id);
            assert(edge_index(es, source_id, target_id) == -1);
            lemma_push_keeps_acyclic(es, source_id, target_id, relationship);
            assert(!has_pair(es, source_id, target_id));
            lemma_pairs_unique_push(es, (source_id, target_id, relationship));
        }
        let mut edges: Vec<Edge> = Vec::new();
        std::mem::swap(&mut edges, &mut self.edges);
        edges.push((source_id, target_id, relationship));
        self.edges = edges;
        Ok(())
    }

    /// Sets the relationship from `source_id` to `target_id`: both tracks must exist in
    /// `timeline`, and `target_id` must not depend on `source_id`.
    pub fn add_relationship(
        &mut self,
        source_id: TrackId,
        target_id: TrackId,
        relationship: TrackRelationship,
        timeline: &Timeline,
    ) -> (r: Result<(), MultiTrackError>)
        ensures
            track_index(timeline@.tracks, source_id) < 0 ==> r == Err::<(), MultiTrackError>(
                MultiTrackError::TrackNotFound(source_id),
            ) && final(self)@ == old(self)@,
            track_index(timeline@.tracks, source_id) >= 0 && track_index(timeline@.tracks, target_id) < 0
                ==> r == Err::<(), MultiTrackError>(MultiTrackError::TrackNotFound(target_id))
                && final(self)@ == old(self)@,
            track_index(timeline@.tracks, source_id) >= 0 && track_index(timeline@.tracks, target_id) >= 0
                && reaches(old(self)@, target_id, source_id) ==> r == Err::<(), MultiTrackError>(
                MultiTrackError::CircularDependency(source_id, target_id),
            ) && final(self)@ == old(self)@,
            track_index(timeline@.tracks, source_id) >= 0 && track_index(timeline@.tracks, target_id) >= 0
                && !reaches(old(self)@, target_id, source_id) ==> r is Ok && final(self)@ == with_edge(
                old(self)@,
                source_id,
                target_id,
                relationship,
            ),
            acyclic(final(self)@),
    {
        proof {
            use_type_invariant(&*self);
        }
        if !timeline.has_track(source_id) {
            return Err(MultiTrackError::TrackNotFound(source_id));
        }
        if !timeline.has_track(target_id) {
            return Err(MultiTrackError::TrackNotFound(target_id));
        }
        self.add_relationship_no_timeline_check(source_id, target_id, relationship)
    }

    /// Removes the relationship from `source_id` to `target_id`, if there is one.
    pub fn remove_relationship(&mut self, source_id: TrackId, target_id: TrackId) -> (r: Result<
        (),
        MultiTrackError,
    >)
        ensures
            r is Ok,
            final(self)@ == without_edge(old(self)@, source_id, target_id),
            relationship_of(final(self)@, source_id, target_id) is None,
    {
        proof {
            use_type_invariant(&*self);
        }
        let ghost es = self.edges@;
        let mut kept: Vec<Edge> = Vec::new();
        let mut i: usize = 0;
        assert(es.take(0) =~= Seq::<Edge>::empty());
        while i < self.edges.len()
            invariant
                0 <= i <= self.edges.len(),
                es == self.edges@,
                kept@ == without_edge(es.take(i as int), source_id, target_id),
            decreases self.edges.len() - i,
        {
            let e = self.edges[i];
            assert(es.take(i + 1).drop_last() == es.take(i as int));
            if !(e.0 == source_id && e.1 == target_id) {
                kept.push(e);
            }
            i = i + 1;
        }
        assert(es.take(es.len() as int) == es);
        proof {
            lemma_without_edge_subset(es, source_id, target_id);
            lemma_subset_keeps_acyclic(es, kept@);
            lemma_without_edge_pairs_unique(es, source_id, target_id);
            lemma_edge_index(kept@, source_id, target_id);
        }
        self.edges = kept;
        Ok(())
    }

    /// The kind of the relationship from `source_id` to `target_id`, if there is one.
    pub fn get_relationship(&self, source_id: TrackId, target_id: TrackId) -> (r: Option<TrackRelationship>)
        ensures
            r == relationship_of(self@, source_id, target_id),
    {
        let ghost es = self.edges@;
        proof {
            lemma_edge_index(es, source_id, target_id);
        }
        let mut i: usize = 0;
        while i < self.edges.len()
            invariant
                0 <= i <= self.edges.len(),
                es == self.edges@,
                forall|j: int| 0 <= j < i ==> !((#[trigger] es[j]).0 == source_id && es[j].1 == target_id),
            decreases self.edges.len() - i,
        {
            if self.edges[i].0 == source_id && self.edges[i].1 == target_id {
                proof {
                    lemma_edge_index(es, source_id, target_id);
                    let k = edge_index(es, source_id, target_id);
                    if k >= 0 && k < i {
                        assert(es[k].0 == source_id && es[k].1 == target_id);
                    }
                }
                return Some(self.edges[i].2);
            }
            i = i + 1;
        }
        proof {
            lemma_edge_index(es, source_id, target_id);
        }
        None
    }

    /// The tracks that depend directly on `track_id` (the sources of relationships to
    /// it), in the order the relationships were added; each appears once.
    pub fn get_dependent_tracks(&self, track_id: TrackId) -> (r: Vec<TrackId>)
        ensures
            r@ == dependents(self@, track_id),
    {
        let ghost es = self.edges@;
        let mut out: Vec<TrackId> = Vec::new();
        let mut i: usize = 0;
        assert(es.take(0) =~= Seq::<Edge>::empty());
        while i < self.edges.len()
            invariant
                0 <= i <= self.edges.len(),
                es == self.edges@,
                out@ == dependents(es.take(i as int), track_id),
            decreases self.edges.len() - i,
        {
            let e = self.edges[i];
            assert(es.take(i + 1).drop_last() == es.take(i as int));
            if e.1 == track_id {
                out.push(e.0);
            }
            i = i + 1;
        }
        assert(es.take(es.len() as int) == es);
        out
    }

    /// The tracks that `track_id` depends on directly, with the kinds of the
    /// relationships, in the order the relationships were added.
    pub fn get_track_dependencies(&self, track_id: TrackId) -> (r: Vec<(TrackId, TrackRelationship)>)
        ensures
            r@ == dependencies_of(self@, track_id),
    {
        let ghost es = self.edges@;
        let mut out: Vec<(TrackId, TrackRelationship)> = Vec::new();
        let mut i: usize = 0;
        assert(es.take(0) =~= Seq::<Edge>::empty());
        while i < self.edges.len()
            invariant
                0 <= i <= self.edges.len(),
                es == self.edges@,
                out@ == dependencies_of(es.take(i as int), track_id),
            decreases self.edges.len() - i,
        {
            let e = self.edges[i];
            assert(es.take(i + 1).drop_last() == es.take(i as int));
            if e.0 == track_id {
                out.push((e.1, e.2));
            }
            i = i + 1;
        }
        assert(es.take(es.len() as int) == es);
        out
    }

    /// All relationships, in the order they were added.
    pub fn get_all_relationships(&self) -> (r: &[Edge])
        ensures
            r@ == self@,
    {
        self.edges.as_slice()
    }

    /// Removes every relationship that involves track `track_id`.
    pub fn remove_track(&mut self, track_id: TrackId) -> (r: Result<(), MultiTrackError>)
        ensures
            r is Ok,
            final(self)@ == without_track(old(self)@, track_id),
    {
        proof {
            use_type_invariant(&*self);
        }
        let ghost es = self.edges@;
        let mut kept: Vec<Edge> = Vec::new();
        let mut i: usize = 0;
        assert(es.take(0) =~= Seq::<Edge>::empty());
        while i < self.edges.len()
            invariant
                0 <= i <= self.edges.len(),
                es == self.edges@,
                kept@ == without_track(es.take(i as int), track_id),
            decreases self.edges.len() - i,
        {
            let e = self.edges[i];
            assert(es.take(i + 1).drop_last() == es.take(i as int));
            if !(e.0 == track_id || e.1 == track_id) {
                kept.push(e);
            }
            i = i + 1;
        }
        assert(es.take(es.len() as int) == es);
        proof {
            lemma_without_track_subset(es, track_id);
            lemma_subset_keeps_acyclic(es, kept@);
            lemma_without_track_pairs_unique(es, track_id);
        }
        self.edges = kept;
        Ok(())
    }
}

/// Index of the first clip of `src` that starts less than a second after the start
/// of `c` (any clip that starts no later than `c` counts), or -1.
pub open spec fn timing_match(src: Seq<Clip>, c: Clip) -> int
    decreases src.len(),
{
    if src.len() == 0 {
        -1
    } else {
        let k = timing_match(src.drop_last(), c);
        if k >= 0 {
            k
        } else if saturating_diff(src.last().pos(), c.pos()) < 1000 {
            src.len() - 1
        } else {
            -1
        }
    }
}

proof fn lemma_timing_match(src: Seq<Clip>, c: Clip)
    ensures
        -1 <= timing_match(src, c) < src.len(),
        timing_match(src, c) >= 0 ==> saturating_diff(src[timing_match(src, c)].pos(), c.pos()) < 1000,
        forall|j: int| 0 <= j < src.len() && (timing_match(src, c) < 0 || j < timing_match(src, c))
            ==> saturating_diff((#[trigger] src[j]).pos(), c.pos()) >= 1000,
    decreases src.len(),
{
    if src.len() > 0 {
        lemma_timing_match(src.drop_last(), c);
        assert forall|j: int| 0 <= j < src.len() && (timing_match(src, c) < 0 || j < timing_match(src, c))
            implies saturating_diff((#[trigger] src[j]).pos(), c.pos()) >= 1000 by {
            if j < src.len() - 1 {
                assert(src[j] == src.drop_last()[j]);
            }
        }
    }
}

/// The clip `c` of a timing-dependent track after its source track changed: it takes
/// the position and duration of the matching source clip, if there is one.
pub open spec fn timing_adjusted(src: Seq<Clip>, c: Clip) -> Clip {
    let k = timing_match(src, c);
    if k >= 0 {
        Clip::make(c.cid(), c.asset(), src[k].pos(), src[k].dur(), c.src_start(), c.src_end())
    } else {
        c
    }
}

/// Each clip of `clips` adjusted to the timing of `src`.
pub open spec fn timing_adjusted_all(src: Seq<Clip>, clips: Seq<Clip>) -> Seq<Clip> {
    clips.map_values(|c: Clip| timing_adjusted(src, c))
}

/// Finds the first clip of `src` that starts less than a second after `c`.
pub(crate) fn find_timing_match(src: &Vec<Clip>, c: &Clip) -> (r: Option<usize>)
    ensures
        match r {
            Some(i) => timing_match(src@, *c) == i && i < src@.len(),
            None => timing_match(src@, *c) == -1,
        },
{
    proof {
        lemma_timing_match(src@, *c);
    }
    let start = c.position().as_millis();
    let mut i: usize = 0;
    while i < src.len()
        invariant
            0 <= i <= src.len(),
            start == c.pos(),
            forall|j: int| 0 <= j < i ==> saturating_diff((#[trigger] src@[j]).pos(), c.pos()) >= 1000,
        decreases src.len() - i,
    {
        let p = src[i].position().as_millis();
        let gap: u64 = if p > start { p - start } else { 0 };
        if gap < 1000 {
            proof {
                lemma_timing_match(src@, *c);
                let k = timing_match(src@, *c);
                if k >= 0 && k < i {
                    assert(saturating_diff(src@[k].pos(), c.pos()) < 1000);
                }
            }
            return Some(i);
        }
        i = i + 1;
    }
    None
}

/// The target track after synchronising it with the locked source track: it takes
/// the locked state, and the mute state too when both are audio tracks.
pub open spec fn locked_sync(src: TrackView, tgt: TrackView) -> TrackView {
    TrackView {
        locked: src.locked,
        muted: if src.kind == TrackKind::Audio && tgt.kind == TrackKind::Audio { src.muted } else { tgt.muted },
        ..tgt
    }
}

/// The target track after a visibility change of its source track: it takes the
/// mute state when both are video tracks or when the source is an audio track.
pub open spec fn visibility_sync(src: TrackView, tgt: TrackView) -> TrackView {
    TrackView {
        muted: if (src.kind == TrackKind::Video && tgt.kind == TrackKind::Video) || src.kind == TrackKind::Audio {
            src.muted
        } else {
            tgt.muted
        },
        ..tgt
    }
}

/// The target track after a timing change of its source track: when the source
/// has clips, each target clip takes the timing of its matching source clip.
pub open spec fn timing_sync(src: TrackView, tgt: TrackView) -> TrackView {
    if src.clips.len() == 0 {
        tgt
    } else {
        TrackView { clips: timing_adjusted_all(src.clips, tgt.clips), ..tgt }
    }
}

/// The kinds of synchronisation from a source track to a target track.
pub enum SyncKind {
    Locked,
    Visibility,
    Timing,
}

/// The target track `tgt` synchronised with `src` in the way `how`.
pub open spec fn sync_view(how: SyncKind, src: TrackView, tgt: TrackView) -> TrackView {
    match how {
        SyncKind::Locked => locked_sync(src, tgt),
        SyncKind::Visibility => visibility_sync(src, tgt),
        SyncKind::Timing => timing_sync(src, tgt),
    }
}

/// The timeline `v` after synchronising the track `target` with the track `source`
/// in the way `how`; unchanged when either track is missing.
pub open spec fn synced(v: TimelineView, source: TrackId, target: TrackId, how: SyncKind) -> TimelineView {
    let ks = track_index(v.tracks, source);
    let kt = track_index(v.tracks, target);
    if ks < 0 || kt < 0 {
        v
    } else {
        with_track(v, kt, sync_view(how, v.tracks[ks], v.tracks[kt]))
    }
}

impl MultiTrackManager {
    /// Synchronises the track `target_id` with the track `source_id` in the way `how`.
    fn sync_tracks(&self, source_id: TrackId, target_id: TrackId, timeline: &mut Timeline, how: SyncKind) -> (r:
        Result<(), MultiTrackError>)
        ensures
            track_index(old(timeline)@.tracks, source_id) < 0 ==> r == Err::<(), MultiTrackError>(
                MultiTrackError::TrackNotFound(source_id),
            ),
            track_index(old(timeline)@.tracks, source_id) >= 0 && track_index(old(timeline)@.tracks, target_id) < 0
                ==> r == Err::<(), MultiTrackError>(MultiTrackError::TrackNotFound(target_id)),
            track_index(old(timeline)@.tracks, source_id) >= 0 && track_index(old(timeline)@.tracks, target_id)
                >= 0 ==> r is Ok,
            final(timeline)@ == synced(old(timeline)@, source_id, target_id, how),
    {
        let ks = match timeline.track_position(source_id) {
            Some(k) => k,
            None => return Err(MultiTrackError::TrackNotFound(source_id)),
        };
        let kt = match timeline.track_position(target_id) {
            Some(k) => k,
            None => return Err(MultiTrackError::TrackNotFound(target_id)),
        };
        match how {
            SyncKind::Locked => {
                let src = timeline.track_at(ks);
                let locked = src.is_locked();
                let muted = src.is_muted();
                let kind = src.kind();
                let tgt = timeline.track_at(kt);
                let new_muted = if kind == TrackKind::Audio && tgt.kind() == TrackKind::Audio {
                    muted
                } else {
                    tgt.is_muted()
                };
                timeline.set_track_flags(kt, new_muted, locked);
            },
            SyncKind::Visibility => {
                let src = timeline.track_at(ks);
                let muted = src.is_muted();
                let kind = src.kind();
                let tgt = timeline.track_at(kt);
                let new_muted = if (kind == TrackKind::Video && tgt.kind() == TrackKind::Video) || kind
                    == TrackKind::Audio {
                    muted
                } else {
                    tgt.is_muted()
                };
                let locked = tgt.is_locked();
                timeline.set_track_flags(kt, new_muted, locked);
            },
            SyncKind::Timing => {
                let src = timeline.track_clips(ks);
                if src.len() == 0 {
                    assert(timeline@.tracks.update(kt as int, timeline@.tracks[kt as int]) =~= timeline@.tracks);
                    return Ok(());
                }
                timeline.adjust_track_timing(kt, &src);
            },
        }
        Ok(())
    }

    /// Carries a visibility change of the track `source_id` over to the track
    /// `target_id`, as their relationship asks: a visibility-dependent target takes
    /// the visibility, a locked one is synchronised; otherwise nothing changes.
    pub fn propagate_visibility_changes(&self, source_id: TrackId, target_id: TrackId, timeline: &mut Timeline)
        ensures
            final(timeline)@ == match relationship_of(self@, source_id, target_id) {
                Some(TrackRelationship::VisibilityDependent) => synced(
                    old(timeline)@,
                    source_id,
                    target_id,
                    SyncKind::Visibility,
                ),
                Some(TrackRelationship::Locked) => synced(old(timeline)@, source_id, target_id, SyncKind::Locked),
                _ => old(timeline)@,
            },
    {
        match self.get_relationship(source_id, target_id) {
            Some(TrackRelationship::VisibilityDependent) => {
                let _ = self.sync_tracks(source_id, target_id, timeline, SyncKind::Visibility);
            },
            Some(TrackRelationship::Locked) => {
                let _ = self.sync_tracks(source_id, target_id, timeline, SyncKind::Locked);
            },
            _ => {},
        }
    }

    /// Carries a timing change of the track `source_id` over to the track
    /// `target_id` when the target is timing-dependent or locked.
    pub fn propagate_timing_changes(&self, source_id: TrackId, target_id: TrackId, timeline: &mut Timeline)
        ensures
            final(timeline)@ == match relationship_of(self@, source_id, target_id) {
                Some(TrackRelationship::TimingDependent) | Some(TrackRelationship::Locked) => synced(
                    old(timeline)@,
                    source_id,
                    target_id,
                    SyncKind::Timing,
                ),
                _ => old(timeline)@,
            },
    {
        match self.get_relationship(source_id, target_id) {
            Some(TrackRelationship::TimingDependent) => {
                let _ = self.sync_tracks(source_id, target_id, timeline, SyncKind::Timing);
            },
            Some(TrackRelationship::Locked) => {
                let _ = self.sync_tracks(source_id, target_id, timeline, SyncKind::Timing);
            },
            _ => {},
        }
    }

    /// Carries the edits of the track `source_id` over to the track `target_id`: a
    /// locked target is synchronised, then takes the timing and the visibility; a
    /// timing- or visibility-dependent target takes that alone.
    pub fn propagate_edits(&self, source_id: TrackId, target_id: TrackId, timeline: &mut Timeline)
        ensures
            final(timeline)@ == match relationship_of(self@, source_id, target_id) {
                Some(TrackRelationship::Locked) => synced(
                    synced(
                        synced(old(timeline)@, source_id, target_id, SyncKind::Locked),
                        source_id,
                        target_id,
                        SyncKind::Timing,
                    ),
                    source_id,
                    target_id,
                    SyncKind::Visibility,
                ),
                Some(TrackRelationship::TimingDependent) => synced(
                    old(timeline)@,
                    source_id,
                    target_id,
                    SyncKind::Timing,
                ),
                Some(TrackRelationship::VisibilityDependent) => synced(
                    old(timeline)@,
                    source_id,
                    target_id,
                    SyncKind::Visibility,
                ),
                _ => old(timeline)@,
            },
    {
        match self.get_relationship(source_id, target_id) {
            Some(TrackRelationship::Locked) => {
                let _ = self.sync_tracks(source_id, target_id, timeline, SyncKind::Locked);
                let _ = self.sync_tracks(source_id, target_id, timeline, SyncKind::Timing);
                let _ = self.sync_tracks(source_id, target_id, timeline, SyncKind::Visibility);
            },
            Some(TrackRelationship::TimingDependent) => {
                let _ = self.sync_tracks(source_id, target_id, timeline, SyncKind::Timing);
            },
            Some(TrackRelationship::VisibilityDependent) => {
                let _ = self.sync_tracks(source_id, target_id, timeline, SyncKind::Visibility);
            },
            _ => {},
        }
    }
}

/// How a track is brought in line with a track it depends on, by the kind of
/// their relationship (not at all for an independent one).
pub open spec fn sync_for(r: TrackRelationship) -> Option<SyncKind> {
    match r {
        TrackRelationship::Locked => Some(SyncKind::Locked),
        TrackRelationship::TimingDependent => Some(SyncKind::Timing),
        TrackRelationship::VisibilityDependent => Some(SyncKind::Visibility),
        TrackRelationship::Independent => None,
    }
}

/// The error of synchronising the track `target` with the track `source` in `v`:
/// a missing source first, then a missing target.
pub open spec fn sync_fault(v: TimelineView, source: TrackId, target: TrackId) -> Option<MultiTrackError> {
    if track_index(v.tracks, source) < 0 {
        Some(MultiTrackError::TrackNotFound(source))
    } else if track_index(v.tracks, target) < 0 {
        Some(MultiTrackError::TrackNotFound(target))
    } else {
        None
    }
}

/// What spreading a change over related tracks gives: success or the first error,
/// the timeline, and the tracks reached, in the order they were reached.
pub struct Spread {
    pub result: Result<(), MultiTrackError>,
    pub timeline: TimelineView,
    pub reached: Seq<TrackId>,
}

/// Spreading a change of the track `t` in `v`, with the tracks `seen` already
/// reached: each track `s` with a relationship to `t` that was not reached yet
/// is reached, `t` is synchronised with `s` as their relationship says, and the
/// change spreads on from `s`; an independent `s` is reached and nothing more.
/// The first failure stops the spreading. `fuel` bounds how deep it goes.
pub open spec fn spread(es: Seq<Edge>, t: TrackId, v: TimelineView, seen: Seq<TrackId>, fuel: nat) -> Spread
    decreases fuel, dependents(es, t).len() + 1,
{
    if fuel == 0 {
        Spread { result: Ok(()), timeline: v, reached: seen }
    } else {
        spread_each(es, t, dependents(es, t), v, seen, fuel)
    }
}

/// Spreading a change of the track `t` over the tracks `ds`, in order (see `spread`).
pub open spec fn spread_each(
    es: Seq<Edge>,
    t: TrackId,
    ds: Seq<TrackId>,
    v: TimelineView,
    seen: Seq<TrackId>,
    fuel: nat,
) -> Spread
    decreases fuel, ds.len(),
{
    if fuel == 0 || ds.len() == 0 {
        Spread { result: Ok(()), timeline: v, reached: seen }
    } else {
        let s = ds[0];
        let rest = ds.drop_first();
        if seen.contains(s) {
            spread_each(es, t, rest, v, seen, fuel)
        } else {
            let seen2 = seen.push(s);
            let rel = match relationship_of(es, s, t) {
                Some(r) => r,
                None => TrackRelationship::Independent,
            };
            match sync_for(rel) {
                None => spread_each(es, t, rest, v, seen2, fuel),
                Some(how) => match sync_fault(v, s, t) {
                    Some(e) => Spread { result: Err(e), timeline: v, reached: seen2 },
                    None => {
                        let inner = spread(es, s, synced(v, s, t, how), seen2, (fuel - 1) as nat);
                        if inner.result is Err {
                            inner
                        } else {
                            spread_each(es, t, rest, inner.timeline, inner.reached, fuel)
                        }
                    },
                },
            }
        }
    }
}

/// The number of relationships of `es` whose source is not among `seen`.
pub open spec fn pending_edges(es: Seq<Edge>, seen: Seq<TrackId>) -> nat
    decreases es.len(),
{
    if es.len() == 0 {
        0
    } else {
        pending_edges(es.drop_last(), seen) + if seen.contains(es.last().0) {
            0nat
        } else {
            1nat
        }
    }
}

proof fn lemma_pending_edges_bound(es: Seq<Edge>, seen: Seq<TrackId>)
    ensures
        pending_edges(es, seen) <= es.len(),
    decreases es.len(),
{
    if es.len() > 0 {
        lemma_pending_edges_bound(es.drop_last(), seen);
    }
}

/// Reaching more tracks leaves no more relationships pending_edges.
proof fn lemma_pending_edges_mono(es: Seq<Edge>, a: Seq<TrackId>, b: Seq<TrackId>)
    requires
        forall|x: TrackId| a.contains(x) ==> b.contains(x),
    ensures
        pending_edges(es, b) <= pending_edges(es, a),
    decreases es.len(),
{
    if es.len() > 0 {
        lemma_pending_edges_mono(es.drop_last(), a, b);
    }
}

/// Reaching a new source of a relationship leaves fewer relationships pending_edges.
proof fn lemma_pending_edges_strict(es: Seq<Edge>, seen: Seq<TrackId>, s: TrackId, i: int)
    requires
        !seen.contains(s),
        0 <= i < es.len(),
        es[i].0 == s,
    ensures
        pending_edges(es, seen.push(s)) < pending_edges(es, seen),
    decreases es.len(),
{
    assert forall|x: TrackId| seen.contains(x) implies seen.push(s).contains(x) by {
        let j = choose|j: int| 0 <= j < seen.len() && seen[j] == x;
        assert(seen.push(s)[j] == x);
    }
    assert(seen.push(s).contains(s)) by {
        assert(seen.push(s)[seen.len() as int] == s);
    }
    if i == es.len() - 1 {
        lemma_pending_edges_mono(es.drop_last(), seen, seen.push(s));
    } else {
        assert(es.drop_last()[i] == es[i]);
        lemma_pending_edges_strict(es.drop_last(), seen, s, i);
    }
}

/// Every track in `dependents(es, t)` is the source of a relationship of `es`.
proof fn lemma_dependents_sources(es: Seq<Edge>, t: TrackId, k: int)
    requires
        0 <= k < dependents(es, t).len(),
    ensures
        exists|i: int| 0 <= i < es.len() && es[i].0 == dependents(es, t)[k],
    decreases es.len(),
{
    let d = es.drop_last();
    if k < dependents(d, t).len() {
        lemma_dependents_sources(d, t, k);
        let i = choose|i: int| 0 <= i < d.len() && d[i].0 == dependents(d, t)[k];
        assert(es[i] == d[i]);
    } else {
        assert(es[es.len() - 1].0 == dependents(es, t)[k]);
    }
}

/// Spreading only adds to the tracks reached.
proof fn lemma_spread_grows(es: Seq<Edge>, t: TrackId, v: TimelineView, seen: Seq<TrackId>, fuel: nat)
    ensures
        forall|x: TrackId| seen.contains(x) ==> spread(es, t, v, seen, fuel).reached.contains(x),
    decreases fuel, dependents(es, t).len() + 1,
{
    if fuel > 0 {
        lemma_spread_each_grows(es, t, dependents(es, t), v, seen, fuel);
    }
}

proof fn lemma_spread_each_grows(
    es: Seq<Edge>,
    t: TrackId,
    ds: Seq<TrackId>,
    v: TimelineView,
    seen: Seq<TrackId>,
    fuel: nat,
)
    ensures
        forall|x: TrackId| seen.contains(x) ==> spread_each(es, t, ds, v, seen, fuel).reached.contains(x),
    decreases fuel, ds.len(),
{
    if fuel > 0 && ds.len() > 0 {
        let s = ds[0];
        let rest = ds.drop_first();
        if seen.contains(s) {
            lemma_spread_each_grows(es, t, rest, v, seen, fuel);
        } else {
            let seen2 = seen.push(s);
            assert forall|x: TrackId| seen.contains(x) implies seen2.contains(x) by {
                let j = choose|j: int| 0 <= j < seen.len() && seen[j] == x;
                assert(seen2[j] == x);
            }
            let rel = match relationship_of(es, s, t) {
                Some(r) => r,
                None => TrackRelationship::Independent,
            };
            match sync_for(rel) {
                None => lemma_spread_each_grows(es, t, rest, v, seen2, fuel),
                Some(how) => match sync_fault(v, s, t) {
                    Some(e) => {},
                    None => {
                        let inner = spread(es, s, synced(v, s, t, how), seen2, (fuel - 1) as nat);
                        lemma_spread_grows(es, s, synced(v, s, t, how), seen2, (fuel - 1) as nat);
                        if inner.result is Ok {
                            lemma_spread_each_grows(es, t, rest, inner.timeline, inner.reached, fuel);
                        }
                    },
                },
            }
        }
    }
}

/// Spreading keeps the tracks already reached first, in order, and reaches no
/// track twice.
proof fn lemma_spread_shape(es: Seq<Edge>, t: TrackId, v: TimelineView, seen: Seq<TrackId>, fuel: nat)
    requires
        seen.no_duplicates(),
    ensures
        spread(es, t, v, seen, fuel).reached.len() >= seen.len(),
        spread(es, t, v, seen, fuel).reached.take(seen.len() as int) == seen,
        spread(es, t, v, seen, fuel).reached.no_duplicates(),
    decreases fuel, dependents(es, t).len() + 1,
{
    if fuel > 0 {
        lemma_spread_each_shape(es, t, dependents(es, t), v, seen, fuel);
    } else {
        assert(seen.take(seen.len() as int) =~= seen);
    }
}

proof fn lemma_spread_each_shape(
    es: Seq<Edge>,
    t: TrackId,
    ds: Seq<TrackId>,
    v: TimelineView,
    seen: Seq<TrackId>,
    fuel: nat,
)
    requires
        seen.no_duplicates(),
    ensures
        spread_each(es, t, ds, v, seen, fuel).reached.len() >= seen.len(),
        spread_each(es, t, ds, v, seen, fuel).reached.take(seen.len() as int) == seen,
        spread_each(es, t, ds, v, seen, fuel).reached.no_duplicates(),
    decreases fuel, ds.len(),
{
    if fuel == 0 || ds.len() == 0 {
        assert(seen.take(seen.len() as int) =~= seen);
    } else {
        let s = ds[0];
        let rest = ds.drop_first();
        if seen.contains(s) {
            lemma_spread_each_shape(es, t, rest, v, seen, fuel);
        } else {
            let seen2 = seen.push(s);
            assert(seen2.no_duplicates()) by {
                assert forall|i: int, j: int| 0 <= i < seen2.len() && 0 <= j < seen2.len() && i != j implies seen2[i]
                    != seen2[j] by {
                    if i < seen.len() && j < seen.len() {
                    } else if i < seen.len() {
                        assert(seen2[i] == seen[i]);
                    } else if j < seen.len() {
                        assert(seen2[j] == seen[j]);
                    }
                }
            }
            assert(seen2.take(seen.len() as int) =~= seen);
            let rel = match relationship_of(es, s, t) {
                Some(r) => r,
                None => TrackRelationship::Independent,
            };
            match sync_for(rel) {
                None => {
                    lemma_spread_each_shape(es, t, rest, v, seen2, fuel);
                    let out = spread_each(es, t, rest, v, seen2, fuel).reached;
                    assert(out.take(seen.len() as int) =~= out.take(seen2.len() as int).take(seen.len() as int));
                },
                Some(how) => match sync_fault(v, s, t) {
                    Some(e) => {},
                    None => {
                        let inner = spread(es, s, synced(v, s, t, how), seen2, (fuel - 1) as nat);
                        lemma_spread_shape(es, s, synced(v, s, t, how), seen2, (fuel - 1) as nat);
                        assert(inner.reached.take(seen.len() as int) =~= inner.reached.take(seen2.len() as int).take(
                            seen.len() as int,
                        ));
                        if inner.result is Ok {
                            lemma_spread_each_shape(es, t, rest, inner.timeline, inner.reached, fuel);
                            let out = spread_each(es, t, rest, inner.timeline, inner.reached, fuel).reached;
                            assert(out.take(seen.len() as int) =~= out.take(inner.reached.len() as int).take(
                                seen.len() as int,
                            ));
                        }
                    },
                },
            }
        }
    }
}

/// Whether `v` holds `x`.
fn contains_track(v: &Vec<TrackId>, x: TrackId) -> (b: bool)
    ensures
        b == v@.contains(x),
{
    let mut i: usize = 0;
    while i < v.len()
        invariant
            0 <= i <= v.len(),
            forall|j: int| 0 <= j < i ==> v@[j] != x,
        decreases v.len() - i,
    {
        if v[i] == x {
            assert(v@[i as int] == x);
            return true;
        }
        i = i + 1;
    }
    false
}

impl MultiTrackManager {
    /// Spreads a change of the track `t` over the tracks related to it (see
    /// `spread`), adding the tracks reached to `reached`.
    fn spread_from(
        &self,
        t: TrackId,
        timeline: &mut Timeline,
        reached: &mut Vec<TrackId>,
        Ghost(fuel): Ghost<nat>,
    ) -> (r: Result<(), MultiTrackError>)
        requires
            pending_edges(self@, old(reached)@) < fuel,
        ensures
            ({
                let sp = spread(self@, t, old(timeline)@, old(reached)@, fuel);
                &&& r == sp.result
                &&& final(timeline)@ == sp.timeline
                &&& final(reached)@ == sp.reached
            }),
        decreases fuel,
    {
        let ghost es = self@;
        let ghost total = spread(es, t, timeline@, reached@, fuel);
        let ds = self.get_dependent_tracks(t);
        assert(ds@.skip(0) =~= ds@);
        let mut i: usize = 0;
        while i < ds.len()
            invariant
                es == self@,
                ds@ == dependents(es, t),
                0 <= i <= ds.len(),
                fuel > 0,
                pending_edges(es, reached@) < fuel,
                total == spread(es, t, old(timeline)@, old(reached)@, fuel),
                spread_each(es, t, ds@.skip(i as int), timeline@, reached@, fuel) == total,
            decreases ds.len() - i,
        {
            let s = ds[i];
            let ghost seen = reached@;
            let ghost v = timeline@;
            assert(ds@.skip(i as int)[0] == s);
            assert(ds@.skip(i as int).drop_first() =~= ds@.skip(i + 1));
            if contains_track(reached, s) {
                i = i + 1;
                continue;
            }
            reached.push(s);
            proof {
                lemma_dependents_sources(es, t, i as int);
                let j = choose|j: int| 0 <= j < es.len() && es[j].0 == dependents(es, t)[i as int];
                lemma_pending_edges_strict(es, seen, s, j);
            }
            let rel = match self.get_relationship(s, t) {
                Some(r) => r,
                None => TrackRelationship::Independent,
            };
            let how = match rel {
                TrackRelationship::Locked => SyncKind::Locked,
                TrackRelationship::TimingDependent => SyncKind::Timing,
                TrackRelationship::VisibilityDependent => SyncKind::Visibility,
                TrackRelationship::Independent => {
                    i = i + 1;
                    continue;
                },
            };
            assert(sync_for(rel) == Some(how));
            assert(rel == (match relationship_of(es, s, t) {
                Some(r) => r,
                None => TrackRelationship::Independent,
            }));
            match self.sync_tracks(s, t, timeline, how) {
                Ok(()) => {},
                Err(e) => {
                    assert(sync_fault(v, s, t) == Some(e));
                    assert(timeline@ == v);
                    assert(reached@ == seen.push(s));
                    return Err(e);
                },
            }
            assert(sync_fault(v, s, t) is None);
            let ghost seen2 = reached@;
            let ghost v2 = timeline@;
            assert(seen2 == seen.push(s));
            assert(v2 == synced(v, s, t, how));
            let ghost inner = spread(es, s, v2, seen2, (fuel - 1) as nat);
            match self.spread_from(s, timeline, reached, Ghost((fuel - 1) as nat)) {
                Ok(()) => {},
                Err(e) => {
                    assert(inner.result is Err);
                    assert(total == inner);
                    return Err(e);
                },
            }
            proof {
                lemma_spread_grows(es, s, v2, seen2, (fuel - 1) as nat);
                lemma_pending_edges_mono(es, seen2, reached@);
            }
            i = i + 1;
        }
        assert(ds@.skip(ds.len() as int) =~= Seq::<TrackId>::empty());
        Ok(())
    }

    /// Spreads a change of the track `track_id` over the tracks related to it, as
    /// `spread` says, and returns the tracks reached: `track_id` first, then the
    /// others in the order they were reached. The first failure stops it; the
    /// tracks synchronised before it stay so.
    pub fn propagate_changes(&self, track_id: TrackId, timeline: &mut Timeline) -> (r: Result<
        Vec<TrackId>,
        MultiTrackError,
    >)
        ensures
            ({
                let sp = spread(self@, track_id, old(timeline)@, seq![track_id], (self@.len() + 1) as nat);
                &&& final(timeline)@ == sp.timeline
                &&& match r {
                    Ok(v) => sp.result is Ok && v@ == sp.reached,
                    Err(e) => sp.result == Err::<(), MultiTrackError>(e),
                }
            }),
            r matches Ok(v) ==> v@.len() >= 1 && v@[0] == track_id && v@.no_duplicates(),
    {
        proof {
            lemma_spread_shape(self@, track_id, timeline@, seq![track_id], (self@.len() + 1) as nat);
            let sp = spread(self@, track_id, timeline@, seq![track_id], (self@.len() + 1) as nat);
            assert(sp.reached[0] == sp.reached.take(1)[0]);
        }
        let mut reached: Vec<TrackId> = Vec::new();
        reached.push(track_id);
        assert(reached@ =~= seq![track_id]);
        proof {
            lemma_pending_edges_bound(self@, reached@);
        }
        match self.spread_from(track_id, timeline, &mut reached, Ghost((self@.len() + 1) as nat)) {
            Ok(()) => Ok(reached),
            Err(e) => Err(e),
        }
    }

    /// Applies `edit_fn` to the track `track_id`, then spreads the change over the
    /// tracks related to it (see `propagate_changes`) and returns the tracks
    /// reached. Fails when there is no such track, and with `InvalidTrackState`
    /// when the edit fails (the track keeps what the edit did).
    pub fn apply_edit<F>(&self, track_id: TrackId, edit_fn: F, timeline: &mut Timeline) -> (r: Result<
        Vec<TrackId>,
        MultiTrackError,
    >) where F: FnOnce(&mut Track) -> Result<(), String>
        requires
            forall|tr: &mut Track| #[trigger] call_requires(edit_fn, (tr,)),
        ensures
            track_index(old(timeline)@.tracks, track_id) < 0 ==> r == Err::<Vec<TrackId>, MultiTrackError>(
                MultiTrackError::TrackNotFound(track_id),
            ) && final(timeline)@ == old(timeline)@,
            track_index(old(timeline)@.tracks, track_id) >= 0 ==> exists|tr: &mut Track, res: Result<(), String>|
                {
                    let k = track_index(old(timeline)@.tracks, track_id);
                    let edited = with_track(old(timeline)@, k, (*final(tr))@);
                    let sp = spread(self@, track_id, edited, seq![track_id], (self@.len() + 1) as nat);
                    &&& (*tr)@ == old(timeline)@.tracks[k]
                    &&& #[trigger] call_ensures(edit_fn, (tr,), res)
                    &&& match res {
                        Err(m) => r == Err::<Vec<TrackId>, MultiTrackError>(
                            MultiTrackError::InvalidTrackState(track_id, m),
                        ) && final(timeline)@ == edited,
                        Ok(()) => final(timeline)@ == sp.timeline && match r {
                            Ok(v) => sp.result is Ok && v@ == sp.reached,
                            Err(e) => sp.result == Err::<(), MultiTrackError>(e),
                        },
                    }
                },
            r matches Ok(v) ==> v@.len() >= 1 && v@[0] == track_id && v@.no_duplicates(),
    {
        let k = match timeline.track_position(track_id) {
            Some(k) => k,
            None => return Err(MultiTrackError::TrackNotFound(track_id)),
        };
        let placeholder = Track::new(track_id, TrackKind::Video);
        let mut track = timeline.swap_track_at(k, placeholder);
        let ghost before = track@;
        let res = edit_fn(&mut track);
        let ghost after = track@;
        let _ = timeline.swap_track_at(k, track);
        assert(timeline@.tracks =~= old(timeline)@.tracks.update(k as int, after));
        assert(timeline@ == with_track(old(timeline)@, k as int, after));
        match res {
            Err(error) => Err(MultiTrackError::InvalidTrackState(track_id, error)),
            Ok(()) => self.propagate_changes(track_id, timeline),
        }
    }
}

/// Removing the relationship from `a` to `b` changes nothing when there is none.
pub proof fn lemma_without_edge_absent(es: Seq<Edge>, a: TrackId, b: TrackId)
    requires
        edge_index(es, a, b) < 0,
    ensures
        without_edge(es, a, b) == es,
    decreases es.len(),
{
    lemma_edge_index(es, a, b);
    if es.len() > 0 {
        let d = es.drop_last();
        lemma_edge_index(d, a, b);
        if edge_index(d, a, b) >= 0 {
            assert(es[edge_index(d, a, b)] == d[edge_index(d, a, b)]);
        }
        lemma_without_edge_absent(d, a, b);
        assert(es.last() == es[es.len() - 1]);
        assert(d.push(es.last()) =~= es);
    }
}

/// Removing the relationships of a track that takes part in none changes nothing.
pub proof fn lemma_without_track_absent(es: Seq<Edge>, t: TrackId)
    requires
        forall|i: int| 0 <= i < es.len() ==> (#[trigger] es[i]).0 != t && es[i].1 != t,
    ensures
        without_track(es, t) == es,
    decreases es.len(),
{
    if es.len() > 0 {
        let d = es.drop_last();
        assert forall|i: int| 0 <= i < d.len() implies (#[trigger] d[i]).0 != t && d[i].1 != t by {
            assert(d[i] == es[i]);
        }
        lemma_without_track_absent(d, t);
        assert(es.last() == es[es.len() - 1]);
        assert(d.push(es.last()) =~= es);
    }
}

/// Whether a relationship of `es` links `a` to `b`.
pub open spec fn has_pair(es: Seq<Edge>, a: TrackId, b: TrackId) -> bool {
    exists|i: int| 0 <= i < es.len() && (#[trigger] es[i]).0 == a && es[i].1 == b
}

proof fn lemma_pairs_unique_push(r: Seq<Edge>, e: Edge)
    requires
        pairs_unique(r),
        !has_pair(r, e.0, e.1),
    ensures
        pairs_unique(r.push(e)),
{
    let q = r.push(e);
    assert forall|i: int, j: int|
        0 <= i < q.len() && 0 <= j < q.len() && i != j implies !((#[trigger] q[i]).0 == (
        #[trigger] q[j]).0 && q[i].1 == q[j].1) by {
        if i == q.len() - 1 {
            assert(q[j] == r[j]);
        } else if j == q.len() - 1 {
            assert(q[i] == r[i]);
        } else {
            assert(q[i] == r[i] && q[j] == r[j]);
        }
    }
}

proof fn lemma_without_track_pairs_unique(es: Seq<Edge>, t: TrackId)
    requires
        pairs_unique(es),
    ensures
        pairs_unique(without_track(es, t)),
        forall|a: TrackId, b: TrackId| has_pair(without_track(es, t), a, b) ==> has_pair(es, a, b),
    decreases es.len(),
{
    if es.len() > 0 {
        let d = es.drop_last();
        assert(pairs_unique(d)) by {
            assert forall|i: int, j: int| 0 <= i < d.len() && 0 <= j < d.len() && i != j
                implies !((#[trigger] d[i]).0 == (#[trigger] d[j]).0 && d[i].1 == d[j].1) by {
                assert(d[i] == es[i] && d[j] == es[j]);
            }
        }
        lemma_without_track_pairs_unique(d, t);
        let r = without_track(d, t);
        let e = es.last();
        assert forall|a: TrackId, b: TrackId| has_pair(d, a, b) implies has_pair(es, a, b) by {
            let i = choose|i: int| 0 <= i < d.len() && (#[trigger] d[i]).0 == a && d[i].1 == b;
            assert(es[i] == d[i]);
        }
        if !(e.0 == t || e.1 == t) {
            if has_pair(r, e.0, e.1) {
                assert(has_pair(d, e.0, e.1));
                let i = choose|i: int| 0 <= i < d.len() && (#[trigger] d[i]).0 == e.0 && d[i].1 == e.1;
                assert(es[i] == d[i]);
                assert(es[es.len() - 1] == e);
            }
            lemma_pairs_unique_push(r, e);
            assert forall|a: TrackId, b: TrackId| has_pair(r.push(e), a, b) implies has_pair(es, a, b) by {
                let i = choose|i: int| 0 <= i < r.push(e).len() && (#[trigger] r.push(e)[i]).0 == a && r.push(e)[i].1 == b;
                if i < r.len() {
                    assert(r.push(e)[i] == r[i]);
                    assert(has_pair(r, a, b));
                } else {
                    assert(es[es.len() - 1] == e);
                }
            }
        }
    }
}

proof fn lemma_without_edge_pairs_unique(es: Seq<Edge>, x: TrackId, y: TrackId)
    requires
        pairs_unique(es),
    ensures
        pairs_unique(without_edge(es, x, y)),
        forall|a: TrackId, b: TrackId| has_pair(without_edge(es, x, y), a, b) ==> has_pair(es, a, b),
    decreases es.len(),
{
    if es.len() > 0 {
        let d = es.drop_last();
        assert(pairs_unique(d)) by {
            assert forall|i: int, j: int| 0 <= i < d.len() && 0 <= j < d.len() && i != j
                implies !((#[trigger] d[i]).0 == (#[trigger] d[j]).0 && d[i].1 == d[j].1) by {
                assert(d[i] == es[i] && d[j] == es[j]);
            }
        }
        lemma_without_edge_pairs_unique(d, x, y);
        let r = without_edge(d, x, y);
        let e = es.last();
        assert forall|a: TrackId, b: TrackId| has_pair(d, a, b) implies has_pair(es, a, b) by {
            let i = choose|i: int| 0 <= i < d.len() && (#[trigger] d[i]).0 == a && d[i].1 == b;
            assert(es[i] == d[i]);
        }
        if !(e.0 == x && e.1 == y) {
            if has_pair(r, e.0, e.1) {
                assert(has_pair(d, e.0, e.1));
                let i = choose|i: int| 0 <= i < d.len() && (#[trigger] d[i]).0 == e.0 && d[i].1 == e.1;
                assert(es[i] == d[i]);
                assert(es[es.len() - 1] == e);
            }
            lemma_pairs_unique_push(r, e);
            assert forall|a: TrackId, b: TrackId| has_pair(r.push(e), a, b) implies has_pair(es, a, b) by {
                let i = choose|i: int| 0 <= i < r.push(e).len() && (#[trigger] r.push(e)[i]).0 == a && r.push(e)[i].1 == b;
                if i < r.len() {
                    assert(r.push(e)[i] == r[i]);
                    assert(has_pair(r, a, b));
                } else {
                    assert(es[es.len() - 1] == e);
                }
            }
        }
    }
}

} // verus!
