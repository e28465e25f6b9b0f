use vstd::prelude::*;

use crate::direction::{valid_step, Direction};
use crate::vec2::{abs, point_ok, FixedVec2};

verus! {

/// Most anchors a trace path may hold; keeps every length sum inside `u64`.
pub const MAX_ANCHORS: usize = 0x10_0000;

/// Largest length of one segment, in grid steps, between two legal points.
pub const MAX_SEGMENT_STEPS: u64 = 0x400_0000_0000;

/// A vertex of a trace polyline. Where `start_layer` and `end_layer` differ
/// the anchor carries a via between them.
#[derive(Debug, Clone, Copy, PartialEq, Eq, Structural, Hash, PartialOrd, Ord)]
pub struct TraceAnchor {
    pub position: FixedVec2,
    pub start_layer: usize,
    pub end_layer: usize,
}

/// The turning points of a trace, start and end included.
#[derive(Debug, Clone)]
pub struct TraceAnchors(pub Vec<TraceAnchor>);

/// A straight piece of copper on one layer. Widths are in grid units.
#[derive(Debug, Clone, Copy, PartialEq, Eq, Structural)]
pub struct TraceSegment {
    pub start: FixedVec2,
    pub end: FixedVec2,
    pub width: u64,
    pub clearance: u64,
    pub layer: usize,
}

/// A vertical conductor through the layers `min_layer..=max_layer`.
#[derive(Debug, Clone, Copy, PartialEq, Eq, Structural)]
pub struct Via {
    pub position: FixedVec2,
    pub diameter: u64,
    pub clearance: u64,
    pub min_layer: usize,
    pub max_layer: usize,
}

/// An exact trace length: `straight + diagonal * sqrt(2)` grid steps.
#[derive(Debug, Clone, Copy, PartialEq, Eq, Structural)]
pub struct PathLength {
    pub straight: u64,
    pub diagonal: u64,
}

#[derive(Debug, Clone)]
pub struct TracePath {
    pub anchors: TraceAnchors,
    pub segments: Vec<TraceSegment>,
    pub vias: Vec<Via>,
    pub total_length: PathLength,
}

/// Straight grid steps of the segment from `p` to `q`.
pub open spec fn seg_straight(p: FixedVec2, q: FixedVec2) -> int {
    let dx = q.x - p.x;
    let dy = q.y - p.y;
    if dx != 0 && dy != 0 { 0 } else { abs(dx) + abs(dy) }
}

/// Diagonal grid steps of the segment from `p` to `q`.
pub open spec fn seg_diagonal(p: FixedVec2, q: FixedVec2) -> int {
    let dx = q.x - p.x;
    let dy = q.y - p.y;
    if dx != 0 && dy != 0 { abs(dx) } else { 0 }
}

pub open spec fn len_straight(a: Seq<TraceAnchor>) -> int
    decreases a.len(),
{
    if a.len() < 2 {
        0
    } else {
        len_straight(a.drop_last()) + seg_straight(a[a.len() - 2].position, a.last().position)
    }
}

pub open spec fn len_diagonal(a: Seq<TraceAnchor>) -> int
    decreases a.len(),
{
    if a.len() < 2 {
        0
    } else {
        len_diagonal(a.drop_last()) + seg_diagonal(a[a.len() - 2].position, a.last().position)
    }
}

/// `x` is no longer than `y`. As 1 < sqrt(2) < 2, both inequalities
/// together give `x.0 + x.1 * sqrt(2) <= y.0 + y.1 * sqrt(2)`.
pub open spec fn length_le(x: (int, int), y: (int, int)) -> bool {
    x.0 + x.1 <= y.0 + y.1 && x.0 + 2 * x.1 <= y.0 + 2 * y.1
}

pub open spec fn anchors_length(a: Seq<TraceAnchor>) -> (int, int) {
    (len_straight(a), len_diagonal(a))
}

pub open spec fn link_ok(a: TraceAnchor, b: TraceAnchor) -> bool {
    a.end_layer == b.start_layer && valid_step(a.position, b.position)
}

/// Consecutive anchors share a layer and form a legal straight step; no
/// anchor leaves the coordinate range.
pub open spec fn anchors_ok(a: Seq<TraceAnchor>) -> bool {
    &&& 1 <= a.len() <= MAX_ANCHORS
    &&& forall|i: int| 0 <= i < a.len() ==> point_ok(#[trigger] a[i].position)
    &&& forall|i: int| 0 <= i < a.len() - 1 ==> link_ok(#[trigger] a[i], a[i + 1])
}

pub open spec fn via_at(a: TraceAnchor, diameter: u64, clearance: u64) -> Via {
    Via {
        position: a.position,
        diameter,
        clearance,
        min_layer: if a.start_layer <= a.end_layer { a.start_layer } else { a.end_layer },
        max_layer: if a.start_layer <= a.end_layer { a.end_layer } else { a.start_layer },
    }
}

/// The vias that a list of anchors induces, in order: one at each anchor
/// whose start and end layers differ.
pub open spec fn vias_of(a: Seq<TraceAnchor>, diameter: u64, clearance: u64) -> Seq<Via>
    decreases a.len(),
{
    if a.len() == 0 {
        Seq::empty()
    } else {
        let rest = vias_of(a.drop_last(), diameter, clearance);
        if a.last().start_layer != a.last().end_layer {
            rest.push(via_at(a.last(), diameter, clearance))
        } else {
            rest
        }
    }
}

pub open spec fn segment_at(a: Seq<TraceAnchor>, i: int, width: u64, clearance: u64) -> TraceSegment {
    TraceSegment {
        start: a[i].position,
        end: a[i + 1].position,
        width,
        clearance,
        layer: a[i].end_layer,
    }
}

impl TracePath {
    /// The path is consistent with its anchors: segment `i` joins anchors `i`
    /// and `i + 1` on `anchors[i].end_layer == anchors[i + 1].start_layer`,
    /// the vias stand exactly at the anchors that change layer, and the total
    /// length is the length of the polyline.
    pub open spec fn consistent(&self, width: u64, clearance: u64, via_diameter: u64) -> bool {
        let a = self.anchors.0@;
        &&& anchors_ok(a)
        &&& self.segments@.len() == a.len() - 1
        &&& forall|i: int|
            0 <= i < a.len() - 1 ==> #[trigger] self.segments@[i] == segment_at(a, i, width, clearance)
        &&& self.vias@ == vias_of(a, via_diameter, clearance)
        &&& self.total_length.straight == len_straight(a)
        &&& self.total_length.diagonal == len_diagonal(a)
    }
}

/// Each segment of a legal path has at most `MAX_SEGMENT_STEPS` steps.
pub proof fn lemma_length_bound(a: Seq<TraceAnchor>)
    requires
        forall|i: int| 0 <= i < a.len() ==> point_ok(#[trigger] a[i].position),
    ensures
        0 <= len_straight(a) <= a.len() * MAX_SEGMENT_STEPS,
        0 <= len_diagonal(a) <= a.len() * MAX_SEGMENT_STEPS,
    decreases a.len(),
{
    if a.len() >= 2 {
        let b = a.drop_last();
        assert forall|i: int| 0 <= i < b.len() implies point_ok(#[trigger] b[i].position) by {
            assert(b[i] == a[i]);
        }
        lemma_length_bound(b);
        assert(point_ok(a[a.len() - 2].position));
        assert(point_ok(a[a.len() - 1].position));
    }
}

/// Straight and diagonal step counts of one segment.
fn segment_steps(p: FixedVec2, q: FixedVec2) -> (r: (u64, u64))
    requires
        point_ok(p),
        point_ok(q),
    ensures
        r.0 == seg_straight(p, q),
        r.1 == seg_diagonal(p, q),
{
    let dx = q.x - p.x;
    let dy = q.y - p.y;
    let adx: u64 = if dx < 0 { (-dx) as u64 } else { dx as u64 };
    let ady: u64 = if dy < 0 { (-dy) as u64 } else { dy as u64 };
    if dx != 0 && dy != 0 {
        (0, adx)
    } else {
        (adx + ady, 0)
    }
}

/// The exact length of the polyline through `anchors`.
pub fn anchors_length_of(anchors: &Vec<TraceAnchor>) -> (r: PathLength)
    requires
        anchors@.len() <= MAX_ANCHORS,
        forall|i: int| 0 <= i < anchors@.len() ==> point_ok(#[trigger] anchors@[i].position),
    ensures
        r.straight == len_straight(anchors@),
        r.diagonal == len_diagonal(anchors@),
{
    let a = Ghost(anchors@);
    if anchors.len() == 0 {
        return PathLength { straight: 0, diagonal: 0 };
    }
    assert(len_straight(a@.subrange(0, 1)) == 0);
    assert(len_diagonal(a@.subrange(0, 1)) == 0);
    let mut s: u64 = 0;
    let mut d: u64 = 0;
    let mut i: usize = 1;
    while i < anchors.len()
        invariant
            a@ == anchors@,
            a@.len() <= MAX_ANCHORS,
            forall|k: int| 0 <= k < a@.len() ==> point_ok(#[trigger] a@[k].position),
            1 <= i,
            i <= a@.len(),
            s == len_straight(a@.subrange(0, i as int)),
            d == len_diagonal(a@.subrange(0, i as int)),
        decreases anchors.len() - i,
    {
        let ghost pre = a@.subrange(0, i as int);
        let ghost cur = a@.subrange(0, i + 1);
        assert(cur.drop_last() =~= pre);
        proof {
            lemma_length_bound(cur);
            assert(point_ok(a@[i as int].position));
            assert(point_ok(a@[i - 1].position));
        }
        let (ds, dd) = segment_steps(anchors[i - 1].position, anchors[i].position);
        s = s + ds;
        d = d + dd;
        i = i + 1;
    }
    assert(a@.subrange(0, i as int) =~= a@);
    PathLength { straight: s, diagonal: d }
}

/// Builds the trace path through `anchors`: its segments, its vias and its
/// length.
pub fn anchor_to_tracepath(anchors: Vec<TraceAnchor>, width: u64, clearance: u64, via_diameter: u64) -> (r:
    TracePath)
    requires
        anchors_ok(anchors@),
    ensures
        r.anchors.0@ == anchors@,
        r.consistent(width, clearance, via_diameter),
{
    let n = anchors.len();
    let mut segments: Vec<TraceSegment> = Vec::new();
    let mut vias: Vec<Via> = Vec::new();
    let mut i: usize = 0;
    while i < n
        invariant
            n == anchors@.len(),
            anchors_ok(anchors@),
            i <= n,
            segments@.len() == if i == 0 { 0 } else { i - 1 },
            forall|k: int| 0 <= k < segments@.len() ==> #[trigger] segments@[k] == segment_at(anchors@, k, width, clearance),
            vias@ == vias_of(anchors@.subrange(0, i as int), via_diameter, clearance),
        decreases n - i,
    {
        let anchor = anchors[i];
        if i > 0 {
            let prev = anchors[i - 1];
            segments.push(TraceSegment {
                start: prev.position,
                end: anchor.position,
                width,
                clearance,
                layer: prev.end_layer,
            });
        }
        assert(anchors@.subrange(0, i + 1).drop_last() =~= anchors@.subrange(0, i as int));
        if anchor.start_layer != anchor.end_layer {
            let lo = if anchor.start_layer <= anchor.end_layer { anchor.start_layer } else { anchor.end_layer };
            let hi = if anchor.start_layer <= anchor.end_layer { anchor.end_layer } else { anchor.start_layer };
            vias.push(Via { position: anchor.position, diameter: via_diameter, clearance, min_layer: lo, max_layer: hi });
        }
        i = i + 1;
    }
    assert(anchors@.subrange(0, n as int) =~= anchors@);
    let total_length = anchors_length_of(&anchors);
    TracePath { anchors: TraceAnchors(anchors), segments, vias, total_length }
}

impl TraceSegment {
    /// The direction from `start` to `end`, for a segment that joins two
    /// distinct points on one straight grid line.
    pub fn get_direction(&self) -> (r: Direction)
        requires
            point_ok(self.start),
            point_ok(self.end),
            valid_step(self.start, self.end),
        ensures
            r == crate::direction::step_dir(self.start, self.end),
    {
        match Direction::from_points(self.start, self.end) {
            Ok(d) => d,
            Err(_) => Direction::Up,
        }
    }
}

/// Every via of a path stands at one of its anchors, one that changes layer.
pub proof fn lemma_vias_at_anchors(a: Seq<TraceAnchor>, diameter: u64, clearance: u64)
    ensures
        forall|k: int|
            0 <= k < vias_of(a, diameter, clearance).len() ==> exists|j: int|
                0 <= j < a.len() && (#[trigger] vias_of(a, diameter, clearance)[k]).position == (
                #[trigger] a[j]).position && a[j].start_layer != a[j].end_layer,
        forall|k: int|
            0 <= k < vias_of(a, diameter, clearance).len() ==> (#[trigger] vias_of(a, diameter, clearance)[k]).diameter
                == diameter && vias_of(a, diameter, clearance)[k].clearance == clearance,
    decreases a.len(),
{
    if a.len() > 0 {
        let b = a.drop_last();
        lemma_vias_at_anchors(b, diameter, clearance);
        let v = vias_of(a, diameter, clearance);
        let w = vias_of(b, diameter, clearance);
        assert forall|k: int| 0 <= k < v.len() implies exists|j: int|
            0 <= j < a.len() && (#[trigger] v[k]).position == (#[trigger] a[j]).position && a[j].start_layer
                != a[j].end_layer by {
            if k < w.len() {
                assert(v[k] == w[k]);
                let j = choose|j: int|
                    0 <= j < b.len() && (#[trigger] w[k]).position == (#[trigger] b[j]).position && b[j].start_layer
                        != b[j].end_layer;
                assert(a[j] == b[j]);
            } else {
                assert(v[k] == via_at(a.last(), diameter, clearance));
                assert(a[a.len() - 1] == a.last());
            }
        }
        assert forall|k: int| 0 <= k < v.len() implies (#[trigger] v[k]).diameter == diameter && v[k].clearance
            == clearance by {
            if k < w.len() {
                assert(v[k] == w[k]);
            }
        }
    }
}

} // verus!
