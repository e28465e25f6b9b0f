use vstd::prelude::*;

use crate::astar::{route_ok, AStarModel};
use crate::pcb_problem::Line;
use crate::trace_path::{lemma_vias_at_anchors, segment_at, vias_of, TracePath, TraceSegment, Via};
use crate::vec2::{point_ok, FixedVec2, COORD_LIMIT};

verus! {

pub open spec fn cross(ax: int, ay: int, bx: int, by: int) -> int {
    ax * by - ay * bx
}

/// Sign of the turn from `b - a` to `c - a`.
pub open spec fn orient(a: FixedVec2, b: FixedVec2, c: FixedVec2) -> int {
    let v = cross(b.x - a.x, b.y - a.y, c.x - a.x, c.y - a.y);
    if v > 0 { 1 } else if v < 0 { -1 } else { 0 }
}

/// `c`, known collinear with `a` and `b`, lies between them.
pub open spec fn within_box(a: FixedVec2, b: FixedVec2, c: FixedVec2) -> bool {
    &&& (if a.x <= b.x { a.x <= c.x <= b.x } else { b.x <= c.x <= a.x })
    &&& (if a.y <= b.y { a.y <= c.y <= b.y } else { b.y <= c.y <= a.y })
}

/// The segments `ab` and `cd` have a point in common.
pub open spec fn segments_meet(a: FixedVec2, b: FixedVec2, c: FixedVec2, d: FixedVec2) -> bool {
    let o1 = orient(a, b, c);
    let o2 = orient(a, b, d);
    let o3 = orient(c, d, a);
    let o4 = orient(c, d, b);
    (o1 != o2 && o3 != o4) || (o1 == 0 && within_box(a, b, c)) || (o2 == 0 && within_box(a, b, d)) || (o3 == 0
        && within_box(c, d, a)) || (o4 == 0 && within_box(c, d, b))
}

/// The point `p` lies closer than `w / 2` to the segment `ab`, in squares:
/// `4 * dist(p, ab)^2 < w^2`.
pub open spec fn point_close(p: FixedVec2, a: FixedVec2, b: FixedVec2, w: int) -> bool {
    let dx = b.x - a.x;
    let dy = b.y - a.y;
    let vx = p.x - a.x;
    let vy = p.y - a.y;
    let t = dx * vx + dy * vy;
    let dd = dx * dx + dy * dy;
    if t <= 0 {
        4 * (vx * vx + vy * vy) < w * w
    } else if t >= dd {
        4 * ((p.x - b.x) * (p.x - b.x) + (p.y - b.y) * (p.y - b.y)) < w * w
    } else {
        4 * (cross(dx, dy, vx, vy) * cross(dx, dy, vx, vy)) < w * w * dd
    }
}

/// The segments `ab` and `cd` come closer than `w / 2` to each other.
pub open spec fn segments_close(a: FixedVec2, b: FixedVec2, c: FixedVec2, d: FixedVec2, w: int) -> bool {
    (w > 0 && segments_meet(a, b, c, d)) || point_close(a, c, d, w) || point_close(b, c, d, w) || point_close(
        c,
        a,
        b,
        w,
    ) || point_close(d, a, b, w)
}

pub open spec fn max_of(a: u64, b: u64) -> int {
    if a >= b { a as int } else { b as int }
}

/// Two segments keep clearance: on different layers, or farther apart than
/// their half widths and the larger clearance.
pub open spec fn segments_clear(s: TraceSegment, t: TraceSegment) -> bool {
    s.layer != t.layer || !segments_close(s.start, s.end, t.start, t.end, s.width + t.width + 2 * max_of(s.clearance, t.clearance))
}

pub open spec fn via_segment_clear(v: Via, t: TraceSegment) -> bool {
    !(v.min_layer <= t.layer <= v.max_layer) || !point_close(
        v.position,
        t.start,
        t.end,
        v.diameter + t.width + 2 * max_of(v.clearance, t.clearance),
    )
}

pub open spec fn vias_clear(v: Via, u: Via) -> bool {
    v.max_layer < u.min_layer || u.max_layer < v.min_layer || !point_close(
        v.position,
        u.position,
        u.position,
        v.diameter + u.diameter + 2 * max_of(v.clearance, u.clearance),
    )
}

/// Two trace paths keep clearance: every segment from every segment on its
/// layer, every via from every segment and via that shares a layer with it.
pub open spec fn paths_clear(a: TracePath, b: TracePath) -> bool {
    &&& forall|i: int, j: int|
        0 <= i < a.segments@.len() && 0 <= j < b.segments@.len() ==> segments_clear(
            #[trigger] a.segments@[i],
            #[trigger] b.segments@[j],
        )
    &&& forall|i: int, j: int|
        0 <= i < a.vias@.len() && 0 <= j < b.segments@.len() ==> via_segment_clear(
            #[trigger] a.vias@[i],
            #[trigger] b.segments@[j],
        )
    &&& forall|i: int, j: int|
        0 <= i < b.vias@.len() && 0 <= j < a.segments@.len() ==> via_segment_clear(
            #[trigger] b.vias@[i],
            #[trigger] a.segments@[j],
        )
    &&& forall|i: int, j: int|
        0 <= i < a.vias@.len() && 0 <= j < b.vias@.len() ==> vias_clear(#[trigger] a.vias@[i], #[trigger] b.vias@[j])
}

/// Coordinates and sizes of a path are within the range of exact products.
pub open spec fn path_small(a: TracePath) -> bool {
    &&& forall|i: int|
        0 <= i < a.segments@.len() ==> {
            let s = #[trigger] a.segments@[i];
            point_ok(s.start) && point_ok(s.end) && s.width <= COORD_LIMIT && s.clearance <= COORD_LIMIT
        }
    &&& forall|i: int|
        0 <= i < a.vias@.len() ==> {
            let v = #[trigger] a.vias@[i];
            point_ok(v.position) && v.diameter <= COORD_LIMIT && v.clearance <= COORD_LIMIT
        }
}

proof fn lemma_mul_bound(x: int, y: int, bx: int, by: int)
    requires
        -bx <= x <= bx,
        -by <= y <= by,
    ensures
        -(bx * by) <= x * y <= bx * by,
{
    assert(-(bx * by) <= x * y <= bx * by) by (nonlinear_arith)
        requires
            -bx <= x <= bx,
            -by <= y <= by,
    ;
}

proof fn lemma_square_nonneg(x: int)
    ensures
        x * x >= 0,
{
    assert(x * x >= 0) by (nonlinear_arith);
}

fn cross_exec(ax: i128, ay: i128, bx: i128, by: i128) -> (r: i128)
    requires
        -0x4000_0000 <= ax <= 0x4000_0000,
        -0x4000_0000 <= ay <= 0x4000_0000,
        -0x4000_0000 <= bx <= 0x4000_0000,
        -0x4000_0000 <= by <= 0x4000_0000,
    ensures
        r == cross(ax as int, ay as int, bx as int, by as int),
        -0x2000_0000_0000_0000 <= r <= 0x2000_0000_0000_0000,
{
    proof {
        lemma_mul_bound(ax as int, by as int, 0x4000_0000, 0x4000_0000);
        lemma_mul_bound(ay as int, bx as int, 0x4000_0000, 0x4000_0000);
    }
    ax * by - ay * bx
}

fn orient_exec(a: FixedVec2, b: FixedVec2, c: FixedVec2) -> (r: i8)
    requires
        point_ok(a) && point_ok(b) && point_ok(c),
    ensures
        r == orient(a, b, c),
{
    let v = cross_exec(
        (b.x - a.x) as i128,
        (b.y - a.y) as i128,
        (c.x - a.x) as i128,
        (c.y - a.y) as i128,
    );
    if v > 0 {
        1
    } else if v < 0 {
        -1
    } else {
        0
    }
}

fn within_box_exec(a: FixedVec2, b: FixedVec2, c: FixedVec2) -> (r: bool)
    ensures
        r == within_box(a, b, c),
{
    let in_x = if a.x <= b.x { a.x <= c.x && c.x <= b.x } else { b.x <= c.x && c.x <= a.x };
    let in_y = if a.y <= b.y { a.y <= c.y && c.y <= b.y } else { b.y <= c.y && c.y <= a.y };
    in_x && in_y
}

fn segments_meet_exec(a: FixedVec2, b: FixedVec2, c: FixedVec2, d: FixedVec2) -> (r: bool)
    requires
        point_ok(a) && point_ok(b) && point_ok(c) && point_ok(d),
    ensures
        r == segments_meet(a, b, c, d),
{
    let o1 = orient_exec(a, b, c);
    let o2 = orient_exec(a, b, d);
    let o3 = orient_exec(c, d, a);
    let o4 = orient_exec(c, d, b);
    (o1 != o2 && o3 != o4) || (o1 == 0 && within_box_exec(a, b, c)) || (o2 == 0 && within_box_exec(a, b, d))
        || (o3 == 0 && within_box_exec(c, d, a)) || (o4 == 0 && within_box_exec(c, d, b))
}

/// Whether `p` lies closer than `w / 2` to the segment `ab`.
pub fn point_close_exec(p: FixedVec2, a: FixedVec2, b: FixedVec2, w: i128) -> (r: bool)
    requires
        point_ok(p) && point_ok(a) && point_ok(b),
        0 <= w <= 0x4000_0000,
    ensures
        r == point_close(p, a, b, w as int),
{
    let dx = (b.x - a.x) as i128;
    let dy = (b.y - a.y) as i128;
    let vx = (p.x - a.x) as i128;
    let vy = (p.y - a.y) as i128;
    let ex = (p.x - b.x) as i128;
    let ey = (p.y - b.y) as i128;
    proof {
        lemma_mul_bound(dx as int, vx as int, 0x4000_0000, 0x4000_0000);
        lemma_mul_bound(dy as int, vy as int, 0x4000_0000, 0x4000_0000);
        lemma_mul_bound(dx as int, dx as int, 0x4000_0000, 0x4000_0000);
        lemma_mul_bound(dy as int, dy as int, 0x4000_0000, 0x4000_0000);
        lemma_mul_bound(vx as int, vx as int, 0x4000_0000, 0x4000_0000);
        lemma_mul_bound(vy as int, vy as int, 0x4000_0000, 0x4000_0000);
        lemma_mul_bound(ex as int, ex as int, 0x4000_0000, 0x4000_0000);
        lemma_mul_bound(ey as int, ey as int, 0x4000_0000, 0x4000_0000);
        lemma_mul_bound(w as int, w as int, 0x4000_0000, 0x4000_0000);
    }
    let t = dx * vx + dy * vy;
    let dd = dx * dx + dy * dy;
    let ww = w * w;
    if t <= 0 {
        4 * (vx * vx + vy * vy) < ww
    } else if t >= dd {
        4 * (ex * ex + ey * ey) < ww
    } else {
        let c = cross_exec(dx, dy, vx, vy);
        proof {
            lemma_mul_bound(c as int, c as int, 0x2000_0000_0000_0000, 0x2000_0000_0000_0000);
            lemma_square_nonneg(dx as int);
            lemma_square_nonneg(dy as int);
            lemma_mul_bound(ww as int, dd as int, 0x1000_0000_0000_0000, 0x2000_0000_0000_0000);
        }
        4 * (c * c) < ww * dd
    }
}

fn segments_close_exec(a: FixedVec2, b: FixedVec2, c: FixedVec2, d: FixedVec2, w: i128) -> (r: bool)
    requires
        point_ok(a) && point_ok(b) && point_ok(c) && point_ok(d),
        0 <= w <= 0x4000_0000,
    ensures
        r == segments_close(a, b, c, d, w as int),
{
    (w > 0 && segments_meet_exec(a, b, c, d)) || point_close_exec(a, c, d, w) || point_close_exec(b, c, d, w)
        || point_close_exec(c, a, b, w) || point_close_exec(d, a, b, w)
}

fn larger(a: u64, b: u64) -> (r: u64)
    ensures
        r == max_of(a, b),
{
    if a >= b { a } else { b }
}

/// Whether two segments keep clearance.
pub fn segments_clear_exec(s: &TraceSegment, t: &TraceSegment) -> (r: bool)
    requires
        point_ok(s.start) && point_ok(s.end) && point_ok(t.start) && point_ok(t.end),
        s.width <= COORD_LIMIT && s.clearance <= COORD_LIMIT,
        t.width <= COORD_LIMIT && t.clearance <= COORD_LIMIT,
    ensures
        r == segments_clear(*s, *t),
{
    if s.layer != t.layer {
        return true;
    }
    let w = (s.width + t.width + 2 * larger(s.clearance, t.clearance)) as i128;
    !segments_close_exec(s.start, s.end, t.start, t.end, w)
}

fn via_segment_clear_exec(v: &Via, t: &TraceSegment) -> (r: bool)
    requires
        point_ok(v.position) && point_ok(t.start) && point_ok(t.end),
        v.diameter <= COORD_LIMIT && v.clearance <= COORD_LIMIT,
        t.width <= COORD_LIMIT && t.clearance <= COORD_LIMIT,
    ensures
        r == via_segment_clear(*v, *t),
{
    if !(v.min_layer <= t.layer && t.layer <= v.max_layer) {
        return true;
    }
    let w = (v.diameter + t.width + 2 * larger(v.clearance, t.clearance)) as i128;
    !point_close_exec(v.position, t.start, t.end, w)
}

fn vias_clear_exec(v: &Via, u: &Via) -> (r: bool)
    requires
        point_ok(v.position) && point_ok(u.position),
        v.diameter <= COORD_LIMIT && v.clearance <= COORD_LIMIT,
        u.diameter <= COORD_LIMIT && u.clearance <= COORD_LIMIT,
    ensures
        r == vias_clear(*v, *u),
{
    if v.max_layer < u.min_layer || u.max_layer < v.min_layer {
        return true;
    }
    let w = (v.diameter + u.diameter + 2 * larger(v.clearance, u.clearance)) as i128;
    !point_close_exec(v.position, u.position, u.position, w)
}

/// Whether two trace paths keep clearance.
pub fn paths_clear_exec(a: &TracePath, b: &TracePath) -> (r: bool)
    requires
        path_small(*a),
        path_small(*b),
    ensures
        r == paths_clear(*a, *b),
{
    let mut i: usize = 0;
    while i < a.segments.len()
        invariant
            path_small(*a) && path_small(*b),
            i <= a.segments@.len(),
            forall|x: int, y: int|
                0 <= x < i && 0 <= y < b.segments@.len() ==> segments_clear(
                    #[trigger] a.segments@[x],
                    #[trigger] b.segments@[y],
                ),
        decreases a.segments@.len() - i,
    {
        let mut j: usize = 0;
        while j < b.segments.len()
            invariant
                path_small(*a) && path_small(*b),
                i < a.segments@.len(),
                j <= b.segments@.len(),
                forall|y: int| 0 <= y < j ==> segments_clear(a.segments@[i as int], #[trigger] b.segments@[y]),
            decreases b.segments@.len() - j,
        {
            assert(path_small(*a) ==> point_ok(a.segments@[i as int].start));
            let s = &a.segments[i];
            let t = &b.segments[j];
            assert(point_ok(s.start) && point_ok(s.end) && s.width <= COORD_LIMIT && s.clearance <= COORD_LIMIT);
            assert(point_ok(t.start) && point_ok(t.end) && t.width <= COORD_LIMIT && t.clearance <= COORD_LIMIT);
            if !segments_clear_exec(s, t) {
                return false;
            }
            j = j + 1;
        }
        i = i + 1;
    }
    let mut i: usize = 0;
    while i < a.vias.len()
        invariant
            path_small(*a) && path_small(*b),
            i <= a.vias@.len(),
            forall|x: int, y: int|
                0 <= x < i && 0 <= y < b.segments@.len() ==> via_segment_clear(
                    #[trigger] a.vias@[x],
                    #[trigger] b.segments@[y],
                ),
            forall|x: int, y: int|
                0 <= x < i && 0 <= y < b.vias@.len() ==> vias_clear(#[trigger] a.vias@[x], #[trigger] b.vias@[y]),
        decreases a.vias@.len() - i,
    {
        let v = &a.vias[i];
        assert(point_ok(v.position) && v.diameter <= COORD_LIMIT && v.clearance <= COORD_LIMIT);
        let mut j: usize = 0;
        while j < b.segments.len()
            invariant
                path_small(*a) && path_small(*b),
                i < a.vias@.len(),
                *v == a.vias@[i as int],
                point_ok(v.position) && v.diameter <= COORD_LIMIT && v.clearance <= COORD_LIMIT,
                j <= b.segments@.len(),
                forall|y: int| 0 <= y < j ==> via_segment_clear(*v, #[trigger] b.segments@[y]),
            decreases b.segments@.len() - j,
        {
            let t = &b.segments[j];
            assert(point_ok(t.start) && point_ok(t.end) && t.width <= COORD_LIMIT && t.clearance <= COORD_LIMIT);
            if !via_segment_clear_exec(v, t) {
                return false;
            }
            j = j + 1;
        }
        let mut j: usize = 0;
        while j < b.vias.len()
            invariant
                path_small(*a) && path_small(*b),
                i < a.vias@.len(),
                *v == a.vias@[i as int],
                point_ok(v.position) && v.diameter <= COORD_LIMIT && v.clearance <= COORD_LIMIT,
                j <= b.vias@.len(),
                forall|y: int| 0 <= y < j ==> vias_clear(*v, #[trigger] b.vias@[y]),
            decreases b.vias@.len() - j,
        {
            let u = &b.vias[j];
            assert(point_ok(u.position) && u.diameter <= COORD_LIMIT && u.clearance <= COORD_LIMIT);
            if !vias_clear_exec(v, u) {
                return false;
            }
            j = j + 1;
        }
        i = i + 1;
    }
    let mut i: usize = 0;
    while i < b.vias.len()
        invariant
            path_small(*a) && path_small(*b),
            i <= b.vias@.len(),
            forall|x: int, y: int|
                0 <= x < i && 0 <= y < a.segments@.len() ==> via_segment_clear(
                    #[trigger] b.vias@[x],
                    #[trigger] a.segments@[y],
                ),
        decreases b.vias@.len() - i,
    {
        let v = &b.vias[i];
        assert(point_ok(v.position) && v.diameter <= COORD_LIMIT && v.clearance <= COORD_LIMIT);
        let mut j: usize = 0;
        while j < a.segments.len()
            invariant
                path_small(*a) && path_small(*b),
                i < b.vias@.len(),
                *v == b.vias@[i as int],
                point_ok(v.position) && v.diameter <= COORD_LIMIT && v.clearance <= COORD_LIMIT,
                j <= a.segments@.len(),
                forall|y: int| 0 <= y < j ==> via_segment_clear(*v, #[trigger] a.segments@[y]),
            decreases a.segments@.len() - j,
        {
            let t = &a.segments[j];
            assert(point_ok(t.start) && point_ok(t.end) && t.width <= COORD_LIMIT && t.clearance <= COORD_LIMIT);
            if !via_segment_clear_exec(v, t) {
                return false;
            }
            j = j + 1;
        }
        i = i + 1;
    }
    true
}

/// A routed path of a request within the limits has small coordinates and
/// sizes.
pub proof fn lemma_routed_path_small(p: TracePath, m: AStarModel)
    requires
        route_ok(p, m),
        m.limits_ok(),
    ensures
        path_small(p),
{
    let a = p.anchors.0@;
    assert forall|i: int| 0 <= i < p.segments@.len() implies {
        let s = #[trigger] p.segments@[i];
        point_ok(s.start) && point_ok(s.end) && s.width <= COORD_LIMIT && s.clearance <= COORD_LIMIT
    } by {
        assert(p.segments@[i] == segment_at(a, i, m.trace_width, m.trace_clearance));
        assert(point_ok(a[i].position));
        assert(point_ok(a[i + 1].position));
    }
    lemma_vias_at_anchors(a, m.via_diameter, m.trace_clearance);
    assert forall|i: int| 0 <= i < p.vias@.len() implies {
        let v = #[trigger] p.vias@[i];
        point_ok(v.position) && v.diameter <= COORD_LIMIT && v.clearance <= COORD_LIMIT
    } by {
        let vs = vias_of(a, m.via_diameter, m.trace_clearance);
        assert(p.vias@[i] == vs[i]);
        let j = choose|j: int| 0 <= j < a.len() && (#[trigger] vs[i]).position == (#[trigger] a[j]).position
            && a[j].start_layer != a[j].end_layer;
        assert(point_ok(a[j].position));
    }
}

/// The segment from `a` to `b`, `w` wide with clearance `c`, comes too close
/// to the line `l` (numbers out of range count as too close).
pub open spec fn line_hit(l: Line, a: FixedVec2, b: FixedVec2, w: u64, c: u64) -> bool {
    !(point_ok(a) && point_ok(b) && point_ok(l.start) && point_ok(l.end) && w <= COORD_LIMIT && c <= COORD_LIMIT)
        || segments_close(a, b, l.start, l.end, w + 2 * c)
}

/// The segment comes too close to one of `lines`.
pub open spec fn hits_lines(lines: Seq<Line>, a: FixedVec2, b: FixedVec2, w: u64, c: u64) -> bool {
    exists|k: int| 0 <= k < lines.len() && #[trigger] line_hit(lines[k], a, b, w, c)
}

/// Whether the segment from `a` to `b` comes too close to one of `lines`.
pub fn lines_hit(lines: &Vec<Line>, a: FixedVec2, b: FixedVec2, w: u64, c: u64) -> (r: bool)
    ensures
        r == hits_lines(lines@, a, b, w, c),
{
    let mut k: usize = 0;
    while k < lines.len()
        invariant
            k <= lines@.len(),
            forall|q: int| 0 <= q < k ==> !#[trigger] line_hit(lines@[q], a, b, w, c),
        decreases lines@.len() - k,
    {
        let l = lines[k];
        let ok = |p: FixedVec2| -> (r: bool)
            ensures
                r == point_ok(p),
            { -COORD_LIMIT <= p.x && p.x <= COORD_LIMIT && -COORD_LIMIT <= p.y && p.y <= COORD_LIMIT };
        if !(ok(a) && ok(b) && ok(l.start) && ok(l.end) && w <= COORD_LIMIT as u64 && c <= COORD_LIMIT as u64) {
            assert(line_hit(lines@[k as int], a, b, w, c));
            return true;
        }
        if segments_close_exec(a, b, l.start, l.end, (w + 2 * c) as i128) {
            assert(line_hit(lines@[k as int], a, b, w, c));
            return true;
        }
        assert(!line_hit(lines@[k as int], a, b, w, c));
        k = k + 1;
    }
    false
}

} // verus!
