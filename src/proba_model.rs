use vstd::prelude::*;

use crate::astar::{inside_inset, on_stride_grid, shared_layer};
use crate::naive_backtrack_algo::{
    connection_model, net_of, never_reports_segments, problem_ok, reported_free, route_connection, trace_fits,
    SolverConfig,
};
use crate::pcb_problem::{FixedTrace, NetName, PcbProblem};
use crate::trace_path::{TraceAnchor, TraceAnchors, TracePath};
use crate::vec2::FixedVec2;

verus! {

/// Identifier of a candidate trace of the probabilistic solver.
#[derive(Debug, Clone, Copy, PartialEq, Eq, Structural, Hash, PartialOrd, Ord)]
pub struct ProbaTraceID(pub usize);

fn same_anchors(a: &Vec<TraceAnchor>, b: &Vec<TraceAnchor>) -> (r: bool)
    ensures
        r == (a@ == b@),
{
    if a.len() != b.len() {
        return false;
    }
    let mut k: usize = 0;
    while k < a.len()
        invariant
            a@.len() == b@.len(),
            k <= a@.len(),
            forall|q: int| 0 <= q < k ==> a@[q] == b@[q],
        decreases a@.len() - k,
    {
        if a[k] != b[k] {
            return false;
        }
        k = k + 1;
    }
    assert(a@ =~= b@);
    true
}

/// Whether a sampled path differs from every path already among the
/// candidates.
pub fn is_novel_path(visited: &Vec<Vec<TraceAnchor>>, anchors: &Vec<TraceAnchor>) -> (r: bool)
    ensures
        r == forall|k: int| 0 <= k < visited@.len() ==> (#[trigger] visited@[k])@ != anchors@,
{
    let mut k: usize = 0;
    while k < visited.len()
        invariant
            k <= visited@.len(),
            forall|q: int| 0 <= q < k ==> (#[trigger] visited@[q])@ != anchors@,
        decreases visited@.len() - k,
    {
        if same_anchors(&visited[k], anchors) {
            return false;
        }
        k = k + 1;
    }
    true
}

/// The colliding pairs `(i, j)`, `i < j < n`, in order, asking
/// `collides(i, j)` once for each pair.
pub fn collision_edges<F: Fn(usize, usize) -> bool>(n: usize, collides: &F) -> (edges: Vec<(usize, usize)>)
    requires
        forall|i: usize, j: usize| #[trigger] collides.requires((i, j)),
    ensures
        forall|e: int| 0 <= e < edges@.len() ==> (#[trigger] edges@[e]).0 < edges@[e].1 < n,
        forall|i: usize, j: usize|
            i < j < n ==> (edges@.contains((i, j)) ==> collides.ensures((i, j), true)) && (!edges@.contains(
                (i, j),
            ) ==> collides.ensures((i, j), false)),
{
    let mut edges: Vec<(usize, usize)> = Vec::new();
    let mut i: usize = 0;
    while i < n
        invariant
            i <= n,
            forall|i: usize, j: usize| #[trigger] collides.requires((i, j)),
            forall|e: int| 0 <= e < edges@.len() ==> (#[trigger] edges@[e]).0 < edges@[e].1 < n,
            forall|e: int| 0 <= e < edges@.len() ==> (#[trigger] edges@[e]).0 < i,
            forall|a: usize, b: usize|
                a < b < n && a < i ==> (edges@.contains((a, b)) ==> collides.ensures((a, b), true)) && (
                !edges@.contains((a, b)) ==> collides.ensures((a, b), false)),
        decreases n - i,
    {
        let mut j: usize = i + 1;
        while j < n
            invariant
                i < n,
                i + 1 <= j <= n,
                forall|i: usize, j: usize| #[trigger] collides.requires((i, j)),
                forall|e: int| 0 <= e < edges@.len() ==> (#[trigger] edges@[e]).0 < edges@[e].1 < n,
                forall|e: int| 0 <= e < edges@.len() ==> (#[trigger] edges@[e]).0 <= i,
                forall|e: int| 0 <= e < edges@.len() && (#[trigger] edges@[e]).0 == i ==> edges@[e].1 < j,
                forall|a: usize, b: usize|
                    a < b < n && a < i ==> (edges@.contains((a, b)) ==> collides.ensures((a, b), true)) && (
                    !edges@.contains((a, b)) ==> collides.ensures((a, b), false)),
                forall|b: usize|
                    i < b < j ==> (edges@.contains((i, b)) ==> collides.ensures((i, b), true)) && (
                    !edges@.contains((i, b)) ==> collides.ensures((i, b), false)),
            decreases n - j,
        {
            let hit = collides(i, j);
            let ghost before = edges@;
            if hit {
                edges.push((i, j));
            }
            assert forall|a: usize, b: usize| a < b < n && a < i implies (edges@.contains((a, b))
                ==> collides.ensures((a, b), true)) && (!edges@.contains((a, b)) ==> collides.ensures((a, b), false)) by {
                if hit {
                    if edges@.contains((a, b)) {
                        let e = choose|e: int| 0 <= e < edges@.len() && edges@[e] == (a, b);
                        if e < before.len() {
                            assert(before[e] == (a, b));
                        }
                    }
                    if before.contains((a, b)) {
                        let e = choose|e: int| 0 <= e < before.len() && before[e] == (a, b);
                        assert(edges@[e] == (a, b));
                    }
                }
            }
            assert forall|b: usize| i < b < j + 1 implies (edges@.contains((i, b)) ==> collides.ensures((i, b), true))
                && (!edges@.contains((i, b)) ==> collides.ensures((i, b), false)) by {
                if b == j {
                    if hit {
                        assert(edges@[edges@.len() - 1] == (i, j));
                    } else {
                        if edges@.contains((i, j)) {
                            let e = choose|e: int| 0 <= e < edges@.len() && edges@[e] == (i, j);
                            assert(edges@[e].1 < j);
                        }
                    }
                } else if hit {
                    if edges@.contains((i, b)) {
                        let e = choose|e: int| 0 <= e < edges@.len() && edges@[e] == (i, b);
                        if e < before.len() {
                            assert(before[e] == (i, b));
                        }
                    }
                    if before.contains((i, b)) {
                        let e = choose|e: int| 0 <= e < before.len() && before[e] == (i, b);
                        assert(edges@[e] == (i, b));
                    }
                }
            }
            j = j + 1;
        }
        i = i + 1;
    }
    edges
}

/// The neighbours of candidate `i` in the collision graph given by `edges`,
/// in the order of the edges.
pub fn neighbours(edges: &Vec<(usize, usize)>, i: usize) -> (r: Vec<usize>)
    ensures
        forall|j: usize| r@.contains(j) <==> (edges@.contains((i, j)) || edges@.contains((j, i))),
{
    let mut r: Vec<usize> = Vec::new();
    let mut e: usize = 0;
    while e < edges.len()
        invariant
            e <= edges@.len(),
            forall|j: usize|
                r@.contains(j) <==> exists|q: int|
                    0 <= q < e && (#[trigger] edges@[q] == (i, j) || edges@[q] == (j, i)),
        decreases edges@.len() - e,
    {
        let (a, b) = edges[e];
        let ghost before = r@;
        if a == i {
            r.push(b);
        } else if b == i {
            r.push(a);
        }
        assert forall|j: usize| r@.contains(j) <==> exists|q: int|
            0 <= q < e + 1 && (#[trigger] edges@[q] == (i, j) || edges@[q] == (j, i)) by {
            if r@.contains(j) {
                let t = choose|t: int| 0 <= t < r@.len() && r@[t] == j;
                if t < before.len() {
                    assert(before[t] == j);
                    assert(before.contains(j));
                } else {
                    assert(edges@[e as int] == (i, j) || edges@[e as int] == (j, i));
                }
            }
            if exists|q: int| 0 <= q < e + 1 && (#[trigger] edges@[q] == (i, j) || edges@[q] == (j, i)) {
                let q = choose|q: int| 0 <= q < e + 1 && (#[trigger] edges@[q] == (i, j) || edges@[q] == (j, i));
                if q < e {
                    assert(before.contains(j));
                    let t = choose|t: int| 0 <= t < before.len() && before[t] == j;
                    assert(r@[t] == j);
                } else {
                    assert(r@[r@.len() - 1] == j);
                }
            }
        }
        e = e + 1;
    }
    assert forall|j: usize| r@.contains(j) <==> (edges@.contains((i, j)) || edges@.contains((j, i))) by {
        if edges@.contains((i, j)) {
            let q = choose|q: int| 0 <= q < edges@.len() && edges@[q] == (i, j);
            assert(edges@[q] == (i, j));
        }
        if edges@.contains((j, i)) {
            let q = choose|q: int| 0 <= q < edges@.len() && edges@[q] == (j, i);
            assert(edges@[q] == (j, i));
        }
    }
    r
}

fn copy_anchors(a: &Vec<TraceAnchor>) -> (r: Vec<TraceAnchor>)
    ensures
        r@ == a@,
{
    let mut r: Vec<TraceAnchor> = Vec::new();
    let mut i: usize = 0;
    while i < a.len()
        invariant
            i <= a@.len(),
            r@ == a@.subrange(0, i as int),
        decreases a@.len() - i,
    {
        r.push(a[i]);
        assert(a@.subrange(0, i + 1) =~= a@.subrange(0, i as int).push(a@[i as int]));
        i = i + 1;
    }
    assert(a@.subrange(0, a@.len() as int) =~= a@);
    r
}

fn copy_vec<T: Copy>(a: &Vec<T>) -> (r: Vec<T>)
    ensures
        r@ == a@,
{
    let mut r: Vec<T> = Vec::new();
    let mut i: usize = 0;
    while i < a.len()
        invariant
            i <= a@.len(),
            r@ == a@.subrange(0, i as int),
        decreases a@.len() - i,
    {
        r.push(a[i]);
        assert(a@.subrange(0, i + 1) =~= a@.subrange(0, i as int).push(a@[i as int]));
        i = i + 1;
    }
    assert(a@.subrange(0, a@.len() as int) =~= a@);
    r
}

/// A copy of a fixed trace, equal to it in every view.
fn copy_trace(t: &FixedTrace) -> (r: FixedTrace)
    ensures
        r.net_name.0@ == t.net_name.0@,
        r.connection_id == t.connection_id,
        r.trace_path.anchors.0@ == t.trace_path.anchors.0@,
        r.trace_path.segments@ == t.trace_path.segments@,
        r.trace_path.vias@ == t.trace_path.vias@,
        r.trace_path.total_length == t.trace_path.total_length,
{
    FixedTrace {
        net_name: NetName(t.net_name.0.clone()),
        connection_id: t.connection_id,
        trace_path: TracePath {
            anchors: TraceAnchors(copy_anchors(&t.trace_path.anchors.0)),
            segments: copy_vec(&t.trace_path.segments),
            vias: copy_vec(&t.trace_path.vias),
            total_length: t.trace_path.total_length,
        },
    }
}

/// Two fixed traces agree in every view.
pub open spec fn same_views(a: FixedTrace, b: FixedTrace) -> bool {
    &&& a.net_name.0@ == b.net_name.0@
    &&& a.connection_id == b.connection_id
    &&& a.trace_path.anchors.0@ == b.trace_path.anchors.0@
    &&& a.trace_path.segments@ == b.trace_path.segments@
    &&& a.trace_path.vias@ == b.trace_path.vias@
    &&& a.trace_path.total_length == b.trace_path.total_length
}

/// `s` is an obstacle list of one sampling attempt for connection `k`: copies
/// of the fixed traces, then copies of candidates of connections of other
/// nets that have no fixed trace.
pub open spec fn sample_list(
    p: PcbProblem,
    k: int,
    fixed: Seq<FixedTrace>,
    candidates: Seq<Vec<FixedTrace>>,
    s: Seq<FixedTrace>,
) -> bool {
    &&& fixed.len() <= s.len()
    &&& forall|q: int| 0 <= q < fixed.len() ==> same_views(#[trigger] s[q], fixed[q])
    &&& forall|q: int|
        fixed.len() <= q < s.len() ==> exists|o: int, jj: int|
            0 <= o < candidates.len() && o != k && p.connections@[o].net_name.0@ != p.connections@[k].net_name.0@
                && !(exists|x: int| 0 <= x < fixed.len() && fixed[x].connection_id == p.connections@[o].connection_id)
                && 0 <= jj < candidates[o]@.len() && same_views(#[trigger] s[q], #[trigger] candidates[o]@[jj])
}

/// `t` was reported free by both checks against some obstacle list of a
/// sampling attempt for connection `k`.
pub open spec fn sampled_clear<F, G>(
    p: PcbProblem,
    cfg: SolverConfig,
    k: int,
    fixed: Seq<FixedTrace>,
    candidates: Seq<Vec<FixedTrace>>,
    t: FixedTrace,
    f: F,
    g: G,
) -> bool where
    F: Fn(&Vec<FixedTrace>, &NetName, FixedVec2, FixedVec2, u64, u64, usize) -> bool,
    G: Fn(&Vec<FixedTrace>, &NetName, FixedVec2, u64, u64, usize, usize) -> bool,
 {
    exists|fx: Vec<FixedTrace>, j: int|
        sample_list(p, k, fixed, candidates, #[trigger] fx@) && #[trigger] net_of(p, k, j) && reported_free(
            t.trace_path,
            &fx,
            &p.connections@[k].net_name,
            connection_model(p, cfg, k, j),
            f,
            g,
        )
}

/// Sampling for connection `k`: each attempt routes `k` against the fixed
/// traces and, for every other connection of another net without a fixed
/// trace, the candidate that `draw` picks for it (or none). A route whose
/// anchors are new, to `visited` and to this call, becomes a candidate; this
/// stops at `target` candidates or after `max_attempts` attempts. Returns the
/// candidates and the number of attempts made.
pub fn sample_connection<D, F, G>(
    p: &PcbProblem,
    cfg: &SolverConfig,
    k: usize,
    fixed: &Vec<FixedTrace>,
    candidates: &Vec<Vec<FixedTrace>>,
    visited: &Vec<Vec<TraceAnchor>>,
    target: usize,
    max_attempts: usize,
    draw: &D,
    check_collision: &F,
    check_via: &G,
) -> (r: (Vec<FixedTrace>, usize))
    where
        D: Fn(usize) -> Option<usize>,
        F: Fn(&Vec<FixedTrace>, &NetName, FixedVec2, FixedVec2, u64, u64, usize) -> bool,
        G: Fn(&Vec<FixedTrace>, &NetName, FixedVec2, u64, u64, usize, usize) -> bool,
    requires
        p.wf(),
        problem_ok(*p, *cfg),
        k < p.connections@.len(),
        candidates@.len() == p.connections@.len(),
        forall|q: int| 0 <= q < fixed@.len() ==> trace_fits(*p, *cfg, #[trigger] fixed@[q]),
        forall|o: int, j: int|
            0 <= o < candidates@.len() && 0 <= j < candidates@[o]@.len() ==> trace_fits(
                *p,
                *cfg,
                #[trigger] candidates@[o]@[j],
            ),
        forall|o: usize| #[trigger] draw.requires((o,)),
        forall|f: &Vec<FixedTrace>, n: &NetName, a: FixedVec2, b: FixedVec2, w: u64, c: u64, l: usize| #[trigger]
            check_collision.requires((f, n, a, b, w, c, l)),
        forall|f: &Vec<FixedTrace>, n: &NetName, a: FixedVec2, d: u64, c: u64, lo: usize, hi: usize| #[trigger]
            check_via.requires((f, n, a, d, c, lo, hi)),
    ensures
        r.0@.len() <= target,
        r.1 <= max_attempts,
        r.0@.len() < target ==> r.1 == max_attempts,
        forall|i: int|
            0 <= i < r.0@.len() ==> trace_fits(*p, *cfg, #[trigger] r.0@[i]) && r.0@[i].connection_id
                == p.connections@[k as int].connection_id,
        forall|i: int, v: int|
            0 <= i < r.0@.len() && 0 <= v < visited@.len() ==> (#[trigger] visited@[v])@ != (
            #[trigger] r.0@[i]).trace_path.anchors.0@,
        forall|i: int, j: int|
            0 <= i < j < r.0@.len() ==> (#[trigger] r.0@[i]).trace_path.anchors.0@ != (
            #[trigger] r.0@[j]).trace_path.anchors.0@,
        forall|i: int|
            0 <= i < r.0@.len() ==> sampled_clear(
                *p,
                *cfg,
                k as int,
                fixed@,
                candidates@,
                #[trigger] r.0@[i],
                *check_collision,
                *check_via,
            ),
        // nothing decided outside: a candidate is found
        target > 0 && max_attempts > 0 && visited@.len() == 0 && never_reports_segments(*check_collision)
            && p.obstacle_lines@.len() == 0 && (forall|i: int|
            #[trigger] net_of(*p, k as int, i) ==> shared_layer(connection_model(*p, *cfg, k as int, i))
                && on_stride_grid(connection_model(*p, *cfg, k as int, i)) && inside_inset(
                connection_model(*p, *cfg, k as int, i).start,
                connection_model(*p, *cfg, k as int, i),
            ) && inside_inset(connection_model(*p, *cfg, k as int, i).end, connection_model(*p, *cfg, k as int, i)))
            ==> r.0@.len() >= 1,
{
    let mut out: Vec<FixedTrace> = Vec::new();
    let mut seen: Vec<Vec<TraceAnchor>> = Vec::new();
    let mut v: usize = 0;
    while v < visited.len()
        invariant
            v <= visited@.len(),
            seen@.len() == v,
            forall|q: int| 0 <= q < v ==> (#[trigger] seen@[q])@ == visited@[q]@,
        decreases visited@.len() - v,
    {
        seen.push(copy_anchors(&visited[v]));
        v = v + 1;
    }
    let nv = visited.len();
    let net = &p.connections[k].net_name;
    let mut attempts: usize = 0;
    while attempts < max_attempts && out.len() < target
        invariant
            p.wf(),
            problem_ok(*p, *cfg),
            k < p.connections@.len(),
            candidates@.len() == p.connections@.len(),
            forall|q: int| 0 <= q < fixed@.len() ==> trace_fits(*p, *cfg, #[trigger] fixed@[q]),
            forall|o: int, j: int|
                0 <= o < candidates@.len() && 0 <= j < candidates@[o]@.len() ==> trace_fits(
                    *p,
                    *cfg,
                    #[trigger] candidates@[o]@[j],
                ),
            forall|o: usize| #[trigger] draw.requires((o,)),
            forall|f: &Vec<FixedTrace>, n: &NetName, a: FixedVec2, b: FixedVec2, w: u64, c: u64, l: usize| #[trigger]
                check_collision.requires((f, n, a, b, w, c, l)),
            forall|f: &Vec<FixedTrace>, n: &NetName, a: FixedVec2, d: u64, c: u64, lo: usize, hi: usize| #[trigger]
                check_via.requires((f, n, a, d, c, lo, hi)),
            attempts <= max_attempts,
            out@.len() <= target,
            nv == visited@.len(),
            seen@.len() == nv + out@.len(),
            forall|q: int| 0 <= q < nv ==> (#[trigger] seen@[q])@ == visited@[q]@,
            forall|i: int| 0 <= i < out@.len() ==> (#[trigger] seen@[nv + i])@ == out@[i].trace_path.anchors.0@,
            forall|i: int|
                0 <= i < out@.len() ==> trace_fits(*p, *cfg, #[trigger] out@[i]) && out@[i].connection_id
                    == p.connections@[k as int].connection_id,
            forall|i: int, w: int|
                0 <= i < out@.len() && 0 <= w < visited@.len() ==> (#[trigger] visited@[w])@ != (
                #[trigger] out@[i]).trace_path.anchors.0@,
            forall|i: int, j: int|
                0 <= i < j < out@.len() ==> (#[trigger] out@[i]).trace_path.anchors.0@ != (
                #[trigger] out@[j]).trace_path.anchors.0@,
            forall|i: int|
                0 <= i < out@.len() ==> sampled_clear(
                    *p,
                    *cfg,
                    k as int,
                    fixed@,
                    candidates@,
                    #[trigger] out@[i],
                    *check_collision,
                    *check_via,
                ),
            net == &p.connections@[k as int].net_name,
            target > 0 && nv == 0 && never_reports_segments(*check_collision) && p.obstacle_lines@.len() == 0 && (
            forall|i: int|
                #[trigger] net_of(*p, k as int, i) ==> shared_layer(connection_model(*p, *cfg, k as int, i))
                    && on_stride_grid(connection_model(*p, *cfg, k as int, i)) && inside_inset(
                    connection_model(*p, *cfg, k as int, i).start,
                    connection_model(*p, *cfg, k as int, i),
                ) && inside_inset(connection_model(*p, *cfg, k as int, i).end, connection_model(*p, *cfg, k as int, i)))
                && attempts >= 1 ==> out@.len() >= 1,
        decreases max_attempts - attempts,
    {
        attempts = attempts + 1;
        // the obstacles of this attempt: the fixed traces and one drawn
        // candidate of each other unfixed connection of another net
        let mut sampled: Vec<FixedTrace> = Vec::new();
        let mut q: usize = 0;
        while q < fixed.len()
            invariant
                q <= fixed@.len(),
                sampled@.len() == q,
                forall|x: int| 0 <= x < q ==> same_views(#[trigger] sampled@[x], fixed@[x]),
                forall|q: int| 0 <= q < fixed@.len() ==> trace_fits(*p, *cfg, #[trigger] fixed@[q]),
                forall|x: int| 0 <= x < sampled@.len() ==> trace_fits(*p, *cfg, #[trigger] sampled@[x]),
            decreases fixed@.len() - q,
        {
            let t = copy_trace(&fixed[q]);
            assert(trace_fits(*p, *cfg, fixed@[q as int]));
            sampled.push(t);
            q = q + 1;
        }
        assert(sample_list(*p, k as int, fixed@, candidates@, sampled@));
        let mut o: usize = 0;
        while o < candidates.len()
            invariant
                o <= candidates@.len(),
                candidates@.len() == p.connections@.len(),
                forall|o: int, j: int|
                    0 <= o < candidates@.len() && 0 <= j < candidates@[o]@.len() ==> trace_fits(
                        *p,
                        *cfg,
                        #[trigger] candidates@[o]@[j],
                    ),
                forall|o: usize| #[trigger] draw.requires((o,)),
                forall|x: int| 0 <= x < sampled@.len() ==> trace_fits(*p, *cfg, #[trigger] sampled@[x]),
                sample_list(*p, k as int, fixed@, candidates@, sampled@),
                k < p.connections@.len(),
                net == &p.connections@[k as int].net_name,
            decreases candidates@.len() - o,
        {
            let other = &p.connections[o];
            if o != k && other.net_name.0 != net.0 && !has_trace_for(fixed, other.connection_id) {
                match draw(o) {
                    Some(j) => {
                        if j < candidates[o].len() {
                            assert(trace_fits(*p, *cfg, candidates@[o as int]@[j as int]));
                            let t = copy_trace(&candidates[o][j]);
                            let ghost s0 = sampled@;
                            sampled.push(t);
                            proof {
                                assert forall|q: int| 0 <= q < fixed@.len() implies same_views(
                                    #[trigger] sampled@[q],
                                    fixed@[q],
                                ) by {
                                    assert(sampled@[q] == s0[q]);
                                }
                                assert forall|q: int| fixed@.len() <= q < sampled@.len() implies exists|o2: int, jj: int|
                                    0 <= o2 < candidates@.len() && o2 != k && p.connections@[o2].net_name.0@
                                        != p.connections@[k as int].net_name.0@ && !(exists|x: int|
                                        0 <= x < fixed@.len() && fixed@[x].connection_id
                                            == p.connections@[o2].connection_id) && 0 <= jj
                                        < candidates@[o2]@.len() && same_views(
                                        #[trigger] sampled@[q],
                                        #[trigger] candidates@[o2]@[jj],
                                    ) by {
                                    if q < s0.len() {
                                        assert(sampled@[q] == s0[q]);
                                    } else {
                                        assert(same_views(sampled@[q], candidates@[o as int]@[j as int]));
                                    }
                                }
                            }
                        }
                    },
                    None => {},
                }
            }
            o = o + 1;
        }
        let ghost j0: int = choose|i: int| 0 <= i < p.nets@.len() && (#[trigger] p.nets@[i]).net_name.0@
            == p.connections@[k as int].net_name.0@;
        proof {
            assert(p.has_net(p.connections@[k as int].net_name.0@));
            assert(net_of(*p, k as int, j0));
        }
        match route_connection(p, cfg, k, &sampled, check_collision, check_via) {
            Ok(t) => {
                proof {
                    assert(sampled_clear(*p, *cfg, k as int, fixed@, candidates@, t, *check_collision, *check_via))
                        by {
                        assert(net_of(*p, k as int, j0));
                        assert(reported_free(
                            t.trace_path,
                            &sampled,
                            &p.connections@[k as int].net_name,
                            connection_model(*p, *cfg, k as int, j0),
                            *check_collision,
                            *check_via,
                        ));
                    }
                    if out@.len() == 0 && nv == 0 {
                        assert(seen@.len() == 0);
                    }
                }
                if is_novel_path(&seen, &t.trace_path.anchors.0) {
                    let ghost out0 = out@;
                    let ghost seen0 = seen@;
                    seen.push(copy_anchors(&t.trace_path.anchors.0));
                    out.push(t);
                    assert forall|i: int| 0 <= i < out@.len() implies sampled_clear(
                        *p,
                        *cfg,
                        k as int,
                        fixed@,
                        candidates@,
                        #[trigger] out@[i],
                        *check_collision,
                        *check_via,
                    ) by {
                        if i < out0.len() {
                            assert(out@[i] == out0[i]);
                        }
                    }
                    assert forall|i: int| 0 <= i < out@.len() implies (#[trigger] seen@[nv + i])@
                        == out@[i].trace_path.anchors.0@ by {
                        if i < out0.len() {
                            assert(seen@[nv + i] == seen0[nv + i]);
                        }
                    }
                    assert forall|q: int| 0 <= q < nv implies (#[trigger] seen@[q])@ == visited@[q]@ by {
                        assert(seen@[q] == seen0[q]);
                    }
                    assert forall|i: int, w: int|
                        0 <= i < out@.len() && 0 <= w < visited@.len() implies (#[trigger] visited@[w])@ != (
                        #[trigger] out@[i]).trace_path.anchors.0@ by {
                        if i == out0.len() {
                            assert(seen0[w]@ == visited@[w]@);
                        }
                    }
                    assert forall|i: int, j: int| 0 <= i < j < out@.len() implies (#[trigger] out@[i]).trace_path.anchors.0@
                        != (#[trigger] out@[j]).trace_path.anchors.0@ by {
                        if j == out0.len() {
                            assert(seen0[nv + i]@ == out0[i].trace_path.anchors.0@);
                        }
                    }
                }
            },
            Err(_) => {},
        }
    }
    (out, attempts)
}

/// Whether `fixed` holds a trace of connection `id`.
fn has_trace_for(fixed: &Vec<FixedTrace>, id: crate::pcb_problem::ConnectionID) -> (r: bool)
    ensures
        r == exists|q: int| 0 <= q < fixed@.len() && (#[trigger] fixed@[q]).connection_id == id,
{
    let mut q: usize = 0;
    while q < fixed.len()
        invariant
            q <= fixed@.len(),
            forall|x: int| 0 <= x < q ==> (#[trigger] fixed@[x]).connection_id != id,
        decreases fixed@.len() - q,
    {
        if fixed[q].connection_id == id {
            return true;
        }
        q = q + 1;
    }
    false
}

} // verus!
