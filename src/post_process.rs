use vstd::prelude::*;

use crate::direction::{degree_of, dir_dx, dir_dy, step_dir, valid_step, Direction};
use crate::trace_path::{
    anchor_to_tracepath, anchors_length, anchors_length_of, anchors_ok, lemma_length_bound,
    len_diagonal, len_straight, length_le, link_ok, seg_diagonal, seg_straight, TraceAnchor, TracePath, MAX_ANCHORS,
};
use crate::vec2::{abs, cheb, point_ok, FixedVec2, COORD_LIMIT};

verus! {

/// The length of a polyline is the length up to anchor `k` plus the length
/// from anchor `k` on.
pub proof fn lemma_length_split(a: Seq<TraceAnchor>, k: int)
    requires
        0 <= k < a.len(),
    ensures
        len_straight(a) == len_straight(a.subrange(0, k + 1)) + len_straight(a.subrange(k, a.len() as int)),
        len_diagonal(a) == len_diagonal(a.subrange(0, k + 1)) + len_diagonal(a.subrange(k, a.len() as int)),
    decreases a.len(),
{
    let n = a.len() as int;
    if k == n - 1 {
        assert(a.subrange(0, k + 1) =~= a);
        let t = a.subrange(k, n);
        assert(t.len() == 1);
    } else {
        let b = a.drop_last();
        lemma_length_split(b, k);
        assert(b.subrange(0, k + 1) =~= a.subrange(0, k + 1));
        let t = a.subrange(k, n);
        assert(t.drop_last() =~= b.subrange(k, n - 1));
        assert(t[t.len() - 2] == a[n - 2]);
        assert(t.last() == a.last());
    }
}

/// Replacing the anchors strictly between `i` and a later anchor changes the
/// length of the whole path by the change over that window.
pub proof fn lemma_length_window(a: Seq<TraceAnchor>, b: Seq<TraceAnchor>, i: int, ja: int, jb: int)
    requires
        0 <= i <= ja < a.len(),
        i <= jb < b.len(),
        a.subrange(0, i + 1) == b.subrange(0, i + 1),
        a.subrange(ja, a.len() as int) == b.subrange(jb, b.len() as int),
    ensures
        len_straight(b) - len_straight(a) == len_straight(b.subrange(i, jb + 1)) - len_straight(
            a.subrange(i, ja + 1),
        ),
        len_diagonal(b) - len_diagonal(a) == len_diagonal(b.subrange(i, jb + 1)) - len_diagonal(
            a.subrange(i, ja + 1),
        ),
{
    let na = a.len() as int;
    let nb = b.len() as int;
    lemma_length_split(a, i);
    lemma_length_split(b, i);
    let ta = a.subrange(i, na);
    let tb = b.subrange(i, nb);
    lemma_length_split(ta, ja - i);
    lemma_length_split(tb, jb - i);
    assert(ta.subrange(0, ja - i + 1) =~= a.subrange(i, ja + 1));
    assert(ta.subrange(ja - i, ta.len() as int) =~= a.subrange(ja, na));
    assert(tb.subrange(0, jb - i + 1) =~= b.subrange(i, jb + 1));
    assert(tb.subrange(jb - i, tb.len() as int) =~= b.subrange(jb, nb));
}

/// The path `a` with the anchors strictly between `i` and `j` replaced by `mid`.
pub open spec fn splice(a: Seq<TraceAnchor>, i: int, j: int, mid: Seq<TraceAnchor>) -> Seq<TraceAnchor> {
    a.subrange(0, i + 1) + mid + a.subrange(j, a.len() as int)
}

/// The window of `splice(a, i, j, mid)` that replaces `a[i..=j]`.
pub open spec fn new_window(a: Seq<TraceAnchor>, i: int, j: int, mid: Seq<TraceAnchor>) -> Seq<TraceAnchor> {
    seq![a[i]] + mid + seq![a[j]]
}

pub open spec fn chain_ok(w: Seq<TraceAnchor>) -> bool {
    &&& forall|k: int| 0 <= k < w.len() ==> point_ok(#[trigger] w[k].position)
    &&& forall|k: int| 0 <= k < w.len() - 1 ==> link_ok(#[trigger] w[k], w[k + 1])
}

proof fn lemma_splice_ok(a: Seq<TraceAnchor>, i: int, j: int, mid: Seq<TraceAnchor>)
    requires
        anchors_ok(a),
        0 <= i < j < a.len(),
        chain_ok(new_window(a, i, j, mid)),
        splice(a, i, j, mid).len() <= MAX_ANCHORS,
    ensures
        anchors_ok(splice(a, i, j, mid)),
        splice(a, i, j, mid)[0] == a[0],
        splice(a, i, j, mid).last() == a.last(),
{
    let b = splice(a, i, j, mid);
    let w = new_window(a, i, j, mid);
    let m = mid.len() as int;
    assert forall|k: int| 0 <= k < b.len() implies point_ok(#[trigger] b[k].position) by {
        if k <= i {
            assert(b[k] == a[k]);
        } else if k <= i + m {
            assert(b[k] == w[k - i]);
        } else {
            assert(b[k] == a[k - i - m - 1 + j]);
        }
    }
    assert forall|k: int| 0 <= k < b.len() - 1 implies link_ok(#[trigger] b[k], b[k + 1]) by {
        if k < i {
            assert(b[k] == a[k]);
            assert(b[k + 1] == a[k + 1]);
        } else if k <= i + m {
            assert(b[k] == w[k - i]);
            assert(b[k + 1] == w[k - i + 1]);
        } else {
            assert(b[k] == a[k - i - m - 1 + j]);
            assert(b[k + 1] == a[k - i - m + j]);
        }
    }
}

/// `x` is strictly smaller than `y` in the order the optimizer descends:
/// first `straight + diagonal`, then `straight + 2 * diagonal`, then the
/// number of anchors.
pub open spec fn measure_lt(x: Seq<TraceAnchor>, y: Seq<TraceAnchor>) -> bool {
    let a = len_straight(x) + len_diagonal(x);
    let b = len_straight(y) + len_diagonal(y);
    let a2 = len_straight(x) + 2 * len_diagonal(x);
    let b2 = len_straight(y) + 2 * len_diagonal(y);
    a < b || (a == b && a2 < b2) || (a == b && a2 == b2 && x.len() < y.len())
}

/// Replacing the anchors strictly between `i` and `j` of `a` by `mid` gives a
/// legal window, no longer and strictly smaller in the measure, within the
/// size limit.
pub open spec fn acceptable(a: Seq<TraceAnchor>, i: int, j: int, mid: Seq<TraceAnchor>) -> bool {
    &&& chain_ok(new_window(a, i, j, mid))
    &&& length_le(anchors_length(new_window(a, i, j, mid)), anchors_length(a.subrange(i, j + 1)))
    &&& measure_lt(new_window(a, i, j, mid), a.subrange(i, j + 1))
    &&& splice(a, i, j, mid).len() <= MAX_ANCHORS
}

/// Whether `w` is a legal chain: every point in range, every consecutive
/// pair on a shared layer and one straight grid step apart.
fn chain_is_ok(w: &Vec<TraceAnchor>) -> (r: bool)
    requires
        w@.len() <= MAX_ANCHORS,
    ensures
        r == chain_ok(w@),
{
    let mut t: usize = 0;
    while t < w.len()
        invariant
            t <= w@.len(),
            forall|q: int| 0 <= q < t ==> point_ok(#[trigger] w@[q].position),
        decreases w@.len() - t,
    {
        let p = w[t].position;
        if p.x < -COORD_LIMIT || p.x > COORD_LIMIT || p.y < -COORD_LIMIT || p.y > COORD_LIMIT {
            return false;
        }
        t = t + 1;
    }
    let mut t: usize = 0;
    while t + 1 < w.len()
        invariant
            w@.len() <= MAX_ANCHORS,
            forall|q: int| 0 <= q < w@.len() ==> point_ok(#[trigger] w@[q].position),
            forall|q: int| 0 <= q < t ==> link_ok(#[trigger] w@[q], w@[q + 1]),
            t <= w@.len(),
        decreases w@.len() - t,
    {
        if w[t].end_layer != w[t + 1].start_layer {
            return false;
        }
        assert(point_ok(w@[t as int].position));
        assert(point_ok(w@[t + 1].position));
        if !Direction::is_two_points_valid_direction(w[t].position, w[t + 1].position) {
            assert(!link_ok(w@[t as int], w@[t + 1]));
            return false;
        }
        t = t + 1;
    }
    true
}

/// Appends `src[lo..hi]` to `dst`.
fn extend_range(dst: &mut Vec<TraceAnchor>, src: &Vec<TraceAnchor>, lo: usize, hi: usize)
    requires
        lo <= hi <= src@.len(),
    ensures
        final(dst)@ == old(dst)@ + src@.subrange(lo as int, hi as int),
{
    let ghost d0 = dst@;
    let mut k: usize = lo;
    while k < hi
        invariant
            lo <= k <= hi <= src@.len(),
            dst@ == d0 + src@.subrange(lo as int, k as int),
        decreases hi - k,
    {
        dst.push(src[k]);
        assert(src@.subrange(lo as int, k + 1) =~= src@.subrange(lo as int, k as int).push(src@[k as int]));
        k = k + 1;
    }
}

/// Replaces the anchors strictly between `i` and `j` by `mid` where the new
/// window is a legal chain of anchors and no longer than the old one;
/// otherwise leaves the path as it is. Returns whether it replaced.
#[verifier::rlimit(60)]
fn try_splice(opt: &mut Vec<TraceAnchor>, i: usize, j: usize, mid: Vec<TraceAnchor>) -> (r: bool)
    requires
        anchors_ok(old(opt)@),
        i < j < old(opt)@.len(),
        mid@.len() <= 2,
        forall|k: int| 0 <= k < mid@.len() ==> (#[trigger] mid@[k]).start_layer == mid@[k].end_layer,
    ensures
        pass_inv(final(opt)@, old(opt)@),
        r ==> final(opt)@ == splice(old(opt)@, i as int, j as int, mid@),
        !r ==> final(opt)@ == old(opt)@,
        anchors_ok(final(opt)@),
        final(opt)@[0] == old(opt)@[0],
        final(opt)@.last() == old(opt)@.last(),
        length_le(anchors_length(final(opt)@), anchors_length(old(opt)@)),
        forall|k: int|
            0 <= k < final(opt)@.len() ==> old(opt)@.contains(#[trigger] final(opt)@[k]) || mid@.contains(
                final(opt)@[k],
            ),
        r == acceptable(old(opt)@, i as int, j as int, mid@),
        r ==> measure_lt(final(opt)@, old(opt)@),
        r ==> len_straight(final(opt)@) - len_straight(old(opt)@) == len_straight(
            new_window(old(opt)@, i as int, j as int, mid@),
        ) - len_straight(old(opt)@.subrange(i as int, j + 1)),
        r ==> len_diagonal(final(opt)@) - len_diagonal(old(opt)@) == len_diagonal(
            new_window(old(opt)@, i as int, j as int, mid@),
        ) - len_diagonal(old(opt)@.subrange(i as int, j + 1)),
{
    let ghost a = opt@;
    let n = opt.len();
    if n - (j - i - 1) + mid.len() > MAX_ANCHORS {
        return false;
    }
    let mut w: Vec<TraceAnchor> = Vec::new();
    w.push(opt[i]);
    extend_range(&mut w, &mid, 0, mid.len());
    w.push(opt[j]);
    assert(mid@.subrange(0, mid@.len() as int) =~= mid@);
    assert(w@ =~= new_window(a, i as int, j as int, mid@));
    if !chain_is_ok(&w) {
        return false;
    }
    let mut v: Vec<TraceAnchor> = Vec::new();
    extend_range(&mut v, opt, i, j + 1);
    assert(v@ =~= a.subrange(i as int, j + 1));
    assert forall|q: int| 0 <= q < v@.len() implies point_ok(#[trigger] v@[q].position) by {
        assert(v@[q] == a[i + q]);
    }
    proof {
        lemma_length_bound(w@);
        lemma_length_bound(v@);
    }
    let lw = anchors_length_of(&w);
    let lv = anchors_length_of(&v);
    if !(lw.straight + lw.diagonal <= lv.straight + lv.diagonal && lw.straight + 2 * lw.diagonal
        <= lv.straight + 2 * lv.diagonal) {
        return false;
    }
    let ws = lw.straight + lw.diagonal;
    let vs = lv.straight + lv.diagonal;
    let w2 = lw.straight + 2 * lw.diagonal;
    let v2 = lv.straight + 2 * lv.diagonal;
    if !(ws < vs || (ws == vs && w2 < v2) || (ws == vs && w2 == v2 && w.len() < v.len())) {
        return false;
    }
    let mut b: Vec<TraceAnchor> = Vec::new();
    extend_range(&mut b, opt, 0, i + 1);
    extend_range(&mut b, &mid, 0, mid.len());
    extend_range(&mut b, opt, j, n);
    let ghost bs = splice(a, i as int, j as int, mid@);
    assert(b@ =~= bs);
    proof {
        lemma_splice_ok(a, i as int, j as int, mid@);
        let jb = i + mid@.len() + 1;
        assert(a.subrange(0, i + 1) =~= bs.subrange(0, i + 1));
        assert(a.subrange(j as int, a.len() as int) =~= bs.subrange(jb, bs.len() as int));
        assert(bs.subrange(i as int, jb + 1) =~= w@);
        lemma_length_window(a, bs, i as int, j as int, jb);
        let m = mid@.len() as int;
        assert forall|k: int| 0 <= k < bs.len() implies a.contains(#[trigger] bs[k]) || mid@.contains(bs[k]) by {
            if k <= i {
                assert(bs[k] == a[k]);
            } else if k <= i + m {
                assert(bs[k] == mid@[k - i - 1]);
            } else {
                assert(bs[k] == a[k - i - m - 1 + j]);
            }
        }
    }
    *opt = b;
    true
}

/// The two directions are at a right angle to each other.
fn is_right_angle(dir1: Direction, dir2: Direction) -> (r: bool)
    ensures
        r == (abs(degree_of(dir1) - degree_of(dir2)) == 90 || abs(degree_of(dir1) - degree_of(dir2)) == 270),
{
    let a1 = dir1.to_degree_angle() as i32;
    let a2 = dir2.to_degree_angle() as i32;
    let diff = if a1 >= a2 { a1 - a2 } else { a2 - a1 };
    diff == 90 || diff == 270
}

/// `dir1`, `dir2`, `dir3` turn a right angle through the diagonal halfway
/// between the outer two.
fn is_convex(dir1: Direction, dir2: Direction, dir3: Direction) -> (r: bool)
    ensures
        r == ((abs(degree_of(dir1) - degree_of(dir3)) == 90 || abs(degree_of(dir1) - degree_of(dir3)) == 270)
            && degree_of(dir1) + degree_of(dir3) == 2 * degree_of(dir2)),
{
    let a1 = dir1.to_degree_angle() as i32;
    let a2 = dir2.to_degree_angle() as i32;
    let a3 = dir3.to_degree_angle() as i32;
    let diff = if a1 >= a3 { a1 - a3 } else { a3 - a1 };
    (diff == 90 || diff == 270) && a1 + a3 == 2 * a2
}

fn flat_anchor(position: FixedVec2, layer: usize) -> (r: TraceAnchor)
    ensures
        r == (TraceAnchor { position, start_layer: layer, end_layer: layer }),
{
    TraceAnchor { position, start_layer: layer, end_layer: layer }
}

/// What every pass keeps: a legal path with the input's two ends, never
/// longer than the input, with vias only at anchors of the input.
pub open spec fn pass_inv(cur: Seq<TraceAnchor>, orig: Seq<TraceAnchor>) -> bool {
    &&& anchors_ok(cur)
    &&& cur[0] == orig[0]
    &&& cur.last() == orig.last()
    &&& length_le(anchors_length(cur), anchors_length(orig))
    &&& forall|k: int|
        0 <= k < cur.len() ==> (#[trigger] cur[k]).start_layer == cur[k].end_layer || orig.contains(cur[k])
    &&& (orig.len() >= 2 ==> cur.len() >= 2)
}

proof fn lemma_pass_inv_trans(a: Seq<TraceAnchor>, b: Seq<TraceAnchor>, c: Seq<TraceAnchor>)
    requires
        pass_inv(b, a),
        c == b || pass_inv(c, b),
    ensures
        pass_inv(c, a),
{
    assert forall|k: int| 0 <= k < c.len() implies (#[trigger] c[k]).start_layer == c[k].end_layer || a.contains(
        c[k],
    ) by {
        if c[k].start_layer != c[k].end_layer {
            if c == b {
            } else {
                assert(b.contains(c[k]));
                let j = choose|j: int| 0 <= j < b.len() && b[j] == c[k];
                assert(a.contains(b[j]));
            }
        }
    }
}

/// The anchor at `p` on `layer`, without a via.
pub open spec fn flat_at(p: FixedVec2, layer: usize) -> TraceAnchor {
    TraceAnchor { position: p, start_layer: layer, end_layer: layer }
}

/// Anchors `j..=j + 2` lie on one layer, the middle one without a via.
pub open spec fn flat3(a: Seq<TraceAnchor>, j: int) -> bool {
    a[j].end_layer == a[j + 1].start_layer && a[j + 1].start_layer == a[j + 1].end_layer && a[j + 1].end_layer
        == a[j + 2].start_layer
}

/// Anchors `j..=j + 3` lie on one layer, the middle two without a via.
pub open spec fn flat4(a: Seq<TraceAnchor>, j: int) -> bool {
    flat3(a, j) && a[j + 2].start_layer == a[j + 2].end_layer && a[j + 2].end_layer == a[j + 3].start_layer
}

pub open spec fn right_angle(d1: Direction, d2: Direction) -> bool {
    abs(degree_of(d1) - degree_of(d2)) == 90 || abs(degree_of(d1) - degree_of(d2)) == 270
}

pub open spec fn convex(d1: Direction, d2: Direction, d3: Direction) -> bool {
    right_angle(d1, d3) && degree_of(d1) + degree_of(d3) == 2 * degree_of(d2)
}

pub open spec fn dir_at(a: Seq<TraceAnchor>, j: int) -> Direction {
    step_dir(a[j].position, a[j + 1].position)
}

pub open spec fn arm(a: Seq<TraceAnchor>, j: int) -> int {
    cheb(a[j + 1].position.x - a[j].position.x, a[j + 1].position.y - a[j].position.y)
}

/// The new anchors of a right-angle relaxation at corner `j + 1`: one grid
/// step back along the first arm and one along the second, each left out
/// where it falls on the outer anchor.
pub open spec fn relax_mid(a: Seq<TraceAnchor>, j: int) -> Seq<TraceAnchor> {
    let y = a[j + 1].position;
    let n1 = FixedVec2 { x: (y.x - dir_dx(dir_at(a, j))) as i64, y: (y.y - dir_dy(dir_at(a, j))) as i64 };
    let n2 = FixedVec2 { x: (y.x + dir_dx(dir_at(a, j + 1))) as i64, y: (y.y + dir_dy(dir_at(a, j + 1))) as i64 };
    let l = a[j].end_layer;
    (if n1 != a[j].position { seq![flat_at(n1, l)] } else { Seq::empty() }) + (if n2 != a[j + 2].position {
        seq![flat_at(n2, l)]
    } else {
        Seq::empty()
    })
}

/// A right angle at anchor `j + 1` with an arm longer than one grid step,
/// whose relaxation would be a legal, shorter window.
pub open spec fn relaxable(a: Seq<TraceAnchor>, j: int) -> bool {
    &&& 0 <= j && j + 2 < a.len()
    &&& flat3(a, j)
    &&& right_angle(dir_at(a, j), dir_at(a, j + 1))
    &&& (arm(a, j) > 1 || arm(a, j + 1) > 1)
    &&& acceptable(a, j, j + 2, relax_mid(a, j))
}

/// The parallel shift of the jog between anchors `j + 1` and `j + 2` to the
/// start of the window: the new anchor.
pub open spec fn shift_point(a: Seq<TraceAnchor>, j: int) -> FixedVec2 {
    FixedVec2 {
        x: (a[j].position.x + a[j + 2].position.x - a[j + 1].position.x) as i64,
        y: (a[j].position.y + a[j + 2].position.y - a[j + 1].position.y) as i64,
    }
}

/// Two parallel segments joined by a jog in another direction, whose shift
/// to the start would be a legal, smaller window.
pub open spec fn shiftable(a: Seq<TraceAnchor>, j: int) -> bool {
    &&& 0 <= j && j + 3 < a.len()
    &&& flat4(a, j)
    &&& dir_at(a, j) == dir_at(a, j + 2)
    &&& dir_at(a, j) != dir_at(a, j + 1)
    &&& acceptable(a, j, j + 3, seq![flat_at(shift_point(a, j), a[j].end_layer)])
}

/// The largest even slide that leaves both outer arms some length.
pub open spec fn best_slide(max_len: int) -> int {
    if max_len % 2 == 0 { max_len - 2 } else { max_len - 1 }
}

proof fn lemma_best_slide(m: int, s: int)
    requires
        s % 2 == 0,
        s - 2 < m <= s,
    ensures
        s - 2 == best_slide(m),
{
    if m == s {
    } else {
        assert(m == s - 1);
        assert(m % 2 == 1);
    }
}

pub open spec fn tighten_len(a: Seq<TraceAnchor>, j: int) -> int {
    if arm(a, j - 1) <= arm(a, j + 1) { arm(a, j - 1) } else { arm(a, j + 1) }
}

/// The new anchors of the convex tightening at corner `j..=j + 1`.
pub open spec fn tighten_mid(a: Seq<TraceAnchor>, j: int) -> Seq<TraceAnchor> {
    let s = best_slide(tighten_len(a, j));
    let p1 = a[j].position;
    let p2 = a[j + 1].position;
    let d1 = dir_at(a, j - 1);
    let d3 = dir_at(a, j + 1);
    let l = a[j - 1].end_layer;
    seq![
        flat_at(FixedVec2 { x: (p1.x - dir_dx(d1) * s) as i64, y: (p1.y - dir_dy(d1) * s) as i64 }, l),
        flat_at(FixedVec2 { x: (p2.x + dir_dx(d3) * s) as i64, y: (p2.y + dir_dy(d3) * s) as i64 }, l),
    ]
}

/// An axis, diagonal, axis corner at anchors `j - 1..=j + 2` with room for a
/// slide, whose tightening would be a legal, shorter window.
pub open spec fn tightenable(a: Seq<TraceAnchor>, j: int) -> bool {
    &&& 1 <= j && j + 2 < a.len()
    &&& flat4(a, j - 1)
    &&& convex(dir_at(a, j - 1), dir_at(a, j), dir_at(a, j + 1))
    &&& crate::direction::is_diag(dir_at(a, j))
    &&& tighten_len(a, j) > 2
    &&& acceptable(a, j - 1, j + 2, tighten_mid(a, j))
}

/// Collinear merge and right-angle relaxation over three consecutive
/// anchors on one layer: a right angle with an arm longer than one grid step
/// is cut by a diagonal one grid step from the corner.
/// No rewrite of the optimizer applies anywhere on `a`.
pub open spec fn fixed_point(a: Seq<TraceAnchor>) -> bool {
    forall|j: int|
        !#[trigger] relaxable(a, j) && !mergeable(a, j) && !shiftable(a, j) && !tightenable(a, j)
}

/// `y` is `x` after one rewrite of the optimizer at `j`, in the form it takes
/// where nothing is reported in the way.
pub open spec fn step_at(x: Seq<TraceAnchor>, y: Seq<TraceAnchor>, j: int) -> bool {
    ||| (mergeable(x, j) && y == splice(x, j, j + 2, Seq::empty()))
    ||| (relaxable(x, j) && y == splice(x, j, j + 2, relax_mid(x, j)))
    ||| (shiftable(x, j) && y == splice(x, j, j + 3, seq![flat_at(shift_point(x, j), x[j].end_layer)]))
    ||| (tightenable(x, j) && y == splice(x, j - 1, j + 2, tighten_mid(x, j)))
}

pub open spec fn linked(chain: Seq<Seq<TraceAnchor>>, k: int) -> bool {
    exists|j: int| #[trigger] step_at(chain[k], chain[k + 1], j)
}

/// `chain` leads from `x` to `y`, one rewrite at a time.
pub open spec fn rewrite_chain(chain: Seq<Seq<TraceAnchor>>, x: Seq<TraceAnchor>, y: Seq<TraceAnchor>) -> bool {
    &&& chain.len() >= 1
    &&& chain[0] == x
    &&& chain.last() == y
    &&& forall|k: int| 0 <= k < chain.len() - 1 ==> #[trigger] linked(chain, k)
}

/// `y` is reached from `x` by a sequence of rewrites.
pub open spec fn reaches(x: Seq<TraceAnchor>, y: Seq<TraceAnchor>) -> bool {
    exists|chain: Seq<Seq<TraceAnchor>>| #[trigger] rewrite_chain(chain, x, y)
}

proof fn lemma_reaches_refl(x: Seq<TraceAnchor>)
    ensures
        reaches(x, x),
{
    let chain = seq![x];
    assert(rewrite_chain(chain, x, x));
}

proof fn lemma_reaches_step(x: Seq<TraceAnchor>, y: Seq<TraceAnchor>, z: Seq<TraceAnchor>, j: int)
    requires
        reaches(x, y),
        step_at(y, z, j),
    ensures
        reaches(x, z),
{
    let chain = choose|chain: Seq<Seq<TraceAnchor>>| #[trigger] rewrite_chain(chain, x, y);
    let c2 = chain.push(z);
    assert forall|k: int| 0 <= k < c2.len() - 1 implies #[trigger] linked(c2, k) by {
        if k < chain.len() - 1 {
            assert(linked(chain, k));
            assert(c2[k] == chain[k] && c2[k + 1] == chain[k + 1]);
        } else {
            assert(c2[k] == y && c2[k + 1] == z);
            assert(step_at(c2[k], c2[k + 1], j));
        }
    }
    assert(rewrite_chain(c2, x, z));
}

proof fn lemma_reaches_trans(x: Seq<TraceAnchor>, y: Seq<TraceAnchor>, z: Seq<TraceAnchor>)
    requires
        reaches(x, y),
        reaches(y, z),
    ensures
        reaches(x, z),
{
    let c1 = choose|chain: Seq<Seq<TraceAnchor>>| #[trigger] rewrite_chain(chain, x, y);
    let c2 = choose|chain: Seq<Seq<TraceAnchor>>| #[trigger] rewrite_chain(chain, y, z);
    let c = c1 + c2.drop_first();
    assert forall|k: int| 0 <= k < c.len() - 1 implies #[trigger] linked(c, k) by {
        if k < c1.len() - 1 {
            assert(linked(c1, k));
            assert(c[k] == c1[k] && c[k + 1] == c1[k + 1]);
        } else {
            let k2 = k - (c1.len() - 1);
            assert(linked(c2, k2));
            if k2 == 0 {
                assert(c[k] == c1.last());
                assert(c1.last() == y && c2[0] == y);
            } else {
                assert(c[k] == c2[k2]);
            }
            assert(c[k + 1] == c2[k2 + 1]);
        }
    }
    if c2.len() == 1 {
        assert(c =~= c1);
    }
    assert(rewrite_chain(c, x, z));
}

/// Some rewrite of the optimizer applies to `a` at `j`.
pub open spec fn rewrite_at(a: Seq<TraceAnchor>, j: int) -> bool {
    relaxable(a, j) || mergeable(a, j) || shiftable(a, j) || tightenable(a, j)
}

/// Collinear merge or right-angle relaxation at anchor `i`: returns whether
/// the path changed and how far the sweep moves on.
#[verifier::rlimit(100)]
fn relax_at<F: Fn(FixedVec2, FixedVec2, u64, u64, usize) -> bool>(
    opt: &mut Vec<TraceAnchor>,
    i: usize,
    check_collision: &F,
    width: u64,
    clearance: u64,
) -> (r: (bool, usize))
    requires
        anchors_ok(old(opt)@),
        i + 2 < old(opt)@.len(),
        forall|p: FixedVec2, q: FixedVec2, w: u64, c: u64, l: usize| #[trigger]
            check_collision.requires((p, q, w, c, l)),
    ensures
        pass_inv(final(opt)@, old(opt)@),
        !r.0 ==> final(opt)@ == old(opt)@,
        r.0 ==> measure_lt(final(opt)@, old(opt)@),
        crate::astar::never_reports_segment(*check_collision) && !r.0 ==> !relaxable(old(opt)@, i as int)
            && !mergeable(old(opt)@, i as int),
        crate::astar::never_reports_segment(*check_collision) && r.0 ==> relaxable(old(opt)@, i as int)
            || mergeable(old(opt)@, i as int),
        crate::astar::never_reports_segment(*check_collision) && r.0 ==> step_at(old(opt)@, final(opt)@, i as int),
        r.1 == 1 || r.1 == 2,
        final(opt)@.len() < old(opt)@.len() + r.1,
        final(opt)@.len() + 1 >= old(opt)@.len(),
        r.1 == 2 ==> final(opt)@.len() == old(opt)@.len() + 1,
{
    let mut changed = false;
    let ghost before = opt@;
    let x = opt[i];
    let y = opt[i + 1];
    let z = opt[i + 2];
    assert(point_ok(opt@[i as int].position));
    assert(point_ok(opt@[i + 1].position));
    assert(point_ok(opt@[i + 2].position));
    assert(link_ok(before[i as int], before[i + 1]));
    assert(link_ok(before[i + 1], before[i + 2]));
    let mut step: usize = 1;
    if merge_at(opt, i) {
        changed = true;
    } else if x.end_layer == y.start_layer && y.start_layer == y.end_layer && y.end_layer == z.start_layer {
        let layer = x.end_layer;
        let r1 = Direction::from_points(x.position, y.position);
        let r2 = Direction::from_points(y.position, z.position);
        if let (Ok(d1), Ok(d2)) = (r1, r2) {
            if is_right_angle(d1, d2) && (steps_between(x.position, y.position) > 1 || steps_between(
                y.position,
                z.position,
            ) > 1) {
                let u1 = d1.to_fixed_vec2(1);
                let u2 = d2.to_fixed_vec2(1);
                let n1 = FixedVec2 { x: y.position.x - u1.x, y: y.position.y - u1.y };
                let n2 = FixedVec2 { x: y.position.x + u2.x, y: y.position.y + u2.y };
                if !check_collision(n1, n2, width, clearance, layer) {
                    let mut mid: Vec<TraceAnchor> = Vec::new();
                    if n1 != x.position {
                        mid.push(flat_anchor(n1, layer));
                    }
                    if n2 != z.position {
                        mid.push(flat_anchor(n2, layer));
                    }
                    proof {
                        assert(mid@ =~= relax_mid(before, i as int));
                    }
                    let inserted = mid.len() == 2;
                    if try_splice(opt, i, i + 2, mid) {
                        changed = true;
                        if inserted {
                            step = 2;
                        }
                    }
                }
            }
        }
    }
    (changed, step)
}

#[verifier::rlimit(100)]
fn merge_and_relax_sweep<F: Fn(FixedVec2, FixedVec2, u64, u64, usize) -> bool>(
    opt: &mut Vec<TraceAnchor>,
    check_collision: &F,
    width: u64,
    clearance: u64,
) -> (changed: bool)
    requires
        anchors_ok(old(opt)@),
        forall|p: FixedVec2, q: FixedVec2, w: u64, c: u64, l: usize| #[trigger]
            check_collision.requires((p, q, w, c, l)),
    ensures
        pass_inv(final(opt)@, old(opt)@),
        !changed ==> final(opt)@ == old(opt)@,
        changed ==> measure_lt(final(opt)@, old(opt)@),
        crate::astar::never_reports_segment(*check_collision) ==> reaches(old(opt)@, final(opt)@),
        crate::astar::never_reports_segment(*check_collision) && !changed ==> forall|j: int|
            !#[trigger] relaxable(final(opt)@, j) && !mergeable(final(opt)@, j),
        crate::astar::never_reports_segment(*check_collision) && changed ==> exists|j: int|
            #[trigger] rewrite_at(old(opt)@, j),
{
    let ghost a0 = opt@;
    proof {
        lemma_reaches_refl(a0);
    }
    let mut changed = false;
    let mut i: usize = 0;
    while i + 2 < opt.len()
        invariant
            pass_inv(opt@, a0),
            !changed ==> opt@ == a0,
            changed ==> measure_lt(opt@, a0),
            crate::astar::never_reports_segment(*check_collision) ==> reaches(a0, opt@),
            crate::astar::never_reports_segment(*check_collision) && !changed ==> forall|j: int|
                j < i ==> !#[trigger] relaxable(opt@, j) && !mergeable(opt@, j),
            crate::astar::never_reports_segment(*check_collision) && changed ==> exists|j: int|
                #[trigger] rewrite_at(a0, j),
            i <= opt@.len(),
            forall|p: FixedVec2, q: FixedVec2, w: u64, c: u64, l: usize| #[trigger]
                check_collision.requires((p, q, w, c, l)),
        decreases opt@.len() - i,
    {
        let ghost before = opt@;
        let (ch, step) = relax_at(opt, i, check_collision, width, clearance);
        proof {
            if crate::astar::never_reports_segment(*check_collision) && ch && !changed {
                assert(rewrite_at(a0, i as int));
            }
        }
        proof {
            if crate::astar::never_reports_segment(*check_collision) && ch {
                lemma_reaches_step(a0, before, opt@, i as int);
            }
        }
        if ch {
            changed = true;
        }
        proof {
            lemma_pass_inv_trans(a0, before, opt@);
            if crate::astar::never_reports_segment(*check_collision) && !changed {
                assert(opt@ == before);
                assert(!relaxable(before, i as int));
                assert forall|j: int| j < i + step implies !#[trigger] relaxable(opt@, j) && !mergeable(opt@, j) by {
                    if j < i {
                    }
                }
            }
        }
        i = i + step;
    }
    changed
}

/// Parallel shift: where two parallel segments are joined by a segment in
/// another direction, move the joining segment to one end of the pair and
/// drop an anchor.
#[verifier::rlimit(100)]
fn parallel_shift_sweep<F: Fn(FixedVec2, FixedVec2, u64, u64, usize) -> bool>(
    opt: &mut Vec<TraceAnchor>,
    check_collision: &F,
    width: u64,
    clearance: u64,
) -> (changed: bool)
    requires
        anchors_ok(old(opt)@),
        forall|p: FixedVec2, q: FixedVec2, w: u64, c: u64, l: usize| #[trigger]
            check_collision.requires((p, q, w, c, l)),
    ensures
        pass_inv(final(opt)@, old(opt)@),
        !changed ==> final(opt)@ == old(opt)@,
        changed ==> measure_lt(final(opt)@, old(opt)@),
        crate::astar::never_reports_segment(*check_collision) ==> reaches(old(opt)@, final(opt)@),
        crate::astar::never_reports_segment(*check_collision) && !changed ==> forall|j: int|
            !#[trigger] shiftable(final(opt)@, j),
        crate::astar::never_reports_segment(*check_collision) && changed ==> exists|j: int|
            #[trigger] rewrite_at(old(opt)@, j),
{
    let ghost a0 = opt@;
    proof {
        lemma_reaches_refl(a0);
    }
    let mut changed = false;
    let mut i: usize = 0;
    while i + 3 < opt.len()
        invariant
            pass_inv(opt@, a0),
            !changed ==> opt@ == a0,
            changed ==> measure_lt(opt@, a0),
            crate::astar::never_reports_segment(*check_collision) ==> reaches(a0, opt@),
            crate::astar::never_reports_segment(*check_collision) && !changed ==> forall|j: int|
                j < i ==> !#[trigger] shiftable(opt@, j),
            crate::astar::never_reports_segment(*check_collision) && changed ==> exists|j: int|
                #[trigger] rewrite_at(a0, j),
            i <= opt@.len(),
            forall|p: FixedVec2, q: FixedVec2, w: u64, c: u64, l: usize| #[trigger]
                check_collision.requires((p, q, w, c, l)),
        decreases opt@.len() - i,
    {
        let ghost before = opt@;
        let ghost was_changed = changed;
        let a = opt[i];
        let b = opt[i + 1];
        let c = opt[i + 2];
        let d = opt[i + 3];
        assert(point_ok(opt@[i as int].position));
        assert(point_ok(opt@[i + 1].position));
        assert(point_ok(opt@[i + 2].position));
        assert(point_ok(opt@[i + 3].position));
        assert(link_ok(before[i as int], before[i + 1]));
        assert(link_ok(before[i + 1], before[i + 2]));
        assert(link_ok(before[i + 2], before[i + 3]));
        if a.end_layer == b.start_layer && b.start_layer == b.end_layer && b.end_layer == c.start_layer
            && c.start_layer == c.end_layer && c.end_layer == d.start_layer {
            let layer = a.end_layer;
            let (pt0, pt1, pt2, pt3) = (a.position, b.position, c.position, d.position);
            let r1 = Direction::from_points(pt0, pt1);
            let r2 = Direction::from_points(pt1, pt2);
            let r3 = Direction::from_points(pt2, pt3);
            if let (Ok(dir1), Ok(dir2), Ok(dir3)) = (r1, r2, r3) {
                if dir1 == dir3 && dir1 != dir2 {
                    let new_point1 = FixedVec2 { x: pt0.x + pt2.x - pt1.x, y: pt0.y + pt2.y - pt1.y };
                    let new_point2 = FixedVec2 { x: pt3.x - pt2.x + pt1.x, y: pt3.y - pt2.y + pt1.y };
                    let flag1 = !check_collision(pt0, new_point1, width, clearance, layer)
                        && !check_collision(new_point1, pt2, width, clearance, layer);
                    let flag2 = !check_collision(pt1, new_point2, width, clearance, layer)
                        && !check_collision(new_point2, pt3, width, clearance, layer);
                    if flag1 {
                        let mut mid: Vec<TraceAnchor> = Vec::new();
                        mid.push(flat_anchor(new_point1, layer));
                        proof {
                            assert(mid@ =~= seq![flat_at(shift_point(before, i as int), before[i as int].end_layer)]);
                        }
                        if try_splice(opt, i, i + 3, mid) {
                            changed = true;
                            proof {
                                if crate::astar::never_reports_segment(*check_collision) {
                                    assert(shiftable(before, i as int));
                                    assert(step_at(before, opt@, i as int));
                                    lemma_reaches_step(a0, before, opt@, i as int);
                                }
                            }
                        }
                    } else if flag2 {
                        let mut mid: Vec<TraceAnchor> = Vec::new();
                        mid.push(flat_anchor(new_point2, layer));
                        if try_splice(opt, i, i + 3, mid) {
                            changed = true;
                        }
                    }
                }
            }
        }
        proof {
            lemma_pass_inv_trans(a0, before, opt@);
            if crate::astar::never_reports_segment(*check_collision) && changed && !was_changed {
                assert(before == a0);
                assert(shiftable(before, i as int));
                assert(rewrite_at(a0, i as int));
            }
            if crate::astar::never_reports_segment(*check_collision) && !changed {
                assert(opt@ == before);
                assert(!shiftable(before, i as int));
                assert forall|j: int| j < i + 1 implies !#[trigger] shiftable(opt@, j) by {
                    if j < i {
                    }
                }
            }
        }
        i = i + 1;
    }
    changed
}

/// Grid steps of a horizontal, vertical or diagonal segment.
fn steps_between(p: FixedVec2, q: FixedVec2) -> (r: i64)
    requires
        point_ok(p),
        point_ok(q),
    ensures
        r == cheb(q.x - p.x, q.y - p.y),
        0 <= r <= 2 * COORD_LIMIT,
{
    let dx = q.x - p.x;
    let dy = q.y - p.y;
    let adx = if dx < 0 { -dx } else { dx };
    let ady = if dy < 0 { -dy } else { dy };
    if adx >= ady { adx } else { ady }
}

/// The largest even slide, from two up and below `max_len`, up to which the
/// three new segments of a convex tightening are reported free.
fn slide_search<F: Fn(FixedVec2, FixedVec2, u64, u64, usize) -> bool>(
    pt0: FixedVec2,
    pt1: FixedVec2,
    pt2: FixedVec2,
    pt3: FixedVec2,
    dir1: Direction,
    dir3: Direction,
    max_len: i64,
    layer: usize,
    check_collision: &F,
    width: u64,
    clearance: u64,
) -> (best: i64)
    requires
        point_ok(pt0) && point_ok(pt1) && point_ok(pt2) && point_ok(pt3),
        0 <= max_len <= 2 * COORD_LIMIT,
        forall|p: FixedVec2, q: FixedVec2, w: u64, c: u64, l: usize| #[trigger]
            check_collision.requires((p, q, w, c, l)),
    ensures
        0 <= best <= 2 * COORD_LIMIT,
        best > 0 ==> max_len > 2,
        crate::astar::never_reports_segment(*check_collision) && max_len > 2 ==> best == best_slide(max_len as int),
{
    let mut best: i64 = 0;
    let mut slide: i64 = 2;
    let mut stop = false;
    while slide < max_len && !stop
        invariant
            stop ==> !crate::astar::never_reports_segment(*check_collision),
            0 <= best <= 2 * COORD_LIMIT,
            best > 0 ==> max_len > 2,
            2 <= slide <= max_len + 2,
            0 <= max_len <= 2 * COORD_LIMIT,
            slide % 2 == 0,
            slide == 2 || slide - 2 < max_len,
            crate::astar::never_reports_segment(*check_collision) ==> best == slide - 2,
            point_ok(pt0) && point_ok(pt1) && point_ok(pt2) && point_ok(pt3),
            forall|p: FixedVec2, q: FixedVec2, w: u64, c: u64, l: usize| #[trigger]
                check_collision.requires((p, q, w, c, l)),
        decreases max_len + 2 - slide + (if stop { 0int } else { 1int }),
    {
        let v1 = dir1.to_fixed_vec2(slide);
        let v3 = dir3.to_fixed_vec2(slide);
        let new_point1 = FixedVec2 { x: pt1.x - v1.x, y: pt1.y - v1.y };
        let new_point2 = FixedVec2 { x: pt2.x + v3.x, y: pt2.y + v3.y };
        if check_collision(pt0, new_point1, width, clearance, layer)
            || check_collision(new_point1, new_point2, width, clearance, layer)
            || check_collision(new_point2, pt3, width, clearance, layer) {
            stop = true;
        } else {
            best = slide;
            slide = slide + 2;
        }
    }
    proof {
        if crate::astar::never_reports_segment(*check_collision) && max_len > 2 {
            lemma_best_slide(max_len as int, slide as int);
        }
    }
    best
}

/// Convex tightening at the corner `opt[i - 1..=i + 2]`. Returns whether the
/// path changed.
#[verifier::rlimit(100)]
fn tighten_corner<F: Fn(FixedVec2, FixedVec2, u64, u64, usize) -> bool>(
    opt: &mut Vec<TraceAnchor>,
    i: usize,
    check_collision: &F,
    width: u64,
    clearance: u64,
) -> (changed: bool)
    requires
        anchors_ok(old(opt)@),
        1 <= i,
        i + 2 < old(opt)@.len(),
        forall|p: FixedVec2, q: FixedVec2, w: u64, c: u64, l: usize| #[trigger]
            check_collision.requires((p, q, w, c, l)),
    ensures
        pass_inv(final(opt)@, old(opt)@),
        !changed ==> final(opt)@ == old(opt)@,
        final(opt)@.len() + 2 >= old(opt)@.len(),
        final(opt)@.len() <= old(opt)@.len(),
        changed ==> measure_lt(final(opt)@, old(opt)@),
        crate::astar::never_reports_segment(*check_collision) && !changed ==> !tightenable(old(opt)@, i as int),
        crate::astar::never_reports_segment(*check_collision) && changed ==> tightenable(old(opt)@, i as int),
        crate::astar::never_reports_segment(*check_collision) && changed ==> step_at(old(opt)@, final(opt)@, i as int),
{
    let ghost a0 = opt@;
    let mut changed = false;
    let a = opt[i - 1];
    let b = opt[i];
    let c = opt[i + 1];
    let d = opt[i + 2];
    assert(point_ok(opt@[i - 1].position));
    assert(point_ok(opt@[i as int].position));
    assert(point_ok(opt@[i + 1].position));
    assert(point_ok(opt@[i + 2].position));
    assert(link_ok(a0[i - 1], a0[i as int]));
    assert(link_ok(a0[i as int], a0[i + 1]));
    assert(link_ok(a0[i + 1], a0[i + 2]));
    if a.end_layer == b.start_layer && b.start_layer == b.end_layer && b.end_layer == c.start_layer
        && c.start_layer == c.end_layer && c.end_layer == d.start_layer {
        let layer = a.end_layer;
        let (pt0, pt1, pt2, pt3) = (a.position, b.position, c.position, d.position);
        let r1 = Direction::from_points(pt0, pt1);
        let r2 = Direction::from_points(pt1, pt2);
        let r3 = Direction::from_points(pt2, pt3);
        if let (Ok(dir1), Ok(dir2), Ok(dir3)) = (r1, r2, r3) {
            if is_convex(dir1, dir2, dir3) && dir2.is_diagonal() {
                let len1 = steps_between(pt0, pt1);
                let len3 = steps_between(pt2, pt3);
                let max_len = if len1 <= len3 { len1 } else { len3 };
                // slide two grid units at a time while the new segments stay
                // free and both outer arms keep some length
                let best = slide_search(pt0, pt1, pt2, pt3, dir1, dir3, max_len, layer, check_collision, width, clearance);
                proof {
                    if crate::astar::never_reports_segment(*check_collision) {
                        assert(max_len == tighten_len(a0, i as int));
                    }
                }
                if best > 0 {
                    let v1 = dir1.to_fixed_vec2(best);
                    let v3 = dir3.to_fixed_vec2(best);
                    let new_point1 = FixedVec2 { x: pt1.x - v1.x, y: pt1.y - v1.y };
                    let new_point2 = FixedVec2 { x: pt2.x + v3.x, y: pt2.y + v3.y };
                    let mut mid: Vec<TraceAnchor> = Vec::new();
                    mid.push(flat_anchor(new_point1, layer));
                    mid.push(flat_anchor(new_point2, layer));
                    proof {
                        if crate::astar::never_reports_segment(*check_collision) && max_len > 2 {
                            assert(mid@ =~= tighten_mid(a0, i as int));
                        }
                    }
                    if try_splice(opt, i - 1, i + 2, mid) {
                        changed = true;
                    }
                }
            }
        }
    }
    changed
}

/// Convex tightening over every corner of the path: an axis, diagonal, axis
/// corner is cut deeper by sliding its two middle anchors along the outer
/// segments, two grid units at a time, as far as the new segments stay free
/// and no outer segment collapses.
#[verifier::rlimit(100)]
fn convex_sweep<F: Fn(FixedVec2, FixedVec2, u64, u64, usize) -> bool>(
    opt: &mut Vec<TraceAnchor>,
    check_collision: &F,
    width: u64,
    clearance: u64,
) -> (changed: bool)
    requires
        anchors_ok(old(opt)@),
        forall|p: FixedVec2, q: FixedVec2, w: u64, c: u64, l: usize| #[trigger]
            check_collision.requires((p, q, w, c, l)),
    ensures
        pass_inv(final(opt)@, old(opt)@),
        !changed ==> final(opt)@ == old(opt)@,
        changed ==> measure_lt(final(opt)@, old(opt)@),
        crate::astar::never_reports_segment(*check_collision) ==> reaches(old(opt)@, final(opt)@),
        crate::astar::never_reports_segment(*check_collision) && !changed ==> forall|j: int|
            !#[trigger] tightenable(final(opt)@, j),
        crate::astar::never_reports_segment(*check_collision) && changed ==> exists|j: int|
            #[trigger] rewrite_at(old(opt)@, j),
{
    let ghost a0 = opt@;
    proof {
        lemma_reaches_refl(a0);
    }
    let mut changed = false;
    let mut i: usize = 1;
    while i + 2 < opt.len()
        invariant
            pass_inv(opt@, a0),
            !changed ==> opt@ == a0,
            changed ==> measure_lt(opt@, a0),
            crate::astar::never_reports_segment(*check_collision) ==> reaches(a0, opt@),
            crate::astar::never_reports_segment(*check_collision) && !changed ==> forall|j: int|
                j < i ==> !#[trigger] tightenable(opt@, j),
            crate::astar::never_reports_segment(*check_collision) && changed ==> exists|j: int|
                #[trigger] rewrite_at(a0, j),
            1 <= i <= opt@.len(),
            forall|p: FixedVec2, q: FixedVec2, w: u64, c: u64, l: usize| #[trigger]
                check_collision.requires((p, q, w, c, l)),
        decreases opt@.len() - i,
    {
        let ghost before = opt@;
        let ch = tighten_corner(opt, i, check_collision, width, clearance);
        proof {
            if crate::astar::never_reports_segment(*check_collision) && ch && !changed {
                assert(rewrite_at(a0, i as int));
            }
        }
        proof {
            if crate::astar::never_reports_segment(*check_collision) && ch {
                lemma_reaches_step(a0, before, opt@, i as int);
            }
        }
        if ch {
            changed = true;
        }
        proof {
            lemma_pass_inv_trans(a0, before, opt@);
            if crate::astar::never_reports_segment(*check_collision) && !changed {
                assert forall|j: int| j < i + 1 implies !#[trigger] tightenable(opt@, j) by {
                    if j < i {
                    }
                }
            }
        }
        i = i + 1;
    }
    changed
}

/// Tightens a routed path: merges collinear anchors, cuts right angles,
/// shifts jogs between parallel segments and pulls convex corners inward,
/// pass after pass until a pass changes nothing; every rewrite makes the
/// path strictly smaller in `measure_lt`, so this ends.
/// `check_collision(p, q, width, clearance, layer)` tells whether a new
/// segment from `p` to `q` would hit an obstacle; a rewrite that needs a new
/// segment is made only where it says no. The result keeps the two end
/// anchors, is a consistent trace path and is never longer than the input.
pub fn optimize_path<F: Fn(FixedVec2, FixedVec2, u64, u64, usize) -> bool>(
    trace_path: &TracePath,
    check_collision: &F,
    trace_width: u64,
    trace_clearance: u64,
    via_diameter: u64,
) -> (r: TracePath)
    requires
        anchors_ok(trace_path.anchors.0@),
        forall|p: FixedVec2, q: FixedVec2, w: u64, c: u64, l: usize| #[trigger]
            check_collision.requires((p, q, w, c, l)),
    ensures
        r.consistent(trace_width, trace_clearance, via_diameter),
        pass_inv(r.anchors.0@, trace_path.anchors.0@),
        // collision-free whenever the input was
        anchors_reported_free(trace_path.anchors.0@, trace_width, trace_clearance, *check_collision)
            ==> anchors_reported_free(r.anchors.0@, trace_width, trace_clearance, *check_collision) || merges_of(
            r.anchors.0@,
            trace_path.anchors.0@,
        ),
        collinear_free(r.anchors.0@),
        // with every segment reported in the way, only collinear runs merge
        always_reports_segment(*check_collision) && trace_path.anchors.0@.len() >= 2 ==> merges_of(
            r.anchors.0@,
            trace_path.anchors.0@,
        ),
        crate::astar::never_reports_segment(*check_collision) ==> collinear_free(r.anchors.0@),
        // with nothing ever reported in the way, no rewrite applies to the result
        crate::astar::never_reports_segment(*check_collision) ==> fixed_point(r.anchors.0@),
        // a path no rewrite applies to comes back unchanged; with the clause
        // above, optimizing twice gives what optimizing once gives
        crate::astar::never_reports_segment(*check_collision) && fixed_point(trace_path.anchors.0@)
            ==> r.anchors.0@ == trace_path.anchors.0@,
        // with nothing reported in the way, the result is reached from the
        // input by the rewrites themselves
        crate::astar::never_reports_segment(*check_collision) ==> reaches(trace_path.anchors.0@, r.anchors.0@),
{
    let mut opt: Vec<TraceAnchor> = Vec::new();
    extend_range(&mut opt, &trace_path.anchors.0, 0, trace_path.anchors.0.len());
    let ghost a0 = trace_path.anchors.0@;
    assert(opt@ =~= a0);
    let mut done = false;
    proof {
        lemma_length_bound(opt@);
        lemma_reaches_refl(a0);
    }
    while !done
        invariant
            pass_inv(opt@, a0),
            forall|p: FixedVec2, q: FixedVec2, w: u64, c: u64, l: usize| #[trigger]
                check_collision.requires((p, q, w, c, l)),
            len_straight(opt@) >= 0 && len_diagonal(opt@) >= 0,
            done && crate::astar::never_reports_segment(*check_collision) ==> fixed_point(opt@),
            crate::astar::never_reports_segment(*check_collision) && fixed_point(a0) ==> opt@ == a0,
            crate::astar::never_reports_segment(*check_collision) ==> reaches(a0, opt@),
        decreases (if done { 0int } else { 1int }), len_straight(opt@) + len_diagonal(opt@), len_straight(opt@) + 2
            * len_diagonal(opt@), opt@.len(),
    {
        let ghost s0 = opt@;
        let c1 = merge_and_relax_sweep(&mut opt, check_collision, trace_width, trace_clearance);
        proof {
            lemma_pass_inv_trans(a0, s0, opt@);
            if crate::astar::never_reports_segment(*check_collision) {
                lemma_reaches_trans(a0, s0, opt@);
            }
        }
        let ghost s1 = opt@;
        let c2 = parallel_shift_sweep(&mut opt, check_collision, trace_width, trace_clearance);
        proof {
            lemma_pass_inv_trans(a0, s1, opt@);
            if crate::astar::never_reports_segment(*check_collision) {
                lemma_reaches_trans(a0, s1, opt@);
            }
        }
        let ghost s2 = opt@;
        let c3 = convex_sweep(&mut opt, check_collision, trace_width, trace_clearance);
        proof {
            lemma_pass_inv_trans(a0, s2, opt@);
            lemma_length_bound(opt@);
            if crate::astar::never_reports_segment(*check_collision) {
                lemma_reaches_trans(a0, s2, opt@);
            }
            if crate::astar::never_reports_segment(*check_collision) && fixed_point(a0) {
                assert(!c1) by {
                    if c1 {
                        let j = choose|j: int| #[trigger] rewrite_at(s0, j);
                        assert(!relaxable(a0, j) && !mergeable(a0, j) && !shiftable(a0, j) && !tightenable(a0, j));
                    }
                }
                assert(!c2) by {
                    if c2 {
                        let j = choose|j: int| #[trigger] rewrite_at(s1, j);
                        assert(!relaxable(a0, j) && !mergeable(a0, j) && !shiftable(a0, j) && !tightenable(a0, j));
                    }
                }
                assert(!c3) by {
                    if c3 {
                        let j = choose|j: int| #[trigger] rewrite_at(s2, j);
                        assert(!relaxable(a0, j) && !mergeable(a0, j) && !shiftable(a0, j) && !tightenable(a0, j));
                    }
                }
            }
        }
        if !(c1 || c2 || c3) {
            done = true;
        }
    }
    let ghost before_collapse = opt@;
    collapse_collinear(&mut opt);
    proof {
        if crate::astar::never_reports_segment(*check_collision) {
            assert(collinear_free(before_collapse)) by {
                assert forall|j: int| !#[trigger] mergeable(before_collapse, j) by {
                    assert(!relaxable(before_collapse, j) && !mergeable(before_collapse, j));
                }
            }
            assert(opt@ == before_collapse);
        }
    }
    // every segment of the result is asked about once more; where one is
    // reported in the way, only the collinear runs of the input are merged
    if recheck_anchors(&opt, check_collision, trace_width, trace_clearance) {
        return anchor_to_tracepath(opt, trace_width, trace_clearance, via_diameter);
    }
    proof {
        if crate::astar::never_reports_segment(*check_collision) {
            assert(false);
        }
    }
    let mut merged: Vec<TraceAnchor> = Vec::new();
    extend_range(&mut merged, &trace_path.anchors.0, 0, trace_path.anchors.0.len());
    assert(merged@ =~= a0);
    collapse_collinear(&mut merged);
    anchor_to_tracepath(merged, trace_width, trace_clearance, via_diameter)
}

/// `r` only merges collinear runs of `a`: its anchors are anchors of `a`, it
/// has the same two ends and the same length, and no run is left to merge.
pub open spec fn merges_of(r: Seq<TraceAnchor>, a: Seq<TraceAnchor>) -> bool {
    &&& forall|k: int| 0 <= k < r.len() ==> a.contains(#[trigger] r[k])
    &&& r[0] == a[0]
    &&& r.last() == a.last()
    &&& anchors_length(r) == anchors_length(a)
    &&& collinear_free(r)
}

/// The segment check reports a collision, whatever it is asked.
pub open spec fn always_reports_segment<F: Fn(FixedVec2, FixedVec2, u64, u64, usize) -> bool>(f: F) -> bool {
    forall|p: FixedVec2, q: FixedVec2, w: u64, c: u64, l: usize, b: bool| #[trigger] f.ensures((p, q, w, c, l), b) ==> b
}

/// Every segment of the polyline through `a` was reported free by `f`.
pub open spec fn anchors_reported_free<F: Fn(FixedVec2, FixedVec2, u64, u64, usize) -> bool>(
    a: Seq<TraceAnchor>,
    width: u64,
    clearance: u64,
    f: F,
) -> bool {
    forall|i: int|
        0 <= i < a.len() - 1 ==> f.ensures(
            ((#[trigger] a[i]).position, a[i + 1].position, width, clearance, a[i].end_layer),
            false,
        )
}

/// Asks `check_collision` about every segment of the polyline through `a`;
/// true where none is reported in the way.
#[verifier::rlimit(60)]
fn recheck_anchors<F: Fn(FixedVec2, FixedVec2, u64, u64, usize) -> bool>(
    a: &Vec<TraceAnchor>,
    check_collision: &F,
    width: u64,
    clearance: u64,
) -> (r: bool)
    requires
        forall|p: FixedVec2, q: FixedVec2, w: u64, c: u64, l: usize| #[trigger]
            check_collision.requires((p, q, w, c, l)),
    ensures
        r ==> anchors_reported_free(a@, width, clearance, *check_collision),
        crate::astar::never_reports_segment(*check_collision) ==> r,
        always_reports_segment(*check_collision) && a@.len() >= 2 ==> !r,
{
    let n = a.len();
    if n == 0 {
        return true;
    }
    let mut i: usize = 0;
    while i < n - 1
        invariant
            n == a@.len() >= 1,
            i <= n - 1,
            always_reports_segment(*check_collision) ==> i == 0,
            forall|p: FixedVec2, q: FixedVec2, w: u64, c: u64, l: usize| #[trigger]
                check_collision.requires((p, q, w, c, l)),
            forall|k: int|
                0 <= k < i ==> check_collision.ensures(
                    ((#[trigger] a@[k]).position, a@[k + 1].position, width, clearance, a@[k].end_layer),
                    false,
                ),
        decreases a@.len() - i,
    {
        if check_collision(a[i].position, a[i + 1].position, width, clearance, a[i].end_layer) {
            return false;
        }
        i = i + 1;
    }
    true
}

/// Anchors `j`, `j + 1`, `j + 2` lie on one layer, the middle one without a
/// via, and the two segments between them run in one direction.
pub open spec fn mergeable(a: Seq<TraceAnchor>, j: int) -> bool {
    &&& 0 <= j
    &&& j + 2 < a.len()
    &&& a[j].end_layer == a[j + 1].start_layer
    &&& a[j + 1].start_layer == a[j + 1].end_layer
    &&& a[j + 1].end_layer == a[j + 2].start_layer
    &&& step_dir(a[j].position, a[j + 1].position) == step_dir(a[j + 1].position, a[j + 2].position)
}

/// No two consecutive segments of the path could be merged into one.
pub open spec fn collinear_free(a: Seq<TraceAnchor>) -> bool {
    forall|j: int| !#[trigger] mergeable(a, j)
}

/// Two legal steps in one direction make one legal step in that direction,
/// as long as the two together.
pub proof fn lemma_collinear_merge(x: FixedVec2, y: FixedVec2, z: FixedVec2)
    requires
        valid_step(x, y),
        valid_step(y, z),
        step_dir(x, y) == step_dir(y, z),
    ensures
        valid_step(x, z),
        step_dir(x, z) == step_dir(x, y),
        seg_straight(x, z) == seg_straight(x, y) + seg_straight(y, z),
        seg_diagonal(x, z) == seg_diagonal(x, y) + seg_diagonal(y, z),
{
}

/// Dropping the middle of three collinear anchors leaves a legal window of
/// the same length.
proof fn lemma_merge_window(x: TraceAnchor, y: TraceAnchor, z: TraceAnchor)
    requires
        point_ok(x.position) && point_ok(y.position) && point_ok(z.position),
        link_ok(x, y),
        link_ok(y, z),
        y.start_layer == y.end_layer,
        step_dir(x.position, y.position) == step_dir(y.position, z.position),
    ensures
        chain_ok(seq![x, z]),
        anchors_length(seq![x, z]) == anchors_length(seq![x, y, z]),
{
    lemma_collinear_merge(x.position, y.position, z.position);
    let w = seq![x, z];
    let v = seq![x, y, z];
    assert(w.drop_last() =~= seq![x]);
    assert(v.drop_last() =~= seq![x, y]);
    assert(seq![x, y].drop_last() =~= seq![x]);
    assert(len_straight(seq![x]) == 0 && len_diagonal(seq![x]) == 0);
    assert(len_straight(seq![x, y]) == seg_straight(x.position, y.position));
    assert(len_diagonal(seq![x, y]) == seg_diagonal(x.position, y.position));
    assert(len_straight(w) == seg_straight(x.position, z.position));
    assert(len_diagonal(w) == seg_diagonal(x.position, z.position));
    assert forall|k: int| 0 <= k < w.len() implies point_ok(#[trigger] w[k].position) by {}
    assert forall|k: int| 0 <= k < w.len() - 1 implies link_ok(#[trigger] w[k], w[k + 1]) by {
        assert(k == 0);
    }
}

/// Merges the segments after anchor `i` where `mergeable(opt, i)`; returns
/// whether it did.
#[verifier::rlimit(60)]
fn merge_at(opt: &mut Vec<TraceAnchor>, i: usize) -> (merged: bool)
    requires
        anchors_ok(old(opt)@),
        i + 2 < old(opt)@.len(),
    ensures
        merged ==> final(opt)@ == old(opt)@.remove(i + 1),
        merged ==> mergeable(old(opt)@, i as int) && measure_lt(final(opt)@, old(opt)@),
        merged ==> anchors_length(final(opt)@) == anchors_length(old(opt)@),
        merged ==> step_at(old(opt)@, final(opt)@, i as int),
        merged ==> forall|j: int| j < i && !mergeable(old(opt)@, j) ==> !#[trigger] mergeable(final(opt)@, j),
        !merged ==> final(opt)@ == old(opt)@ && !mergeable(old(opt)@, i as int),
        pass_inv(final(opt)@, old(opt)@),
        forall|k: int| 0 <= k < final(opt)@.len() ==> old(opt)@.contains(#[trigger] final(opt)@[k]),
{
    let ghost before = opt@;
    let x = opt[i];
    let y = opt[i + 1];
    let z = opt[i + 2];
    assert(point_ok(opt@[i as int].position));
    assert(point_ok(opt@[i + 1].position));
    assert(point_ok(opt@[i + 2].position));
    if !(x.end_layer == y.start_layer && y.start_layer == y.end_layer && y.end_layer == z.start_layer) {
        assert forall|k: int| 0 <= k < opt@.len() implies before.contains(#[trigger] opt@[k]) by {}
        return false;
    }
    let r1 = Direction::from_points(x.position, y.position);
    let r2 = Direction::from_points(y.position, z.position);
    assert(link_ok(before[i as int], before[i + 1]));
    assert(link_ok(before[i + 1], before[i + 2]));
    let same = match (r1, r2) {
        (Ok(d1), Ok(d2)) => d1 == d2,
        _ => false,
    };
    if !same {
        assert forall|k: int| 0 <= k < opt@.len() implies before.contains(#[trigger] opt@[k]) by {}
        return false;
    }
    let empty: Vec<TraceAnchor> = Vec::new();
    assert(empty@.len() == 0);
    proof {
        lemma_merge_window(x, y, z);
        assert(new_window(before, i as int, i + 2, empty@) =~= seq![x, z]);
        assert(before.subrange(i as int, i + 3) =~= seq![x, y, z]);
        assert(splice(before, i as int, i + 2, empty@).len() == before.len() - 1);
    }
    let merged = try_splice(opt, i, i + 2, empty);
    assert(merged);
    proof {
        let after = opt@;
        assert(after =~= before.remove(i + 1));
        assert forall|j: int| j < i && !mergeable(before, j) implies !#[trigger] mergeable(after, j) by {
            if 0 <= j && j + 2 < after.len() {
                if j + 2 <= i {
                    assert(after[j] == before[j] && after[j + 1] == before[j + 1] && after[j + 2] == before[j + 2]);
                } else {
                    assert(after[j] == before[j] && after[j + 1] == before[j + 1]);
                    assert(after[j + 2] == before[j + 3]);
                }
            }
        }
        assert forall|k: int| 0 <= k < after.len() implies before.contains(#[trigger] after[k]) by {
            assert(after[k] == if k <= i { before[k] } else { before[k + 1] });
        }
        assert(splice(before, i as int, i + 2, Seq::<TraceAnchor>::empty()) =~= after);
        assert(step_at(before, after, i as int));
    }
    true
}

/// Merges runs of collinear segments on one layer into single segments, as
/// A* reconstruction does with consecutive steps in one direction.
pub fn collapse_collinear(opt: &mut Vec<TraceAnchor>)
    requires
        anchors_ok(old(opt)@),
    ensures
        pass_inv(final(opt)@, old(opt)@),
        forall|k: int| 0 <= k < final(opt)@.len() ==> old(opt)@.contains(#[trigger] final(opt)@[k]),
        collinear_free(final(opt)@),
        collinear_free(old(opt)@) ==> final(opt)@ == old(opt)@,
        anchors_length(final(opt)@) == anchors_length(old(opt)@),
        reaches(old(opt)@, final(opt)@),
{
    let ghost a0 = opt@;
    proof {
        lemma_reaches_refl(a0);
    }
    let mut i: usize = 0;
    while i + 2 < opt.len()
        invariant
            reaches(a0, opt@),
            anchors_length(opt@) == anchors_length(a0),
            collinear_free(a0) ==> opt@ == a0,
            pass_inv(opt@, a0),
            i <= opt@.len(),
            forall|k: int| 0 <= k < opt@.len() ==> a0.contains(#[trigger] opt@[k]),
            forall|j: int| j < i ==> !#[trigger] mergeable(opt@, j),
        decreases opt@.len() - i,
    {
        let ghost before = opt@;
        let merged = merge_at(opt, i);
        proof {
            if merged {
                lemma_reaches_step(a0, before, opt@, i as int);
            }
            lemma_pass_inv_trans(a0, before, opt@);
        }
        proof {
            assert forall|k: int| 0 <= k < opt@.len() implies a0.contains(#[trigger] opt@[k]) by {
                let q = choose|q: int| 0 <= q < before.len() && before[q] == opt@[k];
                assert(a0.contains(before[q]));
            }
        }
        if !merged {
            i = i + 1;
        }
    }
    assert forall|j: int| !#[trigger] mergeable(opt@, j) by {
        if j >= i {
            assert(!(j + 2 < opt@.len()));
        }
    }
}

} // verus!
