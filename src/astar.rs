use vstd::prelude::*;

use crate::direction::{valid_step, AStarNodeDirection, Direction};
use crate::post_process::collapse_collinear;
use crate::trace_path::{anchor_to_tracepath, anchors_ok, link_ok, TraceAnchor, TracePath};
use crate::vec2::{abs, point_ok, FixedVec2, COORD_LIMIT};

verus! {

/// Most search nodes one A* run may create.
pub const MAX_SEARCH_NODES: usize = 0x10_0000;

/// Most cells of the search grid (positions times layers).
pub const MAX_GRID_CELLS: usize = 0x400_0000;

/// Most copper layers of a board.
pub const MAX_LAYERS: usize = 256;

/// Upper bound of the cost of one search step, in grid units.
pub const MAX_STEP_COST: u64 = 0x200_0000_0000;

/// Largest via penalty (fixed or per layer) the search accepts.
pub const MAX_VIA_PENALTY: u64 = 0x1_0000_0000;

/// The copper layers a pad lies on.
#[derive(Debug, Clone, Copy, PartialEq, Eq, Structural, Hash)]
pub enum PadLayer {
    Front,
    Back,
    Through,
}

pub open spec fn on_layer(pl: PadLayer, layer: int, num_layers: int) -> bool {
    &&& 0 <= layer < num_layers
    &&& match pl {
        PadLayer::Front => layer == 0,
        PadLayer::Back => layer == num_layers - 1,
        PadLayer::Through => true,
    }
}

impl PadLayer {
    /// Whether the pad lies on `layer` of a board with `num_layers` layers.
    pub fn contains(&self, layer: usize, num_layers: usize) -> (r: bool)
        ensures
            r == on_layer(*self, layer as int, num_layers as int),
    {
        if layer >= num_layers {
            return false;
        }
        match self {
            PadLayer::Front => layer == 0,
            PadLayer::Back => layer + 1 == num_layers,
            PadLayer::Through => true,
        }
    }
}

/// Why a route could not be found.
#[derive(Debug, Clone, Copy, PartialEq, Eq, Structural)]
pub enum RouteError {
    /// The input cannot be routed as given (an end outside the board, no layer).
    InvalidInput,
    /// The search ran out of nodes to expand.
    Unroutable,
    /// The search reached its node or grid budget.
    BudgetExceeded,
}

/// One single-net routing request. Lengths are in grid units; the board is
/// the rectangle of `width` by `height` around `center`.
#[derive(Debug, Clone, Copy)]
pub struct AStarModel {
    pub start: FixedVec2,
    pub end: FixedVec2,
    pub start_layers: PadLayer,
    pub end_layers: PadLayer,
    pub num_layers: usize,
    pub trace_width: u64,
    pub trace_clearance: u64,
    pub via_diameter: u64,
    pub width: i64,
    pub height: i64,
    pub center: FixedVec2,
    /// Planar step length.
    pub stride: i64,
    /// Cost of placing a via, on top of `layer_penalty` per layer crossed.
    pub via_penalty: u64,
    pub layer_penalty: u64,
    /// Budget of search nodes (at most `MAX_SEARCH_NODES` are used).
    pub max_nodes: usize,
}

pub open spec fn in_board(p: FixedVec2, m: AStarModel) -> bool {
    2 * abs(p.x - m.center.x) <= m.width && 2 * abs(p.y - m.center.y) <= m.height
}

impl AStarModel {
    /// The numbers are small enough for exact arithmetic.
    pub open spec fn limits_ok(&self) -> bool {
        &&& point_ok(self.start)
        &&& point_ok(self.end)
        &&& point_ok(self.center)
        &&& 0 <= self.width <= COORD_LIMIT
        &&& 0 <= self.height <= COORD_LIMIT
        &&& 0 < self.stride <= COORD_LIMIT
        &&& self.trace_width <= COORD_LIMIT as u64
        &&& self.trace_clearance <= COORD_LIMIT as u64
        &&& self.via_diameter <= COORD_LIMIT as u64
        &&& self.via_penalty <= MAX_VIA_PENALTY
        &&& self.layer_penalty <= MAX_VIA_PENALTY
        &&& self.num_layers <= MAX_LAYERS
    }
}

/// A state of the search: a grid position on a layer, how it was reached,
/// its parent node and the cost so far (`g_straight + g_diagonal * sqrt(2)`).
#[derive(Debug, Clone, Copy)]
pub struct SearchNode {
    pub position: FixedVec2,
    pub layer: usize,
    pub arrival: AStarNodeDirection,
    pub parent: Option<usize>,
    pub g_straight: u64,
    pub g_diagonal: u64,
}

/// `b` is one search step from `a`: a planar step on one layer or a via in place.
pub open spec fn step_ok(a: SearchNode, b: SearchNode) -> bool {
    (a.layer == b.layer && valid_step(a.position, b.position)) || (a.position == b.position
        && a.layer != b.layer)
}

/// Every node lies on the board and on a layer; a root sits at the start on a
/// start layer; every other node is one step from an earlier parent.
pub open spec fn nodes_ok(nodes: Seq<SearchNode>, m: AStarModel) -> bool {
    forall|k: int|
        0 <= k < nodes.len() ==> {
            let n = #[trigger] nodes[k];
            &&& point_ok(n.position)
            &&& in_board(n.position, m)
            &&& n.layer < m.num_layers
            &&& n.g_straight <= (k + 1) * MAX_STEP_COST
            &&& n.g_diagonal <= (k + 1) * MAX_STEP_COST
            &&& match n.parent {
                None => n.position == m.start && on_layer(m.start_layers, n.layer as int, m.num_layers as int),
                Some(p) => p < k && step_ok(nodes[p as int], n),
            }
        }
}

proof fn lemma_square_bound(x: int)
    requires
        -0x4000_0000_0000_0000 <= x <= 0x4000_0000_0000_0000,
    ensures
        0 <= x * x <= 0x1000_0000_0000_0000_0000_0000_0000_0000,
{
    assert(0 <= x * x <= 0x1000_0000_0000_0000_0000_0000_0000_0000) by (nonlinear_arith)
        requires
            -0x4000_0000_0000_0000 <= x <= 0x4000_0000_0000_0000,
    ;
}

/// `a + b * sqrt(2) < c + d * sqrt(2)`, decided over the integers: with
/// `x = a - c` and `y = b - d`, whether `x + y * sqrt(2) < 0`.
pub open spec fn cost_lt(a: int, b: int, c: int, d: int) -> bool {
    let x = a - c;
    let y = b - d;
    if x <= 0 && y <= 0 {
        x < 0 || y < 0
    } else if x >= 0 && y >= 0 {
        false
    } else if x < 0 {
        2 * (y * y) < x * x
    } else {
        x * x < 2 * (y * y)
    }
}

/// The order is strict: a cost is never below one that is below it.
pub proof fn lemma_cost_lt_asymmetric(a: int, b: int, c: int, d: int)
    requires
        cost_lt(a, b, c, d),
    ensures
        !cost_lt(c, d, a, b),
{
    let x = a - c;
    let y = b - d;
    assert((c - a) * (c - a) == x * x) by (nonlinear_arith)
        requires
            x == a - c,
    ;
    assert((d - b) * (d - b) == y * y) by (nonlinear_arith)
        requires
            y == b - d,
    ;
}

/// `a + b * sqrt(2) < c + d * sqrt(2)`, exactly.
pub fn cost_less(a: u64, b: u64, c: u64, d: u64) -> (r: bool)
    requires
        a <= 0x4000_0000_0000_0000 && b <= 0x4000_0000_0000_0000,
        c <= 0x4000_0000_0000_0000 && d <= 0x4000_0000_0000_0000,
    ensures
        r == cost_lt(a as int, b as int, c as int, d as int),
{
    let x: i128 = a as i128 - c as i128;
    let y: i128 = b as i128 - d as i128;
    proof {
        lemma_square_bound(x as int);
        lemma_square_bound(y as int);
    }
    let xx: i128 = x * x;
    let yy: i128 = y * y;
    if x <= 0 && y <= 0 {
        x < 0 || y < 0
    } else if x >= 0 && y >= 0 {
        false
    } else if x < 0 {
        // y > 0: y * sqrt(2) < -x
        2 * yy < xx
    } else {
        // x > 0, y < 0: x < -y * sqrt(2)
        xx < 2 * yy
    }
}

/// Octile distance between two points as straight and diagonal steps.
fn octile(p: FixedVec2, q: FixedVec2) -> (r: (u64, u64))
    requires
        point_ok(p),
        point_ok(q),
    ensures
        r.0 <= 4 * COORD_LIMIT,
        r.1 <= 2 * COORD_LIMIT,
{
    let dx = if q.x >= p.x { q.x - p.x } else { p.x - q.x };
    let dy = if q.y >= p.y { q.y - p.y } else { p.y - q.y };
    let (lo, hi) = if dx <= dy { (dx, dy) } else { (dy, dx) };
    ((hi - lo) as u64, lo as u64)
}

pub(crate) fn in_board_exec(p: FixedVec2, m: &AStarModel) -> (r: bool)
    requires
        point_ok(p),
        m.limits_ok(),
    ensures
        r == in_board(p, *m),
{
    let dx = if p.x >= m.center.x { p.x - m.center.x } else { m.center.x - p.x };
    let dy = if p.y >= m.center.y { p.y - m.center.y } else { m.center.y - p.y };
    2 * dx <= m.width && 2 * dy <= m.height
}

/// A planar step may end at `q`: at the goal, or far enough inside the board
/// for the trace and its clearance.
fn inside_border(q: FixedVec2, m: &AStarModel) -> (r: bool)
    requires
        point_ok(q),
        m.limits_ok(),
    ensures
        r ==> in_board(q, *m),
{
    if !in_board_exec(q, m) {
        return false;
    }
    if q == m.end {
        return true;
    }
    let dx = if q.x >= m.center.x { q.x - m.center.x } else { m.center.x - q.x };
    let dy = if q.y >= m.center.y { q.y - m.center.y } else { m.center.y - q.y };
    let margin = m.trace_width as i64 + 2 * m.trace_clearance as i64;
    2 * dx + margin <= m.width && 2 * dy + margin <= m.height
}

/// The input has both ends on the board and at least one layer.
pub open spec fn route_input_ok(m: AStarModel) -> bool {
    in_board(m.start, m) && in_board(m.end, m) && m.num_layers >= 1
}

/// A routed path for `m`: a consistent trace path that starts at `m.start` on
/// a start layer, ends at `m.end` on an end layer, and never leaves the board.
pub open spec fn route_ok(p: TracePath, m: AStarModel) -> bool {
    let a = p.anchors.0@;
    &&& p.consistent(m.trace_width, m.trace_clearance, m.via_diameter)
    &&& a[0].position == m.start
    &&& on_layer(m.start_layers, a[0].start_layer as int, m.num_layers as int)
    &&& a.last().position == m.end
    &&& on_layer(m.end_layers, a.last().end_layer as int, m.num_layers as int)
    &&& forall|k: int| 0 <= k < a.len() ==> in_board(#[trigger] a[k].position, m)
}

/// Anchors of the route that ends at node `goal`, one per position; a layer
/// change in place becomes an anchor with a via.
fn reconstruct(nodes: &Vec<SearchNode>, goal: usize, m: &AStarModel) -> (r: Vec<TraceAnchor>)
    requires
        nodes_ok(nodes@, *m),
        goal < nodes@.len() <= MAX_SEARCH_NODES,
    ensures
        anchors_ok(r@),
        r@[0].position == m.start,
        on_layer(m.start_layers, r@[0].start_layer as int, m.num_layers as int),
        r@.last().position == nodes@[goal as int].position,
        r@.last().end_layer == nodes@[goal as int].layer,
        forall|k: int| 0 <= k < r@.len() ==> in_board(#[trigger] r@[k].position, *m),
{
    let mut rev: Vec<usize> = Vec::new();
    rev.push(goal);
    let mut cur = goal;
    while nodes[cur].parent.is_some()
        invariant
            nodes_ok(nodes@, *m),
            goal < nodes@.len() <= MAX_SEARCH_NODES,
            1 <= rev@.len(),
            rev@.len() + cur <= goal + 1,
            rev@[0] == goal,
            rev@.last() == cur,
            cur < nodes@.len(),
            forall|t: int| 0 <= t < rev@.len() ==> #[trigger] rev@[t] < nodes@.len(),
            forall|t: int|
                0 <= t < rev@.len() - 1 ==> nodes@[#[trigger] rev@[t] as int].parent == Some(rev@[t + 1]),
        decreases cur,
    {
        let p = nodes[cur].parent.unwrap();
        assert(p < cur);
        rev.push(p);
        cur = p;
    }
    let last = rev.len() - 1;
    let root = nodes[rev[last]];
    let mut anchors: Vec<TraceAnchor> = Vec::new();
    let mut head = TraceAnchor { position: root.position, start_layer: root.layer, end_layer: root.layer };
    let mut t: usize = last;
    while t > 0
        invariant
            nodes_ok(nodes@, *m),
            goal < nodes@.len() <= MAX_SEARCH_NODES,
            rev@.len() <= nodes@.len(),
            t < rev@.len(),
            rev@[0] == goal,
            forall|q: int| 0 <= q < rev@.len() ==> #[trigger] rev@[q] < nodes@.len(),
            forall|q: int|
                0 <= q < rev@.len() - 1 ==> nodes@[#[trigger] rev@[q] as int].parent == Some(rev@[q + 1]),
            anchors@.len() + t < rev@.len(),
            head.position == nodes@[rev@[t as int] as int].position,
            head.end_layer == nodes@[rev@[t as int] as int].layer,
            ({
                let s = anchors@.push(head);
                &&& s[0].position == m.start
                &&& on_layer(m.start_layers, s[0].start_layer as int, m.num_layers as int)
                &&& forall|k: int| 0 <= k < s.len() ==> point_ok(#[trigger] s[k].position)
                &&& forall|k: int| 0 <= k < s.len() ==> in_board(#[trigger] s[k].position, *m)
                &&& forall|k: int| 0 <= k < s.len() - 1 ==> link_ok(#[trigger] s[k], s[k + 1])
            }),
        decreases t,
    {
        let ghost s0 = anchors@.push(head);
        let ghost parent = nodes@[rev@[t as int] as int];
        t = t - 1;
        let n = nodes[rev[t]];
        assert(n.parent == Some(rev@[t + 1]));
        assert(step_ok(parent, n));
        assert(point_ok(n.position) && in_board(n.position, *m));
        if n.position == head.position {
            head.end_layer = n.layer;
            assert(anchors@.push(head) =~= s0.update(s0.len() - 1, head));
        } else {
            anchors.push(head);
            head = TraceAnchor { position: n.position, start_layer: n.layer, end_layer: n.layer };
            assert(anchors@ == s0);
        }
    }
    anchors.push(head);
    anchors
}

/// Adds `v` to the search as a child of `parent`.
fn push_node(nodes: &mut Vec<SearchNode>, open: &mut Vec<usize>, v: SearchNode, m: &AStarModel)
    requires
        nodes_ok(old(nodes)@, *m),
        old(nodes)@.len() < MAX_SEARCH_NODES,
        forall|t: int| 0 <= t < old(open)@.len() ==> #[trigger] old(open)@[t] < old(nodes)@.len(),
        point_ok(v.position),
        in_board(v.position, *m),
        v.layer < m.num_layers,
        v.parent matches Some(p) && p < old(nodes)@.len() && step_ok(old(nodes)@[p as int], v)
            && v.g_straight <= old(nodes)@[p as int].g_straight + MAX_STEP_COST
            && v.g_diagonal <= old(nodes)@[p as int].g_diagonal + MAX_STEP_COST,
    ensures
        nodes_ok(final(nodes)@, *m),
        final(nodes)@ == old(nodes)@.push(v),
        final(open)@ == old(open)@.push(old(nodes)@.len() as usize),
        forall|t: int| 0 <= t < final(open)@.len() ==> #[trigger] final(open)@[t] < final(nodes)@.len(),
{
    let ghost n0 = nodes@;
    let k = nodes.len();
    nodes.push(v);
    open.push(k);
    assert forall|q: int| 0 <= q < nodes@.len() implies {
        let n = #[trigger] nodes@[q];
        &&& point_ok(n.position)
        &&& in_board(n.position, *m)
        &&& n.layer < m.num_layers
        &&& n.g_straight <= (q + 1) * MAX_STEP_COST
        &&& n.g_diagonal <= (q + 1) * MAX_STEP_COST
        &&& match n.parent {
            None => n.position == m.start && on_layer(m.start_layers, n.layer as int, m.num_layers as int),
            Some(p) => p < q && step_ok(nodes@[p as int], n),
        }
    } by {
        if q < k {
            assert(nodes@[q] == n0[q]);
            if let Some(p) = n0[q].parent {
                assert(nodes@[p as int] == n0[p as int]);
            }
        } else {
            let p = v.parent.unwrap();
            assert(nodes@[p as int] == n0[p as int]);
            assert(n0[p as int].g_straight <= (p + 1) * MAX_STEP_COST);
        }
    }
}

proof fn lemma_via_cost(layers: int, penalty: int)
    requires
        0 <= layers <= MAX_LAYERS,
        0 <= penalty <= MAX_VIA_PENALTY,
    ensures
        0 <= layers * penalty <= MAX_LAYERS * MAX_VIA_PENALTY,
{
    assert(0 <= layers * penalty <= MAX_LAYERS * MAX_VIA_PENALTY) by (nonlinear_arith)
        requires
            0 <= layers <= MAX_LAYERS,
            0 <= penalty <= MAX_VIA_PENALTY,
    ;
}

/// Whole strides in a non-negative distance.
fn strides_in(d: i64, stride: i64) -> (r: i64)
    requires
        0 <= d,
        0 < stride,
    ensures
        0 <= r <= d,
{
    proof {
        vstd::arithmetic::div_mod::lemma_div_basics_4(d as int, stride as int);
        vstd::arithmetic::div_mod::lemma_div_basics_5(d as int, stride as int);
    }
    d / stride
}

/// Whole strides in a signed distance, rounded toward zero.
fn signed_strides(d: i64, stride: i64) -> (r: i64)
    requires
        -COORD_LIMIT * 4 <= d <= COORD_LIMIT * 4,
        0 < stride,
    ensures
        abs(r as int) <= abs(d as int),
{
    if d >= 0 {
        strides_in(d, stride)
    } else {
        -strides_in(-d, stride)
    }
}

/// Priority of a node: cost so far plus the octile distance to the goal, plus
/// one via where the node is not on an end layer.
fn priority(n: &SearchNode, k: usize, m: &AStarModel) -> (r: (u64, u64))
    requires
        m.limits_ok(),
        point_ok(n.position),
        k < MAX_SEARCH_NODES,
        n.g_straight <= (k + 1) * MAX_STEP_COST,
        n.g_diagonal <= (k + 1) * MAX_STEP_COST,
    ensures
        r.0 <= 0x4000_0000_0000_0000,
        r.1 <= 0x4000_0000_0000_0000,
{
    let (hs, hd) = octile(n.position, m.end);
    let extra: u64 = if m.end_layers.contains(n.layer, m.num_layers) { 0 } else { m.via_penalty + m.layer_penalty };
    (n.g_straight + hs + extra, n.g_diagonal + hd)
}

/// The A* search proper; see `astar_route`.
fn astar_search<F, G>(m: &AStarModel, check_collision: &F, check_via: &G) -> (r: Result<TracePath, RouteError>)
    where
        F: Fn(FixedVec2, FixedVec2, u64, u64, usize) -> bool,
        G: Fn(FixedVec2, u64, u64, usize, usize) -> bool,
    requires
        m.limits_ok(),
        forall|p: FixedVec2, q: FixedVec2, w: u64, c: u64, l: usize| #[trigger]
            check_collision.requires((p, q, w, c, l)),
        forall|p: FixedVec2, d: u64, c: u64, lo: usize, hi: usize| #[trigger]
            check_via.requires((p, d, c, lo, hi)),
    ensures
        r matches Ok(p) ==> route_ok(p, *m) && crate::post_process::collinear_free(p.anchors.0@),
        (r == Err::<TracePath, RouteError>(RouteError::InvalidInput)) <==> !route_input_ok(*m),
{
    if !(m.num_layers >= 1 && in_board_exec(m.start, m) && in_board_exec(m.end, m)) {
        return Err(RouteError::InvalidInput);
    }
    let budget: usize = if m.max_nodes <= MAX_SEARCH_NODES { m.max_nodes } else { MAX_SEARCH_NODES };
    let num_layers = m.num_layers;
    let stride = m.stride;
    // grid cells: positions start + stride * (i, j) on the board, times layers
    let left = m.center.x - m.width / 2;
    let right = m.center.x + m.width / 2;
    let bottom = m.center.y - m.height / 2;
    let top = m.center.y + m.height / 2;
    let kx = if m.start.x >= left { strides_in(m.start.x - left, stride) } else { 0 };
    let ky = if m.start.y >= bottom { strides_in(m.start.y - bottom, stride) } else { 0 };
    let rx = if right >= m.start.x { strides_in(right - m.start.x, stride) } else { 0 };
    let ry = if top >= m.start.y { strides_in(top - m.start.y, stride) } else { 0 };
    let nx = (kx + rx + 1) as u64;
    let ny = (ky + ry + 1) as u64;
    let cells = match nx.checked_mul(ny) {
        Some(a) => match a.checked_mul(num_layers as u64) {
            Some(b) => b,
            None => { return Err(RouteError::BudgetExceeded); },
        },
        None => { return Err(RouteError::BudgetExceeded); },
    };
    if cells > MAX_GRID_CELLS as u64 {
        return Err(RouteError::BudgetExceeded);
    }
    let mut closed: Vec<bool> = Vec::new();
    let mut c: u64 = 0;
    while c < cells
        invariant
            c <= cells,
            closed@.len() == c,
        decreases cells - c,
    {
        closed.push(false);
        c = c + 1;
    }
    let mut nodes: Vec<SearchNode> = Vec::new();
    let mut open: Vec<usize> = Vec::new();
    let mut l: usize = 0;
    while l < num_layers
        invariant
            m.limits_ok(),
            route_input_ok(*m),
            num_layers == m.num_layers,
            nodes_ok(nodes@, *m),
            nodes@.len() <= l,
            nodes@.len() <= budget,
            budget <= MAX_SEARCH_NODES,
            forall|t: int| 0 <= t < open@.len() ==> #[trigger] open@[t] < nodes@.len(),
            2 * (MAX_SEARCH_NODES - nodes@.len()) + open@.len() <= 2 * MAX_SEARCH_NODES,
        decreases num_layers - l,
    {
        if m.start_layers.contains(l, num_layers) && nodes.len() < budget {
            let v = SearchNode {
                position: m.start,
                layer: l,
                arrival: AStarNodeDirection::Unset,
                parent: None,
                g_straight: 0,
                g_diagonal: 0,
            };
            let ghost n0 = nodes@;
            let k = nodes.len();
            nodes.push(v);
            open.push(k);
            assert forall|q: int| 0 <= q < nodes@.len() implies {
                let n = #[trigger] nodes@[q];
                &&& point_ok(n.position)
                &&& in_board(n.position, *m)
                &&& n.layer < m.num_layers
                &&& n.g_straight <= (q + 1) * MAX_STEP_COST
                &&& n.g_diagonal <= (q + 1) * MAX_STEP_COST
                &&& match n.parent {
                    None => n.position == m.start && on_layer(m.start_layers, n.layer as int, m.num_layers as int),
                    Some(p) => p < q && step_ok(nodes@[p as int], n),
                }
            } by {
                if q < k {
                    assert(nodes@[q] == n0[q]);
                    if let Some(p) = n0[q].parent {
                        assert(nodes@[p as int] == n0[p as int]);
                    }
                }
            }
        }
        l = l + 1;
    }
    let dirs = Direction::all_directions();
    while open.len() > 0
        invariant
            m.limits_ok(),
            route_input_ok(*m),
            num_layers == m.num_layers,
            stride == m.stride,
            nodes_ok(nodes@, *m),
            nodes@.len() <= budget,
            budget <= MAX_SEARCH_NODES,
            forall|t: int| 0 <= t < open@.len() ==> #[trigger] open@[t] < nodes@.len(),
            closed@.len() == cells,
            cells <= MAX_GRID_CELLS,
            0 <= kx <= 4 * COORD_LIMIT,
            0 <= ky <= 4 * COORD_LIMIT,
            dirs@.len() == 8,
            forall|p: FixedVec2, q: FixedVec2, w: u64, c: u64, l: usize| #[trigger]
                check_collision.requires((p, q, w, c, l)),
            forall|p: FixedVec2, d: u64, c: u64, lo: usize, hi: usize| #[trigger]
                check_via.requires((p, d, c, lo, hi)),
        decreases 2 * (budget - nodes@.len()) + open@.len(),
    {
        let ghost old_measure = 2 * (budget - nodes@.len()) + open@.len();
        // the open node of least priority
        let mut best: usize = 0;
        let mut t: usize = 1;
        while t < open.len()
            invariant
                m.limits_ok(),
                nodes_ok(nodes@, *m),
                nodes@.len() <= budget,
                budget <= MAX_SEARCH_NODES,
                forall|q: int| 0 <= q < open@.len() ==> #[trigger] open@[q] < nodes@.len(),
                best < open@.len(),
                1 <= t <= open@.len(),
            decreases open@.len() - t,
        {
            let ka = open[t];
            let kb = open[best];
            let (fa, da) = priority(&nodes[ka], ka, m);
            let (fb, db) = priority(&nodes[kb], kb, m);
            if cost_less(fa, da, fb, db) {
                best = t;
            }
            t = t + 1;
        }
        let ni = open.swap_remove(best);
        assert(ni < nodes@.len());
        let node = nodes[ni];
        // its cell
        let ix: i64 = signed_strides(node.position.x - m.start.x, stride) + kx;
        let iy: i64 = signed_strides(node.position.y - m.start.y, stride) + ky;
        let mut cell: u64 = cells;
        if ix >= 0 && (ix as u64) < nx && iy >= 0 && (iy as u64) < ny {
            if let Some(a) = (ix as u64).checked_mul(ny) {
                if let Some(a2) = a.checked_add(iy as u64) {
                    if let Some(b) = a2.checked_mul(num_layers as u64) {
                        if b < cells && node.layer as u64 <= cells - b - 1 {
                            cell = b + node.layer as u64;
                        }
                    }
                }
            }
        }
        if cell < cells {
            if closed[cell as usize] {
                continue;
            }
            closed.set(cell as usize, true);
        }
        if node.position == m.end && m.end_layers.contains(node.layer, num_layers) {
            let mut anchors = reconstruct(&nodes, ni, m);
            let ghost before = anchors@;
            collapse_collinear(&mut anchors);
            assert forall|k: int| 0 <= k < anchors@.len() implies in_board(#[trigger] anchors@[k].position, *m) by {
                let j = choose|j: int| 0 <= j < before.len() && before[j] == anchors@[k];
                assert(in_board(before[j].position, *m));
            }
            let path = anchor_to_tracepath(anchors, m.trace_width, m.trace_clearance, m.via_diameter);
            return Ok(path);
        }
        let is_vertical = match node.arrival {
            AStarNodeDirection::Vertical { .. } => true,
            _ => false,
        };
        // planar steps
        let mut di: usize = 0;
        while di < 8
            invariant
                m.limits_ok(),
                nodes_ok(nodes@, *m),
                nodes@.len() <= budget,
                budget <= MAX_SEARCH_NODES,
                forall|q: int| 0 <= q < open@.len() ==> #[trigger] open@[q] < nodes@.len(),
                ni < nodes@.len(),
                node == nodes@[ni as int],
                route_input_ok(*m),
                dirs@.len() == 8,
                stride == m.stride,
                di <= 8,
                2 * (budget - nodes@.len()) + open@.len() + 1 <= old_measure,
                forall|p: FixedVec2, q: FixedVec2, w: u64, c: u64, l: usize| #[trigger]
                    check_collision.requires((p, q, w, c, l)),
            decreases 8 - di,
        {
            let dir = dirs[di];
            let v = dir.to_fixed_vec2(stride);
            let q = FixedVec2 { x: node.position.x + v.x, y: node.position.y + v.y };
            di = di + 1;
            if q.x < -COORD_LIMIT || q.x > COORD_LIMIT || q.y < -COORD_LIMIT || q.y > COORD_LIMIT {
                continue;
            }
            if !inside_border(q, m) {
                continue;
            }
            if check_collision(node.position, q, m.trace_width, m.trace_clearance, node.layer) {
                continue;
            }
            if nodes.len() >= budget {
                return Err(RouteError::BudgetExceeded);
            }
            let diagonal = dir.is_diagonal();
            let child = SearchNode {
                position: q,
                layer: node.layer,
                arrival: AStarNodeDirection::Planar(dir),
                parent: Some(ni),
                g_straight: if diagonal { node.g_straight } else { node.g_straight + stride as u64 },
                g_diagonal: if diagonal { node.g_diagonal + stride as u64 } else { node.g_diagonal },
            };
            proof {
                crate::direction::lemma_multiple_is_valid(dir, stride as int);
                assert(q.x - node.position.x == crate::direction::dir_dx(dir) * stride);
                assert(q.y - node.position.y == crate::direction::dir_dy(dir) * stride);
                assert(valid_step(node.position, q));
            }
            push_node(&mut nodes, &mut open, child, m);
        }
        if !is_vertical {
            let mut l2: usize = 0;
            while l2 < num_layers
                invariant
                    m.limits_ok(),
                    num_layers == m.num_layers,
                    nodes_ok(nodes@, *m),
                    nodes@.len() <= budget,
                    budget <= MAX_SEARCH_NODES,
                    forall|q: int| 0 <= q < open@.len() ==> #[trigger] open@[q] < nodes@.len(),
                    ni < nodes@.len(),
                    node == nodes@[ni as int],
                    route_input_ok(*m),
                    2 * (budget - nodes@.len()) + open@.len() + 1 <= old_measure,
                    forall|p: FixedVec2, d: u64, c: u64, lo: usize, hi: usize| #[trigger]
                        check_via.requires((p, d, c, lo, hi)),
                decreases num_layers - l2,
            {
                let target = l2;
                l2 = l2 + 1;
                if target == node.layer {
                    continue;
                }
                let lo = if target < node.layer { target } else { node.layer };
                let hi = if target < node.layer { node.layer } else { target };
                if check_via(node.position, m.via_diameter, m.trace_clearance, lo, hi) {
                    continue;
                }
                if nodes.len() >= budget {
                    return Err(RouteError::BudgetExceeded);
                }
                proof {
                    lemma_via_cost((hi - lo) as int, m.layer_penalty as int);
                }
                let cost = m.via_penalty + (hi - lo) as u64 * m.layer_penalty;
                let child = SearchNode {
                    position: node.position,
                    layer: target,
                    arrival: AStarNodeDirection::Vertical { from_layer: node.layer },
                    parent: Some(ni),
                    g_straight: node.g_straight + cost,
                    g_diagonal: node.g_diagonal,
                };
                push_node(&mut nodes, &mut open, child, m);
            }
        }
    }
    Err(RouteError::Unroutable)
}

impl AStarModel {
    /// Whether the numbers of this request are within the limits of exact
    /// arithmetic.
    pub fn limits_ok_exec(&self) -> (r: bool)
        ensures
            r == self.limits_ok(),
    {
        let pt = |p: FixedVec2| -> (r: bool)
            ensures
                r == point_ok(p),
            { -COORD_LIMIT <= p.x && p.x <= COORD_LIMIT && -COORD_LIMIT <= p.y && p.y <= COORD_LIMIT };
        pt(self.start) && pt(self.end) && pt(self.center) && 0 <= self.width && self.width <= COORD_LIMIT
            && 0 <= self.height && self.height <= COORD_LIMIT && 0 < self.stride && self.stride <= COORD_LIMIT
            && self.trace_width <= COORD_LIMIT as u64 && self.trace_clearance <= COORD_LIMIT as u64
            && self.via_diameter <= COORD_LIMIT as u64
            && self.via_penalty <= MAX_VIA_PENALTY && self.layer_penalty <= MAX_VIA_PENALTY
            && self.num_layers <= MAX_LAYERS
    }

    /// Whether both ends lie on the board and there is a layer.
    pub fn input_ok_exec(&self) -> (r: bool)
        requires
            self.limits_ok(),
        ensures
            r == route_input_ok(*self),
    {
        self.num_layers >= 1 && in_board_exec(self.start, self) && in_board_exec(self.end, self)
    }
}

/// Some layer holds both pads.
pub open spec fn shared_layer(m: AStarModel) -> bool {
    exists|l: int| on_layer(m.start_layers, l, m.num_layers as int) && on_layer(m.end_layers, l, m.num_layers as int)
}

/// The ends differ by whole strides in both directions.
pub open spec fn on_stride_grid(m: AStarModel) -> bool {
    abs(m.end.x - m.start.x) % (m.stride as int) == 0 && abs(m.end.y - m.start.y) % (m.stride as int) == 0
}

/// A planar step may end at `p`: the trace and its clearance fit inside the
/// board.
pub open spec fn inside_inset(p: FixedVec2, m: AStarModel) -> bool {
    2 * abs(p.x - m.center.x) + m.trace_width + 2 * m.trace_clearance <= m.width && 2 * abs(p.y - m.center.y)
        + m.trace_width + 2 * m.trace_clearance <= m.height
}

/// Straight steps of the octile distance.
pub open spec fn octile_straight(p: FixedVec2, q: FixedVec2) -> int {
    let dx = abs(q.x - p.x);
    let dy = abs(q.y - p.y);
    if dx >= dy { dx - dy } else { dy - dx }
}

/// Diagonal steps of the octile distance.
pub open spec fn octile_diagonal(p: FixedVec2, q: FixedVec2) -> int {
    let dx = abs(q.x - p.x);
    let dy = abs(q.y - p.y);
    if dx >= dy { dy } else { dx }
}

/// The segment check reports no collision, whatever it is asked.
pub open spec fn never_reports_segment<F: Fn(FixedVec2, FixedVec2, u64, u64, usize) -> bool>(f: F) -> bool {
    forall|p: FixedVec2, q: FixedVec2, w: u64, c: u64, l: usize, b: bool| #[trigger] f.ensures((p, q, w, c, l), b) ==> !b
}

/// The via check reports no collision, whatever it is asked.
pub open spec fn never_reports_via<G: Fn(FixedVec2, u64, u64, usize, usize) -> bool>(g: G) -> bool {
    forall|p: FixedVec2, d: u64, c: u64, lo: usize, hi: usize, b: bool| #[trigger] g.ensures((p, d, c, lo, hi), b) ==> !b
}

/// Every segment of `p` was reported free by `f` on its layer.
pub open spec fn segments_reported_free<F: Fn(FixedVec2, FixedVec2, u64, u64, usize) -> bool>(
    p: TracePath,
    m: AStarModel,
    f: F,
) -> bool {
    forall|i: int|
        0 <= i < p.segments@.len() ==> f.ensures(
            (
                (#[trigger] p.segments@[i]).start,
                p.segments@[i].end,
                m.trace_width,
                m.trace_clearance,
                p.segments@[i].layer,
            ),
            false,
        )
}

/// Every via of `p` was reported free by `g` over its layers.
pub open spec fn vias_reported_free<G: Fn(FixedVec2, u64, u64, usize, usize) -> bool>(
    p: TracePath,
    m: AStarModel,
    g: G,
) -> bool {
    forall|i: int|
        0 <= i < p.vias@.len() ==> g.ensures(
            (
                (#[trigger] p.vias@[i]).position,
                m.via_diameter,
                m.trace_clearance,
                p.vias@[i].min_layer,
                p.vias@[i].max_layer,
            ),
            false,
        )
}

fn first_layer(pl: PadLayer, num_layers: usize) -> (r: usize)
    requires
        num_layers >= 1,
    ensures
        on_layer(pl, r as int, num_layers as int),
{
    match pl {
        PadLayer::Back => num_layers - 1,
        _ => 0,
    }
}

/// A layer that holds both pads, if there is one.
pub(crate) fn shared_layer_exec(m: &AStarModel) -> (r: Option<usize>)
    requires
        m.num_layers >= 1,
    ensures
        r matches Some(l) ==> on_layer(m.start_layers, l as int, m.num_layers as int) && on_layer(
            m.end_layers,
            l as int,
            m.num_layers as int,
        ),
        r is None ==> !shared_layer(*m),
{
    let a = first_layer(m.start_layers, m.num_layers);
    if m.end_layers.contains(a, m.num_layers) {
        return Some(a);
    }
    let b = first_layer(m.end_layers, m.num_layers);
    if m.start_layers.contains(b, m.num_layers) {
        return Some(b);
    }
    None
}

/// The one-anchor route at the start, from layer `l1` to layer `l2`.
fn single_anchor(m: &AStarModel, l1: usize, l2: usize) -> (r: TracePath)
    requires
        m.limits_ok(),
        route_input_ok(*m),
        m.start == m.end,
        on_layer(m.start_layers, l1 as int, m.num_layers as int),
        on_layer(m.end_layers, l2 as int, m.num_layers as int),
    ensures
        route_ok(r, *m),
        crate::post_process::collinear_free(r.anchors.0@),
        r.anchors.0@.len() == 1,
        r.segments@.len() == 0,
        r.vias@.len() == (if l1 == l2 { 0int } else { 1int }),
        l1 != l2 ==> r.vias@[0].position == m.start && r.vias@[0].min_layer == (if l1 <= l2 { l1 } else { l2 })
            && r.vias@[0].max_layer == (if l1 <= l2 { l2 } else { l1 }),
{
    let mut anchors: Vec<TraceAnchor> = Vec::new();
    anchors.push(TraceAnchor { position: m.start, start_layer: l1, end_layer: l2 });
    let ghost a = anchors@;
    assert(a.drop_last() =~= Seq::<TraceAnchor>::empty());
    let p = anchor_to_tracepath(anchors, m.trace_width, m.trace_clearance, m.via_diameter);
    assert(crate::trace_path::vias_of(Seq::<TraceAnchor>::empty(), m.via_diameter, m.trace_clearance) =~= Seq::<
        crate::trace_path::Via,
    >::empty());
    p
}

/// The octile route from start to end on layer `l`: a diagonal, then a
/// straight segment; `None` where it leaves the inset board or a segment of it
/// is reported in the way.
fn direct_route<F>(m: &AStarModel, l: usize, check_collision: &F) -> (r: Option<TracePath>)
    where
        F: Fn(FixedVec2, FixedVec2, u64, u64, usize) -> bool,
    requires
        m.limits_ok(),
        route_input_ok(*m),
        m.start != m.end,
        on_layer(m.start_layers, l as int, m.num_layers as int),
        on_layer(m.end_layers, l as int, m.num_layers as int),
        forall|p: FixedVec2, q: FixedVec2, w: u64, c: u64, l: usize| #[trigger]
            check_collision.requires((p, q, w, c, l)),
    ensures
        r matches Some(p) ==> route_ok(p, *m) && crate::post_process::collinear_free(p.anchors.0@)
            && segments_reported_free(p, *m, *check_collision) && p.vias@.len() == 0
            && p.total_length.straight == octile_straight(m.start, m.end) && p.total_length.diagonal
            == octile_diagonal(m.start, m.end) && crate::post_process::fixed_point(p.anchors.0@),
        on_stride_grid(*m) && inside_inset(m.start, *m) && inside_inset(m.end, *m) && never_reports_segment(
            *check_collision,
        ) ==> r is Some,
{
    let s = m.start;
    let e = m.end;
    let adx: u64 = if e.x >= s.x { (e.x - s.x) as u64 } else { (s.x - e.x) as u64 };
    let ady: u64 = if e.y >= s.y { (e.y - s.y) as u64 } else { (s.y - e.y) as u64 };
    if adx % (m.stride as u64) != 0 || ady % (m.stride as u64) != 0 {
        return None;
    }
    if !(inset_exec(s, m) && inset_exec(e, m)) {
        return None;
    }
    let mn: i64 = if adx <= ady { adx as i64 } else { ady as i64 };
    let corner = FixedVec2 {
        x: if e.x >= s.x { s.x + mn } else { s.x - mn },
        y: if e.y >= s.y { s.y + mn } else { s.y - mn },
    };
    let mut anchors: Vec<TraceAnchor> = Vec::new();
    anchors.push(TraceAnchor { position: s, start_layer: l, end_layer: l });
    if corner != s && corner != e {
        if check_collision(s, corner, m.trace_width, m.trace_clearance, l) {
            return None;
        }
        if check_collision(corner, e, m.trace_width, m.trace_clearance, l) {
            return None;
        }
        anchors.push(TraceAnchor { position: corner, start_layer: l, end_layer: l });
    } else {
        if check_collision(s, e, m.trace_width, m.trace_clearance, l) {
            return None;
        }
    }
    anchors.push(TraceAnchor { position: e, start_layer: l, end_layer: l });
    let ghost a = anchors@;
    proof {
        assert(in_board(corner, *m));
        assert(adx == abs(e.x - s.x) && ady == abs(e.y - s.y));
        if a.len() == 3 {
            assert(a.drop_last() =~= seq![a[0], a[1]]);
            assert(seq![a[0], a[1]].drop_last() =~= seq![a[0]]);
            assert(crate::trace_path::len_straight(seq![a[0]]) == 0);
            assert(crate::trace_path::len_diagonal(seq![a[0]]) == 0);
            assert(crate::trace_path::len_straight(seq![a[0], a[1]]) == crate::trace_path::seg_straight(s, corner));
            assert(crate::trace_path::len_diagonal(seq![a[0], a[1]]) == crate::trace_path::seg_diagonal(s, corner));
            assert(crate::trace_path::len_straight(a) == crate::trace_path::seg_straight(s, corner)
                + crate::trace_path::seg_straight(corner, e));
            assert(crate::trace_path::len_diagonal(a) == crate::trace_path::seg_diagonal(s, corner)
                + crate::trace_path::seg_diagonal(corner, e));
            assert forall|j: int| !#[trigger] crate::post_process::mergeable(a, j) by {}
            assert(crate::direction::is_diag(crate::post_process::dir_at(a, 0)));
            assert(!crate::direction::is_diag(crate::post_process::dir_at(a, 1)));
            assert(!crate::post_process::right_angle(crate::post_process::dir_at(a, 0), crate::post_process::dir_at(a, 1)));
            assert forall|j: int| !#[trigger] crate::post_process::relaxable(a, j) && !crate::post_process::mergeable(a, j)
                && !crate::post_process::shiftable(a, j) && !crate::post_process::tightenable(a, j) by {}
        } else {
            assert(a.drop_last() =~= seq![a[0]]);
            assert(crate::trace_path::len_straight(seq![a[0]]) == 0);
            assert(crate::trace_path::len_diagonal(seq![a[0]]) == 0);
            assert(crate::trace_path::len_straight(a) == crate::trace_path::seg_straight(s, e));
            assert(crate::trace_path::len_diagonal(a) == crate::trace_path::seg_diagonal(s, e));
            assert forall|j: int| !#[trigger] crate::post_process::mergeable(a, j) by {}
            assert forall|j: int| !#[trigger] crate::post_process::relaxable(a, j) && !crate::post_process::mergeable(a, j)
                && !crate::post_process::shiftable(a, j) && !crate::post_process::tightenable(a, j) by {}
        }
        assert forall|k: int| 0 <= k < a.len() implies point_ok(#[trigger] a[k].position) by {}
        assert forall|k: int| 0 <= k < a.len() - 1 implies link_ok(#[trigger] a[k], a[k + 1]) by {}
        assert(crate::trace_path::vias_of(a, m.via_diameter, m.trace_clearance) =~= Seq::<crate::trace_path::Via>::empty()) by {
            lemma_no_vias(a, m.via_diameter, m.trace_clearance);
        }
    }
    let p = anchor_to_tracepath(anchors, m.trace_width, m.trace_clearance, m.via_diameter);
    proof {
        assert forall|k: int| 0 <= k < a.len() implies in_board(#[trigger] a[k].position, *m) by {}
        assert(route_ok(p, *m));
        assert(crate::post_process::collinear_free(p.anchors.0@));
        assert(p.vias@.len() == 0);
        assert(p.total_length.straight == octile_straight(m.start, m.end));
        assert(p.total_length.diagonal == octile_diagonal(m.start, m.end));
        assert(segments_reported_free(p, *m, *check_collision));
        assert(crate::post_process::fixed_point(p.anchors.0@));
    }
    Some(p)
}

/// A path whose anchors all stay on one layer has no via.
proof fn lemma_no_vias(a: Seq<TraceAnchor>, d: u64, c: u64)
    requires
        forall|k: int| 0 <= k < a.len() ==> (#[trigger] a[k]).start_layer == a[k].end_layer,
    ensures
        crate::trace_path::vias_of(a, d, c) =~= Seq::<crate::trace_path::Via>::empty(),
    decreases a.len(),
{
    if a.len() > 0 {
        let b = a.drop_last();
        assert forall|k: int| 0 <= k < b.len() implies (#[trigger] b[k]).start_layer == b[k].end_layer by {
            assert(b[k] == a[k]);
        }
        lemma_no_vias(b, d, c);
        assert(a[a.len() - 1] == a.last());
    }
}

fn inset_exec(p: FixedVec2, m: &AStarModel) -> (r: bool)
    requires
        point_ok(p),
        m.limits_ok(),
    ensures
        r == inside_inset(p, *m),
{
    let dx = if p.x >= m.center.x { p.x - m.center.x } else { m.center.x - p.x };
    let dy = if p.y >= m.center.y { p.y - m.center.y } else { m.center.y - p.y };
    let margin = m.trace_width as i64 + 2 * m.trace_clearance as i64;
    2 * dx + margin <= m.width && 2 * dy + margin <= m.height
}

/// Asks the checks again about every segment and via of `p`.
pub(crate) fn recheck<F, G>(p: &TracePath, m: &AStarModel, check_collision: &F, check_via: &G) -> (r: bool)
    where
        F: Fn(FixedVec2, FixedVec2, u64, u64, usize) -> bool,
        G: Fn(FixedVec2, u64, u64, usize, usize) -> bool,
    requires
        forall|p: FixedVec2, q: FixedVec2, w: u64, c: u64, l: usize| #[trigger]
            check_collision.requires((p, q, w, c, l)),
        forall|p: FixedVec2, d: u64, c: u64, lo: usize, hi: usize| #[trigger]
            check_via.requires((p, d, c, lo, hi)),
    ensures
        r ==> segments_reported_free(*p, *m, *check_collision) && vias_reported_free(*p, *m, *check_via),
{
    let mut i: usize = 0;
    while i < p.segments.len()
        invariant
            i <= p.segments@.len(),
            forall|p: FixedVec2, q: FixedVec2, w: u64, c: u64, l: usize| #[trigger]
                check_collision.requires((p, q, w, c, l)),
            forall|k: int|
                0 <= k < i ==> check_collision.ensures(
                    (
                        (#[trigger] p.segments@[k]).start,
                        p.segments@[k].end,
                        m.trace_width,
                        m.trace_clearance,
                        p.segments@[k].layer,
                    ),
                    false,
                ),
        decreases p.segments@.len() - i,
    {
        let s = p.segments[i];
        if check_collision(s.start, s.end, m.trace_width, m.trace_clearance, s.layer) {
            return false;
        }
        i = i + 1;
    }
    let mut i: usize = 0;
    while i < p.vias.len()
        invariant
            i <= p.vias@.len(),
            forall|p: FixedVec2, d: u64, c: u64, lo: usize, hi: usize| #[trigger]
                check_via.requires((p, d, c, lo, hi)),
            forall|k: int|
                0 <= k < i ==> check_via.ensures(
                    (
                        (#[trigger] p.vias@[k]).position,
                        m.via_diameter,
                        m.trace_clearance,
                        p.vias@[k].min_layer,
                        p.vias@[k].max_layer,
                    ),
                    false,
                ),
        decreases p.vias@.len() - i,
    {
        let v = p.vias[i];
        if check_via(v.position, m.via_diameter, m.trace_clearance, v.min_layer, v.max_layer) {
            return false;
        }
        i = i + 1;
    }
    true
}

/// Finds a route for `m` with A* over the grid of planar steps of `m.stride`
/// in the eight directions and vias between layers in place. A planar step is
/// taken only where `check_collision(p, q, width, clearance, layer)` says the
/// segment is free and it ends inside the board (inset by the trace and its
/// clearance, except at the goal); a via only where
/// `check_via(p, diameter, clearance, min_layer, max_layer)` says it is free,
/// and never right after another via. Steps cost their exact length; a via
/// costs `via_penalty` plus `layer_penalty` per layer crossed. Consecutive
/// steps in one direction become one segment. Where both ends coincide the
/// route is a single anchor (with a via where the pads share no layer), and
/// where both lie on one layer inside the border the direct octile route
/// (a diagonal, then a straight segment) is taken when it is free. Every
/// segment and via of a returned route has been reported free.
pub fn astar_route<F, G>(m: &AStarModel, check_collision: &F, check_via: &G) -> (r: Result<TracePath, RouteError>)
    where
        F: Fn(FixedVec2, FixedVec2, u64, u64, usize) -> bool,
        G: Fn(FixedVec2, u64, u64, usize, usize) -> bool,
    requires
        m.limits_ok(),
        forall|p: FixedVec2, q: FixedVec2, w: u64, c: u64, l: usize| #[trigger]
            check_collision.requires((p, q, w, c, l)),
        forall|p: FixedVec2, d: u64, c: u64, lo: usize, hi: usize| #[trigger]
            check_via.requires((p, d, c, lo, hi)),
    ensures
        r matches Ok(p) ==> route_ok(p, *m) && crate::post_process::collinear_free(p.anchors.0@),
        r matches Ok(p) ==> segments_reported_free(p, *m, *check_collision) && vias_reported_free(p, *m, *check_via),
        (r == Err::<TracePath, RouteError>(RouteError::InvalidInput)) <==> !route_input_ok(*m),
        // coincident ends on a shared layer: one anchor, no segment, no via
        route_input_ok(*m) && m.start == m.end && shared_layer(*m) ==> (r matches Ok(p) && p.anchors.0@.len() == 1
            && p.segments@.len() == 0 && p.vias@.len() == 0),
        // coincident ends on different layers, vias never reported in the way:
        // one anchor carrying one via
        route_input_ok(*m) && m.start == m.end && !shared_layer(*m) && never_reports_via(*check_via) ==> (r matches Ok(
            p,
        ) && p.anchors.0@.len() == 1 && p.segments@.len() == 0 && p.vias@.len() == 1),
        // nothing ever reported in the way, ends on a shared layer on the
        // stride grid and inside the border: a route of octile length
        route_input_ok(*m) && m.start != m.end && shared_layer(*m) && on_stride_grid(*m) && inside_inset(m.start, *m)
            && inside_inset(m.end, *m) && never_reports_segment(*check_collision) ==> (r matches Ok(p)
            && p.total_length.straight == octile_straight(m.start, m.end) && p.total_length.diagonal
            == octile_diagonal(m.start, m.end) && crate::post_process::fixed_point(p.anchors.0@)),
{
    if !m.input_ok_exec() {
        return Err(RouteError::InvalidInput);
    }
    let shared = shared_layer_exec(m);
    if m.start == m.end {
        match shared {
            Some(l) => {
                return Ok(single_anchor(m, l, l));
            },
            None => {
                let l1 = first_layer(m.start_layers, m.num_layers);
                let l2 = first_layer(m.end_layers, m.num_layers);
                let lo = if l1 <= l2 { l1 } else { l2 };
                let hi = if l1 <= l2 { l2 } else { l1 };
                if !check_via(m.start, m.via_diameter, m.trace_clearance, lo, hi) {
                    return Ok(single_anchor(m, l1, l2));
                }
            },
        }
    } else if let Some(l) = shared {
        if let Some(p) = direct_route(m, l, check_collision) {
            return Ok(p);
        }
    }
    match astar_search(m, check_collision, check_via) {
        Ok(p) => {
            if recheck(&p, m, check_collision, check_via) {
                Ok(p)
            } else {
                Err(RouteError::Unroutable)
            }
        },
        Err(e) => Err(e),
    }
}

} // verus!
