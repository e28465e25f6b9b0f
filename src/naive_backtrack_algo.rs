use vstd::prelude::*;

use crate::astar::{
    astar_route, cost_less, cost_lt, inside_inset, lemma_cost_lt_asymmetric, on_stride_grid, recheck, route_input_ok, route_ok, shared_layer, AStarModel,
    RouteError,
};
use crate::clearance::{hits_lines, lemma_routed_path_small, lines_hit, path_small, paths_clear, paths_clear_exec};
use crate::pcb_problem::{ConnectionID, FixedTrace, NetName, PcbProblem, PcbSolution};
use crate::post_process::optimize_path;
use crate::trace_path::{PathLength, TracePath};
use crate::vec2::FixedVec2;

verus! {

/// Settings of the solver.
#[derive(Debug, Clone, Copy)]
pub struct SolverConfig {
    /// Planar A* step, in grid units.
    pub astar_stride: i64,
    pub via_penalty: u64,
    pub layer_penalty: u64,
    /// Node budget of one A* run.
    pub max_astar_nodes: usize,
    /// Most A* runs of one solve.
    pub max_routing_attempts: usize,
}

/// Why the solver gave up.
#[derive(Debug, Clone, Copy, PartialEq, Eq, Structural)]
pub enum SolveError {
    /// The problem or the given connection order is malformed.
    InvalidInput,
    /// Backtracking exhausted every choice.
    NoSolution,
    /// An A* run or the whole solve reached its budget.
    BudgetExceeded,
}

impl SolveError {
    /// The message that reports the error.
    pub fn message(&self) -> (r: String)
        ensures
            *self == SolveError::NoSolution ==> r@ == "No solution found"@,
            *self == SolveError::InvalidInput ==> r@ == "Invalid input"@,
            *self == SolveError::BudgetExceeded ==> r@ == "Budget exceeded"@,
    {
        match self {
            SolveError::InvalidInput => "Invalid input".to_owned(),
            SolveError::NoSolution => "No solution found".to_owned(),
            SolveError::BudgetExceeded => "Budget exceeded".to_owned(),
        }
    }
}

/// The A* request for connection `k`, whose net is `nets[i]`: from the net's
/// source pad to the connection's sink pad, with the connection's trace width
/// and clearance and the net's via diameter.
pub open spec fn connection_model(p: PcbProblem, cfg: SolverConfig, k: int, i: int) -> AStarModel {
    let c = p.connections@[k];
    let n = p.nets@[i];
    AStarModel {
        start: n.source.position,
        end: c.sink.position,
        start_layers: n.source.pad_layer,
        end_layers: c.sink.pad_layer,
        num_layers: p.num_layers,
        trace_width: c.sink_trace_width,
        trace_clearance: c.sink_trace_clearance,
        via_diameter: n.via_diameter,
        width: p.width,
        height: p.height,
        center: p.center,
        stride: cfg.astar_stride,
        via_penalty: cfg.via_penalty,
        layer_penalty: cfg.layer_penalty,
        max_nodes: cfg.max_astar_nodes,
    }
}

pub open spec fn net_of(p: PcbProblem, k: int, i: int) -> bool {
    0 <= k < p.connections@.len() && 0 <= i < p.nets@.len() && p.nets@[i].net_name.0@
        == p.connections@[k].net_name.0@
}

/// Every connection can be handed to A*: its numbers are within the limits
/// and both of its pads lie on the board.
pub open spec fn problem_ok(p: PcbProblem, cfg: SolverConfig) -> bool {
    &&& p.num_layers >= 1
    &&& forall|k: int, i: int|
        #[trigger] net_of(p, k, i) ==> connection_model(p, cfg, k, i).limits_ok() && route_input_ok(
            connection_model(p, cfg, k, i),
        )
}

/// No segment of `t` comes near an obstacle line.
pub open spec fn clear_of_lines(t: TracePath, lines: Seq<crate::pcb_problem::Line>, m: AStarModel) -> bool {
    forall|j: int|
        0 <= j < t.segments@.len() ==> !hits_lines(
            lines,
            (#[trigger] t.segments@[j]).start,
            t.segments@[j].end,
            m.trace_width,
            m.trace_clearance,
        )
}

/// `t` routes a connection of `p`: it carries the connection's id and net,
/// and its path joins the net's source pad to the sink pad on their layers
/// without leaving the board or coming near an obstacle line.
pub open spec fn trace_fits(p: PcbProblem, cfg: SolverConfig, t: FixedTrace) -> bool {
    exists|k: int, i: int|
        #[trigger] net_of(p, k, i) && p.connections@[k].connection_id == t.connection_id
            && t.net_name.0@ == p.connections@[k].net_name.0@ && route_ok(
            t.trace_path,
            connection_model(p, cfg, k, i),
        ) && clear_of_lines(t.trace_path, p.obstacle_lines@, connection_model(p, cfg, k, i))
}

pub open spec fn is_connection_id(p: PcbProblem, id: ConnectionID) -> bool {
    exists|k: int| 0 <= k < p.connections@.len() && (#[trigger] p.connections@[k]).connection_id == id
}

/// An order of work: every connection exactly once.
pub open spec fn order_ok(p: PcbProblem, order: Seq<ConnectionID>) -> bool {
    &&& forall|a: int, b: int| 0 <= a < b < order.len() ==> order[a] != order[b]
    &&& forall|a: int| 0 <= a < order.len() ==> is_connection_id(p, #[trigger] order[a])
    &&& forall|k: int|
        0 <= k < p.connections@.len() ==> order.contains((#[trigger] p.connections@[k]).connection_id)
}

/// Traces of different nets keep clearance from each other.
pub open spec fn pairwise_clear(traces: Seq<FixedTrace>) -> bool {
    forall|a: int, b: int|
        0 <= a < traces.len() && 0 <= b < traces.len() && a != b && traces[a].net_name.0@ != traces[b].net_name.0@
            ==> paths_clear(#[trigger] traces[a].trace_path, #[trigger] traces[b].trace_path)
}

/// A complete solution: one fitting trace for each connection, no connection
/// twice, and clearance between the traces of different nets.
pub open spec fn solution_ok(p: PcbProblem, cfg: SolverConfig, traces: Seq<FixedTrace>) -> bool {
    &&& pairwise_clear(traces)
    &&& forall|t: int| 0 <= t < traces.len() ==> trace_fits(p, cfg, #[trigger] traces[t])
    &&& forall|a: int, b: int|
        0 <= a < b < traces.len() ==> (#[trigger] traces[a]).connection_id != (#[trigger] traces[b]).connection_id
    &&& forall|k: int|
        0 <= k < p.connections@.len() ==> exists|t: int|
            0 <= t < traces.len() && (#[trigger] traces[t]).connection_id == (
            #[trigger] p.connections@[k]).connection_id
}

fn find_connection(p: &PcbProblem, id: ConnectionID) -> (r: Option<usize>)
    ensures
        r matches Some(k) ==> k < p.connections@.len() && p.connections@[k as int].connection_id == id,
        r is None ==> !is_connection_id(*p, id),
{
    let mut k: usize = 0;
    while k < p.connections.len()
        invariant
            k <= p.connections@.len(),
            forall|q: int| 0 <= q < k ==> (#[trigger] p.connections@[q]).connection_id != id,
        decreases p.connections@.len() - k,
    {
        if p.connections[k].connection_id == id {
            return Some(k);
        }
        k = k + 1;
    }
    None
}

fn connection_model_exec(p: &PcbProblem, cfg: &SolverConfig, k: usize, i: usize) -> (r: AStarModel)
    requires
        k < p.connections@.len(),
        i < p.nets@.len(),
    ensures
        r == connection_model(*p, *cfg, k as int, i as int),
{
    let c = &p.connections[k];
    let n = &p.nets[i];
    AStarModel {
        start: n.source.position,
        end: c.sink.position,
        start_layers: n.source.pad_layer,
        end_layers: c.sink.pad_layer,
        num_layers: p.num_layers,
        trace_width: c.sink_trace_width,
        trace_clearance: c.sink_trace_clearance,
        via_diameter: n.via_diameter,
        width: p.width,
        height: p.height,
        center: p.center,
        stride: cfg.astar_stride,
        via_penalty: cfg.via_penalty,
        layer_penalty: cfg.layer_penalty,
        max_nodes: cfg.max_astar_nodes,
    }
}

/// Whether every connection can be handed to A*.
pub fn problem_is_ok(p: &PcbProblem, cfg: &SolverConfig) -> (r: bool)
    requires
        p.wf(),
    ensures
        r == problem_ok(*p, *cfg),
{
    if p.num_layers < 1 {
        return false;
    }
    let mut k: usize = 0;
    while k < p.connections.len()
        invariant
            p.wf(),
            p.num_layers >= 1,
            k <= p.connections@.len(),
            forall|q: int, i: int|
                #[trigger] net_of(*p, q, i) && q < k ==> connection_model(*p, *cfg, q, i).limits_ok()
                    && route_input_ok(connection_model(*p, *cfg, q, i)),
        decreases p.connections@.len() - k,
    {
        let i = match p.find_net(&p.connections[k].net_name) {
            Some(i) => i,
            None => {
                assert(p.has_net(p.connections@[k as int].net_name.0@));
                return false;
            },
        };
        let m = connection_model_exec(p, cfg, k, i);
        if !(m.limits_ok_exec() && m.input_ok_exec()) {
            assert(net_of(*p, k as int, i as int));
            return false;
        }
        assert forall|q: int, j: int| #[trigger] net_of(*p, q, j) && q < k + 1 implies connection_model(
            *p,
            *cfg,
            q,
            j,
        ).limits_ok() && route_input_ok(connection_model(*p, *cfg, q, j)) by {
            if q == k {
                if j != i {
                    if j < i {
                        assert(p.nets@[j].net_name.0@ != p.nets@[i as int].net_name.0@);
                    } else {
                        assert(p.nets@[i as int].net_name.0@ != p.nets@[j].net_name.0@);
                    }
                }
            }
        }
        k = k + 1;
    }
    true
}

/// Whether `order` names every connection of `p` exactly once.
pub fn order_is_valid(p: &PcbProblem, order: &Vec<ConnectionID>) -> (r: bool)
    ensures
        r == order_ok(*p, order@),
{
    let n = order.len();
    let mut a: usize = 0;
    while a < n
        invariant
            n == order@.len(),
            a <= n,
            forall|x: int, y: int| 0 <= x < y < order@.len() && x < a ==> order@[x] != order@[y],
            forall|x: int| 0 <= x < a ==> is_connection_id(*p, #[trigger] order@[x]),
        decreases n - a,
    {
        if find_connection(p, order[a]).is_none() {
            return false;
        }
        let mut b: usize = a + 1;
        while b < n
            invariant
                n == order@.len(),
                a < n,
                a + 1 <= b <= n,
                forall|y: int| a < y < b ==> order@[a as int] != #[trigger] order@[y],
            decreases n - b,
        {
            if order[a] == order[b] {
                return false;
            }
            b = b + 1;
        }
        a = a + 1;
    }
    let mut k: usize = 0;
    while k < p.connections.len()
        invariant
            n == order@.len(),
            k <= p.connections@.len(),
            forall|q: int| 0 <= q < k ==> order@.contains((#[trigger] p.connections@[q]).connection_id),
        decreases p.connections@.len() - k,
    {
        let id = p.connections[k].connection_id;
        let mut b: usize = 0;
        let mut found = false;
        while b < n
            invariant
                n == order@.len(),
                b <= n,
                found ==> order@.contains(id),
                !found ==> forall|y: int| 0 <= y < b ==> order@[y] != id,
            decreases n - b,
        {
            if order[b] == id {
                found = true;
            }
            b = b + 1;
        }
        if !found {
            assert(!order@.contains(p.connections@[k as int].connection_id));
            return false;
        }
        k = k + 1;
    }
    true
}

/// `v` without its element at `idx`.
fn without(v: &Vec<ConnectionID>, idx: usize) -> (r: Vec<ConnectionID>)
    requires
        idx < v@.len(),
    ensures
        r@ == v@.remove(idx as int),
{
    let mut r: Vec<ConnectionID> = Vec::new();
    let mut k: usize = 0;
    while k < v.len()
        invariant
            idx < v@.len(),
            k <= v@.len(),
            r@ == (if k <= idx { v@.subrange(0, k as int) } else { v@.remove(idx as int).subrange(0, k - 1) }),
        decreases v@.len() - k,
    {
        if k != idx {
            r.push(v[k]);
        }
        proof {
            if k < idx {
                assert(v@.subrange(0, k + 1) =~= v@.subrange(0, k as int).push(v@[k as int]));
            } else if k == idx {
                assert(v@.remove(idx as int).subrange(0, k as int) =~= v@.subrange(0, k as int));
            } else {
                assert(v@.remove(idx as int).subrange(0, k as int) =~= v@.remove(idx as int).subrange(0, k - 1).push(
                    v@[k as int],
                ));
            }
        }
        k = k + 1;
    }
    assert(v@.remove(idx as int).subrange(0, v@.len() - 1) =~= v@.remove(idx as int));
    r
}

/// Every segment and via of `t` was reported free by the checks, asked about
/// the traces in `fixed` and the net `net`.
pub open spec fn reported_free<F, G>(
    t: TracePath,
    fixed: &Vec<FixedTrace>,
    net: &NetName,
    m: AStarModel,
    f: F,
    g: G,
) -> bool where
    F: Fn(&Vec<FixedTrace>, &NetName, FixedVec2, FixedVec2, u64, u64, usize) -> bool,
    G: Fn(&Vec<FixedTrace>, &NetName, FixedVec2, u64, u64, usize, usize) -> bool,
 {
    &&& forall|j: int|
        0 <= j < t.segments@.len() ==> f.ensures(
            (
                fixed,
                net,
                (#[trigger] t.segments@[j]).start,
                t.segments@[j].end,
                m.trace_width,
                m.trace_clearance,
                t.segments@[j].layer,
            ),
            false,
        )
    &&& forall|j: int|
        0 <= j < t.vias@.len() ==> g.ensures(
            (
                fixed,
                net,
                (#[trigger] t.vias@[j]).position,
                m.via_diameter,
                m.trace_clearance,
                t.vias@[j].min_layer,
                t.vias@[j].max_layer,
            ),
            false,
        )
}

/// The segment check never reports a collision.
pub open spec fn never_reports_segments<F>(f: F) -> bool where
    F: Fn(&Vec<FixedTrace>, &NetName, FixedVec2, FixedVec2, u64, u64, usize) -> bool,
 {
    forall|fx: &Vec<FixedTrace>, n: &NetName, a: FixedVec2, b: FixedVec2, w: u64, c: u64, l: usize, r: bool| #[trigger]
        f.ensures((fx, n, a, b, w, c, l), r) ==> !r
}

/// The via check never reports a collision.
pub open spec fn never_reports_vias<G>(g: G) -> bool where
    G: Fn(&Vec<FixedTrace>, &NetName, FixedVec2, u64, u64, usize, usize) -> bool,
 {
    forall|fx: &Vec<FixedTrace>, n: &NetName, a: FixedVec2, d: u64, c: u64, lo: usize, hi: usize, r: bool| #[trigger]
        g.ensures((fx, n, a, d, c, lo, hi), r) ==> !r
}

/// Trace `t` of `traces` was reported free by both checks, asked with the
/// traces before it as the fixed ones and with its own net.
pub open spec fn routed_against<F, G>(
    p: PcbProblem,
    cfg: SolverConfig,
    traces: Seq<FixedTrace>,
    t: int,
    f: F,
    g: G,
) -> bool where
    F: Fn(&Vec<FixedTrace>, &NetName, FixedVec2, FixedVec2, u64, u64, usize) -> bool,
    G: Fn(&Vec<FixedTrace>, &NetName, FixedVec2, u64, u64, usize, usize) -> bool,
 {
    exists|fx: Vec<FixedTrace>, k: int, i: int|
        (#[trigger] fx@) == traces.subrange(0, t) && #[trigger] net_of(p, k, i) && p.connections@[k].connection_id
            == traces[t].connection_id && reported_free(
            traces[t].trace_path,
            &fx,
            &p.connections@[k].net_name,
            connection_model(p, cfg, k, i),
            f,
            g,
        )
}

/// The route of `t` has the octile length between its pads, where they differ.
pub open spec fn octile_fit(p: PcbProblem, cfg: SolverConfig, t: FixedTrace) -> bool {
    exists|k: int, i: int|
        #[trigger] net_of(p, k, i) && p.connections@[k].connection_id == t.connection_id && (connection_model(
            p,
            cfg,
            k,
            i,
        ).start != connection_model(p, cfg, k, i).end ==> t.trace_path.total_length.straight
            == crate::astar::octile_straight(connection_model(p, cfg, k, i).start, connection_model(p, cfg, k, i).end)
            && t.trace_path.total_length.diagonal == crate::astar::octile_diagonal(
            connection_model(p, cfg, k, i).start,
            connection_model(p, cfg, k, i).end,
        ))
}

/// Some fitting route of connection `id` has length `len`.
pub open spec fn fitting_length(p: PcbProblem, cfg: SolverConfig, id: ConnectionID, len: PathLength) -> bool {
    exists|t: FixedTrace|
        #[trigger] trace_fits(p, cfg, t) && t.connection_id == id && t.trace_path.total_length == len
}

/// Every connection belongs to one net.
pub open spec fn single_net(p: PcbProblem) -> bool {
    forall|k: int, l: int|
        0 <= k < p.connections@.len() && 0 <= l < p.connections@.len() ==> (#[trigger] p.connections@[k]).net_name.0@
            == (#[trigger] p.connections@[l]).net_name.0@
}

/// There are no obstacle lines, and the pads of every connection share a
/// layer, lie whole strides apart and sit inside the border, so that the
/// direct octile route is available.
pub open spec fn all_direct(p: PcbProblem, cfg: SolverConfig) -> bool {
    &&& p.obstacle_lines@.len() == 0
    &&& forall|k: int, i: int|
        #[trigger] net_of(p, k, i) ==> shared_layer(connection_model(p, cfg, k, i)) && on_stride_grid(
            connection_model(p, cfg, k, i),
        ) && inside_inset(connection_model(p, cfg, k, i).start, connection_model(p, cfg, k, i)) && inside_inset(
            connection_model(p, cfg, k, i).end,
            connection_model(p, cfg, k, i),
        )
}

/// Whether every anchor of `path` lies on the board of `m`.
fn anchors_in_board(path: &TracePath, m: &AStarModel) -> (r: bool)
    requires
        m.limits_ok(),
        crate::trace_path::anchors_ok(path.anchors.0@),
    ensures
        r == forall|k: int| 0 <= k < path.anchors.0@.len() ==> crate::astar::in_board(#[trigger] path.anchors.0@[k].position, *m),
{
    let a = &path.anchors.0;
    let mut k: usize = 0;
    while k < a.len()
        invariant
            m.limits_ok(),
            crate::trace_path::anchors_ok(a@),
            a@ == path.anchors.0@,
            k <= a@.len(),
            forall|q: int| 0 <= q < k ==> crate::astar::in_board(#[trigger] a@[q].position, *m),
        decreases a@.len() - k,
    {
        assert(crate::vec2::point_ok(a@[k as int].position));
        if !crate::astar::in_board_exec(a[k].position, m) {
            assert(!crate::astar::in_board(path.anchors.0@[k as int].position, *m));
            return false;
        }
        k = k + 1;
    }
    true
}

/// Routes connection `k` with A* and tightens the result with the
/// post-optimizer. Both consult the oracles with the traces in `fixed` and the
/// connection's net: `check_collision(fixed, net, p, q, width, clearance,
/// layer)` tells whether a segment would hit a pad of another net or a fixed
/// trace of another net, `check_via(fixed, net, p, diameter, clearance,
/// min_layer, max_layer)` the same of a via. Where the optimized path would
/// leave the board, or come too close to a fixed trace of another net, the
/// A* path is kept.
#[verifier::rlimit(80)]
pub fn route_connection<F, G>(
    p: &PcbProblem,
    cfg: &SolverConfig,
    k: usize,
    fixed: &Vec<FixedTrace>,
    check_collision: &F,
    check_via: &G,
) -> (r: Result<FixedTrace, RouteError>)
    where
        F: Fn(&Vec<FixedTrace>, &NetName, FixedVec2, FixedVec2, u64, u64, usize) -> bool,
        G: Fn(&Vec<FixedTrace>, &NetName, FixedVec2, u64, u64, usize, usize) -> bool,
    requires
        p.wf(),
        problem_ok(*p, *cfg),
        k < p.connections@.len(),
        forall|q: int| 0 <= q < fixed@.len() ==> trace_fits(*p, *cfg, #[trigger] fixed@[q]),
        forall|f: &Vec<FixedTrace>, n: &NetName, a: FixedVec2, b: FixedVec2, w: u64, c: u64, l: usize| #[trigger]
            check_collision.requires((f, n, a, b, w, c, l)),
        forall|f: &Vec<FixedTrace>, n: &NetName, a: FixedVec2, d: u64, c: u64, lo: usize, hi: usize| #[trigger]
            check_via.requires((f, n, a, d, c, lo, hi)),
    ensures
        r matches Ok(t) ==> trace_fits(*p, *cfg, t) && t.connection_id == p.connections@[k as int].connection_id,
        r != Err::<FixedTrace, RouteError>(RouteError::InvalidInput),
        forall|i: int|
            #[trigger] net_of(*p, k as int, i) ==> (r matches Ok(t) ==> reported_free(
                t.trace_path,
                fixed,
                &p.connections@[k as int].net_name,
                connection_model(*p, *cfg, k as int, i),
                *check_collision,
                *check_via,
            )),
        // coincident pads on a shared layer are always joined
        forall|i: int|
            #[trigger] net_of(*p, k as int, i) && connection_model(*p, *cfg, k as int, i).start == connection_model(
                *p,
                *cfg,
                k as int,
                i,
            ).end && shared_layer(connection_model(*p, *cfg, k as int, i)) ==> r is Ok,
        // coincident pads on different layers, vias never in the way
        forall|i: int|
            #[trigger] net_of(*p, k as int, i) && connection_model(*p, *cfg, k as int, i).start == connection_model(
                *p,
                *cfg,
                k as int,
                i,
            ).end && never_reports_vias(*check_via) && p.obstacle_lines@.len() == 0 ==> r is Ok,
        // nothing ever in the way: the pads are joined
        forall|i: int|
            #[trigger] net_of(*p, k as int, i) && shared_layer(connection_model(*p, *cfg, k as int, i)) && on_stride_grid(
                connection_model(*p, *cfg, k as int, i),
            ) && inside_inset(connection_model(*p, *cfg, k as int, i).start, connection_model(*p, *cfg, k as int, i))
                && inside_inset(connection_model(*p, *cfg, k as int, i).end, connection_model(*p, *cfg, k as int, i))
                && never_reports_segments(*check_collision) && p.obstacle_lines@.len() == 0 ==> r is Ok,
        // and then, for distinct pads, the route has the octile length
        forall|i: int|
            #[trigger] net_of(*p, k as int, i) && connection_model(*p, *cfg, k as int, i).start != connection_model(
                *p,
                *cfg,
                k as int,
                i,
            ).end && shared_layer(connection_model(*p, *cfg, k as int, i)) && on_stride_grid(
                connection_model(*p, *cfg, k as int, i),
            ) && inside_inset(connection_model(*p, *cfg, k as int, i).start, connection_model(*p, *cfg, k as int, i))
                && inside_inset(connection_model(*p, *cfg, k as int, i).end, connection_model(*p, *cfg, k as int, i))
                && never_reports_segments(*check_collision) && p.obstacle_lines@.len() == 0 ==> (r matches Ok(t)
                && t.trace_path.total_length.straight == crate::astar::octile_straight(
                connection_model(*p, *cfg, k as int, i).start,
                connection_model(*p, *cfg, k as int, i).end,
            ) && t.trace_path.total_length.diagonal == crate::astar::octile_diagonal(
                connection_model(*p, *cfg, k as int, i).start,
                connection_model(*p, *cfg, k as int, i).end,
            )),
{
    let c = &p.connections[k];
    let i = match p.find_net(&c.net_name) {
        Some(i) => i,
        None => {
            assert(p.has_net(p.connections@[k as int].net_name.0@));
            return Err(RouteError::Unroutable);
        },
    };
    assert(net_of(*p, k as int, i as int));
    // the net of a connection is unique
    assert forall|j: int| #[trigger] net_of(*p, k as int, j) implies j == i by {
        if j < i {
            assert(p.nets@[j].net_name.0@ != p.nets@[i as int].net_name.0@);
        } else if j > i {
            assert(p.nets@[i as int].net_name.0@ != p.nets@[j].net_name.0@);
        }
    }
    let m = connection_model_exec(p, cfg, k, i);
    let name = &c.net_name;
    let lines = &p.obstacle_lines;
    // a segment is in the way where the caller's check says so or it comes
    // near an obstacle line
    let cc = |a: FixedVec2, b: FixedVec2, w: u64, cl: u64, l: usize| -> (res: bool)
        ensures
            !res ==> check_collision.ensures((fixed, name, a, b, w, cl, l), false) && !hits_lines(
                lines@,
                a,
                b,
                w,
                cl,
            ),
            (forall|u: bool| check_collision.ensures((fixed, name, a, b, w, cl, l), u) ==> !u) && lines@.len()
                == 0 ==> !res,
        {
            let u = check_collision(fixed, name, a, b, w, cl, l);
            u || lines_hit(lines, a, b, w, cl)
        };
    let cv = |a: FixedVec2, d: u64, cl: u64, lo: usize, hi: usize| -> (res: bool)
        ensures
            check_via.ensures((fixed, name, a, d, cl, lo, hi), res),
        { check_via(fixed, name, a, d, cl, lo, hi) };
    proof {
        if never_reports_segments(*check_collision) && p.obstacle_lines@.len() == 0 {
            assert forall|a: FixedVec2, b: FixedVec2, w: u64, cl: u64, l: usize, res: bool| #[trigger]
                cc.ensures((a, b, w, cl, l), res) implies !res by {
                assert forall|u: bool| check_collision.ensures((fixed, name, a, b, w, cl, l), u) implies !u by {}
            }
        }
        if never_reports_vias(*check_via) {
            assert forall|a: FixedVec2, d: u64, cl: u64, lo: usize, hi: usize, res: bool| #[trigger]
                cv.ensures((a, d, cl, lo, hi), res) implies !res by {
                assert(check_via.ensures((fixed, name, a, d, cl, lo, hi), res));
            }
        }
    }
    match astar_route(&m, &cc, &cv) {
        Err(e) => Err(e),
        Ok(path) => {
            let opt = optimize_path(&path, &cc, m.trace_width, m.trace_clearance, m.via_diameter);
            // the optimized path is kept where it stays on the board and
            // clear of the fixed traces of other nets
            let keep = if anchors_in_board(&opt, &m) {
                proof {
                    lemma_routed_path_small(opt, m);
                }
                clear_of_fixed(p, cfg, name, &opt, fixed) && recheck(&opt, &m, &cc, &cv)
            } else {
                false
            };
            let chosen = if keep { opt } else { path };
            let t = FixedTrace {
                net_name: NetName(c.net_name.0.clone()),
                connection_id: c.connection_id,
                trace_path: chosen,
            };
            assert(route_ok(t.trace_path, connection_model(*p, *cfg, k as int, i as int)));
            proof {
                let tp = t.trace_path;
                assert(crate::astar::segments_reported_free(tp, m, cc));
                assert(crate::astar::vias_reported_free(tp, m, cv));
                assert forall|j: int| 0 <= j < tp.segments@.len() implies check_collision.ensures(
                    (
                        fixed,
                        name,
                        (#[trigger] tp.segments@[j]).start,
                        tp.segments@[j].end,
                        m.trace_width,
                        m.trace_clearance,
                        tp.segments@[j].layer,
                    ),
                    false,
                ) by {
                    let s = tp.segments@[j];
                    assert(cc.ensures((s.start, s.end, m.trace_width, m.trace_clearance, s.layer), false));
                }
                assert forall|j: int| 0 <= j < tp.segments@.len() implies !hits_lines(
                    p.obstacle_lines@,
                    (#[trigger] tp.segments@[j]).start,
                    tp.segments@[j].end,
                    m.trace_width,
                    m.trace_clearance,
                ) by {
                    let s = tp.segments@[j];
                    assert(cc.ensures((s.start, s.end, m.trace_width, m.trace_clearance, s.layer), false));
                }
                assert(clear_of_lines(tp, p.obstacle_lines@, m));
                assert forall|j: int| 0 <= j < tp.vias@.len() implies check_via.ensures(
                    (
                        fixed,
                        name,
                        (#[trigger] tp.vias@[j]).position,
                        m.via_diameter,
                        m.trace_clearance,
                        tp.vias@[j].min_layer,
                        tp.vias@[j].max_layer,
                    ),
                    false,
                ) by {
                    let v = tp.vias@[j];
                    assert(cv.ensures((v.position, m.via_diameter, m.trace_clearance, v.min_layer, v.max_layer), false));
                }
            }
            Ok(t)
        },
    }
}

proof fn lemma_fitting_small(p: PcbProblem, cfg: SolverConfig, t: FixedTrace)
    requires
        problem_ok(p, cfg),
        trace_fits(p, cfg, t),
    ensures
        path_small(t.trace_path),
{
    let (k, i) = choose|k: int, i: int|
        #[trigger] net_of(p, k, i) && p.connections@[k].connection_id == t.connection_id && t.net_name.0@
            == p.connections@[k].net_name.0@ && route_ok(t.trace_path, connection_model(p, cfg, k, i));
    lemma_routed_path_small(t.trace_path, connection_model(p, cfg, k, i));
}

/// Whether `path`, routed for net `net`, keeps clearance from every trace of
/// another net in `fixed`.
fn clear_of_fixed(p: &PcbProblem, cfg: &SolverConfig, net: &NetName, path: &TracePath, fixed: &Vec<FixedTrace>) -> (r:
    bool)
    requires
        problem_ok(*p, *cfg),
        path_small(*path),
        forall|q: int| 0 <= q < fixed@.len() ==> trace_fits(*p, *cfg, #[trigger] fixed@[q]),
    ensures
        r == forall|q: int|
            0 <= q < fixed@.len() && (#[trigger] fixed@[q]).net_name.0@ != net.0@ ==> paths_clear(
                *path,
                fixed@[q].trace_path,
            ) && paths_clear(fixed@[q].trace_path, *path),
{
    let mut q: usize = 0;
    while q < fixed.len()
        invariant
            problem_ok(*p, *cfg),
            path_small(*path),
            forall|x: int| 0 <= x < fixed@.len() ==> trace_fits(*p, *cfg, #[trigger] fixed@[x]),
            q <= fixed@.len(),
            forall|x: int|
                0 <= x < q && (#[trigger] fixed@[x]).net_name.0@ != net.0@ ==> paths_clear(*path, fixed@[x].trace_path)
                    && paths_clear(fixed@[x].trace_path, *path),
        decreases fixed@.len() - q,
    {
        let f = &fixed[q];
        if f.net_name.0 != net.0 {
            proof {
                lemma_fitting_small(*p, *cfg, fixed@[q as int]);
            }
            if !(paths_clear_exec(path, &f.trace_path) && paths_clear_exec(&f.trace_path, path)) {
                return false;
            }
        }
        q = q + 1;
    }
    true
}

/// `new` extends `old` by one fitting trace for each id of `rem`, each once.
pub open spec fn extends_by(
    p: PcbProblem,
    cfg: SolverConfig,
    old: Seq<FixedTrace>,
    new: Seq<FixedTrace>,
    rem: Seq<ConnectionID>,
) -> bool {
    &&& new.len() == old.len() + rem.len()
    &&& new.subrange(0, old.len() as int) == old
    &&& forall|t: int| old.len() <= t < new.len() ==> trace_fits(p, cfg, #[trigger] new[t])
    &&& forall|t: int| old.len() <= t < new.len() ==> rem.contains(#[trigger] new[t].connection_id)
    &&& forall|a: int|
        0 <= a < rem.len() ==> exists|t: int| old.len() <= t < new.len() && (#[trigger] new[t]).connection_id == #[trigger] rem[a]
    &&& forall|t1: int, t2: int|
        old.len() <= t1 < t2 < new.len() ==> (#[trigger] new[t1]).connection_id != (#[trigger] new[t2]).connection_id
}

/// Backtracking over the connections in `remaining`: tries them in order as
/// the next one to route; a connection that cannot be routed fails the whole
/// node (it would stay unroutable under more traces), and a child that fails
/// sends the search on to the next choice. On success `fixed` holds one more
/// trace for each connection of `remaining`.
#[verifier::rlimit(100)]
fn solve_remaining<F, G>(
    p: &PcbProblem,
    cfg: &SolverConfig,
    remaining: &Vec<ConnectionID>,
    fixed: &mut Vec<FixedTrace>,
    attempts: &mut usize,
    check_collision: &F,
    check_via: &G,
) -> (r: Result<bool, SolveError>)
    where
        F: Fn(&Vec<FixedTrace>, &NetName, FixedVec2, FixedVec2, u64, u64, usize) -> bool,
        G: Fn(&Vec<FixedTrace>, &NetName, FixedVec2, u64, u64, usize, usize) -> bool,
    requires
        p.wf(),
        problem_ok(*p, *cfg),
        forall|f: &Vec<FixedTrace>, n: &NetName, a: FixedVec2, b: FixedVec2, w: u64, c: u64, l: usize| #[trigger]
            check_collision.requires((f, n, a, b, w, c, l)),
        forall|f: &Vec<FixedTrace>, n: &NetName, a: FixedVec2, d: u64, c: u64, lo: usize, hi: usize| #[trigger]
            check_via.requires((f, n, a, d, c, lo, hi)),
        forall|a: int, b: int| 0 <= a < b < remaining@.len() ==> remaining@[a] != remaining@[b],
        forall|a: int| 0 <= a < remaining@.len() ==> is_connection_id(*p, #[trigger] remaining@[a]),
        forall|a: int, t: int|
            0 <= a < remaining@.len() && 0 <= t < old(fixed)@.len() ==> (#[trigger] old(fixed)@[t]).connection_id
                != #[trigger] remaining@[a],
        forall|t: int| 0 <= t < old(fixed)@.len() ==> trace_fits(*p, *cfg, #[trigger] old(fixed)@[t]),
        pairwise_clear(old(fixed)@),
    ensures
        r == Ok::<bool, SolveError>(true) ==> extends_by(*p, *cfg, old(fixed)@, final(fixed)@, remaining@),
        r == Ok::<bool, SolveError>(true) ==> pairwise_clear(final(fixed)@),
        r == Ok::<bool, SolveError>(true) ==> forall|t: int|
            old(fixed)@.len() <= t < final(fixed)@.len() ==> #[trigger] routed_against(
                *p,
                *cfg,
                final(fixed)@,
                t,
                *check_collision,
                *check_via,
            ),
        r != Ok::<bool, SolveError>(true) ==> final(fixed)@ == old(fixed)@,
        r != Err::<bool, SolveError>(SolveError::InvalidInput),
        single_net(*p) && all_direct(*p, *cfg) && never_reports_segments(*check_collision) && *old(attempts)
            >= remaining@.len() ==> r == Ok::<bool, SolveError>(true),
        remaining@.len() == 0 ==> r == Ok::<bool, SolveError>(true),
        single_net(*p) && all_direct(*p, *cfg) && never_reports_segments(*check_collision) && r == Ok::<
            bool,
            SolveError,
        >(true) ==> forall|t: int|
            old(fixed)@.len() <= t < final(fixed)@.len() ==> octile_fit(*p, *cfg, #[trigger] final(fixed)@[t]),
    decreases remaining@.len(),
{
    let n = remaining.len();
    if n == 0 {
        assert(fixed@.subrange(0, fixed@.len() as int) =~= fixed@);
        return Ok(true);
    }
    let mut idx: usize = 0;
    while idx < n
        invariant
            n == remaining@.len(),
            idx <= n,
            fixed@ == old(fixed)@,
            p.wf(),
            problem_ok(*p, *cfg),
            forall|f: &Vec<FixedTrace>, n: &NetName, a: FixedVec2, b: FixedVec2, w: u64, c: u64, l: usize| #[trigger]
                check_collision.requires((f, n, a, b, w, c, l)),
            forall|f: &Vec<FixedTrace>, n: &NetName, a: FixedVec2, d: u64, c: u64, lo: usize, hi: usize| #[trigger]
                check_via.requires((f, n, a, d, c, lo, hi)),
            forall|a: int, b: int| 0 <= a < b < remaining@.len() ==> remaining@[a] != remaining@[b],
            forall|a: int| 0 <= a < remaining@.len() ==> is_connection_id(*p, #[trigger] remaining@[a]),
            forall|a: int, t: int|
                0 <= a < remaining@.len() && 0 <= t < fixed@.len() ==> (#[trigger] fixed@[t]).connection_id
                    != #[trigger] remaining@[a],
            forall|t: int| 0 <= t < fixed@.len() ==> trace_fits(*p, *cfg, #[trigger] fixed@[t]),
            pairwise_clear(fixed@),
            single_net(*p) && all_direct(*p, *cfg) && never_reports_segments(*check_collision) && *old(attempts)
                >= remaining@.len() ==> idx == 0 && *attempts == *old(attempts),
        decreases n - idx,
    {
        let ghost easy = single_net(*p) && all_direct(*p, *cfg) && never_reports_segments(*check_collision)
            && *attempts >= remaining@.len();
        if *attempts == 0 {
            return Err(SolveError::BudgetExceeded);
        }
        *attempts = *attempts - 1;
        let id = remaining[idx];
        let k = match find_connection(p, id) {
            Some(k) => k,
            None => {
                assert(is_connection_id(*p, remaining@[idx as int]));
                return Err(SolveError::InvalidInput);
            },
        };
        proof {
            if easy {
                assert(p.has_net(p.connections@[k as int].net_name.0@));
                let i = choose|i: int| 0 <= i < p.nets@.len() && (#[trigger] p.nets@[i]).net_name.0@
                    == p.connections@[k as int].net_name.0@;
                assert(net_of(*p, k as int, i));
            }
        }
        let ghost fv: Vec<FixedTrace> = *fixed;
        let ghost i0: int = choose|i: int| 0 <= i < p.nets@.len() && (#[trigger] p.nets@[i]).net_name.0@
            == p.connections@[k as int].net_name.0@;
        proof {
            assert(p.has_net(p.connections@[k as int].net_name.0@));
            assert(net_of(*p, k as int, i0));
        }
        let t = match route_connection(p, cfg, k, fixed, check_collision, check_via) {
            Ok(t) => t,
            Err(RouteError::BudgetExceeded) => {
                return Err(SolveError::BudgetExceeded);
            },
            Err(_) => {
                return Ok(false);
            },
        };
        proof {
            lemma_fitting_small(*p, *cfg, t);
            if easy {
                assert forall|q: int| 0 <= q < fixed@.len() implies (#[trigger] fixed@[q]).net_name.0@
                    == t.net_name.0@ by {
                    assert(trace_fits(*p, *cfg, fixed@[q]));
                    let (k2, i2) = choose|k2: int, i2: int|
                        #[trigger] net_of(*p, k2, i2) && p.connections@[k2].connection_id == fixed@[q].connection_id
                            && fixed@[q].net_name.0@ == p.connections@[k2].net_name.0@ && route_ok(
                            fixed@[q].trace_path,
                            connection_model(*p, *cfg, k2, i2),
                        );
                    assert(p.connections@[k2].net_name.0@ == p.connections@[k as int].net_name.0@);
                }
            }
        }
        if !clear_of_fixed(p, cfg, &t.net_name, &t.trace_path, fixed) {
            return Ok(false);
        }
        let rest = without(remaining, idx);
        let ghost f0 = fixed@;
        let ghost rem = remaining@;
        fixed.push(t);
        let ghost f1 = fixed@;
        let ghost tv = f1[f0.len() as int];
        assert forall|q: int| 0 <= q < f1.len() implies trace_fits(*p, *cfg, #[trigger] f1[q]) by {
            if q < f0.len() {
                assert(f1[q] == f0[q]);
            }
        }
        assert forall|a: int, b: int|
            0 <= a < f1.len() && 0 <= b < f1.len() && a != b && f1[a].net_name.0@ != f1[b].net_name.0@ implies paths_clear(
            #[trigger] f1[a].trace_path,
            #[trigger] f1[b].trace_path,
        ) by {
            let o = f0.len() as int;
            if a < o && b < o {
                assert(f1[a] == f0[a] && f1[b] == f0[b]);
            } else if a == o {
                assert(f1[b] == f0[b]);
            } else {
                assert(f1[a] == f0[a]);
            }
        }
        assert forall|a: int, b: int| 0 <= a < b < rest@.len() implies rest@[a] != rest@[b] by {
            let x = if a < idx { a } else { a + 1 };
            let y = if b < idx { b } else { b + 1 };
            assert(rest@[a] == rem[x] && rest@[b] == rem[y]);
        }
        assert forall|a: int| 0 <= a < rest@.len() implies is_connection_id(*p, #[trigger] rest@[a]) by {
            let x = if a < idx { a } else { a + 1 };
            assert(rest@[a] == rem[x]);
        }
        assert forall|a: int, q: int| 0 <= a < rest@.len() && 0 <= q < f1.len() implies (#[trigger] f1[q]).connection_id
            != #[trigger] rest@[a] by {
            let x = if a < idx { a } else { a + 1 };
            assert(rest@[a] == rem[x]);
            if q < f0.len() {
                assert(f1[q] == f0[q]);
            } else {
                assert(f1[q].connection_id == rem[idx as int]);
            }
        }
        match solve_remaining(p, cfg, &rest, fixed, attempts, check_collision, check_via) {
            Ok(true) => {
                proof {
                    let fnew = fixed@;
                    let o = f0.len() as int;
                    assert(fnew.subrange(0, o + 1) == f1);
                    assert(fnew.subrange(0, o) =~= f0) by {
                        assert forall|q: int| 0 <= q < o implies fnew.subrange(0, o)[q] == f0[q] by {
                            assert(fnew.subrange(0, o + 1)[q] == f1[q]);
                        }
                    }
                    assert(fnew[o] == f1[o]);
                    assert(routed_against(*p, *cfg, fnew, o, *check_collision, *check_via)) by {
                        assert(fv@ == fnew.subrange(0, o));
                        assert(net_of(*p, k as int, i0));
                        assert(fnew[o] == tv);
                        assert(reported_free(
                            fnew[o].trace_path,
                            &fv,
                            &p.connections@[k as int].net_name,
                            connection_model(*p, *cfg, k as int, i0),
                            *check_collision,
                            *check_via,
                        ));
                    }
                    if single_net(*p) && all_direct(*p, *cfg) && never_reports_segments(*check_collision) {
                        assert(octile_fit(*p, *cfg, fnew[o])) by {
                            assert(net_of(*p, k as int, i0));
                            assert(fnew[o] == tv);
                        }
                        assert forall|tt: int| o <= tt < fnew.len() implies octile_fit(
                            *p,
                            *cfg,
                            #[trigger] fnew[tt],
                        ) by {}
                    }
                    assert forall|tt: int| o <= tt < fnew.len() implies #[trigger] routed_against(
                        *p,
                        *cfg,
                        fnew,
                        tt,
                        *check_collision,
                        *check_via,
                    ) by {}
                    assert(fnew[o] == f1[o]);
                    assert forall|q: int| o <= q < fnew.len() implies trace_fits(*p, *cfg, #[trigger] fnew[q])
                        && rem.contains(fnew[q].connection_id) by {
                        if q == o {
                            assert(fnew[q].connection_id == rem[idx as int]);
                        } else {
                            assert(rest@.contains(fnew[q].connection_id));
                            let a = choose|a: int| 0 <= a < rest@.len() && rest@[a] == fnew[q].connection_id;
                            let x = if a < idx { a } else { a + 1 };
                            assert(rest@[a] == rem[x]);
                        }
                    }
                    assert forall|a: int| 0 <= a < rem.len() implies exists|q: int|
                        o <= q < fnew.len() && (#[trigger] fnew[q]).connection_id == #[trigger] rem[a] by {
                        if a == idx {
                            assert(fnew[o].connection_id == rem[a]);
                        } else {
                            let b = if a < idx { a } else { a - 1 };
                            assert(rest@[b] == rem[a]);
                            let q = choose|q: int| o + 1 <= q < fnew.len() && (#[trigger] fnew[q]).connection_id == rest@[b];
                            assert(fnew[q].connection_id == rem[a]);
                        }
                    }
                    assert forall|t1: int, t2: int| o <= t1 < t2 < fnew.len() implies (#[trigger] fnew[t1]).connection_id
                        != (#[trigger] fnew[t2]).connection_id by {
                        if t1 == o {
                            assert(rest@.contains(fnew[t2].connection_id));
                            let a = choose|a: int| 0 <= a < rest@.len() && rest@[a] == fnew[t2].connection_id;
                            let x = if a < idx { a } else { a + 1 };
                            assert(rest@[a] == rem[x]);
                            assert(fnew[t1].connection_id == rem[idx as int]);
                        }
                    }
                }
                return Ok(true);
            },
            Ok(false) => {
                fixed.pop();
                assert(fixed@ =~= f0);
            },
            Err(e) => {
                fixed.pop();
                assert(fixed@ =~= f0);
                return Err(e);
            },
        }
        idx = idx + 1;
    }
    Ok(false)
}

/// Pre-pass: routes every connection against the pads of other nets alone
/// and orders the connections by the length of that route, shortest first
/// (ties keep the order of the problem).
#[verifier::rlimit(100)]
pub fn order_by_length<F, G>(
    p: &PcbProblem,
    cfg: &SolverConfig,
    check_collision: &F,
    check_via: &G,
) -> (r: Result<(Vec<ConnectionID>, Vec<PathLength>), SolveError>)
    where
        F: Fn(&Vec<FixedTrace>, &NetName, FixedVec2, FixedVec2, u64, u64, usize) -> bool,
        G: Fn(&Vec<FixedTrace>, &NetName, FixedVec2, u64, u64, usize, usize) -> bool,
    requires
        p.wf(),
        problem_ok(*p, *cfg),
        forall|f: &Vec<FixedTrace>, n: &NetName, a: FixedVec2, b: FixedVec2, w: u64, c: u64, l: usize| #[trigger]
            check_collision.requires((f, n, a, b, w, c, l)),
        forall|f: &Vec<FixedTrace>, n: &NetName, a: FixedVec2, d: u64, c: u64, lo: usize, hi: usize| #[trigger]
            check_via.requires((f, n, a, d, c, lo, hi)),
    ensures
        r matches Ok(v) ==> order_ok(*p, v.0@) && v.0@.len() == p.connections@.len() && v.1@.len() == v.0@.len(),
        // the pre-pass lengths, each that of a fitting route of its
        // connection, do not decrease along the order
        r matches Ok(v) ==> forall|a: int|
            0 <= a < v.1@.len() - 1 ==> !cost_lt(
                v.1@[a + 1].straight as int,
                v.1@[a + 1].diagonal as int,
                (#[trigger] v.1@[a]).straight as int,
                v.1@[a].diagonal as int,
            ),
        r matches Ok(v) ==> forall|a: int|
            0 <= a < v.1@.len() ==> #[trigger] fitting_length(*p, *cfg, v.0@[a], v.1@[a]),
        p.connections@.len() == 0 ==> r is Ok,
        all_direct(*p, *cfg) && never_reports_segments(*check_collision) ==> r is Ok,
        r is Err ==> r == Err::<(Vec<ConnectionID>, Vec<PathLength>), SolveError>(SolveError::NoSolution) || r
            == Err::<(Vec<ConnectionID>, Vec<PathLength>), SolveError>(SolveError::BudgetExceeded),
{
    let empty: Vec<FixedTrace> = Vec::new();
    let mut ids: Vec<ConnectionID> = Vec::new();
    let mut straight: Vec<u64> = Vec::new();
    let mut diagonal: Vec<u64> = Vec::new();
    let ghost mut tr: Seq<FixedTrace> = Seq::empty();
    let mut k: usize = 0;
    while k < p.connections.len()
        invariant
            p.wf(),
            problem_ok(*p, *cfg),
            empty@.len() == 0,
            forall|f: &Vec<FixedTrace>, n: &NetName, a: FixedVec2, b: FixedVec2, w: u64, c: u64, l: usize| #[trigger]
                check_collision.requires((f, n, a, b, w, c, l)),
            forall|f: &Vec<FixedTrace>, n: &NetName, a: FixedVec2, d: u64, c: u64, lo: usize, hi: usize| #[trigger]
                check_via.requires((f, n, a, d, c, lo, hi)),
            k <= p.connections@.len(),
            ids@.len() == k && straight@.len() == k && diagonal@.len() == k,
            forall|a: int| 0 <= a < k ==> exists|q: int| 0 <= q < k && (#[trigger] ids@[a]) == p.connections@[q].connection_id,
            forall|q: int| 0 <= q < k ==> ids@.contains((#[trigger] p.connections@[q]).connection_id),
            forall|a: int, b: int| 0 <= a < b < k ==> ids@[a] != ids@[b],
            forall|a: int| 0 <= a < k ==> #[trigger] straight@[a] <= 0x4000_0000_0000_0000,
            forall|a: int| 0 <= a < k ==> #[trigger] diagonal@[a] <= 0x4000_0000_0000_0000,
            tr.len() == k,
            forall|a: int|
                0 <= a < k ==> trace_fits(*p, *cfg, #[trigger] tr[a]) && tr[a].connection_id == ids@[a]
                    && tr[a].trace_path.total_length.straight == straight@[a]
                    && tr[a].trace_path.total_length.diagonal == diagonal@[a],
            forall|a: int|
                0 <= a < k - 1 ==> !cost_lt(
                    straight@[a + 1] as int,
                    diagonal@[a + 1] as int,
                    #[trigger] straight@[a] as int,
                    diagonal@[a] as int,
                ),
        decreases p.connections@.len() - k,
    {
        proof {
            assert(p.has_net(p.connections@[k as int].net_name.0@));
            let i = choose|i: int| 0 <= i < p.nets@.len() && (#[trigger] p.nets@[i]).net_name.0@
                == p.connections@[k as int].net_name.0@;
            assert(net_of(*p, k as int, i));
        }
        let t = match route_connection(p, cfg, k, &empty, check_collision, check_via) {
            Ok(t) => t,
            Err(RouteError::BudgetExceeded) => {
                return Err(SolveError::BudgetExceeded);
            },
            Err(_) => {
                return Err(SolveError::NoSolution);
            },
        };
        let len = t.trace_path.total_length;
        proof {
            let a = t.trace_path.anchors.0@;
            crate::trace_path::lemma_length_bound(a);
        }
        // insert after every entry that is not longer
        let mut pos: usize = 0;
        let mut found = false;
        while pos < ids.len() && !found
            invariant
                found ==> pos < ids@.len() && cost_lt(
                    len.straight as int,
                    len.diagonal as int,
                    straight@[pos as int] as int,
                    diagonal@[pos as int] as int,
                ),
                forall|q: int|
                    0 <= q < pos && !(found && q == pos) ==> !cost_lt(
                        len.straight as int,
                        len.diagonal as int,
                        #[trigger] straight@[q] as int,
                        diagonal@[q] as int,
                    ),
                pos <= ids@.len(),
                ids@.len() == straight@.len() && ids@.len() == diagonal@.len(),
                forall|a: int| 0 <= a < ids@.len() ==> #[trigger] straight@[a] <= 0x4000_0000_0000_0000,
                forall|a: int| 0 <= a < ids@.len() ==> #[trigger] diagonal@[a] <= 0x4000_0000_0000_0000,
                len.straight <= 0x4000_0000_0000_0000 && len.diagonal <= 0x4000_0000_0000_0000,
            decreases ids@.len() - pos + (if found { 0int } else { 1int }),
        {
            if cost_less(len.straight, len.diagonal, straight[pos], diagonal[pos]) {
                found = true;
            } else {
                pos = pos + 1;
            }
        }
        let ghost ids0 = ids@;
        let ghost s0 = straight@;
        let ghost d0 = diagonal@;
        ids.insert(pos, p.connections[k].connection_id);
        straight.insert(pos, len.straight);
        diagonal.insert(pos, len.diagonal);
        let ghost tr0 = tr;
        proof {
            tr = tr.insert(pos as int, t);
            if found {
                lemma_cost_lt_asymmetric(len.straight as int, len.diagonal as int, s0[pos as int] as int, d0[pos as int] as int);
            }
            assert forall|a: int| 0 <= a < k + 1 implies trace_fits(*p, *cfg, #[trigger] tr[a]) && tr[a].connection_id
                == ids@[a] && tr[a].trace_path.total_length.straight == straight@[a]
                && tr[a].trace_path.total_length.diagonal == diagonal@[a] by {
                if a < pos {
                    assert(tr[a] == tr0[a] && ids@[a] == ids0[a] && straight@[a] == s0[a] && diagonal@[a] == d0[a]);
                } else if a > pos {
                    assert(tr[a] == tr0[a - 1] && ids@[a] == ids0[a - 1] && straight@[a] == s0[a - 1] && diagonal@[a]
                        == d0[a - 1]);
                }
            }
            assert forall|a: int| 0 <= a < k + 1 - 1 implies !cost_lt(
                straight@[a + 1] as int,
                diagonal@[a + 1] as int,
                #[trigger] straight@[a] as int,
                diagonal@[a] as int,
            ) by {
                if a + 1 < pos {
                    assert(straight@[a] == s0[a] && straight@[a + 1] == s0[a + 1]);
                    assert(diagonal@[a] == d0[a] && diagonal@[a + 1] == d0[a + 1]);
                } else if a + 1 == pos {
                    assert(straight@[a] == s0[a] && diagonal@[a] == d0[a]);
                } else if a == pos {
                    assert(straight@[a + 1] == s0[a] && diagonal@[a + 1] == d0[a]);
                } else {
                    assert(straight@[a] == s0[a - 1] && straight@[a + 1] == s0[a]);
                    assert(diagonal@[a] == d0[a - 1] && diagonal@[a + 1] == d0[a]);
                }
            }
        }
        let ghost id = p.connections@[k as int].connection_id;
        assert(ids@ =~= ids0.insert(pos as int, id));
        assert forall|a: int| 0 <= a < k + 1 implies exists|q: int|
            0 <= q < k + 1 && (#[trigger] ids@[a]) == p.connections@[q].connection_id by {
            if a < pos {
                assert(ids@[a] == ids0[a]);
                let q = choose|q: int| 0 <= q < k && ids0[a] == p.connections@[q].connection_id;
            } else if a > pos {
                assert(ids@[a] == ids0[a - 1]);
                let q = choose|q: int| 0 <= q < k && ids0[a - 1] == p.connections@[q].connection_id;
            } else {
                assert(ids@[a] == p.connections@[k as int].connection_id);
            }
        }
        assert forall|q: int| 0 <= q < k + 1 implies ids@.contains((#[trigger] p.connections@[q]).connection_id) by {
            if q < k {
                let a = choose|a: int| 0 <= a < ids0.len() && ids0[a] == p.connections@[q].connection_id;
                if a < pos {
                    assert(ids@[a] == ids0[a]);
                } else {
                    assert(ids@[a + 1] == ids0[a]);
                }
            } else {
                assert(ids@[pos as int] == id);
            }
        }
        // the new id differs from every earlier one, as connection ids are unique
        assert forall|a: int| 0 <= a < ids0.len() implies ids0[a] != id by {
            let q = choose|q: int| 0 <= q < k && ids0[a] == p.connections@[q].connection_id;
            assert(p.connections@[q].connection_id != p.connections@[k as int].connection_id);
        }
        assert forall|a: int, b: int| 0 <= a < b < k + 1 implies ids@[a] != ids@[b] by {
            let x = if a < pos { a } else if a > pos { a - 1 } else { -1 };
            let y = if b < pos { b } else if b > pos { b - 1 } else { -1 };
            if x >= 0 {
                assert(ids@[a] == ids0[x]);
            }
            if y >= 0 {
                assert(ids@[b] == ids0[y]);
            }
        }
        assert forall|a: int| 0 <= a < k + 1 implies #[trigger] straight@[a] <= 0x4000_0000_0000_0000 by {
            if a < pos {
                assert(straight@[a] == s0[a]);
            } else if a > pos {
                assert(straight@[a] == s0[a - 1]);
            }
        }
        assert forall|a: int| 0 <= a < k + 1 implies #[trigger] diagonal@[a] <= 0x4000_0000_0000_0000 by {
            if a < pos {
                assert(diagonal@[a] == d0[a]);
            } else if a > pos {
                assert(diagonal@[a] == d0[a - 1]);
            }
        }
        k = k + 1;
    }
    assert forall|a: int| 0 <= a < ids@.len() implies is_connection_id(*p, #[trigger] ids@[a]) by {
        let q = choose|q: int| 0 <= q < k && ids@[a] == p.connections@[q].connection_id;
    }
    let mut lens: Vec<PathLength> = Vec::new();
    let mut a: usize = 0;
    while a < ids.len()
        invariant
            a <= ids@.len(),
            ids@.len() == straight@.len() && ids@.len() == diagonal@.len(),
            lens@.len() == a,
            forall|q: int|
                0 <= q < a ==> (#[trigger] lens@[q]).straight == straight@[q] && lens@[q].diagonal == diagonal@[q],
            forall|q: int|
                0 <= q < ids@.len() - 1 ==> !cost_lt(
                    straight@[q + 1] as int,
                    diagonal@[q + 1] as int,
                    #[trigger] straight@[q] as int,
                    diagonal@[q] as int,
                ),
            tr.len() == ids@.len(),
            forall|q: int|
                0 <= q < ids@.len() ==> trace_fits(*p, *cfg, #[trigger] tr[q]) && tr[q].connection_id == ids@[q]
                    && tr[q].trace_path.total_length.straight == straight@[q]
                    && tr[q].trace_path.total_length.diagonal == diagonal@[q],
        decreases ids@.len() - a,
    {
        lens.push(PathLength { straight: straight[a], diagonal: diagonal[a] });
        a = a + 1;
    }
    assert forall|q: int| 0 <= q < lens@.len() - 1 implies !cost_lt(
        lens@[q + 1].straight as int,
        lens@[q + 1].diagonal as int,
        (#[trigger] lens@[q]).straight as int,
        lens@[q].diagonal as int,
    ) by {
        assert(lens@[q + 1].straight == straight@[q + 1]);
        assert(lens@[q].straight == straight@[q]);
    }
    assert forall|q: int| 0 <= q < lens@.len() implies #[trigger] fitting_length(*p, *cfg, ids@[q], lens@[q]) by {
        assert(trace_fits(*p, *cfg, tr[q]));
        assert(tr[q].trace_path.total_length == lens@[q]);
    }
    Ok((ids, lens))
}

/// Routes every connection of `problem`. Connections are taken in the order
/// of `heuristics`, or else shortest pre-pass route first, and committed one
/// by one against the pads of other nets and the traces already fixed for
/// other nets (through the two oracles, see `route_connection`), with
/// backtracking where a connection cannot be routed. A solution holds one
/// trace for each connection, joining its pads on their layers on the board.
#[verifier::rlimit(100)]
pub fn naive_backtrack<F, G>(
    problem: &PcbProblem,
    config: &SolverConfig,
    heuristics: Option<Vec<ConnectionID>>,
    check_collision: &F,
    check_via: &G,
) -> (r: Result<PcbSolution, SolveError>)
    where
        F: Fn(&Vec<FixedTrace>, &NetName, FixedVec2, FixedVec2, u64, u64, usize) -> bool,
        G: Fn(&Vec<FixedTrace>, &NetName, FixedVec2, u64, u64, usize, usize) -> bool,
    requires
        problem.wf(),
        forall|f: &Vec<FixedTrace>, n: &NetName, a: FixedVec2, b: FixedVec2, w: u64, c: u64, l: usize| #[trigger]
            check_collision.requires((f, n, a, b, w, c, l)),
        forall|f: &Vec<FixedTrace>, n: &NetName, a: FixedVec2, d: u64, c: u64, lo: usize, hi: usize| #[trigger]
            check_via.requires((f, n, a, d, c, lo, hi)),
    ensures
        r matches Ok(sol) ==> solution_ok(*problem, *config, sol.determined_traces@),
        // every trace was reported free by both checks, asked with the
        // traces before it as the fixed ones: other nets' pads are avoided as
        // far as the checks see them
        r matches Ok(sol) ==> forall|t: int|
            0 <= t < sol.determined_traces@.len() ==> #[trigger] routed_against(
                *problem,
                *config,
                sol.determined_traces@,
                t,
                *check_collision,
                *check_via,
            ),
        (r == Err::<PcbSolution, SolveError>(SolveError::InvalidInput)) <==> (!problem_ok(*problem, *config) || (
        heuristics matches Some(h) && !order_ok(*problem, h@))),
        // an empty problem is solved
        problem_ok(*problem, *config) && problem.connections@.len() == 0 && (heuristics matches Some(h) ==> h@.len()
            == 0) ==> r is Ok,
        // one net whose every connection has its direct route, with nothing
        // ever reported in the way and attempts for every connection: solved
        problem_ok(*problem, *config) && single_net(*problem) && all_direct(*problem, *config)
            && never_reports_segments(*check_collision) && (heuristics matches Some(h) ==> order_ok(*problem, h@)
            && config.max_routing_attempts >= h@.len()) && (heuristics is None ==> config.max_routing_attempts
            >= problem.connections@.len()) ==> r is Ok,
        // and each of its traces has the octile length between its pads
        single_net(*problem) && all_direct(*problem, *config) && never_reports_segments(*check_collision) ==> (
        r matches Ok(sol) ==> forall|t: int|
            0 <= t < sol.determined_traces@.len() ==> octile_fit(
                *problem,
                *config,
                #[trigger] sol.determined_traces@[t],
            )),
{
    if !problem_is_ok(problem, config) {
        return Err(SolveError::InvalidInput);
    }
    let order = match heuristics {
        Some(h) => h,
        None => match order_by_length(problem, config, check_collision, check_via) {
            Ok((o, _lengths)) => o,
            Err(e) => {
                return Err(e);
            },
        },
    };
    if !order_is_valid(problem, &order) {
        return Err(SolveError::InvalidInput);
    }
    let mut fixed: Vec<FixedTrace> = Vec::new();
    assert(fixed@.len() == 0);
    let mut attempts = config.max_routing_attempts;
    match solve_remaining(problem, config, &order, &mut fixed, &mut attempts, check_collision, check_via) {
        Ok(true) => {
            proof {
                let f = fixed@;
                assert(extends_by(*problem, *config, Seq::<FixedTrace>::empty(), f, order@));
                assert forall|t: int| 0 <= t < f.len() implies trace_fits(*problem, *config, #[trigger] f[t]) by {}
                assert forall|a: int, b: int| 0 <= a < b < f.len() implies (#[trigger] f[a]).connection_id != (
                #[trigger] f[b]).connection_id by {}
                assert forall|k: int| 0 <= k < problem.connections@.len() implies exists|t: int|
                    0 <= t < f.len() && (#[trigger] f[t]).connection_id == (
                    #[trigger] problem.connections@[k]).connection_id by {
                    let id = problem.connections@[k].connection_id;
                    assert(order@.contains(id));
                    let a = choose|a: int| 0 <= a < order@.len() && order@[a] == id;
                    assert(exists|t: int| 0 <= t < f.len() && (#[trigger] f[t]).connection_id == #[trigger] order@[a]);
                    let t = choose|t: int| 0 <= t < f.len() && (#[trigger] f[t]).connection_id == order@[a];
                    assert(f[t].connection_id == problem.connections@[k].connection_id);
                }
            }
            assert(solution_ok(*problem, *config, fixed@));
            let sol = PcbSolution { determined_traces: fixed };
            Ok(sol)
        },
        Ok(false) => Err(SolveError::NoSolution),
        Err(e) => Err(e),
    }
}

/// Containment: in a complete solution every anchor and every via of every
/// trace lies on the board.
pub proof fn solution_stays_on_board(p: PcbProblem, cfg: SolverConfig, traces: Seq<FixedTrace>)
    requires
        solution_ok(p, cfg, traces),
    ensures
        forall|t: int, j: int|
            0 <= t < traces.len() && 0 <= j < traces[t].trace_path.anchors.0@.len() ==> 2 * crate::vec2::abs(
                (#[trigger] traces[t].trace_path.anchors.0@[j]).position.x - p.center.x,
            ) <= p.width && 2 * crate::vec2::abs(traces[t].trace_path.anchors.0@[j].position.y - p.center.y)
                <= p.height,
        forall|t: int, j: int|
            0 <= t < traces.len() && 0 <= j < traces[t].trace_path.vias@.len() ==> 2 * crate::vec2::abs(
                (#[trigger] traces[t].trace_path.vias@[j]).position.x - p.center.x,
            ) <= p.width && 2 * crate::vec2::abs(traces[t].trace_path.vias@[j].position.y - p.center.y)
                <= p.height,
{
    assert forall|t: int, j: int|
        0 <= t < traces.len() && 0 <= j < traces[t].trace_path.anchors.0@.len() implies 2 * crate::vec2::abs(
            (#[trigger] traces[t].trace_path.anchors.0@[j]).position.x - p.center.x,
        ) <= p.width && 2 * crate::vec2::abs(traces[t].trace_path.anchors.0@[j].position.y - p.center.y)
            <= p.height by {
        assert(trace_fits(p, cfg, traces[t]));
        let (k, i) = choose|k: int, i: int|
            #[trigger] net_of(p, k, i) && p.connections@[k].connection_id == traces[t].connection_id
                && traces[t].net_name.0@ == p.connections@[k].net_name.0@ && route_ok(
                traces[t].trace_path,
                connection_model(p, cfg, k, i),
            );
        assert(crate::astar::in_board(traces[t].trace_path.anchors.0@[j].position, connection_model(p, cfg, k, i)));
    }
    assert forall|t: int, j: int|
        0 <= t < traces.len() && 0 <= j < traces[t].trace_path.vias@.len() implies 2 * crate::vec2::abs(
            (#[trigger] traces[t].trace_path.vias@[j]).position.x - p.center.x,
        ) <= p.width && 2 * crate::vec2::abs(traces[t].trace_path.vias@[j].position.y - p.center.y)
            <= p.height by {
        assert(trace_fits(p, cfg, traces[t]));
        let (k, i) = choose|k: int, i: int|
            #[trigger] net_of(p, k, i) && p.connections@[k].connection_id == traces[t].connection_id
                && traces[t].net_name.0@ == p.connections@[k].net_name.0@ && route_ok(
                traces[t].trace_path,
                connection_model(p, cfg, k, i),
            );
        let m = connection_model(p, cfg, k, i);
        let path = traces[t].trace_path;
        let a = path.anchors.0@;
        crate::trace_path::lemma_vias_at_anchors(a, m.via_diameter, m.trace_clearance);
        assert(path.vias@ == crate::trace_path::vias_of(a, m.via_diameter, m.trace_clearance));
        let q = choose|q: int|
            0 <= q < a.len() && (#[trigger] crate::trace_path::vias_of(a, m.via_diameter, m.trace_clearance)[j]).position
                == (#[trigger] a[q]).position && a[q].start_layer != a[q].end_layer;
        assert(crate::astar::in_board(a[q].position, m));
    }
}

/// Connectivity: in a complete solution each connection has a trace whose
/// first anchor is at its net's source pad, on a layer of that pad, and whose
/// last anchor is at its sink pad, on a layer of that pad.
pub proof fn solution_connects_pads(p: PcbProblem, cfg: SolverConfig, traces: Seq<FixedTrace>, k: int, i: int)
    requires
        p.wf(),
        solution_ok(p, cfg, traces),
        net_of(p, k, i),
    ensures
        exists|t: int|
            0 <= t < traces.len() && (#[trigger] traces[t]).connection_id == p.connections@[k].connection_id && {
                let a = traces[t].trace_path.anchors.0@;
                &&& a[0].position == p.nets@[i].source.position
                &&& crate::astar::on_layer(p.nets@[i].source.pad_layer, a[0].start_layer as int, p.num_layers as int)
                &&& a.last().position == p.connections@[k].sink.position
                &&& crate::astar::on_layer(p.connections@[k].sink.pad_layer, a.last().end_layer as int, p.num_layers as int)
            },
{
    let t = choose|t: int|
        0 <= t < traces.len() && (#[trigger] traces[t]).connection_id == (
        #[trigger] p.connections@[k]).connection_id;
    assert(trace_fits(p, cfg, traces[t]));
    let (k2, i2) = choose|k2: int, i2: int|
        #[trigger] net_of(p, k2, i2) && p.connections@[k2].connection_id == traces[t].connection_id
            && traces[t].net_name.0@ == p.connections@[k2].net_name.0@ && route_ok(
            traces[t].trace_path,
            connection_model(p, cfg, k2, i2),
        );
    // connection ids are unique, and so are net names
    if k2 != k {
        if k2 < k {
            assert(p.connections@[k2].connection_id != p.connections@[k].connection_id);
        } else {
            assert(p.connections@[k].connection_id != p.connections@[k2].connection_id);
        }
    }
    if i2 != i {
        if i2 < i {
            assert(p.nets@[i2].net_name.0@ != p.nets@[i].net_name.0@);
        } else {
            assert(p.nets@[i].net_name.0@ != p.nets@[i2].net_name.0@);
        }
    }
}

} // verus!
