use pcb_router::astar::PadLayer;
use pcb_router::naive_backtrack_algo::{naive_backtrack, SolveError, SolverConfig};
use pcb_router::proba_model::sample_connection;
use pcb_router::pcb_problem::{ConnectionID, FixedTrace, NetName, Pad, PadName, PadShape, PcbProblem, PcbSolution};
use pcb_router::vec2::FixedVec2;

struct Obstacles {
    // net, centre, radius, layer set
    pads: Vec<(String, f64, f64, f64, PadLayer)>,
    // x_min, y_min, x_max, y_max on every layer
    rects: Vec<(f64, f64, f64, f64)>,
    num_layers: usize,
}

fn point_segment(px: f64, py: f64, ax: f64, ay: f64, bx: f64, by: f64) -> f64 {
    let (dx, dy) = (bx - ax, by - ay);
    let len2 = dx * dx + dy * dy;
    let t = if len2 == 0.0 { 0.0 } else { (((px - ax) * dx + (py - ay) * dy) / len2).clamp(0.0, 1.0) };
    let (cx, cy) = (ax + t * dx, ay + t * dy);
    ((px - cx).powi(2) + (py - cy).powi(2)).sqrt()
}

fn cross(ax: f64, ay: f64, bx: f64, by: f64, cx: f64, cy: f64) -> f64 {
    (bx - ax) * (cy - ay) - (by - ay) * (cx - ax)
}

fn segments_cross(a: (f64, f64), b: (f64, f64), c: (f64, f64), d: (f64, f64)) -> bool {
    let d1 = cross(c.0, c.1, d.0, d.1, a.0, a.1);
    let d2 = cross(c.0, c.1, d.0, d.1, b.0, b.1);
    let d3 = cross(a.0, a.1, b.0, b.1, c.0, c.1);
    let d4 = cross(a.0, a.1, b.0, b.1, d.0, d.1);
    ((d1 > 0.0 && d2 < 0.0) || (d1 < 0.0 && d2 > 0.0)) && ((d3 > 0.0 && d4 < 0.0) || (d3 < 0.0 && d4 > 0.0))
}

fn segment_segment(a: (f64, f64), b: (f64, f64), c: (f64, f64), d: (f64, f64)) -> f64 {
    if segments_cross(a, b, c, d) {
        return 0.0;
    }
    point_segment(a.0, a.1, c.0, c.1, d.0, d.1)
        .min(point_segment(b.0, b.1, c.0, c.1, d.0, d.1))
        .min(point_segment(c.0, c.1, a.0, a.1, b.0, b.1))
        .min(point_segment(d.0, d.1, a.0, a.1, b.0, b.1))
}

fn segment_rect(a: (f64, f64), b: (f64, f64), r: (f64, f64, f64, f64)) -> f64 {
    let inside = |p: (f64, f64)| p.0 >= r.0 && p.0 <= r.2 && p.1 >= r.1 && p.1 <= r.3;
    if inside(a) || inside(b) {
        return 0.0;
    }
    let corners = [(r.0, r.1), (r.2, r.1), (r.2, r.3), (r.0, r.3)];
    let mut best = f64::MAX;
    for k in 0..4 {
        best = best.min(segment_segment(a, b, corners[k], corners[(k + 1) % 4]));
    }
    best
}

fn f(p: FixedVec2) -> (f64, f64) {
    (p.x as f64, p.y as f64)
}

impl Obstacles {
    fn segment_hits(&self, fixed: &Vec<FixedTrace>, net: &NetName, p: FixedVec2, q: FixedVec2, w: u64, c: u64, layer: usize) -> bool {
        let half = w as f64 / 2.0;
        let c = c as f64;
        for (name, x, y, r, pl) in self.pads.iter() {
            if *name != net.0 && pl.contains(layer, self.num_layers) {
                if point_segment(*x, *y, f(p).0, f(p).1, f(q).0, f(q).1) < half + c + r {
                    return true;
                }
            }
        }
        for r in self.rects.iter() {
            if segment_rect(f(p), f(q), *r) < half + c {
                return true;
            }
        }
        for t in fixed.iter() {
            if t.net_name.0 == net.0 {
                continue;
            }
            for s in t.trace_path.segments.iter() {
                if s.layer == layer {
                    let gap = half + s.width as f64 / 2.0 + c.max(s.clearance as f64);
                    if segment_segment(f(p), f(q), f(s.start), f(s.end)) < gap {
                        return true;
                    }
                }
            }
            for v in t.trace_path.vias.iter() {
                if v.min_layer <= layer && layer <= v.max_layer {
                    let gap = half + v.diameter as f64 / 2.0 + c.max(v.clearance as f64);
                    if point_segment(f(v.position).0, f(v.position).1, f(p).0, f(p).1, f(q).0, f(q).1) < gap {
                        return true;
                    }
                }
            }
        }
        false
    }

    fn via_hits(&self, fixed: &Vec<FixedTrace>, net: &NetName, p: FixedVec2, d: u64, c: u64, lo: usize, hi: usize) -> bool {
        for layer in lo..=hi {
            if self.segment_hits(fixed, net, p, p, d, c, layer) {
                return true;
            }
        }
        false
    }
}

fn pad(name: &str, x: i64, y: i64, diameter: u64, layer: PadLayer) -> Pad {
    Pad {
        name: PadName(name.to_string()),
        position: FixedVec2::new(x, y),
        shape: PadShape::Circle { diameter },
        rotation: 0,
        clearance: 1,
        pad_layer: layer,
    }
}

fn config() -> SolverConfig {
    SolverConfig { astar_stride: 2, via_penalty: 10, layer_penalty: 0, max_astar_nodes: 400_000, max_routing_attempts: 500 }
}

/// Adds a net with one connection between two round pads.
fn add_pair(p: &mut PcbProblem, obs: &mut Obstacles, net: &str, a: (i64, i64), b: (i64, i64), d: u64, layer: PadLayer, w: u64, c: u64, via: u64) -> ConnectionID {
    assert!(p.add_net(NetName(net.to_string()), pad(&format!("{}-a", net), a.0, a.1, d, layer), w, c, via));
    let id = p.add_connection(NetName(net.to_string()), pad(&format!("{}-b", net), b.0, b.1, d, layer), w, c).unwrap();
    for &(x, y) in [a, b].iter() {
        obs.pads.push((net.to_string(), x as f64, y as f64, d as f64 / 2.0, layer));
    }
    id
}

fn solve(p: &PcbProblem, obs: &Obstacles, cfg: &SolverConfig, order: Option<Vec<ConnectionID>>) -> Result<PcbSolution, SolveError> {
    naive_backtrack(
        p,
        cfg,
        order,
        &|fixed: &Vec<FixedTrace>, net: &NetName, a: FixedVec2, b: FixedVec2, w: u64, c: u64, l: usize| {
            obs.segment_hits(fixed, net, a, b, w, c, l)
        },
        &|fixed: &Vec<FixedTrace>, net: &NetName, a: FixedVec2, d: u64, c: u64, lo: usize, hi: usize| {
            obs.via_hits(fixed, net, a, d, c, lo, hi)
        },
    )
}

fn trace_of(sol: &PcbSolution, id: ConnectionID) -> &FixedTrace {
    sol.determined_traces.iter().find(|t| t.connection_id == id).unwrap()
}

fn cross_problem() -> (PcbProblem, Obstacles, ConnectionID, ConnectionID) {
    // grid unit 0.1 mm: board 20 x 20 mm, width 0.2, clearance 0.1, via 0.6
    let mut p = PcbProblem::new(200, 200, FixedVec2::new(0, 0), 2);
    let mut obs = Obstacles { pads: Vec::new(), rects: Vec::new(), num_layers: 2 };
    let a = add_pair(&mut p, &mut obs, "A", (-50, 0), (50, 0), 10, PadLayer::Front, 2, 1, 6);
    // net B runs from a front pad to a back pad
    assert!(p.add_net(NetName("B".to_string()), pad("B-a", 0, -50, 10, PadLayer::Front), 2, 1, 6));
    let b = p.add_connection(NetName("B".to_string()), pad("B-b", 0, 50, 10, PadLayer::Back), 2, 1).unwrap();
    obs.pads.push(("B".to_string(), 0.0, -50.0, 5.0, PadLayer::Front));
    obs.pads.push(("B".to_string(), 0.0, 50.0, 5.0, PadLayer::Back));
    (p, obs, a, b)
}

fn check_no_clearance_violation(sol: &PcbSolution, obs: &Obstacles) {
    let empty: Vec<FixedTrace> = Vec::new();
    for t in sol.determined_traces.iter() {
        let others: Vec<FixedTrace> = sol.determined_traces.iter().filter(|o| o.net_name.0 != t.net_name.0).cloned().collect();
        for s in t.trace_path.segments.iter() {
            assert!(!obs.segment_hits(&others, &t.net_name, s.start, s.end, s.width, s.clearance, s.layer));
            assert!(!obs.segment_hits(&empty, &t.net_name, s.start, s.end, s.width, s.clearance, s.layer));
        }
    }
}

#[test]
fn two_net_cross_routes_both_with_a_via() {
    let (p, obs, a, b) = cross_problem();
    let sol = solve(&p, &obs, &config(), None).unwrap();
    assert_eq!(sol.determined_traces.len(), 2);
    let ta = trace_of(&sol, a);
    let tb = trace_of(&sol, b);
    assert_eq!(ta.trace_path.anchors.0[0].position, FixedVec2::new(-50, 0));
    assert_eq!(ta.trace_path.anchors.0.last().unwrap().position, FixedVec2::new(50, 0));
    assert_eq!(tb.trace_path.anchors.0[0].position, FixedVec2::new(0, -50));
    assert_eq!(tb.trace_path.anchors.0.last().unwrap().position, FixedVec2::new(0, 50));
    assert_eq!(ta.trace_path.vias.len() + tb.trace_path.vias.len(), 1);
    check_no_clearance_violation(&sol, &obs);
}

#[test]
fn solving_twice_gives_the_same_solution() {
    let (p, obs, _, _) = cross_problem();
    let s1 = solve(&p, &obs, &config(), None).unwrap();
    let s2 = solve(&p, &obs, &config(), None).unwrap();
    assert_eq!(s1.determined_traces.len(), s2.determined_traces.len());
    for (x, y) in s1.determined_traces.iter().zip(s2.determined_traces.iter()) {
        assert_eq!(x.connection_id, y.connection_id);
        assert_eq!(x.trace_path.anchors.0, y.trace_path.anchors.0);
        assert_eq!(x.trace_path.total_length, y.trace_path.total_length);
    }
}

fn grid_problem(num_layers: usize) -> (PcbProblem, Obstacles) {
    // grid unit 0.05 mm: pads 1 mm apart on a 4 x 4 grid, width 0.15, clearance 0.1
    let layer = if num_layers == 1 { PadLayer::Front } else { PadLayer::Through };
    let mut p = PcbProblem::new(80, 80, FixedVec2::new(0, 0), num_layers);
    let mut obs = Obstacles { pads: Vec::new(), rects: Vec::new(), num_layers };
    add_pair(&mut p, &mut obs, "H1", (-30, -10), (30, -10), 6, layer, 3, 2, 8);
    add_pair(&mut p, &mut obs, "H2", (-30, 10), (30, 10), 6, layer, 3, 2, 8);
    add_pair(&mut p, &mut obs, "V1", (-10, -30), (-10, 30), 6, layer, 3, 2, 8);
    add_pair(&mut p, &mut obs, "V2", (10, -30), (10, 30), 6, layer, 3, 2, 8);
    // the four corner pads of the grid, on a net of their own
    for &(x, y) in [(-30, -30), (30, -30), (-30, 30), (30, 30)].iter() {
        obs.pads.push(("corner".to_string(), x as f64, y as f64, 3.0, layer));
    }
    (p, obs)
}

#[test]
fn four_nets_need_two_layers() {
    let (p, obs) = grid_problem(1);
    let r = solve(&p, &obs, &config(), None);
    assert_eq!(r.as_ref().err(), Some(&SolveError::NoSolution));
    assert_eq!(r.err().unwrap().message(), "No solution found");
    let (two_layer, obs2) = grid_problem(2);
    let sol = solve(&two_layer, &obs2, &config(), None).unwrap();
    assert_eq!(sol.determined_traces.len(), 4);
    check_no_clearance_violation(&sol, &obs2);
}

#[test]
fn long_u_turn_goes_around_the_block() {
    // grid unit 0.1 mm: pads at -8 mm and 8 mm, a 4 x 12 mm block in between
    let mut p = PcbProblem::new(200, 200, FixedVec2::new(0, 0), 1);
    let mut obs = Obstacles { pads: Vec::new(), rects: Vec::new(), num_layers: 1 };
    let id = add_pair(&mut p, &mut obs, "U", (-80, 0), (80, 0), 10, PadLayer::Front, 2, 1, 6);
    // the block is an obstacle polygon of the problem
    let corners = vec![
        FixedVec2::new(-20, -60),
        FixedVec2::new(20, -60),
        FixedVec2::new(20, 60),
        FixedVec2::new(-20, 60),
    ];
    p.add_obstacle_polygon(&corners);
    assert_eq!(p.obstacle_lines.len(), 4);
    obs.rects.push((-20.0, -60.0, 20.0, 60.0));
    let sol = solve(&p, &obs, &config(), None).unwrap();
    let t = trace_of(&sol, id);
    let a = &t.trace_path.anchors.0;
    assert!(a.len() <= 6);
    assert!(a.iter().all(|x| x.position.y >= 0) || a.iter().all(|x| x.position.y <= 0));
    assert!(a.iter().any(|x| x.position.y.abs() > 60));
    check_no_clearance_violation(&sol, &obs);
}

#[test]
fn given_order_must_name_every_connection() {
    let (p, obs, a, _) = cross_problem();
    let r = solve(&p, &obs, &config(), Some(vec![a]));
    assert_eq!(r.err(), Some(SolveError::InvalidInput));
    let r = solve(&p, &obs, &config(), Some(vec![a, a]));
    assert_eq!(r.err(), Some(SolveError::InvalidInput));
}

#[test]
fn given_order_is_followed() {
    let (p, obs, a, b) = cross_problem();
    let sol = solve(&p, &obs, &config(), Some(vec![b, a])).unwrap();
    assert_eq!(sol.determined_traces[0].connection_id, b);
    assert_eq!(sol.determined_traces[1].connection_id, a);
}

#[test]
fn routing_budget_is_reported() {
    let (p, obs, a, b) = cross_problem();
    let mut cfg = config();
    cfg.max_routing_attempts = 1;
    let r = solve(&p, &obs, &cfg, Some(vec![a, b]));
    assert_eq!(r.err(), Some(SolveError::BudgetExceeded));
}

#[test]
fn pad_off_the_board_is_invalid() {
    let mut p = PcbProblem::new(20, 20, FixedVec2::new(0, 0), 1);
    let mut obs = Obstacles { pads: Vec::new(), rects: Vec::new(), num_layers: 1 };
    add_pair(&mut p, &mut obs, "N", (0, 0), (40, 0), 2, PadLayer::Front, 2, 1, 6);
    assert_eq!(solve(&p, &obs, &config(), None).err(), Some(SolveError::InvalidInput));
}

#[test]
fn empty_problem_has_empty_solution() {
    let p = PcbProblem::new(20, 20, FixedVec2::new(0, 0), 1);
    let obs = Obstacles { pads: Vec::new(), rects: Vec::new(), num_layers: 1 };
    let sol = solve(&p, &obs, &config(), None).unwrap();
    assert!(sol.determined_traces.is_empty());
}

#[test]
fn nets_and_connections_are_registered() {
    let mut p = PcbProblem::new(20, 20, FixedVec2::new(0, 0), 1);
    assert!(p.add_net(NetName("N".to_string()), pad("s", 0, 0, 2, PadLayer::Front), 1, 1, 1));
    assert!(!p.add_net(NetName("N".to_string()), pad("s2", 2, 0, 2, PadLayer::Front), 1, 1, 1));
    assert_eq!(p.nets.len(), 1);
    let c0 = p.add_connection(NetName("N".to_string()), pad("t", 4, 0, 2, PadLayer::Front), 1, 1);
    let c1 = p.add_connection(NetName("N".to_string()), pad("u", 6, 0, 2, PadLayer::Front), 1, 1);
    assert_eq!(c0, Some(ConnectionID(0)));
    assert_eq!(c1, Some(ConnectionID(1)));
    assert_eq!(p.add_connection(NetName("M".to_string()), pad("v", 6, 0, 2, PadLayer::Front), 1, 1), None);
    assert_eq!(p.connections.len(), 2);
    assert_eq!(p.find_net(&NetName("N".to_string())), Some(0));
}

#[test]
fn sampling_gives_new_candidates_only() {
    use_sampling();
}

fn use_sampling() {
    let (p, obs, _, _) = cross_problem();
    let cfg = config();
    let hit = |fixed: &Vec<FixedTrace>, net: &NetName, a: FixedVec2, b: FixedVec2, w: u64, c: u64, l: usize| {
        obs.segment_hits(fixed, net, a, b, w, c, l)
    };
    let via = |fixed: &Vec<FixedTrace>, net: &NetName, a: FixedVec2, d: u64, c: u64, lo: usize, hi: usize| {
        obs.via_hits(fixed, net, a, d, c, lo, hi)
    };
    let candidates: Vec<Vec<FixedTrace>> = vec![Vec::new(), Vec::new()];
    let (found, attempts) = sample_connection(&p, &cfg, 0, &Vec::new(), &candidates, &Vec::new(), 3, 5, &|_o: usize| None, &hit, &via);
    // with nothing drawn every attempt routes the same way: one new candidate
    assert_eq!(found.len(), 1);
    assert_eq!(attempts, 5);
    let visited = vec![found[0].trace_path.anchors.0.clone()];
    let (again, _) = sample_connection(&p, &cfg, 0, &Vec::new(), &candidates, &visited, 3, 2, &|_o: usize| None, &hit, &via);
    assert!(again.is_empty());
}
