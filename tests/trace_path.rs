use pcb_router::proba_model::{collision_edges, is_novel_path, neighbours, ProbaTraceID};
use pcb_router::post_process::optimize_path;
use pcb_router::trace_path::{anchor_to_tracepath, anchors_length_of, PathLength, TraceAnchor};
use pcb_router::vec2::FixedVec2;

fn anchor(x: i64, y: i64, start_layer: usize, end_layer: usize) -> TraceAnchor {
    TraceAnchor { position: FixedVec2::new(x, y), start_layer, end_layer }
}

fn flat(points: &[(i64, i64)]) -> Vec<TraceAnchor> {
    points.iter().map(|&(x, y)| anchor(x, y, 0, 0)).collect()
}

fn positions(a: &[TraceAnchor]) -> Vec<(i64, i64)> {
    a.iter().map(|t| (t.position.x, t.position.y)).collect()
}

fn real_length(l: PathLength) -> f64 {
    l.straight as f64 + l.diagonal as f64 * std::f64::consts::SQRT_2
}

#[test]
fn segments_and_vias_follow_anchors() {
    let anchors = vec![anchor(0, 0, 0, 0), anchor(4, 0, 0, 1), anchor(4, 4, 1, 1), anchor(6, 6, 1, 0)];
    let path = anchor_to_tracepath(anchors.clone(), 3, 2, 6);
    assert_eq!(path.segments.len(), 3);
    for i in 0..3 {
        let s = path.segments[i];
        assert_eq!(s.start, anchors[i].position);
        assert_eq!(s.end, anchors[i + 1].position);
        assert_eq!(s.layer, anchors[i].end_layer);
        assert_eq!(s.layer, anchors[i + 1].start_layer);
        assert_eq!(s.width, 3);
        assert_eq!(s.clearance, 2);
    }
    assert_eq!(path.vias.len(), 2);
    assert_eq!(path.vias[0].position, FixedVec2::new(4, 0));
    assert_eq!((path.vias[0].min_layer, path.vias[0].max_layer), (0, 1));
    assert_eq!(path.vias[1].position, FixedVec2::new(6, 6));
    assert_eq!(path.vias[0].diameter, 6);
    assert_eq!(path.total_length, PathLength { straight: 8, diagonal: 2 });
}

#[test]
fn single_anchor_paths() {
    let path = anchor_to_tracepath(vec![anchor(2, 2, 0, 0)], 1, 1, 1);
    assert!(path.segments.is_empty());
    assert!(path.vias.is_empty());
    assert_eq!(path.total_length, PathLength { straight: 0, diagonal: 0 });
    let via_only = anchor_to_tracepath(vec![anchor(2, 2, 0, 1)], 1, 1, 1);
    assert!(via_only.segments.is_empty());
    assert_eq!(via_only.vias.len(), 1);
}

#[test]
fn polyline_length() {
    let a = flat(&[(0, 0), (3, 0), (5, 2), (5, -4)]);
    assert_eq!(anchors_length_of(&a), PathLength { straight: 9, diagonal: 2 });
}

#[test]
fn collinear_anchors_collapse() {
    let input = anchor_to_tracepath(flat(&[(0, 0), (1, 0), (2, 0), (3, 0)]), 1, 1, 1);
    let out = optimize_path(&input, &|_, _, _, _, _| false, 1, 1, 1);
    assert_eq!(positions(&out.anchors.0), vec![(0, 0), (3, 0)]);
    assert_eq!(out.total_length, PathLength { straight: 3, diagonal: 0 });
    assert!((real_length(out.total_length) - 3.0).abs() < 1e-9);
}

#[test]
fn right_angle_is_relaxed() {
    let input = anchor_to_tracepath(flat(&[(0, 0), (2, 0), (2, 2)]), 1, 1, 1);
    let out = optimize_path(&input, &|_, _, _, _, _| false, 1, 1, 1);
    assert_eq!(positions(&out.anchors.0), vec![(0, 0), (1, 0), (2, 1), (2, 2)]);
    assert_eq!(out.total_length, PathLength { straight: 2, diagonal: 1 });
    assert!((real_length(out.total_length) - (2.0 + std::f64::consts::SQRT_2)).abs() < 1e-9);
}

#[test]
fn blocked_relaxation_keeps_the_corner() {
    let input = anchor_to_tracepath(flat(&[(0, 0), (2, 0), (2, 2)]), 1, 1, 1);
    let out = optimize_path(&input, &|_, _, _, _, _| true, 1, 1, 1);
    assert_eq!(positions(&out.anchors.0), vec![(0, 0), (2, 0), (2, 2)]);
}

#[test]
fn parallel_jog_is_shifted() {
    // right, up, right with diagonal cuts blocked: the jog moves to the start
    let input = anchor_to_tracepath(flat(&[(0, 0), (4, 0), (4, 2), (10, 2), (10, 8)]), 1, 1, 1);
    let no_diagonals = |p: FixedVec2, q: FixedVec2, _w: u64, _c: u64, _l: usize| p.x != q.x && p.y != q.y;
    let out = optimize_path(&input, &no_diagonals, 1, 1, 1);
    assert_eq!(positions(&out.anchors.0), vec![(0, 0), (10, 0), (10, 8)]);
    assert_eq!(out.total_length, input.total_length);
}

#[test]
fn jog_with_free_diagonals_gets_shorter() {
    let input = anchor_to_tracepath(flat(&[(0, 0), (4, 0), (4, 2), (10, 2), (10, 8)]), 1, 1, 1);
    let out = optimize_path(&input, &|_, _, _, _, _| false, 1, 1, 1);
    assert!(real_length(out.total_length) < real_length(input.total_length));
    assert_eq!(out.anchors.0[0].position, FixedVec2::new(0, 0));
    assert_eq!(out.anchors.0.last().unwrap().position, FixedVec2::new(10, 8));
}

#[test]
fn optimizing_never_lengthens() {
    let paths = [
        flat(&[(0, 0), (6, 0), (6, 6), (12, 6), (12, 0)]),
        flat(&[(0, 0), (0, 10), (4, 14), (20, 14), (20, 0)]),
        flat(&[(0, 0), (8, 8), (8, 0), (16, 0)]),
    ];
    for p in paths.iter() {
        let input = anchor_to_tracepath(p.clone(), 1, 1, 1);
        let out = optimize_path(&input, &|_, _, _, _, _| false, 1, 1, 1);
        assert!(real_length(out.total_length) <= real_length(input.total_length) + 1e-9);
        assert_eq!(out.anchors.0[0], p[0]);
        assert_eq!(out.anchors.0.last(), p.last());
    }
}

#[test]
fn optimizing_twice_changes_nothing_more() {
    let paths = [
        flat(&[(0, 0), (6, 0), (6, 6), (12, 6), (12, 0)]),
        flat(&[(0, 0), (2, 0), (2, 2)]),
        flat(&[(0, 0), (1, 0), (2, 0), (3, 0)]),
        flat(&[(0, 0), (0, 10), (4, 14), (20, 14), (20, 0)]),
    ];
    for p in paths.iter() {
        let once = optimize_path(&anchor_to_tracepath(p.clone(), 1, 1, 1), &|_, _, _, _, _| false, 1, 1, 1);
        let twice = optimize_path(&once, &|_, _, _, _, _| false, 1, 1, 1);
        assert_eq!(once.anchors.0, twice.anchors.0);
        assert_eq!(once.total_length, twice.total_length);
    }
}

#[test]
fn vias_survive_optimization() {
    let input = anchor_to_tracepath(
        vec![anchor(0, 0, 0, 0), anchor(4, 0, 0, 1), anchor(8, 0, 1, 1), anchor(12, 0, 1, 1)],
        1,
        1,
        2,
    );
    let out = optimize_path(&input, &|_, _, _, _, _| false, 1, 1, 2);
    assert_eq!(out.vias.len(), 1);
    assert_eq!(out.vias[0].position, FixedVec2::new(4, 0));
    assert_eq!(positions(&out.anchors.0), vec![(0, 0), (4, 0), (12, 0)]);
}

#[test]
fn novel_paths_and_collision_graph() {
    let a = flat(&[(0, 0), (2, 0)]);
    let b = flat(&[(0, 0), (2, 2)]);
    let visited = vec![a.clone()];
    assert!(!is_novel_path(&visited, &a));
    assert!(is_novel_path(&visited, &b));
    assert!(is_novel_path(&Vec::new(), &a));
    // candidates 0..4: 0 collides with 2, 1 with 3
    let edges = collision_edges(4, &|i: usize, j: usize| (i, j) == (0, 2) || (i, j) == (1, 3));
    assert_eq!(edges, vec![(0, 2), (1, 3)]);
    assert_eq!(neighbours(&edges, 2), vec![0]);
    assert_eq!(neighbours(&edges, 3), vec![1]);
    assert!(neighbours(&edges, 0).contains(&2));
    assert_eq!(ProbaTraceID(3), ProbaTraceID(3));
}

#[test]
fn collinear_runs_merge_whatever_is_reported() {
    // every segment longer than one step is reported in the way
    let short_only = |p: FixedVec2, q: FixedVec2, _w: u64, _c: u64, _l: usize| (p.x - q.x).abs() > 1 || (p.y - q.y).abs() > 1;
    let input = anchor_to_tracepath(flat(&[(0, 0), (1, 0), (2, 0), (3, 0)]), 1, 1, 1);
    let out = optimize_path(&input, &short_only, 1, 1, 1);
    assert_eq!(positions(&out.anchors.0), vec![(0, 0), (3, 0)]);
    assert_eq!(out.total_length, PathLength { straight: 3, diagonal: 0 });
    assert!(out.vias.is_empty());
}

#[test]
fn everything_reported_only_merges() {
    let always = |_p: FixedVec2, _q: FixedVec2, _w: u64, _c: u64, _l: usize| true;
    let corner = anchor_to_tracepath(flat(&[(0, 0), (2, 0), (2, 2)]), 1, 1, 1);
    let out = optimize_path(&corner, &always, 1, 1, 1);
    assert_eq!(positions(&out.anchors.0), vec![(0, 0), (2, 0), (2, 2)]);
    assert_eq!(out.total_length, PathLength { straight: 4, diagonal: 0 });
    let run = anchor_to_tracepath(flat(&[(0, 0), (1, 0), (2, 0), (2, 1), (2, 2)]), 1, 1, 1);
    let out = optimize_path(&run, &always, 1, 1, 1);
    assert_eq!(positions(&out.anchors.0), vec![(0, 0), (2, 0), (2, 2)]);
}
