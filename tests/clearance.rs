use pcb_router::clearance::{paths_clear_exec, point_close_exec, segments_clear_exec};
use pcb_router::trace_path::{anchor_to_tracepath, TraceAnchor, TraceSegment};
use pcb_router::vec2::FixedVec2;

fn seg(a: (i64, i64), b: (i64, i64), layer: usize) -> TraceSegment {
    TraceSegment { start: FixedVec2::new(a.0, a.1), end: FixedVec2::new(b.0, b.1), width: 2, clearance: 1, layer }
}

fn flat(points: &[(i64, i64)], layer: usize) -> Vec<TraceAnchor> {
    points.iter().map(|&(x, y)| TraceAnchor { position: FixedVec2::new(x, y), start_layer: layer, end_layer: layer }).collect()
}

#[test]
fn parallel_segments_need_their_gap() {
    // half widths 1 + 1 and clearance 1: closer than 3 collides
    assert!(segments_clear_exec(&seg((0, 0), (10, 0), 0), &seg((0, 4), (10, 4), 0)));
    assert!(segments_clear_exec(&seg((0, 0), (10, 0), 0), &seg((0, 3), (10, 3), 0)));
    assert!(!segments_clear_exec(&seg((0, 0), (10, 0), 0), &seg((0, 2), (10, 2), 0)));
}

#[test]
fn crossing_segments_collide_on_one_layer_only() {
    assert!(!segments_clear_exec(&seg((0, 0), (10, 10), 0), &seg((0, 10), (10, 0), 0)));
    assert!(segments_clear_exec(&seg((0, 0), (10, 10), 0), &seg((0, 10), (10, 0), 1)));
}

#[test]
fn point_to_segment_distance() {
    let a = FixedVec2::new(0, 0);
    let b = FixedVec2::new(10, 0);
    // distance 3 from the middle of the segment
    assert!(point_close_exec(FixedVec2::new(5, 3), a, b, 7));
    assert!(!point_close_exec(FixedVec2::new(5, 3), a, b, 6));
    // beyond the end the distance is to the end point: 5 from (13, 4)
    assert!(!point_close_exec(FixedVec2::new(13, 4), a, b, 10));
    assert!(point_close_exec(FixedVec2::new(13, 4), a, b, 11));
}

#[test]
fn paths_with_vias_keep_clearance() {
    let a = anchor_to_tracepath(flat(&[(0, 0), (20, 0)], 0), 2, 1, 6);
    let far = anchor_to_tracepath(flat(&[(0, 10), (20, 10)], 0), 2, 1, 6);
    let near = anchor_to_tracepath(flat(&[(0, 2), (20, 2)], 0), 2, 1, 6);
    let other_layer = anchor_to_tracepath(flat(&[(0, 2), (20, 2)], 1), 2, 1, 6);
    assert!(paths_clear_exec(&a, &far));
    assert!(!paths_clear_exec(&a, &near));
    assert!(paths_clear_exec(&a, &other_layer));
    // a via through both layers next to the layer-1 trace
    let with_via = anchor_to_tracepath(
        vec![
            TraceAnchor { position: FixedVec2::new(10, 6), start_layer: 0, end_layer: 1 },
            TraceAnchor { position: FixedVec2::new(10, 20), start_layer: 1, end_layer: 1 },
        ],
        2,
        1,
        6,
    );
    assert!(!paths_clear_exec(&with_via, &other_layer));
    assert!(!paths_clear_exec(&other_layer, &with_via));
}
