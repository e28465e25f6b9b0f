use pcb_router::astar::{astar_route, AStarModel, PadLayer, RouteError};
use pcb_router::trace_path::PathLength;
use pcb_router::vec2::FixedVec2;

fn model(start: (i64, i64), end: (i64, i64)) -> AStarModel {
    AStarModel {
        start: FixedVec2::new(start.0, start.1),
        end: FixedVec2::new(end.0, end.1),
        start_layers: PadLayer::Front,
        end_layers: PadLayer::Front,
        num_layers: 2,
        trace_width: 2,
        trace_clearance: 1,
        via_diameter: 6,
        width: 100,
        height: 100,
        center: FixedVec2::new(0, 0),
        stride: 2,
        via_penalty: 0,
        layer_penalty: 0,
        max_nodes: 200_000,
    }
}

#[test]
fn free_board_gives_octile_length() {
    let m = model((0, 0), (20, 8));
    let path = astar_route(&m, &|_, _, _, _, _| false, &|_, _, _, _, _| false).unwrap();
    // octile distance: 6 straight and 4 diagonal steps of 2
    assert_eq!(path.total_length, PathLength { straight: 12, diagonal: 8 });
    assert_eq!(path.anchors.0[0].position, m.start);
    assert_eq!(path.anchors.0.last().unwrap().position, m.end);
    let mut single = model((0, 0), (20, 8));
    single.num_layers = 1;
    let flat = astar_route(&single, &|_, _, _, _, _| false, &|_, _, _, _, _| false).unwrap();
    assert_eq!(flat.total_length, PathLength { straight: 12, diagonal: 8 });
    assert!(flat.vias.is_empty());
}

#[test]
fn coincident_ends_give_empty_path() {
    let m = model((4, 4), (4, 4));
    let path = astar_route(&m, &|_, _, _, _, _| false, &|_, _, _, _, _| false).unwrap();
    assert_eq!(path.anchors.0.len(), 1);
    assert!(path.segments.is_empty());
    assert!(path.vias.is_empty());
    assert_eq!(path.total_length, PathLength { straight: 0, diagonal: 0 });
}

#[test]
fn layer_change_in_place_is_one_via_anchor() {
    let mut m = model((4, 4), (4, 4));
    m.end_layers = PadLayer::Back;
    let path = astar_route(&m, &|_, _, _, _, _| false, &|_, _, _, _, _| false).unwrap();
    assert_eq!(path.anchors.0.len(), 1);
    assert_eq!(path.anchors.0[0].start_layer, 0);
    assert_eq!(path.anchors.0[0].end_layer, 1);
    assert_eq!(path.vias.len(), 1);
    assert!(path.segments.is_empty());
}

#[test]
fn touching_pads_give_one_segment() {
    let m = model((0, 0), (2, 0));
    let path = astar_route(&m, &|_, _, _, _, _| false, &|_, _, _, _, _| false).unwrap();
    assert_eq!(path.segments.len(), 1);
    assert_eq!(path.total_length, PathLength { straight: 2, diagonal: 0 });
}

#[test]
fn wall_on_front_layer_is_passed_below() {
    // a wall across x = 10 on layer 0 only
    let m = model((0, 0), (20, 0));
    let wall = |p: FixedVec2, q: FixedVec2, _w: u64, _c: u64, l: usize| {
        l == 0 && ((p.x < 10 && q.x >= 10) || (p.x >= 10 && q.x < 10) || p.x == 10 || q.x == 10)
    };
    let path = astar_route(&m, &wall, &|_, _, _, _, _| false).unwrap();
    assert_eq!(path.vias.len(), 2);
    for s in path.segments.iter() {
        if s.layer == 0 {
            assert!(!wall(s.start, s.end, 0, 0, 0));
        }
    }
}

#[test]
fn end_off_the_board_is_invalid() {
    let m = model((0, 0), (200, 0));
    let r = astar_route(&m, &|_, _, _, _, _| false, &|_, _, _, _, _| false);
    assert_eq!(r.unwrap_err(), RouteError::InvalidInput);
}

#[test]
fn fully_blocked_is_unroutable() {
    let m = model((0, 0), (20, 0));
    let r = astar_route(&m, &|_, _, _, _, _| true, &|_, _, _, _, _| true);
    assert_eq!(r.unwrap_err(), RouteError::Unroutable);
}

#[test]
fn node_budget_is_reported() {
    let mut m = model((0, 0), (40, 0));
    m.max_nodes = 3;
    // only single steps are free, so the search itself has to run
    let steps_only = |p: FixedVec2, q: FixedVec2, _w: u64, _c: u64, _l: usize| (p.x - q.x).abs() > 2 || (p.y - q.y).abs() > 2;
    let r = astar_route(&m, &steps_only, &|_, _, _, _, _| false);
    assert_eq!(r.unwrap_err(), RouteError::BudgetExceeded);
}

#[test]
fn pad_layers() {
    assert!(PadLayer::Front.contains(0, 2));
    assert!(!PadLayer::Front.contains(1, 2));
    assert!(PadLayer::Back.contains(1, 2));
    assert!(PadLayer::Through.contains(1, 2));
    assert!(!PadLayer::Through.contains(2, 2));
}
