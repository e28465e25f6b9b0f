//! Routing engine of an automatic PCB router.
//!
//! Coordinates live on an integer grid (one unit is the fixed-point step), so
//! every geometric fact below is exact. The modules, leaves first:
//! `vec2` (grid points), `direction` (the eight routing directions),
//! `trace_path` (anchors, segments, vias and exact lengths), `clearance`
//! (exact distance tests between segments and vias), `post_process` (the
//! path post-optimizer), `astar` (the multi-layer A* pathfinder),
//! `pcb_problem` (problems and solutions), `naive_backtrack_algo` (the
//! backtracking solver), `proba_model` (the float-free parts of the
//! probabilistic solver) and `command_flags` (the pause/step commands).

pub mod vec2;
pub mod direction;
pub mod trace_path;
pub mod clearance;
pub mod post_process;
pub mod astar;
pub mod pcb_problem;
pub mod naive_backtrack_algo;
pub mod proba_model;
pub mod command_flags;
