use vstd::prelude::*;

use crate::astar::PadLayer;
use crate::trace_path::TracePath;
use crate::vec2::FixedVec2;

verus! {

#[derive(Debug, Clone, PartialEq, Eq, Hash, PartialOrd, Ord)]
pub struct PadName(pub String);

#[derive(Debug, Clone, PartialEq, Eq, Hash, PartialOrd, Ord)]
pub struct NetName(pub String);

#[derive(Debug, Clone, PartialEq, Eq, Hash, PartialOrd, Ord)]
pub struct NetClassName(pub String);

#[derive(Debug, Clone, Copy, PartialEq, Eq, Structural, Hash, PartialOrd, Ord)]
pub struct ConnectionID(pub usize);

/// Outline of a pad, in grid units.
#[derive(Debug, Clone, Copy, PartialEq, Eq, Structural)]
pub enum PadShape {
    Circle { diameter: u64 },
    Rectangle { width: u64, height: u64 },
    RoundRect { width: u64, height: u64, corner_radius: u64 },
}

/// A copper pad: its centre on the grid, outline, rotation in whole degrees,
/// clearance and layers.
#[derive(Debug, Clone)]
pub struct Pad {
    pub name: PadName,
    pub position: FixedVec2,
    pub shape: PadShape,
    pub rotation: i32,
    pub clearance: u64,
    pub pad_layer: PadLayer,
}

/// A pad that a net's source pad must be joined to, with the trace width and
/// clearance of that join.
#[derive(Debug, Clone)]
pub struct Connection {
    pub net_name: NetName,
    pub connection_id: ConnectionID,
    pub sink: Pad,
    pub sink_trace_width: u64,
    pub sink_trace_clearance: u64,
}

/// A net: its source pad and the defaults of its traces and vias.
#[derive(Debug, Clone)]
pub struct NetInfo {
    pub net_name: NetName,
    pub source: Pad,
    pub source_trace_width: u64,
    pub source_trace_clearance: u64,
    pub via_diameter: u64,
}

/// A straight obstacle edge, such as a side of a keep-out polygon.
#[derive(Debug, Clone, Copy, PartialEq, Eq, Structural)]
pub struct Line {
    pub start: FixedVec2,
    pub end: FixedVec2,
}

/// A routing problem: the board (`width` by `height` around `center`, in grid
/// units), its layers, its nets and the connections to route. Connections
/// live in one list and name their net; ids come from a counter.
#[derive(Debug)]
pub struct PcbProblem {
    pub width: i64,
    pub height: i64,
    pub center: FixedVec2,
    pub num_layers: usize,
    pub nets: Vec<NetInfo>,
    pub connections: Vec<Connection>,
    pub next_connection_id: usize,
    /// Edges that no trace may come near, on every layer.
    pub obstacle_lines: Vec<Line>,
}

/// The committed route of one connection.
#[derive(Debug, Clone)]
pub struct FixedTrace {
    pub net_name: NetName,
    pub connection_id: ConnectionID,
    pub trace_path: TracePath,
}

/// A routed board: one fixed trace per connection.
#[derive(Debug)]
pub struct PcbSolution {
    pub determined_traces: Vec<FixedTrace>,
}

impl PcbProblem {
    pub open spec fn has_net(&self, name: Seq<char>) -> bool {
        exists|i: int| 0 <= i < self.nets@.len() && (#[trigger] self.nets@[i]).net_name.0@ == name
    }

    /// Net names are unique, every connection names a net, and connection
    /// ids are distinct and below the counter.
    pub open spec fn wf(&self) -> bool {
        &&& forall|i: int, j: int|
            0 <= i < j < self.nets@.len() ==> (#[trigger] self.nets@[i]).net_name.0@ != (
            #[trigger] self.nets@[j]).net_name.0@
        &&& forall|k: int|
            0 <= k < self.connections@.len() ==> self.has_net((#[trigger] self.connections@[k]).net_name.0@)
        &&& forall|k: int|
            0 <= k < self.connections@.len() ==> (#[trigger] self.connections@[k]).connection_id.0
                < self.next_connection_id
        &&& forall|k: int, l: int|
            0 <= k < l < self.connections@.len() ==> (#[trigger] self.connections@[k]).connection_id != (
            #[trigger] self.connections@[l]).connection_id
    }

    /// An empty problem on a board of `width` by `height` grid units around
    /// `center` with `num_layers` layers.
    pub fn new(width: i64, height: i64, center: FixedVec2, num_layers: usize) -> (r: Self)
        ensures
            r.wf(),
            r.width == width && r.height == height && r.center == center,
            r.num_layers == num_layers,
            r.nets@.len() == 0,
            r.connections@.len() == 0,
            r.next_connection_id == 0,
            r.obstacle_lines@.len() == 0,
    {
        PcbProblem {
            width,
            height,
            center,
            num_layers,
            nets: Vec::new(),
            connections: Vec::new(),
            next_connection_id: 0,
            obstacle_lines: Vec::new(),
        }
    }

    /// Index of the net called `name`, if there is one.
    pub fn find_net(&self, name: &NetName) -> (r: Option<usize>)
        ensures
            r matches Some(i) ==> i < self.nets@.len() && self.nets@[i as int].net_name.0@ == name.0@,
            r is None ==> !self.has_net(name.0@),
    {
        let mut i: usize = 0;
        while i < self.nets.len()
            invariant
                i <= self.nets@.len(),
                forall|k: int| 0 <= k < i ==> (#[trigger] self.nets@[k]).net_name.0@ != name.0@,
            decreases self.nets@.len() - i,
        {
            if self.nets[i].net_name.0 == name.0 {
                return Some(i);
            }
            i = i + 1;
        }
        None
    }

    /// Adds a net with its source pad; refused (false) where a net of that
    /// name exists.
    pub fn add_net(
        &mut self,
        net_name: NetName,
        source: Pad,
        source_trace_width: u64,
        source_trace_clearance: u64,
        via_diameter: u64,
    ) -> (r: bool)
        requires
            old(self).wf(),
        ensures
            final(self).wf(),
            r == !old(self).has_net(net_name.0@),
            r ==> final(self).nets@ == old(self).nets@.push(
                NetInfo { net_name, source, source_trace_width, source_trace_clearance, via_diameter },
            ),
            !r ==> final(self).nets@ == old(self).nets@,
            final(self).connections@ == old(self).connections@,
            final(self).next_connection_id == old(self).next_connection_id,
            final(self).width == old(self).width && final(self).height == old(self).height,
            final(self).center == old(self).center && final(self).num_layers == old(self).num_layers,
            final(self).obstacle_lines@ == old(self).obstacle_lines@,
    {
        if self.find_net(&net_name).is_some() {
            return false;
        }
        let ghost n0 = self.nets@;
        let ghost name = net_name.0@;
        self.nets.push(NetInfo { net_name, source, source_trace_width, source_trace_clearance, via_diameter });
        assert forall|k: int| 0 <= k < self.connections@.len() implies self.has_net(
            (#[trigger] self.connections@[k]).net_name.0@,
        ) by {
            let c = self.connections@[k];
            let i = choose|i: int| 0 <= i < n0.len() && (#[trigger] n0[i]).net_name.0@ == c.net_name.0@;
            assert(self.nets@[i] == n0[i]);
        }
        assert forall|i: int, j: int| 0 <= i < j < self.nets@.len() implies (#[trigger] self.nets@[i]).net_name.0@
            != (#[trigger] self.nets@[j]).net_name.0@ by {
            assert(self.nets@[i] == n0[i]);
            if j < n0.len() {
                assert(self.nets@[j] == n0[j]);
            } else {
                assert(self.nets@[j].net_name.0@ == name);
            }
        }
        true
    }

    /// Adds a connection from the source pad of `net_name` to `sink` and
    /// returns its new id; `None` where there is no such net or the ids are
    /// used up.
    pub fn add_connection(&mut self, net_name: NetName, sink: Pad, trace_width: u64, trace_clearance: u64) -> (r:
        Option<ConnectionID>)
        requires
            old(self).wf(),
        ensures
            final(self).wf(),
            r is Some <==> (old(self).has_net(net_name.0@) && old(self).next_connection_id < usize::MAX),
            r matches Some(id) ==> {
                &&& id.0 == old(self).next_connection_id
                &&& final(self).next_connection_id == old(self).next_connection_id + 1
                &&& final(self).connections@ == old(self).connections@.push(
                    Connection {
                        net_name,
                        connection_id: id,
                        sink,
                        sink_trace_width: trace_width,
                        sink_trace_clearance: trace_clearance,
                    },
                )
            },
            r is None ==> final(self).connections@ == old(self).connections@ && final(self).next_connection_id
                == old(self).next_connection_id,
            final(self).nets@ == old(self).nets@,
            final(self).width == old(self).width && final(self).height == old(self).height,
            final(self).center == old(self).center && final(self).num_layers == old(self).num_layers,
            final(self).obstacle_lines@ == old(self).obstacle_lines@,
    {
        match self.find_net(&net_name) {
            None => None,
            Some(i) => {
                if self.next_connection_id == usize::MAX {
                    return None;
                }
                let id = ConnectionID(self.next_connection_id);
                let ghost c0 = self.connections@;
                let ghost name = net_name.0@;
                self.connections.push(
                    Connection {
                        net_name,
                        connection_id: id,
                        sink,
                        sink_trace_width: trace_width,
                        sink_trace_clearance: trace_clearance,
                    },
                );
                self.next_connection_id = self.next_connection_id + 1;
                assert forall|k: int| 0 <= k < self.connections@.len() implies self.has_net(
                    (#[trigger] self.connections@[k]).net_name.0@,
                ) by {
                    if k < c0.len() {
                        assert(self.connections@[k] == c0[k]);
                    } else {
                        assert(self.nets@[i as int].net_name.0@ == name);
                    }
                }
                assert forall|k: int, l: int| 0 <= k < l < self.connections@.len() implies (#[trigger] self.connections@[k]).connection_id
                    != (#[trigger] self.connections@[l]).connection_id by {
                    assert(self.connections@[k] == c0[k]);
                    if l < c0.len() {
                        assert(self.connections@[l] == c0[l]);
                    }
                }
                assert forall|k: int| 0 <= k < self.connections@.len() implies (#[trigger] self.connections@[k]).connection_id.0
                    < self.next_connection_id by {
                    if k < c0.len() {
                        assert(self.connections@[k] == c0[k]);
                    }
                }
                Some(id)
            },
        }
    }

    /// Adds an obstacle edge.
    pub fn add_obstacle_line(&mut self, line: Line)
        requires
            old(self).wf(),
        ensures
            final(self).wf(),
            final(self).obstacle_lines@ == old(self).obstacle_lines@.push(line),
            final(self).nets@ == old(self).nets@ && final(self).connections@ == old(self).connections@,
            final(self).next_connection_id == old(self).next_connection_id,
            final(self).width == old(self).width && final(self).height == old(self).height,
            final(self).center == old(self).center && final(self).num_layers == old(self).num_layers,
    {
        self.obstacle_lines.push(line);
    }

    /// Adds the edges of a closed obstacle polygon through `corners`.
    pub fn add_obstacle_polygon(&mut self, corners: &Vec<FixedVec2>)
        requires
            old(self).wf(),
        ensures
            final(self).wf(),
            final(self).obstacle_lines@.len() == old(self).obstacle_lines@.len() + corners@.len(),
            forall|k: int|
                0 <= k < corners@.len() ==> #[trigger] final(self).obstacle_lines@[old(self).obstacle_lines@.len() + k] == (Line {
                    start: corners@[k],
                    end: corners@[(k + 1) % corners@.len() as int],
                }),
            forall|k: int|
                0 <= k < old(self).obstacle_lines@.len() ==> final(self).obstacle_lines@[k] == old(
                    self,
                ).obstacle_lines@[k],
            final(self).nets@ == old(self).nets@ && final(self).connections@ == old(self).connections@,
            final(self).next_connection_id == old(self).next_connection_id,
            final(self).width == old(self).width && final(self).height == old(self).height,
            final(self).center == old(self).center && final(self).num_layers == old(self).num_layers,
    {
        let n = corners.len();
        let ghost l0 = self.obstacle_lines@;
        let mut k: usize = 0;
        while k < n
            invariant
                n == corners@.len(),
                k <= n,
                self.wf(),
                self.obstacle_lines@.len() == l0.len() + k,
                forall|q: int| 0 <= q < l0.len() ==> self.obstacle_lines@[q] == l0[q],
                forall|q: int|
                    0 <= q < k ==> #[trigger] self.obstacle_lines@[l0.len() + q] == (Line {
                        start: corners@[q],
                        end: corners@[(q + 1) % n as int],
                    }),
                self.nets@ == old(self).nets@ && self.connections@ == old(self).connections@,
                self.next_connection_id == old(self).next_connection_id,
                self.width == old(self).width && self.height == old(self).height,
                self.center == old(self).center && self.num_layers == old(self).num_layers,
                l0 == old(self).obstacle_lines@,
            decreases n - k,
        {
            let next = if k + 1 == n { 0 } else { k + 1 };
            proof {
                if k + 1 == n {
                    vstd::arithmetic::div_mod::lemma_mod_self_0(n as int);
                } else {
                    vstd::arithmetic::div_mod::lemma_small_mod((k + 1) as nat, n as nat);
                }
            }
            assert(next == (k + 1) % n as int);
            self.obstacle_lines.push(Line { start: corners[k], end: corners[next] });
            k = k + 1;
        }
    }
}

} // verus!
