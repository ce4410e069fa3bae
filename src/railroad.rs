//! The rail network: a directed graph over joints in which every track is
//! present in both directions.

use vstd::prelude::*;
use petgraph::graphmap::{DiGraphMap, GraphMap};
use petgraph::Directed;
use std::collections::hash_map::RandomState;
use std::hash::BuildHasher;
use crate::tilemap::{
    Direction, Joint, Tile, lemma_joint_opposite_involution, lemma_neighbor_and_back,
};

verus! {

/// petgraph's `GraphMap`, held as an opaque value; what it holds is named by
/// [`graph_edges`].
#[verifier::external_type_specification]
#[verifier::external_body]
#[verifier::reject_recursive_types(N)]
#[verifier::reject_recursive_types(E)]
#[verifier::reject_recursive_types(Ty)]
#[verifier::reject_recursive_types(S)]
pub struct ExGraphMap<N, E, Ty, S: BuildHasher>(GraphMap<N, E, Ty, S>);

/// petgraph's marker for directed graphs.
#[verifier::external_type_specification]
#[verifier::external_body]
pub struct ExDirected(Directed);

/// A joint as a graph node: both tile coordinates and the number of sixth
/// turns of its side.
pub type NodeKey = (i32, i32, u8);

/// The directed graph that holds the network.
pub type JointGraph = DiGraphMap<NodeKey, ()>;

/// The edges that a [`JointGraph`] holds.
pub uninterp spec fn graph_edges(g: JointGraph) -> Set<(NodeKey, NodeKey)>;

/// Relies on `GraphMap::new`: a new graph has no edges.
#[verifier::external_body]
fn graph_new() -> (g: JointGraph)
    ensures
        graph_edges(g) == Set::<(NodeKey, NodeKey)>::empty(),
{
    DiGraphMap::new()
}

/// Relies on `GraphMap::add_edge`: the edge `a -> b` is in the graph
/// afterwards, nothing else changes, and the previous weight comes back
/// exactly when the edge was there before.
#[verifier::external_body]
fn graph_add_edge(g: &mut JointGraph, a: NodeKey, b: NodeKey) -> (r: Option<()>)
    ensures
        graph_edges(*final(g)) == graph_edges(*old(g)).insert((a, b)),
        r.is_some() == graph_edges(*old(g)).contains((a, b)),
{
    g.add_edge(a, b, ())
}

/// Relies on `GraphMap::contains_edge`: whether `a -> b` is in the graph.
#[verifier::external_body]
fn graph_contains_edge(g: &JointGraph, a: NodeKey, b: NodeKey) -> (r: bool)
    ensures
        r == graph_edges(*g).contains((a, b)),
{
    g.contains_edge(a, b)
}

/// Relies on `GraphMap::all_edges`: every edge once, in no promised order.
#[verifier::external_body]
fn graph_all_edges(g: &JointGraph) -> (r: Vec<(NodeKey, NodeKey)>)
    ensures
        forall|e: (NodeKey, NodeKey)| r@.contains(e) <==> graph_edges(*g).contains(e),
        r@.no_duplicates(),
{
    g.all_edges().map(|(a, b, _)| (a, b)).collect()
}

/// The node that stands for a joint.
pub open spec fn key_of(j: Joint) -> NodeKey {
    (j.tile.0, j.tile.1, j.side.index() as u8)
}

/// The joint that a node stands for.
pub open spec fn joint_of(k: NodeKey) -> Joint {
    Joint { tile: Tile(k.0, k.1), side: Direction::from_index(k.2 as int) }
}

/// A node whose side is one of the six directions.
pub open spec fn valid_key(k: NodeKey) -> bool {
    k.2 < 6
}

proof fn lemma_key_round_trip(j: Joint)
    ensures
        joint_of(key_of(j)) == j,
        valid_key(key_of(j)),
{
}

proof fn lemma_joint_round_trip(k: NodeKey)
    requires
        valid_key(k),
    ensures
        key_of(joint_of(k)) == k,
{
}

fn node_key(j: Joint) -> (r: NodeKey)
    ensures
        r == key_of(j),
{
    (j.tile.0, j.tile.1, j.side.sixth_turns())
}

fn node_joint(k: NodeKey) -> (r: Joint)
    ensures
        r == joint_of(k),
{
    Joint { tile: Tile(k.0, k.1), side: Direction::from_sixth_turns((k.2 % 6) as i8) }
}

/// The three ways a single track can lead on from a joint.
#[derive(Clone, Copy, Debug, PartialEq, Eq, Structural, Hash)]
pub enum TrackType {
    Straight,
    CurvedLeft,
    CurvedRight,
}

/// A track that starts at `joint` and runs in the way `heading` says.
#[derive(Clone, Copy, Debug, PartialEq, Eq, Structural, Hash)]
pub struct Track {
    pub joint: Joint,
    pub heading: TrackType,
}

/// The joint that a track of kind `heading` from `j` leads to.
pub open spec fn spec_end_of(j: Joint, heading: TrackType) -> Joint {
    match heading {
        TrackType::Straight => j.spec_next_straight(),
        TrackType::CurvedLeft => j.spec_next_left(),
        TrackType::CurvedRight => j.spec_next_right(),
    }
}

/// The track from `start` to `end`, if a single track connects them.
#[verifier::opaque]
pub open spec fn spec_from_joints(start: Joint, end: Joint) -> Option<Track> {
    if start.spec_next_left() == end {
        Some(Track { joint: start, heading: TrackType::CurvedLeft })
    } else if start.spec_next_right() == end {
        Some(Track { joint: start, heading: TrackType::CurvedRight })
    } else if start.spec_next_straight() == end {
        Some(Track { joint: start, heading: TrackType::Straight })
    } else {
        None
    }
}

/// The kind of the same track travelled the other way.
pub open spec fn mirrored(heading: TrackType) -> TrackType {
    match heading {
        TrackType::Straight => TrackType::Straight,
        TrackType::CurvedLeft => TrackType::CurvedRight,
        TrackType::CurvedRight => TrackType::CurvedLeft,
    }
}

/// The fixed order over (side, kind) that picks one direction of each
/// track: tracks starting at the east, north-east and north-west sides,
/// but for a left curve from the north-west, and a right curve from the
/// west.
pub open spec fn spec_canonical(side: Direction, heading: TrackType) -> bool {
    match side {
        Direction::East => true,
        Direction::NorthEast => true,
        Direction::NorthWest => heading != TrackType::CurvedLeft,
        Direction::West => heading == TrackType::CurvedRight,
        Direction::SouthWest => false,
        Direction::SouthEast => false,
    }
}

impl Track {
    /// The joint at which this track ends.
    pub open spec fn spec_end_joint(self) -> Joint {
        spec_end_of(self.joint, self.heading)
    }

    /// The same physical track travelled the other way.
    pub open spec fn spec_reversed(self) -> Track {
        Track { joint: self.spec_end_joint().spec_opposite(), heading: mirrored(self.heading) }
    }

    /// The edge of this track in its own direction.
    pub open spec fn forward_edge(self) -> (Joint, Joint) {
        (self.joint, self.spec_end_joint())
    }

    /// The edge of this track in the other direction.
    pub open spec fn backward_edge(self) -> (Joint, Joint) {
        (self.spec_end_joint().spec_opposite(), self.joint.spec_opposite())
    }

    /// The track that connects `start` to `end`, if there is one.
    pub fn from_joints(start: Joint, end: Joint) -> (r: Option<Track>)
        ensures
            r == spec_from_joints(start, end),
    {
        reveal(spec_from_joints);
        if start.next_left() == end {
            Some(Track { joint: start, heading: TrackType::CurvedLeft })
        } else if start.next_right() == end {
            Some(Track { joint: start, heading: TrackType::CurvedRight })
        } else if start.next_straight() == end {
            Some(Track { joint: start, heading: TrackType::Straight })
        } else {
            None
        }
    }

    /// The joint at which this track ends.
    pub fn end_joint(&self) -> (r: Joint)
        ensures
            r == self.spec_end_joint(),
    {
        match self.heading {
            TrackType::Straight => self.joint.next_straight(),
            TrackType::CurvedLeft => self.joint.next_left(),
            TrackType::CurvedRight => self.joint.next_right(),
        }
    }

    /// Whether this is the one of the two directions of a track that is drawn
    /// and listed; the other direction of the same track is not.
    pub fn is_canonical_orientation(&self) -> (r: bool)
        ensures
            r == spec_canonical(self.joint.side, self.heading),
    {
        match (self.joint.side, self.heading) {
            (Direction::East, _) => true,
            (Direction::NorthEast, _) => true,
            (Direction::NorthWest, TrackType::CurvedLeft) => false,
            (Direction::NorthWest, _) => true,
            (Direction::West, TrackType::CurvedRight) => true,
            (Direction::West, _) => false,
            (Direction::SouthWest, _) => false,
            (Direction::SouthEast, _) => false,
        }
    }
}

/// Facts of one track: it is the track between its two joints, its reverse
/// leads back to the opposite of its start, reversing twice gives it back,
/// and exactly one of its two directions is canonical.
pub proof fn lemma_track_facts(t: Track)
    ensures
        spec_from_joints(t.joint, t.spec_end_joint()) == Some(t),
        t.spec_reversed().spec_end_joint() == t.joint.spec_opposite(),
        t.spec_reversed().forward_edge() == t.backward_edge(),
        t.spec_reversed().backward_edge() == t.forward_edge(),
        t.spec_reversed().spec_reversed() == t,
        t.forward_edge() != t.backward_edge(),
        spec_canonical(t.joint.side, t.heading) != spec_canonical(
            t.spec_reversed().joint.side,
            t.spec_reversed().heading,
        ),
{
    reveal(spec_from_joints);
    let s = t.joint.side;
    lemma_neighbor_and_back(t.joint.tile, s);
    lemma_neighbor_and_back(t.joint.tile, s.spec_opposite());
    lemma_neighbor_and_back(t.joint.tile, s.spec_curve_left());
    lemma_neighbor_and_back(t.joint.tile, s.spec_curve_right());
    lemma_joint_opposite_involution(t.joint);
    lemma_joint_opposite_involution(t.spec_end_joint());
}

/// The edges of one track added to a set of edges.
pub open spec fn with_track(edges: Set<(Joint, Joint)>, t: Track) -> Set<(Joint, Joint)> {
    edges.insert(t.forward_edge()).insert(t.backward_edge())
}

/// Every edge is a single track, and its reverse is an edge too.
#[verifier::opaque]
pub open spec fn double_tracked(edges: Set<(Joint, Joint)>) -> bool {
    forall|e: (Joint, Joint)|
        #![trigger edges.contains(e)]
        edges.contains(e) ==> {
            &&& spec_from_joints(e.0, e.1) is Some
            &&& edges.contains((e.1.spec_opposite(), e.0.spec_opposite()))
        }
}

/// The rail network. A node is a [`Joint`]; an edge `u -> v` says that a
/// single track leads from `u` to `v`. Every track is held as two edges,
/// one in each direction.
pub struct RailGraph {
    graph: JointGraph,
}

impl RailGraph {
    /// The edges of the network.
    pub closed spec fn view(&self) -> Set<(Joint, Joint)> {
        Set::new(|e: (Joint, Joint)| graph_edges(self.graph).contains((key_of(e.0), key_of(e.1))))
    }

    /// Every node of the graph stands for a joint, and the edges are double
    /// tracks.
    pub closed spec fn wf(&self) -> bool {
        &&& forall|k: (NodeKey, NodeKey)|
            #![trigger graph_edges(self.graph).contains(k)]
            graph_edges(self.graph).contains(k) ==> valid_key(k.0) && valid_key(k.1)
        &&& double_tracked(self@)
    }

    /// An empty network.
    pub fn new() -> (r: RailGraph)
        ensures
            r.wf(),
            r@ == Set::<(Joint, Joint)>::empty(),
    {
        let r = RailGraph { graph: graph_new() };
        assert(r@ =~= Set::<(Joint, Joint)>::empty());
        reveal(double_tracked);
        r
    }

    proof fn lemma_contains(&self, e: (Joint, Joint))
        ensures
            self@.contains(e) == graph_edges(self.graph).contains((key_of(e.0), key_of(e.1))),
    {
    }

    /// Adds both directions of `track`. Returns whether the track is new;
    /// the invariant makes the two directions come and go together.
    pub fn add_double_track(&mut self, track: Track) -> (r: bool)
        requires
            old(self).wf(),
        ensures
            final(self).wf(),
            final(self)@ == with_track(old(self)@, track),
            r == !old(self)@.contains(track.forward_edge()),
            r == !old(self)@.contains(track.backward_edge()),
    {
        let end = track.end_joint();
        let start_opposite = track.joint.opposite();
        let end_opposite = end.opposite();
        proof {
            reveal(double_tracked);
            lemma_track_facts(track);
            lemma_track_facts(track.spec_reversed());
            lemma_key_round_trip(track.joint);
            lemma_key_round_trip(end);
            lemma_key_round_trip(start_opposite);
            lemma_key_round_trip(end_opposite);
            if old(self)@.contains(track.backward_edge()) {
                lemma_joint_opposite_involution(track.joint);
                lemma_joint_opposite_involution(end);
                assert(old(self)@.contains(track.forward_edge()));
            }
            if old(self)@.contains(track.forward_edge()) {
                assert(old(self)@.contains(track.backward_edge()));
            }
        }
        let ghost before = self@;
        let first = graph_add_edge(&mut self.graph, node_key(track.joint), node_key(end));
        let second = graph_add_edge(&mut self.graph, node_key(end_opposite), node_key(start_opposite));
        proof {
            assert forall|e: (Joint, Joint)| self@.contains(e) == with_track(before, track).contains(e) by {
                self.lemma_contains(e);
                if key_of(e.0) == key_of(track.joint) {
                    lemma_key_round_trip(e.0);
                }
                if key_of(e.1) == key_of(end) {
                    lemma_key_round_trip(e.1);
                }
                if key_of(e.0) == key_of(end_opposite) {
                    lemma_key_round_trip(e.0);
                }
                if key_of(e.1) == key_of(start_opposite) {
                    lemma_key_round_trip(e.1);
                }
            }
            assert(self@ =~= with_track(before, track));
            assert forall|e: (Joint, Joint)| #[trigger] self@.contains(e) implies {
                &&& spec_from_joints(e.0, e.1) is Some
                &&& self@.contains((e.1.spec_opposite(), e.0.spec_opposite()))
            } by {
                if e == track.backward_edge() {
                    lemma_joint_opposite_involution(track.joint);
                    lemma_joint_opposite_involution(end);
                }
            }
        }
        first.is_none()
    }

    /// Whether the edge `a -> b` is in the network.
    pub fn contains_edge(&self, a: Joint, b: Joint) -> (r: bool)
        ensures
            r == self@.contains((a, b)),
    {
        graph_contains_edge(&self.graph, node_key(a), node_key(b))
    }

    /// The kind of the track that leads from `a` to `b`, if the network has
    /// one.
    pub fn track_between(&self, a: Joint, b: Joint) -> (r: Option<TrackType>)
        requires
            self.wf(),
        ensures
            r == (if self@.contains((a, b)) {
                Some(spec_from_joints(a, b)->Some_0.heading)
            } else {
                None
            }),
            r is Some ==> spec_end_of(a, r->Some_0) == b,
    {
        if self.contains_edge(a, b) {
            proof {
                reveal(double_tracked);
                assert(self@.contains((a, b)));
            }
            proof {
                lemma_from_joints(a, b);
            }
            match Track::from_joints(a, b) {
                Some(t) => Some(t.heading),
                None => None,
            }
        } else {
            None
        }
    }

    /// The joints reachable by one track from `j`, straight first, then
    /// left, then right.
    pub fn neighbors_outgoing(&self, j: Joint) -> (r: Vec<Joint>)
        requires
            self.wf(),
        ensures
            r@ == spec_neighbors(self@, j),
            forall|v: Joint| r@.contains(v) <==> self@.contains((j, v)),
    {
        let mut r: Vec<Joint> = Vec::new();
        let straight = j.next_straight();
        let left = j.next_left();
        let right = j.next_right();
        if self.contains_edge(j, straight) {
            r.push(straight);
        }
        if self.contains_edge(j, left) {
            r.push(left);
        }
        if self.contains_edge(j, right) {
            r.push(right);
        }
        proof {
            assert(r@ =~= spec_neighbors(self@, j));
            lemma_neighbors_cover(self@, j);
        }
        r
    }

    /// The joint that a train at `j` runs on to: the end of a track of kind
    /// `preferred` when the network has one, otherwise the first track of
    /// straight, left, right that it has.
    pub fn next_joint(&self, j: Joint, preferred: Option<TrackType>) -> (r: Option<Joint>)
        requires
            self.wf(),
        ensures
            r == spec_next_joint(self@, j, preferred),
            r is Some ==> self@.contains((j, r->Some_0)),
            r is None ==> forall|v: Joint| !self@.contains((j, v)),
    {
        if let Some(kind) = preferred {
            let t = Track { joint: j, heading: kind };
            let end = t.end_joint();
            if self.contains_edge(j, end) {
                return Some(end);
            }
        }
        let straight = j.next_straight();
        let left = j.next_left();
        let right = j.next_right();
        if self.contains_edge(j, straight) {
            Some(straight)
        } else if self.contains_edge(j, left) {
            Some(left)
        } else if self.contains_edge(j, right) {
            Some(right)
        } else {
            proof {
                reveal(double_tracked);
                assert forall|v: Joint| !self@.contains((j, v)) by {
                    if self@.contains((j, v)) {
                        assert(spec_from_joints(j, v) is Some);
                        lemma_from_joints(j, v);
                    }
                }
            }
            None
        }
    }

    /// Every edge of the network once, in no particular order.
    pub fn edges(&self) -> (r: Vec<(Joint, Joint)>)
        requires
            self.wf(),
        ensures
            forall|e: (Joint, Joint)| r@.contains(e) <==> self@.contains(e),
            r@.no_duplicates(),
    {
        let keys = graph_all_edges(&self.graph);
        let mut r: Vec<(Joint, Joint)> = Vec::new();
        let mut i: usize = 0;
        while i < keys.len()
            invariant
                self.wf(),
                i <= keys.len(),
                r.len() == i,
                forall|k: (NodeKey, NodeKey)|
                    keys@.contains(k) <==> graph_edges(self.graph).contains(k),
                keys@.no_duplicates(),
                forall|m: int|
                    0 <= m < i ==> #[trigger] r@[m] == (joint_of(keys@[m].0), joint_of(keys@[m].1)),
            decreases keys.len() - i,
        {
            let k = keys[i];
            r.push((node_joint(k.0), node_joint(k.1)));
            i += 1;
        }
        proof {
            assert forall|e: (Joint, Joint)| r@.contains(e) <==> self@.contains(e) by {
                if r@.contains(e) {
                    let m = choose|m: int| 0 <= m < r.len() && r@[m] == e;
                    let k = keys@[m];
                    assert(keys@.contains(k));
                    assert(graph_edges(self.graph).contains(k));
                    lemma_joint_round_trip(k.0);
                    lemma_joint_round_trip(k.1);
                }
                if self@.contains(e) {
                    let k = (key_of(e.0), key_of(e.1));
                    assert(graph_edges(self.graph).contains(k));
                    assert(keys@.contains(k));
                    let m = choose|m: int| 0 <= m < keys.len() && keys@[m] == k;
                    lemma_key_round_trip(e.0);
                    lemma_key_round_trip(e.1);
                    assert(r@[m] == e);
                }
            }
            assert forall|a: int, b: int| 0 <= a < r.len() && 0 <= b < r.len() && a != b implies r@[a]
                != r@[b] by {
                let ka = keys@[a];
                let kb = keys@[b];
                assert(keys@.contains(ka));
                assert(keys@.contains(kb));
                lemma_joint_round_trip(ka.0);
                lemma_joint_round_trip(ka.1);
                lemma_joint_round_trip(kb.0);
                lemma_joint_round_trip(kb.1);
            }
        }
        r
    }

    /// Every track of the network once: of the two directions of each
    /// track, the canonical one.
    pub fn canonical_tracks(&self) -> (r: Vec<Track>)
        requires
            self.wf(),
        ensures
            forall|t: Track|
                r@.contains(t) <==> (self@.contains(t.forward_edge()) && spec_canonical(
                    t.joint.side,
                    t.heading,
                )),
            r@.no_duplicates(),
    {
        let edges = self.edges();
        let mut r: Vec<Track> = Vec::new();
        let mut i: usize = 0;
        while i < edges.len()
            invariant
                self.wf(),
                i <= edges.len(),
                forall|e: (Joint, Joint)| edges@.contains(e) <==> self@.contains(e),
                edges@.no_duplicates(),
                r@.no_duplicates(),
                forall|k: int|
                    0 <= k < r@.len() ==> exists|m: int|
                        0 <= m < i && #[trigger] edges@[m] == (#[trigger] r@[k]).forward_edge(),
                forall|t: Track|
                    #[trigger] r@.contains(t) ==> self@.contains(t.forward_edge()) && spec_canonical(
                        t.joint.side,
                        t.heading,
                    ),
                forall|m: int|
                    0 <= m < i && spec_canonical(
                        track_of(#[trigger] edges@[m]).joint.side,
                        track_of(edges@[m]).heading,
                    ) ==> r@.contains(track_of(edges@[m])),
            decreases edges.len() - i,
        {
            let e = edges[i];
            proof {
                assert(edges@.contains(e));
                lemma_double_track_symmetry(*self, e.0, e.1);
                lemma_from_joints(e.0, e.1);
            }
            let ghost before = r@;
            if let Some(t) = Track::from_joints(e.0, e.1) {
                if t.is_canonical_orientation() {
                    proof {
                        assert forall|k: int| 0 <= k < before.len() implies before[k] != t by {
                            let m = choose|m: int| 0 <= m < i && #[trigger] edges@[m] == before[k].forward_edge();
                            assert(edges@[m] != edges@[i as int]);
                        }
                    }
                    r.push(t);
                    proof {
                        assert forall|k: int| 0 <= k < r@.len() implies exists|m: int|
                            0 <= m < i + 1 && #[trigger] edges@[m] == (#[trigger] r@[k]).forward_edge() by {
                            if k < before.len() {
                                let m = choose|m: int| 0 <= m < i && #[trigger] edges@[m] == before[k].forward_edge();
                                assert(edges@[m] == r@[k].forward_edge());
                            } else {
                                assert(edges@[i as int] == r@[k].forward_edge());
                            }
                        }
                        assert forall|u: Track| #[trigger] r@.contains(u) implies self@.contains(
                            u.forward_edge(),
                        ) && spec_canonical(u.joint.side, u.heading) by {
                            if u != t {
                                assert(before.contains(u));
                            }
                        }
                    }
                }
                proof {
                    assert forall|m: int|
                        0 <= m < i + 1 && spec_canonical(
                            track_of(#[trigger] edges@[m]).joint.side,
                            track_of(edges@[m]).heading,
                        ) implies r@.contains(track_of(edges@[m])) by {
                        if m < i {
                            let x = track_of(edges@[m]);
                            assert(before.contains(x));
                            let k = choose|k: int| 0 <= k < before.len() && before[k] == x;
                            assert(r@[k] == x);
                        } else {
                            assert(track_of(edges@[m]) == t);
                            assert(r@[r@.len() - 1] == t);
                        }
                    }
                }
            }
            i += 1;
        }
        proof {
            assert forall|t: Track|
                self@.contains(t.forward_edge()) && spec_canonical(
                    t.joint.side,
                    t.heading,
                ) implies #[trigger] r@.contains(t) by {
                lemma_track_facts(t);
                assert(edges@.contains(t.forward_edge()));
                let m = choose|m: int| 0 <= m < edges.len() && edges@[m] == t.forward_edge();
                assert(track_of(edges@[m]) == t);
            }
        }
        r
    }
}

/// A track between two joints starts at the first and ends at the second,
/// so the second is one of the three ends reachable from the first.
pub proof fn lemma_from_joints(a: Joint, b: Joint)
    ensures
        spec_from_joints(a, b) is Some ==> {
            &&& spec_from_joints(a, b)->Some_0.joint == a
            &&& spec_from_joints(a, b)->Some_0.spec_end_joint() == b
            &&& (b == a.spec_next_straight() || b == a.spec_next_left() || b == a.spec_next_right())
        },
{
    reveal(spec_from_joints);
}

/// The track of an edge.
pub open spec fn track_of(e: (Joint, Joint)) -> Track {
    spec_from_joints(e.0, e.1)->Some_0
}

/// The joints reachable by one track from `j` in `edges`: straight, left,
/// right, each where the edge is there.
pub open spec fn spec_neighbors(edges: Set<(Joint, Joint)>, j: Joint) -> Seq<Joint> {
    let s = if edges.contains((j, j.spec_next_straight())) {
        seq![j.spec_next_straight()]
    } else {
        Seq::<Joint>::empty()
    };
    let l = if edges.contains((j, j.spec_next_left())) {
        seq![j.spec_next_left()]
    } else {
        Seq::<Joint>::empty()
    };
    let r = if edges.contains((j, j.spec_next_right())) {
        seq![j.spec_next_right()]
    } else {
        Seq::<Joint>::empty()
    };
    s + l + r
}

#[verifier::rlimit(30)]
proof fn lemma_neighbors_cover(edges: Set<(Joint, Joint)>, j: Joint)
    requires
        double_tracked(edges),
    ensures
        forall|v: Joint| spec_neighbors(edges, j).contains(v) <==> edges.contains((j, v)),
{
    reveal(double_tracked);
    let n = spec_neighbors(edges, j);
    let st = j.spec_next_straight();
    let le = j.spec_next_left();
    let ri = j.spec_next_right();
    let a: int = if edges.contains((j, st)) { 1 } else { 0 };
    let b: int = if edges.contains((j, le)) { 1 } else { 0 };
    let c: int = if edges.contains((j, ri)) { 1 } else { 0 };
    assert(n.len() == a + b + c);
    assert(edges.contains((j, st)) ==> n[0] == st);
    assert(edges.contains((j, le)) ==> n[a] == le);
    assert(edges.contains((j, ri)) ==> n[a + b] == ri);
    assert forall|m: int| 0 <= m < n.len() implies edges.contains((j, #[trigger] n[m])) by {
        if m < a {
            assert(n[m] == st);
        } else if m < a + b {
            assert(n[m] == le);
        } else {
            assert(n[m] == ri);
        }
    }
    assert forall|v: Joint| n.contains(v) <==> edges.contains((j, v)) by {
        if edges.contains((j, v)) {
            lemma_from_joints(j, v);
            if v == st {
                assert(n[0] == v);
            } else if v == le {
                assert(n[a] == v);
            } else {
                assert(n[a + b] == v);
            }
        }
        if n.contains(v) {
            let m = choose|m: int| 0 <= m < n.len() && n[m] == v;
            assert(edges.contains((j, n[m])));
        }
    }
}

/// The joint to run on to from `j`: the end of a `preferred` track where
/// there is one, else the first of straight, left, right that `edges` has.
pub open spec fn spec_next_joint(
    edges: Set<(Joint, Joint)>,
    j: Joint,
    preferred: Option<TrackType>,
) -> Option<Joint> {
    if preferred is Some && edges.contains((j, spec_end_of(j, preferred->Some_0))) {
        Some(spec_end_of(j, preferred->Some_0))
    } else if edges.contains((j, j.spec_next_straight())) {
        Some(j.spec_next_straight())
    } else if edges.contains((j, j.spec_next_left())) {
        Some(j.spec_next_left())
    } else if edges.contains((j, j.spec_next_right())) {
        Some(j.spec_next_right())
    } else {
        None
    }
}

/// Adding a track that is not there yet adds exactly its two edges; adding
/// it again changes nothing and finds it present.
pub proof fn lemma_add_double_track_twice(edges: Set<(Joint, Joint)>, t: Track)
    requires
        double_tracked(edges),
        !edges.contains(t.forward_edge()),
    ensures
        !edges.contains(t.backward_edge()),
        with_track(edges, t).contains(t.forward_edge()),
        with_track(with_track(edges, t), t) == with_track(edges, t),
        with_track(edges, t).difference(edges) == set![t.forward_edge(), t.backward_edge()],
        t.forward_edge() != t.backward_edge(),
{
    reveal(double_tracked);
    lemma_track_facts(t);
    if edges.contains(t.backward_edge()) {
        lemma_joint_opposite_involution(t.joint);
        lemma_joint_opposite_involution(t.spec_end_joint());
        assert(edges.contains(t.forward_edge()));
    }
    assert(with_track(with_track(edges, t), t) =~= with_track(edges, t));
    assert(with_track(edges, t).difference(edges) =~= set![t.forward_edge(), t.backward_edge()]);
}

/// In every network that the operations build, each edge `u -> v` is a
/// single track and `opposite(v) -> opposite(u)` is an edge too.
pub proof fn lemma_double_track_symmetry(g: RailGraph, u: Joint, v: Joint)
    requires
        g.wf(),
        g@.contains((u, v)),
    ensures
        g@.contains((v.spec_opposite(), u.spec_opposite())),
        spec_from_joints(u, v) is Some,
{
    reveal(double_tracked);
}

} // verus!
