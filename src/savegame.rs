//! The save-game document: what is saved of a world, and how a world is
//! rebuilt from it. Reading and writing the document are left to the caller.

use vstd::prelude::*;
use crate::railroad::{
    RailGraph, Track, lemma_double_track_symmetry, lemma_from_joints, spec_from_joints, track_of,
    with_track,
};
use crate::tilemap::Joint;
use crate::trainbuilder::{couple_trains, coupling_plan, spec_coupled, spec_coupling_plan, uncouple};
use crate::trains::{
    BumperNode, Controller, Trail, TrainBundle, TrainIndex, VehicleBundle, VehicleStats,
    VehicleType, Velocity,
};

verus! {

/// The version of the document that this library reads and writes.
pub const CURRENT_SAVEGAME_VERSION: u32 = 6;

/// The rail network and the trains on it.
pub struct World {
    pub graph: RailGraph,
    pub trains: Vec<TrainBundle>,
}

impl World {
    /// The network and every train are sound.
    pub open spec fn wf(&self) -> bool {
        &&& self.graph.wf()
        &&& forall|i: int| 0 <= i < self.trains@.len() ==> (#[trigger] self.trains@[i]).wf()
    }

    /// No track and no train.
    pub fn new() -> (r: World)
        ensures
            r.wf(),
            r.graph@ == Set::<(Joint, Joint)>::empty(),
            r.trains@.len() == 0,
    {
        World { graph: RailGraph::new(), trains: Vec::new() }
    }
}

impl World {
    /// Couples trains `t1` and `t2` of the world, which touch at bumpers `d1`
    /// and `d2`, as one step: the joined train takes the place of the front
    /// part and the back part's record goes. Returns whether they were
    /// coupled; nothing changes where they were not.
    pub fn couple(&mut self, t1: usize, d1: BumperNode, t2: usize, d2: BumperNode) -> (r: bool)
        requires
            old(self).wf(),
            t1 < old(self).trains@.len(),
            t2 < old(self).trains@.len(),
            t1 != t2,
        ensures
            final(self).wf(),
            final(self).graph == old(self).graph,
            r == (spec_coupled(old(self).trains@[t1 as int], d1, old(self).trains@[t2 as int], d2) is Some),
            !r ==> final(self).trains@ == old(self).trains@,
            r ==> {
                let plan = spec_coupling_plan(d1, d2);
                let front = if plan.first_is_front { t1 } else { t2 };
                let back = if plan.first_is_front { t2 } else { t1 };
                let c = spec_coupled(old(self).trains@[t1 as int], d1, old(self).trains@[t2 as int], d2)->Some_0;
                &&& final(self).trains@.len() == old(self).trains@.len() - 1
                &&& final(self).trains@ == old(self).trains@.update(front as int, final(self).trains@[front - (if back < front { 1int } else { 0 })]).remove(back as int)
                &&& final(self).trains@[front - (if back < front { 1int } else { 0 })].path.model() == c.0
                &&& final(self).trains@[front - (if back < front { 1int } else { 0 })].vehicles@ == c.1
            },
    {
        let joined = couple_trains(&self.trains[t1], d1, &self.trains[t2], d2);
        match joined {
            None => false,
            Some(c) => {
                let plan = coupling_plan(d1, d2);
                let (front, back) = if plan.first_is_front { (t1, t2) } else { (t2, t1) };
                let ghost before = self.trains@;
                self.trains.set(front, c);
                let ghost updated = self.trains@;
                self.trains.remove(back);
                proof {
                    let at = front - (if back < front { 1int } else { 0 });
                    assert(self.trains@[at] == updated[front as int]);
                    assert(self.trains@ =~= before.update(front as int, self.trains@[at]).remove(back as int));
                    assert forall|i: int| 0 <= i < self.trains@.len() implies (#[trigger] self.trains@[i]).wf() by {
                        if i < back {
                            assert(self.trains@[i] == updated[i]);
                        } else {
                            assert(self.trains@[i] == updated[i + 1]);
                        }
                    }
                }
                true
            },
        }
    }

    /// Splits train `t` of the world at fence post `bumper_index`; the back
    /// part becomes a new train at the end of the list. Returns whether it
    /// was split.
    pub fn uncouple(&mut self, t: usize, bumper_index: u16) -> (r: bool)
        requires
            old(self).wf(),
            t < old(self).trains@.len(),
        ensures
            final(self).wf(),
            final(self).graph == old(self).graph,
            r == (0 < bumper_index < old(self).trains@[t as int].path.length),
            !r ==> final(self).trains@ == old(self).trains@,
            r ==> final(self).trains@.len() == old(self).trains@.len() + 1,
            r ==> forall|i: int| 0 <= i < old(self).trains@.len() && i != t ==> final(self).trains@[i] == old(self).trains@[i],
            r ==> final(self).trains@[t as int].path.length == bumper_index,
            r ==> final(self).trains@.last().path.length == old(self).trains@[t as int].path.length - bumper_index,
    {
        let mut train = self.trains.remove(t);
        let back = uncouple(&mut train, bumper_index);
        self.trains.insert(t, train);
        proof {
            assert forall|i: int| 0 <= i < self.trains@.len() implies (#[trigger] self.trains@[i]).wf() by {
                if i < t {
                    assert(self.trains@[i] == old(self).trains@[i]);
                } else if i > t {
                    assert(self.trains@[i] == old(self).trains@[i]);
                }
            }
        }
        match back {
            None => {
                proof {
                    assert(self.trains@ =~= old(self).trains@);
                }
                false
            },
            Some(b) => {
                self.trains.push(b);
                true
            },
        }
    }
}

/// A saved vehicle.
#[derive(Clone, Copy, Debug, PartialEq, Eq, Structural)]
pub struct SaveWagon {
    pub wagon_type: VehicleType,
    pub stats: VehicleStats,
}

/// A saved train: its trail, its speed, and its vehicles front first.
pub struct SaveTrain {
    pub train: Trail,
    pub velocity: Velocity,
    pub wagons: Vec<SaveWagon>,
}

/// Everything that is saved.
pub struct SaveGame {
    pub version: u32,
    /// Every edge of the rail network.
    pub network: Vec<(Joint, Joint)>,
    pub trains: Vec<SaveTrain>,
}

/// Why a document cannot be loaded.
#[derive(Clone, Copy, Debug, PartialEq, Eq, Structural)]
pub enum LoadError {
    /// The document was written by another version.
    VersionMismatch,
    /// An edge of the network is no single track.
    BrokenGraph,
}

impl Default for SaveGame {
    /// A new game: the current version, no track, no train.
    fn default() -> (r: SaveGame)
        ensures
            r.version == CURRENT_SAVEGAME_VERSION,
            r.network@.len() == 0,
            r.trains@.len() == 0,
    {
        SaveGame { version: CURRENT_SAVEGAME_VERSION, network: Vec::new(), trains: Vec::new() }
    }
}

/// Whether a saved train is loaded: its trail is sound and it has as many
/// vehicles as its trail says.
pub open spec fn loadable(t: SaveTrain) -> bool {
    t.train.wf() && t.wagons@.len() == t.train.length
}

/// The saved trains that are loaded, in their order.
pub open spec fn loadable_trains(s: Seq<SaveTrain>) -> Seq<SaveTrain>
    decreases s.len(),
{
    if s.len() == 0 {
        Seq::empty()
    } else {
        let rest = loadable_trains(s.drop_last());
        if loadable(s.last()) {
            rest.push(s.last())
        } else {
            rest
        }
    }
}

/// The saved vehicles as the vehicles of a train, each at its index.
pub open spec fn wagons_to_vehicles(w: Seq<SaveWagon>) -> Seq<VehicleBundle> {
    Seq::new(
        w.len(),
        |i: int|
            VehicleBundle {
                index: TrainIndex { position: i as u16 },
                tyype: w[i].wagon_type,
                stats: w[i].stats,
            },
    )
}

/// The train that a saved train becomes: standing controls, not crashed.
pub open spec fn loaded_as(t: TrainBundle, s: SaveTrain) -> bool {
    &&& t.path.model() == s.train.model()
    &&& t.velocity == s.velocity
    &&& t.controller == (Controller { throttle: 0, brake: 0 })
    &&& t.vehicles@ == wagons_to_vehicles(s.wagons@)
    &&& !t.crashed
}

/// Whether a document loads: it has the current version and every edge is
/// a single track.
pub open spec fn loads(s: SaveGame) -> bool {
    s.version == CURRENT_SAVEGAME_VERSION && all_tracks(s.network@)
}

/// Every saved edge is a single track.
pub open spec fn all_tracks(edges: Seq<(Joint, Joint)>) -> bool {
    forall|i: int| 0 <= i < edges.len() ==> (spec_from_joints(#[trigger] edges[i].0, edges[i].1) is Some)
}

/// The network that the saved edges give: both directions of the track of
/// each.
pub open spec fn network_of(edges: Seq<(Joint, Joint)>) -> Set<(Joint, Joint)>
    decreases edges.len(),
{
    if edges.len() == 0 {
        Set::empty()
    } else {
        let e = edges.last();
        with_track(network_of(edges.drop_last()), spec_from_joints(e.0, e.1)->Some_0)
    }
}

fn copy_joints(v: &Vec<Joint>) -> (r: Vec<Joint>)
    ensures
        r@ == v@,
{
    let mut r: Vec<Joint> = Vec::with_capacity(v.len());
    let mut i: usize = 0;
    while i < v.len()
        invariant
            i <= v.len(),
            r@ =~= v@.take(i as int),
        decreases v.len() - i,
    {
        r.push(v[i]);
        i += 1;
    }
    proof {
        assert(r@ =~= v@);
    }
    r
}

fn build_network(edges: &Vec<(Joint, Joint)>) -> (r: Option<RailGraph>)
    ensures
        r is Some <==> all_tracks(edges@),
        r is Some ==> r->Some_0.wf() && r->Some_0@ == network_of(edges@),
{
    let mut graph = RailGraph::new();
    let mut i: usize = 0;
    while i < edges.len()
        invariant
            i <= edges.len(),
            graph.wf(),
            graph@ == network_of(edges@.take(i as int)),
            all_tracks(edges@.take(i as int)),
        decreases edges.len() - i,
    {
        let e = edges[i];
        let track = match Track::from_joints(e.0, e.1) {
            Some(t) => t,
            None => {
                proof {
                    assert(!(spec_from_joints(edges@[i as int].0, edges@[i as int].1) is Some));
                }
                return None;
            },
        };
        graph.add_double_track(track);
        proof {
            let next = edges@.take(i + 1);
            assert(next.drop_last() =~= edges@.take(i as int));
            assert(next.last() == e);
            assert forall|k: int| 0 <= k < next.len() implies (spec_from_joints(
                #[trigger] next[k].0,
                next[k].1,
            ) is Some) by {
                if k < i {
                    assert(next[k] == edges@.take(i as int)[k]);
                }
            }
        }
        i += 1;
    }
    proof {
        assert(edges@.take(edges@.len() as int) =~= edges@);
    }
    Some(graph)
}

fn load_train(s: &SaveTrain) -> (r: TrainBundle)
    requires
        loadable(*s),
    ensures
        r.wf(),
        loaded_as(r, *s),
{
    let mut vehicles: Vec<VehicleBundle> = Vec::with_capacity(s.wagons.len());
    let mut i: usize = 0;
    while i < s.wagons.len()
        invariant
            i <= s.wagons.len(),
            s.wagons.len() == s.train.length,
            vehicles@ =~= wagons_to_vehicles(s.wagons@).take(i as int),
        decreases s.wagons.len() - i,
    {
        let w = s.wagons[i];
        vehicles.push(VehicleBundle { index: TrainIndex { position: i as u16 }, tyype: w.wagon_type, stats: w.stats });
        i += 1;
    }
    proof {
        assert(vehicles@ =~= wagons_to_vehicles(s.wagons@));
    }
    let trail = Trail { path: copy_joints(&s.train.path), path_progress: s.train.path_progress, length: s.train.length };
    TrainBundle {
        path: trail,
        velocity: s.velocity,
        controller: Controller { throttle: 0, brake: 0 },
        vehicles,
        crashed: false,
    }
}

/// The saved form of a train.
pub open spec fn saved_as(s: SaveTrain, t: TrainBundle) -> bool {
    &&& s.train.model() == t.path.model()
    &&& s.velocity == t.velocity
    &&& s.wagons@.len() == t.vehicles@.len()
    &&& forall|j: int|
        0 <= j < s.wagons@.len() ==> #[trigger] s.wagons@[j] == (SaveWagon {
            wagon_type: t.vehicles@[j].tyype,
            stats: t.vehicles@[j].stats,
        })
}

fn save_train(t: &TrainBundle) -> (r: SaveTrain)
    ensures
        saved_as(r, *t),
{
    let mut wagons: Vec<SaveWagon> = Vec::with_capacity(t.vehicles.len());
    let mut j: usize = 0;
    while j < t.vehicles.len()
        invariant
            j <= t.vehicles.len(),
            wagons@.len() == j,
            forall|k: int|
                0 <= k < j ==> #[trigger] wagons@[k] == (SaveWagon {
                    wagon_type: t.vehicles@[k].tyype,
                    stats: t.vehicles@[k].stats,
                }),
        decreases t.vehicles.len() - j,
    {
        let v = t.vehicles[j];
        wagons.push(SaveWagon { wagon_type: v.tyype, stats: v.stats });
        j += 1;
    }
    SaveTrain {
        train: Trail { path: copy_joints(&t.path.path), path_progress: t.path.path_progress, length: t.path.length },
        velocity: t.velocity,
        wagons,
    }
}

impl SaveGame {
    /// The document for a world: the current version, every edge of the
    /// network once, and every train with its vehicles front first.
    pub fn from_world(world: &World) -> (r: SaveGame)
        requires
            world.wf(),
        ensures
            r.version == CURRENT_SAVEGAME_VERSION,
            forall|e: (Joint, Joint)| r.network@.contains(e) <==> world.graph@.contains(e),
            r.network@.no_duplicates(),
            r.trains@.len() == world.trains@.len(),
            forall|i: int| 0 <= i < r.trains@.len() ==> saved_as(#[trigger] r.trains@[i], world.trains@[i]),
    {
        let network = world.graph.edges();
        let mut trains: Vec<SaveTrain> = Vec::new();
        let mut i: usize = 0;
        while i < world.trains.len()
            invariant
                i <= world.trains.len(),
                trains@.len() == i,
                forall|k: int| 0 <= k < i ==> saved_as(#[trigger] trains@[k], world.trains@[k]),
            decreases world.trains.len() - i,
        {
            let t = save_train(&world.trains[i]);
            trains.push(t);
            i += 1;
        }
        SaveGame { version: CURRENT_SAVEGAME_VERSION, network, trains }
    }
}

/// Rebuilds a world from a document. Fails on a document of another version
/// or with an edge that is no single track; skips saved trains whose trail
/// is broken or whose vehicle count disagrees with it.
pub fn load_game(savegame: &SaveGame) -> (r: Result<World, LoadError>)
    ensures
        savegame.version != CURRENT_SAVEGAME_VERSION ==> r == Err::<World, LoadError>(
            LoadError::VersionMismatch,
        ),
        savegame.version == CURRENT_SAVEGAME_VERSION && !all_tracks(savegame.network@) ==> r
            == Err::<World, LoadError>(LoadError::BrokenGraph),
        r is Ok <==> savegame.version == CURRENT_SAVEGAME_VERSION && all_tracks(savegame.network@),
        r is Ok ==> {
            let w = r->Ok_0;
            let kept = loadable_trains(savegame.trains@);
            &&& w.wf()
            &&& w.graph@ == network_of(savegame.network@)
            &&& w.trains@.len() == kept.len()
            &&& forall|i: int| 0 <= i < kept.len() ==> loaded_as(#[trigger] w.trains@[i], kept[i])
        },
{
    if savegame.version != CURRENT_SAVEGAME_VERSION {
        return Err(LoadError::VersionMismatch);
    }
    let graph = match build_network(&savegame.network) {
        Some(g) => g,
        None => {
            return Err(LoadError::BrokenGraph);
        },
    };
    let mut trains: Vec<TrainBundle> = Vec::new();
    let mut i: usize = 0;
    while i < savegame.trains.len()
        invariant
            i <= savegame.trains.len(),
            trains@.len() == loadable_trains(savegame.trains@.take(i as int)).len(),
            forall|k: int| 0 <= k < trains@.len() ==> (#[trigger] trains@[k]).wf(),
            forall|k: int|
                0 <= k < trains@.len() ==> loaded_as(
                    #[trigger] trains@[k],
                    loadable_trains(savegame.trains@.take(i as int))[k],
                ),
        decreases savegame.trains.len() - i,
    {
        let s = &savegame.trains[i];
        proof {
            let next = savegame.trains@.take(i + 1);
            assert(next.drop_last() =~= savegame.trains@.take(i as int));
        }
        if s.train.check_invariant() && s.wagons.len() == s.train.length as usize {
            let t = load_train(s);
            trains.push(t);
        }
        i += 1;
    }
    proof {
        assert(savegame.trains@.take(savegame.trains@.len() as int) =~= savegame.trains@);
    }
    Ok(World { graph, trains })
}

/// A world from a document where there is one that loads, else a new one.
pub fn load_or_new(savegame: Option<SaveGame>) -> (r: World)
    ensures
        r.wf(),
        (savegame is Some && loads(savegame->Some_0)) ==> {
            let s = savegame->Some_0;
            let kept = loadable_trains(s.trains@);
            &&& r.graph@ == network_of(s.network@)
            &&& r.trains@.len() == kept.len()
            &&& forall|i: int| 0 <= i < kept.len() ==> loaded_as(#[trigger] r.trains@[i], kept[i])
        },
        !(savegame is Some && loads(savegame->Some_0)) ==> {
            &&& r.graph@ == Set::<(Joint, Joint)>::empty()
            &&& r.trains@.len() == 0
        },
{
    match savegame {
        Some(s) => match load_game(&s) {
            Ok(w) => w,
            Err(_) => World::new(),
        },
        None => World::new(),
    }
}

/// What `network_of` holds: both directions of the track of each edge.
proof fn lemma_network_of(edges: Seq<(Joint, Joint)>)
    requires
        all_tracks(edges),
    ensures
        forall|e: (Joint, Joint)|
            network_of(edges).contains(e) <==> exists|i: int|
                0 <= i < edges.len() && (e == track_of(#[trigger] edges[i]).forward_edge() || e
                    == track_of(edges[i]).backward_edge()),
    decreases edges.len(),
{
    if edges.len() > 0 {
        let rest = edges.drop_last();
        assert forall|i: int| 0 <= i < rest.len() implies (spec_from_joints(
            #[trigger] rest[i].0,
            rest[i].1,
        ) is Some) by {
            assert(rest[i] == edges[i]);
        }
        lemma_network_of(rest);
        assert forall|e: (Joint, Joint)|
            network_of(edges).contains(e) <==> exists|i: int|
                0 <= i < edges.len() && (e == track_of(#[trigger] edges[i]).forward_edge() || e
                    == track_of(edges[i]).backward_edge()) by {
            if network_of(rest).contains(e) {
                let i = choose|i: int|
                    0 <= i < rest.len() && (e == track_of(#[trigger] rest[i]).forward_edge() || e
                        == track_of(rest[i]).backward_edge());
                assert(edges[i] == rest[i]);
            }
            if exists|i: int|
                0 <= i < edges.len() && (e == track_of(#[trigger] edges[i]).forward_edge() || e
                    == track_of(edges[i]).backward_edge()) {
                let i = choose|i: int|
                    0 <= i < edges.len() && (e == track_of(#[trigger] edges[i]).forward_edge() || e
                        == track_of(edges[i]).backward_edge());
                if i < rest.len() {
                    assert(rest[i] == edges[i]);
                }
            }
        }
    }
}

/// When every saved train is loadable, all of them are loaded.
proof fn lemma_all_loadable(s: Seq<SaveTrain>)
    requires
        forall|i: int| 0 <= i < s.len() ==> loadable(#[trigger] s[i]),
    ensures
        loadable_trains(s) == s,
    decreases s.len(),
{
    if s.len() > 0 {
        let rest = s.drop_last();
        assert forall|i: int| 0 <= i < rest.len() implies loadable(#[trigger] rest[i]) by {
            assert(rest[i] == s[i]);
        }
        lemma_all_loadable(rest);
        assert(s.last() == s[s.len() - 1]);
        assert(rest.push(s.last()) =~= s);
    }
}

/// Saving a sound world and loading the document gives back its network,
/// and every train with its trail, speed and vehicles, in order.
pub proof fn lemma_save_load_round_trip(w: World, s: SaveGame)
    requires
        w.wf(),
        s.version == CURRENT_SAVEGAME_VERSION,
        forall|e: (Joint, Joint)| s.network@.contains(e) <==> w.graph@.contains(e),
        s.trains@.len() == w.trains@.len(),
        forall|i: int| 0 <= i < s.trains@.len() ==> saved_as(#[trigger] s.trains@[i], w.trains@[i]),
    ensures
        loads(s),
        network_of(s.network@) == w.graph@,
        loadable_trains(s.trains@) == s.trains@,
        forall|i: int|
            0 <= i < s.trains@.len() ==> {
                &&& (#[trigger] s.trains@[i]).train.model() == w.trains@[i].path.model()
                &&& s.trains@[i].velocity == w.trains@[i].velocity
                &&& wagons_to_vehicles(s.trains@[i].wagons@) == w.trains@[i].vehicles@
            },
{
    let edges = s.network@;
    assert forall|i: int| 0 <= i < edges.len() implies (spec_from_joints(
        #[trigger] edges[i].0,
        edges[i].1,
    ) is Some) by {
        assert(edges.contains(edges[i]));
        lemma_double_track_symmetry(w.graph, edges[i].0, edges[i].1);
    }
    lemma_network_of(edges);
    assert forall|e: (Joint, Joint)| network_of(edges).contains(e) <==> w.graph@.contains(e) by {
        if w.graph@.contains(e) {
            assert(edges.contains(e));
            let i = choose|i: int| 0 <= i < edges.len() && edges[i] == e;
            lemma_double_track_symmetry(w.graph, e.0, e.1);
            lemma_from_joints(e.0, e.1);
            assert(e == track_of(edges[i]).forward_edge());
        }
        if network_of(edges).contains(e) {
            let i = choose|i: int|
                0 <= i < edges.len() && (e == track_of(#[trigger] edges[i]).forward_edge() || e
                    == track_of(edges[i]).backward_edge());
            let d = edges[i];
            assert(edges.contains(d));
            lemma_double_track_symmetry(w.graph, d.0, d.1);
            lemma_from_joints(d.0, d.1);
        }
    }
    assert(network_of(edges) =~= w.graph@);
    assert forall|i: int| 0 <= i < s.trains@.len() implies {
        &&& loadable(#[trigger] s.trains@[i])
        &&& wagons_to_vehicles(s.trains@[i].wagons@) == w.trains@[i].vehicles@
    } by {
        let t = w.trains@[i];
        assert(t.wf());
        let v = wagons_to_vehicles(s.trains@[i].wagons@);
        assert forall|j: int| 0 <= j < v.len() implies v[j] == t.vehicles@[j] by {
            assert(s.trains@[i].wagons@[j] == (SaveWagon {
                wagon_type: t.vehicles@[j].tyype,
                stats: t.vehicles@[j].stats,
            }));
            assert(t.vehicles@[j].index.position == j);
        }
        assert(v =~= t.vehicles@);
    }
    lemma_all_loadable(s.trains@);
}

} // verus!
