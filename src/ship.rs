use crate::forest::{forest_of, is_spanning_forest, kruskal_of, minimum_spanning_forest, SpanningForest};
use crate::graph::{build_graph, edges_within, graph_of, Edge};
use crate::params::{params_valid, ShipParameters};
use crate::placement::{layout_ok, place_rooms, placement};
use crate::rand::{Rand, RandState};
use crate::room::Room;
use crate::xoshiro::seeded_state;
use vstd::prelude::*;

verus! {

/// Why no ship was generated.
#[derive(Clone, Copy, Debug, PartialEq, Eq, Structural)]
pub enum GenerateError {
    /// The parameters break one of their bounds.
    InvalidParameters,
    /// Every placement pass yielded fewer than `min_rooms` rooms.
    RoomFloorNotMet,
}

impl GenerateError {
    /// A sentence that says what went wrong.
    pub fn message(&self) -> (r: String)
        ensures
            *self == GenerateError::InvalidParameters ==> r@ == "invalid ship parameters"@,
            *self == GenerateError::RoomFloorNotMet ==> r@ == "could not place the minimum number of rooms"@,
    {
        proof {
            reveal_strlit("invalid ship parameters");
            reveal_strlit("could not place the minimum number of rooms");
        }
        match self {
            GenerateError::InvalidParameters => String::from_str("invalid ship parameters"),
            GenerateError::RoomFloorNotMet => String::from_str("could not place the minimum number of rooms"),
        }
    }
}

/// A generated ship: its rooms, the room graph and a minimum spanning forest of it.
pub struct Rooms {
    rooms: Vec<Room>,
    graph: Vec<Edge>,
    mst: SpanningForest,
}

/// The rooms, graph edges, forest edges and component labels of a ship.
pub type ShipView = (Seq<Room>, Seq<Edge>, Seq<Edge>, Seq<usize>);

/// The ship generated from parameters `p` with the generator in state `s`.
pub open spec fn ship_from(p: ShipParameters, s: RandState) -> Result<ShipView, GenerateError> {
    if !params_valid(p) {
        Err(GenerateError::InvalidParameters)
    } else {
        match placement(p, s).0 {
            None => Err(GenerateError::RoomFloorNotMet),
            Some(rooms) => {
                let g = graph_of(rooms);
                let (component, forest) = forest_of(rooms.len(), g, kruskal_of(g));
                Ok((rooms, g, forest, component))
            },
        }
    }
}

/// What a generation call returned, as views.
pub open spec fn outcome(r: Result<Rooms, GenerateError>) -> Result<ShipView, GenerateError> {
    match r {
        Ok(ship) => Ok(ship.view()),
        Err(e) => Err(e),
    }
}

/// What holds of every generated ship: rooms that do not overlap, mirrored
/// across the spine, at least `min_rooms` of them; a graph over them; and a
/// spanning forest of that graph.
pub open spec fn ship_ok(p: ShipParameters, v: ShipView) -> bool {
    &&& layout_ok(v.0)
    &&& v.0.len() >= p.min_rooms
    &&& edges_within(v.0.len() as int, v.1)
    &&& is_spanning_forest(v.0.len() as int, v.1, v.2, v.3)
}

impl View for Rooms {
    type V = ShipView;

    closed spec fn view(&self) -> ShipView {
        (self.rooms@, self.graph@, self.mst.edges@, self.mst.component@)
    }
}

impl Rooms {
    /// Number of rooms.
    pub fn len(&self) -> (r: usize)
        ensures
            r == self@.0.len(),
    {
        self.rooms.len()
    }

    pub fn is_empty(&self) -> (r: bool)
        ensures
            r == (self@.0.len() == 0),
    {
        self.rooms.len() == 0
    }

    /// The rooms, in the order they were placed.
    pub fn iter(&self) -> (r: &[Room])
        ensures
            r@ == self@.0,
    {
        self.rooms.as_slice()
    }

    /// The edges of the room graph.
    pub fn graph(&self) -> (r: &[Edge])
        ensures
            r@ == self@.1,
    {
        self.graph.as_slice()
    }

    /// The edges of the minimum spanning forest.
    pub fn mst(&self) -> (r: &[Edge])
        ensures
            r@ == self@.2,
    {
        self.mst.edges.as_slice()
    }

    /// The representative room of each room's component in the forest.
    pub fn components(&self) -> (r: &[usize])
        ensures
            r@ == self@.3,
    {
        self.mst.component.as_slice()
    }

    /// The smallest rectangle holding every room, if there is a room.
    pub fn bounding_box(&self) -> (r: Option<Room>)
        ensures
            self@.0.len() == 0 <==> r.is_none(),
            r matches Some(b) ==> {
                &&& forall|i: int|
                    0 <= i < self@.0.len() ==> b.min_x <= (#[trigger] self@.0[i]).min_x && b.min_y
                        <= self@.0[i].min_y && self@.0[i].max_x <= b.max_x && self@.0[i].max_y
                        <= b.max_y
                &&& exists|i: int| 0 <= i < self@.0.len() && (#[trigger] self@.0[i]).min_x == b.min_x
                &&& exists|i: int| 0 <= i < self@.0.len() && (#[trigger] self@.0[i]).min_y == b.min_y
                &&& exists|i: int| 0 <= i < self@.0.len() && (#[trigger] self@.0[i]).max_x == b.max_x
                &&& exists|i: int| 0 <= i < self@.0.len() && (#[trigger] self@.0[i]).max_y == b.max_y
            },
    {
        let rooms = &self.rooms;
        if rooms.len() == 0 {
            return None;
        }
        let mut b = rooms[0];
        let mut i: usize = 1;
        while i < rooms.len()
            invariant
                1 <= i <= rooms@.len(),
                forall|k: int|
                    0 <= k < i ==> b.min_x <= (#[trigger] rooms@[k]).min_x && b.min_y <= rooms@[k].min_y
                        && rooms@[k].max_x <= b.max_x && rooms@[k].max_y <= b.max_y,
                exists|k: int| 0 <= k < i && (#[trigger] rooms@[k]).min_x == b.min_x,
                exists|k: int| 0 <= k < i && (#[trigger] rooms@[k]).min_y == b.min_y,
                exists|k: int| 0 <= k < i && (#[trigger] rooms@[k]).max_x == b.max_x,
                exists|k: int| 0 <= k < i && (#[trigger] rooms@[k]).max_y == b.max_y,
            decreases rooms@.len() - i,
        {
            let r = rooms[i];
            if r.min_x < b.min_x {
                b.min_x = r.min_x;
            }
            if r.min_y < b.min_y {
                b.min_y = r.min_y;
            }
            if r.max_x > b.max_x {
                b.max_x = r.max_x;
            }
            if r.max_y > b.max_y {
                b.max_y = r.max_y;
            }
            i = i + 1;
        }
        Some(b)
    }
}

/// Generates a ship with the given generator: validates the parameters before
/// any draw, places rooms until the room-count floor is met, then builds the
/// room graph and its minimum spanning forest.
pub fn generate_with(params: &ShipParameters, rng: &mut Rand) -> (r: Result<Rooms, GenerateError>)
    ensures
        outcome(r) == ship_from(*params, old(rng)@),
        r matches Ok(ship) ==> ship_ok(*params, ship@),
        !params_valid(*params) ==> final(rng)@ == old(rng)@,
{
    if !params.is_valid() {
        return Err(GenerateError::InvalidParameters);
    }
    let rooms = match place_rooms(params, rng) {
        Some(rooms) => rooms,
        None => {
            return Err(GenerateError::RoomFloorNotMet);
        },
    };
    let graph = build_graph(&rooms);
    let mst = minimum_spanning_forest(rooms.len(), &graph);
    Ok(Rooms { rooms, graph, mst })
}

/// Generates a ship from the parameters' seed, or from a seed taken from the
/// clock where they have none.
pub fn generate(params: &ShipParameters) -> (r: Result<Rooms, GenerateError>)
    ensures
        params.seed matches Some(seed) ==> outcome(r) == ship_from(*params, seeded_state(seed)),
        exists|seed: u64| outcome(r) == ship_from(*params, #[trigger] seeded_state(seed)),
        r matches Ok(ship) ==> ship_ok(*params, ship@),
{
    if !params.is_valid() {
        return Err(GenerateError::InvalidParameters);
    }
    let mut rng = match params.seed {
        Some(seed) => Rand::from_seed(seed),
        None => Rand::new(),
    };
    generate_with(params, &mut rng)
}

/// Generation is a function of the parameters and the seed: two generations
/// from the same parameters and seed give the same rooms in the same order, the
/// same graph and the same spanning forest, or the same error.
pub proof fn lemma_generation_deterministic(
    p: ShipParameters,
    seed: u64,
    a: Result<Rooms, GenerateError>,
    b: Result<Rooms, GenerateError>,
)
    requires
        outcome(a) == ship_from(p, seeded_state(seed)),
        outcome(b) == ship_from(p, seeded_state(seed)),
    ensures
        outcome(a) == outcome(b),
{
}

} // verus!
