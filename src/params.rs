use vstd::prelude::*;

verus! {

/// What a ship is generated from.
#[derive(Clone, Copy, Debug, PartialEq, Eq)]
pub struct ShipParameters {
    /// Extent along the spine over which room centres are drawn.
    pub ship_length: i32,
    /// Greatest distance from the spine at which a room centre may settle.
    pub max_width: i32,
    /// The fewest rooms a layout may have.
    pub min_rooms: i32,
    /// How many candidate rooms one placement pass draws.
    pub max_rooms: i32,
    pub room_width_min: i32,
    pub room_width_max: i32,
    pub room_height_min: i32,
    pub room_height_max: i32,
    /// The seed of the run; a fresh one is drawn where it is absent.
    pub seed: Option<u64>,
}

/// Every bound is ordered, rooms are at least two cells on a side, and every
/// coordinate of a layout fits in 32 bits.
pub open spec fn params_valid(p: ShipParameters) -> bool {
    &&& 1 <= p.ship_length
    &&& 1 <= p.max_width
    &&& 0 <= p.min_rooms <= p.max_rooms
    &&& 2 <= p.room_width_min <= p.room_width_max
    &&& 2 <= p.room_height_min <= p.room_height_max
    &&& p.ship_length + p.room_width_max <= i32::MAX
    &&& p.max_width + 2 * p.room_height_max <= i32::MAX
}

impl Default for ShipParameters {
    fn default() -> (r: ShipParameters)
        ensures
            r.ship_length == 64,
            r.max_width == 24,
            r.min_rooms == 10,
            r.max_rooms == 25,
            r.room_width_min == 4,
            r.room_width_max == 16,
            r.room_height_min == 4,
            r.room_height_max == 16,
            r.seed.is_none(),
    {
        ShipParameters {
            ship_length: 64,
            max_width: 24,
            min_rooms: 10,
            max_rooms: 25,
            room_width_min: 4,
            room_width_max: 16,
            room_height_min: 4,
            room_height_max: 16,
            seed: None,
        }
    }
}

impl ShipParameters {
    /// Whether the parameters can be generated from.
    pub fn is_valid(&self) -> (r: bool)
        ensures
            r == params_valid(*self),
    {
        1 <= self.ship_length && 1 <= self.max_width && 0 <= self.min_rooms && self.min_rooms
            <= self.max_rooms && 2 <= self.room_width_min && self.room_width_min
            <= self.room_width_max && 2 <= self.room_height_min && self.room_height_min
            <= self.room_height_max && self.ship_length as i64 + self.room_width_max as i64
            <= i32::MAX as i64 && self.max_width as i64 + 2 * self.room_height_max as i64
            <= i32::MAX as i64
    }

    /// The same parameters with the given seed.
    pub fn with_seed(self, seed: u64) -> (r: ShipParameters)
        ensures
            r == (ShipParameters { seed: Some(seed), ..self }),
    {
        ShipParameters { seed: Some(seed), ..self }
    }
}

} // verus!
