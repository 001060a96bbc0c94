use vstd::prelude::*;

verus! {

/// An axis-aligned rectangle of grid cells, from its `min` corner to its `max`
/// corner.
#[derive(Clone, Copy, Debug, PartialEq, Eq, Structural)]
pub struct Room {
    pub min_x: i32,
    pub min_y: i32,
    pub max_x: i32,
    pub max_y: i32,
}

pub open spec fn min_int(a: int, b: int) -> int {
    if a <= b { a } else { b }
}

pub open spec fn max_int(a: int, b: int) -> int {
    if a >= b { a } else { b }
}

/// The rectangle centred on `(x, y)` that reaches `hw` cells left and right and
/// `hh` cells up and down.
pub open spec fn room_at(x: int, y: int, hw: int, hh: int) -> Room {
    Room { min_x: (x - hw) as i32, min_y: (y - hh) as i32, max_x: (x + hw) as i32, max_y: (y + hh) as i32 }
}

/// The two rectangles share an area greater than zero.
pub open spec fn overlaps(a: Room, b: Room) -> bool {
    &&& a.min_x < b.max_x
    &&& b.min_x < a.max_x
    &&& a.min_y < b.max_y
    &&& b.min_y < a.max_y
}

/// Some rectangle of `rooms` overlaps `r`.
pub open spec fn overlaps_any(rooms: Seq<Room>, r: Room) -> bool {
    exists|i: int| 0 <= i < rooms.len() && overlaps(#[trigger] rooms[i], r)
}

/// The reflection of `r` across the spine `y = 0`.
pub open spec fn mirror(r: Room) -> Room {
    Room { min_x: r.min_x, min_y: -r.max_y as i32, max_x: r.max_x, max_y: -r.min_y as i32 }
}

/// The length of `[lo1, hi1] ∩ [lo2, hi2]`, zero where they are apart.
pub open spec fn span_overlap(lo1: int, hi1: int, lo2: int, hi2: int) -> int {
    let len = min_int(hi1, hi2) - max_int(lo1, lo2);
    if len > 0 { len } else { 0 }
}

/// The area that `b` shares with `a` grown by one cell on every side.
pub open spec fn contact_area(a: Room, b: Room) -> int {
    span_overlap(a.min_x - 1, a.max_x + 1, b.min_x as int, b.max_x as int) * span_overlap(
        a.min_y - 1,
        a.max_y + 1,
        b.min_y as int,
        b.max_y as int,
    )
}

/// `b` touches `a` along more than a single corner cell.
pub open spec fn adjacent(a: Room, b: Room) -> bool {
    contact_area(a, b) > 1
}

/// Both sides of the rectangle are at least two cells long.
pub open spec fn is_solid(r: Room) -> bool {
    r.min_x + 2 <= r.max_x && r.min_y + 2 <= r.max_y
}

proof fn lemma_span_contact(lo1: int, hi1: int, lo2: int, hi2: int)
    requires
        lo1 + 2 <= hi1,
        lo2 + 2 <= hi2,
    ensures
        span_overlap(lo1 - 1, hi1 + 1, lo2, hi2) >= 2 <==> span_overlap(lo2 - 1, hi2 + 1, lo1, hi1) >= 2,
        span_overlap(lo1 - 1, hi1 + 1, lo2, hi2) == 1 <==> span_overlap(lo2 - 1, hi2 + 1, lo1, hi1) == 1,
        span_overlap(lo1 - 1, hi1 + 1, lo2, hi2) >= 0,
        span_overlap(lo2 - 1, hi2 + 1, lo1, hi1) >= 0,
{
}

/// Adjacency does not depend on which of two rectangles is grown: for
/// rectangles whose sides are at least two cells long, `b` touches `a` grown by
/// one cell in more than one cell exactly when `a` touches `b` grown by one cell
/// in more than one cell.
pub proof fn lemma_adjacency_symmetric(a: Room, b: Room)
    requires
        is_solid(a),
        is_solid(b),
    ensures
        adjacent(a, b) == adjacent(b, a),
{
    lemma_span_contact(a.min_x as int, a.max_x as int, b.min_x as int, b.max_x as int);
    lemma_span_contact(a.min_y as int, a.max_y as int, b.min_y as int, b.max_y as int);
    let ax = span_overlap(a.min_x - 1, a.max_x + 1, b.min_x as int, b.max_x as int);
    let ay = span_overlap(a.min_y - 1, a.max_y + 1, b.min_y as int, b.max_y as int);
    let bx = span_overlap(b.min_x - 1, b.max_x + 1, a.min_x as int, a.max_x as int);
    let by = span_overlap(b.min_y - 1, b.max_y + 1, a.min_y as int, a.max_y as int);
    assert(ax * ay > 1 <==> bx * by > 1) by (nonlinear_arith)
        requires
            ax >= 0, ay >= 0, bx >= 0, by >= 0,
            ax >= 2 <==> bx >= 2,
            ax == 1 <==> bx == 1,
            ay >= 2 <==> by >= 2,
            ay == 1 <==> by == 1;
}

impl Room {
    /// The rectangle centred on `(x, y)` reaching `hw` and `hh` cells out.
    pub fn from_center_half(x: i32, y: i32, hw: i32, hh: i32) -> (r: Room)
        requires
            hw >= 0,
            hh >= 0,
            i32::MIN <= x - hw,
            x + hw <= i32::MAX,
            i32::MIN <= y - hh,
            y + hh <= i32::MAX,
        ensures
            r == room_at(x as int, y as int, hw as int, hh as int),
    {
        Room { min_x: x - hw, min_y: y - hh, max_x: x + hw, max_y: y + hh }
    }

    /// The centre cell, each coordinate rounded towards zero.
    pub fn center(&self) -> (r: (i32, i32))
        ensures
            r == center_of(*self),
    {
        (half_toward_zero(self.min_x as i64 + self.max_x as i64), half_toward_zero(
            self.min_y as i64 + self.max_y as i64,
        ))
    }

    pub fn width(&self) -> (r: i64)
        ensures
            r == self.max_x - self.min_x,
    {
        self.max_x as i64 - self.min_x as i64
    }

    pub fn height(&self) -> (r: i64)
        ensures
            r == self.max_y - self.min_y,
    {
        self.max_y as i64 - self.min_y as i64
    }

    /// The two rectangles share an area greater than zero.
    pub fn overlaps(&self, other: &Room) -> (r: bool)
        ensures
            r == overlaps(*self, *other),
    {
        self.min_x < other.max_x && other.min_x < self.max_x && self.min_y < other.max_y
            && other.min_y < self.max_y
    }

    /// The area that `other` shares with this rectangle grown by one cell on
    /// every side.
    pub fn contact_area(&self, other: &Room) -> (r: i128)
        ensures
            r == contact_area(*self, *other),
    {
        let w = span_overlap_exec(self.min_x as i64 - 1, self.max_x as i64 + 1, other.min_x as i64, other.max_x as i64);
        let h = span_overlap_exec(self.min_y as i64 - 1, self.max_y as i64 + 1, other.min_y as i64, other.max_y as i64);
        assert(0 <= w * h <= 0x1_0000_0000 * 0x1_0000_0000) by (nonlinear_arith)
            requires 0 <= w <= 0x1_0000_0000, 0 <= h <= 0x1_0000_0000;
        w as i128 * h as i128
    }

    /// `other` touches this rectangle along more than a single corner cell.
    pub fn is_adjacent(&self, other: &Room) -> (r: bool)
        ensures
            r == adjacent(*self, *other),
    {
        self.contact_area(other) > 1
    }
}

/// Half of `v`, rounded towards zero.
pub open spec fn half_int(v: int) -> int {
    if v >= 0 { v / 2 } else { -((-v) / 2) }
}

/// The centre cell of `r`, each coordinate rounded towards zero.
pub open spec fn center_of(r: Room) -> (i32, i32) {
    (half_int(r.min_x + r.max_x) as i32, half_int(r.min_y + r.max_y) as i32)
}

fn half_toward_zero(v: i64) -> (r: i32)
    requires
        2 * i32::MIN <= v <= 2 * i32::MAX,
    ensures
        r == half_int(v as int),
{
    let h: i64 = if v >= 0 { v / 2 } else { -((-v) / 2) };
    h as i32
}

fn span_overlap_exec(lo1: i64, hi1: i64, lo2: i64, hi2: i64) -> (r: i64)
    requires
        -0x1_0000_0000 <= lo1 <= 0x1_0000_0000,
        -0x1_0000_0000 <= hi1 <= 0x1_0000_0000,
        i32::MIN <= lo2 <= i32::MAX,
        i32::MIN <= hi2 <= i32::MAX,
    ensures
        r == span_overlap(lo1 as int, hi1 as int, lo2 as int, hi2 as int),
        0 <= r <= 0x1_0000_0000,
{
    let hi = if hi1 <= hi2 { hi1 } else { hi2 };
    let lo = if lo1 >= lo2 { lo1 } else { lo2 };
    if hi - lo > 0 { hi - lo } else { 0 }
}

} // verus!
