use crate::params::{params_valid, ShipParameters};
use crate::rand::{draw_bool, draw_range, Rand, RandState};
use crate::room::{center_of, is_solid, mirror, overlaps, overlaps_any, room_at, Room};
use vstd::prelude::*;

verus! {

/// How many full placement passes are made before generation gives up on the
/// room-count floor.
pub const MAX_PLACEMENT_ATTEMPTS: u32 = 64;

/// The centre x, width and height drawn for a candidate room, and the state after.
pub open spec fn candidate_draws(p: ShipParameters, s: RandState) -> (int, int, int, RandState) {
    let (x, s1) = draw_range(s, 0, p.ship_length as u32);
    let (w, s2) = draw_range(s1, p.room_width_min as u32, (p.room_width_max + 1) as u32);
    let (h, s3) = draw_range(s2, p.room_height_min as u32, (p.room_height_max + 1) as u32);
    (x as int, w as int, h as int, s3)
}

/// Slides a room centred at `(x, y)` one cell at a time towards the spine.
/// Stops before the first position that overlaps a room of `rooms`, with
/// `false`; or at the first position whose lower edge reaches the spine, with
/// `true`.
pub open spec fn descend(rooms: Seq<Room>, x: int, hw: int, hh: int, y: int) -> (int, bool)
    decreases y - hh,
{
    let y1 = y - 1;
    if y1 - hh <= 0 {
        (y1, true)
    } else if overlaps_any(rooms, room_at(x, y1, hw, hh)) {
        (y, false)
    } else {
        descend(rooms, x, hw, hh, y1)
    }
}

/// The layout after one candidate room is drawn and settled, and the state after.
/// A room that reaches the spine is centred on it on a heads coin where that
/// spot is free (its height rounded down to even, which leaves its half height
/// as it was), and otherwise backs off one cell. A room whose centre settles
/// beyond `max_width` is dropped; one off the spine comes with its mirror image.
#[verifier::opaque]
pub open spec fn candidate_step(p: ShipParameters, rooms: Seq<Room>, s: RandState) -> (Seq<Room>, RandState) {
    let (x, w, h, s3) = candidate_draws(p, s);
    let hw = w / 2;
    let hh = h / 2;
    let (y, spine) = descend(rooms, x, hw, hh, p.max_width + h);
    let (coin, s4) = draw_bool(s3);
    let on_spine = spine && coin && !overlaps_any(rooms, room_at(x, 0, hw, hh));
    let cy = if !spine { y } else if on_spine { 0 } else { y + 1 };
    let s_out = if spine { s4 } else { s3 };
    if cy > p.max_width {
        (rooms, s_out)
    } else if cy > 0 {
        (rooms.push(room_at(x, cy, hw, hh)).push(room_at(x, -cy, hw, hh)), s_out)
    } else {
        (rooms.push(room_at(x, 0, hw, hh)), s_out)
    }
}

/// The layout after `k` candidates of one pass, and the state after.
pub open spec fn pass_prefix(p: ShipParameters, s: RandState, k: nat) -> (Seq<Room>, RandState)
    decreases k,
{
    if k == 0 {
        (Seq::empty(), s)
    } else {
        let (rooms, s1) = pass_prefix(p, s, (k - 1) as nat);
        candidate_step(p, rooms, s1)
    }
}

/// The layout of one full pass of `max_rooms` candidates, and the state after.
#[verifier::opaque]
pub open spec fn placement_pass(p: ShipParameters, s: RandState) -> (Seq<Room>, RandState) {
    pass_prefix(p, s, p.max_rooms as nat)
}

/// Passes until one yields at least `min_rooms` rooms, at most `attempts` of
/// them: that layout, or `None` where every pass fell short; and the state after.
pub open spec fn placement_attempts(p: ShipParameters, s: RandState, attempts: nat) -> (Option<Seq<Room>>, RandState)
    decreases attempts,
{
    let (rooms, s1) = placement_pass(p, s);
    if rooms.len() >= p.min_rooms {
        (Some(rooms), s1)
    } else if attempts <= 1 {
        (None, s1)
    } else {
        placement_attempts(p, s1, (attempts - 1) as nat)
    }
}

/// The layout that placement yields from state `s`, and the state after.
pub open spec fn placement(p: ShipParameters, s: RandState) -> (Option<Seq<Room>>, RandState) {
    placement_attempts(p, s, MAX_PLACEMENT_ATTEMPTS as nat)
}

/// Every coordinate of `r` and of its mirror image fits in 32 bits.
pub open spec fn in_range(r: Room) -> bool {
    &&& r.min_x > i32::MIN
    &&& r.min_y > i32::MIN
    &&& r.max_x > i32::MIN
    &&& r.max_y > i32::MIN
}

/// No two rooms share area.
pub open spec fn pairwise_disjoint(rooms: Seq<Room>) -> bool {
    forall|i: int, j: int|
        0 <= i < rooms.len() && 0 <= j < rooms.len() && i != j ==> !overlaps(
            #[trigger] rooms[i],
            #[trigger] rooms[j],
        )
}

/// `r` is one of `rooms`.
pub open spec fn contains_room(rooms: Seq<Room>, r: Room) -> bool {
    exists|j: int| 0 <= j < rooms.len() && #[trigger] rooms[j] == r
}

/// The mirror image of every room across the spine is a room of the layout.
pub open spec fn mirror_closed(rooms: Seq<Room>) -> bool {
    forall|i: int| 0 <= i < rooms.len() ==> contains_room(rooms, mirror(#[trigger] rooms[i]))
}

/// The properties every layout has: rooms of positive size that do not
/// overlap, mirrored across the spine.
pub open spec fn layout_ok(rooms: Seq<Room>) -> bool {
    &&& pairwise_disjoint(rooms)
    &&& mirror_closed(rooms)
    &&& forall|i: int| 0 <= i < rooms.len() ==> is_solid(#[trigger] rooms[i]) && in_range(rooms[i])
}

/// In a layout, every room whose centre `(x, y)` lies off the spine, `y > 0`,
/// has a mirrored partner: a room centred at `(x, -y)` of the same width and
/// height.
pub proof fn lemma_off_spine_room_mirrored(rooms: Seq<Room>, i: int)
    requires
        layout_ok(rooms),
        0 <= i < rooms.len(),
        center_of(rooms[i]).1 > 0,
    ensures
        exists|j: int|
            0 <= j < rooms.len() && center_of(#[trigger] rooms[j]).0 == center_of(rooms[i]).0
                && center_of(rooms[j]).1 == -center_of(rooms[i]).1
                && rooms[j].max_x - rooms[j].min_x == rooms[i].max_x - rooms[i].min_x
                && rooms[j].max_y - rooms[j].min_y == rooms[i].max_y - rooms[i].min_y,
{
    let r = rooms[i];
    assert(contains_room(rooms, mirror(r)));
    let j = choose|j: int| 0 <= j < rooms.len() && #[trigger] rooms[j] == mirror(r);
    assert(center_of(rooms[j]).0 == center_of(r).0 && center_of(rooms[j]).1 == -center_of(r).1);
}

proof fn lemma_descend(rooms: Seq<Room>, x: int, hw: int, hh: int, y: int)
    requires
        hh >= 1,
        y - hh > 0,
    ensures
        ({
            let (yf, spine) = descend(rooms, x, hw, hh, y);
            let q = if spine { yf + 1 } else { yf };
            &&& q <= y
            &&& q - hh > 0
            &&& q < y ==> !overlaps_any(rooms, room_at(x, q, hw, hh))
            &&& spine ==> yf - hh <= 0
        }),
    decreases y - hh,
{
    let y1 = y - 1;
    if !(y1 - hh <= 0) && !overlaps_any(rooms, room_at(x, y1, hw, hh)) {
        lemma_descend(rooms, x, hw, hh, y1);
    }
}

proof fn lemma_mirror_overlap(a: Room, b: Room)
    requires
        in_range(a),
        in_range(b),
    ensures
        overlaps(mirror(a), mirror(b)) == overlaps(a, b),
{
}

proof fn lemma_candidate_step(p: ShipParameters, rooms: Seq<Room>, s: RandState)
    requires
        params_valid(p),
        layout_ok(rooms),
    ensures
        layout_ok(candidate_step(p, rooms, s).0),
        candidate_step(p, rooms, s).0.len() <= rooms.len() + 2,
{
    let (x, w, h, s3) = candidate_draws(p, s);
    let hw = w / 2;
    let hh = h / 2;
    let start = p.max_width + h;
    lemma_candidate_draws(p, s);
    lemma_descend(rooms, x, hw, hh, start);
    let (y, spine) = descend(rooms, x, hw, hh, start);
    let (coin, s4) = draw_bool(s3);
    let on_spine = spine && coin && !overlaps_any(rooms, room_at(x, 0, hw, hh));
    let cy = if !spine { y } else if on_spine { 0 } else { y + 1 };
    reveal(candidate_step);
    let out = candidate_step(p, rooms, s).0;
    if cy > p.max_width {
    } else if cy > 0 {
        let r = room_at(x, cy, hw, hh);
        let m = room_at(x, -cy, hw, hh);
        assert(mirror(r) == m);
        assert(mirror(m) == r);
        assert(!overlaps_any(rooms, r));
        assert(!overlaps_any(rooms, m)) by {
            if overlaps_any(rooms, m) {
                let i = choose|i: int| 0 <= i < rooms.len() && overlaps(#[trigger] rooms[i], m);
                assert(contains_room(rooms, mirror(rooms[i])));
                let j = choose|j: int| 0 <= j < rooms.len() && #[trigger] rooms[j] == mirror(rooms[i]);
                lemma_mirror_overlap(rooms[i], m);
                assert(overlaps(rooms[j], r));
            }
        }
        lemma_commit_pair(rooms, r, m);
    } else {
        let r = room_at(x, 0, hw, hh);
        assert(mirror(r) == r);
        lemma_commit_single(rooms, r);
    }
}

proof fn lemma_commit_pair(rooms: Seq<Room>, r: Room, m: Room)
    requires
        layout_ok(rooms),
        !overlaps_any(rooms, r),
        !overlaps_any(rooms, m),
        !overlaps(r, m),
        mirror(r) == m,
        mirror(m) == r,
        is_solid(r),
        is_solid(m),
        in_range(r),
        in_range(m),
    ensures
        layout_ok(rooms.push(r).push(m)),
{
    let out = rooms.push(r).push(m);
    let n = rooms.len() as int;
    assert forall|i: int| 0 <= i < out.len() implies is_solid(#[trigger] out[i]) && in_range(out[i]) by {
        if i < n {
            assert(out[i] == rooms[i]);
        }
    }
    assert forall|i: int, j: int|
        0 <= i < out.len() && 0 <= j < out.len() && i != j implies !overlaps(
            #[trigger] out[i],
            #[trigger] out[j],
        ) by {
        if i < n && j < n {
            assert(out[i] == rooms[i] && out[j] == rooms[j]);
        } else if i < n && j >= n {
            assert(!overlaps(rooms[i], out[j]));
        } else if j < n && i >= n {
            assert(!overlaps(rooms[j], out[i]));
        }
    }
    assert forall|i: int| 0 <= i < out.len() implies contains_room(out, mirror(#[trigger] out[i])) by {
        if i < n {
            assert(contains_room(rooms, mirror(rooms[i])));
            let j = choose|j: int| 0 <= j < rooms.len() && #[trigger] rooms[j] == mirror(rooms[i]);
            assert(out[j] == mirror(out[i]));
        } else if i == n {
            assert(out[n + 1] == mirror(out[i]));
        } else {
            assert(out[n] == mirror(out[i]));
        }
    }
    assert(pairwise_disjoint(out));
    assert(mirror_closed(out));
}

proof fn lemma_commit_single(rooms: Seq<Room>, r: Room)
    requires
        layout_ok(rooms),
        !overlaps_any(rooms, r),
        mirror(r) == r,
        is_solid(r),
        in_range(r),
    ensures
        layout_ok(rooms.push(r)),
{
    let out = rooms.push(r);
    let n = rooms.len() as int;
    assert forall|i: int| 0 <= i < out.len() implies is_solid(#[trigger] out[i]) && in_range(out[i]) by {
        if i < n {
            assert(out[i] == rooms[i]);
        }
    }
    assert forall|i: int, j: int|
        0 <= i < out.len() && 0 <= j < out.len() && i != j implies !overlaps(
            #[trigger] out[i],
            #[trigger] out[j],
        ) by {
        if i < n && j < n {
            assert(out[i] == rooms[i] && out[j] == rooms[j]);
        } else if i < n && j >= n {
            assert(!overlaps(rooms[i], out[j]));
        } else if j < n && i >= n {
            assert(!overlaps(rooms[j], out[i]));
        }
    }
    assert forall|i: int| 0 <= i < out.len() implies contains_room(out, mirror(#[trigger] out[i])) by {
        if i < n {
            assert(contains_room(rooms, mirror(rooms[i])));
            let j = choose|j: int| 0 <= j < rooms.len() && #[trigger] rooms[j] == mirror(rooms[i]);
            assert(out[j] == mirror(out[i]));
        } else {
            assert(out[n] == mirror(out[i]));
        }
    }
    assert(pairwise_disjoint(out));
    assert(mirror_closed(out));
}

proof fn lemma_candidate_draws(p: ShipParameters, s: RandState)
    requires
        params_valid(p),
    ensures
        ({
            let (x, w, h, s3) = candidate_draws(p, s);
            &&& 0 <= x < p.ship_length
            &&& p.room_width_min <= w <= p.room_width_max
            &&& p.room_height_min <= h <= p.room_height_max
        }),
{
    let (x, s1) = draw_range(s, 0, p.ship_length as u32);
    let (w, s2) = draw_range(s1, p.room_width_min as u32, (p.room_width_max + 1) as u32);
    crate::rand::lemma_draw_range(s, 0, p.ship_length as u32);
    crate::rand::lemma_draw_range(s1, p.room_width_min as u32, (p.room_width_max + 1) as u32);
    crate::rand::lemma_draw_range(s2, p.room_height_min as u32, (p.room_height_max + 1) as u32);
}

proof fn lemma_pass_prefix(p: ShipParameters, s: RandState, k: nat)
    requires
        params_valid(p),
    ensures
        layout_ok(pass_prefix(p, s, k).0),
        pass_prefix(p, s, k).0.len() <= 2 * k,
    decreases k,
{
    if k > 0 {
        lemma_pass_prefix(p, s, (k - 1) as nat);
        let (rooms, s1) = pass_prefix(p, s, (k - 1) as nat);
        lemma_candidate_step(p, rooms, s1);
    }
}

/// Whether some room of `rooms` overlaps `r`.
pub fn overlaps_existing(rooms: &Vec<Room>, r: &Room) -> (b: bool)
    ensures
        b == overlaps_any(rooms@, *r),
{
    let mut i: usize = 0;
    while i < rooms.len()
        invariant
            i <= rooms@.len(),
            forall|k: int| 0 <= k < i ==> !overlaps(#[trigger] rooms@[k], *r),
        decreases rooms@.len() - i,
    {
        if rooms[i].overlaps(r) {
            return true;
        }
        i = i + 1;
    }
    false
}

fn descend_exec(rooms: &Vec<Room>, x: i32, hw: i32, hh: i32, start: i32) -> (r: (i32, bool))
    requires
        0 <= hw,
        1 <= hh,
        i32::MIN < x - hw,
        x + hw <= i32::MAX,
        start - hh > 0,
        start + hh <= i32::MAX,
    ensures
        (r.0 as int, r.1) == descend(rooms@, x as int, hw as int, hh as int, start as int),
{
    let mut y: i32 = start;
    loop
        invariant
            0 <= hw,
            1 <= hh,
            i32::MIN < x - hw,
            x + hw <= i32::MAX,
            hh < y <= start,
            start + hh <= i32::MAX,
            descend(rooms@, x as int, hw as int, hh as int, start as int) == descend(
                rooms@,
                x as int,
                hw as int,
                hh as int,
                y as int,
            ),
        decreases y,
    {
        let y1 = y - 1;
        if y1 - hh <= 0 {
            return (y1, true);
        }
        let candidate = Room::from_center_half(x, y1, hw, hh);
        if overlaps_existing(rooms, &candidate) {
            return (y, false);
        }
        y = y1;
    }
}

/// Draws one candidate room, settles it and adds it to `rooms` (with its
/// mirror image where it is off the spine) unless it does not fit.
pub fn place_candidate(params: &ShipParameters, rooms: &mut Vec<Room>, rng: &mut Rand)
    requires
        params_valid(*params),
        old(rooms)@.len() + 2 <= usize::MAX,
    ensures
        (final(rooms)@, final(rng)@) == candidate_step(*params, old(rooms)@, old(rng)@),
{
    let ghost s0 = rng@;
    proof {
        lemma_candidate_draws(*params, s0);
        reveal(candidate_step);
    }
    let x = rng.rand_range(0, params.ship_length as u32) as i32;
    let w = rng.rand_range(params.room_width_min as u32, (params.room_width_max + 1) as u32) as i32;
    let h = rng.rand_range(params.room_height_min as u32, (params.room_height_max + 1) as u32) as i32;
    let hw = w / 2;
    let hh = h / 2;
    let start = params.max_width + h;
    let (y, spine) = descend_exec(rooms, x, hw, hh, start);
    proof {
        lemma_descend(rooms@, x as int, hw as int, hh as int, start as int);
    }
    let cy: i32;
    if spine {
        let coin = rng.rand_bool();
        if coin && !overlaps_existing(rooms, &Room::from_center_half(x, 0, hw, hh)) {
            cy = 0;
        } else {
            cy = y + 1;
        }
    } else {
        cy = y;
    }
    if cy > params.max_width {
        return;
    }
    if cy > 0 {
        rooms.push(Room::from_center_half(x, cy, hw, hh));
        rooms.push(Room::from_center_half(x, -cy, hw, hh));
    } else {
        rooms.push(Room::from_center_half(x, 0, hw, hh));
    }
}

/// One pass of `max_rooms` candidates from an empty layout.
pub fn place_pass(params: &ShipParameters, rng: &mut Rand) -> (rooms: Vec<Room>)
    requires
        params_valid(*params),
    ensures
        (rooms@, final(rng)@) == placement_pass(*params, old(rng)@),
        layout_ok(rooms@),
{
    let ghost s0 = rng@;
    let mut rooms: Vec<Room> = Vec::new();
    let mut i: i32 = 0;
    while i < params.max_rooms
        invariant
            params_valid(*params),
            0 <= i <= params.max_rooms,
            (rooms@, rng@) == pass_prefix(*params, s0, i as nat),
            rooms@.len() <= 2 * i,
        decreases params.max_rooms - i,
    {
        proof {
            lemma_pass_prefix(*params, s0, i as nat);
            lemma_pass_prefix(*params, s0, (i + 1) as nat);
        }
        place_candidate(params, &mut rooms, rng);
        i = i + 1;
    }
    proof {
        lemma_pass_prefix(*params, s0, params.max_rooms as nat);
        reveal(placement_pass);
    }
    rooms
}

/// Placement passes until one yields at least `min_rooms` rooms, at most
/// `MAX_PLACEMENT_ATTEMPTS` of them; `None` where every pass fell short.
pub fn place_rooms(params: &ShipParameters, rng: &mut Rand) -> (r: Option<Vec<Room>>)
    requires
        params_valid(*params),
    ensures
        final(rng)@ == placement(*params, old(rng)@).1,
        match r {
            Some(rooms) => placement(*params, old(rng)@).0 == Some(rooms@),
            None => placement(*params, old(rng)@).0.is_none(),
        },
        r matches Some(rooms) ==> layout_ok(rooms@) && rooms@.len() >= params.min_rooms,
{
    let ghost s0 = rng@;
    let mut left: u32 = MAX_PLACEMENT_ATTEMPTS;
    loop
        invariant
            params_valid(*params),
            1 <= left <= MAX_PLACEMENT_ATTEMPTS,
            s0 == old(rng)@,
            placement(*params, s0) == placement_attempts(*params, rng@, left as nat),
        decreases left,
    {
        let ghost before = rng@;
        let rooms = place_pass(params, rng);
        proof {
            reveal_with_fuel(placement_attempts, 1);
        }
        if rooms.len() >= params.min_rooms as usize {
            assert(placement_attempts(*params, before, left as nat) == (Some(rooms@), rng@));
            return Some(rooms);
        }
        if left <= 1 {
            assert(placement_attempts(*params, before, left as nat) == (None::<Seq<Room>>, rng@));
            return None;
        }
        assert(placement_attempts(*params, before, left as nat) == placement_attempts(
            *params,
            rng@,
            (left - 1) as nat,
        ));
        left = left - 1;
    }
}

} // verus!
