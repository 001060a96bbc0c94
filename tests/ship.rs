use payload::forest::SpanningForest;
use payload::params::ShipParameters;
use payload::placement::{overlaps_existing, place_pass, place_rooms};
use payload::rand::Rand;
use payload::room::Room;
use payload::ship::{generate, generate_with, GenerateError, Rooms};

fn example() -> ShipParameters {
    ShipParameters {
        ship_length: 64,
        max_width: 24,
        min_rooms: 10,
        max_rooms: 25,
        room_width_min: 4,
        room_width_max: 16,
        room_height_min: 4,
        room_height_max: 16,
        seed: Some(42),
    }
}

fn mirror(r: &Room) -> Room {
    Room { min_x: r.min_x, min_y: -r.max_y, max_x: r.max_x, max_y: -r.min_y }
}

fn check_ship(p: &ShipParameters, ship: &Rooms) {
    let rooms = ship.iter();
    assert!(rooms.len() >= p.min_rooms as usize);
    for (i, a) in rooms.iter().enumerate() {
        assert!(a.min_x < a.max_x && a.min_y < a.max_y);
        for (j, b) in rooms.iter().enumerate() {
            if i != j {
                assert!(!a.overlaps(b), "rooms {i} and {j} overlap");
            }
        }
        assert!(rooms.contains(&mirror(a)));
    }
    for e in ship.graph() {
        assert!(e.a < e.b && e.b < rooms.len());
    }
    for e in ship.mst() {
        assert!(ship.graph().contains(e));
    }
    let comps = ship.components();
    let count = (0..rooms.len()).filter(|v| comps[*v] == *v).count();
    assert_eq!(ship.mst().len(), rooms.len() - count);
    for e in ship.graph() {
        assert_eq!(comps[e.a], comps[e.b]);
    }
}

#[test]
fn default_parameters() {
    let p = ShipParameters::default();
    assert_eq!(p.ship_length, 64);
    assert_eq!(p.max_width, 24);
    assert_eq!((p.min_rooms, p.max_rooms), (10, 25));
    assert_eq!((p.room_width_min, p.room_width_max), (4, 16));
    assert_eq!((p.room_height_min, p.room_height_max), (4, 16));
    assert_eq!(p.seed, None);
    assert!(p.is_valid());
    assert_eq!(p.with_seed(42), example());
}

#[test]
fn example_scenario_is_reproducible() {
    let p = example();
    let a = generate(&p).expect("the example generates");
    let b = generate(&p).expect("the example generates");
    assert_eq!(a.iter(), b.iter());
    assert_eq!(a.graph(), b.graph());
    assert_eq!(a.mst(), b.mst());
    assert_eq!(a.components(), b.components());
    check_ship(&p, &a);
}

#[test]
fn generation_is_deterministic_for_many_seeds() {
    for seed in 0..20u64 {
        let p = example().with_seed(seed);
        match (generate(&p), generate(&p)) {
            (Ok(a), Ok(b)) => {
                assert_eq!(a.iter(), b.iter());
                assert_eq!(a.graph(), b.graph());
                assert_eq!(a.mst(), b.mst());
                check_ship(&p, &a);
            },
            (Err(x), Err(y)) => assert_eq!(x, y),
            _ => panic!("two runs with seed {seed} disagree"),
        }
    }
}

#[test]
fn small_rooms_still_do_not_overlap() {
    for seed in 0..20u64 {
        let p = ShipParameters {
            ship_length: 16,
            max_width: 6,
            min_rooms: 0,
            max_rooms: 40,
            room_width_min: 2,
            room_width_max: 3,
            room_height_min: 2,
            room_height_max: 3,
            seed: Some(seed),
        };
        let ship = generate(&p).expect("no floor to miss");
        check_ship(&p, &ship);
    }
}

#[test]
fn generate_with_matches_generate() {
    let p = example();
    let a = generate(&p).unwrap();
    let mut rng = Rand::from_seed(42);
    let b = generate_with(&p, &mut rng).unwrap();
    assert_eq!(a.iter(), b.iter());
    assert_eq!(a.mst(), b.mst());
}

#[test]
fn unseeded_generation_succeeds() {
    let p = ShipParameters::default();
    let ship = generate(&p).expect("defaults generate");
    check_ship(&p, &ship);
}

#[test]
fn width_bounds_out_of_order_are_invalid() {
    let p = ShipParameters { room_width_min: 17, ..example() };
    assert!(!p.is_valid());
    assert_eq!(generate(&p).err(), Some(GenerateError::InvalidParameters));
}

#[test]
fn room_bounds_out_of_order_are_invalid() {
    let p = ShipParameters { min_rooms: 30, max_rooms: 25, ..example() };
    assert_eq!(generate(&p).err(), Some(GenerateError::InvalidParameters));
}

#[test]
fn invalid_parameters_draw_nothing() {
    let p = ShipParameters { ship_length: 0, ..example() };
    let mut rng = Rand::from_seed(1);
    assert_eq!(generate_with(&p, &mut rng).err(), Some(GenerateError::InvalidParameters));
    assert_eq!(rng.rand_u64(), Rand::from_seed(1).rand_u64());
}

#[test]
fn unreachable_floor_fails() {
    let p = ShipParameters {
        ship_length: 1,
        max_width: 1,
        min_rooms: 5,
        max_rooms: 5,
        room_width_min: 2,
        room_width_max: 2,
        room_height_min: 2,
        room_height_max: 2,
        seed: Some(3),
    };
    assert_eq!(generate(&p).err(), Some(GenerateError::RoomFloorNotMet));
    assert_eq!(GenerateError::RoomFloorNotMet.message(), "could not place the minimum number of rooms");
}

#[test]
fn zero_candidates_give_an_empty_ship() {
    let p = ShipParameters { min_rooms: 0, max_rooms: 0, ..example() };
    let ship = generate(&p).unwrap();
    assert!(ship.is_empty());
    assert_eq!(ship.len(), 0);
    assert!(ship.graph().is_empty());
    assert!(ship.mst().is_empty());
    assert_eq!(ship.bounding_box(), None);
}

#[test]
fn bounding_box_holds_every_room() {
    let ship = generate(&example()).unwrap();
    let b = ship.bounding_box().unwrap();
    assert_eq!(b.min_x, ship.iter().iter().map(|r| r.min_x).min().unwrap());
    assert_eq!(b.min_y, ship.iter().iter().map(|r| r.min_y).min().unwrap());
    assert_eq!(b.max_x, ship.iter().iter().map(|r| r.max_x).max().unwrap());
    assert_eq!(b.max_y, ship.iter().iter().map(|r| r.max_y).max().unwrap());
    assert_eq!(b.min_y, -b.max_y);
}

#[test]
fn placement_pass_layout_is_symmetric() {
    let p = example();
    let mut rng = Rand::from_seed(5);
    let rooms = place_pass(&p, &mut rng);
    for r in &rooms {
        assert!(rooms.contains(&mirror(r)));
        let (_, cy) = r.center();
        assert!(cy.abs() <= p.max_width);
    }
}

#[test]
fn place_rooms_meets_floor() {
    let p = example();
    let mut rng = Rand::from_seed(6);
    let rooms = place_rooms(&p, &mut rng).unwrap();
    assert!(rooms.len() >= 10);
    for r in &rooms {
        let others: Vec<Room> = rooms.iter().filter(|o| *o != r).cloned().collect();
        assert!(!overlaps_existing(&others, r));
    }
}

#[test]
fn spanning_forest_fields_are_public() {
    let ship = generate(&example()).unwrap();
    let f = SpanningForest { edges: ship.mst().to_vec(), component: ship.components().to_vec() };
    assert_eq!(f.component.len(), ship.len());
}
