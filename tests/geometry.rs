use payload::room::Room;

fn room(min_x: i32, min_y: i32, max_x: i32, max_y: i32) -> Room {
    Room { min_x, min_y, max_x, max_y }
}

#[test]
fn from_center_half_builds_rectangle() {
    assert_eq!(Room::from_center_half(10, -3, 2, 4), room(8, -7, 12, 1));
}

#[test]
fn center_rounds_toward_zero() {
    assert_eq!(room(0, 0, 4, 6).center(), (2, 3));
    assert_eq!(room(0, 0, 5, 3).center(), (2, 1));
    assert_eq!(room(-5, -3, 0, 0).center(), (-2, -1));
}

#[test]
fn size_of_room() {
    let r = room(-2, 1, 6, 4);
    assert_eq!(r.width(), 8);
    assert_eq!(r.height(), 3);
}

#[test]
fn overlapping_rooms() {
    assert!(room(0, 0, 4, 4).overlaps(&room(3, 3, 6, 6)));
    assert!(room(0, 0, 10, 10).overlaps(&room(2, 2, 4, 4)));
}

#[test]
fn touching_rooms_do_not_overlap() {
    assert!(!room(0, 0, 4, 4).overlaps(&room(4, 0, 8, 4)));
    assert!(!room(0, 0, 4, 4).overlaps(&room(4, 4, 8, 8)));
    assert!(!room(0, 0, 4, 4).overlaps(&room(0, 5, 4, 9)));
}

#[test]
fn contact_along_a_wall() {
    let a = room(0, 0, 4, 4);
    let b = room(4, 0, 8, 4);
    assert_eq!(a.contact_area(&b), 4);
    assert_eq!(b.contact_area(&a), 4);
    assert!(a.is_adjacent(&b));
    assert!(b.is_adjacent(&a));
}

#[test]
fn contact_at_a_corner_only() {
    let a = room(0, 0, 4, 4);
    let b = room(4, 4, 8, 8);
    assert_eq!(a.contact_area(&b), 1);
    assert!(!a.is_adjacent(&b));
    assert!(!b.is_adjacent(&a));
}

#[test]
fn no_contact_across_a_gap() {
    let a = room(0, 0, 4, 4);
    let b = room(5, 0, 9, 4);
    assert_eq!(a.contact_area(&b), 0);
    assert!(!a.is_adjacent(&b));
}

#[test]
fn adjacency_is_symmetric_for_unequal_walls() {
    let a = room(0, 0, 2, 2);
    let b = room(-4, 2, 10, 6);
    assert_eq!(a.contact_area(&b), 4);
    assert_eq!(b.contact_area(&a), 2);
    assert_eq!(a.is_adjacent(&b), b.is_adjacent(&a));
    assert!(a.is_adjacent(&b));
}
