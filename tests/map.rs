use payload::map::{Tile, TileMap, TileType};
use payload::sector::{Sector, SectorShape};

#[test]
fn tile_map_starts_as_space() {
    let m = TileMap::new(3, 4, 2);
    for z in 0..2 {
        for y in 0..4 {
            for x in 0..3 {
                assert_eq!(*m.get(x, y, z), Tile { tile_type: TileType::Space });
            }
        }
    }
}

#[test]
fn tile_map_offsets() {
    let m = TileMap::new(3, 4, 2);
    assert_eq!(m.calc_offset(0, 0, 0), 0);
    assert_eq!(m.calc_offset(1, 2, 1), 19);
    assert_eq!(m.calc_offset(2, 3, 1), 23);
}

#[test]
fn tile_map_set_changes_one_cell() {
    let mut m = TileMap::new(3, 4, 2);
    m.set(1, 2, 1, Tile { tile_type: TileType::Ship });
    assert_eq!(m.get(1, 2, 1).tile_type, TileType::Ship);
    assert_eq!(m.get(1, 2, 0).tile_type, TileType::Space);
    assert_eq!(m.get(2, 2, 1).tile_type, TileType::Space);
}

#[test]
fn empty_tile_map() {
    let m = TileMap::new(5, 5, 0);
    let _ = m;
}

#[test]
fn default_tile_type_is_space() {
    assert_eq!(TileType::default(), TileType::Space);
}

#[test]
fn sector_default_is_sphere_of_radius_8() {
    let s = Sector::new();
    assert_eq!(s.shape, SectorShape::Sphere { r: 8 });
    assert_eq!(s.dimensions(), Some((16, 16)));
}

#[test]
fn non_sphere_sector_has_no_dimensions() {
    let s = Sector { shape: SectorShape::Cube { w: 2, h: 3 } };
    assert_eq!(s.dimensions(), None);
}
