use vstd::prelude::*;

verus! {

/// The shape of a sector of space.
#[derive(Clone, Copy, Debug, PartialEq, Eq, Structural)]
pub enum SectorShape {
    Sphere { r: i32 },
    Cube { w: i32, h: i32 },
    Mesh { w: i32, h: i32 },
    Pyramid { h: i32 },
}

/// A sector of space.
#[derive(Clone, Copy, Debug)]
pub struct Sector {
    pub shape: SectorShape,
}

impl Sector {
    /// The default sector: a sphere of radius 8.
    pub fn new() -> (r: Sector)
        ensures
            r.shape == (SectorShape::Sphere { r: 8 }),
    {
        Sector { shape: SectorShape::Sphere { r: 8 } }
    }

    /// Width and height of the sector's bounding square, known for spheres only.
    pub fn dimensions(&self) -> (r: Option<(i64, i64)>)
        ensures
            match self.shape {
                SectorShape::Sphere { r: radius } => r == Some(((2 * radius) as i64, (2 * radius) as i64)),
                _ => r.is_none(),
            },
    {
        match self.shape {
            SectorShape::Sphere { r } => Some((r as i64 * 2, r as i64 * 2)),
            _ => None,
        }
    }
}

} // verus!
