use vstd::prelude::*;

verus! {

/// One grid unit of the playfield, identified by its (column, row) coordinates.
pub struct Pixel {
    pub coordinates: (i32, i32),
}

impl Pixel {
    pub fn new(x: i32, y: i32) -> (r: Pixel)
        ensures
            r.coordinates == (x, y),
    {
        Pixel { coordinates: (x, y) }
    }
}

} // verus!
