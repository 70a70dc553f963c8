use vstd::prelude::*;
use crate::math::Vec3i;

verus! {

/// A point in 3-d space with a unique id.
#[derive(Debug, Clone, Copy, PartialEq, Eq, Structural)]
pub struct DataPoint {
    pub id: u32,
    pub position: Vec3i,
}

impl DataPoint {
    pub fn new(id: u32, position: Vec3i) -> (r: DataPoint)
        ensures
            r == (DataPoint { id, position }),
    {
        DataPoint { id, position }
    }
}

} // verus!
