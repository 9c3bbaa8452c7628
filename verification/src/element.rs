//! A lattice site: a fixed position and a fixed magnetic moment.
//!
//! Coordinates and moment components are fixed-point integers; the caller
//! picks the scale once and uses it consistently. Bounding them keeps every
//! squared distance inside `i64`.
use vstd::prelude::*;

verus! {

/// Bound on the magnitude of any coordinate or moment component.
pub const COORD_LIMIT: i64 = 0x2000_0000;

#[derive(Clone, Copy, PartialEq, Eq, Structural)]
pub struct Element {
    pub x: i64,
    pub y: i64,
    pub mx: i64,
    pub my: i64,
}

impl Element {
    pub open spec fn wf(self) -> bool {
        &&& -COORD_LIMIT <= self.x <= COORD_LIMIT
        &&& -COORD_LIMIT <= self.y <= COORD_LIMIT
        &&& -COORD_LIMIT <= self.mx <= COORD_LIMIT
        &&& -COORD_LIMIT <= self.my <= COORD_LIMIT
    }

    pub fn new(x: i64, y: i64, mx: i64, my: i64) -> (r: Self)
        requires
            -COORD_LIMIT <= x <= COORD_LIMIT,
            -COORD_LIMIT <= y <= COORD_LIMIT,
            -COORD_LIMIT <= mx <= COORD_LIMIT,
            -COORD_LIMIT <= my <= COORD_LIMIT,
        ensures
            r == (Element { x, y, mx, my }),
            r.wf(),
    {
        Element { x, y, mx, my }
    }

    /// The moment of the site in its "up" orientation.
    pub fn magn(&self) -> (r: (i64, i64))
        ensures
            r.0 == self.mx,
            r.1 == self.my,
    {
        (self.mx, self.my)
    }

    /// The squared distance between the positions of two sites.
    pub open spec fn spec_distance_sq(self, other: Element) -> int {
        (self.x - other.x) * (self.x - other.x) + (self.y - other.y) * (self.y - other.y)
    }

    pub fn distance_sq(&self, other: &Element) -> (r: i64)
        requires
            self.wf(),
            other.wf(),
        ensures
            r as int == self.spec_distance_sq(*other),
            0 <= r,
    {
        let dx: i64 = self.x - other.x;
        let dy: i64 = self.y - other.y;
        proof {
            assert(dx * dx <= 4 * COORD_LIMIT * COORD_LIMIT && 0 <= dx * dx) by (nonlinear_arith)
                requires
                    -2 * COORD_LIMIT <= dx <= 2 * COORD_LIMIT,
            ;
            assert(dy * dy <= 4 * COORD_LIMIT * COORD_LIMIT && 0 <= dy * dy) by (nonlinear_arith)
                requires
                    -2 * COORD_LIMIT <= dy <= 2 * COORD_LIMIT,
            ;
        }
        dx * dx + dy * dy
    }
}

} // verus!
