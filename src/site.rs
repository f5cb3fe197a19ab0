use vstd::prelude::*;

verus! {

/// A fixed point of the plane, in integer (fixed-point) coordinates.
#[derive(Debug, Clone, Copy, PartialEq, Eq, Structural)]
pub struct Site {
    pub x: i32,
    pub y: i32,
}

/// The squared Euclidean distance between two sites.
pub open spec fn sq_dist(a: Site, b: Site) -> int {
    (a.x - b.x) * (a.x - b.x) + (a.y - b.y) * (a.y - b.y)
}

impl Site {
    /// The squared Euclidean distance to `other`; it orders sites by distance
    /// exactly as the distance itself does.
    pub fn squared_distance(&self, other: &Site) -> (r: u128)
        ensures
            r as int == sq_dist(*self, *other),
    {
        let dx: i64 = self.x as i64 - other.x as i64;
        let dy: i64 = self.y as i64 - other.y as i64;
        let ax: u128 = if dx < 0 { (-dx) as u128 } else { dx as u128 };
        let ay: u128 = if dy < 0 { (-dy) as u128 } else { dy as u128 };
        assert(ax * ax <= 0x1_0000_0000 * 0x1_0000_0000) by (nonlinear_arith)
            requires ax <= 0x1_0000_0000;
        assert(ay * ay <= 0x1_0000_0000 * 0x1_0000_0000) by (nonlinear_arith)
            requires ay <= 0x1_0000_0000;
        assert(ax * ax == dx * dx) by (nonlinear_arith)
            requires ax == dx || ax == -dx;
        assert(ay * ay == dy * dy) by (nonlinear_arith)
            requires ay == dy || ay == -dy;
        ax * ax + ay * ay
    }
}

} // verus!
