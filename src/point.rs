use vstd::prelude::*;
use rand::Rng;

verus! {

/// A position in the plane with integer coordinates.
#[derive(Debug, Clone, Copy, PartialEq, Eq, Structural)]
pub struct Point {
    pub x: i32,
    pub y: i32,
}

/// Relies on rand's `Rng::gen_range` on the thread-local generator: for a
/// non-empty half-open range it returns a value inside it (it panics on an
/// empty range, which `requires` leaves out).
#[verifier::external_body]
fn random_in_range(low: i32, high: i32) -> (r: i32)
    requires
        low < high,
    ensures
        low <= r < high,
{
    rand::thread_rng().gen_range(low..high)
}

impl Point {
    pub fn new(x: i32, y: i32) -> (r: Self)
        ensures
            r.x == x,
            r.y == y,
    {
        Point { x, y }
    }

    /// A point drawn uniformly from `[min_x, max_x) x [min_y, max_y)`.
    pub fn random(min_x: i32, max_x: i32, min_y: i32, max_y: i32) -> (r: Self)
        requires
            min_x < max_x,
            min_y < max_y,
        ensures
            min_x <= r.x < max_x,
            min_y <= r.y < max_y,
    {
        let x = random_in_range(min_x, max_x);
        let y = random_in_range(min_y, max_y);
        Self::new(x, y)
    }
}

} // verus!
