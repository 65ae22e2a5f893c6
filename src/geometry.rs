use vstd::prelude::*;

verus! {

/// Bound on the absolute value of every coordinate and every extent, in micro
/// world units: it leaves room for doubled coordinates in `i64` and for
/// squared distances in `i128`.
pub const MAX_COORD: i64 = 1_099_511_627_776;

/// A point or a displacement in the plane, in micro world units.
#[derive(Clone, Copy, Debug, PartialEq, Eq, Structural)]
pub struct Vec2 {
    pub x: i64,
    pub y: i64,
}

impl Vec2 {
    pub open spec fn valid(&self) -> bool {
        -MAX_COORD <= self.x <= MAX_COORD && -MAX_COORD <= self.y <= MAX_COORD
    }

    pub fn new(x: i64, y: i64) -> (r: Vec2)
        ensures
            r.x == x && r.y == y,
    {
        Vec2 { x, y }
    }
}

/// Squared Euclidean distance between two points.
pub open spec fn dist2(a: Vec2, b: Vec2) -> int {
    (a.x - b.x) * (a.x - b.x) + (a.y - b.y) * (a.y - b.y)
}

/// Two circles overlap when their centres are closer than the sum of their radii.
pub open spec fn circles_overlap(a: Vec2, ra: int, b: Vec2, rb: int) -> bool {
    dist2(a, b) < (ra + rb) * (ra + rb)
}

pub fn distance_squared(a: Vec2, b: Vec2) -> (r: i128)
    requires
        a.valid(),
        b.valid(),
    ensures
        r == dist2(a, b),
{
    let dx = a.x as i128 - b.x as i128;
    let dy = a.y as i128 - b.y as i128;
    assert(0 <= dx * dx <= 4835703278458516698824704) by (nonlinear_arith)
        requires
            -2199023255552 <= dx <= 2199023255552,
    ;
    assert(0 <= dy * dy <= 4835703278458516698824704) by (nonlinear_arith)
        requires
            -2199023255552 <= dy <= 2199023255552,
    ;
    dx * dx + dy * dy
}

/// Whether the circle of radius `ra` about `a` overlaps the circle of radius
/// `rb` about `b` (strictly: touching circles do not overlap).
pub fn overlaps(a: Vec2, ra: i64, b: Vec2, rb: i64) -> (r: bool)
    requires
        a.valid(),
        b.valid(),
        0 <= ra <= MAX_COORD,
        0 <= rb <= MAX_COORD,
    ensures
        r == circles_overlap(a, ra as int, b, rb as int),
{
    let d2 = distance_squared(a, b);
    let s = ra as i128 + rb as i128;
    assert(0 <= s * s <= 4835703278458516698824704) by (nonlinear_arith)
        requires
            0 <= s <= 2199023255552,
    ;
    d2 < s * s
}

/// An axis-aligned rectangle given by its corner of least coordinates, a width
/// and a height.
#[derive(Clone, Copy, Debug, PartialEq, Eq, Structural)]
pub struct Rectangle2D {
    pub x: i64,
    pub y: i64,
    pub width: i64,
    pub height: i64,
}

impl Rectangle2D {
    pub open spec fn valid(&self) -> bool {
        &&& -MAX_COORD <= self.x && -MAX_COORD <= self.y
        &&& 0 <= self.width && 0 <= self.height
        &&& self.x + self.width <= MAX_COORD && self.y + self.height <= MAX_COORD
    }
}

} // verus!
