use vstd::prelude::*;

verus! {

/// A position on the board. Food sites are placed on whole coordinates and
/// ants only ever move onto food sites, so every position is integral.
#[derive(Clone, Copy, Debug, PartialEq, Eq, Structural)]
pub struct Point {
    pub x: i32,
    pub y: i32,
}

impl Point {
    pub fn new(x: i32, y: i32) -> (p: Point)
        ensures
            p.x == x,
            p.y == y,
    {
        Point { x, y }
    }
}

/// The squared Euclidean distance between two points.
pub open spec fn sq_dist(a: Point, b: Point) -> int {
    (a.x - b.x) * (a.x - b.x) + (a.y - b.y) * (a.y - b.y)
}

pub open spec fn same_place(a: Point, b: Point) -> bool {
    a.x == b.x && a.y == b.y
}

/// Whether two points stand on the same place.
pub fn same_point(a: Point, b: Point) -> (r: bool)
    ensures
        r == same_place(a, b),
        r == (a == b),
{
    a.x == b.x && a.y == b.y
}

/// The squared distance, computed exactly.
pub fn squared_distance(a: Point, b: Point) -> (d: u128)
    ensures
        d == sq_dist(a, b),
        d == (a.x - b.x) * (a.x - b.x) + (a.y - b.y) * (a.y - b.y),
{
    let dx: i128 = a.x as i128 - b.x as i128;
    let dy: i128 = a.y as i128 - b.y as i128;
    assert(0 <= dx * dx <= 0x1_0000_0000_0000_0000) by (nonlinear_arith)
        requires
            -0x1_0000_0000 <= dx <= 0x1_0000_0000,
    ;
    assert(0 <= dy * dy <= 0x1_0000_0000_0000_0000) by (nonlinear_arith)
        requires
            -0x1_0000_0000 <= dy <= 0x1_0000_0000,
    ;
    let s: i128 = dx * dx + dy * dy;
    s as u128
}

/// In a closed tour through `n` points, the point visited before the `i`-th
/// one: the tour wraps from the last point back to the first.
pub open spec fn tour_prev(i: int, n: int) -> int {
    if i == 0 {
        n - 1
    } else {
        i - 1
    }
}

/// The squared lengths of the segments of the closed tour through `points`:
/// segment `i` joins `points[i]` to the point before it, the first point
/// being joined to the last. An empty tour has no segment; a one-point tour
/// has one segment of length zero.
pub fn tour_segment_sq_lengths(points: &Vec<Point>) -> (lens: Vec<u128>)
    ensures
        lens.len() == points.len(),
        forall|i: int|
            0 <= i < points.len() ==> #[trigger] lens[i] == sq_dist(
                points[i],
                points[tour_prev(i, points.len() as int)],
            ),
        forall|i: int|
            0 < i < points.len() ==> #[trigger] lens[i] == (points[i].x - points[i - 1].x) * (
            points[i].x - points[i - 1].x) + (points[i].y - points[i - 1].y) * (points[i].y
                - points[i - 1].y),
        points.len() > 0 ==> lens[0] == (points[0].x - points[points.len() - 1].x) * (points[0].x
            - points[points.len() - 1].x) + (points[0].y - points[points.len() - 1].y) * (
        points[0].y - points[points.len() - 1].y),
{
    let n = points.len();
    let mut lens: Vec<u128> = Vec::new();
    let mut i: usize = 0;
    while i < n
        invariant
            n == points.len(),
            i <= n,
            lens.len() == i,
            forall|k: int|
                0 <= k < i ==> #[trigger] lens[k] == sq_dist(
                    points[k],
                    points[tour_prev(k, n as int)],
                ),
        decreases n - i,
    {
        let before: usize = if i == 0 {
            n - 1
        } else {
            i - 1
        };
        let d = squared_distance(points[i], points[before]);
        lens.push(d);
        i = i + 1;
    }
    lens
}

/// The squared distance is the sum of the squared differences of the
/// coordinates; it is never negative and is symmetric.
pub proof fn lemma_sq_dist(a: Point, b: Point)
    ensures
        sq_dist(a, b) == (a.x - b.x) * (a.x - b.x) + (a.y - b.y) * (a.y - b.y),
        sq_dist(a, b) >= 0,
        sq_dist(a, b) == sq_dist(b, a),
        sq_dist(a, b) == 0 <==> a == b,
{
    let dx = a.x - b.x;
    let dy = a.y - b.y;
    assert(dx * dx >= 0) by (nonlinear_arith);
    assert(dy * dy >= 0) by (nonlinear_arith);
    assert((b.x - a.x) * (b.x - a.x) == dx * dx) by (nonlinear_arith)
        requires
            dx == a.x - b.x,
    ;
    assert((b.y - a.y) * (b.y - a.y) == dy * dy) by (nonlinear_arith)
        requires
            dy == a.y - b.y,
    ;
    if dx != 0 {
        assert(dx * dx > 0) by (nonlinear_arith)
            requires
                dx != 0,
        ;
    }
    if dy != 0 {
        assert(dy * dy > 0) by (nonlinear_arith)
            requires
                dy != 0,
        ;
    }
}

/// In a closed tour of `n` points, the point before the `i`-th one is the
/// `(i + n - 1) % n`-th: every point is joined to its predecessor and the
/// first to the last, so every point begins one segment and ends another.
pub proof fn lemma_tour_prev(n: int)
    requires
        n > 0,
    ensures
        forall|i: int| 0 <= i < n ==> #[trigger] tour_prev(i, n) == (i + n - 1) % n,
        forall|i: int| 0 <= i < n ==> 0 <= #[trigger] tour_prev(i, n) < n,
        forall|i: int, j: int|
            0 <= i < n && 0 <= j < n && #[trigger] tour_prev(i, n) == #[trigger] tour_prev(j, n)
                ==> i == j,
{
    assert forall|i: int| 0 <= i < n implies #[trigger] tour_prev(i, n) == (i + n - 1) % n by {
        if i == 0 {
            assert((n - 1) % n == n - 1) by (nonlinear_arith)
                requires
                    n > 0,
            ;
        } else {
            assert((i + n - 1) % n == i - 1) by (nonlinear_arith)
                requires
                    0 < i < n,
            ;
        }
    }
}

} // verus!
