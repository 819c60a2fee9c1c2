//! Coordinates on a plane and taxicab distances between them.
use vstd::prelude::*;

verus! {

#[derive(Clone, Copy, Debug, PartialEq, Eq, Structural, Hash)]
pub struct Coordinate {
    pub x: i32,
    pub y: i32,
}

/// The absolute value of `v`.
pub open spec fn abs(v: int) -> int {
    if v < 0 {
        -v
    } else {
        v
    }
}

/// The taxicab distance between `c` and `(x, y)`.
pub open spec fn distance(c: Coordinate, x: int, y: int) -> int {
    abs(x - c.x) + abs(y - c.y)
}

impl Coordinate {
    /// The taxicab distance from this coordinate to `(x, y)`.
    pub fn distance_from(&self, x: i32, y: i32) -> (r: i32)
        requires
            distance(*self, x as int, y as int) <= i32::MAX,
        ensures
            r == distance(*self, x as int, y as int),
    {
        let dx = x as i64 - self.x as i64;
        let dy = y as i64 - self.y as i64;
        let ax = if dx < 0 {
            -dx
        } else {
            dx
        };
        let ay = if dy < 0 {
            -dy
        } else {
            dy
        };
        (ax + ay) as i32
    }
}

/// The cells on the border of a `max_x` by `max_y` grid indexed `grid[x][y]`: for each
/// column its top and bottom cell, then for each row its left and right cell.
pub fn get_edge_coordinates<'a>(grid: Vec<Vec<&'a Coordinate>>, max_x: usize, max_y: usize) -> (r: Vec<
    &'a Coordinate,
>)
    requires
        0 < max_x <= grid@.len(),
        0 < max_y,
        forall|x: int| 0 <= x < max_x ==> max_y <= #[trigger] grid@[x]@.len(),
        2 * max_x + 2 * max_y <= usize::MAX,
    ensures
        r@.len() == 2 * max_x + 2 * max_y,
        forall|x: int|
            #![trigger grid@[x]]
            0 <= x < max_x ==> r@[2 * x] == grid@[x]@[0] && r@[2 * x + 1] == grid@[x]@[max_y
                - 1],
        forall|y: int|
            0 <= y < max_y ==> r@[2 * max_x + 2 * y] == #[trigger] grid@[0]@[y] && r@[2 * max_x + 2
                * y + 1] == grid@[max_x - 1]@[y],
{
    let mut c: Vec<&Coordinate> = Vec::new();
    let mut x: usize = 0;
    while x < max_x
        invariant
            x <= max_x,
            0 < max_x <= grid@.len(),
            0 < max_y,
            forall|i: int| 0 <= i < max_x ==> max_y <= #[trigger] grid@[i]@.len(),
            c@.len() == 2 * x,
            forall|i: int|
                #![trigger grid@[i]]
                0 <= i < x ==> c@[2 * i] == grid@[i]@[0] && c@[2 * i + 1] == grid@[i]@[max_y
                    - 1],
        decreases max_x - x,
    {
        assert(max_y <= grid@[x as int]@.len());
        c.push(grid[x][0]);
        c.push(grid[x][max_y - 1]);
        x = x + 1;
    }
    let mut y: usize = 0;
    while y < max_y
        invariant
            y <= max_y,
            0 < max_x <= grid@.len(),
            0 < max_y,
            2 * max_x + 2 * max_y <= usize::MAX,
            forall|i: int| 0 <= i < max_x ==> max_y <= #[trigger] grid@[i]@.len(),
            c@.len() == 2 * max_x + 2 * y,
            forall|i: int|
                #![trigger grid@[i]]
                0 <= i < max_x ==> c@[2 * i] == grid@[i]@[0] && c@[2 * i + 1] == grid@[i]@[max_y
                    - 1],
            forall|j: int|
                0 <= j < y ==> c@[2 * max_x + 2 * j] == #[trigger] grid@[0]@[j] && c@[2 * max_x + 2 * j
                    + 1] == grid@[max_x - 1]@[j],
        decreases max_y - y,
    {
        assert(max_y <= grid@[0]@.len());
        assert(max_y <= grid@[max_x - 1]@.len());
        c.push(grid[0][y]);
        c.push(grid[max_x - 1][y]);
        y = y + 1;
    }
    c
}

} // verus!
