//! Fuel cells on a 300 by 300 grid and their power levels.
use vstd::prelude::*;

verus! {

/// The side of the square grid of fuel cells.
pub const GRID_SIZE: usize = 300;

/// The power before its hundreds digit is taken: `((x + 10) * y + serial) * (x + 10)`.
pub open spec fn raw_power(x: int, y: int, serial_number: int) -> int {
    ((x + 10) * y + serial_number) * (x + 10)
}

/// Whether every step of the power computation stays inside `i32`.
pub open spec fn power_fits(x: int, y: int, serial_number: int) -> bool {
    &&& i32::MIN <= x + 10 <= i32::MAX
    &&& i32::MIN <= (x + 10) * y <= i32::MAX
    &&& i32::MIN <= (x + 10) * y + serial_number <= i32::MAX
    &&& i32::MIN <= raw_power(x, y, serial_number) <= i32::MAX
}

/// The hundreds digit of the magnitude of the raw power, less five.
pub open spec fn power_level(x: int, y: int, serial_number: int) -> int {
    let p = raw_power(x, y, serial_number);
    let m = if p < 0 {
        -p
    } else {
        p
    };
    (m / 100) % 10 - 5
}

/// The power level of the fuel cell at `(x, y)` for the grid's serial number.
pub fn calculate_power_level(x: i32, y: i32, serial_number: i32) -> (r: i32)
    requires
        power_fits(x as int, y as int, serial_number as int),
    ensures
        r == power_level(x as int, y as int, serial_number as int),
{
    let rack_id = x + 10;
    let mut power_level = rack_id * y;
    power_level = power_level + serial_number;
    power_level = power_level * rack_id;
    let wide = power_level as i64;
    let magnitude = if wide < 0 {
        -wide
    } else {
        wide
    };
    let hundreds_digit = ((magnitude / 100) % 10) as i32;
    hundreds_digit - 5
}

/// Whether the power computation fits in `i32` for every cell of the grid.
pub open spec fn grid_fits(serial_number: int) -> bool {
    forall|x: int, y: int|
        0 <= x < 300 && 0 <= y < 300 ==> #[trigger] power_fits(x, y, serial_number)
}

/// The power levels of all cells, indexed `[x][y]`.
pub fn generate_grid(serial_number: i32) -> (grid: [[i32; 300]; 300])
    requires
        grid_fits(serial_number as int),
    ensures
        forall|x: int, y: int|
            0 <= x < 300 && 0 <= y < 300 ==> #[trigger] grid@[x]@[y] == power_level(
                x,
                y,
                serial_number as int,
            ),
{
    let mut grid: [[i32; 300]; 300] = [[0; 300]; 300];
    let mut x: usize = 0;
    while x < GRID_SIZE
        invariant
            x <= 300,
            grid_fits(serial_number as int),
            forall|i: int, j: int|
                0 <= i < x && 0 <= j < 300 ==> #[trigger] grid@[i]@[j] == power_level(
                    i,
                    j,
                    serial_number as int,
                ),
        decreases 300 - x,
    {
        let mut row: [i32; 300] = [0; 300];
        let mut y: usize = 0;
        while y < GRID_SIZE
            invariant
                x < 300,
                y <= 300,
                grid_fits(serial_number as int),
                forall|j: int|
                    0 <= j < y ==> #[trigger] row@[j] == power_level(x as int, j, serial_number as int),
            decreases 300 - y,
        {
            assert(power_fits(x as int, y as int, serial_number as int));
            row[y] = calculate_power_level(x as i32, y as i32, serial_number);
            y = y + 1;
        }
        grid[x] = row;
        x = x + 1;
    }
    grid
}

/// The sum of the `n` cells of column `x` from row `y` down.
pub open spec fn column_sum(grid: [[i32; 300]; 300], x: int, y: int, n: int) -> int
    decreases n,
{
    if n <= 0 {
        0
    } else {
        column_sum(grid, x, y, n - 1) + grid@[x]@[y + n - 1]
    }
}

/// The sum of the `size` by `n` cells whose top left cell is `(x, y)`: `n` columns of
/// `size` cells.
pub open spec fn block_sum(grid: [[i32; 300]; 300], x: int, y: int, size: int, n: int) -> int
    decreases n,
{
    if n <= 0 {
        0
    } else {
        block_sum(grid, x, y, size, n - 1) + column_sum(grid, x + n - 1, y, size)
    }
}

/// The total power of the square of side `size` at `(x, y)`, or 0 where the square does
/// not fit in the grid.
pub open spec fn square_power(grid: [[i32; 300]; 300], x: int, y: int, size: int) -> int {
    if x + size > 300 || y + size > 300 {
        0
    } else {
        block_sum(grid, x, y, size, size)
    }
}

proof fn lemma_column_bound(grid: [[i32; 300]; 300], x: int, y: int, n: int)
    requires
        0 <= x < 300,
        0 <= y,
        y + n <= 300,
    ensures
        n >= 0 ==> -0x8000_0000 * n <= column_sum(grid, x, y, n) <= 0x8000_0000 * n,
        n <= 0 ==> column_sum(grid, x, y, n) == 0,
    decreases n,
{
    if n > 0 {
        lemma_column_bound(grid, x, y, n - 1);
    }
}

proof fn lemma_block_bound(grid: [[i32; 300]; 300], x: int, y: int, size: int, n: int)
    requires
        0 <= x,
        x + n <= 300,
        0 <= y,
        y + size <= 300,
    ensures
        n >= 0 ==> -0x8000_0000 * 300 * n <= block_sum(grid, x, y, size, n) <= 0x8000_0000 * 300 * n,
    decreases n,
{
    if n > 0 {
        lemma_block_bound(grid, x, y, size, n - 1);
        lemma_column_bound(grid, x + n - 1, y, size);
        let b = block_sum(grid, x, y, size, n - 1);
        let c = column_sum(grid, x + n - 1, y, size);
        assert(-0x8000_0000 * 300 <= c <= 0x8000_0000 * 300);
        assert(block_sum(grid, x, y, size, n) == b + c);
        assert(0x8000_0000 * 300 * n == 0x8000_0000 * 300 * (n - 1) + 0x8000_0000 * 300)
            by (nonlinear_arith);
        assert(-0x8000_0000 * 300 * n == -0x8000_0000 * 300 * (n - 1) - 0x8000_0000 * 300)
            by (nonlinear_arith);
    } else {
        assert(n >= 0 ==> -0x8000_0000 * 300 * n == 0 && 0x8000_0000 * 300 * n == 0) by (nonlinear_arith)
            requires
                n <= 0,
        ;
    }
}

/// The total power of the square of side `square_size` whose top left cell is `(x, y)`;
/// 0 where the square reaches past the grid.
pub fn power_for_square(grid: [[i32; 300]; 300], x: i32, y: i32, square_size: i32) -> (r: i32)
    requires
        square_size <= 0 || (0 <= x && 0 <= y),
        i32::MIN <= square_power(grid, x as int, y as int, square_size as int) <= i32::MAX,
    ensures
        r == square_power(grid, x as int, y as int, square_size as int),
{
    if x as i64 + square_size as i64 > 300 || y as i64 + square_size as i64 > 300 {
        return 0;
    }
    if square_size <= 0 {
        return 0;
    }
    let mut power: i64 = 0;
    let mut i: i32 = 0;
    while i < square_size
        invariant
            0 <= x,
            0 <= y,
            0 < square_size,
            x + square_size <= 300,
            y + square_size <= 300,
            0 <= i <= square_size,
            power == block_sum(grid, x as int, y as int, square_size as int, i as int),
        decreases square_size - i,
    {
        let mut column: i64 = 0;
        let mut j: i32 = 0;
        while j < square_size
            invariant
                0 <= x,
                0 <= y,
                0 <= i < square_size,
                x + square_size <= 300,
                y + square_size <= 300,
                0 <= j <= square_size,
                column == column_sum(grid, (x + i) as int, y as int, j as int),
            decreases square_size - j,
        {
            proof {
                lemma_column_bound(grid, (x + i) as int, y as int, j as int);
            }
            column = column + grid[(x + i) as usize][(y + j) as usize] as i64;
            j = j + 1;
        }
        proof {
            lemma_block_bound(grid, x as int, y as int, square_size as int, i as int);
            lemma_column_bound(grid, (x + i) as int, y as int, square_size as int);
            assert(0x8000_0000 * 300 * i <= 0x8000_0000 * 300 * 300) by (nonlinear_arith)
                requires
                    i <= 300,
            ;
            assert(-0x8000_0000 * 300 * i >= -0x8000_0000 * 300 * 300) by (nonlinear_arith)
                requires
                    i <= 300,
            ;
        }
        power = power + column;
        i = i + 1;
    }
    power as i32
}

/// The decimal digits of `n`.
pub open spec fn decimal(n: nat) -> Seq<char>
    decreases n,
{
    let digit = (('0' as u32) + n % 10) as char;
    if n < 10 {
        seq![digit]
    } else {
        decimal(n / 10) + seq![digit]
    }
}

/// The text `x-y-size` that names a square.
pub open spec fn key_text(x: nat, y: nat, size: nat) -> Seq<char> {
    decimal(x) + seq!['-'] + decimal(y) + seq!['-'] + decimal(size)
}

/// Relies on `format!` with `{}` on unsigned integers: their decimal digits, without
/// sign or padding, around the literal dashes.
#[verifier::external_body]
fn format_key(x: u32, y: u32, size: u32) -> (r: String)
    ensures
        r@ == key_text(x as nat, y as nat, size as nat),
{
    format!("{}-{}-{}", x, y, size)
}

/// The name `x-y-size` of the square of side `size` whose top left cell is `(x, y)`.
pub fn square_key(x: u32, y: u32, size: u32) -> (r: String)
    ensures
        r@ == key_text(x as nat, y as nat, size as nat),
{
    format_key(x, y, size)
}

/// Square `(s1, x1, y1)` comes before `(s2, x2, y2)` in the search: by size, then by
/// column, then by row.
pub open spec fn searched_before(s1: int, x1: int, y1: int, s2: int, x2: int, y2: int) -> bool {
    s1 < s2 || (s1 == s2 && (x1 < x2 || (x1 == x2 && y1 < y2)))
}

/// A square that the search looks at: sides from 1 to 299, corners anywhere on the grid.
pub open spec fn searched(s: int, x: int, y: int) -> bool {
    1 <= s < 300 && 0 <= x < 300 && 0 <= y < 300
}

/// The power of no square that the search looks at leaves `i32`.
pub open spec fn powers_fit(grid: [[i32; 300]; 300]) -> bool {
    forall|s: int, x: int, y: int|
        searched(s, x, y) ==> i32::MIN <= #[trigger] square_power(grid, x, y, s) <= i32::MAX
}

/// `(s, x, y)` has the greatest power of all the squares that the search looks at, and is
/// the first such square in the search.
pub open spec fn is_best_square(grid: [[i32; 300]; 300], s: int, x: int, y: int) -> bool {
    &&& searched(s, x, y)
    &&& forall|s2: int, x2: int, y2: int|
        #![trigger square_power(grid, x2, y2, s2)]
        searched(s2, x2, y2) ==> square_power(grid, x2, y2, s2) <= square_power(grid, x, y, s) && (
        searched_before(s2, x2, y2, s, x, y) ==> square_power(grid, x2, y2, s2) < square_power(
            grid,
            x,
            y,
            s,
        ))
}

proof fn lemma_column_split(grid: [[i32; 300]; 300], x: int, a: int, b: int)
    requires
        0 <= a,
        0 <= b,
    ensures
        column_sum(grid, x, 0, a + b) == column_sum(grid, x, 0, a) + column_sum(grid, x, a, b),
    decreases b,
{
    if b > 0 {
        lemma_column_split(grid, x, a, b - 1);
    }
}

proof fn lemma_block_rows(grid: [[i32; 300]; 300], y: int, size: int, m: int)
    requires
        0 <= y,
        0 <= size,
    ensures
        block_sum(grid, 0, y, size, m) == block_sum(grid, 0, 0, y + size, m) - block_sum(
            grid,
            0,
            0,
            y,
            m,
        ),
    decreases m,
{
    if m > 0 {
        lemma_block_rows(grid, y, size, m - 1);
        lemma_column_split(grid, m - 1, y, size);
    }
}

proof fn lemma_block_columns(grid: [[i32; 300]; 300], y: int, size: int, a: int, b: int)
    requires
        0 <= a,
        0 <= b,
    ensures
        block_sum(grid, 0, y, size, a + b) == block_sum(grid, 0, y, size, a) + block_sum(
            grid,
            a,
            y,
            size,
            b,
        ),
    decreases b,
{
    if b > 0 {
        lemma_block_columns(grid, y, size, a, b - 1);
    }
}

/// The total power of the square of side `size` at `(x, y)` from four sums of
/// rectangles that start at the grid's corner.
proof fn lemma_square_from_corners(grid: [[i32; 300]; 300], x: int, y: int, size: int)
    requires
        0 <= x,
        0 <= y,
        0 <= size,
    ensures
        block_sum(grid, x, y, size, size) == block_sum(grid, 0, 0, y + size, x + size)
            - block_sum(grid, 0, 0, y, x + size) - block_sum(grid, 0, 0, y + size, x) + block_sum(
            grid,
            0,
            0,
            y,
            x,
        ),
{
    lemma_block_columns(grid, y, size, x, size);
    lemma_block_rows(grid, y, size, x + size);
    lemma_block_rows(grid, y, size, x);
}

/// The sums of the rectangles at the grid's corner: entry `[w][h]` holds the total power
/// of the first `w` columns' first `h` cells.
fn corner_sums(grid: &[[i32; 300]; 300]) -> (table: Vec<Vec<i64>>)
    ensures
        table@.len() == 301,
        forall|w: int| 0 <= w <= 300 ==> (#[trigger] table@[w])@.len() == 301,
        forall|w: int, h: int|
            0 <= w <= 300 && 0 <= h <= 300 ==> #[trigger] table@[w]@[h] == block_sum(
                *grid,
                0,
                0,
                h,
                w,
            ),
{
    let mut table: Vec<Vec<i64>> = Vec::new();
    let mut first: Vec<i64> = Vec::new();
    let mut h: usize = 0;
    while h <= GRID_SIZE
        invariant
            h <= 301,
            first@.len() == h,
            forall|j: int| 0 <= j < h ==> #[trigger] first@[j] == block_sum(*grid, 0, 0, j, 0),
        decreases 301 - h,
    {
        first.push(0);
        h = h + 1;
    }
    table.push(first);
    let mut w: usize = 1;
    while w <= GRID_SIZE
        invariant
            1 <= w <= 301,
            table@.len() == w,
            forall|a: int| 0 <= a < w ==> (#[trigger] table@[a])@.len() == 301,
            forall|a: int, j: int|
                0 <= a < w && 0 <= j <= 300 ==> #[trigger] table@[a]@[j] == block_sum(
                    *grid,
                    0,
                    0,
                    j,
                    a,
                ),
        decreases 301 - w,
    {
        let mut row: Vec<i64> = Vec::new();
        let mut column: i64 = 0;
        let mut j: usize = 0;
        while j <= GRID_SIZE
            invariant
                1 <= w <= 300,
                table@.len() == w,
                forall|a: int| 0 <= a < w ==> (#[trigger] table@[a])@.len() == 301,
                forall|a: int, i: int|
                    0 <= a < w && 0 <= i <= 300 ==> #[trigger] table@[a]@[i] == block_sum(
                        *grid,
                        0,
                        0,
                        i,
                        a,
                    ),
                j <= 301,
                row@.len() == j,
                j <= 300 ==> column == column_sum(*grid, w - 1, 0, j as int),
                forall|i: int| 0 <= i < j ==> #[trigger] row@[i] == block_sum(*grid, 0, 0, i, w as int),
            decreases 301 - j,
        {
            proof {
                lemma_column_bound(*grid, w - 1, 0, j as int);
                lemma_block_bound(*grid, 0, 0, j as int, w - 1);
                assert(0x8000_0000 * 300 * (w - 1) <= 0x8000_0000 * 300 * 300) by (nonlinear_arith)
                    requires
                        w <= 300,
                ;
                assert(-0x8000_0000 * 300 * (w - 1) >= -0x8000_0000 * 300 * 300) by (nonlinear_arith)
                    requires
                        w <= 300,
                ;
                assert(0x8000_0000 * j <= 0x8000_0000 * 300) by (nonlinear_arith)
                    requires
                        j <= 300,
                ;
                assert(-0x8000_0000 * j >= -0x8000_0000 * 300) by (nonlinear_arith)
                    requires
                        j <= 300,
                ;
            }
            row.push(table[w - 1][j] + column);
            if j < GRID_SIZE {
                column = column + grid[w - 1][j] as i64;
            }
            j = j + 1;
        }
        table.push(row);
        w = w + 1;
    }
    table
}

/// The total power of the square of side `size` at `(x, y)`, read from the corner sums;
/// 0 where the square reaches past the grid.
fn square_power_from(
    grid: &[[i32; 300]; 300],
    table: &Vec<Vec<i64>>,
    x: usize,
    y: usize,
    size: usize,
) -> (r: i32)
    requires
        x < 300,
        y < 300,
        1 <= size < 300,
        i32::MIN <= square_power(*grid, x as int, y as int, size as int) <= i32::MAX,
        table@.len() == 301,
        forall|w: int| 0 <= w <= 300 ==> (#[trigger] table@[w])@.len() == 301,
        forall|w: int, h: int|
            0 <= w <= 300 && 0 <= h <= 300 ==> #[trigger] table@[w]@[h] == block_sum(
                *grid,
                0,
                0,
                h,
                w,
            ),
    ensures
        r == square_power(*grid, x as int, y as int, size as int),
{
    if x + size > GRID_SIZE || y + size > GRID_SIZE {
        return 0;
    }
    proof {
        lemma_square_from_corners(*grid, x as int, y as int, size as int);
        lemma_block_bound(*grid, 0, 0, (y + size) as int, (x + size) as int);
        lemma_block_bound(*grid, 0, 0, y as int, (x + size) as int);
        lemma_block_bound(*grid, 0, 0, (y + size) as int, x as int);
        lemma_block_bound(*grid, 0, 0, y as int, x as int);
        assert(0x8000_0000 * 300 * (x + size) <= 0x8000_0000 * 300 * 300) by (nonlinear_arith)
            requires
                x + size <= 300,
        ;
        assert(-0x8000_0000 * 300 * (x + size) >= -0x8000_0000 * 300 * 300) by (nonlinear_arith)
            requires
                x + size <= 300,
        ;
        assert(0x8000_0000 * 300 * x <= 0x8000_0000 * 300 * 300) by (nonlinear_arith)
            requires
                x <= 300,
        ;
        assert(-0x8000_0000 * 300 * x >= -0x8000_0000 * 300 * 300) by (nonlinear_arith)
            requires
                x <= 300,
        ;
    }
    let total = table[x + size][y + size] - table[x][y + size] - table[x + size][y] + table[x][y];
    total as i32
}

/// The name `x-y-size` of the square with the greatest total power, among sides from 1 to
/// 299; of several with that power, the one with the least side, then column, then row.
pub fn largest_power_square(grid: [[i32; 300]; 300]) -> (r: String)
    requires
        powers_fit(grid),
    ensures
        exists|s: nat, x: nat, y: nat|
            #![trigger key_text(x, y, s)]
            is_best_square(grid, s as int, x as int, y as int) && r@ == key_text(x, y, s),
{
    let table = corner_sums(&grid);
    assert(searched(1, 0, 0));
    let mut best = square_power_from(&grid, &table, 0, 0, 1);
    let mut best_s: i32 = 1;
    let mut best_x: i32 = 0;
    let mut best_y: i32 = 0;
    let mut size: i32 = 1;
    while size < 300
        invariant
            1 <= size <= 300,
            powers_fit(grid),
            table@.len() == 301,
            forall|w: int| 0 <= w <= 300 ==> (#[trigger] table@[w])@.len() == 301,
            forall|w: int, h: int|
                0 <= w <= 300 && 0 <= h <= 300 ==> #[trigger] table@[w]@[h] == block_sum(grid, 0, 0, h, w),
            searched(best_s as int, best_x as int, best_y as int),
            !searched_before(size as int, 0, 0, best_s as int, best_x as int, best_y as int),
            best == square_power(grid, best_x as int, best_y as int, best_s as int),
            forall|s2: int, x2: int, y2: int|
                #![trigger square_power(grid, x2, y2, s2)]
                searched(s2, x2, y2) && searched_before(s2, x2, y2, size as int, 0, 0) ==> square_power(
                    grid,
                    x2,
                    y2,
                    s2,
                ) <= best && (searched_before(
                    s2,
                    x2,
                    y2,
                    best_s as int,
                    best_x as int,
                    best_y as int,
                ) ==> square_power(grid, x2, y2, s2) < best),
        decreases 300 - size,
    {
        let mut x: i32 = 0;
        while x < 300
            invariant
                1 <= size < 300,
                0 <= x <= 300,
                powers_fit(grid),
                table@.len() == 301,
                forall|w: int| 0 <= w <= 300 ==> (#[trigger] table@[w])@.len() == 301,
                forall|w: int, h: int|
                    0 <= w <= 300 && 0 <= h <= 300 ==> #[trigger] table@[w]@[h] == block_sum(grid, 0, 0, h, w),
                searched(best_s as int, best_x as int, best_y as int),
                !searched_before(size as int, x as int, 0, best_s as int, best_x as int, best_y as int),
                best == square_power(grid, best_x as int, best_y as int, best_s as int),
                forall|s2: int, x2: int, y2: int|
                    #![trigger square_power(grid, x2, y2, s2)]
                    searched(s2, x2, y2) && searched_before(s2, x2, y2, size as int, x as int, 0)
                        ==> square_power(grid, x2, y2, s2) <= best && (searched_before(
                        s2,
                        x2,
                        y2,
                        best_s as int,
                        best_x as int,
                        best_y as int,
                    ) ==> square_power(grid, x2, y2, s2) < best),
            decreases 300 - x,
        {
            let mut y: i32 = 0;
            while y < 300
                invariant
                    1 <= size < 300,
                    0 <= x < 300,
                    0 <= y <= 300,
                    powers_fit(grid),
                    table@.len() == 301,
                    forall|w: int| 0 <= w <= 300 ==> (#[trigger] table@[w])@.len() == 301,
                    forall|w: int, h: int|
                        0 <= w <= 300 && 0 <= h <= 300 ==> #[trigger] table@[w]@[h] == block_sum(grid, 0, 0, h, w),
                    searched(best_s as int, best_x as int, best_y as int),
                    !searched_before(
                        size as int,
                        x as int,
                        y as int,
                        best_s as int,
                        best_x as int,
                        best_y as int,
                    ),
                    best == square_power(grid, best_x as int, best_y as int, best_s as int),
                    forall|s2: int, x2: int, y2: int|
                        #![trigger square_power(grid, x2, y2, s2)]
                        searched(s2, x2, y2) && searched_before(
                            s2,
                            x2,
                            y2,
                            size as int,
                            x as int,
                            y as int,
                        ) ==> square_power(grid, x2, y2, s2) <= best && (searched_before(
                            s2,
                            x2,
                            y2,
                            best_s as int,
                            best_x as int,
                            best_y as int,
                        ) ==> square_power(grid, x2, y2, s2) < best),
                decreases 300 - y,
            {
                assert(searched(size as int, x as int, y as int));
                let power = square_power_from(&grid, &table, x as usize, y as usize, size as usize);
                if power > best {
                    best = power;
                    best_s = size;
                    best_x = x;
                    best_y = y;
                }
                y = y + 1;
            }
            x = x + 1;
        }
        size = size + 1;
    }
    let r = square_key(best_x as u32, best_y as u32, best_s as u32);
    assert(is_best_square(grid, best_s as int, best_x as int, best_y as int));
    r
}

} // verus!
