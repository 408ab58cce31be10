//! The 6 x 7 grid: dropping coins, and finding four in a row.

use vstd::prelude::*;
use crate::coin::Coin;
use crate::game::GameError;

verus! {

/// The cells of a grid, row by row. Row 0 is the bottom row.
pub open spec fn cells(grid: &Vec<Vec<Coin>>) -> Seq<Seq<Coin>> {
    Seq::new(grid@.len(), |r: int| grid@[r]@)
}

/// A grid of six rows of seven cells each.
pub open spec fn well_shaped(s: Seq<Seq<Coin>>) -> bool {
    &&& s.len() == 6
    &&& forall|r: int| 0 <= r < 6 ==> (#[trigger] s[r]).len() == 7
}

/// The grid `s` with `coin` in row `r` of column `c`.
pub open spec fn with_coin(s: Seq<Seq<Coin>>, r: int, c: int, coin: Coin) -> Seq<Seq<Coin>> {
    s.update(r, s[r].update(c, coin))
}

/// A grid of six rows of seven empty cells.
pub open spec fn blank() -> Seq<Seq<Coin>> {
    Seq::new(6, |r: int| Seq::new(7, |c: int| Coin::Empty))
}

/// The four ways in which four cells can lie in a row. A rising line climbs
/// one row per column, a falling line descends one row per column.
#[derive(Clone, Copy, Debug, PartialEq, Eq, Structural)]
pub enum Direction {
    Horizontal,
    Vertical,
    Rising,
    Falling,
}

impl Direction {
    /// Change of row from one cell of a line to the next.
    pub open spec fn row_step(self) -> int {
        match self {
            Direction::Horizontal => 0,
            Direction::Vertical => 1,
            Direction::Rising => 1,
            Direction::Falling => -1,
        }
    }

    /// Change of column from one cell of a line to the next.
    pub open spec fn column_step(self) -> int {
        match self {
            Direction::Vertical => 0,
            _ => 1,
        }
    }
}

/// A line of four cells that starts at row `r`, column `c` and runs in
/// direction `d` lies within the grid.
pub open spec fn fits(r: int, c: int, d: Direction) -> bool {
    &&& 0 <= r < 6
    &&& 0 <= c < 7
    &&& 0 <= r + 3 * d.row_step() < 6
    &&& 0 <= c + 3 * d.column_step() < 7
}

/// The four cells that start at row `r`, column `c` and run in direction `d`
/// lie within the grid and all hold `coin`.
pub open spec fn four_at(s: Seq<Seq<Coin>>, r: int, c: int, d: Direction, coin: Coin) -> bool {
    &&& fits(r, c, d)
    &&& s[r][c] == coin
    &&& s[r + d.row_step()][c + d.column_step()] == coin
    &&& s[r + 2 * d.row_step()][c + 2 * d.column_step()] == coin
    &&& s[r + 3 * d.row_step()][c + 3 * d.column_step()] == coin
}

/// Somewhere in the grid four cells in a row hold `coin`.
pub open spec fn has_four(s: Seq<Seq<Coin>>, coin: Coin) -> bool {
    exists|r: int, c: int, d: Direction| #[trigger] four_at(s, r, c, d, coin)
}

/// Direction of the `k`-th line. In the grid fit 69 lines of four cells: 24
/// horizontal, 21 vertical, 12 rising and 12 falling. They are numbered from
/// 0 in the order in which the grid is searched: the horizontal lines row by
/// row, then the vertical lines column by column, then the diagonal lines
/// column by column, at each corner the rising line before the falling one.
pub open spec fn line_direction(k: int) -> Direction {
    if k < 24 {
        Direction::Horizontal
    } else if k < 45 {
        Direction::Vertical
    } else if (k - 45) % 2 == 0 {
        Direction::Rising
    } else {
        Direction::Falling
    }
}

/// Row of the first cell of the `k`-th line.
pub open spec fn line_row(k: int) -> int {
    if k < 24 {
        k / 4
    } else if k < 45 {
        (k - 24) % 3
    } else if (k - 45) % 2 == 0 {
        ((k - 45) / 2) % 3
    } else {
        ((k - 45) / 2) % 3 + 3
    }
}

/// Column of the first cell of the `k`-th line.
pub open spec fn line_column(k: int) -> int {
    if k < 24 {
        k % 4
    } else if k < 45 {
        (k - 24) / 3
    } else {
        ((k - 45) / 2) / 3
    }
}

/// Number of the line that starts at row `r`, column `c` and runs in
/// direction `d`.
pub open spec fn line_number(r: int, c: int, d: Direction) -> int {
    match d {
        Direction::Horizontal => 4 * r + c,
        Direction::Vertical => 24 + 3 * c + r,
        Direction::Rising => 45 + 2 * (3 * c + r),
        Direction::Falling => 45 + 2 * (3 * c + (r - 3)) + 1,
    }
}

/// The coin in the first cell of the `k`-th line.
pub open spec fn line_coin(s: Seq<Seq<Coin>>, k: int) -> Coin {
    s[line_row(k)][line_column(k)]
}

/// The four cells of the `k`-th line hold the same coin, and are not empty.
pub open spec fn line_wins(s: Seq<Seq<Coin>>, k: int) -> bool {
    &&& 0 <= k < 69
    &&& line_coin(s, k) != Coin::Empty
    &&& four_at(s, line_row(k), line_column(k), line_direction(k), line_coin(s, k))
}

/// The `k`-th line wins and no line before it does.
pub open spec fn first_win(s: Seq<Seq<Coin>>, k: int) -> bool {
    &&& line_wins(s, k)
    &&& forall|m: int| 0 <= m < k ==> !line_wins(s, m)
}

/// The coin of the first winning line in the order of the search, if any
/// line wins.
pub open spec fn winner_of(s: Seq<Seq<Coin>>) -> Option<Coin> {
    if exists|k: int| first_win(s, k) {
        Some(line_coin(s, choose|k: int| first_win(s, k)))
    } else {
        None
    }
}

/// Some cell of the grid, whatever its shape, is empty.
pub open spec fn has_empty(s: Seq<Seq<Coin>>) -> bool {
    exists|r: int, c: int| 0 <= r < s.len() && 0 <= c < s[r].len() && #[trigger] s[r][c] == Coin::Empty
}

/// The first empty row of column `c` at or above row `r`, or 6 if there is none.
pub open spec fn empty_row_from(s: Seq<Seq<Coin>>, c: int, r: int) -> int
    decreases 6 - r,
{
    if r >= 6 || s[r][c] == Coin::Empty {
        r
    } else {
        empty_row_from(s, c, r + 1)
    }
}

/// The row in which a coin dropped into column `c` comes to rest: the lowest
/// empty one. It is 6 if the column is full.
pub open spec fn landing_row(s: Seq<Seq<Coin>>, c: int) -> int {
    empty_row_from(s, c, 0)
}

/// The landing row of a column is its lowest empty row.
pub proof fn lemma_landing_row(s: Seq<Seq<Coin>>, c: int)
    ensures
        0 <= landing_row(s, c) <= 6,
        landing_row(s, c) < 6 ==> s[landing_row(s, c)][c] == Coin::Empty,
        forall|q: int| 0 <= q < landing_row(s, c) ==> #[trigger] s[q][c] != Coin::Empty,
{
    lemma_empty_row_from(s, c, 0);
}

proof fn lemma_empty_row_from(s: Seq<Seq<Coin>>, c: int, r: int)
    requires
        0 <= r <= 6,
    ensures
        r <= empty_row_from(s, c, r) <= 6,
        empty_row_from(s, c, r) < 6 ==> s[empty_row_from(s, c, r)][c] == Coin::Empty,
        forall|q: int| r <= q < empty_row_from(s, c, r) ==> #[trigger] s[q][c] != Coin::Empty,
    decreases 6 - r,
{
    if r < 6 && s[r][c] != Coin::Empty {
        lemma_empty_row_from(s, c, r + 1);
    }
}

/// What a drop into column `c` returns: the landing row, or why the coin
/// was refused.
pub open spec fn drop_outcome(s: Seq<Seq<Coin>>, c: int) -> Result<usize, GameError> {
    if c < 0 || c >= 7 {
        Err(GameError::InvalidColumnForMove)
    } else if landing_row(s, c) >= 6 {
        Err(GameError::ColumnFull)
    } else {
        Ok(landing_row(s, c) as usize)
    }
}

/// The grid after `coin` was dropped into column `c`: unchanged where the
/// coin was refused.
pub open spec fn after_drop(s: Seq<Seq<Coin>>, c: int, coin: Coin) -> Seq<Seq<Coin>> {
    if drop_outcome(s, c) is Ok {
        with_coin(s, landing_row(s, c), c, coin)
    } else {
        s
    }
}

/// A fresh grid: six rows of seven empty cells.
pub fn empty_grid() -> (grid: Vec<Vec<Coin>>)
    ensures
        cells(&grid) == blank(),
{
    let mut grid: Vec<Vec<Coin>> = Vec::with_capacity(6);
    let mut r: usize = 0;
    while r < 6
        invariant
            r <= 6,
            grid@.len() == r,
            forall|i: int| 0 <= i < r ==> (#[trigger] grid@[i])@ == Seq::new(7, |c: int| Coin::Empty),
        decreases 6 - r,
    {
        let mut row: Vec<Coin> = Vec::with_capacity(7);
        let mut c: usize = 0;
        while c < 7
            invariant
                c <= 7,
                row@.len() == c,
                forall|j: int| 0 <= j < c ==> #[trigger] row@[j] == Coin::Empty,
            decreases 7 - c,
        {
            row.push(Coin::Empty);
            c += 1;
        }
        assert(row@ =~= Seq::new(7, |c: int| Coin::Empty));
        grid.push(row);
        r += 1;
    }
    assert(cells(&grid) =~= blank());
    grid
}

/// Whether any cell of the grid is empty. The grid may have any shape.
pub fn any_empty(grid: &Vec<Vec<Coin>>) -> (found: bool)
    ensures
        found == has_empty(cells(grid)),
{
    let mut r: usize = 0;
    while r < grid.len()
        invariant
            r <= grid@.len(),
            forall|i: int, j: int|
                0 <= i < r && 0 <= j < cells(grid)[i].len() ==> #[trigger] cells(grid)[i][j]
                    != Coin::Empty,
        decreases grid@.len() - r,
    {
        let mut c: usize = 0;
        while c < grid[r].len()
            invariant
                r < grid@.len(),
                c <= grid@[r as int]@.len(),
                forall|j: int| 0 <= j < c ==> #[trigger] grid@[r as int]@[j] != Coin::Empty,
            decreases grid@[r as int]@.len() - c,
        {
            if grid[r][c] == Coin::Empty {
                assert(cells(grid)[r as int][c as int] == Coin::Empty);
                return true;
            }
            c += 1;
        }
        assert(cells(grid)[r as int] == grid@[r as int]@);
        r += 1;
    }
    false
}

/// The coin in row `r` of column `c`.
fn cell(grid: &Vec<Vec<Coin>>, r: usize, c: usize) -> (coin: Coin)
    requires
        well_shaped(cells(grid)),
        r < 6,
        c < 7,
    ensures
        coin == cells(grid)[r as int][c as int],
{
    assert(cells(grid)[r as int] == grid@[r as int]@);
    assert(cells(grid)[r as int].len() == 7);
    grid[r][c]
}

/// Where the `k`-th line starts and in which direction it runs.
fn line(k: usize) -> (at: (usize, usize, Direction))
    requires
        k < 69,
    ensures
        at.0 == line_row(k as int),
        at.1 == line_column(k as int),
        at.2 == line_direction(k as int),
        fits(at.0 as int, at.1 as int, at.2),
{
    if k < 24 {
        (k / 4, k % 4, Direction::Horizontal)
    } else if k < 45 {
        ((k - 24) % 3, (k - 24) / 3, Direction::Vertical)
    } else {
        let corner: usize = (k - 45) / 2;
        if (k - 45) % 2 == 0 {
            (corner % 3, corner / 3, Direction::Rising)
        } else {
            (corner % 3 + 3, corner / 3, Direction::Falling)
        }
    }
}

/// Whether the four cells from row `r`, column `c` in direction `d` all hold `coin`.
fn holds_four(grid: &Vec<Vec<Coin>>, r: usize, c: usize, d: Direction, coin: Coin) -> (all: bool)
    requires
        well_shaped(cells(grid)),
        fits(r as int, c as int, d),
    ensures
        all == four_at(cells(grid), r as int, c as int, d, coin),
{
    let rows: (usize, usize, usize) = match d {
        Direction::Horizontal => (r, r, r),
        Direction::Falling => (r - 1, r - 2, r - 3),
        _ => (r + 1, r + 2, r + 3),
    };
    let columns: (usize, usize, usize) = match d {
        Direction::Vertical => (c, c, c),
        _ => (c + 1, c + 2, c + 3),
    };
    cell(grid, r, c) == coin && cell(grid, rows.0, columns.0) == coin && cell(
        grid,
        rows.1,
        columns.1,
    ) == coin && cell(grid, rows.2, columns.2) == coin
}

/// Searches the whole grid for four equal coins in a row and returns the
/// coin of the first such line, in the order in which the lines are numbered.
pub fn detect_win(grid: &Vec<Vec<Coin>>) -> (found: Option<Coin>)
    requires
        well_shaped(cells(grid)),
    ensures
        found == winner_of(cells(grid)),
{
    let mut k: usize = 0;
    while k < 69
        invariant
            k <= 69,
            well_shaped(cells(grid)),
            forall|m: int| 0 <= m < k ==> !line_wins(cells(grid), m),
        decreases 69 - k,
    {
        let at: (usize, usize, Direction) = line(k);
        let coin: Coin = cell(grid, at.0, at.1);
        if coin != Coin::Empty && holds_four(grid, at.0, at.1, at.2, coin) {
            proof {
                lemma_first_win_is_winner(cells(grid), k as int);
            }
            return Some(coin);
        }
        k += 1;
    }
    None
}

/// The first winning line decides the winner.
pub proof fn lemma_first_win_is_winner(s: Seq<Seq<Coin>>, k: int)
    requires
        first_win(s, k),
    ensures
        winner_of(s) == Some(line_coin(s, k)),
{
    let j = choose|j: int| first_win(s, j);
    if j < k {
        assert(!line_wins(s, j));
    } else if k < j {
        assert(!line_wins(s, k));
    }
}

/// Drops `coin` into `column`. It comes to rest in the lowest empty row of
/// that column, and that row is returned. A column beyond the seventh is
/// refused, and so is a full one; the grid is then left as it was.
pub fn drop_coin(grid: &mut Vec<Vec<Coin>>, column: usize, coin: Coin) -> (landed: Result<
    usize,
    GameError,
>)
    requires
        well_shaped(cells(old(grid))),
    ensures
        landed == drop_outcome(cells(old(grid)), column as int),
        cells(final(grid)) == after_drop(cells(old(grid)), column as int, coin),
        well_shaped(cells(final(grid))),
        column >= 7 ==> landed == Err::<usize, GameError>(GameError::InvalidColumnForMove)
            && cells(final(grid)) == cells(old(grid)),
{
    if column >= 7 {
        return Err(GameError::InvalidColumnForMove);
    }
    let ghost s = cells(grid);
    let mut row: usize = 0;
    while row < 6
        invariant
            row <= 6,
            column < 7,
            s == cells(grid),
            s == cells(old(grid)),
            well_shaped(s),
            forall|q: int| 0 <= q < row ==> #[trigger] s[q][column as int] != Coin::Empty,
        decreases 6 - row,
    {
        if cell(grid, row, column) == Coin::Empty {
            proof {
                lemma_landing_row(s, column as int);
            }
            assert(landing_row(s, column as int) == row);
            put(grid, row, column, coin);
            proof {
                lemma_with_coin_keeps_shape(s, row as int, column as int, coin);
            }
            return Ok(row);
        }
        row += 1;
    }
    proof {
        lemma_landing_row(s, column as int);
    }
    assert(landing_row(s, column as int) == 6);
    Err(GameError::ColumnFull)
}

/// Replacing one cell keeps the shape of the grid.
pub proof fn lemma_with_coin_keeps_shape(s: Seq<Seq<Coin>>, r: int, c: int, coin: Coin)
    requires
        well_shaped(s),
        0 <= r < 6,
        0 <= c < 7,
    ensures
        well_shaped(with_coin(s, r, c, coin)),
{
    let t = with_coin(s, r, c, coin);
    assert forall|i: int| 0 <= i < 6 implies (#[trigger] t[i]).len() == 7 by {
        assert(s[i].len() == 7);
    }
}

fn put(grid: &mut Vec<Vec<Coin>>, r: usize, c: usize, coin: Coin)
    requires
        well_shaped(cells(old(grid))),
        r < 6,
        c < 7,
    ensures
        cells(final(grid)) == with_coin(cells(old(grid)), r as int, c as int, coin),
{
    assert(cells(grid)[r as int].len() == 7);
    grid[r][c] = coin;
    assert(cells(grid) =~= with_coin(cells(old(grid)), r as int, c as int, coin));
}

/// If any line wins, there is a first such line, and so a winner.
pub proof fn lemma_some_line_wins(s: Seq<Seq<Coin>>, k: int)
    requires
        line_wins(s, k),
    ensures
        winner_of(s) is Some,
    decreases k,
{
    if forall|m: int| 0 <= m < k ==> !line_wins(s, m) {
        assert(first_win(s, k));
    } else {
        let m = choose|m: int| 0 <= m < k && line_wins(s, m);
        lemma_some_line_wins(s, m);
    }
}

/// A winner is never the empty coin and has four in a row; without a winner
/// no line wins.
pub proof fn lemma_winner(s: Seq<Seq<Coin>>)
    ensures
        match winner_of(s) {
            Some(coin) => coin != Coin::Empty && has_four(s, coin),
            None => forall|k: int| !line_wins(s, k),
        },
{
    if winner_of(s) is Some {
        let k = choose|k: int| first_win(s, k);
        assert(four_at(s, line_row(k), line_column(k), line_direction(k), line_coin(s, k)));
    } else {
        assert forall|k: int| !line_wins(s, k) by {
            if line_wins(s, k) {
                lemma_some_line_wins(s, k);
            }
        }
    }
}

/// Four equal coins in a row are found wherever they lie and in whichever
/// of the four directions they run.
pub proof fn lemma_four_is_found(s: Seq<Seq<Coin>>, r: int, c: int, d: Direction, coin: Coin)
    requires
        coin != Coin::Empty,
        four_at(s, r, c, d, coin),
    ensures
        winner_of(s) is Some,
{
    let k = line_number(r, c, d);
    assert(0 <= k < 69);
    assert(line_direction(k) == d);
    assert(line_row(k) == r);
    assert(line_column(k) == c);
    assert(line_wins(s, k));
    lemma_some_line_wins(s, k);
}

/// There is a winner exactly if one of the two players has four in a row.
pub proof fn lemma_winner_iff_four(s: Seq<Seq<Coin>>)
    ensures
        winner_of(s) is Some <==> has_four(s, Coin::Player1) || has_four(s, Coin::Player2),
{
    lemma_winner(s);
    if has_four(s, Coin::Player1) {
        let (r, c, d) = choose|r: int, c: int, d: Direction| #[trigger]
            four_at(s, r, c, d, Coin::Player1);
        lemma_four_is_found(s, r, c, d, Coin::Player1);
    }
    if has_four(s, Coin::Player2) {
        let (r, c, d) = choose|r: int, c: int, d: Direction| #[trigger]
            four_at(s, r, c, d, Coin::Player2);
        lemma_four_is_found(s, r, c, d, Coin::Player2);
    }
}

/// On a grid that no one has won, one more coin can only make its own
/// colour win.
pub proof fn lemma_only_the_new_coin_wins(s: Seq<Seq<Coin>>, r: int, c: int, coin: Coin)
    requires
        well_shaped(s),
        0 <= r < 6,
        0 <= c < 7,
        winner_of(s) is None,
    ensures
        winner_of(with_coin(s, r, c, coin)) is None || winner_of(with_coin(s, r, c, coin)) == Some(
            coin,
        ),
{
    let t = with_coin(s, r, c, coin);
    lemma_winner(s);
    if winner_of(t) is Some && winner_of(t) != Some(coin) {
        let k = choose|k: int| first_win(t, k);
        let x = line_coin(t, k);
        let (r0, c0, d) = (line_row(k), line_column(k), line_direction(k));
        assert(four_at(t, r0, c0, d, x));
        assert(t[r][c] == coin);
        assert forall|i: int, j: int| 0 <= i < 6 && 0 <= j < 7 && !(i == r && j == c) implies t[i][j]
            == s[i][j] by {}
        assert(s[r0][c0] == x);
        assert(s[r0 + d.row_step()][c0 + d.column_step()] == x);
        assert(s[r0 + 2 * d.row_step()][c0 + 2 * d.column_step()] == x);
        assert(s[r0 + 3 * d.row_step()][c0 + 3 * d.column_step()] == x);
        assert(line_wins(s, k));
    }
}

/// The blank grid is well shaped, has room and no gap, and no one has won it.
pub proof fn lemma_blank()
    ensures
        well_shaped(blank()),
        has_empty(blank()),
        settled(blank()),
        winner_of(blank()) is None,
{
    assert(blank()[0][0] == Coin::Empty);
    assert forall|c: int| 0 <= c < 7 implies #[trigger] column_settled(blank(), c) by {
        lemma_landing_row(blank(), c);
    }
    lemma_winner(blank());
    if winner_of(blank()) is Some {
        let k = choose|k: int| first_win(blank(), k);
        assert(line_coin(blank(), k) == Coin::Empty);
    }
}

/// The landing row of a column is the only row below which every cell of
/// the column is taken and which is itself empty, or the top.
pub proof fn lemma_landing_row_is(s: Seq<Seq<Coin>>, c: int, h: int)
    requires
        0 <= h <= 6,
        forall|q: int| 0 <= q < h ==> #[trigger] s[q][c] != Coin::Empty,
        h < 6 ==> s[h][c] == Coin::Empty,
    ensures
        landing_row(s, c) == h,
{
    lemma_landing_row(s, c);
    let l = landing_row(s, c);
    if l < h {
        assert(s[l][c] != Coin::Empty);
    } else if h < l {
        assert(s[h][c] != Coin::Empty);
    }
}

/// No coin hangs in column `c`: every cell from the landing row upwards is empty.
pub open spec fn column_settled(s: Seq<Seq<Coin>>, c: int) -> bool {
    forall|r: int| landing_row(s, c) <= r < 6 ==> #[trigger] s[r][c] == Coin::Empty
}

/// In every column the coins lie on each other from the bottom, without a gap.
pub open spec fn settled(s: Seq<Seq<Coin>>) -> bool {
    forall|c: int| 0 <= c < 7 ==> #[trigger] column_settled(s, c)
}

/// A coin that is dropped into a column with room raises that column by one
/// row and leaves no gap in it.
pub proof fn lemma_drop_raises_column(s: Seq<Seq<Coin>>, c: int, coin: Coin)
    requires
        well_shaped(s),
        0 <= c < 7,
        column_settled(s, c),
        coin != Coin::Empty,
        landing_row(s, c) < 6,
    ensures
        well_shaped(after_drop(s, c, coin)),
        landing_row(after_drop(s, c, coin), c) == landing_row(s, c) + 1,
        column_settled(after_drop(s, c, coin), c),
{
    let h = landing_row(s, c);
    let t = after_drop(s, c, coin);
    lemma_landing_row(s, c);
    lemma_with_coin_keeps_shape(s, h, c, coin);
    assert forall|q: int| 0 <= q < 6 implies #[trigger] t[q][c] == (if q == h {
        coin
    } else {
        s[q][c]
    }) by {
        assert(s[q].len() == 7);
    }
    assert forall|q: int| 0 <= q < h + 1 implies #[trigger] t[q][c] != Coin::Empty by {
        if q < h {
            assert(s[q][c] != Coin::Empty);
        }
    }
    if h + 1 < 6 {
        assert(s[h + 1][c] == Coin::Empty);
    }
    lemma_landing_row_is(t, c, h + 1);
    assert forall|r: int| h + 1 <= r < 6 implies #[trigger] t[r][c] == Coin::Empty by {
        assert(s[r][c] == Coin::Empty);
    }
}

/// Dropping a coin keeps the coins of every column lying on each other.
pub proof fn lemma_drop_keeps_gravity(s: Seq<Seq<Coin>>, c: int, coin: Coin)
    requires
        well_shaped(s),
        settled(s),
        coin != Coin::Empty,
    ensures
        settled(after_drop(s, c, coin)),
{
    let t = after_drop(s, c, coin);
    if drop_outcome(s, c) is Ok {
        let h = landing_row(s, c);
        assert(column_settled(s, c));
        lemma_drop_raises_column(s, c, coin);
        assert forall|d: int| 0 <= d < 7 implies #[trigger] column_settled(t, d) by {
            if d != c {
                assert(column_settled(s, d));
                lemma_landing_row(s, d);
                assert forall|q: int| 0 <= q < 6 implies #[trigger] t[q][d] == s[q][d] by {
                    assert(s[q].len() == 7);
                }
                assert forall|q: int| 0 <= q < landing_row(s, d) implies #[trigger] t[q][d]
                    != Coin::Empty by {
                    assert(s[q][d] != Coin::Empty);
                }
                lemma_landing_row_is(t, d, landing_row(s, d));
                assert forall|r: int| landing_row(t, d) <= r < 6 implies #[trigger] t[r][d]
                    == Coin::Empty by {
                    assert(s[r][d] == Coin::Empty);
                }
            }
        }
    }
}

/// The grid after the coins in `coins` were dropped into column `c`, one
/// after the other.
pub open spec fn after_drops(s: Seq<Seq<Coin>>, c: int, coins: Seq<Coin>) -> Seq<Seq<Coin>>
    decreases coins.len(),
{
    if coins.len() == 0 {
        s
    } else {
        after_drops(after_drop(s, c, coins[0]), c, coins.drop_first())
    }
}

/// Every one of the coins in `coins`, dropped into column `c` one after the
/// other, is taken.
pub open spec fn drops_accepted(s: Seq<Seq<Coin>>, c: int, coins: Seq<Coin>) -> bool
    decreases coins.len(),
{
    coins.len() > 0 ==> drop_outcome(s, c) is Ok && drops_accepted(
        after_drop(s, c, coins[0]),
        c,
        coins.drop_first(),
    )
}

/// A column without a gap takes as many coins as it has rows left, and no
/// more: a run of drops into it is accepted exactly if the coins fit, and
/// raises the column by their number.
pub proof fn lemma_column_takes_what_fits(s: Seq<Seq<Coin>>, c: int, coins: Seq<Coin>)
    requires
        well_shaped(s),
        0 <= c < 7,
        column_settled(s, c),
        forall|i: int| 0 <= i < coins.len() ==> #[trigger] coins[i] != Coin::Empty,
    ensures
        drops_accepted(s, c, coins) <==> landing_row(s, c) + coins.len() <= 6,
        drops_accepted(s, c, coins) ==> landing_row(after_drops(s, c, coins), c) == landing_row(s, c)
            + coins.len(),
    decreases coins.len(),
{
    lemma_landing_row(s, c);
    if coins.len() > 0 && landing_row(s, c) < 6 {
        let rest = coins.drop_first();
        assert(coins[0] != Coin::Empty);
        assert forall|i: int| 0 <= i < rest.len() implies #[trigger] rest[i] != Coin::Empty by {
            assert(rest[i] == coins[i + 1]);
        }
        lemma_drop_raises_column(s, c, coins[0]);
        lemma_column_takes_what_fits(after_drop(s, c, coins[0]), c, rest);
    }
}

/// An empty column takes six coins, and is full then: a seventh is refused.
pub proof fn lemma_six_coins_fill_a_column(s: Seq<Seq<Coin>>, c: int, coins: Seq<Coin>)
    requires
        well_shaped(s),
        0 <= c < 7,
        forall|r: int| 0 <= r < 6 ==> #[trigger] s[r][c] == Coin::Empty,
        coins.len() == 6,
        forall|i: int| 0 <= i < 6 ==> #[trigger] coins[i] != Coin::Empty,
    ensures
        drops_accepted(s, c, coins),
        drop_outcome(after_drops(s, c, coins), c) == Err::<usize, GameError>(GameError::ColumnFull),
{
    lemma_landing_row_is(s, c, 0);
    lemma_column_takes_what_fits(s, c, coins);
}

} // verus!
