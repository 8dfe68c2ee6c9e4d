//! The mathematical model of the engine: an abstract view of a game, its
//! well-formedness, and the transition functions that the executable
//! operations are proved to implement.

use vstd::prelude::*;

use crate::cells::{cycled_kind, landable, other_player, Cell, DropError, Player, PowerUpKind};
use crate::counting::{
    empty_in_region, lemma_empty_from_update_row, lemma_empty_row_from_update,
    lemma_pu_from_update_row, lemma_pu_row_from_update, pu_count,
};

verus! {

/// Rows of the starting board.
pub const ROWS: usize = 6;

/// Columns of the starting board.
pub const COLS: usize = 7;

/// Rows after the one-time expansion.
pub const EXPANDED_ROWS: usize = 10;

/// Columns after the one-time expansion. Columns stay below ten so that a
/// column maps to a single decimal digit at the human-facing surface.
pub const EXPANDED_COLS: usize = 10;

/// Power-up cells seeded into a fresh board when power-ups are enabled.
pub const INITIAL_POWER_UPS: usize = 6;

/// A board as a mathematical value: a sequence of rows, each a sequence of
/// cells, with row zero at the bottom.
pub type Grid = Seq<Seq<Cell>>;

/// Abstract state of a game: the board plus the turn bookkeeping.
pub struct GameView {
    pub board: Grid,
    pub current_player: Player,
    pub skip_next_turn: bool,
    pub expanded: bool,
    pub power_ups_enabled: bool,
}

/// Width of a grid, read off its bottom row.
pub open spec fn grid_width(g: Grid) -> int {
    if g.len() == 0 {
        0
    } else {
        g[0].len() as int
    }
}

pub open spec fn cell_in_bounds(g: Grid, r: int, c: int) -> bool {
    0 <= r < g.len() && 0 <= c < g[r].len()
}

/// The grid with the one cell `(r, c)` replaced by `v`.
pub open spec fn grid_set(g: Grid, r: int, c: int, v: Cell) -> Grid {
    g.update(r, g[r].update(c, v))
}

/// The first row at or above `r` in `col` where a falling piece could come
/// to rest, or the row count when the column offers none.
pub open spec fn first_landable_from(g: Grid, col: int, r: int) -> int
    decreases g.len() - r,
{
    if r < 0 || r >= g.len() {
        g.len() as int
    } else if landable(g[r][col]) {
        r
    } else {
        first_landable_from(g, col, r + 1)
    }
}

/// The landing row of column `col`: the lowest row holding an empty or a
/// power-up cell, or the row count when every cell is a mark or an obstacle.
pub open spec fn landing_row(g: Grid, col: int) -> int {
    first_landable_from(g, col, 0)
}

/// Where an obstacle released at row `r` of column `col` comes to rest: it
/// falls while the cell below is empty or a power-up.
pub open spec fn fall_row(g: Grid, col: int, r: int) -> int
    decreases r,
{
    if r > 0 && landable(g[r - 1][col]) {
        fall_row(g, col, r - 1)
    } else {
        r
    }
}

/// A spawned obstacle dropped toward cell `(r, c)`: if the cell lies on the
/// board and is empty or a power-up, the obstacle falls from there and
/// settles; a cell holding a mark or an obstacle is left alone, as is a
/// position off the board.
pub open spec fn spawn_obstacle(g: Grid, r: int, c: int) -> Grid {
    if 0 <= r < g.len() && 0 <= c < grid_width(g) && landable(g[r][c]) {
        grid_set(g, fall_row(g, c, r), c, Cell::Obstacle)
    } else {
        g
    }
}

/// The obstacle spawner at `(r, c)` drops one obstacle toward each
/// horizontal neighbour, left first.
pub open spec fn spawn_both(g: Grid, r: int, c: int) -> Grid {
    spawn_obstacle(spawn_obstacle(g, r, c - 1), r, c + 1)
}

/// Four cells in a line from `(r, c)` along `(dr, dc)`, all holding the same
/// player's mark. Obstacles and power-up markers never match a player.
pub open spec fn four_run(g: Grid, r: int, c: int, dr: int, dc: int) -> bool {
    &&& cell_in_bounds(g, r, c)
    &&& g[r][c] is Mark
    &&& cell_in_bounds(g, r + dr, c + dc) && g[r + dr][c + dc] == g[r][c]
    &&& cell_in_bounds(g, r + 2 * dr, c + 2 * dc) && g[r + 2 * dr][c + 2 * dc] == g[r][c]
    &&& cell_in_bounds(g, r + 3 * dr, c + 3 * dc) && g[r + 3 * dr][c + 3 * dc] == g[r][c]
}

/// A four-in-a-row starting at `(r, c)` toward the right, upward, up-right
/// or down-right. Runs in the remaining four directions start at their other
/// end, so every run is found.
pub open spec fn wins_at(g: Grid, r: int, c: int) -> bool {
    ||| four_run(g, r, c, 0, 1)
    ||| four_run(g, r, c, 1, 0)
    ||| four_run(g, r, c, 1, 1)
    ||| four_run(g, r, c, -1, 1)
}

/// No run starts at a cell scanned before `(r, c)` in row-major order.
pub open spec fn no_win_before(g: Grid, r: int, c: int) -> bool {
    forall|i: int, j: int|
        0 <= i < g.len() && 0 <= j < g[i].len() && (i < r || (i == r && j < c)) ==> !(
        #[trigger] wins_at(g, i, j))
}

pub open spec fn has_no_winner(g: Grid) -> bool {
    forall|i: int, j: int| cell_in_bounds(g, i, j) ==> !(#[trigger] wins_at(g, i, j))
}

/// Every cell is occupied: no `Empty` cell remains. Power-up markers and
/// obstacles count as occupied.
pub open spec fn grid_full(g: Grid) -> bool {
    forall|r: int, c: int| cell_in_bounds(g, r, c) ==> !((#[trigger] g[r][c]) is Empty)
}

impl GameView {
    pub open spec fn rows(self) -> int {
        self.board.len() as int
    }

    pub open spec fn cols(self) -> int {
        grid_width(self.board)
    }

    /// Well-formedness: the dimensions follow the one-shot expansion latch,
    /// every row has the common width, and power-up cells exist only while
    /// power-ups are enabled.
    pub open spec fn wf(self) -> bool {
        &&& self.rows() == if self.expanded {
            EXPANDED_ROWS as int
        } else {
            ROWS as int
        }
        &&& self.cols() == if self.expanded {
            EXPANDED_COLS as int
        } else {
            COLS as int
        }
        &&& forall|r: int| 0 <= r < self.rows() ==> (#[trigger] self.board[r]).len() == self.cols()
        &&& !self.power_ups_enabled ==> forall|r: int, c: int|
            cell_in_bounds(self.board, r, c) ==> !(#[trigger] self.board[r][c] is PowerUp)
    }
}

/// Effect of a bomb triggered at `(r, c)`: the cell and the cell directly
/// below it (if any) are cleared, and the next turn switch is cancelled, so
/// the triggering player goes again.
pub open spec fn bomb_spec(g: GameView, r: int, c: int) -> GameView {
    let cleared = if r > 0 {
        grid_set(grid_set(g.board, r, c, Cell::Empty), r - 1, c, Cell::Empty)
    } else {
        grid_set(g.board, r, c, Cell::Empty)
    };
    GameView { board: cleared, skip_next_turn: true, ..g }
}

/// Effect of resolving whatever power-up sits at `(r, c)`: nothing happens
/// when power-ups are disabled or the cell holds no power-up.
pub open spec fn activate_spec(g: GameView, r: int, c: int) -> GameView {
    if !g.power_ups_enabled {
        g
    } else {
        match g.board[r][c] {
            Cell::PowerUp(PowerUpKind::Bomb) => bomb_spec(g, r, c),
            Cell::PowerUp(PowerUpKind::Skip) => (GameView { skip_next_turn: true, ..g }),
            Cell::PowerUp(PowerUpKind::ObstacleSpawner) => (GameView {
                board: spawn_both(g.board, r, c),
                ..g
            }),
            _ => g,
        }
    }
}

/// Outcome of dropping into `col`: the landing position, or the error.
/// A column index at or beyond the width is invalid; a column without a
/// landable cell is full; an empty landing cell directly above an obstacle
/// rejects the piece.
pub open spec fn drop_result(g: GameView, col: int) -> Result<(usize, usize), DropError> {
    if !(0 <= col < g.cols()) {
        Err(DropError::InvalidColumn)
    } else {
        let lr = landing_row(g.board, col);
        if lr >= g.rows() {
            Err(DropError::ColumnFull)
        } else if g.board[lr][col] is Empty && lr > 0 && g.board[lr - 1][col] is Obstacle {
            Err(DropError::BlockedByObstacle)
        } else {
            Ok(((lr as usize), (col as usize)))
        }
    }
}

/// The state after dropping into `col`. On any error the state is
/// unchanged. On an empty landing cell the current player's mark fills it.
/// On a power-up cell the power-up resolves first (power-up cells exist
/// only while power-ups are enabled): a bomb clears cells and places no
/// mark; a skip sets the latch and the mark is placed; a spawner drops
/// obstacles into the neighbouring columns and the mark is placed.
pub open spec fn drop_state(g: GameView, col: int) -> GameView {
    if drop_result(g, col) is Err {
        g
    } else {
        let lr = landing_row(g.board, col);
        match g.board[lr][col] {
            Cell::Empty => (GameView {
                board: grid_set(g.board, lr, col, Cell::Mark(g.current_player)),
                ..g
            }),
            Cell::PowerUp(PowerUpKind::Bomb) => bomb_spec(g, lr, col),
            Cell::PowerUp(PowerUpKind::Skip) => (GameView {
                board: grid_set(g.board, lr, col, Cell::Mark(g.current_player)),
                skip_next_turn: true,
                ..g
            }),
            Cell::PowerUp(PowerUpKind::ObstacleSpawner) => (GameView {
                board: grid_set(spawn_both(g.board, lr, col), lr, col, Cell::Mark(g.current_player)),
                ..g
            }),
            _ => g,
        }
    }
}

/// The turn switch: a pending skip cancels one switch; otherwise the turn
/// passes to the other player.
pub open spec fn switch_spec(g: GameView) -> GameView {
    if g.skip_next_turn {
        GameView { skip_next_turn: false, ..g }
    } else {
        GameView { current_player: other_player(g.current_player), ..g }
    }
}

/// The starting board: every cell of the 6 x 7 grid empty.
pub open spec fn empty_start_grid() -> Grid {
    Seq::new(ROWS as nat, |r: int| Seq::new(COLS as nat, |c: int| Cell::Empty))
}

/// A board grown to the expanded size: the old cells keep their
/// coordinates in the bottom-left corner, every added cell is empty.
pub open spec fn grown_grid(b: Grid) -> Grid {
    Seq::new(
        EXPANDED_ROWS as nat,
        |r: int|
            Seq::new(
                EXPANDED_COLS as nat,
                |c: int|
                    if r < ROWS && c < COLS {
                        b[r][c]
                    } else {
                        Cell::Empty
                    },
            ),
    )
}

/// What one seeding pass did to a board: `ps` lists the added markers'
/// positions in placement order. The positions are distinct, lie in the
/// region at `from_row` or above and outside column `skip_col`, and were
/// empty before; the `k`-th now holds the `k`-th cycled power-up kind
/// (bomb, skip, obstacle spawner, around again); every other cell is
/// untouched.
pub open spec fn seeded_markers(
    b0: Grid,
    b1: Grid,
    ps: Seq<(int, int)>,
    from_row: int,
    skip_col: int,
) -> bool {
    &&& forall|k: int|
        0 <= k < ps.len() ==> cell_in_bounds(b0, (#[trigger] ps[k]).0, ps[k].1)
    &&& forall|k: int|
        0 <= k < ps.len() ==> (#[trigger] ps[k]).0 >= from_row && ps[k].1 != skip_col
    &&& forall|k: int| 0 <= k < ps.len() ==> b0[(#[trigger] ps[k]).0][ps[k].1] is Empty
    &&& forall|k: int|
        0 <= k < ps.len() ==> b1[(#[trigger] ps[k]).0][ps[k].1] == Cell::PowerUp(cycled_kind(k))
    &&& forall|k1: int, k2: int| 0 <= k1 < k2 < ps.len() ==> ps[k1] != ps[k2]
    &&& forall|i: int, j: int|
        cell_in_bounds(b0, i, j) && !ps.contains((i, j)) ==> (#[trigger] b1[i][j]) == b0[i][j]
}

/// Writing one cell shifts the grid's power-up count by the difference
/// between the new and the old cell.
pub proof fn lemma_pu_count_set(g: Grid, r: int, c: int, v: Cell)
    requires
        0 <= r < g.len(),
        0 <= c < g[r].len(),
    ensures
        pu_count(grid_set(g, r, c, v)) == pu_count(g) + (if v is PowerUp {
            1int
        } else {
            0int
        }) - (if g[r][c] is PowerUp {
            1int
        } else {
            0int
        }),
{
    lemma_pu_row_from_update(g[r], c, v, 0);
    lemma_pu_from_update_row(g, r, g[r].update(c, v), 0);
}

/// Writing one cell shifts a region's count of empty cells by the
/// difference between the new and the old cell, provided the cell lies in
/// the region; a write outside the region leaves the count alone.
pub proof fn lemma_empty_region_set(
    g: Grid,
    from_row: int,
    skip_col: int,
    r: int,
    c: int,
    v: Cell,
)
    requires
        0 <= from_row <= g.len(),
        0 <= r < g.len(),
        0 <= c < g[r].len(),
    ensures
        empty_in_region(grid_set(g, r, c, v), from_row, skip_col) == empty_in_region(
            g,
            from_row,
            skip_col,
        ) + (if r >= from_row && c != skip_col {
            (if v is Empty {
                1int
            } else {
                0int
            }) - (if g[r][c] is Empty {
                1int
            } else {
                0int
            })
        } else {
            0int
        }),
{
    lemma_empty_row_from_update(g[r], skip_col, c, v, 0);
    lemma_empty_from_update_row(g, skip_col, r, g[r].update(c, v), from_row);
}

/// Writing one cell keeps a game well-formed, as long as the new cell is a
/// power-up only while power-ups are enabled.
pub proof fn lemma_wf_after_set(g: GameView, r: int, c: int, v: Cell)
    requires
        g.wf(),
        0 <= r < g.rows(),
        0 <= c < g.cols(),
        v is PowerUp ==> g.power_ups_enabled,
    ensures
        (GameView { board: grid_set(g.board, r, c, v), ..g }).wf(),
        grid_set(g.board, r, c, v).len() == g.board.len(),
        forall|i: int|
            0 <= i < g.board.len() ==> (#[trigger] grid_set(g.board, r, c, v)[i]).len()
                == g.board[i].len(),
{
    let b2 = grid_set(g.board, r, c, v);
    assert(forall|i: int| 0 <= i < g.board.len() ==> (#[trigger] b2[i]).len() == g.board[i].len());
    let g2 = GameView { board: b2, ..g };
    assert(g2.cols() == g.cols());
    if !g.power_ups_enabled {
        assert forall|i: int, j: int|
            cell_in_bounds(b2, i, j) implies !(#[trigger] b2[i][j] is PowerUp) by {
            if i == r && j == c {
            } else {
                assert(b2[i][j] == g.board[i][j]);
            }
        }
    }
}

/// The landing-row search scans upward from `r`: its result lies between
/// `r` and the row count, lands on a landable cell when one exists, and
/// every row it passed over is unlandable.
pub proof fn lemma_first_landable_from_props(g: Grid, col: int, r: int)
    requires
        0 <= r <= g.len(),
    ensures
        r <= first_landable_from(g, col, r) <= g.len(),
        first_landable_from(g, col, r) < g.len() ==> landable(
            g[first_landable_from(g, col, r)][col],
        ),
        forall|i: int|
            r <= i < first_landable_from(g, col, r) ==> !landable(#[trigger] g[i][col]),
    decreases g.len() - r,
{
    if r < g.len() && !landable(g[r][col]) {
        lemma_first_landable_from_props(g, col, r + 1);
    }
}

} // verus!
