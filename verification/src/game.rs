//! The board engine: one mutable grid, the two players' turn bookkeeping,
//! and the operations the presentation layer calls. Every operation is
//! proved against the transition functions of [`crate::model`].

use vstd::prelude::*;

use crate::cells::{cycled_kind, flip_player, landable, Cell, DropError, Player, PowerUpKind};
use crate::counting::{
    empty_from, empty_in_region, empty_row_from, lemma_empty_from_all, lemma_pu_from_none,
    lemma_pu_grid_extend, lemma_pu_row_extend, lemma_pu_row_from_none, pu_count, pu_row_from,
};
use crate::model::{
    activate_spec, bomb_spec, cell_in_bounds, drop_result, drop_state, empty_start_grid,
    fall_row, first_landable_from, grid_full, grid_set, grown_grid, has_no_winner, landing_row,
    lemma_empty_region_set, lemma_pu_count_set, lemma_wf_after_set, no_win_before, seeded_markers,
    spawn_both, spawn_obstacle, switch_spec, wins_at, four_run, GameView, COLS, EXPANDED_COLS,
    EXPANDED_ROWS, INITIAL_POWER_UPS, ROWS,
};

verus! {

/// A game in progress: the board (row zero at the bottom), whose turn it
/// is, whether the next turn switch is cancelled, whether the one-shot
/// board expansion has happened, and whether power-ups are in play.
pub struct Game {
    board: Vec<Vec<Cell>>,
    current_player: Player,
    skip_next_turn: bool,
    expanded: bool,
    power_ups_enabled: bool,
}

impl View for Game {
    type V = GameView;

    closed spec fn view(&self) -> GameView {
        GameView {
            board: Seq::new(self.board@.len(), |i: int| self.board@[i]@),
            current_player: self.current_player,
            skip_next_turn: self.skip_next_turn,
            expanded: self.expanded,
            power_ups_enabled: self.power_ups_enabled,
        }
    }
}

impl Game {
    fn num_rows(&self) -> (n: usize)
        ensures
            n == self@.rows(),
    {
        self.board.len()
    }

    fn num_cols(&self) -> (n: usize)
        requires
            self@.wf(),
        ensures
            n == self@.cols(),
    {
        self.board[0].len()
    }

    /// Read one cell.
    fn cell_at(&self, r: usize, c: usize) -> (v: Cell)
        requires
            r < self@.rows(),
            c < self@.board[r as int].len(),
        ensures
            v == self@.board[r as int][c as int],
    {
        self.board[r][c]
    }

    /// Write one cell.
    fn set_cell(&mut self, r: usize, c: usize, v: Cell)
        requires
            r < old(self)@.rows(),
            c < old(self)@.board[r as int].len(),
        ensures
            final(self)@.board == grid_set(old(self)@.board, r as int, c as int, v),
            final(self)@.current_player == old(self)@.current_player,
            final(self)@.skip_next_turn == old(self)@.skip_next_turn,
            final(self)@.expanded == old(self)@.expanded,
            final(self)@.power_ups_enabled == old(self)@.power_ups_enabled,
    {
        self.board[r][c] = v;
        proof {
            assert(self@.board =~~= grid_set(old(self)@.board, r as int, c as int, v));
        }
    }

    /// The board, row-major with row zero at the bottom, for rendering.
    pub fn get_board(&self) -> (b: &Vec<Vec<Cell>>)
        ensures
            b@.len() == self@.board.len(),
            forall|i: int| 0 <= i < b@.len() ==> (#[trigger] b@[i])@ == self@.board[i],
    {
        &self.board
    }

    /// Whose turn it is.
    pub fn get_current_player(&self) -> (p: Player)
        ensures
            p == self@.current_player,
    {
        self.current_player
    }

    /// Whether the one-shot board expansion has already happened.
    pub fn is_expanded(&self) -> (e: bool)
        ensures
            e == self@.expanded,
    {
        self.expanded
    }

    /// Whether this game was created with power-ups in play.
    pub fn has_power_ups(&self) -> (e: bool)
        ensures
            e == self@.power_ups_enabled,
    {
        self.power_ups_enabled
    }

    /// Pass the turn: a pending skip cancels one switch (the same player
    /// goes again); otherwise the other player is up.
    pub fn switch_player(&mut self)
        requires
            old(self)@.wf(),
        ensures
            final(self)@ == switch_spec(old(self)@),
            final(self)@.wf(),
    {
        if self.skip_next_turn {
            self.skip_next_turn = false;
        } else {
            self.current_player = flip_player(self.current_player);
        }
    }

    /// Whether every cell is occupied. Power-up markers and obstacles count
    /// as occupied; only `Empty` cells keep a board from being full.
    pub fn is_full(&self) -> (full: bool)
        requires
            self@.wf(),
        ensures
            full == grid_full(self@.board),
    {
        let ghost g = self@.board;
        let rows = self.num_rows();
        let cols = self.num_cols();
        let mut r: usize = 0;
        while r < rows
            invariant
                self@.wf(),
                r <= rows,
                rows == self@.rows(),
                cols == self@.cols(),
                g == self@.board,
                forall|i: int, j: int|
                    0 <= i < r && 0 <= j < cols ==> !((#[trigger] g[i][j]) is Empty),
            decreases rows - r,
        {
            let mut c: usize = 0;
            while c < cols
                invariant
                    self@.wf(),
                    r < rows,
                    c <= cols,
                    rows == self@.rows(),
                    cols == self@.cols(),
                    g == self@.board,
                    forall|i: int, j: int|
                        0 <= i < r && 0 <= j < cols ==> !((#[trigger] g[i][j]) is Empty),
                    forall|j: int| 0 <= j < c ==> !((#[trigger] g[r as int][j]) is Empty),
                decreases cols - c,
            {
                if matches!(self.cell_at(r, c), Cell::Empty) {
                    assert(cell_in_bounds(g, r as int, c as int));
                    return false;
                }
                c += 1;
            }
            r += 1;
        }
        true
    }

    /// Resolve a bomb at `(row, col)`: clear the cell and the cell directly
    /// below it (if any), and cancel the next turn switch so the triggering
    /// player goes again.
    pub fn use_bomb(&mut self, row: usize, col: usize)
        requires
            old(self)@.wf(),
            row < old(self)@.rows(),
            col < old(self)@.cols(),
        ensures
            final(self)@ == bomb_spec(old(self)@, row as int, col as int),
            final(self)@.wf(),
    {
        proof {
            lemma_wf_after_set(old(self)@, row as int, col as int, Cell::Empty);
        }
        if row > 0 {
            self.set_cell(row, col, Cell::Empty);
            proof {
                lemma_wf_after_set(self@, row as int - 1, col as int, Cell::Empty);
            }
            self.set_cell(row - 1, col, Cell::Empty);
        } else {
            self.set_cell(row, col, Cell::Empty);
        }
        self.skip_next_turn = true;
    }

    /// Release one obstacle toward cell `(row, c)`: if that cell is empty
    /// or a power-up, the obstacle falls from there and settles; otherwise
    /// nothing changes.
    fn drop_obstacle_toward(&mut self, row: usize, c: usize)
        requires
            old(self)@.wf(),
            row < old(self)@.rows(),
            c < old(self)@.cols(),
        ensures
            final(self)@.board == spawn_obstacle(old(self)@.board, row as int, c as int),
            final(self)@.current_player == old(self)@.current_player,
            final(self)@.skip_next_turn == old(self)@.skip_next_turn,
            final(self)@.expanded == old(self)@.expanded,
            final(self)@.power_ups_enabled == old(self)@.power_ups_enabled,
            final(self)@.wf(),
    {
        let ghost g = self@.board;
        if crate::cells::is_landable(self.cell_at(row, c)) {
            let mut t: usize = row;
            while t > 0 && crate::cells::is_landable(self.cell_at(t - 1, c))
                invariant
                    self@.wf(),
                    g == self@.board,
                    row < self@.rows(),
                    c < self@.cols(),
                    t <= row,
                    fall_row(g, c as int, row as int) == fall_row(g, c as int, t as int),
                decreases t,
            {
                t -= 1;
            }
            assert(fall_row(g, c as int, t as int) == t);
            proof {
                lemma_wf_after_set(old(self)@, t as int, c as int, Cell::Obstacle);
            }
            self.set_cell(t, c, Cell::Obstacle);
        }
    }

    /// Drop one obstacle toward each horizontal neighbour of `(row, col)`,
    /// left first; each falls down its own column. Neighbours holding a
    /// mark or an obstacle, and neighbours off the board, are left alone.
    pub fn place_obstacles(&mut self, row: usize, col: usize)
        requires
            old(self)@.wf(),
            row < old(self)@.rows(),
            col < old(self)@.cols(),
        ensures
            final(self)@.board == spawn_both(old(self)@.board, row as int, col as int),
            final(self)@.current_player == old(self)@.current_player,
            final(self)@.skip_next_turn == old(self)@.skip_next_turn,
            final(self)@.expanded == old(self)@.expanded,
            final(self)@.power_ups_enabled == old(self)@.power_ups_enabled,
            final(self)@.wf(),
    {
        let ghost g = self@.board;
        if col >= 1 {
            self.drop_obstacle_toward(row, col - 1);
        } else {
            assert(spawn_obstacle(g, row as int, col as int - 1) == g);
        }
        assert(self@.board == spawn_obstacle(g, row as int, col as int - 1));
        let cols = self.num_cols();
        if col + 1 < cols {
            self.drop_obstacle_toward(row, col + 1);
        } else {
            assert(spawn_obstacle(self@.board, row as int, col as int + 1) == self@.board);
        }
    }

    /// Resolve whatever power-up sits at `(row, col)`: a bomb clears cells
    /// and grants the triggering player another turn, a skip cancels the
    /// next switch, an obstacle spawner drops obstacles into the two
    /// neighbouring columns. Does nothing when power-ups are disabled or
    /// the cell holds no power-up.
    pub fn activate_power_up(&mut self, row: usize, col: usize)
        requires
            old(self)@.wf(),
            old(self)@.power_ups_enabled ==> row < old(self)@.rows() && col < old(self)@.cols(),
        ensures
            final(self)@ == activate_spec(old(self)@, row as int, col as int),
            final(self)@.wf(),
    {
        if !self.power_ups_enabled {
            return ;
        }
        let cell = self.cell_at(row, col);
        match cell {
            Cell::PowerUp(PowerUpKind::Bomb) => {
                self.use_bomb(row, col);
            },
            Cell::PowerUp(PowerUpKind::Skip) => {
                self.skip_next_turn = true;
            },
            Cell::PowerUp(PowerUpKind::ObstacleSpawner) => {
                self.place_obstacles(row, col);
            },
            _ => {},
        }
    }

    /// The lowest row of `col` where a piece could come to rest, if any.
    fn find_landing(&self, col: usize) -> (res: Option<usize>)
        requires
            self@.wf(),
            col < self@.cols(),
        ensures
            match res {
                Some(r) => {
                    &&& r as int == landing_row(self@.board, col as int)
                    &&& r < self@.rows()
                    &&& landable(self@.board[r as int][col as int])
                },
                None => landing_row(self@.board, col as int) == self@.rows(),
            },
    {
        let ghost g = self@.board;
        let rows = self.num_rows();
        let mut r: usize = 0;
        while r < rows
            invariant
                self@.wf(),
                g == self@.board,
                col < self@.cols(),
                rows == self@.rows(),
                r <= rows,
                first_landable_from(g, col as int, 0) == first_landable_from(g, col as int, r as int),
            decreases rows - r,
        {
            if crate::cells::is_landable(self.cell_at(r, col)) {
                return Some(r);
            }
            r += 1;
        }
        None
    }

    /// All cells a seeding pass may still fill: the empty cells at
    /// `start_row` or above, outside column `skip_col`, in row-major order.
    fn collect_empties(&self, start_row: usize, skip_col: usize) -> (v: Vec<(usize, usize)>)
        requires
            self@.wf(),
            start_row <= self@.rows(),
        ensures
            v@.len() == empty_in_region(self@.board, start_row as int, skip_col as int),
            forall|k: int|
                0 <= k < v@.len() ==> {
                    &&& start_row <= (#[trigger] v@[k]).0 < self@.rows()
                    &&& v@[k].1 < self@.cols()
                    &&& v@[k].1 != skip_col
                    &&& self@.board[v@[k].0 as int][v@[k].1 as int] is Empty
                },
    {
        let ghost g = self@.board;
        let rows = self.num_rows();
        let cols = self.num_cols();
        let mut v: Vec<(usize, usize)> = Vec::new();
        let mut r: usize = start_row;
        while r < rows
            invariant
                self@.wf(),
                g == self@.board,
                rows == self@.rows(),
                cols == self@.cols(),
                start_row <= r <= rows,
                v@.len() + empty_from(g, skip_col as int, r as int) == empty_in_region(
                    g,
                    start_row as int,
                    skip_col as int,
                ),
                forall|k: int|
                    0 <= k < v@.len() ==> {
                        &&& start_row <= (#[trigger] v@[k]).0 < rows
                        &&& v@[k].1 < cols
                        &&& v@[k].1 != skip_col
                        &&& g[v@[k].0 as int][v@[k].1 as int] is Empty
                    },
            decreases rows - r,
        {
            let mut c: usize = 0;
            while c < cols
                invariant
                    self@.wf(),
                    g == self@.board,
                    rows == self@.rows(),
                    cols == self@.cols(),
                    start_row <= r < rows,
                    c <= cols,
                    v@.len() + empty_row_from(g[r as int], skip_col as int, c as int)
                        + empty_from(g, skip_col as int, r as int + 1) == empty_in_region(
                        g,
                        start_row as int,
                        skip_col as int,
                    ),
                    forall|k: int|
                        0 <= k < v@.len() ==> {
                            &&& start_row <= (#[trigger] v@[k]).0 < rows
                            &&& v@[k].1 < cols
                            &&& v@[k].1 != skip_col
                            &&& g[v@[k].0 as int][v@[k].1 as int] is Empty
                        },
                decreases cols - c,
            {
                if c != skip_col && matches!(self.cell_at(r, c), Cell::Empty) {
                    v.push((r, c));
                }
                c += 1;
            }
            r += 1;
        }
        v
    }

    /// Seed `num` power-ups, one by one, each into an empty cell drawn at
    /// random from the region at `start_row` or above and outside column
    /// `skip_col`; the kinds cycle bomb, skip, obstacle spawner. The region
    /// must offer at least `num` empty cells. Returns the placement order,
    /// for the callers' contracts.
    fn seed_power_ups(&mut self, num: usize, start_row: usize, skip_col: usize) -> (placements:
        Ghost<Seq<(int, int)>>)
        requires
            old(self)@.wf(),
            old(self)@.power_ups_enabled,
            start_row <= old(self)@.rows(),
            num as int <= empty_in_region(
                old(self)@.board,
                start_row as int,
                skip_col as int,
            ),
        ensures
            final(self)@.wf(),
            final(self)@.current_player == old(self)@.current_player,
            final(self)@.skip_next_turn == old(self)@.skip_next_turn,
            final(self)@.expanded == old(self)@.expanded,
            final(self)@.power_ups_enabled == old(self)@.power_ups_enabled,
            pu_count(final(self)@.board) == pu_count(old(self)@.board) + num,
            empty_in_region(final(self)@.board, start_row as int, skip_col as int)
                == empty_in_region(old(self)@.board, start_row as int, skip_col as int) - num,
            placements@.len() == num,
            seeded_markers(
                old(self)@.board,
                final(self)@.board,
                placements@,
                start_row as int,
                skip_col as int,
            ),
            forall|i: int, j: int|
                cell_in_bounds(old(self)@.board, i, j) && (#[trigger] final(self)@.board[i][j])
                    != old(self)@.board[i][j] ==> {
                    &&& old(self)@.board[i][j] is Empty
                    &&& final(self)@.board[i][j] is PowerUp
                    &&& i >= start_row
                    &&& j != skip_col
                },
    {
        let ghost mut ps: Seq<(int, int)> = Seq::empty();
        let mut placed: usize = 0;
        while placed < num
            invariant
                self@.wf(),
                old(self)@.wf(),
                self@.power_ups_enabled,
                self@.current_player == old(self)@.current_player,
                self@.skip_next_turn == old(self)@.skip_next_turn,
                self@.expanded == old(self)@.expanded,
                self@.power_ups_enabled == old(self)@.power_ups_enabled,
                start_row <= self@.rows(),
                self@.rows() == old(self)@.rows(),
                self@.cols() == old(self)@.cols(),
                placed <= num,
                num as int <= empty_in_region(
                    old(self)@.board,
                    start_row as int,
                    skip_col as int,
                ),
                pu_count(self@.board) == pu_count(old(self)@.board) + placed,
                empty_in_region(self@.board, start_row as int, skip_col as int)
                    == empty_in_region(old(self)@.board, start_row as int, skip_col as int)
                    - placed,
                ps.len() == placed,
                seeded_markers(
                    old(self)@.board,
                    self@.board,
                    ps,
                    start_row as int,
                    skip_col as int,
                ),
                forall|i: int, j: int|
                    cell_in_bounds(old(self)@.board, i, j) && (#[trigger] self@.board[i][j])
                        != old(self)@.board[i][j] ==> {
                        &&& old(self)@.board[i][j] is Empty
                        &&& self@.board[i][j] is PowerUp
                        &&& i >= start_row
                        &&& j != skip_col
                    },
            decreases num - placed,
        {
            let ghost pre = self@;
            let empties = self.collect_empties(start_row, skip_col);
            assert(empties@.len() > 0);
            let idx = crate::rng::random_usize() % empties.len();
            let pick = empties[idx];
            let rr = pick.0;
            let cc = pick.1;
            let ghost pos: (int, int) = (rr as int, cc as int);
            let kind = if placed % 3 == 0 {
                PowerUpKind::Bomb
            } else if placed % 3 == 1 {
                PowerUpKind::Skip
            } else {
                PowerUpKind::ObstacleSpawner
            };
            proof {
                assert(kind == cycled_kind(placed as int));
                assert(!ps.contains(pos)) by {
                    if ps.contains(pos) {
                        let k = choose|k: int| 0 <= k < ps.len() && ps[k] == pos;
                        assert(pre.board[pos.0][pos.1] == Cell::PowerUp(cycled_kind(k)));
                    }
                }
                assert(cell_in_bounds(old(self)@.board, pos.0, pos.1));
                assert(old(self)@.board[pos.0][pos.1] is Empty);
                lemma_wf_after_set(pre, rr as int, cc as int, Cell::PowerUp(kind));
                lemma_pu_count_set(pre.board, rr as int, cc as int, Cell::PowerUp(kind));
                lemma_empty_region_set(
                    pre.board,
                    start_row as int,
                    skip_col as int,
                    rr as int,
                    cc as int,
                    Cell::PowerUp(kind),
                );
            }
            self.set_cell(rr, cc, Cell::PowerUp(kind));
            proof {
                assert forall|i: int, j: int|
                    cell_in_bounds(old(self)@.board, i, j) && (#[trigger] self@.board[i][j])
                        != old(self)@.board[i][j] implies {
                    &&& old(self)@.board[i][j] is Empty
                    &&& self@.board[i][j] is PowerUp
                    &&& i >= start_row
                    &&& j != skip_col
                } by {
                    if i == rr as int && j == cc as int {
                    } else {
                        assert(self@.board[i][j] == pre.board[i][j]);
                    }
                }
                let ps2 = ps.push(pos);
                assert(ps2[placed as int] == pos);
                assert forall|k: int|
                    0 <= k < ps2.len() implies {
                    &&& cell_in_bounds(old(self)@.board, (#[trigger] ps2[k]).0, ps2[k].1)
                    &&& ps2[k].0 >= start_row && ps2[k].1 != skip_col
                    &&& old(self)@.board[ps2[k].0][ps2[k].1] is Empty
                    &&& self@.board[ps2[k].0][ps2[k].1] == Cell::PowerUp(cycled_kind(k))
                } by {
                    if k < ps.len() {
                        assert(ps2[k] == ps[k]);
                        if ps[k] == pos {
                            assert(ps.contains(pos));
                        }
                        assert(self@.board[ps[k].0][ps[k].1] == pre.board[ps[k].0][ps[k].1]);
                    } else {
                        assert(ps2[k] == pos);
                    }
                }
                assert forall|k1: int, k2: int|
                    0 <= k1 < k2 < ps2.len() implies ps2[k1] != ps2[k2] by {
                    if k2 < ps.len() {
                        assert(ps2[k1] == ps[k1] && ps2[k2] == ps[k2]);
                    } else {
                        assert(ps2[k2] == pos);
                        assert(ps2[k1] == ps[k1]);
                        if ps[k1] == pos {
                            assert(ps.contains(pos));
                        }
                    }
                }
                assert forall|i: int, j: int|
                    cell_in_bounds(old(self)@.board, i, j) && !ps2.contains(
                        (i, j),
                    ) implies (#[trigger] self@.board[i][j]) == old(self)@.board[i][j] by {
                    if (i, j) == pos {
                        assert(ps2.contains((i, j)));
                    }
                    if ps.contains((i, j)) {
                        let k = choose|k: int| 0 <= k < ps.len() && ps[k] == (i, j);
                        assert(ps2[k] == (i, j));
                        assert(ps2.contains((i, j)));
                    }
                    assert(self@.board[i][j] == pre.board[i][j]);
                }
                assert(seeded_markers(
                    old(self)@.board,
                    self@.board,
                    ps2,
                    start_row as int,
                    skip_col as int,
                ));
                ps = ps2;
            }
            placed += 1;
        }
        Ghost(ps)
    }

    /// Seed `num_power_ups` power-ups into empty cells anywhere on the
    /// board. Does nothing when power-ups are disabled. The board must
    /// offer at least that many empty cells.
    pub fn initialize_power_ups(&mut self, num_power_ups: usize)
        requires
            old(self)@.wf(),
            old(self)@.power_ups_enabled ==> num_power_ups as int <= empty_in_region(
                old(self)@.board,
                0,
                old(self)@.cols(),
            ),
        ensures
            final(self)@.wf(),
            final(self)@.current_player == old(self)@.current_player,
            final(self)@.skip_next_turn == old(self)@.skip_next_turn,
            final(self)@.expanded == old(self)@.expanded,
            final(self)@.power_ups_enabled == old(self)@.power_ups_enabled,
            !old(self)@.power_ups_enabled ==> final(self)@ == old(self)@,
            old(self)@.power_ups_enabled ==> pu_count(final(self)@.board) == pu_count(
                old(self)@.board,
            ) + num_power_ups,
            old(self)@.power_ups_enabled ==> exists|ps: Seq<(int, int)>|
                #![auto]
                ps.len() == num_power_ups && seeded_markers(
                    old(self)@.board,
                    final(self)@.board,
                    ps,
                    0,
                    old(self)@.cols(),
                ),
            forall|i: int, j: int|
                cell_in_bounds(old(self)@.board, i, j) && (#[trigger] final(self)@.board[i][j])
                    != old(self)@.board[i][j] ==> old(self)@.board[i][j] is Empty
                    && final(self)@.board[i][j] is PowerUp,
    {
        if !self.power_ups_enabled {
            return ;
        }
        let w = self.num_cols();
        let placements = self.seed_power_ups(num_power_ups, 0, w);
        proof {
            assert(seeded_markers(
                old(self)@.board,
                self@.board,
                placements@,
                0,
                old(self)@.cols(),
            ));
        }
    }

    /// Seed `num_power_ups` power-ups into empty cells of the rows that the
    /// board expansion added, leaving out the second column from the right.
    /// Does nothing when power-ups are disabled. That region must offer at
    /// least `num_power_ups` empty cells.
    pub fn initialize_new_power_ups(&mut self, num_power_ups: usize)
        requires
            old(self)@.wf(),
            old(self)@.power_ups_enabled ==> num_power_ups as int <= empty_in_region(
                old(self)@.board,
                ROWS as int,
                old(self)@.cols() - 2,
            ),
        ensures
            final(self)@.wf(),
            final(self)@.current_player == old(self)@.current_player,
            final(self)@.skip_next_turn == old(self)@.skip_next_turn,
            final(self)@.expanded == old(self)@.expanded,
            final(self)@.power_ups_enabled == old(self)@.power_ups_enabled,
            !old(self)@.power_ups_enabled ==> final(self)@ == old(self)@,
            old(self)@.power_ups_enabled ==> pu_count(final(self)@.board) == pu_count(
                old(self)@.board,
            ) + num_power_ups,
            old(self)@.power_ups_enabled ==> exists|ps: Seq<(int, int)>|
                #![auto]
                ps.len() == num_power_ups && seeded_markers(
                    old(self)@.board,
                    final(self)@.board,
                    ps,
                    ROWS as int,
                    old(self)@.cols() - 2,
                ),
            forall|i: int, j: int|
                cell_in_bounds(old(self)@.board, i, j) && (#[trigger] final(self)@.board[i][j])
                    != old(self)@.board[i][j] ==> {
                    &&& old(self)@.board[i][j] is Empty
                    &&& final(self)@.board[i][j] is PowerUp
                    &&& i >= ROWS as int
                    &&& j != old(self)@.cols() - 2
                },
    {
        if !self.power_ups_enabled {
            return ;
        }
        let skip = self.num_cols() - 2;
        let placements = self.seed_power_ups(num_power_ups, ROWS, skip);
        proof {
            assert(seeded_markers(
                old(self)@.board,
                self@.board,
                placements@,
                ROWS as int,
                old(self)@.cols() - 2,
            ));
        }
    }

    /// A fresh game: the starting board with every cell empty, player X to
    /// move, no pending skip, not yet expanded. When power-ups are enabled,
    /// exactly [`INITIAL_POWER_UPS`] power-up markers are seeded into empty
    /// cells drawn at random, their kinds cycling bomb, skip, obstacle
    /// spawner; every other cell stays empty.
    pub fn new(power_ups_enabled: bool) -> (game: Game)
        ensures
            game@.wf(),
            game@.current_player == Player::X,
            !game@.skip_next_turn,
            !game@.expanded,
            game@.power_ups_enabled == power_ups_enabled,
            pu_count(game@.board) == if power_ups_enabled {
                INITIAL_POWER_UPS as int
            } else {
                0int
            },
            power_ups_enabled ==> exists|ps: Seq<(int, int)>|
                #![auto]
                ps.len() == INITIAL_POWER_UPS && seeded_markers(
                    empty_start_grid(),
                    game@.board,
                    ps,
                    0,
                    COLS as int,
                ),
            forall|i: int, j: int|
                cell_in_bounds(game@.board, i, j) ==> ((#[trigger] game@.board[i][j]) is Empty
                    || game@.board[i][j] is PowerUp),
    {
        let mut board: Vec<Vec<Cell>> = Vec::new();
        let mut r: usize = 0;
        while r < ROWS
            invariant
                board@.len() == r,
                r <= ROWS,
                forall|i: int| 0 <= i < r ==> (#[trigger] board@[i])@.len() == COLS as int,
                forall|i: int, j: int|
                    0 <= i < r && 0 <= j < COLS ==> (#[trigger] board@[i]@[j]) is Empty,
            decreases ROWS - r,
        {
            let mut row: Vec<Cell> = Vec::new();
            let mut c: usize = 0;
            while c < COLS
                invariant
                    row@.len() == c,
                    c <= COLS,
                    forall|j: int| 0 <= j < c ==> (#[trigger] row@[j]) is Empty,
                decreases COLS - c,
            {
                row.push(Cell::Empty);
                c += 1;
            }
            board.push(row);
            r += 1;
        }
        let mut game = Game {
            board,
            current_player: Player::X,
            skip_next_turn: false,
            expanded: false,
            power_ups_enabled,
        };
        proof {
            assert(game@.wf());
            lemma_pu_from_none(game@.board, 0);
            if power_ups_enabled {
                lemma_empty_from_all(game@.board, COLS as int, 0, COLS as int);
            }
        }
        let ghost fresh = game@;
        if power_ups_enabled {
            game.initialize_power_ups(INITIAL_POWER_UPS);
            proof {
                let ps = choose|ps: Seq<(int, int)>|
                    #![auto]
                    ps.len() == INITIAL_POWER_UPS && seeded_markers(
                        fresh.board,
                        game@.board,
                        ps,
                        0,
                        fresh.cols(),
                    );
                assert(fresh.board =~~= empty_start_grid());
                assert(seeded_markers(empty_start_grid(), game@.board, ps, 0, COLS as int));
            }
        }
        game
    }

    /// Scan for a winner: the first cell in row-major order from which
    /// four of the same player's marks run rightward, upward, up-right or
    /// down-right names the winner. Obstacles and power-up markers never
    /// match a player and never count toward a run. A pure read.
    pub fn check_winner(&self) -> (w: Option<Player>)
        requires
            self@.wf(),
        ensures
            match w {
                None => has_no_winner(self@.board),
                Some(p) => exists|i: int, j: int|
                    {
                        &&& cell_in_bounds(self@.board, i, j)
                        &&& #[trigger] wins_at(self@.board, i, j)
                        &&& self@.board[i][j] == Cell::Mark(p)
                        &&& no_win_before(self@.board, i, j)
                    },
            },
    {
        let ghost g = self@.board;
        let rows = self.num_rows();
        let cols = self.num_cols();
        let mut r: usize = 0;
        while r < rows
            invariant
                self@.wf(),
                g == self@.board,
                rows == self@.rows(),
                cols == self@.cols(),
                r <= rows,
                no_win_before(g, r as int, 0),
            decreases rows - r,
        {
            let mut c: usize = 0;
            while c < cols
                invariant
                    self@.wf(),
                    g == self@.board,
                    rows == self@.rows(),
                    cols == self@.cols(),
                    r < rows,
                    c <= cols,
                    no_win_before(g, r as int, c as int),
                decreases cols - c,
            {
                let cell = self.cell_at(r, c);
                if let Cell::Mark(p) = cell {
                    if c + 3 < cols && self.cell_at(r, c + 1) == cell && self.cell_at(r, c + 2)
                        == cell && self.cell_at(r, c + 3) == cell {
                        proof {
                            assert(four_run(g, r as int, c as int, 0, 1));
                            assert(wins_at(g, r as int, c as int));
                            assert(cell_in_bounds(g, r as int, c as int));
                            assert(g[r as int][c as int] == Cell::Mark(p));
                        }
                        return Some(p);
                    }
                    if r + 3 < rows && self.cell_at(r + 1, c) == cell && self.cell_at(r + 2, c)
                        == cell && self.cell_at(r + 3, c) == cell {
                        proof {
                            assert(four_run(g, r as int, c as int, 1, 0));
                            assert(wins_at(g, r as int, c as int));
                            assert(cell_in_bounds(g, r as int, c as int));
                            assert(g[r as int][c as int] == Cell::Mark(p));
                        }
                        return Some(p);
                    }
                    if r + 3 < rows && c + 3 < cols && self.cell_at(r + 1, c + 1) == cell
                        && self.cell_at(r + 2, c + 2) == cell && self.cell_at(r + 3, c + 3)
                        == cell {
                        proof {
                            assert(four_run(g, r as int, c as int, 1, 1));
                            assert(wins_at(g, r as int, c as int));
                            assert(cell_in_bounds(g, r as int, c as int));
                            assert(g[r as int][c as int] == Cell::Mark(p));
                        }
                        return Some(p);
                    }
                    if r >= 3 && c + 3 < cols && self.cell_at(r - 1, c + 1) == cell
                        && self.cell_at(r - 2, c + 2) == cell && self.cell_at(r - 3, c + 3)
                        == cell {
                        proof {
                            assert(four_run(g, r as int, c as int, -1, 1));
                            assert(wins_at(g, r as int, c as int));
                            assert(cell_in_bounds(g, r as int, c as int));
                            assert(g[r as int][c as int] == Cell::Mark(p));
                        }
                        return Some(p);
                    }
                }
                proof {
                    assert(!four_run(g, r as int, c as int, 0, 1));
                    assert(!four_run(g, r as int, c as int, 1, 0));
                    assert(!four_run(g, r as int, c as int, 1, 1));
                    assert(!four_run(g, r as int, c as int, -1, 1));
                    assert(!wins_at(g, r as int, c as int));
                    assert forall|i: int, j: int|
                        0 <= i < g.len() && 0 <= j < g[i].len() && (i < r as int || (i == r as int
                            && j < c as int + 1)) implies !(#[trigger] wins_at(g, i, j)) by {
                        if i == r as int && j == c as int {
                        } else {
                            assert(no_win_before(g, r as int, c as int));
                        }
                    }
                }
                c += 1;
            }
            proof {
                assert forall|i: int, j: int|
                    0 <= i < g.len() && 0 <= j < g[i].len() && (i < r as int + 1 || (i == r as int
                        + 1 && j < 0)) implies !(#[trigger] wins_at(g, i, j)) by {
                    assert(no_win_before(g, r as int, cols as int));
                }
            }
            r += 1;
        }
        proof {
            assert(no_win_before(g, rows as int, 0));
        }
        None
    }

    /// The expanded board: the old cells in the bottom-left corner at
    /// identical coordinates, every added cell empty.
    fn build_expanded(old_board: &Vec<Vec<Cell>>) -> (nb: Vec<Vec<Cell>>)
        requires
            old_board@.len() >= ROWS,
            forall|i: int| 0 <= i < ROWS ==> (#[trigger] old_board@[i])@.len() >= COLS,
        ensures
            nb@.len() == EXPANDED_ROWS,
            forall|i: int| 0 <= i < EXPANDED_ROWS ==> (#[trigger] nb@[i])@.len() == EXPANDED_COLS,
            forall|i: int, j: int|
                0 <= i < ROWS && 0 <= j < COLS ==> (#[trigger] nb@[i]@[j]) == old_board@[i]@[j],
            forall|i: int, j: int|
                0 <= i < EXPANDED_ROWS && 0 <= j < EXPANDED_COLS && !(i < ROWS && j < COLS)
                    ==> (#[trigger] nb@[i]@[j]) is Empty,
    {
        let mut nb: Vec<Vec<Cell>> = Vec::new();
        let mut r: usize = 0;
        while r < EXPANDED_ROWS
            invariant
                old_board@.len() >= ROWS,
                forall|i: int| 0 <= i < ROWS ==> (#[trigger] old_board@[i])@.len() >= COLS,
                nb@.len() == r,
                r <= EXPANDED_ROWS,
                forall|i: int| 0 <= i < r ==> (#[trigger] nb@[i])@.len() == EXPANDED_COLS,
                forall|i: int, j: int|
                    0 <= i < r && 0 <= j < COLS && i < ROWS ==> (#[trigger] nb@[i]@[j])
                        == old_board@[i]@[j],
                forall|i: int, j: int|
                    0 <= i < r && 0 <= j < EXPANDED_COLS && !(i < ROWS && j < COLS)
                        ==> (#[trigger] nb@[i]@[j]) is Empty,
            decreases EXPANDED_ROWS - r,
        {
            let mut row: Vec<Cell> = Vec::new();
            let mut c: usize = 0;
            while c < EXPANDED_COLS
                invariant
                    old_board@.len() >= ROWS,
                    forall|i: int| 0 <= i < ROWS ==> (#[trigger] old_board@[i])@.len() >= COLS,
                    r < EXPANDED_ROWS,
                    row@.len() == c,
                    c <= EXPANDED_COLS,
                    forall|j: int|
                        0 <= j < c && r < ROWS && j < COLS ==> (#[trigger] row@[j])
                            == old_board@[r as int]@[j],
                    forall|j: int|
                        0 <= j < c && !(r < ROWS && j < COLS) ==> (#[trigger] row@[j]) is Empty,
                decreases EXPANDED_COLS - c,
            {
                if r < ROWS && c < COLS {
                    row.push(old_board[r][c]);
                } else {
                    row.push(Cell::Empty);
                }
                c += 1;
            }
            nb.push(row);
            r += 1;
        }
        nb
    }

    /// Grow the board once from the starting size to the expanded size:
    /// the old cells keep their coordinates, the added cells start empty,
    /// and, when power-ups are in play, a bounded number of new power-ups
    /// is seeded into the added rows, leaving out the second column from
    /// the right, their kinds cycling as at creation. A second call on the
    /// same game changes nothing: the expansion latch makes the operation
    /// one-shot.
    pub fn expand_board(&mut self)
        requires
            old(self)@.wf(),
        ensures
            final(self)@.wf(),
            final(self)@.expanded,
            final(self)@.current_player == old(self)@.current_player,
            final(self)@.skip_next_turn == old(self)@.skip_next_turn,
            final(self)@.power_ups_enabled == old(self)@.power_ups_enabled,
            old(self)@.expanded ==> final(self)@ == old(self)@,
            !old(self)@.expanded ==> forall|i: int, j: int|
                0 <= i < ROWS && 0 <= j < COLS ==> (#[trigger] final(self)@.board[i][j])
                    == old(self)@.board[i][j],
            !old(self)@.expanded ==> forall|i: int, j: int|
                cell_in_bounds(final(self)@.board, i, j) && !(i < ROWS && j < COLS)
                    ==> ((#[trigger] final(self)@.board[i][j]) is Empty
                    || (final(self)@.board[i][j] is PowerUp && i >= ROWS && j != EXPANDED_COLS
                        - 2)),
            !old(self)@.expanded ==> pu_count(final(self)@.board) == pu_count(old(self)@.board)
                + if old(self)@.power_ups_enabled {
                ((EXPANDED_ROWS * EXPANDED_COLS - ROWS * COLS) / 10) as int
            } else {
                0int
            },
            !old(self)@.expanded && old(self)@.power_ups_enabled ==> exists|ps: Seq<(int, int)>|
                #![auto]
                ps.len() == (EXPANDED_ROWS * EXPANDED_COLS - ROWS * COLS) / 10 && seeded_markers(
                    grown_grid(old(self)@.board),
                    final(self)@.board,
                    ps,
                    ROWS as int,
                    EXPANDED_COLS as int - 2,
                ),
    {
        if self.expanded {
            return ;
        }
        let ghost g0 = old(self)@;
        proof {
            assert forall|i: int| 0 <= i < ROWS implies (#[trigger] self.board@[i])@.len()
                >= COLS by {
                assert(self@.board[i].len() == self@.cols());
            }
        }
        let nb = Self::build_expanded(&self.board);
        self.board = nb;
        self.expanded = true;
        let ghost mid = self@;
        proof {
            assert(forall|i: int| 0 <= i < mid.board.len() ==> #[trigger] mid.board[i] == nb@[i]@);
            assert(forall|i: int, j: int|
                0 <= i < ROWS && 0 <= j < COLS ==> #[trigger] mid.board[i][j] == g0.board[i][j]);
            assert(forall|i: int, j: int|
                0 <= i < EXPANDED_ROWS && 0 <= j < EXPANDED_COLS && !(i < ROWS && j < COLS)
                    ==> (#[trigger] mid.board[i][j]) is Empty);
            assert(mid.cols() == EXPANDED_COLS as int);
            if !mid.power_ups_enabled {
                assert forall|i: int, j: int|
                    cell_in_bounds(mid.board, i, j) implies !(#[trigger] mid.board[i][j]
                        is PowerUp) by {
                    if i < ROWS && j < COLS {
                        assert(cell_in_bounds(g0.board, i, j));
                        assert(mid.board[i][j] == g0.board[i][j]);
                    } else {
                        assert(mid.board[i][j] is Empty);
                    }
                }
            }
            assert(mid.wf());
            assert forall|i: int| 0 <= i < ROWS implies pu_row_from(#[trigger] mid.board[i], 0)
                == pu_row_from(g0.board[i], 0) by {
                assert(g0.board[i].len() == g0.cols());
                assert(forall|k: int| 0 <= k < COLS ==> #[trigger] mid.board[i][k] == g0.board[i][k]);
                assert(forall|k: int| COLS <= k < EXPANDED_COLS ==> (#[trigger] mid.board[i][k]) is Empty);
                lemma_pu_row_extend(g0.board[i], mid.board[i], 0);
            }
            assert forall|i: int|
                ROWS <= i < EXPANDED_ROWS implies pu_row_from(#[trigger] mid.board[i], 0)
                == 0 by {
                assert(forall|k: int| 0 <= k < mid.board[i].len() ==> (#[trigger] mid.board[i][k]) is Empty);
                lemma_pu_row_from_none(mid.board[i], 0);
            }
            lemma_pu_grid_extend(g0.board, mid.board, 0);
            assert(pu_count(mid.board) == pu_count(g0.board));
            if self.power_ups_enabled {
                assert forall|i: int|
                    ROWS as int <= i < mid.board.len() implies (#[trigger] mid.board[i]).len()
                        == EXPANDED_COLS as int by {}
                lemma_empty_from_all(mid.board, EXPANDED_COLS as int - 2, ROWS as int,
                    EXPANDED_COLS as int);
            }
        }
        let num = if self.power_ups_enabled {
            (EXPANDED_ROWS * EXPANDED_COLS - ROWS * COLS) / 10
        } else {
            0
        };
        self.initialize_new_power_ups(num);
        proof {
            if g0.power_ups_enabled {
                let ps = choose|ps: Seq<(int, int)>|
                    #![auto]
                    ps.len() == num && seeded_markers(
                        mid.board,
                        self@.board,
                        ps,
                        ROWS as int,
                        mid.cols() - 2,
                    );
                assert(mid.board =~~= grown_grid(g0.board));
                assert(seeded_markers(
                    grown_grid(g0.board),
                    self@.board,
                    ps,
                    ROWS as int,
                    EXPANDED_COLS as int - 2,
                ));
            }
        }
    }

    /// Drop the current player's piece into `col`. On success the landing
    /// cell resolves (power-up effects included) and the landing position
    /// is returned; on any error the game is left unchanged. The call
    /// switches no turn and checks no winner: those are separate calls.
    pub fn drop_piece(&mut self, col: usize) -> (res: Result<(usize, usize), DropError>)
        requires
            old(self)@.wf(),
        ensures
            res == drop_result(old(self)@, col as int),
            final(self)@ == drop_state(old(self)@, col as int),
            final(self)@.wf(),
    {
        let ghost g0 = old(self)@;
        let cols = self.num_cols();
        if col >= cols {
            return Err(DropError::InvalidColumn);
        }
        match self.find_landing(col) {
            None => Err(DropError::ColumnFull),
            Some(lr) => {
                let cell = self.cell_at(lr, col);
                match cell {
                    Cell::Empty => {
                        if lr > 0 && self.cell_at(lr - 1, col) == Cell::Obstacle {
                            return Err(DropError::BlockedByObstacle);
                        }
                        let p = self.get_current_player();
                        proof {
                            lemma_wf_after_set(g0, lr as int, col as int, Cell::Mark(p));
                        }
                        self.set_cell(lr, col, Cell::Mark(p));
                        Ok((lr, col))
                    },
                    Cell::PowerUp(kind) => {
                        proof {
                            assert(cell_in_bounds(g0.board, lr as int, col as int));
                            assert(g0.power_ups_enabled);
                        }
                        self.activate_power_up(lr, col);
                        match kind {
                            PowerUpKind::Bomb => Ok((lr, col)),
                            PowerUpKind::Skip => {
                                let p = self.get_current_player();
                                proof {
                                    lemma_wf_after_set(self@, lr as int, col as int, Cell::Mark(p));
                                }
                                self.set_cell(lr, col, Cell::Mark(p));
                                Ok((lr, col))
                            },
                            PowerUpKind::ObstacleSpawner => {
                                let p = self.get_current_player();
                                proof {
                                    lemma_wf_after_set(self@, lr as int, col as int, Cell::Mark(p));
                                }
                                self.set_cell(lr, col, Cell::Mark(p));
                                Ok((lr, col))
                            },
                        }
                    },
                    _ => {
                        proof {
                            assert(false);
                        }
                        vstd::pervasive::unreached()
                    },
                }
            },
        }
    }
}

} // verus!
