//! Laws of the engine: properties that hold of every well-formed game,
//! stated over the transition functions of [`crate::model`] and proved once
//! and for all.

use vstd::prelude::*;

use crate::cells::{landable, Cell, DropError, PowerUpKind};
use crate::model::{
    cell_in_bounds, drop_result, drop_state, grid_set, landing_row,
    lemma_first_landable_from_props, switch_spec, GameView,
};

verus! {

/// Law: dropping into a column whose lowest landable cell is empty, with no
/// obstacle directly beneath it, succeeds, puts the current player's mark
/// into exactly that cell — the lowest eligible row of the column, every
/// row below it being occupied — and changes no other cell and no other
/// part of the game.
pub proof fn lemma_drop_lands_lowest(g: GameView, col: int)
    requires
        g.wf(),
        0 <= col < g.cols(),
        landing_row(g.board, col) < g.rows(),
        g.board[landing_row(g.board, col)][col] is Empty,
        !(landing_row(g.board, col) > 0 && g.board[landing_row(g.board, col) - 1][col]
            is Obstacle),
    ensures
        drop_result(g, col) == Ok::<(usize, usize), DropError>(
            (landing_row(g.board, col) as usize, col as usize),
        ),
        drop_state(g, col).board == grid_set(
            g.board,
            landing_row(g.board, col),
            col,
            Cell::Mark(g.current_player),
        ),
        drop_state(g, col).board[landing_row(g.board, col)][col] == Cell::Mark(g.current_player),
        forall|i: int, j: int|
            cell_in_bounds(g.board, i, j) && !(i == landing_row(g.board, col) && j == col)
                ==> #[trigger] drop_state(g, col).board[i][j] == g.board[i][j],
        forall|i: int| 0 <= i < landing_row(g.board, col) ==> !landable(#[trigger] g.board[i][col]),
        drop_state(g, col).current_player == g.current_player,
        drop_state(g, col).skip_next_turn == g.skip_next_turn,
        drop_state(g, col).expanded == g.expanded,
        drop_state(g, col).power_ups_enabled == g.power_ups_enabled,
{
    lemma_first_landable_from_props(g.board, col, 0);
    let lr = landing_row(g.board, col);
    assert forall|i: int, j: int|
        cell_in_bounds(g.board, i, j) && !(i == lr && j == col) implies #[trigger] drop_state(
        g,
        col,
    ).board[i][j] == g.board[i][j] by {
        if i == lr {
            assert(drop_state(g, col).board[i] == g.board[i].update(col, Cell::Mark(g.current_player)));
        }
    }
}

/// Law: dropping into a column with no landable cell — every cell a mark
/// or an obstacle — reports the column as full and leaves the game, board
/// included, entirely unchanged.
pub proof fn lemma_drop_full_column_rejected(g: GameView, col: int)
    requires
        g.wf(),
        0 <= col < g.cols(),
        forall|i: int| 0 <= i < g.rows() ==> !landable(#[trigger] g.board[i][col]),
    ensures
        drop_result(g, col) == Err::<(usize, usize), DropError>(DropError::ColumnFull),
        drop_state(g, col) == g,
{
    lemma_first_landable_from_props(g.board, col, 0);
}

/// Law: every rejected drop leaves the game unchanged, whichever of the
/// three errors it reports.
pub proof fn lemma_error_leaves_game_unchanged(g: GameView, col: int)
    requires
        drop_result(g, col) is Err,
    ensures
        drop_state(g, col) == g,
{
}

/// Law: landing on a bomb clears the landing cell and the cell directly
/// beneath it, places no mark, and cancels the next turn switch, so the
/// turn after the bomb still belongs to the player who set it off.
pub proof fn lemma_bomb_grants_extra_turn(g: GameView, col: int)
    requires
        g.wf(),
        0 <= col < g.cols(),
        landing_row(g.board, col) < g.rows(),
        g.board[landing_row(g.board, col)][col] == Cell::PowerUp(PowerUpKind::Bomb),
    ensures
        drop_result(g, col) == Ok::<(usize, usize), DropError>(
            (landing_row(g.board, col) as usize, col as usize),
        ),
        drop_state(g, col).board[landing_row(g.board, col)][col] is Empty,
        landing_row(g.board, col) > 0 ==> drop_state(g, col).board[landing_row(g.board, col)
            - 1][col] is Empty,
        drop_state(g, col).skip_next_turn,
        drop_state(g, col).current_player == g.current_player,
        switch_spec(drop_state(g, col)).current_player == g.current_player,
        !switch_spec(drop_state(g, col)).skip_next_turn,
{
    lemma_first_landable_from_props(g.board, col, 0);
    let lr = landing_row(g.board, col);
    if lr > 0 {
        assert(drop_state(g, col).board[lr] == g.board[lr].update(col, Cell::Empty));
        assert(drop_state(g, col).board[lr - 1] == g.board[lr - 1].update(col, Cell::Empty));
    }
}

} // verus!
