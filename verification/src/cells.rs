//! The cell alphabet of the board, the two players, and the errors that a
//! drop can report.

use vstd::prelude::*;

verus! {

/// The kinds of power-up a cell may carry before either player lands on it.
#[derive(Clone, Copy, Debug, PartialEq, Eq, Structural)]
pub enum PowerUpKind {
    /// Clears the landing cell and the cell directly below it.
    Bomb,
    /// Cancels the next turn switch, so the triggering player goes again.
    Skip,
    /// Drops obstacles into the two horizontally neighbouring columns.
    ObstacleSpawner,
}

/// One of the two players.
#[derive(Clone, Copy, Debug, PartialEq, Eq, Structural)]
pub enum Player {
    X,
    O,
}

/// What a single board cell holds.
#[derive(Clone, Copy, Debug, PartialEq, Eq, Structural)]
pub enum Cell {
    Empty,
    Mark(Player),
    Obstacle,
    PowerUp(PowerUpKind),
}

/// Why a drop was rejected. The board is left unchanged in every case.
#[derive(Clone, Copy, Debug, PartialEq, Eq, Structural)]
pub enum DropError {
    /// The column index is not below the current column count.
    InvalidColumn,
    /// The column offers no cell a piece could land in.
    ColumnFull,
    /// The only candidate cell is empty but sits directly above an obstacle.
    BlockedByObstacle,
}

/// The player whose turn follows `p`'s when no skip is pending.
pub open spec fn other_player(p: Player) -> Player {
    match p {
        Player::X => Player::O,
        Player::O => Player::X,
    }
}

/// A falling piece or obstacle may come to rest in an empty cell or in a
/// power-up cell; marks and obstacles stop it.
pub open spec fn landable(c: Cell) -> bool {
    match c {
        Cell::Empty => true,
        Cell::PowerUp(_) => true,
        _ => false,
    }
}

/// The power-up kind seeded in position `n` of a seeding pass: the kinds
/// cycle bomb, skip, obstacle spawner.
pub open spec fn cycled_kind(n: int) -> PowerUpKind {
    if n % 3 == 0 {
        PowerUpKind::Bomb
    } else if n % 3 == 1 {
        PowerUpKind::Skip
    } else {
        PowerUpKind::ObstacleSpawner
    }
}

/// Executable twin of [`landable`].
pub fn is_landable(c: Cell) -> (b: bool)
    ensures
        b == landable(c),
{
    matches!(c, Cell::Empty | Cell::PowerUp(_))
}

/// Executable twin of [`other_player`].
pub fn flip_player(p: Player) -> (q: Player)
    ensures
        q == other_player(p),
{
    match p {
        Player::X => Player::O,
        Player::O => Player::X,
    }
}

} // verus!
