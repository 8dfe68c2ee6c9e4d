//! Rules engine for a two-player grid-drop board game: pieces fall down
//! columns of a growable board, optional power-up cells (bombs, turn skips,
//! obstacle spawners) resolve when landed on, and a filled drawn board may
//! expand once from 6 x 7 to 10 x 10.

pub mod cells;
pub mod counting;
pub mod game;
pub mod laws;
pub mod model;
pub mod rng;
