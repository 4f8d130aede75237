//! The first viewer's reading of a replay: cells and colours only, every
//! object drawn as a square on a single layer.
use vstd::prelude::*;

use crate::error::ReplayError;
use crate::game_data::{GameData, ReplayModel, Tile, replay_spec, turn_tiles};
use crate::palette::{Color, Shape};

verus! {

/// An object of a turn: a coloured square in a cell.
#[derive(Clone, Copy, Debug, PartialEq, Eq, Structural)]
pub struct Object {
    pub row: u32,
    pub col: u32,
    pub shape: Shape,
    pub color: Color,
}

pub open spec fn object_of(t: Tile) -> Object {
    Object { row: t.row, col: t.col, shape: Shape::Square, color: t.color }
}

/// The objects of turn `t` of a replay, in the order of the grid.
pub open spec fn turn_objects(m: ReplayModel, t: int) -> Seq<Object> {
    turn_tiles(m, t).map_values(|tile: Tile| object_of(tile))
}

/// A replay read as a board of coloured squares.
pub struct Board {
    game: GameData,
}

impl View for Board {
    type V = ReplayModel;

    closed spec fn view(&self) -> ReplayModel {
        self.game@
    }
}

impl Board {
    pub closed spec fn wf(&self) -> bool {
        self.game.wf()
    }

    /// Reads a replay from its text, as `GameData::load` does.
    pub fn open(text: &[u8]) -> (r: Result<Board, ReplayError>)
        ensures
            match replay_spec(text@) {
                Ok(m) => r matches Ok(b) && b.wf() && b@ == m,
                Err(e) => r matches Err(e2) && e2 == e,
            },
    {
        match GameData::load(text) {
            Ok(game) => Ok(Board { game }),
            Err(e) => Err(e),
        }
    }

    pub fn num_turns(&self) -> (r: usize)
        ensures
            r == self@.turns.len(),
    {
        self.game.num_turns()
    }

    pub fn num_rows(&self) -> (r: u32)
        ensures
            r == self@.header.num_rows,
    {
        self.game.num_rows()
    }

    pub fn num_cols(&self) -> (r: u32)
        ensures
            r == self@.header.num_cols,
    {
        self.game.num_cols()
    }

    /// The objects of turn `turn`, in the order of the grid.
    pub fn objects(&self, turn: usize) -> (r: Result<Vec<Object>, ReplayError>)
        requires
            self.wf(),
        ensures
            turn >= self@.turns.len() ==> r == Err::<Vec<Object>, ReplayError>(
                ReplayError::IndexOutOfRange,
            ),
            turn < self@.turns.len() ==> (r matches Ok(v) && v@ == turn_objects(self@, turn as int)),
    {
        let tiles = match self.game.tiles(turn) {
            Ok(t) => t,
            Err(e) => {
                return Err(e);
            },
        };
        let mut out: Vec<Object> = Vec::new();
        let mut k: usize = 0;
        while k < tiles.len()
            invariant
                k <= tiles@.len(),
                out@ == tiles@.take(k as int).map_values(|tile: Tile| object_of(tile)),
            decreases tiles@.len() - k,
        {
            let t = tiles[k];
            out.push(Object { row: t.row, col: t.col, shape: Shape::Square, color: t.color });
            assert(tiles@.take(k + 1) =~= tiles@.take(k as int).push(t));
            assert(out@ =~= tiles@.take(k + 1).map_values(|tile: Tile| object_of(tile)));
            k = k + 1;
        }
        assert(tiles@.take(k as int) =~= tiles@);
        Ok(out)
    }
}

} // verus!
