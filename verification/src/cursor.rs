//! The cursor with which a player points at a tile.

use vstd::prelude::*;
use crate::pos::{Pos, Direction, step_spec};
use crate::grid::{Grid, GridView};
use crate::battle::Battle;

verus! {

/// The tile the player points at.
#[derive(Clone, Copy, Debug, PartialEq, Eq, Structural)]
pub struct Cursor {
    pub x: usize,
    pub y: usize,
}

/// Where a cursor at `from` is after a push in direction `d`: on the
/// neighbouring tile if that lies on the grid, else where it was.
pub open spec fn pushed(g: GridView, from: Pos, d: Direction) -> Pos {
    match step_spec(from, d) {
        Some(q) => if g.in_bounds(q) {
            q
        } else {
            from
        },
        None => from,
    }
}

impl Cursor {
    /// The tile under the cursor.
    pub fn pos(&self) -> (p: Pos)
        ensures
            p == (Pos { x: self.x, y: self.y }),
    {
        Pos { x: self.x, y: self.y }
    }

    /// Pushes the cursor one tile in direction `d`; it does not leave the
    /// grid.
    pub fn move_cursor(&mut self, grid: &Grid, d: Direction)
        ensures
            final(self).pos_spec() == pushed(grid@, old(self).pos_spec(), d),
    {
        match self.pos().step(d) {
            Some(q) => {
                if grid.in_bounds(q) {
                    self.x = q.x;
                    self.y = q.y;
                }
            },
            None => {},
        }
    }

    /// The tile under the cursor.
    pub open spec fn pos_spec(&self) -> Pos {
        Pos { x: self.x, y: self.y }
    }
}

impl Battle {
    /// A cursor on the tile of the unit that has the turn.
    pub fn cursor_on_actor(&self) -> (cursor: Option<Cursor>)
        requires
            self.wf(),
        ensures
            cursor.is_some() <==> self@.actor.is_some(),
            cursor.is_some() ==> cursor.unwrap().pos_spec() == self@.actor_unit().pos,
    {
        match self.actor_index() {
            Some(k) => Some(Cursor { x: self.units[k].pos.x, y: self.units[k].pos.y }),
            None => None,
        }
    }
}

} // verus!
