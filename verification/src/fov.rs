//! The visibility port. The core does not compute fields of view; it
//! consumes one as plain data. Whoever owns the raycasting (the presentation
//! layer, through its rendering library) fills an [`Fov`] grid each time the
//! player moves, and the core queries it.

use vstd::prelude::*;
use crate::map::{MAP_HEIGHT, MAP_WIDTH};

verus! {

/// The set of currently visible tiles, as a `MAP_WIDTH` x `MAP_HEIGHT` grid
/// of flags indexed like the tile grid.
#[derive(Debug)]
pub struct Fov {
    visible: Vec<Vec<bool>>,
}

impl Fov {
    /// The grid has exactly the map's dimensions.
    pub closed spec fn wf(&self) -> bool {
        &&& self.visible@.len() == MAP_WIDTH
        &&& forall|x: int|
            0 <= x < self.visible@.len() ==> (#[trigger] self.visible@[x])@.len() == MAP_HEIGHT
    }

    /// Whether the tile at `(x, y)` is in the visible set.
    pub closed spec fn spec_visible(&self, x: int, y: int) -> bool {
        &&& 0 <= x < MAP_WIDTH
        &&& 0 <= y < MAP_HEIGHT
        &&& self.visible@[x]@[y]
    }

    /// A visibility set with no visible tiles.
    pub fn new() -> (f: Fov)
        ensures
            f.wf(),
            forall|x: int, y: int| !f.spec_visible(x, y),
    {
        let mut visible: Vec<Vec<bool>> = Vec::new();
        while visible.len() < MAP_WIDTH as usize
            invariant
                visible@.len() <= MAP_WIDTH,
                forall|x: int|
                    0 <= x < visible@.len() ==> {
                        &&& (#[trigger] visible@[x])@.len() == MAP_HEIGHT
                        &&& forall|y: int| 0 <= y < MAP_HEIGHT ==> !visible@[x]@[y]
                    },
            decreases MAP_WIDTH - visible@.len(),
        {
            let mut column: Vec<bool> = Vec::new();
            while column.len() < MAP_HEIGHT as usize
                invariant
                    column@.len() <= MAP_HEIGHT,
                    forall|y: int| 0 <= y < column@.len() ==> !column@[y],
                decreases MAP_HEIGHT - column@.len(),
            {
                column.push(false);
            }
            visible.push(column);
        }
        Fov { visible }
    }

    /// Mark the tile at `(x, y)` visible or not.
    pub fn set(&mut self, x: i32, y: i32, value: bool)
        requires
            old(self).wf(),
            0 <= x < MAP_WIDTH,
            0 <= y < MAP_HEIGHT,
        ensures
            final(self).wf(),
            forall|i: int, j: int|
                #[trigger] final(self).spec_visible(i, j) == if i == x && j == y {
                    value
                } else {
                    old(self).spec_visible(i, j)
                },
    {
        let column: &mut Vec<bool> = &mut self.visible[x as usize];
        column[y as usize] = value;
    }

    /// Whether the tile at `(x, y)` is currently visible. Coordinates off
    /// the grid are never visible.
    pub fn is_visible(&self, x: i32, y: i32) -> (r: bool)
        requires
            self.wf(),
        ensures
            r == self.spec_visible(x as int, y as int),
    {
        if 0 <= x && x < MAP_WIDTH && 0 <= y && y < MAP_HEIGHT {
            self.visible[x as usize][y as usize]
        } else {
            false
        }
    }
}

} // verus!
