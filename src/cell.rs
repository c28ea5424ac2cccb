use vstd::prelude::*;

verus! {

/// The state of one grid cell.
#[derive(Clone, Copy, Debug, PartialEq, Eq, Structural)]
pub enum Cell {
    Dead,
    Alive,
}

/// What a cell adds to its neighbours' live count: 1 when alive, else 0.
pub open spec fn cell_value(c: Cell) -> int {
    match c {
        Cell::Dead => 0,
        Cell::Alive => 1,
    }
}

impl Cell {
    /// Toggles the cell between `Dead` and `Alive`.
    pub fn flip(&mut self)
        ensures
            *final(self) == (match *old(self) {
                Cell::Dead => Cell::Alive,
                Cell::Alive => Cell::Dead,
            }),
    {
        *self = match *self {
            Cell::Dead => Cell::Alive,
            Cell::Alive => Cell::Dead,
        };
    }

    /// The cell as a small integer, 1 for `Alive` and 0 for `Dead`.
    pub fn value(self) -> (r: u8)
        ensures
            r as int == cell_value(self),
    {
        match self {
            Cell::Dead => 0,
            Cell::Alive => 1,
        }
    }
}

} // verus!
