use vstd::prelude::*;

verus! {

/// One cell of the board: a stone of one of the two colors, or an empty cell.
#[derive(Clone, Copy, Debug, PartialEq, Eq, Structural)]
pub enum Square {
    Black,
    White,
    Empty,
}

impl Square {
    /// The opposing color; `Empty` is its own opposite.
    pub open spec fn opposite_spec(&self) -> Square {
        match *self {
            Square::Black => Square::White,
            Square::White => Square::Black,
            Square::Empty => Square::Empty,
        }
    }

    /// The opposing color; `Empty` is its own opposite.
    #[verifier::when_used_as_spec(opposite_spec)]
    pub fn opposite(&self) -> (r: Square)
        ensures
            r == self.opposite_spec(),
    {
        match *self {
            Square::Black => Square::White,
            Square::White => Square::Black,
            Square::Empty => Square::Empty,
        }
    }
}

} // verus!
