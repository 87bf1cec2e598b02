//! The seven tetromino kinds: their canonical shapes, sizes and colours.

use vstd::prelude::*;

verus! {

/// An RGBA colour, each channel in thousandths (0 ..= 1000).
#[derive(Clone, Copy, Debug, PartialEq, Eq, Structural)]
pub struct Color {
    pub r: u16,
    pub g: u16,
    pub b: u16,
    pub a: u16,
}

impl Color {
    /// The all-zero colour of an empty cell.
    pub fn zero() -> (c: Color)
        ensures
            c == Color::zero_spec(),
    {
        Color { r: 0, g: 0, b: 0, a: 0 }
    }

    pub open spec fn zero_spec() -> Color {
        Color { r: 0, g: 0, b: 0, a: 0 }
    }
}

/// The seven piece kinds. Each kind is a fixed constant piece.
#[derive(Clone, Copy, Debug, PartialEq, Eq, Structural)]
pub enum Mino {
    T,
    S,
    Z,
    L,
    J,
    I,
    O,
}

impl Mino {
    /// Side length of the piece's bounding square.
    pub open spec fn size_spec(self) -> nat {
        match self {
            Mino::I => 4,
            Mino::O => 2,
            _ => 3,
        }
    }

    /// The canonical (upward) shape, row by row, top row first.
    pub open spec fn shape_spec(self) -> Seq<Seq<bool>> {
        match self {
            Mino::T => seq![
                seq![false, true, false],
                seq![true, true, true],
                seq![false, false, false],
            ],
            Mino::S => seq![
                seq![false, true, true],
                seq![true, true, false],
                seq![false, false, false],
            ],
            Mino::Z => seq![
                seq![true, true, false],
                seq![false, true, true],
                seq![false, false, false],
            ],
            Mino::L => seq![
                seq![false, false, true],
                seq![true, true, true],
                seq![false, false, false],
            ],
            Mino::J => seq![
                seq![true, false, false],
                seq![true, true, true],
                seq![false, false, false],
            ],
            Mino::I => seq![
                seq![false, false, false, false],
                seq![true, true, true, true],
                seq![false, false, false, false],
                seq![false, false, false, false],
            ],
            Mino::O => seq![seq![true, true], seq![true, true]],
        }
    }

    pub open spec fn color_spec(self) -> Color {
        match self {
            Mino::T => Color { r: 500, g: 0, b: 500, a: 1000 },
            Mino::S => Color { r: 0, g: 1000, b: 0, a: 1000 },
            Mino::Z => Color { r: 1000, g: 0, b: 0, a: 1000 },
            Mino::L => Color { r: 1000, g: 650, b: 0, a: 1000 },
            Mino::J => Color { r: 0, g: 0, b: 1000, a: 1000 },
            Mino::I => Color { r: 330, g: 730, b: 830, a: 1000 },
            Mino::O => Color { r: 980, g: 820, b: 110, a: 1000 },
        }
    }

    /// Whether cell `(i, j)` of the canonical shape is occupied.
    pub open spec fn cell(self, i: int, j: int) -> bool {
        self.shape_spec()[i][j]
    }

    pub fn get_size(&self) -> (r: usize)
        ensures
            r == self.size_spec(),
    {
        match self {
            Mino::I => 4,
            Mino::O => 2,
            _ => 3,
        }
    }

    pub fn get_shape(&self) -> (r: Vec<Vec<bool>>)
        ensures
            grid_view(r) == self.shape_spec(),
    {
        let r = match self {
            Mino::T => vec![
                vec![false, true, false],
                vec![true, true, true],
                vec![false, false, false],
            ],
            Mino::S => vec![
                vec![false, true, true],
                vec![true, true, false],
                vec![false, false, false],
            ],
            Mino::Z => vec![
                vec![true, true, false],
                vec![false, true, true],
                vec![false, false, false],
            ],
            Mino::L => vec![
                vec![false, false, true],
                vec![true, true, true],
                vec![false, false, false],
            ],
            Mino::J => vec![
                vec![true, false, false],
                vec![true, true, true],
                vec![false, false, false],
            ],
            Mino::I => vec![
                vec![false, false, false, false],
                vec![true, true, true, true],
                vec![false, false, false, false],
                vec![false, false, false, false],
            ],
            Mino::O => vec![vec![true, true], vec![true, true]],
        };
        assert(grid_view(r) =~~= self.shape_spec());
        r
    }

    pub fn get_color(&self) -> (c: Color)
        ensures
            c == self.color_spec(),
    {
        match self {
            Mino::T => Color { r: 500, g: 0, b: 500, a: 1000 },
            Mino::S => Color { r: 0, g: 1000, b: 0, a: 1000 },
            Mino::Z => Color { r: 1000, g: 0, b: 0, a: 1000 },
            Mino::L => Color { r: 1000, g: 650, b: 0, a: 1000 },
            Mino::J => Color { r: 0, g: 0, b: 1000, a: 1000 },
            Mino::I => Color { r: 330, g: 730, b: 830, a: 1000 },
            Mino::O => Color { r: 980, g: 820, b: 110, a: 1000 },
        }
    }
}

/// A matrix held as nested vectors, seen as nested sequences.
pub open spec fn grid_view<T>(g: Vec<Vec<T>>) -> Seq<Seq<T>> {
    g@.map_values(|row: Vec<T>| row@)
}

/// Rows of the view are the views of the rows.
pub proof fn lemma_grid_view<T>(g: Vec<Vec<T>>)
    ensures
        grid_view(g).len() == g@.len(),
        forall|r: int| 0 <= r < g@.len() ==> #[trigger] grid_view(g)[r] == g@[r]@,
{
}

/// Every canonical shape is a square of side `size_spec`.
pub proof fn lemma_shape_square(m: Mino)
    ensures
        m.shape_spec().len() == m.size_spec(),
        forall|i: int| 0 <= i < m.size_spec() ==> #[trigger] m.shape_spec()[i].len() == m.size_spec(),
{
}

} // verus!
