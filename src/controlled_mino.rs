//! The piece under the player's control: its position and orientation on
//! the field, how it looks in each orientation, the placement test, plain and
//! wall-kick rotation, and one-cell moves with ground detection.

use vstd::prelude::*;
use crate::field::Field;
use crate::mino::{Mino, grid_view, lemma_grid_view, lemma_shape_square};

verus! {

/// The four orientations of a piece, in clockwise order.
#[derive(Clone, Copy, Debug, PartialEq, Eq, Structural)]
pub enum Orientation {
    Upward,
    Rightward,
    Downward,
    Leftward,
}

/// The orientation one clockwise quarter turn on.
pub open spec fn turn_right(o: Orientation) -> Orientation {
    match o {
        Orientation::Upward => Orientation::Rightward,
        Orientation::Rightward => Orientation::Downward,
        Orientation::Downward => Orientation::Leftward,
        Orientation::Leftward => Orientation::Upward,
    }
}

/// The orientation one counter-clockwise quarter turn on.
pub open spec fn turn_left(o: Orientation) -> Orientation {
    match o {
        Orientation::Upward => Orientation::Leftward,
        Orientation::Rightward => Orientation::Upward,
        Orientation::Downward => Orientation::Rightward,
        Orientation::Leftward => Orientation::Downward,
    }
}

pub open spec fn turned(o: Orientation, right: bool) -> Orientation {
    if right {
        turn_right(o)
    } else {
        turn_left(o)
    }
}

fn next_orientation(o: Orientation, right: bool) -> (r: Orientation)
    ensures
        r == turned(o, right),
{
    if right {
        match o {
            Orientation::Upward => Orientation::Rightward,
            Orientation::Rightward => Orientation::Downward,
            Orientation::Downward => Orientation::Leftward,
            Orientation::Leftward => Orientation::Upward,
        }
    } else {
        match o {
            Orientation::Upward => Orientation::Leftward,
            Orientation::Rightward => Orientation::Upward,
            Orientation::Downward => Orientation::Rightward,
            Orientation::Leftward => Orientation::Downward,
        }
    }
}

/// Whether cell `(i, j)` of piece `m` seen in orientation `o` is occupied:
/// the canonical shape as is, turned a quarter clockwise, turned a half, or
/// turned a quarter counter-clockwise.
pub open spec fn oriented_cell(m: Mino, o: Orientation, i: int, j: int) -> bool {
    let s = m.size_spec() as int;
    match o {
        Orientation::Upward => m.cell(i, j),
        Orientation::Rightward => m.cell(s - 1 - j, i),
        Orientation::Downward => m.cell(s - 1 - i, s - 1 - j),
        Orientation::Leftward => m.cell(j, s - 1 - i),
    }
}

/// The occupancy matrix of piece `m` in orientation `o`.
pub open spec fn rendered(m: Mino, o: Orientation) -> Seq<Seq<bool>> {
    let s = m.size_spec();
    Seq::new(s, |i: int| Seq::new(s, |j: int| oriented_cell(m, o, i, j)))
}

/// A square matrix turned a quarter clockwise.
pub open spec fn quarter_turn(g: Seq<Seq<bool>>) -> Seq<Seq<bool>> {
    let n = g.len();
    Seq::new(n, |i: int| Seq::new(n, |j: int| g[n - 1 - j][i]))
}

/// Piece `m` in orientation `o` with the top-left corner of its bounding
/// square at column `x`, row `y`: every occupied cell lands on a free cell of
/// the field. Unoccupied cells of the square may hang over the edges.
pub open spec fn fits(field: Field, m: Mino, o: Orientation, x: int, y: int) -> bool {
    forall|i: int, j: int|
        0 <= i < m.size_spec() && 0 <= j < m.size_spec() && #[trigger] oriented_cell(m, o, i, j)
            ==> field.is_free(y + i, x + j)
}

/// The shift of a one-cell move towards `dir`: `(dx, dy)`, with y growing downwards.
pub open spec fn step(dir: Orientation) -> (int, int) {
    match dir {
        Orientation::Upward => (0, -1),
        Orientation::Rightward => (1, 0),
        Orientation::Downward => (0, 1),
        Orientation::Leftward => (-1, 0),
    }
}

/// The five wall-kick offsets tried, in order, when turning from `from`
/// (towards the right when `right`). One table serves the four-wide piece,
/// another all others. The vertical components are listed with y growing
/// upwards and are negated before use.
pub open spec fn kick_offsets(m: Mino, from: Orientation, right: bool) -> Seq<(int, int)> {
    if m.size_spec() == 4 {
        if right {
            match from {
                Orientation::Upward => seq![(0, 0), (-2, 0), (1, 0), (-2, -1), (1, 2)],
                Orientation::Rightward => seq![(0, 0), (-1, 0), (2, 0), (-1, 2), (2, -1)],
                Orientation::Downward => seq![(0, 0), (2, 0), (-1, 0), (2, 1), (-1, -2)],
                Orientation::Leftward => seq![(0, 0), (1, 0), (-2, 0), (1, -2), (-2, 1)],
            }
        } else {
            match from {
                Orientation::Upward => seq![(0, 0), (-1, 0), (2, 0), (-1, 2), (2, -1)],
                Orientation::Rightward => seq![(0, 0), (2, 0), (-1, 0), (2, 1), (-1, -2)],
                Orientation::Downward => seq![(0, 0), (1, 0), (-2, 0), (1, -2), (-2, 1)],
                Orientation::Leftward => seq![(0, 0), (-2, 0), (1, 0), (-2, -1), (1, 2)],
            }
        }
    } else {
        if right {
            match from {
                Orientation::Upward => seq![(0, 0), (-1, 0), (-1, 1), (0, -2), (-1, -2)],
                Orientation::Rightward => seq![(0, 0), (1, 0), (1, -1), (0, 2), (1, 2)],
                Orientation::Downward => seq![(0, 0), (1, 0), (1, 1), (0, -2), (1, -2)],
                Orientation::Leftward => seq![(0, 0), (-1, 0), (-1, -1), (0, 2), (-1, 2)],
            }
        } else {
            match from {
                Orientation::Upward => seq![(0, 0), (1, 0), (1, 1), (0, -2), (1, -2)],
                Orientation::Rightward => seq![(0, 0), (1, 0), (1, -1), (0, 2), (1, 2)],
                Orientation::Downward => seq![(0, 0), (-1, 0), (-1, 1), (0, -2), (-1, -2)],
                Orientation::Leftward => seq![(0, 0), (-1, 0), (-1, -1), (0, 2), (-1, 2)],
            }
        }
    }
}

/// The position reached by the first of the kick candidates from number `k`
/// on at which the turned piece fits, if any.
pub open spec fn first_kick(
    field: Field,
    m: Mino,
    from: Orientation,
    right: bool,
    x: int,
    y: int,
    k: nat,
) -> Option<(int, int)>
    decreases 5 - k,
{
    if k >= 5 {
        None
    } else {
        let d = kick_offsets(m, from, right)[k as int];
        let nx = x + d.0;
        let ny = y - d.1;
        if fits(field, m, turned(from, right), nx, ny) {
            Some((nx, ny))
        } else {
            first_kick(field, m, from, right, x, y, (k + 1) as nat)
        }
    }
}

/// The active piece: the top-left corner of its bounding square at
/// `(x, y)` (column, row; either may be negative), its orientation, whether
/// its latest downward move was blocked, and its kind.
#[derive(Clone, Copy, Debug, PartialEq, Eq, Structural)]
pub struct ControlledMino {
    pub x: i64,
    pub y: i64,
    pub ori: Orientation,
    pub grounded: bool,
    pub mino: Mino,
}

impl ControlledMino {
    /// Where the piece sits: it fits on the field at its own position.
    pub open spec fn fits_on(self, field: Field) -> bool {
        fits(field, self.mino, self.ori, self.x as int, self.y as int)
    }

    /// The piece after a plain turn: the turned orientation where it fits at
    /// the same position, else unchanged.
    pub open spec fn rotated(self, field: Field, right: bool) -> ControlledMino {
        if fits(field, self.mino, turned(self.ori, right), self.x as int, self.y as int) {
            ControlledMino { ori: turned(self.ori, right), ..self }
        } else {
            self
        }
    }

    /// The piece after a wall-kick turn: turned and moved to the first kick
    /// candidate where it fits, else unchanged.
    pub open spec fn kick_rotated(self, field: Field, right: bool) -> ControlledMino {
        match first_kick(field, self.mino, self.ori, right, self.x as int, self.y as int, 0) {
            Some(p) => ControlledMino { x: p.0 as i64, y: p.1 as i64, ori: turned(self.ori, right), ..self },
            None => self,
        }
    }

    /// The piece after a one-cell move towards `dir`: moved where it fits.
    /// A downward move clears `grounded` when it succeeds and sets it when it
    /// is blocked; other moves leave it alone.
    pub open spec fn moved(self, field: Field, dir: Orientation) -> ControlledMino {
        let d = step(dir);
        if fits(field, self.mino, self.ori, self.x + d.0, self.y + d.1) {
            ControlledMino {
                x: (self.x + d.0) as i64,
                y: (self.y + d.1) as i64,
                grounded: if dir == Orientation::Downward { false } else { self.grounded },
                ..self
            }
        } else {
            ControlledMino {
                grounded: if dir == Orientation::Downward { true } else { self.grounded },
                ..self
            }
        }
    }

    /// A fresh piece at column `x`, row 0, facing up, not grounded.
    pub fn new(x: i64, mino: Mino) -> (r: ControlledMino)
        ensures
            r == (ControlledMino { x, y: 0, ori: Orientation::Upward, grounded: false, mino }),
    {
        ControlledMino { x, y: 0, ori: Orientation::Upward, grounded: false, mino }
    }

    pub fn get_x(&self) -> (r: i64)
        ensures
            r == self.x,
    {
        self.x
    }

    pub fn get_y(&self) -> (r: i64)
        ensures
            r == self.y,
    {
        self.y
    }

    pub fn set_y(&mut self, y: i64)
        ensures
            *final(self) == (ControlledMino { y, ..*old(self) }),
    {
        self.y = y;
    }

    pub fn get_grounded(&self) -> (r: bool)
        ensures
            r == self.grounded,
    {
        self.grounded
    }

    pub fn set_grounded(&mut self, grounded: bool)
        ensures
            *final(self) == (ControlledMino { grounded, ..*old(self) }),
    {
        self.grounded = grounded;
    }

    /// The piece kind, to read or replace in place.
    pub fn get_mino(&mut self) -> (r: &mut Mino)
        ensures
            *r == old(self).mino,
            *final(self) == (ControlledMino { mino: *final(r), ..*old(self) }),
    {
        &mut self.mino
    }

    /// The occupancy matrix of the piece as it is turned now.
    pub fn render(&self) -> (r: Vec<Vec<bool>>)
        ensures
            grid_view(r) == rendered(self.mino, self.ori),
    {
        let size = self.mino.get_size();
        let shape = self.mino.get_shape();
        proof {
            lemma_grid_view(shape);
            lemma_shape_square(self.mino);
        }
        let mut out: Vec<Vec<bool>> = Vec::new();
        let mut i: usize = 0;
        while i < size
            invariant
                size == self.mino.size_spec(),
                grid_view(shape) == self.mino.shape_spec(),
                shape@.len() == size,
                forall|a: int| 0 <= a < size ==> (#[trigger] shape@[a])@.len() == size,
                i <= size,
                grid_view(out) == rendered(self.mino, self.ori).subrange(0, i as int),
            decreases size - i,
        {
            let mut row: Vec<bool> = Vec::new();
            let mut j: usize = 0;
            while j < size
                invariant
                    size == self.mino.size_spec(),
                    grid_view(shape) == self.mino.shape_spec(),
                    shape@.len() == size,
                    forall|a: int| 0 <= a < size ==> (#[trigger] shape@[a])@.len() == size,
                    i < size,
                    j <= size,
                    row@ == rendered(self.mino, self.ori)[i as int].subrange(0, j as int),
                decreases size - j,
            {
                let v = match self.ori {
                    Orientation::Upward => shape[i][j],
                    Orientation::Rightward => shape[size - 1 - j][i],
                    Orientation::Downward => shape[size - 1 - i][size - 1 - j],
                    Orientation::Leftward => shape[j][size - 1 - i],
                };
                proof {
                    assert(grid_view(shape)[i as int] == shape@[i as int]@);
                    assert(grid_view(shape)[j as int] == shape@[j as int]@);
                    assert(grid_view(shape)[size - 1 - j] == shape@[size - 1 - j]@);
                    assert(grid_view(shape)[size - 1 - i] == shape@[size - 1 - i]@);
                    assert(v == oriented_cell(self.mino, self.ori, i as int, j as int));
                }
                row.push(v);
                j += 1;
                proof {
                    assert(row@ =~= rendered(self.mino, self.ori)[i as int].subrange(0, j as int));
                }
            }
            let ghost prev = out;
            out.push(row);
            i += 1;
            proof {
                lemma_grid_view(prev);
                lemma_grid_view(out);
                assert(row@ =~= rendered(self.mino, self.ori)[i - 1]);
                assert(grid_view(out) =~= rendered(self.mino, self.ori).subrange(0, i as int));
            }
        }
        proof {
            assert(grid_view(out) =~= rendered(self.mino, self.ori));
        }
        out
    }

    /// Whether the piece fails to fit on the field where it stands.
    fn is_invalid_position(&self, field: &Field) -> (r: bool)
        requires
            field.wf(),
        ensures
            r == !self.fits_on(*field),
    {
        !can_place(field, self.mino, self.ori, self.x as i128, self.y as i128)
    }

    /// Turns the piece a quarter (clockwise when `right`) where it stands,
    /// or leaves it as it is when the turned piece does not fit there.
    fn rotate_in_place(&mut self, field: &Field, right: bool)
        requires
            field.wf(),
        ensures
            *final(self) == old(self).rotated(*field, right),
    {
        let original_ori = self.ori;
        self.ori = next_orientation(self.ori, right);
        if self.is_invalid_position(field) {
            self.ori = original_ori;
        }
    }

    /// Turns the piece a quarter clockwise, without wall kicks.
    pub fn right_rotate(&mut self, field: &Field)
        requires
            field.wf(),
        ensures
            *final(self) == old(self).rotated(*field, true),
    {
        self.rotate_in_place(field, true);
    }

    /// Turns the piece a quarter counter-clockwise, without wall kicks.
    pub fn left_rotate(&mut self, field: &Field)
        requires
            field.wf(),
        ensures
            *final(self) == old(self).rotated(*field, false),
    {
        self.rotate_in_place(field, false);
    }

    /// Turns the piece a quarter and tries the kick candidates in order,
    /// committing the first position where it fits; when none does, the piece
    /// stays as it was.
    #[verifier::rlimit(60)]
    fn rotate_with_kicks(&mut self, field: &Field, right: bool)
        requires
            field.wf(),
        ensures
            *final(self) == old(self).kick_rotated(*field, right),
            final(self).fits_on(*field) || *final(self) == *old(self),
    {
        let original_ori = self.ori;
        let new_ori = next_orientation(self.ori, right);
        let table = kick_table(self.mino, original_ori, right);
        let x = self.x as i128;
        let y = self.y as i128;
        let mut k: usize = 0;
        while k < 5
            invariant
                field.wf(),
                *self == *old(self),
                x == self.x,
                y == self.y,
                new_ori == turned(original_ori, right),
                original_ori == self.ori,
                forall|a: int| 0 <= a < 5 ==> (#[trigger] table@[a]).0 == kick_offsets(self.mino, original_ori, right)[a].0
                    && table@[a].1 == kick_offsets(self.mino, original_ori, right)[a].1,
                k <= 5,
                first_kick(*field, self.mino, original_ori, right, x as int, y as int, 0)
                    == first_kick(*field, self.mino, original_ori, right, x as int, y as int, k as nat),
            decreases 5 - k,
        {
            let (dx, dy) = table[k];
            assert(-2 <= dx <= 2 && -2 <= dy <= 2) by {
                assert(table@[k as int] == (dx, dy));
            }
            let nx = x + dx as i128;
            let ny = y - dy as i128;
            if can_place(field, self.mino, new_ori, nx, ny) {
                proof {
                    lemma_fits_bounds(*field, self.mino, new_ori, nx as int, ny as int);
                }
                self.x = nx as i64;
                self.y = ny as i64;
                self.ori = new_ori;
                return;
            }
            k += 1;
        }
    }

    /// Clockwise turn with wall kicks.
    pub fn right_rotate_with_srs(&mut self, field: &Field)
        requires
            field.wf(),
        ensures
            *final(self) == old(self).kick_rotated(*field, true),
    {
        self.rotate_with_kicks(field, true);
    }

    /// Counter-clockwise turn with wall kicks.
    pub fn left_rotate_with_srs(&mut self, field: &Field)
        requires
            field.wf(),
        ensures
            *final(self) == old(self).kick_rotated(*field, false),
    {
        self.rotate_with_kicks(field, false);
    }

    /// Moves the piece one cell towards `ori` where it fits. Only a downward
    /// move touches `grounded`: cleared when it succeeds, set when blocked.
    pub fn move_mino(&mut self, field: &Field, ori: Orientation)
        requires
            field.wf(),
        ensures
            *final(self) == old(self).moved(*field, ori),
            fits(*field, old(self).mino, old(self).ori, old(self).x + step(ori).0, old(self).y + step(ori).1)
                ==> final(self).x == old(self).x + step(ori).0 && final(self).y == old(self).y + step(ori).1,
    {
        let (dx, dy): (i128, i128) = match ori {
            Orientation::Upward => (0, -1),
            Orientation::Rightward => (1, 0),
            Orientation::Downward => (0, 1),
            Orientation::Leftward => (-1, 0),
        };
        let nx = self.x as i128 + dx;
        let ny = self.y as i128 + dy;
        let down = match ori {
            Orientation::Downward => true,
            _ => false,
        };
        if can_place(field, self.mino, self.ori, nx, ny) {
            proof {
                lemma_fits_bounds(*field, self.mino, self.ori, nx as int, ny as int);
            }
            self.x = nx as i64;
            self.y = ny as i64;
            if down {
                self.grounded = false;
            }
        } else {
            if down {
                self.grounded = true;
            }
        }
    }
}

/// A square matrix turned a quarter four times is the matrix itself.
pub proof fn lemma_four_quarter_turns(g: Seq<Seq<bool>>)
    requires
        forall|i: int| 0 <= i < g.len() ==> #[trigger] g[i].len() == g.len(),
    ensures
        quarter_turn(quarter_turn(quarter_turn(quarter_turn(g)))) == g,
{
    let q4 = quarter_turn(quarter_turn(quarter_turn(quarter_turn(g))));
    assert forall|i: int| 0 <= i < g.len() implies #[trigger] q4[i] == g[i] by {
        assert(q4[i] =~= g[i]);
    }
    assert(q4 =~= g);
}

/// Rotation closure: turning a piece one orientation clockwise turns its
/// occupancy matrix a quarter clockwise, and four such turns bring both the
/// orientation and the matrix back to where they started.
pub proof fn lemma_rotation_closure(m: Mino, o: Orientation)
    ensures
        rendered(m, turn_right(o)) == quarter_turn(rendered(m, o)),
        turn_right(turn_right(turn_right(turn_right(o)))) == o,
        quarter_turn(quarter_turn(quarter_turn(quarter_turn(rendered(m, o))))) == rendered(m, o),
{
    let g = rendered(m, o);
    let n = m.size_spec() as int;
    assert forall|i: int| 0 <= i < n implies #[trigger] rendered(m, turn_right(o))[i] == quarter_turn(g)[i] by {
        assert(rendered(m, turn_right(o))[i] =~= quarter_turn(g)[i]);
    }
    assert(rendered(m, turn_right(o)) =~= quarter_turn(g));
    lemma_four_quarter_turns(g);
}

/// A wall-kick turn whose in-place turn fits is the plain turn: the zero
/// offset is always the first candidate.
pub proof fn lemma_kick_turn_in_place(cm: ControlledMino, field: Field, right: bool)
    requires
        field.wf(),
        fits(field, cm.mino, turned(cm.ori, right), cm.x as int, cm.y as int),
    ensures
        cm.kick_rotated(field, right) == cm.rotated(field, right),
{
    assert(kick_offsets(cm.mino, cm.ori, right)[0] == (0int, 0int));
    assert(first_kick(field, cm.mino, cm.ori, right, cm.x as int, cm.y as int, 0)
        == Some((cm.x as int, cm.y as int)));
}

/// Grounding: a downward move into a filled cell or past the bottom keeps
/// the position and marks the piece grounded; a downward move that succeeds
/// moves it one row down and clears the mark.
pub proof fn lemma_downward_grounding(cm: ControlledMino, field: Field)
    requires
        field.wf(),
    ensures
        !fits(field, cm.mino, cm.ori, cm.x as int, cm.y + 1) ==> {
            let after = cm.moved(field, Orientation::Downward);
            after.x == cm.x && after.y == cm.y && after.grounded
        },
        fits(field, cm.mino, cm.ori, cm.x as int, cm.y + 1) ==> {
            let after = cm.moved(field, Orientation::Downward);
            after.x == cm.x && after.y == cm.y + 1 && !after.grounded
        },
{
    if fits(field, cm.mino, cm.ori, cm.x as int, cm.y + 1) {
        lemma_fits_bounds(field, cm.mino, cm.ori, cm.x as int, cm.y + 1);
    }
}

/// The kick candidates for turning piece `m` from `from`, as listed in
/// `kick_offsets`.
fn kick_table(m: Mino, from: Orientation, right: bool) -> (r: [(i64, i64); 5])
    ensures
        forall|a: int| 0 <= a < 5 ==> (#[trigger] r@[a]).0 == kick_offsets(m, from, right)[a].0
            && r@[a].1 == kick_offsets(m, from, right)[a].1,
{
    let r: [(i64, i64); 5] = if m.get_size() == 4 {
        if right {
            match from {
                Orientation::Upward => [(0, 0), (-2, 0), (1, 0), (-2, -1), (1, 2)],
                Orientation::Rightward => [(0, 0), (-1, 0), (2, 0), (-1, 2), (2, -1)],
                Orientation::Downward => [(0, 0), (2, 0), (-1, 0), (2, 1), (-1, -2)],
                Orientation::Leftward => [(0, 0), (1, 0), (-2, 0), (1, -2), (-2, 1)],
            }
        } else {
            match from {
                Orientation::Upward => [(0, 0), (-1, 0), (2, 0), (-1, 2), (2, -1)],
                Orientation::Rightward => [(0, 0), (2, 0), (-1, 0), (2, 1), (-1, -2)],
                Orientation::Downward => [(0, 0), (1, 0), (-2, 0), (1, -2), (-2, 1)],
                Orientation::Leftward => [(0, 0), (-2, 0), (1, 0), (-2, -1), (1, 2)],
            }
        }
    } else {
        if right {
            match from {
                Orientation::Upward => [(0, 0), (-1, 0), (-1, 1), (0, -2), (-1, -2)],
                Orientation::Rightward => [(0, 0), (1, 0), (1, -1), (0, 2), (1, 2)],
                Orientation::Downward => [(0, 0), (1, 0), (1, 1), (0, -2), (1, -2)],
                Orientation::Leftward => [(0, 0), (-1, 0), (-1, -1), (0, 2), (-1, 2)],
            }
        } else {
            match from {
                Orientation::Upward => [(0, 0), (1, 0), (1, 1), (0, -2), (1, -2)],
                Orientation::Rightward => [(0, 0), (1, 0), (1, -1), (0, 2), (1, 2)],
                Orientation::Downward => [(0, 0), (-1, 0), (-1, 1), (0, -2), (-1, -2)],
                Orientation::Leftward => [(0, 0), (-1, 0), (-1, -1), (0, 2), (-1, 2)],
            }
        }
    };
    r
}

/// Whether piece `m` in orientation `o` fits on the field at `(x, y)`.
fn can_place(field: &Field, m: Mino, o: Orientation, x: i128, y: i128) -> (r: bool)
    requires
        field.wf(),
        -0x1_0000_0000_0000_0000 < x < 0x1_0000_0000_0000_0000,
        -0x1_0000_0000_0000_0000 < y < 0x1_0000_0000_0000_0000,
    ensures
        r == fits(*field, m, o, x as int, y as int),
{
    let probe = ControlledMino { x: 0, y: 0, ori: o, grounded: false, mino: m };
    let shape = probe.render();
    let size = m.get_size();
    let height_u = field.get_height();
    let width_u = field.get_width();
    let height = height_u as i128;
    let width = width_u as i128;
    proof {
        lemma_grid_view(shape);
    }
    let mut i: usize = 0;
    while i < size
        invariant
            field.wf(),
            -0x1_0000_0000_0000_0000 < x < 0x1_0000_0000_0000_0000,
            -0x1_0000_0000_0000_0000 < y < 0x1_0000_0000_0000_0000,
            size == m.size_spec(),
            height == field.height_spec(),
            width == field.width_spec(),
            height == height_u,
            width == width_u,
            grid_view(shape) == rendered(m, o),
            shape@.len() == size,
            forall|a: int| 0 <= a < size ==> #[trigger] grid_view(shape)[a] == shape@[a]@,
            i <= size,
            forall|a: int, b: int|
                0 <= a < i && 0 <= b < size && #[trigger] oriented_cell(m, o, a, b)
                    ==> field.is_free(y + a, x + b),
        decreases size - i,
    {
        let mut j: usize = 0;
        assert(shape@[i as int]@ == rendered(m, o)[i as int]);
        while j < size
            invariant
                field.wf(),
                -0x1_0000_0000_0000_0000 < x < 0x1_0000_0000_0000_0000,
                -0x1_0000_0000_0000_0000 < y < 0x1_0000_0000_0000_0000,
                size == m.size_spec(),
                height == field.height_spec(),
                width == field.width_spec(),
                height == height_u,
                width == width_u,
                shape@.len() == size,
                shape@[i as int]@ == rendered(m, o)[i as int],
                i < size,
                j <= size,
                forall|a: int, b: int|
                    0 <= a < i && 0 <= b < size && #[trigger] oriented_cell(m, o, a, b)
                        ==> field.is_free(y + a, x + b),
                forall|b: int|
                    0 <= b < j && #[trigger] oriented_cell(m, o, i as int, b)
                        ==> field.is_free(y + i, x + b),
            decreases size - j,
        {
            let occupied = shape[i][j];
            assert(occupied == oriented_cell(m, o, i as int, j as int));
            if occupied {
                let row = y + i as i128;
                let col = x + j as i128;
                if row < 0 || row >= height || col < 0 || col >= width {
                    assert(!field.is_free(y + i, x + j));
                    return false;
                }
                let ru = row as usize;
                let cu = col as usize;
                assert(ru as int == y + i && cu as int == x + j);
                let filled = field.get_block(ru, cu).filled;
                if filled {
                    assert(!field.is_free(y + i, x + j));
                    return false;
                }
                assert(field.is_free(y + i, x + j));
            }
            j += 1;
        }
        i += 1;
    }
    true
}

/// A piece that fits has its bounding square's corner within three cells of
/// the field, so its coordinates stay well inside the `i64` range.
proof fn lemma_fits_bounds(field: Field, m: Mino, o: Orientation, x: int, y: int)
    requires
        field.wf(),
        fits(field, m, o, x, y),
    ensures
        -4 < x < i64::MAX,
        -4 < y < i64::MAX,
{
    let s = m.size_spec() as int;
    let (i, j) = match o {
        Orientation::Upward => (1int, 1int),
        Orientation::Rightward => (1int, s - 2),
        Orientation::Downward => (s - 2, s - 2),
        Orientation::Leftward => (s - 2, 1int),
    };
    assert(oriented_cell(m, o, i, j));
    assert(field.is_free(y + i, x + j));
}

} // verus!
