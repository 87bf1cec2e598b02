//! The playing field: a fixed-size grid of cells, full-row detection,
//! row deletion with compaction, and row insertion from the bottom.

use vstd::prelude::*;
use crate::mino::{Color, grid_view, lemma_grid_view};

verus! {

/// One cell of the field.
#[derive(Clone, Copy, Debug, PartialEq, Eq, Structural)]
pub struct FieldBlock {
    pub filled: bool,
    pub color: Color,
}

impl FieldBlock {
    /// An unfilled cell with the zero colour.
    pub open spec fn empty_spec() -> FieldBlock {
        FieldBlock { filled: false, color: Color::zero_spec() }
    }

    pub fn empty() -> (b: FieldBlock)
        ensures
            b == FieldBlock::empty_spec(),
    {
        FieldBlock { filled: false, color: Color::zero() }
    }
}

/// A row of `w` empty cells.
pub open spec fn empty_row(w: nat) -> Seq<FieldBlock> {
    Seq::new(w, |c: int| FieldBlock::empty_spec())
}

/// Every cell of the row is filled.
pub open spec fn row_full(row: Seq<FieldBlock>) -> bool {
    forall|c: int| 0 <= c < row.len() ==> #[trigger] row[c].filled
}

/// No cell of the row is filled.
pub open spec fn row_clear(row: Seq<FieldBlock>) -> bool {
    forall|c: int| 0 <= c < row.len() ==> !(#[trigger] row[c].filled)
}

/// The rows among the first `n` whose index is not listed in `del`,
/// in their original order.
pub open spec fn kept_rows(rows: Seq<Seq<FieldBlock>>, del: Seq<usize>, n: int) -> Seq<Seq<FieldBlock>>
    decreases n,
{
    if n <= 0 {
        Seq::empty()
    } else if del.contains((n - 1) as usize) {
        kept_rows(rows, del, n - 1)
    } else {
        kept_rows(rows, del, n - 1).push(rows[n - 1])
    }
}

/// The indices among `0..n` not listed in `del`, ascending.
pub open spec fn kept_indices(del: Seq<usize>, n: int) -> Seq<int>
    decreases n,
{
    if n <= 0 {
        Seq::empty()
    } else if del.contains((n - 1) as usize) {
        kept_indices(del, n - 1)
    } else {
        kept_indices(del, n - 1).push(n - 1)
    }
}

/// Deleting rows keeps exactly the rows whose index is not listed, each
/// once, in their original top-to-bottom order: entry `t` of the kept rows
/// is row `kept_indices(del, n)[t]`, and those indices ascend and are
/// precisely the unlisted ones below `n`.
pub proof fn lemma_kept_rows_are_survivors(rows: Seq<Seq<FieldBlock>>, del: Seq<usize>, n: int)
    requires
        0 <= n <= rows.len(),
        n <= usize::MAX,
    ensures
        kept_rows(rows, del, n).len() == kept_indices(del, n).len(),
        forall|t: int| 0 <= t < kept_indices(del, n).len()
            ==> #[trigger] kept_rows(rows, del, n)[t] == rows[kept_indices(del, n)[t]],
        forall|a: int, b: int| 0 <= a < b < kept_indices(del, n).len()
            ==> kept_indices(del, n)[a] < kept_indices(del, n)[b],
        forall|t: int| 0 <= t < kept_indices(del, n).len()
            ==> 0 <= #[trigger] kept_indices(del, n)[t] < n && !del.contains(kept_indices(del, n)[t] as usize),
        forall|r: int| 0 <= r < n && !del.contains(r as usize) ==> #[trigger] kept_indices(del, n).contains(r),
    decreases n,
{
    if n > 0 {
        lemma_kept_rows_are_survivors(rows, del, n - 1);
        let prev = kept_indices(del, n - 1);
        let cur = kept_indices(del, n);
        assert forall|r: int| 0 <= r < n && !del.contains(r as usize) implies #[trigger] cur.contains(r) by {
            if r < n - 1 {
                assert(prev.contains(r));
                let t = choose|t: int| 0 <= t < prev.len() && prev[t] == r;
                assert(cur[t] == r);
            } else {
                assert(cur[cur.len() - 1] == r);
            }
        }
    }
}

/// The grid of a game. Rows are numbered from the top (row 0) down. The
/// rows are kept in a ring: row `r` is stored at `(top + r) % height`, so
/// pushing a row in at the bottom replaces the top row in place.
#[derive(Clone)]
pub struct Field {
    height: usize,
    width: usize,
    top: usize,
    blocks: Vec<Vec<FieldBlock>>,
}

impl Field {
    pub closed spec fn height_spec(&self) -> nat {
        self.height as nat
    }

    pub closed spec fn width_spec(&self) -> nat {
        self.width as nat
    }

    /// Where row `r` is stored.
    pub closed spec fn slot(&self, r: int) -> int {
        if self.top + r < self.height {
            self.top + r
        } else {
            self.top + r - self.height
        }
    }

    /// The cells, row by row from the top.
    pub closed spec fn rows(&self) -> Seq<Seq<FieldBlock>> {
        Seq::new(self.height as nat, |r: int| self.blocks@[self.slot(r)]@)
    }

    /// The ring holds `height` stored rows of `width` cells, starting at `top`.
    pub closed spec fn storage_ok(&self) -> bool {
        &&& self.blocks@.len() == self.height
        &&& (self.top < self.height || self.top == 0)
        &&& forall|p: int| 0 <= p < self.height ==> (#[trigger] self.blocks@[p])@.len() == self.width
    }

    fn slot_of(&self, r: usize) -> (p: usize)
        requires
            self.storage_ok(),
            r < self.height,
        ensures
            p == self.slot(r as int),
            p < self.height,
    {
        ring_slot(self.top, self.height, r)
    }

    /// `height` rows of `width` cells each; both dimensions fit in an `i64`,
    /// the type of piece coordinates.
    pub open spec fn wf(&self) -> bool {
        &&& self.storage_ok()
        &&& self.rows().len() == self.height_spec()
        &&& forall|r: int| 0 <= r < self.height_spec() ==> #[trigger] self.rows()[r].len() == self.width_spec()
        &&& self.height_spec() <= i64::MAX
        &&& self.width_spec() <= i64::MAX
    }

    /// The cell at `(r, c)`.
    pub open spec fn block(&self, r: int, c: int) -> FieldBlock {
        self.rows()[r][c]
    }

    /// `(r, c)` lies on the field.
    pub open spec fn in_bounds(&self, r: int, c: int) -> bool {
        0 <= r < self.height_spec() && 0 <= c < self.width_spec()
    }

    /// `(r, c)` lies on the field and its cell is not filled.
    pub open spec fn is_free(&self, r: int, c: int) -> bool {
        self.in_bounds(r, c) && !self.block(r, c).filled
    }

    pub open spec fn is_full_row(&self, r: int) -> bool {
        row_full(self.rows()[r])
    }

    /// A field of `height` rows and `width` columns, every cell empty.
    pub fn new(height: usize, width: usize) -> (f: Field)
        requires
            height <= i64::MAX,
            width <= i64::MAX,
        ensures
            f.wf(),
            f.height_spec() == height,
            f.width_spec() == width,
            f.rows() == Seq::new(height as nat, |r: int| empty_row(width as nat)),
    {
        let mut blocks: Vec<Vec<FieldBlock>> = Vec::new();
        let mut i: usize = 0;
        while i < height
            invariant
                i <= height,
                grid_view(blocks) == Seq::new(i as nat, |r: int| empty_row(width as nat)),
            decreases height - i,
        {
            let row = empty_line(width);
            let ghost prev = blocks;
            blocks.push(row);
            i += 1;
            proof {
                lemma_grid_view(prev);
                lemma_grid_view(blocks);
                assert forall|r: int| 0 <= r < i implies grid_view(blocks)[r] == empty_row(width as nat) by {
                    if r < i - 1 {
                        assert(grid_view(prev)[r] == empty_row(width as nat));
                    }
                }
                assert(grid_view(blocks) =~= Seq::new(i as nat, |r: int| empty_row(width as nat)));
            }
        }
        let f = Field { height, width, top: 0, blocks };
        proof {
            lemma_grid_view(f.blocks);
            assert forall|p: int| 0 <= p < height implies (#[trigger] f.blocks@[p])@.len() == width by {
                assert(grid_view(f.blocks)[p] == empty_row(width as nat));
            }
            assert forall|r: int| 0 <= r < height implies #[trigger] f.rows()[r] == empty_row(width as nat) by {
                assert(grid_view(f.blocks)[r] == empty_row(width as nat));
            }
        }
        assert(f.rows() =~= Seq::new(height as nat, |r: int| empty_row(width as nat)));
        f
    }

    pub fn get_height(&self) -> (r: usize)
        ensures
            r == self.height_spec(),
    {
        self.height
    }

    pub fn get_width(&self) -> (r: usize)
        ensures
            r == self.width_spec(),
    {
        self.width
    }

    /// The cell at `(row, col)`; the caller keeps the coordinates on the field.
    pub fn get_block(&self, row: usize, col: usize) -> (b: &FieldBlock)
        requires
            self.wf(),
            self.in_bounds(row as int, col as int),
        ensures
            *b == self.block(row as int, col as int),
    {
        let p = self.slot_of(row);
        proof {
            assert(self.rows()[row as int] == self.blocks@[p as int]@);
        }
        &self.blocks[p][col]
    }

    pub fn set_block_filled(&mut self, row: usize, col: usize, filled: bool)
        requires
            old(self).wf(),
            old(self).in_bounds(row as int, col as int),
        ensures
            final(self).wf(),
            final(self).height_spec() == old(self).height_spec(),
            final(self).width_spec() == old(self).width_spec(),
            final(self).rows() == old(self).rows().update(
                row as int,
                old(self).rows()[row as int].update(
                    col as int,
                    FieldBlock { filled, color: old(self).block(row as int, col as int).color },
                ),
            ),
    {
        let p = self.slot_of(row);
        proof {
            assert(self.rows()[row as int] == self.blocks@[p as int]@);
        }
        self.blocks[p][col].filled = filled;
        proof {
            assert forall|q: int| 0 <= q < self.height implies (#[trigger] self.blocks@[q])@.len() == self.width by {
                assert(old(self).blocks@[q]@.len() == self.width);
            }
            assert(self.rows() =~~= old(self).rows().update(
                row as int,
                old(self).rows()[row as int].update(
                    col as int,
                    FieldBlock { filled, color: old(self).block(row as int, col as int).color },
                ),
            ));
        }
    }

    pub fn set_block_color(&mut self, row: usize, col: usize, color: Color)
        requires
            old(self).wf(),
            old(self).in_bounds(row as int, col as int),
        ensures
            final(self).wf(),
            final(self).height_spec() == old(self).height_spec(),
            final(self).width_spec() == old(self).width_spec(),
            final(self).rows() == old(self).rows().update(
                row as int,
                old(self).rows()[row as int].update(
                    col as int,
                    FieldBlock { filled: old(self).block(row as int, col as int).filled, color },
                ),
            ),
    {
        let p = self.slot_of(row);
        proof {
            assert(self.rows()[row as int] == self.blocks@[p as int]@);
        }
        self.blocks[p][col].color = color;
        proof {
            assert forall|q: int| 0 <= q < self.height implies (#[trigger] self.blocks@[q])@.len() == self.width by {
                assert(old(self).blocks@[q]@.len() == self.width);
            }
            assert(self.rows() =~~= old(self).rows().update(
                row as int,
                old(self).rows()[row as int].update(
                    col as int,
                    FieldBlock { filled: old(self).block(row as int, col as int).filled, color },
                ),
            ));
        }
    }

    /// `ids` lists, in ascending order, exactly the indices of the full rows.
    pub open spec fn lists_full_rows(&self, ids: Seq<usize>) -> bool {
        &&& forall|a: int, b: int| 0 <= a < b < ids.len() ==> ids[a] < ids[b]
        &&& forall|k: int| 0 <= k < ids.len() ==> #[trigger] ids[k] < self.height_spec() && self.is_full_row(ids[k] as int)
        &&& forall|r: int| 0 <= r < self.height_spec() && #[trigger] self.is_full_row(r) ==> ids.contains(r as usize)
    }

    /// The indices of all full rows in ascending order, or `None` when no row is full.
    pub fn is_filled_each_row(&self) -> (res: Option<Vec<usize>>)
        requires
            self.wf(),
        ensures
            res.is_none() <==> forall|r: int| 0 <= r < self.height_spec() ==> !#[trigger] self.is_full_row(r),
            res matches Some(ids) ==> self.lists_full_rows(ids@),
    {
        let mut ids: Vec<usize> = Vec::new();
        let mut i: usize = 0;
        while i < self.height
            invariant
                self.wf(),
                i <= self.height,
                forall|a: int, b: int| 0 <= a < b < ids@.len() ==> ids@[a] < ids@[b],
                forall|k: int| 0 <= k < ids@.len() ==> #[trigger] ids@[k] < i && self.is_full_row(ids@[k] as int),
                forall|r: int| 0 <= r < i && #[trigger] self.is_full_row(r) ==> ids@.contains(r as usize),
            decreases self.height - i,
        {
            let p = self.slot_of(i);
            let full = line_full(&self.blocks[p]);
            proof {
                assert(self.rows()[i as int] == self.blocks@[p as int]@);
            }
            if full {
                let ghost prev = ids@;
                ids.push(i);
                proof {
                    assert forall|r: int| 0 <= r <= i && #[trigger] self.is_full_row(r) implies ids@.contains(r as usize) by {
                        if r < i {
                            let k = choose|k: int| 0 <= k < prev.len() && prev[k] == r as usize;
                            assert(ids@[k] == r as usize);
                        } else {
                            assert(ids@[ids@.len() - 1] == i);
                        }
                    }
                }
            }
            i += 1;
        }
        if ids.len() == 0 {
            proof {
                assert forall|r: int| 0 <= r < self.height_spec() implies !#[trigger] self.is_full_row(r) by {
                    if self.is_full_row(r) {
                        assert(ids@.contains(r as usize));
                    }
                }
            }
            None
        } else {
            proof {
                assert(self.is_full_row(ids@[0] as int));
            }
            Some(ids)
        }
    }

    /// Removes the rows listed in `deleted_ids` (a set: order and repeats do
    /// not matter, indices off the field are ignored). The surviving rows keep
    /// their order and settle at the bottom; empty rows fill the top.
    pub fn delete_lines(&mut self, deleted_ids: Vec<usize>)
        requires
            old(self).wf(),
        ensures
            final(self).wf(),
            final(self).height_spec() == old(self).height_spec(),
            final(self).width_spec() == old(self).width_spec(),
            kept_rows(old(self).rows(), deleted_ids@, old(self).height_spec() as int).len() <= old(self).height_spec(),
            final(self).rows() == Seq::new(
                (old(self).height_spec() - kept_rows(old(self).rows(), deleted_ids@, old(self).height_spec() as int).len()) as nat,
                |r: int| empty_row(old(self).width_spec()),
            ) + kept_rows(old(self).rows(), deleted_ids@, old(self).height_spec() as int),
    {
        let ghost rows = self.rows();
        let mut kept: Vec<Vec<FieldBlock>> = Vec::new();
        let mut i: usize = 0;
        while i < self.height
            invariant
                self.wf(),
                self.rows() == rows,
                i <= self.height,
                kept@.len() <= i,
                grid_view(kept) == kept_rows(rows, deleted_ids@, i as int),
                forall|k: int| 0 <= k < kept@.len() ==> (#[trigger] kept@[k])@.len() == self.width,
            decreases self.height - i,
        {
            if !contains_index(&deleted_ids, i) {
                let p = self.slot_of(i);
                proof {
                    assert(self.rows()[i as int] == self.blocks@[p as int]@);
                }
                let line = copy_line(&self.blocks[p]);
                let ghost prev = kept;
                kept.push(line);
                proof {
                    lemma_grid_view(prev);
                    lemma_grid_view(kept);
                    assert(grid_view(kept) =~= grid_view(prev).push(rows[i as int]));
                }
            }
            i += 1;
        }
        let mut blocks: Vec<Vec<FieldBlock>> = Vec::new();
        let n_empty = self.height - kept.len();
        let mut j: usize = 0;
        while j < n_empty
            invariant
                j <= n_empty,
                self.wf(),
                self.height == kept@.len() + n_empty,
                grid_view(blocks) == Seq::new(j as nat, |r: int| empty_row(self.width as nat)),
            decreases n_empty - j,
        {
            let line = empty_line(self.width);
            let ghost prev = blocks;
            blocks.push(line);
            j += 1;
            proof {
                lemma_grid_view(prev);
                lemma_grid_view(blocks);
                assert forall|r: int| 0 <= r < j implies grid_view(blocks)[r] == empty_row(self.width as nat) by {
                    if r < j - 1 {
                        assert(grid_view(prev)[r] == empty_row(self.width as nat));
                    }
                }
                assert(grid_view(blocks) =~= Seq::new(j as nat, |r: int| empty_row(self.width as nat)));
            }
        }
        let ghost top = blocks;
        let ghost bottom = kept;
        blocks.append(&mut kept);
        proof {
            lemma_grid_view(top);
            lemma_grid_view(bottom);
            lemma_grid_view(blocks);
            assert(grid_view(blocks) =~= grid_view(top) + grid_view(bottom));
        }
        self.blocks = blocks;
        self.top = 0;
        proof {
            assert forall|r: int| 0 <= r < self.height implies #[trigger] self.rows()[r] == grid_view(self.blocks)[r] by {
            }
            assert(self.rows() =~= grid_view(self.blocks));
            assert forall|q: int| 0 <= q < self.height implies (#[trigger] self.blocks@[q])@.len() == self.width by {
                assert(self.rows()[q] == self.blocks@[q]@);
                if q >= n_empty {
                    assert(bottom@[q - n_empty]@.len() == self.width);
                }
            }
        }
    }

    /// Pushes `inserted_lines` in at the bottom, one row each, shifting the
    /// field up by as many rows. Fails without touching the field when any of
    /// the rows that would leave at the top holds a filled cell.
    pub fn insert_lines(&mut self, inserted_lines: Vec<Vec<FieldBlock>>) -> (res: Result<&'static str, &'static str>)
        requires
            old(self).wf(),
            inserted_lines@.len() <= old(self).height_spec(),
            forall|k: int| 0 <= k < inserted_lines@.len() ==> (#[trigger] inserted_lines@[k])@.len() == old(self).width_spec(),
        ensures
            final(self).wf(),
            final(self).height_spec() == old(self).height_spec(),
            final(self).width_spec() == old(self).width_spec(),
            res.is_ok() <==> forall|r: int| 0 <= r < inserted_lines@.len() ==> row_clear(#[trigger] old(self).rows()[r]),
            res.is_ok() ==> final(self).rows() == old(self).rows().subrange(
                inserted_lines@.len() as int,
                old(self).height_spec() as int,
            ) + grid_view(inserted_lines),
            res.is_err() ==> *final(self) == *old(self),
    {
        let n = inserted_lines.len();
        let mut i: usize = 0;
        while i < n
            invariant
                self.wf(),
                *self == *old(self),
                n == inserted_lines@.len(),
                n <= self.height,
                i <= n,
                forall|r: int| 0 <= r < i ==> row_clear(#[trigger] self.rows()[r]),
            decreases n - i,
        {
            let p = self.slot_of(i);
            proof {
                assert(self.rows()[i as int] == self.blocks@[p as int]@);
            }
            if !line_clear(&self.blocks[p]) {
                return Err("cannot insert");
            }
            i += 1;
        }
        let ghost rows = self.rows();
        let ghost added = grid_view(inserted_lines);
        proof {
            lemma_grid_view(inserted_lines);
        }
        let mut lines = inserted_lines;
        let mut m: usize = n;
        while m > 0
            invariant
                m <= n,
                n <= old(self).height,
                lines@.len() == m,
                forall|j: int| 0 <= j < m ==> (#[trigger] lines@[j])@ == added[j],
                added.len() == n,
                forall|j: int| 0 <= j < n ==> (#[trigger] added[j]).len() == old(self).width,
                self.height == old(self).height,
                self.width == old(self).width,
                self.top == old(self).top,
                self.blocks@.len() == self.height,
                rows == old(self).rows(),
                old(self).wf(),
                forall|r: int| 0 <= r < self.height ==> (#[trigger] self.blocks@[old(self).slot(r)])@
                    == if m <= r < n { added[r] } else { rows[r] },
            decreases m,
        {
            let line = lines.pop().unwrap();
            m -= 1;
            let p = ring_slot(self.top, self.height, m);
            let ghost before = self.blocks@;
            self.blocks.set(p, line);
            proof {
                assert forall|r: int| 0 <= r < self.height implies (#[trigger] self.blocks@[old(self).slot(r)])@
                    == if m <= r < n { added[r] } else { rows[r] } by {
                    if r != m {
                        assert(old(self).slot(r) != p);
                        assert(self.blocks@[old(self).slot(r)] == before[old(self).slot(r)]);
                    }
                }
            }
        }
        let new_top = if n == self.height { self.top } else { ring_slot(self.top, self.height, n) };
        self.top = new_top;
        proof {
            let h = self.height as int;
            assert forall|r: int| 0 <= r < h implies #[trigger] self.slot(r)
                == old(self).slot(if r + n < h { r + n } else { r + n - h }) by {
            }
            assert forall|r: int| 0 <= r < h implies #[trigger] self.rows()[r]
                == (rows.subrange(n as int, h) + added)[r] by {
                let q = if r + n < h { r + n } else { r + n - h };
                assert(self.blocks@[old(self).slot(q)]@ == if 0 <= q < n { added[q] } else { rows[q] });
            }
            assert(self.rows() =~= rows.subrange(n as int, h) + added);
            assert forall|q: int| 0 <= q < h implies (#[trigger] self.blocks@[q])@.len() == self.width by {
                let r = if q >= old(self).top { q - old(self).top } else { q + h - old(self).top };
                assert(old(self).slot(r) == q);
                assert(rows[r].len() == self.width);
            }
        }
        Ok("Success")
    }
}

/// Where row `r` sits in a ring of `height` rows starting at `top`.
fn ring_slot(top: usize, height: usize, r: usize) -> (p: usize)
    requires
        top < height || top == 0,
        r < height,
    ensures
        p == if top + r < height { top + r } else { top + r - height },
        p < height,
{
    if r < height - top {
        top + r
    } else {
        r - (height - top)
    }
}

/// Whether `x` is listed in `ids`.
fn contains_index(ids: &Vec<usize>, x: usize) -> (r: bool)
    ensures
        r == ids@.contains(x),
{
    let mut k: usize = 0;
    while k < ids.len()
        invariant
            k <= ids@.len(),
            forall|a: int| 0 <= a < k ==> ids@[a] != x,
        decreases ids@.len() - k,
    {
        if ids[k] == x {
            proof {
                assert(ids@[k as int] == x);
            }
            return true;
        }
        k += 1;
    }
    false
}

/// A copy of the row.
fn copy_line(row: &Vec<FieldBlock>) -> (r: Vec<FieldBlock>)
    ensures
        r@ == row@,
{
    let mut r: Vec<FieldBlock> = Vec::new();
    let mut j: usize = 0;
    while j < row.len()
        invariant
            j <= row@.len(),
            r@ == row@.subrange(0, j as int),
        decreases row@.len() - j,
    {
        r.push(row[j]);
        j += 1;
        proof {
            assert(r@ =~= row@.subrange(0, j as int));
        }
    }
    proof {
        assert(r@ =~= row@);
    }
    r
}

/// Whether no cell of the row is filled.
fn line_clear(row: &Vec<FieldBlock>) -> (r: bool)
    ensures
        r == row_clear(row@),
{
    let mut j: usize = 0;
    while j < row.len()
        invariant
            j <= row@.len(),
            forall|c: int| 0 <= c < j ==> !(#[trigger] row@[c].filled),
        decreases row@.len() - j,
    {
        if row[j].filled {
            return false;
        }
        j += 1;
    }
    true
}

/// Whether every cell of the row is filled.
fn line_full(row: &Vec<FieldBlock>) -> (r: bool)
    ensures
        r == row_full(row@),
{
    let mut j: usize = 0;
    while j < row.len()
        invariant
            j <= row@.len(),
            forall|c: int| 0 <= c < j ==> #[trigger] row@[c].filled,
        decreases row@.len() - j,
    {
        if !row[j].filled {
            return false;
        }
        j += 1;
    }
    true
}

/// A row of `width` empty cells.
fn empty_line(width: usize) -> (r: Vec<FieldBlock>)
    ensures
        r@ == empty_row(width as nat),
{
    let mut r: Vec<FieldBlock> = Vec::new();
    let mut j: usize = 0;
    while j < width
        invariant
            j <= width,
            r@ == empty_row(j as nat),
        decreases width - j,
    {
        r.push(FieldBlock::empty());
        j += 1;
        proof {
            assert(r@ =~= empty_row(j as nat));
        }
    }
    r
}

} // verus!
