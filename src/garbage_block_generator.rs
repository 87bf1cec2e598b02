//! Garbage rows: solid rows with a few randomly placed holes.

use vstd::prelude::*;
use crate::field::FieldBlock;
use crate::mino::{Color, grid_view, lemma_grid_view};
use crate::random_source::RandomSource;

verus! {

/// How many cells of the row are not filled.
pub open spec fn hole_count(row: Seq<FieldBlock>) -> nat
    decreases row.len(),
{
    if row.len() == 0 {
        0
    } else {
        hole_count(row.drop_last()) + if row.last().filled { 0nat } else { 1nat }
    }
}

/// The most holes a garbage row of width `w` may have: half the width, but at least one.
pub open spec fn max_holes(w: nat) -> nat {
    if w / 2 == 0 { 1 } else { w / 2 }
}

/// A garbage row of width `w`: every cell has colour `color`, and, unless
/// the row is empty, between one and `max_holes(w)` cells are holes.
pub open spec fn is_garbage_row(row: Seq<FieldBlock>, w: nat, color: Color) -> bool {
    &&& row.len() == w
    &&& forall|c: int| 0 <= c < w ==> (#[trigger] row[c]).color == color
    &&& w > 0 ==> 1 <= hole_count(row) <= max_holes(w)
}

proof fn lemma_hole_count_dig(row: Seq<FieldBlock>, i: int)
    requires
        0 <= i < row.len(),
        row[i].filled,
    ensures
        hole_count(row.update(i, FieldBlock { filled: false, color: row[i].color })) == hole_count(row) + 1,
    decreases row.len(),
{
    let dug = row.update(i, FieldBlock { filled: false, color: row[i].color });
    if i == row.len() - 1 {
        assert(dug.drop_last() =~= row.drop_last());
    } else {
        assert(dug.drop_last() =~= row.drop_last().update(i, FieldBlock { filled: false, color: row[i].color }));
        lemma_hole_count_dig(row.drop_last(), i);
    }
}

proof fn lemma_hole_count_solid(row: Seq<FieldBlock>)
    requires
        forall|c: int| 0 <= c < row.len() ==> (#[trigger] row[c]).filled,
    ensures
        hole_count(row) == 0,
    decreases row.len(),
{
    if row.len() > 0 {
        lemma_hole_count_solid(row.drop_last());
    }
}

/// A maker of garbage rows.
pub trait GarbageBlockGenerator {
    /// `num_garbage_lines` garbage rows of width `field_width` in colour
    /// `color`, in the order they were made.
    fn generate(&mut self, field_width: usize, num_garbage_lines: usize, color: Color) -> (r: Vec<Vec<FieldBlock>>)
        ensures
            r@.len() == num_garbage_lines,
            forall|k: int| 0 <= k < num_garbage_lines ==> is_garbage_row(#[trigger] grid_view(r)[k], field_width as nat, color),
    ;
}

/// Makes each row with a random number of holes at random columns.
pub struct HoritetoGarbageBlockGenerator<R: RandomSource> {
    rand_gen: R,
}

impl<R: RandomSource> HoritetoGarbageBlockGenerator<R> {
    /// The random source the holes are drawn from.
    pub closed spec fn source(&self) -> R {
        self.rand_gen
    }

    pub fn new(rand_gen: R) -> (g: HoritetoGarbageBlockGenerator<R>)
        ensures
            g.source() == rand_gen,
    {
        HoritetoGarbageBlockGenerator { rand_gen }
    }

    /// One garbage row, drawing lazily: first the hole count, then one
    /// column at a time while fewer holes than that are dug and fewer than
    /// `field_width` columns were drawn. Returns the row and the draws made.
    fn garbage_line(&mut self, field_width: usize, color: Color) -> (res: (Vec<FieldBlock>, Ghost<Seq<usize>>))
        ensures
            is_garbage_row(res.0@, field_width as nat, color),
            row_draws_exact(field_width as nat, color, res.1@),
            res.0@ == garbage_row_from(field_width as nat, color, res.1@),
    {
        let mut line = solid_line(field_width, color);
        proof {
            lemma_hole_count_solid(line@);
        }
        let first = self.rand_gen.next_random();
        let num_hole = hole_target_of(field_width, first);
        let ghost start = line@;
        let ghost n = num_hole as nat;
        let ghost mut d: Seq<usize> = seq![first];
        let mut holes: usize = 0;
        let mut attempt: usize = 0;
        proof {
            assert(d.drop_first() =~= Seq::<usize>::empty());
        }
        while attempt < field_width && holes < num_hole
            invariant
                attempt <= field_width,
                start == solid_row(field_width as nat, color),
                n == num_hole,
                n == hole_target(field_width as nat, first),
                d.len() == attempt + 1,
                d[0] == first,
                (line@, holes as nat) == dig(field_width as nat, n, start, d.drop_first()),
                forall|k: int| 0 <= k < attempt ==> (#[trigger] dig(field_width as nat, n, start, d.drop_first().subrange(0, k))).1 < n,
                line@.len() == field_width,
                forall|a: int| 0 <= a < field_width ==> (#[trigger] line@[a]).color == color,
                hole_count(line@) == holes,
                holes <= attempt,
                holes <= num_hole,
                1 <= num_hole <= max_holes(field_width as nat),
                attempt > 0 ==> holes >= 1,
                holes == 0 ==> forall|a: int| 0 <= a < field_width ==> (#[trigger] line@[a]).filled,
            decreases field_width - attempt,
        {
            let x = self.rand_gen.next_random();
            let ghost before = d;
            dig_step(&mut line, &mut holes, field_width, x);
            proof {
                d = d.push(x);
                let cols = d.drop_first();
                assert(cols.drop_last() =~= before.drop_first());
                assert forall|k: int| 0 <= k < attempt + 1 implies (#[trigger] dig(field_width as nat, n, start, cols.subrange(0, k))).1 < n by {
                    if k < attempt {
                        assert(cols.subrange(0, k) =~= before.drop_first().subrange(0, k));
                    } else {
                        assert(cols.subrange(0, k) =~= before.drop_first());
                    }
                }
            }
            attempt += 1;
        }
        (line, Ghost(d))
    }
}

/// A row of `w` filled cells in colour `color`.
pub open spec fn solid_row(w: nat, color: Color) -> Seq<FieldBlock> {
    Seq::new(w, |c: int| FieldBlock { filled: true, color })
}

/// The hole count picked by the first draw `d0`: `1 ..= max_holes(w)`.
pub open spec fn hole_target(w: nat, d0: usize) -> nat {
    (d0 as nat % max_holes(w)) + 1
}

/// The row and hole count after digging `start` with the column draws
/// `cols` in order: draw `x` digs column `x % w` if that cell is still
/// filled, and draws after the `n`-th hole change nothing.
pub open spec fn dig(w: nat, n: nat, start: Seq<FieldBlock>, cols: Seq<usize>) -> (Seq<FieldBlock>, nat)
    decreases cols.len(),
{
    if cols.len() == 0 {
        (start, 0)
    } else {
        let prev = dig(w, n, start, cols.drop_last());
        let c = (cols.last() as nat % w) as int;
        if prev.1 >= n || !prev.0[c].filled {
            prev
        } else {
            (prev.0.update(c, FieldBlock { filled: false, color: prev.0[c].color }), prev.1 + 1)
        }
    }
}

/// The garbage row made from the draws `d`: `d[0]` picks the hole count,
/// the rest are column draws.
pub open spec fn garbage_row_from(w: nat, color: Color, d: Seq<usize>) -> Seq<FieldBlock> {
    dig(w, hole_target(w, d[0]), solid_row(w, color), d.drop_first()).0
}

/// `d` is exactly what making one row of width `w` draws: the hole count,
/// then column draws, each made while fewer holes than the count were dug,
/// stopping at `w` column draws or once the count is reached.
pub open spec fn row_draws_exact(w: nat, color: Color, d: Seq<usize>) -> bool {
    let n = hole_target(w, d[0]);
    let cols = d.drop_first();
    let s = solid_row(w, color);
    &&& 1 <= d.len()
    &&& cols.len() <= w
    &&& forall|k: int| 0 <= k < cols.len() ==> (#[trigger] dig(w, n, s, cols.subrange(0, k))).1 < n
    &&& cols.len() == w || dig(w, n, s, cols).1 >= n
}

fn solid_line(w: usize, color: Color) -> (r: Vec<FieldBlock>)
    ensures
        r@ == solid_row(w as nat, color),
{
    let mut line: Vec<FieldBlock> = Vec::new();
    let mut c: usize = 0;
    while c < w
        invariant
            c <= w,
            line@ == solid_row(c as nat, color),
        decreases w - c,
    {
        line.push(FieldBlock { filled: true, color });
        c += 1;
        proof {
            assert(line@ =~= solid_row(c as nat, color));
        }
    }
    line
}

fn hole_target_of(w: usize, d0: usize) -> (n: usize)
    ensures
        n == hole_target(w as nat, d0),
        1 <= n <= max_holes(w as nat),
{
    let half = w / 2;
    let limit = if half == 0 { 1 } else { half };
    d0 % limit + 1
}

/// Digs the column picked by the draw `x` when it is still filled.
fn dig_step(line: &mut Vec<FieldBlock>, holes: &mut usize, w: usize, x: usize)
    requires
        w >= 1,
        old(line)@.len() == w,
        *old(holes) < w,
    ensures
        ({
            let c = (x % w) as int;
            if old(line)@[c].filled {
                &&& final(line)@ == old(line)@.update(c, FieldBlock { filled: false, color: old(line)@[c].color })
                &&& *final(holes) == *old(holes) + 1
                &&& hole_count(final(line)@) == hole_count(old(line)@) + 1
            } else {
                &&& final(line)@ == old(line)@
                &&& *final(holes) == *old(holes)
            }
        }),
{
    let c = x % w;
    if line[c].filled {
        proof {
            lemma_hole_count_dig(line@, c as int);
        }
        let color = line[c].color;
        line.set(c, FieldBlock { filled: false, color });
        *holes = *holes + 1;
    }
}

/// The garbage row made from given draws: `draws[0]` picks the hole count
/// in `1 ..= max_holes(field_width)`; each further draw, while fewer holes
/// are dug, digs column `draw % field_width` if it is still filled.
pub fn garbage_line_from(field_width: usize, color: Color, draws: &Vec<usize>) -> (r: Vec<FieldBlock>)
    requires
        1 <= draws@.len() <= field_width + 1,
    ensures
        r@ == garbage_row_from(field_width as nat, color, draws@),
{
    let mut line = solid_line(field_width, color);
    let num_hole = hole_target_of(field_width, draws[0]);
    let ghost start = line@;
    let ghost n = num_hole as nat;
    let mut holes: usize = 0;
    let mut k: usize = 1;
    proof {
        assert(draws@.subrange(1, 1) =~= Seq::<usize>::empty());
    }
    while k < draws.len()
        invariant
            1 <= k <= draws@.len(),
            draws@.len() <= field_width + 1,
            start == solid_row(field_width as nat, color),
            n == num_hole,
            n == hole_target(field_width as nat, draws@[0]),
            line@.len() == field_width,
            holes <= k - 1,
            (line@, holes as nat) == dig(field_width as nat, n, start, draws@.subrange(1, k as int)),
        decreases draws@.len() - k,
    {
        let ghost cols = draws@.subrange(1, k as int + 1);
        proof {
            assert(cols.drop_last() =~= draws@.subrange(1, k as int));
        }
        if holes < num_hole {
            dig_step(&mut line, &mut holes, field_width, draws[k]);
        }
        k += 1;
    }
    proof {
        assert(draws@.subrange(1, draws@.len() as int) =~= draws@.drop_first());
    }
    line
}

impl<R: RandomSource> GarbageBlockGenerator for HoritetoGarbageBlockGenerator<R> {
    /// Each row as `garbage_line_from` makes it from the numbers drawn for
    /// it, drawn one at a time and no more than the row needs.
    fn generate(&mut self, field_width: usize, num_garbage_lines: usize, color: Color) -> (r: Vec<Vec<FieldBlock>>)
        ensures
            exists|ds: Seq<Seq<usize>>|
                ds.len() == num_garbage_lines && forall|k: int| 0 <= k < num_garbage_lines ==> {
                    &&& row_draws_exact(field_width as nat, color, #[trigger] ds[k])
                    &&& grid_view(r)[k] == garbage_row_from(field_width as nat, color, ds[k])
                },
    {
        let mut garbage_lines: Vec<Vec<FieldBlock>> = Vec::new();
        let ghost mut ds: Seq<Seq<usize>> = Seq::empty();
        let mut k: usize = 0;
        while k < num_garbage_lines
            invariant
                k <= num_garbage_lines,
                garbage_lines@.len() == k,
                ds.len() == k,
                forall|a: int| 0 <= a < k ==> is_garbage_row(#[trigger] grid_view(garbage_lines)[a], field_width as nat, color),
                forall|a: int| 0 <= a < k ==> {
                    &&& row_draws_exact(field_width as nat, color, #[trigger] ds[a])
                    &&& grid_view(garbage_lines)[a] == garbage_row_from(field_width as nat, color, ds[a])
                },
            decreases num_garbage_lines - k,
        {
            let (line, drawn) = self.garbage_line(field_width, color);
            let ghost prev = garbage_lines;
            let ghost prev_ds = ds;
            garbage_lines.push(line);
            proof {
                ds = ds.push(drawn@);
                lemma_grid_view(prev);
                lemma_grid_view(garbage_lines);
                assert forall|a: int| 0 <= a < k + 1 implies is_garbage_row(#[trigger] grid_view(garbage_lines)[a], field_width as nat, color) by {
                    if a < k {
                        assert(grid_view(garbage_lines)[a] == grid_view(prev)[a]);
                    }
                }
                assert forall|a: int| 0 <= a < k + 1 implies {
                    &&& row_draws_exact(field_width as nat, color, #[trigger] ds[a])
                    &&& grid_view(garbage_lines)[a] == garbage_row_from(field_width as nat, color, ds[a])
                } by {
                    if a < k {
                        assert(grid_view(garbage_lines)[a] == grid_view(prev)[a]);
                        assert(ds[a] == prev_ds[a]);
                    }
                }
            }
            k += 1;
        }
        garbage_lines
    }
}

} // verus!
