//! The game state machine: one `tick` turns the time and the keys held into
//! gravity, garbage, locking, line clears, spawning and player moves, and
//! `project_controlled_mino` renders what is to be shown.

use vstd::prelude::*;
use crate::controlled_mino::{ControlledMino, Orientation, oriented_cell, rendered};
use crate::field::{Field, FieldBlock, empty_row, row_clear, row_full, kept_rows};
use crate::garbage_block_generator::{GarbageBlockGenerator, HoritetoGarbageBlockGenerator, is_garbage_row};
use crate::mino::{Color, Mino, grid_view, lemma_grid_view};
use crate::next_generator::{DefaultNextGenerator, NextGenerator, hands_out, is_bag, lemma_shuffled_is_bag, shuffled};
use crate::random_source::RandomSource;

verus! {

/// The hold slot.
#[derive(Clone, Copy, Debug, PartialEq, Eq, Structural)]
pub enum Hold {
    Holding(Mino),
    Empty,
}

/// The keys held down during one tick.
#[derive(Clone, Copy, Debug, PartialEq, Eq, Structural)]
pub struct KeyPress {
    pub right_rotate: bool,
    pub left_rotate: bool,
    pub hold: bool,
    pub soft_drop: bool,
    pub hard_drop: bool,
    pub right_move: bool,
    pub left_move: bool,
}

impl KeyPress {
    pub open spec fn released() -> KeyPress {
        KeyPress {
            right_rotate: false,
            left_rotate: false,
            hold: false,
            soft_drop: false,
            hard_drop: false,
            right_move: false,
            left_move: false,
        }
    }
}

impl Default for KeyPress {
    /// No key held.
    fn default() -> (r: KeyPress)
        ensures
            r == KeyPress::released(),
    {
        KeyPress {
            right_rotate: false,
            left_rotate: false,
            hold: false,
            soft_drop: false,
            hard_drop: false,
            right_move: false,
            left_move: false,
        }
    }
}

/// The game's intervals, in milliseconds.
#[derive(Clone, Copy, Debug, PartialEq, Eq, Structural)]
pub struct TetrisParams {
    drop_interval: u64,
    first_move_interval: u64,
    second_move_interval: u64,
    garbage_interval: u64,
}

impl TetrisParams {
    pub closed spec fn standard() -> TetrisParams {
        TetrisParams {
            drop_interval: 1500,
            first_move_interval: 200,
            second_move_interval: 30,
            garbage_interval: 10000,
        }
    }
}

impl Default for TetrisParams {
    /// A drop every 1500 ms, 200 ms before a held move repeats, then every
    /// 30 ms, and a garbage row every 10000 ms.
    fn default() -> (r: TetrisParams)
        ensures
            r == TetrisParams::standard(),
    {
        TetrisParams {
            drop_interval: 1500,
            first_move_interval: 200,
            second_move_interval: 30,
            garbage_interval: 10000,
        }
    }
}

/// `elapsed / interval`, rounded towards zero.
pub open spec fn tick_count(elapsed: int, interval: int) -> int {
    if elapsed >= 0 {
        elapsed / interval
    } else {
        -((-elapsed) / interval)
    }
}

/// Piece `p` occupies field cell `(r, c)`.
pub open spec fn piece_covers(p: ControlledMino, r: int, c: int) -> bool {
    let i = r - p.y;
    let j = c - p.x;
    0 <= i < p.mino.size_spec() && 0 <= j < p.mino.size_spec() && oriented_cell(p.mino, p.ori, i, j)
}

/// Some occupied cell of `p` lies on a filled cell of the field.
pub open spec fn overlaps(field: Field, p: ControlledMino) -> bool {
    exists|r: int, c: int|
        #[trigger] piece_covers(p, r, c) && field.in_bounds(r, c) && field.block(r, c).filled
}

/// The rows with the cells of `p` that lie on the field filled in its colour.
pub open spec fn stamped(rows: Seq<Seq<FieldBlock>>, p: ControlledMino) -> Seq<Seq<FieldBlock>> {
    Seq::new(
        rows.len(),
        |r: int|
            Seq::new(
                rows[r].len(),
                |c: int|
                    if piece_covers(p, r, c) {
                        FieldBlock { filled: true, color: p.mino.color_spec() }
                    } else {
                        rows[r][c]
                    },
            ),
    )
}

/// The rows among the first `n` that are not full, in order.
pub open spec fn surviving_rows(rows: Seq<Seq<FieldBlock>>, n: int) -> Seq<Seq<FieldBlock>>
    decreases n,
{
    if n <= 0 {
        Seq::empty()
    } else if row_full(rows[n - 1]) {
        surviving_rows(rows, n - 1)
    } else {
        surviving_rows(rows, n - 1).push(rows[n - 1])
    }
}

proof fn lemma_surviving_len(rows: Seq<Seq<FieldBlock>>, n: int)
    requires
        0 <= n,
    ensures
        surviving_rows(rows, n).len() <= n,
    decreases n,
{
    if n > 0 {
        lemma_surviving_len(rows, n - 1);
    }
}

/// The rows with every full row removed, the rest settled at the bottom
/// under empty rows of width `w`.
pub open spec fn cleared(rows: Seq<Seq<FieldBlock>>, w: nat) -> Seq<Seq<FieldBlock>> {
    let s = surviving_rows(rows, rows.len() as int);
    Seq::new((rows.len() - s.len()) as nat, |r: int| empty_row(w)) + s
}

/// `p` after `n` downward moves.
pub open spec fn dropped(p: ControlledMino, field: Field, n: nat) -> ControlledMino
    decreases n,
{
    if n == 0 {
        p
    } else {
        dropped(p.moved(field, Orientation::Downward), field, (n - 1) as nat)
    }
}

/// `p` pushed up out of filled cells after garbage came in: while it
/// overlaps a filled cell, at most `n` times, it is marked grounded and moved
/// up one cell.
pub open spec fn lifted(p: ControlledMino, field: Field, n: int) -> ControlledMino
    decreases n,
{
    if n <= 0 || !overlaps(field, p) {
        p
    } else {
        lifted(ControlledMino { grounded: true, ..p }.moved(field, Orientation::Upward), field, n - 1)
    }
}

/// Whether a held move key acts this tick: when it was just pressed, or
/// once the armed interval has passed since the last move.
pub open spec fn repeat_fires(pressed: bool, was_pressed: bool, since_last: int, interval: int) -> bool {
    pressed && (!was_pressed || since_last >= interval)
}

/// Runs the game: the field, the active piece, the hold slot, the queue of
/// upcoming pieces, the garbage maker and the timers.
pub struct GameMaster<R: RandomSource> {
    pub field: Field,
    pub cm: ControlledMino,
    gbg: HoritetoGarbageBlockGenerator<R>,
    ng: DefaultNextGenerator<R>,
    hold: Hold,
    holded: bool,
    start_time_in_milli: i32,
    count_drop: i64,
    soft_drop_time_in_milli: i64,
    left_move_time_in_milli: i64,
    right_move_time_in_milli: i64,
    move_interval: u64,
    count_garbage: i64,
    right_rotated: bool,
    left_rotated: bool,
    hard_dropped: bool,
    previously_key_press: KeyPress,
    enable_ghost: bool,
    enable_garbage: bool,
    ghost_color: Color,
    game_over: bool,
    num_deleted_lines: usize,
    params: TetrisParams,
}

/// The field has a top row and none of its cells is filled.
pub open spec fn top_row_clear(field: Field) -> bool {
    field.height_spec() >= 1 && row_clear(field.rows()[0])
}

/// Times since the start fit in 33 bits: the clock is an `i32`.
pub open spec fn time_ok(t: int) -> bool {
    -0x1_0000_0000 <= t <= 0x1_0000_0000
}

impl<R: RandomSource> GameMaster<R> {
    pub closed spec fn wf(&self) -> bool {
        &&& self.field.wf()
        &&& self.ng.bags_ok()
        &&& self.params == TetrisParams::standard()
        &&& time_ok(self.soft_drop_time_in_milli as int)
        &&& time_ok(self.left_move_time_in_milli as int)
        &&& time_ok(self.right_move_time_in_milli as int)
        &&& self.move_interval <= 200
    }

    pub closed spec fn field_spec(&self) -> Field {
        self.field
    }

    pub closed spec fn cm_spec(&self) -> ControlledMino {
        self.cm
    }

    pub closed spec fn hold_spec(&self) -> Hold {
        self.hold
    }

    pub closed spec fn holded_spec(&self) -> bool {
        self.holded
    }

    pub closed spec fn game_over_spec(&self) -> bool {
        self.game_over
    }

    pub closed spec fn deleted_lines_spec(&self) -> nat {
        self.num_deleted_lines as nat
    }

    pub closed spec fn ghost_shown(&self) -> bool {
        self.enable_ghost
    }

    pub closed spec fn ghost_color_spec(&self) -> Color {
        self.ghost_color
    }

    pub closed spec fn upcoming(&self) -> Seq<Mino> {
        self.ng.queue()
    }

    /// Every piece the queue has handed out so far.
    pub closed spec fn dealt_spec(&self) -> Seq<Mino> {
        self.ng.dealt()
    }

    pub closed spec fn garbage_enabled(&self) -> bool {
        self.enable_garbage
    }

    pub closed spec fn start_time(&self) -> i32 {
        self.start_time_in_milli
    }

    /// The drop count of the last gravity step.
    pub closed spec fn drop_count(&self) -> int {
        self.count_drop as int
    }

    /// The garbage count of the last garbage step.
    pub closed spec fn garbage_count(&self) -> int {
        self.count_garbage as int
    }

    /// The interval armed for repeated moves.
    pub closed spec fn move_interval_spec(&self) -> int {
        self.move_interval as int
    }

    /// When the repeated move towards `dir` last fired (time since the start).
    pub closed spec fn last_move_time(&self, dir: Orientation) -> int {
        match dir {
            Orientation::Downward => self.soft_drop_time_in_milli as int,
            Orientation::Leftward => self.left_move_time_in_milli as int,
            _ => self.right_move_time_in_milli as int,
        }
    }

    /// The keys of the previous tick.
    pub closed spec fn previous_keys(&self) -> KeyPress {
        self.previously_key_press
    }

    /// The edge guards: turn right, turn left and hard drop were down on the previous tick.
    pub closed spec fn edge_guards(&self) -> (bool, bool, bool) {
        (self.right_rotated, self.left_rotated, self.hard_dropped)
    }

    pub closed spec fn drop_interval_spec(&self) -> int {
        self.params.drop_interval as int
    }

    pub closed spec fn garbage_interval_spec(&self) -> int {
        self.params.garbage_interval as int
    }

    pub closed spec fn first_move_interval_spec(&self) -> int {
        self.params.first_move_interval as int
    }

    pub closed spec fn second_move_interval_spec(&self) -> int {
        self.params.second_move_interval as int
    }

    /// The piece queue.
    pub closed spec fn queue_spec(&self) -> DefaultNextGenerator<R> {
        self.ng
    }

    pub open spec fn same_queue(self, b: GameMaster<R>) -> bool {
        self.queue_spec() == b.queue_spec()
    }

    pub open spec fn same_hold(self, b: GameMaster<R>) -> bool {
        self.hold_spec() == b.hold_spec() && self.holded_spec() == b.holded_spec()
    }

    pub open spec fn same_status(self, b: GameMaster<R>) -> bool {
        self.game_over_spec() == b.game_over_spec() && self.deleted_lines_spec() == b.deleted_lines_spec()
    }

    pub open spec fn same_counts(self, b: GameMaster<R>) -> bool {
        self.drop_count() == b.drop_count() && self.garbage_count() == b.garbage_count()
    }

    pub open spec fn same_moves(self, b: GameMaster<R>) -> bool {
        &&& self.move_interval_spec() == b.move_interval_spec()
        &&& forall|d: Orientation| #[trigger] self.last_move_time(d) == b.last_move_time(d)
    }

    pub open spec fn same_keys(self, b: GameMaster<R>) -> bool {
        self.previous_keys() == b.previous_keys() && self.edge_guards() == b.edge_guards()
    }

    pub open spec fn same_settings(self, b: GameMaster<R>) -> bool {
        &&& self.garbage_enabled() == b.garbage_enabled()
        &&& self.ghost_shown() == b.ghost_shown()
        &&& self.ghost_color_spec() == b.ghost_color_spec()
        &&& self.start_time() == b.start_time()
        &&& self.drop_interval_spec() == b.drop_interval_spec()
        &&& self.garbage_interval_spec() == b.garbage_interval_spec()
        &&& self.first_move_interval_spec() == b.first_move_interval_spec()
        &&& self.second_move_interval_spec() == b.second_move_interval_spec()
    }

    /// Gravity, over the observable state.
    pub proof fn lemma_gravity(self, elapsed: int)
        requires
            self.wf(),
            time_ok(elapsed),
        ensures
            ({
                let b = self.after_gravity(elapsed);
                let n = tick_count(elapsed, self.drop_interval_spec());
                &&& b.wf()
                &&& n != self.drop_count() ==> b.cm_spec() == self.cm_spec().moved(self.field_spec(), Orientation::Downward)
                    && b.drop_count() == n
                &&& n == self.drop_count() ==> b == self
                &&& b.field_spec() == self.field_spec()
                &&& b.garbage_count() == self.garbage_count()
                &&& self.same_queue(b) && self.same_hold(b) && self.same_status(b)
                &&& self.same_moves(b) && self.same_keys(b) && self.same_settings(b)
            }),
    {
        reveal(GameMaster::after_gravity);
    }

    /// The garbage step, over the observable state.
    pub proof fn lemma_garbage(self, elapsed: int, b: GameMaster<R>)
        requires
            self.wf(),
            time_ok(elapsed),
            self.garbage_done(elapsed, b),
        ensures
            ({
                let n = tick_count(elapsed, self.garbage_interval_spec());
                let h = self.field_spec().height_spec() as int;
                let w = self.field_spec().width_spec();
                &&& b.wf()
                &&& !(self.garbage_enabled() && n != self.garbage_count()) ==> b == self
                &&& self.garbage_fails(elapsed) ==> b.field_spec() == self.field_spec() && b.cm_spec() == self.cm_spec()
                    && b.game_over_spec() && b.garbage_count() == n
                &&& (self.garbage_enabled() && n != self.garbage_count() && !self.garbage_fails(elapsed)) ==> {
                    &&& b.field_spec().wf()
                    &&& b.field_spec().height_spec() == h
                    &&& b.field_spec().width_spec() == w
                    &&& exists|g: Seq<FieldBlock>|
                        is_garbage_row(g, w, Color::zero_spec())
                            && #[trigger] b.field_spec().rows() == self.field_spec().rows().subrange(1, h).push(g)
                    &&& b.cm_spec() == lifted(self.cm_spec(), b.field_spec(), self.cm_spec().y as int)
                    &&& b.game_over_spec() == self.game_over_spec()
                    &&& b.garbage_count() == n
                }
                &&& b.drop_count() == self.drop_count()
                &&& b.deleted_lines_spec() == self.deleted_lines_spec()
                &&& self.same_queue(b) && self.same_hold(b)
                &&& self.same_moves(b) && self.same_keys(b) && self.same_settings(b)
            }),
    {
        reveal(GameMaster::garbage_done);
    }

    /// The lock step, over the observable state.
    pub proof fn lemma_lock(self, skip: bool, b: GameMaster<R>)
        requires
            self.lock_done(skip, b),
        ensures
            ({
                let h = self.field_spec().height_spec();
                let w = self.field_spec().width_spec();
                let rows = stamped(self.field_spec().rows(), self.cm_spec());
                let total = self.deleted_lines_spec() + (h - surviving_rows(rows, h as int).len());
                &&& b.wf()
                &&& (skip || !self.cm_spec().grounded) ==> b == self
                &&& !(skip || !self.cm_spec().grounded) ==> {
                    &&& b.field_spec().wf()
                    &&& b.field_spec().height_spec() == h
                    &&& b.field_spec().width_spec() == w
                    &&& b.field_spec().rows() == cleared(rows, w)
                    &&& hands_out(self.queue_spec(), b.queue_spec(), b.cm_spec().mino)
                    &&& b.cm_spec() == (ControlledMino {
                        x: (w / 2) as i64,
                        y: 0,
                        ori: Orientation::Upward,
                        grounded: false,
                        mino: b.cm_spec().mino,
                    })
                    &&& !b.holded_spec()
                    &&& b.deleted_lines_spec() == if total > usize::MAX { usize::MAX as int } else { total }
                }
                &&& b.hold_spec() == self.hold_spec()
                &&& b.game_over_spec() == self.game_over_spec()
                &&& self.same_counts(b) && self.same_moves(b) && self.same_keys(b) && self.same_settings(b)
            }),
    {
        reveal(GameMaster::lock_done);
        let h = self.field_spec().height_spec();
        lemma_surviving_len(stamped(self.field_spec().rows(), self.cm_spec()), h as int);
    }

    /// The edge-triggered turns and hard drop, over the observable state.
    pub proof fn lemma_turns(self, key: KeyPress)
        requires
            self.wf(),
        ensures
            ({
                let b = self.after_turns(key);
                let f = self.field_spec();
                let (right_was, left_was, drop_was) = self.edge_guards();
                let c1 = if !right_was && key.right_rotate { self.cm_spec().kick_rotated(f, true) } else { self.cm_spec() };
                let c2 = if !left_was && key.left_rotate { c1.kick_rotated(f, false) } else { c1 };
                &&& b.wf()
                &&& b.cm_spec() == if !drop_was && key.hard_drop { dropped(c2, f, f.height_spec()) } else { c2 }
                &&& b.field_spec() == f
                &&& self.same_queue(b) && self.same_hold(b) && self.same_status(b) && self.same_counts(b)
                &&& self.same_moves(b) && self.same_keys(b) && self.same_settings(b)
            }),
    {
        reveal(GameMaster::turned_and_dropped);
    }

    /// The hold step, over the observable state.
    pub proof fn lemma_hold(self, key: KeyPress, b: GameMaster<R>)
        requires
            self.hold_done(key, b),
        ensures
            ({
                let w = self.field_spec().width_spec();
                let fires = key.hold && !self.previous_keys().hold && !self.holded_spec();
                &&& b.wf()
                &&& !fires ==> b == self
                &&& fires ==> b.hold_spec() == Hold::Holding(self.cm_spec().mino) && b.holded_spec()
                &&& (fires && self.hold_spec() is Holding) ==> b.cm_spec() == (ControlledMino {
                    mino: self.hold_spec()->Holding_0,
                    ..self.cm_spec()
                }) && self.same_queue(b)
                &&& (fires && self.hold_spec() is Empty) ==> hands_out(self.queue_spec(), b.queue_spec(), b.cm_spec().mino)
                    && b.cm_spec() == (ControlledMino {
                        x: (w / 2) as i64,
                        y: 0,
                        ori: Orientation::Upward,
                        grounded: false,
                        mino: b.cm_spec().mino,
                    })
                &&& b.field_spec() == self.field_spec()
                &&& self.same_status(b) && self.same_counts(b)
                &&& self.same_moves(b) && self.same_keys(b) && self.same_settings(b)
            }),
    {
        reveal(GameMaster::hold_done);
    }

    /// One repeat-triggered move, over the observable state.
    pub proof fn lemma_repeat(self, pressed: bool, was_pressed: bool, dir: Orientation, elapsed: int)
        requires
            self.wf(),
            time_ok(elapsed),
            dir != Orientation::Upward,
        ensures
            ({
                let b = self.after_repeat(pressed, was_pressed, dir, elapsed);
                let since = elapsed - self.last_move_time(dir);
                let interval = self.move_interval_spec();
                &&& b.wf()
                &&& !repeat_fires(pressed, was_pressed, since, interval) ==> b == self
                &&& repeat_fires(pressed, was_pressed, since, interval) ==> {
                    &&& b.cm_spec() == self.cm_spec().moved(self.field_spec(), dir)
                    &&& b.move_interval_spec() == if since >= 2 * interval || !was_pressed { 200int } else { 30int }
                    &&& b.last_move_time(dir) == elapsed
                    &&& forall|d: Orientation| d != dir && d != Orientation::Upward
                        ==> #[trigger] b.last_move_time(d) == self.last_move_time(d)
                }
                &&& b.field_spec() == self.field_spec()
                &&& self.same_queue(b) && self.same_hold(b) && self.same_status(b) && self.same_counts(b)
                &&& self.same_keys(b) && self.same_settings(b)
            }),
    {
        reveal(GameMaster::after_repeat);
    }

    /// The repeat-triggered moves: soft drop, then left, then right, each
    /// against the keys of the previous tick.
    pub proof fn lemma_repeats(self, key: KeyPress, elapsed: int)
        ensures
            self.after_repeats(key, elapsed) == self.after_repeat(
                key.soft_drop,
                self.previous_keys().soft_drop,
                Orientation::Downward,
                elapsed,
            ).after_repeat(key.left_move, self.previous_keys().left_move, Orientation::Leftward, elapsed).after_repeat(
                key.right_move,
                self.previous_keys().right_move,
                Orientation::Rightward,
                elapsed,
            ),
    {
        reveal(GameMaster::after_repeats);
    }

    /// Remembering the keys, over the observable state.
    pub proof fn lemma_keys(self, key: KeyPress)
        requires
            self.wf(),
        ensures
            ({
                let b = self.with_keys(key);
                &&& b.wf()
                &&& b.previous_keys() == key
                &&& b.edge_guards() == (key.right_rotate, key.left_rotate, key.hard_drop)
                &&& b.field_spec() == self.field_spec() && b.cm_spec() == self.cm_spec()
                &&& self.same_queue(b) && self.same_hold(b) && self.same_status(b) && self.same_counts(b)
                &&& self.same_moves(b) && self.same_settings(b)
            }),
    {
        reveal(GameMaster::with_keys);
    }

    /// A well-formed game runs on the standard intervals and a well-formed field.
    pub proof fn lemma_wf_facts(&self)
        requires
            self.wf(),
        ensures
            self.field_spec().wf(),
            self.drop_interval_spec() == 1500,
            self.first_move_interval_spec() == 200,
            self.second_move_interval_spec() == 30,
            self.garbage_interval_spec() == 10000,
    {
    }

    /// Whether this tick's garbage row cannot go in: garbage is enabled and
    /// due, and the field has no top row or its top row holds a filled cell.
    pub open spec fn garbage_fails(self, elapsed: int) -> bool {
        &&& self.garbage_enabled()
        &&& tick_count(elapsed, self.garbage_interval_spec()) != self.garbage_count()
        &&& !top_row_clear(self.field_spec())
    }

    /// A game on an empty `height` × `width` field, its first piece taken
    /// from the queue and placed at column `width / 2`, row 0.
    pub fn new(
        height: usize,
        width: usize,
        rand_gen_ng: R,
        rand_gen_gbg: R,
        start_time_in_milli: i32,
        enable_ghost: bool,
        enable_garbage: bool,
    ) -> (g: GameMaster<R>)
        requires
            height <= i64::MAX,
            width <= i64::MAX,
        ensures
            g.wf(),
            g.field_spec().height_spec() == height,
            g.field_spec().width_spec() == width,
            g.field_spec().rows() == Seq::new(height as nat, |r: int| empty_row(width as nat)),
            g.cm_spec().x == width / 2,
            g.cm_spec().y == 0,
            g.cm_spec().ori == Orientation::Upward,
            !g.cm_spec().grounded,
            g.hold_spec() == Hold::Empty,
            !g.holded_spec(),
            !g.game_over_spec(),
            g.deleted_lines_spec() == 0,
            g.ghost_shown() == enable_ghost,
            g.garbage_enabled() == enable_garbage,
            g.start_time() == start_time_in_milli,
            g.ghost_color_spec() == (Color { r: 500, g: 500, b: 500, a: 500 }),
            g.drop_count() == 0,
            g.garbage_count() == 0,
            g.previous_keys() == KeyPress::released(),
            g.dealt_spec().len() == 1,
            is_bag(seq![g.cm_spec().mino] + g.upcoming()),
    {
        let mut ng = DefaultNextGenerator::new(rand_gen_ng);
        let gbg = HoritetoGarbageBlockGenerator::new(rand_gen_gbg);
        let params = TetrisParams::default();
        let first = ng.next();
        proof {
            let d = choose|d: Seq<usize>|
                d.len() == 14 && first == (Seq::<Mino>::empty() + shuffled(d))[0]
                    && #[trigger] ng.pending() == (Seq::<Mino>::empty() + shuffled(d)).drop_first();
            lemma_shuffled_is_bag(d);
            assert(Seq::<Mino>::empty() + shuffled(d) =~= shuffled(d));
            assert(seq![first] + ng.pending() =~= shuffled(d));
        }
        GameMaster {
            field: Field::new(height, width),
            cm: ControlledMino::new((width / 2) as i64, first),
            gbg,
            ng,
            hold: Hold::Empty,
            holded: false,
            start_time_in_milli,
            count_drop: 0,
            soft_drop_time_in_milli: 0,
            left_move_time_in_milli: 0,
            right_move_time_in_milli: 0,
            move_interval: params.second_move_interval,
            count_garbage: 0,
            right_rotated: false,
            left_rotated: false,
            hard_dropped: false,
            previously_key_press: KeyPress::default(),
            enable_ghost,
            enable_garbage,
            ghost_color: Color { r: 500, g: 500, b: 500, a: 500 },
            game_over: false,
            num_deleted_lines: 0,
            params,
        }
    }

    /// The piece `idx` places ahead in the queue, if there is one.
    pub fn get_next(&self, idx: usize) -> (r: Option<&Mino>)
        requires
            self.wf(),
        ensures
            idx < self.upcoming().len() ==> r == Some(&self.upcoming()[idx as int]),
            idx >= self.upcoming().len() ==> r.is_none(),
    {
        self.ng.get_next(idx)
    }

    pub fn get_hold(&self) -> (r: &Hold)
        ensures
            *r == self.hold_spec(),
    {
        &self.hold
    }

    pub fn get_num_deleted_lines(&self) -> (r: usize)
        ensures
            r == self.deleted_lines_spec(),
    {
        self.num_deleted_lines
    }

    pub fn is_game_over(&self) -> (r: bool)
        ensures
            r == self.game_over_spec(),
    {
        self.game_over
    }

    /// Gravity: one downward move when the drop count
    /// `tick_count(elapsed, drop interval)` differs from the stored one, which
    /// is then updated.
    #[verifier::opaque]
    pub closed spec fn after_gravity(self, elapsed: int) -> GameMaster<R> {
        let n = tick_count(elapsed, self.params.drop_interval as int);
        if n != self.count_drop as int {
            GameMaster { cm: self.cm.moved(self.field, Orientation::Downward), count_drop: n as i64, ..self }
        } else {
            self
        }
    }

    /// Garbage: when enabled and the garbage count changed, one garbage row
    /// (colour zero) is pushed in at the bottom and the piece is lifted out
    /// of filled cells; when the top row holds a filled cell the field stays
    /// as it is and the game is over. The stored count is updated either way.
    #[verifier::opaque]
    pub closed spec fn garbage_done(self, elapsed: int, b: GameMaster<R>) -> bool {
        let n = tick_count(elapsed, self.params.garbage_interval as int);
        let h = self.field.height_spec() as int;
        let w = self.field.width_spec();
        b.wf() && if !(self.enable_garbage && n != self.count_garbage as int) {
            b == self
        } else if top_row_clear(self.field) {
            &&& b.field.wf()
            &&& b.field.height_spec() == h
            &&& b.field.width_spec() == w
            &&& exists|g: Seq<FieldBlock>|
                is_garbage_row(g, w, Color::zero_spec()) && b.field.rows() == self.field.rows().subrange(1, h).push(g)
            &&& b == GameMaster {
                field: b.field,
                cm: lifted(self.cm, b.field, self.cm.y as int),
                gbg: b.gbg,
                count_garbage: n as i64,
                ..self
            }
        } else {
            b == GameMaster { game_over: true, gbg: b.gbg, count_garbage: n as i64, ..self }
        }
    }

    /// Lock, unless `skip` (a garbage row failed to go in this tick): a
    /// grounded piece is stamped into the field, full rows are
    /// cleared and counted (the count saturates), the next piece from the
    /// queue appears at column `width / 2`, row 0, facing up, and holding is
    /// allowed again.
    #[verifier::opaque]
    pub closed spec fn lock_done(self, skip: bool, b: GameMaster<R>) -> bool {
        let h = self.field.height_spec();
        let w = self.field.width_spec();
        let rows = stamped(self.field.rows(), self.cm);
        let gone = h - surviving_rows(rows, h as int).len();
        let total = self.num_deleted_lines + gone;
        b.wf() && if skip || !self.cm.grounded {
            b == self
        } else {
            &&& b.field.wf()
            &&& b.field.height_spec() == h
            &&& b.field.width_spec() == w
            &&& b.field.rows() == cleared(rows, w)
            &&& hands_out(self.ng, b.ng, b.cm.mino)
            &&& b == GameMaster {
                field: b.field,
                cm: ControlledMino { x: (w / 2) as i64, y: 0, ori: Orientation::Upward, grounded: false, mino: b.cm.mino },
                ng: b.ng,
                holded: false,
                num_deleted_lines: if total > usize::MAX { usize::MAX } else { total as usize },
                ..self
            }
        }
    }

    /// The piece after the edge-triggered turns and the hard drop: each acts
    /// only when its key is down now and was up on the previous tick.
    #[verifier::opaque]
    pub closed spec fn turned_and_dropped(self, key: KeyPress) -> ControlledMino {
        let c1 = if !self.right_rotated && key.right_rotate {
            self.cm.kick_rotated(self.field, true)
        } else {
            self.cm
        };
        let c2 = if !self.left_rotated && key.left_rotate {
            c1.kick_rotated(self.field, false)
        } else {
            c1
        };
        if !self.hard_dropped && key.hard_drop {
            dropped(c2, self.field, self.field.height_spec())
        } else {
            c2
        }
    }

    pub closed spec fn after_turns(self, key: KeyPress) -> GameMaster<R> {
        GameMaster { cm: self.turned_and_dropped(key), ..self }
    }

    /// Hold, on the rising edge of its key and once per piece: an empty slot
    /// takes the active piece's kind and a fresh piece comes from the queue;
    /// a full slot swaps kinds with the active piece where it stands.
    #[verifier::opaque]
    pub closed spec fn hold_done(self, key: KeyPress, b: GameMaster<R>) -> bool {
        let w = self.field.width_spec();
        b.wf() && if !(key.hold && !self.previously_key_press.hold && !self.holded) {
            b == self
        } else {
            match self.hold {
                Hold::Holding(m) => b == GameMaster {
                    cm: ControlledMino { mino: m, ..self.cm },
                    hold: Hold::Holding(self.cm.mino),
                    holded: true,
                    ..self
                },
                Hold::Empty => {
                    &&& hands_out(self.ng, b.ng, b.cm.mino)
                    &&& b == GameMaster {
                        cm: ControlledMino { x: (w / 2) as i64, y: 0, ori: Orientation::Upward, grounded: false, mino: b.cm.mino },
                        ng: b.ng,
                        hold: Hold::Holding(self.cm.mino),
                        holded: true,
                        ..self
                    }
                },
            }
        }
    }

    /// `self` with the last-fire time of the moves towards `dir` set to `t`.
    pub closed spec fn with_move_time(self, dir: Orientation, t: int) -> GameMaster<R> {
        match dir {
            Orientation::Downward => GameMaster { soft_drop_time_in_milli: t as i64, ..self },
            Orientation::Leftward => GameMaster { left_move_time_in_milli: t as i64, ..self },
            _ => GameMaster { right_move_time_in_milli: t as i64, ..self },
        }
    }

    /// One repeat-triggered move towards `dir`, timed against that move's
    /// own last-fire time: when it fires, the piece moves, the time is kept,
    /// and the long interval is armed after a fresh press or a pause of twice
    /// the armed interval, the short one otherwise.
    #[verifier::opaque]
    pub closed spec fn after_repeat(self, pressed: bool, was_pressed: bool, dir: Orientation, elapsed: int) -> GameMaster<R> {
        let since_last = elapsed - self.last_move_time(dir);
        if repeat_fires(pressed, was_pressed, since_last, self.move_interval as int) {
            GameMaster {
                cm: self.cm.moved(self.field, dir),
                move_interval: if since_last >= 2 * self.move_interval || !was_pressed {
                    self.params.first_move_interval
                } else {
                    self.params.second_move_interval
                },
                ..self
            }.with_move_time(dir, elapsed)
        } else {
            self
        }
    }

    /// Soft drop, then left, then right.
    #[verifier::opaque]
    pub closed spec fn after_repeats(self, key: KeyPress, elapsed: int) -> GameMaster<R> {
        let prev = self.previously_key_press;
        self.after_repeat(key.soft_drop, prev.soft_drop, Orientation::Downward, elapsed)
            .after_repeat(key.left_move, prev.left_move, Orientation::Leftward, elapsed)
            .after_repeat(key.right_move, prev.right_move, Orientation::Rightward, elapsed)
    }

    /// This tick's keys remembered for edge detection on the next one.
    #[verifier::opaque]
    pub closed spec fn with_keys(self, key: KeyPress) -> GameMaster<R> {
        GameMaster {
            right_rotated: key.right_rotate,
            left_rotated: key.left_rotate,
            hard_dropped: key.hard_drop,
            previously_key_press: key,
            ..self
        }
    }

    /// Time since the start of the game.
    pub open spec fn elapsed_at(self, now: i32) -> int {
        now - self.start_time()
    }

    /// One tick of the game, at time `current_time_in_milli` with the keys
    /// `key` held: gravity, then garbage, then locking (skipped when the
    /// garbage row could not go in, so the field is not touched again), then the
    /// edge-triggered actions (turns, hard drop, hold), then the
    /// repeat-triggered moves, and finally the keys are remembered.
    pub fn tick(&mut self, current_time_in_milli: i32, key: KeyPress)
        requires
            old(self).wf(),
        ensures
            final(self).wf(),
            exists|s2: GameMaster<R>, s3: GameMaster<R>, s4: GameMaster<R>|
                #![trigger s2.lock_done(
                    old(self).after_gravity(old(self).elapsed_at(current_time_in_milli)).garbage_fails(
                        old(self).elapsed_at(current_time_in_milli),
                    ),
                    s3,
                ), s3.after_turns(key).hold_done(key, s4)]
                {
                    &&& old(self).after_gravity(old(self).elapsed_at(current_time_in_milli)).garbage_done(
                        old(self).elapsed_at(current_time_in_milli),
                        s2,
                    )
                    &&& s2.lock_done(
                        old(self).after_gravity(old(self).elapsed_at(current_time_in_milli)).garbage_fails(
                            old(self).elapsed_at(current_time_in_milli),
                        ),
                        s3,
                    )
                    &&& s3.after_turns(key).hold_done(key, s4)
                    &&& *final(self) == s4.after_repeats(key, old(self).elapsed_at(current_time_in_milli)).with_keys(key)
                },
    {
        let elapsed = current_time_in_milli as i64 - self.start_time_in_milli as i64;
        self.gravity_phase(elapsed);
        let ghost s1 = *self;
        let failed = self.garbage_phase(elapsed);
        let ghost s2 = *self;
        self.lock_phase(failed);
        let ghost s3 = *self;
        self.turn_and_drop_phase(key);
        self.hold_phase(key);
        let ghost s4 = *self;
        self.repeats_phase(key, elapsed);
        self.remember_keys(key);
        proof {
            let e = old(self).elapsed_at(current_time_in_milli);
            assert(e == elapsed);
            assert(old(self).after_gravity(e).garbage_done(e, s2));
            assert(s2.lock_done(s1.garbage_fails(e), s3));
            assert(s3.after_turns(key).hold_done(key, s4));
        }
    }

    fn gravity_phase(&mut self, elapsed: i64)
        requires
            old(self).wf(),
            time_ok(elapsed as int),
        ensures
            final(self).wf(),
            *final(self) == old(self).after_gravity(elapsed as int),
    {
        proof {
            reveal(GameMaster::after_gravity);
        }
        let n = tick_count_of(elapsed, self.params.drop_interval);
        if n != self.count_drop {
            self.cm.move_mino(&self.field, Orientation::Downward);
            self.count_drop = n;
        }
    }

    #[verifier::rlimit(60)]
    fn garbage_phase(&mut self, elapsed: i64) -> (failed: bool)
        requires
            old(self).wf(),
            time_ok(elapsed as int),
        ensures
            final(self).wf(),
            old(self).garbage_done(elapsed as int, *final(self)),
            failed == old(self).garbage_fails(elapsed as int),
    {
        proof {
            reveal(GameMaster::garbage_done);
        }
        if !self.enable_garbage {
            return false;
        }
        let n = tick_count_of(elapsed, self.params.garbage_interval);
        if n == self.count_garbage {
            return false;
        }
        if self.field.get_height() == 0 {
            self.game_over = true;
            self.count_garbage = n;
            return true;
        }
        let width = self.field.get_width();
        let garbage_lines = self.gbg.generate(width, 1, Color::zero());
        proof {
            lemma_grid_view(garbage_lines);
        }
        let ghost g = garbage_lines@[0]@;
        proof {
            assert(grid_view(garbage_lines)[0] == g);
            assert(is_garbage_row(g, width as nat, Color::zero_spec()));
            assert(garbage_lines@[0]@.len() == width);
            assert(grid_view(garbage_lines) =~= seq![g]);
        }
        match self.field.insert_lines(garbage_lines) {
            Ok(_) => {
                proof {
                    assert(row_clear(old(self).field.rows()[0]));
                    assert(self.field.rows() == old(self).field.rows().subrange(1, old(self).field.height_spec() as int).push(g));
                }
                lift_piece(&self.field, &mut self.cm);
                self.count_garbage = n;
                proof {
                    let w = old(self).field.width_spec();
                    let h = old(self).field.height_spec() as int;
                    assert(is_garbage_row(g, w, Color::zero_spec())
                        && self.field.rows() == old(self).field.rows().subrange(1, h).push(g));
                }
                false
            },
            Err(_) => {
                self.game_over = true;
                self.count_garbage = n;
                true
            },
        }
    }

    fn lock_phase(&mut self, skip: bool)
        requires
            old(self).wf(),
        ensures
            final(self).wf(),
            old(self).lock_done(skip, *final(self)),
    {
        proof {
            reveal(GameMaster::lock_done);
        }
        if skip || !self.cm.grounded {
            return;
        }
        stamp_piece(&mut self.field, &self.cm);
        let gone = clear_full_rows(&mut self.field);
        self.num_deleted_lines = self.num_deleted_lines.saturating_add(gone);
        let width = self.field.get_width();
        let next = self.ng.next();
        self.cm = ControlledMino::new((width / 2) as i64, next);
        self.holded = false;
    }

    fn turn_and_drop_phase(&mut self, key: KeyPress)
        requires
            old(self).wf(),
        ensures
            final(self).wf(),
            *final(self) == old(self).after_turns(key),
    {
        proof {
            reveal(GameMaster::turned_and_dropped);
        }
        if !self.right_rotated && key.right_rotate {
            self.cm.right_rotate_with_srs(&self.field);
        }
        if !self.left_rotated && key.left_rotate {
            self.cm.left_rotate_with_srs(&self.field);
        }
        if !self.hard_dropped && key.hard_drop {
            let height = self.field.get_height();
            drop_piece(&self.field, &mut self.cm, height);
        }
    }

    fn hold_phase(&mut self, key: KeyPress)
        requires
            old(self).wf(),
        ensures
            final(self).wf(),
            old(self).hold_done(key, *final(self)),
    {
        proof {
            reveal(GameMaster::hold_done);
        }
        if !(key.hold && !self.previously_key_press.hold && !self.holded) {
            return;
        }
        match self.hold {
            Hold::Holding(m) => {
                let current = self.cm.mino;
                *self.cm.get_mino() = m;
                self.hold = Hold::Holding(current);
            },
            Hold::Empty => {
                self.hold = Hold::Holding(self.cm.mino);
                let width = self.field.get_width();
                let next = self.ng.next();
                self.cm = ControlledMino::new((width / 2) as i64, next);
            },
        }
        self.holded = true;
    }

    fn repeats_phase(&mut self, key: KeyPress, elapsed: i64)
        requires
            old(self).wf(),
            time_ok(elapsed as int),
        ensures
            final(self).wf(),
            *final(self) == old(self).after_repeats(key, elapsed as int),
    {
        proof {
            reveal(GameMaster::after_repeats);
        }
        let prev = self.previously_key_press;
        self.repeat_phase(key.soft_drop, prev.soft_drop, Orientation::Downward, elapsed);
        self.repeat_phase(key.left_move, prev.left_move, Orientation::Leftward, elapsed);
        self.repeat_phase(key.right_move, prev.right_move, Orientation::Rightward, elapsed);
    }

    fn remember_keys(&mut self, key: KeyPress)
        requires
            old(self).wf(),
        ensures
            final(self).wf(),
            *final(self) == old(self).with_keys(key),
    {
        proof {
            reveal(GameMaster::with_keys);
        }
        self.right_rotated = key.right_rotate;
        self.left_rotated = key.left_rotate;
        self.hard_dropped = key.hard_drop;
        self.previously_key_press = key;
    }

    #[verifier::rlimit(60)]
    fn repeat_phase(&mut self, pressed: bool, was_pressed: bool, dir: Orientation, elapsed: i64)
        requires
            old(self).wf(),
            time_ok(elapsed as int),
        ensures
            final(self).wf(),
            *final(self) == old(self).after_repeat(pressed, was_pressed, dir, elapsed as int),
    {
        proof {
            reveal(GameMaster::after_repeat);
        }
        let last = match dir {
            Orientation::Downward => self.soft_drop_time_in_milli,
            Orientation::Leftward => self.left_move_time_in_milli,
            _ => self.right_move_time_in_milli,
        };
        let since_last = elapsed - last;
        let interval = self.move_interval as i64;
        if pressed && (!was_pressed || since_last >= interval) {
            let armed = if since_last >= 2 * interval || !was_pressed {
                self.params.first_move_interval
            } else {
                self.params.second_move_interval
            };
            self.cm.move_mino(&self.field, dir);
            self.move_interval = armed;
            match dir {
                Orientation::Downward => self.soft_drop_time_in_milli = elapsed,
                Orientation::Leftward => self.left_move_time_in_milli = elapsed,
                _ => self.right_move_time_in_milli = elapsed,
            }
        }
    }

    /// The grids to display: the field with the ghost piece (when enabled)
    /// and the active piece drawn over it. The game itself is left exactly
    /// as it was.
    pub fn project_controlled_mino(&mut self) -> (res: (Vec<Vec<bool>>, Vec<Vec<Color>>))
        requires
            old(self).wf(),
        ensures
            *final(self) == *old(self),
            res.0@.len() == old(self).field_spec().height_spec(),
            res.1@.len() == old(self).field_spec().height_spec(),
            forall|r: int| 0 <= r < old(self).field_spec().height_spec()
                ==> (#[trigger] res.0@[r])@.len() == old(self).field_spec().width_spec(),
            forall|r: int| 0 <= r < old(self).field_spec().height_spec()
                ==> (#[trigger] res.1@[r])@.len() == old(self).field_spec().width_spec(),
            forall|r: int, c: int|
                0 <= r < old(self).field_spec().height_spec() && 0 <= c < old(self).field_spec().width_spec()
                    ==> #[trigger] res.0@[r]@[c] == projected_filled(
                        old(self).field_spec(),
                        old(self).cm_spec(),
                        old(self).ghost_shown(),
                        r,
                        c,
                    ),
            forall|r: int, c: int|
                0 <= r < old(self).field_spec().height_spec() && 0 <= c < old(self).field_spec().width_spec()
                    ==> #[trigger] res.1@[r]@[c] == projected_color(
                        old(self).field_spec(),
                        old(self).cm_spec(),
                        old(self).ghost_shown(),
                        old(self).ghost_color_spec(),
                        r,
                        c,
                    ),
    {
        let height = self.field.get_height();
        let y = self.cm.get_y();
        let grounded = self.cm.get_grounded();
        drop_piece(&self.field, &mut self.cm, height);
        let landed = self.cm;
        proof {
            lemma_dropped_frame(old(self).cm, self.field, height as nat);
        }
        self.cm.set_y(y);
        self.cm.set_grounded(grounded);
        compose_view(&self.field, &self.cm, &landed, self.enable_ghost, self.ghost_color)
    }
}

/// `elapsed / interval` rounded towards zero.
fn tick_count_of(elapsed: i64, interval: u64) -> (r: i64)
    requires
        time_ok(elapsed as int),
        1 <= interval <= 0x7fff_ffff,
    ensures
        r == tick_count(elapsed as int, interval as int),
{
    let d = interval as i64;
    if elapsed >= 0 {
        elapsed / d
    } else {
        -((-elapsed) / d)
    }
}

/// Whether piece `p` occupies field cell `(r, c)`, given its occupancy matrix.
fn covers_cell(shape: &Vec<Vec<bool>>, p: &ControlledMino, r: usize, c: usize) -> (b: bool)
    requires
        grid_view(*shape) == rendered(p.mino, p.ori),
    ensures
        b == piece_covers(*p, r as int, c as int),
{
    let size = p.mino.get_size() as i128;
    let i = r as i128 - p.y as i128;
    let j = c as i128 - p.x as i128;
    if 0 <= i && i < size && 0 <= j && j < size {
        proof {
            lemma_grid_view(*shape);
            assert(shape@[i as int]@ == rendered(p.mino, p.ori)[i as int]);
        }
        shape[i as usize][j as usize]
    } else {
        false
    }
}

/// Whether some occupied cell of `p` lies on a filled cell of the field.
fn piece_overlaps(field: &Field, p: &ControlledMino) -> (b: bool)
    requires
        field.wf(),
    ensures
        b == overlaps(*field, *p),
{
    let shape = p.render();
    let height = field.get_height();
    let width = field.get_width();
    let mut r: usize = 0;
    while r < height
        invariant
            field.wf(),
            height == field.height_spec(),
            width == field.width_spec(),
            grid_view(shape) == rendered(p.mino, p.ori),
            r <= height,
            forall|a: int, b: int| 0 <= a < r && 0 <= b < width && #[trigger] piece_covers(*p, a, b) ==> !field.block(a, b).filled,
        decreases height - r,
    {
        let mut c: usize = 0;
        while c < width
            invariant
                field.wf(),
                height == field.height_spec(),
                width == field.width_spec(),
                grid_view(shape) == rendered(p.mino, p.ori),
                r < height,
                c <= width,
                forall|a: int, b: int| 0 <= a < r && 0 <= b < width && #[trigger] piece_covers(*p, a, b) ==> !field.block(a, b).filled,
                forall|b: int| 0 <= b < c && #[trigger] piece_covers(*p, r as int, b) ==> !field.block(r as int, b).filled,
            decreases width - c,
        {
            if covers_cell(&shape, p, r, c) && field.get_block(r, c).filled {
                proof {
                    assert(piece_covers(*p, r as int, c as int) && field.in_bounds(r as int, c as int));
                }
                return true;
            }
            c += 1;
        }
        r += 1;
    }
    proof {
        assert forall|a: int, b: int| #[trigger] piece_covers(*p, a, b) && field.in_bounds(a, b) implies !field.block(a, b).filled by {
        }
    }
    false
}

/// Pushes the piece up out of filled cells, as `lifted` describes, with at
/// most `p.y` steps.
fn lift_piece(field: &Field, p: &mut ControlledMino)
    requires
        field.wf(),
    ensures
        *final(p) == lifted(*old(p), *field, old(p).y as int),
{
    let iterations = p.y;
    let mut t: i64 = 0;
    if iterations <= 0 {
        return;
    }
    while t < iterations
        invariant
            field.wf(),
            0 <= t <= iterations,
            iterations == old(p).y,
            lifted(*old(p), *field, iterations as int) == lifted(*p, *field, (iterations - t) as int),
        decreases iterations - t,
    {
        if !piece_overlaps(field, p) {
            return;
        }
        p.set_grounded(true);
        p.move_mino(field, Orientation::Upward);
        t += 1;
    }
}

/// `rows` with the cells of `p` stamped, but only those before `(r0, c0)` in
/// row-major order.
spec fn stamped_before(rows: Seq<Seq<FieldBlock>>, p: ControlledMino, r0: int, c0: int) -> Seq<Seq<FieldBlock>> {
    Seq::new(
        rows.len(),
        |r: int|
            Seq::new(
                rows[r].len(),
                |c: int|
                    if piece_covers(p, r, c) && (r < r0 || (r == r0 && c < c0)) {
                        FieldBlock { filled: true, color: p.mino.color_spec() }
                    } else {
                        rows[r][c]
                    },
            ),
    )
}

/// Fills the cells of the field that `p` occupies, in its colour; parts of
/// the piece off the field are skipped.
fn stamp_piece(field: &mut Field, p: &ControlledMino)
    requires
        old(field).wf(),
    ensures
        final(field).wf(),
        final(field).height_spec() == old(field).height_spec(),
        final(field).width_spec() == old(field).width_spec(),
        final(field).rows() == stamped(old(field).rows(), *p),
{
    let shape = p.render();
    let color = p.mino.get_color();
    let height = field.get_height();
    let width = field.get_width();
    let ghost rows = field.rows();
    proof {
        assert forall|a: int| 0 <= a < height implies #[trigger] rows[a] =~= stamped_before(rows, *p, 0, 0)[a] by {
        }
        assert(rows =~= stamped_before(rows, *p, 0, 0));
    }
    let mut r: usize = 0;
    while r < height
        invariant
            field.wf(),
            height == field.height_spec(),
            width == field.width_spec(),
            rows == old(field).rows(),
            grid_view(shape) == rendered(p.mino, p.ori),
            color == p.mino.color_spec(),
            r <= height,
            field.rows() == stamped_before(rows, *p, r as int, 0),
        decreases height - r,
    {
        let mut c: usize = 0;
        while c < width
            invariant
                field.wf(),
                height == field.height_spec(),
                width == field.width_spec(),
                rows == old(field).rows(),
                grid_view(shape) == rendered(p.mino, p.ori),
                color == p.mino.color_spec(),
                r < height,
                c <= width,
                field.rows() == stamped_before(rows, *p, r as int, c as int),
            decreases width - c,
        {
            let ghost before = field.rows();
            if covers_cell(&shape, p, r, c) {
                field.set_block_filled(r, c, true);
                field.set_block_color(r, c, color);
            }
            c += 1;
            proof {
                let next = stamped_before(rows, *p, r as int, c as int);
                assert forall|a: int| 0 <= a < height implies #[trigger] field.rows()[a] =~= next[a] by {
                }
                assert(field.rows() =~= next);
            }
        }
        r += 1;
        proof {
            let next = stamped_before(rows, *p, r as int, 0);
            assert forall|a: int| 0 <= a < height implies #[trigger] field.rows()[a] =~= next[a] by {
                assert(field.rows()[a] =~= stamped_before(rows, *p, (r - 1) as int, width as int)[a]);
            }
            assert(field.rows() =~= next);
        }
    }
    proof {
        assert forall|a: int| 0 <= a < height implies #[trigger] field.rows()[a] =~= stamped(rows, *p)[a] by {
        }
        assert(field.rows() =~= stamped(rows, *p));
    }
}

proof fn lemma_kept_are_surviving(rows: Seq<Seq<FieldBlock>>, ids: Seq<usize>, h: int, m: int)
    requires
        0 <= m <= h <= rows.len(),
        h <= usize::MAX,
        forall|r: int| 0 <= r < h ==> (ids.contains(r as usize) <==> row_full(#[trigger] rows[r])),
    ensures
        kept_rows(rows, ids, m) == surviving_rows(rows, m),
    decreases m,
{
    if m > 0 {
        lemma_kept_are_surviving(rows, ids, h, m - 1);
        assert(ids.contains((m - 1) as usize) <==> row_full(rows[m - 1]));
    }
}

proof fn lemma_full_count(rows: Seq<Seq<FieldBlock>>, ids: Seq<usize>, n: int)
    requires
        0 <= n <= rows.len(),
        n <= usize::MAX,
        forall|a: int, b: int| 0 <= a < b < ids.len() ==> ids[a] < ids[b],
        forall|k: int| 0 <= k < ids.len() ==> #[trigger] ids[k] < n,
        forall|r: int| 0 <= r < n ==> (ids.contains(r as usize) <==> row_full(#[trigger] rows[r])),
    ensures
        ids.len() + surviving_rows(rows, n).len() == n,
    decreases n,
{
    if n == 0 {
        if ids.len() > 0 {
            assert(ids[0] < 0);
        }
    } else if row_full(rows[n - 1]) {
        assert(ids.contains((n - 1) as usize));
        let k = choose|k: int| 0 <= k < ids.len() && ids[k] == (n - 1) as usize;
        assert(k == ids.len() - 1) by {
            if k < ids.len() - 1 {
                assert(ids[k] < ids[ids.len() - 1]);
            }
        }
        let rest = ids.drop_last();
        assert forall|j: int| 0 <= j < rest.len() implies #[trigger] rest[j] < n - 1 by {
            assert(ids[j] < ids[k]);
        }
        assert forall|r: int| 0 <= r < n - 1 implies (rest.contains(r as usize) <==> row_full(#[trigger] rows[r])) by {
            if ids.contains(r as usize) {
                let j = choose|j: int| 0 <= j < ids.len() && ids[j] == r as usize;
                assert(j != k);
                assert(rest[j] == r as usize);
            }
            if rest.contains(r as usize) {
                let j = choose|j: int| 0 <= j < rest.len() && rest[j] == r as usize;
                assert(ids[j] == r as usize);
            }
        }
        lemma_full_count(rows, rest, n - 1);
    } else {
        assert forall|j: int| 0 <= j < ids.len() implies #[trigger] ids[j] < n - 1 by {
            assert(ids[j] < n);
            if ids[j] == n - 1 {
                assert(ids.contains((n - 1) as usize));
            }
        }
        lemma_full_count(rows, ids, n - 1);
    }
}

proof fn lemma_none_full(rows: Seq<Seq<FieldBlock>>, n: int)
    requires
        0 <= n <= rows.len(),
        forall|r: int| 0 <= r < n ==> !row_full(#[trigger] rows[r]),
    ensures
        surviving_rows(rows, n) == rows.subrange(0, n),
    decreases n,
{
    if n > 0 {
        lemma_none_full(rows, n - 1);
        assert(rows.subrange(0, n) =~= rows.subrange(0, n - 1).push(rows[n - 1]));
    }
}

/// Deletes every full row, the rest settling at the bottom; returns how
/// many rows went.
fn clear_full_rows(field: &mut Field) -> (n: usize)
    requires
        old(field).wf(),
    ensures
        final(field).wf(),
        final(field).height_spec() == old(field).height_spec(),
        final(field).width_spec() == old(field).width_spec(),
        final(field).rows() == cleared(old(field).rows(), old(field).width_spec()),
        n + surviving_rows(old(field).rows(), old(field).height_spec() as int).len() == old(field).height_spec(),
{
    let ghost rows = field.rows();
    let height = field.get_height();
    let ghost h = height as int;
    match field.is_filled_each_row() {
        Some(ids) => {
            let n = ids.len();
            proof {
                assert forall|r: int| 0 <= r < h implies (ids@.contains(r as usize) <==> row_full(#[trigger] rows[r])) by {
                    if ids@.contains(r as usize) {
                        let k = choose|k: int| 0 <= k < ids@.len() && ids@[k] == r as usize;
                        assert(field.is_full_row(ids@[k] as int));
                    }
                    if row_full(rows[r]) {
                        assert(field.is_full_row(r));
                    }
                }
                lemma_kept_are_surviving(rows, ids@, h, h);
                lemma_full_count(rows, ids@, h);
            }
            field.delete_lines(ids);
            n
        },
        None => {
            proof {
                assert forall|r: int| 0 <= r < h implies !row_full(#[trigger] rows[r]) by {
                    assert(!field.is_full_row(r));
                }
                lemma_none_full(rows, h);
                assert(cleared(rows, field.width_spec()) =~= rows);
            }
            0
        },
    }
}

/// Moves the piece down `n` times.
fn drop_piece(field: &Field, p: &mut ControlledMino, n: usize)
    requires
        field.wf(),
    ensures
        *final(p) == dropped(*old(p), *field, n as nat),
{
    let mut t: usize = 0;
    while t < n
        invariant
            field.wf(),
            t <= n,
            dropped(*old(p), *field, n as nat) == dropped(*p, *field, (n - t) as nat),
        decreases n - t,
    {
        p.move_mino(field, Orientation::Downward);
        t += 1;
    }
}

/// Downward moves keep the column, the orientation and the kind.
proof fn lemma_dropped_frame(p: ControlledMino, field: Field, n: nat)
    ensures
        dropped(p, field, n).x == p.x,
        dropped(p, field, n).ori == p.ori,
        dropped(p, field, n).mino == p.mino,
    decreases n,
{
    if n > 0 {
        lemma_dropped_frame(p.moved(field, Orientation::Downward), field, (n - 1) as nat);
    }
}

/// The piece as shown in the ghost preview: where it lands when dropped.
pub open spec fn ghost_of(p: ControlledMino, field: Field) -> ControlledMino {
    dropped(p, field, field.height_spec())
}

/// Whether cell `(r, c)` shows filled: the field's cell, the ghost piece
/// when shown, or the active piece.
pub open spec fn projected_filled(field: Field, p: ControlledMino, show_ghost: bool, r: int, c: int) -> bool {
    field.block(r, c).filled || (show_ghost && piece_covers(ghost_of(p, field), r, c)) || piece_covers(p, r, c)
}

/// The colour cell `(r, c)` shows: the active piece's, over the ghost's,
/// over the field's.
pub open spec fn projected_color(
    field: Field,
    p: ControlledMino,
    show_ghost: bool,
    ghost_color: Color,
    r: int,
    c: int,
) -> Color {
    if piece_covers(p, r, c) {
        p.mino.color_spec()
    } else if show_ghost && piece_covers(ghost_of(p, field), r, c) {
        ghost_color
    } else {
        field.block(r, c).color
    }
}

/// The displayed grids, given the ghost piece's position.
fn compose_view(
    field: &Field,
    p: &ControlledMino,
    landed: &ControlledMino,
    show_ghost: bool,
    ghost_color: Color,
) -> (res: (Vec<Vec<bool>>, Vec<Vec<Color>>))
    requires
        field.wf(),
        *landed == ghost_of(*p, *field),
    ensures
        res.0@.len() == field.height_spec(),
        res.1@.len() == field.height_spec(),
        forall|r: int| 0 <= r < field.height_spec() ==> (#[trigger] res.0@[r])@.len() == field.width_spec(),
        forall|r: int| 0 <= r < field.height_spec() ==> (#[trigger] res.1@[r])@.len() == field.width_spec(),
        forall|r: int, c: int| 0 <= r < field.height_spec() && 0 <= c < field.width_spec()
            ==> #[trigger] res.0@[r]@[c] == projected_filled(*field, *p, show_ghost, r, c),
        forall|r: int, c: int| 0 <= r < field.height_spec() && 0 <= c < field.width_spec()
            ==> #[trigger] res.1@[r]@[c] == projected_color(*field, *p, show_ghost, ghost_color, r, c),
{
    let shape = p.render();
    let ghost_shape = landed.render();
    let color = p.mino.get_color();
    let height = field.get_height();
    let width = field.get_width();
    let mut filled: Vec<Vec<bool>> = Vec::new();
    let mut colors: Vec<Vec<Color>> = Vec::new();
    let mut r: usize = 0;
    while r < height
        invariant
            field.wf(),
            height == field.height_spec(),
            width == field.width_spec(),
            *landed == ghost_of(*p, *field),
            grid_view(shape) == rendered(p.mino, p.ori),
            grid_view(ghost_shape) == rendered(landed.mino, landed.ori),
            color == p.mino.color_spec(),
            r <= height,
            filled@.len() == r,
            colors@.len() == r,
            forall|a: int| 0 <= a < r ==> (#[trigger] filled@[a])@.len() == width,
            forall|a: int| 0 <= a < r ==> (#[trigger] colors@[a])@.len() == width,
            forall|a: int, c: int| 0 <= a < r && 0 <= c < width
                ==> #[trigger] filled@[a]@[c] == projected_filled(*field, *p, show_ghost, a, c),
            forall|a: int, c: int| 0 <= a < r && 0 <= c < width
                ==> #[trigger] colors@[a]@[c] == projected_color(*field, *p, show_ghost, ghost_color, a, c),
        decreases height - r,
    {
        let mut frow: Vec<bool> = Vec::new();
        let mut crow: Vec<Color> = Vec::new();
        let mut c: usize = 0;
        while c < width
            invariant
                field.wf(),
                height == field.height_spec(),
                width == field.width_spec(),
                *landed == ghost_of(*p, *field),
                grid_view(shape) == rendered(p.mino, p.ori),
                grid_view(ghost_shape) == rendered(landed.mino, landed.ori),
                color == p.mino.color_spec(),
                r < height,
                c <= width,
                frow@.len() == c,
                crow@.len() == c,
                forall|b: int| 0 <= b < c ==> #[trigger] frow@[b] == projected_filled(*field, *p, show_ghost, r as int, b),
                forall|b: int| 0 <= b < c ==> #[trigger] crow@[b] == projected_color(*field, *p, show_ghost, ghost_color, r as int, b),
            decreases width - c,
        {
            let block = *field.get_block(r, c);
            let on_piece = covers_cell(&shape, p, r, c);
            let on_ghost = show_ghost && covers_cell(&ghost_shape, landed, r, c);
            frow.push(block.filled || on_ghost || on_piece);
            let shown = if on_piece {
                color
            } else if on_ghost {
                ghost_color
            } else {
                block.color
            };
            crow.push(shown);
            c += 1;
        }
        filled.push(frow);
        colors.push(crow);
        r += 1;
    }
    (filled, colors)
}

} // verus!
