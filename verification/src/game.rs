//! The game session: mode state machine, scoring, chain counting, spawn,
//! landing, and the cascade resolution loop over the board.

use vstd::prelude::*;
use crate::board::Board;
use crate::board::Cell;
use crate::board::PuyoColor;
use crate::board::has_big_group;
use crate::puyo_pair::PuyoPair;
use crate::puyo_pair::spec_collision;

verus! {

/// Columns of the session board.
pub const BOARD_COLS: usize = 6;

/// Rows of the session board.
pub const BOARD_ROWS: usize = 12;

/// Column of the spawn coordinate (the axis cell of a fresh pair).
pub const SPAWN_X: i32 = 2;

/// Row of the spawn coordinate.
pub const SPAWN_Y: i32 = 1;

/// Time units accumulated before the active pair auto-drops one row.
pub const FALL_INTERVAL: u64 = 1000;

/// Points awarded per erased cell, before the chain multiplier.
pub const POINTS_PER_PUYO: u64 = 10;

/// Flat bonus awarded when an erase leaves the board entirely empty.
pub const ALL_CLEAR_BONUS: u64 = 5000;

/// The session's mode.
#[derive(Debug, Clone, Copy, PartialEq, Eq, Structural)]
pub enum GameMode {
    Start,
    Playing,
    Checking,
    Erasing,
    Falling,
    GameOver,
}

/// The discrete input intents delivered by the driver for one tick. Each
/// intent is acted on at most once per tick.
#[derive(Debug, Clone, Copy, PartialEq, Eq, Structural)]
pub struct Inputs {
    pub move_left: bool,
    pub move_right: bool,
    pub rotate_cw: bool,
    pub rotate_ccw: bool,
    pub soft_drop: bool,
}

impl Inputs {
    /// A tick with no intents.
    pub fn none() -> (r: Inputs)
        ensures
            r == (Inputs {
                move_left: false,
                move_right: false,
                rotate_cw: false,
                rotate_ccw: false,
                soft_drop: false,
            }),
    {
        Inputs {
            move_left: false,
            move_right: false,
            rotate_cw: false,
            rotate_ccw: false,
            soft_drop: false,
        }
    }
}

/// `a * b` capped at `u64::MAX`.
pub open spec fn sat_mul_u64(a: int, b: int) -> int {
    if a * b > u64::MAX {
        u64::MAX as int
    } else {
        a * b
    }
}

/// `a + b` capped at `u64::MAX`.
pub open spec fn sat_add_u64(a: int, b: int) -> int {
    if a + b > u64::MAX {
        u64::MAX as int
    } else {
        a + b
    }
}

/// The points one resolution step is worth: erased cells times ten times
/// the 1-based cascade multiplier, saturating at `u64::MAX`.
pub open spec fn spec_step_points(erased: int, chain: int) -> int {
    sat_mul_u64(sat_mul_u64(erased, POINTS_PER_PUYO as int), chain)
}

/// Whether resolving the board's erasable groups leaves it entirely
/// empty: every filled cell belongs to a group of at least four.
pub open spec fn erase_clears_board(b: &Board) -> bool {
    forall|i: int, j: int|
        b.in_bounds(i, j) ==> #[trigger] b.cell_at(i, j) == Cell::Empty || has_big_group(
            b,
            (i as usize, j as usize),
        )
}

/// The pair after a one-column move left.
pub open spec fn spec_moved_left(p: PuyoPair) -> PuyoPair {
    PuyoPair {
        axis_x: (p.axis_x - 1) as i32,
        axis_y: p.axis_y,
        axis_color: p.axis_color,
        child_x: (p.child_x - 1) as i32,
        child_y: p.child_y,
        child_color: p.child_color,
    }
}

/// The pair after a one-column move right.
pub open spec fn spec_moved_right(p: PuyoPair) -> PuyoPair {
    PuyoPair {
        axis_x: (p.axis_x + 1) as i32,
        axis_y: p.axis_y,
        axis_color: p.axis_color,
        child_x: (p.child_x + 1) as i32,
        child_y: p.child_y,
        child_color: p.child_color,
    }
}

/// The pair after a one-row move down.
pub open spec fn spec_moved_down(p: PuyoPair) -> PuyoPair {
    PuyoPair {
        axis_x: p.axis_x,
        axis_y: (p.axis_y + 1) as i32,
        axis_color: p.axis_color,
        child_x: p.child_x,
        child_y: (p.child_y + 1) as i32,
        child_color: p.child_color,
    }
}

/// The pair after an in-place clockwise rotation.
pub open spec fn spec_rotated_cw(p: PuyoPair) -> PuyoPair {
    PuyoPair {
        axis_x: p.axis_x,
        axis_y: p.axis_y,
        axis_color: p.axis_color,
        child_x: p.cw_child_x() as i32,
        child_y: p.cw_child_y() as i32,
        child_color: p.child_color,
    }
}

/// The pair after an in-place counterclockwise rotation.
pub open spec fn spec_rotated_ccw(p: PuyoPair) -> PuyoPair {
    PuyoPair {
        axis_x: p.axis_x,
        axis_y: p.axis_y,
        axis_color: p.axis_color,
        child_x: p.ccw_child_x() as i32,
        child_y: p.ccw_child_y() as i32,
        child_color: p.child_color,
    }
}

/// The pair after a clockwise wall-kick rotation: in place if legal, else
/// shifted one column left, else one column right, else unchanged.
pub open spec fn spec_kick_cw(b: &Board, p: PuyoPair) -> PuyoPair {
    if !spec_collision(b, p.axis_x as int, p.axis_y as int, p.cw_child_x(), p.cw_child_y()) {
        spec_rotated_cw(p)
    } else if p.axis_x - 1 >= 0 && !spec_collision(
        b,
        p.axis_x - 1,
        p.axis_y as int,
        p.cw_child_x() - 1,
        p.cw_child_y(),
    ) {
        PuyoPair {
            axis_x: (p.axis_x - 1) as i32,
            axis_y: p.axis_y,
            axis_color: p.axis_color,
            child_x: (p.cw_child_x() - 1) as i32,
            child_y: p.cw_child_y() as i32,
            child_color: p.child_color,
        }
    } else if p.axis_x + 1 < b.spec_cols() && !spec_collision(
        b,
        p.axis_x + 1,
        p.axis_y as int,
        p.cw_child_x() + 1,
        p.cw_child_y(),
    ) {
        PuyoPair {
            axis_x: (p.axis_x + 1) as i32,
            axis_y: p.axis_y,
            axis_color: p.axis_color,
            child_x: (p.cw_child_x() + 1) as i32,
            child_y: p.cw_child_y() as i32,
            child_color: p.child_color,
        }
    } else {
        p
    }
}

/// The pair after a counterclockwise wall-kick rotation: in place if
/// legal, else shifted one column right, else one column left, else
/// unchanged.
pub open spec fn spec_kick_ccw(b: &Board, p: PuyoPair) -> PuyoPair {
    if !spec_collision(b, p.axis_x as int, p.axis_y as int, p.ccw_child_x(), p.ccw_child_y()) {
        spec_rotated_ccw(p)
    } else if p.axis_x + 1 < b.spec_cols() && !spec_collision(
        b,
        p.axis_x + 1,
        p.axis_y as int,
        p.ccw_child_x() + 1,
        p.ccw_child_y(),
    ) {
        PuyoPair {
            axis_x: (p.axis_x + 1) as i32,
            axis_y: p.axis_y,
            axis_color: p.axis_color,
            child_x: (p.ccw_child_x() + 1) as i32,
            child_y: p.ccw_child_y() as i32,
            child_color: p.child_color,
        }
    } else if p.axis_x - 1 >= 0 && !spec_collision(
        b,
        p.axis_x - 1,
        p.axis_y as int,
        p.ccw_child_x() - 1,
        p.ccw_child_y(),
    ) {
        PuyoPair {
            axis_x: (p.axis_x - 1) as i32,
            axis_y: p.axis_y,
            axis_color: p.axis_color,
            child_x: (p.ccw_child_x() - 1) as i32,
            child_y: p.ccw_child_y() as i32,
            child_color: p.child_color,
        }
    } else {
        p
    }
}

/// The pair after this tick's lateral moves and rotations, in the order
/// they are applied: left, right, clockwise kick, counterclockwise kick.
pub open spec fn spec_before_drop(b: &Board, p0: PuyoPair, inp: Inputs) -> PuyoPair {
    let p1 = if inp.move_left && p0.spec_can_move_left(b) {
        spec_moved_left(p0)
    } else {
        p0
    };
    let p2 = if inp.move_right && p1.spec_can_move_right(b) {
        spec_moved_right(p1)
    } else {
        p1
    };
    let p3 = if inp.rotate_cw {
        spec_kick_cw(b, p2)
    } else {
        p2
    };
    if inp.rotate_ccw {
        spec_kick_ccw(b, p3)
    } else {
        p3
    }
}

/// Whether this tick's soft drop takes effect (the pair can still fall).
pub open spec fn spec_drop_applies(b: &Board, p0: PuyoPair, inp: Inputs) -> bool {
    inp.soft_drop && spec_before_drop(b, p0, inp).spec_can_move_down(b)
}

/// The pair after all of this tick's input intents.
pub open spec fn spec_after_inputs(b: &Board, p0: PuyoPair, inp: Inputs) -> PuyoPair {
    if spec_drop_applies(b, p0, inp) {
        spec_moved_down(spec_before_drop(b, p0, inp))
    } else {
        spec_before_drop(b, p0, inp)
    }
}

/// The game session. It owns the board and, while one is falling, the
/// active pair, together with the mode, score, chain counter and the
/// auto-drop timer.
pub struct Game {
    mode: GameMode,
    score: u64,
    chain_count: u64,
    board: Option<Board>,
    current_pair: Option<PuyoPair>,
    fall_timer: u64,
    fall_interval: u64,
}

impl Game {
    /// The session's mode.
    pub closed spec fn spec_mode(&self) -> GameMode {
        self.mode
    }

    /// The session's score.
    pub closed spec fn spec_score(&self) -> u64 {
        self.score
    }

    /// Completed cascade steps since the last landing.
    pub closed spec fn spec_chain(&self) -> u64 {
        self.chain_count
    }

    /// Whether a board is present (it always is).
    pub closed spec fn has_board(&self) -> bool {
        self.board is Some
    }

    /// The session board.
    pub closed spec fn spec_board(&self) -> Board {
        self.board.unwrap()
    }

    /// Whether a pair is currently falling.
    pub closed spec fn has_pair(&self) -> bool {
        self.current_pair is Some
    }

    /// The active pair.
    pub closed spec fn spec_pair(&self) -> PuyoPair {
        self.current_pair.unwrap()
    }

    /// Time units accumulated since the active pair last dropped a row.
    pub closed spec fn spec_timer(&self) -> u64 {
        self.fall_timer
    }

    /// The auto-drop interval (fixed for the session).
    pub closed spec fn spec_interval(&self) -> u64 {
        self.fall_interval
    }

    /// The session invariant: the board is the canonical 6 x 12 grid; the
    /// active pair exists exactly in the playing mode, with both of its
    /// cells in bounds and orthogonally adjacent.
    pub open spec fn wf(&self) -> bool {
        &&& self.has_board()
        &&& self.spec_board().wf()
        &&& self.spec_board().spec_cols() == BOARD_COLS
        &&& self.spec_board().spec_rows() == BOARD_ROWS
        &&& self.spec_interval() == FALL_INTERVAL
        &&& self.has_pair() <==> self.spec_mode() == GameMode::Playing
        &&& self.has_pair() ==> {
            let p = self.spec_pair();
            &&& 0 <= p.axis_x < BOARD_COLS
            &&& 0 <= p.axis_y < BOARD_ROWS
            &&& 0 <= p.child_x < BOARD_COLS
            &&& 0 <= p.child_y < BOARD_ROWS
            &&& p.adjacent()
        }
    }

    /// A fresh session: start mode, zero score and chain, an empty board,
    /// no active pair.
    pub fn new() -> (g: Game)
        ensures
            g.wf(),
            g.spec_mode() == GameMode::Start,
            g.spec_score() == 0,
            g.spec_chain() == 0,
            g.spec_timer() == 0,
            !g.has_pair(),
            forall|i: int, j: int|
                g.spec_board().in_bounds(i, j) ==> #[trigger] g.spec_board().cell_at(i, j)
                    == Cell::Empty,
    {
        Game {
            mode: GameMode::Start,
            score: 0,
            chain_count: 0,
            board: Some(Board::new(BOARD_COLS, BOARD_ROWS)),
            current_pair: None,
            fall_timer: 0,
            fall_interval: FALL_INTERVAL,
        }
    }

    /// The session's mode.
    pub fn mode(&self) -> (r: GameMode)
        ensures
            r == self.spec_mode(),
    {
        self.mode
    }

    /// The session's score.
    pub fn score(&self) -> (r: u64)
        ensures
            r == self.spec_score(),
    {
        self.score
    }

    /// Completed cascade steps since the last landing.
    pub fn chain_count(&self) -> (r: u64)
        ensures
            r == self.spec_chain(),
    {
        self.chain_count
    }

    /// The board, for read-only queries.
    pub fn board(&self) -> (r: Option<&Board>)
        ensures
            r is Some <==> self.has_board(),
            r matches Some(b) ==> *b == self.spec_board(),
    {
        match &self.board {
            Some(b) => Some(b),
            None => None,
        }
    }

    /// The board, for direct manipulation.
    pub fn board_mut(&mut self) -> (b: &mut Board)
        requires
            old(self).has_board(),
        ensures
            *b == old(self).spec_board(),
            final(self).has_board(),
            final(self).spec_board() == *final(b),
            final(self).spec_mode() == old(self).spec_mode(),
            final(self).spec_score() == old(self).spec_score(),
            final(self).spec_chain() == old(self).spec_chain(),
            final(self).spec_timer() == old(self).spec_timer(),
            final(self).spec_interval() == old(self).spec_interval(),
            final(self).has_pair() == old(self).has_pair(),
            old(self).has_pair() ==> final(self).spec_pair() == old(self).spec_pair(),
    {
        match &mut self.board {
            Some(b) => b,
            None => vstd::pervasive::unreached(),
        }
    }

    /// The active pair, absent outside the playing mode.
    pub fn current_pair(&self) -> (r: Option<&PuyoPair>)
        ensures
            r is Some <==> self.has_pair(),
            r matches Some(p) ==> *p == self.spec_pair(),
    {
        match &self.current_pair {
            Some(p) => Some(p),
            None => None,
        }
    }

    /// Whether the session has ended.
    pub fn is_game_over(&self) -> (r: bool)
        ensures
            r == (self.spec_mode() == GameMode::GameOver),
    {
        match self.mode {
            GameMode::GameOver => true,
            _ => false,
        }
    }

    /// Adds `erased * 10 * chain` points, saturating at `u64::MAX`. `chain`
    /// is the 1-based cascade multiplier.
    pub fn add_score(&mut self, erased: u64, chain: u64)
        ensures
            final(self).spec_score() as int == sat_add_u64(
                old(self).spec_score() as int,
                spec_step_points(erased as int, chain as int),
            ),
            final(self).spec_mode() == old(self).spec_mode(),
            final(self).spec_chain() == old(self).spec_chain(),
            final(self).spec_timer() == old(self).spec_timer(),
            final(self).has_board() == old(self).has_board(),
            old(self).has_board() ==> final(self).spec_board() == old(self).spec_board(),
            final(self).has_pair() == old(self).has_pair(),
            old(self).has_pair() ==> final(self).spec_pair() == old(self).spec_pair(),
            old(self).wf() ==> final(self).wf(),
    {
        let per_cell: u64 = if erased <= u64::MAX / POINTS_PER_PUYO {
            erased * POINTS_PER_PUYO
        } else {
            u64::MAX
        };
        proof {
            assert((per_cell as u128) * (chain as u128) <= (u64::MAX as u128) * (u64::MAX as u128))
                by (nonlinear_arith)
                requires
                    per_cell as u128 <= u64::MAX as u128,
                    chain as u128 <= u64::MAX as u128,
            ;
        }
        let wide: u128 = (per_cell as u128) * (chain as u128);
        let points: u64 = if wide > u64::MAX as u128 {
            u64::MAX
        } else {
            wide as u64
        };
        self.score = self.score.saturating_add(points);
    }

    /// Counts one more completed cascade step, saturating at `u64::MAX`.
    pub fn increment_chain(&mut self)
        ensures
            final(self).spec_chain() as int == sat_add_u64(old(self).spec_chain() as int, 1),
            final(self).spec_mode() == old(self).spec_mode(),
            final(self).spec_score() == old(self).spec_score(),
            final(self).spec_timer() == old(self).spec_timer(),
            final(self).has_board() == old(self).has_board(),
            old(self).has_board() ==> final(self).spec_board() == old(self).spec_board(),
            final(self).has_pair() == old(self).has_pair(),
            old(self).has_pair() ==> final(self).spec_pair() == old(self).spec_pair(),
            old(self).wf() ==> final(self).wf(),
    {
        self.chain_count = self.chain_count.saturating_add(1);
    }

    /// Resets the cascade counter, as happens when a fresh pair spawns.
    pub fn reset_chain(&mut self)
        ensures
            final(self).spec_chain() == 0,
            final(self).spec_mode() == old(self).spec_mode(),
            final(self).spec_score() == old(self).spec_score(),
            final(self).spec_timer() == old(self).spec_timer(),
            final(self).has_board() == old(self).has_board(),
            old(self).has_board() ==> final(self).spec_board() == old(self).spec_board(),
            final(self).has_pair() == old(self).has_pair(),
            old(self).has_pair() ==> final(self).spec_pair() == old(self).spec_pair(),
            old(self).wf() ==> final(self).wf(),
    {
        self.chain_count = 0;
    }

    /// Adds the flat all-clear bonus, saturating at `u64::MAX`.
    pub fn add_all_clear_bonus(&mut self)
        ensures
            final(self).spec_score() as int == sat_add_u64(
                old(self).spec_score() as int,
                ALL_CLEAR_BONUS as int,
            ),
            final(self).spec_mode() == old(self).spec_mode(),
            final(self).spec_chain() == old(self).spec_chain(),
            final(self).spec_timer() == old(self).spec_timer(),
            final(self).has_board() == old(self).has_board(),
            old(self).has_board() ==> final(self).spec_board() == old(self).spec_board(),
            final(self).has_pair() == old(self).has_pair(),
            old(self).has_pair() ==> final(self).spec_pair() == old(self).spec_pair(),
            old(self).wf() ==> final(self).wf(),
    {
        self.score = self.score.saturating_add(ALL_CLEAR_BONUS);
    }
}

/// Performs a clockwise wall-kick rotation and relates the outcome to its
/// specification, keeping both cells on the board.
#[verifier::rlimit(100)]
fn apply_kick_cw(pair: &mut PuyoPair, board: &Board)
    requires
        board.wf(),
        board.spec_cols() + 2 < 0x8000_0000,
        board.spec_rows() + 2 < 0x8000_0000,
        0 <= old(pair).axis_x < board.spec_cols(),
        0 <= old(pair).axis_y < board.spec_rows(),
        0 <= old(pair).child_x < board.spec_cols(),
        0 <= old(pair).child_y < board.spec_rows(),
        old(pair).adjacent(),
    ensures
        *final(pair) == spec_kick_cw(board, *old(pair)),
        0 <= final(pair).axis_x < board.spec_cols(),
        0 <= final(pair).axis_y < board.spec_rows(),
        0 <= final(pair).child_x < board.spec_cols(),
        0 <= final(pair).child_y < board.spec_rows(),
        final(pair).adjacent(),
{
    proof {
        let p = *pair;
        assert(p.kick_fits());
    }
    pair.rotate_right_with_wall_kick(board);
}

/// Performs a counterclockwise wall-kick rotation and relates the outcome
/// to its specification, keeping both cells on the board.
#[verifier::rlimit(100)]
fn apply_kick_ccw(pair: &mut PuyoPair, board: &Board)
    requires
        board.wf(),
        board.spec_cols() + 2 < 0x8000_0000,
        board.spec_rows() + 2 < 0x8000_0000,
        0 <= old(pair).axis_x < board.spec_cols(),
        0 <= old(pair).axis_y < board.spec_rows(),
        0 <= old(pair).child_x < board.spec_cols(),
        0 <= old(pair).child_y < board.spec_rows(),
        old(pair).adjacent(),
    ensures
        *final(pair) == spec_kick_ccw(board, *old(pair)),
        0 <= final(pair).axis_x < board.spec_cols(),
        0 <= final(pair).axis_y < board.spec_rows(),
        0 <= final(pair).child_x < board.spec_cols(),
        0 <= final(pair).child_y < board.spec_rows(),
        final(pair).adjacent(),
{
    proof {
        let p = *pair;
        assert(p.kick_fits());
    }
    pair.rotate_left_with_wall_kick(board);
}

impl Game {
    /// Creates a fresh random pair at the spawn coordinate, child directly
    /// above the axis, and resets the cascade counter.
    fn spawn_new_pair(&mut self)
        ensures
            final(self).has_pair(),
            final(self).spec_pair().axis_x == SPAWN_X,
            final(self).spec_pair().axis_y == SPAWN_Y,
            final(self).spec_pair().child_x == SPAWN_X,
            final(self).spec_pair().child_y == SPAWN_Y - 1,
            final(self).spec_pair().adjacent(),
            final(self).spec_chain() == 0,
            final(self).spec_mode() == old(self).spec_mode(),
            final(self).spec_score() == old(self).spec_score(),
            final(self).spec_timer() == old(self).spec_timer(),
            final(self).spec_interval() == old(self).spec_interval(),
            final(self).has_board() == old(self).has_board(),
            old(self).has_board() ==> final(self).spec_board() == old(self).spec_board(),
    {
        let axis_color = random_color();
        let child_color = random_color();
        let pair = PuyoPair::new(SPAWN_X, SPAWN_Y, axis_color, child_color);
        self.current_pair = Some(pair);
        self.chain_count = 0;
    }

    /// Begins play: enters the playing mode and spawns the first pair.
    pub fn start(&mut self)
        requires
            old(self).wf(),
        ensures
            final(self).wf(),
            final(self).spec_mode() == GameMode::Playing,
            final(self).spec_chain() == 0,
            final(self).spec_score() == old(self).spec_score(),
            final(self).spec_timer() == old(self).spec_timer(),
            final(self).spec_board() == old(self).spec_board(),
            final(self).has_pair(),
            final(self).spec_pair().axis_x == SPAWN_X,
            final(self).spec_pair().axis_y == SPAWN_Y,
            final(self).spec_pair().child_x == SPAWN_X,
            final(self).spec_pair().child_y == SPAWN_Y - 1,
    {
        self.mode = GameMode::Playing;
        self.spawn_new_pair();
    }

    /// Discards the session and begins a fresh one: empty board, zero
    /// score and chain, playing mode with a newly spawned pair.
    pub fn restart(&mut self)
        ensures
            final(self).wf(),
            final(self).spec_mode() == GameMode::Playing,
            final(self).spec_score() == 0,
            final(self).spec_chain() == 0,
            final(self).spec_timer() == 0,
            forall|i: int, j: int|
                final(self).spec_board().in_bounds(i, j) ==> #[trigger] final(self).spec_board().cell_at(i, j) == Cell::Empty,
            final(self).has_pair(),
            final(self).spec_pair().axis_x == SPAWN_X,
            final(self).spec_pair().axis_y == SPAWN_Y,
            final(self).spec_pair().child_x == SPAWN_X,
            final(self).spec_pair().child_y == SPAWN_Y - 1,
    {
        *self = Game::new();
        self.start();
    }

    /// Writes the active pair's two cells into the board (axis first, then
    /// child), discards the pair, clears the cascade counter, and moves to
    /// the checking phase.
    fn land_pair(&mut self)
        requires
            old(self).wf(),
            old(self).spec_mode() == GameMode::Playing,
        ensures
            final(self).wf(),
            final(self).spec_mode() == GameMode::Checking,
            !final(self).has_pair(),
            final(self).spec_chain() == 0,
            final(self).spec_score() == old(self).spec_score(),
            final(self).spec_timer() == old(self).spec_timer(),
            final(self).spec_board().wf(),
            final(self).spec_board().spec_cols() == old(self).spec_board().spec_cols(),
            final(self).spec_board().spec_rows() == old(self).spec_board().spec_rows(),
            forall|i: int, j: int|
                old(self).spec_board().in_bounds(i, j) ==> #[trigger] final(self).spec_board().cell_at(i, j) == (
                if i == old(self).spec_pair().child_x && j == old(self).spec_pair().child_y {
                    Cell::Filled(old(self).spec_pair().child_color)
                } else if i == old(self).spec_pair().axis_x && j == old(self).spec_pair().axis_y {
                    Cell::Filled(old(self).spec_pair().axis_color)
                } else {
                    old(self).spec_board().cell_at(i, j)
                }),
    {
        if let Some(pair) = self.current_pair {
            self.current_pair = None;
            match &mut self.board {
                Some(b) => {
                    b.set_cell(pair.axis_x as usize, pair.axis_y as usize, Cell::Filled(pair.axis_color));
                    b.set_cell(
                        pair.child_x as usize,
                        pair.child_y as usize,
                        Cell::Filled(pair.child_color),
                    );
                },
                None => {},
            }
            self.chain_count = 0;
            self.mode = GameMode::Checking;
        }
    }

    /// Applies this tick's input intents to the active pair, in order:
    /// move left, move right, clockwise kick, counterclockwise kick, soft
    /// drop. An applied soft drop also resets the auto-drop timer.
    #[verifier::rlimit(100)]
    fn handle_input(&mut self, inputs: &Inputs)
        requires
            old(self).wf(),
            old(self).spec_mode() == GameMode::Playing,
        ensures
            final(self).wf(),
            final(self).spec_mode() == old(self).spec_mode(),
            final(self).spec_score() == old(self).spec_score(),
            final(self).spec_chain() == old(self).spec_chain(),
            final(self).spec_board() == old(self).spec_board(),
            final(self).has_pair(),
            final(self).spec_pair() == spec_after_inputs(
                &old(self).spec_board(),
                old(self).spec_pair(),
                *inputs,
            ),
            final(self).spec_timer() == (
            if spec_drop_applies(&old(self).spec_board(), old(self).spec_pair(), *inputs) {
                0u64
            } else {
                old(self).spec_timer()
            }),
    {
        let mut dropped = false;
        if let Some(ref mut pair) = self.current_pair {
            if let Some(ref board) = self.board {
                let ghost p0 = *pair;
                if inputs.move_left && pair.can_move_left(board) {
                    pair.move_left();
                }
                let ghost p1 = if inputs.move_left && p0.spec_can_move_left(board) {
                    spec_moved_left(p0)
                } else {
                    p0
                };
                assert(*pair == p1);
                if inputs.move_right && pair.can_move_right(board) {
                    pair.move_right();
                }
                let ghost p2 = if inputs.move_right && p1.spec_can_move_right(board) {
                    spec_moved_right(p1)
                } else {
                    p1
                };
                assert(*pair == p2);
                if inputs.rotate_cw {
                    apply_kick_cw(pair, board);
                }
                let ghost p3 = if inputs.rotate_cw {
                    spec_kick_cw(board, p2)
                } else {
                    p2
                };
                assert(*pair == p3);
                if inputs.rotate_ccw {
                    apply_kick_ccw(pair, board);
                }
                let ghost p4 = if inputs.rotate_ccw {
                    spec_kick_ccw(board, p3)
                } else {
                    p3
                };
                assert(*pair == p4);
                assert(p4 == spec_before_drop(board, p0, *inputs));
                if inputs.soft_drop && pair.can_move_down(board) {
                    pair.move_down();
                    dropped = true;
                }
                assert(*pair == spec_after_inputs(board, p0, *inputs));
                assert(dropped == spec_drop_applies(board, p0, *inputs));
            }
        }
        if dropped {
            self.fall_timer = 0;
        }
    }

    /// One checking step of the cascade: resolves matches once. When cells
    /// were erased it counts the cascade step, awards their score (with the
    /// all-clear bonus when the erase empties the board) and moves to the
    /// erasing phase; otherwise it spawns the next pair, or ends the game
    /// when the spawn coordinate is occupied.
    #[verifier::rlimit(100)]
    fn step_checking(&mut self)
        requires
            old(self).wf(),
            old(self).spec_mode() == GameMode::Checking,
        ensures
            final(self).wf(),
            final(self).spec_timer() == old(self).spec_timer(),
            (exists|t: (usize, usize)| has_big_group(&old(self).spec_board(), t)) ==> {
                &&& final(self).spec_mode() == GameMode::Erasing
                &&& !final(self).has_pair()
                &&& final(self).spec_chain() as int == sat_add_u64(old(self).spec_chain() as int, 1)
                &&& final(self).spec_board().spec_cols() == old(self).spec_board().spec_cols()
                &&& final(self).spec_board().spec_rows() == old(self).spec_board().spec_rows()
                &&& forall|i: int, j: int|
                    old(self).spec_board().in_bounds(i, j) ==> #[trigger] final(self).spec_board().cell_at(i, j) == (
                    if has_big_group(&old(self).spec_board(), (i as usize, j as usize)) {
                        Cell::Empty
                    } else {
                        old(self).spec_board().cell_at(i, j)
                    })
                &&& exists|ps: Seq<(usize, usize)>|
                    {
                        &&& ps.no_duplicates()
                        &&& (forall|t: (usize, usize)| #[trigger] ps.contains(t) <==> has_big_group(
                            &old(self).spec_board(),
                            t,
                        ))
                        &&& final(self).spec_score() as int == (
                        if erase_clears_board(&old(self).spec_board()) {
                            sat_add_u64(
                                sat_add_u64(
                                    old(self).spec_score() as int,
                                    spec_step_points(
                                        ps.len() as int,
                                        sat_add_u64(old(self).spec_chain() as int, 1),
                                    ),
                                ),
                                ALL_CLEAR_BONUS as int,
                            )
                        } else {
                            sat_add_u64(
                                old(self).spec_score() as int,
                                spec_step_points(
                                    ps.len() as int,
                                    sat_add_u64(old(self).spec_chain() as int, 1),
                                ),
                            )
                        })
                    }
            },
            !(exists|t: (usize, usize)| has_big_group(&old(self).spec_board(), t)) ==> {
                &&& final(self).spec_score() == old(self).spec_score()
                &&& final(self).spec_board().spec_cols() == old(self).spec_board().spec_cols()
                &&& final(self).spec_board().spec_rows() == old(self).spec_board().spec_rows()
                &&& forall|i: int, j: int|
                    old(self).spec_board().in_bounds(i, j) ==> #[trigger] final(self).spec_board().cell_at(i, j) == old(self).spec_board().cell_at(i, j)
                &&& if crate::board::is_filled(
                    old(self).spec_board().cell_at(SPAWN_X as int, SPAWN_Y as int),
                ) {
                    &&& final(self).spec_mode() == GameMode::GameOver
                    &&& !final(self).has_pair()
                    &&& final(self).spec_chain() == old(self).spec_chain()
                } else {
                    &&& final(self).spec_mode() == GameMode::Playing
                    &&& final(self).has_pair()
                    &&& final(self).spec_pair().axis_x == SPAWN_X
                    &&& final(self).spec_pair().axis_y == SPAWN_Y
                    &&& final(self).spec_pair().child_x == SPAWN_X
                    &&& final(self).spec_pair().child_y == SPAWN_Y - 1
                    &&& final(self).spec_chain() == 0
                }
            },
    {
        let ghost b0 = old(self).spec_board();
        let count: usize = match &mut self.board {
            Some(b) => resolve_once(b),
            None => 0,
        };
        let ghost ps = choose|ps: Seq<(usize, usize)>|
            {
                &&& ps.no_duplicates()
                &&& (forall|t: (usize, usize)| #[trigger] ps.contains(t) <==> has_big_group(
                    &b0,
                    t,
                ))
                &&& count == ps.len()
            };
        if count > 0 {
            proof {
                assert(ps.contains(ps[0]));
                assert(exists|t: (usize, usize)| has_big_group(&b0, t));
            }
            self.increment_chain();
            let chain = self.chain_count;
            self.add_score(count as u64, chain);
            let clear: bool = match &self.board {
                Some(b) => b.is_all_clear(),
                None => false,
            };
            proof {
                assert(clear == erase_clears_board(&b0)) by {
                    if clear {
                        assert forall|i: int, j: int|
                            b0.in_bounds(i, j) implies #[trigger] b0.cell_at(i, j) == Cell::Empty
                            || has_big_group(&b0, (i as usize, j as usize)) by {
                            assert(self.spec_board().cell_at(i, j) == Cell::Empty);
                        }
                    }
                    if erase_clears_board(&b0) {
                        assert forall|i: int, j: int|
                            self.spec_board().in_bounds(i, j) implies #[trigger] self.spec_board()
                                .cell_at(i, j) == Cell::Empty by {
                            assert(b0.cell_at(i, j) == Cell::Empty || has_big_group(
                                &b0,
                                (i as usize, j as usize),
                            ));
                        }
                    }
                }
            }
            if clear {
                self.add_all_clear_bonus();
            }
            self.mode = GameMode::Erasing;
            proof {
                assert(ps.no_duplicates() && (forall|t: (usize, usize)| #[trigger] ps.contains(t)
                    <==> has_big_group(&b0, t)) && self.spec_score() as int == (
                if erase_clears_board(&b0) {
                    sat_add_u64(
                        sat_add_u64(
                            old(self).spec_score() as int,
                            spec_step_points(
                                ps.len() as int,
                                sat_add_u64(old(self).spec_chain() as int, 1),
                            ),
                        ),
                        ALL_CLEAR_BONUS as int,
                    )
                } else {
                    sat_add_u64(
                        old(self).spec_score() as int,
                        spec_step_points(
                            ps.len() as int,
                            sat_add_u64(old(self).spec_chain() as int, 1),
                        ),
                    )
                }));
            }
        } else {
            let spawn_blocked: bool = match &self.board {
                Some(b) => match b.get_cell(SPAWN_X as usize, SPAWN_Y as usize) {
                    Some(Cell::Filled(_)) => true,
                    _ => false,
                },
                None => false,
            };
            if spawn_blocked {
                self.mode = GameMode::GameOver;
            } else {
                self.spawn_new_pair();
                self.mode = GameMode::Playing;
            }
        }
    }

    /// One tick. In the playing mode it applies the input intents, then
    /// accumulates `delta` time units and auto-drops (or lands) the pair
    /// when the interval has elapsed; in the resolution modes it advances
    /// the cascade one phase; in the start and game-over modes it does
    /// nothing.
    #[verifier::rlimit(50)]
    pub fn update(&mut self, delta: u64, inputs: &Inputs)
        requires
            old(self).wf(),
        ensures
            final(self).wf(),
            final(self).spec_score() >= old(self).spec_score(),
            (old(self).spec_mode() == GameMode::Start || old(self).spec_mode()
                == GameMode::GameOver) ==> *final(self) == *old(self),
            old(self).spec_mode() == GameMode::Playing ==> {
                let b0 = old(self).spec_board();
                let p1 = spec_after_inputs(&b0, old(self).spec_pair(), *inputs);
                let t1 = sat_add_u64(
                    if spec_drop_applies(&b0, old(self).spec_pair(), *inputs) {
                        0
                    } else {
                        old(self).spec_timer() as int
                    },
                    delta as int,
                );
                &&& final(self).spec_score() == old(self).spec_score()
                &&& if t1 < FALL_INTERVAL {
                    &&& final(self).spec_mode() == GameMode::Playing
                    &&& final(self).spec_board() == b0
                    &&& final(self).spec_chain() == old(self).spec_chain()
                    &&& final(self).has_pair()
                    &&& final(self).spec_pair() == p1
                    &&& final(self).spec_timer() as int == t1
                } else if p1.spec_can_move_down(&b0) {
                    &&& final(self).spec_mode() == GameMode::Playing
                    &&& final(self).spec_board() == b0
                    &&& final(self).spec_chain() == old(self).spec_chain()
                    &&& final(self).has_pair()
                    &&& final(self).spec_pair() == spec_moved_down(p1)
                    &&& final(self).spec_timer() == 0
                } else {
                    &&& final(self).spec_mode() == GameMode::Checking
                    &&& !final(self).has_pair()
                    &&& final(self).spec_chain() == 0
                    &&& final(self).spec_timer() == 0
                    &&& final(self).spec_board().spec_cols() == b0.spec_cols()
                    &&& final(self).spec_board().spec_rows() == b0.spec_rows()
                    &&& forall|i: int, j: int|
                        b0.in_bounds(i, j) ==> #[trigger] final(self).spec_board().cell_at(i, j)
                            == (
                        if i == p1.child_x && j == p1.child_y {
                            Cell::Filled(p1.child_color)
                        } else if i == p1.axis_x && j == p1.axis_y {
                            Cell::Filled(p1.axis_color)
                        } else {
                            b0.cell_at(i, j)
                        })
                }
            },
            old(self).spec_mode() == GameMode::Erasing ==> {
                &&& final(self).spec_mode() == GameMode::Falling
                &&& final(self).spec_board() == old(self).spec_board()
                &&& final(self).spec_score() == old(self).spec_score()
                &&& final(self).spec_chain() == old(self).spec_chain()
                &&& final(self).spec_timer() == old(self).spec_timer()
                &&& !final(self).has_pair()
            },
            old(self).spec_mode() == GameMode::Falling ==> {
                &&& final(self).spec_mode() == GameMode::Checking
                &&& final(self).spec_score() == old(self).spec_score()
                &&& final(self).spec_chain() == old(self).spec_chain()
                &&& final(self).spec_timer() == old(self).spec_timer()
                &&& !final(self).has_pair()
                &&& final(self).spec_board().spec_cols() == old(self).spec_board().spec_cols()
                &&& final(self).spec_board().spec_rows() == old(self).spec_board().spec_rows()
                &&& forall|x: int|
                    0 <= x < old(self).spec_board().spec_cols() ==> #[trigger] final(self).spec_board().column(x) == crate::board::compacted(
                        old(self).spec_board().column(x),
                    )
            },
            old(self).spec_mode() == GameMode::Checking ==> final(self).spec_timer() == old(self).spec_timer(),
            old(self).spec_mode() == GameMode::Checking ==> (exists|t: (usize, usize)|
                has_big_group(&old(self).spec_board(), t)) ==> {
                &&& final(self).spec_mode() == GameMode::Erasing
                &&& !final(self).has_pair()
                &&& final(self).spec_chain() as int == sat_add_u64(old(self).spec_chain() as int, 1)
                &&& forall|i: int, j: int|
                    old(self).spec_board().in_bounds(i, j) ==> #[trigger] final(self).spec_board().cell_at(i, j) == (
                    if has_big_group(&old(self).spec_board(), (i as usize, j as usize)) {
                        Cell::Empty
                    } else {
                        old(self).spec_board().cell_at(i, j)
                    })
                &&& exists|ps: Seq<(usize, usize)>|
                    {
                        &&& ps.no_duplicates()
                        &&& (forall|t: (usize, usize)| #[trigger] ps.contains(t) <==> has_big_group(
                            &old(self).spec_board(),
                            t,
                        ))
                        &&& final(self).spec_score() as int == (
                        if erase_clears_board(&old(self).spec_board()) {
                            sat_add_u64(
                                sat_add_u64(
                                    old(self).spec_score() as int,
                                    spec_step_points(
                                        ps.len() as int,
                                        sat_add_u64(old(self).spec_chain() as int, 1),
                                    ),
                                ),
                                ALL_CLEAR_BONUS as int,
                            )
                        } else {
                            sat_add_u64(
                                old(self).spec_score() as int,
                                spec_step_points(
                                    ps.len() as int,
                                    sat_add_u64(old(self).spec_chain() as int, 1),
                                ),
                            )
                        })
                    }
            },
            old(self).spec_mode() == GameMode::Checking ==> !(exists|t: (usize, usize)|
                has_big_group(&old(self).spec_board(), t)) ==> {
                &&& final(self).spec_score() == old(self).spec_score()
                &&& forall|i: int, j: int|
                    old(self).spec_board().in_bounds(i, j) ==> #[trigger] final(self).spec_board().cell_at(i, j) == old(self).spec_board().cell_at(i, j)
                &&& if crate::board::is_filled(
                    old(self).spec_board().cell_at(SPAWN_X as int, SPAWN_Y as int),
                ) {
                    final(self).spec_mode() == GameMode::GameOver && !final(self).has_pair()
                } else {
                    &&& final(self).spec_mode() == GameMode::Playing
                    &&& final(self).has_pair()
                    &&& final(self).spec_pair().axis_x == SPAWN_X
                    &&& final(self).spec_pair().axis_y == SPAWN_Y
                    &&& final(self).spec_pair().child_x == SPAWN_X
                    &&& final(self).spec_pair().child_y == SPAWN_Y - 1
                    &&& final(self).spec_chain() == 0
                }
            },
    {
        match self.mode {
            GameMode::Start => {},
            GameMode::GameOver => {},
            GameMode::Playing => {
                self.handle_input(inputs);
                self.fall_timer = self.fall_timer.saturating_add(delta);
                if self.fall_timer >= self.fall_interval {
                    self.auto_fall();
                    self.fall_timer = 0;
                }
            },
            GameMode::Checking => {
                self.step_checking();
            },
            GameMode::Erasing => {
                self.mode = GameMode::Falling;
            },
            GameMode::Falling => {
                match &mut self.board {
                    Some(b) => {
                        b.apply_gravity();
                    },
                    None => {},
                }
                self.mode = GameMode::Checking;
            },
        }
    }

    /// One auto-drop step: moves the pair one row down if it can fall,
    /// otherwise lands it.
    fn auto_fall(&mut self)
        requires
            old(self).wf(),
            old(self).spec_mode() == GameMode::Playing,
        ensures
            final(self).wf(),
            final(self).spec_score() == old(self).spec_score(),
            final(self).spec_timer() == old(self).spec_timer(),
            old(self).spec_pair().spec_can_move_down(&old(self).spec_board()) ==> {
                &&& final(self).spec_mode() == GameMode::Playing
                &&& final(self).spec_chain() == old(self).spec_chain()
                &&& final(self).spec_board() == old(self).spec_board()
                &&& final(self).has_pair()
                &&& final(self).spec_pair() == spec_moved_down(old(self).spec_pair())
            },
            !old(self).spec_pair().spec_can_move_down(&old(self).spec_board()) ==> {
                &&& final(self).spec_mode() == GameMode::Checking
                &&& !final(self).has_pair()
                &&& final(self).spec_chain() == 0
                &&& final(self).spec_board().wf()
                &&& final(self).spec_board().spec_cols() == old(self).spec_board().spec_cols()
                &&& final(self).spec_board().spec_rows() == old(self).spec_board().spec_rows()
                &&& forall|i: int, j: int|
                    old(self).spec_board().in_bounds(i, j) ==> #[trigger] final(self).spec_board().cell_at(i, j) == (
                    if i == old(self).spec_pair().child_x && j == old(self).spec_pair().child_y {
                        Cell::Filled(old(self).spec_pair().child_color)
                    } else if i == old(self).spec_pair().axis_x && j == old(self).spec_pair().axis_y {
                        Cell::Filled(old(self).spec_pair().axis_color)
                    } else {
                        old(self).spec_board().cell_at(i, j)
                    })
            },
    {
        let can_fall: bool = match (&self.current_pair, &self.board) {
            (Some(pair), Some(board)) => pair.can_move_down(board),
            _ => false,
        };
        if can_fall {
            if let Some(ref mut pair) = self.current_pair {
                pair.move_down();
            }
        } else {
            self.land_pair();
        }
    }
}

/// One resolution pass: finds every erasable cell, and when any exist,
/// erases them all. Returns how many cells were erased; cascading is the
/// session's responsibility.
pub fn resolve_once(board: &mut Board) -> (count: usize)
    requires
        old(board).wf(),
    ensures
        final(board).wf(),
        final(board).spec_cols() == old(board).spec_cols(),
        final(board).spec_rows() == old(board).spec_rows(),
        forall|i: int, j: int|
            old(board).in_bounds(i, j) ==> #[trigger] final(board).cell_at(i, j) == (
            if has_big_group(old(board), (i as usize, j as usize)) {
                Cell::Empty
            } else {
                old(board).cell_at(i, j)
            }),
        exists|ps: Seq<(usize, usize)>|
            {
                &&& ps.no_duplicates()
                &&& (forall|t: (usize, usize)| #[trigger] ps.contains(t) <==> has_big_group(
                    old(board),
                    t,
                ))
                &&& count == ps.len()
            },
        (count == 0) == (forall|t: (usize, usize)| !has_big_group(old(board), t)),
{
    let positions = board.check_erase();
    if positions.len() == 0 {
        proof {
            assert forall|t: (usize, usize)| !has_big_group(board, t) by {
                if has_big_group(board, t) {
                    assert(positions@.contains(t));
                }
            }
            assert(forall|i: int, j: int|
                old(board).in_bounds(i, j) ==> #[trigger] board.cell_at(i, j) == (
                if has_big_group(old(board), (i as usize, j as usize)) {
                    Cell::Empty
                } else {
                    old(board).cell_at(i, j)
                }));
        }
        0
    } else {
        let count = positions.len();
        board.erase_puyos(&positions);
        proof {
            assert(positions@.contains(positions@[0]));
            assert(has_big_group(old(board), positions@[0]));
        }
        count
    }
}

/// Relies on `rand::rng` and `rand::Rng::random_range`: a number drawn
/// from the non-empty range `0..4`, so the result is below 4.
#[verifier::external_body]
fn random_color_index() -> (r: u32)
    ensures
        r < 4,
{
    let mut rng = rand::rng();
    rand::Rng::random_range(&mut rng, 0..4)
}

/// One of the four colors, drawn at random for a fresh pair.
fn random_color() -> (c: PuyoColor) {
    match random_color_index() {
        0 => PuyoColor::Red,
        1 => PuyoColor::Blue,
        2 => PuyoColor::Green,
        _ => PuyoColor::Yellow,
    }
}

impl Default for Game {
    /// The same fresh session as `Game::new`.
    fn default() -> (g: Game)
        ensures
            g.wf(),
            g.spec_mode() == GameMode::Start,
            g.spec_score() == 0,
            g.spec_chain() == 0,
            g.spec_timer() == 0,
            !g.has_pair(),
    {
        Game::new()
    }
}

} // verus!
