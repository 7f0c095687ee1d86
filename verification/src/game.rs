//! A session of the game: the board, the piece in play, the bag of pieces to
//! come and the score, with the rules that lock a piece, clear rows and keep
//! the score.

use crate::board::{
    cleared, empty_grid, full_row_count, grid_wf, has_gap, lemma_cleared_has_no_full_row, Board,
    Cell, HEIGHT, SHAPE, WIDTH,
};
use crate::piece::{
    all_kinds, check_move_down_allowed, check_move_lat_allowed, check_rotate_allowed, draw,
    generate_bag, is_full_bag, lemma_all_kinds_full_bag, lemma_piece_bounds, move_down, move_lat,
    new_piece, rotate, spawn_view, Piece, PieceType, PieceView,
};
use vstd::prelude::*;

verus! {

/// Points for clearing `lines` rows at once while on `level`.
pub open spec fn points(lines: nat, level: nat) -> nat {
    if lines == 1 {
        100 * level
    } else if lines == 2 {
        300 * level
    } else if lines == 3 {
        500 * level
    } else if lines == 4 {
        800 * level
    } else {
        0
    }
}

/// The level reached with `completed_lines` rows cleared in all.
pub open spec fn level_of(completed_lines: nat) -> nat {
    completed_lines / 10
}

/// Milliseconds between two steps of gravity on `level`.
pub open spec fn fall_delay_ms(level: nat) -> nat {
    if level == 0 {
        800
    } else if level == 1 {
        716
    } else if level == 2 {
        633
    } else if level == 3 {
        550
    } else if level == 4 {
        466
    } else if level == 5 {
        383
    } else if level == 6 {
        300
    } else if level == 7 {
        216
    } else if level == 8 {
        133
    } else {
        100
    }
}

/// A bag in use is never empty and holds no variant twice.
pub open spec fn bag_wf(bag: Seq<PieceType>) -> bool {
    &&& 1 <= bag.len() <= 7
    &&& bag.no_duplicates()
}

/// The grid with every cell of `p` that is on the board filled; all other
/// cells as in `g`.
pub open spec fn locked_grid(g: Seq<Seq<Cell>>, p: PieceView) -> Seq<Seq<Cell>> {
    Seq::new(
        HEIGHT as nat,
        |r: int|
            Seq::new(
                WIDTH as nat,
                |c: int|
                    if p.covers(r, c) {
                        Some(SHAPE)
                    } else {
                        g[r][c]
                    },
            ),
    )
}

/// A piece that locks with a cell in the top row or above it ends the game.
pub open spec fn tops_out(p: PieceView) -> bool {
    exists|i: int| 0 <= i < p.offsets.len() && #[trigger] p.row(i) <= 0
}

/// Whether one of the first `n` cells of `p` stands at (`row`, `col`).
spec fn covered_by_first(p: PieceView, n: int, row: int, col: int) -> bool {
    exists|i: int| 0 <= i < n && #[trigger] p.row(i) == row && p.col(i) == col
}

/// `locked_grid` with the first `n` cells of `p` only.
spec fn locked_first(g: Seq<Seq<Cell>>, p: PieceView, n: int) -> Seq<Seq<Cell>> {
    Seq::new(
        HEIGHT as nat,
        |r: int|
            Seq::new(
                WIDTH as nat,
                |c: int|
                    if covered_by_first(p, n, r, c) {
                        Some(SHAPE)
                    } else {
                        g[r][c]
                    },
            ),
    )
}

/// `tops_out` with the first `n` cells of `p` only.
spec fn tops_out_first(p: PieceView, n: int) -> bool {
    exists|i: int| 0 <= i < n && #[trigger] p.row(i) <= 0
}

/// What a session is.
pub struct GameView {
    pub board: Seq<Seq<Cell>>,
    pub piece: PieceView,
    pub bag: Seq<PieceType>,
    pub is_over: bool,
    pub level: nat,
    pub score: nat,
    pub completed_lines: nat,
}

impl GameView {
    /// The board and the piece are well formed, the bag is in order, and the
    /// level is the one that the cleared rows give.
    pub open spec fn wf(self) -> bool {
        &&& grid_wf(self.board)
        &&& self.piece.wf()
        &&& bag_wf(self.bag)
        &&& self.level == level_of(self.completed_lines)
    }

    /// The session after the piece in play is locked into the board.
    pub open spec fn after_lock(self) -> GameView {
        GameView {
            board: locked_grid(self.board, self.piece),
            is_over: self.is_over || tops_out(self.piece),
            ..self
        }
    }

    /// Score and row count stay within the machine's integers when the full
    /// rows of the board are cleared.
    pub open spec fn scoring_fits(self) -> bool {
        let n = full_row_count(self.board);
        &&& self.score + points(n, self.level) <= usize::MAX
        &&& self.completed_lines + n <= usize::MAX
    }

    /// The session after the full rows are cleared and paid for: nothing
    /// changes where no row is full; otherwise the rows go, the points for
    /// them at the level held so far are added, and the level follows the
    /// new row count.
    pub open spec fn after_clear(self) -> GameView {
        let n = full_row_count(self.board);
        if n == 0 {
            self
        } else {
            GameView {
                board: cleared(self.board),
                score: self.score + points(n, self.level),
                completed_lines: self.completed_lines + n,
                level: level_of(self.completed_lines + n),
                ..self
            }
        }
    }

    /// The session after the next piece is drawn from the end of the bag,
    /// where `refill` replaces a bag that the draw has emptied.
    pub open spec fn after_spawn(self, refill: Seq<PieceType>) -> GameView {
        GameView {
            piece: spawn_view(self.bag.last()),
            bag: if self.bag.len() > 1 {
                self.bag.drop_last()
            } else {
                refill
            },
            ..self
        }
    }

    /// The session after one step of gravity: the piece falls by a row if it
    /// can; otherwise it is locked, the full rows are cleared and the next
    /// piece is drawn.
    pub open spec fn after_fall(self, refill: Seq<PieceType>) -> GameView {
        if self.piece.can_move_down(self.board) {
            GameView { piece: self.piece.moved_down(), ..self }
        } else {
            self.after_lock().after_clear().after_spawn(refill)
        }
    }

    /// Score and row count stay within the machine's integers through one
    /// step of gravity.
    pub open spec fn fall_fits(self) -> bool {
        !self.piece.can_move_down(self.board) ==> self.after_lock().scoring_fits()
    }

    /// The session after the player's input is applied. A move or a turn
    /// that the board does not allow changes nothing.
    pub open spec fn after_input(self, input: Input, refill: Seq<PieceType>) -> GameView {
        match input {
            Input::Left => if self.piece.can_move_lateral(self.board, -1) {
                GameView { piece: self.piece.moved_lateral(-1), ..self }
            } else {
                self
            },
            Input::Right => if self.piece.can_move_lateral(self.board, 1) {
                GameView { piece: self.piece.moved_lateral(1), ..self }
            } else {
                self
            },
            Input::Rotate => if self.piece.can_rotate(self.board) {
                GameView { piece: self.piece.rotated(), ..self }
            } else {
                self
            },
            Input::Down => self.after_fall(refill),
            Input::Quit => GameView { is_over: true, ..self },
            Input::Other => self,
        }
    }

    /// Whether the screen is to be drawn again after the input: after a move
    /// or a turn that took place, and after every soft drop.
    pub open spec fn redraws_on(self, input: Input) -> bool {
        match input {
            Input::Left => self.piece.can_move_lateral(self.board, -1),
            Input::Right => self.piece.can_move_lateral(self.board, 1),
            Input::Rotate => self.piece.can_rotate(self.board),
            Input::Down => true,
            Input::Quit => false,
            Input::Other => false,
        }
    }

    /// Score and row count stay within the machine's integers when the input
    /// is applied.
    pub open spec fn input_fits(self, input: Input) -> bool {
        input == Input::Down ==> self.fall_fits()
    }

    /// The session after the input of one turn of the loop, if there was any.
    pub open spec fn after_event(self, input: Option<Input>, refill: Seq<PieceType>) -> GameView {
        match input {
            Some(i) => self.after_input(i, refill),
            None => self,
        }
    }

    /// Whether gravity is due: the time since its last step has reached the
    /// delay of the current level.
    pub open spec fn gravity_due(self, elapsed_ms: nat) -> bool {
        elapsed_ms >= fall_delay_ms(self.level)
    }

    /// The session after one turn of the loop: the input is applied, then a
    /// step of gravity if one is due by then.
    pub open spec fn after_frame(
        self,
        input: Option<Input>,
        elapsed_ms: nat,
        refill: Seq<PieceType>,
        second_refill: Seq<PieceType>,
    ) -> GameView {
        let mid = self.after_event(input, refill);
        if mid.gravity_due(elapsed_ms) {
            mid.after_fall(second_refill)
        } else {
            mid
        }
    }

    /// What is shown at (`row`, `col`): a locked block with its own symbol,
    /// else the piece in play where it covers the cell, else nothing.
    pub open spec fn glyph(self, row: int, col: int) -> Glyph {
        match self.board[row][col] {
            Some(ch) => Glyph::Locked(ch),
            None => if self.piece.covers(row, col) {
                Glyph::Falling(SHAPE)
            } else {
                Glyph::Blank
            },
        }
    }

    /// Score and row count are so far from the machine's limit that no turn
    /// of the loop can reach it.
    pub open spec fn has_headroom(self) -> bool {
        &&& self.score + 1600 * self.level + 1600 <= usize::MAX
        &&& self.completed_lines + 2 * HEIGHT <= usize::MAX
    }
}

/// What the player can ask for.
#[derive(Copy, Clone, PartialEq, Eq, Structural, Debug)]
pub enum Input {
    /// Move the piece one column to the left.
    Left,
    /// Move the piece one column to the right.
    Right,
    /// Turn the piece by a quarter.
    Rotate,
    /// Soft drop: one step of gravity at once.
    Down,
    /// End the session.
    Quit,
    /// Anything else; it is ignored.
    Other,
}

/// What one cell of the screen shows.
#[derive(Copy, Clone, PartialEq, Eq, Structural, Debug)]
pub enum Glyph {
    /// A block locked into the board, with the symbol stored for it.
    Locked(char),
    /// A cell of the piece in play, with the symbol it is drawn with.
    Falling(char),
    /// Nothing.
    Blank,
}

/// What the driver does after a turn of the loop.
#[derive(Copy, Clone, PartialEq, Eq, Structural, Debug)]
pub struct Frame {
    /// Draw the screen again.
    pub redraw: bool,
    /// A step of gravity took place: measure the time to the next one from
    /// now.
    pub gravity_applied: bool,
    /// The game is over: leave the loop.
    pub finished: bool,
}

/// Gravity quickens with every level up to the ninth and never steps
/// faster than every 100 milliseconds.
pub proof fn lemma_fall_delay_decreases(level: nat, higher: nat)
    requires
        level < higher,
    ensures
        level < 9 ==> fall_delay_ms(level) > fall_delay_ms(higher),
        level >= 9 ==> fall_delay_ms(level) == fall_delay_ms(higher),
        fall_delay_ms(level) >= 100,
{
}

/// No clear earns more than 800 points per level.
proof fn lemma_points_bound(lines: nat, level: nat)
    ensures
        points(lines, level) <= 800 * level,
{
}

/// A grid of `HEIGHT` rows has at most `HEIGHT` full rows.
proof fn lemma_full_rows_bound(g: Seq<Seq<Cell>>)
    requires
        g.len() == HEIGHT,
    ensures
        full_row_count(g) <= HEIGHT,
{
    g.lemma_filter_len(has_gap());
}

/// A session with headroom meets what `clear_lines`, `apply_gravity`,
/// `handle_input` and `advance` ask of score and row count, whatever the
/// input and the time.
pub proof fn lemma_headroom_suffices(v: GameView, input: Option<Input>, elapsed_ms: nat)
    requires
        v.wf(),
        v.has_headroom(),
    ensures
        v.scoring_fits(),
        v.fall_fits(),
        forall|i: Input| #[trigger] v.input_fits(i),
        forall|refill: Seq<PieceType>|
            is_full_bag(refill) && (#[trigger] v.after_event(input, refill)).gravity_due(elapsed_ms)
                ==> v.after_event(input, refill).fall_fits(),
{
    lemma_full_rows_bound(v.board);
    lemma_points_bound(full_row_count(v.board), v.level);
    let locked = v.after_lock();
    lemma_full_rows_bound(locked.board);
    lemma_points_bound(full_row_count(locked.board), v.level);
    assert forall|refill: Seq<PieceType>| is_full_bag(refill) implies (#[trigger] v.after_event(
        input,
        refill,
    )).fall_fits() by {
        let mid = v.after_event(input, refill);
        let relocked = mid.after_lock();
        lemma_full_rows_bound(relocked.board);
        lemma_points_bound(full_row_count(relocked.board), mid.level);
        assert(mid.score <= v.score + 800 * v.level);
        assert(mid.completed_lines <= v.completed_lines + HEIGHT);
        assert(mid.level <= v.level + 2);
    }
}

/// A new session that draws its first piece from the end of `bag`.
pub open spec fn initial_view(bag: Seq<PieceType>) -> GameView {
    GameView {
        board: empty_grid(),
        piece: spawn_view(bag.last()),
        bag: bag.drop_last(),
        is_over: false,
        level: 0,
        score: 0,
        completed_lines: 0,
    }
}

/// A session of the game.
pub struct Game {
    board: Board,
    current_piece: Piece,
    bag: Vec<PieceType>,
    is_over: bool,
    level: usize,
    score: usize,
    completed_lines: usize,
}

impl View for Game {
    type V = GameView;

    closed spec fn view(&self) -> GameView {
        GameView {
            board: self.board@,
            piece: self.current_piece@,
            bag: self.bag@,
            is_over: self.is_over,
            level: self.level as nat,
            score: self.score as nat,
            completed_lines: self.completed_lines as nat,
        }
    }
}

impl Game {
    /// Every session that this library hands out is well formed.
    pub open spec fn wf(&self) -> bool {
        self@.wf()
    }

    /// A new session with a freshly shuffled bag: empty board, first piece
    /// drawn from the bag, level and score at zero.
    pub fn new() -> (game: Game)
        ensures
            game.wf(),
            exists|bag: Seq<PieceType>| is_full_bag(bag) && game@ == #[trigger] initial_view(bag),
    {
        Game::with_bag(generate_bag())
    }

    /// A new session that starts from the given full bag.
    pub fn with_bag(bag: Vec<PieceType>) -> (game: Game)
        requires
            is_full_bag(bag@),
        ensures
            game.wf(),
            game@ == initial_view(bag@),
    {
        let mut bag = bag;
        let first = draw(&mut bag);
        Game {
            board: Board::new(),
            current_piece: new_piece(first),
            bag,
            is_over: false,
            level: 0,
            score: 0,
            completed_lines: 0,
        }
    }

    /// A running session put together from its parts. The level is the one
    /// that `completed_lines` gives.
    pub fn from_parts(
        board: Board,
        current_piece: Piece,
        bag: Vec<PieceType>,
        score: usize,
        completed_lines: usize,
    ) -> (game: Game)
        requires
            board.wf(),
            current_piece.wf(),
            bag_wf(bag@),
        ensures
            game.wf(),
            game@ == (GameView {
                board: board@,
                piece: current_piece@,
                bag: bag@,
                is_over: false,
                level: level_of(completed_lines as nat),
                score: score as nat,
                completed_lines: completed_lines as nat,
            }),
    {
        Game {
            board,
            current_piece,
            bag,
            is_over: false,
            level: completed_lines / 10,
            score,
            completed_lines,
        }
    }

    /// The board.
    pub fn board(&self) -> (board: &Board)
        ensures
            board@ == self@.board,
    {
        &self.board
    }

    /// The piece in play.
    pub fn current_piece(&self) -> (piece: &Piece)
        ensures
            piece@ == self@.piece,
    {
        &self.current_piece
    }

    /// The pieces to come; the next one is the last item.
    pub fn bag(&self) -> (bag: &Vec<PieceType>)
        ensures
            bag@ == self@.bag,
    {
        &self.bag
    }

    /// Whether the game has ended.
    pub fn is_over(&self) -> (over: bool)
        ensures
            over == self@.is_over,
    {
        self.is_over
    }

    /// The current level.
    pub fn level(&self) -> (level: usize)
        ensures
            level == self@.level,
    {
        self.level
    }

    /// The score.
    pub fn score(&self) -> (score: usize)
        ensures
            score == self@.score,
    {
        self.score
    }

    /// The number of rows cleared so far.
    pub fn completed_lines(&self) -> (lines: usize)
        ensures
            lines == self@.completed_lines,
    {
        self.completed_lines
    }

    /// Whether score and row count are far enough from the machine's limit
    /// for any turn of the loop. `lemma_headroom_suffices` shows what this
    /// answers for.
    pub fn has_headroom(&self) -> (b: bool)
        ensures
            b == self@.has_headroom(),
    {
        let limit: u128 = usize::MAX as u128;
        self.score as u128 + 1600 * (self.level as u128) + 1600 <= limit
            && self.completed_lines as u128 + 2 * (HEIGHT as u128) <= limit
    }
}

/// Locks the piece in play: each of its cells that is on the board becomes a
/// block, and the game is over if any cell is in the top row or above it.
pub fn lock_piece(game: &mut Game)
    requires
        old(game).wf(),
    ensures
        final(game).wf(),
        final(game)@ == old(game)@.after_lock(),
{
    let mut i: usize = 0;
    proof {
        lemma_piece_bounds(game@.piece);
        assert(game.board@ =~~= locked_first(game@.board, game@.piece, 0));
    }
    while i < 4
        invariant
            old(game).wf(),
            old(game)@.piece.offsets.len() == 4,
            i <= 4,
            game.current_piece == old(game).current_piece,
            game.bag == old(game).bag,
            game.level == old(game).level,
            game.score == old(game).score,
            game.completed_lines == old(game).completed_lines,
            game.board@ == locked_first(old(game)@.board, old(game)@.piece, i as int),
            game.is_over == (old(game).is_over || tops_out_first(old(game)@.piece, i as int)),
        decreases 4 - i,
    {
        let (v_dx, v_dy) = game.current_piece.block(i);
        let ghost p = old(game)@.piece;
        let ghost g = old(game)@.board;
        assert(0 <= p.col(i as int) < WIDTH && p.row(i as int) < HEIGHT);
        if v_dy >= 0 {
            game.board.set(v_dy as usize, v_dx as usize, true);
        }
        if v_dy <= 0 {
            game.is_over = true;
        }
        proof {
            assert(p.row(i as int) == v_dy && p.col(i as int) == v_dx);
            assert forall|r: int, c: int|
                covered_by_first(p, i + 1, r, c) == (covered_by_first(p, i as int, r, c) || (r
                    == v_dy && c == v_dx)) by {
                if covered_by_first(p, i + 1, r, c) {
                    let k = choose|k: int|
                        0 <= k < i + 1 && #[trigger] p.row(k) == r && p.col(k) == c;
                    if k < i {
                        assert(covered_by_first(p, i as int, r, c));
                    }
                }
            }
            assert(game.board@ =~~= locked_first(g, p, i + 1));
            if tops_out_first(p, i + 1) {
                let k = choose|k: int| 0 <= k < i + 1 && #[trigger] p.row(k) <= 0;
                if k < i {
                    assert(tops_out_first(p, i as int));
                }
            }
        }
        i += 1;
    }
    proof {
        let p = old(game)@.piece;
        assert forall|r: int, c: int| covered_by_first(p, 4, r, c) == p.covers(r, c) by {}
        assert(game.board@ =~~= locked_grid(old(game)@.board, p));
    }
}

/// Draws the next piece with `allocate_piece_with`, shuffling a fresh bag
/// for it when the draw takes the last piece of the bag.
pub fn allocate_new_piece(game: &mut Game)
    requires
        old(game).wf(),
    ensures
        final(game).wf(),
        exists|refill: Seq<PieceType>|
            is_full_bag(refill) && final(game)@ == #[trigger] old(game)@.after_spawn(refill),
{
    let refill = if game.bag.len() == 1 {
        generate_bag()
    } else {
        proof {
            lemma_all_kinds_full_bag();
            assert(old(game)@.after_spawn(all_kinds()) == old(game)@.after_spawn(Seq::empty()));
        }
        Vec::new()
    };
    allocate_piece_with(game, refill);
}

/// Draws the next piece from the end of the bag and spawns it. If that
/// empties the bag, `refill` becomes the bag, so that a next piece is always
/// at hand.
pub fn allocate_piece_with(game: &mut Game, refill: Vec<PieceType>)
    requires
        old(game).wf(),
        old(game)@.bag.len() == 1 ==> is_full_bag(refill@),
    ensures
        final(game).wf(),
        final(game)@ == old(game)@.after_spawn(refill@),
{
    game.current_piece = new_piece(draw(&mut game.bag));
    if game.bag.is_empty() {
        game.bag = refill;
    }
}

/// Clears the full rows of the board and returns how many there were. If
/// there were any, adds the points that this many rows earn at the current
/// level, adds the rows to the count of completed lines, and sets the level
/// to a tenth of that count, rounded down.
pub fn clear_lines(game: &mut Game) -> (rows: usize)
    requires
        old(game).wf(),
        old(game)@.scoring_fits(),
    ensures
        final(game).wf(),
        final(game)@ == old(game)@.after_clear(),
        rows == full_row_count(old(game)@.board),
{
    proof {
        lemma_cleared_has_no_full_row(game@.board);
    }
    let completed_lines = game.board.clear_full_rows();
    if completed_lines == 0 {
        return 0;
    }
    game.score += compute_score(completed_lines, game.level);
    game.completed_lines += completed_lines;
    game.level = game.completed_lines / 10;
    completed_lines
}

/// The points for clearing `lines` rows at once on `level`: 100, 300, 500
/// or 800 times the level for one to four rows, nothing for any other count.
pub fn compute_score(lines: usize, level: usize) -> (score: usize)
    requires
        points(lines as nat, level as nat) <= usize::MAX,
    ensures
        score == points(lines as nat, level as nat),
{
    match lines {
        1 => 100 * level,
        2 => 300 * level,
        3 => 500 * level,
        4 => 800 * level,
        _ => 0,
    }
}

/// One step of gravity: the piece falls by a row if it can; otherwise it is
/// locked, the full rows are cleared and the next piece is drawn.
pub fn apply_gravity(game: &mut Game)
    requires
        old(game).wf(),
        old(game)@.fall_fits(),
    ensures
        final(game).wf(),
        exists|refill: Seq<PieceType>|
            is_full_bag(refill) && final(game)@ == #[trigger] old(game)@.after_fall(refill),
{
    if check_move_down_allowed(&game.current_piece, &game.board) {
        move_down(&mut game.current_piece);
        proof {
            lemma_all_kinds_full_bag();
            assert(game@ == old(game)@.after_fall(all_kinds()));
        }
    } else {
        lock_piece(game);
        clear_lines(game);
        let ghost cleared_up = game@;
        allocate_new_piece(game);
        proof {
            let refill = choose|refill: Seq<PieceType>|
                is_full_bag(refill) && game@ == #[trigger] cleared_up.after_spawn(refill);
            assert(game@ == old(game)@.after_fall(refill));
        }
    }
}

/// Applies the player's input and says whether the screen is to be drawn
/// again. A move or a turn takes place only if the board allows it; a soft
/// drop is a step of gravity; quitting ends the game.
pub fn handle_input(game: &mut Game, input: Input) -> (redraw: bool)
    requires
        old(game).wf(),
        old(game)@.input_fits(input),
    ensures
        final(game).wf(),
        redraw == old(game)@.redraws_on(input),
        exists|refill: Seq<PieceType>|
            is_full_bag(refill) && final(game)@ == #[trigger] old(game)@.after_input(input, refill),
{
    proof {
        lemma_all_kinds_full_bag();
    }
    match input {
        Input::Left => {
            if check_move_lat_allowed(&game.current_piece, &game.board, -1) {
                move_lat(&mut game.current_piece, -1);
                assert(game@ == old(game)@.after_input(input, all_kinds()));
                return true;
            }
        },
        Input::Right => {
            if check_move_lat_allowed(&game.current_piece, &game.board, 1) {
                move_lat(&mut game.current_piece, 1);
                assert(game@ == old(game)@.after_input(input, all_kinds()));
                return true;
            }
        },
        Input::Rotate => {
            if check_rotate_allowed(&game.current_piece, &game.board) {
                rotate(&mut game.current_piece);
                assert(game@ == old(game)@.after_input(input, all_kinds()));
                return true;
            }
        },
        Input::Down => {
            apply_gravity(game);
            proof {
                let refill = choose|refill: Seq<PieceType>|
                    is_full_bag(refill) && game@ == #[trigger] old(game)@.after_fall(refill);
                assert(game@ == old(game)@.after_input(input, refill));
            }
            return true;
        },
        Input::Quit => {
            game.is_over = true;
        },
        Input::Other => {},
    }
    assert(game@ == old(game)@.after_input(input, all_kinds()));
    false
}

/// One turn of the driver's loop: applies the input, if there was one, then
/// a step of gravity if `elapsed_ms`, the time since the last step, has
/// reached the delay of the level then current. The result tells the driver
/// whether to draw, whether to restart its clock and whether to stop.
pub fn advance(game: &mut Game, input: Option<Input>, elapsed_ms: u64) -> (frame: Frame)
    requires
        old(game).wf(),
        input matches Some(i) ==> old(game)@.input_fits(i),
        forall|refill: Seq<PieceType>|
            is_full_bag(refill) && (#[trigger] old(game)@.after_event(input, refill)).gravity_due(
                elapsed_ms as nat,
            ) ==> old(game)@.after_event(input, refill).fall_fits(),
    ensures
        final(game).wf(),
        frame.finished == final(game)@.is_over,
        exists|refill: Seq<PieceType>, second_refill: Seq<PieceType>|
            {
                &&& is_full_bag(refill)
                &&& is_full_bag(second_refill)
                &&& final(game)@ == #[trigger] old(game)@.after_frame(
                    input,
                    elapsed_ms as nat,
                    refill,
                    second_refill,
                )
                &&& frame.gravity_applied == old(game)@.after_event(input, refill).gravity_due(
                    elapsed_ms as nat,
                )
                &&& frame.redraw == (frame.gravity_applied || (input matches Some(i)
                    && old(game)@.redraws_on(i)))
            },
{
    proof {
        lemma_all_kinds_full_bag();
    }
    let mut redraw = match input {
        Some(i) => handle_input(game, i),
        None => false,
    };
    let ghost mid = game@;
    let ghost refill = if input is Some {
        choose|refill: Seq<PieceType>|
            is_full_bag(refill) && mid == #[trigger] old(game)@.after_input(input->0, refill)
    } else {
        all_kinds()
    };
    assert(mid == old(game)@.after_event(input, refill));
    let due = elapsed_ms >= fall_delay(game.level);
    if due {
        apply_gravity(game);
        redraw = true;
    }
    proof {
        let second_refill = if due {
            choose|second: Seq<PieceType>|
                is_full_bag(second) && game@ == #[trigger] mid.after_fall(second)
        } else {
            all_kinds()
        };
        assert(game@ == old(game)@.after_frame(input, elapsed_ms as nat, refill, second_refill));
    }
    Frame { redraw, gravity_applied: due, finished: game.is_over }
}

/// The picture of the board with the piece in play: row by row from the
/// top, what each cell shows.
pub fn render(game: &Game) -> (picture: Vec<Vec<Glyph>>)
    requires
        game.wf(),
    ensures
        picture@.len() == HEIGHT,
        forall|r: int| 0 <= r < HEIGHT ==> (#[trigger] picture@[r])@.len() == WIDTH,
        forall|r: int, c: int|
            0 <= r < HEIGHT && 0 <= c < WIDTH ==> (#[trigger] picture@[r]@[c]) == game@.glyph(r, c),
{
    let mut picture: Vec<Vec<Glyph>> = Vec::new();
    let mut y: usize = 0;
    while y < HEIGHT
        invariant
            game.wf(),
            y <= HEIGHT,
            picture@.len() == y,
            forall|r: int| 0 <= r < y ==> (#[trigger] picture@[r])@.len() == WIDTH,
            forall|r: int, c: int|
                0 <= r < y && 0 <= c < WIDTH ==> (#[trigger] picture@[r]@[c]) == game@.glyph(r, c),
        decreases HEIGHT - y,
    {
        let mut line: Vec<Glyph> = Vec::new();
        let mut x: usize = 0;
        while x < WIDTH
            invariant
                game.wf(),
                y < HEIGHT,
                x <= WIDTH,
                line@.len() == x,
                forall|c: int| 0 <= c < x ==> (#[trigger] line@[c]) == game@.glyph(y as int, c),
            decreases WIDTH - x,
        {
            line.push(render_cell(game, y, x));
            x += 1;
        }
        picture.push(line);
        y += 1;
    }
    picture
}

/// What the screen shows at (`row`, `col`).
pub fn render_cell(game: &Game, row: usize, col: usize) -> (glyph: Glyph)
    requires
        game.wf(),
        row < HEIGHT,
        col < WIDTH,
    ensures
        glyph == game@.glyph(row as int, col as int),
{
    match game.board.cell(row, col) {
        Some(ch) => Glyph::Locked(ch),
        None => {
            if game.current_piece.occupies(row, col) {
                Glyph::Falling(SHAPE)
            } else {
                Glyph::Blank
            }
        },
    }
}

/// The time between two steps of gravity on `level`, in milliseconds.
pub fn fall_delay(level: usize) -> (ms: u64)
    ensures
        ms == fall_delay_ms(level as nat),
{
    match level {
        0 => 800,
        1 => 716,
        2 => 633,
        3 => 550,
        4 => 466,
        5 => 383,
        6 => 300,
        7 => 216,
        8 => 133,
        _ => 100,
    }
}

} // verus!
