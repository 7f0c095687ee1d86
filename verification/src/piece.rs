//! The seven pieces, the piece in play, and the checks that guard its moves.

use crate::board::{Board, Cell, HEIGHT, WIDTH};
use rand::rng;
use rand::seq::SliceRandom;
use vstd::prelude::*;

verus! {

/// The seven piece variants.
#[derive(Copy, Clone, PartialEq, Eq, Structural, Debug)]
pub enum PieceType {
    I,
    O,
    T,
    S,
    Z,
    J,
    L,
}

/// The four cells of a variant at its spawn rotation, as (column, row)
/// displacements from the piece's origin.
pub open spec fn catalog_shape(kind: PieceType) -> Seq<(int, int)> {
    match kind {
        PieceType::I => seq![(-2, 0), (-1, 0), (0, 0), (1, 0)],
        PieceType::O => seq![(0, 0), (1, 0), (0, 1), (1, 1)],
        PieceType::T => seq![(-1, 0), (0, 0), (1, 0), (0, -1)],
        PieceType::S => seq![(0, 0), (1, 0), (0, -1), (-1, -1)],
        PieceType::Z => seq![(0, 0), (-1, 0), (0, -1), (1, -1)],
        PieceType::J => seq![(-1, 0), (0, 0), (1, 0), (1, -1)],
        PieceType::L => seq![(-1, 0), (0, 0), (1, 0), (-1, -1)],
    }
}

/// A quarter turn of one displacement about the origin.
pub open spec fn rotate_offset(o: (int, int)) -> (int, int) {
    (-o.1, o.0)
}

/// A quarter turn of every displacement of a shape.
pub open spec fn rotate_offsets(s: Seq<(int, int)>) -> Seq<(int, int)> {
    Seq::new(s.len(), |i: int| rotate_offset(s[i]))
}

/// `n` quarter turns of a shape.
pub open spec fn rotate_times(s: Seq<(int, int)>, n: nat) -> Seq<(int, int)>
    decreases n,
{
    if n == 0 {
        s
    } else {
        rotate_offsets(rotate_times(s, (n - 1) as nat))
    }
}

/// Whether `offsets` is the catalog shape of `kind` in one of its four
/// orientations.
pub open spec fn is_orientation(kind: PieceType, offsets: Seq<(int, int)>) -> bool {
    exists|n: nat| n < 4 && offsets == #[trigger] rotate_times(catalog_shape(kind), n)
}

/// No cell of a shape is more than two steps from the origin in either
/// direction.
pub open spec fn within_reach(s: Seq<(int, int)>) -> bool {
    forall|i: int| 0 <= i < s.len() ==> -2 <= (#[trigger] s[i]).0 <= 2 && -2 <= s[i].1 <= 2
}

/// The displacements of a stored shape as mathematical integers.
pub open spec fn offsets_of(s: Seq<(i32, i32)>) -> Seq<(int, int)> {
    Seq::new(s.len(), |i: int| (s[i].0 as int, s[i].1 as int))
}

/// What a piece is: its variant, its current shape and where its origin
/// stands on the board.
pub struct PieceView {
    pub kind: PieceType,
    pub offsets: Seq<(int, int)>,
    pub x: int,
    pub y: int,
}

impl PieceView {
    /// Board column of the `i`-th cell.
    pub open spec fn col(self, i: int) -> int {
        self.x + self.offsets[i].0
    }

    /// Board row of the `i`-th cell; negative while the cell is above the
    /// visible top.
    pub open spec fn row(self, i: int) -> int {
        self.y + self.offsets[i].1
    }

    /// A piece in play has the shape of its variant in one of the four
    /// orientations, no cell outside the side walls or below the floor, and
    /// an origin that has not risen above the spawn row.
    pub open spec fn wf(self) -> bool {
        &&& is_orientation(self.kind, self.offsets)
        &&& self.y >= -2
        &&& forall|i: int|
            0 <= i < self.offsets.len() ==> 0 <= #[trigger] self.col(i) < WIDTH && self.row(i)
                < HEIGHT
    }

    /// Whether one of the cells stands at (`row`, `col`).
    pub open spec fn covers(self, row: int, col: int) -> bool {
        exists|i: int|
            0 <= i < self.offsets.len() && #[trigger] self.row(i) == row && self.col(i) == col
    }

    /// The piece one row further down.
    pub open spec fn moved_down(self) -> PieceView {
        PieceView { y: self.y + 1, ..self }
    }

    /// The piece `dx` columns to the right (to the left for a negative `dx`).
    pub open spec fn moved_lateral(self, dx: int) -> PieceView {
        PieceView { x: self.x + dx, ..self }
    }

    /// The piece after a quarter turn about its origin.
    pub open spec fn rotated(self) -> PieceView {
        PieceView { offsets: rotate_offsets(self.offsets), ..self }
    }

    /// The row that the `i`-th cell would fall into, taken as row 0 while it
    /// is still above the board.
    pub open spec fn row_below(self, i: int) -> int {
        if self.row(i) + 1 > 0 {
            self.row(i) + 1
        } else {
            0
        }
    }

    /// The `i`-th cell cannot fall: it would leave the board through the
    /// floor or land on a block.
    pub open spec fn blocked_below(self, g: Seq<Seq<Cell>>, i: int) -> bool {
        self.row_below(i) >= HEIGHT || g[self.row_below(i)][self.col(i)].is_some()
    }

    /// Every cell can fall by one row.
    pub open spec fn can_move_down(self, g: Seq<Seq<Cell>>) -> bool {
        forall|i: int| 0 <= i < self.offsets.len() ==> !#[trigger] self.blocked_below(g, i)
    }

    /// The `i`-th cell cannot shift by `dx` columns: it would leave the board
    /// through a side wall or, if it is on the board, land on a block.
    pub open spec fn blocked_beside(self, g: Seq<Seq<Cell>>, dx: int, i: int) -> bool {
        ||| self.col(i) + dx < 0
        ||| self.col(i) + dx >= WIDTH
        ||| (self.row(i) >= 0 && g[self.row(i)][self.col(i) + dx].is_some())
    }

    /// Every cell can shift by `dx` columns.
    pub open spec fn can_move_lateral(self, g: Seq<Seq<Cell>>, dx: int) -> bool {
        forall|i: int| 0 <= i < self.offsets.len() ==> !#[trigger] self.blocked_beside(g, dx, i)
    }

    /// The `i`-th cell cannot take its place after a quarter turn: that place
    /// is off the board, above the top included, or holds a block.
    pub open spec fn blocked_turning(self, g: Seq<Seq<Cell>>, i: int) -> bool {
        let turned = self.rotated();
        ||| turned.col(i) < 0
        ||| turned.col(i) >= WIDTH
        ||| turned.row(i) < 0
        ||| turned.row(i) >= HEIGHT
        ||| g[turned.row(i)][turned.col(i)].is_some()
    }

    /// The piece is not the square, and every cell can take its place after
    /// a quarter turn.
    pub open spec fn can_rotate(self, g: Seq<Seq<Cell>>) -> bool {
        &&& self.kind != PieceType::O
        &&& forall|i: int| 0 <= i < self.offsets.len() ==> !#[trigger] self.blocked_turning(g, i)
    }
}

/// A freshly spawned piece of the given variant: catalog shape, origin at
/// column 5, two rows above the top.
pub open spec fn spawn_view(kind: PieceType) -> PieceView {
    PieceView { kind, offsets: catalog_shape(kind), x: 5, y: -2 }
}

/// The seven variants, in the order in which a fresh bag is written down.
pub open spec fn all_kinds() -> Seq<PieceType> {
    seq![
        PieceType::I,
        PieceType::O,
        PieceType::T,
        PieceType::S,
        PieceType::Z,
        PieceType::J,
        PieceType::L,
    ]
}

/// A full bag holds each of the seven variants exactly once, in any order.
pub open spec fn is_full_bag(bag: Seq<PieceType>) -> bool {
    &&& bag.len() == 7
    &&& bag.no_duplicates()
    &&& forall|k: PieceType| #[trigger] bag.contains(k)
}

impl PieceType {
    /// The catalog shape of this variant.
    pub fn shape(&self) -> (v: Vec<(i32, i32)>)
        ensures
            offsets_of(v@) == catalog_shape(*self),
    {
        let v: Vec<(i32, i32)> = match self {
            PieceType::I => vec![(-2, 0), (-1, 0), (0, 0), (1, 0)],
            PieceType::O => vec![(0, 0), (1, 0), (0, 1), (1, 1)],
            PieceType::T => vec![(-1, 0), (0, 0), (1, 0), (0, -1)],
            PieceType::S => vec![(0, 0), (1, 0), (0, -1), (-1, -1)],
            PieceType::Z => vec![(0, 0), (-1, 0), (0, -1), (1, -1)],
            PieceType::J => vec![(-1, 0), (0, 0), (1, 0), (1, -1)],
            PieceType::L => vec![(-1, 0), (0, 0), (1, 0), (-1, -1)],
        };
        assert(offsets_of(v@) =~= catalog_shape(*self));
        v
    }
}

/// The piece in play.
pub struct Piece {
    piece_type: PieceType,
    shape: Vec<(i32, i32)>,
    x: i32,
    y: i32,
}

impl View for Piece {
    type V = PieceView;

    closed spec fn view(&self) -> PieceView {
        PieceView {
            kind: self.piece_type,
            offsets: offsets_of(self.shape@),
            x: self.x as int,
            y: self.y as int,
        }
    }
}

impl Piece {
    /// Every piece that this library hands out is a piece in play.
    pub open spec fn wf(&self) -> bool {
        self@.wf()
    }

    /// The variant of the piece.
    pub fn piece_type(&self) -> (kind: PieceType)
        ensures
            kind == self@.kind,
    {
        self.piece_type
    }

    /// The current shape: the displacement of each cell from the origin.
    pub fn shape(&self) -> (shape: &Vec<(i32, i32)>)
        ensures
            offsets_of(shape@) == self@.offsets,
    {
        &self.shape
    }

    /// Board column of the origin.
    pub fn x(&self) -> (x: i32)
        ensures
            x == self@.x,
    {
        self.x
    }

    /// Board row of the origin.
    pub fn y(&self) -> (y: i32)
        ensures
            y == self@.y,
    {
        self.y
    }

    /// Board position of the `i`-th cell, as (column, row).
    pub fn block(&self, i: usize) -> (at: (i32, i32))
        requires
            self.wf(),
            i < 4,
        ensures
            at.0 == self@.col(i as int),
            at.1 == self@.row(i as int),
    {
        proof {
            lemma_piece_bounds(self@);
        }
        let (dx, dy) = self.shape[i];
        assert(self@.offsets[i as int] == (dx as int, dy as int));
        assert(0 <= self@.col(i as int) < WIDTH && self@.row(i as int) < HEIGHT);
        (dx + self.x, dy + self.y)
    }

    /// Whether one of the cells stands at (`row`, `col`).
    pub fn occupies(&self, row: usize, col: usize) -> (b: bool)
        requires
            self.wf(),
        ensures
            b == self@.covers(row as int, col as int),
    {
        proof {
            lemma_piece_bounds(self@);
        }
        let mut i: usize = 0;
        while i < 4
            invariant
                self.wf(),
                self@.offsets.len() == 4,
                i <= 4,
                forall|k: int|
                    0 <= k < i ==> !(#[trigger] self@.row(k) == row && self@.col(k) == col),
            decreases 4 - i,
        {
            let (px, py) = self.block(i);
            if px >= 0 && py >= 0 && px as usize == col && py as usize == row {
                assert(self@.row(i as int) == row && self@.col(i as int) == col);
                return true;
            }
            i += 1;
        }
        false
    }
}

/// A new piece of the given variant at the spawn position.
pub fn new_piece(piece_type: PieceType) -> (piece: Piece)
    ensures
        piece.wf(),
        piece@ == spawn_view(piece_type),
{
    let piece = Piece { piece_type, shape: piece_type.shape(), x: 5, y: -2 };
    proof {
        lemma_spawn_wf(piece_type);
    }
    piece
}

/// Moves the piece one row down. The caller has checked that there is room:
/// a successful `check_move_down_allowed` establishes the precondition.
pub fn move_down(piece: &mut Piece)
    requires
        old(piece).wf(),
        old(piece)@.moved_down().wf(),
    ensures
        final(piece).wf(),
        final(piece)@ == old(piece)@.moved_down(),
{
    proof {
        lemma_piece_bounds(piece@);
    }
    piece.y += 1;
}

/// Whether the piece can fall by one row: no cell would pass the floor or
/// land on a block. A cell still above the board is checked against row 0.
pub fn check_move_down_allowed(piece: &Piece, board: &Board) -> (allowed: bool)
    requires
        piece.wf(),
        board.wf(),
    ensures
        allowed == piece@.can_move_down(board@),
        !allowed <==> exists|i: int|
            0 <= i < piece@.offsets.len() && #[trigger] piece@.blocked_below(board@, i),
        allowed ==> piece@.moved_down().wf(),
{
    proof {
        lemma_piece_bounds(piece@);
    }
    let mut i: usize = 0;
    while i < piece.shape.len()
        invariant
            piece.wf(),
            board.wf(),
            piece@.offsets.len() == 4,
            within_reach(piece@.offsets),
            -2 <= piece@.x <= 11,
            -2 <= piece@.y <= 21,
            i <= piece@.offsets.len(),
            forall|k: int| 0 <= k < i ==> !#[trigger] piece@.blocked_below(board@, k),
        decreases piece@.offsets.len() - i,
    {
        let (dx, dy) = piece.shape[i];
        assert(piece@.offsets[i as int] == (dx as int, dy as int));
        assert(0 <= piece@.col(i as int) < WIDTH && piece@.row(i as int) < HEIGHT);
        let tmp_dy: i32 = dy + piece.y + 1;
        let next_dy: usize = if tmp_dy > 0 { tmp_dy as usize } else { 0 };
        let v_dx: usize = (dx + piece.x) as usize;
        if next_dy >= HEIGHT {
            assert(piece@.blocked_below(board@, i as int));
            return false;
        }
        if board.is_occupied(next_dy, v_dx) {
            assert(piece@.blocked_below(board@, i as int));
            return false;
        }
        i += 1;
    }
    assert forall|k: int| 0 <= k < piece@.offsets.len() implies {
        &&& 0 <= #[trigger] piece@.moved_down().col(k) < WIDTH
        &&& piece@.moved_down().row(k) < HEIGHT
    } by {
        assert(!piece@.blocked_below(board@, k));
    }
    true
}

/// Moves the piece `x` columns sideways. The caller has checked that there
/// is room: a successful `check_move_lat_allowed` establishes the
/// precondition.
pub fn move_lat(piece: &mut Piece, x: i32)
    requires
        old(piece).wf(),
        old(piece)@.moved_lateral(x as int).wf(),
    ensures
        final(piece).wf(),
        final(piece)@ == old(piece)@.moved_lateral(x as int),
{
    proof {
        lemma_piece_bounds(piece@);
        lemma_piece_bounds(piece@.moved_lateral(x as int));
    }
    piece.x += x;
}

/// Whether the piece can shift by `move_x` columns: no cell would pass a
/// side wall, and no cell that is on the board would land on a block. Cells
/// above the board are held to the walls only.
pub fn check_move_lat_allowed(piece: &Piece, board: &Board, move_x: i32) -> (allowed: bool)
    requires
        piece.wf(),
        board.wf(),
    ensures
        allowed == piece@.can_move_lateral(board@, move_x as int),
        !allowed <==> exists|i: int|
            0 <= i < piece@.offsets.len() && #[trigger] piece@.blocked_beside(
                board@,
                move_x as int,
                i,
            ),
        allowed ==> piece@.moved_lateral(move_x as int).wf(),
{
    proof {
        lemma_piece_bounds(piece@);
    }
    let mut i: usize = 0;
    while i < piece.shape.len()
        invariant
            piece.wf(),
            board.wf(),
            piece@.offsets.len() == 4,
            within_reach(piece@.offsets),
            -2 <= piece@.x <= 11,
            -2 <= piece@.y <= 21,
            i <= piece@.offsets.len(),
            forall|k: int|
                0 <= k < i ==> !#[trigger] piece@.blocked_beside(board@, move_x as int, k),
        decreases piece@.offsets.len() - i,
    {
        let (dx, dy) = piece.shape[i];
        assert(piece@.offsets[i as int] == (dx as int, dy as int));
        assert(0 <= piece@.col(i as int) < WIDTH && piece@.row(i as int) < HEIGHT);
        let v_dy: i32 = dy + piece.y;
        let tmp_dx: i64 = (dx + piece.x) as i64 + move_x as i64;
        if tmp_dx < 0 || tmp_dx >= WIDTH as i64 {
            assert(piece@.blocked_beside(board@, move_x as int, i as int));
            return false;
        }
        let v_dx: usize = tmp_dx as usize;
        if v_dy >= 0 && board.is_occupied(v_dy as usize, v_dx) {
            assert(piece@.blocked_beside(board@, move_x as int, i as int));
            return false;
        }
        i += 1;
    }
    assert forall|k: int| 0 <= k < piece@.offsets.len() implies {
        &&& 0 <= #[trigger] piece@.moved_lateral(move_x as int).col(k) < WIDTH
        &&& piece@.moved_lateral(move_x as int).row(k) < HEIGHT
    } by {
        assert(!piece@.blocked_beside(board@, move_x as int, k));
    }
    true
}

/// Turns the piece by a quarter about its origin: every displacement
/// (dx, dy) becomes (-dy, dx). The caller has checked that there is room: a
/// successful `check_rotate_allowed` establishes the precondition.
pub fn rotate(piece: &mut Piece)
    requires
        old(piece).wf(),
        old(piece)@.rotated().wf(),
    ensures
        final(piece).wf(),
        final(piece)@ == old(piece)@.rotated(),
{
    proof {
        lemma_piece_bounds(piece@);
    }
    let mut i: usize = 0;
    while i < piece.shape.len()
        invariant
            old(piece).wf(),
            within_reach(old(piece)@.offsets),
            piece.piece_type == old(piece).piece_type,
            piece.x == old(piece).x,
            piece.y == old(piece).y,
            piece.shape@.len() == old(piece).shape@.len(),
            i <= piece.shape@.len(),
            forall|k: int|
                0 <= k < i ==> offsets_of(piece.shape@)[k] == rotate_offset(
                    #[trigger] old(piece)@.offsets[k],
                ),
            forall|k: int| i <= k < piece.shape@.len() ==> piece.shape@[k] == old(piece).shape@[k],
        decreases piece.shape@.len() - i,
    {
        let (dx, dy) = piece.shape[i];
        assert(old(piece)@.offsets[i as int] == (dx as int, dy as int));
        let new_dx: i32 = -dy;
        let new_dy: i32 = dx;
        piece.shape[i] = (new_dx, new_dy);
        i += 1;
    }
    assert(piece@.offsets =~= old(piece)@.rotated().offsets);
}

/// Whether the piece can turn by a quarter. The square never can. For the
/// others every cell's new place must lie on the board, the rows above the
/// top not included, and be empty.
pub fn check_rotate_allowed(piece: &Piece, board: &Board) -> (allowed: bool)
    requires
        piece.wf(),
        board.wf(),
    ensures
        allowed == piece@.can_rotate(board@),
        piece@.kind == PieceType::O ==> !allowed,
        piece@.kind != PieceType::O ==> (!allowed <==> exists|i: int|
            0 <= i < piece@.offsets.len() && #[trigger] piece@.blocked_turning(board@, i)),
        allowed ==> piece@.rotated().wf(),
{
    if piece.piece_type == PieceType::O {
        return false;
    }
    proof {
        lemma_piece_bounds(piece@);
    }
    let mut i: usize = 0;
    while i < piece.shape.len()
        invariant
            piece.wf(),
            board.wf(),
            piece@.offsets.len() == 4,
            within_reach(piece@.offsets),
            -2 <= piece@.x <= 11,
            -2 <= piece@.y <= 21,
            i <= piece@.offsets.len(),
            forall|k: int| 0 <= k < i ==> !#[trigger] piece@.blocked_turning(board@, k),
        decreases piece@.offsets.len() - i,
    {
        let (dx, dy) = piece.shape[i];
        assert(piece@.offsets[i as int] == (dx as int, dy as int));
        assert(0 <= piece@.col(i as int) < WIDTH && piece@.row(i as int) < HEIGHT);
        let new_dx: i32 = -dy;
        let new_dy: i32 = dx;
        let v_dx: i32 = new_dx + piece.x;
        let v_dy: i32 = new_dy + piece.y;
        if v_dx < 0 || v_dx >= WIDTH as i32 {
            assert(piece@.blocked_turning(board@, i as int));
            return false;
        }
        if v_dy < 0 || v_dy >= HEIGHT as i32 {
            assert(piece@.blocked_turning(board@, i as int));
            return false;
        }
        if board.is_occupied(v_dy as usize, v_dx as usize) {
            assert(piece@.blocked_turning(board@, i as int));
            return false;
        }
        i += 1;
    }
    proof {
        lemma_rotation_keeps_orientation(piece@.kind, piece@.offsets);
        assert forall|k: int| 0 <= k < piece@.rotated().offsets.len() implies {
            &&& 0 <= #[trigger] piece@.rotated().col(k) < WIDTH
            &&& piece@.rotated().row(k) < HEIGHT
        } by {
            assert(!piece@.blocked_turning(board@, k));
        }
    }
    true
}

/// A freshly spawned piece is a piece in play.
pub proof fn lemma_spawn_wf(kind: PieceType)
    ensures
        spawn_view(kind).wf(),
{
    let p = spawn_view(kind);
    assert(p.offsets == rotate_times(catalog_shape(kind), 0));
    assert forall|i: int| 0 <= i < p.offsets.len() implies 0 <= #[trigger] p.col(i) < WIDTH
        && p.row(i) < HEIGHT by {
        lemma_orientation_shape(kind, p.offsets);
        assert(within_reach(p.offsets));
        assert(-2 <= p.offsets[i].0 <= 2);
    }
}

/// Four quarter turns bring every shape back to where it was.
pub proof fn lemma_four_rotations_identity(s: Seq<(int, int)>)
    ensures
        rotate_offsets(rotate_offsets(rotate_offsets(rotate_offsets(s)))) == s,
        rotate_times(s, 4) == s,
{
    let once = rotate_offsets(s);
    let twice = rotate_offsets(once);
    let thrice = rotate_offsets(twice);
    assert(rotate_offsets(thrice) =~= s);
    assert(rotate_times(s, 4) == rotate_offsets(thrice)) by {
        reveal_with_fuel(rotate_times, 5);
    }
}

/// Four quarter turns bring every piece back to where it was: same shape,
/// same origin.
pub proof fn lemma_four_turns_restore(p: PieceView)
    ensures
        p.rotated().rotated().rotated().rotated() == p,
{
    lemma_four_rotations_identity(p.offsets);
}

/// The square never turns, whatever the board.
pub proof fn lemma_square_never_turns(p: PieceView, g: Seq<Seq<Cell>>)
    requires
        p.kind == PieceType::O,
    ensures
        !p.can_rotate(g),
{
}

/// A quarter turn keeps the number of cells and their distance from the
/// origin.
proof fn lemma_rotation_within_reach(s: Seq<(int, int)>)
    requires
        within_reach(s),
    ensures
        within_reach(rotate_offsets(s)),
        rotate_offsets(s).len() == s.len(),
{
    assert forall|i: int| 0 <= i < rotate_offsets(s).len() implies -2 <= (#[trigger] rotate_offsets(
        s,
    )[i]).0 <= 2 && -2 <= rotate_offsets(s)[i].1 <= 2 by {
        assert(rotate_offsets(s)[i] == rotate_offset(s[i]));
    }
}

/// Every orientation of a catalog shape has four cells within reach.
proof fn lemma_turned_catalog_within_reach(kind: PieceType, n: nat)
    ensures
        rotate_times(catalog_shape(kind), n).len() == 4,
        within_reach(rotate_times(catalog_shape(kind), n)),
    decreases n,
{
    if n > 0 {
        lemma_turned_catalog_within_reach(kind, (n - 1) as nat);
        lemma_rotation_within_reach(rotate_times(catalog_shape(kind), (n - 1) as nat));
    }
}

/// A piece in one of its orientations has four cells, each within two steps
/// of the origin.
pub proof fn lemma_orientation_shape(kind: PieceType, offsets: Seq<(int, int)>)
    requires
        is_orientation(kind, offsets),
    ensures
        offsets.len() == 4,
        within_reach(offsets),
{
    let n = choose|n: nat| n < 4 && offsets == #[trigger] rotate_times(catalog_shape(kind), n);
    lemma_turned_catalog_within_reach(kind, n);
}

/// A quarter turn of an orientation is an orientation again.
pub proof fn lemma_rotation_keeps_orientation(kind: PieceType, offsets: Seq<(int, int)>)
    requires
        is_orientation(kind, offsets),
    ensures
        is_orientation(kind, rotate_offsets(offsets)),
{
    let n = choose|n: nat| n < 4 && offsets == #[trigger] rotate_times(catalog_shape(kind), n);
    if n < 3 {
        assert(rotate_offsets(offsets) == rotate_times(catalog_shape(kind), n + 1));
    } else {
        lemma_four_rotations_identity(catalog_shape(kind));
        assert(rotate_times(catalog_shape(kind), 4) == rotate_offsets(offsets));
        assert(rotate_offsets(offsets) == rotate_times(catalog_shape(kind), 0));
    }
}

/// A piece in play has four cells within reach of its origin, and the origin
/// is never far from the board.
pub proof fn lemma_piece_bounds(p: PieceView)
    requires
        p.wf(),
    ensures
        p.offsets.len() == 4,
        within_reach(p.offsets),
        -2 <= p.x <= 11,
        -2 <= p.y <= 21,
{
    lemma_orientation_shape(p.kind, p.offsets);
    assert(0 <= p.col(0) < WIDTH);
    assert(p.row(0) < HEIGHT);
}

/// Shuffles the bag in place with `rand::seq::SliceRandom::shuffle`, drawing
/// from the thread-local generator that `rand::rng` returns. Trusted, not
/// proved: the shuffle only swaps items of the slice, so the bag afterwards
/// holds the same items as before, each as often as before. Nothing is
/// claimed of their order. `rand::rng` panics if the operating system cannot
/// seed the generator.
#[verifier::external_body]
fn shuffle(bag: &mut Vec<PieceType>)
    ensures
        final(bag)@.to_multiset() == old(bag)@.to_multiset(),
{
    bag.shuffle(&mut rng());
}

/// A fresh bag: the seven variants, each once, in random order.
pub fn generate_bag() -> (bag: Vec<PieceType>)
    ensures
        is_full_bag(bag@),
{
    let mut bag = vec![
        PieceType::I,
        PieceType::O,
        PieceType::T,
        PieceType::S,
        PieceType::Z,
        PieceType::J,
        PieceType::L,
    ];
    let ghost sorted = bag@;
    assert(sorted =~= all_kinds());
    shuffle(&mut bag);
    proof {
        lemma_same_items_full_bag(sorted, bag@);
    }
    bag
}

/// Takes the next piece from the end of the bag. A bag that this empties is
/// to be replaced by a fresh one before the next draw.
pub fn draw(bag: &mut Vec<PieceType>) -> (kind: PieceType)
    requires
        old(bag)@.len() > 0,
    ensures
        kind == old(bag)@.last(),
        final(bag)@ == old(bag)@.drop_last(),
{
    let kind = bag[bag.len() - 1];
    bag.pop();
    assert(bag@ =~= old(bag)@.drop_last());
    kind
}

/// The seven variants as written down form a full bag.
pub proof fn lemma_all_kinds_full_bag()
    ensures
        is_full_bag(all_kinds()),
{
    let s = all_kinds();
    assert forall|k: PieceType| #[trigger] s.contains(k) by {
        match k {
            PieceType::I => assert(s[0] == k),
            PieceType::O => assert(s[1] == k),
            PieceType::T => assert(s[2] == k),
            PieceType::S => assert(s[3] == k),
            PieceType::Z => assert(s[4] == k),
            PieceType::J => assert(s[5] == k),
            PieceType::L => assert(s[6] == k),
        }
    }
}

/// A rearrangement of the seven variants is a full bag.
proof fn lemma_same_items_full_bag(sorted: Seq<PieceType>, bag: Seq<PieceType>)
    requires
        sorted == all_kinds(),
        bag.to_multiset() == sorted.to_multiset(),
    ensures
        is_full_bag(bag),
{
    lemma_all_kinds_full_bag();
    assert(bag.len() == 7) by {
        vstd::seq_lib::to_multiset_len(sorted);
        vstd::seq_lib::to_multiset_len(bag);
    }
    assert(bag.no_duplicates()) by {
        sorted.lemma_multiset_has_no_duplicates();
        bag.lemma_multiset_has_no_duplicates_conv();
    }
    assert forall|k: PieceType| #[trigger] bag.contains(k) by {
        assert(sorted.contains(k));
        vstd::seq_lib::to_multiset_contains(sorted, k);
        vstd::seq_lib::to_multiset_contains(bag, k);
    }
}

} // verus!
