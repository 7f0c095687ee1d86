//! The playing field: a fixed grid of cells, each empty or holding a block.

use vstd::prelude::*;

verus! {

/// Number of columns of the grid.
pub const WIDTH: usize = 10;

/// Number of rows of the grid. Row 0 is the top row.
pub const HEIGHT: usize = 20;

/// The symbol stored in a cell that a locked piece fills.
pub const SHAPE: char = '\u{2588}';

/// A cell is empty (`None`) or holds the symbol it is drawn with.
pub type Cell = Option<char>;

/// A grid has exactly `HEIGHT` rows of exactly `WIDTH` cells.
pub open spec fn grid_wf(g: Seq<Seq<Cell>>) -> bool {
    &&& g.len() == HEIGHT
    &&& forall|r: int| 0 <= r < g.len() ==> (#[trigger] g[r]).len() == WIDTH
}

/// A row of `WIDTH` empty cells.
pub open spec fn empty_row() -> Seq<Cell> {
    Seq::new(WIDTH as nat, |c: int| None)
}

/// `n` empty rows.
pub open spec fn empty_rows(n: nat) -> Seq<Seq<Cell>> {
    Seq::new(n, |r: int| empty_row())
}

/// The grid in which every cell is empty.
pub open spec fn empty_grid() -> Seq<Seq<Cell>> {
    empty_rows(HEIGHT as nat)
}

/// A row is full when none of its cells is empty.
pub open spec fn row_full(row: Seq<Cell>) -> bool {
    forall|c: int| 0 <= c < row.len() ==> (#[trigger] row[c]).is_some()
}

/// The predicate "this row has at least one empty cell".
pub open spec fn has_gap() -> spec_fn(Seq<Cell>) -> bool {
    |row: Seq<Cell>| !row_full(row)
}

/// The rows that survive a clear: those with a gap, in the order they had.
pub open spec fn kept_rows(g: Seq<Seq<Cell>>) -> Seq<Seq<Cell>> {
    g.filter(has_gap())
}

/// How many rows of `g` are full.
pub open spec fn full_row_count(g: Seq<Seq<Cell>>) -> nat {
    (g.len() - kept_rows(g).len()) as nat
}

/// The grid after its full rows are removed and as many empty rows are put on
/// top.
pub open spec fn cleared(g: Seq<Seq<Cell>>) -> Seq<Seq<Cell>> {
    empty_rows(full_row_count(g)) + kept_rows(g)
}

/// The cell that `set` writes: a block when `filled`, nothing otherwise.
pub open spec fn cell_of(filled: bool) -> Cell {
    if filled {
        Some(SHAPE)
    } else {
        None
    }
}

/// `g` with the cell at (`row`, `col`) replaced by `cell`.
pub open spec fn with_cell(g: Seq<Seq<Cell>>, row: int, col: int, cell: Cell) -> Seq<Seq<Cell>> {
    g.update(row, g[row].update(col, cell))
}

/// Clearing keeps the dimensions of a grid: the result has `HEIGHT` rows and
/// every row has `WIDTH` cells.
pub proof fn lemma_cleared_keeps_dimensions(g: Seq<Seq<Cell>>)
    requires
        grid_wf(g),
    ensures
        grid_wf(cleared(g)),
        cleared(g).len() == g.len(),
        full_row_count(g) <= HEIGHT,
{
    let kept = kept_rows(g);
    g.lemma_filter_len(has_gap());
    assert forall|r: int| 0 <= r < cleared(g).len() implies (#[trigger] cleared(g)[r]).len()
        == WIDTH by {
        if r >= full_row_count(g) {
            let k = r - full_row_count(g);
            assert(cleared(g)[r] == kept[k]);
            assert(kept.contains(kept[k]));
            g.lemma_filter_contains_rev(has_gap(), kept[k]);
        }
    }
}

/// Clearing removes exactly the full rows: no row of the result is full, and
/// a grid without full rows is left as it is.
pub proof fn lemma_cleared_has_no_full_row(g: Seq<Seq<Cell>>)
    requires
        grid_wf(g),
    ensures
        forall|r: int| 0 <= r < cleared(g).len() ==> !row_full(#[trigger] cleared(g)[r]),
        full_row_count(g) == 0 ==> cleared(g) == g,
{
    let kept = kept_rows(g);
    g.lemma_filter_len(has_gap());
    assert forall|r: int| 0 <= r < cleared(g).len() implies !row_full(#[trigger] cleared(g)[r]) by {
        if r >= full_row_count(g) {
            let k = r - full_row_count(g);
            assert(cleared(g)[r] == kept[k]);
            g.lemma_filter_pred(has_gap(), k);
        } else {
            assert(cleared(g)[r] == empty_row());
            assert(empty_row()[0] == None::<char>);
        }
    }
    if full_row_count(g) == 0 {
        lemma_filter_full_length(g, has_gap());
        assert(cleared(g) =~= g);
    }
}

/// A filter that keeps as many items as there were keeps all of them.
proof fn lemma_filter_full_length<A>(s: Seq<A>, pred: spec_fn(A) -> bool)
    requires
        s.filter(pred).len() == s.len(),
    ensures
        s.filter(pred) == s,
    decreases s.len(),
{
    reveal(Seq::filter);
    if s.len() > 0 {
        s.drop_last().lemma_filter_len(pred);
        lemma_filter_full_length(s.drop_last(), pred);
        assert(s.drop_last().push(s.last()) =~= s);
    }
}

/// The grid of the game.
#[derive(Debug)]
pub struct Board {
    cells: Vec<Vec<Cell>>,
}

impl View for Board {
    type V = Seq<Seq<Cell>>;

    closed spec fn view(&self) -> Seq<Seq<Cell>> {
        self.cells@.map_values(|row: Vec<Cell>| row@)
    }
}

impl Board {
    /// Every board that this library hands out has the fixed dimensions.
    pub open spec fn wf(&self) -> bool {
        grid_wf(self@)
    }

    /// A board with every cell empty.
    pub fn new() -> (b: Board)
        ensures
            b.wf(),
            b@ == empty_grid(),
    {
        let b = Board { cells: vec![vec![None; WIDTH]; HEIGHT] };
        assert(b@ =~~= empty_grid());
        b
    }

    /// The content of the cell at (`row`, `col`).
    pub fn cell(&self, row: usize, col: usize) -> (c: Cell)
        requires
            self.wf(),
            row < HEIGHT,
            col < WIDTH,
        ensures
            c == self@[row as int][col as int],
    {
        assert(self.cells@[row as int]@ == self@[row as int]);
        self.cells[row][col]
    }

    /// Whether the cell at (`row`, `col`) holds a block.
    pub fn is_occupied(&self, row: usize, col: usize) -> (b: bool)
        requires
            self.wf(),
            row < HEIGHT,
            col < WIDTH,
        ensures
            b == self@[row as int][col as int].is_some(),
    {
        assert(self.cells@[row as int]@ == self@[row as int]);
        self.cells[row][col].is_some()
    }

    /// Fills or empties the cell at (`row`, `col`); every other cell stays.
    pub fn set(&mut self, row: usize, col: usize, filled: bool)
        requires
            old(self).wf(),
            row < HEIGHT,
            col < WIDTH,
        ensures
            final(self).wf(),
            final(self)@ == with_cell(old(self)@, row as int, col as int, cell_of(filled)),
    {
        let v: Cell = if filled { Some(SHAPE) } else { None };
        assert(self.cells@[row as int]@ == self@[row as int]);
        self.cells[row][col] = v;
        assert(self@ =~~= with_cell(old(self)@, row as int, col as int, cell_of(filled)));
    }

    /// Removes every full row, keeps the others in order, and puts as many
    /// empty rows on top as were removed. Returns how many rows were removed.
    pub fn clear_full_rows(&mut self) -> (count: usize)
        requires
            old(self).wf(),
        ensures
            final(self).wf(),
            final(self)@ == cleared(old(self)@),
            count == full_row_count(old(self)@),
            count <= HEIGHT,
    {
        let ghost before = self@;
        let mut i: usize = 0;
        let mut count: usize = 0;
        while i < self.cells.len()
            invariant
                grid_wf(before),
                i + count <= HEIGHT,
                self@.len() == HEIGHT - count,
                i <= self@.len(),
                self@.take(i as int) == before.take(i + count).filter(has_gap()),
                self@.skip(i as int) == before.skip(i + count),
            decreases self@.len() - i,
        {
            let ghost seen = before.take(i + count);
            let ghost row = before[i + count];
            proof {
                assert(self@.skip(i as int)[0] == row);
                assert(before.take(i + count + 1) =~= seen.push(row));
                seen.lemma_filter_push(row, has_gap());
            }
            if self.row_is_full_at(i) {
                let ghost prior = self@;
                self.cells.remove(i);
                count += 1;
                proof {
                    assert(self@ =~~= prior.remove(i as int));
                    assert(self@.take(i as int) =~= prior.take(i as int));
                    assert(self@.skip(i as int) =~= prior.skip(i as int).skip(1));
                    assert(before.skip(i + count) =~= before.skip(i + count - 1).skip(1));
                }
            } else {
                proof {
                    assert(self@.take(i + 1) =~= self@.take(i as int).push(row));
                    assert(self@.skip(i + 1) =~= self@.skip(i as int).skip(1));
                    assert(before.skip(i + count + 1) =~= before.skip(i + count).skip(1));
                }
                i += 1;
            }
        }
        proof {
            assert(self@.take(i as int) =~= self@);
            assert(before.take(i + count) =~= before);
            assert(self@ == kept_rows(before));
            lemma_cleared_keeps_dimensions(before);
        }
        let mut added: usize = 0;
        while added < count
            invariant
                grid_wf(before),
                added <= count,
                count == full_row_count(before),
                self@ == empty_rows(added as nat) + kept_rows(before),
            decreases count - added,
        {
            let ghost prior = self@;
            self.cells.insert(0, vec![None; WIDTH]);
            added += 1;
            proof {
                assert(self@ =~~= prior.insert(0, empty_row()));
                assert(self@ =~~= empty_rows(added as nat) + kept_rows(before));
            }
        }
        count
    }

    /// Whether row `row` has no empty cell. Asks only that the row exists, so
    /// that it can be called while a clear has rows removed.
    fn row_is_full_at(&self, row: usize) -> (b: bool)
        requires
            row < self@.len(),
        ensures
            b == row_full(self@[row as int]),
    {
        let cells = &self.cells[row];
        assert(cells@ == self@[row as int]);
        let mut col: usize = 0;
        while col < cells.len()
            invariant
                cells@ == self@[row as int],
                col <= cells@.len(),
                forall|c: int| 0 <= c < col ==> (#[trigger] cells@[c]).is_some(),
            decreases cells@.len() - col,
        {
            if cells[col].is_none() {
                return false;
            }
            col += 1;
        }
        true
    }
}

} // verus!
