use crate::boat::{fleet_view, Boat, BoatView};
use std::collections::hash_map::Entry;
use std::collections::HashMap;
use crate::cell::{Cell, CellView};
use crate::error::{OutOfBounds, PlacementError};
use crate::hittable::Hittable;
use crate::text::{digit_char, digit_str, push_repeated, repeat};
use vstd::prelude::*;
use vstd::string::StringExecFns;

verus! {

/// The mathematical value of a board: its cells, column by column, so that
/// `cells[x][y]` is the cell at `(x, y)`.
#[verifier::ext_equal]
pub struct BoardView {
    pub cells: Seq<Seq<CellView>>,
}

impl BoardView {
    /// The number of columns.
    pub open spec fn x_len(self) -> nat {
        self.cells.len()
    }

    /// The number of rows: the length of the first column, and zero on a
    /// board without columns.
    pub open spec fn y_len(self) -> nat {
        if self.cells.len() == 0 {
            0
        } else {
            self.cells[0].len()
        }
    }

    /// All columns have the same length, and both dimensions fit `u32`.
    pub open spec fn wf(self) -> bool {
        &&& forall|x: int| 0 <= x < self.cells.len() ==> (#[trigger] self.cells[x]).len() == self.y_len()
        &&& self.x_len() <= u32::MAX
        &&& self.y_len() <= u32::MAX
    }

    /// A board of `x_len` columns of `y_len` cells of open water.
    pub open spec fn blank(x_len: nat, y_len: nat) -> BoardView {
        BoardView { cells: Seq::new(x_len, |x: int| Seq::new(y_len, |y: int| CellView::blank())) }
    }

    /// `(x, y)` is a coordinate of the board.
    pub open spec fn in_bounds(self, x: int, y: int) -> bool {
        0 <= x < self.x_len() && 0 <= y < self.y_len()
    }

    /// The cell at `(x, y)`.
    pub open spec fn cell(self, x: int, y: int) -> CellView {
        self.cells[x][y]
    }

    /// `(x, y)` is a coordinate of the board and a boat piece lies there.
    pub open spec fn occupied(self, x: int, y: int) -> bool {
        self.in_bounds(x, y) && self.cell(x, y).occupied()
    }

    /// `(x, y)` is a coordinate of the board and was shot at.
    pub open spec fn attacked(self, x: int, y: int) -> bool {
        self.in_bounds(x, y) && self.cell(x, y).is_hit
    }

    /// The board after a shot at `(x, y)`; unchanged if that is no coordinate
    /// of the board.
    pub open spec fn hit(self, x: int, y: int) -> BoardView {
        if self.in_bounds(x, y) {
            BoardView {
                cells: self.cells.update(
                    x,
                    self.cells[x].update(y, self.cell(x, y).shot()),
                ),
            }
        } else {
            self
        }
    }

    /// The fleet after a shot at `(x, y)` on this board: the piece that the
    /// cell is linked to is hit, if the fleet has its boat; all else is as it
    /// was.
    pub open spec fn fleet_after_hit(
        self,
        boats: Map<u128, BoatView>,
        x: int,
        y: int,
    ) -> Map<u128, BoatView> {
        if !self.in_bounds(x, y) {
            boats
        } else {
            match self.cell(x, y).piece {
                Some(link) => if boats.contains_key(link.boat_id) {
                    boats.insert(link.boat_id, boats[link.boat_id].hit_piece(link.index as int))
                } else {
                    boats
                },
                None => boats,
            }
        }
    }

    /// The boat's rectangle lies inside the board.
    pub open spec fn fits(self, boat: BoatView) -> bool {
        boat.x + boat.x_len <= self.x_len() && boat.y + boat.y_len <= self.y_len()
    }

    /// `(cx, cy)` lies in the boat's rectangle or in the margin of one cell
    /// around it.
    pub open spec fn near(boat: BoatView, cx: int, cy: int) -> bool {
        &&& boat.x - 1 <= cx <= boat.x + boat.x_len
        &&& boat.y - 1 <= cy <= boat.y + boat.y_len
    }

    /// Some cell of the board in or next to the boat's rectangle is taken.
    pub open spec fn crowded(self, boat: BoatView) -> bool {
        exists|cx: int, cy: int| #[trigger] self.occupied(cx, cy) && Self::near(boat, cx, cy)
    }

    /// What the board answers to a request to place the boat where it is.
    pub open spec fn placement(self, boat: BoatView) -> Result<(), PlacementError> {
        if !self.fits(boat) {
            Err(PlacementError::OutOfBounds)
        } else if self.crowded(boat) {
            Err(PlacementError::Overlap)
        } else {
            Ok(())
        }
    }

    /// The numbers above the first `n` columns: for each a blank and the
    /// last decimal digit of the column's number.
    pub open spec fn column_numbers(n: nat) -> Seq<char>
        decreases n,
    {
        if n == 0 {
            Seq::empty()
        } else {
            Self::column_numbers((n - 1) as nat) + " "@ + seq![digit_char(((n - 1) % 10) as nat)]
        }
    }

    /// The pictures of the first `n` cells of row `y`.
    pub open spec fn row_cells(self, show_boats: bool, y: int, n: nat) -> Seq<char>
        decreases n,
    {
        if n == 0 {
            Seq::empty()
        } else {
            self.row_cells(show_boats, y, (n - 1) as nat) + self.cell(n - 1, y).glyph(show_boats)
        }
    }

    /// The line of row `y`: a line feed, the left border, the cells, the
    /// right border, a blank and the last decimal digit of the row's number.
    pub open spec fn row(self, show_boats: bool, y: int) -> Seq<char> {
        "\n│"@ + self.row_cells(show_boats, y, self.x_len()) + "│ "@ + seq![
            digit_char((y % 10) as nat),
        ]
    }

    /// The lines of the first `n` rows.
    pub open spec fn rows(self, show_boats: bool, n: nat) -> Seq<char>
        decreases n,
    {
        if n == 0 {
            Seq::empty()
        } else {
            self.rows(show_boats, (n - 1) as nat) + self.row(show_boats, n - 1)
        }
    }

    /// The horizontal border: two strokes per column.
    pub open spec fn border(self) -> Seq<char> {
        repeat("─"@, 2 * self.x_len())
    }

    /// The picture of the board: the column numbers, the top border, one
    /// line per row and the bottom border. Nothing ends the last line.
    pub open spec fn text(self, show_boats: bool) -> Seq<char> {
        " "@ + Self::column_numbers(self.x_len()) + "\n┌"@ + self.border() + "┐"@ + self.rows(
            show_boats,
            self.y_len(),
        ) + "\n└"@ + self.border() + "┘"@
    }

    /// The cell at `(cx, cy)` once it is linked to the boat's piece there.
    pub open spec fn linked_cell(self, boat: BoatView, cx: int, cy: int) -> CellView {
        self.cells[cx][cy].linked(boat.piece_ref(cx, cy))
    }

    /// The board with every cell of the boat's rectangle linked to the piece
    /// that lies on it.
    pub open spec fn with_boat(self, boat: BoatView) -> BoardView {
        BoardView {
            cells: Seq::new(
                self.cells.len(),
                |cx: int|
                    Seq::new(
                        self.cells[cx].len(),
                        |cy: int|
                            if boat.covers(cx, cy) {
                                self.linked_cell(boat, cx, cy)
                            } else {
                                self.cells[cx][cy]
                            },
                    ),
            ),
        }
    }
}

/// The number of free columns between the two boats' rectangles; zero or
/// less where the rectangles share a column or lie side by side.
pub open spec fn gap_x(a: BoatView, b: BoatView) -> int {
    if a.x + a.x_len <= b.x {
        b.x - (a.x + a.x_len)
    } else {
        a.x - (b.x + b.x_len)
    }
}

/// The number of free rows between the two boats' rectangles; zero or less
/// where the rectangles share a row or lie one above the other.
pub open spec fn gap_y(a: BoatView, b: BoatView) -> int {
    if a.y + a.y_len <= b.y {
        b.y - (a.y + a.y_len)
    } else {
        a.y - (b.y + b.y_len)
    }
}

/// At least one free column or one free row lies between the two boats'
/// rectangles: they share neither a cell nor an edge nor a corner.
pub open spec fn apart(a: BoatView, b: BoatView) -> bool {
    gap_x(a, b) >= 1 || gap_y(a, b) >= 1
}

/// A shot leaves the board's size, its links and all other cells as they
/// were, and marks the cell it lands on.
pub proof fn lemma_hit_frame(board: BoardView, x: int, y: int)
    requires
        board.wf(),
    ensures
        board.hit(x, y).wf(),
        board.hit(x, y).x_len() == board.x_len(),
        board.hit(x, y).y_len() == board.y_len(),
        forall|cx: int, cy: int| #[trigger]
            board.in_bounds(cx, cy) ==> {
                &&& board.hit(x, y).in_bounds(cx, cy)
                &&& board.hit(x, y).cell(cx, cy).piece == board.cell(cx, cy).piece
                &&& board.hit(x, y).cell(cx, cy).is_hit == (board.cell(cx, cy).is_hit || (cx == x
                    && cy == y))
            },
{
    let after = board.hit(x, y);
    if board.in_bounds(x, y) {
        assert(board.cells[0].len() == board.y_len());
        assert(board.cells[x].len() == board.y_len());
        assert forall|cx: int| 0 <= cx < after.cells.len() implies (#[trigger] after.cells[cx]).len()
            == after.y_len() by {
            assert(board.cells[cx].len() == board.y_len());
        }
        assert forall|cx: int, cy: int| #[trigger] board.in_bounds(cx, cy) implies {
            &&& after.in_bounds(cx, cy)
            &&& after.cell(cx, cy).piece == board.cell(cx, cy).piece
            &&& after.cell(cx, cy).is_hit == (board.cell(cx, cy).is_hit || (cx == x && cy == y))
        } by {
            assert(board.cells[cx].len() == board.y_len());
        }
    }
}

/// A second shot at a cell changes nothing and gets the answer of the first:
/// shooting is idempotent.
pub proof fn lemma_hit_twice(board: BoardView, x: int, y: int)
    requires
        board.wf(),
    ensures
        board.hit(x, y).hit(x, y) == board.hit(x, y),
        board.hit(x, y).in_bounds(x, y) == board.in_bounds(x, y),
        board.hit(x, y).occupied(x, y) == board.occupied(x, y),
{
    lemma_hit_frame(board, x, y);
    if board.in_bounds(x, y) {
        assert(board.cells[x].len() == board.y_len());
        assert(board.hit(x, y).hit(x, y).cells =~~= board.hit(x, y).cells);
    }
}

/// Once a boat is placed, the cells of its rectangle are taken, each linked
/// to the piece that lies on it, and no other cell changes.
pub proof fn lemma_placed_boat_occupies(board: BoardView, boat: BoatView, cx: int, cy: int)
    requires
        board.wf(),
        board.placement(boat) is Ok,
    ensures
        board.with_boat(boat).wf(),
        board.with_boat(boat).x_len() == board.x_len(),
        board.with_boat(boat).y_len() == board.y_len(),
        board.with_boat(boat).occupied(cx, cy) <==> boat.covers(cx, cy) || board.occupied(cx, cy),
        boat.covers(cx, cy) ==> board.with_boat(boat).cell(cx, cy).piece == Some(
            boat.piece_ref(cx, cy),
        ),
        board.in_bounds(cx, cy) && !boat.covers(cx, cy) ==> board.with_boat(boat).cell(cx, cy)
            == board.cell(cx, cy),
        board.in_bounds(cx, cy) ==> board.with_boat(boat).cell(cx, cy).is_hit == board.cell(
            cx,
            cy,
        ).is_hit,
{
    let after = board.with_boat(boat);
    if board.cells.len() > 0 {
        assert(board.cells[0].len() == board.y_len());
    }
    assert forall|x: int| 0 <= x < after.cells.len() implies (#[trigger] after.cells[x]).len()
        == after.y_len() by {
        assert(board.cells[x].len() == board.y_len());
    }
    if board.in_bounds(cx, cy) {
        assert(board.cells[cx].len() == board.y_len());
    }
}

/// A boat that shares a cell, an edge or a corner with a boat that the board
/// has accepted is refused for overlap.
pub proof fn lemma_touching_boats_overlap(board: BoardView, a: BoatView, b: BoatView)
    requires
        board.wf(),
        board.placement(a) is Ok,
        a.x_len > 0,
        a.y_len > 0,
        board.fits(b),
        !apart(a, b),
    ensures
        board.with_boat(a).placement(b) == Err::<(), PlacementError>(PlacementError::Overlap),
{
    let cx = if a.x >= b.x - 1 {
        a.x as int
    } else {
        b.x - 1
    };
    let cy = if a.y >= b.y - 1 {
        a.y as int
    } else {
        b.y - 1
    };
    assert(a.covers(cx, cy));
    assert(BoardView::near(b, cx, cy));
    lemma_placed_boat_occupies(board, a, cx, cy);
    assert(board.with_boat(a).occupied(cx, cy));
}

/// A boat that the board would accept is still accepted after the board has
/// accepted another boat that lies apart from it.
pub proof fn lemma_apart_boats_fit(board: BoardView, a: BoatView, b: BoatView)
    requires
        board.wf(),
        board.placement(a) is Ok,
        board.placement(b) is Ok,
        apart(a, b),
    ensures
        board.with_boat(a).placement(b) is Ok,
{
    let after = board.with_boat(a);
    lemma_placed_boat_occupies(board, a, 0, 0);
    assert forall|cx: int, cy: int| #[trigger]
        after.occupied(cx, cy) && BoardView::near(b, cx, cy) implies false by {
        lemma_placed_boat_occupies(board, a, cx, cy);
        if board.occupied(cx, cy) {
            assert(board.occupied(cx, cy) && BoardView::near(b, cx, cy));
        }
    }
}

/// The two boards show the same to an opponent: they have the same size, the
/// same cells were shot at, and on those cells the same shots were hits.
pub open spec fn same_to_opponent(a: BoardView, b: BoardView) -> bool {
    &&& a.x_len() == b.x_len()
    &&& a.y_len() == b.y_len()
    &&& forall|x: int, y: int| #[trigger]
        a.in_bounds(x, y) ==> {
            &&& a.cell(x, y).is_hit == b.cell(x, y).is_hit
            &&& a.cell(x, y).is_hit ==> a.cell(x, y).occupied() == b.cell(x, y).occupied()
        }
}

/// The picture with boats hidden tells nothing of a boat that was not hit:
/// boards that differ only in such boats have the same picture.
pub proof fn lemma_hidden_picture(a: BoardView, b: BoardView)
    requires
        same_to_opponent(a, b),
    ensures
        a.text(false) == b.text(false),
{
    lemma_hidden_rows(a, b, a.y_len());
}

proof fn lemma_hidden_rows(a: BoardView, b: BoardView, n: nat)
    requires
        same_to_opponent(a, b),
        n <= a.y_len(),
    ensures
        a.rows(false, n) == b.rows(false, n),
    decreases n,
{
    if n > 0 {
        lemma_hidden_rows(a, b, (n - 1) as nat);
        lemma_hidden_row_cells(a, b, n - 1, a.x_len());
    }
}

proof fn lemma_hidden_row_cells(a: BoardView, b: BoardView, y: int, n: nat)
    requires
        same_to_opponent(a, b),
        0 <= y < a.y_len(),
        n <= a.x_len(),
    ensures
        a.row_cells(false, y, n) == b.row_cells(false, y, n),
    decreases n,
{
    if n > 0 {
        lemma_hidden_row_cells(a, b, y, (n - 1) as nat);
        assert(a.in_bounds(n - 1, y));
    }
}

proof fn lemma_offset(x_len: int, y_len: int, x: int, y: int)
    requires
        0 <= x < x_len,
        0 <= y < y_len,
    ensures
        0 <= x * y_len <= x * y_len + y < x_len * y_len,
{
    assert(0 <= x * y_len <= x * y_len + y < x_len * y_len) by (nonlinear_arith)
        requires
            0 <= x < x_len,
            0 <= y < y_len,
    ;
}

proof fn lemma_offset_injective(y_len: int, x1: int, y1: int, x2: int, y2: int)
    requires
        0 <= y1 < y_len,
        0 <= y2 < y_len,
        x1 * y_len + y1 == x2 * y_len + y2,
    ensures
        x1 == x2,
        y1 == y2,
{
    assert(x1 == x2 && y1 == y2) by (nonlinear_arith)
        requires
            0 <= y1 < y_len,
            0 <= y2 < y_len,
            x1 * y_len + y1 == x2 * y_len + y2,
    ;
}

/// One player's grid of cells.
#[derive(Debug)]
pub struct Board {
    x_len: u32,
    y_len: u32,
    /// Column after column: the cell at `(x, y)` is entry `x * y_len + y`.
    cells: Vec<Cell>,
}

impl View for Board {
    type V = BoardView;

    closed spec fn view(&self) -> BoardView {
        BoardView {
            cells: Seq::new(
                self.x_len as nat,
                |x: int| Seq::new(self.y_len as nat, |y: int| self.cells[x * self.y_len + y]@),
            ),
        }
    }
}

impl Board {
    #[verifier::type_invariant]
    spec fn inv(self) -> bool {
        &&& self.cells.len() == self.x_len * self.y_len
        &&& self.x_len == 0 ==> self.y_len == 0
    }

    /// A board of `width` columns and `height` rows of open water.
    pub fn new(width: u32, height: u32) -> (board: Self)
        ensures
            board@ == BoardView::blank(width as nat, height as nat),
            board@.wf(),
    {
        let y_len: u32 = if width == 0 {
            0
        } else {
            height
        };
        let mut cells: Vec<Cell> = Vec::new();
        let mut x: u32 = 0;
        while x < width
            invariant
                x <= width,
                width == 0 || y_len == height,
                cells.len() == x * y_len,
                forall|i: int| 0 <= i < cells.len() ==> (#[trigger] cells[i])@ == CellView::blank(),
            decreases width - x,
        {
            let mut y: u32 = 0;
            while y < y_len
                invariant
                    y <= y_len,
                    cells.len() == x * y_len + y,
                    forall|i: int| 0 <= i < cells.len() ==> (#[trigger] cells[i])@ == CellView::blank(),
                decreases y_len - y,
            {
                cells.push(Cell::new());
                y = y + 1;
            }
            assert((x + 1) * y_len == x * y_len + y_len) by (nonlinear_arith);
            x = x + 1;
        }
        let board = Self { x_len: width, y_len, cells };
        proof {
            let v = board@;
            assert forall|cx: int, cy: int| 0 <= cx < width && 0 <= cy < y_len implies #[trigger] v.cells[cx][cy]
                == CellView::blank() by {
                lemma_offset(width as int, y_len as int, cx, cy);
            }
            assert(board@ =~~= BoardView::blank(width as nat, height as nat));
        }
        board
    }

    /// The number of columns.
    pub fn x_len(&self) -> (x_len: u32)
        ensures
            x_len == self@.x_len(),
            self@.wf(),
    {
        proof {
            use_type_invariant(self);
        }
        self.x_len
    }

    /// The number of rows.
    pub fn y_len(&self) -> (y_len: u32)
        ensures
            y_len == self@.y_len(),
            self@.wf(),
    {
        proof {
            use_type_invariant(self);
        }
        self.y_len
    }

    /// The position in `cells` of the cell at `(x, y)`.
    fn offset(&self, x: u32, y: u32) -> (i: usize)
        requires
            x < self.x_len,
            y < self.y_len,
        ensures
            i == x * self.y_len + y,
            i < self.cells.len(),
            self.cells[i as int]@ == self@.cell(x as int, y as int),
            self@.in_bounds(x as int, y as int),
    {
        proof {
            use_type_invariant(self);
            lemma_offset(self.x_len as int, self.y_len as int, x as int, y as int);
        }
        (x as usize) * (self.y_len as usize) + (y as usize)
    }

    /// The cell at `(x, y)`, if that is a coordinate of the board.
    pub fn cell(&self, x: u32, y: u32) -> (cell: Option<&Cell>)
        ensures
            cell is Some <==> self@.in_bounds(x as int, y as int),
            cell is Some ==> cell->Some_0@ == self@.cell(x as int, y as int),
    {
        proof {
            use_type_invariant(self);
        }
        if x < self.x_len && y < self.y_len {
            let i = self.offset(x, y);
            Some(&self.cells[i])
        } else {
            None
        }
    }

    /// Shoots at `(x, y)`: marks the cell as shot at, marks the piece that
    /// lies on it as hit in its boat, and reports whether a piece lies there.
    ///
    /// `boats` is the fleet that lies on this board. The piece is found by
    /// the handle that the cell holds; a handle whose boat the fleet does not
    /// have marks nothing.
    pub fn hit(&mut self, boats: &mut HashMap<u128, Boat>, x: u32, y: u32) -> (outcome: Result<
        bool,
        OutOfBounds,
    >)
        ensures
            outcome is Ok <==> old(self)@.in_bounds(x as int, y as int),
            outcome is Ok ==> outcome->Ok_0 == old(self)@.occupied(x as int, y as int),
            final(self)@ == old(self)@.hit(x as int, y as int),
            fleet_view(final(boats)@) == old(self)@.fleet_after_hit(
                fleet_view(old(boats)@),
                x as int,
                y as int,
            ),
            final(self)@.wf(),
    {
        broadcast use vstd::std_specs::hash::group_hash_axioms;

        proof {
            use_type_invariant(&*self);
        }
        if x < self.x_len && y < self.y_len {
            let i = self.offset(x, y);
            self.cells[i].hit();
            proof {
                let after = self@;
                let goal = old(self)@.hit(x as int, y as int);
                assert forall|cx: int, cy: int|
                    0 <= cx < self.x_len && 0 <= cy < self.y_len implies #[trigger] after.cells[cx][cy]
                    == goal.cells[cx][cy] by {
                    lemma_offset(self.x_len as int, self.y_len as int, cx, cy);
                    if cx * self.y_len + cy == i {
                        lemma_offset_injective(self.y_len as int, cx, cy, x as int, y as int);
                    }
                }
                assert(after =~~= goal);
            }
            match self.cells[i].get_boat_piece() {
                Some(link) => {
                    match boats.entry(link.boat_id) {
                        Entry::Occupied(mut entry) => {
                            let boat = entry.get_mut();
                            boat.hit_piece(link.index);
                            proof {
                                assert(fleet_view(old(boats)@.insert(link.boat_id, *boat))
                                    =~= fleet_view(old(boats)@).insert(link.boat_id, boat@));
                            }
                        },
                        Entry::Vacant(_) => {
                            proof {
                                assert(old(boats)@.remove(link.boat_id) =~= old(boats)@);
                            }
                        },
                    }
                    Ok(true)
                },
                None => Ok(false),
            }
        } else {
            Err(OutOfBounds)
        }
    }

    /// Whether a boat piece lies on some cell of the columns `lo_x..hi_x`
    /// and the rows `lo_y..hi_y`.
    fn any_occupied(&self, lo_x: u32, hi_x: u32, lo_y: u32, hi_y: u32) -> (found: bool)
        requires
            hi_x <= self.x_len,
            hi_y <= self.y_len,
        ensures
            found == exists|cx: int, cy: int|
                lo_x <= cx < hi_x && lo_y <= cy < hi_y && #[trigger] self@.occupied(cx, cy),
    {
        let mut x: u32 = lo_x;
        while x < hi_x
            invariant
                hi_x <= self.x_len,
                hi_y <= self.y_len,
                lo_x <= x,
                forall|cx: int, cy: int|
                    lo_x <= cx < x && lo_y <= cy < hi_y ==> !#[trigger] self@.occupied(cx, cy),
            decreases hi_x - x,
        {
            let mut y: u32 = lo_y;
            while y < hi_y
                invariant
                    x < hi_x <= self.x_len,
                    hi_y <= self.y_len,
                    lo_x <= x,
                    lo_y <= y,
                    forall|cx: int, cy: int|
                        lo_x <= cx < x && lo_y <= cy < hi_y ==> !#[trigger] self@.occupied(cx, cy),
                    forall|cy: int| lo_y <= cy < y ==> !#[trigger] self@.occupied(x as int, cy),
                decreases hi_y - y,
            {
                let i = self.offset(x, y);
                if self.cells[i].get_boat_piece().is_some() {
                    assert(self@.occupied(x as int, y as int));
                    return true;
                }
                y = y + 1;
            }
            x = x + 1;
        }
        false
    }

    /// Places the boat where its origin says.
    ///
    /// The boat's rectangle must lie inside the board, and neither it nor the
    /// margin of one cell around it (as far as the board reaches) may hold a
    /// piece of a boat: boats never touch, not even at a corner. On success
    /// every covered cell is linked to its piece and the boat is marked as
    /// placed; on failure nothing changes.
    pub fn place_boat(&mut self, boat: &mut Boat) -> (outcome: Result<(), PlacementError>)
        ensures
            outcome == old(self)@.placement(old(boat)@),
            outcome is Ok ==> final(self)@ == old(self)@.with_boat(old(boat)@),
            outcome is Ok ==> final(boat)@ == old(boat)@.placed(),
            outcome is Err ==> final(self)@ == old(self)@,
            outcome is Err ==> final(boat)@ == old(boat)@,
            final(self)@.wf(),
            old(boat)@.wf(),
    {
        proof {
            use_type_invariant(&*self);
        }
        let x1: u32 = boat.x();
        let y1: u32 = boat.y();
        let boat_x_len: u32 = boat.x_len();
        let boat_y_len: u32 = boat.y_len();
        if self.x_len < x1 || self.x_len - x1 < boat_x_len || self.y_len < y1 || self.y_len - y1
            < boat_y_len {
            return Err(PlacementError::OutOfBounds);
        }
        let x2: u32 = x1 + boat_x_len;
        let y2: u32 = y1 + boat_y_len;
        let lo_x: u32 = if x1 > 0 {
            x1 - 1
        } else {
            x1
        };
        let hi_x: u32 = if x2 < self.x_len {
            x2 + 1
        } else {
            x2
        };
        let lo_y: u32 = if y1 > 0 {
            y1 - 1
        } else {
            y1
        };
        let hi_y: u32 = if y2 < self.y_len {
            y2 + 1
        } else {
            y2
        };
        let crowded = self.any_occupied(lo_x, hi_x, lo_y, hi_y);
        proof {
            let b = boat@;
            let v = self@;
            if crowded {
                let (cx, cy) = choose|cx: int, cy: int|
                    lo_x <= cx < hi_x && lo_y <= cy < hi_y && #[trigger] v.occupied(cx, cy);
                assert(v.occupied(cx, cy) && BoardView::near(b, cx, cy));
            }
            if v.crowded(b) {
                let (cx, cy) = choose|cx: int, cy: int| #[trigger]
                    v.occupied(cx, cy) && BoardView::near(b, cx, cy);
                assert(lo_x <= cx < hi_x && lo_y <= cy < hi_y && v.occupied(cx, cy));
            }
            assert(crowded == v.crowded(b));
        }
        if crowded {
            return Err(PlacementError::Overlap);
        }
        let mut x: u32 = x1;
        while x < x2
            invariant
                x1 <= x <= x2 <= self.x_len,
                y1 <= y2 <= self.y_len,
                x1 == boat@.x,
                y1 == boat@.y,
                x2 == boat@.x + boat@.x_len,
                y2 == boat@.y + boat@.y_len,
                boat@ == old(boat)@,
                self.x_len == old(self).x_len,
                self.y_len == old(self).y_len,
                self.cells.len() == self.x_len * self.y_len,
                forall|cx: int, cy: int|
                    0 <= cx < self.x_len && 0 <= cy < self.y_len ==> #[trigger] self@.cells[cx][cy]
                        == if cx < x && boat@.covers(cx, cy) {
                        old(self)@.linked_cell(boat@, cx, cy)
                    } else {
                        old(self)@.cells[cx][cy]
                    },
            decreases x2 - x,
        {
            let mut y: u32 = y1;
            while y < y2
                invariant
                    x1 <= x < x2 <= self.x_len,
                    y1 <= y <= y2 <= self.y_len,
                    x1 == boat@.x,
                    y1 == boat@.y,
                    x2 == boat@.x + boat@.x_len,
                    y2 == boat@.y + boat@.y_len,
                    boat@ == old(boat)@,
                    self.x_len == old(self).x_len,
                    self.y_len == old(self).y_len,
                    self.cells.len() == self.x_len * self.y_len,
                    forall|cx: int, cy: int|
                        0 <= cx < self.x_len && 0 <= cy < self.y_len ==> #[trigger] self@.cells[cx][cy]
                            == if (cx < x || (cx == x && cy < y)) && boat@.covers(cx, cy) {
                            old(self)@.linked_cell(boat@, cx, cy)
                        } else {
                            old(self)@.cells[cx][cy]
                        },
                decreases y2 - y,
            {
                let ghost before = self@;
                match boat.get_boat_piece_rc(x, y) {
                    Ok(link) => {
                        let i = self.offset(x, y);
                        self.cells[i].set_boat_piece(link);
                        proof {
                            let after = self@;
                            assert forall|cx: int, cy: int|
                                0 <= cx < self.x_len && 0 <= cy < self.y_len implies #[trigger] after.cells[cx][cy]
                                == if (cx < x || (cx == x && cy < y + 1)) && boat@.covers(cx, cy) {
                                old(self)@.linked_cell(boat@, cx, cy)
                            } else {
                                old(self)@.cells[cx][cy]
                            } by {
                                lemma_offset(self.x_len as int, self.y_len as int, cx, cy);
                                if cx * self.y_len + cy == i {
                                    lemma_offset_injective(
                                        self.y_len as int,
                                        cx,
                                        cy,
                                        x as int,
                                        y as int,
                                    );
                                }
                                assert(before.cells[cx][cy] == if (cx < x || (cx == x && cy < y))
                                    && boat@.covers(cx, cy) {
                                    old(self)@.linked_cell(boat@, cx, cy)
                                } else {
                                    old(self)@.cells[cx][cy]
                                });
                            }
                        }
                    },
                    Err(_) => {},
                }
                y = y + 1;
            }
            x = x + 1;
        }
        boat.place();
        proof {
            assert(self@ =~~= old(self)@.with_boat(old(boat)@));
        }
        Ok(())
    }

    /// Whether a boat piece lies on `(x, y)`.
    ///
    /// Despite its name this reports that the cell is taken, not that it was
    /// shot at. `is_attacked` reports the latter.
    pub fn is_hit(&self, x: u32, y: u32) -> (outcome: Result<bool, OutOfBounds>)
        ensures
            outcome is Ok <==> self@.in_bounds(x as int, y as int),
            outcome is Ok ==> outcome->Ok_0 == self@.occupied(x as int, y as int),
            self@.wf(),
    {
        proof {
            use_type_invariant(self);
        }
        if x < self.x_len && y < self.y_len {
            let i = self.offset(x, y);
            Ok(self.cells[i].get_boat_piece().is_some())
        } else {
            Err(OutOfBounds)
        }
    }

    /// The picture of the board. With `show_boats` unset, a boat shows only
    /// where it was hit.
    pub fn to_string(&self, show_boats: bool) -> (text: String)
        ensures
            text@ == self@.text(show_boats),
    {
        proof {
            use_type_invariant(self);
        }
        let mut out = String::from_str(" ");
        let mut x: u32 = 0;
        while x < self.x_len
            invariant
                x <= self.x_len,
                out@ == " "@ + BoardView::column_numbers(x as nat),
            decreases self.x_len - x,
        {
            let ghost before = out@;
            out.append(" ");
            out.append(digit_str(x % 10));
            x = x + 1;
            assert(out@ =~= " "@ + BoardView::column_numbers(x as nat));
        }
        out.append("\n┌");
        push_repeated(&mut out, "─", 2 * (self.x_len as u64));
        out.append("┐");
        let ghost top = out@;
        assert(top =~= " "@ + BoardView::column_numbers(self@.x_len()) + "\n┌"@ + self@.border()
            + "┐"@);
        let mut y: u32 = 0;
        while y < self.y_len
            invariant
                y <= self.y_len,
                self.cells.len() == self.x_len * self.y_len,
                out@ == top + self@.rows(show_boats, y as nat),
            decreases self.y_len - y,
        {
            let ghost before = out@;
            out.append("\n│");
            let mut x: u32 = 0;
            while x < self.x_len
                invariant
                    x <= self.x_len,
                    y < self.y_len,
                    self.cells.len() == self.x_len * self.y_len,
                    out@ == before + "\n│"@ + self@.row_cells(show_boats, y as int, x as nat),
                decreases self.x_len - x,
            {
                let i = self.offset(x, y);
                out.append(self.cells[i].glyph_str(show_boats));
                x = x + 1;
                assert(out@ =~= before + "\n│"@ + self@.row_cells(show_boats, y as int, x as nat));
            }
            out.append("│ ");
            out.append(digit_str(y % 10));
            y = y + 1;
            assert(out@ =~= top + self@.rows(show_boats, y as nat));
        }
        out.append("\n└");
        push_repeated(&mut out, "─", 2 * (self.x_len as u64));
        out.append("┘");
        assert(out@ =~= self@.text(show_boats));
        out
    }

    /// Whether `(x, y)` was shot at.
    pub fn is_attacked(&self, x: u32, y: u32) -> (outcome: Result<bool, OutOfBounds>)
        ensures
            outcome is Ok <==> self@.in_bounds(x as int, y as int),
            outcome is Ok ==> outcome->Ok_0 == self@.attacked(x as int, y as int),
    {
        proof {
            use_type_invariant(self);
        }
        if x < self.x_len && y < self.y_len {
            let i = self.offset(x, y);
            Ok(self.cells[i].is_hit())
        } else {
            Err(OutOfBounds)
        }
    }
}

} // verus!
