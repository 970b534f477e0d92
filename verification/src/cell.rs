use crate::boat::PieceRef;
use crate::hittable::Hittable;
use vstd::prelude::*;
use vstd::string::StringExecFns;

verus! {

/// The mathematical value of a cell.
pub struct CellView {
    /// Whether the cell has been shot at.
    pub is_hit: bool,
    /// The boat piece that lies on the cell, if any.
    pub piece: Option<PieceRef>,
}

impl CellView {
    /// Open water that nobody has shot at.
    pub open spec fn blank() -> CellView {
        CellView { is_hit: false, piece: None }
    }

    /// The cell after a shot at it.
    pub open spec fn shot(self) -> CellView {
        CellView { is_hit: true, ..self }
    }

    /// The cell with that piece laid on it.
    pub open spec fn linked(self, piece: PieceRef) -> CellView {
        CellView { piece: Some(piece), ..self }
    }

    /// A boat piece lies on the cell.
    pub open spec fn occupied(self) -> bool {
        self.piece is Some
    }

    /// The one-character picture of the cell. A boat that was not hit shows
    /// only where `show_boats` is set.
    pub open spec fn glyph(self, show_boats: bool) -> Seq<char> {
        if self.is_hit {
            if self.occupied() {
                "🔥"@
            } else {
                "🌊"@
            }
        } else if show_boats && self.occupied() {
            "⚓"@
        } else {
            "🟦"@
        }
    }
}

/// One location of a board's grid.
#[derive(Debug)]
pub struct Cell {
    is_hit: bool,
    boat_piece: Option<PieceRef>,
}

impl View for Cell {
    type V = CellView;

    closed spec fn view(&self) -> CellView {
        CellView { is_hit: self.is_hit, piece: self.boat_piece }
    }
}

impl Cell {
    /// Open water that nobody has shot at.
    pub fn new() -> (cell: Self)
        ensures
            cell@ == CellView::blank(),
    {
        Self { is_hit: false, boat_piece: None }
    }

    /// The handle on the boat piece that lies on the cell, if any.
    pub fn get_boat_piece(&self) -> (piece: Option<PieceRef>)
        ensures
            piece == self@.piece,
    {
        self.boat_piece
    }

    /// Lays a boat piece on the cell.
    pub fn set_boat_piece(&mut self, boat_piece: PieceRef)
        ensures
            final(self)@ == old(self)@.linked(boat_piece),
    {
        self.boat_piece = Some(boat_piece);
    }

    /// The one-character picture of the cell.
    pub fn to_string(&self, show_boats: bool) -> (text: String)
        ensures
            text@ == self@.glyph(show_boats),
    {
        String::from_str(self.glyph_str(show_boats))
    }

    /// The one-character picture of the cell, as a literal.
    pub(crate) fn glyph_str(&self, show_boats: bool) -> (text: &'static str)
        ensures
            text@ == self@.glyph(show_boats),
    {
        match (self.is_hit, show_boats, &self.boat_piece) {
            (false, true, Some(_)) => "⚓",
            (true, _, Some(_)) => "🔥",
            (true, _, None) => "🌊",
            (_, _, _) => "🟦",
        }
    }
}

impl Hittable for Cell {
    open spec fn hit_state(&self) -> bool {
        self@.is_hit
    }

    /// Marks the cell as shot at. The piece on it, if any, lives in its boat:
    /// `Board::hit` marks the cell and the piece together.
    fn hit(&mut self)
        ensures
            final(self)@ == old(self)@.shot(),
    {
        self.is_hit = true;
    }

    fn repair(&mut self)
        ensures
            final(self)@ == (CellView { is_hit: false, ..old(self)@ }),
    {
        self.is_hit = false;
    }

    fn is_hit(&self) -> (hit: bool) {
        self.is_hit
    }
}

} // verus!
