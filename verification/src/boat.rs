use crate::hittable::Hittable;
use crate::ident::{fresh_id, RANDOM_UUID_MARK, VERSION_VARIANT_MASK};
use crate::text::{push_repeated, repeat};
use vstd::prelude::*;
use vstd::string::StringExecFns;

verus! {

/// A handle on one piece of one boat: the boat's identifier and the piece's
/// position in the boat's row-major piece list.
///
/// A board cell that a boat covers stores such a handle. The piece itself
/// stays with its boat, so there is one record of its state.
#[derive(Clone, Copy, Debug, PartialEq, Eq, Structural)]
pub struct PieceRef {
    pub boat_id: u128,
    pub index: usize,
}

/// The smallest unit that tracks a hit: one cell of a boat's footprint.
#[derive(Debug)]
pub struct BoatPiece {
    x: u32,
    y: u32,
    is_hit: bool,
}

impl BoatPiece {
    /// The piece's column within its boat.
    pub closed spec fn offset_x(&self) -> u32 {
        self.x
    }

    /// The piece's row within its boat.
    pub closed spec fn offset_y(&self) -> u32 {
        self.y
    }

    /// An intact piece at the local offset `(x, y)`.
    pub fn new(x: u32, y: u32) -> (piece: Self)
        ensures
            piece.offset_x() == x,
            piece.offset_y() == y,
            !piece.hit_state(),
    {
        Self { x, y, is_hit: false }
    }

    /// The piece's column within its boat.
    pub fn x(&self) -> (x: u32)
        ensures
            x == self.offset_x(),
    {
        self.x
    }

    /// The piece's row within its boat.
    pub fn y(&self) -> (y: u32)
        ensures
            y == self.offset_y(),
    {
        self.y
    }
}

impl Hittable for BoatPiece {
    closed spec fn hit_state(&self) -> bool {
        self.is_hit
    }

    fn hit(&mut self)
        ensures
            final(self).offset_x() == old(self).offset_x(),
            final(self).offset_y() == old(self).offset_y(),
    {
        self.is_hit = true;
    }

    fn repair(&mut self)
        ensures
            final(self).offset_x() == old(self).offset_x(),
            final(self).offset_y() == old(self).offset_y(),
    {
        self.is_hit = false;
    }

    fn is_hit(&self) -> (hit: bool) {
        self.is_hit
    }
}

/// How many entries of `flags` are `true`.
pub open spec fn count_true(flags: Seq<bool>) -> nat
    decreases flags.len(),
{
    if flags.len() == 0 {
        0
    } else {
        count_true(flags.drop_last()) + if flags.last() {
            1nat
        } else {
            0nat
        }
    }
}

/// Marking one more entry raises the count by one.
pub proof fn lemma_count_one_more(flags: Seq<bool>, at: int)
    requires
        0 <= at < flags.len(),
        !flags[at],
    ensures
        count_true(flags.update(at, true)) == count_true(flags) + 1,
    decreases flags.len(),
{
    let marked = flags.update(at, true);
    if at == flags.len() - 1 {
        assert(marked.drop_last() =~= flags.drop_last());
    } else {
        lemma_count_one_more(flags.drop_last(), at);
        assert(marked.drop_last() =~= flags.drop_last().update(at, true));
    }
}

/// The mathematical value of a boat.
///
/// `offsets` and `hits` list the pieces row by row: the piece at local offset
/// `(dx, dy)` is entry `dy * x_len + dx` of both.
#[verifier::ext_equal]
pub struct BoatView {
    pub id: u128,
    pub x: u32,
    pub y: u32,
    pub x_len: u32,
    pub y_len: u32,
    pub offsets: Seq<(u32, u32)>,
    pub hits: Seq<bool>,
    pub is_placed: bool,
}

/// The local offsets `(dx, dy)` of the pieces of a boat of `x_len` by `y_len`
/// pieces, row by row.
pub open spec fn row_major_offsets(x_len: u32, y_len: u32) -> Seq<(u32, u32)> {
    Seq::new(
        (x_len * y_len) as nat,
        |i: int| ((i % (x_len as int)) as u32, (i / (x_len as int)) as u32),
    )
}

impl BoatView {
    /// One hit flag per piece, a piece count that fits `u32`, and every
    /// piece at the local offset that its place in the list gives.
    pub open spec fn wf(self) -> bool {
        &&& self.hits.len() == self.x_len * self.y_len
        &&& self.x_len * self.y_len <= u32::MAX
        &&& self.offsets == row_major_offsets(self.x_len, self.y_len)
    }

    /// A new boat: at the origin, not placed, no piece hit.
    pub open spec fn fresh(id: u128, x_len: u32, y_len: u32) -> BoatView {
        BoatView {
            id,
            x: 0,
            y: 0,
            x_len,
            y_len,
            offsets: row_major_offsets(x_len, y_len),
            hits: Seq::new((x_len * y_len) as nat, |i: int| false),
            is_placed: false,
        }
    }

    /// Whether `(px, py)` lies in the boat's rectangle.
    pub open spec fn covers(self, px: int, py: int) -> bool {
        &&& self.x <= px < self.x + self.x_len
        &&& self.y <= py < self.y + self.y_len
    }

    /// The position in `hits` of the piece at the absolute coordinate
    /// `(px, py)`.
    pub open spec fn index_of(self, px: int, py: int) -> int {
        (py - self.y) * self.x_len + (px - self.x)
    }

    /// The handle on the piece at the absolute coordinate `(px, py)`.
    pub open spec fn piece_ref(self, px: int, py: int) -> PieceRef {
        PieceRef { boat_id: self.id, index: self.index_of(px, py) as usize }
    }

    /// The boat after piece `index` was hit; unchanged if there is no such
    /// piece.
    pub open spec fn hit_piece(self, index: int) -> BoatView {
        if 0 <= index < self.hits.len() {
            BoatView { hits: self.hits.update(index, true), ..self }
        } else {
            self
        }
    }

    /// The boat after a shot at `(px, py)`; unchanged if the shot misses.
    pub open spec fn hit(self, px: int, py: int) -> BoatView {
        if self.covers(px, py) {
            self.hit_piece(self.index_of(px, py))
        } else {
            self
        }
    }

    /// The boat with its origin set to `(x, y)`.
    pub open spec fn moved_to(self, x: u32, y: u32) -> BoatView {
        BoatView { x, y, ..self }
    }

    /// The boat marked as placed.
    pub open spec fn placed(self) -> BoatView {
        BoatView { is_placed: true, ..self }
    }

    /// Every piece is hit.
    pub open spec fn sunk(self) -> bool {
        forall|i: int| 0 <= i < self.hits.len() ==> self.hits[i]
    }

    /// At least one piece is not hit.
    pub open spec fn afloat(self) -> bool {
        exists|i: int| 0 <= i < self.hits.len() && !self.hits[i]
    }

    /// The number of pieces that are hit.
    pub open spec fn hit_count(self) -> nat {
        count_true(self.hits)
    }

    /// The picture of the boat's shape: `y_len` lines of `x_len` times `X`,
    /// each ended by a line feed.
    pub open spec fn text(self) -> Seq<char> {
        repeat(repeat("X"@, self.x_len as nat) + "\n"@, self.y_len as nat)
    }
}

/// Inside a well-formed boat's rectangle every coordinate has a piece.
pub proof fn lemma_index_in_range(boat: BoatView, px: int, py: int)
    requires
        boat.hits.len() == boat.x_len * boat.y_len,
        boat.covers(px, py),
    ensures
        0 <= boat.index_of(px, py) < boat.hits.len(),
{
    let dx = px - boat.x;
    let dy = py - boat.y;
    let w = boat.x_len as int;
    let h = boat.y_len as int;
    assert(0 <= dy * w + dx < w * h) by (nonlinear_arith)
        requires
            0 <= dx < w,
            0 <= dy < h,
    ;
}

/// The mathematical value of each boat of a fleet.
pub open spec fn fleet_view(boats: Map<u128, Boat>) -> Map<u128, BoatView> {
    boats.map_values(|boat: Boat| boat@)
}

/// Marks piece `index` of `pieces` as hit and leaves its offset, and all
/// other pieces, as they are.
fn mark_hit(pieces: &mut Vec<BoatPiece>, index: usize)
    requires
        index < old(pieces).len(),
    ensures
        final(pieces).len() == old(pieces).len(),
        final(pieces)[index as int].is_hit,
        final(pieces)[index as int].x == old(pieces)[index as int].x,
        final(pieces)[index as int].y == old(pieces)[index as int].y,
        forall|i: int|
            0 <= i < old(pieces).len() && i != index ==> final(pieces)[i] == old(pieces)[i],
    no_unwind
{
    pieces[index].is_hit = true;
}

/// A positioned line of pieces.
#[derive(Debug)]
pub struct Boat {
    id: u128,
    x: u32,
    y: u32,
    x_len: u32,
    y_len: u32,
    pieces: Vec<BoatPiece>,
    is_placed: bool,
}

impl View for Boat {
    type V = BoatView;

    closed spec fn view(&self) -> BoatView {
        BoatView {
            id: self.id,
            x: self.x,
            y: self.y,
            x_len: self.x_len,
            y_len: self.y_len,
            offsets: Seq::new(
                self.pieces.len() as nat,
                |i: int| (self.pieces[i].x, self.pieces[i].y),
            ),
            hits: Seq::new(self.pieces.len() as nat, |i: int| self.pieces[i].is_hit),
            is_placed: self.is_placed,
        }
    }
}

impl Boat {
    #[verifier::type_invariant]
    spec fn inv(self) -> bool {
        &&& self.pieces.len() == self.x_len * self.y_len
        &&& self.x_len * self.y_len <= u32::MAX
        &&& forall|i: int|
            0 <= i < self.pieces.len() ==> {
                &&& (#[trigger] self.pieces[i]).x == i % (self.x_len as int)
                &&& self.pieces[i].y == i / (self.x_len as int)
            }
    }

    /// What holds of every boat makes its value well formed.
    proof fn lemma_inv_wf(self)
        requires
            self.inv(),
        ensures
            self@.wf(),
    {
        assert(self@.offsets =~= row_major_offsets(self.x_len, self.y_len));
    }

    /// A new boat of `x_len` by `y_len` pieces under a fresh random
    /// identifier: at the origin, not placed, no piece hit.
    pub fn new(x_len: u32, y_len: u32) -> (boat: Self)
        requires
            x_len * y_len <= u32::MAX,
        ensures
            boat@ == BoatView::fresh(boat@.id, x_len, y_len),
            boat@.id & VERSION_VARIANT_MASK == RANDOM_UUID_MARK,
            boat@.wf(),
    {
        Self::with_id(fresh_id(), x_len, y_len)
    }

    /// A new boat of `x_len` by `y_len` pieces under the identifier `id`.
    pub fn with_id(id: u128, x_len: u32, y_len: u32) -> (boat: Self)
        requires
            x_len * y_len <= u32::MAX,
        ensures
            boat@ == BoatView::fresh(id, x_len, y_len),
            boat@.wf(),
    {
        let mut pieces: Vec<BoatPiece> = Vec::new();
        let mut piece_y: u32 = 0;
        while piece_y < y_len
            invariant
                piece_y <= y_len,
                x_len * y_len <= u32::MAX,
                pieces.len() == piece_y * x_len,
                forall|i: int|
                    0 <= i < pieces.len() ==> {
                        &&& !(#[trigger] pieces[i]).is_hit
                        &&& pieces[i].x == i % (x_len as int)
                        &&& pieces[i].y == i / (x_len as int)
                    },
            decreases y_len - piece_y,
        {
            let mut piece_x: u32 = 0;
            while piece_x < x_len
                invariant
                    piece_x <= x_len,
                    piece_y < y_len,
                    x_len * y_len <= u32::MAX,
                    pieces.len() == piece_y * x_len + piece_x,
                    forall|i: int|
                        0 <= i < pieces.len() ==> {
                            &&& !(#[trigger] pieces[i]).is_hit
                            &&& pieces[i].x == i % (x_len as int)
                            &&& pieces[i].y == i / (x_len as int)
                        },
                decreases x_len - piece_x,
            {
                proof {
                    vstd::arithmetic::div_mod::lemma_fundamental_div_mod_converse(
                        piece_y * x_len + piece_x,
                        x_len as int,
                        piece_y as int,
                        piece_x as int,
                    );
                }
                pieces.push(BoatPiece::new(piece_x, piece_y));
                piece_x = piece_x + 1;
            }
            assert((piece_y + 1) * x_len == piece_y * x_len + x_len) by (nonlinear_arith);
            piece_y = piece_y + 1;
        }
        assert(y_len * x_len == x_len * y_len) by (nonlinear_arith);
        let boat = Self { id, x: 0, y: 0, x_len, y_len, pieces, is_placed: false };
        assert(boat@.hits =~= BoatView::fresh(id, x_len, y_len).hits);
        assert(boat@.offsets =~= BoatView::fresh(id, x_len, y_len).offsets);
        boat
    }

    /// Whether `(x, y)` lies in the boat's rectangle.
    pub fn target(&self, x: u32, y: u32) -> (on_target: bool)
        ensures
            on_target == self@.covers(x as int, y as int),
    {
        x >= self.x && x - self.x < self.x_len && y >= self.y && y - self.y < self.y_len
    }

    /// Shoots at `(x, y)`: marks the piece there as hit and returns `true`,
    /// or returns `false` and changes nothing if the boat is not there.
    pub fn hit(&mut self, x: u32, y: u32) -> (on_target: bool)
        ensures
            on_target == old(self)@.covers(x as int, y as int),
            final(self)@ == old(self)@.hit(x as int, y as int),
    {
        match self.coordinates_to_index(x, y) {
            Ok(index) => {
                self.hit_piece(index);
                true
            },
            Err(_) => false,
        }
    }

    /// Marks the piece behind a handle's `index` as hit. Returns whether the
    /// boat has such a piece; if not, nothing changes.
    pub fn hit_piece(&mut self, index: usize) -> (found: bool)
        ensures
            found == (index < old(self)@.hits.len()),
            final(self)@ == old(self)@.hit_piece(index as int),
    {
        proof {
            use_type_invariant(&*self);
        }
        if index < self.pieces.len() {
            mark_hit(&mut self.pieces, index);
            assert(self@.hits =~= old(self)@.hits.update(index as int, true));
            assert(self@.offsets =~= old(self)@.offsets);
            true
        } else {
            false
        }
    }

    /// The piece behind a handle's `index`, if the boat has such a piece.
    pub fn piece(&self, index: usize) -> (piece: Option<&BoatPiece>)
        ensures
            piece is Some <==> index < self@.hits.len(),
            piece is Some ==> {
                &&& piece->Some_0.offset_x() == self@.offsets[index as int].0
                &&& piece->Some_0.offset_y() == self@.offsets[index as int].1
                &&& piece->Some_0.offset_x() == (index as int) % (self@.x_len as int)
                &&& piece->Some_0.offset_y() == (index as int) / (self@.x_len as int)
                &&& piece->Some_0.hit_state() == self@.hits[index as int]
            },
            self@.wf(),
    {
        proof {
            use_type_invariant(self);
            self.lemma_inv_wf();
        }
        if index < self.pieces.len() {
            Some(&self.pieces[index])
        } else {
            None
        }
    }

    /// The number of pieces that have been hit.
    ///
    /// Despite its name this counts the hit pieces, not the intact ones. The
    /// intact ones number `get_n_pieces()` minus this.
    pub fn remaining_intact_pieces(&self) -> (count: u32)
        ensures
            count == self@.hit_count(),
            count <= self@.hits.len(),
    {
        proof {
            use_type_invariant(self);
        }
        let mut count: u32 = 0;
        let mut i: usize = 0;
        while i < self.pieces.len()
            invariant
                i <= self.pieces.len(),
                self.pieces.len() <= u32::MAX,
                count == count_true(self@.hits.take(i as int)),
                count <= i,
            decreases self.pieces.len() - i,
        {
            assert(self@.hits.take(i + 1).drop_last() =~= self@.hits.take(i as int));
            if self.pieces[i].is_hit() {
                count = count + 1;
            }
            i = i + 1;
        }
        assert(self@.hits.take(i as int) =~= self@.hits);
        count
    }

    /// The handle on the piece at the absolute coordinate `(x, y)`, for a
    /// board cell to keep. Fails if the boat does not cover `(x, y)`.
    pub fn get_boat_piece_rc(&self, x: u32, y: u32) -> (link: Result<PieceRef, ()>)
        ensures
            link is Ok <==> self@.covers(x as int, y as int),
            link is Ok ==> link->Ok_0 == self@.piece_ref(x as int, y as int),
            link is Ok ==> link->Ok_0.index < self@.hits.len(),
    {
        match self.coordinates_to_index(x, y) {
            Ok(index) => Ok(PieceRef { boat_id: self.id, index }),
            Err(_) => Err(()),
        }
    }

    /// The number of pieces.
    pub fn get_n_pieces(&self) -> (n: u32)
        ensures
            n == self@.x_len * self@.y_len,
            self@.wf(),
    {
        proof {
            use_type_invariant(self);
            self.lemma_inv_wf();
        }
        self.x_len * self.y_len
    }

    /// The boat's identifier.
    pub fn id(&self) -> (id: u128)
        ensures
            id == self@.id,
    {
        self.id
    }

    /// The column of the boat's origin.
    pub fn x(&self) -> (x: u32)
        ensures
            x == self@.x,
    {
        self.x
    }

    /// Moves the boat's origin to the column `new_x`.
    pub fn set_x(&mut self, new_x: u32)
        ensures
            final(self)@ == (BoatView { x: new_x, ..old(self)@ }),
    {
        proof {
            use_type_invariant(&*self);
        }
        self.x = new_x;
    }

    /// The row of the boat's origin.
    pub fn y(&self) -> (y: u32)
        ensures
            y == self@.y,
    {
        self.y
    }

    /// Moves the boat's origin to the row `new_y`.
    pub fn set_y(&mut self, new_y: u32)
        ensures
            final(self)@ == (BoatView { y: new_y, ..old(self)@ }),
    {
        proof {
            use_type_invariant(&*self);
        }
        self.y = new_y;
    }

    /// The boat's extent along x.
    pub fn x_len(&self) -> (x_len: u32)
        ensures
            x_len == self@.x_len,
            self@.wf(),
    {
        proof {
            use_type_invariant(self);
            self.lemma_inv_wf();
        }
        self.x_len
    }

    /// The boat's extent along y.
    pub fn y_len(&self) -> (y_len: u32)
        ensures
            y_len == self@.y_len,
            self@.wf(),
    {
        proof {
            use_type_invariant(self);
            self.lemma_inv_wf();
        }
        self.y_len
    }

    /// Whether a board has accepted the boat.
    pub fn is_placed(&self) -> (placed: bool)
        ensures
            placed == self@.is_placed,
    {
        self.is_placed
    }

    /// Marks the boat as placed. The board calls this once it has accepted
    /// the boat.
    pub fn place(&mut self)
        ensures
            final(self)@ == old(self)@.placed(),
    {
        proof {
            use_type_invariant(&*self);
        }
        self.is_placed = true;
    }

    /// Whether at least one piece is not hit.
    pub fn is_afloat(&self) -> (afloat: bool)
        ensures
            afloat == self@.afloat(),
    {
        let mut i: usize = 0;
        while i < self.pieces.len()
            invariant
                i <= self.pieces.len(),
                forall|j: int| 0 <= j < i ==> self@.hits[j],
            decreases self.pieces.len() - i,
        {
            if !self.pieces[i].is_hit() {
                assert(!self@.hits[i as int]);
                return true;
            }
            i = i + 1;
        }
        false
    }

    /// The picture of the boat's shape.
    pub fn to_string(&self) -> (text: String)
        ensures
            text@ == self@.text(),
    {
        let mut line = String::new();
        push_repeated(&mut line, "X", self.x_len as u64);
        line.append("\n");
        let mut text = String::new();
        push_repeated(&mut text, line.as_str(), self.y_len as u64);
        assert(text@ =~= self@.text());
        text
    }

    /// The position in the piece list of the piece at the absolute
    /// coordinate `(x, y)`.
    fn coordinates_to_index(&self, x: u32, y: u32) -> (index: Result<usize, ()>)
        ensures
            index is Ok <==> self@.covers(x as int, y as int),
            index is Ok ==> index->Ok_0 == self@.index_of(x as int, y as int),
            index is Ok ==> index->Ok_0 < self@.hits.len(),
    {
        if !self.target(x, y) {
            return Err(());
        }
        proof {
            use_type_invariant(self);
            lemma_index_in_range(self@, x as int, y as int);
        }
        let dx: u32 = x - self.x;
        let dy: u32 = y - self.y;
        assert(dy * self.x_len <= self@.index_of(x as int, y as int)) by (nonlinear_arith)
            requires
                dy == y - self@.y,
                dx == x - self@.x,
                dx >= 0,
                self.x_len == self@.x_len,
        ;
        Ok((dy * self.x_len + dx) as usize)
    }
}

impl Clone for Boat {
    /// A clone is a new boat of the same dimensions under an identifier of
    /// its own: neither the position nor the hits nor the placement are
    /// copied. The identifier is random; should the draw give the boat's own
    /// identifier, the clone takes the one next to it.
    fn clone(&self) -> (boat: Self)
        ensures
            boat@ == BoatView::fresh(boat@.id, self@.x_len, self@.y_len),
            boat@.id != self@.id,
            boat@.id & VERSION_VARIANT_MASK == RANDOM_UUID_MARK,
            boat@.wf(),
    {
        proof {
            use_type_invariant(self);
        }
        let boat = Self::new(self.x_len, self.y_len);
        if boat.id == self.id {
            let id: u128 = self.id;
            let next: u128 = id ^ 1;
            assert(id & VERSION_VARIANT_MASK == RANDOM_UUID_MARK ==> next & VERSION_VARIANT_MASK
                == RANDOM_UUID_MARK && next != id) by (bit_vector)
                requires
                    next == id ^ 1,
            ;
            Self::with_id(next, self.x_len, self.y_len)
        } else {
            boat
        }
    }
}

} // verus!
