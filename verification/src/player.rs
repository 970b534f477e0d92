use crate::board::{lemma_hit_frame, lemma_hit_twice, lemma_placed_boat_occupies, Board, BoardView};
use crate::boat::{
    fleet_view, lemma_count_one_more, lemma_index_in_range, Boat, BoatView, PieceRef,
};
use crate::hittable::Hittable;
use crate::error::{GameError, OutOfBounds};
use std::collections::hash_map::Entry;
use std::collections::HashMap;
use vstd::prelude::*;
use vstd::std_specs::iter::IteratorSpec;
use vstd::string::StringExecFns;

verus! {

/// Every boat of the fleet is well formed and filed under its own identifier.
pub open spec fn fleet_wf(boats: Map<u128, BoatView>) -> bool {
    forall|id: u128| #[trigger] boats.contains_key(id) ==> boats[id].wf() && boats[id].id == id
}

/// The number of pieces of all the boats of a fleet together.
pub open spec fn fleet_view_pieces(boats: Map<u128, BoatView>) -> nat
    decreases boats.dom().len(),
    when boats.dom().finite()
{
    if boats.dom().len() == 0 {
        0
    } else {
        let id = boats.dom().choose();
        boats[id].hits.len() + fleet_view_pieces(boats.remove(id))
    }
}

/// The pieces of a fleet are those of any one of its boats and those of the
/// rest.
pub proof fn lemma_fleet_view_pieces(boats: Map<u128, BoatView>, id: u128)
    requires
        boats.dom().finite(),
        boats.contains_key(id),
    ensures
        fleet_view_pieces(boats) == boats[id].hits.len() + fleet_view_pieces(boats.remove(id)),
    decreases boats.dom().len(),
{
    broadcast use vstd::set::group_set_axioms;

    let first = boats.dom().choose();
    assert(boats.dom().len() > 0);
    assert(boats.contains_key(first));
    if first != id {
        lemma_fleet_view_pieces(boats.remove(first), id);
        lemma_fleet_view_pieces(boats.remove(id), first);
        assert(boats.remove(first).remove(id) =~= boats.remove(id).remove(first));
    }
}

/// The number of pieces of the listed boats together.
pub open spec fn listed_pieces(listed: Seq<(&u128, &Boat)>) -> nat
    decreases listed.len(),
{
    if listed.len() == 0 {
        0
    } else {
        listed_pieces(listed.drop_last()) + listed.last().1@.hits.len()
    }
}

/// A list that holds every boat of a fleet once, each with its identifier,
/// has the pieces of the fleet.
pub proof fn lemma_listed_pieces(boats: Map<u128, Boat>, listed: Seq<(&u128, &Boat)>)
    requires
        boats.dom().finite(),
        listed.len() == boats.dom().len(),
        listed.no_duplicates(),
        forall|i: int|
            0 <= i < listed.len() ==> boats.contains_key(*(#[trigger] listed[i]).0)
                && boats[*listed[i].0] == *listed[i].1,
    ensures
        listed_pieces(listed) == fleet_view_pieces(fleet_view(boats)),
    decreases listed.len(),
{
    broadcast use vstd::set::group_set_axioms;

    let views = fleet_view(boats);
    assert(views.dom() =~= boats.dom());
    if listed.len() > 0 {
        let id = *listed.last().0;
        let rest = listed.drop_last();
        assert(boats.contains_key(id));
        assert forall|i: int| 0 <= i < rest.len() implies boats.remove(id).contains_key(
            *(#[trigger] rest[i]).0,
        ) && boats.remove(id)[*rest[i].0] == *rest[i].1 by {
            assert(rest[i] == listed[i]);
            if *listed[i].0 == id {
                assert(*listed[i].1 == *listed.last().1);
                assert(listed[i] == listed[listed.len() - 1]);
            }
        }
        lemma_listed_pieces(boats.remove(id), rest);
        lemma_fleet_view_pieces(views, id);
        assert(views.remove(id) =~= fleet_view(boats.remove(id)));
    }
}

/// The mathematical value of a player.
#[verifier::ext_equal]
pub struct PlayerView {
    pub name: Seq<char>,
    pub board: BoardView,
    /// The fleet: each boat under the identifier that it was filed under.
    pub boats: Map<u128, BoatView>,
}

impl PlayerView {
    /// The board is well formed, and so is every boat, each filed under its
    /// own identifier.
    pub open spec fn wf(self) -> bool {
        self.board.wf() && fleet_wf(self.boats)
    }

    /// What the player answers to a request to place the boat `boat_id` at
    /// `(x, y)`.
    pub open spec fn placement(self, boat_id: u128, x: u32, y: u32) -> Result<(), GameError> {
        if !self.boats.contains_key(boat_id) {
            Err(GameError::UnknownBoat)
        } else {
            match self.board.placement(self.boats[boat_id].moved_to(x, y)) {
                Ok(_) => Ok(()),
                Err(e) => Err(GameError::of_placement(e)),
            }
        }
    }

    /// The player after a request to place the boat `boat_id` at `(x, y)`.
    ///
    /// A boat that the fleet has is moved to `(x, y)` whether or not the
    /// board then accepts it: after a refusal it keeps the origin that was
    /// tried.
    pub open spec fn place_boat(self, boat_id: u128, x: u32, y: u32) -> PlayerView {
        if !self.boats.contains_key(boat_id) {
            self
        } else {
            let moved = self.boats[boat_id].moved_to(x, y);
            if self.board.placement(moved) is Ok {
                PlayerView {
                    board: self.board.with_boat(moved),
                    boats: self.boats.insert(boat_id, moved.placed()),
                    ..self
                }
            } else {
                PlayerView { boats: self.boats.insert(boat_id, moved), ..self }
            }
        }
    }

    /// The player after a shot at `(x, y)`: the cell is marked, and so is the
    /// piece that the cell is linked to, if the fleet has it.
    pub open spec fn hit(self, x: int, y: int) -> PlayerView {
        PlayerView {
            board: self.board.hit(x, y),
            boats: self.board.fleet_after_hit(self.boats, x, y),
            ..self
        }
    }

    /// The player after the shots of `shots`, one after the other.
    pub open spec fn hits(self, shots: Seq<(int, int)>) -> PlayerView
        decreases shots.len(),
    {
        if shots.len() == 0 {
            self
        } else {
            self.hits(shots.drop_last()).hit(shots.last().0, shots.last().1)
        }
    }

    /// The boat `boat_id` lies on the board where its origin says: its
    /// rectangle is inside the board and each cell of it is linked to the
    /// boat's piece there.
    pub open spec fn docked(self, boat_id: u128) -> bool {
        &&& self.boats.contains_key(boat_id)
        &&& self.boats[boat_id].wf()
        &&& self.boats[boat_id].id == boat_id
        &&& self.board.fits(self.boats[boat_id])
        &&& forall|cx: int, cy: int| #[trigger]
            self.boats[boat_id].covers(cx, cy) ==> self.board.cell(cx, cy).piece == Some(
                self.boats[boat_id].piece_ref(cx, cy),
            )
    }

    /// Some boat of the fleet has a piece that is not hit.
    pub open spec fn alive(self) -> bool {
        exists|id: u128| #[trigger] self.boats.contains_key(id) && self.boats[id].afloat()
    }
}

/// A second shot at a cell changes nothing and gets the answer of the first.
pub proof fn lemma_player_hit_twice(player: PlayerView, x: int, y: int)
    requires
        player.wf(),
    ensures
        player.hit(x, y).hit(x, y) == player.hit(x, y),
        player.hit(x, y).board.in_bounds(x, y) == player.board.in_bounds(x, y),
        player.hit(x, y).board.occupied(x, y) == player.board.occupied(x, y),
{
    lemma_hit_twice(player.board, x, y);
    lemma_hit_frame(player.board, x, y);
    let once = player.hit(x, y);
    let twice = once.hit(x, y);
    if player.board.in_bounds(x, y) {
        assert(once.board.cell(x, y).piece == player.board.cell(x, y).piece);
        match player.board.cell(x, y).piece {
            Some(link) => {
                if player.boats.contains_key(link.boat_id) {
                    let boat = player.boats[link.boat_id];
                    let index = link.index as int;
                    assert(boat.hit_piece(index).hit_piece(index).hits =~= boat.hit_piece(
                        index,
                    ).hits);
                }
            },
            None => {},
        }
        assert(twice.boats =~= once.boats);
    }
}

/// A request to place a boat, granted or not, leaves a well-formed player
/// well formed.
pub proof fn lemma_place_boat_keeps_wf(player: PlayerView, boat_id: u128, x: u32, y: u32)
    requires
        player.wf(),
    ensures
        player.place_boat(boat_id, x, y).wf(),
        player.place_boat(boat_id, x, y).board.x_len() == player.board.x_len(),
        player.place_boat(boat_id, x, y).board.y_len() == player.board.y_len(),
        player.place_boat(boat_id, x, y).name == player.name,
{
    if player.boats.contains_key(boat_id) {
        let moved = player.boats[boat_id].moved_to(x, y);
        if player.board.placement(moved) is Ok {
            lemma_placed_boat_occupies(player.board, moved, 0, 0);
        }
    }
}

/// A shot leaves a well-formed player well formed.
pub proof fn lemma_hit_keeps_wf(player: PlayerView, x: int, y: int)
    requires
        player.wf(),
    ensures
        player.hit(x, y).wf(),
        player.hit(x, y).board.x_len() == player.board.x_len(),
        player.hit(x, y).board.y_len() == player.board.y_len(),
        player.hit(x, y).name == player.name,
{
    lemma_hit_frame(player.board, x, y);
}

/// A boat that the board accepts is docked afterwards.
pub proof fn lemma_placed_boat_docked(player: PlayerView, boat_id: u128, x: u32, y: u32)
    requires
        player.wf(),
        player.placement(boat_id, x, y) is Ok,
    ensures
        player.place_boat(boat_id, x, y).wf(),
        player.place_boat(boat_id, x, y).docked(boat_id),
        player.place_boat(boat_id, x, y).boats[boat_id].is_placed,
        player.place_boat(boat_id, x, y).boats[boat_id].x == x,
        player.place_boat(boat_id, x, y).boats[boat_id].y == y,
        player.place_boat(boat_id, x, y).boats[boat_id].hits == player.boats[boat_id].hits,
{
    let moved = player.boats[boat_id].moved_to(x, y);
    let after = player.place_boat(boat_id, x, y);
    lemma_placed_boat_occupies(player.board, moved, 0, 0);
    assert forall|cx: int, cy: int| #[trigger] after.boats[boat_id].covers(cx, cy) implies after.board.cell(
        cx,
        cy,
    ).piece == Some(after.boats[boat_id].piece_ref(cx, cy)) by {
        lemma_placed_boat_occupies(player.board, moved, cx, cy);
    }
}

/// A shot at a player with a docked boat leaves the boat docked and of the
/// same shape, takes back no hit, and marks the piece on the cell it lands
/// on if the boat lies there.
pub proof fn lemma_hit_docked(player: PlayerView, boat_id: u128, x: int, y: int)
    requires
        player.board.wf(),
        player.docked(boat_id),
    ensures
        player.hit(x, y).board.wf(),
        player.hit(x, y).docked(boat_id),
        player.hit(x, y).boats[boat_id].hits.len() == player.boats[boat_id].hits.len(),
        player.hit(x, y).boats[boat_id] == (BoatView {
            hits: player.hit(x, y).boats[boat_id].hits,
            ..player.boats[boat_id]
        }),
        forall|i: int|
            0 <= i < player.boats[boat_id].hits.len() && player.boats[boat_id].hits[i]
                ==> #[trigger] player.hit(x, y).boats[boat_id].hits[i],
        player.boats[boat_id].covers(x, y) ==> player.hit(x, y).boats[boat_id].hits[player.boats[boat_id].index_of(
            x,
            y,
        )],
{
    let boat = player.boats[boat_id];
    let after = player.hit(x, y);
    lemma_hit_frame(player.board, x, y);
    if boat.covers(x, y) {
        lemma_index_in_range(boat, x, y);
        assert(player.board.in_bounds(x, y));
        assert(player.board.cell(x, y).piece == Some(boat.piece_ref(x, y)));
    }
    assert forall|cx: int, cy: int| #[trigger] after.boats[boat_id].covers(cx, cy) implies after.board.cell(
        cx,
        cy,
    ).piece == Some(after.boats[boat_id].piece_ref(cx, cy)) by {
        assert(boat.covers(cx, cy));
        assert(player.board.in_bounds(cx, cy));
    }
}

/// Shots at every cell of a docked boat, in any order and among any other
/// shots, sink it.
pub proof fn lemma_shots_sink_boat(player: PlayerView, boat_id: u128, shots: Seq<(int, int)>)
    requires
        player.board.wf(),
        player.docked(boat_id),
        forall|cx: int, cy: int| #[trigger]
            player.boats[boat_id].covers(cx, cy) ==> shots.contains((cx, cy)),
    ensures
        player.hits(shots).boats.contains_key(boat_id),
        player.hits(shots).boats[boat_id].sunk(),
{
    let boat = player.boats[boat_id];
    let after = player.hits(shots).boats[boat_id];
    lemma_hits_docked(player, boat_id, shots);
    assert forall|i: int| 0 <= i < after.hits.len() implies after.hits[i] by {
        let (cx, cy) = lemma_piece_cell(boat, i);
        assert(boat.covers(cx, cy));
        assert(shots.contains((cx, cy)));
    }
}

/// What a run of shots does to a docked boat: it stays docked and of the
/// same shape, and the piece on every cell that was shot at is hit.
pub proof fn lemma_hits_docked(player: PlayerView, boat_id: u128, shots: Seq<(int, int)>)
    requires
        player.board.wf(),
        player.docked(boat_id),
    ensures
        player.hits(shots).board.wf(),
        player.hits(shots).docked(boat_id),
        player.hits(shots).boats[boat_id] == (BoatView {
            hits: player.hits(shots).boats[boat_id].hits,
            ..player.boats[boat_id]
        }),
        player.hits(shots).boats[boat_id].hits.len() == player.boats[boat_id].hits.len(),
        forall|i: int|
            0 <= i < player.boats[boat_id].hits.len() && player.boats[boat_id].hits[i]
                ==> #[trigger] player.hits(shots).boats[boat_id].hits[i],
        forall|cx: int, cy: int|
            player.boats[boat_id].covers(cx, cy) && #[trigger] shots.contains((cx, cy))
                ==> player.hits(shots).boats[boat_id].hits[player.boats[boat_id].index_of(cx, cy)],
    decreases shots.len(),
{
    if shots.len() > 0 {
        let boat = player.boats[boat_id];
        let before = player.hits(shots.drop_last());
        let (x, y) = shots.last();
        lemma_hits_docked(player, boat_id, shots.drop_last());
        lemma_hit_docked(before, boat_id, x, y);
        let after = before.hit(x, y);
        assert(after == player.hits(shots));
        assert forall|cx: int, cy: int|
            boat.covers(cx, cy) && #[trigger] shots.contains((cx, cy)) implies after.boats[boat_id].hits[boat.index_of(
            cx,
            cy,
        )] by {
            lemma_index_in_range(boat, cx, cy);
            let k = choose|k: int| 0 <= k < shots.len() && shots[k] == (cx, cy);
            if k == shots.len() - 1 {
                assert(before.boats[boat_id].covers(x, y));
                assert(before.boats[boat_id].index_of(x, y) == boat.index_of(cx, cy));
            } else {
                assert(shots.drop_last()[k] == (cx, cy));
                assert(shots.drop_last().contains((cx, cy)));
                assert(before.boats[boat_id].hits[boat.index_of(cx, cy)]);
            }
        }
    }
}

/// A player whose boats are all sunk is not alive.
pub proof fn lemma_all_sunk_not_alive(player: PlayerView)
    requires
        forall|id: u128| #[trigger] player.boats.contains_key(id) ==> player.boats[id].sunk(),
    ensures
        !player.alive(),
{
}

/// The cell on which piece `index` of a well-formed boat lies.
pub proof fn lemma_piece_cell(boat: BoatView, index: int) -> (cell: (int, int))
    requires
        boat.wf(),
        0 <= index < boat.hits.len(),
    ensures
        boat.covers(cell.0, cell.1),
        boat.index_of(cell.0, cell.1) == index,
{
    let w = boat.x_len as int;
    assert(w > 0) by (nonlinear_arith)
        requires
            0 <= index < w * boat.y_len,
            w >= 0,
    ;
    let cx = boat.x + index % w;
    let cy = boat.y + index / w;
    vstd::arithmetic::div_mod::lemma_fundamental_div_mod(index, w);
    assert(0 <= index / w < boat.y_len) by (nonlinear_arith)
        requires
            0 <= index < w * boat.y_len,
            w > 0,
            index == w * (index / w) + index % w,
            0 <= index % w < w,
    ;
    assert(boat.index_of(cx, cy) == index) by (nonlinear_arith)
        requires
            index == w * (index / w) + index % w,
            boat.index_of(cx, cy) == (cy - boat.y) * w + (cx - boat.x),
            cx == boat.x + index % w,
            cy == boat.y + index / w,
    ;
    (cx, cy)
}

/// A shot at a cell of a docked boat whose piece there is not hit yet hits
/// that piece and no other: the boat has one more piece hit, and no other
/// boat changes.
pub proof fn lemma_hit_hits_one_piece(player: PlayerView, boat_id: u128, x: int, y: int)
    requires
        player.board.wf(),
        player.docked(boat_id),
        player.boats[boat_id].covers(x, y),
        !player.boats[boat_id].hits[player.boats[boat_id].index_of(x, y)],
    ensures
        player.hit(x, y).boats == player.boats.insert(
            boat_id,
            player.boats[boat_id].hit_piece(player.boats[boat_id].index_of(x, y)),
        ),
        player.hit(x, y).boats[boat_id].hits == player.boats[boat_id].hits.update(
            player.boats[boat_id].index_of(x, y),
            true,
        ),
        player.hit(x, y).boats[boat_id].hit_count() == player.boats[boat_id].hit_count() + 1,
{
    let boat = player.boats[boat_id];
    lemma_index_in_range(boat, x, y);
    assert(player.board.in_bounds(x, y));
    assert(player.board.cell(x, y).piece == Some(boat.piece_ref(x, y)));
    lemma_count_one_more(boat.hits, boat.index_of(x, y));
}

/// Once a boat was placed and every cell of its rectangle was shot at, the
/// boat is sunk; if it is the player's only boat, the player is not alive.
pub proof fn lemma_sinking_the_only_boat(
    player: PlayerView,
    boat_id: u128,
    x: u32,
    y: u32,
    shots: Seq<(int, int)>,
)
    requires
        player.wf(),
        player.placement(boat_id, x, y) is Ok,
        forall|cx: int, cy: int| #[trigger]
            player.boats[boat_id].moved_to(x, y).covers(cx, cy) ==> shots.contains((cx, cy)),
    ensures
        player.place_boat(boat_id, x, y).hits(shots).boats[boat_id].sunk(),
        player.boats.dom() =~= set![boat_id] ==> !player.place_boat(boat_id, x, y).hits(
            shots,
        ).alive(),
{
    let placed = player.place_boat(boat_id, x, y);
    lemma_placed_boat_docked(player, boat_id, x, y);
    assert forall|cx: int, cy: int| #[trigger]
        placed.boats[boat_id].covers(cx, cy) implies shots.contains((cx, cy)) by {
        assert(player.boats[boat_id].moved_to(x, y).covers(cx, cy));
    }
    lemma_shots_sink_boat(placed, boat_id, shots);
    if player.boats.dom() =~= set![boat_id] {
        lemma_hits_keep_fleet(placed, shots);
        let after = placed.hits(shots);
        assert forall|id: u128| #[trigger] after.boats.contains_key(id) implies after.boats[id].sunk() by {
            assert(placed.boats.contains_key(id));
            assert(player.boats.dom().contains(id));
        }
    }
}

/// Shots neither add a boat to the fleet nor take one away.
pub proof fn lemma_hits_keep_fleet(player: PlayerView, shots: Seq<(int, int)>)
    ensures
        player.hits(shots).boats.dom() =~= player.boats.dom(),
    decreases shots.len(),
{
    if shots.len() > 0 {
        lemma_hits_keep_fleet(player, shots.drop_last());
    }
}

/// One participant: a name, a board and a fleet.
#[derive(Debug)]
pub struct Player {
    name: String,
    board: Board,
    boats: HashMap<u128, Boat>,
}

impl View for Player {
    type V = PlayerView;

    closed spec fn view(&self) -> PlayerView {
        PlayerView { name: self.name@, board: self.board@, boats: fleet_view(self.boats@) }
    }
}

impl Player {
    /// A player of that name with that board and that fleet.
    pub fn new(name: &str, board: Board, boats: HashMap<u128, Boat>) -> (player: Self)
        ensures
            player@ == (PlayerView { name: name@, board: board@, boats: fleet_view(boats@) }),
    {
        Self { name: String::from_str(name), board, boats }
    }

    /// The player's name.
    pub fn name(&self) -> (name: &String)
        ensures
            name@ == self@.name,
    {
        &self.name
    }

    /// The player's board.
    pub fn board(&self) -> (board: &Board)
        ensures
            board@ == self@.board,
    {
        &self.board
    }

    /// The board, to change in place. Whatever the caller leaves there is the
    /// player's board afterwards.
    ///
    /// A shot at the board needs the fleet that lies on it, so that the piece
    /// is marked with the cell: `Player::hit` hands the board the player's
    /// own fleet.
    pub fn mut_board(&mut self) -> (board: &mut Board)
        ensures
            board@ == old(self)@.board,
            final(self)@ == (PlayerView { board: final(board)@, ..old(self)@ }),
        no_unwind
    {
        &mut self.board
    }

    /// The boat filed under `boat_id`, if there is one.
    pub fn boat(&self, boat_id: &u128) -> (boat: Option<&Boat>)
        ensures
            boat is Some <==> self@.boats.contains_key(*boat_id),
            boat is Some ==> boat->Some_0@ == self@.boats[*boat_id],
    {
        broadcast use vstd::std_specs::hash::group_hash_axioms;

        self.boats.get(boat_id)
    }

    /// The boat filed under `boat_id`, to change in place.
    pub fn mut_boat(&mut self, boat_id: &u128) -> (boat: Option<&mut Boat>)
        ensures
            boat is Some <==> old(self)@.boats.contains_key(*boat_id),
            boat is Some ==> boat->Some_0@ == old(self)@.boats[*boat_id],
            boat is Some ==> final(self)@ == (PlayerView {
                boats: old(self)@.boats.insert(*boat_id, final(boat->Some_0)@),
                ..old(self)@
            }),
            boat is None ==> final(self)@ == old(self)@,
    {
        broadcast use vstd::std_specs::hash::group_hash_axioms;

        match self.boats.entry(*boat_id) {
            Entry::Occupied(entry) => {
                let boat = entry.into_mut();
                proof {
                    assert(fleet_view(old(self).boats@.insert(*boat_id, *final(boat)))
                        =~= old(self)@.boats.insert(*boat_id, final(boat)@));
                }
                Some(boat)
            },
            Entry::Vacant(_) => {
                proof {
                    assert(old(self).boats@.remove(*boat_id) =~= old(self).boats@);
                }
                None
            },
        }
    }

    /// The fleet: each boat under its identifier.
    pub fn boats(&self) -> (boats: &HashMap<u128, Boat>)
        ensures
            fleet_view(boats@) == self@.boats,
    {
        &self.boats
    }

    /// The fleet, to change in place.
    pub fn mut_boats(&mut self) -> (boats: &mut HashMap<u128, Boat>)
        ensures
            fleet_view(boats@) == old(self)@.boats,
            final(self)@ == (PlayerView { boats: fleet_view(final(boats)@), ..old(self)@ }),
    {
        &mut self.boats
    }

    /// Moves the boat `boat_id` to `(x, y)` and asks the board to place it
    /// there.
    ///
    /// After a refusal by the board the boat keeps the origin `(x, y)`; the
    /// board is unchanged.
    pub fn place_boat(&mut self, boat_id: u128, x: u32, y: u32) -> (outcome: Result<(), GameError>)
        ensures
            outcome == old(self)@.placement(boat_id, x, y),
            final(self)@ == old(self)@.place_boat(boat_id, x, y),
    {
        broadcast use vstd::std_specs::hash::group_hash_axioms;

        match self.boats.entry(boat_id) {
            Entry::Occupied(mut entry) => {
                let boat = entry.get_mut();
                boat.set_x(x);
                boat.set_y(y);
                let placed = self.board.place_boat(boat);
                proof {
                    assert(fleet_view(old(self).boats@.insert(boat_id, *boat))
                        =~= old(self)@.boats.insert(boat_id, boat@));
                }
                match placed {
                    Ok(_) => Ok(()),
                    Err(e) => Err(GameError::from_placement(e)),
                }
            },
            Entry::Vacant(_) => {
                proof {
                    assert(old(self).boats@.remove(boat_id) =~= old(self).boats@);
                }
                Err(GameError::UnknownBoat)
            },
        }
    }

    /// Shoots at `(x, y)` on the player's board: marks the cell and, in the
    /// same step, the boat piece that lies on it. Reports whether a piece
    /// lies there.
    pub fn hit(&mut self, x: u32, y: u32) -> (outcome: Result<bool, OutOfBounds>)
        ensures
            outcome is Ok <==> old(self)@.board.in_bounds(x as int, y as int),
            outcome is Ok ==> outcome->Ok_0 == old(self)@.board.occupied(x as int, y as int),
            final(self)@ == old(self)@.hit(x as int, y as int),
    {
        self.board.hit(&mut self.boats, x, y)
    }

    /// The number of pieces of all the boats of the fleet together.
    pub fn n_pieces(&self) -> (n: u128)
        ensures
            n == fleet_view_pieces(self@.boats),
    {
        broadcast use vstd::std_specs::hash::group_hash_axioms;

        let mut n: u128 = 0;
        let n_boats: usize = self.boats.len();
        let ghost all = self.boats.iter().remaining();
        assert(all.len() == n_boats);
        for entry in it: self.boats.iter()
            invariant
                it.seq() == all,
                all.len() <= usize::MAX,
                n == listed_pieces(all.take(it.index())),
                n <= it.index() * u32::MAX,
        {
            let (_, boat) = entry;
            assert(all.take(it.index() + 1).drop_last() =~= all.take(it.index()));
            assert((it.index() + 1) * u32::MAX <= usize::MAX * u32::MAX) by (nonlinear_arith)
                requires
                    0 <= it.index() < usize::MAX,
            ;
            n = n + boat.get_n_pieces() as u128;
        }
        proof {
            assert(all.take(all.len() as int) =~= all);
            lemma_listed_pieces(self.boats@, all);
        }
        n
    }

    /// Whether the piece behind a handle is hit. `None` if the fleet has no
    /// such piece.
    pub fn piece_is_hit(&self, link: PieceRef) -> (hit: Option<bool>)
        ensures
            hit is Some <==> self@.boats.contains_key(link.boat_id) && link.index
                < self@.boats[link.boat_id].hits.len(),
            hit is Some ==> hit->Some_0 == self@.boats[link.boat_id].hits[link.index as int],
    {
        broadcast use vstd::std_specs::hash::group_hash_axioms;

        match self.boats.get(&link.boat_id) {
            Some(boat) => match boat.piece(link.index) {
                Some(piece) => Some(piece.is_hit()),
                None => None,
            },
            None => None,
        }
    }

    /// Whether some boat of the fleet has a piece that is not hit.
    pub fn is_alive(&self) -> (alive: bool)
        ensures
            alive == self@.alive(),
    {
        broadcast use vstd::std_specs::hash::group_hash_axioms;

        let mut alive = false;
        let ghost all = self.boats.values().remaining();
        for boat in it: self.boats.values()
            invariant
                it.seq() == all,
                alive == exists|j: int| 0 <= j < it.index() && (#[trigger] all[j])@.afloat(),
        {
            if boat.is_afloat() {
                alive = true;
            }
        }
        proof {
            let fleet = self.boats@;
            let views = self@.boats;
            assert(all.unref().to_set() == fleet.values());
            if alive {
                let j = choose|j: int| 0 <= j < all.len() && (#[trigger] all[j])@.afloat();
                assert(all.unref()[j] == *all[j]);
                assert(all.unref().to_set().contains(*all[j]));
                assert(fleet.values().contains(*all[j]));
                let id = choose|id: u128| fleet.contains_key(id) && fleet[id] == *all[j];
                assert(views.contains_key(id) && views[id].afloat());
            }
            if self@.alive() {
                let id = choose|id: u128| #[trigger] views.contains_key(id) && views[id].afloat();
                assert(fleet.contains_key(id));
                assert(fleet.values().contains(fleet[id]));
                assert(all.unref().to_set().contains(fleet[id]));
                assert(all.unref().contains(fleet[id]));
                let j = choose|j: int| 0 <= j < all.unref().len() && all.unref()[j] == fleet[id];
                assert(*all[j] == fleet[id]);
                assert(all[j]@.afloat());
                assert(alive);
            }
        }
        alive
    }

    /// The player in words: the name.
    pub fn to_string(&self) -> (text: String)
        ensures
            text@ == self@.name,
    {
        self.name.clone()
    }
}

} // verus!
