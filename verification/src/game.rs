use crate::board::{Board, BoardView};
use crate::boat::{fleet_view, Boat};
use crate::error::{DuplicateName, GameError};
use crate::fleet::{
    boats_vec_to_map, create_boats, distinct_ids, fleet_map, fleet_pieces, fleet_sizes,
    get_n_boat_pieces_per_player, is_fleet, lemma_fleet_map_keeps_all, lemma_fleet_map_wf,
    lemma_fleet_sizes_range, lemma_fleet_wf, pieces_per_player,
};
use crate::player::{
    fleet_view_pieces, fleet_wf, lemma_hit_keeps_wf, lemma_place_boat_keeps_wf,
    lemma_player_hit_twice, Player, PlayerView,
};
use crate::text::{decimal, push_decimal};
use std::collections::HashMap;
use vstd::prelude::*;
use vstd::string::StringExecFns;

verus! {

/// The least number of columns of a board.
pub const MIN_BOARD_X_LEN: u32 = 5;

/// The least number of rows of a board.
pub const MIN_BOARD_Y_LEN: u32 = 5;

/// What a game that is refused for its number of columns says.
pub open spec fn invalid_x_len_message(provided: u32) -> Seq<char> {
    "Expected x_len shall be in the range "@ + decimal(MIN_BOARD_X_LEN as nat) + ".. Provided: "@
        + decimal(provided as nat)
}

/// What a game that is refused for its number of rows says.
pub open spec fn invalid_y_len_message(provided: u32) -> Seq<char> {
    "Expected y_len shall be in the range "@ + decimal(MIN_BOARD_Y_LEN as nat) + ".. Provided: "@
        + decimal(provided as nat)
}

/// A game that cannot be: its board is too small.
#[derive(Debug)]
pub struct InvalidGame {
    message: String,
}

impl View for InvalidGame {
    type V = Seq<char>;

    closed spec fn view(&self) -> Seq<char> {
        self.message@
    }
}

impl InvalidGame {
    /// The reason, in words.
    pub fn to_string(&self) -> (text: String)
        ensures
            text@ == self@,
    {
        self.message.clone()
    }
}

/// How a turn's shot at a cell went.
#[derive(Clone, Copy, Debug, PartialEq, Eq, Structural)]
pub enum Shot {
    /// The cell was shot at before: the shot is not taken.
    AlreadyAttacked,
    /// A boat piece lies on the cell.
    Hit,
    /// The cell is open water.
    Miss,
}

/// The mathematical value of a game: the board size that all players share
/// and the players in the order in which they joined.
#[verifier::ext_equal]
pub struct GameView {
    pub board_x_len: u32,
    pub board_y_len: u32,
    pub players: Seq<PlayerView>,
}

impl GameView {
    /// A player of that name has joined.
    pub open spec fn has_player(self, name: Seq<char>) -> bool {
        exists|i: int| 0 <= i < self.players.len() && (#[trigger] self.players[i]).name == name
    }

    /// `i` is the place of the first player of that name.
    pub open spec fn is_position(self, name: Seq<char>, i: int) -> bool {
        &&& 0 <= i < self.players.len()
        &&& self.players[i].name == name
        &&& forall|j: int| 0 <= j < i ==> (#[trigger] self.players[j]).name != name
    }

    /// The place of the first player of that name.
    pub open spec fn position(self, name: Seq<char>) -> int {
        choose|i: int| self.is_position(name, i)
    }

    /// The names, in the order in which the players joined.
    pub open spec fn names(self) -> Seq<Seq<char>> {
        Seq::new(self.players.len(), |i: int| self.players[i].name)
    }

    /// No two players share a name.
    pub open spec fn names_unique(self) -> bool {
        forall|i: int, j: int|
            0 <= i < j < self.players.len() ==> (#[trigger] self.players[i]).name
                != (#[trigger] self.players[j]).name
    }

    /// The board is at least five by five and no two players share a name.
    /// This holds of every game.
    pub open spec fn valid(self) -> bool {
        &&& self.board_x_len >= MIN_BOARD_X_LEN
        &&& self.board_y_len >= MIN_BOARD_Y_LEN
        &&& self.names_unique()
    }

    /// The game is valid and every player is well formed on a board of the
    /// game's size. A caller who changes a player's board in place decides
    /// whether this goes on to hold.
    pub open spec fn wf(self) -> bool {
        &&& self.valid()
        &&& forall|i: int|
            0 <= i < self.players.len() ==> {
                &&& (#[trigger] self.players[i]).wf()
                &&& self.players[i].board.x_len() == self.board_x_len
                &&& self.players[i].board.y_len() == self.board_y_len
            }
    }

    /// The game with one more player.
    pub open spec fn with_player(self, player: PlayerView) -> GameView {
        GameView { players: self.players.push(player), ..self }
    }

    /// The game with `player` in the place of the player of that name.
    pub open spec fn with_player_at(self, name: Seq<char>, player: PlayerView) -> GameView {
        GameView { players: self.players.update(self.position(name), player), ..self }
    }

    /// What the game answers to a request to place a boat.
    pub open spec fn placement(self, name: Seq<char>, boat_id: u128, x: u32, y: u32) -> Result<
        (),
        GameError,
    > {
        if self.has_player(name) {
            self.players[self.position(name)].placement(boat_id, x, y)
        } else {
            Err(GameError::UnknownPlayer)
        }
    }

    /// The game after a request to place a boat.
    pub open spec fn place_boat(self, name: Seq<char>, boat_id: u128, x: u32, y: u32) -> GameView {
        if self.has_player(name) {
            self.with_player_at(name, self.players[self.position(name)].place_boat(boat_id, x, y))
        } else {
            self
        }
    }

    /// What the game answers to a shot at `(x, y)` on the board of the player
    /// of that name: whether a boat piece lies there.
    pub open spec fn shot(self, name: Seq<char>, x: int, y: int) -> Result<bool, GameError> {
        if !self.has_player(name) {
            Err(GameError::UnknownPlayer)
        } else if !self.players[self.position(name)].board.in_bounds(x, y) {
            Err(GameError::OutOfBounds)
        } else {
            Ok(self.players[self.position(name)].board.occupied(x, y))
        }
    }

    /// The game after a shot at `(x, y)` on the board of the player of that
    /// name.
    pub open spec fn hit(self, name: Seq<char>, x: int, y: int) -> GameView {
        if self.has_player(name) {
            self.with_player_at(name, self.players[self.position(name)].hit(x, y))
        } else {
            self
        }
    }

    /// What the game answers to a turn's shot at `(x, y)` on the board of
    /// the player of that name.
    pub open spec fn turn(self, name: Seq<char>, x: int, y: int) -> Result<Shot, GameError> {
        if !self.has_player(name) {
            Err(GameError::UnknownPlayer)
        } else if !self.players[self.position(name)].board.in_bounds(x, y) {
            Err(GameError::OutOfBounds)
        } else if self.players[self.position(name)].board.attacked(x, y) {
            Ok(Shot::AlreadyAttacked)
        } else if self.players[self.position(name)].board.occupied(x, y) {
            Ok(Shot::Hit)
        } else {
            Ok(Shot::Miss)
        }
    }

    /// The game after a turn's shot: the cell is shot at unless it was shot
    /// at before.
    pub open spec fn shoot(self, name: Seq<char>, x: int, y: int) -> GameView {
        match self.turn(name, x, y) {
            Ok(Shot::Hit) | Ok(Shot::Miss) => self.hit(name, x, y),
            _ => self,
        }
    }

    /// Player `i` is alive and nobody else is.
    pub open spec fn sole_survivor(self, i: int) -> bool {
        &&& 0 <= i < self.players.len()
        &&& self.players[i].alive()
        &&& forall|j: int|
            0 <= j < self.players.len() && j != i ==> !(#[trigger] self.players[j]).alive()
    }

    /// Somebody has won: exactly one player is alive.
    pub open spec fn decided(self) -> bool {
        exists|i: int| self.sole_survivor(i)
    }
}

/// The first player of a name is one player.
pub proof fn lemma_position_unique(game: GameView, name: Seq<char>, i: int)
    requires
        game.is_position(name, i),
    ensures
        game.has_player(name),
        game.position(name) == i,
{
    let k = game.position(name);
    assert(game.is_position(name, k));
    if k < i {
        assert(game.players[k].name != name);
    }
    if i < k {
        assert(game.players[i].name != name);
    }
}

/// With two players of whom one is not alive and the other is, the other has
/// won.
pub proof fn lemma_last_of_two_wins(game: GameView, loser: int)
    requires
        game.players.len() == 2,
        0 <= loser < 2,
        !game.players[loser].alive(),
        game.players[1 - loser].alive(),
    ensures
        game.sole_survivor(1 - loser),
        game.decided(),
{
    assert(game.sole_survivor(1 - loser));
}

/// Games with the same names in the same order have unique names together.
pub proof fn lemma_same_names(a: GameView, b: GameView)
    requires
        a.names() == b.names(),
        a.names_unique(),
    ensures
        b.names_unique(),
{
    assert(a.players.len() == a.names().len());
    assert(b.players.len() == b.names().len());
    assert forall|i: int, j: int| 0 <= i < j < b.players.len() implies (#[trigger] b.players[i]).name
        != (#[trigger] b.players[j]).name by {
        assert(a.names()[i] == a.players[i].name);
        assert(a.names()[j] == a.players[j].name);
        assert(b.names()[i] == b.players[i].name);
        assert(b.names()[j] == b.players[j].name);
    }
}

/// At most one player is the sole survivor.
pub proof fn lemma_one_winner(game: GameView, i: int, j: int)
    requires
        game.sole_survivor(i),
        game.sole_survivor(j),
    ensures
        i == j,
{
    if i != j {
        assert(!game.players[j].alive());
    }
}

/// A second shot at a cell changes nothing and gets the answer of the first.
pub proof fn lemma_game_hit_twice(game: GameView, name: Seq<char>, x: int, y: int)
    requires
        forall|i: int| 0 <= i < game.players.len() ==> (#[trigger] game.players[i]).wf(),
    ensures
        game.hit(name, x, y).hit(name, x, y) == game.hit(name, x, y),
        game.hit(name, x, y).shot(name, x, y) == game.shot(name, x, y),
{
    if game.has_player(name) {
        let i = game.position(name);
        lemma_position_exists(game, name);
        let once = game.hit(name, x, y);
        lemma_player_hit_twice(game.players[i], x, y);
        assert(once.is_position(name, i)) by {
            assert forall|j: int| 0 <= j < i implies (#[trigger] once.players[j]).name != name by {
                assert(game.players[j].name != name);
            }
        }
        lemma_position_unique(once, name, i);
        assert(once.hit(name, x, y).players =~= once.players);
    } else {
        assert(game.hit(name, x, y) == game);
    }
}

/// Among the players of a name there is a first.
pub proof fn lemma_position_exists(game: GameView, name: Seq<char>)
    requires
        game.has_player(name),
    ensures
        game.is_position(name, game.position(name)),
{
    let i = choose|i: int| 0 <= i < game.players.len() && (#[trigger] game.players[i]).name == name;
    lemma_first_before(game, name, i);
}

proof fn lemma_first_before(game: GameView, name: Seq<char>, i: int)
    requires
        0 <= i < game.players.len(),
        game.players[i].name == name,
    ensures
        exists|k: int| game.is_position(name, k),
    decreases i,
{
    if forall|j: int| 0 <= j < i ==> (#[trigger] game.players[j]).name != name {
        assert(game.is_position(name, i));
    } else {
        let j = choose|j: int| 0 <= j < i && (#[trigger] game.players[j]).name == name;
        lemma_first_before(game, name, j);
    }
}

/// Putting a well-formed player of the same name and the same board size in
/// the place of a player leaves a well-formed game well formed.
pub proof fn lemma_with_player_at_keeps_wf(game: GameView, name: Seq<char>, player: PlayerView)
    requires
        game.wf(),
        game.has_player(name),
        player.wf(),
        player.name == name,
        player.board.x_len() == game.board_x_len,
        player.board.y_len() == game.board_y_len,
    ensures
        game.with_player_at(name, player).wf(),
        game.with_player_at(name, player).names() == game.names(),
{
    lemma_position_exists(game, name);
    let at = game.position(name);
    let after = game.with_player_at(name, player);
    assert forall|i: int, j: int| 0 <= i < j < after.players.len() implies (
    #[trigger] after.players[i]).name != (#[trigger] after.players[j]).name by {
        assert(game.players[i].name != game.players[j].name);
    }
    assert forall|i: int| 0 <= i < after.players.len() implies {
        &&& (#[trigger] after.players[i]).wf()
        &&& after.players[i].board.x_len() == after.board_x_len
        &&& after.players[i].board.y_len() == after.board_y_len
    } by {
        if i != at {
            assert(game.players[i].wf());
        }
    }
    assert(after.names() =~= game.names());
}

/// Requests to place a boat and shots leave a well-formed game well formed.
pub proof fn lemma_moves_keep_wf(game: GameView, name: Seq<char>, boat_id: u128, x: u32, y: u32)
    requires
        game.wf(),
    ensures
        game.place_boat(name, boat_id, x, y).wf(),
        game.hit(name, x as int, y as int).wf(),
        game.shoot(name, x as int, y as int).wf(),
{
    if game.has_player(name) {
        lemma_position_exists(game, name);
        let player = game.players[game.position(name)];
        lemma_place_boat_keeps_wf(player, boat_id, x, y);
        lemma_with_player_at_keeps_wf(game, name, player.place_boat(boat_id, x, y));
        lemma_hit_keeps_wf(player, x as int, y as int);
        lemma_with_player_at_keeps_wf(game, name, player.hit(x as int, y as int));
    }
}

/// A turn-based naval battle: a board size and the players that joined.
#[derive(Debug)]
pub struct RedAlert {
    board_x_len: u32,
    board_y_len: u32,
    players: Vec<Player>,
}

impl View for RedAlert {
    type V = GameView;

    closed spec fn view(&self) -> GameView {
        GameView {
            board_x_len: self.board_x_len,
            board_y_len: self.board_y_len,
            players: Seq::new(self.players.len() as nat, |i: int| self.players[i]@),
        }
    }
}

/// The board of player `i`, to change in place.
fn player_mut_board(players: &mut Vec<Player>, i: usize) -> (board: &mut Board)
    requires
        i < old(players).len(),
    ensures
        board@ == old(players)[i as int]@.board,
        final(players).len() == old(players).len(),
        final(players)[i as int]@ == (PlayerView {
            board: final(board)@,
            ..old(players)[i as int]@
        }),
        forall|j: int| 0 <= j < old(players).len() && j != i ==> final(players)[j] == old(players)[j],
    no_unwind
{
    players[i].mut_board()
}

impl RedAlert {
    #[verifier::type_invariant]
    spec fn inv(self) -> bool {
        &&& self.board_x_len >= MIN_BOARD_X_LEN
        &&& self.board_y_len >= MIN_BOARD_Y_LEN
        &&& forall|i: int, j: int|
            0 <= i < j < self.players.len() ==> (#[trigger] self.players[i])@.name != (
            #[trigger] self.players[j])@.name
    }

    /// What holds of every game makes its value valid.
    proof fn lemma_inv_valid(self)
        requires
            self.inv(),
        ensures
            self@.valid(),
    {
        assert forall|i: int, j: int| 0 <= i < j < self@.players.len() implies (
        #[trigger] self@.players[i]).name != (#[trigger] self@.players[j]).name by {
            assert(self.players[i]@.name != self.players[j]@.name);
        }
    }

    /// A game without players on boards of `board_x_len` by `board_y_len`
    /// cells. Neither may be under five; the number of columns is looked at
    /// first.
    pub fn new(board_x_len: u32, board_y_len: u32) -> (game: Result<RedAlert, InvalidGame>)
        ensures
            game is Ok <==> board_x_len >= MIN_BOARD_X_LEN && board_y_len >= MIN_BOARD_Y_LEN,
            game is Ok ==> game->Ok_0@ == (GameView {
                board_x_len,
                board_y_len,
                players: Seq::empty(),
            }),
            game is Err && board_x_len < MIN_BOARD_X_LEN ==> game->Err_0@ == invalid_x_len_message(
                board_x_len,
            ),
            game is Err && board_x_len >= MIN_BOARD_X_LEN ==> game->Err_0@
                == invalid_y_len_message(board_y_len),
            game is Ok ==> game->Ok_0@.wf(),
            game is Ok ==> game->Ok_0@.valid(),
    {
        if board_x_len < MIN_BOARD_X_LEN {
            let mut message = String::from_str("Expected x_len shall be in the range ");
            push_decimal(&mut message, MIN_BOARD_X_LEN);
            message.append(".. Provided: ");
            push_decimal(&mut message, board_x_len);
            return Err(InvalidGame { message });
        }
        if board_y_len < MIN_BOARD_Y_LEN {
            let mut message = String::from_str("Expected y_len shall be in the range ");
            push_decimal(&mut message, MIN_BOARD_Y_LEN);
            message.append(".. Provided: ");
            push_decimal(&mut message, board_y_len);
            return Err(InvalidGame { message });
        }
        let game = Self { board_x_len, board_y_len, players: Vec::new() };
        assert(game@.players =~= Seq::empty());
        Ok(game)
    }

    /// The number of columns of every player's board.
    pub fn board_x_len(&self) -> (x_len: u32)
        ensures
            x_len == self@.board_x_len,
            self@.valid(),
    {
        proof {
            use_type_invariant(self);
            self.lemma_inv_valid();
        }
        self.board_x_len
    }

    /// The number of rows of every player's board.
    pub fn board_y_len(&self) -> (y_len: u32)
        ensures
            y_len == self@.board_y_len,
            self@.valid(),
    {
        proof {
            use_type_invariant(self);
            self.lemma_inv_valid();
        }
        self.board_y_len
    }

    /// The place of the first player of that name.
    fn find(&self, name: &String) -> (found: Option<usize>)
        ensures
            found is Some <==> self@.has_player(name@),
            found is Some ==> self@.is_position(name@, found->Some_0 as int),
            found is Some ==> self@.position(name@) == found->Some_0,
            found is Some ==> found->Some_0 < self.players.len(),
    {
        let mut i: usize = 0;
        while i < self.players.len()
            invariant
                i <= self.players.len(),
                forall|j: int| 0 <= j < i ==> (#[trigger] self@.players[j]).name != name@,
            decreases self.players.len() - i,
        {
            if *self.players[i].name() == *name {
                proof {
                    assert(self@.players[i as int].name == name@);
                    lemma_position_unique(self@, name@, i as int);
                }
                return Some(i);
            }
            i = i + 1;
        }
        None
    }

    /// Lets a player of that name join, with an empty board of the game's
    /// size and the fleet that the board's area gives: a fifth of the cells,
    /// rounded down, in pieces. No two boats of the fleet share an
    /// identifier, so the fleet holds every boat that was built. A name that
    /// is taken is refused before anything is built.
    pub fn add_player(&mut self, name: &str) -> (outcome: Result<(), DuplicateName>)
        ensures
            outcome is Err <==> old(self)@.has_player(name@),
            outcome is Err ==> final(self)@ == old(self)@,
            outcome is Ok ==> exists|boats: Seq<Boat>|
                {
                    &&& #[trigger] is_fleet(
                        boats,
                        fleet_sizes(
                            pieces_per_player(
                                old(self)@.board_x_len as nat,
                                old(self)@.board_y_len as nat,
                            ),
                        ),
                    )
                    &&& fleet_pieces(boats) == pieces_per_player(
                        old(self)@.board_x_len as nat,
                        old(self)@.board_y_len as nat,
                    )
                    &&& distinct_ids(boats)
                    &&& final(self)@ == old(self)@.with_player(
                        PlayerView {
                            name: name@,
                            board: BoardView::blank(
                                old(self)@.board_x_len as nat,
                                old(self)@.board_y_len as nat,
                            ),
                            boats: fleet_view(fleet_map(boats)),
                        },
                    )
                },
            outcome is Ok ==> {
                let fleet = final(self)@.players.last().boats;
                let pieces = pieces_per_player(
                    old(self)@.board_x_len as nat,
                    old(self)@.board_y_len as nat,
                );
                &&& fleet.dom().finite()
                &&& fleet.dom().len() == fleet_sizes(pieces).len()
                &&& fleet_view_pieces(fleet) == pieces
            },
            old(self)@.valid(),
            final(self)@.valid(),
            old(self)@.wf() ==> final(self)@.wf(),
    {
        proof {
            use_type_invariant(&*self);
            self.lemma_inv_valid();
        }
        let owned = String::from_str(name);
        if self.find(&owned).is_some() {
            return Err(DuplicateName);
        }
        let boats = create_boats(get_n_boat_pieces_per_player(self.board_x_len, self.board_y_len));
        let ghost built = boats@;
        proof {
            let sizes = fleet_sizes(
                pieces_per_player(self@.board_x_len as nat, self@.board_y_len as nat),
            );
            lemma_fleet_sizes_range(
                pieces_per_player(self@.board_x_len as nat, self@.board_y_len as nat),
            );
            lemma_fleet_wf(built, sizes);
            lemma_fleet_map_wf(built);
            lemma_fleet_map_keeps_all(built);
            assert(fleet_view(fleet_map(built)).dom() =~= fleet_map(built).dom());
        }
        let outcome = self.add_player_with_fleet(name, boats_vec_to_map(boats));
        proof {
            if outcome is Ok {
                assert(is_fleet(
                    built,
                    fleet_sizes(
                        pieces_per_player(
                            old(self)@.board_x_len as nat,
                            old(self)@.board_y_len as nat,
                        ),
                    ),
                ));
            }
        }
        outcome
    }

    /// Lets a player of that name join, with an empty board of the game's
    /// size and the given fleet.
    pub fn add_player_with_fleet(&mut self, name: &str, boats: HashMap<u128, Boat>) -> (outcome:
        Result<(), DuplicateName>)
        ensures
            outcome is Err <==> old(self)@.has_player(name@),
            outcome is Err ==> final(self)@ == old(self)@,
            outcome is Ok ==> final(self)@ == old(self)@.with_player(
                PlayerView {
                    name: name@,
                    board: BoardView::blank(
                        old(self)@.board_x_len as nat,
                        old(self)@.board_y_len as nat,
                    ),
                    boats: fleet_view(boats@),
                },
            ),
            old(self)@.valid(),
            final(self)@.valid(),
            old(self)@.wf() && fleet_wf(fleet_view(boats@)) ==> final(self)@.wf(),
    {
        proof {
            use_type_invariant(&*self);
            self.lemma_inv_valid();
        }
        let owned = String::from_str(name);
        if self.find(&owned).is_some() {
            return Err(DuplicateName);
        }
        let player = Player::new(name, Board::new(self.board_x_len, self.board_y_len), boats);
        proof {
            use_type_invariant(&*self);
        }
        let mut players: Vec<Player> = Vec::new();
        std::mem::swap(&mut self.players, &mut players);
        players.push(player);
        proof {
            assert forall|i: int, j: int| 0 <= i < j < players.len() implies (#[trigger] players[i])@.name
                != (#[trigger] players[j])@.name by {
                if j == players.len() - 1 {
                    assert(old(self)@.players[i].name != name@);
                }
            }
        }
        self.players = players;
        proof {
            use_type_invariant(&*self);
            self.lemma_inv_valid();
            assert(final(self)@.players =~= old(self)@.players.push(player@));
            if old(self)@.names_unique() {
                assert forall|i: int, j: int| 0 <= i < j < self@.players.len() implies (
                #[trigger] self@.players[i]).name != (#[trigger] self@.players[j]).name by {
                    if j == self@.players.len() - 1 {
                        assert(old(self)@.players[i].name != name@);
                    } else {
                        assert(old(self)@.players[i].name != old(self)@.players[j].name);
                    }
                }
            }
        }
        Ok(())
    }

    /// Asks the player of that name to place the boat `boat_id` at `(x, y)`.
    pub fn place_boat(&mut self, player_name: &str, boat_id: &u128, x: u32, y: u32) -> (outcome:
        Result<(), GameError>)
        ensures
            outcome == old(self)@.placement(player_name@, *boat_id, x, y),
            final(self)@ == old(self)@.place_boat(player_name@, *boat_id, x, y),
            final(self)@.names() == old(self)@.names(),
            old(self)@.wf() ==> final(self)@.wf(),
            old(self)@.valid(),
            final(self)@.valid(),
    {
        proof {
            use_type_invariant(&*self);
            self.lemma_inv_valid();
            if self@.wf() {
                lemma_moves_keep_wf(self@, player_name@, *boat_id, x, y);
            }
        }
        let owned = String::from_str(player_name);
        match self.find(&owned) {
            Some(i) => {
                proof {
                    use_type_invariant(&*self);
                }
                let mut players: Vec<Player> = Vec::new();
                std::mem::swap(&mut self.players, &mut players);
                let outcome = players[i].place_boat(*boat_id, x, y);
                self.players = players;
                proof {
                    assert(self@.players =~= old(self)@.players.update(i as int, self.players[i as int]@));
                    assert(self@.names() =~= old(self)@.names());
                }
                outcome
            },
            None => Err(GameError::UnknownPlayer),
        }
    }

    /// Shoots at `(x, y)` on the board of the player of that name: marks the
    /// cell and the boat piece on it, and reports whether a piece lies there.
    pub fn hit(&mut self, player_name: &str, x: u32, y: u32) -> (outcome: Result<bool, GameError>)
        ensures
            outcome == old(self)@.shot(player_name@, x as int, y as int),
            final(self)@ == old(self)@.hit(player_name@, x as int, y as int),
            final(self)@.names() == old(self)@.names(),
            old(self)@.wf() ==> final(self)@.wf(),
            old(self)@.valid(),
            final(self)@.valid(),
    {
        proof {
            use_type_invariant(&*self);
            self.lemma_inv_valid();
            if self@.wf() {
                lemma_moves_keep_wf(self@, player_name@, 0, x, y);
            }
        }
        let owned = String::from_str(player_name);
        match self.find(&owned) {
            Some(i) => {
                proof {
                    use_type_invariant(&*self);
                }
                let mut players: Vec<Player> = Vec::new();
                std::mem::swap(&mut self.players, &mut players);
                let outcome = players[i].hit(x, y);
                self.players = players;
                proof {
                    assert(self@.players =~= old(self)@.players.update(i as int, self.players[i as int]@));
                    assert(self@.names() =~= old(self)@.names());
                }
                match outcome {
                    Ok(occupied) => Ok(occupied),
                    Err(_) => Err(GameError::OutOfBounds),
                }
            },
            None => Err(GameError::UnknownPlayer),
        }
    }

    /// Takes a turn's shot at `(x, y)` on the board of the player of that
    /// name. A cell is shot at once: on a cell that was shot at before
    /// nothing changes.
    pub fn shoot(&mut self, player_name: &str, x: u32, y: u32) -> (outcome: Result<Shot, GameError>)
        ensures
            outcome == old(self)@.turn(player_name@, x as int, y as int),
            final(self)@ == old(self)@.shoot(player_name@, x as int, y as int),
            final(self)@.names() == old(self)@.names(),
            old(self)@.wf() ==> final(self)@.wf(),
            old(self)@.valid(),
            final(self)@.valid(),
    {
        proof {
            use_type_invariant(&*self);
            self.lemma_inv_valid();
            if self@.wf() {
                lemma_moves_keep_wf(self@, player_name@, 0, x, y);
            }
        }
        let attacked = match self.get_player_board(player_name) {
            Some(board) => board.is_attacked(x, y),
            None => {
                return Err(GameError::UnknownPlayer);
            },
        };
        match attacked {
            Ok(true) => Ok(Shot::AlreadyAttacked),
            Ok(false) => match self.hit(player_name, x, y) {
                Ok(true) => Ok(Shot::Hit),
                Ok(false) => Ok(Shot::Miss),
                Err(e) => Err(e),
            },
            Err(_) => Err(GameError::OutOfBounds),
        }
    }

    /// The board of the player of that name.
    pub fn get_player_board(&self, player_name: &str) -> (board: Option<&Board>)
        ensures
            board is Some <==> self@.has_player(player_name@),
            board is Some ==> board->Some_0@ == self@.players[self@.position(player_name@)].board,
            self@.valid(),
    {
        proof {
            use_type_invariant(self);
            self.lemma_inv_valid();
        }
        let owned = String::from_str(player_name);
        match self.find(&owned) {
            Some(i) => Some(self.players[i].board()),
            None => None,
        }
    }

    /// The board of the player of that name, to change in place.
    ///
    /// A shot at the board needs the fleet that lies on it, so that the piece
    /// is marked with the cell: `RedAlert::hit` hands the board the player's
    /// own fleet.
    pub fn get_player_mut_board(&mut self, player_name: &str) -> (board: Option<&mut Board>)
        ensures
            board is Some <==> old(self)@.has_player(player_name@),
            board is Some ==> board->Some_0@ == old(self)@.players[old(self)@.position(
                player_name@,
            )].board,
            board is Some ==> final(self)@ == old(self)@.with_player_at(
                player_name@,
                PlayerView {
                    board: final(board->Some_0)@,
                    ..old(self)@.players[old(self)@.position(player_name@)]
                },
            ),
            board is None ==> final(self)@ == old(self)@,
            old(self)@.valid(),
            final(self)@.valid(),
    {
        proof {
            use_type_invariant(&*self);
            self.lemma_inv_valid();
        }
        let owned = String::from_str(player_name);
        match self.find(&owned) {
            Some(i) => {
                proof {
                    let before = self@;
                    assert forall|after: GameView|
                        after.board_x_len == before.board_x_len && after.board_y_len
                            == before.board_y_len && after.players.len() == before.players.len()
                            && (forall|j: int|
                            0 <= j < before.players.len() ==> (#[trigger] after.players[j]).name
                                == before.players[j].name) implies #[trigger] after.valid() by {
                        assert forall|a: int, b: int| 0 <= a < b < after.players.len() implies (
                        #[trigger] after.players[a]).name != (#[trigger] after.players[b]).name by {
                            assert(before.players[a].name != before.players[b].name);
                        }
                    }
                }
                let board = player_mut_board(&mut self.players, i);
                Some(board)
            },
            None => None,
        }
    }

    /// The fleet of the player of that name: each boat under its identifier.
    pub fn get_player_boats(&self, player_name: &str) -> (boats: Option<&HashMap<u128, Boat>>)
        ensures
            boats is Some <==> self@.has_player(player_name@),
            boats is Some ==> fleet_view(boats->Some_0@) == self@.players[self@.position(
                player_name@,
            )].boats,
            self@.valid(),
    {
        proof {
            use_type_invariant(self);
            self.lemma_inv_valid();
        }
        let owned = String::from_str(player_name);
        match self.find(&owned) {
            Some(i) => Some(self.players[i].boats()),
            None => None,
        }
    }

    /// The winner: the one player who is alive, if exactly one is. Nobody
    /// has won while two players are alive, nor when none is.
    pub fn get_winner(&self) -> (winner: Option<&Player>)
        ensures
            winner is Some <==> self@.decided(),
            winner is Some ==> exists|i: int|
                self@.sole_survivor(i) && winner->Some_0@ == #[trigger] self@.players[i],
            self@.valid(),
    {
        proof {
            use_type_invariant(self);
            self.lemma_inv_valid();
        }
        let mut found: Option<usize> = None;
        let mut i: usize = 0;
        while i < self.players.len()
            invariant
                i <= self.players.len(),
                self@.valid(),
                found is Some ==> found->Some_0 < i && self@.players[found->Some_0 as int].alive(),
                forall|j: int|
                    0 <= j < i && found != Some(j as usize) ==> !(#[trigger] self@.players[j]).alive(),
            decreases self.players.len() - i,
        {
            if self.players[i].is_alive() {
                if found.is_some() {
                    proof {
                        let first = found->Some_0 as int;
                        assert forall|k: int| !self@.sole_survivor(k) by {
                            if self@.sole_survivor(k) {
                                if k == first {
                                    assert(!self@.players[i as int].alive());
                                } else {
                                    assert(!self@.players[first].alive());
                                }
                            }
                        }
                    }
                    return None;
                }
                found = Some(i);
            }
            i = i + 1;
        }
        match found {
            Some(k) => {
                assert(self@.sole_survivor(k as int));
                Some(&self.players[k])
            },
            None => {
                assert forall|k: int| !self@.sole_survivor(k) by {
                    if self@.sole_survivor(k) {
                        assert(!self@.players[k].alive());
                    }
                }
                None
            },
        }
    }
}

} // verus!
