use vstd::prelude::*;
use vstd::string::StringExecFns;

verus! {

/// The least number of players of a game.
pub const MIN_PLAYERS: usize = 2;

/// What to make of a number that a player typed.
#[derive(Clone, Copy, Debug, PartialEq, Eq, Structural)]
pub enum NumberAnswer {
    /// The number is taken.
    Accepted(u32),
    /// What was typed is no number.
    NotANumber,
    /// The number is under the least one allowed.
    TooSmall,
    /// The number is over the greatest one allowed.
    TooLarge,
}

/// What to make of a name that a new player typed.
#[derive(Clone, Copy, Debug, PartialEq, Eq, Structural)]
pub enum NameAnswer {
    /// The name is taken down.
    Accepted,
    /// Nothing was typed.
    Empty,
    /// Another player has the name.
    Taken,
}

/// What to make of `parsed`, the number that was typed if one was, where the
/// numbers from `lowest` to `highest` are allowed.
pub open spec fn number_answer(parsed: Option<u32>, lowest: u32, highest: u32) -> NumberAnswer {
    match parsed {
        None => NumberAnswer::NotANumber,
        Some(n) => if n < lowest {
            NumberAnswer::TooSmall
        } else if n > highest {
            NumberAnswer::TooLarge
        } else {
            NumberAnswer::Accepted(n)
        },
    }
}

/// Some player has that name.
pub open spec fn name_taken(name: Seq<char>, players: Seq<String>) -> bool {
    exists|i: int| 0 <= i < players.len() && (#[trigger] players[i])@ == name
}

/// What to make of a name that a new player typed.
pub open spec fn name_answer(name: Seq<char>, players: Seq<String>) -> NameAnswer {
    if name.len() == 0 {
        NameAnswer::Empty
    } else if name_taken(name, players) {
        NameAnswer::Taken
    } else {
        NameAnswer::Accepted
    }
}

/// How to address a player: the name, a comma and the message, or without
/// the comma where either is missing.
pub open spec fn addressed(player_name: Seq<char>, message: Seq<char>) -> Seq<char> {
    if player_name.len() == 0 || message.len() == 0 {
        player_name + message
    } else {
        player_name + ", "@ + message
    }
}

/// Judges a number that a player typed: a board size with `lowest` the least
/// size, or a coordinate with `highest` the last one of the board.
pub fn judge_number(parsed: Option<u32>, lowest: u32, highest: u32) -> (answer: NumberAnswer)
    ensures
        answer == number_answer(parsed, lowest, highest),
{
    match parsed {
        None => NumberAnswer::NotANumber,
        Some(n) => if n < lowest {
            NumberAnswer::TooSmall
        } else if n > highest {
            NumberAnswer::TooLarge
        } else {
            NumberAnswer::Accepted(n)
        },
    }
}

/// Judges the name of a new player: it must not be empty, and no two players
/// share a name.
pub fn judge_player_name(name: &str, players: &Vec<String>) -> (answer: NameAnswer)
    ensures
        answer == name_answer(name@, players@),
{
    if name.unicode_len() == 0 {
        return NameAnswer::Empty;
    }
    let owned = String::from_str(name);
    let mut i: usize = 0;
    while i < players.len()
        invariant
            i <= players.len(),
            owned@ == name@,
            name@.len() != 0,
            forall|j: int| 0 <= j < i ==> (#[trigger] players[j])@ != name@,
        decreases players.len() - i,
    {
        if players[i] == owned {
            assert(players@[i as int]@ == name@);
            return NameAnswer::Taken;
        }
        i = i + 1;
    }
    NameAnswer::Accepted
}

/// Reads a yes or a no: `y` is yes, `n` is no, anything else is neither.
pub fn judge_yes_no(answer: &str) -> (yes: Option<bool>)
    ensures
        answer@ == seq!['y'] ==> yes == Some(true),
        answer@ == seq!['n'] ==> yes == Some(false),
        answer@ != seq!['y'] && answer@ != seq!['n'] ==> yes is None,
{
    if answer.unicode_len() != 1 {
        return None;
    }
    let c = answer.get_char(0);
    assert(answer@ =~= seq![c]);
    if c == 'y' {
        Some(true)
    } else if c == 'n' {
        Some(false)
    } else {
        assert(answer@[0] != 'y' && answer@[0] != 'n');
        None
    }
}

/// Whether a game of `n_players` players still lacks players.
pub fn more_players_needed(n_players: usize) -> (needed: bool)
    ensures
        needed == (n_players < MIN_PLAYERS),
{
    n_players < MIN_PLAYERS
}

/// The line that addresses a player.
pub fn address(player_name: &str, message: &str) -> (line: String)
    ensures
        line@ == addressed(player_name@, message@),
{
    let mut line = String::from_str(player_name);
    if player_name.unicode_len() != 0 && message.unicode_len() != 0 {
        line.append(", ");
    }
    line.append(message);
    line
}

} // verus!
