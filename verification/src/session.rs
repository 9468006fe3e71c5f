use vstd::prelude::*;
use crate::tictactoe::{Mark, TicTacToe};

verus! {

/// How a round stands after a move: still going, won by the mover, or a tie.
#[derive(Clone, Copy, PartialEq, Eq, Structural, Debug)]
pub enum RoundStatus {
    InProgress,
    Won,
    Tie,
}

/// True iff `n` is an accepted grid size.
pub fn valid_size(n: usize) -> (r: bool)
    ensures
        r == (2 <= n <= 7),
{
    2 <= n && n <= 7
}

/// The mark placed on turn `turn` (counting from zero): the first player
/// plays `X`, the second `O`, strictly alternating.
pub fn mark_for_turn(turn: usize) -> (m: Mark)
    ensures
        m == (if turn % 2 == 0 {
            Mark::X
        } else {
            Mark::O
        }),
{
    if turn % 2 == 0 {
        Mark::X
    } else {
        Mark::O
    }
}

/// The one-based number of the player whose turn `turn` is.
pub fn player_for_turn(turn: usize) -> (p: usize)
    ensures
        p == turn % 2 + 1,
{
    turn % 2 + 1
}

/// Decides a round after a move: the mover has won iff their mark completes
/// a line; otherwise the round is a tie iff the board is full (`moves`
/// equals size squared); otherwise it goes on.
pub fn round_status(game: &TicTacToe, moves: usize, last_mark: Mark) -> (s: RoundStatus)
    requires
        game.wf(),
    ensures
        (s == RoundStatus::Won) <==> game.has_won(last_mark),
        (s == RoundStatus::Tie) <==> (!game.has_won(last_mark) && moves == game.size_spec()
            * game.size_spec()),
        (s == RoundStatus::InProgress) <==> (!game.has_won(last_mark) && moves
            != game.size_spec() * game.size_spec()),
{
    if game.check_win(last_mark) {
        RoundStatus::Won
    } else {
        let n = game.size();
        proof {
            game.lemma_wf_size_bounds();
            crate::tictactoe::lemma_square_bounded(n as int);
        }
        if moves == n * n {
            RoundStatus::Tie
        } else {
            RoundStatus::InProgress
        }
    }
}

/// The ASCII-lowercased form of a character.
pub open spec fn lower(c: char) -> char {
    if 'A' <= c && c <= 'Z' {
        ((c as int + 32) as u8) as char
    } else {
        c
    }
}

/// The characters spell `y` or `yes`, in any letter case.
pub open spec fn is_yes(s: Seq<char>) -> bool {
    ||| s.len() == 1 && lower(s[0]) == 'y'
    ||| s.len() == 3 && lower(s[0]) == 'y' && lower(s[1]) == 'e' && lower(s[2]) == 's'
}

/// The characters spell `n` or `no`, in any letter case.
pub open spec fn is_no(s: Seq<char>) -> bool {
    ||| s.len() == 1 && lower(s[0]) == 'n'
    ||| s.len() == 2 && lower(s[0]) == 'n' && lower(s[1]) == 'o'
}

fn lower_char(c: char) -> (r: char)
    ensures
        r == lower(c),
{
    if 'A' <= c && c <= 'Z' {
        (c as u8 + 32) as char
    } else {
        c
    }
}

/// Classifies a trimmed reply to a yes/no prompt: `Some(true)` iff it spells
/// `y` or `yes`, `Some(false)` iff it spells `n` or `no` (case-insensitive
/// either way), `None` otherwise.
pub fn parse_yes_no(input: &Vec<char>) -> (r: Option<bool>)
    ensures
        (r == Some(true)) <==> is_yes(input@),
        (r == Some(false)) <==> is_no(input@),
        (r is None) <==> (!is_yes(input@) && !is_no(input@)),
{
    if input.len() == 1 {
        let c = lower_char(input[0]);
        if c == 'y' {
            Some(true)
        } else if c == 'n' {
            Some(false)
        } else {
            None
        }
    } else if input.len() == 2 {
        if lower_char(input[0]) == 'n' && lower_char(input[1]) == 'o' {
            Some(false)
        } else {
            None
        }
    } else if input.len() == 3 {
        if lower_char(input[0]) == 'y' && lower_char(input[1]) == 'e' && lower_char(input[2])
            == 's' {
            Some(true)
        } else {
            None
        }
    } else {
        None
    }
}

/// Accepts a trimmed cell choice only when it is exactly one character.
pub fn parse_cell_choice(input: &Vec<char>) -> (r: Option<char>)
    ensures
        (r is Some) <==> input@.len() == 1,
        r is Some ==> r->0 == input@[0],
{
    if input.len() == 1 {
        Some(input[0])
    } else {
        None
    }
}

} // verus!
