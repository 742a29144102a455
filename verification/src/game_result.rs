//! Game results: wins with their cause, and the draw variants.
use vstd::prelude::*;
use crate::Color;

verus! {

/// Represents game results.
#[derive(Eq, PartialEq, Hash, Copy, Clone, Debug, Structural)]
pub enum GameResult {
    Wins(Color, WinType),
    Draw(DrawType),
}

/// Represents types of wins.
#[derive(Eq, PartialEq, Hash, Copy, Clone, Debug, Structural)]
pub enum WinType {
    Checkmate,
    /// A loss by timeout is also considered a resignation.
    Resignation,
}

/// Represents types of draws.
#[derive(Eq, PartialEq, Hash, Copy, Clone, Debug, Structural)]
pub enum DrawType {
    FivefoldRepetition,
    SeventyFiveMoveRule,
    /// Represents a stalemate, with the tuple value being the side in stalemate.
    Stalemate(Color),
    InsufficientMaterial,
    /// A claimed draw and a draw by timeout versus insufficient checkmating
    /// material are also considered a draw by agreement.
    Agreement,
}

/// The score text of a game result.
pub open spec fn score_chars(r: GameResult) -> Seq<char> {
    match r {
        GameResult::Wins(c, _) => if c == Color::White {
            seq!['1', '-', '0']
        } else {
            seq!['0', '-', '1']
        },
        GameResult::Draw(_) => seq!['1', '/', '2', '-', '1', '/', '2'],
    }
}

impl GameResult {
    /// Represents the game result as a string: 1-0 if white wins, 0-1 if
    /// black wins, or 1/2-1/2 in the case of a draw.
    pub fn to_string(&self) -> (r: String)
        ensures
            r@ == score_chars(*self),
    {
        let mut out: Vec<char> = Vec::new();
        match self {
            GameResult::Wins(c, _) => {
                if c.is_white() {
                    out.push('1');
                    out.push('-');
                    out.push('0');
                } else {
                    out.push('0');
                    out.push('-');
                    out.push('1');
                }
            },
            GameResult::Draw(_) => {
                out.push('1');
                out.push('/');
                out.push('2');
                out.push('-');
                out.push('1');
                out.push('/');
                out.push('2');
            },
        }
        proof {
            assert(out@ =~= score_chars(*self));
        }
        crate::helpers::chars_to_string(&out)
    }
}

} // verus!
