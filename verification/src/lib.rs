//! A chess rules engine: board representation, legal move generation,
//! move application with reversible undo, draw and result classification,
//! and the FEN, UCI and SAN notation codecs.
use vstd::prelude::*;

mod board;
mod fen;
mod fen_laws;
mod game_result;
pub mod helpers;
mod laws;
mod legality;
mod move_;
mod movegen;
mod piece;
mod position;
mod pretty;
mod san;

pub use board::{Board, BoardView, HistoryEntry, MakeMoveError, NoMoveToUndoError};
pub use fen::{Fen, FenError};
pub use game_result::{DrawType, GameResult, WinType};
pub use move_::{InvalidUciError, Move, SpecialMoveType};
pub use piece::{InvalidPieceCharacterError, Occupant, Piece, PieceType};
pub use position::{Material, Position};

verus! {

/// Converts a square index (`0..64`) to a square name, returning an error if the square index is invalid.
pub fn idx_to_sq(idx: usize) -> (r: Result<(char, char), InvalidSquareIndexError>)
    ensures
        idx < 64 ==> r == Ok::<_, InvalidSquareIndexError>(
            (helpers::file_char(idx as int), helpers::rank_char(idx as int)),
        ),
        idx >= 64 ==> r == Err::<(char, char), _>(InvalidSquareIndexError(idx)),
{
    if idx >= 64 {
        return Err(InvalidSquareIndexError(idx));
    }
    Ok(helpers::idx_to_sq(idx))
}

/// Converts a square name to a square index, returning an error if the square name is invalid.
pub fn sq_to_idx(file: char, rank: char) -> (r: Result<usize, InvalidSquareNameError>)
    ensures
        helpers::valid_sq_name(file, rank) ==> r == Ok::<_, InvalidSquareNameError>(
            helpers::sq_idx(file, rank) as usize,
        ),
        !helpers::valid_sq_name(file, rank) ==> r == Err::<usize, _>(
            InvalidSquareNameError(file, rank),
        ),
{
    if !(('a' <= file && file <= 'h') && ('1' <= rank && rank <= '8')) {
        return Err(InvalidSquareNameError(file, rank));
    }
    Ok(helpers::sq_to_idx(file, rank))
}

/// Error: a square index outside `0..64`.
#[derive(Copy, Clone, Debug, PartialEq, Eq)]
pub struct InvalidSquareIndexError(pub usize);

/// Error: a square name whose file is not in `'a'..='h'` or whose rank is not in `'1'..='8'`.
#[derive(Copy, Clone, Debug, PartialEq, Eq)]
pub struct InvalidSquareNameError(pub char, pub char);

/// Represents a side/color.
#[derive(Eq, PartialEq, Hash, Copy, Clone, Debug, Structural)]
pub enum Color {
    White,
    Black,
}

impl Color {
    /// Checks if the color is white.
    pub fn is_white(&self) -> (r: bool)
        ensures
            r == (*self == Color::White),
    {
        matches!(self, Color::White)
    }

    /// Checks if the color is black.
    pub fn is_black(&self) -> (r: bool)
        ensures
            r == (*self == Color::Black),
    {
        matches!(self, Color::Black)
    }

    /// The opposite color.
    pub fn other(&self) -> (r: Color)
        ensures
            r == (if *self == Color::White {
                Color::Black
            } else {
                Color::White
            }),
    {
        match self {
            Color::White => Color::Black,
            Color::Black => Color::White,
        }
    }

    /// The color as a side-to-move flag: white is `true`, black is `false`.
    pub fn as_bool(&self) -> (r: bool)
        ensures
            r == (*self == Color::White),
    {
        matches!(self, Color::White)
    }

    /// The color for a side-to-move flag: `true` is white, `false` is black.
    pub fn from_bool(side: bool) -> (r: Color)
        ensures
            r == (if side {
                Color::White
            } else {
                Color::Black
            }),
    {
        if side {
            Color::White
        } else {
            Color::Black
        }
    }

    /// Converts a color character in a string slice to a `Color` ("w" is white, and "b" is black).
    pub fn try_from(string: &str) -> (r: Result<Color, InvalidColorCharacterError>)
        ensures
            string@ == "w"@ ==> r == Ok::<_, InvalidColorCharacterError>(Color::White),
            string@ == "b"@ ==> r == Ok::<_, InvalidColorCharacterError>(Color::Black),
            string@ != "w"@ && string@ != "b"@ ==> (r matches Err(e) && e.0@ == string@),
    {
        let len = string.unicode_len();
        proof {
            reveal_strlit("w");
            reveal_strlit("b");
        }
        if len == 1 {
            let c = string.get_char(0);
            if c == 'w' {
                proof {
                    assert(string@ =~= "w"@);
                }
                return Ok(Color::White);
            }
            if c == 'b' {
                proof {
                    assert(string@ =~= "b"@);
                }
                return Ok(Color::Black);
            }
        }
        Err(InvalidColorCharacterError(string.to_owned()))
    }

    /// Converts a `Color` to a color character (white is 'w', and black is 'b').
    pub fn to_char(&self) -> (r: char)
        ensures
            r == (if *self == Color::White {
                'w'
            } else {
                'b'
            }),
    {
        match self {
            Color::White => 'w',
            Color::Black => 'b',
        }
    }
}

/// Error: a color field that is neither "w" nor "b", carrying the offending
/// text.
#[derive(Clone, Debug, PartialEq, Eq)]
pub struct InvalidColorCharacterError(pub String);

} // verus!
