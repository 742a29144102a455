//! Piece primitives: piece types, colored pieces, and square occupants.
use vstd::prelude::*;
use crate::Color;

verus! {

/// Represents a piece in the format (_piece type_, _color_).
#[derive(Eq, PartialEq, Hash, Copy, Clone, Debug, Structural)]
pub struct Piece(pub PieceType, pub Color);

/// Represents types of pieces.
#[derive(Eq, PartialEq, Hash, Copy, Clone, Debug, Structural)]
pub enum PieceType {
    K,
    Q,
    B,
    N,
    R,
    P,
}

/// Represents the contents of one square: empty, or holding a piece.
#[derive(Eq, PartialEq, Hash, Copy, Clone, Debug, Structural)]
pub enum Occupant {
    Piece(Piece),
    Empty,
}

/// The uppercase letter denoting a piece type.
pub open spec fn piece_type_char(t: PieceType) -> char {
    match t {
        PieceType::K => 'K',
        PieceType::Q => 'Q',
        PieceType::B => 'B',
        PieceType::N => 'N',
        PieceType::R => 'R',
        PieceType::P => 'P',
    }
}

/// The lowercase letter denoting a piece type.
pub open spec fn piece_type_char_lower(t: PieceType) -> char {
    match t {
        PieceType::K => 'k',
        PieceType::Q => 'q',
        PieceType::B => 'b',
        PieceType::N => 'n',
        PieceType::R => 'r',
        PieceType::P => 'p',
    }
}

/// The letter denoting a piece: uppercase for white, lowercase for black.
pub open spec fn piece_char(p: Piece) -> char {
    if p.1 == Color::White {
        piece_type_char(p.0)
    } else {
        piece_type_char_lower(p.0)
    }
}

/// The piece type denoted by a letter, in either case; `None` for any other character.
pub open spec fn char_piece_type(c: char) -> Option<PieceType> {
    if c == 'k' || c == 'K' {
        Some(PieceType::K)
    } else if c == 'q' || c == 'Q' {
        Some(PieceType::Q)
    } else if c == 'b' || c == 'B' {
        Some(PieceType::B)
    } else if c == 'n' || c == 'N' {
        Some(PieceType::N)
    } else if c == 'r' || c == 'R' {
        Some(PieceType::R)
    } else if c == 'p' || c == 'P' {
        Some(PieceType::P)
    } else {
        None
    }
}

/// The piece denoted by a letter: uppercase is white, lowercase is black.
pub open spec fn char_piece(c: char) -> Option<Piece> {
    match char_piece_type(c) {
        Some(t) => Some(
            Piece(
                t,
                if 65 <= c as int <= 90 {
                    Color::White
                } else {
                    Color::Black
                },
            ),
        ),
        None => None,
    }
}

impl Piece {
    /// Returns the type of piece.
    pub fn piece_type(&self) -> (r: PieceType)
        ensures
            r == self.0,
    {
        self.0
    }

    /// Returns the color of the piece.
    pub fn color(&self) -> (r: Color)
        ensures
            r == self.1,
    {
        self.1
    }

    /// Attempts to convert a piece character to a `Piece`.
    pub fn try_from(value: char) -> (r: Result<Piece, InvalidPieceCharacterError>)
        ensures
            r == (match char_piece(value) {
                Some(p) => Ok::<_, InvalidPieceCharacterError>(p),
                None => Err::<Piece, _>(InvalidPieceCharacterError(value)),
            }),
    {
        let t = match PieceType::try_from(value) {
            Ok(t) => t,
            Err(e) => {
                return Err(e);
            },
        };
        let upper = 65 <= value as u32 && value as u32 <= 90;
        Ok(Piece(t, if upper {
            Color::White
        } else {
            Color::Black
        }))
    }

    /// Converts a `Piece` to a piece character: uppercase for white, lowercase for black.
    pub fn to_char(&self) -> (r: char)
        ensures
            r == piece_char(*self),
    {
        match self.1 {
            Color::White => self.0.to_char(),
            Color::Black => self.0.to_char_lower(),
        }
    }
}

impl PieceType {
    /// Attempts to convert a piece character (in either case) to a `PieceType`.
    pub fn try_from(value: char) -> (r: Result<PieceType, InvalidPieceCharacterError>)
        ensures
            r == (match char_piece_type(value) {
                Some(t) => Ok::<_, InvalidPieceCharacterError>(t),
                None => Err::<PieceType, _>(InvalidPieceCharacterError(value)),
            }),
    {
        match value {
            'k' | 'K' => Ok(PieceType::K),
            'q' | 'Q' => Ok(PieceType::Q),
            'b' | 'B' => Ok(PieceType::B),
            'n' | 'N' => Ok(PieceType::N),
            'r' | 'R' => Ok(PieceType::R),
            'p' | 'P' => Ok(PieceType::P),
            _ => Err(InvalidPieceCharacterError(value)),
        }
    }

    /// Converts a `PieceType` to a piece character (uppercase).
    pub fn to_char(&self) -> (r: char)
        ensures
            r == piece_type_char(*self),
    {
        match self {
            PieceType::K => 'K',
            PieceType::Q => 'Q',
            PieceType::B => 'B',
            PieceType::N => 'N',
            PieceType::R => 'R',
            PieceType::P => 'P',
        }
    }

    /// Converts a `PieceType` to a piece character (lowercase).
    pub fn to_char_lower(&self) -> (r: char)
        ensures
            r == piece_type_char_lower(*self),
    {
        match self {
            PieceType::K => 'k',
            PieceType::Q => 'q',
            PieceType::B => 'b',
            PieceType::N => 'n',
            PieceType::R => 'r',
            PieceType::P => 'p',
        }
    }
}

/// Error: a character that denotes no piece.
#[derive(Copy, Clone, Debug, PartialEq, Eq)]
pub struct InvalidPieceCharacterError(pub char);

} // verus!
