//! The move value (source, destination, optional special tag) and its UCI codec.
use vstd::prelude::*;
use crate::helpers;
use crate::piece::{char_piece_type, piece_type_char_lower, PieceType};

verus! {

/// The structure for a chess move, in the format (_source square_, _destination square_, _castling/promotion/en passant_).
#[derive(Eq, PartialEq, Hash, Copy, Clone, Debug)]
pub struct Move(pub usize, pub usize, pub Option<SpecialMoveType>);

/// Represents types of special moves (castling/promotion/en passant).
#[derive(Eq, PartialEq, Hash, Copy, Clone, Debug, Structural)]
pub enum SpecialMoveType {
    CastlingKingside,
    CastlingQueenside,
    /// Represents a promotion, with the tuple value being the type of piece that the pawn promotes to.
    Promotion(PieceType),
    EnPassant,
    /// A move decoded from UCI text, which cannot tell a quiet pawn diagonal
    /// move from an en-passant capture; it is resolved against the legal-move
    /// set when the move is applied.
    Unclear,
}

/// Whether both squares of the move are on the board.
pub open spec fn move_in_range(m: Move) -> bool {
    m.0 < 64 && m.1 < 64
}

/// The UCI text of a move: source square, destination square, and, for a
/// promotion only, the lowercase promotion-piece letter.
pub open spec fn uci_chars(m: Move) -> Seq<char> {
    let base = seq![
        helpers::file_char(m.0 as int),
        helpers::rank_char(m.0 as int),
        helpers::file_char(m.1 as int),
        helpers::rank_char(m.1 as int),
    ];
    match m.2 {
        Some(SpecialMoveType::Promotion(pt)) => base.push(piece_type_char_lower(pt)),
        _ => base,
    }
}

/// The move denoted by UCI text: two square names and an optional
/// promotion-piece letter (`'k'` is rejected as a promotion target). A move
/// without a promotion letter is tagged `Unclear`.
pub open spec fn parse_uci(s: Seq<char>) -> Result<Move, InvalidUciError> {
    if s.len() != 4 && s.len() != 5 {
        Err(InvalidUciError::Length)
    } else if !helpers::valid_sq_name(s[0], s[1]) {
        Err(InvalidUciError::InvalidSquareName(s[0], s[1]))
    } else if !helpers::valid_sq_name(s[2], s[3]) {
        Err(InvalidUciError::InvalidSquareName(s[2], s[3]))
    } else {
        let src = helpers::sq_idx(s[0], s[1]) as usize;
        let dest = helpers::sq_idx(s[2], s[3]) as usize;
        if s.len() == 5 {
            match char_piece_type(s[4]) {
                Some(pt) => if pt == PieceType::K {
                    Err(InvalidUciError::InvalidPieceType(s[4]))
                } else {
                    Ok(Move(src, dest, Some(SpecialMoveType::Promotion(pt))))
                },
                None => Err(InvalidUciError::InvalidPieceType(s[4])),
            }
        } else {
            Ok(Move(src, dest, Some(SpecialMoveType::Unclear)))
        }
    }
}

impl Move {
    /// Returns the source square of the move in the format (_file_, _rank_).
    pub fn from_square(&self) -> (r: (char, char))
        requires
            move_in_range(*self),
        ensures
            r.0 == helpers::file_char(self.0 as int),
            r.1 == helpers::rank_char(self.0 as int),
    {
        helpers::idx_to_sq(self.0)
    }

    /// Returns the destination square of the move in the format (_file_, _rank_).
    pub fn to_square(&self) -> (r: (char, char))
        requires
            move_in_range(*self),
        ensures
            r.0 == helpers::file_char(self.1 as int),
            r.1 == helpers::rank_char(self.1 as int),
    {
        helpers::idx_to_sq(self.1)
    }

    /// Returns the type of special move (castling/promotion/en passant) if this move is a special move (otherwise `None`).
    pub fn special_move_type(&self) -> (r: Option<SpecialMoveType>)
        ensures
            r == self.2,
    {
        self.2
    }

    /// Creates a `Move` object from its UCI representation.
    pub fn from_uci(uci: &str) -> (r: Result<Move, InvalidUciError>)
        ensures
            r == parse_uci(uci@),
            r matches Ok(m) ==> move_in_range(m),
    {
        let cs = helpers::str_to_chars(uci);
        let n = cs.len();
        if n != 4 && n != 5 {
            return Err(InvalidUciError::Length);
        }
        let (f0, r0, f1, r1) = (cs[0], cs[1], cs[2], cs[3]);
        if !('a' <= f0 && f0 <= 'h' && '1' <= r0 && r0 <= '8') {
            return Err(InvalidUciError::InvalidSquareName(f0, r0));
        }
        if !('a' <= f1 && f1 <= 'h' && '1' <= r1 && r1 <= '8') {
            return Err(InvalidUciError::InvalidSquareName(f1, r1));
        }
        let src = helpers::sq_to_idx(f0, r0);
        let dest = helpers::sq_to_idx(f1, r1);
        if n == 5 {
            let pt = match PieceType::try_from(cs[4]) {
                Ok(pt) => pt,
                Err(_) => {
                    return Err(InvalidUciError::InvalidPieceType(cs[4]));
                },
            };
            if matches!(pt, PieceType::K) {
                return Err(InvalidUciError::InvalidPieceType(cs[4]));
            }
            Ok(Move(src, dest, Some(SpecialMoveType::Promotion(pt))))
        } else {
            Ok(Move(src, dest, Some(SpecialMoveType::Unclear)))
        }
    }

    /// Returns the UCI representation of the move.
    pub fn to_uci(&self) -> (r: String)
        requires
            move_in_range(*self),
        ensures
            r@ == uci_chars(*self),
    {
        let (srcf, srcr) = helpers::idx_to_sq(self.0);
        let (destf, destr) = helpers::idx_to_sq(self.1);
        let mut cs: Vec<char> = Vec::new();
        cs.push(srcf);
        cs.push(srcr);
        cs.push(destf);
        cs.push(destr);
        if let Some(SpecialMoveType::Promotion(pt)) = self.2 {
            cs.push(pt.to_char_lower());
        }
        proof {
            assert(cs@ =~= uci_chars(*self));
        }
        helpers::chars_to_string(&cs)
    }
}

/// The tag a UCI-decoded move carries for the special-move slot of `m`:
/// the promotion tag is kept exactly, every other move reads back as `Unclear`.
pub open spec fn uci_decoded_tag(m: Move) -> Option<SpecialMoveType> {
    match m.2 {
        Some(SpecialMoveType::Promotion(pt)) => Some(SpecialMoveType::Promotion(pt)),
        _ => Some(SpecialMoveType::Unclear),
    }
}

/// UCI round-trip: decoding the UCI text of any on-board move yields the same
/// source and destination squares, with the promotion tag kept exactly and any
/// other tag read back as `Unclear` (to be resolved against the legal-move set).
pub proof fn lemma_uci_round_trip(m: Move)
    requires
        move_in_range(m),
        m.2 matches Some(SpecialMoveType::Promotion(pt)) ==> pt != PieceType::K,
    ensures
        parse_uci(uci_chars(m)) == Ok::<_, InvalidUciError>(Move(m.0, m.1, uci_decoded_tag(m))),
{
    helpers::lemma_sq_name_round_trip(m.0 as int);
    helpers::lemma_sq_name_round_trip(m.1 as int);
    let s = uci_chars(m);
    assert(s[0] == helpers::file_char(m.0 as int));
    assert(helpers::sq_idx(s[0], s[1]) == m.0);
    assert(helpers::sq_idx(s[2], s[3]) == m.1);
    match m.2 {
        Some(SpecialMoveType::Promotion(pt)) => {
            assert(s.len() == 5);
            assert(s[4] == piece_type_char_lower(pt));
            assert(char_piece_type(s[4]) == Some(pt));
        },
        _ => {
            assert(s.len() == 4);
        },
    }
}

/// Error cases of UCI decoding.
#[derive(Copy, Clone, Debug, PartialEq, Eq)]
pub enum InvalidUciError {
    /// The text is not 4 or 5 characters long.
    Length,
    /// A square name with an invalid file or rank character.
    InvalidSquareName(char, char),
    /// A promotion letter that denotes no piece, or denotes a king.
    InvalidPieceType(char),
}

} // verus!
