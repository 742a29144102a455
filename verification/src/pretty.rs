//! Pretty-printing a position as a bordered text diagram, from either
//! side's perspective.
use vstd::prelude::*;
use crate::board::Board;
use crate::helpers;
use crate::piece::{piece_char, Occupant, Piece, PieceType};
use crate::position::Position;
use crate::Color;

verus! {

/// The chess-symbol codepoint of a piece.
pub open spec fn unicode_piece(p: Piece) -> char {
    match p {
        Piece(PieceType::K, Color::White) => '\u{2654}',
        Piece(PieceType::Q, Color::White) => '\u{2655}',
        Piece(PieceType::R, Color::White) => '\u{2656}',
        Piece(PieceType::B, Color::White) => '\u{2657}',
        Piece(PieceType::N, Color::White) => '\u{2658}',
        Piece(PieceType::P, Color::White) => '\u{2659}',
        Piece(PieceType::K, Color::Black) => '\u{265A}',
        Piece(PieceType::Q, Color::Black) => '\u{265B}',
        Piece(PieceType::R, Color::Black) => '\u{265C}',
        Piece(PieceType::B, Color::Black) => '\u{265D}',
        Piece(PieceType::N, Color::Black) => '\u{265E}',
        Piece(PieceType::P, Color::Black) => '\u{265F}',
    }
}

/// The character shown in a cell: the piece's symbol or letter, or a space.
pub open spec fn pp_cell(o: Occupant, ascii: bool) -> char {
    match o {
        Occupant::Piece(p) => if ascii {
            piece_char(p)
        } else {
            unicode_piece(p)
        },
        Occupant::Empty => ' ',
    }
}

/// One printed row of cells from file position `f` on: each cell padded with
/// spaces and separated by bars; `rev` reads the rank right to left.
pub open spec fn pp_row(c: Seq<Occupant>, base: int, f: int, rev: bool, ascii: bool) -> Seq<char>
    decreases 8 - f,
{
    if f >= 8 {
        Seq::empty()
    } else {
        let sq = if rev {
            base + 7 - f
        } else {
            base + f
        };
        seq![' ', pp_cell(c[sq], ascii), ' '] + (if f != 7 {
            seq!['|']
        } else {
            Seq::empty()
        }) + pp_row(c, base, f + 1, rev, ascii)
    }
}

/// The horizontal rule drawn between ranks.
pub open spec fn pp_bar_line() -> Seq<char> {
    Seq::new(33, |i: int| '\u{23AF}').push('\n')
}

/// One printed rank: its digit label, the row of cells, and a rule.
pub open spec fn pp_rank_line(c: Seq<Occupant>, rank: int, rev: bool, ascii: bool) -> Seq<char> {
    seq![helpers::rank_char(8 * rank), ' ', '|'] + pp_row(c, 8 * rank, 0, rev, ascii) + seq!['\n']
        + pp_bar_line()
}

/// The printed ranks from the viewer's top down to `n` remaining: White sees
/// rank 8 first, Black sees rank 1 first with files reversed.
pub open spec fn pp_ranks(c: Seq<Occupant>, n: int, persp: bool, ascii: bool) -> Seq<char>
    decreases n,
{
    if n <= 0 {
        Seq::empty()
    } else {
        pp_ranks(c, n - 1, persp, ascii) + (if persp {
            pp_rank_line(c, 8 - n, false, ascii)
        } else {
            pp_rank_line(c, n - 1, true, ascii)
        })
    }
}

/// The file-letter footer under the diagram.
pub open spec fn pp_footer(persp: bool) -> Seq<char> {
    if persp {
        seq![
            ' ', ' ', '|', ' ', 'a', ' ', '|', ' ', 'b', ' ', '|', ' ', 'c', ' ', '|', ' ', 'd',
            ' ', '|', ' ', 'e', ' ', '|', ' ', 'f', ' ', '|', ' ', 'g', ' ', '|', ' ', 'h',
        ]
    } else {
        seq![
            ' ', ' ', '|', ' ', 'h', ' ', '|', ' ', 'g', ' ', '|', ' ', 'f', ' ', '|', ' ', 'e',
            ' ', '|', ' ', 'd', ' ', '|', ' ', 'c', ' ', '|', ' ', 'b', ' ', '|', ' ', 'a',
        ]
    }
}

/// The whole printed diagram.
pub open spec fn pretty_chars(p: Position, persp: bool, ascii: bool) -> Seq<char> {
    pp_ranks(p.content@, 8, persp, ascii) + pp_footer(persp)
}

/// The character shown in a cell.
fn pp_cell_exec(o: Occupant, ascii: bool) -> (r: char)
    ensures
        r == pp_cell(o, ascii),
{
    match o {
        Occupant::Piece(p) => if ascii {
            p.to_char()
        } else {
            match p {
                Piece(PieceType::K, Color::White) => '\u{2654}',
                Piece(PieceType::Q, Color::White) => '\u{2655}',
                Piece(PieceType::R, Color::White) => '\u{2656}',
                Piece(PieceType::B, Color::White) => '\u{2657}',
                Piece(PieceType::N, Color::White) => '\u{2658}',
                Piece(PieceType::P, Color::White) => '\u{2659}',
                Piece(PieceType::K, Color::Black) => '\u{265A}',
                Piece(PieceType::Q, Color::Black) => '\u{265B}',
                Piece(PieceType::R, Color::Black) => '\u{265C}',
                Piece(PieceType::B, Color::Black) => '\u{265D}',
                Piece(PieceType::N, Color::Black) => '\u{265E}',
                Piece(PieceType::P, Color::Black) => '\u{265F}',
            }
        },
        Occupant::Empty => ' ',
    }
}

/// Emits one printed rank.
fn pp_rank_exec(content: &[Occupant; 64], rank: usize, rev: bool, ascii: bool, out: &mut Vec<char>)
    requires
        rank < 8,
    ensures
        final(out)@ == old(out)@ + pp_rank_line(content@, rank as int, rev, ascii),
{
    let label: char = (49 + rank as u8) as char;
    proof {
        assert(label == helpers::rank_char(8 * rank as int));
    }
    out.push(label);
    out.push(' ');
    out.push('|');
    let base = 8 * rank;
    let mut f: usize = 0;
    let ghost mid = out@;
    while f < 8
        invariant
            f <= 8,
            rank < 8,
            base == 8 * rank,
            out@ + pp_row(content@, base as int, f as int, rev, ascii) == mid + pp_row(
                content@,
                base as int,
                0,
                rev,
                ascii,
            ),
        decreases 8 - f,
    {
        let sq = if rev {
            base + 7 - f
        } else {
            base + f
        };
        out.push(' ');
        out.push(pp_cell_exec(content[sq], ascii));
        out.push(' ');
        if f != 7 {
            out.push('|');
        }
        f += 1;
    }
    out.push('\n');
    let mut b: usize = 0;
    let ghost mid2 = out@;
    while b < 33
        invariant
            b <= 33,
            out@ == mid2 + Seq::new(b as nat, |i: int| '\u{23AF}'),
        decreases 33 - b,
    {
        out.push('\u{23AF}');
        proof {
            assert(out@ =~= mid2 + Seq::new((b + 1) as nat, |i: int| '\u{23AF}'));
        }
        b += 1;
    }
    out.push('\n');
    proof {
        assert(out@ =~= old(out)@ + pp_rank_line(content@, rank as int, rev, ascii));
    }
}

impl Position {
    /// Pretty-prints the position to a string, from the perspective of the
    /// side `perspective` (white is `true`).
    pub fn pretty_print(&self, perspective: bool) -> (r: String)
        ensures
            r@ == pretty_chars(*self, perspective, false),
    {
        pretty_print_impl(&self.content, perspective, false)
    }
}

/// Builds the whole printed diagram.
fn pretty_print_impl(content: &[Occupant; 64], persp: bool, ascii: bool) -> (r: String)
    ensures
        r@ == pp_ranks(content@, 8, persp, ascii) + pp_footer(persp),
{
    let mut out: Vec<char> = Vec::new();
    let mut n: usize = 0;
    while n < 8
        invariant
            n <= 8,
            out@ == pp_ranks(content@, n as int, persp, ascii),
        decreases 8 - n,
    {
        if persp {
            pp_rank_exec(content, 7 - n, false, ascii, &mut out);
        } else {
            pp_rank_exec(content, n, true, ascii, &mut out);
        }
        proof {
            assert(out@ =~= pp_ranks(content@, n + 1, persp, ascii));
        }
        n += 1;
    }
    let footer: [char; 33] = if persp {
        [
            ' ', ' ', '|', ' ', 'a', ' ', '|', ' ', 'b', ' ', '|', ' ', 'c', ' ', '|', ' ', 'd',
            ' ', '|', ' ', 'e', ' ', '|', ' ', 'f', ' ', '|', ' ', 'g', ' ', '|', ' ', 'h',
        ]
    } else {
        [
            ' ', ' ', '|', ' ', 'h', ' ', '|', ' ', 'g', ' ', '|', ' ', 'f', ' ', '|', ' ', 'e',
            ' ', '|', ' ', 'd', ' ', '|', ' ', 'c', ' ', '|', ' ', 'b', ' ', '|', ' ', 'a',
        ]
    };
    let mut fi: usize = 0;
    let ghost mid = out@;
    while fi < 33
        invariant
            fi <= 33,
            out@ == mid + footer@.subrange(0, fi as int),
            footer@ == pp_footer(persp),
        decreases 33 - fi,
    {
        out.push(footer[fi]);
        proof {
            assert(out@ =~= mid + footer@.subrange(0, fi + 1));
        }
        fi += 1;
    }
    proof {
        assert(footer@.subrange(0, 33) =~= footer@);
    }
    helpers::chars_to_string(&out)
}

impl Board {
    /// Pretty-prints the board from the perspective of `perspective`, with
    /// piece letters instead of chess symbols when `ascii` is set.
    pub fn pretty_print(&self, perspective: Color, ascii: bool) -> (r: String)
        ensures
            r@ == pretty_chars(self@.position, perspective == Color::White, ascii),
    {
        let p = self.position();
        pretty_print_impl(&p.content, perspective.is_white(), ascii)
    }
}

} // verus!
