//! The FEN codec: parsing and serializing the six-field position string,
//! with strict structural validation.
use vstd::prelude::*;
use crate::helpers;
use crate::piece::{char_piece, piece_char, Occupant, Piece, PieceType};
use crate::position::{
    count_occ, count_occ_from, count_occ_in, first_occ_from, king_of, lemma_first_occ_exists,
    rook_of, Position,
};

verus! {

/// The digit character for `n` in `0..=9`.
pub open spec fn digit_char(n: int) -> char {
    (48 + n) as char
}

/// The uppercase file letter of square index `idx`.
pub open spec fn upper_file_char(idx: int) -> char {
    (65 + (idx % 8)) as char
}

/// The run-length encoding of one board rank, read from file `f` on with
/// `pending` empty squares not yet emitted: empty runs become their digit,
/// pieces their letter.
pub open spec fn rank_chars_from(c: Seq<Occupant>, base: int, f: int, pending: int) -> Seq<char>
    decreases 8 - f,
{
    if f >= 8 {
        if pending > 0 {
            seq![digit_char(pending)]
        } else {
            Seq::empty()
        }
    } else {
        match c[base + f] {
            Occupant::Piece(p) => (if pending > 0 {
                seq![digit_char(pending)]
            } else {
                Seq::empty()
            }) + seq![piece_char(p)] + rank_chars_from(c, base, f + 1, 0),
            Occupant::Empty => rank_chars_from(c, base, f + 1, pending + 1),
        }
    }
}

/// The board field of a FEN string for the top `r` ranks: ranks emitted from
/// the eighth down to the first, separated by `/`.
pub open spec fn board_chars_down(c: Seq<Occupant>, r: int) -> Seq<char>
    decreases r,
{
    if r <= 0 {
        Seq::empty()
    } else if r == 1 {
        rank_chars_from(c, 0, 0, 0)
    } else {
        rank_chars_from(c, 8 * (r - 1), 0, 0) + seq!['/'] + board_chars_down(c, r - 1)
    }
}

/// The board field of a FEN string.
pub open spec fn board_field(c: Seq<Occupant>) -> Seq<char> {
    board_chars_down(c, 8)
}

/// One castling letter: the standard letter when exactly one rook of the
/// right color stands between the king and the board edge on that side, else
/// the recorded rook's file letter (cased by color), disambiguating
/// non-default rook placement.
pub open spec fn castling_letter(
    c: Seq<Occupant>,
    slot: Option<usize>,
    std_letter: char,
    lo: int,
    hi: int,
    side: bool,
) -> Seq<char> {
    match slot {
        Option::Some(r) => seq![
            if count_occ_in(c, lo, hi, rook_of(side)) == 1 {
                std_letter
            } else {
                if side {
                    upper_file_char(r as int)
                } else {
                    helpers::file_char(r as int)
                }
            },
        ],
        Option::None => Seq::empty(),
    }
}

/// The castling field of a FEN string: letters in K, Q, k, q order, or `-`.
pub open spec fn castling_field(c: Seq<Occupant>, rights: Seq<Option<usize>>) -> Seq<char> {
    let wk = first_occ_from(c, 0, king_of(true));
    let bk = first_occ_from(c, 0, king_of(false));
    let s = castling_letter(c, rights[0], 'K', wk + 1, 8, true) + castling_letter(
        c,
        rights[1],
        'Q',
        0,
        wk,
        true,
    ) + castling_letter(c, rights[2], 'k', bk + 1, 64, false) + castling_letter(
        c,
        rights[3],
        'q',
        56,
        bk,
        false,
    );
    if s.len() == 0 {
        seq!['-']
    } else {
        s
    }
}

/// The en-passant field of a FEN string: the target square's name, or `-`
/// (an off-board target is treated as absent).
pub open spec fn ep_field(ep: Option<usize>) -> Seq<char> {
    match ep {
        Option::Some(t) => if t < 64 {
            seq![helpers::file_char(t as int), helpers::rank_char(t as int)]
        } else {
            seq!['-']
        },
        Option::None => seq!['-'],
    }
}

/// The first four FEN fields of a position: board data, active color,
/// castling availability and en-passant target, separated by single spaces.
pub open spec fn position_fen_chars(p: Position) -> Seq<char> {
    board_field(p.content@) + seq![' '] + seq![
        if p.side {
            'w'
        } else {
            'b'
        },
    ] + seq![' '] + castling_field(p.content@, p.castling_rights@) + seq![' '] + ep_field(
        p.ep_target,
    )
}

/// Emits the run-length encoding of the rank starting at `base`.
fn encode_rank(content: &[Occupant; 64], base: usize, out: &mut Vec<char>)
    requires
        base + 8 <= 64,
    ensures
        final(out)@ == old(out)@ + rank_chars_from(content@, base as int, 0, 0),
{
    let mut pending: usize = 0;
    let mut f: usize = 0;
    while f < 8
        invariant
            f <= 8,
            pending <= f,
            base + 8 <= 64,
            out@ + rank_chars_from(content@, base as int, f as int, pending as int) == old(out)@
                + rank_chars_from(content@, base as int, 0, 0),
        decreases 8 - f,
    {
        match content[base + f] {
            Occupant::Piece(p) => {
                if pending > 0 {
                    out.push((48 + pending as u8) as char);
                    pending = 0;
                }
                out.push(p.to_char());
            },
            Occupant::Empty => {
                pending += 1;
            },
        }
        f += 1;
    }
    if pending > 0 {
        out.push((48 + pending as u8) as char);
    }
}

/// Counts the squares of `[lo, hi)` holding exactly `x`.
fn count_occ_range(content: &[Occupant; 64], lo: usize, hi: usize, x: Occupant) -> (r: usize)
    requires
        hi <= 64,
    ensures
        r == count_occ_in(content@, lo as int, hi as int, x),
{
    let mut acc: usize = 0;
    let mut k: usize = lo;
    while k < hi
        invariant
            lo <= k <= hi <= 64 || (lo > hi && k == lo),
            acc <= 64,
            acc <= k - lo,
            acc + count_occ_in(content@, k as int, hi as int, x) == count_occ_in(
                content@,
                lo as int,
                hi as int,
                x,
            ),
        decreases hi - k,
    {
        if content[k] == x {
            acc += 1;
        }
        k += 1;
    }
    acc
}

/// Emits one castling letter if the slot is present.
fn emit_castling_letter(
    content: &[Occupant; 64],
    slot: Option<usize>,
    std_letter: char,
    lo: usize,
    hi: usize,
    side: bool,
    out: &mut Vec<char>,
)
    requires
        hi <= 64,
    ensures
        final(out)@ == old(out)@ + castling_letter(
            content@,
            slot,
            std_letter,
            lo as int,
            hi as int,
            side,
        ),
{
    if let Some(r) = slot {
        let n = count_occ_range(
            content,
            lo,
            hi,
            Occupant::Piece(Piece(PieceType::R, crate::Color::from_bool(side))),
        );
        if n == 1 {
            out.push(std_letter);
        } else {
            if side {
                let up = (65 + (r % 8) as u8) as char;
                proof {
                    assert(up == upper_file_char(r as int));
                }
                out.push(up);
            } else {
                let fc = (97 + (r % 8) as u8) as char;
                proof {
                    assert(fc == helpers::file_char(r as int));
                }
                out.push(fc);
            }
        }
    }
}


/// Emits the castling field: letters in K, Q, k, q order, or `-`.
#[verifier::rlimit(100)]
#[verifier::spinoff_prover]
fn emit_castling_field(content: &[Occupant; 64], rights: &[Option<usize>; 4], out: &mut Vec<char>)
    ensures
        final(out)@ == old(out)@ + castling_field(content@, rights@),
{
        let ghost c = content@;
        let ghost wkg = first_occ_from(c, 0, king_of(true));
        let ghost bkg = first_occ_from(c, 0, king_of(false));
        let (wk_lo, wk_hi): (usize, usize) = match crate::legality::find_occ(
            content,
            Occupant::Piece(Piece(PieceType::K, crate::Color::White)),
        ) {
            Some(k) => (k + 1, k),
            None => (0, 0),
        };
        let (bk_lo, bk_hi): (usize, usize) = match crate::legality::find_occ(
            content,
            Occupant::Piece(Piece(PieceType::K, crate::Color::Black)),
        ) {
            Some(k) => (k + 1, k),
            None => (0, 0),
        };
        let before = out.len();
        emit_castling_letter(
            content,
            rights[0],
            'K',
            wk_lo,
            8,
            true,
            out,
        );
        proof {
            if wkg == -1 {
                assert(count_occ_in(c, wk_lo as int, 8, rook_of(true)) == count_occ_in(
                    c,
                    wkg + 1,
                    8,
                    rook_of(true),
                ));
                assert(castling_letter(c, rights@[0], 'K', wk_lo as int, 8, true)
                    == castling_letter(c, rights@[0], 'K', wkg + 1, 8, true));
            }
        }
        emit_castling_letter(
            content,
            rights[1],
            'Q',
            0,
            wk_hi,
            true,
            out,
        );
        proof {
            if wkg == -1 {
                assert(count_occ_in(c, 0, wk_hi as int, rook_of(true)) == 0);
                assert(count_occ_in(c, 0, wkg, rook_of(true)) == 0);
                assert(castling_letter(c, rights@[1], 'Q', 0, wk_hi as int, true)
                    == castling_letter(c, rights@[1], 'Q', 0, wkg, true));
            }
        }
        emit_castling_letter(
            content,
            rights[2],
            'k',
            bk_lo,
            64,
            false,
            out,
        );
        proof {
            if bkg == -1 {
                assert(count_occ_in(c, bk_lo as int, 64, rook_of(false)) == count_occ_in(
                    c,
                    bkg + 1,
                    64,
                    rook_of(false),
                ));
                assert(castling_letter(c, rights@[2], 'k', bk_lo as int, 64, false)
                    == castling_letter(c, rights@[2], 'k', bkg + 1, 64, false));
            }
        }
        emit_castling_letter(
            content,
            rights[3],
            'q',
            56,
            bk_hi,
            false,
            out,
        );
        proof {
            if bkg == -1 {
                assert(count_occ_in(c, 56, bk_hi as int, rook_of(false)) == 0);
                assert(count_occ_in(c, 56, bkg, rook_of(false)) == 0);
                assert(castling_letter(c, rights@[3], 'q', 56, bk_hi as int, false)
                    == castling_letter(c, rights@[3], 'q', 56, bkg, false));
            }
        }
        if out.len() == before {
            out.push('-');
        }
        proof {
            assert(out@ =~= old(out)@ + castling_field(content@, rights@));
        }
}

impl Position {
    /// Generates an FEN string representing the board data, active color,
    /// castling rights, and en passant target in the position.
    #[verifier::rlimit(100)]
    #[verifier::spinoff_prover]
    pub fn to_fen(&self) -> (r: String)
        ensures
            r@ == position_fen_chars(*self),
    {
        let mut out: Vec<char> = Vec::new();
        let mut r: usize = 8;
        while r > 0
            invariant
                r <= 8,
                out@ + board_chars_down(self.content@, r as int) == board_field(self.content@),
            decreases r,
        {
            encode_rank(&self.content, 8 * (r - 1), &mut out);
            if r > 1 {
                out.push('/');
            }
            r -= 1;
        }
        proof {
            assert(out@ =~= board_field(self.content@));
        }
        let ghost g1 = out@;
        out.push(' ');
        out.push(if self.side {
            'w'
        } else {
            'b'
        });
        out.push(' ');
        emit_castling_field(&self.content, &self.castling_rights, &mut out);
        let ghost g2 = out@;
        out.push(' ');
        match self.ep_target {
            Some(t) => {
                if t < 64 {
                    let (fc, rc) = helpers::idx_to_sq(t);
                    out.push(fc);
                    out.push(rc);
                } else {
                    out.push('-');
                }
            },
            None => {
                out.push('-');
            },
        }
        proof {
            assert(out@ =~= g2 + seq![' '] + ep_field(self.ep_target));
            assert(g2 =~= g1 + seq![' '] + seq![
                if self.side {
                    'w'
                } else {
                    'b'
                },
            ] + seq![' '] + castling_field(self.content@, self.castling_rights@));
            assert(out@ =~= position_fen_chars(*self));
        }
        helpers::chars_to_string(&out)
    }
}


/// The mathematical content of a parsed FEN string.
pub struct ParsedFen {
    /// The 64 squares, a1 first.
    pub content: Seq<Occupant>,
    /// The side to move.
    pub side: bool,
    /// The four castling-rights slots.
    pub rights: Seq<Option<usize>>,
    /// The en-passant target square.
    pub ep: Option<usize>,
    /// The halfmove clock.
    pub halfmove: int,
    /// The fullmove number.
    pub fullmove: int,
}

/// Error cases of FEN parsing, each identifying the offending field.
#[derive(Copy, Clone, Debug, PartialEq, Eq)]
pub enum FenError {
    /// The string does not have exactly six space-separated fields.
    FieldCount(usize),
    /// The board field does not have exactly eight ranks.
    RankCount(usize),
    /// A rank's run-length-decoded square count is not exactly eight.
    RankLength,
    /// A rank holds a digit outside `1..=8`.
    InvalidDigit(char),
    /// A rank holds a character that denotes no piece.
    InvalidPieceCharacter(char),
    /// A side has no king or more than one king.
    KingCount(crate::Color),
    /// The side-to-move field is not exactly "w" or "b".
    SideToMove,
    /// The castling field is not "-" or a justified, repeat-free subset of "KQkq".
    CastlingField,
    /// The en-passant field is not "-" or a square name on the third or sixth rank.
    EnPassantField,
    /// The halfmove field is not a whole number at most 150.
    HalfmoveClock,
    /// The fullmove field is not a whole number at least 1.
    FullmoveNumber,
}

/// Splits `s` from index `i` at each occurrence of `sep`, with `cur` the
/// piece read so far.
pub open spec fn split_acc(s: Seq<char>, i: int, cur: Seq<char>, sep: char) -> Seq<Seq<char>>
    decreases s.len() - i,
{
    if i < 0 || i >= s.len() {
        seq![cur]
    } else if s[i] == sep {
        seq![cur] + split_acc(s, i + 1, Seq::empty(), sep)
    } else {
        split_acc(s, i + 1, cur.push(s[i]), sep)
    }
}

/// The pieces of `s` between occurrences of `sep`.
pub open spec fn split_sp(s: Seq<char>, sep: char) -> Seq<Seq<char>> {
    split_acc(s, 0, Seq::empty(), sep)
}

/// The views of a list of character vectors.
pub open spec fn views(vs: Seq<Vec<char>>) -> Seq<Seq<char>> {
    vs.map_values(|v: Vec<char>| v@)
}

/// Splits the characters at each occurrence of `sep`.
pub(crate) fn split_chars(cs: &Vec<char>, sep: char) -> (r: Vec<Vec<char>>)
    ensures
        views(r@) == split_sp(cs@, sep),
        r@.len() >= 1,
{
    let mut fields: Vec<Vec<char>> = Vec::new();
    let mut cur: Vec<char> = Vec::new();
    let mut i: usize = 0;
    while i < cs.len()
        invariant
            i <= cs@.len(),
            views(fields@) + split_acc(cs@, i as int, cur@, sep) == split_sp(cs@, sep),
        decreases cs@.len() - i,
    {
        let c = cs[i];
        if c == sep {
            fields.push(cur);
            cur = Vec::new();
            proof {
                assert(views(fields@) =~= views(fields@.drop_last()).push(fields@.last()@));
            }
        } else {
            cur.push(c);
        }
        i += 1;
    }
    fields.push(cur);
    proof {
        assert(views(fields@) =~= views(fields@.drop_last()).push(fields@.last()@));
    }
    fields
}

/// A run of `n` empty squares.
pub open spec fn empty_run(n: int) -> Seq<Occupant> {
    Seq::new(n as nat, |x: int| Occupant::Empty)
}

/// Run-length-decodes one rank from index `i` on, with `acc` the squares
/// decoded so far (file a first): digits become empty runs, letters pieces.
pub open spec fn parse_rank_from(rs: Seq<char>, i: int, acc: Seq<Occupant>) -> Result<
    Seq<Occupant>,
    FenError,
>
    decreases rs.len() - i,
{
    if i < 0 || i >= rs.len() {
        if acc.len() == 8 {
            Ok(acc)
        } else {
            Err(FenError::RankLength)
        }
    } else {
        let ch = rs[i];
        if ch == '0' || ch == '9' {
            Err(FenError::InvalidDigit(ch))
        } else if 49 <= ch as int <= 56 {
            let n = ch as int - 48;
            if acc.len() + n > 8 {
                Err(FenError::RankLength)
            } else {
                parse_rank_from(rs, i + 1, acc + empty_run(n))
            }
        } else {
            match char_piece(ch) {
                Some(p) => if acc.len() >= 8 {
                    Err(FenError::RankLength)
                } else {
                    parse_rank_from(rs, i + 1, acc.push(Occupant::Piece(p)))
                },
                None => Err(FenError::InvalidPieceCharacter(ch)),
            }
        }
    }
}

/// Run-length-decodes one rank of the board field.
fn parse_rank_exec(rs: &Vec<char>) -> (r: Result<Vec<Occupant>, FenError>)
    ensures
        (r matches Ok(v) ==> parse_rank_from(rs@, 0, Seq::empty()) == Ok::<_, FenError>(v@)
            && v@.len() == 8),
        (r matches Err(e) ==> parse_rank_from(rs@, 0, Seq::empty()) == Err::<Seq<Occupant>, _>(e)),
{
    let mut acc: Vec<Occupant> = Vec::new();
    let mut i: usize = 0;
    while i < rs.len()
        invariant
            i <= rs@.len(),
            acc@.len() <= 8,
            parse_rank_from(rs@, i as int, acc@) == parse_rank_from(rs@, 0, Seq::empty()),
        decreases rs@.len() - i,
    {
        let ch = rs[i];
        if ch == '0' || ch == '9' {
            return Err(FenError::InvalidDigit(ch));
        }
        if '1' <= ch && ch <= '8' {
            let n: usize = match ch {
                '1' => 1,
                '2' => 2,
                '3' => 3,
                '4' => 4,
                '5' => 5,
                '6' => 6,
                '7' => 7,
                _ => 8,
            };
            if acc.len() + n > 8 {
                return Err(FenError::RankLength);
            }
            let mut j: usize = 0;
            let ghost acc0 = acc@;
            while j < n
                invariant
                    j <= n,
                    acc@ == acc0 + empty_run(j as int),
                decreases n - j,
            {
                acc.push(Occupant::Empty);
                proof {
                    assert(acc@ =~= acc0 + empty_run(j + 1));
                }
                j += 1;
            }
            proof {
                assert(acc@ =~= acc0 + empty_run(n as int));
                assert(rs@[i as int] == ch);
                assert(49 <= ch as int <= 56);
                assert(ch != '0' && ch != '9');
                assert(n == ch as int - 48);
                assert(acc0.len() + n <= 8);
                assert(parse_rank_from(rs@, i as int, acc0) == parse_rank_from(
                    rs@,
                    i + 1,
                    acc0 + empty_run(n as int),
                ));
            }
        } else {
            match Piece::try_from(ch) {
                Ok(p) => {
                    if acc.len() >= 8 {
                        return Err(FenError::RankLength);
                    }
                    let ghost acc0 = acc@;
                    acc.push(Occupant::Piece(p));
                    proof {
                        assert(parse_rank_from(rs@, i as int, acc0) == parse_rank_from(
                            rs@,
                            i + 1,
                            acc0.push(Occupant::Piece(p)),
                        ));
                    }
                },
                Err(_) => {
                    return Err(FenError::InvalidPieceCharacter(ch));
                },
            }
        }
        i += 1;
    }
    if acc.len() == 8 {
        Ok(acc)
    } else {
        Err(FenError::RankLength)
    }
}

/// Decodes the eight ranks of the board field, top rank first.
pub open spec fn parse_ranks(rts: Seq<Seq<char>>, k: int) -> Result<Seq<Seq<Occupant>>, FenError>
    decreases rts.len() - k,
{
    if k < 0 || k >= rts.len() {
        Ok(Seq::empty())
    } else {
        match parse_rank_from(rts[k], 0, Seq::empty()) {
            Ok(rk) => match parse_ranks(rts, k + 1) {
                Ok(rest) => Ok(seq![rk] + rest),
                Err(e) => Err(e),
            },
            Err(e) => Err(e),
        }
    }
}

/// The board content assembled from the parsed ranks: the first `j` of the
/// bottom board rows, each row taken from the parsed ranks in reverse order.
pub open spec fn assemble(rv: Seq<Seq<Occupant>>, j: int) -> Seq<Occupant>
    decreases j,
{
    if j <= 0 {
        Seq::empty()
    } else {
        assemble(rv, j - 1) + rv[8 - j]
    }
}

/// The side denoted by the side-to-move field.
pub open spec fn parse_side(f: Seq<char>) -> Result<bool, FenError> {
    if f.len() == 1 && f[0] == 'w' {
        Ok(true)
    } else if f.len() == 1 && f[0] == 'b' {
        Ok(false)
    } else {
        Err(FenError::SideToMove)
    }
}

/// The empty castling-rights record.
pub open spec fn no_rights4() -> Seq<Option<usize>> {
    seq![Option::None, Option::None, Option::None, Option::None]
}

/// The range of squares strictly between the king of the slot's side and
/// the relevant board edge.
pub open spec fn castling_range(c: Seq<Occupant>, slot: int) -> (int, int) {
    let side = slot < 2;
    let k = first_occ_from(c, 0, king_of(side));
    if slot == 0 {
        (k + 1, 8)
    } else if slot == 1 {
        (0, k)
    } else if slot == 2 {
        (k + 1, 64)
    } else {
        (56, k)
    }
}

/// Validates one castling letter against the board: exactly one rook of the
/// matching color must stand strictly between that side's king and the
/// relevant board edge; the slot records that rook's square.
pub open spec fn castling_slot_of(c: Seq<Occupant>, slot: int) -> Result<usize, FenError> {
    let side = slot < 2;
    let (lo, hi) = castling_range(c, slot);
    if count_occ_in(c, lo, hi, rook_of(side)) == 1 {
        Ok(first_occ_in(c, lo, hi, rook_of(side)) as usize)
    } else {
        Err(FenError::CastlingField)
    }
}

/// The first square of `[lo, hi)` holding exactly `x`, or -1 if there is none.
pub open spec fn first_occ_in(c: Seq<Occupant>, lo: int, hi: int, x: Occupant) -> int
    decreases hi - lo,
{
    if lo >= hi || lo < 0 || hi > c.len() {
        -1
    } else if c[lo] == x {
        lo
    } else {
        first_occ_in(c, lo + 1, hi, x)
    }
}

/// Reads the castling letters from index `i` on into `rights`, rejecting
/// unknown letters, repeats, and unjustified rights.
pub open spec fn parse_castling_from(
    c: Seq<Occupant>,
    fs: Seq<char>,
    i: int,
    rights: Seq<Option<usize>>,
) -> Result<Seq<Option<usize>>, FenError>
    decreases fs.len() - i,
{
    if i < 0 || i >= fs.len() {
        Ok(rights)
    } else {
        let ch = fs[i];
        let slot: int = if ch == 'K' {
            0
        } else if ch == 'Q' {
            1
        } else if ch == 'k' {
            2
        } else if ch == 'q' {
            3
        } else {
            -1
        };
        if slot == -1 {
            Err(FenError::CastlingField)
        } else if rights[slot] is Some {
            Err(FenError::CastlingField)
        } else {
            match castling_slot_of(c, slot) {
                Ok(r) => parse_castling_from(c, fs, i + 1, rights.update(slot, Some(r))),
                Err(e) => Err(e),
            }
        }
    }
}

/// The castling field decoded against the board: `-` means no rights.
pub open spec fn parse_castling(c: Seq<Occupant>, f: Seq<char>) -> Result<
    Seq<Option<usize>>,
    FenError,
> {
    if f.len() == 1 && f[0] == '-' {
        Ok(no_rights4())
    } else if f.len() == 0 {
        Err(FenError::CastlingField)
    } else {
        parse_castling_from(c, f, 0, no_rights4())
    }
}

/// The en-passant field decoded: `-`, or a square name on the third or the
/// sixth rank.
pub open spec fn parse_ep(f: Seq<char>) -> Result<Option<usize>, FenError> {
    if f.len() == 1 && f[0] == '-' {
        Ok(None)
    } else if f.len() == 2 && 97 <= f[0] as int <= 104 && (f[1] == '3' || f[1] == '6') {
        Ok(Some(helpers::sq_idx(f[0], f[1]) as usize))
    } else {
        Err(FenError::EnPassantField)
    }
}

/// The value of the digit string `s` from index `i` on, accumulated onto
/// `acc` and saturated at `cap`; `None` on any non-digit.
pub open spec fn dec_capped(s: Seq<char>, i: int, acc: int, cap: int) -> Option<int>
    decreases s.len() - i,
{
    if i < 0 || i >= s.len() {
        Some(acc)
    } else if 48 <= s[i] as int <= 57 {
        let v = acc * 10 + (s[i] as int - 48);
        dec_capped(s, i + 1, if v > cap {
            cap
        } else {
            v
        }, cap)
    } else {
        None
    }
}

/// The numeric value of a clock field, saturated at `cap`; `None` when the
/// field is empty or holds a non-digit.
pub open spec fn field_number(s: Seq<char>, cap: int) -> Option<int> {
    if s.len() == 0 {
        None
    } else {
        dec_capped(s, 0, 0, cap)
    }
}

/// The bound above which a fullmove field is rejected: the first value that
/// no longer fits the 64-bit fullmove counter.
pub open spec fn fullmove_cap() -> int {
    0x1_0000_0000_0000_0000
}

/// The FEN string decoded into board content, side to move, castling rights,
/// en-passant target and the two clocks, validating each field in order.
pub open spec fn parse_fen_spec(s: Seq<char>) -> Result<ParsedFen, FenError> {
    let fields = split_sp(s, ' ');
    if fields.len() != 6 {
        Err(FenError::FieldCount(fields.len() as usize))
    } else {
        let rts = split_sp(fields[0], '/');
        if rts.len() != 8 {
            Err(FenError::RankCount(rts.len() as usize))
        } else {
            match parse_ranks(rts, 0) {
                Err(e) => Err(e),
                Ok(rv) => {
                    let content = assemble(rv, 8);
                    if count_occ(content, king_of(true)) != 1 {
                        Err(FenError::KingCount(crate::Color::White))
                    } else if count_occ(content, king_of(false)) != 1 {
                        Err(FenError::KingCount(crate::Color::Black))
                    } else {
                        match parse_side(fields[1]) {
                            Err(e) => Err(e),
                            Ok(side) => match parse_castling(content, fields[2]) {
                                Err(e) => Err(e),
                                Ok(rights) => match parse_ep(fields[3]) {
                                    Err(e) => Err(e),
                                    Ok(ep) => match field_number(fields[4], 151) {
                                        None => Err(FenError::HalfmoveClock),
                                        Some(hm) => if hm > 150 {
                                            Err(FenError::HalfmoveClock)
                                        } else {
                                            match field_number(fields[5], fullmove_cap()) {
                                                None => Err(FenError::FullmoveNumber),
                                                Some(fm) => if fm < 1 || fm >= fullmove_cap() {
                                                    Err(FenError::FullmoveNumber)
                                                } else {
                                                    Ok(
                                                        ParsedFen {
                                                            content,
                                                            side,
                                                            rights,
                                                            ep,
                                                            halfmove: hm,
                                                            fullmove: fm,
                                                        },
                                                    )
                                                },
                                            }
                                        },
                                    },
                                },
                            },
                        }
                    }
                },
            }
        }
    }
}


/// The decimal digits of `n`.
pub open spec fn dec_chars(n: int) -> Seq<char>
    decreases n,
{
    if n < 10 {
        seq![digit_char(n)]
    } else {
        dec_chars(n / 10) + seq![digit_char(n % 10)]
    }
}

/// Emits the decimal digits of `n`.
pub(crate) fn push_dec(n: u64, out: &mut Vec<char>)
    ensures
        final(out)@ == old(out)@ + dec_chars(n as int),
    decreases n,
{
    if n < 10 {
        out.push((48 + n as u8) as char);
    } else {
        push_dec(n / 10, out);
        out.push((48 + (n % 10) as u8) as char);
        proof {
            assert(out@ =~= old(out)@ + dec_chars(n as int));
        }
    }
}

/// The views of a list of occupant vectors.
pub open spec fn views_occ(vs: Seq<Vec<Occupant>>) -> Seq<Seq<Occupant>> {
    vs.map_values(|v: Vec<Occupant>| v@)
}

/// Counting over `[i, c.len())` agrees with counting from `i` on.
proof fn lemma_count_in_from(c: Seq<Occupant>, i: int, x: Occupant)
    requires
        0 <= i,
    ensures
        count_occ_in(c, i, c.len() as int, x) == count_occ_from(c, i, x),
    decreases c.len() - i,
{
    if i < c.len() {
        lemma_count_in_from(c, i + 1, x);
    }
}

/// A square holding `x` exists in `[lo, hi)` wherever its count there is
/// positive, and the first such square indeed holds `x`.
proof fn lemma_first_occ_in_exists(c: Seq<Occupant>, lo: int, hi: int, x: Occupant)
    requires
        count_occ_in(c, lo, hi, x) > 0,
    ensures
        lo <= first_occ_in(c, lo, hi, x) < hi,
        c[first_occ_in(c, lo, hi, x)] == x,
    decreases hi - lo,
{
    if !(lo >= hi || lo < 0 || hi > c.len()) && c[lo] != x {
        lemma_first_occ_in_exists(c, lo + 1, hi, x);
    }
}

/// The castling rights read so far are justified by the board.
pub open spec fn rights_ok(c: Seq<Occupant>, rights: Seq<Option<usize>>) -> bool {
    &&& crate::position::wf_rights(rights)
    &&& crate::position::rights_consistent(c, rights)
}

proof fn lemma_castling_slot_ok(c: Seq<Occupant>, slot: int)
    requires
        c.len() == 64,
        0 <= slot < 4,
        castling_slot_of(c, slot) is Ok,
    ensures
        castling_slot_of(c, slot) matches Ok(r) ==> {
            let wk = first_occ_from(c, 0, king_of(true));
            let bk = first_occ_from(c, 0, king_of(false));
            &&& r < 64
            &&& c[r as int] == rook_of(slot < 2)
            &&& (slot == 0 ==> wk < r < 8)
            &&& (slot == 1 ==> r < wk)
            &&& (slot == 2 ==> bk < r < 64)
            &&& (slot == 3 ==> 56 <= r < bk)
        },
{
    let side = slot < 2;
    let (lo, hi) = castling_range(c, slot);
    lemma_first_occ_in_exists(c, lo, hi, rook_of(side));
}

proof fn lemma_parse_castling_ok(c: Seq<Occupant>, fs: Seq<char>, i: int, acc: Seq<Option<usize>>)
    requires
        c.len() == 64,
        rights_ok(c, acc),
    ensures
        parse_castling_from(c, fs, i, acc) matches Ok(rights) ==> rights_ok(c, rights),
    decreases fs.len() - i,
{
    if !(i < 0 || i >= fs.len()) {
        let ch = fs[i];
        let slot: int = if ch == 'K' {
            0
        } else if ch == 'Q' {
            1
        } else if ch == 'k' {
            2
        } else if ch == 'q' {
            3
        } else {
            -1
        };
        if slot != -1 && !(acc[slot] is Some) {
            match castling_slot_of(c, slot) {
                Ok(r) => {
                    lemma_castling_slot_ok(c, slot);
                    let acc2 = acc.update(slot, Some(r));
                    assert(rights_ok(c, acc2));
                    lemma_parse_castling_ok(c, fs, i + 1, acc2);
                },
                Err(_) => {},
            }
        }
    }
}

/// Finds the first square of `[lo, hi)` holding exactly `x`.
fn find_occ_in_range(content: &[Occupant; 64], lo: usize, hi: usize, x: Occupant) -> (r: Option<
    usize,
>)
    requires
        hi <= 64,
    ensures
        r matches Some(f) ==> f == first_occ_in(content@, lo as int, hi as int, x),
        r is None ==> first_occ_in(content@, lo as int, hi as int, x) == -1,
{
    let mut k: usize = lo;
    while k < hi
        invariant
            lo <= k <= hi <= 64 || (lo > hi && k == lo),
            first_occ_in(content@, k as int, hi as int, x) == first_occ_in(
                content@,
                lo as int,
                hi as int,
                x,
            ),
        decreases hi - k,
    {
        if content[k] == x {
            return Some(k);
        }
        k += 1;
    }
    None
}

/// Validates one castling letter against the board and finds its rook.
fn castling_slot_exec(content: &[Occupant; 64], slot: usize) -> (r: Result<usize, FenError>)
    requires
        slot < 4,
        count_occ(content@, king_of(slot < 2)) >= 1,
    ensures
        (r matches Ok(v) ==> castling_slot_of(content@, slot as int) == Ok::<_, FenError>(v)),
        (r matches Err(e) ==> castling_slot_of(content@, slot as int) == Err::<usize, _>(e)),
{
    let side = slot < 2;
    let king = Occupant::Piece(Piece(PieceType::K, crate::Color::from_bool(side)));
    let rook = Occupant::Piece(Piece(PieceType::R, crate::Color::from_bool(side)));
    proof {
        assert(king == king_of(side));
        assert(rook == rook_of(side));
        lemma_first_occ_exists(content@, 0, king_of(side));
    }
    let k = match crate::legality::find_occ(content, king) {
        Some(k) => k,
        None => {
            return Err(FenError::CastlingField);
        },
    };
    let (lo, hi): (usize, usize) = if slot == 0 {
        (k + 1, 8)
    } else if slot == 1 {
        (0, k)
    } else if slot == 2 {
        (k + 1, 64)
    } else {
        (56, k)
    };
    if count_occ_range(content, lo, hi, rook) == 1 {
        proof {
            lemma_first_occ_in_exists(content@, lo as int, hi as int, rook_of(side));
        }
        match find_occ_in_range(content, lo, hi, rook) {
            Some(f) => Ok(f),
            None => Err(FenError::CastlingField),
        }
    } else {
        Err(FenError::CastlingField)
    }
}

/// Reads the castling field against the board.
fn parse_castling_exec(content: &[Occupant; 64], f: &Vec<char>) -> (r: Result<
    [Option<usize>; 4],
    FenError,
>)
    requires
        count_occ(content@, king_of(true)) >= 1,
        count_occ(content@, king_of(false)) >= 1,
    ensures
        (r matches Ok(v) ==> parse_castling(content@, f@) == Ok::<_, FenError>(v@)),
        (r matches Err(e) ==> parse_castling(content@, f@) == Err::<Seq<Option<usize>>, _>(e)),
{
    if f.len() == 1 && f[0] == '-' {
        let rights: [Option<usize>; 4] = [None, None, None, None];
        proof {
            assert(rights@ =~= no_rights4());
        }
        return Ok(rights);
    }
    if f.len() == 0 {
        return Err(FenError::CastlingField);
    }
    let mut rights: [Option<usize>; 4] = [None, None, None, None];
    proof {
        assert(rights@ =~= no_rights4());
    }
    let mut i: usize = 0;
    while i < f.len()
        invariant
            i <= f@.len(),
            !(f@.len() == 1 && f@[0] == '-'),
            f@.len() != 0,
            count_occ(content@, king_of(true)) >= 1,
            count_occ(content@, king_of(false)) >= 1,
            parse_castling_from(content@, f@, i as int, rights@) == parse_castling_from(
                content@,
                f@,
                0,
                no_rights4(),
            ),
        decreases f@.len() - i,
    {
        let ch = f[i];
        let slot: usize = if ch == 'K' {
            0
        } else if ch == 'Q' {
            1
        } else if ch == 'k' {
            2
        } else if ch == 'q' {
            3
        } else {
            4
        };
        if slot == 4 {
            return Err(FenError::CastlingField);
        }
        if rights[slot].is_some() {
            return Err(FenError::CastlingField);
        }
        match castling_slot_exec(content, slot) {
            Ok(r) => {
                let ghost rights0 = rights@;
                rights[slot] = Some(r);
                proof {
                    assert(rights@ =~= rights0.update(slot as int, Some(r)));
                }
            },
            Err(e) => {
                return Err(e);
            },
        }
        i += 1;
    }
    Ok(rights)
}

/// Reads a clock field as a number, saturating at `cap`.
fn parse_clock(f: &Vec<char>, cap: u128) -> (r: Option<u128>)
    requires
        cap <= 0x1_0000_0000_0000_0000,
    ensures
        r matches Some(v) ==> field_number(f@, cap as int) == Some(v as int) && v <= cap,
        r is None ==> field_number(f@, cap as int) is None,
{
    if f.len() == 0 {
        return None;
    }
    let mut acc: u128 = 0;
    let mut i: usize = 0;
    while i < f.len()
        invariant
            i <= f@.len(),
            acc <= cap <= 0x1_0000_0000_0000_0000,
            dec_capped(f@, i as int, acc as int, cap as int) == dec_capped(
                f@,
                0,
                0,
                cap as int,
            ),
        decreases f@.len() - i,
    {
        let ch = f[i];
        if !('0' <= ch && ch <= '9') {
            return None;
        }
        let d: u128 = match ch {
            '0' => 0,
            '1' => 1,
            '2' => 2,
            '3' => 3,
            '4' => 4,
            '5' => 5,
            '6' => 6,
            '7' => 7,
            '8' => 8,
            _ => 9,
        };
        let v = acc * 10 + d;
        acc = if v > cap {
            cap
        } else {
            v
        };
        i += 1;
    }
    Some(acc)
}


pub(crate) proof fn lemma_assemble_len(rv: Seq<Seq<Occupant>>, j: int)
    requires
        0 <= j <= 8,
        rv.len() == 8,
        forall|k: int| 0 <= k < 8 ==> (#[trigger] rv[k]).len() == 8,
    ensures
        assemble(rv, j).len() == 8 * j,
    decreases j,
{
    if j > 0 {
        lemma_assemble_len(rv, j - 1);
    }
}

pub(crate) proof fn lemma_parse_ranks_shape(rts: Seq<Seq<char>>, k: int)
    requires
        0 <= k <= rts.len(),
    ensures
        parse_ranks(rts, k) matches Ok(rv) ==> rv.len() == rts.len() - k && (forall|j: int|
            0 <= j < rv.len() ==> (#[trigger] rv[j]).len() == 8),
    decreases rts.len() - k,
{
    if k < rts.len() {
        match parse_rank_from(rts[k], 0, Seq::empty()) {
            Ok(rk) => {
                lemma_parse_rank_len(rts[k], 0, Seq::empty());
                lemma_parse_ranks_shape(rts, k + 1);
                match parse_ranks(rts, k + 1) {
                    Ok(rest) => {
                        let rv = seq![rk] + rest;
                        assert forall|j: int| 0 <= j < rv.len() implies (#[trigger] rv[j]).len()
                            == 8 by {
                            if j == 0 {
                                assert(rv[j] == rk);
                            } else {
                                assert(rv[j] == rest[j - 1]);
                            }
                        }
                    },
                    Err(_) => {},
                }
            },
            Err(_) => {},
        }
    }
}

proof fn lemma_parse_rank_len(rs: Seq<char>, i: int, acc: Seq<Occupant>)
    ensures
        parse_rank_from(rs, i, acc) matches Ok(v) ==> v.len() == 8,
    decreases rs.len() - i,
{
    if !(i < 0 || i >= rs.len()) {
        let ch = rs[i];
        if !(ch == '0' || ch == '9') {
            if 49 <= ch as int <= 56 {
                let n = ch as int - 48;
                if acc.len() + n <= 8 {
                    lemma_parse_rank_len(rs, i + 1, acc + empty_run(n));
                }
            } else {
                match char_piece(ch) {
                    Some(p) => {
                        if acc.len() < 8 {
                            lemma_parse_rank_len(rs, i + 1, acc.push(Occupant::Piece(p)));
                        }
                    },
                    None => {},
                }
            }
        }
    }
}

/// A validated FEN record: a well-formed position together with the halfmove
/// clock and the fullmove number.
#[derive(Debug, PartialEq, Eq)]
pub struct Fen {
    position: Position,
    halfmove_clock: u16,
    fullmove_number: u64,
}

impl Fen {
    /// The record is internally consistent: the position is well formed, the
    /// halfmove clock is at most 150, and the fullmove number is at least 1.
    #[verifier::type_invariant]
    pub closed spec fn inv(self) -> bool {
        &&& self.position.wf()
        &&& self.halfmove_clock <= 150
        &&& 1 <= self.fullmove_number < fullmove_cap()
    }

    /// The position the record denotes.
    pub closed spec fn spec_position(self) -> Position {
        self.position
    }

    /// The halfmove clock the record denotes.
    pub closed spec fn spec_halfmove(self) -> u16 {
        self.halfmove_clock
    }

    /// The fullmove number the record denotes.
    pub closed spec fn spec_fullmove(self) -> u64 {
        self.fullmove_number
    }

    /// Returns the position.
    pub fn position(&self) -> (r: Position)
        ensures
            r == self.spec_position(),
            r.wf(),
    {
        proof {
            use_type_invariant(self);
        }
        self.position
    }

    /// Returns the halfmove clock.
    pub fn halfmove_clock(&self) -> (r: u16)
        ensures
            r == self.spec_halfmove(),
            r <= 150,
    {
        proof {
            use_type_invariant(self);
        }
        self.halfmove_clock
    }

    /// Returns the fullmove number.
    pub fn fullmove_number(&self) -> (r: u64)
        ensures
            r == self.spec_fullmove(),
            1 <= r,
    {
        proof {
            use_type_invariant(self);
        }
        self.fullmove_number
    }

    /// Builds a FEN record from an already validated position and clocks.
    pub(crate) fn from_parts(position: Position, halfmove_clock: u16, fullmove_number: u64) -> (r:
        Fen)
        requires
            position.wf(),
            halfmove_clock <= 150,
            1 <= fullmove_number < fullmove_cap(),
        ensures
            r.spec_position() == position,
            r.spec_halfmove() == halfmove_clock,
            r.spec_fullmove() == fullmove_number,
    {
        Fen { position, halfmove_clock, fullmove_number }
    }

    /// Attempts to parse a six-field FEN string, validating each field in
    /// order and failing with an error identifying the offending field.
    #[verifier::rlimit(100)]
    pub fn try_from(s: &str) -> (r: Result<Fen, FenError>)
        ensures
            r matches Ok(f) ==> (parse_fen_spec(s@) matches Ok(pf) && f.spec_position().content@
                == pf.content && f.spec_position().side == pf.side
                && f.spec_position().castling_rights@ == pf.rights && f.spec_position().ep_target
                == pf.ep && f.spec_halfmove() == pf.halfmove && f.spec_fullmove() == pf.fullmove
                && f.spec_position().wf()),
            r matches Err(e) ==> parse_fen_spec(s@) == Err::<ParsedFen, _>(e),
    {
        let cs = helpers::str_to_chars(s);
        let fields = split_chars(&cs, ' ');
        proof {
            assert(views(fields@).len() == fields@.len());
        }
        if fields.len() != 6 {
            return Err(FenError::FieldCount(fields.len()));
        }
        proof {
            assert(views(fields@)[0] == fields@[0]@);
        }
        let rts = split_chars(&fields[0], '/');
        proof {
            assert(views(rts@).len() == rts@.len());
            assert(cs@ == s@);
        }
        if rts.len() != 8 {
            return Err(FenError::RankCount(rts.len()));
        }
        let ghost rtsv = views(rts@);
        let ghost fieldsv = views(fields@);
        let mut ranks: Vec<Vec<Occupant>> = Vec::new();
        let mut k: usize = 0;
        while k < 8
            invariant
                k <= 8,
                rts@.len() == 8,
                rtsv == views(rts@),
                fieldsv == views(fields@),
                fieldsv == split_sp(s@, ' '),
                fieldsv.len() == 6,
                rtsv == split_sp(fieldsv[0], '/'),
                rtsv.len() == 8,
                ranks@.len() == k,
                forall|j: int| 0 <= j < k ==> (#[trigger] ranks@[j]@).len() == 8,
                (parse_ranks(rtsv, k as int) matches Ok(rest) ==> parse_ranks(rtsv, 0)
                    == Ok::<_, FenError>(views_occ(ranks@) + rest)),
                (parse_ranks(rtsv, k as int) matches Err(e) ==> parse_ranks(rtsv, 0) == Err::<
                    Seq<Seq<Occupant>>,
                    _,
                >(e)),
            decreases 8 - k,
        {
            proof {
                assert(views(rts@)[k as int] == rts@[k as int]@);
            }
            match parse_rank_exec(&rts[k]) {
                Ok(v) => {
                    let ghost ranks0 = ranks@;
                    ranks.push(v);
                    proof {
                        assert(views_occ(ranks@) =~= views_occ(ranks0).push(v@));
                        match parse_ranks(rtsv, k + 1) {
                            Ok(rest) => {
                                assert(parse_ranks(rtsv, k as int) == Ok::<_, FenError>(
                                    seq![v@] + rest,
                                ));
                                assert(views_occ(ranks0) + (seq![v@] + rest) =~= views_occ(ranks@)
                                    + rest);
                            },
                            Err(_) => {},
                        }
                    }
                },
                Err(e) => {
                    return Err(e);
                },
            }
            k += 1;
        }
        let ghost rv = views_occ(ranks@);
        proof {
            assert(parse_ranks(rtsv, 8) == Ok::<_, FenError>(Seq::<Seq<Occupant>>::empty()));
            assert(rv + Seq::<Seq<Occupant>>::empty() =~= rv);
            assert(parse_ranks(rtsv, 0) == Ok::<_, FenError>(rv));
            lemma_parse_ranks_shape(rtsv, 0);
            assert(forall|j: int| 0 <= j < 8 ==> (#[trigger] rv[j]).len() == 8);
        }
        let mut content: [Occupant; 64] = [Occupant::Empty; 64];
        let mut j: usize = 0;
        while j < 8
            invariant
                j <= 8,
                ranks@.len() == 8,
                rv == views_occ(ranks@),
                forall|q: int| 0 <= q < 8 ==> (#[trigger] rv[q]).len() == 8,
                content@.len() == 64,
                content@.subrange(0, 8 * j as int) == assemble(rv, j as int),
            decreases 8 - j,
        {
            let rk = &ranks[7 - j];
            let mut f: usize = 0;
            while f < 8
                invariant
                    f <= 8,
                    j < 8,
                    ranks@.len() == 8,
                    rv == views_occ(ranks@),
                    forall|q: int| 0 <= q < 8 ==> (#[trigger] rv[q]).len() == 8,
                    rk@ == rv[7 - j as int],
                    content@.len() == 64,
                    content@.subrange(0, 8 * j + f) == assemble(rv, j as int) + rv[7 - j as int].subrange(
                        0,
                        f as int,
                    ),
                decreases 8 - f,
            {
                proof {
                    lemma_assemble_len(rv, j as int);
                }
                let ghost c0 = content@;
                content[8 * j + f] = rk[f];
                proof {
                    assert(content@ == c0.update(8 * j + f as int, rk@[f as int]));
                    let part = assemble(rv, j as int);
                    let row = rv[7 - j as int];
                    assert(part.len() == 8 * j);
                    assert(row.len() == 8);
                    assert forall|q: int| 0 <= q < 8 * j + f + 1 implies #[trigger] content@.subrange(
                        0,
                        8 * j + f + 1,
                    )[q] == (part + row.subrange(0, f + 1))[q] by {
                        if q < 8 * j + f {
                            assert(content@[q] == c0[q]);
                            assert(c0.subrange(0, 8 * j + f as int)[q] == c0[q]);
                            assert(c0.subrange(0, 8 * j + f as int)[q] == (part + row.subrange(
                                0,
                                f as int,
                            ))[q]);
                        } else {
                            assert(content@[q] == rk@[f as int]);
                        }
                    }
                    assert(content@.subrange(0, 8 * j + f + 1) =~= part + row.subrange(0, f + 1));
                }
                f += 1;
            }
            proof {
                lemma_assemble_len(rv, j as int);
                assert(rv[7 - j as int].subrange(0, 8) =~= rv[7 - j as int]);
                assert(content@.subrange(0, 8 * (j + 1) as int) =~= assemble(rv, j + 1));
            }
            j += 1;
        }
        proof {
            assert(content@.subrange(0, 64) =~= content@);
            assert(content@ == assemble(rv, 8));
        }
        let wking = Occupant::Piece(Piece(PieceType::K, crate::Color::White));
        let bking = Occupant::Piece(Piece(PieceType::K, crate::Color::Black));
        proof {
            lemma_count_in_from(content@, 0, king_of(true));
            lemma_count_in_from(content@, 0, king_of(false));
        }
        if count_occ_range(&content, 0, 64, wking) != 1 {
            return Err(FenError::KingCount(crate::Color::White));
        }
        if count_occ_range(&content, 0, 64, bking) != 1 {
            return Err(FenError::KingCount(crate::Color::Black));
        }
        proof {
            assert(views(fields@)[1] == fields@[1]@);
            assert(views(fields@)[2] == fields@[2]@);
            assert(views(fields@)[3] == fields@[3]@);
            assert(views(fields@)[4] == fields@[4]@);
            assert(views(fields@)[5] == fields@[5]@);
        }
        let sf = &fields[1];
        let side: bool;
        if sf.len() == 1 && sf[0] == 'w' {
            side = true;
        } else if sf.len() == 1 && sf[0] == 'b' {
            side = false;
        } else {
            return Err(FenError::SideToMove);
        }
        let rights = match parse_castling_exec(&content, &fields[2]) {
            Ok(r) => r,
            Err(e) => {
                return Err(e);
            },
        };
        proof {
            if parse_castling(content@, fields@[2]@) matches Ok(rr) {
                lemma_parse_castling_ok(content@, fields@[2]@, 0, no_rights4());
            }
        }
        let ef = &fields[3];
        let ep: Option<usize>;
        if ef.len() == 1 && ef[0] == '-' {
            ep = None;
        } else if ef.len() == 2 && 'a' <= ef[0] && ef[0] <= 'h' && (ef[1] == '3' || ef[1] == '6') {
            ep = Some(helpers::sq_to_idx(ef[0], ef[1]));
        } else {
            return Err(FenError::EnPassantField);
        }
        let hm = match parse_clock(&fields[4], 151) {
            Some(v) => {
                if v > 150 {
                    return Err(FenError::HalfmoveClock);
                }
                v as u16
            },
            None => {
                return Err(FenError::HalfmoveClock);
            },
        };
        let fm = match parse_clock(&fields[5], 0x1_0000_0000_0000_0000) {
            Some(v) => {
                if v < 1 || v >= 0x1_0000_0000_0000_0000 {
                    return Err(FenError::FullmoveNumber);
                }
                v as u64
            },
            None => {
                return Err(FenError::FullmoveNumber);
            },
        };
        let position = Position { content, side, castling_rights: rights, ep_target: ep };
        proof {
            assert(position.wf());
        }
        Ok(Fen { position, halfmove_clock: hm, fullmove_number: fm })
    }

    /// Serializes the record back into a six-field FEN string.
    pub fn to_string(&self) -> (r: String)
        ensures
            r@ == fen_chars(
                self.spec_position(),
                self.spec_halfmove() as int,
                self.spec_fullmove() as int,
            ),
    {
        proof {
            use_type_invariant(self);
        }
        let mut out = helpers::str_to_chars(self.position.to_fen().as_str());
        out.push(' ');
        push_dec(self.halfmove_clock as u64, &mut out);
        out.push(' ');
        push_dec(self.fullmove_number, &mut out);
        proof {
            assert(out@ =~= fen_chars(
                self.spec_position(),
                self.spec_halfmove() as int,
                self.spec_fullmove() as int,
            ));
        }
        helpers::chars_to_string(&out)
    }
}

/// The six FEN fields of a position and its clocks.
pub open spec fn fen_chars(p: Position, hm: int, fm: int) -> Seq<char> {
    position_fen_chars(p) + seq![' '] + dec_chars(hm) + seq![' '] + dec_chars(fm)
}

/// The six FEN fields written from the position's components.
pub open spec fn fen_chars_c(
    c: Seq<Occupant>,
    side: bool,
    rights: Seq<Option<usize>>,
    ep: Option<usize>,
    hm: int,
    fm: int,
) -> Seq<char> {
    board_field(c) + seq![' '] + seq![
        if side {
            'w'
        } else {
            'b'
        },
    ] + seq![' '] + castling_field(c, rights) + seq![' '] + ep_field(ep) + seq![' '] + dec_chars(hm)
        + seq![' '] + dec_chars(fm)
}

} // verus!
