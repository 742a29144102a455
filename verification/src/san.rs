//! The SAN codec: encoding a move to algebraic notation against the current
//! legal-move set, and decoding algebraic text back to a concrete move.
use vstd::prelude::*;
use crate::board::{
    board_inv, game_result_spec, is_make_step, next_ep, next_ep_exec, next_rights, next_rights_exec,
    resolve_move, Board, BoardView, MakeMoveError,
};
use crate::fen::{dec_chars, push_dec, split_sp};
use crate::helpers;
use crate::legality::{
    change_content, change_content_spec, king_capture_pseudolegal, king_capture_spec, legal_c,
    legal_spec,
};
use crate::move_::{Move, SpecialMoveType};
use crate::movegen::moves_ok;
use crate::piece::{piece_type_char, Occupant, PieceType};
use crate::position::Position;

verus! {

/// The check/mate suffix of a move: `#` when the resulting position is
/// checkmate, `+` when it merely gives check, nothing otherwise.
pub open spec fn checkish_after(p: Position, lm: Move) -> Seq<char> {
    let c = p.content@;
    let nc = change_content_spec(c, lm, p.castling_rights@);
    let nr = next_rights(c, p.castling_rights@, lm);
    let nep = next_ep(c, lm);
    let in_check = king_capture_spec(nc, false) || king_capture_spec(nc, true);
    let no_moves = legal_c(nc, !p.side, nr, nep).len() == 0;
    if in_check && no_moves {
        seq!['#']
    } else if in_check {
        seq!['+']
    } else {
        Seq::empty()
    }
}

/// Whether the legal move `l` competes with `lm` for SAN disambiguation:
/// same destination and the same moving piece.
pub open spec fn same_piece_cand(c: Seq<Occupant>, l: Move, lm: Move) -> bool {
    l.1 == lm.1 && c[l.0 as int] == c[lm.0 as int]
}

/// How many moves of `ls` from `i` on compete with `lm`.
pub open spec fn count_cands_from(ls: Seq<Move>, c: Seq<Occupant>, lm: Move, i: int) -> nat
    decreases ls.len() - i,
{
    if i < 0 || i >= ls.len() {
        0
    } else {
        count_cands_from(ls, c, lm, i + 1) + (if same_piece_cand(c, ls[i], lm) {
            1nat
        } else {
            0nat
        })
    }
}

/// How many competing moves share the source file of `lm`.
pub open spec fn count_cands_file_from(ls: Seq<Move>, c: Seq<Occupant>, lm: Move, i: int) -> nat
    decreases ls.len() - i,
{
    if i < 0 || i >= ls.len() {
        0
    } else {
        count_cands_file_from(ls, c, lm, i + 1) + (if same_piece_cand(c, ls[i], lm) && ls[i].0 % 8
            == lm.0 % 8 {
            1nat
        } else {
            0nat
        })
    }
}

/// How many competing moves share the source rank of `lm`.
pub open spec fn count_cands_rank_from(ls: Seq<Move>, c: Seq<Occupant>, lm: Move, i: int) -> nat
    decreases ls.len() - i,
{
    if i < 0 || i >= ls.len() {
        0
    } else {
        count_cands_rank_from(ls, c, lm, i + 1) + (if same_piece_cand(c, ls[i], lm) && ls[i].0 / 8
            == lm.0 / 8 {
            1nat
        } else {
            0nat
        })
    }
}

/// The minimal disambiguator for a piece move: nothing when no other legal
/// move of the same piece type shares the destination; else the source file
/// alone if unique among the candidates, else the source rank alone if
/// unique, else both.
pub open spec fn disambiguator(ls: Seq<Move>, c: Seq<Occupant>, lm: Move) -> Seq<char> {
    if count_cands_from(ls, c, lm, 0) <= 1 {
        Seq::empty()
    } else if count_cands_file_from(ls, c, lm, 0) == 1 {
        seq![helpers::file_char(lm.0 as int)]
    } else if count_cands_rank_from(ls, c, lm, 0) == 1 {
        seq![helpers::rank_char(lm.0 as int)]
    } else {
        seq![helpers::file_char(lm.0 as int), helpers::rank_char(lm.0 as int)]
    }
}

/// The SAN text of the legal move `lm` in `p`: castling renders as O-O or
/// O-O-O; a pawn move renders as its destination, prefixed by source file
/// and `x` for a capture and suffixed by `=PIECE` for a promotion; any other
/// piece move renders as the piece letter, a minimal disambiguator, `x` on
/// capture, and the destination; every move takes a trailing `+` or `#` per
/// the resulting check or mate status.
pub open spec fn san_chars(p: Position, lm: Move) -> Seq<char> {
    let c = p.content@;
    let suffix = checkish_after(p, lm);
    match lm.2 {
        Some(SpecialMoveType::CastlingKingside) => seq!['O', '-', 'O'] + suffix,
        Some(SpecialMoveType::CastlingQueenside) => seq!['O', '-', 'O', '-', 'O'] + suffix,
        _ => {
            let dest = seq![helpers::file_char(lm.1 as int), helpers::rank_char(lm.1 as int)];
            if crate::board::is_pawn_move(c, lm) {
                let cap: Seq<char> = if crate::board::is_capture(c, lm) {
                    seq![helpers::file_char(lm.0 as int), 'x']
                } else {
                    Seq::empty()
                };
                let promo: Seq<char> = match lm.2 {
                    Some(SpecialMoveType::Promotion(pt)) => seq!['=', piece_type_char(pt)],
                    _ => Seq::empty(),
                };
                cap + dest + promo + suffix
            } else {
                let t = match c[lm.0 as int] {
                    Occupant::Piece(pp) => pp.0,
                    Occupant::Empty => PieceType::P,
                };
                let dis = disambiguator(legal_spec(p), c, lm);
                let capx: Seq<char> = if c[lm.1 as int] matches Occupant::Piece(_) {
                    seq!['x']
                } else {
                    Seq::empty()
                };
                seq![piece_type_char(t)] + dis + capx + dest + suffix
            }
        },
    }
}

/// Counts the moves of `ls` competing with `lm`, optionally restricted to
/// those sharing its source file or rank.
fn count_cands_exec(ls: &Vec<Move>, content: &[Occupant; 64], lm: Move, mode: u8) -> (r: usize)
    requires
        moves_ok(ls@),
        lm.0 < 64,
        lm.1 < 64,
    ensures
        mode == 0 ==> r == count_cands_from(ls@, content@, lm, 0),
        mode == 1 ==> r == count_cands_file_from(ls@, content@, lm, 0),
        mode == 2 ==> r == count_cands_rank_from(ls@, content@, lm, 0),
{
    let mut acc: usize = 0;
    let mut k: usize = 0;
    while k < ls.len()
        invariant
            k <= ls@.len(),
            acc <= k,
            moves_ok(ls@),
            lm.0 < 64 && lm.1 < 64,
            mode == 0 ==> acc + count_cands_from(ls@, content@, lm, k as int) == count_cands_from(
                ls@,
                content@,
                lm,
                0,
            ),
            mode == 1 ==> acc + count_cands_file_from(ls@, content@, lm, k as int)
                == count_cands_file_from(ls@, content@, lm, 0),
            mode == 2 ==> acc + count_cands_rank_from(ls@, content@, lm, k as int)
                == count_cands_rank_from(ls@, content@, lm, 0),
        decreases ls@.len() - k,
    {
        let l = ls[k];
        let cand = l.1 == lm.1 && content[l.0] == content[lm.0];
        let hit = if mode == 0 {
            cand
        } else if mode == 1 {
            cand && l.0 % 8 == lm.0 % 8
        } else {
            cand && l.0 / 8 == lm.0 / 8
        };
        if hit {
            acc += 1;
        }
        k += 1;
    }
    acc
}

/// Encodes the legal move `lm` of `p` to SAN text.
#[verifier::rlimit(100)]
pub(crate) fn san_exec(p: &Position, ls: &Vec<Move>, lm: Move) -> (out: Vec<char>)
    requires
        ls@ == legal_spec(*p),
        moves_ok(ls@),
        lm.0 < 64,
        lm.1 < 64,
    ensures
        out@ == san_chars(*p, lm),
{
    let nc = change_content(&p.content, &lm, &p.castling_rights);
    let nr = next_rights_exec(&p.content, &p.castling_rights, &lm);
    let nep = next_ep_exec(&p.content, &lm);
    let in_check = king_capture_pseudolegal(&nc, false) || king_capture_pseudolegal(&nc, true);
    let mut suffix: Vec<char> = Vec::new();
    if in_check {
        let npos = Position { content: nc, side: !p.side, castling_rights: nr, ep_target: nep };
        let nmoves = npos.gen_non_illegal_moves();
        if nmoves.len() == 0 {
            suffix.push('#');
        } else {
            suffix.push('+');
        }
    }
    proof {
        assert(suffix@ =~= checkish_after(*p, lm));
    }
    let mut out: Vec<char> = Vec::new();
    match lm.2 {
        Some(SpecialMoveType::CastlingKingside) => {
            out.push('O');
            out.push('-');
            out.push('O');
            let mut sfx = suffix;
            out.append(&mut sfx);
            proof {
                assert(out@ =~= san_chars(*p, lm));
            }
        },
        Some(SpecialMoveType::CastlingQueenside) => {
            out.push('O');
            out.push('-');
            out.push('O');
            out.push('-');
            out.push('O');
            let mut sfx = suffix;
            out.append(&mut sfx);
            proof {
                assert(out@ =~= san_chars(*p, lm));
            }
        },
        _ => {
            let (df, dr) = helpers::idx_to_sq(lm.1);
            let moved_is_pawn = match p.content[lm.0] {
                Occupant::Piece(pp) => matches!(pp.piece_type(), PieceType::P),
                Occupant::Empty => false,
            };
            if moved_is_pawn {
                let capture = matches!(p.content[lm.1], Occupant::Piece(_)) || matches!(
                    lm.2,
                    Some(SpecialMoveType::EnPassant),
                );
                if capture {
                    let (sf, _) = helpers::idx_to_sq(lm.0);
                    out.push(sf);
                    out.push('x');
                }
                out.push(df);
                out.push(dr);
                if let Some(SpecialMoveType::Promotion(pt)) = lm.2 {
                    out.push('=');
                    out.push(pt.to_char());
                }
                let mut sfx = suffix;
                out.append(&mut sfx);
                proof {
                    assert(out@ =~= san_chars(*p, lm));
                }
            } else {
                let t = match p.content[lm.0] {
                    Occupant::Piece(pp) => pp.piece_type(),
                    Occupant::Empty => PieceType::P,
                };
                out.push(t.to_char());
                let n_all = count_cands_exec(ls, &p.content, lm, 0);
                if n_all > 1 {
                    let n_file = count_cands_exec(ls, &p.content, lm, 1);
                    let n_rank = count_cands_exec(ls, &p.content, lm, 2);
                    let (sf, sr) = helpers::idx_to_sq(lm.0);
                    if n_file == 1 {
                        out.push(sf);
                    } else if n_rank == 1 {
                        out.push(sr);
                    } else {
                        out.push(sf);
                        out.push(sr);
                    }
                }
                if matches!(p.content[lm.1], Occupant::Piece(_)) {
                    out.push('x');
                }
                out.push(df);
                out.push(dr);
                let mut sfx = suffix;
                out.append(&mut sfx);
                proof {
                    assert(out@ =~= san_chars(*p, lm));
                }
            }
        },
    }
    out
}

/// SAN text with a trailing check or mate mark removed.
pub open spec fn strip_mark(s: Seq<char>) -> Seq<char> {
    if s.len() > 0 && (s.last() == '+' || s.last() == '#') {
        s.drop_last()
    } else {
        s
    }
}

/// Whether the legal move `l` of `p` renders as the SAN text `input`,
/// ignoring any check or mate mark on either side.
pub open spec fn san_matches(p: Position, l: Move, input: Seq<char>) -> bool {
    strip_mark(san_chars(p, l)) == strip_mark(input)
}

/// How many legal moves from `i` on render as `input`.
pub open spec fn count_san_from(p: Position, ls: Seq<Move>, input: Seq<char>, i: int) -> nat
    decreases ls.len() - i,
{
    if i < 0 || i >= ls.len() {
        0
    } else {
        count_san_from(p, ls, input, i + 1) + (if san_matches(p, ls[i], input) {
            1nat
        } else {
            0nat
        })
    }
}

/// The first index of `ls` from `i` on whose move renders as `input`, or -1.
pub open spec fn first_san_from(p: Position, ls: Seq<Move>, input: Seq<char>, i: int) -> int
    decreases ls.len() - i,
{
    if i < 0 || i >= ls.len() {
        -1
    } else if san_matches(p, ls[i], input) {
        i
    } else {
        first_san_from(p, ls, input, i + 1)
    }
}

/// The move denoted by the SAN text `input` in `p`: the unique legal move
/// whose SAN encoding matches it, ignoring the check/mate mark; `None` when
/// no move or more than one matches.
pub open spec fn decode_san(p: Position, input: Seq<char>) -> Option<Move> {
    let ls = legal_spec(p);
    if count_san_from(p, ls, input, 0) == 1 {
        Some(ls[first_san_from(p, ls, input, 0)])
    } else {
        None
    }
}

/// Compares two character vectors.
fn chars_eq(a: &Vec<char>, b: &Vec<char>) -> (r: bool)
    ensures
        r == (a@ == b@),
{
    if a.len() != b.len() {
        return false;
    }
    let mut i: usize = 0;
    while i < a.len()
        invariant
            i <= a@.len(),
            a@.len() == b@.len(),
            forall|j: int| 0 <= j < i ==> a@[j] == b@[j],
        decreases a@.len() - i,
    {
        if a[i] != b[i] {
            return false;
        }
        i += 1;
    }
    proof {
        assert(a@ =~= b@);
    }
    true
}

/// Removes a trailing check or mate mark.
fn strip_mark_exec(s: &mut Vec<char>)
    ensures
        final(s)@ == strip_mark(old(s)@),
{
    let n = s.len();
    if n > 0 {
        let last = s[n - 1];
        if last == '+' || last == '#' {
            let _ = s.pop();
            proof {
                assert(s@ =~= old(s)@.drop_last());
            }
        }
    }
}


/// A concretely tagged legal move resolves to itself.
proof fn lemma_resolve_self(p: Position, lm: Move, k: int)
    requires
        0 <= k < legal_spec(p).len(),
        legal_spec(p)[k] == lm,
        lm.2 != Some(SpecialMoveType::Unclear),
    ensures
        resolve_move(p, lm) matches Some(r) && r == lm,
    decreases k,
{
    lemma_first_match_finds(legal_spec(p), lm, 0, k);
}

/// A move list containing a concretely tagged move `lm` has a first match
/// for `lm`, and that match equals `lm`.
proof fn lemma_first_match_finds(ls: Seq<Move>, lm: Move, i: int, k: int)
    requires
        0 <= i <= k < ls.len(),
        ls[k] == lm,
        lm.2 != Some(SpecialMoveType::Unclear),
    ensures
        0 <= crate::board::first_match(ls, lm, i) < ls.len(),
        ls[crate::board::first_match(ls, lm, i)] == lm,
    decreases k - i,
{
    if crate::board::move_matches(ls[i], lm) {
        assert(ls[i].0 == lm.0 && ls[i].1 == lm.1 && ls[i].2 == lm.2);
        assert(ls[i] == lm);
    } else {
        lemma_first_match_finds(ls, lm, i + 1, k);
    }
}

/// One SAN ply: the game is ongoing, the text decodes against the legal-move
/// set, and the decoded move is applied.
pub open spec fn is_san_step(v: BoardView, s: Seq<char>, w: BoardView) -> bool {
    &&& game_result_spec(v) is None
    &&& (match decode_san(v.position, s) {
        Some(lm) => is_make_step(v, lm, w),
        None => false,
    })
}

/// A sequence of SAN plies applied in order from `v`, reaching `w`.
pub open spec fn is_san_seq(v: BoardView, fs: Seq<Seq<char>>, w: BoardView) -> bool
    decreases fs.len(),
{
    if fs.len() == 0 {
        w == v
    } else {
        exists|mid: BoardView|
            #[trigger] is_san_step(v, fs[0], mid) && is_san_seq(mid, fs.drop_first(), w)
    }
}

proof fn lemma_san_seq_snoc(v: BoardView, fs: Seq<Seq<char>>, mid: BoardView, x: Seq<char>, w: BoardView)
    requires
        is_san_seq(v, fs, mid),
        is_san_step(mid, x, w),
    ensures
        is_san_seq(v, fs.push(x), w),
    decreases fs.len(),
{
    if fs.len() == 0 {
        assert(fs.push(x)[0] == x);
        assert(fs.push(x).drop_first() =~= Seq::<Seq<char>>::empty());
        assert(is_san_seq(w, fs.push(x).drop_first(), w));
        assert(is_san_step(v, fs.push(x)[0], w) && is_san_seq(w, fs.push(x).drop_first(), w));
    } else {
        let m1 = choose|m1: BoardView|
            #[trigger] is_san_step(v, fs[0], m1) && is_san_seq(m1, fs.drop_first(), mid);
        lemma_san_seq_snoc(m1, fs.drop_first(), mid, x, w);
        assert(fs.push(x)[0] == fs[0]);
        assert(fs.push(x).drop_first() =~= fs.drop_first().push(x));
        assert(is_san_step(v, fs.push(x)[0], m1) && is_san_seq(m1, fs.push(x).drop_first(), w));
    }
}

/// Applying one resolved legal move to a board state determines the next
/// state completely.
proof fn lemma_make_step_deterministic(v: BoardView, lm: Move, w1: BoardView, w2: BoardView)
    requires
        is_make_step(v, lm, w1),
        is_make_step(v, lm, w2),
    ensures
        w1 == w2,
{
    assert(w1.position.content =~= w2.position.content);
    assert(w1.position.castling_rights =~= w2.position.castling_rights);
    assert(w1.position == w2.position);
    let e1 = w1.history.last();
    let e2 = w2.history.last();
    assert(e1.prior_castling_rights =~= e2.prior_castling_rights);
    assert(e1 == e2);
    assert(w1.history.len() == w2.history.len());
    assert forall|i: int| 0 <= i < w1.history.len() implies w1.history[i] == w2.history[i] by {
        if i < w1.history.len() - 1 {
            assert(w1.history[i] == w1.history.drop_last()[i]);
            assert(w2.history[i] == w2.history.drop_last()[i]);
        }
    }
    assert(w1.history =~= w2.history);
    assert(w1.position_history =~= w2.position_history);
}

/// One SAN ply from a given state determines the next state completely: the
/// decoded move is unique and applying it is deterministic.
proof fn lemma_san_step_deterministic(v: BoardView, s: Seq<char>, w1: BoardView, w2: BoardView)
    requires
        is_san_step(v, s, w1),
        is_san_step(v, s, w2),
    ensures
        w1 == w2,
{
    match decode_san(v.position, s) {
        Some(lm) => {
            lemma_make_step_deterministic(v, lm, w1, w2);
        },
        None => {},
    }
}

impl Board {
    /// Encodes a move to SAN against the current legal-move set, resolving
    /// an `Unclear` tag first; fails if the move is not legal.
    pub fn move_to_san(&self, m: Move) -> (r: Result<String, MakeMoveError>)
        ensures
            resolve_move(self@.position, m) is None ==> r == Err::<String, _>(
                MakeMoveError::IllegalMove,
            ),
            resolve_move(self@.position, m) matches Some(lm) ==> (r matches Ok(s) && s@
                == san_chars(self@.position, lm)),
    {
        let p = self.position();
        let ls = p.gen_non_illegal_moves();
        let mut k: usize = 0;
        let mut sel: Option<usize> = None;
        while k < ls.len()
            invariant
                k <= ls@.len(),
                ls@ == legal_spec(p),
                moves_ok(ls@),
                (sel is None ==> crate::board::first_match(ls@, m, k as int)
                    == crate::board::first_match(ls@, m, 0)),
                (sel matches Some(i) ==> 0 <= i < ls@.len() && crate::board::first_match(
                    ls@,
                    m,
                    0,
                ) == i),
            decreases ls@.len() - k,
        {
            if sel.is_none() && crate::board::move_matches_exec(&ls[k], &m) {
                sel = Some(k);
                proof {
                    assert(crate::board::first_match(ls@, m, k as int) == k);
                }
            }
            k += 1;
        }
        let lm = match sel {
            Some(i) => ls[i],
            None => {
                proof {
                    assert(crate::board::first_match(ls@, m, 0) == -1);
                }
                return Err(MakeMoveError::IllegalMove);
            },
        };
        let out = san_exec(&p, &ls, lm);
        Ok(helpers::chars_to_string(&out))
    }

    /// Applies the move denoted by a SAN string: the unique legal move whose
    /// SAN encoding matches it (ignoring any check or mate mark). Fails if
    /// no or more than one legal move matches, or the game has concluded.
    pub fn make_move_san(&mut self, san: &str) -> (r: Result<(), MakeMoveError>)
        requires
            board_inv(old(self)@),
        ensures
            board_inv(final(self)@),
            count_san_from(
                old(self)@.position,
                legal_spec(old(self)@.position),
                san@,
                0,
            ) == 0 ==> r == Err::<(), _>(MakeMoveError::IllegalMove) && final(self)@ == old(self)@,
            count_san_from(
                old(self)@.position,
                legal_spec(old(self)@.position),
                san@,
                0,
            ) >= 2 ==> r == Err::<(), _>(MakeMoveError::AmbiguousSan) && final(self)@ == old(
                self,
            )@,
            decode_san(old(self)@.position, san@) matches Some(lm) ==> {
                &&& (game_result_spec(old(self)@) is Some ==> r == Err::<(), _>(
                    MakeMoveError::GameOver,
                ) && final(self)@ == old(self)@)
                &&& (game_result_spec(old(self)@) is None ==> r == Ok::<_, MakeMoveError>(())
                    && is_make_step(old(self)@, lm, final(self)@))
            },
    {
        let cs = helpers::str_to_chars(san);
        let p = self.position();
        let ls = p.gen_non_illegal_moves();
        let mut k: usize = 0;
        let mut count: usize = 0;
        let mut first: Option<usize> = None;
        while k < ls.len()
            invariant
                k <= ls@.len(),
                ls@ == legal_spec(p),
                moves_ok(ls@),
                cs@ == san@,
                count <= k,
                count + count_san_from(p, ls@, san@, k as int) == count_san_from(p, ls@, san@, 0),
                (first is None ==> count == 0 && first_san_from(p, ls@, san@, k as int)
                    == first_san_from(p, ls@, san@, 0)),
                (first matches Some(i) ==> 0 <= i < ls@.len() && count >= 1 && first_san_from(
                    p,
                    ls@,
                    san@,
                    0,
                ) == i),
            decreases ls@.len() - k,
        {
            let lmk = ls[k];
            let mut enc = san_exec(&p, &ls, lmk);
            strip_mark_exec(&mut enc);
            let mut inp = helpers::str_to_chars(san);
            strip_mark_exec(&mut inp);
            if chars_eq(&enc, &inp) {
                proof {
                    assert(san_matches(p, ls@[k as int], san@));
                }
                if first.is_none() {
                    first = Some(k);
                    proof {
                        assert(first_san_from(p, ls@, san@, k as int) == k);
                    }
                }
                count += 1;
            }
            k += 1;
        }
        if count == 0 {
            return Err(MakeMoveError::IllegalMove);
        }
        if count > 1 {
            return Err(MakeMoveError::AmbiguousSan);
        }
        let lm = match first {
            Some(i) => ls[i],
            None => {
                return Err(MakeMoveError::IllegalMove);
            },
        };
        proof {
            assert(decode_san(self@.position, san@) == Some(lm));
            assert(lm.2 != Some(SpecialMoveType::Unclear));
            lemma_resolve_self(p, lm, first_san_from(p, ls@, san@, 0));
        }
        let res = self.make_move(lm);
        proof {
            match res {
                Ok(_) => {},
                Err(_) => {},
            }
        }
        res
    }

    /// Applies a whitespace-separated sequence of SAN moves in order. It
    /// succeeds exactly when every field decodes and applies; on failure the
    /// board is left at the state after the longest applicable prefix.
    pub fn make_moves_san(&mut self, moves: &str) -> (r: Result<(), MakeMoveError>)
        requires
            board_inv(old(self)@),
        ensures
            board_inv(final(self)@),
            r is Ok ==> is_san_seq(old(self)@, split_sp(moves@, ' '), final(self)@),
            r is Err ==> !(exists|w: BoardView|
                is_san_seq(old(self)@, split_sp(moves@, ' '), w)),
            r is Err ==> (exists|k: int|
                {
                    &&& 0 <= k < split_sp(moves@, ' ').len()
                    &&& is_san_seq(
                        old(self)@,
                        #[trigger] split_sp(moves@, ' ').subrange(0, k),
                        final(self)@,
                    )
                    &&& forall|mid: BoardView|
                        !is_san_step(final(self)@, split_sp(moves@, ' ')[k], mid)
                }),
    {
        let cs = helpers::str_to_chars(moves);
        let fields = crate::fen::split_chars(&cs, ' ');
        let ghost fsv = crate::fen::views(fields@);
        proof {
            assert(fsv.subrange(0, fsv.len() as int) =~= fsv);
        }
        let mut i: usize = 0;
        while i < fields.len()
            invariant
                i <= fields@.len(),
                fsv == crate::fen::views(fields@),
                fsv == split_sp(moves@, ' '),
                board_inv(self@),
                is_san_seq(old(self)@, fsv.subrange(0, i as int), self@),
                forall|w: BoardView|
                    #[trigger] is_san_seq(old(self)@, fsv, w) ==> is_san_seq(
                        self@,
                        fsv.subrange(i as int, fsv.len() as int),
                        w,
                    ),
            decreases fields@.len() - i,
        {
            let ghost pre = self@;
            let field = helpers::chars_to_string(&fields[i]);
            let res = self.make_move_san(field.as_str());
            proof {
                assert(crate::fen::views(fields@)[i as int] == fields@[i as int]@);
            }
            if let Err(e) = res {
                proof {
                    assert(self@ == pre);
                    assert forall|mid: BoardView| !is_san_step(pre, fsv[i as int], mid) by {
                        match decode_san(pre.position, fsv[i as int]) {
                            Some(lm) => {
                                assert(game_result_spec(pre) is Some);
                            },
                            None => {},
                        }
                    }
                    assert(!(exists|w: BoardView| is_san_seq(old(self)@, fsv, w))) by {
                        if exists|w: BoardView| is_san_seq(old(self)@, fsv, w) {
                            let w = choose|w: BoardView| is_san_seq(old(self)@, fsv, w);
                            assert(is_san_seq(pre, fsv.subrange(i as int, fsv.len() as int), w));
                            let sub = fsv.subrange(i as int, fsv.len() as int);
                            assert(sub.len() > 0);
                            assert(sub[0] == fsv[i as int]);
                            let mid = choose|mid: BoardView|
                                #[trigger] is_san_step(pre, sub[0], mid) && is_san_seq(
                                    mid,
                                    sub.drop_first(),
                                    w,
                                );
                            assert(false);
                        }
                    }
                    assert(0 <= i < fsv.len() && is_san_seq(
                        old(self)@,
                        fsv.subrange(0, i as int),
                        self@,
                    ) && (forall|mid: BoardView| !is_san_step(self@, fsv[i as int], mid)));
                }
                return Err(e);
            }
            proof {
                assert(is_san_step(pre, fsv[i as int], self@));
                lemma_san_seq_snoc(old(self)@, fsv.subrange(0, i as int), pre, fsv[i as int], self@);
                assert(fsv.subrange(0, i + 1) =~= fsv.subrange(0, i as int).push(fsv[i as int]));
                assert forall|w: BoardView| #[trigger] is_san_seq(old(self)@, fsv, w) implies
                    is_san_seq(self@, fsv.subrange(i + 1, fsv.len() as int), w) by {
                    assert(is_san_seq(pre, fsv.subrange(i as int, fsv.len() as int), w));
                    let sub = fsv.subrange(i as int, fsv.len() as int);
                    assert(sub.len() > 0);
                    assert(sub[0] == fsv[i as int]);
                    let mid = choose|mid: BoardView|
                        #[trigger] is_san_step(pre, sub[0], mid) && is_san_seq(
                            mid,
                            sub.drop_first(),
                            w,
                        );
                    lemma_san_step_deterministic(pre, fsv[i as int], mid, self@);
                    assert(sub.drop_first() =~= fsv.subrange(i + 1, fsv.len() as int));
                }
            }
            i += 1;
        }
        proof {
            assert(fsv.subrange(0, fields@.len() as int) =~= fsv);
        }
        Ok(())
    }
}


/// One item of the movetext/// One item of the movetext: the move number and a dot before White's move
/// (an ellipsis when the game starts with Black to move), the SAN text of
/// the recorded move, and a separating space except after the last move.
pub open spec fn move_item(v: BoardView, i: int) -> Seq<char> {
    let p = v.position_history[i];
    let e = v.history[i];
    (if p.side {
        dec_chars(e.prior_fullmove_number as int) + seq!['.', ' ']
    } else if i == 0 {
        dec_chars(e.prior_fullmove_number as int) + seq!['.', '.', '.', ' ']
    } else {
        Seq::empty()
    }) + san_chars(p, e.move_) + (if i + 1 == v.history.len() {
        Seq::empty()
    } else {
        seq![' ']
    })
}

/// The numbered SAN transcript of the first `n` recorded moves.
pub open spec fn movetext_upto(v: BoardView, n: int) -> Seq<char>
    decreases n,
{
    if n <= 0 {
        Seq::empty()
    } else {
        movetext_upto(v, n - 1) + move_item(v, n - 1)
    }
}

impl Board {
    /// Replays the history to produce the numbered SAN transcript of the
    /// whole game.
    pub fn gen_movetext(&self) -> (r: String)
        requires
            board_inv(self@),
        ensures
            r@ == movetext_upto(self@, self@.history.len() as int),
    {
        let mut out: Vec<char> = Vec::new();
        let hist = self.history_len();
        let mut i: usize = 0;
        while i < hist
            invariant
                i <= hist,
                hist == self@.history.len(),
                board_inv(self@),
                out@ == movetext_upto(self@, i as int),
            decreases hist - i,
        {
            let p = self.position_at(i);
            let e = self.history_at(i);
            if p.side {
                push_dec(e.prior_fullmove_number, &mut out);
                out.push('.');
                out.push(' ');
            } else if i == 0 {
                push_dec(e.prior_fullmove_number, &mut out);
                out.push('.');
                out.push('.');
                out.push('.');
                out.push(' ');
            }
            let ls = p.gen_non_illegal_moves();
            let mut sv = san_exec(&p, &ls, e.move_);
            out.append(&mut sv);
            if i + 1 != hist {
                out.push(' ');
            }
            proof {
                assert(out@ =~= movetext_upto(self@, i + 1));
            }
            i += 1;
        }
        helpers::chars_to_string(&out)
    }

    /// Returns the number of recorded moves.
    pub fn history_len(&self) -> (r: usize)
        ensures
            r == self@.history.len(),
    {
        self.history_len_impl()
    }
}


proof fn lemma_count_san_mono(p: Position, ls: Seq<Move>, input: Seq<char>, i: int, j: int)
    requires
        0 <= i <= j <= ls.len(),
    ensures
        count_san_from(p, ls, input, i) >= count_san_from(p, ls, input, j),
    decreases j - i,
{
    if i < j {
        lemma_count_san_mono(p, ls, input, i + 1, j);
    }
}

proof fn lemma_count_san_two(p: Position, ls: Seq<Move>, input: Seq<char>, a: int, b: int)
    requires
        0 <= a < b < ls.len(),
        san_matches(p, ls[a], input),
        san_matches(p, ls[b], input),
    ensures
        count_san_from(p, ls, input, 0) >= 2,
{
    lemma_count_san_mono(p, ls, input, 0, a);
    lemma_count_san_mono(p, ls, input, a + 1, b);
    assert(count_san_from(p, ls, input, a) == count_san_from(p, ls, input, a + 1) + 1);
    assert(count_san_from(p, ls, input, b) == count_san_from(p, ls, input, b + 1) + 1);
}

proof fn lemma_first_san_found(p: Position, ls: Seq<Move>, input: Seq<char>, i: int, k: int)
    requires
        0 <= i <= k < ls.len(),
        san_matches(p, ls[k], input),
    ensures
        i <= first_san_from(p, ls, input, i) <= k,
        san_matches(p, ls[first_san_from(p, ls, input, i)], input),
    decreases k - i,
{
    if !san_matches(p, ls[i], input) {
        lemma_first_san_found(p, ls, input, i + 1, k);
    }
}

/// Soundness of SAN decoding against the legal-move set: whenever decoding
/// the SAN text of a legal move succeeds, it returns exactly that move. (It
/// fails only when another legal move happens to share the same rendering.)
pub proof fn lemma_san_decode_sound(p: Position, k: int)
    requires
        0 <= k < legal_spec(p).len(),
    ensures
        decode_san(p, san_chars(p, legal_spec(p)[k])) matches Some(l) ==> l == legal_spec(p)[k],
{
    let ls = legal_spec(p);
    let m = ls[k];
    let input = san_chars(p, m);
    assert(san_matches(p, ls[k], input));
    if count_san_from(p, ls, input, 0) == 1 {
        lemma_first_san_found(p, ls, input, 0, k);
        let f = first_san_from(p, ls, input, 0);
        if f < k {
            lemma_count_san_two(p, ls, input, f, k);
            assert(false);
        }
    }
}

} // verus!
