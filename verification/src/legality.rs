//! Move application to board content, check detection, and the legality
//! filter that removes pseudolegal moves leaving the mover's own king
//! capturable.
use vstd::prelude::*;
use crate::piece::{Occupant, Piece, PieceType};
use crate::position::{first_occ_from, king_of, pawn_of, rook_of, side_color, Position};
use crate::move_::{Move, SpecialMoveType};
use crate::movegen::{lemma_moves_ok_filter, lemma_moves_upto_ok, moves_ok, moves_upto};
use crate::Color;

verus! {

/// Whether the piece moved by `m` is white.
pub open spec fn mover_is_white(c: Seq<Occupant>, m: Move) -> bool {
    c[m.0 as int] matches Occupant::Piece(p) && p.1 == Color::White
}

/// The board content after a castling move: the king goes to `m.1`, the rook
/// recorded in the mover's castling-rights slot goes to the square the king
/// passes over.
pub open spec fn castle_change(
    c: Seq<Occupant>,
    m: Move,
    rights: Seq<Option<usize>>,
    kingside: bool,
    white: bool,
) -> Seq<Occupant> {
    let src = m.0 as int;
    let dest = m.1 as int;
    let moving = c[src];
    let slot = (if white {
        0int
    } else {
        2int
    }) + (if kingside {
        0int
    } else {
        1int
    });
    let rook_origin: int = match rights[slot] {
        Option::Some(r) => r as int,
        Option::None => src,
    };
    let rook_dest: int = if kingside {
        dest - 1
    } else {
        dest + 1
    };
    let s1 = c.update(src, Occupant::Empty);
    let s2 = if 0 <= rook_origin < 64 {
        s1.update(rook_origin, Occupant::Empty)
    } else {
        s1
    };
    let s3 = s2.update(dest, moving);
    if 0 <= rook_dest < 64 {
        s3.update(rook_dest, rook_of(white))
    } else {
        s3
    }
}

/// The board content after applying `m`: the moved (or promoted) piece stands
/// on the destination, the source is empty, an en-passant capture also
/// empties the passed pawn's square, and castling relocates the rook.
pub open spec fn change_content_spec(
    c: Seq<Occupant>,
    m: Move,
    rights: Seq<Option<usize>>,
) -> Seq<Occupant> {
    if !(m.0 < 64 && m.1 < 64 && c.len() == 64) {
        c
    } else {
        let src = m.0 as int;
        let dest = m.1 as int;
        let moving = c[src];
        let white = mover_is_white(c, m);
        match m.2 {
            Some(SpecialMoveType::Promotion(pt)) => c.update(src, Occupant::Empty).update(
                dest,
                Occupant::Piece(Piece(pt, side_color(white))),
            ),
            Some(SpecialMoveType::EnPassant) => {
                let base = c.update(src, Occupant::Empty).update(dest, moving);
                let cap = if white {
                    dest - 8
                } else {
                    dest + 8
                };
                if 0 <= cap < 64 {
                    base.update(cap, Occupant::Empty)
                } else {
                    base
                }
            },
            Some(SpecialMoveType::CastlingKingside) => castle_change(c, m, rights, true, white),
            Some(SpecialMoveType::CastlingQueenside) => castle_change(c, m, rights, false, white),
            _ => c.update(src, Occupant::Empty).update(dest, moving),
        }
    }
}

/// Applies `m` to the board content, handling capture removal, en-passant
/// pawn removal, rook relocation on castling, and promotion substitution.
pub(crate) fn change_content(
    content: &[Occupant; 64],
    m: &Move,
    rights: &[Option<usize>; 4],
) -> (r: [Occupant; 64])
    ensures
        r@ == change_content_spec(content@, *m, rights@),
{
    let mut c: [Occupant; 64] = *content;
    let Move(src, dest, special) = *m;
    if !(src < 64 && dest < 64) {
        return c;
    }
    let moving = c[src];
    let white = match moving {
        Occupant::Piece(p) => p.color().is_white(),
        Occupant::Empty => false,
    };
    match special {
        Some(SpecialMoveType::Promotion(pt)) => {
            c[src] = Occupant::Empty;
            c[dest] = Occupant::Piece(Piece(pt, Color::from_bool(white)));
        },
        Some(SpecialMoveType::EnPassant) => {
            c[src] = Occupant::Empty;
            c[dest] = moving;
            if white {
                if dest >= 8 {
                    c[dest - 8] = Occupant::Empty;
                }
            } else {
                if dest + 8 < 64 {
                    c[dest + 8] = Occupant::Empty;
                }
            }
        },
        Some(SpecialMoveType::CastlingKingside) => {
            let slot: usize = if white {
                0
            } else {
                2
            };
            let rook_origin: usize = match rights[slot] {
                Some(r) => r,
                None => src,
            };
            c[src] = Occupant::Empty;
            if rook_origin < 64 {
                c[rook_origin] = Occupant::Empty;
            }
            c[dest] = moving;
            if dest >= 1 {
                c[dest - 1] = Occupant::Piece(Piece(PieceType::R, Color::from_bool(white)));
            }
        },
        Some(SpecialMoveType::CastlingQueenside) => {
            let slot: usize = if white {
                1
            } else {
                3
            };
            let rook_origin: usize = match rights[slot] {
                Some(r) => r,
                None => src,
            };
            c[src] = Occupant::Empty;
            if rook_origin < 64 {
                c[rook_origin] = Occupant::Empty;
            }
            c[dest] = moving;
            if dest + 1 < 64 {
                c[dest + 1] = Occupant::Piece(Piece(PieceType::R, Color::from_bool(white)));
            }
        },
        _ => {
            c[src] = Occupant::Empty;
            c[dest] = moving;
        },
    }
    proof {
        assert(c@ =~= change_content_spec(content@, *m, rights@));
    }
    c
}

/// The empty castling-rights record used when generating attack moves.
pub open spec fn no_rights() -> Seq<Option<usize>> {
    seq![Option::None, Option::None, Option::None, Option::None]
}

/// The attacking moves of `side` on content `c`: its pseudolegal moves with
/// castling rights and en-passant target ignored.
pub open spec fn attack_moves(c: Seq<Occupant>, side: bool) -> Seq<Move> {
    moves_upto(c, side, no_rights(), None, 64)
}

/// Whether some move of `pl` has `t` as its destination square.
pub open spec fn some_move_targets(pl: Seq<Move>, t: int) -> bool {
    exists|k: int| #![trigger pl[k]] 0 <= k < pl.len() && pl[k].1 == t
}

/// Whether `side` has a pseudolegal move capturing the enemy king: the check
/// test. False when no enemy king is on the board.
pub open spec fn king_capture_spec(c: Seq<Occupant>, side: bool) -> bool {
    some_move_targets(attack_moves(c, side), first_occ_from(c, 0, king_of(!side)))
}

/// Whether `m` carries a castling tag.
pub open spec fn is_castling_move(m: Move) -> bool {
    m.2 == Some(SpecialMoveType::CastlingKingside) || m.2 == Some(
        SpecialMoveType::CastlingQueenside,
    )
}

/// Keeps every move that is not a castling move.
pub open spec fn non_castling_pred() -> spec_fn(Move) -> bool {
    |m: Move| !is_castling_move(m)
}

/// The pseudolegal moves over the position's components: the raw per-piece
/// movement rules, with the castling moves dropped while the side to move
/// has an own-king capture to fear, that is, while its king is currently
/// pseudolegally capturable.
pub open spec fn pseudolegal_c(
    c: Seq<Occupant>,
    side: bool,
    rights: Seq<Option<usize>>,
    ep: Option<usize>,
) -> Seq<Move> {
    let base = moves_upto(c, side, rights, ep, 64);
    if king_capture_spec(c, !side) {
        base.filter(non_castling_pred())
    } else {
        base
    }
}

/// The pseudolegal moves of a position: for every square holding a piece of
/// the side to move, the moves that obey that piece's movement rules and the
/// board occupancy, ignoring whether the mover's own king is left capturable
/// afterward; castling additionally requires not being in check already.
pub open spec fn pseudolegal_spec(p: Position) -> Seq<Move> {
    pseudolegal_c(p.content@, p.side, p.castling_rights@, p.ep_target)
}

/// Every pseudolegal move stays on the board and carries a concrete tag.
pub proof fn lemma_pseudolegal_ok(
    c: Seq<Occupant>,
    side: bool,
    rights: Seq<Option<usize>>,
    ep: Option<usize>,
)
    ensures
        moves_ok(pseudolegal_c(c, side, rights, ep)),
{
    lemma_moves_upto_ok(c, side, rights, ep, 64);
    if king_capture_spec(c, !side) {
        lemma_moves_ok_filter(moves_upto(c, side, rights, ep, 64), non_castling_pred());
    }
}

/// Finds the first square holding exactly `x`.
pub(crate) fn find_occ(content: &[Occupant; 64], x: Occupant) -> (r: Option<usize>)
    ensures
        r matches Some(f) ==> f == first_occ_from(content@, 0, x) && f < 64,
        r is None ==> first_occ_from(content@, 0, x) == -1,
{
    let mut k: usize = 0;
    while k < 64
        invariant
            k <= 64,
            first_occ_from(content@, k as int, x) == first_occ_from(content@, 0, x),
        decreases 64 - k,
    {
        if content[k] == x {
            return Some(k);
        }
        k += 1;
    }
    None
}

/// Decides whether `side` has a pseudolegal move capturing the enemy king.
pub(crate) fn king_capture_pseudolegal(content: &[Occupant; 64], side: bool) -> (r: bool)
    ensures
        r == king_capture_spec(content@, side),
{
    let target = Occupant::Piece(Piece(PieceType::K, Color::from_bool(!side)));
    proof {
        assert(target == king_of(!side));
    }
    let ks = match find_occ(content, target) {
        Some(k) => k,
        None => {
            proof {
                let atk = attack_moves(content@, side);
                assert forall|k: int| 0 <= k < atk.len() implies (#[trigger] atk[k]).1 != -1 by {}
                assert(!some_move_targets(atk, -1));
            }
            return false;
        },
    };
    let empty_rights: [Option<usize>; 4] = [None, None, None, None];
    proof {
        assert(empty_rights@ =~= no_rights());
    }
    let pl = crate::movegen::gen_moves_raw(content, side, &empty_rights, None);
    let mut k: usize = 0;
    while k < pl.len()
        invariant
            k <= pl@.len(),
            pl@ == attack_moves(content@, side),
            ks == first_occ_from(content@, 0, king_of(!side)),
            forall|j: int| #![trigger pl@[j]] 0 <= j < k ==> pl@[j].1 != ks,
        decreases pl@.len() - k,
    {
        if pl[k].1 == ks {
            proof {
                assert(pl@[k as int].1 == ks);
                assert(some_move_targets(pl@, ks as int));
            }
            return true;
        }
        k += 1;
    }
    proof {
        assert forall|j: int| 0 <= j < pl@.len() implies (#[trigger] pl@[j]).1 != ks by {}
        assert(!some_move_targets(pl@, ks as int));
    }
    false
}

/// Whether `side` could (ignoring pins) capture on `sq` on content `c` with
/// the given castling rights and en-passant target: a notional enemy pawn is
/// placed there, and the question is whether any pseudolegal move of `side`
/// then targets `sq`.
pub open spec fn controls_c(
    c: Seq<Occupant>,
    rights: Seq<Option<usize>>,
    ep: Option<usize>,
    sq: usize,
    side: bool,
) -> bool {
    let c2 = c.update(sq as int, pawn_of(!side));
    some_move_targets(pseudolegal_c(c2, side, rights, ep), sq as int)
}

/// Whether `side` could (ignoring pins) capture on `sq` in `p`.
pub open spec fn controls_spec(p: Position, sq: usize, side: bool) -> bool {
    controls_c(p.content@, p.castling_rights@, p.ep_target, sq, side)
}

/// The smaller of two square indices.
pub open spec fn min_sq(a: usize, b: usize) -> usize {
    if a <= b {
        a
    } else {
        b
    }
}

/// The larger of two square indices.
pub open spec fn max_sq(a: usize, b: usize) -> usize {
    if a <= b {
        b
    } else {
        a
    }
}

/// No square in `[lo, hi]` is controlled by `atk`.
pub open spec fn none_controls_c(
    c: Seq<Occupant>,
    rights: Seq<Option<usize>>,
    ep: Option<usize>,
    atk: bool,
    lo: usize,
    hi: usize,
) -> bool {
    forall|sq: usize| lo <= sq <= hi ==> !(#[trigger] controls_c(c, rights, ep, sq, atk))
}

/// No square in `[lo, hi]` is controlled by `atk` in `p`.
pub open spec fn none_controls(p: Position, atk: bool, lo: usize, hi: usize) -> bool {
    none_controls_c(p.content@, p.castling_rights@, p.ep_target, atk, lo, hi)
}

/// Whether the pseudolegal move `m` passes the legality filter: a castling
/// move must not pass through, out of, or into an attacked square; any other
/// move must not leave the mover's king capturable afterward.
pub open spec fn legal_filter_c(
    c: Seq<Occupant>,
    side: bool,
    rights: Seq<Option<usize>>,
    ep: Option<usize>,
    m: Move,
) -> bool {
    if m.2 == Some(SpecialMoveType::CastlingKingside) || m.2 == Some(
        SpecialMoveType::CastlingQueenside,
    ) {
        none_controls_c(c, rights, ep, !side, min_sq(m.0, m.1), max_sq(m.0, m.1))
    } else {
        !king_capture_spec(change_content_spec(c, m, rights), !side)
    }
}

/// Whether the pseudolegal move `m` passes the legality filter in `p`.
pub open spec fn legal_filter(p: Position, m: Move) -> bool {
    legal_filter_c(p.content@, p.side, p.castling_rights@, p.ep_target, m)
}

/// The legality filter as a predicate over moves.
pub open spec fn legal_pred_c(
    c: Seq<Occupant>,
    side: bool,
    rights: Seq<Option<usize>>,
    ep: Option<usize>,
) -> spec_fn(Move) -> bool {
    |m: Move| legal_filter_c(c, side, rights, ep, m)
}

/// The legality filter as a predicate over moves.
pub open spec fn legal_pred(p: Position) -> spec_fn(Move) -> bool {
    legal_pred_c(p.content@, p.side, p.castling_rights@, p.ep_target)
}

/// The legal moves on content `c` for `side` with the given castling rights
/// and en-passant target: the pseudolegal moves that pass the legality
/// filter, in generation order.
pub open spec fn legal_c(
    c: Seq<Occupant>,
    side: bool,
    rights: Seq<Option<usize>>,
    ep: Option<usize>,
) -> Seq<Move> {
    pseudolegal_c(c, side, rights, ep).filter(legal_pred_c(c, side, rights, ep))
}

/// The legal moves of a position: its pseudolegal moves that pass the
/// legality filter, in generation order.
pub open spec fn legal_spec(p: Position) -> Seq<Move> {
    legal_c(p.content@, p.side, p.castling_rights@, p.ep_target)
}

impl Position {
    /// Checks whether the given side controls a specified square in this position.
    pub fn controls_square(&self, sq: usize, side: bool) -> (r: bool)
        requires
            sq < 64,
        ensures
            r == controls_spec(*self, sq, side),
    {
        let mut c: [Occupant; 64] = self.content;
        c[sq] = Occupant::Piece(Piece(PieceType::P, Color::from_bool(!side)));
        let pos = Position {
            content: c,
            side,
            castling_rights: self.castling_rights,
            ep_target: self.ep_target,
        };
        let pl = pos.gen_pseudolegal_moves();
        let mut k: usize = 0;
        while k < pl.len()
            invariant
                k <= pl@.len(),
                pl@ == pseudolegal_c(
                    self.content@.update(sq as int, pawn_of(!side)),
                    side,
                    self.castling_rights@,
                    self.ep_target,
                ),
                forall|j: int| #![trigger pl@[j]] 0 <= j < k ==> pl@[j].1 != sq,
            decreases pl@.len() - k,
        {
            if pl[k].1 == sq {
                proof {
                    assert(pl@[k as int].1 == sq);
                    assert(some_move_targets(pl@, sq as int));
                }
                return true;
            }
            k += 1;
        }
        proof {
            assert forall|j: int| 0 <= j < pl@.len() implies (#[trigger] pl@[j]).1 != sq by {}
            assert(!some_move_targets(pl@, sq as int));
        }
        false
    }

    /// Generates the legal moves in the position, assuming the game is ongoing.
    pub fn gen_non_illegal_moves(&self) -> (r: Vec<Move>)
        ensures
            r@ == legal_spec(*self),
            moves_ok(r@),
    {
        let pl = self.gen_pseudolegal_moves();
        proof {
            lemma_pseudolegal_ok(self.content@, self.side, self.castling_rights@, self.ep_target);
        }
        let ghost pred = legal_pred(*self);
        let mut out: Vec<Move> = Vec::new();
        let mut k: usize = 0;
        while k < pl.len()
            invariant
                k <= pl@.len(),
                pl@ == pseudolegal_spec(*self),
                moves_ok(pl@),
                pred == legal_pred(*self),
                out@ == pl@.subrange(0, k as int).filter(pred),
                moves_ok(out@),
            decreases pl@.len() - k,
        {
            let m = pl[k];
            let keep: bool;
            if matches!(
                m.2,
                Some(SpecialMoveType::CastlingKingside) | Some(SpecialMoveType::CastlingQueenside),
            ) {
                let lo = if m.0 <= m.1 {
                    m.0
                } else {
                    m.1
                };
                let hi = if m.0 <= m.1 {
                    m.1
                } else {
                    m.0
                };
                let mut ok = true;
                let mut sq = lo;
                let ghost opp = !self.side;
                let ghost cc = self.content@;
                let ghost rr = self.castling_rights@;
                let ghost ee = self.ep_target;
                while sq <= hi
                    invariant
                        lo <= sq <= hi + 1,
                        hi < 64,
                        opp == !self.side,
                        cc == self.content@,
                        rr == self.castling_rights@,
                        ee == self.ep_target,
                        ok == (forall|q: usize|
                            lo <= q < sq ==> !(#[trigger] controls_c(cc, rr, ee, q, opp))),
                    decreases hi + 1 - sq,
                {
                    if self.controls_square(sq, !self.side) {
                        ok = false;
                    }
                    sq += 1;
                }
                keep = ok;
                proof {
                    assert(lo == min_sq(m.0, m.1) && hi == max_sq(m.0, m.1));
                    if ok {
                        assert forall|q: usize| lo <= q <= hi implies !(#[trigger] controls_c(
                            cc,
                            rr,
                            ee,
                            q,
                            opp,
                        )) by {
                            assert(lo <= q < sq);
                        }
                        assert(none_controls_c(cc, rr, ee, opp, lo, hi));
                    } else {
                        assert(exists|q: usize|
                            lo <= q < sq && #[trigger] controls_c(cc, rr, ee, q, opp));
                        let q0 = choose|q: usize|
                            lo <= q < sq && #[trigger] controls_c(cc, rr, ee, q, opp);
                        assert(lo <= q0 <= hi && controls_c(cc, rr, ee, q0, opp));
                        assert(!none_controls_c(cc, rr, ee, opp, lo, hi));
                    }
                    assert(keep == none_controls_c(cc, rr, ee, opp, lo, hi));
                    assert(keep == legal_filter(*self, m));
                }
            } else {
                let nc = change_content(&self.content, &m, &self.castling_rights);
                keep = !king_capture_pseudolegal(&nc, !self.side);
                proof {
                    assert(keep == legal_filter(*self, m));
                }
            }
            if keep {
                out.push(m);
            }
            proof {
                let s1 = pl@.subrange(0, k + 1);
                assert(s1.drop_last() =~= pl@.subrange(0, k as int));
                assert(s1.last() == pl@[k as int]);
                reveal_with_fuel(Seq::filter, 2);
                if pred(s1.last()) {
                    assert(s1.filter(pred) == s1.drop_last().filter(pred).push(s1.last()));
                } else {
                    assert(s1.filter(pred) == s1.drop_last().filter(pred));
                }
                assert(out@ =~= s1.filter(pred));
            }
            k += 1;
        }
        proof {
            assert(pl@.subrange(0, pl@.len() as int) =~= pl@);
        }
        out
    }
}

} // verus!
