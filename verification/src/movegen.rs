//! Pseudolegal move generation: per-piece destination rules over the board
//! content, stated as specification functions and computed by matching
//! executable code.
use vstd::prelude::*;
use crate::piece::{Occupant, Piece, PieceType};
use crate::position::{side_color, Position};
use crate::move_::{Move, SpecialMoveType};

verus! {

/// Whether stepping from square `sq` by the signed offset `axis` moves one
/// square in the intended geometric direction instead of wrapping around a
/// board edge or leaving the board. The recognized axes are &#177;1 (file),
/// &#177;8 (rank), and &#177;7/&#177;9 (diagonals).
pub open spec fn can_step(sq: usize, axis: int) -> bool {
    sq < 64 && (if axis == 1 {
        sq % 8 != 7
    } else if axis == -1 {
        sq % 8 != 0
    } else if axis == 8 {
        sq < 56
    } else if axis == -8 {
        sq >= 8
    } else if axis == 7 {
        sq % 8 != 0 && sq < 56
    } else if axis == -7 {
        sq % 8 != 7 && sq >= 8
    } else if axis == 9 {
        sq % 8 != 7 && sq < 56
    } else if axis == -9 {
        sq % 8 != 0 && sq >= 8
    } else {
        false
    })
}

/// A permitted step stays on the board.
pub proof fn lemma_step_in_range(sq: usize, axis: int)
    requires
        can_step(sq, axis),
    ensures
        0 <= sq + axis < 64,
{
    assert(sq % 8 <= 7 && sq - sq % 8 >= 0 && (sq < 56 ==> sq - sq % 8 <= 48)) by (nonlinear_arith)
        requires
            sq < 64,
    ;
}

/// Decides whether stepping from `sq` by `axis` stays on the board without
/// wrapping around an edge.
pub fn long_range_can_move(sq: usize, axis: i32) -> (r: bool)
    ensures
        r == can_step(sq, axis as int),
{
    if sq >= 64 {
        return false;
    }
    let f = sq % 8;
    match axis {
        1 => f != 7,
        -1 => f != 0,
        8 => sq < 56,
        -8 => sq >= 8,
        7 => f != 0 && sq < 56,
        -7 => f != 7 && sq >= 8,
        9 => f != 7 && sq < 56,
        -9 => f != 0 && sq >= 8,
        _ => false,
    }
}

/// Steps from `sq` by the permitted offset `axis`.
pub(crate) fn step(sq: usize, axis: i32) -> (r: usize)
    requires
        can_step(sq, axis as int),
    ensures
        r == sq + axis,
        r < 64,
{
    proof {
        lemma_step_in_range(sq, axis as int);
    }
    if axis >= 0 {
        sq + (axis as usize)
    } else {
        sq - ((-axis) as usize)
    }
}

/// Whether `o` holds a piece of the given side.
pub open spec fn is_color_piece(o: Occupant, side: bool) -> bool {
    o matches Occupant::Piece(p) && p.1 == side_color(side)
}

/// The squares a long-range piece on `sq` reaches along `axis`: walk outward
/// one square at a time while the edge check permits, stop exclusively before
/// a same-color piece and inclusively on an opposite-color piece.
pub open spec fn slide(c: Seq<Occupant>, side: bool, sq: usize, axis: int) -> Seq<usize>
    decreases
            (if axis > 0 {
                64 - sq
            } else {
                sq as int
            }),
{
    if !can_step(sq, axis) {
        Seq::empty()
    } else {
        let nxt = (sq + axis) as usize;
        match c[nxt as int] {
            Occupant::Piece(p) => if p.1 == side_color(side) {
                Seq::empty()
            } else {
                seq![nxt]
            },
            Occupant::Empty => seq![nxt] + slide(c, side, nxt, axis),
        }
    }
}

/// A singleton destination list when `b` holds, else empty.
pub open spec fn seq_if(b: bool, d: usize) -> Seq<usize> {
    if b {
        seq![d]
    } else {
        Seq::empty()
    }
}

/// The candidate king destinations from `i`: one step along each axis and
/// direction, in the order +1, -1, +8, -8, +7, -7, +9, -9.
pub open spec fn king_candidates(i: usize) -> Seq<usize> {
    seq_if(can_step(i, 1), (i + 1) as usize) + seq_if(can_step(i, -1), (i - 1) as usize) + seq_if(
        can_step(i, 8),
        (i + 8) as usize,
    ) + seq_if(can_step(i, -8), (i - 8) as usize) + seq_if(can_step(i, 7), (i + 7) as usize)
        + seq_if(can_step(i, -7), (i - 7) as usize) + seq_if(can_step(i, 9), (i + 9) as usize)
        + seq_if(can_step(i, -9), (i - 9) as usize)
}

/// The knight leaps reached from `i` through one diagonal step `b_axis`
/// followed by either of the orthogonal steps `r1`, `r2`, each of which must
/// individually stay on the board.
pub open spec fn knight_group(i: usize, b_axis: int, r1: int, r2: int) -> Seq<usize> {
    if can_step(i, b_axis) {
        let bd = (i + b_axis) as usize;
        seq_if(can_step(bd, r1), (bd + r1) as usize) + seq_if(can_step(bd, r2), (bd + r2) as usize)
    } else {
        Seq::empty()
    }
}

/// The candidate knight destinations from `i`: each leap is a diagonal step
/// chained with an orthogonal step, both of which must individually stay on
/// the board.
pub open spec fn knight_candidates(i: usize) -> Seq<usize> {
    knight_group(i, 7, -1, 8) + knight_group(i, 9, 8, 1) + knight_group(i, -7, 1, -8)
        + knight_group(i, -9, -8, -1)
}

/// Whether a destination square may be entered by the moving side: it must
/// not hold a piece of that side.
pub open spec fn keep_pred(c: Seq<Occupant>, side: bool) -> spec_fn(usize) -> bool {
    |d: usize| !is_color_piece(c[d as int], side)
}

/// The destinations of `ds` that do not hold a piece of the moving side.
pub open spec fn keep_dests(c: Seq<Occupant>, side: bool, ds: Seq<usize>) -> Seq<usize> {
    ds.filter(keep_pred(c, side))
}

/// Plain moves from `i` to each destination of `ds`.
pub open spec fn moves_of_dests(i: usize, ds: Seq<usize>) -> Seq<Move> {
    ds.map_values(|d: usize| Move(i, d, None))
}

/// Every entry of `s` is below `n`.
pub open spec fn all_lt(s: Seq<usize>, n: usize) -> bool {
    forall|k: int| 0 <= k < s.len() ==> s[k] < n
}

/// Collects the candidate king destinations from `i`.
fn king_candidates_exec(i: usize) -> (r: Vec<usize>)
    ensures
        r@ == king_candidates(i),
        all_lt(r@, 64),
{
    let mut cs: Vec<usize> = Vec::new();
    if long_range_can_move(i, 1) {
        cs.push(step(i, 1));
    }
    if long_range_can_move(i, -1) {
        cs.push(step(i, -1));
    }
    if long_range_can_move(i, 8) {
        cs.push(step(i, 8));
    }
    if long_range_can_move(i, -8) {
        cs.push(step(i, -8));
    }
    if long_range_can_move(i, 7) {
        cs.push(step(i, 7));
    }
    if long_range_can_move(i, -7) {
        cs.push(step(i, -7));
    }
    if long_range_can_move(i, 9) {
        cs.push(step(i, 9));
    }
    if long_range_can_move(i, -9) {
        cs.push(step(i, -9));
    }
    proof {
        assert(cs@ =~= king_candidates(i));
    }
    cs
}

/// Collects one group of knight leaps from `i`: the diagonal step `b_axis`
/// chained with either orthogonal step `r1` or `r2`.
fn knight_group_exec(i: usize, b_axis: i32, r1: i32, r2: i32) -> (r: Vec<usize>)
    ensures
        r@ == knight_group(i, b_axis as int, r1 as int, r2 as int),
        all_lt(r@, 64),
{
    let mut cs: Vec<usize> = Vec::new();
    if long_range_can_move(i, b_axis) {
        let bd = step(i, b_axis);
        if long_range_can_move(bd, r1) {
            cs.push(step(bd, r1));
        }
        if long_range_can_move(bd, r2) {
            cs.push(step(bd, r2));
        }
    }
    proof {
        assert(cs@ =~= knight_group(i, b_axis as int, r1 as int, r2 as int));
    }
    cs
}

/// Collects the candidate knight destinations from `i`.
fn knight_candidates_exec(i: usize) -> (r: Vec<usize>)
    ensures
        r@ == knight_candidates(i),
        all_lt(r@, 64),
{
    let mut cs: Vec<usize> = knight_group_exec(i, 7, -1, 8);
    let mut g2 = knight_group_exec(i, 9, 8, 1);
    let mut g3 = knight_group_exec(i, -7, 1, -8);
    let mut g4 = knight_group_exec(i, -9, -8, -1);
    cs.append(&mut g2);
    cs.append(&mut g3);
    cs.append(&mut g4);
    proof {
        assert(cs@ =~= knight_candidates(i));
    }
    cs
}

/// Keeps the destinations that do not hold a piece of the moving side.
fn keep_dests_exec(content: &[Occupant; 64], side: bool, cands: &Vec<usize>) -> (r: Vec<usize>)
    requires
        all_lt(cands@, 64),
    ensures
        r@ == keep_dests(content@, side, cands@),
        all_lt(r@, 64),
{
    let mut r: Vec<usize> = Vec::new();
    let mut k: usize = 0;
    let ghost pred = keep_pred(content@, side);
    while k < cands.len()
        invariant
            k <= cands@.len(),
            all_lt(cands@, 64),
            pred == keep_pred(content@, side),
            r@ == cands@.subrange(0, k as int).filter(pred),
            all_lt(r@, 64),
        decreases cands@.len() - k,
    {
        let d = cands[k];
        let keep = match content[d] {
            Occupant::Piece(p) => p.color().as_bool() != side,
            Occupant::Empty => true,
        };
        proof {
            assert(d == cands@[k as int]);
            assert(keep == pred(cands@[k as int]));
        }
        if keep {
            r.push(d);
        }
        proof {
            let s1 = cands@.subrange(0, k + 1);
            assert(s1.drop_last() =~= cands@.subrange(0, k as int));
            assert(s1.last() == cands@[k as int]);
            reveal_with_fuel(Seq::filter, 2);
            if pred(s1.last()) {
                assert(s1.filter(pred) == s1.drop_last().filter(pred).push(s1.last()));
            } else {
                assert(s1.filter(pred) == s1.drop_last().filter(pred));
            }
            assert(r@ =~= s1.filter(pred));
        }
        k += 1;
    }
    proof {
        assert(cands@.subrange(0, cands@.len() as int) =~= cands@);
    }
    r
}

/// Builds plain moves from `i` to each destination of `ds`.
fn moves_of_dests_exec(i: usize, ds: &Vec<usize>) -> (r: Vec<Move>)
    ensures
        r@ == moves_of_dests(i, ds@),
{
    let mut r: Vec<Move> = Vec::new();
    let mut k: usize = 0;
    while k < ds.len()
        invariant
            k <= ds@.len(),
            r@ == moves_of_dests(i, ds@.subrange(0, k as int)),
        decreases ds@.len() - k,
    {
        r.push(Move(i, ds[k], None));
        proof {
            assert(moves_of_dests(i, ds@.subrange(0, k + 1)) =~= moves_of_dests(
                i,
                ds@.subrange(0, k as int),
            ).push(Move(i, ds@[k as int], None)));
        }
        k += 1;
    }
    proof {
        assert(ds@.subrange(0, ds@.len() as int) =~= ds@);
    }
    r
}

/// Walks outward from `sq` along `axis`, collecting reachable squares.
pub(crate) fn slide_exec(content: &[Occupant; 64], side: bool, sq: usize, axis: i32) -> (r: Vec<
    usize,
>)
    ensures
        r@ == slide(content@, side, sq, axis as int),
    decreases
            (if axis > 0 {
                64 - sq
            } else {
                sq as int
            }),
{
    if !long_range_can_move(sq, axis) {
        return Vec::new();
    }
    let nxt = step(sq, axis);
    match content[nxt] {
        Occupant::Piece(p) => {
            let mut r: Vec<usize> = Vec::new();
            if p.color().as_bool() != side {
                r.push(nxt);
            }
            proof {
                assert(r@ =~= slide(content@, side, sq, axis as int));
            }
            r
        },
        Occupant::Empty => {
            let mut r: Vec<usize> = Vec::new();
            r.push(nxt);
            let mut rest = slide_exec(content, side, nxt, axis);
            let ghost rest0 = rest@;
            r.append(&mut rest);
            proof {
                assert(r@ =~= seq![nxt] + rest0);
            }
            r
        },
    }
}


/// How many squares of `c` in `[lo, hi)` hold a piece.
pub open spec fn count_nonempty(c: Seq<Occupant>, lo: int, hi: int) -> nat
    decreases hi - lo,
{
    if lo >= hi || lo < 0 || hi > c.len() {
        0
    } else {
        (if c[lo] matches Occupant::Piece(_) {
            1nat
        } else {
            0nat
        }) + count_nonempty(c, lo + 1, hi)
    }
}

/// The first square of `c` in `[lo, hi)` holding a piece, or -1 if there is none.
pub open spec fn first_nonempty(c: Seq<Occupant>, lo: int, hi: int) -> int
    decreases hi - lo,
{
    if lo >= hi || lo < 0 || hi > c.len() {
        -1
    } else if c[lo] matches Occupant::Piece(_) {
        lo
    } else {
        first_nonempty(c, lo + 1, hi)
    }
}

/// Counts the pieces on the squares `[lo, hi)`.
pub(crate) fn count_pieces(content: &[Occupant; 64], lo: usize, hi: usize) -> (r: usize)
    requires
        hi <= 64,
    ensures
        r == count_nonempty(content@, lo as int, hi as int),
{
    let mut acc: usize = 0;
    let mut k: usize = lo;
    while k < hi
        invariant
            lo <= k <= hi <= 64 || (lo > hi && k == lo),
            acc <= 64,
            acc + count_nonempty(content@, k as int, hi as int) == count_nonempty(
                content@,
                lo as int,
                hi as int,
            ),
            acc <= k - lo,
        decreases hi - k,
    {
        if matches!(content[k], Occupant::Piece(_)) {
            acc += 1;
        }
        k += 1;
    }
    acc
}

/// Finds the first piece on the squares `[lo, hi)`.
pub(crate) fn find_first_piece(content: &[Occupant; 64], lo: usize, hi: usize) -> (r: Option<usize>)
    requires
        hi <= 64,
    ensures
        r matches Some(f) ==> f == first_nonempty(content@, lo as int, hi as int),
        r is None ==> first_nonempty(content@, lo as int, hi as int) == -1,
{
    let mut k: usize = lo;
    while k < hi
        invariant
            lo <= k <= hi <= 64 || (lo > hi && k == lo),
            first_nonempty(content@, k as int, hi as int) == first_nonempty(
                content@,
                lo as int,
                hi as int,
            ),
        decreases hi - k,
    {
        if matches!(content[k], Occupant::Piece(_)) {
            return Some(k);
        }
        k += 1;
    }
    None
}

/// The castling moves available to the king of `side` standing on `i`:
/// kingside and queenside, each requiring the castling-rights slot to be
/// present and every square strictly between the king and the rook to be
/// empty except the rook itself.
pub open spec fn castling_moves(
    c: Seq<Occupant>,
    rights: Seq<Option<usize>>,
    side: bool,
    i: usize,
) -> Seq<Move> {
    let off = if side {
        0int
    } else {
        2int
    };
    let oo_sq: usize = if side {
        6
    } else {
        62
    };
    let ooo_sq: usize = if side {
        2
    } else {
        58
    };
    (match rights[off] {
        Option::Some(r) => {
            let n = count_nonempty(c, i + 1, oo_sq + 1);
            if n == 0 || (n == 1 && first_nonempty(c, i + 1, oo_sq + 1) == r) {
                seq![Move(i, oo_sq, Some(SpecialMoveType::CastlingKingside))]
            } else {
                Seq::empty()
            }
        },
        Option::None => Seq::empty(),
    }) + (match rights[off + 1] {
        Option::Some(r) => {
            let n = count_nonempty(c, ooo_sq as int, i as int);
            if n == 0 || (n == 1 && first_nonempty(c, ooo_sq as int, i as int) == r) {
                seq![Move(i, ooo_sq, Some(SpecialMoveType::CastlingQueenside))]
            } else {
                Seq::empty()
            }
        },
        Option::None => Seq::empty(),
    })
}

/// Collects the castling moves of the king of `side` standing on `i`.
fn castling_moves_exec(
    content: &[Occupant; 64],
    rights: &[Option<usize>; 4],
    side: bool,
    i: usize,
) -> (r: Vec<Move>)
    requires
        i < 64,
    ensures
        r@ == castling_moves(content@, rights@, side, i),
{
    let off: usize = if side {
        0
    } else {
        2
    };
    let oo_sq: usize = if side {
        6
    } else {
        62
    };
    let ooo_sq: usize = if side {
        2
    } else {
        58
    };
    let mut out: Vec<Move> = Vec::new();
    if let Some(r) = rights[off] {
        let n = count_pieces(content, i + 1, oo_sq + 1);
        if n == 0 {
            out.push(Move(i, oo_sq, Some(SpecialMoveType::CastlingKingside)));
        } else if n == 1 {
            if let Some(f) = find_first_piece(content, i + 1, oo_sq + 1) {
                if f == r {
                    out.push(Move(i, oo_sq, Some(SpecialMoveType::CastlingKingside)));
                }
            }
        }
    }
    let ghost oo_part = out@;
    if let Some(r) = rights[off + 1] {
        let n = count_pieces(content, ooo_sq, i);
        if n == 0 {
            out.push(Move(i, ooo_sq, Some(SpecialMoveType::CastlingQueenside)));
        } else if n == 1 {
            if let Some(f) = find_first_piece(content, ooo_sq, i) {
                if f == r {
                    out.push(Move(i, ooo_sq, Some(SpecialMoveType::CastlingQueenside)));
                }
            }
        }
    }
    proof {
        assert(out@ =~= castling_moves(content@, rights@, side, i));
    }
    out
}

/// A singleton list of one flagged pawn destination.
pub open spec fn one_dest(d: usize, ep: bool) -> Seq<(usize, bool)> {
    Seq::<(usize, bool)>::empty().push((d, ep))
}

/// A pawn capture destination `d`: occupied by an opposite-color piece, or
/// empty but matching the en-passant target (flagged as en passant).
pub open spec fn pawn_cap(c: Seq<Occupant>, side: bool, ep: Option<usize>, d: usize) -> Seq<
    (usize, bool),
> {
    match c[d as int] {
        Occupant::Piece(p) => if p.1 == side_color(!side) {
            one_dest(d, false)
        } else {
            Seq::empty()
        },
        Occupant::Empty => if ep == Some(d) {
            one_dest(d, true)
        } else {
            Seq::empty()
        },
    }
}

/// The destinations of a pawn of `side` on `i`, each flagged as an
/// en-passant capture or not: one square forward if empty (two from the
/// starting rank if both are empty), plus the diagonal captures.
pub open spec fn pawn_dests(c: Seq<Occupant>, side: bool, ep: Option<usize>, i: usize) -> Seq<
    (usize, bool),
> {
    if side {
        (if i + 8 < 64 && (c[i + 8] matches Occupant::Empty) {
            one_dest((i + 8) as usize, false) + (if 8 <= i && i < 16 && (c[i + 16] matches Occupant::Empty) {
                one_dest((i + 16) as usize, false)
            } else {
                Seq::empty()
            })
        } else {
            Seq::empty()
        }) + (if can_step(i, 7) {
            pawn_cap(c, side, ep, (i + 7) as usize)
        } else {
            Seq::empty()
        }) + (if can_step(i, 9) {
            pawn_cap(c, side, ep, (i + 9) as usize)
        } else {
            Seq::empty()
        })
    } else {
        (if i >= 8 && (c[i - 8] matches Occupant::Empty) {
            one_dest((i - 8) as usize, false) + (if 48 <= i && i < 56 && (c[i - 16] matches Occupant::Empty) {
                one_dest((i - 16) as usize, false)
            } else {
                Seq::empty()
            })
        } else {
            Seq::empty()
        }) + (if can_step(i, -9) {
            pawn_cap(c, side, ep, (i - 9) as usize)
        } else {
            Seq::empty()
        }) + (if can_step(i, -7) {
            pawn_cap(c, side, ep, (i - 7) as usize)
        } else {
            Seq::empty()
        })
    }
}

/// The four promotion moves for a pawn move from `i` to the last-rank square `d`.
pub open spec fn promo_expand(i: usize, d: usize) -> Seq<Move> {
    seq![
        Move(i, d, Some(SpecialMoveType::Promotion(PieceType::Q))),
        Move(i, d, Some(SpecialMoveType::Promotion(PieceType::R))),
        Move(i, d, Some(SpecialMoveType::Promotion(PieceType::B))),
        Move(i, d, Some(SpecialMoveType::Promotion(PieceType::N))),
    ]
}

/// The pawn moves from `i` for the flagged destinations `ds`: a destination
/// on the last rank expands into the four promotions, any other becomes a
/// plain or en-passant move.
pub open spec fn pawn_moves(i: usize, ds: Seq<(usize, bool)>) -> Seq<Move>
    decreases ds.len(),
{
    if ds.len() == 0 {
        Seq::empty()
    } else {
        pawn_moves(i, ds.drop_last()) + {
            let (d, ep) = ds.last();
            if d < 8 || d >= 56 {
                promo_expand(i, d)
            } else {
                seq![
                    Move(i, d, if ep {
                        Some(SpecialMoveType::EnPassant)
                    } else {
                        None
                    }),
                ]
            }
        }
    }
}

/// Tests whether `d` holds a piece of the color opposite to `side`, or else
/// matches the en-passant target, flagging the latter.
fn pawn_cap_exec(
    content: &[Occupant; 64],
    side: bool,
    ep_target: Option<usize>,
    d: usize,
    dests: &mut Vec<(usize, bool)>,
)
    requires
        d < 64,
    ensures
        final(dests)@ == old(dests)@ + pawn_cap(content@, side, ep_target, d),
{
    match content[d] {
        Occupant::Piece(p) => {
            if p.color().as_bool() != side {
                dests.push((d, false));
            }
        },
        Occupant::Empty => {
            let hit = match ep_target {
                Some(t) => t == d,
                None => false,
            };
            if hit {
                dests.push((d, true));
            }
        },
    }
    proof {
        assert(dests@ =~= old(dests)@ + pawn_cap(content@, side, ep_target, d));
    }
}

/// Collects the pawn moves of a pawn of `side` on `i`.
#[verifier::rlimit(50)]
fn pawn_moves_exec(
    content: &[Occupant; 64],
    side: bool,
    ep_target: Option<usize>,
    i: usize,
) -> (r: Vec<Move>)
    requires
        i < 64,
    ensures
        r@ == pawn_moves(i, pawn_dests(content@, side, ep_target, i)),
{
    let mut dests: Vec<(usize, bool)> = Vec::new();
    if side {
        if i + 8 < 64 && matches!(content[i + 8], Occupant::Empty) {
            dests.push((i + 8, false));
            if 8 <= i && i < 16 && matches!(content[i + 16], Occupant::Empty) {
                dests.push((i + 16, false));
            }
        }
        if long_range_can_move(i, 7) {
            let d = step(i, 7);
            pawn_cap_exec(content, side, ep_target, d, &mut dests);
        }
        if long_range_can_move(i, 9) {
            let d = step(i, 9);
            pawn_cap_exec(content, side, ep_target, d, &mut dests);
        }
    } else {
        if i >= 8 && matches!(content[i - 8], Occupant::Empty) {
            dests.push((i - 8, false));
            if 48 <= i && i < 56 && matches!(content[i - 16], Occupant::Empty) {
                dests.push((i - 16, false));
            }
        }
        if long_range_can_move(i, -9) {
            let d = step(i, -9);
            pawn_cap_exec(content, side, ep_target, d, &mut dests);
        }
        if long_range_can_move(i, -7) {
            let d = step(i, -7);
            pawn_cap_exec(content, side, ep_target, d, &mut dests);
        }
    }
    proof {
        assert(dests@ =~= pawn_dests(content@, side, ep_target, i));
    }
    let mut r: Vec<Move> = Vec::new();
    let mut k: usize = 0;
    while k < dests.len()
        invariant
            k <= dests@.len(),
            dests@ == pawn_dests(content@, side, ep_target, i),
            r@ == pawn_moves(i, dests@.subrange(0, k as int)),
        decreases dests@.len() - k,
    {
        let (d, ep) = dests[k];
        if d < 8 || d >= 56 {
            r.push(Move(i, d, Some(SpecialMoveType::Promotion(PieceType::Q))));
            r.push(Move(i, d, Some(SpecialMoveType::Promotion(PieceType::R))));
            r.push(Move(i, d, Some(SpecialMoveType::Promotion(PieceType::B))));
            r.push(Move(i, d, Some(SpecialMoveType::Promotion(PieceType::N))));
        } else {
            r.push(Move(i, d, if ep {
                Some(SpecialMoveType::EnPassant)
            } else {
                None
            }));
        }
        proof {
            let s1 = dests@.subrange(0, k + 1);
            assert(s1.drop_last() =~= dests@.subrange(0, k as int));
            assert(s1.last() == dests@[k as int]);
            assert(r@ =~= pawn_moves(i, s1));
        }
        k += 1;
    }
    proof {
        assert(dests@.subrange(0, dests@.len() as int) =~= dests@);
    }
    r
}

/// The destination squares of a long-range piece of type `t` on `i`: each of
/// the piece's axes, negative direction first, walked outward.
pub open spec fn long_range_dests(c: Seq<Occupant>, side: bool, i: usize, t: PieceType) -> Seq<
    usize,
> {
    match t {
        PieceType::Q => slide(c, side, i, -1) + slide(c, side, i, 1) + slide(c, side, i, -8)
            + slide(c, side, i, 8) + slide(c, side, i, -7) + slide(c, side, i, 7) + slide(
            c,
            side,
            i,
            -9,
        ) + slide(c, side, i, 9),
        PieceType::R => slide(c, side, i, -1) + slide(c, side, i, 1) + slide(c, side, i, -8)
            + slide(c, side, i, 8),
        PieceType::B => slide(c, side, i, -7) + slide(c, side, i, 7) + slide(c, side, i, -9)
            + slide(c, side, i, 9),
        _ => Seq::empty(),
    }
}

/// The moves of a long-range piece of type `t` on `i`.
pub open spec fn long_range_moves(c: Seq<Occupant>, side: bool, i: usize, t: PieceType) -> Seq<
    Move,
> {
    moves_of_dests(i, long_range_dests(c, side, i, t))
}

/// The pseudolegal moves from square `i`: the per-piece destination rules for
/// the piece standing there, if it belongs to the side to move.
pub open spec fn square_moves(
    c: Seq<Occupant>,
    side: bool,
    rights: Seq<Option<usize>>,
    ep: Option<usize>,
    i: usize,
) -> Seq<Move> {
    match c[i as int] {
        Occupant::Piece(p) => {
            if p.1 != side_color(side) {
                Seq::empty()
            } else {
                match p.0 {
                    PieceType::K => moves_of_dests(i, keep_dests(c, side, king_candidates(i)))
                        + castling_moves(c, rights, side, i),
                    PieceType::N => moves_of_dests(i, keep_dests(c, side, knight_candidates(i))),
                    PieceType::P => pawn_moves(i, pawn_dests(c, side, ep, i)),
                    _ => long_range_moves(c, side, i, p.0),
                }
            }
        },
        Occupant::Empty => Seq::empty(),
    }
}

/// The pseudolegal moves from the first `n` squares, in board order.
pub open spec fn moves_upto(
    c: Seq<Occupant>,
    side: bool,
    rights: Seq<Option<usize>>,
    ep: Option<usize>,
    n: int,
) -> Seq<Move>
    decreases n,
{
    if n <= 0 {
        Seq::empty()
    } else {
        moves_upto(c, side, rights, ep, n - 1) + square_moves(c, side, rights, ep, (n - 1) as usize)
    }
}

/// Collects the moves of a long-range piece of type `piece_type` on `sq`.
pub(crate) fn long_range_exec(
    content: &[Occupant; 64],
    side: bool,
    sq: usize,
    piece_type: PieceType,
) -> (r: Vec<Move>)
    requires
        piece_type == PieceType::Q || piece_type == PieceType::R || piece_type == PieceType::B,
    ensures
        r@ == long_range_moves(content@, side, sq, piece_type),
{
    let mut ds: Vec<usize> = Vec::new();
    match piece_type {
        PieceType::Q => {
            let mut d1 = slide_exec(content, side, sq, -1);
            let mut d2 = slide_exec(content, side, sq, 1);
            let mut d3 = slide_exec(content, side, sq, -8);
            let mut d4 = slide_exec(content, side, sq, 8);
            let mut d5 = slide_exec(content, side, sq, -7);
            let mut d6 = slide_exec(content, side, sq, 7);
            let mut d7 = slide_exec(content, side, sq, -9);
            let mut d8 = slide_exec(content, side, sq, 9);
            ds.append(&mut d1);
            ds.append(&mut d2);
            ds.append(&mut d3);
            ds.append(&mut d4);
            ds.append(&mut d5);
            ds.append(&mut d6);
            ds.append(&mut d7);
            ds.append(&mut d8);
        },
        PieceType::R => {
            let mut d1 = slide_exec(content, side, sq, -1);
            let mut d2 = slide_exec(content, side, sq, 1);
            let mut d3 = slide_exec(content, side, sq, -8);
            let mut d4 = slide_exec(content, side, sq, 8);
            ds.append(&mut d1);
            ds.append(&mut d2);
            ds.append(&mut d3);
            ds.append(&mut d4);
        },
        _ => {
            let mut d1 = slide_exec(content, side, sq, -7);
            let mut d2 = slide_exec(content, side, sq, 7);
            let mut d3 = slide_exec(content, side, sq, -9);
            let mut d4 = slide_exec(content, side, sq, 9);
            ds.append(&mut d1);
            ds.append(&mut d2);
            ds.append(&mut d3);
            ds.append(&mut d4);
        },
    }
    proof {
        assert(ds@ =~= long_range_dests(content@, side, sq, piece_type));
    }
    moves_of_dests_exec(sq, &ds)
}

/// Collects every move the raw movement rules allow, in board order: the
/// generation that attack queries use, with no gate on castling.
pub(crate) fn gen_moves_raw(
    content: &[Occupant; 64],
    side: bool,
    rights: &[Option<usize>; 4],
    ep: Option<usize>,
) -> (r: Vec<Move>)
    ensures
        r@ == moves_upto(content@, side, rights@, ep, 64),
{
    let mut moves: Vec<Move> = Vec::new();
    let mut i: usize = 0;
    while i < 64
        invariant
            i <= 64,
            moves@ == moves_upto(content@, side, rights@, ep, i as int),
        decreases 64 - i,
    {
        match content[i] {
            Occupant::Piece(piece) => {
                if piece.color().as_bool() == side {
                    match piece.piece_type() {
                        PieceType::K => {
                            let cands = king_candidates_exec(i);
                            let kept = keep_dests_exec(content, side, &cands);
                            let mut mv = moves_of_dests_exec(i, &kept);
                            moves.append(&mut mv);
                            let mut cm = castling_moves_exec(content, rights, side, i);
                            moves.append(&mut cm);
                        },
                        PieceType::N => {
                            let cands = knight_candidates_exec(i);
                            let kept = keep_dests_exec(content, side, &cands);
                            let mut mv = moves_of_dests_exec(i, &kept);
                            moves.append(&mut mv);
                        },
                        PieceType::P => {
                            let mut mv = pawn_moves_exec(content, side, ep, i);
                            moves.append(&mut mv);
                        },
                        t => {
                            let mut mv = long_range_exec(content, side, i, t);
                            moves.append(&mut mv);
                        },
                    }
                }
            },
            Occupant::Empty => {},
        }
        proof {
            assert(moves@ =~= moves_upto(content@, side, rights@, ep, i + 1));
        }
        i += 1;
    }
    moves
}

impl Position {
    /// Generates pseudolegal moves for a long-range piece.
    pub fn gen_long_range_piece_pseudolegal_moves(&self, sq: usize, piece_type: PieceType) -> (r:
        Vec<Move>)
        requires
            piece_type == PieceType::Q || piece_type == PieceType::R || piece_type == PieceType::B,
        ensures
            r@ == long_range_moves(self.content@, self.side, sq, piece_type),
    {
        long_range_exec(&self.content, self.side, sq, piece_type)
    }

    /// Generates the pseudolegal moves in the position: castling is included
    /// only while the side to move has no pseudolegal capture of its own
    /// king to fear, that is, while it is not currently in check.
    pub fn gen_pseudolegal_moves(&self) -> (r: Vec<Move>)
        ensures
            r@ == crate::legality::pseudolegal_spec(*self),
    {
        let base = gen_moves_raw(&self.content, self.side, &self.castling_rights, self.ep_target);
        if !crate::legality::king_capture_pseudolegal(&self.content, !self.side) {
            return base;
        }
        let ghost pred = crate::legality::non_castling_pred();
        let mut out: Vec<Move> = Vec::new();
        let mut k: usize = 0;
        while k < base.len()
            invariant
                k <= base@.len(),
                pred == crate::legality::non_castling_pred(),
                out@ == base@.subrange(0, k as int).filter(pred),
            decreases base@.len() - k,
        {
            let m = base[k];
            let keep = !matches!(
                m.2,
                Some(SpecialMoveType::CastlingKingside) | Some(SpecialMoveType::CastlingQueenside),
            );
            proof {
                assert(keep == pred(base@[k as int]));
            }
            if keep {
                out.push(m);
            }
            proof {
                let s1 = base@.subrange(0, k + 1);
                assert(s1.drop_last() =~= base@.subrange(0, k as int));
                assert(s1.last() == base@[k as int]);
                reveal_with_fuel(Seq::filter, 2);
                if pred(s1.last()) {
                    assert(s1.filter(pred) == s1.drop_last().filter(pred).push(s1.last()));
                } else {
                    assert(s1.filter(pred) == s1.drop_last().filter(pred));
                }
                assert(out@ =~= s1.filter(pred));
            }
            k += 1;
        }
        proof {
            assert(base@.subrange(0, base@.len() as int) =~= base@);
        }
        out
    }
}


/// Every move of `s` stays on the board and carries a concrete tag: the
/// generator never emits an `Unclear` tag.
pub open spec fn moves_ok(s: Seq<Move>) -> bool {
    forall|k: int|
        0 <= k < s.len() ==> (s[k].0 < 64 && s[k].1 < 64 && s[k].2 != Some(
            SpecialMoveType::Unclear,
        ))
}

proof fn lemma_all_lt_add(a: Seq<usize>, b: Seq<usize>, n: usize)
    requires
        all_lt(a, n),
        all_lt(b, n),
    ensures
        all_lt(a + b, n),
{
    assert forall|k: int| 0 <= k < (a + b).len() implies (a + b)[k] < n by {
        if k < a.len() {
            assert(a[k] < n);
        } else {
            assert(b[k - a.len()] < n);
        }
    }
}

proof fn lemma_all_lt_filter(s: Seq<usize>, pred: spec_fn(usize) -> bool, n: usize)
    requires
        all_lt(s, n),
    ensures
        all_lt(s.filter(pred), n),
    decreases s.len(),
{
    reveal_with_fuel(Seq::filter, 2);
    if s.len() > 0 {
        assert(all_lt(s.drop_last(), n));
        lemma_all_lt_filter(s.drop_last(), pred, n);
        if pred(s.last()) {
            assert(s.filter(pred) == s.drop_last().filter(pred).push(s.last()));
            assert forall|k: int| 0 <= k < s.filter(pred).len() implies s.filter(pred)[k] < n by {
                if k < s.drop_last().filter(pred).len() {
                    assert(s.drop_last().filter(pred)[k] < n);
                } else {
                    assert(s.filter(pred)[k] == s.last());
                }
            }
        }
    }
}

proof fn lemma_all_lt_slide(c: Seq<Occupant>, side: bool, sq: usize, axis: int)
    ensures
        all_lt(slide(c, side, sq, axis), 64),
    decreases
            (if axis > 0 {
                64 - sq
            } else {
                sq as int
            }),
{
    if can_step(sq, axis) {
        lemma_step_in_range(sq, axis);
        let nxt = (sq + axis) as usize;
        match c[nxt as int] {
            Occupant::Piece(_) => {},
            Occupant::Empty => {
                lemma_all_lt_slide(c, side, nxt, axis);
                lemma_all_lt_add(seq![nxt], slide(c, side, nxt, axis), 64);
            },
        }
    }
}

proof fn lemma_all_lt_king_candidates(i: usize)
    ensures
        all_lt(king_candidates(i), 64),
{
    assert forall|k: int| 0 <= k < king_candidates(i).len() implies king_candidates(i)[k] < 64 by {
        if can_step(i, 1) {
            lemma_step_in_range(i, 1);
        }
        if can_step(i, -1) {
            lemma_step_in_range(i, -1);
        }
        if can_step(i, 8) {
            lemma_step_in_range(i, 8);
        }
        if can_step(i, -8) {
            lemma_step_in_range(i, -8);
        }
        if can_step(i, 7) {
            lemma_step_in_range(i, 7);
        }
        if can_step(i, -7) {
            lemma_step_in_range(i, -7);
        }
        if can_step(i, 9) {
            lemma_step_in_range(i, 9);
        }
        if can_step(i, -9) {
            lemma_step_in_range(i, -9);
        }
    }
}

proof fn lemma_all_lt_knight_group(i: usize, b_axis: int, r1: int, r2: int)
    ensures
        all_lt(knight_group(i, b_axis, r1, r2), 64),
{
    if can_step(i, b_axis) {
        lemma_step_in_range(i, b_axis);
        let bd = (i + b_axis) as usize;
        if can_step(bd, r1) {
            lemma_step_in_range(bd, r1);
        }
        if can_step(bd, r2) {
            lemma_step_in_range(bd, r2);
        }
        lemma_all_lt_add(
            seq_if(can_step(bd, r1), (bd + r1) as usize),
            seq_if(can_step(bd, r2), (bd + r2) as usize),
            64,
        );
    }
}

proof fn lemma_all_lt_knight_candidates(i: usize)
    ensures
        all_lt(knight_candidates(i), 64),
{
    lemma_all_lt_knight_group(i, 7, -1, 8);
    lemma_all_lt_knight_group(i, 9, 8, 1);
    lemma_all_lt_knight_group(i, -7, 1, -8);
    lemma_all_lt_knight_group(i, -9, -8, -1);
    lemma_all_lt_add(knight_group(i, 7, -1, 8), knight_group(i, 9, 8, 1), 64);
    lemma_all_lt_add(
        knight_group(i, 7, -1, 8) + knight_group(i, 9, 8, 1),
        knight_group(i, -7, 1, -8),
        64,
    );
    lemma_all_lt_add(
        knight_group(i, 7, -1, 8) + knight_group(i, 9, 8, 1) + knight_group(i, -7, 1, -8),
        knight_group(i, -9, -8, -1),
        64,
    );
}

proof fn lemma_moves_of_dests_ok(i: usize, ds: Seq<usize>)
    requires
        i < 64,
        all_lt(ds, 64),
    ensures
        moves_ok(moves_of_dests(i, ds)),
{
    assert forall|k: int|
        0 <= k < moves_of_dests(i, ds).len() implies (moves_of_dests(i, ds)[k].0 < 64
        && moves_of_dests(i, ds)[k].1 < 64 && moves_of_dests(i, ds)[k].2 != Some(
        SpecialMoveType::Unclear,
    )) by {
        assert(moves_of_dests(i, ds)[k] == Move(i, ds[k], None));
    }
}

proof fn lemma_moves_ok_add(a: Seq<Move>, b: Seq<Move>)
    requires
        moves_ok(a),
        moves_ok(b),
    ensures
        moves_ok(a + b),
{
    assert forall|k: int|
        0 <= k < (a + b).len() implies ((a + b)[k].0 < 64 && (a + b)[k].1 < 64 && (a + b)[k].2
        != Some(SpecialMoveType::Unclear)) by {
        if k < a.len() {
            assert(a[k].0 < 64 && a[k].1 < 64 && a[k].2 != Some(SpecialMoveType::Unclear));
        } else {
            assert(b[k - a.len()].0 < 64 && b[k - a.len()].1 < 64 && b[k - a.len()].2 != Some(
                SpecialMoveType::Unclear,
            ));
        }
    }
}

/// Filtering keeps every move of a well-formed list well formed.
pub(crate) proof fn lemma_moves_ok_filter(s: Seq<Move>, pred: spec_fn(Move) -> bool)
    requires
        moves_ok(s),
    ensures
        moves_ok(s.filter(pred)),
    decreases s.len(),
{
    reveal_with_fuel(Seq::filter, 2);
    if s.len() > 0 {
        assert(moves_ok(s.drop_last()));
        lemma_moves_ok_filter(s.drop_last(), pred);
        if pred(s.last()) {
            assert(s.filter(pred) == s.drop_last().filter(pred).push(s.last()));
            let f = s.filter(pred);
            let fd = s.drop_last().filter(pred);
            assert forall|k: int|
                0 <= k < f.len() implies (f[k].0 < 64 && f[k].1 < 64 && f[k].2 != Some(
                SpecialMoveType::Unclear,
            )) by {
                if k < fd.len() {
                    assert(f[k] == fd[k]);
                } else {
                    assert(f[k] == s.last());
                    assert(s[s.len() - 1] == s.last());
                }
            }
        }
    }
}

/// Every entry of the flagged pawn destinations is below `n`.
pub open spec fn all_lt_d(s: Seq<(usize, bool)>, n: usize) -> bool {
    forall|k: int| 0 <= k < s.len() ==> s[k].0 < n
}

proof fn lemma_all_lt_d_add(a: Seq<(usize, bool)>, b: Seq<(usize, bool)>, n: usize)
    requires
        all_lt_d(a, n),
        all_lt_d(b, n),
    ensures
        all_lt_d(a + b, n),
{
    assert forall|k: int| 0 <= k < (a + b).len() implies (a + b)[k].0 < n by {
        if k < a.len() {
            assert(a[k].0 < n);
        } else {
            assert(b[k - a.len()].0 < n);
        }
    }
}

proof fn lemma_pawn_dests_lt(c: Seq<Occupant>, side: bool, ep: Option<usize>, i: usize)
    requires
        i < 64,
    ensures
        all_lt_d(pawn_dests(c, side, ep, i), 64),
{
    if side {
        let fwd: Seq<(usize, bool)> = if i + 8 < 64 && (c[i + 8] matches Occupant::Empty) {
            one_dest((i + 8) as usize, false) + (if 8 <= i && i < 16 && (c[i + 16] matches Occupant::Empty) {
                one_dest((i + 16) as usize, false)
            } else {
                Seq::empty()
            })
        } else {
            Seq::empty()
        };
        let cap1: Seq<(usize, bool)> = if can_step(i, 7) {
            pawn_cap(c, side, ep, (i + 7) as usize)
        } else {
            Seq::empty()
        };
        let cap2: Seq<(usize, bool)> = if can_step(i, 9) {
            pawn_cap(c, side, ep, (i + 9) as usize)
        } else {
            Seq::empty()
        };
        if can_step(i, 7) {
            lemma_step_in_range(i, 7);
        }
        if can_step(i, 9) {
            lemma_step_in_range(i, 9);
        }
        assert(all_lt_d(fwd, 64));
        assert(all_lt_d(cap1, 64));
        assert(all_lt_d(cap2, 64));
        lemma_all_lt_d_add(fwd, cap1, 64);
        lemma_all_lt_d_add(fwd + cap1, cap2, 64);
        assert(pawn_dests(c, side, ep, i) == fwd + cap1 + cap2);
    } else {
        let fwd: Seq<(usize, bool)> = if i >= 8 && (c[i - 8] matches Occupant::Empty) {
            one_dest((i - 8) as usize, false) + (if 48 <= i && i < 56 && (c[i - 16] matches Occupant::Empty) {
                one_dest((i - 16) as usize, false)
            } else {
                Seq::empty()
            })
        } else {
            Seq::empty()
        };
        let cap1: Seq<(usize, bool)> = if can_step(i, -9) {
            pawn_cap(c, side, ep, (i - 9) as usize)
        } else {
            Seq::empty()
        };
        let cap2: Seq<(usize, bool)> = if can_step(i, -7) {
            pawn_cap(c, side, ep, (i - 7) as usize)
        } else {
            Seq::empty()
        };
        if can_step(i, -9) {
            lemma_step_in_range(i, -9);
        }
        if can_step(i, -7) {
            lemma_step_in_range(i, -7);
        }
        assert(all_lt_d(fwd, 64));
        assert(all_lt_d(cap1, 64));
        assert(all_lt_d(cap2, 64));
        lemma_all_lt_d_add(fwd, cap1, 64);
        lemma_all_lt_d_add(fwd + cap1, cap2, 64);
        assert(pawn_dests(c, side, ep, i) == fwd + cap1 + cap2);
    }
}

proof fn lemma_pawn_moves_ok(i: usize, ds: Seq<(usize, bool)>)
    requires
        i < 64,
        all_lt_d(ds, 64),
    ensures
        moves_ok(pawn_moves(i, ds)),
    decreases ds.len(),
{
    if ds.len() > 0 {
        assert(all_lt_d(ds.drop_last(), 64));
        lemma_pawn_moves_ok(i, ds.drop_last());
        let pre = pawn_moves(i, ds.drop_last());
        let (d, ep) = ds.last();
        assert(d < 64);
        let tailseq: Seq<Move> = if d < 8 || d >= 56 {
            promo_expand(i, d)
        } else {
            seq![
                Move(i, d, if ep {
                    Some(SpecialMoveType::EnPassant)
                } else {
                    None
                }),
            ]
        };
        assert(moves_ok(tailseq));
        lemma_moves_ok_add(pre, tailseq);
        assert(pawn_moves(i, ds) == pre + tailseq);
    }
}

proof fn lemma_square_moves_ok(
    c: Seq<Occupant>,
    side: bool,
    rights: Seq<Option<usize>>,
    ep: Option<usize>,
    i: usize,
)
    requires
        i < 64,
    ensures
        moves_ok(square_moves(c, side, rights, ep, i)),
{
    match c[i as int] {
        Occupant::Piece(p) => {
            if p.1 == side_color(side) {
                match p.0 {
                    PieceType::K => {
                        lemma_all_lt_king_candidates(i);
                        lemma_all_lt_filter(king_candidates(i), keep_pred(c, side), 64);
                        lemma_moves_of_dests_ok(i, keep_dests(c, side, king_candidates(i)));
                        assert(moves_ok(castling_moves(c, rights, side, i)));
                        lemma_moves_ok_add(
                            moves_of_dests(i, keep_dests(c, side, king_candidates(i))),
                            castling_moves(c, rights, side, i),
                        );
                    },
                    PieceType::N => {
                        lemma_all_lt_knight_candidates(i);
                        lemma_all_lt_filter(knight_candidates(i), keep_pred(c, side), 64);
                        lemma_moves_of_dests_ok(i, keep_dests(c, side, knight_candidates(i)));
                    },
                    PieceType::P => {
                        lemma_pawn_dests_lt(c, side, ep, i);
                        lemma_pawn_moves_ok(i, pawn_dests(c, side, ep, i));
                    },
                    _ => {
                        lemma_all_lt_slide(c, side, i, -1);
                        lemma_all_lt_slide(c, side, i, 1);
                        lemma_all_lt_slide(c, side, i, -8);
                        lemma_all_lt_slide(c, side, i, 8);
                        lemma_all_lt_slide(c, side, i, -7);
                        lemma_all_lt_slide(c, side, i, 7);
                        lemma_all_lt_slide(c, side, i, -9);
                        lemma_all_lt_slide(c, side, i, 9);
                        assert(all_lt(long_range_dests(c, side, i, p.0), 64)) by {
                            match p.0 {
                                PieceType::Q => {
                                    lemma_all_lt_add(slide(c, side, i, -1), slide(c, side, i, 1), 64);
                                    lemma_all_lt_add(slide(c, side, i, -1) + slide(c, side, i, 1), slide(c, side, i, -8), 64);
                                    lemma_all_lt_add(slide(c, side, i, -1) + slide(c, side, i, 1) + slide(c, side, i, -8), slide(c, side, i, 8), 64);
                                    lemma_all_lt_add(slide(c, side, i, -1) + slide(c, side, i, 1) + slide(c, side, i, -8) + slide(c, side, i, 8), slide(c, side, i, -7), 64);
                                    lemma_all_lt_add(slide(c, side, i, -1) + slide(c, side, i, 1) + slide(c, side, i, -8) + slide(c, side, i, 8) + slide(c, side, i, -7), slide(c, side, i, 7), 64);
                                    lemma_all_lt_add(slide(c, side, i, -1) + slide(c, side, i, 1) + slide(c, side, i, -8) + slide(c, side, i, 8) + slide(c, side, i, -7) + slide(c, side, i, 7), slide(c, side, i, -9), 64);
                                    lemma_all_lt_add(slide(c, side, i, -1) + slide(c, side, i, 1) + slide(c, side, i, -8) + slide(c, side, i, 8) + slide(c, side, i, -7) + slide(c, side, i, 7) + slide(c, side, i, -9), slide(c, side, i, 9), 64);
                                },
                                PieceType::R => {
                                    lemma_all_lt_add(slide(c, side, i, -1), slide(c, side, i, 1), 64);
                                    lemma_all_lt_add(slide(c, side, i, -1) + slide(c, side, i, 1), slide(c, side, i, -8), 64);
                                    lemma_all_lt_add(slide(c, side, i, -1) + slide(c, side, i, 1) + slide(c, side, i, -8), slide(c, side, i, 8), 64);
                                },
                                PieceType::B => {
                                    lemma_all_lt_add(slide(c, side, i, -7), slide(c, side, i, 7), 64);
                                    lemma_all_lt_add(slide(c, side, i, -7) + slide(c, side, i, 7), slide(c, side, i, -9), 64);
                                    lemma_all_lt_add(slide(c, side, i, -7) + slide(c, side, i, 7) + slide(c, side, i, -9), slide(c, side, i, 9), 64);
                                },
                                _ => {},
                            }
                        }
                        lemma_moves_of_dests_ok(i, long_range_dests(c, side, i, p.0));
                    },
                }
            }
        },
        Occupant::Empty => {},
    }
}

/// Every pseudolegal move stays on the board.
pub proof fn lemma_moves_upto_ok(
    c: Seq<Occupant>,
    side: bool,
    rights: Seq<Option<usize>>,
    ep: Option<usize>,
    n: int,
)
    requires
        n <= 64,
    ensures
        moves_ok(moves_upto(c, side, rights, ep, n)),
    decreases n,
{
    if n > 0 {
        lemma_moves_upto_ok(c, side, rights, ep, n - 1);
        lemma_square_moves_ok(c, side, rights, ep, (n - 1) as usize);
        lemma_moves_ok_add(
            moves_upto(c, side, rights, ep, n - 1),
            square_moves(c, side, rights, ep, (n - 1) as usize),
        );
    }
}

} // verus!
