//! General laws of the engine, stated and proved once for every position:
//! legality is a refinement of pseudolegality, legal moves keep the mover's
//! king safe, and undoing restores the exact prior board state.
use vstd::prelude::*;
use crate::board::{
    board_inv, game_result_spec, is_make_step, undo_state, BoardView,
};
use crate::legality::{
    change_content_spec, king_capture_spec, legal_pred_c, legal_spec, lemma_pseudolegal_ok,
    pseudolegal_spec,
};
use crate::move_::{Move, SpecialMoveType};
use crate::movegen::moves_ok;
use crate::position::Position;

verus! {

proof fn lemma_filter_subset(s: Seq<Move>, pred: spec_fn(Move) -> bool)
    ensures
        forall|k: int|
            0 <= k < s.filter(pred).len() ==> s.contains(#[trigger] s.filter(pred)[k]),
    decreases s.len(),
{
    reveal_with_fuel(Seq::filter, 2);
    if s.len() > 0 {
        lemma_filter_subset(s.drop_last(), pred);
        let f = s.filter(pred);
        let fd = s.drop_last().filter(pred);
        assert forall|k: int| 0 <= k < f.len() implies s.contains(#[trigger] f[k]) by {
            if pred(s.last()) {
                assert(f == fd.push(s.last()));
                if k < fd.len() {
                    assert(s.drop_last().contains(fd[k]));
                    let j = choose|j: int| 0 <= j < s.drop_last().len() && s.drop_last()[j] == fd[k];
                    assert(s[j] == fd[k]);
                } else {
                    assert(f[k] == s.last());
                    assert(s[s.len() - 1] == s.last());
                }
            } else {
                assert(f == fd);
                assert(s.drop_last().contains(fd[k]));
                let j = choose|j: int| 0 <= j < s.drop_last().len() && s.drop_last()[j] == fd[k];
                assert(s[j] == fd[k]);
            }
        }
    }
}

/// Every legal move is pseudolegal: the legal-move set of a position is a
/// subset of its pseudolegal-move set.
pub proof fn lemma_legal_subset_of_pseudolegal(p: Position)
    ensures
        forall|k: int|
            0 <= k < legal_spec(p).len() ==> pseudolegal_spec(p).contains(
                #[trigger] legal_spec(p)[k],
            ),
{
    lemma_filter_subset(
        pseudolegal_spec(p),
        legal_pred_c(p.content@, p.side, p.castling_rights@, p.ep_target),
    );
}

/// Every legal move stays on the board and carries a concrete tag.
pub proof fn lemma_legal_moves_ok(p: Position)
    ensures
        moves_ok(legal_spec(p)),
{
    lemma_pseudolegal_ok(p.content@, p.side, p.castling_rights@, p.ep_target);
    lemma_legal_subset_of_pseudolegal(p);
    assert forall|k: int|
        0 <= k < legal_spec(p).len() implies (legal_spec(p)[k].0 < 64 && legal_spec(p)[k].1 < 64
        && legal_spec(p)[k].2 != Some(SpecialMoveType::Unclear)) by {
        assert(pseudolegal_spec(p).contains(legal_spec(p)[k]));
        let j = choose|j: int|
            0 <= j < pseudolegal_spec(p).len() && pseudolegal_spec(p)[j] == legal_spec(p)[k];
        assert(pseudolegal_spec(p)[j].0 < 64);
    }
}

/// King safety: after applying any legal non-castling move, the side that
/// just moved never has its king capturable by the opponent's pseudolegal
/// moves. (For a castling move the same protection is enforced through the
/// transit-square check instead.)
pub proof fn lemma_king_safety(p: Position, k: int)
    requires
        0 <= k < legal_spec(p).len(),
        legal_spec(p)[k].2 != Some(SpecialMoveType::CastlingKingside),
        legal_spec(p)[k].2 != Some(SpecialMoveType::CastlingQueenside),
    ensures
        !king_capture_spec(
            change_content_spec(p.content@, legal_spec(p)[k], p.castling_rights@),
            !p.side,
        ),
{
    let s = pseudolegal_spec(p);
    let pred = legal_pred_c(p.content@, p.side, p.castling_rights@, p.ep_target);
    s.lemma_filter_pred(pred, k);
}

/// One legal ply at the level of board states: the game is ongoing, `lm` is
/// in the legal-move set, and `w` is the state after applying it.
pub open spec fn legal_ply(v: BoardView, lm: Move, w: BoardView) -> bool {
    &&& game_result_spec(v) is None
    &&& (exists|k: int|
        0 <= k < legal_spec(v.position).len() && #[trigger] legal_spec(v.position)[k] == lm)
    &&& is_make_step(v, lm, w)
}

/// Applying a legal ply to a plumb board state keeps it plumb, and undoing
/// it restores the exact prior state: position, clocks and histories.
pub proof fn lemma_undo_reverses_ply(v: BoardView, lm: Move, w: BoardView)
    requires
        board_inv(v),
        legal_ply(v, lm, w),
    ensures
        board_inv(w),
        undo_state(w) == v,
{
    lemma_legal_moves_ok(v.position);
    let k = choose|k: int|
        0 <= k < legal_spec(v.position).len() && #[trigger] legal_spec(v.position)[k] == lm;
    assert(lm.0 < 64 && lm.1 < 64);
    assert(v.halfmove_clock < 150);
    assert forall|i: int|
        0 <= i < w.history.len() implies (#[trigger] w.history[i]).prior_halfmove_clock <= 150
        && w.history[i].prior_fullmove_number >= 1 && w.history[i].move_.0 < 64
        && w.history[i].move_.1 < 64 by {
        if i < v.history.len() {
            assert(w.history[i] == w.history.drop_last()[i]);
            assert(v.history[i].prior_halfmove_clock <= 150);
        } else {
            assert(w.history[i] == w.history.last());
        }
    }
    assert(w.position_history.last() == w.position);
    assert(undo_state(w).position == v.position_history.last());
    assert(undo_state(w).history =~= v.history);
    assert(undo_state(w).position_history =~= v.position_history);
    assert(undo_state(w) == v);
}

/// A sequence of legal plies applied in order from `v`, reaching `w`.
pub open spec fn is_game(v: BoardView, lms: Seq<Move>, w: BoardView) -> bool
    decreases lms.len(),
{
    if lms.len() == 0 {
        w == v
    } else {
        exists|mid: BoardView|
            #[trigger] legal_ply(v, lms[0], mid) && is_game(mid, lms.drop_first(), w)
    }
}

/// `n` undo steps applied to `w`.
pub open spec fn undo_n(w: BoardView, n: int) -> BoardView
    decreases n,
{
    if n <= 0 {
        w
    } else {
        undo_n(undo_state(w), n - 1)
    }
}

proof fn lemma_undo_n_peel(w: BoardView, n: int)
    requires
        n >= 0,
    ensures
        undo_n(w, n + 1) == undo_state(undo_n(w, n)),
    decreases n,
{
    if n == 0 {
        assert(undo_n(w, 1) == undo_n(undo_state(w), 0));
        assert(undo_n(w, 0) == w);
    } else {
        lemma_undo_n_peel(undo_state(w), n - 1);
        assert(undo_n(w, n + 1) == undo_n(undo_state(w), n));
        assert(undo_n(w, n) == undo_n(undo_state(w), n - 1));
    }
}

/// Idempotence of undo: after any sequence of N legal plies applied to a
/// plumb board state, N undo steps return the position, the halfmove clock,
/// the fullmove number and both histories exactly to their prior values.
pub proof fn lemma_undo_restores(v: BoardView, lms: Seq<Move>, w: BoardView)
    requires
        board_inv(v),
        is_game(v, lms, w),
    ensures
        board_inv(w),
        undo_n(w, lms.len() as int) == v,
    decreases lms.len(),
{
    if lms.len() == 0 {
    } else {
        let mid = choose|mid: BoardView|
            #[trigger] legal_ply(v, lms[0], mid) && is_game(mid, lms.drop_first(), w);
        lemma_undo_reverses_ply(v, lms[0], mid);
        lemma_undo_restores(mid, lms.drop_first(), w);
        lemma_undo_n_peel(w, lms.len() - 1);
        assert(undo_n(w, lms.len() as int) == undo_state(undo_n(w, lms.len() - 1)));
        assert(undo_n(w, lms.len() - 1) == mid);
    }
}

} // verus!
