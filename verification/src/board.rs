//! The board: a live position with clocks, a reversible undo history, and
//! game-result classification.
use vstd::prelude::*;
use crate::fen::{fen_chars, Fen};
use crate::game_result::{DrawType, GameResult, WinType};
use crate::legality::{change_content, change_content_spec, legal_spec};
use crate::move_::{Move, SpecialMoveType};
use crate::piece::{Occupant, Piece, PieceType};
use crate::position::{checked_side_spec, insufficient_spec, king_of, material_spec, side_color,
    Position};
use crate::Color;

verus! {

/// One record of the undo history: enough to exactly reverse one applied
/// move.
#[derive(Copy, Clone, Debug)]
pub struct HistoryEntry {
    /// The move that was applied.
    pub move_: Move,
    /// The captured occupant, if any, and the square it stood on.
    pub captured: Option<(Occupant, usize)>,
    /// The castling rights before the move.
    pub prior_castling_rights: [Option<usize>; 4],
    /// The en-passant target before the move.
    pub prior_ep_target: Option<usize>,
    /// The halfmove clock before the move.
    pub prior_halfmove_clock: u16,
    /// The fullmove number before the move.
    pub prior_fullmove_number: u64,
}

/// The mathematical state of a board.
pub struct BoardView {
    /// The live position.
    pub position: Position,
    /// Plies since the last pawn move or capture.
    pub halfmove_clock: u16,
    /// The fullmove number, incremented after Black's move.
    pub fullmove_number: u64,
    /// The undo records, oldest first.
    pub history: Seq<HistoryEntry>,
    /// Every position reached, the initial one first, the current one last.
    pub position_history: Seq<Position>,
}

/// The structure for a chessboard: a live position, the two clocks, and an
/// undo history.
///
/// Every board satisfies [`board_inv`]: the constructors establish it and
/// every mutating method preserves it, so the `board_inv` preconditions of
/// the mutating methods hold for any board built through this interface.
#[derive(Debug)]
pub struct Board {
    position: Position,
    halfmove_clock: u16,
    fullmove_number: u64,
    history: Vec<HistoryEntry>,
    position_history: Vec<Position>,
}

impl View for Board {
    type V = BoardView;

    closed spec fn view(&self) -> BoardView {
        BoardView {
            position: self.position,
            halfmove_clock: self.halfmove_clock,
            fullmove_number: self.fullmove_number,
            history: self.history@,
            position_history: self.position_history@,
        }
    }
}

/// A board state is plumb: the position history holds one more entry than
/// the undo history, ends in the live position, and the halfmove clock never
/// exceeds the draw-forcing bound.
pub open spec fn board_inv(v: BoardView) -> bool {
    &&& v.position_history.len() == v.history.len() + 1
    &&& v.position_history.last() == v.position
    &&& v.halfmove_clock <= 150
    &&& v.fullmove_number >= 1
    &&& forall|i: int|
        0 <= i < v.history.len() ==> (#[trigger] v.history[i]).prior_halfmove_clock <= 150
            && v.history[i].prior_fullmove_number >= 1 && v.history[i].move_.0 < 64
            && v.history[i].move_.1 < 64
}

/// How many positions of `hist` equal `p`: the repetition count, keyed by
/// board content, side to move, castling rights and en-passant target.
pub open spec fn repetition_count(hist: Seq<Position>, p: Position) -> nat
    decreases hist.len(),
{
    if hist.len() == 0 {
        0
    } else {
        repetition_count(hist.drop_last(), p) + (if hist.last() == p {
            1nat
        } else {
            0nat
        })
    }
}

/// The game's result, if it has concluded: checkmate, then fivefold
/// repetition, then the seventy-five-move rule, then stalemate, then
/// insufficient material; otherwise the game is ongoing.
pub open spec fn game_result_spec(v: BoardView) -> Option<GameResult> {
    let p = v.position;
    if checked_side_spec(p) is Some && legal_spec(p).len() == 0 {
        Some(GameResult::Wins(side_color(!p.side), WinType::Checkmate))
    } else if repetition_count(v.position_history, p) >= 5 {
        Some(GameResult::Draw(DrawType::FivefoldRepetition))
    } else if v.halfmove_clock >= 150 {
        Some(GameResult::Draw(DrawType::SeventyFiveMoveRule))
    } else if checked_side_spec(p) is None && legal_spec(p).len() == 0 {
        Some(GameResult::Draw(DrawType::Stalemate(side_color(p.side))))
    } else if insufficient_spec(material_spec(p.content@)) {
        Some(GameResult::Draw(DrawType::InsufficientMaterial))
    } else {
        None
    }
}

/// Compares two option squares.
fn opt_sq_eq(a: Option<usize>, b: Option<usize>) -> (r: bool)
    ensures
        r == (a == b),
{
    match (a, b) {
        (None, None) => true,
        (Some(x), Some(y)) => x == y,
        _ => false,
    }
}

/// Compares two positions by value.
pub(crate) fn position_eq(a: &Position, b: &Position) -> (r: bool)
    ensures
        r == (*a == *b),
{
    let mut i: usize = 0;
    while i < 64
        invariant
            i <= 64,
            forall|j: int| 0 <= j < i ==> a.content@[j] == b.content@[j],
        decreases 64 - i,
    {
        if a.content[i] != b.content[i] {
            return false;
        }
        i += 1;
    }
    proof {
        assert(a.content =~= b.content);
    }
    if a.side != b.side {
        return false;
    }
    if !(opt_sq_eq(a.castling_rights[0], b.castling_rights[0]) && opt_sq_eq(
        a.castling_rights[1],
        b.castling_rights[1],
    ) && opt_sq_eq(a.castling_rights[2], b.castling_rights[2]) && opt_sq_eq(
        a.castling_rights[3],
        b.castling_rights[3],
    )) {
        proof {
            assert(a.castling_rights@ != b.castling_rights@);
        }
        return false;
    }
    proof {
        assert(a.castling_rights =~= b.castling_rights);
    }
    if !opt_sq_eq(a.ep_target, b.ep_target) {
        return false;
    }
    true
}

/// Counts how many positions of `hist` equal `p`.
fn count_repetitions(hist: &Vec<Position>, p: &Position) -> (r: usize)
    ensures
        r == repetition_count(hist@, *p),
{
    let mut acc: usize = 0;
    let mut i: usize = 0;
    while i < hist.len()
        invariant
            i <= hist@.len(),
            acc <= i,
            acc == repetition_count(hist@.subrange(0, i as int), *p),
        decreases hist@.len() - i,
    {
        if position_eq(&hist[i], p) {
            acc += 1;
        }
        proof {
            let s1 = hist@.subrange(0, i + 1);
            assert(s1.drop_last() =~= hist@.subrange(0, i as int));
            assert(s1.last() == hist@[i as int]);
        }
        i += 1;
    }
    proof {
        assert(hist@.subrange(0, hist@.len() as int) =~= hist@);
    }
    acc
}

impl Board {
    /// Returns a copy of the live position.
    pub fn position(&self) -> (r: Position)
        ensures
            r == self@.position,
    {
        self.position
    }

    /// Returns the halfmove clock: plies since the last pawn move or capture.
    pub fn halfmove_clock(&self) -> (r: u16)
        ensures
            r == self@.halfmove_clock,
    {
        self.halfmove_clock
    }

    /// Returns the fullmove number: starts at 1, incremented after Black's move.
    pub fn fullmove_number(&self) -> (r: u64)
        ensures
            r == self@.fullmove_number,
    {
        self.fullmove_number
    }

    /// Builds a board from a validated FEN record.
    pub fn from_fen(fen: Fen) -> (r: Board)
        ensures
            r@.position == fen.spec_position(),
            r@.halfmove_clock == fen.spec_halfmove(),
            r@.fullmove_number == fen.spec_fullmove(),
            r@.history == Seq::<HistoryEntry>::empty(),
            r@.position_history == seq![fen.spec_position()],
            board_inv(r@),
    {
        let position = fen.position();
        let halfmove_clock = fen.halfmove_clock();
        let fullmove_number = fen.fullmove_number();
        let mut position_history: Vec<Position> = Vec::new();
        position_history.push(position);
        let b = Board {
            position,
            halfmove_clock,
            fullmove_number,
            history: Vec::new(),
            position_history,
        };
        proof {
            assert(b@.position_history =~= seq![fen.spec_position()]);
            assert(b@.history =~= Seq::<HistoryEntry>::empty());
        }
        b
    }

    /// Generates the legal moves in the current position; an already
    /// concluded game has none.
    pub fn gen_legal_moves(&self) -> (r: Vec<Move>)
        ensures
            r@ == (if game_result_spec(self@) is Some {
                Seq::<Move>::empty()
            } else {
                legal_spec(self@.position)
            }),
    {
        if self.game_result().is_some() {
            return Vec::new();
        }
        self.position.gen_non_illegal_moves()
    }

    /// Returns the game's result, if the game has concluded.
    pub fn game_result(&self) -> (r: Option<GameResult>)
        ensures
            r == game_result_spec(self@),
    {
        if self.position.is_checkmate() {
            return Some(
                GameResult::Wins(Color::from_bool(!self.position.side), WinType::Checkmate),
            );
        }
        if count_repetitions(&self.position_history, &self.position) >= 5 {
            return Some(GameResult::Draw(DrawType::FivefoldRepetition));
        }
        if self.halfmove_clock >= 150 {
            return Some(GameResult::Draw(DrawType::SeventyFiveMoveRule));
        }
        if self.position.is_stalemate() {
            return Some(
                GameResult::Draw(DrawType::Stalemate(Color::from_bool(self.position.side))),
            );
        }
        if self.position.is_insufficient_material() {
            return Some(GameResult::Draw(DrawType::InsufficientMaterial));
        }
        None
    }

    /// Checks whether the game is still ongoing.
    pub fn is_ongoing(&self) -> (r: bool)
        ensures
            r == (game_result_spec(self@) is None),
    {
        self.game_result().is_none()
    }

    /// Checks whether the game is drawn by stalemate.
    pub fn is_stalemate(&self) -> (r: bool)
        ensures
            r == (checked_side_spec(self@.position) is None && legal_spec(self@.position).len()
                == 0),
    {
        self.position.is_stalemate()
    }

    /// Checks whether any side is in check.
    pub fn is_check(&self) -> (r: bool)
        ensures
            r == (checked_side_spec(self@.position) is Some),
    {
        self.position.is_check()
    }

    /// Checks whether any side is in checkmate.
    pub fn is_checkmate(&self) -> (r: bool)
        ensures
            r == (checked_side_spec(self@.position) is Some && legal_spec(self@.position).len()
                == 0),
    {
        self.position.is_checkmate()
    }

    /// Checks whether the board holds insufficient checkmating material.
    pub fn is_insufficient_material(&self) -> (r: bool)
        ensures
            r == insufficient_spec(material_spec(self@.position.content@)),
    {
        self.position.is_insufficient_material()
    }

    /// Returns the side in stalemate, if any.
    pub fn stalemated_side(&self) -> (r: Option<Color>)
        ensures
            r == (if checked_side_spec(self@.position) is None && legal_spec(
                self@.position,
            ).len() == 0 {
                Some(side_color(self@.position.side))
            } else {
                None::<Color>
            }),
    {
        match self.position.stalemated_side() {
            Some(s) => Some(Color::from_bool(s)),
            None => None,
        }
    }

    /// Returns the side in check, if any.
    pub fn checked_side(&self) -> (r: Option<Color>)
        ensures
            r == (match checked_side_spec(self@.position) {
                Some(s) => Some(side_color(s)),
                None => None::<Color>,
            }),
    {
        match self.position.checked_side() {
            Some(s) => Some(Color::from_bool(s)),
            None => None,
        }
    }

    /// Returns the side in checkmate, if any.
    pub fn checkmated_side(&self) -> (r: Option<Color>)
        ensures
            r == (if checked_side_spec(self@.position) is Some && legal_spec(
                self@.position,
            ).len() == 0 {
                Some(side_color(self@.position.side))
            } else {
                None::<Color>
            }),
    {
        match self.position.checkmated_side() {
            Some(s) => Some(Color::from_bool(s)),
            None => None,
        }
    }

    /// Returns the number of recorded moves (for the SAN transcript).
    pub(crate) fn history_len_impl(&self) -> (r: usize)
        ensures
            r == self@.history.len(),
    {
        self.history.len()
    }

    /// Returns the position reached after the first `i` recorded moves.
    pub(crate) fn position_at(&self, i: usize) -> (r: Position)
        requires
            i < self@.position_history.len(),
        ensures
            r == self@.position_history[i as int],
    {
        self.position_history[i]
    }

    /// Returns the `i`-th undo record.
    pub(crate) fn history_at(&self, i: usize) -> (r: HistoryEntry)
        requires
            i < self@.history.len(),
        ensures
            r == self@.history[i as int],
    {
        self.history[i]
    }

    /// Serializes the board into a six-field FEN string.
    pub fn to_fen(&self) -> (r: String)
        ensures
            r@ == fen_chars(
                self@.position,
                self@.halfmove_clock as int,
                self@.fullmove_number as int,
            ),
    {
        let mut out = crate::helpers::str_to_chars(self.position.to_fen().as_str());
        out.push(' ');
        crate::fen::push_dec(self.halfmove_clock as u64, &mut out);
        out.push(' ');
        crate::fen::push_dec(self.fullmove_number, &mut out);
        proof {
            assert(out@ =~= fen_chars(
                self@.position,
                self@.halfmove_clock as int,
                self@.fullmove_number as int,
            ));
        }
        crate::helpers::chars_to_string(&out)
    }
}


/// Error: applying a move failed.
#[derive(Copy, Clone, Debug, PartialEq, Eq)]
pub enum MakeMoveError {
    /// The game has already concluded.
    GameOver,
    /// The move is not in the current legal-move set.
    IllegalMove,
    /// A SAN string that more than one legal move renders as.
    AmbiguousSan,
}

/// Error: there is no move to undo.
#[derive(Copy, Clone, Debug, PartialEq, Eq)]
pub struct NoMoveToUndoError;

/// Whether the legal move `l` is denoted by the requested move `m`: same
/// squares, and either the same tag or an `Unclear` tag matching any
/// non-promotion legal move.
pub open spec fn move_matches(l: Move, m: Move) -> bool {
    &&& l.0 == m.0
    &&& l.1 == m.1
    &&& (l.2 == m.2 || (m.2 == Some(SpecialMoveType::Unclear) && !(l.2 matches Some(
        SpecialMoveType::Promotion(_),
    ))))
}

/// The first index of `ls` from `i` on whose move is denoted by `m`, or -1.
pub open spec fn first_match(ls: Seq<Move>, m: Move, i: int) -> int
    decreases ls.len() - i,
{
    if i < 0 || i >= ls.len() {
        -1
    } else if move_matches(ls[i], m) {
        i
    } else {
        first_match(ls, m, i + 1)
    }
}

/// The legal move denoted by `m` in `p`, resolving an `Unclear` tag against
/// the legal-move set; `None` if no legal move matches.
pub open spec fn resolve_move(p: Position, m: Move) -> Option<Move> {
    let ls = legal_spec(p);
    let i = first_match(ls, m, 0);
    if i == -1 {
        None
    } else {
        Some(ls[i])
    }
}

/// Whether castling-rights slot `k` is revoked by the move `lm`: its recorded
/// rook moves or is captured, or the associated king moves.
pub open spec fn slot_cleared(
    c: Seq<Occupant>,
    rights: Seq<Option<usize>>,
    lm: Move,
    k: int,
) -> bool {
    ||| rights[k] == Some(lm.0)
    ||| rights[k] == Some(lm.1)
    ||| c[lm.0 as int] == king_of(k < 2)
}

/// The castling rights after `lm`: each slot survives unless revoked.
pub open spec fn next_rights(c: Seq<Occupant>, rights: Seq<Option<usize>>, lm: Move) -> Seq<
    Option<usize>,
> {
    Seq::new(4, |k: int| if slot_cleared(c, rights, lm, k) {
        None
    } else {
        rights[k]
    })
}

/// Whether `lm` moves a pawn.
pub open spec fn is_pawn_move(c: Seq<Occupant>, lm: Move) -> bool {
    c[lm.0 as int] matches Occupant::Piece(p) && p.0 == PieceType::P
}

/// Whether `lm` captures: its destination is occupied, or it is an
/// en-passant capture.
pub open spec fn is_capture(c: Seq<Occupant>, lm: Move) -> bool {
    (c[lm.1 as int] matches Occupant::Piece(_)) || lm.2 == Some(SpecialMoveType::EnPassant)
}

/// The en-passant target after `lm`: set exactly by a two-square pawn
/// advance, to the square passed over.
pub open spec fn next_ep(c: Seq<Occupant>, lm: Move) -> Option<usize> {
    if is_pawn_move(c, lm) && (lm.1 == lm.0 + 16 || lm.0 == lm.1 + 16) {
        Some((((lm.0 + lm.1) / 2) as usize))
    } else {
        None
    }
}

/// The captured occupant of `lm` and the square it stood on, if any: the
/// destination square's occupant, or, for en passant, the passed pawn.
pub open spec fn captured_of(c: Seq<Occupant>, lm: Move) -> Option<(Occupant, usize)> {
    if lm.2 == Some(SpecialMoveType::EnPassant) {
        let cap: int = if crate::legality::mover_is_white(c, lm) {
            lm.1 - 8
        } else {
            lm.1 + 8
        };
        if 0 <= cap < 64 {
            Some((c[cap], cap as usize))
        } else {
            None
        }
    } else {
        match c[lm.1 as int] {
            Occupant::Piece(_) => Some((c[lm.1 as int], lm.1)),
            Occupant::Empty => None,
        }
    }
}

/// Whether the history entry `e` records exactly the state replaced by
/// applying `lm` to `v`.
pub open spec fn entry_matches(e: HistoryEntry, v: BoardView, lm: Move) -> bool {
    &&& e.move_ == lm
    &&& e.captured == captured_of(v.position.content@, lm)
    &&& e.prior_castling_rights@ == v.position.castling_rights@
    &&& e.prior_ep_target == v.position.ep_target
    &&& e.prior_halfmove_clock == v.halfmove_clock
    &&& e.prior_fullmove_number == v.fullmove_number
}

/// Whether `w` is the state after applying the resolved legal move `lm` to
/// `v`: the position changes per the move rules, the halfmove clock resets on
/// a pawn move or capture and counts up otherwise, the fullmove number
/// advances after Black's move, and one undo record and one position are
/// appended to the histories.
pub open spec fn is_make_step(v: BoardView, lm: Move, w: BoardView) -> bool {
    let c = v.position.content@;
    &&& w.position.content@ == change_content_spec(c, lm, v.position.castling_rights@)
    &&& w.position.side == !v.position.side
    &&& w.position.castling_rights@ == next_rights(c, v.position.castling_rights@, lm)
    &&& w.position.ep_target == next_ep(c, lm)
    &&& w.halfmove_clock == (if is_pawn_move(c, lm) || is_capture(c, lm) {
        0
    } else {
        (v.halfmove_clock + 1) as u16
    })
    &&& w.fullmove_number == (if v.position.side {
        v.fullmove_number
    } else if v.fullmove_number < u64::MAX {
        (v.fullmove_number + 1) as u64
    } else {
        v.fullmove_number
    })
    &&& w.history.len() == v.history.len() + 1
    &&& w.history.drop_last() == v.history
    &&& entry_matches(w.history.last(), v, lm)
    &&& w.position_history == v.position_history.push(w.position)
}

/// The state after undoing the most recent move of `v`: the recorded prior
/// clocks return, the previous position returns, and both histories shrink
/// by one.
pub open spec fn undo_state(v: BoardView) -> BoardView {
    BoardView {
        position: v.position_history[v.position_history.len() - 2],
        halfmove_clock: v.history.last().prior_halfmove_clock,
        fullmove_number: v.history.last().prior_fullmove_number,
        history: v.history.drop_last(),
        position_history: v.position_history.drop_last(),
    }
}

/// Computes the castling rights after `lm`.
pub(crate) fn next_rights_exec(
    content: &[Occupant; 64],
    rights: &[Option<usize>; 4],
    lm: &Move,
) -> (r: [Option<usize>; 4])
    requires
        lm.0 < 64,
        lm.1 < 64,
    ensures
        r@ == next_rights(content@, rights@, *lm),
{
    let lm = *lm;
    let mut nrights: [Option<usize>; 4] = *rights;
    let wking = content[lm.0] == Occupant::Piece(Piece(PieceType::K, Color::White));
    let bking = content[lm.0] == Occupant::Piece(Piece(PieceType::K, Color::Black));
    let mut kk: usize = 0;
    while kk < 4
        invariant
            kk <= 4,
            forall|j: int|
                0 <= j < kk ==> nrights@[j] == next_rights(content@, rights@, lm)[j],
            forall|j: int| kk <= j < 4 ==> nrights@[j] == rights@[j],
            wking == (content@[lm.0 as int] == king_of(true)),
            bking == (content@[lm.0 as int] == king_of(false)),
            lm.0 < 64 && lm.1 < 64,
        decreases 4 - kk,
    {
        let cleared = opt_sq_eq(nrights[kk], Some(lm.0)) || opt_sq_eq(nrights[kk], Some(lm.1)) || (
        if kk < 2 {
            wking
        } else {
            bking
        });
        proof {
            assert(cleared == slot_cleared(content@, rights@, lm, kk as int));
        }
        if cleared {
            nrights[kk] = None;
        }
        kk += 1;
    }
    proof {
        assert(nrights@ =~= next_rights(content@, rights@, lm));
    }
    nrights
}

/// Computes the en-passant target after `lm`.
pub(crate) fn next_ep_exec(content: &[Occupant; 64], lm: &Move) -> (r: Option<usize>)
    requires
        lm.0 < 64,
        lm.1 < 64,
    ensures
        r == next_ep(content@, *lm),
{
    let lm = *lm;
    let moved_is_pawn = match content[lm.0] {
        Occupant::Piece(p) => matches!(p.piece_type(), PieceType::P),
        Occupant::Empty => false,
    };
    if moved_is_pawn && (lm.1 == lm.0 + 16 || lm.0 == lm.1 + 16) {
        Some((lm.0 + lm.1) / 2)
    } else {
        None
    }
}

/// Compares two special-move tags.
pub(crate) fn opt_smt_eq(a: Option<SpecialMoveType>, b: Option<SpecialMoveType>) -> (r: bool)
    ensures
        r == (a == b),
{
    match (a, b) {
        (None, None) => true,
        (Some(x), Some(y)) => x == y,
        _ => false,
    }
}

/// Decides whether the legal move `l` is denoted by the requested move `m`.
pub(crate) fn move_matches_exec(l: &Move, m: &Move) -> (r: bool)
    ensures
        r == move_matches(*l, *m),
{
    l.0 == m.0 && l.1 == m.1 && (opt_smt_eq(l.2, m.2) || (opt_smt_eq(
        m.2,
        Some(SpecialMoveType::Unclear),
    ) && !matches!(l.2, Some(SpecialMoveType::Promotion(_)))))
}

impl Board {
    /// Validates `m` against the current legal-move set (resolving `Unclear`
    /// tags), applies it to the position, updates the clocks, and pushes an
    /// undo record. Fails if the game has already concluded or the move is
    /// not legal, leaving the board unchanged.
    #[verifier::rlimit(100)]
    pub fn make_move(&mut self, m: Move) -> (r: Result<(), MakeMoveError>)
        requires
            board_inv(old(self)@),
        ensures
            board_inv(final(self)@),
            game_result_spec(old(self)@) is Some ==> r == Err::<(), _>(MakeMoveError::GameOver)
                && final(self)@ == old(self)@,
            game_result_spec(old(self)@) is None ==> (match resolve_move(old(self)@.position, m) {
                None => r == Err::<(), _>(MakeMoveError::IllegalMove) && final(self)@ == old(
                    self,
                )@,
                Some(lm) => r == Ok::<_, MakeMoveError>(()) && is_make_step(
                    old(self)@,
                    lm,
                    final(self)@,
                ),
            }),
    {
        if self.game_result().is_some() {
            return Err(MakeMoveError::GameOver);
        }
        let ls = self.position.gen_non_illegal_moves();
        let mut k: usize = 0;
        let mut sel: Option<usize> = None;
        while k < ls.len()
            invariant
                k <= ls@.len(),
                ls@ == legal_spec(self@.position),
                crate::movegen::moves_ok(ls@),
                (sel is None ==> first_match(ls@, m, k as int) == first_match(ls@, m, 0)),
                (sel matches Some(i) ==> 0 <= i < ls@.len() && first_match(ls@, m, 0) == i),
            decreases ls@.len() - k,
        {
            if sel.is_none() && move_matches_exec(&ls[k], &m) {
                sel = Some(k);
                proof {
                    assert(first_match(ls@, m, k as int) == k);
                }
            }
            k += 1;
        }
        let lm = match sel {
            Some(i) => ls[i],
            None => {
                proof {
                    assert(first_match(ls@, m, 0) == -1);
                }
                return Err(MakeMoveError::IllegalMove);
            },
        };
        proof {
            assert(resolve_move(self@.position, m) == Some(lm));
            assert(lm.0 < 64 && lm.1 < 64);
        }
        let pos = self.position;
        let nc = change_content(&pos.content, &lm, &pos.castling_rights);
        let moved_is_pawn = match pos.content[lm.0] {
            Occupant::Piece(p) => matches!(p.piece_type(), PieceType::P),
            Occupant::Empty => false,
        };
        let captured_direct = pos.content[lm.1];
        let capture = matches!(captured_direct, Occupant::Piece(_)) || matches!(
            lm.2,
            Some(SpecialMoveType::EnPassant),
        );
        let captured: Option<(Occupant, usize)>;
        if matches!(lm.2, Some(SpecialMoveType::EnPassant)) {
            let white = match pos.content[lm.0] {
                Occupant::Piece(p) => p.color().is_white(),
                Occupant::Empty => false,
            };
            if white {
                if lm.1 >= 8 {
                    captured = Some((pos.content[lm.1 - 8], lm.1 - 8));
                } else {
                    captured = None;
                }
            } else {
                if lm.1 + 8 < 64 {
                    captured = Some((pos.content[lm.1 + 8], lm.1 + 8));
                } else {
                    captured = None;
                }
            }
        } else {
            match captured_direct {
                Occupant::Piece(_) => {
                    captured = Some((captured_direct, lm.1));
                },
                Occupant::Empty => {
                    captured = None;
                },
            }
        }
        proof {
            assert(captured == captured_of(pos.content@, lm));
        }
        let nrights = next_rights_exec(&pos.content, &pos.castling_rights, &lm);
        let nep = next_ep_exec(&pos.content, &lm);
        proof {
            assert(self@.halfmove_clock < 150);
        }
        let nh: u16 = if moved_is_pawn || capture {
            0
        } else {
            self.halfmove_clock + 1
        };
        let nf: u64 = if pos.side {
            self.fullmove_number
        } else if self.fullmove_number < u64::MAX {
            self.fullmove_number + 1
        } else {
            self.fullmove_number
        };
        let entry = HistoryEntry {
            move_: lm,
            captured,
            prior_castling_rights: pos.castling_rights,
            prior_ep_target: pos.ep_target,
            prior_halfmove_clock: self.halfmove_clock,
            prior_fullmove_number: self.fullmove_number,
        };
        let newpos = Position { content: nc, side: !pos.side, castling_rights: nrights, ep_target: nep };
        self.position = newpos;
        self.halfmove_clock = nh;
        self.fullmove_number = nf;
        self.history.push(entry);
        self.position_history.push(newpos);
        proof {
            assert(self@.history.drop_last() =~= old(self)@.history);
            assert(is_make_step(old(self)@, lm, self@));
        }
        Ok(())
    }

    /// Applies the move denoted by a UCI string.
    pub fn make_move_uci(&mut self, uci: &str) -> (r: Result<(), MakeMoveError>)
        requires
            board_inv(old(self)@),
        ensures
            board_inv(final(self)@),
            crate::move_::parse_uci(uci@) is Err ==> r == Err::<(), _>(MakeMoveError::IllegalMove)
                && final(self)@ == old(self)@,
            crate::move_::parse_uci(uci@) matches Ok(m) ==> {
                &&& (game_result_spec(old(self)@) is Some ==> r == Err::<(), _>(
                    MakeMoveError::GameOver,
                ) && final(self)@ == old(self)@)
                &&& (game_result_spec(old(self)@) is None ==> (match resolve_move(
                    old(self)@.position,
                    m,
                ) {
                    None => r == Err::<(), _>(MakeMoveError::IllegalMove) && final(self)@ == old(
                        self,
                    )@,
                    Some(lm) => r == Ok::<_, MakeMoveError>(()) && is_make_step(
                        old(self)@,
                        lm,
                        final(self)@,
                    ),
                }))
            },
    {
        match Move::from_uci(uci) {
            Ok(m) => self.make_move(m),
            Err(_) => Err(MakeMoveError::IllegalMove),
        }
    }

    /// Pops the most recent history entry and exactly reverses the move it
    /// records; fails if the history is empty.
    pub fn undo_move(&mut self) -> (r: Result<(), NoMoveToUndoError>)
        requires
            board_inv(old(self)@),
        ensures
            board_inv(final(self)@),
            old(self)@.history.len() == 0 ==> r is Err && final(self)@ == old(self)@,
            old(self)@.history.len() > 0 ==> r == Ok::<_, NoMoveToUndoError>(()) && final(self)@
                == undo_state(old(self)@),
    {
        if self.history.len() == 0 {
            return Err(NoMoveToUndoError);
        }
        let e = match self.history.pop() {
            Some(e) => e,
            None => {
                return Err(NoMoveToUndoError);
            },
        };
        let _ = self.position_history.pop();
        let n = self.position_history.len();
        self.position = self.position_history[n - 1];
        self.halfmove_clock = e.prior_halfmove_clock;
        self.fullmove_number = e.prior_fullmove_number;
        proof {
            assert(self@.history =~= old(self)@.history.drop_last());
            assert(self@.position_history =~= old(self)@.position_history.drop_last());
        }
        Ok(())
    }
}

/// The piece standing on square `i` in the default starting position.
pub open spec fn start_sq(i: int) -> Occupant {
    if i == 0 || i == 7 {
        Occupant::Piece(Piece(PieceType::R, Color::White))
    } else if i == 1 || i == 6 {
        Occupant::Piece(Piece(PieceType::N, Color::White))
    } else if i == 2 || i == 5 {
        Occupant::Piece(Piece(PieceType::B, Color::White))
    } else if i == 3 {
        Occupant::Piece(Piece(PieceType::Q, Color::White))
    } else if i == 4 {
        Occupant::Piece(Piece(PieceType::K, Color::White))
    } else if 8 <= i < 16 {
        Occupant::Piece(Piece(PieceType::P, Color::White))
    } else if 48 <= i < 56 {
        Occupant::Piece(Piece(PieceType::P, Color::Black))
    } else if i == 56 || i == 63 {
        Occupant::Piece(Piece(PieceType::R, Color::Black))
    } else if i == 57 || i == 62 {
        Occupant::Piece(Piece(PieceType::N, Color::Black))
    } else if i == 58 || i == 61 {
        Occupant::Piece(Piece(PieceType::B, Color::Black))
    } else if i == 59 {
        Occupant::Piece(Piece(PieceType::Q, Color::Black))
    } else if i == 60 {
        Occupant::Piece(Piece(PieceType::K, Color::Black))
    } else {
        Occupant::Empty
    }
}

/// The squares of the default starting position, a1 first.
pub open spec fn start_content() -> Seq<Occupant> {
    Seq::new(64, |i: int| start_sq(i))
}

/// The castling rights of the default starting position.
pub open spec fn start_rights() -> Seq<Option<usize>> {
    seq![Some(7usize), Some(0usize), Some(63usize), Some(56usize)]
}

/// The piece standing on square `i` in the default starting position.
fn start_square(i: usize) -> (r: Occupant)
    ensures
        r == start_sq(i as int),
{
    if i == 0 || i == 7 {
        Occupant::Piece(Piece(PieceType::R, Color::White))
    } else if i == 1 || i == 6 {
        Occupant::Piece(Piece(PieceType::N, Color::White))
    } else if i == 2 || i == 5 {
        Occupant::Piece(Piece(PieceType::B, Color::White))
    } else if i == 3 {
        Occupant::Piece(Piece(PieceType::Q, Color::White))
    } else if i == 4 {
        Occupant::Piece(Piece(PieceType::K, Color::White))
    } else if 8 <= i && i < 16 {
        Occupant::Piece(Piece(PieceType::P, Color::White))
    } else if 48 <= i && i < 56 {
        Occupant::Piece(Piece(PieceType::P, Color::Black))
    } else if i == 56 || i == 63 {
        Occupant::Piece(Piece(PieceType::R, Color::Black))
    } else if i == 57 || i == 62 {
        Occupant::Piece(Piece(PieceType::N, Color::Black))
    } else if i == 58 || i == 61 {
        Occupant::Piece(Piece(PieceType::B, Color::Black))
    } else if i == 59 {
        Occupant::Piece(Piece(PieceType::Q, Color::Black))
    } else if i == 60 {
        Occupant::Piece(Piece(PieceType::K, Color::Black))
    } else {
        Occupant::Empty
    }
}

impl Default for Board {
    /// The default chessboard: the standard starting position, White to
    /// move, full castling rights, no en-passant target, halfmove clock 0
    /// and fullmove number 1.
    #[verifier::rlimit(100)]
    fn default() -> (r: Board)
        ensures
            r@.position.content@ == start_content(),
            r@.position.side == true,
            r@.position.castling_rights@ == start_rights(),
            r@.position.ep_target is None,
            r@.halfmove_clock == 0,
            r@.fullmove_number == 1,
            r@.history == Seq::<HistoryEntry>::empty(),
            r@.position_history == seq![r@.position],
            board_inv(r@),
    {
        let mut content: [Occupant; 64] = [Occupant::Empty; 64];
        let mut i: usize = 0;
        while i < 64
            invariant
                i <= 64,
                forall|j: int| 0 <= j < i ==> content@[j] == start_sq(j),
            decreases 64 - i,
        {
            content[i] = start_square(i);
            i += 1;
        }
        proof {
            assert(content@ =~= start_content());
        }
        let castling_rights: [Option<usize>; 4] = [Some(7), Some(0), Some(63), Some(56)];
        proof {
            assert(castling_rights@ =~= start_rights());
        }
        let position = Position { content, side: true, castling_rights, ep_target: None };
        let mut position_history: Vec<Position> = Vec::new();
        position_history.push(position);
        let b = Board {
            position,
            halfmove_clock: 0,
            fullmove_number: 1,
            history: Vec::new(),
            position_history,
        };
        proof {
            assert(b@.position_history =~= seq![b@.position]);
            assert(b@.history =~= Seq::<HistoryEntry>::empty());
        }
        b
    }
}

} // verus!
