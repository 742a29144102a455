//! The position: board content, side to move, castling rights and en-passant
//! target, together with its well-formedness conditions.
use vstd::prelude::*;
use crate::piece::{Occupant, Piece, PieceType};
use crate::legality::{king_capture_pseudolegal, king_capture_spec, legal_spec};
use crate::Color;

verus! {

/// The structure for a chess position.
#[derive(Eq, PartialEq, Copy, Clone, Debug)]
pub struct Position {
    /// The board content; each square is represented by a number 0..64 where a1 is 0 and h8 is 63.
    pub content: [Occupant; 64],
    /// The side to move; white is `true` and black is `false`.
    pub side: bool,
    /// The indices of rook locations representing castling rights for both sides in the format [K, Q, k, q].
    pub castling_rights: [Option<usize>; 4],
    /// The index of the en passant target square, 0..64.
    pub ep_target: Option<usize>,
}

/// The color of the side-to-move flag: `true` is white.
pub open spec fn side_color(side: bool) -> Color {
    if side {
        Color::White
    } else {
        Color::Black
    }
}

/// The king piece of a side.
pub open spec fn king_of(side: bool) -> Occupant {
    Occupant::Piece(Piece(PieceType::K, side_color(side)))
}

/// The pawn piece of a side.
pub open spec fn pawn_of(side: bool) -> Occupant {
    Occupant::Piece(Piece(PieceType::P, side_color(side)))
}

/// The rook piece of a side.
pub open spec fn rook_of(side: bool) -> Occupant {
    Occupant::Piece(Piece(PieceType::R, side_color(side)))
}

/// How many squares of `c`, from index `i` on, hold exactly `x`.
pub open spec fn count_occ_from(c: Seq<Occupant>, i: int, x: Occupant) -> nat
    decreases c.len() - i,
{
    if i < 0 || i >= c.len() {
        0
    } else {
        count_occ_from(c, i + 1, x) + (if c[i] == x {
            1nat
        } else {
            0nat
        })
    }
}

/// How many squares of `c` hold exactly `x`.
pub open spec fn count_occ(c: Seq<Occupant>, x: Occupant) -> nat {
    count_occ_from(c, 0, x)
}

/// The first index from `i` on whose square holds exactly `x`, or -1 if there is none.
pub open spec fn first_occ_from(c: Seq<Occupant>, i: int, x: Occupant) -> int
    decreases c.len() - i,
{
    if i < 0 || i >= c.len() {
        -1
    } else if c[i] == x {
        i
    } else {
        first_occ_from(c, i + 1, x)
    }
}

/// Board content is well formed: 64 squares and exactly one king per color.
pub open spec fn wf_content(c: Seq<Occupant>) -> bool {
    &&& c.len() == 64
    &&& count_occ(c, king_of(true)) == 1
    &&& count_occ(c, king_of(false)) == 1
}

/// A castling-rights slot holds a square index on the board.
pub open spec fn wf_rights(rights: Seq<Option<usize>>) -> bool {
    &&& rights.len() == 4
    &&& forall|k: int|
        0 <= k < 4 ==> ((#[trigger] rights[k]) matches Some(r) ==> r < 64)
}

/// A castling-rights slot is present only while the recorded square holds a
/// rook of the right color, strictly between that side's king and the
/// relevant board edge.
pub open spec fn rights_consistent(c: Seq<Occupant>, rights: Seq<Option<usize>>) -> bool {
    let wk = first_occ_from(c, 0, king_of(true));
    let bk = first_occ_from(c, 0, king_of(false));
    &&& rights.len() == 4
    &&& (rights[0] matches Some(r) ==> wk < r < 8 && c[r as int] == rook_of(true))
    &&& (rights[1] matches Some(r) ==> r < wk && c[r as int] == rook_of(true))
    &&& (rights[2] matches Some(r) ==> bk < r < 64 && c[r as int] == rook_of(false))
    &&& (rights[3] matches Some(r) ==> 56 <= r < bk && c[r as int] == rook_of(false))
}

/// The en-passant target square, when present, lies on the third or the
/// sixth rank, the square a pawn has just passed over.
pub open spec fn wf_ep(ep: Option<usize>) -> bool {
    ep matches Some(t) ==> (16 <= t < 24 || 40 <= t < 48)
}

impl Position {
    /// The position is well formed: board content with exactly one king per
    /// color and no back-rank pawns, consistent castling rights, and a
    /// plausible en-passant target.
    pub open spec fn wf(self) -> bool {
        &&& wf_content(self.content@)
        &&& wf_rights(self.castling_rights@)
        &&& rights_consistent(self.content@, self.castling_rights@)
        &&& wf_ep(self.ep_target)
    }
}


/// The side whose king is pseudolegally capturable by the other side, if any:
/// white is reported first.
pub open spec fn checked_side_spec(p: Position) -> Option<bool> {
    if king_capture_spec(p.content@, false) {
        Some(true)
    } else if king_capture_spec(p.content@, true) {
        Some(false)
    } else {
        None
    }
}

/// How many squares of `c` in `[lo, hi)` hold exactly `x`.
pub open spec fn count_occ_in(c: Seq<Occupant>, lo: int, hi: int, x: Occupant) -> nat
    decreases hi - lo,
{
    if lo >= hi || lo < 0 || hi > c.len() {
        0
    } else {
        (if c[lo] == x {
            1nat
        } else {
            0nat
        }) + count_occ_in(c, lo + 1, hi, x)
    }
}

/// A square holding `x` exists wherever the count of `x` is positive, and the
/// first such square indeed holds `x`.
pub proof fn lemma_first_occ_exists(c: Seq<Occupant>, i: int, x: Occupant)
    requires
        0 <= i,
        count_occ_from(c, i, x) > 0,
    ensures
        i <= first_occ_from(c, i, x) < c.len(),
        c[first_occ_from(c, i, x)] == x,
    decreases c.len() - i,
{
    if i < c.len() && c[i] != x {
        lemma_first_occ_exists(c, i + 1, x);
    }
}

/// Whether `sq` is a light square: the color complex used for
/// same-complex-bishop draw detection.
pub open spec fn color_complex_spec(sq: int) -> bool {
    (sq % 8 + sq / 8) % 2 == 1
}

/// Whether the square `sq` of the board is a light square.
pub fn color_complex_of(sq: usize) -> (r: bool)
    requires
        sq < 64,
    ensures
        r == color_complex_spec(sq as int),
{
    (sq % 8 + sq / 8) % 2 == 1
}

/// Represents a piece of material.
#[derive(Eq, PartialEq, Copy, Clone, Debug, Structural)]
pub enum Material {
    Knight,
    Bishop(bool),
    Other,
}

/// The material an occupant contributes: kings are ignored, a bishop records
/// its square's color complex, and queens, rooks and pawns count as `Other`.
pub open spec fn material_at(o: Occupant, sq: int) -> Seq<Material> {
    match o {
        Occupant::Piece(p) => match p.0 {
            PieceType::K => Seq::empty(),
            PieceType::N => seq![Material::Knight],
            PieceType::B => seq![Material::Bishop(color_complex_spec(sq))],
            _ => seq![Material::Other],
        },
        Occupant::Empty => Seq::empty(),
    }
}

/// The non-king material on the first `n` squares, in board order.
pub open spec fn material_upto(c: Seq<Occupant>, n: int) -> Seq<Material>
    decreases n,
{
    if n <= 0 {
        Seq::empty()
    } else {
        material_upto(c, n - 1) + material_at(c[n - 1], n - 1)
    }
}

/// The non-king material on the board, in board order.
pub open spec fn material_spec(c: Seq<Occupant>) -> Seq<Material> {
    material_upto(c, 64)
}

/// Every entry of `s` is a bishop on the color complex `cx`.
pub open spec fn all_bishops_of(s: Seq<Material>, cx: bool) -> bool {
    forall|i: int| 0 <= i < s.len() ==> s[i] == Material::Bishop(cx)
}

/// The material `s` cannot force checkmate: no material at all, exactly one
/// knight and nothing else, or only bishops of one color complex.
pub open spec fn insufficient_spec(s: Seq<Material>) -> bool {
    ||| s.len() == 0
    ||| (s.len() == 1 && s[0] == Material::Knight)
    ||| all_bishops_of(s, true)
    ||| all_bishops_of(s, false)
}

/// How many entries of `s`, from index `i` on, are exactly `x`.
pub open spec fn count_mat_from(s: Seq<Material>, i: int, x: Material) -> nat
    decreases s.len() - i,
{
    if i < 0 || i >= s.len() {
        0
    } else {
        count_mat_from(s, i + 1, x) + (if s[i] == x {
            1nat
        } else {
            0nat
        })
    }
}

proof fn lemma_count_mat_le(s: Seq<Material>, i: int, x: Material)
    requires
        0 <= i <= s.len(),
    ensures
        count_mat_from(s, i, x) <= s.len() - i,
    decreases s.len() - i,
{
    if i < s.len() {
        lemma_count_mat_le(s, i + 1, x);
    }
}

proof fn lemma_count_mat_all(s: Seq<Material>, i: int, x: Material)
    requires
        0 <= i <= s.len(),
    ensures
        (count_mat_from(s, i, x) == s.len() - i) <==> (forall|j: int|
            i <= j < s.len() ==> s[j] == x),
    decreases s.len() - i,
{
    if i < s.len() {
        lemma_count_mat_all(s, i + 1, x);
        lemma_count_mat_le(s, i + 1, x);
    }
}

/// Counts the entries of `s` equal to `x`.
fn count_material_eq(s: &Vec<Material>, x: Material) -> (r: usize)
    requires
        s@.len() <= 64,
    ensures
        r == count_mat_from(s@, 0, x),
{
    let mut acc: usize = 0;
    let mut k: usize = 0;
    while k < s.len()
        invariant
            k <= s@.len() <= 64,
            acc <= k,
            acc + count_mat_from(s@, k as int, x) == count_mat_from(s@, 0, x),
        decreases s@.len() - k,
    {
        if s[k] == x {
            acc += 1;
        }
        k += 1;
    }
    acc
}

impl Position {
    /// Returns an optional boolean representing the side in check (`None` if neither side is in check).
    pub fn checked_side(&self) -> (r: Option<bool>)
        ensures
            r == checked_side_spec(*self),
    {
        if king_capture_pseudolegal(&self.content, false) {
            Some(true)
        } else if king_capture_pseudolegal(&self.content, true) {
            Some(false)
        } else {
            None
        }
    }

    /// Checks whether any side is in check (a checkmate is also considered a check).
    pub fn is_check(&self) -> (r: bool)
        ensures
            r == (checked_side_spec(*self) is Some),
    {
        self.checked_side().is_some()
    }

    /// Checks whether any side is in checkmate: a side in check with no legal move.
    pub fn is_checkmate(&self) -> (r: bool)
        ensures
            r == (checked_side_spec(*self) is Some && legal_spec(*self).len() == 0),
    {
        self.is_check() && self.gen_non_illegal_moves().len() == 0
    }

    /// Checks whether the game is drawn by stalemate: no side in check and no legal move.
    pub fn is_stalemate(&self) -> (r: bool)
        ensures
            r == (checked_side_spec(*self) is None && legal_spec(*self).len() == 0),
    {
        !self.is_check() && self.gen_non_illegal_moves().len() == 0
    }

    /// Returns an optional boolean representing the side in stalemate (`None` if neither side is in stalemate).
    pub fn stalemated_side(&self) -> (r: Option<bool>)
        ensures
            r == (if checked_side_spec(*self) is None && legal_spec(*self).len() == 0 {
                Some(self.side)
            } else {
                None::<bool>
            }),
    {
        if self.is_stalemate() {
            Some(self.side)
        } else {
            None
        }
    }

    /// Returns an optional boolean representing the side in checkmate (`None` if neither side is in checkmate).
    pub fn checkmated_side(&self) -> (r: Option<bool>)
        ensures
            r == (if checked_side_spec(*self) is Some && legal_spec(*self).len() == 0 {
                Some(self.side)
            } else {
                None::<bool>
            }),
    {
        if self.is_checkmate() {
            Some(self.side)
        } else {
            None
        }
    }

    /// Counts the material on the board. This function is used by
    /// [`Position::is_insufficient_material`] to determine whether there is
    /// insufficient checkmating material.
    pub fn count_material(&self) -> (r: Vec<Material>)
        ensures
            r@ == material_spec(self.content@),
    {
        let mut material: Vec<Material> = Vec::new();
        let mut sq: usize = 0;
        while sq < 64
            invariant
                sq <= 64,
                material@ == material_upto(self.content@, sq as int),
            decreases 64 - sq,
        {
            match self.content[sq] {
                Occupant::Piece(p) => match p.piece_type() {
                    PieceType::K => {},
                    PieceType::N => material.push(Material::Knight),
                    PieceType::B => material.push(Material::Bishop(color_complex_of(sq))),
                    _ => material.push(Material::Other),
                },
                Occupant::Empty => {},
            }
            proof {
                assert(material@ =~= material_upto(self.content@, sq + 1));
            }
            sq += 1;
        }
        material
    }

    /// Checks whether the board holds insufficient checkmating material: no
    /// material, a lone knight, or only same-complex bishops.
    pub fn is_insufficient_material(&self) -> (r: bool)
        ensures
            r == insufficient_spec(material_spec(self.content@)),
    {
        let material = self.count_material();
        proof {
            lemma_material_len(self.content@, 64);
        }
        if material.len() == 0 {
            return true;
        }
        if material.len() == 1 && matches!(material[0], Material::Knight) {
            return true;
        }
        let n = material.len();
        let light = count_material_eq(&material, Material::Bishop(true));
        let dark = count_material_eq(&material, Material::Bishop(false));
        proof {
            lemma_count_mat_all(material@, 0, Material::Bishop(true));
            lemma_count_mat_all(material@, 0, Material::Bishop(false));
        }
        light == n || dark == n
    }
}

proof fn lemma_material_len(c: Seq<Occupant>, n: int)
    requires
        0 <= n <= 64,
    ensures
        material_upto(c, n).len() <= n,
    decreases n,
{
    if n > 0 {
        lemma_material_len(c, n - 1);
    }
}

} // verus!
