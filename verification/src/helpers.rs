//! Square-index arithmetic: the bidirectional mapping between square
//! indices (`0..64`, a1 = 0, h8 = 63) and square names (file letter, rank digit).
use vstd::prelude::*;

verus! {

/// The file letter of square index `idx`: `'a'` for file 0 through `'h'` for file 7.
pub open spec fn file_char(idx: int) -> char {
    (97 + (idx % 8)) as char
}

/// The rank digit of square index `idx`: `'1'` for rank 0 through `'8'` for rank 7.
pub open spec fn rank_char(idx: int) -> char {
    (49 + (idx / 8)) as char
}

/// Whether `file` and `rank` form a valid square name (`'a'..='h'` and `'1'..='8'`).
pub open spec fn valid_sq_name(file: char, rank: char) -> bool {
    97 <= file as int <= 104 && 49 <= rank as int <= 56
}

/// The square index named by `file` and `rank`.
pub open spec fn sq_idx(file: char, rank: char) -> int {
    (file as int - 97) + 8 * (rank as int - 49)
}

/// The name of a square index names that square index back: the file/rank
/// mapping of `0..64` and the square-name mapping are exact inverses.
pub proof fn lemma_sq_name_round_trip(idx: int)
    requires
        0 <= idx < 64,
    ensures
        valid_sq_name(file_char(idx), rank_char(idx)),
        sq_idx(file_char(idx), rank_char(idx)) == idx,
{
    assert(0 <= idx % 8 < 8 && 0 <= idx / 8 < 8 && idx % 8 + 8 * (idx / 8) == idx) by (nonlinear_arith)
        requires
            0 <= idx < 64,
    ;
}

/// Relies on `Iterator::collect` for `String`: the returned string holds
/// exactly the characters of `v`, in order.
#[verifier::external_body]
pub(crate) fn chars_to_string(v: &Vec<char>) -> (s: String)
    ensures
        s@ == v@,
{
    v.iter().collect()
}

/// Collects the characters of a string slice into a vector.
pub(crate) fn str_to_chars(s: &str) -> (v: Vec<char>)
    ensures
        v@ == s@,
{
    let n = s.unicode_len();
    let mut v: Vec<char> = Vec::new();
    let mut i: usize = 0;
    while i < n
        invariant
            i <= n,
            n == s@.len(),
            v@ == s@.subrange(0, i as int),
        decreases n - i,
    {
        let c = s.get_char(i);
        v.push(c);
        proof {
            assert(s@.subrange(0, i + 1 as int) =~= s@.subrange(0, i as int).push(s@[i as int]));
        }
        i += 1;
    }
    proof {
        assert(v@ =~= s@);
    }
    v
}

/// Converts a square index to a square name in the format (file, rank).
pub fn idx_to_sq(idx: usize) -> (r: (char, char))
    requires
        idx < 64,
    ensures
        r.0 == file_char(idx as int),
        r.1 == rank_char(idx as int),
        valid_sq_name(r.0, r.1),
        sq_idx(r.0, r.1) == idx,
{
    let file: u8 = 97 + (idx % 8) as u8;
    let rank: u8 = 49 + (idx / 8) as u8;
    (file as char, rank as char)
}

/// Converts a square name to a square index.
pub fn sq_to_idx(file: char, rank: char) -> (r: usize)
    requires
        valid_sq_name(file, rank),
    ensures
        r == sq_idx(file, rank),
        r < 64,
        file_char(r as int) == file,
        rank_char(r as int) == rank,
{
    let f: usize = (file as u8 - 97) as usize;
    let rk: usize = (rank as u8 - 49) as usize;
    f + 8 * rk
}

} // verus!
