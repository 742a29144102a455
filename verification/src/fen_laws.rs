//! The FEN round-trip law: serializing a parsed position reproduces a FEN
//! string that parses back to the identical position and clocks.
use vstd::prelude::*;
use crate::fen::{
    board_field, castling_field, castling_slot_of, dec_capped, dec_chars, digit_char, empty_run,
    ep_field, field_number, parse_rank_from, rank_chars_from,
};
use crate::piece::{char_piece, piece_char, Occupant, Piece};
use crate::position::Position;

verus! {

/// No character of `s` equals `sep`.
pub open spec fn sep_free(s: Seq<char>, sep: char) -> bool {
    forall|j: int| 0 <= j < s.len() ==> s[j] != sep
}

proof fn lemma_piece_char_facts(p: Piece)
    ensures
        char_piece(piece_char(p)) == Some(p),
        piece_char(p) != ' ',
        piece_char(p) != '/',
        piece_char(p) != '-',
        piece_char(p) != '0',
        piece_char(p) != '9',
        !(49 <= piece_char(p) as int <= 56),
{
    match p.0 {
        crate::piece::PieceType::K => {
            match p.1 {
                crate::Color::White => {},
                crate::Color::Black => {},
            }
        },
        crate::piece::PieceType::Q => {
            match p.1 {
                crate::Color::White => {},
                crate::Color::Black => {},
            }
        },
        crate::piece::PieceType::B => {
            match p.1 {
                crate::Color::White => {},
                crate::Color::Black => {},
            }
        },
        crate::piece::PieceType::N => {
            match p.1 {
                crate::Color::White => {},
                crate::Color::Black => {},
            }
        },
        crate::piece::PieceType::R => {
            match p.1 {
                crate::Color::White => {},
                crate::Color::Black => {},
            }
        },
        crate::piece::PieceType::P => {
            match p.1 {
                crate::Color::White => {},
                crate::Color::Black => {},
            }
        },
    }
}

proof fn lemma_parse_rank_shift(s: Seq<char>, i: int, acc: Seq<Occupant>)
    requires
        0 <= i <= s.len(),
    ensures
        parse_rank_from(s, i, acc) == parse_rank_from(s.subrange(i, s.len() as int), 0, acc),
    decreases s.len() - i,
{
    let t = s.subrange(i, s.len() as int);
    if i < s.len() {
        assert(t[0] == s[i]);
        let ch = s[i];
        if !(ch == '0' || ch == '9') {
            if 49 <= ch as int <= 56 {
                let n = ch as int - 48;
                if acc.len() + n <= 8 {
                    lemma_parse_rank_shift(s, i + 1, acc + empty_run(n));
                    lemma_parse_rank_shift(t, 1, acc + empty_run(n));
                    assert(t.subrange(1, t.len() as int) =~= s.subrange(i + 1, s.len() as int));
                }
            } else {
                match char_piece(ch) {
                    Some(p) => {
                        if acc.len() < 8 {
                            lemma_parse_rank_shift(s, i + 1, acc.push(Occupant::Piece(p)));
                            lemma_parse_rank_shift(t, 1, acc.push(Occupant::Piece(p)));
                            assert(t.subrange(1, t.len() as int) =~= s.subrange(
                                i + 1,
                                s.len() as int,
                            ));
                        }
                    },
                    None => {},
                }
            }
        }
    } else {
        assert(t.len() == 0);
    }
}

proof fn lemma_rank_encode_rt(c: Seq<Occupant>, base: int, f: int, pending: int, acc: Seq<Occupant>)
    requires
        0 <= pending <= f <= 8,
        0 <= base,
        base + 8 <= c.len(),
        acc.len() + pending == f,
        acc + empty_run(pending) == c.subrange(base, base + f),
    ensures
        parse_rank_from(rank_chars_from(c, base, f, pending), 0, acc) == Ok::<_, crate::fen::FenError>(
            c.subrange(base, base + 8),
        ),
    decreases 8 - f,
{
    let s = rank_chars_from(c, base, f, pending);
    if f >= 8 {
        if pending > 0 {
            let d = digit_char(pending);
            assert(49 <= d as int <= 56);
            assert(d as int - 48 == pending);
            assert(d != '0' && d != '9');
            assert(s == seq![d]);
            assert(s[0] == d);
            let acc2 = acc + empty_run(pending);
            assert(parse_rank_from(s, 0, acc) == parse_rank_from(s, 1, acc2));
            assert(acc2.len() == 8);
            assert(parse_rank_from(s, 1, acc2) == Ok::<_, crate::fen::FenError>(acc2));
            assert(acc2 == c.subrange(base, base + 8));
        } else {
            assert(s.len() == 0);
            assert(acc.len() == 8);
            assert(acc =~= c.subrange(base, base + 8));
        }
    } else {
        match c[base + f] {
            Occupant::Piece(p) => {
                lemma_piece_char_facts(p);
                let pre: Seq<char> = if pending > 0 {
                    seq![digit_char(pending)]
                } else {
                    Seq::empty()
                };
                let rest = rank_chars_from(c, base, f + 1, 0);
                assert(s == pre + seq![piece_char(p)] + rest);
                let acc2 = acc + empty_run(pending);
                assert(acc2.len() == f);
                let acc3 = acc2.push(Occupant::Piece(p));
                assert(acc3 =~= c.subrange(base, base + (f + 1))) by {
                    assert(acc2 =~= c.subrange(base, base + f));
                    assert(c.subrange(base, base + (f + 1)) =~= c.subrange(base, base + f).push(
                        c[base + f],
                    ));
                }
                if pending > 0 {
                    let d = digit_char(pending);
                    assert(49 <= d as int <= 56 && d != '0' && d != '9');
                    assert(d as int - 48 == pending);
                    assert(s[0] == d);
                    assert(acc.len() + pending <= 8);
                    assert(parse_rank_from(s, 0, acc) == parse_rank_from(s, 1, acc2));
                    assert(s[1] == piece_char(p));
                    assert(acc2.len() < 8);
                    assert(parse_rank_from(s, 1, acc2) == parse_rank_from(s, 2, acc3));
                    lemma_parse_rank_shift(s, 2, acc3);
                    assert(s.subrange(2, s.len() as int) =~= rest);
                } else {
                    assert(s[0] == piece_char(p));
                    assert(acc2 =~= acc);
                    assert(acc.len() < 8);
                    assert(parse_rank_from(s, 0, acc) == parse_rank_from(s, 1, acc.push(
                        Occupant::Piece(p),
                    )));
                    assert(acc.push(Occupant::Piece(p)) =~= acc3);
                    lemma_parse_rank_shift(s, 1, acc3);
                    assert(s.subrange(1, s.len() as int) =~= rest);
                }
                lemma_rank_encode_rt(c, base, f + 1, 0, acc3);
            },
            Occupant::Empty => {
                assert(s == rank_chars_from(c, base, f + 1, pending + 1));
                let acc2 = acc + empty_run(pending + 1);
                assert(acc2 =~= c.subrange(base, base + (f + 1))) by {
                    assert(acc + empty_run(pending) =~= c.subrange(base, base + f));
                    assert(c.subrange(base, base + (f + 1)) =~= c.subrange(base, base + f).push(
                        c[base + f],
                    ));
                    assert(empty_run(pending + 1) =~= empty_run(pending).push(Occupant::Empty));
                }
                lemma_rank_encode_rt(c, base, f + 1, pending + 1, acc);
            },
        }
    }
}

/// Run-length round trip: decoding the encoding of any board rank yields
/// exactly that rank's eight squares.
pub proof fn lemma_rank_round_trip(c: Seq<Occupant>, base: int)
    requires
        0 <= base,
        base + 8 <= c.len(),
    ensures
        parse_rank_from(rank_chars_from(c, base, 0, 0), 0, Seq::empty()) == Ok::<
            _,
            crate::fen::FenError,
        >(c.subrange(base, base + 8)),
{
    assert(Seq::<Occupant>::empty() + empty_run(0) =~= c.subrange(base, base));
    lemma_rank_encode_rt(c, base, 0, 0, Seq::empty());
}


proof fn lemma_split_shift(s: Seq<char>, i: int, cur: Seq<char>, sep: char)
    requires
        0 <= i <= s.len(),
    ensures
        crate::fen::split_acc(s, i, cur, sep) == crate::fen::split_acc(
            s.subrange(i, s.len() as int),
            0,
            cur,
            sep,
        ),
    decreases s.len() - i,
{
    let t = s.subrange(i, s.len() as int);
    if i < s.len() {
        assert(t[0] == s[i]);
        if s[i] == sep {
            lemma_split_shift(s, i + 1, Seq::empty(), sep);
            lemma_split_shift(t, 1, Seq::empty(), sep);
            assert(t.subrange(1, t.len() as int) =~= s.subrange(i + 1, s.len() as int));
        } else {
            lemma_split_shift(s, i + 1, cur.push(s[i]), sep);
            lemma_split_shift(t, 1, cur.push(s[i]), sep);
            assert(t.subrange(1, t.len() as int) =~= s.subrange(i + 1, s.len() as int));
        }
    } else {
        assert(t.len() == 0);
    }
}

proof fn lemma_split_single(x: Seq<char>, cur: Seq<char>, sep: char)
    requires
        sep_free(x, sep),
    ensures
        crate::fen::split_acc(x, 0, cur, sep) == seq![cur + x],
    decreases x.len(),
{
    if x.len() == 0 {
        assert(cur + x =~= cur);
    } else {
        assert(x[0] != sep);
        lemma_split_shift(x, 1, cur.push(x[0]), sep);
        let x1 = x.subrange(1, x.len() as int);
        assert(sep_free(x1, sep));
        lemma_split_single(x1, cur.push(x[0]), sep);
        assert(cur.push(x[0]) + x1 =~= cur + x);
    }
}

proof fn lemma_split_prefix(x: Seq<char>, y: Seq<char>, cur: Seq<char>, sep: char)
    requires
        sep_free(x, sep),
    ensures
        crate::fen::split_acc(x + seq![sep] + y, 0, cur, sep) == seq![cur + x]
            + crate::fen::split_acc(y, 0, Seq::empty(), sep),
    decreases x.len(),
{
    let s = x + seq![sep] + y;
    if x.len() == 0 {
        assert(s[0] == sep);
        lemma_split_shift(s, 1, Seq::empty(), sep);
        assert(s.subrange(1, s.len() as int) =~= y);
        assert(cur + x =~= cur);
    } else {
        assert(s[0] == x[0]);
        assert(x[0] != sep);
        lemma_split_shift(s, 1, cur.push(x[0]), sep);
        let x1 = x.subrange(1, x.len() as int);
        assert(s.subrange(1, s.len() as int) =~= x1 + seq![sep] + y);
        assert(sep_free(x1, sep));
        lemma_split_prefix(x1, y, cur.push(x[0]), sep);
        assert(cur.push(x[0]) + x1 =~= cur + x);
    }
}

proof fn lemma_rank_chars_free(c: Seq<Occupant>, base: int, f: int, pending: int)
    requires
        0 <= pending <= f <= 8,
    ensures
        sep_free(rank_chars_from(c, base, f, pending), ' '),
        sep_free(rank_chars_from(c, base, f, pending), '/'),
    decreases 8 - f,
{
    let s = rank_chars_from(c, base, f, pending);
    if f >= 8 {
        if pending > 0 {
            assert(digit_char(pending) as int == 48 + pending);
        }
    } else {
        match c[base + f] {
            Occupant::Piece(p) => {
                lemma_piece_char_facts(p);
                if pending > 0 {
                    assert(digit_char(pending) as int == 48 + pending);
                }
                lemma_rank_chars_free(c, base, f + 1, 0);
                let pre: Seq<char> = if pending > 0 {
                    seq![digit_char(pending)]
                } else {
                    Seq::empty()
                };
                let rest = rank_chars_from(c, base, f + 1, 0);
                assert(s == pre + seq![piece_char(p)] + rest);
                assert forall|j: int| 0 <= j < s.len() implies s[j] != ' ' && s[j] != '/' by {
                    if j < pre.len() {
                        assert(s[j] == pre[j]);
                    } else if j == pre.len() {
                        assert(s[j] == piece_char(p));
                    } else {
                        assert(s[j] == rest[j - pre.len() - 1]);
                    }
                }
            },
            Occupant::Empty => {
                lemma_rank_chars_free(c, base, f + 1, pending + 1);
            },
        }
    }
}

/// The board-field ranks of `c`, topmost first, as parsed rank contents.
pub open spec fn board_ranks(c: Seq<Occupant>, r: int) -> Seq<Seq<Occupant>>
    decreases r,
{
    if r <= 0 {
        Seq::empty()
    } else {
        seq![c.subrange(8 * (r - 1), 8 * (r - 1) + 8)] + board_ranks(c, r - 1)
    }
}

proof fn lemma_board_split(c: Seq<Occupant>, r: int)
    requires
        1 <= r <= 8,
        c.len() == 64,
    ensures
        crate::fen::split_acc(crate::fen::board_chars_down(c, r), 0, Seq::empty(), '/')
            =~= Seq::new(r as nat, |j: int| rank_chars_from(c, 8 * (r - 1 - j), 0, 0)),
    decreases r,
{
    let s = crate::fen::board_chars_down(c, r);
    if r == 1 {
        lemma_rank_chars_free(c, 0, 0, 0);
        lemma_split_single(rank_chars_from(c, 0, 0, 0), Seq::empty(), '/');
        assert(Seq::<char>::empty() + rank_chars_from(c, 0, 0, 0) =~= rank_chars_from(c, 0, 0, 0));
    } else {
        lemma_rank_chars_free(c, 8 * (r - 1), 0, 0);
        lemma_split_prefix(
            rank_chars_from(c, 8 * (r - 1), 0, 0),
            crate::fen::board_chars_down(c, r - 1),
            Seq::empty(),
            '/',
        );
        assert(s =~= rank_chars_from(c, 8 * (r - 1), 0, 0) + seq!['/']
            + crate::fen::board_chars_down(c, r - 1));
        lemma_board_split(c, r - 1);
        assert(Seq::<char>::empty() + rank_chars_from(c, 8 * (r - 1), 0, 0) =~= rank_chars_from(
            c,
            8 * (r - 1),
            0,
            0,
        ));
    }
}

proof fn lemma_board_field_free(c: Seq<Occupant>, r: int)
    requires
        0 <= r <= 8,
    ensures
        sep_free(crate::fen::board_chars_down(c, r), ' '),
    decreases r,
{
    if r > 0 {
        lemma_rank_chars_free(c, 8 * (r - 1), 0, 0);
        lemma_board_field_free(c, r - 1);
    }
}

proof fn lemma_parse_board_ranks(c: Seq<Occupant>, rts: Seq<Seq<char>>, r: int)
    requires
        c.len() == 64,
        0 <= r <= 8,
        rts.len() == r,
        forall|j: int| 0 <= j < r ==> rts[j] == rank_chars_from(c, 8 * (r - 1 - j), 0, 0),
    ensures
        crate::fen::parse_ranks(rts, 0) == Ok::<_, crate::fen::FenError>(board_ranks(c, r)),
    decreases r,
{
    if r > 0 {
        lemma_rank_round_trip(c, 8 * (r - 1));
        assert(rts[0] == rank_chars_from(c, 8 * (r - 1), 0, 0));
        let rest = rts.subrange(1, r);
        assert forall|j: int| 0 <= j < r - 1 implies rest[j] == rank_chars_from(
            c,
            8 * ((r - 1) - 1 - j),
            0,
            0,
        ) by {
            assert(rest[j] == rts[j + 1]);
        }
        lemma_parse_ranks_from_shift(rts, c, r);
        lemma_parse_board_ranks(c, rest, r - 1);
        assert(crate::fen::parse_ranks(rts, 0) == (match crate::fen::parse_ranks(rest, 0) {
            Ok(restv) => Ok::<_, crate::fen::FenError>(
                seq![c.subrange(8 * (r - 1), 8 * (r - 1) + 8)] + restv,
            ),
            Err(e) => Err(e),
        }));
    } else {
        assert(board_ranks(c, 0) =~= Seq::<Seq<Occupant>>::empty());
    }
}

proof fn lemma_parse_ranks_from_shift(rts: Seq<Seq<char>>, c: Seq<Occupant>, r: int)
    requires
        c.len() == 64,
        1 <= r <= 8,
        rts.len() == r,
        rts[0] == rank_chars_from(c, 8 * (r - 1), 0, 0),
    ensures
        crate::fen::parse_ranks(rts, 0) == (match crate::fen::parse_ranks(
            rts.subrange(1, r),
            0,
        ) {
            Ok(restv) => Ok::<_, crate::fen::FenError>(
                seq![c.subrange(8 * (r - 1), 8 * (r - 1) + 8)] + restv,
            ),
            Err(e) => Err(e),
        }),
{
    lemma_rank_round_trip(c, 8 * (r - 1));
    lemma_parse_ranks_tail_shift(rts, 1);
}

proof fn lemma_parse_ranks_tail_shift(rts: Seq<Seq<char>>, i: int)
    requires
        0 <= i <= rts.len(),
    ensures
        crate::fen::parse_ranks(rts, i) == crate::fen::parse_ranks(
            rts.subrange(i, rts.len() as int),
            0,
        ),
    decreases rts.len() - i,
{
    let t = rts.subrange(i, rts.len() as int);
    if i < rts.len() {
        assert(t[0] == rts[i]);
        lemma_parse_ranks_tail_shift(rts, i + 1);
        assert(t.subrange(1, t.len() as int) =~= rts.subrange(i + 1, rts.len() as int));
        lemma_parse_ranks_tail_shift(t, 1);
    }
}

proof fn lemma_assemble_board(c: Seq<Occupant>, j: int)
    requires
        c.len() == 64,
        0 <= j <= 8,
    ensures
        crate::fen::assemble(board_ranks(c, 8), j) =~= c.subrange(0, 8 * j),
    decreases j,
{
    if j > 0 {
        lemma_assemble_board(c, j - 1);
        lemma_board_ranks_index(c, 8, 8 - j);
        assert(board_ranks(c, 8)[8 - j] == c.subrange(8 * (j - 1), 8 * (j - 1) + 8));
    }
}

proof fn lemma_board_ranks_index(c: Seq<Occupant>, r: int, j: int)
    requires
        0 <= j < r <= 8,
    ensures
        board_ranks(c, r).len() == r,
        board_ranks(c, r)[j] == c.subrange(8 * (r - 1 - j), 8 * (r - 1 - j) + 8),
    decreases r,
{
    if j > 0 {
        lemma_board_ranks_index(c, r - 1, j - 1);
    } else {
        lemma_board_ranks_len(c, r - 1);
    }
}

proof fn lemma_board_ranks_len(c: Seq<Occupant>, r: int)
    requires
        0 <= r <= 8,
    ensures
        board_ranks(c, r).len() == r,
    decreases r,
{
    if r > 0 {
        lemma_board_ranks_len(c, r - 1);
    }
}

/// Board-field round trip: splitting and decoding the run-length encoding of
/// a 64-square board reproduces exactly that board.
pub proof fn lemma_board_round_trip(c: Seq<Occupant>)
    requires
        c.len() == 64,
    ensures
        crate::fen::split_sp(board_field(c), '/').len() == 8,
        (crate::fen::parse_ranks(crate::fen::split_sp(board_field(c), '/'), 0) matches Ok(rv)
            && crate::fen::assemble(rv, 8) =~= c),
{
    lemma_board_split(c, 8);
    let rts = crate::fen::split_sp(board_field(c), '/');
    assert(rts =~= Seq::new(8, |j: int| rank_chars_from(c, 8 * (7 - j), 0, 0)));
    lemma_parse_board_ranks(c, rts, 8);
    lemma_assemble_board(c, 8);
    assert(c.subrange(0, 64) =~= c);
}


proof fn lemma_digit_char_facts(d: int)
    requires
        0 <= d <= 9,
    ensures
        48 <= digit_char(d) as int <= 57,
        digit_char(d) as int - 48 == d,
        digit_char(d) != ' ',
{
}

proof fn lemma_dec_append(x: Seq<char>, d: int, i: int, acc: int, cap: int)
    requires
        0 <= d <= 9,
        0 <= i <= x.len(),
    ensures
        dec_capped(x.push(digit_char(d)), i, acc, cap) == (match dec_capped(x, i, acc, cap) {
            Some(v) => Some(
                if v * 10 + d > cap {
                    cap
                } else {
                    v * 10 + d
                },
            ),
            None => None::<int>,
        }),
    decreases x.len() - i,
{
    let y = x.push(digit_char(d));
    lemma_digit_char_facts(d);
    if i < x.len() {
        assert(y[i] == x[i]);
        if 48 <= x[i] as int <= 57 {
            let v = acc * 10 + (x[i] as int - 48);
            lemma_dec_append(x, d, i + 1, if v > cap {
                cap
            } else {
                v
            }, cap);
        }
    } else {
        assert(y[i] == digit_char(d));
        assert(dec_capped(y, i + 1, if acc * 10 + d > cap {
            cap
        } else {
            acc * 10 + d
        }, cap) == Some(
            if acc * 10 + d > cap {
                cap
            } else {
                acc * 10 + d
            },
        ));
    }
}

proof fn lemma_dec_rt(n: int, cap: int)
    requires
        0 <= n <= cap,
    ensures
        dec_chars(n).len() >= 1,
        field_number(dec_chars(n), cap) == Some(n),
    decreases n,
{
    if n < 10 {
        lemma_digit_char_facts(n);
        let s = dec_chars(n);
        assert(s == seq![digit_char(n)]);
        assert(s[0] == digit_char(n));
        assert(dec_capped(s, 1, n, cap) == Some(n));
        assert(dec_capped(s, 0, 0, cap) == Some(n));
    } else {
        lemma_dec_rt(n / 10, cap);
        assert(dec_chars(n) =~= dec_chars(n / 10).push(digit_char(n % 10)));
        lemma_dec_append(dec_chars(n / 10), n % 10, 0, 0, cap);
        assert((n / 10) * 10 + n % 10 == n) by (nonlinear_arith)
            requires
                n >= 0,
        ;
    }
}

proof fn lemma_dec_chars_free(n: int)
    requires
        n >= 0,
    ensures
        sep_free(dec_chars(n), ' '),
    decreases n,
{
    if n < 10 {
        lemma_digit_char_facts(n);
    } else {
        lemma_dec_chars_free(n / 10);
        lemma_digit_char_facts(n % 10);
        assert(dec_chars(n) =~= dec_chars(n / 10).push(digit_char(n % 10)));
        assert forall|j: int| 0 <= j < dec_chars(n).len() implies dec_chars(n)[j] != ' ' by {
            if j < dec_chars(n / 10).len() {
                assert(dec_chars(n)[j] == dec_chars(n / 10)[j]);
            }
        }
    }
}

proof fn lemma_ep_rt(ep: Option<usize>)
    requires
        ep matches Some(t) ==> (16 <= t < 24 || 40 <= t < 48),
    ensures
        crate::fen::parse_ep(ep_field(ep)) == Ok::<_, crate::fen::FenError>(ep),
        sep_free(ep_field(ep), ' '),
{
    match ep {
        Some(t) => {
            crate::helpers::lemma_sq_name_round_trip(t as int);
            let fch = crate::helpers::file_char(t as int);
            let rch = crate::helpers::rank_char(t as int);
            assert(ep_field(ep) == seq![fch, rch]);
            assert(97 <= fch as int <= 104);
            assert(t / 8 == 2 || t / 8 == 5) by (nonlinear_arith)
                requires
                    16 <= t < 24 || 40 <= t < 48,
            ;
            assert(rch == '3' || rch == '6');
            assert(crate::helpers::sq_idx(fch, rch) == t);
        },
        None => {},
    }
}

/// The standard castling letter of a slot, in K, Q, k, q order.
pub open spec fn std_letter(k: int) -> char {
    if k == 0 {
        'K'
    } else if k == 1 {
        'Q'
    } else if k == 2 {
        'k'
    } else {
        'q'
    }
}

/// Every present castling-rights slot records exactly the rook the castling
/// validation would find for it.
pub open spec fn rights_tight(c: Seq<Occupant>, rights: Seq<Option<usize>>) -> bool {
    forall|k: int|
        0 <= k < 4 ==> ((#[trigger] rights[k]) matches Some(r) ==> castling_slot_of(c, k)
            == Ok::<_, crate::fen::FenError>(r))
}

/// The castling letters of the present slots, in K, Q, k, q order, from
/// slot `k` on.
pub open spec fn letters_from(rights: Seq<Option<usize>>, k: int) -> Seq<char>
    decreases 4 - k,
{
    if k >= 4 {
        Seq::empty()
    } else {
        (if rights[k] is Some {
            seq![std_letter(k)]
        } else {
            Seq::empty()
        }) + letters_from(rights, k + 1)
    }
}

proof fn lemma_letters_class(rights: Seq<Option<usize>>, k: int)
    requires
        0 <= k <= 4,
    ensures
        forall|j: int|
            0 <= j < letters_from(rights, k).len() ==> (#[trigger] letters_from(rights, k)[j]
                == 'K' || letters_from(rights, k)[j] == 'Q' || letters_from(rights, k)[j] == 'k'
                || letters_from(rights, k)[j] == 'q'),
    decreases 4 - k,
{
    if k < 4 {
        lemma_letters_class(rights, k + 1);
        let pre: Seq<char> = if rights[k] is Some {
            seq![std_letter(k)]
        } else {
            Seq::empty()
        };
        assert forall|j: int| 0 <= j < letters_from(rights, k).len() implies (#[trigger] letters_from(
            rights,
            k,
        )[j] == 'K' || letters_from(rights, k)[j] == 'Q' || letters_from(rights, k)[j] == 'k'
            || letters_from(rights, k)[j] == 'q') by {
            if j < pre.len() {
                assert(letters_from(rights, k)[j] == std_letter(k));
            } else {
                assert(letters_from(rights, k)[j] == letters_from(rights, k + 1)[j - pre.len()]);
            }
        }
    }
}

proof fn lemma_parse_castling_shift(
    c: Seq<Occupant>,
    s: Seq<char>,
    i: int,
    acc: Seq<Option<usize>>,
)
    requires
        0 <= i <= s.len(),
    ensures
        crate::fen::parse_castling_from(c, s, i, acc) == crate::fen::parse_castling_from(
            c,
            s.subrange(i, s.len() as int),
            0,
            acc,
        ),
    decreases s.len() - i,
{
    let t = s.subrange(i, s.len() as int);
    if i < s.len() {
        assert(t[0] == s[i]);
        let ch = s[i];
        let slot: int = if ch == 'K' {
            0
        } else if ch == 'Q' {
            1
        } else if ch == 'k' {
            2
        } else if ch == 'q' {
            3
        } else {
            -1
        };
        if slot != -1 && !(acc[slot] is Some) {
            match castling_slot_of(c, slot) {
                Ok(r) => {
                    lemma_parse_castling_shift(c, s, i + 1, acc.update(slot, Some(r)));
                    lemma_parse_castling_shift(c, t, 1, acc.update(slot, Some(r)));
                    assert(t.subrange(1, t.len() as int) =~= s.subrange(i + 1, s.len() as int));
                },
                Err(_) => {},
            }
        }
    } else {
        assert(t.len() == 0);
    }
}

proof fn lemma_castle_chain(
    c: Seq<Occupant>,
    rights: Seq<Option<usize>>,
    k: int,
    acc: Seq<Option<usize>>,
)
    requires
        0 <= k <= 4,
        rights.len() == 4,
        acc.len() == 4,
        rights_tight(c, rights),
        forall|j: int| 0 <= j < k ==> acc[j] == rights[j],
        forall|j: int| k <= j < 4 ==> acc[j] is None,
    ensures
        crate::fen::parse_castling_from(c, letters_from(rights, k), 0, acc) == Ok::<
            _,
            crate::fen::FenError,
        >(rights),
    decreases 4 - k,
{
    if k >= 4 {
        assert(acc =~= rights);
    } else {
        let s = letters_from(rights, k);
        match rights[k] {
            Some(r) => {
                assert(castling_slot_of(c, k) == Ok::<_, crate::fen::FenError>(r));
                assert(s == seq![std_letter(k)] + letters_from(rights, k + 1));
                assert(s[0] == std_letter(k));
                let acc2 = acc.update(k, Some(r));
                assert(acc[k] is None);
                assert(crate::fen::parse_castling_from(c, s, 0, acc)
                    == crate::fen::parse_castling_from(c, s, 1, acc2));
                lemma_parse_castling_shift(c, s, 1, acc2);
                assert(s.subrange(1, s.len() as int) =~= letters_from(rights, k + 1));
                lemma_castle_chain(c, rights, k + 1, acc2);
            },
            None => {
                assert(s =~= letters_from(rights, k + 1));
                lemma_castle_chain(c, rights, k + 1, acc);
            },
        }
    }
}

proof fn lemma_castling_field_shape(c: Seq<Occupant>, rights: Seq<Option<usize>>)
    requires
        rights.len() == 4,
        rights_tight(c, rights),
    ensures
        castling_field(c, rights) == (if rights[0] is None && rights[1] is None && rights[2]
            is None && rights[3] is None {
            seq!['-']
        } else {
            letters_from(rights, 0)
        }),
{
    let wk = crate::position::first_occ_from(c, 0, crate::position::king_of(true));
    let bk = crate::position::first_occ_from(c, 0, crate::position::king_of(false));
    assert forall|k: int| 0 <= k < 4 implies crate::fen::castling_letter(
        c,
        rights[k],
        std_letter(k),
        crate::fen::castling_range(c, k).0,
        crate::fen::castling_range(c, k).1,
        k < 2,
    ) == (if rights[k] is Some {
        seq![std_letter(k)]
    } else {
        Seq::<char>::empty()
    }) by {
        match rights[k] {
            Some(r) => {
                assert(castling_slot_of(c, k) == Ok::<_, crate::fen::FenError>(r));
            },
            None => {},
        }
    }
    let l0 = crate::fen::castling_letter(c, rights[0], 'K', wk + 1, 8, true);
    let l1 = crate::fen::castling_letter(c, rights[1], 'Q', 0, wk, true);
    let l2 = crate::fen::castling_letter(c, rights[2], 'k', bk + 1, 64, false);
    let l3 = crate::fen::castling_letter(c, rights[3], 'q', 56, bk, false);
    let p0: Seq<char> = if rights[0] is Some {
        seq![std_letter(0)]
    } else {
        Seq::empty()
    };
    let p1: Seq<char> = if rights[1] is Some {
        seq![std_letter(1)]
    } else {
        Seq::empty()
    };
    let p2: Seq<char> = if rights[2] is Some {
        seq![std_letter(2)]
    } else {
        Seq::empty()
    };
    let p3: Seq<char> = if rights[3] is Some {
        seq![std_letter(3)]
    } else {
        Seq::empty()
    };
    assert(crate::fen::castling_range(c, 0) == (wk + 1, 8int));
    assert(crate::fen::castling_range(c, 1) == (0int, wk));
    assert(crate::fen::castling_range(c, 2) == (bk + 1, 64int));
    assert(crate::fen::castling_range(c, 3) == (56int, bk));
    assert(l0 == p0);
    assert(l1 == p1);
    assert(l2 == p2);
    assert(l3 == p3);
    assert(letters_from(rights, 4) =~= Seq::<char>::empty());
    assert(letters_from(rights, 3) =~= p3);
    assert(letters_from(rights, 2) =~= p2 + p3);
    assert(letters_from(rights, 1) =~= p1 + p2 + p3);
    assert(letters_from(rights, 0) =~= p0 + p1 + p2 + p3);
    assert(letters_from(rights, 0) =~= l0 + l1 + l2 + l3);
    if rights[0] is None && rights[1] is None && rights[2] is None && rights[3] is None {
        assert(letters_from(rights, 0).len() == 0);
        assert((l0 + l1 + l2 + l3).len() == 0);
    } else {
        assert(letters_from(rights, 0).len() > 0);
    }
}

proof fn lemma_castling_round_trip(c: Seq<Occupant>, rights: Seq<Option<usize>>)
    requires
        rights.len() == 4,
        rights_tight(c, rights),
    ensures
        crate::fen::parse_castling(c, castling_field(c, rights)) == Ok::<
            _,
            crate::fen::FenError,
        >(rights),
        sep_free(castling_field(c, rights), ' '),
{
    lemma_castling_field_shape(c, rights);
    lemma_letters_class(rights, 0);
    let f = castling_field(c, rights);
    if rights[0] is None && rights[1] is None && rights[2] is None && rights[3] is None {
        assert(f == seq!['-']);
        assert(rights =~= crate::fen::no_rights4());
    } else {
        assert(f == letters_from(rights, 0));
        assert(f.len() > 0);
        if f.len() == 1 {
            assert(f[0] != '-');
        }
        assert(forall|j: int| 0 <= j < 4 ==> crate::fen::no_rights4()[j] is None);
        lemma_castle_chain(c, rights, 0, crate::fen::no_rights4());
    }
    assert forall|j: int| 0 <= j < f.len() implies f[j] != ' ' by {}
}


proof fn lemma_dec_nonneg(s: Seq<char>, i: int, acc: int, cap: int)
    requires
        acc >= 0,
        cap >= 0,
        0 <= i <= s.len(),
    ensures
        dec_capped(s, i, acc, cap) matches Some(v) ==> v >= 0,
    decreases s.len() - i,
{
    if i < s.len() {
        if 48 <= s[i] as int <= 57 {
            let v = acc * 10 + (s[i] as int - 48);
            lemma_dec_nonneg(s, i + 1, if v > cap {
                cap
            } else {
                v
            }, cap);
        }
    }
}

proof fn lemma_parse_castling_tight(
    c: Seq<Occupant>,
    fs: Seq<char>,
    i: int,
    acc: Seq<Option<usize>>,
)
    requires
        acc.len() == 4,
        rights_tight(c, acc),
    ensures
        crate::fen::parse_castling_from(c, fs, i, acc) matches Ok(rr) ==> rr.len() == 4
            && rights_tight(c, rr),
    decreases fs.len() - i,
{
    if !(i < 0 || i >= fs.len()) {
        let ch = fs[i];
        let slot: int = if ch == 'K' {
            0
        } else if ch == 'Q' {
            1
        } else if ch == 'k' {
            2
        } else if ch == 'q' {
            3
        } else {
            -1
        };
        if slot != -1 && !(acc[slot] is Some) {
            match castling_slot_of(c, slot) {
                Ok(r) => {
                    let acc2 = acc.update(slot, Some(r));
                    assert(rights_tight(c, acc2));
                    lemma_parse_castling_tight(c, fs, i + 1, acc2);
                },
                Err(_) => {},
            }
        }
    }
}

/// Every successful parse yields 64 squares, one king per color, justified
/// and tightly recorded castling rights, an en-passant target on the third
/// or sixth rank, and clocks in their documented ranges.
pub proof fn lemma_parse_fen_props(s: Seq<char>)
    requires
        crate::fen::parse_fen_spec(s) is Ok,
    ensures
        crate::fen::parse_fen_spec(s) matches Ok(pf) ==> {
            &&& pf.content.len() == 64
            &&& crate::position::count_occ(pf.content, crate::position::king_of(true)) == 1
            &&& crate::position::count_occ(pf.content, crate::position::king_of(false)) == 1
            &&& pf.rights.len() == 4
            &&& rights_tight(pf.content, pf.rights)
            &&& (pf.ep matches Some(t) ==> (16 <= t < 24 || 40 <= t < 48))
            &&& 0 <= pf.halfmove <= 150
            &&& 1 <= pf.fullmove < crate::fen::fullmove_cap()
        },
{
    let fields = crate::fen::split_sp(s, ' ');
    let rts = crate::fen::split_sp(fields[0], '/');
    match crate::fen::parse_ranks(rts, 0) {
        Ok(rv) => {
            crate::fen::lemma_parse_ranks_shape(rts, 0);
            crate::fen::lemma_assemble_len(rv, 8);
            let content = crate::fen::assemble(rv, 8);
            match crate::fen::parse_castling(content, fields[2]) {
                Ok(_) => {
                    assert(forall|j: int|
                        0 <= j < 4 ==> crate::fen::no_rights4()[j] is None);
                    assert(rights_tight(content, crate::fen::no_rights4()));
                    lemma_parse_castling_tight(content, fields[2], 0, crate::fen::no_rights4());
                },
                Err(_) => {},
            }
            match crate::fen::field_number(fields[4], 151) {
                Some(_) => {
                    lemma_dec_nonneg(fields[4], 0, 0, 151);
                },
                None => {},
            }
            match crate::fen::field_number(fields[5], crate::fen::fullmove_cap()) {
                Some(_) => {
                    lemma_dec_nonneg(fields[5], 0, 0, crate::fen::fullmove_cap());
                },
                None => {},
            }
        },
        Err(_) => {},
    }
}

/// FEN round trip: serializing the components of any successfully parsed
/// FEN string yields a string that parses back to exactly the same board
/// content, side to move, castling rights, en-passant target and clocks.
#[verifier::rlimit(100)]
#[verifier::spinoff_prover]
pub proof fn lemma_fen_round_trip(
    c: Seq<Occupant>,
    side: bool,
    rights: Seq<Option<usize>>,
    ep: Option<usize>,
    hm: int,
    fm: int,
)
    requires
        c.len() == 64,
        crate::position::count_occ(c, crate::position::king_of(true)) == 1,
        crate::position::count_occ(c, crate::position::king_of(false)) == 1,
        rights.len() == 4,
        rights_tight(c, rights),
        ep matches Some(t) ==> (16 <= t < 24 || 40 <= t < 48),
        0 <= hm <= 150,
        1 <= fm < crate::fen::fullmove_cap(),
    ensures
        crate::fen::parse_fen_spec(crate::fen::fen_chars_c(c, side, rights, ep, hm, fm)) == Ok::<
            _,
            crate::fen::FenError,
        >(
            crate::fen::ParsedFen { content: c, side, rights, ep, halfmove: hm, fullmove: fm },
        ),
{
    let s = crate::fen::fen_chars_c(c, side, rights, ep, hm, fm);
    let bf = board_field(c);
    let sidef: Seq<char> = seq![
        if side {
            'w'
        } else {
            'b'
        },
    ];
    let cf = castling_field(c, rights);
    let ef = ep_field(ep);
    let hf = dec_chars(hm);
    let ff = dec_chars(fm);
    lemma_board_field_free(c, 8);
    lemma_castling_round_trip(c, rights);
    lemma_ep_rt(ep);
    lemma_dec_rt(hm, 151);
    lemma_dec_rt(fm, crate::fen::fullmove_cap());
    lemma_dec_chars_free(hm);
    lemma_dec_chars_free(fm);
    let rest1 = sidef + seq![' '] + cf + seq![' '] + ef + seq![' '] + hf + seq![' '] + ff;
    let rest2 = cf + seq![' '] + ef + seq![' '] + hf + seq![' '] + ff;
    let rest3 = ef + seq![' '] + hf + seq![' '] + ff;
    let rest4 = hf + seq![' '] + ff;
    assert(s =~= bf + seq![' '] + rest1);
    lemma_split_prefix(bf, rest1, Seq::empty(), ' ');
    assert(rest1 =~= sidef + seq![' '] + rest2);
    lemma_split_prefix(sidef, rest2, Seq::empty(), ' ');
    assert(rest2 =~= cf + seq![' '] + rest3);
    lemma_split_prefix(cf, rest3, Seq::empty(), ' ');
    assert(rest3 =~= ef + seq![' '] + rest4);
    lemma_split_prefix(ef, rest4, Seq::empty(), ' ');
    lemma_split_prefix(hf, ff, Seq::empty(), ' ');
    lemma_split_single(ff, Seq::empty(), ' ');
    let fields = crate::fen::split_sp(s, ' ');
    assert(Seq::<char>::empty() + bf =~= bf);
    assert(Seq::<char>::empty() + sidef =~= sidef);
    assert(Seq::<char>::empty() + cf =~= cf);
    assert(Seq::<char>::empty() + ef =~= ef);
    assert(Seq::<char>::empty() + hf =~= hf);
    assert(Seq::<char>::empty() + ff =~= ff);
    assert(fields =~= seq![bf, sidef, cf, ef, hf, ff]);
    assert(fields.len() == 6);
    assert(fields[0] == bf && fields[1] == sidef && fields[2] == cf && fields[3] == ef
        && fields[4] == hf && fields[5] == ff);
    lemma_board_round_trip(c);
    let rts = crate::fen::split_sp(bf, '/');
    match crate::fen::parse_ranks(rts, 0) {
        Ok(rv) => {
            let content = crate::fen::assemble(rv, 8);
            assert(content == c);
            assert(crate::fen::parse_side(sidef) == Ok::<_, crate::fen::FenError>(side));
            assert(crate::fen::parse_castling(content, cf) == Ok::<_, crate::fen::FenError>(
                rights,
            ));
            assert(crate::fen::parse_ep(ef) == Ok::<_, crate::fen::FenError>(ep));
            assert(crate::fen::field_number(hf, 151) == Some(hm));
            assert(crate::fen::field_number(ff, crate::fen::fullmove_cap()) == Some(fm));
        },
        Err(_) => {
            assert(false);
        },
    }
}

/// Round trip of the codec itself: for every FEN string the codec accepts,
/// serializing the parse result reproduces a FEN string that parses back to
/// the identical position and clocks.
pub proof fn lemma_fen_parse_serialize_round_trip(s: Seq<char>)
    requires
        crate::fen::parse_fen_spec(s) is Ok,
    ensures
        crate::fen::parse_fen_spec(s) matches Ok(pf) ==> crate::fen::parse_fen_spec(
            crate::fen::fen_chars_c(pf.content, pf.side, pf.rights, pf.ep, pf.halfmove, pf.fullmove),
        ) == Ok::<_, crate::fen::FenError>(pf),
{
    lemma_parse_fen_props(s);
    match crate::fen::parse_fen_spec(s) {
        Ok(pf) => {
            lemma_fen_round_trip(pf.content, pf.side, pf.rights, pf.ep, pf.halfmove, pf.fullmove);
        },
        Err(_) => {},
    }
}

/// The serialized six fields of a position value agree with the serialized
/// six fields of its components.
pub proof fn lemma_fen_chars_c_agrees(p: Position, hm: int, fm: int)
    ensures
        crate::fen::fen_chars(p, hm, fm) == crate::fen::fen_chars_c(
            p.content@,
            p.side,
            p.castling_rights@,
            p.ep_target,
            hm,
            fm,
        ),
{
    assert(crate::fen::fen_chars(p, hm, fm) =~= crate::fen::fen_chars_c(
        p.content@,
        p.side,
        p.castling_rights@,
        p.ep_target,
        hm,
        fm,
    ));
}

} // verus!
