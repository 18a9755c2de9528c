//! Laws of the position text: writing a board and reading it back gives
//! the board again, and "-" fields set nothing.
use crate::board::BoardModel;
use crate::fen::{
    decimal, decode, decode_castlings, decode_en_passant, decode_number, decode_placement,
    decode_rank, decode_turn, digits_value, empties, encode, encode_castlings, encode_en_passant,
    encode_placement, encode_rank, encode_turn, fields_of, flag_text, is_decimal_digit,
    is_run_digit, is_sep, is_space, join, rank_scan, rank_text_scan, rank_texts, run_text, split,
    split_scan, split_step, FenError, SplitState,
};
use crate::piece::{piece_of_char, Piece};
use crate::{parse_square, Color};
use vstd::prelude::*;

verus! {

/// No byte of `s` is white space.
pub open spec fn no_space(s: Seq<u8>) -> bool {
    forall|i: int| 0 <= i < s.len() ==> !is_space(#[trigger] s[i])
}

/// No byte of `s` separates fields of the given split.
pub open spec fn no_sep(s: Seq<u8>, spaces: bool) -> bool {
    forall|i: int| 0 <= i < s.len() ==> !is_sep(#[trigger] s[i], spaces)
}

proof fn lemma_split_scan_append(st: SplitState, x: Seq<u8>, y: Seq<u8>, spaces: bool)
    ensures
        split_scan(st, x + y, spaces) == split_scan(split_scan(st, x, spaces), y, spaces),
    decreases y.len(),
{
    if y.len() == 0 {
        assert(x + y =~= x);
    } else {
        assert((x + y).drop_last() =~= x + y.drop_last());
        lemma_split_scan_append(st, x, y.drop_last(), spaces);
    }
}

proof fn lemma_split_scan_plain(st: SplitState, x: Seq<u8>, spaces: bool)
    requires
        no_sep(x, spaces),
    ensures
        split_scan(st, x, spaces) == (st.0 + x, st.1),
    decreases x.len(),
{
    if x.len() == 0 {
        assert(st.0 + x =~= st.0);
    } else {
        lemma_split_scan_plain(st, x.drop_last(), spaces);
        assert(st.0 + x.drop_last() + seq![x.last()] =~= st.0 + x);
        assert((st.0 + x.drop_last()).push(x.last()) =~= st.0 + x);
    }
}

proof fn lemma_split_scan_join(parts: Seq<Seq<u8>>, sep: u8, spaces: bool)
    requires
        parts.len() >= 1,
        is_sep(sep, spaces),
        forall|k: int| 0 <= k < parts.len() ==> no_sep(#[trigger] parts[k], spaces),
    ensures
        split_scan((seq![], seq![]), join(parts, sep), spaces) == (parts.last(), parts.drop_last()),
    decreases parts.len(),
{
    let e: SplitState = (seq![], seq![]);
    if parts.len() == 1 {
        lemma_split_scan_plain(e, parts[0], spaces);
        assert(e.0 + parts[0] =~= parts[0]);
        assert(parts.drop_last() =~= seq![]);
    } else {
        let init = parts.drop_last();
        assert forall|k: int| 0 <= k < init.len() implies no_sep(#[trigger] init[k], spaces) by {
            assert(init[k] == parts[k]);
        }
        lemma_split_scan_join(init, sep, spaces);
        let a = join(init, sep);
        lemma_split_scan_append(e, a + seq![sep], parts.last(), spaces);
        lemma_split_scan_append(e, a, seq![sep], spaces);
        assert(seq![sep].drop_last() =~= seq![]);
        let st0 = split_scan(e, a, spaces);
        assert(st0 == (init.last(), init.drop_last()));
        assert(split_scan(st0, seq![sep], spaces) == split_step(
            split_scan(st0, seq![sep].drop_last(), spaces),
            sep,
            spaces,
        ));
        let mid = split_scan(e, a + seq![sep], spaces);
        assert(mid == (Seq::<u8>::empty(), init.drop_last().push(init.last())));
        assert(init.drop_last().push(init.last()) =~= init);
        lemma_split_scan_plain(mid, parts.last(), spaces);
        assert(mid.0 + parts.last() =~= parts.last());
    }
}

/// Splitting the join of separator-free parts gives the parts back.
proof fn lemma_split_join(parts: Seq<Seq<u8>>, sep: u8, spaces: bool)
    requires
        parts.len() >= 1,
        is_sep(sep, spaces),
        forall|k: int| 0 <= k < parts.len() ==> no_sep(#[trigger] parts[k], spaces),
    ensures
        split(join(parts, sep), spaces) == parts,
{
    lemma_split_scan_join(parts, sep, spaces);
    assert(parts.drop_last().push(parts.last()) =~= parts);
}

proof fn lemma_join_no_space(parts: Seq<Seq<u8>>, sep: u8)
    requires
        !is_space(sep),
        forall|k: int| 0 <= k < parts.len() ==> no_space(#[trigger] parts[k]),
    ensures
        no_space(join(parts, sep)),
    decreases parts.len(),
{
    if parts.len() > 1 {
        let init = parts.drop_last();
        assert forall|k: int| 0 <= k < init.len() implies no_space(#[trigger] init[k]) by {
            assert(init[k] == parts[k]);
        }
        lemma_join_no_space(init, sep);
        let j = join(parts, sep);
        let a = join(init, sep);
        assert forall|i: int| 0 <= i < j.len() implies !is_space(#[trigger] j[i]) by {
            if i < a.len() {
                assert(j[i] == a[i]);
            } else if i == a.len() {
                assert(j[i] == sep);
            } else {
                assert(j[i] == parts.last()[i - a.len() - 1]);
            }
        }
    } else if parts.len() == 1 {
        assert(parts[0] == parts[0]);
    }
}

proof fn lemma_letter_decodes(p: Piece)
    ensures
        piece_of_char(p.letter()) == Some(p),
        !is_run_digit(p.letter()),
        !is_space(p.letter()),
        p.letter() != 47,
{
}

/// What the rank writer has produced after the first `k` squares decodes to
/// the squares before its pending run, and that run is empty squares.
proof fn lemma_rank_text_scan(row: Seq<Option<Piece>>, k: int)
    requires
        row.len() == 8,
        0 <= k <= 8,
    ensures
        ({
            let st = rank_text_scan(row.take(k));
            &&& st.1 <= k
            &&& rank_scan(st.0) == Some(row.take(k - st.1))
            &&& forall|j: int| k - st.1 <= j < k ==> (#[trigger] row[j]) is None
            &&& no_sep(st.0, false) && no_space(st.0)
        }),
    decreases k,
{
    if k == 0 {
        assert(row.take(0) =~= seq![]);
        assert(rank_scan(seq![]) == Some(Seq::<Option<Piece>>::empty()));
    } else {
        lemma_rank_text_scan(row, k - 1);
        assert(row.take(k).drop_last() =~= row.take(k - 1));
        let prev = rank_text_scan(row.take(k - 1));
        let acc = prev.1;
        match row[k - 1] {
            None => {},
            Some(p) => {
                lemma_letter_decodes(p);
                let flushed = prev.0 + run_text(acc);
                if acc > 0 {
                    assert(flushed.drop_last() =~= prev.0);
                    assert(row.take(k - 1 - acc) + empties(acc as int) =~= row.take(k - 1));
                    assert(rank_scan(flushed) == Some(row.take(k - 1)));
                } else {
                    assert(flushed =~= prev.0);
                }
                let out = flushed + seq![p.letter()];
                assert(out.drop_last() =~= flushed);
                assert(row.take(k - 1).push(Some(p)) =~= row.take(k));
                assert(rank_scan(out) == Some(row.take(k)));
                assert forall|i: int| 0 <= i < out.len() implies !is_sep(#[trigger] out[i], false)
                    && !is_space(out[i]) by {
                    if i < prev.0.len() {
                        assert(out[i] == prev.0[i]);
                    }
                }
            },
        }
    }
}

/// A rank's text decodes to the rank, and holds neither '/' nor white space.
proof fn lemma_rank_round_trip(row: Seq<Option<Piece>>)
    requires
        row.len() == 8,
    ensures
        decode_rank(encode_rank(row)) == Some(row),
        no_sep(encode_rank(row), false),
        no_space(encode_rank(row)),
{
    lemma_rank_text_scan(row, 8);
    assert(row.take(8) =~= row);
    let st = rank_text_scan(row);
    let out = st.0 + run_text(st.1);
    if st.1 > 0 {
        assert(out.drop_last() =~= st.0);
        assert(row.take(8 - st.1) + empties(st.1 as int) =~= row);
        assert forall|i: int| 0 <= i < out.len() implies !is_sep(#[trigger] out[i], false)
            && !is_space(out[i]) by {
            if i < st.0.len() {
                assert(out[i] == st.0[i]);
            }
        }
    } else {
        assert(out =~= st.0);
    }
}

proof fn lemma_placement_round_trip(squares: Seq<Seq<Option<Piece>>>)
    requires
        squares.len() == 8,
        forall|r: int| 0 <= r < 8 ==> #[trigger] squares[r].len() == 8,
    ensures
        decode_placement(encode_placement(squares)) == Some(squares),
        no_space(encode_placement(squares)),
{
    let texts = rank_texts(squares);
    assert forall|k: int| 0 <= k < 8 implies no_sep(#[trigger] texts[k], false) && no_space(
        texts[k],
    ) && decode_rank(texts[k]) == Some(squares[7 - k]) by {
        lemma_rank_round_trip(squares[7 - k]);
    }
    lemma_split_join(texts, 47, false);
    lemma_join_no_space(texts, 47);
    let ranks = split(encode_placement(squares), false);
    assert(ranks == texts);
    assert(forall|i: int| 0 <= i < 8 ==> (#[trigger] decode_rank(ranks[i])) is Some);
    assert(Seq::new(8, |r: int| decode_rank(ranks[7 - r])->Some_0) =~= squares);
}

proof fn lemma_decimal_round_trip(n: nat)
    ensures
        decimal(n).len() > 0,
        forall|i: int| 0 <= i < decimal(n).len() ==> is_decimal_digit(#[trigger] decimal(n)[i]),
        digits_value(decimal(n)) == n,
        no_space(decimal(n)),
    decreases n,
{
    let d = decimal(n);
    if n < 10 {
        assert(d.drop_last() =~= seq![]);
        assert(digits_value(d) == digits_value(d.drop_last()) * 10 + (d.last() - 48) as nat);
    } else {
        lemma_decimal_round_trip(n / 10);
        assert(d.drop_last() =~= decimal(n / 10));
        assert(digits_value(d) == digits_value(d.drop_last()) * 10 + (d.last() - 48) as nat);
        assert((n / 10) * 10 + n % 10 == n) by (nonlinear_arith);
        assert forall|i: int| 0 <= i < d.len() implies is_decimal_digit(#[trigger] d[i]) by {
            if i < d.len() - 1 {
                assert(d[i] == decimal(n / 10)[i]);
            }
        }
    }
}

proof fn lemma_castlings_round_trip(c: Seq<bool>)
    requires
        c.len() == 4,
    ensures
        decode_castlings(encode_castlings(c)) == c,
        no_space(encode_castlings(c)),
{
    let e = encode_castlings(c);
    if !c[0] && !c[1] && !c[2] && !c[3] {
        assert(!e.contains(75u8) && !e.contains(81u8) && !e.contains(107u8) && !e.contains(113u8)) by {
            assert(e.len() == 1 && e[0] == 45);
        }
    } else {
        let a = flag_text(c[0], 75);
        let b = flag_text(c[1], 81);
        let d = flag_text(c[2], 107);
        let f = flag_text(c[3], 113);
        assert(e == a + b + d + f);
        assert forall|i: int| 0 <= i < e.len() implies (#[trigger] e[i] == 75 ==> c[0]) && (e[i]
            == 81 ==> c[1]) && (e[i] == 107 ==> c[2]) && (e[i] == 113 ==> c[3]) && !is_space(
            e[i],
        ) by {
            if i < a.len() {
                assert(e[i] == a[i]);
            } else if i < a.len() + b.len() {
                assert(e[i] == b[i - a.len()]);
            } else if i < a.len() + b.len() + d.len() {
                assert(e[i] == d[i - a.len() - b.len()]);
            } else {
                assert(e[i] == f[i - a.len() - b.len() - d.len()]);
            }
        }
        if c[0] {
            assert(e[0] == 75);
        }
        if c[1] {
            assert(e[a.len() as int] == 81);
        }
        if c[2] {
            assert(e[(a.len() + b.len()) as int] == 107);
        }
        if c[3] {
            assert(e[(a.len() + b.len() + d.len()) as int] == 113);
        }
    }
    assert(decode_castlings(e) =~= c);
}

/// Encoding a board and decoding the text gives the board back, for every
/// board of 8×8 squares and 4 rights whose en-passant target, if any, is on
/// the board and whose counters fit a `usize`.
pub proof fn lemma_encode_decode(b: BoardModel)
    requires
        b.wf(),
        b.en_passant matches Some(c) ==> c.on_board(),
        b.halfmove_clock <= usize::MAX,
        b.move_count <= usize::MAX,
    ensures
        decode(encode(b)) == Ok::<BoardModel, FenError>(b),
{
    let parts = fields_of(b);
    lemma_placement_round_trip(b.squares);
    lemma_castlings_round_trip(b.castlings);
    lemma_decimal_round_trip(b.halfmove_clock);
    lemma_decimal_round_trip(b.move_count);
    assert(no_space(encode_turn(b.turn)));
    assert(no_space(encode_en_passant(b.en_passant)));
    assert forall|k: int| 0 <= k < parts.len() implies no_sep(#[trigger] parts[k], true) by {
        assert(no_space(parts[k]));
    }
    lemma_split_join(parts, 32, true);
    let f = split(encode(b), true);
    assert(f == parts);
    if let Some(c) = b.en_passant {
        assert(c.name()[0] != 45);
        assert(parse_square(c.name()) == Some(c));
    }
    assert(decode_number(decimal(b.halfmove_clock)) == Some(b.halfmove_clock));
    assert(decode_number(decimal(b.move_count)) == Some(b.move_count));
    assert(decode_turn(f[1]) == Some(b.turn)) by {
        if b.turn == Color::BLACK {
            assert(f[1][0] != seq![119u8][0]);
        }
    }
}

/// A board read from a position text has 8×8 squares, 4 rights, an
/// on-board en-passant target if any, and counters that fit a `usize`.
pub proof fn lemma_decoded_board_wf(s: Seq<u8>)
    requires
        decode(s) is Ok,
    ensures
        ({
            let b = decode(s)->Ok_0;
            &&& b.wf()
            &&& b.en_passant matches Some(c) ==> c.on_board()
            &&& b.halfmove_clock <= usize::MAX
            &&& b.move_count <= usize::MAX
        }),
{
    let f = split(s, true);
    let ranks = split(f[0], false);
    assert forall|r: int| 0 <= r < 8 implies #[trigger] decode_placement(f[0])->Some_0[r].len()
        == 8 by {
        assert(decode_rank(ranks[7 - r]) is Some);
    }
}

/// Writing a board that was read from a position text, then reading the
/// result, gives an equal board on every field.
pub proof fn lemma_round_trip(s: Seq<u8>)
    requires
        decode(s) is Ok,
    ensures
        decode(encode(decode(s)->Ok_0)) == decode(s),
{
    lemma_decoded_board_wf(s);
    lemma_encode_decode(decode(s)->Ok_0);
}


/// A castling field "-" sets none of the four rights, and an en-passant
/// field "-" sets no target.
pub proof fn lemma_dash_fields(s: Seq<u8>)
    requires
        decode(s) is Ok,
    ensures
        split(s, true)[2] == seq![45u8] ==> decode(s)->Ok_0.castlings == seq![false, false, false, false],
        split(s, true)[3] == seq![45u8] ==> decode(s)->Ok_0.en_passant is None,
{
    let dash = seq![45u8];
    assert(!dash.contains(75u8) && !dash.contains(81u8) && !dash.contains(107u8) && !dash.contains(
        113u8,
    )) by {
        assert(dash.len() == 1 && dash[0] == 45);
    }
    assert(decode_castlings(dash) =~= seq![false, false, false, false]);
}

} // verus!
