//! The six-field position text: piece placement, active color, castling
//! rights, en-passant target, halfmove clock and fullmove number.
use crate::board::{Board, BoardModel};
use crate::piece::{piece_of_char, Piece};
use crate::{parse_square, Color, Coord, BOARD_SIZE, FEN};
use vstd::prelude::*;

verus! {

/// Why a position text was refused.
#[derive(Clone, Copy, Debug, PartialEq, Eq, Structural)]
pub enum FenError {
    /// The text does not split into exactly six fields.
    FieldCount,
    /// The placement field is not eight ranks of eight squares each, or holds
    /// a byte that is neither a run length 1..8 nor a piece letter.
    Placement,
    /// The active color is neither "w" nor "b".
    ActiveColor,
    /// The en-passant field is neither "-" nor a square name.
    EnPassant,
    /// The halfmove clock is not a decimal number that fits a `usize`.
    HalfmoveClock,
    /// The fullmove number is not a decimal number that fits a `usize`.
    FullmoveNumber,
}

// ---------------------------------------------------------------------------
// Splitting into fields
/// ASCII white space: space, tab, line feed, form feed, carriage return.
pub open spec fn is_space(c: u8) -> bool {
    c == 32 || c == 9 || c == 10 || c == 12 || c == 13
}

/// The separator of the outer split (`spaces`) or of the placement ranks.
pub open spec fn is_sep(c: u8, spaces: bool) -> bool {
    if spaces {
        is_space(c)
    } else {
        c == 47
    }
}

/// The state of a split after some bytes: the field being read, and the
/// fields already closed.
pub type SplitState = (Seq<u8>, Seq<Seq<u8>>);

pub open spec fn split_step(st: SplitState, c: u8, spaces: bool) -> SplitState {
    if is_sep(c, spaces) {
        (seq![], st.1.push(st.0))
    } else {
        (st.0.push(c), st.1)
    }
}

/// The split state after reading `s` from `st`.
pub open spec fn split_scan(st: SplitState, s: Seq<u8>, spaces: bool) -> SplitState
    decreases s.len(),
{
    if s.len() == 0 {
        st
    } else {
        split_step(split_scan(st, s.drop_last(), spaces), s.last(), spaces)
    }
}

/// The fields of `s` between separators; two adjacent separators enclose
/// an empty field.
pub open spec fn split(s: Seq<u8>, spaces: bool) -> Seq<Seq<u8>> {
    let st = split_scan((seq![], seq![]), s, spaces);
    st.1.push(st.0)
}

// ---------------------------------------------------------------------------
// Decoding
/// A run-length byte '1'..'8'.
pub open spec fn is_run_digit(c: u8) -> bool {
    49 <= c <= 56
}

/// `n` empty squares.
pub open spec fn empties(n: int) -> Seq<Option<Piece>> {
    Seq::new(n as nat, |i: int| None::<Piece>)
}

/// One byte of a rank: a run of empty squares or one piece; nothing once
/// the rank would pass eight squares or the byte is unknown.
pub open spec fn rank_step(row: Seq<Option<Piece>>, c: u8) -> Option<Seq<Option<Piece>>> {
    if is_run_digit(c) {
        if row.len() + (c - 48) > 8 {
            None
        } else {
            Some(row + empties(c - 48))
        }
    } else {
        match piece_of_char(c) {
            Some(p) => if row.len() + 1 > 8 {
                None
            } else {
                Some(row.push(Some(p)))
            },
            None => None,
        }
    }
}

/// The squares read from a prefix of a rank text, or nothing on an error.
pub open spec fn rank_scan(s: Seq<u8>) -> Option<Seq<Option<Piece>>>
    decreases s.len(),
{
    if s.len() == 0 {
        Some(seq![])
    } else {
        match rank_scan(s.drop_last()) {
            Some(row) => rank_step(row, s.last()),
            None => None,
        }
    }
}

/// A rank text describes exactly eight squares, files 'a' to 'h'.
pub open spec fn decode_rank(s: Seq<u8>) -> Option<Seq<Option<Piece>>> {
    match rank_scan(s) {
        Some(row) => if row.len() == 8 {
            Some(row)
        } else {
            None
        },
        None => None,
    }
}

/// Eight rank texts separated by '/', from rank 8 down to rank 1.
pub open spec fn decode_placement(s: Seq<u8>) -> Option<Seq<Seq<Option<Piece>>>> {
    let ranks = split(s, false);
    if ranks.len() == 8 && forall|i: int| 0 <= i < 8 ==> (#[trigger] decode_rank(ranks[i])) is Some {
        Some(Seq::new(8, |r: int| decode_rank(ranks[7 - r])->Some_0))
    } else {
        None
    }
}

pub open spec fn decode_turn(s: Seq<u8>) -> Option<Color> {
    if s == seq![119u8] {
        Some(Color::WHITE)
    } else if s == seq![98u8] {
        Some(Color::BLACK)
    } else {
        None
    }
}

/// Each of 'K', 'Q', 'k', 'q' that occurs sets its right; nothing else
/// matters, so "-" sets none.
pub open spec fn decode_castlings(s: Seq<u8>) -> Seq<bool> {
    seq![s.contains(75u8), s.contains(81u8), s.contains(107u8), s.contains(113u8)]
}

/// "-" for no target, else a square name; nothing when malformed.
pub open spec fn decode_en_passant(s: Seq<u8>) -> Option<Option<Coord>> {
    if s == seq![45u8] {
        Some(None)
    } else {
        match parse_square(s) {
            Some(c) => Some(Some(c)),
            None => None,
        }
    }
}

pub open spec fn is_decimal_digit(c: u8) -> bool {
    48 <= c <= 57
}

/// The value of a string of decimal digits.
pub open spec fn digits_value(s: Seq<u8>) -> nat
    decreases s.len(),
{
    if s.len() == 0 {
        0
    } else {
        digits_value(s.drop_last()) * 10 + (s.last() - 48) as nat
    }
}

/// A non-empty string of decimal digits whose value fits a `usize`.
pub open spec fn decode_number(s: Seq<u8>) -> Option<nat> {
    if s.len() > 0 && (forall|i: int| 0 <= i < s.len() ==> is_decimal_digit(#[trigger] s[i]))
        && digits_value(s) <= usize::MAX {
        Some(digits_value(s))
    } else {
        None
    }
}

/// The board that a position text describes, or the first field at fault.
pub open spec fn decode(s: Seq<u8>) -> core::result::Result<BoardModel, FenError> {
    let f = split(s, true);
    if f.len() != 6 {
        Err(FenError::FieldCount)
    } else {
        match decode_placement(f[0]) {
            None => Err(FenError::Placement),
            Some(squares) => match decode_turn(f[1]) {
                None => Err(FenError::ActiveColor),
                Some(turn) => match decode_en_passant(f[3]) {
                    None => Err(FenError::EnPassant),
                    Some(en_passant) => match decode_number(f[4]) {
                        None => Err(FenError::HalfmoveClock),
                        Some(halfmove_clock) => match decode_number(f[5]) {
                            None => Err(FenError::FullmoveNumber),
                            Some(move_count) => Ok(
                                BoardModel {
                                    squares,
                                    turn,
                                    castlings: decode_castlings(f[2]),
                                    en_passant,
                                    halfmove_clock,
                                    move_count,
                                },
                            ),
                        },
                    },
                },
            },
        }
    }
}

// ---------------------------------------------------------------------------
// Encoding
/// The decimal digit byte of `n` (0..9), or the run-length byte (1..8).
pub open spec fn digit_char(n: int) -> u8 {
    (48 + n) as u8
}

/// The run-length byte of `n` empty squares; nothing for none.
pub open spec fn run_text(n: nat) -> Seq<u8> {
    if n > 0 {
        seq![digit_char(n as int)]
    } else {
        seq![]
    }
}

/// The text written for a prefix of a rank, and the run of empty squares
/// still pending at its end.
pub open spec fn rank_text_scan(row: Seq<Option<Piece>>) -> (Seq<u8>, nat)
    decreases row.len(),
{
    if row.len() == 0 {
        (seq![], 0)
    } else {
        let st = rank_text_scan(row.drop_last());
        match row.last() {
            None => (st.0, st.1 + 1),
            Some(p) => (st.0 + run_text(st.1) + seq![p.letter()], 0),
        }
    }
}

/// A rank from file 'a' to 'h': each piece as its letter, each run of empty
/// squares as one digit.
pub open spec fn encode_rank(row: Seq<Option<Piece>>) -> Seq<u8> {
    let st = rank_text_scan(row);
    st.0 + run_text(st.1)
}

/// `parts` with `sep` between each two.
pub open spec fn join(parts: Seq<Seq<u8>>, sep: u8) -> Seq<u8>
    decreases parts.len(),
{
    if parts.len() == 0 {
        seq![]
    } else if parts.len() == 1 {
        parts[0]
    } else {
        join(parts.drop_last(), sep) + seq![sep] + parts.last()
    }
}

/// The rank texts of ranks 8 down to 1.
pub open spec fn rank_texts(squares: Seq<Seq<Option<Piece>>>) -> Seq<Seq<u8>> {
    Seq::new(8, |i: int| encode_rank(squares[7 - i]))
}

pub open spec fn encode_placement(squares: Seq<Seq<Option<Piece>>>) -> Seq<u8> {
    join(rank_texts(squares), 47)
}

pub open spec fn encode_turn(c: Color) -> Seq<u8> {
    match c {
        Color::WHITE => seq![119u8],
        Color::BLACK => seq![98u8],
    }
}

/// `x` when `b` holds, else nothing.
pub open spec fn flag_text(b: bool, x: u8) -> Seq<u8> {
    if b {
        seq![x]
    } else {
        seq![]
    }
}

/// The letters of the rights held, in the order K, Q, k, q; "-" for none.
pub open spec fn encode_castlings(c: Seq<bool>) -> Seq<u8> {
    if !c[0] && !c[1] && !c[2] && !c[3] {
        seq![45u8]
    } else {
        flag_text(c[0], 75) + flag_text(c[1], 81) + flag_text(c[2], 107) + flag_text(c[3], 113)
    }
}

pub open spec fn encode_en_passant(ep: Option<Coord>) -> Seq<u8> {
    match ep {
        None => seq![45u8],
        Some(c) => c.name(),
    }
}

/// The decimal text of `n`, without leading zeros.
pub open spec fn decimal(n: nat) -> Seq<u8>
    decreases n,
{
    if n < 10 {
        seq![digit_char(n as int)]
    } else {
        decimal(n / 10).push(digit_char((n % 10) as int))
    }
}

/// The six field texts of a board.
pub open spec fn fields_of(b: BoardModel) -> Seq<Seq<u8>> {
    seq![
        encode_placement(b.squares),
        encode_turn(b.turn),
        encode_castlings(b.castlings),
        encode_en_passant(b.en_passant),
        decimal(b.halfmove_clock),
        decimal(b.move_count),
    ]
}

/// The position text of a board: its six fields joined by single spaces.
pub open spec fn encode(b: BoardModel) -> Seq<u8> {
    join(fields_of(b), 32)
}

// ---------------------------------------------------------------------------
// Executable decoding
fn is_space_byte(c: u8) -> (r: bool)
    ensures
        r == is_space(c),
{
    c == 32 || c == 9 || c == 10 || c == 12 || c == 13
}

/// Splits `s` on white space (`spaces`) or on '/'.
fn split_bytes(s: &Vec<u8>, spaces: bool) -> (r: Vec<Vec<u8>>)
    ensures
        r@.len() == split(s@, spaces).len(),
        forall|i: int| 0 <= i < r@.len() ==> (#[trigger] r@[i])@ == split(s@, spaces)[i],
{
    let mut done: Vec<Vec<u8>> = Vec::new();
    let mut cur: Vec<u8> = Vec::new();
    let mut i: usize = 0;
    while i < s.len()
        invariant
            i <= s@.len(),
            cur@ == split_scan((seq![], seq![]), s@.take(i as int), spaces).0,
            done@.len() == split_scan((seq![], seq![]), s@.take(i as int), spaces).1.len(),
            forall|j: int|
                0 <= j < done@.len() ==> (#[trigger] done@[j])@ == split_scan(
                    (seq![], seq![]),
                    s@.take(i as int),
                    spaces,
                ).1[j],
        decreases s@.len() - i,
    {
        let c = s[i];
        proof {
            assert(s@.take(i + 1).drop_last() =~= s@.take(i as int));
            assert(s@.take(i + 1).last() == c);
        }
        let sep = if spaces {
            is_space_byte(c)
        } else {
            c == 47
        };
        if sep {
            let finished = cur;
            done.push(finished);
            cur = Vec::new();
        } else {
            cur.push(c);
        }
        i = i + 1;
    }
    proof {
        assert(s@.take(s@.len() as int) =~= s@);
    }
    done.push(cur);
    done
}

/// Reads the decimal digits of a clock field.
fn parse_number(s: &Vec<u8>) -> (r: Option<usize>)
    ensures
        r matches Some(n) ==> decode_number(s@) == Some(n as nat),
        r is None ==> decode_number(s@) is None,
{
    if s.len() == 0 {
        return None;
    }
    let mut acc: usize = 0;
    let mut i: usize = 0;
    while i < s.len()
        invariant
            0 < s@.len(),
            i <= s@.len(),
            acc == digits_value(s@.take(i as int)),
            forall|j: int| 0 <= j < i ==> is_decimal_digit(#[trigger] s@[j]),
        decreases s@.len() - i,
    {
        let c = s[i];
        proof {
            assert(s@.take(i + 1).drop_last() =~= s@.take(i as int));
        }
        if c < 48 || c > 57 {
            return None;
        }
        let d = (c - 48) as usize;
        if acc > (usize::MAX - d) / 10 {
            proof {
                let m = (usize::MAX - d) as int;
                assert(acc * 10 + d > usize::MAX) by (nonlinear_arith)
                    requires
                        acc > m / 10,
                        m == usize::MAX - d,
                        d >= 0,
                ;
                lemma_digits_value_grows(s@, i + 1);
            }
            return None;
        }
        proof {
            let m = (usize::MAX - d) as int;
            assert(acc * 10 + d <= usize::MAX) by (nonlinear_arith)
                requires
                    acc <= m / 10,
                    m == usize::MAX - d,
                    m >= 0,
            ;
        }
        acc = acc * 10 + d;
        i = i + 1;
    }
    proof {
        assert(s@.take(s@.len() as int) =~= s@);
    }
    Some(acc)
}

/// Once a prefix of digits is too large, the whole string is.
proof fn lemma_digits_value_grows(s: Seq<u8>, k: int)
    requires
        0 <= k <= s.len(),
    ensures
        digits_value(s.take(k)) <= digits_value(s),
    decreases s.len() - k,
{
    if k < s.len() {
        lemma_digits_value_grows(s, k + 1);
        assert(s.take(k + 1).drop_last() =~= s.take(k));
        assert(digits_value(s.take(k + 1)) == digits_value(s.take(k)) * 10 + (s.take(k + 1).last()
            - 48) as nat);
    } else {
        assert(s.take(k) =~= s);
    }
}

/// Once a prefix of a rank text is refused, the whole text is.
proof fn lemma_rank_scan_stays_refused(s: Seq<u8>, k: int)
    requires
        0 <= k <= s.len(),
        rank_scan(s.take(k)) is None,
    ensures
        rank_scan(s) is None,
    decreases s.len() - k,
{
    if k < s.len() {
        assert(s.take(k + 1).drop_last() =~= s.take(k));
        lemma_rank_scan_stays_refused(s, k + 1);
    } else {
        assert(s.take(k) =~= s);
    }
}

proof fn lemma_contains_prefix_step(s: Seq<u8>, k: int, x: u8)
    requires
        0 <= k < s.len(),
    ensures
        s.take(k + 1).contains(x) == (s.take(k).contains(x) || s[k] == x),
{
    if s.take(k + 1).contains(x) {
        let j = choose|j: int| 0 <= j < k + 1 && #[trigger] s.take(k + 1)[j] == x;
        if j < k {
            assert(s.take(k)[j] == x);
        }
    }
    if s.take(k).contains(x) {
        let j = choose|j: int| 0 <= j < k && #[trigger] s.take(k)[j] == x;
        assert(s.take(k + 1)[j] == x);
    }
    if s[k] == x {
        assert(s.take(k + 1)[k] == x);
    }
}

/// Reads one rank text into its eight squares.
fn read_rank(rank: &Vec<u8>) -> (r: Option<[Option<Piece>; BOARD_SIZE]>)
    ensures
        r matches Some(row) ==> decode_rank(rank@) == Some(row@),
        r is None ==> decode_rank(rank@) is None,
{
    let mut row: [Option<Piece>; BOARD_SIZE] = [None; BOARD_SIZE];
    let mut file: usize = 0;
    let mut i: usize = 0;
    while i < rank.len()
        invariant
            i <= rank@.len(),
            file <= 8,
            rank_scan(rank@.take(i as int)) == Some(row@.take(file as int)),
            forall|j: int| file <= j < 8 ==> (#[trigger] row@[j]) is None,
        decreases rank@.len() - i,
    {
        let c = rank[i];
        proof {
            assert(rank@.take(i + 1).drop_last() =~= rank@.take(i as int));
        }
        if 49 <= c && c <= 56 {
            let n = (c - 48) as usize;
            if file + n > 8 {
                proof {
                    lemma_rank_scan_stays_refused(rank@, i + 1);
                }
                return None;
            }
            proof {
                assert(row@.take(file + n) =~= row@.take(file as int) + empties(n as int));
            }
            file = file + n;
        } else {
            match Piece::from_char(&c) {
                Some(p) => {
                    if file + 1 > 8 {
                        proof {
                            lemma_rank_scan_stays_refused(rank@, i + 1);
                        }
                        return None;
                    }
                    let ghost before = row@;
                    row[file] = Some(p);
                    proof {
                        assert(row@.take(file + 1) =~= before.take(file as int).push(Some(p)));
                    }
                    file = file + 1;
                },
                None => {
                    proof {
                        lemma_rank_scan_stays_refused(rank@, i + 1);
                    }
                    return None;
                },
            }
        }
        i = i + 1;
    }
    proof {
        assert(rank@.take(rank@.len() as int) =~= rank@);
    }
    if file != 8 {
        return None;
    }
    proof {
        assert(row@.take(8) =~= row@);
    }
    Some(row)
}

impl Board {
    fn read_ranks(&mut self, fen: &Vec<u8>) -> (ok: bool)
        ensures
            ok == decode_placement(fen@) is Some,
            ok ==> final(self)@ == (BoardModel {
                squares: decode_placement(fen@)->Some_0,
                ..old(self)@
            }),
    {
        let ranks = split_bytes(fen, false);
        if ranks.len() != 8 {
            return false;
        }
        let ghost parts = split(fen@, false);
        let mut i: usize = 0;
        while i < 8
            invariant
                i <= 8,
                ranks@.len() == 8,
                parts == split(fen@, false),
                parts.len() == 8,
                forall|j: int| 0 <= j < 8 ==> (#[trigger] ranks@[j])@ == parts[j],
                forall|j: int| 0 <= j < i ==> (#[trigger] decode_rank(parts[j])) is Some,
                forall|j: int|
                    0 <= j < i ==> self.position@[7 - j]@ == (#[trigger] decode_rank(
                        parts[j],
                    ))->Some_0,
                self.turn == old(self).turn,
                self.castlings == old(self).castlings,
                self.en_passant == old(self).en_passant,
                self.halfmove_clock == old(self).halfmove_clock,
                self.move_count == old(self).move_count,
            decreases 8 - i,
        {
            match read_rank(&ranks[i]) {
                None => {
                    return false;
                },
                Some(row) => {
                    self.position[7 - i] = row;
                },
            }
            i = i + 1;
        }
        proof {
            let target = Seq::new(8, |r: int| decode_rank(parts[7 - r])->Some_0);
            assert forall|r: int| 0 <= r < 8 implies self@.squares[r] == target[r] by {
                assert(decode_rank(parts[7 - r]) is Some);
            }
            assert(self@.squares =~= target);
        }
        true
    }

    fn read_turn(&mut self, fen: &Vec<u8>) -> (ok: bool)
        ensures
            ok == decode_turn(fen@) is Some,
            ok ==> final(self)@ == (BoardModel { turn: decode_turn(fen@)->Some_0, ..old(self)@ }),
    {
        if fen.len() == 1 && fen[0] == 98 {
            proof {
                assert(fen@ =~= seq![98u8]);
            }
            self.turn = Color::BLACK;
            true
        } else if fen.len() == 1 && fen[0] == 119 {
            proof {
                assert(fen@ =~= seq![119u8]);
            }
            self.turn = Color::WHITE;
            true
        } else {
            proof {
                if fen@ == seq![98u8] {
                    assert(fen@[0] == 98);
                }
                if fen@ == seq![119u8] {
                    assert(fen@[0] == 119);
                }
            }
            false
        }
    }

    fn read_castlings(&mut self, fen: &Vec<u8>)
        ensures
            final(self)@ == (BoardModel { castlings: decode_castlings(fen@), ..old(self)@ }),
    {
        self.castlings = [false; 4];
        let mut i: usize = 0;
        while i < fen.len()
            invariant
                i <= fen@.len(),
                self.castlings@[0] == fen@.take(i as int).contains(75u8),
                self.castlings@[1] == fen@.take(i as int).contains(81u8),
                self.castlings@[2] == fen@.take(i as int).contains(107u8),
                self.castlings@[3] == fen@.take(i as int).contains(113u8),
                self.position == old(self).position,
                self.turn == old(self).turn,
                self.en_passant == old(self).en_passant,
                self.halfmove_clock == old(self).halfmove_clock,
                self.move_count == old(self).move_count,
            decreases fen@.len() - i,
        {
            let c = fen[i];
            proof {
                lemma_contains_prefix_step(fen@, i as int, 75u8);
                lemma_contains_prefix_step(fen@, i as int, 81u8);
                lemma_contains_prefix_step(fen@, i as int, 107u8);
                lemma_contains_prefix_step(fen@, i as int, 113u8);
            }
            if c == 75 {
                self.castlings[0] = true;
            } else if c == 81 {
                self.castlings[1] = true;
            } else if c == 107 {
                self.castlings[2] = true;
            } else if c == 113 {
                self.castlings[3] = true;
            }
            i = i + 1;
        }
        proof {
            assert(fen@.take(fen@.len() as int) =~= fen@);
            assert(self.castlings@ =~= decode_castlings(fen@));
        }
    }

    fn read_en_passant(&mut self, fen: &Vec<u8>) -> (ok: bool)
        ensures
            ok == decode_en_passant(fen@) is Some,
            ok ==> final(self)@ == (BoardModel {
                en_passant: decode_en_passant(fen@)->Some_0,
                ..old(self)@
            }),
    {
        if fen.len() == 1 && fen[0] == 45 {
            proof {
                assert(fen@ =~= seq![45u8]);
            }
            self.en_passant = None;
            return true;
        }
        proof {
            if fen@ == seq![45u8] {
                assert(fen@[0] == 45);
            }
        }
        match Coord::from_str(fen.as_slice()) {
            Some(c) => {
                self.en_passant = Some(c);
                true
            },
            None => false,
        }
    }

    fn read_clock(&mut self, fen: &Vec<u8>) -> (ok: bool)
        ensures
            ok == decode_number(fen@) is Some,
            ok ==> final(self)@ == (BoardModel {
                halfmove_clock: decode_number(fen@)->Some_0,
                ..old(self)@
            }),
    {
        match parse_number(fen) {
            Some(n) => {
                self.halfmove_clock = n;
                true
            },
            None => false,
        }
    }

    fn read_move(&mut self, fen: &Vec<u8>) -> (ok: bool)
        ensures
            ok == decode_number(fen@) is Some,
            ok ==> final(self)@ == (BoardModel {
                move_count: decode_number(fen@)->Some_0,
                ..old(self)@
            }),
    {
        match parse_number(fen) {
            Some(n) => {
                self.move_count = n;
                true
            },
            None => false,
        }
    }

    /// Reads a position text. On success the board is exactly the one the
    /// text describes; otherwise the error names the first field at fault.
    pub fn from_fen(fen: &FEN) -> (r: Result<Board, FenError>)
        ensures
            match r {
                Ok(b) => decode(fen@) == Ok::<BoardModel, FenError>(b@),
                Err(e) => decode(fen@) == Err::<BoardModel, FenError>(e),
            },
    {
        let fields = split_bytes(fen, true);
        if fields.len() != 6 {
            return Err(FenError::FieldCount);
        }
        let mut board = Board::new();
        if !board.read_ranks(&fields[0]) {
            return Err(FenError::Placement);
        }
        if !board.read_turn(&fields[1]) {
            return Err(FenError::ActiveColor);
        }
        board.read_castlings(&fields[2]);
        if !board.read_en_passant(&fields[3]) {
            return Err(FenError::EnPassant);
        }
        if !board.read_clock(&fields[4]) {
            return Err(FenError::HalfmoveClock);
        }
        if !board.read_move(&fields[5]) {
            return Err(FenError::FullmoveNumber);
        }
        Ok(board)
    }
}

proof fn lemma_join_step(parts: Seq<Seq<u8>>, k: int, sep: u8)
    requires
        1 <= k < parts.len(),
    ensures
        join(parts.take(k + 1), sep) == join(parts.take(k), sep) + seq![sep] + parts[k],
        join(parts.take(1), sep) == parts[0],
{
    assert(parts.take(k + 1).drop_last() =~= parts.take(k));
}

/// Appends the decimal text of `n`.
fn write_number(n: usize, out: &mut Vec<u8>)
    ensures
        final(out)@ == old(out)@ + decimal(n as nat),
    decreases n,
{
    if n >= 10 {
        write_number(n / 10, out);
    }
    out.push(48 + (n % 10) as u8);
    proof {
        assert(out@ =~= old(out)@ + decimal(n as nat));
    }
}

impl Board {
    fn write_rank(&self, id_rank: usize) -> (r: Vec<u8>)
        requires
            id_rank < 8,
        ensures
            r@ == encode_rank(self@.squares[id_rank as int]),
    {
        let ghost row = self@.squares[id_rank as int];
        let mut res: Vec<u8> = Vec::new();
        let mut acc: u8 = 0;
        let mut f: usize = 0;
        while f < 8
            invariant
                f <= 8,
                id_rank < 8,
                row == self@.squares[id_rank as int],
                row == self.position@[id_rank as int]@,
                acc <= f,
                (res@, acc as nat) == rank_text_scan(row.take(f as int)),
            decreases 8 - f,
        {
            proof {
                assert(row.take(f + 1).drop_last() =~= row.take(f as int));
            }
            match self.position[id_rank][f] {
                Some(piece) => {
                    if acc > 0 {
                        res.push(48 + acc);
                    }
                    res.push(piece.to_char());
                    acc = 0;
                },
                None => {
                    acc = acc + 1;
                },
            }
            proof {
                let st = rank_text_scan(row.take(f as int));
                if let Some(p) = row[f as int] {
                    assert(res@ =~= st.0 + run_text(st.1) + seq![p.letter()]);
                }
            }
            f = f + 1;
        }
        if acc > 0 {
            res.push(48 + acc);
        }
        proof {
            assert(row.take(8) =~= row);
            let st = rank_text_scan(row);
            assert(res@ =~= st.0 + run_text(st.1));
        }
        res
    }

    fn write_ranks(&self) -> (r: Vec<u8>)
        ensures
            r@ == encode_placement(self@.squares),
    {
        let ghost parts = rank_texts(self@.squares);
        let mut res: Vec<u8> = Vec::new();
        let mut i: usize = 0;
        while i < 8
            invariant
                i <= 8,
                parts == rank_texts(self@.squares),
                i == 0 ==> res@.len() == 0,
                i > 0 ==> res@ == join(parts.take(i as int), 47),
            decreases 8 - i,
        {
            if i > 0 {
                res.push(47);
            }
            let mut rank = self.write_rank(7 - i);
            res.append(&mut rank);
            proof {
                if i > 0 {
                    lemma_join_step(parts, i as int, 47);
                    assert(res@ =~= join(parts.take(i + 1), 47));
                } else {
                    lemma_join_step(parts, 1, 47);
                    assert(res@ =~= join(parts.take(1), 47));
                }
            }
            i = i + 1;
        }
        proof {
            assert(parts.take(8) =~= parts);
        }
        res
    }

    fn write_turn(&self) -> (r: Vec<u8>)
        ensures
            r@ == encode_turn(self.turn),
    {
        let mut res: Vec<u8> = Vec::new();
        match self.turn {
            Color::WHITE => res.push(119),
            Color::BLACK => res.push(98),
        }
        proof {
            assert(res@ =~= encode_turn(self.turn));
        }
        res
    }

    fn write_castlings(&self) -> (r: Vec<u8>)
        ensures
            r@ == encode_castlings(self@.castlings),
    {
        let mut res: Vec<u8> = Vec::new();
        if !self.castlings[0] && !self.castlings[1] && !self.castlings[2] && !self.castlings[3] {
            res.push(45);
            proof {
                assert(res@ =~= encode_castlings(self@.castlings));
            }
            return res;
        }
        if self.castlings[0] {
            res.push(75);
        }
        if self.castlings[1] {
            res.push(81);
        }
        if self.castlings[2] {
            res.push(107);
        }
        if self.castlings[3] {
            res.push(113);
        }
        proof {
            assert(res@ =~= encode_castlings(self@.castlings));
        }
        res
    }

    fn write_en_passant(&self) -> (r: Vec<u8>)
        requires
            self.en_passant matches Some(c) ==> c.on_board(),
        ensures
            r@ == encode_en_passant(self.en_passant),
    {
        if let Some(sq) = self.en_passant {
            sq.get_str()
        } else {
            let mut res: Vec<u8> = Vec::new();
            res.push(45);
            proof {
                assert(res@ =~= seq![45u8]);
            }
            res
        }
    }

    /// Writes the position text of the board (see `encode`). The en-passant
    /// target, when there is one, must be on the board.
    pub fn to_fen(&self) -> (r: FEN)
        requires
            self.en_passant matches Some(c) ==> c.on_board(),
        ensures
            r@ == encode(self@),
    {
        let ghost parts = fields_of(self@);
        let mut fen: FEN = self.write_ranks();
        proof {
            lemma_join_step(parts, 1, 32);
        }
        fen.push(32);
        let mut t = self.write_turn();
        fen.append(&mut t);
        proof {
            lemma_join_step(parts, 1, 32);
            assert(fen@ =~= join(parts.take(2), 32));
        }
        fen.push(32);
        let mut c = self.write_castlings();
        fen.append(&mut c);
        proof {
            lemma_join_step(parts, 2, 32);
            assert(fen@ =~= join(parts.take(3), 32));
        }
        fen.push(32);
        let mut e = self.write_en_passant();
        fen.append(&mut e);
        proof {
            lemma_join_step(parts, 3, 32);
            assert(fen@ =~= join(parts.take(4), 32));
        }
        fen.push(32);
        write_number(self.halfmove_clock, &mut fen);
        proof {
            lemma_join_step(parts, 4, 32);
            assert(fen@ =~= join(parts.take(5), 32));
        }
        fen.push(32);
        write_number(self.move_count, &mut fen);
        proof {
            lemma_join_step(parts, 5, 32);
            assert(fen@ =~= join(parts.take(6), 32));
            assert(parts.take(6) =~= parts);
        }
        fen
    }
}

} // verus!
