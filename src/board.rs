use crate::chess_move::ChessMove;
use crate::piece::{Piece, PieceType, PieceWrapper};
use crate::{change_color, opposite, Color, Coord, BOARD_SIZE};
use vstd::prelude::*;

verus! {

/// A position: the 8×8 grid indexed `[rank][file]`, the side to move, the
/// castling rights (White king side, White queen side, Black king side,
/// Black queen side), the en-passant target, the halfmove clock and the
/// fullmove number.
#[derive(Clone, Copy, Debug)]
pub struct Board {
    pub position: [[Option<Piece>; BOARD_SIZE]; BOARD_SIZE],
    pub turn: Color,
    pub castlings: [bool; 4],
    pub en_passant: Option<Coord>,
    pub halfmove_clock: usize,
    pub move_count: usize,
}

/// The mathematical value of a `Board`.
pub struct BoardModel {
    pub squares: Seq<Seq<Option<Piece>>>,
    pub turn: Color,
    pub castlings: Seq<bool>,
    pub en_passant: Option<Coord>,
    pub halfmove_clock: nat,
    pub move_count: nat,
}

/// `squares` with the square at `c` replaced by `v`; unchanged when `c` is
/// off the board.
pub open spec fn set_square(
    squares: Seq<Seq<Option<Piece>>>,
    c: Coord,
    v: Option<Piece>,
) -> Seq<Seq<Option<Piece>>> {
    if c.on_board() {
        squares.update(c.0 as int, squares[c.0 as int].update(c.1 as int, v))
    } else {
        squares
    }
}

/// The kind on file `f` of a back rank in the starting position.
pub open spec fn back_rank_type(f: int) -> PieceType {
    if f == 0 || f == 7 {
        PieceType::ROOK
    } else if f == 1 || f == 6 {
        PieceType::KNIGHT
    } else if f == 2 || f == 5 {
        PieceType::BISHOP
    } else if f == 3 {
        PieceType::QUEEN
    } else {
        PieceType::KING
    }
}

/// What the starting position holds on rank `r`, file `f`.
pub open spec fn start_square(r: int, f: int) -> Option<Piece> {
    if r == 0 {
        Some(Piece { piece_type: back_rank_type(f), color: Color::WHITE })
    } else if r == 1 {
        Some(Piece { piece_type: PieceType::PAWN, color: Color::WHITE })
    } else if r == 6 {
        Some(Piece { piece_type: PieceType::PAWN, color: Color::BLACK })
    } else if r == 7 {
        Some(Piece { piece_type: back_rank_type(f), color: Color::BLACK })
    } else {
        None
    }
}

/// An 8×8 grid whose square `(r, f)` is `g(r, f)`.
pub open spec fn grid(g: spec_fn(int, int) -> Option<Piece>) -> Seq<Seq<Option<Piece>>> {
    Seq::new(8, |r: int| Seq::new(8, |f: int| g(r, f)))
}

/// The canonical starting position.
pub open spec fn start_model() -> BoardModel {
    BoardModel {
        squares: grid(|r: int, f: int| start_square(r, f)),
        turn: Color::WHITE,
        castlings: seq![true, true, true, true],
        en_passant: None,
        halfmove_clock: 0,
        move_count: 1,
    }
}

/// The character shown for a square: the piece's glyph, or '.' when empty.
pub open spec fn square_glyph(sq: Option<Piece>) -> char {
    match sq {
        Some(p) => p.glyph(),
        None => '.',
    }
}

/// The first `n` characters of the display line of a rank.
pub open spec fn rank_glyphs(row: Seq<Option<Piece>>, n: int) -> Seq<char> {
    Seq::new(n as nat, |f: int| square_glyph(row[f]))
}

/// The display of ranks `0 .. n`: one line of eight characters per rank,
/// each followed by a line feed.
pub open spec fn render_ranks(b: BoardModel, n: int) -> Seq<char>
    decreases n,
{
    if n <= 0 {
        seq![]
    } else {
        render_ranks(b, n - 1) + rank_glyphs(b.squares[n - 1], 8).push('\n')
    }
}

/// Relies on `String::push`: appends one character at the end.
#[verifier::external_body]
fn push_char(s: &mut String, c: char)
    ensures
        final(s)@ == old(s)@.push(c),
{
    s.push(c);
}

impl BoardModel {
    /// 8 ranks of 8 squares and 4 castling rights.
    pub open spec fn wf(self) -> bool {
        &&& self.squares.len() == 8
        &&& forall|r: int| 0 <= r < 8 ==> #[trigger] self.squares[r].len() == 8
        &&& self.castlings.len() == 4
    }

    /// The content of an on-board square; nothing off the board.
    pub open spec fn at(self, c: Coord) -> Option<Piece> {
        if c.on_board() {
            self.squares[c.0 as int][c.1 as int]
        } else {
            None
        }
    }

    /// An on-board square that holds no piece.
    pub open spec fn is_free(self, c: Coord) -> bool {
        c.on_board() && self.at(c) is None
    }

    /// An on-board square that holds a piece of `color`.
    pub open spec fn holds_color(self, c: Coord, color: Color) -> bool {
        c.on_board() && self.at(c) is Some && self.at(c)->Some_0.color == color
    }

    /// An on-board square that holds a piece of the side opposite to `color`.
    pub open spec fn capturable(self, c: Coord, color: Color) -> bool {
        c.on_board() && self.at(c) is Some && self.at(c)->Some_0.color != color
    }

    /// Whether applying `m` captures: its destination is on the board and
    /// holds a piece once the origin has been cleared.
    pub open spec fn captures(self, m: ChessMove) -> bool {
        let cleared = set_square(self.squares, m.start, None);
        m.end.on_board() && cleared[m.end.0 as int][m.end.1 as int] is Some
    }

    /// The position after `m`: origin cleared, the move's piece placed on the
    /// destination, side to move flipped, the halfmove clock reset by a pawn
    /// move or a capture and advanced otherwise, the fullmove number advanced
    /// when White is to move again. Castling rights and the en-passant target
    /// are kept.
    pub open spec fn apply(self, m: ChessMove) -> BoardModel {
        let cleared = set_square(self.squares, m.start, None);
        let next = opposite(self.turn);
        BoardModel {
            squares: set_square(cleared, m.end, Some(m.piece)),
            turn: next,
            castlings: self.castlings,
            en_passant: self.en_passant,
            halfmove_clock: if m.piece.piece_type == PieceType::PAWN || self.captures(m) {
                0
            } else {
                self.halfmove_clock + 1
            },
            move_count: if next == Color::WHITE {
                self.move_count + 1
            } else {
                self.move_count
            },
        }
    }
}

/// Applying a pawn move or a capture sets the halfmove clock to zero; any
/// other move advances it by exactly one.
pub proof fn lemma_halfmove_clock(b: BoardModel, m: ChessMove)
    ensures
        m.piece.piece_type == PieceType::PAWN || b.captures(m) ==> b.apply(m).halfmove_clock == 0,
        !(m.piece.piece_type == PieceType::PAWN || b.captures(m)) ==> b.apply(m).halfmove_clock
            == b.halfmove_clock + 1,
{
}

/// The fullmove number stays after White's move, advances by one after
/// Black's, and so advances exactly once over any two moves in a row.
pub proof fn lemma_fullmove_number(b: BoardModel, m1: ChessMove, m2: ChessMove)
    ensures
        b.turn == Color::WHITE ==> b.apply(m1).move_count == b.move_count,
        b.turn == Color::BLACK ==> b.apply(m1).move_count == b.move_count + 1,
        b.apply(m1).turn == opposite(b.turn),
        b.apply(m1).apply(m2).move_count == b.move_count + 1,
{
}

/// Every board's value has 8 ranks of 8 squares and 4 castling rights.
pub proof fn lemma_board_view_wf(b: &Board)
    ensures
        b@.wf(),
{
    assert forall|r: int| 0 <= r < 8 implies #[trigger] b@.squares[r].len() == 8 by {}
}

impl View for Board {
    type V = BoardModel;

    open spec fn view(&self) -> BoardModel {
        BoardModel {
            squares: self.position@.map_values(|row: [Option<Piece>; BOARD_SIZE]| row@),
            turn: self.turn,
            castlings: self.castlings@,
            en_passant: self.en_passant,
            halfmove_clock: self.halfmove_clock as nat,
            move_count: self.move_count as nat,
        }
    }
}

impl Board {
    /// An empty board, White to move, every castling right set, no
    /// en-passant target, both counters at zero.
    pub fn new() -> (r: Self)
        ensures
            r@.wf(),
            r@.squares == grid(|r: int, f: int| None::<Piece>),
            r@.turn == Color::WHITE,
            r@.castlings == seq![true, true, true, true],
            r@.en_passant is None,
            r@.halfmove_clock == 0,
            r@.move_count == 0,
    {
        let b = Board {
            position: [[None; BOARD_SIZE]; BOARD_SIZE],
            turn: Color::WHITE,
            castlings: [true; 4],
            en_passant: None,
            halfmove_clock: 0,
            move_count: 0,
        };
        proof {
            assert(b@.squares =~= grid(|r: int, f: int| None::<Piece>)) by {
                assert forall|r: int| 0 <= r < 8 implies b@.squares[r] =~= grid(
                    |r: int, f: int| None::<Piece>,
                )[r] by {}
            }
            assert(b@.castlings =~= seq![true, true, true, true]);
        }
        b
    }

    fn set(&mut self, coord: Coord, piece: Option<Piece>)
        requires
            old(self)@.wf(),
        ensures
            final(self)@ == (BoardModel {
                squares: set_square(old(self)@.squares, coord, piece),
                ..old(self)@
            }),
            final(self)@.wf(),
    {
        if coord.is_correct() {
            let r = coord.0 as usize;
            let f = coord.1 as usize;
            let mut row = self.position[r];
            row[f] = piece;
            self.position[r] = row;
            proof {
                assert(self@.squares =~= set_square(old(self)@.squares, coord, piece));
            }
        }
    }

    fn set_piece(&mut self, coord: Coord, piece: PieceWrapper)
        requires
            old(self)@.wf(),
        ensures
            final(self)@ == (BoardModel {
                squares: set_square(
                    old(self)@.squares,
                    coord,
                    Some(Piece { piece_type: piece.0, color: piece.1 }),
                ),
                ..old(self)@
            }),
            final(self)@.wf(),
    {
        self.set(coord, Some(Piece { piece_type: piece.0, color: piece.1 }));
    }

    fn set_line(&mut self, id_line: usize, piece: PieceWrapper)
        requires
            old(self)@.wf(),
            id_line < 8,
        ensures
            final(self)@ == (BoardModel {
                squares: old(self)@.squares.update(
                    id_line as int,
                    Seq::new(8, |f: int| Some(Piece { piece_type: piece.0, color: piece.1 })),
                ),
                ..old(self)@
            }),
            final(self)@.wf(),
    {
        self.position[id_line] = [Some(Piece { piece_type: piece.0, color: piece.1 }); BOARD_SIZE];
        proof {
            assert(self@.squares[id_line as int] =~= Seq::new(
                8,
                |f: int| Some(Piece { piece_type: piece.0, color: piece.1 }),
            ));
            assert(self@.squares =~= old(self)@.squares.update(
                id_line as int,
                Seq::new(8, |f: int| Some(Piece { piece_type: piece.0, color: piece.1 })),
            ));
        }
    }
    /// The canonical starting position.
    pub fn default() -> (r: Self)
        ensures
            r@ == start_model(),
            r@.wf(),
    {
        let mut board = Board::new();
        board.move_count = 1;
        board.set_piece(Coord(0, 0), (PieceType::ROOK, Color::WHITE));
        board.set_piece(Coord(0, 1), (PieceType::KNIGHT, Color::WHITE));
        board.set_piece(Coord(0, 2), (PieceType::BISHOP, Color::WHITE));
        board.set_piece(Coord(0, 3), (PieceType::QUEEN, Color::WHITE));
        board.set_piece(Coord(0, 4), (PieceType::KING, Color::WHITE));
        board.set_piece(Coord(0, 5), (PieceType::BISHOP, Color::WHITE));
        board.set_piece(Coord(0, 6), (PieceType::KNIGHT, Color::WHITE));
        board.set_piece(Coord(0, 7), (PieceType::ROOK, Color::WHITE));
        board.set_piece(Coord(7, 0), (PieceType::ROOK, Color::BLACK));
        board.set_piece(Coord(7, 1), (PieceType::KNIGHT, Color::BLACK));
        board.set_piece(Coord(7, 2), (PieceType::BISHOP, Color::BLACK));
        board.set_piece(Coord(7, 3), (PieceType::QUEEN, Color::BLACK));
        board.set_piece(Coord(7, 4), (PieceType::KING, Color::BLACK));
        board.set_piece(Coord(7, 5), (PieceType::BISHOP, Color::BLACK));
        board.set_piece(Coord(7, 6), (PieceType::KNIGHT, Color::BLACK));
        board.set_piece(Coord(7, 7), (PieceType::ROOK, Color::BLACK));
        board.set_line(1, (PieceType::PAWN, Color::WHITE));
        board.set_line(6, (PieceType::PAWN, Color::BLACK));
        proof {
            let g = grid(|r: int, f: int| start_square(r, f));
            assert forall|r: int| 0 <= r < 8 implies board@.squares[r] =~= g[r] by {}
            assert(board@.squares =~= g);
        }
        board
    }

    pub fn is_square_free(&self, coord: &Coord) -> (r: bool)
        ensures
            r == self@.is_free(*coord),
    {
        if !coord.is_correct() {
            return false;
        }
        self.position[coord.0 as usize][coord.1 as usize].is_none()
    }

    pub fn color_is(&self, coord: &Coord, color: &Color) -> (r: bool)
        ensures
            r == self@.holds_color(*coord, *color),
    {
        if !coord.is_correct() {
            return false;
        }
        match self.position[coord.0 as usize][coord.1 as usize] {
            Some(p) => p.color == *color,
            None => false,
        }
    }

    pub fn can_capture(&self, coord: &Coord, color: &Color) -> (r: bool)
        ensures
            r == self@.capturable(*coord, *color),
    {
        if !coord.is_correct() {
            return false;
        }
        match self.position[coord.0 as usize][coord.1 as usize] {
            Some(p) => p.color != *color,
            None => false,
        }
    }

    /// Applies `chess_move` in place (see `BoardModel::apply`).
    pub fn do_move(&mut self, chess_move: &ChessMove)
        requires
            old(self).halfmove_clock < usize::MAX,
            old(self).move_count < usize::MAX,
        ensures
            final(self)@ == old(self)@.apply(*chess_move),
            final(self)@.wf(),
    {
        proof {
            lemma_board_view_wf(self);
        }
        self.set(chess_move.start, None);
        let move_is_capture = chess_move.end.is_correct() && !self.is_square_free(&chess_move.end);
        self.set(chess_move.end, Some(chess_move.piece));
        self.turn = change_color(&self.turn);
        self.halfmove_clock = self.halfmove_clock + 1;
        if self.turn == Color::WHITE {
            self.move_count = self.move_count + 1;
        }
        if chess_move.piece.piece_type == PieceType::PAWN || move_is_capture {
            self.halfmove_clock = 0;
        }
    }

    /// A human-readable picture of the board: eight lines of eight glyphs,
    /// rank 1 first, '.' for an empty square.
    pub fn render(&self) -> (r: String)
        ensures
            r@ == render_ranks(self@, 8),
    {
        let mut disp = String::new();
        let mut rank: usize = 0;
        while rank < 8
            invariant
                rank <= 8,
                disp@ == render_ranks(self@, rank as int),
            decreases 8 - rank,
        {
            let ghost row = self@.squares[rank as int];
            let mut file: usize = 0;
            while file < 8
                invariant
                    rank < 8,
                    file <= 8,
                    row == self@.squares[rank as int],
                    row == self.position@[rank as int]@,
                    disp@ == render_ranks(self@, rank as int) + rank_glyphs(row, file as int),
                decreases 8 - file,
            {
                let c = match self.position[rank][file] {
                    Some(p) => p.get_unicode(),
                    None => '.',
                };
                push_char(&mut disp, c);
                proof {
                    assert(rank_glyphs(row, file + 1) =~= rank_glyphs(row, file as int).push(c));
                    assert(disp@ =~= render_ranks(self@, rank as int) + rank_glyphs(row, file + 1));
                }
                file = file + 1;
            }
            push_char(&mut disp, '\n');
            proof {
                assert(disp@ =~= render_ranks(self@, rank + 1));
            }
            rank = rank + 1;
        }
        disp
    }
}

} // verus!
