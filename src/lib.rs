//! Chess position model: coordinates, pieces, move records, a board with its
//! pseudo-legal move generation, a king-safety filter on top of it, move
//! application, and the six-field position text format; also a tree of
//! recorded openings and random self-play.
use vstd::prelude::*;

pub mod board;
pub mod chess_move;
pub mod fen;
pub mod fen_laws;
pub mod game;
pub mod legal;
pub mod movegen;
pub mod opening_tree;
pub mod piece;

pub use board::{Board, BoardModel};
pub use chess_move::ChessMove;
pub use fen::FenError;
pub use game::Game;
pub use opening_tree::OpeningTree;
pub use piece::{Piece, PieceType, PieceWrapper};

verus! {

/// Number of ranks, and of files, of the board.
pub const BOARD_SIZE: usize = 8;

/// A position record in the six-field text format, as bytes.
pub type FEN = Vec<u8>;

/// The two sides.
#[derive(Clone, Copy, Debug, PartialEq, Eq, Hash, Structural)]
pub enum Color {
    WHITE,
    BLACK,
}

pub const WHITE: Color = Color::WHITE;

pub const BLACK: Color = Color::BLACK;

/// The side opposite to `c`.
pub open spec fn opposite(c: Color) -> Color {
    match c {
        Color::WHITE => Color::BLACK,
        Color::BLACK => Color::WHITE,
    }
}

pub fn change_color(color: &Color) -> (r: Color)
    ensures
        r == opposite(*color),
{
    match color {
        Color::WHITE => Color::BLACK,
        Color::BLACK => Color::WHITE,
    }
}

/// Outcome of a finished game.
#[derive(Clone, Copy, Debug, PartialEq, Eq, Structural)]
pub enum Result {
    White,
    Black,
    Draw,
}

/// A square address: `.0` is the rank offset (0 is rank "1"), `.1` the file
/// offset (0 is file "a"). Values off the board are allowed; they never
/// address a square.
#[derive(Clone, Copy, Debug, PartialEq, Eq, Hash, Structural)]
pub struct Coord(pub isize, pub isize);

/// The byte that names file `f` ('a' for 0).
pub open spec fn file_char(f: int) -> u8 {
    (97 + f) as u8
}

/// The byte that names rank `r` ('1' for 0).
pub open spec fn rank_char(r: int) -> u8 {
    (49 + r) as u8
}

/// Algebraic text of a square: two bytes, exactly 'a'..'h' then '1'..'8'.
pub open spec fn parse_square(s: Seq<u8>) -> Option<Coord> {
    if s.len() == 2 && 97 <= s[0] <= 104 && 49 <= s[1] <= 56 {
        Some(Coord((s[1] - 49) as isize, (s[0] - 97) as isize))
    } else {
        None
    }
}

impl Coord {
    pub open spec fn on_board(self) -> bool {
        0 <= self.0 < 8 && 0 <= self.1 < 8
    }

    /// The two-byte algebraic name of an on-board square.
    pub open spec fn name(self) -> Seq<u8> {
        seq![file_char(self.1 as int), rank_char(self.0 as int)]
    }

    pub fn is_correct(&self) -> (r: bool)
        ensures
            r == self.on_board(),
    {
        self.0 >= 0 && self.0 < 8 && self.1 >= 0 && self.1 < 8
    }

    /// Reads a square written as a file letter and a rank digit; `None` on
    /// any other text.
    pub fn from_str(s: &[u8]) -> (r: Option<Coord>)
        ensures
            r == parse_square(s@),
    {
        if s.len() != 2 {
            return None;
        }
        let f = s[0];
        let l = s[1];
        // 'a'..='h' and '1'..='8'
        if f < 97 || f > 104 || l < 49 || l > 56 {
            return None;
        }
        Some(Coord((l - 49) as isize, (f - 97) as isize))
    }

    pub fn get_char_column(&self) -> (r: u8)
        requires
            0 <= self.1 < 8,
        ensures
            r == file_char(self.1 as int),
            r == 97 + self.1,
    {
        (97 + self.1) as u8
    }

    pub fn get_char_line(&self) -> (r: u8)
        requires
            0 <= self.0 < 8,
        ensures
            r == rank_char(self.0 as int),
            r == 49 + self.0,
    {
        (49 + self.0) as u8
    }

    pub fn get_str(&self) -> (r: Vec<u8>)
        requires
            self.on_board(),
        ensures
            r@ == self.name(),
    {
        let mut res: Vec<u8> = Vec::new();
        res.push(self.get_char_column());
        res.push(self.get_char_line());
        proof {
            assert(res@ =~= self.name());
        }
        res
    }

    /// Componentwise sum.
    pub fn add(self, other: Coord) -> (r: Coord)
        requires
            isize::MIN <= self.0 + other.0 <= isize::MAX,
            isize::MIN <= self.1 + other.1 <= isize::MAX,
        ensures
            r.0 == self.0 + other.0,
            r.1 == self.1 + other.1,
    {
        Coord(self.0 + other.0, self.1 + other.1)
    }

    /// Both components scaled by `k`.
    pub fn mul(self, k: isize) -> (r: Coord)
        requires
            isize::MIN <= self.0 * k <= isize::MAX,
            isize::MIN <= self.1 * k <= isize::MAX,
        ensures
            r.0 == self.0 * k,
            r.1 == self.1 * k,
    {
        Coord(self.0 * k, self.1 * k)
    }
}

impl From<(i32, i32)> for Coord {
    fn from(input: (i32, i32)) -> (r: Coord) {
        Coord(input.0 as isize, input.1 as isize)
    }
}

impl vstd::std_specs::convert::FromSpecImpl<(i32, i32)> for Coord {
    open spec fn obeys_from_spec() -> bool {
        true
    }

    open spec fn from_spec(input: (i32, i32)) -> Coord {
        Coord(input.0 as isize, input.1 as isize)
    }
}

} // verus!
