use crate::Color;
use vstd::prelude::*;

verus! {

/// The six kinds of chessmen.
#[derive(Clone, Copy, Debug, PartialEq, Eq, Hash, Structural)]
pub enum PieceType {
    KING,
    QUEEN,
    ROOK,
    BISHOP,
    KNIGHT,
    PAWN,
}

/// A kind together with its side.
pub type PieceWrapper = (PieceType, Color);

/// A chessman: its kind and its side. Two pieces with equal fields are
/// interchangeable.
#[derive(Clone, Copy, Debug, PartialEq, Eq, Hash, Structural)]
pub struct Piece {
    pub piece_type: PieceType,
    pub color: Color,
}

/// ASCII upper-casing of one byte: 'a'..='z' move to 'A'..='Z', every other
/// byte stays.
pub open spec fn ascii_upper(c: u8) -> u8 {
    if 97 <= c <= 122 {
        (c - 32) as u8
    } else {
        c
    }
}

/// Whether `c` is an ASCII capital letter.
pub open spec fn is_ascii_upper(c: u8) -> bool {
    65 <= c <= 90
}

/// The kind named by an upper-case letter of "PNBRQK".
pub open spec fn type_of_letter(c: u8) -> Option<PieceType> {
    if c == 80 {
        Some(PieceType::PAWN)
    } else if c == 78 {
        Some(PieceType::KNIGHT)
    } else if c == 66 {
        Some(PieceType::BISHOP)
    } else if c == 82 {
        Some(PieceType::ROOK)
    } else if c == 81 {
        Some(PieceType::QUEEN)
    } else if c == 75 {
        Some(PieceType::KING)
    } else {
        None
    }
}

/// The piece that a letter of the position text stands for: the kind from
/// the letter in either case, White for upper case and Black otherwise.
pub open spec fn piece_of_char(c: u8) -> Option<Piece> {
    match type_of_letter(ascii_upper(c)) {
        Some(t) => Some(Piece { piece_type: t, color: if is_ascii_upper(c) { Color::WHITE } else { Color::BLACK } }),
        None => None,
    }
}

fn to_ascii_uppercase(c: u8) -> (r: u8)
    ensures
        r == ascii_upper(c),
{
    if 97 <= c && c <= 122 {
        c - 32
    } else {
        c
    }
}

impl PieceType {
    /// The canonical upper-case letter of the kind.
    pub open spec fn letter(self) -> u8 {
        match self {
            PieceType::PAWN => 80,
            PieceType::KNIGHT => 78,
            PieceType::BISHOP => 66,
            PieceType::ROOK => 82,
            PieceType::QUEEN => 81,
            PieceType::KING => 75,
        }
    }

    pub fn from_uppercase(c: &u8) -> (r: Option<Self>)
        ensures
            r == type_of_letter(*c),
    {
        match *c {
            80 => Some(PieceType::PAWN),
            78 => Some(PieceType::KNIGHT),
            66 => Some(PieceType::BISHOP),
            82 => Some(PieceType::ROOK),
            81 => Some(PieceType::QUEEN),
            75 => Some(PieceType::KING),
            _ => None,
        }
    }

    /// The kind named by a letter of "PNBRQK" in either case.
    pub fn from_char(c: &u8) -> (r: Option<Self>)
        ensures
            r == type_of_letter(ascii_upper(*c)),
    {
        let up_c = to_ascii_uppercase(*c);
        PieceType::from_uppercase(&up_c)
    }

    pub fn get_char(&self) -> (r: u8)
        ensures
            r == self.letter(),
    {
        match self {
            PieceType::PAWN => 80,
            PieceType::KNIGHT => 78,
            PieceType::BISHOP => 66,
            PieceType::ROOK => 82,
            PieceType::QUEEN => 81,
            PieceType::KING => 75,
        }
    }
}

impl Piece {
    /// The letter of the piece in the position text: upper case for White,
    /// lower case for Black.
    pub open spec fn letter(self) -> u8 {
        match self.color {
            Color::WHITE => self.piece_type.letter(),
            Color::BLACK => (self.piece_type.letter() + 32) as u8,
        }
    }

    /// The letter that move notation writes before the destination; none for
    /// a pawn.
    pub open spec fn notation_letter(self) -> Option<u8> {
        if self.piece_type == PieceType::PAWN {
            None
        } else {
            Some(self.piece_type.letter())
        }
    }

    /// The display glyph of the piece.
    pub open spec fn glyph(self) -> char {
        match (self.piece_type, self.color) {
            (PieceType::PAWN, Color::WHITE) => '\u{2659}',
            (PieceType::PAWN, Color::BLACK) => '\u{265F}',
            (PieceType::KNIGHT, Color::WHITE) => '\u{2658}',
            (PieceType::KNIGHT, Color::BLACK) => '\u{265E}',
            (PieceType::BISHOP, Color::WHITE) => '\u{2657}',
            (PieceType::BISHOP, Color::BLACK) => '\u{265D}',
            (PieceType::ROOK, Color::WHITE) => '\u{2656}',
            (PieceType::ROOK, Color::BLACK) => '\u{265C}',
            (PieceType::QUEEN, Color::WHITE) => '\u{2655}',
            (PieceType::QUEEN, Color::BLACK) => '\u{265B}',
            (PieceType::KING, Color::WHITE) => '\u{2654}',
            (PieceType::KING, Color::BLACK) => '\u{265A}',
        }
    }

    pub fn from_char(c: &u8) -> (r: Option<Self>)
        ensures
            r == piece_of_char(*c),
    {
        let color = if 65 <= *c && *c <= 90 {
            Color::WHITE
        } else {
            Color::BLACK
        };
        let piece_type = PieceType::from_char(c);
        match piece_type {
            Some(p) => Some(Piece { piece_type: p, color }),
            None => None,
        }
    }

    pub fn get_notation(&self) -> (r: Option<u8>)
        ensures
            r == self.notation_letter(),
    {
        match self.piece_type {
            PieceType::PAWN => None,
            _ => Some(self.piece_type.get_char()),
        }
    }

    pub fn to_char(&self) -> (r: u8)
        ensures
            r == self.letter(),
    {
        let c = self.piece_type.get_char();
        match self.color {
            Color::BLACK => c + 32,
            Color::WHITE => c,
        }
    }

    pub fn get_unicode(&self) -> (r: char)
        ensures
            r == self.glyph(),
    {
        match (self.piece_type, self.color) {
            (PieceType::PAWN, Color::WHITE) => '\u{2659}',
            (PieceType::PAWN, Color::BLACK) => '\u{265F}',
            (PieceType::KNIGHT, Color::WHITE) => '\u{2658}',
            (PieceType::KNIGHT, Color::BLACK) => '\u{265E}',
            (PieceType::BISHOP, Color::WHITE) => '\u{2657}',
            (PieceType::BISHOP, Color::BLACK) => '\u{265D}',
            (PieceType::ROOK, Color::WHITE) => '\u{2656}',
            (PieceType::ROOK, Color::BLACK) => '\u{265C}',
            (PieceType::QUEEN, Color::WHITE) => '\u{2655}',
            (PieceType::QUEEN, Color::BLACK) => '\u{265B}',
            (PieceType::KING, Color::WHITE) => '\u{2654}',
            (PieceType::KING, Color::BLACK) => '\u{265A}',
        }
    }
}

} // verus!
