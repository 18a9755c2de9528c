use crate::{Color, Coord, Piece, PieceType};
use vstd::prelude::*;

verus! {

/// One transition of a position: the piece that arrives at `end` (for a
/// promotion, already the promoted piece), where it comes from, and flags.
#[derive(Clone, Copy, Debug, PartialEq, Eq, Hash, Structural)]
pub struct ChessMove {
    pub piece: Piece,
    pub start: Coord,
    pub end: Coord,
    pub is_king_castling: bool,
    pub is_queen_castling: bool,
    pub is_capture: bool,
    pub is_check: bool,
    pub is_mate: bool,
    pub promotion: Option<Piece>,
}

/// The move of `piece` from `start` to `end` with every flag clear except
/// the capture flag, which is `capture`.
pub open spec fn plain_move(piece: Piece, start: Coord, end: Coord, capture: bool) -> ChessMove {
    ChessMove {
        piece,
        start,
        end,
        is_king_castling: false,
        is_queen_castling: false,
        is_capture: capture,
        is_check: false,
        is_mate: false,
        promotion: None,
    }
}

/// Short notation: "O-O" for a king-side castle, "O-O-O" for a queen-side
/// one, otherwise the piece letter (none for a pawn) and the destination.
pub open spec fn notation_of(m: ChessMove) -> Seq<u8> {
    if m.is_king_castling {
        seq![79u8, 45u8, 79u8]
    } else if m.is_queen_castling {
        seq![79u8, 45u8, 79u8, 45u8, 79u8]
    } else {
        match m.piece.notation_letter() {
            Some(c) => seq![c] + m.end.name(),
            None => m.end.name(),
        }
    }
}

impl ChessMove {
    pub fn new_plain(piece: Piece, start: Coord, end: Coord, capture: bool) -> (r: ChessMove)
        ensures
            r == plain_move(piece, start, end, capture),
    {
        ChessMove {
            piece,
            start,
            end,
            is_king_castling: false,
            is_queen_castling: false,
            is_capture: capture,
            is_check: false,
            is_mate: false,
            promotion: None,
        }
    }

    pub fn notation(&self) -> (r: Vec<u8>)
        requires
            self.is_king_castling || self.is_queen_castling || self.end.on_board(),
        ensures
            r@ == notation_of(*self),
    {
        let mut res: Vec<u8> = Vec::new();
        if self.is_king_castling || self.is_queen_castling {
            res.push(79);
            res.push(45);
            res.push(79);
            if !self.is_king_castling {
                res.push(45);
                res.push(79);
            }
            proof {
                assert(res@ =~= notation_of(*self));
            }
            return res;
        }
        if let Some(c) = self.piece.get_notation() {
            res.push(c);
        }
        let mut sq = self.end.get_str();
        res.append(&mut sq);
        proof {
            assert(res@ =~= notation_of(*self));
        }
        res
    }
}

impl Default for ChessMove {
    fn default() -> (r: ChessMove)
        ensures
            r == plain_move(
                Piece { piece_type: PieceType::PAWN, color: Color::WHITE },
                Coord(0, 0),
                Coord(0, 0),
                false,
            ),
    {
        ChessMove {
            piece: Piece { piece_type: PieceType::PAWN, color: Color::WHITE },
            start: Coord(0, 0),
            end: Coord(0, 0),
            is_king_castling: false,
            is_queen_castling: false,
            is_capture: false,
            is_check: false,
            is_mate: false,
            promotion: None,
        }
    }
}

} // verus!
