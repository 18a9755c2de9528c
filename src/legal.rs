//! The legal-move layer: pseudo-legal candidates that do not leave the
//! mover's own king where the opponent could capture it.
use crate::board::{Board, BoardModel};
use crate::chess_move::ChessMove;
use crate::movegen::available;
use crate::piece::{Piece, PieceType};
use crate::Color;
use vstd::prelude::*;

verus! {

/// Some candidate of the side to move in `b` lands on a king of `color`.
pub open spec fn king_attacked(b: BoardModel, color: Color) -> bool {
    exists|i: int|
        0 <= i < available(b).len() && b.at(#[trigger] available(b)[i].end) == Some(
            Piece { piece_type: PieceType::KING, color },
        )
}

/// After `m`, no reply of the opponent can capture the mover's king.
pub open spec fn keeps_king_safe(b: BoardModel, m: ChessMove) -> bool {
    !king_attacked(b.apply(m), b.turn)
}

pub open spec fn king_safe_in(b: BoardModel) -> spec_fn(ChessMove) -> bool {
    |m: ChessMove| keeps_king_safe(b, m)
}

/// The legal moves of the side to move: its pseudo-legal candidates, in
/// generation order, that keep its king safe.
pub open spec fn legal(b: BoardModel) -> Seq<ChessMove> {
    available(b).filter(king_safe_in(b))
}

/// Whether the side to move in `board` can capture a king of `color`.
fn is_king_attacked(board: &Board, color: Color) -> (r: bool)
    ensures
        r == king_attacked(board@, color),
{
    let replies = board.available_moves();
    let king = Piece { piece_type: PieceType::KING, color };
    let mut i: usize = 0;
    while i < replies.len()
        invariant
            i <= replies@.len(),
            replies@ == available(board@),
            king == (Piece { piece_type: PieceType::KING, color }),
            forall|j: int| 0 <= j < i ==> board@.at(#[trigger] replies@[j].end) != Some(king),
        decreases replies@.len() - i,
    {
        let e = replies[i].end;
        if e.is_correct() {
            if let Some(p) = board.position[e.0 as usize][e.1 as usize] {
                if p.piece_type == PieceType::KING && p.color == color {
                    proof {
                        assert(board@.at(replies@[i as int].end) == Some(king));
                    }
                    return true;
                }
            }
        }
        i = i + 1;
    }
    false
}

impl Board {
    /// The candidates of the side to move that do not leave its own king
    /// capturable by the reply.
    pub fn legal_moves(&self) -> (r: Vec<ChessMove>)
        requires
            self.halfmove_clock < usize::MAX,
            self.move_count < usize::MAX,
        ensures
            r@ == legal(self@),
    {
        let candidates = self.available_moves();
        let mut res: Vec<ChessMove> = Vec::new();
        let mut i: usize = 0;
        while i < candidates.len()
            invariant
                i <= candidates@.len(),
                candidates@ == available(self@),
                self.halfmove_clock < usize::MAX,
                self.move_count < usize::MAX,
                res@ == candidates@.take(i as int).filter(king_safe_in(self@)),
            decreases candidates@.len() - i,
        {
            let m = candidates[i];
            let mut after = *self;
            after.do_move(&m);
            let attacked = is_king_attacked(&after, self.turn);
            if !attacked {
                res.push(m);
            }
            proof {
                let s = candidates@.take(i + 1);
                assert(s.drop_last() =~= candidates@.take(i as int));
                assert(s.last() == m);
                assert(king_safe_in(self@)(m) == !attacked);
                let p = king_safe_in(self@);
                reveal(Seq::filter);
                assert(s.filter(p) == (if p(s.last()) {
                    s.drop_last().filter(p).push(s.last())
                } else {
                    s.drop_last().filter(p)
                }));
            }
            i = i + 1;
        }
        proof {
            assert(candidates@.take(candidates@.len() as int) =~= candidates@);
        }
        res
    }
}

} // verus!

verus! {

/// Every legal move is a pseudo-legal candidate that keeps the mover's king
/// safe, and every such candidate is legal.
pub proof fn lemma_legal_moves(b: BoardModel, m: ChessMove)
    ensures
        legal(b).contains(m) <==> (available(b).contains(m) && keeps_king_safe(b, m)),
{
    broadcast use vstd::seq_lib::group_filter_ensures;

    let p = king_safe_in(b);
    if legal(b).contains(m) {
        let i = choose|i: int| 0 <= i < legal(b).len() && legal(b)[i] == m;
        assert(p(legal(b)[i]));
        available(b).lemma_filter_contains_rev(p, m);
    }
    if available(b).contains(m) && keeps_king_safe(b, m) {
        let i = choose|i: int| 0 <= i < available(b).len() && available(b)[i] == m;
        available(b).lemma_filter_contains(p, i);
    }
}

} // verus!
