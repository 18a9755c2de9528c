//! A tree of positions reached from a root position by recorded moves.
use crate::board::{start_model, Board};
use crate::chess_move::ChessMove;
use crate::fen::encode;
use crate::FEN;
use vstd::prelude::*;

verus! {

/// A node: its position, and one subtree per distinct move recorded from
/// it, in the order the moves were added.
#[derive(Debug)]
pub struct OpeningTree {
    pub root: Vec<(ChessMove, OpeningTree)>,
    pub position: Board,
}

impl OpeningTree {
    /// No move is recorded twice from this node.
    pub open spec fn keys_unique(self) -> bool {
        forall|i: int, j: int|
            0 <= i < j < self.root@.len() ==> (#[trigger] self.root@[i]).0 != (
            #[trigger] self.root@[j]).0
    }

    /// Whether `m` is recorded from this node.
    pub open spec fn has_move(self, m: ChessMove) -> bool {
        exists|i: int| 0 <= i < self.root@.len() && (#[trigger] self.root@[i]).0 == m
    }

    /// Every position in the tree can be written as text: its en-passant
    /// target, if any, is on the board.
    pub open spec fn writable(self) -> bool
        decreases self,
    {
        &&& (self.position.en_passant matches Some(c) ==> c.on_board())
        &&& forall|i: int|
            0 <= i < self.root@.len() ==> (#[trigger] self.root@[i]).1.writable()
    }

    /// The texts of the leaf positions, depth first, subtrees in the order
    /// their moves were added.
    pub open spec fn leaves(self) -> Seq<Seq<u8>>
        decreases self, 1int,
    {
        if self.root@.len() == 0 {
            seq![encode(self.position@)]
        } else {
            leaves_of(self.root@, self.root@.len() as int)
        }
    }

    pub fn new() -> (t: Self)
        ensures
            t.root@.len() == 0,
            t.position@ == start_model(),
    {
        OpeningTree { root: Vec::new(), position: Board::default() }
    }

    pub fn new_from_position(board: &Board) -> (t: Self)
        ensures
            t.root@.len() == 0,
            t.position == *board,
    {
        OpeningTree { root: Vec::new(), position: *board }
    }

    pub fn is_leaf(&self) -> (r: bool)
        ensures
            r == (self.root@.len() == 0),
    {
        self.root.len() == 0
    }

    /// The position texts of every leaf (see `leaves`).
    pub fn get_leafs(&self) -> (r: Vec<FEN>)
        requires
            self.writable(),
        ensures
            r@.len() == self.leaves().len(),
            forall|i: int| 0 <= i < r@.len() ==> (#[trigger] r@[i])@ == self.leaves()[i],
        decreases self,
    {
        let mut acc: Vec<FEN> = Vec::new();
        if self.is_leaf() {
            acc.push(self.position.to_fen());
            return acc;
        }
        let mut i: usize = 0;
        while i < self.root.len()
            invariant
                i <= self.root@.len(),
                self.writable(),
                acc@.len() == leaves_of(self.root@, i as int).len(),
                forall|k: int|
                    0 <= k < acc@.len() ==> (#[trigger] acc@[k])@ == leaves_of(self.root@, i as int)[k],
            decreases self.root@.len() - i,
        {
            let mut sub = self.root[i].1.get_leafs();
            let ghost subv = sub@;
            acc.append(&mut sub);
            proof {
                let prev = leaves_of(self.root@, i as int);
                let sl = self.root@[i as int].1.leaves();
                assert(leaves_of(self.root@, i + 1) == prev + sl);
                assert forall|k: int| 0 <= k < acc@.len() implies (#[trigger] acc@[k])@ == (prev
                    + sl)[k] by {
                    if k >= prev.len() {
                        assert(acc@[k] == subv[k - prev.len()]);
                    }
                }
            }
            i = i + 1;
        }
        acc
    }

    /// Records `chess_move` from this node, with a new leaf holding the
    /// position it leads to; nothing changes if the move is already there.
    pub fn add_move(&mut self, chess_move: &ChessMove)
        requires
            old(self).keys_unique(),
            old(self).position.halfmove_clock < usize::MAX,
            old(self).position.move_count < usize::MAX,
        ensures
            final(self).keys_unique(),
            final(self).position == old(self).position,
            old(self).has_move(*chess_move) ==> final(self).root@ == old(self).root@,
            !old(self).has_move(*chess_move) ==> {
                &&& final(self).root@.len() == old(self).root@.len() + 1
                &&& final(self).root@.take(old(self).root@.len() as int) == old(self).root@
                &&& final(self).root@.last().0 == *chess_move
                &&& final(self).root@.last().1.root@.len() == 0
                &&& final(self).root@.last().1.position@ == old(self).position@.apply(*chess_move)
            },
    {
        let mut i: usize = 0;
        while i < self.root.len()
            invariant
                i <= self.root@.len(),
                *self == *old(self),
                old(self).keys_unique(),
                forall|k: int| 0 <= k < i ==> (#[trigger] self.root@[k]).0 != *chess_move,
            decreases self.root@.len() - i,
        {
            if self.root[i].0 == *chess_move {
                return;
            }
            i = i + 1;
        }
        let mut board = self.position;
        proof {
            crate::board::lemma_board_view_wf(&board);
        }
        board.do_move(chess_move);
        self.root.push((*chess_move, OpeningTree::new_from_position(&board)));
        proof {
            assert(self.root@.take(old(self).root@.len() as int) =~= old(self).root@);
        }
    }
}

/// The leaf texts of the first `n` subtrees of `children`, in order.
pub open spec fn leaves_of(children: Seq<(ChessMove, OpeningTree)>, n: int) -> Seq<Seq<u8>>
    decreases children, n,
{
    if n <= 0 || n > children.len() {
        seq![]
    } else {
        leaves_of(children, n - 1) + children[n - 1].1.leaves()
    }
}

} // verus!
