//! Random self-play from the starting position.
use crate::board::{lemma_board_view_wf, start_model, Board, BoardModel};
use crate::chess_move::ChessMove;
use crate::movegen::available;
use rand::seq::SliceRandom;
use vstd::prelude::*;

verus! {

/// A played game: its moves in order, and its outcome once decided.
#[derive(Debug)]
pub struct Game {
    pub moves: Vec<ChessMove>,
    pub result: Option<crate::Result>,
}

/// The position reached from `b` by applying `ms` in order.
pub open spec fn replay(b: BoardModel, ms: Seq<ChessMove>) -> BoardModel
    decreases ms.len(),
{
    if ms.len() == 0 {
        b
    } else {
        replay(b, ms.drop_last()).apply(ms.last())
    }
}

/// Each move of `ms` is a pseudo-legal candidate of the position it is
/// played in, starting from `b`.
pub open spec fn is_playout(b: BoardModel, ms: Seq<ChessMove>) -> bool
    decreases ms.len(),
{
    ms.len() == 0 || (is_playout(b, ms.drop_last()) && available(replay(b, ms.drop_last())).contains(
        ms.last(),
    ))
}

/// Relies on rand's `SliceRandom::choose` with the thread-local generator:
/// nothing for an empty slice, otherwise one of its elements.
#[verifier::external_body]
fn choose_move(moves: &Vec<ChessMove>) -> (r: Option<ChessMove>)
    ensures
        r is None <==> moves@.len() == 0,
        r matches Some(m) ==> moves@.contains(m),
{
    moves.as_slice().choose(&mut rand::thread_rng()).copied()
}

impl Game {
    fn new() -> (g: Self)
        ensures
            g.moves@ == Seq::<ChessMove>::empty(),
            g.result is None,
    {
        Game { moves: Vec::new(), result: None }
    }

    /// Plays random pseudo-legal moves from the starting position until the
    /// side to move has none or `max_plies` moves have been played, and
    /// records the game as drawn.
    pub fn random(max_plies: usize) -> (g: Self)
        requires
            max_plies < usize::MAX,
        ensures
            is_playout(start_model(), g.moves@),
            g.moves@.len() <= max_plies,
            available(replay(start_model(), g.moves@)).len() == 0 || g.moves@.len() == max_plies,
            g.result == Some(crate::Result::Draw),
    {
        let mut game = Game::new();
        let mut board = Board::default();
        let mut done = false;
        while !done && game.moves.len() < max_plies
            invariant
                game.moves@.len() <= max_plies,
                max_plies < usize::MAX,
                board@ == replay(start_model(), game.moves@),
                is_playout(start_model(), game.moves@),
                board.halfmove_clock <= game.moves@.len(),
                board.move_count <= game.moves@.len() + 1,
                done ==> available(board@).len() == 0,
            decreases max_plies - game.moves@.len() + (if done {
                0int
            } else {
                1int
            }),
        {
            let candidates = board.available_moves();
            match choose_move(&candidates) {
                None => {
                    done = true;
                },
                Some(m) => {
                    let ghost before = game.moves@;
                    proof {
                        lemma_board_view_wf(&board);
                    }
                    board.do_move(&m);
                    game.moves.push(m);
                    proof {
                        assert(game.moves@.drop_last() =~= before);
                    }
                },
            }
        }
        game.result = Some(crate::Result::Draw);
        game
    }
}

} // verus!
