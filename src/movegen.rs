//! Pseudo-legal move generation: one rule per kind of piece, and the
//! enumeration of every candidate of the side to move. No rule looks at the
//! safety of the mover's king.
use crate::board::{Board, BoardModel};
use crate::chess_move::{plain_move, ChessMove};
use crate::piece::{Piece, PieceType};
use crate::{Color, Coord};
use vstd::prelude::*;

verus! {

/// `c` moved by `dr` ranks and `df` files.
pub open spec fn shift(c: Coord, dr: int, df: int) -> Coord {
    Coord((c.0 + dr) as isize, (c.1 + df) as isize)
}

/// The eight knight jumps, in the order they are tried.
pub open spec fn knight_jump(i: int) -> (int, int) {
    if i == 0 {
        (1, 2)
    } else if i == 1 {
        (1, -2)
    } else if i == 2 {
        (2, 1)
    } else if i == 3 {
        (2, -1)
    } else if i == 4 {
        (-1, 2)
    } else if i == 5 {
        (-1, -2)
    } else if i == 6 {
        (-2, 1)
    } else {
        (-2, -1)
    }
}

/// The eight directions, in the order they are tried: the four orthogonal
/// ones (indices 0..4, a rook's), then the four diagonal ones (4..8, a
/// bishop's). A queen and a king use all eight.
pub open spec fn direction(i: int) -> (int, int) {
    if i == 0 {
        (0, 1)
    } else if i == 1 {
        (0, -1)
    } else if i == 2 {
        (-1, 0)
    } else if i == 3 {
        (1, 0)
    } else if i == 4 {
        (1, 1)
    } else if i == 5 {
        (1, -1)
    } else if i == 6 {
        (-1, 1)
    } else {
        (-1, -1)
    }
}

/// The candidate of a single step of `piece` from `from` to `to`: a quiet
/// move onto a free square, a capture of an opposing piece, or nothing.
pub open spec fn step_moves(b: BoardModel, piece: Piece, from: Coord, to: Coord) -> Seq<ChessMove> {
    if b.is_free(to) {
        seq![plain_move(piece, from, to, false)]
    } else if b.capturable(to, piece.color) {
        seq![plain_move(piece, from, to, true)]
    } else {
        seq![]
    }
}

/// The single-step candidates over the first `n` offsets: knight jumps, or
/// the eight directions at distance one for a king.
pub open spec fn jump_moves(b: BoardModel, piece: Piece, from: Coord, knight: bool, n: int) -> Seq<
    ChessMove,
>
    decreases n,
{
    if n <= 0 {
        seq![]
    } else {
        let d = if knight {
            knight_jump(n - 1)
        } else {
            direction(n - 1)
        };
        jump_moves(b, piece, from, knight, n - 1) + step_moves(b, piece, from, shift(from, d.0, d.1))
    }
}

/// The candidates along a ray that has reached `cur`, with `left` more
/// steps allowed: each free square, then the first occupied square if it
/// can be captured; the ray ends there or at the edge.
pub open spec fn ray_moves(
    b: BoardModel,
    piece: Piece,
    from: Coord,
    d: (int, int),
    cur: Coord,
    left: nat,
) -> Seq<ChessMove>
    decreases left,
{
    if left == 0 {
        seq![]
    } else {
        let to = shift(cur, d.0, d.1);
        if b.is_free(to) {
            seq![plain_move(piece, from, to, false)] + ray_moves(b, piece, from, d, to, (left - 1) as nat)
        } else if b.capturable(to, piece.color) {
            seq![plain_move(piece, from, to, true)]
        } else {
            seq![]
        }
    }
}

/// The sliding candidates along directions `first .. first + n`, each ray
/// up to seven steps long.
pub open spec fn slide_moves(b: BoardModel, piece: Piece, from: Coord, first: int, n: int) -> Seq<
    ChessMove,
>
    decreases n,
{
    if n <= 0 {
        seq![]
    } else {
        slide_moves(b, piece, from, first, n - 1) + ray_moves(
            b,
            piece,
            from,
            direction(first + n - 1),
            from,
            7,
        )
    }
}

/// A pawn's diagonal candidate: `to` holds an opposing piece or is the
/// en-passant target.
pub open spec fn pawn_capture(b: BoardModel, piece: Piece, from: Coord, to: Coord) -> Seq<ChessMove> {
    if to.on_board() && (b.capturable(to, piece.color) || b.en_passant == Some(to)) {
        seq![plain_move(piece, from, to, true)]
    } else {
        seq![]
    }
}

/// The rank step of a pawn of `color`.
pub open spec fn forward(color: Color) -> int {
    if color == Color::WHITE {
        1
    } else {
        -1
    }
}

/// The rank a pawn of `color` starts on.
pub open spec fn home_rank(color: Color) -> int {
    if color == Color::WHITE {
        1
    } else {
        6
    }
}

/// A pawn's candidates: one step forward onto a free square; two steps from
/// its home rank when both squares are free; the two diagonal captures
/// (toward the higher file first).
pub open spec fn pawn_moves(b: BoardModel, piece: Piece, from: Coord) -> Seq<ChessMove> {
    let fw = forward(piece.color);
    let one = shift(from, fw, 0);
    let two = shift(from, 2 * fw, 0);
    let advances = if b.is_free(one) {
        if from.0 == home_rank(piece.color) && b.is_free(two) {
            seq![plain_move(piece, from, one, false), plain_move(piece, from, two, false)]
        } else {
            seq![plain_move(piece, from, one, false)]
        }
    } else {
        seq![]
    };
    advances + pawn_capture(b, piece, from, shift(from, fw, 1)) + pawn_capture(
        b,
        piece,
        from,
        shift(from, fw, -1),
    )
}

/// The pseudo-legal candidates of `piece` standing on `from`.
pub open spec fn piece_moves(b: BoardModel, piece: Piece, from: Coord) -> Seq<ChessMove> {
    match piece.piece_type {
        PieceType::PAWN => pawn_moves(b, piece, from),
        PieceType::KNIGHT => jump_moves(b, piece, from, true, 8),
        PieceType::BISHOP => slide_moves(b, piece, from, 4, 4),
        PieceType::ROOK => slide_moves(b, piece, from, 0, 4),
        PieceType::QUEEN => slide_moves(b, piece, from, 0, 8),
        PieceType::KING => jump_moves(b, piece, from, false, 8),
    }
}

/// The candidates of the piece on `c`, if it belongs to the side to move.
pub open spec fn square_moves(b: BoardModel, c: Coord) -> Seq<ChessMove> {
    match b.at(c) {
        Some(p) => if p.color == b.turn {
            piece_moves(b, p, c)
        } else {
            seq![]
        },
        None => seq![],
    }
}

/// The candidates from files `0 .. n` of rank `r`.
pub open spec fn rank_moves(b: BoardModel, r: int, n: int) -> Seq<ChessMove>
    decreases n,
{
    if n <= 0 {
        seq![]
    } else {
        rank_moves(b, r, n - 1) + square_moves(b, Coord(r as isize, (n - 1) as isize))
    }
}

/// The candidates from ranks `0 .. n`, rank by rank, file by file.
pub open spec fn board_moves(b: BoardModel, n: int) -> Seq<ChessMove>
    decreases n,
{
    if n <= 0 {
        seq![]
    } else {
        board_moves(b, n - 1) + rank_moves(b, n - 1, 8)
    }
}

/// Every pseudo-legal candidate of the side to move, origins in row-major
/// order.
pub open spec fn available(b: BoardModel) -> Seq<ChessMove> {
    board_moves(b, 8)
}

/// Every move of `s` lands on the board.
pub open spec fn lands_on_board(s: Seq<ChessMove>) -> bool {
    forall|i: int| 0 <= i < s.len() ==> (#[trigger] s[i]).end.on_board()
}

proof fn lemma_concat_lands(a: Seq<ChessMove>, b: Seq<ChessMove>)
    requires
        lands_on_board(a),
        lands_on_board(b),
    ensures
        lands_on_board(a + b),
{
    assert forall|i: int| 0 <= i < (a + b).len() implies (#[trigger] (a + b)[i]).end.on_board() by {
        if i >= a.len() {
            assert((a + b)[i] == b[i - a.len()]);
        }
    }
}

proof fn lemma_jumps_land(b: BoardModel, piece: Piece, from: Coord, knight: bool, n: int)
    ensures
        lands_on_board(jump_moves(b, piece, from, knight, n)),
    decreases n,
{
    if n > 0 {
        let d = if knight {
            knight_jump(n - 1)
        } else {
            direction(n - 1)
        };
        lemma_jumps_land(b, piece, from, knight, n - 1);
        lemma_concat_lands(
            jump_moves(b, piece, from, knight, n - 1),
            step_moves(b, piece, from, shift(from, d.0, d.1)),
        );
    }
}

proof fn lemma_ray_lands(b: BoardModel, piece: Piece, from: Coord, d: (int, int), cur: Coord, left: nat)
    ensures
        lands_on_board(ray_moves(b, piece, from, d, cur, left)),
    decreases left,
{
    if left > 0 {
        let to = shift(cur, d.0, d.1);
        if b.is_free(to) {
            lemma_ray_lands(b, piece, from, d, to, (left - 1) as nat);
            lemma_concat_lands(
                seq![plain_move(piece, from, to, false)],
                ray_moves(b, piece, from, d, to, (left - 1) as nat),
            );
        }
    }
}

proof fn lemma_slides_land(b: BoardModel, piece: Piece, from: Coord, first: int, n: int)
    ensures
        lands_on_board(slide_moves(b, piece, from, first, n)),
    decreases n,
{
    if n > 0 {
        lemma_slides_land(b, piece, from, first, n - 1);
        lemma_ray_lands(b, piece, from, direction(first + n - 1), from, 7);
        lemma_concat_lands(
            slide_moves(b, piece, from, first, n - 1),
            ray_moves(b, piece, from, direction(first + n - 1), from, 7),
        );
    }
}

proof fn lemma_piece_moves_land(b: BoardModel, piece: Piece, from: Coord)
    ensures
        lands_on_board(piece_moves(b, piece, from)),
{
    match piece.piece_type {
        PieceType::PAWN => {
            let fw = forward(piece.color);
            let one = shift(from, fw, 0);
            let two = shift(from, 2 * fw, 0);
            let advances = if b.is_free(one) {
                if from.0 == home_rank(piece.color) && b.is_free(two) {
                    seq![plain_move(piece, from, one, false), plain_move(piece, from, two, false)]
                } else {
                    seq![plain_move(piece, from, one, false)]
                }
            } else {
                seq![]
            };
            let right = pawn_capture(b, piece, from, shift(from, fw, 1));
            let left = pawn_capture(b, piece, from, shift(from, fw, -1));
            lemma_concat_lands(advances, right);
            lemma_concat_lands(advances + right, left);
        },
        PieceType::KNIGHT => lemma_jumps_land(b, piece, from, true, 8),
        PieceType::BISHOP => lemma_slides_land(b, piece, from, 4, 4),
        PieceType::ROOK => lemma_slides_land(b, piece, from, 0, 4),
        PieceType::QUEEN => lemma_slides_land(b, piece, from, 0, 8),
        PieceType::KING => lemma_jumps_land(b, piece, from, false, 8),
    }
}

proof fn lemma_rank_moves_land(b: BoardModel, r: int, n: int)
    ensures
        lands_on_board(rank_moves(b, r, n)),
    decreases n,
{
    if n > 0 {
        let c = Coord(r as isize, (n - 1) as isize);
        lemma_rank_moves_land(b, r, n - 1);
        if let Some(p) = b.at(c) {
            lemma_piece_moves_land(b, p, c);
        }
        lemma_concat_lands(rank_moves(b, r, n - 1), square_moves(b, c));
    }
}

proof fn lemma_board_moves_land(b: BoardModel, n: int)
    ensures
        lands_on_board(board_moves(b, n)),
    decreases n,
{
    if n > 0 {
        lemma_board_moves_land(b, n - 1);
        lemma_rank_moves_land(b, n - 1, 8);
        lemma_concat_lands(board_moves(b, n - 1), rank_moves(b, n - 1, 8));
    }
}

/// No generated move, of one piece or of the whole side to move, has a
/// destination off the board.
pub proof fn lemma_destinations_on_board(b: BoardModel, piece: Piece, from: Coord)
    ensures
        forall|m: ChessMove| #[trigger] available(b).contains(m) ==> m.end.on_board(),
        forall|m: ChessMove| #[trigger] piece_moves(b, piece, from).contains(m) ==> m.end.on_board(),
{
    lemma_board_moves_land(b, 8);
    lemma_piece_moves_land(b, piece, from);
}

/// A square off the board is never reported free, never reported to hold a
/// piece of either side, and never reported capturable.
pub proof fn lemma_off_board_queries(b: BoardModel, c: Coord, color: Color)
    requires
        !c.on_board(),
    ensures
        !b.is_free(c),
        !b.holds_color(c, color),
        !b.capturable(c, color),
{
}

fn knight_offset(i: usize) -> (r: (isize, isize))
    requires
        i < 8,
    ensures
        r.0 == knight_jump(i as int).0,
        r.1 == knight_jump(i as int).1,
{
    match i {
        0 => (1, 2),
        1 => (1, -2),
        2 => (2, 1),
        3 => (2, -1),
        4 => (-1, 2),
        5 => (-1, -2),
        6 => (-2, 1),
        _ => (-2, -1),
    }
}

fn direction_offset(i: usize) -> (r: (isize, isize))
    requires
        i < 8,
    ensures
        r.0 == direction(i as int).0,
        r.1 == direction(i as int).1,
{
    match i {
        0 => (0, 1),
        1 => (0, -1),
        2 => (-1, 0),
        3 => (1, 0),
        4 => (1, 1),
        5 => (1, -1),
        6 => (-1, 1),
        _ => (-1, -1),
    }
}

fn push_step(board: &Board, piece: Piece, from: Coord, to: Coord, out: &mut Vec<ChessMove>)
    ensures
        final(out)@ == old(out)@ + step_moves(board@, piece, from, to),
{
    if board.is_square_free(&to) {
        out.push(ChessMove::new_plain(piece, from, to, false));
    } else if board.can_capture(&to, &piece.color) {
        out.push(ChessMove::new_plain(piece, from, to, true));
    }
    proof {
        assert(final(out)@ =~= old(out)@ + step_moves(board@, piece, from, to));
    }
}

fn push_jumps(board: &Board, piece: Piece, from: Coord, knight: bool, out: &mut Vec<ChessMove>)
    requires
        from.on_board(),
    ensures
        final(out)@ == old(out)@ + jump_moves(board@, piece, from, knight, 8),
{
    let ghost start = out@;
    let mut i: usize = 0;
    while i < 8
        invariant
            i <= 8,
            from.on_board(),
            out@ == start + jump_moves(board@, piece, from, knight, i as int),
        decreases 8 - i,
    {
        let d = if knight {
            knight_offset(i)
        } else {
            direction_offset(i)
        };
        let to = Coord(from.0 + d.0, from.1 + d.1);
        push_step(board, piece, from, to, out);
        proof {
            assert(out@ =~= start + jump_moves(board@, piece, from, knight, i + 1));
        }
        i = i + 1;
    }
}

fn push_ray(board: &Board, piece: Piece, from: Coord, d: (isize, isize), out: &mut Vec<ChessMove>)
    requires
        from.on_board(),
        -1 <= d.0 <= 1,
        -1 <= d.1 <= 1,
    ensures
        final(out)@ == old(out)@ + ray_moves(board@, piece, from, (d.0 as int, d.1 as int), from, 7),
{
    let ghost start = out@;
    let ghost dd = (d.0 as int, d.1 as int);
    let mut cur = from;
    let mut left: usize = 7;
    while left > 0
        invariant
            left <= 7,
            cur.on_board(),
            -1 <= d.0 <= 1,
            -1 <= d.1 <= 1,
            dd == (d.0 as int, d.1 as int),
            start + ray_moves(board@, piece, from, dd, from, 7) == out@ + ray_moves(
                board@,
                piece,
                from,
                dd,
                cur,
                left as nat,
            ),
        decreases left,
    {
        let to = Coord(cur.0 + d.0, cur.1 + d.1);
        let ghost before = out@;
        let ghost old_cur = cur;
        let ghost old_left = left;
        if board.is_square_free(&to) {
            out.push(ChessMove::new_plain(piece, from, to, false));
            cur = to;
            left = left - 1;
            proof {
                let rest = ray_moves(board@, piece, from, dd, cur, left as nat);
                assert(ray_moves(board@, piece, from, dd, old_cur, old_left as nat) == seq![
                    plain_move(piece, from, to, false),
                ] + rest);
                assert(before + (seq![plain_move(piece, from, to, false)] + rest) =~= out@ + rest);
            }
        } else {
            if board.can_capture(&to, &piece.color) {
                out.push(ChessMove::new_plain(piece, from, to, true));
            }
            left = 0;
            proof {
                assert(before + ray_moves(board@, piece, from, dd, old_cur, old_left as nat) =~= out@
                    + ray_moves(board@, piece, from, dd, cur, 0));
            }
        }
    }
    proof {
        assert(out@ + ray_moves(board@, piece, from, dd, cur, 0) =~= out@);
    }
}

fn push_slides(
    board: &Board,
    piece: Piece,
    from: Coord,
    first: usize,
    n: usize,
    out: &mut Vec<ChessMove>,
)
    requires
        from.on_board(),
        first + n <= 8,
    ensures
        final(out)@ == old(out)@ + slide_moves(board@, piece, from, first as int, n as int),
{
    let ghost start = out@;
    let mut i: usize = 0;
    while i < n
        invariant
            i <= n,
            first + n <= 8,
            from.on_board(),
            out@ == start + slide_moves(board@, piece, from, first as int, i as int),
        decreases n - i,
    {
        let d = direction_offset(first + i);
        push_ray(board, piece, from, d, out);
        proof {
            assert(direction(first + i) == (d.0 as int, d.1 as int));
            assert(out@ =~= start + slide_moves(board@, piece, from, first as int, i + 1));
        }
        i = i + 1;
    }
}

fn push_pawn_capture(board: &Board, piece: Piece, from: Coord, to: Coord, out: &mut Vec<ChessMove>)
    ensures
        final(out)@ == old(out)@ + pawn_capture(board@, piece, from, to),
{
    if to.is_correct() && (board.can_capture(&to, &piece.color) || board.en_passant == Some(to)) {
        out.push(ChessMove::new_plain(piece, from, to, true));
    }
    proof {
        assert(final(out)@ =~= old(out)@ + pawn_capture(board@, piece, from, to));
    }
}

fn push_pawn(board: &Board, piece: Piece, from: Coord, out: &mut Vec<ChessMove>)
    requires
        from.on_board(),
    ensures
        final(out)@ == old(out)@ + pawn_moves(board@, piece, from),
{
    let ghost start = out@;
    let fw: isize = if piece.color == Color::WHITE {
        1
    } else {
        -1
    };
    let home: isize = if piece.color == Color::WHITE {
        1
    } else {
        6
    };
    let one = Coord(from.0 + fw, from.1);
    let two = Coord(from.0 + fw + fw, from.1);
    if board.is_square_free(&one) {
        out.push(ChessMove::new_plain(piece, from, one, false));
        if from.0 == home && board.is_square_free(&two) {
            out.push(ChessMove::new_plain(piece, from, two, false));
        }
    }
    let ghost adv = out@;
    push_pawn_capture(board, piece, from, Coord(from.0 + fw, from.1 + 1), out);
    push_pawn_capture(board, piece, from, Coord(from.0 + fw, from.1 - 1), out);
    proof {
        let b = board@;
        let fs = forward(piece.color);
        assert(one == shift(from, fs, 0));
        assert(two == shift(from, 2 * fs, 0));
        let advances = if b.is_free(one) {
            if from.0 == home_rank(piece.color) && b.is_free(two) {
                seq![plain_move(piece, from, one, false), plain_move(piece, from, two, false)]
            } else {
                seq![plain_move(piece, from, one, false)]
            }
        } else {
            seq![]
        };
        assert(adv =~= start + advances);
        assert(out@ =~= start + pawn_moves(b, piece, from));
    }
}

fn push_piece_moves(board: &Board, piece: Piece, from: Coord, out: &mut Vec<ChessMove>)
    requires
        from.on_board(),
    ensures
        final(out)@ == old(out)@ + piece_moves(board@, piece, from),
{
    match piece.piece_type {
        PieceType::PAWN => push_pawn(board, piece, from, out),
        PieceType::KNIGHT => push_jumps(board, piece, from, true, out),
        PieceType::BISHOP => push_slides(board, piece, from, 4, 4, out),
        PieceType::ROOK => push_slides(board, piece, from, 0, 4, out),
        PieceType::QUEEN => push_slides(board, piece, from, 0, 8, out),
        PieceType::KING => push_jumps(board, piece, from, false, out),
    }
}

impl Piece {
    /// The pseudo-legal candidates of this piece standing on `coord`.
    pub fn available_moves(&self, board: &Board, coord: &Coord) -> (r: Vec<ChessMove>)
        requires
            coord.on_board(),
        ensures
            r@ == piece_moves(board@, *self, *coord),
    {
        let mut moves: Vec<ChessMove> = Vec::new();
        push_piece_moves(board, *self, *coord, &mut moves);
        proof {
            assert(moves@ =~= piece_moves(board@, *self, *coord));
        }
        moves
    }
}

impl Board {
    /// Every pseudo-legal candidate of the side to move: origins rank by
    /// rank, file by file, then each piece's own order.
    pub fn available_moves(&self) -> (r: Vec<ChessMove>)
        ensures
            r@ == available(self@),
    {
        let mut moves: Vec<ChessMove> = Vec::new();
        let mut rank: usize = 0;
        while rank < 8
            invariant
                rank <= 8,
                moves@ == board_moves(self@, rank as int),
            decreases 8 - rank,
        {
            let mut file: usize = 0;
            while file < 8
                invariant
                    rank < 8,
                    file <= 8,
                    moves@ == board_moves(self@, rank as int) + rank_moves(
                        self@,
                        rank as int,
                        file as int,
                    ),
                decreases 8 - file,
            {
                let c = Coord(rank as isize, file as isize);
                if let Some(p) = self.position[rank][file] {
                    if p.color == self.turn {
                        push_piece_moves(self, p, c, &mut moves);
                    }
                }
                proof {
                    assert(self@.at(c) == self.position[rank as int][file as int]);
                    assert(moves@ =~= board_moves(self@, rank as int) + rank_moves(
                        self@,
                        rank as int,
                        file + 1,
                    ));
                }
                file = file + 1;
            }
            proof {
                assert(moves@ =~= board_moves(self@, rank + 1));
            }
            rank = rank + 1;
        }
        moves
    }
}

} // verus!
