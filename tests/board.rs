use chess_trainer::{
    change_color, Board, ChessMove, Color, Coord, FenError, Piece, PieceType, BLACK, WHITE,
};

const START: &str = "rnbqkbnr/pppppppp/8/8/8/8/PPPPPPPP/RNBQKBNR w KQkq - 0 1";

fn piece(piece_type: PieceType, color: Color) -> Piece {
    Piece { piece_type, color }
}

fn quiet(p: Piece, start: Coord, end: Coord) -> ChessMove {
    ChessMove {
        piece: p,
        start,
        end,
        is_king_castling: false,
        is_queen_castling: false,
        is_capture: false,
        is_check: false,
        is_mate: false,
        promotion: None,
    }
}

fn decode(text: &str) -> Board {
    Board::from_fen(&text.as_bytes().to_vec()).expect("well-formed record")
}

fn encode(board: &Board) -> String {
    String::from_utf8(board.to_fen()).unwrap()
}

#[test]
fn starting_position_layout() {
    let b = Board::default();
    let back = [
        PieceType::ROOK,
        PieceType::KNIGHT,
        PieceType::BISHOP,
        PieceType::QUEEN,
        PieceType::KING,
        PieceType::BISHOP,
        PieceType::KNIGHT,
        PieceType::ROOK,
    ];
    for f in 0..8 {
        assert_eq!(b.position[0][f], Some(piece(back[f], WHITE)));
        assert_eq!(b.position[1][f], Some(piece(PieceType::PAWN, WHITE)));
        assert_eq!(b.position[6][f], Some(piece(PieceType::PAWN, BLACK)));
        assert_eq!(b.position[7][f], Some(piece(back[f], BLACK)));
        for r in 2..6 {
            assert_eq!(b.position[r][f], None);
        }
    }
    let whites = b.position.iter().flatten().filter(|s| matches!(s, Some(p) if p.color == WHITE)).count();
    let blacks = b.position.iter().flatten().filter(|s| matches!(s, Some(p) if p.color == BLACK)).count();
    assert_eq!(whites, 16);
    assert_eq!(blacks, 16);
    assert_eq!(b.turn, WHITE);
    assert_eq!(b.castlings, [true; 4]);
    assert_eq!(b.en_passant, None);
    assert_eq!(b.halfmove_clock, 0);
    assert_eq!(b.move_count, 1);
    assert_eq!(encode(&b), START);
}

#[test]
fn new_board_is_empty() {
    let b = Board::new();
    assert!(b.position.iter().flatten().all(|s| s.is_none()));
    assert_eq!(b.turn, WHITE);
    assert_eq!(b.castlings, [true; 4]);
    assert_eq!(b.en_passant, None);
    assert_eq!(b.halfmove_clock, 0);
    assert_eq!(b.move_count, 0);
    assert_eq!(encode(&b), "8/8/8/8/8/8/8/8 w KQkq - 0 0");
}

#[test]
fn decode_start_equals_default() {
    let b = decode(START);
    let d = Board::default();
    assert_eq!(b.position, d.position);
    assert_eq!(b.turn, d.turn);
    assert_eq!(b.castlings, d.castlings);
    assert_eq!(b.en_passant, d.en_passant);
    assert_eq!(b.halfmove_clock, d.halfmove_clock);
    assert_eq!(b.move_count, d.move_count);
}

#[test]
fn round_trip_several_records() {
    let records = [
        START,
        "rnbqkbnr/pppp1ppp/8/4p3/4P3/8/PPPP1PPP/RNBQKBNR w KQkq e6 0 2",
        "r3k2r/8/8/3pP3/8/8/8/R3K2R b Kq d3 12 34",
        "8/8/8/8/8/8/8/8 b - - 0 1",
        "4k3/8/8/8/8/8/8/4K3 w Q h8 99 100",
    ];
    for text in records {
        let b = decode(text);
        let again = decode(&encode(&b));
        assert_eq!(encode(&b), text);
        assert_eq!(again.position, b.position);
        assert_eq!(again.turn, b.turn);
        assert_eq!(again.castlings, b.castlings);
        assert_eq!(again.en_passant, b.en_passant);
        assert_eq!(again.halfmove_clock, b.halfmove_clock);
        assert_eq!(again.move_count, b.move_count);
    }
}

#[test]
fn decode_places_pieces_by_rank_and_file() {
    let b = decode("r3k2r/8/8/3pP3/8/8/8/R3K2R b Kq d3 12 34");
    assert_eq!(b.position[7][0], Some(piece(PieceType::ROOK, BLACK)));
    assert_eq!(b.position[7][4], Some(piece(PieceType::KING, BLACK)));
    assert_eq!(b.position[7][7], Some(piece(PieceType::ROOK, BLACK)));
    assert_eq!(b.position[4][3], Some(piece(PieceType::PAWN, BLACK)));
    assert_eq!(b.position[4][4], Some(piece(PieceType::PAWN, WHITE)));
    assert_eq!(b.position[0][4], Some(piece(PieceType::KING, WHITE)));
    assert_eq!(b.position[4][5], None);
    assert_eq!(b.turn, BLACK);
    assert_eq!(b.castlings, [true, false, false, true]);
    assert_eq!(b.en_passant, Some(Coord(2, 3)));
    assert_eq!(b.halfmove_clock, 12);
    assert_eq!(b.move_count, 34);
}

#[test]
fn dash_fields_clear_rights_and_target() {
    let b = decode("8/8/8/8/8/8/8/8 w - - 3 7");
    assert_eq!(b.castlings, [false; 4]);
    assert_eq!(b.en_passant, None);
    assert_eq!(encode(&b), "8/8/8/8/8/8/8/8 w - - 3 7");
}

#[test]
fn castling_field_ignores_other_letters() {
    let b = decode("8/8/8/8/8/8/8/8 w xqK - 0 1");
    assert_eq!(b.castlings, [true, false, false, true]);
}

#[test]
fn tabs_separate_fields_too() {
    let b = decode("8/8/8/8/8/8/8/8\tb\tk\t-\t5\t6");
    assert_eq!(b.turn, BLACK);
    assert_eq!(b.castlings, [false, false, true, false]);
    assert_eq!(b.halfmove_clock, 5);
    assert_eq!(b.move_count, 6);
}

fn error_of(text: &str) -> FenError {
    Board::from_fen(&text.as_bytes().to_vec()).unwrap_err()
}

#[test]
fn field_count_errors() {
    assert_eq!(error_of("8/8/8/8/8/8/8/8 w - - 0"), FenError::FieldCount);
    assert_eq!(error_of("8/8/8/8/8/8/8/8 w - - 0 1 x"), FenError::FieldCount);
    assert_eq!(error_of("8/8/8/8/8/8/8/8  w - - 0 1"), FenError::FieldCount);
    assert_eq!(error_of(""), FenError::FieldCount);
}

#[test]
fn placement_errors() {
    assert_eq!(error_of("8/8/8/8/8/8/8 w - - 0 1"), FenError::Placement);
    assert_eq!(error_of("8/8/8/8/8/8/8/8/8 w - - 0 1"), FenError::Placement);
    assert_eq!(error_of("8/8/8/8/8/8/8/7x w - - 0 1"), FenError::Placement);
    assert_eq!(error_of("8/8/8/8/8/8/8/9 w - - 0 1"), FenError::Placement);
    assert_eq!(error_of("8/8/8/8/8/8/8/0 w - - 0 1"), FenError::Placement);
    assert_eq!(error_of("8/8/8/8/8/8/8/7 w - - 0 1"), FenError::Placement);
    assert_eq!(error_of("8/8/8/8/8/8/8/8P w - - 0 1"), FenError::Placement);
}

#[test]
fn active_color_errors() {
    assert_eq!(error_of("8/8/8/8/8/8/8/8 W - - 0 1"), FenError::ActiveColor);
    assert_eq!(error_of("8/8/8/8/8/8/8/8 wb - - 0 1"), FenError::ActiveColor);
}

#[test]
fn en_passant_errors() {
    assert_eq!(error_of("8/8/8/8/8/8/8/8 w - e9 0 1"), FenError::EnPassant);
    assert_eq!(error_of("8/8/8/8/8/8/8/8 w - i3 0 1"), FenError::EnPassant);
    assert_eq!(error_of("8/8/8/8/8/8/8/8 w - e33 0 1"), FenError::EnPassant);
    assert_eq!(error_of("8/8/8/8/8/8/8/8 w - -- 0 1"), FenError::EnPassant);
}

#[test]
fn counter_errors() {
    assert_eq!(error_of("8/8/8/8/8/8/8/8 w - - x 1"), FenError::HalfmoveClock);
    assert_eq!(error_of("8/8/8/8/8/8/8/8 w - - -1 1"), FenError::HalfmoveClock);
    assert_eq!(error_of("8/8/8/8/8/8/8/8 w - - 0 1a"), FenError::FullmoveNumber);
    assert_eq!(
        error_of("8/8/8/8/8/8/8/8 w - - 0 99999999999999999999999"),
        FenError::FullmoveNumber
    );
}

#[test]
fn starting_position_has_twenty_moves() {
    let b = Board::default();
    let moves = b.available_moves();
    assert_eq!(moves.len(), 20);
    let pawns = moves.iter().filter(|m| m.piece.piece_type == PieceType::PAWN).count();
    let knights = moves.iter().filter(|m| m.piece.piece_type == PieceType::KNIGHT).count();
    assert_eq!(pawns, 16);
    assert_eq!(knights, 4);
    assert!(moves.iter().all(|m| m.piece.color == WHITE && !m.is_capture));
    // origins in row-major order: the knight on b1 comes first
    assert_eq!(moves[0].start, Coord(0, 1));
    assert_eq!(moves[0].end, Coord(2, 2));
    assert_eq!(moves[1].end, Coord(2, 0));
    assert_eq!(moves[2].start, Coord(0, 6));
    assert_eq!(moves[4].start, Coord(1, 0));
    assert_eq!(moves[4].end, Coord(2, 0));
    assert_eq!(moves[5].end, Coord(3, 0));
}

#[test]
fn black_to_move_generates_black_moves() {
    let b = decode("rnbqkbnr/pppppppp/8/8/4P3/8/PPPP1PPP/RNBQKBNR b KQkq e3 0 1");
    let moves = b.available_moves();
    assert_eq!(moves.len(), 20);
    assert!(moves.iter().all(|m| m.piece.color == BLACK));
    assert!(moves.iter().any(|m| m.start == Coord(6, 4) && m.end == Coord(4, 4)));
}

#[test]
fn pawn_captures_and_en_passant() {
    let b = decode("4k3/8/8/3pP3/8/8/8/4K3 w - d6 0 1");
    let p = Piece { piece_type: PieceType::PAWN, color: WHITE };
    let moves = p.available_moves(&b, &Coord(4, 4));
    let ends: Vec<Coord> = moves.iter().map(|m| m.end).collect();
    assert_eq!(ends, vec![Coord(5, 4), Coord(5, 3)]);
    assert!(!moves[0].is_capture);
    assert!(moves[1].is_capture);

    let b = decode("4k3/8/8/8/8/2r1n3/3P4/4K3 w - - 0 1");
    let moves = p.available_moves(&b, &Coord(1, 3));
    let ends: Vec<Coord> = moves.iter().map(|m| m.end).collect();
    assert_eq!(ends, vec![Coord(2, 3), Coord(3, 3), Coord(2, 4), Coord(2, 2)]);
}

#[test]
fn pawn_double_step_needs_both_squares_free() {
    let b = decode("4k3/8/8/8/3n4/8/3P4/4K3 w - - 0 1");
    let p = Piece { piece_type: PieceType::PAWN, color: WHITE };
    let moves = p.available_moves(&b, &Coord(1, 3));
    assert_eq!(moves.len(), 1);
    assert_eq!(moves[0].end, Coord(2, 3));
    let b = decode("4k3/8/8/8/8/3n4/3P4/4K3 w - - 0 1");
    assert!(p.available_moves(&b, &Coord(1, 3)).is_empty());
    let black = Piece { piece_type: PieceType::PAWN, color: BLACK };
    let b = decode("4k3/3p4/8/8/8/8/8/4K3 b - - 0 1");
    let ends: Vec<Coord> = black.available_moves(&b, &Coord(6, 3)).iter().map(|m| m.end).collect();
    assert_eq!(ends, vec![Coord(5, 3), Coord(4, 3)]);
}

#[test]
fn rook_ray_stops_at_first_piece() {
    let b = decode("4k3/8/8/8/1p1R2P1/8/8/4K3 w - - 0 1");
    let r = Piece { piece_type: PieceType::ROOK, color: WHITE };
    let moves = r.available_moves(&b, &Coord(3, 3));
    let ends: Vec<Coord> = moves.iter().map(|m| m.end).collect();
    assert_eq!(
        ends,
        vec![
            Coord(3, 4),
            Coord(3, 5),
            Coord(3, 2),
            Coord(3, 1),
            Coord(2, 3),
            Coord(1, 3),
            Coord(0, 3),
            Coord(4, 3),
            Coord(5, 3),
            Coord(6, 3),
            Coord(7, 3),
        ]
    );
    assert!(moves[3].is_capture);
    assert_eq!(moves.iter().filter(|m| m.is_capture).count(), 1);
}

#[test]
fn bishop_queen_king_knight_counts() {
    let b = decode("8/8/8/8/3Q4/8/8/8 w - - 0 1");
    let q = Piece { piece_type: PieceType::QUEEN, color: WHITE };
    assert_eq!(q.available_moves(&b, &Coord(3, 3)).len(), 27);
    let bishop = Piece { piece_type: PieceType::BISHOP, color: WHITE };
    assert_eq!(bishop.available_moves(&b, &Coord(3, 3)).len(), 13);
    let king = Piece { piece_type: PieceType::KING, color: WHITE };
    assert_eq!(king.available_moves(&b, &Coord(3, 3)).len(), 8);
    assert_eq!(king.available_moves(&b, &Coord(0, 0)).len(), 3);
    let knight = Piece { piece_type: PieceType::KNIGHT, color: WHITE };
    assert_eq!(knight.available_moves(&b, &Coord(3, 3)).len(), 8);
    assert_eq!(knight.available_moves(&b, &Coord(0, 0)).len(), 2);
}

#[test]
fn destinations_stay_on_board() {
    let b = decode("R6R/8/8/8/8/8/8/N3K2Q w - h8 0 1");
    let moves = b.available_moves();
    assert!(!moves.is_empty());
    assert!(moves.iter().all(|m| m.end.is_correct()));
    let corner = decode("8/8/8/8/8/8/8/7P w - - 0 1");
    let p = Piece { piece_type: PieceType::PAWN, color: WHITE };
    assert!(p.available_moves(&corner, &Coord(7, 7)).is_empty());
}

#[test]
fn off_board_queries_answer_no() {
    let b = Board::default();
    for c in [Coord(-1, 0), Coord(0, 8), Coord(8, 3), Coord(3, -2)] {
        assert!(!b.is_square_free(&c));
        assert!(!b.color_is(&c, &WHITE));
        assert!(!b.color_is(&c, &BLACK));
        assert!(!b.can_capture(&c, &WHITE));
        assert!(!b.can_capture(&c, &BLACK));
    }
    assert!(b.is_square_free(&Coord(3, 3)));
    assert!(b.color_is(&Coord(0, 0), &WHITE));
    assert!(b.can_capture(&Coord(7, 0), &WHITE));
    assert!(!b.can_capture(&Coord(0, 0), &WHITE));
}

#[test]
fn pawn_move_and_capture_reset_halfmove_clock() {
    let mut b = decode("4k3/8/8/8/8/8/3P4/N3K3 w - - 7 10");
    b.do_move(&quiet(piece(PieceType::PAWN, WHITE), Coord(1, 3), Coord(3, 3)));
    assert_eq!(b.halfmove_clock, 0);
    assert_eq!(b.position[1][3], None);
    assert_eq!(b.position[3][3], Some(piece(PieceType::PAWN, WHITE)));
    assert_eq!(b.turn, BLACK);

    let mut b = decode("4k3/8/8/8/8/8/1r6/N3K3 w - - 7 10");
    b.do_move(&quiet(piece(PieceType::KNIGHT, WHITE), Coord(0, 0), Coord(1, 1)));
    assert_eq!(b.halfmove_clock, 0);
    assert_eq!(b.position[1][1], Some(piece(PieceType::KNIGHT, WHITE)));
}

#[test]
fn quiet_move_advances_halfmove_clock() {
    let mut b = decode("4k3/8/8/8/8/8/8/N3K3 w - - 7 10");
    b.do_move(&quiet(piece(PieceType::KNIGHT, WHITE), Coord(0, 0), Coord(2, 1)));
    assert_eq!(b.halfmove_clock, 8);
    assert_eq!(b.move_count, 10);
    assert_eq!(encode(&b), "4k3/8/8/8/8/1N6/8/4K3 b - - 8 10");
}

#[test]
fn fullmove_number_advances_after_black() {
    let mut b = Board::default();
    b.do_move(&quiet(piece(PieceType::PAWN, WHITE), Coord(1, 4), Coord(3, 4)));
    assert_eq!(b.move_count, 1);
    b.do_move(&quiet(piece(PieceType::PAWN, BLACK), Coord(6, 4), Coord(4, 4)));
    assert_eq!(b.move_count, 2);
    b.do_move(&quiet(piece(PieceType::KNIGHT, WHITE), Coord(0, 6), Coord(2, 5)));
    assert_eq!(b.move_count, 2);
    assert_eq!(b.halfmove_clock, 1);
    b.do_move(&quiet(piece(PieceType::KNIGHT, BLACK), Coord(7, 1), Coord(5, 2)));
    assert_eq!(b.move_count, 3);
    assert_eq!(b.halfmove_clock, 2);
    assert_eq!(
        encode(&b),
        "r1bqkbnr/pppp1ppp/2n5/4p3/4P3/5N2/PPPP1PPP/RNBQKB1R w KQkq - 2 3"
    );
}

#[test]
fn promotion_places_the_given_piece() {
    let mut b = decode("4k3/1P6/8/8/8/8/8/4K3 w - - 0 1");
    b.do_move(&quiet(piece(PieceType::QUEEN, WHITE), Coord(6, 1), Coord(7, 1)));
    assert_eq!(b.position[7][1], Some(piece(PieceType::QUEEN, WHITE)));
    assert_eq!(b.position[6][1], None);
    assert_eq!(b.halfmove_clock, 1);
}

#[test]
fn render_draws_rank_one_first() {
    let b = Board::default();
    let text = b.render();
    let lines: Vec<&str> = text.lines().collect();
    assert_eq!(lines.len(), 8);
    assert_eq!(lines[0], "\u{2656}\u{2658}\u{2657}\u{2655}\u{2654}\u{2657}\u{2658}\u{2656}");
    assert_eq!(lines[1], "\u{2659}".repeat(8));
    assert_eq!(lines[2], "........");
    assert_eq!(lines[7], "\u{265C}\u{265E}\u{265D}\u{265B}\u{265A}\u{265D}\u{265E}\u{265C}");
    assert!(text.ends_with('\n'));
}

#[test]
fn change_color_flips() {
    assert_eq!(change_color(&WHITE), BLACK);
    assert_eq!(change_color(&BLACK), WHITE);
}

#[test]
fn legal_moves_keep_king_safe() {
    assert_eq!(Board::default().legal_moves().len(), 20);
    let b = decode("4k3/4r3/8/8/8/8/4B3/4K3 w - - 0 1");
    assert_eq!(b.available_moves().len(), 4 + 9);
    let ends: Vec<Coord> = b.legal_moves().iter().map(|m| m.end).collect();
    assert_eq!(ends, vec![Coord(0, 5), Coord(0, 3), Coord(1, 5), Coord(1, 3)]);
    let b = decode("4k3/8/8/8/8/8/3r4/4K3 w - - 0 1");
    let ends: Vec<Coord> = b.legal_moves().iter().map(|m| m.end).collect();
    assert_eq!(ends, vec![Coord(0, 5), Coord(1, 3)]);
}
