use chess_trainer::{Board, ChessMove, Coord, Game, OpeningTree, Piece, PieceType, BLACK, WHITE};

#[test]
fn piece_type_letters() {
    let kinds = [
        (b'P', PieceType::PAWN),
        (b'N', PieceType::KNIGHT),
        (b'B', PieceType::BISHOP),
        (b'R', PieceType::ROOK),
        (b'Q', PieceType::QUEEN),
        (b'K', PieceType::KING),
    ];
    for (c, t) in kinds {
        assert_eq!(PieceType::from_uppercase(&c), Some(t));
        assert_eq!(PieceType::from_char(&c), Some(t));
        assert_eq!(PieceType::from_char(&c.to_ascii_lowercase()), Some(t));
        assert_eq!(t.get_char(), c);
    }
    assert_eq!(PieceType::from_uppercase(&b'p'), None);
    assert_eq!(PieceType::from_uppercase(&b'X'), None);
    assert_eq!(PieceType::from_char(&b'x'), None);
    assert_eq!(PieceType::from_char(&b'1'), None);
}

#[test]
fn piece_letters_follow_color() {
    assert_eq!(Piece::from_char(&b'n'), Some(Piece { piece_type: PieceType::KNIGHT, color: BLACK }));
    assert_eq!(Piece::from_char(&b'Q'), Some(Piece { piece_type: PieceType::QUEEN, color: WHITE }));
    assert_eq!(Piece::from_char(&b'z'), None);
    assert_eq!(Piece::from_char(&b'/'), None);
    let bk = Piece { piece_type: PieceType::KING, color: BLACK };
    assert_eq!(bk.to_char(), b'k');
    let wr = Piece { piece_type: PieceType::ROOK, color: WHITE };
    assert_eq!(wr.to_char(), b'R');
    assert_eq!(wr.get_notation(), Some(b'R'));
    assert_eq!(Piece { piece_type: PieceType::PAWN, color: BLACK }.get_notation(), None);
}

#[test]
fn piece_glyphs() {
    assert_eq!(Piece { piece_type: PieceType::PAWN, color: WHITE }.get_unicode(), '\u{2659}');
    assert_eq!(Piece { piece_type: PieceType::PAWN, color: BLACK }.get_unicode(), '\u{265F}');
    assert_eq!(Piece { piece_type: PieceType::KNIGHT, color: BLACK }.get_unicode(), '\u{265E}');
    assert_eq!(Piece { piece_type: PieceType::KING, color: WHITE }.get_unicode(), '\u{2654}');
}

#[test]
fn square_names() {
    assert_eq!(Coord::from_str(b"e4"), Some(Coord(3, 4)));
    assert_eq!(Coord::from_str(b"a1"), Some(Coord(0, 0)));
    assert_eq!(Coord::from_str(b"h8"), Some(Coord(7, 7)));
    assert_eq!(Coord::from_str(b"e"), None);
    assert_eq!(Coord::from_str(b"e45"), None);
    assert_eq!(Coord::from_str(b"e9"), None);
    assert_eq!(Coord::from_str(b"e0"), None);
    assert_eq!(Coord::from_str(b"j4"), None);
    assert_eq!(Coord(3, 4).get_str(), b"e4".to_vec());
    assert_eq!(Coord(0, 7).get_char_column(), b'h');
    assert_eq!(Coord(0, 7).get_char_line(), b'1');
    for r in 0..8 {
        for f in 0..8 {
            let c = Coord(r, f);
            assert_eq!(Coord::from_str(&c.get_str()), Some(c));
        }
    }
}

#[test]
fn coord_arithmetic() {
    assert!(Coord(0, 0).is_correct());
    assert!(Coord(7, 7).is_correct());
    assert!(!Coord(8, 0).is_correct());
    assert!(!Coord(0, -1).is_correct());
    assert_eq!(Coord(1, 2).add(Coord(2, -3)), Coord(3, -1));
    assert_eq!(Coord(1, -2).mul(3), Coord(3, -6));
    assert_eq!(Coord::from((2, 5)), Coord(2, 5));
}

#[test]
fn move_notation() {
    let knight = Piece { piece_type: PieceType::KNIGHT, color: WHITE };
    let m = ChessMove { piece: knight, start: Coord(0, 6), end: Coord(2, 5), ..ChessMove::default() };
    assert_eq!(m.notation(), b"Nf3".to_vec());
    let pawn = Piece { piece_type: PieceType::PAWN, color: BLACK };
    let m = ChessMove::new_plain(pawn, Coord(6, 4), Coord(4, 4), false);
    assert_eq!(m.notation(), b"e5".to_vec());
}

#[test]
fn default_move_is_blank() {
    let m = ChessMove::default();
    assert_eq!(m.piece, Piece { piece_type: PieceType::PAWN, color: WHITE });
    assert_eq!(m.start, Coord(0, 0));
    assert_eq!(m.end, Coord(0, 0));
    assert!(!m.is_king_castling && !m.is_queen_castling && !m.is_capture && !m.is_check && !m.is_mate);
    assert_eq!(m.promotion, None);
}

#[test]
fn opening_tree_records_moves_once() {
    let mut tree = OpeningTree::new();
    assert!(tree.is_leaf());
    assert_eq!(
        tree.get_leafs(),
        vec![b"rnbqkbnr/pppppppp/8/8/8/8/PPPPPPPP/RNBQKBNR w KQkq - 0 1".to_vec()]
    );
    let e4 = ChessMove::new_plain(Piece { piece_type: PieceType::PAWN, color: WHITE }, Coord(1, 4), Coord(3, 4), false);
    let d4 = ChessMove::new_plain(Piece { piece_type: PieceType::PAWN, color: WHITE }, Coord(1, 3), Coord(3, 3), false);
    tree.add_move(&e4);
    assert!(!tree.is_leaf());
    tree.add_move(&d4);
    tree.add_move(&e4);
    assert_eq!(tree.root.len(), 2);
    assert_eq!(
        tree.get_leafs(),
        vec![
            b"rnbqkbnr/pppppppp/8/8/4P3/8/PPPP1PPP/RNBQKBNR b KQkq - 0 1".to_vec(),
            b"rnbqkbnr/pppppppp/8/8/3P4/8/PPP1PPPP/RNBQKBNR b KQkq - 0 1".to_vec(),
        ]
    );
}

#[test]
fn opening_tree_from_position() {
    let board = Board::from_fen(&b"4k3/8/8/8/8/8/8/4K3 w - - 3 9".to_vec()).unwrap();
    let tree = OpeningTree::new_from_position(&board);
    assert!(tree.is_leaf());
    assert_eq!(tree.get_leafs(), vec![b"4k3/8/8/8/8/8/8/4K3 w - - 3 9".to_vec()]);
}

#[test]
fn random_game_replays_candidate_moves() {
    let game = Game::random(300);
    assert!(matches!(game.result, Some(chess_trainer::Result::Draw)));
    assert!(game.moves.len() <= 300);
    let mut board = Board::default();
    for m in &game.moves {
        assert!(board.available_moves().contains(m));
        board.do_move(m);
    }
    assert!(game.moves.len() == 300 || board.available_moves().is_empty());
}

#[test]
fn random_game_without_plies_is_empty() {
    let game = Game::random(0);
    assert!(game.moves.is_empty());
    assert!(matches!(game.result, Some(chess_trainer::Result::Draw)));
}

#[test]
fn castling_notation() {
    let king = Piece { piece_type: PieceType::KING, color: WHITE };
    let short = ChessMove { piece: king, is_king_castling: true, ..ChessMove::default() };
    assert_eq!(short.notation(), b"O-O".to_vec());
    let long = ChessMove { piece: king, is_queen_castling: true, ..ChessMove::default() };
    assert_eq!(long.notation(), b"O-O-O".to_vec());
}
