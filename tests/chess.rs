use shakmaty::{
    perft, Board, Castles, Chess, Color, Move, Outcome, Piece, PlayError, PositionError, Role,
    Setup, Square,
};

fn sq(name: &str) -> Square {
    let b = name.as_bytes();
    (b[1] - b'1') * 8 + (b[0] - b'a')
}

fn piece(color: Color, role: Role) -> Piece {
    Piece { color, role }
}

fn setup_with(pieces: &[(&str, Color, Role)], turn: Color) -> Setup {
    let mut board = Board::empty();
    for (name, color, role) in pieces {
        board.set_piece_at(sq(name), piece(*color, *role));
    }
    Setup {
        board,
        turn,
        castles: Castles::none(),
        ep_square: None,
        halfmoves: 0,
        fullmoves: 1,
    }
}

fn pawn_move(from: &str, to: &str) -> Move {
    Move::Normal { role: Role::Pawn, from: sq(from), to: sq(to), capture: None, promotion: None }
}

#[test]
fn test_perft() {
    let pos = Chess::default();
    assert_eq!(perft(&pos, 0), 1);
    assert_eq!(perft(&pos, 1), 20);
}

#[test]
fn perft_two_plies_from_start() {
    assert_eq!(perft(&Chess::default(), 2), 400);
}

#[test]
fn perft_three_plies_from_start() {
    assert_eq!(perft(&Chess::default(), 3), 8902);
}

#[test]
fn start_position_has_twenty_moves() {
    let pos = Chess::default();
    let moves = pos.legal_moves();
    assert_eq!(moves.len(), 20);
    assert!(moves.contains(&pawn_move("e2", "e4")));
    assert!(moves.contains(&Move::Normal {
        role: Role::Knight,
        from: sq("g1"),
        to: sq("f3"),
        capture: None,
        promotion: None,
    }));
    assert!(!pos.is_check());
    assert!(!pos.is_checkmate());
    assert!(!pos.is_stalemate());
    assert!(!pos.is_insufficient_material());
    assert_eq!(pos.outcome(), None);
}

#[test]
fn play_passes_the_turn_and_sets_ep_square() {
    let pos = Chess::default();
    let after = pos.play(&pawn_move("e2", "e4")).unwrap();
    assert_eq!(after.turn(), Color::Black);
    assert_eq!(after.ep_square(), Some(sq("e3")));
    assert_eq!(after.halfmoves(), 0);
    assert_eq!(after.fullmoves(), 1);
    assert_eq!(after.board().piece_at(sq("e4")), Some(piece(Color::White, Role::Pawn)));
    assert_eq!(after.board().piece_at(sq("e2")), None);
    let after2 = after
        .play(&Move::Normal {
            role: Role::Knight,
            from: sq("g8"),
            to: sq("f6"),
            capture: None,
            promotion: None,
        })
        .unwrap();
    assert_eq!(after2.turn(), Color::White);
    assert_eq!(after2.ep_square(), None);
    assert_eq!(after2.halfmoves(), 1);
    assert_eq!(after2.fullmoves(), 2);
}

#[test]
fn illegal_move_is_refused_and_position_kept() {
    let pos = Chess::default();
    let m = pawn_move("e2", "e5");
    assert_eq!(pos.play(&m).err(), Some(PlayError::IllegalMove { m }));
    assert_eq!(pos.turn(), Color::White);
    assert_eq!(pos.board().piece_at(sq("e2")), Some(piece(Color::White, Role::Pawn)));
    assert_eq!(pos.legal_moves().len(), 20);
    let drop = Move::Put { role: Role::Knight, to: sq("e4") };
    assert!(pos.play(&drop).is_err());
}

#[test]
fn fools_mate_is_checkmate() {
    let mut pos = Chess::default();
    let moves = [
        pawn_move("f2", "f3"),
        pawn_move("e7", "e5"),
        pawn_move("g2", "g4"),
        Move::Normal { role: Role::Queen, from: sq("d8"), to: sq("h4"), capture: None, promotion: None },
    ];
    for m in moves.iter() {
        pos = pos.play(m).unwrap();
    }
    assert!(pos.is_check());
    assert!(pos.is_checkmate());
    assert!(!pos.is_stalemate());
    assert!(pos.legal_moves().is_empty());
    assert_eq!(pos.outcome(), Some(Outcome::Decisive { winner: Color::Black }));
}

#[test]
fn cornered_king_is_stalemated() {
    let s = setup_with(
        &[
            ("h8", Color::Black, Role::King),
            ("g6", Color::White, Role::Queen),
            ("f7", Color::White, Role::King),
        ],
        Color::Black,
    );
    let pos = Chess::from_setup(s).unwrap();
    assert!(!pos.is_check());
    assert!(pos.is_stalemate());
    assert!(!pos.is_checkmate());
    assert!(pos.legal_moves().is_empty());
    assert_eq!(pos.outcome(), Some(Outcome::Draw));
}

#[test]
fn castling_through_attacked_square_is_excluded() {
    let castle = Move::Castle { king: sq("e1"), rook: sq("h1") };
    let mut pieces = vec![
        ("e1", Color::White, Role::King),
        ("h1", Color::White, Role::Rook),
        ("a8", Color::Black, Role::King),
    ];
    let mut s = setup_with(&pieces, Color::White);
    s.castles.white_king_side = Some(sq("h1"));
    let free = Chess::from_setup(s).unwrap();
    assert!(free.legal_moves().contains(&castle));
    let after = free.play(&castle).unwrap();
    assert_eq!(after.board().piece_at(sq("g1")), Some(piece(Color::White, Role::King)));
    assert_eq!(after.board().piece_at(sq("f1")), Some(piece(Color::White, Role::Rook)));
    assert_eq!(after.castles().white_king_side, None);

    pieces.push(("f8", Color::Black, Role::Rook));
    let mut s = setup_with(&pieces, Color::White);
    s.castles.white_king_side = Some(sq("h1"));
    let guarded = Chess::from_setup(s).unwrap();
    assert!(!guarded.is_check());
    assert!(!guarded.legal_moves().contains(&castle));
    assert!(guarded.play(&castle).is_err());
}

#[test]
fn en_passant_exposing_king_on_rank_is_excluded() {
    let ep = Move::EnPassant { from: sq("b5"), to: sq("c6") };
    let mut pieces = vec![
        ("a5", Color::White, Role::King),
        ("b5", Color::White, Role::Pawn),
        ("c5", Color::Black, Role::Pawn),
        ("e8", Color::Black, Role::King),
    ];
    let mut s = setup_with(&pieces, Color::White);
    s.ep_square = Some(sq("c6"));
    let open = Chess::from_setup(s).unwrap();
    assert!(open.legal_moves().contains(&ep));
    let after = open.play(&ep).unwrap();
    assert_eq!(after.board().piece_at(sq("c5")), None);
    assert_eq!(after.board().piece_at(sq("c6")), Some(piece(Color::White, Role::Pawn)));

    pieces.push(("h5", Color::Black, Role::Rook));
    let mut s = setup_with(&pieces, Color::White);
    s.ep_square = Some(sq("c6"));
    let pinned = Chess::from_setup(s).unwrap();
    assert!(!pinned.is_check());
    assert!(!pinned.legal_moves().contains(&ep));
}

#[test]
fn promotions_are_all_listed() {
    let s = setup_with(
        &[
            ("a7", Color::White, Role::Pawn),
            ("e1", Color::White, Role::King),
            ("e8", Color::Black, Role::King),
        ],
        Color::White,
    );
    let pos = Chess::from_setup(s).unwrap();
    let moves = pos.legal_moves();
    for r in [Role::Knight, Role::Bishop, Role::Rook, Role::Queen] {
        assert!(moves.contains(&Move::Normal {
            role: Role::Pawn,
            from: sq("a7"),
            to: sq("a8"),
            capture: None,
            promotion: Some(r),
        }));
    }
    assert!(!moves.contains(&pawn_move("a7", "a8")));
    // four promotions and five king moves
    assert_eq!(moves.len(), 9);
}

#[test]
fn insufficient_material_policy() {
    let kk = setup_with(
        &[("e1", Color::White, Role::King), ("e8", Color::Black, Role::King)],
        Color::White,
    );
    let pos = Chess::from_setup(kk).unwrap();
    assert!(pos.is_insufficient_material());
    assert_eq!(pos.outcome(), Some(Outcome::Draw));

    let kbk = setup_with(
        &[
            ("e1", Color::White, Role::King),
            ("c1", Color::White, Role::Bishop),
            ("e8", Color::Black, Role::King),
        ],
        Color::White,
    );
    assert!(Chess::from_setup(kbk).unwrap().is_insufficient_material());

    let knk = setup_with(
        &[
            ("e1", Color::White, Role::King),
            ("b1", Color::White, Role::Knight),
            ("e8", Color::Black, Role::King),
        ],
        Color::White,
    );
    let knk = Chess::from_setup(knk).unwrap();
    assert!(knk.is_insufficient_material());
    assert_eq!(knk.outcome(), Some(Outcome::Draw));

    let knnk = setup_with(
        &[
            ("e1", Color::White, Role::King),
            ("b1", Color::White, Role::Knight),
            ("g1", Color::White, Role::Knight),
            ("e8", Color::Black, Role::King),
        ],
        Color::White,
    );
    assert!(!Chess::from_setup(knnk).unwrap().is_insufficient_material());

    let same_shade = setup_with(
        &[
            ("e1", Color::White, Role::King),
            ("c1", Color::White, Role::Bishop),
            ("f8", Color::Black, Role::Bishop),
            ("e8", Color::Black, Role::King),
        ],
        Color::White,
    );
    assert!(Chess::from_setup(same_shade).unwrap().is_insufficient_material());

    let opposite_shades = setup_with(
        &[
            ("e1", Color::White, Role::King),
            ("c1", Color::White, Role::Bishop),
            ("c8", Color::Black, Role::Bishop),
            ("e8", Color::Black, Role::King),
        ],
        Color::White,
    );
    assert!(!Chess::from_setup(opposite_shades).unwrap().is_insufficient_material());

    let rook = setup_with(
        &[
            ("e1", Color::White, Role::King),
            ("a1", Color::White, Role::Rook),
            ("e8", Color::Black, Role::King),
        ],
        Color::White,
    );
    assert!(!Chess::from_setup(rook).unwrap().is_insufficient_material());
}

#[test]
fn setup_round_trip() {
    let pos = Chess::default().play(&pawn_move("d2", "d4")).unwrap();
    let s = pos.into_setup();
    let again = Chess::from_setup(s).unwrap();
    let s2 = again.into_setup();
    assert_eq!(s2.turn, pos.turn());
    assert_eq!(s2.castles, pos.castles());
    assert_eq!(s2.ep_square, pos.ep_square());
    assert_eq!(s2.halfmoves, pos.halfmoves());
    assert_eq!(s2.fullmoves, pos.fullmoves());
    assert_eq!(s2.board.pieces(), pos.board().pieces());
    assert_eq!(again.legal_moves(), pos.legal_moves());
}

#[test]
fn setup_errors_are_named() {
    let no_black_king = setup_with(&[("e1", Color::White, Role::King)], Color::White);
    assert_eq!(Chess::from_setup(no_black_king).err(), Some(PositionError::MissingKing));

    let two_kings = setup_with(
        &[
            ("e1", Color::White, Role::King),
            ("a1", Color::White, Role::King),
            ("e8", Color::Black, Role::King),
        ],
        Color::White,
    );
    assert_eq!(Chess::from_setup(two_kings).err(), Some(PositionError::TooManyKings));

    let mut nine_pawns = vec![("e1", Color::White, Role::King), ("e8", Color::Black, Role::King)];
    for f in ["a2", "b2", "c2", "d2", "e2", "f2", "g2", "h2", "a3"] {
        nine_pawns.push((f, Color::White, Role::Pawn));
    }
    assert_eq!(
        Chess::from_setup(setup_with(&nine_pawns, Color::White)).err(),
        Some(PositionError::TooMuchMaterial)
    );

    let back_pawn = setup_with(
        &[
            ("e1", Color::White, Role::King),
            ("a8", Color::White, Role::Pawn),
            ("e8", Color::Black, Role::King),
        ],
        Color::White,
    );
    assert_eq!(Chess::from_setup(back_pawn).err(), Some(PositionError::PawnsOnBackrank));

    let mut no_rook = setup_with(
        &[("e1", Color::White, Role::King), ("e8", Color::Black, Role::King)],
        Color::White,
    );
    no_rook.castles.white_queen_side = Some(sq("a1"));
    assert_eq!(Chess::from_setup(no_rook).err(), Some(PositionError::InvalidCastlingRights));

    let mut bad_ep = setup_with(
        &[("e1", Color::White, Role::King), ("e8", Color::Black, Role::King)],
        Color::White,
    );
    bad_ep.ep_square = Some(sq("d6"));
    assert_eq!(Chess::from_setup(bad_ep).err(), Some(PositionError::InvalidEpSquare));

    let opposite = setup_with(
        &[
            ("e1", Color::White, Role::King),
            ("e4", Color::White, Role::Rook),
            ("e8", Color::Black, Role::King),
        ],
        Color::White,
    );
    assert_eq!(Chess::from_setup(opposite).err(), Some(PositionError::OppositeCheck));
}

#[test]
fn board_placement_primitives() {
    let mut b = Board::empty();
    assert!(b.pieces().is_empty());
    b.set_piece_at(sq("d4"), piece(Color::Black, Role::Knight));
    assert_eq!(b.piece_at(sq("d4")), Some(piece(Color::Black, Role::Knight)));
    assert_eq!(b.pieces(), vec![(sq("d4"), piece(Color::Black, Role::Knight))]);
    assert_eq!(b.remove_piece_at(sq("d4")), Some(piece(Color::Black, Role::Knight)));
    assert_eq!(b.remove_piece_at(sq("d4")), None);
    assert_eq!(Board::new().pieces().len(), 32);
    assert_eq!(Color::White.other(), Color::Black);
}

#[test]
fn play_unchecked_matches_play() {
    let pos = Chess::default();
    for m in pos.legal_moves() {
        let checked = pos.play(&m).unwrap();
        let mut unchecked = pos.clone();
        unchecked.play_unchecked(&m);
        assert_eq!(checked.turn(), Color::Black);
        assert_eq!(unchecked.into_setup().board.pieces(), checked.into_setup().board.pieces());
    }
}

#[test]
fn castling_with_rook_off_the_corner() {
    let castle = Move::Castle { king: sq("e1"), rook: sq("b1") };
    let mut pieces = vec![
        ("e1", Color::White, Role::King),
        ("b1", Color::White, Role::Rook),
        ("h8", Color::Black, Role::King),
    ];
    let mut s = setup_with(&pieces, Color::White);
    s.castles.white_queen_side = Some(sq("b1"));
    let pos = Chess::from_setup(s).unwrap();
    assert!(pos.legal_moves().contains(&castle));
    let after = pos.play(&castle).unwrap();
    assert_eq!(after.board().piece_at(sq("c1")), Some(piece(Color::White, Role::King)));
    assert_eq!(after.board().piece_at(sq("d1")), Some(piece(Color::White, Role::Rook)));
    assert_eq!(after.board().piece_at(sq("b1")), None);
    assert_eq!(after.board().piece_at(sq("e1")), None);

    // the castling rook shields c1 from the rook on a1 only until it moves
    pieces.push(("a1", Color::Black, Role::Rook));
    let mut s = setup_with(&pieces, Color::White);
    s.castles.white_queen_side = Some(sq("b1"));
    let pos = Chess::from_setup(s).unwrap();
    assert!(!pos.is_check());
    assert!(!pos.legal_moves().contains(&castle));
}
