use shakmaty::attacks::{attack_set, attackers};
use shakmaty::{Bitboard, Board, Castles, Chess, Color, Piece, Role, Setup, Square};

fn sq(name: &str) -> Square {
    let b = name.as_bytes();
    (b[1] - b'1') * 8 + (b[0] - b'a')
}

fn members(b: Bitboard) -> Vec<Square> {
    (0u8..64).filter(|s| b.contains(*s)).collect()
}

#[test]
fn bitboard_set_operations() {
    let e = Bitboard::empty();
    assert!(e.is_empty());
    assert_eq!(e.count(), 0);
    assert_eq!(e.first(), None);
    let a = Bitboard::from_square(3).with(10).with(63);
    assert_eq!(a, Bitboard((1 << 3) | (1 << 10) | (1 << 63)));
    assert_eq!(a.count(), 3);
    assert_eq!(a.first(), Some(3));
    assert_eq!(a.last(), Some(63));
    let b = Bitboard::from_square(10).with(20);
    assert_eq!(members(a.union(b)), vec![3, 10, 20, 63]);
    assert_eq!(members(a.intersect(b)), vec![10]);
    assert_eq!(members(a.difference(b)), vec![3, 63]);
    assert_eq!(members(a.without(63)), vec![3, 10]);
    assert!(!a.without(3).contains(3));
}

#[test]
fn board_masks() {
    let b = Board::new();
    assert_eq!(b.occupied(), Bitboard(0xffff_0000_0000_ffff));
    assert_eq!(b.by_color(Color::White), Bitboard(0xffff));
    assert_eq!(
        b.by_piece(Piece { color: Color::Black, role: Role::King }),
        Bitboard::from_square(sq("e8"))
    );
}

#[test]
fn attack_sets_of_pieces() {
    let mut b = Board::empty();
    b.set_piece_at(sq("d4"), Piece { color: Color::White, role: Role::Rook });
    b.set_piece_at(sq("d6"), Piece { color: Color::Black, role: Role::Pawn });
    b.set_piece_at(sq("f4"), Piece { color: Color::White, role: Role::Knight });
    let rook = attack_set(&b, sq("d4"), Piece { color: Color::White, role: Role::Rook });
    let expected: Vec<Square> = vec![
        sq("d1"), sq("d2"), sq("d3"), sq("a4"), sq("b4"), sq("c4"), sq("e4"), sq("f4"), sq("d5"),
        sq("d6"),
    ];
    assert_eq!(members(rook), expected);
    let knight = attack_set(&b, sq("a1"), Piece { color: Color::White, role: Role::Knight });
    assert_eq!(members(knight), vec![sq("c2"), sq("b3")]);
    let pawn = attack_set(&b, sq("d6"), Piece { color: Color::Black, role: Role::Pawn });
    assert_eq!(members(pawn), vec![sq("c5"), sq("e5")]);
    let bishop = attack_set(&b, sq("a1"), Piece { color: Color::White, role: Role::Bishop });
    assert_eq!(members(bishop), vec![sq("b2"), sq("c3"), sq("d4")]);
    assert_eq!(members(attackers(&b, sq("d5"), Color::White)), vec![sq("d4"), sq("f4")]);
    assert_eq!(members(attackers(&b, sq("c5"), Color::Black)), vec![sq("d6")]);
}

#[test]
fn checkers_of_position() {
    let mut board = Board::empty();
    board.set_piece_at(sq("e1"), Piece { color: Color::White, role: Role::King });
    board.set_piece_at(sq("e8"), Piece { color: Color::Black, role: Role::Rook });
    board.set_piece_at(sq("d3"), Piece { color: Color::Black, role: Role::Knight });
    board.set_piece_at(sq("a8"), Piece { color: Color::Black, role: Role::King });
    let setup = Setup {
        board,
        turn: Color::White,
        castles: Castles::none(),
        ep_square: None,
        halfmoves: 0,
        fullmoves: 1,
    };
    let pos = Chess::from_setup(setup).unwrap();
    assert!(pos.is_check());
    assert_eq!(members(pos.checkers()), vec![sq("d3"), sq("e8")]);
    assert!(Chess::default().checkers().is_empty());
}
