use vstd::prelude::*;
use crate::types::{Color, Role, Piece, Move, rank_of, file_of, back_rank, pawn_dir};
use crate::board::start_piece;
use crate::setup::State;
use crate::attacks::{attacked_by, king_attacked};
use crate::rules::{
    count_pieces, pseudo_legal, legal, apply, ep_victim, castle_king_to,
    castle_rook_to, castle_span_lo, castle_span_hi, lemma_legal_move_passes_turn,
};
use crate::position::{
    count_side, too_much_material, pawn_on_backrank, king_on_back_rank, right_valid,
    castles_valid, ep_valid, lemma_double_step_sets_valid_ep, start_state, setup_error,
};
use crate::attacks::{attacks, ray_square};

verus! {

/// The rules a position must keep from move to move: one king each, no
/// excess material, no pawn on a back rank, valid castling rights and en
/// passant square, and the side not to move out of check.
pub open spec fn sound(p: State) -> bool {
    &&& p.board.len() == 64
    &&& count_pieces(p.board, Color::White, Role::King, 64) == 1
    &&& count_pieces(p.board, Color::Black, Role::King, 64) == 1
    &&& !too_much_material(p.board, Color::White)
    &&& !too_much_material(p.board, Color::Black)
    &&& !pawn_on_backrank(p.board)
    &&& castles_valid(p.board, p.castles)
    &&& ep_valid(p)
    &&& !king_attacked(p.board, p.turn.opp())
}

proof fn lemma_count_pieces_update(
    b: Seq<Option<Piece>>,
    c: Color,
    r: Role,
    n: nat,
    i: int,
    v: Option<Piece>,
)
    requires
        n <= b.len(),
        0 <= i < b.len(),
    ensures
        count_pieces(b.update(i, v), c, r, n) + (if i < n && b[i] == Some(Piece { color: c, role: r }) {
            1int
        } else {
            0int
        }) == count_pieces(b, c, r, n) + (if i < n && v == Some(Piece { color: c, role: r }) {
            1int
        } else {
            0int
        }),
    decreases n,
{
    if n > 0 {
        lemma_count_pieces_update(b, c, r, (n - 1) as nat, i, v);
    }
}

proof fn lemma_count_side_update(b: Seq<Option<Piece>>, c: Color, n: nat, i: int, v: Option<Piece>)
    requires
        n <= b.len(),
        0 <= i < b.len(),
    ensures
        count_side(b.update(i, v), c, n) + (if i < n && b[i] is Some && b[i]->Some_0.color == c {
            1int
        } else {
            0int
        }) == count_side(b, c, n) + (if i < n && v is Some && v->Some_0.color == c {
            1int
        } else {
            0int
        }),
    decreases n,
{
    if n > 0 {
        lemma_count_side_update(b, c, (n - 1) as nat, i, v);
    }
}

/// All counts over one update of a board.
proof fn lemma_counts_update(b: Seq<Option<Piece>>, i: int, v: Option<Piece>)
    requires
        b.len() == 64,
        0 <= i < 64,
    ensures
        forall|c: Color, r: Role|
            #![trigger count_pieces(b.update(i, v), c, r, 64)]
            count_pieces(b.update(i, v), c, r, 64) + (if b[i] == Some(Piece { color: c, role: r }) {
                1int
            } else {
                0int
            }) == count_pieces(b, c, r, 64) + (if v == Some(Piece { color: c, role: r }) {
                1int
            } else {
                0int
            }),
        forall|c: Color|
            #![trigger count_side(b.update(i, v), c, 64)]
            count_side(b.update(i, v), c, 64) + (if b[i] is Some && b[i]->Some_0.color == c {
                1int
            } else {
                0int
            }) == count_side(b, c, 64) + (if v is Some && v->Some_0.color == c {
                1int
            } else {
                0int
            }),
{
    assert forall|c: Color, r: Role|
        #![trigger count_pieces(b.update(i, v), c, r, 64)]
        count_pieces(b.update(i, v), c, r, 64) + (if b[i] == Some(Piece { color: c, role: r }) {
            1int
        } else {
            0int
        }) == count_pieces(b, c, r, 64) + (if v == Some(Piece { color: c, role: r }) {
            1int
        } else {
            0int
        }) by {
        lemma_count_pieces_update(b, c, r, 64, i, v);
    }
    assert forall|c: Color|
        #![trigger count_side(b.update(i, v), c, 64)]
        count_side(b.update(i, v), c, 64) + (if b[i] is Some && b[i]->Some_0.color == c {
            1int
        } else {
            0int
        }) == count_side(b, c, 64) + (if v is Some && v->Some_0.color == c {
            1int
        } else {
            0int
        }) by {
        lemma_count_side_update(b, c, 64, i, v);
    }
}

/// The right `o` of side `c` stays valid on `b2` when its rook square and
/// that side's king keep their contents.
proof fn lemma_right_kept(
    b: Seq<Option<Piece>>,
    b2: Seq<Option<Piece>>,
    c: Color,
    o: Option<u8>,
    o2: Option<u8>,
)
    requires
        right_valid(b, c, o),
        o2 is None || o2 == o,
        o2 is Some ==> b2[o2->Some_0 as int] == b[o2->Some_0 as int],
        forall|s: int|
            0 <= s < 64 && b[s] == Some(Piece { color: c, role: Role::King }) && o2 is Some
                ==> #[trigger] b2[s] == b[s],
    ensures
        right_valid(b2, c, o2),
{
    if o2 is Some {
        let k = choose|k: int|
            0 <= k < 64 && #[trigger] b[k] == Some(Piece { color: c, role: Role::King }) && rank_of(k)
                == back_rank(c);
        assert(b2[k] == b[k]);
    }
}

proof fn lemma_castle_keeps_sound(p: State, m: Move)
    requires
        sound(p),
        legal(p, m),
        m is Castle,
    ensures
        sound(apply(p, m)),
{
    let us = p.turn;
    let them = us.opp();
    let king = m->Castle_king as int;
    let rook = m->Castle_rook as int;
    let kd = castle_king_to(king, rook);
    let rd = castle_rook_to(king, rook);
    let b = p.board;
    let b1 = b.update(king, None);
    let b2 = b1.update(rook, None);
    let b3 = b2.update(kd, Some(Piece { color: us, role: Role::King }));
    let b4 = b3.update(rd, Some(Piece { color: us, role: Role::Rook }));
    let q = apply(p, m);
    assert(q.board == b4);
    assert(castle_span_lo(king, rook) <= kd <= castle_span_hi(king, rook));
    assert(castle_span_lo(king, rook) <= rd <= castle_span_hi(king, rook));
    assert(b[kd] is None || kd == king || kd == rook);
    assert(b[rd] is None || rd == king || rd == rook);
    assert(0 <= kd < 64 && 0 <= rd < 64 && kd != rd);
    lemma_counts_update(b, king, None);
    lemma_counts_update(b1, rook, None);
    lemma_counts_update(b2, kd, Some(Piece { color: us, role: Role::King }));
    lemma_counts_update(b3, rd, Some(Piece { color: us, role: Role::Rook }));
    assert forall|s: int| 0 <= s < 64 && #[trigger] b4[s] != b[s] implies s == king || s == rook
        || s == kd || s == rd by {}
    assert(!pawn_on_backrank(b4)) by {
        assert forall|s: int| 0 <= s < 64 && #[trigger] b4[s] is Some implies !(b4[s]->Some_0.role
            == Role::Pawn && (rank_of(s) == 0 || rank_of(s) == 7)) by {
            if !(s == king || s == rook || s == kd || s == rd) {
                assert(b4[s] == b[s]);
            }
        }
    }
    assert forall|s: int|
        0 <= s < 64 && (b[s] == Some(Piece { color: them, role: Role::Rook }) || b[s] == Some(
            Piece { color: them, role: Role::King },
        )) implies #[trigger] b4[s] == b[s] by {}
    lemma_right_kept(b, b4, Color::White, p.castles.white_king_side, q.castles.white_king_side);
    lemma_right_kept(b, b4, Color::White, p.castles.white_queen_side, q.castles.white_queen_side);
    lemma_right_kept(b, b4, Color::Black, p.castles.black_king_side, q.castles.black_king_side);
    lemma_right_kept(b, b4, Color::Black, p.castles.black_queen_side, q.castles.black_queen_side);
    lemma_legal_move_passes_turn(p, m);
}

proof fn lemma_en_passant_keeps_sound(p: State, m: Move)
    requires
        sound(p),
        legal(p, m),
        m is EnPassant,
    ensures
        sound(apply(p, m)),
{
    let us = p.turn;
    let from = m->EnPassant_from as int;
    let to = m->EnPassant_to as int;
    let v = ep_victim(from, to);
    let b = p.board;
    let b1 = b.update(from, None);
    let b2 = b1.update(v, None);
    let b3 = b2.update(to, Some(Piece { color: us, role: Role::Pawn }));
    let q = apply(p, m);
    assert(q.board == b3);
    assert(from == rank_of(from) * 8 + crate::types::file_of(from));
    assert(to == rank_of(to) * 8 + crate::types::file_of(to));
    assert(v == rank_of(from) * 8 + crate::types::file_of(to));
    assert(0 <= v < 64 && v != from && to != from && to != v);
    assert(ep_valid(p));
    assert(rank_of(to) == 2 || rank_of(to) == 5);
    lemma_counts_update(b, from, None);
    lemma_counts_update(b1, v, None);
    lemma_counts_update(b2, to, Some(Piece { color: us, role: Role::Pawn }));
    assert(!pawn_on_backrank(b3)) by {
        assert forall|s: int| 0 <= s < 64 && #[trigger] b3[s] is Some implies !(b3[s]->Some_0.role
            == Role::Pawn && (rank_of(s) == 0 || rank_of(s) == 7)) by {
            if !(s == from || s == v || s == to) {
                assert(b3[s] == b[s]);
            }
        }
    }
    assert forall|s: int|
        0 <= s < 64 && (b[s] is Some && (b[s]->Some_0.role == Role::Rook || b[s]->Some_0.role
            == Role::King)) implies #[trigger] b3[s] == b[s] by {}
    lemma_right_kept(b, b3, Color::White, p.castles.white_king_side, q.castles.white_king_side);
    lemma_right_kept(b, b3, Color::White, p.castles.white_queen_side, q.castles.white_queen_side);
    lemma_right_kept(b, b3, Color::Black, p.castles.black_king_side, q.castles.black_king_side);
    lemma_right_kept(b, b3, Color::Black, p.castles.black_queen_side, q.castles.black_queen_side);
    lemma_legal_move_passes_turn(p, m);
}

proof fn lemma_normal_keeps_sound(p: State, m: Move)
    requires
        sound(p),
        legal(p, m),
        m is Normal,
    ensures
        sound(apply(p, m)),
{
    let us = p.turn;
    let them = us.opp();
    let role = m->Normal_role;
    let from = m->Normal_from as int;
    let to = m->Normal_to as int;
    let landed = match m->Normal_promotion {
        Some(r) => r,
        None => role,
    };
    let b = p.board;
    let b1 = b.update(from, None);
    let b2 = b1.update(to, Some(Piece { color: us, role: landed }));
    let q = apply(p, m);
    assert(q.board == b2);
    assert(pseudo_legal(p, m));
    assert(from != to) by {
        if from == to {
            assert(crate::attacks::file_delta(from, to) == 0);
        }
    }
    assert(b[to] != Some(Piece { color: them, role: Role::King })) by {
        if b[to] == Some(Piece { color: them, role: Role::King }) {
            assert(attacked_by(b, to, us));
            assert(king_attacked(b, them));
        }
    }
    assert(landed == Role::Pawn ==> role == Role::Pawn);
    assert(landed == Role::King <==> role == Role::King);
    lemma_counts_update(b, from, None);
    lemma_counts_update(b1, to, Some(Piece { color: us, role: landed }));
    assert(!pawn_on_backrank(b2)) by {
        assert forall|s: int| 0 <= s < 64 && #[trigger] b2[s] is Some implies !(b2[s]->Some_0.role
            == Role::Pawn && (rank_of(s) == 0 || rank_of(s) == 7)) by {
            if s == to {
                if landed == Role::Pawn {
                    assert(b[from] is Some && b[from]->Some_0.role == Role::Pawn);
                    assert(rank_of(from) != 0 && rank_of(from) != 7);
                    assert(rank_of(to) != back_rank(them));
                    assert(rank_of(to) - rank_of(from) == pawn_dir(us) || rank_of(to) - rank_of(
                        from,
                    ) == 2 * pawn_dir(us));
                }
            } else if s != from {
                assert(b2[s] == b[s]);
            }
        }
    }
    assert forall|s: int| 0 <= s < 64 && s != from && s != to implies #[trigger] b2[s] == b[s] by {}
    assert forall|s: int|
        0 <= s < 64 && b[s] == Some(Piece { color: them, role: Role::King }) implies #[trigger] b2[s]
        == b[s] by {}
    if role != Role::King {
        assert forall|s: int|
            0 <= s < 64 && b[s] == Some(Piece { color: us, role: Role::King }) implies #[trigger] b2[s]
            == b[s] by {}
    }
    lemma_right_kept(b, b2, Color::White, p.castles.white_king_side, q.castles.white_king_side);
    lemma_right_kept(b, b2, Color::White, p.castles.white_queen_side, q.castles.white_queen_side);
    lemma_right_kept(b, b2, Color::Black, p.castles.black_king_side, q.castles.black_king_side);
    lemma_right_kept(b, b2, Color::Black, p.castles.black_queen_side, q.castles.black_queen_side);
    if q.ep_square is Some {
        lemma_double_step_sets_valid_ep(p, m);
    }
    lemma_legal_move_passes_turn(p, m);
}

/// A legal move keeps every rule of a sound position.
pub proof fn lemma_legal_keeps_sound(p: State, m: Move)
    requires
        sound(p),
        legal(p, m),
    ensures
        sound(apply(p, m)),
{
    match m {
        Move::Normal { .. } => lemma_normal_keeps_sound(p, m),
        Move::EnPassant { .. } => lemma_en_passant_keeps_sound(p, m),
        Move::Castle { .. } => lemma_castle_keeps_sound(p, m),
        Move::Put { .. } => {},
    }
}

proof fn lemma_start_count_wk()
    ensures
        count_pieces(start_state().board, Color::White, Role::King, 64) == 1,
{
    let b = start_state().board;
    assert forall|s: int| 0 <= s < 64 implies #[trigger] b[s] == start_piece(s) by {}
    reveal_with_fuel(count_pieces, 9);
    assert(count_pieces(b, Color::White, Role::King, 8) == 1);
    assert(count_pieces(b, Color::White, Role::King, 16) == 1);
    assert(count_pieces(b, Color::White, Role::King, 24) == 1);
    assert(count_pieces(b, Color::White, Role::King, 32) == 1);
    assert(count_pieces(b, Color::White, Role::King, 40) == 1);
    assert(count_pieces(b, Color::White, Role::King, 48) == 1);
    assert(count_pieces(b, Color::White, Role::King, 56) == 1);
    assert(count_pieces(b, Color::White, Role::King, 64) == 1);
}

proof fn lemma_start_count_bk()
    ensures
        count_pieces(start_state().board, Color::Black, Role::King, 64) == 1,
{
    let b = start_state().board;
    assert forall|s: int| 0 <= s < 64 implies #[trigger] b[s] == start_piece(s) by {}
    reveal_with_fuel(count_pieces, 9);
    assert(count_pieces(b, Color::Black, Role::King, 8) == 0);
    assert(count_pieces(b, Color::Black, Role::King, 16) == 0);
    assert(count_pieces(b, Color::Black, Role::King, 24) == 0);
    assert(count_pieces(b, Color::Black, Role::King, 32) == 0);
    assert(count_pieces(b, Color::Black, Role::King, 40) == 0);
    assert(count_pieces(b, Color::Black, Role::King, 48) == 0);
    assert(count_pieces(b, Color::Black, Role::King, 56) == 0);
    assert(count_pieces(b, Color::Black, Role::King, 64) == 1);
}

proof fn lemma_start_count_wp()
    ensures
        count_pieces(start_state().board, Color::White, Role::Pawn, 64) == 8,
{
    let b = start_state().board;
    assert forall|s: int| 0 <= s < 64 implies #[trigger] b[s] == start_piece(s) by {}
    reveal_with_fuel(count_pieces, 9);
    assert(count_pieces(b, Color::White, Role::Pawn, 8) == 0);
    assert(count_pieces(b, Color::White, Role::Pawn, 16) == 8);
    assert(count_pieces(b, Color::White, Role::Pawn, 24) == 8);
    assert(count_pieces(b, Color::White, Role::Pawn, 32) == 8);
    assert(count_pieces(b, Color::White, Role::Pawn, 40) == 8);
    assert(count_pieces(b, Color::White, Role::Pawn, 48) == 8);
    assert(count_pieces(b, Color::White, Role::Pawn, 56) == 8);
    assert(count_pieces(b, Color::White, Role::Pawn, 64) == 8);
}

proof fn lemma_start_count_bp()
    ensures
        count_pieces(start_state().board, Color::Black, Role::Pawn, 64) == 8,
{
    let b = start_state().board;
    assert forall|s: int| 0 <= s < 64 implies #[trigger] b[s] == start_piece(s) by {}
    reveal_with_fuel(count_pieces, 9);
    assert(count_pieces(b, Color::Black, Role::Pawn, 8) == 0);
    assert(count_pieces(b, Color::Black, Role::Pawn, 16) == 0);
    assert(count_pieces(b, Color::Black, Role::Pawn, 24) == 0);
    assert(count_pieces(b, Color::Black, Role::Pawn, 32) == 0);
    assert(count_pieces(b, Color::Black, Role::Pawn, 40) == 0);
    assert(count_pieces(b, Color::Black, Role::Pawn, 48) == 0);
    assert(count_pieces(b, Color::Black, Role::Pawn, 56) == 8);
    assert(count_pieces(b, Color::Black, Role::Pawn, 64) == 8);
}

proof fn lemma_start_count_ws()
    ensures
        count_side(start_state().board, Color::White, 64) == 16,
{
    let b = start_state().board;
    assert forall|s: int| 0 <= s < 64 implies #[trigger] b[s] == start_piece(s) by {}
    reveal_with_fuel(count_side, 9);
    assert(count_side(b, Color::White, 8) == 8);
    assert(count_side(b, Color::White, 16) == 16);
    assert(count_side(b, Color::White, 24) == 16);
    assert(count_side(b, Color::White, 32) == 16);
    assert(count_side(b, Color::White, 40) == 16);
    assert(count_side(b, Color::White, 48) == 16);
    assert(count_side(b, Color::White, 56) == 16);
    assert(count_side(b, Color::White, 64) == 16);
}

proof fn lemma_start_count_bs()
    ensures
        count_side(start_state().board, Color::Black, 64) == 16,
{
    let b = start_state().board;
    assert forall|s: int| 0 <= s < 64 implies #[trigger] b[s] == start_piece(s) by {}
    reveal_with_fuel(count_side, 9);
    assert(count_side(b, Color::Black, 8) == 0);
    assert(count_side(b, Color::Black, 16) == 0);
    assert(count_side(b, Color::Black, 24) == 0);
    assert(count_side(b, Color::Black, 32) == 0);
    assert(count_side(b, Color::Black, 40) == 0);
    assert(count_side(b, Color::Black, 48) == 0);
    assert(count_side(b, Color::Black, 56) == 8);
    assert(count_side(b, Color::Black, 64) == 16);
}

proof fn lemma_start_counts()
    ensures
        count_pieces(start_state().board, Color::White, Role::King, 64) == 1,
        count_pieces(start_state().board, Color::Black, Role::King, 64) == 1,
        count_pieces(start_state().board, Color::White, Role::Pawn, 64) == 8,
        count_pieces(start_state().board, Color::Black, Role::Pawn, 64) == 8,
        count_side(start_state().board, Color::White, 64) == 16,
        count_side(start_state().board, Color::Black, 64) == 16,
{
    lemma_start_count_wk();
    lemma_start_count_bk();
    lemma_start_count_wp();
    lemma_start_count_bp();
    lemma_start_count_ws();
    lemma_start_count_bs();
}

proof fn lemma_start_black_king_safe()
    ensures
        !king_attacked(start_state().board, Color::Black),
{
    let b = start_state().board;
    assert forall|s: int|
        0 <= s < 64 && #[trigger] b[s] == Some(Piece { color: Color::Black, role: Role::King })
            implies !attacked_by(b, s, Color::White) by {
        assert(s == 60);
        assert forall|f: int|
            0 <= f < 64 && (#[trigger] b[f]) is Some && b[f]->Some_0.color == Color::White
                implies !attacks(b, f, b[f]->Some_0, 60) by {
            assert(rank_of(f) <= 1);
            if rank_of(f) == 0 {
                let r1 = ray_square(f, 60, 1);
                assert(rank_of(r1) == 1 && 0 <= r1 < 64) by {
                    assert(f == file_of(f));
                }
                assert(b[r1] is Some);
            }
        }
    }
}

/// The standard starting position is sound.
pub proof fn lemma_start_sound()
    ensures
        sound(start_state()),
{
    let p = start_state();
    let b = p.board;
    lemma_start_counts();
    lemma_start_black_king_safe();
    assert(b[4] == Some(Piece { color: Color::White, role: Role::King }));
    assert(b[60] == Some(Piece { color: Color::Black, role: Role::King }));
    assert(king_on_back_rank(b, Color::White));
    assert(king_on_back_rank(b, Color::Black));
    assert(b[0] == Some(Piece { color: Color::White, role: Role::Rook }));
    assert(b[7] == Some(Piece { color: Color::White, role: Role::Rook }));
    assert(b[56] == Some(Piece { color: Color::Black, role: Role::Rook }));
    assert(b[63] == Some(Piece { color: Color::Black, role: Role::Rook }));
    assert(!pawn_on_backrank(b));
}

/// A position breaks no rule of `setup_error` exactly when it is sound.
pub proof fn lemma_sound_iff(p: State)
    requires
        p.board.len() == 64,
    ensures
        (setup_error(p) is None) == sound(p),
{
}

} // verus!
