use vstd::prelude::*;
use vstd::seq_lib::{lemma_seq_concat_contains_all_elements, lemma_no_dup_in_concat};
use crate::types::{Color, Role, Piece, Move, file_of, rank_of, square_at, back_rank, pawn_dir};
use crate::setup::{Castles, State};
use crate::attacks::{
    attacks, attacked_by, king_attacked, orthogonal, distance, ray_square, sign, walk, file_delta,
};

verus! {

/// The role of whatever stands on a square.
pub open spec fn role_on(o: Option<Piece>) -> Option<Role> {
    match o {
        Some(p) => Some(p.role),
        None => None,
    }
}

/// A role a pawn may promote to.
pub open spec fn promotable(r: Role) -> bool {
    r == Role::Knight || r == Role::Bishop || r == Role::Rook || r == Role::Queen
}

/// The square of the pawn taken by an en passant capture from `from` to `to`.
pub open spec fn ep_victim(from: int, to: int) -> int {
    square_at(file_of(to), rank_of(from))
}

/// Where the king lands when it castles with the rook on `rook`.
pub open spec fn castle_king_to(king: int, rook: int) -> int {
    square_at(if rook > king { 6 } else { 2 }, rank_of(king))
}

/// Where the rook lands when the king castles with it.
pub open spec fn castle_rook_to(king: int, rook: int) -> int {
    square_at(if rook > king { 5 } else { 3 }, rank_of(king))
}

/// The smaller of two integers.
pub open spec fn min2(a: int, b: int) -> int {
    if a < b { a } else { b }
}

/// The larger of two integers.
pub open spec fn max2(a: int, b: int) -> int {
    if a < b { b } else { a }
}

/// The lowest square that castling crosses: king, rook and both destinations.
pub open spec fn castle_span_lo(king: int, rook: int) -> int {
    min2(min2(king, rook), min2(castle_king_to(king, rook), castle_rook_to(king, rook)))
}

/// The highest square that castling crosses.
pub open spec fn castle_span_hi(king: int, rook: int) -> int {
    max2(max2(king, rook), max2(castle_king_to(king, rook), castle_rook_to(king, rook)))
}

/// Castling with the rook on `rook` follows the piece rules: the right is
/// held, king and rook stand on the back rank, nothing but the two of them
/// stands between them and their destinations, and the king neither starts
/// on, crosses nor lands on an attacked square.
pub open spec fn castle_pseudo_legal(p: State, king: int, rook: int) -> bool {
    let b = p.board;
    let us = p.turn;
    &&& 0 <= king < 64
    &&& 0 <= rook < 64
    &&& p.castles.has(us, rook)
    &&& b[king] == Some(Piece { color: us, role: Role::King })
    &&& b[rook] == Some(Piece { color: us, role: Role::Rook })
    &&& rank_of(king) == back_rank(us)
    &&& rank_of(rook) == back_rank(us)
    &&& forall|s: int|
        castle_span_lo(king, rook) <= s <= castle_span_hi(king, rook) ==> s == king || s == rook
            || (#[trigger] b[s]) is None
    &&& forall|s: int|
        min2(king, castle_king_to(king, rook)) <= s <= max2(king, castle_king_to(king, rook))
            ==> !#[trigger] attacked_by(b, s, us.opp())
}

/// A pawn of side `us` may go from `from` to `to` without capturing: one
/// step forward onto an empty square, or two from its starting rank across
/// two empty squares.
pub open spec fn pawn_push(b: Seq<Option<Piece>>, us: Color, from: int, to: int) -> bool {
    &&& file_of(to) == file_of(from)
    &&& b[to] is None
    &&& {
        ||| rank_of(to) - rank_of(from) == pawn_dir(us)
        ||| (rank_of(to) - rank_of(from) == 2 * pawn_dir(us) && rank_of(from) == back_rank(us)
            + pawn_dir(us) && b[square_at(file_of(from), rank_of(from) + pawn_dir(us))] is None)
    }
}

/// The move follows the piece rules in `p`, ignoring whether it leaves the
/// mover's king attacked.
pub open spec fn pseudo_legal(p: State, m: Move) -> bool {
    let b = p.board;
    let us = p.turn;
    match m {
        Move::Normal { role, from, to, capture, promotion } => {
            &&& from < 64
            &&& to < 64
            &&& b[from as int] == Some(Piece { color: us, role: role })
            &&& capture == role_on(b[to as int])
            &&& (b[to as int] is None || b[to as int]->Some_0.color != us)
            &&& if role == Role::Pawn {
                &&& (promotion is Some) == (rank_of(to as int) == back_rank(us.opp()))
                &&& (promotion is Some ==> promotable(promotion->Some_0))
                &&& if capture is Some {
                    attacks(b, from as int, Piece { color: us, role: role }, to as int)
                } else {
                    pawn_push(b, us, from as int, to as int)
                }
            } else {
                &&& promotion is None
                &&& attacks(b, from as int, Piece { color: us, role: role }, to as int)
            }
        },
        Move::EnPassant { from, to } => {
            &&& from < 64
            &&& to < 64
            &&& p.ep_square == Some(to)
            &&& b[from as int] == Some(Piece { color: us, role: Role::Pawn })
            &&& attacks(b, from as int, Piece { color: us, role: Role::Pawn }, to as int)
            &&& b[to as int] is None
            &&& b[ep_victim(from as int, to as int)] == Some(
                Piece { color: us.opp(), role: Role::Pawn },
            )
        },
        Move::Castle { king, rook } => castle_pseudo_legal(p, king as int, rook as int),
        Move::Put { .. } => false,
    }
}

/// `x` plus one, stopping at the largest value.
pub open spec fn sat_inc(x: u32) -> u32 {
    if x < u32::MAX { (x + 1) as u32 } else { x }
}

/// The placement after move `m` by side `us`.
pub open spec fn board_after(b: Seq<Option<Piece>>, us: Color, m: Move) -> Seq<Option<Piece>> {
    match m {
        Move::Normal { role, from, to, promotion, .. } => {
            let landed = match promotion {
                Some(r) => r,
                None => role,
            };
            b.update(from as int, None).update(to as int, Some(Piece { color: us, role: landed }))
        },
        Move::EnPassant { from, to } => b.update(from as int, None).update(
            ep_victim(from as int, to as int),
            None,
        ).update(to as int, Some(Piece { color: us, role: Role::Pawn })),
        Move::Castle { king, rook } => b.update(king as int, None).update(rook as int, None).update(
            castle_king_to(king as int, rook as int),
            Some(Piece { color: us, role: Role::King }),
        ).update(
            castle_rook_to(king as int, rook as int),
            Some(Piece { color: us, role: Role::Rook }),
        ),
        Move::Put { role, to } => b.update(to as int, Some(Piece { color: us, role: role })),
    }
}

/// The castling rights after move `m` by side `us`: a right goes when its
/// rook moves or is captured, both go when the king moves.
pub open spec fn castles_after(c: Castles, us: Color, m: Move) -> Castles {
    match m {
        Move::Normal { role, from, to, .. } => {
            let c1 = c.without_square(from as int).without_square(to as int);
            if role == Role::King { c1.without_color(us) } else { c1 }
        },
        Move::Castle { .. } => c.without_color(us),
        _ => c,
    }
}

/// The en passant target after move `m`: the skipped square of a pawn's
/// double step, else none.
pub open spec fn ep_after(m: Move) -> Option<u8> {
    match m {
        Move::Normal { role, from, to, .. } => if role == Role::Pawn && (to as int - from as int
            == 16 || from as int - to as int == 16) {
            Some(((from as int + to as int) / 2) as u8)
        } else {
            None
        },
        _ => None,
    }
}

/// The move captures or moves a pawn, which restarts the fifty-move count.
pub open spec fn resets_clock(m: Move) -> bool {
    match m {
        Move::Normal { role, capture, .. } => role == Role::Pawn || capture is Some,
        Move::EnPassant { .. } => true,
        _ => false,
    }
}

/// The state after side `p.turn` plays `m`.
pub open spec fn apply(p: State, m: Move) -> State {
    State {
        board: board_after(p.board, p.turn, m),
        turn: p.turn.opp(),
        castles: castles_after(p.castles, p.turn, m),
        ep_square: ep_after(m),
        halfmoves: if resets_clock(m) { 0 } else { sat_inc(p.halfmoves) },
        fullmoves: if p.turn == Color::Black { sat_inc(p.fullmoves) } else { p.fullmoves },
    }
}

/// A legal move: it follows the piece rules and leaves the mover's king
/// unattacked.
pub open spec fn legal(p: State, m: Move) -> bool {
    pseudo_legal(p, m) && !king_attacked(apply(p, m).board, p.turn)
}

/// The side to move is in check.
pub open spec fn in_check(p: State) -> bool {
    king_attacked(p.board, p.turn)
}

/// The promotion role tried as candidate `k` (1 to 4).
pub open spec fn promotion_choice(k: int) -> Role {
    if k == 1 {
        Role::Knight
    } else if k == 2 {
        Role::Bishop
    } else if k == 3 {
        Role::Rook
    } else {
        Role::Queen
    }
}

/// The `k`-th (0 to 6) move shape from `from` to `to` that the generator
/// tries: a plain move, the four promotions, an en passant capture, castling.
pub open spec fn candidate(p: State, from: int, to: int, k: int) -> Move {
    let role = match p.board[from] {
        Some(pc) => pc.role,
        None => Role::Pawn,
    };
    let capture = role_on(p.board[to]);
    if k == 0 {
        Move::Normal { role, from: from as u8, to: to as u8, capture, promotion: None }
    } else if k <= 4 {
        Move::Normal {
            role,
            from: from as u8,
            to: to as u8,
            capture,
            promotion: Some(promotion_choice(k)),
        }
    } else if k == 5 {
        Move::EnPassant { from: from as u8, to: to as u8 }
    } else {
        Move::Castle { king: from as u8, rook: to as u8 }
    }
}

/// The legal moves among the first `k` candidates from `from` to `to`.
pub open spec fn gen_shapes(p: State, from: int, to: int, k: nat) -> Seq<Move>
    decreases k,
{
    if k == 0 {
        seq![]
    } else {
        let prev = gen_shapes(p, from, to, (k - 1) as nat);
        let m = candidate(p, from, to, k - 1);
        if legal(p, m) {
            prev.push(m)
        } else {
            prev
        }
    }
}

/// The legal moves from `from` to the squares below `t`.
pub open spec fn gen_targets(p: State, from: int, t: nat) -> Seq<Move>
    decreases t,
{
    if t == 0 {
        seq![]
    } else {
        gen_targets(p, from, (t - 1) as nat) + gen_shapes(p, from, t - 1, 7)
    }
}

/// The legal moves from the squares below `f`.
pub open spec fn gen_origins(p: State, f: nat) -> Seq<Move>
    decreases f,
{
    if f == 0 {
        seq![]
    } else {
        gen_origins(p, (f - 1) as nat) + gen_targets(p, f - 1, 64)
    }
}

/// All legal moves of `p`, ordered by origin square, then target square,
/// then move shape.
pub open spec fn legal_moves_of(p: State) -> Seq<Move> {
    gen_origins(p, 64)
}

/// Where a move starts: the moving piece's square, or the king's.
pub open spec fn move_from(m: Move) -> int {
    match m {
        Move::Normal { from, .. } => from as int,
        Move::EnPassant { from, .. } => from as int,
        Move::Castle { king, .. } => king as int,
        Move::Put { to, .. } => to as int,
    }
}

/// Where a move ends, with castling written as king takes own rook.
pub open spec fn move_to(m: Move) -> int {
    match m {
        Move::Normal { to, .. } => to as int,
        Move::EnPassant { to, .. } => to as int,
        Move::Castle { rook, .. } => rook as int,
        Move::Put { to, .. } => to as int,
    }
}

/// Which candidate shape a move has.
pub open spec fn move_shape(m: Move) -> int {
    match m {
        Move::Normal { promotion, .. } => match promotion {
            None => 0,
            Some(r) => if r == Role::Knight {
                1
            } else if r == Role::Bishop {
                2
            } else if r == Role::Rook {
                3
            } else {
                4
            },
        },
        Move::EnPassant { .. } => 5,
        _ => 6,
    }
}

proof fn lemma_shapes(p: State, from: int, to: int, k: nat)
    requires
        0 <= from < 64,
        0 <= to < 64,
        k <= 7,
    ensures
        forall|m: Move| #[trigger]
            gen_shapes(p, from, to, k).contains(m) <==> (legal(p, m) && move_from(m) == from
                && move_to(m) == to && move_shape(m) < k),
        gen_shapes(p, from, to, k).no_duplicates(),
    decreases k,
{
    if k > 0 {
        lemma_shapes(p, from, to, (k - 1) as nat);
        let prev = gen_shapes(p, from, to, (k - 1) as nat);
        let c = candidate(p, from, to, k - 1);
        assert(move_from(c) == from && move_to(c) == to && move_shape(c) == k - 1);
        assert forall|m: Move|
            legal(p, m) && move_from(m) == from && move_to(m) == to && move_shape(m) == k - 1
                implies m == c by {
            assert(pseudo_legal(p, m));
        }
        if legal(p, c) {
            assert(!prev.contains(c));
            assert forall|i: int, j: int| 0 <= i < j < prev.push(c).len() implies prev.push(c)[i]
                != prev.push(c)[j] by {
                if j == prev.len() {
                    assert(prev.push(c)[i] == prev[i]);
                }
            }
            assert forall|m: Move| #[trigger]
                gen_shapes(p, from, to, k).contains(m) <==> (legal(p, m) && move_from(m) == from
                    && move_to(m) == to && move_shape(m) < k) by {
                if gen_shapes(p, from, to, k).contains(m) {
                    let i = choose|i: int|
                        0 <= i < prev.push(c).len() && prev.push(c)[i] == m;
                    if i < prev.len() {
                        assert(prev.contains(m));
                    }
                }
                if legal(p, m) && move_from(m) == from && move_to(m) == to && move_shape(m) < k {
                    if move_shape(m) < k - 1 {
                        assert(prev.contains(m));
                        let i = choose|i: int| 0 <= i < prev.len() && prev[i] == m;
                        assert(prev.push(c)[i] == m);
                    } else {
                        assert(prev.push(c)[prev.len() as int] == m);
                    }
                }
            }
        }
    }
}

proof fn lemma_targets(p: State, from: int, t: nat)
    requires
        0 <= from < 64,
        t <= 64,
    ensures
        forall|m: Move| #[trigger]
            gen_targets(p, from, t).contains(m) <==> (legal(p, m) && move_from(m) == from
                && move_to(m) < t),
        gen_targets(p, from, t).no_duplicates(),
    decreases t,
{
    if t > 0 {
        lemma_targets(p, from, (t - 1) as nat);
        lemma_shapes(p, from, t - 1, 7);
        let a = gen_targets(p, from, (t - 1) as nat);
        let b = gen_shapes(p, from, t - 1, 7);
        assert forall|m: Move| #[trigger]
            (a + b).contains(m) <==> (legal(p, m) && move_from(m) == from && move_to(m) < t) by {
            lemma_seq_concat_contains_all_elements(a, b, m);
            assert(move_shape(m) < 7);
        }
        assert forall|i: int, j: int| 0 <= i < a.len() && 0 <= j < b.len() implies a[i]
            != b[j] by {
            assert(a.contains(a[i]));
            assert(b.contains(b[j]));
        }
        lemma_no_dup_in_concat(a, b);
    }
}

proof fn lemma_origins(p: State, f: nat)
    requires
        f <= 64,
    ensures
        forall|m: Move| #[trigger]
            gen_origins(p, f).contains(m) <==> (legal(p, m) && move_from(m) < f),
        gen_origins(p, f).no_duplicates(),
    decreases f,
{
    if f > 0 {
        lemma_origins(p, (f - 1) as nat);
        lemma_targets(p, f - 1, 64);
        let a = gen_origins(p, (f - 1) as nat);
        let b = gen_targets(p, f - 1, 64);
        assert forall|m: Move| #[trigger]
            (a + b).contains(m) <==> (legal(p, m) && move_from(m) < f) by {
            lemma_seq_concat_contains_all_elements(a, b, m);
            if legal(p, m) {
                assert(move_to(m) < 64);
                assert(move_from(m) >= 0);
            }
        }
        assert forall|i: int, j: int| 0 <= i < a.len() && 0 <= j < b.len() implies a[i]
            != b[j] by {
            assert(a.contains(a[i]));
            assert(b.contains(b[j]));
        }
        lemma_no_dup_in_concat(a, b);
    }
}

/// The generated list holds exactly the legal moves, each once.
pub proof fn lemma_legal_moves_exact(p: State)
    ensures
        forall|m: Move| #[trigger] legal_moves_of(p).contains(m) <==> legal(p, m),
        legal_moves_of(p).no_duplicates(),
{
    lemma_origins(p, 64);
    assert forall|m: Move| #[trigger] legal_moves_of(p).contains(m) <==> legal(p, m) by {
        if legal(p, m) {
            assert(move_from(m) < 64);
        }
    }
}

/// No move starts on a square that holds no piece of the side to move.
pub proof fn lemma_no_moves_from(p: State, from: int, t: nat)
    requires
        0 <= from < 64,
        t <= 64,
        !(p.board[from] is Some && p.board[from]->Some_0.color == p.turn),
    ensures
        gen_targets(p, from, t) == Seq::<Move>::empty(),
{
    lemma_targets(p, from, t);
    let s = gen_targets(p, from, t);
    if s.len() > 0 {
        assert(s.contains(s[0]));
        assert(pseudo_legal(p, s[0]));
    }
    assert(s =~= Seq::<Move>::empty());
}

/// The number of pieces of side `c` and role `role` on the squares below `n`.
pub open spec fn count_pieces(b: Seq<Option<Piece>>, c: Color, role: Role, n: nat) -> nat
    decreases n,
{
    if n == 0 {
        0
    } else {
        count_pieces(b, c, role, (n - 1) as nat) + if b[n - 1] == Some(Piece { color: c, role }) {
            1nat
        } else {
            0nat
        }
    }
}

/// The number of occupied squares below `n`.
pub open spec fn count_occupied(b: Seq<Option<Piece>>, n: nat) -> nat
    decreases n,
{
    if n == 0 {
        0
    } else {
        count_occupied(b, (n - 1) as nat) + if b[n - 1] is Some {
            1nat
        } else {
            0nat
        }
    }
}

/// Some piece of role `role`, of either side, stands on a square below `n`.
pub open spec fn role_below(b: Seq<Option<Piece>>, role: Role, n: int) -> bool {
    exists|s: int| 0 <= s < n && #[trigger] b[s] is Some && b[s]->Some_0.role == role
}

/// A dark square (a1 is dark).
pub open spec fn is_dark(s: int) -> bool {
    (file_of(s) + rank_of(s)) % 2 == 0
}

/// Some bishop stands on a square below `n` of the given shade.
pub open spec fn bishop_below(b: Seq<Option<Piece>>, dark: bool, n: int) -> bool {
    exists|s: int|
        0 <= s < n && #[trigger] b[s] is Some && b[s]->Some_0.role == Role::Bishop && is_dark(s)
            == dark
}

/// Neither side can ever checkmate: no pawn, rook or queen is left, and
/// either at most one minor piece stands beside the two kings, or no knight
/// is left and all bishops stand on squares of one shade. Two knights
/// against a bare king do not count as insufficient.
pub open spec fn insufficient_material(b: Seq<Option<Piece>>) -> bool {
    &&& !role_below(b, Role::Pawn, 64)
    &&& !role_below(b, Role::Rook, 64)
    &&& !role_below(b, Role::Queen, 64)
    &&& (count_occupied(b, 64) < 4 || (!role_below(b, Role::Knight, 64) && (!bishop_below(
        b,
        true,
        64,
    ) || !bishop_below(b, false, 64))))
}

/// The side to move is checkmated: no legal move, and in check.
pub open spec fn checkmate(p: State) -> bool {
    legal_moves_of(p).len() == 0 && in_check(p)
}

/// The side to move is stalemated: no legal move, and not in check.
pub open spec fn stalemate(p: State) -> bool {
    legal_moves_of(p).len() == 0 && !in_check(p)
}

/// Checkmate means no legal move while in check; stalemate means no legal
/// move while not in check; a position is never both.
pub proof fn lemma_game_end(p: State)
    ensures
        checkmate(p) ==> legal_moves_of(p).len() == 0 && in_check(p),
        stalemate(p) ==> legal_moves_of(p).len() == 0 && !in_check(p),
        (checkmate(p) || stalemate(p)) ==> forall|m: Move| !#[trigger] legal(p, m),
        !(checkmate(p) && stalemate(p)),
{
    lemma_legal_moves_exact(p);
    if legal_moves_of(p).len() == 0 {
        assert forall|m: Move| !#[trigger] legal(p, m) by {
            if legal(p, m) {
                assert(legal_moves_of(p).contains(m));
            }
        }
    }
}

/// Every legal move hands the turn to the other side, leaves a board of 64
/// squares, and leaves the side that moved out of check.
pub proof fn lemma_legal_move_passes_turn(p: State, m: Move)
    requires
        p.board.len() == 64,
        legal(p, m),
    ensures
        apply(p, m).turn == p.turn.opp(),
        apply(p, m).board.len() == 64,
        !king_attacked(apply(p, m).board, apply(p, m).turn.opp()),
{
}

/// A move missing from the generated list is not legal, so playing it is
/// refused.
pub proof fn lemma_unlisted_is_illegal(p: State, m: Move)
    requires
        !legal_moves_of(p).contains(m),
    ensures
        !legal(p, m),
{
    lemma_legal_moves_exact(p);
}

/// Castling is never legal when a square on the king's way, from its start
/// to its destination, is attacked, whether or not king and rook have moved.
pub proof fn lemma_no_castling_through_attack(p: State, king: u8, rook: u8, s: int)
    requires
        min2(king as int, castle_king_to(king as int, rook as int)) <= s <= max2(
            king as int,
            castle_king_to(king as int, rook as int),
        ),
        attacked_by(p.board, s, p.turn.opp()),
    ensures
        !legal(p, Move::Castle { king, rook }),
        !legal_moves_of(p).contains(Move::Castle { king, rook }),
{
    lemma_legal_moves_exact(p);
}

proof fn lemma_square_on_rank(f: int, r: int)
    requires
        0 <= f < 8,
        0 <= r < 8,
    ensures
        file_of(square_at(f, r)) == f,
        rank_of(square_at(f, r)) == r,
        0 <= square_at(f, r) < 64,
{
    assert((r * 8 + f) % 8 == f && (r * 8 + f) / 8 == r) by (nonlinear_arith)
        requires
            0 <= f < 8,
            0 <= r < 8,
    ;
}

/// An en passant capture is not legal when the capturing and the captured
/// pawn are the only pieces between the mover's king and an enemy rook or
/// queen on that rank: taking both away would expose the king.
pub proof fn lemma_no_en_passant_exposing_rank(p: State, from: u8, to: u8, k: int, q: int)
    requires
        p.board.len() == 64,
        0 <= k < 64,
        0 <= q < 64,
        p.board[k] == Some(Piece { color: p.turn, role: Role::King }),
        p.board[q] == Some(Piece { color: p.turn.opp(), role: Role::Rook }) || p.board[q] == Some(
            Piece { color: p.turn.opp(), role: Role::Queen },
        ),
        rank_of(k) == rank_of(from as int),
        rank_of(q) == rank_of(from as int),
        forall|s: int|
            min2(k, q) < s < max2(k, q) ==> s == from || s == ep_victim(from as int, to as int)
                || (#[trigger] p.board[s]) is None,
    ensures
        !legal(p, Move::EnPassant { from, to }),
        !legal_moves_of(p).contains(Move::EnPassant { from, to }),
{
    lemma_legal_moves_exact(p);
    let m = Move::EnPassant { from, to };
    if pseudo_legal(p, m) {
        let b = p.board;
        let b2 = apply(p, m).board;
        let v = ep_victim(from as int, to as int);
        let rq = b[q]->Some_0;
        let rank = rank_of(k);
        assert(b2 == board_after(b, p.turn, m));
        lemma_square_on_rank(file_of(to as int), rank_of(from as int));
        assert(rank_of(to as int) != rank);
        assert(k != q);
        assert(b2[k] == b[k]);
        assert(b2[q] == b[q]);
        assert(file_of(k) != file_of(q)) by {
            assert(k == rank_of(k) * 8 + file_of(k));
            assert(q == rank_of(q) * 8 + file_of(q));
        }
        assert(orthogonal(q, k));
        assert forall|j: int| 0 < j < distance(q, k) implies (#[trigger] b2[ray_square(q, k, j)]) is None by {
            let fq = file_of(q);
            let sf = sign(file_delta(q, k));
            let f = walk(fq, sf, j);
            assert(0 <= f < 8);
            lemma_square_on_rank(f, rank);
            assert(ray_square(q, k, j) == square_at(f, rank));
            let s = square_at(f, rank);
            assert(q == rank * 8 + fq);
            assert(k == rank * 8 + file_of(k));
            assert(min2(k, q) < s < max2(k, q));
            assert(s != to as int);
        }
        assert(attacks(b2, q, rq, k));
        assert(attacked_by(b2, k, p.turn.opp()));
        assert(king_attacked(b2, p.turn));
    }
}

/// Kings alone, or kings with bishops all on squares of one shade (king
/// against king, king and bishop against king), are insufficient material.
/// A single minor piece beside the two kings (king and knight against king
/// among them) is insufficient too. A knight with at least four pieces on
/// the board (two knights against a bare king among them) is not.
pub proof fn lemma_insufficient_material_policy(b: Seq<Option<Piece>>)
    ensures
        ((forall|s: int|
            0 <= s < 64 && (#[trigger] b[s]) is Some ==> b[s]->Some_0.role == Role::King
                || b[s]->Some_0.role == Role::Bishop) && (!bishop_below(b, true, 64)
            || !bishop_below(b, false, 64))) ==> insufficient_material(b),
        (!role_below(b, Role::Pawn, 64) && !role_below(b, Role::Rook, 64) && !role_below(
            b,
            Role::Queen,
            64,
        ) && count_occupied(b, 64) <= 3) ==> insufficient_material(b),
        (role_below(b, Role::Knight, 64) && count_occupied(b, 64) >= 4) ==> !insufficient_material(b),
{
}

proof fn lemma_gen_len(p: State, from: int, to: int, k: nat, t: nat, f: nat)
    ensures
        gen_shapes(p, from, to, k).len() <= k,
        gen_targets(p, from, t).len() <= 7 * t,
        gen_origins(p, f).len() <= 448 * f,
    decreases f, t, k,
{
    if k > 0 {
        lemma_gen_len(p, from, to, (k - 1) as nat, 0, 0);
    }
    if t > 0 {
        lemma_gen_len(p, from, t - 1, 7, (t - 1) as nat, 0);
    }
    if f > 0 {
        lemma_gen_len(p, f - 1, 0, 0, 64, (f - 1) as nat);
    }
}

/// No position has more legal moves than the generator has candidates:
/// seven move shapes for each pair of squares.
pub proof fn lemma_legal_moves_len(p: State)
    ensures
        legal_moves_of(p).len() <= 28672,
{
    lemma_gen_len(p, 0, 0, 0, 0, 64);
}

} // verus!
