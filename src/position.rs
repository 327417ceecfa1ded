use vstd::prelude::*;
use crate::types::{Color, Role, Piece, Square, Move, file_of, rank_of, square_at, back_rank, pawn_dir};
use crate::board::{Board, start_piece};
use crate::setup::{Castles, Setup, State};
use crate::bitboard::Bitboard;
use crate::invariants::{lemma_sound_iff, lemma_legal_keeps_sound, lemma_start_sound};
use crate::attacks::{attackers, attacks, attacked_by, king_attacked, piece_attacks, is_attacked_by, is_king_attacked};
use crate::rules::{
    ep_victim, castle_king_to, castle_rook_to, castle_span_lo,
    castle_span_hi, min2, max2, castle_pseudo_legal, pawn_push, pseudo_legal, board_after,
    apply, legal, in_check, candidate,
    gen_shapes, gen_targets, gen_origins, legal_moves_of, lemma_no_moves_from,
    lemma_legal_moves_exact, checkmate, stalemate, insufficient_material, count_occupied,
    role_below, bishop_below, count_pieces,
};

verus! {

/// The legal moves of one position, in generation order.
pub type MoveList = Vec<Move>;

/// The end of a game.
#[derive(Clone, Copy, Debug, PartialEq, Eq, Hash, Structural)]
pub enum Outcome {
    Decisive { winner: Color },
    Draw,
}

/// Refusal to play a move that is not legal in the position.
#[derive(Clone, Copy, Debug, PartialEq, Eq, Hash, Structural)]
pub enum PlayError {
    IllegalMove { m: Move },
}

/// The outcome of `p`, if the game is over.
pub open spec fn outcome_of(p: State) -> Option<Outcome> {
    if checkmate(p) {
        Some(Outcome::Decisive { winner: p.turn.opp() })
    } else if stalemate(p) || insufficient_material(p.board) {
        Some(Outcome::Draw)
    } else {
        None
    }
}

/// Why a setup is not a position of standard chess.
#[derive(Clone, Copy, Debug, PartialEq, Eq, Hash, Structural)]
pub enum PositionError {
    /// A side has no king.
    MissingKing,
    /// A side has more than one king.
    TooManyKings,
    /// A side has more than eight pawns or more than sixteen pieces.
    TooMuchMaterial,
    /// A pawn stands on the first or the last rank.
    PawnsOnBackrank,
    /// A castling right names a square without a rook of that side on its
    /// back rank, or that side's king is not on its back rank.
    InvalidCastlingRights,
    /// The en passant square is not one a pawn of the side not to move has
    /// just skipped.
    InvalidEpSquare,
    /// The side not to move is in check.
    OppositeCheck,
}

/// The number of pieces of side `c` on the squares below `n`.
pub open spec fn count_side(b: Seq<Option<Piece>>, c: Color, n: nat) -> nat
    decreases n,
{
    if n == 0 {
        0
    } else {
        count_side(b, c, (n - 1) as nat) + if b[n - 1] is Some && b[n - 1]->Some_0.color == c {
            1nat
        } else {
            0nat
        }
    }
}

/// Side `c` has more than eight pawns or more than sixteen pieces.
pub open spec fn too_much_material(b: Seq<Option<Piece>>, c: Color) -> bool {
    count_pieces(b, c, Role::Pawn, 64) > 8 || count_side(b, c, 64) > 16
}

/// A pawn stands on the first or the last rank.
pub open spec fn pawn_on_backrank(b: Seq<Option<Piece>>) -> bool {
    exists|s: int|
        0 <= s < 64 && #[trigger] b[s] is Some && b[s]->Some_0.role == Role::Pawn && (rank_of(s) == 0
            || rank_of(s) == 7)
}

/// The king of side `c` stands on its back rank.
pub open spec fn king_on_back_rank(b: Seq<Option<Piece>>, c: Color) -> bool {
    exists|s: int|
        0 <= s < 64 && #[trigger] b[s] == Some(Piece { color: c, role: Role::King }) && rank_of(s)
            == back_rank(c)
}

/// A castling right of side `c` is unset, or names a square with a rook of
/// that side on its back rank, with that side's king on the back rank too.
pub open spec fn right_valid(b: Seq<Option<Piece>>, c: Color, o: Option<Square>) -> bool {
    match o {
        None => true,
        Some(sq) => sq < 64 && b[sq as int] == Some(Piece { color: c, role: Role::Rook }) && rank_of(
            sq as int,
        ) == back_rank(c) && king_on_back_rank(b, c),
    }
}

/// Every castling right is valid.
pub open spec fn castles_valid(b: Seq<Option<Piece>>, cs: Castles) -> bool {
    &&& right_valid(b, Color::White, cs.white_king_side)
    &&& right_valid(b, Color::White, cs.white_queen_side)
    &&& right_valid(b, Color::Black, cs.black_king_side)
    &&& right_valid(b, Color::Black, cs.black_queen_side)
}

/// The en passant square is unset, or is the empty square just skipped by a
/// double step of a pawn of the side not to move: that pawn stands beyond
/// it, and the square it came from is empty.
pub open spec fn ep_valid(p: State) -> bool {
    match p.ep_square {
        None => true,
        Some(sq) => {
            let them = p.turn.opp();
            let f = file_of(sq as int);
            let r = rank_of(sq as int);
            &&& sq < 64
            &&& r == back_rank(them) + 2 * pawn_dir(them)
            &&& p.board[sq as int] is None
            &&& p.board[square_at(f, r + pawn_dir(them))] == Some(
                Piece { color: them, role: Role::Pawn },
            )
            &&& p.board[square_at(f, r - pawn_dir(them))] is None
        },
    }
}

/// The first rule that `p` breaks, in the order the variants are listed,
/// or none.
pub open spec fn setup_error(p: State) -> Option<PositionError> {
    let b = p.board;
    if count_pieces(b, Color::White, Role::King, 64) == 0 || count_pieces(
        b,
        Color::Black,
        Role::King,
        64,
    ) == 0 {
        Some(PositionError::MissingKing)
    } else if count_pieces(b, Color::White, Role::King, 64) > 1 || count_pieces(
        b,
        Color::Black,
        Role::King,
        64,
    ) > 1 {
        Some(PositionError::TooManyKings)
    } else if too_much_material(b, Color::White) || too_much_material(b, Color::Black) {
        Some(PositionError::TooMuchMaterial)
    } else if pawn_on_backrank(b) {
        Some(PositionError::PawnsOnBackrank)
    } else if !castles_valid(b, p.castles) {
        Some(PositionError::InvalidCastlingRights)
    } else if !ep_valid(p) {
        Some(PositionError::InvalidEpSquare)
    } else if king_attacked(b, p.turn.opp()) {
        Some(PositionError::OppositeCheck)
    } else {
        None
    }
}

/// The position a setup makes: the setup itself if it breaks no rule.
pub open spec fn position_from(s: State) -> Result<State, PositionError> {
    match setup_error(s) {
        Some(e) => Err(e),
        None => Ok(s),
    }
}

/// Making a position from the snapshot of a position gives that position
/// back. Every `Chess` value meets the requirement (see `Chess::wf`), and
/// legal moves keep it (`lemma_legal_keeps_valid`).
pub proof fn lemma_setup_round_trip(p: State)
    requires
        p.board.len() == 64,
        setup_error(p) is None,
    ensures
        position_from(p) == Ok::<State, PositionError>(p),
{
}

/// A legal move from a position that breaks no rule leads to a position
/// that breaks no rule.
pub proof fn lemma_legal_keeps_valid(p: State, m: Move)
    requires
        p.board.len() == 64,
        setup_error(p) is None,
        legal(p, m),
    ensures
        apply(p, m).board.len() == 64,
        setup_error(apply(p, m)) is None,
{
    lemma_sound_iff(p);
    lemma_legal_keeps_sound(p, m);
    lemma_sound_iff(apply(p, m));
}

/// Castling rights never come back: every right after a move was held
/// before it, and none is left for the side that moved its king.
pub proof fn lemma_castling_rights_shrink(p: State, m: Move, c: Color, rook: int)
    requires
        apply(p, m).castles.has(c, rook),
    ensures
        p.castles.has(c, rook),
        (m is Castle || (m is Normal && m->Normal_role == Role::King)) ==> c != p.turn,
{
}

/// After a legal double pawn step the en passant target is a valid one: the
/// skipped square, empty, with the pawn beyond it and its start empty.
pub proof fn lemma_double_step_sets_valid_ep(p: State, m: Move)
    requires
        p.board.len() == 64,
        legal(p, m),
        apply(p, m).ep_square is Some,
    ensures
        ep_valid(apply(p, m)),
{
    let from = m->Normal_from as int;
    let to = m->Normal_to as int;
    let us = p.turn;
    let dir = pawn_dir(us);
    assert(m is Normal && m->Normal_role == Role::Pawn);
    assert(to - from == 16 || from - to == 16);
    assert(from == rank_of(from) * 8 + file_of(from));
    assert(to == rank_of(to) * 8 + file_of(to));
    assert(m->Normal_capture is None);
    assert(pawn_push(p.board, us, from, to));
    assert(rank_of(to) - rank_of(from) == 2 * dir);
    let mid = (from + to) / 2;
    assert(mid == from + 8 * dir);
    assert(file_of(mid) == file_of(from) && rank_of(mid) == rank_of(from) + dir);
    assert(square_at(file_of(mid), rank_of(mid) + dir) == to);
    assert(square_at(file_of(mid), rank_of(mid) - dir) == from);
}

/// A piece of the side not to move stands on `s` and attacks a king of the
/// side to move standing on a square below `n`.
pub open spec fn checks_from_below(p: State, s: int, n: int) -> bool {
    &&& 0 <= s < 64
    &&& p.board[s] is Some
    &&& p.board[s]->Some_0.color == p.turn.opp()
    &&& exists|j: int|
        0 <= j < n && #[trigger] p.board[j] == Some(Piece { color: p.turn, role: Role::King })
            && attacks(p.board, s, p.board[s]->Some_0, j)
}

/// The piece on `s` gives check to the side to move.
pub open spec fn gives_check(p: State, s: int) -> bool {
    checks_from_below(p, s, 64)
}

/// A position of standard chess, with the rules enforced: legal moves can be
/// listed and played, and the end of the game detected.
#[derive(Debug)]
pub struct Chess {
    board: Board,
    turn: Color,
    castles: Castles,
    ep_square: Option<Square>,
    halfmoves: u32,
    fullmoves: u32,
}

impl View for Chess {
    type V = State;

    closed spec fn view(&self) -> State {
        State {
            board: self.board@,
            turn: self.turn,
            castles: self.castles,
            ep_square: self.ep_square,
            halfmoves: self.halfmoves,
            fullmoves: self.fullmoves,
        }
    }
}

impl Clone for Chess {
    fn clone(&self) -> (r: Chess)
        ensures
            r@ == self@,
    {
        Chess {
            board: self.board.clone(),
            turn: self.turn,
            castles: self.castles,
            ep_square: self.ep_square,
            halfmoves: self.halfmoves,
            fullmoves: self.fullmoves,
        }
    }
}

/// The state of the standard starting position.
pub open spec fn start_state() -> State {
    State {
        board: Seq::new(64, |i: int| start_piece(i)),
        turn: Color::White,
        castles: Castles {
            white_king_side: Some(7u8),
            white_queen_side: Some(0u8),
            black_king_side: Some(63u8),
            black_queen_side: Some(56u8),
        },
        ep_square: None,
        halfmoves: 0,
        fullmoves: 1,
    }
}

impl Default for Chess {
    /// The standard starting position.
    fn default() -> (r: Chess)
        ensures
            r.wf(),
            r@ == start_state(),
    {
        let board = Board::new();
        let r = Chess {
            board,
            turn: Color::White,
            castles: Castles::standard(),
            ep_square: None,
            halfmoves: 0,
            fullmoves: 1,
        };
        assert(r@.board =~= start_state().board);
        proof {
            lemma_start_sound();
            lemma_sound_iff(r@);
        }
        r
    }
}

impl Chess {
    /// The board holds one entry per square and the position breaks no
    /// rule of `setup_error`.
    pub open spec fn wf(&self) -> bool {
        self@.board.len() == 64 && setup_error(self@) is None
    }

    /// The piece placement.
    pub fn board(&self) -> (r: &Board)
        ensures
            r@ == self@.board,
    {
        &self.board
    }

    /// The side to move.
    pub fn turn(&self) -> (r: Color)
        ensures
            r == self@.turn,
    {
        self.turn
    }

    /// The castling rights.
    pub fn castles(&self) -> (r: Castles)
        ensures
            r == self@.castles,
    {
        self.castles
    }

    /// The en passant target square.
    pub fn ep_square(&self) -> (r: Option<Square>)
        ensures
            r == self@.ep_square,
    {
        self.ep_square
    }

    /// Plies since the last capture or pawn move.
    pub fn halfmoves(&self) -> (r: u32)
        ensures
            r == self@.halfmoves,
    {
        self.halfmoves
    }

    /// The move number.
    pub fn fullmoves(&self) -> (r: u32)
        ensures
            r == self@.fullmoves,
    {
        self.fullmoves
    }

    /// Whether a pawn of the side to move may push from `from` to `to`.
    fn pawn_push_ok(&self, from: Square, to: Square) -> (r: bool)
        requires
            self.wf(),
            from < 64,
            to < 64,
        ensures
            r == pawn_push(self@.board, self@.turn, from as int, to as int),
    {
        if to % 8 != from % 8 || self.board.piece_at(to).is_some() {
            return false;
        }
        let fr = (from / 8) as i16;
        let tr = (to / 8) as i16;
        let (dir, start): (i16, i16) = match self.turn {
            Color::White => (1, 1),
            Color::Black => (-1, 6),
        };
        if tr - fr == dir {
            true
        } else if tr - fr == 2 * dir && fr == start {
            let mid = ((fr + dir) * 8 + (from % 8) as i16) as u8;
            self.board.piece_at(mid).is_none()
        } else {
            false
        }
    }

    /// Whether the side to move may castle with the rook on `rook`, as far
    /// as the piece rules go.
    fn castle_ok(&self, king: Square, rook: Square) -> (r: bool)
        requires
            self.wf(),
        ensures
            r == castle_pseudo_legal(self@, king as int, rook as int),
    {
        let us = self.turn;
        if king >= 64 || rook >= 64 || !self.castles.has_right(us, rook) {
            return false;
        }
        if self.board.piece_at(king) != Some(Piece { color: us, role: Role::King }) {
            return false;
        }
        if self.board.piece_at(rook) != Some(Piece { color: us, role: Role::Rook }) {
            return false;
        }
        let back: u8 = match us {
            Color::White => 0,
            Color::Black => 7,
        };
        if king / 8 != back || rook / 8 != back {
            return false;
        }
        let kd: u8 = back * 8 + if rook > king { 6 } else { 2 };
        let rd: u8 = back * 8 + if rook > king { 5 } else { 3 };
        assert(kd == castle_king_to(king as int, rook as int));
        assert(rd == castle_rook_to(king as int, rook as int));
        let lo = min_sq(min_sq(king, rook), min_sq(kd, rd));
        let hi = max_sq(max_sq(king, rook), max_sq(kd, rd));
        let mut s: u8 = lo;
        while s <= hi
            invariant
                self.wf(),
                lo == castle_span_lo(king as int, rook as int),
                hi == castle_span_hi(king as int, rook as int),
                lo <= s <= hi + 1,
                hi < 64,
                forall|j: int|
                    lo <= j < s ==> j == king || j == rook || (#[trigger] self@.board[j]) is None,
            decreases hi + 1 - s,
        {
            if s != king && s != rook && self.board.piece_at(s).is_some() {
                return false;
            }
            s = s + 1;
        }
        let them = us.other();
        let klo = min_sq(king, kd);
        let khi = max_sq(king, kd);
        let mut s: u8 = klo;
        while s <= khi
            invariant
                self.wf(),
                them == self@.turn.opp(),
                klo == min2(king as int, castle_king_to(king as int, rook as int)),
                khi == max2(king as int, castle_king_to(king as int, rook as int)),
                klo <= s <= khi + 1,
                khi < 64,
                forall|j: int| klo <= j < s ==> !#[trigger] attacked_by(self@.board, j, them),
            decreases khi + 1 - s,
        {
            if is_attacked_by(&self.board, s, them) {
                return false;
            }
            s = s + 1;
        }
        true
    }

    /// Whether `m` follows the piece rules in this position.
    fn is_pseudo_legal(&self, m: &Move) -> (r: bool)
        requires
            self.wf(),
        ensures
            r == pseudo_legal(self@, *m),
    {
        let us = self.turn;
        match *m {
            Move::Normal { role, from, to, capture, promotion } => {
                if from >= 64 || to >= 64 {
                    return false;
                }
                if self.board.piece_at(from) != Some(Piece { color: us, role: role }) {
                    return false;
                }
                let cap_ok = match self.board.piece_at(to) {
                    Some(t) => t.color != us && match capture {
                        Some(c) => c == t.role,
                        None => false,
                    },
                    None => capture.is_none(),
                };
                if !cap_ok {
                    return false;
                }
                if role == Role::Pawn {
                    let last: u8 = match us {
                        Color::White => 7,
                        Color::Black => 0,
                    };
                    if promotion.is_some() != (to / 8 == last) {
                        return false;
                    }
                    match promotion {
                        Some(p) => {
                            if !(p == Role::Knight || p == Role::Bishop || p == Role::Rook || p
                                == Role::Queen) {
                                return false;
                            }
                        },
                        None => {},
                    }
                    if capture.is_some() {
                        piece_attacks(&self.board, from, Piece { color: us, role: role }, to)
                    } else {
                        self.pawn_push_ok(from, to)
                    }
                } else {
                    promotion.is_none() && piece_attacks(
                        &self.board,
                        from,
                        Piece { color: us, role: role },
                        to,
                    )
                }
            },
            Move::EnPassant { from, to } => {
                if from >= 64 || to >= 64 {
                    return false;
                }
                match self.ep_square {
                    Some(ep) => if ep != to {
                        return false;
                    },
                    None => return false,
                }
                let pawn = Piece { color: us, role: Role::Pawn };
                if self.board.piece_at(from) != Some(pawn) || !piece_attacks(
                    &self.board,
                    from,
                    pawn,
                    to,
                ) || self.board.piece_at(to).is_some() {
                    return false;
                }
                let victim = (from / 8) * 8 + to % 8;
                assert(victim == ep_victim(from as int, to as int));
                self.board.piece_at(victim) == Some(Piece { color: us.other(), role: Role::Pawn })
            },
            Move::Castle { king, rook } => self.castle_ok(king, rook),
            Move::Put { .. } => false,
        }
    }

    /// Plays `m`, which follows the piece rules, in place.
    fn apply_move(&mut self, m: &Move)
        requires
            old(self).wf(),
            pseudo_legal(old(self)@, *m),
        ensures
            final(self)@.board.len() == 64,
            final(self)@ == apply(old(self)@, *m),
    {
        let ghost p = self@;
        let us = self.turn;
        match *m {
            Move::Normal { role, from, to, capture, promotion } => {
                self.board.remove_piece_at(from);
                self.board.remove_piece_at(to);
                let landed = match promotion {
                    Some(r) => r,
                    None => role,
                };
                self.board.set_piece_at(to, Piece { color: us, role: landed });
                assert(self.board@ =~= board_after(p.board, us, *m));
                self.castles.discard_square(from);
                self.castles.discard_square(to);
                if role == Role::King {
                    self.castles.discard_color(us);
                }
                self.ep_square = if role == Role::Pawn && (to as i16 - from as i16 == 16
                    || from as i16 - to as i16 == 16) {
                    Some(((from as u16 + to as u16) / 2) as u8)
                } else {
                    None
                };
            },
            Move::EnPassant { from, to } => {
                let victim = (from / 8) * 8 + to % 8;
                assert(victim == ep_victim(from as int, to as int));
                self.board.remove_piece_at(from);
                self.board.remove_piece_at(victim);
                self.board.set_piece_at(to, Piece { color: us, role: Role::Pawn });
                assert(self.board@ =~= board_after(p.board, us, *m));
                self.ep_square = None;
            },
            Move::Castle { king, rook } => {
                let back = king / 8;
                let kd: u8 = back * 8 + if rook > king { 6 } else { 2 };
                let rd: u8 = back * 8 + if rook > king { 5 } else { 3 };
                assert(kd == castle_king_to(king as int, rook as int));
                assert(rd == castle_rook_to(king as int, rook as int));
                assert(p.board[kd as int] is None || kd == king || kd == rook);
                assert(p.board[rd as int] is None || rd == king || rd == rook);
                self.board.remove_piece_at(king);
                self.board.remove_piece_at(rook);
                self.board.set_piece_at(kd, Piece { color: us, role: Role::King });
                self.board.set_piece_at(rd, Piece { color: us, role: Role::Rook });
                assert(self.board@ =~= board_after(p.board, us, *m));
                self.castles.discard_color(us);
                self.ep_square = None;
            },
            Move::Put { .. } => {},
        }
        let resets = match *m {
            Move::Normal { role, capture, .. } => role == Role::Pawn || capture.is_some(),
            Move::EnPassant { .. } => true,
            _ => false,
        };
        if resets {
            self.halfmoves = 0;
        } else if self.halfmoves < u32::MAX {
            self.halfmoves = self.halfmoves + 1;
        }
        if us == Color::Black && self.fullmoves < u32::MAX {
            self.fullmoves = self.fullmoves + 1;
        }
        self.turn = us.other();
    }

    /// Whether `m` is legal in this position.
    pub fn is_legal(&self, m: &Move) -> (r: bool)
        requires
            self.wf(),
        ensures
            r == legal(self@, *m),
    {
        if !self.is_pseudo_legal(m) {
            return false;
        }
        let mut after = self.clone();
        after.apply_move(m);
        !is_king_attacked(&after.board, self.turn)
    }

    /// The candidate move of shape `k` from `from` to `to`.
    fn candidate_move(&self, from: Square, to: Square, k: u8) -> (m: Move)
        requires
            self.wf(),
            from < 64,
            to < 64,
            k < 7,
        ensures
            m == candidate(self@, from as int, to as int, k as int),
    {
        let role = match self.board.piece_at(from) {
            Some(pc) => pc.role,
            None => Role::Pawn,
        };
        let capture = match self.board.piece_at(to) {
            Some(pc) => Some(pc.role),
            None => None,
        };
        if k == 0 {
            Move::Normal { role, from, to, capture, promotion: None }
        } else if k <= 4 {
            let pr = if k == 1 {
                Role::Knight
            } else if k == 2 {
                Role::Bishop
            } else if k == 3 {
                Role::Rook
            } else {
                Role::Queen
            };
            Move::Normal { role, from, to, capture, promotion: Some(pr) }
        } else if k == 5 {
            Move::EnPassant { from, to }
        } else {
            Move::Castle { king: from, rook: to }
        }
    }

    /// All legal moves, each once, ordered by origin square, then target
    /// square (castling is written as the king taking its own rook).
    pub fn legal_moves(&self) -> (r: MoveList)
        requires
            self.wf(),
        ensures
            r@ == legal_moves_of(self@),
            forall|m: Move| #[trigger] r@.contains(m) <==> legal(self@, m),
            r@.no_duplicates(),
    {
        let ghost p = self@;
        let mut r: Vec<Move> = Vec::new();
        let mut from: u8 = 0;
        while from < 64
            invariant
                self.wf(),
                p == self@,
                from <= 64,
                r@ == gen_origins(p, from as nat),
            decreases 64 - from,
        {
            let own = match self.board.piece_at(from) {
                Some(pc) => pc.color == self.turn,
                None => false,
            };
            if !own {
                proof {
                    lemma_no_moves_from(p, from as int, 64);
                }
                assert(gen_origins(p, (from + 1) as nat) =~= r@);
            } else {
                let mut to: u8 = 0;
                while to < 64
                    invariant
                        self.wf(),
                        p == self@,
                        from < 64,
                        to <= 64,
                        r@ == gen_origins(p, from as nat) + gen_targets(p, from as int, to as nat),
                    decreases 64 - to,
                {
                    let mut k: u8 = 0;
                    while k < 7
                        invariant
                            self.wf(),
                            p == self@,
                            from < 64,
                            to < 64,
                            k <= 7,
                            r@ == gen_origins(p, from as nat) + gen_targets(p, from as int, to as nat)
                                + gen_shapes(p, from as int, to as int, k as nat),
                        decreases 7 - k,
                    {
                        let m = self.candidate_move(from, to, k);
                        if self.is_legal(&m) {
                            r.push(m);
                        }
                        assert(r@ =~= gen_origins(p, from as nat) + gen_targets(p, from as int, to as nat)
                            + gen_shapes(p, from as int, to as int, (k + 1) as nat));
                        k = k + 1;
                    }
                    assert(r@ =~= gen_origins(p, from as nat) + gen_targets(p, from as int, (to + 1) as nat));
                    to = to + 1;
                }
                assert(r@ =~= gen_origins(p, (from + 1) as nat));
            }
            from = from + 1;
        }
        proof {
            lemma_legal_moves_exact(p);
        }
        r
    }

    /// Plays `m` on a copy of this position. An illegal move is refused and
    /// the position stays as it is.
    pub fn play(&self, m: &Move) -> (r: Result<Chess, PlayError>)
        requires
            self.wf(),
        ensures
            (r is Ok) == legal(self@, *m),
            (r is Ok) ==> (r->Ok_0.wf() && r->Ok_0@ == apply(self@, *m)),
            (r is Err) ==> (r->Err_0 == (PlayError::IllegalMove { m: *m })),
    {
        if self.is_legal(m) {
            let mut q = self.clone();
            q.apply_move(m);
            proof {
                lemma_legal_keeps_valid(self@, *m);
            }
            Ok(q)
        } else {
            Err(PlayError::IllegalMove { m: *m })
        }
    }

    /// Plays `m` in place. The caller vouches that `m` is legal here.
    pub fn play_unchecked(&mut self, m: &Move)
        requires
            old(self).wf(),
            legal(old(self)@, *m),
        ensures
            final(self).wf(),
            final(self)@ == apply(old(self)@, *m),
    {
        proof {
            lemma_legal_keeps_valid(old(self)@, *m);
        }
        self.apply_move(m);
    }

    /// Whether the side to move is in check.
    pub fn is_check(&self) -> (r: bool)
        requires
            self.wf(),
        ensures
            r == in_check(self@),
    {
        is_king_attacked(&self.board, self.turn)
    }

    /// The pieces of the side not to move that attack the king of the side
    /// to move.
    pub fn checkers(&self) -> (r: Bitboard)
        requires
            self.wf(),
        ensures
            forall|s: int| r.has(s) <==> gives_check(self@, s),
            r.is_empty_spec() == !in_check(self@),
    {
        let ghost p = self@;
        let us = self.turn;
        let them = us.other();
        let mut r = Bitboard::empty();
        let mut k: u8 = 0;
        while k < 64
            invariant
                self.wf(),
                p == self@,
                us == p.turn,
                them == p.turn.opp(),
                k <= 64,
                forall|s: int| r.has(s) <==> checks_from_below(p, s, k as int),
            decreases 64 - k,
        {
            if self.board.piece_at(k) == Some(Piece { color: us, role: Role::King }) {
                let a = attackers(&self.board, k, them);
                let ghost r0 = r;
                r = r.union(a);
                assert forall|s: int| r.has(s) <==> checks_from_below(p, s, k + 1) by {
                    if r.has(s) && !r0.has(s) {
                        assert(checks_from_below(p, s, k + 1)) by {
                            assert(p.board[k as int] == Some(Piece { color: us, role: Role::King }));
                        }
                    }
                    if checks_from_below(p, s, k + 1) && !checks_from_below(p, s, k as int) {
                        let j = choose|j: int|
                            0 <= j < k + 1 && #[trigger] p.board[j] == Some(
                                Piece { color: p.turn, role: Role::King },
                            ) && attacks(p.board, s, p.board[s]->Some_0, j);
                        assert(j == k);
                    }
                }
            }
            k = k + 1;
        }
        proof {
            if in_check(p) {
                let j = choose|j: int|
                    0 <= j < 64 && #[trigger] p.board[j] == Some(Piece { color: p.turn, role: Role::King })
                        && attacked_by(p.board, j, p.turn.opp());
                let s = choose|s: int|
                    0 <= s < 64 && (#[trigger] p.board[s]) is Some && p.board[s]->Some_0.color
                        == p.turn.opp() && attacks(p.board, s, p.board[s]->Some_0, j);
                assert(r.has(s));
            }
            if !r.is_empty_spec() {
                let s = choose|s: int| r.has(s);
                let j = choose|j: int|
                    0 <= j < 64 && #[trigger] p.board[j] == Some(Piece { color: p.turn, role: Role::King })
                        && attacks(p.board, s, p.board[s]->Some_0, j);
                assert(attacked_by(p.board, j, p.turn.opp()));
            }
        }
        r
    }

    /// Whether the side to move is checkmated.
    pub fn is_checkmate(&self) -> (r: bool)
        requires
            self.wf(),
        ensures
            r == checkmate(self@),
    {
        self.is_check() && self.legal_moves().len() == 0
    }

    /// Whether the side to move is stalemated.
    pub fn is_stalemate(&self) -> (r: bool)
        requires
            self.wf(),
        ensures
            r == stalemate(self@),
    {
        !self.is_check() && self.legal_moves().len() == 0
    }

    /// Whether neither side has the material to ever checkmate.
    pub fn is_insufficient_material(&self) -> (r: bool)
        requires
            self.wf(),
        ensures
            r == insufficient_material(self@.board),
    {
        let ghost b = self@.board;
        let mut occupied: u8 = 0;
        let mut pawn = false;
        let mut rook = false;
        let mut queen = false;
        let mut knight = false;
        let mut dark = false;
        let mut light = false;
        let mut s: u8 = 0;
        while s < 64
            invariant
                self.wf(),
                b == self@.board,
                s <= 64,
                occupied as nat == count_occupied(b, s as nat),
                occupied <= s,
                pawn == role_below(b, Role::Pawn, s as int),
                rook == role_below(b, Role::Rook, s as int),
                queen == role_below(b, Role::Queen, s as int),
                knight == role_below(b, Role::Knight, s as int),
                dark == bishop_below(b, true, s as int),
                light == bishop_below(b, false, s as int),
            decreases 64 - s,
        {
            match self.board.piece_at(s) {
                Some(pc) => {
                    occupied = occupied + 1;
                    match pc.role {
                        Role::Pawn => pawn = true,
                        Role::Rook => rook = true,
                        Role::Queen => queen = true,
                        Role::Knight => knight = true,
                        Role::Bishop => {
                            if (s % 8 + s / 8) % 2 == 0 {
                                dark = true;
                            } else {
                                light = true;
                            }
                        },
                        Role::King => {},
                    }
                },
                None => {},
            }
            s = s + 1;
        }
        !pawn && !rook && !queen && (occupied < 4 || (!knight && (!dark || !light)))
    }

    /// How the game has ended, if it has: checkmate wins for the side that
    /// gave it; stalemate and insufficient material draw.
    pub fn outcome(&self) -> (r: Option<Outcome>)
        requires
            self.wf(),
        ensures
            r == outcome_of(self@),
    {
        if self.is_checkmate() {
            Some(Outcome::Decisive { winner: self.turn.other() })
        } else if self.is_stalemate() || self.is_insufficient_material() {
            Some(Outcome::Draw)
        } else {
            None
        }
    }

    /// Checks `setup` against the rules of standard chess and makes it a
    /// position, or names the first rule it breaks.
    pub fn from_setup(setup: Setup) -> (r: Result<Chess, PositionError>)
        requires
            setup.board.wf(),
        ensures
            (r is Ok) ==> (r->Ok_0.wf() && position_from(setup@) == Ok::<State, PositionError>(
                r->Ok_0@,
            )),
            (r is Err) ==> (position_from(setup@) == Err::<State, PositionError>(r->Err_0)),
    {
        let ghost st = setup@;
        let p = Chess {
            board: setup.board,
            turn: setup.turn,
            castles: setup.castles,
            ep_square: setup.ep_square,
            halfmoves: setup.halfmoves,
            fullmoves: setup.fullmoves,
        };
        assert(p@ == st);
        let wk = count_kings(&p.board, Color::White);
        let bk = count_kings(&p.board, Color::Black);
        if wk == 0 || bk == 0 {
            return Err(PositionError::MissingKing);
        }
        if wk > 1 || bk > 1 {
            return Err(PositionError::TooManyKings);
        }
        if has_too_much_material(&p.board, Color::White) || has_too_much_material(&p.board, Color::Black) {
            return Err(PositionError::TooMuchMaterial);
        }
        if has_pawn_on_backrank(&p.board) {
            return Err(PositionError::PawnsOnBackrank);
        }
        if !(right_ok(&p.board, Color::White, p.castles.white_king_side) && right_ok(
            &p.board,
            Color::White,
            p.castles.white_queen_side,
        ) && right_ok(&p.board, Color::Black, p.castles.black_king_side) && right_ok(
            &p.board,
            Color::Black,
            p.castles.black_queen_side,
        )) {
            return Err(PositionError::InvalidCastlingRights);
        }
        if !p.ep_ok() {
            return Err(PositionError::InvalidEpSquare);
        }
        if is_king_attacked(&p.board, p.turn.other()) {
            return Err(PositionError::OppositeCheck);
        }
        Ok(p)
    }

    /// The position as plain data.
    pub fn into_setup(&self) -> (r: Setup)
        requires
            self.wf(),
        ensures
            r@ == self@,
            r.board.wf(),
            position_from(r@) == Ok::<State, PositionError>(self@),
    {
        Setup {
            board: self.board.clone(),
            turn: self.turn,
            castles: self.castles,
            ep_square: self.ep_square,
            halfmoves: self.halfmoves,
            fullmoves: self.fullmoves,
        }
    }

    fn ep_ok(&self) -> (r: bool)
        requires
            self@.board.len() == 64,
        ensures
            r == ep_valid(self@),
    {
        match self.ep_square {
            None => true,
            Some(sq) => {
                if sq >= 64 {
                    return false;
                }
                let them = self.turn.other();
                let f = sq % 8;
                let r = sq / 8;
                let (ep_rank, ahead, behind): (u8, u8, u8) = match them {
                    Color::White => (2, 3, 1),
                    Color::Black => (5, 4, 6),
                };
                if r != ep_rank {
                    return false;
                }
                self.board.piece_at(sq).is_none() && self.board.piece_at(ahead * 8 + f) == Some(
                    Piece { color: them, role: Role::Pawn },
                ) && self.board.piece_at(behind * 8 + f).is_none()
            },
        }
    }
}

fn min_sq(a: u8, b: u8) -> (r: u8)
    ensures
        r == min2(a as int, b as int),
{
    if a < b { a } else { b }
}

fn max_sq(a: u8, b: u8) -> (r: u8)
    ensures
        r == max2(a as int, b as int),
{
    if a < b { b } else { a }
}


/// The number of kings of side `c`.
fn count_kings(b: &Board, c: Color) -> (r: u8)
    requires
        b.wf(),
    ensures
        r as nat == count_pieces(b@, c, Role::King, 64),
{
    let mut n: u8 = 0;
    let mut s: u8 = 0;
    while s < 64
        invariant
            b.wf(),
            s <= 64,
            n <= s,
            n as nat == count_pieces(b@, c, Role::King, s as nat),
        decreases 64 - s,
    {
        if b.piece_at(s) == Some(Piece { color: c, role: Role::King }) {
            n = n + 1;
        }
        s = s + 1;
    }
    n
}

fn has_pawn_on_backrank(b: &Board) -> (r: bool)
    requires
        b.wf(),
    ensures
        r == pawn_on_backrank(b@),
{
    let mut s: u8 = 0;
    while s < 64
        invariant
            b.wf(),
            s <= 64,
            forall|j: int|
                0 <= j < s ==> !(#[trigger] b@[j] is Some && b@[j]->Some_0.role == Role::Pawn && (
                rank_of(j) == 0 || rank_of(j) == 7)),
        decreases 64 - s,
    {
        match b.piece_at(s) {
            Some(pc) => {
                if pc.role == Role::Pawn && (s / 8 == 0 || s / 8 == 7) {
                    return true;
                }
            },
            None => {},
        }
        s = s + 1;
    }
    false
}

fn king_on_back(b: &Board, c: Color) -> (r: bool)
    requires
        b.wf(),
    ensures
        r == king_on_back_rank(b@, c),
{
    let back: u8 = match c {
        Color::White => 0,
        Color::Black => 7,
    };
    let mut s: u8 = 0;
    while s < 64
        invariant
            b.wf(),
            s <= 64,
            back == back_rank(c),
            forall|j: int|
                0 <= j < s ==> !(#[trigger] b@[j] == Some(Piece { color: c, role: Role::King })
                    && rank_of(j) == back_rank(c)),
        decreases 64 - s,
    {
        if b.piece_at(s) == Some(Piece { color: c, role: Role::King }) && s / 8 == back {
            return true;
        }
        s = s + 1;
    }
    false
}

fn right_ok(b: &Board, c: Color, o: Option<Square>) -> (r: bool)
    requires
        b.wf(),
    ensures
        r == right_valid(b@, c, o),
{
    match o {
        None => true,
        Some(sq) => {
            let back: u8 = match c {
                Color::White => 0,
                Color::Black => 7,
            };
            sq < 64 && b.piece_at(sq) == Some(Piece { color: c, role: Role::Rook }) && sq / 8 == back
                && king_on_back(b, c)
        },
    }
}


/// Whether side `c` has more than eight pawns or more than sixteen pieces.
fn has_too_much_material(b: &Board, c: Color) -> (r: bool)
    requires
        b.wf(),
    ensures
        r == too_much_material(b@, c),
{
    let mut pawns: u8 = 0;
    let mut pieces: u8 = 0;
    let mut s: u8 = 0;
    while s < 64
        invariant
            b.wf(),
            s <= 64,
            pawns <= s,
            pieces <= s,
            pawns as nat == count_pieces(b@, c, Role::Pawn, s as nat),
            pieces as nat == count_side(b@, c, s as nat),
        decreases 64 - s,
    {
        match b.piece_at(s) {
            Some(pc) => {
                if pc.color == c {
                    pieces = pieces + 1;
                    if pc.role == Role::Pawn {
                        pawns = pawns + 1;
                    }
                }
            },
            None => {},
        }
        s = s + 1;
    }
    pawns > 8 || pieces > 16
}

} // verus!
