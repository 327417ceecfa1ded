use vstd::prelude::*;
use crate::types::{Color, Piece, Square};
use crate::board::Board;

verus! {

/// Castling rights: for each side and each wing, the starting square of the
/// rook that may still castle, if any. Tracking rook squares rather than
/// fixed files serves Chess960 starting placements too.
#[derive(Clone, Copy, Debug, PartialEq, Eq, Hash, Structural)]
pub struct Castles {
    pub white_king_side: Option<Square>,
    pub white_queen_side: Option<Square>,
    pub black_king_side: Option<Square>,
    pub black_queen_side: Option<Square>,
}

/// `o` names square `sq`.
pub open spec fn names(o: Option<Square>, sq: int) -> bool {
    o is Some && o->Some_0 == sq
}

/// `o` with square `sq` struck out.
pub open spec fn strike(o: Option<Square>, sq: int) -> Option<Square> {
    if names(o, sq) { None } else { o }
}

impl Castles {
    /// Side `c` may still castle with the rook on `rook`.
    pub open spec fn has(self, c: Color, rook: int) -> bool {
        match c {
            Color::White => names(self.white_king_side, rook) || names(self.white_queen_side, rook),
            Color::Black => names(self.black_king_side, rook) || names(self.black_queen_side, rook),
        }
    }

    /// The rights that remain once the piece on `sq` moves or is captured.
    pub open spec fn without_square(self, sq: int) -> Castles {
        Castles {
            white_king_side: strike(self.white_king_side, sq),
            white_queen_side: strike(self.white_queen_side, sq),
            black_king_side: strike(self.black_king_side, sq),
            black_queen_side: strike(self.black_queen_side, sq),
        }
    }

    /// The rights that remain once the king of side `c` moves.
    pub open spec fn without_color(self, c: Color) -> Castles {
        match c {
            Color::White => Castles { white_king_side: None, white_queen_side: None, ..self },
            Color::Black => Castles { black_king_side: None, black_queen_side: None, ..self },
        }
    }

    /// No castling rights at all.
    pub fn none() -> (r: Castles)
        ensures
            forall|c: Color, s: int| !r.has(c, s),
    {
        Castles {
            white_king_side: None,
            white_queen_side: None,
            black_king_side: None,
            black_queen_side: None,
        }
    }

    /// The rights of the standard starting position: each side with both
    /// corner rooks.
    pub fn standard() -> (r: Castles)
        ensures
            r == (Castles {
                white_king_side: Some(7u8),
                white_queen_side: Some(0u8),
                black_king_side: Some(63u8),
                black_queen_side: Some(56u8),
            }),
    {
        Castles {
            white_king_side: Some(7),
            white_queen_side: Some(0),
            black_king_side: Some(63),
            black_queen_side: Some(56),
        }
    }

    /// Whether side `c` may still castle with the rook on `rook`.
    pub fn has_right(&self, c: Color, rook: Square) -> (r: bool)
        ensures
            r == self.has(c, rook as int),
    {
        let (k, q) = match c {
            Color::White => (self.white_king_side, self.white_queen_side),
            Color::Black => (self.black_king_side, self.black_queen_side),
        };
        let hk = match k {
            Some(s) => s == rook,
            None => false,
        };
        let hq = match q {
            Some(s) => s == rook,
            None => false,
        };
        hk || hq
    }

    /// Strikes out any right whose rook square is `sq`.
    pub fn discard_square(&mut self, sq: Square)
        ensures
            *final(self) == old(self).without_square(sq as int),
    {
        self.white_king_side = strike_exec(self.white_king_side, sq);
        self.white_queen_side = strike_exec(self.white_queen_side, sq);
        self.black_king_side = strike_exec(self.black_king_side, sq);
        self.black_queen_side = strike_exec(self.black_queen_side, sq);
    }

    /// Strikes out both rights of side `c`.
    pub fn discard_color(&mut self, c: Color)
        ensures
            *final(self) == old(self).without_color(c),
    {
        match c {
            Color::White => {
                self.white_king_side = None;
                self.white_queen_side = None;
            },
            Color::Black => {
                self.black_king_side = None;
                self.black_queen_side = None;
            },
        }
    }
}

fn strike_exec(o: Option<Square>, sq: Square) -> (r: Option<Square>)
    ensures
        r == strike(o, sq as int),
{
    match o {
        Some(s) => if s == sq { None } else { o },
        None => None,
    }
}

/// The full state of a game at one moment, as a mathematical value.
pub struct State {
    pub board: Seq<Option<Piece>>,
    pub turn: Color,
    pub castles: Castles,
    pub ep_square: Option<Square>,
    pub halfmoves: u32,
    pub fullmoves: u32,
}

/// A position as plain data, before any rule has been checked: placement,
/// side to move, castling rights, en passant target square, the plies since
/// the last capture or pawn move, and the move number.
#[derive(Clone, Debug)]
pub struct Setup {
    pub board: Board,
    pub turn: Color,
    pub castles: Castles,
    pub ep_square: Option<Square>,
    pub halfmoves: u32,
    pub fullmoves: u32,
}

impl View for Setup {
    type V = State;

    open spec fn view(&self) -> State {
        State {
            board: self.board@,
            turn: self.turn,
            castles: self.castles,
            ep_square: self.ep_square,
            halfmoves: self.halfmoves,
            fullmoves: self.fullmoves,
        }
    }
}

} // verus!
