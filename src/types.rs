use vstd::prelude::*;

verus! {

/// A square index in `0..64`: `rank * 8 + file`, with a1 = 0 and h8 = 63.
pub type Square = u8;

/// The two sides.
#[derive(Clone, Copy, Debug, PartialEq, Eq, Hash, Structural)]
pub enum Color {
    White,
    Black,
}

impl Color {
    /// The other side.
    pub open spec fn opp(self) -> Color {
        match self {
            Color::White => Color::Black,
            Color::Black => Color::White,
        }
    }

    /// Returns the other side.
    pub fn other(self) -> (r: Color)
        ensures
            r == self.opp(),
    {
        match self {
            Color::White => Color::Black,
            Color::Black => Color::White,
        }
    }
}

/// The kinds of piece.
#[derive(Clone, Copy, Debug, PartialEq, Eq, Hash, Structural)]
pub enum Role {
    Pawn,
    Knight,
    Bishop,
    Rook,
    Queen,
    King,
}

/// A piece: its side and its kind.
#[derive(Clone, Copy, Debug, PartialEq, Eq, Hash, Structural)]
pub struct Piece {
    pub color: Color,
    pub role: Role,
}

/// A move. It carries no claim of legality: that is a property of a move in
/// a given position.
#[derive(Clone, Copy, Debug, PartialEq, Eq, Hash, Structural)]
pub enum Move {
    /// A piece moves from `from` to `to`, capturing what stands there
    /// (`capture`), a pawn possibly promoting.
    Normal { role: Role, from: Square, to: Square, capture: Option<Role>, promotion: Option<Role> },
    /// A pawn captures en passant, landing on the skipped square `to`.
    EnPassant { from: Square, to: Square },
    /// The king on `king` castles with the rook on `rook`.
    Castle { king: Square, rook: Square },
    /// A piece is dropped on `to` (only in rule sets with pockets).
    Put { role: Role, to: Square },
}

/// File of a square (0 = a).
pub open spec fn file_of(s: int) -> int {
    s % 8
}

/// Rank of a square (0 = first rank).
pub open spec fn rank_of(s: int) -> int {
    s / 8
}

/// The square on file `f` and rank `r`.
pub open spec fn square_at(f: int, r: int) -> int {
    r * 8 + f
}

/// Whether file `f` and rank `r` lie on the board.
pub open spec fn on_board(f: int, r: int) -> bool {
    0 <= f < 8 && 0 <= r < 8
}

/// The rank a side's pieces start on.
pub open spec fn back_rank(c: Color) -> int {
    match c {
        Color::White => 0,
        Color::Black => 7,
    }
}

/// The direction a side's pawns advance in, as a rank step.
pub open spec fn pawn_dir(c: Color) -> int {
    match c {
        Color::White => 1,
        Color::Black => -1,
    }
}

} // verus!
