use vstd::prelude::*;
use crate::bitboard::Bitboard;
use crate::types::{Color, Role, Piece, Square, file_of, rank_of};

verus! {

/// The piece that stands on square `s` of the standard starting position.
pub open spec fn start_piece(s: int) -> Option<Piece> {
    let f = file_of(s);
    let r = rank_of(s);
    if r == 1 {
        Some(Piece { color: Color::White, role: Role::Pawn })
    } else if r == 6 {
        Some(Piece { color: Color::Black, role: Role::Pawn })
    } else if r == 0 || r == 7 {
        let c = if r == 0 { Color::White } else { Color::Black };
        let role = if f == 0 || f == 7 {
            Role::Rook
        } else if f == 1 || f == 6 {
            Role::Knight
        } else if f == 2 || f == 5 {
            Role::Bishop
        } else if f == 3 {
            Role::Queen
        } else {
            Role::King
        };
        Some(Piece { color: c, role: role })
    } else {
        None
    }
}

/// Piece placement: what stands on each of the 64 squares.
#[derive(Debug)]
pub struct Board {
    squares: Vec<Option<Piece>>,
}

impl View for Board {
    type V = Seq<Option<Piece>>;

    closed spec fn view(&self) -> Seq<Option<Piece>> {
        self.squares@
    }
}

impl Clone for Board {
    fn clone(&self) -> (r: Board)
        ensures
            r@ == self@,
    {
        Board { squares: self.squares.clone() }
    }
}

impl Board {
    /// A board holds exactly one entry per square.
    pub open spec fn wf(&self) -> bool {
        self@.len() == 64
    }

    /// A board with no pieces.
    pub fn empty() -> (r: Board)
        ensures
            r.wf(),
            forall|i: int| 0 <= i < 64 ==> r@[i] is None,
    {
        let mut squares: Vec<Option<Piece>> = Vec::new();
        let mut i: usize = 0;
        while i < 64
            invariant
                i <= 64,
                squares@.len() == i,
                forall|j: int| 0 <= j < i ==> squares@[j] is None,
            decreases 64 - i,
        {
            squares.push(None);
            i = i + 1;
        }
        Board { squares }
    }

    /// The board of the standard starting position.
    pub fn new() -> (r: Board)
        ensures
            r.wf(),
            forall|i: int| 0 <= i < 64 ==> r@[i] == start_piece(i),
    {
        let mut squares: Vec<Option<Piece>> = Vec::new();
        let mut i: u8 = 0;
        while i < 64
            invariant
                i <= 64,
                squares@.len() == i,
                forall|j: int| 0 <= j < i ==> squares@[j] == start_piece(j),
            decreases 64 - i,
        {
            squares.push(start_piece_at(i));
            i = i + 1;
        }
        Board { squares }
    }

    /// What stands on `sq`.
    pub fn piece_at(&self, sq: Square) -> (r: Option<Piece>)
        requires
            self.wf(),
            sq < 64,
        ensures
            r == self@[sq as int],
    {
        self.squares[sq as usize]
    }

    /// Places `p` on the empty square `sq`.
    pub fn set_piece_at(&mut self, sq: Square, p: Piece)
        requires
            old(self).wf(),
            sq < 64,
            old(self)@[sq as int] is None,
        ensures
            final(self).wf(),
            final(self)@ == old(self)@.update(sq as int, Some(p)),
    {
        self.squares.set(sq as usize, Some(p));
    }

    /// Takes whatever stands on `sq` off the board and returns it.
    pub fn remove_piece_at(&mut self, sq: Square) -> (r: Option<Piece>)
        requires
            old(self).wf(),
            sq < 64,
        ensures
            final(self).wf(),
            r == old(self)@[sq as int],
            final(self)@ == old(self)@.update(sq as int, None),
    {
        let r = self.squares[sq as usize];
        self.squares.set(sq as usize, None);
        r
    }

    /// Every occupied square with the piece on it, in square order.
    pub fn pieces(&self) -> (r: Vec<(Square, Piece)>)
        requires
            self.wf(),
        ensures
            forall|k: int| 0 <= k < r@.len() ==> {
                &&& r@[k].0 < 64
                &&& self@[r@[k].0 as int] == Some(r@[k].1)
            },
            forall|k: int, l: int| 0 <= k < l < r@.len() ==> r@[k].0 < r@[l].0,
            forall|s: int| 0 <= s < 64 && self@[s] is Some ==> exists|k: int|
                0 <= k < r@.len() && r@[k].0 == s,
    {
        let mut r: Vec<(Square, Piece)> = Vec::new();
        let mut i: u8 = 0;
        while i < 64
            invariant
                self.wf(),
                i <= 64,
                forall|k: int| 0 <= k < r@.len() ==> {
                    &&& r@[k].0 < i
                    &&& self@[r@[k].0 as int] == Some(r@[k].1)
                },
                forall|k: int, l: int| 0 <= k < l < r@.len() ==> r@[k].0 < r@[l].0,
                forall|s: int| 0 <= s < i && self@[s] is Some ==> exists|k: int|
                    0 <= k < r@.len() && r@[k].0 == s,
            decreases 64 - i,
        {
            match self.squares[i as usize] {
                Some(p) => {
                    let ghost before = r@;
                    r.push((i, p));
                    assert forall|s: int| 0 <= s < i + 1 && self@[s] is Some implies exists|k: int|
                        0 <= k < r@.len() && r@[k].0 == s by {
                        if s < i {
                            let k = choose|k: int| 0 <= k < before.len() && before[k].0 == s;
                            assert(r@[k] == before[k]);
                        } else {
                            assert(r@[r@.len() - 1].0 == s);
                        }
                    }
                },
                None => {},
            }
            i = i + 1;
        }
        r
    }

    /// The occupied squares.
    pub fn occupied(&self) -> (r: Bitboard)
        requires
            self.wf(),
        ensures
            forall|s: int| r.has(s) <==> (0 <= s < 64 && self@[s] is Some),
    {
        let mut r = Bitboard::empty();
        let mut i: u8 = 0;
        while i < 64
            invariant
                self.wf(),
                i <= 64,
                forall|s: int| r.has(s) <==> (0 <= s < i && self@[s] is Some),
            decreases 64 - i,
        {
            if self.squares[i as usize].is_some() {
                r = r.with(i);
            }
            i = i + 1;
        }
        r
    }

    /// The squares that hold a piece of side `c`.
    pub fn by_color(&self, c: Color) -> (r: Bitboard)
        requires
            self.wf(),
        ensures
            forall|s: int| r.has(s) <==> (0 <= s < 64 && self@[s] is Some && self@[s]->Some_0.color == c),
    {
        let mut r = Bitboard::empty();
        let mut i: u8 = 0;
        while i < 64
            invariant
                self.wf(),
                i <= 64,
                forall|s: int| r.has(s) <==> (0 <= s < i && self@[s] is Some && self@[s]->Some_0.color == c),
            decreases 64 - i,
        {
            match self.squares[i as usize] {
                Some(p) => {
                    if p.color == c {
                        r = r.with(i);
                    }
                },
                None => {},
            }
            i = i + 1;
        }
        r
    }

    /// The squares that hold piece `p`.
    pub fn by_piece(&self, p: Piece) -> (r: Bitboard)
        requires
            self.wf(),
        ensures
            forall|s: int| r.has(s) <==> (0 <= s < 64 && self@[s] == Some(p)),
    {
        let mut r = Bitboard::empty();
        let mut i: u8 = 0;
        while i < 64
            invariant
                self.wf(),
                i <= 64,
                forall|s: int| r.has(s) <==> (0 <= s < i && self@[s] == Some(p)),
            decreases 64 - i,
        {
            if self.squares[i as usize] == Some(p) {
                r = r.with(i);
            }
            i = i + 1;
        }
        r
    }
}

/// The piece on square `s` of the standard starting position.
fn start_piece_at(s: u8) -> (r: Option<Piece>)
    requires
        s < 64,
    ensures
        r == start_piece(s as int),
{
    let f = s % 8;
    let rank = s / 8;
    if rank == 1 {
        Some(Piece { color: Color::White, role: Role::Pawn })
    } else if rank == 6 {
        Some(Piece { color: Color::Black, role: Role::Pawn })
    } else if rank == 0 || rank == 7 {
        let c = if rank == 0 { Color::White } else { Color::Black };
        let role = if f == 0 || f == 7 {
            Role::Rook
        } else if f == 1 || f == 6 {
            Role::Knight
        } else if f == 2 || f == 5 {
            Role::Bishop
        } else if f == 3 {
            Role::Queen
        } else {
            Role::King
        };
        Some(Piece { color: c, role: role })
    } else {
        None
    }
}

} // verus!
