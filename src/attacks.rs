use vstd::prelude::*;
use crate::types::{Color, Role, Piece, Square, file_of, rank_of, square_at, pawn_dir};
use crate::board::Board;
use crate::bitboard::Bitboard;

verus! {

/// Absolute value.
pub open spec fn abs(x: int) -> int {
    if x < 0 { -x } else { x }
}

/// Sign of `x`: -1, 0 or 1.
pub open spec fn sign(x: int) -> int {
    if x > 0 { 1 } else if x < 0 { -1 } else { 0 }
}

/// `x` moved `k` steps in the direction `s` (-1, 0 or 1).
pub open spec fn walk(x: int, s: int, k: int) -> int {
    if s > 0 { x + k } else if s < 0 { x - k } else { x }
}

/// The file step from `a` to `b`.
pub open spec fn file_delta(a: int, b: int) -> int {
    file_of(b) - file_of(a)
}

/// The rank step from `a` to `b`.
pub open spec fn rank_delta(a: int, b: int) -> int {
    rank_of(b) - rank_of(a)
}

/// `a` and `b` are distinct squares on one diagonal.
pub open spec fn diagonal(a: int, b: int) -> bool {
    abs(file_delta(a, b)) == abs(rank_delta(a, b)) && file_delta(a, b) != 0
}

/// `a` and `b` are distinct squares on one rank or one file.
pub open spec fn orthogonal(a: int, b: int) -> bool {
    (file_delta(a, b) == 0) != (rank_delta(a, b) == 0)
}

/// The number of king steps from `a` to `b` along their common line.
pub open spec fn distance(a: int, b: int) -> int {
    let df = abs(file_delta(a, b));
    let dr = abs(rank_delta(a, b));
    if df > dr { df } else { dr }
}

/// The square `k` steps from `a` towards `b`.
pub open spec fn ray_square(a: int, b: int, k: int) -> int {
    square_at(
        walk(file_of(a), sign(file_delta(a, b)), k),
        walk(rank_of(a), sign(rank_delta(a, b)), k),
    )
}

/// Every square strictly between `a` and `b` on their line is empty.
pub open spec fn path_clear(b: Seq<Option<Piece>>, from: int, to: int) -> bool {
    forall|k: int| 0 < k < distance(from, to) ==> (#[trigger] b[ray_square(from, to, k)]) is None
}

/// Whether piece `p` standing on `from` attacks `to` on board `b`. Sliders
/// stop at the first piece on their way, of either side.
pub open spec fn attacks(b: Seq<Option<Piece>>, from: int, p: Piece, to: int) -> bool {
    let df = file_delta(from, to);
    let dr = rank_delta(from, to);
    match p.role {
        Role::Pawn => dr == pawn_dir(p.color) && abs(df) == 1,
        Role::Knight => (abs(df) == 1 && abs(dr) == 2) || (abs(df) == 2 && abs(dr) == 1),
        Role::King => abs(df) <= 1 && abs(dr) <= 1 && !(df == 0 && dr == 0),
        Role::Bishop => diagonal(from, to) && path_clear(b, from, to),
        Role::Rook => orthogonal(from, to) && path_clear(b, from, to),
        Role::Queen => (diagonal(from, to) || orthogonal(from, to)) && path_clear(b, from, to),
    }
}

/// Some piece of side `c` attacks square `sq`.
pub open spec fn attacked_by(b: Seq<Option<Piece>>, sq: int, c: Color) -> bool {
    exists|from: int|
        0 <= from < 64 && (#[trigger] b[from]) is Some && b[from]->Some_0.color == c && attacks(
            b,
            from,
            b[from]->Some_0,
            sq,
        )
}

/// The king of side `c` stands on a square attacked by the other side.
pub open spec fn king_attacked(b: Seq<Option<Piece>>, c: Color) -> bool {
    exists|s: int|
        0 <= s < 64 && #[trigger] b[s] == Some(Piece { color: c, role: Role::King })
            && attacked_by(b, s, c.opp())
}

/// Whether `p` standing on `from` attacks `to`.
pub fn piece_attacks(b: &Board, from: Square, p: Piece, to: Square) -> (r: bool)
    requires
        b.wf(),
        from < 64,
        to < 64,
    ensures
        r == attacks(b@, from as int, p, to as int),
{
    let ff = (from % 8) as i16;
    let fr = (from / 8) as i16;
    let df = (to % 8) as i16 - ff;
    let dr = (to / 8) as i16 - fr;
    let adf = if df < 0 { -df } else { df };
    let adr = if dr < 0 { -dr } else { dr };
    match p.role {
        Role::Pawn => {
            let dir: i16 = match p.color {
                Color::White => 1,
                Color::Black => -1,
            };
            dr == dir && adf == 1
        },
        Role::Knight => (adf == 1 && adr == 2) || (adf == 2 && adr == 1),
        Role::King => adf <= 1 && adr <= 1 && !(df == 0 && dr == 0),
        Role::Bishop => adf == adr && df != 0 && clear_between(b, from, to),
        Role::Rook => (df == 0) != (dr == 0) && clear_between(b, from, to),
        Role::Queen => ((adf == adr && df != 0) || ((df == 0) != (dr == 0))) && clear_between(
            b,
            from,
            to,
        ),
    }
}

/// Whether every square strictly between two aligned squares is empty.
fn clear_between(b: &Board, from: Square, to: Square) -> (r: bool)
    requires
        b.wf(),
        from < 64,
        to < 64,
        diagonal(from as int, to as int) || orthogonal(from as int, to as int),
    ensures
        r == path_clear(b@, from as int, to as int),
{
    let ff = (from % 8) as i16;
    let fr = (from / 8) as i16;
    let df = (to % 8) as i16 - ff;
    let dr = (to / 8) as i16 - fr;
    let sf: i16 = if df > 0 { 1 } else if df < 0 { -1 } else { 0 };
    let sr: i16 = if dr > 0 { 1 } else if dr < 0 { -1 } else { 0 };
    let adf = if df < 0 { -df } else { df };
    let adr = if dr < 0 { -dr } else { dr };
    let n = if adf > adr { adf } else { adr };
    assert(n == distance(from as int, to as int));
    let mut k: i16 = 1;
    while k < n
        invariant
            b.wf(),
            1 <= k <= n || n == 0,
            n == distance(from as int, to as int),
            n <= 7,
            ff == file_of(from as int),
            fr == rank_of(from as int),
            df == file_delta(from as int, to as int),
            dr == rank_delta(from as int, to as int),
            0 <= ff < 8 && 0 <= fr < 8,
            0 <= ff + df < 8 && 0 <= fr + dr < 8,
            sf == sign(file_delta(from as int, to as int)),
            sr == sign(rank_delta(from as int, to as int)),
            diagonal(from as int, to as int) || orthogonal(from as int, to as int),
            forall|j: int| 0 < j < k ==> (#[trigger] b@[ray_square(from as int, to as int, j)]) is None,
        decreases n - k,
    {
        let f = if sf > 0 { ff + k } else if sf < 0 { ff - k } else { ff };
        let r = if sr > 0 { fr + k } else if sr < 0 { fr - k } else { fr };
        assert(0 <= f < 8 && 0 <= r < 8);
        let sq = (r * 8 + f) as u8;
        assert(sq as int == ray_square(from as int, to as int, k as int));
        if b.piece_at(sq).is_some() {
            return false;
        }
        k = k + 1;
    }
    true
}

/// Whether some piece of side `c` attacks `sq`.
pub fn is_attacked_by(b: &Board, sq: Square, c: Color) -> (r: bool)
    requires
        b.wf(),
        sq < 64,
    ensures
        r == attacked_by(b@, sq as int, c),
{
    let mut from: u8 = 0;
    while from < 64
        invariant
            b.wf(),
            sq < 64,
            from <= 64,
            forall|j: int|
                0 <= j < from ==> !((#[trigger] b@[j]) is Some && b@[j]->Some_0.color == c
                    && attacks(b@, j, b@[j]->Some_0, sq as int)),
        decreases 64 - from,
    {
        match b.piece_at(from) {
            Some(p) => {
                if p.color == c && piece_attacks(b, from, p, sq) {
                    return true;
                }
            },
            None => {},
        }
        from = from + 1;
    }
    false
}

/// Whether the king of side `c` stands attacked.
pub fn is_king_attacked(b: &Board, c: Color) -> (r: bool)
    requires
        b.wf(),
    ensures
        r == king_attacked(b@, c),
{
    let them = c.other();
    let mut s: u8 = 0;
    while s < 64
        invariant
            b.wf(),
            s <= 64,
            them == c.opp(),
            forall|j: int|
                0 <= j < s ==> !(#[trigger] b@[j] == Some(Piece { color: c, role: Role::King })
                    && attacked_by(b@, j, c.opp())),
        decreases 64 - s,
    {
        match b.piece_at(s) {
            Some(p) => {
                if p.color == c && p.role == Role::King && is_attacked_by(b, s, them) {
                    return true;
                }
            },
            None => {},
        }
        s = s + 1;
    }
    false
}

/// The squares that `p`, standing on `from`, attacks.
pub fn attack_set(b: &Board, from: Square, p: Piece) -> (r: Bitboard)
    requires
        b.wf(),
        from < 64,
    ensures
        forall|s: int| r.has(s) <==> (0 <= s < 64 && attacks(b@, from as int, p, s)),
{
    let mut r = Bitboard::empty();
    let mut to: u8 = 0;
    while to < 64
        invariant
            b.wf(),
            from < 64,
            to <= 64,
            forall|s: int| r.has(s) <==> (0 <= s < to && attacks(b@, from as int, p, s)),
        decreases 64 - to,
    {
        if piece_attacks(b, from, p, to) {
            r = r.with(to);
        }
        to = to + 1;
    }
    r
}

/// The squares of the pieces of side `c` that attack `sq`.
pub fn attackers(b: &Board, sq: Square, c: Color) -> (r: Bitboard)
    requires
        b.wf(),
        sq < 64,
    ensures
        forall|s: int| r.has(s) <==> (0 <= s < 64 && b@[s] is Some && b@[s]->Some_0.color == c
            && attacks(b@, s, b@[s]->Some_0, sq as int)),
{
    let mut r = Bitboard::empty();
    let mut from: u8 = 0;
    while from < 64
        invariant
            b.wf(),
            sq < 64,
            from <= 64,
            forall|s: int| r.has(s) <==> (0 <= s < from && b@[s] is Some && b@[s]->Some_0.color
                == c && attacks(b@, s, b@[s]->Some_0, sq as int)),
        decreases 64 - from,
    {
        match b.piece_at(from) {
            Some(p) => {
                if p.color == c && piece_attacks(b, from, p, sq) {
                    r = r.with(from);
                }
            },
            None => {},
        }
        from = from + 1;
    }
    r
}

} // verus!
