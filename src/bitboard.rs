use vstd::prelude::*;
use crate::types::Square;

verus! {

/// A set of squares, one bit per square: bit `i` is set exactly when square
/// `i` is a member.
#[derive(Clone, Copy, Debug, PartialEq, Eq, Hash, Structural)]
pub struct Bitboard(pub u64);

/// Bit `s` of `x` is set.
pub open spec fn bit_set(x: u64, s: u64) -> bool {
    (x >> s) & 1 == 1
}

impl Bitboard {
    /// Square `s` is a member.
    pub open spec fn has(self, s: int) -> bool {
        0 <= s < 64 && bit_set(self.0, s as u64)
    }

    /// The set has no member.
    pub open spec fn is_empty_spec(self) -> bool {
        forall|s: int| !self.has(s)
    }

    /// The number of members among the squares below `n`.
    pub open spec fn count_below(self, n: nat) -> nat
        decreases n,
    {
        if n == 0 {
            0
        } else {
            self.count_below((n - 1) as nat) + if self.has(n - 1) {
                1nat
            } else {
                0nat
            }
        }
    }

    /// The set with no square.
    pub fn empty() -> (r: Bitboard)
        ensures
            forall|s: int| !r.has(s),
    {
        assert forall|s: int| !Bitboard(0).has(s) by {
            if 0 <= s < 64 {
                let su = s as u64;
                assert((0u64 >> su) & 1 != 1) by (bit_vector);
            }
        }
        Bitboard(0)
    }

    /// The set holding square `sq` alone.
    pub fn from_square(sq: Square) -> (r: Bitboard)
        requires
            sq < 64,
        ensures
            forall|s: int| r.has(s) <==> s == sq,
    {
        let x: u64 = 1u64 << (sq as u64);
        assert forall|s: int| Bitboard(x).has(s) <==> s == sq by {
            if 0 <= s < 64 {
                let su = s as u64;
                let q = sq as u64;
                assert(((1u64 << q) >> su) & 1 == 1 <==> su == q) by (bit_vector)
                    requires
                        q < 64,
                        su < 64,
                ;
            }
        }
        Bitboard(x)
    }

    /// Whether `sq` is a member.
    pub fn contains(self, sq: Square) -> (r: bool)
        requires
            sq < 64,
        ensures
            r == self.has(sq as int),
    {
        (self.0 >> (sq as u64)) & 1 == 1
    }

    /// The set with `sq` added.
    pub fn with(self, sq: Square) -> (r: Bitboard)
        requires
            sq < 64,
        ensures
            forall|s: int| r.has(s) <==> (self.has(s) || s == sq),
    {
        let x = self.0 | (1u64 << (sq as u64));
        assert forall|s: int| Bitboard(x).has(s) <==> (self.has(s) || s == sq) by {
            if 0 <= s < 64 {
                let su = s as u64;
                let q = sq as u64;
                let a = self.0;
                assert(((a | (1u64 << q)) >> su) & 1 == 1 <==> ((a >> su) & 1 == 1 || su == q))
                    by (bit_vector)
                    requires
                        q < 64,
                        su < 64,
                ;
            }
        }
        Bitboard(x)
    }

    /// The set with `sq` taken out.
    pub fn without(self, sq: Square) -> (r: Bitboard)
        requires
            sq < 64,
        ensures
            forall|s: int| r.has(s) <==> (self.has(s) && s != sq),
    {
        let x = self.0 & !(1u64 << (sq as u64));
        assert forall|s: int| Bitboard(x).has(s) <==> (self.has(s) && s != sq) by {
            if 0 <= s < 64 {
                let su = s as u64;
                let q = sq as u64;
                let a = self.0;
                assert(((a & !(1u64 << q)) >> su) & 1 == 1 <==> ((a >> su) & 1 == 1 && su != q))
                    by (bit_vector)
                    requires
                        q < 64,
                        su < 64,
                ;
            }
        }
        Bitboard(x)
    }

    /// The squares in either set.
    pub fn union(self, o: Bitboard) -> (r: Bitboard)
        ensures
            forall|s: int| r.has(s) <==> (self.has(s) || o.has(s)),
    {
        let x = self.0 | o.0;
        assert forall|s: int| Bitboard(x).has(s) <==> (self.has(s) || o.has(s)) by {
            if 0 <= s < 64 {
                let su = s as u64;
                let (a, b) = (self.0, o.0);
                assert(((a | b) >> su) & 1 == 1 <==> ((a >> su) & 1 == 1 || (b >> su) & 1 == 1))
                    by (bit_vector);
            }
        }
        Bitboard(x)
    }

    /// The squares in both sets.
    pub fn intersect(self, o: Bitboard) -> (r: Bitboard)
        ensures
            forall|s: int| r.has(s) <==> (self.has(s) && o.has(s)),
    {
        let x = self.0 & o.0;
        assert forall|s: int| Bitboard(x).has(s) <==> (self.has(s) && o.has(s)) by {
            if 0 <= s < 64 {
                let su = s as u64;
                let (a, b) = (self.0, o.0);
                assert(((a & b) >> su) & 1 == 1 <==> ((a >> su) & 1 == 1 && (b >> su) & 1 == 1))
                    by (bit_vector);
            }
        }
        Bitboard(x)
    }

    /// The squares of this set that are not in `o`.
    pub fn difference(self, o: Bitboard) -> (r: Bitboard)
        ensures
            forall|s: int| r.has(s) <==> (self.has(s) && !o.has(s)),
    {
        let x = self.0 & !o.0;
        assert forall|s: int| Bitboard(x).has(s) <==> (self.has(s) && !o.has(s)) by {
            if 0 <= s < 64 {
                let su = s as u64;
                let (a, b) = (self.0, o.0);
                assert(((a & !b) >> su) & 1 == 1 <==> ((a >> su) & 1 == 1 && (b >> su) & 1 != 1))
                    by (bit_vector);
            }
        }
        Bitboard(x)
    }

    /// The lowest member, if any.
    pub fn first(self) -> (r: Option<Square>)
        ensures
            r is None <==> forall|s: int| !self.has(s),
            r matches Some(s) ==> (s < 64 && self.has(s as int) && forall|t: int|
                0 <= t < s ==> !self.has(t)),
    {
        let mut s: u8 = 0;
        while s < 64
            invariant
                s <= 64,
                forall|t: int| 0 <= t < s ==> !self.has(t),
            decreases 64 - s,
        {
            if self.contains(s) {
                return Some(s);
            }
            s = s + 1;
        }
        None
    }

    /// The highest member, if any.
    pub fn last(self) -> (r: Option<Square>)
        ensures
            r is None <==> forall|s: int| !self.has(s),
            r matches Some(s) ==> (s < 64 && self.has(s as int) && forall|t: int|
                s < t ==> !self.has(t)),
    {
        let mut s: u8 = 64;
        while s > 0
            invariant
                s <= 64,
                forall|t: int| s <= t ==> !self.has(t),
            decreases s,
        {
            if self.contains(s - 1) {
                return Some(s - 1);
            }
            s = s - 1;
        }
        None
    }

    /// Whether the set has no member.
    pub fn is_empty(self) -> (r: bool)
        ensures
            r == self.is_empty_spec(),
    {
        self.first().is_none()
    }

    /// The number of members.
    pub fn count(self) -> (r: u8)
        ensures
            r as nat == self.count_below(64),
    {
        let mut n: u8 = 0;
        let mut s: u8 = 0;
        while s < 64
            invariant
                s <= 64,
                n <= s,
                n as nat == self.count_below(s as nat),
            decreases 64 - s,
        {
            if self.contains(s) {
                n = n + 1;
            }
            s = s + 1;
        }
        n
    }
}

} // verus!
