use vstd::prelude::*;
use crate::types::Move;
use crate::setup::State;
use crate::rules::{apply, legal_moves_of, lemma_legal_moves_len};
use crate::position::Chess;

verus! {

/// The number of legal move sequences of length `depth` from `p`. Shorter
/// sequences, cut off by mate or stalemate, are not counted.
pub open spec fn perft_count(p: State, depth: nat) -> nat
    decreases depth, 0nat,
{
    if depth == 0 {
        1
    } else {
        children_count(p, legal_moves_of(p), (depth - 1) as nat)
    }
}

/// The sum, over the moves `ms` from `p`, of the count of sequences of
/// length `d` after each.
pub open spec fn children_count(p: State, ms: Seq<Move>, d: nat) -> nat
    decreases d, ms.len(),
{
    if ms.len() == 0 {
        0
    } else {
        children_count(p, ms.drop_last(), d) + perft_count(apply(p, ms.last()), d)
    }
}

proof fn lemma_children_prefix(p: State, ms: Seq<Move>, d: nat, i: int)
    requires
        0 <= i <= ms.len(),
    ensures
        children_count(p, ms.take(i), d) <= children_count(p, ms, d),
    decreases ms.len(),
{
    if i == ms.len() {
        assert(ms.take(i) =~= ms);
    } else {
        lemma_children_prefix(p, ms.drop_last(), d, i);
        assert(ms.drop_last().take(i) =~= ms.take(i));
    }
}

proof fn lemma_children_of_leaves(p: State, ms: Seq<Move>)
    ensures
        children_count(p, ms, 0) == ms.len(),
    decreases ms.len(),
{
    if ms.len() > 0 {
        lemma_children_of_leaves(p, ms.drop_last());
        assert(perft_count(apply(p, ms.last()), 0) == 1);
    }
}

/// The number of move sequences of length `depth` when every position has
/// the largest possible number of legal moves.
pub open spec fn perft_cap(depth: nat) -> nat
    decreases depth,
{
    if depth == 0 {
        1
    } else {
        28672 * perft_cap((depth - 1) as nat)
    }
}

/// The count of legal move sequences of length `depth` never exceeds
/// `perft_cap(depth)`.
pub proof fn lemma_perft_bound(p: State, depth: nat)
    ensures
        perft_count(p, depth) <= perft_cap(depth),
    decreases depth, 0nat,
{
    if depth > 0 {
        let ms = legal_moves_of(p);
        let d = (depth - 1) as nat;
        lemma_children_bound(p, ms, d);
        lemma_legal_moves_len(p);
        let c = perft_cap(d);
        assert(ms.len() * c <= 28672 * c) by (nonlinear_arith)
            requires
                ms.len() <= 28672,
        ;
    }
}

proof fn lemma_children_bound(p: State, ms: Seq<Move>, d: nat)
    ensures
        children_count(p, ms, d) <= ms.len() * perft_cap(d),
    decreases d, ms.len(),
{
    if ms.len() > 0 {
        lemma_children_bound(p, ms.drop_last(), d);
        lemma_perft_bound(apply(p, ms.last()), d);
        let c = perft_cap(d);
        let n = ms.len();
        assert((n - 1) * c + c == n * c) by (nonlinear_arith);
    }
}

/// Up to four plies, perft counts always fit in a `u64`, so `perft` may be
/// called on any position with such a depth.
pub proof fn lemma_perft_fits(p: State, depth: nat)
    requires
        depth <= 4,
    ensures
        perft_count(p, depth) <= u64::MAX,
{
    lemma_perft_bound(p, depth);
    reveal_with_fuel(perft_cap, 5);
    assert(perft_cap(depth) <= perft_cap(4)) by {
        if depth < 4 {
            assert(perft_cap(depth) <= 28672 * 28672 * 28672);
        }
    }
}

/// Counts the legal move sequences of length `depth` from `pos`, by walking
/// the whole tree of legal moves.
pub fn perft(pos: &Chess, depth: u32) -> (r: u64)
    requires
        pos.wf(),
        perft_count(pos@, depth as nat) <= u64::MAX,
    ensures
        r == perft_count(pos@, depth as nat),
    decreases depth,
{
    if depth < 1 {
        1
    } else {
        let ghost p = pos@;
        let moves = pos.legal_moves();
        let ghost d = (depth - 1) as nat;
        if depth == 1 {
            proof {
                lemma_children_of_leaves(p, moves@);
            }
            moves.len() as u64
        } else {
            let mut sum: u64 = 0;
            let mut i: usize = 0;
            while i < moves.len()
                invariant
                    pos.wf(),
                    p == pos@,
                    depth >= 2,
                    d == depth - 1,
                    moves@ == legal_moves_of(p),
                    forall|m: Move| #[trigger] moves@.contains(m) <==> crate::rules::legal(p, m),
                    children_count(p, moves@, d) <= u64::MAX,
                    i <= moves@.len(),
                    sum == children_count(p, moves@.take(i as int), d),
                decreases moves@.len() - i,
            {
                let m = moves[i];
                assert(moves@.contains(m));
                let mut child = pos.clone();
                child.play_unchecked(&m);
                proof {
                    lemma_children_prefix(p, moves@, d, i + 1);
                    assert(moves@.take(i + 1).drop_last() =~= moves@.take(i as int));
                }
                let c = perft(&child, depth - 1);
                sum = sum + c;
                i = i + 1;
            }
            assert(moves@.take(moves@.len() as int) =~= moves@);
            sum
        }
    }
}

} // verus!
