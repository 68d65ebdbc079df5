//! The tally: which choice of a proposal has won.

use vstd::prelude::*;
use crate::state::Proposal;
use crate::uint256::Uint256;

verus! {

/// `choice` wins among `counters`: no counter exceeds its own, and every
/// counter before it is strictly smaller. So the greatest accumulated power
/// wins, and among choices that tie for it the one of lowest index.
pub open spec fn is_winner(counters: Seq<nat>, choice: int) -> bool {
    &&& 0 <= choice < counters.len()
    &&& forall|j: int| 0 <= j < counters.len() ==> counters[j] <= counters[choice]
    &&& forall|j: int| 0 <= j < choice ==> counters[j] < counters[choice]
}

/// There is at most one winner.
pub proof fn lemma_winner_unique(counters: Seq<nat>, a: int, b: int)
    requires
        is_winner(counters, a),
        is_winner(counters, b),
    ensures
        a == b,
{
    if a < b {
        assert(counters[a] < counters[b]);
        assert(counters[b] <= counters[a]);
    } else if b < a {
        assert(counters[b] < counters[a]);
        assert(counters[a] <= counters[b]);
    }
}

/// A winner that is alone at the top has strictly more power than every
/// other choice.
pub proof fn lemma_winner_strict(counters: Seq<nat>, choice: int)
    requires
        is_winner(counters, choice),
        forall|j: int| 0 <= j < counters.len() && j != choice ==> counters[j] != counters[choice],
    ensures
        forall|j: int| 0 <= j < counters.len() && j != choice ==> counters[j] < counters[choice],
{
}

/// The winning choice of `proposal` and the power it has accumulated. The
/// counters are scanned from the first to the last, and a choice takes the
/// lead only by strictly more power than the leader so far.
pub fn tally(proposal: &Proposal) -> (winner: (u8, Uint256))
    ensures
        is_winner(proposal@.counters, winner.0 as int),
        winner.1@ == proposal@.counters[winner.0 as int],
{
    let mut win_idx: u8 = 0;
    let mut win_c = Uint256::zero();
    let mut idx: u8 = 0;
    while idx < 4
        invariant
            idx <= 4,
            win_idx < 4,
            idx == 0 ==> win_idx == 0 && win_c@ == 0,
            idx > 0 ==> win_idx < idx && win_c@ == proposal@.counters[win_idx as int],
            forall|j: int| 0 <= j < idx ==> proposal@.counters[j] <= win_c@,
            forall|j: int| 0 <= j < win_idx ==> proposal@.counters[j] < win_c@,
        decreases 4 - idx,
    {
        let c = proposal.counters[idx as usize];
        if c.gt(&win_c) {
            win_c = c;
            win_idx = idx;
        }
        idx += 1;
    }
    (win_idx, win_c)
}

} // verus!
