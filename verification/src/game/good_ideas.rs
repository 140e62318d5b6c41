use vstd::prelude::*;
use std::collections::VecDeque;
use crate::chess::cmove::Move;

verus! {

/// How many moves are kept for one depth of a search.
pub const GOOD_MOVE_COUNT: usize = 2;

/// What is kept of a queue of moves: all of it, or without its first move
/// where it has grown beyond what is kept.
pub open spec fn spec_kept(queue: Seq<Move>) -> Seq<Move> {
    if queue.len() > GOOD_MOVE_COUNT {
        queue.drop_first()
    } else {
        queue
    }
}

/// The moves that have cut a search short, for each depth of the search
/// the last two of them, the later one last.
pub struct GoodIdeas {
    queues: Vec<VecDeque<Move>>,
}

impl GoodIdeas {
    /// The moves that are kept, depth by depth.
    pub closed spec fn spec_ideas(&self) -> Seq<Seq<Move>> {
        Seq::new(self.queues.len() as nat, |d: int| self.queues[d]@)
    }

    /// Whether no depth keeps more moves than are to be kept.
    pub open spec fn spec_is_bounded(&self) -> bool {
        forall|d: int|
            0 <= d < self.spec_ideas().len() ==> (#[trigger] self.spec_ideas()[d]).len()
                <= GOOD_MOVE_COUNT
    }

    /// Nothing kept yet, for a search of the given depth and the two
    /// depths beyond it.
    pub fn new(max_depth: usize) -> (r: GoodIdeas)
        requires
            max_depth + 2 <= usize::MAX,
        ensures
            r.spec_ideas().len() == max_depth + 2,
            forall|d: int| 0 <= d < max_depth + 2 ==> (#[trigger] r.spec_ideas()[d]).len() == 0,
            r.spec_is_bounded(),
    {
        let mut queues: Vec<VecDeque<Move>> = Vec::new();
        let mut i: usize = 0;
        while i < max_depth + 2
            invariant
                0 <= i <= max_depth + 2 <= usize::MAX,
                queues.len() == i,
                forall|d: int| 0 <= d < i ==> (#[trigger] queues[d])@.len() == 0,
            decreases max_depth + 2 - i,
        {
            queues.push(VecDeque::new());
            i += 1;
        }
        GoodIdeas { queues }
    }

    /// The number of depths for which moves are kept.
    pub fn depths(&self) -> (r: usize)
        ensures
            r == self.spec_ideas().len(),
    {
        self.queues.len()
    }

    /// Whether a move is one of those kept for a depth.
    pub fn is_good_idea(&self, depth: usize, chess_move: &Move) -> (r: bool)
        requires
            depth < self.spec_ideas().len(),
        ensures
            r == self.spec_ideas()[depth as int].contains(*chess_move),
    {
        let queue = &self.queues[depth];
        let ghost kept = self.spec_ideas()[depth as int];
        assert(queue@ == kept);
        let mut k: usize = 0;
        while k < queue.len()
            invariant
                0 <= k <= queue@.len(),
                queue@ == kept,
                kept == self.spec_ideas()[depth as int],
                forall|j: int| 0 <= j < k ==> kept[j] != *chess_move,
            decreases queue@.len() - k,
        {
            if queue[k] == *chess_move {
                assert(kept[k as int] == *chess_move);
                return true;
            }
            k += 1;
        }
        false
    }

    /// Keeps a move for a depth, and lets go of the oldest move of that
    /// depth where more than two would be kept.
    pub fn remember(&mut self, depth: usize, chess_move: Move)
        requires
            depth < old(self).spec_ideas().len(),
        ensures
            final(self).spec_ideas() == old(self).spec_ideas().update(
                depth as int,
                spec_kept(old(self).spec_ideas()[depth as int].push(chess_move)),
            ),
            old(self).spec_is_bounded() ==> final(self).spec_is_bounded(),
    {
        let ghost before = self.queues@;
        self.queues[depth].push_back(chess_move);
        if self.queues[depth].len() > GOOD_MOVE_COUNT {
            self.queues[depth].pop_front();
        }
        proof {
            assert(self.queues@.len() == before.len());
            assert(self.queues[depth as int]@ =~= spec_kept(before[depth as int]@.push(chess_move)));
            assert(forall|d: int|
                0 <= d < before.len() && d != depth ==> self.queues[d] == before[d]);
            assert(self.spec_ideas() =~= old(self).spec_ideas().update(
                depth as int,
                spec_kept(old(self).spec_ideas()[depth as int].push(chess_move)),
            ));
        }
    }
}

} // verus!
