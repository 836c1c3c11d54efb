//! The transposition table: search results memoized by position.
use vstd::prelude::*;

use std::collections::HashMap;

use crate::board::Board;

verus! {

/// The bound on every score the search computes or stores.
pub const SCORE_BOUND: i64 = 100_000_000_000;

/// A memoized search result: the depth it was searched to, its score, and
/// the best move found (a cell index).
#[derive(Clone, Copy, PartialEq, Eq, Debug, Structural)]
pub struct Entry {
    pub depth: i16,
    pub score: i64,
    pub best: u16,
}

impl Entry {
    pub open spec fn valid(&self) -> bool {
        -SCORE_BOUND <= self.score <= SCORE_BOUND && self.best < 81
    }
}

/// Search results keyed by the position alone: the active subboard and the
/// player to move are not part of the key, so two states that differ only in
/// those share an entry. Positions are grouped by the first player's cell
/// field; each group is a short list of distinct positions.
pub struct TranspositionTable {
    buckets: HashMap<u128, Vec<(Board, Entry)>>,
    contents: Ghost<Map<Board, Entry>>,
}

impl View for TranspositionTable {
    type V = Map<Board, Entry>;

    closed spec fn view(&self) -> Map<Board, Entry> {
        self.contents@
    }
}

impl TranspositionTable {
    closed spec fn inv(&self) -> bool {
        &&& forall|k: u128, i: int|
            #![trigger self.buckets@[k]@[i]]
            self.buckets@.contains_key(k) && 0 <= i < self.buckets@[k]@.len() ==> {
                let (b, e) = self.buckets@[k]@[i];
                &&& b.x_cells == k
                &&& self.contents@.contains_key(b)
                &&& self.contents@[b] == e
            }
        &&& forall|k: u128, i: int, j: int|
            #![trigger self.buckets@[k]@[i], self.buckets@[k]@[j]]
            self.buckets@.contains_key(k) && 0 <= i < j < self.buckets@[k]@.len()
                ==> self.buckets@[k]@[i].0 != self.buckets@[k]@[j].0
        &&& forall|b: Board|
            #[trigger] self.contents@.contains_key(b) ==> self.buckets@.contains_key(b.x_cells)
                && exists|i: int|
                0 <= i < self.buckets@[b.x_cells]@.len() && #[trigger] self.buckets@[b.x_cells]@[i].0
                    == b
    }

    /// The table is consistent and every stored entry is valid.
    pub closed spec fn wf(&self) -> bool {
        &&& self.inv()
        &&& forall|b: Board| #[trigger] self@.contains_key(b) ==> self@[b].valid()
    }

    /// An empty table.
    pub fn new() -> (r: TranspositionTable)
        ensures
            r.wf(),
            r@ == Map::<Board, Entry>::empty(),
    {
        TranspositionTable { buckets: HashMap::new(), contents: Ghost(Map::empty()) }
    }

    /// The entry stored for `board`, if any.
    pub fn get(&self, board: &Board) -> (r: Option<Entry>)
        requires
            self.wf(),
        ensures
            match r {
                Some(e) => self@.contains_key(*board) && self@[*board] == e && e.valid(),
                None => !self@.contains_key(*board),
            },
    {
        match self.buckets.get(&board.x_cells) {
            None => None,
            Some(bucket) => {
                let mut i: usize = 0;
                while i < bucket.len()
                    invariant
                        self.wf(),
                        self.buckets@.contains_key(board.x_cells),
                        *bucket == self.buckets@[board.x_cells],
                        i <= bucket@.len(),
                        forall|j: int| 0 <= j < i ==> #[trigger] bucket@[j].0 != *board,
                    decreases bucket@.len() - i,
                {
                    if bucket[i].0 == *board {
                        assert(bucket@[i as int] == self.buckets@[board.x_cells]@[i as int]);
                        return Some(bucket[i].1);
                    }
                    i += 1;
                }
                None
            },
        }
    }

    /// Stores `entry` for `board`, replacing any earlier entry.
    pub fn insert(&mut self, board: Board, entry: Entry)
        requires
            old(self).wf(),
            entry.valid(),
        ensures
            final(self).wf(),
            final(self)@ == old(self)@.insert(board, entry),
    {
        let key: u128 = board.x_cells;
        let ghost before = self.buckets@;
        let mut bucket: Vec<(Board, Entry)> = match self.buckets.remove(&key) {
            Some(v) => v,
            None => Vec::new(),
        };
        assert(before.contains_key(key) ==> bucket == before[key]);
        assert(!before.contains_key(key) ==> bucket@.len() == 0);
        let mut i: usize = 0;
        let mut found: bool = false;
        while !found && i < bucket.len()
            invariant
                i <= bucket@.len(),
                found ==> i < bucket@.len() && bucket@[i as int].0 == board,
                forall|j: int| 0 <= j < i && (!found || j < i) ==> #[trigger] bucket@[j].0 != board,
            decreases bucket@.len() - i + if found { 0int } else { 1 },
        {
            if bucket[i].0 == board {
                found = true;
            } else {
                i += 1;
            }
        }
        let ghost old_bucket = bucket@;
        let ghost old_contents = self.contents@;
        if found {
            bucket.set(i, (board, entry));
        } else {
            bucket.push((board, entry));
        }
        let ghost pos: int = if found { i as int } else { old_bucket.len() as int };
        let ghost nb = bucket@;
        assert(nb.len() >= old_bucket.len() && pos < nb.len());
        assert(nb[pos] == (board, entry));
        assert(forall|j: int| 0 <= j < nb.len() && j != pos ==> #[trigger] nb[j] == old_bucket[j]);
        assert(forall|j: int|
            0 <= j < nb.len() && j != pos ==> #[trigger] old_bucket[j].0 != board);
        self.buckets.insert(key, bucket);
        self.contents = Ghost(self.contents@.insert(board, entry));
        assert(self.buckets@[key]@ == nb);
        assert forall|k: u128, j: int|
            #![trigger self.buckets@[k]@[j]]
            self.buckets@.contains_key(k) && 0 <= j < self.buckets@[k]@.len() implies {
                let (b, e) = self.buckets@[k]@[j];
                &&& b.x_cells == k
                &&& self.contents@.contains_key(b)
                &&& self.contents@[b] == e
            } by {
            if k == key {
                if j != pos {
                    assert(before[key]@[j] == old_bucket[j]);
                }
            } else {
                assert(self.buckets@[k] == before[k]);
                assert(before[k]@[j] == self.buckets@[k]@[j]);
            }
        }
        assert forall|k: u128, a: int, c: int|
            #![trigger self.buckets@[k]@[a], self.buckets@[k]@[c]]
            self.buckets@.contains_key(k) && 0 <= a < c < self.buckets@[k]@.len() implies self.buckets@[k]@[a].0
                != self.buckets@[k]@[c].0 by {
            if k == key {
                if a != pos && c != pos {
                    assert(before[key]@[a] == old_bucket[a]);
                    assert(before[key]@[c] == old_bucket[c]);
                }
            } else {
                assert(self.buckets@[k] == before[k]);
                assert(before[k]@[a] == self.buckets@[k]@[a]);
                assert(before[k]@[c] == self.buckets@[k]@[c]);
            }
        }
        assert forall|b: Board| #[trigger] self.contents@.contains_key(b) implies self.buckets@.contains_key(
            b.x_cells,
        ) && exists|w: int|
            0 <= w < self.buckets@[b.x_cells]@.len() && #[trigger] self.buckets@[b.x_cells]@[w].0
                == b by {
            if b == board {
                assert(self.buckets@[key]@[pos].0 == b);
            } else if b.x_cells == key {
                assert(old_contents.contains_key(b));
                let w = choose|w: int| 0 <= w < before[key]@.len() && #[trigger] before[key]@[w].0 == b;
                assert(old_bucket[w].0 == b);
                assert(w != pos);
                assert(self.buckets@[key]@[w].0 == b);
            } else {
                assert(old_contents.contains_key(b));
                assert(self.buckets@[b.x_cells] == before[b.x_cells]);
                let w = choose|w: int|
                    0 <= w < before[b.x_cells]@.len() && #[trigger] before[b.x_cells]@[w].0 == b;
                assert(self.buckets@[b.x_cells]@[w].0 == b);
            }
        }
        assert(self.inv());
        assert forall|b: Board| #[trigger] self@.contains_key(b) implies self@[b].valid() by {
            if b != board {
                assert(old(self)@.contains_key(b));
            }
        }
    }
}

} // verus!
