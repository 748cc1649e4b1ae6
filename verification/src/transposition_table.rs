//! The transposition table: what the search found out about positions, kept
//! under their keys so that a position reached again is not searched again.
//! Each key has one slot, that of its remainder by the number of slots.

use vstd::prelude::*;
use crate::constants::{is_checkmate, mate_score};
use crate::move_data::MoveData;

verus! {

/// The number of bytes in a megabyte.
pub const MEGABYTE: usize = 1024 * 1024;

/// The number of bytes that a slot counts for when the table is sized.
pub const TT_ENTRY_SIZE: usize = 24;

/// What an entry's evaluation says of the true value of its position.
#[derive(Copy, Clone, Debug, PartialEq, Eq, Structural)]
pub enum EvalBound {
    /// The value is at most the evaluation.
    Alpha,
    /// The value is at least the evaluation.
    Beta,
    /// The value is the evaluation.
    Exact,
}

/// What the table keeps of a position.
#[derive(Copy, Clone, Debug)]
pub struct TTEntry {
    pub key: u64,
    pub best_move: MoveData,
    pub eval_bound: EvalBound,
    pub eval: i16,
    pub depth: u8,
}

/// The table: its size in megabytes, its slots, and the number of slots that
/// are filled.
pub struct TranspositionTable {
    pub mbs: usize,
    pub table: Vec<Option<TTEntry>>,
    pub entries: usize,
}

/// The number of slots of a table of the given size.
pub open spec fn slots_for(mbs: usize) -> int {
    mbs * MEGABYTE / TT_ENTRY_SIZE as int
}

/// The number of filled slots among the first `n`.
pub open spec fn filled(table: Seq<Option<TTEntry>>, n: nat) -> nat
    decreases n,
{
    if n == 0 {
        0
    } else {
        filled(table, (n - 1) as nat) + if table[n - 1] is Some {
            1nat
        } else {
            0nat
        }
    }
}

/// Putting an entry into a slot fills one more slot if the slot was empty.
pub proof fn lemma_filled_update(table: Seq<Option<TTEntry>>, i: int, entry: TTEntry, n: nat)
    requires
        0 <= i < table.len(),
        n <= table.len(),
    ensures
        filled(table, n) <= n,
        filled(table.update(i, Some(entry)), n) == filled(table, n) + if i < n && table[i] is None {
            1nat
        } else {
            0nat
        },
    decreases n,
{
    if n > 0 {
        lemma_filled_update(table, i, entry, (n - 1) as nat);
    }
}

/// A table of empty slots has no filled slot.
proof fn lemma_filled_empty(table: Seq<Option<TTEntry>>, n: nat)
    requires
        n <= table.len(),
        forall|i: int| 0 <= i < table.len() ==> table[i] is None,
    ensures
        filled(table, n) == 0,
    decreases n,
{
    if n > 0 {
        lemma_filled_empty(table, (n - 1) as nat);
    }
}

/// An evaluation as the table keeps it. A mate score found `ply` plies from
/// the root counts the plies from the root; the table keeps the distance from
/// the position itself, so `ply` is added to the size of the score (which
/// stays within ±32767). Any other evaluation is kept as it is.
pub open spec fn stored_eval(eval: i16, ply: u8) -> i16 {
    if !mate_score(eval) {
        eval
    } else if eval > 0 {
        if eval + ply > i16::MAX {
            i16::MAX
        } else {
            (eval + ply) as i16
        }
    } else {
        if eval - ply < -i16::MAX {
            (-i16::MAX) as i16
        } else {
            (eval - ply) as i16
        }
    }
}

/// An evaluation of the table as a position `ply` plies from the root reads
/// it: `ply` is taken from the size of a mate score again.
pub open spec fn probed_eval(eval: i16, ply: u8) -> i16 {
    if !mate_score(eval) {
        eval
    } else if eval > 0 {
        (eval - ply) as i16
    } else {
        (eval + ply) as i16
    }
}

/// Whether a slot keeps what it holds when a new entry comes: it holds an
/// entry of greater depth, or an exact one of the same depth while the new
/// one is only a bound.
pub open spec fn keeps(held: Option<TTEntry>, new_entry: TTEntry) -> bool {
    match held {
        None => false,
        Some(entry) => entry.depth > new_entry.depth || (entry.depth == new_entry.depth
            && entry.eval_bound == EvalBound::Exact && new_entry.eval_bound != EvalBound::Exact),
    }
}

/// What a probe with the given depth, ply and window makes of an entry's
/// evaluation: nothing if the entry is not deep enough; else the evaluation
/// itself if it is exact, the bound of the window that it proves if it is a
/// bound and proves one.
pub open spec fn usable_eval(entry: TTEntry, depth: u8, ply: u8, alpha: i16, beta: i16) -> Option<
    i16,
> {
    let eval = probed_eval(entry.eval, ply);
    if entry.depth < depth {
        None
    } else if entry.eval_bound == EvalBound::Exact {
        Some(eval)
    } else if entry.eval_bound == EvalBound::Beta && eval >= beta {
        Some(beta)
    } else if entry.eval_bound == EvalBound::Alpha && eval <= alpha {
        Some(alpha)
    } else {
        None
    }
}

impl View for TranspositionTable {
    type V = Seq<Option<TTEntry>>;

    open spec fn view(&self) -> Seq<Option<TTEntry>> {
        self.table@
    }
}

impl TranspositionTable {
    /// The count of entries is the number of filled slots.
    pub open spec fn wf(&self) -> bool {
        self.entries == filled(self@, self@.len())
    }

    /// Every evaluation in the table can be negated and is no bound of the
    /// widest window: it lies strictly between `-i16::MAX` and `i16::MAX`.
    pub open spec fn sane(&self) -> bool {
        forall|i: int|
            0 <= i < self@.len() ==> match #[trigger] self@[i] {
                Some(entry) => -i16::MAX < entry.eval < i16::MAX,
                None => true,
            }
    }

    /// The slot of a key.
    pub open spec fn slot(&self, key: u64) -> int {
        key as int % self@.len() as int
    }

    /// The entry of a key: what its slot holds, if that is an entry with this
    /// key.
    pub open spec fn entry_of(&self, key: u64) -> Option<TTEntry> {
        if self@.len() == 0 {
            None
        } else {
            match self@[self.slot(key)] {
                Some(entry) => if entry.key == key {
                    Some(entry)
                } else {
                    None
                },
                None => None,
            }
        }
    }

    /// The slots after an entry was stored: the slot of its key holds the
    /// entry, with its evaluation as the table keeps it, unless the slot keeps
    /// what it held; a table without slots stays as it is.
    pub open spec fn stored(&self, new_entry: TTEntry, ply: u8) -> Seq<Option<TTEntry>> {
        if self@.len() == 0 || keeps(self@[self.slot(new_entry.key)], new_entry) {
            self@
        } else {
            self@.update(
                self.slot(new_entry.key),
                Some(
                    TTEntry {
                        key: new_entry.key,
                        best_move: new_entry.best_move,
                        eval_bound: new_entry.eval_bound,
                        eval: stored_eval(new_entry.eval, ply),
                        depth: new_entry.depth,
                    },
                ),
            )
        }
    }

    /// The line of moves that the table suggests from a position on, up to
    /// `depth` moves of it, in coordinates with a space after each. The line
    /// goes on as long as the table has an entry for the position, the move
    /// of the entry selects a move of the position, and that move is legal.
    pub open spec fn line_from(&self, v: crate::position::BoardView, depth: nat) -> Seq<char>
        decreases depth,
    {
        if depth == 0 {
            Seq::empty()
        } else {
            match self.entry_of(v.key()) {
                None => Seq::empty(),
                Some(entry) => {
                    let text = crate::move_data::coordinates_of(entry.best_move);
                    if entry.best_move.from >= 64 || entry.best_move.to >= 64 {
                        Seq::empty()
                    } else {
                        match v.chosen_move(text) {
                            None => Seq::empty(),
                            Some(m) => if v.legal(m) {
                                text + seq![' '] + self.line_from(v.made(m), (depth - 1) as nat)
                            } else {
                                Seq::empty()
                            },
                        }
                    }
                },
            }
        }
    }

    /// An empty table of the given size in megabytes.
    pub fn new(mbs: usize) -> (table: Self)
        requires
            mbs * MEGABYTE <= usize::MAX,
        ensures
            table.wf(),
            table.sane(),
            table.mbs == mbs,
            table.entries == 0,
            table@.len() == slots_for(mbs),
            forall|i: int| 0 <= i < table@.len() ==> table@[i] is None,
    {
        let length = mbs * MEGABYTE / TT_ENTRY_SIZE;
        let empty: Option<TTEntry> = None;
        let table = Self { mbs, table: vec![empty; length], entries: 0 };
        proof {
            lemma_filled_empty(table@, table@.len());
        }
        table
    }

    /// Empties the table and gives it a new size.
    pub fn resize(&mut self, mbs: usize)
        requires
            mbs * MEGABYTE <= usize::MAX,
        ensures
            final(self).wf(),
            final(self).sane(),
            final(self).mbs == mbs,
            final(self).entries == 0,
            final(self)@.len() == slots_for(mbs),
            forall|i: int| 0 <= i < final(self)@.len() ==> final(self)@[i] is None,
    {
        let length = mbs * MEGABYTE / TT_ENTRY_SIZE;
        let empty: Option<TTEntry> = None;
        self.mbs = mbs;
        self.table = vec![empty; length];
        self.entries = 0;
        proof {
            lemma_filled_empty(self@, self@.len());
        }
    }

    /// The slot of a key: its remainder by the number of slots.
    pub fn get_index(&self, key: u64) -> (index: usize)
        requires
            self@.len() > 0,
        ensures
            index == self.slot(key),
            index < self@.len(),
    {
        (key % (self.table.len() as u64)) as usize
    }

    /// Puts an entry into the slot of its key, unless the slot keeps what it
    /// holds. The evaluation is kept as `stored_eval` gives it.
    pub fn store(&mut self, new_entry: TTEntry, ply: u8)
        requires
            old(self).wf(),
        ensures
            final(self).wf(),
            final(self).mbs == old(self).mbs,
            final(self)@.len() == old(self)@.len(),
            old(self).sane() && -i16::MAX < stored_eval(new_entry.eval, ply) < i16::MAX
                ==> final(self).sane(),
            final(self)@ == old(self).stored(new_entry, ply),
    {
        if self.table.len() == 0 {
            return;
        }
        let index = self.get_index(new_entry.key);
        let mut new_entry = new_entry;
        let mut fresh = false;
        match &self.table[index] {
            Some(entry) => {
                if entry.depth > new_entry.depth {
                    return;
                }
                if entry.depth == new_entry.depth && entry.eval_bound == EvalBound::Exact
                    && new_entry.eval_bound != EvalBound::Exact {
                    return;
                }
            },
            None => {
                fresh = true;
            },
        }
        if is_checkmate(new_entry.eval) {
            let adjusted: i32 = if new_entry.eval > 0 {
                new_entry.eval as i32 + ply as i32
            } else {
                new_entry.eval as i32 - ply as i32
            };
            new_entry.eval = if adjusted > i16::MAX as i32 {
                i16::MAX
            } else if adjusted < -(i16::MAX as i32) {
                -i16::MAX
            } else {
                adjusted as i16
            };
        }
        proof {
            lemma_filled_update(self@, index as int, new_entry, self@.len());
            lemma_filled_update(
                self@.update(index as int, Some(new_entry)),
                index as int,
                new_entry,
                self@.len(),
            );
        }
        if fresh {
            self.entries += 1;
        }
        self.table[index] = Some(new_entry);
    }

    /// The entry of a key, if the table has one.
    pub fn get(&self, key: u64) -> (entry: Option<TTEntry>)
        ensures
            entry == self.entry_of(key),
    {
        if self.table.len() == 0 {
            return None;
        }
        let index = self.get_index(key);
        match self.table[index] {
            Some(entry) => {
                if entry.key == key {
                    Some(entry)
                } else {
                    None
                }
            },
            None => None,
        }
    }

    /// What the table knows of a position: an evaluation that the search can
    /// use at once, if the entry is deep enough and settles the window, and
    /// the best move of the entry, which is given in any case.
    pub fn lookup(&self, key: u64, depth: u8, ply: u8, alpha: i16, beta: i16) -> (found: (
        Option<i16>,
        Option<MoveData>,
    ))
        ensures
            found == match self.entry_of(key) {
                Some(entry) => (usable_eval(entry, depth, ply, alpha, beta), Some(entry.best_move)),
                None => (None::<i16>, None::<MoveData>),
            },
    {
        match self.get(key) {
            Some(entry) => {
                let mut return_eval: Option<i16> = None;
                if entry.depth >= depth {
                    let mut eval = entry.eval;
                    if is_checkmate(eval) {
                        if eval > 0 {
                            eval = eval - ply as i16;
                        } else {
                            eval = eval + ply as i16;
                        }
                    }
                    if entry.eval_bound == EvalBound::Exact {
                        return_eval = Some(eval);
                    } else if entry.eval_bound == EvalBound::Beta {
                        if eval >= beta {
                            return_eval = Some(beta);
                        }
                    } else if eval <= alpha {
                        return_eval = Some(alpha);
                    }
                }
                (return_eval, Some(entry.best_move))
            },
            None => (None, None),
        }
    }
}

} // verus!
