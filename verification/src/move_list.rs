//! The list of moves of one position, each with a score by which the search
//! orders them.

use vstd::prelude::*;
use crate::move_data::MoveData;

verus! {

/// A list of moves with their scores.
pub struct MoveList {
    pub moves: Vec<(MoveData, i16)>,
}

impl View for MoveList {
    type V = Seq<(MoveData, i16)>;

    open spec fn view(&self) -> Seq<(MoveData, i16)> {
        self.moves@
    }
}

/// The index of the first entry with the highest score among those from
/// `from` on, found by looking at the entries below `upto`.
pub open spec fn first_best(list: Seq<(MoveData, i16)>, from: int, upto: int) -> int
    decreases upto - from,
{
    if upto <= from + 1 {
        from
    } else {
        let before = first_best(list, from, upto - 1);
        if list[upto - 1].1 > list[before].1 {
            upto - 1
        } else {
            before
        }
    }
}

/// The first best entry is as good as every entry looked at, and better than
/// those before it.
pub proof fn lemma_first_best(list: Seq<(MoveData, i16)>, from: int, upto: int)
    requires
        0 <= from < upto <= list.len(),
    ensures
        from <= first_best(list, from, upto) < upto,
        forall|j: int|
            from <= j < upto ==> (#[trigger] list[j]).1 <= list[first_best(list, from, upto)].1,
        forall|j: int|
            from <= j < first_best(list, from, upto) ==> (#[trigger] list[j]).1 < list[first_best(
                list,
                from,
                upto,
            )].1,
    decreases upto - from,
{
    if upto > from + 1 {
        lemma_first_best(list, from, upto - 1);
    }
}

/// The list after the selection for slot `i` has looked at the entries below
/// `upto`: each entry with a score above that of the entry in slot `i` has
/// changed places with it.
pub open spec fn selected(list: Seq<(MoveData, i16)>, i: int, upto: int) -> Seq<(MoveData, i16)>
    decreases upto - i,
{
    if upto <= i + 1 {
        list
    } else {
        let before = selected(list, i, upto - 1);
        if before[upto - 1].1 > before[i].1 {
            before.update(i, before[upto - 1]).update(upto - 1, before[i])
        } else {
            before
        }
    }
}

impl MoveList {
    /// An empty list.
    pub fn new() -> (list: Self)
        ensures
            list@ == Seq::<(MoveData, i16)>::empty(),
    {
        Self { moves: Vec::new() }
    }

    /// The number of moves in the list.
    pub fn len(&self) -> (len: usize)
        ensures
            len == self@.len(),
    {
        self.moves.len()
    }

    /// Appends a move with score 0.
    pub fn push(&mut self, value: MoveData)
        ensures
            final(self)@ == old(self)@.push((value, 0i16)),
    {
        self.moves.push((value, 0));
    }

    /// Takes the last move off the list, if there is one.
    pub fn pop(&mut self) -> (last: Option<(MoveData, i16)>)
        ensures
            old(self)@.len() == 0 ==> last.is_none() && final(self)@ == old(self)@,
            old(self)@.len() > 0
                ==> last == Some(old(self)@.last()) && final(self)@ == old(self)@.drop_last(),
    {
        self.moves.pop()
    }

    /// One step of a selection sort: brings the best of the moves from `i` on
    /// to slot `i` and returns it. Of several moves with the best score the
    /// first is chosen. The slots before `i` are left alone, and the list holds
    /// the same entries as before, those behind slot `i` in the places that
    /// `selected` gives them.
    pub fn next(&mut self, i: usize) -> (best: MoveData)
        requires
            i < old(self)@.len(),
        ensures
            final(self)@ == selected(old(self)@, i as int, old(self)@.len() as int),
            i <= first_best(old(self)@, i as int, old(self)@.len() as int) < old(self)@.len(),
            final(self)@.len() == old(self)@.len(),
            final(self)@.to_multiset() == old(self)@.to_multiset(),
            forall|j: int| 0 <= j < i ==> final(self)@[j] == old(self)@[j],
            final(self)@[i as int] == old(self)@[first_best(
                old(self)@,
                i as int,
                old(self)@.len() as int,
            )],
            best == final(self)@[i as int].0,
            forall|j: int|
                0 <= j < final(self)@.len() ==> old(self)@.contains(#[trigger] final(self)@[j]),
            forall|j: int|
                i <= j < final(self)@.len()
                    ==> (#[trigger] final(self)@[j]).1 <= final(self)@[i as int].1,
    {
        let n = self.moves.len();
        let mut j: usize = i + 1;
        while j < n
            invariant
                i < j <= n,
                n == self@.len(),
                n == old(self)@.len(),
                self@ == selected(old(self)@, i as int, j as int),
                self@.to_multiset() == old(self)@.to_multiset(),
                i <= first_best(old(self)@, i as int, j as int) < j,
                forall|k: int| 0 <= k < i ==> self@[k] == old(self)@[k],
                forall|k: int| j <= k < n ==> self@[k] == old(self)@[k],
                self@[i as int] == old(self)@[first_best(old(self)@, i as int, j as int)],
                forall|k: int| i <= k < j ==> (#[trigger] self@[k]).1 <= self@[i as int].1,
                forall|k: int| 0 <= k < n ==> old(self)@.contains(#[trigger] self@[k]),
            decreases n - j,
        {
            let candidate = self.moves[j];
            let held = self.moves[i];
            if candidate.1 > held.1 {
                let ghost before = self@;
                self.moves[i] = candidate;
                self.moves[j] = held;
                proof {
                    let mid = before.update(i as int, candidate);
                    vstd::seq_lib::to_multiset_update(before, i as int, candidate);
                    vstd::seq_lib::to_multiset_update(mid, j as int, held);
                    assert(self@ =~= mid.update(j as int, held));
                    assert(mid[j as int] == candidate);
                    let bag = before.to_multiset();
                    before.to_multiset_ensures();
                    assert(before[i as int] == held);
                    assert(before[j as int] == candidate);
                    assert(bag.count(held) > 0);
                    assert(bag.count(candidate) > 0);
                    assert(self@.to_multiset() == bag.insert(candidate).remove(held).insert(
                        held,
                    ).remove(candidate));
                    assert(bag.insert(candidate).remove(held).insert(held).remove(candidate)
                        =~= bag);
                }
            }
            j += 1;
        }
        self.moves[i].0
    }
}

} // verus!
