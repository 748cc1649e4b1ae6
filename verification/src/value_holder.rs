//! An undo stack that keeps its storage: `pop` moves a cursor back and leaves
//! the vector as long as it was, so that pushing again allocates nothing.

use vstd::prelude::*;

verus! {

/// A stack of values with a cursor on its top.
#[derive(Clone)]
pub struct ValueHolder<T: Copy> {
    pub index: usize,
    pub history: Vec<T>,
}

impl<T: Copy> View for ValueHolder<T> {
    type V = Seq<T>;

    /// The values on the stack, oldest first. What lies in the vector behind
    /// the cursor is not part of it.
    open spec fn view(&self) -> Seq<T> {
        self.history@.subrange(0, self.index + 1)
    }
}

impl<T: Copy> ValueHolder<T> {
    /// The cursor points into the vector.
    pub open spec fn wf(&self) -> bool {
        self.index < self.history@.len()
    }

    /// A stack with one value on it.
    pub fn new(initial_value: T) -> (holder: Self)
        ensures
            holder.wf(),
            holder@ == seq![initial_value],
    {
        let mut history: Vec<T> = Vec::new();
        history.push(initial_value);
        let holder = Self { index: 0, history };
        assert(holder@ =~= seq![initial_value]);
        holder
    }

    /// The value on top of the stack.
    pub fn peek(&self) -> (value: T)
        requires
            self.wf(),
        ensures
            value == self@.last(),
    {
        self.history[self.index]
    }

    /// The value on top of the stack, to be changed in place.
    pub fn peek_mut(&mut self) -> (value: &mut T)
        requires
            old(self).wf(),
        ensures
            *value == old(self)@.last(),
            final(self).wf(),
            final(self)@ == old(self)@.drop_last().push(*final(value)),
    {
        let ghost before = self@;
        let ghost index = self.index;
        let slot = &mut self.history[self.index];
        proof {
            assert(before.drop_last().push(*final(slot)) =~= after_borrow(self.history)@.subrange(
                0,
                index + 1,
            ));
        }
        slot
    }

    /// Whether only the initial value is on the stack.
    pub fn is_empty(&self) -> (empty: bool)
        ensures
            empty == (self.index == 0),
            self.wf() ==> empty == (self@.len() == 1),
    {
        self.index == 0
    }

    /// The number of values on the stack, the initial one included.
    pub fn len(&self) -> (len: usize)
        requires
            self.wf(),
        ensures
            len == self@.len(),
    {
        let stored: usize = self.history.len();
        assert(self.index < stored);
        self.index + 1
    }

    /// Puts a value on the stack.
    pub fn push(&mut self, value: T)
        requires
            old(self).wf(),
        ensures
            final(self).wf(),
            final(self)@ == old(self)@.push(value),
            final(self).index == old(self).index + 1,
            final(self).history@ == if old(self).index + 1 == old(self).history@.len() {
                old(self).history@.push(value)
            } else {
                old(self).history@.update(old(self).index + 1, value)
            },
    {
        if self.index == self.history.len() - 1 {
            self.history.push(value);
        } else {
            self.history[self.index + 1] = value;
        }
        self.index += 1;
        assert(self@ =~= old(self)@.push(value));
    }

    /// Takes the top value off the stack; the value below it must be there.
    /// Only the cursor moves: the vector keeps all that it held, so that the
    /// next push finds its place ready.
    pub fn pop(&mut self)
        requires
            old(self).wf(),
            old(self)@.len() > 1,
        ensures
            final(self).wf(),
            final(self)@ == old(self)@.drop_last(),
            final(self).index == old(self).index - 1,
            final(self).history@ == old(self).history@,
    {
        self.index -= 1;
        assert(self@ =~= old(self)@.drop_last());
    }
}

} // verus!
