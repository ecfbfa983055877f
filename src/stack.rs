use vstd::prelude::*;

verus! {

/// A last-in, first-out stack; its top is the last element of its view.
#[derive(Debug)]
pub struct Stack<T> {
    items: Vec<T>,
}

impl<T> View for Stack<T> {
    type V = Seq<T>;

    closed spec fn view(&self) -> Seq<T> {
        self.items@
    }
}

impl<T> Stack<T> {
    pub fn new() -> (r: Self)
        ensures
            r@ == Seq::<T>::empty(),
    {
        Stack { items: Vec::new() }
    }

    /// The number of elements.
    pub fn len(&self) -> (r: usize)
        ensures
            r == self@.len(),
    {
        self.items.len()
    }

    /// The top element; the stack must not be empty.
    pub fn peek(&self) -> (r: &T)
        requires
            self@.len() > 0,
        ensures
            *r == self@.last(),
    {
        &self.items[self.items.len() - 1]
    }

    pub fn push(&mut self, item: T)
        ensures
            final(self)@ == old(self)@.push(item),
    {
        self.items.push(item)
    }

    /// Removes and returns the top element; the stack must not be empty.
    pub fn pop(&mut self) -> (r: T)
        requires
            old(self)@.len() > 0,
        ensures
            r == old(self)@.last(),
            final(self)@ == old(self)@.drop_last(),
    {
        match self.items.pop() {
            Some(item) => item,
            None => {
                proof {
                    assert(false);
                }
                vstd::pervasive::unreached()
            },
        }
    }

    /// Removes the top `N` elements and returns them deepest first, so that
    /// the last one returned is the one pushed last. The stack must hold at
    /// least `N` elements.
    pub fn pop_several<const N: usize>(&mut self) -> (r: Vec<T>)
        requires
            old(self)@.len() >= N,
        ensures
            r@ == old(self)@.subrange(old(self)@.len() - N, old(self)@.len() as int),
            final(self)@ == old(self)@.subrange(0, old(self)@.len() - N),
    {
        let at = self.items.len() - N;
        self.items.split_off(at)
    }

    /// Like `pop_several`, but on a stack of fewer than `N` elements it
    /// returns `None` and leaves the stack as it was: nothing is popped.
    pub fn try_pop_several<const N: usize>(&mut self) -> (r: Option<Vec<T>>)
        ensures
            match r {
                Some(top) => old(self)@.len() >= N && top@ == old(self)@.subrange(
                    old(self)@.len() - N,
                    old(self)@.len() as int,
                ) && final(self)@ == old(self)@.subrange(0, old(self)@.len() - N),
                None => old(self)@.len() < N && final(self)@ == old(self)@,
            },
    {
        if self.items.len() < N {
            None
        } else {
            Some(self.pop_several::<N>())
        }
    }
}

} // verus!
