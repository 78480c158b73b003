//! The stack of saved poses.
//!
//! The library does not say what a pose is: it saves and restores whole
//! values of the type `T` that the caller draws with.

use vstd::prelude::*;
use std::collections::VecDeque;

verus! {

/// Saved poses, last in, first out.
pub struct TurtleTransformStack<T> {
    transforms: VecDeque<T>,
}

impl<T> View for TurtleTransformStack<T> {
    type V = Seq<T>;

    /// The saved poses, the oldest first.
    closed spec fn view(&self) -> Seq<T> {
        self.transforms@
    }
}

impl<T> TurtleTransformStack<T> {
    /// A stack without poses.
    pub fn new() -> (r: Self)
        ensures
            r@ == Seq::<T>::empty(),
    {
        Self { transforms: VecDeque::new() }
    }

    /// Saves `transform` on top.
    pub fn push(&mut self, transform: T)
        ensures
            final(self)@ == old(self)@.push(transform),
    {
        self.transforms.push_back(transform);
    }

    /// Takes the pose on top off the stack; `None` where the stack is empty.
    pub fn pop(&mut self) -> (r: Option<T>)
        ensures
            match r {
                Some(transform) => {
                    &&& old(self)@.len() > 0
                    &&& transform == old(self)@.last()
                    &&& final(self)@ == old(self)@.drop_last()
                },
                None => old(self)@.len() == 0 && final(self)@ == old(self)@,
            },
    {
        let r = self.transforms.pop_back();
        assert(old(self)@.subrange(0, old(self)@.len() as int - 1) =~= old(self)@.drop_last()
            || old(self)@.len() == 0);
        r
    }

    /// Whether no pose is saved.
    pub fn is_empty(&self) -> (r: bool)
        ensures
            r == (self@.len() == 0),
    {
        self.transforms.len() == 0
    }
}

} // verus!
