use vstd::prelude::*;

use crate::model::init_model;
use crate::types::{Error, Stack, Token, TokenKind};
use crate::ShuntingYard;

verus! {

impl<T> Stack for Vec<T> {
    type Item = T;

    open spec fn contents(&self) -> Seq<T> {
        self@
    }

    open spec fn never_full(&self) -> bool {
        true
    }

    fn push(&mut self, value: T) -> (r: Result<(), Error>) {
        self.push(value);
        Ok(())
    }

    fn pop(&mut self) -> (r: Option<T>) {
        self.pop()
    }
}

/// A fixed-capacity stack: pushes beyond the capacity chosen at
/// construction fail with `Error::StorageFull`, so a conversion can run
/// against a storage bound and report running out of room.
pub struct BoundedStack<T> {
    items: Vec<T>,
    capacity: usize,
}

impl<T> BoundedStack<T> {
    /// How many items this stack accepts at most.
    pub closed spec fn capacity_spec(&self) -> usize {
        self.capacity
    }

    /// An empty stack that accepts at most `capacity` items.
    pub fn with_capacity(capacity: usize) -> (s: Self)
        ensures
            s.contents() == Seq::<T>::empty(),
            s.capacity_spec() == capacity,
    {
        BoundedStack { items: Vec::new(), capacity }
    }

    /// Hand the held items over, bottom of the stack first.
    pub fn into_items(self) -> (items: Vec<T>)
        ensures
            items@ == self.contents(),
    {
        self.items
    }
}

impl<T> Stack for BoundedStack<T> {
    type Item = T;

    closed spec fn contents(&self) -> Seq<T> {
        self.items@
    }

    closed spec fn never_full(&self) -> bool {
        false
    }

    fn push(&mut self, value: T) -> (r: Result<(), Error>)
        ensures
            r is Ok <==> old(self).contents().len() < old(self).capacity_spec(),
            final(self).capacity_spec() == old(self).capacity_spec(),
    {
        if self.items.len() < self.capacity {
            self.items.push(value);
            Ok(())
        } else {
            Err(Error::StorageFull)
        }
    }

    fn pop(&mut self) -> (r: Option<T>)
        ensures
            final(self).capacity_spec() == old(self).capacity_spec(),
    {
        self.items.pop()
    }
}

/// A token that is nothing but its classification together with a
/// caller-chosen tag, with which a caller can tie each token in the
/// output back to an item of its input.
#[derive(Copy, Clone, Debug, PartialEq, Eq, Structural)]
pub struct TaggedToken {
    /// The classification of this token.
    pub kind: TokenKind,
    /// A tag of the caller's choosing; the engine never reads it.
    pub tag: usize,
}

impl Token for TaggedToken {
    open spec fn kind_spec(&self) -> TokenKind {
        self.kind
    }

    fn kind(&self) -> (k: TokenKind) {
        self.kind
    }
}

impl<T: Token> ShuntingYard<Vec<T>, Vec<T>, Vec<usize>> {
    /// A converter over freshly allocated, growable stacks: its pushes
    /// never fail, so no conversion of it reports `Error::StorageFull`.
    pub fn new() -> (yard: Self)
        ensures
            yard.model() == init_model(
                Seq::<T>::empty(),
                Seq::<T>::empty(),
                Seq::<usize>::empty(),
            ),
            yard.unbounded_storage(),
    {
        ShuntingYard::new_with_storage(Vec::new(), Vec::new(), Vec::new())
    }
}

impl<T: Token> Default for ShuntingYard<Vec<T>, Vec<T>, Vec<usize>> {
    /// The same converter as `new`.
    fn default() -> (yard: Self)
        ensures
            yard.model() == init_model(
                Seq::<T>::empty(),
                Seq::<T>::empty(),
                Seq::<usize>::empty(),
            ),
            yard.unbounded_storage(),
    {
        ShuntingYard::new()
    }
}

} // verus!
