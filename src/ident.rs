//! Identifiers tagged with the kind of entity they name, and their allocator.
use std::cmp::Ordering;
use std::marker::PhantomData;
use vstd::prelude::*;

verus! {

/// Tag for identifiers of players.
#[derive(Clone, Copy, Debug, PartialEq, Eq, PartialOrd, Ord, Hash, Default)]
pub struct PlayerKind;

/// Tag for identifiers of matches.
#[derive(Clone, Copy, Debug, PartialEq, Eq, PartialOrd, Ord, Hash, Default)]
pub struct MatchKind;

/// An identifier of an entity of kind `T`. Identifiers of different kinds
/// are different types, so they can never be compared or swapped, even
/// where their numbers coincide. Within a kind they are equal and ordered
/// as their numbers are.
#[derive(Debug, Hash, Ord)]
pub struct Ident<T> {
    ident: u32,
    phantom: PhantomData<T>,
}

impl<T> Clone for Ident<T> {
    fn clone(&self) -> Self {
        *self
    }
}

impl<T> Copy for Ident<T> {
}

impl<T> PartialEq for Ident<T> {
    fn eq(&self, other: &Ident<T>) -> (r: bool) {
        self.ident == other.ident
    }
}

impl<T> vstd::std_specs::cmp::PartialEqSpecImpl for Ident<T> {
    open spec fn obeys_eq_spec() -> bool {
        true
    }

    open spec fn eq_spec(&self, other: &Ident<T>) -> bool {
        self@ == other@
    }
}

impl<T> Eq for Ident<T> {
}

impl<T> PartialOrd for Ident<T> {
    fn partial_cmp(&self, other: &Ident<T>) -> (r: Option<Ordering>) {
        if self.ident < other.ident {
            Some(Ordering::Less)
        } else if self.ident == other.ident {
            Some(Ordering::Equal)
        } else {
            Some(Ordering::Greater)
        }
    }
}

impl<T> vstd::std_specs::cmp::PartialOrdSpecImpl for Ident<T> {
    open spec fn obeys_partial_cmp_spec() -> bool {
        true
    }

    open spec fn partial_cmp_spec(&self, other: &Ident<T>) -> Option<Ordering> {
        if self@ < other@ {
            Some(Ordering::Less)
        } else if self@ == other@ {
            Some(Ordering::Equal)
        } else {
            Some(Ordering::Greater)
        }
    }
}

impl<T> View for Ident<T> {
    type V = u32;

    /// The number underneath.
    closed spec fn view(&self) -> u32 {
        self.ident
    }
}

impl<T> Ident<T> {
    /// The number underneath.
    pub fn value(&self) -> (r: u32)
        ensures
            r == self@,
    {
        self.ident
    }

    /// Whether both name the same entity.
    pub fn same(&self, other: &Ident<T>) -> (r: bool)
        ensures
            r == (self@ == other@),
    {
        self.ident == other.ident
    }
}

/// Hands out identifiers of kind `T`: 0 first, then each one 1 more than the
/// one before. Taking `&mut self` keeps callers from drawing concurrently
/// without a lock.
pub struct IdentGenerator<T> {
    next_ident: u32,
    phantom: PhantomData<T>,
}

impl<T> View for IdentGenerator<T> {
    type V = nat;

    /// How many identifiers were handed out; they are exactly the numbers below it.
    closed spec fn view(&self) -> nat {
        self.next_ident as nat
    }
}

impl<T> IdentGenerator<T> {
    /// A generator that has handed out nothing yet.
    pub fn new() -> (r: Self)
        ensures
            r@ == 0,
    {
        IdentGenerator { next_ident: 0, phantom: PhantomData }
    }

    /// Whether another identifier can be handed out: one fewer than 2^32 can.
    pub open spec fn can_issue(&self) -> bool {
        self@ < u32::MAX
    }

    /// How many identifiers were handed out.
    pub fn issued(&self) -> (r: u32)
        ensures
            r as nat == self@,
    {
        self.next_ident
    }

    /// The next identifier: greater than every one handed out before, so
    /// never one of them.
    pub fn next_ident(&mut self) -> (r: Ident<T>)
        requires
            old(self).can_issue(),
        ensures
            r@ == old(self)@,
            final(self)@ == old(self)@ + 1,
    {
        let ident = self.next_ident;
        self.next_ident = self.next_ident + 1;
        Ident { ident, phantom: PhantomData }
    }
}

} // verus!
