//! Pointers to interned nodes. A pointer is the index of a node in the shared store or in
//! the store of one checking session, and carries, for proofs only, the tree it stands for.
use crate::tree::{Lv, Nm, Tm};
use vstd::prelude::*;

verus! {

/// The word that a pointer contributes to a hash.
pub open spec fn ptr_word(idx: usize, local: bool) -> u64 {
    ((2 * idx + if local {
        1int
    } else {
        0int
    }) % 0x1_0000_0000_0000_0000) as u64
}

/// Pointers whose indices fit lead to one place if their words are the same.
pub proof fn word_unique(i: usize, a: bool, j: usize, b: bool)
    requires
        i < 0x8000_0000_0000_0000,
        j < 0x8000_0000_0000_0000,
        ptr_word(i, a) == ptr_word(j, b),
    ensures
        i == j && a == b,
{
}

fn make_word(idx: usize, local: bool) -> (r: u64)
    ensures
        r == ptr_word(idx, local),
{
    let w: u128 = 2 * (idx as u128) + if local {
        1u128
    } else {
        0u128
    };
    (w % 0x1_0000_0000_0000_0000u128) as u64
}

/// A pointer to an interned node.
pub struct Ptr<T> {
    pub idx: usize,
    pub local: bool,
    pub tree: Ghost<T>,
}

impl<T> Clone for Ptr<T> {
    fn clone(&self) -> (r: Self)
        ensures
            r == *self,
    {
        *self
    }
}

impl<T> Copy for Ptr<T> {

}

impl<T> View for Ptr<T> {
    type V = T;

    open spec fn view(&self) -> T {
        self.tree@
    }
}

impl<T> Ptr<T> {
    /// The two pointers lead to one place.
    pub open spec fn at(self, other: Self) -> bool {
        self.idx == other.idx && self.local == other.local
    }

    /// The word that the pointer contributes to a hash.
    pub open spec fn word(self) -> u64 {
        ptr_word(self.idx, self.local)
    }

    /// A pointer into the shared store.
    pub fn global(idx: usize, Ghost(tree): Ghost<T>) -> (r: Self)
        ensures
            r.idx == idx,
            !r.local,
            r@ == tree,
    {
        Ptr { idx, local: false, tree: Ghost(tree) }
    }

    /// A pointer into the store of the session.
    pub fn local(idx: usize, Ghost(tree): Ghost<T>) -> (r: Self)
        ensures
            r.idx == idx,
            r.local,
            r@ == tree,
    {
        Ptr { idx, local: true, tree: Ghost(tree) }
    }

    /// Whether the node is in the store of the session.
    pub fn is_local(self) -> (r: bool)
        ensures
            r == self.local,
    {
        self.local
    }

    /// The word that the pointer contributes to a hash.
    pub fn get_hash(&self) -> (r: u64)
        ensures
            r == self.word(),
    {
        make_word(self.idx, self.local)
    }

    /// Whether the two pointers lead to one place.
    pub fn is_at(self, other: Self) -> (r: bool)
        ensures
            r == self.at(other),
    {
        self.idx == other.idx && self.local == other.local
    }
}

/// A pointer to a string.
pub type StringPtr = Ptr<Seq<char>>;

/// A pointer to a name.
pub type NamePtr = Ptr<Nm>;

/// A pointer to a universe level.
pub type LevelPtr = Ptr<Lv>;

/// A pointer to a term.
pub type ExprPtr = Ptr<Tm>;

/// A pointer to a natural number.
pub type BigUintPtr = Ptr<nat>;

/// A pointer to a list of universe levels.
pub struct LevelsPtr {
    pub idx: usize,
    pub local: bool,
    pub tree: Ghost<Seq<Lv>>,
}

impl Clone for LevelsPtr {
    fn clone(&self) -> (r: Self)
        ensures
            r == *self,
    {
        *self
    }
}

impl Copy for LevelsPtr {

}

impl View for LevelsPtr {
    type V = Seq<Lv>;

    open spec fn view(&self) -> Seq<Lv> {
        self.tree@
    }
}

impl LevelsPtr {
    /// The two pointers lead to one place.
    pub open spec fn at(self, other: Self) -> bool {
        self.idx == other.idx && self.local == other.local
    }

    /// The word that the pointer contributes to a hash.
    pub open spec fn word(self) -> u64 {
        ptr_word(self.idx, self.local)
    }

    /// A pointer into the shared store.
    pub fn global(idx: usize, Ghost(tree): Ghost<Seq<Lv>>) -> (r: Self)
        ensures
            r.idx == idx,
            !r.local,
            r@ == tree,
    {
        LevelsPtr { idx, local: false, tree: Ghost(tree) }
    }

    /// A pointer into the store of the session.
    pub fn local(idx: usize, Ghost(tree): Ghost<Seq<Lv>>) -> (r: Self)
        ensures
            r.idx == idx,
            r.local,
            r@ == tree,
    {
        LevelsPtr { idx, local: true, tree: Ghost(tree) }
    }

    /// Whether the list is in the store of the session.
    pub fn is_local(self) -> (r: bool)
        ensures
            r == self.local,
    {
        self.local
    }

    /// The word that the pointer contributes to a hash.
    pub fn get_hash(&self) -> (r: u64)
        ensures
            r == self.word(),
    {
        make_word(self.idx, self.local)
    }

    /// Whether the two pointers lead to one place.
    pub fn is_at(self, other: Self) -> (r: bool)
        ensures
            r == self.at(other),
    {
        self.idx == other.idx && self.local == other.local
    }
}

} // verus!
