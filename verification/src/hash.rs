//! Hashing of machine words, and the table that finds interned nodes by their hash.
use hashbrown::HashTable;
use rustc_hash::FxHasher;
use std::hash::Hasher;
use vstd::prelude::*;

verus! {

/// `rustc_hash::FxHasher`, whose state is opaque here.
#[verifier::external_type_specification]
#[verifier::external_body]
pub struct ExFxHasher(FxHasher);

/// The words that were written into a hasher so far, in order.
pub uninterp spec fn fx_written(h: FxHasher) -> Seq<u64>;

/// The hash of a sequence of words on a machine with pointers of the given width.
pub uninterp spec fn fx_digest(pointer_bits: u32, words: Seq<u64>) -> u64;

/// `FxHasher::default`: a hasher that nothing was written into.
#[verifier::external_body]
fn fx_new() -> (h: FxHasher)
    ensures
        fx_written(h) == Seq::<u64>::empty(),
{
    FxHasher::default()
}

/// `FxHasher::write_u64` appends one word.
#[verifier::external_body]
fn fx_write(h: &mut FxHasher, w: u64)
    ensures
        fx_written(*final(h)) == fx_written(*old(h)).push(w),
{
    h.write_u64(w)
}

/// `FxHasher::finish`. The hasher holds one pointer-sized word and has no seed, so the
/// hash depends on the words written and on the width of a pointer alone.
#[verifier::external_body]
fn fx_finish(h: &FxHasher) -> (r: u64)
    ensures
        r == fx_digest(usize::BITS, fx_written(*h)),
{
    h.finish()
}

/// The hash of a sequence of words on this machine.
pub open spec fn fx_hash_of(words: Seq<u64>) -> u64 {
    fx_digest(usize::BITS, words)
}

/// Hashes a sequence of words.
pub fn fx_hash(words: &Vec<u64>) -> (r: u64)
    ensures
        r == fx_hash_of(words@),
{
    let mut h = fx_new();
    let mut i: usize = 0;
    while i < words.len()
        invariant
            i <= words@.len(),
            fx_written(h) == words@.take(i as int),
        decreases words@.len() - i,
    {
        fx_write(&mut h, words[i]);
        assert(words@.take(i as int).push(words@[i as int]) =~= words@.take(i + 1));
        i = i + 1;
    }
    assert(words@.take(i as int) =~= words@);
    fx_finish(&h)
}

/// A `hashbrown::HashTable` of node indices.
#[verifier::external_body]
pub struct Table {
    inner: HashTable<usize>,
}

/// The indices that a table holds, each with the hash under which it was put there.
pub uninterp spec fn table_entries(t: Table) -> Map<usize, u64>;

impl Table {
    /// `HashTable::new`: an empty table.
    #[verifier::external_body]
    pub(crate) fn new() -> (t: Self)
        ensures
            table_entries(t).dom() == Set::<usize>::empty(),
    {
        Table { inner: HashTable::new() }
    }

    /// `HashTable::find` hands out an entry that `eq` accepts. It asks `eq` about every
    /// entry that was put in under the given hash, and perhaps about others.
    #[verifier::external_body]
    pub(crate) fn find(&self, hash: u64, eq: impl Fn(&usize) -> bool) -> (r: Option<usize>)
        requires
            forall|i: usize|
                table_entries(*self).contains_key(i) ==> #[trigger] call_requires(eq, (&i,)),
        ensures
            r matches Some(i) ==> table_entries(*self).contains_key(i) && call_ensures(
                eq,
                (&i,),
                true,
            ),
            r is None ==> forall|i: usize| #[trigger]
                table_entries(*self).contains_key(i) && table_entries(*self)[i] == hash
                    ==> call_ensures(eq, (&i,), false),
    {
        self.inner.find(hash, eq).copied()
    }

    /// `HashTable::insert_unique` adds an entry. When the table grows it asks `hasher` for
    /// the hashes of the entries it holds, which have to be those they were put in under.
    #[verifier::external_body]
    pub(crate) fn insert(&mut self, hash: u64, value: usize, hasher: impl Fn(&usize) -> u64)
        requires
            !table_entries(*old(self)).contains_key(value),
            forall|i: usize|
                table_entries(*old(self)).contains_key(i) || i == value ==> #[trigger] call_requires(
                    hasher,
                    (&i,),
                ),
            forall|i: usize, h: u64|
                table_entries(*old(self)).contains_key(i) && #[trigger] call_ensures(
                    hasher,
                    (&i,),
                    h,
                ) ==> h == table_entries(*old(self))[i],
            forall|h: u64| #[trigger] call_ensures(hasher, (&value,), h) ==> h == hash,
        ensures
            table_entries(*final(self)) == table_entries(*old(self)).insert(value, hash),
    {
        self.inner.insert_unique(hash, value, hasher);
    }
}

/// What an interner asks of the nodes it stores.
pub trait Node: Sized {
    /// Two nodes are alike: their constructors agree, and so do the pointers they hold.
    spec fn like(&self, other: &Self) -> bool;

    /// The hash under which the node is stored.
    spec fn digest(&self) -> u64;

    /// Alike nodes are stored under one hash.
    proof fn digest_of_like(&self, other: &Self)
        requires
            self.like(other),
        ensures
            self.digest() == other.digest(),
    ;

    /// Whether two nodes are alike.
    fn is_like(&self, other: &Self) -> (r: bool)
        ensures
            r == self.like(other),
    ;

    /// The hash under which the node is stored.
    fn struct_hash(&self) -> (r: u64)
        ensures
            r == self.digest(),
    ;
}

/// Nodes stored once each, found again by their hash.
pub struct Interner<T> {
    pub nodes: Vec<T>,
    pub table: Table,
}

impl<T: Node> Interner<T> {
    /// The table holds exactly the indices of the nodes, under the nodes' hashes.
    pub open spec fn wf(&self) -> bool {
        &&& forall|i: usize| #[trigger]
            table_entries(self.table).contains_key(i) <==> i < self.nodes@.len()
        &&& forall|i: usize|
            i < self.nodes@.len() ==> #[trigger] table_entries(self.table)[i]
                == self.nodes@[i as int].digest()
    }

    /// An interner without nodes.
    pub fn new() -> (r: Self)
        ensures
            r.wf(),
            r.nodes@ == Seq::<T>::empty(),
    {
        Interner { nodes: Vec::new(), table: Table::new() }
    }

    /// The number of nodes.
    pub fn len(&self) -> (r: usize)
        ensures
            r == self.nodes@.len(),
    {
        self.nodes.len()
    }

    /// The index of a node like the given one.
    pub fn get(&self, v: &T) -> (r: Option<usize>)
        requires
            self.wf(),
        ensures
            r matches Some(i) ==> i < self.nodes@.len() && self.nodes@[i as int].like(v),
            r is None ==> forall|i: int|
                0 <= i < self.nodes@.len() ==> !(#[trigger] self.nodes@[i]).like(v),
    {
        let nodes = &self.nodes;
        let n: usize = nodes.len();
        let eq = |i: &usize| -> (b: bool)
            requires
                *i < nodes@.len(),
            ensures
                b == nodes@[*i as int].like(v),
            { nodes[*i].is_like(v) };
        let r = self.table.find(v.struct_hash(), eq);
        proof {
            if r is None {
                assert forall|i: int| 0 <= i < self.nodes@.len() implies !(
                #[trigger] self.nodes@[i]).like(v) by {
                    if self.nodes@[i].like(v) {
                        self.nodes@[i].digest_of_like(v);
                        assert(i < n && table_entries(self.table).contains_key(i as usize));
                    }
                }
            }
        }
        r
    }

    /// Stores a node and gives its index.
    pub fn insert(&mut self, v: T) -> (r: usize)
        requires
            old(self).wf(),
        ensures
            final(self).wf(),
            r == old(self).nodes@.len(),
            final(self).nodes@ == old(self).nodes@.push(v),
    {
        let hash = v.struct_hash();
        let idx = self.nodes.len();
        self.nodes.push(v);
        let nodes = &self.nodes;
        let hasher = |i: &usize| -> (h: u64)
            requires
                *i < nodes@.len(),
            ensures
                h == nodes@[*i as int].digest(),
            { nodes[*i].struct_hash() };
        self.table.insert(hash, idx, hasher);
        idx
    }

    /// The index of a node like the given one, which is stored where there is none yet.
    pub fn intern(&mut self, v: T) -> (r: usize)
        requires
            old(self).wf(),
        ensures
            final(self).wf(),
            r < final(self).nodes@.len(),
            final(self).nodes@[r as int].like(&v) || final(self).nodes@[r as int] == v,
            (exists|i: int| 0 <= i < old(self).nodes@.len() && (#[trigger] old(self).nodes@[i]).like(&v))
                ==> final(self).nodes@ == old(self).nodes@,
            (forall|i: int|
                0 <= i < old(self).nodes@.len() ==> !(#[trigger] old(self).nodes@[i]).like(&v))
                ==> final(self).nodes@ == old(self).nodes@.push(v) && r == old(self).nodes@.len(),
    {
        match self.get(&v) {
            Some(i) => i,
            None => self.insert(v),
        }
    }
}

} // verus!
