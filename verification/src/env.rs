//! Declarations, and the environment in which terms are checked.
use crate::ptr::{ExprPtr, LevelsPtr, NamePtr};
use crate::tree::Nm;
use indexmap::IndexMap;
use rustc_hash::FxBuildHasher;
use vstd::prelude::*;

verus! {

/// What every declaration has: its name, universe parameters and type.
#[derive(Clone, Copy)]
pub struct DeclarInfo {
    pub name: NamePtr,
    pub uparams: LevelsPtr,
    pub ty: ExprPtr,
}

/// An inductive type.
pub struct InductiveData {
    pub info: DeclarInfo,
    pub is_recursive: bool,
    pub num_params: u16,
    pub num_indices: u16,
    pub all_ctor_names: Vec<NamePtr>,
}

/// A constructor of an inductive type.
pub struct ConstructorData {
    pub info: DeclarInfo,
    pub inductive_name: NamePtr,
    pub num_params: u16,
    pub num_fields: u16,
}

/// What a recursor does on one constructor.
#[derive(Clone, Copy)]
pub struct RecRule {
    pub ctor_name: NamePtr,
    pub ctor_telescope_size_wo_params: u16,
    pub val: ExprPtr,
}

/// A recursor of inductive types.
pub struct RecursorData {
    pub info: DeclarInfo,
    pub all_inductives: Vec<NamePtr>,
    pub num_params: u16,
    pub num_indices: u16,
    pub num_motives: u16,
    pub num_minors: u16,
    pub rec_rules: Vec<RecRule>,
    pub is_k: bool,
}

impl RecursorData {
    /// The number of arguments in front of the indices.
    pub open spec fn num_fixed(self) -> nat {
        self.num_params as nat + self.num_motives as nat + self.num_minors as nat
    }

    /// The position of the major premise among the arguments.
    pub open spec fn major_pos(self) -> nat {
        self.num_fixed() + self.num_indices as nat
    }

    /// The number of arguments in front of the indices.
    pub fn fixed_args(&self) -> (r: usize)
        ensures
            r == self.num_fixed(),
    {
        self.num_params as usize + self.num_motives as usize + self.num_minors as usize
    }

    /// The position of the major premise among the arguments.
    pub fn major_idx(&self) -> (r: usize)
        ensures
            r == self.major_pos(),
    {
        self.fixed_args() + self.num_indices as usize
    }
}

/// A declaration.
pub enum Declar {
    Axiom { info: DeclarInfo },
    Quot { info: DeclarInfo },
    Theorem { info: DeclarInfo, val: ExprPtr },
    Definition { info: DeclarInfo, val: ExprPtr },
    Opaque { info: DeclarInfo, val: ExprPtr },
    Inductive(InductiveData),
    Constructor(ConstructorData),
    Recursor(RecursorData),
}

impl Declar {
    /// The name, universe parameters and type.
    pub open spec fn about(self) -> DeclarInfo {
        match self {
            Declar::Axiom { info } => info,
            Declar::Quot { info } => info,
            Declar::Theorem { info, .. } => info,
            Declar::Definition { info, .. } => info,
            Declar::Opaque { info, .. } => info,
            Declar::Inductive(d) => d.info,
            Declar::Constructor(d) => d.info,
            Declar::Recursor(d) => d.info,
        }
    }

    /// The name, universe parameters and type.
    pub fn info(&self) -> (r: DeclarInfo)
        ensures
            r == self.about(),
    {
        match self {
            Declar::Axiom { info } => *info,
            Declar::Quot { info } => *info,
            Declar::Theorem { info, .. } => *info,
            Declar::Definition { info, .. } => *info,
            Declar::Opaque { info, .. } => *info,
            Declar::Inductive(d) => d.info,
            Declar::Constructor(d) => d.info,
            Declar::Recursor(d) => d.info,
        }
    }

    /// The value that the declared constant unfolds to.
    pub open spec fn value(self) -> Option<ExprPtr> {
        match self {
            Declar::Theorem { val, .. } => Some(val),
            Declar::Definition { val, .. } => Some(val),
            _ => None,
        }
    }
}

/// The key of a name: where it is stored.
pub type NameKey = (usize, bool);

/// An `indexmap::IndexMap` is opaque here.
#[verifier::external_type_specification]
#[verifier::external_body]
#[verifier::reject_recursive_types(Key)]
#[verifier::reject_recursive_types(Item)]
#[verifier::reject_recursive_types(Hashing)]
pub struct ExIndexMap<Key, Item, Hashing>(IndexMap<Key, Item, Hashing>);

/// `rustc_hash::FxBuildHasher` is opaque here.
#[verifier::external_type_specification]
#[verifier::external_body]
pub struct ExFxBuildHasher(FxBuildHasher);

/// The keys of a map in the order in which they came in.
pub uninterp spec fn ordered_keys(m: IndexMap<(usize, bool), (), FxBuildHasher>) -> Seq<(usize, bool)>;

/// `IndexMap::with_hasher`: a map without keys.
#[verifier::external_body]
fn new_order() -> (m: IndexMap<(usize, bool), (), FxBuildHasher>)
    ensures
        ordered_keys(m).len() == 0,
{
    IndexMap::with_hasher(FxBuildHasher)
}

/// `IndexMap::get_index_of`: the position of the key, if it is there.
#[verifier::external_body]
fn order_index_of(m: &IndexMap<(usize, bool), (), FxBuildHasher>, k: (usize, bool)) -> (r: Option<usize>)
    ensures
        r matches Some(i) ==> i < ordered_keys(*m).len() && ordered_keys(*m)[i as int] == k,
        r is None ==> !ordered_keys(*m).contains(k),
{
    m.get_index_of(&k)
}

/// `IndexMap::insert`: a key that is new comes last.
#[verifier::external_body]
fn order_insert(m: &mut IndexMap<(usize, bool), (), FxBuildHasher>, k: (usize, bool))
    ensures
        !ordered_keys(*old(m)).contains(k) ==> ordered_keys(*final(m)) == ordered_keys(*old(m)).push(k),
        ordered_keys(*old(m)).contains(k) ==> ordered_keys(*final(m)) == ordered_keys(*old(m)),
{
    m.insert(k, ());
}

/// Declarations by name, in the order in which they came in.
pub struct DeclarMap {
    order: IndexMap<(usize, bool), (), FxBuildHasher>,
    items: Vec<Declar>,
}

/// Where the name of a declaration is stored.
pub open spec fn key_of(n: NamePtr) -> (usize, bool) {
    (n.idx, n.local)
}

impl DeclarMap {
    /// The declarations in order.
    pub closed spec fn declars(self) -> Seq<Declar> {
        self.items@
    }

    /// The keys are those of the declarations' names, and no name has two declarations.
    pub closed spec fn wf(self) -> bool {
        &&& ordered_keys(self.order).len() == self.items@.len()
        &&& forall|i: int|
            0 <= i < self.items@.len() ==> #[trigger] ordered_keys(self.order)[i] == key_of(
                self.items@[i].about().name,
            )
        &&& forall|i: int, j: int|
            0 <= i < j < self.items@.len() ==> #[trigger] ordered_keys(self.order)[i]
                != #[trigger] ordered_keys(self.order)[j]
    }

    /// Where a name is declared.
    pub open spec fn declares(self, i: int, n: NamePtr) -> bool {
        0 <= i < self.declars().len() && self.declars()[i].about().name.at(n)
    }

    /// No name has two declarations.
    pub proof fn declared_once(self, i: int, j: int, n: NamePtr)
        requires
            self.wf(),
            self.declares(i, n),
            self.declares(j, n),
        ensures
            i == j,
    {
        assert(ordered_keys(self.order)[i] == ordered_keys(self.order)[j]);
    }

    /// A map without declarations.
    pub fn new() -> (r: Self)
        ensures
            r.wf(),
            r.declars().len() == 0,
    {
        DeclarMap { order: new_order(), items: Vec::new() }
    }

    /// The number of declarations.
    pub fn len(&self) -> (r: usize)
        ensures
            r == self.declars().len(),
    {
        self.items.len()
    }

    /// The position of the declaration of a name.
    pub fn get_index_of(&self, n: &NamePtr) -> (r: Option<usize>)
        requires
            self.wf(),
        ensures
            r matches Some(i) ==> self.declares(i as int, *n),
            r is None ==> forall|i: int| !#[trigger] self.declares(i, *n),
    {
        let r = order_index_of(&self.order, (n.idx, n.local));
        proof {
            if r is None {
                assert forall|i: int| !#[trigger] self.declares(i, *n) by {
                    if self.declares(i, *n) {
                        assert(ordered_keys(self.order)[i] == key_of(*n));
                        assert(ordered_keys(self.order).contains(key_of(*n)));
                    }
                }
            }
        }
        r
    }

    /// The declaration at a position.
    pub fn get_index(&self, i: usize) -> (r: Option<&Declar>)
        ensures
            r is Some <==> i < self.declars().len(),
            r matches Some(d) ==> *d == self.declars()[i as int],
    {
        if i < self.items.len() {
            Some(&self.items[i])
        } else {
            None
        }
    }

    /// The declaration of a name.
    pub fn get(&self, n: &NamePtr) -> (r: Option<&Declar>)
        requires
            self.wf(),
        ensures
            r matches Some(d) ==> exists|i: int| #[trigger]
                self.declares(i, *n) && self.declars()[i] == *d,
            r is None ==> forall|i: int| !#[trigger] self.declares(i, *n),
    {
        match self.get_index_of(n) {
            Some(i) => {
                assert(self.declares(i as int, *n));
                Some(&self.items[i])
            },
            None => None,
        }
    }

    /// The name is declared.
    pub open spec fn declared(self, n: NamePtr) -> bool {
        exists|j: int| #[trigger] self.declares(j, n)
    }

    /// The names are declared.
    pub open spec fn all_declared(self, ns: Seq<NamePtr>) -> bool {
        forall|i: int| 0 <= i < ns.len() ==> self.declared(#[trigger] ns[i])
    }

    /// Whether the names are declared.
    pub fn declares_all(&self, names: &Vec<NamePtr>) -> (r: bool)
        requires
            self.wf(),
        ensures
            r == self.all_declared(names@),
    {
        let mut i: usize = 0;
        while i < names.len()
            invariant
                i <= names@.len(),
                self.wf(),
                forall|k: int| 0 <= k < i ==> self.declared(#[trigger] names@[k]),
            decreases names@.len() - i,
        {
            let n = names[i];
            match self.get_index_of(&n) {
                Some(j) => {
                    assert(self.declares(j as int, names@[i as int]));
                },
                None => {
                    assert(!self.declared(names@[i as int]));
                    return false;
                },
            }
            i = i + 1;
        }
        true
    }

    /// Adds a declaration of a name that has none. Gives whether it was added.
    pub fn insert(&mut self, d: Declar) -> (r: bool)
        requires
            old(self).wf(),
        ensures
            final(self).wf(),
            r <==> forall|i: int| !#[trigger] old(self).declares(i, d.about().name),
            r ==> final(self).declars() == old(self).declars().push(d),
            !r ==> final(self).declars() == old(self).declars(),
    {
        let name = d.info().name;
        match self.get_index_of(&name) {
            Some(i) => {
                assert(self.declares(i as int, name));
                false
            },
            None => {
                proof {
                    assert forall|i: int| 0 <= i < self.items@.len() implies #[trigger] ordered_keys(
                        self.order,
                    )[i] != key_of(name) by {
                        assert(!self.declares(i, name));
                    }
                }
                order_insert(&mut self.order, (name.idx, name.local));
                self.items.push(d);
                true
            },
        }
    }
}

/// How much of the shared declarations an environment shows.
#[derive(Clone, Copy)]
pub enum EnvLimit {
    /// All of them.
    Unlimited,
    /// Those in front of the declaration of a name.
    ByName(NamePtr),
}

/// The position of a name's declaration is `i`.
pub open spec fn tree_declared(ds: Seq<Declar>, n: Nm, i: int) -> bool {
    0 <= i < ds.len() && ds[i].about().name@ == n
}

/// The declarations by name.
pub open spec fn by_name(ds: Seq<Declar>) -> Map<Nm, Declar> {
    Map::new(
        |n: Nm| exists|i: int| tree_declared(ds, n, i),
        |n: Nm| ds[choose|i: int| tree_declared(ds, n, i)],
    )
}

/// An environment: shared declarations up to a cutoff, and an extension that is searched
/// first.
pub struct Env<'x> {
    pub declars: &'x DeclarMap,
    pub temp: Option<&'x DeclarMap>,
    pub cutoff: usize,
}

impl<'x> Env<'x> {
    /// How many of the shared declarations the limit leaves.
    pub open spec fn cut(declars: DeclarMap, limit: EnvLimit, cutoff: usize) -> bool {
        match limit {
            EnvLimit::Unlimited => cutoff == declars.declars().len(),
            EnvLimit::ByName(n) => {
                ||| declars.declares(cutoff as int, n)
                ||| cutoff == declars.declars().len() && forall|i: int|
                    !#[trigger] declars.declares(i, n)
            },
        }
    }

    /// The maps are well formed.
    pub open spec fn maps_ok(self) -> bool {
        &&& self.declars.wf()
        &&& self.cutoff <= self.declars.declars().len()
        &&& self.temp matches Some(t) ==> t.wf()
    }

    /// The shared declarations that are seen.
    pub open spec fn seen(self) -> Seq<Declar> {
        self.declars.declars().take(self.cutoff as int)
    }

    /// The declarations of the extension.
    pub open spec fn extra(self) -> Seq<Declar> {
        match self.temp {
            Some(t) => t.declars(),
            None => Seq::empty(),
        }
    }

    /// The declarations by name.
    pub open spec fn table(self) -> Map<Nm, Declar> {
        by_name(self.seen()).union_prefer_right(by_name(self.extra()))
    }

    /// The environment of the shared declarations.
    pub fn new(declars: &'x DeclarMap, limit: EnvLimit) -> (r: Self)
        requires
            declars.wf(),
        ensures
            r.declars == declars,
            r.temp is None,
            Env::cut(*declars, limit, r.cutoff),
            r.maps_ok(),
    {
        Env::new_w_temp_ext(declars, None, limit)
    }

    /// The environment of the shared declarations and an extension.
    pub fn new_w_temp_ext(
        declars: &'x DeclarMap,
        temp: Option<&'x DeclarMap>,
        limit: EnvLimit,
    ) -> (r: Self)
        requires
            declars.wf(),
            temp matches Some(t) ==> t.wf(),
        ensures
            r.declars == declars,
            r.temp == temp,
            Env::cut(*declars, limit, r.cutoff),
            r.maps_ok(),
    {
        let cutoff: usize = match limit {
            EnvLimit::Unlimited => declars.len(),
            EnvLimit::ByName(n) => match declars.get_index_of(&n) {
                Some(i) => i,
                None => declars.len(),
            },
        };
        Env { declars, temp, cutoff }
    }
}

} // verus!
