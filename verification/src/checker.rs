//! The type checker's state: the context, the environment and what it remembers.
use crate::cache::Cache;
use crate::ctx::TcCtx;
use crate::env::{
    by_name, tree_declared, ConstructorData, Declar, DeclarInfo, DeclarMap, Env, InductiveData,
    RecursorData,
};
use crate::judge::{core_head, is_named, op_named, outline, quot_pos, unfolds, Ck, Theory};
use crate::laws::{deq, deq_refl, deq_symm, deq_trans, inf, red};
use crate::ptr::{ExprPtr, LevelsPtr, NamePtr};
use crate::steps::{core_says, inside_says, type_says, whnf_says};
use crate::tree::{head, Nm, Tm};
use crate::union_find::UnionFind;
use crate::value::{Vals, E, S};
use crate::vcache::ValCache;
use vstd::prelude::*;

verus! {

/// Why checking stops without an answer.
#[derive(Debug, Clone, Copy, PartialEq, Eq, Structural)]
pub enum Stop {
    /// The steps that were allowed are used up.
    OutOfFuel,
    /// More binders are open, or nested, than can be counted.
    TooManyBinders,
    /// More is done to a value than can be counted.
    SpineTooLong,
    /// A free variable occurs that belongs to a binder that is not open.
    /// A bound variable occurs outside its binder.
    LooseVariable,
    /// An operation on numbers would give one that is too large.
    NumberTooLarge,
    /// A constant is not declared.
    UnknownConst,
    /// A term that should be a universe is none.
    NotASort,
    /// A term that should be a function type is none.
    NotAPi,
    /// Terms that should be equal by definition are not, as far as was found.
    NotEqual,
    /// A universe level refers to a parameter that is not declared.
    UndefinedUniverse,
    /// There are no literals, or their type is not known.
    NoLiterals,
    /// A universe or a function type is applied, or a structure has too few fields.
    IllTyped,
    /// What is projected from is no structure.
    NotAStructure,
    /// Data would be projected from a proposition.
    DataFromProp,
    /// A declaration names a universe parameter twice, or has something else for one.
    BadUniverses,
    /// A declaration's type has free variables.
    FreeVariables,
    /// The type of a theorem is no proposition.
    TheoremNotProp,
    /// The inductive type that a declaration belongs to is not declared.
    NoInductive,
}

/// How much a type inference checks.
#[derive(Debug, Clone, Copy, PartialEq, Eq, Structural)]
pub enum InferFlag {
    InferOnly,
    Check,
}

/// Terms with the constant at their head can be reduced.
pub open spec fn acts(th: Theory, n: Nm) -> bool {
    ||| th.is_quot(n) && quot_pos(th.names, n) is Some
    ||| th.recursor(n) is Some
    ||| op_named(th.names, n) is Some
    ||| is_named(th.names.nat_succ, n)
    ||| th.decls.contains_key(n) && th.decls[n].value() is Some
}

/// The form of the term alone shows that it is reduced: it is a function, a function type or
/// a literal, or a variable or a constant that does not reduce is at its head.
pub open spec fn inert(th: Theory, e: Tm) -> bool {
    match head(e) {
        Tm::Lam(_, _, _, _) | Tm::Pi(_, _, _, _) | Tm::NatLit(_) | Tm::StrLit(_) => !(e is App),
        Tm::Local(_, _, _, _) => true,
        Tm::Const(n, _) => !acts(th, n),
        _ => false,
    }
}

/// What whole reduction establishes.
pub open spec fn reduced(th: Theory, a: Tm, b: Tm) -> bool {
    &&& red(th, a, b)
    &&& core_head(b)
    &&& !unfolds(th, b)
    &&& inert(th, a) ==> b == a
    &&& whnf_says(th, a, b)
}

/// What reduction without unfolding establishes.
pub open spec fn reduced_core(th: Theory, a: Tm, b: Tm) -> bool {
    &&& red(th, a, b)
    &&& core_head(b)
    &&& inert(th, a) ==> b == a
    &&& core_says(th, a, b)
}

/// What the checker remembers about terms.
pub struct TcCache {
    pub infer_cache_check: Cache<ExprPtr, ExprPtr>,
    pub infer_cache_no_check: Cache<ExprPtr, ExprPtr>,
    pub whnf_cache: Cache<ExprPtr, ExprPtr>,
    pub whnf_no_unfolding_cache: Cache<ExprPtr, ExprPtr>,
    pub eq_cache: UnionFind,
    pub strong_cache: Cache<(ExprPtr, bool, bool), ExprPtr>,
    pub probe_depth: u32,
}

impl TcCache {
    /// Nothing is remembered.
    pub fn new() -> (r: Self)
        ensures
            r.blank(),
            r.probe_depth == 0,
    {
        TcCache {
            infer_cache_check: Cache::new(),
            infer_cache_no_check: Cache::new(),
            whnf_cache: Cache::new(),
            whnf_no_unfolding_cache: Cache::new(),
            eq_cache: UnionFind::new(),
            strong_cache: Cache::new(),
            probe_depth: 0,
        }
    }

    /// Nothing is remembered.
    pub open spec fn blank(self) -> bool {
        &&& forall|k: ExprPtr, v: ExprPtr| !#[trigger] self.infer_cache_check.holds(k, v)
        &&& forall|k: ExprPtr, v: ExprPtr| !#[trigger] self.infer_cache_no_check.holds(k, v)
        &&& forall|k: ExprPtr, v: ExprPtr| !#[trigger] self.whnf_cache.holds(k, v)
        &&& forall|k: ExprPtr, v: ExprPtr| !#[trigger] self.whnf_no_unfolding_cache.holds(k, v)
        &&& self.eq_cache.wf()
        &&& forall|a: usize, b: usize| !#[trigger] self.eq_cache.joined(a, b)
        &&& forall|a: usize| !#[trigger] self.eq_cache.known(a)
        &&& forall|k: (ExprPtr, bool, bool), v: ExprPtr| !#[trigger] self.strong_cache.holds(k, v)
    }

    /// Forgets everything.
    pub fn clear(&mut self)
        ensures
            final(self).blank(),
            final(self).probe_depth == old(self).probe_depth,
    {
        self.infer_cache_check.clear();
        self.infer_cache_no_check.clear();
        self.whnf_cache.clear();
        self.whnf_no_unfolding_cache.clear();
        self.eq_cache.clear();
        self.strong_cache.clear();
    }
}

/// The key of a term in the classes of equal terms.
pub open spec fn eq_key(p: ExprPtr) -> int {
    2 * p.idx + if p.local {
        1int
    } else {
        0int
    }
}

/// The universe parameters that a full check admits.
pub open spec fn full(info: Option<DeclarInfo>) -> Ck {
    Ck::Full(
        match info {
            Some(i) => Some(i.uparams@),
            None => None,
        },
    )
}

/// How much is checked under a flag.
pub open spec fn ck_of(info: Option<DeclarInfo>, flag: InferFlag) -> Ck {
    match flag {
        InferFlag::InferOnly => Ck::Only,
        InferFlag::Check => full(info),
    }
}

/// What is remembered is so.
pub closed spec fn fits(
    ctx: TcCtx,
    env: Env,
    info: Option<DeclarInfo>,
    cache: TcCache,
    th: Theory,
) -> bool {
    &&& env.maps_ok()
    &&& ctx.has_declars(env.declars.declars())
    &&& ctx.has_declars(env.extra())
    &&& info matches Some(i) ==> ctx.has_info(i)
    &&& forall|k: ExprPtr, v: ExprPtr| #[trigger]
        cache.infer_cache_check.holds(k, v) ==> ctx.has_expr(k) && ctx.has_expr(v) && inf(
            th,
            full(info),
            k@,
            v@,
        ) && type_says(th, k@, v@)
    &&& forall|k: ExprPtr, v: ExprPtr| #[trigger]
        cache.infer_cache_no_check.holds(k, v) ==> ctx.has_expr(k) && ctx.has_expr(v) && inf(
            th,
            Ck::Only,
            k@,
            v@,
        ) && type_says(th, k@, v@)
    &&& forall|k: ExprPtr, v: ExprPtr| #[trigger]
        cache.whnf_cache.holds(k, v) ==> ctx.has_expr(k) && ctx.has_expr(v) && reduced(th, k@, v@)
    &&& forall|k: ExprPtr, v: ExprPtr| #[trigger]
        cache.whnf_no_unfolding_cache.holds(k, v) ==> ctx.has_expr(k) && ctx.has_expr(v)
            && reduced_core(th, k@, v@)
    &&& forall|k: (ExprPtr, bool, bool), v: ExprPtr| #[trigger]
        cache.strong_cache.holds(k, v) ==> ctx.has_expr(k.0) && ctx.has_expr(v) && red(
            th,
            k.0@,
            v@,
        ) && outline(k.0@, v@) && inside_says(th, k.0@, k.1, k.2, v@)
    &&& cache.eq_cache.wf()
    &&& forall|a: usize| #[trigger]
        cache.eq_cache.known(a) ==> exists|p: ExprPtr| #[trigger] ctx.has_expr(p) && eq_key(p) == a
    &&& forall|p: ExprPtr, q: ExprPtr, a: usize, b: usize|
        #![trigger ctx.has_expr(p), ctx.has_expr(q), cache.eq_cache.joined(a, b)]
        ctx.has_expr(p) && ctx.has_expr(q) && eq_key(p) == a && eq_key(q) == b
            && cache.eq_cache.joined(a, b) ==> deq(th, p@, q@)
}

/// What is remembered stays so in a context with more in it.
pub broadcast proof fn fits_grows(
    c1: TcCtx,
    c2: TcCtx,
    env: Env,
    info: Option<DeclarInfo>,
    cache: TcCache,
    th: Theory,
)
    requires
        #[trigger] fits(c1, env, info, cache, th),
        #[trigger] c1.extended_by(c2),
        c1.wf(),
        c2.wf(),
    ensures
        fits(c2, env, info, cache, th),
{
    grows_declars(c1, c2, env.declars.declars());
    grows_declars(c1, c2, env.extra());
    assert forall|p: ExprPtr, q: ExprPtr, a: usize, b: usize|
        #![trigger c2.has_expr(p), c2.has_expr(q), cache.eq_cache.joined(a, b)]
        c2.has_expr(p) && c2.has_expr(q) && eq_key(p) == a && eq_key(q) == b
            && cache.eq_cache.joined(a, b) implies deq(th, p@, q@) by {
        cache.eq_cache.joined_is_equivalence(a, b, b);
        assert(cache.eq_cache.known(a) && cache.eq_cache.known(b));
        let p1 = choose|p1: ExprPtr| #[trigger] c1.has_expr(p1) && eq_key(p1) == a;
        let q1 = choose|q1: ExprPtr| #[trigger] c1.has_expr(q1) && eq_key(q1) == b;
        assert(deq(th, p1@, q1@));
        assert(p1.at(p) && q1.at(q));
        assert(c2.has_expr(p1) && c2.has_expr(q1));
        c2.exprs_unique(p1, p);
        c2.exprs_unique(q1, q);
    }
    assert forall|a: usize| #[trigger] cache.eq_cache.known(a) implies exists|p: ExprPtr| #[trigger]
        c2.has_expr(p) && eq_key(p) == a by {
        let p = choose|p: ExprPtr| #[trigger] c1.has_expr(p) && eq_key(p) == a;
        assert(c2.has_expr(p));
    }
}

proof fn grows_declars(c1: TcCtx, c2: TcCtx, ds: Seq<Declar>)
    requires
        c1.has_declars(ds),
        c1.extended_by(c2),
    ensures
        c2.has_declars(ds),
{
    assert forall|i: int| 0 <= i < ds.len() implies c2.has_declar(#[trigger] ds[i]) by {
        assert(c1.has_declar(ds[i]));
    }
}

/// The extension of an environment is searched before the shared declarations.
pub proof fn extension_first(env: Env, n: Nm)
    ensures
        by_name(env.extra()).contains_key(n) ==> env.table().contains_key(n) && env.table()[n]
            == by_name(env.extra())[n],
        !by_name(env.extra()).contains_key(n) && by_name(env.seen()).contains_key(n)
            ==> env.table().contains_key(n) && env.table()[n] == by_name(env.seen())[n],
        !by_name(env.extra()).contains_key(n) && !by_name(env.seen()).contains_key(n)
            ==> !env.table().contains_key(n),
{
}

/// A declaration is found under its own name.
pub proof fn own_name(env: Env, n: Nm)
    requires
        env.table().contains_key(n),
    ensures
        env.table()[n].about().name@ == n,
{
    if by_name(env.extra()).contains_key(n) {
        let j = choose|i: int| tree_declared(env.extra(), n, i);
        assert(tree_declared(env.extra(), n, j));
    } else {
        let j = choose|i: int| tree_declared(env.seen(), n, i);
        assert(tree_declared(env.seen(), n, j));
    }
}

/// The environment that holds nothing.
pub open spec fn no_env() -> E {
    E { idx: 0, tms: Ghost(Seq::empty()) }
}

/// The spine in which nothing is done.
pub open spec fn no_spine() -> S {
    S { idx: 0, els: Ghost(Seq::empty()) }
}

/// The type checker.
pub struct TypeChecker<'t> {
    pub ctx: TcCtx<'t>,
    pub env: &'t Env<'t>,
    pub tc_cache: TcCache,
    pub declar_info: Option<DeclarInfo>,
    pub vals: Vals,
    pub vcache: ValCache,
}

impl<'t> TypeChecker<'t> {
    /// What the judgements about terms depend on.
    pub open spec fn theory(self) -> Theory {
        Theory {
            decls: self.env.table(),
            names: self.ctx.name_cache,
            nat_ext: self.ctx.nat_extension,
            str_ext: self.ctx.string_extension,
        }
    }

    /// The checker is well formed: its context is, and what it remembers is so.
    pub open spec fn wf(self) -> bool {
        &&& self.ctx.wf()
        &&& self.ctx.base is Some
        &&& fits(self.ctx, *self.env, self.declar_info, self.tc_cache, self.theory())
        &&& self.vals.fit(self.ctx, self.theory())
        &&& self.vcache.fit(self.ctx, self.vals, self.theory())
        &&& self.vals.has_env(no_env())
        &&& self.vals.has_spine(no_spine())
    }

    /// The other checker has more in its context, and may remember other things.
    pub open spec fn evolves(self, other: Self) -> bool {
        &&& self.ctx.grows_to(other.ctx)
        &&& self.env == other.env
        &&& self.declar_info == other.declar_info
        &&& self.vals.within(other.vals)
    }

    /// The checker for terms in an environment.
    pub fn new(ctx: TcCtx<'t>, env: &'t Env<'t>, declar_info: Option<DeclarInfo>) -> (r: Self)
        requires
            ctx.wf(),
            ctx.base is Some,
            ctx.dbj_level_counter == 0,
            env.maps_ok(),
            ctx.has_declars(env.declars.declars()),
            ctx.has_declars(env.extra()),
            declar_info matches Some(i) ==> ctx.has_info(i),
        ensures
            r.wf(),
            r.ctx == ctx,
            r.env == env,
            r.declar_info == declar_info,
    {
        TypeChecker {
            ctx,
            env,
            tc_cache: TcCache::new(),
            declar_info,
            vals: Vals::new(),
            vcache: ValCache::new(),
        }
    }

    /// The declaration of a name.
    pub fn get_declar(&self, name: NamePtr) -> (r: Option<&'t Declar>)
        requires
            self.wf(),
            self.ctx.has_name(name),
        ensures
            match r {
                Some(d) => {
                    &&& self.theory().decls.contains_key(name@)
                    &&& self.theory().decls[name@] == *d
                    &&& self.ctx.has_declar(*d)
                },
                None => !self.theory().decls.contains_key(name@),
            },
    {
        let env: &'t Env<'t> = self.env;
        if let Some(temp) = env.temp {
            match temp.get_index_of(&name) {
                Some(i) => {
                    proof {
                        let ds = temp.declars();
                        assert(ds.take(ds.len() as int) =~= ds);
                        self.found(*temp, ds, name, i as int);
                        assert(env.extra() == temp.declars());
                        assert(self.ctx.has_declar(env.extra()[i as int]));
                    }
                    return temp.get_index(i);
                },
                None => {
                    proof {
                        self.not_found(*temp, temp.declars(), name);
                    }
                },
            }
        } else {
            assert(env.extra() =~= Seq::<Declar>::empty());
        }
        match env.declars.get_index_of(&name) {
            Some(i) => {
                if i < env.cutoff {
                    proof {
                        self.found(*env.declars, env.seen(), name, i as int);
                        assert(self.ctx.has_declar(env.declars.declars()[i as int]));
                    }
                    env.declars.get_index(i)
                } else {
                    proof {
                        let all = env.declars.declars();
                        assert forall|j: int| !tree_declared(env.seen(), name@, j) by {
                            if tree_declared(env.seen(), name@, j) {
                                self.same_place(*env.declars, all, name, j);
                                env.declars.declared_once(i as int, j, name);
                            }
                        }
                    }
                    None
                }
            },
            None => {
                proof {
                    let all = env.declars.declars();
                    assert forall|j: int| !tree_declared(env.seen(), name@, j) by {
                        if tree_declared(env.seen(), name@, j) {
                            self.same_place(*env.declars, all, name, j);
                        }
                    }
                }
                None
            },
        }
    }

    proof fn same_place(&self, m: DeclarMap, ds: Seq<Declar>, name: NamePtr, j: int)
        requires
            self.ctx.wf(),
            self.ctx.has_name(name),
            self.ctx.has_declars(ds),
            ds == m.declars(),
            tree_declared(ds, name@, j),
        ensures
            m.declares(j, name),
    {
        assert(self.ctx.has_declar(ds[j]));
        self.ctx.names_unique(ds[j].about().name, name);
    }

    proof fn found(&self, m: DeclarMap, ds: Seq<Declar>, name: NamePtr, i: int)
        requires
            self.ctx.wf(),
            self.ctx.has_name(name),
            m.wf(),
            self.ctx.has_declars(m.declars()),
            ds.len() <= m.declars().len(),
            ds == m.declars().take(ds.len() as int),
            m.declares(i, name),
            i < ds.len(),
        ensures
            by_name(ds).contains_key(name@),
            by_name(ds)[name@] == m.declars()[i],
    {
        assert(self.ctx.has_declar(m.declars()[i]));
        self.ctx.names_unique(m.declars()[i].about().name, name);
        assert(tree_declared(ds, name@, i));
        let j = choose|j: int| tree_declared(ds, name@, j);
        assert(tree_declared(m.declars(), name@, j));
        self.same_place(m, m.declars(), name, j);
        m.declared_once(i, j, name);
    }

    proof fn not_found(&self, m: DeclarMap, ds: Seq<Declar>, name: NamePtr)
        requires
            self.ctx.wf(),
            self.ctx.has_name(name),
            self.ctx.has_declars(ds),
            ds == m.declars(),
            forall|i: int| !#[trigger] m.declares(i, name),
        ensures
            !by_name(ds).contains_key(name@),
    {
        assert forall|j: int| !tree_declared(ds, name@, j) by {
            if tree_declared(ds, name@, j) {
                self.same_place(m, ds, name, j);
            }
        }
    }

    /// The inductive type of a name.
    pub fn get_inductive(&self, name: NamePtr) -> (r: Option<&'t InductiveData>)
        requires
            self.wf(),
            self.ctx.has_name(name),
        ensures
            match r {
                Some(d) => {
                    &&& self.theory().inductive(name@) == Some(*d)
                    &&& self.ctx.has_info(d.info)
                    &&& self.ctx.has_names(d.all_ctor_names@)
                },
                None => self.theory().inductive(name@) is None,
            },
    {
        match self.get_declar(name) {
            Some(Declar::Inductive(d)) => Some(d),
            _ => None,
        }
    }

    /// The constructor of a name.
    pub fn get_constructor(&self, name: NamePtr) -> (r: Option<&'t ConstructorData>)
        requires
            self.wf(),
            self.ctx.has_name(name),
        ensures
            match r {
                Some(d) => {
                    &&& self.theory().decls.contains_key(name@)
                    &&& self.theory().decls[name@] == Declar::Constructor(*d)
                    &&& self.ctx.has_info(d.info)
                    &&& self.ctx.has_name(d.inductive_name)
                },
                None => self.theory().ctor_params(name@) is None,
            },
    {
        match self.get_declar(name) {
            Some(Declar::Constructor(d)) => Some(d),
            _ => None,
        }
    }

    /// The recursor of a name.
    pub fn get_recursor(&self, name: NamePtr) -> (r: Option<&'t RecursorData>)
        requires
            self.wf(),
            self.ctx.has_name(name),
        ensures
            match r {
                Some(d) => {
                    &&& self.theory().recursor(name@) == Some(*d)
                    &&& self.ctx.has_declar(Declar::Recursor(*d))
                },
                None => self.theory().recursor(name@) is None,
            },
    {
        match self.get_declar(name) {
            Some(Declar::Recursor(d)) => Some(d),
            _ => None,
        }
    }

    /// The universe parameters and the value that a constant unfolds to.
    pub fn get_declar_val(&self, name: NamePtr) -> (r: Option<(LevelsPtr, ExprPtr)>)
        requires
            self.wf(),
            self.ctx.has_name(name),
        ensures
            match r {
                Some((ps, v)) => {
                    &&& self.ctx.has_levels(ps)
                    &&& self.ctx.has_expr(v)
                    &&& self.theory().decls.contains_key(name@)
                    &&& self.theory().decls[name@].about().uparams == ps
                    &&& self.theory().decls[name@].value() == Some(v)
                },
                None => self.theory().decls.contains_key(name@)
                    ==> self.theory().decls[name@].value() is None,
            },
    {
        match self.get_declar(name) {
            Some(Declar::Definition { info, val }) => Some((info.uparams, *val)),
            Some(Declar::Theorem { info, val }) => Some((info.uparams, *val)),
            _ => None,
        }
    }

    /// Whether the inductive type has one constructor and no indices, and does not occur in
    /// itself.
    pub fn can_be_struct(&self, name: NamePtr) -> (r: bool)
        requires
            self.wf(),
            self.ctx.has_name(name),
        ensures
            r == self.theory().is_struct(name@),
    {
        match self.get_inductive(name) {
            Some(d) => d.all_ctor_names.len() == 1 && d.num_indices == 0 && !d.is_recursive,
            None => false,
        }
    }

    /// The universe parameters of the declaration that is checked.
    pub fn own_uparams(&self) -> (r: Option<LevelsPtr>)
        requires
            self.wf(),
        ensures
            match self.declar_info {
                Some(i) => r == Some(i.uparams) && self.ctx.has_levels(i.uparams),
                None => r is None,
            },
    {
        match self.declar_info {
            Some(i) => Some(i.uparams),
            None => None,
        }
    }

    /// The remembered type of a term.
    pub(crate) fn recall_infer(&self, e: ExprPtr, flag: InferFlag) -> (r: Option<ExprPtr>)
        requires
            self.wf(),
            self.ctx.has_expr(e),
        ensures
            r matches Some(t) ==> self.ctx.has_expr(t) && inf(
                self.theory(),
                ck_of(self.declar_info, flag),
                e@,
                t@,
            ) && type_says(self.theory(), e@, t@),
            self.tc_cache.infer_cache_check.at(e.word()) matches Some((k, x)) ==> (k@ == e@ ==> r
                == Some(x)),
            flag == InferFlag::InferOnly ==> (self.tc_cache.infer_cache_no_check.at(
                e.word(),
            ) matches Some((k, x)) ==> (k@ == e@ ==> r is Some)),
            flag == InferFlag::Check ==> (r matches Some(t) ==> (self.tc_cache.infer_cache_check.at(
                e.word(),
            ) matches Some((k, x)) && k@ == e@ && x == t)),
    {
        if let Some((k, v)) = self.tc_cache.infer_cache_check.get(e.get_hash()) {
            if self.ctx.eq_expr(k, e) {
                proof {
                    let ps = full(self.declar_info)->Full_0;
                    crate::laws::inf_only(self.theory(), ps, e@, v@);
                }
                return Some(v);
            }
        }
        if flag == InferFlag::InferOnly {
            if let Some((k, v)) = self.tc_cache.infer_cache_no_check.get(e.get_hash()) {
                if self.ctx.eq_expr(k, e) {
                    return Some(v);
                }
            }
        }
        None
    }

    /// Remembers the type of a term.
    pub(crate) fn remember_infer(&mut self, e: ExprPtr, t: ExprPtr, flag: InferFlag)
        requires
            old(self).wf(),
            old(self).ctx.has_expr(e),
            old(self).ctx.has_expr(t),
            inf(old(self).theory(), ck_of(old(self).declar_info, flag), e@, t@),
            type_says(old(self).theory(), e@, t@),
        ensures
            final(self).wf(),
            old(self).evolves(*final(self)),
            final(self).ctx == old(self).ctx,
            match flag {
                InferFlag::InferOnly => final(self).tc_cache.infer_cache_no_check.at(e.word()) == Some(
                    (e, t),
                ),
                InferFlag::Check => final(self).tc_cache.infer_cache_check.at(e.word()) == Some((e, t)),
            },
    {
        match flag {
            InferFlag::InferOnly => {
                self.tc_cache.infer_cache_no_check.put(e.get_hash(), e, t);
            },
            InferFlag::Check => {
                self.tc_cache.infer_cache_check.put(e.get_hash(), e, t);
            },
        }
    }

    /// What a term was reduced to.
    pub(crate) fn recall_whnf(&self, e: ExprPtr) -> (r: Option<ExprPtr>)
        requires
            self.wf(),
            self.ctx.has_expr(e),
        ensures
            r matches Some(t) ==> self.ctx.has_expr(t) && reduced(self.theory(), e@, t@),
            r == (match self.tc_cache.whnf_cache.at(e.word()) {
                Some((k, x)) => if k@ == e@ {
                    Some(x)
                } else {
                    None
                },
                None => None,
            }),
    {
        match self.tc_cache.whnf_cache.get(e.get_hash()) {
            Some((k, v)) => if self.ctx.eq_expr(k, e) {
                Some(v)
            } else {
                None
            },
            None => None,
        }
    }

    /// Remembers what a term was reduced to.
    pub(crate) fn remember_whnf(&mut self, e: ExprPtr, t: ExprPtr)
        requires
            old(self).wf(),
            old(self).ctx.has_expr(e),
            old(self).ctx.has_expr(t),
            reduced(old(self).theory(), e@, t@),
        ensures
            final(self).wf(),
            old(self).evolves(*final(self)),
            final(self).ctx == old(self).ctx,
            final(self).tc_cache.whnf_cache.at(e.word()) == Some((e, t)),
    {
        self.tc_cache.whnf_cache.put(e.get_hash(), e, t);
    }

    /// What a term was reduced to without unfolding.
    pub(crate) fn recall_core(&self, e: ExprPtr) -> (r: Option<ExprPtr>)
        requires
            self.wf(),
            self.ctx.has_expr(e),
        ensures
            r matches Some(t) ==> self.ctx.has_expr(t) && reduced_core(self.theory(), e@, t@),
            r == (match self.tc_cache.whnf_no_unfolding_cache.at(e.word()) {
                Some((k, x)) => if k@ == e@ {
                    Some(x)
                } else {
                    None
                },
                None => None,
            }),
    {
        match self.tc_cache.whnf_no_unfolding_cache.get(e.get_hash()) {
            Some((k, v)) => if self.ctx.eq_expr(k, e) {
                Some(v)
            } else {
                None
            },
            None => None,
        }
    }

    /// Remembers what a term was reduced to without unfolding.
    pub(crate) fn remember_core(&mut self, e: ExprPtr, t: ExprPtr)
        requires
            old(self).wf(),
            old(self).ctx.has_expr(e),
            old(self).ctx.has_expr(t),
            reduced_core(old(self).theory(), e@, t@),
        ensures
            final(self).wf(),
            old(self).evolves(*final(self)),
            final(self).ctx == old(self).ctx,
            final(self).tc_cache.whnf_no_unfolding_cache.at(e.word()) == Some((e, t)),
    {
        self.tc_cache.whnf_no_unfolding_cache.put(e.get_hash(), e, t);
    }

    /// What a term was reduced to everywhere.
    pub(crate) fn recall_strong(&self, e: ExprPtr, types: bool, proofs: bool) -> (r: Option<ExprPtr>)
        requires
            self.wf(),
            self.ctx.has_expr(e),
        ensures
            r matches Some(t) ==> self.ctx.has_expr(t) && red(self.theory(), e@, t@) && outline(
                e@,
                t@,
            ) && inside_says(self.theory(), e@, types, proofs, t@),
            r == (match self.tc_cache.strong_cache.at(e.word()) {
                Some((k, x)) => if k.0@ == e@ && k.1 == types && k.2 == proofs {
                    Some(x)
                } else {
                    None
                },
                None => None,
            }),
    {
        match self.tc_cache.strong_cache.get(e.get_hash()) {
            Some((k, v)) => if k.1 == types && k.2 == proofs && self.ctx.eq_expr(k.0, e) {
                Some(v)
            } else {
                None
            },
            None => None,
        }
    }

    /// Remembers what a term was reduced to everywhere.
    pub(crate) fn remember_strong(&mut self, e: ExprPtr, types: bool, proofs: bool, t: ExprPtr)
        requires
            old(self).wf(),
            old(self).ctx.has_expr(e),
            old(self).ctx.has_expr(t),
            red(old(self).theory(), e@, t@),
            outline(e@, t@),
            inside_says(old(self).theory(), e@, types, proofs, t@),
        ensures
            final(self).wf(),
            old(self).evolves(*final(self)),
            final(self).ctx == old(self).ctx,
            final(self).tc_cache.strong_cache.at(e.word()) == Some(((e, types, proofs), t)),
    {
        self.tc_cache.strong_cache.put(e.get_hash(), (e, types, proofs), t);
    }

    /// Whether two terms were found to be equal.
    pub(crate) fn recall_eq(&mut self, x: ExprPtr, y: ExprPtr) -> (r: bool)
        requires
            old(self).wf(),
            old(self).ctx.has_expr(x),
            old(self).ctx.has_expr(y),
        ensures
            final(self).wf(),
            old(self).evolves(*final(self)),
            final(self).ctx == old(self).ctx,
            r ==> deq(old(self).theory(), x@, y@),
            x.idx < 0x7fff_ffff && y.idx < 0x7fff_ffff ==> r == old(self).tc_cache.eq_cache.joined(
                eq_key(x) as usize,
                eq_key(y) as usize,
            ),
    {
        match (word_of(x), word_of(y)) {
            (Some(a), Some(b)) => self.tc_cache.eq_cache.equiv(a, b),
            _ => false,
        }
    }

    /// Remembers that two terms are equal.
    pub(crate) fn remember_eq(&mut self, x: ExprPtr, y: ExprPtr)
        requires
            old(self).wf(),
            old(self).ctx.has_expr(x),
            old(self).ctx.has_expr(y),
            deq(old(self).theory(), x@, y@),
        ensures
            final(self).wf(),
            old(self).evolves(*final(self)),
            final(self).ctx == old(self).ctx,
            x.idx < 0x7fff_ffff && y.idx < 0x7fff_ffff && old(self).tc_cache.eq_cache.size()
                < u32::MAX ==> final(self).tc_cache.eq_cache.joined(
                eq_key(x) as usize,
                eq_key(y) as usize,
            ),
    {
        if self.tc_cache.eq_cache.len() >= 0xffff_ffff {
            return ;
        }
        if let (Some(a), Some(b)) = (word_of(x), word_of(y)) {
            let ghost th = self.theory();
            let ghost before = self.tc_cache.eq_cache;
            let ghost ctx = self.ctx;
            self.tc_cache.eq_cache.union(a, b);
            proof {
                let after = self.tc_cache.eq_cache;
                deq_symm(th, x@, y@);
                assert forall|p: ExprPtr, q: ExprPtr, c: usize, d: usize|
                    #![trigger ctx.has_expr(p), ctx.has_expr(q), before.joined(c, d)]
                    ctx.has_expr(p) && ctx.has_expr(q) && eq_key(p) == c && eq_key(q) == d
                        && before.with(a, b, c, d) implies deq(th, p@, q@) by {
                    if !before.joined(c, d) {
                        ctx.exprs_unique(p, q);
                        deq_refl(th, p@);
                    }
                }
                assert forall|p: ExprPtr, q: ExprPtr, c: usize, d: usize|
                    #![trigger ctx.has_expr(p), ctx.has_expr(q), after.joined(c, d)]
                    ctx.has_expr(p) && ctx.has_expr(q) && eq_key(p) == c && eq_key(q) == d
                        && after.joined(c, d) implies deq(th, p@, q@) by {
                    assert(before.joined(c, d) || !before.joined(c, d));
                    assert(before.joined(c, a) || !before.joined(c, a));
                    assert(before.joined(b, d) || !before.joined(b, d));
                    assert(before.joined(c, b) || !before.joined(c, b));
                    assert(before.joined(a, d) || !before.joined(a, d));
                    if before.with(a, b, c, d) {
                    } else if before.with(a, b, c, a) && before.with(a, b, b, d) {
                        assert(deq(th, p@, x@));
                        assert(deq(th, y@, q@));
                        deq_trans(th, p@, x@, y@);
                        deq_trans(th, p@, y@, q@);
                    } else {
                        assert(deq(th, p@, y@));
                        assert(deq(th, x@, q@));
                        deq_trans(th, p@, y@, x@);
                        deq_trans(th, p@, x@, q@);
                    }
                }
                assert forall|c: usize| #[trigger] after.known(c) implies exists|p: ExprPtr|
                    #[trigger] ctx.has_expr(p) && eq_key(p) == c by {
                    if c == a {
                        assert(ctx.has_expr(x));
                    } else if c == b {
                        assert(ctx.has_expr(y));
                    } else {
                        assert(before.known(c));
                    }
                }
            }
        }
    }
}

fn word_of(p: ExprPtr) -> (r: Option<usize>)
    ensures
        r is Some <==> p.idx < 0x7fff_ffff,
        r matches Some(a) ==> a == eq_key(p),
{
    if p.idx < 0x7fff_ffff {
        Some(2 * p.idx + if p.local {
            1usize
        } else {
            0usize
        })
    } else {
        None
    }
}

} // verus!
