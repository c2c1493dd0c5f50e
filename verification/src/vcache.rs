//! What evaluation remembers.
use crate::cache::Cache;
use crate::checker::{Stop, TypeChecker};
use crate::ctx::TcCtx;
use crate::env::RecursorData;
use crate::judge::{major_induct, replaces_major, Ck, Theory};
use crate::laws::{inf, red};
use crate::ptr::{word_unique, BigUintPtr, ExprPtr, LevelPtr, LevelsPtr, NamePtr, StringPtr};
use crate::sig::{sig_ok, Sig};
use crate::tree::{
    inst1, loose, lv_simplify, subst, subst_loose, tm_lsubst, BinderStyle, Lv, Nm, Tm,
};
use crate::stable::ready;
use crate::value::{
    head_known, neutral, spine_closed, spine_tm, value_known, valued, El, Elim, RigidHead, Vals,
    Value, E, S, V,
};
use crate::rest::{eta_made, eta_refused, mentions_free, resting};
use crate::work::fires;
use vstd::prelude::*;

verus! {

/// `c` may stand in the place of the major premise `m` of any recursor for the type.
pub open spec fn eta_for(th: Theory, ind: Nm, m: Tm, c: Tm) -> bool {
    forall|r: RecursorData|
        major_induct(r) == Some(ind) ==> #[trigger] replaces_major(th, r, m, c)
}

/// Behind `n` binders, whose variables are taken for arguments, the type is the universe
/// whose level has the simpler form `l`.
pub open spec fn level_behind(th: Theory, t: Tm, l: Lv, n: nat) -> bool
    decreases n,
{
    if n == 0 {
        exists|m: Lv| #[trigger] red(th, t, Tm::Sort(m)) && l == lv_simplify(m)
    } else {
        exists|nm: Nm, s: BinderStyle, a: Tm, b: Tm|
            #![trigger red(th, t, Tm::Pi(nm, s, Box::new(a), Box::new(b)))]
            red(th, t, Tm::Pi(nm, s, Box::new(a), Box::new(b))) && level_behind(
                th,
                inst1(b, Tm::Free(0, Box::new(a))),
                l,
                (n - 1) as nat,
            )
    }
}

/// The type of the constant ends in the universe of the level.
pub open spec fn result_level(th: Theory, n: Nm, ls: Seq<Lv>, l: Lv) -> bool {
    exists|t: Tm, k: nat|
        #![trigger level_behind(th, t, l, k)]
        inf(th, Ck::Loose, Tm::Const(n, ls), t) && level_behind(th, t, l, k)
}

/// The head of a variable or constant that things are done to is a variable.
pub open spec fn free_head(t: Tm) -> bool
    decreases t,
{
    match t {
        Tm::Local(_, _, _, _) | Tm::Free(_, _) => true,
        Tm::App(f, _) => free_head(*f),
        Tm::Proj(_, _, s) => free_head(*s),
        _ => false,
    }
}

/// What evaluation remembers.
pub struct ValCache {
    pub bvar_hc: Cache<(u32, V), V>,
    pub env_hc: Cache<(E, V), E>,
    pub spine_hc: Cache<(S, Elim), S>,
    pub lam_hc: Cache<(ExprPtr, E, ExprPtr), V>,
    pub pi_hc: Cache<(V, E, ExprPtr), V>,
    pub rigid_hc: Cache<(RigidHead, S), V>,
    pub unfold_hc: Cache<(NamePtr, LevelsPtr, S, usize), V>,
    pub canon_cache: Cache<V, V>,
    pub content_hc: Cache<u8, V>,
    pub closed_eval_cache: Cache<ExprPtr, V>,
    pub open_eval_cache: Cache<(E, ExprPtr), V>,
    pub open_eval_seen: Cache<ExprPtr, bool>,
    pub local_v_cache: Cache<ExprPtr, V>,
    pub const_head_value_cache: Cache<(NamePtr, LevelsPtr), V>,
    pub const_head_type_cache: Cache<(NamePtr, LevelsPtr), V>,
    pub const_result_level_cache: Cache<(NamePtr, LevelsPtr), LevelPtr>,
    pub unfold_const_cache: Cache<(NamePtr, LevelsPtr), V>,
    pub rec_rule_cache: Cache<(ExprPtr, LevelsPtr, LevelsPtr), V>,
    pub iota_cache: Cache<V, V>,
    pub iota_stuck: Cache<V, bool>,
    pub struct_eta_cache: Cache<(V, NamePtr), Option<V>>,
    pub fvar_cache: Cache<V, bool>,
    pub sig_cache: Cache<(NamePtr, LevelsPtr), Sig>,
    pub sig_computing: Vec<(NamePtr, LevelsPtr)>,
}

impl ValCache {
    /// What is remembered is so.
    pub closed spec fn fit(self, ctx: TcCtx, vals: Vals, th: Theory) -> bool {
        &&& forall|k: (u32, V), v: V| #[trigger]
            self.bvar_hc.holds(k, v) ==> vals.has_val(k.1) && vals.done(v) && v@ == Tm::Free(
                k.0 as nat,
                Box::new(k.1@),
            )
        &&& forall|k: (E, V), e: E| #[trigger]
            self.env_hc.holds(k, e) ==> vals.has_env(k.0) && vals.has_val(k.1) && vals.has_env(e)
                && e@ == k.0@.push(k.1@)
        &&& forall|k: (S, Elim), s: S| #[trigger]
            self.spine_hc.holds(k, s) ==> vals.has_spine(k.0) && vals.elim_fits(ctx, k.1)
                && vals.has_spine(s) && s@ == k.0@.push(k.1.el())
        &&& forall|k: (ExprPtr, E, ExprPtr), v: V| #[trigger]
            self.lam_hc.holds(k, v) ==> ctx.has_expr(k.0) && vals.has_env(k.1) && ctx.has_expr(k.2)
                && vals.done(v) && (v@ matches Tm::Lam(_, _, t, b) && *t == subst(k.0@, k.1@, 0)
                && *b == subst(k.2@, k.1@, 1))
        &&& forall|k: (V, E, ExprPtr), v: V| #[trigger]
            self.pi_hc.holds(k, v) ==> vals.has_val(k.0) && vals.has_env(k.1) && ctx.has_expr(k.2)
                && vals.done(v) && (v@ matches Tm::Pi(_, _, t, b) && *t == k.0@ && *b == subst(
                k.2@,
                k.1@,
                1,
            ))
        &&& forall|k: (RigidHead, S), v: V| #[trigger]
            self.rigid_hc.holds(k, v) ==> vals.head_fits(ctx, k.0) && vals.has_spine(k.1)
                && vals.done(v) && v@ == spine_tm(k.0.tm(), k.1@)
        &&& forall|k: (NamePtr, LevelsPtr, S, usize), v: V| #[trigger]
            self.unfold_hc.holds(k, v) ==> ctx.has_name(k.0) && ctx.has_levels(k.1)
                && vals.has_spine(k.2) && vals.done(v) && v@ == spine_tm(
                Tm::Const(k.0@, k.1@),
                k.2@,
            )
        &&& forall|k: V, v: V| #[trigger]
            self.canon_cache.holds(k, v) ==> vals.has_val(k) && vals.done(v) && red(th, k@, v@)
        &&& forall|k: u8, v: V| #[trigger] self.content_hc.holds(k, v) ==> vals.done(v)
        &&& forall|k: ExprPtr, v: V| #[trigger]
            self.closed_eval_cache.holds(k, v) ==> ctx.has_expr(k) && loose(k@) == 0 && vals.done(v)
                && red(th, k@, v@)
        &&& forall|k: (E, ExprPtr), v: V| #[trigger]
            self.open_eval_cache.holds(k, v) ==> vals.has_env(k.0) && ctx.has_expr(k.1) && vals.done(
                v,
            ) && red(th, subst(k.1@, k.0@, 0), v@)
        &&& forall|k: ExprPtr, v: V| #[trigger]
            self.local_v_cache.holds(k, v) ==> ctx.has_expr(k) && vals.done(v) && v@ == k@
        &&& forall|k: (NamePtr, LevelsPtr), v: V| #[trigger]
            self.const_head_value_cache.holds(k, v) ==> ctx.has_name(k.0) && ctx.has_levels(k.1)
                && vals.done(v) && v@ == Tm::Const(k.0@, k.1@)
        &&& forall|k: (NamePtr, LevelsPtr), v: V| #[trigger]
            self.const_head_type_cache.holds(k, v) ==> ctx.has_name(k.0) && ctx.has_levels(k.1)
                && vals.done(v) && inf(th, Ck::Loose, Tm::Const(k.0@, k.1@), v@)
        &&& forall|k: (NamePtr, LevelsPtr), l: LevelPtr| #[trigger]
            self.const_result_level_cache.holds(k, l) ==> ctx.has_name(k.0) && ctx.has_levels(k.1)
                && ctx.has_level(l) && result_level(th, k.0@, k.1@, l@)
        &&& forall|k: (NamePtr, LevelsPtr), v: V| #[trigger]
            self.unfold_const_cache.holds(k, v) ==> ctx.has_name(k.0) && ctx.has_levels(k.1)
                && vals.done(v) && red(th, Tm::Const(k.0@, k.1@), v@) && (th.delta(
                k.0@,
                k.1@,
            ) matches Some(d) && red(th, d, v@))
        &&& forall|k: (ExprPtr, LevelsPtr, LevelsPtr), v: V| #[trigger]
            self.rec_rule_cache.holds(k, v) ==> ctx.has_expr(k.0) && ctx.has_levels(k.1)
                && ctx.has_levels(k.2) && vals.done(v) && red(
                th,
                tm_lsubst(k.0@, k.1@, k.2@),
                v@,
            )
        &&& forall|k: V, v: V| #[trigger]
            self.iota_cache.holds(k, v) ==> vals.has_val(k) && vals.done(v) && red(th, k@, v@)
                && fires(th, k@, v@)
        &&& forall|k: V, b: bool| #[trigger]
            self.iota_stuck.holds(k, b) ==> vals.has_val(k) && !ready(th, k@) && (vals.node(k) is Rigid
                ==> resting(th, k@))
        &&& forall|k: (V, NamePtr), o: Option<V>| #[trigger]
            self.struct_eta_cache.holds(k, o) ==> vals.has_val(k.0) && ctx.has_name(k.1) && (
            o matches Some(c) ==> vals.done(c) && eta_for(th, k.1@, k.0@, c@) && eta_made(
                th,
                k.1@,
                k.0@,
                c@,
            )) && (o is None ==> eta_refused(th, k.1@, k.0@))
        &&& forall|k: V, b: bool| #[trigger]
            self.fvar_cache.holds(k, b) ==> vals.has_val(k) && (b ==> mentions_free(th, k@)) && (free_head(k@) ==> b) && (!neutral(k@)
                ==> !b)
        &&& forall|k: (NamePtr, LevelsPtr), s: Sig| #[trigger]
            self.sig_cache.holds(k, s) ==> ctx.has_name(k.0) && ctx.has_levels(k.1) && sig_ok(
                th,
                k.0@,
                k.1@,
                s,
            )
    }

    /// The arguments of the constant are being looked at.
    pub open spec fn computes(self, n: NamePtr, ls: LevelsPtr) -> bool {
        exists|i: int|
            0 <= i < self.sig_computing@.len() && (#[trigger] self.sig_computing@[i]).0.at(n)
                && self.sig_computing@[i].1.at(ls)
    }

    /// Nothing is remembered.
    pub fn new() -> (r: Self)
        ensures
            forall|ctx: TcCtx, vals: Vals, th: Theory| #[trigger] r.fit(ctx, vals, th),
    {
        ValCache {
            bvar_hc: Cache::new(),
            env_hc: Cache::new(),
            spine_hc: Cache::new(),
            lam_hc: Cache::new(),
            pi_hc: Cache::new(),
            rigid_hc: Cache::new(),
            unfold_hc: Cache::new(),
            canon_cache: Cache::new(),
            content_hc: Cache::new(),
            closed_eval_cache: Cache::new(),
            open_eval_cache: Cache::new(),
            open_eval_seen: Cache::new(),
            local_v_cache: Cache::new(),
            const_head_value_cache: Cache::new(),
            const_head_type_cache: Cache::new(),
            const_result_level_cache: Cache::new(),
            unfold_const_cache: Cache::new(),
            rec_rule_cache: Cache::new(),
            iota_cache: Cache::new(),
            iota_stuck: Cache::new(),
            struct_eta_cache: Cache::new(),
            fvar_cache: Cache::new(),
            sig_cache: Cache::new(),
            sig_computing: Vec::new(),
        }
    }

    /// Forgets what is remembered, but for the values of closed terms and of variables.
    pub fn clear(&mut self, Ghost(ctx): Ghost<TcCtx>, Ghost(vals): Ghost<Vals>, Ghost(th): Ghost<Theory>)
        requires
            old(self).fit(ctx, vals, th),
        ensures
            final(self).fit(ctx, vals, th),
            final(self).closed_eval_cache == old(self).closed_eval_cache,
            final(self).local_v_cache == old(self).local_v_cache,
            final(self).sig_cache == old(self).sig_cache,
            final(self).sig_computing == old(self).sig_computing,
            final(self).unfold_const_cache.blank(),
            final(self).rec_rule_cache.blank(),
            final(self).const_head_type_cache.blank(),
            final(self).const_head_value_cache.blank(),
            final(self).const_result_level_cache.blank(),
            final(self).env_hc.blank(),
            final(self).open_eval_cache.blank(),
            final(self).open_eval_seen.blank(),
            final(self).bvar_hc.blank(),
            final(self).spine_hc.blank(),
            final(self).lam_hc.blank(),
            final(self).pi_hc.blank(),
            final(self).rigid_hc.blank(),
            final(self).unfold_hc.blank(),
            final(self).iota_stuck.blank(),
            final(self).struct_eta_cache.blank(),
            final(self).iota_cache.blank(),
            final(self).canon_cache.blank(),
            final(self).content_hc.blank(),
            final(self).fvar_cache.blank(),
    {
        self.unfold_const_cache.clear();
        self.rec_rule_cache.clear();
        self.const_head_type_cache.clear();
        self.const_head_value_cache.clear();
        self.const_result_level_cache.clear();
        self.env_hc.clear();
        self.open_eval_cache.clear();
        self.open_eval_seen.clear();
        self.bvar_hc.clear();
        self.spine_hc.clear();
        self.lam_hc.clear();
        self.pi_hc.clear();
        self.rigid_hc.clear();
        self.unfold_hc.clear();
        self.iota_stuck.clear();
        self.struct_eta_cache.clear();
        self.iota_cache.clear();
        self.canon_cache.clear();
        self.content_hc.clear();
        self.fvar_cache.clear();
    }
}

/// What is remembered stays so in a context with more in it.
pub broadcast proof fn vcache_grows_ctx(c1: TcCtx, c2: TcCtx, vals: Vals, cache: ValCache, th: Theory)
    requires
        #[trigger] cache.fit(c1, vals, th),
        #[trigger] c1.extended_by(c2),
    ensures
        cache.fit(c2, vals, th),
{
}

/// What is remembered stays so with more values.
pub broadcast proof fn vcache_grows_vals(ctx: TcCtx, v1: Vals, v2: Vals, cache: ValCache, th: Theory)
    requires
        #[trigger] cache.fit(ctx, v1, th),
        #[trigger] v1.within(v2),
    ensures
        cache.fit(ctx, v2, th),
{
}


/// The key of a head: which kind it is, and two words for its parts.
pub open spec fn head_key(h: RigidHead) -> (u8, u64, u64) {
    match h {
        RigidHead::BVar(l, ty) => (0, l as u64, ty.idx as u64),
        RigidHead::Local(e) => (1, e.word(), 0),
        RigidHead::Axiom(n, ls) => (2, n.word(), ls.word()),
        RigidHead::Ctor(n, ls) => (3, n.word(), ls.word()),
        RigidHead::Recursor(n, ls) => (4, n.word(), ls.word()),
        RigidHead::QuotConst(n, ls) => (5, n.word(), ls.word()),
        RigidHead::Inductive(n, ls) => (6, n.word(), ls.word()),
    }
}

/// The key of a head.
pub fn rigid_head_key(head: &RigidHead) -> (r: (u8, u64, u64))
    ensures
        r == head_key(*head),
{
    match *head {
        RigidHead::BVar(lvl, ty) => (0, lvl as u64, ty.idx as u64),
        RigidHead::Local(e) => (1, e.get_hash(), 0),
        RigidHead::Axiom(n, l) => (2, n.get_hash(), l.get_hash()),
        RigidHead::Ctor(n, l) => (3, n.get_hash(), l.get_hash()),
        RigidHead::Recursor(n, l) => (4, n.get_hash(), l.get_hash()),
        RigidHead::QuotConst(n, l) => (5, n.get_hash(), l.get_hash()),
        RigidHead::Inductive(n, l) => (6, n.get_hash(), l.get_hash()),
    }
}

/// The indices in the head fit into its key.
pub open spec fn head_fits_key(h: RigidHead) -> bool {
    match h {
        RigidHead::BVar(_, _) => true,
        RigidHead::Local(e) => e.idx < 0x8000_0000_0000_0000,
        RigidHead::Axiom(n, l) | RigidHead::Ctor(n, l) | RigidHead::Recursor(n, l)
        | RigidHead::QuotConst(n, l) | RigidHead::Inductive(n, l) => n.idx < 0x8000_0000_0000_0000
            && l.idx < 0x8000_0000_0000_0000,
    }
}

/// The heads are of one kind and have the same parts.
pub open spec fn heads_at_one(a: RigidHead, b: RigidHead) -> bool {
    match (a, b) {
        (RigidHead::BVar(i, v), RigidHead::BVar(j, w)) => i == j && v.idx == w.idx,
        (RigidHead::Local(e), RigidHead::Local(f)) => e.at(f),
        (RigidHead::Axiom(n, l), RigidHead::Axiom(m, k)) => n.at(m) && l.at(k),
        (RigidHead::Ctor(n, l), RigidHead::Ctor(m, k)) => n.at(m) && l.at(k),
        (RigidHead::Recursor(n, l), RigidHead::Recursor(m, k)) => n.at(m) && l.at(k),
        (RigidHead::QuotConst(n, l), RigidHead::QuotConst(m, k)) => n.at(m) && l.at(k),
        (RigidHead::Inductive(n, l), RigidHead::Inductive(m, k)) => n.at(m) && l.at(k),
        _ => false,
    }
}

/// Different heads have different keys.
pub proof fn head_key_unique(a: RigidHead, b: RigidHead)
    requires
        head_fits_key(a),
        head_fits_key(b),
        head_key(a) == head_key(b),
    ensures
        heads_at_one(a, b),
{
    match (a, b) {
        (RigidHead::Local(e), RigidHead::Local(f)) => {
            word_unique(e.idx, e.local, f.idx, f.local);
        },
        (RigidHead::Axiom(n, l), RigidHead::Axiom(m, k)) => {
            word_unique(n.idx, n.local, m.idx, m.local);
            word_unique(l.idx, l.local, k.idx, k.local);
        },
        (RigidHead::Ctor(n, l), RigidHead::Ctor(m, k)) => {
            word_unique(n.idx, n.local, m.idx, m.local);
            word_unique(l.idx, l.local, k.idx, k.local);
        },
        (RigidHead::Recursor(n, l), RigidHead::Recursor(m, k)) => {
            word_unique(n.idx, n.local, m.idx, m.local);
            word_unique(l.idx, l.local, k.idx, k.local);
        },
        (RigidHead::QuotConst(n, l), RigidHead::QuotConst(m, k)) => {
            word_unique(n.idx, n.local, m.idx, m.local);
            word_unique(l.idx, l.local, k.idx, k.local);
        },
        (RigidHead::Inductive(n, l), RigidHead::Inductive(m, k)) => {
            word_unique(n.idx, n.local, m.idx, m.local);
            word_unique(l.idx, l.local, k.idx, k.local);
        },
        _ => {},
    }
}

/// Different things done to a value have different keys.
pub proof fn elim_key_unique(a: Elim, b: Elim)
    requires
        a matches Elim::Proj { ty_name, .. } ==> ty_name.idx < 0x8000_0000_0000_0000,
        b matches Elim::Proj { ty_name, .. } ==> ty_name.idx < 0x8000_0000_0000_0000,
        done_key(a) == done_key(b),
    ensures
        match (a, b) {
            (Elim::App(v), Elim::App(w)) => v.idx == w.idx,
            (Elim::Proj { ty_name: n, idx: i }, Elim::Proj { ty_name: m, idx: j }) => n.at(m) && i == j,
            _ => false,
        },
{
    if let (Elim::Proj { ty_name: n, .. }, Elim::Proj { ty_name: m, .. }) = (a, b) {
        word_unique(n.idx, n.local, m.idx, m.local);
    }
}

/// The key of what is done to a value: which kind it is, and two words for its parts.
pub open spec fn done_key(e: Elim) -> (u8, u64, u64) {
    match e {
        Elim::App(v) => (0, v.idx as u64, 0),
        Elim::Proj { ty_name, idx } => (1, ty_name.word(), idx as u64),
    }
}

/// The key of what is done to a value.
pub fn elim_key(elim: &Elim) -> (r: (u8, u64, u64))
    ensures
        r == done_key(*elim),
{
    match *elim {
        Elim::App(v) => (0, v.idx as u64, 0),
        Elim::Proj { ty_name, idx } => (1, ty_name.get_hash(), idx as u64),
    }
}

/// One word made of two.
pub open spec fn mixed(a: u64, b: u64) -> u64 {
    a.wrapping_mul(0x9e37_79b9_7f4a_7c15).wrapping_add(b)
}

fn mix(a: u64, b: u64) -> (r: u64)
    ensures
        r == mixed(a, b),
{
    a.wrapping_mul(0x9e37_79b9_7f4a_7c15).wrapping_add(b)
}

fn mix3(k: (u8, u64, u64), b: u64) -> (r: u64) {
    mix(mix(mix(k.0 as u64, k.1), k.2), b)
}

impl<'t> TypeChecker<'t> {
    /// The environment that holds nothing.
    pub fn empty_env(&self) -> (r: E)
        requires
            self.wf(),
        ensures
            self.vals.has_env(r),
            r@ == Seq::<Tm>::empty(),
    {
        E { idx: 0, tms: Ghost(Seq::empty()) }
    }

    /// The spine in which nothing is done.
    pub fn empty_spine(&self) -> (r: S)
        requires
            self.wf(),
        ensures
            self.vals.has_spine(r),
            r@ == Seq::<El>::empty(),
    {
        S { idx: 0, els: Ghost(Seq::empty()) }
    }

    fn push_val(&mut self, n: Value) -> (r: V)
        requires
            old(self).wf(),
            old(self).vals.value_fits(old(self).ctx, n),
            loose(n.tree()) == 0,
            value_known(old(self).theory(), n),
        ensures
            final(self).wf(),
            old(self).evolves(*final(self)),
            final(self).ctx == old(self).ctx,
            final(self).vals.has_val(r),
            r@ == n.tree(),
            !(n is Thunk) <==> final(self).vals.done(r),
    {
        let ghost ctx = self.ctx;
        let ghost th = self.theory();
        let r = self.vals.push(n, Ghost(ctx), Ghost(th));
        proof {
            vcache_grows_vals(ctx, old(self).vals, self.vals, self.vcache, th);
        }
        r
    }

    fn push_cell(&mut self, Ghost(t): Ghost<Tm>, Ghost(fired): Ghost<bool>) -> (r: usize)
        requires
            old(self).wf(),
        ensures
            final(self).wf(),
            old(self).evolves(*final(self)),
            final(self).ctx == old(self).ctx,
            !fired ==> final(self).vals.has_cell(r, t),
            fired ==> final(self).vals.has_fired(r, t),
    {
        let ghost ctx = self.ctx;
        let ghost th = self.theory();
        let r: usize = self.vals.push_cell(Ghost(t), Ghost(fired), Ghost(ctx), Ghost(th));
        proof {
            vcache_grows_vals(ctx, old(self).vals, self.vals, self.vcache, th);
        }
        r
    }

    /// Keeps a result, unless there is one, and gives what is kept.
    pub(crate) fn keep(&mut self, c: usize, v: V, Ghost(t): Ghost<Tm>) -> (r: V)
        requires
            old(self).wf(),
            old(self).vals.has_cell(c, t) || (old(self).vals.has_fired(c, t) && fires(
                old(self).theory(),
                t,
                v@,
            )),
            old(self).vals.done(v),
            red(old(self).theory(), t, v@),
        ensures
            final(self).wf(),
            old(self).evolves(*final(self)),
            final(self).ctx == old(self).ctx,
            final(self).vals.done(r),
            red(old(self).theory(), t, r@),
            old(self).vals.has_fired(c, t) ==> fires(old(self).theory(), t, r@),
            forall|w: V| #[trigger]
                final(self).vals.holds_at(w, c) ==> final(self).vals.unfolding(w) == Some(r),
    {
        let ghost ctx = self.ctx;
        let ghost th = self.theory();
        let r = self.vals.set_cell(c, v, Ghost(t), Ghost(ctx), Ghost(th));
        proof {
            vcache_grows_vals(ctx, old(self).vals, self.vals, self.vcache, th);
        }
        r
    }

    /// Reads a value.
    pub(crate) fn read_val(&self, v: V) -> (r: Value)
        requires
            self.wf(),
            self.vals.has_val(v),
        ensures
            r.tree() == v@,
            !(r is Thunk) <==> self.vals.done(v),
            self.vals.value_fits(self.ctx, r),
            value_known(self.theory(), r),
            loose(v@) == 0,
            r matches Value::Unfold { forced, .. } ==> self.vals.unfolding(v) == self.vals.kept(forced)
                && self.vals.holds_at(v, forced),
            !(r is Unfold) ==> self.vals.unfolding(v) is None,
            r == self.vals.node(v),
            r is Thunk ==> crate::value::waits(v@),
    {
        proof {
            self.vals.val_closed(self.ctx, self.theory(), v);
        }
        self.vals.read(v)
    }

    /// A universe as a value.
    pub fn mk_sort(&mut self, level: LevelPtr) -> (r: V)
        requires
            old(self).wf(),
            old(self).ctx.has_level(level),
        ensures
            final(self).wf(),
            old(self).evolves(*final(self)),
            final(self).vals.done(r),
            r@ == Tm::Sort(level@),
    {
        self.push_val(Value::Sort { level })
    }

    /// A number literal as a value.
    pub fn mk_natlit(&mut self, ptr: BigUintPtr) -> (r: V)
        requires
            old(self).wf(),
            old(self).ctx.has_big(ptr),
        ensures
            final(self).wf(),
            old(self).evolves(*final(self)),
            final(self).vals.done(r),
            r@ == Tm::NatLit(ptr@),
    {
        self.push_val(Value::NatLit { ptr })
    }

    /// A string literal as a value.
    pub fn mk_strlit(&mut self, ptr: StringPtr) -> (r: V)
        requires
            old(self).wf(),
            old(self).ctx.has_string(ptr),
        ensures
            final(self).wf(),
            old(self).evolves(*final(self)),
            final(self).vals.done(r),
            r@ == Tm::StrLit(ptr@),
    {
        self.push_val(Value::StrLit { ptr })
    }

    /// A function as a value.
    pub fn mk_lam(
        &mut self,
        binder_name: NamePtr,
        binder_style: BinderStyle,
        binder_type: ExprPtr,
        env: E,
        body: ExprPtr,
    ) -> (r: V)
        requires
            old(self).wf(),
            old(self).ctx.has_name(binder_name),
            old(self).ctx.has_expr(binder_type),
            old(self).ctx.has_expr(body),
            old(self).vals.has_env(env),
            loose(binder_type@) <= env@.len(),
            loose(body@) <= env@.len() + 1,
        ensures
            final(self).wf(),
            old(self).evolves(*final(self)),
            final(self).vals.done(r),
            r@ == Tm::Lam(
                binder_name@,
                binder_style,
                Box::new(subst(binder_type@, env@, 0)),
                Box::new(subst(body@, env@, 1)),
            ),
    {
        proof {
            self.vals.env_closed(self.ctx, self.theory(), env);
            subst_loose(binder_type@, env@, 0);
            subst_loose(body@, env@, 1);
        }
        let domain: usize = self.push_cell(Ghost(subst(binder_type@, env@, 0)), Ghost(false));
        self.push_val(
            Value::Lam { binder_name, binder_style, binder_type, domain, env, body },
        )
    }

    /// A function type as a value.
    pub fn mk_pi(
        &mut self,
        binder_name: NamePtr,
        binder_style: BinderStyle,
        domain: V,
        env: E,
        body: ExprPtr,
    ) -> (r: V)
        requires
            old(self).wf(),
            old(self).ctx.has_name(binder_name),
            old(self).vals.has_val(domain),
            old(self).ctx.has_expr(body),
            old(self).vals.has_env(env),
            loose(body@) <= env@.len() + 1,
        ensures
            final(self).wf(),
            old(self).evolves(*final(self)),
            final(self).vals.done(r),
            r@ == Tm::Pi(
                binder_name@,
                binder_style,
                Box::new(domain@),
                Box::new(subst(body@, env@, 1)),
            ),
    {
        proof {
            self.vals.env_closed(self.ctx, self.theory(), env);
            self.vals.val_closed(self.ctx, self.theory(), domain);
            subst_loose(body@, env@, 1);
        }
        self.push_val(Value::Pi { binder_name, binder_style, domain, env, body })
    }

    /// A term that is evaluated later.
    pub fn mk_thunk(&mut self, env: E, expr: ExprPtr) -> (r: V)
        requires
            old(self).wf(),
            old(self).ctx.has_expr(expr),
            old(self).vals.has_env(env),
            loose(expr@) <= env@.len(),
            crate::value::waits(expr@),
        ensures
            final(self).wf(),
            old(self).evolves(*final(self)),
            final(self).vals.has_val(r),
            !final(self).vals.done(r),
            r@ == subst(expr@, env@, 0),
    {
        proof {
            self.vals.env_closed(self.ctx, self.theory(), env);
            subst_loose(expr@, env@, 0);
        }
        let forced: usize = self.push_cell(Ghost(subst(expr@, env@, 0)), Ghost(false));
        self.push_val(Value::Thunk { env, expr, forced })
    }

    /// A head that things are done to.
    pub fn mk_rigid(&mut self, head: RigidHead, spine: S) -> (r: V)
        requires
            old(self).wf(),
            old(self).vals.head_fits(old(self).ctx, head),
            head_known(old(self).theory(), head),
            old(self).vals.has_spine(spine),
        ensures
            final(self).wf(),
            old(self).evolves(*final(self)),
            final(self).ctx == old(self).ctx,
            final(self).vals.done(r),
            r@ == spine_tm(head.tm(), spine@),
    {
        proof {
            self.vals.spine_is_closed(self.ctx, self.theory(), spine);
            spine_closed(head.tm(), spine@);
        }
        self.push_val(Value::Rigid { head, spine })
    }

    /// A head that nothing is done to.
    pub fn mk_rigid_head(&mut self, head: RigidHead) -> (r: V)
        requires
            old(self).wf(),
            old(self).vals.head_fits(old(self).ctx, head),
            head_known(old(self).theory(), head),
        ensures
            final(self).wf(),
            old(self).evolves(*final(self)),
            final(self).ctx == old(self).ctx,
            final(self).vals.done(r),
            r@ == head.tm(),
    {
        let empty = self.empty_spine();
        self.mk_rigid(head, empty)
    }

    /// A constant that unfolds and that things are done to. The place is for what the
    /// constant unfolds to.
    fn mk_unfold(&mut self, name: NamePtr, levels: LevelsPtr, spine: S, head_value: usize) -> (r: V)
        requires
            old(self).wf(),
            valued(old(self).theory(), name@),
            old(self).ctx.has_name(name),
            old(self).ctx.has_levels(levels),
            old(self).vals.has_spine(spine),
            old(self).vals.has_cell(head_value, Tm::Const(name@, levels@)),
        ensures
            final(self).wf(),
            old(self).evolves(*final(self)),
            final(self).ctx == old(self).ctx,
            final(self).vals.done(r),
            r@ == spine_tm(Tm::Const(name@, levels@), spine@),
    {
        let ghost t = spine_tm(Tm::Const(name@, levels@), spine@);
        proof {
            self.vals.spine_is_closed(self.ctx, self.theory(), spine);
            spine_closed(Tm::Const(name@, levels@), spine@);
        }
        let forced: usize = self.push_cell(Ghost(t), Ghost(true));
        self.push_val(Value::Unfold { name, levels, spine, head_value, forced })
    }

    /// A constant that unfolds.
    pub fn mk_unfold_head(&mut self, name: NamePtr, levels: LevelsPtr) -> (r: V)
        requires
            old(self).wf(),
            valued(old(self).theory(), name@),
            old(self).ctx.has_name(name),
            old(self).ctx.has_levels(levels),
        ensures
            final(self).wf(),
            old(self).evolves(*final(self)),
            final(self).ctx == old(self).ctx,
            final(self).vals.done(r),
            r@ == Tm::Const(name@, levels@),
    {
        let cell: usize = self.push_cell(Ghost(Tm::Const(name@, levels@)), Ghost(false));
        let empty = self.empty_spine();
        self.mk_unfold(name, levels, empty, cell)
    }

    /// A variable that evaluation makes up, with its type.
    pub fn mk_bvar_hc(&mut self, level: u32, ty: V) -> (r: V)
        requires
            old(self).wf(),
            old(self).vals.has_val(ty),
        ensures
            final(self).wf(),
            old(self).evolves(*final(self)),
            final(self).ctx == old(self).ctx,
            final(self).vals.done(r),
            r@ == Tm::Free(level as nat, Box::new(ty@)),
    {
        let word: u64 = mix(level as u64, ty.idx as u64);
        if let Some((k, v)) = self.vcache.bvar_hc.get(word) {
            if k.0 == level && k.1.idx == ty.idx {
                proof {
                    self.vals.vals_at(k.1, ty);
                }
                return v;
            }
        }
        let v = self.mk_rigid_head(RigidHead::BVar(level, ty));
        self.vcache.bvar_hc.put(word, (level, ty), v);
        v
    }

    /// A constant that unfolds and that things are done to.
    pub fn mk_unfold_hc(&mut self, name: NamePtr, levels: LevelsPtr, spine: S, head_value: usize) -> (r: V)
        requires
            old(self).wf(),
            valued(old(self).theory(), name@),
            old(self).ctx.has_name(name),
            old(self).ctx.has_levels(levels),
            old(self).vals.has_spine(spine),
            old(self).vals.has_cell(head_value, Tm::Const(name@, levels@)),
        ensures
            final(self).wf(),
            old(self).evolves(*final(self)),
            final(self).ctx == old(self).ctx,
            final(self).vals.done(r),
            r@ == spine_tm(Tm::Const(name@, levels@), spine@),
    {
        let word: u64 = mix(
            mix(name.get_hash(), levels.get_hash()),
            mix(spine.idx as u64, head_value as u64),
        );
        if let Some((k, v)) = self.vcache.unfold_hc.get(word) {
            if self.ctx.eq_name(k.0, name) && self.ctx.eq_levels(k.1, levels) && k.2.idx == spine.idx
                && k.3 == head_value {
                proof {
                    self.vals.spines_at(k.2, spine);
                }
                return v;
            }
        }
        let v = self.mk_unfold(name, levels, spine, head_value);
        self.vcache.unfold_hc.put(word, (name, levels, spine, head_value), v);
        v
    }

    /// The environment with one more value.
    pub fn env_extend_hc(&mut self, parent: E, v: V) -> (r: E)
        requires
            old(self).wf(),
            old(self).vals.has_env(parent),
            old(self).vals.has_val(v),
        ensures
            final(self).wf(),
            old(self).evolves(*final(self)),
            final(self).ctx == old(self).ctx,
            final(self).vals.has_env(r),
            r@ == parent@.push(v@),
    {
        let word: u64 = mix(parent.idx as u64, v.idx as u64);
        if let Some((k, e)) = self.vcache.env_hc.get(word) {
            if k.0.idx == parent.idx && k.1.idx == v.idx {
                proof {
                    self.vals.envs_at(k.0, parent);
                    self.vals.vals_at(k.1, v);
                }
                return e;
            }
        }
        let ghost ctx = self.ctx;
        let ghost th = self.theory();
        let e = self.vals.push_env(parent, v, Ghost(ctx), Ghost(th));
        self.vcache.env_hc.put(word, (parent, v), e);
        e
    }

    fn same_elim(&self, a: Elim, b: Elim) -> (r: bool)
        requires
            self.wf(),
            self.vals.elim_fits(self.ctx, a),
            self.vals.elim_fits(self.ctx, b),
        ensures
            r ==> a.el() == b.el(),
    {
        match (a, b) {
            (Elim::App(v), Elim::App(w)) => {
                if v.idx == w.idx {
                    proof {
                        self.vals.vals_at(v, w);
                    }
                    true
                } else {
                    false
                }
            },
            (Elim::Proj { ty_name: n, idx: i }, Elim::Proj { ty_name: m, idx: j }) => {
                i == j && self.ctx.eq_name(n, m)
            },
            _ => false,
        }
    }

    /// The spine with one more thing done in it.
    pub fn spine_snoc_hc(&mut self, prev: S, elim: Elim) -> (r: Result<S, Stop>)
        requires
            old(self).wf(),
            old(self).vals.has_spine(prev),
            old(self).vals.elim_fits(old(self).ctx, elim),
        ensures
            final(self).wf(),
            old(self).evolves(*final(self)),
            final(self).ctx == old(self).ctx,
            r matches Ok(s) ==> final(self).vals.has_spine(s) && s@ == prev@.push(elim.el()),
            prev@.len() < u32::MAX ==> r is Ok,
            r matches Err(s) ==> s == Stop::SpineTooLong,
    {
        let word: u64 = mix3(elim_key(&elim), prev.idx as u64);
        if let Some((k, s)) = self.vcache.spine_hc.get(word) {
            if k.0.idx == prev.idx && self.same_elim(k.1, elim) {
                proof {
                    self.vals.spines_at(k.0, prev);
                }
                return Ok(s);
            }
        }
        let ghost ctx = self.ctx;
        let ghost th = self.theory();
        match self.vals.push_spine(prev, elim, Ghost(ctx), Ghost(th)) {
            Some(s) => {
                self.vcache.spine_hc.put(word, (prev, elim), s);
                Ok(s)
            },
            None => Err(Stop::SpineTooLong),
        }
    }

    /// Whether two heads are the same, as their pointers say.
    pub fn same_head(&self, a: RigidHead, b: RigidHead) -> (r: bool)
        requires
            self.wf(),
            self.vals.head_fits(self.ctx, a),
            self.vals.head_fits(self.ctx, b),
        ensures
            r ==> a.tm() == b.tm(),
            !r && a is Local && b is Local ==> a.tm() != b.tm(),
    {
        match (a, b) {
            (RigidHead::BVar(l, t), RigidHead::BVar(m, u)) => {
                if l == m && t.idx == u.idx {
                    proof {
                        self.vals.vals_at(t, u);
                    }
                    true
                } else {
                    false
                }
            },
            (RigidHead::Local(e), RigidHead::Local(f)) => self.ctx.eq_expr(e, f),
            (RigidHead::Axiom(n, l), RigidHead::Axiom(m, k)) => {
                self.ctx.eq_name(n, m) && self.ctx.eq_levels(l, k)
            },
            (RigidHead::Ctor(n, l), RigidHead::Ctor(m, k)) => {
                self.ctx.eq_name(n, m) && self.ctx.eq_levels(l, k)
            },
            (RigidHead::Recursor(n, l), RigidHead::Recursor(m, k)) => {
                self.ctx.eq_name(n, m) && self.ctx.eq_levels(l, k)
            },
            (RigidHead::QuotConst(n, l), RigidHead::QuotConst(m, k)) => {
                self.ctx.eq_name(n, m) && self.ctx.eq_levels(l, k)
            },
            (RigidHead::Inductive(n, l), RigidHead::Inductive(m, k)) => {
                self.ctx.eq_name(n, m) && self.ctx.eq_levels(l, k)
            },
            _ => false,
        }
    }

    /// A head that things are done to.
    pub fn mk_rigid_hc(&mut self, head: RigidHead, spine: S) -> (r: V)
        requires
            old(self).wf(),
            old(self).vals.head_fits(old(self).ctx, head),
            head_known(old(self).theory(), head),
            old(self).vals.has_spine(spine),
        ensures
            final(self).wf(),
            old(self).evolves(*final(self)),
            final(self).ctx == old(self).ctx,
            final(self).vals.done(r),
            r@ == spine_tm(head.tm(), spine@),
    {
        let word: u64 = mix3(rigid_head_key(&head), spine.idx as u64);
        if let Some((k, v)) = self.vcache.rigid_hc.get(word) {
            if k.1.idx == spine.idx && self.same_head(k.0, head) {
                proof {
                    self.vals.spines_at(k.1, spine);
                }
                return v;
            }
        }
        let v = self.mk_rigid(head, spine);
        self.vcache.rigid_hc.put(word, (head, spine), v);
        v
    }

    /// A function as a value, with whatever binder name and style came first.
    pub fn mk_lam_hc(
        &mut self,
        binder_name: NamePtr,
        binder_style: BinderStyle,
        binder_type: ExprPtr,
        env: E,
        body: ExprPtr,
    ) -> (r: V)
        requires
            old(self).wf(),
            old(self).ctx.has_name(binder_name),
            old(self).ctx.has_expr(binder_type),
            old(self).ctx.has_expr(body),
            old(self).vals.has_env(env),
            loose(binder_type@) <= env@.len(),
            loose(body@) <= env@.len() + 1,
        ensures
            final(self).wf(),
            old(self).evolves(*final(self)),
            final(self).vals.done(r),
            r@ matches Tm::Lam(_, _, t, b) && *t == subst(binder_type@, env@, 0) && *b == subst(
                body@,
                env@,
                1,
            ),
    {
        let word: u64 = mix(mix(binder_type.get_hash(), env.idx as u64), body.get_hash());
        if let Some((k, v)) = self.vcache.lam_hc.get(word) {
            if self.ctx.eq_expr(k.0, binder_type) && k.1.idx == env.idx && self.ctx.eq_expr(
                k.2,
                body,
            ) {
                proof {
                    self.vals.envs_at(k.1, env);
                }
                return v;
            }
        }
        let v = self.mk_lam(binder_name, binder_style, binder_type, env, body);
        self.vcache.lam_hc.put(word, (binder_type, env, body), v);
        v
    }

    /// A function type as a value, with whatever binder name and style came first.
    pub fn mk_pi_hc(
        &mut self,
        binder_name: NamePtr,
        binder_style: BinderStyle,
        domain: V,
        env: E,
        body: ExprPtr,
    ) -> (r: V)
        requires
            old(self).wf(),
            old(self).ctx.has_name(binder_name),
            old(self).vals.has_val(domain),
            old(self).ctx.has_expr(body),
            old(self).vals.has_env(env),
            loose(body@) <= env@.len() + 1,
        ensures
            final(self).wf(),
            old(self).evolves(*final(self)),
            final(self).vals.done(r),
            r@ matches Tm::Pi(_, _, t, b) && *t == domain@ && *b == subst(body@, env@, 1),
    {
        let word: u64 = mix(mix(domain.idx as u64, env.idx as u64), body.get_hash());
        if let Some((k, v)) = self.vcache.pi_hc.get(word) {
            if k.0.idx == domain.idx && k.1.idx == env.idx && self.ctx.eq_expr(k.2, body) {
                proof {
                    self.vals.vals_at(k.0, domain);
                    self.vals.envs_at(k.1, env);
                }
                return v;
            }
        }
        let v = self.mk_pi(binder_name, binder_style, domain, env, body);
        self.vcache.pi_hc.put(word, (domain, env, body), v);
        v
    }

    /// The first value that had the same content: a universe of the same level, or the same
    /// literal.
    pub fn canon_content(&mut self, disc: u8, content: u64, v: V) -> (r: V)
        requires
            old(self).wf(),
            old(self).vals.done(v),
            old(self).vals.has_val(v),
        ensures
            final(self).wf(),
            old(self).evolves(*final(self)),
            final(self).ctx == old(self).ctx,
            final(self).vals.done(r),
            r@ == v@,
    {
        let word: u64 = mix(content, disc as u64);
        if let Some((k, c)) = self.vcache.content_hc.get(word) {
            proof {
                self.vals.done_evaluated(self.ctx, self.theory(), c);
            }
            if k == disc {
                match (self.read_val(c), self.read_val(v)) {
                    (Value::Sort { level: l }, Value::Sort { level: m }) => {
                        if self.ctx.eq_level(l, m) {
                            return c;
                        }
                    },
                    (Value::NatLit { ptr: p }, Value::NatLit { ptr: q }) => {
                        if p.is_at(q) {
                            proof {
                                self.ctx.bignums_unique(p, q);
                            }
                            return c;
                        }
                    },
                    (Value::StrLit { ptr: p }, Value::StrLit { ptr: q }) => {
                        if p.is_at(q) {
                            proof {
                                self.ctx.strings_unique(p, q);
                            }
                            return c;
                        }
                    },
                    _ => {},
                }
            }
        }
        self.vcache.content_hc.put(word, disc, v);
        v
    }

    /// The remembered canonical form of a value.
    pub(crate) fn recall_canon(&self, v: V) -> (r: Option<V>)
        requires
            self.wf(),
            self.vals.has_val(v),
        ensures
            r matches Some(c) ==> self.vals.done(c) && red(self.theory(), v@, c@),
            r == (match self.vcache.canon_cache.at(v.idx as u64) {
                Some((k, x)) => if k.idx == v.idx {
                    Some(x)
                } else {
                    None
                },
                None => None,
            }),
    {
        match self.vcache.canon_cache.get(v.idx as u64) {
            Some((k, c)) => if k.idx == v.idx {
                proof {
                    self.vals.vals_at(k, v);
                }
                Some(c)
            } else {
                None
            },
            None => None,
        }
    }

    /// Remembers the canonical form of a value.
    pub(crate) fn remember_canon(&mut self, v: V, c: V)
        requires
            old(self).wf(),
            old(self).vals.has_val(v),
            old(self).vals.done(c),
            red(old(self).theory(), v@, c@),
        ensures
            final(self).wf(),
            old(self).evolves(*final(self)),
            final(self).ctx == old(self).ctx,
            final(self).vcache.canon_cache.at(v.idx as u64) == Some((v, c)),
    {
        self.vcache.canon_cache.put(v.idx as u64, v, c);
    }

    /// The remembered value of a closed term.
    pub(crate) fn recall_closed(&self, e: ExprPtr) -> (r: Option<V>)
        requires
            self.wf(),
            self.ctx.has_expr(e),
        ensures
            r matches Some(v) ==> self.vals.done(v) && loose(e@) == 0 && red(
                self.theory(),
                e@,
                v@,
            ),
            r == (match self.vcache.closed_eval_cache.at(e.word()) {
                Some((k, x)) => if k@ == e@ {
                    Some(x)
                } else {
                    None
                },
                None => None,
            }),
    {
        match self.vcache.closed_eval_cache.get(e.get_hash()) {
            Some((k, v)) => if self.ctx.eq_expr(k, e) {
                Some(v)
            } else {
                None
            },
            None => None,
        }
    }

    /// Remembers the value of a closed term.
    pub(crate) fn remember_closed(&mut self, e: ExprPtr, v: V)
        requires
            old(self).wf(),
            old(self).ctx.has_expr(e),
            loose(e@) == 0,
            old(self).vals.done(v),
            red(old(self).theory(), e@, v@),
        ensures
            final(self).wf(),
            old(self).evolves(*final(self)),
            final(self).ctx == old(self).ctx,
            final(self).vcache.closed_eval_cache.at(e.word()) == Some((e, v)),
    {
        self.vcache.closed_eval_cache.put(e.get_hash(), e, v);
    }

    /// The remembered value of a term in an environment.
    pub(crate) fn recall_open(&self, env: E, e: ExprPtr) -> (r: Option<V>)
        requires
            self.wf(),
            self.vals.has_env(env),
            self.ctx.has_expr(e),
        ensures
            r matches Some(v) ==> self.vals.done(v) && red(
                self.theory(),
                subst(e@, env@, 0),
                v@,
            ),
            r == (match self.vcache.open_eval_cache.at(mixed(env.idx as u64, e.word())) {
                Some((k, x)) => if k.0.idx == env.idx && k.1@ == e@ {
                    Some(x)
                } else {
                    None
                },
                None => None,
            }),
    {
        match self.vcache.open_eval_cache.get(mix(env.idx as u64, e.get_hash())) {
            Some((k, v)) => if k.0.idx == env.idx && self.ctx.eq_expr(k.1, e) {
                proof {
                    self.vals.envs_at(k.0, env);
                }
                Some(v)
            } else {
                None
            },
            None => None,
        }
    }

    /// Remembers the value of a term in an environment, where the term was met before.
    pub(crate) fn remember_open(&mut self, env: E, e: ExprPtr, v: V)
        requires
            old(self).wf(),
            old(self).vals.has_env(env),
            old(self).ctx.has_expr(e),
            old(self).vals.done(v),
            red(old(self).theory(), subst(e@, env@, 0), v@),
        ensures
            final(self).wf(),
            old(self).evolves(*final(self)),
            final(self).ctx == old(self).ctx,
            match old(self).vcache.open_eval_seen.at(e.word()) {
                Some((k, _)) => k.at(e),
                None => false,
            } ==> final(self).vcache.open_eval_cache.at(mixed(env.idx as u64, e.word())) == Some(
                ((env, e), v),
            ),
            final(self).vcache.open_eval_seen.at(e.word()) matches Some((k, _)) && k.at(e),
    {
        let seen = match self.vcache.open_eval_seen.get(e.get_hash()) {
            Some((k, _)) => k.is_at(e),
            None => false,
        };
        if seen {
            self.vcache.open_eval_cache.put(mix(env.idx as u64, e.get_hash()), (env, e), v);
        } else {
            self.vcache.open_eval_seen.put(e.get_hash(), e, true);
        }
    }

    /// A free variable as a value.
    pub fn local_value(&mut self, e: ExprPtr) -> (r: V)
        requires
            old(self).wf(),
            old(self).ctx.has_expr(e),
            e@ is Local,
        ensures
            final(self).wf(),
            old(self).evolves(*final(self)),
            final(self).ctx == old(self).ctx,
            final(self).vals.done(r),
            r@ == e@,
    {
        if let Some((k, v)) = self.vcache.local_v_cache.get(e.get_hash()) {
            if self.ctx.eq_expr(k, e) {
                return v;
            }
        }
        let v = self.mk_rigid_head(RigidHead::Local(e));
        self.vcache.local_v_cache.put(e.get_hash(), e, v);
        v
    }

    fn const_hit(&self, k: (NamePtr, LevelsPtr), n: NamePtr, ls: LevelsPtr) -> (r: bool)
        requires
            self.wf(),
            self.ctx.has_name(k.0),
            self.ctx.has_levels(k.1),
            self.ctx.has_name(n),
            self.ctx.has_levels(ls),
        ensures
            r == (k.0@ == n@ && k.1@ == ls@),
    {
        self.ctx.eq_name(k.0, n) && self.ctx.eq_levels(k.1, ls)
    }

    /// The remembered value of a constant.
    pub(crate) fn recall_head_value(&self, n: NamePtr, ls: LevelsPtr) -> (r: Option<V>)
        requires
            self.wf(),
            self.ctx.has_name(n),
            self.ctx.has_levels(ls),
        ensures
            r matches Some(v) ==> self.vals.done(v) && v@ == Tm::Const(n@, ls@),
            r == (match self.vcache.const_head_value_cache.at(mixed(n.word(), ls.word())) {
                Some((k, x)) => if k.0@ == n@ && k.1@ == ls@ {
                    Some(x)
                } else {
                    None
                },
                None => None,
            }),
    {
        match self.vcache.const_head_value_cache.get(mix(n.get_hash(), ls.get_hash())) {
            Some((k, v)) => if self.const_hit(k, n, ls) {
                Some(v)
            } else {
                None
            },
            None => None,
        }
    }

    /// Remembers the value of a constant.
    pub(crate) fn remember_head_value(&mut self, n: NamePtr, ls: LevelsPtr, v: V)
        requires
            old(self).wf(),
            old(self).ctx.has_name(n),
            old(self).ctx.has_levels(ls),
            old(self).vals.done(v),
            v@ == Tm::Const(n@, ls@),
        ensures
            final(self).wf(),
            old(self).evolves(*final(self)),
            final(self).ctx == old(self).ctx,
            final(self).vcache.const_head_value_cache.at(mixed(n.word(), ls.word())) == Some(((n, ls), v)),
    {
        self.vcache.const_head_value_cache.put(mix(n.get_hash(), ls.get_hash()), (n, ls), v);
    }

    /// The remembered type of a constant.
    pub(crate) fn recall_head_type(&self, n: NamePtr, ls: LevelsPtr) -> (r: Option<V>)
        requires
            self.wf(),
            self.ctx.has_name(n),
            self.ctx.has_levels(ls),
        ensures
            r matches Some(v) ==> self.vals.done(v) && inf(
                self.theory(),
                Ck::Loose,
                Tm::Const(n@, ls@),
                v@,
            ),
            r == (match self.vcache.const_head_type_cache.at(mixed(n.word(), ls.word())) {
                Some((k, x)) => if k.0@ == n@ && k.1@ == ls@ {
                    Some(x)
                } else {
                    None
                },
                None => None,
            }),
    {
        match self.vcache.const_head_type_cache.get(mix(n.get_hash(), ls.get_hash())) {
            Some((k, v)) => if self.const_hit(k, n, ls) {
                Some(v)
            } else {
                None
            },
            None => None,
        }
    }

    /// Remembers the type of a constant.
    pub(crate) fn remember_head_type(&mut self, n: NamePtr, ls: LevelsPtr, v: V)
        requires
            old(self).wf(),
            old(self).ctx.has_name(n),
            old(self).ctx.has_levels(ls),
            old(self).vals.done(v),
            inf(old(self).theory(), Ck::Loose, Tm::Const(n@, ls@), v@),
        ensures
            final(self).wf(),
            old(self).evolves(*final(self)),
            final(self).ctx == old(self).ctx,
            final(self).vcache.const_head_type_cache.at(mixed(n.word(), ls.word())) == Some(((n, ls), v)),
    {
        self.vcache.const_head_type_cache.put(mix(n.get_hash(), ls.get_hash()), (n, ls), v);
    }

    /// The remembered level that the type of a constant ends in.
    pub(crate) fn recall_result_level(&self, n: NamePtr, ls: LevelsPtr) -> (r: Option<LevelPtr>)
        requires
            self.wf(),
            self.ctx.has_name(n),
            self.ctx.has_levels(ls),
        ensures
            r matches Some(l) ==> self.ctx.has_level(l) && result_level(
                self.theory(),
                n@,
                ls@,
                l@,
            ),
            r == (match self.vcache.const_result_level_cache.at(mixed(n.word(), ls.word())) {
                Some((k, x)) => if k.0@ == n@ && k.1@ == ls@ {
                    Some(x)
                } else {
                    None
                },
                None => None,
            }),
    {
        match self.vcache.const_result_level_cache.get(mix(n.get_hash(), ls.get_hash())) {
            Some((k, l)) => if self.const_hit(k, n, ls) {
                Some(l)
            } else {
                None
            },
            None => None,
        }
    }

    /// Remembers the level that the type of a constant ends in.
    pub(crate) fn remember_result_level(&mut self, n: NamePtr, ls: LevelsPtr, l: LevelPtr)
        requires
            old(self).wf(),
            old(self).ctx.has_name(n),
            old(self).ctx.has_levels(ls),
            old(self).ctx.has_level(l),
            result_level(old(self).theory(), n@, ls@, l@),
        ensures
            final(self).wf(),
            old(self).evolves(*final(self)),
            final(self).ctx == old(self).ctx,
            final(self).vcache.const_result_level_cache.at(mixed(n.word(), ls.word())) == Some(((n, ls), l)),
    {
        self.vcache.const_result_level_cache.put(mix(n.get_hash(), ls.get_hash()), (n, ls), l);
    }

    /// The remembered value that a constant unfolds to.
    pub(crate) fn recall_unfolded(&self, n: NamePtr, ls: LevelsPtr) -> (r: Option<V>)
        requires
            self.wf(),
            self.ctx.has_name(n),
            self.ctx.has_levels(ls),
        ensures
            r matches Some(v) ==> self.vals.done(v) && red(
                self.theory(),
                Tm::Const(n@, ls@),
                v@,
            ) && (self.theory().delta(n@, ls@) matches Some(d) && red(self.theory(), d, v@)),
            r == (match self.vcache.unfold_const_cache.at(mixed(n.word(), ls.word())) {
                Some((k, x)) => if k.0@ == n@ && k.1@ == ls@ {
                    Some(x)
                } else {
                    None
                },
                None => None,
            }),
    {
        match self.vcache.unfold_const_cache.get(mix(n.get_hash(), ls.get_hash())) {
            Some((k, v)) => if self.const_hit(k, n, ls) {
                Some(v)
            } else {
                None
            },
            None => None,
        }
    }

    /// Remembers the value that a constant unfolds to.
    pub(crate) fn remember_unfolded(&mut self, n: NamePtr, ls: LevelsPtr, v: V)
        requires
            old(self).wf(),
            old(self).ctx.has_name(n),
            old(self).ctx.has_levels(ls),
            old(self).vals.done(v),
            red(old(self).theory(), Tm::Const(n@, ls@), v@),
            old(self).theory().delta(n@, ls@) matches Some(d) && red(old(self).theory(), d, v@),
        ensures
            final(self).wf(),
            old(self).evolves(*final(self)),
            final(self).ctx == old(self).ctx,
            final(self).vcache.unfold_const_cache.at(mixed(n.word(), ls.word())) == Some(((n, ls), v)),
    {
        self.vcache.unfold_const_cache.put(mix(n.get_hash(), ls.get_hash()), (n, ls), v);
    }

    /// The remembered value of a recursor's rule.
    pub(crate) fn recall_rule(&self, e: ExprPtr, ks: LevelsPtr, ls: LevelsPtr) -> (r: Option<V>)
        requires
            self.wf(),
            self.ctx.has_expr(e),
            self.ctx.has_levels(ks),
            self.ctx.has_levels(ls),
        ensures
            r matches Some(v) ==> self.vals.done(v) && red(
                self.theory(),
                tm_lsubst(e@, ks@, ls@),
                v@,
            ),
            r == (match self.vcache.rec_rule_cache.at(mixed(e.word(), ls.word())) {
                Some((k, x)) => if k.0@ == e@ && k.1@ == ks@ && k.2@ == ls@ {
                    Some(x)
                } else {
                    None
                },
                None => None,
            }),
    {
        match self.vcache.rec_rule_cache.get(mix(e.get_hash(), ls.get_hash())) {
            Some((k, v)) => if self.ctx.eq_expr(k.0, e) && self.ctx.eq_levels(k.1, ks)
                && self.ctx.eq_levels(k.2, ls) {
                Some(v)
            } else {
                None
            },
            None => None,
        }
    }

    /// Remembers the value of a recursor's rule.
    pub(crate) fn remember_rule(&mut self, e: ExprPtr, ks: LevelsPtr, ls: LevelsPtr, v: V)
        requires
            old(self).wf(),
            old(self).ctx.has_expr(e),
            old(self).ctx.has_levels(ks),
            old(self).ctx.has_levels(ls),
            old(self).vals.done(v),
            red(old(self).theory(), tm_lsubst(e@, ks@, ls@), v@),
        ensures
            final(self).wf(),
            old(self).evolves(*final(self)),
            final(self).ctx == old(self).ctx,
            final(self).vcache.rec_rule_cache.at(mixed(e.word(), ls.word())) == Some(((e, ks, ls), v)),
    {
        self.vcache.rec_rule_cache.put(mix(e.get_hash(), ls.get_hash()), (e, ks, ls), v);
    }

    /// Whether a recursor was found to be stuck.
    pub(crate) fn is_stuck(&self, v: V) -> (r: bool)
        requires
            self.wf(),
            self.vals.has_val(v),
        ensures
            r ==> !ready(self.theory(), v@) && (self.vals.node(v) is Rigid ==> resting(
                self.theory(),
                v@,
            )),
            r == (match self.vcache.iota_stuck.at(v.idx as u64) {
                Some((k, _)) => k.idx == v.idx,
                None => false,
            }),
    {
        match self.vcache.iota_stuck.get(v.idx as u64) {
            Some((k, _)) => {
                proof {
                    if k.idx == v.idx {
                        self.vals.vals_at(k, v);
                        self.vals.nodes_at(k, v);
                    }
                }
                k.idx == v.idx
            },
            None => false,
        }
    }

    /// Remembers that a recursor is stuck.
    pub(crate) fn remember_stuck(&mut self, v: V)
        requires
            old(self).wf(),
            old(self).vals.has_val(v),
            !ready(old(self).theory(), v@),
            old(self).vals.node(v) is Rigid ==> resting(old(self).theory(), v@),
        ensures
            final(self).wf(),
            old(self).evolves(*final(self)),
            final(self).ctx == old(self).ctx,
            final(self).vcache.iota_stuck.at(v.idx as u64) == Some((v, true)),
    {
        self.vcache.iota_stuck.put(v.idx as u64, v, true);
    }

    /// The remembered value that a recursor reduces to.
    pub(crate) fn recall_iota(&self, v: V) -> (r: Option<V>)
        requires
            self.wf(),
            self.vals.has_val(v),
        ensures
            r matches Some(c) ==> self.vals.done(c) && red(self.theory(), v@, c@) && fires(
                self.theory(),
                v@,
                c@,
            ),
            r == (match self.vcache.iota_cache.at(v.idx as u64) {
                Some((k, x)) => if k.idx == v.idx {
                    Some(x)
                } else {
                    None
                },
                None => None,
            }),
    {
        match self.vcache.iota_cache.get(v.idx as u64) {
            Some((k, c)) => if k.idx == v.idx {
                proof {
                    self.vals.vals_at(k, v);
                }
                Some(c)
            } else {
                None
            },
            None => None,
        }
    }

    /// Remembers the value that a recursor reduces to.
    pub(crate) fn remember_iota(&mut self, v: V, c: V)
        requires
            old(self).wf(),
            old(self).vals.has_val(v),
            old(self).vals.done(c),
            red(old(self).theory(), v@, c@),
            fires(old(self).theory(), v@, c@),
        ensures
            final(self).wf(),
            old(self).evolves(*final(self)),
            final(self).ctx == old(self).ctx,
            final(self).vcache.iota_cache.at(v.idx as u64) == Some((v, c)),
    {
        self.vcache.iota_cache.put(v.idx as u64, v, c);
    }

    /// The remembered constructor of a structure's projections, if it was looked for.
    pub(crate) fn recall_eta(&self, v: V, ind: NamePtr) -> (r: Option<Option<V>>)
        requires
            self.wf(),
            self.vals.has_val(v),
            self.ctx.has_name(ind),
        ensures
            r matches Some(Some(c)) ==> self.vals.done(c) && eta_for(
                self.theory(),
                ind@,
                v@,
                c@,
            ) && eta_made(self.theory(), ind@, v@, c@),
            r == Some(None::<V>) ==> eta_refused(self.theory(), ind@, v@),
            r == (match self.vcache.struct_eta_cache.at(mixed(v.idx as u64, ind.word())) {
                Some((k, x)) => if k.0.idx == v.idx && k.1@ == ind@ {
                    Some(x)
                } else {
                    None
                },
                None => None,
            }),
    {
        match self.vcache.struct_eta_cache.get(mix(v.idx as u64, ind.get_hash())) {
            Some((k, o)) => if k.0.idx == v.idx && self.ctx.eq_name(k.1, ind) {
                proof {
                    self.vals.vals_at(k.0, v);
                }
                Some(o)
            } else {
                None
            },
            None => None,
        }
    }

    /// Remembers the constructor of a structure's projections.
    pub(crate) fn remember_eta(&mut self, v: V, ind: NamePtr, o: Option<V>)
        requires
            old(self).wf(),
            old(self).vals.has_val(v),
            old(self).ctx.has_name(ind),
            o matches Some(c) ==> old(self).vals.done(c) && eta_for(
                old(self).theory(),
                ind@,
                v@,
                c@,
            ) && eta_made(old(self).theory(), ind@, v@, c@),
            o is None ==> eta_refused(old(self).theory(), ind@, v@),
        ensures
            final(self).wf(),
            old(self).evolves(*final(self)),
            final(self).ctx == old(self).ctx,
            final(self).vcache.struct_eta_cache.at(mixed(v.idx as u64, ind.word())) == Some(((v, ind), o)),
    {
        self.vcache.struct_eta_cache.put(mix(v.idx as u64, ind.get_hash()), (v, ind), o);
    }

    /// Whether variables were found in a value.
    pub(crate) fn recall_free(&self, v: V) -> (r: Option<bool>)
        requires
            self.wf(),
            self.vals.has_val(v),
        ensures
            r matches Some(b) ==> (b ==> mentions_free(self.theory(), v@)) && (free_head(v@) ==> b) && (!neutral(v@) ==> !b),
            r == (match self.vcache.fvar_cache.at(v.idx as u64) {
                Some((k, x)) => if k.idx == v.idx {
                    Some(x)
                } else {
                    None
                },
                None => None,
            }),
    {
        match self.vcache.fvar_cache.get(v.idx as u64) {
            Some((k, b)) => if k.idx == v.idx {
                proof {
                    self.vals.vals_at(k, v);
                }
                Some(b)
            } else {
                None
            },
            None => None,
        }
    }

    /// Remembers whether there are variables in a value.
    pub(crate) fn remember_free(&mut self, v: V, b: bool)
        requires
            old(self).wf(),
            old(self).vals.has_val(v),
            b ==> mentions_free(old(self).theory(), v@),
            free_head(v@) ==> b,
            !neutral(v@) ==> !b,
        ensures
            final(self).wf(),
            old(self).evolves(*final(self)),
            final(self).ctx == old(self).ctx,
            final(self).vcache.fvar_cache.at(v.idx as u64) == Some((v, b)),
    {
        self.vcache.fvar_cache.put(v.idx as u64, v, b);
    }

    /// What is remembered of the arguments of a constant.
    pub(crate) fn recall_sig(&self, n: NamePtr, ls: LevelsPtr) -> (r: Option<Sig>)
        requires
            self.wf(),
            self.ctx.has_name(n),
            self.ctx.has_levels(ls),
        ensures
            r matches Some(s) ==> sig_ok(self.theory(), n@, ls@, s),
            r == (match self.vcache.sig_cache.at(mixed(n.word(), ls.word())) {
                Some((k, x)) => if k.0@ == n@ && k.1@ == ls@ {
                    Some(x)
                } else {
                    None
                },
                None => None,
            }),
    {
        match self.vcache.sig_cache.get(mix(n.get_hash(), ls.get_hash())) {
            Some((k, s)) => if self.const_hit(k, n, ls) {
                Some(s)
            } else {
                None
            },
            None => None,
        }
    }

    /// Remembers what is known of the arguments of a constant.
    pub(crate) fn remember_sig(&mut self, n: NamePtr, ls: LevelsPtr, s: Sig)
        requires
            old(self).wf(),
            old(self).ctx.has_name(n),
            old(self).ctx.has_levels(ls),
            sig_ok(old(self).theory(), n@, ls@, s),
        ensures
            final(self).wf(),
            old(self).evolves(*final(self)),
            final(self).ctx == old(self).ctx,
            final(self).vcache.sig_cache.at(mixed(n.word(), ls.word())) == Some(((n, ls), s)),
    {
        self.vcache.sig_cache.put(mix(n.get_hash(), ls.get_hash()), (n, ls), s);
    }

    /// Notes that the arguments of a constant are being looked at, unless they are already.
    pub(crate) fn begin_sig(&mut self, n: NamePtr, ls: LevelsPtr) -> (r: bool)
        requires
            old(self).wf(),
        ensures
            final(self).wf(),
            old(self).evolves(*final(self)),
            final(self).ctx == old(self).ctx,
            r == !old(self).vcache.computes(n, ls),
    {
        let mut i: usize = 0;
        while i < self.vcache.sig_computing.len()
            invariant
                *self == *old(self),
                self.wf(),
                i <= self.vcache.sig_computing@.len(),
                forall|j: int|
                    0 <= j < i ==> !((#[trigger] self.vcache.sig_computing@[j]).0.at(n)
                        && self.vcache.sig_computing@[j].1.at(ls)),
            decreases self.vcache.sig_computing@.len() - i,
        {
            let k = self.vcache.sig_computing[i];
            if k.0.is_at(n) && k.1.is_at(ls) {
                return false;
            }
            i = i + 1;
        }
        self.vcache.sig_computing.push((n, ls));
        true
    }

    /// Notes that what was looked at last is no longer looked at.
    pub(crate) fn end_sig(&mut self)
        requires
            old(self).wf(),
        ensures
            final(self).wf(),
            old(self).evolves(*final(self)),
            final(self).ctx == old(self).ctx,
    {
        self.vcache.sig_computing.pop();
    }
}

} // verus!
