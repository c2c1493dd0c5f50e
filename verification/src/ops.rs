//! Operations on terms: substitution, abstraction, applications.
use crate::cache::Cache;
use crate::ctx::TcCtx;
use crate::env::DeclarInfo;
use crate::expr::Expr;
use crate::ptr::{ExprPtr, LevelsPtr, NamePtr};
use crate::tree::{
    abstr, abstr_no_local, apps, apps_of_head, args, head, subst, subst_closed, tm_lsubst, FVarId,
    Tm,
};
use vstd::prelude::*;

verus! {

/// The trees of a list of pointers.
pub open spec fn trees(ps: Seq<ExprPtr>) -> Seq<Tm> {
    Seq::new(ps.len(), |i: int| ps[i]@)
}

/// Every bound variable that abstraction makes has an index that can be stored.
pub open spec fn abstr_fits(t: Tm, start: nat, open: nat, k: nat) -> bool
    decreases t,
{
    match t {
        Tm::Local(_, _, _, FVarId::DbjLevel(l)) => start <= l < open ==> open - l - 1 + k
            <= u16::MAX,
        Tm::App(f, a) => abstr_fits(*f, start, open, k) && abstr_fits(*a, start, open, k),
        Tm::Lam(_, _, ty, b) => abstr_fits(*ty, start, open, k) && abstr_fits(
            *b,
            start,
            open,
            k + 1,
        ),
        Tm::Pi(_, _, ty, b) => abstr_fits(*ty, start, open, k) && abstr_fits(*b, start, open, k + 1),
        Tm::Let(_, ty, v, b, _) => abstr_fits(*ty, start, open, k) && abstr_fits(*v, start, open, k)
            && abstr_fits(*b, start, open, k + 1),
        Tm::Proj(_, _, s) => abstr_fits(*s, start, open, k),
        _ => true,
    }
}

/// Abstraction makes no bound variables in a term without free variables.
pub proof fn abstr_fits_closed(t: Tm, start: nat, open: nat, k: nat)
    requires
        !crate::tree::has_local(t),
    ensures
        abstr_fits(t, start, open, k),
    decreases t,
{
    match t {
        Tm::App(f, a) => {
            abstr_fits_closed(*f, start, open, k);
            abstr_fits_closed(*a, start, open, k);
        },
        Tm::Lam(_, _, ty, b) => {
            abstr_fits_closed(*ty, start, open, k);
            abstr_fits_closed(*b, start, open, k + 1);
        },
        Tm::Pi(_, _, ty, b) => {
            abstr_fits_closed(*ty, start, open, k);
            abstr_fits_closed(*b, start, open, k + 1);
        },
        Tm::Let(_, ty, v, b, _) => {
            abstr_fits_closed(*ty, start, open, k);
            abstr_fits_closed(*v, start, open, k);
            abstr_fits_closed(*b, start, open, k + 1);
        },
        Tm::Proj(_, _, s) => abstr_fits_closed(*s, start, open, k),
        _ => {},
    }
}

/// From a depth on at which no index could be stored, the depth does not matter.
proof fn abstr_far(t: Tm, start: nat, open: nat, j: nat, k: nat)
    requires
        j > u16::MAX,
        k > u16::MAX,
    ensures
        abstr_fits(t, start, open, j) == abstr_fits(t, start, open, k),
        abstr_fits(t, start, open, k) ==> abstr(t, start, open, j) == abstr(t, start, open, k),
    decreases t,
{
    match t {
        Tm::App(f, a) => {
            abstr_far(*f, start, open, j, k);
            abstr_far(*a, start, open, j, k);
        },
        Tm::Lam(_, _, ty, b) => {
            abstr_far(*ty, start, open, j, k);
            abstr_far(*b, start, open, j + 1, k + 1);
        },
        Tm::Pi(_, _, ty, b) => {
            abstr_far(*ty, start, open, j, k);
            abstr_far(*b, start, open, j + 1, k + 1);
        },
        Tm::Let(_, ty, v, b, _) => {
            abstr_far(*ty, start, open, j, k);
            abstr_far(*v, start, open, j, k);
            abstr_far(*b, start, open, j + 1, k + 1);
        },
        Tm::Proj(_, _, s) => abstr_far(*s, start, open, j, k),
        _ => {},
    }
}

/// The same for the body of a binder.
proof fn abstr_far_under(t: Tm, start: nat, open: nat, k: nat)
    requires
        k > u16::MAX,
    ensures
        match t {
            Tm::Lam(_, _, _, b) => {
                &&& abstr_fits(*b, start, open, k) == abstr_fits(*b, start, open, k + 1)
                &&& abstr_fits(*b, start, open, k) ==> abstr(*b, start, open, k) == abstr(
                    *b,
                    start,
                    open,
                    k + 1,
                )
            },
            Tm::Pi(_, _, _, b) => {
                &&& abstr_fits(*b, start, open, k) == abstr_fits(*b, start, open, k + 1)
                &&& abstr_fits(*b, start, open, k) ==> abstr(*b, start, open, k) == abstr(
                    *b,
                    start,
                    open,
                    k + 1,
                )
            },
            Tm::Let(_, _, _, b, _) => {
                &&& abstr_fits(*b, start, open, k) == abstr_fits(*b, start, open, k + 1)
                &&& abstr_fits(*b, start, open, k) ==> abstr(*b, start, open, k) == abstr(
                    *b,
                    start,
                    open,
                    k + 1,
                )
            },
            _ => true,
        },
{
    match t {
        Tm::Lam(_, _, _, b) => abstr_far(*b, start, open, k + 1, k),
        Tm::Pi(_, _, _, b) => abstr_far(*b, start, open, k + 1, k),
        Tm::Let(_, _, _, b, _) => abstr_far(*b, start, open, k + 1, k),
        _ => {},
    }
}

fn key_word(p: ExprPtr, k: u32) -> (r: u64) {
    p.get_hash().wrapping_add((k as u64).wrapping_mul(0x9e37_79b9_7f4a_7c15))
}

type OpCache = Cache<(ExprPtr, u32), ExprPtr>;

impl<'t> TcCtx<'t> {
    spec fn inst_cached(self, cache: OpCache, env: Seq<Tm>) -> bool {
        forall|k: (ExprPtr, u32), v: ExprPtr| #[trigger]
            cache.holds(k, v) ==> self.has_expr(k.0) && self.has_expr(v) && v@ == subst(
                k.0@,
                env,
                k.1 as nat,
            )
    }

    spec fn abstr_cached(self, cache: OpCache, start: nat, open: nat) -> bool {
        forall|k: (ExprPtr, u32), v: ExprPtr| #[trigger]
            cache.holds(k, v) ==> self.has_expr(k.0) && self.has_expr(v) && v@ == abstr(
                k.0@,
                start,
                open,
                k.1 as nat,
            ) && abstr_fits(k.0@, start, open, k.1 as nat)
    }

    spec fn lsubst_cached(self, cache: OpCache, ks: LevelsPtr, vs: LevelsPtr) -> bool {
        forall|k: (ExprPtr, u32), v: ExprPtr| #[trigger]
            cache.holds(k, v) ==> self.has_expr(k.0) && self.has_expr(v) && v@ == tm_lsubst(
                k.0@,
                ks@,
                vs@,
            )
    }

    /// The term with its loose variables replaced, the innermost by the last of `substs`.
    pub fn inst(&mut self, e: ExprPtr, substs: &Vec<ExprPtr>) -> (r: ExprPtr)
        requires
            old(self).wf(),
            old(self).has_expr(e),
            old(self).has_exprs(substs@),
        ensures
            final(self).wf(),
            old(self).grows_to(*final(self)),
            final(self).has_expr(r),
            r@ == subst(e@, trees(substs@), 0),
    {
        let mut cache: OpCache = Cache::new();
        self.inst_aux(e, substs, 0, &mut cache)
    }

    /// The body of a binder with the bound variable replaced.
    pub fn inst_one(&mut self, e: ExprPtr, a: ExprPtr) -> (r: ExprPtr)
        requires
            old(self).wf(),
            old(self).has_expr(e),
            old(self).has_expr(a),
        ensures
            final(self).wf(),
            old(self).grows_to(*final(self)),
            final(self).has_expr(r),
            r@ == crate::tree::inst1(e@, a@),
    {
        let mut substs: Vec<ExprPtr> = Vec::new();
        substs.push(a);
        assert(trees(substs@) =~= seq![a@]);
        self.inst(e, &substs)
    }

    fn inst_aux(
        &mut self,
        e: ExprPtr,
        substs: &Vec<ExprPtr>,
        offset: u32,
        cache: &mut OpCache,
    ) -> (r: ExprPtr)
        requires
            old(self).wf(),
            old(self).has_expr(e),
            old(self).has_exprs(substs@),
            old(self).inst_cached(*old(cache), trees(substs@)),
        ensures
            final(self).wf(),
            old(self).grows_to(*final(self)),
            final(self).has_expr(r),
            r@ == subst(e@, trees(substs@), offset as nat),
            final(self).inst_cached(*final(cache), trees(substs@)),
        decreases e@,
    {
        if self.num_loose_bvars(e) <= offset {
            proof {
                subst_closed(e@, trees(substs@), offset as nat);
            }
            return e;
        }
        let word: u64 = key_word(e, offset);
        if let Some((k, v)) = cache.get(word) {
            if k.1 == offset && self.eq_expr(k.0, e) {
                return v;
            }
        }
        let r = match self.read_expr(e) {
            Expr::Var { dbj_idx, .. } => {
                let i: u32 = dbj_idx as u32 - offset;
                if (i as usize) < substs.len() {
                    substs[substs.len() - 1 - i as usize]
                } else {
                    e
                }
            },
            Expr::App { fun, arg, .. } => {
                let fun = self.inst_aux(fun, substs, offset, cache);
                let arg = self.inst_aux(arg, substs, offset, cache);
                self.mk_app(fun, arg)
            },
            Expr::Lambda { binder_name, binder_style, binder_type, body, .. } => {
                let binder_type = self.inst_aux(binder_type, substs, offset, cache);
                let body = self.inst_aux(body, substs, offset + 1, cache);
                self.mk_lambda(binder_name, binder_style, binder_type, body)
            },
            Expr::Pi { binder_name, binder_style, binder_type, body, .. } => {
                let binder_type = self.inst_aux(binder_type, substs, offset, cache);
                let body = self.inst_aux(body, substs, offset + 1, cache);
                self.mk_pi(binder_name, binder_style, binder_type, body)
            },
            Expr::Let { binder_name, binder_type, val, body, nondep, .. } => {
                let binder_type = self.inst_aux(binder_type, substs, offset, cache);
                let val = self.inst_aux(val, substs, offset, cache);
                let body = self.inst_aux(body, substs, offset + 1, cache);
                self.mk_let(binder_name, binder_type, val, body, nondep)
            },
            Expr::Proj { ty_name, idx, structure, .. } => {
                let structure = self.inst_aux(structure, substs, offset, cache);
                self.mk_proj(ty_name, idx, structure)
            },
            _ => e,
        };
        cache.put(word, (e, offset), r);
        r
    }

    /// The term with the variables of the binders that were opened from `start_pos` on made
    /// into bound variables. There is none where an index would be too large to store.
    pub fn abstr_levels(&mut self, e: ExprPtr, start_pos: u16) -> (r: Option<ExprPtr>)
        requires
            old(self).wf(),
            old(self).has_expr(e),
        ensures
            final(self).wf(),
            old(self).grows_to(*final(self)),
            r is Some <==> abstr_fits(
                e@,
                start_pos as nat,
                old(self).dbj_level_counter as nat,
                0,
            ),
            r matches Some(p) ==> final(self).has_expr(p) && p@ == abstr(
                e@,
                start_pos as nat,
                old(self).dbj_level_counter as nat,
                0,
            ),
    {
        let mut cache: OpCache = Cache::new();
        let open: u16 = self.dbj_level_counter;
        self.abstr_aux(e, start_pos, open, 0, &mut cache)
    }

    fn abstr_aux(
        &mut self,
        e: ExprPtr,
        start: u16,
        open: u16,
        offset: u32,
        cache: &mut OpCache,
    ) -> (r: Option<ExprPtr>)
        requires
            old(self).wf(),
            old(self).has_expr(e),
            old(self).abstr_cached(*old(cache), start as nat, open as nat),
        ensures
            final(self).wf(),
            old(self).grows_to(*final(self)),
            r is Some <==> abstr_fits(e@, start as nat, open as nat, offset as nat),
            r matches Some(p) ==> final(self).has_expr(p) && p@ == abstr(
                e@,
                start as nat,
                open as nat,
                offset as nat,
            ),
            final(self).abstr_cached(*final(cache), start as nat, open as nat),
        decreases e@,
    {
        if !self.has_fvars(e) {
            proof {
                abstr_no_local(e@, start as nat, open as nat, offset as nat);
                abstr_fits_closed(e@, start as nat, open as nat, offset as nat);
            }
            return Some(e);
        }
        let word: u64 = key_word(e, offset);
        if let Some((k, v)) = cache.get(word) {
            if k.1 == offset && self.eq_expr(k.0, e) {
                return Some(v);
            }
        }
        let next: u32 = if offset == 0xffff_ffff {
            offset
        } else {
            offset + 1
        };
        proof {
            if offset == 0xffff_ffff {
                abstr_far_under(e@, start as nat, open as nat, offset as nat);
            }
        }
        let r = match self.read_expr(e) {
            Expr::Local { id: FVarId::DbjLevel(l), .. } => {
                if start <= l && l < open {
                    let i: u64 = (open - l - 1) as u64 + offset as u64;
                    if i > 0xffff {
                        return None;
                    }
                    self.mk_var(i as u16)
                } else {
                    e
                }
            },
            Expr::App { fun, arg, .. } => {
                let fun = match self.abstr_aux(fun, start, open, offset, cache) {
                    Some(p) => p,
                    None => {
                        return None;
                    },
                };
                let arg = match self.abstr_aux(arg, start, open, offset, cache) {
                    Some(p) => p,
                    None => {
                        return None;
                    },
                };
                self.mk_app(fun, arg)
            },
            Expr::Lambda { binder_name, binder_style, binder_type, body, .. } => {
                let binder_type = match self.abstr_aux(binder_type, start, open, offset, cache) {
                    Some(p) => p,
                    None => {
                        return None;
                    },
                };
                let body = match self.abstr_aux(body, start, open, next, cache) {
                    Some(p) => p,
                    None => {
                        return None;
                    },
                };
                self.mk_lambda(binder_name, binder_style, binder_type, body)
            },
            Expr::Pi { binder_name, binder_style, binder_type, body, .. } => {
                let binder_type = match self.abstr_aux(binder_type, start, open, offset, cache) {
                    Some(p) => p,
                    None => {
                        return None;
                    },
                };
                let body = match self.abstr_aux(body, start, open, next, cache) {
                    Some(p) => p,
                    None => {
                        return None;
                    },
                };
                self.mk_pi(binder_name, binder_style, binder_type, body)
            },
            Expr::Let { binder_name, binder_type, val, body, nondep, .. } => {
                let binder_type = match self.abstr_aux(binder_type, start, open, offset, cache) {
                    Some(p) => p,
                    None => {
                        return None;
                    },
                };
                let val = match self.abstr_aux(val, start, open, offset, cache) {
                    Some(p) => p,
                    None => {
                        return None;
                    },
                };
                let body = match self.abstr_aux(body, start, open, next, cache) {
                    Some(p) => p,
                    None => {
                        return None;
                    },
                };
                self.mk_let(binder_name, binder_type, val, body, nondep)
            },
            Expr::Proj { ty_name, idx, structure, .. } => {
                let structure = match self.abstr_aux(structure, start, open, offset, cache) {
                    Some(p) => p,
                    None => {
                        return None;
                    },
                };
                self.mk_proj(ty_name, idx, structure)
            },
            _ => e,
        };
        cache.put(word, (e, offset), r);
        Some(r)
    }

    /// The term with the universe parameters `ks` replaced by `vs`.
    pub fn subst_expr_levels(&mut self, e: ExprPtr, ks: LevelsPtr, vs: LevelsPtr) -> (r: ExprPtr)
        requires
            old(self).wf(),
            old(self).has_expr(e),
            old(self).has_levels(ks),
            old(self).has_levels(vs),
        ensures
            final(self).wf(),
            old(self).grows_to(*final(self)),
            final(self).has_expr(r),
            r@ == tm_lsubst(e@, ks@, vs@),
    {
        let mut cache: OpCache = Cache::new();
        self.subst_aux(e, ks, vs, &mut cache)
    }

    /// The type of a declaration with its universe parameters replaced.
    pub fn subst_declar_info_levels(&mut self, info: DeclarInfo, vs: LevelsPtr) -> (r: ExprPtr)
        requires
            old(self).wf(),
            old(self).has_expr(info.ty),
            old(self).has_levels(info.uparams),
            old(self).has_levels(vs),
        ensures
            final(self).wf(),
            old(self).grows_to(*final(self)),
            final(self).has_expr(r),
            r@ == tm_lsubst(info.ty@, info.uparams@, vs@),
    {
        self.subst_expr_levels(info.ty, info.uparams, vs)
    }

    fn subst_aux(
        &mut self,
        e: ExprPtr,
        ks: LevelsPtr,
        vs: LevelsPtr,
        cache: &mut OpCache,
    ) -> (r: ExprPtr)
        requires
            old(self).wf(),
            old(self).has_expr(e),
            old(self).has_levels(ks),
            old(self).has_levels(vs),
            old(self).lsubst_cached(*old(cache), ks, vs),
        ensures
            final(self).wf(),
            old(self).grows_to(*final(self)),
            final(self).has_expr(r),
            r@ == tm_lsubst(e@, ks@, vs@),
            final(self).lsubst_cached(*final(cache), ks, vs),
        decreases e@,
    {
        let word: u64 = e.get_hash();
        if let Some((k, v)) = cache.get(word) {
            if self.eq_expr(k.0, e) {
                return v;
            }
        }
        let r = match self.read_expr(e) {
            Expr::Sort { level, .. } => {
                let level = self.subst_level(level, ks, vs);
                self.mk_sort(level)
            },
            Expr::Const { name, levels, .. } => {
                let levels = self.subst_levels(levels, ks, vs);
                self.mk_const(name, levels)
            },
            Expr::App { fun, arg, .. } => {
                let fun = self.subst_aux(fun, ks, vs, cache);
                let arg = self.subst_aux(arg, ks, vs, cache);
                self.mk_app(fun, arg)
            },
            Expr::Lambda { binder_name, binder_style, binder_type, body, .. } => {
                let binder_type = self.subst_aux(binder_type, ks, vs, cache);
                let body = self.subst_aux(body, ks, vs, cache);
                self.mk_lambda(binder_name, binder_style, binder_type, body)
            },
            Expr::Pi { binder_name, binder_style, binder_type, body, .. } => {
                let binder_type = self.subst_aux(binder_type, ks, vs, cache);
                let body = self.subst_aux(body, ks, vs, cache);
                self.mk_pi(binder_name, binder_style, binder_type, body)
            },
            Expr::Let { binder_name, binder_type, val, body, nondep, .. } => {
                let binder_type = self.subst_aux(binder_type, ks, vs, cache);
                let val = self.subst_aux(val, ks, vs, cache);
                let body = self.subst_aux(body, ks, vs, cache);
                self.mk_let(binder_name, binder_type, val, body, nondep)
            },
            Expr::Proj { ty_name, idx, structure, .. } => {
                let structure = self.subst_aux(structure, ks, vs, cache);
                self.mk_proj(ty_name, idx, structure)
            },
            _ => e,
        };
        cache.put(word, (e, 0), r);
        r
    }

    /// The head of a term and the arguments in order.
    pub fn unfold_apps(&self, e: ExprPtr) -> (r: (ExprPtr, Vec<ExprPtr>))
        requires
            self.wf(),
            self.has_expr(e),
        ensures
            self.has_expr(r.0),
            r.0@ == head(e@),
            !(r.0@ is App),
            self.has_exprs(r.1@),
            trees(r.1@) == args(e@),
            apps(r.0@, trees(r.1@)) == e@,
        decreases e@,
    {
        proof {
            apps_of_head(e@);
        }
        match self.read_expr(e) {
            Expr::App { fun, arg, .. } => {
                assert(e@ matches Tm::App(f, a) && *f == fun@);
                let (f, mut xs) = self.unfold_apps(fun);
                let ghost before = xs@;
                xs.push(arg);
                assert(trees(xs@) =~= trees(before).push(arg@));
                (f, xs)
            },
            _ => {
                let xs: Vec<ExprPtr> = Vec::new();
                assert(trees(xs@) =~= Seq::<Tm>::empty());
                (e, xs)
            },
        }
    }

    /// The head of a term and the arguments, the first of which comes last.
    pub fn unfold_apps_stack(&self, e: ExprPtr) -> (r: (ExprPtr, Vec<ExprPtr>))
        requires
            self.wf(),
            self.has_expr(e),
        ensures
            self.has_expr(r.0),
            r.0@ == head(e@),
            self.has_exprs(r.1@),
            trees(r.1@) == args(e@).reverse(),
    {
        let (f, xs) = self.unfold_apps(e);
        let mut out: Vec<ExprPtr> = Vec::new();
        let mut i: usize = xs.len();
        while i > 0
            invariant
                i <= xs@.len(),
                self.has_exprs(xs@),
                self.has_exprs(out@),
                out@.len() == xs@.len() - i,
                forall|j: int| 0 <= j < out@.len() ==> out@[j] == xs@[xs@.len() - 1 - j],
            decreases i,
        {
            i = i - 1;
            out.push(xs[i]);
        }
        assert(trees(out@) =~= trees(xs@).reverse());
        (f, out)
    }

    /// The head of a term.
    pub fn unfold_apps_fun(&self, e: ExprPtr) -> (r: ExprPtr)
        requires
            self.wf(),
            self.has_expr(e),
        ensures
            self.has_expr(r),
            r@ == head(e@),
        decreases e@,
    {
        match self.read_expr(e) {
            Expr::App { fun, .. } => {
                assert(e@ matches Tm::App(f, _) && *f == fun@);
                self.unfold_apps_fun(fun)
            },
            _ => e,
        }
    }

    /// The name and levels of a constant.
    pub fn try_const_info(&self, e: ExprPtr) -> (r: Option<(NamePtr, LevelsPtr)>)
        requires
            self.wf(),
            self.has_expr(e),
        ensures
            match r {
                Some((n, ls)) => self.has_name(n) && self.has_levels(ls) && e@ == Tm::Const(n@, ls@),
                None => !(e@ is Const),
            },
    {
        match self.read_expr(e) {
            Expr::Const { name, levels, .. } => Some((name, levels)),
            _ => None,
        }
    }

    /// The constant at the head of a term, its name and levels, and the arguments in order.
    pub fn unfold_const_apps(&self, e: ExprPtr) -> (r: Option<
        (ExprPtr, NamePtr, LevelsPtr, Vec<ExprPtr>),
    >)
        requires
            self.wf(),
            self.has_expr(e),
        ensures
            match r {
                Some((f, n, ls, xs)) => {
                    &&& self.has_expr(f)
                    &&& self.has_name(n)
                    &&& self.has_levels(ls)
                    &&& self.has_exprs(xs@)
                    &&& f@ == Tm::Const(n@, ls@)
                    &&& f@ == head(e@)
                    &&& trees(xs@) == args(e@)
                    &&& apps(f@, trees(xs@)) == e@
                },
                None => !(head(e@) is Const),
            },
    {
        let (f, xs) = self.unfold_apps(e);
        match self.try_const_info(f) {
            Some((n, ls)) => Some((f, n, ls, xs)),
            None => None,
        }
    }

    /// A term applied to the arguments from one position up to another.
    pub fn foldl_apps(&mut self, f: ExprPtr, xs: &Vec<ExprPtr>, from: usize, to: usize) -> (r: ExprPtr)
        requires
            old(self).wf(),
            old(self).has_expr(f),
            old(self).has_exprs(xs@),
            from <= to <= xs@.len(),
        ensures
            final(self).wf(),
            old(self).grows_to(*final(self)),
            final(self).has_expr(r),
            r@ == apps(f@, trees(xs@).subrange(from as int, to as int)),
    {
        let mut r = f;
        let mut i: usize = from;
        assert(trees(xs@).subrange(from as int, from as int) =~= Seq::<Tm>::empty());
        while i < to
            invariant
                from <= i <= to <= xs@.len(),
                self.wf(),
                old(self).grows_to(*self),
                self.has_expr(r),
                self.has_exprs(xs@),
                r@ == apps(f@, trees(xs@).subrange(from as int, i as int)),
            decreases to - i,
        {
            let ghost done = trees(xs@).subrange(from as int, i as int);
            r = self.mk_app(r, xs[i]);
            proof {
                crate::tree::apps_push(f@, done, xs@[i as int]@);
                assert(trees(xs@).subrange(from as int, i + 1) =~= done.push(xs@[i as int]@));
            }
            i = i + 1;
        }
        r
    }
}

} // verus!
