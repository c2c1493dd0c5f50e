//! Type inference.
use crate::checker::{acts, ck_of, fits_grows, full, inert, reduced, InferFlag, Stop, TypeChecker};
use crate::env::DeclarInfo;
use crate::expr::Expr;
use crate::judge::{
    close, core_head, ctor_type, holds, levels_declared, not_prop_sort, opened, plain, projections,
    unfolds, Ck, Judg, Theory,
};
use crate::laws::{
    field_data, field_prop, fields_nil, fields_snoc, inf, inf_app, inf_const, inf_lam, inf_let,
    inf_local, inf_loose, inf_nat, inf_pi, inf_proj, inf_sort, inf_str, prop, prop_intro, red,
    red_refl, tele_nil, tele_snoc,
};
use crate::ops::{abstr_fits, trees};
use crate::ptr::{ExprPtr, LevelPtr, LevelsPtr, NamePtr};
use crate::steps::{
    args_check_at, args_check_next, checks_at, checks_first, level_checks_at, level_checks_first,
    sort_checks_at, fields_at, fields_next, fields_none, fields_says, fields_take, level_says, params_at,
    params_next, params_none, params_says, params_take, pi_at, pi_first, pi_level_at, pi_level_first,
    pi_says, prop_at, prop_first, prop_says, proj_type_at, proj_type_first, proj_type_says, sort_at,
    sort_first, sort_says, spine_next, spine_none, spine_says, spine_take, spine_type_at, type_at,
    type_first, type_says, type_whnf_at, type_whnf_first, type_whnf_says, whnf_at, whnf_says, zero_at,
    zero_first, zero_says,
};
use crate::tree::{
    apps, apps_push, args, depth_bound, head, inst1, lv_simplify, subst_closed, tm_lsubst, Lv, Tm,
};
use vstd::prelude::*;

verus! {

broadcast use {
    fits_grows,
    crate::value::vals_fit_grows,
    crate::vcache::vcache_grows_ctx,
};

/// The type of the term is found to be something else than the universe of propositions.
pub open spec fn no_prop(th: Theory, e: Tm) -> bool {
    exists|s: Tm| #[trigger] inf(th, Ck::Only, e, s) && not_prop_sort(th, s)
}

/// The type of the term is found to be a universe of the given level.
pub open spec fn sort_found(th: Theory, ck: Ck, e: Tm, l: Lv) -> bool {
    exists|s: Tm| #[trigger] inf(th, ck, e, s) && red(th, s, Tm::Sort(l))
}

/// The type of a variable, a universe, a constant or a number, which no reduction is needed
/// to find.
pub open spec fn direct(th: Theory, ck: Ck, e: Tm) -> Option<Tm> {
    match e {
        Tm::Local(_, _, ty, _) => Some(*ty),
        Tm::Sort(l) => if levels_declared(ck, seq![l]) {
            Some(Tm::Sort(Lv::Succ(Box::new(l))))
        } else {
            None
        },
        Tm::Const(n, ls) => if th.decls.contains_key(n) && levels_declared(ck, ls) {
            Some(tm_lsubst(th.decls[n].about().ty@, th.decls[n].about().uparams@, ls))
        } else {
            None
        },
        Tm::NatLit(_) => match th.names.nat {
            Some(n) => if th.nat_ext {
                Some(plain(n@))
            } else {
                None
            },
            None => None,
        },
        _ => None,
    }
}

/// A function type with the arguments put in the places of its variables one by one.
pub open spec fn pi_apply(t: Tm, xs: Seq<Tm>) -> Option<Tm>
    decreases xs.len(),
{
    if xs.len() == 0 {
        Some(t)
    } else {
        match pi_apply(t, xs.drop_last()) {
            Some(Tm::Pi(_, _, _, b)) => Some(inst1(*b, xs.last())),
            _ => None,
        }
    }
}

/// A function type that takes a list of arguments takes the first ones of it.
pub proof fn pi_apply_take(t: Tm, xs: Seq<Tm>, i: int)
    requires
        pi_apply(t, xs) is Some,
        0 <= i <= xs.len(),
    ensures
        pi_apply(t, xs.take(i)) is Some,
    decreases xs.len(),
{
    if i < xs.len() {
        pi_apply_take(t, xs.drop_last(), i);
        assert(xs.drop_last().take(i) =~= xs.take(i));
    } else {
        assert(xs.take(i) =~= xs);
    }
}

/// The levels of a function type's domain and of its range, where the universes that these
/// are in are found directly. A variable of depth `k` stands for the bound one.
pub open spec fn pi_sorts(th: Theory, ck: Ck, e: Tm, k: u16) -> Option<(Lv, Lv)> {
    match e {
        Tm::Pi(n, s, ty, b) => match (
            direct(th, ck, *ty),
            direct(th, ck, inst1(*b, opened(n, s, *ty, k))),
        ) {
            (Some(Tm::Sort(u)), Some(Tm::Sort(v))) => if depth_bound(e) <= k < 0xffff {
                Some((lv_simplify(u), lv_simplify(v)))
            } else {
                None
            },
            _ => None,
        },
        _ => None,
    }
}

/// The type of a structure's field, where the structure's type is found directly, is a
/// constant and no proposition, and the constructor's type is written out as a function type.
pub open spec fn field_type(th: Theory, ck: Ck, s: Tm, i: nat) -> Option<Tm> {
    match direct(th, ck, s) {
        Some(Tm::Const(ind, ls)) => match (
            th.inductive(ind),
            ctor_type(th, ind, ls),
            direct(th, Ck::Only, Tm::Const(ind, ls)),
        ) {
            (Some(d), Some(cty), Some(Tm::Sort(l))) => if !acts(th, ind) && d.num_params == 0
                && lv_simplify(l) != Lv::Zero {
                match pi_apply(cty, projections(ind, s, i)) {
                    Some(Tm::Pi(_, _, a, _)) => Some(*a),
                    _ => None,
                }
            } else {
                None
            },
            _ => None,
        },
        _ => None,
    }
}

/// The function type takes one more argument.
proof fn pi_apply_next(t: Tm, xs: Seq<Tm>, i: int)
    requires
        pi_apply(t, xs) is Some,
        0 <= i < xs.len(),
    ensures
        pi_apply(t, xs.take(i)) matches Some(Tm::Pi(_, _, _, b)) && pi_apply(t, xs.take(i + 1))
            == Some(inst1(*b, xs[i])),
{
    pi_apply_take(t, xs, i + 1);
    assert(xs.take(i + 1).drop_last() =~= xs.take(i));
}

impl<'t> TypeChecker<'t> {
    /// Infers the type of a term.
    pub fn infer(&mut self, e: ExprPtr, flag: InferFlag, fuel: u64) -> (r: Result<ExprPtr, Stop>)
        requires
            old(self).wf(),
            old(self).ctx.has_expr(e),
        ensures
            final(self).wf(),
            old(self).evolves(*final(self)),
            r matches Ok(t) ==> final(self).ctx.has_expr(t) && inf(
                old(self).theory(),
                ck_of(old(self).declar_info, flag),
                e@,
                t@,
            ) && type_says(old(self).theory(), e@, t@),
            flag is InferOnly && type_at(old(self).theory(), e@, fuel as nat) is Some ==> r is Ok,
            e@ is App || e@ is Pi || e@ is Lam || e@ is Let || e@ is Proj ==> {
                &&& flag is Check ==> (r matches Ok(t) ==> (final(self).tc_cache.infer_cache_check.at(e.word()) matches Some((k, x)) && k@ == e@ && x == t))
                &&& old(self).tc_cache.infer_cache_check.at(e.word()) matches Some((k, x)) ==> (k@
                    == e@ ==> r == Ok::<ExprPtr, Stop>(x))
            },
            match e@ {
                Tm::Local(_, _, ty, _) => r matches Ok(t) && t@ == *ty,
                Tm::Var(_) => r == Err::<ExprPtr, Stop>(Stop::LooseVariable),
                Tm::Sort(l) => if levels_declared(ck_of(old(self).declar_info, flag), seq![l]) {
                    r matches Ok(t) && t@ == Tm::Sort(Lv::Succ(Box::new(l)))
                } else {
                    r == Err::<ExprPtr, Stop>(Stop::UndefinedUniverse)
                },
                Tm::Const(n, ls) => if !old(self).theory().decls.contains_key(n) {
                    r == Err::<ExprPtr, Stop>(Stop::UnknownConst)
                } else if !levels_declared(ck_of(old(self).declar_info, flag), ls) {
                    r == Err::<ExprPtr, Stop>(Stop::UndefinedUniverse)
                } else {
                    r matches Ok(t) && t@ == tm_lsubst(
                        old(self).theory().decls[n].about().ty@,
                        old(self).theory().decls[n].about().uparams@,
                        ls,
                    )
                },
                Tm::NatLit(_) => match old(self).theory().names.nat {
                    Some(n) => if old(self).theory().nat_ext {
                        r matches Ok(t) && t@ == plain(n@)
                    } else {
                        r == Err::<ExprPtr, Stop>(Stop::NoLiterals)
                    },
                    None => r == Err::<ExprPtr, Stop>(Stop::NoLiterals),
                },
                Tm::StrLit(_) => match old(self).theory().names.string {
                    Some(n) => if old(self).ctx.string_extension {
                        r matches Ok(t) && t@ == plain(n@)
                    } else {
                        r == Err::<ExprPtr, Stop>(Stop::NoLiterals)
                    },
                    None => r == Err::<ExprPtr, Stop>(Stop::NoLiterals),
                },
                _ => true,
            },
            flag is Check && checks_at(old(self).theory(), full(old(self).declar_info), e@, fuel as nat)
                ==> r is Ok,
        decreases fuel,
    {
        let ghost th = self.theory();
        let ghost ck = ck_of(self.declar_info, flag);
        proof {
            type_first(th, e@);
            checks_first(th, full(self.declar_info), e@);
            reveal(type_says);
        }
        let first = self.ctx.read_expr(e);
        match first {
            Expr::Local { binder_type, .. } => {
                proof {
                    inf_local(th, ck, e@);
                }
                return Ok(binder_type);
            },
            Expr::Var { .. } => {
                return Err(Stop::LooseVariable);
            },
            Expr::Sort { level, .. } => {
                return self.infer_sort(level, flag);
            },
            Expr::Const { name, levels, .. } => {
                return self.infer_const(name, levels, flag);
            },
            Expr::NatLit { .. } => {
                if !self.ctx.nat_extension {
                    return Err(Stop::NoLiterals);
                }
                return match self.ctx.nat_type() {
                    Some(t) => {
                        proof {
                            inf_nat(th, ck, e@->NatLit_0);
                        }
                        Ok(t)
                    },
                    None => Err(Stop::NoLiterals),
                };
            },
            Expr::StringLit { .. } => {
                if !self.ctx.string_extension {
                    return Err(Stop::NoLiterals);
                }
                return match self.ctx.string_type() {
                    Some(t) => {
                        proof {
                            inf_str(th, ck, e@->StrLit_0);
                        }
                        Ok(t)
                    },
                    None => Err(Stop::NoLiterals),
                };
            },
            _ => {},
        }
        if let Some(cached) = self.recall_infer(e, flag) {
            return Ok(cached);
        }
        if fuel == 0 {
            return Err(Stop::OutOfFuel);
        }
        let r = match first {
            Expr::App { .. } => self.infer_app(e, flag, fuel - 1)?,
            Expr::Pi { .. } => self.infer_pi(e, flag, fuel - 1)?,
            Expr::Lambda { .. } => self.infer_lambda(e, flag, fuel - 1)?,
            Expr::Let { .. } => self.infer_let(e, flag, fuel - 1)?,
            Expr::Proj { ty_name, idx, structure, .. } => {
                self.infer_proj(ty_name, idx, structure, flag, fuel - 1)?
            },
            _ => {
                return Err(Stop::LooseVariable);
            },
        };
        self.remember_infer(e, r, flag);
        Ok(r)
    }

    /// The type of a universe.
    pub fn infer_sort(&mut self, l: LevelPtr, flag: InferFlag) -> (r: Result<ExprPtr, Stop>)
        requires
            old(self).wf(),
            old(self).ctx.has_level(l),
        ensures
            final(self).wf(),
            old(self).evolves(*final(self)),
            if levels_declared(ck_of(old(self).declar_info, flag), seq![l@]) {
                r matches Ok(t) && final(self).ctx.has_expr(t) && t@ == Tm::Sort(
                    Lv::Succ(Box::new(l@)),
                ) && inf(
                    old(self).theory(),
                    ck_of(old(self).declar_info, flag),
                    Tm::Sort(l@),
                    t@,
                )
            } else {
                r == Err::<ExprPtr, Stop>(Stop::UndefinedUniverse)
            },
    {
        let ghost th = self.theory();
        let ghost ck = ck_of(self.declar_info, flag);
        if flag == InferFlag::Check {
            if let Some(ps) = self.own_uparams() {
                if !self.ctx.all_uparams_defined(l, ps) {
                    proof {
                        assert(ck == Ck::Full(Some(ps@)));
                        assert(!crate::tree::lv_defined(seq![l@][0], ps@));
                    }
                    return Err(Stop::UndefinedUniverse);
                }
            }
        }
        let out = self.ctx.succ(l);
        proof {
            inf_sort(th, ck, l@);
        }
        Ok(self.ctx.mk_sort(out))
    }

    /// The type of a constant: that of its declaration, with the universe parameters
    /// replaced.
    pub fn infer_const(&mut self, c_name: NamePtr, c_uparams: LevelsPtr, flag: InferFlag) -> (r:
        Result<ExprPtr, Stop>)
        requires
            old(self).wf(),
            old(self).ctx.has_name(c_name),
            old(self).ctx.has_levels(c_uparams),
        ensures
            final(self).wf(),
            old(self).evolves(*final(self)),
            if !old(self).theory().decls.contains_key(c_name@) {
                r == Err::<ExprPtr, Stop>(Stop::UnknownConst)
            } else if !levels_declared(ck_of(old(self).declar_info, flag), c_uparams@) {
                r == Err::<ExprPtr, Stop>(Stop::UndefinedUniverse)
            } else {
                r matches Ok(t) && final(self).ctx.has_expr(t) && t@ == tm_lsubst(
                    old(self).theory().decls[c_name@].about().ty@,
                    old(self).theory().decls[c_name@].about().uparams@,
                    c_uparams@,
                ) && inf(
                    old(self).theory(),
                    ck_of(old(self).declar_info, flag),
                    Tm::Const(c_name@, c_uparams@),
                    t@,
                )
            },
    {
        let ghost th = self.theory();
        let ghost ck = ck_of(self.declar_info, flag);
        let info: DeclarInfo = match self.get_declar(c_name) {
            Some(d) => d.info(),
            None => {
                return Err(Stop::UnknownConst);
            },
        };
        if flag == InferFlag::Check {
            if let Some(ps) = self.own_uparams() {
                if !self.ctx.all_levels_defined(c_uparams, ps) {
                    return Err(Stop::UndefinedUniverse);
                }
            }
        }
        proof {
            inf_const(th, ck, c_name@, c_uparams@);
        }
        Ok(self.ctx.subst_declar_info_levels(info, c_uparams))
    }

    /// The type of an application.
    pub fn infer_app(&mut self, e: ExprPtr, flag: InferFlag, fuel: u64) -> (r: Result<ExprPtr, Stop>)
        requires
            old(self).wf(),
            old(self).ctx.has_expr(e),
        ensures
            final(self).wf(),
            old(self).evolves(*final(self)),
            r matches Ok(t) ==> final(self).ctx.has_expr(t) && inf(
                old(self).theory(),
                ck_of(old(self).declar_info, flag),
                e@,
                t@,
            ),
            flag is InferOnly && fuel > 0 ==> (direct(old(self).theory(), Ck::Only, head(e@)) matches Some(
                t,
            ) ==> (pi_apply(t, args(e@)) matches Some(u) ==> (r matches Ok(p) && p@ == u))),
            r matches Ok(t) ==> type_says(old(self).theory(), e@, t@),
            flag is InferOnly && e@ is App && type_at(old(self).theory(), e@, fuel as nat + 1) is Some
                ==> r is Ok,
            flag is Check && e@ is App && checks_at(
                old(self).theory(),
                full(old(self).declar_info),
                e@,
                fuel as nat + 1,
            ) ==> r is Ok,
        decreases fuel,
    {
        proof {
            type_first(self.theory(), e@);
            checks_first(self.theory(), full(self.declar_info), e@);
            reveal(type_says);
            reveal(whnf_says);
        }
        if fuel == 0 {
            return Err(Stop::OutOfFuel);
        }
        let ghost th = self.theory();
        let ghost ck = ck_of(self.declar_info, flag);
        let (f, xs) = self.ctx.unfold_apps(e);
        let ghost zs = trees(xs@);
        let mut fun = self.infer(f, flag, fuel - 1)?;
        let ghost t0 = fun@;
        let ghost sure_check = flag is Check && e@ is App && checks_at(th, ck, e@, fuel as nat + 1);
        let ghost sure = flag is InferOnly && e@ is App && type_at(th, e@, fuel as nat + 1) is Some;
        proof {
            spine_none(th, t0);
            assert(zs.take(0) =~= Seq::<Tm>::empty());
            assert(sure ==> spine_type_at(th, t0, zs, (fuel - 1) as nat) is Some);
            assert(sure_check ==> args_check_at(th, ck, t0, zs, (fuel - 1) as nat));
        }
        let n: usize = xs.len();
        let mut i: usize = 0;
        assert(zs.take(0) =~= Seq::<Tm>::empty());
        let ghost t = direct(th, Ck::Only, f@);
        let ghost plainly = flag is InferOnly && t is Some && pi_apply(t->0, zs) is Some;
        while i < n
            invariant
                fuel > 0,
                i <= n,
                n == xs@.len(),
                zs == trees(xs@),
                self.wf(),
                old(self).evolves(*self),
                self.theory() == th,
                th == old(self).theory(),
                ck == ck_of(self.declar_info, flag),
                ck == ck_of(old(self).declar_info, flag),
                self.ctx.has_expr(fun),
                self.ctx.has_exprs(xs@),
                inf(th, ck, apps(f@, zs.take(i as int)), fun@),
                plainly ==> flag is InferOnly && pi_apply(t->0, zs) is Some && pi_apply(
                    t->0,
                    zs.take(i as int),
                ) == Some(fun@),
                !plainly ==> !(flag is InferOnly && (direct(th, Ck::Only, head(e@)) matches Some(t)
                    && pi_apply(t, args(e@)) is Some)),
                t == direct(th, Ck::Only, head(e@)),
                zs.len() == n,
                sure ==> flag is InferOnly && spine_type_at(th, t0, zs, (fuel - 1) as nat) is Some,
                flag is InferOnly && e@ is App && type_at(th, e@, fuel as nat + 1) is Some ==> sure,
                spine_says(th, t0, zs.take(i as int), fun@),
                sure_check ==> flag is Check && args_check_at(th, ck, t0, zs, (fuel - 1) as nat),
                flag is Check && e@ is App && checks_at(th, ck, e@, fuel as nat + 1) ==> sure_check,
            decreases n - i,
        {
            let arg = xs[i];
            proof {
                if plainly {
                    pi_apply_next(t->0, zs, i as int);
                }
            }
            proof {
                spine_next(th, t0, zs, i as int);
                if sure {
                    spine_take(th, t0, zs, i + 1, (fuel - 1) as nat);
                }
                if sure_check {
                    args_check_next(th, ck, t0, zs, i as int, (fuel - 1) as nat);
                }
                reveal(type_says);
            }
            let pi = self.ensure_pi(fun, fuel - 1)?;
            let (binder_name, binder_style, binder_type, body) = match self.ctx.read_expr(pi) {
                Expr::Pi { binder_name, binder_style, binder_type, body, .. } => (
                    binder_name,
                    binder_style,
                    binder_type,
                    body,
                ),
                _ => {
                    return Err(Stop::NotAPi);
                },
            };
            let ghost xt = binder_type@;
            if flag == InferFlag::Check {
                let arg_type = self.infer(arg, flag, fuel - 1)?;
                self.assert_def_eq(binder_type, arg_type, fuel - 1)?;
                proof {
                    xt = arg_type@;
                }
            }
            let next = self.ctx.inst_one(body, arg);
            proof {
                inf_app(
                    th,
                    ck,
                    apps(f@, zs.take(i as int)),
                    arg@,
                    fun@,
                    binder_name@,
                    binder_style,
                    binder_type@,
                    body@,
                    xt,
                );
                apps_push(f@, zs.take(i as int), arg@);
                assert(zs.take(i as int).push(arg@) =~= zs.take(i + 1));
            }
            fun = next;
            i = i + 1;
        }
        assert(zs.take(n as int) =~= zs);
        Ok(fun)
    }

    /// The type of a function.
    pub fn infer_lambda(&mut self, e: ExprPtr, flag: InferFlag, fuel: u64) -> (r: Result<
        ExprPtr,
        Stop,
    >)
        requires
            old(self).wf(),
            old(self).ctx.has_expr(e),
            e@ is Lam,
        ensures
            final(self).wf(),
            old(self).evolves(*final(self)),
            r matches Ok(t) ==> final(self).ctx.has_expr(t) && inf(
                old(self).theory(),
                ck_of(old(self).declar_info, flag),
                e@,
                t@,
            ),
            e@ matches Tm::Lam(n, s, ty, b) ==> {
                let k = depth_bound(e@) as u16;
                flag is InferOnly && fuel > 0 && depth_bound(e@) < 0xffff ==> (direct(
                    old(self).theory(),
                    Ck::Only,
                    inst1(*b, opened(n, s, *ty, k)),
                ) matches Some(t) ==> if abstr_fits(t, k as nat, k as nat + 1, 0) {
                    r matches Ok(p) && p@ == Tm::Pi(n, s, ty, Box::new(close(t, k)))
                } else {
                    r == Err::<ExprPtr, Stop>(Stop::TooManyBinders)
                })
            },
            r matches Ok(t) ==> type_says(old(self).theory(), e@, t@),
            flag is InferOnly && e@ is Lam && type_at(old(self).theory(), e@, fuel as nat + 1) is Some
                ==> r is Ok,
            flag is Check && e@ is Lam && checks_at(
                old(self).theory(),
                full(old(self).declar_info),
                e@,
                fuel as nat + 1,
            ) ==> r is Ok,
        decreases fuel,
    {
        proof {
            type_first(self.theory(), e@);
            checks_first(self.theory(), full(self.declar_info), e@);
            reveal(type_says);
            reveal(whnf_says);
        }
        if fuel == 0 {
            return Err(Stop::OutOfFuel);
        }
        let ghost th = self.theory();
        let ghost ck = ck_of(self.declar_info, flag);
        let (binder_name, binder_style, binder_type, body) = match self.ctx.read_expr(e) {
            Expr::Lambda { binder_name, binder_style, binder_type, body, .. } => (
                binder_name,
                binder_style,
                binder_type,
                body,
            ),
            _ => {
                return Err(Stop::NotAPi);
            },
        };
        let ghost srt = Tm::Var(0);
        let ghost lvl = Lv::Zero;
        if flag == InferFlag::Check {
            let l = self.infer_sort_of(binder_type, flag, fuel - 1)?;
            proof {
                lvl = l@;
                srt = choose|s: Tm| #[trigger]
                    inf(th, ck, binder_type@, s) && red(th, s, Tm::Sort(l@));
            }
        }
        let saved: u16 = self.ctx.dbj_level_counter;
        let bound: u32 = self.ctx.depth(e);
        if bound >= 0xffff {
            return Err(Stop::TooManyBinders);
        }
        let start: u16 = bound as u16;
        self.ctx.set_depth(start);
        let local = self.ctx.mk_dbj_level(binder_name, binder_style, binder_type);
        let instd = self.ctx.inst_one(body, local);
        let ghost inner = *self;
        let infd = self.infer(instd, flag, fuel - 1);
        let closed = match infd {
            Ok(t) => self.ctx.abstr_levels(t, start),
            Err(_) => None,
        };
        self.ctx.set_depth(saved);
        match infd {
            Err(s) => Err(s),
            Ok(t) => match closed {
                None => Err(Stop::TooManyBinders),
                Some(c) => {
                    proof {
                        inf_lam(
                            th,
                            ck,
                            binder_name@,
                            binder_style,
                            binder_type@,
                            body@,
                            start,
                            t@,
                            srt,
                            lvl,
                        );
                    }
                    Ok(self.ctx.mk_pi(binder_name, binder_style, binder_type, c))
                },
            },
        }
    }

    /// The universe level of a function type, or of another type.
    pub fn infer_pi_level(&mut self, e: ExprPtr, flag: InferFlag, fuel: u64) -> (r: Result<
        LevelPtr,
        Stop,
    >)
        requires
            old(self).wf(),
            old(self).ctx.has_expr(e),
        ensures
            final(self).wf(),
            old(self).evolves(*final(self)),
            r matches Ok(l) ==> final(self).ctx.has_level(l) && sort_found(
                old(self).theory(),
                ck_of(old(self).declar_info, flag),
                e@,
                l@,
            ),
            e@ is Pi ==> (r matches Ok(l) ==> inf(
                old(self).theory(),
                ck_of(old(self).declar_info, flag),
                e@,
                Tm::Sort(l@),
            )),
            fuel > 2 ==> (direct(old(self).theory(), ck_of(old(self).declar_info, flag), e@) matches Some(
                Tm::Sort(l),
            ) ==> (r matches Ok(p) && p@ == lv_simplify(l))),
            fuel > 3 ==> (pi_sorts(
                old(self).theory(),
                ck_of(old(self).declar_info, flag),
                e@,
                depth_bound(e@) as u16,
            ) matches Some((u, v)) ==> (r matches Ok(p) && p@ == Lv::IMax(
                Box::new(u),
                Box::new(v),
            ))),
            r matches Ok(l) ==> level_says(old(self).theory(), e@, l@),
            flag is InferOnly && pi_level_at(old(self).theory(), e@, fuel as nat) is Some ==> r is Ok,
            flag is Check && level_checks_at(
                old(self).theory(),
                full(old(self).declar_info),
                e@,
                fuel as nat,
            ) ==> r is Ok,
        decreases fuel,
    {
        proof {
            pi_level_first(self.theory(), e@);
            level_checks_first(self.theory(), full(self.declar_info), e@);
            reveal(whnf_says);
            reveal(type_says);
        }
        if fuel == 0 {
            return Err(Stop::OutOfFuel);
        }
        let ghost th = self.theory();
        let ghost ck = ck_of(self.declar_info, flag);
        match self.ctx.read_expr(e) {
            Expr::Pi { binder_name, binder_style, binder_type, body, .. } => {
                let u = self.infer_sort_of(binder_type, flag, fuel - 1)?;
                let ghost st = choose|s: Tm| #[trigger]
                    inf(th, ck, binder_type@, s) && red(th, s, Tm::Sort(u@));
                let saved: u16 = self.ctx.dbj_level_counter;
                let bound: u32 = self.ctx.depth(e);
                if bound >= 0xffff {
                    return Err(Stop::TooManyBinders);
                }
                let start: u16 = bound as u16;
                self.ctx.set_depth(start);
                let local = self.ctx.mk_dbj_level(binder_name, binder_style, binder_type);
                let instd = self.ctx.inst_one(body, local);
                let inner = self.infer_pi_level(instd, flag, fuel - 1);
                self.ctx.set_depth(saved);
                match inner {
                    Err(s) => Err(s),
                    Ok(v) => {
                        let out = self.ctx.imax(u, v);
                        proof {
                            let sx = choose|s: Tm| #[trigger]
                                inf(th, ck, instd@, s) && red(th, s, Tm::Sort(v@));
                            inf_pi(
                                th,
                                ck,
                                binder_name@,
                                binder_style,
                                binder_type@,
                                body@,
                                start,
                                st,
                                u@,
                                sx,
                                v@,
                            );
                            red_refl(th, Tm::Sort(out@));
                        }
                        Ok(out)
                    },
                }
            },
            _ => self.infer_sort_of(e, flag, fuel - 1),
        }
    }

    /// The type of a function type.
    pub fn infer_pi(&mut self, e: ExprPtr, flag: InferFlag, fuel: u64) -> (r: Result<ExprPtr, Stop>)
        requires
            old(self).wf(),
            old(self).ctx.has_expr(e),
            e@ is Pi,
        ensures
            final(self).wf(),
            old(self).evolves(*final(self)),
            r matches Ok(t) ==> final(self).ctx.has_expr(t) && t@ is Sort && inf(
                old(self).theory(),
                ck_of(old(self).declar_info, flag),
                e@,
                t@,
            ),
            fuel > 4 ==> (pi_sorts(
                old(self).theory(),
                ck_of(old(self).declar_info, flag),
                e@,
                depth_bound(e@) as u16,
            ) matches Some((u, v)) ==> (r matches Ok(p) && p@ == Tm::Sort(
                Lv::IMax(Box::new(u), Box::new(v)),
            ))),
            r matches Ok(t) ==> type_says(old(self).theory(), e@, t@),
            flag is InferOnly && e@ is Pi && type_at(old(self).theory(), e@, fuel as nat + 1) is Some
                ==> r is Ok,
            flag is Check && e@ is Pi && checks_at(
                old(self).theory(),
                full(old(self).declar_info),
                e@,
                fuel as nat + 1,
            ) ==> r is Ok,
        decreases fuel,
    {
        proof {
            type_first(self.theory(), e@);
            checks_first(self.theory(), full(self.declar_info), e@);
            reveal(type_says);
            reveal(whnf_says);
        }
        if fuel == 0 {
            return Err(Stop::OutOfFuel);
        }
        let l = self.infer_pi_level(e, flag, fuel - 1)?;
        Ok(self.ctx.mk_sort(l))
    }

    /// The type of a term behind a local definition.
    pub fn infer_let(&mut self, e: ExprPtr, flag: InferFlag, fuel: u64) -> (r: Result<ExprPtr, Stop>)
        requires
            old(self).wf(),
            old(self).ctx.has_expr(e),
            e@ is Let,
        ensures
            final(self).wf(),
            old(self).evolves(*final(self)),
            r matches Ok(t) ==> final(self).ctx.has_expr(t) && inf(
                old(self).theory(),
                ck_of(old(self).declar_info, flag),
                e@,
                t@,
            ),
            e@ matches Tm::Let(_, _, v, b, _) ==> (flag is InferOnly && fuel > 0 ==> (direct(
                old(self).theory(),
                Ck::Only,
                inst1(*b, *v),
            ) matches Some(t) ==> (r matches Ok(p) && p@ == t))),
            r matches Ok(t) ==> type_says(old(self).theory(), e@, t@),
            flag is InferOnly && e@ is Let && type_at(old(self).theory(), e@, fuel as nat + 1) is Some
                ==> r is Ok,
            flag is Check && e@ is Let && checks_at(
                old(self).theory(),
                full(old(self).declar_info),
                e@,
                fuel as nat + 1,
            ) ==> r is Ok,
        decreases fuel,
    {
        proof {
            type_first(self.theory(), e@);
            checks_first(self.theory(), full(self.declar_info), e@);
            reveal(type_says);
            reveal(whnf_says);
        }
        if fuel == 0 {
            return Err(Stop::OutOfFuel);
        }
        let ghost th = self.theory();
        let ghost ck = ck_of(self.declar_info, flag);
        let (binder_name, binder_type, val, body, nondep) = match self.ctx.read_expr(e) {
            Expr::Let { binder_name, binder_type, val, body, nondep, .. } => (
                binder_name,
                binder_type,
                val,
                body,
                nondep,
            ),
            _ => {
                return Err(Stop::NotAPi);
            },
        };
        let ghost srt = Tm::Var(0);
        let ghost lvl = Lv::Zero;
        let ghost vt = Tm::Var(0);
        if flag == InferFlag::Check {
            let l = self.infer_sort_of(binder_type, flag, fuel - 1)?;
            let val_ty = self.infer(val, flag, fuel - 1)?;
            self.assert_def_eq(val_ty, binder_type, fuel - 1)?;
            proof {
                lvl = l@;
                vt = val_ty@;
                srt = choose|s: Tm| #[trigger]
                    inf(th, ck, binder_type@, s) && red(th, s, Tm::Sort(l@));
            }
        }
        let instd = self.ctx.inst_one(body, val);
        let t = self.infer(instd, flag, fuel - 1)?;
        proof {
            inf_let(
                th,
                ck,
                binder_name@,
                binder_type@,
                val@,
                body@,
                nondep,
                t@,
                srt,
                lvl,
                vt,
            );
        }
        Ok(t)
    }

    /// The type of a projection.
    pub fn infer_proj(
        &mut self,
        ty_name: NamePtr,
        idx: usize,
        structure: ExprPtr,
        flag: InferFlag,
        fuel: u64,
    ) -> (r: Result<ExprPtr, Stop>)
        requires
            old(self).wf(),
            old(self).ctx.has_name(ty_name),
            old(self).ctx.has_expr(structure),
        ensures
            final(self).wf(),
            old(self).evolves(*final(self)),
            r matches Ok(t) ==> final(self).ctx.has_expr(t) && inf(
                old(self).theory(),
                ck_of(old(self).declar_info, flag),
                Tm::Proj(ty_name@, idx as nat, Box::new(structure@)),
                t@,
            ),
            fuel > 2 ==> (field_type(
                old(self).theory(),
                ck_of(old(self).declar_info, flag),
                structure@,
                idx as nat,
            ) matches Some(t) ==> (r matches Ok(p) && p@ == t)),
            r matches Ok(t) ==> proj_type_says(old(self).theory(), idx as nat, structure@, t@),
            flag is InferOnly && proj_type_at(
                old(self).theory(),
                idx as nat,
                structure@,
                fuel as nat,
            ) is Some ==> r is Ok,
            flag is Check && fuel > 0 && checks_at(
                old(self).theory(),
                full(old(self).declar_info),
                structure@,
                (fuel - 1) as nat,
            ) && proj_type_at(old(self).theory(), idx as nat, structure@, fuel as nat) is Some ==> r is Ok,
        decreases fuel,
    {
        proof {
            proj_type_first(self.theory(), idx as nat, structure@);
            reveal(whnf_says);
            reveal(type_says);
        }
        if fuel == 0 {
            return Err(Stop::OutOfFuel);
        }
        let ghost th = self.theory();
        let ghost ck = ck_of(self.declar_info, flag);
        let raw_ty = self.infer(structure, flag, fuel - 1)?;
        let structure_ty = self.whnf(raw_ty, fuel - 1)?;
        let (is_prop, ty_sort) = self.is_proposition(structure_ty, fuel - 1)?;
        let (_f, ind_name, ind_levels, ind_args) = match self.ctx.unfold_const_apps(structure_ty) {
            Some(p) => p,
            None => {
                return Err(Stop::NotAStructure);
            },
        };
        let ind = match self.get_inductive(ind_name) {
            Some(d) => d,
            None => {
                return Err(Stop::NotAStructure);
            },
        };
        if ind.all_ctor_names.len() == 0 {
            return Err(Stop::NotAStructure);
        }
        let ctor_name = ind.all_ctor_names[0];
        assert(self.ctx.has_name(ctor_name));
        let ctor_info = match self.get_constructor(ctor_name) {
            Some(c) => c.info,
            None => {
                return Err(Stop::NotAStructure);
            },
        };
        let num_params: usize = ind.num_params as usize;
        if num_params > ind_args.len() {
            return Err(Stop::IllTyped);
        }
        let mut ctor_ty = self.ctx.subst_declar_info_levels(ctor_info, ind_levels);
        let ghost cty = ctor_ty@;
        let ghost xs = trees(ind_args@);
        let ghost ty = structure_ty@;
        let ghost shown = if fuel > 2 {
            field_type(th, ck, structure@, idx as nat)
        } else {
            None
        };
        assert(ctor_type(th, ind_name@, ind_levels@) == Some(cty));
        assert(shown is Some ==> num_params == 0 && !is_prop && ty == Tm::Const(
            ind_name@,
            ind_levels@,
        ));
        assert(shown is Some ==> (pi_apply(cty, projections(ind_name@, structure@, idx as nat)) matches Some(
            Tm::Pi(_, _, a, _),
        ) && shown == Some(*a)));
        proof {
            tele_nil(th, cty);
            assert(xs.take(0) =~= Seq::<Tm>::empty());
        }
        let ghost m = (fuel - 1) as nat;
        let ghost sure = proj_type_at(th, idx as nat, structure@, fuel as nat) is Some;
        let ghost ps = xs.take(num_params as int);
        proof {
            params_none(th, cty);
            assert(ps.take(0) =~= Seq::<Tm>::empty());
            assert(sure ==> params_at(th, cty, ps, m) is Some);
        }
        let mut i: usize = 0;
        while i < num_params
            invariant
                sure <==> proj_type_at(th, idx as nat, structure@, fuel as nat) is Some,
                m == (fuel - 1) as nat,
                ps == xs.take(num_params as int),
                sure ==> params_at(th, cty, ps, m) is Some,
                params_says(th, cty, ps.take(i as int), ctor_ty@),
                fuel > 0,
                i <= num_params <= ind_args@.len(),
                xs == trees(ind_args@),
                self.wf(),
                old(self).evolves(*self),
                self.theory() == th,
                self.ctx.has_expr(ctor_ty),
                self.ctx.has_name(ind_name),
                self.ctx.has_exprs(ind_args@),
                holds(th, Judg::Tele(cty, xs.take(i as int), ctor_ty@)),
                i == 0 ==> ctor_ty@ == cty,
                shown == (if fuel > 2 {
                    field_type(th, ck, structure@, idx as nat)
                } else {
                    None
                }),
                ck == ck_of(old(self).declar_info, flag),
                th == old(self).theory(),
                shown is Some ==> num_params == 0,
            decreases num_params - i,
        {
            proof {
                params_next(th, cty, ps, i as int);
                if sure {
                    params_take(th, cty, ps, i + 1, m);
                }
                reveal(whnf_says);
                assert(ps[i as int] == xs[i as int]);
            }
            let pi = self.whnf(ctor_ty, fuel - 1)?;
            match self.ctx.read_expr(pi) {
                Expr::Pi { binder_name, binder_style, binder_type, body, .. } => {
                    let next = self.ctx.inst_one(body, ind_args[i]);
                    proof {
                        let z = ind_args@[i as int]@;
                        red_refl(th, z);
                        tele_snoc(
                            th,
                            cty,
                            xs.take(i as int),
                            ctor_ty@,
                            z,
                            binder_name@,
                            binder_style,
                            binder_type@,
                            body@,
                            z,
                        );
                        assert(xs.take(i as int).push(z) =~= xs.take(i + 1));
                    }
                    ctor_ty = next;
                },
                _ => {
                    return Err(Stop::IllTyped);
                },
            }
            i = i + 1;
        }
        let ghost t1 = ctor_ty@;
        let ghost fs = projections(ind_name@, structure@, idx as nat);
        proof {
            assert(fs.take(0) =~= Seq::<Tm>::empty());
            assert(fs.take(idx as int) =~= fs);
            fields_nil(th, ck, ty, t1, structure@, ind_name@, 0);
            if !is_prop {
                inf_loose(th, Ck::Only, ty, ty_sort@);
            }
        }
        proof {
            assert(ps.take(num_params as int) =~= ps);
            fields_none(th, t1, structure@, ind_name@, is_prop);
            assert(sure ==> fields_at(th, t1, structure@, ind_name@, idx as nat, is_prop, m) is Some);
        }
        let mut j: usize = 0;
        while j < idx
            invariant
                sure <==> proj_type_at(th, idx as nat, structure@, fuel as nat) is Some,
                m == (fuel - 1) as nat,
                sure ==> fields_at(th, t1, structure@, ind_name@, idx as nat, is_prop, m) is Some,
                fields_says(th, t1, structure@, ind_name@, j as nat, is_prop, ctor_ty@),
                fuel > 0,
                j <= idx,
                self.wf(),
                old(self).evolves(*self),
                self.theory() == th,
                ck == ck_of(self.declar_info, flag),
                !(ck is Loose),
                self.ctx.has_expr(ctor_ty),
                self.ctx.has_expr(structure),
                self.ctx.has_name(ind_name),
                inf(th, Ck::Loose, ty, ty_sort@) || is_prop,
                !is_prop ==> not_prop_sort(th, ty_sort@),
                holds(
                    th,
                    Judg::Fields(ck, ty, t1, structure@, ind_name@, 0, j as nat, ctor_ty@),
                ),
                fs == projections(ind_name@, structure@, idx as nat),
                shown is Some ==> !is_prop && pi_apply(cty, fs) is Some && pi_apply(
                    cty,
                    fs.take(j as int),
                ) == Some(ctor_ty@),
                shown == (if fuel > 2 {
                    field_type(th, ck, structure@, idx as nat)
                } else {
                    None
                }),
                ck == ck_of(old(self).declar_info, flag),
                th == old(self).theory(),
            decreases idx - j,
        {
            proof {
                fields_next(th, t1, structure@, ind_name@, j as nat, is_prop);
                if sure {
                    fields_take(
                        th,
                        t1,
                        structure@,
                        ind_name@,
                        idx as nat,
                        (j + 1) as nat,
                        is_prop,
                        m,
                    );
                }
                reveal(whnf_says);
            }
            proof {
                if shown is Some {
                    pi_apply_next(cty, fs, j as int);
                }
            }
            let pi = self.whnf(ctor_ty, fuel - 1)?;
            match self.ctx.read_expr(pi) {
                Expr::Pi { binder_name, binder_style, binder_type, body, .. } => {
                    let ghost proj = Tm::Proj(ind_name@, j as nat, Box::new(structure@));
                    let next;
                    if self.ctx.num_loose_bvars(body) != 0 {
                        if is_prop {
                            let (field_prop_found, _s) = self.is_proposition(
                                binder_type,
                                fuel - 1,
                            )?;
                            if !field_prop_found {
                                return Err(Stop::DataFromProp);
                            }
                            proof {
                                prop_of(th, binder_type@, _s@);
                                field_prop(th, ty, binder_type@);
                            }
                        } else {
                            proof {
                                field_of_data(th, ty, binder_type@, ty_sort@);
                            }
                        }
                        let arg = self.ctx.mk_proj(ind_name, j, structure);
                        next = self.ctx.inst_one(body, arg);
                    } else {
                        proof {
                            subst_closed(body@, seq![proj], 0);
                        }
                        next = body;
                    }
                    proof {
                        red_refl(th, proj);
                        fields_snoc(
                            th,
                            ck,
                            ty,
                            t1,
                            structure@,
                            ind_name@,
                            0,
                            j as nat,
                            ctor_ty@,
                            binder_name@,
                            binder_style,
                            binder_type@,
                            body@,
                            proj,
                        );
                    }
                    ctor_ty = next;
                },
                _ => {
                    return Err(Stop::IllTyped);
                },
            }
            j = j + 1;
        }
        let reduced_ty = self.whnf(ctor_ty, fuel - 1)?;
        match self.ctx.read_expr(reduced_ty) {
            Expr::Pi { binder_name, binder_style, binder_type, body, .. } => {
                if is_prop {
                    let (field_prop_found, _s) = self.is_proposition(binder_type, fuel - 1)?;
                    if !field_prop_found {
                        return Err(Stop::DataFromProp);
                    }
                    proof {
                        prop_of(th, binder_type@, _s@);
                        field_prop(th, ty, binder_type@);
                    }
                } else {
                    proof {
                        field_of_data(th, ty, binder_type@, ty_sort@);
                    }
                }
                proof {
                    inf_proj(
                        th,
                        ck,
                        ty_name@,
                        idx as nat,
                        structure@,
                        raw_ty@,
                        ind_name@,
                        ind_levels@,
                        xs,
                        t1,
                        ctor_ty@,
                        binder_name@,
                        binder_style,
                        binder_type@,
                        body@,
                    );
                }
                Ok(binder_type)
            },
            _ => Err(Stop::IllTyped),
        }
    }

    /// Infers the type of a term and reduces it.
    pub fn infer_then_whnf(&mut self, e: ExprPtr, flag: InferFlag, fuel: u64) -> (r: Result<
        ExprPtr,
        Stop,
    >)
        requires
            old(self).wf(),
            old(self).ctx.has_expr(e),
        ensures
            final(self).wf(),
            old(self).evolves(*final(self)),
            r matches Ok(t) ==> final(self).ctx.has_expr(t) && exists|raw: Tm| #[trigger]
                inf(old(self).theory(), ck_of(old(self).declar_info, flag), e@, raw) && reduced(
                    old(self).theory(),
                    raw,
                    t@,
                ),
            direct(old(self).theory(), ck_of(old(self).declar_info, flag), e@) matches Some(t) ==> {
                &&& fuel > 0 ==> (t matches Tm::Sort(l) ==> (r matches Ok(p) && p@ == Tm::Sort(
                    lv_simplify(l),
                )))
                &&& inert(old(self).theory(), t) && fuel > 2 ==> (r matches Ok(p) && p@ == t)
            },
            r matches Ok(t) ==> type_whnf_says(old(self).theory(), e@, t@),
            flag is InferOnly && type_whnf_at(old(self).theory(), e@, fuel as nat) is Some ==> r is Ok,
            flag is Check && fuel > 0 && checks_at(
                old(self).theory(),
                full(old(self).declar_info),
                e@,
                (fuel - 1) as nat,
            ) && type_whnf_at(old(self).theory(), e@, fuel as nat) is Some ==> r is Ok,
        decreases fuel,
    {
        proof {
            type_whnf_first(self.theory(), e@);
            reveal(whnf_says);
            reveal(type_says);
        }
        if fuel == 0 {
            return Err(Stop::OutOfFuel);
        }
        let ty = self.infer(e, flag, fuel - 1)?;
        self.whnf(ty, fuel - 1)
    }

    /// The level of the universe that a term's type is.
    pub fn infer_sort_of(&mut self, e: ExprPtr, flag: InferFlag, fuel: u64) -> (r: Result<
        LevelPtr,
        Stop,
    >)
        requires
            old(self).wf(),
            old(self).ctx.has_expr(e),
        ensures
            final(self).wf(),
            old(self).evolves(*final(self)),
            r matches Ok(l) ==> final(self).ctx.has_level(l) && sort_found(
                old(self).theory(),
                ck_of(old(self).declar_info, flag),
                e@,
                l@,
            ),
            direct(old(self).theory(), ck_of(old(self).declar_info, flag), e@) matches Some(t) ==> {
                &&& fuel > 1 ==> (t matches Tm::Sort(l) ==> (r matches Ok(p) && p@ == lv_simplify(l)))
                &&& inert(old(self).theory(), t) && fuel > 3 ==> r == Err::<LevelPtr, Stop>(
                    Stop::NotASort,
                )
            },
            r matches Ok(l) ==> sort_says(old(self).theory(), e@, l@),
            flag is InferOnly && sort_at(old(self).theory(), e@, fuel as nat) is Some ==> r is Ok,
            flag is Check && sort_checks_at(
                old(self).theory(),
                full(old(self).declar_info),
                e@,
                fuel as nat,
            ) ==> r is Ok,
        decreases fuel,
    {
        proof {
            sort_first(self.theory(), e@);
            type_whnf_first(self.theory(), e@);
            reveal(whnf_says);
            reveal(type_says);
        }
        if fuel == 0 {
            return Err(Stop::OutOfFuel);
        }
        let whnfd = self.infer_then_whnf(e, flag, fuel - 1)?;
        match self.ctx.read_expr(whnfd) {
            Expr::Sort { level, .. } => Ok(level),
            _ => Err(Stop::NotASort),
        }
    }

    /// The level of the universe that a term is, or reduces to.
    pub fn ensure_sort(&mut self, e: ExprPtr, fuel: u64) -> (r: Result<LevelPtr, Stop>)
        requires
            old(self).wf(),
            old(self).ctx.has_expr(e),
        ensures
            final(self).wf(),
            old(self).evolves(*final(self)),
            r matches Ok(l) ==> final(self).ctx.has_level(l) && red(
                old(self).theory(),
                e@,
                Tm::Sort(l@),
            ),
            e@ matches Tm::Sort(l) ==> (r matches Ok(p) && p@ == l),
            inert(old(self).theory(), e@) && fuel > 2 ==> r == Err::<LevelPtr, Stop>(Stop::NotASort),
            fuel > 0 && !(e@ is Sort) ==> (whnf_at(old(self).theory(), e@, (fuel - 1) as nat) matches Some(
                w,
            ) ==> match w {
                Tm::Sort(l) => r matches Ok(p) && p@ == l,
                _ => r == Err::<LevelPtr, Stop>(Stop::NotASort),
            }),
        decreases fuel,
    {
        proof {
            reveal(whnf_says);
            reveal(type_says);
        }
        proof {
            red_refl(self.theory(), e@);
        }
        match self.ctx.read_expr(e) {
            Expr::Sort { level, .. } => {
                return Ok(level);
            },
            _ => {},
        }
        if fuel == 0 {
            return Err(Stop::OutOfFuel);
        }
        let whnfd = self.whnf(e, fuel - 1)?;
        match self.ctx.read_expr(whnfd) {
            Expr::Sort { level, .. } => Ok(level),
            _ => Err(Stop::NotASort),
        }
    }

    /// The function type that a term is, or reduces to.
    pub fn ensure_pi(&mut self, e: ExprPtr, fuel: u64) -> (r: Result<ExprPtr, Stop>)
        requires
            old(self).wf(),
            old(self).ctx.has_expr(e),
        ensures
            final(self).wf(),
            old(self).evolves(*final(self)),
            r matches Ok(p) ==> final(self).ctx.has_expr(p) && p@ is Pi && red(
                old(self).theory(),
                e@,
                p@,
            ),
            e@ is Pi ==> r == Ok::<ExprPtr, Stop>(e),
            (inert(old(self).theory(), e@) || e@ is Sort) && !(e@ is Pi) && fuel > 2 ==> r == Err::<
                ExprPtr,
                Stop,
            >(Stop::NotAPi),
            r matches Ok(p) ==> pi_says(old(self).theory(), e@, p@),
            (pi_at(old(self).theory(), e@, fuel as nat) matches Some(w) && w is Pi) ==> r is Ok,
        decreases fuel,
    {
        proof {
            pi_first(self.theory(), e@);
            reveal(whnf_says);
            reveal(type_says);
        }
        proof {
            red_refl(self.theory(), e@);
        }
        match self.ctx.read_expr(e) {
            Expr::Pi { .. } => {
                return Ok(e);
            },
            _ => {},
        }
        if fuel == 0 {
            return Err(Stop::OutOfFuel);
        }
        let whnfd = self.whnf(e, fuel - 1)?;
        match self.ctx.read_expr(whnfd) {
            Expr::Pi { .. } => Ok(whnfd),
            _ => Err(Stop::NotAPi),
        }
    }

    /// The level of the universe that a term's type is, with everything checked.
    pub fn ensure_infers_as_sort(&mut self, e: ExprPtr, fuel: u64) -> (r: Result<LevelPtr, Stop>)
        requires
            old(self).wf(),
            old(self).ctx.has_expr(e),
        ensures
            final(self).wf(),
            old(self).evolves(*final(self)),
            r matches Ok(l) ==> final(self).ctx.has_level(l) && sort_found(
                old(self).theory(),
                full(old(self).declar_info),
                e@,
                l@,
            ),
            direct(old(self).theory(), full(old(self).declar_info), e@) matches Some(t) ==> {
                &&& fuel > 0 ==> (t matches Tm::Sort(l) ==> (r matches Ok(p) && p@ == l))
                &&& inert(old(self).theory(), t) && fuel > 3 ==> r == Err::<LevelPtr, Stop>(
                    Stop::NotASort,
                )
            },
            fuel > 1 && checks_at(
                old(self).theory(),
                full(old(self).declar_info),
                e@,
                (fuel - 1) as nat,
            ) ==> (type_at(old(self).theory(), e@, (fuel - 1) as nat) matches Some(t) ==> {
                &&& t matches Tm::Sort(l) ==> (r matches Ok(p) && p@ == l)
                &&& !(t is Sort) ==> (whnf_at(old(self).theory(), t, (fuel - 2) as nat) matches Some(w)
                    ==> match w {
                    Tm::Sort(l) => r matches Ok(p) && p@ == l,
                    _ => r == Err::<LevelPtr, Stop>(Stop::NotASort),
                })
            }),
        decreases fuel,
    {
        proof {
            reveal(whnf_says);
            reveal(type_says);
        }
        if fuel == 0 {
            return Err(Stop::OutOfFuel);
        }
        let infd = self.infer(e, InferFlag::Check, fuel - 1)?;
        self.ensure_sort(infd, fuel - 1)
    }

    /// Whether a term reduces to the universe of propositions.
    pub fn is_sort_zero(&mut self, e: ExprPtr, fuel: u64) -> (r: Result<bool, Stop>)
        requires
            old(self).wf(),
            old(self).ctx.has_expr(e),
        ensures
            final(self).wf(),
            old(self).evolves(*final(self)),
            r matches Ok(b) ==> if b {
                red(old(self).theory(), e@, Tm::Sort(Lv::Zero))
            } else {
                not_prop_sort(old(self).theory(), e@)
            },
            fuel > 0 ==> (e@ matches Tm::Sort(l) ==> r == Ok::<bool, Stop>(
                lv_simplify(l) == Lv::Zero,
            )),
            inert(old(self).theory(), e@) && fuel > 2 ==> r == Ok::<bool, Stop>(false),
            r matches Ok(b) ==> zero_says(old(self).theory(), e@, b),
            zero_at(old(self).theory(), e@, fuel as nat) is Some ==> r is Ok,
        decreases fuel,
    {
        proof {
            zero_first(self.theory(), e@);
            reveal(whnf_says);
            reveal(type_says);
        }
        if fuel == 0 {
            return Err(Stop::OutOfFuel);
        }
        let ghost th = self.theory();
        let w = self.whnf(e, fuel - 1)?;
        let prop_sort = self.ctx.prop();
        let b = self.ctx.eq_expr(w, prop_sort);
        assert(!b ==> not_prop_sort(th, e@)) by {
            assert(holds(th, Judg::Red(e@, w@)));
        }
        Ok(b)
    }

    /// Whether a term is a proposition, and its type.
    pub fn is_proposition(&mut self, e: ExprPtr, fuel: u64) -> (r: Result<(bool, ExprPtr), Stop>)
        requires
            old(self).wf(),
            old(self).ctx.has_expr(e),
        ensures
            final(self).wf(),
            old(self).evolves(*final(self)),
            r matches Ok((b, t)) ==> {
                &&& final(self).ctx.has_expr(t)
                &&& inf(old(self).theory(), Ck::Only, e@, t@)
                &&& if b {
                    red(old(self).theory(), t@, Tm::Sort(Lv::Zero))
                } else {
                    not_prop_sort(old(self).theory(), t@)
                }
            },
            direct(old(self).theory(), Ck::Only, e@) matches Some(t) ==> {
                &&& fuel > 1 ==> (t matches Tm::Sort(l) ==> (r matches Ok((b, p)) && p@ == t && b == (
                lv_simplify(l) == Lv::Zero)))
                &&& inert(old(self).theory(), t) && fuel > 3 ==> (r matches Ok((b, p)) && p@ == t
                    && !b)
            },
            r matches Ok((b, t)) ==> prop_says(old(self).theory(), e@, b) && type_says(
                old(self).theory(),
                e@,
                t@,
            ),
            prop_at(old(self).theory(), e@, fuel as nat) is Some ==> r is Ok,
        decreases fuel,
    {
        proof {
            prop_first(self.theory(), e@);
            reveal(whnf_says);
            reveal(type_says);
        }
        if fuel == 0 {
            return Err(Stop::OutOfFuel);
        }
        let infd = self.infer(e, InferFlag::InferOnly, fuel - 1)?;
        let b = self.is_sort_zero(infd, fuel - 1)?;
        Ok((b, infd))
    }

    /// Whether a term is a proof, and its type.
    pub fn is_proof(&mut self, e: ExprPtr, fuel: u64) -> (r: Result<(bool, ExprPtr), Stop>)
        requires
            old(self).wf(),
            old(self).ctx.has_expr(e),
        ensures
            final(self).wf(),
            old(self).evolves(*final(self)),
            r matches Ok((b, t)) ==> {
                &&& final(self).ctx.has_expr(t)
                &&& inf(old(self).theory(), Ck::Only, e@, t@)
                &&& b ==> prop(old(self).theory(), t@)
                &&& !b ==> no_prop(old(self).theory(), t@)
            },
            direct(old(self).theory(), Ck::Only, e@) matches Some(t) ==> (direct(
                old(self).theory(),
                Ck::Only,
                t,
            ) matches Some(s) ==> {
                &&& fuel > 2 ==> (s matches Tm::Sort(l) ==> (r matches Ok((b, p)) && p@ == t && b == (
                lv_simplify(l) == Lv::Zero)))
                &&& inert(old(self).theory(), s) && fuel > 4 ==> (r matches Ok((b, p)) && p@ == t
                    && !b)
            }),
            r matches Ok((b, t)) ==> prop_says(old(self).theory(), t@, b) && type_says(
                old(self).theory(),
                e@,
                t@,
            ),
            fuel > 0 ==> (type_at(old(self).theory(), e@, (fuel - 1) as nat) matches Some(t) ==> (
            prop_at(old(self).theory(), t, (fuel - 1) as nat) is Some ==> r is Ok)),
        decreases fuel,
    {
        proof {
            reveal(whnf_says);
            reveal(type_says);
        }
        if fuel == 0 {
            return Err(Stop::OutOfFuel);
        }
        let ghost th = self.theory();
        let infd = self.infer(e, InferFlag::InferOnly, fuel - 1)?;
        let (b, s) = self.is_proposition(infd, fuel - 1)?;
        proof {
            if b {
                prop_of(th, infd@, s@);
            } else {
                assert(no_prop(th, infd@)) by {
                    assert(inf(th, Ck::Only, infd@, s@));
                }
            }
        }
        Ok((b, infd))
    }
}

proof fn prop_of(th: Theory, e: Tm, s: Tm)
    requires
        inf(th, Ck::Only, e, s),
        red(th, s, Tm::Sort(Lv::Zero)),
    ensures
        prop(th, e),
{
    inf_loose(th, Ck::Only, e, s);
    prop_intro(th, e, s);
}

proof fn field_of_data(th: Theory, ty: Tm, a: Tm, s: Tm)
    requires
        inf(th, Ck::Loose, ty, s),
        not_prop_sort(th, s),
    ensures
        holds(th, Judg::Field(ty, a)),
{
    let w = choose|w: Tm| #[trigger]
        holds(th, Judg::Red(s, w)) && core_head(w) && !unfolds(th, w) && w != Tm::Sort(Lv::Zero);
    field_data(th, ty, a, s, w);
}

} // verus!
