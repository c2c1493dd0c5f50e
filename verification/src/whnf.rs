//! Reduction of terms to weak head normal form.
use crate::bignum::{fits_by_value, nat_bin, nat_bin_out, NatBinOp, NatResult};
use crate::checker::{acts, fits_grows, inert, reduced, reduced_core, InferFlag, Stop, TypeChecker};
use crate::env::{Declar, RecursorData};
use crate::expr::Expr;
use crate::infer::direct;
use crate::judge::{
    core_head, ctor_fields, first_ctor, iota, iota_result, is_named, is_nat_out, major_induct,
    nat_step, op_named, projections, quot_pos, quot_step, replaces_major, root_step, rule_for,
    str_ctor, unfolds, Ck, Theory,
};
use crate::laws::{
    inf, inf_loose, red, red_apps, red_apps_at, red_apps_head, red_eta, red_k, red_proj, red_refl,
    red_step, red_trans,
};
use crate::ops::trees;
use crate::ptr::{ExprPtr, LevelsPtr, NamePtr, StringPtr};
use crate::steps::{
    beta_all, beta_count, bin_at, bin_first, core_says, deq_at, eta_first, k_first, nat_first, proj_first,
    quot_first, rec_first, str_first, whnf_core_first, whnf_first, major_first, bin_says, eta_at, eta_says, fire_tm, go_core, go_end, go_nat, go_needs, go_says,
    go_step, go_zero, k_at, k_says, lam_drop, lam_drop_next, major_at, nat_at, nat_says, proj_at, proj_says,
    quot_at, quot_says, rec_at, rec_says, rule_at, rule_at_is, str_at, str_says, type_says,
    type_whnf_at, whnf_at, whnf_core_at, whnf_go, whnf_says,
};
use crate::tc::{const_apps, red_beta_next};
use crate::tree::{
    all_closed, apps, args, has_local, head, loose, lv_simplify, subst, subst_nothing, Lv, Nm, Tm,
};
use vstd::prelude::*;

verus! {

broadcast use {
    fits_grows,
    crate::value::vals_fit_grows,
    crate::vcache::vcache_grows_ctx,
};

/// A recursor whose major premise reduces to a constructor.
pub proof fn red_iota(
    th: Theory,
    n: Nm,
    ls: Seq<Lv>,
    zs: Seq<Tm>,
    r: RecursorData,
    i: int,
    c: Nm,
    cls: Seq<Lv>,
    ys: Seq<Tm>,
)
    requires
        th.recursor(n) == Some(r),
        zs.len() > r.major_pos(),
        zs[r.major_pos() as int] == apps(Tm::Const(c, cls), ys),
        rule_for(r.rec_rules@, c, i),
        ys.len() >= r.rec_rules@[i].ctor_telescope_size_wo_params,
    ensures
        red(th, apps(Tm::Const(n, ls), zs), iota_result(r, r.rec_rules@[i], ls, zs, ys)),
        iota(th, apps(Tm::Const(n, ls), zs), iota_result(r, r.rec_rules@[i], ls, zs, ys)),
{
    let a = apps(Tm::Const(n, ls), zs);
    const_apps(n, ls, zs);
    const_apps(c, cls, ys);
    let b = iota_result(r, r.rec_rules@[i], ls, zs, ys);
    assert(iota(th, a, b)) by {
        assert(rule_for(r.rec_rules@, c, i));
    }
    red_step(th, a, b);
}

/// Replacing the major premise by itself is always possible.
pub proof fn replaces_same(th: Theory, r: RecursorData, m: Tm)
    ensures
        replaces_major(th, r, m, m),
{
    assert forall|n: Nm, ks: Seq<Lv>, zs: Seq<Tm>|
        #![trigger apps(Tm::Const(n, ks), zs.update(r.major_pos() as int, m))]
        th.recursor(n) == Some(r) && zs.len() > r.major_pos() && zs[r.major_pos() as int]
            == m implies red(
        th,
        apps(Tm::Const(n, ks), zs),
        apps(Tm::Const(n, ks), zs.update(r.major_pos() as int, m)),
    ) by {
        assert(zs.update(r.major_pos() as int, m) =~= zs);
        red_refl(th, apps(Tm::Const(n, ks), zs));
    }
}

/// The major premise may be replaced by what it reduces to.
pub proof fn replaces_red(th: Theory, r: RecursorData, m: Tm, c: Tm)
    requires
        red(th, m, c),
    ensures
        replaces_major(th, r, m, c),
{
    assert forall|n: Nm, ks: Seq<Lv>, zs: Seq<Tm>|
        #![trigger apps(Tm::Const(n, ks), zs.update(r.major_pos() as int, c))]
        th.recursor(n) == Some(r) && zs.len() > r.major_pos() && zs[r.major_pos() as int]
            == m implies red(
        th,
        apps(Tm::Const(n, ks), zs),
        apps(Tm::Const(n, ks), zs.update(r.major_pos() as int, c)),
    ) by {
        red_apps_at(th, Tm::Const(n, ks), zs, r.major_pos() as int, c);
    }
}

/// Replacements of the major premise can be put one behind the other.
pub proof fn replaces_trans(th: Theory, r: RecursorData, m: Tm, c: Tm, d: Tm)
    requires
        replaces_major(th, r, m, c),
        replaces_major(th, r, c, d),
    ensures
        replaces_major(th, r, m, d),
{
    assert forall|n: Nm, ks: Seq<Lv>, zs: Seq<Tm>|
        #![trigger apps(Tm::Const(n, ks), zs.update(r.major_pos() as int, d))]
        th.recursor(n) == Some(r) && zs.len() > r.major_pos() && zs[r.major_pos() as int]
            == m implies red(
        th,
        apps(Tm::Const(n, ks), zs),
        apps(Tm::Const(n, ks), zs.update(r.major_pos() as int, d)),
    ) by {
        let p = r.major_pos() as int;
        let ys = zs.update(p, c);
        assert(red(th, apps(Tm::Const(n, ks), zs), apps(Tm::Const(n, ks), zs.update(p, c))));
        assert(red(th, apps(Tm::Const(n, ks), ys), apps(Tm::Const(n, ks), ys.update(p, d))));
        assert(ys.update(p, d) =~= zs.update(p, d));
        red_trans(
            th,
            apps(Tm::Const(n, ks), zs),
            apps(Tm::Const(n, ks), ys),
            apps(Tm::Const(n, ks), zs.update(p, d)),
        );
    }
}

/// The number of parameters of the constructor at the head of the term.
pub open spec fn ctor_at_head(th: Theory, e: Tm) -> Option<nat> {
    match head(e) {
        Tm::Const(n, _) => th.ctor_params(n),
        _ => None,
    }
}

/// The term that an optional pointer leads to.
pub open spec fn tm_of(p: Option<ExprPtr>) -> Option<Tm> {
    match p {
        Some(p) => Some(p@),
        None => None,
    }
}

impl<'t> TypeChecker<'t> {
    /// Reduces a term to weak head normal form. Functions, function types, variables and
    /// literals are in it.
    pub fn whnf(&mut self, e: ExprPtr, fuel: u64) -> (r: Result<ExprPtr, Stop>)
        requires
            old(self).wf(),
            old(self).ctx.has_expr(e),
        ensures
            final(self).wf(),
            old(self).evolves(*final(self)),
            r matches Ok(p) ==> final(self).ctx.has_expr(p) && reduced(
                old(self).theory(),
                e@,
                p@,
            ),
            match e@ {
                Tm::Pi(_, _, _, _) | Tm::Lam(_, _, _, _) | Tm::Local(_, _, _, _) => r == Ok::<
                    ExprPtr,
                    Stop,
                >(e),
                Tm::NatLit(_) | Tm::StrLit(_) => r == Ok::<ExprPtr, Stop>(e),
                Tm::Sort(l) => r matches Ok(p) && p@ == Tm::Sort(lv_simplify(l)),
                Tm::Var(_) => r == Err::<ExprPtr, Stop>(Stop::LooseVariable),
                _ => true,
            },
            inert(old(self).theory(), e@) && fuel > 1 ==> (r matches Ok(p) && p@ == e@),
            whnf_at(old(self).theory(), e@, fuel as nat) is Some ==> r is Ok,
        decreases fuel,
    {
        proof {
            whnf_first(self.theory(), e@);
        }
        let ghost th = self.theory();
        proof {
            red_refl(th, e@);
            reveal(whnf_says);
        }
        match self.ctx.read_expr(e) {
            Expr::NatLit { .. } => {
                return Ok(e);
            },
            Expr::StringLit { .. } => {
                return Ok(e);
            },
            Expr::Pi { .. } | Expr::Lambda { .. } | Expr::Local { .. } => {
                return Ok(e);
            },
            Expr::Var { .. } => {
                return Err(Stop::LooseVariable);
            },
            Expr::Sort { level, .. } => {
                let level1 = self.ctx.simplify(level);
                proof {
                    red_step(th, e@, Tm::Sort(level1@));
                }
                return Ok(self.ctx.mk_sort(level1));
            },
            _ => {},
        }
        if let Some(cached) = self.recall_whnf(e) {
            return Ok(cached);
        }
        let mut cursor = e;
        let mut left: u64 = fuel;
        while left > 0
            invariant
                left <= fuel,
                self.wf(),
                old(self).evolves(*self),
                self.theory() == th,
                self.ctx.has_expr(e),
                self.ctx.has_expr(cursor),
                red(th, e@, cursor@),
                e@ is App || e@ is Const || e@ is Let || e@ is Proj,
                inert(th, e@) ==> cursor@ == e@ && left == fuel,
                th == old(self).theory(),
                forall|w: Tm| #[trigger] go_says(th, cursor@, w) ==> go_says(th, e@, w),
                whnf_at(th, e@, fuel as nat) is Some ==> whnf_go(
                    th,
                    cursor@,
                    left as nat,
                    (fuel - 1) as nat,
                ) is Some,
            decreases left,
        {
            left = left - 1;
            proof {
                if whnf_at(th, e@, fuel as nat) is Some {
                    go_core(th, cursor@, left as nat + 1, (fuel - 1) as nat);
                }
            }
            let whnfd = self.whnf_no_unfolding(cursor, fuel - 1)?;
            proof {
                red_trans(th, e@, cursor@, whnfd@);
            }
            proof {
                if whnf_at(th, e@, fuel as nat) is Some {
                    go_nat(th, cursor@, left as nat + 1, (fuel - 1) as nat, whnfd@);
                }
            }
            let before = whnfd;
            match self.try_reduce_nat(whnfd, fuel - 1)? {
                Some(next) => {
                    proof {
                        red_trans(th, e@, whnfd@, next@);
                        assert forall|w: Tm| #[trigger] go_says(th, next@, w) implies go_says(
                            th,
                            e@,
                            w,
                        ) by {
                            go_step(th, cursor@, whnfd@, next@, w);
                        }
                        if whnf_at(th, e@, fuel as nat) is Some {
                            go_needs(th, cursor@, left as nat + 1, (fuel - 1) as nat, whnfd@, next@);
                        }
                    }
                    cursor = next;
                },
                None => match self.unfold_def(whnfd) {
                    Some(next) => {
                        proof {
                            red_trans(th, e@, whnfd@, next@);
                            assert forall|w: Tm| #[trigger] go_says(th, next@, w) implies go_says(
                                th,
                                e@,
                                w,
                            ) by {
                                go_step(th, cursor@, whnfd@, next@, w);
                            }
                            if whnf_at(th, e@, fuel as nat) is Some {
                                go_needs(th, cursor@, left as nat + 1, (fuel - 1) as nat, whnfd@, next@);
                            }
                        }
                        cursor = next;
                    },
                    None => {
                        proof {
                            go_end(th, cursor@, whnfd@);
                            assert(go_says(th, e@, before@));
                            assert(whnf_says(th, e@, before@)) by {
                                reveal(whnf_says);
                                whnf_first(th, e@);
                            }
                        }
                        self.remember_whnf(e, before);
                        return Ok(before);
                    },
                },
            }
        }
        proof {
            go_zero(th, cursor@, (fuel - 1) as nat);
        }
        Err(Stop::OutOfFuel)
    }

    /// Reduces a term to weak head normal form, but unfolds no constants.
    pub fn whnf_no_unfolding(&mut self, e: ExprPtr, fuel: u64) -> (r: Result<ExprPtr, Stop>)
        requires
            old(self).wf(),
            old(self).ctx.has_expr(e),
        ensures
            final(self).wf(),
            old(self).evolves(*final(self)),
            r matches Ok(p) ==> final(self).ctx.has_expr(p) && reduced_core(
                old(self).theory(),
                e@,
                p@,
            ),
            match e@ {
                Tm::Pi(_, _, _, _) | Tm::Lam(_, _, _, _) | Tm::Local(_, _, _, _) => r == Ok::<
                    ExprPtr,
                    Stop,
                >(e),
                Tm::NatLit(_) | Tm::StrLit(_) => r == Ok::<ExprPtr, Stop>(e),
                Tm::Sort(l) => r matches Ok(p) && p@ == Tm::Sort(lv_simplify(l)),
                Tm::Var(_) => r == Err::<ExprPtr, Stop>(Stop::LooseVariable),
                _ => true,
            },
            inert(old(self).theory(), e@) && fuel > 0 ==> (r matches Ok(p) && p@ == e@),
            whnf_core_at(old(self).theory(), e@, fuel as nat) is Some ==> r is Ok,
        decreases fuel,
    {
        proof {
            whnf_core_first(self.theory(), e@);
            reveal(core_says);
            reveal(whnf_says);
        }
        let ghost th = self.theory();
        proof {
            red_refl(th, e@);
        }
        match self.ctx.read_expr(e) {
            Expr::Pi { .. } => {
                return Ok(e);
            },
            Expr::Lambda { .. } => {
                return Ok(e);
            },
            Expr::Local { .. } => {
                return Ok(e);
            },
            Expr::NatLit { .. } => {
                return Ok(e);
            },
            Expr::StringLit { .. } => {
                return Ok(e);
            },
            Expr::Var { .. } => {
                return Err(Stop::LooseVariable);
            },
            Expr::Sort { level, .. } => {
                let level1 = self.ctx.simplify(level);
                proof {
                    red_step(th, e@, Tm::Sort(level1@));
                }
                return Ok(self.ctx.mk_sort(level1));
            },
            _ => {},
        }
        if fuel == 0 {
            return Err(Stop::OutOfFuel);
        }
        if let Some(cached) = self.recall_core(e) {
            return Ok(cached);
        }
        let (e_fun, xs) = self.ctx.unfold_apps(e);
        let n: usize = xs.len();
        let ghost zs = trees(xs@);
        proof {
            assert(zs.subrange(0, n as int) =~= zs);
        }
        match self.ctx.read_expr(e_fun) {
            Expr::Proj { ty_name, idx, structure, .. } => {
                match self.reduce_proj(idx, structure, fuel - 1)? {
                    Some(p) => {
                        proof {
                            assert(red(th, Tm::Proj(ty_name@, idx as nat, Box::new(structure@)), p@));
                            red_apps_head(th, e_fun@, p@, zs);
                        }
                        let next = self.ctx.foldl_apps(p, &xs, 0, n);
                        let out = self.whnf_no_unfolding(next, fuel - 1)?;
                        proof {
                            red_trans(th, e@, next@, out@);
                        }
                        self.remember_core(e, out);
                        Ok(out)
                    },
                    None => Ok(e),
                }
            },
            Expr::Sort { .. } => Err(Stop::IllTyped),
            Expr::Lambda { .. } => {
                let mut cur = e_fun;
                let mut n_args: usize = 0;
                proof {
                    subst_nothing(e_fun@, 0);
                    assert(whnf_core_at(th, e@, fuel as nat) is Some ==> all_closed(zs));
                    assert(zs.take(0) =~= Seq::<Tm>::empty());
                    assert(zs.skip(0) =~= zs);
                }
                while n_args < n
                    invariant_except_break
                        n_args <= n,
                    invariant
                        n_args <= n,
                        e@ is App,
                        head(e@) is Lam,
                        th == old(self).theory(),
                        zs.len() == n,
                        cur@ == lam_drop(e_fun@, n_args as nat),
                        beta_count(e_fun@, n as nat) == n_args + beta_count(
                            cur@,
                            (n - n_args) as nat,
                        ),
                        whnf_core_at(th, e@, fuel as nat) is Some ==> all_closed(zs),
                        old(self).evolves(*self),
                        n == xs@.len(),
                        zs == trees(xs@),
                        self.wf(),
                        self.theory() == th,
                        self.ctx.has_expr(cur),
                        self.ctx.has_exprs(xs@),
                        all_closed(zs.take(n_args as int)),
                        red(
                            th,
                            e@,
                            apps(
                                subst(cur@, zs.take(n_args as int), 0),
                                zs.skip(n_args as int),
                            ),
                        ),
                    ensures
                        n_args >= n || !(cur@ is Lam),
                    decreases n - n_args,
                {
                    match self.ctx.read_expr(cur) {
                        Expr::Lambda { body, .. } => {
                            if self.ctx.num_loose_bvars(xs[n_args]) != 0 {
                                assert(loose(zs[n_args as int]) != 0);
                                return Err(Stop::LooseVariable);
                            }
                            proof {
                                lam_drop_next(e_fun@, n_args as nat);
                                let env = zs.take(n_args as int);
                                let rest = zs.skip(n_args as int);
                                red_beta_next(th, cur@, env, rest);
                                assert(env.push(rest[0]) =~= zs.take(n_args + 1));
                                assert(rest.drop_first() =~= zs.skip(n_args + 1));
                                red_trans(
                                    th,
                                    e@,
                                    apps(subst(cur@, env, 0), rest),
                                    apps(
                                        subst(body@, zs.take(n_args + 1), 0),
                                        zs.skip(n_args + 1),
                                    ),
                                );
                                assert forall|i: int| 0 <= i < n_args + 1 implies loose(
                                    #[trigger] zs.take(n_args + 1)[i],
                                ) == 0 by {
                                    if i < n_args {
                                        assert(loose(env[i]) == 0);
                                    }
                                }
                            }
                            n_args = n_args + 1;
                            cur = body;
                        },
                        _ => {
                            break;
                        },
                    }
                }
                let used = first_of(&xs, n_args);
                assert(trees(used@) =~= zs.take(n_args as int));
                let f = self.ctx.inst(cur, &used);
                assert(zs.subrange(n_args as int, n as int) =~= zs.skip(n_args as int));
                let next = self.ctx.foldl_apps(f, &xs, n_args, n);
                assert(beta_count(e_fun@, n as nat) == n_args);
                assert(next@ == beta_all(e_fun@, zs));
                let out = self.whnf_no_unfolding(next, fuel - 1)?;
                proof {
                    red_trans(th, e@, next@, out@);
                }
                self.remember_core(e, out);
                Ok(out)
            },
            Expr::Let { val, body, .. } => {
                let f = self.ctx.inst_one(body, val);
                proof {
                    red_step(th, e_fun@, f@);
                    red_apps_head(th, e_fun@, f@, zs);
                }
                let next = self.ctx.foldl_apps(f, &xs, 0, n);
                let out = self.whnf_no_unfolding(next, fuel - 1)?;
                proof {
                    red_trans(th, e@, next@, out@);
                }
                self.remember_core(e, out);
                Ok(out)
            },
            Expr::Const { name, levels, .. } => {
                let reduced_quot = self.reduce_quot(name, levels, &xs, fuel - 1)?;
                let next = match reduced_quot {
                    Some(p) => Some(p),
                    None => self.reduce_rec(name, levels, &xs, fuel - 1)?,
                };
                match next {
                    Some(next) => {
                        let out = self.whnf_no_unfolding(next, fuel - 1)?;
                        proof {
                            red_trans(th, e@, next@, out@);
                        }
                        self.remember_core(e, out);
                        Ok(out)
                    },
                    None => Ok(e),
                }
            },
            Expr::Var { .. } => Err(Stop::LooseVariable),
            Expr::Pi { .. } => Err(Stop::IllTyped),
            _ => Ok(e),
        }
    }

    /// The term that a string literal stands for, reduced.
    pub fn str_lit_to_ctor_reducing(&mut self, x: StringPtr, fuel: u64) -> (r: Result<
        Option<ExprPtr>,
        Stop,
    >)
        requires
            old(self).wf(),
            old(self).ctx.has_string(x),
        ensures
            final(self).wf(),
            old(self).evolves(*final(self)),
            r matches Ok(Some(p)) ==> {
                &&& final(self).ctx.has_expr(p)
                &&& red(old(self).theory(), Tm::StrLit(x@), p@)
                &&& core_head(p@)
                &&& !unfolds(old(self).theory(), p@)
            },
            fuel > 0 && (!old(self).theory().nat_ext || str_ctor(old(self).theory().names, x@) is None)
                ==> r == Ok::<Option<ExprPtr>, Stop>(None),
            fuel > 2 && old(self).theory().nat_ext ==> (str_ctor(
                old(self).theory().names,
                x@,
            ) matches Some(c) ==> (inert(old(self).theory(), c) ==> (r matches Ok(Some(p)) && p@
                == c))),
            r matches Ok(o) ==> str_says(old(self).theory(), x@, tm_of(o)),
            str_at(old(self).theory(), x@, fuel as nat) is Some ==> r is Ok,
        decreases fuel,
    {
        proof {
            str_first(self.theory(), x@);
            reveal(whnf_says);
        }
        if fuel == 0 {
            return Err(Stop::OutOfFuel);
        }
        let ghost th = self.theory();
        match self.ctx.str_lit_to_constructor(x) {
            Some(c) => {
                let p = self.whnf(c, fuel - 1)?;
                proof {
                    red_step(th, Tm::StrLit(x@), c@);
                    red_trans(th, Tm::StrLit(x@), c@, p@);
                }
                Ok(Some(p))
            },
            None => Ok(None),
        }
    }

    /// Computes a binary operation on what two terms reduce to, where these are numbers.
    pub fn do_nat_bin(&mut self, x: ExprPtr, y: ExprPtr, op: NatBinOp, fuel: u64) -> (r: Result<
        Option<ExprPtr>,
        Stop,
    >)
        requires
            old(self).wf(),
            old(self).ctx.has_expr(x),
            old(self).ctx.has_expr(y),
        ensures
            final(self).wf(),
            old(self).evolves(*final(self)),
            r matches Ok(Some(p)) ==> final(self).ctx.has_expr(p) && old(self).theory().nat_ext
                && exists|m: nat, n: nat|
                #![trigger nat_bin_out(op, m, n)]
                red(old(self).theory(), x@, Tm::NatLit(m)) && red(
                    old(self).theory(),
                    y@,
                    Tm::NatLit(n),
                ) && is_nat_out(old(self).theory().names, nat_bin_out(op, m, n), p@),
            fuel > 0 && old(self).theory().nat_ext && x@ is NatLit && y@ is NatLit ==> match r {
                Ok(Some(p)) => is_nat_out(
                    old(self).theory().names,
                    nat_bin_out(op, x@->NatLit_0, y@->NatLit_0),
                    p@,
                ),
                Ok(None) => op is Beq || op is Ble,
                Err(s) => s == Stop::NumberTooLarge && (op is Pow || op is Shl || op is Shr),
            },
            r matches Ok(o) ==> bin_says(old(self).theory(), x@, y@, op, tm_of(o)),
            bin_at(old(self).theory(), x@, y@, op, fuel as nat) is Some ==> r is Ok,
        decreases fuel,
    {
        proof {
            bin_first(self.theory(), x@, y@, op);
            reveal(whnf_says);
        }
        if fuel == 0 {
            return Err(Stop::OutOfFuel);
        }
        let ghost th = self.theory();
        let x1 = match self.whnf(x, fuel - 1) {
            Ok(p) => p,
            Err(s) => {
                return Err(s);
            },
        };
        let y1 = match self.whnf(y, fuel - 1) {
            Ok(p) => p,
            Err(s) => {
                return Err(s);
            },
        };
        let m = match self.ctx.get_bignum_from_expr(x1) {
            Some(n) => n,
            None => {
                return Ok(None);
            },
        };
        let n = match self.ctx.get_bignum_from_expr(y1) {
            Some(n) => n,
            None => {
                return Ok(None);
            },
        };
        let ghost mv = m@;
        let ghost nv = n@;
        proof {
            self.number(x@, x1@, mv);
            self.number(y@, y1@, nv);
            fits_by_value(op, m, n);
        }
        let out = match nat_bin(op, m, n) {
            Some(v) => v,
            None => {
                return Err(Stop::NumberTooLarge);
            },
        };
        proof {
            assert(out.is_out(nat_bin_out(op, mv, nv)));
        }
        match out {
            NatResult::Num(v) => Ok(self.ctx.mk_nat_lit_quick(v)),
            NatResult::Truth(b) => Ok(self.ctx.bool_to_expr(b)),
        }
    }

    proof fn number(&self, x: Tm, y: Tm, n: nat)
        requires
            self.theory().nat_ext,
            red(self.theory(), x, y),
            y == Tm::NatLit(n) || (n == 0 && (y matches Tm::Const(c, _) && is_named(
                self.ctx.name_cache.nat_zero,
                c,
            ))),
        ensures
            red(self.theory(), x, Tm::NatLit(n)),
    {
        let th = self.theory();
        if y != Tm::NatLit(n) {
            assert(nat_step(th, y, Tm::NatLit(0)));
            red_step(th, y, Tm::NatLit(0));
            red_trans(th, x, y, Tm::NatLit(0));
        }
    }

    /// The operation that a name stands for.
    pub fn nat_op(&self, name: NamePtr) -> (r: Option<NatBinOp>)
        requires
            self.wf(),
            self.ctx.has_name(name),
        ensures
            r == op_named(self.theory().names, name@),
    {
        proof {
            self.ctx.known_names();
        }
        let c = self.ctx.name_cache;
        if self.ctx.is_known(name, c.nat_add) {
            Some(NatBinOp::Add)
        } else if self.ctx.is_known(name, c.nat_sub) {
            Some(NatBinOp::Sub)
        } else if self.ctx.is_known(name, c.nat_mul) {
            Some(NatBinOp::Mul)
        } else if self.ctx.is_known(name, c.nat_pow) {
            Some(NatBinOp::Pow)
        } else if self.ctx.is_known(name, c.nat_mod) {
            Some(NatBinOp::Mod)
        } else if self.ctx.is_known(name, c.nat_div) {
            Some(NatBinOp::Div)
        } else if self.ctx.is_known(name, c.nat_beq) {
            Some(NatBinOp::Beq)
        } else if self.ctx.is_known(name, c.nat_ble) {
            Some(NatBinOp::Ble)
        } else if self.ctx.is_known(name, c.nat_land) {
            Some(NatBinOp::LAnd)
        } else if self.ctx.is_known(name, c.nat_lor) {
            Some(NatBinOp::LOr)
        } else if self.ctx.is_known(name, c.nat_xor) {
            Some(NatBinOp::XOr)
        } else if self.ctx.is_known(name, c.nat_gcd) {
            Some(NatBinOp::Gcd)
        } else if self.ctx.is_known(name, c.nat_shl) {
            Some(NatBinOp::Shl)
        } else if self.ctx.is_known(name, c.nat_shr) {
            Some(NatBinOp::Shr)
        } else {
            None
        }
    }

    /// Reduces an operation on numbers: the successor, or one of the binary operations that
    /// are computed. Terms with free variables are left alone.
    pub fn try_reduce_nat(&mut self, e: ExprPtr, fuel: u64) -> (r: Result<Option<ExprPtr>, Stop>)
        requires
            old(self).wf(),
            old(self).ctx.has_expr(e),
        ensures
            final(self).wf(),
            old(self).evolves(*final(self)),
            r matches Ok(Some(p)) ==> final(self).ctx.has_expr(p) && red(
                old(self).theory(),
                e@,
                p@,
            ),
            !old(self).theory().nat_ext || has_local(e@) ==> r == Ok::<Option<ExprPtr>, Stop>(None),
            inert(old(self).theory(), e@) ==> r == Ok::<Option<ExprPtr>, Stop>(None) || (fuel == 0
                && r == Err::<Option<ExprPtr>, Stop>(Stop::OutOfFuel)),
            old(self).theory().nat_ext && !has_local(e@) && fuel > 1 ==> (head(e@) matches Tm::Const(
                n,
                _,
            ) ==> {
                let xs = args(e@);
                let th = old(self).theory();
                &&& is_named(th.names.nat_succ, n) && xs.len() == 1 && xs[0] is NatLit ==> (
                r matches Ok(Some(p)) && p@ == Tm::NatLit(xs[0]->NatLit_0 + 1))
                &&& xs.len() == 2 && xs[0] is NatLit && xs[1] is NatLit && op_named(
                    th.names,
                    n,
                ) is Some ==> match r {
                    Ok(Some(p)) => is_nat_out(
                        th.names,
                        nat_bin_out(
                            op_named(th.names, n)->0,
                            xs[0]->NatLit_0,
                            xs[1]->NatLit_0,
                        ),
                        p@,
                    ),
                    Ok(None) => op_named(th.names, n)->0 is Beq || op_named(
                        th.names,
                        n,
                    )->0 is Ble,
                    Err(s) => s == Stop::NumberTooLarge,
                }
            }),
            r matches Ok(o) ==> nat_says(old(self).theory(), e@, tm_of(o)),
            nat_at(old(self).theory(), e@, fuel as nat) is Some ==> r is Ok,
        decreases fuel,
    {
        proof {
            nat_first(self.theory(), e@);
            reveal(whnf_says);
        }
        let ghost th = self.theory();
        if !self.ctx.nat_extension {
            return Ok(None);
        }
        if self.ctx.has_fvars(e) {
            return Ok(None);
        }
        if fuel == 0 {
            return Err(Stop::OutOfFuel);
        }
        proof {
            self.ctx.known_names();
        }
        let (f, xs) = self.ctx.unfold_apps(e);
        let (name, levels) = match self.ctx.try_const_info(f) {
            Some(p) => p,
            None => {
                return Ok(None);
            },
        };
        let ghost zs = trees(xs@);
        if xs.len() == 1 {
            if !self.ctx.is_known(name, self.ctx.name_cache.nat_succ) {
                return Ok(None);
            }
            let v = match self.whnf(xs[0], fuel - 1) {
                Ok(p) => p,
                Err(s) => {
                    return Err(s);
                },
            };
            let r = self.ctx.get_bignum_succ_from_expr(v);
            proof {
                if let Some(p) = r {
                    let n = (p@->NatLit_0 - 1) as nat;
                    self.number(zs[0], v@, n);
                    red_apps_at(th, f@, zs, 0, Tm::NatLit(n));
                    let ys = zs.update(0, Tm::NatLit(n));
                    const_apps(name@, levels@, ys);
                    assert(nat_step(th, apps(f@, ys), p@));
                    red_step(th, apps(f@, ys), p@);
                    red_trans(th, e@, apps(f@, ys), p@);
                }
            }
            return Ok(r);
        }
        if xs.len() == 2 {
            let op = match self.nat_op(name) {
                Some(op) => op,
                None => {
                    return Ok(None);
                },
            };
            let r = match self.do_nat_bin(xs[0], xs[1], op, fuel - 1) {
                Ok(p) => p,
                Err(s) => {
                    return Err(s);
                },
            };
            proof {
                if let Some(p) = r {
                    let (m, n) = choose|m: nat, n: nat|
                        #![trigger nat_bin_out(op, m, n)]
                        red(th, zs[0], Tm::NatLit(m)) && red(th, zs[1], Tm::NatLit(n))
                            && is_nat_out(th.names, nat_bin_out(op, m, n), p@);
                    let ys = seq![Tm::NatLit(m), Tm::NatLit(n)];
                    red_refl(th, f@);
                    red_apps(th, f@, f@, zs, ys);
                    const_apps(name@, levels@, ys);
                    assert(nat_step(th, apps(f@, ys), p@));
                    red_step(th, apps(f@, ys), p@);
                    red_trans(th, e@, apps(f@, ys), p@);
                }
            }
            return Ok(r);
        }
        Ok(None)
    }

    /// The field that is projected from a structure, where the structure reduces to a
    /// constructor.
    pub fn reduce_proj(&mut self, idx: usize, structure: ExprPtr, fuel: u64) -> (r: Result<
        Option<ExprPtr>,
        Stop,
    >)
        requires
            old(self).wf(),
            old(self).ctx.has_expr(structure),
        ensures
            final(self).wf(),
            old(self).evolves(*final(self)),
            r matches Ok(Some(p)) ==> final(self).ctx.has_expr(p) && forall|nm: Nm|
                #[trigger] red(
                    old(self).theory(),
                    Tm::Proj(nm, idx as nat, Box::new(structure@)),
                    p@,
                ),
            inert(old(self).theory(), structure@) && !(structure@ is StrLit) && fuel > 2
                ==> match ctor_at_head(old(self).theory(), structure@) {
                Some(m) => if m + idx < args(structure@).len() {
                    r matches Ok(Some(p)) && p@ == args(structure@)[m + idx as int]
                } else {
                    r == Err::<Option<ExprPtr>, Stop>(Stop::IllTyped)
                },
                None => r == Ok::<Option<ExprPtr>, Stop>(None),
            },
            r matches Ok(o) ==> proj_says(old(self).theory(), idx as nat, structure@, tm_of(o)),
            proj_at(old(self).theory(), idx as nat, structure@, fuel as nat) is Some ==> r is Ok,
        decreases fuel,
    {
        proof {
            proj_first(self.theory(), idx as nat, structure@);
            reveal(whnf_says);
        }
        if fuel == 0 {
            return Err(Stop::OutOfFuel);
        }
        let ghost th = self.theory();
        let mut s = self.whnf(structure, fuel - 1)?;
        let lit = match self.ctx.read_expr(s) {
            Expr::StringLit { ptr, .. } => self.str_lit_to_ctor_reducing(ptr, fuel - 1)?,
            _ => None,
        };
        if let Some(c) = lit {
            proof {
                red_trans(th, structure@, s@, c@);
            }
            s = c;
        }
        let (f, name, levels, xs) = match self.ctx.unfold_const_apps(s) {
            Some(p) => p,
            None => {
                return Ok(None);
            },
        };
        let num_params: usize = match self.get_constructor(name) {
            Some(c) => c.num_params as usize,
            None => {
                return Ok(None);
            },
        };
        if idx >= xs.len() || num_params >= xs.len() - idx {
            return Err(Stop::IllTyped);
        }
        let p = xs[num_params + idx];
        proof {
            assert forall|nm: Nm| #[trigger]
                red(th, Tm::Proj(nm, idx as nat, Box::new(structure@)), p@) by {
                red_proj(th, nm, idx as nat, structure@, s@);
                let a = Tm::Proj(nm, idx as nat, Box::new(s@));
                assert(root_step(th, a, p@));
                red_step(th, a, p@);
                red_trans(th, Tm::Proj(nm, idx as nat, Box::new(structure@)), a, p@);
            }
        }
        Ok(Some(p))
    }

    /// The constructor that the major premise of a recursor is, where the recursor is for a
    /// type whose only constructor carries no data and the types agree.
    pub fn to_ctor_when_k(&mut self, major: ExprPtr, rec: &RecursorData, fuel: u64) -> (r: Result<
        Option<ExprPtr>,
        Stop,
    >)
        requires
            old(self).wf(),
            old(self).ctx.has_expr(major),
            old(self).ctx.has_declar(Declar::Recursor(*rec)),
        ensures
            final(self).wf(),
            old(self).evolves(*final(self)),
            r matches Ok(Some(p)) ==> final(self).ctx.has_expr(p) && replaces_major(
                old(self).theory(),
                *rec,
                major@,
                p@,
            ),
            !rec.is_k ==> r == Ok::<Option<ExprPtr>, Stop>(None),
            rec.is_k && fuel > 3 ==> (direct(old(self).theory(), Ck::Only, major@) matches Some(
                Tm::Const(ind, ls),
            ) ==> (!acts(old(self).theory(), ind) && major_induct(*rec) == Some(ind) ==> (first_ctor(
                old(self).theory(),
                ind,
            ) matches Some(c) ==> (direct(old(self).theory(), Ck::Only, Tm::Const(c, ls)) == Some(
                Tm::Const(ind, ls),
            ) ==> (r matches Ok(Some(p)) && p@ == Tm::Const(c, ls)))))),
            r matches Ok(o) ==> k_says(old(self).theory(), *rec, major@, tm_of(o)),
            k_at(old(self).theory(), *rec, major@, fuel as nat) is Some ==> r is Ok,
        decreases fuel,
    {
        proof {
            k_first(self.theory(), *rec, major@);
            reveal(whnf_says);
            reveal(type_says);
        }
        let ghost th = self.theory();
        if !rec.is_k {
            return Ok(None);
        }
        if fuel == 0 {
            return Err(Stop::OutOfFuel);
        }
        let major_ty = self.infer_then_whnf(major, InferFlag::InferOnly, fuel - 1)?;
        let ghost raw = choose|raw: Tm| #[trigger]
            inf(th, Ck::Only, major@, raw) && reduced(th, raw, major_ty@);
        assert(args(major_ty@).take(0) =~= Seq::<Tm>::empty());
        let (f, name, levels, xs) = match self.ctx.unfold_const_apps(major_ty) {
            Some(p) => p,
            None => {
                return Ok(None);
            },
        };
        let induct = match self.ctx.get_major_induct(rec) {
            Some(n) => n,
            None => {
                return Ok(None);
            },
        };
        if !self.ctx.eq_name(name, induct) {
            return Ok(None);
        }
        let ctor = match self.mk_nullary_ctor(major_ty, rec.num_params as usize) {
            Some(p) => p,
            None => {
                return Ok(None);
            },
        };
        let ctor_ty = self.infer(ctor, InferFlag::InferOnly, fuel - 1)?;
        if self.def_eq(major_ty, ctor_ty, false, fuel - 1)? {
            proof {
                inf_loose(th, Ck::Only, major@, raw);
                inf_loose(th, Ck::Only, ctor@, ctor_ty@);
                let zs = trees(xs@);
                let m = if rec.num_params <= zs.len() {
                    rec.num_params as int
                } else {
                    zs.len() as int
                };
                let c = first_ctor(th, name@)->0;
                assert forall|n: Nm, ks: Seq<Lv>, ws: Seq<Tm>|
                    #![trigger apps(Tm::Const(n, ks), ws.update(rec.major_pos() as int, ctor@))]
                    th.recursor(n) == Some(*rec) && ws.len() > rec.major_pos()
                        && ws[rec.major_pos() as int] == major@ implies red(
                    th,
                    apps(Tm::Const(n, ks), ws),
                    apps(Tm::Const(n, ks), ws.update(rec.major_pos() as int, ctor@)),
                ) by {
                    red_k(th, n, ks, ws, *rec, raw, name@, levels@, zs, m, c, ctor_ty@);
                }
            }
            Ok(Some(ctor))
        } else {
            proof {
                assert(forall|n: nat| !#[trigger] deq_at(th, major_ty@, ctor_ty@, false, n));
            }
            Ok(None)
        }
    }

    /// The major premise of a recursor for a structure as the constructor of its
    /// projections, where the structure is no proposition and not a constructor already.
    pub fn iota_try_eta_struct(
        &mut self,
        rec: &RecursorData,
        ind_name: NamePtr,
        e: ExprPtr,
        fuel: u64,
    ) -> (r: Result<ExprPtr, Stop>)
        requires
            old(self).wf(),
            old(self).ctx.has_expr(e),
            old(self).ctx.has_name(ind_name),
            major_induct(*rec) == Some(ind_name@),
        ensures
            final(self).wf(),
            old(self).evolves(*final(self)),
            r matches Ok(p) ==> final(self).ctx.has_expr(p) && replaces_major(
                old(self).theory(),
                *rec,
                e@,
                p@,
            ),
            !old(self).theory().is_struct(ind_name@) || (head(e@) matches Tm::Const(c, _) && old(
                self,
            ).theory().ctor_params(c) is Some) ==> r == Ok::<ExprPtr, Stop>(e),
            old(self).theory().is_struct(ind_name@) && ctor_at_head(old(self).theory(), e@) is None
                && fuel > 3 ==> (direct(old(self).theory(), Ck::Only, e@) matches Some(
                Tm::Const(ind, ls),
            ) ==> (ind == ind_name@ && !acts(old(self).theory(), ind) ==> (direct(
                old(self).theory(),
                Ck::Only,
                Tm::Const(ind, ls),
            ) matches Some(Tm::Sort(l)) ==> {
                &&& lv_simplify(l) == Lv::Zero ==> r == Ok::<ExprPtr, Stop>(e)
                &&& lv_simplify(l) != Lv::Zero ==> (first_ctor(old(self).theory(), ind) matches Some(c)
                    ==> (old(self).theory().ctor_params(c) == Some(0nat) ==> (r matches Ok(p) && p@
                    == apps(
                    Tm::Const(c, ls),
                    projections(ind, e@, ctor_fields(old(self).theory(), c)->0),
                ))))
            }))),
            r matches Ok(p) ==> eta_says(old(self).theory(), ind_name@, e@, p@),
            eta_at(old(self).theory(), ind_name@, e@, fuel as nat) is Some ==> r is Ok,
        decreases fuel,
    {
        proof {
            eta_first(self.theory(), ind_name@, e@);
            reveal(whnf_says);
        }
        let ghost th = self.theory();
        proof {
            replaces_same(th, *rec, e@);
        }
        if !self.can_be_struct(ind_name) || self.is_ctor_app(e).is_some() {
            return Ok(e);
        }
        if fuel == 0 {
            return Err(Stop::OutOfFuel);
        }
        let e_type = self.infer_then_whnf(e, InferFlag::InferOnly, fuel - 1)?;
        let ghost raw = choose|raw: Tm| #[trigger]
            inf(th, Ck::Only, e@, raw) && reduced(th, raw, e_type@);
        assert(args(e_type@).take(0) =~= Seq::<Tm>::empty());
        let (f, name, levels, xs) = match self.ctx.unfold_const_apps(e_type) {
            Some(p) => p,
            None => {
                return Ok(e);
            },
        };
        if !self.ctx.eq_name(name, ind_name) {
            return Ok(e);
        }
        let e_sort = self.infer_then_whnf(e_type, InferFlag::InferOnly, fuel - 1)?;
        let prop = self.ctx.prop();
        if self.ctx.eq_expr(e_sort, prop) {
            return Ok(e);
        }
        match self.expand_eta_struct_aux(e_type, e)? {
            Some(p) => {
                proof {
                    inf_loose(th, Ck::Only, e@, raw);
                    let zs = trees(xs@);
                    let c = first_ctor(th, name@)->0;
                    let k = ctor_fields(th, c)->0;
                    let m = th.ctor_params(c)->0 as int;
                    assert forall|n: Nm, ks: Seq<Lv>, ws: Seq<Tm>|
                        #![trigger apps(Tm::Const(n, ks), ws.update(rec.major_pos() as int, p@))]
                        th.recursor(n) == Some(*rec) && ws.len() > rec.major_pos()
                            && ws[rec.major_pos() as int] == e@ implies red(
                        th,
                        apps(Tm::Const(n, ks), ws),
                        apps(Tm::Const(n, ks), ws.update(rec.major_pos() as int, p@)),
                    ) by {
                        red_eta(th, n, ks, ws, *rec, raw, name@, levels@, zs, m, c, k);
                    }
                }
                Ok(p)
            },
            None => Ok(e),
        }
    }

    /// Reduces a recursor that is applied to its major premise, where that is a constructor
    /// or reduces to one.
    #[verifier::rlimit(80)]
    pub fn reduce_rec(
        &mut self,
        const_name: NamePtr,
        const_levels: LevelsPtr,
        xs: &Vec<ExprPtr>,
        fuel: u64,
    ) -> (r: Result<Option<ExprPtr>, Stop>)
        requires
            old(self).wf(),
            old(self).ctx.has_name(const_name),
            old(self).ctx.has_levels(const_levels),
            old(self).ctx.has_exprs(xs@),
        ensures
            final(self).wf(),
            old(self).evolves(*final(self)),
            r matches Ok(Some(p)) ==> final(self).ctx.has_expr(p) && red(
                old(self).theory(),
                apps(Tm::Const(const_name@, const_levels@), trees(xs@)),
                p@,
            ),
            match old(self).theory().recursor(const_name@) {
                Some(rec) => xs@.len() <= rec.major_pos(),
                None => true,
            } ==> r == Ok::<Option<ExprPtr>, Stop>(None),
            match old(self).theory().recursor(const_name@) {
                Some(rec) => xs@.len() > rec.major_pos() && !rec.is_k && major_induct(
                    rec,
                ) is Some && fuel > 2 && {
                    let m = xs@[rec.major_pos() as int]@;
                    inert(old(self).theory(), m) && ctor_at_head(old(self).theory(), m) is Some
                } ==> {
                    let m = xs@[rec.major_pos() as int]@;
                    forall|i: int| #[trigger]
                        rule_for(rec.rec_rules@, head(m)->Const_0, i) ==> if args(m).len()
                            >= rec.rec_rules@[i].ctor_telescope_size_wo_params {
                            r matches Ok(Some(p)) && p@ == iota_result(
                                rec,
                                rec.rec_rules@[i],
                                const_levels@,
                                trees(xs@),
                                args(m),
                            )
                        } else {
                            r == Err::<Option<ExprPtr>, Stop>(Stop::IllTyped)
                        }
                },
                None => true,
            },
            r matches Ok(o) ==> rec_says(
                old(self).theory(),
                const_name@,
                const_levels@,
                trees(xs@),
                tm_of(o),
            ),
            rec_at(
                old(self).theory(),
                const_name@,
                const_levels@,
                trees(xs@),
                fuel as nat,
            ) is Some ==> r is Ok,
        decreases fuel,
    {
        proof {
            rec_first(self.theory(), const_name@, const_levels@, trees(xs@));
            reveal(whnf_says);
        }
        let ghost th = self.theory();
        let rec = match self.get_recursor(const_name) {
            Some(r) => r,
            None => {
                return Ok(None);
            },
        };
        let pos: usize = rec.major_idx();
        if pos >= xs.len() {
            return Ok(None);
        }
        if fuel == 0 {
            return Err(Stop::OutOfFuel);
        }
        let major0 = xs[pos];
        let major1 = match self.to_ctor_when_k(major0, rec, fuel - 1)? {
            Some(p) => p,
            None => {
                proof {
                    replaces_same(th, *rec, major0@);
                }
                major0
            },
        };
        let major2 = self.whnf(major1, fuel - 1)?;
        proof {
            replaces_red(th, *rec, major1@, major2@);
            replaces_trans(th, *rec, major0@, major1@, major2@);
            replaces_same(th, *rec, major2@);
            major_first(th, *rec, major2@);
        }
        let major = match self.ctx.read_expr(major2) {
            Expr::NatLit { ptr, .. } => match self.ctx.nat_lit_to_constructor(ptr) {
                Some(p) => {
                    proof {
                        red_step(th, major2@, p@);
                        replaces_red(th, *rec, major2@, p@);
                    }
                    p
                },
                None => major2,
            },
            Expr::StringLit { ptr, .. } => match self.str_lit_to_ctor_reducing(ptr, fuel - 1)? {
                Some(p) => {
                    proof {
                        replaces_red(th, *rec, major2@, p@);
                    }
                    p
                },
                None => major2,
            },
            _ => {
                let induct = match self.ctx.get_major_induct(rec) {
                    Some(n) => n,
                    None => {
                        return Err(Stop::IllTyped);
                    },
                };
                self.iota_try_eta_struct(rec, induct, major2, fuel - 1)?
            },
        };
        proof {
            replaces_trans(th, *rec, major0@, major2@, major@);
        }
        let (ctor, ctor_args) = self.ctx.unfold_apps(major);
        let rule = match self.get_rec_rule(&rec.rec_rules, ctor) {
            Some(r) => r,
            None => {
                return Ok(None);
            },
        };
        let size: usize = rule.ctor_telescope_size_wo_params as usize;
        if ctor_args.len() < size {
            return Err(Stop::IllTyped);
        }
        let extra: usize = ctor_args.len() - size;
        let ghost i = choose|i: int| #[trigger]
            rule_for(rec.rec_rules@, ctor@->Const_0, i) && rec.rec_rules@[i] == rule;
        proof {
            rule_at_is(*rec, ctor@->Const_0, i);
        }
        let fixed: usize = rec.fixed_args();
        let n_args: usize = xs.len();
        let n_ctor: usize = ctor_args.len();
        assert(self.ctx.has_declar(Declar::Recursor(*rec)));
        assert(self.ctx.has_expr(rule.val)) by {
            assert(self.ctx.has_expr(rec.rec_rules@[i].val));
        }
        let v = self.ctx.subst_expr_levels(rule.val, rec.info.uparams, const_levels);
        let v = self.ctx.foldl_apps(v, xs, 0, fixed);
        let v = self.ctx.foldl_apps(v, &ctor_args, extra, n_ctor);
        let v = self.ctx.foldl_apps(v, xs, pos + 1, n_args);
        proof {
            let f = Tm::Const(const_name@, const_levels@);
            let zs = trees(xs@);
            let ws = zs.update(pos as int, major@);
            let ys = trees(ctor_args@);
            assert(red(th, apps(f, zs), apps(f, zs.update(rec.major_pos() as int, major@))));
            red_iota(
                th,
                const_name@,
                const_levels@,
                ws,
                *rec,
                i,
                ctor@->Const_0,
                ctor@->Const_1,
                ys,
            );
            assert(zs.subrange(0, fixed as int) =~= ws.take(fixed as int));
            assert(ys.subrange(extra as int, n_ctor as int) =~= ys.skip(ys.len() - size as int));
            assert(zs.subrange(pos + 1, n_args as int) =~= ws.skip(pos + 1));
            red_trans(th, apps(f, zs), apps(f, ws), v@);
        }
        Ok(Some(v))
    }

    /// Reduces an eliminator of quotients that is applied to a member of a class.
    pub fn reduce_quot(
        &mut self,
        c_name: NamePtr,
        c_levels: LevelsPtr,
        xs: &Vec<ExprPtr>,
        fuel: u64,
    ) -> (r: Result<Option<ExprPtr>, Stop>)
        requires
            old(self).wf(),
            old(self).ctx.has_name(c_name),
            old(self).ctx.has_levels(c_levels),
            old(self).ctx.has_exprs(xs@),
        ensures
            final(self).wf(),
            old(self).evolves(*final(self)),
            r matches Ok(Some(p)) ==> final(self).ctx.has_expr(p) && red(
                old(self).theory(),
                apps(Tm::Const(c_name@, c_levels@), trees(xs@)),
                p@,
            ),
            !old(self).theory().is_quot(c_name@) || quot_pos(
                old(self).theory().names,
                c_name@,
            ) is None ==> r == Ok::<Option<ExprPtr>, Stop>(None),
            old(self).theory().is_quot(c_name@) && old(self).theory().names.quot_lift is Some && (
            quot_pos(old(self).theory().names, c_name@) matches Some(pos) && pos < xs@.len()
                && inert(old(self).theory(), xs@[pos as int]@)) && fuel > 2 ==> {
                let pos = quot_pos(old(self).theory().names, c_name@)->0;
                let q = xs@[pos as int]@;
                if (head(q) matches Tm::Const(n, _) && is_named(
                    old(self).theory().names.quot_mk,
                    n,
                )) && args(q).len() == 3 {
                    r matches Ok(Some(p)) && p@ == apps(
                        Tm::App(Box::new(xs@[3]@), Box::new(args(q)[2])),
                        trees(xs@).skip(pos as int + 1),
                    )
                } else {
                    r == Ok::<Option<ExprPtr>, Stop>(None)
                }
            },
            r matches Ok(o) ==> quot_says(old(self).theory(), c_name@, trees(xs@), tm_of(o)),
            quot_at(old(self).theory(), c_name@, trees(xs@), fuel as nat) is Some ==> r is Ok,
        decreases fuel,
    {
        proof {
            quot_first(self.theory(), c_name@, trees(xs@));
            reveal(whnf_says);
        }
        let ghost th = self.theory();
        match self.get_declar(c_name) {
            Some(Declar::Quot { .. }) => {},
            _ => {
                return Ok(None);
            },
        }
        proof {
            self.ctx.known_names();
        }
        let cache = self.ctx.name_cache;
        let pos: usize = if self.ctx.is_known(c_name, cache.quot_lift) {
            5
        } else if cache.quot_lift.is_some() && self.ctx.is_known(c_name, cache.quot_ind) {
            4
        } else {
            return Ok(None);
        };
        if pos >= xs.len() {
            return Ok(None);
        }
        if fuel == 0 {
            return Err(Stop::OutOfFuel);
        }
        let qmk = self.whnf(xs[pos], fuel - 1)?;
        let (q_head, q_args) = self.ctx.unfold_apps(qmk);
        match self.ctx.read_expr(q_head) {
            Expr::Const { name, .. } => {
                proof {
                    self.ctx.known_names();
                }
                if !self.ctx.is_known(name, cache.quot_mk) || q_args.len() != 3 {
                    return Ok(None);
                }
            },
            _ => {
                return Ok(None);
            },
        }
        let n: usize = xs.len();
        let appd = self.ctx.mk_app(xs[3], q_args[2]);
        let out = self.ctx.foldl_apps(appd, xs, pos + 1, n);
        proof {
            let f = Tm::Const(c_name@, c_levels@);
            let zs = trees(xs@);
            red_apps_at(th, f, zs, pos as int, qmk@);
            let ws = zs.update(pos as int, qmk@);
            const_apps(c_name@, c_levels@, ws);
            assert(zs.subrange(pos + 1, n as int) =~= ws.skip(pos + 1));
            assert(quot_step(th, apps(f, ws), out@));
            red_step(th, apps(f, ws), out@);
            red_trans(th, apps(f, zs), apps(f, ws), out@);
        }
        Ok(Some(out))
    }
}

/// The first pointers of a list.
pub fn first_of(xs: &Vec<ExprPtr>, n: usize) -> (r: Vec<ExprPtr>)
    requires
        n <= xs@.len(),
    ensures
        r@ == xs@.take(n as int),
{
    let mut out: Vec<ExprPtr> = Vec::new();
    let mut i: usize = 0;
    while i < n
        invariant
            i <= n <= xs@.len(),
            out@ == xs@.take(i as int),
        decreases n - i,
    {
        out.push(xs[i]);
        assert(out@ =~= xs@.take(i + 1));
        i = i + 1;
    }
    out
}

} // verus!
