//! Definitional equality of terms.
use crate::checker::{fits_grows, inert, InferFlag, Stop, TypeChecker};
use crate::expr::Expr;
use crate::infer::direct;
use crate::judge::{lv_same, opened, Ck, Theory};
use crate::laws::{
    deq, deq_app, deq_const, deq_eta, deq_irrel, deq_lam, deq_pi, deq_proj, deq_reds, deq_refl,
    deq_sort, deq_symm, inf_loose,
};
use crate::ops::trees;
use crate::ptr::{ExprPtr, LevelPtr, LevelsPtr};
use crate::steps::{
    args_at, args_next, at_variable, deq_at, deq_core_at, deq_core_first, deq_first, deq_never, deq_reduced_at,
    deq_reduced_first, eta_deq_at, eta_deq_first, heads_at, heads_first, irrel_at, levels_match, proof_at,
    prop_says, type_says, whnf_says,
};
use crate::tree::{
    apps, apps_push, args, depth_bound, inst1, larger, lv_eval, lv_simplify, lv_simplify_value, Lv, Nm, Tm,
};
use vstd::prelude::*;

verus! {

broadcast use {
    fits_grows,
    crate::value::vals_fit_grows,
    crate::vcache::vcache_grows_ctx,
};

/// Levels with one simpler form are equal.
proof fn same_simplified(a: Lv, b: Lv)
    requires
        lv_simplify(a) == lv_simplify(b),
    ensures
        lv_same(a, b),
{
    assert forall|s: spec_fn(Nm) -> nat| #[trigger] lv_eval(a, s) == lv_eval(b, s) by {
        lv_simplify_value(a, s);
        lv_simplify_value(b, s);
    }
}

/// The type of a term, and whether this shows directly that the term is a proof.
pub open spec fn shown_proof(th: Theory, e: Tm) -> Option<(Tm, bool)> {
    match direct(th, Ck::Only, e) {
        Some(t) => match direct(th, Ck::Only, t) {
            Some(Tm::Sort(l)) => Some((t, lv_simplify(l) == Lv::Zero)),
            _ => None,
        },
        None => None,
    }
}

impl<'t> TypeChecker<'t> {
    /// Stops where two terms are not found to be equal by definition.
    pub fn assert_def_eq(&mut self, u: ExprPtr, v: ExprPtr, fuel: u64) -> (r: Result<(), Stop>)
        requires
            old(self).wf(),
            old(self).ctx.has_expr(u),
            old(self).ctx.has_expr(v),
        ensures
            final(self).wf(),
            old(self).evolves(*final(self)),
            r is Ok ==> deq(old(self).theory(), u@, v@),
            u@ == v@ && fuel > 0 ==> r is Ok,
            fuel > 0 && deq_at(old(self).theory(), u@, v@, false, (fuel - 1) as nat) ==> r is Ok,
        decreases fuel,
    {
        if fuel == 0 {
            return Err(Stop::OutOfFuel);
        }
        match self.def_eq(u, v, false, fuel - 1) {
            Ok(true) => Ok(()),
            Ok(false) => Err(Stop::NotEqual),
            Err(s) => Err(s),
        }
    }

    /// Whether two terms are found to be equal by definition.
    pub fn def_eq(&mut self, x: ExprPtr, y: ExprPtr, skip_prop_check: bool, fuel: u64) -> (r: Result<
        bool,
        Stop,
    >)
        requires
            old(self).wf(),
            old(self).ctx.has_expr(x),
            old(self).ctx.has_expr(y),
        ensures
            final(self).wf(),
            old(self).evolves(*final(self)),
            r == Ok::<bool, Stop>(true) ==> deq(old(self).theory(), x@, y@),
            x@ == y@ ==> r == Ok::<bool, Stop>(true),
            deq_at(old(self).theory(), x@, y@, skip_prop_check, fuel as nat) ==> r == Ok::<bool, Stop>(
                true,
            ),
            r == Ok::<bool, Stop>(false) ==> forall|n: nat| !#[trigger] deq_at(
                old(self).theory(),
                x@,
                y@,
                skip_prop_check,
                n,
            ),
        decreases fuel,
    {
        proof {
            deq_first(self.theory(), x@, y@, skip_prop_check);
            reveal(whnf_says);
            reveal(type_says);
        }
        let ghost th = self.theory();
        if self.ctx.eq_expr(x, y) {
            proof {
                deq_refl(th, x@);
            }
            return Ok(true);
        }
        if self.recall_eq(x, y) {
            return Ok(true);
        }
        if fuel == 0 {
            return Err(Stop::OutOfFuel);
        }
        if !skip_prop_check {
            proof {
                assert forall|n: nat| #[trigger] deq_at(th, x@, y@, false, n) && x@ != y@ implies irrel_at(
                    th,
                    x@,
                    y@,
                    (n - 2) as nat,
                ) || deq_core_at(th, x@, y@, (n - 1) as nat) by {}
            }
            if self.proof_irrel_eq(x, y, fuel - 1)? {
                self.remember_eq(x, y);
                return Ok(true);
            }
        }
        let r = self.def_eq_core(x, y, fuel - 1)?;
        if r {
            self.remember_eq(x, y);
        }
        Ok(r)
    }

    /// Whether two terms are proofs of one proposition.
    pub fn proof_irrel_eq(&mut self, x: ExprPtr, y: ExprPtr, fuel: u64) -> (r: Result<bool, Stop>)
        requires
            old(self).wf(),
            old(self).ctx.has_expr(x),
            old(self).ctx.has_expr(y),
        ensures
            final(self).wf(),
            old(self).evolves(*final(self)),
            r == Ok::<bool, Stop>(true) ==> deq(old(self).theory(), x@, y@),
            fuel > 3 ==> (shown_proof(old(self).theory(), x@) matches Some((t, a)) ==> {
                &&& !a ==> r == Ok::<bool, Stop>(false)
                &&& a ==> (shown_proof(old(self).theory(), y@) matches Some((u, b)) ==> {
                    &&& !b ==> r == Ok::<bool, Stop>(false)
                    &&& b && t == u ==> r == Ok::<bool, Stop>(true)
                })
            }),
            fuel > 0 ==> (proof_at(old(self).theory(), x@, (fuel - 1) as nat) matches Some((a, t)) ==> {
                &&& !a ==> r == Ok::<bool, Stop>(false)
                &&& a ==> (proof_at(old(self).theory(), y@, (fuel - 1) as nat) matches Some((b, u))
                    ==> {
                    &&& !b ==> r == Ok::<bool, Stop>(false)
                    &&& b && deq_at(old(self).theory(), t, u, false, (fuel - 1) as nat) ==> r == Ok::<
                        bool,
                        Stop,
                    >(true)
                })
            }),
            r == Ok::<bool, Stop>(false) ==> forall|n: nat| !#[trigger] irrel_at(old(self).theory(), x@, y@, n),
        decreases fuel,
    {
        proof {
            reveal(whnf_says);
            reveal(type_says);
        }
        if fuel == 0 {
            return Err(Stop::OutOfFuel);
        }
        let ghost th = self.theory();
        let (l_proof, l_type) = self.is_proof(x, fuel - 1)?;
        if !l_proof {
            return Ok(false);
        }
        let (r_proof, r_type) = self.is_proof(y, fuel - 1)?;
        if !r_proof {
            return Ok(false);
        }
        let b = self.def_eq(l_type, r_type, false, fuel - 1)?;
        proof {
            if b {
                inf_loose(th, Ck::Only, x@, l_type@);
                inf_loose(th, Ck::Only, y@, r_type@);
                deq_irrel(th, x@, y@, l_type@, r_type@);
            }
        }
        Ok(b)
    }

    /// Whether two levels have one simpler form.
    pub fn eq_simplified(&mut self, l: LevelPtr, m: LevelPtr) -> (r: bool)
        requires
            old(self).wf(),
            old(self).ctx.has_level(l),
            old(self).ctx.has_level(m),
        ensures
            final(self).wf(),
            old(self).evolves(*final(self)),
            r == (lv_simplify(l@) == lv_simplify(m@)),
            r ==> lv_same(l@, m@),
    {
        let a = self.ctx.simplify(l);
        let b = self.ctx.simplify(m);
        let r = self.ctx.eq_level(a, b);
        proof {
            if r {
                same_simplified(l@, m@);
            }
        }
        r
    }

    /// Whether the levels of two lists have the same simpler forms.
    pub fn eq_levels_simplified(&mut self, ls: LevelsPtr, ms: LevelsPtr) -> (r: bool)
        requires
            old(self).wf(),
            old(self).ctx.has_levels(ls),
            old(self).ctx.has_levels(ms),
        ensures
            final(self).wf(),
            old(self).evolves(*final(self)),
            r == levels_match(ls@, ms@),
            r ==> forall|i: int| 0 <= i < ls@.len() ==> #[trigger] lv_same(ls@[i], ms@[i]),
    {
        let n: usize = self.ctx.read_levels(ls).len();
        let m: usize = self.ctx.read_levels(ms).len();
        assert(n == ls@.len() && m == ms@.len());
        if n != m {
            return false;
        }
        let mut i: usize = 0;
        while i < n
            invariant
                i <= n,
                n == ls@.len(),
                n == ms@.len(),
                self.wf(),
                old(self).evolves(*self),
                self.ctx.has_levels(ls),
                self.ctx.has_levels(ms),
                forall|j: int|
                    0 <= j < i ==> #[trigger] lv_simplify(ls@[j]) == lv_simplify(ms@[j]),
                forall|j: int| 0 <= j < i ==> #[trigger] lv_same(ls@[j], ms@[j]),
            decreases n - i,
        {
            let xs = self.ctx.read_levels(ls);
            let ys = self.ctx.read_levels(ms);
            assert(ls@[i as int] == xs@[i as int]@);
            assert(ms@[i as int] == ys@[i as int]@);
            let a = xs[i];
            let b = ys[i];
            if !self.eq_simplified(a, b) {
                assert(lv_simplify(ls@[i as int]) != lv_simplify(ms@[i as int]));
                return false;
            }
            i = i + 1;
        }
        true
    }

    /// Whether the arguments of two lists are found to be equal one by one.
    pub fn def_eq_args(
        &mut self,
        xs: &Vec<ExprPtr>,
        ys: &Vec<ExprPtr>,
        f: ExprPtr,
        g: ExprPtr,
        fuel: u64,
    ) -> (r: Result<bool, Stop>)
        requires
            old(self).wf(),
            old(self).ctx.has_exprs(xs@),
            old(self).ctx.has_exprs(ys@),
            deq(old(self).theory(), f@, g@),
        ensures
            final(self).wf(),
            old(self).evolves(*final(self)),
            r == Ok::<bool, Stop>(true) ==> deq(
                old(self).theory(),
                apps(f@, trees(xs@)),
                apps(g@, trees(ys@)),
            ),
            xs@.len() != ys@.len() ==> r == Ok::<bool, Stop>(false),
            trees(xs@) == trees(ys@) && fuel > 0 ==> r == Ok::<bool, Stop>(true),
            fuel > 0 && xs@.len() == ys@.len() && args_at(
                old(self).theory(),
                trees(xs@),
                trees(ys@),
                (fuel - 1) as nat,
            ) ==> r == Ok::<bool, Stop>(true),
            xs@.len() == ys@.len() ==> (r == Ok::<bool, Stop>(false) ==> forall|n: nat| !#[trigger] args_at(
                old(self).theory(),
                trees(xs@),
                trees(ys@),
                n,
            )),
        decreases fuel,
    {
        if xs.len() != ys.len() {
            return Ok(false);
        }
        if fuel == 0 {
            return Err(Stop::OutOfFuel);
        }
        let ghost th = self.theory();
        let ghost us = trees(xs@);
        let ghost vs = trees(ys@);
        let n: usize = xs.len();
        let mut i: usize = 0;
        assert(us.take(0) =~= Seq::<Tm>::empty());
        assert(vs.take(0) =~= Seq::<Tm>::empty());
        while i < n
            invariant
                fuel > 0,
                i <= n,
                n == xs@.len(),
                n == ys@.len(),
                us == trees(xs@),
                vs == trees(ys@),
                us.len() == n,
                vs.len() == n,
                self.wf(),
                old(self).evolves(*self),
                self.theory() == th,
                th == old(self).theory(),
                self.ctx.has_exprs(xs@),
                self.ctx.has_exprs(ys@),
                deq(th, apps(f@, us.take(i as int)), apps(g@, vs.take(i as int))),
            decreases n - i,
        {
            assert(us[i as int] == xs@[i as int]@ && vs[i as int] == ys@[i as int]@);
            proof {
                if args_at(th, us, vs, (fuel - 1) as nat) {
                    args_next(th, us, vs, i as int, (fuel - 1) as nat);
                }
            }
            if !self.def_eq(xs[i], ys[i], false, fuel - 1)? {
                proof {
                    assert forall|n: nat| !#[trigger] args_at(th, us, vs, n) by {
                        if args_at(th, us, vs, n) {
                            args_next(th, us, vs, i as int, n);
                        }
                    }
                }
                return Ok(false);
            }
            proof {
                let x = xs@[i as int]@;
                let y = ys@[i as int]@;
                deq_app(th, apps(f@, us.take(i as int)), apps(g@, vs.take(i as int)), x, y);
                apps_push(f@, us.take(i as int), x);
                apps_push(g@, vs.take(i as int), y);
                assert(us.take(i as int).push(x) =~= us.take(i + 1));
                assert(vs.take(i as int).push(y) =~= vs.take(i + 1));
            }
            i = i + 1;
        }
        assert(us.take(n as int) =~= us);
        assert(vs.take(n as int) =~= vs);
        Ok(true)
    }

    /// A depth at which no variable of the two terms is, where there is one.
    pub fn above(&self, x: ExprPtr, y: ExprPtr) -> (r: Option<u16>)
        requires
            self.wf(),
            self.ctx.has_expr(x),
            self.ctx.has_expr(y),
        ensures
            match r {
                Some(k) => k == larger(depth_bound(x@), depth_bound(y@)) && k < 0xffff,
                None => larger(depth_bound(x@), depth_bound(y@)) >= 0xffff,
            },
    {
        let a: u32 = self.ctx.depth(x);
        let b: u32 = self.ctx.depth(y);
        let k: u32 = if a >= b {
            a
        } else {
            b
        };
        if k < 0xffff {
            Some(k as u16)
        } else {
            None
        }
    }

    /// Whether the bodies of two binders are found to be equal at a variable of the first
    /// binder's type.
    pub fn def_eq_bodies(
        &mut self,
        x: ExprPtr,
        y: ExprPtr,
        local_of: ExprPtr,
        body_x: ExprPtr,
        body_y: ExprPtr,
        fuel: u64,
    ) -> (r: Result<bool, Stop>)
        requires
            old(self).wf(),
            old(self).ctx.has_expr(x),
            old(self).ctx.has_expr(y),
            old(self).ctx.has_expr(local_of),
            old(self).ctx.has_expr(body_x),
            old(self).ctx.has_expr(body_y),
            local_of@ is Lam || local_of@ is Pi,
        ensures
            final(self).wf(),
            old(self).evolves(*final(self)),
            r == Ok::<bool, Stop>(true) ==> {
                let k = larger(depth_bound(x@), depth_bound(y@)) as u16;
                let v = match local_of@ {
                    Tm::Lam(n, s, t, _) => opened(n, s, *t, k),
                    Tm::Pi(n, s, t, _) => opened(n, s, *t, k),
                    _ => local_of@,
                };
                &&& crate::tree::depth_bound(x@) <= k
                &&& crate::tree::depth_bound(y@) <= k
                &&& deq(old(self).theory(), inst1(body_x@, v), inst1(body_y@, v))
            },
            fuel > 0 ==> {
                if larger(depth_bound(x@), depth_bound(y@)) >= 0xffff {
                    r == Err::<bool, Stop>(Stop::TooManyBinders)
                } else {
                    body_x@ == body_y@ ==> r == Ok::<bool, Stop>(true)
                }
            },
            fuel > 0 && larger(depth_bound(x@), depth_bound(y@)) < 0xffff ==> {
                let k = larger(depth_bound(x@), depth_bound(y@)) as u16;
                let v = match local_of@ {
                    Tm::Lam(n, s, t, _) => opened(n, s, *t, k),
                    Tm::Pi(n, s, t, _) => opened(n, s, *t, k),
                    _ => local_of@,
                };
                deq_at(
                    old(self).theory(),
                    inst1(body_x@, v),
                    inst1(body_y@, v),
                    false,
                    (fuel - 1) as nat,
                ) ==> r == Ok::<bool, Stop>(true)
            },
            r == Ok::<bool, Stop>(false) ==> {
                let k = larger(depth_bound(x@), depth_bound(y@)) as u16;
                let v = match local_of@ {
                    Tm::Lam(n, s, t, _) => opened(n, s, *t, k),
                    Tm::Pi(n, s, t, _) => opened(n, s, *t, k),
                    _ => local_of@,
                };
                deq_never(old(self).theory(), inst1(body_x@, v), inst1(body_y@, v))
            },
        decreases fuel,
    {
        if fuel == 0 {
            return Err(Stop::OutOfFuel);
        }
        let saved: u16 = self.ctx.dbj_level_counter;
        let start: u16 = match self.above(x, y) {
            Some(k) => k,
            None => {
                return Err(Stop::TooManyBinders);
            },
        };
        let (name, style, ty) = match self.ctx.read_expr(local_of) {
            Expr::Lambda { binder_name, binder_style, binder_type, .. } => (
                binder_name,
                binder_style,
                binder_type,
            ),
            Expr::Pi { binder_name, binder_style, binder_type, .. } => (
                binder_name,
                binder_style,
                binder_type,
            ),
            _ => {
                return Err(Stop::NotAPi);
            },
        };
        self.ctx.set_depth(start);
        let local = self.ctx.mk_dbj_level(name, style, ty);
        let ix = self.ctx.inst_one(body_x, local);
        let iy = self.ctx.inst_one(body_y, local);
        let b = self.def_eq(ix, iy, false, fuel - 1);
        self.ctx.set_depth(saved);
        b
    }

    /// Whether a function and another term of function type are found to be equal, by their
    /// values at a variable.
    pub fn def_eq_eta(&mut self, lam: ExprPtr, y: ExprPtr, fuel: u64) -> (r: Result<bool, Stop>)
        requires
            old(self).wf(),
            old(self).ctx.has_expr(lam),
            old(self).ctx.has_expr(y),
            lam@ is Lam,
        ensures
            final(self).wf(),
            old(self).evolves(*final(self)),
            r == Ok::<bool, Stop>(true) ==> deq(old(self).theory(), lam@, y@),
            direct(old(self).theory(), Ck::Only, y@) matches Some(t) ==> {
                &&& t is Sort && fuel > 0 ==> r == Ok::<bool, Stop>(false)
                &&& inert(old(self).theory(), t) && !(t is Pi) && fuel > 2 ==> r == Ok::<bool, Stop>(
                    false,
                )
                &&& t is Pi && fuel > 0 && larger(depth_bound(lam@), depth_bound(y@)) < 0xffff ==> (
                lam@ matches Tm::Lam(n, s, ty, b) ==> {
                    let v = opened(
                        n,
                        s,
                        *ty,
                        larger(depth_bound(lam@), depth_bound(y@)) as u16,
                    );
                    t->Pi_2 == ty && inst1(*b, v) == Tm::App(Box::new(y@), Box::new(v)) ==> r == Ok::<bool, Stop>(
                        true,
                    )
                })
            },
            eta_deq_at(old(self).theory(), lam@, y@, fuel as nat) ==> r == Ok::<bool, Stop>(true),
            r == Ok::<bool, Stop>(false) ==> forall|n: nat| !#[trigger] eta_deq_at(old(self).theory(), lam@, y@, n),
        decreases fuel,
    {
        proof {
            eta_deq_first(self.theory(), lam@, y@);
            reveal(whnf_says);
            reveal(type_says);
        }
        if fuel == 0 {
            return Err(Stop::OutOfFuel);
        }
        let ghost th = self.theory();
        let raw = self.infer(y, InferFlag::InferOnly, fuel - 1)?;
        let ty = self.whnf(raw, fuel - 1)?;
        let domain = match self.ctx.read_expr(ty) {
            Expr::Pi { binder_type, .. } => binder_type,
            _ => {
                return Ok(false);
            },
        };
        let saved: u16 = self.ctx.dbj_level_counter;
        let start: u16 = match self.above(lam, y) {
            Some(k) => k,
            None => {
                return Err(Stop::TooManyBinders);
            },
        };
        match self.ctx.read_expr(lam) {
            Expr::Lambda { binder_name, binder_style, binder_type, body, .. } => {
                if !self.def_eq(binder_type, domain, false, fuel - 1)? {
                    return Ok(false);
                }
                self.ctx.set_depth(start);
                let local = self.ctx.mk_dbj_level(binder_name, binder_style, binder_type);
                let ix = self.ctx.inst_one(body, local);
                let iy = self.ctx.mk_app(y, local);
                let b = self.def_eq(ix, iy, false, fuel - 1);
                self.ctx.set_depth(saved);
                proof {
                    if b == Ok::<bool, Stop>(true) {
                        inf_loose(th, Ck::Only, y@, raw@);
                        deq_eta(
                            th,
                            binder_name@,
                            binder_style,
                            binder_type@,
                            body@,
                            y@,
                            start,
                            raw@,
                            ty@->Pi_0,
                            ty@->Pi_1,
                            *ty@->Pi_2,
                            *ty@->Pi_3,
                        );
                    }
                }
                b
            },
            _ => Ok(false),
        }
    }

    /// Whether two terms are found to be equal once they are reduced.
    pub fn def_eq_core(&mut self, x: ExprPtr, y: ExprPtr, fuel: u64) -> (r: Result<bool, Stop>)
        requires
            old(self).wf(),
            old(self).ctx.has_expr(x),
            old(self).ctx.has_expr(y),
        ensures
            final(self).wf(),
            old(self).evolves(*final(self)),
            r == Ok::<bool, Stop>(true) ==> deq(old(self).theory(), x@, y@),
            x@ == y@ && inert(old(self).theory(), x@) && fuel > 2 ==> r == Ok::<bool, Stop>(true),
            fuel > 0 && x@ is Sort && y@ is Sort && lv_simplify(x@->Sort_0) == lv_simplify(
                y@->Sort_0,
            ) ==> r == Ok::<bool, Stop>(true),
            fuel > 3 && x@ is Const && y@ is Const && inert(old(self).theory(), x@) && inert(
                old(self).theory(),
                y@,
            ) ==> r == Ok::<bool, Stop>(
                x@->Const_0 == y@->Const_0 && levels_match(x@->Const_1, y@->Const_1),
            ),
            deq_core_at(old(self).theory(), x@, y@, fuel as nat) ==> r == Ok::<bool, Stop>(true),
            r == Ok::<bool, Stop>(false) ==> forall|n: nat| !#[trigger] deq_core_at(old(self).theory(), x@, y@, n),
        decreases fuel,
    {
        proof {
            deq_core_first(self.theory(), x@, y@);
            reveal(whnf_says);
            reveal(type_says);
        }
        if fuel == 0 {
            return Err(Stop::OutOfFuel);
        }
        let ghost th = self.theory();
        let x1 = self.whnf(x, fuel - 1)?;
        let y1 = self.whnf(y, fuel - 1)?;
        let b = self.def_eq_reduced(x1, y1, fuel - 1)?;
        proof {
            if b {
                deq_reds(th, x@, y@, x1@, y1@);
            }
        }
        Ok(b)
    }

    /// Whether two terms in weak head normal form are found to be equal.
    pub fn def_eq_reduced(&mut self, x: ExprPtr, y: ExprPtr, fuel: u64) -> (r: Result<bool, Stop>)
        requires
            old(self).wf(),
            old(self).ctx.has_expr(x),
            old(self).ctx.has_expr(y),
        ensures
            final(self).wf(),
            old(self).evolves(*final(self)),
            r == Ok::<bool, Stop>(true) ==> deq(old(self).theory(), x@, y@),
            x@ == y@ ==> r == Ok::<bool, Stop>(true),
            x@ is Sort && y@ is Sort ==> r == Ok::<bool, Stop>(
                lv_simplify(x@->Sort_0) == lv_simplify(y@->Sort_0),
            ),
            x@ is Const && y@ is Const && fuel > 1 ==> r == Ok::<bool, Stop>(
                x@->Const_0 == y@->Const_0 && levels_match(x@->Const_1, y@->Const_1),
            ),
            deq_reduced_at(old(self).theory(), x@, y@, fuel as nat) ==> r == Ok::<bool, Stop>(true),
            r == Ok::<bool, Stop>(false) ==> forall|n: nat| !#[trigger] deq_reduced_at(old(self).theory(), x@, y@, n),
        decreases fuel,
    {
        proof {
            deq_reduced_first(self.theory(), x@, y@);
            reveal(whnf_says);
            reveal(type_says);
        }
        let ghost th = self.theory();
        if self.ctx.eq_expr(x, y) {
            proof {
                deq_refl(th, x@);
            }
            return Ok(true);
        }
        let (ex, ey) = self.ctx.read_expr_pair(x, y);
        match (ex, ey) {
            (Expr::Sort { level: l, .. }, Expr::Sort { level: m, .. }) => {
                let b = self.eq_simplified(l, m);
                proof {
                    if b {
                        deq_sort(th, l@, m@);
                    }
                }
                return Ok(b);
            },
            _ => {},
        }
        if fuel == 0 {
            return Err(Stop::OutOfFuel);
        }
        match (ex, ey) {
            (
                Expr::Pi { binder_name: n, binder_style: s, binder_type: t, body: bx, .. },
                Expr::Pi { binder_name: m, binder_style: z, binder_type: u, body: by, .. },
            ) => {
                if !self.def_eq(t, u, false, fuel - 1)? {
                    return Ok(false);
                }
                let b = self.def_eq_bodies(x, y, x, bx, by, fuel - 1)?;
                proof {
                    if !b {
                        let v = at_variable(x@, y@, n@, s, t@);
                        assert(deq_never(th, inst1(bx@, v), inst1(by@, v)));
                        assert forall|k: nat| !#[trigger] deq_reduced_at(th, x@, y@, k) by {
                            assert(!deq_at(
                                th,
                                inst1(bx@, v),
                                inst1(by@, v),
                                false,
                                (k - 2) as nat,
                            ));
                        }
                    }
                    if b {
                        deq_pi(
                            th,
                            n@,
                            s,
                            t@,
                            bx@,
                            m@,
                            z,
                            u@,
                            by@,
                            larger(depth_bound(x@), depth_bound(y@)) as u16,
                        );
                    }
                }
                Ok(b)
            },
            (
                Expr::Lambda { binder_name: n, binder_style: s, binder_type: t, body: bx, .. },
                Expr::Lambda { binder_name: m, binder_style: z, binder_type: u, body: by, .. },
            ) => {
                if !self.def_eq(t, u, false, fuel - 1)? {
                    return Ok(false);
                }
                let b = self.def_eq_bodies(x, y, x, bx, by, fuel - 1)?;
                proof {
                    if !b {
                        let v = at_variable(x@, y@, n@, s, t@);
                        assert(deq_never(th, inst1(bx@, v), inst1(by@, v)));
                        assert forall|k: nat| !#[trigger] deq_reduced_at(th, x@, y@, k) by {
                            assert(!deq_at(
                                th,
                                inst1(bx@, v),
                                inst1(by@, v),
                                false,
                                (k - 2) as nat,
                            ));
                        }
                    }
                    if b {
                        deq_lam(
                            th,
                            n@,
                            s,
                            t@,
                            bx@,
                            m@,
                            z,
                            u@,
                            by@,
                            larger(depth_bound(x@), depth_bound(y@)) as u16,
                        );
                    }
                }
                Ok(b)
            },
            (Expr::Lambda { .. }, _) => {
                let b = self.def_eq_eta(x, y, fuel - 1)?;
                proof {
                    if !b {
                        assert forall|k: nat| !#[trigger] deq_reduced_at(th, x@, y@, k) by {
                            assert(!eta_deq_at(th, x@, y@, (k - 1) as nat));
                        }
                    }
                }
                Ok(b)
            },
            (_, Expr::Lambda { .. }) => {
                let b = self.def_eq_eta(y, x, fuel - 1)?;
                proof {
                    if !b {
                        assert forall|k: nat| !#[trigger] deq_reduced_at(th, x@, y@, k) by {
                            assert(!eta_deq_at(th, y@, x@, (k - 1) as nat));
                        }
                    }
                    if b {
                        deq_symm(th, y@, x@);
                    }
                }
                Ok(b)
            },
            _ => {
                let (f, xs) = self.ctx.unfold_apps(x);
                let (g, ys) = self.ctx.unfold_apps(y);
                if !self.def_eq_heads(f, g, fuel - 1)? {
                    return Ok(false);
                }
                let b = self.def_eq_args(&xs, &ys, f, g, fuel - 1)?;
                proof {
                    if !b {
                        assert forall|n: nat| !#[trigger] deq_reduced_at(th, x@, y@, n) by {
                            assert(args(x@) == trees(xs@) && args(y@) == trees(ys@));
                            if xs@.len() == ys@.len() {
                                assert(!args_at(th, trees(xs@), trees(ys@), (n - 2) as nat));
                            }
                        }
                    }
                }
                Ok(b)
            },
        }
    }

    /// Whether the heads of two terms are found to be equal.
    pub fn def_eq_heads(&mut self, f: ExprPtr, g: ExprPtr, fuel: u64) -> (r: Result<bool, Stop>)
        requires
            old(self).wf(),
            old(self).ctx.has_expr(f),
            old(self).ctx.has_expr(g),
        ensures
            final(self).wf(),
            old(self).evolves(*final(self)),
            r == Ok::<bool, Stop>(true) ==> deq(old(self).theory(), f@, g@),
            f@ == g@ ==> r == Ok::<bool, Stop>(true),
            f@ is Const && g@ is Const && fuel > 0 ==> r == Ok::<bool, Stop>(
                f@->Const_0 == g@->Const_0 && levels_match(f@->Const_1, g@->Const_1),
            ),
            heads_at(old(self).theory(), f@, g@, fuel as nat) ==> r == Ok::<bool, Stop>(true),
            r == Ok::<bool, Stop>(false) ==> forall|n: nat| !#[trigger] heads_at(old(self).theory(), f@, g@, n),
        decreases fuel,
    {
        proof {
            heads_first(self.theory(), f@, g@);
            reveal(whnf_says);
            reveal(type_says);
        }
        let ghost th = self.theory();
        if self.ctx.eq_expr(f, g) {
            proof {
                deq_refl(th, f@);
            }
            return Ok(true);
        }
        if fuel == 0 {
            return Err(Stop::OutOfFuel);
        }
        match self.ctx.read_expr_pair(f, g) {
            (
                Expr::Const { name: n, levels: ls, .. },
                Expr::Const { name: m, levels: ms, .. },
            ) => {
                if !self.ctx.eq_name(n, m) {
                    return Ok(false);
                }
                let b = self.eq_levels_simplified(ls, ms);
                proof {
                    if b {
                        deq_const(th, n@, ls@, ms@);
                    }
                }
                Ok(b)
            },
            (
                Expr::Proj { ty_name: n, idx: i, structure: s, .. },
                Expr::Proj { ty_name: m, idx: j, structure: t, .. },
            ) => {
                if i != j || !self.ctx.eq_name(n, m) {
                    return Ok(false);
                }
                let b = self.def_eq(s, t, false, fuel - 1)?;
                proof {
                    if b {
                        deq_proj(th, n@, i as nat, s@, t@);
                    }
                }
                Ok(b)
            },
            _ => Ok(false),
        }
    }
}

} // verus!
