//! Reduction everywhere in a term.
use crate::checker::{fits_grows, inert, reduced, InferFlag, Stop, TypeChecker};
use crate::defeq::shown_proof;
use crate::expr::Expr;
use crate::infer::direct;
use crate::judge::{close, opened, outline, Ck, Theory};
use crate::laws::{
    red, red_app, red_proj, red_refl, red_trans, red_under_lam, red_under_pi,
};
use crate::ptr::{ExprPtr, NamePtr};
use crate::ops::abstr_fits;
use crate::steps::{
    inside_at, inside_first, inside_says, strong_at, strong_first, strong_says, type_says, whnf_says,
};
use crate::tree::{inst1, lv_simplify, BinderStyle, Tm};
use vstd::prelude::*;

verus! {

broadcast use {
    fits_grows,
    crate::value::vals_fit_grows,
    crate::vcache::vcache_grows_ctx,
};

/// The term was reduced to weak head normal form, and then further inside.
pub open spec fn reduced_inside(th: Theory, a: Tm, b: Tm) -> bool {
    exists|w: Tm| #[trigger] reduced(th, a, w) && red(th, w, b) && outline(w, b)
}

/// There is nothing to reduce in the term, nor anything inside it.
pub open spec fn leaf(th: Theory, e: Tm) -> bool {
    match e {
        Tm::Sort(_) | Tm::NatLit(_) | Tm::StrLit(_) | Tm::Local(_, _, _, _) => true,
        Tm::Const(_, _) => inert(th, e),
        _ => false,
    }
}

/// There is nothing to reduce in what a binder binds.
pub open spec fn leaf_body(th: Theory, b: Tm) -> bool {
    leaf(th, b) || b == Tm::Var(0)
}

/// The fuel is enough to reduce an application everywhere, where no head in it reduces.
pub open spec fn flat(th: Theory, e: Tm, fuel: int) -> bool
    decreases e,
{
    match e {
        Tm::App(f, a) => inert(th, e) && fuel > 2 && flat(th, *f, fuel - 2) && flat(
            th,
            *a,
            fuel - 2,
        ),
        _ => leaf(th, e) && fuel > 2,
    }
}

impl<'t> TypeChecker<'t> {
    /// Reduces a term everywhere but in the types of binders. Types and proofs are left
    /// alone where that is asked for.
    pub fn strong_reduce(
        &mut self,
        e: ExprPtr,
        reduce_types: bool,
        reduce_proofs: bool,
        fuel: u64,
    ) -> (r: Result<ExprPtr, Stop>)
        requires
            old(self).wf(),
            old(self).ctx.has_expr(e),
        ensures
            final(self).wf(),
            old(self).evolves(*final(self)),
            r matches Ok(p) ==> final(self).ctx.has_expr(p) && red(old(self).theory(), e@, p@),
            reduce_types && reduce_proofs ==> (r matches Ok(p) ==> reduced_inside(
                old(self).theory(),
                e@,
                p@,
            )),
            !reduce_types && fuel > 0 && (direct(old(self).theory(), Ck::Only, e@) matches Some(
                Tm::Sort(_),
            )) ==> r == Ok::<ExprPtr, Stop>(e),
            reduce_types && !reduce_proofs && fuel > 2 && (shown_proof(old(self).theory(), e@) matches Some(
                (_, true),
            )) ==> r == Ok::<ExprPtr, Stop>(e),
            reduce_types && reduce_proofs && fuel > 2 ==> match e@ {
                Tm::Sort(l) => r matches Ok(p) && p@ == Tm::Sort(lv_simplify(l)),
                Tm::Local(_, _, _, _) | Tm::NatLit(_) | Tm::StrLit(_) => r matches Ok(p) && p@ == e@,
                Tm::Const(_, _) => inert(old(self).theory(), e@) ==> (r matches Ok(p) && p@ == e@),
                Tm::Lam(_, _, _, b) | Tm::Pi(_, _, _, b) => fuel > 6 && leaf_body(old(self).theory(), *b)
                    && crate::tree::depth_bound(e@) < 0xffff ==> r
                    is Ok,
                _ => true,
            },
            reduce_types && reduce_proofs && flat(old(self).theory(), e@, fuel as int) ==> r is Ok,
            r matches Ok(p) ==> strong_says(old(self).theory(), e@, reduce_types, reduce_proofs, p@),
            strong_at(
                old(self).theory(),
                e@,
                reduce_types,
                reduce_proofs,
                fuel as nat,
            ) is Some ==> r is Ok,
        decreases fuel,
    {
        proof {
            strong_first(self.theory(), e@, reduce_types, reduce_proofs);
            reveal(whnf_says);
            reveal(type_says);
            reveal(inside_says);
        }
        if fuel == 0 {
            return Err(Stop::OutOfFuel);
        }
        let ghost th = self.theory();
        proof {
            red_refl(th, e@);
        }
        if !reduce_types || !reduce_proofs {
            let ty = self.infer(e, InferFlag::InferOnly, fuel - 1)?;
            if !reduce_types {
                match self.ctx.read_expr(ty) {
                    Expr::Sort { .. } => {
                        return Ok(e);
                    },
                    _ => {},
                }
            }
            if !reduce_proofs {
                let (is_prop, _s) = self.is_proposition(ty, fuel - 1)?;
                if is_prop {
                    return Ok(e);
                }
            }
        }
        let w = self.whnf(e, fuel - 1)?;
        if let Some(cached) = self.recall_strong(w, reduce_types, reduce_proofs) {
            proof {
                red_trans(th, e@, w@, cached@);
                assert(reduced(th, e@, w@));
            }
            return Ok(cached);
        }
        let out = self.strong_reduce_inside(w, reduce_types, reduce_proofs, fuel - 1)?;
        proof {
            red_trans(th, e@, w@, out@);
            assert(reduced(th, e@, w@));
        }
        self.remember_strong(w, reduce_types, reduce_proofs, out);
        Ok(out)
    }

    /// Reduces the parts of a term.
    #[verifier::rlimit(80)]
    fn strong_reduce_inside(
        &mut self,
        w: ExprPtr,
        reduce_types: bool,
        reduce_proofs: bool,
        fuel: u64,
    ) -> (r: Result<ExprPtr, Stop>)
        requires
            old(self).wf(),
            old(self).ctx.has_expr(w),
        ensures
            final(self).wf(),
            old(self).evolves(*final(self)),
            r matches Ok(p) ==> final(self).ctx.has_expr(p) && red(old(self).theory(), w@, p@)
                && outline(w@, p@),
            fuel > 0 && !(w@ is App || w@ is Lam || w@ is Pi || w@ is Proj) ==> r == Ok::<
                ExprPtr,
                Stop,
            >(w),
            reduce_types && reduce_proofs ==> match w@ {
                Tm::App(f, a) => flat(old(self).theory(), *f, fuel - 1) && flat(
                    old(self).theory(),
                    *a,
                    fuel - 1,
                ) && fuel > 0 ==> r is Ok,
                Tm::Lam(_, _, _, b) | Tm::Pi(_, _, _, b) => fuel > 4 && leaf_body(old(self).theory(), *b)
                    && crate::tree::depth_bound(w@) < 0xffff ==> r
                    is Ok,
                _ => true,
            },
            r matches Ok(p) ==> inside_says(
                old(self).theory(),
                w@,
                reduce_types,
                reduce_proofs,
                p@,
            ),
            inside_at(
                old(self).theory(),
                w@,
                reduce_types,
                reduce_proofs,
                fuel as nat,
            ) is Some ==> r is Ok,
        decreases fuel,
    {
        proof {
            inside_first(self.theory(), w@, reduce_types, reduce_proofs);
            reveal(whnf_says);
            reveal(type_says);
            reveal(inside_says);
        }
        if fuel == 0 {
            return Err(Stop::OutOfFuel);
        }
        let ghost th = self.theory();
        match self.ctx.read_expr(w) {
            Expr::App { fun, arg, .. } => {
                let f = self.strong_reduce(fun, reduce_types, reduce_proofs, fuel - 1)?;
                let a = self.strong_reduce(arg, reduce_types, reduce_proofs, fuel - 1)?;
                proof {
                    red_app(th, fun@, f@, arg@, a@);
                }
                Ok(self.ctx.mk_app(f, a))
            },
            Expr::Lambda { binder_name, binder_style, binder_type, body, .. } => {
                let (start, c) = self.strong_reduce_body(
                    w,
                    binder_name,
                    binder_style,
                    binder_type,
                    body,
                    reduce_types,
                    reduce_proofs,
                    fuel - 1,
                )?;
                proof {
                    let inner = choose|inner: Tm| #[trigger]
                        red(
                            th,
                            inst1(body@, opened(binder_name@, binder_style, binder_type@, start)),
                            inner,
                        ) && c@ == close(inner, start);
                    red_under_lam(
                        th,
                        binder_name@,
                        binder_style,
                        binder_type@,
                        body@,
                        start,
                        inner,
                    );
                }
                Ok(self.ctx.mk_lambda(binder_name, binder_style, binder_type, c))
            },
            Expr::Pi { binder_name, binder_style, binder_type, body, .. } => {
                let (start, c) = self.strong_reduce_body(
                    w,
                    binder_name,
                    binder_style,
                    binder_type,
                    body,
                    reduce_types,
                    reduce_proofs,
                    fuel - 1,
                )?;
                proof {
                    let inner = choose|inner: Tm| #[trigger]
                        red(
                            th,
                            inst1(body@, opened(binder_name@, binder_style, binder_type@, start)),
                            inner,
                        ) && c@ == close(inner, start);
                    red_under_pi(
                        th,
                        binder_name@,
                        binder_style,
                        binder_type@,
                        body@,
                        start,
                        inner,
                    );
                }
                Ok(self.ctx.mk_pi(binder_name, binder_style, binder_type, c))
            },
            Expr::Proj { ty_name, idx, structure, .. } => {
                let s = self.strong_reduce(structure, reduce_types, reduce_proofs, fuel - 1)?;
                let x = self.ctx.mk_proj(ty_name, idx, s);
                proof {
                    red_proj(th, ty_name@, idx as nat, structure@, s@);
                }
                let y = self.whnf(x, fuel - 1)?;
                if self.ctx.eq_expr(x, y) {
                    Ok(x)
                } else {
                    let z = self.strong_reduce(y, reduce_types, reduce_proofs, fuel - 1)?;
                    proof {
                        red_trans(th, w@, x@, y@);
                        red_trans(th, w@, y@, z@);
                    }
                    Ok(z)
                }
            },
            _ => {
                proof {
                    red_refl(th, w@);
                }
                Ok(w)
            },
        }
    }

    fn strong_reduce_body(
        &mut self,
        e: ExprPtr,
        binder_name: NamePtr,
        binder_style: BinderStyle,
        binder_type: ExprPtr,
        body: ExprPtr,
        reduce_types: bool,
        reduce_proofs: bool,
        fuel: u64,
    ) -> (r: Result<(u16, ExprPtr), Stop>)
        requires
            old(self).wf(),
            old(self).ctx.has_expr(e),
            old(self).ctx.has_name(binder_name),
            old(self).ctx.has_expr(binder_type),
            old(self).ctx.has_expr(body),
        ensures
            final(self).wf(),
            old(self).evolves(*final(self)),
            r matches Ok((k, c)) ==> {
                &&& final(self).ctx.has_expr(c)
                &&& crate::tree::depth_bound(e@) <= k
                &&& exists|inner: Tm| #[trigger]
                    red(
                        old(self).theory(),
                        inst1(body@, opened(binder_name@, binder_style, binder_type@, k)),
                        inner,
                    ) && c@ == close(inner, k)
            },
            reduce_types && reduce_proofs && fuel > 3 && leaf_body(old(self).theory(), body@)
                && crate::tree::depth_bound(e@) < 0xffff ==> r
                is Ok,
            r matches Ok((k, c)) ==> k == crate::tree::depth_bound(e@) && forall|n: nat|
                #[trigger] strong_at(
                    old(self).theory(),
                    inst1(body@, opened(binder_name@, binder_style, binder_type@, k)),
                    reduce_types,
                    reduce_proofs,
                    n,
                ) matches Some(t) ==> c@ == close(t, k),
            crate::tree::depth_bound(e@) < 0xffff && fuel > 0 ==> {
                let k = crate::tree::depth_bound(e@) as u16;
                strong_at(
                    old(self).theory(),
                    inst1(body@, opened(binder_name@, binder_style, binder_type@, k)),
                    reduce_types,
                    reduce_proofs,
                    (fuel - 1) as nat,
                ) matches Some(t) ==> (abstr_fits(t, k as nat, k as nat + 1, 0) ==> r is Ok)
            },
        decreases fuel,
    {
        if fuel == 0 {
            return Err(Stop::OutOfFuel);
        }
        let saved: u16 = self.ctx.dbj_level_counter;
        let bound: u32 = self.ctx.depth(e);
        if bound >= 0xffff {
            return Err(Stop::TooManyBinders);
        }
        let start: u16 = bound as u16;
        self.ctx.set_depth(start);
        let local = self.ctx.mk_dbj_level(binder_name, binder_style, binder_type);
        let instd = self.ctx.inst_one(body, local);
        let inner = self.strong_reduce(instd, reduce_types, reduce_proofs, fuel - 1);
        let closed = match inner {
            Ok(t) => self.ctx.abstr_levels(t, start),
            Err(_) => None,
        };
        self.ctx.set_depth(saved);
        match inner {
            Err(s) => Err(s),
            Ok(_) => match closed {
                None => Err(Stop::TooManyBinders),
                Some(c) => Ok((start, c)),
            },
        }
    }
}

} // verus!
