//! Types of values, and what depends on them.
use crate::checker::{fits_grows, Stop, TypeChecker};
use crate::env::{Declar, RecursorData};
use crate::eval::canon_each;
use crate::expr::Expr;
use crate::judge::{
    ctor_app, ctor_fields, ctor_type, first_ctor, holds, major_induct, params_of, params_taken, plain, projections, replaces_major, Ck,
    Judg, Theory,
};
use crate::laws::{
    deq, deq_app, deq_proj, deq_reds, deq_refl, deq_sort, deq_symm, deq_trans, fields_nil,
    fields_snoc, inf, inf_app, inf_conv, inf_free, inf_local, inf_nat, inf_proj, inf_sort, inf_str,
    red, red_all, red_app, red_apps, red_apps_at, red_eta, red_k, red_refl, red_step, red_trans,
    tele_nil, tele_snoc,
};
use crate::ptr::{LevelPtr, LevelsPtr, NamePtr};
use crate::sig::type_level;
use crate::tree::{apps, apps_push, args, head, inst1, loose, lv_simplify, subst, BinderStyle, Lv, Nm, Tm};
use crate::stable::{
    barren, canon_fuel, declared_type, evaluates, fixed_head, fixed_stays, formed_stays, head_kind, ind_headed,
    pi_count, pi_count_stays, pi_count_subst, pi_kind, same_head_args, sort_ended, sort_ended_stays, sort_ended_subst,
    still,
};
use crate::value::{
    all_apps, done_valid, elims, head_known, neutral, red_spine_apps, spine_push, spine_tm, vals_fit_grows,
    valued, vtms, El, Elim, RigidHead, Spine, S, V, Value,
};
use crate::vcache::{
    eta_for, level_behind, result_level, vcache_grows_ctx, vcache_grows_vals,
};
use crate::rest::{
    apart, differ, eta_made, eta_made_at, eta_refused, k_differs, k_made, k_refused, spine_unlike, spines_unlike, unlike,
};
use crate::work::{
    args_of_spine, behind_fields, domain_of, field_type, behind_params, body_for, body_open, ends, ends_canon, ends_more, ends_next, ends_sound, field_in, fields_of, forced, has_field, k_ctor, last_field, member, no_level, params_body, params_reach, root, root_els, typed_by, unsorted, Task,
};
use vstd::prelude::*;

verus! {

broadcast use {fits_grows, vals_fit_grows, vcache_grows_ctx, vcache_grows_vals, done_valid, crate::work::ends_some};

/// What is behind binders in a type is behind them in what reduces to the type.
pub proof fn level_behind_red(th: Theory, t: Tm, u: Tm, l: Lv, n: nat)
    requires
        red(th, t, u),
        level_behind(th, u, l, n),
    ensures
        level_behind(th, t, l, n),
{
    if n == 0 {
        let m = choose|m: Lv| #[trigger] red(th, u, Tm::Sort(m)) && l == lv_simplify(m);
        red_trans(th, t, u, Tm::Sort(m));
    } else {
        let (nm, s, a, b) = choose|nm: Nm, s: BinderStyle, a: Tm, b: Tm|
            #![trigger red(th, u, Tm::Pi(nm, s, Box::new(a), Box::new(b)))]
            red(th, u, Tm::Pi(nm, s, Box::new(a), Box::new(b))) && level_behind(
                th,
                inst1(b, Tm::Free(0, Box::new(a))),
                l,
                (n - 1) as nat,
            );
        red_trans(th, t, u, Tm::Pi(nm, s, Box::new(a), Box::new(b)));
    }
}

/// Behind `n` binders, whose variables are taken for arguments, the type reduces to something
/// that is neither a function type nor a universe.
pub open spec fn unsorted_behind(th: Theory, t: Tm, n: nat) -> bool
    decreases n,
{
    if n == 0 {
        exists|s: Tm| #[trigger] red(th, t, s) && forced(th, s) && !(s is Pi) && !(s is Sort)
    } else {
        exists|nm: Nm, s: BinderStyle, a: Tm, b: Tm|
            #![trigger red(th, t, Tm::Pi(nm, s, Box::new(a), Box::new(b)))]
            red(th, t, Tm::Pi(nm, s, Box::new(a), Box::new(b))) && unsorted_behind(
                th,
                inst1(b, Tm::Free(0, Box::new(a))),
                (n - 1) as nat,
            )
    }
}

/// The type of the constant is found not to end in a universe.
pub open spec fn no_result_level(th: Theory, c: Nm, ls: Seq<Lv>) -> bool {
    exists|n: nat| #[trigger] unsorted_behind(th, declared_type(th, c, ls), n)
}

proof fn unsorted_behind_red(th: Theory, t: Tm, u: Tm, n: nat)
    requires
        red(th, t, u),
        unsorted_behind(th, u, n),
    ensures
        unsorted_behind(th, t, n),
{
    if n == 0 {
        let s = choose|s: Tm| #[trigger]
            red(th, u, s) && forced(th, s) && !(s is Pi) && !(s is Sort);
        red_trans(th, t, u, s);
    } else {
        let (nm, s, a, b) = choose|nm: Nm, s: BinderStyle, a: Tm, b: Tm|
            #![trigger red(th, u, Tm::Pi(nm, s, Box::new(a), Box::new(b)))]
            red(th, u, Tm::Pi(nm, s, Box::new(a), Box::new(b))) && unsorted_behind(
                th,
                inst1(b, Tm::Free(0, Box::new(a))),
                (n - 1) as nat,
            );
        red_trans(th, t, u, Tm::Pi(nm, s, Box::new(a), Box::new(b)));
    }
}

/// A type that is written as a universe behind binders is never found not to end in one.
pub proof fn universes_are_reached(th: Theory, t: Tm, n: nat)
    requires
        sort_ended(t),
    ensures
        !unsorted_behind(th, t, n),
    decreases n,
{
    if unsorted_behind(th, t, n) {
        if n == 0 {
            let s = choose|s: Tm| #[trigger]
                red(th, t, s) && forced(th, s) && !(s is Pi) && !(s is Sort);
            sort_ended_stays(th, t, s);
        } else {
            let (nm, s, a, b) = choose|nm: Nm, s: BinderStyle, a: Tm, b: Tm|
                #![trigger red(th, t, Tm::Pi(nm, s, Box::new(a), Box::new(b)))]
                red(th, t, Tm::Pi(nm, s, Box::new(a), Box::new(b))) && unsorted_behind(
                    th,
                    inst1(b, Tm::Free(0, Box::new(a))),
                    (n - 1) as nat,
                );
            sort_ended_stays(th, t, Tm::Pi(nm, s, Box::new(a), Box::new(b)));
            sort_ended_subst(b, seq![Tm::Free(0, Box::new(a))], 0);
            universes_are_reached(th, inst1(b, Tm::Free(0, Box::new(a))), (n - 1) as nat);
        }
    }
}

/// The type is an inductive type without parameters, whose constructor's type is written as a
/// function type that is bound to be evaluated with so much fuel.
pub open spec fn first_shown(th: Theory, ty: Tm, fuel: int) -> bool {
    &&& ty matches Tm::Const(ind, ls) && {
        &&& still(th, ty) && ind_headed(th, ty)
        &&& th.inductive(ind) matches Some(d) && d.num_params == 0
        &&& ctor_type(th, ind, ls) matches Some(ct) && ct is Pi && loose(ct) == 0 && evaluates(
            th,
            ct,
            fuel,
        )
    }
}

impl<'t> TypeChecker<'t> {
    /// The level of the universe that the type of a constant ends in, behind its arguments.
    pub fn const_result_level(&mut self, name: NamePtr, levels: LevelsPtr, fuel: u64) -> (r: Result<
        Option<LevelPtr>,
        Stop,
    >)
        requires
            old(self).wf(),
            old(self).ctx.has_name(name),
            old(self).ctx.has_levels(levels),
        ensures
            final(self).wf(),
            old(self).evolves(*final(self)),
            r matches Ok(Some(l)) ==> final(self).ctx.has_level(l) && result_level(
                old(self).theory(),
                name@,
                levels@,
                l@,
            ),
            fuel > 4 && old(self).theory().decls.contains_key(name@) && declared_type(
                old(self).theory(),
                name@,
                levels@,
            ) is Sort ==> (r matches Ok(Some(_))),
            ends(old(self).theory(), Task::ResLvl(name@, levels@), fuel as nat) ==> r is Ok,
            r == Ok::<Option<LevelPtr>, Stop>(None) ==> no_result_level(
                old(self).theory(),
                name@,
                levels@,
            ),
            sort_ended(declared_type(old(self).theory(), name@, levels@)) ==> r != Ok::<
                Option<LevelPtr>,
                Stop,
            >(None),
        decreases fuel,
    {
        if fuel == 0 {
            return Err(Stop::OutOfFuel);
        }
        let ghost th = self.theory();
        if let Some(l) = self.recall_result_level(name, levels) {
            return Ok(Some(l));
        }
        proof {
            ends_next(th, Task::ResLvl(name@, levels@), Task::ConstTy(name@, levels@), fuel as nat);
        }
        let head_ty = self.const_head_type(name, levels, fuel - 1)?;
        let ghost plainly = fuel > 4 && declared_type(th, name@, levels@) is Sort;
        proof {
            if plainly {
                formed_stays(th, declared_type(th, name@, levels@), head_ty@);
            }
        }
        let ghost start = declared_type(th, name@, levels@);
        proof {
            assert forall|n: nat| #[trigger] unsorted_behind(th, head_ty@, n) implies unsorted_behind(
                th,
                start,
                n,
            ) by {
                unsorted_behind_red(th, start, head_ty@, n);
            }
        }
        let ghost sure = ends(th, Task::ResLvl(name@, levels@), fuel as nat);
        proof {
            ends_next(th, Task::ResLvl(name@, levels@), Task::Tele(head_ty@), fuel as nat);
        }
        let mut cur = head_ty;
        let mut left: u64 = fuel;
        let ghost mut k: nat = 0;
        while left > 0
            invariant
                fuel > 0,
                left <= fuel,
                self.wf(),
                old(self).evolves(*self),
                self.theory() == th,
                th == old(self).theory(),
                self.ctx.has_name(name),
                self.ctx.has_levels(levels),
                self.vals.has_val(cur),
                sure == ends(th, Task::ResLvl(name@, levels@), fuel as nat),
                sure ==> left > 0 && ends(th, Task::Tele(cur@), (left - 1) as nat),
                plainly == (fuel > 4 && declared_type(th, name@, levels@) is Sort),
                plainly ==> left == fuel && self.vals.done(cur) && cur@ is Sort,
                inf(th, Ck::Loose, Tm::Const(name@, levels@), head_ty@),
                forall|l: Lv, n: nat| #[trigger]
                    level_behind(th, cur@, l, n) ==> level_behind(th, head_ty@, l, n + k),
                start == declared_type(th, name@, levels@),
                forall|n: nat| #[trigger]
                    unsorted_behind(th, cur@, n) ==> unsorted_behind(th, start, n + k),
            decreases left,
        {
            left = left - 1;
            proof {
                ends_next(th, Task::Tele(cur@), Task::Forcing(Seq::empty(), cur@), left as nat);
                ends_more(th, Task::Forcing(Seq::empty(), cur@), (left - 1) as nat, (fuel - 1) as nat);
            }
            let cf = self.force_all(cur, fuel - 1)?;
            let content = self.read_val(cf);
            proof {
                if let Value::Rigid { head, spine } = content {
                    self.rigid_is_neutral(cf, head, spine);
                }
                if let Value::Unfold { name, levels, spine, .. } = content {
                    crate::value::spine_neutral(Tm::Const(name@, levels@), spine@);
                }
            }
            match content {
                Value::Pi { binder_name, binder_style, domain, env, body } => {
                    let fresh = self.mk_bvar_hc(0, domain);
                    let ghost opened = inst1(subst(body@, env@, 1), fresh@);
                    proof {
                        assert(red(th, cur@, cf@));
                        assert(body_open(th, cur@, 0, opened));
                        ends_next(th, Task::Tele(cur@), Task::ClosureV(opened), left as nat);
                        ends_more(th, Task::ClosureV(opened), (left - 1) as nat, (fuel - 1) as nat);
                    }
                    let next = self.apply_closure_v(env, body, fresh, fuel - 1)?;
                    proof {
                        let b = subst(body@, env@, 1);
                        let free = Tm::Free(0, Box::new(domain@));
                        assert forall|l: Lv, n: nat| #[trigger]
                            level_behind(th, next@, l, n) implies level_behind(
                            th,
                            head_ty@,
                            l,
                            n + k + 1,
                        ) by {
                            level_behind_red(th, inst1(b, free), next@, l, n);
                            assert(red(
                                th,
                                cur@,
                                Tm::Pi(binder_name@, binder_style, Box::new(domain@), Box::new(b)),
                            ));
                            assert(level_behind(th, cur@, l, n + 1));
                        }
                        assert forall|n: nat| #[trigger]
                            unsorted_behind(th, next@, n) implies unsorted_behind(
                            th,
                            start,
                            n + k + 1,
                        ) by {
                            unsorted_behind_red(th, inst1(b, free), next@, n);
                            assert(red(
                                th,
                                cur@,
                                Tm::Pi(binder_name@, binder_style, Box::new(domain@), Box::new(b)),
                            ));
                            assert(unsorted_behind(th, cur@, n + 1));
                            assert(unsorted_behind(th, start, n + 1 + k));
                        }
                        k = k + 1;
                    }
                    proof {
                        ends_next(th, Task::Tele(cur@), Task::Tele(next@), left as nat);
                    }
                    cur = next;
                },
                Value::Sort { level } => {
                    let l = self.ctx.simplify(level);
                    proof {
                        assert(red(th, cur@, Tm::Sort(level@)));
                        assert(level_behind(th, cur@, l@, 0));
                        assert(level_behind(th, head_ty@, l@, 0 + k));
                    }
                    self.remember_result_level(name, levels, l);
                    return Ok(Some(l));
                },
                _ => {
                    proof {
                        self.vals.done_evaluated(self.ctx, th, cf);
                        assert(red(th, cur@, cf@) && forced(th, cf@));
                        assert(unsorted_behind(th, cur@, 0));
                        assert(unsorted_behind(th, start, 0 + k));
                        if sort_ended(start) {
                            universes_are_reached(th, start, 0 + k);
                        }
                    }
                    return Ok(None);
                },
            }
        }
        Err(Stop::OutOfFuel)
    }

    /// The type of a value. Functions and function types are not supported.
    pub fn value_type(&mut self, v: V, fuel: u64) -> (r: Result<V, Stop>)
        requires
            old(self).wf(),
            old(self).vals.has_val(v),
        ensures
            final(self).wf(),
            old(self).evolves(*final(self)),
            r matches Ok(t) ==> final(self).vals.has_val(t) && exists|w: Tm| #[trigger]
                red(old(self).theory(), v@, w) && inf(old(self).theory(), Ck::Loose, w, t@),
            old(self).vals.done(v) ==> (r matches Ok(t) ==> inf(
                old(self).theory(),
                Ck::Loose,
                v@,
                t@,
            )),
            fuel > 0 && old(self).vals.done(v) ==> match v@ {
                Tm::Sort(l) => r matches Ok(t) && final(self).vals.done(t) && t@ == Tm::Sort(
                    lv_simplify(Lv::Succ(Box::new(l))),
                ),
                Tm::NatLit(_) => match old(self).theory().names.nat {
                    Some(n) => r matches Ok(t) && t@ == plain(n@),
                    None => r == Err::<V, Stop>(Stop::NoLiterals),
                },
                Tm::StrLit(_) => match old(self).theory().names.string {
                    Some(n) => r matches Ok(t) && t@ == plain(n@),
                    None => r == Err::<V, Stop>(Stop::NoLiterals),
                },
                Tm::Lam(_, _, _, _) | Tm::Pi(_, _, _, _) => r == Err::<V, Stop>(Stop::IllTyped),
                _ => true,
            },
            ends(old(self).theory(), Task::TypeOf(v@), fuel as nat) ==> r is Ok,
        decreases fuel,
    {
        if fuel == 0 {
            return Err(Stop::OutOfFuel);
        }
        let ghost th = self.theory();
        let ghost from = v@;
        proof {
            ends_next(th, Task::TypeOf(v@), Task::Thunk(v@), fuel as nat);
        }
        let v = match self.force_thunk(v, fuel - 1) {
            Ok(w) => w,
            Err(s) => {
                return Err(s);
            },
        };
        proof {
            self.ctx.known_names();
            ends_sound(th, Task::TypeOf(from), fuel as nat);
            self.vals.done_evaluated(self.ctx, th, v);
        }
        match self.read_val(v) {
            Value::Sort { level } => {
                let s = self.ctx.succ(level);
                let l = self.ctx.simplify(s);
                proof {
                    inf_sort(th, Ck::Loose, level@);
                    red_step(th, Tm::Sort(s@), Tm::Sort(l@));
                    inf_conv(th, v@, Tm::Sort(s@), Tm::Sort(l@));
                }
                Ok(self.mk_sort(l))
            },
            Value::NatLit { .. } => match self.ctx.name_cache.nat {
                Some(n) => {
                    let levels = self.ctx.no_levels();
                    proof {
                        inf_nat(th, Ck::Loose, v@->NatLit_0);
                    }
                    Ok(self.mk_rigid_head(RigidHead::Inductive(n, levels)))
                },
                None => Err(Stop::NoLiterals),
            },
            Value::StrLit { .. } => match self.ctx.name_cache.string {
                Some(n) => {
                    let levels = self.ctx.no_levels();
                    proof {
                        inf_str(th, Ck::Loose, v@->StrLit_0);
                    }
                    Ok(self.mk_rigid_head(RigidHead::Inductive(n, levels)))
                },
                None => Err(Stop::NoLiterals),
            },
            Value::Rigid { head, spine } => {
                proof {
                    self.rigid_is_neutral(v, head, spine);
                }
                proof {
                    root_els(head.tm(), spine@);
                    ends_next(th, Task::TypeOf(from), Task::HeadTy(head.tm()), fuel as nat);
                    ends_next(th, Task::TypeOf(from), Task::SpineTy(head.tm(), spine@), fuel as nat);
                }
                let head_ty = self.rigid_head_type(head, fuel - 1)?;
                self.spine_type(head_ty, head, spine, fuel - 1)
            },
            Value::Unfold { name, levels, spine, head_value, .. } => {
                proof {
                    crate::value::spine_neutral(Tm::Const(name@, levels@), spine@);
                }
                proof {
                    root_els(Tm::Const(name@, levels@), spine@);
                    ends_next(th, Task::TypeOf(from), Task::ConstTy(name@, levels@), fuel as nat);
                    ends_next(th, Task::TypeOf(from), Task::SpineTy(Tm::Const(name@, levels@), spine@), fuel as nat);
                }
                let head_ty = self.const_head_type(name, levels, fuel - 1)?;
                self.spine_type_with_value(head_ty, name, levels, head_value, spine, fuel - 1)
            },
            Value::Pi { .. } => Err(Stop::IllTyped),
            Value::Lam { .. } => Err(Stop::IllTyped),
            Value::Thunk { .. } => Err(Stop::IllTyped),
        }
    }

    /// The type of the head of a value.
    pub fn rigid_head_type(&mut self, head: RigidHead, fuel: u64) -> (r: Result<V, Stop>)
        requires
            old(self).wf(),
            old(self).vals.head_fits(old(self).ctx, head),
        ensures
            final(self).wf(),
            old(self).evolves(*final(self)),
            r matches Ok(t) ==> final(self).vals.has_val(t) && inf(
                old(self).theory(),
                Ck::Loose,
                head.tm(),
                t@,
            ),
            head matches RigidHead::BVar(_, ty) ==> r == Ok::<V, Stop>(ty),
            ends(old(self).theory(), Task::HeadTy(head.tm()), fuel as nat) ==> r is Ok,
        decreases fuel,
    {
        let ghost th = self.theory();
        match head {
            RigidHead::BVar(l, ty) => {
                proof {
                    inf_free(th, l as nat, ty@);
                }
                Ok(ty)
            },
            RigidHead::Local(e) => {
                if fuel == 0 {
                    return Err(Stop::OutOfFuel);
                }
                match self.ctx.read_expr(e) {
                    Expr::Local { binder_type, .. } => {
                        proof {
                            ends_next(th, Task::HeadTy(head.tm()), Task::Closed(binder_type@), fuel as nat);
                        }
                        let t = self.eval_closed(binder_type, fuel - 1)?;
                        proof {
                            inf_local(th, Ck::Loose, e@);
                            inf_conv(th, e@, binder_type@, t@);
                        }
                        Ok(t)
                    },
                    _ => Err(Stop::IllTyped),
                }
            },
            RigidHead::Axiom(n, ls) => {
                if fuel == 0 {
                    return Err(Stop::OutOfFuel);
                }
                proof {
                    ends_next(th, Task::HeadTy(head.tm()), Task::ConstTy(n@, ls@), fuel as nat);
                }
                self.const_head_type(n, ls, fuel - 1)
            },
            RigidHead::Ctor(n, ls) => {
                if fuel == 0 {
                    return Err(Stop::OutOfFuel);
                }
                proof {
                    ends_next(th, Task::HeadTy(head.tm()), Task::ConstTy(n@, ls@), fuel as nat);
                }
                self.const_head_type(n, ls, fuel - 1)
            },
            RigidHead::Recursor(n, ls) => {
                if fuel == 0 {
                    return Err(Stop::OutOfFuel);
                }
                proof {
                    ends_next(th, Task::HeadTy(head.tm()), Task::ConstTy(n@, ls@), fuel as nat);
                }
                self.const_head_type(n, ls, fuel - 1)
            },
            RigidHead::QuotConst(n, ls) => {
                if fuel == 0 {
                    return Err(Stop::OutOfFuel);
                }
                proof {
                    ends_next(th, Task::HeadTy(head.tm()), Task::ConstTy(n@, ls@), fuel as nat);
                }
                self.const_head_type(n, ls, fuel - 1)
            },
            RigidHead::Inductive(n, ls) => {
                if fuel == 0 {
                    return Err(Stop::OutOfFuel);
                }
                proof {
                    ends_next(th, Task::HeadTy(head.tm()), Task::ConstTy(n@, ls@), fuel as nat);
                }
                self.const_head_type(n, ls, fuel - 1)
            },
        }
    }

    /// The type of a function applied to a value, from the function's type.
    fn applied_type(&mut self, ty: V, a: V, Ghost(f): Ghost<Tm>, fuel: u64) -> (r: Result<V, Stop>)
        requires
            old(self).wf(),
            old(self).vals.has_val(ty),
            old(self).vals.has_val(a),
            inf(old(self).theory(), Ck::Loose, f, ty@),
        ensures
            final(self).wf(),
            old(self).evolves(*final(self)),
            r matches Ok(t) ==> final(self).vals.has_val(t) && inf(
                old(self).theory(),
                Ck::Loose,
                Tm::App(Box::new(f), Box::new(a@)),
                t@,
            ),
            ends(old(self).theory(), Task::AppTy(ty@, a@), fuel as nat) ==> r is Ok,
        decreases fuel,
    {
        if fuel == 0 {
            return Err(Stop::OutOfFuel);
        }
        let ghost th = self.theory();
        proof {
            ends_sound(th, Task::AppTy(ty@, a@), fuel as nat);
            ends_next(th, Task::AppTy(ty@, a@), Task::Forcing(Seq::empty(), ty@), fuel as nat);
        }
        let ty_f = self.force_all(ty, fuel - 1)?;
        let content = self.read_val(ty_f);
        proof {
            self.vals.done_evaluated(self.ctx, th, ty_f);
            if ty_f@ is Pi {
                pi_kind(content, ty_f@);
            }
        }
        match content {
            Value::Pi { binder_name, binder_style, domain, env, body } => {
                proof {
                    assert(red(th, ty@, ty_f@));
                    assert(body_for(th, ty@, a@, inst1(subst(body@, env@, 1), a@)));
                    ends_next(th, Task::AppTy(ty@, a@), Task::Closure(inst1(subst(body@, env@, 1), a@)), fuel as nat);
                }
                let t = self.apply_closure(env, body, a, fuel - 1)?;
                proof {
                    let y = subst(body@, env@, 1);
                    inf_app(
                        th,
                        Ck::Loose,
                        f,
                        a@,
                        ty@,
                        binder_name@,
                        binder_style,
                        domain@,
                        y,
                        f,
                    );
                    inf_conv(th, Tm::App(Box::new(f), Box::new(a@)), inst1(y, a@), t@);
                }
                Ok(t)
            },
            _ => Err(Stop::NotAPi),
        }
    }

    /// The type of a head that things are done to, from the head's type.
    pub fn spine_type(&mut self, ty: V, head: RigidHead, spine: S, fuel: u64) -> (r: Result<V, Stop>)
        requires
            old(self).wf(),
            old(self).vals.has_val(ty),
            old(self).vals.head_fits(old(self).ctx, head),
            head_known(old(self).theory(), head),
            old(self).vals.has_spine(spine),
            inf(old(self).theory(), Ck::Loose, head.tm(), ty@),
        ensures
            final(self).wf(),
            old(self).evolves(*final(self)),
            r matches Ok(t) ==> final(self).vals.has_val(t) && inf(
                old(self).theory(),
                Ck::Loose,
                spine_tm(head.tm(), spine@),
                t@,
            ),
            fuel > 0 && spine@.len() == 0 ==> r == Ok::<V, Stop>(ty),
            ends(old(self).theory(), Task::SpineTy(head.tm(), spine@), fuel as nat) ==> r is Ok,
        decreases fuel,
    {
        if fuel == 0 {
            return Err(Stop::OutOfFuel);
        }
        let ghost th = self.theory();
        let ghost h = head.tm();
        let es = self.spine_elims(spine);
        let n: usize = es.len();
        let ghost all = spine@;
        let mut t = ty;
        let mut prefix = self.empty_spine();
        let mut i: usize = 0;
        assert(all.take(0) =~= Seq::<El>::empty());
        while i < n
            invariant
                fuel > 0,
                i <= n,
                n == es@.len(),
                all == elims(es@),
                all == spine@,
                h == head.tm(),
                self.wf(),
                old(self).evolves(*self),
                self.theory() == th,
                th == old(self).theory(),
                self.vals.has_val(t),
                self.vals.head_fits(self.ctx, head),
                head_known(th, head),
                self.vals.has_spine(prefix),
                prefix@ == all.take(i as int),
                i == 0 ==> t == ty,
                forall|j: int|
                    0 <= j < es@.len() ==> self.vals.elim_fits(self.ctx, #[trigger] es@[j]),
                inf(th, Ck::Loose, spine_tm(h, prefix@), t@),
            decreases n - i,
        {
            assert(self.vals.elim_fits(self.ctx, es@[i as int]));
            let ghost before = prefix@;
            proof {
                assert(all.take(i + 1) =~= before.push(es@[i as int].el()));
                spine_push(h, before, es@[i as int].el());
            }
            proof {
                ends_sound(th, Task::SpineTy(h, all), fuel as nat);
                assert(all[i as int] == es@[i as int].el());
                assert(inf(th, Ck::Loose, spine_tm(h, all.take(i as int)), t@));
                match es@[i as int] {
                    Elim::App(a) => {
                        ends_next(th, Task::SpineTy(h, all), Task::AppTy(t@, a@), fuel as nat);
                    },
                    Elim::Proj { ty_name, idx } => {
                        ends_next(th, Task::SpineTy(h, all), Task::FieldTy(spine_tm(h, before), t@, ty_name@, idx as nat), fuel as nat);
                    },
                }
            }
            let next = match es[i] {
                Elim::App(a) => self.applied_type(t, a, Ghost(spine_tm(h, before)), fuel - 1)?,
                Elim::Proj { ty_name, idx } => {
                    let prev = self.mk_rigid(head, prefix);
                    match self.proj_field_type_with(prev, t, ty_name, idx, fuel - 1)? {
                        Some(t) => t,
                        None => {
                            return Err(Stop::NotAStructure);
                        },
                    }
                },
            };
            prefix = self.spine_snoc_hc(prefix, es[i])?;
            t = next;
            i = i + 1;
        }
        assert(all.take(n as int) =~= all);
        Ok(t)
    }

    /// The type of a constant that unfolds and that things are done to, from the constant's
    /// type. The place is for what the constant unfolds to.
    pub fn spine_type_with_value(
        &mut self,
        ty: V,
        name: NamePtr,
        levels: LevelsPtr,
        cell: usize,
        spine: S,
        fuel: u64,
    ) -> (r: Result<V, Stop>)
        requires
            old(self).wf(),
            old(self).vals.has_val(ty),
            old(self).ctx.has_name(name),
            old(self).ctx.has_levels(levels),
            old(self).vals.has_cell(cell, Tm::Const(name@, levels@)),
            valued(old(self).theory(), name@),
            old(self).vals.has_spine(spine),
            inf(old(self).theory(), Ck::Loose, Tm::Const(name@, levels@), ty@),
        ensures
            final(self).wf(),
            old(self).evolves(*final(self)),
            r matches Ok(t) ==> final(self).vals.has_val(t) && inf(
                old(self).theory(),
                Ck::Loose,
                spine_tm(Tm::Const(name@, levels@), spine@),
                t@,
            ),
            fuel > 0 && spine@.len() == 0 ==> r == Ok::<V, Stop>(ty),
            ends(old(self).theory(), Task::SpineTy(Tm::Const(name@, levels@), spine@), fuel as nat) ==> r is Ok,
        decreases fuel,
    {
        if fuel == 0 {
            return Err(Stop::OutOfFuel);
        }
        let ghost th = self.theory();
        let ghost h = Tm::Const(name@, levels@);
        let es = self.spine_elims(spine);
        let n: usize = es.len();
        let ghost all = spine@;
        let mut t = ty;
        let mut prefix = self.empty_spine();
        let mut i: usize = 0;
        assert(all.take(0) =~= Seq::<El>::empty());
        while i < n
            invariant
                fuel > 0,
                i <= n,
                n == es@.len(),
                all == elims(es@),
                all == spine@,
                h == Tm::Const(name@, levels@),
                self.wf(),
                old(self).evolves(*self),
                self.theory() == th,
                th == old(self).theory(),
                self.vals.has_val(t),
                self.ctx.has_name(name),
                self.ctx.has_levels(levels),
                self.vals.has_cell(cell, h),
                valued(th, name@),
                self.vals.has_spine(prefix),
                prefix@ == all.take(i as int),
                i == 0 ==> t == ty,
                forall|j: int|
                    0 <= j < es@.len() ==> self.vals.elim_fits(self.ctx, #[trigger] es@[j]),
                inf(th, Ck::Loose, spine_tm(h, prefix@), t@),
            decreases n - i,
        {
            assert(self.vals.elim_fits(self.ctx, es@[i as int]));
            let ghost before = prefix@;
            proof {
                assert(all.take(i + 1) =~= before.push(es@[i as int].el()));
                spine_push(h, before, es@[i as int].el());
            }
            proof {
                ends_sound(th, Task::SpineTy(h, all), fuel as nat);
                assert(all[i as int] == es@[i as int].el());
                assert(inf(th, Ck::Loose, spine_tm(h, all.take(i as int)), t@));
                match es@[i as int] {
                    Elim::App(a) => {
                        ends_next(th, Task::SpineTy(h, all), Task::AppTy(t@, a@), fuel as nat);
                    },
                    Elim::Proj { ty_name, idx } => {
                        ends_next(th, Task::SpineTy(h, all), Task::FieldTy(spine_tm(h, before), t@, ty_name@, idx as nat), fuel as nat);
                    },
                }
            }
            let next = match es[i] {
                Elim::App(a) => self.applied_type(t, a, Ghost(spine_tm(h, before)), fuel - 1)?,
                Elim::Proj { ty_name, idx } => {
                    let prev = self.mk_unfold_hc(name, levels, prefix, cell);
                    match self.proj_field_type_with(prev, t, ty_name, idx, fuel - 1)? {
                        Some(t) => t,
                        None => {
                            return Err(Stop::NotAStructure);
                        },
                    }
                },
            };
            prefix = self.spine_snoc_hc(prefix, es[i])?;
            t = next;
            i = i + 1;
        }
        assert(all.take(n as int) =~= all);
        Ok(t)
    }

    /// The type of a field that is projected from a value, from the value's type.
    #[verifier::rlimit(60)]
    pub fn proj_field_type_with(
        &mut self,
        struct_value: V,
        struct_ty: V,
        ty_name: NamePtr,
        idx: usize,
        fuel: u64,
    ) -> (r: Result<Option<V>, Stop>)
        requires
            old(self).wf(),
            old(self).vals.done(struct_value),
            old(self).vals.has_val(struct_ty),
            old(self).ctx.has_name(ty_name),
        ensures
            final(self).wf(),
            old(self).evolves(*final(self)),
            r matches Ok(Some(t)) ==> final(self).vals.has_val(t) && (inf(
                old(self).theory(),
                Ck::Loose,
                struct_value@,
                struct_ty@,
            ) ==> inf(
                old(self).theory(),
                Ck::Loose,
                Tm::Proj(ty_name@, idx as nat, Box::new(struct_value@)),
                t@,
            )),
            fuel > 2 && old(self).vals.done(struct_ty) && !neutral(struct_ty@) ==> (r matches Ok(o)
                && o is None),
            has_field(old(self).theory(), struct_ty@, ty_name@, idx as nat) ==> !(r matches Ok(None)),
            fuel > 3 && idx == 0 && old(self).vals.done(struct_ty) && first_shown(
                old(self).theory(),
                struct_ty@,
                fuel - 2,
            ) ==> r is Ok,
            ends(old(self).theory(), Task::FieldTy(struct_value@, struct_ty@, ty_name@, idx as nat), fuel as nat) ==> r is Ok,
            field_in(old(self).theory(), struct_ty@, ty_name@, idx as nat) ==> !(r matches Ok(None)),
            r matches Ok(Some(t)) ==> field_type(
                old(self).theory(),
                struct_value@,
                struct_ty@,
                ty_name@,
                idx as nat,
                t@,
            ),
            fixed_head(old(self).theory(), struct_ty@) && ind_headed(old(self).theory(), struct_ty@) && head(
                struct_ty@,
            )->Const_0 != ty_name@ ==> (r matches Ok(o) ==> o is None),
        decreases fuel,
    {
        if fuel == 0 {
            return Err(Stop::OutOfFuel);
        }
        let ghost th = self.theory();
        proof {
            ends_sound(th, Task::FieldTy(struct_value@, struct_ty@, ty_name@, idx as nat), fuel as nat);
            ends_next(th, Task::FieldTy(struct_value@, struct_ty@, ty_name@, idx as nat), Task::Forcing(Seq::empty(), struct_ty@), fuel as nat);
        }
        let ty_f = match self.force_all(struct_ty, fuel - 1) {
            Ok(t) => t,
            Err(s) => {
                return Err(s);
            },
        };
        let ghost shown = has_field(th, ty_f@, ty_name@, idx as nat);
        proof {
            self.vals.done_evaluated(self.ctx, th, ty_f);
            ends_next(th, Task::FieldTy(struct_value@, struct_ty@, ty_name@, idx as nat), Task::UnwrapI(ty_f@), fuel as nat);
            if fixed_head(th, struct_ty@) {
                fixed_stays(th, struct_ty@, ty_f@);
                same_head_args(th, struct_ty@, ty_f@);
            }
        }
        let (ind_name, ind_levels, xs) = match self.unwrap_inductive_app(ty_f, fuel - 1) {
            Ok(Some(p)) => p,
            Ok(None) => {
                return Ok(None);
            },
            Err(s) => {
                return Err(s);
            },
        };
        let ghost zs = vtms(xs@);
        let ghost ty = apps(Tm::Const(ind_name@, ind_levels@), zs);
        proof {
            red_trans(th, struct_ty@, ty_f@, ty);
        }
        if !self.ctx.eq_name(ind_name, ty_name) {
            return Ok(None);
        }
        let ind = match self.get_inductive(ind_name) {
            Some(d) => d,
            None => {
                return Ok(None);
            },
        };
        if ind.all_ctor_names.len() == 0 {
            return Err(Stop::NotAStructure);
        }
        assert(self.ctx.has_name(ind.all_ctor_names@[0]));
        let info = match self.get_constructor(ind.all_ctor_names[0]) {
            Some(c) => c.info,
            None => {
                return Ok(None);
            },
        };
        let np: usize = ind.num_params as usize;
        if xs.len() < np {
            return Ok(None);
        }
        let ctor_ty_e = self.ctx.subst_expr_levels(info.ty, info.uparams, ind_levels);
        let ghost ct = ctor_type(th, ind_name@, ind_levels@)->0;
        assert(ct == ctor_ty_e@);
        proof {
            assert(red(th, struct_ty@, apps(Tm::Const(ty_name@, ind_levels@), zs)));
            ends_next(th, Task::FieldTy(struct_value@, struct_ty@, ty_name@, idx as nat), Task::Closed(ct), fuel as nat);
            ends_next(th, Task::FieldTy(struct_value@, struct_ty@, ty_name@, idx as nat), Task::Params(ct, zs.take(np as int)), fuel as nat);
        }
        let ctor_ty = self.eval_closed(ctor_ty_e, fuel - 1)?;
        proof {
            pi_count_stays(th, ct, ctor_ty@);
            if ct is Pi {
                formed_stays(th, ct, ctor_ty@);
            }
        }
        let cur = match self.behind_params(ctor_ty, &xs, np, Ghost(ct), fuel - 1)? {
            Some(c) => c,
            None => {
                return Ok(None);
            },
        };
        let ghost t1 = choose|t1: Tm| #[trigger]
            holds(th, Judg::Tele(ct, zs.take(np as int), t1)) && red(th, t1, cur@);
        proof {
            ends_next(th, Task::FieldTy(struct_value@, struct_ty@, ty_name@, idx as nat), Task::Fields(ty, t1, struct_value@, ty_name@, idx as nat), fuel as nat);
        }
        let out = self.behind_fields(
            cur,
            struct_value,
            ty_name,
            idx,
            Ghost(ty),
            Ghost(t1),
            fuel - 1,
        )?;
        match out {
            Some(last) => {
                proof {
                    assert(behind_fields(th, ty, t1, struct_value@, ty_name@, idx as nat, last@));
                    assert(last_field(
                        th,
                        struct_ty@,
                        struct_value@,
                        ty_name@,
                        ind_levels@,
                        zs,
                        idx as nat,
                        last@,
                    ));
                    ends_next(th, Task::FieldTy(struct_value@, struct_ty@, ty_name@, idx as nat), Task::Forcing(Seq::empty(), last@), fuel as nat);
                }
                let cf = self.force_all(last, fuel - 1)?;
                let content = self.read_val(cf);
                proof {
                    pi_count_stays(th, last@, cf@);
                    if shown {
                        pi_kind(content, cf@);
                    }
                }
                match content {
                    Value::Pi { binder_name, binder_style, domain, env, body } => {
                        proof {
                            if inf(th, Ck::Loose, struct_value@, struct_ty@) {
                                let t2 = choose|t2: Tm| #[trigger]
                                    fields_of(
                                        th,
                                        ty,
                                        t1,
                                        struct_value@,
                                        ty_name@,
                                        idx as nat,
                                        t2,
                                    ) && red(th, t2, last@);
                                self.field_typed(
                                    struct_value@,
                                    struct_ty@,
                                    ind_name@,
                                    ind_levels@,
                                    zs,
                                    ct,
                                    t1,
                                    t2,
                                    last@,
                                    idx as nat,
                                    binder_name@,
                                    binder_style,
                                    domain@,
                                    subst(body@, env@, 1),
                                );
                            }
                        }
                        proof {
                            assert(red(th, last@, cf@));
                            assert(domain_of(th, last@, domain@));
                            assert(field_type(
                                th,
                                struct_value@,
                                struct_ty@,
                                ty_name@,
                                idx as nat,
                                domain@,
                            ));
                        }
                        Ok(Some(domain))
                    },
                    _ => Ok(None),
                }
            },
            None => Ok(None),
        }
    }

    proof fn field_typed(
        &self,
        e: Tm,
        raw: Tm,
        ind: Nm,
        ls: Seq<Lv>,
        zs: Seq<Tm>,
        ct: Tm,
        t1: Tm,
        t2: Tm,
        last: Tm,
        i: nat,
        n: Nm,
        s: BinderStyle,
        a: Tm,
        y: Tm,
    )
        requires
            self.theory().inductive(ind) is Some,
            self.theory().inductive(ind)->0.num_params <= zs.len(),
            ctor_type(self.theory(), ind, ls) == Some(ct),
            inf(self.theory(), Ck::Loose, e, raw),
            red(self.theory(), raw, apps(Tm::Const(ind, ls), zs)),
            holds(
                self.theory(),
                Judg::Tele(
                    ct,
                    zs.take(self.theory().inductive(ind)->0.num_params as int),
                    t1,
                ),
            ),
            fields_of(self.theory(), apps(Tm::Const(ind, ls), zs), t1, e, ind, i, t2),
            red(self.theory(), t2, last),
            red(self.theory(), last, Tm::Pi(n, s, Box::new(a), Box::new(y))),
        ensures
            inf(self.theory(), Ck::Loose, Tm::Proj(ind, i, Box::new(e)), a),
    {
        let th = self.theory();
        red_trans(th, t2, last, Tm::Pi(n, s, Box::new(a), Box::new(y)));
        inf_proj(th, Ck::Loose, ind, i, e, raw, ind, ls, zs, t1, t2, n, s, a, y);
    }

    /// The type of a constructor behind its parameters.
    fn behind_params(&mut self, ctor_ty: V, xs: &Vec<V>, np: usize, Ghost(ct): Ghost<Tm>, fuel: u64) -> (
        r: Result<Option<V>, Stop>)
        requires
            old(self).wf(),
            old(self).vals.has_val(ctor_ty),
            old(self).vals.all_done(xs@),
            np <= xs@.len(),
            red(old(self).theory(), ct, ctor_ty@),
        ensures
            final(self).wf(),
            old(self).evolves(*final(self)),
            r matches Ok(Some(c)) ==> final(self).vals.has_val(c) && exists|t1: Tm| #[trigger]
                holds(old(self).theory(), Judg::Tele(ct, vtms(xs@).take(np as int), t1)) && red(
                    old(self).theory(),
                    t1,
                    c@,
                ),
            fuel > 0 && np == 0 ==> r == Ok::<Option<V>, Stop>(Some(ctor_ty)),
            pi_count(ctor_ty@) >= np ==> !(r matches Ok(None)),
            r matches Ok(Some(c)) ==> pi_count(c@) + np >= pi_count(ctor_ty@),
            ends(old(self).theory(), Task::Params(ct, vtms(xs@).take(np as int)), fuel as nat) ==> r is Ok,
        decreases fuel,
    {
        if fuel == 0 {
            return Err(Stop::OutOfFuel);
        }
        let ghost th = self.theory();
        let ghost zs = vtms(xs@);
        let ghost ps = zs.take(np as int);
        let mut cur = ctor_ty;
        let mut i: usize = 0;
        let ghost mut t1: Tm = ct;
        proof {
            tele_nil(th, ct);
            assert(zs.take(0) =~= Seq::<Tm>::empty());
        }
        while i < np
            invariant
                fuel > 0,
                i <= np <= xs@.len(),
                zs == vtms(xs@),
                ps == zs.take(np as int),
                self.wf(),
                old(self).evolves(*self),
                self.theory() == th,
                th == old(self).theory(),
                self.vals.has_val(cur),
                self.vals.all_done(xs@),
                i == 0 ==> cur == ctor_ty,
                holds(th, Judg::Tele(ct, zs.take(i as int), t1)),
                red(th, t1, cur@),
                pi_count(cur@) + i >= pi_count(ctor_ty@),
            decreases np - i,
        {
            proof {
                assert(ps.take(i as int) =~= zs.take(i as int));
                assert(holds(th, Judg::Tele(ct, ps.take(i as int), t1)));
                assert(behind_params(th, ct, ps, i as int, cur@));
                assert(params_reach(th, ct, ps, cur@));
                ends_next(th, Task::Params(ct, ps), Task::Forcing(Seq::empty(), cur@), fuel as nat);
            }
            let cf = self.force_all(cur, fuel - 1)?;
            assert(self.vals.done(xs@[i as int]));
            let content = self.read_val(cf);
            proof {
                pi_count_stays(th, cur@, cf@);
                if pi_count(ctor_ty@) >= np {
                    pi_kind(content, cf@);
                }
            }
            match content {
                Value::Pi { binder_name, binder_style, domain, env, body } => {
                    proof {
                        let a = xs@[i as int]@;
                        assert(ps[i as int] == a);
                        assert(red(th, cur@, cf@));
                        assert(body_for(th, cur@, a, inst1(subst(body@, env@, 1), a)));
                        assert(params_body(th, ct, ps, inst1(subst(body@, env@, 1), a))) by {
                            assert(behind_params(th, ct, ps, i as int, cur@));
                        }
                        ends_next(th, Task::Params(ct, ps), Task::ClosureV(inst1(subst(body@, env@, 1), a)), fuel as nat);
                    }
                    let next = self.apply_closure_v(env, body, xs[i], fuel - 1)?;
                    proof {
                        let y = subst(body@, env@, 1);
                        let a = xs@[i as int]@;
                        pi_count_subst(y, seq![a], 0);
                        pi_count_stays(th, inst1(y, a), next@);
                        let p = Tm::Pi(binder_name@, binder_style, Box::new(domain@), Box::new(y));
                        red_trans(th, t1, cur@, p);
                        red_refl(th, a);
                        tele_snoc(
                            th,
                            ct,
                            zs.take(i as int),
                            t1,
                            a,
                            binder_name@,
                            binder_style,
                            domain@,
                            y,
                            a,
                        );
                        assert(zs.take(i as int).push(a) =~= zs.take(i + 1));
                        t1 = inst1(y, a);
                    }
                    cur = next;
                    i = i + 1;
                },
                _ => {
                    return Ok(None);
                },
            }
        }
        Ok(Some(cur))
    }

    /// The type of a constructor behind the fields in front of a position.
    fn behind_fields(
        &mut self,
        start: V,
        struct_value: V,
        ty_name: NamePtr,
        idx: usize,
        Ghost(ty): Ghost<Tm>,
        Ghost(t1): Ghost<Tm>,
        fuel: u64,
    ) -> (r: Result<Option<V>, Stop>)
        requires
            old(self).wf(),
            red(old(self).theory(), t1, start@),
            old(self).vals.has_val(start),
            old(self).vals.done(struct_value),
            old(self).ctx.has_name(ty_name),
        ensures
            final(self).wf(),
            old(self).evolves(*final(self)),
            r matches Ok(Some(c)) ==> final(self).vals.has_val(c) && exists|t2: Tm| #[trigger]
                fields_of(
                    old(self).theory(),
                    ty,
                    t1,
                    struct_value@,
                    ty_name@,
                    idx as nat,
                    t2,
                ) && red(old(self).theory(), t2, c@),
            fuel > 0 && idx == 0 ==> r == Ok::<Option<V>, Stop>(Some(start)),
            pi_count(start@) >= idx ==> !(r matches Ok(None)),
            r matches Ok(Some(c)) ==> pi_count(c@) + idx >= pi_count(start@),
            ends(old(self).theory(), Task::Fields(ty, t1, struct_value@, ty_name@, idx as nat), fuel as nat) ==> r is Ok,
        decreases fuel,
    {
        if fuel == 0 {
            return Err(Stop::OutOfFuel);
        }
        let ghost th = self.theory();
        let ghost e = struct_value@;
        let ghost ind = ty_name@;
        let mut cur = start;
        let mut i: usize = 0;
        let ghost mut t2: Tm = t1;
        proof {
            fields_nil(th, Ck::Loose, ty, t1, e, ind, 0);
        }
        while i < idx
            invariant
                fuel > 0,
                i <= idx,
                e == struct_value@,
                ind == ty_name@,
                self.wf(),
                old(self).evolves(*self),
                self.theory() == th,
                th == old(self).theory(),
                self.vals.has_val(cur),
                self.vals.done(struct_value),
                self.ctx.has_name(ty_name),
                i == 0 ==> cur == start,
                fields_of(th, ty, t1, e, ind, i as nat, t2),
                red(th, t2, cur@),
                pi_count(cur@) + i >= pi_count(start@),
            decreases idx - i,
        {
            proof {
                assert(behind_fields(th, ty, t1, e, ind, i as nat, cur@));
                ends_next(th, Task::Fields(ty, t1, e, ind, idx as nat), Task::Forcing(Seq::empty(), cur@), fuel as nat);
                ends_next(th, Task::Fields(ty, t1, e, ind, idx as nat), Task::ProjV(ind, i as nat, e), fuel as nat);
            }
            let cf = self.force_all(cur, fuel - 1)?;
            let content = self.read_val(cf);
            proof {
                pi_count_stays(th, cur@, cf@);
                if pi_count(start@) >= idx {
                    pi_kind(content, cf@);
                }
            }
            match content {
                Value::Pi { binder_name, binder_style, domain, env, body } => {
                    let prior = self.do_proj(ty_name, i, struct_value, fuel - 1)?;
                    proof {
                        assert(red(th, cur@, cf@));
                        assert(body_for(th, cur@, prior@, inst1(subst(body@, env@, 1), prior@)));
                        ends_next(th, Task::Fields(ty, t1, e, ind, idx as nat), Task::ClosureV(inst1(subst(body@, env@, 1), prior@)), fuel as nat);
                    }
                    let next = self.apply_closure_v(env, body, prior, fuel - 1)?;
                    proof {
                        let y = subst(body@, env@, 1);
                        pi_count_subst(y, seq![prior@], 0);
                        pi_count_stays(th, inst1(y, prior@), next@);
                        let p = Tm::Pi(binder_name@, binder_style, Box::new(domain@), Box::new(y));
                        red_trans(th, t2, cur@, p);
                        fields_snoc(
                            th,
                            Ck::Loose,
                            ty,
                            t1,
                            e,
                            ind,
                            0,
                            i as nat,
                            t2,
                            binder_name@,
                            binder_style,
                            domain@,
                            y,
                            prior@,
                        );
                        t2 = inst1(y, prior@);
                    }
                    cur = next;
                    i = i + 1;
                },
                _ => {
                    return Ok(None);
                },
            }
        }
        Ok(Some(cur))
    }

    /// The inductive type that a value is, with its levels and arguments.
    pub fn unwrap_inductive_app(&mut self, v: V, fuel: u64) -> (r: Result<
        Option<(NamePtr, LevelsPtr, Vec<V>)>,
        Stop,
    >)
        requires
            old(self).wf(),
            old(self).vals.done(v),
        ensures
            final(self).wf(),
            old(self).evolves(*final(self)),
            r matches Ok(Some((n, ls, xs))) ==> {
                &&& final(self).ctx.has_name(n)
                &&& final(self).ctx.has_levels(ls)
                &&& final(self).vals.all_done(xs@)
                &&& red(old(self).theory(), v@, apps(Tm::Const(n@, ls@), vtms(xs@)))
            },
            fuel > 0 && !neutral(v@) ==> (r matches Ok(o) && o is None),
            ind_headed(old(self).theory(), v@) ==> (r matches Ok(o) ==> (o matches Some((n, ls, xs))
                && Tm::Const(n@, ls@) == head(v@) && xs@.len() == args(v@).len())),
            fuel > 1 && ind_headed(old(self).theory(), v@) && args(v@).len() == 0 ==> r is Ok,
            ends(old(self).theory(), Task::UnwrapI(v@), fuel as nat) ==> r is Ok,
            r matches Ok(Some((n, ls, _))) ==> head(v@) == Tm::Const(n@, ls@),
        decreases fuel,
    {
        if fuel == 0 {
            return Err(Stop::OutOfFuel);
        }
        let ghost th = self.theory();
        let content = self.read_val(v);
        proof {
            if ind_headed(th, v@) {
                head_kind(th, content, v@);
            }
        }
        match content {
            Value::Rigid { head, spine } => {
                proof {
                    self.rigid_is_neutral(v, head, spine);
                }
                match head {
                    RigidHead::Inductive(n, ls) => match {
                        proof {
                            root_els(Tm::Const(n@, ls@), spine@);
                            ends_next(th, Task::UnwrapI(v@), Task::Spine(spine@), fuel as nat);
                        }
                        self.spine_apps(spine, fuel - 1)?
                    } {
                        Some(xs) => {
                            proof {
                                red_spine_apps(th, Tm::Const(n@, ls@), spine@, vtms(xs@));
                                args_of_spine(Tm::Const(n@, ls@), spine@);
                            }
                            Ok(Some((n, ls, xs)))
                        },
                        None => Ok(None),
                    },
                    _ => Ok(None),
                }
            },
            Value::Unfold { name, levels, spine, .. } => {
                proof {
                    crate::value::spine_neutral(Tm::Const(name@, levels@), spine@);
                }
                Ok(None)
            },
            _ => Ok(None),
        }
    }

    /// The major premise of a recursor for a structure as the constructor of its
    /// projections.
    pub fn try_struct_eta_reduce(&mut self, major: V, rec: &RecursorData, fuel: u64) -> (r: Result<
        Option<V>,
        Stop,
    >)
        requires
            old(self).wf(),
            old(self).vals.done(major),
            old(self).ctx.has_declar(Declar::Recursor(*rec)),
            old(self).theory().recursor(rec.info.name@) == Some(*rec),
        ensures
            final(self).wf(),
            old(self).evolves(*final(self)),
            r matches Ok(Some(c)) ==> final(self).vals.done(c) && replaces_major(
                old(self).theory(),
                *rec,
                major@,
                c@,
            ),
            !neutral(major@) || (match major_induct(*rec) {
                Some(n) => !old(self).theory().is_struct(n),
                None => true,
            }) ==> r == Ok::<Option<V>, Stop>(None),
            ends(old(self).theory(), Task::Eta(rec.info.name@, major@), fuel as nat) ==> r is Ok,
            ctor_app(old(self).theory(), major@) ==> r == Ok::<Option<V>, Stop>(None),
            r matches Ok(Some(c)) ==> (major_induct(*rec) matches Some(ind) && old(self).theory().is_struct(ind)
                && !ctor_app(old(self).theory(), major@) && eta_made(
                old(self).theory(),
                ind,
                major@,
                c@,
            )),
            r == Ok::<Option<V>, Stop>(None) ==> (major_induct(*rec) matches Some(ind) ==> (old(
                self,
            ).theory().is_struct(ind) && neutral(major@) && !ctor_app(old(self).theory(), major@)
                ==> eta_refused(old(self).theory(), ind, major@))),
        decreases fuel,
    {
        let ghost th = self.theory();
        match self.read_val(major) {
            Value::Rigid { head, spine } => {
                proof {
                    self.rigid_is_neutral(major, head, spine);
                }
            },
            Value::Unfold { name, levels, spine, .. } => {
                proof {
                    crate::value::spine_neutral(Tm::Const(name@, levels@), spine@);
                }
            },
            _ => {
                return Ok(None);
            },
        }
        if self.is_ctor_value(major) {
            return Ok(None);
        }
        assert(self.ctx.has_info(Declar::Recursor(*rec).about()));
        let induct = match self.ctx.get_major_induct(rec) {
            Some(n) => n,
            None => {
                return Ok(None);
            },
        };
        if !self.can_be_struct(induct) {
            return Ok(None);
        }
        if fuel == 0 {
            return Err(Stop::OutOfFuel);
        }
        proof {
            ends_next(th, Task::Eta(rec.info.name@, major@), Task::EtaU(rec.info.name@, major@), fuel as nat);
        }
        if let Some(cached) = self.recall_eta(major, induct) {
            proof {
                if let Some(c) = cached {
                    assert(replaces_major(th, *rec, major@, c@));
                }
            }
            return Ok(cached);
        }
        let o = self.try_struct_eta_reduce_uncached(major, rec, induct, fuel - 1)?;
        self.remember_eta(major, induct, o);
        proof {
            if let Some(c) = o {
                assert(replaces_major(th, *rec, major@, c@));
            }
        }
        Ok(o)
    }

    fn try_struct_eta_reduce_uncached(
        &mut self,
        major: V,
        rec: &RecursorData,
        rec_induct: NamePtr,
        fuel: u64,
    ) -> (r: Result<Option<V>, Stop>)
        requires
            old(self).wf(),
            old(self).vals.done(major),
            old(self).ctx.has_name(rec_induct),
            old(self).theory().is_struct(rec_induct@),
            !ctor_app(old(self).theory(), major@),
            old(self).theory().recursor(rec.info.name@) == Some(*rec),
            major_induct(*rec) == Some(rec_induct@),
        ensures
            final(self).wf(),
            old(self).evolves(*final(self)),
            r matches Ok(Some(c)) ==> final(self).vals.done(c) && eta_for(
                old(self).theory(),
                rec_induct@,
                major@,
                c@,
            ),
            ends(old(self).theory(), Task::EtaU(rec.info.name@, major@), fuel as nat) ==> r is Ok,
            r matches Ok(Some(c)) ==> eta_made(old(self).theory(), rec_induct@, major@, c@),
            r == Ok::<Option<V>, Stop>(None) ==> eta_refused(old(self).theory(), rec_induct@, major@),
        decreases fuel,
    {
        if fuel == 0 {
            return Err(Stop::OutOfFuel);
        }
        let ghost th = self.theory();
        proof {
            ends_sound(th, Task::EtaU(rec.info.name@, major@), fuel as nat);
            ends_next(th, Task::EtaU(rec.info.name@, major@), Task::TypeOf(major@), fuel as nat);
        }
        let major_ty = self.value_type(major, fuel - 1)?;
        proof {
            ends_next(th, Task::EtaU(rec.info.name@, major@), Task::Forcing(Seq::empty(), major_ty@), fuel as nat);
        }
        let ty_f = self.force_all(major_ty, fuel - 1)?;
        proof {
            assert(typed_by(th, major@, ty_f@));
            ends_next(th, Task::EtaU(rec.info.name@, major@), Task::UnwrapI(ty_f@), fuel as nat);
        }
        proof {
            self.vals.done_evaluated(self.ctx, th, ty_f);
            assert(forced(th, ty_f@));
        }
        let (ty_name, ty_levels, xs) = match self.unwrap_inductive_app(ty_f, fuel - 1)? {
            Some(p) => p,
            None => {
                return Ok(None);
            },
        };
        assert(head(ty_f@) == Tm::Const(ty_name@, ty_levels@));
        if !self.ctx.eq_name(ty_name, rec_induct) {
            return Ok(None);
        }
        let ind = match self.get_inductive(ty_name) {
            Some(d) => d,
            None => {
                return Ok(None);
            },
        };
        if ind.all_ctor_names.len() == 0 {
            return Err(Stop::NotAStructure);
        }
        assert(self.ctx.has_name(ind.all_ctor_names@[0]));
        let ctor_name = ind.all_ctor_names[0];
        let fields: usize = match self.get_constructor(ctor_name) {
            Some(c) => c.num_fields as usize,
            None => {
                return Ok(None);
            },
        };
        let np: usize = rec.num_params as usize;
        let m: usize = if np < xs.len() {
            np
        } else {
            xs.len()
        };
        let ghost zs = vtms(xs@);
        let ghost c0 = Tm::Const(ctor_name@, ty_levels@);
        let start = self.mk_rigid_head(RigidHead::Ctor(ctor_name, ty_levels));
        proof {
            red_trans(th, major_ty@, ty_f@, apps(Tm::Const(ty_name@, ty_levels@), zs));
            assert(member(th, major@, ty_name@, ty_levels@, zs));
            assert(zs.subrange(0, m as int) =~= zs.take(m as int));
            red_refl(th, apps(c0, zs.take(m as int)));
            ends_next(th, Task::EtaU(rec.info.name@, major@), Task::ApplyAll(c0, zs.take(m as int)), fuel as nat);
            ends_next(th, Task::EtaU(rec.info.name@, major@), Task::WithProj(apps(c0, zs.take(m as int)), ty_name@, major@, fields as nat), fuel as nat);
        }
        let applied = self.apply_all(start, &xs, 0, m, fuel - 1)?;
        assert(zs.subrange(0, m as int) =~= zs.take(m as int));
        let out = self.with_projections(
            applied,
            ty_name,
            major,
            fields,
            Ghost(apps(c0, zs.take(m as int))),
            fuel - 1,
        )?;
        proof {
            let ty = apps(Tm::Const(ty_name@, ty_levels@), zs);
            red_trans(th, major_ty@, ty_f@, ty);
            assert(m == params_of(*rec, zs.len()));
            assert(th.recursor(rec.info.name@) == Some(*rec));
            assert forall|r: RecursorData|
                major_induct(r) == Some(rec_induct@) implies #[trigger] replaces_major(
                th,
                r,
                major@,
                out@,
            ) by {
                eta_replaces(
                    th,
                    r,
                    major@,
                    major_ty@,
                    ty_name@,
                    ty_levels@,
                    zs,
                    m as int,
                    ctor_name@,
                    fields as nat,
                    out@,
                );
            }
        }
        proof {
            assert(eta_made_at(th, rec_induct@, major@, out@, ty_levels@, zs, m as int));
        }
        Ok(Some(out))
    }

    /// A constructor applied to the projections from a value.
    fn with_projections(
        &mut self,
        start: V,
        ty_name: NamePtr,
        major: V,
        n: usize,
        Ghost(f): Ghost<Tm>,
        fuel: u64,
    ) -> (r: Result<V, Stop>)
        requires
            old(self).wf(),
            old(self).vals.done(start),
            old(self).ctx.has_name(ty_name),
            old(self).vals.done(major),
            red(old(self).theory(), f, start@),
        ensures
            final(self).wf(),
            old(self).evolves(*final(self)),
            r matches Ok(c) ==> final(self).vals.done(c) && red(
                old(self).theory(),
                apps(f, projections(ty_name@, major@, n as nat)),
                c@,
            ),
            fuel > canon_fuel(major@) + 4 && fixed_head(old(self).theory(), start@) && args(
                start@,
            ).len() + n <= u32::MAX && barren(old(self).theory(), major@) && args(major@).len()
                < u32::MAX ==> r is Ok,
            ends(old(self).theory(), Task::WithProj(f, ty_name@, major@, n as nat), fuel as nat) ==> r is Ok,
        decreases fuel,
    {
        if fuel == 0 {
            return Err(Stop::OutOfFuel);
        }
        let ghost th = self.theory();
        let mut cur = start;
        let mut i: usize = 0;
        assert(projections(ty_name@, major@, 0) =~= Seq::<Tm>::empty());
        let ghost sure = fuel > canon_fuel(major@) + 4 && fixed_head(th, start@) && args(
            start@,
        ).len() + n <= u32::MAX && barren(th, major@) && args(major@).len() < u32::MAX;
        while i < n
            invariant
                sure <==> (fuel > canon_fuel(major@) + 4 && fixed_head(th, start@) && args(
                    start@,
                ).len() + n <= u32::MAX && barren(th, major@) && args(major@).len() < u32::MAX),
                sure ==> fixed_head(th, cur@) && args(cur@).len() == args(start@).len() + i,
                fuel > 0,
                i <= n,
                self.wf(),
                old(self).evolves(*self),
                self.theory() == th,
                th == old(self).theory(),
                self.vals.done(cur),
                self.vals.done(major),
                self.ctx.has_name(ty_name),
                red(th, apps(f, projections(ty_name@, major@, i as nat)), cur@),
            decreases n - i,
        {
            proof {
                ends_next(th, Task::WithProj(f, ty_name@, major@, n as nat), Task::ProjV(ty_name@, i as nat, major@), fuel as nat);
            }
            let proj = self.do_proj(ty_name, i, major, fuel - 1)?;
            proof {
                assert(red(th, apps(f, projections(ty_name@, major@, i as nat)), cur@));
                ends_next(th, Task::WithProj(f, ty_name@, major@, n as nat), Task::ApplyV(cur@, proj@), fuel as nat);
            }
            let next = self.apply_v(cur, proj, fuel - 1)?;
            proof {
                let ps = projections(ty_name@, major@, i as nat);
                let p = Tm::Proj(ty_name@, i as nat, Box::new(major@));
                assert(projections(ty_name@, major@, (i + 1) as nat) =~= ps.push(p));
                apps_push(f, ps, p);
                red_app(th, apps(f, ps), cur@, p, proj@);
                red_trans(
                    th,
                    apps(f, ps.push(p)),
                    Tm::App(Box::new(cur@), Box::new(proj@)),
                    next@,
                );
            }
            proof {
                if sure {
                    let a = Tm::App(Box::new(cur@), Box::new(proj@));
                    assert(args(a).len() == args(cur@).len() + 1);
                    fixed_stays(th, a, next@);
                    same_head_args(th, a, next@);
                }
            }
            cur = next;
            i = i + 1;
        }
        Ok(cur)
    }

    /// The major premise of a recursor for a type whose only constructor carries no data as
    /// that constructor, where the types agree.
    pub fn try_k_reduce(&mut self, major: V, rec: &RecursorData, fuel: u64) -> (r: Result<
        Option<V>,
        Stop,
    >)
        requires
            old(self).wf(),
            old(self).vals.done(major),
            old(self).ctx.has_declar(Declar::Recursor(*rec)),
        ensures
            final(self).wf(),
            old(self).evolves(*final(self)),
            r matches Ok(Some(c)) ==> final(self).vals.done(c) && replaces_major(
                old(self).theory(),
                *rec,
                major@,
                c@,
            ),
            !rec.is_k || !neutral(major@) ==> r == Ok::<Option<V>, Stop>(None),
            ends(old(self).theory(), Task::K(rec.info.name@, major@), fuel as nat) && old(self).theory().recursor(rec.info.name@) == Some(*rec) ==> r is Ok,
            r matches Ok(Some(c)) ==> rec.is_k && k_made(old(self).theory(), *rec, c@),
            r == Ok::<Option<V>, Stop>(None) && rec.is_k && neutral(major@) ==> k_refused(
                old(self).theory(),
                *rec,
                major@,
            ),
        decreases fuel,
    {
        let ghost th = self.theory();
        if !rec.is_k {
            return Ok(None);
        }
        match self.read_val(major) {
            Value::Rigid { head, spine } => {
                proof {
                    self.rigid_is_neutral(major, head, spine);
                }
            },
            Value::Unfold { name, levels, spine, .. } => {
                proof {
                    crate::value::spine_neutral(Tm::Const(name@, levels@), spine@);
                }
            },
            _ => {
                return Ok(None);
            },
        }
        if fuel == 0 {
            return Err(Stop::OutOfFuel);
        }
        proof {
            ends_sound(th, Task::K(rec.info.name@, major@), fuel as nat);
            ends_next(th, Task::K(rec.info.name@, major@), Task::TypeOf(major@), fuel as nat);
        }
        let major_ty = self.value_type(major, fuel - 1)?;
        proof {
            ends_next(th, Task::K(rec.info.name@, major@), Task::Forcing(Seq::empty(), major_ty@), fuel as nat);
        }
        let ty_f = self.force_all(major_ty, fuel - 1)?;
        proof {
            assert(typed_by(th, major@, ty_f@));
            ends_next(th, Task::K(rec.info.name@, major@), Task::UnwrapI(ty_f@), fuel as nat);
        }
        proof {
            self.vals.done_evaluated(self.ctx, th, ty_f);
            assert(forced(th, ty_f@));
        }
        let (ty_name, ty_levels, xs) = match self.unwrap_inductive_app(ty_f, fuel - 1)? {
            Some(p) => p,
            None => {
                return Ok(None);
            },
        };
        assert(self.ctx.has_info(Declar::Recursor(*rec).about()));
        let induct = match self.ctx.get_major_induct(rec) {
            Some(n) => n,
            None => {
                return Ok(None);
            },
        };
        assert(head(ty_f@) == Tm::Const(ty_name@, ty_levels@));
        if !self.ctx.eq_name(ty_name, induct) {
            return Ok(None);
        }
        let ind = match self.get_inductive(ty_name) {
            Some(d) => d,
            None => {
                return Ok(None);
            },
        };
        if ind.all_ctor_names.len() == 0 {
            return Err(Stop::NotAStructure);
        }
        assert(self.ctx.has_name(ind.all_ctor_names@[0]));
        let ctor_name = ind.all_ctor_names[0];
        if self.get_constructor(ctor_name).is_none() {
            return Ok(None);
        }
        assert(self.ctx.has_declar(Declar::Recursor(*rec)));
        let own: usize = match self.find_rule(&rec.rec_rules, ctor_name) {
            Some(r) => r.ctor_telescope_size_wo_params as usize,
            None => 0,
        };
        let want: usize = rec.num_params as usize + own;
        let m: usize = if want < xs.len() {
            want
        } else {
            xs.len()
        };
        proof {
            red_trans(th, major_ty@, ty_f@, apps(Tm::Const(ty_name@, ty_levels@), vtms(xs@)));
            assert(member(th, major@, ty_name@, ty_levels@, vtms(xs@)));
            ends_next(th, Task::K(rec.info.name@, major@), Task::RigidApps(vtms(xs@).take(m as int)), fuel as nat);
        }
        let ctor = self.rigid_apps(RigidHead::Ctor(ctor_name, ty_levels), &xs, m, fuel - 1)?;
        let ghost c0 = Tm::Const(ctor_name@, ty_levels@);
        let ghost zs = vtms(xs@);
        let ghost ys = choose|ys: Seq<Tm>|
            ctor@ == #[trigger] apps(c0, ys) && red_all(th, zs.take(m as int), ys);
        proof {
            assert(red_all(th, vtms(xs@).take(m as int), ys));
            assert(k_ctor(th, major@, ctor@));
            ends_next(th, Task::K(rec.info.name@, major@), Task::TypeOf(ctor@), fuel as nat);
        }
        let ctor_ty = self.value_type(ctor, fuel - 1)?;
        proof {
            ends_next(th, Task::K(rec.info.name@, major@), Task::Conv(ty_f@, ctor_ty@), fuel as nat);
        }
        if !self.conv_types(ty_f, ctor_ty, fuel - 1)? {
            proof {
                assert(inf(th, Ck::Loose, ctor@, ctor_ty@) && k_ctor(th, major@, ctor@));
                assert(k_differs(th, major@, ty_f@));
            }
            return Ok(None);
        }
        proof {
            k_replaces(
                th,
                *rec,
                major@,
                major_ty@,
                ty_f@,
                ty_name@,
                ty_levels@,
                zs,
                m as int,
                ys,
                ctor_name@,
                ctor_ty@,
            );
        }
        proof {
            crate::tc::const_apps(ctor_name@, ty_levels@, ys);
        }
        Ok(Some(ctor))
    }

    /// A head applied to the first arguments.
    fn rigid_apps(&mut self, head: RigidHead, xs: &Vec<V>, n: usize, fuel: u64) -> (r: Result<V, Stop>)
        requires
            old(self).wf(),
            old(self).vals.head_fits(old(self).ctx, head),
            head_known(old(self).theory(), head),
            old(self).vals.all_done(xs@),
            n <= xs@.len(),
        ensures
            final(self).wf(),
            old(self).evolves(*final(self)),
            r matches Ok(v) ==> final(self).vals.done(v) && exists|ys: Seq<Tm>|
                v@ == #[trigger] apps(head.tm(), ys) && red_all(
                    old(self).theory(),
                    vtms(xs@).take(n as int),
                    ys,
                ),
            fuel > 0 && n <= u32::MAX && canon_each(xs@, 0, n as int, fuel - 1) ==> r is Ok,
            ends(old(self).theory(), Task::RigidApps(vtms(xs@).take(n as int)), fuel as nat) ==> r is Ok,
        decreases fuel,
    {
        if fuel == 0 {
            return Err(Stop::OutOfFuel);
        }
        let ghost th = self.theory();
        let ghost zs = vtms(xs@);
        let mut spine = self.empty_spine();
        let mut i: usize = 0;
        let ghost mut ys: Seq<Tm> = Seq::empty();
        while i < n
            invariant
                fuel > 0,
                i <= n <= xs@.len(),
                zs == vtms(xs@),
                self.wf(),
                old(self).evolves(*self),
                self.theory() == th,
                th == old(self).theory(),
                self.vals.head_fits(self.ctx, head),
                head_known(th, head),
                self.vals.all_done(xs@),
                self.vals.has_spine(spine),
                ys.len() == i,
                spine@.len() == i,
                red_all(th, zs.take(i as int), ys),
                spine_tm(head.tm(), spine@) == apps(head.tm(), ys),
            decreases n - i,
        {
            assert(self.vals.done(xs@[i as int]));
            proof {
                ends_sound(th, Task::RigidApps(zs.take(n as int)), fuel as nat);
                assert(zs.take(n as int)[i as int] == xs@[i as int]@);
                ends_next(th, Task::RigidApps(zs.take(n as int)), Task::Canon(xs@[i as int]@), fuel as nat);
                ends_canon(th, xs@[i as int]@, (fuel - 1) as nat);
            }
            let a = self.canonicalize_for_spine(xs[i], fuel - 1)?;
            proof {
                spine_push(head.tm(), spine@, El::App(a@));
                apps_push(head.tm(), ys, a@);
                let more = zs.take(i + 1);
                let next = ys.push(a@);
                assert forall|j: int| 0 <= j < more.len() implies red(
                    th,
                    #[trigger] more[j],
                    next[j],
                ) by {
                    if j < i {
                        assert(zs.take(i as int)[j] == more[j]);
                    }
                }
                ys = next;
            }
            spine = self.spine_snoc_hc(spine, Elim::App(a))?;
            i = i + 1;
        }
        Ok(self.mk_rigid_hc(head, spine))
    }

    /// Whether two values were found to be equal by definition: they reduce to the same, or
    /// to a head with equal things done to it.
    pub fn conv_types(&mut self, a: V, b: V, fuel: u64) -> (r: Result<bool, Stop>)
        requires
            old(self).wf(),
            old(self).vals.has_val(a),
            old(self).vals.has_val(b),
        ensures
            final(self).wf(),
            old(self).evolves(*final(self)),
            r == Ok::<bool, Stop>(true) ==> deq(old(self).theory(), a@, b@),
            a.idx == b.idx ==> r == Ok::<bool, Stop>(true),
            ends(old(self).theory(), Task::Conv(a@, b@), fuel as nat) ==> r is Ok,
            r == Ok::<bool, Stop>(false) ==> differ(old(self).theory(), a@, b@),
        decreases fuel,
    {
        let ghost th = self.theory();
        if a.idx == b.idx {
            proof {
                self.vals.vals_at(a, b);
                deq_refl(th, a@);
            }
            return Ok(true);
        }
        if fuel == 0 {
            return Err(Stop::OutOfFuel);
        }
        proof {
            ends_next(th, Task::Conv(a@, b@), Task::Forcing(Seq::empty(), a@), fuel as nat);
            ends_next(th, Task::Conv(a@, b@), Task::Forcing(Seq::empty(), b@), fuel as nat);
        }
        let fa = self.force_all(a, fuel - 1)?;
        let fb = self.force_all(b, fuel - 1)?;
        proof {
            ends_next(th, Task::Conv(a@, b@), Task::ConvF(fa@, fb@), fuel as nat);
        }
        let same = self.conv_forced(fa, fb, fuel - 1)?;
        proof {
            if same {
                deq_reds(th, a@, b@, fa@, fb@);
            } else {
                self.vals.done_evaluated(self.ctx, th, fa);
                self.vals.done_evaluated(self.ctx, th, fb);
                let n = choose|n: nat| #[trigger] unlike(th, fa@, fb@, n);
                assert(red(th, a@, fa@) && red(th, b@, fb@));
                assert(apart(th, a@, b@, n + 1));
            }
        }
        Ok(same)
    }

    fn conv_forced(&mut self, a: V, b: V, fuel: u64) -> (r: Result<bool, Stop>)
        requires
            old(self).wf(),
            old(self).vals.done(a),
            old(self).vals.done(b),
        ensures
            final(self).wf(),
            old(self).evolves(*final(self)),
            r == Ok::<bool, Stop>(true) ==> deq(old(self).theory(), a@, b@),
            ends(old(self).theory(), Task::ConvF(a@, b@), fuel as nat) ==> r is Ok,
            r == Ok::<bool, Stop>(false) ==> exists|n: nat| #[trigger] unlike(
                old(self).theory(),
                a@,
                b@,
                n,
            ),
        decreases fuel,
    {
        if fuel == 0 {
            return Err(Stop::OutOfFuel);
        }
        let ghost th = self.theory();
        if a.idx == b.idx {
            proof {
                self.vals.vals_at(a, b);
                deq_refl(th, a@);
            }
            return Ok(true);
        }
        let va = self.read_val(a);
        let vb = self.read_val(b);
        let (ca, cb) = (self.head_const(va), self.head_const(vb));
        if let (Some((n, l, s)), Some((m, k, t))) = (ca, cb) {
            proof {
                root_els(Tm::Const(n@, l@), s@);
                root_els(Tm::Const(m@, k@), t@);
            }
            if !self.ctx.eq_name(n, m) || !self.ctx.eq_levels(l, k) {
                assert(unlike(th, a@, b@, 0));
                return Ok(false);
            }
            proof {
                ends_next(th, Task::ConvF(a@, b@), Task::ConvS(s@, t@), fuel as nat);
            }
            let same = self.conv_spines(s, t, fuel - 1)?;
            proof {
                if same {
                    deq_spine(th, Tm::Const(n@, l@), s@, t@);
                } else {
                    let i = choose|i: nat| #[trigger] spines_unlike(th, s@, t@, i);
                    spine_unlike(th, a@, b@, i);
                }
            }
            return Ok(same);
        }
        match (va, vb) {
            (Value::Sort { level: l }, Value::Sort { level: m }) => {
                let same = self.eq_simplified(l, m);
                proof {
                    if same {
                        deq_sort(th, l@, m@);
                    } else {
                        assert(unlike(th, a@, b@, 0));
                    }
                }
                Ok(same)
            },
            (Value::NatLit { ptr: p }, Value::NatLit { ptr: q }) => {
                proof {
                    self.ctx.bignums_unique(p, q);
                    deq_refl(th, a@);
                    if p@ != q@ {
                        assert(unlike(th, a@, b@, 0));
                    }
                }
                Ok(p.is_at(q))
            },
            (Value::StrLit { ptr: p }, Value::StrLit { ptr: q }) => {
                proof {
                    self.ctx.strings_unique(p, q);
                    deq_refl(th, a@);
                    if p@ != q@ {
                        assert(unlike(th, a@, b@, 0));
                    }
                }
                Ok(p.is_at(q))
            },
            (Value::Rigid { head: h, spine: s }, Value::Rigid { head: g, spine: t }) => {
                proof {
                    root_els(h.tm(), s@);
                    root_els(g.tm(), t@);
                }
                if !self.same_head(h, g) {
                    assert(unlike(th, a@, b@, 0));
                    return Ok(false);
                }
                proof {
                    ends_next(th, Task::ConvF(a@, b@), Task::ConvS(s@, t@), fuel as nat);
                }
                let same = self.conv_spines(s, t, fuel - 1)?;
                proof {
                    if same {
                        deq_spine(th, h.tm(), s@, t@);
                    } else {
                        let i = choose|i: nat| #[trigger] spines_unlike(th, s@, t@, i);
                        spine_unlike(th, a@, b@, i);
                    }
                }
                Ok(same)
            },
            _ => {
                proof {
                    self.root_kind(a, va);
                    self.root_kind(b, vb);
                    assert(unlike(th, a@, b@, 0));
                }
                Ok(false)
            },
        }
    }

    /// The constant at the head of a value, and what is done to it.
    fn head_const(&self, v: Value) -> (r: Option<(NamePtr, LevelsPtr, S)>)
        requires
            self.wf(),
            self.vals.value_fits(self.ctx, v),
        ensures
            match r {
                Some((n, l, s)) => {
                    &&& self.ctx.has_name(n) && self.ctx.has_levels(l) && self.vals.has_spine(s)
                    &&& v.tree() == spine_tm(Tm::Const(n@, l@), s@)
                    &&& v is Rigid || v is Unfold
                },
                None => !(v is Unfold) && (v matches Value::Rigid { head, .. } ==> head is BVar || head
                    is Local),
            },
    {
        match v {
            Value::Rigid { head, spine } => match head {
                RigidHead::Axiom(n, l) => Some((n, l, spine)),
                RigidHead::Ctor(n, l) => Some((n, l, spine)),
                RigidHead::Recursor(n, l) => Some((n, l, spine)),
                RigidHead::QuotConst(n, l) => Some((n, l, spine)),
                RigidHead::Inductive(n, l) => Some((n, l, spine)),
                _ => None,
            },
            Value::Unfold { name, levels, spine, .. } => Some((name, levels, spine)),
            _ => None,
        }
    }

    /// What is at the root of what a value stands for.
    proof fn root_kind(&self, v: V, n: Value)
        requires
            self.vals.value_fits(self.ctx, n),
            n.tree() == v@,
            !(n is Thunk),
        ensures
            n matches Value::Rigid { head, .. } ==> root(v@) == head.tm(),
            n matches Value::Unfold { name, levels, .. } ==> root(v@) == Tm::Const(name@, levels@),
            !(n is Rigid) && !(n is Unfold) ==> root(v@) == v@,
    {
        match n {
            Value::Rigid { head, spine } => {
                root_els(head.tm(), spine@);
            },
            Value::Unfold { name, levels, spine, .. } => {
                root_els(Tm::Const(name@, levels@), spine@);
            },
            _ => {},
        }
    }

    fn conv_spines(&mut self, s: S, t: S, fuel: u64) -> (r: Result<bool, Stop>)
        requires
            old(self).wf(),
            old(self).vals.has_spine(s),
            old(self).vals.has_spine(t),
        ensures
            final(self).wf(),
            old(self).evolves(*final(self)),
            r == Ok::<bool, Stop>(true) ==> els_deq(old(self).theory(), s@, t@),
            s@.len() != t@.len() && fuel > 0 ==> r == Ok::<bool, Stop>(false),
            ends(old(self).theory(), Task::ConvS(s@, t@), fuel as nat) ==> r is Ok,
            r == Ok::<bool, Stop>(false) ==> exists|n: nat| #[trigger] spines_unlike(
                old(self).theory(),
                s@,
                t@,
                n,
            ),
        decreases fuel,
    {
        if fuel == 0 {
            return Err(Stop::OutOfFuel);
        }
        let ghost th = self.theory();
        let es = self.spine_elims(s);
        let fs = self.spine_elims(t);
        let n: usize = es.len();
        if n != fs.len() {
            assert(spines_unlike(th, s@, t@, 0));
            return Ok(false);
        }
        let mut i: usize = 0;
        while i < n
            invariant
                fuel > 0,
                i <= n,
                n == es@.len(),
                n == fs@.len(),
                s@ == elims(es@),
                t@ == elims(fs@),
                self.wf(),
                old(self).evolves(*self),
                self.theory() == th,
                th == old(self).theory(),
                forall|j: int|
                    0 <= j < n ==> self.vals.elim_fits(self.ctx, #[trigger] es@[j]),
                forall|j: int|
                    0 <= j < n ==> self.vals.elim_fits(self.ctx, #[trigger] fs@[j]),
                forall|j: int| 0 <= j < i ==> el_deq(th, #[trigger] s@[j], t@[j]),
            decreases n - i,
        {
            assert(self.vals.elim_fits(self.ctx, es@[i as int]));
            assert(self.vals.elim_fits(self.ctx, fs@[i as int]));
            proof {
                assert(s@[i as int] == es@[i as int].el());
                assert(t@[i as int] == fs@[i as int].el());
                if let Elim::App(a) = es@[i as int] {
                    if let Elim::App(b) = fs@[i as int] {
                        ends_next(th, Task::ConvS(s@, t@), Task::Conv(a@, b@), fuel as nat);
                    }
                }
            }
            let same = match (es[i], fs[i]) {
                (Elim::App(a), Elim::App(b)) => self.conv_types(a, b, fuel - 1)?,
                (
                    Elim::Proj { ty_name: n1, idx: i1 },
                    Elim::Proj { ty_name: n2, idx: i2 },
                ) => i1 == i2 && self.ctx.eq_name(n1, n2),
                _ => false,
            };
            if !same {
                proof {
                    let k = if es@[i as int] is App && fs@[i as int] is App {
                        choose|k: nat| #[trigger] apart(th, es@[i as int]->App_0@, fs@[i as int]->App_0@, k)
                    } else {
                        0
                    };
                    assert(s@[i as int] == es@[i as int].el() && t@[i as int] == fs@[i as int].el());
                    assert(spines_unlike(th, s@, t@, k));
                }
                return Ok(false);
            }
            assert(el_deq(th, s@[i as int], t@[i as int]));
            i = i + 1;
        }
        Ok(true)
    }

    /// The level of the universe that a type belongs to, where its type can be determined.
    pub fn level_of_type(&mut self, ty: V, fuel: u64) -> (r: Result<Option<LevelPtr>, Stop>)
        requires
            old(self).wf(),
            old(self).vals.has_val(ty),
        ensures
            final(self).wf(),
            old(self).evolves(*final(self)),
            r matches Ok(Some(l)) ==> final(self).ctx.has_level(l) && exists|w: Tm| #[trigger]
                red(old(self).theory(), ty@, w) && type_level(old(self).theory(), w, l@),
            fuel > 2 && old(self).vals.done(ty) && (ty@ is Lam || ty@ is Pi) ==> r == Ok::<
                Option<LevelPtr>,
                Stop,
            >(None),
            fuel > 2 && old(self).vals.done(ty) ==> (ty@ matches Tm::Sort(l) ==> (r matches Ok(Some(p))
                && p@ == lv_simplify(lv_simplify(Lv::Succ(Box::new(l)))))),
            ends(old(self).theory(), Task::Lvl(ty@), fuel as nat) ==> r is Ok,
            r == Ok::<Option<LevelPtr>, Stop>(None) ==> no_level(old(self).theory(), ty@),
        decreases fuel,
    {
        if fuel == 0 {
            return Err(Stop::OutOfFuel);
        }
        let ghost th = self.theory();
        proof {
            ends_next(th, Task::Lvl(ty@), Task::Forcing(Seq::empty(), ty@), fuel as nat);
        }
        let f = match self.force_all(ty, fuel - 1) {
            Ok(f) => f,
            Err(s) => {
                return Err(s);
            },
        };
        proof {
            self.vals.done_evaluated(self.ctx, th, f);
            assert(forced(th, f@));
        }
        match self.read_val(f) {
            Value::Lam { .. } => {
                return Ok(None);
            },
            Value::Pi { .. } => {
                return Ok(None);
            },
            Value::Rigid { head, spine } => {
                proof {
                    self.rigid_is_neutral(f, head, spine);
                }
            },
            Value::Unfold { name, levels, spine, .. } => {
                proof {
                    crate::value::spine_neutral(Tm::Const(name@, levels@), spine@);
                }
            },
            _ => {},
        }
        proof {
            ends_next(th, Task::Lvl(ty@), Task::TypeOf(f@), fuel as nat);
        }
        let t = self.value_type(f, fuel - 1)?;
        proof {
            ends_next(th, Task::Lvl(ty@), Task::Forcing(Seq::empty(), t@), fuel as nat);
        }
        let s = self.force_all(t, fuel - 1)?;
        let content = self.read_val(s);
        proof {
            self.vals.done_evaluated(self.ctx, th, s);
            assert(inf(th, Ck::Loose, f@, t@) && red(th, t@, s@) && forced(th, s@));
            if let Value::Rigid { head, spine } = content {
                self.rigid_is_neutral(s, head, spine);
            }
            if let Value::Unfold { name, levels, spine, .. } = content {
                crate::value::spine_neutral(Tm::Const(name@, levels@), spine@);
            }
            assert(!(s@ is Sort) ==> unsorted(th, f@));
        }
        match content {
            Value::Sort { level } => {
                let l = self.ctx.simplify(level);
                proof {
                    inf_conv(th, f@, t@, Tm::Sort(level@));
                    assert(type_level(th, f@, l@));
                }
                Ok(Some(l))
            },
            _ => Ok(None),
        }
    }
}

impl<'t> TypeChecker<'t> {
    /// Whether a constructor is at the head of a value.
    pub fn is_ctor_value(&self, v: V) -> (r: bool)
        requires
            self.wf(),
            self.vals.done(v),
        ensures
            r == ctor_app(self.theory(), v@),
    {
        let content = self.read_val(v);
        let (name, spine, Ghost(ls)): (NamePtr, S, Ghost<Seq<Lv>>) = match content {
            Value::Rigid { head: h, spine } => match h {
                RigidHead::Axiom(n, ls) => (n, spine, Ghost(ls@)),
                RigidHead::Ctor(n, ls) => (n, spine, Ghost(ls@)),
                RigidHead::Recursor(n, ls) => (n, spine, Ghost(ls@)),
                RigidHead::QuotConst(n, ls) => (n, spine, Ghost(ls@)),
                RigidHead::Inductive(n, ls) => (n, spine, Ghost(ls@)),
                _ => {
                    proof {
                        if head(v@) is Const {
                            crate::stable::spine_head(h.tm(), spine@);
                        }
                    }
                    return false;
                },
            },
            Value::Unfold { name, levels, spine, .. } => (name, spine, Ghost(levels@)),
            _ => {
                return false;
            },
        };
        let info = self.vals.read_spine(spine);
        assert(self.vals.fit(self.ctx, self.theory()));
        let has_proj = match info {
            Spine::Empty => false,
            Spine::Snoc { has_proj, .. } => has_proj,
        };
        proof {
            let h = Tm::Const(name@, ls);
            assert(v@ == spine_tm(h, spine@));
            if all_apps(spine@) {
                args_of_spine(h, spine@);
            } else if head(v@) is Const {
                crate::stable::spine_head(h, spine@);
            }
        }
        !has_proj && self.get_constructor(name).is_some()
    }
}

/// One thing that is done is equal by definition to another.
pub open spec fn el_deq(th: Theory, e: El, f: El) -> bool {
    match (e, f) {
        (El::App(a), El::App(b)) => deq(th, a, b),
        (El::Proj(m, j), El::Proj(n, k)) => m == n && j == k,
        _ => false,
    }
}

/// What is done in one spine is equal by definition to what is done in another.
pub open spec fn els_deq(th: Theory, es: Seq<El>, fs: Seq<El>) -> bool {
    &&& es.len() == fs.len()
    &&& forall|i: int| 0 <= i < es.len() ==> el_deq(th, #[trigger] es[i], fs[i])
}

/// Equal things done to a term give equal terms.
pub proof fn deq_spine(th: Theory, t: Tm, es: Seq<El>, fs: Seq<El>)
    requires
        els_deq(th, es, fs),
    ensures
        deq(th, spine_tm(t, es), spine_tm(t, fs)),
    decreases es.len(),
{
    if es.len() == 0 {
        deq_refl(th, t);
    } else {
        let p = es.drop_last();
        let q = fs.drop_last();
        assert forall|i: int| 0 <= i < p.len() implies el_deq(th, #[trigger] p[i], q[i]) by {
            assert(el_deq(th, es[i], fs[i]));
        }
        deq_spine(th, t, p, q);
        assert(el_deq(th, es[es.len() - 1], fs[es.len() - 1]));
        match (es.last(), fs.last()) {
            (El::App(a), El::App(b)) => {
                deq_app(th, spine_tm(t, p), spine_tm(t, q), a, b);
            },
            (El::Proj(m, j), El::Proj(_, _)) => {
                deq_proj(th, m, j, spine_tm(t, p), spine_tm(t, q));
            },
            _ => {},
        }
    }
}

/// The constructor of its projections may stand in the place of a major premise.
proof fn eta_replaces(
    th: Theory,
    r: RecursorData,
    major: Tm,
    raw: Tm,
    ind: Nm,
    ls: Seq<Lv>,
    zs: Seq<Tm>,
    m: int,
    c: Nm,
    k: nat,
    out: Tm,
)
    requires
        major_induct(r) == Some(ind),
        th.is_struct(ind),
        !ctor_app(th, major),
        inf(th, Ck::Loose, major, raw),
        red(th, raw, apps(Tm::Const(ind, ls), zs)),
        0 <= m <= zs.len(),
        first_ctor(th, ind) == Some(c),
        params_taken(th, r, c, zs.len(), m),
        ctor_fields(th, c) == Some(k),
        red(
            th,
            apps(apps(Tm::Const(c, ls), zs.take(m)), projections(ind, major, k)),
            out,
        ),
    ensures
        replaces_major(th, r, major, out),
{
    let mid = apps(apps(Tm::Const(c, ls), zs.take(m)), projections(ind, major, k));
    assert forall|n: Nm, ks: Seq<Lv>, ws: Seq<Tm>|
        #![trigger apps(Tm::Const(n, ks), ws.update(r.major_pos() as int, out))]
        th.recursor(n) == Some(r) && ws.len() > r.major_pos() && ws[r.major_pos() as int]
            == major implies red(
        th,
        apps(Tm::Const(n, ks), ws),
        apps(Tm::Const(n, ks), ws.update(r.major_pos() as int, out)),
    ) by {
        let p = r.major_pos() as int;
        let f = Tm::Const(n, ks);
        red_eta(th, n, ks, ws, r, raw, ind, ls, zs, m, c, k);
        let vs = ws.update(p, mid);
        red_apps_at(th, f, vs, p, out);
        assert(vs.update(p, out) =~= ws.update(p, out));
        red_trans(th, apps(f, ws), apps(f, vs), apps(f, ws.update(p, out)));
    }
}

/// A constructor without data may stand in the place of a major premise of its type.
proof fn k_replaces(
    th: Theory,
    r: RecursorData,
    major: Tm,
    raw: Tm,
    ty: Tm,
    ind: Nm,
    ls: Seq<Lv>,
    zs: Seq<Tm>,
    m: int,
    ys: Seq<Tm>,
    c: Nm,
    cty: Tm,
)
    requires
        r.is_k,
        major_induct(r) == Some(ind),
        inf(th, Ck::Loose, major, raw),
        red(th, raw, ty),
        red(th, ty, apps(Tm::Const(ind, ls), zs)),
        0 <= m <= zs.len(),
        red_all(th, zs.take(m), ys),
        first_ctor(th, ind) == Some(c),
        inf(th, Ck::Loose, apps(Tm::Const(c, ls), ys), cty),
        deq(th, ty, cty),
    ensures
        replaces_major(th, r, major, apps(Tm::Const(c, ls), ys)),
{
    let out = apps(Tm::Const(c, ls), ys);
    let f = Tm::Const(ind, ls);
    let xs = ys + zs.skip(m);
    assert forall|i: int| 0 <= i < zs.len() implies red(th, #[trigger] zs[i], xs[i]) by {
        if i < m {
            assert(red(th, zs.take(m)[i], ys[i]));
        } else {
            red_refl(th, zs[i]);
        }
    }
    red_refl(th, f);
    red_apps(th, f, f, zs, xs);
    red_trans(th, ty, apps(f, zs), apps(f, xs));
    red_trans(th, raw, ty, apps(f, xs));
    crate::laws::deq_red(th, ty, apps(f, xs));
    deq_symm(th, ty, apps(f, xs));
    deq_trans(th, apps(f, xs), ty, cty);
    assert(xs.take(m) =~= ys);
    assert forall|n: Nm, ks: Seq<Lv>, ws: Seq<Tm>|
        #![trigger apps(Tm::Const(n, ks), ws.update(r.major_pos() as int, out))]
        th.recursor(n) == Some(r) && ws.len() > r.major_pos() && ws[r.major_pos() as int]
            == major implies red(
        th,
        apps(Tm::Const(n, ks), ws),
        apps(Tm::Const(n, ks), ws.update(r.major_pos() as int, out)),
    ) by {
        red_k(th, n, ks, ws, r, raw, ind, ls, xs, m, c, cty);
    }
}


} // verus!
