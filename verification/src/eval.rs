//! Evaluation of terms to values.
use crate::checker::{fits_grows, Stop, TypeChecker};
use crate::env::Declar;
use crate::expr::Expr;
use crate::judge::{alpha, is_named, Ck, Theory};
use crate::laws::{
    inf, inf_const, inf_conv, red, red_app, red_beta, red_let, red_pi, red_refl, red_step,
    red_trans,
};
use crate::ops::trees;
use crate::ptr::{ExprPtr, LevelsPtr, NamePtr};
use crate::tree::{
    apps, apps_push, args, inst1, loose, lv_simplify, subst, subst_closed, subst_nothing, subst_push, Tm,
};
use crate::stable::{
    canon_fuel, canon_fuel_least, chains, const_type, declared_type, evaluates, evaluates_more, fixed_head, fixed_spine,
    fixed_stays, fixed_subst, frozen, frozen_fixed, frozen_stays,
    fuel_of_spine, same_head_args, spine_fuel, spine_links,
};
use crate::value::{
    done_valid, elims, els_red, els_red_refl, neutral, red_spine, simple, spine_push, spine_tm,
    vals_fit_grows, vtms, waits, E, El, Elim, EnvNode, RigidHead, S, Spine, V, Value,
};
use crate::vcache::{vcache_grows_ctx, vcache_grows_vals};
use crate::numbers::{nats_declared, number};
use crate::work::{
    args_of_spine, chain_down, computes, down, ends, ends_canon, ends_next, ends_sound, let_body, let_body_more, root_els, Task,
};
use crate::work::{nested};
use vstd::prelude::*;

verus! {

broadcast use {fits_grows, vals_fit_grows, vcache_grows_ctx, vcache_grows_vals, done_valid, crate::work::ends_some};

/// The fuel is enough to bring each of these values into its canonical form.
pub open spec fn canon_each(xs: Seq<V>, from: int, to: int, fuel: int) -> bool {
    forall|i: int| from <= i < to ==> canon_fuel((#[trigger] xs[i])@) <= fuel
}


/// A variable or constant that things are done to is applied to what the argument reduces to.
pub open spec fn one_more(th: Theory, f: Tm, a: Tm, v: Tm) -> bool {
    exists|c: Tm| #[trigger] red(th, a, c) && v == Tm::App(Box::new(f), Box::new(c))
}

/// Nested applications reduce as the innermost term does.
pub proof fn red_nested(th: Theory, fs: Seq<Tm>, env: Seq<Tm>, t: Tm, u: Tm)
    requires
        red(th, t, u),
    ensures
        red(th, nested(fs, env, t), nested(fs, env, u)),
    decreases fs.len(),
{
    if fs.len() > 0 {
        let f = subst(fs.last(), env, 0);
        red_refl(th, f);
        red_app(th, f, f, t, u);
        red_nested(
            th,
            fs.drop_last(),
            env,
            Tm::App(Box::new(f), Box::new(t)),
            Tm::App(Box::new(f), Box::new(u)),
        );
    }
}

/// The function does not reduce, and evaluation of it is bound to give a value.
pub open spec fn ready_fun(th: Theory, f: Tm, k: int) -> bool {
    frozen(th, f) && evaluates(th, f, k) && args(f).len() < u32::MAX
}

/// What is inside needs no more fuel than the whole.
proof fn nested_canon(fs: Seq<Tm>, env: Seq<Tm>, t: Tm)
    ensures
        canon_fuel(t) <= canon_fuel(nested(fs, env, t)),
    decreases fs.len(),
{
    if fs.len() > 0 {
        nested_canon(
            fs.drop_last(),
            env,
            Tm::App(Box::new(subst(fs.last(), env, 0)), Box::new(t)),
        );
    }
}

impl<'t> TypeChecker<'t> {
    /// The value for a bound variable.
    pub fn env_lookup(&self, env: E, dbj_idx: u16) -> (r: V)
        requires
            self.wf(),
            self.vals.has_env(env),
            dbj_idx < env@.len(),
        ensures
            self.vals.has_val(r),
            r@ == env@[env@.len() - 1 - dbj_idx],
    {
        let mut cur = env;
        let mut i: u16 = dbj_idx;
        loop
            invariant
                self.wf(),
                self.vals.has_env(cur),
                i < cur@.len(),
                cur@.len() <= env@.len(),
                cur@ == env@.take(cur@.len() as int),
                env@.len() - 1 - dbj_idx == cur@.len() - 1 - i,
            decreases i,
        {
            match self.vals.read_env(cur) {
                EnvNode::Empty => {
                    assert(false);
                },
                EnvNode::Extend { parent, v } => {
                    if i == 0 {
                        assert(cur@.last() == v@);
                        return v;
                    }
                    assert(parent@ =~= env@.take(parent@.len() as int));
                    cur = parent;
                    i = i - 1;
                },
            }
        }
    }

    /// What is done in a spine, in order.
    pub fn spine_elims(&self, spine: S) -> (r: Vec<Elim>)
        requires
            self.wf(),
            self.vals.has_spine(spine),
        ensures
            elims(r@) == spine@,
            forall|i: int| 0 <= i < r@.len() ==> self.vals.elim_fits(self.ctx, #[trigger] r@[i]),
    {
        let mut out: Vec<Elim> = Vec::new();
        let mut cur = spine;
        loop
            invariant
                self.wf(),
                self.vals.has_spine(cur),
                cur@.len() + out@.len() == spine@.len(),
                cur@ == spine@.take(cur@.len() as int),
                forall|i: int|
                    0 <= i < out@.len() ==> self.vals.elim_fits(self.ctx, #[trigger] out@[i])
                        && out@[i].el() == spine@[spine@.len() - 1 - i],
            decreases cur@.len(),
        {
            match self.vals.read_spine(cur) {
                Spine::Empty => {
                    let r = backwards(&out);
                    assert(elims(r@) =~= spine@);
                    return r;
                },
                Spine::Snoc { prev, elim, .. } => {
                    assert(cur@.last() == elim.el());
                    assert(prev@ =~= spine@.take(prev@.len() as int));
                    out.push(elim);
                    cur = prev;
                },
            }
        }
    }

    /// A value with the parts that others have as well, so that equal values are stored
    /// once. Values that are not evaluated yet are left alone.
    pub fn canonicalize_for_spine(&mut self, v: V, fuel: u64) -> (r: Result<V, Stop>)
        requires
            old(self).wf(),
            old(self).vals.has_val(v),
        ensures
            final(self).wf(),
            old(self).evolves(*final(self)),
            r matches Ok(c) ==> final(self).vals.has_val(c) && red(old(self).theory(), v@, c@) && (
            old(self).vals.done(v) ==> final(self).vals.done(c)),
            !old(self).vals.done(v) ==> r == Ok::<V, Stop>(v),
            fuel > 1 && old(self).vals.done(v) && !neutral(v@) ==> r is Ok,
            fuel >= canon_fuel(v@) ==> r is Ok,
        decreases fuel,
    {
        let ghost th = self.theory();
        proof {
            red_refl(th, v@);
            canon_fuel_least(v@);
        }
        match self.read_val(v) {
            Value::Thunk { .. } => {
                return Ok(v);
            },
            _ => {},
        }
        if fuel == 0 {
            return Err(Stop::OutOfFuel);
        }
        if let Some(c) = self.recall_canon(v) {
            return Ok(c);
        }
        match self.canon_compute(v, fuel - 1) {
            Ok(c) => {
                self.remember_canon(v, c);
                Ok(c)
            },
            Err(s) => Err(s),
        }
    }

    fn canon_spine(&mut self, spine: S, fuel: u64) -> (r: Result<S, Stop>)
        requires
            old(self).wf(),
            old(self).vals.has_spine(spine),
        ensures
            final(self).wf(),
            old(self).evolves(*final(self)),
            r matches Ok(s) ==> final(self).vals.has_spine(s) && els_red(
                old(self).theory(),
                spine@,
                s@,
            ),
            fuel >= spine_fuel(spine@) ==> r is Ok,
        decreases fuel,
    {
        if fuel == 0 {
            return Err(Stop::OutOfFuel);
        }
        let ghost th = self.theory();
        let content = self.vals.read_spine(spine);
        proof {
            if let Spine::Snoc { prev, elim, .. } = content {
                assert(spine@.drop_last() =~= prev@);
                assert(spine@.last() == elim.el());
            }
        }
        match content {
            Spine::Empty => {
                proof {
                    els_red_refl(th, spine@);
                }
                Ok(spine)
            },
            Spine::Snoc { prev, elim, .. } => {
                let cprev = self.canon_spine(prev, fuel - 1)?;
                let celim = match elim {
                    Elim::App(a) => Elim::App(self.canonicalize_for_spine(a, fuel - 1)?),
                    Elim::Proj { ty_name, idx } => Elim::Proj { ty_name, idx },
                };
                let s = self.spine_snoc_hc(cprev, celim)?;
                proof {
                    assert forall|i: int| 0 <= i < spine@.len() implies match (
                        #[trigger] spine@[i],
                        s@[i],
                    ) {
                        (El::App(a), El::App(b)) => red(th, a, b),
                        (El::Proj(m, j), El::Proj(n, k)) => m == n && j == k,
                        _ => false,
                    } by {
                        if i < prev@.len() {
                            assert(prev@[i] == spine@[i]);
                        }
                    }
                }
                Ok(s)
            },
        }
    }

    fn canon_compute(&mut self, v: V, fuel: u64) -> (r: Result<V, Stop>)
        requires
            old(self).wf(),
            old(self).vals.done(v),
        ensures
            final(self).wf(),
            old(self).evolves(*final(self)),
            r matches Ok(c) ==> final(self).vals.done(c) && red(old(self).theory(), v@, c@),
            fuel > 0 && !neutral(v@) ==> r is Ok,
            fuel + 1 >= canon_fuel(v@) ==> r is Ok,
        decreases fuel,
    {
        let ghost th = self.theory();
        proof {
            red_refl(th, v@);
            canon_fuel_least(v@);
        }
        if fuel == 0 {
            return Err(Stop::OutOfFuel);
        }
        match self.read_val(v) {
            Value::Lam { binder_name, binder_style, binder_type, env, body, .. } => {
                let c = self.mk_lam_hc(binder_name, binder_style, binder_type, env, body);
                proof {
                    assert(alpha(v@, c@));
                    red_step(th, v@, c@);
                }
                Ok(c)
            },
            Value::Pi { binder_name, binder_style, domain, env, body } => {
                let c = self.mk_pi_hc(binder_name, binder_style, domain, env, body);
                proof {
                    assert(alpha(v@, c@));
                    red_step(th, v@, c@);
                }
                Ok(c)
            },
            Value::Sort { level } => Ok(self.canon_content(0, level.get_hash(), v)),
            Value::NatLit { ptr } => Ok(self.canon_content(1, ptr.get_hash(), v)),
            Value::StrLit { ptr } => Ok(self.canon_content(2, ptr.get_hash(), v)),
            Value::Rigid { head, spine } => {
                proof {
                    self.rigid_is_neutral(v, head, spine);
                    fuel_of_spine(head.tm(), spine@);
                }
                let cspine = self.canon_spine(spine, fuel - 1)?;
                proof {
                    red_refl(th, head.tm());
                    red_spine(th, head.tm(), head.tm(), spine@, cspine@);
                }
                Ok(self.mk_rigid_hc(head, cspine))
            },
            Value::Unfold { name, levels, spine, head_value, .. } => {
                let ghost t = Tm::Const(name@, levels@);
                proof {
                    crate::value::spine_neutral(t, spine@);
                    fuel_of_spine(t, spine@);
                }
                let cspine = self.canon_spine(spine, fuel - 1)?;
                proof {
                    red_refl(th, t);
                    red_spine(th, t, t, spine@, cspine@);
                }
                Ok(self.mk_unfold_hc(name, levels, cspine, head_value))
            },
            Value::Thunk { .. } => Ok(v),
        }
    }

    /// A head that things are done to is neutral.
    pub proof fn rigid_is_neutral(&self, v: V, head: RigidHead, spine: S)
        requires
            self.vals.head_fits(self.ctx, head),
            v@ == spine_tm(head.tm(), spine@),
        ensures
            neutral(v@),
    {
        crate::value::spine_neutral(head.tm(), spine@);
    }

    /// Evaluates a term in an environment.
    pub fn eval(&mut self, env: E, e: ExprPtr, fuel: u64) -> (r: Result<V, Stop>)
        requires
            old(self).wf(),
            old(self).vals.has_env(env),
            old(self).ctx.has_expr(e),
            loose(e@) <= env@.len(),
        ensures
            final(self).wf(),
            old(self).evolves(*final(self)),
            r matches Ok(v) ==> final(self).vals.done(v) && red(
                old(self).theory(),
                subst(e@, env@, 0),
                v@,
            ),
            fuel > 1 ==> match e@ {
                Tm::Sort(l) => r matches Ok(v) && v@ == Tm::Sort(lv_simplify(l)),
                Tm::Const(_, _) | Tm::Local(_, _, _, _) | Tm::NatLit(_) | Tm::StrLit(_) => {
                    r matches Ok(v) && v@ == e@
                },
                _ => true,
            },
            evaluates(old(self).theory(), e@, fuel as int) ==> r is Ok,
            fuel > 4 && simple(subst(e@, env@, 0)) ==> r is Ok,
            ends(old(self).theory(), Task::Eval(true, subst(e@, env@, 0)), fuel as nat) ==> r is Ok,
            waits(e@) && ends(old(self).theory(), Task::Eval(false, subst(e@, env@, 0)), fuel as nat) ==> r is Ok,
        decreases fuel,
    {
        if fuel == 0 {
            return Err(Stop::OutOfFuel);
        }
        let ghost th = self.theory();
        let ghost t = subst(e@, env@, 0);
        proof {
            ends_next(th, Task::Eval(true, t), Task::Raw(!waits(e@), t), fuel as nat);
            ends_next(th, Task::Eval(false, t), Task::Raw(false, t), fuel as nat);
        }
        let compound = match self.ctx.read_expr(e) {
            Expr::App { .. } => true,
            Expr::Pi { .. } => true,
            Expr::Lambda { .. } => true,
            Expr::Let { .. } => true,
            Expr::Proj { .. } => true,
            _ => false,
        };
        if !compound {
            return self.eval_no_cache(env, e, fuel - 1);
        }
        if self.ctx.num_loose_bvars(e) == 0 {
            proof {
                subst_closed(e@, env@, 0);
            }
            if let Some(v) = self.recall_closed(e) {
                return Ok(v);
            }
            match self.eval_no_cache(env, e, fuel - 1) {
                Ok(v) => {
                    self.remember_closed(e, v);
                    Ok(v)
                },
                Err(s) => Err(s),
            }
        } else {
            if let Some(v) = self.recall_open(env, e) {
                return Ok(v);
            }
            match self.eval_no_cache(env, e, fuel - 1) {
                Ok(v) => {
                    self.remember_open(env, e, v);
                    Ok(v)
                },
                Err(s) => Err(s),
            }
        }
    }

    /// Evaluates a term in an environment, whether or not its value is remembered.
    pub fn eval_no_cache(&mut self, env: E, e: ExprPtr, fuel: u64) -> (r: Result<V, Stop>)
        requires
            old(self).wf(),
            old(self).vals.has_env(env),
            old(self).ctx.has_expr(e),
            loose(e@) <= env@.len(),
        ensures
            final(self).wf(),
            old(self).evolves(*final(self)),
            r matches Ok(v) ==> final(self).vals.done(v) && red(
                old(self).theory(),
                subst(e@, env@, 0),
                v@,
            ),
            fuel > 0 ==> match e@ {
                Tm::Sort(l) => r matches Ok(v) && v@ == Tm::Sort(lv_simplify(l)),
                Tm::Const(_, _) | Tm::Local(_, _, _, _) | Tm::NatLit(_) | Tm::StrLit(_) => {
                    r matches Ok(v) && v@ == e@
                },
                Tm::Lam(_, _, _, _) => r matches Ok(v) && v@ == subst(e@, env@, 0),
                Tm::Pi(_, _, _, _) => r matches Ok(v) ==> v@ is Pi,
                _ => true,
            },
            evaluates(old(self).theory(), e@, fuel + 1) ==> r is Ok,
            frozen(old(self).theory(), subst(e@, env@, 0)) ==> (r matches Ok(v) ==> v@ == subst(
                e@,
                env@,
                0,
            )),
            fuel > 3 && simple(subst(e@, env@, 0)) ==> r is Ok,
            ends(old(self).theory(), Task::Raw(!waits(e@), subst(e@, env@, 0)), fuel as nat) ==> r is Ok,
        decreases fuel,
    {
        if fuel == 0 {
            return Err(Stop::OutOfFuel);
        }
        let ghost th = self.theory();
        let ghost t = subst(e@, env@, 0);
        proof {
            red_refl(th, t);
        }
        match self.ctx.read_expr(e) {
            Expr::App { fun, arg, .. } => {
                proof {
                    ends_next(th, Task::Raw(!waits(e@), t), Task::Chain(t), fuel as nat);
                    ends_next(th, Task::Raw(!waits(e@), t), Task::AppOf(subst(fun@, env@, 0), subst(arg@, env@, 0)), fuel as nat);
                }
                let r = match self.ctx.read_expr(arg) {
                    Expr::App { .. } => self.eval_chain(env, e, fuel - 1),
                    _ => self.eval_app(env, fun, arg, fuel - 1),
                };
                proof {
                    if frozen(th, t) && r is Ok {
                        frozen_stays(th, t, r->Ok_0@);
                    }
                }
                r
            },
            Expr::Var { dbj_idx, .. } => {
                let v = self.env_lookup(env, dbj_idx);
                proof {
                    ends_next(th, Task::Raw(!waits(e@), t), Task::Thunk(t), fuel as nat);
                }
                let r = self.force_thunk(v, fuel - 1);
                proof {
                    if frozen(th, t) && r is Ok {
                        frozen_stays(th, t, r->Ok_0@);
                    }
                }
                r
            },
            Expr::Sort { level, .. } => {
                let l = self.ctx.simplify(level);
                proof {
                    red_step(th, t, Tm::Sort(l@));
                }
                Ok(self.mk_sort(l))
            },
            Expr::Const { name, levels, .. } => Ok(self.eval_const(name, levels)),
            Expr::Lambda { binder_name, binder_style, binder_type, body, .. } => {
                Ok(self.mk_lam(binder_name, binder_style, binder_type, env, body))
            },
            Expr::Pi { binder_name, binder_style, binder_type, body, .. } => {
                proof {
                    ends_next(th, Task::Raw(!waits(e@), t), Task::Wait(subst(binder_type@, env@, 0)), fuel as nat);
                }
                let dom = self.eval_or_wait(env, binder_type, fuel - 1)?;
                let v = self.mk_pi(binder_name, binder_style, dom, env, body);
                proof {
                    red_pi(
                        th,
                        binder_name@,
                        binder_style,
                        subst(binder_type@, env@, 0),
                        dom@,
                        subst(body@, env@, 1),
                    );
                }
                Ok(v)
            },
            Expr::Let { .. } => {
                proof {
                    ends_next(th, Task::Raw(!waits(e@), t), Task::Lets(t), fuel as nat);
                }
                self.eval_let(env, e, fuel - 1)
            },
            Expr::Local { .. } => Ok(self.local_value(e)),
            Expr::Proj { ty_name, idx, structure, .. } => {
                proof {
                    ends_next(th, Task::Raw(!waits(e@), t), Task::Eval(true, subst(structure@, env@, 0)), fuel as nat);
                }
                let vs = self.eval(env, structure, fuel - 1)?;
                proof {
                    ends_next(th, Task::Raw(!waits(e@), t), Task::ProjV(ty_name@, idx as nat, vs@), fuel as nat);
                    let st = subst(structure@, env@, 0);
                    if fixed_head(th, structure@) {
                        fixed_subst(th, structure@, env@, 0);
                        fixed_stays(th, st, vs@);
                        same_head_args(th, st, vs@);
                    }
                }
                let v = self.do_proj(ty_name, idx, vs, fuel - 1)?;
                proof {
                    crate::laws::red_proj(
                        th,
                        ty_name@,
                        idx as nat,
                        subst(structure@, env@, 0),
                        vs@,
                    );
                    red_trans(th, t, Tm::Proj(ty_name@, idx as nat, Box::new(vs@)), v@);
                }
                Ok(v)
            },
            Expr::NatLit { ptr, .. } => Ok(self.mk_natlit(ptr)),
            Expr::StringLit { ptr, .. } => Ok(self.mk_strlit(ptr)),
        }
    }

    /// The value of a term, where that takes little work, or a value that is evaluated
    /// later.
    fn eval_or_wait(&mut self, env: E, e: ExprPtr, fuel: u64) -> (r: Result<V, Stop>)
        requires
            old(self).wf(),
            old(self).vals.has_env(env),
            old(self).ctx.has_expr(e),
            loose(e@) <= env@.len(),
        ensures
            final(self).wf(),
            old(self).evolves(*final(self)),
            r matches Ok(v) ==> final(self).vals.has_val(v) && red(
                old(self).theory(),
                subst(e@, env@, 0),
                v@,
            ),
            fuel > 2 && !(e@ is Var) ==> (r matches Ok(v) && (final(self).vals.done(v) ==> canon_fuel(
                v@,
            ) == 3)),
            ends(old(self).theory(), Task::Wait(subst(e@, env@, 0)), fuel as nat) ==> r is Ok,
        decreases fuel,
    {
        if fuel == 0 {
            return Err(Stop::OutOfFuel);
        }
        let ghost th = self.theory();
        proof {
            ends_next(th, Task::Wait(subst(e@, env@, 0)), Task::Eval(true, subst(e@, env@, 0)), fuel as nat);
        }
        let trivial = match self.ctx.read_expr(e) {
            Expr::Var { .. } => true,
            Expr::Sort { .. } => true,
            Expr::Const { .. } => true,
            Expr::NatLit { .. } => true,
            Expr::StringLit { .. } => true,
            Expr::Local { .. } => true,
            _ => false,
        };
        if trivial {
            self.eval(env, e, fuel - 1)
        } else {
            proof {
                red_refl(self.theory(), subst(e@, env@, 0));
            }
            Ok(self.mk_thunk(env, e))
        }
    }

    fn eval_app(&mut self, env: E, fun: ExprPtr, arg: ExprPtr, fuel: u64) -> (r: Result<V, Stop>)
        requires
            old(self).wf(),
            old(self).vals.has_env(env),
            old(self).ctx.has_expr(fun),
            old(self).ctx.has_expr(arg),
            loose(fun@) <= env@.len(),
            loose(arg@) <= env@.len(),
        ensures
            final(self).wf(),
            old(self).evolves(*final(self)),
            r matches Ok(v) ==> final(self).vals.done(v) && red(
                old(self).theory(),
                Tm::App(Box::new(subst(fun@, env@, 0)), Box::new(subst(arg@, env@, 0))),
                v@,
            ),
            !(arg@ is App) && evaluates(
                old(self).theory(),
                Tm::App(Box::new(fun@), Box::new(arg@)),
                fuel + 2,
            ) ==> r is Ok,
            ends(old(self).theory(), Task::AppOf(subst(fun@, env@, 0), subst(arg@, env@, 0)), fuel as nat) ==> r is Ok,
        decreases fuel,
    {
        if fuel == 0 {
            return Err(Stop::OutOfFuel);
        }
        let ghost th = self.theory();
        proof {
            ends_next(th, Task::AppOf(subst(fun@, env@, 0), subst(arg@, env@, 0)), Task::Eval(true, subst(fun@, env@, 0)), fuel as nat);
            ends_next(th, Task::AppOf(subst(fun@, env@, 0), subst(arg@, env@, 0)), Task::Wait(subst(arg@, env@, 0)), fuel as nat);
        }
        let f = self.eval(env, fun, fuel - 1)?;
        proof {
            if fixed_head(th, fun@) {
                fixed_subst(th, fun@, env@, 0);
                fixed_stays(th, subst(fun@, env@, 0), f@);
                same_head_args(th, subst(fun@, env@, 0), f@);
            }
        }
        let a = self.eval_or_wait(env, arg, fuel - 1)?;
        proof {
            ends_next(th, Task::AppOf(subst(fun@, env@, 0), subst(arg@, env@, 0)), Task::Apply(f@, a@), fuel as nat);
        }
        let v = self.apply(f, a, fuel - 1)?;
        proof {
            let ft = subst(fun@, env@, 0);
            let at = subst(arg@, env@, 0);
            red_app(th, ft, f@, at, a@);
            red_trans(
                th,
                Tm::App(Box::new(ft), Box::new(at)),
                Tm::App(Box::new(f@), Box::new(a@)),
                v@,
            );
        }
        Ok(v)
    }

    /// Evaluates applications that are nested in their arguments, from the innermost one
    /// outwards. A function that follows on itself is evaluated once.
    fn eval_chain(&mut self, env: E, e: ExprPtr, fuel: u64) -> (r: Result<V, Stop>)
        requires
            old(self).wf(),
            old(self).vals.has_env(env),
            old(self).ctx.has_expr(e),
            loose(e@) <= env@.len(),
        ensures
            final(self).wf(),
            old(self).evolves(*final(self)),
            r matches Ok(v) ==> final(self).vals.done(v) && red(
                old(self).theory(),
                subst(e@, env@, 0),
                v@,
            ),
            fuel > canon_fuel(e@) + 4 && frozen(old(self).theory(), e@) && chains(
                old(self).theory(),
                e@,
                fuel - 1,
            ) ==> r is Ok,
            ends(old(self).theory(), Task::Chain(subst(e@, env@, 0)), fuel as nat) && e@ is App ==> r is Ok,
        decreases fuel,
    {
        if fuel == 0 {
            return Err(Stop::OutOfFuel);
        }
        let ghost th = self.theory();
        let ghost t = subst(e@, env@, 0);
        let ghost sure = fuel > canon_fuel(e@) + 4 && frozen(th, e@) && chains(th, e@, fuel - 1);
        proof {
            if sure {
                frozen_fixed(th, e@);
            }
        }
        let (mut funs, leaf) = self.chain_of(env, e, Ghost(fuel - 1));
        proof {
            chain_down(trees(funs@), env@, subst(leaf@, env@, 0));
            ends_next(th, Task::Chain(t), Task::Eval(true, subst(leaf@, env@, 0)), fuel as nat);
        }
        let mut result = self.eval(env, leaf, fuel - 1)?;
        proof {
            red_nested(th, trees(funs@), env@, subst(leaf@, env@, 0), result@);
        }
        let mut last: Option<(ExprPtr, V)> = None;
        while funs.len() > 0
            invariant
                t == subst(e@, env@, 0),
                sure <==> (fuel > canon_fuel(e@) + 4 && frozen(th, e@) && chains(
                    th,
                    e@,
                    fuel - 1,
                )),
                sure ==> t == e@ && forall|i: int|
                    0 <= i < funs@.len() ==> ready_fun(th, (#[trigger] funs@[i])@, fuel - 1),
                fuel > 0,
                self.wf(),
                old(self).evolves(*self),
                self.theory() == th,
                th == old(self).theory(),
                self.vals.has_env(env),
                self.ctx.has_exprs(funs@),
                forall|i: int|
                    0 <= i < funs@.len() ==> loose((#[trigger] funs@[i])@) <= env@.len(),
                self.vals.done(result),
                forall|i: nat| i < funs@.len() ==> (#[trigger] down(t, i) matches Tm::App(g, _) && *g
                    == subst(funs@[i as int]@, env@, 0)),
                funs@.len() > 0 ==> red(th, down(t, funs@.len()), result@),
                red(th, t, nested(trees(funs@), env@, result@)),
                last matches Some((fe, fv)) ==> self.ctx.has_expr(fe) && self.vals.done(fv) && red(
                    th,
                    subst(fe@, env@, 0),
                    fv@,
                ),
            decreases funs@.len(),
        {
            let ghost before = funs@;
            let k: usize = funs.len() - 1;
            let f_expr = funs[k];
            proof {
                if sure {
                    assert(ready_fun(th, funs@[k as int]@, fuel - 1));
                    frozen_stays(th, t, nested(trees(funs@), env@, result@));
                    nested_canon(trees(funs@), env@, result@);
                    frozen_fixed(th, f_expr@);
                }
            }
            funs.pop();
            let again = match last {
                Some((fe, fv)) => if self.ctx.eq_expr(fe, f_expr) {
                    Some(fv)
                } else {
                    None
                },
                None => None,
            };
            proof {
                assert(down(t, k as nat) is App);
                assert(down(t, (k + 1) as nat) == *(down(t, k as nat)->App_1));
                ends_next(th, Task::Chain(t), Task::Eval(true, subst(f_expr@, env@, 0)), fuel as nat);
            }
            let f = match again {
                Some(fv) => fv,
                None => self.eval(env, f_expr, fuel - 1)?,
            };
            last = Some((f_expr, f));
            proof {
                if sure {
                    frozen_stays(th, f_expr@, f@);
                }
            }
            proof {
                ends_next(th, Task::Chain(t), Task::Apply(f@, result@), fuel as nat);
            }
            let next = self.apply(f, result, fuel - 1)?;
            proof {
                red_refl(th, result@);
                red_app(th, subst(f_expr@, env@, 0), f@, *(down(t, k as nat)->App_1), result@);
                red_trans(
                    th,
                    down(t, k as nat),
                    Tm::App(Box::new(f@), Box::new(result@)),
                    next@,
                );
                let ft = subst(f_expr@, env@, 0);
                let inner = Tm::App(Box::new(ft), Box::new(result@));
                assert(trees(before).drop_last() =~= trees(funs@));
                assert(trees(before).last() == f_expr@);
                red_refl(th, result@);
                red_app(th, ft, f@, result@, result@);
                red_trans(th, inner, Tm::App(Box::new(f@), Box::new(result@)), next@);
                red_nested(th, trees(funs@), env@, inner, next@);
                red_trans(
                    th,
                    t,
                    nested(trees(before), env@, result@),
                    nested(trees(funs@), env@, next@),
                );
            }
            result = next;
        }
        Ok(result)
    }

    fn chain_of(&self, env: E, e: ExprPtr, Ghost(k): Ghost<int>) -> (r: (Vec<ExprPtr>, ExprPtr))
        requires
            self.wf(),
            self.ctx.has_expr(e),
            loose(e@) <= env@.len(),
        ensures
            self.ctx.has_exprs(r.0@),
            forall|i: int| 0 <= i < r.0@.len() ==> loose((#[trigger] r.0@[i])@) <= env@.len(),
            self.ctx.has_expr(r.1),
            loose(r.1@) <= env@.len(),
            !(r.1@ is App),
            e@ is App ==> r.0@.len() > 0,
            subst(e@, env@, 0) == nested(trees(r.0@), env@, subst(r.1@, env@, 0)),
            frozen(self.theory(), e@) && chains(self.theory(), e@, k) ==> {
                &&& frozen(self.theory(), r.1@) && k > 1
                &&& forall|i: int| 0 <= i < r.0@.len() ==> ready_fun(
                    self.theory(),
                    (#[trigger] r.0@[i])@,
                    k,
                )
            },
    {
        let mut funs: Vec<ExprPtr> = Vec::new();
        let mut cur = e;
        loop
            invariant
                self.wf(),
                self.ctx.has_exprs(funs@),
                forall|i: int|
                    0 <= i < funs@.len() ==> loose((#[trigger] funs@[i])@) <= env@.len(),
                self.ctx.has_expr(cur),
                loose(cur@) <= env@.len(),
                subst(e@, env@, 0) == nested(trees(funs@), env@, subst(cur@, env@, 0)),
                frozen(self.theory(), e@) && chains(self.theory(), e@, k) ==> {
                    &&& frozen(self.theory(), cur@) && chains(self.theory(), cur@, k)
                    &&& forall|i: int| 0 <= i < funs@.len() ==> ready_fun(
                        self.theory(),
                        (#[trigger] funs@[i])@,
                        k,
                    )
                },
                e@ is App && funs@.len() == 0 ==> cur@ is App,
            decreases cur@,
        {
            match self.ctx.read_expr(cur) {
                Expr::App { fun, arg, .. } => {
                    let ghost before = funs@;
                    funs.push(fun);
                    proof {
                        assert(trees(funs@).drop_last() =~= trees(before));
                        assert(trees(funs@).last() == fun@);
                        assert(cur@ matches Tm::App(f, a) && *f == fun@ && *a == arg@);
                    }
                    cur = arg;
                },
                _ => {
                    return (funs, cur);
                },
            }
        }
    }

    fn eval_let(&mut self, env: E, e: ExprPtr, fuel: u64) -> (r: Result<V, Stop>)
        requires
            old(self).wf(),
            old(self).vals.has_env(env),
            old(self).ctx.has_expr(e),
            loose(e@) <= env@.len(),
        ensures
            final(self).wf(),
            old(self).evolves(*final(self)),
            r matches Ok(v) ==> final(self).vals.done(v) && red(
                old(self).theory(),
                subst(e@, env@, 0),
                v@,
            ),
            e@ is Let && evaluates(old(self).theory(), e@, fuel + 2) ==> r is Ok,
            ends(old(self).theory(), Task::Lets(subst(e@, env@, 0)), fuel as nat) && e@ is Let ==> r is Ok,
        decreases fuel,
    {
        if fuel == 0 {
            return Err(Stop::OutOfFuel);
        }
        let ghost th = self.theory();
        let ghost t = subst(e@, env@, 0);
        proof {
            red_refl(th, t);
        }
        let mut inner = env;
        let mut cursor = e;
        loop
            invariant
                fuel > 0,
                self.wf(),
                old(self).evolves(*self),
                self.theory() == th,
                th == old(self).theory(),
                self.vals.has_env(inner),
                self.ctx.has_expr(cursor),
                loose(cursor@) <= inner@.len(),
                t == subst(e@, env@, 0),
                red(th, t, subst(cursor@, inner@, 0)),
                e@ is Let ==> (cursor@ is Let && subst(cursor@, inner@, 0) == t) || let_body(
                    th,
                    t,
                    subst(cursor@, inner@, 0),
                ),
                e@ is Let && evaluates(th, e@, fuel + 2) ==> match cursor@ {
                    Tm::Let(_, _, v, b, _) => evaluates(th, *v, fuel - 1) && evaluates(
                        th,
                        *b,
                        fuel - 1,
                    ),
                    _ => evaluates(th, cursor@, fuel - 1),
                },
            decreases cursor@,
        {
            match self.ctx.read_expr(cursor) {
                Expr::Let { binder_name, binder_type, val, body, nondep, .. } => {
                    proof {
                        ends_next(th, Task::Lets(t), Task::Eval(true, subst(val@, inner@, 0)), fuel as nat);
                    }
                    let w = self.eval(inner, val, fuel - 1)?;
                    let ghost before = inner@;
                    proof {
                        self.vals.env_closed(self.ctx, th, inner);
                        red_let(
                            th,
                            binder_name@,
                            subst(binder_type@, before, 0),
                            subst(val@, before, 0),
                            w@,
                            subst(body@, before, 1),
                            nondep,
                        );
                        subst_push(body@, before, w@, 0);
                        red_trans(
                            th,
                            t,
                            subst(cursor@, before, 0),
                            subst(body@, before.push(w@), 0),
                        );
                        red_refl(th, subst(body@, before.push(w@), 0));
                        if let_body(th, t, subst(cursor@, before, 0)) {
                            let_body_more(
                                th,
                                t,
                                subst(cursor@, before, 0),
                                subst(body@, before.push(w@), 0),
                            );
                        }
                        assert(cursor@ matches Tm::Let(_, _, _, b, _) && *b == body@);
                        if evaluates(th, body@, fuel - 1) {
                            if let Tm::Let(_, _, v, b, _) = body@ {
                                evaluates_more(th, *v, fuel - 4, fuel - 1);
                                evaluates_more(th, *b, fuel - 4, fuel - 1);
                            }
                        }
                    }
                    inner = self.env_extend_hc(inner, w);
                    cursor = body;
                },
                _ => {
                    proof {
                        ends_next(th, Task::Lets(t), Task::Eval(true, subst(cursor@, inner@, 0)), fuel as nat);
                    }
                    let v = self.eval(inner, cursor, fuel - 1)?;
                    proof {
                        red_trans(th, t, subst(cursor@, inner@, 0), v@);
                    }
                    return Ok(v);
                },
            }
        }
    }

    /// The value of a constant.
    pub fn eval_const(&mut self, name: NamePtr, levels: LevelsPtr) -> (r: V)
        requires
            old(self).wf(),
            old(self).ctx.has_name(name),
            old(self).ctx.has_levels(levels),
        ensures
            final(self).wf(),
            old(self).evolves(*final(self)),
            final(self).vals.done(r),
            r@ == Tm::Const(name@, levels@),
    {
        if let Some(cached) = self.recall_head_value(name, levels) {
            return cached;
        }
        let v = match self.get_declar(name) {
            Some(Declar::Definition { .. }) => self.mk_unfold_head(name, levels),
            Some(Declar::Theorem { .. }) => self.mk_unfold_head(name, levels),
            Some(Declar::Constructor(_)) => self.mk_rigid_head(RigidHead::Ctor(name, levels)),
            Some(Declar::Recursor(_)) => self.mk_rigid_head(RigidHead::Recursor(name, levels)),
            Some(Declar::Quot { .. }) => self.mk_rigid_head(RigidHead::QuotConst(name, levels)),
            Some(Declar::Inductive(_)) => self.mk_rigid_head(RigidHead::Inductive(name, levels)),
            _ => self.mk_rigid_head(RigidHead::Axiom(name, levels)),
        };
        self.remember_head_value(name, levels, v);
        v
    }

    /// Evaluates a term without loose variables.
    pub fn eval_closed(&mut self, e: ExprPtr, fuel: u64) -> (r: Result<V, Stop>)
        requires
            old(self).wf(),
            old(self).ctx.has_expr(e),
        ensures
            final(self).wf(),
            old(self).evolves(*final(self)),
            r matches Ok(v) ==> final(self).vals.done(v) && red(old(self).theory(), e@, v@),
            fuel > 0 && loose(e@) > 0 ==> r == Err::<V, Stop>(Stop::LooseVariable),
            fuel > 2 ==> match e@ {
                Tm::Sort(l) => r matches Ok(v) && v@ == Tm::Sort(lv_simplify(l)),
                Tm::Const(_, _) | Tm::NatLit(_) | Tm::StrLit(_) => r matches Ok(v) && v@ == e@,
                _ => true,
            },
            loose(e@) == 0 && evaluates(old(self).theory(), e@, fuel - 1) ==> r is Ok,
            ends(old(self).theory(), Task::Closed(e@), fuel as nat) ==> r is Ok,
        decreases fuel,
    {
        if fuel == 0 {
            return Err(Stop::OutOfFuel);
        }
        let ghost th = self.theory();
        proof {
            ends_next(th, Task::Closed(e@), Task::Eval(true, e@), fuel as nat);
        }
        if self.ctx.num_loose_bvars(e) != 0 {
            return Err(Stop::LooseVariable);
        }
        let empty = self.empty_env();
        proof {
            subst_nothing(e@, 0);
        }
        self.eval(empty, e, fuel - 1)
    }

    /// The type of a constant.
    pub fn const_head_type(&mut self, name: NamePtr, levels: LevelsPtr, fuel: u64) -> (r: Result<
        V,
        Stop,
    >)
        requires
            old(self).wf(),
            old(self).ctx.has_name(name),
            old(self).ctx.has_levels(levels),
        ensures
            final(self).wf(),
            old(self).evolves(*final(self)),
            r matches Ok(v) ==> final(self).vals.done(v) && inf(
                old(self).theory(),
                Ck::Loose,
                Tm::Const(name@, levels@),
                v@,
            ) && red(old(self).theory(), declared_type(old(self).theory(), name@, levels@), v@),
            !old(self).theory().decls.contains_key(name@) ==> r == Err::<V, Stop>(
                Stop::UnknownConst,
            ),
            fuel > 3 && old(self).theory().decls.contains_key(name@) && declared_type(
                old(self).theory(),
                name@,
                levels@,
            ) is Sort ==> r is Ok,
            ends(old(self).theory(), Task::ConstTy(name@, levels@), fuel as nat) ==> r is Ok,
        decreases fuel,
    {
        let ghost th = self.theory();
        proof {
            ends_next(th, Task::ConstTy(name@, levels@), Task::Closed(declared_type(th, name@, levels@)), fuel as nat);
        }
        let info = match self.get_declar(name) {
            Some(d) => d.info(),
            None => {
                return Err(Stop::UnknownConst);
            },
        };
        if fuel == 0 {
            return Err(Stop::OutOfFuel);
        }
        if let Some(cached) = self.recall_head_type(name, levels) {
            proof {
                const_type(th, Ck::Loose, name@, levels@, cached@);
            }
            return Ok(cached);
        }
        let ty = self.ctx.subst_expr_levels(info.ty, info.uparams, levels);
        match self.eval_closed(ty, fuel - 1) {
            Ok(v) => {
                proof {
                    inf_const(th, Ck::Loose, name@, levels@);
                    inf_conv(th, Tm::Const(name@, levels@), ty@, v@);
                }
                self.remember_head_type(name, levels, v);
                Ok(v)
            },
            Err(s) => Err(s),
        }
    }

    /// The value, evaluated now if it was to be evaluated later.
    pub fn force_thunk(&mut self, v: V, fuel: u64) -> (r: Result<V, Stop>)
        requires
            old(self).wf(),
            old(self).vals.has_val(v),
        ensures
            final(self).wf(),
            old(self).evolves(*final(self)),
            r matches Ok(w) ==> final(self).vals.done(w) && red(old(self).theory(), v@, w@),
            old(self).vals.done(v) ==> r == Ok::<V, Stop>(v),
            fuel > 2 && simple(v@) ==> r is Ok,
            ends(old(self).theory(), Task::Thunk(v@), fuel as nat) ==> r is Ok,
            !waits(v@) ==> r == Ok::<V, Stop>(v),
        decreases fuel,
    {
        let ghost th = self.theory();
        proof {
            red_refl(th, v@);
        }
        proof {
            ends_next(th, Task::Thunk(v@), Task::Eval(false, v@), fuel as nat);
        }
        match self.read_val(v) {
            Value::Thunk { env, expr, forced } => {
                if fuel == 0 {
                    return Err(Stop::OutOfFuel);
                }
                if let Some(w) = self.vals.read_cell(forced, Ghost(v@)) {
                    assert(self.vals.fit(self.ctx, th));
                    return Ok(w);
                }
                match self.eval(env, expr, fuel - 1) {
                    Ok(w) => {
                        Ok(self.keep(forced, w, Ghost(v@)))
                    },
                    Err(s) => Err(s),
                }
            },
            _ => Ok(v),
        }
    }

    /// The domain of a function or a function type.
    pub fn lam_domain(&mut self, v: V, fuel: u64) -> (r: Result<V, Stop>)
        requires
            old(self).wf(),
            old(self).vals.done(v),
        ensures
            final(self).wf(),
            old(self).evolves(*final(self)),
            r matches Ok(d) ==> final(self).vals.has_val(d) && match v@ {
                Tm::Lam(_, _, t, _) => red(old(self).theory(), *t, d@),
                Tm::Pi(_, _, t, _) => d@ == *t,
                _ => false,
            },
            v@ is Pi ==> r is Ok,
            !(v@ is Lam) && !(v@ is Pi) ==> r == Err::<V, Stop>(Stop::IllTyped),
            v@ matches Tm::Lam(_, _, t, _) ==> (ends(old(self).theory(), Task::Wait(*t), fuel as nat)
                ==> r is Ok),
        decreases fuel,
    {
        match self.read_val(v) {
            Value::Lam { binder_type, domain, env, .. } => {
                if fuel == 0 {
                    return Err(Stop::OutOfFuel);
                }
                let ghost t = subst(binder_type@, env@, 0);
                if let Some(d) = self.vals.read_cell(domain, Ghost(t)) {
                    assert(self.vals.fit(self.ctx, self.theory()));
                    return Ok(d);
                }
                proof {
                    ends_next(self.theory(), Task::Wait(t), Task::Eval(true, t), fuel as nat);
                }
                match self.eval(env, binder_type, fuel - 1) {
                    Ok(d) => {
                        Ok(self.keep(domain, d, Ghost(t)))
                    },
                    Err(s) => Err(s),
                }
            },
            Value::Pi { domain, .. } => Ok(domain),
            Value::Rigid { head, spine } => {
                proof {
                    self.rigid_is_neutral(v, head, spine);
                }
                Err(Stop::IllTyped)
            },
            Value::Unfold { name, levels, spine, .. } => {
                proof {
                    crate::value::spine_neutral(Tm::Const(name@, levels@), spine@);
                }
                Err(Stop::IllTyped)
            },
            _ => Err(Stop::IllTyped),
        }
    }

    /// Applies a value.
    pub fn apply(&mut self, f: V, a: V, fuel: u64) -> (r: Result<V, Stop>)
        requires
            old(self).wf(),
            old(self).vals.done(f),
            old(self).vals.has_val(a),
        ensures
            final(self).wf(),
            old(self).evolves(*final(self)),
            r matches Ok(v) ==> final(self).vals.done(v) && red(
                old(self).theory(),
                Tm::App(Box::new(f@), Box::new(a@)),
                v@,
            ),
            !(f@ is Lam) && !neutral(f@) ==> r == Err::<V, Stop>(Stop::IllTyped),
            f@ matches Tm::Lam(_, _, _, b) ==> (r matches Ok(v) ==> red(
                old(self).theory(),
                inst1(*b, a@),
                v@,
            )),
            fixed_head(old(self).theory(), f@) && args(f@).len() < u32::MAX && fuel > 1 && (
            old(self).vals.done(a) ==> fuel > canon_fuel(a@) + 1) ==> r is Ok,
            f@ matches Tm::Lam(_, _, _, b) ==> (fuel > 6 && simple(inst1(*b, a@)) ==> r is Ok),
            ends(old(self).theory(), Task::Apply(f@, a@), fuel as nat) ==> r is Ok,
            old(self).theory().nat_ext && nats_declared(old(self).theory()) ==> (f@ matches Tm::Const(
                n,
                _,
            ) && is_named(old(self).theory().names.nat_succ, n) ==> (number(
                old(self).theory(),
                a@,
            ) matches Some(k) ==> (r matches Ok(v) ==> v@ == Tm::NatLit(k + 1)))),
            neutral(f@) && !computes(old(self).theory(), f@) ==> (r matches Ok(v) ==> one_more(
                old(self).theory(),
                f@,
                a@,
                v@,
            )),
        decreases fuel,
    {
        let ghost th = self.theory();
        proof {
            ends_sound(th, Task::Apply(f@, a@), fuel as nat);
            self.vals.done_evaluated(self.ctx, th, f);
            ends_next(th, Task::Apply(f@, a@), Task::Push(f@, a@), fuel as nat);
            if let Tm::Lam(_, _, _, b) = f@ {
                ends_next(th, Task::Apply(f@, a@), Task::Closure(inst1(*b, a@)), fuel as nat);
            }
            if f@ is Lam {
                assert(!neutral(f@));
            }
        }
        let content = self.read_val(f);
        proof {
            if let Tm::Const(n, _) = f@ {
                if nats_declared(th) && is_named(th.names.nat_succ, n) {
                    crate::numbers::number_ctors(th, n);
                    crate::stable::head_kind(th, content, f@);
                    if let Value::Rigid { head, spine } = content {
                        root_els(head.tm(), spine@);
                    }
                }
            }
        }
        match content {
            Value::Lam { binder_type, env, body, .. } => {
                if fuel == 0 {
                    return Err(Stop::OutOfFuel);
                }
                let v = self.apply_closure(env, body, a, fuel - 1)?;
                proof {
                    red_beta(th, f@, a@);
                    red_trans(
                        th,
                        Tm::App(Box::new(f@), Box::new(a@)),
                        inst1(subst(body@, env@, 1), a@),
                        v@,
                    );
                }
                Ok(v)
            },
            Value::Rigid { head, spine } => {
                proof {
                    self.rigid_is_neutral(f, head, spine);
                    if fixed_head(th, f@) {
                        fixed_spine(th, head.tm(), spine@);
                    }
                }
                if fuel == 0 {
                    return Err(Stop::OutOfFuel);
                }
                self.apply_rigid(head, spine, a, fuel - 1)
            },
            Value::Unfold { name, levels, spine, head_value, .. } => {
                proof {
                    crate::value::spine_neutral(Tm::Const(name@, levels@), spine@);
                    if fixed_head(th, f@) {
                        fixed_spine(th, Tm::Const(name@, levels@), spine@);
                    }
                }
                if fuel == 0 {
                    return Err(Stop::OutOfFuel);
                }
                self.apply_unfold(name, levels, spine, head_value, a, fuel - 1)
            },
            _ => Err(Stop::IllTyped),
        }
    }

    fn apply_rigid(&mut self, head: RigidHead, spine: S, a: V, fuel: u64) -> (r: Result<V, Stop>)
        requires
            old(self).wf(),
            old(self).vals.head_fits(old(self).ctx, head),
            crate::value::head_known(old(self).theory(), head),
            old(self).vals.has_spine(spine),
            old(self).vals.has_val(a),
        ensures
            final(self).wf(),
            old(self).evolves(*final(self)),
            r matches Ok(v) ==> final(self).vals.done(v) && red(
                old(self).theory(),
                Tm::App(Box::new(spine_tm(head.tm(), spine@)), Box::new(a@)),
                v@,
            ),
            fixed_head(old(self).theory(), head.tm()) && spine@.len() < u32::MAX && fuel > 0 && (
            old(self).vals.done(a) ==> fuel > canon_fuel(a@)) ==> r is Ok,
            ends(old(self).theory(), Task::Push(spine_tm(head.tm(), spine@), a@), fuel as nat) ==> r is Ok,
            !computes(old(self).theory(), spine_tm(head.tm(), spine@)) ==> (r matches Ok(v) ==> one_more(
                old(self).theory(),
                spine_tm(head.tm(), spine@),
                a@,
                v@,
            )),
            old(self).theory().nat_ext && nats_declared(old(self).theory()) && spine@.len() == 0 ==> (
            head matches RigidHead::Ctor(n, _) && is_named(old(self).theory().names.nat_succ, n@)
                ==> (number(old(self).theory(), a@) matches Some(k) ==> (r matches Ok(v) ==> v@
                == Tm::NatLit(k + 1)))),
        decreases fuel,
    {
        if fuel == 0 {
            return Err(Stop::OutOfFuel);
        }
        let ghost th = self.theory();
        let ghost t = Tm::App(Box::new(spine_tm(head.tm(), spine@)), Box::new(a@));
        proof {
            spine_push(head.tm(), spine@, El::App(a@));
            self.ctx.known_names();
            root_els(head.tm(), spine@);
            if spine@.len() == 0 {
                assert(spine@ =~= Seq::<El>::empty());
                assert(spine@.push(El::App(a@)) =~= seq![El::App(a@)]);
            }
            spine_links(head.tm(), spine@);
            crate::value::spine_neutral(head.tm(), spine@);
            ends_next(th, Task::Push(spine_tm(head.tm(), spine@), a@), Task::FireSucc(t), fuel as nat);
            ends_next(th, Task::Push(spine_tm(head.tm(), spine@), a@), Task::Canon(a@), fuel as nat);
            ends_canon(th, a@, (fuel - 1) as nat);
        }
        if self.ctx.nat_extension {
            if let RigidHead::Ctor(name, _) = head {
                if self.ctx.is_known(name, self.ctx.name_cache.nat_succ) {
                    let new_spine = self.spine_snoc_hc(spine, Elim::App(a))?;
                    return self.try_fire_rigid(head, new_spine, fuel - 1);
                }
            }
        }
        let c = self.canonicalize_for_spine(a, fuel - 1)?;
        let new_spine = self.spine_snoc_hc(spine, Elim::App(c))?;
        proof {
            red_refl(th, spine_tm(head.tm(), spine@));
            red_app(th, spine_tm(head.tm(), spine@), spine_tm(head.tm(), spine@), a@, c@);
            spine_push(head.tm(), spine@, El::App(c@));
        }
        Ok(self.mk_rigid_hc(head, new_spine))
    }

    fn apply_unfold(
        &mut self,
        name: NamePtr,
        levels: LevelsPtr,
        spine: S,
        head_value: usize,
        a: V,
        fuel: u64,
    ) -> (r: Result<V, Stop>)
        requires
            old(self).wf(),
            old(self).ctx.has_name(name),
            old(self).ctx.has_levels(levels),
            old(self).vals.has_spine(spine),
            old(self).vals.has_cell(head_value, Tm::Const(name@, levels@)),
            crate::value::valued(old(self).theory(), name@),
            old(self).vals.has_val(a),
        ensures
            final(self).wf(),
            old(self).evolves(*final(self)),
            r matches Ok(v) ==> final(self).vals.done(v) && red(
                old(self).theory(),
                Tm::App(
                    Box::new(spine_tm(Tm::Const(name@, levels@), spine@)),
                    Box::new(a@),
                ),
                v@,
            ),
            ends(old(self).theory(), Task::Push(spine_tm(Tm::Const(name@, levels@), spine@), a@), fuel as nat) ==> r is Ok,
            !computes(old(self).theory(), spine_tm(Tm::Const(name@, levels@), spine@)) ==> (r matches Ok(v)
                ==> one_more(
                old(self).theory(),
                spine_tm(Tm::Const(name@, levels@), spine@),
                a@,
                v@,
            )),
        decreases fuel,
    {
        if fuel == 0 {
            return Err(Stop::OutOfFuel);
        }
        let ghost th = self.theory();
        let ghost h = Tm::Const(name@, levels@);
        let ghost t = Tm::App(Box::new(spine_tm(h, spine@)), Box::new(a@));
        proof {
            spine_push(h, spine@, El::App(a@));
            red_refl(th, t);
            spine_links(h, spine@);
            crate::value::spine_neutral(h, spine@);
            root_els(h, spine@);
            ends_next(th, Task::Push(spine_tm(h, spine@), a@), Task::Spine(spine@.push(El::App(a@))), fuel as nat);
            ends_next(th, Task::Push(spine_tm(h, spine@), a@), Task::Canon(a@), fuel as nat);
            ends_canon(th, a@, (fuel - 1) as nat);
        }
        if self.ctx.nat_extension && self.is_nat_red_name(name) {
            let new_spine = self.spine_snoc_hc(spine, Elim::App(a))?;
            if let Some(xs) = self.spine_apps(new_spine, fuel - 1)? {
                proof {
                    args_of_spine(h, new_spine@);
                    ends_next(th, Task::Push(spine_tm(h, spine@), a@), Task::NatRed(name@, vtms(xs@), false), fuel as nat);
                }
                if let Some(v) = self.do_nat_red_shallow(name, &xs, fuel - 1)? {
                    proof {
                        crate::value::red_spine_apps(th, h, new_spine@, vtms(xs@));
                        red_trans(th, t, apps(h, vtms(xs@)), v@);
                    }
                    return Ok(v);
                }
            }
            return Ok(self.mk_unfold_hc(name, levels, new_spine, head_value));
        }
        let c = self.canonicalize_for_spine(a, fuel - 1)?;
        let new_spine = self.spine_snoc_hc(spine, Elim::App(c))?;
        proof {
            red_refl(th, spine_tm(h, spine@));
            red_app(th, spine_tm(h, spine@), spine_tm(h, spine@), a@, c@);
            spine_push(h, spine@, El::App(c@));
        }
        Ok(self.mk_unfold_hc(name, levels, new_spine, head_value))
    }

    /// Applies a value.
    pub fn apply_v(&mut self, f: V, a: V, fuel: u64) -> (r: Result<V, Stop>)
        requires
            old(self).wf(),
            old(self).vals.done(f),
            old(self).vals.has_val(a),
        ensures
            final(self).wf(),
            old(self).evolves(*final(self)),
            r matches Ok(v) ==> final(self).vals.done(v) && red(
                old(self).theory(),
                Tm::App(Box::new(f@), Box::new(a@)),
                v@,
            ),
            fuel > 0 && !(f@ is Lam) && !neutral(f@) ==> r == Err::<V, Stop>(Stop::IllTyped),
            fixed_head(old(self).theory(), f@) && args(f@).len() < u32::MAX && fuel > 2 && (
            old(self).vals.done(a) ==> fuel > canon_fuel(a@) + 2) ==> r is Ok,
            f@ matches Tm::Lam(_, _, _, b) ==> (fuel > 7 && simple(inst1(*b, a@)) ==> r is Ok),
            ends(old(self).theory(), Task::ApplyV(f@, a@), fuel as nat) ==> r is Ok,
            old(self).theory().nat_ext && nats_declared(old(self).theory()) ==> (f@ matches Tm::Const(
                n,
                _,
            ) && is_named(old(self).theory().names.nat_succ, n) ==> (number(
                old(self).theory(),
                a@,
            ) matches Some(k) ==> (r matches Ok(v) ==> v@ == Tm::NatLit(k + 1)))),
            neutral(f@) && !computes(old(self).theory(), f@) ==> (r matches Ok(v) ==> one_more(
                old(self).theory(),
                f@,
                a@,
                v@,
            )),
        decreases fuel,
    {
        if fuel == 0 {
            return Err(Stop::OutOfFuel);
        }
        let ghost th = self.theory();
        proof {
            ends_next(th, Task::ApplyV(f@, a@), Task::Apply(f@, a@), fuel as nat);
        }
        self.apply(f, a, fuel - 1)
    }

    /// Applies a value to the arguments from one position up to another.
    pub fn apply_all(&mut self, f: V, xs: &Vec<V>, from: usize, to: usize, fuel: u64) -> (r: Result<
        V,
        Stop,
    >)
        requires
            old(self).wf(),
            old(self).vals.done(f),
            old(self).vals.has_vals(xs@),
            from <= to <= xs@.len(),
        ensures
            final(self).wf(),
            old(self).evolves(*final(self)),
            r matches Ok(v) ==> final(self).vals.done(v) && red(
                old(self).theory(),
                apps(f@, vtms(xs@).subrange(from as int, to as int)),
                v@,
            ),
            fuel > 0 && from == to ==> r == Ok::<V, Stop>(f),
            fuel > 5 && fixed_head(old(self).theory(), f@) && args(f@).len() + (to - from)
                <= u32::MAX && canon_each(xs@, from as int, to as int, fuel - 3) ==> r is Ok,
            ends(old(self).theory(), Task::ApplyAll(f@, vtms(xs@).subrange(from as int, to as int)), fuel as nat) ==> r is Ok,
        decreases fuel,
    {
        if fuel == 0 {
            return Err(Stop::OutOfFuel);
        }
        let ghost th = self.theory();
        let ghost zs = vtms(xs@);
        proof {
            ends_sound(th, Task::ApplyAll(f@, zs.subrange(from as int, to as int)), fuel as nat);
        }
        let mut cur = f;
        let mut i: usize = from;
        proof {
            red_refl(th, f@);
            assert(zs.subrange(from as int, from as int) =~= Seq::<Tm>::empty());
        }
        let ghost sure = fuel > 5 && fixed_head(th, f@) && args(f@).len() + (to - from) <= u32::MAX
            && canon_each(xs@, from as int, to as int, fuel - 3);
        while i < to
            invariant
                sure <==> (fuel > 5 && fixed_head(th, f@) && args(f@).len() + (to - from) <= u32::MAX
                    && canon_each(xs@, from as int, to as int, fuel - 3)),
                sure ==> fixed_head(th, cur@) && args(cur@).len() == args(f@).len() + (i - from),
                fuel > 0,
                from <= i <= to <= xs@.len(),
                zs == vtms(xs@),
                self.wf(),
                old(self).evolves(*self),
                self.theory() == th,
                th == old(self).theory(),
                self.vals.done(cur),
                self.vals.has_vals(xs@),
                i == from ==> cur == f,
                red(th, apps(f@, zs.subrange(from as int, i as int)), cur@),
            decreases to - i,
        {
            proof {
                let ys = zs.subrange(from as int, to as int);
                assert(ys.take(i - from) =~= zs.subrange(from as int, i as int));
                assert(ys[i - from] == xs@[i as int]@);
                ends_next(th, Task::ApplyAll(f@, ys), Task::Apply(cur@, xs@[i as int]@), fuel as nat);
            }
            let next = self.apply(cur, xs[i], fuel - 1)?;
            proof {
                let done = zs.subrange(from as int, i as int);
                let more = zs.subrange(from as int, i + 1);
                assert(more =~= done.push(xs@[i as int]@));
                apps_push(f@, done, xs@[i as int]@);
                red_refl(th, xs@[i as int]@);
                red_app(th, apps(f@, done), cur@, xs@[i as int]@, xs@[i as int]@);
                red_trans(
                    th,
                    apps(f@, more),
                    Tm::App(Box::new(cur@), Box::new(xs@[i as int]@)),
                    next@,
                );
            }
            proof {
                if sure {
                    let a = Tm::App(Box::new(cur@), Box::new(xs@[i as int]@));
                    assert(args(a).len() == args(cur@).len() + 1);
                    fixed_stays(th, a, next@);
                    same_head_args(th, a, next@);
                }
            }
            cur = next;
            i = i + 1;
        }
        Ok(cur)
    }

    /// Evaluates the body of a binder for a value.
    pub fn apply_closure(&mut self, env: E, body: ExprPtr, v: V, fuel: u64) -> (r: Result<V, Stop>)
        requires
            old(self).wf(),
            old(self).vals.has_env(env),
            old(self).ctx.has_expr(body),
            loose(body@) <= env@.len() + 1,
            old(self).vals.has_val(v),
        ensures
            final(self).wf(),
            old(self).evolves(*final(self)),
            r matches Ok(w) ==> final(self).vals.done(w) && red(
                old(self).theory(),
                inst1(subst(body@, env@, 1), v@),
                w@,
            ),
            evaluates(old(self).theory(), body@, fuel - 1) ==> r is Ok,
            fuel > 5 && simple(inst1(subst(body@, env@, 1), v@)) ==> r is Ok,
            ends(old(self).theory(), Task::Closure(inst1(subst(body@, env@, 1), v@)), fuel as nat) ==> r is Ok,
        decreases fuel,
    {
        if fuel == 0 {
            return Err(Stop::OutOfFuel);
        }
        proof {
            self.vals.env_closed(self.ctx, self.theory(), env);
            subst_push(body@, env@, v@, 0);
            let th = self.theory();
            let t = inst1(subst(body@, env@, 1), v@);
            ends_next(th, Task::Closure(t), Task::Eval(true, t), fuel as nat);
        }
        let inner = self.env_extend_hc(env, v);
        self.eval(inner, body, fuel - 1)
    }

    /// Evaluates the body of a binder for a value.
    pub fn apply_closure_v(&mut self, env: E, body: ExprPtr, v: V, fuel: u64) -> (r: Result<V, Stop>)
        requires
            old(self).wf(),
            old(self).vals.has_env(env),
            old(self).ctx.has_expr(body),
            loose(body@) <= env@.len() + 1,
            old(self).vals.has_val(v),
        ensures
            final(self).wf(),
            old(self).evolves(*final(self)),
            r matches Ok(w) ==> final(self).vals.done(w) && red(
                old(self).theory(),
                inst1(subst(body@, env@, 1), v@),
                w@,
            ),
            evaluates(old(self).theory(), body@, fuel - 2) ==> r is Ok,
            fuel > 6 && simple(inst1(subst(body@, env@, 1), v@)) ==> r is Ok,
            ends(old(self).theory(), Task::ClosureV(inst1(subst(body@, env@, 1), v@)), fuel as nat) ==> r is Ok,
        decreases fuel,
    {
        if fuel == 0 {
            return Err(Stop::OutOfFuel);
        }
        let ghost th = self.theory();
        let ghost t = inst1(subst(body@, env@, 1), v@);
        proof {
            ends_next(th, Task::ClosureV(t), Task::Closure(t), fuel as nat);
        }
        self.apply_closure(env, body, v, fuel - 1)
    }

    /// A head that things are done to; the successor of a number is a number.
    fn try_fire_rigid(&mut self, head: RigidHead, spine: S, fuel: u64) -> (r: Result<V, Stop>)
        requires
            old(self).wf(),
            old(self).vals.head_fits(old(self).ctx, head),
            crate::value::head_known(old(self).theory(), head),
            old(self).vals.has_spine(spine),
        ensures
            final(self).wf(),
            old(self).evolves(*final(self)),
            r matches Ok(v) ==> final(self).vals.done(v) && red(
                old(self).theory(),
                spine_tm(head.tm(), spine@),
                v@,
            ),
            !(head is Ctor) || !old(self).theory().nat_ext ==> (r matches Ok(v) && v@ == spine_tm(
                head.tm(),
                spine@,
            )),
            ends(old(self).theory(), Task::FireSucc(spine_tm(head.tm(), spine@)), fuel as nat) ==> r is Ok,
            old(self).theory().nat_ext && nats_declared(old(self).theory()) ==> (head matches RigidHead::Ctor(
                n,
                _,
            ) && is_named(old(self).theory().names.nat_succ, n@) ==> forall|x: Tm|
                #![trigger number(old(self).theory(), x)]
                spine@ == seq![El::App(x)] ==> (number(old(self).theory(), x) matches Some(k) ==> (
                r matches Ok(v) ==> v@ == Tm::NatLit(k + 1)))),
        decreases fuel,
    {
        let ghost th = self.theory();
        let ghost t = spine_tm(head.tm(), spine@);
        proof {
            red_refl(th, t);
            self.ctx.known_names();
        }
        if self.ctx.nat_extension {
            if let RigidHead::Ctor(name, levels) = head {
                if self.ctx.is_known(name, self.ctx.name_cache.nat_succ) {
                    if let Some(a) = self.only_arg(spine) {
                        proof {
                            spine_push(head.tm(), Seq::empty(), El::App(a@));
                            assert(spine@ =~= Seq::<El>::empty().push(El::App(a@)));
                            ends_next(th, Task::FireSucc(t), Task::Num(a@, false), fuel as nat);
                        }
                        if fuel == 0 {
                            return Err(Stop::OutOfFuel);
                        }
                        if let Some(n) = self.value_to_bignum_at(a, false, fuel - 1)? {
                            let one = crate::bignum::BigNat::from_u64(1);
                            let ghost k = n@;
                            if let Some(p) = self.ctx.alloc_bignum(n.plus(&one)) {
                                let v = self.mk_natlit(p);
                                proof {
                                    crate::natval::red_succ(th, name@, levels@, a@, k);
                                    spine_push(head.tm(), Seq::empty(), El::App(a@));
                                    assert(spine@ =~= Seq::<El>::empty().push(El::App(a@)));
                                }
                                return Ok(v);
                            }
                        }
                    }
                }
            }
        }
        Ok(self.mk_rigid_hc(head, spine))
    }

    /// The argument of a spine in which nothing else is done.
    pub fn only_arg(&self, spine: S) -> (r: Option<V>)
        requires
            self.wf(),
            self.vals.has_spine(spine),
        ensures
            match r {
                Some(a) => self.vals.has_val(a) && spine@ == seq![El::App(a@)],
                None => !(spine@.len() == 1 && spine@[0] is App),
            },
    {
        match self.vals.read_spine(spine) {
            Spine::Snoc { prev, elim: Elim::App(a), .. } => match self.vals.read_spine(prev) {
                Spine::Empty => {
                    assert(spine@ =~= seq![El::App(a@)]);
                    Some(a)
                },
                Spine::Snoc { .. } => None,
            },
            _ => None,
        }
    }

    /// The arguments in a spine, evaluated. There are none where something else is done
    /// than applying.
    pub fn spine_apps(&mut self, spine: S, fuel: u64) -> (r: Result<Option<Vec<V>>, Stop>)
        requires
            old(self).wf(),
            old(self).vals.has_spine(spine),
        ensures
            final(self).wf(),
            old(self).evolves(*final(self)),
            r matches Ok(Some(xs)) ==> {
                &&& final(self).vals.all_done(xs@)
                &&& crate::value::all_apps(spine@)
                &&& crate::laws::red_all(
                    old(self).theory(),
                    crate::value::spine_args(spine@),
                    vtms(xs@),
                )
            },
            r matches Ok(None) ==> !crate::value::all_apps(spine@),
            fuel > 0 && spine@.len() == 0 ==> r is Ok,
            ends(old(self).theory(), Task::Spine(spine@), fuel as nat) ==> r is Ok,
        decreases fuel,
    {
        if fuel == 0 {
            return Err(Stop::OutOfFuel);
        }
        let ghost th = self.theory();
        proof {
            ends_sound(th, Task::Spine(spine@), fuel as nat);
        }
        let mut out: Vec<V> = Vec::new();
        let mut cur = spine;
        loop
            invariant
                fuel > 0,
                self.wf(),
                old(self).evolves(*self),
                self.theory() == th,
                th == old(self).theory(),
                self.vals.has_spine(cur),
                cur@.len() + out@.len() == spine@.len(),
                cur@ == spine@.take(cur@.len() as int),
                forall|i: int|
                    0 <= i < out@.len() ==> self.vals.done(#[trigger] out@[i]) && (spine@[
                    spine@.len() - 1 - i] matches El::App(a) && red(th, a, out@[i]@)),
            decreases cur@.len(),
        {
            match self.vals.read_spine(cur) {
                Spine::Empty => {
                    let xs = backwards(&out);
                    proof {
                        let es = spine@;
                        assert forall|i: int| 0 <= i < es.len() implies (#[trigger] es[i]) is App
                            && red(th, es[i]->App_0, xs@[i]@) && self.vals.done(xs@[i]) by {
                            assert(self.vals.done(out@[es.len() - 1 - i]));
                        }
                        assert forall|i: int| 0 <= i < xs@.len() implies self.vals.done(
                            #[trigger] xs@[i],
                        ) by {
                            assert(es[i] is App);
                        }
                        let zs = crate::value::spine_args(es);
                        assert forall|i: int| 0 <= i < zs.len() implies red(
                            th,
                            #[trigger] zs[i],
                            vtms(xs@)[i],
                        ) by {
                            assert(es[i] is App);
                        }
                    }
                    return Ok(Some(xs));
                },
                Spine::Snoc { prev, elim, .. } => {
                    assert(cur@.last() == elim.el());
                    assert(spine@[cur@.len() - 1] == elim.el());
                    match elim {
                        Elim::App(a) => {
                            proof {
                                ends_next(th, Task::Spine(spine@), Task::Thunk(a@), fuel as nat);
                            }
                            let v = self.force_thunk(a, fuel - 1)?;
                            assert(prev@ =~= spine@.take(prev@.len() as int));
                            let ghost before = out@;
                            out.push(v);
                            proof {
                                let n = spine@.len();
                                assert forall|i: int| 0 <= i < out@.len() implies self.vals.done(
                                    #[trigger] out@[i],
                                ) && (spine@[n - 1 - i] matches El::App(a) && red(
                                    th,
                                    a,
                                    out@[i]@,
                                )) by {
                                    if i < before.len() {
                                        assert(out@[i] == before[i]);
                                    }
                                }
                            }
                            cur = prev;
                        },
                        Elim::Proj { .. } => {
                            return Ok(None);
                        },
                    }
                },
            }
        }
    }
}

/// The list backwards.
pub fn backwards<T: Copy>(xs: &Vec<T>) -> (r: Vec<T>)
    ensures
        r@ == xs@.reverse(),
{
    let mut out: Vec<T> = Vec::new();
    let n: usize = xs.len();
    let mut i: usize = n;
    while i > 0
        invariant
            i <= n,
            n == xs@.len(),
            out@.len() == n - i,
            forall|j: int| 0 <= j < out@.len() ==> out@[j] == xs@[n - 1 - j],
        decreases i,
    {
        i = i - 1;
        out.push(xs[i]);
    }
    assert(out@ =~= xs@.reverse());
    out
}

} // verus!
