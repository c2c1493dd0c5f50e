//! Constants and constructors at the heads of terms.
use crate::checker::{fits_grows, Stop, TypeChecker};
use crate::env::RecRule;
use crate::expr::Expr;
use crate::judge::{ctor_fields, first_ctor, projections, rule_for, unfolds, Theory};
use crate::laws::{red, red_apps_head, red_beta, red_step};
use crate::ops::trees;
use crate::ptr::{ExprPtr, NamePtr};
use crate::tree::{
    all_closed, apps, apps_append, apps_push, args, head, head_of_apps, subst, subst_push, Lv, Nm,
    Tm,
};
use vstd::prelude::*;

verus! {

broadcast use {
    fits_grows,
    crate::value::vals_fit_grows,
    crate::vcache::vcache_grows_ctx,
};

/// A constant applied to arguments is unfolded.
proof fn red_delta(th: Theory, n: Nm, ls: Seq<Lv>, xs: Seq<Tm>)
    requires
        th.delta(n, ls) is Some,
    ensures
        red(th, apps(Tm::Const(n, ls), xs), apps(th.delta(n, ls)->0, xs)),
{
    red_step(th, Tm::Const(n, ls), th.delta(n, ls)->0);
    red_apps_head(th, Tm::Const(n, ls), th.delta(n, ls)->0, xs);
}

/// A constant applied to arguments has the constant at its head.
pub proof fn const_apps(n: Nm, ls: Seq<Lv>, xs: Seq<Tm>)
    ensures
        head(apps(Tm::Const(n, ls), xs)) == Tm::Const(n, ls),
        args(apps(Tm::Const(n, ls), xs)) == xs,
{
    head_of_apps(Tm::Const(n, ls), xs);
    assert(args(Tm::Const(n, ls)) + xs =~= xs);
}

/// A function meets one of several arguments.
pub proof fn red_beta_next(th: Theory, cur: Tm, env: Seq<Tm>, xs: Seq<Tm>)
    requires
        cur is Lam,
        all_closed(env),
        xs.len() > 0,
    ensures
        red(
            th,
            apps(subst(cur, env, 0), xs),
            apps(subst(*cur->Lam_3, env.push(xs[0]), 0), xs.drop_first()),
        ),
{
    let f = subst(cur, env, 0);
    let x = xs[0];
    let rest = xs.drop_first();
    red_beta(th, f, x);
    subst_push(*cur->Lam_3, env, x, 0);
    let g = subst(*cur->Lam_3, env.push(x), 0);
    red_apps_head(th, Tm::App(Box::new(f), Box::new(x)), g, rest);
    let one = seq![x];
    assert(one.drop_last() =~= Seq::<Tm>::empty());
    apps_push(f, Seq::empty(), x);
    assert(Seq::<Tm>::empty().push(x) =~= one);
    assert(apps(f, Seq::<Tm>::empty()) == f);
    apps_append(f, one, rest);
    assert(one + rest =~= xs);
}

impl<'t> TypeChecker<'t> {
    /// The rule of a recursor for the constructor that a term is.
    pub fn get_rec_rule(&self, rec_rules: &Vec<RecRule>, major_const: ExprPtr) -> (r: Option<RecRule>)
        requires
            self.wf(),
            self.ctx.has_expr(major_const),
            forall|i: int|
                0 <= i < rec_rules@.len() ==> self.ctx.has_name(
                    (#[trigger] rec_rules@[i]).ctor_name,
                ),
        ensures
            match r {
                Some(rule) => major_const@ matches Tm::Const(c, _) && exists|i: int| #[trigger]
                    rule_for(rec_rules@, c, i) && rec_rules@[i] == rule,
                None => major_const@ matches Tm::Const(c, _) ==> forall|i: int|
                    0 <= i < rec_rules@.len() ==> (#[trigger] rec_rules@[i]).ctor_name@ != c,
            },
    {
        match self.ctx.read_expr(major_const) {
            Expr::Const { name, .. } => {
                let mut i: usize = 0;
                while i < rec_rules.len()
                    invariant
                        i <= rec_rules@.len(),
                        self.wf(),
                        self.ctx.has_name(name),
                        major_const@ matches Tm::Const(c, _) && c == name@,
                        forall|j: int|
                            0 <= j < rec_rules@.len() ==> self.ctx.has_name(
                                (#[trigger] rec_rules@[j]).ctor_name,
                            ),
                        forall|j: int|
                            0 <= j < i ==> (#[trigger] rec_rules@[j]).ctor_name@ != name@,
                    decreases rec_rules@.len() - i,
                {
                    if self.ctx.eq_name(rec_rules[i].ctor_name, name) {
                        assert(rule_for(rec_rules@, name@, i as int));
                        return Some(rec_rules[i]);
                    }
                    i = i + 1;
                }
                None
            },
            _ => None,
        }
    }

    /// The name of the constructor at the head of a term.
    pub fn is_ctor_app(&self, e: ExprPtr) -> (r: Option<NamePtr>)
        requires
            self.wf(),
            self.ctx.has_expr(e),
        ensures
            match r {
                Some(n) => self.ctx.has_name(n) && (head(e@) matches Tm::Const(c, _) && c == n@)
                    && self.theory().ctor_params(n@) is Some,
                None => head(e@) matches Tm::Const(c, _) ==> self.theory().ctor_params(c) is None,
            },
    {
        let f = self.ctx.unfold_apps_fun(e);
        match self.ctx.read_expr(f) {
            Expr::Const { name, .. } => match self.get_constructor(name) {
                Some(_) => Some(name),
                None => None,
            },
            _ => None,
        }
    }

    /// The term with the constant at its head unfolded, where it can be.
    pub fn unfold_def(&mut self, e: ExprPtr) -> (r: Option<ExprPtr>)
        requires
            old(self).wf(),
            old(self).ctx.has_expr(e),
        ensures
            final(self).wf(),
            old(self).evolves(*final(self)),
            r is Some <==> unfolds(old(self).theory(), e@),
            r matches Some(p) ==> {
                &&& final(self).ctx.has_expr(p)
                &&& red(old(self).theory(), e@, p@)
                &&& p@ == apps(
                    old(self).theory().delta(head(e@)->Const_0, head(e@)->Const_1)->0,
                    args(e@),
                )
            },
    {
        let ghost th = self.theory();
        let (fun, xs) = self.ctx.unfold_apps(e);
        let (name, levels) = match self.ctx.try_const_info(fun) {
            Some(p) => p,
            None => {
                return None;
            },
        };
        let (def_uparams, def_value) = match self.get_declar_val(name) {
            Some(p) => p,
            None => {
                return None;
            },
        };
        let given: usize = self.ctx.read_levels(levels).len();
        let wanted: usize = self.ctx.read_levels(def_uparams).len();
        assert(given == levels@.len() && wanted == def_uparams@.len());
        if given == wanted {
            let def_val = self.ctx.subst_expr_levels(def_value, def_uparams, levels);
            let n: usize = xs.len();
            let r = self.ctx.foldl_apps(def_val, &xs, 0, n);
            proof {
                assert(trees(xs@).subrange(0, n as int) =~= args(e@));
                red_delta(th, name@, levels@, trees(xs@));
            }
            Some(r)
        } else {
            None
        }
    }

    /// The structure, made of its projections: `e` of the type `e_type` as the constructor
    /// of the type applied to the projections from `e`.
    pub fn expand_eta_struct_aux(&mut self, e_type: ExprPtr, e: ExprPtr) -> (r: Result<
        Option<ExprPtr>,
        Stop,
    >)
        requires
            old(self).wf(),
            old(self).ctx.has_expr(e_type),
            old(self).ctx.has_expr(e),
        ensures
            final(self).wf(),
            old(self).evolves(*final(self)),
            r matches Ok(Some(p)) ==> final(self).ctx.has_expr(p) && {
                let th = old(self).theory();
                &&& head(e_type@) matches Tm::Const(ind, ls) && first_ctor(th, ind) matches Some(c)
                    && ctor_fields(th, c) matches Some(k) && th.ctor_params(c) matches Some(m) && m
                    <= args(e_type@).len() && p@ == apps(
                    apps(Tm::Const(c, ls), args(e_type@).take(m as int)),
                    projections(ind, e@, k),
                )
            },
            r matches Ok(None) <==> (head(e_type@) matches Tm::Const(ind, _) ==> first_ctor(
                old(self).theory(),
                ind,
            ) is None),
            r matches Ok(Some(_)) <==> (head(e_type@) matches Tm::Const(ind, _) && first_ctor(
                old(self).theory(),
                ind,
            ) matches Some(c) && old(self).theory().ctor_params(c) matches Some(m) && m <= args(
                e_type@,
            ).len()),
            r matches Err(s) ==> s == Stop::IllTyped,
    {
        let ghost th = self.theory();
        let (_f, c_name, c_levels, xs) = match self.ctx.unfold_const_apps(e_type) {
            Some(p) => p,
            None => {
                return Ok(None);
            },
        };
        let ind = match self.get_inductive(c_name) {
            Some(d) => d,
            None => {
                return Ok(None);
            },
        };
        if ind.all_ctor_names.len() == 0 {
            return Ok(None);
        }
        let ctor_name0 = ind.all_ctor_names[0];
        assert(self.ctx.has_name(ctor_name0));
        let ctor = match self.get_constructor(ctor_name0) {
            Some(c) => c,
            None => {
                return Err(Stop::IllTyped);
            },
        };
        let num_params: usize = ctor.num_params as usize;
        let num_fields: usize = ctor.num_fields as usize;
        if num_params > xs.len() {
            return Err(Stop::IllTyped);
        }
        let f = self.ctx.mk_const(ctor_name0, c_levels);
        let mut out = self.ctx.foldl_apps(f, &xs, 0, num_params);
        let ghost base = apps(
            Tm::Const(ctor_name0@, c_levels@),
            args(e_type@).take(num_params as int),
        );
        proof {
            assert(trees(xs@).subrange(0, num_params as int) =~= args(e_type@).take(
                num_params as int,
            ));
            assert(projections(c_name@, e@, 0) =~= Seq::<Tm>::empty());
        }
        let mut i: usize = 0;
        while i < num_fields
            invariant
                i <= num_fields,
                self.wf(),
                old(self).evolves(*self),
                self.ctx.has_expr(out),
                self.ctx.has_expr(e),
                self.ctx.has_name(c_name),
                out@ == apps(base, projections(c_name@, e@, i as nat)),
            decreases num_fields - i,
        {
            let proj = self.ctx.mk_proj(c_name, i, e);
            out = self.ctx.mk_app(out, proj);
            proof {
                let done = projections(c_name@, e@, i as nat);
                apps_push(base, done, proj@);
                assert(projections(c_name@, e@, (i + 1) as nat) =~= done.push(proj@));
            }
            i = i + 1;
        }
        Ok(Some(out))
    }

    /// The first constructor of a type, applied to the first arguments of the type.
    pub fn mk_nullary_ctor(&mut self, e: ExprPtr, num_params: usize) -> (r: Option<ExprPtr>)
        requires
            old(self).wf(),
            old(self).ctx.has_expr(e),
        ensures
            final(self).wf(),
            old(self).evolves(*final(self)),
            match r {
                Some(p) => final(self).ctx.has_expr(p) && (head(e@) matches Tm::Const(ind, ls)
                    && first_ctor(old(self).theory(), ind) matches Some(c) && p@ == apps(
                    Tm::Const(c, ls),
                    args(e@).take(
                        if num_params <= args(e@).len() {
                            num_params as int
                        } else {
                            args(e@).len() as int
                        },
                    ),
                )),
                None => head(e@) matches Tm::Const(ind, _) ==> first_ctor(
                    old(self).theory(),
                    ind,
                ) is None,
            },
    {
        let (_fun, name, levels, xs) = match self.ctx.unfold_const_apps(e) {
            Some(p) => p,
            None => {
                return None;
            },
        };
        let ind = match self.get_inductive(name) {
            Some(d) => d,
            None => {
                return None;
            },
        };
        if ind.all_ctor_names.len() == 0 {
            return None;
        }
        let ctor_name = ind.all_ctor_names[0];
        assert(self.ctx.has_name(ctor_name));
        let new_const = self.ctx.mk_const(ctor_name, levels);
        let n: usize = if num_params <= xs.len() {
            num_params
        } else {
            xs.len()
        };
        assert(trees(xs@).subrange(0, n as int) =~= args(e@).take(n as int));
        Some(self.ctx.foldl_apps(new_const, &xs, 0, n))
    }
}

} // verus!
