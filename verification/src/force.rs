//! Reduction of values.
use crate::checker::{fits_grows, Stop, TypeChecker};
use crate::env::{Declar, RecRule, RecursorData};
use crate::judge::{
    ctor_app, iota_result, is_named, lit_step, major_induct, nat_ctor, nat_rec_step, quot_pos, quot_step, replaces_major,
    root_step, rule_for, str_ctor, unfolds, Theory,
};
use crate::laws::{
    red, red_all, red_app, red_apps, red_apps_at, red_apps_head, red_proj, red_refl, red_step,
    red_trans,
};
use crate::ptr::{BigUintPtr, LevelsPtr, NamePtr, StringPtr};
use crate::stable::{
    barren, by_rules, ctor_headed, fixed_head, fixed_spine, fixed_stays, head_kind, links, met,
    met_stays, ready, rec_headed, same_head_args, spine_head, spine_links, still, quot_kind,
};
use crate::tc::const_apps;
use crate::tree::{apps, apps_push, args, head, tm_lsubst, Lv, Nm, Tm};
use crate::value::{
    all_apps, done_valid, elim_tm, elims, neutral, red_spine_apps, red_spine_head, spine_args,
    spine_front, spine_of_apps, spine_push, spine_tm, vals_fit_grows, vtms, El, Elim, RigidHead,
    Spine, Value, S, V,
};
use crate::vcache::{vcache_grows_ctx, vcache_grows_vals};
use crate::whnf::{red_iota, replaces_red, replaces_same};
use crate::numbers::{nats_declared, number, number_stays};
use crate::rest::{
    class_member, deferral_rests, expands, k_made, plain_rests, projected, projected_from, quot_headed, quotient_rests, recursor_rests, resting,
    rests_plainly, unexpanded, unfired, unread_trans, unreadable,
};
use crate::work::{
    args_of_spine, deferred, ends, ends_more, ends_next, ends_sound, field_pos, fires, fires_at, fires_between, fires_by, kept_whole, kicks, member_of, nat_case, nat_rec_fits, poses_rule, root_els, settled, structural_name, taken_for, waits_for, Task,
};
use vstd::prelude::*;

verus! {

broadcast use {fits_grows, vals_fit_grows, vcache_grows_ctx, vcache_grows_vals, done_valid, crate::work::ends_some};


/// What is waited for may be reduced.
pub proof fn waits_trans(th: Theory, w: Tm, m: Tm, c: Tm)
    requires
        waits_for(th, w, m),
        red(th, m, c),
    ensures
        waits_for(th, w, c),
{
    match head(w) {
        Tm::Const(n, _) => match th.recursor(n) {
            Some(r) => {
                red_trans(th, args(w)[r.major_pos() as int], m, c);
            },
            None => {
                red_trans(th, args(w)[quot_pos(th.names, n)->0 as int], m, c);
            },
        },
        _ => {},
    }
}

/// Reducing all arguments but for one, which reduces to something of its own.
proof fn red_args_but(th: Theory, f: Tm, xs: Seq<Tm>, ys: Seq<Tm>, p: int, m: Tm)
    requires
        red_all(th, xs, ys),
        0 <= p < xs.len(),
        red(th, xs[p], m),
    ensures
        red(th, apps(f, xs), apps(f, ys.update(p, m))),
{
    let zs = ys.update(p, m);
    assert forall|i: int| 0 <= i < xs.len() implies red(th, #[trigger] xs[i], zs[i]) by {
        if i != p {
            assert(red(th, xs[i], ys[i]));
        }
    }
    red_refl(th, f);
    red_apps(th, f, f, xs, zs);
}

/// One more step when a recursor is fired.
pub enum ForceStep {
    /// The value reduces to this one.
    Reduced(V),
    /// The value waits for this one to be reduced.
    Descend(V),
    /// The value does not reduce.
    Done,
}



/// Each of the values is settled.
pub open spec fn all_settled(th: Theory, vs: Seq<V>) -> bool {
    forall|i: int| 0 <= i < vs.len() ==> settled(th, (#[trigger] vs[i])@)
}

/// No definition is at the head of a value with a rigid head.
proof fn rigid_settled(th: Theory, h: RigidHead, es: Seq<El>)
    requires
        crate::value::head_known(th, h),
        h matches RigidHead::Local(e) ==> e@ is Local,
    ensures
        settled(th, spine_tm(h.tm(), es)),
        kept_whole(th, spine_tm(h.tm(), es)),
{
    if head(spine_tm(h.tm(), es)) is Const {
        spine_head(h.tm(), es);
    }
}

/// An operation on numbers is put off.
proof fn unfold_settled(th: Theory, n: Nm, ls: Seq<Lv>, es: Seq<El>, xs: Seq<Tm>)
    requires
        th.nat_ext,
        structural_name(th, n),
        all_apps(es),
        red_all(th, spine_args(es), xs),
        xs.len() == 2,
        exists|k: nat| #[trigger] red(th, xs[1], Tm::NatLit(k)) && k > 255,
        nats_declared(th) ==> !(number(th, xs[0]) is Some && number(th, xs[1]) is Some),
        nats_declared(th) ==> unreadable(th, xs[0]) || unreadable(th, xs[1]),
        crate::value::valued(th, n),
    ensures
        settled(th, spine_tm(Tm::Const(n, ls), es)),
        resting(th, spine_tm(Tm::Const(n, ls), es)),
{
    let t = spine_tm(Tm::Const(n, ls), es);
    args_of_spine(Tm::Const(n, ls), es);
    let k = choose|k: nat| #[trigger] red(th, xs[1], Tm::NatLit(k)) && k > 255;
    assert(red(th, spine_args(es)[0], xs[0]) && red(th, spine_args(es)[1], xs[1]));
    red_trans(th, args(t)[1], xs[1], Tm::NatLit(k));
    if nats_declared(th) {
        if number(th, args(t)[0]) is Some {
            number_stays(th, args(t)[0], xs[0]);
        }
        if number(th, args(t)[1]) is Some {
            number_stays(th, args(t)[1], xs[1]);
        }
    }
    assert(deferred(th, t));
    if nats_declared(th) {
        if unreadable(th, xs[0]) {
            unread_trans(th, args(t)[0], xs[0]);
        } else {
            unread_trans(th, args(t)[1], xs[1]);
        }
    }
    if unfolds(th, t) {
        deferral_rests(th, t);
    } else {
        rests_plainly(th, t);
    }
}

/// A definition that is not unfolded, or that unfolds to itself, rests.
proof fn unfold_plain(th: Theory, n: Nm, ls: Seq<Lv>, es: Seq<El>)
    requires
        crate::value::valued(th, n),
        kept_whole(th, spine_tm(Tm::Const(n, ls), es)),
    ensures
        resting(th, spine_tm(Tm::Const(n, ls), es)),
{
    let t = spine_tm(Tm::Const(n, ls), es);
    if head(t) is Const {
        spine_head(Tm::Const(n, ls), es);
    }
    rests_plainly(th, t);
}

/// A value with an eliminator without a major premise rests.
proof fn idle_rests(th: Theory, v: Value, t: Tm)
    requires
        v.tree() == t,
        v is Rigid,
        crate::value::value_known(th, v),
        v matches Value::Rigid { head, .. } ==> (head matches RigidHead::Local(e) ==> e@ is Local),
        idle(th, v),
    ensures
        resting(th, t),
{
    if let Value::Rigid { head, spine } = v {
        rigid_settled(th, head, spine@);
    }
    if rec_headed(th, t) {
        head_kind(th, v, t);
    }
    if quot_headed(th, t) {
        quot_kind(th, v, t);
    }
    rests_plainly(th, t);
}

/// A value with something else than applications done to its head rests.
proof fn idle_rests_proj(th: Theory, v: Value, t: Tm)
    requires
        v.tree() == t,
        crate::value::value_known(th, v),
        v matches Value::Rigid { head, spine } && (head matches RigidHead::Local(e) ==> e@ is Local)
            && !all_apps(spine@),
    ensures
        resting(th, t),
{
    if let Value::Rigid { head, spine } = v {
        rigid_settled(th, head, spine@);
    }
    if rec_headed(th, t) {
        head_kind(th, v, t);
    }
    if quot_headed(th, t) {
        quot_kind(th, v, t);
    }
    rests_plainly(th, t);
}

/// What a projection comes to may be found from what the structure reduces to.
proof fn projected_trans(th: Theory, n: Nm, i: nat, v: Tm, c: Tm, w: Tm)
    requires
        red(th, v, c),
        projected(th, n, i, c, w),
    ensures
        projected(th, n, i, v, w),
{
    let u = choose|u: Tm| #[trigger] red(th, c, u) && resting(th, u) && projected_from(th, n, i, u, w);
    red_trans(th, v, c, u);
}

/// There is nothing to unfold at the head.
proof fn unfold_whole(th: Theory, n: Nm, ls: Seq<Lv>, es: Seq<El>)
    requires
        th.delta(n, ls) is None,
    ensures
        settled(th, spine_tm(Tm::Const(n, ls), es)),
        kept_whole(th, spine_tm(Tm::Const(n, ls), es)),
{
    if head(spine_tm(Tm::Const(n, ls), es)) is Const {
        spine_head(Tm::Const(n, ls), es);
    }
}

/// An operation on numbers is computed.
proof fn nat_unfolds(th: Theory, n: Nm, ls: Seq<Lv>, es: Seq<El>, xs: Seq<Tm>, w: Tm)
    requires
        crate::value::valued(th, n),
        all_apps(es),
        red_all(th, spine_args(es), xs),
        red(th, apps(Tm::Const(n, ls), xs), w),
        w is NatLit || (w matches Tm::Const(c, _) && (is_named(th.names.bool_true, c) || is_named(
            th.names.bool_false,
            c,
        ))),
    ensures
        red(th, spine_tm(Tm::Const(n, ls), es), w),
        fires(th, spine_tm(Tm::Const(n, ls), es), w),
{
    let h = Tm::Const(n, ls);
    let t = spine_tm(h, es);
    root_els(h, es);
    red_spine_apps(th, h, es, xs);
    red_trans(th, t, apps(h, xs), w);
    red_refl(th, t);
    red_refl(th, w);
    assert(kicks(th, t, w));
    fires_by(th, t, t, w, w);
}

/// A definition is unfolded.
proof fn body_unfolds(th: Theory, n: Nm, ls: Seq<Lv>, es: Seq<El>, hv: Tm, w: Tm)
    requires
        th.delta(n, ls) matches Some(d) && red(th, d, hv),
        red(th, Tm::Const(n, ls), hv),
        red(th, spine_tm(hv, es), w),
    ensures
        red(th, spine_tm(Tm::Const(n, ls), es), w),
        fires(th, spine_tm(Tm::Const(n, ls), es), w),
{
    let h = Tm::Const(n, ls);
    let t = spine_tm(h, es);
    let d = th.delta(n, ls)->0;
    root_els(h, es);
    red_spine_head(th, h, hv, es);
    red_trans(th, t, spine_tm(hv, es), w);
    red_spine_head(th, d, hv, es);
    red_trans(th, spine_tm(d, es), spine_tm(hv, es), w);
    red_refl(th, t);
    assert(kicks(th, t, spine_tm(d, es)));
    fires_by(th, t, t, spine_tm(d, es), w);
}

/// A recursor of the numbers, applied to nothing beyond its major premise, meets zero.
pub open spec fn zero_case(th: Theory, rec: RecursorData, n: nat, major: Tm) -> bool {
    &&& th.nat_ext
    &&& rec.all_inductives@.len() > 0
    &&& is_named(th.names.nat, rec.all_inductives@[0]@)
    &&& rec.num_params + rec.num_motives < rec.major_pos()
    &&& n == rec.major_pos() + 1
    &&& major == Tm::NatLit(0)
}

/// Nothing is left to reduce at the head of such a value: it is no definition, and if a
/// recursor or an eliminator of quotients is at its head, there is no major premise.
pub open spec fn idle(th: Theory, n: Value) -> bool {
    match n {
        Value::Thunk { .. } => false,
        Value::Unfold { .. } => false,
        Value::Rigid { head: RigidHead::Recursor(name, _), spine } => {
            ||| !all_apps(spine@)
            ||| match th.recursor(name@) {
                Some(rec) => spine@.len() <= rec.major_pos(),
                None => true,
            }
        },
        Value::Rigid { head: RigidHead::QuotConst(name, _), spine } => {
            ||| !all_apps(spine@)
            ||| !th.is_quot(name@)
            ||| match quot_pos(th.names, name@) {
                Some(p) => spine@.len() <= p,
                None => true,
            }
        },
        _ => true,
    }
}

impl<'t> TypeChecker<'t> {
    /// Reduces a value at its head.
    pub fn whnf_head(&mut self, v: V, fuel: u64) -> (r: Result<V, Stop>)
        requires
            old(self).wf(),
            old(self).vals.has_val(v),
        ensures
            final(self).wf(),
            old(self).evolves(*final(self)),
            r matches Ok(w) ==> final(self).vals.done(w) && red(old(self).theory(), v@, w@) && !ready(
                old(self).theory(),
                w@,
            ),
            fuel > 0 && old(self).vals.done(v) && (!neutral(v@) || still(old(self).theory(), v@))
                ==> r == Ok::<V, Stop>(v),
            r matches Ok(w) ==> settled(old(self).theory(), w@),
            ends(old(self).theory(), Task::Whnf(v@), fuel as nat) ==> r is Ok,
            r matches Ok(w) ==> resting(old(self).theory(), w@),
        decreases fuel,
    {
        let ghost th = self.theory();
        proof {
            red_refl(th, v@);
        }
        let mut cur = v;
        let mut left: u64 = fuel;
        while left > 0
            invariant
                left <= fuel,
                self.wf(),
                old(self).evolves(*self),
                self.theory() == th,
                th == old(self).theory(),
                self.vals.has_val(cur),
                red(th, v@, cur@),
                ends(th, Task::Whnf(v@), fuel as nat) ==> ends(th, Task::Whnf(cur@), left as nat),
                old(self).vals.done(v) && (!neutral(v@) || still(th, v@)) ==> left == fuel && cur == v
                    && self.vals.done(v),
            decreases left,
        {
            proof {
                ends_next(th, Task::Whnf(cur@), Task::Thunk(cur@), left as nat);
                ends_more(th, Task::Thunk(cur@), (left - 1) as nat, (fuel - 1) as nat);
            }
            let ghost from = cur@;
            left = left - 1;
            let now = match self.force_thunk(cur, fuel - 1) {
                Ok(w) => w,
                Err(s) => {
                    return Err(s);
                },
            };
            proof {
                red_trans(th, v@, cur@, now@);
            }
            proof {
                ends_next(th, Task::Whnf(from), Task::Unfold(now@), (left + 1) as nat);
                ends_more(th, Task::Unfold(now@), left as nat, (fuel - 1) as nat);
                ends_next(th, Task::Whnf(from), Task::IotaV(now@), (left + 1) as nat);
                ends_more(th, Task::IotaV(now@), left as nat, (fuel - 1) as nat);
                red_refl(th, now@);
            }
            cur = now;
            let content = self.read_val(cur);
            proof {
                if ready(th, cur@) {
                    head_kind(th, content, cur@);
                }
            }
            match content {
                Value::Unfold { name, levels, spine, .. } => {
                    proof {
                        crate::value::spine_neutral(Tm::Const(name@, levels@), spine@);
                        if still(th, cur@) {
                            fixed_spine(th, Tm::Const(name@, levels@), spine@);
                        }
                    }
                    let next = self.unfold_value(cur, fuel - 1)?;
                    if next.idx == cur.idx {
                        return Ok(cur);
                    }
                    proof {
                        red_trans(th, v@, cur@, next@);
                        red_refl(th, next@);
                        fires_between(th, from, cur@, next@, next@);
                        ends_next(th, Task::Whnf(from), Task::Whnf(next@), (left + 1) as nat);
                    }
                    cur = next;
                },
                Value::Rigid { head, spine } => {
                    proof {
                        self.rigid_is_neutral(cur, head, spine);
                        rigid_settled(th, head, spine@);
                        if still(th, cur@) {
                            fixed_spine(th, head.tm(), spine@);
                        }
                    }
                    let may_reduce = match head {
                        RigidHead::Recursor(_, _) => true,
                        RigidHead::QuotConst(_, _) => true,
                        _ => false,
                    };
                    if !may_reduce {
                        proof {
                            plain_rests(th, content, cur@);
                        }
                        return Ok(cur);
                    }
                    match self.iota_value(cur, fuel - 1)? {
                        Some(next) => {
                            proof {
                                red_trans(th, v@, cur@, next@);
                                red_refl(th, next@);
                                fires_between(th, from, cur@, next@, next@);
                                ends_next(th, Task::Whnf(from), Task::Whnf(next@), (left + 1) as nat);
                            }
                            cur = next;
                        },
                        None => {
                            return Ok(cur);
                        },
                    }
                },
                _ => {
                    proof {
                        plain_rests(th, content, cur@);
                    }
                    return Ok(cur);
                },
            }
        }
        Err(Stop::OutOfFuel)
    }

    /// Projects from a value.
    pub fn do_proj(&mut self, ty_name: NamePtr, idx: usize, v: V, fuel: u64) -> (r: Result<V, Stop>)
        requires
            old(self).wf(),
            old(self).ctx.has_name(ty_name),
            old(self).vals.has_val(v),
        ensures
            final(self).wf(),
            old(self).evolves(*final(self)),
            r matches Ok(w) ==> final(self).vals.done(w) && red(
                old(self).theory(),
                Tm::Proj(ty_name@, idx as nat, Box::new(v@)),
                w@,
            ),
            fuel > 1 && old(self).vals.done(v) && (v@ is Sort || v@ is Lam || v@ is Pi) ==> r
                == Err::<V, Stop>(Stop::IllTyped),
            fuel > 1 && old(self).vals.done(v) && barren(old(self).theory(), v@) && args(v@).len()
                < u32::MAX ==> (r matches Ok(w) && w@ == Tm::Proj(ty_name@, idx as nat, Box::new(v@))),
            field_at(old(self).theory(), v@, ty_name@, idx as nat) matches Some(a) ==> (r matches Ok(w)
                ==> red(old(self).theory(), a, w@)),
            ends(old(self).theory(), Task::ProjV(ty_name@, idx as nat, v@), fuel as nat) ==> r is Ok,
            r matches Ok(w) ==> projected(old(self).theory(), ty_name@, idx as nat, v@, w@),
        decreases fuel,
    {
        if fuel == 0 {
            return Err(Stop::OutOfFuel);
        }
        let ghost th = self.theory();
        let ghost shown = field_at(th, v@, ty_name@, idx as nat);
        let ghost t = Tm::Proj(ty_name@, idx as nat, Box::new(v@));
        proof {
            ends_next(th, Task::ProjV(ty_name@, idx as nat, v@), Task::Whnf(v@), fuel as nat);
        }
        let w = match self.whnf_head(v, fuel - 1) {
            Ok(w) => w,
            Err(s) => {
                return Err(s);
            },
        };
        let ghost tw = Tm::Proj(ty_name@, idx as nat, Box::new(w@));
        let content = self.read_val(w);
        proof {
            red_proj(th, ty_name@, idx as nat, v@, w@);
            ends_sound(th, Task::ProjV(ty_name@, idx as nat, v@), fuel as nat);
            self.vals.done_evaluated(self.ctx, th, w);
            if let Value::Rigid { head, spine } = content {
                self.rigid_is_neutral(w, head, spine);
            }
            if let Value::Unfold { name, levels, spine, .. } = content {
                crate::value::spine_neutral(Tm::Const(name@, levels@), spine@);
            }
            if ctor_headed(th, w@) {
                head_kind(th, content, w@);
            }
            if shown is Some {
                fixed_stays(th, v@, w@);
                same_head_args(th, v@, w@);
                head_kind(th, content, w@);
            }
            if barren(th, w@) {
                if let Value::Rigid { head, spine } = content {
                    fixed_spine(th, head.tm(), spine@);
                    spine_links(head.tm(), spine@);
                    self.rigid_is_neutral(w, head, spine);
                }
                if let Value::Unfold { name, levels, spine, .. } = content {
                    fixed_spine(th, Tm::Const(name@, levels@), spine@);
                }
            }
        }
        match content {
            Value::Rigid { head, spine } => {
                if let RigidHead::Ctor(ctor_name, levels) = head {
                    if let Some(field) = self.field_of(ty_name, idx, ctor_name, spine, Ghost(levels@)) {
                        proof {
                            ends_next(th, Task::ProjV(ty_name@, idx as nat, v@), Task::Thunk(field@), fuel as nat);
                        }
                        let out = self.force_thunk(field, fuel - 1)?;
                        proof {
                            if shown is Some {
                                red_trans(th, shown->0, field@, out@);
                            }
                            red_trans(th, t, tw, field@);
                            red_trans(th, t, field@, out@);
                            args_of_spine(Tm::Const(ctor_name@, levels@), spine@);
                            assert(red(th, v@, w@) && resting(th, w@));
                            assert(projected(th, ty_name@, idx as nat, v@, out@));
                        }
                        return Ok(out);
                    }
                }
                let out = self.proj_extend_spine(ty_name, idx, w)?;
                proof {
                    assert(red(th, v@, w@) && resting(th, w@));
                    assert(projected(th, ty_name@, idx as nat, v@, out@));
                }
                Ok(out)
            },
            Value::Unfold { .. } => {
                let out = self.proj_extend_spine(ty_name, idx, w)?;
                proof {
                    assert(red(th, v@, w@) && resting(th, w@));
                    assert(projected(th, ty_name@, idx as nat, v@, out@));
                }
                Ok(out)
            },
            Value::NatLit { ptr } => {
                match self.nat_lit_to_ctor_val(ptr, fuel - 1)? {
                    Some(c) => {
                        let out = self.do_proj(ty_name, idx, c, fuel - 1)?;
                        proof {
                            self.proj_of(ty_name@, idx as nat, v@, w@, c@, out@);
                            red_trans(th, v@, w@, c@);
                            projected_trans(th, ty_name@, idx as nat, v@, c@, out@);
                        }
                        Ok(out)
                    },
                    None => Err(Stop::NoLiterals),
                }
            },
            Value::StrLit { ptr } => {
                proof {
                    ends_next(th, Task::ProjV(ty_name@, idx as nat, v@), Task::StrCtor(ptr@), fuel as nat);
                }
                match self.str_lit_to_ctor_val(ptr, fuel - 1)? {
                    Some(c) => {
                        proof {
                            let e = str_ctor(th.names, ptr@)->0;
                            assert(lit_step(th, w@, e));
                            ends_next(th, Task::ProjV(ty_name@, idx as nat, v@), Task::ProjV(ty_name@, idx as nat, c@), fuel as nat);
                        }
                        let out = self.do_proj(ty_name, idx, c, fuel - 1)?;
                        proof {
                            self.proj_of(ty_name@, idx as nat, v@, w@, c@, out@);
                            red_trans(th, v@, w@, c@);
                            projected_trans(th, ty_name@, idx as nat, v@, c@, out@);
                        }
                        Ok(out)
                    },
                    None => Err(Stop::NoLiterals),
                }
            },
            _ => Err(Stop::IllTyped),
        }
    }

    proof fn proj_of(&self, n: Nm, i: nat, v: Tm, w: Tm, c: Tm, out: Tm)
        requires
            red(self.theory(), v, w),
            red(self.theory(), w, c),
            red(self.theory(), Tm::Proj(n, i, Box::new(c)), out),
        ensures
            red(self.theory(), Tm::Proj(n, i, Box::new(v)), out),
    {
        let th = self.theory();
        red_trans(th, v, w, c);
        red_proj(th, n, i, v, c);
        red_trans(th, Tm::Proj(n, i, Box::new(v)), Tm::Proj(n, i, Box::new(c)), out);
    }

    /// The field of a constructor of the type.
    fn field_of(
        &self,
        ty_name: NamePtr,
        idx: usize,
        ctor_name: NamePtr,
        spine: S,
        Ghost(ls): Ghost<Seq<Lv>>,
    ) -> (r: Option<V>)
        requires
            self.wf(),
            self.ctx.has_name(ty_name),
            self.ctx.has_name(ctor_name),
            self.vals.has_spine(spine),
        ensures
            r matches Some(f) ==> self.vals.has_val(f) && red(
                self.theory(),
                Tm::Proj(
                    ty_name@,
                    idx as nat,
                    Box::new(spine_tm(Tm::Const(ctor_name@, ls), spine@)),
                ),
                f@,
            ) && in_args(spine_tm(Tm::Const(ctor_name@, ls), spine@), f@) && all_apps(spine@) && (field_pos(
                self.theory(),
                ctor_name@,
                spine@.len(),
                ty_name@,
                idx as nat,
            ) matches Some(p) && f@ == spine_args(spine@)[p as int]),
            all_apps(spine@) ==> (field_pos(
                self.theory(),
                ctor_name@,
                spine@.len(),
                ty_name@,
                idx as nat,
            ) matches Some(p) ==> (r matches Some(f) && f@ == spine_args(spine@)[p as int])),
    {
        let c = match self.get_constructor(ctor_name) {
            Some(c) => c,
            None => {
                return None;
            },
        };
        if !self.ctx.eq_name(c.inductive_name, ty_name) {
            return None;
        }
        let np: usize = c.num_params as usize;
        let elims = self.spine_elims(spine);
        if idx >= elims.len() || np >= elims.len() - idx {
            return None;
        }
        let apps_only = self.applies_only(&elims);
        if !apps_only {
            return None;
        }
        assert(elims@[np + idx].el() == spine@[np + idx]);
        match elims[np + idx] {
            Elim::App(field) => {
                proof {
                    let th = self.theory();
                    let es = spine@;
                    let h = Tm::Const(ctor_name@, ls);
                    spine_of_apps(h, es);
                    const_apps(ctor_name@, ls, spine_args(es));
                    let s = spine_tm(h, es);
                    let a = Tm::Proj(ty_name@, idx as nat, Box::new(s));
                    assert(args(s)[np + idx] == field@);
                    assert(in_args(s, field@));
                    assert(root_step(th, a, field@));
                    red_step(th, a, field@);
                    assert(self.vals.elim_fits(self.ctx, elims@[np + idx]));
                }
                Some(field)
            },
            _ => None,
        }
    }

    fn applies_only(&self, es: &Vec<Elim>) -> (r: bool)
        ensures
            r == all_apps(elims(es@)),
    {
        let mut i: usize = 0;
        while i < es.len()
            invariant
                i <= es@.len(),
                forall|j: int| 0 <= j < i ==> (#[trigger] elims(es@)[j]) is App,
            decreases es@.len() - i,
        {
            if !es[i].is_app() {
                assert(!(elims(es@)[i as int] is App));
                return false;
            }
            i = i + 1;
        }
        true
    }

    /// A projection from a value that does not reduce.
    pub fn proj_extend_spine(&mut self, ty_name: NamePtr, idx: usize, v: V) -> (r: Result<V, Stop>)
        requires
            old(self).wf(),
            old(self).ctx.has_name(ty_name),
            old(self).vals.done(v),
        ensures
            final(self).wf(),
            old(self).evolves(*final(self)),
            r matches Ok(w) ==> final(self).vals.done(w) && w@ == Tm::Proj(
                ty_name@,
                idx as nat,
                Box::new(v@),
            ) && red(
                old(self).theory(),
                Tm::Proj(ty_name@, idx as nat, Box::new(v@)),
                w@,
            ),
            !neutral(v@) ==> r == Err::<V, Stop>(Stop::IllTyped),
            neutral(v@) ==> (r matches Err(s) ==> s == Stop::SpineTooLong),
            neutral(v@) && links(v@) < u32::MAX ==> r is Ok,
    {
        proof {
            red_refl(self.theory(), Tm::Proj(ty_name@, idx as nat, Box::new(v@)));
        }
        match self.read_val(v) {
            Value::Rigid { head, spine } => {
                proof {
                    self.rigid_is_neutral(v, head, spine);
                    spine_links(head.tm(), spine@);
                    spine_push(head.tm(), spine@, El::Proj(ty_name@, idx as nat));
                }
                match self.spine_snoc_hc(spine, Elim::Proj { ty_name, idx }) {
                    Ok(ns) => Ok(self.mk_rigid_hc(head, ns)),
                    Err(s) => Err(s),
                }
            },
            Value::Unfold { name, levels, spine, head_value, .. } => {
                proof {
                    let h = Tm::Const(name@, levels@);
                    crate::value::spine_neutral(h, spine@);
                    spine_links(h, spine@);
                    spine_push(h, spine@, El::Proj(ty_name@, idx as nat));
                }
                match self.spine_snoc_hc(spine, Elim::Proj { ty_name, idx }) {
                    Ok(ns) => Ok(self.mk_unfold_hc(name, levels, ns, head_value)),
                    Err(s) => Err(s),
                }
            },
            _ => Err(Stop::IllTyped),
        }
    }

    /// Reduces a value at its head. Recursors that wait for their major premise are kept on
    /// a stack.
    pub fn force_all(&mut self, v: V, fuel: u64) -> (r: Result<V, Stop>)
        requires
            old(self).wf(),
            old(self).vals.has_val(v),
        ensures
            final(self).wf(),
            old(self).evolves(*final(self)),
            r matches Ok(w) ==> final(self).vals.done(w) && red(old(self).theory(), v@, w@) && !ready(
                old(self).theory(),
                w@,
            ),
            fuel > 1 && old(self).vals.done(v) && (!neutral(v@) || still(old(self).theory(), v@))
                ==> r == Ok::<V, Stop>(v),
            r matches Ok(w) ==> settled(old(self).theory(), w@),
            ends(old(self).theory(), Task::Forcing(Seq::empty(), v@), fuel as nat) ==> r is Ok,
            r matches Ok(w) ==> final(self).vals.is_unfold(w) || final(self).rests(w),
            fuel > 1 && old(self).vals.done(v) && !old(self).vals.is_unfold(v) && old(self).rests(v) ==> r
                == Ok::<V, Stop>(v),
            r matches Ok(w) ==> resting(old(self).theory(), w@),
        decreases fuel,
    {
        let ghost th = self.theory();
        proof {
            red_refl(th, v@);
        }
        let mut cur = v;
        let mut waiting: Vec<V> = Vec::new();
        let mut left: u64 = fuel;
        assert(vtms(waiting@) =~= Seq::<Tm>::empty());
        while left > 0
            invariant
                left <= fuel,
                self.wf(),
                old(self).evolves(*self),
                self.theory() == th,
                th == old(self).theory(),
                self.vals.has_val(cur),
                self.vals.all_done(waiting@),
                stacked(th, v@, waiting@, cur@),
                ends(th, Task::Forcing(Seq::empty(), v@), fuel as nat) ==> ends(
                    th,
                    Task::Forcing(vtms(waiting@), cur@),
                    left as nat,
                ),
                none_ready(th, waiting@),
                all_settled(th, waiting@),
                forall|i: int|
                    0 <= i < waiting@.len() ==> self.vals.node(#[trigger] waiting@[i]) is Rigid,
                fuel > 1 && old(self).vals.done(v) && !old(self).vals.is_unfold(v) && old(self).rests(v)
                    ==> left == fuel && cur == v && waiting@.len() == 0 && *self == *old(self),
                fuel > 1 && old(self).vals.done(v) && (!neutral(v@) || still(th, v@)) ==> left == fuel
                    && cur == v
                    && waiting@.len() == 0 && self.vals.done(v),
            decreases left,
        {
            let ghost from = cur@;
            let ghost ws = vtms(waiting@);
            let ghost task = Task::Forcing(ws, from);
            proof {
                ends_next(th, task, Task::Strip(from), left as nat);
                ends_more(th, Task::Strip(from), (left - 1) as nat, (fuel - 1) as nat);
            }
            left = left - 1;
            let next = match self.strip_head(cur, fuel - 1) {
                Ok(w) => w,
                Err(s) => {
                    return Err(s);
                },
            };
            proof {
                stacked_trans(th, v@, waiting@, cur@, next@);
            }
            proof {
                ends_next(th, task, Task::IotaS(next@), (left + 1) as nat);
                ends_more(th, Task::IotaS(next@), left as nat, (fuel - 1) as nat);
                ends_next(th, task, Task::Unwind(ws, next@), (left + 1) as nat);
                ends_more(th, Task::Unwind(ws, next@), left as nat, (fuel - 1) as nat);
            }
            cur = next;
            let content = self.read_val(cur);
            proof {
                if ready(th, cur@) {
                    head_kind(th, content, cur@);
                }
            }
            let step = match content {
                Value::Rigid { head, spine } => {
                    proof {
                        self.rigid_is_neutral(cur, head, spine);
                        if still(th, cur@) {
                            fixed_spine(th, head.tm(), spine@);
                        }
                    }
                    match head {
                        RigidHead::Recursor(_, _) => self.iota_step(cur, fuel - 1)?,
                        RigidHead::QuotConst(_, _) => self.iota_step(cur, fuel - 1)?,
                        _ => ForceStep::Done,
                    }
                },
                _ => ForceStep::Done,
            };
            match step {
                ForceStep::Reduced(w) => {
                    proof {
                        stacked_trans(th, v@, waiting@, cur@, w@);
                        red_refl(th, w@);
                        fires_between(th, from, cur@, w@, w@);
                        ends_next(th, task, Task::Forcing(ws, w@), (left + 1) as nat);
                    }
                    cur = w;
                },
                ForceStep::Descend(m) => {
                    let ghost before = waiting@;
                    waiting.push(cur);
                    assert(settled(th, cur@));
                    proof {
                        stacked_push(th, v@, before, cur, m@);
                        assert(vtms(waiting@) =~= ws.push(cur@));
                        assert(vtms(waiting@).drop_last() =~= ws);
                        ends_next(th, task, Task::Forcing(vtms(waiting@), m@), (left + 1) as nat);
                    }
                    cur = m;
                },
                ForceStep::Done => {
                    proof {
                        if !(content is Unfold) && !(content matches Value::Rigid { head: RigidHead::Recursor(_, _), .. }) && !(
                        content matches Value::Rigid { head: RigidHead::QuotConst(_, _), .. }) {
                            plain_rests(th, content, cur@);
                        }
                        assert(resting(th, cur@));
                    }
                    let (w, finished) = self.unwind(cur, &mut waiting, Ghost(v@), fuel - 1)?;
                    proof {
                        ends_next(th, task, Task::Forcing(vtms(waiting@), w@), (left + 1) as nat);
                    }
                    cur = w;
                    if finished {
                        return Ok(cur);
                    }
                },
            }
        }
        Err(Stop::OutOfFuel)
    }

    /// Fires the recursors that wait for a value, until one of them reduces.
    fn unwind(&mut self, v: V, waiting: &mut Vec<V>, Ghost(from): Ghost<Tm>, fuel: u64) -> (r: Result<
        (V, bool),
        Stop,
    >)
        requires
            old(self).wf(),
            old(self).vals.done(v),
            old(self).vals.all_done(old(waiting)@),
            forall|i: int|
                0 <= i < old(waiting)@.len() ==> old(self).vals.node(#[trigger] old(waiting)@[i]) is Rigid,
            stacked(old(self).theory(), from, old(waiting)@, v@),
            none_ready(old(self).theory(), old(waiting)@),
            all_settled(old(self).theory(), old(waiting)@),
            settled(old(self).theory(), v@),
            !ready(old(self).theory(), v@),
            resting(old(self).theory(), v@),
        ensures
            final(self).wf(),
            old(self).evolves(*final(self)),
            r matches Ok((w, finished)) ==> {
                &&& final(self).vals.done(w)
                &&& final(self).vals.all_done(final(waiting)@)
                &&& forall|i: int|
                    0 <= i < final(waiting)@.len() ==> final(self).vals.node(
                        #[trigger] final(waiting)@[i],
                    ) is Rigid
                &&& stacked(old(self).theory(), from, final(waiting)@, w@)
                &&& none_ready(old(self).theory(), final(waiting)@)
                &&& all_settled(old(self).theory(), final(waiting)@)
                &&& finished ==> settled(old(self).theory(), w@) && resting(old(self).theory(), w@)
                &&& !finished ==> final(waiting)@.len() < old(waiting)@.len() && vtms(final(waiting)@)
                    == vtms(old(waiting)@).take(final(waiting)@.len() as int) && fires(
                    old(self).theory(),
                    vtms(old(waiting)@)[final(waiting)@.len() as int],
                    w@,
                )
                &&& finished ==> final(waiting)@.len() == 0 && !ready(old(self).theory(), w@)
            },
            old(waiting)@.len() == 0 ==> r == Ok::<(V, bool), Stop>((v, true)) && final(waiting)@
                == old(waiting)@,
            ends(old(self).theory(), Task::Unwind(vtms(old(waiting)@), v@), fuel as nat) ==> r is Ok,
            old(waiting)@.len() == 0 ==> *final(self) == *old(self),
            r matches Ok((w, finished)) ==> (finished && old(waiting)@.len() > 0 ==> final(self).rests(w)),
        decreases fuel,
    {
        let ghost th = self.theory();
        let ghost all = waiting@;
        let mut cur = v;
        assert(all.take(all.len() as int) =~= all);
        while waiting.len() > 0
            invariant
                self.wf(),
                old(self).evolves(*self),
                self.theory() == th,
                th == old(self).theory(),
                self.vals.done(cur),
                self.vals.all_done(waiting@),
                all == old(waiting)@,
                waiting@.len() == all.len() ==> *self == *old(self),
                waiting@.len() < all.len() ==> self.rests(cur),
                forall|i: int|
                    0 <= i < waiting@.len() ==> self.vals.node(#[trigger] waiting@[i]) is Rigid,
                waiting@.len() <= all.len(),
                waiting@ == all.take(waiting@.len() as int),
                cur@ == (if waiting@.len() == all.len() {
                    v@
                } else {
                    all[waiting@.len() as int]@
                }),
                stacked(th, from, waiting@, cur@),
                none_ready(th, waiting@),
                all_settled(th, waiting@),
                settled(th, cur@),
                resting(th, cur@),
                !ready(th, cur@),
                old(waiting)@.len() == 0 ==> waiting@ == old(waiting)@ && cur == v,
            decreases waiting@.len(),
        {
            proof {
                let k = waiting@.len() - 1;
                assert(vtms(all)[k] == waiting@[k]@);
                ends_next(th, Task::Unwind(vtms(all), v@), Task::FireV(waiting@[k]@, cur@), fuel as nat);
            }
            if fuel == 0 {
                return Err(Stop::OutOfFuel);
            }
            let ghost before = waiting@;
            let k: usize = waiting.len() - 1;
            let rec_val = waiting[k];
            waiting.pop();
            proof {
                assert(waiting@ =~= all.take(waiting@.len() as int));
                assert(vtms(waiting@) =~= vtms(all).take(waiting@.len() as int));
                assert(waiting@ =~= before.drop_last());
                assert(self.vals.done(before[before.len() - 1]));
                assert(!ready(th, before[before.len() - 1]@));
                assert(self.vals.node(before[before.len() - 1]) is Rigid);
                assert forall|i: int| 0 <= i < waiting@.len() implies self.vals.node(
                    #[trigger] waiting@[i],
                ) is Rigid by {
                    assert(self.vals.node(before[i]) is Rigid);
                }
                assert(settled(th, before[before.len() - 1]@));
                assert forall|i: int| 0 <= i < waiting@.len() implies settled(
                    th,
                    (#[trigger] waiting@[i])@,
                ) by {
                    assert(settled(th, before[i]@));
                }
                assert forall|i: int| 0 <= i < waiting@.len() implies !ready(
                    th,
                    (#[trigger] waiting@[i])@,
                ) by {
                    assert(!ready(th, before[i]@));
                }
                assert forall|i: int| 0 <= i < waiting@.len() implies self.vals.done(
                    #[trigger] waiting@[i],
                ) by {
                    assert(self.vals.done(before[i]));
                }
            }
            assert(waits_for(th, rec_val@, cur@));
            match self.fire_value(rec_val, cur, fuel - 1)? {
                Some(res) => {
                    proof {
                        stacked_trans(th, from, waiting@, rec_val@, res@);
                    }
                    self.remember_iota(rec_val, res);
                    return Ok((res, false));
                },
                None => {
                    self.remember_stuck(rec_val);
                    cur = rec_val;
                },
            }
        }
        Ok((cur, true))
    }

    /// One step of a recursor or an eliminator of quotients.
    pub fn iota_step(&mut self, v: V, fuel: u64) -> (r: Result<ForceStep, Stop>)
        requires
            old(self).wf(),
            old(self).vals.done(v),
        ensures
            final(self).wf(),
            old(self).evolves(*final(self)),
            match r {
                Ok(ForceStep::Reduced(w)) => final(self).vals.done(w) && red(
                    old(self).theory(),
                    v@,
                    w@,
                ) && fires(old(self).theory(), v@, w@),
                Ok(ForceStep::Descend(m)) => final(self).vals.done(m) && waits_for(
                    old(self).theory(),
                    v@,
                    m@,
                ) && !ready(old(self).theory(), v@),
                Ok(ForceStep::Done) => !ready(old(self).theory(), v@),
                Err(_) => true,
            },
            fuel > 0 && (!neutral(v@) || still(old(self).theory(), v@)) ==> (r matches Ok(s) && !(s is Descend)),
            fuel > 0 && rec_headed(old(self).theory(), v@) ==> (old(self).theory().recursor(
                head(v@)->Const_0,
            ) matches Some(rec) ==> (args(v@).len() <= rec.major_pos() ==> r == Ok::<ForceStep, Stop>(
                ForceStep::Done,
            ) && *final(self) == *old(self))),
            ends(old(self).theory(), Task::IotaS(v@), fuel as nat) ==> r is Ok,
            r == Ok::<ForceStep, Stop>(ForceStep::Done) && !old(self).vals.is_unfold(v) ==> final(self).rests(
                v,
            ),
            fuel > 0 && old(self).rests(v) ==> r == Ok::<ForceStep, Stop>(ForceStep::Done)
                && *final(self) == *old(self),
            r == Ok::<ForceStep, Stop>(ForceStep::Done) && old(self).vals.node(v) is Rigid ==> resting(
                old(self).theory(),
                v@,
            ),
        decreases fuel,
    {
        if fuel == 0 {
            return Err(Stop::OutOfFuel);
        }
        let ghost th = self.theory();
        let content = self.read_val(v);
        proof {
            ends_next(th, Task::IotaS(v@), Task::RecS(v@), fuel as nat);
            ends_next(th, Task::IotaS(v@), Task::QuotS(v@), fuel as nat);
        }
        proof {
            if ready(th, v@) || rec_headed(th, v@) {
                head_kind(th, content, v@);
            }
            if let Value::Rigid { head, spine } = content {
                self.rigid_is_neutral(v, head, spine);
                if still(th, v@) {
                    fixed_spine(th, head.tm(), spine@);
                }
            }
        }
        match content {
            Value::Rigid { .. } => {
                if self.is_idle(content) {
                    proof {
                        idle_rests(th, content, v@);
                    }
                    return Ok(ForceStep::Done);
                }
            },
            _ => {
                return Ok(ForceStep::Done);
            },
        }
        if self.is_stuck(v) {
            return Ok(ForceStep::Done);
        }
        if let Some(c) = self.recall_iota(v) {
            return Ok(ForceStep::Reduced(c));
        }
        match content {
            Value::Rigid { head, spine } => match head {
                RigidHead::Recursor(name, levels) => self.rec_step(v, name, levels, spine, fuel - 1),
                RigidHead::QuotConst(name, levels) => {
                    self.quot_iota_step(v, name, levels, spine, fuel - 1)
                },
                _ => Ok(ForceStep::Done),
            },
            _ => Ok(ForceStep::Done),
        }
    }

    /// The value is known not to reduce at its head.
    pub open spec fn rests(self, v: V) -> bool {
        ||| idle(self.theory(), self.vals.node(v))
        ||| self.vals.node(v) is Rigid && (self.vcache.iota_stuck.at(v.idx as u64) matches Some(
            (k, _),
        ) && k.idx == v.idx)
    }

    /// Whether nothing is left to reduce at the head of a value with a recursor or an
    /// eliminator of quotients at its head, as there is no major premise.
    fn is_idle(&self, content: Value) -> (r: bool)
        requires
            self.wf(),
            self.vals.value_fits(self.ctx, content),
            content is Rigid,
        ensures
            r == idle(self.theory(), content),
    {
        let (name, spine, quot): (NamePtr, S, bool) = match content {
            Value::Rigid { head: RigidHead::Recursor(name, _), spine } => (name, spine, false),
            Value::Rigid { head: RigidHead::QuotConst(name, _), spine } => (name, spine, true),
            _ => {
                return true;
            },
        };
        let pos: usize = if quot {
            match self.quot_major(name) {
                Some(p) => p,
                None => {
                    return true;
                },
            }
        } else {
            match self.get_recursor(name) {
                Some(rec) => rec.major_idx(),
                None => {
                    return true;
                },
            }
        };
        let info = self.vals.read_spine(spine);
        assert(self.vals.fit(self.ctx, self.theory()));
        match info {
            Spine::Empty => true,
            Spine::Snoc { len, has_proj, .. } => has_proj || len as usize <= pos,
        }
    }

    fn rec_step(&mut self, v: V, name: NamePtr, levels: LevelsPtr, spine: S, fuel: u64) -> (r: Result<
        ForceStep,
        Stop,
    >)
        requires
            old(self).wf(),
            old(self).vals.done(v),
            old(self).vals.node(v) is Rigid,
            !idle(old(self).theory(), old(self).vals.node(v)),
            old(self).vals.node(v) matches Value::Rigid { head: RigidHead::Recursor(k, _), spine: s } && s
                == spine && k == name,
            old(self).ctx.has_name(name),
            old(self).ctx.has_levels(levels),
            old(self).vals.has_spine(spine),
            v@ == spine_tm(Tm::Const(name@, levels@), spine@),
        ensures
            final(self).wf(),
            old(self).evolves(*final(self)),
            match r {
                Ok(ForceStep::Reduced(w)) => final(self).vals.done(w) && red(
                    old(self).theory(),
                    v@,
                    w@,
                ) && fires(old(self).theory(), v@, w@),
                Ok(ForceStep::Descend(m)) => final(self).vals.done(m) && waits_for(
                    old(self).theory(),
                    v@,
                    m@,
                ) && !ready(old(self).theory(), v@),
                Ok(ForceStep::Done) => !ready(old(self).theory(), v@),
                Err(_) => true,
            },
            ends(old(self).theory(), Task::RecS(v@), fuel as nat) ==> r is Ok,
            r == Ok::<ForceStep, Stop>(ForceStep::Done) ==> final(self).rests(v),
            r == Ok::<ForceStep, Stop>(ForceStep::Done) ==> resting(old(self).theory(), v@),
        decreases fuel,
    {
        if fuel == 0 {
            return Err(Stop::OutOfFuel);
        }
        let ghost th = self.theory();
        let ghost f = Tm::Const(name@, levels@);
        let rec = match self.get_recursor(name) {
            Some(r) => r,
            None => {
                proof {
                    if ready(th, v@) {
                        spine_head(f, spine@);
                    }
                }
                return Ok(ForceStep::Done);
            },
        };
        proof {
            self.declared_name(name@);
            if ready(th, v@) {
                spine_head(f, spine@);
            }
        }
        proof {
            root_els(f, spine@);
            ends_next(th, Task::RecS(v@), Task::Spine(spine@), fuel as nat);
        }
        let xs = match self.spine_apps(spine, fuel - 1)? {
            Some(xs) => xs,
            None => {
                return Ok(ForceStep::Done);
            },
        };
        let pos: usize = rec.major_idx();
        if xs.len() <= pos {
            return Ok(ForceStep::Done);
        }
        let ghost es = spine_args(spine@);
        let ghost zs = vtms(xs@);
        proof {
            spine_of_apps(f, spine@);
            const_apps(name@, levels@, es);
            red_spine_apps(th, f, spine@, zs);
            assert(crate::work::argued(th, v@, zs));
            ends_next(th, Task::RecS(v@), Task::KPre(name@, levels@, zs), fuel as nat);
            ends_next(th, Task::RecS(v@), Task::Strip(zs[pos as int]), fuel as nat);
        }
        if let Some(w) = self.k_pre_reduce(rec, levels, &xs, fuel - 1)? {
            proof {
                red_trans(th, v@, apps(f, zs), w@);
                red_refl(th, w@);
                fires_between(th, v@, apps(f, zs), w@, w@);
            }
            self.remember_iota(v, w);
            return Ok(ForceStep::Reduced(w));
        }
        assert(self.vals.done(xs@[pos as int]));
        let major = self.strip_head(xs[pos], fuel - 1)?;
        proof {
            red_trans(th, es[pos as int], zs[pos as int], major@);
            if ready(th, v@) {
                met_stays(th, *rec, es[pos as int], major@);
            }
        }
        if self.is_iota_reducible(major) {
            return Ok(ForceStep::Descend(major));
        }
        proof {
            ends_next(th, Task::RecS(v@), Task::FireRec(name@, levels@, zs, major@), fuel as nat);
        }
        match self.fire_recursor(rec, levels, &xs, major, fuel - 1)? {
            Some(w) => {
                proof {
                    red_args_but(th, f, es, zs, pos as int, major@);
                    red_trans(th, v@, apps(f, zs.update(pos as int, major@)), w@);
                    red_refl(th, w@);
                    fires_between(th, v@, apps(f, zs.update(pos as int, major@)), w@, w@);
                }
                self.remember_iota(v, w);
                Ok(ForceStep::Reduced(w))
            },
            None => {
                proof {
                    rigid_settled(th, RigidHead::Recursor(name, levels), spine@);
                    self.stripped_rests(major);
                    recursor_rests(th, v@, *rec, major@);
                }
                self.remember_stuck(v);
                Ok(ForceStep::Done)
            },
        }
    }

    fn quot_iota_step(&mut self, v: V, name: NamePtr, levels: LevelsPtr, spine: S, fuel: u64) -> (r:
        Result<ForceStep, Stop>)
        requires
            old(self).wf(),
            old(self).vals.done(v),
            old(self).vals.node(v) is Rigid,
            !idle(old(self).theory(), old(self).vals.node(v)),
            old(self).vals.node(v) matches Value::Rigid { head: RigidHead::QuotConst(k, _), spine: s } && s
                == spine && k == name,
            old(self).ctx.has_name(name),
            old(self).ctx.has_levels(levels),
            old(self).vals.has_spine(spine),
            v@ == spine_tm(Tm::Const(name@, levels@), spine@),
            !ready(old(self).theory(), v@),
        ensures
            final(self).wf(),
            old(self).evolves(*final(self)),
            match r {
                Ok(ForceStep::Reduced(w)) => final(self).vals.done(w) && red(
                    old(self).theory(),
                    v@,
                    w@,
                ) && fires(old(self).theory(), v@, w@),
                Ok(ForceStep::Descend(m)) => final(self).vals.done(m) && waits_for(
                    old(self).theory(),
                    v@,
                    m@,
                ) && !ready(old(self).theory(), v@),
                Ok(ForceStep::Done) => !ready(old(self).theory(), v@),
                Err(_) => true,
            },
            ends(old(self).theory(), Task::QuotS(v@), fuel as nat) ==> r is Ok,
            r == Ok::<ForceStep, Stop>(ForceStep::Done) ==> final(self).rests(v),
            r == Ok::<ForceStep, Stop>(ForceStep::Done) ==> resting(old(self).theory(), v@),
        decreases fuel,
    {
        if fuel == 0 {
            return Err(Stop::OutOfFuel);
        }
        let ghost th = self.theory();
        let ghost f = Tm::Const(name@, levels@);
        let pos: usize = match self.quot_major(name) {
            Some(p) => p,
            None => {
                return Ok(ForceStep::Done);
            },
        };
        proof {
            root_els(f, spine@);
            ends_next(th, Task::QuotS(v@), Task::Spine(spine@), fuel as nat);
        }
        let xs = match self.spine_apps(spine, fuel - 1)? {
            Some(xs) => xs,
            None => {
                return Ok(ForceStep::Done);
            },
        };
        if xs.len() <= pos {
            return Ok(ForceStep::Done);
        }
        let ghost es = spine_args(spine@);
        let ghost zs = vtms(xs@);
        proof {
            spine_of_apps(f, spine@);
            const_apps(name@, levels@, es);
            assert(crate::work::argued(th, v@, zs));
            ends_next(th, Task::QuotS(v@), Task::Strip(zs[pos as int]), fuel as nat);
        }
        assert(self.vals.done(xs@[pos as int]));
        let major = self.strip_head(xs[pos], fuel - 1)?;
        proof {
            red_trans(th, es[pos as int], zs[pos as int], major@);
        }
        if self.is_iota_reducible(major) {
            return Ok(ForceStep::Descend(major));
        }
        proof {
            ends_next(th, Task::QuotS(v@), Task::FireQuot(name@, zs, major@), fuel as nat);
        }
        match self.fire_quot(name, &xs, major, fuel - 1)? {
            Some(w) => {
                proof {
                    red_args_but(th, f, es, zs, pos as int, major@);
                    assert(red(th, apps(Tm::Const(name@, levels@), zs.update(pos as int, major@)), w@));
                    red_trans(th, v@, apps(f, zs.update(pos as int, major@)), w@);
                    red_refl(th, w@);
                    assert(fires(th, apps(Tm::Const(name@, levels@), zs.update(pos as int, major@)), w@));
                    fires_between(th, v@, apps(f, zs.update(pos as int, major@)), w@, w@);
                }
                self.remember_iota(v, w);
                Ok(ForceStep::Reduced(w))
            },
            None => {
                proof {
                    rigid_settled(th, RigidHead::QuotConst(name, levels), spine@);
                    self.stripped_rests(major);
                    quotient_rests(th, v@, pos as nat, major@);
                }
                self.remember_stuck(v);
                Ok(ForceStep::Done)
            },
        }
    }

    /// What definitions were unfolded of rests where no eliminator is at its head.
    proof fn stripped_rests(&self, v: V)
        requires
            self.wf(),
            self.vals.done(v),
            self.vals.is_unfold(v) ==> resting(self.theory(), v@),
            !rec_headed(self.theory(), v@),
            quot_headed(self.theory(), v@) ==> quot_pos(
                self.theory().names,
                head(v@)->Const_0,
            ) is None,
        ensures
            resting(self.theory(), v@),
    {
        let th = self.theory();
        self.vals.node_ok(self.ctx, th, v);
        let n = self.vals.node(v);
        if !(n is Unfold) {
            if let Value::Rigid { head: h, spine } = n {
                rigid_settled(th, h, spine@);
            }
            rests_plainly(th, v@);
        }
    }

    /// The position of the major premise of an eliminator of quotients that is declared.
    fn quot_major(&self, name: NamePtr) -> (r: Option<usize>)
        requires
            self.wf(),
            self.ctx.has_name(name),
        ensures
            match r {
                Some(p) => self.theory().is_quot(name@) && quot_pos(self.theory().names, name@)
                    == Some(p as nat) && self.theory().recursor(name@) is None,
                None => !self.theory().is_quot(name@) || quot_pos(
                    self.theory().names,
                    name@,
                ) is None,
            },
    {
        proof {
            self.ctx.known_names();
        }
        match self.get_declar(name) {
            Some(Declar::Quot { .. }) => {},
            _ => {
                return None;
            },
        }
        let cache = self.ctx.name_cache;
        if self.ctx.is_known(name, cache.quot_lift) {
            Some(5)
        } else if self.ctx.is_known(name, cache.quot_ind) {
            Some(4)
        } else {
            None
        }
    }

    /// A declaration is found under its own name.
    pub proof fn declared_name(&self, n: Nm)
        requires
            self.theory().decls.contains_key(n),
        ensures
            self.theory().decls[n].about().name@ == n,
    {
        crate::checker::own_name(*self.env, n);
    }

    /// The value, with what was to be evaluated later evaluated, and constants unfolded.
    pub fn strip_head(&mut self, v: V, fuel: u64) -> (r: Result<V, Stop>)
        requires
            old(self).wf(),
            old(self).vals.has_val(v),
        ensures
            final(self).wf(),
            old(self).evolves(*final(self)),
            r matches Ok(w) ==> final(self).vals.done(w) && red(old(self).theory(), v@, w@),
            fuel > 0 && old(self).vals.done(v) && (!neutral(v@) || fixed_head(
                old(self).theory(),
                v@,
            )) ==> r == Ok::<V, Stop>(v),
            r matches Ok(w) ==> settled(old(self).theory(), w@),
            ends(old(self).theory(), Task::Strip(v@), fuel as nat) ==> r is Ok,
            fuel > 0 && old(self).vals.done(v) && !old(self).vals.is_unfold(v) ==> r == Ok::<V, Stop>(v)
                && *final(self) == *old(self),
            r matches Ok(w) ==> (final(self).vals.is_unfold(w) ==> resting(old(self).theory(), w@)),
        decreases fuel,
    {
        let ghost th = self.theory();
        proof {
            red_refl(th, v@);
        }
        let mut cur = v;
        let mut left: u64 = fuel;
        let ghost mut went = false;
        while left > 0
            invariant
                left <= fuel,
                self.wf(),
                old(self).evolves(*self),
                self.theory() == th,
                th == old(self).theory(),
                self.vals.has_val(cur),
                red(th, v@, cur@),
                went ==> self.vals.done(cur),
                !went ==> *self == *old(self),
                went ==> !old(self).vals.done(v) || old(self).vals.is_unfold(v),
                !went ==> left == fuel && cur == v,
                ends(th, Task::Strip(v@), fuel as nat) ==> ends(
                    th,
                    if went {
                        Task::Stripped(cur@)
                    } else {
                        Task::Strip(cur@)
                    },
                    left as nat,
                ),
                old(self).vals.done(v) && (!neutral(v@) || fixed_head(th, v@)) ==> left == fuel && cur
                    == v
                    && self.vals.done(v),
            decreases left,
        {
            let ghost from = cur@;
            let ghost task = if went {
                Task::Stripped(cur@)
            } else {
                Task::Strip(cur@)
            };
            proof {
                ends_next(th, task, Task::Unfold(from), left as nat);
                ends_more(th, Task::Unfold(from), (left - 1) as nat, (fuel - 1) as nat);
                ends_next(th, task, Task::Thunk(from), left as nat);
            }
            left = left - 1;
            match self.read_val(cur) {
                Value::Thunk { .. } => {
                    let next = self.force_thunk(cur, fuel - 1)?;
                    proof {
                        red_trans(th, v@, cur@, next@);
                        ends_next(th, task, Task::Stripped(next@), (left + 1) as nat);
                        went = true;
                    }
                    cur = next;
                },
                Value::Unfold { name, levels, spine, .. } => {
                    proof {
                        crate::value::spine_neutral(Tm::Const(name@, levels@), spine@);
                        if fixed_head(th, cur@) {
                            fixed_spine(th, Tm::Const(name@, levels@), spine@);
                        }
                    }
                    let next = self.unfold_value(cur, fuel - 1)?;
                    if next.idx == cur.idx {
                        return Ok(cur);
                    }
                    proof {
                        red_trans(th, v@, cur@, next@);
                        ends_next(th, task, Task::Stripped(next@), (left + 1) as nat);
                        went = true;
                    }
                    cur = next;
                },
                Value::Rigid { head, spine } => {
                    proof {
                        rigid_settled(th, head, spine@);
                    }
                    return Ok(cur);
                },
                _ => {
                    return Ok(cur);
                },
            }
        }
        Err(Stop::OutOfFuel)
    }

    /// Whether the value is a recursor or an eliminator of quotients. Only variables and
    /// constants that things are done to are.
    pub fn is_iota_reducible(&self, v: V) -> (r: bool)
        requires
            self.wf(),
            self.vals.has_val(v),
        ensures
            self.vals.done(v) && r ==> neutral(v@),
            self.vals.done(v) && ctor_headed(self.theory(), v@) ==> !r,
            self.vals.done(v) && rec_headed(self.theory(), v@) ==> r,
            self.vals.done(v) && !r && quot_headed(self.theory(), v@) ==> quot_pos(
                self.theory().names,
                head(v@)->Const_0,
            ) is None,
    {
        let content = self.read_val(v);
        proof {
            if self.vals.done(v) && (ctor_headed(self.theory(), v@) || rec_headed(
                self.theory(),
                v@,
            )) {
                head_kind(self.theory(), content, v@);
            }
            if self.vals.done(v) && quot_headed(self.theory(), v@) {
                quot_kind(self.theory(), content, v@);
            }
        }
        match content {
            Value::Rigid { head, spine } => {
                proof {
                    self.rigid_is_neutral(v, head, spine);
                    self.ctx.known_names();
                }
                match head {
                    RigidHead::Recursor(_, _) => true,
                    RigidHead::QuotConst(name, _) => {
                        let cache = self.ctx.name_cache;
                        self.ctx.is_known(name, cache.quot_lift) || self.ctx.is_known(
                            name,
                            cache.quot_ind,
                        )
                    },
                    _ => false,
                }
            },
            _ => false,
        }
    }

    /// Fires a recursor or an eliminator of quotients whose major premise reduces to the
    /// given one.
    pub fn fire_value(&mut self, rec_val: V, major: V, fuel: u64) -> (r: Result<Option<V>, Stop>)
        requires
            old(self).wf(),
            old(self).vals.done(rec_val),
            old(self).vals.done(major),
        ensures
            final(self).wf(),
            old(self).evolves(*final(self)),
            r matches Ok(Some(w)) ==> final(self).vals.done(w) && (waits_for(
                old(self).theory(),
                rec_val@,
                major@,
            ) ==> red(old(self).theory(), rec_val@, w@) && fires(old(self).theory(), rec_val@, w@)),
            rec_headed(old(self).theory(), rec_val@) ==> (old(self).theory().recursor(
                head(rec_val@)->Const_0,
            ) matches Some(rec) ==> (args(rec_val@).len() > rec.major_pos() && by_rules(
                old(self).theory(),
                rec,
            ) && met(old(self).theory(), rec, major@) ==> !(r matches Ok(None)))),
            fuel > 0 && !neutral(rec_val@) ==> r == Ok::<Option<V>, Stop>(None),
            ends(old(self).theory(), Task::FireV(rec_val@, major@), fuel as nat) ==> r is Ok,
            r == Ok::<Option<V>, Stop>(None) && old(self).vals.node(rec_val) is Rigid && waits_for(
                old(self).theory(),
                rec_val@,
                major@,
            ) && resting(old(self).theory(), major@) && settled(old(self).theory(), rec_val@) ==> resting(
                old(self).theory(),
                rec_val@,
            ),
        decreases fuel,
    {
        if fuel == 0 {
            return Err(Stop::OutOfFuel);
        }
        let ghost th = self.theory();
        let content = self.read_val(rec_val);
        proof {
            if rec_headed(th, rec_val@) {
                head_kind(th, content, rec_val@);
            }
        }
        match content {
            Value::Rigid { head, spine } => {
                proof {
                    rigid_settled(th, head, spine@);
                    if waits_for(th, rec_val@, major@) {
                        spine_head(head.tm(), spine@);
                    }
                    self.rigid_is_neutral(rec_val, head, spine);
                }
                match head {
                    RigidHead::Recursor(name, levels) => {
                        let ghost f = Tm::Const(name@, levels@);
                        let rec = match self.get_recursor(name) {
                            Some(r) => r,
                            None => {
                                return Ok(None);
                            },
                        };
                        proof {
                            self.declared_name(name@);
                        }
                        proof {
                            root_els(f, spine@);
                            ends_next(th, Task::FireV(rec_val@, major@), Task::Spine(spine@), fuel as nat);
                        }
                        let xs = match self.spine_apps(spine, fuel - 1)? {
                            Some(xs) => xs,
                            None => {
                                return Ok(None);
                            },
                        };
                        let pos: usize = rec.major_idx();
                        if xs.len() <= pos {
                            return Ok(None);
                        }
                        proof {
                            args_of_spine(f, spine@);
                            ends_next(th, Task::FireV(rec_val@, major@), Task::FireRec(name@, levels@, vtms(xs@), major@), fuel as nat);
                        }
                        let out = self.fire_recursor(rec, levels, &xs, major, fuel - 1)?;
                        proof {
                            if let Some(w) = out {
                                if waits_for(th, rec_val@, major@) {
                                    let es = spine_args(spine@);
                                    let zs = vtms(xs@);
                                    spine_of_apps(f, spine@);
                                    const_apps(name@, levels@, es);
                                    red_args_but(th, f, es, zs, pos as int, major@);
                                    red_trans(
                                        th,
                                        rec_val@,
                                        apps(f, zs.update(pos as int, major@)),
                                        w@,
                                    );
                                    red_refl(th, w@);
                                    fires_between(
                                        th,
                                        rec_val@,
                                        apps(f, zs.update(pos as int, major@)),
                                        w@,
                                        w@,
                                    );
                                }
                            } else if waits_for(th, rec_val@, major@) && resting(th, major@) && settled(
                                th,
                                rec_val@,
                            ) {
                                recursor_rests(th, rec_val@, *rec, major@);
                            }
                        }
                        Ok(out)
                    },
                    RigidHead::QuotConst(name, levels) => {
                        let ghost f = Tm::Const(name@, levels@);
                        proof {
                            root_els(f, spine@);
                            ends_next(th, Task::FireV(rec_val@, major@), Task::Spine(spine@), fuel as nat);
                        }
                        let xs = match self.spine_apps(spine, fuel - 1)? {
                            Some(xs) => xs,
                            None => {
                                return Ok(None);
                            },
                        };
                        proof {
                            args_of_spine(f, spine@);
                            ends_next(th, Task::FireV(rec_val@, major@), Task::FireQuot(name@, vtms(xs@), major@), fuel as nat);
                        }
                        let out = self.fire_quot(name, &xs, major, fuel - 1)?;
                        proof {
                            if let Some(w) = out {
                                if waits_for(th, rec_val@, major@) {
                                    let es = spine_args(spine@);
                                    let zs = vtms(xs@);
                                    let p = quot_pos(th.names, name@)->0 as int;
                                    spine_of_apps(f, spine@);
                                    const_apps(name@, levels@, es);
                                    red_args_but(th, f, es, zs, p, major@);
                                    assert(red(
                                        th,
                                        apps(Tm::Const(name@, levels@), zs.update(p, major@)),
                                        w@,
                                    ));
                                    red_trans(
                                        th,
                                        rec_val@,
                                        apps(f, zs.update(p, major@)),
                                        w@,
                                    );
                                    red_refl(th, w@);
                                    assert(fires(
                                        th,
                                        apps(Tm::Const(name@, levels@), zs.update(p, major@)),
                                        w@,
                                    ));
                                    fires_between(
                                        th,
                                        rec_val@,
                                        apps(f, zs.update(p, major@)),
                                        w@,
                                        w@,
                                    );
                                }
                            } else if waits_for(th, rec_val@, major@) && resting(th, major@) && settled(
                                th,
                                rec_val@,
                            ) {
                                quotient_rests(th, rec_val@, quot_pos(th.names, name@)->0, major@);
                            }
                        }
                        Ok(out)
                    },
                    _ => {
                        proof {
                            if settled(th, rec_val@) {
                                plain_rests(th, content, rec_val@);
                            }
                        }
                        Ok(None)
                    },
                }
            },
            Value::Unfold { name, levels, spine, .. } => {
                proof {
                    crate::value::spine_neutral(Tm::Const(name@, levels@), spine@);
                }
                Ok(None)
            },
            _ => Ok(None),
        }
    }

    /// Unfolds the constant at the head of a value, or computes an operation on numbers.
    pub fn unfold_value(&mut self, v: V, fuel: u64) -> (r: Result<V, Stop>)
        requires
            old(self).wf(),
            old(self).vals.has_val(v),
        ensures
            final(self).wf(),
            old(self).evolves(*final(self)),
            r matches Ok(w) ==> final(self).vals.has_val(w) && red(old(self).theory(), v@, w@) && (
            old(self).vals.done(v) ==> final(self).vals.done(w)),
            fuel > 0 && old(self).vals.done(v) && !neutral(v@) ==> r == Ok::<V, Stop>(v),
            old(self).vals.done(v) ==> (r matches Ok(w) ==> (w.idx == v.idx ==> settled(
                old(self).theory(),
                v@,
            ))),
            ends(old(self).theory(), Task::Unfold(v@), fuel as nat) ==> r is Ok,
            !old(self).vals.is_unfold(v) && fuel > 0 ==> r == Ok::<V, Stop>(v),
            old(self).vals.done(v) ==> (r matches Ok(w) ==> (w.idx != v.idx ==> fires(
                old(self).theory(),
                v@,
                w@,
            ) && final(self).vals.unfolding(v) == Some(w))),
            fuel > 1 ==> (old(self).vals.unfolding(v) matches Some(w) ==> r == Ok::<V, Stop>(w)),
            old(self).vals.done(v) && old(self).vals.is_unfold(v) ==> (r matches Ok(w) ==> (w.idx == v.idx ==> resting(
                old(self).theory(),
                v@,
            ))),
        decreases fuel,
    {
        if fuel == 0 {
            return Err(Stop::OutOfFuel);
        }
        let ghost th = self.theory();
        proof {
            ends_next(th, Task::Unfold(v@), Task::UnfoldG(v@), fuel as nat);
        }
        self.unfold_value_go(v, false, fuel - 1)
    }

    /// Unfolds the constant at the head of a value. Outside of probes an operation on large
    /// numbers is unfolded too.
    pub fn unfold_value_demand(&mut self, v: V, fuel: u64) -> (r: Result<V, Stop>)
        requires
            old(self).wf(),
            old(self).vals.has_val(v),
        ensures
            final(self).wf(),
            old(self).evolves(*final(self)),
            r matches Ok(w) ==> final(self).vals.has_val(w) && red(old(self).theory(), v@, w@) && (
            old(self).vals.done(v) ==> final(self).vals.done(w)),
            fuel > 0 && old(self).vals.done(v) && !neutral(v@) ==> r == Ok::<V, Stop>(v),
            old(self).vals.done(v) ==> (r matches Ok(w) ==> (w.idx == v.idx ==> settled(
                old(self).theory(),
                v@,
            ))),
            ends(old(self).theory(), Task::Unfold(v@), fuel as nat) ==> r is Ok,
            !old(self).vals.is_unfold(v) && fuel > 0 ==> r == Ok::<V, Stop>(v),
            old(self).vals.done(v) ==> (r matches Ok(w) ==> (w.idx != v.idx ==> fires(
                old(self).theory(),
                v@,
                w@,
            ) && final(self).vals.unfolding(v) == Some(w))),
            fuel > 1 ==> (old(self).vals.unfolding(v) matches Some(w) ==> r == Ok::<V, Stop>(w)),
            old(self).vals.done(v) && old(self).vals.is_unfold(v) ==> (r matches Ok(w) ==> (w.idx == v.idx ==> resting(
                old(self).theory(),
                v@,
            ))),
        decreases fuel,
    {
        if fuel == 0 {
            return Err(Stop::OutOfFuel);
        }
        let ghost th = self.theory();
        proof {
            ends_next(th, Task::Unfold(v@), Task::UnfoldG(v@), fuel as nat);
        }
        let force = self.tc_cache.probe_depth == 0;
        self.unfold_value_go(v, force, fuel - 1)
    }

    #[verifier::rlimit(30)]
    fn unfold_value_go(&mut self, v: V, force: bool, fuel: u64) -> (r: Result<V, Stop>)
        requires
            old(self).wf(),
            old(self).vals.has_val(v),
        ensures
            final(self).wf(),
            old(self).evolves(*final(self)),
            r matches Ok(w) ==> final(self).vals.has_val(w) && red(old(self).theory(), v@, w@) && (
            old(self).vals.done(v) ==> final(self).vals.done(w)),
            old(self).vals.done(v) && !neutral(v@) ==> r == Ok::<V, Stop>(v),
            old(self).vals.done(v) ==> (r matches Ok(w) ==> (w.idx == v.idx ==> settled(
                old(self).theory(),
                v@,
            ) && (force ==> kept_whole(old(self).theory(), v@)))),
            ends(old(self).theory(), Task::UnfoldG(v@), fuel as nat) ==> r is Ok,
            !old(self).vals.is_unfold(v) ==> r == Ok::<V, Stop>(v),
            old(self).vals.done(v) ==> (r matches Ok(w) ==> (w.idx != v.idx ==> fires(
                old(self).theory(),
                v@,
                w@,
            ) && final(self).vals.unfolding(v) == Some(w))),
            fuel > 0 ==> (old(self).vals.unfolding(v) matches Some(w) ==> r == Ok::<V, Stop>(w)),
            old(self).vals.done(v) && old(self).vals.is_unfold(v) ==> (r matches Ok(w) ==> (w.idx == v.idx ==> resting(
                old(self).theory(),
                v@,
            ))),
        decreases fuel,
    {
        let ghost th = self.theory();
        proof {
            red_refl(th, v@);
        }
        match self.read_val(v) {
            Value::Unfold { name, levels, spine, head_value, forced } => {
                let ghost h = Tm::Const(name@, levels@);
                proof {
                    crate::value::spine_neutral(h, spine@);
                }
                if fuel == 0 {
                    return Err(Stop::OutOfFuel);
                }
                if let Some(w) = self.vals.read_cell(forced, Ghost(v@)) {
                    assert(self.vals.fit(self.ctx, th));
                    proof {
                        if w.idx == v.idx {
                            self.vals.vals_at(w, v);
                            unfold_plain(th, name@, levels@, spine@);
                        }
                    }
                    return Ok(w);
                }
                proof {
                    root_els(h, spine@);
                    ends_next(th, Task::UnfoldG(v@), Task::Spine(spine@), fuel as nat);
                    ends_next(th, Task::UnfoldG(v@), Task::UnfoldC(name@, levels@), fuel as nat);
                }
                if self.ctx.nat_extension && self.is_nat_red_name(name) {
                    if let Some(xs) = self.spine_apps(spine, fuel - 1)? {
                        proof {
                            args_of_spine(h, spine@);
                            ends_next(th, Task::UnfoldG(v@), Task::NatRed(name@, vtms(xs@), true), fuel as nat);
                            ends_next(th, Task::UnfoldG(v@), Task::Defer(vtms(xs@)), fuel as nat);
                        }
                        if let Some(w) = self.do_nat_red(name, &xs, fuel - 1)? {
                            proof {
                                assert(red(th, apps(Tm::Const(name@, levels@), vtms(xs@)), w@));
                                nat_unfolds(th, name@, levels@, spine@, vtms(xs@), w@);
                            }
                            let out = self.settle(v, forced, w);
                            proof {
                                if out.idx == v.idx {
                                    unfold_plain(th, name@, levels@, spine@);
                                }
                            }
                            return Ok(out);
                        }
                        if !force && self.nat_red_defer(name, &xs, fuel - 1)? {
                            proof {
                                unfold_settled(th, name@, levels@, spine@, vtms(xs@));
                            }
                            return Ok(v);
                        }
                    }
                }
                match self.unfold_const(name, levels, fuel - 1)? {
                    Some(hv) => {
                        self.keep(head_value, hv, Ghost(h));
                        proof {
                            ends_next(th, Task::UnfoldG(v@), Task::Elim(hv@, spine@), fuel as nat);
                        }
                        let w = self.eliminate(hv, spine, fuel - 1)?;
                        proof {
                            body_unfolds(th, name@, levels@, spine@, hv@, w@);
                        }
                        let out = self.settle(v, forced, w);
                        proof {
                            if out.idx == v.idx {
                                unfold_plain(th, name@, levels@, spine@);
                            }
                        }
                        Ok(out)
                    },
                    None => {
                        proof {
                            unfold_whole(th, name@, levels@, spine@);
                            unfold_plain(th, name@, levels@, spine@);
                        }
                        Ok(v)
                    },
                }
            },
            Value::Rigid { head, spine } => {
                proof {
                    rigid_settled(th, head, spine@);
                }
                Ok(v)
            },
            _ => Ok(v),
        }
    }

    /// Keeps what the definition at the head of a value unfolds to.
    fn settle(&mut self, v: V, forced: usize, w: V) -> (r: V)
        requires
            old(self).wf(),
            old(self).vals.done(v),
            old(self).vals.done(w),
            old(self).vals.holds_at(v, forced),
            old(self).vals.has_fired(forced, v@),
            red(old(self).theory(), v@, w@),
            fires(old(self).theory(), v@, w@),
        ensures
            final(self).wf(),
            old(self).evolves(*final(self)),
            final(self).vals.done(r),
            red(old(self).theory(), v@, r@),
            fires(old(self).theory(), v@, r@),
            final(self).vals.unfolding(v) == Some(r),
            r.idx == v.idx ==> r@ == v@,
    {
        let out = self.keep(forced, w, Ghost(v@));
        proof {
            assert(self.vals.holds_at(v, forced));
            if out.idx == v.idx {
                self.vals.vals_at(out, v);
            }
        }
        out
    }

    /// Does to a value what is done in a spine.
    fn eliminate(&mut self, v: V, spine: S, fuel: u64) -> (r: Result<V, Stop>)
        requires
            old(self).wf(),
            old(self).vals.done(v),
            old(self).vals.has_spine(spine),
        ensures
            final(self).wf(),
            old(self).evolves(*final(self)),
            r matches Ok(w) ==> final(self).vals.done(w) && red(
                old(self).theory(),
                spine_tm(v@, spine@),
                w@,
            ),
            fuel > 0 && spine@.len() == 0 ==> r == Ok::<V, Stop>(v),
            ends(old(self).theory(), Task::Elim(v@, spine@), fuel as nat) ==> r is Ok,
        decreases fuel,
    {
        if fuel == 0 {
            return Err(Stop::OutOfFuel);
        }
        let ghost th = self.theory();
        let es = self.spine_elims(spine);
        let n: usize = es.len();
        let ghost all = spine@;
        let mut cur = v;
        let mut i: usize = 0;
        proof {
            red_refl(th, spine_tm(v@, all));
            assert(all.skip(0) =~= all);
            red_refl(th, v@);
            assert(all.take(0) =~= Seq::<El>::empty());
        }
        while i < n
            invariant
                fuel > 0,
                i <= n,
                n == es@.len(),
                all == elims(es@),
                all == spine@,
                self.wf(),
                old(self).evolves(*self),
                self.theory() == th,
                th == old(self).theory(),
                self.vals.done(cur),
                i == 0 ==> cur == v,
                forall|j: int|
                    0 <= j < es@.len() ==> self.vals.elim_fits(self.ctx, #[trigger] es@[j]),
                red(th, spine_tm(v@, all), spine_tm(cur@, all.skip(i as int))),
                red(th, spine_tm(v@, all.take(i as int)), cur@),
            decreases n - i,
        {
            assert(self.vals.elim_fits(self.ctx, es@[i as int]));
            let ghost rest = all.skip(i as int);
            proof {
                assert(all[i as int] == es@[i as int].el());
                match es@[i as int] {
                    Elim::App(a) => {
                        ends_next(th, Task::Elim(v@, all), Task::Apply(cur@, a@), fuel as nat);
                    },
                    Elim::Proj { ty_name, idx } => {
                        ends_next(th, Task::Elim(v@, all), Task::ProjV(ty_name@, idx as nat, cur@), fuel as nat);
                    },
                }
            }
            let next = match es[i] {
                Elim::App(a) => self.apply(cur, a, fuel - 1)?,
                Elim::Proj { ty_name, idx } => self.do_proj(ty_name, idx, cur, fuel - 1)?,
            };
            proof {
                assert(rest[0] == es@[i as int].el());
                spine_front(cur@, rest);
                let e = all[i as int];
                assert(all.take(i + 1) =~= all.take(i as int).push(e));
                spine_push(v@, all.take(i as int), e);
                red_spine_head(th, spine_tm(v@, all.take(i as int)), cur@, seq![e]);
                spine_push(spine_tm(v@, all.take(i as int)), Seq::empty(), e);
                spine_push(cur@, Seq::empty(), e);
                assert(Seq::<El>::empty().push(e) =~= seq![e]);
                red_trans(th, spine_tm(v@, all.take(i + 1)), elim_tm(cur@, e), next@);
                assert(rest.drop_first() =~= all.skip(i + 1));
                red_spine_head(th, elim_tm(cur@, rest[0]), next@, all.skip(i + 1));
                red_trans(
                    th,
                    spine_tm(v@, all),
                    spine_tm(cur@, rest),
                    spine_tm(next@, all.skip(i + 1)),
                );
            }
            cur = next;
            i = i + 1;
        }
        assert(all.skip(n as int) =~= Seq::<El>::empty());
        Ok(cur)
    }

    /// What a recursor or an eliminator of quotients reduces to.
    pub fn iota_value(&mut self, v: V, fuel: u64) -> (r: Result<Option<V>, Stop>)
        requires
            old(self).wf(),
            old(self).vals.done(v),
        ensures
            final(self).wf(),
            old(self).evolves(*final(self)),
            r matches Ok(Some(w)) ==> final(self).vals.done(w) && red(
                old(self).theory(),
                v@,
                w@,
            ) && fires(old(self).theory(), v@, w@),
            ready(old(self).theory(), v@) ==> !(r matches Ok(None)),
            fuel > 0 && (!neutral(v@) || still(old(self).theory(), v@)) ==> r is Ok,
            ends(old(self).theory(), Task::IotaV(v@), fuel as nat) ==> r is Ok,
            r == Ok::<Option<V>, Stop>(None) && old(self).vals.node(v) is Rigid ==> resting(
                old(self).theory(),
                v@,
            ),
        decreases fuel,
    {
        if fuel == 0 {
            return Err(Stop::OutOfFuel);
        }
        let ghost th = self.theory();
        if self.is_stuck(v) {
            return Ok(None);
        }
        if let Some(c) = self.recall_iota(v) {
            return Ok(Some(c));
        }
        let content = self.read_val(v);
        proof {
            if ready(th, v@) {
                head_kind(th, content, v@);
            }
            if let Value::Rigid { head, spine } = content {
                rigid_settled(th, head, spine@);
                self.rigid_is_neutral(v, head, spine);
                if !(head is Recursor) && !(head is QuotConst) {
                    plain_rests(th, content, v@);
                }
                if !all_apps(spine@) {
                    idle_rests_proj(th, content, v@);
                }
                if still(th, v@) {
                    fixed_spine(th, head.tm(), spine@);
                }
            }
        }
        let out = match content {
            Value::Rigid { head, spine } => match head {
                RigidHead::Recursor(name, levels) => {
                    proof {
                        root_els(Tm::Const(name@, levels@), spine@);
                        ends_next(th, Task::IotaV(v@), Task::Spine(spine@), fuel as nat);
                    }
                    let xs = match self.spine_apps(spine, fuel - 1)? {
                        Some(xs) => xs,
                        None => {
                            return Ok(None);
                        },
                    };
                    proof {
                        if ready(th, v@) {
                            let r = th.recursor(name@)->0;
                            let p = r.major_pos() as int;
                            assert(red(th, spine_args(spine@)[p], vtms(xs@)[p]));
                            met_stays(th, r, spine_args(spine@)[p], vtms(xs@)[p]);
                        }
                    }
                    proof {
                        args_of_spine(Tm::Const(name@, levels@), spine@);
                        ends_next(th, Task::IotaV(v@), Task::DoRec(name@, levels@, vtms(xs@)), fuel as nat);
                    }
                    let w = self.do_recursor_iota(name, levels, &xs, fuel - 1)?;
                    proof {
                        if let Some(w) = w {
                            let f = Tm::Const(name@, levels@);
                            red_spine_apps(th, f, spine@, vtms(xs@));
                            red_trans(th, v@, apps(f, vtms(xs@)), w@);
                            red_refl(th, w@);
                            assert(fires(th, apps(Tm::Const(name@, levels@), vtms(xs@)), w@));
                            fires_between(th, v@, apps(f, vtms(xs@)), w@, w@);
                        } else {
                            let rec = th.recursor(name@)->0;
                            let p = rec.major_pos() as int;
                            if xs@.len() > p {
                                let m = choose|m: Tm| #[trigger]
                                    red(th, vtms(xs@)[p], m) && resting(th, m) && unfired(th, rec, m);
                                assert(red(th, args(v@)[p], vtms(xs@)[p]));
                                red_trans(th, args(v@)[p], vtms(xs@)[p], m);
                                recursor_rests(th, v@, rec, m);
                            } else {
                                idle_rests(th, content, v@);
                            }
                        }
                    }
                    w
                },
                RigidHead::QuotConst(name, levels) => {
                    proof {
                        root_els(Tm::Const(name@, levels@), spine@);
                        ends_next(th, Task::IotaV(v@), Task::Spine(spine@), fuel as nat);
                    }
                    let xs = match self.spine_apps(spine, fuel - 1)? {
                        Some(xs) => xs,
                        None => {
                            return Ok(None);
                        },
                    };
                    proof {
                        args_of_spine(Tm::Const(name@, levels@), spine@);
                        ends_next(th, Task::IotaV(v@), Task::DoQuot(name@, vtms(xs@)), fuel as nat);
                    }
                    let w = self.do_quot_iota(name, &xs, fuel - 1)?;
                    proof {
                        if let Some(w) = w {
                            let f = Tm::Const(name@, levels@);
                            red_spine_apps(th, f, spine@, vtms(xs@));
                            assert(red(th, apps(Tm::Const(name@, levels@), vtms(xs@)), w@));
                            red_trans(th, v@, apps(f, vtms(xs@)), w@);
                            red_refl(th, w@);
                            assert(fires(th, apps(Tm::Const(name@, levels@), vtms(xs@)), w@));
                            fires_between(th, v@, apps(f, vtms(xs@)), w@, w@);
                        } else if th.is_quot(name@) && quot_pos(th.names, name@) is Some && quot_pos(
                            th.names,
                            name@,
                        )->0 < xs@.len() {
                            let p = quot_pos(th.names, name@)->0 as int;
                            let q = choose|q: Tm| #[trigger]
                                red(th, vtms(xs@)[p], q) && resting(th, q) && !class_member(th, q);
                            assert(red(th, args(v@)[p], vtms(xs@)[p]));
                            red_trans(th, args(v@)[p], vtms(xs@)[p], q);
                            quotient_rests(th, v@, p as nat, q);
                        } else {
                            idle_rests(th, content, v@);
                        }
                    }
                    w
                },
                _ => None,
            },
            _ => None,
        };
        match out {
            None => {
                self.remember_stuck(v);
            },
            Some(w) => {
                self.remember_iota(v, w);
            },
        }
        Ok(out)
    }

    /// The value that a constant unfolds to.
    pub fn unfold_const(&mut self, name: NamePtr, levels: LevelsPtr, fuel: u64) -> (r: Result<
        Option<V>,
        Stop,
    >)
        requires
            old(self).wf(),
            old(self).ctx.has_name(name),
            old(self).ctx.has_levels(levels),
        ensures
            final(self).wf(),
            old(self).evolves(*final(self)),
            r matches Ok(Some(v)) ==> final(self).vals.done(v) && red(
                old(self).theory(),
                Tm::Const(name@, levels@),
                v@,
            ),
            r matches Ok(Some(v)) ==> (old(self).theory().delta(name@, levels@) matches Some(d) && red(
                old(self).theory(),
                d,
                v@,
            )),
            r matches Ok(None) ==> old(self).theory().delta(name@, levels@) is None,
            old(self).theory().delta(name@, levels@) is None ==> r == Ok::<Option<V>, Stop>(None),
            r matches Ok(Some(v)) ==> (final(self).vcache.unfold_const_cache.at(
                crate::vcache::mixed(name.word(), levels.word()),
            ) matches Some((k, x)) && k.0@ == name@ && k.1@ == levels@ && x == v),
            fuel > 0 && old(self).theory().delta(name@, levels@) is Some ==> (old(self).vcache.unfold_const_cache.at(
                crate::vcache::mixed(name.word(), levels.word()),
            ) matches Some((k, x)) ==> (k.0@ == name@ && k.1@ == levels@ ==> r == Ok::<
                Option<V>,
                Stop,
            >(Some(x)))),
            ends(old(self).theory(), Task::UnfoldC(name@, levels@), fuel as nat) ==> r is Ok,
        decreases fuel,
    {
        let ghost th = self.theory();
        let (params, value) = match self.get_declar_val(name) {
            Some(p) => p,
            None => {
                return Ok(None);
            },
        };
        if self.ctx.read_levels(levels).len() != self.ctx.read_levels(params).len() {
            return Ok(None);
        }
        proof {
            if let Some(d) = th.delta(name@, levels@) {
                ends_next(th, Task::UnfoldC(name@, levels@), Task::Closed(d), fuel as nat);
            }
        }
        if fuel == 0 {
            return Err(Stop::OutOfFuel);
        }
        if let Some(v) = self.recall_unfolded(name, levels) {
            return Ok(Some(v));
        }
        let body = self.ctx.subst_expr_levels(value, params, levels);
        match self.eval_closed(body, fuel - 1) {
            Ok(v) => {
                proof {
                    red_step(th, Tm::Const(name@, levels@), body@);
                    red_trans(th, Tm::Const(name@, levels@), body@, v@);
                }
                self.remember_unfolded(name, levels, v);
                Ok(Some(v))
            },
            Err(s) => Err(s),
        }
    }

    /// What a recursor that is applied to arguments reduces to.
    pub fn do_recursor_iota(
        &mut self,
        name: NamePtr,
        levels: LevelsPtr,
        xs: &Vec<V>,
        fuel: u64,
    ) -> (r: Result<Option<V>, Stop>)
        requires
            old(self).wf(),
            old(self).ctx.has_name(name),
            old(self).ctx.has_levels(levels),
            old(self).vals.all_done(xs@),
        ensures
            final(self).wf(),
            old(self).evolves(*final(self)),
            r matches Ok(Some(w)) ==> final(self).vals.done(w) && red(
                old(self).theory(),
                apps(Tm::Const(name@, levels@), vtms(xs@)),
                w@,
            ) && fires(
                old(self).theory(),
                apps(Tm::Const(name@, levels@), vtms(xs@)),
                w@,
            ),
            match old(self).theory().recursor(name@) {
                Some(rec) => xs@.len() <= rec.major_pos(),
                None => true,
            } ==> r == Ok::<Option<V>, Stop>(None),
            old(self).theory().recursor(name@) matches Some(rec) ==> (by_rules(
                old(self).theory(),
                rec,
            ) && xs@.len() > rec.major_pos() && met(
                old(self).theory(),
                rec,
                xs@[rec.major_pos() as int]@,
            ) ==> !(r matches Ok(None))),
            old(self).theory().recursor(name@) matches Some(rec) ==> (fuel > 3 && !rec.is_k
                && xs@.len() > rec.major_pos() && zero_case(
                old(self).theory(),
                rec,
                xs@.len(),
                xs@[rec.major_pos() as int]@,
            ) ==> r == Ok::<Option<V>, Stop>(Some(xs@[rec.num_params + rec.num_motives]))),
            ends(old(self).theory(), Task::DoRec(name@, levels@, vtms(xs@)), fuel as nat) ==> r is Ok,
            r == Ok::<Option<V>, Stop>(None) ==> (old(self).theory().recursor(name@) matches Some(rec) ==> (
            xs@.len() > rec.major_pos() ==> exists|m: Tm| #[trigger]
                red(old(self).theory(), vtms(xs@)[rec.major_pos() as int], m) && resting(
                    old(self).theory(),
                    m,
                ) && unfired(old(self).theory(), rec, m))),
        decreases fuel,
    {
        let ghost th = self.theory();
        let ghost f = Tm::Const(name@, levels@);
        let ghost zs = vtms(xs@);
        let rec = match self.get_recursor(name) {
            Some(r) => r,
            None => {
                return Ok(None);
            },
        };
        proof {
            self.declared_name(name@);
        }
        let pos: usize = rec.major_idx();
        if xs.len() <= pos {
            return Ok(None);
        }
        if fuel == 0 {
            return Err(Stop::OutOfFuel);
        }
        proof {
            ends_next(th, Task::DoRec(name@, levels@, zs), Task::KPre(name@, levels@, zs), fuel as nat);
            ends_next(th, Task::DoRec(name@, levels@, zs), Task::Whnf(zs[pos as int]), fuel as nat);
        }
        if let Some(w) = self.k_pre_reduce(rec, levels, xs, fuel - 1)? {
            return Ok(Some(w));
        }
        assert(self.vals.done(xs@[pos as int]));
        let major = self.whnf_head(xs[pos], fuel - 1)?;
        proof {
            if met(th, *rec, xs@[pos as int]@) {
                met_stays(th, *rec, xs@[pos as int]@, major@);
            }
        }
        proof {
            ends_next(th, Task::DoRec(name@, levels@, zs), Task::FireRec(name@, levels@, zs, major@), fuel as nat);
        }
        let out = self.fire_recursor(rec, levels, xs, major, fuel - 1)?;
        proof {
            if let Some(w) = out {
                red_apps_at(th, f, zs, pos as int, major@);
                red_trans(th, apps(f, zs), apps(f, zs.update(pos as int, major@)), w@);
                red_refl(th, w@);
                fires_between(th, apps(f, zs), apps(f, zs.update(pos as int, major@)), w@, w@);
            } else {
                assert(red(th, zs[pos as int], major@));
            }
        }
        Ok(out)
    }

    /// What a recursor for a type whose only constructor carries no data reduces to, with the
    /// major premise as it is.
    pub fn k_pre_reduce(&mut self, rec: &RecursorData, levels: LevelsPtr, xs: &Vec<V>, fuel: u64) -> (r:
        Result<Option<V>, Stop>)
        requires
            old(self).wf(),
            old(self).theory().recursor(rec.info.name@) == Some(*rec),
            old(self).ctx.has_declar(Declar::Recursor(*rec)),
            old(self).ctx.has_levels(levels),
            old(self).vals.all_done(xs@),
            xs@.len() > rec.major_pos(),
        ensures
            final(self).wf(),
            old(self).evolves(*final(self)),
            r matches Ok(Some(w)) ==> final(self).vals.done(w) && red(
                old(self).theory(),
                apps(Tm::Const(rec.info.name@, levels@), vtms(xs@)),
                w@,
            ) && fires(
                old(self).theory(),
                apps(Tm::Const(rec.info.name@, levels@), vtms(xs@)),
                w@,
            ),
            !rec.is_k ==> r == Ok::<Option<V>, Stop>(None),
            ends(old(self).theory(), Task::KPre(rec.info.name@, levels@, vtms(xs@)), fuel as nat) ==> r is Ok,
        decreases fuel,
    {
        let ghost th = self.theory();
        let ghost f = Tm::Const(rec.info.name@, levels@);
        let ghost zs = vtms(xs@);
        if !rec.is_k {
            return Ok(None);
        }
        if fuel == 0 {
            return Err(Stop::OutOfFuel);
        }
        let pos: usize = rec.major_idx();
        assert(self.vals.done(xs@[pos as int]));
        let raw = xs[pos];
        proof {
            ends_next(th, Task::KPre(rec.info.name@, levels@, zs), Task::K(rec.info.name@, raw@), fuel as nat);
        }
        let ctor = match self.try_k_reduce(raw, rec, fuel - 1)? {
            Some(c) => c,
            None => {
                return Ok(None);
            },
        };
        proof {
            ends_next(th, Task::KPre(rec.info.name@, levels@, zs), Task::FireRec(rec.info.name@, levels@, zs, ctor@), fuel as nat);
        }
        let out = self.fire_recursor(rec, levels, xs, ctor, fuel - 1)?;
        proof {
            if let Some(w) = out {
                let p = rec.major_pos() as int;
                assert(zs[p] == raw@);
                assert(red(
                    th,
                    apps(f, zs),
                    apps(Tm::Const(rec.info.name@, levels@), zs.update(p, ctor@)),
                ));
                red_trans(th, apps(f, zs), apps(f, zs.update(p, ctor@)), w@);
                red_refl(th, w@);
                fires_between(th, apps(f, zs), apps(f, zs.update(p, ctor@)), w@, w@);
            }
        }
        Ok(out)
    }

    /// What a recursor whose major premise is the given one reduces to.
    pub fn fire_recursor(
        &mut self,
        rec: &RecursorData,
        levels: LevelsPtr,
        xs: &Vec<V>,
        major: V,
        fuel: u64,
    ) -> (r: Result<Option<V>, Stop>)
        requires
            old(self).wf(),
            old(self).theory().recursor(rec.info.name@) == Some(*rec),
            old(self).ctx.has_declar(Declar::Recursor(*rec)),
            old(self).ctx.has_levels(levels),
            old(self).vals.all_done(xs@),
            xs@.len() > rec.major_pos(),
            old(self).vals.done(major),
        ensures
            final(self).wf(),
            old(self).evolves(*final(self)),
            r matches Ok(Some(w)) ==> final(self).vals.done(w) && red(
                old(self).theory(),
                apps(
                    Tm::Const(rec.info.name@, levels@),
                    vtms(xs@).update(rec.major_pos() as int, major@),
                ),
                w@,
            ) && fires(
                old(self).theory(),
                apps(
                    Tm::Const(rec.info.name@, levels@),
                    vtms(xs@).update(rec.major_pos() as int, major@),
                ),
                w@,
            ),
            by_rules(old(self).theory(), *rec) && met(old(self).theory(), *rec, major@) ==> !(
            r matches Ok(None)),
            fuel > 2 && zero_case(old(self).theory(), *rec, xs@.len(), major@) ==> r == Ok::<
                Option<V>,
                Stop,
            >(Some(xs@[rec.num_params + rec.num_motives])),
            ends(old(self).theory(), Task::FireRec(rec.info.name@, levels@, vtms(xs@), major@), fuel as nat) ==> r is Ok,
            !rec.is_k && ctor_headed(old(self).theory(), major@) ==> (r matches Ok(o)
                ==> fired(old(self).theory(), *rec, levels@, vtms(xs@), major@, o)),
            r == Ok::<Option<V>, Stop>(None) ==> unfired(old(self).theory(), *rec, major@),
        decreases fuel,
    {
        if fuel == 0 {
            return Err(Stop::OutOfFuel);
        }
        let ghost th = self.theory();
        let ghost f = Tm::Const(rec.info.name@, levels@);
        let ghost p = rec.major_pos() as int;
        let ghost zs = vtms(xs@);
        proof {
            self.ctx.known_names();
        }
        if self.ctx.nat_extension && rec.all_inductives.len() > 0 {
            assert(self.ctx.has_name(rec.all_inductives@[0]));
            if self.ctx.is_known(rec.all_inductives[0], self.ctx.name_cache.nat) {
                if let Value::NatLit { ptr } = self.read_val(major) {
                    proof {
                        ends_next(th, Task::FireRec(rec.info.name@, levels@, zs, major@), Task::NatRec(rec.info.name@, levels@, zs, ptr@), fuel as nat);
                    }
                    let w = self.nat_rec_natlit(xs, ptr, rec, levels, fuel - 1)?;
                    return Ok(Some(w));
                }
            }
        }
        proof {
            ends_next(th, Task::FireRec(rec.info.name@, levels@, zs, major@), Task::AsCtor(rec.info.name@, major@), fuel as nat);
        }
        proof {
            if ctor_headed(th, major@) {
                assert(head(major@) is Const);
                assert(!(major@ is NatLit) && !(major@ is StrLit));
            }
        }
        proof {
            self.vals.done_evaluated(self.ctx, th, major);
        }
        let ctor = self.major_as_ctor(rec, major, fuel - 1)?;
        proof {
            if by_rules(th, *rec) && met(th, *rec, major@) && ctor != major {
                assert(k_made(th, *rec, ctor@));
                assert(ctor_headed(th, ctor@));
            }
        }
        proof {
            ends_next(th, Task::FireRec(rec.info.name@, levels@, zs, major@), Task::UnwrapC(ctor@), fuel as nat);
        }
        let (ctor_name, ys) = match self.unwrap_ctor_app(ctor, fuel - 1)? {
            Some(p) => p,
            None => {
                return Ok(None);
            },
        };
        let ghost ls = choose|ls: Seq<Lv>| #[trigger]
            red(th, ctor@, apps(Tm::Const(ctor_name@, ls), vtms(ys@)));
        let rule = match self.find_rule(&rec.rec_rules, ctor_name) {
            Some(r) => r,
            None => {
                return Ok(None);
            },
        };
        let ghost i = choose|i: int| #[trigger]
            rule_for(rec.rec_rules@, ctor_name@, i) && rec.rec_rules@[i] == rule;
        let size: usize = rule.ctor_telescope_size_wo_params as usize;
        proof {
            assert(forall|k: int| #[trigger] rule_for(rec.rec_rules@, ctor_name@, k) ==> k == i) by {
                assert forall|k: int| #[trigger] rule_for(rec.rec_rules@, ctor_name@, k) implies k == i by {
                    if k < i {
                        assert(rec.rec_rules@[k].ctor_name@ != ctor_name@);
                    }
                    if i < k {
                        assert(rec.rec_rules@[i].ctor_name@ != ctor_name@);
                    }
                }
            }
        }
        if ys.len() < size {
            return Ok(None);
        }
        proof {
            assert(rule_for(rec.rec_rules@, ctor_name@, i));
            assert(rule_for(th.recursor(rec.info.name@)->0.rec_rules@, ctor_name@, i));
            assert(red(th, ctor@, apps(Tm::Const(ctor_name@, ls), vtms(ys@))));
            assert(taken_for(th, rec.info.name@, major@, ctor_name@, vtms(ys@)));
            poses_rule(th, rec.info.name@, levels@, zs, major@, i, ctor_name@, vtms(ys@));
            ends_next(th, Task::FireRec(rec.info.name@, levels@, zs, major@), Task::Apprule(rec.info.name@, levels@, i, zs, vtms(ys@)), fuel as nat);
        }
        let w = self.rule_applied(rec, rule, Ghost(i), levels, xs, &ys, fuel - 1)?;
        proof {
            let ts = vtms(ys@);
            let c = apps(Tm::Const(ctor_name@, ls), ts);
            let start = zs.update(p, major@);
            assert(start.update(p, ctor@) =~= zs.update(p, ctor@));
            assert(red(
                th,
                apps(f, start),
                apps(Tm::Const(rec.info.name@, levels@), start.update(p, ctor@)),
            ));
            let mid = zs.update(p, ctor@);
            red_apps_at(th, f, mid, p, c);
            let ws = zs.update(p, c);
            assert(mid.update(p, c) =~= ws);
            red_trans(th, apps(f, start), apps(f, mid), apps(f, ws));
            red_iota(th, rec.info.name@, levels@, ws, *rec, i, ctor_name@, ls, ts);
            let out = iota_result(*rec, rule, levels@, ws, ts);
            assert(ws.take(rec.num_fixed() as int) =~= zs.take(rec.num_fixed() as int));
            assert(ws.skip(p + 1) =~= zs.skip(p + 1));
            red_trans(th, apps(f, start), apps(f, ws), out);
            red_trans(th, apps(f, start), out, w@);
            fires_by(th, apps(f, start), apps(f, ws), out, w@);
            assert(out == iota_result(*rec, rule, levels@, zs, ts));
            if !rec.is_k && ctor_headed(th, major@) {
                assert(crate::work::argued(th, major@, ts));
                assert(fired_by(th, *rec, levels@, zs, i, major@, w@));
            }
        }
        Ok(Some(w))
    }

    /// The major premise as a constructor, as far as it can be made one.
    fn major_as_ctor(&mut self, rec: &RecursorData, major: V, fuel: u64) -> (r: Result<V, Stop>)
        requires
            old(self).wf(),
            old(self).ctx.has_declar(Declar::Recursor(*rec)),
            old(self).theory().recursor(rec.info.name@) == Some(*rec),
            old(self).vals.done(major),
        ensures
            final(self).wf(),
            old(self).evolves(*final(self)),
            r matches Ok(c) ==> final(self).vals.done(c) && replaces_major(
                old(self).theory(),
                *rec,
                major@,
                c@,
            ),
            !rec.is_k && (ctor_app(old(self).theory(), major@) || (major_induct(*rec) matches Some(n) ==> !old(
                self,
            ).theory().is_struct(n))) && !(major@ is NatLit) && !(major@ is StrLit) ==> (r matches Ok(c)
                ==> c == major),
            r matches Ok(c) ==> if c == major {
                unexpanded(old(self).theory(), *rec, major@) || expands(
                    old(self).theory(),
                    *rec,
                    major@,
                    c@,
                )
            } else {
                expands(old(self).theory(), *rec, major@, c@)
            },
            ends(old(self).theory(), Task::AsCtor(rec.info.name@, major@), fuel as nat) ==> r is Ok,
        decreases fuel,
    {
        if fuel == 0 {
            return Err(Stop::OutOfFuel);
        }
        let ghost th = self.theory();
        proof {
            replaces_same(th, *rec, major@);
        }
        proof {
            ends_next(th, Task::AsCtor(rec.info.name@, major@), Task::ToCtor(major@), fuel as nat);
            ends_next(th, Task::AsCtor(rec.info.name@, major@), Task::K(rec.info.name@, major@), fuel as nat);
            ends_next(th, Task::AsCtor(rec.info.name@, major@), Task::Eta(rec.info.name@, major@), fuel as nat);
        }
        if let Some(c) = self.major_to_ctor(major, fuel - 1)? {
            proof {
                replaces_red(th, *rec, major@, c@);
            }
            return Ok(c);
        }
        if let Some(c) = self.try_k_reduce(major, rec, fuel - 1)? {
            return Ok(c);
        }
        if let Some(c) = self.try_struct_eta_reduce(major, rec, fuel - 1)? {
            return Ok(c);
        }
        Ok(major)
    }

    /// The first rule for a constructor.
    pub fn find_rule(&self, rules: &Vec<RecRule>, ctor: NamePtr) -> (r: Option<RecRule>)
        requires
            self.wf(),
            self.ctx.has_name(ctor),
            forall|i: int|
                0 <= i < rules@.len() ==> self.ctx.has_name((#[trigger] rules@[i]).ctor_name),
        ensures
            match r {
                Some(rule) => exists|i: int| #[trigger]
                    rule_for(rules@, ctor@, i) && rules@[i] == rule,
                None => forall|i: int|
                    0 <= i < rules@.len() ==> (#[trigger] rules@[i]).ctor_name@ != ctor@,
            },
    {
        let mut i: usize = 0;
        while i < rules.len()
            invariant
                i <= rules@.len(),
                self.wf(),
                self.ctx.has_name(ctor),
                forall|j: int|
                    0 <= j < rules@.len() ==> self.ctx.has_name((#[trigger] rules@[j]).ctor_name),
                forall|j: int| 0 <= j < i ==> (#[trigger] rules@[j]).ctor_name@ != ctor@,
            decreases rules@.len() - i,
        {
            assert(self.ctx.has_name(rules@[i as int].ctor_name));
            if self.ctx.eq_name(rules[i].ctor_name, ctor) {
                assert(rule_for(rules@, ctor@, i as int));
                return Some(rules[i]);
            }
            i = i + 1;
        }
        None
    }

    fn rule_applied(
        &mut self,
        rec: &RecursorData,
        rule: RecRule,
        Ghost(i): Ghost<int>,
        levels: LevelsPtr,
        xs: &Vec<V>,
        ys: &Vec<V>,
        fuel: u64,
    ) -> (r: Result<V, Stop>)
        requires
            old(self).wf(),
            old(self).ctx.has_declar(Declar::Recursor(*rec)),
            old(self).theory().recursor(rec.info.name@) == Some(*rec),
            0 <= i < rec.rec_rules@.len(),
            rec.rec_rules@[i] == rule,
            old(self).ctx.has_levels(levels),
            old(self).vals.all_done(xs@),
            old(self).vals.all_done(ys@),
            xs@.len() > rec.major_pos(),
            ys@.len() >= rule.ctor_telescope_size_wo_params,
        ensures
            final(self).wf(),
            old(self).evolves(*final(self)),
            r matches Ok(w) ==> final(self).vals.done(w) && red(
                old(self).theory(),
                iota_result(*rec, rule, levels@, vtms(xs@), vtms(ys@)),
                w@,
            ),
            ends(old(self).theory(), Task::Apprule(rec.info.name@, levels@, i, vtms(xs@), vtms(ys@)), fuel as nat) ==> r is Ok,
        decreases fuel,
    {
        if fuel == 0 {
            return Err(Stop::OutOfFuel);
        }
        let ghost th = self.theory();
        let ghost zs = vtms(xs@);
        let ghost ts = vtms(ys@);
        assert(self.ctx.has_expr(rec.rec_rules@[i].val));
        let ghost h = tm_lsubst(rule.val@, rec.info.uparams@, levels@);
        proof {
            ends_next(th, Task::Apprule(rec.info.name@, levels@, i, zs, ts), Task::Closed(h), fuel as nat);
        }
        let head = match self.recall_rule(rule.val, rec.info.uparams, levels) {
            Some(v) => v,
            None => {
                let body = self.ctx.subst_expr_levels(rule.val, rec.info.uparams, levels);
                let v = self.eval_closed(body, fuel - 1)?;
                self.remember_rule(rule.val, rec.info.uparams, levels, v);
                v
            },
        };
        let fixed: usize = rec.fixed_args();
        let pos: usize = rec.major_idx();
        let n: usize = xs.len();
        let m: usize = ys.len();
        let extra: usize = m - rule.ctor_telescope_size_wo_params as usize;
        let ghost a = zs.take(fixed as int);
        let ghost b = ts.skip(ts.len() - rule.ctor_telescope_size_wo_params as int);
        let ghost c = zs.skip(pos + 1);
        proof {
            assert(zs.subrange(0, fixed as int) =~= a);
            assert(ts.subrange(extra as int, m as int) =~= b);
            assert(zs.subrange(pos + 1, n as int) =~= c);
            ends_next(th, Task::Apprule(rec.info.name@, levels@, i, zs, ts), Task::ApplyAll(head@, a), fuel as nat);
        }
        let one = self.apply_all(head, xs, 0, fixed, fuel - 1)?;
        proof {
            red_apps_head(th, h, head@, a);
            red_trans(th, apps(h, a), apps(head@, a), one@);
            ends_next(th, Task::Apprule(rec.info.name@, levels@, i, zs, ts), Task::ApplyAll(one@, b), fuel as nat);
        }
        let two = self.apply_all(one, ys, extra, m, fuel - 1)?;
        proof {
            red_apps_head(th, apps(h, a), one@, b);
            red_trans(th, apps(apps(h, a), b), apps(one@, b), two@);
            ends_next(th, Task::Apprule(rec.info.name@, levels@, i, zs, ts), Task::ApplyAll(two@, c), fuel as nat);
        }
        let out = self.apply_all(two, xs, pos + 1, n, fuel - 1)?;
        proof {
            red_apps_head(th, apps(apps(h, a), b), two@, c);
            red_trans(th, apps(apps(apps(h, a), b), c), apps(two@, c), out@);
        }
        Ok(out)
    }

    /// What the recursor of the natural numbers reduces to for a literal.
    pub fn nat_rec_natlit(
        &mut self,
        xs: &Vec<V>,
        n_ptr: BigUintPtr,
        rec: &RecursorData,
        levels: LevelsPtr,
        fuel: u64,
    ) -> (r: Result<V, Stop>)
        requires
            old(self).wf(),
            old(self).theory().recursor(rec.info.name@) == Some(*rec),
            old(self).ctx.has_declar(Declar::Recursor(*rec)),
            old(self).ctx.has_levels(levels),
            old(self).vals.all_done(xs@),
            xs@.len() > rec.major_pos(),
            old(self).ctx.has_big(n_ptr),
            old(self).theory().nat_ext,
            rec.all_inductives@.len() > 0,
            is_named(old(self).theory().names.nat, rec.all_inductives@[0]@),
        ensures
            final(self).wf(),
            old(self).evolves(*final(self)),
            r matches Ok(w) ==> final(self).vals.done(w) && red(
                old(self).theory(),
                apps(
                    Tm::Const(rec.info.name@, levels@),
                    vtms(xs@).update(rec.major_pos() as int, Tm::NatLit(n_ptr@)),
                ),
                w@,
            ) && fires(
                old(self).theory(),
                apps(
                    Tm::Const(rec.info.name@, levels@),
                    vtms(xs@).update(rec.major_pos() as int, Tm::NatLit(n_ptr@)),
                ),
                w@,
            ),
            !nat_rec_fits(*rec, xs@.len(), n_ptr@) && fuel > 0 ==> r == Err::<V, Stop>(Stop::IllTyped),
            rec.num_params + rec.num_motives < rec.major_pos() && fuel > 1 && n_ptr@ == 0
                && xs@.len() == rec.major_pos() + 1 ==> r == Ok::<V, Stop>(
                xs@[rec.num_params + rec.num_motives],
            ),
            ends(old(self).theory(), Task::NatRec(rec.info.name@, levels@, vtms(xs@), n_ptr@), fuel as nat) ==> r is Ok,
        decreases fuel,
    {
        if fuel == 0 {
            return Err(Stop::OutOfFuel);
        }
        let ghost th = self.theory();
        let ghost f = Tm::Const(rec.info.name@, levels@);
        let ghost zs = vtms(xs@);
        proof {
            ends_sound(th, Task::NatRec(rec.info.name@, levels@, zs, n_ptr@), fuel as nat);
        }
        let first: usize = rec.num_params as usize + rec.num_motives as usize;
        let pos: usize = rec.major_idx();
        let n: usize = xs.len();
        if first >= pos || first + 1 >= n {
            return Err(Stop::IllTyped);
        }
        let num = match self.ctx.read_bignum(n_ptr) {
            Some(b) => b.dup(),
            None => {
                return Err(Stop::NoLiterals);
            },
        };
        let ghost k = n_ptr@;
        if !num.is_zero() && first + 1 >= pos {
            return Err(Stop::IllTyped);
        }
        proof {
            ends_sound(th, Task::NatRec(rec.info.name@, levels@, zs, n_ptr@), fuel as nat);
            if k > 0 {
                ends_next(th, Task::NatRec(rec.info.name@, levels@, zs, n_ptr@), Task::NatRecS(rec.info.name@, levels@, zs, k), fuel as nat);
            }
        }
        let ghost ws = zs.update(pos as int, Tm::NatLit(k));
        assert(self.vals.done(xs@[first as int]) && self.vals.done(xs@[first + 1]));
        let case = if num.is_zero() {
            proof {
                red_refl(th, zs[first as int]);
            }
            xs[first]
        } else {
            self.nat_rec_succ(xs, num, rec, levels, fuel - 1)?
        };
        proof {
            assert(zs.subrange(pos + 1, n as int) =~= zs.skip(pos + 1));
            assert(red(th, nat_case(th, rec.info.name@, levels@, zs, k), case@));
            ends_next(th, Task::NatRec(rec.info.name@, levels@, zs, n_ptr@), Task::ApplyAll(case@, zs.skip(pos + 1)), fuel as nat);
        }
        let out = self.apply_all(case, xs, pos + 1, n, fuel - 1)?;
        proof {
            let start = if k == 0 {
                ws[first as int]
            } else {
                let pred = Tm::NatLit((k - 1) as nat);
                Tm::App(
                    Box::new(Tm::App(Box::new(ws[first + 1]), Box::new(pred))),
                    Box::new(apps(f, ws.take(pos as int).push(pred))),
                )
            };
            let rest = ws.skip(pos + 1);
            let b = apps(start, rest);
            const_apps(rec.info.name@, levels@, ws);
            assert(nat_rec_step(th, apps(f, ws), b));
            red_step(th, apps(f, ws), b);
            assert(ws.take(pos as int) =~= zs.take(pos as int));
            assert(zs.subrange(pos + 1, n as int) =~= rest);
            red_apps_head(th, start, case@, rest);
            red_trans(th, apps(f, ws), b, apps(case@, rest));
            red_trans(th, apps(f, ws), apps(case@, rest), out@);
            red_trans(th, b, apps(case@, rest), out@);
            red_refl(th, apps(f, ws));
            fires_by(th, apps(f, ws), apps(f, ws), b, out@);
        }
        Ok(out)
    }

    fn nat_rec_succ(
        &mut self,
        xs: &Vec<V>,
        num: crate::bignum::BigNat,
        rec: &RecursorData,
        levels: LevelsPtr,
        fuel: u64,
    ) -> (r: Result<V, Stop>)
        requires
            old(self).wf(),
            old(self).theory().recursor(rec.info.name@) == Some(*rec),
            old(self).ctx.has_declar(Declar::Recursor(*rec)),
            old(self).ctx.has_levels(levels),
            old(self).vals.all_done(xs@),
            xs@.len() > rec.major_pos(),
            rec.num_params + rec.num_motives + 1 < rec.major_pos(),
            num.wf(),
            num@ > 0,
            old(self).theory().nat_ext,
        ensures
            final(self).wf(),
            old(self).evolves(*final(self)),
            r matches Ok(w) ==> final(self).vals.done(w) && red(
                old(self).theory(),
                Tm::App(
                    Box::new(
                        Tm::App(
                            Box::new(vtms(xs@)[rec.num_params + rec.num_motives + 1]),
                            Box::new(Tm::NatLit((num@ - 1) as nat)),
                        ),
                    ),
                    Box::new(
                        apps(
                            Tm::Const(rec.info.name@, levels@),
                            vtms(xs@).take(rec.major_pos() as int).push(
                                Tm::NatLit((num@ - 1) as nat),
                            ),
                        ),
                    ),
                ),
                w@,
            ),
            ends(old(self).theory(), Task::NatRecS(rec.info.name@, levels@, vtms(xs@), num@), fuel as nat) ==> r is Ok,
        decreases fuel,
    {
        if fuel == 0 {
            return Err(Stop::OutOfFuel);
        }
        let ghost th = self.theory();
        let ghost f = Tm::Const(rec.info.name@, levels@);
        let ghost zs = vtms(xs@);
        let ghost k = num@;
        let pos: usize = rec.major_idx();
        let at: usize = rec.num_params as usize + rec.num_motives as usize + 1;
        let pred = crate::bignum::nat_sub(num, crate::bignum::BigNat::from_u64(1));
        let pred_val = match self.mk_natlit_val(pred) {
            Some(v) => v,
            None => {
                return Err(Stop::NoLiterals);
            },
        };
        let rec_head = self.mk_rigid_head(RigidHead::Recursor(rec.info.name, levels));
        proof {
            assert(zs.subrange(0, pos as int) =~= zs.take(pos as int));
            ends_next(th, Task::NatRecS(rec.info.name@, levels@, zs, k), Task::ApplyAll(f, zs.take(pos as int)), fuel as nat);
            ends_next(th, Task::NatRecS(rec.info.name@, levels@, zs, k), Task::Apply(zs[at as int], pred_val@), fuel as nat);
        }
        let ih = self.apply_all(rec_head, xs, 0, pos, fuel - 1)?;
        let ih = {
            proof {
                ends_next(th, Task::NatRecS(rec.info.name@, levels@, zs, k), Task::Apply(ih@, pred_val@), fuel as nat);
            }
            let w = self.apply(ih, pred_val, fuel - 1)?;
            proof {
                let a = zs.take(pos as int);
                assert(zs.subrange(0, pos as int) =~= a);
                apps_push(f, a, pred_val@);
                red_refl(th, pred_val@);
                red_app(th, apps(f, a), ih@, pred_val@, pred_val@);
                red_trans(
                    th,
                    apps(f, a.push(pred_val@)),
                    Tm::App(Box::new(ih@), Box::new(pred_val@)),
                    w@,
                );
            }
            w
        };
        assert(self.vals.done(xs@[at as int]));
        let stepped = self.apply(xs[at], pred_val, fuel - 1)?;
        proof {
            ends_next(th, Task::NatRecS(rec.info.name@, levels@, zs, k), Task::Apply(stepped@, ih@), fuel as nat);
        }
        let out = self.apply(stepped, ih, fuel - 1)?;
        proof {
            let g = Tm::App(Box::new(zs[at as int]), Box::new(pred_val@));
            let h = apps(f, zs.take(pos as int).push(pred_val@));
            red_app(th, g, stepped@, h, ih@);
            red_trans(
                th,
                Tm::App(Box::new(g), Box::new(h)),
                Tm::App(Box::new(stepped@), Box::new(ih@)),
                out@,
            );
        }
        Ok(out)
    }

    /// The constructor that a literal stands for.
    pub fn major_to_ctor(&mut self, major: V, fuel: u64) -> (r: Result<Option<V>, Stop>)
        requires
            old(self).wf(),
            old(self).vals.done(major),
        ensures
            final(self).wf(),
            old(self).evolves(*final(self)),
            r matches Ok(Some(c)) ==> final(self).vals.done(c) && red(
                old(self).theory(),
                major@,
                c@,
            ),
            fuel > 0 && !(major@ is NatLit) && !(major@ is StrLit) ==> r == Ok::<Option<V>, Stop>(
                None,
            ),
            !(major@ is NatLit) && !(major@ is StrLit) ==> !(r matches Ok(Some(_))),
            ends(old(self).theory(), Task::ToCtor(major@), fuel as nat) ==> r is Ok,
            r matches Ok(Some(c)) ==> exists|e: Tm| #[trigger]
                lit_step(old(self).theory(), major@, e) && red(old(self).theory(), e, c@),
            r == Ok::<Option<V>, Stop>(None) ==> match major@ {
                Tm::NatLit(k) => !old(self).theory().nat_ext || nat_ctor(
                    old(self).theory().names,
                    k,
                ) is None,
                Tm::StrLit(s) => !old(self).theory().nat_ext || str_ctor(
                    old(self).theory().names,
                    s,
                ) is None,
                _ => true,
            },
        decreases fuel,
    {
        if fuel == 0 {
            return Err(Stop::OutOfFuel);
        }
        let ghost th = self.theory();
        proof {
            self.vals.done_evaluated(self.ctx, th, major);
        }
        let content = self.read_val(major);
        proof {
            if let Value::Rigid { head, spine } = content {
                self.rigid_is_neutral(major, head, spine);
            }
            if let Value::Unfold { name, levels, spine, .. } = content {
                crate::value::spine_neutral(Tm::Const(name@, levels@), spine@);
            }
        }
        match content {
            Value::NatLit { ptr } => {
                proof {
                    ends_next(th, Task::ToCtor(major@), Task::NatCtor(ptr@), fuel as nat);
                }
                let o = self.nat_lit_to_ctor_val(ptr, fuel - 1)?;
                proof {
                    if let Some(c) = o {
                        let e = nat_ctor(th.names, ptr@)->0;
                        assert(lit_step(th, major@, e) && red(th, e, c@));
                    }
                }
                Ok(o)
            },
            Value::StrLit { ptr } => {
                proof {
                    ends_next(th, Task::ToCtor(major@), Task::StrCtor(ptr@), fuel as nat);
                }
                let o = self.str_lit_to_ctor_val(ptr, fuel - 1)?;
                proof {
                    if let Some(c) = o {
                        let e = str_ctor(th.names, ptr@)->0;
                        assert(lit_step(th, major@, e) && red(th, e, c@));
                    }
                }
                Ok(o)
            },
            _ => Ok(None),
        }
    }

    /// The value that a string literal stands for.
    pub fn str_lit_to_ctor_val(&mut self, s: StringPtr, fuel: u64) -> (r: Result<Option<V>, Stop>)
        requires
            old(self).wf(),
            old(self).ctx.has_string(s),
        ensures
            final(self).wf(),
            old(self).evolves(*final(self)),
            r matches Ok(Some(c)) ==> final(self).vals.done(c) && red(
                old(self).theory(),
                Tm::StrLit(s@),
                c@,
            ),
            r matches Ok(Some(c)) ==> (str_ctor(old(self).theory().names, s@) matches Some(e) && red(
                old(self).theory(),
                e,
                c@,
            )),
            old(self).theory().nat_ext && str_ctor(old(self).theory().names, s@) is Some ==> !(r matches Ok(
                None,
            )),
            fuel > 0 && !old(self).theory().nat_ext ==> r == Ok::<Option<V>, Stop>(None),
            ends(old(self).theory(), Task::StrCtor(s@), fuel as nat) ==> r is Ok,
        decreases fuel,
    {
        if fuel == 0 {
            return Err(Stop::OutOfFuel);
        }
        let ghost th = self.theory();
        match self.ctx.str_lit_to_constructor(s) {
            Some(e) => {
                proof {
                    ends_next(th, Task::StrCtor(s@), Task::Closed(e@), fuel as nat);
                }
                let v = self.eval_closed(e, fuel - 1)?;
                proof {
                    ends_next(th, Task::StrCtor(s@), Task::Whnf(v@), fuel as nat);
                }
                let w = self.whnf_head(v, fuel - 1)?;
                proof {
                    assert(lit_step(th, Tm::StrLit(s@), e@));
                    red_step(th, Tm::StrLit(s@), e@);
                    red_trans(th, Tm::StrLit(s@), e@, v@);
                    red_trans(th, Tm::StrLit(s@), v@, w@);
                    red_trans(th, e@, v@, w@);
                }
                Ok(Some(w))
            },
            None => Ok(None),
        }
    }

    /// The value that a number literal stands for: zero, or the successor of a literal.
    pub fn nat_lit_to_ctor_val(&mut self, n: BigUintPtr, fuel: u64) -> (r: Result<Option<V>, Stop>)
        requires
            old(self).wf(),
            old(self).ctx.has_big(n),
        ensures
            final(self).wf(),
            old(self).evolves(*final(self)),
            r matches Ok(Some(c)) ==> final(self).vals.done(c) && red(
                old(self).theory(),
                Tm::NatLit(n@),
                c@,
            ),
            !old(self).theory().nat_ext || nat_ctor(old(self).theory().names, n@) is None ==> r
                == Ok::<Option<V>, Stop>(None),
            n@ == 0 ==> r is Ok,
            ends(old(self).theory(), Task::NatCtor(n@), fuel as nat) ==> r is Ok,
            r matches Ok(Some(c)) ==> old(self).theory().nat_ext && (nat_ctor(
                old(self).theory().names,
                n@,
            ) matches Some(e) && red(old(self).theory(), e, c@)),
            r == Ok::<Option<V>, Stop>(None) ==> !old(self).theory().nat_ext || nat_ctor(
                old(self).theory().names,
                n@,
            ) is None,
        decreases fuel,
    {
        let ghost th = self.theory();
        proof {
            self.ctx.known_names();
        }
        if !self.ctx.nat_extension {
            return Ok(None);
        }
        let num = match self.ctx.read_bignum(n) {
            Some(b) => b.dup(),
            None => {
                return Ok(None);
            },
        };
        if num.is_zero() {
            match self.ctx.name_cache.nat_zero {
                Some(z) => {
                    let levels = self.ctx.no_levels();
                    proof {
                        let c = Tm::Const(z@, levels@);
                        assert(lit_step(th, Tm::NatLit(n@), c));
                        red_step(th, Tm::NatLit(n@), c);
                        red_refl(th, c);
                    }
                    Ok(Some(self.mk_rigid_head(RigidHead::Ctor(z, levels))))
                },
                None => Ok(None),
            }
        } else {
            match self.ctx.name_cache.nat_succ {
                Some(s) => {
                    if fuel == 0 {
                        return Err(Stop::OutOfFuel);
                    }
                    let ghost pred_tm = Tm::NatLit((n@ - 1) as nat);
                    let one = crate::bignum::BigNat::from_u64(1);
                    let pred = crate::bignum::nat_sub(num, one);
                    let pred_v = match self.mk_natlit_val(pred) {
                        Some(v) => v,
                        None => {
                            return Ok(None);
                        },
                    };
                    let levels = self.ctx.no_levels();
                    let succ_v = self.mk_rigid_head(RigidHead::Ctor(s, levels));
                    proof {
                        ends_next(th, Task::NatCtor(n@), Task::SuccA(succ_v@, pred_v@), fuel as nat);
                    }
                    let out = self.succ_applied(succ_v, pred_v, fuel - 1)?;
                    proof {
                        let c = Tm::App(
                            Box::new(Tm::Const(s@, levels@)),
                            Box::new(pred_tm),
                        );
                        assert(lit_step(th, Tm::NatLit(n@), c));
                        red_step(th, Tm::NatLit(n@), c);
                        red_trans(th, Tm::NatLit(n@), c, out@);
                    }
                    Ok(Some(out))
                },
                None => Ok(None),
            }
        }
    }

    fn succ_applied(&mut self, f: V, a: V, fuel: u64) -> (r: Result<V, Stop>)
        requires
            old(self).wf(),
            old(self).vals.done(f),
            old(self).vals.has_val(a),
        ensures
            final(self).wf(),
            old(self).evolves(*final(self)),
            r matches Ok(v) ==> final(self).vals.done(v) && red(
                old(self).theory(),
                Tm::App(Box::new(f@), Box::new(a@)),
                v@,
            ),
            ends(old(self).theory(), Task::SuccA(f@, a@), fuel as nat) ==> r is Ok,
        decreases fuel,
    {
        if fuel == 0 {
            return Err(Stop::OutOfFuel);
        }
        let ghost th = self.theory();
        proof {
            ends_next(th, Task::SuccA(f@, a@), Task::ApplyV(f@, a@), fuel as nat);
        }
        self.apply_v(f, a, fuel - 1)
    }

    /// The constructor that a value is, and its arguments.
    pub fn unwrap_ctor_app(&mut self, v: V, fuel: u64) -> (r: Result<Option<(NamePtr, Vec<V>)>, Stop>)
        requires
            old(self).wf(),
            old(self).vals.done(v),
        ensures
            final(self).wf(),
            old(self).evolves(*final(self)),
            r matches Ok(Some((n, xs))) ==> {
                &&& final(self).ctx.has_name(n)
                &&& final(self).vals.all_done(xs@)
                &&& app_of(old(self).theory(), v@, n@, vtms(xs@))
            },
            fuel > 0 && !neutral(v@) ==> (r matches Ok(o) && o is None),
            ctor_headed(old(self).theory(), v@) ==> (r matches Ok(o) ==> (o matches Some((n, xs)) && n@
                == head(v@)->Const_0 && xs@.len() == args(v@).len())),
            ends(old(self).theory(), Task::UnwrapC(v@), fuel as nat) ==> r is Ok,
            r matches Ok(Some((n, xs))) ==> crate::work::argued(old(self).theory(), v@, vtms(xs@)),
        decreases fuel,
    {
        if fuel == 0 {
            return Err(Stop::OutOfFuel);
        }
        let ghost th = self.theory();
        let content = self.read_val(v);
        proof {
            if ctor_headed(th, v@) {
                head_kind(th, content, v@);
            }
        }
        match content {
            Value::Rigid { head, spine } => {
                proof {
                    self.rigid_is_neutral(v, head, spine);
                }
                match head {
                    RigidHead::Ctor(name, levels) => match {
                        proof {
                            root_els(Tm::Const(name@, levels@), spine@);
                            ends_next(th, Task::UnwrapC(v@), Task::Spine(spine@), fuel as nat);
                        }
                        self.spine_apps(spine, fuel - 1)?
                    } {
                        Some(xs) => {
                            proof {
                                let f = Tm::Const(name@, levels@);
                                red_spine_apps(th, f, spine@, vtms(xs@));
                                assert(red(
                                    old(self).theory(),
                                    v@,
                                    apps(Tm::Const(name@, levels@), vtms(xs@)),
                                ));
                            }
                            assert(app_of(th, v@, name@, vtms(xs@)));
                            proof {
                                args_of_spine(Tm::Const(name@, levels@), spine@);
                            }
                            Ok(Some((name, xs)))
                        },
                        None => Ok(None),
                    },
                    _ => Ok(None),
                }
            },
            Value::Unfold { name, levels, spine, .. } => {
                proof {
                    crate::value::spine_neutral(Tm::Const(name@, levels@), spine@);
                }
                Ok(None)
            },
            _ => Ok(None),
        }
    }

    /// What an eliminator of quotients that is applied to arguments reduces to.
    pub fn do_quot_iota(&mut self, c_name: NamePtr, xs: &Vec<V>, fuel: u64) -> (r: Result<
        Option<V>,
        Stop,
    >)
        requires
            old(self).wf(),
            old(self).ctx.has_name(c_name),
            old(self).vals.all_done(xs@),
        ensures
            final(self).wf(),
            old(self).evolves(*final(self)),
            r matches Ok(Some(w)) ==> final(self).vals.done(w) && forall|ls: Seq<Lv>|
                #[trigger] red(
                    old(self).theory(),
                    apps(Tm::Const(c_name@, ls), vtms(xs@)),
                    w@,
                ),
            r matches Ok(Some(w)) ==> fires_at(old(self).theory(), c_name@, vtms(xs@), w@),
            !old(self).theory().is_quot(c_name@) || quot_pos(
                old(self).theory().names,
                c_name@,
            ) is None ==> r == Ok::<Option<V>, Stop>(None),
            ends(old(self).theory(), Task::DoQuot(c_name@, vtms(xs@)), fuel as nat) ==> r is Ok,
            r == Ok::<Option<V>, Stop>(None) && old(self).theory().is_quot(c_name@) ==> (quot_pos(
                old(self).theory().names,
                c_name@,
            ) matches Some(p) ==> (p < xs@.len() ==> exists|q: Tm| #[trigger]
                red(old(self).theory(), vtms(xs@)[p as int], q) && resting(old(self).theory(), q)
                    && !class_member(old(self).theory(), q))),
        decreases fuel,
    {
        let ghost th = self.theory();
        let ghost zs = vtms(xs@);
        let pos: usize = match self.quot_major(c_name) {
            Some(p) => p,
            None => {
                return Ok(None);
            },
        };
        if pos >= xs.len() {
            return Ok(None);
        }
        if fuel == 0 {
            return Err(Stop::OutOfFuel);
        }
        assert(self.vals.done(xs@[pos as int]));
        proof {
            ends_next(th, Task::DoQuot(c_name@, zs), Task::Forcing(Seq::empty(), zs[pos as int]), fuel as nat);
        }
        let qmk = self.force_all(xs[pos], fuel - 1)?;
        proof {
            ends_next(th, Task::DoQuot(c_name@, zs), Task::FireQuot(c_name@, zs, qmk@), fuel as nat);
        }
        let out = self.fire_quot(c_name, xs, qmk, fuel - 1)?;
        assert(red(th, zs[pos as int], qmk@));
        proof {
            if let Some(w) = out {
                assert forall|ls: Seq<Lv>| #[trigger]
                    red(th, apps(Tm::Const(c_name@, ls), zs), w@) by {
                    let f = Tm::Const(c_name@, ls);
                    red_apps_at(th, f, zs, pos as int, qmk@);
                    assert(red(th, apps(Tm::Const(c_name@, ls), zs.update(pos as int, qmk@)), w@));
                    red_trans(th, apps(f, zs), apps(f, zs.update(pos as int, qmk@)), w@);
                }
                assert forall|ls: Seq<Lv>| fires(th, #[trigger] apps(Tm::Const(c_name@, ls), zs), w@) by {
                    let f = Tm::Const(c_name@, ls);
                    red_apps_at(th, f, zs, pos as int, qmk@);
                    assert(red(th, apps(Tm::Const(c_name@, ls), zs.update(pos as int, qmk@)), w@));
                    red_refl(th, w@);
                    fires_between(th, apps(f, zs), apps(f, zs.update(pos as int, qmk@)), w@, w@);
                }
            }
        }
        Ok(out)
    }

    /// What an eliminator of quotients whose major premise is the given one reduces to.
    pub fn fire_quot(&mut self, c_name: NamePtr, xs: &Vec<V>, qmk: V, fuel: u64) -> (r: Result<
        Option<V>,
        Stop,
    >)
        requires
            old(self).wf(),
            old(self).ctx.has_name(c_name),
            old(self).vals.all_done(xs@),
            old(self).vals.done(qmk),
        ensures
            final(self).wf(),
            old(self).evolves(*final(self)),
            r matches Ok(Some(w)) ==> {
                &&& final(self).vals.done(w)
                &&& quot_pos(old(self).theory().names, c_name@) is Some
                &&& quot_pos(old(self).theory().names, c_name@)->0 < xs@.len()
                &&& forall|ls: Seq<Lv>| #[trigger]
                    red(
                        old(self).theory(),
                        apps(
                            Tm::Const(c_name@, ls),
                            vtms(xs@).update(
                                quot_pos(old(self).theory().names, c_name@)->0 as int,
                                qmk@,
                            ),
                        ),
                        w@,
                    ) && fires(
                        old(self).theory(),
                        apps(
                            Tm::Const(c_name@, ls),
                            vtms(xs@).update(
                                quot_pos(old(self).theory().names, c_name@)->0 as int,
                                qmk@,
                            ),
                        ),
                        w@,
                    )
            },
            !old(self).theory().is_quot(c_name@) || quot_pos(
                old(self).theory().names,
                c_name@,
            ) is None ==> r == Ok::<Option<V>, Stop>(None),
            ends(old(self).theory(), Task::FireQuot(c_name@, vtms(xs@), qmk@), fuel as nat) ==> r is Ok,
            r == Ok::<Option<V>, Stop>(None) && old(self).theory().is_quot(c_name@) ==> (quot_pos(
                old(self).theory().names,
                c_name@,
            ) matches Some(p) ==> (p < xs@.len() ==> !class_member(old(self).theory(), qmk@))),
        decreases fuel,
    {
        let ghost th = self.theory();
        let ghost zs = vtms(xs@);
        let pos: usize = match self.quot_major(c_name) {
            Some(p) => p,
            None => {
                return Ok(None);
            },
        };
        if fuel == 0 {
            return Err(Stop::OutOfFuel);
        }
        let n: usize = xs.len();
        proof {
            ends_sound(th, Task::FireQuot(c_name@, zs, qmk@), fuel as nat);
            self.ctx.known_names();
        }
        let content = self.read_val(qmk);
        proof {
            if quot_headed(th, qmk@) {
                quot_kind(th, content, qmk@);
            }
        }
        let (q_name, q_levels, q_spine) = match content {
            Value::Rigid { head: RigidHead::QuotConst(name, levels), spine } => {
                (name, levels, spine)
            },
            _ => {
                return Ok(None);
            },
        };
        if !self.ctx.is_known(q_name, self.ctx.name_cache.quot_mk) {
            return Ok(None);
        }
        if n < 4 {
            return Ok(None);
        }
        if n <= pos {
            return Err(Stop::IllTyped);
        }
        proof {
            root_els(Tm::Const(q_name@, q_levels@), q_spine@);
            ends_next(th, Task::FireQuot(c_name@, zs, qmk@), Task::Spine(q_spine@), fuel as nat);
        }
        let ys = match self.spine_apps(q_spine, fuel - 1)? {
            Some(ys) => ys,
            None => {
                return Ok(None);
            },
        };
        if ys.len() != 3 {
            return Ok(None);
        }
        assert(self.vals.done(xs@[3]) && self.vals.done(ys@[2]));
        proof {
            args_of_spine(Tm::Const(q_name@, q_levels@), q_spine@);
            assert(crate::work::argued(th, qmk@, vtms(ys@)));
            assert(member_of(th, qmk@, ys@[2]@));
            ends_next(th, Task::FireQuot(c_name@, zs, qmk@), Task::Apply(xs@[3]@, ys@[2]@), fuel as nat);
        }
        let appd = self.apply(xs[3], ys[2], fuel - 1)?;
        proof {
            assert(zs.subrange(pos + 1, n as int) =~= zs.skip(pos + 1));
            ends_next(th, Task::FireQuot(c_name@, zs, qmk@), Task::ApplyAll(appd@, zs.skip(pos + 1)), fuel as nat);
        }
        let out = self.apply_all(appd, xs, pos + 1, n, fuel - 1)?;
        proof {
            let p = pos as int;
            let ts = vtms(ys@);
            let q = Tm::Const(q_name@, q_levels@);
            let m = apps(q, ts);
            red_spine_apps(th, q, q_spine@, ts);
            const_apps(q_name@, q_levels@, ts);
            let start = zs.update(p, qmk@);
            let ws = start.update(p, m);
            let rest = zs.skip(p + 1);
            assert(zs.subrange(p + 1, n as int) =~= rest);
            assert(ws.skip(p + 1) =~= rest);
            let g = Tm::App(Box::new(zs[3]), Box::new(ts[2]));
            red_apps_head(th, g, appd@, rest);
            red_trans(th, apps(g, rest), apps(appd@, rest), out@);
            assert forall|ls: Seq<Lv>| #[trigger]
                red(th, apps(Tm::Const(c_name@, ls), zs.update(p, qmk@)), out@) && fires(
                    th,
                    apps(Tm::Const(c_name@, ls), zs.update(p, qmk@)),
                    out@,
                ) by {
                let f = Tm::Const(c_name@, ls);
                red_apps_at(th, f, start, p, m);
                const_apps(c_name@, ls, ws);
                assert(quot_step(th, apps(f, ws), apps(g, rest)));
                red_step(th, apps(f, ws), apps(g, rest));
                red_trans(th, apps(f, start), apps(f, ws), apps(g, rest));
                red_trans(th, apps(f, start), apps(g, rest), out@);
                fires_by(th, apps(f, start), apps(f, ws), apps(g, rest), out@);
            }
        }
        Ok(Some(out))
    }
}

/// The term is what the rule gives for the arguments of the recursor and for those of the
/// constructor, reduced.
pub open spec fn fired_by(
    th: Theory,
    rec: RecursorData,
    ls: Seq<Lv>,
    xs: Seq<Tm>,
    i: int,
    major: Tm,
    w: Tm,
) -> bool {
    exists|ys: Seq<Tm>| #[trigger]
        crate::work::argued(th, major, ys) && red(
            th,
            iota_result(rec, rec.rec_rules@[i], ls, xs, ys),
            w,
        )
}

/// What comes of firing a recursor on a constructor: what its rule gives, if it has a rule for
/// the constructor and there are enough arguments, and nothing otherwise.
pub open spec fn fired(
    th: Theory,
    rec: RecursorData,
    ls: Seq<Lv>,
    xs: Seq<Tm>,
    major: Tm,
    o: Option<V>,
) -> bool {
    let c = head(major)->Const_0;
    match o {
        Some(w) => exists|i: int| #[trigger]
            rule_for(rec.rec_rules@, c, i) && args(major).len()
                >= rec.rec_rules@[i].ctor_telescope_size_wo_params && fired_by(
                th,
                rec,
                ls,
                xs,
                i,
                major,
                w@,
            ),
        None => forall|i: int| #[trigger]
            rule_for(rec.rec_rules@, c, i) ==> args(major).len()
                < rec.rec_rules@[i].ctor_telescope_size_wo_params,
    }
}

/// The term is among the arguments.
pub open spec fn in_args(t: Tm, a: Tm) -> bool {
    exists|j: int| 0 <= j < args(t).len() && a == #[trigger] args(t)[j]
}

/// The field of the type in a constructor that does not reduce.
pub open spec fn field_at(th: Theory, t: Tm, ty: Nm, i: nat) -> Option<Tm> {
    if fixed_head(th, t) && ctor_headed(th, t) {
        match field_pos(th, head(t)->Const_0, args(t).len(), ty, i) {
            Some(p) => Some(args(t)[p as int]),
            None => None,
        }
    } else {
        None
    }
}

/// The term reduces to the constant applied to the arguments.
pub open spec fn app_of(th: Theory, t: Tm, n: Nm, xs: Seq<Tm>) -> bool {
    exists|ls: Seq<Lv>| #[trigger] red(th, t, apps(Tm::Const(n, ls), xs))
}

/// None of the values is a recursor that can be fired.
pub open spec fn none_ready(th: Theory, xs: Seq<V>) -> bool {
    forall|i: int| 0 <= i < xs.len() ==> !ready(th, (#[trigger] xs[i])@)
}

/// Each value of the stack waits for the next one, and the last for the term. From the
/// start the first is reached.
pub open spec fn stacked(th: Theory, from: Tm, waiting: Seq<V>, cur: Tm) -> bool
    decreases waiting.len(),
{
    if waiting.len() == 0 {
        red(th, from, cur)
    } else {
        waits_for(th, waiting.last()@, cur) && stacked(
            th,
            from,
            waiting.drop_last(),
            waiting.last()@,
        )
    }
}

proof fn stacked_trans(th: Theory, from: Tm, waiting: Seq<V>, cur: Tm, next: Tm)
    requires
        stacked(th, from, waiting, cur),
        red(th, cur, next),
    ensures
        stacked(th, from, waiting, next),
{
    if waiting.len() == 0 {
        red_trans(th, from, cur, next);
    } else {
        waits_trans(th, waiting.last()@, cur, next);
    }
}

proof fn stacked_push(th: Theory, from: Tm, waiting: Seq<V>, w: V, m: Tm)
    requires
        stacked(th, from, waiting, w@),
        waits_for(th, w@, m),
    ensures
        stacked(th, from, waiting.push(w), m),
{
    assert(waiting.push(w).drop_last() =~= waiting);
}

} // verus!
