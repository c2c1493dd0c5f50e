//! Which arguments of a constant are proofs.
use crate::checker::{fits_grows, Stop, TypeChecker};
use crate::laws::red;
use crate::ptr::{LevelPtr, LevelsPtr, NamePtr};
use crate::sig::{
    bit, bit_of_set, bit_of_zero, has_type_level, level_from, level_list, level_valid, levels_ok,
    levels_valid, none_before, none_from, sig_from, sig_ok, tele_open, tele_open_end,
    tele_open_push, Sig,
};
use crate::stable::{
    declared_type, formed_stays, pi_count, pi_count_stays, pi_count_subst, pi_kind,
};
use crate::tree::{inst1, lv_is_zero, subst, Tm};
use crate::value::{done_valid, vals_fit_grows, Spine, Value, S, V};
use crate::vcache::{vcache_grows_ctx, vcache_grows_vals};
use crate::work::{body_open, ends, ends_next, sig_body, sig_domain, sig_end, sig_reach, Task};
use vstd::prelude::*;

verus! {

broadcast use {fits_grows, vals_fit_grows, vcache_grows_ctx, vcache_grows_vals, done_valid, crate::work::ends_some};

/// The number of applications that a spine begins with.
pub fn app_prefix_len(tc: &TypeChecker, spine: S) -> (r: u32)
    requires
        tc.wf(),
        tc.vals.has_spine(spine),
    ensures
        r <= spine@.len(),
        forall|i: int| 0 <= i < r ==> (#[trigger] spine@[i]) is App,
        r < spine@.len() ==> !(spine@[r as int] is App),
{
    let (len, has_proj): (u32, bool) = match tc.vals.read_spine(spine) {
        Spine::Empty => (0, false),
        Spine::Snoc { len, has_proj, .. } => (len, has_proj),
    };
    if !has_proj {
        return len;
    }
    let mut limit: u32 = len;
    let mut cur = spine;
    let mut at: u32 = len;
    while at > 0
        invariant
            tc.wf(),
            tc.vals.has_spine(cur),
            at == cur@.len(),
            at <= limit <= spine@.len(),
            cur@ == spine@.take(at as int),
            forall|i: int| at <= i < limit ==> (#[trigger] spine@[i]) is App,
            limit < spine@.len() ==> !(spine@[limit as int] is App),
        decreases at,
    {
        match tc.vals.read_spine(cur) {
            Spine::Empty => {
                at = 0;
            },
            Spine::Snoc { prev, elim, .. } => {
                assert(spine@[at - 1] == cur@.last());
                assert(cur@.last() == elim.el());
                if !elim.is_app() {
                    limit = at - 1;
                }
                at = at - 1;
                assert(prev@ =~= spine@.take(at as int));
                cur = prev;
            },
        }
    }
    limit
}

impl<'t> TypeChecker<'t> {
    /// What is known of the arguments of a constant. With declarations that are only there
    /// for a while, and while it is being found out, nothing is.
    pub fn sig_of(&mut self, name: NamePtr, levels: LevelsPtr, fuel: u64) -> (r: Result<Sig, Stop>)
        requires
            old(self).wf(),
            old(self).ctx.has_name(name),
            old(self).ctx.has_levels(levels),
        ensures
            final(self).wf(),
            old(self).evolves(*final(self)),
            r matches Ok(s) ==> s == Sig::nothing() || sig_ok(
                old(self).theory(),
                name@,
                levels@,
                s,
            ),
            old(self).env.temp is Some ==> r == Ok::<Sig, Stop>(Sig::nothing()),
            old(self).env.temp is None && !old(self).vcache.computes(name, levels) ==> (r matches Ok(s)
                ==> sig_ok(old(self).theory(), name@, levels@, s)),
            ends(old(self).theory(), Task::SigOf(name@, levels@), fuel as nat) ==> r is Ok,
        decreases fuel,
    {
        if self.env.temp.is_some() {
            return Ok(Sig::all_relevant());
        }
        if fuel == 0 {
            return Err(Stop::OutOfFuel);
        }
        if let Some(s) = self.recall_sig(name, levels) {
            return Ok(s);
        }
        if !self.begin_sig(name, levels) {
            return Ok(Sig::all_relevant());
        }
        let ghost th = self.theory();
        proof {
            ends_next(th, Task::SigOf(name@, levels@), Task::SigC(name@, levels@), fuel as nat);
        }
        let out = self.sig_compute(name, levels, fuel - 1);
        self.end_sig();
        match out {
            Ok(s) => {
                self.remember_sig(name, levels, s);
                Ok(s)
            },
            Err(e) => Err(e),
        }
    }

    /// What is known of the arguments of a constant, from its type.
    pub fn sig_compute(&mut self, name: NamePtr, levels: LevelsPtr, fuel: u64) -> (r: Result<
        Sig,
        Stop,
    >)
        requires
            old(self).wf(),
            old(self).ctx.has_name(name),
            old(self).ctx.has_levels(levels),
        ensures
            final(self).wf(),
            old(self).evolves(*final(self)),
            r matches Ok(s) ==> sig_ok(old(self).theory(), name@, levels@, s),
            fuel > 0 && !old(self).theory().decls.contains_key(name@) ==> r == Err::<Sig, Stop>(
                Stop::UnknownConst,
            ),
            fuel > 4 && old(self).theory().decls.contains_key(name@) && declared_type(
                old(self).theory(),
                name@,
                levels@,
            ) is Sort ==> r is Ok,
            ends(old(self).theory(), Task::SigC(name@, levels@), fuel as nat) ==> r is Ok,
        decreases fuel,
    {
        if fuel == 0 {
            return Err(Stop::OutOfFuel);
        }
        let ghost th = self.theory();
        proof {
            ends_next(th, Task::SigC(name@, levels@), Task::ConstTy(name@, levels@), fuel as nat);
        }
        let start = match self.const_head_type(name, levels, fuel - 1) {
            Ok(v) => v,
            Err(s) => {
                return Err(s);
            },
        };
        let ghost ty = declared_type(th, name@, levels@);
        proof {
            pi_count_stays(th, ty, start@);
            if ty is Sort {
                formed_stays(th, ty, start@);
            }
        }
        let mut dom: Vec<Option<LevelPtr>> = Vec::new();
        let mut cur = start;
        let mut depth: u32 = 0;
        let ghost mut doms: Seq<Tm> = Seq::empty();
        let mut terminal: Option<V> = None;
        proof {
            crate::laws::red_refl(th, start@);
        }
        let mut going = true;
        while going
            invariant
                fuel > 0,
                self.wf(),
                old(self).evolves(*self),
                self.theory() == th,
                th == old(self).theory(),
                th.decls.contains_key(name@),
                self.vals.has_val(cur),
                depth == dom@.len(),
                dom@.len() <= 64,
                doms.len() == dom@.len(),
                levels_valid(self.ctx, dom@),
                levels_ok(th, doms, level_list(dom@)),
                tele_open(th, start@, 0, doms, cur@),
                red(th, ty, start@),
                terminal matches Some(t) ==> self.vals.done(t) && t == cur && !going && !(t@ is Pi),
                !going ==> terminal is Some || dom@.len() == 64,
                ty == declared_type(th, name@, levels@),
                pi_count(cur@) + dom@.len() >= pi_count(ty),
                ty is Sort && fuel > 4 ==> self.vals.done(cur) && cur@ is Sort,
            decreases 65 - dom@.len(), (if going { 1int } else { 0int }),
        {
            proof {
                assert(red(th, declared_type(th, name@, levels@), start@));
                assert(sig_reach(th, name@, levels@, doms, cur@));
                assert(sig_end(th, name@, levels@, cur@));
                ends_next(th, Task::SigC(name@, levels@), Task::Forcing(Seq::empty(), cur@), fuel as nat);
            }
            let cur_f = self.force_all(cur, fuel - 1)?;
            proof {
                tele_open_end(th, start@, 0, doms, cur@, cur_f@);
            }
            let content = self.read_val(cur_f);
            proof {
                pi_count_stays(th, cur@, cur_f@);
                if cur_f@ is Pi {
                    pi_kind(content, cur_f@);
                }
            }
            cur = cur_f;
            match content {
                Value::Pi { binder_name, binder_style, domain, env, body } => {
                    if dom.len() >= 64 {
                        going = false;
                    } else {
                        proof {
                            crate::laws::red_refl(th, cur@);
                            assert(sig_reach(th, name@, levels@, doms, cur@));
                assert(sig_end(th, name@, levels@, cur@));
            assert(sig_domain(th, name@, levels@, domain@));
                            ends_next(th, Task::SigC(name@, levels@), Task::Lvl(domain@), fuel as nat);
                        }
                        let l = self.level_of_type(domain, fuel - 1)?;
                        let fresh = self.mk_bvar_hc(depth, domain);
                        proof {
                            let t = inst1(subst(body@, env@, 1), fresh@);
                            assert(body_open(th, cur@, doms.len(), t));
                            assert(sig_body(th, name@, levels@, t));
                            ends_next(th, Task::SigC(name@, levels@), Task::Closure(t), fuel as nat);
                        }
                        let next = self.apply_closure(env, body, fresh, fuel - 1)?;
                        let ghost before = dom@;
                        dom.push(l);
                        proof {
                            let b = subst(body@, env@, 1);
                            crate::laws::red_refl(th, cur@);
                            pi_count_subst(b, seq![fresh@], 0);
                            pi_count_stays(th, inst1(b, fresh@), next@);
                            tele_open_push(
                                th,
                                start@,
                                0,
                                doms,
                                cur@,
                                binder_name@,
                                binder_style,
                                domain@,
                                b,
                                next@,
                            );
                            let more = level_list(dom@);
                            assert forall|i: int| 0 <= i < more.len() implies match #[trigger] more[i] {
                                Some(l) => has_type_level(th, doms.push(domain@)[i], l),
                                None => crate::work::no_level(th, doms.push(domain@)[i]),
                            } by {
                                if i < before.len() {
                                    assert(level_list(before)[i] == more[i]);
                                }
                            }
                            doms = doms.push(domain@);
                        }
                        cur = next;
                        depth = depth + 1;
                    }
                },
                _ => {
                    terminal = Some(cur_f);
                    going = false;
                },
            }
        }
        proof {
            assert(red(th, declared_type(th, name@, levels@), start@));
            assert(sig_reach(th, name@, levels@, doms, cur@));
                assert(sig_end(th, name@, levels@, cur@));
            ends_next(th, Task::SigC(name@, levels@), Task::Lvl(cur@), fuel as nat);
        }
        let end = match terminal {
            Some(t) => self.level_of_type(t, fuel - 1)?,
            None => None,
        };
        let sig = self.sig_of_levels(&dom, end);
        proof {
            let e = match end {
                Some(l) => Some(l@),
                None => None,
            };
            assert(tele_open(th, start@, 0, doms, cur@));
            assert(sig_from(level_list(dom@), e, sig));
            if pi_count(ty) > 64 {
                assert(e is None);
                assert forall|k: nat| !#[trigger] bit(sig.result_known, k) by {
                    none_from(level_list(dom@), e, k);
                }
            }
        }
        Ok(sig)
    }

    /// What is known of a constant whose domains, and whose result, have the given levels.
    pub fn sig_of_levels(&mut self, dom: &Vec<Option<LevelPtr>>, end: Option<LevelPtr>) -> (r: Sig)
        requires
            old(self).wf(),
            levels_valid(old(self).ctx, dom@),
            dom@.len() <= 64,
            end matches Some(l) ==> old(self).ctx.has_level(l),
        ensures
            final(self).wf(),
            old(self).evolves(*final(self)),
            sig_from(
                level_list(dom@),
                match end {
                    Some(l) => Some(l@),
                    None => None,
                },
                r,
            ),
    {
        let (prop_arg, arg_known) = self.arg_bits(dom);
        let (prop_result, result_known) = self.result_bits(dom, end);
        Sig { arity: dom.len() as u8, prop_arg, arg_known, prop_result, result_known }
    }

    fn arg_bits(&self, dom: &Vec<Option<LevelPtr>>) -> (r: (u64, u64))
        requires
            self.wf(),
            levels_valid(self.ctx, dom@),
            dom@.len() <= 64,
        ensures
            forall|i: nat| #[trigger]
                bit(r.1, i) <==> i < dom@.len() && level_list(dom@)[i as int] is Some,
            forall|i: nat| #[trigger]
                bit(r.0, i) <==> i < dom@.len() && (level_list(dom@)[i as int] matches Some(l)
                    && lv_is_zero(l)),
    {
        let n: usize = dom.len();
        let mut prop: u64 = 0;
        let mut known: u64 = 0;
        let mut i: usize = 0;
        proof {
            assert forall|j: nat| !(#[trigger] bit(0, j)) by {
                bit_of_zero(j);
            }
        }
        while i < n
            invariant
                self.wf(),
                levels_valid(self.ctx, dom@),
                i <= n,
                n == dom@.len(),
                n <= 64,
                forall|j: nat| #[trigger]
                    bit(known, j) <==> j < i && level_list(dom@)[j as int] is Some,
                forall|j: nat| #[trigger]
                    bit(prop, j) <==> j < i && (level_list(dom@)[j as int] matches Some(l)
                        && lv_is_zero(l)),
            decreases n - i,
        {
            let ghost known0 = known;
            let ghost prop0 = prop;
            let k: u64 = i as u64;
            if let Some(l) = dom[i] {
                assert(level_valid(self.ctx, dom@[i as int]));
                known = known | (1u64 << k);
                if self.ctx.is_zero(l) {
                    prop = prop | (1u64 << k);
                }
            }
            proof {
                assert forall|j: nat| #[trigger]
                    bit(known, j) <==> j < i + 1 && level_list(dom@)[j as int] is Some by {
                    bit_of_set(known0, k, j);
                    assert(bit(known0, j) <==> j < i && level_list(dom@)[j as int] is Some);
                }
                assert forall|j: nat| #[trigger]
                    bit(prop, j) <==> j < i + 1 && (level_list(dom@)[j as int] matches Some(l)
                        && lv_is_zero(l)) by {
                    bit_of_set(prop0, k, j);
                    assert(bit(prop0, j) <==> j < i && (level_list(dom@)[j as int] matches Some(l)
                        && lv_is_zero(l)));
                }
            }
            i = i + 1;
        }
        (prop, known)
    }

    fn result_bits(&mut self, dom: &Vec<Option<LevelPtr>>, end: Option<LevelPtr>) -> (r: (u64, u64))
        requires
            old(self).wf(),
            levels_valid(old(self).ctx, dom@),
            dom@.len() <= 64,
            end matches Some(l) ==> old(self).ctx.has_level(l),
        ensures
            final(self).wf(),
            old(self).evolves(*final(self)),
            ({
                let ls = level_list(dom@);
                let e = match end {
                    Some(l) => Some(l@),
                    None => None,
                };
                &&& forall|k: nat| #[trigger]
                    bit(r.1, k) <==> k <= ls.len() && k < 64 && level_from(ls, e, k) is Some
                &&& forall|k: nat| #[trigger]
                    bit(r.0, k) <==> k <= ls.len() && k < 64 && (level_from(ls, e, k) matches Some(
                        l,
                    ) && lv_is_zero(l))
            }),
    {
        let n: usize = dom.len();
        let ghost ls = level_list(dom@);
        let ghost e = match end {
            Some(l) => Some(l@),
            None => None,
        };
        let mut prop: u64 = 0;
        let mut known: u64 = 0;
        proof {
            assert forall|j: nat| !(#[trigger] bit(0, j)) by {
                bit_of_zero(j);
            }
        }
        let mut r = match end {
            Some(l) => l,
            None => {
                proof {
                    assert forall|k: nat| level_from(ls, e, k) is None by {
                        none_from(ls, e, k);
                    }
                }
                return (0, 0);
            },
        };
        if n < 64 {
            let k: u64 = n as u64;
            let ghost zero: u64 = 0;
            known = known | (1u64 << k);
            if self.ctx.is_zero(r) {
                prop = prop | (1u64 << k);
            }
            proof {
                assert forall|j: nat| true implies (#[trigger] bit(known, j) <==> j == n) by {
                    bit_of_set(zero, k, j);
                }
                assert forall|j: nat| true implies (#[trigger] bit(prop, j) <==> j == n
                    && lv_is_zero(r@)) by {
                    bit_of_set(zero, k, j);
                }
            }
        }
        let mut i: usize = n;
        while i > 0
            invariant
                self.wf(),
                old(self).evolves(*self),
                levels_valid(self.ctx, dom@),
                i <= n,
                n == dom@.len(),
                n <= 64,
                ls == level_list(dom@),
                e == (match end {
                    Some(l) => Some(l@),
                    None => None,
                }),
                self.ctx.has_level(r),
                level_from(ls, e, i as nat) == Some(r@),
                forall|k: nat| #[trigger]
                    bit(known, k) <==> i <= k && k <= n && k < 64 && level_from(ls, e, k) is Some,
                forall|k: nat| #[trigger]
                    bit(prop, k) <==> i <= k && k <= n && k < 64 && (level_from(
                        ls,
                        e,
                        k,
                    ) matches Some(l) && lv_is_zero(l)),
            decreases i,
        {
            let at: usize = i - 1;
            let s = match dom[at] {
                Some(s) => s,
                None => {
                    proof {
                        assert(ls[at as int] is None);
                        assert forall|k: nat| k <= at implies level_from(ls, e, k) is None by {
                            none_before(ls, e, k, at as nat);
                        }
                    }
                    return (prop, known);
                },
            };
            assert(level_valid(self.ctx, dom@[at as int]));
            let im = self.ctx.imax(s, r);
            let next = self.ctx.simplify(im);
            let ghost known0 = known;
            let ghost prop0 = prop;
            let k: u64 = at as u64;
            known = known | (1u64 << k);
            if self.ctx.is_zero(next) {
                prop = prop | (1u64 << k);
            }
            proof {
                assert(level_from(ls, e, at as nat) == Some(next@));
                assert forall|j: nat| #[trigger]
                    bit(known, j) <==> at <= j && j <= n && j < 64 && level_from(
                        ls,
                        e,
                        j,
                    ) is Some by {
                    bit_of_set(known0, k, j);
                    assert(bit(known0, j) <==> i <= j && j <= n && j < 64 && level_from(
                        ls,
                        e,
                        j,
                    ) is Some);
                }
                assert forall|j: nat| #[trigger]
                    bit(prop, j) <==> at <= j && j <= n && j < 64 && (level_from(
                        ls,
                        e,
                        j,
                    ) matches Some(l) && lv_is_zero(l)) by {
                    bit_of_set(prop0, k, j);
                    assert(bit(prop0, j) <==> i <= j && j <= n && j < 64 && (level_from(
                        ls,
                        e,
                        j,
                    ) matches Some(l) && lv_is_zero(l)));
                }
            }
            r = next;
            i = at;
        }
        (prop, known)
    }
}

} // verus!
