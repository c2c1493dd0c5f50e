//! Checking declarations.
use crate::checker::{fits_grows, full, InferFlag, Stop, TypeChecker};
use crate::ctx::{ExportFile, TcCtx};
use crate::env::{Declar, DeclarInfo, DeclarMap, Env, EnvLimit};
use crate::infer::{direct, sort_found};
use crate::judge::{Ck, Theory};
use crate::laws::{deq, inf};
use crate::steps::{has_type_at, level_found_at, type_says};
use crate::tree::{distinct_params, has_local, lv_is_zero, Lv, Tm};
use vstd::prelude::*;

verus! {

broadcast use {
    fits_grows,
    crate::value::vals_fit_grows,
    crate::vcache::vcache_grows_ctx,
};

/// The type of a declaration has been found to be a type: its universe parameters are
/// distinct, it has no free variables, its type is a universe, and that of a theorem is the
/// universe of propositions.
pub open spec fn info_checked(th: Theory, ck: Ck, d: Declar) -> bool {
    let info = d.about();
    &&& distinct_params(info.uparams@)
    &&& !has_local(info.ty@)
    &&& exists|l: Lv| #[trigger]
        sort_found(th, ck, info.ty@, l) && (d is Theorem ==> lv_is_zero(l))
}

/// The value of a declaration has been found to have its type.
pub open spec fn value_checked(th: Theory, d: Declar) -> bool {
    let info = d.about();
    match d {
        Declar::Theorem { val, .. } => value_has(th, info, val@),
        Declar::Definition { val, .. } => value_has(th, info, val@),
        Declar::Opaque { val, .. } => value_has(th, info, val@),
        _ => true,
    }
}

/// The term has been found to have the type of the declaration.
pub open spec fn value_has(th: Theory, info: DeclarInfo, v: Tm) -> bool {
    exists|t: Tm| #[trigger]
        inf(th, Ck::Full(Some(info.uparams@)), v, t) && deq(th, t, info.ty@)
}

/// No reduction is needed to accept the declaration: the type is a universe's member and the
/// value has the type, and both show directly.
pub open spec fn shown(th: Theory, d: Declar) -> bool {
    let info = d.about();
    let ck = Ck::Full(Some(info.uparams@));
    &&& distinct_params(info.uparams@)
    &&& !has_local(info.ty@)
    &&& direct(th, ck, info.ty@) matches Some(Tm::Sort(l)) && (d is Theorem ==> lv_is_zero(l))
    &&& match d {
        Declar::Axiom { .. } => true,
        Declar::Theorem { val, .. } => direct(th, ck, val@) == Some(info.ty@),
        Declar::Definition { val, .. } => direct(th, ck, val@) == Some(info.ty@),
        Declar::Opaque { val, .. } => direct(th, ck, val@) == Some(info.ty@),
        Declar::Constructor(_) | Declar::Recursor(_) => true,
        _ => false,
    }
}

/// The declaration is bound to be accepted with so much fuel.
pub open spec fn accepts_at(th: Theory, d: Declar, n: nat) -> bool {
    let info = d.about();
    let ck = Ck::Full(Some(info.uparams@));
    &&& distinct_params(info.uparams@)
    &&& !has_local(info.ty@)
    &&& level_found_at(th, ck, info.ty@, n) matches Some(l) && (d is Theorem ==> lv_is_zero(l))
    &&& match d {
        Declar::Axiom { .. } => true,
        Declar::Theorem { val, .. } => has_type_at(th, ck, val@, info.ty@, n),
        Declar::Definition { val, .. } => has_type_at(th, ck, val@, info.ty@, n),
        Declar::Opaque { val, .. } => has_type_at(th, ck, val@, info.ty@, n),
        Declar::Constructor(_) | Declar::Recursor(_) => true,
        _ => false,
    }
}

/// What is left to do for a declaration.
#[derive(Debug, Clone, Copy, PartialEq, Eq, Structural)]
pub enum Verdict {
    /// The declaration has been checked.
    Checked,
    /// Nothing has been checked: the declaration is an inductive type, whose form is checked
    /// as a whole.
    InductiveLeft,
    /// Nothing has been checked: the declaration belongs to quotients, whose form is fixed.
    QuotLeft,
}

impl ExportFile {
    /// What judgements depend on where the first declarations of the file are seen.
    pub open spec fn theory_at(self, cutoff: int) -> Theory {
        Theory {
            decls: crate::env::by_name(self.declars.declars().take(cutoff)).union_prefer_right(
                crate::env::by_name(Seq::empty()),
            ),
            names: self.name_cache,
            nat_ext: self.config.nat_extension,
            str_ext: self.config.string_extension,
        }
    }

    /// The declaration has been checked with the declarations in front of it.
    pub open spec fn checked(self, d: Declar) -> bool {
        exists|cutoff: usize| #[trigger]
            Env::cut(self.declars, EnvLimit::ByName(d.about().name), cutoff) && {
                &&& info_checked(
                    self.theory_at(cutoff as int),
                    Ck::Full(Some(d.about().uparams@)),
                    d,
                )
                &&& value_checked(self.theory_at(cutoff as int), d)
                &&& d matches Declar::Constructor(c) ==> self.declars.declared(c.inductive_name)
                &&& d matches Declar::Recursor(r) ==> self.declars.all_declared(r.all_inductives@)
            }
    }

    /// The inductive types that a constructor or a recursor belongs to are declared.
    pub open spec fn inductives_declared(self, d: Declar) -> bool {
        &&& d matches Declar::Constructor(c) ==> self.declars.declared(c.inductive_name)
        &&& d matches Declar::Recursor(r) ==> self.declars.all_declared(r.all_inductives@)
    }

    /// No reduction is needed to accept the declaration with the declarations in front of it.
    pub open spec fn shown(self, d: Declar) -> bool {
        &&& self.inductives_declared(d)
        &&& forall|cutoff: usize| #[trigger]
            Env::cut(self.declars, EnvLimit::ByName(d.about().name), cutoff) ==> shown(
                self.theory_at(cutoff as int),
                d,
            )
    }

    /// The declaration is bound to be accepted with the declarations in front of it.
    pub open spec fn accepts(self, d: Declar, n: nat) -> bool {
        &&& self.inductives_declared(d)
        &&& forall|cutoff: usize| #[trigger]
            Env::cut(self.declars, EnvLimit::ByName(d.about().name), cutoff) ==> accepts_at(
                self.theory_at(cutoff as int),
                d,
                n,
            )
    }

    /// The environment of the file's declarations.
    pub fn new_env<'x>(&'x self, limit: EnvLimit) -> (r: Env<'x>)
        requires
            self.wf(),
        ensures
            r.declars == &self.declars,
            r.temp is None,
            Env::cut(self.declars, limit, r.cutoff),
            r.maps_ok(),
    {
        proof {
            self.declars_ok();
        }
        Env::new(&self.declars, limit)
    }

    /// Hands a fresh context to a function.
    pub fn with_ctx<'t, F: FnOnce(TcCtx<'t>) -> A, A>(&'t self, f: F) -> (r: A)
        requires
            self.wf(),
            forall|c: TcCtx<'t>|
                c.wf() && c.base == Some(self) && c.dbj_level_counter == 0
                    ==> #[trigger] call_requires(f, (c,)),
        ensures
            exists|c: TcCtx<'t>|
                c.wf() && c.base == Some(self) && c.dbj_level_counter == 0
                    && #[trigger] call_ensures(f, (c,), r),
    {
        f(TcCtx::new(self))
    }

    /// Hands a fresh type checker to a function.
    pub fn with_tc<F: for <'x> FnOnce(TypeChecker<'x>) -> A, A>(&self, limit: EnvLimit, f: F) -> (r: A)
        requires
            self.wf(),
            forall|tc: TypeChecker|
                self.starts(tc, limit, None) ==> #[trigger] call_requires(f, (tc,)),
        ensures
            exists|tc: TypeChecker|
                self.starts(tc, limit, None) && #[trigger] call_ensures(f, (tc,), r),
    {
        let ctx = TcCtx::new(self);
        let env = self.new_env(limit);
        proof {
            ctx.shared_declars();
            assert(env.extra() =~= Seq::<Declar>::empty());
        }
        let tc = TypeChecker::new(ctx, &env, None);
        f(tc)
    }

    /// Hands a fresh type checker for a declaration to a function.
    pub fn with_tc_and_declar<F: for <'x> FnOnce(TypeChecker<'x>) -> A, A>(
        &self,
        d: DeclarInfo,
        f: F,
    ) -> (r: A)
        requires
            self.wf(),
            self.has_info(d),
            forall|tc: TypeChecker|
                self.starts(tc, EnvLimit::ByName(d.name), Some(d)) ==> #[trigger] call_requires(
                    f,
                    (tc,),
                ),
        ensures
            exists|tc: TypeChecker|
                self.starts(tc, EnvLimit::ByName(d.name), Some(d)) && #[trigger] call_ensures(
                    f,
                    (tc,),
                    r,
                ),
    {
        let ctx = TcCtx::new(self);
        let env = self.new_env(EnvLimit::ByName(d.name));
        proof {
            ctx.shared_declars();
            ctx.shared_info(d);
            assert(env.extra() =~= Seq::<Declar>::empty());
        }
        let tc = TypeChecker::new(ctx, &env, Some(d));
        f(tc)
    }

    /// The checker is a fresh one on top of the file.
    pub open spec fn starts(
        &self,
        tc: TypeChecker,
        limit: EnvLimit,
        info: Option<DeclarInfo>,
    ) -> bool {
        &&& tc.wf()
        &&& tc.ctx.base == Some(self)
        &&& tc.ctx.dbj_level_counter == 0
        &&& tc.env.declars == &self.declars
        &&& tc.env.temp is None
        &&& Env::cut(self.declars, limit, tc.env.cutoff)
        &&& tc.declar_info == info
    }

    /// Checks a declaration of the file with the declarations in front of it.
    pub fn check_declar(&self, d: &Declar, fuel: u64) -> (r: Result<Verdict, Stop>)
        requires
            self.wf(),
            self.has_declar(*d),
        ensures
            match *d {
                Declar::Inductive(_) => r == Ok::<Verdict, Stop>(Verdict::InductiveLeft),
                Declar::Quot { .. } => r == Ok::<Verdict, Stop>(Verdict::QuotLeft),
                _ => r matches Ok(v) ==> v == Verdict::Checked && self.checked(*d),
            },
            !(d is Inductive || d is Quot) && !distinct_params(d.about().uparams@) ==> r == Err::<
                Verdict,
                Stop,
            >(Stop::BadUniverses),
            !(d is Inductive || d is Quot) && distinct_params(d.about().uparams@) && has_local(
                d.about().ty@,
            ) ==> r == Err::<Verdict, Stop>(Stop::FreeVariables),
            !(d is Inductive || d is Quot) && self.accepts(*d, fuel as nat) ==> r == Ok::<Verdict, Stop>(
                Verdict::Checked,
            ),
            fuel > 0 && !(d is Inductive || d is Quot) && self.shown(*d) ==> r == Ok::<Verdict, Stop>(
                Verdict::Checked,
            ),
            !(d is Inductive || d is Quot) && !self.inductives_declared(*d) ==> r is Err,
    {
        match d {
            Declar::Inductive(_) => {
                return Ok(Verdict::InductiveLeft);
            },
            Declar::Quot { .. } => {
                return Ok(Verdict::QuotLeft);
            },
            _ => {},
        }
        let info = d.info();
        let ctx = TcCtx::new(self);
        let env = self.new_env(EnvLimit::ByName(info.name));
        proof {
            self.declars_ok();
            ctx.shared_declars();
            ctx.shared_declar(*d);
            assert(env.extra() =~= Seq::<Declar>::empty());
        }
        let mut tc = TypeChecker::new(ctx, &env, Some(info));
        let ghost th = tc.theory();
        let ghost cut = env.cutoff;
        assert(th == self.theory_at(cut as int));
        match tc.check_declar_info(d, fuel) {
            Ok(()) => {},
            Err(s) => {
                return Err(s);
            },
        }
        match d {
            Declar::Theorem { val, .. } => {
                tc.check_value(*val, info, fuel)?;
            },
            Declar::Definition { val, .. } => {
                tc.check_value(*val, info, fuel)?;
            },
            Declar::Opaque { val, .. } => {
                tc.check_value(*val, info, fuel)?;
            },
            Declar::Constructor(c) => {
                match self.declars.get(&c.inductive_name) {
                    Some(_) => {},
                    None => {
                        return Err(Stop::NoInductive);
                    },
                }
            },
            Declar::Recursor(rec) => {
                if !self.declars.declares_all(&rec.all_inductives) {
                    return Err(Stop::NoInductive);
                }
            },
            _ => {},
        }
        assert(Env::cut(self.declars, EnvLimit::ByName(d.about().name), cut));
        Ok(Verdict::Checked)
    }

    /// Checks all declarations of the file one after the other. Gives those that are left to
    /// do, or the position of the first that is not accepted and why.
    pub fn check_all_declars_serial(&self, fuel: u64) -> (r: Result<Vec<usize>, (usize, Stop)>)
        requires
            self.wf(),
        ensures
            match r {
                Ok(left) => {
                    &&& forall|i: int|
                        0 <= i < self.declars.declars().len() ==> {
                            let d = #[trigger] self.declars.declars()[i];
                            if d is Inductive || d is Quot {
                                left@.contains(i as usize)
                            } else {
                                self.checked(d)
                            }
                        }
                    &&& forall|k: int|
                        0 <= k < left@.len() ==> (#[trigger] left@[k])
                            < self.declars.declars().len() && (
                        self.declars.declars()[left@[k] as int] is Inductive
                            || self.declars.declars()[left@[k] as int] is Quot)
                    &&& forall|j: int, k: int| 0 <= j < k < left@.len() ==> left@[j] < left@[k]
                },
                Err((k, s)) => {
                    &&& k < self.declars.declars().len()
                    &&& !(self.declars.declars()[k as int] is Inductive)
                    &&& !(self.declars.declars()[k as int] is Quot)
                    &&& call_ensures(
                        ExportFile::check_declar,
                        (self, &self.declars.declars()[k as int], fuel),
                        Err::<Verdict, Stop>(s),
                    )
                    &&& !self.accepts(self.declars.declars()[k as int], fuel as nat)
                    &&& fuel > 0 ==> !self.shown(self.declars.declars()[k as int])
                    &&& forall|i: int|
                        0 <= i < k ==> {
                            let d = #[trigger] self.declars.declars()[i];
                            d is Inductive || d is Quot || self.checked(d)
                        }
                },
            },
    {
        let n: usize = self.declars.len();
        let mut left: Vec<usize> = Vec::new();
        let mut i: usize = 0;
        while i < n
            invariant
                i <= n,
                n == self.declars.declars().len(),
                self.wf(),
                forall|j: int|
                    0 <= j < i ==> {
                        let d = #[trigger] self.declars.declars()[j];
                        if d is Inductive || d is Quot {
                            left@.contains(j as usize)
                        } else {
                            self.checked(d)
                        }
                    },
                forall|k: int|
                    0 <= k < left@.len() ==> (#[trigger] left@[k]) < self.declars.declars().len()
                        && (self.declars.declars()[left@[k] as int] is Inductive
                        || self.declars.declars()[left@[k] as int] is Quot),
                forall|k: int| 0 <= k < left@.len() ==> (#[trigger] left@[k]) < i,
                forall|j: int, k: int| 0 <= j < k < left@.len() ==> left@[j] < left@[k],
            decreases n - i,
        {
            if let Some(d) = self.declars.get_index(i) {
                proof {
                    self.declars_ok();
                }
                match self.check_declar(d, fuel) {
                    Err(s) => {
                        return Err((i, s));
                    },
                    Ok(Verdict::Checked) => {},
                    Ok(_) => {
                        let ghost before = left@;
                        left.push(i);
                        proof {
                            assert(left@[before.len() as int] == i);
                            assert forall|j: usize| before.contains(j) implies left@.contains(j) by {
                                let k = choose|k: int| 0 <= k < before.len() && before[k] == j;
                                assert(left@[k] == j);
                            }
                        }
                    },
                }
            }
            i = i + 1;
        }
        Ok(left)
    }
}

impl<'t> TypeChecker<'t> {
    /// The checks that every declaration has to pass: its universe parameters are distinct,
    /// its type has no free variables and is a type, and that of a theorem is a proposition.
    pub fn check_declar_info(&mut self, d: &Declar, fuel: u64) -> (r: Result<(), Stop>)
        requires
            old(self).wf(),
            old(self).ctx.has_declar(*d),
        ensures
            final(self).wf(),
            old(self).evolves(*final(self)),
            r is Ok ==> info_checked(old(self).theory(), full(old(self).declar_info), *d),
            !distinct_params(d.about().uparams@) ==> r == Err::<(), Stop>(Stop::BadUniverses),
            distinct_params(d.about().uparams@) && has_local(d.about().ty@) ==> r == Err::<
                (),
                Stop,
            >(Stop::FreeVariables),
            distinct_params(d.about().uparams@) && !has_local(d.about().ty@) && fuel > 0 ==> (direct(
                old(self).theory(),
                full(old(self).declar_info),
                d.about().ty@,
            ) matches Some(Tm::Sort(l)) ==> if d is Theorem && !lv_is_zero(l) {
                r == Err::<(), Stop>(Stop::TheoremNotProp)
            } else {
                r == Ok::<(), Stop>(())
            }),
            distinct_params(d.about().uparams@) && !has_local(d.about().ty@) ==> (level_found_at(
                old(self).theory(),
                full(old(self).declar_info),
                d.about().ty@,
                fuel as nat,
            ) matches Some(l) ==> if d is Theorem && !lv_is_zero(l) {
                r == Err::<(), Stop>(Stop::TheoremNotProp)
            } else {
                r == Ok::<(), Stop>(())
            }),
    {
        let info = d.info();
        let ghost th = self.theory();
        let ghost ck = full(self.declar_info);
        if !self.ctx.no_dupes_all_params(info.uparams) {
            return Err(Stop::BadUniverses);
        }
        if self.ctx.has_fvars(info.ty) {
            return Err(Stop::FreeVariables);
        }
        let l = self.ensure_infers_as_sort(info.ty, fuel)?;
        match d {
            Declar::Theorem { .. } => {
                if !self.ctx.is_zero(l) {
                    return Err(Stop::TheoremNotProp);
                }
            },
            _ => {},
        }
        assert(sort_found(th, ck, info.ty@, l@));
        Ok(())
    }

    /// Checks that a term has the type of a declaration.
    pub fn check_value(&mut self, val: crate::ptr::ExprPtr, info: DeclarInfo, fuel: u64) -> (r:
        Result<(), Stop>)
        requires
            old(self).wf(),
            old(self).ctx.has_expr(val),
            old(self).ctx.has_info(info),
            old(self).declar_info == Some(info),
        ensures
            final(self).wf(),
            old(self).evolves(*final(self)),
            r is Ok ==> value_has(old(self).theory(), info, val@),
            fuel > 0 && direct(old(self).theory(), Ck::Full(Some(info.uparams@)), val@) == Some(
                info.ty@,
            ) ==> r == Ok::<(), Stop>(()),
            has_type_at(
                old(self).theory(),
                Ck::Full(Some(info.uparams@)),
                val@,
                info.ty@,
                fuel as nat,
            ) ==> r == Ok::<(), Stop>(()),
    {
        proof {
            reveal(type_says);
        }
        let ghost th = self.theory();
        let t = self.infer(val, InferFlag::Check, fuel)?;
        self.assert_def_eq(t, info.ty, fuel)?;
        assert(inf(th, Ck::Full(Some(info.uparams@)), val@, t@));
        Ok(())
    }
}

impl<'t> TcCtx<'t> {
    /// Hands a type checker on this context to a function.
    pub fn with_tc<F: for <'x> FnOnce(TypeChecker<'x>) -> A, A>(self, limit: EnvLimit, f: F) -> (r: A)
        requires
            self.wf(),
            self.base is Some,
            self.dbj_level_counter == 0,
            forall|tc: TypeChecker|
                tc.wf() && tc.ctx == self && tc.env.declars == &self.base->0.declars
                    && tc.env.temp is None && Env::cut(
                    self.base->0.declars,
                    limit,
                    tc.env.cutoff,
                ) && tc.declar_info is None ==> #[trigger] call_requires(f, (tc,)),
        ensures
            exists|tc: TypeChecker|
                tc.wf() && tc.ctx == self && tc.env.declars == &self.base->0.declars
                    && tc.env.temp is None && Env::cut(
                    self.base->0.declars,
                    limit,
                    tc.env.cutoff,
                ) && tc.declar_info is None && #[trigger] call_ensures(f, (tc,), r),
    {
        proof {
            self.shared_declars();
        }
        let file = self.base.unwrap();
        let env = Env::new(&file.declars, limit);
        assert(env.extra() =~= Seq::<Declar>::empty());
        let tc = TypeChecker::new(self, &env, None);
        f(tc)
    }

    /// Hands a type checker on this context to a function, which sees the declarations of an
    /// extension first.
    pub fn with_tc_and_env_ext<F: for <'x> FnOnce(TypeChecker<'x>) -> A, A>(
        self,
        env_ext: &DeclarMap,
        limit: EnvLimit,
        f: F,
    ) -> (r: A)
        requires
            self.wf(),
            self.base is Some,
            self.dbj_level_counter == 0,
            env_ext.wf(),
            self.has_declars(env_ext.declars()),
            forall|tc: TypeChecker|
                tc.wf() && tc.ctx == self && tc.env.declars == &self.base->0.declars && tc.env.temp
                    == Some(env_ext) && Env::cut(self.base->0.declars, limit, tc.env.cutoff)
                    && tc.declar_info is None ==> #[trigger] call_requires(f, (tc,)),
        ensures
            exists|tc: TypeChecker|
                tc.wf() && tc.ctx == self && tc.env.declars == &self.base->0.declars && tc.env.temp
                    == Some(env_ext) && Env::cut(self.base->0.declars, limit, tc.env.cutoff)
                    && tc.declar_info is None && #[trigger] call_ensures(f, (tc,), r),
    {
        proof {
            self.shared_declars();
        }
        let file = self.base.unwrap();
        let env = Env::new_w_temp_ext(&file.declars, Some(env_ext), limit);
        let tc = TypeChecker::new(self, &env, None);
        f(tc)
    }
}

} // verus!
