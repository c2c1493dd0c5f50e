//! Laws of checking declarations: which declarations are accepted, from what is found of their
//! types and values.
use crate::answers::{check_from, checks, equal_from, equals, type_from, types, whnf_from, whnfs};
use crate::ctx::ExportFile;
use crate::declar::accepts_at;
use crate::env::{Declar, Env, EnvLimit};
use crate::judge::{Ck, Theory};
use crate::steps::{checks_at, deq_at, has_type_at, level_found_at, type_at, whnf_at};
use crate::tree::{distinct_params, has_local, lv_is_zero, Lv, Tm};
use vstd::prelude::*;

verus! {

/// The universe of a type is found: as it is, or once it is reduced.
pub open spec fn universe(th: Theory, t: Tm, l: Lv, n: nat) -> bool {
    types(th, t, Tm::Sort(l), n) || exists|s: Tm| #[trigger]
        types(th, t, s, n) && !(s is Sort) && whnfs(th, s, Tm::Sort(l), n)
}

/// The term is found to have a type that is found to be equal to the stated one, with
/// everything checked.
pub open spec fn has_stated_type(th: Theory, ck: Ck, v: Tm, ty: Tm, n: nat) -> bool {
    checks(th, ck, v, n) && exists|t: Tm| #[trigger] types(th, v, t, n) && equals(th, t, ty, n)
}

/// The stated type of a declaration is found to be a type, of a proposition for a theorem, and
/// the value is found to have it.
pub open spec fn well_typed(th: Theory, d: Declar, n: nat) -> bool {
    let info = d.about();
    let ck = Ck::Full(Some(info.uparams@));
    &&& checks(th, ck, info.ty@, n)
    &&& exists|l: Lv| #[trigger] universe(th, info.ty@, l, n) && (d is Theorem ==> lv_is_zero(l))
    &&& match d {
        Declar::Theorem { val, .. } => has_stated_type(th, ck, val@, info.ty@, n),
        Declar::Definition { val, .. } => has_stated_type(th, ck, val@, info.ty@, n),
        Declar::Opaque { val, .. } => has_stated_type(th, ck, val@, info.ty@, n),
        _ => true,
    }
}

proof fn level_from(th: Theory, ck: Ck, t: Tm, l: Lv, n: nat)
    requires
        checks(th, ck, t, n),
        universe(th, t, l, n),
    ensures
        forall|m: nat| m >= n + 3 ==> #[trigger] level_found_at(th, ck, t, m) == Some(l),
{
    check_from(th, ck, t, n);
    if types(th, t, Tm::Sort(l), n) {
        type_from(th, t, Tm::Sort(l), n);
        assert forall|m: nat| m >= n + 3 implies #[trigger] level_found_at(th, ck, t, m) == Some(
            l,
        ) by {
            assert(checks_at(th, ck, t, (m - 1) as nat));
            assert(type_at(th, t, (m - 1) as nat) == Some(Tm::Sort(l)));
        }
    } else {
        let s = choose|s: Tm| #[trigger]
            types(th, t, s, n) && !(s is Sort) && whnfs(th, s, Tm::Sort(l), n);
        type_from(th, t, s, n);
        whnf_from(th, s, Tm::Sort(l), n);
        assert forall|m: nat| m >= n + 3 implies #[trigger] level_found_at(th, ck, t, m)
            == Some(l) by {
            assert(checks_at(th, ck, t, (m - 1) as nat));
            assert(type_at(th, t, (m - 1) as nat) == Some(s));
            assert(whnf_at(th, s, (m - 2) as nat) == Some(Tm::Sort(l)));
        }
    }
}

proof fn value_from(th: Theory, ck: Ck, v: Tm, ty: Tm, n: nat)
    requires
        has_stated_type(th, ck, v, ty, n),
    ensures
        forall|m: nat| m >= n + 1 ==> #[trigger] has_type_at(th, ck, v, ty, m),
{
    let t = choose|t: Tm| #[trigger] types(th, v, t, n) && equals(th, t, ty, n);
    check_from(th, ck, v, n);
    type_from(th, v, t, n);
    equal_from(th, t, ty, n);
    assert forall|m: nat| m >= n + 1 implies #[trigger] has_type_at(th, ck, v, ty, m) by {
        assert(checks_at(th, ck, v, m));
        assert(type_at(th, v, m) == Some(t));
        assert(deq_at(th, t, ty, false, (m - 1) as nat));
    }
}

proof fn accepted_from(th: Theory, d: Declar, n: nat)
    requires
        !(d is Inductive || d is Quot),
        distinct_params(d.about().uparams@),
        !has_local(d.about().ty@),
        well_typed(th, d, n),
    ensures
        forall|m: nat| m >= n + 3 ==> #[trigger] accepts_at(th, d, m),
{
    let info = d.about();
    let ck = Ck::Full(Some(info.uparams@));
    let l = choose|l: Lv| #[trigger]
        universe(th, info.ty@, l, n) && (d is Theorem ==> lv_is_zero(l));
    level_from(th, ck, info.ty@, l, n);
    match d {
        Declar::Theorem { val, .. } => {
            value_from(th, ck, val@, info.ty@, n);
        },
        Declar::Definition { val, .. } => {
            value_from(th, ck, val@, info.ty@, n);
        },
        Declar::Opaque { val, .. } => {
            value_from(th, ck, val@, info.ty@, n);
        },
        _ => {},
    }
    assert forall|m: nat| m >= n + 3 implies #[trigger] accepts_at(th, d, m) by {
        assert(level_found_at(th, ck, info.ty@, m) == Some(l));
        match d {
            Declar::Theorem { val, .. } => {
                assert(has_type_at(th, ck, val@, info.ty@, m));
            },
            Declar::Definition { val, .. } => {
                assert(has_type_at(th, ck, val@, info.ty@, m));
            },
            Declar::Opaque { val, .. } => {
                assert(has_type_at(th, ck, val@, info.ty@, m));
            },
            _ => {},
        }
    }
}

/// A declaration with distinct universe parameters, whose type has no free variables and is
/// found to be a type, and whose value, if it has one, is found to have that type, is accepted
/// with a little more fuel. A constructor, or a recursor, is accepted where the inductive types that
/// it belongs to are declared.
pub proof fn declarations_are_accepted(file: ExportFile, d: Declar, cutoff: usize, n: nat)
    requires
        file.wf(),
        !(d is Inductive || d is Quot),
        distinct_params(d.about().uparams@),
        !has_local(d.about().ty@),
        Env::cut(file.declars, EnvLimit::ByName(d.about().name), cutoff),
        well_typed(file.theory_at(cutoff as int), d, n),
        d matches Declar::Constructor(c) ==> file.declars.declared(c.inductive_name),
        d matches Declar::Recursor(r) ==> file.declars.all_declared(r.all_inductives@),
    ensures
        forall|fuel: nat| fuel >= n + 3 ==> #[trigger] file.accepts(d, fuel),
{
    let th = file.theory_at(cutoff as int);
    accepted_from(th, d, n);
    file.declars_ok();
    assert forall|fuel: nat| fuel >= n + 3 implies #[trigger] file.accepts(d, fuel) by {
        assert forall|other: usize| #[trigger]
            Env::cut(file.declars, EnvLimit::ByName(d.about().name), other) implies accepts_at(
            file.theory_at(other as int),
            d,
            fuel,
        ) by {
            let name = d.about().name;
            if file.declars.declares(cutoff as int, name) && file.declars.declares(
                other as int,
                name,
            ) {
                file.declars.declared_once(cutoff as int, other as int, name);
            }
            assert(other == cutoff);
            assert(accepts_at(th, d, fuel));
        }
    }
}



} // verus!
