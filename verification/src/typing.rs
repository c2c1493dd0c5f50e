//! Laws of types: the type that a term is found to have, and when it is found with everything
//! checked, from what is found of its parts.
use crate::answers::{
    check_from, checks, equal_from, equals, no_prop_from, no_proposition, prop_from, proposition, strong_from,
    strongs, type_from, types, whnf_from, whnfs,
};
use crate::fuel::{args_check_more, checks_more, level_checks_more, pi_level_more, spine_type_more, type_more};
use crate::judge::{close, ctor_type, levels_declared, opened, plain, projections, Ck, Theory};
use crate::ops::abstr_fits;
use crate::steps::{
    args_check_at, args_check_first, checks_at, checks_first, deq_at, fields_at, fields_first, inside_at, inside_first,
    left_alone_at, level_checks_at, level_checks_first, params_at, params_first, pi_at, pi_first, pi_level_at,
    pi_level_first, proj_type_at, proj_type_first, prop_at, sort_at, sort_checks_at, sort_first, spine_type_at,
    spine_type_first, strong_at, strong_first, type_at, type_first, type_whnf_at, type_whnf_first, whnf_at, whnf_first,
};
use crate::tree::{args, depth_bound, head, inst1, loose, tm_lsubst, Lv, Nm, Tm};
use vstd::prelude::*;

verus! {

/// A variable has the type that it carries, a universe the next universe, and a constant the
/// type that it is declared with.
pub proof fn leaves_have_types(th: Theory, e: Tm, n: nat)
    ensures
        e matches Tm::Local(_, _, ty, _) ==> types(th, e, *ty, n),
        e matches Tm::Sort(l) ==> types(th, e, Tm::Sort(Lv::Succ(Box::new(l))), n),
        e matches Tm::Const(c, ls) ==> (th.decls.contains_key(c) ==> types(
            th,
            e,
            tm_lsubst(th.decls[c].about().ty@, th.decls[c].about().uparams@, ls),
            n,
        )),
{
    type_first(th, e);
    let a = type_at(th, e, n);
}

/// A literal has the type of numbers, or of strings, where there are such literals.
pub proof fn literals_have_types(th: Theory, e: Tm, n: nat)
    ensures
        e is NatLit && th.nat_ext ==> (th.names.nat matches Some(p) ==> types(th, e, plain(p@), n)),
        e is StrLit && th.str_ext ==> (th.names.string matches Some(p) ==> types(th, e, plain(p@), n)),
{
    type_first(th, e);
    let a = type_at(th, e, n);
}

/// Leaves are checked: the levels in them have to be declared.
pub proof fn leaves_are_checked(th: Theory, ck: Ck, e: Tm, n: nat)
    ensures
        e is Local ==> checks(th, ck, e, n),
        e matches Tm::Sort(l) ==> (levels_declared(ck, seq![l]) ==> checks(th, ck, e, n)),
        e matches Tm::Const(c, ls) ==> (th.decls.contains_key(c) && levels_declared(ck, ls) ==> checks(
            th,
            ck,
            e,
            n,
        )),
        e is NatLit && th.nat_ext && th.names.nat is Some ==> checks(th, ck, e, n),
        e is StrLit && th.str_ext && th.names.string is Some ==> checks(th, ck, e, n),
{
    checks_first(th, ck, e);
    let a = checks_at(th, ck, e, n);
}

proof fn spine_from(th: Theory, f: Tm, t: Tm, n: nat) -> (r: (Tm, nat))
    requires
        types(th, f, t, n),
    ensures
        forall|m: nat| m >= n ==> #[trigger] type_at(th, head(f), m) == Some(r.0),
        forall|m: nat| m >= n ==> #[trigger] spine_type_at(th, r.0, args(f), m) == Some(t),
{
    type_first(th, f);
    if f is App {
        let k = (n - 2) as nat;
        let u = type_at(th, head(f), k)->0;
        assert forall|m: nat| m >= n implies #[trigger] type_at(th, head(f), m) == Some(u) by {
            type_more(th, head(f), k, m);
        }
        assert forall|m: nat| m >= n implies #[trigger] spine_type_at(th, u, args(f), m) == Some(t) by {
            spine_type_more(th, u, args(f), k, m);
        }
        (u, k)
    } else {
        assert(args(f) =~= Seq::<Tm>::empty());
        assert forall|m: nat| m >= n implies #[trigger] type_at(th, head(f), m) == Some(t) by {
            type_more(th, f, n, m);
        }
        spine_type_first(th, t, args(f));
        (t, n)
    }
}

proof fn pi_from(th: Theory, t: Tm, pi: Tm, n: nat)
    requires
        whnfs(th, t, pi, n),
        pi is Pi,
    ensures
        forall|m: nat| m >= n + 1 ==> #[trigger] pi_at(th, t, m) == Some(pi),
{
    whnf_from(th, t, pi, n);
    pi_first(th, t);
    whnf_first(th, t);
    assert forall|m: nat| m >= n + 1 implies #[trigger] pi_at(th, t, m) == Some(pi) by {
        assert(whnf_at(th, t, (m - 1) as nat) == Some(pi));
    }
}

/// An application has the range of the function's type, at the argument.
pub proof fn applications_have_types(th: Theory, f: Tm, x: Tm, t: Tm, pi: Tm, n: nat)
    requires
        types(th, f, t, n),
        whnfs(th, t, pi, n),
        pi is Pi,
    ensures
        types(th, Tm::App(Box::new(f), Box::new(x)), inst1(*pi->Pi_3, x), n + 8),
{
    let e = Tm::App(Box::new(f), Box::new(x));
    let (u, _) = spine_from(th, f, t, n);
    pi_from(th, t, pi, n);
    let z: nat = n + 8;
    let m = (z - 2) as nat;
    type_first(th, e);
    assert(args(e).drop_last() =~= args(f));
    assert(args(e).last() == x);
    assert(head(e) == head(f));
    spine_type_first(th, u, args(e));
    assert(type_at(th, head(f), m) == Some(u));
    assert(spine_type_at(th, u, args(f), m) == Some(t));
    assert(pi_at(th, t, m) == Some(pi));
    assert(spine_type_at(th, u, args(e), m) == Some(inst1(*pi->Pi_3, x)));
    assert(type_at(th, e, z) == Some(inst1(*pi->Pi_3, x)));
}

/// An application is checked where the function and the argument are, and the argument's type
/// is found to be equal to the domain of the function's type.
pub proof fn applications_are_checked(th: Theory, ck: Ck, f: Tm, x: Tm, t: Tm, pi: Tm, u: Tm, n: nat)
    requires
        checks(th, ck, f, n),
        types(th, f, t, n),
        whnfs(th, t, pi, n),
        pi is Pi,
        checks(th, ck, x, n),
        types(th, x, u, n),
        equals(th, *pi->Pi_2, u, n),
    ensures
        checks(th, ck, Tm::App(Box::new(f), Box::new(x)), n + 8),
{
    let e = Tm::App(Box::new(f), Box::new(x));
    let (v, _) = spine_from(th, f, t, n);
    pi_from(th, t, pi, n);
    check_from(th, ck, x, n);
    type_from(th, x, u, n);
    equal_from(th, *pi->Pi_2, u, n);
    check_from(th, ck, f, n);
    let z: nat = n + 8;
    let m = (z - 2) as nat;
    checks_first(th, ck, e);
    checks_first(th, ck, f);
    assert(args(e).drop_last() =~= args(f));
    assert(args(e).last() == x);
    assert(head(e) == head(f));
    args_check_first(th, ck, v, args(e));
    assert(type_at(th, head(f), m) == Some(v));
    if f is App {
        let j = (n - 2) as nat;
        type_first(th, f);
        type_more(th, head(f), j, m);
        assert(type_at(th, head(f), j) == Some(v));
        checks_more(th, ck, head(f), j, m);
        args_check_more(th, ck, v, args(f), j, m);
    } else {
        assert(args(f) =~= Seq::<Tm>::empty());
        checks_more(th, ck, f, n, m);
        args_check_first(th, ck, v, args(f));
        assert(args_check_at(th, ck, v, args(f), m));
    }
    assert(spine_type_at(th, v, args(f), m) == Some(t));
    assert(pi_at(th, t, m) == Some(pi));
    assert(type_at(th, x, m) == Some(u));
    assert(checks_at(th, ck, x, m));
    assert(deq_at(th, *pi->Pi_2, u, false, (m - 1) as nat));
    assert(args_check_at(th, ck, v, args(e), m));
    assert(checks_at(th, ck, e, z));
}

/// A function that takes strings is checked when it is applied to a string literal, and the
/// application has the range of its type.
pub proof fn strings_are_arguments(th: Theory, ck: Ck, f: Tm, x: Seq<char>, t: Tm, pi: Tm, name: Nm, n: nat)
    requires
        th.str_ext,
        th.names.string matches Some(p) && p@ == name,
        checks(th, ck, f, n),
        types(th, f, t, n),
        whnfs(th, t, pi, n),
        pi is Pi,
        *pi->Pi_2 == plain(name),
    ensures
        checks(th, ck, Tm::App(Box::new(f), Box::new(Tm::StrLit(x))), n + 8),
        types(
            th,
            Tm::App(Box::new(f), Box::new(Tm::StrLit(x))),
            inst1(*pi->Pi_3, Tm::StrLit(x)),
            n + 8,
        ),
{
    let l = Tm::StrLit(x);
    leaves_are_checked(th, ck, l, n);
    literals_have_types(th, l, n);
    crate::answers::same_is_equal(th, plain(name), n);
    applications_are_checked(th, ck, f, l, t, pi, plain(name), n);
    applications_have_types(th, f, l, t, pi, n);
}

/// A function that takes numbers is checked when it is applied to a number literal, and the
/// application has the range of its type.
pub proof fn numbers_are_arguments(th: Theory, ck: Ck, f: Tm, k: nat, t: Tm, pi: Tm, name: Nm, n: nat)
    requires
        th.nat_ext,
        th.names.nat matches Some(p) && p@ == name,
        checks(th, ck, f, n),
        types(th, f, t, n),
        whnfs(th, t, pi, n),
        pi is Pi,
        *pi->Pi_2 == plain(name),
    ensures
        checks(th, ck, Tm::App(Box::new(f), Box::new(Tm::NatLit(k))), n + 8),
        types(
            th,
            Tm::App(Box::new(f), Box::new(Tm::NatLit(k))),
            inst1(*pi->Pi_3, Tm::NatLit(k)),
            n + 8,
        ),
{
    let l = Tm::NatLit(k);
    leaves_are_checked(th, ck, l, n);
    literals_have_types(th, l, n);
    crate::answers::same_is_equal(th, plain(name), n);
    applications_are_checked(th, ck, f, l, t, pi, plain(name), n);
    applications_have_types(th, f, l, t, pi, n);
}

/// The body of a binder at the variable that it is opened with.
pub open spec fn opened_body(e: Tm) -> Tm {
    let k = depth_bound(e) as u16;
    match e {
        Tm::Lam(nm, st, ty, b) => inst1(*b, opened(nm, st, *ty, k)),
        Tm::Pi(nm, st, ty, b) => inst1(*b, opened(nm, st, *ty, k)),
        _ => e,
    }
}

/// A function has a function type: to the type of its body.
pub proof fn functions_have_types(th: Theory, e: Tm, t: Tm, n: nat)
    requires
        e is Lam,
        depth_bound(e) < 0xffff,
        types(th, opened_body(e), t, n),
        abstr_fits(t, depth_bound(e), depth_bound(e) + 1, 0),
    ensures
        types(
            th,
            e,
            Tm::Pi(e->Lam_0, e->Lam_1, e->Lam_2, Box::new(close(t, depth_bound(e) as u16))),
            n + 8,
        ),
{
    type_from(th, opened_body(e), t, n);
    type_first(th, e);
    let r = Tm::Pi(e->Lam_0, e->Lam_1, e->Lam_2, Box::new(close(t, depth_bound(e) as u16)));
    assert(type_at(th, opened_body(e), n + 6) == Some(t));
    assert(type_at(th, e, n + 8) == Some(r));
}

/// The term is found to be a type, of the universe of the level.
pub open spec fn is_type(th: Theory, t: Tm, l: Lv, n: nat) -> bool {
    exists|s: Tm| #[trigger] types(th, t, s, n) && whnfs(th, s, Tm::Sort(l), n)
}

proof fn sort_from(th: Theory, t: Tm, l: Lv, n: nat)
    requires
        is_type(th, t, l, n),
    ensures
        forall|m: nat| m >= n + 2 ==> #[trigger] sort_at(th, t, m) == Some(l),
{
    let s = choose|s: Tm| #[trigger] types(th, t, s, n) && whnfs(th, s, Tm::Sort(l), n);
    type_from(th, t, s, n);
    whnf_from(th, s, Tm::Sort(l), n);
    sort_first(th, t);
    type_whnf_first(th, t);
    assert forall|m: nat| m >= n + 2 implies #[trigger] sort_at(th, t, m) == Some(l) by {
        assert(type_at(th, t, (m - 2) as nat) == Some(s));
        assert(whnf_at(th, s, (m - 2) as nat) == Some(Tm::Sort(l)));
        assert(type_whnf_at(th, t, (m - 1) as nat) == Some(Tm::Sort(l)));
    }
}

/// A function is checked where its domain is and is a type, and its body is.
pub proof fn functions_are_checked(th: Theory, ck: Ck, e: Tm, l: Lv, t: Tm, n: nat)
    requires
        e is Lam,
        depth_bound(e) < 0xffff,
        checks(th, ck, *e->Lam_2, n),
        is_type(th, *e->Lam_2, l, n),
        checks(th, ck, opened_body(e), n),
        types(th, opened_body(e), t, n),
        abstr_fits(t, depth_bound(e), depth_bound(e) + 1, 0),
    ensures
        checks(th, ck, e, n + 8),
{
    check_from(th, ck, *e->Lam_2, n);
    sort_from(th, *e->Lam_2, l, n);
    check_from(th, ck, opened_body(e), n);
    type_from(th, opened_body(e), t, n);
    let z: nat = n + 8;
    let m = (z - 2) as nat;
    checks_first(th, ck, e);
    assert(checks_at(th, ck, *e->Lam_2, (m - 2) as nat));
    assert(sort_at(th, *e->Lam_2, m) == Some(l));
    assert(sort_checks_at(th, ck, *e->Lam_2, m));
    assert(checks_at(th, ck, opened_body(e), m));
    assert(type_at(th, opened_body(e), m) == Some(t));
    assert(checks_at(th, ck, e, z));
}

/// The level of the universe of a range: as it is found for a function type, and simplified
/// for other types.
pub open spec fn range_level(th: Theory, t: Tm, l: Lv, n: nat) -> bool {
    if t is Pi {
        types(th, t, Tm::Sort(l), n)
    } else {
        is_type(th, t, l, n)
    }
}

proof fn level_from(th: Theory, t: Tm, l: Lv, n: nat)
    requires
        range_level(th, t, l, n),
    ensures
        forall|m: nat| m >= n + 3 ==> #[trigger] pi_level_at(th, t, m) == Some(l),
{
    pi_level_first(th, t);
    type_first(th, t);
    if t is Pi {
        let j = (n - 2) as nat;
        assert(pi_level_at(th, t, j) == Some(l));
        assert forall|m: nat| m >= n + 3 implies #[trigger] pi_level_at(th, t, m) == Some(l) by {
            pi_level_more(th, t, j, m);
        }
    } else {
        sort_from(th, t, l, n);
        assert forall|m: nat| m >= n + 3 implies #[trigger] pi_level_at(th, t, m) == Some(l) by {
            assert(sort_at(th, t, (m - 1) as nat) == Some(l));
        }
    }
}

/// A function type is in the universe that the impredicative maximum of the levels of its
/// domain and of its range gives.
pub proof fn function_types_have_types(th: Theory, e: Tm, u: Lv, v: Lv, n: nat)
    requires
        e is Pi,
        depth_bound(e) < 0xffff,
        is_type(th, *e->Pi_2, u, n),
        range_level(th, opened_body(e), v, n),
    ensures
        types(th, e, Tm::Sort(Lv::IMax(Box::new(u), Box::new(v))), n + 8),
{
    sort_from(th, *e->Pi_2, u, n);
    level_from(th, opened_body(e), v, n);
    let m: nat = n + 6;
    type_first(th, e);
    pi_level_first(th, e);
    assert(sort_at(th, *e->Pi_2, (m - 1) as nat) == Some(u));
    assert(pi_level_at(th, opened_body(e), (m - 1) as nat) == Some(v));
    assert(pi_level_at(th, e, m) == Some(Lv::IMax(Box::new(u), Box::new(v))));
    assert(type_at(th, e, m + 2) == Some(Tm::Sort(Lv::IMax(Box::new(u), Box::new(v)))));
}

proof fn level_check_from(th: Theory, ck: Ck, t: Tm, l: Lv, n: nat)
    requires
        range_level(th, t, l, n),
        checks(th, ck, t, n),
    ensures
        forall|m: nat| m >= n + 5 ==> #[trigger] level_checks_at(th, ck, t, m),
{
    level_checks_first(th, ck, t);
    checks_first(th, ck, t);
    if t is Pi {
        let j = (n - 2) as nat;
        assert(level_checks_at(th, ck, t, j));
        assert forall|m: nat| m >= n + 5 implies #[trigger] level_checks_at(th, ck, t, m) by {
            level_checks_more(th, ck, t, j, m);
        }
    } else {
        sort_from(th, t, l, n);
        check_from(th, ck, t, n);
        assert forall|m: nat| m >= n + 5 implies #[trigger] level_checks_at(th, ck, t, m) by {
            assert(sort_at(th, t, (m - 1) as nat) == Some(l));
            assert(checks_at(th, ck, t, (m - 3) as nat));
            assert(sort_checks_at(th, ck, t, (m - 1) as nat));
        }
    }
}

/// A function type is checked where its domain and its range are, and are types.
pub proof fn function_types_are_checked(th: Theory, ck: Ck, e: Tm, u: Lv, v: Lv, n: nat)
    requires
        e is Pi,
        depth_bound(e) < 0xffff,
        checks(th, ck, *e->Pi_2, n),
        is_type(th, *e->Pi_2, u, n),
        checks(th, ck, opened_body(e), n),
        range_level(th, opened_body(e), v, n),
    ensures
        checks(th, ck, e, n + 8),
{
    sort_from(th, *e->Pi_2, u, n);
    check_from(th, ck, *e->Pi_2, n);
    level_check_from(th, ck, opened_body(e), v, n);
    let m: nat = n + 6;
    checks_first(th, ck, e);
    level_checks_first(th, ck, e);
    assert(sort_at(th, *e->Pi_2, (m - 1) as nat) == Some(u));
    assert(checks_at(th, ck, *e->Pi_2, (m - 3) as nat));
    assert(sort_checks_at(th, ck, *e->Pi_2, (m - 1) as nat));
    assert(level_checks_at(th, ck, opened_body(e), (m - 1) as nat));
    assert(level_checks_at(th, ck, e, m));
    assert(checks_at(th, ck, e, m + 2));
}

/// A local definition has the type of its body with the value put in.
pub proof fn definitions_have_types(th: Theory, e: Tm, t: Tm, n: nat)
    requires
        e matches Tm::Let(_, _, v, b, _) && types(th, inst1(*b, *v), t, n),
    ensures
        types(th, e, t, n + 8),
{
    let x = inst1(*e->Let_3, *e->Let_2);
    type_from(th, x, t, n);
    type_first(th, e);
    assert(type_at(th, x, n + 6) == Some(t));
    assert(type_at(th, e, n + 8) == Some(t));
}

/// A local definition is checked where the stated type is a type, the value has it, and the
/// body with the value put in is checked.
pub proof fn definitions_are_checked(th: Theory, ck: Ck, e: Tm, l: Lv, u: Tm, n: nat)
    requires
        e is Let,
        checks(th, ck, *e->Let_1, n),
        is_type(th, *e->Let_1, l, n),
        checks(th, ck, *e->Let_2, n),
        types(th, *e->Let_2, u, n),
        equals(th, u, *e->Let_1, n),
        checks(th, ck, inst1(*e->Let_3, *e->Let_2), n),
    ensures
        checks(th, ck, e, n + 8),
{
    let x = inst1(*e->Let_3, *e->Let_2);
    check_from(th, ck, *e->Let_1, n);
    sort_from(th, *e->Let_1, l, n);
    check_from(th, ck, *e->Let_2, n);
    type_from(th, *e->Let_2, u, n);
    equal_from(th, u, *e->Let_1, n);
    check_from(th, ck, x, n);
    let z: nat = n + 8;
    let m = (z - 2) as nat;
    checks_first(th, ck, e);
    assert(checks_at(th, ck, *e->Let_1, (m - 2) as nat));
    assert(sort_at(th, *e->Let_1, m) == Some(l));
    assert(sort_checks_at(th, ck, *e->Let_1, m));
    assert(checks_at(th, ck, *e->Let_2, m));
    assert(type_at(th, *e->Let_2, m) == Some(u));
    assert(deq_at(th, u, *e->Let_1, false, (m - 1) as nat));
    assert(checks_at(th, ck, x, m));
    assert(checks_at(th, ck, e, z));
}

/// The type reduces to a function type, whose range at the argument is the other one.
pub open spec fn pi_step(th: Theory, v: Tm, x: Tm, u: Tm, n: nat) -> bool {
    exists|w: Tm| #[trigger] whnfs(th, v, w, n) && (w matches Tm::Pi(_, _, _, b) && u == inst1(*b, x))
}

/// Behind function types that a type reduces to one after the other, with arguments put in,
/// this is what is left.
pub open spec fn behind(th: Theory, t: Tm, xs: Seq<Tm>, u: Tm, n: nat) -> bool
    decreases xs.len(),
{
    if xs.len() == 0 {
        u == t
    } else {
        exists|v: Tm| #[trigger] pi_step(th, v, xs.last(), u, n) && behind(th, t, xs.drop_last(), v, n)
    }
}

proof fn params_from(th: Theory, t: Tm, xs: Seq<Tm>, u: Tm, n: nat)
    requires
        behind(th, t, xs, u, n),
    ensures
        forall|m: nat| m >= n ==> #[trigger] params_at(th, t, xs, m) == Some(u),
    decreases xs.len(),
{
    params_first(th, t, xs);
    if xs.len() == 0 {
    } else {
        let v = choose|v: Tm| #[trigger]
            pi_step(th, v, xs.last(), u, n) && behind(th, t, xs.drop_last(), v, n);
        let w = choose|w: Tm| #[trigger]
            whnfs(th, v, w, n) && (w matches Tm::Pi(_, _, _, b) && u == inst1(*b, xs.last()));
        params_from(th, t, xs.drop_last(), v, n);
        whnf_from(th, v, w, n);
        assert forall|m: nat| m >= n implies #[trigger] params_at(th, t, xs, m) == Some(u) by {
            assert(params_at(th, t, xs.drop_last(), m) == Some(v));
            assert(whnf_at(th, v, m) == Some(w));
        }
    }
}

proof fn fields_from(th: Theory, t: Tm, s: Tm, ind: Nm, j: nat, u: Tm, n: nat)
    requires
        behind(th, t, projections(ind, s, j), u, n),
    ensures
        forall|m: nat| m >= n ==> #[trigger] fields_at(th, t, s, ind, j, false, m) == Some(u),
    decreases j,
{
    fields_first(th, t, s, ind, j, false);
    let xs = projections(ind, s, j);
    if j == 0 {
    } else {
        let i = (j - 1) as nat;
        assert(xs.drop_last() =~= projections(ind, s, i));
        assert(xs.last() == Tm::Proj(ind, i, Box::new(s)));
        let v = choose|v: Tm| #[trigger]
            pi_step(th, v, xs.last(), u, n) && behind(th, t, xs.drop_last(), v, n);
        let w = choose|w: Tm| #[trigger]
            whnfs(th, v, w, n) && (w matches Tm::Pi(_, _, _, b) && u == inst1(*b, xs.last()));
        fields_from(th, t, s, ind, i, v, n);
        whnf_from(th, v, w, n);
        assert forall|m: nat| m >= n implies #[trigger] fields_at(th, t, s, ind, j, false, m)
            == Some(u) by {
            assert(fields_at(th, t, s, ind, i, false, m) == Some(v));
            assert(whnf_at(th, v, m) == Some(w));
        }
    }
}

/// What is found of a structure: its type reduces to the inductive type, whose constructor's
/// type, with the parameters put in, is the last one.
pub open spec fn structure_type(th: Theory, s: Tm, raw: Tm, ty: Tm, ind: Nm, ct: Tm, t1: Tm, n: nat) -> bool {
    &&& types(th, s, raw, n)
    &&& whnfs(th, raw, ty, n)
    &&& head(ty) matches Tm::Const(d, ls) && d == ind && ctor_type(th, ind, ls) == Some(ct)
    &&& th.inductive(ind) matches Some(d) && d.num_params <= args(ty).len() && behind(
        th,
        ct,
        args(ty).take(d.num_params as int),
        t1,
        n,
    )
}

/// A projection from a structure that is no proposition has the type of the field, with the
/// fields in front of it put in as projections.
pub proof fn projections_have_types(
    th: Theory,
    e: Tm,
    i: nat,
    s: Tm,
    raw: Tm,
    ty: Tm,
    ind: Nm,
    ct: Tm,
    t1: Tm,
    t2: Tm,
    pi: Tm,
    n: nat,
)
    requires
        e matches Tm::Proj(_, j, x) && j == i && *x == s,
        structure_type(th, s, raw, ty, ind, ct, t1, n),
        no_proposition(th, ty, n),
        behind(th, t1, projections(ind, s, i), t2, n),
        whnfs(th, t2, pi, n),
        pi is Pi,
    ensures
        types(th, e, *pi->Pi_2, n + 8),
        forall|ck: Ck| checks(th, ck, s, n) ==> #[trigger] checks(th, ck, e, n + 8),
{
    let np = th.inductive(ind)->0.num_params as int;
    type_from(th, s, raw, n);
    whnf_from(th, raw, ty, n);
    no_prop_from(th, ty, n);
    params_from(th, ct, args(ty).take(np), t1, n);
    fields_from(th, t1, s, ind, i, t2, n);
    whnf_from(th, t2, pi, n);
    let m: nat = n + 6;
    type_first(th, e);
    proj_type_first(th, i, s);
    assert forall|k: nat| k >= m implies #[trigger] proj_type_at(th, i, s, k + 1) == Some(*pi->Pi_2) by {
        assert(type_at(th, s, k) == Some(raw));
        assert(whnf_at(th, raw, k) == Some(ty));
        assert(prop_at(th, ty, k) == Some(false));
        assert(params_at(th, ct, args(ty).take(np), k) == Some(t1));
        assert(fields_at(th, t1, s, ind, i, false, k) == Some(t2));
        assert(whnf_at(th, t2, k) == Some(pi));
    }
    assert(proj_type_at(th, i, s, m + 1) == Some(*pi->Pi_2));
    assert(type_at(th, e, m + 2) == Some(*pi->Pi_2));
    assert forall|ck: Ck| checks(th, ck, s, n) implies #[trigger] checks(th, ck, e, n + 8) by {
        check_from(th, ck, s, n);
        checks_first(th, ck, e);
        assert(checks_at(th, ck, s, m));
        assert(proj_type_at(th, i, s, m + 1) == Some(*pi->Pi_2));
        assert(checks_at(th, ck, e, m + 2));
    }
}

/// The type reduces to a function type, whose range at the argument is the other one; where the
/// range depends on the argument, the domain is a proposition.
pub open spec fn proof_step(th: Theory, v: Tm, x: Tm, u: Tm, n: nat) -> bool {
    exists|w: Tm| #[trigger]
        whnfs(th, v, w, n) && (w matches Tm::Pi(_, _, a, b) && (loose(*b) == 0 || proposition(th, *a, n)) && u
            == inst1(*b, x))
}

/// Behind the first fields of a proposition, with projections put in, this is what is left.
pub open spec fn behind_proofs(th: Theory, t: Tm, s: Tm, ind: Nm, j: nat, u: Tm, n: nat) -> bool
    decreases j,
{
    if j == 0 {
        u == t
    } else {
        exists|v: Tm| #[trigger]
            proof_step(th, v, Tm::Proj(ind, (j - 1) as nat, Box::new(s)), u, n) && behind_proofs(
                th,
                t,
                s,
                ind,
                (j - 1) as nat,
                v,
                n,
            )
    }
}

proof fn proof_fields_from(th: Theory, t: Tm, s: Tm, ind: Nm, j: nat, u: Tm, n: nat)
    requires
        behind_proofs(th, t, s, ind, j, u, n),
    ensures
        forall|m: nat| m >= n + 2 ==> #[trigger] fields_at(th, t, s, ind, j, true, m) == Some(u),
    decreases j,
{
    fields_first(th, t, s, ind, j, true);
    if j == 0 {
    } else {
        let i = (j - 1) as nat;
        let x = Tm::Proj(ind, i, Box::new(s));
        let v = choose|v: Tm| #[trigger]
            proof_step(th, v, x, u, n) && behind_proofs(th, t, s, ind, i, v, n);
        let w = choose|w: Tm| #[trigger]
            whnfs(th, v, w, n) && (w matches Tm::Pi(_, _, a, b) && (loose(*b) == 0 || proposition(th, *a, n))
                && u == inst1(*b, x));
        proof_fields_from(th, t, s, ind, i, v, n);
        whnf_from(th, v, w, n);
        if proposition(th, *w->Pi_2, n) {
            prop_from(th, *w->Pi_2, n);
        }
        assert forall|m: nat| m >= n + 2 implies #[trigger] fields_at(th, t, s, ind, j, true, m)
            == Some(u) by {
            assert(fields_at(th, t, s, ind, i, true, m) == Some(v));
            assert(whnf_at(th, v, m) == Some(w));
            if proposition(th, *w->Pi_2, n) {
                assert(prop_at(th, *w->Pi_2, m) == Some(true));
            }
        }
    }
}

/// A projection from a proposition has the type of the field, where that is a proposition and
/// the fields in front that it depends on are.
pub proof fn proofs_are_projected(
    th: Theory,
    e: Tm,
    i: nat,
    s: Tm,
    raw: Tm,
    ty: Tm,
    ind: Nm,
    ct: Tm,
    t1: Tm,
    t2: Tm,
    pi: Tm,
    n: nat,
)
    requires
        e matches Tm::Proj(_, j, x) && j == i && *x == s,
        structure_type(th, s, raw, ty, ind, ct, t1, n),
        proposition(th, ty, n),
        behind_proofs(th, t1, s, ind, i, t2, n),
        whnfs(th, t2, pi, n),
        pi is Pi,
        proposition(th, *pi->Pi_2, n),
    ensures
        types(th, e, *pi->Pi_2, n + 8),
        forall|ck: Ck| checks(th, ck, s, n) ==> #[trigger] checks(th, ck, e, n + 8),
{
    let np = th.inductive(ind)->0.num_params as int;
    type_from(th, s, raw, n);
    whnf_from(th, raw, ty, n);
    prop_from(th, ty, n);
    params_from(th, ct, args(ty).take(np), t1, n);
    prop_from(th, *pi->Pi_2, n);
    whnf_from(th, t2, pi, n);
    proof_fields_from(th, t1, s, ind, i, t2, n);
    let m: nat = n + 6;
    type_first(th, e);
    proj_type_first(th, i, s);
    assert forall|k: nat| k >= m implies #[trigger] proj_type_at(th, i, s, k + 1) == Some(*pi->Pi_2) by {
        assert(type_at(th, s, k) == Some(raw));
        assert(whnf_at(th, raw, k) == Some(ty));
        assert(prop_at(th, ty, k) == Some(true));
        assert(params_at(th, ct, args(ty).take(np), k) == Some(t1));
        assert(fields_at(th, t1, s, ind, i, true, k) == Some(t2));
        assert(whnf_at(th, t2, k) == Some(pi));
        assert(prop_at(th, *pi->Pi_2, k) == Some(true));
    }
    assert(proj_type_at(th, i, s, m + 1) == Some(*pi->Pi_2));
    assert(type_at(th, e, m + 2) == Some(*pi->Pi_2));
    assert forall|ck: Ck| checks(th, ck, s, n) implies #[trigger] checks(th, ck, e, n + 8) by {
        check_from(th, ck, s, n);
        checks_first(th, ck, e);
        assert(checks_at(th, ck, s, m));
        assert(proj_type_at(th, i, s, m + 1) == Some(*pi->Pi_2));
        assert(checks_at(th, ck, e, m + 2));
    }
}

/// Types, where they are not asked for, are left alone by reduction everywhere.
pub proof fn types_are_left(th: Theory, e: Tm, proofs: bool, l: Lv, n: nat)
    requires
        types(th, e, Tm::Sort(l), n),
    ensures
        strongs(th, e, false, proofs, e, n + 8),
{
    type_from(th, e, Tm::Sort(l), n);
    strong_first(th, e, false, proofs);
    assert(type_at(th, e, n + 7) == Some(Tm::Sort(l)));
    assert(strong_at(th, e, false, proofs, n + 8) == Some(e));
}

/// Proofs, where they are not asked for, are left alone by reduction everywhere.
pub proof fn proofs_are_left(th: Theory, e: Tm, ty: bool, t: Tm, n: nat)
    requires
        types(th, e, t, n),
        proposition(th, t, n),
    ensures
        strongs(th, e, ty, false, e, n + 8),
{
    type_from(th, e, t, n);
    prop_from(th, t, n);
    strong_first(th, e, ty, false);
    assert(type_at(th, e, n + 7) == Some(t));
    assert(prop_at(th, t, n + 7) == Some(true));
    assert(strong_at(th, e, ty, false, n + 8) == Some(e));
}

/// The term is not left alone by reduction everywhere.
pub open spec fn is_entered(th: Theory, e: Tm, ty: bool, proofs: bool, n: nat) -> bool {
    (ty && proofs) || exists|t: Tm| #[trigger]
        types(th, e, t, n) && (ty || !(t is Sort)) && (proofs || no_proposition(th, t, n))
}

proof fn entered_from(th: Theory, e: Tm, ty: bool, proofs: bool, n: nat)
    requires
        is_entered(th, e, ty, proofs, n),
    ensures
        forall|m: nat| m >= n + 2 ==> #[trigger] left_alone_at(th, e, ty, proofs, m) == Some(false),
{
    if ty && proofs {
    } else {
        let t = choose|t: Tm| #[trigger]
            types(th, e, t, n) && (ty || !(t is Sort)) && (proofs || no_proposition(th, t, n));
        type_from(th, e, t, n);
        if !proofs {
            no_prop_from(th, t, n);
        }
        assert forall|m: nat| m >= n + 2 implies #[trigger] left_alone_at(th, e, ty, proofs, m)
            == Some(false) by {
            assert(type_at(th, e, m) == Some(t));
            if !proofs {
                assert(prop_at(th, t, m) == Some(false));
            }
        }
    }
}

/// Reduction everywhere reduces the function and the argument of an application.
pub proof fn applications_are_reduced(
    th: Theory,
    e: Tm,
    ty: bool,
    proofs: bool,
    f: Tm,
    x: Tm,
    g: Tm,
    y: Tm,
    n: nat,
)
    requires
        is_entered(th, e, ty, proofs, n),
        whnfs(th, e, Tm::App(Box::new(f), Box::new(x)), n),
        strongs(th, f, ty, proofs, g, n),
        strongs(th, x, ty, proofs, y, n),
    ensures
        strongs(th, e, ty, proofs, Tm::App(Box::new(g), Box::new(y)), n + 8),
{
    let w = Tm::App(Box::new(f), Box::new(x));
    let r = Tm::App(Box::new(g), Box::new(y));
    entered_from(th, e, ty, proofs, n);
    whnf_from(th, e, w, n);
    strong_from(th, f, ty, proofs, g, n);
    strong_from(th, x, ty, proofs, y, n);
    let z: nat = n + 8;
    strong_first(th, e, ty, proofs);
    inside_first(th, w, ty, proofs);
    assert(left_alone_at(th, e, ty, proofs, (z - 1) as nat) == Some(false));
    assert(whnf_at(th, e, (z - 1) as nat) == Some(w));
    assert(strong_at(th, f, ty, proofs, (z - 2) as nat) == Some(g));
    assert(strong_at(th, x, ty, proofs, (z - 2) as nat) == Some(y));
    assert(inside_at(th, w, ty, proofs, (z - 1) as nat) == Some(r));
    assert(strong_at(th, e, ty, proofs, z) == Some(r));
}

/// Reduction everywhere reduces the body of a function, or of a function type, and keeps the
/// type of the binder.
pub proof fn binders_are_reduced(th: Theory, e: Tm, ty: bool, proofs: bool, w: Tm, t: Tm, n: nat)
    requires
        is_entered(th, e, ty, proofs, n),
        whnfs(th, e, w, n),
        w is Lam || w is Pi,
        depth_bound(w) < 0xffff,
        strongs(th, opened_body(w), ty, proofs, t, n),
        abstr_fits(t, depth_bound(w), depth_bound(w) + 1, 0),
    ensures
        w matches Tm::Lam(nm, st, d, _) ==> strongs(
            th,
            e,
            ty,
            proofs,
            Tm::Lam(nm, st, d, Box::new(close(t, depth_bound(w) as u16))),
            n + 8,
        ),
        w matches Tm::Pi(nm, st, d, _) ==> strongs(
            th,
            e,
            ty,
            proofs,
            Tm::Pi(nm, st, d, Box::new(close(t, depth_bound(w) as u16))),
            n + 8,
        ),
{
    entered_from(th, e, ty, proofs, n);
    whnf_from(th, e, w, n);
    strong_from(th, opened_body(w), ty, proofs, t, n);
    let z: nat = n + 8;
    strong_first(th, e, ty, proofs);
    inside_first(th, w, ty, proofs);
    assert(left_alone_at(th, e, ty, proofs, (z - 1) as nat) == Some(false));
    assert(whnf_at(th, e, (z - 1) as nat) == Some(w));
    assert(strong_at(th, opened_body(w), ty, proofs, (z - 3) as nat) == Some(t));
    let r = inside_at(th, w, ty, proofs, (z - 1) as nat);
    assert(strong_at(th, e, ty, proofs, z) == r);
}

/// Reduction everywhere reduces the structure that is projected from, and goes on where the
/// projection then reduces.
pub proof fn projections_are_reduced(
    th: Theory,
    e: Tm,
    ty: bool,
    proofs: bool,
    nm: Nm,
    i: nat,
    s: Tm,
    t: Tm,
    y: Tm,
    r: Tm,
    n: nat,
)
    requires
        is_entered(th, e, ty, proofs, n),
        whnfs(th, e, Tm::Proj(nm, i, Box::new(s)), n),
        strongs(th, s, ty, proofs, t, n),
        whnfs(th, Tm::Proj(nm, i, Box::new(t)), y, n),
        if y == Tm::Proj(nm, i, Box::new(t)) {
            r == y
        } else {
            strongs(th, y, ty, proofs, r, n)
        },
    ensures
        strongs(th, e, ty, proofs, r, n + 8),
{
    let w = Tm::Proj(nm, i, Box::new(s));
    let x = Tm::Proj(nm, i, Box::new(t));
    entered_from(th, e, ty, proofs, n);
    whnf_from(th, e, w, n);
    strong_from(th, s, ty, proofs, t, n);
    whnf_from(th, x, y, n);
    if y != x {
        strong_from(th, y, ty, proofs, r, n);
    }
    let z: nat = n + 8;
    strong_first(th, e, ty, proofs);
    inside_first(th, w, ty, proofs);
    assert(left_alone_at(th, e, ty, proofs, (z - 1) as nat) == Some(false));
    assert(whnf_at(th, e, (z - 1) as nat) == Some(w));
    assert(strong_at(th, s, ty, proofs, (z - 2) as nat) == Some(t));
    assert(whnf_at(th, x, (z - 2) as nat) == Some(y));
    if y != x {
        assert(strong_at(th, y, ty, proofs, (z - 2) as nat) == Some(r));
    }
    assert(inside_at(th, w, ty, proofs, (z - 1) as nat) == Some(r));
    assert(strong_at(th, e, ty, proofs, z) == Some(r));
}

/// Reduction everywhere of anything else is reduction at the head.
pub proof fn leaves_are_reduced(th: Theory, e: Tm, ty: bool, proofs: bool, w: Tm, n: nat)
    requires
        is_entered(th, e, ty, proofs, n),
        whnfs(th, e, w, n),
        !(w is App || w is Lam || w is Pi || w is Proj),
    ensures
        strongs(th, e, ty, proofs, w, n + 8),
{
    entered_from(th, e, ty, proofs, n);
    whnf_from(th, e, w, n);
    let z: nat = n + 8;
    strong_first(th, e, ty, proofs);
    inside_first(th, w, ty, proofs);
    assert(left_alone_at(th, e, ty, proofs, (z - 1) as nat) == Some(false));
    assert(whnf_at(th, e, (z - 1) as nat) == Some(w));
    assert(inside_at(th, w, ty, proofs, (z - 1) as nat) == Some(w));
    assert(strong_at(th, e, ty, proofs, z) == Some(w));
}



} // verus!
