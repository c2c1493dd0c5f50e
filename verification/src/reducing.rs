//! Laws of reduction: what a term is found to reduce to, from what its parts are found to
//! reduce to.
use crate::answers::{
    core_from, cores, equal_from, equals, no_proposition, type_from, types, whnf_from, whnfs,
};
use crate::bignum::{bin_fits, nat_bin_out, NatBinOp, NatOut};
use crate::env::{Declar, RecursorData};
use crate::fuel::{nat_more, whnf_core_more};
use crate::judge::{
    ctor_app, ctor_fields, first_ctor, iota_result, is_named, major_induct, nat_ctor, op_named, plain,
    projections, quot_pos, rule_for, str_ctor, unfolds, Theory,
};
use crate::steps::{
    beta_all, bin_first, deq_at, eta_first, go_first, k_first, major_at, major_first, nat_at, nat_first,
    proj_first, quot_at, quot_first, rec_at, rec_first, rule_at_is, str_at, str_first, type_at, type_whnf_at,
    type_whnf_first, whnf_at, whnf_core_at, whnf_core_first, whnf_first, whnf_go,
};
use crate::tree::{
    all_closed, apps, args, has_local, head, inst1, lv_simplify, tm_lsubst, Lv, Nm, Tm,
};
use vstd::prelude::*;

verus! {

/// Functions, function types, variables and literals reduce to themselves, and universes to
/// the universe of the simplified level.
pub proof fn forms_stay(th: Theory, e: Tm, n: nat)
    ensures
        e is Pi || e is Lam || e is Local || e is NatLit || e is StrLit ==> whnfs(th, e, e, n) && cores(
            th,
            e,
            e,
            n,
        ),
        e matches Tm::Sort(l) ==> whnfs(th, e, Tm::Sort(lv_simplify(l)), n) && cores(
            th,
            e,
            Tm::Sort(lv_simplify(l)),
            n,
        ),
{
    whnf_first(th, e);
    whnf_core_first(th, e);
    let a = whnf_at(th, e, n);
    let b = whnf_core_at(th, e, n);
}

/// What declarations are there for: definitions and theorems unfold at as many levels as they
/// have parameters, and nothing else does; recursors, constructors and inductive types are
/// found under their names; and an inductive type with one constructor, without indices, that
/// does not occur in itself is a structure.
pub proof fn declarations_are_found(th: Theory, n: Nm, ls: Seq<Lv>)
    requires
        th.decls.contains_key(n),
    ensures
        match th.decls[n] {
            Declar::Definition { val, info, .. } => info.uparams@.len() == ls.len() ==> th.delta(n, ls)
                == Some(tm_lsubst(val@, info.uparams@, ls)),
            Declar::Theorem { val, info, .. } => info.uparams@.len() == ls.len() ==> th.delta(n, ls)
                == Some(tm_lsubst(val@, info.uparams@, ls)),
            Declar::Recursor(r) => th.recursor(n) == Some(r) && th.delta(n, ls) is None,
            Declar::Constructor(c) => th.ctor_params(n) == Some(c.num_params as nat) && ctor_fields(th, n)
                == Some(c.num_fields as nat) && th.delta(n, ls) is None,
            Declar::Inductive(d) => {
                &&& th.inductive(n) == Some(d) && th.delta(n, ls) is None
                &&& th.is_struct(n) <==> d.all_ctor_names@.len() == 1 && d.num_indices == 0
                    && !d.is_recursive
                &&& d.all_ctor_names@.len() > 0 && th.ctor_params(d.all_ctor_names@[0]@) is Some
                    ==> first_ctor(th, n) == Some(d.all_ctor_names@[0]@)
            },
            Declar::Quot { .. } => th.is_quot(n) && th.delta(n, ls) is None,
            _ => th.delta(n, ls) is None,
        },
{
}

/// Something is at the head of the term, with arguments or without.
pub open spec fn compound(e: Tm) -> bool {
    e is App || e is Const || e is Let || e is Proj
}

/// A variable, or a literal, with arguments reduces to itself.
pub proof fn heads_stay(th: Theory, e: Tm, n: nat)
    requires
        e is App,
        head(e) is Local || head(e) is NatLit || head(e) is StrLit,
    ensures
        cores(th, e, e, n + 8),
{
    whnf_core_first(th, e);
    assert(whnf_core_at(th, e, n + 8) == Some(e));
}

/// Beta: a function applied to arguments reduces as its body with the arguments put in does.
pub proof fn functions_are_applied(th: Theory, e: Tm, w: Tm, n: nat)
    requires
        e is App,
        head(e) is Lam,
        all_closed(args(e)),
        cores(th, beta_all(head(e), args(e)), w, n),
    ensures
        cores(th, e, w, n + 8),
{
    core_from(th, beta_all(head(e), args(e)), w, n);
    whnf_core_first(th, e);
    assert(whnf_core_at(th, e, n + 8) == Some(w));
}

/// A local definition reduces as its body with the value put in does.
pub proof fn definitions_are_put_in(th: Theory, e: Tm, w: Tm, n: nat)
    requires
        compound(e),
        head(e) matches Tm::Let(_, _, v, b, _) && cores(th, apps(inst1(*b, *v), args(e)), w, n),
    ensures
        cores(th, e, w, n + 8),
{
    let (v, b) = (head(e)->Let_2, head(e)->Let_3);
    core_from(th, apps(inst1(*b, *v), args(e)), w, n);
    whnf_core_first(th, e);
    assert(whnf_core_at(th, e, n + 8) == Some(w));
}

/// A projection from what reduces to a constructor reduces as the field does.
pub proof fn fields_are_projected(th: Theory, e: Tm, i: nat, s: Tm, c: Tm, k: Nm, m: nat, w: Tm, n: nat)
    requires
        compound(e),
        head(e) matches Tm::Proj(_, j, x) && j == i && *x == s,
        whnfs(th, s, c, n),
        head(c) matches Tm::Const(d, _) && d == k,
        th.ctor_params(k) == Some(m),
        m + i < args(c).len(),
        cores(th, apps(args(c)[m + i as int], args(e)), w, n),
    ensures
        cores(th, e, w, n + 8),
{
    whnf_from(th, s, c, n);
    core_from(th, apps(args(c)[m + i as int], args(e)), w, n);
    let z: nat = n + 8;
    whnf_core_first(th, e);
    proj_first(th, i, s);
    assert(whnf_at(th, s, (z - 2) as nat) == Some(c));
    assert(whnf_core_at(th, e, z) == Some(w));
}

/// A projection from a string reduces as the field of the constructor that it stands for.
pub proof fn fields_of_strings(
    th: Theory,
    e: Tm,
    i: nat,
    s: Tm,
    x: Seq<char>,
    c0: Tm,
    c: Tm,
    k: Nm,
    m: nat,
    w: Tm,
    n: nat,
)
    requires
        compound(e),
        head(e) matches Tm::Proj(_, j, y) && j == i && *y == s,
        whnfs(th, s, Tm::StrLit(x), n),
        th.nat_ext,
        str_ctor(th.names, x) == Some(c0),
        whnfs(th, c0, c, n),
        head(c) matches Tm::Const(d, _) && d == k,
        th.ctor_params(k) == Some(m),
        m + i < args(c).len(),
        cores(th, apps(args(c)[m + i as int], args(e)), w, n),
    ensures
        cores(th, e, w, n + 8),
{
    whnf_from(th, s, Tm::StrLit(x), n);
    whnf_from(th, c0, c, n);
    core_from(th, apps(args(c)[m + i as int], args(e)), w, n);
    let z: nat = n + 8;
    whnf_core_first(th, e);
    proj_first(th, i, s);
    str_first(th, x);
    assert(whnf_at(th, s, (z - 2) as nat) == Some(Tm::StrLit(x)));
    assert(whnf_at(th, c0, (z - 3) as nat) == Some(c));
    assert(str_at(th, x, (z - 2) as nat) == Some(Some(c)));
    assert(whnf_core_at(th, e, z) == Some(w));
}

/// A projection from what reduces to no constructor stays.
pub proof fn projections_stay(th: Theory, e: Tm, i: nat, s: Tm, c: Tm, n: nat)
    requires
        compound(e),
        head(e) matches Tm::Proj(_, j, x) && j == i && *x == s,
        whnfs(th, s, c, n),
        !ctor_app(th, c),
        !(c is StrLit),
    ensures
        cores(th, e, e, n + 8),
{
    whnf_from(th, s, c, n);
    let z: nat = n + 8;
    whnf_core_first(th, e);
    proj_first(th, i, s);
    assert(whnf_at(th, s, (z - 2) as nat) == Some(c));
    assert(whnf_core_at(th, e, z) == Some(e));
}

/// An eliminator of quotients applied to a member of a class reduces as the function applied
/// to the member.
pub proof fn quotients_are_lifted(th: Theory, e: Tm, c: Nm, p: nat, q: Tm, w: Tm, n: nat)
    requires
        compound(e),
        head(e) matches Tm::Const(d, _) && d == c,
        th.is_quot(c),
        th.names.quot_lift is Some,
        quot_pos(th.names, c) == Some(p),
        p < args(e).len(),
        whnfs(th, args(e)[p as int], q, n),
        head(q) matches Tm::Const(k, _) && is_named(th.names.quot_mk, k),
        args(q).len() == 3,
        cores(
            th,
            apps(
                Tm::App(Box::new(args(e)[3]), Box::new(args(q)[2])),
                args(e).skip(p as int + 1),
            ),
            w,
            n,
        ),
    ensures
        cores(th, e, w, n + 8),
{
    whnf_from(th, args(e)[p as int], q, n);
    let r = apps(
        Tm::App(Box::new(args(e)[3]), Box::new(args(q)[2])),
        args(e).skip(p as int + 1),
    );
    core_from(th, r, w, n);
    let z: nat = n + 8;
    whnf_core_first(th, e);
    quot_first(th, c, args(e));
    assert(whnf_at(th, args(e)[p as int], (z - 2) as nat) == Some(q));
    assert(quot_at(th, c, args(e), (z - 1) as nat) == Some(Some(r)));
    assert(whnf_core_at(th, e, z) == Some(w));
}

/// An eliminator of quotients whose major premise reduces to something else stays.
pub proof fn quotients_stay(th: Theory, e: Tm, c: Nm, p: nat, q: Tm, n: nat)
    requires
        compound(e),
        head(e) matches Tm::Const(d, _) && d == c,
        th.is_quot(c),
        quot_pos(th.names, c) == Some(p),
        p < args(e).len(),
        whnfs(th, args(e)[p as int], q, n),
        !((head(q) matches Tm::Const(k, _) && is_named(th.names.quot_mk, k)) && args(q).len() == 3),
    ensures
        cores(th, e, e, n + 8),
{
    whnf_from(th, args(e)[p as int], q, n);
    let z: nat = n + 8;
    whnf_core_first(th, e);
    quot_first(th, c, args(e));
    rec_first(th, c, head(e)->Const_1, args(e));
    assert(whnf_at(th, args(e)[p as int], (z - 2) as nat) == Some(q));
    assert(whnf_core_at(th, e, z) == Some(e));
}

/// A constant that is no eliminator, or one with too few arguments, stays.
pub proof fn constants_stay(th: Theory, e: Tm, c: Nm, n: nat)
    requires
        compound(e),
        head(e) matches Tm::Const(d, _) && d == c,
        th.recursor(c) matches Some(rec) ==> args(e).len() <= rec.major_pos(),
        th.is_quot(c) ==> (quot_pos(th.names, c) matches Some(p) ==> args(e).len() <= p),
    ensures
        cores(th, e, e, n + 8),
{
    whnf_core_first(th, e);
    quot_first(th, c, args(e));
    rec_first(th, c, head(e)->Const_1, args(e));
    assert(whnf_core_at(th, e, n + 8) == Some(e));
}

/// A recursor is applied to its major premise.
pub open spec fn recursor_at(th: Theory, e: Tm, c: Nm, ls: Seq<Lv>, rec: RecursorData) -> bool {
    &&& compound(e)
    &&& head(e) == Tm::Const(c, ls)
    &&& th.recursor(c) == Some(rec)
    &&& args(e).len() > rec.major_pos()
}

/// The major premise of the recursor.
pub open spec fn major(e: Tm, rec: RecursorData) -> Tm {
    args(e)[rec.major_pos() as int]
}

/// The recursor has the rule for the constructor at the head of the term, which has as many
/// arguments as the rule takes.
pub open spec fn has_rule(rec: RecursorData, q: Tm, i: int) -> bool {
    &&& head(q) matches Tm::Const(d, _) && rule_for(rec.rec_rules@, d, i)
    &&& args(q).len() >= rec.rec_rules@[i].ctor_telescope_size_wo_params
}

proof fn rule_fires(th: Theory, e: Tm, c: Nm, ls: Seq<Lv>, rec: RecursorData, q: Tm, i: int, w: Tm, n: nat)
    requires
        recursor_at(th, e, c, ls, rec),
        has_rule(rec, q, i),
        cores(th, iota_result(rec, rec.rec_rules@[i], ls, args(e), args(q)), w, n),
        rec_at(th, c, ls, args(e), n + 7) == crate::steps::fire_tm(rec, ls, args(e), q),
    ensures
        cores(th, e, w, n + 8),
{
    let r = iota_result(rec, rec.rec_rules@[i], ls, args(e), args(q));
    core_from(th, r, w, n);
    rule_at_is(rec, head(q)->Const_0, i);
    whnf_core_first(th, e);
    quot_first(th, c, args(e));
    assert(rec_at(th, c, ls, args(e), n + 7) == Some(Some(r)));
    assert(whnf_core_at(th, r, n + 7) == Some(w));
    assert(whnf_core_at(th, e, n + 8) == Some(w));
}

/// Iota: a recursor whose major premise reduces to a constructor that it has a rule for
/// reduces as what the rule gives.
pub proof fn recursors_fire(
    th: Theory,
    e: Tm,
    c: Nm,
    ls: Seq<Lv>,
    rec: RecursorData,
    q: Tm,
    i: int,
    w: Tm,
    n: nat,
)
    requires
        recursor_at(th, e, c, ls, rec),
        !rec.is_k,
        major_induct(rec) is Some,
        whnfs(th, major(e, rec), q, n),
        ctor_app(th, q),
        has_rule(rec, q, i),
        cores(th, iota_result(rec, rec.rec_rules@[i], ls, args(e), args(q)), w, n),
    ensures
        cores(th, e, w, n + 8),
{
    whnf_from(th, major(e, rec), q, n);
    rec_first(th, c, ls, args(e));
    k_first(th, rec, major(e, rec));
    major_first(th, rec, q);
    eta_first(th, major_induct(rec)->0, q);
    let m: nat = n + 7;
    assert(whnf_at(th, major(e, rec), (m - 1) as nat) == Some(q));
    assert(major_at(th, rec, q, (m - 1) as nat) == Some(q));
    rule_fires(th, e, c, ls, rec, q, i, w, n);
}

/// A recursor whose major premise reduces to a number fires on the constructor that the number
/// stands for.
pub proof fn recursors_fire_on_numbers(
    th: Theory,
    e: Tm,
    c: Nm,
    ls: Seq<Lv>,
    rec: RecursorData,
    k: nat,
    q: Tm,
    i: int,
    w: Tm,
    n: nat,
)
    requires
        recursor_at(th, e, c, ls, rec),
        !rec.is_k,
        th.nat_ext,
        whnfs(th, major(e, rec), Tm::NatLit(k), n),
        nat_ctor(th.names, k) == Some(q),
        has_rule(rec, q, i),
        cores(th, iota_result(rec, rec.rec_rules@[i], ls, args(e), args(q)), w, n),
    ensures
        cores(th, e, w, n + 8),
{
    let l = Tm::NatLit(k);
    whnf_from(th, major(e, rec), l, n);
    rec_first(th, c, ls, args(e));
    k_first(th, rec, major(e, rec));
    major_first(th, rec, l);
    let m: nat = n + 7;
    assert(whnf_at(th, major(e, rec), (m - 1) as nat) == Some(l));
    assert(major_at(th, rec, l, (m - 1) as nat) == Some(q));
    rule_fires(th, e, c, ls, rec, q, i, w, n);
}

/// A recursor whose major premise reduces to a string fires on the constructor that the string
/// stands for.
pub proof fn recursors_fire_on_strings(
    th: Theory,
    e: Tm,
    c: Nm,
    ls: Seq<Lv>,
    rec: RecursorData,
    s: Seq<char>,
    c0: Tm,
    q: Tm,
    i: int,
    w: Tm,
    n: nat,
)
    requires
        recursor_at(th, e, c, ls, rec),
        !rec.is_k,
        th.nat_ext,
        whnfs(th, major(e, rec), Tm::StrLit(s), n),
        str_ctor(th.names, s) == Some(c0),
        whnfs(th, c0, q, n),
        has_rule(rec, q, i),
        cores(th, iota_result(rec, rec.rec_rules@[i], ls, args(e), args(q)), w, n),
    ensures
        cores(th, e, w, n + 8),
{
    let l = Tm::StrLit(s);
    whnf_from(th, major(e, rec), l, n);
    whnf_from(th, c0, q, n);
    rec_first(th, c, ls, args(e));
    k_first(th, rec, major(e, rec));
    major_first(th, rec, l);
    str_first(th, s);
    let m: nat = n + 7;
    assert(whnf_at(th, major(e, rec), (m - 1) as nat) == Some(l));
    assert(whnf_at(th, c0, (m - 2) as nat) == Some(q));
    assert(str_at(th, s, (m - 1) as nat) == Some(Some(q)));
    assert(major_at(th, rec, l, (m - 1) as nat) == Some(q));
    rule_fires(th, e, c, ls, rec, q, i, w, n);
}

/// The constructor without data, at the parameters in the type of a major premise.
pub open spec fn plain_ctor(rec: RecursorData, c: Nm, ty: Tm) -> Tm {
    let m = if rec.num_params <= args(ty).len() {
        rec.num_params as int
    } else {
        args(ty).len() as int
    };
    apps(Tm::Const(c, head(ty)->Const_1), args(ty).take(m))
}

/// K: where the type of the major premise and the type of the constructor without data are
/// found to be equal, the recursor fires on that constructor, whatever the major premise is.
pub proof fn recursors_fire_by_type(
    th: Theory,
    e: Tm,
    c: Nm,
    ls: Seq<Lv>,
    rec: RecursorData,
    t: Tm,
    ty: Tm,
    ind: Nm,
    k: Nm,
    u: Tm,
    q: Tm,
    i: int,
    w: Tm,
    n: nat,
)
    requires
        recursor_at(th, e, c, ls, rec),
        rec.is_k,
        types(th, major(e, rec), t, n),
        whnfs(th, t, ty, n),
        head(ty) matches Tm::Const(d, _) && d == ind,
        major_induct(rec) == Some(ind),
        first_ctor(th, ind) == Some(k),
        types(th, plain_ctor(rec, k, ty), u, n),
        equals(th, ty, u, n),
        whnfs(th, plain_ctor(rec, k, ty), q, n),
        ctor_app(th, q),
        has_rule(rec, q, i),
        cores(th, iota_result(rec, rec.rec_rules@[i], ls, args(e), args(q)), w, n),
    ensures
        cores(th, e, w, n + 8),
{
    let p = plain_ctor(rec, k, ty);
    let start = major(e, rec);
    type_from(th, start, t, n);
    whnf_from(th, t, ty, n);
    type_from(th, p, u, n);
    equal_from(th, ty, u, n);
    whnf_from(th, p, q, n);
    rec_first(th, c, ls, args(e));
    k_first(th, rec, start);
    type_whnf_first(th, start);
    major_first(th, rec, q);
    eta_first(th, ind, q);
    let m: nat = n + 7;
    assert(type_at(th, start, (m - 3) as nat) == Some(t));
    assert(whnf_at(th, t, (m - 3) as nat) == Some(ty));
    assert(type_whnf_at(th, start, (m - 2) as nat) == Some(ty));
    assert(type_at(th, p, (m - 2) as nat) == Some(u));
    assert(deq_at(th, ty, u, false, (m - 2) as nat));
    assert(crate::steps::k_at(th, rec, start, (m - 1) as nat) == Some(Some(p)));
    assert(whnf_at(th, p, (m - 1) as nat) == Some(q));
    assert(major_at(th, rec, q, (m - 1) as nat) == Some(q));
    rule_fires(th, e, c, ls, rec, q, i, w, n);
}

/// The constructor of a structure, at the parameters in the type, applied to the projections.
pub open spec fn expanded(th: Theory, c: Nm, ty: Tm, x: Tm) -> Tm {
    let m = th.ctor_params(c)->0 as int;
    apps(
        apps(Tm::Const(c, head(ty)->Const_1), args(ty).take(m)),
        projections(head(ty)->Const_0, x, ctor_fields(th, c)->0),
    )
}

/// Eta for structures: a recursor whose major premise is of a structure that is no proposition
/// fires on the constructor of the projections.
pub proof fn recursors_fire_on_structures(
    th: Theory,
    e: Tm,
    c: Nm,
    ls: Seq<Lv>,
    rec: RecursorData,
    x: Tm,
    t: Tm,
    ty: Tm,
    ind: Nm,
    k: Nm,
    i: int,
    w: Tm,
    n: nat,
)
    requires
        recursor_at(th, e, c, ls, rec),
        !rec.is_k,
        whnfs(th, major(e, rec), x, n),
        !ctor_app(th, x),
        !(x is NatLit) && !(x is StrLit),
        major_induct(rec) == Some(ind),
        th.is_struct(ind),
        types(th, x, t, n),
        whnfs(th, t, ty, n),
        head(ty) matches Tm::Const(d, _) && d == ind,
        no_proposition(th, ty, n),
        first_ctor(th, ind) == Some(k),
        th.ctor_params(k) is Some && ctor_fields(th, k) is Some,
        th.ctor_params(k)->0 <= args(ty).len(),
        has_rule(rec, expanded(th, k, ty, x), i),
        cores(
            th,
            iota_result(rec, rec.rec_rules@[i], ls, args(e), args(expanded(th, k, ty, x))),
            w,
            n,
        ),
    ensures
        cores(th, e, w, n + 8),
{
    let q = expanded(th, k, ty, x);
    let (s, v) = choose|s: Tm, v: Tm| #[trigger]
        types(th, ty, s, n) && #[trigger] whnfs(th, s, v, n) && v != Tm::Sort(Lv::Zero);
    whnf_from(th, major(e, rec), x, n);
    type_from(th, x, t, n);
    whnf_from(th, t, ty, n);
    type_from(th, ty, s, n);
    whnf_from(th, s, v, n);
    rec_first(th, c, ls, args(e));
    k_first(th, rec, major(e, rec));
    major_first(th, rec, x);
    eta_first(th, ind, x);
    type_whnf_first(th, x);
    type_whnf_first(th, ty);
    let m: nat = n + 7;
    assert(whnf_at(th, major(e, rec), (m - 1) as nat) == Some(x));
    assert(type_at(th, x, (m - 3) as nat) == Some(t));
    assert(whnf_at(th, t, (m - 3) as nat) == Some(ty));
    assert(type_whnf_at(th, x, (m - 2) as nat) == Some(ty));
    assert(type_at(th, ty, (m - 3) as nat) == Some(s));
    assert(whnf_at(th, s, (m - 3) as nat) == Some(v));
    assert(type_whnf_at(th, ty, (m - 2) as nat) == Some(v));
    assert(major_at(th, rec, x, (m - 1) as nat) == Some(q));
    rule_fires(th, e, c, ls, rec, q, i, w, n);
}

/// A recursor whose major premise reduces to something without a rule stays, where it is not
/// for a structure.
pub proof fn recursors_stay(th: Theory, e: Tm, c: Nm, ls: Seq<Lv>, rec: RecursorData, x: Tm, ind: Nm, n: nat)
    requires
        recursor_at(th, e, c, ls, rec),
        !rec.is_k,
        whnfs(th, major(e, rec), x, n),
        !(x is NatLit) && !(x is StrLit),
        major_induct(rec) == Some(ind),
        !th.is_struct(ind) || ctor_app(th, x),
        head(x) matches Tm::Const(d, _) ==> forall|i: int| !#[trigger] rule_for(rec.rec_rules@, d, i),
    ensures
        cores(th, e, e, n + 8),
{
    whnf_from(th, major(e, rec), x, n);
    let z: nat = n + 8;
    rec_first(th, c, ls, args(e));
    k_first(th, rec, major(e, rec));
    major_first(th, rec, x);
    eta_first(th, ind, x);
    whnf_core_first(th, e);
    quot_first(th, c, args(e));
    assert(whnf_at(th, major(e, rec), (z - 2) as nat) == Some(x));
    assert(major_at(th, rec, x, (z - 2) as nat) == Some(x));
    assert(rec_at(th, c, ls, args(e), (z - 1) as nat) == Some(None::<Tm>));
    assert(whnf_core_at(th, e, z) == Some(e));
}

proof fn go_up(th: Theory, e: Tm, left: nat, m: nat, left2: nat, m2: nat)
    requires
        whnf_go(th, e, left, m) is Some,
        left <= left2,
        m <= m2,
    ensures
        whnf_go(th, e, left2, m2) == whnf_go(th, e, left, m),
    decreases left,
{
    go_first(th, e, left);
    go_first(th, e, left2);
    if left > 0 {
        whnf_core_more(th, e, m, m2);
        let w = whnf_core_at(th, e, m)->0;
        nat_more(th, w, m, m2);
        match nat_at(th, w, m)->0 {
            Some(p) => {
                go_up(th, p, (left - 1) as nat, m, (left2 - 1) as nat, m2);
            },
            None => {
                if let Tm::Const(c, ls) = head(w) {
                    if let Some(v) = th.delta(c, ls) {
                        go_up(th, apps(v, args(w)), (left - 1) as nat, m, (left2 - 1) as nat, m2);
                    }
                }
            },
        }
    }
}

proof fn go_from(th: Theory, e: Tm, w: Tm, n: nat)
    requires
        whnfs(th, e, w, n),
    ensures
        forall|left: nat, m: nat|
            left >= n + 1 && m >= n + 1 ==> #[trigger] whnf_go(th, e, left, m) == Some(w),
{
    whnf_first(th, e);
    if compound(e) {
        assert(whnf_go(th, e, n, (n - 1) as nat) == Some(w));
        assert forall|left: nat, m: nat| left >= n + 1 && m >= n + 1 implies #[trigger] whnf_go(
            th,
            e,
            left,
            m,
        ) == Some(w) by {
            go_up(th, e, n, (n - 1) as nat, left, m);
        }
    } else {
        whnf_core_first(th, e);
        nat_first(th, w);
        go_first(th, e, 1);
        assert(head(w) == w);
        assert(whnf_core_at(th, e, 1) == Some(w));
        assert(nat_at(th, w, 1) == Some(None::<Tm>));
        assert(whnf_go(th, e, 1, 1) == Some(w));
        assert forall|left: nat, m: nat| left >= n + 1 && m >= n + 1 implies #[trigger] whnf_go(
            th,
            e,
            left,
            m,
        ) == Some(w) by {
            go_up(th, e, 1, 1, left, m);
        }
    }
}

/// The term is the number: a literal, or the constant zero.
pub open spec fn is_num(th: Theory, v: Tm, k: nat) -> bool {
    v == Tm::NatLit(k) || (k == 0 && (v matches Tm::Const(z, _) && is_named(th.names.nat_zero, z)))
}

/// The term is no number.
pub open spec fn no_num(th: Theory, v: Tm) -> bool {
    forall|k: nat| !#[trigger] is_num(th, v, k)
}

/// The term is the successor of something without variables.
pub open spec fn succ_of(th: Theory, w: Tm) -> bool {
    &&& th.nat_ext && !has_local(w)
    &&& head(w) matches Tm::Const(c, _) && is_named(th.names.nat_succ, c)
    &&& args(w).len() == 1
}

/// The term is the operation on two things without variables.
pub open spec fn op_of(th: Theory, w: Tm, op: NatBinOp) -> bool {
    &&& th.nat_ext && !has_local(w)
    &&& head(w) matches Tm::Const(c, _) && op_named(th.names, c) == Some(op)
    &&& args(w).len() == 2
}

/// No operation on numbers is computed: there is none, or something is no number.
pub open spec fn uncomputed(th: Theory, w: Tm, n: nat) -> bool {
    ||| !succ_of(th, w) && forall|op: NatBinOp| !#[trigger] op_of(th, w, op)
    ||| succ_of(th, w) && exists|v: Tm| #[trigger] whnfs(th, args(w)[0], v, n) && no_num(th, v)
    ||| args(w).len() == 2 && exists|a: Tm, b: Tm| #[trigger]
        whnfs(th, args(w)[0], a, n) && #[trigger] whnfs(th, args(w)[1], b, n) && (no_num(th, a) || no_num(
            th,
            b,
        ))
}

proof fn uncomputed_from(th: Theory, w: Tm, n: nat)
    requires
        uncomputed(th, w, n),
    ensures
        forall|m: nat| m >= n + 2 ==> #[trigger] nat_at(th, w, m) == Some(None::<Tm>),
{
    nat_first(th, w);
    let c = head(w)->Const_0;
    if !succ_of(th, w) && forall|op: NatBinOp| !#[trigger] op_of(th, w, op) {
        if head(w) is Const && op_named(th.names, c) is Some && args(w).len() == 2 && th.nat_ext && !has_local(
            w,
        ) {
            assert(op_of(th, w, op_named(th.names, c)->0));
        }
    } else if succ_of(th, w) && exists|v: Tm| #[trigger] whnfs(th, args(w)[0], v, n) && no_num(th, v) {
        let v = choose|v: Tm| #[trigger] whnfs(th, args(w)[0], v, n) && no_num(th, v);
        whnf_from(th, args(w)[0], v, n);
        assert(!is_num(th, v, 0));
        if let Tm::NatLit(k) = v {
            assert(is_num(th, v, k));
        }
        assert forall|m: nat| m >= n + 2 implies #[trigger] nat_at(th, w, m) == Some(None::<Tm>) by {
            assert(whnf_at(th, args(w)[0], (m - 1) as nat) == Some(v));
        }
    } else {
        let (x, y) = choose|x: Tm, y: Tm| #[trigger]
            whnfs(th, args(w)[0], x, n) && #[trigger] whnfs(th, args(w)[1], y, n) && (no_num(th, x) || no_num(
                th,
                y,
            ));
        whnf_from(th, args(w)[0], x, n);
        whnf_from(th, args(w)[1], y, n);
        if no_num(th, x) {
            assert(!is_num(th, x, 0));
            if let Tm::NatLit(k) = x {
                assert(is_num(th, x, k));
            }
        }
        if no_num(th, y) {
            assert(!is_num(th, y, 0));
            if let Tm::NatLit(k) = y {
                assert(is_num(th, y, k));
            }
        }
        if let Some(op) = op_named(th.names, c) {
            bin_first(th, args(w)[0], args(w)[1], op);
        }
        assert forall|m: nat| m >= n + 2 implies #[trigger] nat_at(th, w, m) == Some(None::<Tm>) by {
            assert(whnf_at(th, args(w)[0], (m - 2) as nat) == Some(x));
            assert(whnf_at(th, args(w)[1], (m - 2) as nat) == Some(y));
        }
    }
}

/// Delta: where no operation on numbers is computed, a definition at the head is unfolded.
pub proof fn definitions_are_unfolded(th: Theory, e: Tm, w: Tm, c: Nm, ls: Seq<Lv>, d: Tm, r: Tm, n: nat)
    requires
        cores(th, e, w, n),
        uncomputed(th, w, n),
        head(w) == Tm::Const(c, ls),
        th.delta(c, ls) == Some(d),
        whnfs(th, apps(d, args(w)), r, n),
    ensures
        whnfs(th, e, r, n + 8),
{
    core_from(th, e, w, n);
    uncomputed_from(th, w, n);
    go_from(th, apps(d, args(w)), r, n);
    let z: nat = n + 8;
    whnf_first(th, e);
    whnf_core_first(th, e);
    go_first(th, e, z);
    assert(whnf_core_at(th, e, (z - 1) as nat) == Some(w));
    assert(nat_at(th, w, (z - 1) as nat) == Some(None::<Tm>));
    assert(whnf_go(th, apps(d, args(w)), (z - 1) as nat, (z - 1) as nat) == Some(r));
    assert(whnf_go(th, e, z, (z - 1) as nat) == Some(r));
    assert(whnf_at(th, e, z) == Some(r));
}

/// Where no operation on numbers is computed and no definition is at the head, reduction is at
/// its end.
pub proof fn reduction_ends(th: Theory, e: Tm, w: Tm, n: nat)
    requires
        cores(th, e, w, n),
        uncomputed(th, w, n),
        !unfolds(th, w),
    ensures
        whnfs(th, e, w, n + 8),
{
    core_from(th, e, w, n);
    uncomputed_from(th, w, n);
    let z: nat = n + 8;
    whnf_first(th, e);
    whnf_core_first(th, e);
    go_first(th, e, z);
    assert(whnf_core_at(th, e, (z - 1) as nat) == Some(w));
    assert(nat_at(th, w, (z - 1) as nat) == Some(None::<Tm>));
    if compound(e) {
        assert(whnf_go(th, e, z, (z - 1) as nat) == Some(w));
    }
    assert(whnf_at(th, e, z) == Some(w));
}

/// The successor of what reduces to a number reduces to the next number.
pub proof fn successors_are_computed(th: Theory, e: Tm, w: Tm, v: Tm, k: nat, n: nat)
    requires
        cores(th, e, w, n),
        succ_of(th, w),
        whnfs(th, args(w)[0], v, n),
        is_num(th, v, k),
    ensures
        whnfs(th, e, Tm::NatLit(k + 1), n + 8),
{
    core_from(th, e, w, n);
    whnf_from(th, args(w)[0], v, n);
    let r = Tm::NatLit(k + 1);
    forms_stay(th, r, n);
    go_from(th, r, r, n);
    let z: nat = n + 8;
    whnf_first(th, e);
    whnf_core_first(th, e);
    go_first(th, e, z);
    nat_first(th, w);
    assert(whnf_core_at(th, e, (z - 1) as nat) == Some(w));
    assert(whnf_at(th, args(w)[0], (z - 2) as nat) == Some(v));
    assert(nat_at(th, w, (z - 1) as nat) == Some(Some(r)));
    assert(whnf_go(th, r, (z - 1) as nat, (z - 1) as nat) == Some(r));
    assert(whnf_at(th, e, z) == Some(r));
}

/// An operation on what reduces to numbers reduces to its outcome: a number, or a truth value.
pub proof fn operations_are_computed(
    th: Theory,
    e: Tm,
    w: Tm,
    op: NatBinOp,
    a: Tm,
    b: Tm,
    i: nat,
    j: nat,
    t: Tm,
    r: Tm,
    n: nat,
)
    requires
        cores(th, e, w, n),
        op_of(th, w, op),
        whnfs(th, args(w)[0], a, n),
        whnfs(th, args(w)[1], b, n),
        is_num(th, a, i),
        is_num(th, b, j),
        bin_fits(op, i, j),
        match nat_bin_out(op, i, j) {
            NatOut::Num(k) => t == Tm::NatLit(k),
            NatOut::Truth(true) => th.names.bool_true matches Some(p) && t == plain(p@),
            NatOut::Truth(false) => th.names.bool_false matches Some(p) && t == plain(p@),
        },
        whnfs(th, t, r, n),
    ensures
        whnfs(th, e, r, n + 8),
{
    core_from(th, e, w, n);
    whnf_from(th, args(w)[0], a, n);
    whnf_from(th, args(w)[1], b, n);
    go_from(th, t, r, n);
    let z: nat = n + 8;
    whnf_first(th, e);
    whnf_core_first(th, e);
    go_first(th, e, z);
    nat_first(th, w);
    bin_first(th, args(w)[0], args(w)[1], op);
    assert(whnf_core_at(th, e, (z - 1) as nat) == Some(w));
    assert(whnf_at(th, args(w)[0], (z - 3) as nat) == Some(a));
    assert(whnf_at(th, args(w)[1], (z - 3) as nat) == Some(b));
    assert(nat_at(th, w, (z - 1) as nat) == Some(Some(t)));
    assert(whnf_go(th, t, (z - 1) as nat, (z - 1) as nat) == Some(r));
    assert(whnf_at(th, e, z) == Some(r));
}



} // verus!
