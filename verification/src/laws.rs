//! What follows from the rules.
use crate::judge::{
    ctor_app,
    applies, at_major, by_rule, close, core_head, ctor_fields, ctor_type, first_ctor, fresh, holds,
    levels_declared, lv_same, major_induct, opened, plain, premises, projections, root_step, Ck,
    Judg, Rule, Theory,
    params_taken, unfolds,
};
use crate::env::RecursorData;
use crate::tree::{
    apps, args, depth_bound, head_of_apps, inst1, loose, tm_lsubst, BinderStyle, Lv, Nm, Tm,
};
use vstd::prelude::*;

verus! {

/// `a` reduces to `b`.
pub open spec fn red(th: Theory, a: Tm, b: Tm) -> bool {
    holds(th, Judg::Red(a, b))
}

/// `a` and `b` are equal by definition.
pub open spec fn deq(th: Theory, a: Tm, b: Tm) -> bool {
    holds(th, Judg::Deq(a, b))
}

/// `e` has the type `t`.
pub open spec fn inf(th: Theory, ck: Ck, e: Tm, t: Tm) -> bool {
    holds(th, Judg::Inf(ck, e, t))
}

/// `e` is a proposition.
pub open spec fn prop(th: Theory, e: Tm) -> bool {
    holds(th, Judg::Prop(e))
}

/// Every term reduces to itself.
pub proof fn red_refl(th: Theory, a: Tm)
    ensures
        red(th, a, a),
{
    by_rule(th, Rule::RedRefl, Judg::Red(a, a));
}

/// Reductions can be put one behind the other.
pub proof fn red_trans(th: Theory, a: Tm, b: Tm, c: Tm)
    requires
        red(th, a, b),
        red(th, b, c),
    ensures
        red(th, a, c),
{
    by_rule(th, Rule::RedTrans(b), Judg::Red(a, c));
}

/// A step at the root is a reduction.
pub proof fn red_step(th: Theory, a: Tm, b: Tm)
    requires
        root_step(th, a, b),
    ensures
        red(th, a, b),
{
    by_rule(th, Rule::RedStep, Judg::Red(a, b));
}

/// An application reduces as its parts do.
pub proof fn red_app(th: Theory, f: Tm, g: Tm, x: Tm, y: Tm)
    requires
        red(th, f, g),
        red(th, x, y),
    ensures
        red(th, Tm::App(Box::new(f), Box::new(x)), Tm::App(Box::new(g), Box::new(y))),
{
    by_rule(
        th,
        Rule::RedApp,
        Judg::Red(Tm::App(Box::new(f), Box::new(x)), Tm::App(Box::new(g), Box::new(y))),
    );
}

/// A projection reduces as its structure does.
pub proof fn red_proj(th: Theory, n: Nm, i: nat, s: Tm, t: Tm)
    requires
        red(th, s, t),
    ensures
        red(th, Tm::Proj(n, i, Box::new(s)), Tm::Proj(n, i, Box::new(t))),
{
    by_rule(
        th,
        Rule::RedProj,
        Judg::Red(Tm::Proj(n, i, Box::new(s)), Tm::Proj(n, i, Box::new(t))),
    );
}

/// A function type reduces as its domain does.
pub proof fn red_pi(th: Theory, n: Nm, s: BinderStyle, t: Tm, u: Tm, x: Tm)
    requires
        red(th, t, u),
    ensures
        red(th, Tm::Pi(n, s, Box::new(t), Box::new(x)), Tm::Pi(n, s, Box::new(u), Box::new(x))),
{
    by_rule(
        th,
        Rule::RedPi,
        Judg::Red(Tm::Pi(n, s, Box::new(t), Box::new(x)), Tm::Pi(n, s, Box::new(u), Box::new(x))),
    );
}

/// A local definition reduces as its value does, and then unfolds.
pub proof fn red_let(th: Theory, n: Nm, ty: Tm, v: Tm, w: Tm, x: Tm, d: bool)
    requires
        red(th, v, w),
    ensures
        red(
            th,
            Tm::Let(n, Box::new(ty), Box::new(v), Box::new(x), d),
            inst1(x, w),
        ),
{
    let a = Tm::Let(n, Box::new(ty), Box::new(v), Box::new(x), d);
    let b = Tm::Let(n, Box::new(ty), Box::new(w), Box::new(x), d);
    by_rule(th, Rule::RedLet, Judg::Red(a, b));
    red_step(th, b, inst1(x, w));
    red_trans(th, a, b, inst1(x, w));
}

/// A function meets its argument.
pub proof fn red_beta(th: Theory, f: Tm, x: Tm)
    requires
        f is Lam,
    ensures
        red(th, Tm::App(Box::new(f), Box::new(x)), inst1(*f->Lam_3, x)),
{
    red_step(th, Tm::App(Box::new(f), Box::new(x)), inst1(*f->Lam_3, x));
}

/// Reduction under a binder, by way of a variable that does not occur.
pub proof fn red_under_lam(th: Theory, n: Nm, s: BinderStyle, ty: Tm, x: Tm, k: u16, c: Tm)
    requires
        fresh(k, ty, x),
        red(th, inst1(x, opened(n, s, ty, k)), c),
    ensures
        red(
            th,
            Tm::Lam(n, s, Box::new(ty), Box::new(x)),
            Tm::Lam(n, s, Box::new(ty), Box::new(close(c, k))),
        ),
{
    by_rule(
        th,
        Rule::RedUnder(k, c),
        Judg::Red(
            Tm::Lam(n, s, Box::new(ty), Box::new(x)),
            Tm::Lam(n, s, Box::new(ty), Box::new(close(c, k))),
        ),
    );
}

/// Reduction under a binder, by way of a variable that does not occur.
pub proof fn red_under_pi(th: Theory, n: Nm, s: BinderStyle, ty: Tm, x: Tm, k: u16, c: Tm)
    requires
        fresh(k, ty, x),
        red(th, inst1(x, opened(n, s, ty, k)), c),
    ensures
        red(
            th,
            Tm::Pi(n, s, Box::new(ty), Box::new(x)),
            Tm::Pi(n, s, Box::new(ty), Box::new(close(c, k))),
        ),
{
    by_rule(
        th,
        Rule::RedUnder(k, c),
        Judg::Red(
            Tm::Pi(n, s, Box::new(ty), Box::new(x)),
            Tm::Pi(n, s, Box::new(ty), Box::new(close(c, k))),
        ),
    );
}

/// The terms of one list reduce to those of another.
pub open spec fn red_all(th: Theory, xs: Seq<Tm>, ys: Seq<Tm>) -> bool {
    &&& xs.len() == ys.len()
    &&& forall|i: int| 0 <= i < xs.len() ==> red(th, #[trigger] xs[i], ys[i])
}

/// An application to several arguments reduces as its parts do.
pub proof fn red_apps(th: Theory, f: Tm, g: Tm, xs: Seq<Tm>, ys: Seq<Tm>)
    requires
        red(th, f, g),
        red_all(th, xs, ys),
    ensures
        red(th, apps(f, xs), apps(g, ys)),
    decreases xs.len(),
{
    if xs.len() > 0 {
        let p = xs.drop_last();
        let q = ys.drop_last();
        assert forall|i: int| 0 <= i < p.len() implies red(th, #[trigger] p[i], q[i]) by {
            assert(red(th, xs[i], ys[i]));
        }
        red_apps(th, f, g, p, q);
        assert(red(th, xs[xs.len() - 1], ys[ys.len() - 1]));
        red_app(th, apps(f, p), apps(g, q), xs.last(), ys.last());
    }
}

/// Every list of terms reduces to itself.
pub proof fn red_all_refl(th: Theory, xs: Seq<Tm>)
    ensures
        red_all(th, xs, xs),
{
    assert forall|i: int| 0 <= i < xs.len() implies red(th, #[trigger] xs[i], xs[i]) by {
        red_refl(th, xs[i]);
    }
}

/// An application reduces as its head does.
pub proof fn red_apps_head(th: Theory, f: Tm, g: Tm, xs: Seq<Tm>)
    requires
        red(th, f, g),
    ensures
        red(th, apps(f, xs), apps(g, xs)),
{
    red_all_refl(th, xs);
    red_apps(th, f, g, xs, xs);
}

/// An application reduces as one of its arguments does.
pub proof fn red_apps_at(th: Theory, f: Tm, xs: Seq<Tm>, p: int, y: Tm)
    requires
        0 <= p < xs.len(),
        red(th, xs[p], y),
    ensures
        red(th, apps(f, xs), apps(f, xs.update(p, y))),
{
    red_refl(th, f);
    let ys = xs.update(p, y);
    assert forall|i: int| 0 <= i < xs.len() implies red(th, #[trigger] xs[i], ys[i]) by {
        if i != p {
            red_refl(th, xs[i]);
        }
    }
    red_apps(th, f, f, xs, ys);
}

/// Equal terms are equal by definition.
pub proof fn deq_refl(th: Theory, a: Tm)
    ensures
        deq(th, a, a),
{
    by_rule(th, Rule::DeqRefl, Judg::Deq(a, a));
}

/// Equality by definition is symmetric.
pub proof fn deq_symm(th: Theory, a: Tm, b: Tm)
    requires
        deq(th, a, b),
    ensures
        deq(th, b, a),
{
    by_rule(th, Rule::DeqSymm, Judg::Deq(b, a));
}

/// Equality by definition is transitive.
pub proof fn deq_trans(th: Theory, a: Tm, b: Tm, c: Tm)
    requires
        deq(th, a, b),
        deq(th, b, c),
    ensures
        deq(th, a, c),
{
    by_rule(th, Rule::DeqTrans(b), Judg::Deq(a, c));
}

/// A term is equal by definition to what it reduces to.
pub proof fn deq_red(th: Theory, a: Tm, b: Tm)
    requires
        red(th, a, b),
    ensures
        deq(th, a, b),
{
    by_rule(th, Rule::DeqRed, Judg::Deq(a, b));
}

/// Terms are equal by definition that reduce to terms that are.
pub proof fn deq_reds(th: Theory, a: Tm, b: Tm, c: Tm, d: Tm)
    requires
        red(th, a, c),
        red(th, b, d),
        deq(th, c, d),
    ensures
        deq(th, a, b),
{
    deq_red(th, a, c);
    deq_red(th, b, d);
    deq_symm(th, b, d);
    deq_trans(th, a, c, d);
    deq_trans(th, a, d, b);
}

/// Applications are equal by definition if their parts are.
pub proof fn deq_app(th: Theory, f: Tm, g: Tm, x: Tm, y: Tm)
    requires
        deq(th, f, g),
        deq(th, x, y),
    ensures
        deq(th, Tm::App(Box::new(f), Box::new(x)), Tm::App(Box::new(g), Box::new(y))),
{
    by_rule(
        th,
        Rule::DeqApp,
        Judg::Deq(Tm::App(Box::new(f), Box::new(x)), Tm::App(Box::new(g), Box::new(y))),
    );
}

/// Projections are equal by definition if their structures are.
pub proof fn deq_proj(th: Theory, n: Nm, i: nat, s: Tm, t: Tm)
    requires
        deq(th, s, t),
    ensures
        deq(th, Tm::Proj(n, i, Box::new(s)), Tm::Proj(n, i, Box::new(t))),
{
    by_rule(
        th,
        Rule::DeqProj,
        Judg::Deq(Tm::Proj(n, i, Box::new(s)), Tm::Proj(n, i, Box::new(t))),
    );
}

/// Universes are equal by definition if their levels are equal.
pub proof fn deq_sort(th: Theory, l: Lv, m: Lv)
    requires
        lv_same(l, m),
    ensures
        deq(th, Tm::Sort(l), Tm::Sort(m)),
{
    by_rule(th, Rule::DeqSort, Judg::Deq(Tm::Sort(l), Tm::Sort(m)));
}

/// Constants are equal by definition if their universe arguments are equal.
pub proof fn deq_const(th: Theory, n: Nm, ls: Seq<Lv>, ks: Seq<Lv>)
    requires
        ls.len() == ks.len(),
        forall|i: int| 0 <= i < ls.len() ==> #[trigger] lv_same(ls[i], ks[i]),
    ensures
        deq(th, Tm::Const(n, ls), Tm::Const(n, ks)),
{
    by_rule(th, Rule::DeqConst, Judg::Deq(Tm::Const(n, ls), Tm::Const(n, ks)));
}

/// Functions are equal by definition if their domains are, and their values at a variable
/// that does not occur.
pub proof fn deq_lam(
    th: Theory,
    n: Nm,
    s: BinderStyle,
    t: Tm,
    x: Tm,
    m: Nm,
    r: BinderStyle,
    u: Tm,
    y: Tm,
    k: u16,
)
    requires
        fresh(k, t, x),
        fresh(k, u, y),
        deq(th, t, u),
        deq(th, inst1(x, opened(n, s, t, k)), inst1(y, opened(n, s, t, k))),
    ensures
        deq(
            th,
            Tm::Lam(n, s, Box::new(t), Box::new(x)),
            Tm::Lam(m, r, Box::new(u), Box::new(y)),
        ),
{
    by_rule(
        th,
        Rule::DeqLam(k),
        Judg::Deq(
            Tm::Lam(n, s, Box::new(t), Box::new(x)),
            Tm::Lam(m, r, Box::new(u), Box::new(y)),
        ),
    );
}

/// Function types are equal by definition if their domains are, and their values at a
/// variable that does not occur.
pub proof fn deq_pi(
    th: Theory,
    n: Nm,
    s: BinderStyle,
    t: Tm,
    x: Tm,
    m: Nm,
    r: BinderStyle,
    u: Tm,
    y: Tm,
    k: u16,
)
    requires
        fresh(k, t, x),
        fresh(k, u, y),
        deq(th, t, u),
        deq(th, inst1(x, opened(n, s, t, k)), inst1(y, opened(n, s, t, k))),
    ensures
        deq(th, Tm::Pi(n, s, Box::new(t), Box::new(x)), Tm::Pi(m, r, Box::new(u), Box::new(y))),
{
    by_rule(
        th,
        Rule::DeqPi(k),
        Judg::Deq(
            Tm::Pi(n, s, Box::new(t), Box::new(x)),
            Tm::Pi(m, r, Box::new(u), Box::new(y)),
        ),
    );
}

/// Two proofs of one proposition are equal by definition.
pub proof fn deq_irrel(th: Theory, a: Tm, b: Tm, t: Tm, u: Tm)
    requires
        inf(th, Ck::Loose, a, t),
        prop(th, t),
        inf(th, Ck::Loose, b, u),
        prop(th, u),
        deq(th, t, u),
    ensures
        deq(th, a, b),
{
    by_rule(th, Rule::DeqIrrel(t, u), Judg::Deq(a, b));
}

/// A function is equal by definition to a term of function type that has the same value at
/// a variable that does not occur.
pub proof fn deq_eta(
    th: Theory,
    n: Nm,
    s: BinderStyle,
    t: Tm,
    x: Tm,
    b: Tm,
    k: u16,
    raw: Tm,
    n1: Nm,
    s1: BinderStyle,
    a1: Tm,
    y1: Tm,
)
    requires
        fresh(k, t, x),
        depth_bound(b) <= k,
        inf(th, Ck::Loose, b, raw),
        red(th, raw, Tm::Pi(n1, s1, Box::new(a1), Box::new(y1))),
        deq(th, t, a1),
        deq(
            th,
            inst1(x, opened(n, s, t, k)),
            Tm::App(Box::new(b), Box::new(opened(n, s, t, k))),
        ),
    ensures
        deq(th, Tm::Lam(n, s, Box::new(t), Box::new(x)), b),
{
    by_rule(
        th,
        Rule::DeqEta(k, raw, n1, s1, a1, y1),
        Judg::Deq(Tm::Lam(n, s, Box::new(t), Box::new(x)), b),
    );
}

/// A type that was determined exactly is one that was determined up to reduction.
pub proof fn inf_loose(th: Theory, ck: Ck, e: Tm, t: Tm)
    requires
        inf(th, ck, e, t),
    ensures
        inf(th, Ck::Loose, e, t),
{
    match ck {
        Ck::Loose => {},
        Ck::Only => {
            by_rule(th, Rule::InfOnly, Judg::Inf(Ck::Loose, e, t));
        },
        Ck::Full(ps) => {
            inf_only(th, ps, e, t);
            by_rule(th, Rule::InfOnly, Judg::Inf(Ck::Loose, e, t));
        },
    }
}

/// What was checked need not be.
pub proof fn inf_only(th: Theory, ps: Option<Seq<Lv>>, e: Tm, t: Tm)
    requires
        inf(th, Ck::Full(ps), e, t),
    ensures
        inf(th, Ck::Only, e, t),
{
    by_rule(th, Rule::InfChecked(ps), Judg::Inf(Ck::Only, e, t));
}

/// A type that is determined up to reduction may be reduced.
pub proof fn inf_conv(th: Theory, e: Tm, t: Tm, u: Tm)
    requires
        inf(th, Ck::Loose, e, t),
        red(th, t, u),
    ensures
        inf(th, Ck::Loose, e, u),
{
    by_rule(th, Rule::InfConv(t), Judg::Inf(Ck::Loose, e, u));
}

/// A term is a proposition whose type reduces to the universe of propositions.
pub proof fn prop_intro(th: Theory, e: Tm, s: Tm)
    requires
        inf(th, Ck::Loose, e, s),
        red(th, s, Tm::Sort(Lv::Zero)),
    ensures
        prop(th, e),
{
    by_rule(th, Rule::PropSort(s), Judg::Prop(e));
}

/// Any field may be projected from a structure that is no proposition.
pub proof fn field_data(th: Theory, t: Tm, a: Tm, s: Tm, w: Tm)
    requires
        inf(th, Ck::Loose, t, s),
        red(th, s, w),
        core_head(w),
        !unfolds(th, w),
        w != Tm::Sort(Lv::Zero),
    ensures
        holds(th, Judg::Field(t, a)),
{
    by_rule(th, Rule::FieldData(s, w), Judg::Field(t, a));
}

/// A field that is a proposition may be projected from any structure.
pub proof fn field_prop(th: Theory, t: Tm, a: Tm)
    requires
        prop(th, a),
    ensures
        holds(th, Judg::Field(t, a)),
{
    by_rule(th, Rule::FieldProp, Judg::Field(t, a));
}

/// The type of an application.
pub proof fn inf_app(
    th: Theory,
    ck: Ck,
    f: Tm,
    x: Tm,
    raw: Tm,
    n: Nm,
    s: BinderStyle,
    a: Tm,
    y: Tm,
    xt: Tm,
)
    requires
        inf(th, ck, f, raw),
        red(th, raw, Tm::Pi(n, s, Box::new(a), Box::new(y))),
        ck is Full ==> inf(th, ck, x, xt) && deq(th, a, xt),
    ensures
        inf(th, ck, Tm::App(Box::new(f), Box::new(x)), inst1(y, x)),
{
    let e = Tm::App(Box::new(f), Box::new(x));
    let rule = Rule::InfApp(raw, n, s, a, y, xt);
    let j = Judg::Inf(ck, e, inst1(y, x));
    let base = seq![
        Judg::Inf(ck, f, raw),
        Judg::Red(raw, Tm::Pi(n, s, Box::new(a), Box::new(y))),
    ];
    if ck is Full {
        assert(premises(th, rule, j) =~= base + seq![Judg::Inf(ck, x, xt), Judg::Deq(a, xt)]);
    } else {
        assert(premises(th, rule, j) =~= base);
    }
    by_rule(th, rule, j);
}

/// The type of a function.
pub proof fn inf_lam(
    th: Theory,
    ck: Ck,
    n: Nm,
    s: BinderStyle,
    ty: Tm,
    x: Tm,
    k: u16,
    c: Tm,
    srt: Tm,
    l: Lv,
)
    requires
        fresh(k, ty, x),
        inf(th, ck, inst1(x, opened(n, s, ty, k)), c),
        ck is Full ==> inf(th, ck, ty, srt) && red(th, srt, Tm::Sort(l)),
    ensures
        inf(
            th,
            ck,
            Tm::Lam(n, s, Box::new(ty), Box::new(x)),
            Tm::Pi(n, s, Box::new(ty), Box::new(close(c, k))),
        ),
{
    let e = Tm::Lam(n, s, Box::new(ty), Box::new(x));
    let rule = Rule::InfLam(k, c, srt, l);
    let j = Judg::Inf(ck, e, Tm::Pi(n, s, Box::new(ty), Box::new(close(c, k))));
    let base = seq![Judg::Inf(ck, inst1(x, opened(n, s, ty, k)), c)];
    if ck is Full {
        assert(premises(th, rule, j) =~= base + seq![
            Judg::Inf(ck, ty, srt),
            Judg::Red(srt, Tm::Sort(l)),
        ]);
    } else {
        assert(premises(th, rule, j) =~= base);
    }
    by_rule(th, rule, j);
}

/// The type of a function type.
pub proof fn inf_pi(
    th: Theory,
    ck: Ck,
    n: Nm,
    s: BinderStyle,
    ty: Tm,
    x: Tm,
    k: u16,
    st: Tm,
    u: Lv,
    sx: Tm,
    v: Lv,
)
    requires
        fresh(k, ty, x),
        inf(th, ck, ty, st),
        red(th, st, Tm::Sort(u)),
        inf(th, ck, inst1(x, opened(n, s, ty, k)), sx),
        red(th, sx, Tm::Sort(v)),
    ensures
        inf(
            th,
            ck,
            Tm::Pi(n, s, Box::new(ty), Box::new(x)),
            Tm::Sort(Lv::IMax(Box::new(u), Box::new(v))),
        ),
{
    by_rule(
        th,
        Rule::InfPi(k, st, u, sx, v),
        Judg::Inf(
            ck,
            Tm::Pi(n, s, Box::new(ty), Box::new(x)),
            Tm::Sort(Lv::IMax(Box::new(u), Box::new(v))),
        ),
    );
}

/// The type of a term behind a local definition.
pub proof fn inf_let(
    th: Theory,
    ck: Ck,
    n: Nm,
    ty: Tm,
    v: Tm,
    x: Tm,
    d: bool,
    t: Tm,
    srt: Tm,
    l: Lv,
    vt: Tm,
)
    requires
        inf(th, ck, inst1(x, v), t),
        ck is Full ==> inf(th, ck, ty, srt) && red(th, srt, Tm::Sort(l)) && inf(th, ck, v, vt)
            && deq(th, vt, ty),
    ensures
        inf(th, ck, Tm::Let(n, Box::new(ty), Box::new(v), Box::new(x), d), t),
{
    let e = Tm::Let(n, Box::new(ty), Box::new(v), Box::new(x), d);
    let rule = Rule::InfLet(srt, l, vt);
    let j = Judg::Inf(ck, e, t);
    let base = seq![Judg::Inf(ck, inst1(x, v), t)];
    if ck is Full {
        assert(premises(th, rule, j) =~= base + seq![
            Judg::Inf(ck, ty, srt),
            Judg::Red(srt, Tm::Sort(l)),
            Judg::Inf(ck, v, vt),
            Judg::Deq(vt, ty),
        ]);
    } else {
        assert(premises(th, rule, j) =~= base);
    }
    by_rule(th, rule, j);
}

/// The type of a universe.
pub proof fn inf_sort(th: Theory, ck: Ck, l: Lv)
    requires
        levels_declared(ck, seq![l]),
    ensures
        inf(th, ck, Tm::Sort(l), Tm::Sort(Lv::Succ(Box::new(l)))),
{
    by_rule(th, Rule::InfSort, Judg::Inf(ck, Tm::Sort(l), Tm::Sort(Lv::Succ(Box::new(l)))));
}

/// The type of a constant.
pub proof fn inf_const(th: Theory, ck: Ck, n: Nm, ls: Seq<Lv>)
    requires
        th.decls.contains_key(n),
        levels_declared(ck, ls),
    ensures
        inf(
            th,
            ck,
            Tm::Const(n, ls),
            tm_lsubst(th.decls[n].about().ty@, th.decls[n].about().uparams@, ls),
        ),
{
    by_rule(
        th,
        Rule::InfConst,
        Judg::Inf(
            ck,
            Tm::Const(n, ls),
            tm_lsubst(th.decls[n].about().ty@, th.decls[n].about().uparams@, ls),
        ),
    );
}

/// The type of a free variable.
pub proof fn inf_local(th: Theory, ck: Ck, e: Tm)
    requires
        e is Local,
    ensures
        inf(th, ck, e, *e->Local_2),
{
    by_rule(th, Rule::InfLocal, Judg::Inf(ck, e, *e->Local_2));
}

/// The type of a variable that evaluation made up.
pub proof fn inf_free(th: Theory, k: nat, ty: Tm)
    ensures
        inf(th, Ck::Loose, Tm::Free(k, Box::new(ty)), ty),
{
    by_rule(th, Rule::InfFree, Judg::Inf(Ck::Loose, Tm::Free(k, Box::new(ty)), ty));
}

/// The type of a number literal.
pub proof fn inf_nat(th: Theory, ck: Ck, n: nat)
    requires
        th.names.nat is Some,
    ensures
        inf(th, ck, Tm::NatLit(n), plain(th.names.nat->0@)),
{
    by_rule(th, Rule::InfNat, Judg::Inf(ck, Tm::NatLit(n), plain(th.names.nat->0@)));
}

/// The type of a string literal.
pub proof fn inf_str(th: Theory, ck: Ck, s: Seq<char>)
    requires
        th.names.string is Some,
    ensures
        inf(th, ck, Tm::StrLit(s), plain(th.names.string->0@)),
{
    by_rule(th, Rule::InfStr, Judg::Inf(ck, Tm::StrLit(s), plain(th.names.string->0@)));
}

/// A type applied to no arguments.
pub proof fn tele_nil(th: Theory, t: Tm)
    ensures
        holds(th, Judg::Tele(t, Seq::empty(), t)),
{
    by_rule(th, Rule::TeleNil, Judg::Tele(t, Seq::empty(), t));
}

/// A type applied to arguments, one of them first.
pub proof fn tele_cons(
    th: Theory,
    t: Tm,
    xs: Seq<Tm>,
    u: Tm,
    n: Nm,
    s: BinderStyle,
    a: Tm,
    x: Tm,
    y: Tm,
)
    requires
        xs.len() > 0,
        red(th, t, Tm::Pi(n, s, Box::new(a), Box::new(x))),
        red(th, xs[0], y),
        holds(th, Judg::Tele(inst1(x, y), xs.drop_first(), u)),
    ensures
        holds(th, Judg::Tele(t, xs, u)),
{
    by_rule(th, Rule::TeleCons(n, s, a, x, y), Judg::Tele(t, xs, u));
}

/// A type applied to arguments, one of them last.
pub proof fn tele_snoc(
    th: Theory,
    t: Tm,
    xs: Seq<Tm>,
    u: Tm,
    z: Tm,
    n: Nm,
    s: BinderStyle,
    a: Tm,
    x: Tm,
    y: Tm,
)
    requires
        holds(th, Judg::Tele(t, xs, u)),
        red(th, u, Tm::Pi(n, s, Box::new(a), Box::new(x))),
        red(th, z, y),
    ensures
        holds(th, Judg::Tele(t, xs.push(z), inst1(x, y))),
    decreases xs.len(),
{
    let j = Judg::Tele(t, xs, u);
    let rule = crate::judge::derived_by(th, j);
    assert(applies(th, rule, j));
    let goal = inst1(x, y);
    if xs.len() == 0 {
        match rule {
            Rule::TeleCons(_, _, _, _, _) => {},
            Rule::TeleNil => {},
            _ => {},
        }
        assert(t == u);
        let one = xs.push(z);
        assert(one.drop_first() =~= Seq::<Tm>::empty());
        tele_nil(th, goal);
        tele_cons(th, t, one, goal, n, s, a, x, y);
    } else {
        match rule {
            Rule::TeleCons(n1, s1, a1, x1, y1) => {
                let ps = premises(th, rule, j);
                assert(holds(th, ps[0]) && holds(th, ps[1]) && holds(th, ps[2]));
                tele_snoc(th, inst1(x1, y1), xs.drop_first(), u, z, n, s, a, x, y);
                assert(xs.push(z).drop_first() =~= xs.drop_first().push(z));
                tele_cons(th, t, xs.push(z), goal, n1, s1, a1, x1, y1);
            },
            _ => {},
        }
    }
}

/// The type of a constructor behind no further fields.
pub proof fn fields_nil(th: Theory, ck: Ck, ty: Tm, t: Tm, e: Tm, ind: Nm, i: nat)
    ensures
        holds(th, Judg::Fields(ck, ty, t, e, ind, i, i, t)),
{
    by_rule(th, Rule::FieldsNil, Judg::Fields(ck, ty, t, e, ind, i, i, t));
}

/// The type of a constructor behind one more field in front.
pub proof fn fields_cons(
    th: Theory,
    ck: Ck,
    ty: Tm,
    t: Tm,
    e: Tm,
    ind: Nm,
    i: nat,
    k: nat,
    u: Tm,
    n: Nm,
    s: BinderStyle,
    a: Tm,
    x: Tm,
    y: Tm,
)
    requires
        i < k,
        red(th, t, Tm::Pi(n, s, Box::new(a), Box::new(x))),
        red(th, Tm::Proj(ind, i, Box::new(e)), y),
        holds(th, Judg::Fields(ck, ty, inst1(x, y), e, ind, i + 1, k, u)),
        ck is Loose || loose(x) == 0 || holds(th, Judg::Field(ty, a)),
    ensures
        holds(th, Judg::Fields(ck, ty, t, e, ind, i, k, u)),
{
    let rule = Rule::FieldsCons(n, s, a, x, y);
    let j = Judg::Fields(ck, ty, t, e, ind, i, k, u);
    let base = seq![
        Judg::Red(t, Tm::Pi(n, s, Box::new(a), Box::new(x))),
        Judg::Red(Tm::Proj(ind, i, Box::new(e)), y),
        Judg::Fields(ck, ty, inst1(x, y), e, ind, i + 1, k, u),
    ];
    if ck is Loose || loose(x) == 0 {
        assert(premises(th, rule, j) =~= base);
    } else {
        assert(premises(th, rule, j) =~= base.push(Judg::Field(ty, a)));
    }
    by_rule(th, rule, j);
}

/// The type of a constructor behind one more field at the end.
pub proof fn fields_snoc(
    th: Theory,
    ck: Ck,
    ty: Tm,
    t: Tm,
    e: Tm,
    ind: Nm,
    i: nat,
    k: nat,
    u: Tm,
    n: Nm,
    s: BinderStyle,
    a: Tm,
    x: Tm,
    y: Tm,
)
    requires
        i <= k,
        holds(th, Judg::Fields(ck, ty, t, e, ind, i, k, u)),
        red(th, u, Tm::Pi(n, s, Box::new(a), Box::new(x))),
        red(th, Tm::Proj(ind, k, Box::new(e)), y),
        ck is Loose || loose(x) == 0 || holds(th, Judg::Field(ty, a)),
    ensures
        holds(th, Judg::Fields(ck, ty, t, e, ind, i, k + 1, inst1(x, y))),
    decreases k - i,
{
    let j = Judg::Fields(ck, ty, t, e, ind, i, k, u);
    let rule = crate::judge::derived_by(th, j);
    assert(applies(th, rule, j));
    let goal = inst1(x, y);
    if i == k {
        match rule {
            Rule::FieldsNil => {},
            _ => {},
        }
        assert(t == u);
        fields_nil(th, ck, ty, goal, e, ind, k + 1);
        fields_cons(th, ck, ty, t, e, ind, i, k + 1, goal, n, s, a, x, y);
    } else {
        match rule {
            Rule::FieldsCons(n1, s1, a1, x1, y1) => {
                let ps = premises(th, rule, j);
                assert(holds(th, ps[0]) && holds(th, ps[1]) && holds(th, ps[2]));
                if !(ck is Loose || loose(x1) == 0) {
                    assert(holds(th, ps[3]));
                }
                fields_snoc(th, ck, ty, inst1(x1, y1), e, ind, i + 1, k, u, n, s, a, x, y);
                fields_cons(th, ck, ty, t, e, ind, i, k + 1, goal, n1, s1, a1, x1, y1);
            },
            _ => {},
        }
    }
}

/// The type of a projection.
pub proof fn inf_proj(
    th: Theory,
    ck: Ck,
    nm: Nm,
    i: nat,
    e: Tm,
    raw: Tm,
    ind: Nm,
    ls: Seq<Lv>,
    xs: Seq<Tm>,
    t1: Tm,
    t2: Tm,
    n: Nm,
    s: BinderStyle,
    a: Tm,
    y: Tm,
)
    requires
        inf(th, ck, e, raw),
        red(th, raw, apps(Tm::Const(ind, ls), xs)),
        th.inductive(ind) is Some,
        th.inductive(ind)->0.num_params <= xs.len(),
        ctor_type(th, ind, ls) is Some,
        holds(
            th,
            Judg::Tele(
                ctor_type(th, ind, ls)->0,
                xs.take(th.inductive(ind)->0.num_params as int),
                t1,
            ),
        ),
        holds(th, Judg::Fields(ck, apps(Tm::Const(ind, ls), xs), t1, e, ind, 0, i, t2)),
        red(th, t2, Tm::Pi(n, s, Box::new(a), Box::new(y))),
        ck is Loose || holds(th, Judg::Field(apps(Tm::Const(ind, ls), xs), a)),
    ensures
        inf(th, ck, Tm::Proj(nm, i, Box::new(e)), a),
{
    let ty = apps(Tm::Const(ind, ls), xs);
    let rule = Rule::InfProj(raw, ty, ind, ls, xs, t1, t2, n, s, y);
    let j = Judg::Inf(ck, Tm::Proj(nm, i, Box::new(e)), a);
    let base = seq![
        Judg::Inf(ck, e, raw),
        Judg::Red(raw, ty),
        Judg::Tele(
            ctor_type(th, ind, ls)->0,
            xs.take(th.inductive(ind)->0.num_params as int),
            t1,
        ),
        Judg::Fields(ck, ty, t1, e, ind, 0, i, t2),
        Judg::Red(t2, Tm::Pi(n, s, Box::new(a), Box::new(y))),
    ];
    if ck is Loose {
        assert(premises(th, rule, j) =~= base);
    } else {
        assert(premises(th, rule, j) =~= base.push(Judg::Field(ty, a)));
    }
    by_rule(th, rule, j);
}

/// The major premise of a recursor for a type without data is a constructor.
pub proof fn red_k(
    th: Theory,
    n: Nm,
    ks: Seq<Lv>,
    zs: Seq<Tm>,
    r: RecursorData,
    raw: Tm,
    ind: Nm,
    ls: Seq<Lv>,
    xs: Seq<Tm>,
    m: int,
    c: Nm,
    cty: Tm,
)
    requires
        th.recursor(n) == Some(r),
        r.is_k,
        zs.len() > r.major_pos(),
        inf(th, Ck::Loose, zs[r.major_pos() as int], raw),
        red(th, raw, apps(Tm::Const(ind, ls), xs)),
        major_induct(r) == Some(ind),
        0 <= m <= xs.len(),
        first_ctor(th, ind) == Some(c),
        inf(th, Ck::Loose, apps(Tm::Const(c, ls), xs.take(m)), cty),
        deq(th, apps(Tm::Const(ind, ls), xs), cty),
    ensures
        red(
            th,
            apps(Tm::Const(n, ks), zs),
            apps(
                Tm::Const(n, ks),
                zs.update(r.major_pos() as int, apps(Tm::Const(c, ls), xs.take(m))),
            ),
        ),
{
    let a = apps(Tm::Const(n, ks), zs);
    head_of_apps(Tm::Const(n, ks), zs);
    assert(args(a) =~= zs);
    let ty = apps(Tm::Const(ind, ls), xs);
    let rule = Rule::RedK(raw, ty, ind, ls, xs, m, cty);
    let b = at_major(r, a, apps(Tm::Const(c, ls), xs.take(m)));
    by_rule(th, rule, Judg::Red(a, b));
}

/// The major premise of a recursor for a structure is the constructor of its projections.
pub proof fn red_eta(
    th: Theory,
    n: Nm,
    ks: Seq<Lv>,
    zs: Seq<Tm>,
    r: RecursorData,
    raw: Tm,
    ind: Nm,
    ls: Seq<Lv>,
    xs: Seq<Tm>,
    m: int,
    c: Nm,
    k: nat,
)
    requires
        th.recursor(n) == Some(r),
        zs.len() > r.major_pos(),
        inf(th, Ck::Loose, zs[r.major_pos() as int], raw),
        red(th, raw, apps(Tm::Const(ind, ls), xs)),
        major_induct(r) == Some(ind),
        th.is_struct(ind),
        !ctor_app(th, zs[r.major_pos() as int]),
        0 <= m <= xs.len(),
        first_ctor(th, ind) == Some(c),
        params_taken(th, r, c, xs.len(), m),
        ctor_fields(th, c) == Some(k),
    ensures
        red(
            th,
            apps(Tm::Const(n, ks), zs),
            apps(
                Tm::Const(n, ks),
                zs.update(
                    r.major_pos() as int,
                    apps(
                        apps(Tm::Const(c, ls), xs.take(m)),
                        projections(ind, zs[r.major_pos() as int], k),
                    ),
                ),
            ),
        ),
{
    let a = apps(Tm::Const(n, ks), zs);
    head_of_apps(Tm::Const(n, ks), zs);
    assert(args(a) =~= zs);
    let ty = apps(Tm::Const(ind, ls), xs);
    let rule = Rule::RedEta(raw, ty, ind, ls, xs, m);
    let b = at_major(
        r,
        a,
        apps(
            apps(Tm::Const(c, ls), xs.take(m)),
            projections(ind, zs[r.major_pos() as int], k),
        ),
    );
    by_rule(th, rule, Judg::Red(a, b));
}

} // verus!
