//! What a checked type rests on: a term has a type with everything checked only where its parts
//! do, and where their types agree.
use crate::judge::{
    applies, close, derivable, fresh, holds, levels_declared, opened, premises, Ck, Judg, Rule, Theory,
};
use crate::laws::{deq, inf, red, red_refl, red_trans};
use crate::tree::{inst1, tm_lsubst, BinderStyle, Lv, Nm, Tm};
use vstd::prelude::*;

verus! {

proof fn last_step(th: Theory, j: Judg) -> (rule: Rule)
    requires
        holds(th, j),
    ensures
        applies(th, rule, j),
        forall|i: int|
            0 <= i < premises(th, rule, j).len() ==> holds(th, #[trigger] premises(th, rule, j)[i]),
{
    reveal(holds);
    let n = choose|n: nat| derivable(th, n, j);
    let rule = choose|rule: Rule| #[trigger]
        applies(th, rule, j) && forall|i: int|
            0 <= i < premises(th, rule, j).len() ==> derivable(
                th,
                (n - 1) as nat,
                #[trigger] premises(th, rule, j)[i],
            );
    assert forall|i: int| 0 <= i < premises(th, rule, j).len() implies holds(
        th,
        #[trigger] premises(th, rule, j)[i],
    ) by {
        assert(derivable(th, (n - 1) as nat, premises(th, rule, j)[i]));
    }
    rule
}

/// A checked leaf: a bound variable has no type, a constant is declared and has the declared
/// type, and the levels in constants and universes are declared.
pub proof fn checked_leaves(th: Theory, ps: Option<Seq<Lv>>, e: Tm, t: Tm)
    requires
        inf(th, Ck::Full(ps), e, t),
    ensures
        !(e is Var),
        e matches Tm::Local(_, _, ty, _) ==> t == *ty,
        e matches Tm::Sort(l) ==> t == Tm::Sort(Lv::Succ(Box::new(l))) && levels_declared(
            Ck::Full(ps),
            seq![l],
        ),
        e matches Tm::Const(c, ls) ==> th.decls.contains_key(c) && t == tm_lsubst(
            th.decls[c].about().ty@,
            th.decls[c].about().uparams@,
            ls,
        ) && levels_declared(Ck::Full(ps), ls),
        e is NatLit ==> (th.names.nat matches Some(p) && t == crate::judge::plain(p@)),
        e is StrLit ==> (th.names.string matches Some(p) && t == crate::judge::plain(p@)),
{
    let rule = last_step(th, Judg::Inf(Ck::Full(ps), e, t));
}

/// A checked application: the function and the argument are checked, the function's type
/// reduces to a function type, the argument's type is equal by definition to the domain, and
/// the application has the range at the argument.
pub proof fn checked_application(th: Theory, ps: Option<Seq<Lv>>, f: Tm, x: Tm, t: Tm) -> (r: (
    Tm,
    Tm,
    Tm,
))
    requires
        inf(th, Ck::Full(ps), Tm::App(Box::new(f), Box::new(x)), t),
    ensures
        inf(th, Ck::Full(ps), f, r.0),
        r.1 is Pi,
        red(th, r.0, r.1),
        inf(th, Ck::Full(ps), x, r.2),
        deq(th, *r.1->Pi_2, r.2),
        t == inst1(*r.1->Pi_3, x),
{
    let e = Tm::App(Box::new(f), Box::new(x));
    let j = Judg::Inf(Ck::Full(ps), e, t);
    let rule = last_step(th, j);
    match rule {
        Rule::InfApp(raw, n, s, a, y, xt) => {
            let p = Tm::Pi(n, s, Box::new(a), Box::new(y));
            let all = premises(th, rule, j);
            assert(all =~= seq![
                Judg::Inf(Ck::Full(ps), f, raw),
                Judg::Red(raw, p),
                Judg::Inf(Ck::Full(ps), x, xt),
                Judg::Deq(a, xt),
            ]);
            assert(holds(th, all[0]) && holds(th, all[1]) && holds(th, all[2]) && holds(th, all[3]));
            (raw, p, xt)
        },
        _ => (e, e, e),
    }
}

/// A checked function: its domain is checked and is a type, and its body is checked at a fresh
/// variable; its type is the function type to the type of the body.
pub proof fn checked_function(
    th: Theory,
    ps: Option<Seq<Lv>>,
    n: Nm,
    s: BinderStyle,
    ty: Tm,
    b: Tm,
    t: Tm,
) -> (r: (u16, Tm, Tm, Lv))
    requires
        inf(th, Ck::Full(ps), Tm::Lam(n, s, Box::new(ty), Box::new(b)), t),
    ensures
        fresh(r.0, ty, b),
        inf(th, Ck::Full(ps), inst1(b, opened(n, s, ty, r.0)), r.1),
        t == Tm::Pi(n, s, Box::new(ty), Box::new(close(r.1, r.0))),
        inf(th, Ck::Full(ps), ty, r.2),
        red(th, r.2, Tm::Sort(r.3)),
{
    let e = Tm::Lam(n, s, Box::new(ty), Box::new(b));
    let j = Judg::Inf(Ck::Full(ps), e, t);
    let rule = last_step(th, j);
    match rule {
        Rule::InfLam(k, c, srt, l) => {
            let all = premises(th, rule, j);
            assert(all =~= seq![
                Judg::Inf(Ck::Full(ps), inst1(b, opened(n, s, ty, k)), c),
                Judg::Inf(Ck::Full(ps), ty, srt),
                Judg::Red(srt, Tm::Sort(l)),
            ]);
            assert(holds(th, all[0]) && holds(th, all[1]) && holds(th, all[2]));
            (k, c, srt, l)
        },
        _ => (0, e, e, Lv::Zero),
    }
}

/// A checked function type: its domain and its range are checked and are types, and its type
/// is the universe of the impredicative maximum of their levels.
pub proof fn checked_function_type(
    th: Theory,
    ps: Option<Seq<Lv>>,
    n: Nm,
    s: BinderStyle,
    ty: Tm,
    b: Tm,
    t: Tm,
) -> (r: (u16, Tm, Lv, Tm, Lv))
    requires
        inf(th, Ck::Full(ps), Tm::Pi(n, s, Box::new(ty), Box::new(b)), t),
    ensures
        fresh(r.0, ty, b),
        inf(th, Ck::Full(ps), ty, r.1),
        red(th, r.1, Tm::Sort(r.2)),
        inf(th, Ck::Full(ps), inst1(b, opened(n, s, ty, r.0)), r.3),
        red(th, r.3, Tm::Sort(r.4)),
        t == Tm::Sort(Lv::IMax(Box::new(r.2), Box::new(r.4))),
{
    let e = Tm::Pi(n, s, Box::new(ty), Box::new(b));
    let j = Judg::Inf(Ck::Full(ps), e, t);
    let rule = last_step(th, j);
    match rule {
        Rule::InfPi(k, st, u, sx, v) => {
            let all = premises(th, rule, j);
            assert(all =~= seq![
                Judg::Inf(Ck::Full(ps), ty, st),
                Judg::Red(st, Tm::Sort(u)),
                Judg::Inf(Ck::Full(ps), inst1(b, opened(n, s, ty, k)), sx),
                Judg::Red(sx, Tm::Sort(v)),
            ]);
            assert(holds(th, all[0]) && holds(th, all[1]) && holds(th, all[2]) && holds(th, all[3]));
            (k, st, u, sx, v)
        },
        _ => (0, e, Lv::Zero, e, Lv::Zero),
    }
}

/// A checked local definition: the stated type is checked and is a type, the value is checked
/// and has a type equal by definition to the stated one, and the body with the value put in is
/// checked and has the type of the whole.
pub proof fn checked_definition(
    th: Theory,
    ps: Option<Seq<Lv>>,
    n: Nm,
    ty: Tm,
    v: Tm,
    b: Tm,
    d: bool,
    t: Tm,
) -> (r: (Tm, Lv, Tm))
    requires
        inf(th, Ck::Full(ps), Tm::Let(n, Box::new(ty), Box::new(v), Box::new(b), d), t),
    ensures
        inf(th, Ck::Full(ps), ty, r.0),
        red(th, r.0, Tm::Sort(r.1)),
        inf(th, Ck::Full(ps), v, r.2),
        deq(th, r.2, ty),
        inf(th, Ck::Full(ps), inst1(b, v), t),
{
    let e = Tm::Let(n, Box::new(ty), Box::new(v), Box::new(b), d);
    let j = Judg::Inf(Ck::Full(ps), e, t);
    let rule = last_step(th, j);
    match rule {
        Rule::InfLet(srt, l, vt) => {
            let all = premises(th, rule, j);
            assert(all =~= seq![
                Judg::Inf(Ck::Full(ps), inst1(b, v), t),
                Judg::Inf(Ck::Full(ps), ty, srt),
                Judg::Red(srt, Tm::Sort(l)),
                Judg::Inf(Ck::Full(ps), v, vt),
                Judg::Deq(vt, ty),
            ]);
            assert(holds(th, all[0]) && holds(th, all[1]) && holds(th, all[2]) && holds(th, all[3])
                && holds(th, all[4]));
            (srt, l, vt)
        },
        _ => (e, Lv::Zero, e),
    }
}

/// A proposition is what has a type that reduces to the universe of propositions.
pub proof fn propositions(th: Theory, t: Tm) -> (s: Tm)
    requires
        holds(th, Judg::Prop(t)),
    ensures
        inf(th, Ck::Loose, t, s),
        red(th, s, Tm::Sort(Lv::Zero)),
{
    let j = Judg::Prop(t);
    let rule = last_step(th, j);
    match rule {
        Rule::PropSort(s) => {
            let all = premises(th, rule, j);
            assert(all =~= seq![Judg::Inf(Ck::Loose, t, s), Judg::Red(s, Tm::Sort(Lv::Zero))]);
            assert(holds(th, all[0]) && holds(th, all[1]));
            s
        },
        _ => t,
    }
}

proof fn variable_type_at(th: Theory, n: nat, ck: Ck, e: Tm, ty: Tm, t: Tm)
    requires
        derivable(th, n, Judg::Inf(ck, e, t)),
        e matches Tm::Local(_, _, u, _) && *u == ty,
    ensures
        red(th, ty, t),
    decreases n,
{
    let j = Judg::Inf(ck, e, t);
    let m = (n - 1) as nat;
    let rule = choose|rule: Rule| #[trigger]
        applies(th, rule, j) && forall|i: int|
            0 <= i < premises(th, rule, j).len() ==> derivable(
                th,
                m,
                #[trigger] premises(th, rule, j)[i],
            );
    let ps = premises(th, rule, j);
    match rule {
        Rule::InfConv(u) => {
            assert(derivable(th, m, ps[0]) && derivable(th, m, ps[1]));
            variable_type_at(th, m, ck, e, ty, u);
            assert(red(th, u, t)) by {
                reveal(holds);
            }
            red_trans(th, ty, u, t);
        },
        Rule::InfOnly => {
            assert(derivable(th, m, ps[0]));
            variable_type_at(th, m, Ck::Only, e, ty, t);
        },
        Rule::InfChecked(qs) => {
            assert(derivable(th, m, ps[0]));
            variable_type_at(th, m, Ck::Full(qs), e, ty, t);
        },
        _ => {
            red_refl(th, ty);
        },
    }
}

/// Any type of a variable is what the type that it carries reduces to.
pub proof fn variable_types(th: Theory, ck: Ck, e: Tm, t: Tm)
    requires
        e is Local,
        inf(th, ck, e, t),
    ensures
        red(th, *e->Local_2, t),
{
    reveal(holds);
    let n = choose|n: nat| derivable(th, n, Judg::Inf(ck, e, t));
    variable_type_at(th, n, ck, e, *e->Local_2, t);
}

} // verus!
