//! What reduction leaves as it is: the heads that never reduce, function types, functions and
//! universes.
use crate::ctx::NameCache;
use crate::env::RecursorData;
use crate::judge::{
    derivable, first_ctor, holds, is_named, lv_same, major_induct, op_named, opened, premises, quot_pos,
    rule_for, Ck, Judg, Rule, Theory,
};
use crate::laws::{inf, red, red_refl, red_trans};
use crate::tree::{
    abstr, args, head, inst1, lv_eval, lv_simplify_value, subst, tm_lsubst, Lv, Nm, Tm,
};
use crate::value::{
    all_apps, elim_tm, lit_ctor_named, lit_type_named, spine_args, spine_neutral, spine_tm,
    value_known, El, RigidHead, Value,
};
use vstd::prelude::*;

verus! {

/// The name is that of an operation on numbers, of zero or of the successor.
pub open spec fn nat_named(c: NameCache, n: Nm) -> bool {
    ||| is_named(c.nat_zero, n)
    ||| is_named(c.nat_succ, n)
    ||| is_named(c.nat_div_go, n)
    ||| is_named(c.nat_mod_core_go, n)
    ||| op_named(c, n) is Some
}

/// No rule reduces terms with the constant at their head at the head.
pub open spec fn fixed(th: Theory, n: Nm) -> bool {
    &&& th.decls.contains_key(n) ==> th.decls[n].value() is None
    &&& th.recursor(n) is None
    &&& !(th.is_quot(n) && quot_pos(th.names, n) is Some)
    &&& !(th.nat_ext && nat_named(th.names, n))
}

/// A variable, or a constant that does not reduce, is applied to arguments.
pub open spec fn fixed_head(th: Theory, t: Tm) -> bool
    decreases t,
{
    match t {
        Tm::Const(n, _) => fixed(th, n),
        Tm::Local(_, _, _, _) => true,
        Tm::Free(_, _) => true,
        Tm::App(f, _) => fixed_head(th, *f),
        _ => false,
    }
}

/// The head does not reduce, and is no constant of the quotient types.
pub open spec fn still(th: Theory, t: Tm) -> bool {
    fixed_head(th, t) && !(head(t) matches Tm::Const(n, _) && th.is_quot(n))
}

/// The head neither reduces nor constructs anything.
pub open spec fn barren(th: Theory, t: Tm) -> bool {
    still(th, t) && !(head(t) matches Tm::Const(n, _) && (th.ctor_params(n) is Some
        || lit_ctor_named(th.names, n)))
}

/// Fuel that is enough to bring a value into its canonical form.
pub open spec fn canon_fuel(t: Tm) -> nat
    decreases t,
{
    match t {
        Tm::App(f, x) => if canon_fuel(*f) > canon_fuel(*x) + 2 {
            canon_fuel(*f) + 1
        } else {
            canon_fuel(*x) + 3
        },
        Tm::Proj(_, _, s) => canon_fuel(*s) + 1,
        _ => 3,
    }
}

/// Evaluation with so much fuel is bound to give a value.
pub open spec fn evaluates(th: Theory, t: Tm, fuel: int) -> bool
    decreases t, 1nat,
{
    match t {
        Tm::Pi(_, _, ty, _) => fuel > 4 && !(*ty is Var),
        Tm::App(f, x) => if *x is App {
            &&& fuel > canon_fuel(t) + 6
            &&& frozen(th, t)
            &&& chains(th, t, fuel - 3)
        } else {
            &&& fuel > 7
            &&& fixed_head(th, *f)
            &&& args(*f).len() < u32::MAX
            &&& evaluates(th, *f, fuel - 3)
            &&& !(*x is Var)
        },
        Tm::Let(_, _, v, b, _) => fuel > 3 && evaluates(th, *v, fuel - 3) && evaluates(
            th,
            *b,
            fuel - 3,
        ),
        Tm::Proj(_, _, s) => {
            &&& fuel > 4
            &&& barren(th, *s)
            &&& args(*s).len() < u32::MAX
            &&& evaluates(th, *s, fuel - 2)
        },
        Tm::Var(_) | Tm::Free(_, _) => false,
        _ => fuel > 1,
    }
}

/// Evaluation of each function in nested applications is bound to give a value.
pub open spec fn chains(th: Theory, t: Tm, fuel: int) -> bool
    decreases t, 0nat,
{
    match t {
        Tm::App(f, x) => evaluates(th, *f, fuel) && args(*f).len() < u32::MAX && chains(th, *x, fuel),
        _ => fuel > 1,
    }
}

/// The term is made of variables and of constants that do not reduce, by application.
pub open spec fn frozen(th: Theory, t: Tm) -> bool
    decreases t,
{
    match t {
        Tm::Local(_, _, _, _) => true,
        Tm::Const(n, _) => fixed(th, n),
        Tm::App(f, a) => frozen(th, *f) && frozen(th, *a),
        _ => false,
    }
}

/// The head of such a term does not reduce.
pub proof fn frozen_fixed(th: Theory, t: Tm)
    requires
        frozen(th, t),
    ensures
        fixed_head(th, t),
        forall|env: Seq<Tm>, k: nat| #[trigger] subst(t, env, k) == t,
    decreases t,
{
    if let Tm::App(f, a) = t {
        frozen_fixed(th, *f);
        frozen_fixed(th, *a);
        assert forall|env: Seq<Tm>, k: nat| #[trigger] subst(t, env, k) == t by {
            assert(subst(*f, env, k) == *f);
            assert(subst(*a, env, k) == *a);
        }
    }
}

/// A term made of variables and of constants that do not reduce reduces to itself only.
pub proof fn frozen_stays(th: Theory, a: Tm, b: Tm)
    requires
        frozen(th, a),
        red(th, a, b),
    ensures
        a == b,
    decreases a, 1nat,
{
    frozen_fixed(th, a);
    fixed_stays(th, a, b);
    frozen_same(th, a, b);
}

proof fn frozen_same(th: Theory, a: Tm, b: Tm)
    requires
        frozen(th, a),
        same_head(th, a, b),
    ensures
        a == b,
    decreases a, 0nat,
{
    if let (Tm::App(f, x), Tm::App(g, y)) = (a, b) {
        frozen_same(th, *f, *g);
        frozen_stays(th, *x, *y);
    }
}

proof fn chains_more(th: Theory, t: Tm, a: int, b: int)
    requires
        chains(th, t, a),
        a <= b,
    ensures
        chains(th, t, b),
    decreases t, 0nat,
{
    if let Tm::App(f, x) = t {
        evaluates_more(th, *f, a, b);
        chains_more(th, *x, a, b);
    }
}

/// More fuel does no harm.
pub proof fn evaluates_more(th: Theory, t: Tm, a: int, b: int)
    requires
        evaluates(th, t, a),
        a <= b,
    ensures
        evaluates(th, t, b),
    decreases t, 1nat,
{
    match t {
        Tm::App(f, x) => if *x is App {
            chains_more(th, t, a - 3, b - 3);
        } else {
            evaluates_more(th, *f, a - 3, b - 3);
        },
        Tm::Let(_, _, v, e, _) => {
            evaluates_more(th, *v, a - 3, b - 3);
            evaluates_more(th, *e, a - 3, b - 3);
        },
        Tm::Proj(_, _, e) => evaluates_more(th, *e, a - 2, b - 2),
        _ => {},
    }
}

/// A head that does not reduce holds no variable that could be replaced.
pub proof fn fixed_subst(th: Theory, t: Tm, env: Seq<Tm>, k: nat)
    requires
        fixed_head(th, t),
    ensures
        fixed_head(th, subst(t, env, k)),
        head(subst(t, env, k)) == head(t),
        args(subst(t, env, k)).len() == args(t).len(),
    decreases t,
{
    if let Tm::App(f, _) = t {
        fixed_subst(th, *f, env, k);
    }
}

/// The terms have one head, and are applied to arguments that reduce one by one.
pub open spec fn same_head(th: Theory, a: Tm, b: Tm) -> bool
    decreases a,
{
    match (a, b) {
        (Tm::App(f, x), Tm::App(g, y)) => same_head(th, *f, *g) && red(th, *x, *y),
        _ => a == b && !(a is App),
    }
}

proof fn same_head_refl(th: Theory, a: Tm)
    ensures
        same_head(th, a, a),
    decreases a,
{
    if let Tm::App(f, x) = a {
        same_head_refl(th, *f);
        red_refl(th, *x);
    }
}

proof fn same_head_trans(th: Theory, a: Tm, b: Tm, c: Tm)
    requires
        same_head(th, a, b),
        same_head(th, b, c),
    ensures
        same_head(th, a, c),
    decreases a,
{
    if let (Tm::App(f, x), Tm::App(g, y), Tm::App(h, z)) = (a, b, c) {
        same_head_trans(th, *f, *g, *h);
        red_trans(th, *x, *y, *z);
    }
}

proof fn fixed_head_head(th: Theory, t: Tm)
    requires
        fixed_head(th, t),
    ensures
        match head(t) {
            Tm::Const(n, _) => fixed(th, n),
            Tm::Local(_, _, _, _) | Tm::Free(_, _) => true,
            _ => false,
        },
    decreases t,
{
    if let Tm::App(f, _) = t {
        fixed_head_head(th, *f);
    }
}

proof fn fixed_head_kept(th: Theory, a: Tm, b: Tm)
    requires
        fixed_head(th, a),
        same_head(th, a, b),
    ensures
        fixed_head(th, b),
    decreases a,
{
    if let (Tm::App(f, _), Tm::App(g, _)) = (a, b) {
        fixed_head_kept(th, *f, *g);
    }
}

proof fn held(th: Theory, n: nat, j: Judg)
    requires
        derivable(th, n, j),
    ensures
        holds(th, j),
{
    reveal(holds);
}

proof fn fixed_stays_at(th: Theory, n: nat, a: Tm, b: Tm)
    requires
        derivable(th, n, Judg::Red(a, b)),
        fixed_head(th, a),
    ensures
        same_head(th, a, b),
    decreases n,
{
    let j = Judg::Red(a, b);
    let m = (n - 1) as nat;
    let rule = choose|rule: Rule| #[trigger]
        crate::judge::applies(th, rule, j) && forall|i: int|
            0 <= i < premises(th, rule, j).len() ==> derivable(
                th,
                m,
                #[trigger] premises(th, rule, j)[i],
            );
    let ps = premises(th, rule, j);
    fixed_head_head(th, a);
    match rule {
        Rule::RedRefl => {
            same_head_refl(th, a);
        },
        Rule::RedTrans(c) => {
            assert(derivable(th, m, ps[0]) && derivable(th, m, ps[1]));
            fixed_stays_at(th, m, a, c);
            fixed_head_kept(th, a, c);
            fixed_stays_at(th, m, c, b);
            same_head_trans(th, a, c, b);
        },
        Rule::RedApp => {
            if let (Tm::App(f, x), Tm::App(g, y)) = (a, b) {
                assert(derivable(th, m, ps[0]) && derivable(th, m, ps[1]));
                fixed_stays_at(th, m, *f, *g);
                held(th, m, ps[1]);
            }
        },
        Rule::RedStep => {
            reveal_with_fuel(fixed_head, 2);
        },
        _ => {},
    }
}

/// Reduction keeps a head that does not reduce, and reduces the arguments one by one.
pub proof fn fixed_stays(th: Theory, a: Tm, b: Tm)
    requires
        red(th, a, b),
        fixed_head(th, a),
    ensures
        same_head(th, a, b),
        fixed_head(th, b),
{
    reveal(holds);
    let n = choose|n: nat| derivable(th, n, Judg::Red(a, b));
    fixed_stays_at(th, n, a, b);
    fixed_head_kept(th, a, b);
}

/// Terms with one head have as many arguments.
pub proof fn same_head_args(th: Theory, a: Tm, b: Tm)
    requires
        same_head(th, a, b),
    ensures
        head(a) == head(b),
        args(a).len() == args(b).len(),
        forall|i: int| 0 <= i < args(a).len() ==> red(th, #[trigger] args(a)[i], args(b)[i]),
    decreases a,
{
    if let (Tm::App(f, x), Tm::App(g, y)) = (a, b) {
        same_head_args(th, *f, *g);
    }
}

/// The major premise is a constructor that the recursor has a rule for, with the fields that
/// the rule takes.
pub open spec fn met(th: Theory, r: RecursorData, m: Tm) -> bool {
    &&& fixed_head(th, m)
    &&& match head(m) {
        Tm::Const(c, _) => {
            &&& th.ctor_params(c) is Some
            &&& !lit_type_named(th.names, c)
            &&& exists|i: int| #[trigger]
                rule_for(r.rec_rules@, c, i) && args(m).len()
                    >= r.rec_rules@[i].ctor_telescope_size_wo_params
        },
        _ => false,
    }
}

/// A recursor for a type whose only constructor carries no data has a rule for that
/// constructor, which takes no fields.
pub open spec fn by_rules(th: Theory, r: RecursorData) -> bool {
    r.is_k ==> (major_induct(r) matches Some(n) ==> (first_ctor(th, n) matches Some(c) ==> {
        &&& !lit_type_named(th.names, c)
        &&& exists|i: int| #[trigger]
            rule_for(r.rec_rules@, c, i) && r.rec_rules@[i].ctor_telescope_size_wo_params == 0
    }))
}

/// A recursor is applied to a constructor that it has a rule for.
pub open spec fn ready(th: Theory, t: Tm) -> bool {
    match head(t) {
        Tm::Const(n, _) => match th.recursor(n) {
            Some(r) => {
                &&& !lit_type_named(th.names, n)
                &&& !lit_ctor_named(th.names, n)
                &&& by_rules(th, r)
                &&& args(t).len() > r.major_pos()
                &&& met(th, r, args(t)[r.major_pos() as int])
            },
            None => false,
        },
        _ => false,
    }
}

/// A constructor is applied to arguments.
pub open spec fn ctor_headed(th: Theory, t: Tm) -> bool {
    head(t) matches Tm::Const(n, _) && th.ctor_params(n) is Some && !lit_type_named(th.names, n)
}

/// A recursor is applied to arguments.
pub open spec fn rec_headed(th: Theory, t: Tm) -> bool {
    head(t) matches Tm::Const(n, _) && th.recursor(n) is Some && !lit_type_named(th.names, n)
        && !lit_ctor_named(th.names, n)
}

/// An inductive type is applied to arguments.
pub open spec fn ind_headed(th: Theory, t: Tm) -> bool {
    head(t) matches Tm::Const(n, _) && th.inductive(n) is Some && !lit_ctor_named(th.names, n)
}

/// How many things are done to the head of a term.
pub open spec fn links(t: Tm) -> nat
    decreases t,
{
    match t {
        Tm::App(f, _) => links(*f) + 1,
        Tm::Proj(_, _, s) => links(*s) + 1,
        _ => 0,
    }
}

/// Some fuel is needed for each value.
pub proof fn canon_fuel_least(t: Tm)
    ensures
        canon_fuel(t) >= 3,
    decreases t,
{
    match t {
        Tm::App(f, x) => canon_fuel_least(*f),
        Tm::Proj(_, _, s) => canon_fuel_least(*s),
        _ => {},
    }
}

/// Fuel that is enough to bring each value in a spine into its canonical form.
pub open spec fn spine_fuel(es: Seq<El>) -> nat
    decreases es.len(),
{
    if es.len() == 0 {
        1
    } else {
        let rest = spine_fuel(es.drop_last());
        match es.last() {
            El::App(x) => if rest > canon_fuel(x) {
                rest + 1
            } else {
                canon_fuel(x) + 1
            },
            El::Proj(_, _) => rest + 1,
        }
    }
}

/// What a term needs, its spine needs.
pub proof fn fuel_of_spine(h: Tm, es: Seq<El>)
    requires
        h is Const || h is Local || h is Free,
    ensures
        canon_fuel(spine_tm(h, es)) == spine_fuel(es) + 2,
    decreases es.len(),
{
    if es.len() > 0 {
        fuel_of_spine(h, es.drop_last());
    }
}

/// A spine holds what is done to its head.
pub proof fn spine_links(h: Tm, es: Seq<El>)
    requires
        h is Const || h is Local || h is Free,
    ensures
        links(spine_tm(h, es)) == es.len(),
    decreases es.len(),
{
    if es.len() > 0 {
        spine_links(h, es.drop_last());
    }
}

/// A head that does not reduce is applied to each argument of the spine.
pub proof fn fixed_spine(th: Theory, h: Tm, es: Seq<El>)
    requires
        h is Const || h is Local || h is Free,
        fixed_head(th, spine_tm(h, es)),
    ensures
        fixed_head(th, h),
        head(spine_tm(h, es)) == h,
        args(spine_tm(h, es)).len() == es.len(),
    decreases es.len(),
{
    if es.len() > 0 {
        assert(es.last() is App);
        fixed_spine(th, h, es.drop_last());
    }
}

/// Where a constant is at the head of what things are done to, all of these are
/// applications.
pub proof fn spine_head(h: Tm, es: Seq<El>)
    requires
        h is Const || h is Local || h is Free,
        head(spine_tm(h, es)) is Const,
    ensures
        head(spine_tm(h, es)) == h,
        all_apps(es),
        args(spine_tm(h, es)) == spine_args(es),
    decreases es.len(),
{
    if es.len() > 0 {
        let p = es.drop_last();
        assert(es.last() is App);
        spine_head(h, p);
        assert forall|i: int| 0 <= i < es.len() implies (#[trigger] es[i]) is App by {
            if i < p.len() {
                assert(p[i] is App);
            }
        }
        assert(spine_args(es) =~= spine_args(p).push(es.last()->App_0));
        assert(spine_tm(h, es) == elim_tm(spine_tm(h, p), es.last()));
    } else {
        assert(spine_args(es) =~= Seq::<Tm>::empty());
    }
}

/// A value with a constructor, a recursor or an inductive type at its head is one.
pub proof fn head_kind(th: Theory, v: Value, t: Tm)
    requires
        v.tree() == t,
        !(v is Thunk),
        value_known(th, v),
        v matches Value::Rigid { head: RigidHead::Local(e), .. } ==> e@ is Local,
        ctor_headed(th, t) || rec_headed(th, t) || ind_headed(th, t),
    ensures
        v matches Value::Rigid { head: h, spine } && h.tm() == head(t) && all_apps(spine@) && args(t)
            == spine_args(spine@) && (ctor_headed(th, t) ==> h is Ctor) && (rec_headed(th, t)
            ==> h is Recursor) && (ind_headed(th, t) ==> h is Inductive),
{
    match v {
        Value::Rigid { head, spine } => {
            spine_head(head.tm(), spine@);
        },
        Value::Unfold { name, levels, spine, .. } => {
            spine_head(Tm::Const(name@, levels@), spine@);
        },
        _ => {},
    }
}

/// A value with a constant of quotients at its head is one.
pub proof fn quot_kind(th: Theory, v: Value, t: Tm)
    requires
        v.tree() == t,
        !(v is Thunk),
        value_known(th, v),
        v matches Value::Rigid { head: RigidHead::Local(e), .. } ==> e@ is Local,
        head(t) matches Tm::Const(n, _) && th.is_quot(n) && !lit_type_named(th.names, n)
            && !lit_ctor_named(th.names, n),
    ensures
        v matches Value::Rigid { head: h, spine } && h.tm() == head(t) && all_apps(spine@) && args(t)
            == spine_args(spine@) && h is QuotConst,
{
    match v {
        Value::Rigid { head, spine } => {
            spine_head(head.tm(), spine@);
        },
        Value::Unfold { name, levels, spine, .. } => {
            spine_head(Tm::Const(name@, levels@), spine@);
        },
        _ => {},
    }
}

/// A value that stands for a function type is one.
pub proof fn pi_kind(v: Value, t: Tm)
    requires
        v.tree() == t,
        !(v is Thunk),
        v matches Value::Rigid { head: RigidHead::Local(e), .. } ==> e@ is Local,
        t is Pi,
    ensures
        v is Pi,
{
    match v {
        Value::Rigid { head, spine } => {
            spine_neutral(head.tm(), spine@);
        },
        Value::Unfold { name, levels, spine, .. } => {
            spine_neutral(Tm::Const(name@, levels@), spine@);
        },
        _ => {},
    }
}

/// A constructor that a recursor has a rule for stays one when it is reduced.
pub proof fn met_stays(th: Theory, r: RecursorData, a: Tm, b: Tm)
    requires
        met(th, r, a),
        red(th, a, b),
    ensures
        met(th, r, b),
        head(b) == head(a),
{
    fixed_stays(th, a, b);
    same_head_args(th, a, b);
}

/// A universe, a function or a function type.
pub open spec fn formed(t: Tm) -> bool {
    t is Sort || t is Lam || t is Pi
}

/// The terms are universes of equal levels, functions, or function types.
pub open spec fn same_form(a: Tm, b: Tm) -> bool {
    match a {
        Tm::Sort(l) => b matches Tm::Sort(m) && lv_same(l, m),
        Tm::Lam(_, _, _, _) => b is Lam,
        Tm::Pi(_, _, _, _) => b is Pi,
        _ => false,
    }
}

proof fn formed_stays_at(th: Theory, n: nat, a: Tm, b: Tm)
    requires
        derivable(th, n, Judg::Red(a, b)),
        formed(a),
    ensures
        same_form(a, b),
    decreases n,
{
    let j = Judg::Red(a, b);
    let m = (n - 1) as nat;
    let rule = choose|rule: Rule| #[trigger]
        crate::judge::applies(th, rule, j) && forall|i: int|
            0 <= i < premises(th, rule, j).len() ==> derivable(
                th,
                m,
                #[trigger] premises(th, rule, j)[i],
            );
    let ps = premises(th, rule, j);
    assert(head(a) == a);
    match rule {
        Rule::RedTrans(c) => {
            assert(derivable(th, m, ps[0]) && derivable(th, m, ps[1]));
            formed_stays_at(th, m, a, c);
            formed_stays_at(th, m, c, b);
        },
        Rule::RedStep => {
            if let Tm::Sort(l) = a {
                assert forall|s: spec_fn(Nm) -> nat| #[trigger]
                    lv_eval(l, s) == lv_eval(b->Sort_0, s) by {
                    lv_simplify_value(l, s);
                }
            }
        },
        _ => {},
    }
}

/// Reduction leaves a universe a universe of an equal level, a function a function, and a
/// function type a function type.
pub proof fn formed_stays(th: Theory, a: Tm, b: Tm)
    requires
        red(th, a, b),
        formed(a),
    ensures
        same_form(a, b),
{
    reveal(holds);
    let n = choose|n: nat| derivable(th, n, Judg::Red(a, b));
    formed_stays_at(th, n, a, b);
}

/// The number of binders at the front of a function type.
pub open spec fn pi_count(t: Tm) -> nat
    decreases t,
{
    match t {
        Tm::Pi(_, _, _, b) => 1 + pi_count(*b),
        _ => 0,
    }
}

/// Replacing variables leaves the binders.
pub proof fn pi_count_subst(t: Tm, xs: Seq<Tm>, k: nat)
    ensures
        pi_count(subst(t, xs, k)) >= pi_count(t),
    decreases t,
{
    if let Tm::Pi(_, _, _, b) = t {
        pi_count_subst(*b, xs, k + 1);
    }
}

proof fn pi_count_abstr(t: Tm, start: nat, open: nat, k: nat)
    ensures
        pi_count(abstr(t, start, open, k)) >= pi_count(t),
    decreases t,
{
    if let Tm::Pi(_, _, _, b) = t {
        pi_count_abstr(*b, start, open, k + 1);
    }
}

proof fn pi_count_stays_at(th: Theory, n: nat, a: Tm, b: Tm)
    requires
        derivable(th, n, Judg::Red(a, b)),
    ensures
        pi_count(b) >= pi_count(a),
    decreases n,
{
    if let Tm::Pi(name, s, ty, x) = a {
        let j = Judg::Red(a, b);
        let m = (n - 1) as nat;
        let rule = choose|rule: Rule| #[trigger]
            crate::judge::applies(th, rule, j) && forall|i: int|
                0 <= i < premises(th, rule, j).len() ==> derivable(
                    th,
                    m,
                    #[trigger] premises(th, rule, j)[i],
                );
        let ps = premises(th, rule, j);
        assert(head(a) == a);
        match rule {
            Rule::RedTrans(c) => {
                assert(derivable(th, m, ps[0]) && derivable(th, m, ps[1]));
                pi_count_stays_at(th, m, a, c);
                pi_count_stays_at(th, m, c, b);
            },
            Rule::RedUnder(k, c) => {
                assert(derivable(th, m, ps[0]));
                let v = opened(name, s, *ty, k);
                pi_count_subst(*x, seq![v], 0);
                pi_count_stays_at(th, m, inst1(*x, v), c);
                pi_count_abstr(c, k as nat, k as nat + 1, 0);
            },
            _ => {},
        }
    }
}

/// Reduction leaves the binders at the front of a function type.
pub proof fn pi_count_stays(th: Theory, a: Tm, b: Tm)
    requires
        red(th, a, b),
    ensures
        pi_count(b) >= pi_count(a),
{
    reveal(holds);
    let n = choose|n: nat| derivable(th, n, Judg::Red(a, b));
    pi_count_stays_at(th, n, a, b);
}

/// A universe behind any number of binders.
pub open spec fn sort_ended(t: Tm) -> bool
    decreases t,
{
    match t {
        Tm::Pi(_, _, _, b) => sort_ended(*b),
        _ => t is Sort,
    }
}

/// Replacing variables leaves a universe behind binders.
pub proof fn sort_ended_subst(t: Tm, xs: Seq<Tm>, k: nat)
    requires
        sort_ended(t),
    ensures
        sort_ended(subst(t, xs, k)),
    decreases t,
{
    if let Tm::Pi(_, _, _, b) = t {
        sort_ended_subst(*b, xs, k + 1);
    }
}

proof fn sort_ended_abstr(t: Tm, start: nat, open: nat, k: nat)
    requires
        sort_ended(t),
    ensures
        sort_ended(abstr(t, start, open, k)),
    decreases t,
{
    if let Tm::Pi(_, _, _, b) = t {
        sort_ended_abstr(*b, start, open, k + 1);
    }
}

proof fn sort_ended_stays_at(th: Theory, n: nat, a: Tm, b: Tm)
    requires
        derivable(th, n, Judg::Red(a, b)),
        sort_ended(a),
    ensures
        sort_ended(b),
    decreases n,
{
    if let Tm::Pi(name, s, ty, x) = a {
        let j = Judg::Red(a, b);
        let m = (n - 1) as nat;
        let rule = choose|rule: Rule| #[trigger]
            crate::judge::applies(th, rule, j) && forall|i: int|
                0 <= i < premises(th, rule, j).len() ==> derivable(
                    th,
                    m,
                    #[trigger] premises(th, rule, j)[i],
                );
        let ps = premises(th, rule, j);
        assert(head(a) == a);
        match rule {
            Rule::RedTrans(c) => {
                assert(derivable(th, m, ps[0]) && derivable(th, m, ps[1]));
                sort_ended_stays_at(th, m, a, c);
                sort_ended_stays_at(th, m, c, b);
            },
            Rule::RedUnder(k, c) => {
                assert(derivable(th, m, ps[0]));
                let v = opened(name, s, *ty, k);
                sort_ended_subst(*x, seq![v], 0);
                sort_ended_stays_at(th, m, inst1(*x, v), c);
                sort_ended_abstr(c, k as nat, k as nat + 1, 0);
            },
            _ => {},
        }
    } else {
        formed_stays_at(th, n, a, b);
    }
}

/// Reduction leaves a universe behind binders.
pub proof fn sort_ended_stays(th: Theory, a: Tm, b: Tm)
    requires
        red(th, a, b),
        sort_ended(a),
    ensures
        sort_ended(b),
{
    reveal(holds);
    let n = choose|n: nat| derivable(th, n, Judg::Red(a, b));
    sort_ended_stays_at(th, n, a, b);
}

/// The type that a constant is declared with, with the universe parameters replaced.
pub open spec fn declared_type(th: Theory, n: Nm, ls: Seq<Lv>) -> Tm {
    tm_lsubst(th.decls[n].about().ty@, th.decls[n].about().uparams@, ls)
}

proof fn const_type_at(th: Theory, n: nat, ck: Ck, c: Nm, ls: Seq<Lv>, t: Tm)
    requires
        derivable(th, n, Judg::Inf(ck, Tm::Const(c, ls), t)),
    ensures
        th.decls.contains_key(c),
        red(th, declared_type(th, c, ls), t),
    decreases n,
{
    let j = Judg::Inf(ck, Tm::Const(c, ls), t);
    let m = (n - 1) as nat;
    let rule = choose|rule: Rule| #[trigger]
        crate::judge::applies(th, rule, j) && forall|i: int|
            0 <= i < premises(th, rule, j).len() ==> derivable(
                th,
                m,
                #[trigger] premises(th, rule, j)[i],
            );
    let ps = premises(th, rule, j);
    let ty = declared_type(th, c, ls);
    match rule {
        Rule::InfConst => {
            red_refl(th, ty);
        },
        Rule::InfConv(u) => {
            assert(derivable(th, m, ps[0]) && derivable(th, m, ps[1]));
            const_type_at(th, m, ck, c, ls, u);
            held(th, m, ps[1]);
            red_trans(th, ty, u, t);
        },
        Rule::InfOnly => {
            assert(derivable(th, m, ps[0]));
            const_type_at(th, m, Ck::Only, c, ls, t);
        },
        Rule::InfChecked(qs) => {
            assert(derivable(th, m, ps[0]));
            const_type_at(th, m, Ck::Full(qs), c, ls, t);
        },
        _ => {},
    }
}

/// Every type that is inferred for a constant is one that its declared type reduces to.
pub proof fn const_type(th: Theory, ck: Ck, c: Nm, ls: Seq<Lv>, t: Tm)
    requires
        inf(th, ck, Tm::Const(c, ls), t),
    ensures
        th.decls.contains_key(c),
        red(th, declared_type(th, c, ls), t),
{
    reveal(holds);
    let n = choose|n: nat| derivable(th, n, Judg::Inf(ck, Tm::Const(c, ls), t));
    const_type_at(th, n, ck, c, ls, t);
}

} // verus!
