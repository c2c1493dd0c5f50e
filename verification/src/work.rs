//! The work that evaluation does: which tasks a task may pose, in whatever order terms were
//! evaluated before, and how deep that goes.
use crate::bignum::{bin_fits, NatBinOp};
use crate::env::{Declar, RecursorData};
use crate::judge::{
    ctor_type, first_ctor, iota, is_named, lit_step, major_induct, nat_rec_step, op_named, projections, quot_pos,
    quot_step, replaces_major, rule_for, str_ctor, holds, unfolds, Ck, Judg, Theory,
};
use crate::laws::{inf, red, red_all, red_trans};
use crate::stable::{canon_fuel, declared_type, fixed_head, ind_headed, links, pi_count, ready};
use crate::tree::{apps, args, head, inst1, loose, subst, tm_lsubst, Lv, Nm, Tm};
use crate::value::{evaluated, lit_ctor_named, lit_type_named, neutral, spine_tm, valued, El};
use vstd::prelude::*;

verus! {

/// What things are done to.
pub open spec fn root(t: Tm) -> Tm
    decreases t,
{
    match t {
        Tm::App(f, _) => root(*f),
        Tm::Proj(_, _, s) => root(*s),
        _ => t,
    }
}

/// What is done to the root of a term, in order.
pub open spec fn els(t: Tm) -> Seq<El>
    decreases t,
{
    match t {
        Tm::App(f, a) => els(*f).push(El::App(*a)),
        Tm::Proj(n, i, s) => els(*s).push(El::Proj(n, i)),
        _ => Seq::empty(),
    }
}

/// A term is its root with what is done to it.
pub proof fn root_els(h: Tm, es: Seq<El>)
    requires
        !(h is App) && !(h is Proj),
    ensures
        root(spine_tm(h, es)) == h,
        els(spine_tm(h, es)) == es,
    decreases es.len(),
{
    if es.len() > 0 {
        root_els(h, es.drop_last());
        assert(es.drop_last().push(es.last()) =~= es);
    }
}

/// The constant at the root is declared with a value.
pub open spec fn defined(th: Theory, t: Tm) -> bool {
    root(t) matches Tm::Const(n, _) && valued(th, n)
}

/// One step at the head: a recursor or an eliminator of quotients is fired, a definition is
/// unfolded, or an operation on numbers is computed.
pub open spec fn kicks(th: Theory, a: Tm, b: Tm) -> bool {
    ||| iota(th, a, b)
    ||| quot_step(th, a, b)
    ||| nat_rec_step(th, a, b)
    ||| root(a) matches Tm::Const(n, ls) && th.delta(n, ls) matches Some(d) && b == spine_tm(
        d,
        els(a),
    )
    ||| defined(th, a) && red(th, a, b) && (b is NatLit || (b matches Tm::Const(n, _) && (is_named(
        th.names.bool_true,
        n,
    ) || is_named(th.names.bool_false, n))))
}

/// The first term reduces to the second, and a step at the head is among the steps.
pub open spec fn fires(th: Theory, a: Tm, b: Tm) -> bool {
    exists|x: Tm, y: Tm| red(th, a, x) && #[trigger] kicks(th, x, y) && red(th, y, b)
}

/// A step at the head, with reduction before and after it.
pub proof fn fires_by(th: Theory, a: Tm, x: Tm, y: Tm, b: Tm)
    requires
        red(th, a, x),
        kicks(th, x, y),
        red(th, y, b),
    ensures
        fires(th, a, b),
{
}

/// Reduction may come before and after.
pub proof fn fires_between(th: Theory, a: Tm, b: Tm, c: Tm, d: Tm)
    requires
        red(th, a, b),
        fires(th, b, c),
        red(th, c, d),
    ensures
        fires(th, a, d),
{
    let (x, y) = choose|x: Tm, y: Tm| red(th, b, x) && #[trigger] kicks(th, x, y) && red(th, y, c);
    red_trans(th, a, b, x);
    red_trans(th, y, c, d);
}

/// The term has the form of a value, and neither a recursor nor a definition at its head is
/// left that has to be reduced.
pub open spec fn forced(th: Theory, t: Tm) -> bool {
    evaluated(t) && !ready(th, t) && settled(th, t)
}

/// The argument that is reached by going from an application to its argument so often.
pub open spec fn down(t: Tm, k: nat) -> Tm
    decreases k,
{
    if k == 0 {
        t
    } else {
        match down(t, (k - 1) as nat) {
            Tm::App(_, a) => *a,
            u => u,
        }
    }
}

/// A task of evaluation.
pub enum Task {
    /// Evaluate a term. Whether it may be there as the value of a variable is said first.
    Eval(bool, Tm),
    /// The same, whether or not the value is remembered.
    Raw(bool, Tm),
    /// Evaluate a term, or put it off.
    Wait(Tm),
    /// Evaluate an application.
    AppOf(Tm, Tm),
    /// Evaluate nested applications.
    Chain(Tm),
    /// Evaluate local definitions.
    Lets(Tm),
    /// Evaluate what was put off.
    Thunk(Tm),
    /// Evaluate a closed term.
    Closed(Tm),
    /// Find the type of a constant.
    ConstTy(Nm, Seq<Lv>),
    /// Apply a value.
    Apply(Tm, Tm),
    /// Apply a variable or a constant that things are done to.
    Push(Tm, Tm),
    /// Compute the successor of a number.
    FireSucc(Tm),
    /// Apply a value, from outside.
    ApplyV(Tm, Tm),
    /// Apply a value to several others.
    ApplyAll(Tm, Seq<Tm>),
    /// Evaluate the body of a binder.
    Closure(Tm),
    /// Evaluate the body of a binder, from outside.
    ClosureV(Tm),
    /// Bring a value into its canonical form.
    Canon(Tm),
    /// Evaluate the arguments in a spine.
    Spine(Seq<El>),
    /// Reduce at the head.
    Whnf(Tm),
    /// Project from a value.
    ProjV(Nm, nat, Tm),
    /// Reduce at the head, with what waits for the value on a stack.
    Forcing(Seq<Tm>, Tm),
    /// Fire what is on the stack.
    Unwind(Seq<Tm>, Tm),
    /// Take one step of a recursor or an eliminator.
    IotaS(Tm),
    /// Take one step of a recursor.
    RecS(Tm),
    /// Take one step of an eliminator of quotients.
    QuotS(Tm),
    /// Unfold definitions.
    Strip(Tm),
    /// Unfold definitions of a value that was not put off.
    Stripped(Tm),
    /// Fire a recursor or an eliminator on a major premise.
    FireV(Tm, Tm),
    /// Unfold the definition at the head.
    Unfold(Tm),
    /// The same, with what is remembered.
    UnfoldG(Tm),
    /// Do to a value what is done in a spine.
    Elim(Tm, Seq<El>),
    /// Reduce a recursor or an eliminator.
    IotaV(Tm),
    /// Find what a constant unfolds to.
    UnfoldC(Nm, Seq<Lv>),
    /// Reduce a recursor with its arguments.
    DoRec(Nm, Seq<Lv>, Seq<Tm>),
    /// Reduce a recursor by the type of its major premise.
    KPre(Nm, Seq<Lv>, Seq<Tm>),
    /// Fire a recursor.
    FireRec(Nm, Seq<Lv>, Seq<Tm>, Tm),
    /// Make a constructor of a major premise.
    AsCtor(Nm, Tm),
    /// Apply a rule of a recursor.
    Apprule(Nm, Seq<Lv>, int, Seq<Tm>, Seq<Tm>),
    /// Fire the recursor of the numbers on a literal.
    NatRec(Nm, Seq<Lv>, Seq<Tm>, nat),
    /// The same, on the literal of a successor.
    NatRecS(Nm, Seq<Lv>, Seq<Tm>, nat),
    /// Make a constructor of a literal.
    ToCtor(Tm),
    /// Make a constructor of a string.
    StrCtor(Seq<char>),
    /// Make a constructor of a number.
    NatCtor(nat),
    /// Apply the successor.
    SuccA(Tm, Tm),
    /// Take a constructor apart.
    UnwrapC(Tm),
    /// Take an inductive type apart.
    UnwrapI(Tm),
    /// Reduce an eliminator of quotients with its arguments.
    DoQuot(Nm, Seq<Tm>),
    /// Fire an eliminator of quotients.
    FireQuot(Nm, Seq<Tm>, Tm),
    /// Compute an operation on numbers.
    NatRed(Nm, Seq<Tm>, bool),
    /// The same, with the depth of the reading known.
    NatRedAt(Nm, Seq<Tm>, bool),
    /// Compute a successor.
    SuccOf(Seq<Tm>, bool),
    /// See whether an operation is better put off.
    Defer(Seq<Tm>),
    /// Read a number.
    Num(Tm, bool),
    /// Read a number, by reducing.
    NumD(Tm),
    /// Take successors off.
    Peel(Tm, bool),
    /// Read a number by reducing and add to it.
    NumAnd(Tm),
    /// Read a number by reducing.
    NumVia(Tm),
    /// Look for variables.
    Free(Tm),
    /// Look for variables in a spine.
    FreeS(Seq<El>),
    /// Find the universe that the type of a constant ends in.
    ResLvl(Nm, Seq<Lv>),
    /// Go behind function types.
    Tele(Tm),
    /// Find the type of a value.
    TypeOf(Tm),
    /// Find the type of a head.
    HeadTy(Tm),
    /// Find the type of a head that things are done to.
    SpineTy(Tm, Seq<El>),
    /// Find the type of an application.
    AppTy(Tm, Tm),
    /// Find the type of a field.
    FieldTy(Tm, Tm, Nm, nat),
    /// Go behind the parameters of a constructor.
    Params(Tm, Seq<Tm>),
    /// Go behind the fields of a constructor.
    Fields(Tm, Tm, Tm, Nm, nat),
    /// Make the constructor of its projections of a major premise.
    Eta(Nm, Tm),
    /// The same, whether or not it is remembered.
    EtaU(Nm, Tm),
    /// Apply a constructor to projections.
    WithProj(Tm, Nm, Tm, nat),
    /// Make a constructor without data of a major premise.
    K(Nm, Tm),
    /// Apply a head to arguments.
    RigidApps(Seq<Tm>),
    /// Compare types.
    Conv(Tm, Tm),
    /// Compare reduced types.
    ConvF(Tm, Tm),
    /// Compare spines.
    ConvS(Seq<El>, Seq<El>),
    /// Find the universe of a type.
    Lvl(Tm),
    /// Find which arguments of a constant are proofs.
    SigOf(Nm, Seq<Lv>),
    /// The same, whether or not it is remembered.
    SigC(Nm, Seq<Lv>),
}

/// The arguments are those that are done to the root in place of those of the term, reduced.
pub open spec fn argued(th: Theory, t: Tm, xs: Seq<Tm>) -> bool {
    red_all(th, args(t), xs)
}

/// The position of the major premise of a recursor.
pub open spec fn major_of(th: Theory, n: Nm) -> int {
    match th.recursor(n) {
        Some(r) => r.major_pos() as int,
        None => 0,
    }
}

/// What the rule of a recursor is, at levels.
pub open spec fn rule_tm(th: Theory, n: Nm, ls: Seq<Lv>, i: int) -> Tm {
    let r = th.recursor(n)->0;
    tm_lsubst(r.rec_rules@[i].val@, r.info.uparams@, ls)
}

/// The first task, of evaluating terms, may pose the second.
pub open spec fn poses_eval(th: Theory, p: Task, q: Task) -> bool {
    match p {
        Task::Eval(b, t) => q matches Task::Raw(c, u) && u == t && (c ==> b),
        Task::Raw(b, t) => match q {
            Task::Thunk(u) => b && u == t,
            Task::AppOf(f, a) => t == Tm::App(Box::new(f), Box::new(a)),
            Task::Chain(u) => u == t && t is App,
            Task::Lets(u) => u == t && t is Let,
            Task::Wait(d) => t matches Tm::Pi(_, _, x, _) && d == *x,
            Task::Eval(_, s) => t matches Tm::Proj(_, _, x) && s == *x,
            Task::ProjV(n, i, w) => t matches Tm::Proj(m, k, x) && n == m && i == k && red(
                th,
                *x,
                w,
            ),
            _ => false,
        },
        Task::Wait(t) => q == Task::Eval(true, t),
        Task::AppOf(f, a) => match q {
            Task::Eval(_, u) => u == f,
            Task::Wait(u) => u == a,
            Task::Apply(g, b) => red(th, f, g) && red(th, a, b),
            _ => false,
        },
        Task::Chain(t) => match q {
            Task::Eval(_, u) => exists|k: nat| #![trigger down(t, k)] u == down(t, k) && k > 0 || (
            down(t, k) matches Tm::App(f, _) && u == *f),
            Task::Apply(g, b) => exists|k: nat| #[trigger]
                down(t, k) matches Tm::App(f, a) && red(th, *f, g) && red(th, *a, b),
            _ => false,
        },
        Task::Lets(t) => match q {
            Task::Eval(_, u) => let_part(th, t, u) || let_body(th, t, u),
            _ => false,
        },
        Task::Thunk(t) => q == Task::Eval(false, t),
        Task::Closed(t) => q == Task::Eval(true, t),
        Task::ConstTy(n, ls) => q == Task::Closed(declared_type(th, n, ls)),
        _ => false,
    }
}

/// The value of a local definition that the term reduces to.
pub open spec fn let_part(th: Theory, t: Tm, u: Tm) -> bool {
    exists|x: Tm| #[trigger] red(th, t, x) && (x matches Tm::Let(_, _, v, _, _) && u == *v)
}

/// What is behind a local definition.
pub open spec fn let_body(th: Theory, t: Tm, u: Tm) -> bool {
    t matches Tm::Let(_, _, v, b, _) && exists|w: Tm| #[trigger]
        red(th, *v, w) && red(th, inst1(*b, w), u)
}

/// The first task, of applying values, may pose the second.
pub open spec fn poses_apply(th: Theory, p: Task, q: Task) -> bool {
    match p {
        Task::Apply(f, a) => match q {
            Task::Closure(t) => f matches Tm::Lam(_, _, _, b) && t == inst1(*b, a),
            Task::Push(g, b) => g == f && b == a && neutral(f),
            _ => false,
        },
        Task::Push(f, a) => match q {
            Task::FireSucc(t) => t == Tm::App(Box::new(f), Box::new(a)),
            Task::Canon(b) => b == a,
            Task::Spine(es) => es == els(f).push(El::App(a)),
            Task::NatRed(n, xs, deep) => root(f) matches Tm::Const(m, _) && n == m && !deep
                && argued(th, Tm::App(Box::new(f), Box::new(a)), xs),
            _ => false,
        },
        Task::FireSucc(t) => t matches Tm::App(_, a) && q == Task::Num(*a, false),
        Task::ApplyV(f, a) => q == Task::Apply(f, a),
        Task::ApplyAll(f, xs) => match q {
            Task::Apply(g, a) => exists|i: int| #![trigger xs[i]]
                0 <= i < xs.len() && a == xs[i] && red(th, apps(f, xs.take(i)), g),
            _ => false,
        },
        Task::Closure(t) => q == Task::Eval(true, t),
        Task::ClosureV(t) => q == Task::Closure(t),
        Task::Spine(es) => match q {
            Task::Thunk(a) => exists|i: int| 0 <= i < es.len() && #[trigger] es[i] == El::App(a),
            _ => false,
        },
        Task::Elim(v, es) => match q {
            Task::Apply(g, a) => exists|i: int|
                0 <= i < es.len() && #[trigger] es[i] == El::App(a) && red(
                    th,
                    spine_tm(v, es.take(i)),
                    g,
                ),
            Task::ProjV(n, k, g) => exists|i: int|
                0 <= i < es.len() && #[trigger] es[i] == El::Proj(n, k) && red(
                    th,
                    spine_tm(v, es.take(i)),
                    g,
                ),
            _ => false,
        },
        _ => false,
    }
}

/// The literal is taken for a constructor, which reduces to the second term.
pub open spec fn lit_behind(th: Theory, v: Tm, c: Tm) -> bool {
    exists|l: Tm, e: Tm| red(th, v, l) && #[trigger] lit_step(th, l, e) && l is StrLit && red(th, e, c)
}

/// The first task, of reducing values, may pose the second.
pub open spec fn poses_force(th: Theory, p: Task, q: Task) -> bool {
    match p {
        Task::Whnf(t) => match q {
            Task::Thunk(u) => u == t,
            Task::Unfold(w) => red(th, t, w),
            Task::IotaV(w) => red(th, t, w),
            Task::Whnf(w) => fires(th, t, w),
            _ => false,
        },
        Task::ProjV(n, i, v) => match q {
            Task::Whnf(u) => u == v,
            Task::Thunk(a) => exists|w: Tm, j: int|
                #![trigger red(th, v, w), args(w)[j]]
                red(th, v, w) && 0 <= j < args(w).len() && a == args(w)[j],
            Task::StrCtor(s) => red(th, v, Tm::StrLit(s)),
            Task::ProjV(m, k, c) => m == n && k == i && lit_behind(th, v, c),
            _ => false,
        },
        Task::Forcing(ws, t) => match q {
            Task::Strip(u) => u == t,
            Task::IotaS(w) => red(th, t, w),
            Task::Unwind(us, w) => us == ws && red(th, t, w),
            Task::Forcing(us, w) => {
                ||| us == ws && fires(th, t, w)
                ||| us.len() == ws.len() + 1 && us.drop_last() == ws && red(th, t, us.last())
                    && waits_for(th, us.last(), w)
                ||| us.len() < ws.len() && us == ws.take(us.len() as int) && fires(
                    th,
                    ws[us.len() as int],
                    w,
                )
            },
            _ => false,
        },
        Task::Unwind(ws, t) => match q {
            Task::FireV(r, m) => exists|k: int| #![trigger ws[k]]
                0 <= k < ws.len() && r == ws[k] && m == (if k + 1 == ws.len() {
                    t
                } else {
                    ws[k + 1]
                }),
            _ => false,
        },
        Task::IotaS(v) => q == Task::RecS(v) || q == Task::QuotS(v),
        Task::RecS(v) => root(v) matches Tm::Const(n, ls) && match q {
            Task::Spine(es) => es == els(v),
            Task::KPre(m, ks, xs) => m == n && ks == ls && argued(th, v, xs),
            Task::Strip(a) => exists|xs: Seq<Tm>| #[trigger]
                argued(th, v, xs) && a == xs[major_of(th, n)],
            Task::FireRec(m, ks, xs, a) => m == n && ks == ls && argued(th, v, xs) && red(
                th,
                xs[major_of(th, n)],
                a,
            ),
            _ => false,
        },
        Task::QuotS(v) => root(v) matches Tm::Const(n, _) && match q {
            Task::Spine(es) => es == els(v),
            Task::Strip(a) => exists|xs: Seq<Tm>| #[trigger]
                argued(th, v, xs) && a == xs[quot_pos(th.names, n)->0 as int],
            Task::FireQuot(m, xs, a) => m == n && argued(th, v, xs) && red(
                th,
                xs[quot_pos(th.names, n)->0 as int],
                a,
            ),
            _ => false,
        },
        Task::Strip(t) => match q {
            Task::Thunk(u) => u == t,
            Task::Unfold(u) => u == t,
            Task::Stripped(w) => red(th, t, w),
            _ => false,
        },
        Task::Stripped(t) => match q {
            Task::Unfold(u) => u == t,
            Task::Stripped(w) => fires(th, t, w),
            _ => false,
        },
        Task::FireV(v, m) => root(v) matches Tm::Const(n, ls) && match q {
            Task::Spine(es) => es == els(v),
            Task::FireRec(c, ks, xs, a) => c == n && ks == ls && a == m && argued(th, v, xs),
            Task::FireQuot(c, xs, a) => c == n && a == m && argued(th, v, xs),
            _ => false,
        },
        Task::Unfold(v) => q == Task::UnfoldG(v),
        Task::UnfoldG(v) => root(v) matches Tm::Const(n, ls) && match q {
            Task::Spine(es) => es == els(v),
            Task::NatRed(m, xs, deep) => m == n && deep && argued(th, v, xs),
            Task::Defer(xs) => argued(th, v, xs),
            Task::UnfoldC(m, ks) => m == n && ks == ls,
            Task::Elim(w, es) => es == els(v) && red(th, root(v), w),
            _ => false,
        },
        Task::IotaV(v) => root(v) matches Tm::Const(n, ls) && match q {
            Task::Spine(es) => es == els(v),
            Task::DoRec(m, ks, xs) => m == n && ks == ls && argued(th, v, xs),
            Task::DoQuot(m, xs) => m == n && argued(th, v, xs),
            _ => false,
        },
        Task::UnfoldC(n, ls) => th.delta(n, ls) matches Some(d) && q == Task::Closed(d),
        _ => false,
    }
}

/// What a major premise is taken for, applied to arguments.
pub open spec fn taken_for(th: Theory, n: Nm, m: Tm, c: Nm, ys: Seq<Tm>) -> bool {
    exists|d: Tm, ks: Seq<Lv>|
        #![trigger red(th, d, apps(Tm::Const(c, ks), ys))]
        replaces_major(th, th.recursor(n)->0, m, d) && red(th, d, apps(Tm::Const(c, ks), ys))
}

/// The rule is for the constructor that a major premise is taken for.
pub open spec fn rule_taken(th: Theory, n: Nm, m: Tm, i: int, ys: Seq<Tm>) -> bool {
    exists|d: Nm| #[trigger]
        rule_for(th.recursor(n)->0.rec_rules@, d, i) && taken_for(th, n, m, d, ys)
}

/// The case of a recursor of the numbers for a literal.
pub open spec fn nat_case(th: Theory, n: Nm, ls: Seq<Lv>, xs: Seq<Tm>, k: nat) -> Tm {
    let r = th.recursor(n)->0;
    let first = r.num_params as int + r.num_motives as int;
    if k == 0 {
        xs[first]
    } else {
        let pred = Tm::NatLit((k - 1) as nat);
        Tm::App(
            Box::new(Tm::App(Box::new(xs[first + 1]), Box::new(pred))),
            Box::new(apps(Tm::Const(n, ls), xs.take(r.major_pos() as int).push(pred))),
        )
    }
}

/// The first task, of firing recursors, may pose the second.
pub open spec fn poses_fire(th: Theory, p: Task, q: Task) -> bool {
    match p {
        Task::DoRec(n, ls, xs) => match q {
            Task::KPre(m, ks, ys) => m == n && ks == ls && ys == xs,
            Task::Whnf(a) => a == xs[major_of(th, n)],
            Task::FireRec(m, ks, ys, a) => m == n && ks == ls && ys == xs && red(
                th,
                xs[major_of(th, n)],
                a,
            ),
            _ => false,
        },
        Task::KPre(n, ls, xs) => match q {
            Task::K(m, a) => m == n && a == xs[major_of(th, n)],
            Task::FireRec(m, ks, ys, c) => m == n && ks == ls && ys == xs && replaces_major(
                th,
                th.recursor(n)->0,
                xs[major_of(th, n)],
                c,
            ),
            _ => false,
        },
        Task::FireRec(n, ls, xs, m) => match q {
            Task::NatRec(c, ks, ys, k) => c == n && ks == ls && ys == xs && m == Tm::NatLit(k),
            Task::AsCtor(c, a) => c == n && a == m,
            Task::UnwrapC(c) => replaces_major(th, th.recursor(n)->0, m, c),
            Task::Apprule(c, ks, i, zs, ys) => {
                &&& c == n && ks == ls && zs == xs
                &&& rule_taken(th, n, m, i, ys)
            },
            _ => false,
        },
        Task::AsCtor(n, m) => q == Task::ToCtor(m) || q == Task::K(n, m) || q == Task::Eta(n, m),
        Task::Apprule(n, ls, i, xs, ys) => {
            let r = th.recursor(n)->0;
            let h = rule_tm(th, n, ls, i);
            let a = xs.take(r.num_fixed() as int);
            let b = ys.skip(ys.len() - r.rec_rules@[i].ctor_telescope_size_wo_params);
            let c = xs.skip(r.major_pos() as int + 1);
            match q {
                Task::Closed(t) => t == h,
                Task::ApplyAll(f, zs) => {
                    ||| zs == a && red(th, h, f)
                    ||| zs == b && red(th, apps(h, a), f)
                    ||| zs == c && red(th, apps(apps(h, a), b), f)
                },
                _ => false,
            }
        },
        Task::NatRec(n, ls, xs, k) => match q {
            Task::NatRecS(c, ks, ys, j) => c == n && ks == ls && ys == xs && j == k && k > 0,
            Task::ApplyAll(f, zs) => zs == xs.skip(major_of(th, n) + 1) && red(
                th,
                nat_case(th, n, ls, xs, k),
                f,
            ),
            _ => false,
        },
        Task::NatRecS(n, ls, xs, k) => {
            let r = th.recursor(n)->0;
            let pred = Tm::NatLit((k - 1) as nat);
            let a = xs.take(r.major_pos() as int);
            let s = xs[r.num_params as int + r.num_motives as int + 1];
            match q {
                Task::ApplyAll(f, zs) => zs == a && f == Tm::Const(n, ls),
                Task::Apply(f, x) => {
                    ||| x == pred && red(th, apps(Tm::Const(n, ls), a), f)
                    ||| x == pred && f == s
                    ||| red(th, apps(Tm::Const(n, ls), a.push(pred)), x) && red(
                        th,
                        Tm::App(Box::new(s), Box::new(pred)),
                        f,
                    )
                },
                _ => false,
            }
        },
        Task::ToCtor(m) => match q {
            Task::NatCtor(k) => m == Tm::NatLit(k),
            Task::StrCtor(s) => m == Tm::StrLit(s),
            _ => false,
        },
        Task::StrCtor(s) => match q {
            Task::Closed(e) => str_ctor(th.names, s) == Some(e),
            Task::Whnf(w) => str_ctor(th.names, s) matches Some(e) && red(th, e, w),
            _ => false,
        },
        Task::NatCtor(k) => match q {
            Task::SuccA(f, a) => k > 0 && a == Tm::NatLit((k - 1) as nat) && (f matches Tm::Const(
                n,
                ls,
            ) && is_named(th.names.nat_succ, n) && ls.len() == 0),
            _ => false,
        },
        Task::SuccA(f, a) => q == Task::ApplyV(f, a),
        Task::UnwrapC(v) => q == Task::Spine(els(v)),
        Task::UnwrapI(v) => q == Task::Spine(els(v)),
        Task::DoQuot(n, xs) => match q {
            Task::Forcing(ws, a) => ws.len() == 0 && a == xs[quot_pos(th.names, n)->0 as int],
            Task::FireQuot(m, ys, a) => m == n && ys == xs && red(
                th,
                xs[quot_pos(th.names, n)->0 as int],
                a,
            ),
            _ => false,
        },
        Task::FireQuot(n, xs, m) => match q {
            Task::Spine(es) => es == els(m),
            Task::Apply(f, y) => f == xs[3] && member_of(th, m, y),
            Task::ApplyAll(f, zs) => zs == xs.skip(quot_pos(th.names, n)->0 as int + 1) && exists|
                y: Tm,
            |
                #![trigger member_of(th, m, y)]
                member_of(th, m, y) && red(th, Tm::App(Box::new(xs[3]), Box::new(y)), f),
            _ => false,
        },
        _ => false,
    }
}

/// The term is the member of a class that is given, reduced.
pub open spec fn member_of(th: Theory, m: Tm, y: Tm) -> bool {
    exists|ys: Seq<Tm>| #[trigger] argued(th, m, ys) && ys.len() == 3 && y == ys[2]
}

/// The name is that of the constructor zero or of the successor.
pub open spec fn number_ctor(th: Theory, t: Tm) -> bool {
    root(t) matches Tm::Const(n, _) && (is_named(th.names.nat_zero, n) || is_named(
        th.names.nat_succ,
        n,
    ))
}

/// The first task, of computing with numbers, may pose the second.
pub open spec fn poses_nat(th: Theory, p: Task, q: Task) -> bool {
    match p {
        Task::NatRed(n, xs, deep) => q == Task::NatRedAt(n, xs, deep),
        Task::NatRedAt(n, xs, deep) => match q {
            Task::SuccOf(ys, d) => ys == xs && d == deep && xs.len() == 1,
            Task::Num(t, d) => d == deep && ((xs.len() == 2 && (t == xs[0] || t == xs[1])) || (
            xs.len() == 5 && (t == xs[0] || t == xs[3]))),
            _ => false,
        },
        Task::SuccOf(xs, deep) => q == Task::Num(xs[0], deep),
        Task::Defer(xs) => q == Task::Thunk(xs[1]),
        Task::NumD(t) => q == Task::Num(t, true),
        Task::Num(t, deep) => match q {
            Task::Thunk(u) => u == t,
            Task::Peel(w, d) => d == deep && red(th, t, w) && (!crate::value::waits(t) ==> w == t),
            _ => false,
        },
        Task::Peel(t, deep) => match q {
            Task::Thunk(a) => t matches Tm::App(_, x) && a == *x,
            Task::Peel(w, d) => d == deep && (t matches Tm::App(_, a) && red(th, *a, w) && (
            !crate::value::waits(*a) ==> w == *a)),
            Task::NumAnd(u) => u == t && deep,
            _ => false,
        },
        Task::NumAnd(t) => q == Task::NumVia(t),
        Task::NumVia(t) => match q {
            Task::Free(u) => u == t,
            Task::Forcing(ws, u) => ws.len() == 0 && u == t,
            Task::NumD(w) => red(th, t, w) && number_ctor(th, w),
            _ => false,
        },
        Task::Free(t) => match q {
            Task::Thunk(u) => u == t,
            Task::FreeS(es) => exists|w: Tm| #[trigger] red(th, t, w) && es == els(w),
            _ => false,
        },
        Task::FreeS(es) => match q {
            Task::Free(a) => exists|i: int| 0 <= i < es.len() && #[trigger] es[i] == El::App(a),
            _ => false,
        },
        _ => false,
    }
}

/// The type of a value, reduced.
pub open spec fn typed_by(th: Theory, t: Tm, ty: Tm) -> bool {
    exists|u: Tm| #[trigger] inf(th, Ck::Loose, t, u) && red(th, u, ty)
}

/// The type of the constructor behind parameters, reduced.
pub open spec fn behind_params(th: Theory, ct: Tm, xs: Seq<Tm>, i: int, c: Tm) -> bool {
    exists|t: Tm| #[trigger] holds(th, Judg::Tele(ct, xs.take(i), t)) && red(th, t, c)
}

/// The type of the constructor behind some of its parameters, reduced.
pub open spec fn params_reach(th: Theory, ct: Tm, xs: Seq<Tm>, c: Tm) -> bool {
    exists|i: int| #[trigger] behind_params(th, ct, xs, i, c) && 0 <= i < xs.len()
}

/// The type of the constructor behind one more of its parameters.
pub open spec fn params_body(th: Theory, ct: Tm, xs: Seq<Tm>, t: Tm) -> bool {
    exists|i: int, c: Tm| #[trigger]
        behind_params(th, ct, xs, i, c) && 0 <= i < xs.len() && body_for(th, c, xs[i], t)
}

/// The type of the constructor behind fields, reduced.
pub open spec fn behind_fields(th: Theory, ty: Tm, t: Tm, e: Tm, n: Nm, k: nat, c: Tm) -> bool {
    exists|u: Tm| #[trigger] fields_of(th, ty, t, e, n, k, u) && red(th, u, c)
}

/// The body of a function type that the term reduces to, for an argument.
pub open spec fn body_for(th: Theory, c: Tm, a: Tm, t: Tm) -> bool {
    exists|x: Tm| #[trigger] red(th, c, x) && (x matches Tm::Pi(_, _, _, b) && t == inst1(*b, a))
}

/// The body of a function type that the term reduces to, for a variable.
pub open spec fn body_open(th: Theory, c: Tm, depth: nat, t: Tm) -> bool {
    exists|x: Tm| #[trigger] red(th, c, x) && (x matches Tm::Pi(_, _, d, b) && t == inst1(
        *b,
        Tm::Free(depth, d),
    ))
}

/// The inductive type, with its levels and arguments, of a value.
pub open spec fn member(th: Theory, m: Tm, ind: Nm, ls: Seq<Lv>, xs: Seq<Tm>) -> bool {
    typed_by(th, m, apps(Tm::Const(ind, ls), xs))
}

/// The first task, of finding types, may pose the second.
pub open spec fn poses_type(th: Theory, p: Task, q: Task) -> bool {
    match p {
        Task::ResLvl(n, ls) => match q {
            Task::ConstTy(m, ks) => m == n && ks == ls,
            Task::Tele(t) => red(th, declared_type(th, n, ls), t),
            _ => false,
        },
        Task::Tele(t) => match q {
            Task::Forcing(ws, u) => ws.len() == 0 && u == t,
            Task::ClosureV(u) => body_open(th, t, 0, u),
            Task::Tele(w) => exists|u: Tm| #[trigger] body_open(th, t, 0, u) && red(th, u, w),
            _ => false,
        },
        Task::TypeOf(t) => match q {
            Task::Thunk(u) => u == t,
            Task::HeadTy(h) => exists|w: Tm| #[trigger] red(th, t, w) && h == root(w),
            Task::ConstTy(n, ls) => exists|w: Tm| #[trigger] red(th, t, w) && root(w) == Tm::Const(n, ls),
            Task::SpineTy(h, es) => exists|w: Tm| #[trigger]
                red(th, t, w) && h == root(w) && es == els(w),
            _ => false,
        },
        Task::HeadTy(h) => match q {
            Task::Closed(t) => h matches Tm::Local(_, _, ty, _) && t == *ty,
            Task::ConstTy(n, ls) => h == Tm::Const(n, ls),
            _ => false,
        },
        Task::SpineTy(h, es) => match q {
            Task::AppTy(t, a) => exists|k: int|
                0 <= k < es.len() && #[trigger] es[k] == El::App(a) && inf(
                    th,
                    Ck::Loose,
                    spine_tm(h, es.take(k)),
                    t,
                ),
            Task::FieldTy(e, t, n, i) => exists|k: int|
                0 <= k < es.len() && #[trigger] es[k] == El::Proj(n, i) && e == spine_tm(
                    h,
                    es.take(k),
                ) && inf(th, Ck::Loose, e, t),
            _ => false,
        },
        Task::AppTy(t, a) => match q {
            Task::Forcing(ws, u) => ws.len() == 0 && u == t,
            Task::Closure(u) => body_for(th, t, a, u),
            _ => false,
        },
        Task::FieldTy(e, ty, n, i) => match q {
            Task::Forcing(ws, u) => ws.len() == 0 && (u == ty || exists|ls: Seq<Lv>, xs: Seq<Tm>|
                #![trigger red(th, ty, apps(Tm::Const(n, ls), xs))]
                red(th, ty, apps(Tm::Const(n, ls), xs)) && last_field(th, ty, e, n, ls, xs, i, u)),
            Task::UnwrapI(w) => red(th, ty, w),
            Task::Closed(ct) => exists|ls: Seq<Lv>, xs: Seq<Tm>|
                #![trigger red(th, ty, apps(Tm::Const(n, ls), xs))]
                red(th, ty, apps(Tm::Const(n, ls), xs)) && ctor_type(th, n, ls) == Some(ct),
            Task::Params(ct, ps) => exists|ls: Seq<Lv>, xs: Seq<Tm>|
                #![trigger red(th, ty, apps(Tm::Const(n, ls), xs))]
                red(th, ty, apps(Tm::Const(n, ls), xs)) && ctor_type(th, n, ls) == Some(ct) && ps
                    == xs.take(th.inductive(n)->0.num_params as int),
            Task::Fields(t2, t1, e2, m, k) => e2 == e && m == n && k == i && exists|
                ls: Seq<Lv>,
                xs: Seq<Tm>,
            |
                #![trigger apps(Tm::Const(n, ls), xs)]
                t2 == apps(Tm::Const(n, ls), xs) && red(th, ty, t2) && (ctor_type(
                    th,
                    n,
                    ls,
                ) matches Some(ct) && holds(
                    th,
                    Judg::Tele(ct, xs.take(th.inductive(n)->0.num_params as int), t1),
                )),
            _ => false,
        },
        Task::Params(ct, xs) => match q {
            Task::Forcing(ws, c) => ws.len() == 0 && params_reach(th, ct, xs, c),
            Task::ClosureV(t) => params_body(th, ct, xs, t),
            _ => false,
        },
        Task::Fields(ty, t1, e, n, i) => match q {
            Task::Forcing(ws, c) => ws.len() == 0 && exists|k: nat| #[trigger]
                behind_fields(th, ty, t1, e, n, k, c) && k < i,
            Task::ProjV(m, k, u) => m == n && u == e && k < i,
            Task::ClosureV(t) => exists|k: nat, c: Tm, x: Tm|
                #![trigger behind_fields(th, ty, t1, e, n, k, c), red(th, Tm::Proj(n, k, Box::new(e)), x)]
                behind_fields(th, ty, t1, e, n, k, c) && k < i && red(
                    th,
                    Tm::Proj(n, k, Box::new(e)),
                    x,
                ) && body_for(th, c, x, t),
            _ => false,
        },
        _ => false,
    }
}

/// The type of the constructor behind all fields in front of one, reduced.
pub open spec fn last_field(
    th: Theory,
    ty: Tm,
    e: Tm,
    n: Nm,
    ls: Seq<Lv>,
    xs: Seq<Tm>,
    i: nat,
    u: Tm,
) -> bool {
    ctor_type(th, n, ls) matches Some(ct) && exists|t1: Tm| #[trigger]
        holds(th, Judg::Tele(ct, xs.take(th.inductive(n)->0.num_params as int), t1))
            && behind_fields(th, apps(Tm::Const(n, ls), xs), t1, e, n, i, u)
}

/// The constructor without data that a value is compared with.
pub open spec fn k_ctor(th: Theory, m: Tm, u: Tm) -> bool {
    exists|ind: Nm, ls: Seq<Lv>, xs: Seq<Tm>, j: int, ys: Seq<Tm>|
        #![trigger member(th, m, ind, ls, xs), red_all(th, xs.take(j), ys)]
        member(th, m, ind, ls, xs) && red_all(th, xs.take(j), ys) && (first_ctor(
            th,
            ind,
        ) matches Some(c) && u == apps(Tm::Const(c, ls), ys))
}

/// The first task, of replacing major premises or of looking at types, may pose the second.
pub open spec fn poses_more(th: Theory, p: Task, q: Task) -> bool {
    match p {
        Task::Eta(n, m) => q == Task::EtaU(n, m),
        Task::EtaU(n, m) => match q {
            Task::TypeOf(u) => u == m,
            Task::Forcing(ws, t) => ws.len() == 0 && inf(th, Ck::Loose, m, t),
            Task::UnwrapI(t) => typed_by(th, m, t),
            Task::ApplyAll(f, ys) => exists|ind: Nm, ls: Seq<Lv>, xs: Seq<Tm>| #[trigger]
                member(th, m, ind, ls, xs) && (first_ctor(th, ind) matches Some(c) && f == Tm::Const(
                    c,
                    ls,
                ) && ys.len() <= xs.len() && ys == xs.take(ys.len() as int)),
            Task::WithProj(f, ind, u, _) => u == m && exists|ls: Seq<Lv>, xs: Seq<Tm>, j: int|
                #![trigger member(th, m, ind, ls, xs), xs.take(j)]
                member(th, m, ind, ls, xs) && 0 <= j <= xs.len() && (first_ctor(
                    th,
                    ind,
                ) matches Some(c) && red(th, apps(Tm::Const(c, ls), xs.take(j)), f)),
            _ => false,
        },
        Task::WithProj(f, ind, m, k) => match q {
            Task::ProjV(n, j, u) => n == ind && j < k && u == m,
            Task::ApplyV(g, a) => exists|j: nat|
                #![trigger projections(ind, m, j)]
                j < k && red(th, apps(f, projections(ind, m, j)), g) && red(
                    th,
                    Tm::Proj(ind, j, Box::new(m)),
                    a,
                ),
            _ => false,
        },
        Task::K(n, m) => match q {
            Task::TypeOf(u) => u == m || k_ctor(th, m, u),
            Task::Forcing(ws, t) => ws.len() == 0 && inf(th, Ck::Loose, m, t),
            Task::UnwrapI(t) => typed_by(th, m, t),
            Task::RigidApps(ys) => exists|ind: Nm, ls: Seq<Lv>, xs: Seq<Tm>| #[trigger]
                member(th, m, ind, ls, xs) && ys.len() <= xs.len() && ys == xs.take(ys.len() as int),
            Task::Conv(a, b) => typed_by(th, m, a) && exists|u: Tm| #[trigger]
                inf(th, Ck::Loose, u, b) && k_ctor(th, m, u),
            _ => false,
        },
        Task::RigidApps(xs) => match q {
            Task::Canon(a) => exists|i: int| 0 <= i < xs.len() && a == #[trigger] xs[i],
            _ => false,
        },
        Task::Conv(a, b) => match q {
            Task::Forcing(ws, u) => ws.len() == 0 && (u == a || u == b),
            Task::ConvF(x, y) => red(th, a, x) && red(th, b, y),
            _ => false,
        },
        Task::ConvF(a, b) => q == Task::ConvS(els(a), els(b)),
        Task::ConvS(es, fs) => match q {
            Task::Conv(a, b) => exists|i: int|
                0 <= i < es.len() && i < fs.len() && #[trigger] es[i] == El::App(a) && fs[i]
                    == El::App(b),
            _ => false,
        },
        Task::Lvl(t) => match q {
            Task::Forcing(ws, u) => ws.len() == 0 && (u == t || (exists|w: Tm| #[trigger]
                red(th, t, w) && inf(th, Ck::Loose, w, u))),
            Task::TypeOf(w) => red(th, t, w) && forced(th, w) && !(w is Lam) && !(w is Pi),
            _ => false,
        },
        Task::SigOf(n, ls) => q == Task::SigC(n, ls),
        Task::SigC(n, ls) => match q {
            Task::ConstTy(m, ks) => m == n && ks == ls,
            Task::Forcing(ws, c) => ws.len() == 0 && sig_end(th, n, ls, c),
            Task::Lvl(t) => sig_end(th, n, ls, t) || sig_domain(th, n, ls, t),
            Task::Closure(t) => sig_body(th, n, ls, t),
            _ => false,
        },
        _ => false,
    }
}

/// What is behind some binders of the type of a constant.
pub open spec fn sig_end(th: Theory, n: Nm, ls: Seq<Lv>, c: Tm) -> bool {
    exists|ds: Seq<Tm>| #[trigger] sig_reach(th, n, ls, ds, c)
}

/// A domain of the type of a constant.
pub open spec fn sig_domain(th: Theory, n: Nm, ls: Seq<Lv>, t: Tm) -> bool {
    exists|c: Tm, x: Tm| #[trigger]
        red(th, c, x) && sig_end(th, n, ls, c) && (x matches Tm::Pi(_, _, d, _) && t == *d)
}

/// The body behind one more binder of the type of a constant.
pub open spec fn sig_body(th: Theory, n: Nm, ls: Seq<Lv>, t: Tm) -> bool {
    exists|ds: Seq<Tm>, c: Tm| #[trigger]
        sig_reach(th, n, ls, ds, c) && body_open(th, c, ds.len(), t)
}

/// What is behind binders of the type of a constant.
pub open spec fn sig_reach(th: Theory, n: Nm, ls: Seq<Lv>, ds: Seq<Tm>, c: Tm) -> bool {
    exists|t: Tm| #[trigger] red(th, declared_type(th, n, ls), t) && crate::sig::tele_open(
        th,
        t,
        0,
        ds,
        c,
    )
}

/// The first task may pose the second, whatever was evaluated and remembered before.
pub open spec fn poses(th: Theory, p: Task, q: Task) -> bool {
    match p {
        Task::Eval(_, _) | Task::Raw(_, _) | Task::Wait(_) | Task::AppOf(_, _) | Task::Chain(_)
        | Task::Lets(_) | Task::Thunk(_) | Task::Closed(_) | Task::ConstTy(_, _) => poses_eval(
            th,
            p,
            q,
        ),
        Task::Apply(_, _) | Task::Push(_, _) | Task::FireSucc(_) | Task::ApplyV(_, _)
        | Task::ApplyAll(_, _) | Task::Closure(_) | Task::ClosureV(_) | Task::Spine(_)
        | Task::Elim(_, _) => poses_apply(th, p, q),
        Task::Whnf(_) | Task::ProjV(_, _, _) | Task::Forcing(_, _) | Task::Unwind(_, _)
        | Task::IotaS(_) | Task::RecS(_) | Task::QuotS(_) | Task::Strip(_) | Task::Stripped(_)
        | Task::FireV(_, _) | Task::Unfold(_) | Task::UnfoldG(_) | Task::IotaV(_)
        | Task::UnfoldC(_, _) => poses_force(th, p, q),
        Task::NatRed(_, _, _) | Task::NatRedAt(_, _, _) | Task::SuccOf(_, _) | Task::Defer(_)
        | Task::NumD(_) | Task::Num(_, _) | Task::Peel(_, _) | Task::NumAnd(_) | Task::NumVia(_)
        | Task::Free(_) | Task::FreeS(_) => poses_nat(th, p, q),
        Task::ResLvl(_, _) | Task::Tele(_) | Task::TypeOf(_) | Task::HeadTy(_)
        | Task::SpineTy(_, _) | Task::AppTy(_, _) | Task::FieldTy(_, _, _, _) | Task::Params(_, _)
        | Task::Fields(_, _, _, _, _) => poses_type(th, p, q),
        Task::Eta(_, _) | Task::EtaU(_, _) | Task::WithProj(_, _, _, _) | Task::K(_, _)
        | Task::RigidApps(_) | Task::Conv(_, _) | Task::ConvF(_, _) | Task::ConvS(_, _)
        | Task::Lvl(_) | Task::SigOf(_, _) | Task::SigC(_, _) => poses_more(th, p, q),
        _ => poses_fire(th, p, q),
    }
}

/// The head of a function or of an application has room for one more argument.
pub open spec fn room(t: Tm) -> bool {
    neutral(t) ==> links(t) < u32::MAX
}

/// The operation on what the terms reduce to gives a number that is not too large.
pub open spec fn fits_in(th: Theory, op: NatBinOp, a: Tm, b: Tm) -> bool {
    forall|x: nat, y: nat|
        #![trigger red(th, a, Tm::NatLit(x)), red(th, b, Tm::NatLit(y))]
        red(th, a, Tm::NatLit(x)) && red(th, b, Tm::NatLit(y)) ==> bin_fits(op, x, y)
}

/// Whatever the type reduces to is a structure of the name with the field.
pub open spec fn field_in(th: Theory, ty: Tm, n: Nm, i: nat) -> bool {
    forall|w: Tm| #[trigger] red(th, ty, w) && forced(th, w) ==> has_field(th, w, n, i)
}

/// The inductive type of the recursor has a constructor.
pub open spec fn has_ctor(th: Theory, n: Nm) -> bool {
    th.recursor(n) matches Some(r) ==> (major_induct(r) matches Some(ind) ==> (th.inductive(
        ind,
    ) matches Some(d) ==> d.all_ctor_names@.len() > 0))
}

/// Nothing in the task itself fails: what is applied is a function, constants are declared,
/// and nothing is too long or too large.
pub open spec fn sound(th: Theory, p: Task) -> bool {
    match p {
        Task::Closed(t) => loose(t) == 0,
        Task::ConstTy(n, _) => th.decls.contains_key(n),
        Task::Apply(f, _) => evaluated(f) ==> (f is Lam || neutral(f)) && room(f),
        Task::Push(f, _) => room(f),
        Task::ProjV(_, _, v) => forall|w: Tm| #[trigger]
            red(th, v, w) && evaluated(w) ==> room(w) && !(w is Sort) && !(w is Lam) && !(w is Pi)
                && !(w is NatLit) && (w matches Tm::StrLit(s) ==> th.nat_ext && str_ctor(
                th.names,
                s,
            ) is Some),
        Task::NatRedAt(n, xs, _) => {
            &&& xs.len() == 2 ==> (op_named(th.names, n) matches Some(op) ==> fits_in(
                th,
                op,
                xs[0],
                xs[1],
            ))
            &&& xs.len() == 5 ==> fits_in(th, NatBinOp::Div, xs[3], xs[0]) && fits_in(
                th,
                NatBinOp::Mod,
                xs[3],
                xs[0],
            )
        },
        Task::FireQuot(n, xs, _) => quot_pos(th.names, n) matches Some(p) ==> p < xs.len(),
        Task::NatRec(n, _, xs, k) => th.recursor(n) matches Some(r) ==> nat_rec_fits(r, xs.len(), k),
        Task::TypeOf(t) => forall|w: Tm| #[trigger]
            red(th, t, w) && evaluated(w) ==> !(w is Lam) && !(w is Pi) && (w is NatLit
                ==> th.names.nat is Some) && (w is StrLit ==> th.names.string is Some),
        Task::AppTy(t, _) => forall|w: Tm| #[trigger] red(th, t, w) && forced(th, w) ==> w is Pi,
        Task::SpineTy(h, es) => es.len() <= u32::MAX && forall|k: int, t: Tm|
            #![trigger es[k], inf(th, Ck::Loose, spine_tm(h, es.take(k)), t)]
            0 <= k < es.len() && inf(th, Ck::Loose, spine_tm(h, es.take(k)), t) ==> (
            es[k] matches El::Proj(n, i) ==> field_in(th, t, n, i)),
        Task::FieldTy(_, _, n, _) => th.inductive(n) matches Some(d) ==> d.all_ctor_names@.len() > 0,
        Task::EtaU(n, _) => has_ctor(th, n),
        Task::K(n, _) => has_ctor(th, n),
        Task::RigidApps(xs) => xs.len() <= u32::MAX,
        _ => true,
    }
}

/// The task, and every task that it may pose, comes to an end within so many nested tasks, in
/// whatever order terms are evaluated, and nothing in them fails.
#[verifier::opaque]
pub open spec fn ends(th: Theory, p: Task, n: nat) -> bool
    decreases n,
{
    match p {
        Task::Canon(t) => n >= canon_fuel(t),
        _ => n > 0 && sound(th, p) && forall|q: Task| #[trigger]
            poses(th, p, q) ==> ends(th, q, (n - 1) as nat),
    }
}

/// A task that comes to an end is sound, and what it poses comes to an end.
pub proof fn ends_next(th: Theory, p: Task, q: Task, n: nat)
    ensures
        ends(th, p, n) && !(p is Canon) ==> n > 0 && sound(th, p),
        ends(th, p, n) && !(p is Canon) && poses(th, p, q) ==> ends(th, q, (n - 1) as nat),
{
    reveal(ends);
}

/// A task that comes to an end takes something.
pub broadcast proof fn ends_some(th: Theory, p: Task, n: nat)
    requires
        #[trigger] ends(th, p, n),
        !(p is Canon),
    ensures
        n > 0,
{
    reveal(ends);
}

/// A task that comes to an end is sound.
pub proof fn ends_sound(th: Theory, p: Task, n: nat)
    ensures
        ends(th, p, n) && !(p is Canon) ==> n > 0 && sound(th, p),
{
    reveal(ends);
}

/// More room does no harm.
pub proof fn ends_more(th: Theory, p: Task, m: nat, n: nat)
    ensures
        ends(th, p, m) && m <= n ==> ends(th, p, n),
    decreases m,
{
    reveal(ends);
    if ends(th, p, m) && m <= n && !(p is Canon) {
        assert forall|q: Task| #[trigger] poses(th, p, q) implies ends(th, q, (n - 1) as nat) by {
            ends_more(th, q, (m - 1) as nat, (n - 1) as nat);
        }
    }
}

/// The canonical form is reached with enough fuel.
pub proof fn ends_canon(th: Theory, t: Tm, n: nat)
    ensures
        ends(th, Task::Canon(t), n) <==> n >= canon_fuel(t),
{
    reveal(ends);
}

/// The arguments of a constant with a spine of applications.
pub proof fn args_of_spine(h: Tm, es: Seq<El>)
    requires
        h is Const || h is Local || h is Free,
        crate::value::all_apps(es),
    ensures
        args(spine_tm(h, es)) == crate::value::spine_args(es),
        head(spine_tm(h, es)) == h,
    decreases es.len(),
{
    if es.len() > 0 {
        let p = es.drop_last();
        assert forall|i: int| 0 <= i < p.len() implies (#[trigger] p[i]) is App by {
            assert(es[i] is App);
        }
        args_of_spine(h, p);
        assert(es[es.len() - 1] is App);
        assert(crate::value::spine_args(es) =~= crate::value::spine_args(p).push(es.last()->App_0));
    } else {
        assert(crate::value::spine_args(es) =~= Seq::<Tm>::empty());
    }
}

/// What is behind a local definition may be reduced.
pub proof fn let_body_more(th: Theory, t: Tm, u: Tm, w: Tm)
    requires
        let_body(th, t, u),
        red(th, u, w),
    ensures
        let_body(th, t, w),
{
    if let Tm::Let(_, _, v, b, _) = t {
        let x = choose|x: Tm| #[trigger] red(th, *v, x) && red(th, inst1(*b, x), u);
        red_trans(th, inst1(*b, x), u, w);
    }
}

/// Nested applications, one after the other.
pub proof fn chain_down(fs: Seq<Tm>, env: Seq<Tm>, t: Tm)
    ensures
        down(nested(fs, env, t), fs.len()) == t,
        forall|i: nat| i < fs.len() ==> (#[trigger] down(nested(fs, env, t), i) matches Tm::App(
            g,
            _,
        ) && *g == subst(fs[i as int], env, 0)),
    decreases fs.len(),
{
    if fs.len() > 0 {
        let f = subst(fs.last(), env, 0);
        let u = Tm::App(Box::new(f), Box::new(t));
        chain_down(fs.drop_last(), env, u);
        let all = nested(fs, env, t);
        assert(all == nested(fs.drop_last(), env, u));
        assert(down(all, (fs.len() - 1) as nat) == u);
        assert(down(all, fs.len()) == t);
        assert forall|i: nat| i < fs.len() implies (#[trigger] down(all, i) matches Tm::App(g, _) && *g
            == subst(fs[i as int], env, 0)) by {
            if i < fs.len() - 1 {
                assert(fs.drop_last()[i as int] == fs[i as int]);
            }
        }
    }
}

/// No definition is at the head of the term, or an operation that is put off, or the name of
/// a constructor or of the type of a literal, or one that unfolds to itself.
pub open spec fn settled(th: Theory, t: Tm) -> bool {
    unfolds(th, t) ==> deferred(th, t) || (head(t) matches Tm::Const(n, _) && (lit_ctor_named(
        th.names,
        n,
    ) || lit_type_named(th.names, n))) || fires(th, t, t)
}

/// The operation is computed by recursion on its second argument.
pub open spec fn structural_name(th: Theory, n: Nm) -> bool {
    ||| is_named(th.names.nat_add, n)
    ||| is_named(th.names.nat_sub, n)
    ||| is_named(th.names.nat_mul, n)
    ||| is_named(th.names.nat_pow, n)
}

/// An operation that is computed by recursion on its second argument is put off, as that is a
/// large number; its arguments are not both numbers as they stand.
pub open spec fn deferred(th: Theory, t: Tm) -> bool {
    &&& th.nat_ext
    &&& head(t) matches Tm::Const(n, _) && structural_name(th, n)
    &&& args(t).len() == 2
    &&& exists|k: nat| #[trigger] red(th, args(t)[1], Tm::NatLit(k)) && k > 255
    &&& crate::numbers::nats_declared(th) ==> !(crate::numbers::number(th, args(t)[0]) is Some
        && crate::numbers::number(th, args(t)[1]) is Some)
}

/// No definition is at the head of the term, or the name of a constructor or of the type of a
/// literal, or one that unfolds to itself.
pub open spec fn kept_whole(th: Theory, t: Tm) -> bool {
    unfolds(th, t) ==> (head(t) matches Tm::Const(n, _) && (lit_ctor_named(th.names, n)
        || lit_type_named(th.names, n))) || fires(th, t, t)
}

/// The recursor or eliminator of quotients reduces further once its major premise, which
/// reduces to `m`, does.
pub open spec fn waits_for(th: Theory, w: Tm, m: Tm) -> bool {
    head(w) matches Tm::Const(n, _) && match th.recursor(n) {
        Some(r) => {
            &&& args(w).len() > r.major_pos()
            &&& red(th, args(w)[r.major_pos() as int], m)
        },
        None => {
            &&& th.is_quot(n)
            &&& quot_pos(th.names, n) matches Some(p) && args(w).len() > p && red(
                th,
                args(w)[p as int],
                m,
            )
        },
    }
}

/// The type is an inductive type of the name with all its parameters, and the type of its
/// first constructor is written as a function type that reaches behind the field.
pub open spec fn has_field(th: Theory, ty: Tm, n: Nm, i: nat) -> bool {
    &&& fixed_head(th, ty)
    &&& ind_headed(th, ty)
    &&& match head(ty) {
        Tm::Const(ind, ls) => {
            &&& ind == n
            &&& th.inductive(ind)->0.num_params <= args(ty).len()
            &&& ctor_type(th, ind, ls) matches Some(ct) && pi_count(ct)
                > th.inductive(ind)->0.num_params + i
        },
        _ => false,
    }
}

/// The type of a constructor behind its parameters, applied to the fields of a structure up
/// to a position.
pub open spec fn fields_of(th: Theory, ty: Tm, t: Tm, e: Tm, ind: Nm, k: nat, u: Tm) -> bool {
    holds(th, Judg::Fields(Ck::Loose, ty, t, e, ind, 0, k, u))
}

/// The functions, the last of them innermost, applied to a term, one to the result of the
/// other. The functions are taken in an environment.
pub open spec fn nested(fs: Seq<Tm>, env: Seq<Tm>, t: Tm) -> Tm
    decreases fs.len(),
{
    if fs.len() == 0 {
        t
    } else {
        nested(
            fs.drop_last(),
            env,
            Tm::App(Box::new(subst(fs.last(), env, 0)), Box::new(t)),
        )
    }
}

/// The name is that of an operation on numbers that is computed.
pub open spec fn nat_red_name(th: Theory, n: Nm) -> bool {
    ||| is_named(th.names.nat_succ, n)
    ||| op_named(th.names, n) is Some
    ||| is_named(th.names.nat_div_go, n)
    ||| is_named(th.names.nat_mod_core_go, n)
}

/// There are cases among the arguments of the recursor of the numbers for the literal.
pub open spec fn nat_rec_fits(r: RecursorData, n: nat, k: nat) -> bool {
    let first = r.num_params + r.num_motives;
    first < r.major_pos() && first + 1 < n && (k > 0 ==> first + 1 < r.major_pos())
}

/// At whatever levels, the constant applied to the arguments reduces with a step at its head.
pub open spec fn fires_at(th: Theory, c: Nm, xs: Seq<Tm>, w: Tm) -> bool {
    forall|ls: Seq<Lv>| fires(th, #[trigger] apps(Tm::Const(c, ls), xs), w)
}

/// A recursor that is fired may pose the task of applying its rule.
pub proof fn poses_rule(th: Theory, n: Nm, ls: Seq<Lv>, xs: Seq<Tm>, m: Tm, i: int, d: Nm, ys: Seq<Tm>)
    requires
        rule_for(th.recursor(n)->0.rec_rules@, d, i),
        taken_for(th, n, m, d, ys),
    ensures
        poses(th, Task::FireRec(n, ls, xs, m), Task::Apprule(n, ls, i, xs, ys)),
{
    assert(rule_taken(th, n, m, i, ys));
}

/// The type of the reduced term does not reduce to a universe.
pub open spec fn unsorted(th: Theory, f: Tm) -> bool {
    exists|t: Tm, s: Tm| #[trigger] inf(th, Ck::Loose, f, t) && #[trigger] red(th, t, s) && forced(th, s)
        && !(s is Sort)
}

/// The term reduces to a function or a function type, or to something whose type does not
/// reduce to a universe.
pub open spec fn no_level(th: Theory, ty: Tm) -> bool {
    exists|f: Tm| #[trigger] red(th, ty, f) && forced(th, f) && (f is Lam || f is Pi || unsorted(th, f))
}

/// An operation on numbers is at the root, which is computed once its arguments are there.
pub open spec fn computes(th: Theory, t: Tm) -> bool {
    th.nat_ext && (root(t) matches Tm::Const(n, _) && nat_red_name(th, n))
}

/// The domain of a function type that the term reduces to.
pub open spec fn domain_of(th: Theory, u: Tm, t: Tm) -> bool {
    exists|x: Tm| #[trigger] red(th, u, x) && (x matches Tm::Pi(_, _, d, _) && t == *d)
}

/// The type of the field of a structure: the domain of the field in the type of the first
/// constructor, at the levels and with the parameters of the structure's type, and with the
/// projections in place of the fields in front of it.
pub open spec fn field_type(th: Theory, e: Tm, ty: Tm, n: Nm, i: nat, t: Tm) -> bool {
    exists|ls: Seq<Lv>, xs: Seq<Tm>, u: Tm| #[trigger]
        last_field(th, ty, e, n, ls, xs, i, u) && red(th, ty, apps(Tm::Const(n, ls), xs)) && domain_of(
            th,
            u,
            t,
        )
}

/// The position among the arguments of a constructor where a field of the type is.
pub open spec fn field_pos(th: Theory, c: Nm, n: nat, ty: Nm, i: nat) -> Option<nat> {
    if th.decls.contains_key(c) {
        match th.decls[c] {
            Declar::Constructor(d) => if d.inductive_name@ == ty && d.num_params + i < n {
                Some((d.num_params + i) as nat)
            } else {
                None
            },
            _ => None,
        }
    } else {
        None
    }
}

} // verus!
