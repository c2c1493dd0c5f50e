//! The mathematical trees that pointers stand for: names, universe levels and terms.
use vstd::prelude::*;

verus! {

/// How the argument of a binder is written.
#[derive(Debug, Clone, Copy, PartialEq, Eq, Structural)]
pub enum BinderStyle {
    Default,
    Implicit,
    StrictImplicit,
    InstanceImplicit,
}

/// The identity of a free variable: the depth of the binder it was opened from, or a
/// number of its own.
#[derive(Debug, Clone, Copy, PartialEq, Eq, Structural)]
pub enum FVarId {
    DbjLevel(u16),
    Unique(u32),
}

/// A hierarchical name.
pub enum Nm {
    Anon,
    Str(Box<Nm>, Seq<char>),
    Num(Box<Nm>, u64),
}

/// A universe level.
pub enum Lv {
    Zero,
    Succ(Box<Lv>),
    Max(Box<Lv>, Box<Lv>),
    IMax(Box<Lv>, Box<Lv>),
    Param(Nm),
}

/// A term. `Free` is a variable that evaluation made up: its depth and its type.
pub enum Tm {
    Var(nat),
    Sort(Lv),
    Const(Nm, Seq<Lv>),
    App(Box<Tm>, Box<Tm>),
    Lam(Nm, BinderStyle, Box<Tm>, Box<Tm>),
    Pi(Nm, BinderStyle, Box<Tm>, Box<Tm>),
    Let(Nm, Box<Tm>, Box<Tm>, Box<Tm>, bool),
    Local(Nm, BinderStyle, Box<Tm>, FVarId),
    Proj(Nm, nat, Box<Tm>),
    NatLit(nat),
    StrLit(Seq<char>),
    Free(nat, Box<Tm>),
}

/// The larger of two numbers.
pub open spec fn larger(x: nat, y: nat) -> nat {
    if x <= y {
        y
    } else {
        x
    }
}

/// One less, but not below zero.
pub open spec fn less_one(x: nat) -> nat {
    if x == 0 {
        0
    } else {
        (x - 1) as nat
    }
}

// ---- names ----

/// The components of `b` behind those of `a`.
pub open spec fn nm_concat(a: Nm, b: Nm) -> Nm
    decreases b,
{
    match b {
        Nm::Anon => a,
        Nm::Str(p, s) => Nm::Str(Box::new(nm_concat(a, *p)), s),
        Nm::Num(p, n) => Nm::Num(Box::new(nm_concat(a, *p)), n),
    }
}

/// The name with the prefix `outgoing`, where it has that prefix, replaced by `incoming`.
pub open spec fn nm_replace_pfx(n: Nm, outgoing: Nm, incoming: Nm) -> Nm
    decreases n,
{
    if n == outgoing {
        incoming
    } else {
        match n {
            Nm::Anon => Nm::Anon,
            Nm::Str(p, s) => Nm::Str(Box::new(nm_replace_pfx(*p, outgoing, incoming)), s),
            Nm::Num(p, k) => Nm::Num(Box::new(nm_replace_pfx(*p, outgoing, incoming)), k),
        }
    }
}

/// The number of components.
pub open spec fn nm_len(n: Nm) -> nat
    decreases n,
{
    match n {
        Nm::Anon => 0,
        Nm::Str(p, _) => nm_len(*p) + 1,
        Nm::Num(p, _) => nm_len(*p) + 1,
    }
}

/// The anonymous name is a unit of concatenation.
pub proof fn nm_concat_anon(a: Nm)
    ensures
        nm_concat(Nm::Anon, a) == a,
        nm_concat(a, Nm::Anon) == a,
    decreases a,
{
    match a {
        Nm::Anon => {},
        Nm::Str(p, _) => nm_concat_anon(*p),
        Nm::Num(p, _) => nm_concat_anon(*p),
    }
}

/// Concatenation is associative.
pub proof fn nm_concat_assoc(a: Nm, b: Nm, c: Nm)
    ensures
        nm_concat(nm_concat(a, b), c) == nm_concat(a, nm_concat(b, c)),
    decreases c,
{
    match c {
        Nm::Anon => {},
        Nm::Str(p, _) => nm_concat_assoc(a, b, *p),
        Nm::Num(p, _) => nm_concat_assoc(a, b, *p),
    }
}

/// Replacing a prefix by itself changes nothing.
pub proof fn nm_replace_pfx_same(n: Nm, p: Nm)
    ensures
        nm_replace_pfx(n, p, p) == n,
    decreases n,
{
    match n {
        Nm::Anon => {},
        Nm::Str(q, _) => nm_replace_pfx_same(*q, p),
        Nm::Num(q, _) => nm_replace_pfx_same(*q, p),
    }
}

/// A name that starts with `p` starts with `q` once `p` is replaced by `q`.
pub proof fn nm_replace_pfx_concat(p: Nm, q: Nm, n: Nm)
    ensures
        nm_replace_pfx(nm_concat(p, n), p, q) == nm_concat(q, n),
    decreases n,
{
    nm_len_concat(p, n);
    match n {
        Nm::Anon => {},
        Nm::Str(m, _) => nm_replace_pfx_concat(p, q, *m),
        Nm::Num(m, _) => nm_replace_pfx_concat(p, q, *m),
    }
}

/// Lengths add up under concatenation.
pub proof fn nm_len_concat(a: Nm, b: Nm)
    ensures
        nm_len(nm_concat(a, b)) == nm_len(a) + nm_len(b),
    decreases b,
{
    match b {
        Nm::Anon => {},
        Nm::Str(p, _) => nm_len_concat(a, *p),
        Nm::Num(p, _) => nm_len_concat(a, *p),
    }
}

// ---- universe levels ----

/// The number that a level is under an assignment of numbers to its parameters.
pub open spec fn lv_eval(l: Lv, s: spec_fn(Nm) -> nat) -> nat
    decreases l,
{
    match l {
        Lv::Zero => 0,
        Lv::Succ(a) => lv_eval(*a, s) + 1,
        Lv::Max(a, b) => larger(lv_eval(*a, s), lv_eval(*b, s)),
        Lv::IMax(a, b) => if lv_eval(*b, s) == 0 {
            0
        } else {
            larger(lv_eval(*a, s), lv_eval(*b, s))
        },
        Lv::Param(n) => s(n),
    }
}

/// The maximum of two levels, with common successors taken out and zeros dropped.
pub open spec fn lv_combine(a: Lv, b: Lv) -> Lv
    decreases a,
{
    match (a, b) {
        (Lv::Zero, _) => b,
        (_, Lv::Zero) => a,
        (Lv::Succ(x), Lv::Succ(y)) => Lv::Succ(Box::new(lv_combine(*x, *y))),
        _ => Lv::Max(Box::new(a), Box::new(b)),
    }
}

/// A level in simpler form.
pub open spec fn lv_simplify(l: Lv) -> Lv
    decreases l,
{
    match l {
        Lv::Zero | Lv::Param(_) => l,
        Lv::Succ(a) => Lv::Succ(Box::new(lv_simplify(*a))),
        Lv::Max(a, b) => lv_combine(lv_simplify(*a), lv_simplify(*b)),
        Lv::IMax(a, b) => {
            let y = lv_simplify(*b);
            match y {
                Lv::Zero => Lv::Zero,
                Lv::Succ(_) => lv_combine(lv_simplify(*a), y),
                _ => Lv::IMax(Box::new(lv_simplify(*a)), Box::new(y)),
            }
        },
    }
}

/// The level is zero whatever its parameters are.
pub open spec fn lv_is_zero(l: Lv) -> bool
    decreases l,
{
    match l {
        Lv::Zero => true,
        Lv::Succ(_) | Lv::Param(_) => false,
        Lv::Max(a, b) => lv_is_zero(*a) && lv_is_zero(*b),
        Lv::IMax(_, b) => lv_is_zero(*b),
    }
}

/// What the parameter `n` is replaced by.
pub open spec fn lv_lookup(n: Nm, ks: Seq<Lv>, vs: Seq<Lv>) -> Lv
    decreases ks.len(),
{
    if ks.len() == 0 || vs.len() == 0 {
        Lv::Param(n)
    } else if ks[0] == Lv::Param(n) {
        vs[0]
    } else {
        lv_lookup(n, ks.drop_first(), vs.drop_first())
    }
}

/// The level with the parameters `ks` replaced by `vs`.
pub open spec fn lv_subst(l: Lv, ks: Seq<Lv>, vs: Seq<Lv>) -> Lv
    decreases l,
{
    match l {
        Lv::Zero => l,
        Lv::Succ(a) => Lv::Succ(Box::new(lv_subst(*a, ks, vs))),
        Lv::Max(a, b) => Lv::Max(Box::new(lv_subst(*a, ks, vs)), Box::new(lv_subst(*b, ks, vs))),
        Lv::IMax(a, b) => Lv::IMax(Box::new(lv_subst(*a, ks, vs)), Box::new(lv_subst(*b, ks, vs))),
        Lv::Param(n) => lv_lookup(n, ks, vs),
    }
}

/// Each level of a sequence with the parameters `ks` replaced by `vs`.
pub open spec fn lvs_subst(ls: Seq<Lv>, ks: Seq<Lv>, vs: Seq<Lv>) -> Seq<Lv> {
    Seq::new(ls.len(), |i: int| lv_subst(ls[i], ks, vs))
}

/// Every parameter of the level is one of `ps`.
pub open spec fn lv_defined(l: Lv, ps: Seq<Lv>) -> bool
    decreases l,
{
    match l {
        Lv::Zero => true,
        Lv::Succ(a) => lv_defined(*a, ps),
        Lv::Max(a, b) => lv_defined(*a, ps) && lv_defined(*b, ps),
        Lv::IMax(a, b) => lv_defined(*a, ps) && lv_defined(*b, ps),
        Lv::Param(_) => ps.contains(l),
    }
}

/// Every level of the sequence has its parameters among `ps`.
pub open spec fn lvs_defined(ls: Seq<Lv>, ps: Seq<Lv>) -> bool {
    forall|i: int| 0 <= i < ls.len() ==> lv_defined(#[trigger] ls[i], ps)
}

/// The levels are parameters, each named once.
pub open spec fn distinct_params(ls: Seq<Lv>) -> bool {
    &&& forall|i: int| 0 <= i < ls.len() ==> (#[trigger] ls[i]) is Param
    &&& forall|i: int, j: int| 0 <= i < j < ls.len() ==> ls[i] != ls[j]
}

/// Taking common successors out of a maximum leaves its value.
pub proof fn lv_combine_value(a: Lv, b: Lv, s: spec_fn(Nm) -> nat)
    ensures
        lv_eval(lv_combine(a, b), s) == larger(lv_eval(a, s), lv_eval(b, s)),
    decreases a,
{
    match (a, b) {
        (Lv::Succ(x), Lv::Succ(y)) => lv_combine_value(*x, *y, s),
        _ => {},
    }
}

/// Simplifying a level leaves its value under every assignment.
pub proof fn lv_simplify_value(l: Lv, s: spec_fn(Nm) -> nat)
    ensures
        lv_eval(lv_simplify(l), s) == lv_eval(l, s),
    decreases l,
{
    match l {
        Lv::Zero | Lv::Param(_) => {},
        Lv::Succ(a) => lv_simplify_value(*a, s),
        Lv::Max(a, b) => {
            lv_simplify_value(*a, s);
            lv_simplify_value(*b, s);
            lv_combine_value(lv_simplify(*a), lv_simplify(*b), s);
        },
        Lv::IMax(a, b) => {
            lv_simplify_value(*a, s);
            lv_simplify_value(*b, s);
            lv_combine_value(lv_simplify(*a), lv_simplify(*b), s);
        },
    }
}

/// Zeros are dropped from maxima, an impredicative maximum with zero is zero, one with a
/// successor is a maximum, and common successors are taken out of maxima.
pub proof fn lv_simplify_drops(a: Lv, b: Lv)
    ensures
        lv_simplify(Lv::Max(Box::new(Lv::Zero), Box::new(a))) == lv_simplify(a),
        lv_simplify(Lv::Max(Box::new(a), Box::new(Lv::Zero))) == lv_simplify(a),
        lv_simplify(Lv::IMax(Box::new(a), Box::new(Lv::Zero))) == Lv::Zero,
        lv_simplify(Lv::IMax(Box::new(a), Box::new(Lv::Succ(Box::new(b))))) == lv_simplify(
            Lv::Max(Box::new(a), Box::new(Lv::Succ(Box::new(b)))),
        ),
        lv_simplify(Lv::Max(Box::new(Lv::Succ(Box::new(a))), Box::new(Lv::Succ(Box::new(b)))))
            == Lv::Succ(Box::new(lv_simplify(Lv::Max(Box::new(a), Box::new(b))))),
{
    reveal_with_fuel(lv_simplify, 3);
    reveal_with_fuel(lv_combine, 2);
}

proof fn lv_combine_simple(a: Lv, b: Lv)
    requires
        lv_simplify(a) == a,
        lv_simplify(b) == b,
    ensures
        lv_simplify(lv_combine(a, b)) == lv_combine(a, b),
    decreases a,
{
    if let (Lv::Succ(x), Lv::Succ(y)) = (a, b) {
        lv_combine_simple(*x, *y);
    }
}

/// A simplified level is not simplified further.
pub proof fn lv_simplify_twice(l: Lv)
    ensures
        lv_simplify(lv_simplify(l)) == lv_simplify(l),
    decreases l,
{
    match l {
        Lv::Succ(a) => {
            lv_simplify_twice(*a);
        },
        Lv::Max(a, b) => {
            lv_simplify_twice(*a);
            lv_simplify_twice(*b);
            lv_combine_simple(lv_simplify(*a), lv_simplify(*b));
        },
        Lv::IMax(a, b) => {
            lv_simplify_twice(*a);
            lv_simplify_twice(*b);
            lv_combine_simple(lv_simplify(*a), lv_simplify(*b));
        },
        _ => {},
    }
}

/// `lv_is_zero` holds exactly of the levels that are zero under every assignment.
pub proof fn lv_is_zero_meaning(l: Lv)
    ensures
        lv_is_zero(l) <==> forall|s: spec_fn(Nm) -> nat| #[trigger] lv_eval(l, s) == 0,
{
    let ones = |n: Nm| 1nat;
    lv_is_zero_at(l, ones);
    if lv_is_zero(l) {
        assert forall|s: spec_fn(Nm) -> nat| #[trigger] lv_eval(l, s) == 0 by {
            lv_is_zero_everywhere(l, s);
        }
    }
}

proof fn lv_is_zero_at(l: Lv, ones: spec_fn(Nm) -> nat)
    requires
        forall|n: Nm| #[trigger] ones(n) == 1,
    ensures
        lv_is_zero(l) <==> lv_eval(l, ones) == 0,
    decreases l,
{
    match l {
        Lv::Max(a, b) => {
            lv_is_zero_at(*a, ones);
            lv_is_zero_at(*b, ones);
        },
        Lv::IMax(a, b) => {
            lv_is_zero_at(*a, ones);
            lv_is_zero_at(*b, ones);
        },
        _ => {},
    }
}

proof fn lv_is_zero_everywhere(l: Lv, s: spec_fn(Nm) -> nat)
    requires
        lv_is_zero(l),
    ensures
        lv_eval(l, s) == 0,
    decreases l,
{
    match l {
        Lv::Max(a, b) => {
            lv_is_zero_everywhere(*a, s);
            lv_is_zero_everywhere(*b, s);
        },
        Lv::IMax(a, b) => {
            lv_is_zero_everywhere(*b, s);
        },
        _ => {},
    }
}

// ---- terms ----

/// The number of bound variables that a term leaves to binders around it.
pub open spec fn loose(t: Tm) -> nat
    decreases t,
{
    match t {
        Tm::Var(i) => i + 1,
        Tm::App(f, a) => larger(loose(*f), loose(*a)),
        Tm::Lam(_, _, ty, b) => larger(loose(*ty), less_one(loose(*b))),
        Tm::Pi(_, _, ty, b) => larger(loose(*ty), less_one(loose(*b))),
        Tm::Let(_, ty, v, b, _) => larger(loose(*ty), larger(loose(*v), less_one(loose(*b)))),
        Tm::Proj(_, _, s) => loose(*s),
        _ => 0,
    }
}

/// A free variable occurs outside the types of free variables.
pub open spec fn has_local(t: Tm) -> bool
    decreases t,
{
    match t {
        Tm::Local(_, _, _, _) => true,
        Tm::App(f, a) => has_local(*f) || has_local(*a),
        Tm::Lam(_, _, ty, b) => has_local(*ty) || has_local(*b),
        Tm::Pi(_, _, ty, b) => has_local(*ty) || has_local(*b),
        Tm::Let(_, ty, v, b, _) => has_local(*ty) || has_local(*v) || has_local(*b),
        Tm::Proj(_, _, s) => has_local(*s),
        _ => false,
    }
}

/// One more than the depth of the deepest binder whose variable occurs free.
pub open spec fn depth_bound(t: Tm) -> nat
    decreases t,
{
    match t {
        Tm::Local(_, _, ty, FVarId::DbjLevel(k)) => larger(k as nat + 1, depth_bound(*ty)),
        Tm::Local(_, _, ty, FVarId::Unique(_)) => depth_bound(*ty),
        Tm::App(f, a) => larger(depth_bound(*f), depth_bound(*a)),
        Tm::Lam(_, _, ty, b) => larger(depth_bound(*ty), depth_bound(*b)),
        Tm::Pi(_, _, ty, b) => larger(depth_bound(*ty), depth_bound(*b)),
        Tm::Let(_, ty, v, b, _) => larger(
            depth_bound(*ty),
            larger(depth_bound(*v), depth_bound(*b)),
        ),
        Tm::Proj(_, _, s) => depth_bound(*s),
        _ => 0,
    }
}

/// The term with its loose variables, counted from depth `k`, replaced by the terms of
/// `env`, the last of which stands for the innermost binder.
pub open spec fn subst(t: Tm, env: Seq<Tm>, k: nat) -> Tm
    decreases t,
{
    match t {
        Tm::Var(i) => if i < k || i - k >= env.len() {
            t
        } else {
            env[env.len() - 1 - (i - k)]
        },
        Tm::App(f, a) => Tm::App(Box::new(subst(*f, env, k)), Box::new(subst(*a, env, k))),
        Tm::Lam(n, s, ty, b) => Tm::Lam(
            n,
            s,
            Box::new(subst(*ty, env, k)),
            Box::new(subst(*b, env, k + 1)),
        ),
        Tm::Pi(n, s, ty, b) => Tm::Pi(
            n,
            s,
            Box::new(subst(*ty, env, k)),
            Box::new(subst(*b, env, k + 1)),
        ),
        Tm::Let(n, ty, v, b, d) => Tm::Let(
            n,
            Box::new(subst(*ty, env, k)),
            Box::new(subst(*v, env, k)),
            Box::new(subst(*b, env, k + 1)),
            d,
        ),
        Tm::Proj(n, i, s) => Tm::Proj(n, i, Box::new(subst(*s, env, k))),
        _ => t,
    }
}

/// The body of a binder with the bound variable replaced by `a`.
pub open spec fn inst1(b: Tm, a: Tm) -> Tm {
    subst(b, seq![a], 0)
}

/// The term with the free variables of the depths from `start` up to `open` made into
/// variables bound `k` binders further out.
pub open spec fn abstr(t: Tm, start: nat, open: nat, k: nat) -> Tm
    decreases t,
{
    match t {
        Tm::Local(_, _, _, FVarId::DbjLevel(l)) => if start <= l < open {
            Tm::Var((open - l - 1 + k) as nat)
        } else {
            t
        },
        Tm::App(f, a) => Tm::App(
            Box::new(abstr(*f, start, open, k)),
            Box::new(abstr(*a, start, open, k)),
        ),
        Tm::Lam(n, s, ty, b) => Tm::Lam(
            n,
            s,
            Box::new(abstr(*ty, start, open, k)),
            Box::new(abstr(*b, start, open, k + 1)),
        ),
        Tm::Pi(n, s, ty, b) => Tm::Pi(
            n,
            s,
            Box::new(abstr(*ty, start, open, k)),
            Box::new(abstr(*b, start, open, k + 1)),
        ),
        Tm::Let(n, ty, v, b, d) => Tm::Let(
            n,
            Box::new(abstr(*ty, start, open, k)),
            Box::new(abstr(*v, start, open, k)),
            Box::new(abstr(*b, start, open, k + 1)),
            d,
        ),
        Tm::Proj(n, i, s) => Tm::Proj(n, i, Box::new(abstr(*s, start, open, k))),
        _ => t,
    }
}

/// The term with the universe parameters `ks` replaced by `vs`.
pub open spec fn tm_lsubst(t: Tm, ks: Seq<Lv>, vs: Seq<Lv>) -> Tm
    decreases t,
{
    match t {
        Tm::Sort(l) => Tm::Sort(lv_subst(l, ks, vs)),
        Tm::Const(n, ls) => Tm::Const(n, lvs_subst(ls, ks, vs)),
        Tm::App(f, a) => Tm::App(
            Box::new(tm_lsubst(*f, ks, vs)),
            Box::new(tm_lsubst(*a, ks, vs)),
        ),
        Tm::Lam(n, s, ty, b) => Tm::Lam(
            n,
            s,
            Box::new(tm_lsubst(*ty, ks, vs)),
            Box::new(tm_lsubst(*b, ks, vs)),
        ),
        Tm::Pi(n, s, ty, b) => Tm::Pi(
            n,
            s,
            Box::new(tm_lsubst(*ty, ks, vs)),
            Box::new(tm_lsubst(*b, ks, vs)),
        ),
        Tm::Let(n, ty, v, b, d) => Tm::Let(
            n,
            Box::new(tm_lsubst(*ty, ks, vs)),
            Box::new(tm_lsubst(*v, ks, vs)),
            Box::new(tm_lsubst(*b, ks, vs)),
            d,
        ),
        Tm::Proj(n, i, s) => Tm::Proj(n, i, Box::new(tm_lsubst(*s, ks, vs))),
        _ => t,
    }
}

/// `f` applied to the arguments in order.
pub open spec fn apps(f: Tm, xs: Seq<Tm>) -> Tm
    decreases xs.len(),
{
    if xs.len() == 0 {
        f
    } else {
        Tm::App(Box::new(apps(f, xs.drop_last())), Box::new(xs.last()))
    }
}

/// What is applied to arguments in the term.
pub open spec fn head(t: Tm) -> Tm
    decreases t,
{
    match t {
        Tm::App(f, _) => head(*f),
        _ => t,
    }
}

/// The arguments that the head of the term is applied to.
pub open spec fn args(t: Tm) -> Seq<Tm>
    decreases t,
{
    match t {
        Tm::App(f, a) => args(*f).push(*a),
        _ => Seq::empty(),
    }
}

/// A term is its head applied to its arguments.
pub proof fn apps_of_head(t: Tm)
    ensures
        apps(head(t), args(t)) == t,
        !(head(t) is App),
    decreases t,
{
    match t {
        Tm::App(f, a) => {
            apps_of_head(*f);
            assert(args(t).drop_last() =~= args(*f));
        },
        _ => {},
    }
}

/// Applying a term to more arguments adds them to its arguments.
pub proof fn head_of_apps(f: Tm, xs: Seq<Tm>)
    ensures
        head(apps(f, xs)) == head(f),
        args(apps(f, xs)) == args(f) + xs,
    decreases xs.len(),
{
    if xs.len() == 0 {
        assert(args(f) + xs =~= args(f));
    } else {
        head_of_apps(f, xs.drop_last());
        assert(args(f) + xs =~= (args(f) + xs.drop_last()).push(xs.last()));
    }
}

/// Arguments may be given in two goes.
pub proof fn apps_append(f: Tm, xs: Seq<Tm>, ys: Seq<Tm>)
    ensures
        apps(apps(f, xs), ys) == apps(f, xs + ys),
    decreases ys.len(),
{
    if ys.len() == 0 {
        assert(xs + ys =~= xs);
    } else {
        apps_append(f, xs, ys.drop_last());
        assert((xs + ys).drop_last() =~= xs + ys.drop_last());
        assert((xs + ys).last() == ys.last());
    }
}

/// One more argument.
pub proof fn apps_push(f: Tm, xs: Seq<Tm>, a: Tm)
    ensures
        apps(f, xs.push(a)) == Tm::App(Box::new(apps(f, xs)), Box::new(a)),
{
    assert(xs.push(a).drop_last() =~= xs);
}

/// The terms have no loose variables.
pub open spec fn all_closed(env: Seq<Tm>) -> bool {
    forall|i: int| 0 <= i < env.len() ==> loose(#[trigger] env[i]) == 0
}

/// Substitution leaves a term alone that has no loose variables from depth `k` on.
pub proof fn subst_closed(t: Tm, env: Seq<Tm>, k: nat)
    requires
        loose(t) <= k,
    ensures
        subst(t, env, k) == t,
    decreases t,
{
    match t {
        Tm::App(f, a) => {
            subst_closed(*f, env, k);
            subst_closed(*a, env, k);
        },
        Tm::Lam(_, _, ty, b) => {
            subst_closed(*ty, env, k);
            subst_closed(*b, env, k + 1);
        },
        Tm::Pi(_, _, ty, b) => {
            subst_closed(*ty, env, k);
            subst_closed(*b, env, k + 1);
        },
        Tm::Let(_, ty, v, b, _) => {
            subst_closed(*ty, env, k);
            subst_closed(*v, env, k);
            subst_closed(*b, env, k + 1);
        },
        Tm::Proj(_, _, s) => subst_closed(*s, env, k),
        _ => {},
    }
}

/// Substituting for the outer variables and then for the innermost one is substituting for
/// all of them at once.
pub proof fn subst_push(t: Tm, env: Seq<Tm>, a: Tm, k: nat)
    requires
        all_closed(env),
    ensures
        subst(subst(t, env, k + 1), seq![a], k) == subst(t, env.push(a), k),
    decreases t,
{
    match t {
        Tm::Var(i) => {
            if i >= k + 1 && i - (k + 1) < env.len() {
                let e = env[env.len() - 1 - (i - (k + 1))];
                assert(loose(e) == 0);
                subst_closed(e, seq![a], k);
            }
        },
        Tm::App(f, x) => {
            subst_push(*f, env, a, k);
            subst_push(*x, env, a, k);
        },
        Tm::Lam(_, _, ty, b) => {
            subst_push(*ty, env, a, k);
            subst_push(*b, env, a, k + 1);
        },
        Tm::Pi(_, _, ty, b) => {
            subst_push(*ty, env, a, k);
            subst_push(*b, env, a, k + 1);
        },
        Tm::Let(_, ty, v, b, _) => {
            subst_push(*ty, env, a, k);
            subst_push(*v, env, a, k);
            subst_push(*b, env, a, k + 1);
        },
        Tm::Proj(_, _, s) => subst_push(*s, env, a, k),
        _ => {},
    }
}

/// Substituting closed terms for all loose variables leaves none.
pub proof fn subst_loose(t: Tm, env: Seq<Tm>, k: nat)
    requires
        all_closed(env),
        loose(t) <= k + env.len(),
    ensures
        loose(subst(t, env, k)) <= k,
    decreases t,
{
    match t {
        Tm::Var(i) => {
            if i >= k && i - k < env.len() {
                assert(loose(env[env.len() - 1 - (i - k)]) == 0);
            }
        },
        Tm::App(f, x) => {
            subst_loose(*f, env, k);
            subst_loose(*x, env, k);
        },
        Tm::Lam(_, _, ty, b) => {
            subst_loose(*ty, env, k);
            subst_loose(*b, env, k + 1);
        },
        Tm::Pi(_, _, ty, b) => {
            subst_loose(*ty, env, k);
            subst_loose(*b, env, k + 1);
        },
        Tm::Let(_, ty, v, b, _) => {
            subst_loose(*ty, env, k);
            subst_loose(*v, env, k);
            subst_loose(*b, env, k + 1);
        },
        Tm::Proj(_, _, s) => subst_loose(*s, env, k),
        _ => {},
    }
}

/// Substitution for no variables does nothing.
pub proof fn subst_nothing(t: Tm, k: nat)
    ensures
        subst(t, Seq::empty(), k) == t,
    decreases t,
{
    match t {
        Tm::App(f, x) => {
            subst_nothing(*f, k);
            subst_nothing(*x, k);
        },
        Tm::Lam(_, _, ty, b) => {
            subst_nothing(*ty, k);
            subst_nothing(*b, k + 1);
        },
        Tm::Pi(_, _, ty, b) => {
            subst_nothing(*ty, k);
            subst_nothing(*b, k + 1);
        },
        Tm::Let(_, ty, v, b, _) => {
            subst_nothing(*ty, k);
            subst_nothing(*v, k);
            subst_nothing(*b, k + 1);
        },
        Tm::Proj(_, _, s) => subst_nothing(*s, k),
        _ => {},
    }
}

/// Abstraction leaves a term alone that has no free variables.
pub proof fn abstr_no_local(t: Tm, start: nat, open: nat, k: nat)
    requires
        !has_local(t),
    ensures
        abstr(t, start, open, k) == t,
    decreases t,
{
    match t {
        Tm::App(f, x) => {
            abstr_no_local(*f, start, open, k);
            abstr_no_local(*x, start, open, k);
        },
        Tm::Lam(_, _, ty, b) => {
            abstr_no_local(*ty, start, open, k);
            abstr_no_local(*b, start, open, k + 1);
        },
        Tm::Pi(_, _, ty, b) => {
            abstr_no_local(*ty, start, open, k);
            abstr_no_local(*b, start, open, k + 1);
        },
        Tm::Let(_, ty, v, b, _) => {
            abstr_no_local(*ty, start, open, k);
            abstr_no_local(*v, start, open, k);
            abstr_no_local(*b, start, open, k + 1);
        },
        Tm::Proj(_, _, s) => abstr_no_local(*s, start, open, k),
        _ => {},
    }
}

/// Abstracting the innermost free variable and then the others is abstracting all of them.
pub proof fn abstr_split(t: Tm, start: nat, open: nat, k: nat)
    requires
        start <= open,
    ensures
        abstr(abstr(t, open, open + 1, k), start, open, k + 1) == abstr(t, start, open + 1, k),
    decreases t,
{
    match t {
        Tm::App(f, x) => {
            abstr_split(*f, start, open, k);
            abstr_split(*x, start, open, k);
        },
        Tm::Lam(_, _, ty, b) => {
            abstr_split(*ty, start, open, k);
            abstr_split(*b, start, open, k + 1);
        },
        Tm::Pi(_, _, ty, b) => {
            abstr_split(*ty, start, open, k);
            abstr_split(*b, start, open, k + 1);
        },
        Tm::Let(_, ty, v, b, _) => {
            abstr_split(*ty, start, open, k);
            abstr_split(*v, start, open, k);
            abstr_split(*b, start, open, k + 1);
        },
        Tm::Proj(_, _, s) => abstr_split(*s, start, open, k),
        _ => {},
    }
}

/// Opening a binder with a variable of a depth that does not occur yet, and abstracting
/// that variable again, gives the body back.
pub proof fn abstr_inst(b: Tm, l: Tm, d: nat, k: nat)
    requires
        l matches Tm::Local(_, _, _, FVarId::DbjLevel(e)) && e == d,
        depth_bound(b) <= d,
        loose(b) <= k + 1,
    ensures
        abstr(subst(b, seq![l], k), d, d + 1, k) == b,
    decreases b,
{
    match b {
        Tm::App(f, x) => {
            abstr_inst(*f, l, d, k);
            abstr_inst(*x, l, d, k);
        },
        Tm::Lam(_, _, ty, c) => {
            abstr_inst(*ty, l, d, k);
            abstr_inst(*c, l, d, k + 1);
        },
        Tm::Pi(_, _, ty, c) => {
            abstr_inst(*ty, l, d, k);
            abstr_inst(*c, l, d, k + 1);
        },
        Tm::Let(_, ty, v, c, _) => {
            abstr_inst(*ty, l, d, k);
            abstr_inst(*v, l, d, k);
            abstr_inst(*c, l, d, k + 1);
        },
        Tm::Proj(_, _, s) => abstr_inst(*s, l, d, k),
        _ => {},
    }
}

} // verus!
