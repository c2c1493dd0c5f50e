//! What the strategies find, and with how much fuel: laws that relate what is found of a term to
//! what is found of other terms. A law never asks for more than a few steps beyond those that its
//! premises took.
use crate::fuel::{checks_more, deq_more, strong_more, type_more, whnf_core_more, whnf_more};
use crate::judge::{Ck, Theory};
use crate::steps::{
    args_at, args_first, at_variable, checks_at, deq_at, deq_core_at, deq_core_first, deq_first,
    deq_reduced_at, deq_reduced_first, eta_deq_first, heads_first, prop_at, prop_first,
    strong_at, type_at, whnf_at, whnf_core_at, zero_first,
};
use crate::tree::{args, depth_bound, head, inst1, larger, lv_simplify, BinderStyle, Lv, Nm, Tm};
use vstd::prelude::*;

verus! {

/// With this fuel the term is found to reduce to the other one, which is in weak head normal form.
pub open spec fn whnfs(th: Theory, e: Tm, w: Tm, n: nat) -> bool {
    whnf_at(th, e, n) == Some(w)
}

/// With this fuel the term is found to reduce to the other one without unfolding.
pub open spec fn cores(th: Theory, e: Tm, w: Tm, n: nat) -> bool {
    whnf_core_at(th, e, n) == Some(w)
}

/// With this fuel the type of the term is found.
pub open spec fn types(th: Theory, e: Tm, t: Tm, n: nat) -> bool {
    type_at(th, e, n) == Some(t)
}

/// With this fuel the type of the term is found with everything checked.
pub open spec fn checks(th: Theory, ck: Ck, e: Tm, n: nat) -> bool {
    checks_at(th, ck, e, n)
}

/// With this fuel the terms are found to be equal.
pub open spec fn equals(th: Theory, x: Tm, y: Tm, n: nat) -> bool {
    deq_at(th, x, y, false, n)
}

/// With this fuel the terms are found to be equal without a look at whether they are proofs.
pub open spec fn equals_as_data(th: Theory, x: Tm, y: Tm, n: nat) -> bool {
    deq_at(th, x, y, true, n)
}

/// With this fuel the term reduced everywhere is found.
pub open spec fn strongs(th: Theory, e: Tm, types: bool, proofs: bool, w: Tm, n: nat) -> bool {
    strong_at(th, e, types, proofs, n) == Some(w)
}

/// With this much fuel, or more, the reduced term is found.
pub proof fn whnf_from(th: Theory, e: Tm, w: Tm, n: nat)
    requires
        whnfs(th, e, w, n),
    ensures
        forall|m: nat| m >= n ==> #[trigger] whnf_at(th, e, m) == Some(w),
{
    assert forall|m: nat| m >= n implies #[trigger] whnf_at(th, e, m) == Some(w) by {
        whnf_more(th, e, n, m);
    }
}

/// With this much fuel, or more, the term reduced without unfolding is found.
pub proof fn core_from(th: Theory, e: Tm, w: Tm, n: nat)
    requires
        cores(th, e, w, n),
    ensures
        forall|m: nat| m >= n ==> #[trigger] whnf_core_at(th, e, m) == Some(w),
{
    assert forall|m: nat| m >= n implies #[trigger] whnf_core_at(th, e, m) == Some(w) by {
        whnf_core_more(th, e, n, m);
    }
}

/// With this much fuel, or more, the type is found.
pub proof fn type_from(th: Theory, e: Tm, t: Tm, n: nat)
    requires
        types(th, e, t, n),
    ensures
        forall|m: nat| m >= n ==> #[trigger] type_at(th, e, m) == Some(t),
{
    assert forall|m: nat| m >= n implies #[trigger] type_at(th, e, m) == Some(t) by {
        type_more(th, e, n, m);
    }
}

/// With this much fuel, or more, the type is found with everything checked.
pub proof fn check_from(th: Theory, ck: Ck, e: Tm, n: nat)
    requires
        checks(th, ck, e, n),
    ensures
        forall|m: nat| m >= n ==> #[trigger] checks_at(th, ck, e, m),
{
    assert forall|m: nat| m >= n implies #[trigger] checks_at(th, ck, e, m) by {
        checks_more(th, ck, e, n, m);
    }
}

/// With this much fuel, or more, the terms are found to be equal.
pub proof fn equal_from(th: Theory, x: Tm, y: Tm, n: nat)
    requires
        equals(th, x, y, n),
    ensures
        forall|m: nat| m >= n ==> #[trigger] deq_at(th, x, y, false, m),
{
    assert forall|m: nat| m >= n implies #[trigger] deq_at(th, x, y, false, m) by {
        deq_more(th, x, y, false, n, m);
    }
}

/// With this much fuel, or more, the term reduced everywhere is found.
pub proof fn strong_from(th: Theory, e: Tm, types: bool, proofs: bool, w: Tm, n: nat)
    requires
        strongs(th, e, types, proofs, w, n),
    ensures
        forall|m: nat| m >= n ==> #[trigger] strong_at(th, e, types, proofs, m) == Some(w),
{
    assert forall|m: nat| m >= n implies #[trigger] strong_at(th, e, types, proofs, m) == Some(w) by {
        strong_more(th, e, types, proofs, n, m);
    }
}

/// A term is found to reduce to one term only, and to have one type only, with whatever fuel.
pub proof fn one_answer(th: Theory, e: Tm, v: Tm, w: Tm, n: nat, m: nat)
    ensures
        whnfs(th, e, v, n) && whnfs(th, e, w, m) ==> v == w,
        cores(th, e, v, n) && cores(th, e, w, m) ==> v == w,
        types(th, e, v, n) && types(th, e, w, m) ==> v == w,
{
    if whnfs(th, e, v, n) && whnfs(th, e, w, m) {
        whnf_from(th, e, v, n);
        whnf_from(th, e, w, m);
        assert(whnf_at(th, e, n + m) == Some(v));
    }
    if cores(th, e, v, n) && cores(th, e, w, m) {
        core_from(th, e, v, n);
        core_from(th, e, w, m);
        assert(whnf_core_at(th, e, n + m) == Some(v));
    }
    if types(th, e, v, n) && types(th, e, w, m) {
        type_from(th, e, v, n);
        type_from(th, e, w, m);
        assert(type_at(th, e, n + m) == Some(v));
    }
}

/// The term is found to be a proposition: its type reduces to the universe of propositions.
pub open spec fn proposition(th: Theory, t: Tm, n: nat) -> bool {
    exists|s: Tm| #[trigger] types(th, t, s, n) && whnfs(th, s, Tm::Sort(Lv::Zero), n)
}

/// The term is found not to be a proposition: its type reduces to something else.
pub open spec fn no_proposition(th: Theory, t: Tm, n: nat) -> bool {
    exists|s: Tm, w: Tm| #[trigger]
        types(th, t, s, n) && #[trigger] whnfs(th, s, w, n) && w != Tm::Sort(Lv::Zero)
}

/// The term is found not to be a proof.
pub open spec fn no_proof(th: Theory, x: Tm, n: nat) -> bool {
    exists|t: Tm| #[trigger] types(th, x, t, n) && no_proposition(th, t, n)
}

/// With this much fuel, or more, the term is found to be a proposition.
pub proof fn prop_from(th: Theory, t: Tm, n: nat)
    requires
        proposition(th, t, n),
    ensures
        forall|m: nat| m >= n + 2 ==> #[trigger] prop_at(th, t, m) == Some(true),
{
    let s = choose|s: Tm| #[trigger] types(th, t, s, n) && whnfs(th, s, Tm::Sort(Lv::Zero), n);
    type_from(th, t, s, n);
    whnf_from(th, s, Tm::Sort(Lv::Zero), n);
    prop_first(th, t);
    zero_first(th, s);
}

/// With this much fuel, or more, the term is found to be no proposition.
pub proof fn no_prop_from(th: Theory, t: Tm, n: nat)
    requires
        no_proposition(th, t, n),
    ensures
        forall|m: nat| m >= n + 2 ==> #[trigger] prop_at(th, t, m) == Some(false),
{
    let (s, w) = choose|s: Tm, w: Tm| #[trigger]
        types(th, t, s, n) && #[trigger] whnfs(th, s, w, n) && w != Tm::Sort(Lv::Zero);
    type_from(th, t, s, n);
    whnf_from(th, s, w, n);
    prop_first(th, t);
    zero_first(th, s);
}

/// The term is found to be a proof.
pub open spec fn is_proof(th: Theory, x: Tm, n: nat) -> bool {
    exists|t: Tm| #[trigger] types(th, x, t, n) && proposition(th, t, n)
}

/// One of the two terms is found not to be a proof, and what is found before is found.
pub open spec fn unproved(th: Theory, x: Tm, y: Tm, n: nat) -> bool {
    no_proof(th, x, n) || (is_proof(th, x, n) && no_proof(th, y, n))
}

/// Proof irrelevance: proofs of propositions that are found to be equal are found to be equal,
/// whatever form they have.
pub proof fn proofs_are_equal(th: Theory, x: Tm, y: Tm, t: Tm, u: Tm, n: nat)
    requires
        types(th, x, t, n),
        types(th, y, u, n),
        proposition(th, t, n),
        proposition(th, u, n),
        equals(th, t, u, n),
    ensures
        equals(th, x, y, n + 8),
{
    type_from(th, x, t, n);
    type_from(th, y, u, n);
    prop_from(th, t, n);
    prop_from(th, u, n);
    equal_from(th, t, u, n);
    let z: nat = n + 8;
    deq_first(th, x, y, false);
    assert(type_at(th, x, (z - 3) as nat) == Some(t));
    assert(type_at(th, y, (z - 3) as nat) == Some(u));
    assert(prop_at(th, t, (z - 3) as nat) == Some(true));
    assert(prop_at(th, u, (z - 3) as nat) == Some(true));
    assert(deq_at(th, t, u, false, (z - 2) as nat));
    assert(deq_at(th, x, y, false, z));
}

/// A term is found to be equal to itself.
pub proof fn same_is_equal(th: Theory, x: Tm, n: nat)
    ensures
        equals(th, x, x, n),
{
    deq_first(th, x, x, false);
}

/// Reduced terms are found to be equal by their form, with so much fuel or more.
spec fn alike_from(th: Theory, x: Tm, y: Tm, n: nat) -> bool {
    forall|m: nat| m >= n ==> #[trigger] deq_reduced_at(th, x, y, m)
}

/// Terms that are not both proofs are found to be equal by what they reduce to.
proof fn equal_by_form(th: Theory, x: Tm, y: Tm, a: Tm, b: Tm, n: nat)
    requires
        whnfs(th, x, a, n),
        whnfs(th, y, b, n),
        alike_from(th, a, b, n + 3),
    ensures
        unproved(th, x, y, n) ==> equals(th, x, y, n + 8),
        equals_as_data(th, x, y, n + 8),
{
    whnf_from(th, x, a, n);
    whnf_from(th, y, b, n);
    deq_core_first(th, x, y);
    assert forall|m: nat| m >= n + 4 implies #[trigger] deq_core_at(th, x, y, m) by {
        assert(whnf_at(th, x, (m - 1) as nat) == Some(a));
        assert(whnf_at(th, y, (m - 1) as nat) == Some(b));
        assert(deq_reduced_at(th, a, b, (m - 1) as nat));
    }
    let z: nat = n + 8;
    deq_first(th, x, y, true);
    assert(deq_core_at(th, x, y, (z - 1) as nat));
    assert(deq_at(th, x, y, true, z));
    deq_first(th, x, y, false);
    if no_proof(th, x, n) {
        let t = choose|t: Tm| #[trigger] types(th, x, t, n) && no_proposition(th, t, n);
        type_from(th, x, t, n);
        no_prop_from(th, t, n);
        assert(type_at(th, x, (z - 3) as nat) == Some(t));
        assert(prop_at(th, t, (z - 3) as nat) == Some(false));
        assert(deq_at(th, x, y, false, z));
    } else if unproved(th, x, y, n) {
        let t = choose|t: Tm| #[trigger] types(th, x, t, n) && proposition(th, t, n);
        let u = choose|u: Tm| #[trigger] types(th, y, u, n) && no_proposition(th, u, n);
        type_from(th, x, t, n);
        prop_from(th, t, n);
        type_from(th, y, u, n);
        no_prop_from(th, u, n);
        assert(type_at(th, x, (z - 3) as nat) == Some(t));
        assert(prop_at(th, t, (z - 3) as nat) == Some(true));
        assert(type_at(th, y, (z - 3) as nat) == Some(u));
        assert(prop_at(th, u, (z - 3) as nat) == Some(false));
        assert(deq_at(th, x, y, false, z));
    }
}

/// Terms that reduce to one term are found to be equal, where they are not both proofs.
pub proof fn equal_by_reduction(th: Theory, x: Tm, y: Tm, w: Tm, n: nat)
    requires
        whnfs(th, x, w, n),
        whnfs(th, y, w, n),
    ensures
        unproved(th, x, y, n) ==> equals(th, x, y, n + 8),
        equals_as_data(th, x, y, n + 8),
{
    deq_reduced_first(th, w, w);
    assert(alike_from(th, w, w, n + 3));
    equal_by_form(th, x, y, w, w, n);
}

/// Terms that reduce to universes of one level are found to be equal.
pub proof fn equal_universes(th: Theory, x: Tm, y: Tm, l: Lv, m: Lv, n: nat)
    requires
        whnfs(th, x, Tm::Sort(l), n),
        whnfs(th, y, Tm::Sort(m), n),
        lv_simplify(l) == lv_simplify(m),
    ensures
        unproved(th, x, y, n) ==> equals(th, x, y, n + 8),
        equals_as_data(th, x, y, n + 8),
{
    let a = Tm::Sort(l);
    let b = Tm::Sort(m);
    deq_reduced_first(th, a, b);
    assert(alike_from(th, a, b, n + 3));
    equal_by_form(th, x, y, a, b, n);
}

/// Terms that reduce to function types with equal domains and ranges are found to be equal.
pub proof fn equal_pis(
    th: Theory,
    x: Tm,
    y: Tm,
    nm: Nm,
    st: BinderStyle,
    t: Tm,
    a: Tm,
    nm2: Nm,
    st2: BinderStyle,
    u: Tm,
    b: Tm,
    n: nat,
)
    requires
        whnfs(th, x, Tm::Pi(nm, st, Box::new(t), Box::new(a)), n),
        whnfs(th, y, Tm::Pi(nm2, st2, Box::new(u), Box::new(b)), n),
        equals(th, t, u, n),
        ({
            let v = Tm::Pi(nm, st, Box::new(t), Box::new(a));
            let w = Tm::Pi(nm2, st2, Box::new(u), Box::new(b));
            let i = at_variable(v, w, nm, st, t);
            larger(depth_bound(v), depth_bound(w)) < 0xffff && equals(th, inst1(a, i), inst1(b, i), n)
        }),
    ensures
        unproved(th, x, y, n) ==> equals(th, x, y, n + 8),
        equals_as_data(th, x, y, n + 8),
{
    let v = Tm::Pi(nm, st, Box::new(t), Box::new(a));
    let w = Tm::Pi(nm2, st2, Box::new(u), Box::new(b));
    let i = at_variable(v, w, nm, st, t);
    equal_from(th, t, u, n);
    equal_from(th, inst1(a, i), inst1(b, i), n);
    deq_reduced_first(th, v, w);
    assert(alike_from(th, v, w, n + 3));
    equal_by_form(th, x, y, v, w, n);
}

/// Terms that reduce to functions with equal domains and values are found to be equal.
pub proof fn equal_lambdas(
    th: Theory,
    x: Tm,
    y: Tm,
    nm: Nm,
    st: BinderStyle,
    t: Tm,
    a: Tm,
    nm2: Nm,
    st2: BinderStyle,
    u: Tm,
    b: Tm,
    n: nat,
)
    requires
        whnfs(th, x, Tm::Lam(nm, st, Box::new(t), Box::new(a)), n),
        whnfs(th, y, Tm::Lam(nm2, st2, Box::new(u), Box::new(b)), n),
        equals(th, t, u, n),
        ({
            let v = Tm::Lam(nm, st, Box::new(t), Box::new(a));
            let w = Tm::Lam(nm2, st2, Box::new(u), Box::new(b));
            let i = at_variable(v, w, nm, st, t);
            larger(depth_bound(v), depth_bound(w)) < 0xffff && equals(th, inst1(a, i), inst1(b, i), n)
        }),
    ensures
        unproved(th, x, y, n) ==> equals(th, x, y, n + 8),
        equals_as_data(th, x, y, n + 8),
{
    let v = Tm::Lam(nm, st, Box::new(t), Box::new(a));
    let w = Tm::Lam(nm2, st2, Box::new(u), Box::new(b));
    let i = at_variable(v, w, nm, st, t);
    equal_from(th, t, u, n);
    equal_from(th, inst1(a, i), inst1(b, i), n);
    deq_reduced_first(th, v, w);
    assert(alike_from(th, v, w, n + 3));
    equal_by_form(th, x, y, v, w, n);
}

/// Eta: a function and a term of function type with equal values are found to be equal,
/// whichever of them comes first.
pub proof fn equal_by_eta(
    th: Theory,
    x: Tm,
    y: Tm,
    nm: Nm,
    st: BinderStyle,
    t: Tm,
    b: Tm,
    w: Tm,
    raw: Tm,
    pi: Tm,
    n: nat,
)
    requires
        whnfs(th, x, Tm::Lam(nm, st, Box::new(t), Box::new(b)), n),
        whnfs(th, y, w, n),
        !(w is Lam),
        types(th, w, raw, n),
        whnfs(th, raw, pi, n),
        pi matches Tm::Pi(_, _, dom, _) && equals(th, t, *dom, n),
        ({
            let f = Tm::Lam(nm, st, Box::new(t), Box::new(b));
            let i = at_variable(f, w, nm, st, t);
            larger(depth_bound(f), depth_bound(w)) < 0xffff && equals(
                th,
                inst1(b, i),
                Tm::App(Box::new(w), Box::new(i)),
                n,
            )
        }),
    ensures
        unproved(th, x, y, n) ==> equals(th, x, y, n + 8),
        unproved(th, y, x, n) ==> equals(th, y, x, n + 8),
        equals_as_data(th, x, y, n + 8),
        equals_as_data(th, y, x, n + 8),
{
    let f = Tm::Lam(nm, st, Box::new(t), Box::new(b));
    let i = at_variable(f, w, nm, st, t);
    let dom = pi->Pi_2;
    type_from(th, w, raw, n);
    whnf_from(th, raw, pi, n);
    equal_from(th, t, *dom, n);
    equal_from(th, inst1(b, i), Tm::App(Box::new(w), Box::new(i)), n);
    eta_deq_first(th, f, w);
    deq_reduced_first(th, f, w);
    deq_reduced_first(th, w, f);
    assert forall|m: nat| m >= n + 3 implies #[trigger] deq_reduced_at(th, f, w, m) by {
        assert(type_at(th, w, (m - 2) as nat) == Some(raw));
    }
    assert forall|m: nat| m >= n + 3 implies #[trigger] deq_reduced_at(th, w, f, m) by {
        assert(type_at(th, w, (m - 2) as nat) == Some(raw));
    }
    assert(alike_from(th, f, w, n + 3) && alike_from(th, w, f, n + 3));
    equal_by_form(th, x, y, f, w, n);
    equal_by_form(th, y, x, w, f, n);
}

/// The heads are the same, or one constant at equal levels, or the same projection from equal
/// structures.
pub open spec fn equal_heads(th: Theory, f: Tm, g: Tm, n: nat) -> bool {
    f == g || match (f, g) {
        (Tm::Const(a, ls), Tm::Const(b, ks)) => a == b && ls.len() == ks.len() && forall|i: int|
            0 <= i < ls.len() ==> #[trigger] lv_simplify(ls[i]) == lv_simplify(ks[i]),
        (Tm::Proj(a, i, s), Tm::Proj(b, j, t)) => a == b && i == j && equals(th, *s, *t, n),
        _ => false,
    }
}

proof fn args_from(th: Theory, xs: Seq<Tm>, ys: Seq<Tm>, n: nat)
    requires
        xs.len() == ys.len(),
        forall|i: int| 0 <= i < xs.len() ==> equals(th, #[trigger] xs[i], ys[i], n),
    ensures
        forall|m: nat| m >= n ==> #[trigger] args_at(th, xs, ys, m),
    decreases xs.len(),
{
    args_first(th, xs, ys);
    if xs.len() == 0 {
    } else {
        let k = xs.len() - 1;
        assert(equals(th, xs[k], ys[k], n));
        args_from(th, xs.drop_last(), ys.drop_last(), n);
        equal_from(th, xs[k], ys[k], n);
    }
}

/// Congruence: terms that reduce to equal heads applied to equal arguments are found to be
/// equal.
pub proof fn equal_applications(th: Theory, x: Tm, y: Tm, a: Tm, b: Tm, n: nat)
    requires
        whnfs(th, x, a, n),
        whnfs(th, y, b, n),
        !(a is Lam) && !(b is Lam),
        !(a is Pi && b is Pi),
        !(a is Sort && b is Sort),
        equal_heads(th, head(a), head(b), n),
        args(a).len() == args(b).len(),
        forall|i: int| 0 <= i < args(a).len() ==> equals(th, #[trigger] args(a)[i], args(b)[i], n),
    ensures
        unproved(th, x, y, n) ==> equals(th, x, y, n + 8),
        equals_as_data(th, x, y, n + 8),
{
    args_from(th, args(a), args(b), n);
    let f = head(a);
    let g = head(b);
    heads_first(th, f, g);
    deq_reduced_first(th, a, b);
    if f != g {
        if let (Tm::Proj(_, _, s), Tm::Proj(_, _, t)) = (f, g) {
            equal_from(th, *s, *t, n);
        }
    }
    assert(alike_from(th, a, b, n + 3));
    equal_by_form(th, x, y, a, b, n);
}



} // verus!
