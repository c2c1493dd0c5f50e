//! When a value is at rest: nothing is left to reduce at its head, and what shows that.
use crate::env::RecursorData;
use crate::judge::{
    ctor_app, ctor_fields, first_ctor, is_named, lit_step, major_induct, nat_ctor, projections, quot_pos,
    rule_for, str_ctor, unfolds, Ck, Theory,
};
use crate::laws::{inf, red};
use crate::numbers::at_free;
use crate::stable::{
    ctor_headed, fixed_head, fixed_stays, head_kind, nat_named, quot_kind, rec_headed, same_head_args, spine_head,
};
use crate::tree::{apps, args, head, lv_simplify, Lv, Nm, Tm};
use crate::value::{lit_ctor_named, lit_type_named, neutral, value_known, El, RigidHead, Value};
use crate::work::{deferred, els, fires, forced, k_ctor, kept_whole, member, root, settled, typed_by};
use vstd::prelude::*;

verus! {

/// The recursor has no rule for the constructor at the head of the term, or the constructor
/// has fewer arguments than the rule takes, or there is no constructor.
pub open spec fn no_rule(th: Theory, rec: RecursorData, c: Tm) -> bool {
    ctor_headed(th, c) ==> forall|i: int| #[trigger]
        rule_for(rec.rec_rules@, head(c)->Const_0, i) ==> args(c).len()
            < rec.rec_rules@[i].ctor_telescope_size_wo_params
}

/// The term is the first constructor of the recursor's inductive type, applied to arguments.
pub open spec fn k_made(th: Theory, rec: RecursorData, c: Tm) -> bool {
    &&& major_induct(rec) matches Some(ind) && first_ctor(th, ind) matches Some(k) && (head(c)
        matches Tm::Const(d, _) && d == k)
    &&& ctor_app(th, c)
}

/// The term is what the constructor of a structure, applied to parameters and to projections,
/// reduces to.
pub open spec fn eta_made(th: Theory, ind: Nm, m: Tm, c: Tm) -> bool {
    exists|ls: Seq<Lv>, xs: Seq<Tm>, j: int| #[trigger]
        eta_made_at(th, ind, m, c, ls, xs, j)
}

/// The same, at levels and parameters.
pub open spec fn eta_made_at(
    th: Theory,
    ind: Nm,
    m: Tm,
    c: Tm,
    ls: Seq<Lv>,
    xs: Seq<Tm>,
    j: int,
) -> bool {
    &&& member(th, m, ind, ls, xs)
    &&& 0 <= j <= xs.len()
    &&& first_ctor(th, ind) matches Some(k) && ctor_fields(th, k) matches Some(n) && red(
        th,
        apps(apps(Tm::Const(k, ls), xs.take(j)), projections(ind, m, n)),
        c,
    )
}

/// The major premise is taken for the other term: a literal for the constructor that it stands
/// for, or anything for a constructor of its type.
pub open spec fn expands(th: Theory, rec: RecursorData, m: Tm, c: Tm) -> bool {
    ||| exists|e: Tm| #[trigger] lit_step(th, m, e) && red(th, e, c)
    ||| rec.is_k && k_made(th, rec, c)
    ||| major_induct(rec) matches Some(ind) && th.is_struct(ind) && !ctor_app(th, m) && eta_made(
        th,
        ind,
        m,
        c,
    )
}

/// The type of the term is found not to be the inductive type.
pub open spec fn eta_refused(th: Theory, ind: Nm, m: Tm) -> bool {
    exists|ty: Tm| #[trigger]
        typed_by(th, m, ty) && forced(th, ty) && ((head(ty) matches Tm::Const(d, _) && d == ind)
            ==> lit_ctor_named(th.names, ind) || (first_ctor(th, ind) matches Some(k)
            ==> ctor_fields(th, k) is None))
}

/// The terms reduce to terms that differ, or to functions or function types, which are not
/// compared.
pub open spec fn apart(th: Theory, a: Tm, b: Tm, n: nat) -> bool
    decreases n, 0nat,
{
    n > 0 && exists|x: Tm, y: Tm| #[trigger]
        red(th, a, x) && #[trigger] red(th, b, y) && forced(th, x) && forced(th, y) && unlike(
            th,
            x,
            y,
            (n - 1) as nat,
        )
}

/// The reduced terms differ.
pub open spec fn unlike(th: Theory, x: Tm, y: Tm, n: nat) -> bool
    decreases n, 0nat,
{
    ||| x is Lam || x is Pi || y is Lam || y is Pi
    ||| root(x) is Free && root(y) is Free
    ||| match (root(x), root(y)) {
        (Tm::Sort(l), Tm::Sort(k)) => lv_simplify(l) != lv_simplify(k),
        _ => root(x) != root(y),
    }
    ||| n > 0 && spines_unlike(th, els(x), els(y), (n - 1) as nat)
}

/// What is done in the spines differs.
pub open spec fn spines_unlike(th: Theory, es: Seq<El>, fs: Seq<El>, n: nat) -> bool
    decreases n, 1nat,
{
    ||| es.len() != fs.len()
    ||| exists|i: int|
        0 <= i < es.len() && i < fs.len() && match (#[trigger] es[i], fs[i]) {
            (El::App(a), El::App(b)) => apart(th, a, b, n),
            (El::Proj(p, j), El::Proj(q, k)) => p != q || j != k,
            _ => true,
        }
}

/// Reduced terms differ whose spines do.
pub proof fn spine_unlike(th: Theory, x: Tm, y: Tm, n: nat)
    requires
        spines_unlike(th, els(x), els(y), n),
    ensures
        unlike(th, x, y, n + 1),
{
}

/// The terms are found to differ.
pub open spec fn differ(th: Theory, a: Tm, b: Tm) -> bool {
    exists|n: nat| #[trigger] apart(th, a, b, n)
}

/// The type of the term is found not to be the inductive type, or to differ from the type of
/// the constructor.
pub open spec fn k_refused(th: Theory, rec: RecursorData, m: Tm) -> bool {
    exists|ty: Tm| #[trigger]
        typed_by(th, m, ty) && forced(th, ty) && {
            ||| (head(ty) matches Tm::Const(d, _) && major_induct(rec) == Some(d)) ==> lit_ctor_named(
                th.names,
                major_induct(rec)->0,
            ) || (first_ctor(th, major_induct(rec)->0) matches Some(k) ==> th.ctor_params(k) is None)
            ||| k_differs(th, m, ty)
        }
}

/// The type differs from the type of the constructor without data.
pub open spec fn k_differs(th: Theory, m: Tm, ty: Tm) -> bool {
    exists|u: Tm, b: Tm| #[trigger]
        inf(th, Ck::Loose, u, b) && k_ctor(th, m, u) && differ(th, ty, b)
}

/// The major premise is taken for nothing else: it is no literal that stands for a
/// constructor, and its type does not make it one.
pub open spec fn unexpanded(th: Theory, rec: RecursorData, m: Tm) -> bool {
    &&& m matches Tm::NatLit(k) ==> !th.nat_ext || nat_ctor(th.names, k) is None
    &&& m matches Tm::StrLit(s) ==> !th.nat_ext || str_ctor(th.names, s) is None
    &&& rec.is_k && neutral(m) ==> k_refused(th, rec, m)
    &&& major_induct(rec) matches Some(ind) ==> (th.is_struct(ind) && neutral(m) && !ctor_app(th, m)
        ==> eta_refused(th, ind, m))
}

/// The recursor does not fire on the major premise.
pub open spec fn unfired(th: Theory, rec: RecursorData, m: Tm) -> bool {
    &&& m is NatLit && th.nat_ext && rec.all_inductives@.len() > 0 ==> !is_named(
        th.names.nat,
        rec.all_inductives@[0]@,
    )
    &&& (no_rule(th, rec, m) && unexpanded(th, rec, m)) || exists|c: Tm| #[trigger]
        expands(th, rec, m, c) && no_rule(th, rec, c)
}

/// An eliminator of quotients is applied to its major premise.
pub open spec fn quot_headed(th: Theory, t: Tm) -> bool {
    head(t) matches Tm::Const(n, _) && th.is_quot(n) && !lit_type_named(th.names, n)
        && !lit_ctor_named(th.names, n)
}

/// The term is a member of a class.
pub open spec fn class_member(th: Theory, q: Tm) -> bool {
    quot_headed(th, q) && (head(q) matches Tm::Const(k, _) && is_named(th.names.quot_mk, k))
        && args(q).len() == 3
}

/// A variable occurs in what is done to the term, or is what things are done to.
pub open spec fn varied(th: Theory, t: Tm, n: nat) -> bool
    decreases n,
{
    at_free(t) || n > 0 && exists|i: int, b: Tm|
        0 <= i < els(t).len() && #[trigger] argument(th, els(t)[i], b) && varied(
            th,
            b,
            (n - 1) as nat,
        )
}

/// A variable occurs in the term.
pub open spec fn mentions_free(th: Theory, t: Tm) -> bool {
    exists|n: nat| #[trigger] varied(th, t, n)
}

/// The term is what an argument reduces to.
pub open spec fn argument(th: Theory, e: El, b: Tm) -> bool {
    e matches El::App(a) && red(th, a, b)
}

/// The term has the form of a number: it is a literal, zero or a successor.
pub open spec fn numeral(th: Theory, t: Tm) -> bool {
    match t {
        Tm::NatLit(_) => true,
        Tm::Const(c, _) => is_named(th.names.nat_zero, c),
        Tm::App(f, _) => *f matches Tm::Const(c, _) && is_named(th.names.nat_succ, c),
        _ => false,
    }
}

/// The term is not read as a number: it reduces to something with a variable in it, or to
/// something that rests and does not have the form of a number, or to the successor of
/// something that is not read as a number.
pub open spec fn unread(th: Theory, t: Tm, n: nat) -> bool
    decreases n, 2nat,
{
    exists|w: Tm| #[trigger] red(th, t, w) && unread_here(th, w, n)
}

/// The reduced term is not read as a number.
pub open spec fn unread_here(th: Theory, w: Tm, n: nat) -> bool
    decreases n, 1nat,
{
    ||| varied(th, w, n)
    ||| !numeral(th, w) && at_rest(th, w, n)
    ||| n > 0 && (w matches Tm::App(f, a) && (*f matches Tm::Const(c, _) && is_named(
        th.names.nat_succ,
        c,
    )) && unread(th, *a, (n - 1) as nat))
}

/// The term is not read as a number.
pub open spec fn unreadable(th: Theory, t: Tm) -> bool {
    exists|n: nat| #[trigger] unread(th, t, n)
}

/// Not reading a number off what a term reduces to is not reading one off the term.
pub proof fn unread_trans(th: Theory, t: Tm, u: Tm)
    requires
        red(th, t, u),
        unreadable(th, u),
    ensures
        unreadable(th, t),
{
    let n = choose|n: nat| #[trigger] unread(th, u, n);
    let w = choose|w: Tm| #[trigger] red(th, u, w) && unread_here(th, w, n);
    crate::laws::red_trans(th, t, u, w);
    assert(unread(th, t, n));
}

/// What rests, and does not have the form of a number, is not read as one.
pub proof fn unread_rests(th: Theory, t: Tm)
    requires
        resting(th, t),
        !numeral(th, t),
    ensures
        unreadable(th, t),
{
    let n = choose|n: nat| #[trigger] at_rest(th, t, n);
    crate::laws::red_refl(th, t);
    assert(unread_here(th, t, n));
    assert(unread(th, t, n));
}

/// What a variable occurs in is not read as a number.
pub proof fn unread_varied(th: Theory, t: Tm, n: nat)
    requires
        varied(th, t, n),
    ensures
        unreadable(th, t),
{
    crate::laws::red_refl(th, t);
    assert(unread_here(th, t, n));
    assert(unread(th, t, n));
}

/// The successor of what is not read as a number is not.
pub proof fn unread_succ(th: Theory, f: Tm, a: Tm)
    requires
        f matches Tm::Const(c, _) && is_named(th.names.nat_succ, c),
        unreadable(th, a),
    ensures
        unreadable(th, Tm::App(Box::new(f), Box::new(a))),
{
    let t = Tm::App(Box::new(f), Box::new(a));
    let n = choose|n: nat| #[trigger] unread(th, a, n);
    crate::laws::red_refl(th, t);
    assert(unread_here(th, t, n + 1));
    assert(unread(th, t, n + 1));
}

/// A definition at the head is left because an operation on numbers is put off, and for no
/// other reason.
pub open spec fn only_deferred(th: Theory, t: Tm) -> bool {
    &&& unfolds(th, t)
    &&& deferred(th, t)
    &&& !fires(th, t, t)
    &&& head(t) matches Tm::Const(n, _) && !lit_ctor_named(th.names, n) && !lit_type_named(th.names, n)
}

/// Nothing is left to reduce at the head of the term: no definition is at its head, but for an
/// operation that is put off on something that is not read as a number, and a recursor, or an
/// eliminator of quotients, that is applied to its major premise does not fire on what that
/// reduces to, which is at rest.
pub open spec fn at_rest(th: Theory, t: Tm, n: nat) -> bool
    decreases n, 0nat,
{
    &&& settled(th, t)
    &&& only_deferred(th, t) && crate::numbers::nats_declared(th) ==> n > 0 && (unread(
        th,
        args(t)[0],
        (n - 1) as nat,
    ) || unread(th, args(t)[1], (n - 1) as nat))
    &&& rec_headed(th, t) ==> (th.recursor(head(t)->Const_0) matches Some(rec) ==> (args(t).len()
        > rec.major_pos() ==> n > 0 && exists|m: Tm| #[trigger]
        red(th, args(t)[rec.major_pos() as int], m) && at_rest(th, m, (n - 1) as nat) && unfired(
            th,
            rec,
            m,
        )))
    &&& quot_headed(th, t) ==> (quot_pos(th.names, head(t)->Const_0) matches Some(p) ==> (args(
        t,
    ).len() > p ==> n > 0 && exists|q: Tm| #[trigger]
        red(th, args(t)[p as int], q) && at_rest(th, q, (n - 1) as nat) && !class_member(th, q)))
}

/// Nothing is left to reduce at the head of the term.
pub open spec fn resting(th: Theory, t: Tm) -> bool {
    exists|n: nat| #[trigger] at_rest(th, t, n)
}

/// A term without an eliminator at its head rests where no definition is at its head.
pub proof fn rests_plainly(th: Theory, t: Tm)
    requires
        kept_whole(th, t),
        rec_headed(th, t) ==> (th.recursor(head(t)->Const_0) matches Some(rec) ==> args(t).len()
            <= rec.major_pos()),
        quot_headed(th, t) ==> (quot_pos(th.names, head(t)->Const_0) matches Some(p) ==> args(t).len()
            <= p),
    ensures
        resting(th, t),
{
    assert(at_rest(th, t, 0));
}

/// A recursor rests that does not fire on what its major premise reduces to.
pub proof fn recursor_rests(th: Theory, t: Tm, rec: RecursorData, m: Tm)
    requires
        kept_whole(th, t),
        head(t) is Const,
        th.recursor(head(t)->Const_0) == Some(rec),
        args(t).len() > rec.major_pos(),
        red(th, args(t)[rec.major_pos() as int], m),
        resting(th, m),
        unfired(th, rec, m),
    ensures
        resting(th, t),
{
    let n = choose|n: nat| #[trigger] at_rest(th, m, n);
    assert(!th.is_quot(head(t)->Const_0));
    assert(at_rest(th, t, n + 1));
}

/// An eliminator of quotients rests whose major premise reduces to no member of a class.
pub proof fn quotient_rests(th: Theory, t: Tm, p: nat, q: Tm)
    requires
        kept_whole(th, t),
        head(t) is Const,
        th.is_quot(head(t)->Const_0),
        quot_pos(th.names, head(t)->Const_0) == Some(p),
        args(t).len() > p,
        red(th, args(t)[p as int], q),
        resting(th, q),
        !class_member(th, q),
    ensures
        resting(th, t),
{
    let n = choose|n: nat| #[trigger] at_rest(th, q, n);
    assert(th.recursor(head(t)->Const_0) is None);
    assert(at_rest(th, t, n + 1));
}

/// An operation that is put off rests where one of its arguments is not read as a number.
pub proof fn deferral_rests(th: Theory, t: Tm)
    requires
        settled(th, t),
        unfolds(th, t),
        crate::numbers::nats_declared(th) ==> unreadable(th, args(t)[0]) || unreadable(th, args(t)[1]),
    ensures
        resting(th, t),
{
    assert(th.recursor(head(t)->Const_0) is None && !th.is_quot(head(t)->Const_0));
    if crate::numbers::nats_declared(th) {
        if unreadable(th, args(t)[0]) {
            let n = choose|n: nat| #[trigger] unread(th, args(t)[0], n);
            assert(at_rest(th, t, n + 1));
        } else {
            let n = choose|n: nat| #[trigger] unread(th, args(t)[1], n);
            assert(at_rest(th, t, n + 1));
        }
    } else {
        assert(at_rest(th, t, 0));
    }
}

/// A value without an eliminator or a definition at its head rests.
pub proof fn plain_rests(th: Theory, v: Value, t: Tm)
    requires
        v.tree() == t,
        !(v is Thunk),
        value_known(th, v),
        v matches Value::Rigid { head, .. } ==> (head matches RigidHead::Local(e) ==> e@ is Local),
        !(v matches Value::Rigid { head: RigidHead::Recursor(_, _), .. }),
        !(v matches Value::Rigid { head: RigidHead::QuotConst(_, _), .. }),
        !(v is Unfold),
    ensures
        resting(th, t),
{
    if let Value::Rigid { head: h, spine } = v {
        if head(t) is Const {
            spine_head(h.tm(), spine@);
        }
    }
    if rec_headed(th, t) {
        head_kind(th, v, t);
    }
    if quot_headed(th, t) {
        quot_kind(th, v, t);
    }
    rests_plainly(th, t);
}

/// What a projection comes to: the field of the constructor that the structure reduces to, or
/// the projection from what the structure reduces to, which rests and has no such field.
pub open spec fn projected(th: Theory, n: Nm, i: nat, v: Tm, w: Tm) -> bool {
    exists|u: Tm| #[trigger] red(th, v, u) && resting(th, u) && projected_from(th, n, i, u, w)
}

/// What a projection from a structure that rests comes to.
pub open spec fn projected_from(th: Theory, n: Nm, i: nat, u: Tm, w: Tm) -> bool {
    if ctor_headed(th, u) {
        match crate::work::field_pos(th, head(u)->Const_0, args(u).len(), n, i) {
            Some(p) => red(th, args(u)[p as int], w),
            None => w == Tm::Proj(n, i, Box::new(u)),
        }
    } else {
        w == Tm::Proj(n, i, Box::new(u)) || ctor_app(th, u)
    }
}

/// A value at rest is no recursor that is applied to a constructor with a rule, whether the
/// recursor is for a structure or for a type without data or for neither.
pub proof fn rest_fires_recursors(th: Theory, t: Tm, rec: RecursorData, i: int)
    requires
        resting(th, t),
        rec_headed(th, t),
        th.recursor(head(t)->Const_0) == Some(rec),
        args(t).len() > rec.major_pos(),
        rec.is_k ==> (major_induct(rec) matches Some(n) ==> (first_ctor(th, n) matches Some(c) ==> {
            &&& !lit_type_named(th.names, c)
            &&& exists|i: int| #[trigger]
                rule_for(rec.rec_rules@, c, i) && rec.rec_rules@[i].ctor_telescope_size_wo_params == 0
        })),
    ensures
        ({
            let m = args(t)[rec.major_pos() as int];
            !((head(m) matches Tm::Const(k, _) && th.ctor_params(k) is Some && !nat_named(th.names, k)
                && !lit_type_named(th.names, k) && rule_for(rec.rec_rules@, k, i)) && args(m).len()
                >= rec.rec_rules@[i].ctor_telescope_size_wo_params)
        }),
{
    let a = args(t)[rec.major_pos() as int];
    if (head(a) matches Tm::Const(k, _) && th.ctor_params(k) is Some && !nat_named(th.names, k)
        && !lit_type_named(th.names, k) && rule_for(rec.rec_rules@, k, i)) && args(a).len()
        >= rec.rec_rules@[i].ctor_telescope_size_wo_params {
        crate::tree::apps_of_head(a);
        fixed_apps(th, head(a), args(a));
        let n = choose|n: nat| #[trigger] at_rest(th, t, n);
        let m = choose|m: Tm| #[trigger]
            red(th, a, m) && at_rest(th, m, (n - 1) as nat) && unfired(th, rec, m);
        fixed_stays(th, a, m);
        same_head_args(th, a, m);
        assert(!no_rule(th, rec, m));
        let c = choose|c: Tm| #[trigger] expands(th, rec, m, c) && no_rule(th, rec, c);
        assert(ctor_app(th, m));
        assert(k_made(th, rec, c));
        let k = first_ctor(th, major_induct(rec)->0)->0;
        let j = choose|j: int| #[trigger]
            rule_for(rec.rec_rules@, k, j) && rec.rec_rules@[j].ctor_telescope_size_wo_params == 0;
        assert(ctor_headed(th, c));
        assert(false);
    }
}

/// A value at rest is no eliminator of quotients that is applied to a member of a class.
pub proof fn rest_lifts_quotients(th: Theory, t: Tm, p: nat)
    requires
        resting(th, t),
        quot_headed(th, t),
        quot_pos(th.names, head(t)->Const_0) == Some(p),
        args(t).len() > p,
    ensures
        !(fixed_head(th, args(t)[p as int]) && class_member(th, args(t)[p as int])),
{
    let a = args(t)[p as int];
    if fixed_head(th, a) && class_member(th, a) {
        let n = choose|n: nat| #[trigger] at_rest(th, t, n);
        let q = choose|q: Tm| #[trigger]
            red(th, a, q) && at_rest(th, q, (n - 1) as nat) && !class_member(th, q);
        fixed_stays(th, a, q);
        same_head_args(th, a, q);
        assert(false);
    }
}

/// Eta for structures: a value at rest is no recursor for a structure that is applied to a
/// variable of that structure.
pub proof fn rest_expands_structures(th: Theory, t: Tm, rec: RecursorData, ind: Nm, k: Nm, i: int)
    requires
        resting(th, t),
        rec_headed(th, t),
        th.recursor(head(t)->Const_0) == Some(rec),
        args(t).len() > rec.major_pos(),
        !rec.is_k,
        major_induct(rec) == Some(ind),
        th.is_struct(ind),
        !lit_ctor_named(th.names, ind),
        first_ctor(th, ind) == Some(k),
        !nat_named(th.names, k),
        !lit_type_named(th.names, k),
        th.ctor_params(k) is Some,
        rule_for(rec.rec_rules@, k, i),
        ctor_fields(th, k) matches Some(f) && f >= rec.rec_rules@[i].ctor_telescope_size_wo_params,
    ensures
        ({
            let m = args(t)[rec.major_pos() as int];
            !(m matches Tm::Local(_, _, ty, _) && fixed_head(th, *ty) && (head(*ty) matches Tm::Const(
                d,
                _,
            ) && d == ind))
        }),
{
    let a = args(t)[rec.major_pos() as int];
    if let Tm::Local(_, _, ty, _) = a {
        if fixed_head(th, *ty) && (head(*ty) matches Tm::Const(d, _) && d == ind) {
            let n = choose|n: nat| #[trigger] at_rest(th, t, n);
            let m = choose|m: Tm| #[trigger]
                red(th, a, m) && at_rest(th, m, (n - 1) as nat) && unfired(th, rec, m);
            fixed_stays(th, a, m);
            assert(m == a);
            if unexpanded(th, rec, m) {
                assert(neutral(m) && !ctor_app(th, m));
                let u = choose|u: Tm| #[trigger]
                    typed_by(th, m, u) && forced(th, u) && ((head(u) matches Tm::Const(d, _) && d
                        == ind) ==> lit_ctor_named(th.names, ind) || (first_ctor(th, ind) matches Some(
                        k,
                    ) ==> ctor_fields(th, k) is None));
                let v = choose|v: Tm| #[trigger] inf(th, Ck::Loose, m, v) && red(th, v, u);
                crate::checked::variable_types(th, Ck::Loose, m, v);
                crate::laws::red_trans(th, *ty, v, u);
                fixed_stays(th, *ty, u);
                same_head_args(th, *ty, u);
                assert(false);
            } else {
                let c = choose|c: Tm| #[trigger] expands(th, rec, m, c) && no_rule(th, rec, c);
                assert(eta_made(th, ind, m, c));
                let (ls, xs, j) = choose|ls: Seq<Lv>, xs: Seq<Tm>, j: int| #[trigger]
                    eta_made_at(th, ind, m, c, ls, xs, j);
                let f = ctor_fields(th, k)->0;
                let ps = projections(ind, m, f);
                let e = apps(apps(Tm::Const(k, ls), xs.take(j)), ps);
                crate::tree::apps_append(Tm::Const(k, ls), xs.take(j), ps);
                crate::tc::const_apps(k, ls, xs.take(j) + ps);
                fixed_apps(th, Tm::Const(k, ls), xs.take(j) + ps);
                fixed_stays(th, e, c);
                same_head_args(th, e, c);
                assert(args(e).len() == j + f);
                assert(false);
            }
        }
    }
}

proof fn fixed_apps(th: Theory, h: Tm, xs: Seq<Tm>)
    requires
        fixed_head(th, h),
    ensures
        fixed_head(th, apps(h, xs)),
    decreases xs.len(),
{
    if xs.len() > 0 {
        fixed_apps(th, h, xs.drop_last());
    }
}

/// A value at rest has no definition at its head, but for one that unfolds to itself, one that
/// has the name of a constructor or of the type of a literal, or an operation that is put off.
pub proof fn rest_unfolds_definitions(th: Theory, t: Tm)
    requires
        resting(th, t),
        head(t) is Const,
        th.delta(head(t)->Const_0, head(t)->Const_1) is Some,
    ensures
        ({
            let n = head(t)->Const_0;
            ||| lit_ctor_named(th.names, n)
            ||| lit_type_named(th.names, n)
            ||| crate::work::fires(th, t, t)
            ||| th.nat_ext && args(t).len() == 2 && (is_named(th.names.nat_add, n) || is_named(
                th.names.nat_sub,
                n,
            ) || is_named(th.names.nat_mul, n) || is_named(th.names.nat_pow, n)) && exists|k: nat|
                #[trigger] red(th, args(t)[1], Tm::NatLit(k)) && k > 255
        }),
{
    let n = choose|n: nat| #[trigger] at_rest(th, t, n);
    assert(settled(th, t));
}

/// A projection is never left from a constructor that has the field.
pub proof fn fields_are_taken(th: Theory, n: Nm, i: nat, v: Tm, w: Tm, p: nat)
    requires
        projected(th, n, i, v, w),
        fixed_head(th, v),
        ctor_headed(th, v),
        crate::work::field_pos(th, head(v)->Const_0, args(v).len(), n, i) == Some(p),
    ensures
        red(th, args(v)[p as int], w),
{
    let u = choose|u: Tm| #[trigger] red(th, v, u) && resting(th, u) && projected_from(th, n, i, u, w);
    fixed_stays(th, v, u);
    same_head_args(th, v, u);
    crate::laws::red_trans(th, args(v)[p as int], args(u)[p as int], w);
}

} // verus!
