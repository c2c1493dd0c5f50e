//! Terms that are numbers as they stand: successors of literals and of zero.
use crate::judge::{applies, derivable, holds, is_named, premises, root_step, Judg, Rule, Theory};
use crate::laws::red;
use crate::tree::{args, head, Nm, Tm};
use crate::value::lit_type_named;
use vstd::prelude::*;

verus! {

/// Zero and the successor are declared as constructors, and are not one constant.
pub open spec fn nats_declared(th: Theory) -> bool {
    forall|n: Nm|
        #![trigger is_named(th.names.nat_zero, n)]
        #![trigger is_named(th.names.nat_succ, n)]
        (is_named(th.names.nat_zero, n) || is_named(th.names.nat_succ, n)) ==> (th.ctor_params(
            n,
        ) is Some && !lit_type_named(th.names, n) && !(is_named(th.names.nat_zero, n) && is_named(
            th.names.nat_succ,
            n,
        )))
}

/// Zero and the successor are constructors.
pub proof fn number_ctors(th: Theory, n: Nm)
    requires
        nats_declared(th),
        is_named(th.names.nat_zero, n) || is_named(th.names.nat_succ, n),
    ensures
        th.ctor_params(n) is Some,
        !lit_type_named(th.names, n),
        forall|ls: Seq<crate::tree::Lv>| #[trigger]
            crate::stable::ctor_headed(th, Tm::Const(n, ls)),
{
}

/// The number that a term is: a literal, zero, or the successor of a number.
pub open spec fn number(th: Theory, t: Tm) -> Option<nat>
    decreases t,
{
    match t {
        Tm::NatLit(n) => Some(n),
        Tm::Const(c, _) => if is_named(th.names.nat_zero, c) {
            Some(0)
        } else {
            None
        },
        Tm::App(f, a) => match *f {
            Tm::Const(c, _) => if is_named(th.names.nat_succ, c) {
                match number(th, *a) {
                    Some(n) => Some(n + 1),
                    None => None,
                }
            } else {
                None
            },
            _ => None,
        },
        _ => None,
    }
}

/// A variable is at the head, under what is done to it.
pub open spec fn at_free(t: Tm) -> bool
    decreases t,
{
    match t {
        Tm::Local(_, _, _, _) | Tm::Free(_, _) => true,
        Tm::App(f, _) => at_free(*f),
        Tm::Proj(_, _, s) => at_free(*s),
        _ => false,
    }
}

/// Successors of something with a variable at its head.
pub open spec fn blank_number(th: Theory, t: Tm) -> bool
    decreases t,
{
    at_free(t) || (t matches Tm::App(f, a) && (*f matches Tm::Const(c, _) && is_named(
        th.names.nat_succ,
        c,
    )) && blank_number(th, *a))
}

proof fn free_root(t: Tm)
    requires
        at_free(t),
    ensures
        !(head(t) is Const),
    decreases t,
{
    if let Tm::App(f, _) = t {
        free_root(*f);
    }
}

spec fn last_rule(th: Theory, n: nat, j: Judg) -> Rule {
    choose|rule: Rule| #[trigger]
        applies(th, rule, j) && forall|i: int|
            0 <= i < premises(th, rule, j).len() ==> derivable(
                th,
                (n - 1) as nat,
                #[trigger] premises(th, rule, j)[i],
            )
}

proof fn free_stays_at(th: Theory, n: nat, a: Tm, b: Tm)
    requires
        derivable(th, n, Judg::Red(a, b)),
        at_free(a),
    ensures
        at_free(b),
    decreases n,
{
    let j = Judg::Red(a, b);
    let m = (n - 1) as nat;
    let rule = last_rule(th, n, j);
    let ps = premises(th, rule, j);
    reveal_with_fuel(at_free, 3);
    free_root(a);
    match rule {
        Rule::RedTrans(c) => {
            assert(derivable(th, m, ps[0]) && derivable(th, m, ps[1]));
            free_stays_at(th, m, a, c);
            free_stays_at(th, m, c, b);
        },
        Rule::RedApp => {
            if let (Tm::App(f, x), Tm::App(g, y)) = (a, b) {
                assert(derivable(th, m, ps[0]));
                free_stays_at(th, m, *f, *g);
            }
        },
        Rule::RedProj => {
            if let (Tm::Proj(_, _, s), Tm::Proj(_, _, t)) = (a, b) {
                assert(derivable(th, m, ps[0]));
                free_stays_at(th, m, *s, *t);
            }
        },
        Rule::RedStep => {
            if let Tm::Proj(_, _, s) = a {
                free_root(*s);
            }
        },
        _ => {},
    }
}

/// The successor reduces to itself only.
proof fn succ_stays_at(th: Theory, n: nat, a: Tm, b: Tm)
    requires
        derivable(th, n, Judg::Red(a, b)),
        nats_declared(th),
        a matches Tm::Const(c, _) && is_named(th.names.nat_succ, c),
    ensures
        a == b,
    decreases n,
{
    let j = Judg::Red(a, b);
    let m = (n - 1) as nat;
    let rule = last_rule(th, n, j);
    let ps = premises(th, rule, j);
    assert(is_named(th.names.nat_zero, a->Const_0) || is_named(th.names.nat_succ, a->Const_0));
    match rule {
        Rule::RedTrans(c) => {
            assert(derivable(th, m, ps[0]) && derivable(th, m, ps[1]));
            succ_stays_at(th, m, a, c);
            succ_stays_at(th, m, c, b);
        },
        Rule::RedStep => {
            assert(args(a) =~= Seq::<Tm>::empty());
            assert(head(a) == a);
        },
        _ => {},
    }
}

proof fn number_stays_at(th: Theory, n: nat, a: Tm, b: Tm)
    requires
        derivable(th, n, Judg::Red(a, b)),
        nats_declared(th),
        number(th, a) is Some,
    ensures
        number(th, b) == number(th, a),
    decreases n,
{
    let j = Judg::Red(a, b);
    let m = (n - 1) as nat;
    let rule = last_rule(th, n, j);
    let ps = premises(th, rule, j);
    match a {
        Tm::Const(c, _) => {
            assert(is_named(th.names.nat_zero, c) || is_named(th.names.nat_succ, c));
            assert(head(a) == a);
            assert(args(a) =~= Seq::<Tm>::empty());
        },
        Tm::App(f, x) => {
            let c = (*f)->Const_0;
            assert(is_named(th.names.nat_zero, c) || is_named(th.names.nat_succ, c));
            assert(head(*f) == *f);
            assert(args(*f) =~= Seq::<Tm>::empty());
            assert(head(a) == *f);
            assert(args(a) =~= seq![*x]);
        },
        _ => {},
    }
    match rule {
        Rule::RedTrans(c) => {
            assert(derivable(th, m, ps[0]) && derivable(th, m, ps[1]));
            number_stays_at(th, m, a, c);
            number_stays_at(th, m, c, b);
        },
        Rule::RedApp => {
            if let (Tm::App(f, x), Tm::App(g, y)) = (a, b) {
                assert(derivable(th, m, ps[0]) && derivable(th, m, ps[1]));
                succ_stays_at(th, m, *f, *g);
                number_stays_at(th, m, *x, *y);
            }
        },
        Rule::RedStep => {
            assert(root_step(th, a, b));
            reveal_with_fuel(number, 3);
        },
        _ => {},
    }
}

proof fn blank_stays_at(th: Theory, n: nat, a: Tm, b: Tm)
    requires
        derivable(th, n, Judg::Red(a, b)),
        nats_declared(th),
        blank_number(th, a),
    ensures
        blank_number(th, b),
    decreases n,
{
    reveal_with_fuel(at_free, 3);
    reveal_with_fuel(blank_number, 3);
    if at_free(a) {
        free_stays_at(th, n, a, b);
    } else {
        let j = Judg::Red(a, b);
        let m = (n - 1) as nat;
        let rule = last_rule(th, n, j);
        let ps = premises(th, rule, j);
        if let Tm::App(f, x) = a {
            let c = (*f)->Const_0;
            assert(is_named(th.names.nat_zero, c) || is_named(th.names.nat_succ, c));
            assert(head(*f) == *f);
            assert(args(*f) =~= Seq::<Tm>::empty());
            assert(head(a) == *f);
            assert(args(a) =~= seq![*x]);
            assert(!(*x is NatLit));
        }
        match rule {
            Rule::RedTrans(c) => {
                assert(derivable(th, m, ps[0]) && derivable(th, m, ps[1]));
                blank_stays_at(th, m, a, c);
                blank_stays_at(th, m, c, b);
            },
            Rule::RedApp => {
                if let (Tm::App(f, x), Tm::App(g, y)) = (a, b) {
                    assert(derivable(th, m, ps[0]) && derivable(th, m, ps[1]));
                    succ_stays_at(th, m, *f, *g);
                    blank_stays_at(th, m, *x, *y);
                }
            },
            _ => {},
        }
    }
}

/// A number reduces to terms that are the same number.
pub proof fn number_stays(th: Theory, a: Tm, b: Tm)
    requires
        red(th, a, b),
        nats_declared(th),
        number(th, a) is Some,
    ensures
        number(th, b) == number(th, a),
{
    reveal(holds);
    let n = choose|n: nat| derivable(th, n, Judg::Red(a, b));
    number_stays_at(th, n, a, b);
}

/// Successors of something with a variable at its head reduce to no number.
pub proof fn blank_stays(th: Theory, a: Tm, b: Tm)
    requires
        red(th, a, b),
        nats_declared(th),
        blank_number(th, a),
    ensures
        blank_number(th, b),
        number(th, b) is None,
{
    reveal(holds);
    let n = choose|n: nat| derivable(th, n, Judg::Red(a, b));
    blank_stays_at(th, n, a, b);
    blank_no_number(th, b);
}

proof fn blank_no_number(th: Theory, t: Tm)
    requires
        blank_number(th, t),
    ensures
        number(th, t) is None,
    decreases t,
{
    reveal_with_fuel(at_free, 3);
    reveal_with_fuel(blank_number, 2);
    if let Tm::App(f, a) = t {
        if blank_number(th, *a) {
            blank_no_number(th, *a);
        }
    }
}

/// However a number is read, deep or as it stands, it is read as the same number.
pub proof fn one_number(th: Theory, t: Tm, m: nat, n: nat)
    requires
        nats_declared(th),
        number(th, t) is Some,
        red(th, t, Tm::NatLit(m)),
        red(th, t, Tm::NatLit(n)),
    ensures
        m == n,
        number(th, t) == Some(m),
{
    number_stays(th, t, Tm::NatLit(m));
    number_stays(th, t, Tm::NatLit(n));
}

} // verus!
