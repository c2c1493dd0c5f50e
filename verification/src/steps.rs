//! What the strategies for reduction and for type inference come to, as functions of a term
//! and of an amount of fuel. Where the fuel runs out, or the strategy goes wrong, there is
//! no answer.
use crate::bignum::{bin_fits, nat_bin_out, NatBinOp, NatOut};
use crate::ctx::NameCache;
use crate::env::RecursorData;
use crate::judge::{
    close, ctor_fields, ctor_type, first_ctor, iota_result, is_named, major_induct, nat_ctor,
    op_named, opened, plain, projections, quot_pos, rule_for, str_ctor, unfolds, levels_declared, Ck, Theory,
};
use crate::ops::abstr_fits;
use crate::tree::{
    all_closed, apps, args, depth_bound, has_local, head, inst1, larger, loose, lv_simplify, subst,
    tm_lsubst, BinderStyle, Lv, Nm, Tm,
};
use vstd::prelude::*;

verus! {

/// The number that a term is.
pub open spec fn num_of(c: NameCache, t: Tm) -> Option<nat> {
    match t {
        Tm::NatLit(n) => Some(n),
        Tm::Const(z, _) => if is_named(c.nat_zero, z) {
            Some(0)
        } else {
            None
        },
        _ => None,
    }
}

/// The term that the outcome of an operation on numbers is.
pub open spec fn out_tm(c: NameCache, out: NatOut) -> Option<Tm> {
    match out {
        NatOut::Num(n) => Some(Tm::NatLit(n)),
        NatOut::Truth(b) => match if b {
            c.bool_true
        } else {
            c.bool_false
        } {
            Some(p) => Some(plain(p@)),
            None => None,
        },
    }
}

/// How many of the arguments the functions at the front of a term take.
pub open spec fn beta_count(f: Tm, n: nat) -> nat
    decreases f,
{
    match f {
        Tm::Lam(_, _, _, b) => if n == 0 {
            0
        } else {
            1 + beta_count(*b, (n - 1) as nat)
        },
        _ => 0,
    }
}

/// The body behind the first `k` functions.
pub open spec fn lam_drop(f: Tm, k: nat) -> Tm
    decreases k,
{
    if k == 0 {
        f
    } else {
        match f {
            Tm::Lam(_, _, _, b) => lam_drop(*b, (k - 1) as nat),
            _ => f,
        }
    }
}

/// The functions at the front take as many arguments as they can.
pub open spec fn beta_all(f: Tm, xs: Seq<Tm>) -> Tm {
    let k = beta_count(f, xs.len());
    apps(subst(lam_drop(f, k), xs.take(k as int), 0), xs.skip(k as int))
}

/// The first rule for a constructor.
pub open spec fn rule_at(rec: RecursorData, c: Nm) -> Option<int> {
    if exists|i: int| #[trigger] rule_for(rec.rec_rules@, c, i) {
        Some(choose|i: int| #[trigger] rule_for(rec.rec_rules@, c, i))
    } else {
        None
    }
}

/// There is one first rule.
pub proof fn rule_at_is(rec: RecursorData, c: Nm, i: int)
    requires
        rule_for(rec.rec_rules@, c, i),
    ensures
        rule_at(rec, c) == Some(i),
{
    let j = choose|i: int| #[trigger] rule_for(rec.rec_rules@, c, i);
    if j < i {
        assert(rec.rec_rules@[j].ctor_name@ != c);
    } else if i < j {
        assert(rec.rec_rules@[i].ctor_name@ != c);
    }
}

/// A structure as its constructor applied to the parameters in its type and to its
/// projections.
pub open spec fn eta_tm(th: Theory, ty: Tm, e: Tm) -> Option<Tm> {
    match head(ty) {
        Tm::Const(ind, ls) => match first_ctor(th, ind) {
            Some(c) => match (th.ctor_params(c), ctor_fields(th, c)) {
                (Some(m), Some(k)) => if m <= args(ty).len() {
                    Some(
                        apps(
                            apps(Tm::Const(c, ls), args(ty).take(m as int)),
                            projections(ind, e, k),
                        ),
                    )
                } else {
                    None
                },
                _ => None,
            },
            None => Some(e),
        },
        _ => Some(e),
    }
}

/// What a recursor applied to a major premise comes to, if there is a rule.
pub open spec fn fire_tm(rec: RecursorData, ls: Seq<Lv>, xs: Seq<Tm>, major: Tm) -> Option<Option<Tm>> {
    match head(major) {
        Tm::Const(c, _) => match rule_at(rec, c) {
            Some(i) => if args(major).len() >= rec.rec_rules@[i].ctor_telescope_size_wo_params {
                Some(Some(iota_result(rec, rec.rec_rules@[i], ls, xs, args(major))))
            } else {
                None
            },
            None => Some(None),
        },
        _ => Some(None),
    }
}

/// Weak head normal form without unfolding.
#[verifier::opaque]
pub open spec fn whnf_core_at(th: Theory, e: Tm, n: nat) -> Option<Tm>
    decreases n, 0nat,
{
    match e {
        Tm::Pi(_, _, _, _) | Tm::Lam(_, _, _, _) | Tm::Local(_, _, _, _) => Some(e),
        Tm::NatLit(_) | Tm::StrLit(_) => Some(e),
        Tm::Sort(l) => Some(Tm::Sort(lv_simplify(l))),
        Tm::App(_, _) | Tm::Const(_, _) | Tm::Let(_, _, _, _, _) | Tm::Proj(_, _, _) => if n == 0 {
            None
        } else {
            let m = (n - 1) as nat;
            let xs = args(e);
            match head(e) {
                Tm::Proj(_, i, s) => match proj_at(th, i, *s, m) {
                    Some(Some(p)) => whnf_core_at(th, apps(p, xs), m),
                    Some(None) => Some(e),
                    None => None,
                },
                Tm::Lam(nm, st, ty, b) => if all_closed(xs) {
                    whnf_core_at(th, beta_all(Tm::Lam(nm, st, ty, b), xs), m)
                } else {
                    None
                },
                Tm::Let(_, _, v, b, _) => whnf_core_at(th, apps(inst1(*b, *v), xs), m),
                Tm::Const(c, ls) => match quot_at(th, c, xs, m) {
                    Some(Some(p)) => whnf_core_at(th, p, m),
                    Some(None) => match rec_at(th, c, ls, xs, m) {
                        Some(Some(p)) => whnf_core_at(th, p, m),
                        Some(None) => Some(e),
                        None => None,
                    },
                    None => None,
                },
                Tm::Local(_, _, _, _) | Tm::NatLit(_) | Tm::StrLit(_) => Some(e),
                _ => None,
            }
        },
        _ => None,
    }
}

/// Weak head normal form.
#[verifier::opaque]
pub open spec fn whnf_at(th: Theory, e: Tm, n: nat) -> Option<Tm>
    decreases n, 0nat,
{
    match e {
        Tm::Pi(_, _, _, _) | Tm::Lam(_, _, _, _) | Tm::Local(_, _, _, _) => Some(e),
        Tm::NatLit(_) | Tm::StrLit(_) => Some(e),
        Tm::Sort(l) => Some(Tm::Sort(lv_simplify(l))),
        Tm::App(_, _) | Tm::Const(_, _) | Tm::Let(_, _, _, _, _) | Tm::Proj(_, _, _) => if n == 0 {
            None
        } else {
            whnf_go(th, e, n, (n - 1) as nat)
        },
        _ => None,
    }
}

/// Reduction without unfolding, operations on numbers and unfolding in turn, at most so many
/// times.
#[verifier::opaque]
pub open spec fn whnf_go(th: Theory, e: Tm, left: nat, m: nat) -> Option<Tm>
    decreases m, left + 1,
{
    if left == 0 {
        None
    } else {
        match whnf_core_at(th, e, m) {
            Some(w) => match nat_at(th, w, m) {
                Some(Some(p)) => whnf_go(th, p, (left - 1) as nat, m),
                Some(None) => match head(w) {
                    Tm::Const(c, ls) => match th.delta(c, ls) {
                        Some(v) => whnf_go(th, apps(v, args(w)), (left - 1) as nat, m),
                        None => Some(w),
                    },
                    _ => Some(w),
                },
                None => None,
            },
            None => None,
        }
    }
}

/// An operation on numbers that a term is, and what it gives.
#[verifier::opaque]
pub open spec fn nat_at(th: Theory, e: Tm, n: nat) -> Option<Option<Tm>>
    decreases n, 0nat,
{
    let xs = args(e);
    if !th.nat_ext || has_local(e) {
        Some(None)
    } else if n == 0 {
        None
    } else {
        match head(e) {
            Tm::Const(c, _) => if xs.len() == 1 {
                if is_named(th.names.nat_succ, c) {
                    match whnf_at(th, xs[0], (n - 1) as nat) {
                        Some(v) => match num_of(th.names, v) {
                            Some(k) => Some(Some(Tm::NatLit(k + 1))),
                            None => Some(None),
                        },
                        None => None,
                    }
                } else {
                    Some(None)
                }
            } else if xs.len() == 2 {
                match op_named(th.names, c) {
                    Some(op) => bin_at(th, xs[0], xs[1], op, (n - 1) as nat),
                    None => Some(None),
                }
            } else {
                Some(None)
            },
            _ => Some(None),
        }
    }
}

/// A binary operation on what two terms reduce to.
#[verifier::opaque]
pub open spec fn bin_at(th: Theory, x: Tm, y: Tm, op: NatBinOp, n: nat) -> Option<Option<Tm>>
    decreases n, 0nat,
{
    if n == 0 {
        None
    } else {
        match (whnf_at(th, x, (n - 1) as nat), whnf_at(th, y, (n - 1) as nat)) {
            (Some(a), Some(b)) => match (num_of(th.names, a), num_of(th.names, b)) {
                (Some(i), Some(j)) => if !th.nat_ext {
                    Some(None)
                } else if bin_fits(op, i, j) {
                    Some(out_tm(th.names, nat_bin_out(op, i, j)))
                } else {
                    None
                },
                _ => Some(None),
            },
            _ => None,
        }
    }
}

/// The term that a string stands for, reduced.
#[verifier::opaque]
pub open spec fn str_at(th: Theory, s: Seq<char>, n: nat) -> Option<Option<Tm>>
    decreases n, 0nat,
{
    if n == 0 {
        None
    } else if !th.nat_ext {
        Some(None)
    } else {
        match str_ctor(th.names, s) {
            Some(c) => match whnf_at(th, c, (n - 1) as nat) {
                Some(w) => Some(Some(w)),
                None => None,
            },
            None => Some(None),
        }
    }
}

/// A field of what a structure reduces to.
#[verifier::opaque]
pub open spec fn proj_at(th: Theory, i: nat, s: Tm, n: nat) -> Option<Option<Tm>>
    decreases n, 0nat,
{
    if n == 0 {
        None
    } else {
        match whnf_at(th, s, (n - 1) as nat) {
            Some(w) => match w {
                Tm::StrLit(x) => match str_at(th, x, (n - 1) as nat) {
                    Some(Some(c)) => field_tm(th, i, c),
                    Some(None) => field_tm(th, i, w),
                    None => None,
                },
                _ => field_tm(th, i, w),
            },
            None => None,
        }
    }
}

/// A field of a constructor.
pub open spec fn field_tm(th: Theory, i: nat, w: Tm) -> Option<Option<Tm>> {
    match head(w) {
        Tm::Const(c, _) => match th.ctor_params(c) {
            Some(m) => if m + i < args(w).len() {
                Some(Some(args(w)[m + i as int]))
            } else {
                None
            },
            None => Some(None),
        },
        _ => Some(None),
    }
}

/// What an eliminator of quotients comes to.
#[verifier::opaque]
pub open spec fn quot_at(th: Theory, c: Nm, xs: Seq<Tm>, n: nat) -> Option<Option<Tm>>
    decreases n, 0nat,
{
    match quot_pos(th.names, c) {
        Some(pos) => if !th.is_quot(c) || th.names.quot_lift is None || pos >= xs.len() {
            Some(None)
        } else if n == 0 {
            None
        } else {
            match whnf_at(th, xs[pos as int], (n - 1) as nat) {
                Some(q) => Some(quot_tm(th, xs, pos, q)),
                None => None,
            }
        },
        None => Some(None),
    }
}

/// What an eliminator of quotients applied to a member of a class is.
pub open spec fn quot_tm(th: Theory, xs: Seq<Tm>, pos: nat, q: Tm) -> Option<Tm> {
    match head(q) {
        Tm::Const(m, _) => if is_named(th.names.quot_mk, m) && args(q).len() == 3 {
            Some(
                apps(
                    Tm::App(Box::new(xs[3]), Box::new(args(q)[2])),
                    xs.skip(pos as int + 1),
                ),
            )
        } else {
            None
        },
        _ => None,
    }
}

/// What a recursor comes to.
#[verifier::opaque]
pub open spec fn rec_at(th: Theory, c: Nm, ls: Seq<Lv>, xs: Seq<Tm>, n: nat) -> Option<Option<Tm>>
    decreases n, 0nat,
{
    match th.recursor(c) {
        Some(rec) => if xs.len() <= rec.major_pos() {
            Some(None)
        } else if n == 0 {
            None
        } else {
            let m = (n - 1) as nat;
            let start = xs[rec.major_pos() as int];
            match k_at(th, rec, start, m) {
                Some(k) => match whnf_at(
                    th,
                    match k {
                        Some(p) => p,
                        None => start,
                    },
                    m,
                ) {
                    Some(w) => match major_at(th, rec, w, m) {
                        Some(major) => fire_tm(rec, ls, xs, major),
                        None => None,
                    },
                    None => None,
                },
                None => None,
            }
        },
        None => Some(None),
    }
}

/// The constructor that a reduced major premise stands for, or the premise itself.
#[verifier::opaque]
pub open spec fn major_at(th: Theory, rec: RecursorData, w: Tm, n: nat) -> Option<Tm>
    decreases n, 1nat,
{
    match w {
        Tm::NatLit(k) => if th.nat_ext {
            match nat_ctor(th.names, k) {
                Some(c) => Some(c),
                None => Some(w),
            }
        } else {
            Some(w)
        },
        Tm::StrLit(s) => match str_at(th, s, n) {
            Some(Some(c)) => Some(c),
            Some(None) => Some(w),
            None => None,
        },
        _ => match major_induct(rec) {
            Some(ind) => eta_at(th, ind, w, n),
            None => None,
        },
    }
}

/// The constructor that the major premise is taken for by its type alone. There is no answer
/// where the types are not bound to be found equal.
#[verifier::opaque]
pub open spec fn k_at(th: Theory, rec: RecursorData, major: Tm, n: nat) -> Option<Option<Tm>>
    decreases n, 0nat,
{
    if !rec.is_k {
        Some(None)
    } else if n == 0 {
        None
    } else {
        match type_whnf_at(th, major, (n - 1) as nat) {
            Some(ty) => match head(ty) {
                Tm::Const(ind, ls) => if major_induct(rec) != Some(ind) {
                    Some(None)
                } else {
                    match first_ctor(th, ind) {
                        Some(c) => {
                            let np = if rec.num_params <= args(ty).len() {
                                rec.num_params as int
                            } else {
                                args(ty).len() as int
                            };
                            let p = apps(Tm::Const(c, ls), args(ty).take(np));
                            match type_at(th, p, (n - 1) as nat) {
                                Some(u) => if deq_at(th, ty, u, false, (n - 1) as nat) {
                                    Some(Some(p))
                                } else {
                                    None
                                },
                                None => None,
                            }
                        },
                        None => Some(None),
                    }
                },
                _ => Some(None),
            },
            None => None,
        }
    }
}

/// The major premise of a recursor for a structure as the constructor of its projections.
#[verifier::opaque]
pub open spec fn eta_at(th: Theory, ind: Nm, e: Tm, n: nat) -> Option<Tm>
    decreases n, 0nat,
{
    if !th.is_struct(ind) || (head(e) matches Tm::Const(c, _) && th.ctor_params(c) is Some) {
        Some(e)
    } else if n == 0 {
        None
    } else {
        match type_whnf_at(th, e, (n - 1) as nat) {
            Some(ty) => match head(ty) {
                Tm::Const(c, _) => if c != ind {
                    Some(e)
                } else {
                    match type_whnf_at(th, ty, (n - 1) as nat) {
                        Some(s) => if s == Tm::Sort(Lv::Zero) {
                            Some(e)
                        } else {
                            eta_tm(th, ty, e)
                        },
                        None => None,
                    }
                },
                _ => Some(e),
            },
            None => None,
        }
    }
}

/// The type of a term.
#[verifier::opaque]
pub open spec fn type_at(th: Theory, e: Tm, n: nat) -> Option<Tm>
    decreases n, 0nat,
{
    match e {
        Tm::Local(_, _, ty, _) => Some(*ty),
        Tm::Sort(l) => Some(Tm::Sort(Lv::Succ(Box::new(l)))),
        Tm::Const(c, ls) => if th.decls.contains_key(c) {
            Some(tm_lsubst(th.decls[c].about().ty@, th.decls[c].about().uparams@, ls))
        } else {
            None
        },
        Tm::NatLit(_) => match th.names.nat {
            Some(p) => if th.nat_ext {
                Some(plain(p@))
            } else {
                None
            },
            None => None,
        },
        Tm::StrLit(_) => match th.names.string {
            Some(p) => if th.str_ext {
                Some(plain(p@))
            } else {
                None
            },
            None => None,
        },
        Tm::App(_, _) => if n <= 1 {
            None
        } else {
            let m = (n - 2) as nat;
            match type_at(th, head(e), m) {
                Some(t) => spine_type_at(th, t, args(e), m),
                None => None,
            }
        },
        Tm::Lam(nm, st, ty, b) => if n <= 1 || depth_bound(e) >= 0xffff {
            None
        } else {
            let k = depth_bound(e) as u16;
            match type_at(th, inst1(*b, opened(nm, st, *ty, k)), (n - 2) as nat) {
                Some(t) => if abstr_fits(t, k as nat, k as nat + 1, 0) {
                    Some(Tm::Pi(nm, st, ty, Box::new(close(t, k))))
                } else {
                    None
                },
                None => None,
            }
        },
        Tm::Pi(_, _, _, _) => if n <= 1 {
            None
        } else {
            match pi_level_at(th, e, (n - 2) as nat) {
                Some(l) => Some(Tm::Sort(l)),
                None => None,
            }
        },
        Tm::Let(_, _, v, b, _) => if n <= 1 {
            None
        } else {
            type_at(th, inst1(*b, *v), (n - 2) as nat)
        },
        Tm::Proj(_, i, s) => if n == 0 {
            None
        } else {
            proj_type_at(th, i, *s, (n - 1) as nat)
        },
        _ => None,
    }
}

/// The range of a function type, one argument after the other put into it. A type that is
/// not written as a function type is reduced.
#[verifier::opaque]
pub open spec fn spine_type_at(th: Theory, t: Tm, xs: Seq<Tm>, m: nat) -> Option<Tm>
    decreases m, 1 + xs.len(),
{
    if xs.len() == 0 {
        Some(t)
    } else {
        match spine_type_at(th, t, xs.drop_last(), m) {
            Some(f) => match pi_at(th, f, m) {
                Some(Tm::Pi(_, _, _, b)) => Some(inst1(*b, xs.last())),
                _ => None,
            },
            None => None,
        }
    }
}

/// The function type that a term is or reduces to.
#[verifier::opaque]
pub open spec fn pi_at(th: Theory, f: Tm, m: nat) -> Option<Tm>
    decreases m, 0nat,
{
    match f {
        Tm::Pi(_, _, _, _) => Some(f),
        _ => if m == 0 {
            None
        } else {
            whnf_at(th, f, (m - 1) as nat)
        },
    }
}

/// The level of a function type, or of another type.
#[verifier::opaque]
pub open spec fn pi_level_at(th: Theory, e: Tm, n: nat) -> Option<Lv>
    decreases n, 0nat,
{
    if n == 0 {
        None
    } else {
        match e {
            Tm::Pi(nm, st, ty, b) => if depth_bound(e) >= 0xffff {
                None
            } else {
                let k = depth_bound(e) as u16;
                match (
                    sort_at(th, *ty, (n - 1) as nat),
                    pi_level_at(th, inst1(*b, opened(nm, st, *ty, k)), (n - 1) as nat),
                ) {
                    (Some(u), Some(v)) => Some(Lv::IMax(Box::new(u), Box::new(v))),
                    _ => None,
                }
            },
            _ => sort_at(th, e, (n - 1) as nat),
        }
    }
}

/// The type of a term, reduced.
#[verifier::opaque]
pub open spec fn type_whnf_at(th: Theory, e: Tm, n: nat) -> Option<Tm>
    decreases n, 0nat,
{
    if n == 0 {
        None
    } else {
        match type_at(th, e, (n - 1) as nat) {
            Some(t) => whnf_at(th, t, (n - 1) as nat),
            None => None,
        }
    }
}

/// The level of the universe that a term's type is.
#[verifier::opaque]
pub open spec fn sort_at(th: Theory, e: Tm, n: nat) -> Option<Lv>
    decreases n, 0nat,
{
    if n == 0 {
        None
    } else {
        match type_whnf_at(th, e, (n - 1) as nat) {
            Some(Tm::Sort(l)) => Some(l),
            _ => None,
        }
    }
}

/// Whether a term reduces to the universe of propositions.
#[verifier::opaque]
pub open spec fn zero_at(th: Theory, e: Tm, n: nat) -> Option<bool>
    decreases n, 0nat,
{
    if n == 0 {
        None
    } else {
        match whnf_at(th, e, (n - 1) as nat) {
            Some(w) => Some(w == Tm::Sort(Lv::Zero)),
            None => None,
        }
    }
}

/// Whether a term is a proposition.
#[verifier::opaque]
pub open spec fn prop_at(th: Theory, e: Tm, n: nat) -> Option<bool>
    decreases n, 0nat,
{
    if n == 0 {
        None
    } else {
        match type_at(th, e, (n - 1) as nat) {
            Some(t) => zero_at(th, t, (n - 1) as nat),
            None => None,
        }
    }
}

/// A constructor's type behind its parameters.
#[verifier::opaque]
pub open spec fn params_at(th: Theory, t: Tm, xs: Seq<Tm>, m: nat) -> Option<Tm>
    decreases m, 1 + xs.len(),
{
    if xs.len() == 0 {
        Some(t)
    } else {
        match params_at(th, t, xs.drop_last(), m) {
            Some(u) => match whnf_at(th, u, m) {
                Some(Tm::Pi(_, _, _, b)) => Some(inst1(*b, xs.last())),
                _ => None,
            },
            None => None,
        }
    }
}

/// A constructor's type behind its first fields, which are projections. A proof lets out no
/// data that later fields depend on.
#[verifier::opaque]
pub open spec fn fields_at(th: Theory, t: Tm, s: Tm, ind: Nm, j: nat, is_prop: bool, m: nat) -> Option<
    Tm,
>
    decreases m, 1 + j,
{
    if j == 0 {
        Some(t)
    } else {
        let i = (j - 1) as nat;
        match fields_at(th, t, s, ind, i, is_prop, m) {
            Some(u) => match whnf_at(th, u, m) {
                Some(Tm::Pi(_, _, a, b)) => if loose(*b) != 0 && is_prop && prop_at(th, *a, m) != Some(
                    true,
                ) {
                    None
                } else {
                    Some(inst1(*b, Tm::Proj(ind, i, Box::new(s))))
                },
                _ => None,
            },
            None => None,
        }
    }
}

/// The type of a projection.
#[verifier::opaque]
pub open spec fn proj_type_at(th: Theory, i: nat, s: Tm, n: nat) -> Option<Tm>
    decreases n, 0nat,
{
    if n == 0 {
        None
    } else {
        let m = (n - 1) as nat;
        match type_at(th, s, m) {
            Some(raw) => match whnf_at(th, raw, m) {
                Some(ty) => match (head(ty), prop_at(th, ty, m)) {
                    (Tm::Const(ind, ls), Some(is_prop)) => match (
                        th.inductive(ind),
                        ctor_type(th, ind, ls),
                    ) {
                        (Some(d), Some(cty)) => if d.num_params > args(ty).len() {
                            None
                        } else {
                            match params_at(th, cty, args(ty).take(d.num_params as int), m) {
                                Some(t1) => match fields_at(th, t1, s, ind, i, is_prop, m) {
                                    Some(u) => match whnf_at(th, u, m) {
                                        Some(Tm::Pi(_, _, a, _)) => if is_prop && prop_at(
                                            th,
                                            *a,
                                            m,
                                        ) != Some(true) {
                                            None
                                        } else {
                                            Some(*a)
                                        },
                                        _ => None,
                                    },
                                    None => None,
                                },
                                None => None,
                            }
                        },
                        _ => None,
                    },
                    _ => None,
                },
                None => None,
            },
            None => None,
        }
    }
}

/// The term reduced everywhere but in the types of binders. Types, and proofs, are left alone
/// where they are not asked for.
#[verifier::opaque]
pub open spec fn strong_at(th: Theory, e: Tm, types: bool, proofs: bool, n: nat) -> Option<Tm>
    decreases n, 0nat,
{
    if n == 0 {
        None
    } else {
        let m = (n - 1) as nat;
        match left_alone_at(th, e, types, proofs, m) {
            Some(true) => Some(e),
            Some(false) => match whnf_at(th, e, m) {
                Some(w) => inside_at(th, w, types, proofs, m),
                None => None,
            },
            None => None,
        }
    }
}

/// Whether the term is a type, or a proof, that is left alone.
pub open spec fn left_alone_at(th: Theory, e: Tm, types: bool, proofs: bool, m: nat) -> Option<bool> {
    if types && proofs {
        Some(false)
    } else {
        match type_at(th, e, m) {
            Some(ty) => if !types && ty is Sort {
                Some(true)
            } else if !proofs {
                prop_at(th, ty, m)
            } else {
                Some(false)
            },
            None => None,
        }
    }
}

/// What is inside a reduced term, reduced everywhere.
#[verifier::opaque]
pub open spec fn inside_at(th: Theory, w: Tm, types: bool, proofs: bool, n: nat) -> Option<Tm>
    decreases n, 0nat,
{
    if n == 0 {
        None
    } else {
        let m = (n - 1) as nat;
        match w {
            Tm::App(f, a) => match (
                strong_at(th, *f, types, proofs, m),
                strong_at(th, *a, types, proofs, m),
            ) {
                (Some(g), Some(b)) => Some(Tm::App(Box::new(g), Box::new(b))),
                _ => None,
            },
            Tm::Lam(nm, st, ty, b) => if depth_bound(w) >= 0xffff || n <= 1 {
                None
            } else {
                let k = depth_bound(w) as u16;
                match strong_at(
                    th,
                    inst1(*b, opened(nm, st, *ty, k)),
                    types,
                    proofs,
                    (n - 2) as nat,
                ) {
                    Some(t) => if abstr_fits(t, k as nat, k as nat + 1, 0) {
                        Some(Tm::Lam(nm, st, ty, Box::new(close(t, k))))
                    } else {
                        None
                    },
                    None => None,
                }
            },
            Tm::Pi(nm, st, ty, b) => if depth_bound(w) >= 0xffff || n <= 1 {
                None
            } else {
                let k = depth_bound(w) as u16;
                match strong_at(
                    th,
                    inst1(*b, opened(nm, st, *ty, k)),
                    types,
                    proofs,
                    (n - 2) as nat,
                ) {
                    Some(t) => if abstr_fits(t, k as nat, k as nat + 1, 0) {
                        Some(Tm::Pi(nm, st, ty, Box::new(close(t, k))))
                    } else {
                        None
                    },
                    None => None,
                }
            },
            Tm::Proj(nm, i, s) => match strong_at(th, *s, types, proofs, m) {
                Some(t) => {
                    let x = Tm::Proj(nm, i, Box::new(t));
                    match whnf_at(th, x, m) {
                        Some(y) => if y == x {
                            Some(x)
                        } else {
                            strong_at(th, y, types, proofs, m)
                        },
                        None => None,
                    }
                },
                None => None,
            },
            _ => Some(w),
        }
    }
}

/// This is what is inside, reduced everywhere, if there is an answer.
#[verifier::opaque]
pub open spec fn inside_says(th: Theory, w: Tm, types: bool, proofs: bool, out: Tm) -> bool {
    forall|n: nat| #[trigger]
        inside_at(th, w, types, proofs, n) is Some ==> inside_at(th, w, types, proofs, n) == Some(out)
}

/// This is the term reduced everywhere, if there is an answer.
pub open spec fn strong_says(th: Theory, e: Tm, types: bool, proofs: bool, out: Tm) -> bool {
    forall|n: nat| #[trigger]
        strong_at(th, e, types, proofs, n) is Some ==> strong_at(th, e, types, proofs, n) == Some(out)
}

/// The levels of two lists have the same simpler forms.
pub open spec fn levels_match(ls: Seq<Lv>, ms: Seq<Lv>) -> bool {
    ls.len() == ms.len() && forall|i: int|
        0 <= i < ls.len() ==> #[trigger] lv_simplify(ls[i]) == lv_simplify(ms[i])
}

/// Whether a term is a proof, and its type.
pub open spec fn proof_at(th: Theory, x: Tm, n: nat) -> Option<(bool, Tm)>
    decreases n, 0nat,
{
    if n == 0 {
        None
    } else {
        match type_at(th, x, (n - 1) as nat) {
            Some(t) => match prop_at(th, t, (n - 1) as nat) {
                Some(b) => Some((b, t)),
                None => None,
            },
            None => None,
        }
    }
}

/// The two terms are bound to be found to be proofs of one proposition.
pub open spec fn irrel_at(th: Theory, x: Tm, y: Tm, n: nat) -> bool {
    match (proof_at(th, x, n), proof_at(th, y, n)) {
        (Some((true, t)), Some((true, u))) => deq_at(th, t, u, false, n),
        _ => false,
    }
}

/// The two terms are bound to be found equal with so much fuel.
#[verifier::opaque]
pub open spec fn deq_at(th: Theory, x: Tm, y: Tm, skip: bool, n: nat) -> bool
    decreases n, 0nat,
{
    x == y || (n > 0 && {
        let m = (n - 1) as nat;
        if skip {
            deq_core_at(th, x, y, m)
        } else if m == 0 {
            false
        } else {
            match proof_at(th, x, (m - 1) as nat) {
                Some((true, t)) => match proof_at(th, y, (m - 1) as nat) {
                    Some((true, u)) => deq_at(th, t, u, false, (m - 1) as nat),
                    Some((false, _)) => deq_core_at(th, x, y, m),
                    None => false,
                },
                Some((false, _)) => deq_core_at(th, x, y, m),
                None => false,
            }
        }
    })
}

/// No amount of fuel makes it certain that the two terms are found equal.
pub open spec fn deq_never(th: Theory, x: Tm, y: Tm) -> bool {
    forall|n: nat| !#[trigger] deq_at(th, x, y, false, n)
}

/// The terms are bound to be found equal once they are reduced.
#[verifier::opaque]
pub open spec fn deq_core_at(th: Theory, x: Tm, y: Tm, n: nat) -> bool
    decreases n, 0nat,
{
    n > 0 && match (whnf_at(th, x, (n - 1) as nat), whnf_at(th, y, (n - 1) as nat)) {
        (Some(a), Some(b)) => deq_reduced_at(th, a, b, (n - 1) as nat),
        _ => false,
    }
}

/// The bodies of two binders are bound to be found equal at a variable of the type.
pub open spec fn at_variable(x: Tm, y: Tm, nm: Nm, st: BinderStyle, ty: Tm) -> Tm {
    opened(nm, st, ty, larger(depth_bound(x), depth_bound(y)) as u16)
}

/// The reduced terms are bound to be found equal.
#[verifier::opaque]
pub open spec fn deq_reduced_at(th: Theory, x: Tm, y: Tm, n: nat) -> bool
    decreases n, 0nat,
{
    x == y || match (x, y) {
        (Tm::Sort(l), Tm::Sort(k)) => lv_simplify(l) == lv_simplify(k),
        (Tm::Pi(nm, st, t, a), Tm::Pi(_, _, u, b)) => n > 2 && larger(depth_bound(x), depth_bound(y))
            < 0xffff && deq_at(th, *t, *u, false, (n - 1) as nat) && deq_at(
            th,
            inst1(*a, at_variable(x, y, nm, st, *t)),
            inst1(*b, at_variable(x, y, nm, st, *t)),
            false,
            (n - 2) as nat,
        ),
        (Tm::Lam(nm, st, t, a), Tm::Lam(_, _, u, b)) => n > 2 && larger(
            depth_bound(x),
            depth_bound(y),
        ) < 0xffff && deq_at(th, *t, *u, false, (n - 1) as nat) && deq_at(
            th,
            inst1(*a, at_variable(x, y, nm, st, *t)),
            inst1(*b, at_variable(x, y, nm, st, *t)),
            false,
            (n - 2) as nat,
        ),
        (Tm::Lam(_, _, _, _), _) => n > 0 && eta_deq_at(th, x, y, (n - 1) as nat),
        (_, Tm::Lam(_, _, _, _)) => n > 0 && eta_deq_at(th, y, x, (n - 1) as nat),
        _ => n > 0 && heads_at(th, head(x), head(y), (n - 1) as nat) && args(x).len() == args(
            y,
        ).len() && n > 1 && args_at(th, args(x), args(y), (n - 2) as nat),
    }
}

/// A function and another term are bound to be found equal by their values at a variable.
#[verifier::opaque]
pub open spec fn eta_deq_at(th: Theory, f: Tm, y: Tm, n: nat) -> bool
    decreases n, 0nat,
{
    n > 0 && larger(depth_bound(f), depth_bound(y)) < 0xffff && match type_at(
        th,
        y,
        (n - 1) as nat,
    ) {
        Some(raw) => match whnf_at(th, raw, (n - 1) as nat) {
            Some(Tm::Pi(_, _, dom, _)) => match f {
                Tm::Lam(nm, st, ty, b) => {
                    let v = at_variable(f, y, nm, st, *ty);
                    deq_at(th, *ty, *dom, false, (n - 1) as nat) && deq_at(
                        th,
                        inst1(*b, v),
                        Tm::App(Box::new(y), Box::new(v)),
                        false,
                        (n - 1) as nat,
                    )
                },
                _ => false,
            },
            _ => false,
        },
        None => false,
    }
}

/// The heads of two terms are bound to be found equal.
#[verifier::opaque]
pub open spec fn heads_at(th: Theory, f: Tm, g: Tm, n: nat) -> bool
    decreases n, 0nat,
{
    f == g || match (f, g) {
        (Tm::Const(a, ls), Tm::Const(b, ks)) => n > 0 && a == b && levels_match(ls, ks),
        (Tm::Proj(a, i, s), Tm::Proj(b, j, t)) => n > 0 && a == b && i == j && deq_at(
            th,
            *s,
            *t,
            false,
            (n - 1) as nat,
        ),
        _ => false,
    }
}

/// The arguments are bound to be found equal one by one.
#[verifier::opaque]
pub open spec fn args_at(th: Theory, xs: Seq<Tm>, ys: Seq<Tm>, m: nat) -> bool
    decreases m, 1 + xs.len(),
{
    if xs.len() == 0 || ys.len() == 0 {
        true
    } else {
        args_at(th, xs.drop_last(), ys.drop_last(), m) && deq_at(
            th,
            xs.last(),
            ys.last(),
            false,
            m,
        )
    }
}

/// The universe that a type is in is bound to be found, with everything checked.
pub open spec fn sort_checks_at(th: Theory, ck: Ck, ty: Tm, m: nat) -> bool
    decreases m, 1nat,
{
    m > 2 && checks_at(th, ck, ty, (m - 2) as nat) && sort_at(th, ty, m) is Some
}

/// The type of the term is bound to be found, with everything checked.
#[verifier::opaque]
pub open spec fn checks_at(th: Theory, ck: Ck, e: Tm, n: nat) -> bool
    decreases n, 0nat,
{
    match e {
        Tm::Local(_, _, _, _) => true,
        Tm::Sort(l) => levels_declared(ck, seq![l]),
        Tm::Const(c, ls) => th.decls.contains_key(c) && levels_declared(ck, ls),
        Tm::NatLit(_) => th.names.nat is Some && th.nat_ext,
        Tm::StrLit(_) => th.names.string is Some && th.str_ext,
        Tm::App(_, _) => n > 1 && {
            let m = (n - 2) as nat;
            checks_at(th, ck, head(e), m) && match type_at(th, head(e), m) {
                Some(t) => args_check_at(th, ck, t, args(e), m),
                None => false,
            }
        },
        Tm::Lam(nm, st, ty, b) => n > 1 && depth_bound(e) < 0xffff && {
            let m = (n - 2) as nat;
            let k = depth_bound(e) as u16;
            let i = inst1(*b, opened(nm, st, *ty, k));
            sort_checks_at(th, ck, *ty, m) && checks_at(th, ck, i, m) && match type_at(th, i, m) {
                Some(t) => abstr_fits(t, k as nat, k as nat + 1, 0),
                None => false,
            }
        },
        Tm::Pi(_, _, _, _) => n > 1 && level_checks_at(th, ck, e, (n - 2) as nat),
        Tm::Let(_, ty, v, b, _) => n > 2 && {
            let m = (n - 2) as nat;
            sort_checks_at(th, ck, *ty, m) && checks_at(th, ck, *v, m) && (match type_at(th, *v, m) {
                Some(t) => deq_at(th, t, *ty, false, (m - 1) as nat),
                None => false,
            }) && checks_at(th, ck, inst1(*b, *v), m)
        },
        Tm::Proj(_, i, s) => n > 1 && checks_at(th, ck, *s, (n - 2) as nat) && proj_type_at(
            th,
            i,
            *s,
            (n - 1) as nat,
        ) is Some,
        _ => false,
    }
}

/// Each argument is bound to be found to have the type that it should.
#[verifier::opaque]
pub open spec fn args_check_at(th: Theory, ck: Ck, t: Tm, xs: Seq<Tm>, m: nat) -> bool
    decreases m, 1 + xs.len(),
{
    if xs.len() == 0 {
        true
    } else {
        m > 0 && args_check_at(th, ck, t, xs.drop_last(), m) && match spine_type_at(
            th,
            t,
            xs.drop_last(),
            m,
        ) {
            Some(f) => match (pi_at(th, f, m), type_at(th, xs.last(), m)) {
                (Some(Tm::Pi(_, _, a, _)), Some(u)) => checks_at(th, ck, xs.last(), m) && deq_at(
                    th,
                    *a,
                    u,
                    false,
                    (m - 1) as nat,
                ),
                _ => false,
            },
            None => false,
        }
    }
}

/// The level of a function type is bound to be found, with everything checked.
#[verifier::opaque]
pub open spec fn level_checks_at(th: Theory, ck: Ck, e: Tm, n: nat) -> bool
    decreases n, 0nat,
{
    n > 0 && match e {
        Tm::Pi(nm, st, ty, b) => depth_bound(e) < 0xffff && sort_checks_at(
            th,
            ck,
            *ty,
            (n - 1) as nat,
        ) && level_checks_at(
            th,
            ck,
            inst1(*b, opened(nm, st, *ty, depth_bound(e) as u16)),
            (n - 1) as nat,
        ),
        _ => sort_checks_at(th, ck, e, (n - 1) as nat),
    }
}

/// One more argument is compared.
pub proof fn args_next(th: Theory, xs: Seq<Tm>, ys: Seq<Tm>, i: int, m: nat)
    requires
        0 <= i < xs.len(),
        xs.len() == ys.len(),
        args_at(th, xs, ys, m),
    ensures
        deq_at(th, xs[i], ys[i], false, m),
    decreases xs.len(),
{
    reveal(args_at);
    reveal(deq_at);
    if i < xs.len() - 1 {
        args_next(th, xs.drop_last(), ys.drop_last(), i, m);
    }
}

/// One more argument is checked.
pub proof fn args_check_next(th: Theory, ck: Ck, t: Tm, xs: Seq<Tm>, i: int, m: nat)
    requires
        0 <= i < xs.len(),
        args_check_at(th, ck, t, xs, m),
    ensures
        m > 0,
        spine_type_at(th, t, xs.take(i), m) is Some,
        pi_at(th, spine_type_at(th, t, xs.take(i), m)->0, m) matches Some(Tm::Pi(_, _, a, _))
            && type_at(th, xs[i], m) matches Some(u) && checks_at(th, ck, xs[i], m) && deq_at(
            th,
            *a,
            u,
            false,
            (m - 1) as nat,
        ),
    decreases xs.len(),
{
    reveal(args_check_at);
    reveal(checks_at);
    if i < xs.len() - 1 {
        args_check_next(th, ck, t, xs.drop_last(), i, m);
        assert(xs.drop_last().take(i) =~= xs.take(i));
    } else {
        assert(xs.drop_last() =~= xs.take(i));
    }
}

/// The level of the universe that a type is found to be in, with everything checked.
pub open spec fn level_found_at(th: Theory, ck: Ck, e: Tm, n: nat) -> Option<Lv> {
    if n <= 1 || !checks_at(th, ck, e, (n - 1) as nat) {
        None
    } else {
        match type_at(th, e, (n - 1) as nat) {
            Some(Tm::Sort(l)) => Some(l),
            Some(t) => match whnf_at(th, t, (n - 2) as nat) {
                Some(Tm::Sort(l)) => Some(l),
                _ => None,
            },
            None => None,
        }
    }
}

/// The term is bound to be found to have the type, with everything checked.
pub open spec fn has_type_at(th: Theory, ck: Ck, v: Tm, ty: Tm, n: nat) -> bool {
    n > 0 && checks_at(th, ck, v, n) && match type_at(th, v, n) {
        Some(t) => deq_at(th, t, ty, false, (n - 1) as nat),
        None => false,
    }
}

/// The term is what the strategy without unfolding gives, if it gives an answer.
#[verifier::opaque]
pub open spec fn core_says(th: Theory, e: Tm, w: Tm) -> bool {
    forall|n: nat| #[trigger] whnf_core_at(th, e, n) is Some ==> whnf_core_at(th, e, n) == Some(w)
}

/// The term is what the strategy for reduction gives, if it gives an answer.
#[verifier::opaque]
pub open spec fn whnf_says(th: Theory, e: Tm, w: Tm) -> bool {
    forall|n: nat| #[trigger] whnf_at(th, e, n) is Some ==> whnf_at(th, e, n) == Some(w)
}

/// The term is what the strategy for types gives, if it gives an answer.
#[verifier::opaque]
pub open spec fn type_says(th: Theory, e: Tm, t: Tm) -> bool {
    forall|n: nat| #[trigger] type_at(th, e, n) is Some ==> type_at(th, e, n) == Some(t)
}

/// The term is what reduction, operations on numbers and unfolding in turn give.
pub open spec fn go_says(th: Theory, e: Tm, w: Tm) -> bool {
    forall|left: nat, m: nat| #[trigger]
        whnf_go(th, e, left, m) is Some ==> whnf_go(th, e, left, m) == Some(w)
}

/// This is what the operation on numbers gives, if there is an answer.
pub open spec fn nat_says(th: Theory, e: Tm, o: Option<Tm>) -> bool {
    forall|n: nat| #[trigger] nat_at(th, e, n) is Some ==> nat_at(th, e, n) == Some(o)
}

/// This is what the binary operation gives, if there is an answer.
pub open spec fn bin_says(th: Theory, x: Tm, y: Tm, op: NatBinOp, o: Option<Tm>) -> bool {
    forall|n: nat| #[trigger] bin_at(th, x, y, op, n) is Some ==> bin_at(th, x, y, op, n) == Some(o)
}

/// This is what the string is reduced to, if there is an answer.
pub open spec fn str_says(th: Theory, s: Seq<char>, o: Option<Tm>) -> bool {
    forall|n: nat| #[trigger] str_at(th, s, n) is Some ==> str_at(th, s, n) == Some(o)
}

/// This is the field that is projected, if there is an answer.
pub open spec fn proj_says(th: Theory, i: nat, s: Tm, o: Option<Tm>) -> bool {
    forall|n: nat| #[trigger] proj_at(th, i, s, n) is Some ==> proj_at(th, i, s, n) == Some(o)
}

/// This is what the eliminator of quotients comes to, if there is an answer.
pub open spec fn quot_says(th: Theory, c: Nm, xs: Seq<Tm>, o: Option<Tm>) -> bool {
    forall|n: nat| #[trigger] quot_at(th, c, xs, n) is Some ==> quot_at(th, c, xs, n) == Some(o)
}

/// This is what the recursor comes to, if there is an answer.
pub open spec fn rec_says(th: Theory, c: Nm, ls: Seq<Lv>, xs: Seq<Tm>, o: Option<Tm>) -> bool {
    forall|n: nat| #[trigger] rec_at(th, c, ls, xs, n) is Some ==> rec_at(th, c, ls, xs, n) == Some(o)
}

/// This is the constructor that the major premise is taken for, if there is an answer.
pub open spec fn k_says(th: Theory, rec: RecursorData, major: Tm, o: Option<Tm>) -> bool {
    forall|n: nat| #[trigger] k_at(th, rec, major, n) is Some ==> k_at(th, rec, major, n) == Some(o)
}

/// This is what stands for the structure, if there is an answer.
pub open spec fn eta_says(th: Theory, ind: Nm, e: Tm, w: Tm) -> bool {
    forall|n: nat| #[trigger] eta_at(th, ind, e, n) is Some ==> eta_at(th, ind, e, n) == Some(w)
}

/// This is the reduced type, if there is an answer.
pub open spec fn type_whnf_says(th: Theory, e: Tm, w: Tm) -> bool {
    forall|n: nat| #[trigger] type_whnf_at(th, e, n) is Some ==> type_whnf_at(th, e, n) == Some(w)
}

/// This is the level of the type, if there is an answer.
pub open spec fn sort_says(th: Theory, e: Tm, l: Lv) -> bool {
    forall|n: nat| #[trigger] sort_at(th, e, n) is Some ==> sort_at(th, e, n) == Some(l)
}

/// This is the level of the function type, if there is an answer.
pub open spec fn level_says(th: Theory, e: Tm, l: Lv) -> bool {
    forall|n: nat| #[trigger] pi_level_at(th, e, n) is Some ==> pi_level_at(th, e, n) == Some(l)
}

/// This tells whether the term is the universe of propositions, if there is an answer.
pub open spec fn zero_says(th: Theory, e: Tm, b: bool) -> bool {
    forall|n: nat| #[trigger] zero_at(th, e, n) is Some ==> zero_at(th, e, n) == Some(b)
}

/// This tells whether the term is a proposition, if there is an answer.
pub open spec fn prop_says(th: Theory, e: Tm, b: bool) -> bool {
    forall|n: nat| #[trigger] prop_at(th, e, n) is Some ==> prop_at(th, e, n) == Some(b)
}

/// This is the type of the projection, if there is an answer.
pub open spec fn proj_type_says(th: Theory, i: nat, s: Tm, t: Tm) -> bool {
    forall|n: nat| #[trigger] proj_type_at(th, i, s, n) is Some ==> proj_type_at(th, i, s, n) == Some(t)
}

/// Reduction goes on from what a step gives.
pub proof fn go_step(th: Theory, e: Tm, w: Tm, next: Tm, out: Tm)
    requires
        core_says(th, e, w),
        nat_says(th, w, Some(next)) || (nat_says(th, w, None) && unfolds(th, w) && next == apps(
            th.delta(head(w)->Const_0, head(w)->Const_1)->0,
            args(w),
        )),
        go_says(th, next, out),
    ensures
        go_says(th, e, out),
{
    reveal(core_says);
    reveal(whnf_go);
    reveal(whnf_core_at);
    reveal(nat_at);
    assert forall|left: nat, m: nat| #[trigger] whnf_go(th, e, left, m) is Some implies whnf_go(
        th,
        e,
        left,
        m,
    ) == Some(out) by {
        assert(whnf_core_at(th, e, m) == Some(w));
        assert(nat_at(th, w, m) is Some);
        assert(whnf_go(th, e, left, m) == whnf_go(th, next, (left - 1) as nat, m));
    }
}

/// Where there is an answer, reduction without unfolding has one.
pub proof fn go_core(th: Theory, e: Tm, left: nat, m: nat)
    requires
        left > 0,
        whnf_go(th, e, left, m) is Some,
    ensures
        whnf_core_at(th, e, m) is Some,
{
    reveal(whnf_go);
    reveal(whnf_core_at);
}

/// Where there is an answer, it is known whether there is an operation on numbers.
pub proof fn go_nat(th: Theory, e: Tm, left: nat, m: nat, w: Tm)
    requires
        left > 0,
        whnf_go(th, e, left, m) is Some,
        core_says(th, e, w),
    ensures
        nat_at(th, w, m) is Some,
{
    reveal(whnf_go);
    reveal(whnf_core_at);
    reveal(nat_at);
    reveal(core_says);
    assert(whnf_core_at(th, e, m) == Some(w));
}

/// Where there is an answer, there is one for what a step gives.
pub proof fn go_needs(th: Theory, e: Tm, left: nat, m: nat, w: Tm, next: Tm)
    requires
        left > 0,
        whnf_go(th, e, left, m) is Some,
        core_says(th, e, w),
        nat_says(th, w, Some(next)) || (nat_says(th, w, None) && unfolds(th, w) && next == apps(
            th.delta(head(w)->Const_0, head(w)->Const_1)->0,
            args(w),
        )),
    ensures
        whnf_go(th, next, (left - 1) as nat, m) is Some,
{
    reveal(whnf_go);
    reveal(whnf_core_at);
    reveal(nat_at);
    reveal(core_says);
    assert(whnf_core_at(th, e, m) == Some(w));
    assert(nat_at(th, w, m) is Some);
}

/// Reduction is at its end.
pub proof fn go_end(th: Theory, e: Tm, w: Tm)
    requires
        core_says(th, e, w),
        nat_says(th, w, None),
        !unfolds(th, w),
    ensures
        go_says(th, e, w),
{
    reveal(core_says);
    reveal(whnf_go);
    reveal(whnf_core_at);
    reveal(nat_at);
    assert forall|left: nat, m: nat| #[trigger] whnf_go(th, e, left, m) is Some implies whnf_go(
        th,
        e,
        left,
        m,
    ) == Some(w) by {
        assert(whnf_core_at(th, e, m) == Some(w));
        assert(nat_at(th, w, m) is Some);
    }
}

/// The functions at the front are taken one by one.
pub proof fn lam_drop_next(f: Tm, k: nat)
    ensures
        lam_drop(f, k) matches Tm::Lam(_, _, _, b) ==> lam_drop(f, k + 1) == *b,
    decreases k,
{
    if k > 0 {
        if let Tm::Lam(_, _, _, b) = f {
            lam_drop_next(*b, (k - 1) as nat);
        }
    } else {
        if let Tm::Lam(_, _, _, b) = f {
            assert(lam_drop(*b, 0) == *b);
        }
    }
}

/// Nothing is reduced no times.
pub proof fn go_zero(th: Theory, e: Tm, m: nat)
    ensures
        whnf_go(th, e, 0, m) is None,
{
    reveal(whnf_go);
}

/// This is the function type, if there is an answer.
pub open spec fn pi_says(th: Theory, f: Tm, w: Tm) -> bool {
    forall|m: nat| #[trigger] pi_at(th, f, m) is Some ==> pi_at(th, f, m) == Some(w)
}

/// This is the range behind the arguments, if there is an answer.
pub open spec fn spine_says(th: Theory, t: Tm, xs: Seq<Tm>, w: Tm) -> bool {
    forall|m: nat| #[trigger] spine_type_at(th, t, xs, m) is Some ==> spine_type_at(th, t, xs, m)
        == Some(w)
}

/// Before there are arguments, the range is the type itself.
pub proof fn spine_none(th: Theory, t: Tm)
    ensures
        forall|m: nat| #[trigger] spine_type_at(th, t, Seq::empty(), m) == Some(t),
{
    reveal(spine_type_at);
}

/// One more argument is put into the range.
pub proof fn spine_next(th: Theory, t: Tm, xs: Seq<Tm>, i: int)
    requires
        0 <= i < xs.len(),
    ensures
        forall|m: nat| #[trigger]
            spine_type_at(th, t, xs.take(i + 1), m) == (match spine_type_at(th, t, xs.take(i), m) {
                Some(f) => match pi_at(th, f, m) {
                    Some(Tm::Pi(_, _, _, b)) => Some(inst1(*b, xs[i])),
                    _ => None,
                },
                None => None,
            }),
{
    reveal(spine_type_at);
    reveal(pi_at);
    assert(xs.take(i + 1).drop_last() =~= xs.take(i));
}

/// A range behind all arguments is one behind the first of them.
pub proof fn spine_take(th: Theory, t: Tm, xs: Seq<Tm>, i: int, m: nat)
    requires
        spine_type_at(th, t, xs, m) is Some,
        0 <= i <= xs.len(),
    ensures
        spine_type_at(th, t, xs.take(i), m) is Some,
    decreases xs.len(),
{
    if i == xs.len() {
        assert(xs.take(i) =~= xs);
    } else {
        reveal(spine_type_at);
        spine_take(th, t, xs.drop_last(), i, m);
        assert(xs.drop_last().take(i) =~= xs.take(i));
    }
}

/// This is the type behind the parameters, if there is an answer.
pub open spec fn params_says(th: Theory, t: Tm, xs: Seq<Tm>, w: Tm) -> bool {
    forall|m: nat| #[trigger] params_at(th, t, xs, m) is Some ==> params_at(th, t, xs, m) == Some(w)
}

/// Before there are parameters, the type is the constructor's own.
pub proof fn params_none(th: Theory, t: Tm)
    ensures
        forall|m: nat| #[trigger] params_at(th, t, Seq::empty(), m) == Some(t),
{
    reveal(params_at);
}

/// One more parameter is put into the type.
pub proof fn params_next(th: Theory, t: Tm, xs: Seq<Tm>, i: int)
    requires
        0 <= i < xs.len(),
    ensures
        forall|m: nat| #[trigger]
            params_at(th, t, xs.take(i + 1), m) == (match params_at(th, t, xs.take(i), m) {
                Some(u) => match whnf_at(th, u, m) {
                    Some(Tm::Pi(_, _, _, b)) => Some(inst1(*b, xs[i])),
                    _ => None,
                },
                None => None,
            }),
{
    reveal(params_at);
    reveal(whnf_at);
    assert(xs.take(i + 1).drop_last() =~= xs.take(i));
}

/// A type behind all parameters is one behind the first of them.
pub proof fn params_take(th: Theory, t: Tm, xs: Seq<Tm>, i: int, m: nat)
    requires
        params_at(th, t, xs, m) is Some,
        0 <= i <= xs.len(),
    ensures
        params_at(th, t, xs.take(i), m) is Some,
    decreases xs.len(),
{
    if i == xs.len() {
        assert(xs.take(i) =~= xs);
    } else {
        reveal(params_at);
        params_take(th, t, xs.drop_last(), i, m);
        assert(xs.drop_last().take(i) =~= xs.take(i));
    }
}

/// This is the type behind the fields, if there is an answer.
pub open spec fn fields_says(th: Theory, t: Tm, s: Tm, ind: Nm, j: nat, is_prop: bool, w: Tm) -> bool {
    forall|m: nat| #[trigger]
        fields_at(th, t, s, ind, j, is_prop, m) is Some ==> fields_at(th, t, s, ind, j, is_prop, m)
            == Some(w)
}

/// Before there are fields, the type is the one behind the parameters.
pub proof fn fields_none(th: Theory, t: Tm, s: Tm, ind: Nm, is_prop: bool)
    ensures
        forall|m: nat| #[trigger] fields_at(th, t, s, ind, 0, is_prop, m) == Some(t),
{
    reveal(fields_at);
}

/// One more field is put into the type.
pub proof fn fields_next(th: Theory, t: Tm, s: Tm, ind: Nm, i: nat, is_prop: bool)
    ensures
        forall|m: nat| #[trigger]
            fields_at(th, t, s, ind, i + 1, is_prop, m) == (match fields_at(
                th,
                t,
                s,
                ind,
                i,
                is_prop,
                m,
            ) {
                Some(u) => match whnf_at(th, u, m) {
                    Some(Tm::Pi(_, _, a, b)) => if loose(*b) != 0 && is_prop && prop_at(th, *a, m)
                        != Some(true) {
                        None
                    } else {
                        Some(inst1(*b, Tm::Proj(ind, i, Box::new(s))))
                    },
                    _ => None,
                },
                None => None,
            }),
{
    reveal(fields_at);
    reveal(whnf_at);
    reveal(prop_at);
}

/// A type behind all fields is one behind the first of them.
pub proof fn fields_take(th: Theory, t: Tm, s: Tm, ind: Nm, j: nat, i: nat, is_prop: bool, m: nat)
    requires
        fields_at(th, t, s, ind, j, is_prop, m) is Some,
        i <= j,
    ensures
        fields_at(th, t, s, ind, i, is_prop, m) is Some,
    decreases j,
{
    if i < j {
        reveal(fields_at);
        fields_take(th, t, s, ind, (j - 1) as nat, i, is_prop, m);
    }
}

/// What `whnf_core_at` comes to first.
pub proof fn whnf_core_first(th: Theory, e: Tm)
    ensures
        forall|n: nat| #[trigger]
            whnf_core_at(th, e, n) == ({
                match e {
                    Tm::Pi(_, _, _, _) | Tm::Lam(_, _, _, _) | Tm::Local(_, _, _, _) => Some(e),
                    Tm::NatLit(_) | Tm::StrLit(_) => Some(e),
                    Tm::Sort(l) => Some(Tm::Sort(lv_simplify(l))),
                    Tm::App(_, _) | Tm::Const(_, _) | Tm::Let(_, _, _, _, _) | Tm::Proj(_, _, _) => if n == 0 {
                        None
                    } else {
                        let m = (n - 1) as nat;
                        let xs = args(e);
                        match head(e) {
                            Tm::Proj(_, i, s) => match proj_at(th, i, *s, m) {
                                Some(Some(p)) => whnf_core_at(th, apps(p, xs), m),
                                Some(None) => Some(e),
                                None => None,
                            },
                            Tm::Lam(nm, st, ty, b) => if all_closed(xs) {
                                whnf_core_at(th, beta_all(Tm::Lam(nm, st, ty, b), xs), m)
                            } else {
                                None
                            },
                            Tm::Let(_, _, v, b, _) => whnf_core_at(th, apps(inst1(*b, *v), xs), m),
                            Tm::Const(c, ls) => match quot_at(th, c, xs, m) {
                                Some(Some(p)) => whnf_core_at(th, p, m),
                                Some(None) => match rec_at(th, c, ls, xs, m) {
                                    Some(Some(p)) => whnf_core_at(th, p, m),
                                    Some(None) => Some(e),
                                    None => None,
                                },
                                None => None,
                            },
                            Tm::Local(_, _, _, _) | Tm::NatLit(_) | Tm::StrLit(_) => Some(e),
                            _ => None,
                        }
                    },
                    _ => None,
                }
            }),
{
    reveal(whnf_core_at);
    reveal(proj_at);
    reveal(quot_at);
    reveal(rec_at);
}

/// What `whnf_at` comes to first.
pub proof fn whnf_first(th: Theory, e: Tm)
    ensures
        forall|n: nat| #[trigger]
            whnf_at(th, e, n) == ({
                match e {
                    Tm::Pi(_, _, _, _) | Tm::Lam(_, _, _, _) | Tm::Local(_, _, _, _) => Some(e),
                    Tm::NatLit(_) | Tm::StrLit(_) => Some(e),
                    Tm::Sort(l) => Some(Tm::Sort(lv_simplify(l))),
                    Tm::App(_, _) | Tm::Const(_, _) | Tm::Let(_, _, _, _, _) | Tm::Proj(_, _, _) => if n == 0 {
                        None
                    } else {
                        whnf_go(th, e, n, (n - 1) as nat)
                    },
                    _ => None,
                }
            }),
{
    reveal(whnf_at);
    reveal(whnf_go);
}

/// What `nat_at` comes to first.
pub proof fn nat_first(th: Theory, e: Tm)
    ensures
        forall|n: nat| #[trigger]
            nat_at(th, e, n) == ({
                let xs = args(e);
                if !th.nat_ext || has_local(e) {
                    Some(None)
                } else if n == 0 {
                    None
                } else {
                    match head(e) {
                        Tm::Const(c, _) => if xs.len() == 1 {
                            if is_named(th.names.nat_succ, c) {
                                match whnf_at(th, xs[0], (n - 1) as nat) {
                                    Some(v) => match num_of(th.names, v) {
                                        Some(k) => Some(Some(Tm::NatLit(k + 1))),
                                        None => Some(None),
                                    },
                                    None => None,
                                }
                            } else {
                                Some(None)
                            }
                        } else if xs.len() == 2 {
                            match op_named(th.names, c) {
                                Some(op) => bin_at(th, xs[0], xs[1], op, (n - 1) as nat),
                                None => Some(None),
                            }
                        } else {
                            Some(None)
                        },
                        _ => Some(None),
                    }
                }
            }),
{
    reveal(nat_at);
    reveal(whnf_at);
    reveal(bin_at);
}

/// What `bin_at` comes to first.
pub proof fn bin_first(th: Theory, x: Tm, y: Tm, op: NatBinOp)
    ensures
        forall|n: nat| #[trigger]
            bin_at(th, x, y, op, n) == ({
                if n == 0 {
                    None
                } else {
                    match (whnf_at(th, x, (n - 1) as nat), whnf_at(th, y, (n - 1) as nat)) {
                        (Some(a), Some(b)) => match (num_of(th.names, a), num_of(th.names, b)) {
                            (Some(i), Some(j)) => if !th.nat_ext {
                                Some(None)
                            } else if bin_fits(op, i, j) {
                                Some(out_tm(th.names, nat_bin_out(op, i, j)))
                            } else {
                                None
                            },
                            _ => Some(None),
                        },
                        _ => None,
                    }
                }
            }),
{
    reveal(bin_at);
    reveal(whnf_at);
}

/// What `str_at` comes to first.
pub proof fn str_first(th: Theory, s: Seq<char>)
    ensures
        forall|n: nat| #[trigger]
            str_at(th, s, n) == ({
                if n == 0 {
                    None
                } else if !th.nat_ext {
                    Some(None)
                } else {
                    match str_ctor(th.names, s) {
                        Some(c) => match whnf_at(th, c, (n - 1) as nat) {
                            Some(w) => Some(Some(w)),
                            None => None,
                        },
                        None => Some(None),
                    }
                }
            }),
{
    reveal(str_at);
    reveal(whnf_at);
}

/// What `proj_at` comes to first.
pub proof fn proj_first(th: Theory, i: nat, s: Tm)
    ensures
        forall|n: nat| #[trigger]
            proj_at(th, i, s, n) == ({
                if n == 0 {
                    None
                } else {
                    match whnf_at(th, s, (n - 1) as nat) {
                        Some(w) => match w {
                            Tm::StrLit(x) => match str_at(th, x, (n - 1) as nat) {
                                Some(Some(c)) => field_tm(th, i, c),
                                Some(None) => field_tm(th, i, w),
                                None => None,
                            },
                            _ => field_tm(th, i, w),
                        },
                        None => None,
                    }
                }
            }),
{
    reveal(proj_at);
    reveal(whnf_at);
    reveal(str_at);
}

/// What `quot_at` comes to first.
pub proof fn quot_first(th: Theory, c: Nm, xs: Seq<Tm>)
    ensures
        forall|n: nat| #[trigger]
            quot_at(th, c, xs, n) == ({
                match quot_pos(th.names, c) {
                    Some(pos) => if !th.is_quot(c) || th.names.quot_lift is None || pos >= xs.len() {
                        Some(None)
                    } else if n == 0 {
                        None
                    } else {
                        match whnf_at(th, xs[pos as int], (n - 1) as nat) {
                            Some(q) => Some(quot_tm(th, xs, pos, q)),
                            None => None,
                        }
                    },
                    None => Some(None),
                }
            }),
{
    reveal(quot_at);
    reveal(whnf_at);
}

/// What `rec_at` comes to first.
pub proof fn rec_first(th: Theory, c: Nm, ls: Seq<Lv>, xs: Seq<Tm>)
    ensures
        forall|n: nat| #[trigger]
            rec_at(th, c, ls, xs, n) == ({
                match th.recursor(c) {
                    Some(rec) => if xs.len() <= rec.major_pos() {
                        Some(None)
                    } else if n == 0 {
                        None
                    } else {
                        let m = (n - 1) as nat;
                        let start = xs[rec.major_pos() as int];
                        match k_at(th, rec, start, m) {
                            Some(k) => match whnf_at(
                                th,
                                match k {
                                    Some(p) => p,
                                    None => start,
                                },
                                m,
                            ) {
                                Some(w) => match major_at(th, rec, w, m) {
                                    Some(major) => fire_tm(rec, ls, xs, major),
                                    None => None,
                                },
                                None => None,
                            },
                            None => None,
                        }
                    },
                    None => Some(None),
                }
            }),
{
    reveal(rec_at);
    reveal(whnf_at);
    reveal(major_at);
    reveal(k_at);
}

/// What `major_at` comes to first.
pub proof fn major_first(th: Theory, rec: RecursorData, w: Tm)
    ensures
        forall|n: nat| #[trigger]
            major_at(th, rec, w, n) == ({
                match w {
                    Tm::NatLit(k) => if th.nat_ext {
                        match nat_ctor(th.names, k) {
                            Some(c) => Some(c),
                            None => Some(w),
                        }
                    } else {
                        Some(w)
                    },
                    Tm::StrLit(s) => match str_at(th, s, n) {
                        Some(Some(c)) => Some(c),
                        Some(None) => Some(w),
                        None => None,
                    },
                    _ => match major_induct(rec) {
                        Some(ind) => eta_at(th, ind, w, n),
                        None => None,
                    },
                }
            }),
{
    reveal(major_at);
    reveal(str_at);
    reveal(eta_at);
}

/// What `k_at` comes to first.
pub proof fn k_first(th: Theory, rec: RecursorData, major: Tm)
    ensures
        forall|n: nat| #[trigger]
            k_at(th, rec, major, n) == ({
                if !rec.is_k {
                    Some(None)
                } else if n == 0 {
                    None
                } else {
                    match type_whnf_at(th, major, (n - 1) as nat) {
                        Some(ty) => match head(ty) {
                            Tm::Const(ind, ls) => if major_induct(rec) != Some(ind) {
                                Some(None)
                            } else {
                                match first_ctor(th, ind) {
                                    Some(c) => {
                                        let np = if rec.num_params <= args(ty).len() {
                                            rec.num_params as int
                                        } else {
                                            args(ty).len() as int
                                        };
                                        let p = apps(Tm::Const(c, ls), args(ty).take(np));
                                        match type_at(th, p, (n - 1) as nat) {
                                            Some(u) => if deq_at(th, ty, u, false, (n - 1) as nat) {
                                                Some(Some(p))
                                            } else {
                                                None
                                            },
                                            None => None,
                                        }
                                    },
                                    None => Some(None),
                                }
                            },
                            _ => Some(None),
                        },
                        None => None,
                    }
                }
            }),
{
    reveal(k_at);
    reveal(type_at);
    reveal(type_whnf_at);
    reveal(deq_at);
}

/// What `eta_at` comes to first.
pub proof fn eta_first(th: Theory, ind: Nm, e: Tm)
    ensures
        forall|n: nat| #[trigger]
            eta_at(th, ind, e, n) == ({
                if !th.is_struct(ind) || (head(e) matches Tm::Const(c, _) && th.ctor_params(c) is Some) {
                    Some(e)
                } else if n == 0 {
                    None
                } else {
                    match type_whnf_at(th, e, (n - 1) as nat) {
                        Some(ty) => match head(ty) {
                            Tm::Const(c, _) => if c != ind {
                                Some(e)
                            } else {
                                match type_whnf_at(th, ty, (n - 1) as nat) {
                                    Some(s) => if s == Tm::Sort(Lv::Zero) {
                                        Some(e)
                                    } else {
                                        eta_tm(th, ty, e)
                                    },
                                    None => None,
                                }
                            },
                            _ => Some(e),
                        },
                        None => None,
                    }
                }
            }),
{
    reveal(eta_at);
    reveal(type_whnf_at);
}

/// What `type_at` comes to first.
pub proof fn type_first(th: Theory, e: Tm)
    ensures
        forall|n: nat| #[trigger]
            type_at(th, e, n) == ({
                match e {
                    Tm::Local(_, _, ty, _) => Some(*ty),
                    Tm::Sort(l) => Some(Tm::Sort(Lv::Succ(Box::new(l)))),
                    Tm::Const(c, ls) => if th.decls.contains_key(c) {
                        Some(tm_lsubst(th.decls[c].about().ty@, th.decls[c].about().uparams@, ls))
                    } else {
                        None
                    },
                    Tm::NatLit(_) => match th.names.nat {
                        Some(p) => if th.nat_ext {
                            Some(plain(p@))
                        } else {
                            None
                        },
                        None => None,
                    },
                    Tm::StrLit(_) => match th.names.string {
                        Some(p) => if th.str_ext {
                            Some(plain(p@))
                        } else {
                            None
                        },
                        None => None,
                    },
                    Tm::App(_, _) => if n <= 1 {
                        None
                    } else {
                        let m = (n - 2) as nat;
                        match type_at(th, head(e), m) {
                            Some(t) => spine_type_at(th, t, args(e), m),
                            None => None,
                        }
                    },
                    Tm::Lam(nm, st, ty, b) => if n <= 1 || depth_bound(e) >= 0xffff {
                        None
                    } else {
                        let k = depth_bound(e) as u16;
                        match type_at(th, inst1(*b, opened(nm, st, *ty, k)), (n - 2) as nat) {
                            Some(t) => if abstr_fits(t, k as nat, k as nat + 1, 0) {
                                Some(Tm::Pi(nm, st, ty, Box::new(close(t, k))))
                            } else {
                                None
                            },
                            None => None,
                        }
                    },
                    Tm::Pi(_, _, _, _) => if n <= 1 {
                        None
                    } else {
                        match pi_level_at(th, e, (n - 2) as nat) {
                            Some(l) => Some(Tm::Sort(l)),
                            None => None,
                        }
                    },
                    Tm::Let(_, _, v, b, _) => if n <= 1 {
                        None
                    } else {
                        type_at(th, inst1(*b, *v), (n - 2) as nat)
                    },
                    Tm::Proj(_, i, s) => if n == 0 {
                        None
                    } else {
                        proj_type_at(th, i, *s, (n - 1) as nat)
                    },
                    _ => None,
                }
            }),
{
    reveal(type_at);
    reveal(pi_level_at);
    reveal(proj_type_at);
    reveal(spine_type_at);
}

/// What `pi_at` comes to first.
pub proof fn pi_first(th: Theory, f: Tm)
    ensures
        forall|m: nat| #[trigger]
            pi_at(th, f, m) == ({
                match f {
                    Tm::Pi(_, _, _, _) => Some(f),
                    _ => if m == 0 {
                        None
                    } else {
                        whnf_at(th, f, (m - 1) as nat)
                    },
                }
            }),
{
    reveal(pi_at);
    reveal(whnf_at);
}

/// What `pi_level_at` comes to first.
pub proof fn pi_level_first(th: Theory, e: Tm)
    ensures
        forall|n: nat| #[trigger]
            pi_level_at(th, e, n) == ({
                if n == 0 {
                    None
                } else {
                    match e {
                        Tm::Pi(nm, st, ty, b) => if depth_bound(e) >= 0xffff {
                            None
                        } else {
                            let k = depth_bound(e) as u16;
                            match (
                                sort_at(th, *ty, (n - 1) as nat),
                                pi_level_at(th, inst1(*b, opened(nm, st, *ty, k)), (n - 1) as nat),
                            ) {
                                (Some(u), Some(v)) => Some(Lv::IMax(Box::new(u), Box::new(v))),
                                _ => None,
                            }
                        },
                        _ => sort_at(th, e, (n - 1) as nat),
                    }
                }
            }),
{
    reveal(pi_level_at);
    reveal(sort_at);
}

/// What `type_whnf_at` comes to first.
pub proof fn type_whnf_first(th: Theory, e: Tm)
    ensures
        forall|n: nat| #[trigger]
            type_whnf_at(th, e, n) == ({
                if n == 0 {
                    None
                } else {
                    match type_at(th, e, (n - 1) as nat) {
                        Some(t) => whnf_at(th, t, (n - 1) as nat),
                        None => None,
                    }
                }
            }),
{
    reveal(type_whnf_at);
    reveal(whnf_at);
    reveal(type_at);
}

/// What `sort_at` comes to first.
pub proof fn sort_first(th: Theory, e: Tm)
    ensures
        forall|n: nat| #[trigger]
            sort_at(th, e, n) == ({
                if n == 0 {
                    None
                } else {
                    match type_whnf_at(th, e, (n - 1) as nat) {
                        Some(Tm::Sort(l)) => Some(l),
                        _ => None,
                    }
                }
            }),
{
    reveal(sort_at);
    reveal(type_whnf_at);
}

/// What `zero_at` comes to first.
pub proof fn zero_first(th: Theory, e: Tm)
    ensures
        forall|n: nat| #[trigger]
            zero_at(th, e, n) == ({
                if n == 0 {
                    None
                } else {
                    match whnf_at(th, e, (n - 1) as nat) {
                        Some(w) => Some(w == Tm::Sort(Lv::Zero)),
                        None => None,
                    }
                }
            }),
{
    reveal(zero_at);
    reveal(whnf_at);
}

/// What `prop_at` comes to first.
pub proof fn prop_first(th: Theory, e: Tm)
    ensures
        forall|n: nat| #[trigger]
            prop_at(th, e, n) == ({
                if n == 0 {
                    None
                } else {
                    match type_at(th, e, (n - 1) as nat) {
                        Some(t) => zero_at(th, t, (n - 1) as nat),
                        None => None,
                    }
                }
            }),
{
    reveal(prop_at);
    reveal(type_at);
    reveal(zero_at);
}

/// What `proj_type_at` comes to first.
pub proof fn proj_type_first(th: Theory, i: nat, s: Tm)
    ensures
        forall|n: nat| #[trigger]
            proj_type_at(th, i, s, n) == ({
                if n == 0 {
                    None
                } else {
                    let m = (n - 1) as nat;
                    match type_at(th, s, m) {
                        Some(raw) => match whnf_at(th, raw, m) {
                            Some(ty) => match (head(ty), prop_at(th, ty, m)) {
                                (Tm::Const(ind, ls), Some(is_prop)) => match (
                                    th.inductive(ind),
                                    ctor_type(th, ind, ls),
                                ) {
                                    (Some(d), Some(cty)) => if d.num_params > args(ty).len() {
                                        None
                                    } else {
                                        match params_at(th, cty, args(ty).take(d.num_params as int), m) {
                                            Some(t1) => match fields_at(th, t1, s, ind, i, is_prop, m) {
                                                Some(u) => match whnf_at(th, u, m) {
                                                    Some(Tm::Pi(_, _, a, _)) => if is_prop && prop_at(
                                                        th,
                                                        *a,
                                                        m,
                                                    ) != Some(true) {
                                                        None
                                                    } else {
                                                        Some(*a)
                                                    },
                                                    _ => None,
                                                },
                                                None => None,
                                            },
                                            None => None,
                                        }
                                    },
                                    _ => None,
                                },
                                _ => None,
                            },
                            None => None,
                        },
                        None => None,
                    }
                }
            }),
{
    reveal(proj_type_at);
    reveal(whnf_at);
    reveal(type_at);
    reveal(prop_at);
    reveal(params_at);
    reveal(fields_at);
}

/// What `strong_at` comes to first.
pub proof fn strong_first(th: Theory, e: Tm, types: bool, proofs: bool)
    ensures
        forall|n: nat| #[trigger]
            strong_at(th, e, types, proofs, n) == ({
                if n == 0 {
                    None
                } else {
                    let m = (n - 1) as nat;
                    match left_alone_at(th, e, types, proofs, m) {
                        Some(true) => Some(e),
                        Some(false) => match whnf_at(th, e, m) {
                            Some(w) => inside_at(th, w, types, proofs, m),
                            None => None,
                        },
                        None => None,
                    }
                }
            }),
{
    reveal(strong_at);
    reveal(whnf_at);
    reveal(inside_at);
}

/// What `inside_at` comes to first.
pub proof fn inside_first(th: Theory, w: Tm, types: bool, proofs: bool)
    ensures
        forall|n: nat| #[trigger]
            inside_at(th, w, types, proofs, n) == ({
                if n == 0 {
                    None
                } else {
                    let m = (n - 1) as nat;
                    match w {
                        Tm::App(f, a) => match (
                            strong_at(th, *f, types, proofs, m),
                            strong_at(th, *a, types, proofs, m),
                        ) {
                            (Some(g), Some(b)) => Some(Tm::App(Box::new(g), Box::new(b))),
                            _ => None,
                        },
                        Tm::Lam(nm, st, ty, b) => if depth_bound(w) >= 0xffff || n <= 1 {
                            None
                        } else {
                            let k = depth_bound(w) as u16;
                            match strong_at(
                                th,
                                inst1(*b, opened(nm, st, *ty, k)),
                                types,
                                proofs,
                                (n - 2) as nat,
                            ) {
                                Some(t) => if abstr_fits(t, k as nat, k as nat + 1, 0) {
                                    Some(Tm::Lam(nm, st, ty, Box::new(close(t, k))))
                                } else {
                                    None
                                },
                                None => None,
                            }
                        },
                        Tm::Pi(nm, st, ty, b) => if depth_bound(w) >= 0xffff || n <= 1 {
                            None
                        } else {
                            let k = depth_bound(w) as u16;
                            match strong_at(
                                th,
                                inst1(*b, opened(nm, st, *ty, k)),
                                types,
                                proofs,
                                (n - 2) as nat,
                            ) {
                                Some(t) => if abstr_fits(t, k as nat, k as nat + 1, 0) {
                                    Some(Tm::Pi(nm, st, ty, Box::new(close(t, k))))
                                } else {
                                    None
                                },
                                None => None,
                            }
                        },
                        Tm::Proj(nm, i, s) => match strong_at(th, *s, types, proofs, m) {
                            Some(t) => {
                                let x = Tm::Proj(nm, i, Box::new(t));
                                match whnf_at(th, x, m) {
                                    Some(y) => if y == x {
                                        Some(x)
                                    } else {
                                        strong_at(th, y, types, proofs, m)
                                    },
                                    None => None,
                                }
                            },
                            None => None,
                        },
                        _ => Some(w),
                    }
                }
            }),
{
    reveal(inside_at);
    reveal(whnf_at);
    reveal(strong_at);
}

/// What `deq_at` comes to first.
pub proof fn deq_first(th: Theory, x: Tm, y: Tm, skip: bool)
    ensures
        forall|n: nat| #[trigger]
            deq_at(th, x, y, skip, n) == ({
                x == y || (n > 0 && {
                    let m = (n - 1) as nat;
                    if skip {
                        deq_core_at(th, x, y, m)
                    } else if m == 0 {
                        false
                    } else {
                        match proof_at(th, x, (m - 1) as nat) {
                            Some((true, t)) => match proof_at(th, y, (m - 1) as nat) {
                                Some((true, u)) => deq_at(th, t, u, false, (m - 1) as nat),
                                Some((false, _)) => deq_core_at(th, x, y, m),
                                None => false,
                            },
                            Some((false, _)) => deq_core_at(th, x, y, m),
                            None => false,
                        }
                    }
                })
            }),
{
    reveal(deq_at);
    reveal(deq_core_at);
}

/// What `deq_core_at` comes to first.
pub proof fn deq_core_first(th: Theory, x: Tm, y: Tm)
    ensures
        forall|n: nat| #[trigger]
            deq_core_at(th, x, y, n) == ({
                n > 0 && match (whnf_at(th, x, (n - 1) as nat), whnf_at(th, y, (n - 1) as nat)) {
                    (Some(a), Some(b)) => deq_reduced_at(th, a, b, (n - 1) as nat),
                    _ => false,
                }
            }),
{
    reveal(deq_core_at);
    reveal(whnf_at);
    reveal(deq_reduced_at);
}

/// What `deq_reduced_at` comes to first.
pub proof fn deq_reduced_first(th: Theory, x: Tm, y: Tm)
    ensures
        forall|n: nat| #[trigger]
            deq_reduced_at(th, x, y, n) == ({
                x == y || match (x, y) {
                    (Tm::Sort(l), Tm::Sort(k)) => lv_simplify(l) == lv_simplify(k),
                    (Tm::Pi(nm, st, t, a), Tm::Pi(_, _, u, b)) => n > 2 && larger(depth_bound(x), depth_bound(y))
                        < 0xffff && deq_at(th, *t, *u, false, (n - 1) as nat) && deq_at(
                        th,
                        inst1(*a, at_variable(x, y, nm, st, *t)),
                        inst1(*b, at_variable(x, y, nm, st, *t)),
                        false,
                        (n - 2) as nat,
                    ),
                    (Tm::Lam(nm, st, t, a), Tm::Lam(_, _, u, b)) => n > 2 && larger(
                        depth_bound(x),
                        depth_bound(y),
                    ) < 0xffff && deq_at(th, *t, *u, false, (n - 1) as nat) && deq_at(
                        th,
                        inst1(*a, at_variable(x, y, nm, st, *t)),
                        inst1(*b, at_variable(x, y, nm, st, *t)),
                        false,
                        (n - 2) as nat,
                    ),
                    (Tm::Lam(_, _, _, _), _) => n > 0 && eta_deq_at(th, x, y, (n - 1) as nat),
                    (_, Tm::Lam(_, _, _, _)) => n > 0 && eta_deq_at(th, y, x, (n - 1) as nat),
                    _ => n > 0 && heads_at(th, head(x), head(y), (n - 1) as nat) && args(x).len() == args(
                        y,
                    ).len() && n > 1 && args_at(th, args(x), args(y), (n - 2) as nat),
                }
            }),
{
    reveal(deq_reduced_at);
    reveal(deq_at);
    reveal(eta_deq_at);
    reveal(heads_at);
    reveal(args_at);
}

/// What `eta_deq_at` comes to first.
pub proof fn eta_deq_first(th: Theory, f: Tm, y: Tm)
    ensures
        forall|n: nat| #[trigger]
            eta_deq_at(th, f, y, n) == ({
                n > 0 && larger(depth_bound(f), depth_bound(y)) < 0xffff && match type_at(
                    th,
                    y,
                    (n - 1) as nat,
                ) {
                    Some(raw) => match whnf_at(th, raw, (n - 1) as nat) {
                        Some(Tm::Pi(_, _, dom, _)) => match f {
                            Tm::Lam(nm, st, ty, b) => {
                                let v = at_variable(f, y, nm, st, *ty);
                                deq_at(th, *ty, *dom, false, (n - 1) as nat) && deq_at(
                                    th,
                                    inst1(*b, v),
                                    Tm::App(Box::new(y), Box::new(v)),
                                    false,
                                    (n - 1) as nat,
                                )
                            },
                            _ => false,
                        },
                        _ => false,
                    },
                    None => false,
                }
            }),
{
    reveal(eta_deq_at);
    reveal(whnf_at);
    reveal(type_at);
    reveal(deq_at);
}

/// What `heads_at` comes to first.
pub proof fn heads_first(th: Theory, f: Tm, g: Tm)
    ensures
        forall|n: nat| #[trigger]
            heads_at(th, f, g, n) == ({
                f == g || match (f, g) {
                    (Tm::Const(a, ls), Tm::Const(b, ks)) => n > 0 && a == b && levels_match(ls, ks),
                    (Tm::Proj(a, i, s), Tm::Proj(b, j, t)) => n > 0 && a == b && i == j && deq_at(
                        th,
                        *s,
                        *t,
                        false,
                        (n - 1) as nat,
                    ),
                    _ => false,
                }
            }),
{
    reveal(heads_at);
    reveal(deq_at);
}

/// What `checks_at` comes to first.
pub proof fn checks_first(th: Theory, ck: Ck, e: Tm)
    ensures
        forall|n: nat| #[trigger]
            checks_at(th, ck, e, n) == ({
                match e {
                    Tm::Local(_, _, _, _) => true,
                    Tm::Sort(l) => levels_declared(ck, seq![l]),
                    Tm::Const(c, ls) => th.decls.contains_key(c) && levels_declared(ck, ls),
                    Tm::NatLit(_) => th.names.nat is Some && th.nat_ext,
                    Tm::StrLit(_) => th.names.string is Some && th.str_ext,
                    Tm::App(_, _) => n > 1 && {
                        let m = (n - 2) as nat;
                        checks_at(th, ck, head(e), m) && match type_at(th, head(e), m) {
                            Some(t) => args_check_at(th, ck, t, args(e), m),
                            None => false,
                        }
                    },
                    Tm::Lam(nm, st, ty, b) => n > 1 && depth_bound(e) < 0xffff && {
                        let m = (n - 2) as nat;
                        let k = depth_bound(e) as u16;
                        let i = inst1(*b, opened(nm, st, *ty, k));
                        sort_checks_at(th, ck, *ty, m) && checks_at(th, ck, i, m) && match type_at(th, i, m) {
                            Some(t) => abstr_fits(t, k as nat, k as nat + 1, 0),
                            None => false,
                        }
                    },
                    Tm::Pi(_, _, _, _) => n > 1 && level_checks_at(th, ck, e, (n - 2) as nat),
                    Tm::Let(_, ty, v, b, _) => n > 2 && {
                        let m = (n - 2) as nat;
                        sort_checks_at(th, ck, *ty, m) && checks_at(th, ck, *v, m) && (match type_at(th, *v, m) {
                            Some(t) => deq_at(th, t, *ty, false, (m - 1) as nat),
                            None => false,
                        }) && checks_at(th, ck, inst1(*b, *v), m)
                    },
                    Tm::Proj(_, i, s) => n > 1 && checks_at(th, ck, *s, (n - 2) as nat) && proj_type_at(
                        th,
                        i,
                        *s,
                        (n - 1) as nat,
                    ) is Some,
                    _ => false,
                }
            }),
{
    reveal(type_at);
    reveal(proj_type_at);
    reveal(deq_at);
    reveal(checks_at);
    reveal(level_checks_at);
    reveal(args_check_at);
}

/// What `level_checks_at` comes to first.
pub proof fn level_checks_first(th: Theory, ck: Ck, e: Tm)
    ensures
        forall|n: nat| #[trigger]
            level_checks_at(th, ck, e, n) == ({
                n > 0 && match e {
                    Tm::Pi(nm, st, ty, b) => depth_bound(e) < 0xffff && sort_checks_at(
                        th,
                        ck,
                        *ty,
                        (n - 1) as nat,
                    ) && level_checks_at(
                        th,
                        ck,
                        inst1(*b, opened(nm, st, *ty, depth_bound(e) as u16)),
                        (n - 1) as nat,
                    ),
                    _ => sort_checks_at(th, ck, e, (n - 1) as nat),
                }
            }),
{
    reveal(level_checks_at);
}

/// What `whnf_go` comes to first.
pub proof fn go_first(th: Theory, e: Tm, left: nat)
    ensures
        forall|m: nat| #[trigger]
            whnf_go(th, e, left, m) == ({
                if left == 0 {
                    None
                } else {
                    match whnf_core_at(th, e, m) {
                        Some(w) => match nat_at(th, w, m) {
                            Some(Some(p)) => whnf_go(th, p, (left - 1) as nat, m),
                            Some(None) => match head(w) {
                                Tm::Const(c, ls) => match th.delta(c, ls) {
                                    Some(v) => whnf_go(th, apps(v, args(w)), (left - 1) as nat, m),
                                    None => Some(w),
                                },
                                _ => Some(w),
                            },
                            None => None,
                        },
                        None => None,
                    }
                }
            }),
{
    reveal(whnf_core_at);
    reveal(nat_at);
    reveal(whnf_go);
}

/// What `spine_type_at` comes to first.
pub proof fn spine_type_first(th: Theory, t: Tm, xs: Seq<Tm>)
    ensures
        forall|m: nat| #[trigger]
            spine_type_at(th, t, xs, m) == ({
                if xs.len() == 0 {
                    Some(t)
                } else {
                    match spine_type_at(th, t, xs.drop_last(), m) {
                        Some(f) => match pi_at(th, f, m) {
                            Some(Tm::Pi(_, _, _, b)) => Some(inst1(*b, xs.last())),
                            _ => None,
                        },
                        None => None,
                    }
                }
            }),
{
    reveal(pi_at);
    reveal(spine_type_at);
}

/// What `params_at` comes to first.
pub proof fn params_first(th: Theory, t: Tm, xs: Seq<Tm>)
    ensures
        forall|m: nat| #[trigger]
            params_at(th, t, xs, m) == ({
                if xs.len() == 0 {
                    Some(t)
                } else {
                    match params_at(th, t, xs.drop_last(), m) {
                        Some(u) => match whnf_at(th, u, m) {
                            Some(Tm::Pi(_, _, _, b)) => Some(inst1(*b, xs.last())),
                            _ => None,
                        },
                        None => None,
                    }
                }
            }),
{
    reveal(whnf_at);
    reveal(params_at);
}

/// What `fields_at` comes to first.
pub proof fn fields_first(th: Theory, t: Tm, s: Tm, ind: Nm, j: nat, is_prop: bool)
    ensures
        forall|m: nat| #[trigger]
            fields_at(th, t, s, ind, j, is_prop, m) == ({
                if j == 0 {
                    Some(t)
                } else {
                    let i = (j - 1) as nat;
                    match fields_at(th, t, s, ind, i, is_prop, m) {
                        Some(u) => match whnf_at(th, u, m) {
                            Some(Tm::Pi(_, _, a, b)) => if loose(*b) != 0 && is_prop && prop_at(th, *a, m) != Some(
                                true,
                            ) {
                                None
                            } else {
                                Some(inst1(*b, Tm::Proj(ind, i, Box::new(s))))
                            },
                            _ => None,
                        },
                        None => None,
                    }
                }
            }),
{
    reveal(whnf_at);
    reveal(prop_at);
    reveal(fields_at);
}

/// What `args_at` comes to first.
pub proof fn args_first(th: Theory, xs: Seq<Tm>, ys: Seq<Tm>)
    ensures
        forall|m: nat| #[trigger]
            args_at(th, xs, ys, m) == ({
                if xs.len() == 0 || ys.len() == 0 {
                    true
                } else {
                    args_at(th, xs.drop_last(), ys.drop_last(), m) && deq_at(
                        th,
                        xs.last(),
                        ys.last(),
                        false,
                        m,
                    )
                }
            }),
{
    reveal(deq_at);
    reveal(args_at);
}

/// What `args_check_at` comes to first.
pub proof fn args_check_first(th: Theory, ck: Ck, t: Tm, xs: Seq<Tm>)
    ensures
        forall|m: nat| #[trigger]
            args_check_at(th, ck, t, xs, m) == ({
                if xs.len() == 0 {
                    true
                } else {
                    m > 0 && args_check_at(th, ck, t, xs.drop_last(), m) && match spine_type_at(
                        th,
                        t,
                        xs.drop_last(),
                        m,
                    ) {
                        Some(f) => match (pi_at(th, f, m), type_at(th, xs.last(), m)) {
                            (Some(Tm::Pi(_, _, a, _)), Some(u)) => checks_at(th, ck, xs.last(), m) && deq_at(
                                th,
                                *a,
                                u,
                                false,
                                (m - 1) as nat,
                            ),
                            _ => false,
                        },
                        None => false,
                    }
                }
            }),
{
    reveal(type_at);
    reveal(pi_at);
    reveal(deq_at);
    reveal(checks_at);
    reveal(spine_type_at);
    reveal(args_check_at);
}

} // verus!
