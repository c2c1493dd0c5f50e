//! What checking establishes: which terms reduce to which, which are equal by definition,
//! and which have which types. The judgements are defined by rules; a judgement holds if it
//! has a derivation.
use crate::bignum::{nat_bin_out, quotient, remainder, NatBinOp, NatOut};
use crate::ctx::NameCache;
use crate::env::{Declar, InductiveData, RecRule, RecursorData};
use crate::ptr::NamePtr;
use crate::tree::{
    abstr, apps, args, depth_bound, head, inst1, loose, lv_eval, lv_simplify, lvs_defined,
    tm_lsubst, BinderStyle, FVarId, Lv, Nm, Tm,
};
use vstd::prelude::*;

verus! {

/// What the judgements depend on: the declarations, the names that the checker knows, and
/// the literals that there are.
pub struct Theory {
    pub decls: Map<Nm, Declar>,
    pub names: NameCache,
    pub nat_ext: bool,
    pub str_ext: bool,
}

/// How much a type inference checks.
pub enum Ck {
    /// Types are determined up to reduction, and nothing is checked.
    Loose,
    /// Types are determined exactly, and arguments are not checked.
    Only,
    /// Everything is checked. Where a declaration is being checked, its universe parameters
    /// are given, and universe levels may refer to no others.
    Full(Option<Seq<Lv>>),
}

/// A judgement.
pub enum Judg {
    /// The first term reduces to the second.
    Red(Tm, Tm),
    /// The terms are equal by definition.
    Deq(Tm, Tm),
    /// The term has the type.
    Inf(Ck, Tm, Tm),
    /// The term is a proposition.
    Prop(Tm),
    /// From a structure of the first type a field of the second may be projected: the
    /// structure is no proposition, or the field is one.
    Field(Tm, Tm),
    /// The first type, applied to the arguments, is the second.
    Tele(Tm, Seq<Tm>, Tm),
    /// The type of a constructor behind its parameters, applied to the fields of a structure
    /// from one position up to another, is the last type. Given are how much is checked,
    /// the type of the structure, the type to apply, the structure, its type's name and
    /// the positions.
    Fields(Ck, Tm, Tm, Tm, Nm, nat, nat, Tm),
}

/// The name is the known one.
pub open spec fn is_named(known: Option<NamePtr>, n: Nm) -> bool {
    known matches Some(p) && p@ == n
}

/// The operation that a name stands for.
pub open spec fn op_named(c: NameCache, n: Nm) -> Option<NatBinOp> {
    if is_named(c.nat_add, n) {
        Some(NatBinOp::Add)
    } else if is_named(c.nat_sub, n) {
        Some(NatBinOp::Sub)
    } else if is_named(c.nat_mul, n) {
        Some(NatBinOp::Mul)
    } else if is_named(c.nat_pow, n) {
        Some(NatBinOp::Pow)
    } else if is_named(c.nat_mod, n) {
        Some(NatBinOp::Mod)
    } else if is_named(c.nat_div, n) {
        Some(NatBinOp::Div)
    } else if is_named(c.nat_beq, n) {
        Some(NatBinOp::Beq)
    } else if is_named(c.nat_ble, n) {
        Some(NatBinOp::Ble)
    } else if is_named(c.nat_land, n) {
        Some(NatBinOp::LAnd)
    } else if is_named(c.nat_lor, n) {
        Some(NatBinOp::LOr)
    } else if is_named(c.nat_xor, n) {
        Some(NatBinOp::XOr)
    } else if is_named(c.nat_gcd, n) {
        Some(NatBinOp::Gcd)
    } else if is_named(c.nat_shl, n) {
        Some(NatBinOp::Shl)
    } else if is_named(c.nat_shr, n) {
        Some(NatBinOp::Shr)
    } else {
        None
    }
}

/// The constant without universe arguments.
pub open spec fn plain(n: Nm) -> Tm {
    Tm::Const(n, Seq::empty())
}

/// The term is the outcome of an operation on numbers.
pub open spec fn is_nat_out(c: NameCache, out: NatOut, t: Tm) -> bool {
    match out {
        NatOut::Num(n) => t == Tm::NatLit(n),
        NatOut::Truth(b) => if b {
            c.bool_true matches Some(p) && t == plain(p@)
        } else {
            c.bool_false matches Some(p) && t == plain(p@)
        },
    }
}

/// The list of the characters from position `i` on, as a term.
pub open spec fn chars_tm(
    cons: Tm,
    nil: Tm,
    of_nat: Tm,
    s: Seq<char>,
    i: nat,
) -> Tm
    decreases s.len() - i,
{
    if i >= s.len() {
        nil
    } else {
        Tm::App(
            Box::new(
                Tm::App(
                    Box::new(cons),
                    Box::new(
                        Tm::App(
                            Box::new(of_nat),
                            Box::new(Tm::NatLit(s[i as int] as nat)),
                        ),
                    ),
                ),
            ),
            Box::new(chars_tm(cons, nil, of_nat, s, i + 1)),
        )
    }
}

/// The term that a string literal stands for: the string made of the list of its
/// characters.
pub open spec fn str_ctor(c: NameCache, s: Seq<char>) -> Option<Tm> {
    match (c.string_of_list, c.list_cons, c.list_nil, c.char, c.char_of_nat) {
        (Some(of_list), Some(cons), Some(nil), Some(ch), Some(of_nat)) => {
            let zero = seq![Lv::Zero];
            let cons_t = Tm::App(Box::new(Tm::Const(cons@, zero)), Box::new(plain(ch@)));
            let nil_t = Tm::App(Box::new(Tm::Const(nil@, zero)), Box::new(plain(ch@)));
            Some(
                Tm::App(
                    Box::new(plain(of_list@)),
                    Box::new(chars_tm(cons_t, nil_t, plain(of_nat@), s, 0)),
                ),
            )
        },
        _ => None,
    }
}

/// The term that a number literal stands for: zero, or the successor of a literal.
pub open spec fn nat_ctor(c: NameCache, n: nat) -> Option<Tm> {
    if n == 0 {
        match c.nat_zero {
            Some(z) => Some(plain(z@)),
            None => None,
        }
    } else {
        match c.nat_succ {
            Some(s) => Some(
                Tm::App(Box::new(plain(s@)), Box::new(Tm::NatLit((n - 1) as nat))),
            ),
            None => None,
        }
    }
}

impl Theory {
    /// The recursor of a name.
    pub open spec fn recursor(self, n: Nm) -> Option<RecursorData> {
        if self.decls.contains_key(n) {
            match self.decls[n] {
                Declar::Recursor(r) => Some(r),
                _ => None,
            }
        } else {
            None
        }
    }

    /// The inductive type of a name.
    pub open spec fn inductive(self, n: Nm) -> Option<InductiveData> {
        if self.decls.contains_key(n) {
            match self.decls[n] {
                Declar::Inductive(d) => Some(d),
                _ => None,
            }
        } else {
            None
        }
    }

    /// The number of parameters of a constructor.
    pub open spec fn ctor_params(self, n: Nm) -> Option<nat> {
        if self.decls.contains_key(n) {
            match self.decls[n] {
                Declar::Constructor(c) => Some(c.num_params as nat),
                _ => None,
            }
        } else {
            None
        }
    }

    /// The name is declared to belong to quotients.
    pub open spec fn is_quot(self, n: Nm) -> bool {
        self.decls.contains_key(n) && self.decls[n] is Quot
    }

    /// What a constant unfolds to.
    pub open spec fn delta(self, n: Nm, ls: Seq<Lv>) -> Option<Tm> {
        if self.decls.contains_key(n) {
            let d = self.decls[n];
            match d.value() {
                Some(v) => if d.about().uparams@.len() == ls.len() {
                    Some(tm_lsubst(v@, d.about().uparams@, ls))
                } else {
                    None
                },
                None => None,
            }
        } else {
            None
        }
    }

    /// The inductive type has one constructor and no indices, and does not occur in itself.
    pub open spec fn is_struct(self, n: Nm) -> bool {
        self.inductive(n) matches Some(d) && d.all_ctor_names@.len() == 1 && d.num_indices == 0
            && !d.is_recursive
    }
}

/// The body behind the first `k` binders of a function type.
pub open spec fn pi_drop(t: Tm, k: nat) -> Option<Tm>
    decreases k,
{
    if k == 0 {
        Some(t)
    } else {
        match t {
            Tm::Pi(_, _, _, b) => pi_drop(*b, (k - 1) as nat),
            _ => None,
        }
    }
}

/// The inductive type that the major premise of a recursor belongs to.
pub open spec fn major_induct(r: RecursorData) -> Option<Nm> {
    match pi_drop(r.info.ty@, r.major_pos()) {
        Some(Tm::Pi(_, _, dom, _)) => match head(*dom) {
            Tm::Const(n, _) => Some(n),
            _ => None,
        },
        _ => None,
    }
}

/// The rule with index `i` is the first one for the constructor.
pub open spec fn rule_for(rules: Seq<RecRule>, ctor: Nm, i: int) -> bool {
    &&& 0 <= i < rules.len()
    &&& rules[i].ctor_name@ == ctor
    &&& forall|j: int| 0 <= j < i ==> (#[trigger] rules[j]).ctor_name@ != ctor
}

/// What a recursor applied to a constructor is.
pub open spec fn iota_result(r: RecursorData, rule: RecRule, ls: Seq<Lv>, xs: Seq<Tm>, ys: Seq<Tm>) -> Tm {
    let size = rule.ctor_telescope_size_wo_params as int;
    apps(
        apps(
            apps(
                tm_lsubst(rule.val@, r.info.uparams@, ls),
                xs.take(r.num_fixed() as int),
            ),
            ys.skip(ys.len() - size),
        ),
        xs.skip(r.major_pos() as int + 1),
    )
}

/// A recursor meets a constructor.
pub open spec fn iota(th: Theory, a: Tm, b: Tm) -> bool {
    match head(a) {
        Tm::Const(n, ls) => match th.recursor(n) {
            Some(r) => {
                let xs = args(a);
                &&& xs.len() > r.major_pos()
                &&& match head(xs[r.major_pos() as int]) {
                    Tm::Const(c, _) => exists|i: int| #[trigger]
                        rule_for(r.rec_rules@, c, i) && args(xs[r.major_pos() as int]).len()
                            >= r.rec_rules@[i].ctor_telescope_size_wo_params && b == iota_result(
                            r,
                            r.rec_rules@[i],
                            ls,
                            xs,
                            args(xs[r.major_pos() as int]),
                        ),
                    _ => false,
                }
            },
            None => false,
        },
        _ => false,
    }
}

/// The position of the major premise of an eliminator of quotients.
pub open spec fn quot_pos(c: NameCache, n: Nm) -> Option<nat> {
    if is_named(c.quot_lift, n) {
        Some(5)
    } else if is_named(c.quot_ind, n) {
        Some(4)
    } else {
        None
    }
}

/// An eliminator of quotients meets a member of a class.
pub open spec fn quot_step(th: Theory, a: Tm, b: Tm) -> bool {
    match head(a) {
        Tm::Const(n, _) => th.is_quot(n) && match quot_pos(th.names, n) {
            Some(p) => {
                let xs = args(a);
                let m = xs[p as int];
                &&& xs.len() > p
                &&& head(m) matches Tm::Const(q, _) && is_named(th.names.quot_mk, q)
                &&& args(m).len() == 3
                &&& b == apps(Tm::App(Box::new(xs[3]), Box::new(args(m)[2])), xs.skip(p as int + 1))
            },
            None => false,
        },
        _ => false,
    }
}

/// An operation on numbers meets literals.
pub open spec fn nat_step(th: Theory, a: Tm, b: Tm) -> bool {
    &&& th.nat_ext
    &&& match head(a) {
        Tm::Const(n, _) => {
            let xs = args(a);
            ||| {
                &&& is_named(th.names.nat_zero, n)
                &&& xs.len() == 0
                &&& b == Tm::NatLit(0)
            }
            ||| {
                &&& is_named(th.names.nat_succ, n)
                &&& xs.len() == 1
                &&& xs[0] matches Tm::NatLit(x) && b == Tm::NatLit(x + 1)
            }
            ||| {
                &&& xs.len() == 2
                &&& xs[0] is NatLit
                &&& xs[1] is NatLit
                &&& op_named(th.names, n) matches Some(op) && is_nat_out(
                    th.names,
                    nat_bin_out(op, xs[0]->NatLit_0, xs[1]->NatLit_0),
                    b,
                )
            }
            ||| {
                &&& xs.len() == 5
                &&& xs[0] is NatLit
                &&& xs[3] is NatLit
                &&& if is_named(th.names.nat_div_go, n) {
                    b == Tm::NatLit(quotient(xs[3]->NatLit_0, xs[0]->NatLit_0))
                } else {
                    is_named(th.names.nat_mod_core_go, n) && b == Tm::NatLit(
                        remainder(xs[3]->NatLit_0, xs[0]->NatLit_0),
                    )
                }
            }
        },
        _ => false,
    }
}

/// A literal is the term that it stands for.
pub open spec fn lit_step(th: Theory, a: Tm, b: Tm) -> bool {
    match a {
        Tm::NatLit(n) => th.nat_ext && nat_ctor(th.names, n) == Some(b),
        Tm::StrLit(s) => str_ctor(th.names, s) == Some(b),
        _ => false,
    }
}

/// The recursor of the natural numbers meets a literal.
pub open spec fn nat_rec_step(th: Theory, a: Tm, b: Tm) -> bool {
    match head(a) {
        Tm::Const(n, ls) => match th.recursor(n) {
            Some(r) => {
                let xs = args(a);
                let p = r.major_pos() as int;
                let first = r.num_params as int + r.num_motives as int;
                &&& th.nat_ext
                &&& r.all_inductives@.len() > 0
                &&& is_named(th.names.nat, r.all_inductives@[0]@)
                &&& r.info.name@ == n
                &&& xs.len() > p
                &&& xs.len() > first + 1
                &&& xs[p] matches Tm::NatLit(k) && b == apps(
                    if k == 0 {
                        xs[first]
                    } else {
                        let pred = Tm::NatLit((k - 1) as nat);
                        Tm::App(
                            Box::new(Tm::App(Box::new(xs[first + 1]), Box::new(pred))),
                            Box::new(apps(Tm::Const(n, ls), xs.take(p).push(pred))),
                        )
                    },
                    xs.skip(p + 1),
                )
            },
            None => false,
        },
        _ => false,
    }
}

/// Names and styles of binders do not matter.
pub open spec fn alpha(a: Tm, b: Tm) -> bool {
    match (a, b) {
        (Tm::Lam(_, _, t, x), Tm::Lam(_, _, u, y)) => t == u && x == y,
        (Tm::Pi(_, _, t, x), Tm::Pi(_, _, u, y)) => t == u && x == y,
        _ => false,
    }
}

/// One step of reduction at the root that needs nothing but the two terms.
pub open spec fn root_step(th: Theory, a: Tm, b: Tm) -> bool {
    ||| {
        // a function meets its argument
        a matches Tm::App(f, x) && *f matches Tm::Lam(_, _, _, y) && b == inst1(*y, *x)
    }
    ||| {
        // a local definition is unfolded
        a matches Tm::Let(_, _, v, y, _) && b == inst1(*y, *v)
    }
    ||| {
        // a universe level is simplified
        a matches Tm::Sort(l) && b == Tm::Sort(lv_simplify(l))
    }
    ||| {
        // a constant is unfolded
        a matches Tm::Const(n, ls) && th.delta(n, ls) == Some(b)
    }
    ||| {
        // a projection meets a constructor
        a matches Tm::Proj(_, i, s) && head(*s) matches Tm::Const(c, _) && th.ctor_params(
            c,
        ) matches Some(p) && args(*s).len() > p + i && b == args(*s)[(p + i) as int]
    }
    ||| iota(th, a, b)
    ||| quot_step(th, a, b)
    ||| nat_step(th, a, b)
    ||| lit_step(th, a, b)
    ||| nat_rec_step(th, a, b)
    ||| alpha(a, b)
}

/// The free variable of a binder that is opened at depth `k`.
pub open spec fn opened(n: Nm, s: BinderStyle, ty: Tm, k: u16) -> Tm {
    Tm::Local(n, s, Box::new(ty), FVarId::DbjLevel(k))
}

/// No variable of depth `k` or deeper occurs in the two terms.
pub open spec fn fresh(k: u16, a: Tm, b: Tm) -> bool {
    depth_bound(a) <= k && depth_bound(b) <= k
}

/// The variable of depth `k` made into a bound one.
pub open spec fn close(t: Tm, k: u16) -> Tm {
    abstr(t, k as nat, k as nat + 1, 0)
}

/// The levels are equal whatever their parameters are.
pub open spec fn lv_same(a: Lv, b: Lv) -> bool {
    forall|s: spec_fn(Nm) -> nat| #[trigger] lv_eval(a, s) == lv_eval(b, s)
}

/// The projections of the fields from the first up to a position.
pub open spec fn projections(n: Nm, t: Tm, k: nat) -> Seq<Tm> {
    Seq::new(k, |i: int| Tm::Proj(n, i as nat, Box::new(t)))
}

/// The type is the term's own, and the universe levels that are written in it are declared.
pub open spec fn levels_declared(ck: Ck, ls: Seq<Lv>) -> bool {
    ck matches Ck::Full(Some(ps)) ==> lvs_defined(ls, ps)
}

/// The term can be the result of reduction: neither a local definition nor a function with
/// arguments nor a bound variable is at its head, and universes and function types have no
/// arguments.
pub open spec fn core_head(t: Tm) -> bool {
    match head(t) {
        Tm::Lam(_, _, _, _) => !(t is App),
        Tm::Pi(_, _, _, _) => !(t is App),
        Tm::Sort(l) => !(t is App) && exists|m: Lv| l == #[trigger] lv_simplify(m),
        Tm::Let(_, _, _, _, _) => false,
        Tm::Var(_) => false,
        _ => true,
    }
}

/// The terms have the same outermost form. A projection may give anything.
pub open spec fn outline(a: Tm, b: Tm) -> bool {
    match a {
        Tm::App(_, _) => b is App,
        Tm::Lam(n, s, t, _) => b matches Tm::Lam(m, r, u, _) && n == m && s == r && t == u,
        Tm::Pi(n, s, t, _) => b matches Tm::Pi(m, r, u, _) && n == m && s == r && t == u,
        Tm::Proj(_, _, _) => true,
        _ => a == b,
    }
}

/// The term reduces to something that can be a result of reduction and is not the universe
/// of propositions.
pub open spec fn not_prop_sort(th: Theory, t: Tm) -> bool {
    exists|w: Tm| #[trigger]
        holds(th, Judg::Red(t, w)) && core_head(w) && !unfolds(th, w) && w != Tm::Sort(Lv::Zero)
}

/// `c` may stand in the place of the major premise `m` of the recursor.
pub open spec fn replaces_major(th: Theory, r: RecursorData, m: Tm, c: Tm) -> bool {
    forall|n: Nm, ks: Seq<Lv>, zs: Seq<Tm>|
        #![trigger apps(Tm::Const(n, ks), zs.update(r.major_pos() as int, c))]
        th.recursor(n) == Some(r) && zs.len() > r.major_pos() && zs[r.major_pos() as int] == m
            ==> holds(
            th,
            Judg::Red(
                apps(Tm::Const(n, ks), zs),
                apps(Tm::Const(n, ks), zs.update(r.major_pos() as int, c)),
            ),
        )
}

/// A constructor is at the head.
pub open spec fn ctor_app(th: Theory, t: Tm) -> bool {
    head(t) matches Tm::Const(c, _) && th.ctor_params(c) is Some
}

/// A constant that unfolds is at the head.
pub open spec fn unfolds(th: Theory, t: Tm) -> bool {
    head(t) matches Tm::Const(n, ls) && th.delta(n, ls) is Some
}

/// What is in place of the major premise of a recursor.
pub open spec fn at_major(r: RecursorData, a: Tm, c: Tm) -> Tm {
    apps(head(a), args(a).update(r.major_pos() as int, c))
}

/// A rule, with what it takes beside its conclusion.
pub enum Rule {
    RedRefl,
    RedTrans(Tm),
    RedApp,
    RedProj,
    RedPi,
    RedLet,
    RedStep,
    RedUnder(u16, Tm),
    /// The major premise of a recursor for a type with one constructor that carries no
    /// data: its type, reduced; the type's name, levels and arguments; how many of these go
    /// to the constructor; the constructor's type.
    RedK(Tm, Tm, Nm, Seq<Lv>, Seq<Tm>, int, Tm),
    /// The major premise of a recursor for a structure: its type, reduced; the type's
    /// name, levels and arguments; how many of these go to the constructor.
    RedEta(Tm, Tm, Nm, Seq<Lv>, Seq<Tm>, int),
    DeqRefl,
    DeqSymm,
    DeqTrans(Tm),
    DeqRed,
    DeqApp,
    DeqProj,
    DeqSort,
    DeqConst,
    DeqLam(u16),
    DeqPi(u16),
    DeqIrrel(Tm, Tm),
    /// A function and its values: a type of the function, and what it reduces to.
    DeqEta(u16, Tm, Nm, BinderStyle, Tm, Tm),
    InfLocal,
    InfFree,
    InfSort,
    InfConst,
    InfApp(Tm, Nm, BinderStyle, Tm, Tm, Tm),
    InfLam(u16, Tm, Tm, Lv),
    InfPi(u16, Tm, Lv, Tm, Lv),
    InfLet(Tm, Lv, Tm),
    /// The structure's type as inferred and reduced; the type's name, levels and arguments;
    /// the constructor's type behind the parameters and behind the fields in front; what
    /// the latter is reduced to: the name and style of a binder, and the body behind it.
    InfProj(Tm, Tm, Nm, Seq<Lv>, Seq<Tm>, Tm, Tm, Nm, BinderStyle, Tm),
    InfNat,
    InfStr,
    InfConv(Tm),
    InfOnly,
    InfChecked(Option<Seq<Lv>>),
    PropSort(Tm),
    FieldData(Tm, Tm),
    FieldProp,
    TeleNil,
    TeleCons(Nm, BinderStyle, Tm, Tm, Tm),
    FieldsNil,
    FieldsCons(Nm, BinderStyle, Tm, Tm, Tm),
}

/// The type of the constructor of a structure, with the universe parameters replaced.
pub open spec fn ctor_type(th: Theory, ind: Nm, ls: Seq<Lv>) -> Option<Tm> {
    match th.inductive(ind) {
        Some(d) => if d.all_ctor_names@.len() > 0 {
            let c = d.all_ctor_names@[0]@;
            if th.ctor_params(c) is Some {
                let info = th.decls[c].about();
                Some(tm_lsubst(info.ty@, info.uparams@, ls))
            } else {
                None
            }
        } else {
            None
        },
        None => None,
    }
}

/// The first constructor of an inductive type.
pub open spec fn first_ctor(th: Theory, ind: Nm) -> Option<Nm> {
    match th.inductive(ind) {
        Some(d) => if d.all_ctor_names@.len() > 0 {
            Some(d.all_ctor_names@[0]@)
        } else {
            None
        },
        None => None,
    }
}

/// The number of fields of a constructor.
pub open spec fn ctor_fields(th: Theory, c: Nm) -> Option<nat> {
    if th.decls.contains_key(c) {
        match th.decls[c] {
            Declar::Constructor(d) => Some(d.num_fields as nat),
            _ => None,
        }
    } else {
        None
    }
}

/// So many of `n` arguments are the parameters that a recursor is declared with.
pub open spec fn params_of(r: RecursorData, n: nat) -> int {
    if r.num_params <= n {
        r.num_params as int
    } else {
        n as int
    }
}

/// So many of a type's arguments are the parameters of the constructor: as many as the
/// constructor is declared with, or as a recursor for the type is.
pub open spec fn params_taken(th: Theory, r: RecursorData, c: Nm, n: nat, m: int) -> bool {
    ||| th.ctor_params(c) == Some(m as nat)
    ||| exists|q: Nm|
        #![trigger th.recursor(q)]
        th.recursor(q) matches Some(s) && major_induct(s) == major_induct(r) && m == params_of(s, n)
}

/// What the rule asks of its conclusion itself.
pub open spec fn applies(th: Theory, rule: Rule, j: Judg) -> bool {
    match (rule, j) {
        (Rule::RedRefl, Judg::Red(a, b)) => a == b,
        (Rule::RedTrans(_), Judg::Red(_, _)) => true,
        (Rule::RedApp, Judg::Red(a, b)) => a is App && b is App,
        (Rule::RedProj, Judg::Red(a, b)) => a matches Tm::Proj(m, i, _) && b matches Tm::Proj(n, k, _)
            && m == n && i == k,
        (Rule::RedPi, Judg::Red(a, b)) => a matches Tm::Pi(m, s, _, x) && b matches Tm::Pi(n, u, _, y)
            && m == n && s == u && x == y,
        (Rule::RedLet, Judg::Red(a, b)) => a matches Tm::Let(m, t, _, x, d) && b matches Tm::Let(
            n,
            u,
            _,
            y,
            e,
        ) && m == n && t == u && x == y && d == e,
        (Rule::RedStep, Judg::Red(a, b)) => root_step(th, a, b),
        (Rule::RedUnder(k, c), Judg::Red(a, b)) => match a {
            Tm::Lam(n, s, ty, x) => fresh(k, *ty, *x) && b == Tm::Lam(n, s, ty, Box::new(close(c, k))),
            Tm::Pi(n, s, ty, x) => fresh(k, *ty, *x) && b == Tm::Pi(n, s, ty, Box::new(close(c, k))),
            _ => false,
        },
        (Rule::RedK(_, ty, ind, ls, xs, m, _), Judg::Red(a, b)) => head(a) matches Tm::Const(n, _)
            && th.recursor(n) matches Some(r) && {
            &&& r.is_k
            &&& args(a).len() > r.major_pos()
            &&& ty == apps(Tm::Const(ind, ls), xs)
            &&& major_induct(r) == Some(ind)
            &&& 0 <= m <= xs.len()
            &&& first_ctor(th, ind) matches Some(c) && b == at_major(
                r,
                a,
                apps(Tm::Const(c, ls), xs.take(m)),
            )
        },
        (Rule::RedEta(_, ty, ind, ls, xs, m), Judg::Red(a, b)) => head(a) matches Tm::Const(n, _)
            && th.recursor(n) matches Some(r) && {
            &&& args(a).len() > r.major_pos()
            &&& ty == apps(Tm::Const(ind, ls), xs)
            &&& major_induct(r) == Some(ind)
            &&& th.is_struct(ind)
            &&& !ctor_app(th, args(a)[r.major_pos() as int])
            &&& 0 <= m <= xs.len()
            &&& first_ctor(th, ind) matches Some(c) && params_taken(th, r, c, xs.len(), m)
            &&& first_ctor(th, ind) matches Some(c) && ctor_fields(th, c) matches Some(k) && b
                == at_major(
                r,
                a,
                apps(
                    apps(Tm::Const(c, ls), xs.take(m)),
                    projections(ind, args(a)[r.major_pos() as int], k),
                ),
            )
        },
        (Rule::DeqRefl, Judg::Deq(a, b)) => a == b,
        (Rule::DeqSymm, Judg::Deq(_, _)) => true,
        (Rule::DeqTrans(_), Judg::Deq(_, _)) => true,
        (Rule::DeqRed, Judg::Deq(_, _)) => true,
        (Rule::DeqApp, Judg::Deq(a, b)) => a is App && b is App,
        (Rule::DeqProj, Judg::Deq(a, b)) => a matches Tm::Proj(m, i, _) && b matches Tm::Proj(n, k, _)
            && m == n && i == k,
        (Rule::DeqSort, Judg::Deq(a, b)) => a matches Tm::Sort(l) && b matches Tm::Sort(m) && lv_same(
            l,
            m,
        ),
        (Rule::DeqConst, Judg::Deq(a, b)) => a matches Tm::Const(m, ls) && b matches Tm::Const(n, ks)
            && m == n && ls.len() == ks.len() && forall|i: int|
            0 <= i < ls.len() ==> #[trigger] lv_same(ls[i], ks[i]),
        (Rule::DeqLam(k), Judg::Deq(a, b)) => a matches Tm::Lam(_, _, t, x) && b matches Tm::Lam(
            _,
            _,
            u,
            y,
        ) && fresh(k, *t, *x) && fresh(k, *u, *y),
        (Rule::DeqPi(k), Judg::Deq(a, b)) => a matches Tm::Pi(_, _, t, x) && b matches Tm::Pi(
            _,
            _,
            u,
            y,
        ) && fresh(k, *t, *x) && fresh(k, *u, *y),
        (Rule::DeqIrrel(_, _), Judg::Deq(_, _)) => true,
        (Rule::DeqEta(k, _, _, _, _, _), Judg::Deq(a, b)) => a matches Tm::Lam(_, _, t, x) && fresh(
            k,
            *t,
            *x,
        ) && depth_bound(b) <= k,
        (Rule::InfLocal, Judg::Inf(_, e, t)) => e matches Tm::Local(_, _, ty, _) && *ty == t,
        (Rule::InfFree, Judg::Inf(ck, e, t)) => ck is Loose && (e matches Tm::Free(_, ty)
            && *ty == t),
        (Rule::InfSort, Judg::Inf(ck, e, t)) => e matches Tm::Sort(l) && t == Tm::Sort(
            Lv::Succ(Box::new(l)),
        ) && levels_declared(ck, seq![l]),
        (Rule::InfConst, Judg::Inf(ck, e, t)) => e matches Tm::Const(n, ls) && th.decls.contains_key(n)
            && t == tm_lsubst(th.decls[n].about().ty@, th.decls[n].about().uparams@, ls)
            && levels_declared(ck, ls),
        (Rule::InfApp(_, _, _, _, y, _), Judg::Inf(_, e, t)) => e matches Tm::App(_, x) && t == inst1(
            y,
            *x,
        ),
        (Rule::InfLam(k, c, _, _), Judg::Inf(_, e, t)) => e matches Tm::Lam(n, s, ty, x) && fresh(
            k,
            *ty,
            *x,
        ) && t == Tm::Pi(n, s, ty, Box::new(close(c, k))),
        (Rule::InfPi(k, _, u, _, v), Judg::Inf(_, e, t)) => e matches Tm::Pi(n, s, ty, x) && fresh(
            k,
            *ty,
            *x,
        ) && t == Tm::Sort(Lv::IMax(Box::new(u), Box::new(v))),
        (Rule::InfLet(_, _, _), Judg::Inf(_, e, _)) => e is Let,
        (
            Rule::InfProj(_, ty, ind, ls, xs, _, _, _, _, _),
            Judg::Inf(_, e, _),
        ) => e is Proj && ty == apps(Tm::Const(ind, ls), xs) && ctor_type(th, ind, ls) is Some && (
        th.inductive(ind) matches Some(d) && d.num_params <= xs.len()),
        (Rule::InfNat, Judg::Inf(_, e, t)) => e is NatLit && (th.names.nat matches Some(n) && t
            == plain(n@)),
        (Rule::InfStr, Judg::Inf(_, e, t)) => e is StrLit && (th.names.string matches Some(n) && t
            == plain(n@)),
        (Rule::InfConv(_), Judg::Inf(ck, _, _)) => ck is Loose,
        (Rule::InfOnly, Judg::Inf(ck, _, _)) => ck is Loose,
        (Rule::InfChecked(_), Judg::Inf(ck, _, _)) => ck is Only,
        (Rule::PropSort(_), Judg::Prop(_)) => true,
        (Rule::FieldData(_, w), Judg::Field(_, _)) => core_head(w) && !unfolds(th, w) && w
            != Tm::Sort(Lv::Zero),
        (Rule::FieldProp, Judg::Field(_, _)) => true,
        (Rule::TeleNil, Judg::Tele(t, xs, u)) => xs.len() == 0 && t == u,
        (Rule::TeleCons(_, _, _, _, _), Judg::Tele(_, xs, _)) => xs.len() > 0,
        (Rule::FieldsNil, Judg::Fields(_, _, t, _, _, i, k, u)) => i == k && t == u,
        (Rule::FieldsCons(_, _, _, _, _), Judg::Fields(_, _, _, _, _, i, k, _)) => i < k,
        _ => false,
    }
}

/// What has to hold for the rule to give its conclusion.
pub open spec fn premises(th: Theory, rule: Rule, j: Judg) -> Seq<Judg> {
    match (rule, j) {
        (Rule::RedTrans(m), Judg::Red(a, b)) => seq![Judg::Red(a, m), Judg::Red(m, b)],
        (Rule::RedApp, Judg::Red(Tm::App(f, x), Tm::App(g, y))) => {
            seq![Judg::Red(*f, *g), Judg::Red(*x, *y)]
        },
        (Rule::RedProj, Judg::Red(Tm::Proj(_, _, s), Tm::Proj(_, _, t))) => {
            seq![Judg::Red(*s, *t)]
        },
        (Rule::RedPi, Judg::Red(Tm::Pi(_, _, t, _), Tm::Pi(_, _, u, _))) => {
            seq![Judg::Red(*t, *u)]
        },
        (Rule::RedLet, Judg::Red(Tm::Let(_, _, v, _, _), Tm::Let(_, _, w, _, _))) => {
            seq![Judg::Red(*v, *w)]
        },
        (Rule::RedUnder(k, c), Judg::Red(Tm::Lam(n, s, ty, x), _)) => {
            seq![Judg::Red(inst1(*x, opened(n, s, *ty, k)), c)]
        },
        (Rule::RedUnder(k, c), Judg::Red(Tm::Pi(n, s, ty, x), _)) => {
            seq![Judg::Red(inst1(*x, opened(n, s, *ty, k)), c)]
        },
        (Rule::RedK(raw, ty, ind, ls, xs, m, cty), Judg::Red(a, _)) => {
            let r = th.recursor(head(a)->Const_0)->0;
            let c = apps(Tm::Const(first_ctor(th, ind)->0, ls), xs.take(m));
            seq![
                Judg::Inf(Ck::Loose, args(a)[r.major_pos() as int], raw),
                Judg::Red(raw, ty),
                Judg::Inf(Ck::Loose, c, cty),
                Judg::Deq(ty, cty),
            ]
        },
        (Rule::RedEta(raw, ty, _, _, _, _), Judg::Red(a, _)) => {
            let r = th.recursor(head(a)->Const_0)->0;
            seq![
                Judg::Inf(Ck::Loose, args(a)[r.major_pos() as int], raw),
                Judg::Red(raw, ty),
            ]
        },
        (Rule::DeqSymm, Judg::Deq(a, b)) => seq![Judg::Deq(b, a)],
        (Rule::DeqTrans(m), Judg::Deq(a, b)) => seq![Judg::Deq(a, m), Judg::Deq(m, b)],
        (Rule::DeqRed, Judg::Deq(a, b)) => seq![Judg::Red(a, b)],
        (Rule::DeqApp, Judg::Deq(Tm::App(f, x), Tm::App(g, y))) => {
            seq![Judg::Deq(*f, *g), Judg::Deq(*x, *y)]
        },
        (Rule::DeqProj, Judg::Deq(Tm::Proj(_, _, s), Tm::Proj(_, _, t))) => {
            seq![Judg::Deq(*s, *t)]
        },
        (Rule::DeqLam(k), Judg::Deq(Tm::Lam(n, s, t, x), Tm::Lam(_, _, u, y))) => {
            let v = opened(n, s, *t, k);
            seq![Judg::Deq(*t, *u), Judg::Deq(inst1(*x, v), inst1(*y, v))]
        },
        (Rule::DeqPi(k), Judg::Deq(Tm::Pi(n, s, t, x), Tm::Pi(_, _, u, y))) => {
            let v = opened(n, s, *t, k);
            seq![Judg::Deq(*t, *u), Judg::Deq(inst1(*x, v), inst1(*y, v))]
        },
        (Rule::DeqIrrel(t, u), Judg::Deq(a, b)) => seq![
            Judg::Inf(Ck::Loose, a, t),
            Judg::Prop(t),
            Judg::Inf(Ck::Loose, b, u),
            Judg::Prop(u),
            Judg::Deq(t, u),
        ],
        (Rule::DeqEta(k, raw, n1, s1, a1, y1), Judg::Deq(Tm::Lam(n, s, t, x), b)) => {
            let v = opened(n, s, *t, k);
            seq![
                Judg::Inf(Ck::Loose, b, raw),
                Judg::Red(raw, Tm::Pi(n1, s1, Box::new(a1), Box::new(y1))),
                Judg::Deq(*t, a1),
                Judg::Deq(inst1(*x, v), Tm::App(Box::new(b), Box::new(v))),
            ]
        },
        (Rule::InfApp(raw, n, s, a, y, xt), Judg::Inf(ck, Tm::App(f, x), _)) => {
            let base = seq![
                Judg::Inf(ck, *f, raw),
                Judg::Red(raw, Tm::Pi(n, s, Box::new(a), Box::new(y))),
            ];
            if ck is Full {
                base + seq![Judg::Inf(ck, *x, xt), Judg::Deq(a, xt)]
            } else {
                base
            }
        },
        (Rule::InfLam(k, c, srt, l), Judg::Inf(ck, Tm::Lam(n, s, ty, x), _)) => {
            let base = seq![Judg::Inf(ck, inst1(*x, opened(n, s, *ty, k)), c)];
            if ck is Full {
                base + seq![Judg::Inf(ck, *ty, srt), Judg::Red(srt, Tm::Sort(l))]
            } else {
                base
            }
        },
        (Rule::InfPi(k, st, u, sx, v), Judg::Inf(ck, Tm::Pi(n, s, ty, x), _)) => seq![
            Judg::Inf(ck, *ty, st),
            Judg::Red(st, Tm::Sort(u)),
            Judg::Inf(ck, inst1(*x, opened(n, s, *ty, k)), sx),
            Judg::Red(sx, Tm::Sort(v)),
        ],
        (Rule::InfLet(srt, l, vt), Judg::Inf(ck, Tm::Let(_, ty, v, x, _), t)) => {
            let base = seq![Judg::Inf(ck, inst1(*x, *v), t)];
            if ck is Full {
                base + seq![
                    Judg::Inf(ck, *ty, srt),
                    Judg::Red(srt, Tm::Sort(l)),
                    Judg::Inf(ck, *v, vt),
                    Judg::Deq(vt, *ty),
                ]
            } else {
                base
            }
        },
        (
            Rule::InfProj(raw, ty, ind, ls, xs, t1, t2, n, s, y),
            Judg::Inf(ck, Tm::Proj(_, i, e), t),
        ) => {
            let np = th.inductive(ind)->0.num_params as int;
            let base = seq![
                Judg::Inf(ck, *e, raw),
                Judg::Red(raw, ty),
                Judg::Tele(ctor_type(th, ind, ls)->0, xs.take(np), t1),
                Judg::Fields(ck, ty, t1, *e, ind, 0, i, t2),
                Judg::Red(t2, Tm::Pi(n, s, Box::new(t), Box::new(y))),
            ];
            if ck is Loose {
                base
            } else {
                base.push(Judg::Field(ty, t))
            }
        },
        (Rule::InfConv(u), Judg::Inf(ck, e, t)) => seq![Judg::Inf(ck, e, u), Judg::Red(u, t)],
        (Rule::InfOnly, Judg::Inf(_, e, t)) => seq![Judg::Inf(Ck::Only, e, t)],
        (Rule::InfChecked(ps), Judg::Inf(_, e, t)) => seq![Judg::Inf(Ck::Full(ps), e, t)],
        (Rule::PropSort(s), Judg::Prop(e)) => seq![
            Judg::Inf(Ck::Loose, e, s),
            Judg::Red(s, Tm::Sort(Lv::Zero)),
        ],
        (Rule::FieldData(s, w), Judg::Field(t, _)) => seq![
            Judg::Inf(Ck::Loose, t, s),
            Judg::Red(s, w),
        ],
        (Rule::FieldProp, Judg::Field(_, a)) => seq![Judg::Prop(a)],
        (Rule::TeleCons(n, s, a, x, y), Judg::Tele(t, xs, u)) => seq![
            Judg::Red(t, Tm::Pi(n, s, Box::new(a), Box::new(x))),
            Judg::Red(xs[0], y),
            Judg::Tele(inst1(x, y), xs.drop_first(), u),
        ],
        (Rule::FieldsCons(n, s, a, x, y), Judg::Fields(ck, ty, t, e, ind, i, k, u)) => {
            let base = seq![
                Judg::Red(t, Tm::Pi(n, s, Box::new(a), Box::new(x))),
                Judg::Red(Tm::Proj(ind, i, Box::new(e)), y),
                Judg::Fields(ck, ty, inst1(x, y), e, ind, i + 1, k, u),
            ];
            if ck is Loose || loose(x) == 0 {
                base
            } else {
                base.push(Judg::Field(ty, a))
            }
        },
        _ => Seq::empty(),
    }
}

/// The judgement has a derivation of at most the given height.
pub open spec fn derivable(th: Theory, n: nat, j: Judg) -> bool
    decreases n,
{
    n > 0 && exists|rule: Rule| #[trigger]
        applies(th, rule, j) && forall|i: int|
            0 <= i < premises(th, rule, j).len() ==> derivable(
                th,
                (n - 1) as nat,
                #[trigger] premises(th, rule, j)[i],
            )
}

/// The judgement holds.
#[verifier::opaque]
pub open spec fn holds(th: Theory, j: Judg) -> bool {
    exists|n: nat| derivable(th, n, j)
}

proof fn derivable_more(th: Theory, n: nat, m: nat, j: Judg)
    requires
        derivable(th, n, j),
        n <= m,
    ensures
        derivable(th, m, j),
    decreases n,
{
    let rule = choose|rule: Rule| #[trigger]
        applies(th, rule, j) && forall|i: int|
            0 <= i < premises(th, rule, j).len() ==> derivable(
                th,
                (n - 1) as nat,
                #[trigger] premises(th, rule, j)[i],
            );
    assert forall|i: int| 0 <= i < premises(th, rule, j).len() implies derivable(
        th,
        (m - 1) as nat,
        #[trigger] premises(th, rule, j)[i],
    ) by {
        derivable_more(th, (n - 1) as nat, (m - 1) as nat, premises(th, rule, j)[i]);
    }
}

proof fn common_height(th: Theory, js: Seq<Judg>) -> (n: nat)
    requires
        forall|i: int| 0 <= i < js.len() ==> holds(th, #[trigger] js[i]),
    ensures
        forall|i: int| 0 <= i < js.len() ==> derivable(th, n, #[trigger] js[i]),
    decreases js.len(),
{
    reveal(holds);
    if js.len() == 0 {
        0
    } else {
        let rest = js.drop_last();
        assert forall|i: int| 0 <= i < rest.len() implies holds(th, #[trigger] rest[i]) by {
            assert(holds(th, js[i]));
        }
        let n = common_height(th, rest);
        let last = js.last();
        assert(holds(th, js[js.len() - 1]));
        let m = choose|m: nat| derivable(th, m, last);
        let top = n + m;
        assert forall|i: int| 0 <= i < js.len() implies derivable(th, top, #[trigger] js[i]) by {
            if i < rest.len() {
                assert(rest[i] == js[i]);
                derivable_more(th, n, top, js[i]);
            } else {
                derivable_more(th, m, top, js[i]);
            }
        }
        top
    }
}

/// A rule gives its conclusion where its premises hold.
pub proof fn by_rule(th: Theory, rule: Rule, j: Judg)
    requires
        applies(th, rule, j),
        forall|i: int|
            0 <= i < premises(th, rule, j).len() ==> holds(th, #[trigger] premises(th, rule, j)[i]),
    ensures
        holds(th, j),
{
    let n = common_height(th, premises(th, rule, j));
    assert(derivable(th, n + 1, j));
    reveal(holds);
}

/// Where a derivation is one rule high, nothing but the rule is in it: a judgement holds
/// exactly if some rule gives it from judgements that hold.
pub proof fn derived_by(th: Theory, j: Judg) -> (rule: Rule)
    requires
        holds(th, j),
    ensures
        applies(th, rule, j),
        forall|i: int|
            0 <= i < premises(th, rule, j).len() ==> holds(th, #[trigger] premises(th, rule, j)[i]),
{
    reveal(holds);
    let n = choose|n: nat| derivable(th, n, j);
    let rule = choose|rule: Rule| #[trigger]
        applies(th, rule, j) && forall|i: int|
            0 <= i < premises(th, rule, j).len() ==> derivable(
                th,
                (n - 1) as nat,
                #[trigger] premises(th, rule, j)[i],
            );
    assert forall|i: int| 0 <= i < premises(th, rule, j).len() implies holds(
        th,
        #[trigger] premises(th, rule, j)[i],
    ) by {
        assert(derivable(th, (n - 1) as nat, premises(th, rule, j)[i]));
    }
    rule
}

} // verus!
