//! Numbers among values.
use crate::bignum::{
    bin_fits, fits_by_value, nat_bin, nat_bin_out, quotient, remainder, BigNat, NatBinOp, NatResult,
};
use crate::checker::{fits_grows, Stop, TypeChecker};
use crate::judge::{is_named, is_nat_out, nat_step, op_named, plain, Theory};
use crate::laws::{red, red_app, red_apps, red_refl, red_step, red_trans};
use crate::ptr::NamePtr;
use crate::stable::head_kind;
use crate::steps::out_tm;
use crate::tc::const_apps;
use crate::tree::{apps, args, head, Lv, Nm, Tm};
use crate::value::{
    done_valid, neutral, spine_push, spine_tm, vals_fit_grows, vtms, El, Elim, RigidHead, Spine,
    Value, S, V,
};
use crate::vcache::{free_head, vcache_grows_ctx, vcache_grows_vals};
use crate::numbers::{blank_number, blank_stays, nats_declared, number, number_stays};
use crate::numbers::at_free;
use crate::rest::{
    argument, mentions_free, numeral, plain_rests, unread_rests, unread_succ, unread_trans, unread_varied, unreadable, varied,
};
use crate::work::{ends, ends_more, ends_next, ends_sound, nat_red_name, root_els, structural_name, Task};
use vstd::prelude::*;

verus! {

broadcast use {fits_grows, vals_fit_grows, vcache_grows_ctx, vcache_grows_vals, done_valid, crate::work::ends_some};

/// The successor of what reduces to a number reduces to the next number.
pub proof fn red_succ(th: Theory, n: Nm, ls: Seq<Lv>, a: Tm, k: nat)
    requires
        th.nat_ext,
        is_named(th.names.nat_succ, n),
        red(th, a, Tm::NatLit(k)),
    ensures
        red(
            th,
            Tm::App(Box::new(Tm::Const(n, ls)), Box::new(a)),
            Tm::NatLit(k + 1),
        ),
{
    let f = Tm::Const(n, ls);
    let mid = Tm::App(Box::new(f), Box::new(Tm::NatLit(k)));
    red_refl(th, f);
    red_app(th, f, f, a, Tm::NatLit(k));
    assert(args(f) =~= Seq::<Tm>::empty());
    assert(args(mid) =~= seq![Tm::NatLit(k)]);
    assert(head(f) == f);
    assert(head(mid) == f);
    assert(nat_step(th, mid, Tm::NatLit(k + 1)));
    red_step(th, mid, Tm::NatLit(k + 1));
    red_trans(th, Tm::App(Box::new(f), Box::new(a)), mid, Tm::NatLit(k + 1));
}

/// The outcome of an operation on numbers, as a value.
pub open spec fn out_of(th: Theory, op: NatBinOp, m: nat, n: nat, t: Tm) -> bool {
    is_nat_out(th.names, nat_bin_out(op, m, n), t)
}

/// The constant zero reduces to the literal.
proof fn red_zero(th: Theory, n: Nm, ls: Seq<Lv>)
    requires
        th.nat_ext,
        is_named(th.names.nat_zero, n),
    ensures
        red(th, Tm::Const(n, ls), Tm::NatLit(0)),
{
    assert(args(Tm::Const(n, ls)) =~= Seq::<Tm>::empty());
    assert(nat_step(th, Tm::Const(n, ls), Tm::NatLit(0)));
    red_step(th, Tm::Const(n, ls), Tm::NatLit(0));
}

/// An operation on arguments that reduce to numbers.
proof fn red_bin(th: Theory, n: Nm, ls: Seq<Lv>, xs: Seq<Tm>, op: NatBinOp, j: nat, k: nat, t: Tm)
    requires
        th.nat_ext,
        op_named(th.names, n) == Some(op),
        xs.len() == 2,
        red(th, xs[0], Tm::NatLit(j)),
        red(th, xs[1], Tm::NatLit(k)),
        out_of(th, op, j, k, t),
    ensures
        red(th, apps(Tm::Const(n, ls), xs), t),
{
    let f = Tm::Const(n, ls);
    let ys = seq![Tm::NatLit(j), Tm::NatLit(k)];
    red_refl(th, f);
    red_apps(th, f, f, xs, ys);
    const_apps(n, ls, ys);
    assert(nat_step(th, apps(f, ys), t));
    red_step(th, apps(f, ys), t);
    red_trans(th, apps(f, xs), apps(f, ys), t);
}

/// A loop that computes a quotient or a remainder of numbers.
proof fn red_go(th: Theory, n: Nm, ls: Seq<Lv>, xs: Seq<Tm>, y: nat, x: nat, t: Tm)
    requires
        th.nat_ext,
        xs.len() == 5,
        red(th, xs[0], Tm::NatLit(y)),
        red(th, xs[3], Tm::NatLit(x)),
        if is_named(th.names.nat_div_go, n) {
            t == Tm::NatLit(quotient(x, y))
        } else {
            is_named(th.names.nat_mod_core_go, n) && t == Tm::NatLit(remainder(x, y))
        },
    ensures
        red(th, apps(Tm::Const(n, ls), xs), t),
{
    let f = Tm::Const(n, ls);
    let ys = xs.update(0, Tm::NatLit(y));
    let zs = ys.update(3, Tm::NatLit(x));
    crate::laws::red_apps_at(th, f, xs, 0, Tm::NatLit(y));
    crate::laws::red_apps_at(th, f, ys, 3, Tm::NatLit(x));
    red_trans(th, apps(f, xs), apps(f, ys), apps(f, zs));
    const_apps(n, ls, zs);
    assert(nat_step(th, apps(f, zs), t));
    red_step(th, apps(f, zs), t);
    red_trans(th, apps(f, xs), apps(f, zs), t);
}


/// The number that a value is as it stands: a literal, or the constructor zero.
pub open spec fn vnum(th: Theory, t: Tm) -> Option<nat> {
    match t {
        Tm::NatLit(n) => Some(n),
        Tm::Const(c, _) => if is_named(th.names.nat_zero, c) && crate::stable::ctor_headed(th, t) {
            Some(0)
        } else {
            None
        },
        _ => None,
    }
}

/// The result is the outcome of the operation. There is none where the name of a truth value
/// is not known, and powers and shifts stop where the number would be too large.
pub open spec fn bin_result(th: Theory, op: NatBinOp, m: nat, n: nat, r: Result<Option<V>, Stop>) -> bool {
    if !bin_fits(op, m, n) {
        r == Err::<Option<V>, Stop>(Stop::NumberTooLarge)
    } else {
        match out_tm(th.names, nat_bin_out(op, m, n)) {
            Some(t) => r matches Ok(Some(v)) && v@ == t,
            None => r == Ok::<Option<V>, Stop>(None),
        }
    }
}

/// What is read of a term: the number that it is as it stands, and nothing where a variable
/// is at its head under successors.
pub open spec fn read_as(th: Theory, t: Tm, o: Option<BigNat>) -> bool {
    &&& number(th, t) matches Some(k) ==> (o matches Some(n) && n@ == k)
    &&& th.nat_ext && blank_number(th, t) ==> o is None
}

/// Where an operation is applied to numbers, successors of numbers among them, this is its
/// outcome.
pub open spec fn reckoned(th: Theory, n: Nm, zs: Seq<Tm>, o: Option<V>) -> bool {
    &&& is_named(th.names.nat_succ, n) && zs.len() == 1 ==> (number(th, zs[0]) matches Some(k) ==> (
    o matches Some(v) && v@ == Tm::NatLit(k + 1)))
    &&& zs.len() == 2 ==> (op_named(th.names, n) matches Some(op) ==> (number(th, zs[0]) matches Some(x)
        ==> (number(th, zs[1]) matches Some(y) ==> (match out_tm(th.names, nat_bin_out(op, x, y)) {
        Some(t) => o matches Some(v) && v@ == t,
        None => o is None,
    }))))
    &&& zs.len() == 5 ==> (number(th, zs[0]) matches Some(y) ==> (number(th, zs[3]) matches Some(x)
        ==> {
        &&& is_named(th.names.nat_div_go, n) ==> (o matches Some(v) && v@ == Tm::NatLit(
            quotient(x, y),
        ))
        &&& is_named(th.names.nat_mod_core_go, n) && !is_named(th.names.nat_div_go, n) ==> (
        o matches Some(v) && v@ == Tm::NatLit(remainder(x, y)))
    }))
}

/// A number is a literal, or a constructor with what it is applied to.
proof fn number_kind(th: Theory, v: Value, t: Tm)
    requires
        v.tree() == t,
        !(v is Thunk),
        crate::value::value_known(th, v),
        v matches Value::Rigid { head, .. } ==> (head matches RigidHead::Local(e) ==> e@ is Local),
        nats_declared(th),
        number(th, t) is Some,
    ensures
        t is NatLit ==> v is NatLit,
        !(t is NatLit) ==> (v matches Value::Rigid { head: RigidHead::Ctor(_, _), .. }),
        v matches Value::NatLit { ptr } ==> t == Tm::NatLit(ptr@),
        v matches Value::Rigid { head, spine } ==> {
            &&& t == spine_tm(head.tm(), spine@)
            &&& t matches Tm::Const(c, _) ==> spine@.len() == 0 && head.tm() == t && is_named(
                th.names.nat_zero,
                c,
            )
            &&& t matches Tm::App(g, a) ==> spine@ == seq![El::App(*a)] && head.tm() == *g && (
            head.tm() matches Tm::Const(c, _) && is_named(th.names.nat_succ, c))
        },
{
    reveal_with_fuel(crate::work::root, 3);
    reveal_with_fuel(crate::work::els, 3);
    reveal_with_fuel(number, 2);
    match v {
        Value::Rigid { head: h, spine } => {
            crate::value::spine_neutral(h.tm(), spine@);
            crate::work::root_els(h.tm(), spine@);
            if let Tm::App(g, a) = t {
                assert(crate::work::els(*g) =~= Seq::<El>::empty());
                assert(spine@ =~= seq![El::App(*a)]);
            }
            match t {
                Tm::Const(c, _) => {
                    assert(is_named(th.names.nat_zero, c) || is_named(th.names.nat_succ, c));
                },
                Tm::App(g, _) => {
                    let c = (*g)->Const_0;
                    assert(is_named(th.names.nat_zero, c) || is_named(th.names.nat_succ, c));
                    assert(head(*g) == *g);
                },
                _ => {},
            }
            if !(t is NatLit) {
                let c = head(t)->Const_0;
                crate::numbers::number_ctors(th, c);
                head_kind(th, v, t);
            }
        },
        Value::Unfold { name, levels, spine, .. } => {
            let h = Tm::Const(name@, levels@);
            crate::value::spine_neutral(h, spine@);
            crate::work::root_els(h, spine@);
            assert(is_named(th.names.nat_zero, name@) || is_named(th.names.nat_succ, name@));
        },
        _ => {},
    }
}

/// What has the form of a number is a literal or a constructor.
proof fn numeral_kind(th: Theory, v: Value, t: Tm)
    requires
        v.tree() == t,
        !(v is Thunk),
        crate::value::value_known(th, v),
        v matches Value::Rigid { head, .. } ==> (head matches RigidHead::Local(e) ==> e@ is Local),
        nats_declared(th),
        numeral(th, t),
    ensures
        v is NatLit || (v matches Value::Rigid { head: RigidHead::Ctor(n, _), .. } && (is_named(
            th.names.nat_zero,
            n@,
        ) || is_named(th.names.nat_succ, n@))),
{
    match v {
        Value::Rigid { head: h, spine } => {
            crate::value::spine_neutral(h.tm(), spine@);
        },
        Value::Unfold { name, levels, spine, .. } => {
            crate::value::spine_neutral(Tm::Const(name@, levels@), spine@);
        },
        _ => {},
    }
    if !(t is NatLit) {
        if let Tm::App(g, _) = t {
            assert(head(*g) == *g);
        }
        let c = head(t)->Const_0;
        crate::numbers::number_ctors(th, c);
        head_kind(th, v, t);
    }
}

/// What is not read as a number as it stands: neither a literal nor zero nor a successor, nor
/// anything that can be reduced.
proof fn unread_content(th: Theory, v: Value, t: Tm)
    requires
        v.tree() == t,
        !(v is Thunk),
        crate::value::value_known(th, v),
        v matches Value::Rigid { head, .. } ==> (head matches RigidHead::Local(e) ==> e@ is Local),
        nats_declared(th),
    ensures
        !(v is Unfold) && !(v matches Value::Rigid { head: RigidHead::Recursor(_, _), .. }) && !(
        v matches Value::Rigid { head: RigidHead::QuotConst(_, _), .. }) && !numeral(th, t)
            ==> unreadable(th, t),
        numeral(th, t) ==> v is NatLit || (v matches Value::Rigid { head: RigidHead::Ctor(_, _), .. }),
        v matches Value::Rigid { head: RigidHead::Ctor(n, _), spine } && !(spine@.len() == 0
            && is_named(th.names.nat_zero, n@)) && !(is_named(th.names.nat_succ, n@) && spine@.len()
            == 1 && spine@[0] is App) ==> !numeral(th, t),
{
    if !(v is Unfold) && !(v matches Value::Rigid { head: RigidHead::Recursor(_, _), .. }) && !(
    v matches Value::Rigid { head: RigidHead::QuotConst(_, _), .. }) {
        plain_rests(th, v, t);
        if !numeral(th, t) {
            unread_rests(th, t);
        }
    }
    if numeral(th, t) {
        numeral_kind(th, v, t);
    }
    if let Value::Rigid { head: h, spine } = v {
        reveal_with_fuel(crate::work::els, 3);
        reveal_with_fuel(crate::work::root, 3);
        crate::value::spine_neutral(h.tm(), spine@);
        crate::work::root_els(h.tm(), spine@);
        if let Tm::App(g, a) = t {
            if *g is Const {
                assert(spine@ =~= seq![El::App(*a)]);
            }
        }
    }
}

/// Where an operation is applied to numbers as they stand, the result is the outcome.
pub open spec fn computed(th: Theory, n: Nm, zs: Seq<Tm>, r: Result<Option<V>, Stop>) -> bool {
    &&& is_named(th.names.nat_succ, n) && zs.len() == 1 ==> (vnum(th, zs[0]) matches Some(k) ==> (
    r matches Ok(Some(v)) && v@ == Tm::NatLit(k + 1)))
    &&& zs.len() == 2 ==> (op_named(th.names, n) matches Some(op) ==> (vnum(th, zs[0]) matches Some(x)
        ==> (vnum(th, zs[1]) matches Some(y) ==> bin_result(th, op, x, y, r))))
    &&& zs.len() == 5 ==> (vnum(th, zs[0]) matches Some(y) ==> (vnum(th, zs[3]) matches Some(x) ==> {
        &&& is_named(th.names.nat_div_go, n) ==> bin_result(th, NatBinOp::Div, x, y, r)
        &&& is_named(th.names.nat_mod_core_go, n) && !is_named(th.names.nat_div_go, n) ==> bin_result(
            th,
            NatBinOp::Mod,
            x,
            y,
            r,
        )
    }))
}

impl<'t> TypeChecker<'t> {
    /// Whether the name is that of an operation on numbers that is computed.
    pub fn is_nat_red_name(&self, name: NamePtr) -> (r: bool)
        requires
            self.wf(),
            self.ctx.has_name(name),
        ensures
            r == nat_red_name(self.theory(), name@),
    {
        proof {
            self.ctx.known_names();
        }
        let nc = self.ctx.name_cache;
        self.ctx.is_known(name, nc.nat_succ) || self.nat_op(name).is_some() || self.ctx.is_known(
            name,
            nc.nat_div_go,
        ) || self.ctx.is_known(name, nc.nat_mod_core_go)
    }

    /// Whether an operation on numbers is better left alone than unfolded: it is computed by
    /// recursion on its second argument, and that is a number of more than eight bits.
    pub fn nat_red_defer(&mut self, name: NamePtr, xs: &Vec<V>, fuel: u64) -> (r: Result<bool, Stop>)
        requires
            old(self).wf(),
            old(self).ctx.has_name(name),
            old(self).vals.has_vals(xs@),
        ensures
            final(self).wf(),
            old(self).evolves(*final(self)),
            !structural_name(old(self).theory(), name@) || xs@.len() != 2 ==> r == Ok::<bool, Stop>(
                false,
            ),
            structural_name(old(self).theory(), name@) && xs@.len() == 2 && old(self).vals.done(
                xs@[1],
            ) ==> r == Ok::<bool, Stop>(xs@[1]@ is NatLit && xs@[1]@->NatLit_0 > 255),
            r == Ok::<bool, Stop>(true) ==> exists|n: nat| #[trigger]
                red(old(self).theory(), xs@[1]@, Tm::NatLit(n)) && n > 255,
            ends(old(self).theory(), Task::Defer(vtms(xs@)), fuel as nat) && xs@.len() == 2 ==> r is Ok,
        decreases fuel,
    {
        let ghost th = self.theory();
        proof {
            self.ctx.known_names();
            if xs@.len() == 2 {
                ends_next(th, Task::Defer(vtms(xs@)), Task::Thunk(xs@[1]@), fuel as nat);
            }
        }
        let nc = self.ctx.name_cache;
        let structural = self.ctx.is_known(name, nc.nat_add) || self.ctx.is_known(name, nc.nat_sub)
            || self.ctx.is_known(name, nc.nat_mul) || self.ctx.is_known(name, nc.nat_pow);
        if !structural || xs.len() != 2 {
            return Ok(false);
        }
        assert(self.vals.has_val(xs@[1]));
        if fuel == 0 {
            match self.read_val(xs[1]) {
                Value::Thunk { .. } => {
                    return Err(Stop::OutOfFuel);
                },
                _ => {},
            }
        }
        let forced = if fuel == 0 {
            Ok(xs[1])
        } else {
            self.force_thunk(xs[1], fuel - 1)
        };
        proof {
            red_refl(self.theory(), xs@[1]@);
        }
        match forced {
            Ok(v) => {
                proof {
                    self.vals.done_evaluated(self.ctx, self.theory(), v);
                }
                match self.read_val(v) {
                    Value::NatLit { ptr } => match self.ctx.read_bignum(ptr) {
                        Some(n) => {
                            assert(red(self.theory(), xs@[1]@, Tm::NatLit(n@)));
                            Ok(n.exceeds_byte())
                        },
                        None => Ok(false),
                    },
                    Value::Rigid { head, spine } => {
                        proof {
                            self.rigid_is_neutral(v, head, spine);
                        }
                        Ok(false)
                    },
                    Value::Unfold { name, levels, spine, .. } => {
                        proof {
                            crate::value::spine_neutral(Tm::Const(name@, levels@), spine@);
                        }
                        Ok(false)
                    },
                    _ => Ok(false),
                }
            },
            Err(s) => Err(s),
        }
    }

    /// Computes an operation on numbers, reducing the arguments as far as needed.
    pub fn do_nat_red(&mut self, name: NamePtr, xs: &Vec<V>, fuel: u64) -> (r: Result<
        Option<V>,
        Stop,
    >)
        requires
            old(self).wf(),
            old(self).ctx.has_name(name),
            old(self).vals.has_vals(xs@),
        ensures
            final(self).wf(),
            old(self).evolves(*final(self)),
            r matches Ok(Some(v)) ==> final(self).vals.done(v) && forall|ls: Seq<Lv>|
                #[trigger] red(
                    old(self).theory(),
                    apps(Tm::Const(name@, ls), vtms(xs@)),
                    v@,
                ),
            !nat_red_name(old(self).theory(), name@) && fuel > 0 ==> r == Ok::<Option<V>, Stop>(
                None,
            ),
            fuel > 3 && old(self).theory().nat_ext && old(self).vals.all_done(xs@) ==> computed(
                old(self).theory(),
                name@,
                vtms(xs@),
                r,
            ),
            !old(self).theory().nat_ext && fuel > 0 ==> r == Ok::<Option<V>, Stop>(None),
            ends(old(self).theory(), Task::NatRed(name@, vtms(xs@), true), fuel as nat) ==> r is Ok,
            r matches Ok(Some(v)) ==> v@ is NatLit || (v@ matches Tm::Const(n, _) && (is_named(
                old(self).theory().names.bool_true,
                n,
            ) || is_named(old(self).theory().names.bool_false, n))),
            old(self).theory().nat_ext && nats_declared(old(self).theory()) ==> (r matches Ok(o) ==> reckoned(
                old(self).theory(),
                name@,
                vtms(xs@),
                o,
            )),
            r matches Ok(None) && old(self).theory().nat_ext && nats_declared(old(self).theory()) && structural_name(
                old(self).theory(),
                name@,
            ) && xs@.len() == 2 ==> unreadable(old(self).theory(), xs@[0]@) || unreadable(
                old(self).theory(),
                xs@[1]@,
            ),
        decreases fuel,
    {
        if fuel == 0 {
            return Err(Stop::OutOfFuel);
        }
        let ghost th = self.theory();
        proof {
            ends_next(th, Task::NatRed(name@, vtms(xs@), true), Task::NatRedAt(name@, vtms(xs@), true), fuel as nat);
        }
        self.do_nat_red_at(name, xs, true, fuel - 1)
    }

    /// Computes an operation on numbers whose arguments are numbers already.
    pub fn do_nat_red_shallow(&mut self, name: NamePtr, xs: &Vec<V>, fuel: u64) -> (r: Result<
        Option<V>,
        Stop,
    >)
        requires
            old(self).wf(),
            old(self).ctx.has_name(name),
            old(self).vals.has_vals(xs@),
        ensures
            final(self).wf(),
            old(self).evolves(*final(self)),
            r matches Ok(Some(v)) ==> final(self).vals.done(v) && forall|ls: Seq<Lv>|
                #[trigger] red(
                    old(self).theory(),
                    apps(Tm::Const(name@, ls), vtms(xs@)),
                    v@,
                ),
            !nat_red_name(old(self).theory(), name@) && fuel > 0 ==> r == Ok::<Option<V>, Stop>(
                None,
            ),
            fuel > 3 && old(self).theory().nat_ext && old(self).vals.all_done(xs@) ==> computed(
                old(self).theory(),
                name@,
                vtms(xs@),
                r,
            ),
            !old(self).theory().nat_ext && fuel > 0 ==> r == Ok::<Option<V>, Stop>(None),
            ends(old(self).theory(), Task::NatRed(name@, vtms(xs@), false), fuel as nat) ==> r is Ok,
            r matches Ok(Some(v)) ==> v@ is NatLit || (v@ matches Tm::Const(n, _) && (is_named(
                old(self).theory().names.bool_true,
                n,
            ) || is_named(old(self).theory().names.bool_false, n))),
            old(self).theory().nat_ext && nats_declared(old(self).theory()) ==> (r matches Ok(o) ==> reckoned(
                old(self).theory(),
                name@,
                vtms(xs@),
                o,
            )),
        decreases fuel,
    {
        if fuel == 0 {
            return Err(Stop::OutOfFuel);
        }
        let ghost th = self.theory();
        proof {
            ends_next(th, Task::NatRed(name@, vtms(xs@), false), Task::NatRedAt(name@, vtms(xs@), false), fuel as nat);
        }
        self.do_nat_red_at(name, xs, false, fuel - 1)
    }

    /// Computes an operation on numbers.
    pub fn do_nat_red_at(&mut self, name: NamePtr, xs: &Vec<V>, deep: bool, fuel: u64) -> (r: Result<
        Option<V>,
        Stop,
    >)
        requires
            old(self).wf(),
            old(self).ctx.has_name(name),
            old(self).vals.has_vals(xs@),
        ensures
            final(self).wf(),
            old(self).evolves(*final(self)),
            r matches Ok(Some(v)) ==> final(self).vals.done(v) && forall|ls: Seq<Lv>|
                #[trigger] red(
                    old(self).theory(),
                    apps(Tm::Const(name@, ls), vtms(xs@)),
                    v@,
                ),
            !nat_red_name(old(self).theory(), name@) ==> r == Ok::<Option<V>, Stop>(None),
            fuel > 2 && old(self).theory().nat_ext && old(self).vals.all_done(xs@) ==> computed(
                old(self).theory(),
                name@,
                vtms(xs@),
                r,
            ),
            !old(self).theory().nat_ext ==> r == Ok::<Option<V>, Stop>(None),
            ends(old(self).theory(), Task::NatRedAt(name@, vtms(xs@), deep), fuel as nat) ==> r is Ok,
            r matches Ok(Some(v)) ==> v@ is NatLit || (v@ matches Tm::Const(n, _) && (is_named(
                old(self).theory().names.bool_true,
                n,
            ) || is_named(old(self).theory().names.bool_false, n))),
            old(self).theory().nat_ext && nats_declared(old(self).theory()) ==> (r matches Ok(o) ==> reckoned(
                old(self).theory(),
                name@,
                vtms(xs@),
                o,
            )),
            r matches Ok(None) && old(self).theory().nat_ext && nats_declared(old(self).theory()) && deep && structural_name(
                old(self).theory(),
                name@,
            ) && xs@.len() == 2 ==> unreadable(old(self).theory(), xs@[0]@) || unreadable(
                old(self).theory(),
                xs@[1]@,
            ),
        decreases fuel,
    {
        let ghost th = self.theory();
        let ghost zs = vtms(xs@);
        proof {
            self.ctx.known_names();
            ends_sound(th, Task::NatRedAt(name@, zs, deep), fuel as nat);
            if zs.len() == 1 {
                ends_next(th, Task::NatRedAt(name@, zs, deep), Task::SuccOf(zs, deep), fuel as nat);
            }
            if zs.len() == 2 || zs.len() == 5 {
                ends_next(th, Task::NatRedAt(name@, zs, deep), Task::Num(zs[0], deep), fuel as nat);
            }
            if zs.len() == 2 {
                ends_next(th, Task::NatRedAt(name@, zs, deep), Task::Num(zs[1], deep), fuel as nat);
            }
            if zs.len() == 5 {
                ends_next(th, Task::NatRedAt(name@, zs, deep), Task::Num(zs[3], deep), fuel as nat);
            }
        }
        if !self.ctx.nat_extension {
            return Ok(None);
        }
        let cache = self.ctx.name_cache;
        let n: usize = xs.len();
        if n == 1 && self.ctx.is_known(name, cache.nat_succ) {
            if fuel == 0 {
                return Err(Stop::OutOfFuel);
            }
            return self.succ_of(name, xs, deep, fuel - 1);
        }
        let div = self.ctx.is_known(name, cache.nat_div_go);
        if n == 5 && (div || self.ctx.is_known(name, cache.nat_mod_core_go)) {
            if fuel == 0 {
                return Err(Stop::OutOfFuel);
            }
            assert(self.vals.has_val(xs@[0]) && self.vals.has_val(xs@[3]));
            let y = match self.value_to_bignum_at(xs[0], deep, fuel - 1)? {
                Some(y) => y,
                None => {
                    return Ok(None);
                },
            };
            let x = match self.value_to_bignum_at(xs[3], deep, fuel - 1)? {
                Some(x) => x,
                None => {
                    return Ok(None);
                },
            };
            let ghost yv = y@;
            let ghost xv = x@;
            let op = if div {
                NatBinOp::Div
            } else {
                NatBinOp::Mod
            };
            let out = self.do_nat_bin_val(x, y, op)?;
            proof {
                if let Some(v) = out {
                    assert forall|ls: Seq<Lv>| #[trigger]
                        red(th, apps(Tm::Const(name@, ls), zs), v@) by {
                        red_go(th, name@, ls, zs, yv, xv, v@);
                    }
                }
            }
            return Ok(out);
        }
        if n != 2 {
            return Ok(None);
        }
        let op = match self.nat_op(name) {
            Some(op) => op,
            None => {
                return Ok(None);
            },
        };
        if fuel == 0 {
            return Err(Stop::OutOfFuel);
        }
        assert(self.vals.has_val(xs@[0]) && self.vals.has_val(xs@[1]));
        let first = match self.value_to_bignum_at(xs[0], deep, fuel - 1) {
            Ok(x) => x,
            Err(s) => {
                return Err(s);
            },
        };
        let x = match first {
            Some(x) => x,
            None => {
                return Ok(None);
            },
        };
        let second = match self.value_to_bignum_at(xs[1], deep, fuel - 1) {
            Ok(y) => y,
            Err(s) => {
                return Err(s);
            },
        };
        let y = match second {
            Some(y) => y,
            None => {
                return Ok(None);
            },
        };
        let ghost xv = x@;
        let ghost yv = y@;
        let out = match self.do_nat_bin_val(x, y, op) {
            Ok(o) => o,
            Err(s) => {
                return Err(s);
            },
        };
        proof {
            if let Some(v) = out {
                assert forall|ls: Seq<Lv>| #[trigger]
                    red(th, apps(Tm::Const(name@, ls), zs), v@) by {
                    red_bin(th, name@, ls, zs, op, xv, yv, v@);
                }
            }
        }
        Ok(out)
    }

    fn succ_of(&mut self, name: NamePtr, xs: &Vec<V>, deep: bool, fuel: u64) -> (r: Result<
        Option<V>,
        Stop,
    >)
        requires
            old(self).wf(),
            old(self).vals.has_vals(xs@),
            old(self).theory().nat_ext,
            xs@.len() == 1,
            is_named(old(self).theory().names.nat_succ, name@),
        ensures
            final(self).wf(),
            old(self).evolves(*final(self)),
            r matches Ok(Some(v)) ==> final(self).vals.done(v) && forall|ls: Seq<Lv>|
                #[trigger] red(
                    old(self).theory(),
                    apps(Tm::Const(name@, ls), vtms(xs@)),
                    v@,
                ),
            fuel > 1 && old(self).vals.all_done(xs@) ==> (vnum(
                old(self).theory(),
                vtms(xs@)[0],
            ) matches Some(k) ==> (r matches Ok(Some(v)) && v@ == Tm::NatLit(k + 1))),
            ends(old(self).theory(), Task::SuccOf(vtms(xs@), deep), fuel as nat) ==> r is Ok,
            r matches Ok(Some(v)) ==> v@ is NatLit || (v@ matches Tm::Const(n, _) && (is_named(
                old(self).theory().names.bool_true,
                n,
            ) || is_named(old(self).theory().names.bool_false, n))),
            nats_declared(old(self).theory()) ==> (r matches Ok(o) ==> (number(
                old(self).theory(),
                vtms(xs@)[0],
            ) matches Some(k) ==> (o matches Some(v) && v@ == Tm::NatLit(k + 1)))),
        decreases fuel,
    {
        if fuel == 0 {
            return Err(Stop::OutOfFuel);
        }
        let ghost th = self.theory();
        let ghost zs = vtms(xs@);
        assert(self.vals.has_val(xs@[0]));
        proof {
            ends_next(th, Task::SuccOf(zs, deep), Task::Num(zs[0], deep), fuel as nat);
        }
        let found = match self.value_to_bignum_at(xs[0], deep, fuel - 1) {
            Ok(n) => n,
            Err(s) => {
                return Err(s);
            },
        };
        let n = match found {
            Some(n) => n,
            None => {
                return Ok(None);
            },
        };
        let ghost k = n@;
        let one = BigNat::from_u64(1);
        let out = self.mk_natlit_val(n.plus(&one));
        proof {
            if let Some(v) = out {
                assert forall|ls: Seq<Lv>| #[trigger]
                    red(th, apps(Tm::Const(name@, ls), zs), v@) by {
                    red_succ(th, name@, ls, zs[0], k);
                    assert(zs.drop_last() =~= Seq::<Tm>::empty());
                    assert(apps(Tm::Const(name@, ls), zs.drop_last()) == Tm::Const(name@, ls));
                }
            }
        }
        Ok(out)
    }

    /// The outcome of an operation on numbers, as a value.
    pub fn do_nat_bin_val(&mut self, x: BigNat, y: BigNat, op: NatBinOp) -> (r: Result<
        Option<V>,
        Stop,
    >)
        requires
            old(self).wf(),
            x.wf(),
            y.wf(),
        ensures
            final(self).wf(),
            old(self).evolves(*final(self)),
            match r {
                Ok(Some(v)) => final(self).vals.done(v) && out_of(
                    old(self).theory(),
                    op,
                    x@,
                    y@,
                    v@,
                ),
                Ok(None) => op is Beq || op is Ble || !old(self).theory().nat_ext,
                Err(s) => s == Stop::NumberTooLarge && (op is Pow || op is Shl || op is Shr),
            },
            old(self).theory().nat_ext ==> bin_result(old(self).theory(), op, x@, y@, r),
    {
        let ghost xv = x@;
        let ghost yv = y@;
        proof {
            fits_by_value(op, x, y);
        }
        match nat_bin(op, x, y) {
            Some(NatResult::Num(n)) => Ok(self.mk_natlit_val(n)),
            Some(NatResult::Truth(b)) => Ok(self.bool_val(b)),
            None => Err(Stop::NumberTooLarge),
        }
    }

    /// A number as a value. There is one exactly if there are number literals.
    pub fn mk_natlit_val(&mut self, n: BigNat) -> (r: Option<V>)
        requires
            old(self).wf(),
            n.wf(),
        ensures
            final(self).wf(),
            old(self).evolves(*final(self)),
            r is Some <==> old(self).theory().nat_ext,
            r matches Some(v) ==> final(self).vals.done(v) && v@ == Tm::NatLit(n@),
    {
        match self.ctx.alloc_bignum(n) {
            Some(p) => Some(self.mk_natlit(p)),
            None => None,
        }
    }

    /// A truth value as a value. There is one exactly if its name is known.
    pub fn bool_val(&mut self, b: bool) -> (r: Option<V>)
        requires
            old(self).wf(),
        ensures
            final(self).wf(),
            old(self).evolves(*final(self)),
            match if b {
                old(self).theory().names.bool_true
            } else {
                old(self).theory().names.bool_false
            } {
                Some(n) => r matches Some(v) && final(self).vals.done(v) && v@ == plain(n@),
                None => r is None,
            },
    {
        proof {
            self.ctx.known_names();
        }
        let name = if b {
            self.ctx.name_cache.bool_true
        } else {
            self.ctx.name_cache.bool_false
        };
        match name {
            Some(n) => {
                let levels = self.ctx.no_levels();
                Some(self.mk_rigid_head(RigidHead::Ctor(n, levels)))
            },
            None => None,
        }
    }

    /// Whether variables occur in a value, but for those in functions and function types.
    pub fn value_has_free_bvar(&mut self, v: V, fuel: u64) -> (r: Result<bool, Stop>)
        requires
            old(self).wf(),
            old(self).vals.has_val(v),
        ensures
            final(self).wf(),
            old(self).evolves(*final(self)),
            old(self).vals.done(v) ==> (r matches Ok(b) ==> (free_head(v@) ==> b) && (!neutral(v@)
                ==> !b)),
            fuel > 0 && old(self).vals.done(v) && !neutral(v@) ==> r == Ok::<bool, Stop>(false),
            ends(old(self).theory(), Task::Free(v@), fuel as nat) ==> r is Ok,
            r == Ok::<bool, Stop>(true) ==> exists|w: Tm| #[trigger] red(old(self).theory(), v@, w) && mentions_free(
                old(self).theory(),
                w,
            ),
        decreases fuel,
    {
        if fuel == 0 {
            return Err(Stop::OutOfFuel);
        }
        let ghost th = self.theory();
        let ghost from = v@;
        proof {
            ends_next(th, Task::Free(v@), Task::Thunk(v@), fuel as nat);
        }
        let v = match self.force_thunk(v, fuel - 1) {
            Ok(w) => w,
            Err(s) => {
                return Err(s);
            },
        };
        if let Some(b) = self.recall_free(v) {
            return Ok(b);
        }
        let found = match self.read_val(v) {
            Value::Rigid { head, spine } => {
                proof {
                    self.rigid_is_neutral(v, head, spine);
                    free_head_spine(head.tm(), spine@);
                    root_els(head.tm(), spine@);
                    ends_next(th, Task::Free(from), Task::FreeS(spine@), fuel as nat);
                }
                match head {
                    RigidHead::BVar(_, _) => {
                        proof {
                            free_at(head.tm(), spine@);
                            assert(varied(th, v@, 0));
                        }
                        true
                    },
                    RigidHead::Local(_) => {
                        proof {
                            free_at(head.tm(), spine@);
                            assert(varied(th, v@, 0));
                        }
                        true
                    },
                    _ => match self.spine_has_free_bvar(spine, fuel - 1) {
                        Ok(b) => {
                            proof {
                                if b {
                                    spine_mentions(th, v@, spine@);
                                }
                            }
                            b
                        },
                        Err(s) => {
                            return Err(s);
                        },
                    },
                }
            },
            Value::Unfold { name, levels, spine, .. } => {
                proof {
                    crate::value::spine_neutral(Tm::Const(name@, levels@), spine@);
                    free_head_spine(Tm::Const(name@, levels@), spine@);
                    root_els(Tm::Const(name@, levels@), spine@);
                    ends_next(th, Task::Free(from), Task::FreeS(spine@), fuel as nat);
                }
                match self.spine_has_free_bvar(spine, fuel - 1) {
                    Ok(b) => {
                        proof {
                            if b {
                                spine_mentions(th, v@, spine@);
                            }
                        }
                        b
                    },
                    Err(s) => {
                        return Err(s);
                    },
                }
            },
            _ => false,
        };
        self.remember_free(v, found);
        Ok(found)
    }

    fn spine_has_free_bvar(&mut self, spine: S, fuel: u64) -> (r: Result<bool, Stop>)
        requires
            old(self).wf(),
            old(self).vals.has_spine(spine),
        ensures
            final(self).wf(),
            old(self).evolves(*final(self)),
            fuel > 0 && spine@.len() == 0 ==> r == Ok::<bool, Stop>(false),
            ends(old(self).theory(), Task::FreeS(spine@), fuel as nat) ==> r is Ok,
            r == Ok::<bool, Stop>(true) ==> spine_free(old(self).theory(), spine@),
        decreases fuel,
    {
        if fuel == 0 {
            return Err(Stop::OutOfFuel);
        }
        let mut s = spine;
        assert(spine@.take(spine@.len() as int) =~= spine@);
        loop
            invariant
                fuel > 0,
                self.wf(),
                old(self).evolves(*self),
                self.vals.has_spine(s),
                s@.len() <= spine@.len(),
                self.theory() == old(self).theory(),
                s@ == spine@.take(s@.len() as int),
            decreases s@.len(),
        {
            match self.vals.read_spine(s) {
                Spine::Empty => {
                    return Ok(false);
                },
                Spine::Snoc { prev, elim, .. } => {
                    proof {
                        assert(s@.last() == elim.el());
                        assert(spine@[s@.len() - 1] == elim.el());
                        assert(prev@ =~= spine@.take(prev@.len() as int));
                        if let Elim::App(a) = elim {
                            let th = self.theory();
                            ends_next(th, Task::FreeS(spine@), Task::Free(a@), fuel as nat);
                        }
                    }
                    if let Elim::App(a) = elim {
                        if self.value_has_free_bvar(a, fuel - 1)? {
                            proof {
                                let th = self.theory();
                                let w = choose|w: Tm| #[trigger] red(th, a@, w) && mentions_free(th, w);
                                assert(argument(th, spine@[s@.len() - 1], w));
                                assert(spine_free(th, spine@));
                            }
                            return Ok(true);
                        }
                    }
                    s = prev;
                },
            }
        }
    }

    /// The number that a value reduces to.
    pub fn value_to_bignum(&mut self, v: V, fuel: u64) -> (r: Result<Option<BigNat>, Stop>)
        requires
            old(self).wf(),
            old(self).vals.has_val(v),
        ensures
            final(self).wf(),
            old(self).evolves(*final(self)),
            r matches Ok(Some(n)) ==> n.wf() && (old(self).theory().nat_ext ==> red(
                old(self).theory(),
                v@,
                Tm::NatLit(n@),
            )),
            fuel > 1 && old(self).vals.done(v) ==> (vnum(old(self).theory(), v@) matches Some(k) ==> (
            r matches Ok(Some(n)) && n@ == k)),
            ends(old(self).theory(), Task::NumD(v@), fuel as nat) ==> r is Ok,
            nats_declared(old(self).theory()) ==> (r matches Ok(o) ==> read_as(old(self).theory(), v@, o)),
            r matches Ok(None) && old(self).theory().nat_ext && nats_declared(old(self).theory()) ==> unreadable(old(self).theory(), v@),
        decreases fuel,
    {
        if fuel == 0 {
            return Err(Stop::OutOfFuel);
        }
        let ghost th = self.theory();
        proof {
            ends_next(th, Task::NumD(v@), Task::Num(v@, true), fuel as nat);
        }
        self.value_to_bignum_at(v, true, fuel - 1)
    }

    /// The number that a value is: a literal, zero, or a successor of such. Only where that
    /// is asked for, the value is reduced to find out.
    pub fn value_to_bignum_at(&mut self, v: V, deep: bool, fuel: u64) -> (r: Result<
        Option<BigNat>,
        Stop,
    >)
        requires
            old(self).wf(),
            old(self).vals.has_val(v),
        ensures
            final(self).wf(),
            old(self).evolves(*final(self)),
            r matches Ok(Some(n)) ==> n.wf() && (old(self).theory().nat_ext ==> red(
                old(self).theory(),
                v@,
                Tm::NatLit(n@),
            )),
            fuel > 0 && old(self).vals.done(v) ==> (vnum(old(self).theory(), v@) matches Some(k) ==> (
            r matches Ok(Some(n)) && n@ == k)),
            ends(old(self).theory(), Task::Num(v@, deep), fuel as nat) ==> r is Ok,
            nats_declared(old(self).theory()) ==> (r matches Ok(o) ==> read_as(old(self).theory(), v@, o)),
            r matches Ok(None) && deep && old(self).theory().nat_ext && nats_declared(old(self).theory()) ==> unreadable(
                old(self).theory(),
                v@,
            ),
        decreases fuel,
    {
        if fuel == 0 {
            return Err(Stop::OutOfFuel);
        }
        let ghost th = self.theory();
        proof {
            ends_next(th, Task::Num(v@, deep), Task::Thunk(v@), fuel as nat);
        }
        let first = match self.force_thunk(v, fuel - 1) {
            Ok(w) => w,
            Err(s) => {
                return Err(s);
            },
        };
        let ghost was_lit = old(self).vals.done(v) && vnum(th, v@) is Some;
        let mut cur = first;
        let ghost known = if nats_declared(th) {
            number(th, v@)
        } else {
            None
        };
        proof {
            if known is Some {
                number_stays(th, v@, cur@);
            }
        }
        let mut succs: u64 = 0;
        proof {
            if unreadable(th, cur@) {
                unread_trans(th, v@, cur@);
            }
        }
        let ghost sure = ends(th, Task::Num(v@, deep), fuel as nat);
        proof {
            ends_next(th, Task::Num(v@, deep), Task::Peel(cur@, deep), fuel as nat);
        }
        proof {
            assert(forall|k: nat| #[trigger] red(th, cur@, Tm::NatLit(k)) ==> red(
                th,
                v@,
                Tm::NatLit((k + succs) as nat),
            )) by {
                assert forall|k: nat| #[trigger] red(th, cur@, Tm::NatLit(k)) implies red(
                    th,
                    v@,
                    Tm::NatLit((k + succs) as nat),
                ) by {
                    red_trans(th, v@, cur@, Tm::NatLit(k));
                }
            }
        }
        while succs < fuel
            invariant
                fuel > 0,
                self.wf(),
                old(self).evolves(*self),
                self.theory() == th,
                th == old(self).theory(),
                self.vals.done(cur),
                known == (if nats_declared(th) {
                    number(th, v@)
                } else {
                    None::<nat>
                }),
                known matches Some(k) ==> k >= succs && number(th, cur@) == Some((k - succs) as nat),
                nats_declared(th) && unreadable(th, cur@) ==> unreadable(th, v@),
                sure == ends(th, Task::Num(v@, deep), fuel as nat),
                succs <= fuel,
                sure ==> succs < fuel && ends(th, Task::Peel(cur@, deep), (fuel - 1 - succs) as nat),
                was_lit == (old(self).vals.done(v) && vnum(th, v@) is Some),
                was_lit ==> cur == v && succs == 0,
                th.nat_ext ==> forall|k: nat| #[trigger]
                    red(th, cur@, Tm::NatLit(k)) ==> red(
                        th,
                        v@,
                        Tm::NatLit((k + succs) as nat),
                    ),
            decreases fuel - succs,
        {
            let more = BigNat::from_u64(succs);
            let ghost left = (fuel - 1 - succs) as nat;
            proof {
                ends_next(th, Task::Peel(cur@, deep), Task::NumAnd(cur@), left);
                if sure {
                    ends_more(th, Task::NumAnd(cur@), (left - 1) as nat, (fuel - 1) as nat);
                }
            }
            let content = self.read_val(cur);
            proof {
                if was_lit && cur@ is Const {
                    head_kind(th, content, cur@);
                }
                if known is Some {
                    number_kind(th, content, cur@);
                }
                if nats_declared(th) {
                    unread_content(th, content, cur@);
                }
                if nats_declared(th) && blank_number(th, v@) && th.nat_ext {
                    assert forall|k: nat| !#[trigger] red(th, v@, Tm::NatLit(k)) by {
                        if red(th, v@, Tm::NatLit(k)) {
                            blank_stays(th, v@, Tm::NatLit(k));
                        }
                    }
                }
            }
            match content {
                Value::NatLit { ptr } => {
                    proof {
                        red_refl(th, cur@);
                    }
                    return match self.ctx.read_bignum(ptr) {
                        Some(n) => Ok(Some(n.plus(&more))),
                        None => Ok(None),
                    };
                },
                Value::Rigid { head, spine } => {
                    proof {
                        self.rigid_is_neutral(cur, head, spine);
                        self.ctx.known_names();
                    }
                    match head {
                        RigidHead::Ctor(name, levels) => {
                            let empty = match self.vals.read_spine(spine) {
                                Spine::Empty => true,
                                _ => false,
                            };
                            if empty && self.ctx.is_known(name, self.ctx.name_cache.nat_zero) {
                                proof {
                                    if th.nat_ext {
                                        red_zero(th, name@, levels@);
                                    }
                                }
                                return Ok(Some(more));
                            }
                            if !self.ctx.is_known(name, self.ctx.name_cache.nat_succ) {
                                return Ok(None);
                            }
                            let a = match self.only_arg(spine) {
                                Some(a) => a,
                                None => {
                                    return Ok(None);
                                },
                            };
                            proof {
                                spine_push(head.tm(), Seq::empty(), El::App(a@));
                                assert(spine@ =~= Seq::<El>::empty().push(El::App(a@)));
                                ends_next(th, Task::Peel(cur@, deep), Task::Thunk(a@), left);
                                if sure {
                                    ends_more(th, Task::Thunk(a@), (left - 1) as nat, (fuel - 1) as nat);
                                }
                            }
                            let next = self.force_thunk(a, fuel - 1)?;
                            proof {
                                if known is Some {
                                    number_stays(th, a@, next@);
                                }
                                if nats_declared(th) && unreadable(th, next@) {
                                    unread_trans(th, a@, next@);
                                    unread_succ(th, head.tm(), a@);
                                }
                                ends_next(th, Task::Peel(cur@, deep), Task::Peel(next@, deep), left);
                            }
                            proof {
                                spine_push(head.tm(), Seq::empty(), El::App(a@));
                                assert(spine@ =~= Seq::<El>::empty().push(El::App(a@)));
                                if th.nat_ext {
                                    assert forall|k: nat| #[trigger]
                                        red(th, next@, Tm::NatLit(k)) implies red(
                                        th,
                                        v@,
                                        Tm::NatLit((k + succs + 1) as nat),
                                    ) by {
                                        red_trans(th, a@, next@, Tm::NatLit(k));
                                        red_succ(th, name@, levels@, a@, k);
                                        assert(red(th, cur@, Tm::NatLit(k + 1)));
                                    }
                                }
                            }
                            succs = succs + 1;
                            cur = next;
                        },
                        RigidHead::Recursor(_, _) => {
                            return if deep {
                                self.bignum_and(cur, more, fuel - 1)
                            } else {
                                Ok(None)
                            };
                        },
                        RigidHead::QuotConst(_, _) => {
                            return if deep {
                                self.bignum_and(cur, more, fuel - 1)
                            } else {
                                Ok(None)
                            };
                        },
                        _ => {
                            return Ok(None);
                        },
                    }
                },
                Value::Unfold { name, levels, spine, head_value, .. } => {
                    let ghost t = Tm::Const(name@, levels@);
                    proof {
                        crate::value::spine_neutral(t, spine@);
                    }
                    let empty = match self.vals.read_spine(spine) {
                        Spine::Empty => true,
                        _ => false,
                    };
                    if empty {
                        if let Some(hv) = self.vals.read_cell(head_value, Ghost(t)) {
                            assert(self.vals.fit(self.ctx, th));
                            if let Value::NatLit { ptr } = self.read_val(hv) {
                                return match self.ctx.read_bignum(ptr) {
                                    Some(n) => {
                                        assert(red(th, cur@, Tm::NatLit(n@)));
                                        Ok(Some(n.plus(&more)))
                                    },
                                    None => Ok(None),
                                };
                            }
                        }
                    }
                    return if deep {
                        self.bignum_and(cur, more, fuel - 1)
                    } else {
                        Ok(None)
                    };
                },
                _ => {
                    return Ok(None);
                },
            }
        }
        Err(Stop::OutOfFuel)
    }

    fn bignum_and(&mut self, v: V, more: BigNat, fuel: u64) -> (r: Result<Option<BigNat>, Stop>)
        requires
            old(self).wf(),
            old(self).vals.done(v),
        ensures
            final(self).wf(),
            old(self).evolves(*final(self)),
            r matches Ok(Some(n)) ==> n.wf() && n@ >= more@ && (old(self).theory().nat_ext ==> red(
                old(self).theory(),
                v@,
                Tm::NatLit((n@ - more@) as nat),
            )),
            fuel > 3 && v@ is NatLit ==> (r matches Ok(Some(n)) && n@ == v@->NatLit_0 + more@),
            ends(old(self).theory(), Task::NumAnd(v@), fuel as nat) ==> r is Ok,
            r matches Ok(None) && old(self).theory().nat_ext && nats_declared(old(self).theory()) && !(old(self).vals.node(v) matches Value::Rigid {
                head: RigidHead::Ctor(_, _),
                ..
            }) ==> unreadable(old(self).theory(), v@),
        decreases fuel,
    {
        if fuel == 0 {
            return Err(Stop::OutOfFuel);
        }
        let ghost th = self.theory();
        proof {
            ends_next(th, Task::NumAnd(v@), Task::NumVia(v@), fuel as nat);
        }
        match self.bignum_via_force(v, fuel - 1)? {
            Some(n) => Ok(Some(n.plus(&more))),
            None => Ok(None),
        }
    }

    /// The number that a value without variables reduces to.
    pub fn bignum_via_force(&mut self, v: V, fuel: u64) -> (r: Result<Option<BigNat>, Stop>)
        requires
            old(self).wf(),
            old(self).vals.done(v),
        ensures
            final(self).wf(),
            old(self).evolves(*final(self)),
            r matches Ok(Some(n)) ==> n.wf() && (old(self).theory().nat_ext ==> red(
                old(self).theory(),
                v@,
                Tm::NatLit(n@),
            )),
            free_head(v@) ==> !(r matches Ok(Some(_))),
            fuel > 2 && v@ is NatLit ==> (r matches Ok(Some(n)) && n@ == v@->NatLit_0),
            fuel > 2 && !neutral(v@) && !(v@ is NatLit) ==> (r matches Ok(None)),
            ends(old(self).theory(), Task::NumVia(v@), fuel as nat) ==> r is Ok,
            r matches Ok(None) && old(self).theory().nat_ext && nats_declared(old(self).theory()) && !(old(self).vals.node(v) matches Value::Rigid {
                head: RigidHead::Ctor(_, _),
                ..
            }) ==> unreadable(old(self).theory(), v@),
        decreases fuel,
    {
        if fuel == 0 {
            return Err(Stop::OutOfFuel);
        }
        let ghost th = self.theory();
        proof {
            ends_next(th, Task::NumVia(v@), Task::Free(v@), fuel as nat);
            ends_next(th, Task::NumVia(v@), Task::Forcing(Seq::empty(), v@), fuel as nat);
        }
        if self.value_has_free_bvar(v, fuel - 1)? {
            proof {
                let w = choose|w: Tm| #[trigger] red(th, v@, w) && mentions_free(th, w);
                let n = choose|n: nat| #[trigger] varied(th, w, n);
                unread_varied(th, w, n);
                unread_trans(th, v@, w);
            }
            return Ok(None);
        }
        let f = self.force_all(v, fuel - 1)?;
        proof {
            self.ctx.known_names();
        }
        let content = self.read_val(f);
        proof {
            if nats_declared(th) && !numeral(th, f@) {
                unread_rests(th, f@);
                unread_trans(th, v@, f@);
            }
            if nats_declared(th) && numeral(th, f@) {
                numeral_kind(th, content, f@);
            }
            if f.idx == v.idx {
                self.vals.nodes_at(f, v);
            }
        }
        match content {
            Value::NatLit { ptr } => match self.ctx.read_bignum(ptr) {
                Some(n) => Ok(Some(n.dup())),
                None => Ok(None),
            },
            Value::Rigid { head: RigidHead::Ctor(name, levels), spine } => {
                let cache = self.ctx.name_cache;
                if !self.ctx.is_known(name, cache.nat_zero) && !self.ctx.is_known(
                    name,
                    cache.nat_succ,
                ) {
                    return Ok(None);
                }
                if f.idx == v.idx {
                    return Ok(None);
                }
                proof {
                    root_els(Tm::Const(name@, levels@), spine@);
                    ends_next(th, Task::NumVia(v@), Task::NumD(f@), fuel as nat);
                }
                let n = self.value_to_bignum(f, fuel - 1)?;
                proof {
                    if n is None && th.nat_ext && nats_declared(th) {
                        unread_trans(th, v@, f@);
                    }
                    if n is Some && th.nat_ext {
                        red_trans(th, v@, f@, Tm::NatLit(n->0@));
                    }
                }
                Ok(n)
            },
            _ => Ok(None),
        }
    }
}

/// A variable occurs in what an argument in the spine reduces to.
pub open spec fn spine_free(th: Theory, es: Seq<El>) -> bool {
    exists|i: int, b: Tm|
        0 <= i < es.len() && #[trigger] argument(th, es[i], b) && mentions_free(th, b)
}

proof fn spine_mentions(th: Theory, t: Tm, es: Seq<El>)
    requires
        crate::work::els(t) == es,
        spine_free(th, es),
    ensures
        mentions_free(th, t),
{
    let (i, b) = choose|i: int, b: Tm|
        0 <= i < es.len() && #[trigger] argument(th, es[i], b) && mentions_free(th, b);
    let n = choose|n: nat| #[trigger] varied(th, b, n);
    assert(argument(th, crate::work::els(t)[i], b));
    assert(varied(th, t, n + 1));
}

proof fn free_at(t: Tm, es: Seq<El>)
    requires
        t is Local || t is Free,
    ensures
        at_free(spine_tm(t, es)),
    decreases es.len(),
{
    if es.len() > 0 {
        free_at(t, es.drop_last());
    }
}

/// What is done to a term leaves it a variable, or not, at its head.
pub proof fn free_head_spine(t: Tm, es: Seq<El>)
    ensures
        free_head(spine_tm(t, es)) == free_head(t),
    decreases es.len(),
{
    if es.len() > 0 {
        free_head_spine(t, es.drop_last());
    }
}

} // verus!
