//! What is known of which arguments of a constant are proofs.
use crate::ctx::TcCtx;
use crate::judge::{Ck, Theory};
use crate::laws::{inf, red, red_trans};
use crate::ptr::LevelPtr;
use crate::stable::{declared_type, pi_count};
use crate::tree::{inst1, lv_is_zero, lv_simplify, BinderStyle, Lv, Nm, Tm};
use vstd::prelude::*;

verus! {

/// The number of arguments that are kept track of.
pub const MAX_TRACKED: u32 = 64;

/// What is known of the arguments of a constant, and of its results: bit `i` of `prop_arg`
/// says that argument `i` is a proof, and bit `k` of `prop_result` that the constant applied
/// to `k` arguments is one, where the same bit of `arg_known` or `result_known` is set.
#[derive(Debug, Clone, Copy, PartialEq, Eq, Structural)]
pub struct Sig {
    pub arity: u8,
    pub prop_arg: u64,
    pub arg_known: u64,
    pub prop_result: u64,
    pub result_known: u64,
}

/// The bit is set.
pub open spec fn bit(x: u64, i: nat) -> bool {
    i < 64 && (x >> (i as u64)) & 1 == 1
}

pub proof fn bit_of_and(x: u64, y: u64, i: nat)
    ensures
        bit(x & y, i) <==> bit(x, i) && bit(y, i),
{
    if i < 64 {
        let k = i as u64;
        assert(((x & y) >> k) & 1 == 1 <==> (x >> k) & 1 == 1 && (y >> k) & 1 == 1) by (bit_vector)
            requires
                k < 64,
        ;
    }
}

pub proof fn bit_of_set(x: u64, i: u64, j: nat)
    requires
        i < 64,
    ensures
        bit(x | (1u64 << i), j) <==> bit(x, j) || j == i,
{
    if j < 64 {
        let k = j as u64;
        assert(((x | (1u64 << i)) >> k) & 1 == 1 <==> (x >> k) & 1 == 1 || k == i) by (bit_vector)
            requires
                i < 64,
                k < 64,
        ;
    }
}

pub proof fn bit_of_zero(j: nat)
    ensures
        !bit(0, j),
{
    if j < 64 {
        let k = j as u64;
        assert((0u64 >> k) & 1 == 0) by (bit_vector)
            requires
                k < 64,
        ;
    }
}

proof fn no_bits_above(x: u64, k: u64)
    requires
        k < 64,
        forall|i: nat| k <= i < 64 ==> !bit(x, i),
    ensures
        x >> k == 0,
    decreases 64 - k,
{
    assert(!bit(x, k as nat));
    if k == 63 {
        assert((x >> 63u64) & 1 != 1 ==> x >> 63u64 == 0) by (bit_vector);
    } else {
        let j = (k + 1) as u64;
        no_bits_above(x, j);
        assert((x >> k) & 1 != 1 && x >> j == 0 ==> x >> k == 0) by (bit_vector)
            requires
                k < 63,
                j == k + 1,
        ;
    }
}

/// A number other than zero has a bit that is set.
pub proof fn some_bit(x: u64)
    ensures
        x != 0 <==> exists|i: nat| bit(x, i),
{
    if x == 0 {
        assert forall|i: nat| !bit(x, i) by {
            bit_of_zero(i);
        }
    } else if forall|i: nat| !bit(x, i) {
        no_bits_above(x, 0);
        assert(x >> 0u64 == x) by (bit_vector);
    }
}

impl Sig {
    /// Nothing is known.
    pub open spec fn nothing() -> Sig {
        Sig { arity: 0, prop_arg: 0, arg_known: 0, prop_result: 0, result_known: 0 }
    }

    /// Nothing is known: every argument is relevant.
    pub fn all_relevant() -> (r: Sig)
        ensures
            r == Sig::nothing(),
            forall|i: nat| !r.proof_arg(i),
    {
        proof {
            assert forall|i: nat| !(Sig::nothing()).proof_arg(i) by {
                bit_of_zero(i);
            }
        }
        Sig { arity: 0, prop_arg: 0, arg_known: 0, prop_result: 0, result_known: 0 }
    }

    /// The argument is known to be a proof.
    pub open spec fn proof_arg(self, i: nat) -> bool {
        bit(self.prop_arg, i) && bit(self.arg_known, i)
    }

    /// Whether some argument is known to be a proof.
    pub fn masks_any_arg(&self) -> (r: bool)
        ensures
            r <==> exists|i: nat| self.proof_arg(i),
    {
        proof {
            let x = self.prop_arg & self.arg_known;
            some_bit(x);
            if x != 0 {
                let i = choose|i: nat| bit(x, i);
                bit_of_and(self.prop_arg, self.arg_known, i);
                assert(self.proof_arg(i));
            } else {
                assert forall|i: nat| !self.proof_arg(i) by {
                    bit_of_and(self.prop_arg, self.arg_known, i);
                }
            }
        }
        self.prop_arg & self.arg_known != 0
    }

    /// Whether an argument is known to be a proof.
    pub fn arg_is_proof(&self, idx: u32) -> (r: bool)
        ensures
            r == self.proof_arg(idx as nat),
    {
        proof {
            bit_of_and(self.prop_arg, self.arg_known, idx as nat);
        }
        idx < MAX_TRACKED && ((self.prop_arg & self.arg_known) >> (idx as u64)) & 1 == 1
    }

    /// Whether the constant applied to a number of arguments is known not to be a proof.
    pub fn result_is_not_proof(&self, k: u32) -> (r: bool)
        ensures
            r == (bit(self.result_known, k as nat) && !bit(self.prop_result, k as nat)),
    {
        if k >= MAX_TRACKED {
            return false;
        }
        let known = (self.result_known >> (k as u64)) & 1 == 1;
        let zero = (self.prop_result >> (k as u64)) & 1 == 0;
        proof {
            let p = self.prop_result;
            let j = k as u64;
            assert((p >> j) & 1 == 0 <==> (p >> j) & 1 != 1) by (bit_vector);
        }
        known && zero
    }
}

/// The type has a universe for its type, and that has the level.
pub open spec fn type_level(th: Theory, t: Tm, l: Lv) -> bool {
    exists|m: Lv| #[trigger] inf(th, Ck::Loose, t, Tm::Sort(m)) && l == lv_simplify(m)
}

/// The type reduces to a universe's member of the level.
pub open spec fn has_type_level(th: Theory, ty: Tm, l: Lv) -> bool {
    exists|w: Tm| #[trigger] red(th, ty, w) && type_level(th, w, l)
}

/// Behind binders with the given domains, whose variables are counted from `depth` on, the
/// first type is the last one.
pub open spec fn tele_open(th: Theory, t: Tm, depth: nat, doms: Seq<Tm>, last: Tm) -> bool
    decreases doms.len(),
{
    if doms.len() == 0 {
        red(th, t, last)
    } else {
        exists|nm: Nm, s: BinderStyle, b: Tm|
            #![trigger red(th, t, Tm::Pi(nm, s, Box::new(doms[0]), Box::new(b)))]
            red(th, t, Tm::Pi(nm, s, Box::new(doms[0]), Box::new(b))) && tele_open(
                th,
                inst1(b, Tm::Free(depth, Box::new(doms[0]))),
                depth + 1,
                doms.drop_first(),
                last,
            )
    }
}

/// One more binder at the end of a telescope.
pub proof fn tele_open_push(
    th: Theory,
    t: Tm,
    depth: nat,
    doms: Seq<Tm>,
    last: Tm,
    nm: Nm,
    s: BinderStyle,
    a: Tm,
    b: Tm,
    next: Tm,
)
    requires
        tele_open(th, t, depth, doms, last),
        red(th, last, Tm::Pi(nm, s, Box::new(a), Box::new(b))),
        red(th, inst1(b, Tm::Free(depth + doms.len(), Box::new(a))), next),
    ensures
        tele_open(th, t, depth, doms.push(a), next),
    decreases doms.len(),
{
    let more = doms.push(a);
    if doms.len() == 0 {
        red_trans(th, t, last, Tm::Pi(nm, s, Box::new(a), Box::new(b)));
        assert(more[0] == a);
        assert(more.drop_first() =~= Seq::<Tm>::empty());
        assert(red(th, t, Tm::Pi(nm, s, Box::new(more[0]), Box::new(b))));
        assert(tele_open(
            th,
            inst1(b, Tm::Free(depth, Box::new(a))),
            depth + 1,
            more.drop_first(),
            next,
        ));
    } else {
        let (n1, s1, b1) = choose|nm: Nm, s: BinderStyle, b: Tm|
            #![trigger red(th, t, Tm::Pi(nm, s, Box::new(doms[0]), Box::new(b)))]
            red(th, t, Tm::Pi(nm, s, Box::new(doms[0]), Box::new(b))) && tele_open(
                th,
                inst1(b, Tm::Free(depth, Box::new(doms[0]))),
                depth + 1,
                doms.drop_first(),
                last,
            );
        let inner = inst1(b1, Tm::Free(depth, Box::new(doms[0])));
        tele_open_push(th, inner, depth + 1, doms.drop_first(), last, nm, s, a, b, next);
        assert(more.drop_first() =~= doms.drop_first().push(a));
        assert(more[0] == doms[0]);
        assert(red(th, t, Tm::Pi(n1, s1, Box::new(more[0]), Box::new(b1))));
    }
}

/// The levels that are known, as levels.
pub open spec fn level_list(dom: Seq<Option<LevelPtr>>) -> Seq<Option<Lv>> {
    Seq::new(
        dom.len(),
        |i: int|
            match dom[i] {
                Some(l) => Some(l@),
                None => None,
            },
    )
}

/// The level of the type of the constant applied to `k` arguments, where the levels of the
/// domains from there on are known, and that of the result.
pub open spec fn level_from(dom: Seq<Option<Lv>>, end: Option<Lv>, k: nat) -> Option<Lv>
    decreases dom.len() - k,
{
    if k >= dom.len() {
        end
    } else {
        match (dom[k as int], level_from(dom, end, k + 1)) {
            (Some(s), Some(r)) => Some(lv_simplify(Lv::IMax(Box::new(s), Box::new(r)))),
            _ => None,
        }
    }
}

/// What is known of a constant whose domains have the levels `dom`, and whose result has the
/// level `end`.
pub open spec fn sig_from(dom: Seq<Option<Lv>>, end: Option<Lv>, sig: Sig) -> bool {
    &&& sig.arity == dom.len()
    &&& forall|i: nat| #[trigger]
        bit(sig.arg_known, i) <==> i < dom.len() && dom[i as int] is Some
    &&& forall|i: nat| #[trigger]
        bit(sig.prop_arg, i) <==> i < dom.len() && (dom[i as int] matches Some(l) && lv_is_zero(l))
    &&& forall|k: nat| #[trigger]
        bit(sig.result_known, k) <==> k <= dom.len() && k < 64 && level_from(dom, end, k) is Some
    &&& forall|k: nat| #[trigger]
        bit(sig.prop_result, k) <==> k <= dom.len() && k < 64 && (level_from(
            dom,
            end,
            k,
        ) matches Some(l) && lv_is_zero(l))
}

/// What is known of a constant is so: its type has these domains and this result, of which
/// the levels are known in part. The domains that its declared type shows are there, up to
/// the number that is kept track of.
pub open spec fn sig_ok(th: Theory, n: Nm, ls: Seq<Lv>, sig: Sig) -> bool {
    &&& sig.arity <= MAX_TRACKED
    &&& sig.arity == MAX_TRACKED || sig.arity >= pi_count(declared_type(th, n, ls))
    &&& pi_count(declared_type(th, n, ls)) > MAX_TRACKED ==> sig.arity == MAX_TRACKED && forall|k: nat|
        !#[trigger] bit(sig.result_known, k)
    &&& exists|t: Tm, doms: Seq<Tm>, last: Tm, dom: Seq<Option<Lv>>, end: Option<Lv>|
        #![trigger tele_open(th, t, 0, doms, last), sig_from(dom, end, sig)]
        {
            &&& inf(th, Ck::Loose, Tm::Const(n, ls), t)
            &&& tele_open(th, t, 0, doms, last)
            &&& levels_ok(th, doms, dom)
            &&& match end {
                Some(l) => has_type_level(th, last, l),
                None => crate::work::no_level(th, last) || doms.len() == 64,
            }
            &&& sig_from(dom, end, sig)
        }
}

/// The known levels are those of the types, and where none is known, there is none.
pub open spec fn levels_ok(th: Theory, doms: Seq<Tm>, dom: Seq<Option<Lv>>) -> bool {
    &&& doms.len() == dom.len()
    &&& forall|i: int|
        0 <= i < dom.len() ==> match #[trigger] dom[i] {
            Some(l) => has_type_level(th, doms[i], l),
            None => crate::work::no_level(th, doms[i]),
        }
}

/// The level, if it is known, is valid.
pub open spec fn level_valid(ctx: TcCtx, l: Option<LevelPtr>) -> bool {
    l matches Some(p) ==> ctx.has_level(p)
}

/// The levels that are known are valid.
pub open spec fn levels_valid(ctx: TcCtx, dom: Seq<Option<LevelPtr>>) -> bool {
    forall|i: int| 0 <= i < dom.len() ==> level_valid(ctx, #[trigger] dom[i])
}

pub proof fn none_from(ls: Seq<Option<Lv>>, e: Option<Lv>, k: nat)
    requires
        e is None,
    ensures
        level_from(ls, e, k) is None,
    decreases ls.len() - k,
{
    if k < ls.len() {
        none_from(ls, e, k + 1);
    }
}

pub proof fn none_before(ls: Seq<Option<Lv>>, e: Option<Lv>, k: nat, at: nat)
    requires
        k <= at < ls.len(),
        ls[at as int] is None,
    ensures
        level_from(ls, e, k) is None,
    decreases at - k,
{
    if k < at {
        none_before(ls, e, k + 1, at);
    }
}

/// The end of a telescope may be reduced.
pub proof fn tele_open_end(th: Theory, t: Tm, depth: nat, doms: Seq<Tm>, last: Tm, next: Tm)
    requires
        tele_open(th, t, depth, doms, last),
        red(th, last, next),
    ensures
        tele_open(th, t, depth, doms, next),
    decreases doms.len(),
{
    if doms.len() == 0 {
        red_trans(th, t, last, next);
    } else {
        let (nm, s, b) = choose|nm: Nm, s: BinderStyle, b: Tm|
            #![trigger red(th, t, Tm::Pi(nm, s, Box::new(doms[0]), Box::new(b)))]
            red(th, t, Tm::Pi(nm, s, Box::new(doms[0]), Box::new(b))) && tele_open(
                th,
                inst1(b, Tm::Free(depth, Box::new(doms[0]))),
                depth + 1,
                doms.drop_first(),
                last,
            );
        tele_open_end(
            th,
            inst1(b, Tm::Free(depth, Box::new(doms[0]))),
            depth + 1,
            doms.drop_first(),
            last,
            next,
        );
    }
}

} // verus!
