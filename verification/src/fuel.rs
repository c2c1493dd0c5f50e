//! More fuel does no harm: where a strategy has an answer, it has the same answer with more
//! fuel.
use crate::bignum::NatBinOp;
use crate::env::RecursorData;
use crate::judge::{Ck, Theory};
use crate::steps::{
    args_at, args_check_at, bin_at, checks_at, deq_at, deq_core_at,
    deq_reduced_at, eta_at, eta_deq_at, fields_at, heads_at, inside_at,
    k_at, level_checks_at, major_at, nat_at, params_at, pi_at,
    pi_level_at, proj_at, proj_type_at, proof_at, prop_at, quot_at,
    rec_at, sort_at, sort_checks_at, spine_type_at, str_at, strong_at,
    type_at, type_whnf_at, whnf_at, whnf_core_at, whnf_go, zero_at,
    whnf_core_first, whnf_first, go_first, nat_first, bin_first, str_first,
    proj_first, quot_first, rec_first, major_first, k_first, eta_first,
    type_first, spine_type_first, pi_first, pi_level_first, type_whnf_first, sort_first,
    zero_first, prop_first, params_first, fields_first, proj_type_first, deq_first,
    deq_core_first, deq_reduced_first, eta_deq_first, heads_first, args_first, checks_first,
    args_check_first, level_checks_first, strong_first, inside_first,
};
use crate::tree::{Lv, Nm, Tm};
use vstd::prelude::*;

verus! {

/// The answers of `whnf_core_at` stay with one more unit of fuel.
pub open spec fn whnf_core_keeps(th: Theory, k: nat) -> bool {
    forall|e: Tm| #[trigger]
        whnf_core_at(th, e, k) is Some ==> whnf_core_at(th, e, k + 1) == whnf_core_at(th, e, k)
}

/// The answers of `whnf_at` stay with one more unit of fuel.
pub open spec fn whnf_keeps(th: Theory, k: nat) -> bool {
    forall|e: Tm| #[trigger]
        whnf_at(th, e, k) is Some ==> whnf_at(th, e, k + 1) == whnf_at(th, e, k)
}

/// The answers of `whnf_go` stay with one more unit of fuel.
pub open spec fn go_keeps(th: Theory, k: nat) -> bool {
    forall|e: Tm, left: nat| #[trigger]
        whnf_go(th, e, left, k) is Some ==> whnf_go(th, e, left + 1, k + 1) == whnf_go(th, e, left, k)
}

/// The answers of `nat_at` stay with one more unit of fuel.
pub open spec fn nat_keeps(th: Theory, k: nat) -> bool {
    forall|e: Tm| #[trigger]
        nat_at(th, e, k) is Some ==> nat_at(th, e, k + 1) == nat_at(th, e, k)
}

/// The answers of `bin_at` stay with one more unit of fuel.
pub open spec fn bin_keeps(th: Theory, k: nat) -> bool {
    forall|x: Tm, y: Tm, op: NatBinOp| #[trigger]
        bin_at(th, x, y, op, k) is Some ==> bin_at(th, x, y, op, k + 1) == bin_at(th, x, y, op, k)
}

/// The answers of `str_at` stay with one more unit of fuel.
pub open spec fn str_keeps(th: Theory, k: nat) -> bool {
    forall|s: Seq<char>| #[trigger]
        str_at(th, s, k) is Some ==> str_at(th, s, k + 1) == str_at(th, s, k)
}

/// The answers of `proj_at` stay with one more unit of fuel.
pub open spec fn proj_keeps(th: Theory, k: nat) -> bool {
    forall|i: nat, s: Tm| #[trigger]
        proj_at(th, i, s, k) is Some ==> proj_at(th, i, s, k + 1) == proj_at(th, i, s, k)
}

/// The answers of `quot_at` stay with one more unit of fuel.
pub open spec fn quot_keeps(th: Theory, k: nat) -> bool {
    forall|c: Nm, xs: Seq<Tm>| #[trigger]
        quot_at(th, c, xs, k) is Some ==> quot_at(th, c, xs, k + 1) == quot_at(th, c, xs, k)
}

/// The answers of `rec_at` stay with one more unit of fuel.
pub open spec fn rec_keeps(th: Theory, k: nat) -> bool {
    forall|c: Nm, ls: Seq<Lv>, xs: Seq<Tm>| #[trigger]
        rec_at(th, c, ls, xs, k) is Some ==> rec_at(th, c, ls, xs, k + 1) == rec_at(th, c, ls, xs, k)
}

/// The answers of `major_at` stay with one more unit of fuel.
pub open spec fn major_keeps(th: Theory, k: nat) -> bool {
    forall|rec: RecursorData, w: Tm| #[trigger]
        major_at(th, rec, w, k) is Some ==> major_at(th, rec, w, k + 1) == major_at(th, rec, w, k)
}

/// The answers of `k_at` stay with one more unit of fuel.
pub open spec fn k_keeps(th: Theory, k: nat) -> bool {
    forall|rec: RecursorData, major: Tm| #[trigger]
        k_at(th, rec, major, k) is Some ==> k_at(th, rec, major, k + 1) == k_at(th, rec, major, k)
}

/// The answers of `eta_at` stay with one more unit of fuel.
pub open spec fn eta_keeps(th: Theory, k: nat) -> bool {
    forall|ind: Nm, e: Tm| #[trigger]
        eta_at(th, ind, e, k) is Some ==> eta_at(th, ind, e, k + 1) == eta_at(th, ind, e, k)
}

/// The answers of `type_at` stay with one more unit of fuel.
pub open spec fn type_keeps(th: Theory, k: nat) -> bool {
    forall|e: Tm| #[trigger]
        type_at(th, e, k) is Some ==> type_at(th, e, k + 1) == type_at(th, e, k)
}

/// The answers of `spine_type_at` stay with one more unit of fuel.
pub open spec fn spine_type_keeps(th: Theory, k: nat) -> bool {
    forall|t: Tm, xs: Seq<Tm>| #[trigger]
        spine_type_at(th, t, xs, k) is Some ==> spine_type_at(th, t, xs, k + 1) == spine_type_at(th, t, xs, k)
}

/// The answers of `pi_at` stay with one more unit of fuel.
pub open spec fn pi_keeps(th: Theory, k: nat) -> bool {
    forall|f: Tm| #[trigger]
        pi_at(th, f, k) is Some ==> pi_at(th, f, k + 1) == pi_at(th, f, k)
}

/// The answers of `pi_level_at` stay with one more unit of fuel.
pub open spec fn pi_level_keeps(th: Theory, k: nat) -> bool {
    forall|e: Tm| #[trigger]
        pi_level_at(th, e, k) is Some ==> pi_level_at(th, e, k + 1) == pi_level_at(th, e, k)
}

/// The answers of `type_whnf_at` stay with one more unit of fuel.
pub open spec fn type_whnf_keeps(th: Theory, k: nat) -> bool {
    forall|e: Tm| #[trigger]
        type_whnf_at(th, e, k) is Some ==> type_whnf_at(th, e, k + 1) == type_whnf_at(th, e, k)
}

/// The answers of `sort_at` stay with one more unit of fuel.
pub open spec fn sort_keeps(th: Theory, k: nat) -> bool {
    forall|e: Tm| #[trigger]
        sort_at(th, e, k) is Some ==> sort_at(th, e, k + 1) == sort_at(th, e, k)
}

/// The answers of `zero_at` stay with one more unit of fuel.
pub open spec fn zero_keeps(th: Theory, k: nat) -> bool {
    forall|e: Tm| #[trigger]
        zero_at(th, e, k) is Some ==> zero_at(th, e, k + 1) == zero_at(th, e, k)
}

/// The answers of `prop_at` stay with one more unit of fuel.
pub open spec fn prop_keeps(th: Theory, k: nat) -> bool {
    forall|e: Tm| #[trigger]
        prop_at(th, e, k) is Some ==> prop_at(th, e, k + 1) == prop_at(th, e, k)
}

/// The answers of `params_at` stay with one more unit of fuel.
pub open spec fn params_keeps(th: Theory, k: nat) -> bool {
    forall|t: Tm, xs: Seq<Tm>| #[trigger]
        params_at(th, t, xs, k) is Some ==> params_at(th, t, xs, k + 1) == params_at(th, t, xs, k)
}

/// The answers of `fields_at` stay with one more unit of fuel.
pub open spec fn fields_keeps(th: Theory, k: nat) -> bool {
    forall|t: Tm, s: Tm, ind: Nm, j: nat, is_prop: bool| #[trigger]
        fields_at(th, t, s, ind, j, is_prop, k) is Some ==> fields_at(th, t, s, ind, j, is_prop, k + 1) == fields_at(th, t, s, ind, j, is_prop, k)
}

/// The answers of `proj_type_at` stay with one more unit of fuel.
pub open spec fn proj_type_keeps(th: Theory, k: nat) -> bool {
    forall|i: nat, s: Tm| #[trigger]
        proj_type_at(th, i, s, k) is Some ==> proj_type_at(th, i, s, k + 1) == proj_type_at(th, i, s, k)
}

/// The answers of `proof_at` stay with one more unit of fuel.
pub open spec fn proof_keeps(th: Theory, k: nat) -> bool {
    forall|x: Tm| #[trigger]
        proof_at(th, x, k) is Some ==> proof_at(th, x, k + 1) == proof_at(th, x, k)
}

/// The answers of `deq_at` stay with one more unit of fuel.
pub open spec fn deq_keeps(th: Theory, k: nat) -> bool {
    forall|x: Tm, y: Tm, skip: bool| #[trigger]
        deq_at(th, x, y, skip, k) ==> deq_at(th, x, y, skip, k + 1)
}

/// The answers of `deq_core_at` stay with one more unit of fuel.
pub open spec fn deq_core_keeps(th: Theory, k: nat) -> bool {
    forall|x: Tm, y: Tm| #[trigger]
        deq_core_at(th, x, y, k) ==> deq_core_at(th, x, y, k + 1)
}

/// The answers of `deq_reduced_at` stay with one more unit of fuel.
pub open spec fn deq_reduced_keeps(th: Theory, k: nat) -> bool {
    forall|x: Tm, y: Tm| #[trigger]
        deq_reduced_at(th, x, y, k) ==> deq_reduced_at(th, x, y, k + 1)
}

/// The answers of `eta_deq_at` stay with one more unit of fuel.
pub open spec fn eta_deq_keeps(th: Theory, k: nat) -> bool {
    forall|f: Tm, y: Tm| #[trigger]
        eta_deq_at(th, f, y, k) ==> eta_deq_at(th, f, y, k + 1)
}

/// The answers of `heads_at` stay with one more unit of fuel.
pub open spec fn heads_keeps(th: Theory, k: nat) -> bool {
    forall|f: Tm, g: Tm| #[trigger]
        heads_at(th, f, g, k) ==> heads_at(th, f, g, k + 1)
}

/// The answers of `args_at` stay with one more unit of fuel.
pub open spec fn args_keeps(th: Theory, k: nat) -> bool {
    forall|xs: Seq<Tm>, ys: Seq<Tm>| #[trigger]
        args_at(th, xs, ys, k) ==> args_at(th, xs, ys, k + 1)
}

/// The answers of `sort_checks_at` stay with one more unit of fuel.
pub open spec fn sort_checks_keeps(th: Theory, k: nat) -> bool {
    forall|ck: Ck, ty: Tm| #[trigger]
        sort_checks_at(th, ck, ty, k) ==> sort_checks_at(th, ck, ty, k + 1)
}

/// The answers of `checks_at` stay with one more unit of fuel.
pub open spec fn checks_keeps(th: Theory, k: nat) -> bool {
    forall|ck: Ck, e: Tm| #[trigger]
        checks_at(th, ck, e, k) ==> checks_at(th, ck, e, k + 1)
}

/// The answers of `args_check_at` stay with one more unit of fuel.
pub open spec fn args_check_keeps(th: Theory, k: nat) -> bool {
    forall|ck: Ck, t: Tm, xs: Seq<Tm>| #[trigger]
        args_check_at(th, ck, t, xs, k) ==> args_check_at(th, ck, t, xs, k + 1)
}

/// The answers of `level_checks_at` stay with one more unit of fuel.
pub open spec fn level_checks_keeps(th: Theory, k: nat) -> bool {
    forall|ck: Ck, e: Tm| #[trigger]
        level_checks_at(th, ck, e, k) ==> level_checks_at(th, ck, e, k + 1)
}

/// The answers of `strong_at` stay with one more unit of fuel.
pub open spec fn strong_keeps(th: Theory, k: nat) -> bool {
    forall|e: Tm, types: bool, proofs: bool| #[trigger]
        strong_at(th, e, types, proofs, k) is Some ==> strong_at(th, e, types, proofs, k + 1) == strong_at(th, e, types, proofs, k)
}

/// The answers of `inside_at` stay with one more unit of fuel.
pub open spec fn inside_keeps(th: Theory, k: nat) -> bool {
    forall|w: Tm, types: bool, proofs: bool| #[trigger]
        inside_at(th, w, types, proofs, k) is Some ==> inside_at(th, w, types, proofs, k + 1) == inside_at(th, w, types, proofs, k)
}

/// All answers stay with one more unit of fuel.
pub open spec fn steady(th: Theory, k: nat) -> bool {
    &&& whnf_core_keeps(th, k)
    &&& whnf_keeps(th, k)
    &&& go_keeps(th, k)
    &&& nat_keeps(th, k)
    &&& bin_keeps(th, k)
    &&& str_keeps(th, k)
    &&& proj_keeps(th, k)
    &&& quot_keeps(th, k)
    &&& rec_keeps(th, k)
    &&& major_keeps(th, k)
    &&& k_keeps(th, k)
    &&& eta_keeps(th, k)
    &&& type_keeps(th, k)
    &&& spine_type_keeps(th, k)
    &&& pi_keeps(th, k)
    &&& pi_level_keeps(th, k)
    &&& type_whnf_keeps(th, k)
    &&& sort_keeps(th, k)
    &&& zero_keeps(th, k)
    &&& prop_keeps(th, k)
    &&& params_keeps(th, k)
    &&& fields_keeps(th, k)
    &&& proj_type_keeps(th, k)
    &&& proof_keeps(th, k)
    &&& deq_keeps(th, k)
    &&& deq_core_keeps(th, k)
    &&& deq_reduced_keeps(th, k)
    &&& eta_deq_keeps(th, k)
    &&& heads_keeps(th, k)
    &&& args_keeps(th, k)
    &&& sort_checks_keeps(th, k)
    &&& checks_keeps(th, k)
    &&& args_check_keeps(th, k)
    &&& level_checks_keeps(th, k)
    &&& strong_keeps(th, k)
    &&& inside_keeps(th, k)
}

/// All answers with a little less fuel stay with one more unit of fuel.
pub open spec fn lower(th: Theory, k: nat) -> bool {
    &&& k > 0 ==> steady(th, (k - 1) as nat)
    &&& k > 1 ==> steady(th, (k - 2) as nat)
    &&& k > 2 ==> steady(th, (k - 3) as nat)
}

proof fn whnf_core_step(th: Theory, k: nat)
    requires
        lower(th, k),
    ensures
        whnf_core_keeps(th, k),
{
    assert forall|e: Tm| #[trigger] whnf_core_at(th, e, k) is Some implies whnf_core_at(th, e, k + 1) == whnf_core_at(th, e, k) by {
        whnf_core_first(th, e);
    }
}

proof fn whnf_step(th: Theory, k: nat)
    requires
        lower(th, k),
    ensures
        whnf_keeps(th, k),
{
    assert forall|e: Tm| #[trigger] whnf_at(th, e, k) is Some implies whnf_at(th, e, k + 1) == whnf_at(th, e, k) by {
        whnf_first(th, e);
    }
}

proof fn go_one(th: Theory, e: Tm, left: nat, k: nat)
    requires
        lower(th, k),
        whnf_core_keeps(th, k),
        nat_keeps(th, k),
    ensures
        whnf_go(th, e, left, k) is Some ==> whnf_go(th, e, left + 1, k + 1) == whnf_go(th, e, left, k),
    decreases left,
{
    go_first(th, e, left);
        go_first(th, e, left + 1);
    if left > 0 && whnf_go(th, e, left, k) is Some {
        let w = whnf_core_at(th, e, k)->0;
        match nat_at(th, w, k)->0 {
            Some(p) => {
                go_one(th, p, (left - 1) as nat, k);
            },
            None => {
                if let Tm::Const(c, ls) = crate::tree::head(w) {
                    if let Some(v) = th.delta(c, ls) {
                        go_one(th, crate::tree::apps(v, crate::tree::args(w)), (left - 1) as nat, k);
                    }
                }
            },
        }
    }
}

proof fn go_step(th: Theory, k: nat)
    requires
        lower(th, k),
        whnf_core_keeps(th, k),
        nat_keeps(th, k),
    ensures
        go_keeps(th, k),
{
    assert forall|e: Tm, left: nat| #[trigger] whnf_go(th, e, left, k) is Some implies whnf_go(th, e, left + 1, k + 1) == whnf_go(th, e, left, k) by {
        go_one(th, e, left, k);
    }
}

proof fn nat_step(th: Theory, k: nat)
    requires
        lower(th, k),
    ensures
        nat_keeps(th, k),
{
    assert forall|e: Tm| #[trigger] nat_at(th, e, k) is Some implies nat_at(th, e, k + 1) == nat_at(th, e, k) by {
        nat_first(th, e);
    }
}

proof fn bin_step(th: Theory, k: nat)
    requires
        lower(th, k),
    ensures
        bin_keeps(th, k),
{
    assert forall|x: Tm, y: Tm, op: NatBinOp| #[trigger] bin_at(th, x, y, op, k) is Some implies bin_at(th, x, y, op, k + 1) == bin_at(th, x, y, op, k) by {
        bin_first(th, x, y, op);
    }
}

proof fn str_step(th: Theory, k: nat)
    requires
        lower(th, k),
    ensures
        str_keeps(th, k),
{
    assert forall|s: Seq<char>| #[trigger] str_at(th, s, k) is Some implies str_at(th, s, k + 1) == str_at(th, s, k) by {
        str_first(th, s);
    }
}

proof fn proj_step(th: Theory, k: nat)
    requires
        lower(th, k),
    ensures
        proj_keeps(th, k),
{
    assert forall|i: nat, s: Tm| #[trigger] proj_at(th, i, s, k) is Some implies proj_at(th, i, s, k + 1) == proj_at(th, i, s, k) by {
        proj_first(th, i, s);
    }
}

proof fn quot_step(th: Theory, k: nat)
    requires
        lower(th, k),
    ensures
        quot_keeps(th, k),
{
    assert forall|c: Nm, xs: Seq<Tm>| #[trigger] quot_at(th, c, xs, k) is Some implies quot_at(th, c, xs, k + 1) == quot_at(th, c, xs, k) by {
        quot_first(th, c, xs);
    }
}

proof fn rec_step(th: Theory, k: nat)
    requires
        lower(th, k),
    ensures
        rec_keeps(th, k),
{
    assert forall|c: Nm, ls: Seq<Lv>, xs: Seq<Tm>| #[trigger] rec_at(th, c, ls, xs, k) is Some implies rec_at(th, c, ls, xs, k + 1) == rec_at(th, c, ls, xs, k) by {
        rec_first(th, c, ls, xs);
    }
}

proof fn major_step(th: Theory, k: nat)
    requires
        lower(th, k),
        str_keeps(th, k),
        eta_keeps(th, k),
    ensures
        major_keeps(th, k),
{
    assert forall|rec: RecursorData, w: Tm| #[trigger] major_at(th, rec, w, k) is Some implies major_at(th, rec, w, k + 1) == major_at(th, rec, w, k) by {
        major_first(th, rec, w);
    }
}

proof fn k_step(th: Theory, k: nat)
    requires
        lower(th, k),
    ensures
        k_keeps(th, k),
{
    assert forall|rec: RecursorData, major: Tm| #[trigger] k_at(th, rec, major, k) is Some implies k_at(th, rec, major, k + 1) == k_at(th, rec, major, k) by {
        k_first(th, rec, major);
    }
}

proof fn eta_step(th: Theory, k: nat)
    requires
        lower(th, k),
    ensures
        eta_keeps(th, k),
{
    assert forall|ind: Nm, e: Tm| #[trigger] eta_at(th, ind, e, k) is Some implies eta_at(th, ind, e, k + 1) == eta_at(th, ind, e, k) by {
        eta_first(th, ind, e);
    }
}

proof fn type_step(th: Theory, k: nat)
    requires
        lower(th, k),
    ensures
        type_keeps(th, k),
{
    assert forall|e: Tm| #[trigger] type_at(th, e, k) is Some implies type_at(th, e, k + 1) == type_at(th, e, k) by {
        type_first(th, e);
    }
}

proof fn spine_type_one(th: Theory, t: Tm, xs: Seq<Tm>, k: nat)
    requires
        lower(th, k),
        pi_keeps(th, k),
    ensures
        spine_type_at(th, t, xs, k) is Some ==> spine_type_at(th, t, xs, k + 1) == spine_type_at(th, t, xs, k),
    decreases xs.len(),
{
    spine_type_first(th, t, xs);
    if xs.len() > 0 {
        spine_type_one(th, t, xs.drop_last(), k);
    }
}

proof fn spine_type_step(th: Theory, k: nat)
    requires
        lower(th, k),
        pi_keeps(th, k),
    ensures
        spine_type_keeps(th, k),
{
    assert forall|t: Tm, xs: Seq<Tm>| #[trigger] spine_type_at(th, t, xs, k) is Some implies spine_type_at(th, t, xs, k + 1) == spine_type_at(th, t, xs, k) by {
        spine_type_one(th, t, xs, k);
    }
}

proof fn pi_step(th: Theory, k: nat)
    requires
        lower(th, k),
    ensures
        pi_keeps(th, k),
{
    assert forall|f: Tm| #[trigger] pi_at(th, f, k) is Some implies pi_at(th, f, k + 1) == pi_at(th, f, k) by {
        pi_first(th, f);
    }
}

proof fn pi_level_step(th: Theory, k: nat)
    requires
        lower(th, k),
    ensures
        pi_level_keeps(th, k),
{
    assert forall|e: Tm| #[trigger] pi_level_at(th, e, k) is Some implies pi_level_at(th, e, k + 1) == pi_level_at(th, e, k) by {
        pi_level_first(th, e);
    }
}

proof fn type_whnf_step(th: Theory, k: nat)
    requires
        lower(th, k),
    ensures
        type_whnf_keeps(th, k),
{
    assert forall|e: Tm| #[trigger] type_whnf_at(th, e, k) is Some implies type_whnf_at(th, e, k + 1) == type_whnf_at(th, e, k) by {
        type_whnf_first(th, e);
    }
}

proof fn sort_step(th: Theory, k: nat)
    requires
        lower(th, k),
    ensures
        sort_keeps(th, k),
{
    assert forall|e: Tm| #[trigger] sort_at(th, e, k) is Some implies sort_at(th, e, k + 1) == sort_at(th, e, k) by {
        sort_first(th, e);
    }
}

proof fn zero_step(th: Theory, k: nat)
    requires
        lower(th, k),
    ensures
        zero_keeps(th, k),
{
    assert forall|e: Tm| #[trigger] zero_at(th, e, k) is Some implies zero_at(th, e, k + 1) == zero_at(th, e, k) by {
        zero_first(th, e);
    }
}

proof fn prop_step(th: Theory, k: nat)
    requires
        lower(th, k),
    ensures
        prop_keeps(th, k),
{
    assert forall|e: Tm| #[trigger] prop_at(th, e, k) is Some implies prop_at(th, e, k + 1) == prop_at(th, e, k) by {
        prop_first(th, e);
    }
}

proof fn params_one(th: Theory, t: Tm, xs: Seq<Tm>, k: nat)
    requires
        lower(th, k),
        whnf_keeps(th, k),
    ensures
        params_at(th, t, xs, k) is Some ==> params_at(th, t, xs, k + 1) == params_at(th, t, xs, k),
    decreases xs.len(),
{
    params_first(th, t, xs);
    if xs.len() > 0 {
        params_one(th, t, xs.drop_last(), k);
    }
}

proof fn params_step(th: Theory, k: nat)
    requires
        lower(th, k),
        whnf_keeps(th, k),
    ensures
        params_keeps(th, k),
{
    assert forall|t: Tm, xs: Seq<Tm>| #[trigger] params_at(th, t, xs, k) is Some implies params_at(th, t, xs, k + 1) == params_at(th, t, xs, k) by {
        params_one(th, t, xs, k);
    }
}

proof fn fields_one(th: Theory, t: Tm, s: Tm, ind: Nm, j: nat, is_prop: bool, k: nat)
    requires
        lower(th, k),
        whnf_keeps(th, k),
        prop_keeps(th, k),
    ensures
        fields_at(th, t, s, ind, j, is_prop, k) is Some ==> fields_at(th, t, s, ind, j, is_prop, k + 1) == fields_at(th, t, s, ind, j, is_prop, k),
    decreases j,
{
    fields_first(th, t, s, ind, j, is_prop);
    if j > 0 {
        fields_one(th, t, s, ind, (j - 1) as nat, is_prop, k);
    }
}

proof fn fields_step(th: Theory, k: nat)
    requires
        lower(th, k),
        whnf_keeps(th, k),
        prop_keeps(th, k),
    ensures
        fields_keeps(th, k),
{
    assert forall|t: Tm, s: Tm, ind: Nm, j: nat, is_prop: bool| #[trigger] fields_at(th, t, s, ind, j, is_prop, k) is Some implies fields_at(th, t, s, ind, j, is_prop, k + 1) == fields_at(th, t, s, ind, j, is_prop, k) by {
        fields_one(th, t, s, ind, j, is_prop, k);
    }
}

proof fn proj_type_step(th: Theory, k: nat)
    requires
        lower(th, k),
    ensures
        proj_type_keeps(th, k),
{
    assert forall|i: nat, s: Tm| #[trigger] proj_type_at(th, i, s, k) is Some implies proj_type_at(th, i, s, k + 1) == proj_type_at(th, i, s, k) by {
        proj_type_first(th, i, s);
    }
}

proof fn proof_step(th: Theory, k: nat)
    requires
        lower(th, k),
    ensures
        proof_keeps(th, k),
{
    assert forall|x: Tm| #[trigger] proof_at(th, x, k) is Some implies proof_at(th, x, k + 1) == proof_at(th, x, k) by {
            }
}

proof fn deq_step(th: Theory, k: nat)
    requires
        lower(th, k),
    ensures
        deq_keeps(th, k),
{
    assert forall|x: Tm, y: Tm, skip: bool| #[trigger] deq_at(th, x, y, skip, k) implies deq_at(th, x, y, skip, k + 1) by {
        deq_first(th, x, y, skip);
    }
}

proof fn deq_core_step(th: Theory, k: nat)
    requires
        lower(th, k),
    ensures
        deq_core_keeps(th, k),
{
    assert forall|x: Tm, y: Tm| #[trigger] deq_core_at(th, x, y, k) implies deq_core_at(th, x, y, k + 1) by {
        deq_core_first(th, x, y);
    }
}

proof fn deq_reduced_step(th: Theory, k: nat)
    requires
        lower(th, k),
    ensures
        deq_reduced_keeps(th, k),
{
    assert forall|x: Tm, y: Tm| #[trigger] deq_reduced_at(th, x, y, k) implies deq_reduced_at(th, x, y, k + 1) by {
        deq_reduced_first(th, x, y);
    }
}

proof fn eta_deq_step(th: Theory, k: nat)
    requires
        lower(th, k),
    ensures
        eta_deq_keeps(th, k),
{
    assert forall|f: Tm, y: Tm| #[trigger] eta_deq_at(th, f, y, k) implies eta_deq_at(th, f, y, k + 1) by {
        eta_deq_first(th, f, y);
    }
}

proof fn heads_step(th: Theory, k: nat)
    requires
        lower(th, k),
    ensures
        heads_keeps(th, k),
{
    assert forall|f: Tm, g: Tm| #[trigger] heads_at(th, f, g, k) implies heads_at(th, f, g, k + 1) by {
        heads_first(th, f, g);
    }
}

proof fn args_one(th: Theory, xs: Seq<Tm>, ys: Seq<Tm>, k: nat)
    requires
        lower(th, k),
        deq_keeps(th, k),
    ensures
        args_at(th, xs, ys, k) ==> args_at(th, xs, ys, k + 1),
    decreases xs.len(),
{
    args_first(th, xs, ys);
    if xs.len() > 0 && ys.len() > 0 {
        args_one(th, xs.drop_last(), ys.drop_last(), k);
    }
}

proof fn args_step(th: Theory, k: nat)
    requires
        lower(th, k),
        deq_keeps(th, k),
    ensures
        args_keeps(th, k),
{
    assert forall|xs: Seq<Tm>, ys: Seq<Tm>| #[trigger] args_at(th, xs, ys, k) implies args_at(th, xs, ys, k + 1) by {
        args_one(th, xs, ys, k);
    }
}

proof fn sort_checks_step(th: Theory, k: nat)
    requires
        lower(th, k),
        sort_keeps(th, k),
    ensures
        sort_checks_keeps(th, k),
{
    assert forall|ck: Ck, ty: Tm| #[trigger] sort_checks_at(th, ck, ty, k) implies sort_checks_at(th, ck, ty, k + 1) by {
            }
}

proof fn checks_step(th: Theory, k: nat)
    requires
        lower(th, k),
    ensures
        checks_keeps(th, k),
{
    assert forall|ck: Ck, e: Tm| #[trigger] checks_at(th, ck, e, k) implies checks_at(th, ck, e, k + 1) by {
        checks_first(th, ck, e);
    }
}

proof fn args_check_one(th: Theory, ck: Ck, t: Tm, xs: Seq<Tm>, k: nat)
    requires
        lower(th, k),
        spine_type_keeps(th, k),
        pi_keeps(th, k),
        type_keeps(th, k),
        checks_keeps(th, k),
    ensures
        args_check_at(th, ck, t, xs, k) ==> args_check_at(th, ck, t, xs, k + 1),
    decreases xs.len(),
{
    args_check_first(th, ck, t, xs);
    if xs.len() > 0 {
        args_check_one(th, ck, t, xs.drop_last(), k);
    }
}

proof fn args_check_step(th: Theory, k: nat)
    requires
        lower(th, k),
        spine_type_keeps(th, k),
        pi_keeps(th, k),
        type_keeps(th, k),
        checks_keeps(th, k),
    ensures
        args_check_keeps(th, k),
{
    assert forall|ck: Ck, t: Tm, xs: Seq<Tm>| #[trigger] args_check_at(th, ck, t, xs, k) implies args_check_at(th, ck, t, xs, k + 1) by {
        args_check_one(th, ck, t, xs, k);
    }
}

proof fn level_checks_step(th: Theory, k: nat)
    requires
        lower(th, k),
    ensures
        level_checks_keeps(th, k),
{
    assert forall|ck: Ck, e: Tm| #[trigger] level_checks_at(th, ck, e, k) implies level_checks_at(th, ck, e, k + 1) by {
        level_checks_first(th, ck, e);
    }
}

proof fn strong_step(th: Theory, k: nat)
    requires
        lower(th, k),
    ensures
        strong_keeps(th, k),
{
    assert forall|e: Tm, types: bool, proofs: bool| #[trigger] strong_at(th, e, types, proofs, k) is Some implies strong_at(th, e, types, proofs, k + 1) == strong_at(th, e, types, proofs, k) by {
        strong_first(th, e, types, proofs);
    }
}

proof fn inside_step(th: Theory, k: nat)
    requires
        lower(th, k),
    ensures
        inside_keeps(th, k),
{
    assert forall|w: Tm, types: bool, proofs: bool| #[trigger] inside_at(th, w, types, proofs, k) is Some implies inside_at(th, w, types, proofs, k + 1) == inside_at(th, w, types, proofs, k) by {
        inside_first(th, w, types, proofs);
    }
}

/// All answers stay with one more unit of fuel.
pub proof fn always_steady(th: Theory, k: nat)
    ensures
        steady(th, k),
    decreases k,
{
    if k > 0 {
        always_steady(th, (k - 1) as nat);
    }
    if k > 1 {
        always_steady(th, (k - 2) as nat);
    }
    if k > 2 {
        always_steady(th, (k - 3) as nat);
    }
    whnf_core_step(th, k);
    whnf_step(th, k);
    nat_step(th, k);
    bin_step(th, k);
    str_step(th, k);
    proj_step(th, k);
    quot_step(th, k);
    rec_step(th, k);
    k_step(th, k);
    eta_step(th, k);
    type_step(th, k);
    pi_step(th, k);
    pi_level_step(th, k);
    type_whnf_step(th, k);
    sort_step(th, k);
    zero_step(th, k);
    prop_step(th, k);
    proj_type_step(th, k);
    proof_step(th, k);
    deq_step(th, k);
    deq_core_step(th, k);
    deq_reduced_step(th, k);
    eta_deq_step(th, k);
    heads_step(th, k);
    checks_step(th, k);
    level_checks_step(th, k);
    strong_step(th, k);
    inside_step(th, k);
    go_step(th, k);
    major_step(th, k);
    spine_type_step(th, k);
    params_step(th, k);
    fields_step(th, k);
    args_step(th, k);
    sort_checks_step(th, k);
    args_check_step(th, k);
}

/// The answer of `whnf_core_at` stays with more fuel.
pub proof fn whnf_core_more(th: Theory, e: Tm, n: nat, m: nat)
    requires
        n <= m,
        whnf_core_at(th, e, n) is Some,
    ensures
        whnf_core_at(th, e, m) == whnf_core_at(th, e, n),
    decreases m,
{
    if n < m {
        whnf_core_more(th, e, n, (m - 1) as nat);
        always_steady(th, (m - 1) as nat);
    }
}

/// The answer of `whnf_at` stays with more fuel.
pub proof fn whnf_more(th: Theory, e: Tm, n: nat, m: nat)
    requires
        n <= m,
        whnf_at(th, e, n) is Some,
    ensures
        whnf_at(th, e, m) == whnf_at(th, e, n),
    decreases m,
{
    if n < m {
        whnf_more(th, e, n, (m - 1) as nat);
        always_steady(th, (m - 1) as nat);
    }
}

/// The answer of `type_at` stays with more fuel.
pub proof fn type_more(th: Theory, e: Tm, n: nat, m: nat)
    requires
        n <= m,
        type_at(th, e, n) is Some,
    ensures
        type_at(th, e, m) == type_at(th, e, n),
    decreases m,
{
    if n < m {
        type_more(th, e, n, (m - 1) as nat);
        always_steady(th, (m - 1) as nat);
    }
}

/// The answer of `deq_at` stays with more fuel.
pub proof fn deq_more(th: Theory, x: Tm, y: Tm, skip: bool, n: nat, m: nat)
    requires
        n <= m,
        deq_at(th, x, y, skip, n),
    ensures
        deq_at(th, x, y, skip, m),
    decreases m,
{
    if n < m {
        deq_more(th, x, y, skip, n, (m - 1) as nat);
        always_steady(th, (m - 1) as nat);
    }
}

/// The answer of `deq_core_at` stays with more fuel.
pub proof fn deq_core_more(th: Theory, x: Tm, y: Tm, n: nat, m: nat)
    requires
        n <= m,
        deq_core_at(th, x, y, n),
    ensures
        deq_core_at(th, x, y, m),
    decreases m,
{
    if n < m {
        deq_core_more(th, x, y, n, (m - 1) as nat);
        always_steady(th, (m - 1) as nat);
    }
}

/// The answer of `deq_reduced_at` stays with more fuel.
pub proof fn deq_reduced_more(th: Theory, x: Tm, y: Tm, n: nat, m: nat)
    requires
        n <= m,
        deq_reduced_at(th, x, y, n),
    ensures
        deq_reduced_at(th, x, y, m),
    decreases m,
{
    if n < m {
        deq_reduced_more(th, x, y, n, (m - 1) as nat);
        always_steady(th, (m - 1) as nat);
    }
}

/// The answer of `checks_at` stays with more fuel.
pub proof fn checks_more(th: Theory, ck: Ck, e: Tm, n: nat, m: nat)
    requires
        n <= m,
        checks_at(th, ck, e, n),
    ensures
        checks_at(th, ck, e, m),
    decreases m,
{
    if n < m {
        checks_more(th, ck, e, n, (m - 1) as nat);
        always_steady(th, (m - 1) as nat);
    }
}

/// The answer of `pi_level_at` stays with more fuel.
pub proof fn pi_level_more(th: Theory, e: Tm, n: nat, m: nat)
    requires
        n <= m,
        pi_level_at(th, e, n) is Some,
    ensures
        pi_level_at(th, e, m) == pi_level_at(th, e, n),
    decreases m,
{
    if n < m {
        pi_level_more(th, e, n, (m - 1) as nat);
        always_steady(th, (m - 1) as nat);
    }
}

/// The answer of `level_checks_at` stays with more fuel.
pub proof fn level_checks_more(th: Theory, ck: Ck, e: Tm, n: nat, m: nat)
    requires
        n <= m,
        level_checks_at(th, ck, e, n),
    ensures
        level_checks_at(th, ck, e, m),
    decreases m,
{
    if n < m {
        level_checks_more(th, ck, e, n, (m - 1) as nat);
        always_steady(th, (m - 1) as nat);
    }
}

/// The answer of `strong_at` stays with more fuel.
pub proof fn strong_more(th: Theory, e: Tm, types: bool, proofs: bool, n: nat, m: nat)
    requires
        n <= m,
        strong_at(th, e, types, proofs, n) is Some,
    ensures
        strong_at(th, e, types, proofs, m) == strong_at(th, e, types, proofs, n),
    decreases m,
{
    if n < m {
        strong_more(th, e, types, proofs, n, (m - 1) as nat);
        always_steady(th, (m - 1) as nat);
    }
}

/// The answer of `inside_at` stays with more fuel.
pub proof fn inside_more(th: Theory, w: Tm, types: bool, proofs: bool, n: nat, m: nat)
    requires
        n <= m,
        inside_at(th, w, types, proofs, n) is Some,
    ensures
        inside_at(th, w, types, proofs, m) == inside_at(th, w, types, proofs, n),
    decreases m,
{
    if n < m {
        inside_more(th, w, types, proofs, n, (m - 1) as nat);
        always_steady(th, (m - 1) as nat);
    }
}

/// The answer of `params_at` stays with more fuel.
pub proof fn params_more(th: Theory, t: Tm, xs: Seq<Tm>, n: nat, m: nat)
    requires
        n <= m,
        params_at(th, t, xs, n) is Some,
    ensures
        params_at(th, t, xs, m) == params_at(th, t, xs, n),
    decreases m,
{
    if n < m {
        params_more(th, t, xs, n, (m - 1) as nat);
        always_steady(th, (m - 1) as nat);
    }
}

/// The answer of `fields_at` stays with more fuel.
pub proof fn fields_more(th: Theory, t: Tm, s: Tm, ind: Nm, j: nat, is_prop: bool, n: nat, m: nat)
    requires
        n <= m,
        fields_at(th, t, s, ind, j, is_prop, n) is Some,
    ensures
        fields_at(th, t, s, ind, j, is_prop, m) == fields_at(th, t, s, ind, j, is_prop, n),
    decreases m,
{
    if n < m {
        fields_more(th, t, s, ind, j, is_prop, n, (m - 1) as nat);
        always_steady(th, (m - 1) as nat);
    }
}

/// The answer of `args_at` stays with more fuel.
pub proof fn args_more(th: Theory, xs: Seq<Tm>, ys: Seq<Tm>, n: nat, m: nat)
    requires
        n <= m,
        args_at(th, xs, ys, n),
    ensures
        args_at(th, xs, ys, m),
    decreases m,
{
    if n < m {
        args_more(th, xs, ys, n, (m - 1) as nat);
        always_steady(th, (m - 1) as nat);
    }
}

/// The answer of `sort_at` stays with more fuel.
pub proof fn sort_more(th: Theory, e: Tm, n: nat, m: nat)
    requires
        n <= m,
        sort_at(th, e, n) is Some,
    ensures
        sort_at(th, e, m) == sort_at(th, e, n),
    decreases m,
{
    if n < m {
        sort_more(th, e, n, (m - 1) as nat);
        always_steady(th, (m - 1) as nat);
    }
}

/// The answer of `type_whnf_at` stays with more fuel.
pub proof fn type_whnf_more(th: Theory, e: Tm, n: nat, m: nat)
    requires
        n <= m,
        type_whnf_at(th, e, n) is Some,
    ensures
        type_whnf_at(th, e, m) == type_whnf_at(th, e, n),
    decreases m,
{
    if n < m {
        type_whnf_more(th, e, n, (m - 1) as nat);
        always_steady(th, (m - 1) as nat);
    }
}

/// The answer of `spine_type_at` stays with more fuel.
pub proof fn spine_type_more(th: Theory, t: Tm, xs: Seq<Tm>, n: nat, m: nat)
    requires
        n <= m,
        spine_type_at(th, t, xs, n) is Some,
    ensures
        spine_type_at(th, t, xs, m) == spine_type_at(th, t, xs, n),
    decreases m,
{
    if n < m {
        spine_type_more(th, t, xs, n, (m - 1) as nat);
        always_steady(th, (m - 1) as nat);
    }
}

/// The answer of `pi_at` stays with more fuel.
pub proof fn pi_more(th: Theory, f: Tm, n: nat, m: nat)
    requires
        n <= m,
        pi_at(th, f, n) is Some,
    ensures
        pi_at(th, f, m) == pi_at(th, f, n),
    decreases m,
{
    if n < m {
        pi_more(th, f, n, (m - 1) as nat);
        always_steady(th, (m - 1) as nat);
    }
}

/// The answer of `args_check_at` stays with more fuel.
pub proof fn args_check_more(th: Theory, ck: Ck, t: Tm, xs: Seq<Tm>, n: nat, m: nat)
    requires
        n <= m,
        args_check_at(th, ck, t, xs, n),
    ensures
        args_check_at(th, ck, t, xs, m),
    decreases m,
{
    if n < m {
        args_check_more(th, ck, t, xs, n, (m - 1) as nat);
        always_steady(th, (m - 1) as nat);
    }
}

/// The answer of `nat_at` stays with more fuel.
pub proof fn nat_more(th: Theory, e: Tm, n: nat, m: nat)
    requires
        n <= m,
        nat_at(th, e, n) is Some,
    ensures
        nat_at(th, e, m) == nat_at(th, e, n),
    decreases m,
{
    if n < m {
        nat_more(th, e, n, (m - 1) as nat);
        always_steady(th, (m - 1) as nat);
    }
}

} // verus!
