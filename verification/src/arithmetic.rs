//! Laws of the operations on numbers.
use crate::bignum::{gcd, nat_bin_out, NatBinOp, NatOut};
use vstd::arithmetic::power::pow;
use vstd::prelude::*;

verus! {

/// The number that an operation gives.
pub open spec fn num(op: NatBinOp, x: nat, y: nat) -> nat {
    nat_bin_out(op, x, y)->Num_0
}

/// Which operations give numbers, and which give truth values: whether the operands are equal,
/// and whether the first is at most the second.
pub proof fn kinds_of_outcomes(op: NatBinOp, x: nat, y: nat)
    ensures
        !(op is Beq) && !(op is Ble) ==> nat_bin_out(op, x, y) is Num,
        op is Beq ==> nat_bin_out(op, x, y) == NatOut::Truth(x == y),
        op is Ble ==> nat_bin_out(op, x, y) == NatOut::Truth(x <= y),
{
}

/// Sums and products by recursion on the second operand.
pub proof fn sums_and_products(x: nat, y: nat)
    ensures
        num(NatBinOp::Add, x, 0) == x,
        num(NatBinOp::Add, x, y + 1) == num(NatBinOp::Add, x, y) + 1,
        num(NatBinOp::Mul, x, 0) == 0,
        num(NatBinOp::Mul, x, y + 1) == num(NatBinOp::Mul, x, y) + x,
{
    assert(x * (y + 1) == x * y + x) by (nonlinear_arith);
}

/// A difference undoes a sum, and stops at zero.
pub proof fn differences(x: nat, y: nat)
    ensures
        num(NatBinOp::Sub, x + y, y) == x,
        num(NatBinOp::Sub, x, x + y) == 0,
{
}

/// Quotient and remainder of a division: the remainder is smaller than the divisor. Division by
/// zero gives zero, and leaves the dividend.
pub proof fn divisions(x: nat, y: nat)
    ensures
        x == num(NatBinOp::Div, x, y) * y + num(NatBinOp::Mod, x, y),
        y > 0 ==> num(NatBinOp::Mod, x, y) < y,
        y == 0 ==> num(NatBinOp::Div, x, y) == 0 && num(NatBinOp::Mod, x, y) == x,
{
    if y > 0 {
        assert(x == (x / y) * y + x % y && x % y < y) by (nonlinear_arith)
            requires
                y > 0,
        ;
    }
}

proof fn power_is_number(x: nat, y: nat)
    ensures
        pow(x as int, y) >= 0,
    decreases y,
{
    reveal(pow);
    if y > 0 {
        power_is_number(x, (y - 1) as nat);
        assert(x * pow(x as int, (y - 1) as nat) >= 0) by (nonlinear_arith)
            requires
                pow(x as int, (y - 1) as nat) >= 0,
        ;
    }
}

/// Powers by recursion on the exponent, and shifts by powers of two.
pub proof fn powers_and_shifts(x: nat, y: nat)
    ensures
        num(NatBinOp::Pow, x, 0) == 1,
        num(NatBinOp::Pow, x, y + 1) == x * num(NatBinOp::Pow, x, y),
        num(NatBinOp::Shl, x, y) == x * num(NatBinOp::Pow, 2, y),
        num(NatBinOp::Shr, x, y) == num(NatBinOp::Div, x, num(NatBinOp::Pow, 2, y)),
{
    reveal(pow);
    power_is_number(x, y);
    power_is_number(x, y + 1);
    power_is_number(2, y);
    assert(pow(x as int, y + 1) == x * pow(x as int, y));
    vstd::arithmetic::power::lemma_pow_positive(2, y);
}

/// The greatest common divisor divides both numbers, and whatever divides both divides it.
pub proof fn divisors(x: nat, y: nat, d: nat)
    requires
        d > 0,
    ensures
        (x % d == 0 && y % d == 0) ==> num(NatBinOp::Gcd, x, y) % d == 0,
        x > 0 || y > 0 ==> num(NatBinOp::Gcd, x, y) > 0 && x % num(NatBinOp::Gcd, x, y) == 0 && y
            % num(NatBinOp::Gcd, x, y) == 0,
    decreases y,
{
    if y > 0 {
        let r = x % y;
        divisors(y, r, d);
        let g = gcd(y, r);
        vstd::arithmetic::div_mod::lemma_fundamental_div_mod(x as int, y as int);
        let q = x / y;
        assert(x == y * q + r);
        if x % d == 0 && y % d == 0 {
            multiples(x, y, q, r, d);
        }
        assert(g > 0 && y % g == 0 && r % g == 0);
        multiple_of_sum(y, q, r, g);
    } else if x > 0 {
        vstd::arithmetic::div_mod::lemma_mod_self_0(x as int);
        assert(0nat % x == 0) by (nonlinear_arith)
            requires
                x > 0,
        ;
    }
}

proof fn multiples(x: nat, y: nat, q: nat, r: nat, d: nat)
    requires
        d > 0,
        x == y * q + r,
        x % d == 0,
        y % d == 0,
    ensures
        r % d == 0,
{
    let a = x / d;
    let b = y / d;
    vstd::arithmetic::div_mod::lemma_fundamental_div_mod(x as int, d as int);
    vstd::arithmetic::div_mod::lemma_fundamental_div_mod(y as int, d as int);
    assert(r == d * (a - b * q)) by (nonlinear_arith)
        requires
            x == y * q + r,
            x == d * a,
            y == d * b,
    ;
    vstd::arithmetic::div_mod::lemma_mod_multiples_basic(a - b * q, d as int);
    assert((a - b * q) * d == d * (a - b * q)) by (nonlinear_arith);
}

proof fn multiple_of_sum(y: nat, q: nat, r: nat, g: nat)
    requires
        g > 0,
        y % g == 0,
        r % g == 0,
    ensures
        (y * q + r) % g == 0,
{
    let b = y / g;
    let c = r / g;
    vstd::arithmetic::div_mod::lemma_fundamental_div_mod(y as int, g as int);
    vstd::arithmetic::div_mod::lemma_fundamental_div_mod(r as int, g as int);
    assert(y * q + r == (b * q + c) * g) by (nonlinear_arith)
        requires
            y == g * b,
            r == g * c,
    ;
    vstd::arithmetic::div_mod::lemma_mod_multiples_basic((b * q + c) as int, g as int);
}

/// The bits of a number with itself, and with zero.
pub proof fn bits(x: nat)
    ensures
        num(NatBinOp::LAnd, x, x) == x,
        num(NatBinOp::LOr, x, x) == x,
        num(NatBinOp::XOr, x, x) == 0,
        num(NatBinOp::LAnd, x, 0) == 0,
        num(NatBinOp::LOr, x, 0) == x,
        num(NatBinOp::XOr, x, 0) == x,
    decreases x,
{
    if x > 0 {
        bits(x / 2);
        assert((x % 2) * (x % 2) == x % 2) by {
            assert(x % 2 == 0 || x % 2 == 1);
        }
    }
}

} // verus!
