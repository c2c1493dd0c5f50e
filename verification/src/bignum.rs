//! Natural numbers of any size: the values that `Nat` literals stand for.
use num_bigint::BigUint;
use num_integer::Integer;
use num_traits::Pow;
use vstd::arithmetic::power::{lemma_pow_positive, pow};
use vstd::prelude::*;

verus! {

/// The number that base 2^32 digits stand for, least significant digit first.
pub open spec fn digits_value(s: Seq<u32>) -> nat
    decreases s.len(),
{
    if s.len() == 0 {
        0
    } else {
        s[0] as nat + 0x1_0000_0000 * digits_value(s.drop_first())
    }
}

/// The most significant digit, if there is one, is not zero.
pub open spec fn canonical(s: Seq<u32>) -> bool {
    s.len() > 0 ==> s.last() != 0
}

/// A natural number, held as base 2^32 digits without leading zeros.
pub struct BigNat {
    pub digits: Vec<u32>,
}

impl View for BigNat {
    type V = nat;

    open spec fn view(&self) -> nat {
        digits_value(self.digits@)
    }
}

/// `x AND y`, bit by bit.
pub open spec fn bit_and(x: nat, y: nat) -> nat
    decreases x,
{
    if x == 0 || y == 0 {
        0
    } else {
        (x % 2) * (y % 2) + 2 * bit_and(x / 2, y / 2)
    }
}

/// `x OR y`, bit by bit.
pub open spec fn bit_or(x: nat, y: nat) -> nat
    decreases x,
{
    if x == 0 {
        y
    } else if y == 0 {
        x
    } else {
        (if x % 2 == 1 || y % 2 == 1 {
            1nat
        } else {
            0nat
        }) + 2 * bit_or(x / 2, y / 2)
    }
}

/// `x XOR y`, bit by bit.
pub open spec fn bit_xor(x: nat, y: nat) -> nat
    decreases x,
{
    if x == 0 {
        y
    } else if y == 0 {
        x
    } else {
        (x + y) % 2 + 2 * bit_xor(x / 2, y / 2)
    }
}

/// The greatest common divisor, with `gcd(x, 0) == x`.
pub open spec fn gcd(x: nat, y: nat) -> nat
    decreases y,
{
    if y == 0 {
        x
    } else {
        gcd(y, x % y)
    }
}

/// `x` to the power `y`.
pub open spec fn nat_power(x: nat, y: nat) -> nat {
    pow(x as int, y) as nat
}

/// Subtraction that stops at zero.
pub open spec fn monus(x: nat, y: nat) -> nat {
    if y > x {
        0
    } else {
        (x - y) as nat
    }
}

/// Division, where a quotient by zero is zero.
pub open spec fn quotient(x: nat, y: nat) -> nat {
    if y == 0 {
        0
    } else {
        x / y
    }
}

/// Remainder, where a remainder by zero is the dividend.
pub open spec fn remainder(x: nat, y: nat) -> nat {
    if y == 0 {
        x
    } else {
        x % y
    }
}

/// `x` to the power `y` has few enough digits for a vector to hold them.
pub open spec fn pow_fits(x: BigNat, y: nat) -> bool {
    x@ <= 1 || (x.digits@.len() * y + 2) * 64 <= isize::MAX
}

/// `2` to the power `y` has few enough digits for a vector to hold them.
pub open spec fn shift_fits(y: nat) -> bool {
    (y + 2) * 64 <= isize::MAX
}

/// Two canonical digit sequences with one value are one sequence.
pub proof fn canonical_digits_unique(s: Seq<u32>, t: Seq<u32>)
    requires
        canonical(s),
        canonical(t),
        digits_value(s) == digits_value(t),
    ensures
        s == t,
    decreases s.len(),
{
    if s.len() == 0 {
        if t.len() > 0 {
            canonical_nonzero(t);
        }
        assert(s =~= t);
    } else if t.len() == 0 {
        canonical_nonzero(s);
    } else {
        let (ds, dt) = (s.drop_first(), t.drop_first());
        assert(canonical(ds)) by {
            if ds.len() > 0 {
                assert(ds.last() == s.last());
            }
        }
        assert(canonical(dt)) by {
            if dt.len() > 0 {
                assert(dt.last() == t.last());
            }
        }
        assert(s[0] == t[0] && digits_value(ds) == digits_value(dt)) by (nonlinear_arith)
            requires
                s[0] as nat + 0x1_0000_0000 * digits_value(ds) == t[0] as nat + 0x1_0000_0000
                    * digits_value(dt),
        ;
        canonical_digits_unique(ds, dt);
        assert(s =~= seq![s[0]] + ds);
        assert(t =~= seq![t[0]] + dt);
    }
}

proof fn canonical_nonzero(s: Seq<u32>)
    requires
        canonical(s),
        s.len() > 0,
    ensures
        digits_value(s) > 0,
    decreases s.len(),
{
    let d = s.drop_first();
    if d.len() > 0 {
        assert(d.last() == s.last());
        canonical_nonzero(d);
    }
}

proof fn trailing_zero(s: Seq<u32>)
    requires
        s.len() > 0,
        s.last() == 0,
    ensures
        digits_value(s.drop_last()) == digits_value(s),
    decreases s.len(),
{
    if s.len() == 1 {
        assert(digits_value(s.drop_first()) == 0);
    } else {
        trailing_zero(s.drop_first());
        assert(s.drop_first().drop_last() =~= s.drop_last().drop_first());
    }
}

/// `num_bigint`'s sum of two `BigUint`s, on the digits that `from_slice` reads
/// and `to_u32_digits` writes, which are canonical.
#[verifier::external_body]
fn big_add(x: &Vec<u32>, y: &Vec<u32>) -> (r: Vec<u32>)
    ensures
        digits_value(r@) == digits_value(x@) + digits_value(y@),
        canonical(r@),
{
    (BigUint::from_slice(x) + BigUint::from_slice(y)).to_u32_digits()
}

/// `num_bigint`'s difference of two `BigUint`s, which panics where it would be negative.
#[verifier::external_body]
fn big_sub(x: &Vec<u32>, y: &Vec<u32>) -> (r: Vec<u32>)
    requires
        digits_value(y@) <= digits_value(x@),
    ensures
        digits_value(r@) == digits_value(x@) - digits_value(y@),
        canonical(r@),
{
    (BigUint::from_slice(x) - BigUint::from_slice(y)).to_u32_digits()
}

/// `num_bigint`'s product of two `BigUint`s.
#[verifier::external_body]
fn big_mul(x: &Vec<u32>, y: &Vec<u32>) -> (r: Vec<u32>)
    ensures
        digits_value(r@) == digits_value(x@) * digits_value(y@),
        canonical(r@),
{
    (BigUint::from_slice(x) * BigUint::from_slice(y)).to_u32_digits()
}

/// `num_traits::Pow` of a `BigUint` by a `BigUint`. It panics where the power is too
/// large for memory, so the size of the power is bounded beforehand.
#[verifier::external_body]
fn big_pow(x: &Vec<u32>, y: &Vec<u32>) -> (r: Vec<u32>)
    requires
        digits_value(x@) <= 1 || (x@.len() * digits_value(y@) + 2) * 64 <= isize::MAX,
    ensures
        digits_value(r@) == nat_power(digits_value(x@), digits_value(y@)),
        canonical(r@),
{
    BigUint::from_slice(x).pow(BigUint::from_slice(y)).to_u32_digits()
}

/// `num_bigint`'s quotient of two `BigUint`s, which panics on division by zero.
#[verifier::external_body]
fn big_div(x: &Vec<u32>, y: &Vec<u32>) -> (r: Vec<u32>)
    requires
        digits_value(y@) != 0,
    ensures
        digits_value(r@) == digits_value(x@) / digits_value(y@),
        canonical(r@),
{
    (BigUint::from_slice(x) / BigUint::from_slice(y)).to_u32_digits()
}

/// `num_bigint`'s remainder of two `BigUint`s, which panics on division by zero.
#[verifier::external_body]
fn big_rem(x: &Vec<u32>, y: &Vec<u32>) -> (r: Vec<u32>)
    requires
        digits_value(y@) != 0,
    ensures
        digits_value(r@) == digits_value(x@) % digits_value(y@),
        canonical(r@),
{
    (BigUint::from_slice(x) % BigUint::from_slice(y)).to_u32_digits()
}

/// `num_integer`'s greatest common divisor of two `BigUint`s.
#[verifier::external_body]
fn big_gcd(x: &Vec<u32>, y: &Vec<u32>) -> (r: Vec<u32>)
    ensures
        digits_value(r@) == gcd(digits_value(x@), digits_value(y@)),
        canonical(r@),
{
    BigUint::from_slice(x).gcd(&BigUint::from_slice(y)).to_u32_digits()
}

/// `num_bigint`'s bitwise AND of two `BigUint`s.
#[verifier::external_body]
fn big_and(x: &Vec<u32>, y: &Vec<u32>) -> (r: Vec<u32>)
    ensures
        digits_value(r@) == bit_and(digits_value(x@), digits_value(y@)),
        canonical(r@),
{
    (BigUint::from_slice(x) & BigUint::from_slice(y)).to_u32_digits()
}

/// `num_bigint`'s bitwise OR of two `BigUint`s.
#[verifier::external_body]
fn big_or(x: &Vec<u32>, y: &Vec<u32>) -> (r: Vec<u32>)
    ensures
        digits_value(r@) == bit_or(digits_value(x@), digits_value(y@)),
        canonical(r@),
{
    (BigUint::from_slice(x) | BigUint::from_slice(y)).to_u32_digits()
}

/// `num_bigint`'s bitwise XOR of two `BigUint`s.
#[verifier::external_body]
fn big_xor(x: &Vec<u32>, y: &Vec<u32>) -> (r: Vec<u32>)
    ensures
        digits_value(r@) == bit_xor(digits_value(x@), digits_value(y@)),
        canonical(r@),
{
    (BigUint::from_slice(x) ^ BigUint::from_slice(y)).to_u32_digits()
}

/// `num_bigint`'s order on `BigUint`s.
#[verifier::external_body]
fn big_le(x: &Vec<u32>, y: &Vec<u32>) -> (r: bool)
    ensures
        r == (digits_value(x@) <= digits_value(y@)),
{
    BigUint::from_slice(x) <= BigUint::from_slice(y)
}

impl BigNat {
    /// The digits have no leading zero.
    pub open spec fn wf(&self) -> bool {
        canonical(self.digits@)
    }

    /// The number of the given digits.
    pub fn new(digits: Vec<u32>) -> (r: BigNat)
        ensures
            r.wf(),
            r@ == digits_value(digits@),
    {
        let mut d = digits;
        while d.len() > 0 && d[d.len() - 1] == 0
            invariant
                digits_value(d@) == digits_value(digits@),
            decreases d@.len(),
        {
            proof {
                trailing_zero(d@);
            }
            d.pop();
        }
        BigNat { digits: d }
    }

    /// The number of a machine word.
    pub fn from_u64(n: u64) -> (r: BigNat)
        ensures
            r.wf(),
            r@ == n,
    {
        let lo: u32 = (n % 0x1_0000_0000) as u32;
        let hi: u32 = (n / 0x1_0000_0000) as u32;
        let mut d: Vec<u32> = Vec::new();
        d.push(lo);
        d.push(hi);
        assert(digits_value(d@) == n) by {
            reveal_with_fuel(digits_value, 3);
            assert(d@.drop_first() =~= seq![hi]);
            assert(seq![hi].drop_first() =~= Seq::<u32>::empty());
        }
        BigNat::new(d)
    }

    /// A copy of the number.
    pub fn dup(&self) -> (r: BigNat)
        requires
            self.wf(),
        ensures
            r.wf(),
            r@ == self@,
            r.digits@ == self.digits@,
    {
        let mut d: Vec<u32> = Vec::new();
        let mut i: usize = 0;
        while i < self.digits.len()
            invariant
                i <= self.digits@.len(),
                d@ == self.digits@.take(i as int),
            decreases self.digits@.len() - i,
        {
            d.push(self.digits[i]);
            i = i + 1;
        }
        assert(d@ =~= self.digits@);
        BigNat { digits: d }
    }

    /// Whether the number is zero.
    pub fn is_zero(&self) -> (r: bool)
        requires
            self.wf(),
        ensures
            r == (self@ == 0),
    {
        proof {
            if self.digits@.len() > 0 {
                canonical_nonzero(self.digits@);
            }
        }
        self.digits.len() == 0
    }

    /// Whether the number needs more than eight bits.
    pub fn exceeds_byte(&self) -> (r: bool)
        requires
            self.wf(),
        ensures
            r == (self@ > 255),
    {
        if self.digits.len() == 0 {
            return false;
        }
        proof {
            let rest = self.digits@.drop_first();
            if rest.len() > 0 {
                assert(rest.last() == self.digits@.last());
                canonical_nonzero(rest);
            }
        }
        self.digits.len() > 1 || self.digits[0] > 255
    }

    /// Whether two numbers are equal.
    pub fn same(&self, other: &BigNat) -> (r: bool)
        requires
            self.wf(),
            other.wf(),
        ensures
            r == (self@ == other@),
            r == (self.digits@ == other.digits@),
    {
        proof {
            if self@ == other@ {
                canonical_digits_unique(self.digits@, other.digits@);
            }
        }
        if self.digits.len() != other.digits.len() {
            return false;
        }
        let mut i: usize = 0;
        while i < self.digits.len()
            invariant
                i <= self.digits@.len(),
                self.digits@.len() == other.digits@.len(),
                self.digits@.take(i as int) == other.digits@.take(i as int),
                self@ == other@ ==> self.digits@ == other.digits@,
            decreases self.digits@.len() - i,
        {
            if self.digits[i] != other.digits[i] {
                return false;
            }
            assert(self.digits@.take(i + 1) =~= self.digits@.take(i as int).push(
                self.digits@[i as int],
            ));
            assert(other.digits@.take(i + 1) =~= other.digits@.take(i as int).push(
                other.digits@[i as int],
            ));
            i = i + 1;
        }
        assert(self.digits@ =~= self.digits@.take(i as int));
        assert(other.digits@ =~= other.digits@.take(i as int));
        true
    }

    /// Whether the first number is at most the second.
    pub fn le(&self, other: &BigNat) -> (r: bool)
        ensures
            r == (self@ <= other@),
    {
        big_le(&self.digits, &other.digits)
    }

    /// The sum.
    pub fn plus(&self, other: &BigNat) -> (r: BigNat)
        ensures
            r.wf(),
            r@ == self@ + other@,
    {
        BigNat { digits: big_add(&self.digits, &other.digits) }
    }

    /// The product.
    pub fn times(&self, other: &BigNat) -> (r: BigNat)
        ensures
            r.wf(),
            r@ == self@ * other@,
    {
        BigNat { digits: big_mul(&self.digits, &other.digits) }
    }

    /// The power.
    pub fn raised(&self, other: &BigNat) -> (r: BigNat)
        requires
            pow_fits(*self, other@),
        ensures
            r.wf(),
            r@ == nat_power(self@, other@),
    {
        BigNat { digits: big_pow(&self.digits, &other.digits) }
    }

    /// The number as a machine word, if it fits.
    pub fn to_u64(&self) -> (r: Option<u64>)
        requires
            self.wf(),
        ensures
            r matches Some(n) ==> n == self@,
            r is None ==> self@ > u64::MAX,
    {
        let d = &self.digits;
        proof {
            reveal_with_fuel(digits_value, 3);
        }
        if d.len() == 0 {
            Some(0)
        } else if d.len() == 1 {
            assert(d@.drop_first() =~= Seq::<u32>::empty());
            Some(d[0] as u64)
        } else if d.len() == 2 {
            assert(d@.drop_first() =~= seq![d@[1]]);
            assert(seq![d@[1]].drop_first() =~= Seq::<u32>::empty());
            Some(d[0] as u64 + (d[1] as u64) * 0x1_0000_0000)
        } else {
            proof {
                let rest = d@.drop_first().drop_first();
                assert(rest.last() == d@.last());
                canonical_nonzero(rest);
            }
            None
        }
    }

    /// Whether the power is small enough to be computed.
    pub fn pow_is_small(&self, other: &BigNat) -> (r: bool)
        requires
            self.wf(),
            other.wf(),
        ensures
            r == pow_fits(*self, other@),
    {
        let one = BigNat::from_u64(1);
        if self.le(&one) {
            return true;
        }
        let max: u128 = isize::MAX as u128;
        match other.to_u64() {
            None => {
                proof {
                    let l = self.digits@.len();
                    let y = other@;
                    assert(l >= 1);
                    assert(l * y >= y) by (nonlinear_arith)
                        requires
                            l >= 1,
                    ;
                }
                false
            },
            Some(y) => {
                let l: u128 = self.digits.len() as u128;
                assert(l * (y as u128) <= u128::MAX) by (nonlinear_arith)
                    requires
                        l <= u64::MAX,
                        y <= u64::MAX,
                ;
                let p: u128 = l * (y as u128);
                if p > max {
                    return false;
                }
                (p + 2) * 64 <= max
            },
        }
    }
}

/// Whether `2` to the power of the number is small enough to be computed.
pub fn shift_is_small(y: &BigNat) -> (r: bool)
    requires
        y.wf(),
    ensures
        r == shift_fits(y@),
{
    let max: u128 = isize::MAX as u128;
    match y.to_u64() {
        None => false,
        Some(n) => (n as u128 + 2) * 64 <= max,
    }
}

/// Subtraction of natural numbers, which stops at zero.
pub fn nat_sub(x: BigNat, y: BigNat) -> (r: BigNat)
    ensures
        r.wf(),
        r@ == monus(x@, y@),
{
    if !y.le(&x) {
        BigNat::from_u64(0)
    } else {
        BigNat { digits: big_sub(&x.digits, &y.digits) }
    }
}

/// Division of natural numbers; by zero it gives zero.
pub fn nat_div(x: BigNat, y: BigNat) -> (r: BigNat)
    requires
        y.wf(),
    ensures
        r.wf(),
        r@ == quotient(x@, y@),
{
    if y.is_zero() {
        BigNat::from_u64(0)
    } else {
        BigNat { digits: big_div(&x.digits, &y.digits) }
    }
}

/// Remainder of natural numbers; by zero it gives the dividend.
pub fn nat_mod(x: BigNat, y: BigNat) -> (r: BigNat)
    requires
        x.wf(),
        y.wf(),
    ensures
        r.wf(),
        r@ == remainder(x@, y@),
{
    if y.is_zero() {
        x
    } else {
        BigNat { digits: big_rem(&x.digits, &y.digits) }
    }
}

/// The greatest common divisor.
pub fn nat_gcd(x: &BigNat, y: &BigNat) -> (r: BigNat)
    ensures
        r.wf(),
        r@ == gcd(x@, y@),
{
    BigNat { digits: big_gcd(&x.digits, &y.digits) }
}

/// Exclusive or of the bits.
pub fn nat_xor(x: &BigNat, y: &BigNat) -> (r: BigNat)
    ensures
        r.wf(),
        r@ == bit_xor(x@, y@),
{
    BigNat { digits: big_xor(&x.digits, &y.digits) }
}

/// `2` to the power `y`.
fn power_of_two(y: &BigNat) -> (r: BigNat)
    requires
        shift_fits(y@),
    ensures
        r.wf(),
        r@ == nat_power(2, y@),
{
    let mut d: Vec<u32> = Vec::new();
    d.push(2);
    let two = BigNat { digits: d };
    proof {
        assert(d@.drop_first() =~= Seq::<u32>::empty());
        reveal_with_fuel(digits_value, 2);
        assert(1 * y@ == y@) by (nonlinear_arith);
    }
    two.raised(y)
}

/// `x` shifted left by `y` bits.
pub fn nat_shl(x: BigNat, y: BigNat) -> (r: BigNat)
    requires
        shift_fits(y@),
    ensures
        r.wf(),
        r@ == x@ * nat_power(2, y@),
{
    let p = power_of_two(&y);
    x.times(&p)
}

/// `x` shifted right by `y` bits.
pub fn nat_shr(x: BigNat, y: BigNat) -> (r: BigNat)
    requires
        shift_fits(y@),
    ensures
        r.wf(),
        r@ == x@ / nat_power(2, y@),
{
    let p = power_of_two(&y);
    proof {
        lemma_pow_positive(2, y@);
    }
    BigNat { digits: big_div(&x.digits, &p.digits) }
}

/// Bitwise and.
pub fn nat_land(x: BigNat, y: BigNat) -> (r: BigNat)
    ensures
        r.wf(),
        r@ == bit_and(x@, y@),
{
    BigNat { digits: big_and(&x.digits, &y.digits) }
}

/// Bitwise or.
pub fn nat_lor(x: BigNat, y: BigNat) -> (r: BigNat)
    ensures
        r.wf(),
        r@ == bit_or(x@, y@),
{
    BigNat { digits: big_or(&x.digits, &y.digits) }
}

/// A binary operation on natural numbers that is computed on literals.
#[derive(Debug, Clone, Copy, PartialEq, Eq, Structural)]
pub enum NatBinOp {
    Add,
    Sub,
    Mul,
    Pow,
    Mod,
    Div,
    Beq,
    Ble,
    Gcd,
    LAnd,
    LOr,
    XOr,
    Shl,
    Shr,
}

/// What a binary operation gives.
pub enum NatOut {
    Num(nat),
    Truth(bool),
}

/// The value of a binary operation.
pub open spec fn nat_bin_out(op: NatBinOp, x: nat, y: nat) -> NatOut {
    match op {
        NatBinOp::Add => NatOut::Num(x + y),
        NatBinOp::Sub => NatOut::Num(monus(x, y)),
        NatBinOp::Mul => NatOut::Num(x * y),
        NatBinOp::Pow => NatOut::Num(nat_power(x, y)),
        NatBinOp::Mod => NatOut::Num(remainder(x, y)),
        NatBinOp::Div => NatOut::Num(quotient(x, y)),
        NatBinOp::Beq => NatOut::Truth(x == y),
        NatBinOp::Ble => NatOut::Truth(x <= y),
        NatBinOp::Gcd => NatOut::Num(gcd(x, y)),
        NatBinOp::LAnd => NatOut::Num(bit_and(x, y)),
        NatBinOp::LOr => NatOut::Num(bit_or(x, y)),
        NatBinOp::XOr => NatOut::Num(bit_xor(x, y)),
        NatBinOp::Shl => NatOut::Num(x * nat_power(2, y)),
        NatBinOp::Shr => NatOut::Num(x / nat_power(2, y)),
    }
}

/// The operands are small enough for the operation to be computed.
pub open spec fn nat_bin_fits(op: NatBinOp, x: BigNat, y: BigNat) -> bool {
    match op {
        NatBinOp::Pow => pow_fits(x, y@),
        NatBinOp::Shl | NatBinOp::Shr => shift_fits(y@),
        _ => true,
    }
}

/// The outcome of a binary operation on the two values is small enough to be computed.
pub open spec fn bin_fits(op: NatBinOp, m: nat, n: nat) -> bool {
    forall|x: BigNat, y: BigNat|
        x.wf() && y.wf() && x@ == m && y@ == n ==> #[trigger] nat_bin_fits(op, x, y)
}

/// Whether the outcome is small enough depends on the values alone.
pub proof fn fits_by_value(op: NatBinOp, x: BigNat, y: BigNat)
    requires
        x.wf(),
        y.wf(),
    ensures
        nat_bin_fits(op, x, y) == bin_fits(op, x@, y@),
{
    if nat_bin_fits(op, x, y) {
        assert forall|a: BigNat, b: BigNat|
            a.wf() && b.wf() && a@ == x@ && b@ == y@ implies #[trigger] nat_bin_fits(op, a, b) by {
            canonical_digits_unique(a.digits@, x.digits@);
            canonical_digits_unique(b.digits@, y.digits@);
        }
    }
}

/// The result of a binary operation.
pub enum NatResult {
    Num(BigNat),
    Truth(bool),
}

impl NatResult {
    /// The result stands for the value.
    pub open spec fn is_out(self, out: NatOut) -> bool {
        match self {
            NatResult::Num(n) => n.wf() && out == NatOut::Num(n@),
            NatResult::Truth(b) => out == NatOut::Truth(b),
        }
    }
}

/// Computes a binary operation; `None` where the operands are too large for it.
pub fn nat_bin(op: NatBinOp, x: BigNat, y: BigNat) -> (r: Option<NatResult>)
    requires
        x.wf(),
        y.wf(),
    ensures
        r is Some <==> nat_bin_fits(op, x, y),
        r matches Some(v) ==> v.is_out(nat_bin_out(op, x@, y@)),
{
    match op {
        NatBinOp::Add => Some(NatResult::Num(x.plus(&y))),
        NatBinOp::Sub => Some(NatResult::Num(nat_sub(x, y))),
        NatBinOp::Mul => Some(NatResult::Num(x.times(&y))),
        NatBinOp::Pow => {
            if x.pow_is_small(&y) {
                Some(NatResult::Num(x.raised(&y)))
            } else {
                None
            }
        },
        NatBinOp::Div => Some(NatResult::Num(nat_div(x, y))),
        NatBinOp::Mod => Some(NatResult::Num(nat_mod(x, y))),
        NatBinOp::Gcd => Some(NatResult::Num(nat_gcd(&x, &y))),
        NatBinOp::LAnd => Some(NatResult::Num(nat_land(x, y))),
        NatBinOp::LOr => Some(NatResult::Num(nat_lor(x, y))),
        NatBinOp::XOr => Some(NatResult::Num(nat_xor(&x, &y))),
        NatBinOp::Shl => {
            if shift_is_small(&y) {
                Some(NatResult::Num(nat_shl(x, y)))
            } else {
                None
            }
        },
        NatBinOp::Shr => {
            if shift_is_small(&y) {
                Some(NatResult::Num(nat_shr(x, y)))
            } else {
                None
            }
        },
        NatBinOp::Beq => Some(NatResult::Truth(x.same(&y))),
        NatBinOp::Ble => Some(NatResult::Truth(x.le(&y))),
    }
}

} // verus!
