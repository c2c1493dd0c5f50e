use nanoda::bignum::{
    nat_bin, nat_div, nat_gcd, nat_land, nat_lor, nat_mod, nat_shl, nat_shr, nat_sub, nat_xor, BigNat,
    NatBinOp, NatResult,
};
use nanoda::known::parse_number;

fn big(n: u64) -> BigNat {
    BigNat::from_u64(n)
}

fn small(n: BigNat) -> u64 {
    match n.to_u64() {
        Some(k) => k,
        None => panic!("more than 64 bits"),
    }
}

fn num(r: Option<NatResult>) -> u64 {
    match r {
        Some(NatResult::Num(n)) => small(n),
        _ => panic!("no number"),
    }
}

fn truth(r: Option<NatResult>) -> bool {
    match r {
        Some(NatResult::Truth(b)) => b,
        _ => panic!("no truth value"),
    }
}

#[test]
fn sums_carry_into_a_new_digit() {
    let s = big(u64::MAX).plus(&big(1));
    assert!(s.to_u64().is_none());
    assert_eq!(s.digits, vec![0, 0, 1]);
    assert_eq!(small(big(20).plus(&big(22))), 42);
}

#[test]
fn products_and_powers() {
    assert_eq!(small(big(6).times(&big(7))), 42);
    assert_eq!(small(big(2).raised(&big(10))), 1024);
    assert_eq!(small(big(5).raised(&big(0))), 1);
    assert_eq!(big(1 << 32).times(&big(1 << 32)).digits, vec![0, 0, 1]);
}

#[test]
fn differences_stop_at_zero() {
    assert_eq!(small(nat_sub(big(10), big(3))), 7);
    assert_eq!(small(nat_sub(big(3), big(10))), 0);
}

#[test]
fn division_by_zero_is_zero_and_leaves_everything() {
    assert_eq!(small(nat_div(big(17), big(5))), 3);
    assert_eq!(small(nat_mod(big(17), big(5))), 2);
    assert_eq!(small(nat_div(big(17), big(0))), 0);
    assert_eq!(small(nat_mod(big(17), big(0))), 17);
}

#[test]
fn greatest_common_divisors() {
    assert_eq!(small(nat_gcd(&big(12), &big(18))), 6);
    assert_eq!(small(nat_gcd(&big(0), &big(9))), 9);
}

#[test]
fn bits() {
    assert_eq!(small(nat_land(big(0b1100), big(0b1010))), 0b1000);
    assert_eq!(small(nat_lor(big(0b1100), big(0b1010))), 0b1110);
    assert_eq!(small(nat_xor(&big(0b1100), &big(0b1010))), 0b0110);
    assert_eq!(small(nat_shl(big(3), big(4))), 48);
    assert_eq!(small(nat_shr(big(48), big(4))), 3);
    assert_eq!(small(nat_shr(big(48), big(100))), 0);
}

#[test]
fn comparison() {
    assert!(big(3).le(&big(3)));
    assert!(big(3).le(&big(4)));
    assert!(!big(4).le(&big(3)));
    assert!(big(9).same(&big(9)));
    assert!(!big(9).same(&big(8)));
}

#[test]
fn leading_zeros_are_dropped() {
    let n = BigNat::new(vec![5, 0, 0]);
    assert_eq!(n.digits, vec![5]);
    assert!(BigNat::new(vec![0, 0]).is_zero());
    assert!(n.same(&n.dup()));
}

#[test]
fn what_is_more_than_a_byte() {
    assert!(!big(255).exceeds_byte());
    assert!(big(256).exceeds_byte());
    assert!(BigNat::new(vec![0, 1]).exceeds_byte());
}

#[test]
fn each_operation_gives_its_outcome() {
    assert_eq!(num(nat_bin(NatBinOp::Add, big(2), big(3))), 5);
    assert_eq!(num(nat_bin(NatBinOp::Sub, big(2), big(3))), 0);
    assert_eq!(num(nat_bin(NatBinOp::Mul, big(2), big(3))), 6);
    assert_eq!(num(nat_bin(NatBinOp::Pow, big(2), big(3))), 8);
    assert_eq!(num(nat_bin(NatBinOp::Mod, big(7), big(3))), 1);
    assert_eq!(num(nat_bin(NatBinOp::Div, big(7), big(3))), 2);
    assert!(truth(nat_bin(NatBinOp::Beq, big(7), big(7))));
    assert!(!truth(nat_bin(NatBinOp::Beq, big(7), big(8))));
    assert!(truth(nat_bin(NatBinOp::Ble, big(7), big(8))));
    assert!(!truth(nat_bin(NatBinOp::Ble, big(8), big(7))));
    assert_eq!(num(nat_bin(NatBinOp::Gcd, big(8), big(12))), 4);
    assert_eq!(num(nat_bin(NatBinOp::LAnd, big(6), big(3))), 2);
    assert_eq!(num(nat_bin(NatBinOp::LOr, big(6), big(3))), 7);
    assert_eq!(num(nat_bin(NatBinOp::XOr, big(6), big(3))), 5);
    assert_eq!(num(nat_bin(NatBinOp::Shl, big(1), big(5))), 32);
    assert_eq!(num(nat_bin(NatBinOp::Shr, big(32), big(5))), 1);
}

#[test]
fn large_exponents_are_not_computed() {
    let huge = BigNat::new(vec![0, 0, 1]);
    assert!(nat_bin(NatBinOp::Pow, big(2), huge.dup()).is_none());
    assert!(nat_bin(NatBinOp::Shl, big(1), huge).is_none());
}

#[test]
fn numbers_are_read() {
    assert_eq!(parse_number("0"), Some(0));
    assert_eq!(parse_number("+17"), Some(17));
    assert_eq!(parse_number("18446744073709551615"), Some(u64::MAX));
    assert_eq!(parse_number("18446744073709551616"), None);
    assert_eq!(parse_number(""), None);
    assert_eq!(parse_number("+"), None);
    assert_eq!(parse_number("-1"), None);
    assert_eq!(parse_number("1x"), None);
}
