//! Arithmetic in the prime field used by every trace register.
use vstd::arithmetic::div_mod::{
    lemma_add_mod_noop, lemma_mod_twice, lemma_mul_mod_noop_left, lemma_mul_mod_noop_right,
    lemma_fundamental_div_mod_converse, lemma_small_mod,
};
use vstd::arithmetic::power::{lemma_pow0, lemma_pow1, lemma_pow_adds, lemma_pow_mod_noop, lemma_pow_multiplies, pow};
use vstd::prelude::*;

verus! {

/// The field modulus: 2^128 - 45 * 2^40 + 1.
pub const MODULUS: u128 = 340282366920938463463374557953744961537;

pub const ZERO: u128 = 0;

pub const ONE: u128 = 1;

/// Exponent of the Rescue S-box.
pub const ALPHA: u128 = 3;

/// Exponent of the inverse Rescue S-box: the inverse of `ALPHA` modulo `MODULUS - 1`.
pub const INV_ALPHA: u128 = 226854911280625642308916371969163307691;

pub open spec fn modulus() -> int {
    MODULUS as int
}

/// A canonical field element.
pub open spec fn is_elem(x: u128) -> bool {
    x < MODULUS
}

pub open spec fn fadd(a: int, b: int) -> int {
    (a + b) % modulus()
}

pub open spec fn fsub(a: int, b: int) -> int {
    (a - b) % modulus()
}

pub open spec fn fmul(a: int, b: int) -> int {
    (a * b) % modulus()
}

pub open spec fn fexp(a: int, e: nat) -> int {
    pow(a, e) % modulus()
}

/// `x` reduced by a known multiple of the modulus.
proof fn lemma_reduce(x: int, k: int)
    requires
        k * modulus() <= x < (k + 1) * modulus(),
    ensures
        x % modulus() == x - k * modulus(),
{
    let m = modulus();
    assert((k + 1) * m == k * m + m) by (nonlinear_arith);
    lemma_fundamental_div_mod_converse(x, m, k, x - k * m);
}

/// Returns `a + b` in the field.
pub fn add(a: u128, b: u128) -> (r: u128)
    requires
        is_elem(a),
        is_elem(b),
    ensures
        r as int == fadd(a as int, b as int),
        is_elem(r),
{
    if a >= MODULUS - b {
        proof {
            lemma_reduce(a + b, 1);
        }
        a - (MODULUS - b)
    } else {
        proof {
            lemma_reduce(a + b, 0);
        }
        a + b
    }
}

/// Returns `a - b` in the field.
pub fn sub(a: u128, b: u128) -> (r: u128)
    requires
        is_elem(a),
        is_elem(b),
    ensures
        r as int == fsub(a as int, b as int),
        is_elem(r),
{
    if a >= b {
        proof {
            lemma_reduce(a - b, 0);
        }
        a - b
    } else {
        proof {
            lemma_reduce(a - b, -1);
        }
        MODULUS - (b - a)
    }
}

/// Returns `-a` in the field.
pub fn neg(a: u128) -> (r: u128)
    requires
        is_elem(a),
    ensures
        r as int == fsub(0, a as int),
        is_elem(r),
{
    crate::field::sub(ZERO, a)
}

proof fn lemma_mul_step(acc: int, addend: int, q: int, bit: int)
    requires
        0 <= acc < modulus(),
        0 <= addend < modulus(),
        q >= 0,
        bit == 0 || bit == 1,
    ensures
        (((acc + bit * addend) % modulus()) + ((2 * addend) % modulus()) * q) % modulus() == (acc
            + addend * (2 * q + bit)) % modulus(),
{
    let m = modulus();
    let x = acc + bit * addend;
    let y = 2 * addend;
    lemma_mul_mod_noop_left(y, q, m);
    lemma_mod_twice(x, m);
    lemma_add_mod_noop(x % m, (y % m) * q, m);
    lemma_add_mod_noop(x, y * q, m);
    lemma_mod_twice((y % m) * q, m);
    assert(x + y * q == acc + addend * (2 * q + bit)) by (nonlinear_arith)
        requires
            x == acc + bit * addend,
            y == 2 * addend,
    ;
}

/// Returns `a * b` in the field.
pub fn mul(a: u128, b: u128) -> (r: u128)
    requires
        is_elem(a),
        is_elem(b),
    ensures
        r as int == fmul(a as int, b as int),
        is_elem(r),
{
    let mut acc: u128 = 0;
    let mut addend: u128 = a;
    let mut rest: u128 = b;
    while rest > 0
        invariant
            is_elem(acc),
            is_elem(addend),
            (acc + addend * rest) % modulus() == (a * b) % modulus(),
        decreases rest,
    {
        let bit: u128 = rest % 2;
        proof {
            lemma_mul_step(acc as int, addend as int, (rest / 2) as int, bit as int);
        }
        if bit == 1 {
            acc = crate::field::add(acc, addend);
        }
        addend = crate::field::add(addend, addend);
        rest = rest / 2;
    }
    proof {
        lemma_small_mod(acc as nat, modulus() as nat);
    }
    acc
}

proof fn lemma_exp_step(res: int, base: int, e: nat, bit: nat, q: nat)
    requires
        0 <= res < modulus(),
        0 <= base < modulus(),
        e == 2 * q + bit,
        bit == 0 || bit == 1,
    ensures
        (((if bit == 1 { (res * base) % modulus() } else { res }) * pow((base * base) % modulus(), q))
            % modulus()) == (res * pow(base, e)) % modulus(),
{
    let m = modulus();
    let r2 = if bit == 1 { (res * base) % m } else { res };
    let p = pow(base * base, q);
    lemma_pow_mod_noop(base * base, q, m);
    assert(pow(base, 2) == base * base) by {
        lemma_pow_adds(base, 1, 1);
        lemma_pow1(base);
    }
    lemma_pow_multiplies(base, 2, q);
    lemma_pow_adds(base, 2 * q, bit);
    assert(pow(base, e) == p * pow(base, bit));
    lemma_mul_mod_noop_right(r2, pow((base * base) % m, q), m);
    lemma_mul_mod_noop_right(r2, p, m);
    if bit == 1 {
        lemma_pow1(base);
        lemma_mul_mod_noop_left(res * base, p, m);
        assert(res * base * p == res * (p * base)) by (nonlinear_arith);
    } else {
        lemma_pow0(base);
    }
}

/// Returns `a` raised to the power `e` in the field.
pub fn exp(a: u128, e: u128) -> (r: u128)
    requires
        is_elem(a),
    ensures
        r as int == fexp(a as int, e as nat),
        is_elem(r),
{
    let mut res: u128 = ONE;
    let mut base: u128 = a;
    let mut rest: u128 = e;
    proof {
        lemma_pow0(a as int);
        lemma_pow1(a as int);
    }
    while rest > 0
        invariant
            is_elem(res),
            is_elem(base),
            (res * pow(base as int, rest as nat)) % modulus() == pow(a as int, e as nat)
                % modulus(),
        decreases rest,
    {
        let bit: u128 = rest % 2;
        proof {
            lemma_exp_step(res as int, base as int, rest as nat, bit as nat, (rest / 2) as nat);
        }
        if bit == 1 {
            res = crate::field::mul(res, base);
        }
        base = crate::field::mul(base, base);
        rest = rest / 2;
    }
    proof {
        lemma_pow0(base as int);
        lemma_small_mod(res as nat, modulus() as nat);
    }
    res
}

/// Returns the multiplicative inverse of `a` (`a^(MODULUS - 2)`), and zero for zero.
pub fn inv(a: u128) -> (r: u128)
    requires
        is_elem(a),
    ensures
        r as int == fexp(a as int, (MODULUS - 2) as nat),
        is_elem(r),
{
    exp(a, MODULUS - 2)
}

/// `a / 2` in the field, for a field element `a`.
pub open spec fn half_spec(a: int) -> int {
    if a % 2 == 0 {
        a / 2
    } else {
        a / 2 + (modulus() / 2 + 1)
    }
}

/// Returns `a / 2` in the field.
pub fn half(a: u128) -> (r: u128)
    requires
        is_elem(a),
    ensures
        fmul(r as int, 2) == a as int,
        r as int == half_spec(a as int),
        is_elem(r),
{
    if a % 2 == 0 {
        proof {
            lemma_reduce(a as int, 0);
        }
        a / 2
    } else {
        proof {
            lemma_reduce(a + modulus(), 1);
        }
        a / 2 + (MODULUS / 2 + 1)
    }
}

} // verus!
