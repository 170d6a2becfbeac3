//! The modified Rescue round that folds one operation into the program hash.
use crate::field::{self, fadd, fexp, fmul, is_elem, INV_ALPHA, ALPHA};
use vstd::prelude::*;

verus! {

/// Seed from which the round constants are drawn (leading hex digits of pi).
pub const ARK_SEED: u128 = 0x243F6A8885A308D313198A2E03707344;

/// A sponge state: four field elements.
pub open spec fn is_state(s: Seq<u128>) -> bool {
    s.len() == 4 && forall|i: int| 0 <= i < 4 ==> is_elem(#[trigger] s[i])
}

/// The round constant in row `row` (0..8) and column `col` (0..16).
pub open spec fn round_constant(row: int, col: int) -> int {
    fexp(ARK_SEED as int, (row * 16 + col + 1) as nat)
}

/// Entry `(i, j)` of the mixing matrix, the circulant of (2, 3, 1, 1).
pub open spec fn mds_entry(i: int, j: int) -> int {
    let d = (j - i + 4) % 4;
    if d == 0 {
        2
    } else if d == 1 {
        3
    } else {
        1
    }
}

pub open spec fn add_constants_spec(s: Seq<u128>, idx: int, offset: int) -> Seq<u128> {
    seq![
        fadd(s[0] as int, round_constant(offset, idx)) as u128,
        fadd(s[1] as int, round_constant(offset + 1, idx)) as u128,
        fadd(s[2] as int, round_constant(offset + 2, idx)) as u128,
        fadd(s[3] as int, round_constant(offset + 3, idx)) as u128,
    ]
}

pub open spec fn sbox_spec(s: Seq<u128>) -> Seq<u128> {
    seq![
        fexp(s[0] as int, ALPHA as nat) as u128,
        fexp(s[1] as int, ALPHA as nat) as u128,
        fexp(s[2] as int, ALPHA as nat) as u128,
        fexp(s[3] as int, ALPHA as nat) as u128,
    ]
}

pub open spec fn inv_sbox_spec(s: Seq<u128>) -> Seq<u128> {
    seq![
        fexp(s[0] as int, INV_ALPHA as nat) as u128,
        fexp(s[1] as int, INV_ALPHA as nat) as u128,
        fexp(s[2] as int, INV_ALPHA as nat) as u128,
        fexp(s[3] as int, INV_ALPHA as nat) as u128,
    ]
}

/// Row `i` of the product of the mixing matrix with `s`.
pub open spec fn mds_row(s: Seq<u128>, i: int) -> int {
    fadd(
        fadd(fmul(mds_entry(i, 0), s[0] as int), fmul(mds_entry(i, 1), s[1] as int)),
        fadd(fmul(mds_entry(i, 2), s[2] as int), fmul(mds_entry(i, 3), s[3] as int)),
    )
}

pub open spec fn mds_spec(s: Seq<u128>) -> Seq<u128> {
    seq![mds_row(s, 0) as u128, mds_row(s, 1) as u128, mds_row(s, 2) as u128, mds_row(s, 3) as u128]
}

/// One hash-accumulator round: the first half of a Rescue round, the injection of
/// `op_code` and `op_value`, then the second half.
#[verifier::opaque]
pub open spec fn hacc_round(s: Seq<u128>, op_code: int, op_value: int, ark_idx: int) -> Seq<u128> {
    let h = mds_spec(sbox_spec(add_constants_spec(s, ark_idx, 0)));
    let injected = seq![
        fadd(h[0] as int, op_code) as u128,
        fadd(h[1] as int, op_value) as u128,
        h[2],
        h[3],
    ];
    mds_spec(inv_sbox_spec(add_constants_spec(injected, ark_idx, 4)))
}

/// A round maps states to states.
pub proof fn lemma_hacc_state(s: Seq<u128>, op_code: int, op_value: int, ark_idx: int)
    requires
        is_state(s),
    ensures
        is_state(hacc_round(s, op_code, op_value, ark_idx)),
{
    reveal(hacc_round);
    let h = mds_spec(sbox_spec(add_constants_spec(s, ark_idx, 0)));
    let injected = seq![fadd(h[0] as int, op_code) as u128, fadd(h[1] as int, op_value) as u128, h[2], h[3]];
    lemma_mds_state(inv_sbox_spec(add_constants_spec(injected, ark_idx, 4)));
}

proof fn lemma_mds_state(t: Seq<u128>)
    ensures
        is_state(mds_spec(t)),
{
    let m = field::modulus();
    assert(0 <= mds_row(t, 0) < m);
    assert(0 <= mds_row(t, 1) < m);
    assert(0 <= mds_row(t, 2) < m);
    assert(0 <= mds_row(t, 3) < m);
}

fn round_constant_at(row: u128, col: u128) -> (r: u128)
    requires
        row < 8,
        col < 16,
    ensures
        r as int == round_constant(row as int, col as int),
        is_elem(r),
{
    field::exp(ARK_SEED, row * 16 + col + 1)
}

/// Adds the round constants of column `idx`, rows `offset..offset + 4`.
pub fn add_constants(state: [u128; 4], idx: usize, offset: usize) -> (r: [u128; 4])
    requires
        is_state(state@),
        idx < 16,
        offset <= 4,
    ensures
        r@ == add_constants_spec(state@, idx as int, offset as int),
        is_state(r@),
{
    let o = offset as u128;
    let c = idx as u128;
    let r = [
        field::add(state[0], round_constant_at(o, c)),
        field::add(state[1], round_constant_at(o + 1, c)),
        field::add(state[2], round_constant_at(o + 2, c)),
        field::add(state[3], round_constant_at(o + 3, c)),
    ];
    assert(r@ =~= add_constants_spec(state@, idx as int, offset as int));
    r
}

/// Raises every element to the power `ALPHA`.
pub fn apply_sbox(state: [u128; 4]) -> (r: [u128; 4])
    requires
        is_state(state@),
    ensures
        r@ == sbox_spec(state@),
        is_state(r@),
{
    let r = [
        field::exp(state[0], ALPHA),
        field::exp(state[1], ALPHA),
        field::exp(state[2], ALPHA),
        field::exp(state[3], ALPHA),
    ];
    assert(r@ =~= sbox_spec(state@));
    r
}

/// Raises every element to the power `INV_ALPHA`.
pub fn apply_inv_sbox(state: [u128; 4]) -> (r: [u128; 4])
    requires
        is_state(state@),
    ensures
        r@ == inv_sbox_spec(state@),
        is_state(r@),
{
    let r = [
        field::exp(state[0], INV_ALPHA),
        field::exp(state[1], INV_ALPHA),
        field::exp(state[2], INV_ALPHA),
        field::exp(state[3], INV_ALPHA),
    ];
    assert(r@ =~= inv_sbox_spec(state@));
    r
}

fn mds_coefficient(i: usize, j: usize) -> (r: u128)
    requires
        i < 4,
        j < 4,
    ensures
        r as int == mds_entry(i as int, j as int),
{
    let d = (j + 4 - i) % 4;
    if d == 0 {
        2
    } else if d == 1 {
        3
    } else {
        1
    }
}

fn mds_row_at(state: &[u128; 4], i: usize) -> (r: u128)
    requires
        is_state(state@),
        i < 4,
    ensures
        r as int == mds_row(state@, i as int),
        is_elem(r),
{
    let a = field::mul(mds_coefficient(i, 0), state[0]);
    let b = field::mul(mds_coefficient(i, 1), state[1]);
    let c = field::mul(mds_coefficient(i, 2), state[2]);
    let d = field::mul(mds_coefficient(i, 3), state[3]);
    field::add(field::add(a, b), field::add(c, d))
}

/// Multiplies the state by the mixing matrix.
pub fn apply_mds(state: [u128; 4]) -> (r: [u128; 4])
    requires
        is_state(state@),
    ensures
        r@ == mds_spec(state@),
        is_state(r@),
{
    let r = [
        mds_row_at(&state, 0),
        mds_row_at(&state, 1),
        mds_row_at(&state, 2),
        mds_row_at(&state, 3),
    ];
    assert(r@ =~= mds_spec(state@));
    r
}

/// Applies one hash-accumulator round with the round constants of column `ark_idx`.
pub fn apply_hacc_round(state: [u128; 4], op_code: u128, op_value: u128, ark_idx: usize) -> (r: [u128; 4])
    requires
        is_state(state@),
        is_elem(op_code),
        is_elem(op_value),
        ark_idx < 16,
    ensures
        r@ == hacc_round(state@, op_code as int, op_value as int, ark_idx as int),
        is_state(r@),
{
    reveal(hacc_round);
    let h = apply_mds(apply_sbox(add_constants(state, ark_idx, 0)));
    let injected = [field::add(h[0], op_code), field::add(h[1], op_value), h[2], h[3]];
    let ghost hs = mds_spec(sbox_spec(add_constants_spec(state@, ark_idx as int, 0)));
    assert(injected@ =~= seq![
        fadd(hs[0] as int, op_code as int) as u128,
        fadd(hs[1] as int, op_value as int) as u128,
        hs[2],
        hs[3],
    ]);
    apply_mds(apply_inv_sbox(add_constants(injected, ark_idx, 4)))
}

} // verus!
