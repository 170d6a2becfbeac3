//! Building blocks of constraint evaluation.
use crate::field::{self, fadd, fmul, fsub, is_elem};
use vstd::prelude::*;

verus! {

/// All values of `s` are field elements.
pub open spec fn all_elems(s: Seq<u128>) -> bool {
    forall|i: int| 0 <= i < s.len() ==> is_elem(#[trigger] s[i])
}

/// `result + op_flag * op_result`: adds a constraint that applies when `op_flag` is set.
pub open spec fn agg_spec(result: u128, op_flag: u128, op_result: int) -> u128 {
    fadd(result as int, fmul(op_flag as int, op_result)) as u128
}

/// Adds `op_result` to `result`, weighted by `op_flag`.
pub fn agg_op_constraint(result: u128, op_flag: u128, op_result: u128) -> (r: u128)
    requires
        is_elem(result),
        is_elem(op_flag),
        is_elem(op_result),
    ensures
        r == agg_spec(result, op_flag, op_result as int),
        is_elem(r),
{
    field::add(result, field::mul(op_flag, op_result))
}

/// Zero exactly when `a == b`.
pub fn are_equal(a: u128, b: u128) -> (r: u128)
    requires
        is_elem(a),
        is_elem(b),
    ensures
        r as int == fsub(a as int, b as int),
        is_elem(r),
{
    field::sub(a, b)
}

/// Zero exactly when `v` is 0 or 1: `v^2 - v`.
pub fn is_binary(v: u128) -> (r: u128)
    requires
        is_elem(v),
    ensures
        r as int == fsub(fmul(v as int, v as int), v as int),
        is_elem(r),
{
    field::sub(field::mul(v, v), v)
}

/// For each `i < count`, adds to `result[at + i]` the constraint that `next[next_at + i]`
/// equals `current[current_at + i]`.
pub fn enforce_no_change(
    result: &mut Vec<u128>,
    at: usize,
    current: &[u128],
    current_at: usize,
    next: &[u128],
    next_at: usize,
    count: usize,
    op_flag: u128,
)
    requires
        at + count <= old(result)@.len(),
        current_at + count <= current@.len(),
        next_at + count <= next@.len(),
        all_elems(old(result)@),
        all_elems(current@),
        all_elems(next@),
        is_elem(op_flag),
    ensures
        final(result)@.len() == old(result)@.len(),
        all_elems(final(result)@),
        forall|i: int|
            0 <= i < old(result)@.len() ==> #[trigger] final(result)@[i] == if at <= i < at + count {
                agg_spec(
                    old(result)@[i],
                    op_flag,
                    fsub(current@[current_at + i - at] as int, next@[next_at + i - at] as int),
                )
            } else {
                old(result)@[i]
            },
{
    let n_result = result.len();
    let n_current = current.len();
    let n_next = next.len();
    let mut i: usize = 0;
    while i < count
        invariant
            i <= count,
            n_result == result@.len(),
            n_current == current@.len(),
            n_next == next@.len(),
            at + count <= old(result)@.len(),
            current_at + count <= current@.len(),
            next_at + count <= next@.len(),
            result@.len() == old(result)@.len(),
            all_elems(old(result)@),
            all_elems(current@),
            all_elems(next@),
            all_elems(result@),
            is_elem(op_flag),
            forall|k: int|
                0 <= k < old(result)@.len() ==> #[trigger] result@[k] == if at <= k < at + i {
                    agg_spec(
                        old(result)@[k],
                        op_flag,
                        fsub(current@[current_at + k - at] as int, next@[next_at + k - at] as int),
                    )
                } else {
                    old(result)@[k]
                },
        decreases count - i,
    {
        let v = agg_op_constraint(result[at + i], op_flag, are_equal(current[current_at + i], next[next_at + i]));
        result.set(at + i, v);
        i += 1;
    }
}

} // verus!
