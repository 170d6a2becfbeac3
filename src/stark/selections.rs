//! Constraints of the selection operations CHOOSE and CHOOSE2.
use crate::field::{self, fadd, fmul, fsub, is_elem};
use crate::stark::utils::{agg_op_constraint, agg_spec, all_elems, are_equal, enforce_no_change, is_binary};
use vstd::prelude::*;

verus! {

/// `c * x + (1 - c) * y`: `x` when `c` is 1, `y` when it is 0.
pub open spec fn select_spec(c: u128, x: u128, y: u128) -> int {
    fadd(fmul(c as int, x as int), fmul(fsub(1, c as int), y as int))
}

/// Evaluates the constraints of CHOOSE: the top of `next` is `current[0]` when
/// `current[2]` is 1 and `current[1]` when it is 0, and the stack below shifts left by
/// two. Returns the constraint that the condition is binary.
pub fn enforce_choose(evaluations: &mut Vec<u128>, current: &[u128], next: &[u128], op_flag: u128) -> (r: u128)
    requires
        next@.len() >= 3,
        old(evaluations)@.len() >= next@.len() - 2,
        current@.len() >= next@.len(),
        all_elems(old(evaluations)@),
        all_elems(current@),
        all_elems(next@),
        is_elem(op_flag),
    ensures
        final(evaluations)@.len() == old(evaluations)@.len(),
        final(evaluations)@[0] == agg_spec(
            old(evaluations)@[0],
            op_flag,
            fsub(next@[0] as int, select_spec(current@[2], current@[0], current@[1])),
        ),
        forall|i: int|
            1 <= i < old(evaluations)@.len() ==> #[trigger] final(evaluations)@[i] == if i < next@.len()
                - 2 {
                agg_spec(old(evaluations)@[i], op_flag, fsub(current@[i + 2] as int, next@[i] as int))
            } else {
                old(evaluations)@[i]
            },
        r as int == fmul(op_flag as int, fsub(fmul(current@[2] as int, current@[2] as int), current@[2] as int)),
{
    let condition1 = current[2];
    let condition2 = field::sub(field::ONE, condition1);
    let op_result = field::add(field::mul(condition1, current[0]), field::mul(condition2, current[1]));
    let v = agg_op_constraint(evaluations[0], op_flag, are_equal(next[0], op_result));
    evaluations.set(0, v);

    let n = next.len() - 2;
    enforce_no_change(evaluations, 1, current, 3, next, 1, n - 1, op_flag);

    field::mul(op_flag, is_binary(condition1))
}

/// Evaluates the constraints of CHOOSE2: the top two values of `next` are
/// `current[0..2]` when `current[4]` is 1 and `current[2..4]` when it is 0, and the stack
/// below shifts left by four. Returns the constraint that the condition is binary.
pub fn enforce_choose2(evaluations: &mut Vec<u128>, current: &[u128], next: &[u128], op_flag: u128) -> (r: u128)
    requires
        next@.len() >= 6,
        old(evaluations)@.len() >= next@.len() - 4,
        current@.len() >= next@.len(),
        all_elems(old(evaluations)@),
        all_elems(current@),
        all_elems(next@),
        is_elem(op_flag),
    ensures
        final(evaluations)@.len() == old(evaluations)@.len(),
        final(evaluations)@[0] == agg_spec(
            old(evaluations)@[0],
            op_flag,
            fsub(next@[0] as int, select_spec(current@[4], current@[0], current@[2])),
        ),
        final(evaluations)@[1] == agg_spec(
            old(evaluations)@[1],
            op_flag,
            fsub(next@[1] as int, select_spec(current@[4], current@[1], current@[3])),
        ),
        forall|i: int|
            2 <= i < old(evaluations)@.len() ==> #[trigger] final(evaluations)@[i] == if i < next@.len()
                - 4 {
                agg_spec(old(evaluations)@[i], op_flag, fsub(current@[i + 4] as int, next@[i] as int))
            } else {
                old(evaluations)@[i]
            },
        r as int == fmul(op_flag as int, fsub(fmul(current@[4] as int, current@[4] as int), current@[4] as int)),
{
    let condition1 = current[4];
    let condition2 = field::sub(field::ONE, condition1);
    let op_result1 = field::add(field::mul(condition1, current[0]), field::mul(condition2, current[2]));
    let op_result2 = field::add(field::mul(condition1, current[1]), field::mul(condition2, current[3]));
    let v0 = agg_op_constraint(evaluations[0], op_flag, are_equal(next[0], op_result1));
    evaluations.set(0, v0);
    let v1 = agg_op_constraint(evaluations[1], op_flag, are_equal(next[1], op_result2));
    evaluations.set(1, v1);

    let n = next.len() - 4;
    enforce_no_change(evaluations, 2, current, 6, next, 2, n - 2, op_flag);

    field::mul(op_flag, is_binary(condition1))
}

} // verus!
