//! The assembler: turns source text into opcodes and hints.
use crate::opcodes::{OpHint, UserOps};
use crate::programs::assembly::errors::{views, AssemblyError, HintMap, ParamReason};
use crate::programs::assembly::numbers::str_eq;
use crate::programs::assembly::errors::AssemblyErrorKind;
use crate::programs::assembly::parsers::{
    aggregation, choose_table, drop_table, dup_table, gt_finale, hash_table, lt_finale, no_param,
    not_allowed, outcome_h, pad_table, pick_table, roll_table, run, swap_table, value_spec, with_param,
    parse_add, parse_and, parse_assert, parse_choose, parse_div, parse_drop, parse_dup, parse_eq,
    parse_gt, parse_hash, parse_inv, parse_isodd, parse_lt, parse_mpath, parse_mul, parse_neg,
    parse_noop, parse_not, parse_or, parse_pad, parse_pick, parse_push, parse_rc, parse_read,
    parse_roll, parse_sub, parse_swap, pad_len, param_spec, mpath_cycle, repeat, MAX_PROGRAM_LENGTH,

};
use vstd::prelude::*;

verus! {

/// The program and hints after appending the opcodes of `ops` to `p` and `h`.
pub open spec fn lift(ops: Result<Seq<UserOps>, AssemblyErrorKind>, p: Seq<UserOps>, h: Seq<(usize, OpHint)>) -> Result<
    (Seq<UserOps>, Seq<(usize, OpHint)>),
    AssemblyErrorKind,
> {
    match ops {
        Ok(o) => Ok((p + o, h)),
        Err(k) => Err(k),
    }
}

pub open spec fn is_control_name(n: Seq<char>) -> bool {
    n == "noop"@ || n == "assert"@ || n == "read"@ || n == "dup"@ || n == "pad"@ || n == "pick"@ || n == "drop"@ || n == "swap"@ || n == "roll"@
}

pub open spec fn is_arith_name(n: Seq<char>) -> bool {
    n == "add"@ || n == "sub"@ || n == "mul"@ || n == "div"@ || n == "neg"@ || n == "inv"@ || n == "not"@ || n == "and"@ || n == "or"@ || n == "choose"@ || n == "hash"@ || n == "mpath"@
}

/// Flow, input and stack mnemonics.
pub open spec fn control_spec(t: Seq<Seq<char>>, p: Seq<UserOps>, h: Seq<(usize, OpHint)>) -> Result<
    (Seq<UserOps>, Seq<(usize, OpHint)>),
    AssemblyErrorKind,
> {
    if t[0] == "noop"@ {
        lift(no_param(t, seq![UserOps::Noop]), p, h)
    } else if t[0] == "assert"@ {
        lift(
            if t.len() > 2 {
                Err(AssemblyErrorKind::ExtraParam)
            } else if t.len() == 1 {
                Ok(seq![UserOps::Assert])
            } else if t[1] == "eq"@ {
                Ok(seq![UserOps::AssertEq])
            } else {
                Err(not_allowed())
            },
            p,
            h,
        )
    } else if t[0] == "read"@ {
        lift(
            if t.len() > 2 {
                Err(AssemblyErrorKind::ExtraParam)
            } else if t.len() == 1 || t[1] == "a"@ {
                Ok(seq![UserOps::Read])
            } else if t[1] == "ab"@ {
                Ok(seq![UserOps::Read2])
            } else {
                Err(not_allowed())
            },
            p,
            h,
        )
    } else if t[0] == "dup"@ {
        lift(with_param(t, |n: u32| dup_table(n)), p, h)
    } else if t[0] == "pad"@ {
        lift(with_param(t, |n: u32| pad_table(n)), p, h)
    } else if t[0] == "pick"@ {
        lift(with_param(t, |n: u32| pick_table(n)), p, h)
    } else if t[0] == "drop"@ {
        lift(with_param(t, |n: u32| drop_table(n)), p, h)
    } else if t[0] == "swap"@ {
        lift(with_param(t, |n: u32| swap_table(n)), p, h)
    } else if t[0] == "roll"@ {
        lift(with_param(t, |n: u32| roll_table(n)), p, h)
    } else {
        Err(AssemblyErrorKind::UnknownOp)
    }
}

/// Arithmetic, selection and hashing mnemonics.
pub open spec fn arith_spec(t: Seq<Seq<char>>, p: Seq<UserOps>, h: Seq<(usize, OpHint)>) -> Result<
    (Seq<UserOps>, Seq<(usize, OpHint)>),
    AssemblyErrorKind,
> {
    if t[0] == "add"@ {
        lift(no_param(t, seq![UserOps::Add]), p, h)
    } else if t[0] == "sub"@ {
        lift(no_param(t, seq![UserOps::Neg, UserOps::Add]), p, h)
    } else if t[0] == "mul"@ {
        lift(no_param(t, seq![UserOps::Mul]), p, h)
    } else if t[0] == "div"@ {
        lift(no_param(t, seq![UserOps::Inv, UserOps::Mul]), p, h)
    } else if t[0] == "neg"@ {
        lift(no_param(t, seq![UserOps::Neg]), p, h)
    } else if t[0] == "inv"@ {
        lift(no_param(t, seq![UserOps::Inv]), p, h)
    } else if t[0] == "not"@ {
        lift(no_param(t, seq![UserOps::Not]), p, h)
    } else if t[0] == "and"@ {
        lift(no_param(t, seq![UserOps::And]), p, h)
    } else if t[0] == "or"@ {
        lift(no_param(t, seq![UserOps::Or]), p, h)
    } else if t[0] == "choose"@ {
        lift(with_param(t, |n: u32| choose_table(n)), p, h)
    } else if t[0] == "hash"@ {
        match with_param(t, |n: u32| hash_table(n)) {
            Err(k) => Err(k),
            Ok(pre) => Ok(
                (
                    p + pre + run(UserOps::Noop, pad_len(p.len() + pre.len(), 16)) + run(UserOps::RescR, 10)
                        + seq![UserOps::Drop4],
                    h,
                ),
            ),
        }
    } else if t[0] == "mpath"@ {
        match param_spec(t) {
            Err(k) => Err(k),
            Ok(n) => if n < 2 || n > 256 {
                Err(AssemblyErrorKind::InvalidParamReason(ParamReason::OutOfRange(2, 256)))
            } else {
                Ok(
                    (
                        p + seq![UserOps::Read2, UserOps::Dup4, UserOps::Pad2] + run(
                            UserOps::Noop,
                            pad_len(p.len() + 3, 16),
                        ) + repeat(mpath_cycle(), (n - 2) as nat) + mpath_cycle().subrange(0, 28),
                        h,
                    ),
                )
            },
        }
    } else {
        Err(AssemblyErrorKind::UnknownOp)
    }
}

/// Mnemonics that add hints.
pub open spec fn hinted_spec(t: Seq<Seq<char>>, p: Seq<UserOps>, h: Seq<(usize, OpHint)>) -> Result<
    (Seq<UserOps>, Seq<(usize, OpHint)>),
    AssemblyErrorKind,
> {
    if t[0] == "push"@ {
        match value_spec(t) {
            Err(k) => Err(k),
            Ok(v) => Ok(
                (
                    p + run(UserOps::Noop, pad_len(p.len(), 8)) + seq![UserOps::Push],
                    h.push(((p.len() + pad_len(p.len(), 8)) as usize, OpHint::PushValue(v))),
                ),
            ),
        }
    } else if t[0] == "eq"@ {
        if t.len() > 1 {
            Err(AssemblyErrorKind::ExtraParam)
        } else {
            Ok((p + seq![UserOps::Read, UserOps::Eq], h.push((p.len() as usize, OpHint::EqStart))))
        }
    } else if t[0] == "gt"@ {
        aggregation(t, p, h, seq![UserOps::Pad2, UserOps::Pad2, UserOps::Pad2, UserOps::Dup], true, gt_finale(), false)
    } else if t[0] == "lt"@ {
        aggregation(t, p, h, seq![UserOps::Pad2, UserOps::Pad2, UserOps::Pad2, UserOps::Dup], true, lt_finale(), false)
    } else if t[0] == "rc"@ {
        aggregation(t, p, h, seq![UserOps::Pad2], false, seq![UserOps::Drop, UserOps::Drop, UserOps::Read, UserOps::Eq], true)
    } else if t[0] == "isodd"@ {
        aggregation(t, p, h, seq![UserOps::Pad2], false, seq![UserOps::Swap2, UserOps::AssertEq, UserOps::Drop], false)
    } else {
        Err(AssemblyErrorKind::UnknownOp)
    }
}

/// The program and hints after assembling the token `t` (its parts between dots) onto `p`
/// and `h`, or the kind of error in the token.
#[verifier::opaque]
pub open spec fn token_spec(t: Seq<Seq<char>>, p: Seq<UserOps>, h: Seq<(usize, OpHint)>) -> Result<
    (Seq<UserOps>, Seq<(usize, OpHint)>),
    AssemblyErrorKind,
> {
    if is_control_name(t[0]) {
        control_spec(t, p, h)
    } else if is_arith_name(t[0]) {
        arith_spec(t, p, h)
    } else {
        hinted_spec(t, p, h)
    }
}

/// Every PUSH sits at an index divisible by 8 and has a `PushValue` hint keyed at its
/// index; every `PushValue` hint is keyed at a PUSH.
pub open spec fn push_aligned(p: Seq<UserOps>, h: Seq<(usize, OpHint)>) -> bool {
    &&& forall|i: int|
        0 <= i < p.len() && #[trigger] p[i] == UserOps::Push ==> i % 8 == 0 && exists|j: int|
            0 <= j < h.len() && (#[trigger] h[j]).0 == i && h[j].1 is PushValue
    &&& forall|j: int|
        0 <= j < h.len() && (#[trigger] h[j]).1 is PushValue ==> h[j].0 < p.len() && p[h[j].0 as int]
            == UserOps::Push
}

/// Extending a program keeps PUSHes aligned when each new PUSH is at an index divisible
/// by 8 and has a new `PushValue` hint, and each new `PushValue` hint is keyed at a new
/// PUSH.
proof fn lemma_aligned_extend(prog_before: Seq<UserOps>, hints_before: Seq<(usize, OpHint)>, prog_after: Seq<UserOps>, hints_after: Seq<(usize, OpHint)>)
    requires
        push_aligned(prog_before, hints_before),
        prog_before.len() <= prog_after.len(),
        hints_before.len() <= hints_after.len(),
        forall|k: int| 0 <= k < prog_before.len() ==> #[trigger] prog_after[k] == prog_before[k],
        forall|j: int| 0 <= j < hints_before.len() ==> #[trigger] hints_after[j] == hints_before[j],
        forall|k: int|
            prog_before.len() <= k < prog_after.len() && #[trigger] prog_after[k] == UserOps::Push ==> k % 8 == 0 && exists|j: int|
                hints_before.len() <= j < hints_after.len() && (#[trigger] hints_after[j]).0 == k && hints_after[j].1 is PushValue,
        forall|j: int|
            hints_before.len() <= j < hints_after.len() && (#[trigger] hints_after[j]).1 is PushValue ==> prog_before.len() <= hints_after[j].0 < prog_after.len()
                && prog_after[hints_after[j].0 as int] == UserOps::Push,
    ensures
        push_aligned(prog_after, hints_after),
{
    assert forall|i: int| 0 <= i < prog_after.len() && #[trigger] prog_after[i] == UserOps::Push implies i % 8 == 0 && exists|j: int|
        0 <= j < hints_after.len() && (#[trigger] hints_after[j]).0 == i && hints_after[j].1 is PushValue by {
        if i < prog_before.len() {
            assert(prog_before[i] == UserOps::Push);
            let j = choose|j: int| 0 <= j < hints_before.len() && (#[trigger] hints_before[j]).0 == i && hints_before[j].1 is PushValue;
            assert(hints_after[j] == hints_before[j]);
        }
    }
    assert forall|j: int| 0 <= j < hints_after.len() && (#[trigger] hints_after[j]).1 is PushValue implies hints_after[j].0 < prog_after.len() && prog_after[hints_after[j].0 as int]
        == UserOps::Push by {
        if j < hints_before.len() {
            assert(hints_after[j] == hints_before[j]);
            assert(prog_after[hints_before[j].0 as int] == prog_before[hints_before[j].0 as int]);
        }
    }
}

proof fn lemma_cycle_has_no_push()
    ensures
        forall|i: int| 0 <= i < mpath_cycle().len() ==> #[trigger] mpath_cycle()[i] != UserOps::Push,
{
}

proof fn lemma_repeat_has_no_push(s: Seq<UserOps>, k: nat)
    requires
        forall|i: int| 0 <= i < s.len() ==> #[trigger] s[i] != UserOps::Push,
    ensures
        forall|i: int| 0 <= i < repeat(s, k).len() ==> #[trigger] repeat(s, k)[i] != UserOps::Push,
    decreases k,
{
    if k > 0 {
        lemma_repeat_has_no_push(s, (k - 1) as nat);
        assert forall|i: int| 0 <= i < repeat(s, k).len() implies #[trigger] repeat(s, k)[i] != UserOps::Push by {
            let prev = repeat(s, (k - 1) as nat);
            if i < prev.len() {
                assert(repeat(s, k)[i] == prev[i]);
            } else {
                assert(repeat(s, k)[i] == s[i - prev.len()]);
            }
        }
    }
}

/// Padding leads to a multiple of the alignment.
proof fn lemma_pad_aligned(len: nat)
    ensures
        (len + pad_len(len, 8)) % 8 == 0,
        (len + 4 + pad_len(len + 4, 8)) % 8 == 0,
        (len + 1 + pad_len(len + 1, 8)) % 8 == 0,
{
}

/// Assembles one token of the control mnemonics.
#[verifier::rlimit(50)]
fn parse_control(program: &mut Vec<UserOps>, hints: &mut HintMap, op: &[&str], step: usize) -> (r: Result<bool, AssemblyError>)
    requires
        op@.len() >= 1,
        old(program).len() < MAX_PROGRAM_LENGTH,
        old(hints).keys_below(old(program)@.len() as int),
        push_aligned(old(program)@, old(hints)@),
    ensures
        final(hints).keys_below(final(program)@.len() as int),
        push_aligned(final(program)@, final(hints)@),
        outcome_h(r, old(program)@, final(program)@, old(hints)@, final(hints)@, op@, step, control_spec(views(op@), old(program)@, old(hints)@)),
{
    let ghost prog_before = program@;
    let ghost hints_before = hints@;
    proof {
        lemma_pad_aligned(prog_before.len());
    }
    if str_eq(op[0], "noop") {
        let r = parse_noop(program, op, step);
        proof {
            lemma_aligned_extend(prog_before, hints_before, program@, hints@);
        }
        r
    } else if str_eq(op[0], "assert") {
        let r = parse_assert(program, op, step);
        proof {
            lemma_aligned_extend(prog_before, hints_before, program@, hints@);
        }
        r
    } else if str_eq(op[0], "read") {
        let r = parse_read(program, op, step);
        proof {
            lemma_aligned_extend(prog_before, hints_before, program@, hints@);
        }
        r
    } else if str_eq(op[0], "dup") {
        let r = parse_dup(program, op, step);
        proof {
            lemma_aligned_extend(prog_before, hints_before, program@, hints@);
        }
        r
    } else if str_eq(op[0], "pad") {
        let r = parse_pad(program, op, step);
        proof {
            lemma_aligned_extend(prog_before, hints_before, program@, hints@);
        }
        r
    } else if str_eq(op[0], "pick") {
        let r = parse_pick(program, op, step);
        proof {
            lemma_aligned_extend(prog_before, hints_before, program@, hints@);
        }
        r
    } else if str_eq(op[0], "drop") {
        let r = parse_drop(program, op, step);
        proof {
            lemma_aligned_extend(prog_before, hints_before, program@, hints@);
        }
        r
    } else if str_eq(op[0], "swap") {
        let r = parse_swap(program, op, step);
        proof {
            lemma_aligned_extend(prog_before, hints_before, program@, hints@);
        }
        r
    } else if str_eq(op[0], "roll") {
        let r = parse_roll(program, op, step);
        proof {
            lemma_aligned_extend(prog_before, hints_before, program@, hints@);
        }
        r
    } else {
        Err(AssemblyError::unknown_op(op, step))
    }
}

/// Assembles one token of the arith mnemonics.
#[verifier::rlimit(50)]
fn parse_arith(program: &mut Vec<UserOps>, hints: &mut HintMap, op: &[&str], step: usize) -> (r: Result<bool, AssemblyError>)
    requires
        !is_control_name(views(op@)[0]),
        op@.len() >= 1,
        old(program).len() < MAX_PROGRAM_LENGTH,
        old(hints).keys_below(old(program)@.len() as int),
        push_aligned(old(program)@, old(hints)@),
    ensures
        final(hints).keys_below(final(program)@.len() as int),
        push_aligned(final(program)@, final(hints)@),
        outcome_h(r, old(program)@, final(program)@, old(hints)@, final(hints)@, op@, step, arith_spec(views(op@), old(program)@, old(hints)@)),
{
    let ghost prog_before = program@;
    let ghost hints_before = hints@;
    proof {
        lemma_pad_aligned(prog_before.len());
    }
    if str_eq(op[0], "add") {
        let r = parse_add(program, op, step);
        proof {
            lemma_aligned_extend(prog_before, hints_before, program@, hints@);
        }
        r
    } else if str_eq(op[0], "sub") {
        let r = parse_sub(program, op, step);
        proof {
            lemma_aligned_extend(prog_before, hints_before, program@, hints@);
        }
        r
    } else if str_eq(op[0], "mul") {
        let r = parse_mul(program, op, step);
        proof {
            lemma_aligned_extend(prog_before, hints_before, program@, hints@);
        }
        r
    } else if str_eq(op[0], "div") {
        let r = parse_div(program, op, step);
        proof {
            lemma_aligned_extend(prog_before, hints_before, program@, hints@);
        }
        r
    } else if str_eq(op[0], "neg") {
        let r = parse_neg(program, op, step);
        proof {
            lemma_aligned_extend(prog_before, hints_before, program@, hints@);
        }
        r
    } else if str_eq(op[0], "inv") {
        let r = parse_inv(program, op, step);
        proof {
            lemma_aligned_extend(prog_before, hints_before, program@, hints@);
        }
        r
    } else if str_eq(op[0], "not") {
        let r = parse_not(program, op, step);
        proof {
            lemma_aligned_extend(prog_before, hints_before, program@, hints@);
        }
        r
    } else if str_eq(op[0], "and") {
        let r = parse_and(program, op, step);
        proof {
            lemma_aligned_extend(prog_before, hints_before, program@, hints@);
        }
        r
    } else if str_eq(op[0], "or") {
        let r = parse_or(program, op, step);
        proof {
            lemma_aligned_extend(prog_before, hints_before, program@, hints@);
        }
        r
    } else if str_eq(op[0], "choose") {
        let r = parse_choose(program, op, step);
        proof {
            lemma_aligned_extend(prog_before, hints_before, program@, hints@);
        }
        r
    } else if str_eq(op[0], "hash") {
        let r = parse_hash(program, op, step);
        proof {
            lemma_aligned_extend(prog_before, hints_before, program@, hints@);
        }
        r
    } else if str_eq(op[0], "mpath") {
        let r = parse_mpath(program, op, step);
        proof {
            if r is Ok {
                let n = param_spec(views(op@))->Ok_0;
                lemma_cycle_has_no_push();
                lemma_repeat_has_no_push(mpath_cycle(), (n - 2) as nat);
            }
            lemma_aligned_extend(prog_before, hints_before, program@, hints@);
        }
        r
    } else {
        Err(AssemblyError::unknown_op(op, step))
    }
}

/// Assembles one token of the hinted mnemonics.
#[verifier::rlimit(50)]
fn parse_hinted(program: &mut Vec<UserOps>, hints: &mut HintMap, op: &[&str], step: usize) -> (r: Result<bool, AssemblyError>)
    requires
        !is_control_name(views(op@)[0]),
        !is_arith_name(views(op@)[0]),
        op@.len() >= 1,
        old(program).len() < MAX_PROGRAM_LENGTH,
        old(hints).keys_below(old(program)@.len() as int),
        push_aligned(old(program)@, old(hints)@),
    ensures
        final(hints).keys_below(final(program)@.len() as int),
        push_aligned(final(program)@, final(hints)@),
        outcome_h(r, old(program)@, final(program)@, old(hints)@, final(hints)@, op@, step, hinted_spec(views(op@), old(program)@, old(hints)@)),
{
    let ghost prog_before = program@;
    let ghost hints_before = hints@;
    proof {
        lemma_pad_aligned(prog_before.len());
    }
    if str_eq(op[0], "push") {
        let r = parse_push(program, hints, op, step);
        proof {
        if r is Ok {
            let at = prog_before.len() + pad_len(prog_before.len(), 8);
            assert(program@[at as int] == UserOps::Push);
            assert(hints@[hints_before.len() as int] == hints_before.push((at as usize, hints@[hints_before.len() as int].1))[hints_before.len() as int]);
            assert(hints@[hints_before.len() as int].0 == at);
        }
            lemma_aligned_extend(prog_before, hints_before, program@, hints@);
        }
        r
    } else if str_eq(op[0], "eq") {
        let r = parse_eq(program, hints, op, step);
        proof {
            lemma_aligned_extend(prog_before, hints_before, program@, hints@);
        }
        r
    } else if str_eq(op[0], "gt") {
        let r = parse_gt(program, hints, op, step);
        proof {
            if r is Ok {
                let l = prog_before.len() + 4;
                let at = l + pad_len(l, 8);
                assert(program@[at as int] == UserOps::Push);
                assert(hints@[hints_before.len() as int].0 == at);
                assert(hints@[hints_before.len() as int].1 is PushValue);
            }
            lemma_aligned_extend(prog_before, hints_before, program@, hints@);
        }
        r
    } else if str_eq(op[0], "lt") {
        let r = parse_lt(program, hints, op, step);
        proof {
            if r is Ok {
                let l = prog_before.len() + 4;
                let at = l + pad_len(l, 8);
                assert(program@[at as int] == UserOps::Push);
                assert(hints@[hints_before.len() as int].0 == at);
                assert(hints@[hints_before.len() as int].1 is PushValue);
            }
            lemma_aligned_extend(prog_before, hints_before, program@, hints@);
        }
        r
    } else if str_eq(op[0], "rc") {
        let r = parse_rc(program, hints, op, step);
        proof {
            if r is Ok {
                let l = prog_before.len() + 1;
                let at = l + pad_len(l, 8);
                assert(program@[at as int] == UserOps::Push);
                assert(hints@[hints_before.len() as int].0 == at);
                assert(hints@[hints_before.len() as int].1 is PushValue);
            }
            lemma_aligned_extend(prog_before, hints_before, program@, hints@);
        }
        r
    } else if str_eq(op[0], "isodd") {
        let r = parse_isodd(program, hints, op, step);
        proof {
            if r is Ok {
                let l = prog_before.len() + 1;
                let at = l + pad_len(l, 8);
                assert(program@[at as int] == UserOps::Push);
                assert(hints@[hints_before.len() as int].0 == at);
                assert(hints@[hints_before.len() as int].1 is PushValue);
            }
            lemma_aligned_extend(prog_before, hints_before, program@, hints@);
        }
        r
    } else {
        Err(AssemblyError::unknown_op(op, step))
    }
}

/// Assembles one token, split at its dots.
fn parse_op(program: &mut Vec<UserOps>, hints: &mut HintMap, op: &[&str], step: usize) -> (r: Result<bool, AssemblyError>)
    requires
        op@.len() >= 1,
        old(program).len() < MAX_PROGRAM_LENGTH,
        old(hints).keys_below(old(program)@.len() as int),
        push_aligned(old(program)@, old(hints)@),
    ensures
        final(hints).keys_below(final(program)@.len() as int),
        push_aligned(final(program)@, final(hints)@),
        outcome_h(r, old(program)@, final(program)@, old(hints)@, final(hints)@, op@, step, token_spec(views(op@), old(program)@, old(hints)@)),
{
    reveal(token_spec);
    let name = op[0];
    if str_eq(name, "noop") || str_eq(name, "assert") || str_eq(name, "read") || str_eq(name, "dup")
        || str_eq(name, "pad") || str_eq(name, "pick") || str_eq(name, "drop") || str_eq(name, "swap")
        || str_eq(name, "roll") {
        parse_control(program, hints, op, step)
    } else if str_eq(name, "add") || str_eq(name, "sub") || str_eq(name, "mul") || str_eq(name, "div")
        || str_eq(name, "neg") || str_eq(name, "inv") || str_eq(name, "not") || str_eq(name, "and")
        || str_eq(name, "or") || str_eq(name, "choose") || str_eq(name, "hash") || str_eq(name, "mpath") {
        parse_arith(program, hints, op, step)
    } else {
        parse_hinted(program, hints, op, step)
    }
}

pub open spec fn is_space_char(c: char) -> bool {
    c == ' ' || c == '\t' || c == '\n' || c == '\r'
}

/// The parts of `t[start..]` between dots, scanning from `i`: the part in progress
/// starts at `start`.
pub open spec fn split_scan(t: Seq<char>, start: int, i: int) -> Seq<Seq<char>>
    decreases t.len() - i,
{
    if i >= t.len() {
        seq![t.subrange(start, t.len() as int)]
    } else if t[i] == '.' {
        seq![t.subrange(start, i)] + split_scan(t, i + 1, i + 1)
    } else {
        split_scan(t, start, i + 1)
    }
}

/// The parts of a token between its dots.
pub open spec fn split_dots(t: Seq<char>) -> Seq<Seq<char>> {
    split_scan(t, 0, 0)
}

/// The tokens of `s[i..]` (maximal runs without whitespace), each split at its dots; a
/// token in progress starts at `start`, or there is none when `start` is negative.
pub open spec fn token_scan(s: Seq<char>, start: int, i: int) -> Seq<Seq<Seq<char>>>
    decreases s.len() - i,
{
    if i >= s.len() {
        if start >= 0 {
            seq![split_dots(s.subrange(start, s.len() as int))]
        } else {
            Seq::empty()
        }
    } else if is_space_char(s[i]) {
        if start >= 0 {
            seq![split_dots(s.subrange(start, i))] + token_scan(s, -1, i + 1)
        } else {
            token_scan(s, -1, i + 1)
        }
    } else {
        token_scan(s, if start >= 0 {
            start
        } else {
            i
        }, i + 1)
    }
}

/// The tokens of a source text, each split at its dots.
pub open spec fn tokens(s: Seq<char>) -> Seq<Seq<Seq<char>>> {
    token_scan(s, -1, 0)
}

/// The program and hints after the first `k` tokens, or the index and kind of the first
/// error.
pub open spec fn assembly_run(toks: Seq<Seq<Seq<char>>>, k: int) -> Result<
    (Seq<UserOps>, Seq<(usize, OpHint)>),
    (int, AssemblyErrorKind),
>
    decreases k,
{
    if k <= 0 {
        Ok((Seq::empty(), Seq::empty()))
    } else {
        match assembly_run(toks, k - 1) {
            Err(e) => Err(e),
            Ok((p, h)) => if p.len() >= MAX_PROGRAM_LENGTH {
                Err((k - 1, AssemblyErrorKind::ProgramTooLong))
            } else {
                match token_spec(toks[k - 1], p, h) {
                    Ok(x) => Ok(x),
                    Err(kind) => Err((k - 1, kind)),
                }
            },
        }
    }
}

/// Once a token fails, the whole run fails with it.
proof fn lemma_run_error_stays(toks: Seq<Seq<Seq<char>>>, k: int, m: int)
    requires
        k <= m,
        assembly_run(toks, k) is Err,
    ensures
        assembly_run(toks, m) == assembly_run(toks, k),
    decreases m - k,
{
    if k < m {
        lemma_run_error_stays(toks, k, m - 1);
    }
}

fn is_space(c: char) -> (r: bool)
    ensures
        r == (c == ' ' || c == '\t' || c == '\n' || c == '\r'),
{
    c == ' ' || c == '\t' || c == '\n' || c == '\r'
}

/// The parts of `token` between its dots: `push.42` gives `push` and `42`.
fn split_parts<'a>(token: &'a str) -> (r: Vec<&'a str>)
    ensures
        r@.len() >= 1,
        views(r@) == split_dots(token@),
{
    let n = token.unicode_len();
    let mut parts: Vec<&str> = Vec::new();
    let mut start: usize = 0;
    let mut i: usize = 0;
    while i < n
        invariant
            start <= i <= n,
            n == token@.len(),
            views(parts@) + split_scan(token@, start as int, i as int) == split_dots(token@),
        decreases n - i,
    {
        let ghost before = views(parts@);
        if token.get_char(i) == '.' {
            parts.push(token.substring_char(start, i));
            assert(views(parts@) =~= before + seq![token@.subrange(start as int, i as int)]);
            start = i + 1;
        }
        i += 1;
    }
    let ghost before = views(parts@);
    parts.push(token.substring_char(start, n));
    assert(views(parts@) =~= before + seq![token@.subrange(start as int, n as int)]);
    assert(split_scan(token@, start as int, n as int) == seq![token@.subrange(start as int, n as int)]);
    parts
}

/// Assembles `source`: whitespace-separated tokens, each a mnemonic followed by its
/// parameters after dots (`push.42`, `gt.64`). Tokens are numbered from 0 in errors.
/// In the result every PUSH sits at an index divisible by 8 with exactly one `PushValue`
/// hint keyed at that index (hint keys increase strictly), and every `PushValue` hint is
/// keyed at a PUSH.
#[verifier::rlimit(60)]
pub fn assemble(source: &str) -> (r: Result<(Vec<UserOps>, HintMap), AssemblyError>)
    ensures
        match assembly_run(tokens(source@), tokens(source@).len() as int) {
            Ok((p, h)) => r matches Ok((rp, rh)) && rp@ == p && rh@ == h,
            Err((i, k)) => r matches Err(e) && e.kind == k && e.step == i && e.op@.len() == tokens(
                source@,
            )[i].len() && forall|j: int| 0 <= j < e.op@.len() ==> #[trigger] e.op@[j]@ == tokens(source@)[i][j],
        },
        r matches Ok((p, h)) ==> push_aligned(p@, h@) && h.keys_below(p@.len() as int),
{
    let ghost toks = tokens(source@);
    let n = source.unicode_len();
    let mut program: Vec<UserOps> = Vec::new();
    let mut hints = HintMap::new();
    let mut i: usize = 0;
    let mut step: usize = 0;
    while i < n
        invariant
            i <= n,
            n == source@.len(),
            step <= i,
            toks == tokens(source@),
            step <= toks.len(),
            toks.subrange(step as int, toks.len() as int) == token_scan(source@, -1, i as int),
            assembly_run(toks, step as int) == Ok::<_, (int, AssemblyErrorKind)>((program@, hints@)),
            push_aligned(program@, hints@),
            hints.keys_below(program@.len() as int),
        decreases n - i,
    {
        if is_space(source.get_char(i)) {
            assert(token_scan(source@, -1, i as int) == token_scan(source@, -1, i + 1));
            i += 1;
        } else {
            let start = i;
            assert(token_scan(source@, -1, start as int) == token_scan(source@, start as int, start + 1));
            i += 1;
            while i < n && !is_space(source.get_char(i))
                invariant
                    start < i <= n,
                    n == source@.len(),
                    !is_space_char(source@[start as int]),
                    token_scan(source@, -1, start as int) == token_scan(source@, start as int, i as int),
                decreases n - i,
            {
                i += 1;
            }
            let token = source.substring_char(start, i);
            proof {
                if i < n {
                    assert(token_scan(source@, -1, i as int) == token_scan(source@, -1, i + 1));
                }
                assert(token_scan(source@, -1, start as int) == seq![split_dots(token@)] + token_scan(
                    source@,
                    -1,
                    i as int,
                ));
                assert(toks[step as int] == toks.subrange(step as int, toks.len() as int)[0]);
                assert(toks.subrange(step + 1, toks.len() as int) =~= toks.subrange(
                    step as int,
                    toks.len() as int,
                ).drop_first());
            }
            let parts_vec = split_parts(token);
            let parts = parts_vec.as_slice();
            if program.len() >= MAX_PROGRAM_LENGTH {
                let e = AssemblyError::program_too_long(parts, step);
                proof {
                    lemma_run_error_stays(toks, step + 1, toks.len() as int);
                }
                return Err(e);
            }
            match parse_op(&mut program, &mut hints, parts, step) {
                Ok(_) => {},
                Err(e) => {
                    proof {
                        lemma_run_error_stays(toks, step + 1, toks.len() as int);
                    }
                    return Err(e);
                },
            }
            step += 1;
        }
    }
    proof {
        assert(toks.subrange(step as int, toks.len() as int).len() == 0);
    }
    Ok((program, hints))
}

} // verus!
