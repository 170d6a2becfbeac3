//! One parser per mnemonic: each appends the mnemonic's opcodes (and hints) to the
//! program, or reports what is wrong with the token.
use crate::field::MODULUS;
use crate::opcodes::{OpHint, UserOps};
use crate::programs::assembly::errors::{is_error, views, AssemblyError, AssemblyErrorKind, HintMap, ParamReason};
use crate::programs::assembly::numbers::{parse_uint, parse_uint_spec, str_eq, str_starts_with};
use vstd::prelude::*;

verus! {

pub const PUSH_OP_ALIGNMENT: usize = 8;

pub const HASH_OP_ALIGNMENT: usize = 16;

/// Programs stay below this length, so that every expansion fits in `usize`.
pub const MAX_PROGRAM_LENGTH: usize = 0x7fff_0000;

// SPECIFICATIONS
// ================================================================================================

/// The numeric parameter of a token: 1 when absent, else a positive decimal `u32`.
pub open spec fn param_spec(op: Seq<Seq<char>>) -> Result<u32, AssemblyErrorKind> {
    if op.len() == 1 {
        Ok(1)
    } else if op.len() > 2 {
        Err(AssemblyErrorKind::ExtraParam)
    } else {
        match parse_uint_spec(op[1], 10, u32::MAX as nat) {
            None => Err(AssemblyErrorKind::InvalidParam),
            Some(v) => if v == 0 {
                Err(AssemblyErrorKind::InvalidParamReason(ParamReason::Zero))
            } else {
                Ok(v as u32)
            },
        }
    }
}

/// `t` begins with `0x`.
pub open spec fn is_hex(t: Seq<char>) -> bool {
    t.len() >= 2 && t[0] == '0' && t[1] == 'x'
}

/// The field element of a token: a decimal, or a hexadecimal after `0x`, below the modulus.
pub open spec fn value_spec(op: Seq<Seq<char>>) -> Result<u128, AssemblyErrorKind> {
    if op.len() == 1 {
        Err(AssemblyErrorKind::MissingParam)
    } else if op.len() > 2 {
        Err(AssemblyErrorKind::ExtraParam)
    } else {
        let t = op[1];
        let parsed = if is_hex(t) {
            parse_uint_spec(t.subrange(2, t.len() as int), 16, u128::MAX as nat)
        } else {
            parse_uint_spec(t, 10, u128::MAX as nat)
        };
        match parsed {
            None => Err(AssemblyErrorKind::InvalidParam),
            Some(v) => if v >= MODULUS {
                Err(AssemblyErrorKind::InvalidParamReason(ParamReason::NotFieldElement))
            } else {
                Ok(v as u128)
            },
        }
    }
}

pub open spec fn not_allowed() -> AssemblyErrorKind {
    AssemblyErrorKind::InvalidParamReason(ParamReason::NotAllowed)
}

/// The expansion of a mnemonic without parameters.
pub open spec fn no_param(op: Seq<Seq<char>>, ops: Seq<UserOps>) -> Result<Seq<UserOps>, AssemblyErrorKind> {
    if op.len() > 1 {
        Err(AssemblyErrorKind::ExtraParam)
    } else {
        Ok(ops)
    }
}

/// The expansion of a mnemonic whose parameter selects an entry of `table`.
pub open spec fn with_param(op: Seq<Seq<char>>, table: spec_fn(u32) -> Option<Seq<UserOps>>) -> Result<
    Seq<UserOps>,
    AssemblyErrorKind,
> {
    match param_spec(op) {
        Err(k) => Err(k),
        Ok(n) => match table(n) {
            Some(ops) => Ok(ops),
            None => Err(not_allowed()),
        },
    }
}

/// The parser returned what `expected` gives: `Ok(true)` with the opcodes appended, or
/// the error with the program unchanged.
pub open spec fn outcome(
    r: Result<bool, AssemblyError>,
    before: Seq<UserOps>,
    after: Seq<UserOps>,
    op: Seq<&str>,
    step: usize,
    expected: Result<Seq<UserOps>, AssemblyErrorKind>,
) -> bool {
    match expected {
        Ok(ops) => r matches Ok(b) && b && after == before + ops,
        Err(k) => r matches Err(e) && is_error(e, op, step, k) && after == before,
    }
}

/// `k` copies of `o`.
pub open spec fn run(o: UserOps, k: nat) -> Seq<UserOps> {
    Seq::new(k, |i: int| o)
}

/// The number of `Noop`s that pad a program of length `len` to a multiple of `align`.
pub open spec fn pad_len(len: nat, align: nat) -> nat {
    ((align as int - (len % align) as int) % (align as int)) as nat
}

pub open spec fn dup_table(n: u32) -> Option<Seq<UserOps>> {
    if n == 1 {
        Some(seq![UserOps::Dup])
    } else if n == 2 {
        Some(seq![UserOps::Dup2])
    } else if n == 3 {
        Some(seq![UserOps::Dup4, UserOps::Roll4, UserOps::Drop])
    } else if n == 4 {
        Some(seq![UserOps::Dup4])
    } else {
        None
    }
}

pub open spec fn pad_table(n: u32) -> Option<Seq<UserOps>> {
    if n == 1 {
        Some(seq![UserOps::Pad2, UserOps::Drop])
    } else if n == 2 {
        Some(seq![UserOps::Pad2])
    } else if n == 3 {
        Some(seq![UserOps::Pad2, UserOps::Pad2, UserOps::Drop])
    } else if n == 4 {
        Some(seq![UserOps::Pad2, UserOps::Pad2])
    } else if n == 5 {
        Some(seq![UserOps::Pad2, UserOps::Pad2, UserOps::Pad2, UserOps::Drop])
    } else if n == 6 {
        Some(seq![UserOps::Pad2, UserOps::Pad2, UserOps::Pad2])
    } else if n == 7 {
        Some(seq![UserOps::Pad2, UserOps::Pad2, UserOps::Dup4, UserOps::Drop])
    } else if n == 8 {
        Some(seq![UserOps::Pad2, UserOps::Pad2, UserOps::Dup4])
    } else {
        None
    }
}

pub open spec fn pick_table(n: u32) -> Option<Seq<UserOps>> {
    if n == 1 {
        Some(seq![UserOps::Dup2, UserOps::Drop])
    } else if n == 2 {
        Some(seq![UserOps::Dup4, UserOps::Roll4, UserOps::Drop, UserOps::Drop, UserOps::Drop])
    } else if n == 3 {
        Some(seq![UserOps::Dup4, UserOps::Drop, UserOps::Drop, UserOps::Drop])
    } else {
        None
    }
}

pub open spec fn drop_table(n: u32) -> Option<Seq<UserOps>> {
    if n == 1 {
        Some(seq![UserOps::Drop])
    } else if n == 2 {
        Some(seq![UserOps::Drop, UserOps::Drop])
    } else if n == 3 {
        Some(seq![UserOps::Dup, UserOps::Drop4])
    } else if n == 4 {
        Some(seq![UserOps::Drop4])
    } else if n == 5 {
        Some(seq![UserOps::Drop, UserOps::Drop4])
    } else if n == 6 {
        Some(seq![UserOps::Drop, UserOps::Drop, UserOps::Drop4])
    } else if n == 7 {
        Some(seq![UserOps::Dup, UserOps::Drop4, UserOps::Drop4])
    } else if n == 8 {
        Some(seq![UserOps::Drop4, UserOps::Drop4])
    } else {
        None
    }
}

pub open spec fn swap_table(n: u32) -> Option<Seq<UserOps>> {
    if n == 1 {
        Some(seq![UserOps::Swap])
    } else if n == 2 {
        Some(seq![UserOps::Swap2])
    } else if n == 4 {
        Some(seq![UserOps::Swap4])
    } else {
        None
    }
}

pub open spec fn roll_table(n: u32) -> Option<Seq<UserOps>> {
    if n == 4 {
        Some(seq![UserOps::Roll4])
    } else if n == 8 {
        Some(seq![UserOps::Roll8])
    } else {
        None
    }
}

pub open spec fn choose_table(n: u32) -> Option<Seq<UserOps>> {
    if n == 1 {
        Some(seq![UserOps::Choose])
    } else if n == 2 {
        Some(seq![UserOps::Choose2])
    } else {
        None
    }
}

/// The operations that load `n` values into the hashed region of the stack.
pub open spec fn hash_table(n: u32) -> Option<Seq<UserOps>> {
    if n == 1 {
        Some(seq![UserOps::Pad2, UserOps::Pad2, UserOps::Pad2, UserOps::Drop])
    } else if n == 2 {
        Some(seq![UserOps::Pad2, UserOps::Pad2])
    } else if n == 3 {
        Some(seq![UserOps::Pad2, UserOps::Pad2, UserOps::Drop])
    } else if n == 4 {
        Some(seq![UserOps::Pad2])
    } else {
        None
    }
}

/// The operations that end `gt.n`.
pub open spec fn gt_finale() -> Seq<UserOps> {
    seq![
        UserOps::Drop4,
        UserOps::Pad2,
        UserOps::Swap4,
        UserOps::Roll4,
        UserOps::AssertEq,
        UserOps::AssertEq,
        UserOps::Roll4,
        UserOps::Dup,
        UserOps::Drop4,
    ]
}

/// The operations that end `lt.n`.
pub open spec fn lt_finale() -> Seq<UserOps> {
    seq![
        UserOps::Drop4,
        UserOps::Pad2,
        UserOps::Swap4,
        UserOps::Roll4,
        UserOps::AssertEq,
        UserOps::AssertEq,
        UserOps::Dup,
        UserOps::Drop4,
    ]
}

/// One step of a Merkle path: hash(p, v), read a bit of the index, hash(v, p), choose,
/// read the next node.
pub open spec fn mpath_cycle() -> Seq<UserOps> {
    run(UserOps::RescR, 10) + seq![
        UserOps::Drop4,
        UserOps::Read2,
        UserOps::Swap2,
        UserOps::Swap4,
        UserOps::Swap2,
        UserOps::Pad2,
    ] + run(UserOps::RescR, 10) + seq![
        UserOps::Drop4,
        UserOps::Choose2,
        UserOps::Read2,
        UserOps::Dup4,
        UserOps::Pad2,
        UserOps::Noop,
    ]
}

/// `k` copies of `s`, one after another.
pub open spec fn repeat(s: Seq<UserOps>, k: nat) -> Seq<UserOps>
    decreases k,
{
    if k == 0 {
        Seq::empty()
    } else {
        repeat(s, (k - 1) as nat) + s
    }
}

/// `2^(n-1)`, the first power of two aggregated by `n`-bit comparisons and range checks.
pub open spec fn top_power(n: u32) -> u128 {
    1u128 << ((n - 1) as u128)
}

// PROGRAM BUILDING
// ================================================================================================

/// Appends `ops` to the program.
fn emit(program: &mut Vec<UserOps>, ops: &[UserOps])
    ensures
        final(program)@ == old(program)@ + ops@,
{
    let mut i: usize = 0;
    while i < ops.len()
        invariant
            i <= ops@.len(),
            program@ == old(program)@ + ops@.subrange(0, i as int),
        decreases ops.len() - i,
    {
        program.push(ops[i]);
        i += 1;
        assert(program@ =~= old(program)@ + ops@.subrange(0, i as int));
    }
    assert(ops@.subrange(0, i as int) =~= ops@);
}

/// Appends `k` copies of `o` to the program.
fn emit_run(program: &mut Vec<UserOps>, o: UserOps, k: usize)
    ensures
        final(program)@ == old(program)@ + run(o, k as nat),
{
    let mut i: usize = 0;
    while i < k
        invariant
            i <= k,
            program@ == old(program)@ + run(o, i as nat),
        decreases k - i,
    {
        program.push(o);
        i += 1;
        assert(program@ =~= old(program)@ + run(o, i as nat));
    }
}

/// Appends NOOPs until the program length is a multiple of `align`; returns the new length.
fn pad_to(program: &mut Vec<UserOps>, align: usize) -> (r: usize)
    requires
        align == 8 || align == 16,
        old(program).len() < MAX_PROGRAM_LENGTH + 64,
    ensures
        final(program)@ == old(program)@ + run(UserOps::Noop, pad_len(old(program)@.len(), align as nat)),
        r == final(program)@.len(),
        r % align == 0,
        r < MAX_PROGRAM_LENGTH + 80,
{
    let alignment = program.len() % align;
    let pad_length = (align - alignment) % align;
    emit_run(program, UserOps::Noop, pad_length);
    program.len()
}

/// Pads the program so that PUSH lands on a multiple of 8, records the value as a hint at
/// that index, and appends PUSH.
fn append_push_op(program: &mut Vec<UserOps>, hints: &mut HintMap, value: u128)
    requires
        old(program).len() < MAX_PROGRAM_LENGTH + 64,
        old(hints).keys_below(old(program)@.len() as int),
    ensures
        final(program)@ == old(program)@ + run(UserOps::Noop, pad_len(old(program)@.len(), 8))
            + seq![UserOps::Push],
        final(hints)@ == old(hints)@.push(
            (
                (old(program)@.len() + pad_len(old(program)@.len(), 8)) as usize,
                OpHint::PushValue(value),
            ),
        ),
        final(hints).keys_below(final(program)@.len() as int),
        final(program)@.len() < MAX_PROGRAM_LENGTH + 81,
{
    // pad the program with NOOPs so that PUSH happens on a step which is a multiple of 8
    let at = pad_to(program, PUSH_OP_ALIGNMENT);
    hints.insert(at, OpHint::PushValue(value));
    program.push(UserOps::Push);
    assert(program@ =~= old(program)@ + run(UserOps::Noop, pad_len(old(program)@.len(), 8))
        + seq![UserOps::Push]);
}

// CONTROL FLOW OPERATIONS
// ================================================================================================

/// Appends a NOOP operation to the program.
pub fn parse_noop(program: &mut Vec<UserOps>, op: &[&str], step: usize) -> (r: Result<bool, AssemblyError>)
    requires
        op@.len() >= 1,
    ensures
        outcome(r, old(program)@, final(program)@, op@, step, no_param(views(op@), seq![UserOps::Noop])),
{
    if op.len() > 1 {
        return Err(AssemblyError::extra_param(op, step));
    }
    let ops = [UserOps::Noop];
    assert(ops@ =~= seq![UserOps::Noop]);
    emit(program, &ops);
    Ok(true)
}


/// Appends either ASSERT or ASSERTEQ to the program.
pub fn parse_assert(program: &mut Vec<UserOps>, op: &[&str], step: usize) -> (r: Result<bool, AssemblyError>)
    requires
        op@.len() >= 1,
    ensures
        outcome(
            r,
            old(program)@,
            final(program)@,
            op@,
            step,
            if op@.len() > 2 {
                Err(AssemblyErrorKind::ExtraParam)
            } else if op@.len() == 1 {
                Ok(seq![UserOps::Assert])
            } else if op@[1]@ == "eq"@ {
                Ok(seq![UserOps::AssertEq])
            } else {
                Err(not_allowed())
            },
        ),
{
    if op.len() > 2 {
        return Err(AssemblyError::extra_param(op, step));
    } else if op.len() == 1 {
        let ops = [UserOps::Assert];
        assert(ops@ =~= seq![UserOps::Assert]);
        emit(program, &ops);
    } else if str_eq(op[1], "eq") {
        let ops = [UserOps::AssertEq];
        assert(ops@ =~= seq![UserOps::AssertEq]);
        emit(program, &ops);
    } else {
        return Err(AssemblyError::invalid_param_reason(op, step, ParamReason::NotAllowed));
    }
    Ok(true)
}

// INPUT OPERATIONS
// ================================================================================================

/// Appends a PUSH operation to the program, aligned to a multiple of 8.
pub fn parse_push(program: &mut Vec<UserOps>, hints: &mut HintMap, op: &[&str], step: usize) -> (r: Result<bool, AssemblyError>)
    requires
        op@.len() >= 1,
        old(program).len() < MAX_PROGRAM_LENGTH,
        old(hints).keys_below(old(program)@.len() as int),
    ensures
        final(hints).keys_below(final(program)@.len() as int),
        match value_spec(views(op@)) {
            Err(k) => r matches Err(e) && is_error(e, op@, step, k) && final(program)@ == old(program)@
                && final(hints)@ == old(hints)@,
            Ok(v) => r matches Ok(b) && b && final(program)@ == old(program)@ + run(
                UserOps::Noop,
                pad_len(old(program)@.len(), 8),
            ) + seq![UserOps::Push] && final(hints)@ == old(hints)@.push(
                (
                    (old(program)@.len() + pad_len(old(program)@.len(), 8)) as usize,
                    OpHint::PushValue(v),
                ),
            ),
        },
{
    let value = match read_value(op, step) {
        Ok(v) => v,
        Err(e) => {
            return Err(e);
        },
    };
    append_push_op(program, hints, value);
    Ok(true)
}

/// Appends either READ or READ2 to the program.
pub fn parse_read(program: &mut Vec<UserOps>, op: &[&str], step: usize) -> (r: Result<bool, AssemblyError>)
    requires
        op@.len() >= 1,
    ensures
        outcome(
            r,
            old(program)@,
            final(program)@,
            op@,
            step,
            if op@.len() > 2 {
                Err(AssemblyErrorKind::ExtraParam)
            } else if op@.len() == 1 || op@[1]@ == "a"@ {
                Ok(seq![UserOps::Read])
            } else if op@[1]@ == "ab"@ {
                Ok(seq![UserOps::Read2])
            } else {
                Err(not_allowed())
            },
        ),
{
    if op.len() > 2 {
        return Err(AssemblyError::extra_param(op, step));
    } else if op.len() == 1 || str_eq(op[1], "a") {
        let ops = [UserOps::Read];
        assert(ops@ =~= seq![UserOps::Read]);
        emit(program, &ops);
    } else if str_eq(op[1], "ab") {
        let ops = [UserOps::Read2];
        assert(ops@ =~= seq![UserOps::Read2]);
        emit(program, &ops);
    } else {
        return Err(AssemblyError::invalid_param_reason(op, step, ParamReason::NotAllowed));
    }
    Ok(true)
}

// STACK MANIPULATION OPERATIONS
// ================================================================================================

/// Appends operations that duplicate the top n values of the stack.
pub fn parse_dup(program: &mut Vec<UserOps>, op: &[&str], step: usize) -> (r: Result<bool, AssemblyError>)
    requires
        op@.len() >= 1,
    ensures
        outcome(r, old(program)@, final(program)@, op@, step, with_param(views(op@), |n: u32| dup_table(n))),
{
    let n = match read_param(op, step) {
        Ok(n) => n,
        Err(e) => {
            return Err(e);
        },
    };
    if n == 1 {
        let ops = [UserOps::Dup];
        assert(ops@ =~= seq![UserOps::Dup]);
        emit(program, &ops);
    } else if n == 2 {
        let ops = [UserOps::Dup2];
        assert(ops@ =~= seq![UserOps::Dup2]);
        emit(program, &ops);
    } else if n == 3 {
        let ops = [UserOps::Dup4, UserOps::Roll4, UserOps::Drop];
        assert(ops@ =~= seq![UserOps::Dup4, UserOps::Roll4, UserOps::Drop]);
        emit(program, &ops);
    } else if n == 4 {
        let ops = [UserOps::Dup4];
        assert(ops@ =~= seq![UserOps::Dup4]);
        emit(program, &ops);
    } else {
        return Err(AssemblyError::invalid_param_reason(op, step, ParamReason::NotAllowed));
    }
    Ok(true)
}

/// Appends operations that pad the stack with n zeros.
pub fn parse_pad(program: &mut Vec<UserOps>, op: &[&str], step: usize) -> (r: Result<bool, AssemblyError>)
    requires
        op@.len() >= 1,
    ensures
        outcome(r, old(program)@, final(program)@, op@, step, with_param(views(op@), |n: u32| pad_table(n))),
{
    let n = match read_param(op, step) {
        Ok(n) => n,
        Err(e) => {
            return Err(e);
        },
    };
    if n == 1 {
        let ops = [UserOps::Pad2, UserOps::Drop];
        assert(ops@ =~= seq![UserOps::Pad2, UserOps::Drop]);
        emit(program, &ops);
    } else if n == 2 {
        let ops = [UserOps::Pad2];
        assert(ops@ =~= seq![UserOps::Pad2]);
        emit(program, &ops);
    } else if n == 3 {
        let ops = [UserOps::Pad2, UserOps::Pad2, UserOps::Drop];
        assert(ops@ =~= seq![UserOps::Pad2, UserOps::Pad2, UserOps::Drop]);
        emit(program, &ops);
    } else if n == 4 {
        let ops = [UserOps::Pad2, UserOps::Pad2];
        assert(ops@ =~= seq![UserOps::Pad2, UserOps::Pad2]);
        emit(program, &ops);
    } else if n == 5 {
        let ops = [UserOps::Pad2, UserOps::Pad2, UserOps::Pad2, UserOps::Drop];
        assert(ops@ =~= seq![UserOps::Pad2, UserOps::Pad2, UserOps::Pad2, UserOps::Drop]);
        emit(program, &ops);
    } else if n == 6 {
        let ops = [UserOps::Pad2, UserOps::Pad2, UserOps::Pad2];
        assert(ops@ =~= seq![UserOps::Pad2, UserOps::Pad2, UserOps::Pad2]);
        emit(program, &ops);
    } else if n == 7 {
        let ops = [UserOps::Pad2, UserOps::Pad2, UserOps::Dup4, UserOps::Drop];
        assert(ops@ =~= seq![UserOps::Pad2, UserOps::Pad2, UserOps::Dup4, UserOps::Drop]);
        emit(program, &ops);
    } else if n == 8 {
        let ops = [UserOps::Pad2, UserOps::Pad2, UserOps::Dup4];
        assert(ops@ =~= seq![UserOps::Pad2, UserOps::Pad2, UserOps::Dup4]);
        emit(program, &ops);
    } else {
        return Err(AssemblyError::invalid_param_reason(op, step, ParamReason::NotAllowed));
    }
    Ok(true)
}

/// Appends operations that copy the n-th item to the top of the stack.
pub fn parse_pick(program: &mut Vec<UserOps>, op: &[&str], step: usize) -> (r: Result<bool, AssemblyError>)
    requires
        op@.len() >= 1,
    ensures
        outcome(r, old(program)@, final(program)@, op@, step, with_param(views(op@), |n: u32| pick_table(n))),
{
    let n = match read_param(op, step) {
        Ok(n) => n,
        Err(e) => {
            return Err(e);
        },
    };
    if n == 1 {
        let ops = [UserOps::Dup2, UserOps::Drop];
        assert(ops@ =~= seq![UserOps::Dup2, UserOps::Drop]);
        emit(program, &ops);
    } else if n == 2 {
        let ops = [UserOps::Dup4, UserOps::Roll4, UserOps::Drop, UserOps::Drop, UserOps::Drop];
        assert(ops@ =~= seq![UserOps::Dup4, UserOps::Roll4, UserOps::Drop, UserOps::Drop, UserOps::Drop]);
        emit(program, &ops);
    } else if n == 3 {
        let ops = [UserOps::Dup4, UserOps::Drop, UserOps::Drop, UserOps::Drop];
        assert(ops@ =~= seq![UserOps::Dup4, UserOps::Drop, UserOps::Drop, UserOps::Drop]);
        emit(program, &ops);
    } else {
        return Err(AssemblyError::invalid_param_reason(op, step, ParamReason::NotAllowed));
    }
    Ok(true)
}

/// Appends operations that remove the top n values from the stack.
pub fn parse_drop(program: &mut Vec<UserOps>, op: &[&str], step: usize) -> (r: Result<bool, AssemblyError>)
    requires
        op@.len() >= 1,
    ensures
        outcome(r, old(program)@, final(program)@, op@, step, with_param(views(op@), |n: u32| drop_table(n))),
{
    let n = match read_param(op, step) {
        Ok(n) => n,
        Err(e) => {
            return Err(e);
        },
    };
    if n == 1 {
        let ops = [UserOps::Drop];
        assert(ops@ =~= seq![UserOps::Drop]);
        emit(program, &ops);
    } else if n == 2 {
        let ops = [UserOps::Drop, UserOps::Drop];
        assert(ops@ =~= seq![UserOps::Drop, UserOps::Drop]);
        emit(program, &ops);
    } else if n == 3 {
        let ops = [UserOps::Dup, UserOps::Drop4];
        assert(ops@ =~= seq![UserOps::Dup, UserOps::Drop4]);
        emit(program, &ops);
    } else if n == 4 {
        let ops = [UserOps::Drop4];
        assert(ops@ =~= seq![UserOps::Drop4]);
        emit(program, &ops);
    } else if n == 5 {
        let ops = [UserOps::Drop, UserOps::Drop4];
        assert(ops@ =~= seq![UserOps::Drop, UserOps::Drop4]);
        emit(program, &ops);
    } else if n == 6 {
        let ops = [UserOps::Drop, UserOps::Drop, UserOps::Drop4];
        assert(ops@ =~= seq![UserOps::Drop, UserOps::Drop, UserOps::Drop4]);
        emit(program, &ops);
    } else if n == 7 {
        let ops = [UserOps::Dup, UserOps::Drop4, UserOps::Drop4];
        assert(ops@ =~= seq![UserOps::Dup, UserOps::Drop4, UserOps::Drop4]);
        emit(program, &ops);
    } else if n == 8 {
        let ops = [UserOps::Drop4, UserOps::Drop4];
        assert(ops@ =~= seq![UserOps::Drop4, UserOps::Drop4]);
        emit(program, &ops);
    } else {
        return Err(AssemblyError::invalid_param_reason(op, step, ParamReason::NotAllowed));
    }
    Ok(true)
}

/// Appends the operation that swaps the top n values of the stack with the next n.
pub fn parse_swap(program: &mut Vec<UserOps>, op: &[&str], step: usize) -> (r: Result<bool, AssemblyError>)
    requires
        op@.len() >= 1,
    ensures
        outcome(r, old(program)@, final(program)@, op@, step, with_param(views(op@), |n: u32| swap_table(n))),
{
    let n = match read_param(op, step) {
        Ok(n) => n,
        Err(e) => {
            return Err(e);
        },
    };
    if n == 1 {
        let ops = [UserOps::Swap];
        assert(ops@ =~= seq![UserOps::Swap]);
        emit(program, &ops);
    } else if n == 2 {
        let ops = [UserOps::Swap2];
        assert(ops@ =~= seq![UserOps::Swap2]);
        emit(program, &ops);
    } else if n == 4 {
        let ops = [UserOps::Swap4];
        assert(ops@ =~= seq![UserOps::Swap4]);
        emit(program, &ops);
    } else {
        return Err(AssemblyError::invalid_param_reason(op, step, ParamReason::NotAllowed));
    }
    Ok(true)
}

/// Appends either ROLL4 or ROLL8.
pub fn parse_roll(program: &mut Vec<UserOps>, op: &[&str], step: usize) -> (r: Result<bool, AssemblyError>)
    requires
        op@.len() >= 1,
    ensures
        outcome(r, old(program)@, final(program)@, op@, step, with_param(views(op@), |n: u32| roll_table(n))),
{
    let n = match read_param(op, step) {
        Ok(n) => n,
        Err(e) => {
            return Err(e);
        },
    };
    if n == 4 {
        let ops = [UserOps::Roll4];
        assert(ops@ =~= seq![UserOps::Roll4]);
        emit(program, &ops);
    } else if n == 8 {
        let ops = [UserOps::Roll8];
        assert(ops@ =~= seq![UserOps::Roll8]);
        emit(program, &ops);
    } else {
        return Err(AssemblyError::invalid_param_reason(op, step, ParamReason::NotAllowed));
    }
    Ok(true)
}

/// Appends either CHOOSE or CHOOSE2.
pub fn parse_choose(program: &mut Vec<UserOps>, op: &[&str], step: usize) -> (r: Result<bool, AssemblyError>)
    requires
        op@.len() >= 1,
    ensures
        outcome(r, old(program)@, final(program)@, op@, step, with_param(views(op@), |n: u32| choose_table(n))),
{
    let n = match read_param(op, step) {
        Ok(n) => n,
        Err(e) => {
            return Err(e);
        },
    };
    if n == 1 {
        let ops = [UserOps::Choose];
        assert(ops@ =~= seq![UserOps::Choose]);
        emit(program, &ops);
    } else if n == 2 {
        let ops = [UserOps::Choose2];
        assert(ops@ =~= seq![UserOps::Choose2]);
        emit(program, &ops);
    } else {
        return Err(AssemblyError::invalid_param_reason(op, step, ParamReason::NotAllowed));
    }
    Ok(true)
}

// ARITHMETIC AND BOOLEAN OPERATIONS
// ================================================================================================

/// Appends ADD operation to the program.
pub fn parse_add(program: &mut Vec<UserOps>, op: &[&str], step: usize) -> (r: Result<bool, AssemblyError>)
    requires
        op@.len() >= 1,
    ensures
        outcome(r, old(program)@, final(program)@, op@, step, no_param(views(op@), seq![UserOps::Add])),
{
    if op.len() > 1 {
        return Err(AssemblyError::extra_param(op, step));
    }
    let ops = [UserOps::Add];
    assert(ops@ =~= seq![UserOps::Add]);
    emit(program, &ops);
    Ok(true)
}

/// Appends NEG ADD operations to the program.
pub fn parse_sub(program: &mut Vec<UserOps>, op: &[&str], step: usize) -> (r: Result<bool, AssemblyError>)
    requires
        op@.len() >= 1,
    ensures
        outcome(r, old(program)@, final(program)@, op@, step, no_param(views(op@), seq![UserOps::Neg, UserOps::Add])),
{
    if op.len() > 1 {
        return Err(AssemblyError::extra_param(op, step));
    }
    let ops = [UserOps::Neg, UserOps::Add];
    assert(ops@ =~= seq![UserOps::Neg, UserOps::Add]);
    emit(program, &ops);
    Ok(true)
}

/// Appends MUL operation to the program.
pub fn parse_mul(program: &mut Vec<UserOps>, op: &[&str], step: usize) -> (r: Result<bool, AssemblyError>)
    requires
        op@.len() >= 1,
    ensures
        outcome(r, old(program)@, final(program)@, op@, step, no_param(views(op@), seq![UserOps::Mul])),
{
    if op.len() > 1 {
        return Err(AssemblyError::extra_param(op, step));
    }
    let ops = [UserOps::Mul];
    assert(ops@ =~= seq![UserOps::Mul]);
    emit(program, &ops);
    Ok(true)
}

/// Appends INV MUL operations to the program.
pub fn parse_div(program: &mut Vec<UserOps>, op: &[&str], step: usize) -> (r: Result<bool, AssemblyError>)
    requires
        op@.len() >= 1,
    ensures
        outcome(r, old(program)@, final(program)@, op@, step, no_param(views(op@), seq![UserOps::Inv, UserOps::Mul])),
{
    if op.len() > 1 {
        return Err(AssemblyError::extra_param(op, step));
    }
    let ops = [UserOps::Inv, UserOps::Mul];
    assert(ops@ =~= seq![UserOps::Inv, UserOps::Mul]);
    emit(program, &ops);
    Ok(true)
}

/// Appends NEG operation to the program.
pub fn parse_neg(program: &mut Vec<UserOps>, op: &[&str], step: usize) -> (r: Result<bool, AssemblyError>)
    requires
        op@.len() >= 1,
    ensures
        outcome(r, old(program)@, final(program)@, op@, step, no_param(views(op@), seq![UserOps::Neg])),
{
    if op.len() > 1 {
        return Err(AssemblyError::extra_param(op, step));
    }
    let ops = [UserOps::Neg];
    assert(ops@ =~= seq![UserOps::Neg]);
    emit(program, &ops);
    Ok(true)
}

/// Appends INV operation to the program.
pub fn parse_inv(program: &mut Vec<UserOps>, op: &[&str], step: usize) -> (r: Result<bool, AssemblyError>)
    requires
        op@.len() >= 1,
    ensures
        outcome(r, old(program)@, final(program)@, op@, step, no_param(views(op@), seq![UserOps::Inv])),
{
    if op.len() > 1 {
        return Err(AssemblyError::extra_param(op, step));
    }
    let ops = [UserOps::Inv];
    assert(ops@ =~= seq![UserOps::Inv]);
    emit(program, &ops);
    Ok(true)
}

/// Appends NOT operation to the program.
pub fn parse_not(program: &mut Vec<UserOps>, op: &[&str], step: usize) -> (r: Result<bool, AssemblyError>)
    requires
        op@.len() >= 1,
    ensures
        outcome(r, old(program)@, final(program)@, op@, step, no_param(views(op@), seq![UserOps::Not])),
{
    if op.len() > 1 {
        return Err(AssemblyError::extra_param(op, step));
    }
    let ops = [UserOps::Not];
    assert(ops@ =~= seq![UserOps::Not]);
    emit(program, &ops);
    Ok(true)
}

/// Appends AND operation to the program.
pub fn parse_and(program: &mut Vec<UserOps>, op: &[&str], step: usize) -> (r: Result<bool, AssemblyError>)
    requires
        op@.len() >= 1,
    ensures
        outcome(r, old(program)@, final(program)@, op@, step, no_param(views(op@), seq![UserOps::And])),
{
    if op.len() > 1 {
        return Err(AssemblyError::extra_param(op, step));
    }
    let ops = [UserOps::And];
    assert(ops@ =~= seq![UserOps::And]);
    emit(program, &ops);
    Ok(true)
}

/// Appends OR operation to the program.
pub fn parse_or(program: &mut Vec<UserOps>, op: &[&str], step: usize) -> (r: Result<bool, AssemblyError>)
    requires
        op@.len() >= 1,
    ensures
        outcome(r, old(program)@, final(program)@, op@, step, no_param(views(op@), seq![UserOps::Or])),
{
    if op.len() > 1 {
        return Err(AssemblyError::extra_param(op, step));
    }
    let ops = [UserOps::Or];
    assert(ops@ =~= seq![UserOps::Or]);
    emit(program, &ops);
    Ok(true)
}

// COMPARISON OPERATIONS
// ================================================================================================

/// Appends READ EQ to the program, with an `EqStart` hint at the READ.
pub fn parse_eq(program: &mut Vec<UserOps>, hints: &mut HintMap, op: &[&str], step: usize) -> (r: Result<bool, AssemblyError>)
    requires
        op@.len() >= 1,
        old(program).len() < MAX_PROGRAM_LENGTH,
        old(hints).keys_below(old(program)@.len() as int),
    ensures
        final(hints).keys_below(final(program)@.len() as int),
        outcome(r, old(program)@, final(program)@, op@, step, no_param(views(op@), seq![UserOps::Read, UserOps::Eq])),
        r is Ok ==> final(hints)@ == old(hints)@.push((old(program)@.len() as usize, OpHint::EqStart)),
        r is Err ==> final(hints)@ == old(hints)@,
{
    if op.len() > 1 {
        return Err(AssemblyError::extra_param(op, step));
    }
    hints.insert(program.len(), OpHint::EqStart);
    let ops = [UserOps::Read, UserOps::Eq];
    assert(ops@ =~= seq![UserOps::Read, UserOps::Eq]);
    emit(program, &ops);
    Ok(true)
}

/// The parser returned what `expected` gives: `Ok(true)` with the program and hints it
/// names, or the error with program and hints unchanged.
pub open spec fn outcome_h(
    r: Result<bool, AssemblyError>,
    before: Seq<UserOps>,
    after: Seq<UserOps>,
    hb: Seq<(usize, OpHint)>,
    ha: Seq<(usize, OpHint)>,
    op: Seq<&str>,
    step: usize,
    expected: Result<(Seq<UserOps>, Seq<(usize, OpHint)>), AssemblyErrorKind>,
) -> bool {
    match expected {
        Ok((p, h)) => r matches Ok(b) && b && after == p && ha == h,
        Err(k) => r matches Err(e) && is_error(e, op, step, k) && after == before && ha == hb,
    }
}

/// A comparison or range check `n` bits wide: `prefix`, a PUSH of `2^(n-1)`, `n` CMPs (or
/// BINACCs), then `finale`; hints for the pushed value and the start of aggregation, and
/// with `eq_tail` an `EqStart` at the final READ EQ.
pub open spec fn aggregation(
    op: Seq<Seq<char>>,
    before: Seq<UserOps>,
    hb: Seq<(usize, OpHint)>,
    prefix: Seq<UserOps>,
    is_cmp: bool,
    finale: Seq<UserOps>,
    eq_tail: bool,
) -> Result<(Seq<UserOps>, Seq<(usize, OpHint)>), AssemblyErrorKind> {
    match param_spec(op) {
        Err(k) => Err(k),
        Ok(n) => if n < 4 || n > 128 {
            Err(AssemblyErrorKind::InvalidParamReason(ParamReason::OutOfRange(4, 128)))
        } else {
            let l = before.len() + prefix.len();
            let at = l + pad_len(l, 8);
            let start = if is_cmp {
                OpHint::CmpStart(n)
            } else {
                OpHint::RcStart(n)
            };
            let body = if is_cmp {
                UserOps::Cmp
            } else {
                UserOps::BinAcc
            };
            let after = before + prefix + run(UserOps::Noop, pad_len(l, 8)) + seq![UserOps::Push] + run(
                body,
                n as nat,
            ) + finale;
            let hints = hb.push((at as usize, OpHint::PushValue(top_power(n)))).push(
                ((at + 1) as usize, start),
            );
            Ok(
                (
                    after,
                    if eq_tail {
                        hints.push(((after.len() - 2) as usize, OpHint::EqStart))
                    } else {
                        hints
                    },
                ),
            )
        },
    }
}

/// `aggregation` as the outcome of a parser.
pub open spec fn aggregation_outcome(
    r: Result<bool, AssemblyError>,
    before: Seq<UserOps>,
    after: Seq<UserOps>,
    hb: Seq<(usize, OpHint)>,
    ha: Seq<(usize, OpHint)>,
    op: Seq<&str>,
    step: usize,
    prefix: Seq<UserOps>,
    is_cmp: bool,
    finale: Seq<UserOps>,
    eq_tail: bool,
) -> bool {
    outcome_h(r, before, after, hb, ha, op, step, aggregation(views(op), before, hb, prefix, is_cmp, finale, eq_tail))
}

/// Reads the width `n` of a comparison or range check: 4 to 128 bits.
fn read_width(op: &[&str], step: usize) -> (r: Result<u32, AssemblyError>)
    requires
        op@.len() >= 1,
    ensures
        match param_spec(views(op@)) {
            Err(k) => r matches Err(e) && is_error(e, op@, step, k),
            Ok(n) => if n < 4 || n > 128 {
                r matches Err(e) && is_error(
                    e,
                    op@,
                    step,
                    AssemblyErrorKind::InvalidParamReason(ParamReason::OutOfRange(4, 128)),
                )
            } else {
                r == Ok::<u32, AssemblyError>(n)
            },
        },
{
    let n = match read_param(op, step) {
        Ok(n) => n,
        Err(e) => {
            return Err(e);
        },
    };
    if n < 4 || n > 128 {
        return Err(AssemblyError::invalid_param_reason(op, step, ParamReason::OutOfRange(4, 128)));
    }
    Ok(n)
}

/// Appends operations that leave 1 on the stack when the top value is greater than the
/// next one, both of `n` bits.
pub fn parse_gt(program: &mut Vec<UserOps>, hints: &mut HintMap, op: &[&str], step: usize) -> (r: Result<bool, AssemblyError>)
    requires
        op@.len() >= 1,
        old(program).len() < MAX_PROGRAM_LENGTH,
        old(hints).keys_below(old(program)@.len() as int),
    ensures
        final(hints).keys_below(final(program)@.len() as int),
        aggregation_outcome(
            r,
            old(program)@,
            final(program)@,
            old(hints)@,
            final(hints)@,
            op@,
            step,
            seq![UserOps::Pad2, UserOps::Pad2, UserOps::Pad2, UserOps::Dup],
            true,
            gt_finale(),
            false,
        ),
{
    let n = match read_width(op, step) {
        Ok(n) => n,
        Err(e) => {
            return Err(e);
        },
    };
    // prepare the stack
    let ops = [UserOps::Pad2, UserOps::Pad2, UserOps::Pad2, UserOps::Dup];
    assert(ops@ =~= seq![UserOps::Pad2, UserOps::Pad2, UserOps::Pad2, UserOps::Dup]);
    emit(program, &ops);
    let power_of_two = 1u128 << (n - 1);
    append_push_op(program, hints, power_of_two);
    // the comparison starts at the next step
    hints.insert(program.len(), OpHint::CmpStart(n));
    emit_run(program, UserOps::Cmp, n as usize);
    // compare the aggregated values with the inputs and keep only the GT flag
    let ops = [UserOps::Drop4, UserOps::Pad2, UserOps::Swap4, UserOps::Roll4, UserOps::AssertEq, UserOps::AssertEq, UserOps::Roll4, UserOps::Dup, UserOps::Drop4];
    assert(ops@ =~= seq![UserOps::Drop4, UserOps::Pad2, UserOps::Swap4, UserOps::Roll4, UserOps::AssertEq, UserOps::AssertEq, UserOps::Roll4, UserOps::Dup, UserOps::Drop4]);
    emit(program, &ops);
    assert(ops@ == gt_finale());
    Ok(true)
}

/// Appends operations that leave 1 on the stack when the top value is less than the next
/// one, both of `n` bits.
pub fn parse_lt(program: &mut Vec<UserOps>, hints: &mut HintMap, op: &[&str], step: usize) -> (r: Result<bool, AssemblyError>)
    requires
        op@.len() >= 1,
        old(program).len() < MAX_PROGRAM_LENGTH,
        old(hints).keys_below(old(program)@.len() as int),
    ensures
        final(hints).keys_below(final(program)@.len() as int),
        aggregation_outcome(
            r,
            old(program)@,
            final(program)@,
            old(hints)@,
            final(hints)@,
            op@,
            step,
            seq![UserOps::Pad2, UserOps::Pad2, UserOps::Pad2, UserOps::Dup],
            true,
            lt_finale(),
            false,
        ),
{
    let n = match read_width(op, step) {
        Ok(n) => n,
        Err(e) => {
            return Err(e);
        },
    };
    // prepare the stack
    let ops = [UserOps::Pad2, UserOps::Pad2, UserOps::Pad2, UserOps::Dup];
    assert(ops@ =~= seq![UserOps::Pad2, UserOps::Pad2, UserOps::Pad2, UserOps::Dup]);
    emit(program, &ops);
    let power_of_two = 1u128 << (n - 1);
    append_push_op(program, hints, power_of_two);
    // the comparison starts at the next step
    hints.insert(program.len(), OpHint::CmpStart(n));
    emit_run(program, UserOps::Cmp, n as usize);
    // compare the aggregated values with the inputs and keep only the LT flag
    let ops = [UserOps::Drop4, UserOps::Pad2, UserOps::Swap4, UserOps::Roll4, UserOps::AssertEq, UserOps::AssertEq, UserOps::Dup, UserOps::Drop4];
    assert(ops@ =~= seq![UserOps::Drop4, UserOps::Pad2, UserOps::Swap4, UserOps::Roll4, UserOps::AssertEq, UserOps::AssertEq, UserOps::Dup, UserOps::Drop4]);
    emit(program, &ops);
    assert(ops@ == lt_finale());
    Ok(true)
}

/// Appends operations that check that the top value of the stack fits in `n` bits.
pub fn parse_rc(program: &mut Vec<UserOps>, hints: &mut HintMap, op: &[&str], step: usize) -> (r: Result<bool, AssemblyError>)
    requires
        op@.len() >= 1,
        old(program).len() < MAX_PROGRAM_LENGTH,
        old(hints).keys_below(old(program)@.len() as int),
    ensures
        final(hints).keys_below(final(program)@.len() as int),
        aggregation_outcome(
            r,
            old(program)@,
            final(program)@,
            old(hints)@,
            final(hints)@,
            op@,
            step,
            seq![UserOps::Pad2],
            false,
            seq![UserOps::Drop, UserOps::Drop, UserOps::Read, UserOps::Eq],
            true,
        ),
{
    let n = match read_width(op, step) {
        Ok(n) => n,
        Err(e) => {
            return Err(e);
        },
    };
    // prepare the stack
    let ops = [UserOps::Pad2];
    assert(ops@ =~= seq![UserOps::Pad2]);
    emit(program, &ops);
    let power_of_two = 1u128 << (n - 1);
    append_push_op(program, hints, power_of_two);
    // the range check starts at the next step
    hints.insert(program.len(), OpHint::RcStart(n));
    emit_run(program, UserOps::BinAcc, n as usize);
    let ghost mid = program@;
    // compare the aggregated value with the input
    let drops = [UserOps::Drop, UserOps::Drop];
    assert(drops@ =~= seq![UserOps::Drop, UserOps::Drop]);
    emit(program, &drops);
    hints.insert(program.len(), OpHint::EqStart);
    let ops = [UserOps::Read, UserOps::Eq];
    assert(ops@ =~= seq![UserOps::Read, UserOps::Eq]);
    emit(program, &ops);
    assert(program@ =~= mid + seq![UserOps::Drop, UserOps::Drop, UserOps::Read, UserOps::Eq]);
    Ok(true)
}

/// Appends operations that leave the lowest bit of the top value (of `n` bits).
pub fn parse_isodd(program: &mut Vec<UserOps>, hints: &mut HintMap, op: &[&str], step: usize) -> (r: Result<bool, AssemblyError>)
    requires
        op@.len() >= 1,
        old(program).len() < MAX_PROGRAM_LENGTH,
        old(hints).keys_below(old(program)@.len() as int),
    ensures
        final(hints).keys_below(final(program)@.len() as int),
        aggregation_outcome(
            r,
            old(program)@,
            final(program)@,
            old(hints)@,
            final(hints)@,
            op@,
            step,
            seq![UserOps::Pad2],
            false,
            seq![UserOps::Swap2, UserOps::AssertEq, UserOps::Drop],
            false,
        ),
{
    let n = match read_width(op, step) {
        Ok(n) => n,
        Err(e) => {
            return Err(e);
        },
    };
    // prepare the stack
    let ops = [UserOps::Pad2];
    assert(ops@ =~= seq![UserOps::Pad2]);
    emit(program, &ops);
    let power_of_two = 1u128 << (n - 1);
    append_push_op(program, hints, power_of_two);
    // the range check starts at the next step
    hints.insert(program.len(), OpHint::RcStart(n));
    emit_run(program, UserOps::BinAcc, n as usize);
    // compare the aggregated value with the input and keep the lowest bit
    let ops = [UserOps::Swap2, UserOps::AssertEq, UserOps::Drop];
    assert(ops@ =~= seq![UserOps::Swap2, UserOps::AssertEq, UserOps::Drop]);
    emit(program, &ops);
    Ok(true)
}

// CRYPTO OPERATIONS
// ================================================================================================

/// Appends operations that hash the top n values of the stack: a preamble, NOOPs up to a
/// multiple of 16, ten RESCR rounds and DROP4.
pub fn parse_hash(program: &mut Vec<UserOps>, op: &[&str], step: usize) -> (r: Result<bool, AssemblyError>)
    requires
        op@.len() >= 1,
        old(program).len() < MAX_PROGRAM_LENGTH,
    ensures
        match with_param(views(op@), |n: u32| hash_table(n)) {
            Err(k) => r matches Err(e) && is_error(e, op@, step, k) && final(program)@ == old(program)@,
            Ok(pre) => r matches Ok(b) && b && final(program)@ == old(program)@ + pre + run(
                UserOps::Noop,
                pad_len(old(program)@.len() + pre.len(), 16),
            ) + run(UserOps::RescR, 10) + seq![UserOps::Drop4],
        },
{
    let n = match read_param(op, step) {
        Ok(n) => n,
        Err(e) => {
            return Err(e);
        },
    };
    if n == 1 {
        let ops = [UserOps::Pad2, UserOps::Pad2, UserOps::Pad2, UserOps::Drop];
        assert(ops@ =~= seq![UserOps::Pad2, UserOps::Pad2, UserOps::Pad2, UserOps::Drop]);
        emit(program, &ops);
    } else if n == 2 {
        let ops = [UserOps::Pad2, UserOps::Pad2];
        assert(ops@ =~= seq![UserOps::Pad2, UserOps::Pad2]);
        emit(program, &ops);
    } else if n == 3 {
        let ops = [UserOps::Pad2, UserOps::Pad2, UserOps::Drop];
        assert(ops@ =~= seq![UserOps::Pad2, UserOps::Pad2, UserOps::Drop]);
        emit(program, &ops);
    } else if n == 4 {
        let ops = [UserOps::Pad2];
        assert(ops@ =~= seq![UserOps::Pad2]);
        emit(program, &ops);
    } else {
        return Err(AssemblyError::invalid_param_reason(op, step, ParamReason::NotAllowed));
    }
    // pad with NOOPs so that hashing starts on a step which is a multiple of 16
    pad_to(program, HASH_OP_ALIGNMENT);
    // ten rounds of Rescue, then truncate the state
    emit_run(program, UserOps::RescR, 10);
    let ops = [UserOps::Drop4];
    assert(ops@ =~= seq![UserOps::Drop4]);
    emit(program, &ops);
    Ok(true)
}

/// Appends `count` operations of `ops` to the program.
fn emit_prefix(program: &mut Vec<UserOps>, ops: &[UserOps], count: usize)
    requires
        count <= ops@.len(),
    ensures
        final(program)@ == old(program)@ + ops@.subrange(0, count as int),
{
    let mut i: usize = 0;
    while i < count
        invariant
            i <= count <= ops@.len(),
            program@ == old(program)@ + ops@.subrange(0, i as int),
        decreases count - i,
    {
        program.push(ops[i]);
        i += 1;
        assert(program@ =~= old(program)@ + ops@.subrange(0, i as int));
    }
}

/// Appends operations that compute the root of a Merkle authentication path for a tree
/// of depth n (2 to 256).
pub fn parse_mpath(program: &mut Vec<UserOps>, op: &[&str], step: usize) -> (r: Result<bool, AssemblyError>)
    requires
        op@.len() >= 1,
        old(program).len() < MAX_PROGRAM_LENGTH,
    ensures
        match param_spec(views(op@)) {
            Err(k) => r matches Err(e) && is_error(e, op@, step, k) && final(program)@ == old(program)@,
            Ok(n) => if n < 2 || n > 256 {
                r matches Err(e) && is_error(
                    e,
                    op@,
                    step,
                    AssemblyErrorKind::InvalidParamReason(ParamReason::OutOfRange(2, 256)),
                ) && final(program)@ == old(program)@
            } else {
                r matches Ok(b) && b && final(program)@ == old(program)@ + seq![
                    UserOps::Read2,
                    UserOps::Dup4,
                    UserOps::Pad2,
                ] + run(UserOps::Noop, pad_len(old(program)@.len() + 3, 16)) + repeat(
                    mpath_cycle(),
                    (n - 2) as nat,
                ) + mpath_cycle().subrange(0, 28)
            },
        },
{
    let n = match read_param(op, step) {
        Ok(n) => n,
        Err(e) => {
            return Err(e);
        },
    };
    if n < 2 || n > 256 {
        return Err(AssemblyError::invalid_param_reason(op, step, ParamReason::OutOfRange(2, 256)));
    }
    // read the first node of the path and prepare the stack for hashing
    let ops = [UserOps::Read2, UserOps::Dup4, UserOps::Pad2];
    assert(ops@ =~= seq![UserOps::Read2, UserOps::Dup4, UserOps::Pad2]);
    emit(program, &ops);
    // pad with NOOPs so that hashing starts on a step which is a multiple of 16
    pad_to(program, HASH_OP_ALIGNMENT);
    let sub_cycle = [
        UserOps::RescR, UserOps::RescR, UserOps::RescR, UserOps::RescR,
        UserOps::RescR, UserOps::RescR, UserOps::RescR, UserOps::RescR,
        UserOps::RescR, UserOps::RescR, UserOps::Drop4, UserOps::Read2,
        UserOps::Swap2, UserOps::Swap4, UserOps::Swap2, UserOps::Pad2,
        UserOps::RescR, UserOps::RescR, UserOps::RescR, UserOps::RescR,
        UserOps::RescR, UserOps::RescR, UserOps::RescR, UserOps::RescR,
        UserOps::RescR, UserOps::RescR, UserOps::Drop4, UserOps::Choose2,
        UserOps::Read2, UserOps::Dup4, UserOps::Pad2, UserOps::Noop,
    ];
    assert(sub_cycle@ =~= mpath_cycle());
    let ghost base = program@;
    // one cycle for each remaining node
    let mut i: u32 = 0;
    while i < n - 2
        invariant
            2 <= n <= 256,
            i <= n - 2,
            sub_cycle@ == mpath_cycle(),
            program@ == base + repeat(mpath_cycle(), i as nat),
        decreases n - 2 - i,
    {
        emit(program, &sub_cycle);
        i += 1;
    }
    // the last cycle reads no further node
    emit_prefix(program, &sub_cycle, 28);
    Ok(true)
}

// HELPER FUNCTIONS
// ================================================================================================

/// Reads the numeric parameter of a token: 1 when absent.
fn read_param(op: &[&str], step: usize) -> (r: Result<u32, AssemblyError>)
    requires
        op@.len() >= 1,
    ensures
        match param_spec(views(op@)) {
            Ok(n) => r == Ok::<u32, AssemblyError>(n),
            Err(k) => r matches Err(e) && is_error(e, op@, step, k),
        },
{
    if op.len() == 1 {
        // without a parameter, the value is 1
        return Ok(1);
    } else if op.len() > 2 {
        return Err(AssemblyError::extra_param(op, step));
    }
    let result = match parse_uint(op[1], 10, u32::MAX as u128) {
        Some(v) => v as u32,
        None => {
            return Err(AssemblyError::invalid_param(op, step));
        },
    };
    // parameter value 0 is never valid
    if result == 0 {
        return Err(AssemblyError::invalid_param_reason(op, step, ParamReason::Zero));
    }
    Ok(result)
}

/// Reads the field element of a token, in decimal or after `0x` in hexadecimal.
fn read_value(op: &[&str], step: usize) -> (r: Result<u128, AssemblyError>)
    requires
        op@.len() >= 1,
    ensures
        match value_spec(views(op@)) {
            Ok(v) => r == Ok::<u128, AssemblyError>(v),
            Err(k) => r matches Err(e) && is_error(e, op@, step, k),
        },
{
    // exactly one parameter must be given
    if op.len() == 1 {
        return Err(AssemblyError::missing_param(op, step));
    } else if op.len() > 2 {
        return Err(AssemblyError::extra_param(op, step));
    }
    proof {
        reveal_strlit("0x");
    }
    let t = op[1];
    let hex = str_starts_with(t, "0x");
    proof {
        assert("0x"@ =~= seq!['0', 'x']);
        if t@.len() >= 2 {
            assert(t@.subrange(0, 2)[0] == t@[0]);
            assert(t@.subrange(0, 2)[1] == t@[1]);
            if t@[0] == '0' && t@[1] == 'x' {
                assert(t@.subrange(0, 2) =~= "0x"@);
            }
        }
        assert(hex == is_hex(t@));
    }
    let parsed = if hex {
        let digits = t.substring_char(2, t.unicode_len());
        parse_uint(digits, 16, u128::MAX)
    } else {
        parse_uint(t, 10, u128::MAX)
    };
    let result = match parsed {
        Some(v) => v,
        None => {
            return Err(AssemblyError::invalid_param(op, step));
        },
    };
    // the value must be a field element
    if result >= MODULUS {
        return Err(AssemblyError::invalid_param_reason(op, step, ParamReason::NotFieldElement));
    }
    Ok(result)
}

} // verus!
