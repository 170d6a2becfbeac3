//! The stack of the virtual machine: executes user operations and records the value of
//! every stack register at every step.
use crate::accumulator::{self, hacc_round};
use crate::field::{self, fadd, fexp, fmul, fsub, half_spec, is_elem, MODULUS};
use crate::opcodes::{OpHint, UserOps};
use crate::processor::registers::{cols_elems, cols_len, grow_columns, zeros};
use vstd::prelude::*;

verus! {

/// The stack always has at least this many registers.
pub const MIN_STACK_DEPTH: usize = 8;

/// The largest step the stack can reach.
pub const MAX_STACK_STEP: usize = 0x3fff_ffff;

/// The largest number of stack registers.
pub const MAX_STACK_DEPTH: usize = 0x0fff_ffff;

/// An operation that cannot be applied: too few values on the stack, an empty input
/// tape, a failed assertion, a non-binary value where a bit is needed, or a wrong
/// auxiliary value. It carries the step at which the operation was applied.
#[derive(Clone, Copy, Debug, PartialEq, Eq, Structural)]
pub struct ExecutionError(pub usize);

/// The stack: one trace column per register, the current values (top first), the two
/// input tapes with the position of their next value, and the current and largest depth.
pub struct Stack {
    registers: Vec<Vec<u128>>,
    values: Vec<u128>,
    tape_a: Vec<u128>,
    pos_a: usize,
    tape_b: Vec<u128>,
    pos_b: usize,
    pub depth: usize,
    pub max_depth: usize,
    step: usize,
}

pub open spec fn fe(x: int) -> u128 {
    x as u128
}

pub open spec fn is_bit(x: u128) -> bool {
    x == 0 || x == 1
}

/// The effect of one operation on the stack (top first) and on the two input tapes: the
/// new stack and the number of values read from each tape, or `None` when the operation
/// cannot be applied.
#[verifier::opaque]
pub open spec fn apply_op(op: UserOps, hint: OpHint, s: Seq<u128>, a: Seq<u128>, b: Seq<u128>, step: int) -> Option<(Seq<u128>, nat, nat)> {
    let n = s.len();
    match op {
        UserOps::Noop => Some((s, 0, 0)),
        UserOps::Assert => if n >= 1 && s[0] == 1 { Some((s.drop_first(), 0, 0)) } else { None },
        UserOps::AssertEq => if n >= 2 && s[0] == s[1] { Some((s.subrange(2, n as int), 0, 0)) } else { None },
        UserOps::Push => Some((seq![match hint { OpHint::PushValue(v) => v, _ => 0u128 }] + s, 0, 0)),
        UserOps::Read => if hint == OpHint::EqStart {
            if n >= 2 { Some((seq![fe(fexp(fsub(s[0] as int, s[1] as int), (MODULUS - 2) as nat))] + s, 0, 0)) } else { None }
        } else if a.len() >= 1 {
            Some((seq![a[0]] + s, 1, 0))
        } else {
            None
        },
        UserOps::Read2 => if a.len() >= 1 && b.len() >= 1 { Some((seq![a[0], b[0]] + s, 1, 1)) } else { None },
        UserOps::Dup => if n >= 1 { Some((seq![s[0]] + s, 0, 0)) } else { None },
        UserOps::Dup2 => if n >= 2 { Some((s.subrange(0, 2) + s, 0, 0)) } else { None },
        UserOps::Dup4 => if n >= 4 { Some((s.subrange(0, 4) + s, 0, 0)) } else { None },
        UserOps::Pad2 => Some((seq![0u128, 0u128] + s, 0, 0)),
        UserOps::Drop => if n >= 1 { Some((s.drop_first(), 0, 0)) } else { None },
        UserOps::Drop4 => if n >= 4 { Some((s.subrange(4, n as int), 0, 0)) } else { None },
        UserOps::Swap => if n >= 2 { Some((seq![s[1], s[0]] + s.subrange(2, n as int), 0, 0)) } else { None },
        UserOps::Swap2 => if n >= 4 { Some((seq![s[2], s[3], s[0], s[1]] + s.subrange(4, n as int), 0, 0)) } else { None },
        UserOps::Swap4 => if n >= 8 {
            Some((s.subrange(4, 8) + s.subrange(0, 4) + s.subrange(8, n as int), 0, 0))
        } else {
            None
        },
        UserOps::Roll4 => if n >= 4 { Some((seq![s[3], s[0], s[1], s[2]] + s.subrange(4, n as int), 0, 0)) } else { None },
        UserOps::Roll8 => if n >= 8 { Some((seq![s[7]] + s.subrange(0, 7) + s.subrange(8, n as int), 0, 0)) } else { None },
        UserOps::Choose => if n >= 3 && is_bit(s[2]) {
            Some((seq![if s[2] == 1 { s[0] } else { s[1] }] + s.subrange(3, n as int), 0, 0))
        } else {
            None
        },
        UserOps::Choose2 => if n >= 6 && is_bit(s[4]) {
            Some((if s[4] == 1 { seq![s[0], s[1]] } else { seq![s[2], s[3]] } + s.subrange(6, n as int), 0, 0))
        } else {
            None
        },
        UserOps::Add => if n >= 2 { Some((seq![fe(fadd(s[0] as int, s[1] as int))] + s.subrange(2, n as int), 0, 0)) } else { None },
        UserOps::Mul => if n >= 2 { Some((seq![fe(fmul(s[0] as int, s[1] as int))] + s.subrange(2, n as int), 0, 0)) } else { None },
        UserOps::Inv => if n >= 1 {
            Some((seq![fe(fexp(s[0] as int, (MODULUS - 2) as nat))] + s.drop_first(), 0, 0))
        } else {
            None
        },
        UserOps::Neg => if n >= 1 { Some((seq![fe(fsub(0, s[0] as int))] + s.drop_first(), 0, 0)) } else { None },
        UserOps::Not => if n >= 1 && is_bit(s[0]) { Some((seq![(1 - s[0]) as u128] + s.drop_first(), 0, 0)) } else { None },
        UserOps::And => if n >= 2 && is_bit(s[0]) && is_bit(s[1]) {
            Some((seq![if s[0] == 1 && s[1] == 1 { 1u128 } else { 0u128 }] + s.subrange(2, n as int), 0, 0))
        } else {
            None
        },
        UserOps::Or => if n >= 2 && is_bit(s[0]) && is_bit(s[1]) {
            Some((seq![if s[0] == 1 || s[1] == 1 { 1u128 } else { 0u128 }] + s.subrange(2, n as int), 0, 0))
        } else {
            None
        },
        UserOps::Eq => if n >= 3 {
            if s[1] == s[2] {
                Some((seq![1u128] + s.subrange(3, n as int), 0, 0))
            } else if fmul(s[0] as int, fsub(s[1] as int, s[2] as int)) == 1 {
                Some((seq![0u128] + s.subrange(3, n as int), 0, 0))
            } else {
                None
            }
        } else {
            None
        },
        UserOps::Cmp => if n >= 8 && a.len() >= 1 && b.len() >= 1 && is_bit(a[0]) && is_bit(b[0]) {
            let p = s[0];
            let (gt, lt, b_acc, a_acc) = (s[4], s[5], s[6], s[7]);
            let not_set = fmul(fsub(1, gt as int), fsub(1, lt as int));
            let bit_gt = fmul(a[0] as int, fsub(1, b[0] as int));
            let bit_lt = fmul(b[0] as int, fsub(1, a[0] as int));
            Some((seq![
                fe(half_spec(p as int)),
                a[0],
                b[0],
                fe(not_set),
                fe(fadd(gt as int, fmul(bit_gt, not_set))),
                fe(fadd(lt as int, fmul(bit_lt, not_set))),
                fe(fadd(b_acc as int, fmul(b[0] as int, p as int))),
                fe(fadd(a_acc as int, fmul(a[0] as int, p as int))),
            ] + s.subrange(8, n as int), 1, 1))
        } else {
            None
        },
        UserOps::BinAcc => if n >= 3 && a.len() >= 1 && is_bit(a[0]) {
            Some((seq![
                fe(half_spec(s[0] as int)),
                a[0],
                fe(fadd(s[2] as int, fmul(a[0] as int, s[0] as int))),
            ] + s.subrange(3, n as int), 1, 0))
        } else {
            None
        },
        UserOps::RescR => if n >= 4 {
            Some((hacc_round(s.subrange(0, 4), 0, 0, step % 16) + s.subrange(4, n as int), 0, 0))
        } else {
            None
        },
    }
}


/// `top` followed by the values of `s` from position `from` on.
fn top_then(top: &[u128], s: &Vec<u128>, from: usize) -> (r: Vec<u128>)
    requires
        from <= s@.len(),
    ensures
        r@ == top@ + s@.subrange(from as int, s@.len() as int),
{
    let mut r: Vec<u128> = Vec::new();
    let mut i: usize = 0;
    while i < top.len()
        invariant
            i <= top@.len(),
            r@ == top@.subrange(0, i as int),
        decreases top.len() - i,
    {
        r.push(top[i]);
        i += 1;
        assert(r@ =~= top@.subrange(0, i as int));
    }
    let mut j: usize = from;
    while j < s.len()
        invariant
            from <= j <= s@.len(),
            r@ == top@ + s@.subrange(from as int, j as int),
        decreases s.len() - j,
    {
        r.push(s[j]);
        j += 1;
        assert(r@ =~= top@ + s@.subrange(from as int, j as int));
    }
    assert(top@.subrange(0, top@.len() as int) =~= top@);
    r
}

/// Adds registers until there are at least as many as values, then writes `values`
/// (and zeros below them) into row `row`.
fn write_row(registers: &mut Vec<Vec<u128>>, row: usize, values: &Vec<u128>)
    requires
        old(registers).len() >= 1,
        row < old(registers)@[0]@.len(),
        cols_len(old(registers)@, old(registers)@[0]@.len() as int),
        cols_elems(old(registers)@),
        forall|k: int| 0 <= k < values@.len() ==> is_elem(#[trigger] values@[k]),
    ensures
        final(registers).len() == if values.len() > old(registers).len() {
            values.len()
        } else {
            old(registers).len()
        },
        cols_len(final(registers)@, old(registers)@[0]@.len() as int),
        cols_elems(final(registers)@),
        forall|k: int|
            0 <= k < final(registers).len() ==> #[trigger] final(registers)@[k]@[row as int] == if k
                < values.len() {
                values@[k]
            } else {
                0
            },
        forall|k: int, j: int|
            0 <= k < old(registers).len() && 0 <= j < old(registers)@[k]@.len() && j != row
                ==> #[trigger] final(registers)@[k]@[j] == old(registers)@[k]@[j],
{
    let len = registers[0].len();
    let depth = values.len();
    // add a register for each new level of depth
    while registers.len() < depth
        invariant
            row < len,
            cols_len(registers@, len as int),
            cols_elems(registers@),
            registers.len() >= old(registers).len(),
            registers.len() <= depth || registers.len() == old(registers).len(),
            forall|k: int, j: int|
                0 <= k < old(registers).len() && 0 <= j < len ==> #[trigger] registers@[k]@[j]
                    == old(registers)@[k]@[j],
        decreases depth - registers.len(),
    {
        registers.push(zeros(len));
    }
    let mut i: usize = 0;
    while i < registers.len()
        invariant
            i <= registers.len(),
            row < len,
            depth == values@.len(),
            registers.len() >= old(registers).len(),
            registers.len() == if depth > old(registers).len() { depth } else { old(registers).len() },
            forall|k: int| 0 <= k < values@.len() ==> is_elem(#[trigger] values@[k]),
            cols_len(registers@, len as int),
            cols_elems(registers@),
            forall|k: int|
                0 <= k < i ==> #[trigger] registers@[k]@[row as int] == if k < depth {
                    values@[k]
                } else {
                    0
                },
            forall|k: int, j: int|
                0 <= k < old(registers).len() && 0 <= j < len && j != row ==> #[trigger] registers@[k]@[j]
                    == old(registers)@[k]@[j],
        decreases registers.len() - i,
    {
        let v = if i < depth {
            values[i]
        } else {
            0
        };
        registers[i][row] = v;
        i += 1;
    }
}

impl Stack {
    /// The values on the stack, top first.
    pub closed spec fn view(&self) -> Seq<u128> {
        self.values@
    }

    /// The values of the first tape that are still to be read.
    pub closed spec fn rest_a(&self) -> Seq<u128> {
        self.tape_a@.subrange(self.pos_a as int, self.tape_a@.len() as int)
    }

    /// The values of the second tape that are still to be read.
    pub closed spec fn rest_b(&self) -> Seq<u128> {
        self.tape_b@.subrange(self.pos_b as int, self.tape_b@.len() as int)
    }

    pub closed spec fn spec_step(&self) -> nat {
        self.step as nat
    }

    pub closed spec fn spec_depth(&self) -> nat {
        self.depth as nat
    }

    pub closed spec fn spec_max_depth(&self) -> nat {
        self.max_depth as nat
    }

    pub closed spec fn spec_trace_length(&self) -> nat {
        self.registers@[0]@.len()
    }

    /// Number of stack registers: the largest depth reached, and at least 8.
    pub closed spec fn num_registers(&self) -> nat {
        self.registers@.len()
    }

    /// The value of register `i` at `row`.
    pub closed spec fn cell(&self, i: int, row: int) -> u128 {
        self.registers@[i]@[row]
    }

    pub closed spec fn wf(&self) -> bool {
        let n = self.registers@[0]@.len() as int;
        &&& self.registers.len() >= MIN_STACK_DEPTH
        &&& self.registers.len() == if self.max_depth > MIN_STACK_DEPTH { self.max_depth } else { MIN_STACK_DEPTH }
        &&& cols_len(self.registers@, n)
        &&& cols_elems(self.registers@)
        &&& self.step < n
        &&& self.step <= MAX_STACK_STEP
        &&& self.depth == self.values.len()
        &&& self.depth <= self.max_depth <= MAX_STACK_DEPTH
        &&& forall|i: int| 0 <= i < self.values.len() ==> is_elem(#[trigger] self.values@[i])
        &&& self.pos_a <= self.tape_a.len()
        &&& self.pos_b <= self.tape_b.len()
        &&& forall|i: int| 0 <= i < self.tape_a.len() ==> is_elem(#[trigger] self.tape_a@[i])
        &&& forall|i: int| 0 <= i < self.tape_b.len() ==> is_elem(#[trigger] self.tape_b@[i])
        &&& forall|i: int|
            0 <= i < self.registers.len() ==> #[trigger] self.registers@[i]@[self.step as int] == if i
                < self.depth {
                self.values@[i]
            } else {
                0
            }
    }

    /// Creates a stack holding `inputs` (top first) whose operations read the tapes
    /// `tape_a` and `tape_b` from the front.
    pub fn new(inputs: &[u128], tape_a: &[u128], tape_b: &[u128], trace_length: usize) -> (r: Stack)
        requires
            trace_length >= 1,
            inputs@.len() <= MAX_STACK_DEPTH,
            forall|i: int| 0 <= i < inputs@.len() ==> is_elem(#[trigger] inputs@[i]),
            forall|i: int| 0 <= i < tape_a@.len() ==> is_elem(#[trigger] tape_a@[i]),
            forall|i: int| 0 <= i < tape_b@.len() ==> is_elem(#[trigger] tape_b@[i]),
        ensures
            r.wf(),
            r.view() == inputs@,
            r.rest_a() == tape_a@,
            r.rest_b() == tape_b@,
            r.spec_step() == 0,
            r.spec_depth() == inputs@.len(),
            r.spec_max_depth() == inputs@.len(),
            r.spec_trace_length() == trace_length,
    {
        let values = top_then(inputs, &Vec::new(), 0);
        let depth = values.len();
        let n_regs = if depth > MIN_STACK_DEPTH { depth } else { MIN_STACK_DEPTH };
        let mut registers: Vec<Vec<u128>> = Vec::new();
        let mut i: usize = 0;
        while i < n_regs
            invariant
                i <= n_regs,
                registers.len() == i,
                trace_length >= 1,
                values@ == inputs@,
                depth == values@.len(),
                forall|k: int| 0 <= k < values.len() ==> is_elem(#[trigger] values@[k]),
                cols_len(registers@, trace_length as int),
                cols_elems(registers@),
                forall|k: int|
                    0 <= k < i ==> #[trigger] registers@[k]@[0] == if k < depth {
                        values@[k]
                    } else {
                        0
                    },
            decreases n_regs - i,
        {
            let mut col = zeros(trace_length);
            if i < depth {
                col[0] = values[i];
            }
            registers.push(col);
            i += 1;
        }
        let ta = top_then(tape_a, &Vec::new(), 0);
        let tb = top_then(tape_b, &Vec::new(), 0);
        let r = Stack {
            registers,
            values,
            tape_a: ta,
            pos_a: 0,
            tape_b: tb,
            pos_b: 0,
            depth,
            max_depth: depth,
            step: 0,
        };
        assert(r.rest_a() =~= tape_a@);
        assert(r.rest_b() =~= tape_b@);
        r
    }

    /// Returns the current step.
    pub fn current_step(&self) -> (r: usize)
        ensures
            r == self.spec_step(),
    {
        self.step
    }

    /// Returns the value of every stack register at `step`.
    pub fn get_state(&self, step: usize) -> (r: Vec<u128>)
        requires
            self.wf(),
            step < self.spec_trace_length(),
        ensures
            r@ == Seq::new(self.num_registers(), |i: int| self.cell(i, step as int)),
    {
        let mut state: Vec<u128> = Vec::new();
        let mut i: usize = 0;
        while i < self.registers.len()
            invariant
                self.wf(),
                step < self.spec_trace_length(),
                i <= self.registers@.len(),
                state@ == Seq::new(i as nat, |k: int| self.cell(k, step as int)),
            decreases self.registers.len() - i,
        {
            state.push(self.registers[i][step]);
            i += 1;
            assert(state@ =~= Seq::new(i as nat, |k: int| self.cell(k, step as int)));
        }
        state
    }

    /// Applies `op` with `hint`: on success the step advances by one and the new stack is
    /// written into the registers at the new step; otherwise nothing changes.
    pub fn execute(&mut self, op: UserOps, hint: OpHint) -> (r: Result<(), ExecutionError>)
        requires
            old(self).wf(),
            old(self).spec_step() < MAX_STACK_STEP,
            old(self).view().len() + 4 <= MAX_STACK_DEPTH,
            hint matches OpHint::PushValue(v) ==> is_elem(v),
        ensures
            match apply_op(op, hint, old(self).view(), old(self).rest_a(), old(self).rest_b(), old(self).spec_step() as int) {
                None => r == Err::<(), ExecutionError>(ExecutionError(old(self).spec_step() as usize))
                    && *final(self) == *old(self),
                Some((ns, ka, kb)) => {
                    &&& r is Ok
                    &&& final(self).wf()
                    &&& final(self).view() == ns
                    &&& final(self).rest_a() == old(self).rest_a().subrange(ka as int, old(self).rest_a().len() as int)
                    &&& final(self).rest_b() == old(self).rest_b().subrange(kb as int, old(self).rest_b().len() as int)
                    &&& final(self).spec_step() == old(self).spec_step() + 1
                    &&& final(self).spec_depth() == ns.len()
                    &&& final(self).spec_max_depth() == if ns.len() > old(self).spec_max_depth() {
                        ns.len()
                    } else {
                        old(self).spec_max_depth()
                    }
                    &&& forall|i: int, row: int|
                        0 <= i < old(self).num_registers() && 0 <= row <= old(self).spec_step()
                            ==> #[trigger] final(self).cell(i, row) == old(self).cell(i, row)
                },
            },
    {
        let t = self.transition(op, hint);
        let (values, ka, kb) = match t {
            None => {
                return Err(ExecutionError(self.step));
            },
            Some(x) => x,
        };
        // advance the step, doubling the traces when they are full
        self.step = self.step + 1;
        if self.step >= self.registers[0].len() {
            let n = self.registers[0].len() * 2;
            self.registers = grow_columns(&self.registers, n);
        }
        let depth = values.len();
        write_row(&mut self.registers, self.step, &values);
        self.values = values;
        assert(self.pos_a + ka <= self.tape_a.len());
        self.pos_a = self.pos_a + ka;
        self.pos_b = self.pos_b + kb;
        self.depth = depth;
        if depth > self.max_depth {
            self.max_depth = depth;
        }
        proof {
            assert(self.rest_a() =~= old(self).rest_a().subrange(ka as int, old(self).rest_a().len() as int));
            assert(self.rest_b() =~= old(self).rest_b().subrange(kb as int, old(self).rest_b().len() as int));
        }
        Ok(())
    }

    /// The stack and the numbers of tape values read after applying `op` with `hint`.
    fn transition(&self, op: UserOps, hint: OpHint) -> (r: Option<(Vec<u128>, usize, usize)>)
        requires
            self.wf(),
            hint matches OpHint::PushValue(v) ==> is_elem(v),
        ensures
            match apply_op(op, hint, self.view(), self.rest_a(), self.rest_b(), self.step as int) {
                None => r is None,
                Some((ns, ka, kb)) => r matches Some((v, ra, rb)) && v@ == ns && ra == ka && rb == kb,
            },
            r matches Some((v, ra, rb)) ==> forall|i: int| 0 <= i < v@.len() ==> is_elem(#[trigger] v@[i]),
            r matches Some((v, ra, rb)) ==> ra <= self.rest_a().len() && rb <= self.rest_b().len(),
            r matches Some((v, ra, rb)) ==> v@.len() <= self.view().len() + 4,
    {
        match op {
            UserOps::Noop | UserOps::Assert | UserOps::AssertEq | UserOps::Dup | UserOps::Dup2
            | UserOps::Dup4 | UserOps::Pad2 | UserOps::Drop | UserOps::Drop4 | UserOps::Swap
            | UserOps::Swap2 | UserOps::Swap4 | UserOps::Roll4 | UserOps::Roll8 => self.transition_shuffle(op, hint),
            UserOps::Choose | UserOps::Choose2 | UserOps::Add | UserOps::Mul | UserOps::Inv
            | UserOps::Neg | UserOps::Not | UserOps::And | UserOps::Or | UserOps::Eq => self.transition_arith(op, hint),
            _ => self.transition_input(op, hint),
        }
    }

    /// The stack and the numbers of tape values read after applying `op` with `hint`.
    #[verifier::rlimit(60)]
    fn transition_shuffle(&self, op: UserOps, hint: OpHint) -> (r: Option<(Vec<u128>, usize, usize)>)
        requires
            self.wf(),
            op == UserOps::Noop || op == UserOps::Assert || op == UserOps::AssertEq || op == UserOps::Dup || op == UserOps::Dup2 || op == UserOps::Dup4 || op == UserOps::Pad2 || op == UserOps::Drop || op == UserOps::Drop4 || op == UserOps::Swap || op == UserOps::Swap2 || op == UserOps::Swap4 || op == UserOps::Roll4 || op == UserOps::Roll8,
            hint matches OpHint::PushValue(v) ==> is_elem(v),
        ensures
            match apply_op(op, hint, self.view(), self.rest_a(), self.rest_b(), self.step as int) {
                None => r is None,
                Some((ns, ka, kb)) => r matches Some((v, ra, rb)) && v@ == ns && ra == ka && rb == kb,
            },
            r matches Some((v, ra, rb)) ==> forall|i: int| 0 <= i < v@.len() ==> is_elem(#[trigger] v@[i]),
            r matches Some((v, ra, rb)) ==> ra <= self.rest_a().len() && rb <= self.rest_b().len(),
            r matches Some((v, ra, rb)) ==> v@.len() <= self.view().len() + 4,
    {
        reveal(apply_op);
        let s = &self.values;
        let n = s.len();
        let has_a = self.pos_a < self.tape_a.len();
        let has_b = self.pos_b < self.tape_b.len();
        proof {
            if has_a {
                assert(self.rest_a()[0] == self.tape_a@[self.pos_a as int]);
            }
            if has_b {
                assert(self.rest_b()[0] == self.tape_b@[self.pos_b as int]);
            }
        }
        let res: Option<(Vec<u128>, usize, usize)> = match op {
            UserOps::Noop => Some((top_then(&[], s, 0), 0, 0)),
            UserOps::Assert => if n >= 1 && s[0] == 1 { Some((top_then(&[], s, 1), 0, 0)) } else { None },
            UserOps::AssertEq => if n >= 2 && s[0] == s[1] { Some((top_then(&[], s, 2), 0, 0)) } else { None },
            UserOps::Dup => if n >= 1 { Some((top_then(&[s[0]], s, 0), 0, 0)) } else { None },
            UserOps::Dup2 => if n >= 2 { Some((top_then(&[s[0], s[1]], s, 0), 0, 0)) } else { None },
            UserOps::Dup4 => if n >= 4 { Some((top_then(&[s[0], s[1], s[2], s[3]], s, 0), 0, 0)) } else { None },
            UserOps::Pad2 => Some((top_then(&[0, 0], s, 0), 0, 0)),
            UserOps::Drop => if n >= 1 { Some((top_then(&[], s, 1), 0, 0)) } else { None },
            UserOps::Drop4 => if n >= 4 { Some((top_then(&[], s, 4), 0, 0)) } else { None },
            UserOps::Swap => if n >= 2 { Some((top_then(&[s[1], s[0]], s, 2), 0, 0)) } else { None },
            UserOps::Swap2 => if n >= 4 { Some((top_then(&[s[2], s[3], s[0], s[1]], s, 4), 0, 0)) } else { None },
            UserOps::Swap4 => if n >= 8 {
                Some((top_then(&[s[4], s[5], s[6], s[7], s[0], s[1], s[2], s[3]], s, 8), 0, 0))
            } else {
                None
            },
            UserOps::Roll4 => if n >= 4 { Some((top_then(&[s[3], s[0], s[1], s[2]], s, 4), 0, 0)) } else { None },
            UserOps::Roll8 => if n >= 8 {
                Some((top_then(&[s[7], s[0], s[1], s[2], s[3], s[4], s[5], s[6]], s, 8), 0, 0))
            } else {
                None
            },
            _ => None,
        };
        res
    }

    /// The stack and the numbers of tape values read after applying `op` with `hint`.
    #[verifier::rlimit(60)]
    fn transition_arith(&self, op: UserOps, hint: OpHint) -> (r: Option<(Vec<u128>, usize, usize)>)
        requires
            self.wf(),
            op == UserOps::Choose || op == UserOps::Choose2 || op == UserOps::Add || op == UserOps::Mul || op == UserOps::Inv || op == UserOps::Neg || op == UserOps::Not || op == UserOps::And || op == UserOps::Or || op == UserOps::Eq,
            hint matches OpHint::PushValue(v) ==> is_elem(v),
        ensures
            match apply_op(op, hint, self.view(), self.rest_a(), self.rest_b(), self.step as int) {
                None => r is None,
                Some((ns, ka, kb)) => r matches Some((v, ra, rb)) && v@ == ns && ra == ka && rb == kb,
            },
            r matches Some((v, ra, rb)) ==> forall|i: int| 0 <= i < v@.len() ==> is_elem(#[trigger] v@[i]),
            r matches Some((v, ra, rb)) ==> ra <= self.rest_a().len() && rb <= self.rest_b().len(),
            r matches Some((v, ra, rb)) ==> v@.len() <= self.view().len() + 4,
    {
        reveal(apply_op);
        let s = &self.values;
        let n = s.len();
        let has_a = self.pos_a < self.tape_a.len();
        let has_b = self.pos_b < self.tape_b.len();
        proof {
            if has_a {
                assert(self.rest_a()[0] == self.tape_a@[self.pos_a as int]);
            }
            if has_b {
                assert(self.rest_b()[0] == self.tape_b@[self.pos_b as int]);
            }
        }
        let res: Option<(Vec<u128>, usize, usize)> = match op {
            UserOps::Choose => if n >= 3 && (s[2] == 0 || s[2] == 1) {
                let v = if s[2] == 1 { s[0] } else { s[1] };
                Some((top_then(&[v], s, 3), 0, 0))
            } else {
                None
            },
            UserOps::Choose2 => if n >= 6 && (s[4] == 0 || s[4] == 1) {
                if s[4] == 1 {
                    Some((top_then(&[s[0], s[1]], s, 6), 0, 0))
                } else {
                    Some((top_then(&[s[2], s[3]], s, 6), 0, 0))
                }
            } else {
                None
            },
            UserOps::Add => if n >= 2 { Some((top_then(&[field::add(s[0], s[1])], s, 2), 0, 0)) } else { None },
            UserOps::Mul => if n >= 2 { Some((top_then(&[field::mul(s[0], s[1])], s, 2), 0, 0)) } else { None },
            UserOps::Inv => if n >= 1 { Some((top_then(&[field::inv(s[0])], s, 1), 0, 0)) } else { None },
            UserOps::Neg => if n >= 1 { Some((top_then(&[field::neg(s[0])], s, 1), 0, 0)) } else { None },
            UserOps::Not => if n >= 1 && (s[0] == 0 || s[0] == 1) { Some((top_then(&[1 - s[0]], s, 1), 0, 0)) } else { None },
            UserOps::And => if n >= 2 && (s[0] == 0 || s[0] == 1) && (s[1] == 0 || s[1] == 1) {
                let v: u128 = if s[0] == 1 && s[1] == 1 { 1 } else { 0 };
                Some((top_then(&[v], s, 2), 0, 0))
            } else {
                None
            },
            UserOps::Or => if n >= 2 && (s[0] == 0 || s[0] == 1) && (s[1] == 0 || s[1] == 1) {
                let v: u128 = if s[0] == 1 || s[1] == 1 { 1 } else { 0 };
                Some((top_then(&[v], s, 2), 0, 0))
            } else {
                None
            },
            UserOps::Eq => if n >= 3 {
                if s[1] == s[2] {
                    Some((top_then(&[1], s, 3), 0, 0))
                } else if field::mul(s[0], field::sub(s[1], s[2])) == 1 {
                    Some((top_then(&[0], s, 3), 0, 0))
                } else {
                    None
                }
            } else {
                None
            },
            _ => None,
        };
        res
    }

    /// The stack and the numbers of tape values read after applying `op` with `hint`.
    #[verifier::rlimit(60)]
    fn transition_input(&self, op: UserOps, hint: OpHint) -> (r: Option<(Vec<u128>, usize, usize)>)
        requires
            self.wf(),
            op == UserOps::Push || op == UserOps::Read || op == UserOps::Read2 || op == UserOps::Cmp || op == UserOps::BinAcc || op == UserOps::RescR,
            hint matches OpHint::PushValue(v) ==> is_elem(v),
        ensures
            match apply_op(op, hint, self.view(), self.rest_a(), self.rest_b(), self.step as int) {
                None => r is None,
                Some((ns, ka, kb)) => r matches Some((v, ra, rb)) && v@ == ns && ra == ka && rb == kb,
            },
            r matches Some((v, ra, rb)) ==> forall|i: int| 0 <= i < v@.len() ==> is_elem(#[trigger] v@[i]),
            r matches Some((v, ra, rb)) ==> ra <= self.rest_a().len() && rb <= self.rest_b().len(),
            r matches Some((v, ra, rb)) ==> v@.len() <= self.view().len() + 4,
    {
        reveal(apply_op);
        let s = &self.values;
        let n = s.len();
        let has_a = self.pos_a < self.tape_a.len();
        let has_b = self.pos_b < self.tape_b.len();
        proof {
            if has_a {
                assert(self.rest_a()[0] == self.tape_a@[self.pos_a as int]);
            }
            if has_b {
                assert(self.rest_b()[0] == self.tape_b@[self.pos_b as int]);
            }
        }
        let res: Option<(Vec<u128>, usize, usize)> = match op {
            UserOps::Push => {
                let v = match hint {
                    OpHint::PushValue(v) => v,
                    _ => 0,
                };
                Some((top_then(&[v], s, 0), 0, 0))
            },
            UserOps::Read => match hint {
                OpHint::EqStart => if n >= 2 {
                    let d = field::inv(field::sub(s[0], s[1]));
                    Some((top_then(&[d], s, 0), 0, 0))
                } else {
                    None
                },
                _ => if has_a { Some((top_then(&[self.tape_a[self.pos_a]], s, 0), 1, 0)) } else { None },
            },
            UserOps::Read2 => if has_a && has_b {
                Some((top_then(&[self.tape_a[self.pos_a], self.tape_b[self.pos_b]], s, 0), 1, 1))
            } else {
                None
            },
            UserOps::Cmp => if n >= 8 && has_a && has_b {
                let a_bit = self.tape_a[self.pos_a];
                let b_bit = self.tape_b[self.pos_b];
                if (a_bit == 0 || a_bit == 1) && (b_bit == 0 || b_bit == 1) {
                    let p = s[0];
                    let not_set = field::mul(field::sub(1, s[4]), field::sub(1, s[5]));
                    let bit_gt = field::mul(a_bit, field::sub(1, b_bit));
                    let bit_lt = field::mul(b_bit, field::sub(1, a_bit));
                    let gt = field::add(s[4], field::mul(bit_gt, not_set));
                    let lt = field::add(s[5], field::mul(bit_lt, not_set));
                    let b_acc = field::add(s[6], field::mul(b_bit, p));
                    let a_acc = field::add(s[7], field::mul(a_bit, p));
                    Some((top_then(&[field::half(p), a_bit, b_bit, not_set, gt, lt, b_acc, a_acc], s, 8), 1, 1))
                } else {
                    None
                }
            } else {
                None
            },
            UserOps::BinAcc => if n >= 3 && has_a {
                let bit = self.tape_a[self.pos_a];
                if bit == 0 || bit == 1 {
                    let acc = field::add(s[2], field::mul(bit, s[0]));
                    Some((top_then(&[field::half(s[0]), bit, acc], s, 3), 1, 0))
                } else {
                    None
                }
            } else {
                None
            },
            UserOps::RescR => if n >= 4 {
                let top4 = [s[0], s[1], s[2], s[3]];
                assert(top4@ =~= s@.subrange(0, 4));
                let h = accumulator::apply_hacc_round(top4, 0, 0, self.step % 16);
                Some((top_then(&h, s, 4), 0, 0))
            } else {
                None
            },
            _ => None,
        };
        res
    }

}

} // verus!
