//! The instruction decoder: a per-step state machine that keeps the running program hash
//! and the context and loop stacks, and writes one trace row per step.
use crate::accumulator::{self, hacc_round, is_state};
use crate::field::is_elem;
use crate::opcodes::{flow_tag, user_tag, FlowOps, UserOps};
use crate::processor::registers::{
    cols_bits, cols_elems, cols_kept, cols_len, cols_same_but_row, copy_forward,
    grow_columns, set_bit, shift_left, fill_rows, extend_rows, shift_right, stack_at, zeros,
};
use vstd::arithmetic::power2::{lemma_pow2_unfold, pow2};
use vstd::prelude::*;

verus! {

/// Steps in one hashing cycle: blocks begin and end at fixed positions of it.
pub const BASE_CYCLE_LENGTH: usize = 16;

/// A PUSH with a value happens only at steps that are multiples of this.
pub const PUSH_OP_ALIGNMENT: usize = 8;

/// Largest depth of the context stack.
pub const MAX_CONTEXT_DEPTH: usize = 16;

/// Largest depth of the loop stack.
pub const MAX_LOOP_DEPTH: usize = 8;

/// The largest step the decoder can reach: beyond it the doubled traces would not be
/// addressable.
pub const MAX_STEP: usize = 0x3fff_ffff;

/// Why the decoder refused an operation; each carries the offending step.
#[derive(Clone, Copy, Debug, PartialEq, Eq, Structural)]
pub enum DecoderError {
    /// The operation was applied at a step of the wrong alignment.
    AlignmentViolation(usize),
    /// The context stack (16 entries) or the loop stack (8 entries) is full.
    StackOverflow(usize),
    /// The context stack or the loop stack is empty.
    StackUnderflow(usize),
    /// The hash of the last loop iteration differs from the loop image.
    LoopImageMismatch(usize),
    /// A value was given with an operation other than `Push`.
    InvalidOpValue(usize),
    /// The trace would grow beyond `MAX_STEP` steps.
    TraceTooLong(usize),
}

/// The decoder: one trace column per register (4 accumulator, 3 + 5 + 2 op-bit registers,
/// and one per context-stack and loop-stack level reached), the sponge, and the logical
/// depth of both stacks.
pub struct Decoder {
    step: usize,
    op_acc: Vec<Vec<u128>>,
    sponge: [u128; 4],
    cf_op_bits: Vec<Vec<u128>>,
    ld_op_bits: Vec<Vec<u128>>,
    hd_op_bits: Vec<Vec<u128>>,
    ctx_stack: Vec<Vec<u128>>,
    ctx_depth: usize,
    loop_stack: Vec<Vec<u128>>,
    loop_depth: usize,
    init_length: Ghost<nat>,
    doublings: Ghost<nat>,
}

proof fn lemma_bits(f: u128, u: u128)
    requires
        f < 8,
        u < 128,
    ensures
        f % 2 + 2 * ((f / 2) % 2) + 4 * ((f / 4) % 2) == f,
        u % 2 + 2 * ((u / 2) % 2) + 4 * ((u / 4) % 2) + 8 * ((u / 8) % 2) + 16 * ((u / 16) % 2) + 32
            * ((u / 32) % 2) + 64 * ((u / 64) % 2) == u,
{
    assert(f % 2 + 2 * ((f / 2) % 2) + 4 * ((f / 4) % 2) == f) by (bit_vector)
        requires
            f < 8,
    ;
    assert(u % 2 + 2 * ((u / 2) % 2) + 4 * ((u / 4) % 2) + 8 * ((u / 8) % 2) + 16 * ((u / 16) % 2)
        + 32 * ((u / 32) % 2) + 64 * ((u / 64) % 2) == u) by (bit_vector)
        requires
            u < 128,
    ;
}

/// A well-formed decoder, in particular one after `finalize_trace`, has taken fewer
/// steps than its traces have rows, every register has the trace length, and every
/// op-bit cell is 0 or 1.
pub proof fn lemma_trace_well_formed(d: &Decoder)
    requires
        d.wf(),
    ensures
        d.spec_step() < d.spec_trace_length(),
        forall|k: int| 0 <= k < d.num_registers() ==> #[trigger] d.register(k).len() == d.spec_trace_length(),
        forall|k: int, j: int|
            4 <= k < 14 && 0 <= j < d.spec_trace_length() ==> #[trigger] d.register(k)[j] == 0 || d.register(
                k,
            )[j] == 1,
{
    assert forall|k: int| 0 <= k < d.num_registers() implies #[trigger] d.register(k).len() == d.spec_trace_length() by {
        if k >= 14 + d.ctx_stack@.len() {
            assert(d.loop_stack@[k - 14 - d.ctx_stack@.len()]@.len() == d.spec_trace_length());
        }
    }
}

/// How the decoder's views read in the registers that `get_state` returns: the op bits,
/// the stack cells, the logical stacks and the sponge.
pub proof fn lemma_views_in_registers(d: &Decoder)
    requires
        d.wf(),
    ensures
        forall|row: int|
            #[trigger] d.flow_bits(row) == d.register(4)[row] + 2 * d.register(5)[row] + 4 * d.register(6)[row],
        forall|row: int|
            #[trigger] d.user_bits(row) == d.register(7)[row] + 2 * d.register(8)[row] + 4 * d.register(9)[row] + 8
                * d.register(10)[row] + 16 * d.register(11)[row] + 32 * d.register(12)[row] + 64 * d.register(
                13,
            )[row],
        forall|i: int, row: int|
            0 <= i < d.ctx_registers() ==> #[trigger] d.ctx_cell(i, row) == d.register(14 + i)[row],
        forall|i: int, row: int|
            0 <= i < d.loop_registers() ==> #[trigger] d.loop_cell(i, row) == d.register(14 + d.ctx_registers() + i)[row],
        d.ctx_view().len() <= d.ctx_registers(),
        d.loop_view().len() <= d.loop_registers(),
        forall|i: int| 0 <= i < d.ctx_view().len() ==> #[trigger] d.ctx_view()[i] == d.ctx_cell(i, d.spec_step() as int),
        forall|i: int| 0 <= i < d.loop_view().len() ==> #[trigger] d.loop_view()[i] == d.loop_cell(i, d.spec_step() as int),
        forall|i: int| 0 <= i < 4 ==> #[trigger] d.spec_sponge()[i] == d.register(i)[d.spec_step() as int],
{
}

/// `rows_kept` in terms of registers and stack cells.
pub proof fn lemma_rows_kept(a: &Decoder, b: &Decoder, upto: int)
    requires
        a.wf(),
        b.wf(),
        a.rows_kept(b, upto),
    ensures
        a.ctx_registers() <= b.ctx_registers(),
        a.loop_registers() <= b.loop_registers(),
        forall|k: int, j: int| 0 <= k < 14 && 0 <= j < upto ==> #[trigger] b.register(k)[j] == a.register(k)[j],
        forall|i: int, j: int|
            0 <= i < a.ctx_registers() && 0 <= j < upto ==> #[trigger] b.ctx_cell(i, j) == a.ctx_cell(i, j),
        forall|i: int, j: int|
            0 <= i < a.loop_registers() && 0 <= j < upto ==> #[trigger] b.loop_cell(i, j) == a.loop_cell(i, j),
{
}

/// The trace length is fixed by the starting length and the step: it is the starting
/// length doubled as often as needed to exceed the step, and no more.
pub proof fn lemma_trace_length_determined(d: &Decoder)
    requires
        d.wf(),
    ensures
        d.spec_trace_length() > d.spec_step(),
        d.spec_trace_length() == d.spec_init_length() || d.spec_trace_length() <= 2 * d.spec_step(),
        exists|k: nat| d.spec_trace_length() == d.spec_init_length() * pow2(k),
{
    vstd::arithmetic::power2::lemma2_to64();
    assert(d.doublings@ == 0 ==> d.spec_trace_length() == d.spec_init_length() * 1);
}

/// A well-formed decoder has not passed the step limit.
pub proof fn lemma_step_bound(d: &Decoder)
    requires
        d.wf(),
    ensures
        d.spec_step() <= MAX_STEP,
{
}

/// `n` is a power of two.
pub open spec fn is_pow2(n: nat) -> bool {
    exists|k: nat| n == pow2(k)
}

/// Traces only double: a decoder created with a power-of-two length keeps a power-of-two
/// length.
pub proof fn lemma_trace_length_power_of_two(d: &Decoder)
    requires
        d.wf(),
        is_pow2(d.spec_init_length()),
    ensures
        is_pow2(d.spec_trace_length()),
{
    let k = choose|k: nat| d.spec_init_length() == pow2(k);
    vstd::arithmetic::power2::lemma_pow2_adds(k, d.doublings@);
    assert(d.spec_trace_length() == pow2(k + d.doublings@));
}

/// At the current step the accumulator registers hold the sponge; together with
/// `stepped`, which keeps every earlier row, the row of each step holds the sponge of
/// that step.
pub proof fn lemma_accumulator_is_sponge(d: &Decoder)
    requires
        d.wf(),
    ensures
        forall|i: int| 0 <= i < 4 ==> #[trigger] d.register(i)[d.spec_step() as int] == d.spec_sponge()[i],
{
}

impl Decoder {
    /// Length of every register trace.
    pub closed spec fn spec_trace_length(&self) -> nat {
        self.op_acc@[0]@.len()
    }

    pub closed spec fn spec_step(&self) -> nat {
        self.step as nat
    }

    /// The trace length the decoder was created with.
    pub closed spec fn spec_init_length(&self) -> nat {
        self.init_length@
    }

    /// The sponge state.
    pub closed spec fn spec_sponge(&self) -> Seq<u128> {
        self.sponge@
    }

    /// The context stack at the current step, top first.
    pub closed spec fn ctx_view(&self) -> Seq<u128> {
        stack_at(self.ctx_stack@, self.ctx_depth as int, self.step as int)
    }

    /// The loop stack at the current step, top first.
    pub closed spec fn loop_view(&self) -> Seq<u128> {
        stack_at(self.loop_stack@, self.loop_depth as int, self.step as int)
    }

    /// Row `row` of context-stack column `i`.
    pub closed spec fn ctx_cell(&self, i: int, row: int) -> u128 {
        self.ctx_stack@[i]@[row]
    }

    /// Row `row` of loop-stack column `i`.
    pub closed spec fn loop_cell(&self, i: int, row: int) -> u128 {
        self.loop_stack@[i]@[row]
    }

    /// What a cell of row `row` held before the row was written: its value when the row
    /// was inside the trace, zero when the trace grew to reach it.
    pub open spec fn fresh(&self, value: u128, row: int) -> u128 {
        if row < self.spec_trace_length() {
            value
        } else {
            0
        }
    }

    /// Row `row` of the context stack is the push of `top` onto row `row - 1` of `old`.
    pub open spec fn ctx_pushed(&self, old: &Decoder, top: u128, row: int) -> bool {
        &&& self.ctx_cell(0, row) == top
        &&& forall|i: int| 1 <= i < self.ctx_registers() ==> #[trigger] self.ctx_cell(i, row) == old.ctx_cell(i - 1, row - 1)
    }

    /// Row `row` of the context stack is row `row - 1` of `old` shifted up by one; the last
    /// column keeps what the row held.
    pub open spec fn ctx_popped(&self, old: &Decoder, row: int) -> bool {
        &&& forall|i: int| 0 <= i < self.ctx_registers() - 1 ==> #[trigger] self.ctx_cell(i, row) == old.ctx_cell(i + 1, row - 1)
        &&& self.ctx_cell(self.ctx_registers() - 1, row) == old.fresh(old.ctx_cell(self.ctx_registers() - 1, row), row)
    }

    /// Row `row` of the context stack is a copy of row `row - 1` of `old`.
    pub open spec fn ctx_copied(&self, old: &Decoder, row: int) -> bool {
        forall|i: int| 0 <= i < self.ctx_registers() ==> #[trigger] self.ctx_cell(i, row) == old.ctx_cell(i, row - 1)
    }

    /// Row `row` of the loop stack is the push of `top` onto row `row - 1` of `old`.
    pub open spec fn loop_pushed(&self, old: &Decoder, top: u128, row: int) -> bool {
        &&& self.loop_cell(0, row) == top
        &&& forall|i: int| 1 <= i < self.loop_registers() ==> #[trigger] self.loop_cell(i, row) == old.loop_cell(i - 1, row - 1)
    }

    /// Row `row` of the loop stack is row `row - 1` of `old` shifted up by one; the last
    /// column keeps what the row held.
    pub open spec fn loop_popped(&self, old: &Decoder, row: int) -> bool {
        &&& forall|i: int| 0 <= i < self.loop_registers() - 1 ==> #[trigger] self.loop_cell(i, row) == old.loop_cell(i + 1, row - 1)
        &&& self.loop_cell(self.loop_registers() - 1, row) == old.fresh(old.loop_cell(self.loop_registers() - 1, row), row)
    }

    /// Row `row` of the loop stack is a copy of row `row - 1` of `old`.
    pub open spec fn loop_copied(&self, old: &Decoder, row: int) -> bool {
        forall|i: int| 0 <= i < self.loop_registers() ==> #[trigger] self.loop_cell(i, row) == old.loop_cell(i, row - 1)
    }

    /// Number of context-stack registers allocated so far.
    pub closed spec fn ctx_registers(&self) -> nat {
        self.ctx_stack@.len()
    }

    /// Number of loop-stack registers allocated so far.
    pub closed spec fn loop_registers(&self) -> nat {
        self.loop_stack@.len()
    }

    /// The tag of the control-flow operation whose bits are at `row`.
    pub closed spec fn flow_bits(&self, row: int) -> int {
        self.cf_op_bits@[0]@[row] + 2 * self.cf_op_bits@[1]@[row] + 4 * self.cf_op_bits@[2]@[row]
    }

    /// The tag of the user operation whose bits are at `row`.
    pub closed spec fn user_bits(&self, row: int) -> int {
        self.ld_op_bits@[0]@[row] + 2 * self.ld_op_bits@[1]@[row] + 4 * self.ld_op_bits@[2]@[row] + 8
            * self.ld_op_bits@[3]@[row] + 16 * self.ld_op_bits@[4]@[row] + 32 * self.hd_op_bits@[0]@[row]
            + 64 * self.hd_op_bits@[1]@[row]
    }

    /// Number of registers: 4 accumulator, 3 + 5 + 2 bit registers, then the stacks.
    pub closed spec fn num_registers(&self) -> nat {
        14 + self.ctx_stack@.len() + self.loop_stack@.len()
    }

    /// Register `r` in the order op_acc, cf_op_bits, ld_op_bits, hd_op_bits, ctx_stack,
    /// loop_stack.
    pub closed spec fn register(&self, r: int) -> Seq<u128> {
        if r < 4 {
            self.op_acc@[r]@
        } else if r < 7 {
            self.cf_op_bits@[r - 4]@
        } else if r < 12 {
            self.ld_op_bits@[r - 7]@
        } else if r < 14 {
            self.hd_op_bits@[r - 12]@
        } else if r < 14 + self.ctx_stack@.len() {
            self.ctx_stack@[r - 14]@
        } else {
            self.loop_stack@[r - 14 - self.ctx_stack@.len()]@
        }
    }

    /// The shape of the traces: group widths, equal lengths, stack bounds, and cell ranges.
    pub closed spec fn shape_ok(&self) -> bool {
        let n = self.op_acc@[0]@.len() as int;
        &&& self.op_acc.len() == 4
        &&& self.cf_op_bits.len() == 3
        &&& self.ld_op_bits.len() == 5
        &&& self.hd_op_bits.len() == 2
        &&& cols_len(self.op_acc@, n)
        &&& cols_len(self.cf_op_bits@, n)
        &&& cols_len(self.ld_op_bits@, n)
        &&& cols_len(self.hd_op_bits@, n)
        &&& cols_len(self.ctx_stack@, n)
        &&& cols_len(self.loop_stack@, n)
        &&& self.step < n
        &&& self.step <= MAX_STEP
        &&& n == self.init_length@ * pow2(self.doublings@)
        &&& self.doublings@ == 0 || n <= 2 * self.step
        &&& 1 <= self.ctx_stack.len() <= MAX_CONTEXT_DEPTH
        &&& self.ctx_depth <= self.ctx_stack.len()
        &&& self.loop_stack.len() <= MAX_LOOP_DEPTH
        &&& self.loop_depth <= self.loop_stack.len()
        &&& is_state(self.sponge@)
        &&& cols_elems(self.op_acc@)
        &&& cols_elems(self.ctx_stack@)
        &&& cols_elems(self.loop_stack@)
        &&& cols_bits(self.cf_op_bits@)
        &&& cols_bits(self.ld_op_bits@)
        &&& cols_bits(self.hd_op_bits@)
    }

    /// Well-formed: the shape holds and the accumulator row of the current step holds the
    /// sponge.
    pub closed spec fn wf(&self) -> bool {
        &&& self.shape_ok()
        &&& forall|i: int| 0 <= i < 4 ==> #[trigger] self.op_acc@[i]@[self.step as int] == self.sponge@[i]
    }

    /// Rows below `upto` are the same in `self` and `other`, in every register of `self`.
    pub closed spec fn rows_kept(&self, other: &Decoder, upto: int) -> bool {
        &&& cols_kept(self.op_acc@, other.op_acc@, upto)
        &&& cols_kept(self.cf_op_bits@, other.cf_op_bits@, upto)
        &&& cols_kept(self.ld_op_bits@, other.ld_op_bits@, upto)
        &&& cols_kept(self.hd_op_bits@, other.hd_op_bits@, upto)
        &&& cols_kept(self.ctx_stack@, other.ctx_stack@, upto)
        &&& cols_kept(self.loop_stack@, other.loop_stack@, upto)
    }

    /// One operation was applied to `old`: the step advanced by one, the bits of row
    /// `old.step` encode `flow` and `user`, and no earlier row changed.
    pub open spec fn stepped(&self, old: &Decoder, flow: FlowOps, user: UserOps) -> bool {
        &&& self.wf()
        &&& self.spec_step() == old.spec_step() + 1
        &&& self.flow_bits(old.spec_step() as int) == flow_tag(flow)
        &&& self.user_bits(old.spec_step() as int) == user_tag(user)
        &&& old.rows_kept(self, old.spec_step() as int)
        &&& self.spec_trace_length() == if old.spec_step() + 1 >= old.spec_trace_length() {
            (2 * old.spec_trace_length()) as int
        } else {
            old.spec_trace_length() as int
        }
        &&& self.spec_init_length() == old.spec_init_length()
        &&& self.ctx_registers() >= old.ctx_registers()
        &&& self.loop_registers() >= old.loop_registers()
    }

    /// Creates a decoder whose register traces have `init_trace_length` rows.
    pub fn new(init_trace_length: usize) -> (r: Decoder)
        requires
            init_trace_length >= 1,
        ensures
            r.wf(),
            r.spec_step() == 0,
            r.spec_trace_length() == init_trace_length,
            r.spec_init_length() == init_trace_length,
            r.spec_sponge() == seq![0u128, 0, 0, 0],
            r.ctx_view() == seq![0u128],
            r.loop_view() == Seq::<u128>::empty(),
            r.ctx_registers() == 1,
            r.loop_registers() == 0,
            forall|k: int, j: int|
                0 <= k < r.num_registers() && 0 <= j < init_trace_length ==> #[trigger] r.register(k)[j] == 0,
    {
        let n = init_trace_length;
        let op_acc = vec![zeros(n), zeros(n), zeros(n), zeros(n)];
        let cf_op_bits = vec![zeros(n), zeros(n), zeros(n)];
        let ld_op_bits = vec![zeros(n), zeros(n), zeros(n), zeros(n), zeros(n)];
        let hd_op_bits = vec![zeros(n), zeros(n)];
        let ctx_stack = vec![zeros(n)];
        let ctx_depth = ctx_stack.len();
        let loop_stack: Vec<Vec<u128>> = Vec::new();
        let loop_depth = loop_stack.len();
        let r = Decoder {
            step: 0,
            op_acc,
            sponge: [0, 0, 0, 0],
            cf_op_bits,
            ld_op_bits,
            hd_op_bits,
            ctx_stack,
            ctx_depth,
            loop_stack,
            loop_depth,
            init_length: Ghost(n as nat),
            doublings: Ghost(0),
        };
        proof {
            vstd::arithmetic::power2::lemma2_to64();
            assert(pow2(0) == 1);
            assert(r.op_acc@[0]@.len() == (n as nat) * pow2(0));
        }
        assert(r.ctx_view() =~= seq![0u128]);
        assert(r.loop_view() =~= Seq::<u128>::empty());
        r
    }

    /// Returns the length of the register traces.
    pub fn trace_length(&self) -> (r: usize)
        requires
            self.wf(),
        ensures
            r == self.spec_trace_length(),
    {
        self.op_acc[0].len()
    }

    /// Returns the current step.
    pub fn current_step(&self) -> (r: usize)
        ensures
            r == self.spec_step(),
    {
        self.step
    }

    /// Returns the deepest the context stack has been: the number of its registers.
    pub fn max_ctx_stack_depth(&self) -> (r: usize)
        requires
            self.wf(),
        ensures
            r == self.ctx_registers(),
            1 <= r <= MAX_CONTEXT_DEPTH,
    {
        self.ctx_stack.len()
    }

    /// Returns the deepest the loop stack has been: the number of its registers.
    pub fn max_loop_stack_depth(&self) -> (r: usize)
        requires
            self.wf(),
        ensures
            r == self.loop_registers(),
            r <= MAX_LOOP_DEPTH,
    {
        self.loop_stack.len()
    }

    /// Returns the value of every register at `step`.
    pub fn get_state(&self, step: usize) -> (r: Vec<u128>)
        requires
            self.wf(),
            step < self.spec_trace_length(),
        ensures
            r@ == Seq::new(self.num_registers(), |k: int| self.register(k)[step as int]),
            r@.len() == 14 + self.ctx_registers() + self.loop_registers(),
    {
        let mut state: Vec<u128> = Vec::new();
        let mut i: usize = 0;
        while i < 4
            invariant
                self.wf(),
                step < self.spec_trace_length(),
                i <= 4,
                state@ == Seq::new(i as nat, |k: int| self.register(k)[step as int]),
            decreases 4 - i,
        {
            state.push(self.op_acc[i][step]);
            i += 1;
            assert(state@ =~= Seq::new(i as nat, |k: int| self.register(k)[step as int]));
        }
        let mut i: usize = 0;
        while i < 3
            invariant
                self.wf(),
                step < self.spec_trace_length(),
                i <= 3,
                state@ == Seq::new(4 + i as nat, |k: int| self.register(k)[step as int]),
            decreases 3 - i,
        {
            state.push(self.cf_op_bits[i][step]);
            i += 1;
            assert(state@ =~= Seq::new(4 + i as nat, |k: int| self.register(k)[step as int]));
        }
        let mut i: usize = 0;
        while i < 5
            invariant
                self.wf(),
                step < self.spec_trace_length(),
                i <= 5,
                state@ == Seq::new(7 + i as nat, |k: int| self.register(k)[step as int]),
            decreases 5 - i,
        {
            state.push(self.ld_op_bits[i][step]);
            i += 1;
            assert(state@ =~= Seq::new(7 + i as nat, |k: int| self.register(k)[step as int]));
        }
        let mut i: usize = 0;
        while i < 2
            invariant
                self.wf(),
                step < self.spec_trace_length(),
                i <= 2,
                state@ == Seq::new(12 + i as nat, |k: int| self.register(k)[step as int]),
            decreases 2 - i,
        {
            state.push(self.hd_op_bits[i][step]);
            i += 1;
            assert(state@ =~= Seq::new(12 + i as nat, |k: int| self.register(k)[step as int]));
        }
        let mut i: usize = 0;
        while i < self.ctx_stack.len()
            invariant
                self.wf(),
                step < self.spec_trace_length(),
                i <= self.ctx_stack.len(),
                state@ == Seq::new(14 + i as nat, |k: int| self.register(k)[step as int]),
            decreases self.ctx_stack.len() - i,
        {
            state.push(self.ctx_stack[i][step]);
            i += 1;
            assert(state@ =~= Seq::new(14 + i as nat, |k: int| self.register(k)[step as int]));
        }
        let c = self.ctx_stack.len();
        let mut i: usize = 0;
        while i < self.loop_stack.len()
            invariant
                self.wf(),
                step < self.spec_trace_length(),
                c == self.ctx_stack.len(),
                i <= self.loop_stack.len(),
                state@ == Seq::new((14 + c + i) as nat, |k: int| self.register(k)[step as int]),
            decreases self.loop_stack.len() - i,
        {
            state.push(self.loop_stack[i][step]);
            i += 1;
            assert(state@ =~= Seq::new((14 + c + i) as nat, |k: int| self.register(k)[step as int]));
        }
        state
    }

    // OPERATION DECODERS
    // --------------------------------------------------------------------------------------------

    /// Initiates a new program block (Group or Switch).
    /// Applying it where `check_start_block` fails is a caller error; the precondition rules it out.
    pub fn start_block(&mut self)
        requires
            old(self).wf(),
            old(self).spec_step() < MAX_STEP,
            old(self).spec_step() % 16 == 15 && old(self).ctx_view().len()                 < MAX_CONTEXT_DEPTH,
        ensures
            final(self).stepped(old(self), FlowOps::Begin, UserOps::Noop),
            final(self).ctx_registers() == if final(self).ctx_view().len() > old(self).ctx_registers() {
                final(self).ctx_view().len()
            } else {
                old(self).ctx_registers()
            },
            final(self).loop_registers() == old(self).loop_registers(),
            final(self).spec_sponge() == seq![0u128, 0, 0, 0],
            final(self).ctx_view() == seq![old(self).spec_sponge()[0]] + old(self).ctx_view(),
            final(self).loop_view() == old(self).loop_view(),
            final(self).ctx_pushed(old(self), old(self).spec_sponge()[0], (old(self).spec_step() + 1) as int),
            final(self).loop_copied(old(self), (old(self).spec_step() + 1) as int),
    {
        self.advance_step();
        self.save_context();
        self.copy_loop_stack();
        self.set_op_bits(FlowOps::Begin, UserOps::Noop);
        self.set_sponge([0, 0, 0, 0]);
    }

    /// Terminates a program block (Group, Switch, or Loop): pops the context and builds
    /// the state of the parent from it, the hash of the block and the hash of its sibling.
    /// Applying it where `check_end_block` fails is a caller error; the precondition rules it out.
    pub fn end_block(&mut self, sibling_hash: u128, true_branch: bool)
        requires
            old(self).wf(),
            old(self).spec_step() < MAX_STEP,
            is_elem(sibling_hash),
            old(self).spec_step() % 16 == 0 && old(self).ctx_view().len() > 0,
        ensures
            final(self).stepped(
                old(self),
                if true_branch {
                    FlowOps::Tend
                } else {
                    FlowOps::Fend
                },
                UserOps::Noop,
            ),
            final(self).spec_sponge() == if true_branch {
                seq![old(self).ctx_view()[0], old(self).spec_sponge()[0], sibling_hash, 0u128]
            } else {
                seq![old(self).ctx_view()[0], sibling_hash, old(self).spec_sponge()[0], 0u128]
            },
            final(self).ctx_view() == old(self).ctx_view().drop_first(),
            final(self).loop_view() == old(self).loop_view(),
            final(self).ctx_registers() == old(self).ctx_registers(),
            final(self).loop_registers() == old(self).loop_registers(),
            final(self).ctx_popped(old(self), (old(self).spec_step() + 1) as int),
            final(self).loop_copied(old(self), (old(self).spec_step() + 1) as int),
    {
        self.advance_step();
        let context_hash = self.pop_context();
        self.copy_loop_stack();
        let block_hash = self.sponge[0];
        if true_branch {
            // closing the true branch of execution
            self.set_op_bits(FlowOps::Tend, UserOps::Noop);
            self.set_sponge([context_hash, block_hash, sibling_hash, 0]);
        } else {
            // closing the false branch of execution
            self.set_op_bits(FlowOps::Fend, UserOps::Noop);
            self.set_sponge([context_hash, sibling_hash, block_hash, 0]);
        }
    }

    /// Initiates a new Loop block whose body must hash to `loop_image`.
    /// Applying it where `check_start_loop` fails is a caller error; the precondition rules it out.
    pub fn start_loop(&mut self, loop_image: u128)
        requires
            old(self).wf(),
            old(self).spec_step() < MAX_STEP,
            is_elem(loop_image),
            old(self).spec_step() % 16 == 15 && old(self).ctx_view().len()                 < MAX_CONTEXT_DEPTH && old(self).loop_view().len() < MAX_LOOP_DEPTH,
        ensures
            final(self).stepped(old(self), FlowOps::Loop, UserOps::Noop),
            final(self).ctx_registers() == if final(self).ctx_view().len() > old(self).ctx_registers() {
                final(self).ctx_view().len()
            } else {
                old(self).ctx_registers()
            },
            final(self).loop_registers() == if final(self).loop_view().len() > old(self).loop_registers() {
                final(self).loop_view().len()
            } else {
                old(self).loop_registers()
            },
            final(self).spec_sponge() == seq![0u128, 0, 0, 0],
            final(self).ctx_view() == seq![old(self).spec_sponge()[0]] + old(self).ctx_view(),
            final(self).loop_view() == seq![loop_image] + old(self).loop_view(),
            final(self).ctx_pushed(old(self), old(self).spec_sponge()[0], (old(self).spec_step() + 1) as int),
            final(self).loop_pushed(old(self), loop_image, (old(self).spec_step() + 1) as int),
    {
        self.advance_step();
        self.save_context();
        self.save_loop_image(loop_image);
        self.set_op_bits(FlowOps::Loop, UserOps::Noop);
        self.set_sponge([0, 0, 0, 0]);
    }

    /// Prepares the decoder for the next iteration of a loop: the hash of the iteration
    /// that just ended must equal the loop image.
    /// Applying it where `check_wrap_loop` fails is a caller error; the precondition rules it out.
    pub fn wrap_loop(&mut self)
        requires
            old(self).wf(),
            old(self).spec_step() < MAX_STEP,
            old(self).spec_step() % 16 == 15 && old(self).loop_view().len() > 0                 && old(self).spec_sponge()[0] == old(self).loop_view()[0],
        ensures
            final(self).stepped(old(self), FlowOps::Wrap, UserOps::Noop),
            final(self).spec_sponge() == seq![0u128, 0, 0, 0],
            final(self).ctx_view() == old(self).ctx_view(),
            final(self).loop_view() == old(self).loop_view(),
            final(self).ctx_registers() == old(self).ctx_registers(),
            final(self).loop_registers() == old(self).loop_registers(),
            final(self).ctx_copied(old(self), (old(self).spec_step() + 1) as int),
            final(self).loop_copied(old(self), (old(self).spec_step() + 1) as int),
    {
        self.advance_step();
        self.copy_context_stack();
        let image = self.peek_loop_image();
        assert(image == self.sponge[0]);
        self.set_op_bits(FlowOps::Wrap, UserOps::Noop);
        self.set_sponge([0, 0, 0, 0]);
    }

    /// Prepares the decoder for exiting a loop: the hash of the last iteration must equal
    /// the loop image, which is popped; the sponge is kept.
    /// Applying it where `check_break_loop` fails is a caller error; the precondition rules it out.
    pub fn break_loop(&mut self)
        requires
            old(self).wf(),
            old(self).spec_step() < MAX_STEP,
            old(self).spec_step() % 16 == 15 && old(self).loop_view().len() > 0                 && old(self).spec_sponge()[0] == old(self).loop_view()[0],
        ensures
            final(self).stepped(old(self), FlowOps::Break, UserOps::Noop),
            final(self).spec_sponge() == old(self).spec_sponge(),
            final(self).ctx_view() == old(self).ctx_view(),
            final(self).loop_view() == old(self).loop_view().drop_first(),
            final(self).ctx_registers() == old(self).ctx_registers(),
            final(self).loop_registers() == old(self).loop_registers(),
            final(self).ctx_copied(old(self), (old(self).spec_step() + 1) as int),
            final(self).loop_popped(old(self), (old(self).spec_step() + 1) as int),
    {
        self.advance_step();
        self.copy_context_stack();
        let image = self.pop_loop_image();
        assert(image == self.sponge[0]);
        self.set_op_bits(FlowOps::Break, UserOps::Noop);
        self.set_sponge(self.sponge);
    }

    /// Applies user operation `op_code` with `op_value`: one hash-accumulator round.
    /// A non-zero value is accepted only with `Push`, at a step that is a multiple of 8.
    /// Applying it where `check_decode_op` fails is a caller error; the precondition rules it out.
    pub fn decode_op(&mut self, op_code: UserOps, op_value: u128)
        requires
            old(self).wf(),
            old(self).spec_step() < MAX_STEP,
            is_elem(op_value),
            op_value == 0 || (op_code == UserOps::Push && old(self).spec_step() % 8 == 0),
        ensures
            final(self).stepped(old(self), FlowOps::Hacc, op_code),
            final(self).spec_sponge() == hacc_round(
                old(self).spec_sponge(),
                user_tag(op_code) as int,
                op_value as int,
                (old(self).spec_step() % 16) as int,
            ),
            final(self).ctx_view() == old(self).ctx_view(),
            final(self).loop_view() == old(self).loop_view(),
            final(self).ctx_registers() == old(self).ctx_registers(),
            final(self).loop_registers() == old(self).loop_registers(),
            final(self).ctx_copied(old(self), (old(self).spec_step() + 1) as int),
            final(self).loop_copied(old(self), (old(self).spec_step() + 1) as int),
    {
        self.advance_step();
        self.copy_context_stack();
        self.copy_loop_stack();
        self.set_op_bits(FlowOps::Hacc, op_code);
        self.apply_hacc_round(op_code, op_value);
    }

    /// Fills the rest of every register trace: bit registers with 1 (the idle `Void` and
    /// `Noop` operations) from the current step on, the other registers with their value
    /// at the current step after it.
    pub fn finalize_trace(&mut self)
        requires
            old(self).wf(),
        ensures
            final(self).wf(),
            final(self).spec_step() == old(self).spec_step(),
            final(self).spec_trace_length() == old(self).spec_trace_length(),
            final(self).spec_init_length() == old(self).spec_init_length(),
            final(self).spec_sponge() == old(self).spec_sponge(),
            final(self).ctx_view() == old(self).ctx_view(),
            final(self).loop_view() == old(self).loop_view(),
            final(self).num_registers() == old(self).num_registers(),
            final(self).ctx_registers() == old(self).ctx_registers(),
            final(self).loop_registers() == old(self).loop_registers(),
            old(self).rows_kept(final(self), old(self).spec_step() as int),
            forall|k: int, j: int|
                4 <= k < 14 && old(self).spec_step() <= j < old(self).spec_trace_length()
                    ==> #[trigger] final(self).register(k)[j] == 1,
            forall|k: int, j: int|
                0 <= k < final(self).num_registers() && !(4 <= k < 14) && 0 <= j
                    < old(self).spec_trace_length() ==> #[trigger] final(self).register(k)[j] == if j
                    <= old(self).spec_step() {
                    old(self).register(k)[j]
                } else {
                    old(self).register(k)[old(self).spec_step() as int]
                },
    {
        // bit registers: 1 marks the idle operation
        fill_rows(&mut self.cf_op_bits, self.step, 1);
        fill_rows(&mut self.ld_op_bits, self.step, 1);
        fill_rows(&mut self.hd_op_bits, self.step, 1);
        // the other registers keep the value of the last state
        extend_rows(&mut self.op_acc, self.step);
        extend_rows(&mut self.ctx_stack, self.step);
        extend_rows(&mut self.loop_stack, self.step);
        assert(self.ctx_view() =~= old(self).ctx_view());
        assert(self.loop_view() =~= old(self).loop_view());
    }

    // PRECONDITION TESTS
    // --------------------------------------------------------------------------------------------

    /// Tests whether `start_block` may be applied now: `Ok` exactly when it may, otherwise the
    /// error the operation would abort with.
    pub fn check_start_block(&self) -> (r: Result<(), DecoderError>)
        requires
            self.wf(),
        ensures
            self.spec_step() % 16 != 15 ==> r == Err::<(), DecoderError>(
                DecoderError::AlignmentViolation(self.spec_step() as usize),
            ),
            self.spec_step() % 16 == 15 && self.ctx_view().len() >= MAX_CONTEXT_DEPTH
                ==> r == Err::<(), DecoderError>(DecoderError::StackOverflow((self.spec_step() + 1) as usize)),
            r is Ok <==> (self.spec_step() % 16 == 15 && self.ctx_view().len()
                < MAX_CONTEXT_DEPTH),
    {
        if self.step % BASE_CYCLE_LENGTH != BASE_CYCLE_LENGTH - 1 {
            return Err(DecoderError::AlignmentViolation(self.step));
        }
        if self.ctx_depth >= MAX_CONTEXT_DEPTH {
            return Err(DecoderError::StackOverflow(self.step + 1));
        }
        Ok(())
    }

    /// Tests whether `end_block` may be applied now: `Ok` exactly when it may, otherwise the
    /// error the operation would abort with.
    pub fn check_end_block(&self) -> (r: Result<(), DecoderError>)
        requires
            self.wf(),
        ensures
            self.spec_step() % 16 != 0 ==> r == Err::<(), DecoderError>(
                DecoderError::AlignmentViolation(self.spec_step() as usize),
            ),
            self.spec_step() % 16 == 0 && self.ctx_view().len() == 0 ==> r == Err::<
                (),
                DecoderError,
            >(DecoderError::StackUnderflow((self.spec_step() + 1) as usize)),
            r is Ok <==> (self.spec_step() % 16 == 0 && self.ctx_view().len() > 0),
    {
        if self.step % BASE_CYCLE_LENGTH != 0 {
            return Err(DecoderError::AlignmentViolation(self.step));
        }
        if self.ctx_depth == 0 {
            return Err(DecoderError::StackUnderflow(self.step + 1));
        }
        Ok(())
    }

    /// Tests whether `start_loop` may be applied now: `Ok` exactly when it may, otherwise the
    /// error the operation would abort with.
    pub fn check_start_loop(&self) -> (r: Result<(), DecoderError>)
        requires
            self.wf(),
        ensures
            self.spec_step() % 16 != 15 ==> r == Err::<(), DecoderError>(
                DecoderError::AlignmentViolation(self.spec_step() as usize),
            ),
            self.spec_step() % 16 == 15 && (self.ctx_view().len() >= MAX_CONTEXT_DEPTH
                || self.loop_view().len() >= MAX_LOOP_DEPTH) ==> r == Err::<(), DecoderError>(
                DecoderError::StackOverflow((self.spec_step() + 1) as usize),
            ),
            r is Ok <==> (self.spec_step() % 16 == 15 && self.ctx_view().len()
                < MAX_CONTEXT_DEPTH && self.loop_view().len() < MAX_LOOP_DEPTH),
    {
        if self.step % BASE_CYCLE_LENGTH != BASE_CYCLE_LENGTH - 1 {
            return Err(DecoderError::AlignmentViolation(self.step));
        }
        if self.ctx_depth >= MAX_CONTEXT_DEPTH || self.loop_depth >= MAX_LOOP_DEPTH {
            return Err(DecoderError::StackOverflow(self.step + 1));
        }
        Ok(())
    }

    /// Tests whether `wrap_loop` may be applied now: `Ok` exactly when it may, otherwise the
    /// error the operation would abort with.
    pub fn check_wrap_loop(&self) -> (r: Result<(), DecoderError>)
        requires
            self.wf(),
        ensures
            self.spec_step() % 16 != 15 ==> r == Err::<(), DecoderError>(
                DecoderError::AlignmentViolation(self.spec_step() as usize),
            ),
            self.spec_step() % 16 == 15 && self.loop_view().len() == 0 ==> r == Err::<
                (),
                DecoderError,
            >(DecoderError::StackUnderflow((self.spec_step() + 1) as usize)),
            self.spec_step() % 16 == 15 && self.loop_view().len() > 0
                && self.spec_sponge()[0] != self.loop_view()[0] ==> r == Err::<
                (),
                DecoderError,
            >(DecoderError::LoopImageMismatch((self.spec_step() + 1) as usize)),
            r is Ok <==> (self.spec_step() % 16 == 15 && self.loop_view().len() > 0
                && self.spec_sponge()[0] == self.loop_view()[0]),
    {
        if self.step % BASE_CYCLE_LENGTH != BASE_CYCLE_LENGTH - 1 {
            return Err(DecoderError::AlignmentViolation(self.step));
        }
        if self.loop_depth == 0 {
            return Err(DecoderError::StackUnderflow(self.step + 1));
        }
        if self.sponge[0] != self.loop_stack[0][self.step] {
            return Err(DecoderError::LoopImageMismatch(self.step + 1));
        }
        Ok(())
    }

    /// Tests whether `break_loop` may be applied now: `Ok` exactly when it may, otherwise the
    /// error the operation would abort with.
    pub fn check_break_loop(&self) -> (r: Result<(), DecoderError>)
        requires
            self.wf(),
        ensures
            self.spec_step() % 16 != 15 ==> r == Err::<(), DecoderError>(
                DecoderError::AlignmentViolation(self.spec_step() as usize),
            ),
            self.spec_step() % 16 == 15 && self.loop_view().len() == 0 ==> r == Err::<
                (),
                DecoderError,
            >(DecoderError::StackUnderflow((self.spec_step() + 1) as usize)),
            self.spec_step() % 16 == 15 && self.loop_view().len() > 0
                && self.spec_sponge()[0] != self.loop_view()[0] ==> r == Err::<
                (),
                DecoderError,
            >(DecoderError::LoopImageMismatch((self.spec_step() + 1) as usize)),
            r is Ok <==> (self.spec_step() % 16 == 15 && self.loop_view().len() > 0
                && self.spec_sponge()[0] == self.loop_view()[0]),
    {
        if self.step % BASE_CYCLE_LENGTH != BASE_CYCLE_LENGTH - 1 {
            return Err(DecoderError::AlignmentViolation(self.step));
        }
        if self.loop_depth == 0 {
            return Err(DecoderError::StackUnderflow(self.step + 1));
        }
        if self.sponge[0] != self.loop_stack[0][self.step] {
            return Err(DecoderError::LoopImageMismatch(self.step + 1));
        }
        Ok(())
    }

    /// Tests whether `decode_op` may be applied now: `Ok` exactly when it may, otherwise the
    /// error the operation would abort with.
    pub fn check_decode_op(&self, op_code: UserOps, op_value: u128) -> (r: Result<(), DecoderError>)
        requires
            self.wf(),
        ensures
            op_value != 0 && op_code != UserOps::Push ==> r == Err::<(), DecoderError>(
                DecoderError::InvalidOpValue(self.spec_step() as usize),
            ),
            op_value != 0 && op_code == UserOps::Push && self.spec_step() % 8 != 0 ==> r
                == Err::<(), DecoderError>(
                DecoderError::AlignmentViolation(self.spec_step() as usize),
            ),
            r is Ok <==> (op_value == 0 || (op_code == UserOps::Push && self.spec_step() % 8
                == 0)),
    {
        // a value can be given only with a PUSH operation, and only at steps
        // which are multiples of 8
        if op_value != 0 {
            match op_code {
                UserOps::Push => {
                    if self.step % PUSH_OP_ALIGNMENT != 0 {
                        return Err(DecoderError::AlignmentViolation(self.step));
                    }
                },
                _ => {
                    return Err(DecoderError::InvalidOpValue(self.step));
                },
            }
        }
        Ok(())
    }

    // HELPER METHODS
    // --------------------------------------------------------------------------------------------

    /// Moves the step pointer to the next step, doubling every register trace when the
    /// traces are full.
    fn advance_step(&mut self)
        requires
            old(self).wf(),
            old(self).step < MAX_STEP,
        ensures
            final(self).shape_ok(),
            final(self).step == old(self).step + 1,
            final(self).init_length == old(self).init_length,
            final(self).sponge == old(self).sponge,
            final(self).ctx_depth == old(self).ctx_depth,
            final(self).loop_depth == old(self).loop_depth,
            final(self).ctx_stack.len() == old(self).ctx_stack.len(),
            final(self).loop_stack.len() == old(self).loop_stack.len(),
            old(self).rows_kept(final(self), old(self).spec_trace_length() as int),
            final(self).spec_trace_length() >= old(self).spec_trace_length(),
            final(self).spec_trace_length() == if old(self).step + 1 >= old(self).spec_trace_length() {
                (2 * old(self).spec_trace_length()) as int
            } else {
                old(self).spec_trace_length() as int
            },
            forall|i: int, j: int|
                0 <= i < old(self).ctx_stack.len() && old(self).spec_trace_length() <= j < final(self).spec_trace_length()
                    ==> #[trigger] final(self).ctx_stack@[i]@[j] == 0,
            forall|i: int, j: int|
                0 <= i < old(self).loop_stack.len() && old(self).spec_trace_length() <= j < final(self).spec_trace_length()
                    ==> #[trigger] final(self).loop_stack@[i]@[j] == 0,
    {
        self.step = self.step + 1;
        if self.step >= self.op_acc[0].len() {
            let n = self.op_acc[0].len() * 2;
            self.op_acc = grow_columns(&self.op_acc, n);
            self.cf_op_bits = grow_columns(&self.cf_op_bits, n);
            self.ld_op_bits = grow_columns(&self.ld_op_bits, n);
            self.hd_op_bits = grow_columns(&self.hd_op_bits, n);
            self.ctx_stack = grow_columns(&self.ctx_stack, n);
            self.loop_stack = grow_columns(&self.loop_stack, n);
            proof {
                lemma_pow2_unfold(self.doublings@ + 1);
                assert(n == self.init_length@ * pow2(self.doublings@ + 1)) by (nonlinear_arith)
                    requires
                        n == 2 * (self.init_length@ * pow2(self.doublings@)),
                        pow2(self.doublings@ + 1) == 2 * pow2(self.doublings@),
                ;
            }
            self.doublings = Ghost(self.doublings@ + 1);
        }
    }

    /// Writes the bits of `flow_op` and `user_op` into the row of the previous step.
    #[verifier::rlimit(30)]
    fn set_op_bits(&mut self, flow_op: FlowOps, user_op: UserOps)
        requires
            old(self).shape_ok(),
            old(self).step >= 1,
        ensures
            final(self).shape_ok(),
            final(self).step == old(self).step,
            final(self).init_length == old(self).init_length,
            final(self).doublings == old(self).doublings,
            final(self).sponge == old(self).sponge,
            final(self).op_acc == old(self).op_acc,
            final(self).ctx_stack == old(self).ctx_stack,
            final(self).ctx_depth == old(self).ctx_depth,
            final(self).loop_stack == old(self).loop_stack,
            final(self).loop_depth == old(self).loop_depth,
            cols_same_but_row(old(self).cf_op_bits@, final(self).cf_op_bits@, old(self).step - 1),
            cols_same_but_row(old(self).ld_op_bits@, final(self).ld_op_bits@, old(self).step - 1),
            cols_same_but_row(old(self).hd_op_bits@, final(self).hd_op_bits@, old(self).step - 1),
            final(self).flow_bits(old(self).step - 1) == flow_tag(flow_op),
            final(self).user_bits(old(self).step - 1) == user_tag(user_op),
    {
        let step = self.step - 1;
        let f = flow_op.code() as u128;
        let u = user_op.code() as u128;
        proof {
            lemma_bits(f, u);
        }
        set_bit(&mut self.cf_op_bits, 0, step, f % 2);
        set_bit(&mut self.cf_op_bits, 1, step, (f / 2) % 2);
        set_bit(&mut self.cf_op_bits, 2, step, (f / 4) % 2);
        set_bit(&mut self.ld_op_bits, 0, step, u % 2);
        set_bit(&mut self.ld_op_bits, 1, step, (u / 2) % 2);
        set_bit(&mut self.ld_op_bits, 2, step, (u / 4) % 2);
        set_bit(&mut self.ld_op_bits, 3, step, (u / 8) % 2);
        set_bit(&mut self.ld_op_bits, 4, step, (u / 16) % 2);
        set_bit(&mut self.hd_op_bits, 0, step, (u / 32) % 2);
        set_bit(&mut self.hd_op_bits, 1, step, (u / 64) % 2);
    }

    // CONTEXT STACK HELPERS
    // --------------------------------------------------------------------------------------------

    /// Pushes the hash of the current program block onto the context stack.
    fn save_context(&mut self)
        requires
            old(self).shape_ok(),
            old(self).step >= 1,
            old(self).ctx_depth < MAX_CONTEXT_DEPTH,
        ensures
            final(self).shape_ok(),
            final(self).step == old(self).step,
            final(self).init_length == old(self).init_length,
            final(self).doublings == old(self).doublings,
            final(self).sponge == old(self).sponge,
            final(self).op_acc == old(self).op_acc,
            final(self).cf_op_bits == old(self).cf_op_bits,
            final(self).ld_op_bits == old(self).ld_op_bits,
            final(self).hd_op_bits == old(self).hd_op_bits,
            final(self).loop_stack == old(self).loop_stack,
            final(self).loop_depth == old(self).loop_depth,
            final(self).ctx_depth == old(self).ctx_depth + 1,
            final(self).ctx_stack.len() == if old(self).ctx_depth + 1 > old(self).ctx_stack.len() {
                old(self).ctx_depth + 1
            } else {
                old(self).ctx_stack.len() as int
            },
            cols_kept(old(self).ctx_stack@, final(self).ctx_stack@, old(self).step as int),
            stack_at(final(self).ctx_stack@, final(self).ctx_depth as int, final(self).step as int)
                == seq![old(self).sponge@[0]] + stack_at(
                old(self).ctx_stack@,
                old(self).ctx_depth as int,
                old(self).step - 1,
            ),
            final(self).ctx_stack@[0]@[old(self).step as int] == old(self).sponge@[0],
            forall|i: int|
                1 <= i < final(self).ctx_stack.len() ==> #[trigger] final(self).ctx_stack@[i]@[old(self).step as int]
                    == old(self).ctx_stack@[i - 1]@[old(self).step - 1],
    {
        self.ctx_depth = self.ctx_depth + 1;
        if self.ctx_depth > self.ctx_stack.len() {
            let n = self.op_acc[0].len();
            self.ctx_stack.push(zeros(n));
        }
        let ghost before = self.ctx_stack@;
        shift_right(&mut self.ctx_stack, self.step, self.sponge[0]);
        assert(stack_at(self.ctx_stack@, self.ctx_depth as int, self.step as int) =~= seq![
            old(self).sponge@[0],
        ] + stack_at(old(self).ctx_stack@, old(self).ctx_depth as int, old(self).step - 1));
    }

    /// Removes the top value from the context stack and returns it.
    fn pop_context(&mut self) -> (r: u128)
        requires
            old(self).shape_ok(),
            old(self).step >= 1,
            old(self).ctx_depth > 0,
        ensures
            final(self).shape_ok(),
            final(self).step == old(self).step,
            final(self).init_length == old(self).init_length,
            final(self).doublings == old(self).doublings,
            final(self).sponge == old(self).sponge,
            final(self).op_acc == old(self).op_acc,
            final(self).cf_op_bits == old(self).cf_op_bits,
            final(self).ld_op_bits == old(self).ld_op_bits,
            final(self).hd_op_bits == old(self).hd_op_bits,
            final(self).loop_stack == old(self).loop_stack,
            final(self).loop_depth == old(self).loop_depth,
            final(self).ctx_depth == old(self).ctx_depth - 1,
            final(self).ctx_stack.len() == old(self).ctx_stack.len(),
            cols_kept(old(self).ctx_stack@, final(self).ctx_stack@, old(self).step as int),
            r == old(self).ctx_stack@[0]@[old(self).step - 1],
            is_elem(r),
            stack_at(final(self).ctx_stack@, final(self).ctx_depth as int, final(self).step as int)
                == stack_at(old(self).ctx_stack@, old(self).ctx_depth as int, old(self).step - 1).drop_first(),
            forall|i: int|
                0 <= i < old(self).ctx_stack.len() - 1 ==> #[trigger] final(self).ctx_stack@[i]@[old(self).step as int]
                    == old(self).ctx_stack@[i + 1]@[old(self).step - 1],
            final(self).ctx_stack@[old(self).ctx_stack.len() - 1]@[old(self).step as int] == old(self).ctx_stack@[old(
                self,
            ).ctx_stack.len() - 1]@[old(self).step as int],
    {
        shift_left(&mut self.ctx_stack, self.step);
        assert(cols_elems(self.ctx_stack@)) by {
            assert forall|i: int, j: int|
                0 <= i < self.ctx_stack@.len() && 0 <= j < self.ctx_stack@[i]@.len() implies is_elem(
                #[trigger] self.ctx_stack@[i]@[j],
            ) by {
                if j == self.step && i < self.ctx_stack@.len() - 1 {
                    assert(self.ctx_stack@[i]@[j] == old(self).ctx_stack@[i + 1]@[j - 1]);
                }
            }
        }
        self.ctx_depth = self.ctx_depth - 1;
        assert(stack_at(self.ctx_stack@, self.ctx_depth as int, self.step as int) =~= stack_at(
            old(self).ctx_stack@,
            old(self).ctx_depth as int,
            old(self).step - 1,
        ).drop_first());
        self.ctx_stack[0][self.step - 1]
    }

    /// Copies the context stack from the previous step to the current step.
    fn copy_context_stack(&mut self)
        requires
            old(self).shape_ok(),
            old(self).step >= 1,
        ensures
            final(self).shape_ok(),
            final(self).step == old(self).step,
            final(self).init_length == old(self).init_length,
            final(self).doublings == old(self).doublings,
            final(self).sponge == old(self).sponge,
            final(self).op_acc == old(self).op_acc,
            final(self).cf_op_bits == old(self).cf_op_bits,
            final(self).ld_op_bits == old(self).ld_op_bits,
            final(self).hd_op_bits == old(self).hd_op_bits,
            final(self).loop_stack == old(self).loop_stack,
            final(self).loop_depth == old(self).loop_depth,
            final(self).ctx_depth == old(self).ctx_depth,
            final(self).ctx_stack.len() == old(self).ctx_stack.len(),
            cols_kept(old(self).ctx_stack@, final(self).ctx_stack@, old(self).step as int),
            stack_at(final(self).ctx_stack@, final(self).ctx_depth as int, final(self).step as int)
                == stack_at(old(self).ctx_stack@, old(self).ctx_depth as int, old(self).step - 1),
            forall|i: int|
                0 <= i < old(self).ctx_stack.len() ==> #[trigger] final(self).ctx_stack@[i]@[old(self).step as int]
                    == old(self).ctx_stack@[i]@[old(self).step - 1],
    {
        copy_forward(&mut self.ctx_stack, self.step);
        assert(stack_at(self.ctx_stack@, self.ctx_depth as int, self.step as int) =~= stack_at(
            old(self).ctx_stack@,
            old(self).ctx_depth as int,
            old(self).step - 1,
        ));
    }

    // LOOP STACK HELPERS
    // --------------------------------------------------------------------------------------------

    /// Pushes `loop_image` onto the loop stack.
    fn save_loop_image(&mut self, loop_image: u128)
        requires
            old(self).shape_ok(),
            old(self).step >= 1,
            old(self).loop_depth < MAX_LOOP_DEPTH,
            is_elem(loop_image),
        ensures
            final(self).shape_ok(),
            final(self).step == old(self).step,
            final(self).init_length == old(self).init_length,
            final(self).doublings == old(self).doublings,
            final(self).sponge == old(self).sponge,
            final(self).op_acc == old(self).op_acc,
            final(self).cf_op_bits == old(self).cf_op_bits,
            final(self).ld_op_bits == old(self).ld_op_bits,
            final(self).hd_op_bits == old(self).hd_op_bits,
            final(self).ctx_stack == old(self).ctx_stack,
            final(self).ctx_depth == old(self).ctx_depth,
            final(self).loop_depth == old(self).loop_depth + 1,
            final(self).loop_stack.len() == if old(self).loop_depth + 1 > old(self).loop_stack.len() {
                old(self).loop_depth + 1
            } else {
                old(self).loop_stack.len() as int
            },
            cols_kept(old(self).loop_stack@, final(self).loop_stack@, old(self).step as int),
            stack_at(final(self).loop_stack@, final(self).loop_depth as int, final(self).step as int)
                == seq![loop_image] + stack_at(
                old(self).loop_stack@,
                old(self).loop_depth as int,
                old(self).step - 1,
            ),
            final(self).loop_stack@[0]@[old(self).step as int] == loop_image,
            forall|i: int|
                1 <= i < final(self).loop_stack.len() ==> #[trigger] final(self).loop_stack@[i]@[old(self).step as int]
                    == old(self).loop_stack@[i - 1]@[old(self).step - 1],
    {
        self.loop_depth = self.loop_depth + 1;
        if self.loop_depth > self.loop_stack.len() {
            let n = self.op_acc[0].len();
            self.loop_stack.push(zeros(n));
        }
        shift_right(&mut self.loop_stack, self.step, loop_image);
        assert(stack_at(self.loop_stack@, self.loop_depth as int, self.step as int) =~= seq![
            loop_image,
        ] + stack_at(old(self).loop_stack@, old(self).loop_depth as int, old(self).step - 1));
    }

    /// Copies the loop stack from the previous step to the current step and returns its
    /// top value.
    fn peek_loop_image(&mut self) -> (r: u128)
        requires
            old(self).shape_ok(),
            old(self).step >= 1,
            old(self).loop_depth > 0,
        ensures
            final(self).shape_ok(),
            final(self).step == old(self).step,
            final(self).init_length == old(self).init_length,
            final(self).doublings == old(self).doublings,
            final(self).sponge == old(self).sponge,
            final(self).op_acc == old(self).op_acc,
            final(self).cf_op_bits == old(self).cf_op_bits,
            final(self).ld_op_bits == old(self).ld_op_bits,
            final(self).hd_op_bits == old(self).hd_op_bits,
            final(self).ctx_stack == old(self).ctx_stack,
            final(self).ctx_depth == old(self).ctx_depth,
            final(self).loop_depth == old(self).loop_depth,
            final(self).loop_stack.len() == old(self).loop_stack.len(),
            cols_kept(old(self).loop_stack@, final(self).loop_stack@, old(self).step as int),
            r == old(self).loop_stack@[0]@[old(self).step - 1],
            stack_at(final(self).loop_stack@, final(self).loop_depth as int, final(self).step as int)
                == stack_at(old(self).loop_stack@, old(self).loop_depth as int, old(self).step - 1),
            forall|i: int|
                0 <= i < old(self).loop_stack.len() ==> #[trigger] final(self).loop_stack@[i]@[old(self).step as int]
                    == old(self).loop_stack@[i]@[old(self).step - 1],
    {
        self.copy_loop_stack();
        self.loop_stack[0][self.step]
    }

    /// Removes the top value from the loop stack and returns it.
    fn pop_loop_image(&mut self) -> (r: u128)
        requires
            old(self).shape_ok(),
            old(self).step >= 1,
            old(self).loop_depth > 0,
        ensures
            final(self).shape_ok(),
            final(self).step == old(self).step,
            final(self).init_length == old(self).init_length,
            final(self).doublings == old(self).doublings,
            final(self).sponge == old(self).sponge,
            final(self).op_acc == old(self).op_acc,
            final(self).cf_op_bits == old(self).cf_op_bits,
            final(self).ld_op_bits == old(self).ld_op_bits,
            final(self).hd_op_bits == old(self).hd_op_bits,
            final(self).ctx_stack == old(self).ctx_stack,
            final(self).ctx_depth == old(self).ctx_depth,
            final(self).loop_depth == old(self).loop_depth - 1,
            final(self).loop_stack.len() == old(self).loop_stack.len(),
            cols_kept(old(self).loop_stack@, final(self).loop_stack@, old(self).step as int),
            r == old(self).loop_stack@[0]@[old(self).step - 1],
            stack_at(final(self).loop_stack@, final(self).loop_depth as int, final(self).step as int)
                == stack_at(old(self).loop_stack@, old(self).loop_depth as int, old(self).step - 1).drop_first(),
            forall|i: int|
                0 <= i < old(self).loop_stack.len() - 1 ==> #[trigger] final(self).loop_stack@[i]@[old(self).step as int]
                    == old(self).loop_stack@[i + 1]@[old(self).step - 1],
            old(self).loop_stack.len() > 0 ==> final(self).loop_stack@[old(self).loop_stack.len() - 1]@[old(self).step as int]
                == old(self).loop_stack@[old(self).loop_stack.len() - 1]@[old(self).step as int],
    {
        shift_left(&mut self.loop_stack, self.step);
        assert(cols_elems(self.loop_stack@)) by {
            assert forall|i: int, j: int|
                0 <= i < self.loop_stack@.len() && 0 <= j < self.loop_stack@[i]@.len() implies is_elem(
                #[trigger] self.loop_stack@[i]@[j],
            ) by {
                if j == self.step && i < self.loop_stack@.len() - 1 {
                    assert(self.loop_stack@[i]@[j] == old(self).loop_stack@[i + 1]@[j - 1]);
                }
            }
        }
        self.loop_depth = self.loop_depth - 1;
        assert(stack_at(self.loop_stack@, self.loop_depth as int, self.step as int) =~= stack_at(
            old(self).loop_stack@,
            old(self).loop_depth as int,
            old(self).step - 1,
        ).drop_first());
        self.loop_stack[0][self.step - 1]
    }

    /// Copies the loop stack from the previous step to the current step.
    fn copy_loop_stack(&mut self)
        requires
            old(self).shape_ok(),
            old(self).step >= 1,
        ensures
            final(self).shape_ok(),
            final(self).step == old(self).step,
            final(self).init_length == old(self).init_length,
            final(self).doublings == old(self).doublings,
            final(self).sponge == old(self).sponge,
            final(self).op_acc == old(self).op_acc,
            final(self).cf_op_bits == old(self).cf_op_bits,
            final(self).ld_op_bits == old(self).ld_op_bits,
            final(self).hd_op_bits == old(self).hd_op_bits,
            final(self).ctx_stack == old(self).ctx_stack,
            final(self).ctx_depth == old(self).ctx_depth,
            final(self).loop_depth == old(self).loop_depth,
            final(self).loop_stack.len() == old(self).loop_stack.len(),
            cols_kept(old(self).loop_stack@, final(self).loop_stack@, old(self).step as int),
            forall|i: int|
                0 <= i < old(self).loop_stack.len() ==> #[trigger] final(self).loop_stack@[i]@[old(self).step as int]
                    == old(self).loop_stack@[i]@[old(self).step - 1],
            stack_at(final(self).loop_stack@, final(self).loop_depth as int, final(self).step as int)
                == stack_at(old(self).loop_stack@, old(self).loop_depth as int, old(self).step - 1),
    {
        copy_forward(&mut self.loop_stack, self.step);
        assert(stack_at(self.loop_stack@, self.loop_depth as int, self.step as int) =~= stack_at(
            old(self).loop_stack@,
            old(self).loop_depth as int,
            old(self).step - 1,
        ));
    }

    // HASH ACCUMULATOR HELPERS
    // --------------------------------------------------------------------------------------------

    /// Sets the sponge to `state` and copies it into the accumulator row of the current step.
    fn set_sponge(&mut self, state: [u128; 4])
        requires
            old(self).shape_ok(),
            is_state(state@),
        ensures
            final(self).wf(),
            final(self).step == old(self).step,
            final(self).init_length == old(self).init_length,
            final(self).doublings == old(self).doublings,
            final(self).sponge == state,
            cols_same_but_row(old(self).op_acc@, final(self).op_acc@, old(self).step as int),
            final(self).cf_op_bits == old(self).cf_op_bits,
            final(self).ld_op_bits == old(self).ld_op_bits,
            final(self).hd_op_bits == old(self).hd_op_bits,
            final(self).ctx_stack == old(self).ctx_stack,
            final(self).ctx_depth == old(self).ctx_depth,
            final(self).loop_stack == old(self).loop_stack,
            final(self).loop_depth == old(self).loop_depth,
    {
        self.sponge = state;
        self.op_acc[0][self.step] = state[0];
        self.op_acc[1][self.step] = state[1];
        self.op_acc[2][self.step] = state[2];
        self.op_acc[3][self.step] = state[3];
    }

    /// Applies the hash-accumulator round for `op_code` and `op_value` to the sponge and
    /// copies the result into the accumulator row of the current step.
    fn apply_hacc_round(&mut self, op_code: UserOps, op_value: u128)
        requires
            old(self).shape_ok(),
            old(self).step >= 1,
            is_elem(op_value),
        ensures
            final(self).wf(),
            final(self).step == old(self).step,
            final(self).init_length == old(self).init_length,
            final(self).doublings == old(self).doublings,
            final(self).sponge@ == hacc_round(
                old(self).sponge@,
                user_tag(op_code) as int,
                op_value as int,
                (old(self).step - 1) % 16,
            ),
            cols_same_but_row(old(self).op_acc@, final(self).op_acc@, old(self).step as int),
            final(self).cf_op_bits == old(self).cf_op_bits,
            final(self).ld_op_bits == old(self).ld_op_bits,
            final(self).hd_op_bits == old(self).hd_op_bits,
            final(self).ctx_stack == old(self).ctx_stack,
            final(self).ctx_depth == old(self).ctx_depth,
            final(self).loop_stack == old(self).loop_stack,
            final(self).loop_depth == old(self).loop_depth,
    {
        let ark_idx = (self.step - 1) % BASE_CYCLE_LENGTH;
        let state = accumulator::apply_hacc_round(self.sponge, op_code.code() as u128, op_value, ark_idx);
        self.set_sponge(state);
    }
}

} // verus!
