//! Drives the decoder through a program-block tree.
//!
//! The branch taken by each Switch and the number of iterations of each Loop come from
//! `choices`, read in order: `true` takes the true branch, enters a loop or runs another
//! iteration; `false`, or the end of `choices`, does the opposite.

use crate::opcodes::UserOps;
use crate::processor::decoder::{lemma_step_bound, lemma_views_in_registers, Decoder, DecoderError, MAX_CONTEXT_DEPTH, MAX_LOOP_DEPTH, MAX_STEP};
use crate::programs::blocks::{absorb, hash_acc_spec, lemma_noops_mod, lemma_noops_snoc, noops, pad_count, zero_state, Span};
use crate::programs::flow::{
    block_hash, body_hash, hash_body, hash_seq, seq_hash, lemma_seq_state, seq_state, Group, Loop, ProgramBlock, Switch,
};
use vstd::prelude::*;

verus! {

/// The error of a full trace.
pub open spec fn trace_full() -> DecoderError {
    DecoderError::TraceTooLong(MAX_STEP)
}

/// The choice read at position `nx`: `false` past the end.
pub open spec fn choice(ch: Seq<bool>, nx: int) -> bool {
    0 <= nx < ch.len() && ch[nx]
}

/// The position after reading a choice at `nx`.
pub open spec fn after_choice(ch: Seq<bool>, nx: int) -> int {
    if 0 <= nx < ch.len() {
        nx + 1
    } else {
        nx
    }
}

/// The step after closing a block whose sequence ended at step `s`: padding to cycle
/// position 0, Tend or Fend, and 14 NOOPs.
pub open spec fn close_steps(s: int) -> int {
    s + pad_count(s % 16, 0) + 15
}

/// Closing a block whose sequence run gave `inner`.
pub open spec fn closed(inner: Result<(int, int, int, int), DecoderError>) -> Result<(int, int, int, int), DecoderError> {
    match inner {
        Err(e) => Err(e),
        Ok((s, n, c, l)) => if close_steps(s) <= MAX_STEP {
            Ok((close_steps(s), n, c, l))
        } else {
            Err(trace_full())
        },
    }
}

/// Running the first `k` blocks of `blocks` from step `st` with context depth `cd` and
/// loop depth `ld`, reading choices from `nx`: the step and choice position reached, or
/// the error.
pub open(crate) spec fn seq_run(blocks: Seq<ProgramBlock>, k: int, ch: Seq<bool>, nx: int, st: int, cd: int, ld: int) -> Result<(int, int, int, int), DecoderError>
    decreases blocks, k,
{
    if k <= 0 || k > blocks.len() {
        Ok((st, nx, cd, ld))
    } else {
        match seq_run(blocks, k - 1, ch, nx, st, cd, ld) {
            Err(e) => Err(e),
            Ok((s1, n1, c1, l1)) => match blocks[k - 1] {
                ProgramBlock::Span(sp) => {
                    let s2 = s1 + pad_count(s1 % 16, 0) + sp.instructions@.len();
                    if s2 <= MAX_STEP {
                        Ok((s2, n1, c1, l1))
                    } else {
                        Err(trace_full())
                    }
                },
                _ => {
                    let s2 = s1 + pad_count(s1 % 16, 15);
                    if s2 <= MAX_STEP {
                        match block_run(blocks[k - 1], ch, n1, s2, cd, ld) {
                            Err(e) => Err(e),
                            Ok((s3, n3, c3, l3)) => Ok((s3, n3, imax(c1, c3), imax(l1, l3))),
                        }
                    } else {
                        Err(trace_full())
                    }
                },
            },
        }
    }
}

/// Running a Group, Switch or Loop from step `st`, as `seq_run`.
pub open(crate) spec fn block_run(b: ProgramBlock, ch: Seq<bool>, nx: int, st: int, cd: int, ld: int) -> Result<(int, int, int, int), DecoderError>
    decreases b,
{
    match b {
        ProgramBlock::Span(_) => Ok((st, nx, cd, ld)),
        ProgramBlock::Group(g) => if st >= MAX_STEP {
            Err(trace_full())
        } else if cd >= MAX_CONTEXT_DEPTH {
            Err(DecoderError::StackOverflow((st + 1) as usize))
        } else {
            closed(seq_run(g.blocks@, g.blocks@.len() as int, ch, nx, st + 1, cd + 1, ld))
        },
        ProgramBlock::Switch(w) => {
            let n0 = after_choice(ch, nx);
            if st >= MAX_STEP {
                Err(trace_full())
            } else if cd >= MAX_CONTEXT_DEPTH {
                Err(DecoderError::StackOverflow((st + 1) as usize))
            } else if choice(ch, nx) {
                closed(seq_run(w.t_branch@, w.t_branch@.len() as int, ch, n0, st + 1, cd + 1, ld))
            } else {
                closed(seq_run(w.f_branch@, w.f_branch@.len() as int, ch, n0, st + 1, cd + 1, ld))
            }
        },
        ProgramBlock::Loop(l) => {
            let n0 = after_choice(ch, nx);
            if st >= MAX_STEP {
                Err(trace_full())
            } else if !choice(ch, nx) {
                if cd >= MAX_CONTEXT_DEPTH {
                    Err(DecoderError::StackOverflow((st + 1) as usize))
                } else {
                    closed(seq_run(l.skip@, l.skip@.len() as int, ch, n0, st + 1, cd + 1, ld))
                }
            } else if cd >= MAX_CONTEXT_DEPTH || ld >= MAX_LOOP_DEPTH {
                Err(DecoderError::StackOverflow((st + 1) as usize))
            } else {
                match loop_run(l, ch, n0, st + 1, cd + 1, ld + 1) {
                    Err(e) => Err(e),
                    Ok((s1, n1, c1, l1)) => if s1 + 15 <= MAX_STEP {
                        Ok((s1 + 15, n1, c1, l1))
                    } else {
                        Err(trace_full())
                    },
                }
            }
        },
    }
}

/// Running the iterations of a loop from step `st`: the body, padding to cycle position
/// 15, then Wrap and another iteration while the choices say so, else Break.
pub open(crate) spec fn loop_run(l: Loop, ch: Seq<bool>, nx: int, st: int, cd: int, ld: int) -> Result<(int, int, int, int), DecoderError>
    decreases l, ch.len() - nx,
{
    match seq_run(l.body@, l.body@.len() as int, ch, nx, st, cd, ld) {
        Err(e) => Err(e),
        Ok((s1, n1, c1, l1)) => {
            let s2 = s1 + pad_count(s1 % 16, 15);
            let n2 = after_choice(ch, n1);
            if s2 >= MAX_STEP {
                Err(trace_full())
            } else if choice(ch, n1) && nx < n2 <= ch.len() {
                match loop_run(l, ch, n2, s2 + 1, cd, ld) {
                    Err(e) => Err(e),
                    Ok((s3, n3, c3, l3)) => Ok((s3, n3, imax(c1, c3), imax(l1, l3))),
                }
            } else {
                Ok((s2 + 1, n2, c1, l1))
            }
        },
    }
}

pub open spec fn imax(a: int, b: int) -> int {
    if a >= b {
        a
    } else {
        b
    }
}

/// A run reaches at least the depths it starts from.
proof fn lemma_seq_run_peaks(blocks: Seq<ProgramBlock>, k: int, ch: Seq<bool>, nx: int, st: int, cd: int, ld: int)
    ensures
        seq_run(blocks, k, ch, nx, st, cd, ld) matches Ok((s, n, c, l)) ==> c >= cd && l >= ld,
    decreases blocks, k,
{
    if k > 0 && k <= blocks.len() {
        lemma_seq_run_peaks(blocks, k - 1, ch, nx, st, cd, ld);
    }
}

/// The iterations of a loop reach at least the depths they start from.
proof fn lemma_loop_run_peaks(l: Loop, ch: Seq<bool>, nx: int, st: int, cd: int, ld: int)
    ensures
        loop_run(l, ch, nx, st, cd, ld) matches Ok((s, n, c, lp)) ==> c >= cd && lp >= ld,
    decreases ch.len() - nx,
{
    lemma_seq_run_peaks(l.body@, l.body@.len() as int, ch, nx, st, cd, ld);
    match seq_run(l.body@, l.body@.len() as int, ch, nx, st, cd, ld) {
        Ok((s1, n1, c1, l1)) => {
            let s2 = s1 + pad_count(s1 % 16, 15);
            let n2 = after_choice(ch, n1);
            if s2 < MAX_STEP && choice(ch, n1) && nx < n2 <= ch.len() {
                lemma_loop_run_peaks(l, ch, n2, s2 + 1, cd, ld);
            }
        },
        Err(_) => {},
    }
}

/// Once a block of a sequence fails, the sequence fails with it.
proof fn lemma_seq_run_error(blocks: Seq<ProgramBlock>, k: int, m: int, ch: Seq<bool>, nx: int, st: int, cd: int, ld: int)
    requires
        0 <= k <= m <= blocks.len(),
        seq_run(blocks, k, ch, nx, st, cd, ld) is Err,
    ensures
        seq_run(blocks, m, ch, nx, st, cd, ld) == seq_run(blocks, k, ch, nx, st, cd, ld),
    decreases m - k,
{
    if k < m {
        lemma_seq_run_error(blocks, k, m - 1, ch, nx, st, cd, ld);
    }
}

/// `r` is what the run `res` gives: the step and choice position reached, or the error.
/// The maximum depths become the larger of what they were and the depths the run reached.
pub open spec fn ran(r: Result<(), DecoderError>, res: Result<(int, int, int, int), DecoderError>, old: Decoder, d: Decoder, next: usize) -> bool {
    match res {
        Ok((s, n, c, l)) => r is Ok && d.spec_step() == s && next == n && d.ctx_registers() == imax(
            old.ctx_registers() as int,
            c,
        ) && d.loop_registers() == imax(old.loop_registers() as int, l),
        Err(e) => r == Err::<(), DecoderError>(e),
    }
}

/// Fails when one more step would pass the trace limit.
fn check_room(decoder: &Decoder) -> (r: Result<(), DecoderError>)
    requires
        decoder.wf(),
    ensures
        r is Ok <==> decoder.spec_step() < MAX_STEP,
        r matches Err(e) ==> e == trace_full(),
{
    proof {
        lemma_step_bound(decoder);
    }
    if decoder.current_step() >= MAX_STEP {
        return Err(DecoderError::TraceTooLong(decoder.current_step()));
    }
    Ok(())
}

/// Applies `n` NOOPs.
pub fn run_noops(decoder: &mut Decoder, n: usize) -> (r: Result<(), DecoderError>)
    requires
        old(decoder).wf(),
    ensures
        final(decoder).wf(),
        final(decoder).ctx_registers() == old(decoder).ctx_registers(),
        final(decoder).loop_registers() == old(decoder).loop_registers(),
        final(decoder).spec_init_length() == old(decoder).spec_init_length(),
        r is Ok <==> old(decoder).spec_step() + n <= MAX_STEP,
        r matches Err(e) ==> e == trace_full(),
        r is Ok ==> {
            &&& final(decoder).spec_step() == old(decoder).spec_step() + n
            &&& final(decoder).spec_sponge() == noops(
                old(decoder).spec_sponge(),
                old(decoder).spec_step() as int,
                n as nat,
            )
            &&& final(decoder).ctx_view() == old(decoder).ctx_view()
            &&& final(decoder).loop_view() == old(decoder).loop_view()
        },
{
    proof {
        lemma_step_bound(decoder);
    }
    let mut i: usize = 0;
    while i < n
        invariant
            i <= n,
            old(decoder).spec_step() + i <= MAX_STEP,
            decoder.wf(),
            decoder.ctx_registers() == old(decoder).ctx_registers(),
            decoder.loop_registers() == old(decoder).loop_registers(),
            decoder.spec_init_length() == old(decoder).spec_init_length(),
            decoder.spec_step() == old(decoder).spec_step() + i,
            decoder.spec_sponge() == noops(old(decoder).spec_sponge(), old(decoder).spec_step() as int, i as nat),
            decoder.ctx_view() == old(decoder).ctx_view(),
            decoder.loop_view() == old(decoder).loop_view(),
        decreases n - i,
    {
        if let Err(e) = check_room(decoder) {
            return Err(e);
        }
        proof {
            lemma_noops_snoc(old(decoder).spec_sponge(), old(decoder).spec_step() as int, i as nat);
        }
        decoder.decode_op(UserOps::Noop, 0);
        i += 1;
    }
    Ok(())
}

/// Reads the next choice; `false` once they are used up.
fn next_choice(choices: &Vec<bool>, next: &mut usize) -> (r: bool)
    requires
        *old(next) <= choices@.len(),
    ensures
        *old(next) <= *final(next) <= choices@.len(),
        r == choice(choices@, *old(next) as int),
        *final(next) == after_choice(choices@, *old(next) as int),
{
    if *next < choices.len() {
        let c = choices[*next];
        *next = *next + 1;
        c
    } else {
        false
    }
}

/// Applies the operations of `span`, which starts at cycle position 0.
pub fn execute_span(decoder: &mut Decoder, span: &Span) -> (r: Result<(), DecoderError>)
    requires
        old(decoder).wf(),
        old(decoder).spec_step() % 16 == 0,
    ensures
        final(decoder).wf(),
        final(decoder).ctx_registers() == old(decoder).ctx_registers(),
        final(decoder).loop_registers() == old(decoder).loop_registers(),
        final(decoder).spec_init_length() == old(decoder).spec_init_length(),
        r is Ok <==> old(decoder).spec_step() + span.instructions@.len() <= MAX_STEP,
        r matches Err(e) ==> e == trace_full(),
        r is Ok ==> {
            &&& final(decoder).spec_step() == old(decoder).spec_step() + span.instructions@.len()
            &&& final(decoder).spec_sponge() == absorb(
                old(decoder).spec_sponge(),
                span.instructions@,
                span.instructions@.len() as int,
            )
            &&& final(decoder).ctx_view() == old(decoder).ctx_view()
            &&& final(decoder).loop_view() == old(decoder).loop_view()
        },
{
    proof {
        lemma_step_bound(decoder);
    }
    let mut i: usize = 0;
    while i < span.instructions.len()
        invariant
            i <= span.instructions@.len(),
            old(decoder).spec_step() + i <= MAX_STEP,
            decoder.wf(),
            decoder.ctx_registers() == old(decoder).ctx_registers(),
            decoder.loop_registers() == old(decoder).loop_registers(),
            decoder.spec_init_length() == old(decoder).spec_init_length(),
            old(decoder).spec_step() % 16 == 0,
            decoder.spec_step() == old(decoder).spec_step() + i,
            decoder.spec_sponge() == absorb(old(decoder).spec_sponge(), span.instructions@, i as int),
            decoder.ctx_view() == old(decoder).ctx_view(),
            decoder.loop_view() == old(decoder).loop_view(),
        decreases span.instructions.len() - i,
    {
        if let Err(e) = check_room(decoder) {
            return Err(e);
        }
        decoder.decode_op(span.instructions[i], 0);
        i += 1;
    }
    Ok(())
}

/// Executes span `i` of `blocks`, after the blocks before it.
#[verifier::rlimit(100)]
fn execute_span_element(
    decoder: &mut Decoder,
    blocks: &Vec<ProgramBlock>,
    i: usize,
    choices: &Vec<bool>,
    next: &mut usize,
    nx0: Ghost<int>,
    st0: Ghost<int>,
    cd: Ghost<int>,
    ld: Ghost<int>,
) -> (r: Result<(), DecoderError>)
    requires
        old(decoder).wf(),
        i < blocks@.len(),
        blocks@[i as int] is Span,
        *old(next) <= choices@.len(),
        seq_run(blocks@, i as int, choices@, nx0@, st0@, cd@, ld@) matches Ok((s, n, c, l)) && s
            == old(decoder).spec_step() && n == *old(next) && c <= old(decoder).ctx_registers() && l
            <= old(decoder).loop_registers(),
        old(decoder).spec_sponge() == seq_state(blocks@, i as int).0,
        old(decoder).spec_step() % 16 == seq_state(blocks@, i as int).1,
        old(decoder).ctx_view().len() == cd@,
        old(decoder).loop_view().len() == ld@,
    ensures
        final(decoder).wf(),
        final(decoder).spec_init_length() == old(decoder).spec_init_length(),
        *old(next) <= *final(next) <= choices@.len(),
        ran(r, seq_run(blocks@, i + 1, choices@, nx0@, st0@, cd@, ld@), *old(decoder), *final(decoder), *final(next)),
        r is Ok ==> {
            &&& final(decoder).spec_sponge() == seq_state(blocks@, i + 1).0
            &&& final(decoder).spec_step() % 16 == seq_state(blocks@, i + 1).1
            &&& final(decoder).ctx_view() == old(decoder).ctx_view()
            &&& final(decoder).loop_view() == old(decoder).loop_view()
        },
    decreases blocks, 0int,
{
    proof {
        lemma_seq_state(blocks@, i as int);
    }
    let pos = decoder.current_step() % 16;
    let ghost sponge_start = decoder.spec_sponge();
    let ghost step_start = decoder.spec_step();
    match &blocks[i] {
        ProgramBlock::Span(span) => {
            if let Err(e) = run_noops(decoder, (16 - pos) % 16) {
                return Err(e);
            }
            proof {
                lemma_noops_mod(sponge_start, step_start as int, pad_count(pos as int, 0));
            }
            execute_span(decoder, span)
        },
        _ => Ok(()),
    }
}

/// Executes block `i` of `blocks` (a Group, Switch or Loop), after the blocks before it.
#[verifier::rlimit(100)]
fn execute_block_element(
    decoder: &mut Decoder,
    blocks: &Vec<ProgramBlock>,
    i: usize,
    choices: &Vec<bool>,
    next: &mut usize,
    nx0: Ghost<int>,
    st0: Ghost<int>,
    cd: Ghost<int>,
    ld: Ghost<int>,
) -> (r: Result<(), DecoderError>)
    requires
        old(decoder).wf(),
        i < blocks@.len(),
        !(blocks@[i as int] is Span),
        *old(next) <= choices@.len(),
        seq_run(blocks@, i as int, choices@, nx0@, st0@, cd@, ld@) matches Ok((s, n, c, l)) && s
            == old(decoder).spec_step() && n == *old(next) && c <= old(decoder).ctx_registers() && l
            <= old(decoder).loop_registers(),
        old(decoder).spec_sponge() == seq_state(blocks@, i as int).0,
        old(decoder).spec_step() % 16 == seq_state(blocks@, i as int).1,
        old(decoder).ctx_view().len() == cd@,
        old(decoder).loop_view().len() == ld@,
    ensures
        final(decoder).wf(),
        final(decoder).spec_init_length() == old(decoder).spec_init_length(),
        *old(next) <= *final(next) <= choices@.len(),
        ran(r, seq_run(blocks@, i + 1, choices@, nx0@, st0@, cd@, ld@), *old(decoder), *final(decoder), *final(next)),
        r is Ok ==> {
            &&& final(decoder).spec_sponge() == seq_state(blocks@, i + 1).0
            &&& final(decoder).spec_step() % 16 == seq_state(blocks@, i + 1).1
            &&& final(decoder).ctx_view() == old(decoder).ctx_view()
            &&& final(decoder).loop_view() == old(decoder).loop_view()
        },
    decreases blocks, 0int,
{
    proof {
        vstd::std_specs::vec::axiom_vec_index_decreases(*blocks, i as int);
        lemma_seq_state(blocks@, i as int);
    }
    let pos = decoder.current_step() % 16;
    let ghost sponge_start = decoder.spec_sponge();
    let ghost step_start = decoder.spec_step();
    if let Err(e) = run_noops(decoder, (31 - pos) % 16) {
        return Err(e);
    }
    proof {
        lemma_noops_mod(sponge_start, step_start as int, pad_count(pos as int, 15));
    }
    execute_block(decoder, &blocks[i], choices, next)
}

/// Executes block `i` of `blocks`, after the blocks before it.
#[verifier::rlimit(100)]
fn execute_element(
    decoder: &mut Decoder,
    blocks: &Vec<ProgramBlock>,
    i: usize,
    choices: &Vec<bool>,
    next: &mut usize,
    nx0: Ghost<int>,
    st0: Ghost<int>,
    cd: Ghost<int>,
    ld: Ghost<int>,
) -> (r: Result<(), DecoderError>)
    requires
        old(decoder).wf(),
        i < blocks@.len(),
        *old(next) <= choices@.len(),
        seq_run(blocks@, i as int, choices@, nx0@, st0@, cd@, ld@) matches Ok((s, n, c, l)) && s
            == old(decoder).spec_step() && n == *old(next) && c <= old(decoder).ctx_registers() && l
            <= old(decoder).loop_registers(),
        old(decoder).spec_sponge() == seq_state(blocks@, i as int).0,
        old(decoder).spec_step() % 16 == seq_state(blocks@, i as int).1,
        old(decoder).ctx_view().len() == cd@,
        old(decoder).loop_view().len() == ld@,
    ensures
        final(decoder).wf(),
        final(decoder).spec_init_length() == old(decoder).spec_init_length(),
        *old(next) <= *final(next) <= choices@.len(),
        ran(r, seq_run(blocks@, i + 1, choices@, nx0@, st0@, cd@, ld@), *old(decoder), *final(decoder), *final(next)),
        r is Ok ==> {
            &&& final(decoder).spec_sponge() == seq_state(blocks@, i + 1).0
            &&& final(decoder).spec_step() % 16 == seq_state(blocks@, i + 1).1
            &&& final(decoder).ctx_view() == old(decoder).ctx_view()
            &&& final(decoder).loop_view() == old(decoder).loop_view()
        },
    decreases blocks, 1int,
{
    if blocks[i].is_span() {
        execute_span_element(decoder, blocks, i, choices, next, nx0, st0, cd, ld)
    } else {
        execute_block_element(decoder, blocks, i, choices, next, nx0, st0, cd, ld)
    }
}


/// Executes `blocks`, which start at cycle position 0; the state reached is the one the
/// static hash of the sequence gives, before its closing padding.
#[verifier::rlimit(100)]
pub fn execute_seq(decoder: &mut Decoder, blocks: &Vec<ProgramBlock>, choices: &Vec<bool>, next: &mut usize) -> (r: Result<(), DecoderError>)
    requires
        old(decoder).wf(),
        old(decoder).spec_step() % 16 == 0,
        old(decoder).spec_sponge() == zero_state(),
        *old(next) <= choices@.len(),
    ensures
        final(decoder).wf(),
        final(decoder).spec_init_length() == old(decoder).spec_init_length(),
        ran(r, seq_run(blocks@, blocks@.len() as int, choices@, *old(next) as int, old(decoder).spec_step() as int, old(decoder).ctx_view().len() as int, old(decoder).loop_view().len() as int), *old(decoder), *final(decoder), *final(next)),
        *old(next) <= *final(next) <= choices@.len(),
        r is Ok ==> {
            &&& final(decoder).spec_sponge() == seq_state(blocks@, blocks@.len() as int).0
            &&& final(decoder).spec_step() % 16 == seq_state(blocks@, blocks@.len() as int).1
            &&& final(decoder).ctx_view() == old(decoder).ctx_view()
            &&& final(decoder).loop_view() == old(decoder).loop_view()
        },
    decreases blocks, 2int,
{
    proof {
        lemma_views_in_registers(decoder);
    }
    let ghost nx0 = *old(next) as int;
    let ghost st0 = old(decoder).spec_step() as int;
    let ghost cd = old(decoder).ctx_view().len() as int;
    let ghost ld = old(decoder).loop_view().len() as int;
    let mut i: usize = 0;
    while i < blocks.len()
        invariant
            i <= blocks@.len(),
            decoder.wf(),
            decoder.spec_init_length() == old(decoder).spec_init_length(),
            *old(next) <= *next <= choices@.len(),
            seq_run(blocks@, i as int, choices@, nx0, st0, cd, ld) matches Ok((s, n, c, l)) && s
                == decoder.spec_step() && n == *next && decoder.ctx_registers() == imax(
                old(decoder).ctx_registers() as int,
                c,
            ) && decoder.loop_registers() == imax(old(decoder).loop_registers() as int, l),
            decoder.spec_sponge() == seq_state(blocks@, i as int).0,
            decoder.spec_step() % 16 == seq_state(blocks@, i as int).1,
            decoder.ctx_view() == old(decoder).ctx_view(),
            decoder.loop_view() == old(decoder).loop_view(),
            nx0 == *old(next) as int,
            st0 == old(decoder).spec_step() as int,
            cd == old(decoder).ctx_view().len() as int,
            ld == old(decoder).loop_view().len() as int,
        decreases blocks.len() - i,
    {
        if let Err(e) = execute_element(decoder, blocks, i, choices, next, Ghost(nx0), Ghost(st0), Ghost(cd), Ghost(ld)) {
            proof {
                lemma_seq_run_error(blocks@, i + 1, blocks@.len() as int, choices@, nx0, st0, cd, ld);
            }
            return Err(e);
        }
        i += 1;
    }
    Ok(())
}

/// Pads `decoder` to cycle position 0 and closes the block with `end_block`.
fn close_block(decoder: &mut Decoder, sibling_hash: u128, true_branch: bool) -> (r: Result<(), DecoderError>)
    requires
        old(decoder).wf(),
        crate::field::is_elem(sibling_hash),
        old(decoder).ctx_view().len() > 0,
    ensures
        final(decoder).wf(),
        final(decoder).ctx_registers() == old(decoder).ctx_registers(),
        final(decoder).loop_registers() == old(decoder).loop_registers(),
        final(decoder).spec_init_length() == old(decoder).spec_init_length(),
        r is Ok <==> old(decoder).spec_step() + pad_count((old(decoder).spec_step() % 16) as int, 0) + 1 <= MAX_STEP,
        r is Ok ==> final(decoder).spec_step() == old(decoder).spec_step() + pad_count((old(decoder).spec_step() % 16) as int, 0) + 1,
        r matches Err(e) ==> e == trace_full(),
        r is Ok ==> {
            let h = noops(
                old(decoder).spec_sponge(),
                (old(decoder).spec_step() % 16) as int,
                pad_count((old(decoder).spec_step() % 16) as int, 0),
            )[0];
            &&& final(decoder).spec_step() % 16 == 1
            &&& final(decoder).spec_sponge() == if true_branch {
                seq![old(decoder).ctx_view()[0], h, sibling_hash, 0u128]
            } else {
                seq![old(decoder).ctx_view()[0], sibling_hash, h, 0u128]
            }
            &&& final(decoder).ctx_view() == old(decoder).ctx_view().drop_first()
            &&& final(decoder).loop_view() == old(decoder).loop_view()
        },
{
    let pos = decoder.current_step() % 16;
    proof {
        lemma_noops_mod(old(decoder).spec_sponge(), old(decoder).spec_step() as int, pad_count(pos as int, 0));
    }
    if let Err(e) = run_noops(decoder, (16 - pos) % 16) {
        return Err(e);
    }
    if let Err(e) = check_room(decoder) {
        return Err(e);
    }
    decoder.end_block(sibling_hash, true_branch);
    Ok(())
}

/// Carries the state after Tend or Fend to cycle position 15.
fn finish_block(decoder: &mut Decoder) -> (r: Result<(), DecoderError>)
    requires
        old(decoder).wf(),
        old(decoder).spec_step() % 16 == 1,
    ensures
        final(decoder).wf(),
        final(decoder).ctx_registers() == old(decoder).ctx_registers(),
        final(decoder).loop_registers() == old(decoder).loop_registers(),
        final(decoder).spec_init_length() == old(decoder).spec_init_length(),
        r is Ok <==> old(decoder).spec_step() + 14 <= MAX_STEP,
        r is Ok ==> final(decoder).spec_step() == old(decoder).spec_step() + 14,
        r matches Err(e) ==> e == trace_full(),
        r is Ok ==> {
            &&& final(decoder).spec_step() % 16 == 15
            &&& final(decoder).spec_sponge() == noops(old(decoder).spec_sponge(), 1, 14)
            &&& final(decoder).ctx_view() == old(decoder).ctx_view()
            &&& final(decoder).loop_view() == old(decoder).loop_view()
        },
{
    proof {
        lemma_noops_mod(old(decoder).spec_sponge(), old(decoder).spec_step() as int, 14);
    }
    run_noops(decoder, 14)
}

/// Runs `program` on a new decoder whose traces start with `init_trace_length` rows, and
/// finalizes the trace. The decoder starts inside the program, as if after its Begin:
/// the program runs from step 0 and ends with Tend and the padding to cycle position 15.
/// The final sponge is the static hash of the program from the zero state.
pub fn execute_program(program: &Group, choices: &Vec<bool>, init_trace_length: usize) -> (r: Result<Decoder, DecoderError>)
    requires
        init_trace_length >= 1,
    ensures
        match closed(seq_run(program.spec_blocks(), program.spec_blocks().len() as int, choices@, 0, 0, 1, 0)) {
            Ok((s, n, c, l)) => r matches Ok(d) && d.spec_step() == s && d.ctx_registers() == imax(1, c)
                && d.loop_registers() == imax(0, l),
            Err(e) => r matches Err(x) && x == e,
        },
        r matches Ok(d) ==> {
            &&& d.wf()
            &&& d.spec_init_length() == init_trace_length
            &&& d.spec_sponge() == block_hash(ProgramBlock::Group(*program), zero_state())
            &&& d.spec_step() % 16 == 15
            &&& d.ctx_view() == Seq::<u128>::empty()
            &&& d.loop_view() == Seq::<u128>::empty()
        },
{
    proof {
        crate::programs::flow::lemma_group_blocks(program);
    }
    let mut decoder = Decoder::new(init_trace_length);
    let mut next: usize = 0;
    if let Err(e) = execute_seq(&mut decoder, &program.blocks, choices, &mut next) {
        return Err(e);
    }
    if let Err(e) = close_block(&mut decoder, 0, true) {
        return Err(e);
    }
    if let Err(e) = finish_block(&mut decoder) {
        return Err(e);
    }
    decoder.finalize_trace();
    Ok(decoder)
}

/// Executes a Group, Switch or Loop that starts at cycle position 15. On success the
/// sponge holds exactly the static hash of the block from the sponge it started with.
pub fn execute_block(decoder: &mut Decoder, block: &ProgramBlock, choices: &Vec<bool>, next: &mut usize) -> (r: Result<(), DecoderError>)
    requires
        old(decoder).wf(),
        old(decoder).spec_step() % 16 == 15,
        !(*block is Span),
        *old(next) <= choices@.len(),
    ensures
        final(decoder).wf(),
        final(decoder).spec_init_length() == old(decoder).spec_init_length(),
        ran(r, block_run(*block, choices@, *old(next) as int, old(decoder).spec_step() as int, old(decoder).ctx_view().len() as int, old(decoder).loop_view().len() as int), *old(decoder), *final(decoder), *final(next)),
        *old(next) <= *final(next) <= choices@.len(),
        r is Ok ==> {
            &&& final(decoder).spec_sponge() == block_hash(*block, old(decoder).spec_sponge())
            &&& final(decoder).spec_step() % 16 == 15
            &&& final(decoder).ctx_view() == old(decoder).ctx_view()
            &&& final(decoder).loop_view() == old(decoder).loop_view()
        },
    decreases block, 2int,
{
    match block {
        ProgramBlock::Group(g) => {
            proof {
                assert(decreases_to!(*block => block->Group_0));
            }
            execute_group(decoder, g, choices, next)
        },
        ProgramBlock::Switch(w) => {
            proof {
                assert(decreases_to!(*block => block->Switch_0));
            }
            execute_switch(decoder, w, choices, next)
        },
        ProgramBlock::Loop(l) => {
            proof {
                assert(decreases_to!(*block => block->Loop_0));
            }
            execute_loop(decoder, l, choices, next)
        },
        ProgramBlock::Span(_) => Ok(()),
    }
}

/// Runs Begin, the sequence `blocks`, then Tend (or Fend when `true_branch` is false)
/// with `sibling` as the hash of the other branch, and the padding to cycle position 15.
#[verifier::rlimit(100)]
fn execute_branch(decoder: &mut Decoder, blocks: &Vec<ProgramBlock>, sibling: u128, true_branch: bool, choices: &Vec<bool>, next: &mut usize) -> (r: Result<(), DecoderError>)
    requires
        old(decoder).wf(),
        old(decoder).spec_step() % 16 == 15,
        *old(next) <= choices@.len(),
        crate::field::is_elem(sibling),
    ensures
        final(decoder).wf(),
        final(decoder).spec_init_length() == old(decoder).spec_init_length(),
        *old(next) <= *final(next) <= choices@.len(),
        ran(
            r,
            if old(decoder).spec_step() >= MAX_STEP {
                Err(trace_full())
            } else if old(decoder).ctx_view().len() >= MAX_CONTEXT_DEPTH {
                Err(DecoderError::StackOverflow((old(decoder).spec_step() + 1) as usize))
            } else {
                closed(seq_run(blocks@, blocks@.len() as int, choices@, *old(next) as int, (old(decoder).spec_step() + 1) as int, (old(decoder).ctx_view().len() + 1) as int, old(decoder).loop_view().len() as int))
            },
            *old(decoder),
            *final(decoder),
            *final(next),
        ),
        r is Ok ==> {
            &&& final(decoder).spec_sponge() == if true_branch {
                hash_acc_spec(old(decoder).spec_sponge()[0], seq_hash(blocks@), sibling)
            } else {
                hash_acc_spec(old(decoder).spec_sponge()[0], sibling, seq_hash(blocks@))
            }
            &&& final(decoder).spec_step() % 16 == 15
            &&& final(decoder).ctx_view() == old(decoder).ctx_view()
            &&& final(decoder).loop_view() == old(decoder).loop_view()
        },
    decreases blocks, 3int,
{
    proof {
        lemma_views_in_registers(decoder);
        lemma_seq_run_peaks(
            blocks@,
            blocks@.len() as int,
            choices@,
            *old(next) as int,
            (old(decoder).spec_step() + 1) as int,
            (old(decoder).ctx_view().len() + 1) as int,
            old(decoder).loop_view().len() as int,
        );
    }
    if let Err(e) = check_room(decoder) {
        return Err(e);
    }
    if let Err(e) = decoder.check_start_block() {
        return Err(e);
    }
    decoder.start_block();
    if let Err(e) = execute_seq(decoder, blocks, choices, next) {
        return Err(e);
    }
    if let Err(e) = close_block(decoder, sibling, true_branch) {
        return Err(e);
    }
    finish_block(decoder)
}

/// Executes a group: Begin, its blocks, Tend.
#[verifier::rlimit(100)]
fn execute_group(decoder: &mut Decoder, g: &Group, choices: &Vec<bool>, next: &mut usize) -> (r: Result<(), DecoderError>)
    requires
        old(decoder).wf(),
        old(decoder).spec_step() % 16 == 15,
        *old(next) <= choices@.len(),
    ensures
        final(decoder).wf(),
        final(decoder).spec_init_length() == old(decoder).spec_init_length(),
        ran(r, block_run(ProgramBlock::Group(*g), choices@, *old(next) as int, old(decoder).spec_step() as int, old(decoder).ctx_view().len() as int, old(decoder).loop_view().len() as int), *old(decoder), *final(decoder), *final(next)),
        *old(next) <= *final(next) <= choices@.len(),
        r is Ok ==> {
            &&& final(decoder).spec_sponge() == block_hash(ProgramBlock::Group(*g), old(decoder).spec_sponge())
            &&& final(decoder).spec_step() % 16 == 15
            &&& final(decoder).ctx_view() == old(decoder).ctx_view()
            &&& final(decoder).loop_view() == old(decoder).loop_view()
        },
    decreases g, 1int,
{
    proof {
        assert(decreases_to!(*g => g.blocks));
    }
    execute_branch(decoder, &g.blocks, 0, true, choices, next)
}

/// Executes a switch: Begin, the chosen branch, then Tend or Fend.
#[verifier::rlimit(100)]
fn execute_switch(decoder: &mut Decoder, w: &Switch, choices: &Vec<bool>, next: &mut usize) -> (r: Result<(), DecoderError>)
    requires
        old(decoder).wf(),
        old(decoder).spec_step() % 16 == 15,
        *old(next) <= choices@.len(),
    ensures
        final(decoder).wf(),
        final(decoder).spec_init_length() == old(decoder).spec_init_length(),
        ran(r, block_run(ProgramBlock::Switch(*w), choices@, *old(next) as int, old(decoder).spec_step() as int, old(decoder).ctx_view().len() as int, old(decoder).loop_view().len() as int), *old(decoder), *final(decoder), *final(next)),
        *old(next) <= *final(next) <= choices@.len(),
        r is Ok ==> {
            &&& final(decoder).spec_sponge() == block_hash(ProgramBlock::Switch(*w), old(decoder).spec_sponge())
            &&& final(decoder).spec_step() % 16 == 15
            &&& final(decoder).ctx_view() == old(decoder).ctx_view()
            &&& final(decoder).loop_view() == old(decoder).loop_view()
        },
    decreases w, 1int,
{
    proof {
        assert(decreases_to!(*w => w.t_branch));
        assert(decreases_to!(*w => w.f_branch));
    }
    let take_true = next_choice(choices, next);
    if take_true {
        let sibling = hash_seq(&w.f_branch);
        execute_branch(decoder, &w.t_branch, sibling, true, choices, next)
    } else {
        let sibling = hash_seq(&w.t_branch);
        execute_branch(decoder, &w.f_branch, sibling, false, choices, next)
    }
}

/// Runs the iterations of a loop whose Loop has been applied: the body, padding to cycle
/// position 15, then Wrap and another iteration while the choices say so, else Break.
#[verifier::rlimit(100)]
fn run_iterations(
    decoder: &mut Decoder,
    l: &Loop,
    choices: &Vec<bool>,
    next: &mut usize,
    ctx_top: Ghost<u128>,
    outer_ctx: Ghost<Seq<u128>>,
    outer_loops: Ghost<Seq<u128>>,
    image: u128,
) -> (r: Result<(), DecoderError>)
    requires
        old(decoder).wf(),
        *old(next) <= choices@.len(),
        old(decoder).spec_step() % 16 == 0,
        old(decoder).spec_sponge() == zero_state(),
        image == body_hash(l.body@),
        old(decoder).ctx_view() == seq![ctx_top@] + outer_ctx@,
        old(decoder).loop_view() == seq![image] + outer_loops@,
    ensures
        final(decoder).wf(),
        final(decoder).spec_init_length() == old(decoder).spec_init_length(),
        *old(next) <= *final(next) <= choices@.len(),
        ran(r, loop_run(*l, choices@, *old(next) as int, old(decoder).spec_step() as int, old(decoder).ctx_view().len() as int, old(decoder).loop_view().len() as int), *old(decoder), *final(decoder), *final(next)),
        r is Ok ==> {
            &&& final(decoder).spec_step() % 16 == 0
            &&& final(decoder).spec_sponge()[0] == image
            &&& final(decoder).ctx_view() == seq![ctx_top@] + outer_ctx@
            &&& final(decoder).loop_view() == outer_loops@
        },
    decreases l, 0int, choices@.len() - *old(next),
{
    proof {
        assert(decreases_to!(*l => l.body));
    }
    if let Err(e) = execute_seq(decoder, &l.body, choices, next) {
        return Err(e);
    }
    let pos = decoder.current_step() % 16;
    let ghost s1 = decoder.spec_sponge();
    let ghost st1 = decoder.spec_step();
    if let Err(e) = run_noops(decoder, (31 - pos) % 16) {
        return Err(e);
    }
    proof {
        lemma_noops_mod(s1, st1 as int, pad_count(pos as int, 15));
        assert(decoder.spec_sponge()[0] == body_hash(l.body@));
    }
    if let Err(e) = check_room(decoder) {
        return Err(e);
    }
    let again = next_choice(choices, next);
    if again {
        decoder.wrap_loop();
        run_iterations(decoder, l, choices, next, ctx_top, outer_ctx, outer_loops, image)
    } else {
        decoder.break_loop();
        proof {
            assert(decoder.spec_sponge()[0] == image);
            assert(decoder.loop_view() =~= outer_loops@);
            assert(decoder.spec_step() % 16 == 0);
        }
        Ok(())
    }
}

/// Executes a loop: the skip branch when the first choice is false; otherwise Loop, then
/// the body followed by Wrap while choices are true, and Break, then Tend.
#[verifier::rlimit(100)]
fn execute_loop(decoder: &mut Decoder, l: &Loop, choices: &Vec<bool>, next: &mut usize) -> (r: Result<(), DecoderError>)
    requires
        old(decoder).wf(),
        old(decoder).spec_step() % 16 == 15,
        *old(next) <= choices@.len(),
    ensures
        final(decoder).wf(),
        final(decoder).spec_init_length() == old(decoder).spec_init_length(),
        ran(r, block_run(ProgramBlock::Loop(*l), choices@, *old(next) as int, old(decoder).spec_step() as int, old(decoder).ctx_view().len() as int, old(decoder).loop_view().len() as int), *old(decoder), *final(decoder), *final(next)),
        *old(next) <= *final(next) <= choices@.len(),
        r is Ok ==> {
            &&& final(decoder).spec_sponge() == block_hash(ProgramBlock::Loop(*l), old(decoder).spec_sponge())
            &&& final(decoder).spec_step() % 16 == 15
            &&& final(decoder).ctx_view() == old(decoder).ctx_view()
            &&& final(decoder).loop_view() == old(decoder).loop_view()
        },
    decreases l, 1int,
{
    let ghost s0 = decoder.spec_sponge();
    proof {
        assert(decreases_to!(*l => l.body));
        assert(decreases_to!(*l => l.skip));
    }
    proof {
        lemma_views_in_registers(decoder);
        lemma_loop_run_peaks(
            *l,
            choices@,
            after_choice(choices@, *old(next) as int),
            (old(decoder).spec_step() + 1) as int,
            (old(decoder).ctx_view().len() + 1) as int,
            (old(decoder).loop_view().len() + 1) as int,
        );
    }
    let enter = next_choice(choices, next);
    if let Err(e) = check_room(decoder) {
        return Err(e);
    }
    if !enter {
        // the condition is false: run the skip branch
        let sibling = hash_body(&l.body);
        return execute_branch(decoder, &l.skip, sibling, false, choices, next);
    }
    let image = hash_body(&l.body);
    if let Err(e) = decoder.check_start_loop() {
        return Err(e);
    }
    decoder.start_loop(image);
    if let Err(e) = run_iterations(decoder, l, choices, next, Ghost(s0[0]), Ghost(old(decoder).ctx_view()), Ghost(old(decoder).loop_view()), image) {
        return Err(e);
    }
    let sibling = hash_seq(&l.skip);
    if let Err(e) = check_room(decoder) {
        return Err(e);
    }
    decoder.end_block(sibling, true);
    finish_block(decoder)
}

} // verus!
