//! Spans and the static hash of block sequences.
//!
//! Hashing follows the decoder's 16-step cycle. A sequence of blocks starts at cycle
//! position 0. A Span starts at position 0 and absorbs its operations with the round
//! constants of their index; a Group, Switch or Loop starts at position 15 and leaves the
//! cycle at position 15. Between elements, and at the end of a sequence, `Noop` rounds
//! pad the cycle to the position that comes next.
use crate::accumulator::{self, hacc_round, is_state};
use crate::opcodes::{user_tag, UserOps};
use vstd::prelude::*;

verus! {

/// A linear run of user operations without control flow.
#[derive(Clone, Debug)]
pub struct Span {
    pub instructions: Vec<UserOps>,
}

/// The state after absorbing the first `k` operations of `ops`, the i-th with the round
/// constants of column `i % 16`.
pub open spec fn absorb(s: Seq<u128>, ops: Seq<UserOps>, k: int) -> Seq<u128>
    decreases k,
{
    if k <= 0 {
        s
    } else {
        hacc_round(absorb(s, ops, k - 1), user_tag(ops[k - 1]) as int, 0, (k - 1) % 16)
    }
}

/// The state after `n` `Noop` rounds starting at cycle position `pos`.
pub open spec fn noops(s: Seq<u128>, pos: int, n: nat) -> Seq<u128>
    decreases n,
{
    if n == 0 {
        s
    } else {
        noops(hacc_round(s, 127, 0, pos % 16), pos + 1, (n - 1) as nat)
    }
}

/// Number of `Noop` rounds that lead from cycle position `from` to position `to`.
pub open spec fn pad_count(from: int, to: int) -> nat {
    ((to - from + 16) % 16) as nat
}

/// Mixes a parent's hash with the hashes of two children: the state that the decoder
/// holds after Tend or Fend, carried by `Noop` rounds to cycle position 15.
pub open spec fn hash_acc_spec(h: u128, v0: u128, v1: u128) -> Seq<u128> {
    noops(seq![h, v0, v1, 0u128], 1, 14)
}

/// The all-zero sponge state.
pub open spec fn zero_state() -> Seq<u128> {
    seq![0u128, 0, 0, 0]
}

pub proof fn lemma_absorb_state(s: Seq<u128>, ops: Seq<UserOps>, k: int)
    requires
        is_state(s),
    ensures
        is_state(absorb(s, ops, k)),
    decreases k,
{
    if k > 0 {
        lemma_absorb_state(s, ops, k - 1);
        accumulator::lemma_hacc_state(absorb(s, ops, k - 1), user_tag(ops[k - 1]) as int, 0, (k - 1) % 16);
    }
}

pub proof fn lemma_noops_state(s: Seq<u128>, pos: int, n: nat)
    requires
        is_state(s),
    ensures
        is_state(noops(s, pos, n)),
    decreases n,
{
    if n > 0 {
        accumulator::lemma_hacc_state(s, 127, 0, pos % 16);
        lemma_noops_state(hacc_round(s, 127, 0, pos % 16), pos + 1, (n - 1) as nat);
    }
}

/// One more `Noop` round after `n` of them.
pub proof fn lemma_noops_snoc(s: Seq<u128>, pos: int, n: nat)
    ensures
        noops(s, pos, n + 1) == hacc_round(noops(s, pos, n), 127, 0, (pos + n) % 16),
    decreases n,
{
    let h = hacc_round(s, 127, 0, pos % 16);
    assert(noops(s, pos, n + 1) == noops(h, pos + 1, n));
    if n > 0 {
        lemma_noops_snoc(h, pos + 1, (n - 1) as nat);
        assert(noops(s, pos, n) == noops(h, pos + 1, (n - 1) as nat));
    } else {
        assert(noops(h, pos + 1, 0) == h);
    }
}

/// Only the cycle position modulo 16 matters.
pub proof fn lemma_noops_mod(s: Seq<u128>, pos: int, n: nat)
    requires
        pos >= 0,
    ensures
        noops(s, pos, n) == noops(s, pos % 16, n),
    decreases n,
{
    if n > 0 {
        let h = hacc_round(s, 127, 0, pos % 16);
        assert((pos % 16) % 16 == pos % 16);
        lemma_noops_mod(h, pos + 1, (n - 1) as nat);
        lemma_noops_mod(h, pos % 16 + 1, (n - 1) as nat);
        assert((pos + 1) % 16 == (pos % 16 + 1) % 16);
    }
}

/// Applies `n` `Noop` rounds starting at cycle position `pos`.
pub fn apply_noops(state: [u128; 4], pos: usize, n: usize) -> (r: [u128; 4])
    requires
        is_state(state@),
        pos < 16,
        n <= 16,
    ensures
        r@ == noops(state@, pos as int, n as nat),
        is_state(r@),
{
    let mut s = state;
    let mut i: usize = 0;
    while i < n
        invariant
            i <= n <= 16,
            pos < 16,
            is_state(s@),
            noops(s@, pos + i, (n - i) as nat) == noops(state@, pos as int, n as nat),
        decreases n - i,
    {
        proof {
            assert((pos + i) % 16 == ((pos + i) % 16) as int);
        }
        s = accumulator::apply_hacc_round(s, 127, 0, (pos + i) % 16);
        i += 1;
    }
    s
}

/// The state that the decoder holds after closing a block whose context hash is `h` and
/// whose children hash to `v0` and `v1`.
pub fn hash_acc(h: u128, v0: u128, v1: u128) -> (r: [u128; 4])
    requires
        crate::field::is_elem(h),
        crate::field::is_elem(v0),
        crate::field::is_elem(v1),
    ensures
        r@ == hash_acc_spec(h, v0, v1),
        is_state(r@),
{
    let s = [h, v0, v1, 0];
    assert(s@ =~= seq![h, v0, v1, 0u128]);
    apply_noops(s, 1, 14)
}

impl Span {
    /// Creates a span from its operations.
    pub fn from_instructions(instructions: Vec<UserOps>) -> (r: Span)
        ensures
            r.instructions@ == instructions@,
    {
        Span { instructions }
    }

    /// Returns the number of operations in the span.
    pub fn length(&self) -> (r: usize)
        ensures
            r == self.instructions@.len(),
    {
        self.instructions.len()
    }

    /// Returns true when the span's operations begin with `prefix`.
    pub fn starts_with(&self, prefix: &[UserOps]) -> (r: bool)
        ensures
            r == (prefix@.len() <= self.instructions@.len() && self.instructions@.subrange(
                0,
                prefix@.len() as int,
            ) == prefix@),
    {
        if prefix.len() > self.instructions.len() {
            return false;
        }
        let mut i: usize = 0;
        while i < prefix.len()
            invariant
                i <= prefix@.len() <= self.instructions@.len(),
                forall|k: int| 0 <= k < i ==> self.instructions@[k] == prefix@[k],
            decreases prefix.len() - i,
        {
            if self.instructions[i] != prefix[i] {
                assert(self.instructions@.subrange(0, prefix@.len() as int)[i as int] != prefix@[i as int]);
                return false;
            }
            i += 1;
        }
        assert(self.instructions@.subrange(0, prefix@.len() as int) =~= prefix@);
        true
    }

    /// Absorbs the span's operations into `state`.
    pub fn hash(&self, state: [u128; 4]) -> (r: [u128; 4])
        requires
            is_state(state@),
        ensures
            r@ == absorb(state@, self.instructions@, self.instructions@.len() as int),
            is_state(r@),
    {
        let mut s = state;
        let mut i: usize = 0;
        while i < self.instructions.len()
            invariant
                i <= self.instructions@.len(),
                is_state(state@),
                s@ == absorb(state@, self.instructions@, i as int),
            decreases self.instructions.len() - i,
        {
            proof {
                lemma_absorb_state(state@, self.instructions@, i as int);
            }
            s = accumulator::apply_hacc_round(s, self.instructions[i].code() as u128, 0, i % 16);
            i += 1;
        }
        proof {
            lemma_absorb_state(state@, self.instructions@, i as int);
        }
        s
    }
}

} // verus!
