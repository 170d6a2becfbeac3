//! The program-block tree and its hash composition.
use crate::accumulator::is_state;
use crate::field::is_elem;
use crate::opcodes::UserOps;
use crate::programs::blocks::{absorb, apply_noops, hash_acc, hash_acc_spec, lemma_noops_state, noops, pad_count, zero_state, Span};
use vstd::prelude::*;

verus! {

#[derive(Debug)]
pub enum ProgramBlock {
    Span(Span),
    Group(Group),
    Switch(Switch),
    Loop(Loop),
}

#[derive(Debug)]
pub struct Group {
    pub(crate) blocks: Vec<ProgramBlock>,
}

#[derive(Debug)]
pub struct Switch {
    pub(crate) t_branch: Vec<ProgramBlock>,
    pub(crate) f_branch: Vec<ProgramBlock>,
}

#[derive(Debug)]
pub struct Loop {
    pub(crate) body: Vec<ProgramBlock>,
    pub(crate) skip: Vec<ProgramBlock>,
}

/// The operations of the span that every loop runs when its condition is false.
pub open spec fn skip_ops() -> Seq<UserOps> {
    seq![UserOps::Not, UserOps::Assert].add(Seq::new(13, |i: int| UserOps::Noop))
}

/// The state and cycle position after the first `n` blocks of `blocks`.
pub open(crate) spec fn seq_state(blocks: Seq<ProgramBlock>, n: int) -> (Seq<u128>, int)
    decreases blocks, n,
{
    if n <= 0 || n > blocks.len() {
        (zero_state(), 0)
    } else {
        let (s, pos) = seq_state(blocks, n - 1);
        match blocks[n - 1] {
            ProgramBlock::Span(sp) => {
                let padded = noops(s, pos, pad_count(pos, 0));
                let k = sp.instructions@.len() as int;
                (absorb(padded, sp.instructions@, k), k % 16)
            },
            _ => (block_hash(blocks[n - 1], noops(s, pos, pad_count(pos, 15))), 15),
        }
    }
}

/// The hash of a sequence closed by a Tend or Fend: the whole sequence, padded to cycle
/// position 0.
pub open(crate) spec fn seq_hash(blocks: Seq<ProgramBlock>) -> u128
    decreases blocks, blocks.len() + 1,
{
    let (s, pos) = seq_state(blocks, blocks.len() as int);
    noops(s, pos, pad_count(pos, 0))[0]
}

/// The hash of a loop body, checked by Wrap or Break: the whole body, padded to cycle
/// position 15.
pub open(crate) spec fn body_hash(blocks: Seq<ProgramBlock>) -> u128
    decreases blocks, blocks.len() + 1,
{
    let (s, pos) = seq_state(blocks, blocks.len() as int);
    noops(s, pos, pad_count(pos, 15))[0]
}

/// The state after the block `b` starting from state `s`.
pub open(crate) spec fn block_hash(b: ProgramBlock, s: Seq<u128>) -> Seq<u128>
    decreases b,
{
    match b {
        ProgramBlock::Span(sp) => absorb(s, sp.instructions@, sp.instructions@.len() as int),
        ProgramBlock::Group(g) => hash_acc_spec(s[0], seq_hash(g.blocks@), 0),
        ProgramBlock::Switch(w) => hash_acc_spec(s[0], seq_hash(w.t_branch@), seq_hash(w.f_branch@)),
        ProgramBlock::Loop(l) => hash_acc_spec(s[0], body_hash(l.body@), seq_hash(l.skip@)),
    }
}

/// The blocks of a group, as the crate sees them.
pub(crate) proof fn lemma_group_blocks(g: &Group)
    ensures
        g.spec_blocks() == g.blocks@,
{
}

/// A valid list of blocks: not empty, first a span that begins with `prefix`, and no span
/// right after another.
pub open spec fn valid_block_list(blocks: Seq<ProgramBlock>, prefix: Seq<UserOps>) -> bool {
    &&& blocks.len() > 0
    &&& blocks[0] is Span
    &&& prefix.len() <= blocks[0]->Span_0.instructions@.len()
    &&& blocks[0]->Span_0.instructions@.subrange(0, prefix.len() as int) == prefix
    &&& forall|i: int| 1 <= i < blocks.len() && #[trigger] blocks[i] is Span ==> !(blocks[i - 1] is Span)
}

pub proof fn lemma_seq_state(blocks: Seq<ProgramBlock>, n: int)
    ensures
        is_state(seq_state(blocks, n).0),
        0 <= seq_state(blocks, n).1 < 16,
    decreases blocks, n,
{
    if n <= 0 || n > blocks.len() {
    } else {
        lemma_seq_state(blocks, n - 1);
        let (s, pos) = seq_state(blocks, n - 1);
        match blocks[n - 1] {
            ProgramBlock::Span(sp) => {
                lemma_noops_state(s, pos, pad_count(pos, 0));
                crate::programs::blocks::lemma_absorb_state(
                    noops(s, pos, pad_count(pos, 0)),
                    sp.instructions@,
                    sp.instructions@.len() as int,
                );
            },
            _ => {
                lemma_noops_state(s, pos, pad_count(pos, 15));
                lemma_block_hash(blocks[n - 1], noops(s, pos, pad_count(pos, 15)));
            },
        }
    }
}

pub proof fn lemma_block_hash(b: ProgramBlock, s: Seq<u128>)
    requires
        is_state(s),
    ensures
        is_state(block_hash(b, s)),
    decreases b,
{
    match b {
        ProgramBlock::Span(sp) => {
            crate::programs::blocks::lemma_absorb_state(s, sp.instructions@, sp.instructions@.len() as int);
        },
        ProgramBlock::Group(g) => {
            lemma_seq_hash(g.blocks@);
            lemma_noops_state(seq![s[0], seq_hash(g.blocks@), 0u128, 0u128], 1, 14);
        },
        ProgramBlock::Switch(w) => {
            lemma_seq_hash(w.t_branch@);
            lemma_seq_hash(w.f_branch@);
            lemma_noops_state(seq![s[0], seq_hash(w.t_branch@), seq_hash(w.f_branch@), 0u128], 1, 14);
        },
        ProgramBlock::Loop(l) => {
            lemma_seq_hash(l.skip@);
            lemma_body_hash(l.body@);
            lemma_noops_state(seq![s[0], body_hash(l.body@), seq_hash(l.skip@), 0u128], 1, 14);
        },
    }
}

pub proof fn lemma_seq_hash(blocks: Seq<ProgramBlock>)
    ensures
        is_elem(seq_hash(blocks)),
    decreases blocks, blocks.len() + 1,
{
    lemma_seq_state(blocks, blocks.len() as int);
    let (s, pos) = seq_state(blocks, blocks.len() as int);
    lemma_noops_state(s, pos, pad_count(pos, 0));
}

pub proof fn lemma_body_hash(blocks: Seq<ProgramBlock>)
    ensures
        is_elem(body_hash(blocks)),
    decreases blocks, blocks.len() + 1,
{
    lemma_seq_state(blocks, blocks.len() as int);
    let (s, pos) = seq_state(blocks, blocks.len() as int);
    lemma_noops_state(s, pos, pad_count(pos, 15));
}

/// The state and cycle position after every block of `blocks`.
fn fold_blocks(blocks: &Vec<ProgramBlock>) -> (r: ([u128; 4], usize))
    ensures
        r.0@ == seq_state(blocks@, blocks@.len() as int).0,
        r.1 as int == seq_state(blocks@, blocks@.len() as int).1,
        is_state(r.0@),
        r.1 < 16,
    decreases blocks, 0int,
{
    let mut s: [u128; 4] = [0, 0, 0, 0];
    let mut pos: usize = 0;
    let mut i: usize = 0;
    assert(s@ =~= zero_state());
    while i < blocks.len()
        invariant
            i <= blocks@.len(),
            s@ == seq_state(blocks@, i as int).0,
            pos as int == seq_state(blocks@, i as int).1,
            is_state(s@),
            pos < 16,
        decreases blocks.len() - i,
    {
        proof {
            vstd::std_specs::vec::axiom_vec_index_decreases(*blocks, i as int);
        }
        match &blocks[i] {
            ProgramBlock::Span(sp) => {
                let padded = apply_noops(s, pos, (16 - pos) % 16);
                s = sp.hash(padded);
                pos = sp.length() % 16;
            },
            b => {
                let padded = apply_noops(s, pos, (31 - pos) % 16);
                s = b.hash(padded);
                pos = 15;
            },
        }
        i += 1;
    }
    (s, pos)
}

/// Returns the hash of a sequence closed by a Tend or Fend.
pub fn hash_seq(blocks: &Vec<ProgramBlock>) -> (r: u128)
    ensures
        r == seq_hash(blocks@),
        is_elem(r),
    decreases blocks, 1int,
{
    let (s, pos) = fold_blocks(blocks);
    let t = apply_noops(s, pos, (16 - pos) % 16);
    t[0]
}

/// Returns the hash of a loop body, as checked by Wrap or Break.
pub fn hash_body(blocks: &Vec<ProgramBlock>) -> (r: u128)
    ensures
        r == body_hash(blocks@),
        is_elem(r),
    decreases blocks, 1int,
{
    let (s, pos) = fold_blocks(blocks);
    let t = apply_noops(s, pos, (31 - pos) % 16);
    t[0]
}

impl ProgramBlock {
    pub fn is_span(&self) -> (r: bool)
        ensures
            r == (*self is Span),
    {
        match self {
            ProgramBlock::Span(_) => true,
            _ => false,
        }
    }

    /// Returns the state after this block, starting from `state`.
    pub fn hash(&self, state: [u128; 4]) -> (r: [u128; 4])
        requires
            is_state(state@),
        ensures
            r@ == block_hash(*self, state@),
            is_state(r@),
        decreases self, 2int,
    {
        match self {
            ProgramBlock::Span(block) => block.hash(state),
            ProgramBlock::Group(block) => {
                proof {
                    assert(decreases_to!(*self => self->Group_0));
                }
                block.hash(state)
            },
            ProgramBlock::Switch(block) => {
                proof {
                    assert(decreases_to!(*self => self->Switch_0));
                }
                block.hash(state)
            },
            ProgramBlock::Loop(block) => {
                proof {
                    assert(decreases_to!(*self => self->Loop_0));
                }
                block.hash(state)
            },
        }
    }
}

// GROUP IMPLEMENTATION
// ================================================================================================
impl Group {
    pub closed spec fn spec_blocks(&self) -> Seq<ProgramBlock> {
        self.blocks@
    }

    /// Creates a group from a valid list of blocks.
    pub fn new(blocks: Vec<ProgramBlock>) -> (r: Group)
        requires
            valid_block_list(blocks@, Seq::empty()),
        ensures
            r.spec_blocks() == blocks@,
    {
        Group { blocks }
    }

    pub fn new_block(blocks: Vec<ProgramBlock>) -> (r: ProgramBlock)
        requires
            valid_block_list(blocks@, Seq::empty()),
        ensures
            r is Group,
            r->Group_0.spec_blocks() == blocks@,
    {
        ProgramBlock::Group(Group::new(blocks))
    }

    pub fn blocks(&self) -> (r: &[ProgramBlock])
        ensures
            r@ == self.spec_blocks(),
    {
        self.blocks.as_slice()
    }

    /// The state after the group: its blocks' hash mixed into the context hash `state[0]`.
    pub fn hash(&self, state: [u128; 4]) -> (r: [u128; 4])
        requires
            is_state(state@),
        ensures
            r@ == hash_acc_spec(state@[0], seq_hash(self.spec_blocks()), 0),
            r@ == block_hash(ProgramBlock::Group(*self), state@),
            is_state(r@),
        decreases self, 2int,
    {
        proof {
            assert(decreases_to!(*self => self.blocks));
        }
        let v0 = hash_seq(&self.blocks);
        hash_acc(state[0], v0, 0)
    }
}

// SWITCH IMPLEMENTATION
// ================================================================================================
impl Switch {
    pub closed spec fn spec_true_branch(&self) -> Seq<ProgramBlock> {
        self.t_branch@
    }

    pub closed spec fn spec_false_branch(&self) -> Seq<ProgramBlock> {
        self.f_branch@
    }

    /// Creates a switch; the true branch starts with `Assert`, the false one with
    /// `Not, Assert`.
    pub fn new(true_branch: Vec<ProgramBlock>, false_branch: Vec<ProgramBlock>) -> (r: Switch)
        requires
            valid_block_list(true_branch@, seq![UserOps::Assert]),
            valid_block_list(false_branch@, seq![UserOps::Not, UserOps::Assert]),
        ensures
            r.spec_true_branch() == true_branch@,
            r.spec_false_branch() == false_branch@,
    {
        Switch { t_branch: true_branch, f_branch: false_branch }
    }

    pub fn new_block(true_branch: Vec<ProgramBlock>, false_branch: Vec<ProgramBlock>) -> (r: ProgramBlock)
        requires
            valid_block_list(true_branch@, seq![UserOps::Assert]),
            valid_block_list(false_branch@, seq![UserOps::Not, UserOps::Assert]),
        ensures
            r is Switch,
            r->Switch_0.spec_true_branch() == true_branch@,
            r->Switch_0.spec_false_branch() == false_branch@,
    {
        ProgramBlock::Switch(Switch::new(true_branch, false_branch))
    }

    pub fn true_branch(&self) -> (r: &[ProgramBlock])
        ensures
            r@ == self.spec_true_branch(),
    {
        self.t_branch.as_slice()
    }

    pub fn true_branch_hash(&self) -> (r: u128)
        ensures
            r == seq_hash(self.spec_true_branch()),
    {
        hash_seq(&self.t_branch)
    }

    pub fn false_branch(&self) -> (r: &[ProgramBlock])
        ensures
            r@ == self.spec_false_branch(),
    {
        self.f_branch.as_slice()
    }

    pub fn false_branch_hash(&self) -> (r: u128)
        ensures
            r == seq_hash(self.spec_false_branch()),
    {
        hash_seq(&self.f_branch)
    }

    /// The state after the switch: both branch hashes mixed into `state[0]`.
    pub fn hash(&self, state: [u128; 4]) -> (r: [u128; 4])
        requires
            is_state(state@),
        ensures
            r@ == hash_acc_spec(
                state@[0],
                seq_hash(self.spec_true_branch()),
                seq_hash(self.spec_false_branch()),
            ),
            r@ == block_hash(ProgramBlock::Switch(*self), state@),
            is_state(r@),
        decreases self, 2int,
    {
        proof {
            assert(decreases_to!(*self => self.t_branch));
            assert(decreases_to!(*self => self.f_branch));
        }
        let v0 = hash_seq(&self.t_branch);
        let v1 = hash_seq(&self.f_branch);
        hash_acc(state[0], v0, v1)
    }
}

// LOOP IMPLEMENTATION
// ================================================================================================
impl Loop {
    pub closed spec fn spec_body(&self) -> Seq<ProgramBlock> {
        self.body@
    }

    pub closed spec fn spec_skip(&self) -> Seq<ProgramBlock> {
        self.skip@
    }

    /// Creates a loop whose body starts with `Assert`; the skip branch is the span
    /// `Not, Assert` followed by 13 `Noop`s.
    pub fn new(body: Vec<ProgramBlock>) -> (r: Loop)
        requires
            valid_block_list(body@, seq![UserOps::Assert]),
        ensures
            r.spec_body() == body@,
            r.spec_skip().len() == 1,
            r.spec_skip()[0] is Span,
            r.spec_skip()[0]->Span_0.instructions@ == skip_ops(),
    {
        let skip_block = Span::from_instructions(
            vec![
                UserOps::Not,
                UserOps::Assert,
                UserOps::Noop,
                UserOps::Noop,
                UserOps::Noop,
                UserOps::Noop,
                UserOps::Noop,
                UserOps::Noop,
                UserOps::Noop,
                UserOps::Noop,
                UserOps::Noop,
                UserOps::Noop,
                UserOps::Noop,
                UserOps::Noop,
                UserOps::Noop,
            ],
        );
        assert(skip_block.instructions@ =~= skip_ops());
        let skip = vec![ProgramBlock::Span(skip_block)];
        Loop { body, skip }
    }

    pub fn new_block(body: Vec<ProgramBlock>) -> (r: ProgramBlock)
        requires
            valid_block_list(body@, seq![UserOps::Assert]),
        ensures
            r is Loop,
            r->Loop_0.spec_body() == body@,
    {
        ProgramBlock::Loop(Loop::new(body))
    }

    pub fn body(&self) -> (r: &[ProgramBlock])
        ensures
            r@ == self.spec_body(),
    {
        self.body.as_slice()
    }

    /// The hash that the body yields when Wrap or Break is applied: the loop image. The
    /// body is hashed up to cycle position 15, where Wrap and Break apply, rather than
    /// position 0 where a group's sequence is closed by Tend or Fend; so this differs from
    /// `hash_seq` of the body.
    pub fn body_hash(&self) -> (r: u128)
        ensures
            r == body_hash(self.spec_body()),
    {
        hash_body(&self.body)
    }

    pub fn skip(&self) -> (r: &[ProgramBlock])
        ensures
            r@ == self.spec_skip(),
    {
        self.skip.as_slice()
    }

    pub fn skip_hash(&self) -> (r: u128)
        ensures
            r == seq_hash(self.spec_skip()),
    {
        hash_seq(&self.skip)
    }

    /// The state after the loop: the body hash (up to cycle position 15, see `body_hash`)
    /// and the skip hash mixed into `state[0]`.
    pub fn hash(&self, state: [u128; 4]) -> (r: [u128; 4])
        requires
            is_state(state@),
        ensures
            r@ == hash_acc_spec(state@[0], body_hash(self.spec_body()), seq_hash(self.spec_skip())),
            r@ == block_hash(ProgramBlock::Loop(*self), state@),
            is_state(r@),
        decreases self, 2int,
    {
        proof {
            assert(decreases_to!(*self => self.body));
            assert(decreases_to!(*self => self.skip));
        }
        let v0 = hash_body(&self.body);
        let v1 = hash_seq(&self.skip);
        hash_acc(state[0], v0, v1)
    }
}

// HELPER FUNCTIONS
// ================================================================================================

/// Returns true when `blocks` is not empty, starts with a span that begins with
/// `starts_with`, and has no span right after another.
pub fn validate_block_list(blocks: &Vec<ProgramBlock>, starts_with: &[UserOps]) -> (r: bool)
    ensures
        r == valid_block_list(blocks@, starts_with@),
{
    if blocks.len() == 0 {
        return false;
    }
    // first block must be a span block that begins with the required operations
    match &blocks[0] {
        ProgramBlock::Span(block) => {
            if !block.starts_with(starts_with) {
                return false;
            }
        },
        _ => {
            return false;
        },
    }
    // a span block cannot be followed by another span block
    let mut i: usize = 1;
    while i < blocks.len()
        invariant
            1 <= i <= blocks@.len(),
            forall|k: int| 1 <= k < i && #[trigger] blocks@[k] is Span ==> !(blocks@[k - 1] is Span),
        decreases blocks.len() - i,
    {
        if blocks[i].is_span() && blocks[i - 1].is_span() {
            return false;
        }
        i += 1;
    }
    true
}

} // verus!
