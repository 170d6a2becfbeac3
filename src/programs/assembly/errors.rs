//! Assembly errors and the hint map.
use crate::opcodes::OpHint;
use vstd::prelude::*;
use vstd::string::StringExecFns;

verus! {

/// Why a parameter was refused.
#[derive(Clone, Copy, Debug, PartialEq, Eq, Structural)]
pub enum ParamReason {
    /// The value is not one of the values the mnemonic allows.
    NotAllowed,
    /// The value lies outside the range `min..=max`.
    OutOfRange(u32, u32),
    /// The value is zero.
    Zero,
    /// The value is not smaller than the field modulus.
    NotFieldElement,
}

#[derive(Clone, Copy, Debug, PartialEq, Eq, Structural)]
pub enum AssemblyErrorKind {
    /// The mnemonic is not one of the assembly language.
    UnknownOp,
    /// The program would grow beyond `MAX_PROGRAM_LENGTH` opcodes.
    ProgramTooLong,
    MissingParam,
    ExtraParam,
    InvalidParam,
    InvalidParamReason(ParamReason),
}

/// An error in one token: its parts, its step index and what is wrong with it.
#[derive(Debug)]
pub struct AssemblyError {
    pub kind: AssemblyErrorKind,
    pub op: Vec<String>,
    pub step: usize,
}

/// The characters of each part of a token.
pub open spec fn views(op: Seq<&str>) -> Seq<Seq<char>> {
    Seq::new(op.len(), |i: int| op[i]@)
}

/// `e` reports `kind` for the token `op` at `step`.
pub open spec fn is_error(e: AssemblyError, op: Seq<&str>, step: usize, kind: AssemblyErrorKind) -> bool {
    &&& e.kind == kind
    &&& e.step == step
    &&& e.op@.len() == op.len()
    &&& forall|i: int| 0 <= i < op.len() ==> #[trigger] e.op@[i]@ == op[i]@
}

impl AssemblyError {
    fn new(op: &[&str], step: usize, kind: AssemblyErrorKind) -> (r: AssemblyError)
        ensures
            is_error(r, op@, step, kind),
    {
        let mut parts: Vec<String> = Vec::new();
        let mut i: usize = 0;
        while i < op.len()
            invariant
                i <= op@.len(),
                parts@.len() == i,
                forall|k: int| 0 <= k < i ==> #[trigger] parts@[k]@ == op@[k]@,
            decreases op.len() - i,
        {
            parts.push(<String as StringExecFns>::from_str(op[i]));
            i += 1;
        }
        AssemblyError { kind, op: parts, step }
    }

    pub fn unknown_op(op: &[&str], step: usize) -> (r: AssemblyError)
        ensures
            is_error(r, op@, step, AssemblyErrorKind::UnknownOp),
    {
        AssemblyError::new(op, step, AssemblyErrorKind::UnknownOp)
    }

    pub fn program_too_long(op: &[&str], step: usize) -> (r: AssemblyError)
        ensures
            is_error(r, op@, step, AssemblyErrorKind::ProgramTooLong),
    {
        AssemblyError::new(op, step, AssemblyErrorKind::ProgramTooLong)
    }

    pub fn missing_param(op: &[&str], step: usize) -> (r: AssemblyError)
        ensures
            is_error(r, op@, step, AssemblyErrorKind::MissingParam),
    {
        AssemblyError::new(op, step, AssemblyErrorKind::MissingParam)
    }

    pub fn extra_param(op: &[&str], step: usize) -> (r: AssemblyError)
        ensures
            is_error(r, op@, step, AssemblyErrorKind::ExtraParam),
    {
        AssemblyError::new(op, step, AssemblyErrorKind::ExtraParam)
    }

    pub fn invalid_param(op: &[&str], step: usize) -> (r: AssemblyError)
        ensures
            is_error(r, op@, step, AssemblyErrorKind::InvalidParam),
    {
        AssemblyError::new(op, step, AssemblyErrorKind::InvalidParam)
    }

    pub fn invalid_param_reason(op: &[&str], step: usize, reason: ParamReason) -> (r: AssemblyError)
        ensures
            is_error(r, op@, step, AssemblyErrorKind::InvalidParamReason(reason)),
    {
        AssemblyError::new(op, step, AssemblyErrorKind::InvalidParamReason(reason))
    }
}

/// Hints keyed by program index, in increasing order of index.
pub struct HintMap {
    entries: Vec<(usize, OpHint)>,
}

impl HintMap {
    /// The entries, in the order they were inserted.
    pub closed spec fn view(&self) -> Seq<(usize, OpHint)> {
        self.entries@
    }

    /// Every key is below `bound`, and keys increase.
    pub open spec fn keys_below(&self, bound: int) -> bool {
        &&& forall|i: int| 0 <= i < self@.len() ==> (#[trigger] self@[i]).0 < bound
        &&& forall|i: int, j: int| 0 <= i < j < self@.len() ==> (#[trigger] self@[i]).0 < (#[trigger] self@[j]).0
    }

    pub fn new() -> (r: HintMap)
        ensures
            r@ == Seq::<(usize, OpHint)>::empty(),
    {
        HintMap { entries: Vec::new() }
    }

    /// Adds `hint` at `step`, which lies beyond every key present.
    pub fn insert(&mut self, step: usize, hint: OpHint)
        requires
            old(self).keys_below(step as int),
        ensures
            final(self)@ == old(self)@.push((step, hint)),
    {
        self.entries.push((step, hint));
    }

    /// Number of hints.
    pub fn len(&self) -> (r: usize)
        ensures
            r == self@.len(),
    {
        self.entries.len()
    }

    /// The entry at position `i`.
    pub fn entry(&self, i: usize) -> (r: (usize, OpHint))
        requires
            i < self@.len(),
        ensures
            r == self@[i as int],
    {
        self.entries[i]
    }

    /// The hint at `step`, or `NoHint` where there is none.
    pub fn get(&self, step: usize) -> (r: OpHint)
        ensures
            (exists|i: int| 0 <= i < self@.len() && (#[trigger] self@[i]).0 == step) ==> exists|i: int|
                0 <= i < self@.len() && (#[trigger] self@[i]).0 == step && self@[i].1 == r,
            (forall|i: int| 0 <= i < self@.len() ==> (#[trigger] self@[i]).0 != step) ==> r
                == OpHint::NoHint,
    {
        let mut i: usize = 0;
        while i < self.entries.len()
            invariant
                i <= self@.len(),
                forall|k: int| 0 <= k < i ==> (#[trigger] self@[k]).0 != step,
            decreases self.entries.len() - i,
        {
            if self.entries[i].0 == step {
                return self.entries[i].1;
            }
            i += 1;
        }
        OpHint::NoHint
    }
}

} // verus!
