//! Control-flow and user operation codes, and the hints that guide the prover.
use vstd::prelude::*;

verus! {

/// Control-flow operations: exactly one of them is applied at every step.
#[derive(Clone, Copy, Debug, PartialEq, Eq, Structural)]
pub enum FlowOps {
    Hacc,
    Begin,
    Tend,
    Fend,
    Loop,
    Wrap,
    Break,
    Void,
}

/// User-visible operations of the virtual machine.
#[derive(Clone, Copy, Debug, PartialEq, Eq, Structural)]
pub enum UserOps {
    Noop,
    Assert,
    AssertEq,
    Push,
    Read,
    Read2,
    Dup,
    Dup2,
    Dup4,
    Pad2,
    Drop,
    Drop4,
    Swap,
    Swap2,
    Swap4,
    Roll4,
    Roll8,
    Choose,
    Choose2,
    Add,
    Mul,
    Inv,
    Neg,
    Not,
    And,
    Or,
    Eq,
    Cmp,
    BinAcc,
    RescR,
}

/// Non-deterministic input for the prover at one step.
#[derive(Clone, Copy, Debug, PartialEq, Eq, Structural)]
pub enum OpHint {
    NoHint,
    EqStart,
    CmpStart(u32),
    RcStart(u32),
    PushValue(u128),
}

/// The 3-bit tag of a control-flow operation.
pub open spec fn flow_tag(op: FlowOps) -> nat {
    match op {
        FlowOps::Hacc => 0,
        FlowOps::Begin => 1,
        FlowOps::Tend => 2,
        FlowOps::Fend => 3,
        FlowOps::Loop => 4,
        FlowOps::Wrap => 5,
        FlowOps::Break => 6,
        FlowOps::Void => 7,
    }
}

/// The 7-bit tag of a user operation; `Noop` has every bit set.
pub open spec fn user_tag(op: UserOps) -> nat {
    match op {
        UserOps::Noop => 127,
        UserOps::Assert => 1,
        UserOps::AssertEq => 2,
        UserOps::Push => 3,
        UserOps::Read => 4,
        UserOps::Read2 => 5,
        UserOps::Dup => 6,
        UserOps::Dup2 => 7,
        UserOps::Dup4 => 8,
        UserOps::Pad2 => 9,
        UserOps::Drop => 10,
        UserOps::Drop4 => 11,
        UserOps::Swap => 12,
        UserOps::Swap2 => 13,
        UserOps::Swap4 => 14,
        UserOps::Roll4 => 15,
        UserOps::Roll8 => 16,
        UserOps::Choose => 17,
        UserOps::Choose2 => 18,
        UserOps::Add => 19,
        UserOps::Mul => 20,
        UserOps::Inv => 21,
        UserOps::Neg => 22,
        UserOps::Not => 23,
        UserOps::And => 24,
        UserOps::Or => 25,
        UserOps::Eq => 26,
        UserOps::Cmp => 27,
        UserOps::BinAcc => 28,
        UserOps::RescR => 29,
    }
}

impl FlowOps {
    pub fn code(&self) -> (r: u8)
        ensures
            r as nat == flow_tag(*self),
            r < 8,
    {
        match self {
            FlowOps::Hacc => 0,
            FlowOps::Begin => 1,
            FlowOps::Tend => 2,
            FlowOps::Fend => 3,
            FlowOps::Loop => 4,
            FlowOps::Wrap => 5,
            FlowOps::Break => 6,
            FlowOps::Void => 7,
        }
    }
}

impl UserOps {
    pub fn code(&self) -> (r: u8)
        ensures
            r as nat == user_tag(*self),
            r < 128,
    {
        match self {
            UserOps::Noop => 127,
            UserOps::Assert => 1,
            UserOps::AssertEq => 2,
            UserOps::Push => 3,
            UserOps::Read => 4,
            UserOps::Read2 => 5,
            UserOps::Dup => 6,
            UserOps::Dup2 => 7,
            UserOps::Dup4 => 8,
            UserOps::Pad2 => 9,
            UserOps::Drop => 10,
            UserOps::Drop4 => 11,
            UserOps::Swap => 12,
            UserOps::Swap2 => 13,
            UserOps::Swap4 => 14,
            UserOps::Roll4 => 15,
            UserOps::Roll8 => 16,
            UserOps::Choose => 17,
            UserOps::Choose2 => 18,
            UserOps::Add => 19,
            UserOps::Mul => 20,
            UserOps::Inv => 21,
            UserOps::Neg => 22,
            UserOps::Not => 23,
            UserOps::And => 24,
            UserOps::Or => 25,
            UserOps::Eq => 26,
            UserOps::Cmp => 27,
            UserOps::BinAcc => 28,
            UserOps::RescR => 29,
        }
    }
}

} // verus!
