use stark_vm::field;
use stark_vm::opcodes::{OpHint, UserOps};
use stark_vm::processor::stack::{ExecutionError, Stack};

fn top(stack: &Stack, n: usize) -> Vec<u128> {
    stack.get_state(stack.current_step())[0..n].to_vec()
}

fn run(inputs: &[u128], op: UserOps) -> Vec<u128> {
    let mut stack = Stack::new(inputs, &[], &[], 8);
    stack.execute(op, OpHint::NoHint).unwrap();
    top(&stack, 8)
}

#[test]
fn shuffling_operations() {
    let s = [1, 2, 3, 4, 5, 6, 7, 8];
    assert_eq!(vec![1, 1, 2, 3, 4, 5, 6, 7], run(&s, UserOps::Dup));
    assert_eq!(vec![1, 2, 1, 2, 3, 4, 5, 6], run(&s, UserOps::Dup2));
    assert_eq!(vec![1, 2, 3, 4, 1, 2, 3, 4], run(&s, UserOps::Dup4));
    assert_eq!(vec![0, 0, 1, 2, 3, 4, 5, 6], run(&s, UserOps::Pad2));
    assert_eq!(vec![2, 3, 4, 5, 6, 7, 8, 0], run(&s, UserOps::Drop));
    assert_eq!(vec![5, 6, 7, 8, 0, 0, 0, 0], run(&s, UserOps::Drop4));
    assert_eq!(vec![2, 1, 3, 4, 5, 6, 7, 8], run(&s, UserOps::Swap));
    assert_eq!(vec![3, 4, 1, 2, 5, 6, 7, 8], run(&s, UserOps::Swap2));
    assert_eq!(vec![5, 6, 7, 8, 1, 2, 3, 4], run(&s, UserOps::Swap4));
    assert_eq!(vec![4, 1, 2, 3, 5, 6, 7, 8], run(&s, UserOps::Roll4));
    assert_eq!(vec![8, 1, 2, 3, 4, 5, 6, 7], run(&s, UserOps::Roll8));
    assert_eq!(vec![1, 2, 3, 4, 5, 6, 7, 8], run(&s, UserOps::Noop));
}

#[test]
fn arithmetic_operations() {
    assert_eq!(vec![7, 9], run(&[3, 4, 9], UserOps::Add)[0..2].to_vec());
    assert_eq!(vec![12, 9], run(&[3, 4, 9], UserOps::Mul)[0..2].to_vec());
    assert_eq!(field::MODULUS - 3, run(&[3, 4], UserOps::Neg)[0]);
    assert_eq!(field::inv(3), run(&[3, 4], UserOps::Inv)[0]);
    assert_eq!(0, run(&[1, 4], UserOps::Not)[0]);
    assert_eq!(vec![0, 9], run(&[1, 0, 9], UserOps::And)[0..2].to_vec());
    assert_eq!(vec![1, 9], run(&[1, 0, 9], UserOps::Or)[0..2].to_vec());
    assert_eq!(vec![5, 9], run(&[5, 6, 1, 9], UserOps::Choose)[0..2].to_vec());
    assert_eq!(vec![6, 9], run(&[5, 6, 0, 9], UserOps::Choose)[0..2].to_vec());
    assert_eq!(vec![3, 4, 9], run(&[1, 2, 3, 4, 0, 8, 9], UserOps::Choose2)[0..3].to_vec());
    assert_eq!(vec![7, 8], run(&[1, 7, 8], UserOps::Assert)[0..2].to_vec());
    assert_eq!(vec![9, 0], run(&[5, 5, 9], UserOps::AssertEq)[0..2].to_vec());
}

#[test]
fn reading_the_tapes() {
    let mut stack = Stack::new(&[9], &[1, 2], &[3], 8);
    stack.execute(UserOps::Read2, OpHint::NoHint).unwrap();
    assert_eq!(vec![1, 3, 9], top(&stack, 3));
    stack.execute(UserOps::Read, OpHint::NoHint).unwrap();
    assert_eq!(vec![2, 1, 3, 9], top(&stack, 4));
    assert_eq!(Err(ExecutionError(2)), stack.execute(UserOps::Read, OpHint::NoHint));
    stack.execute(UserOps::Push, OpHint::PushValue(42)).unwrap();
    assert_eq!(vec![42, 2, 1, 3, 9], top(&stack, 5));
    assert_eq!(5, stack.depth);
    assert_eq!(5, stack.max_depth);
}

#[test]
fn failing_operations_change_nothing() {
    let mut stack = Stack::new(&[2, 3], &[], &[], 8);
    assert_eq!(Err(ExecutionError(0)), stack.execute(UserOps::Assert, OpHint::NoHint));
    assert_eq!(Err(ExecutionError(0)), stack.execute(UserOps::AssertEq, OpHint::NoHint));
    assert_eq!(Err(ExecutionError(0)), stack.execute(UserOps::Not, OpHint::NoHint));
    assert_eq!(Err(ExecutionError(0)), stack.execute(UserOps::Drop4, OpHint::NoHint));
    assert_eq!(Err(ExecutionError(0)), stack.execute(UserOps::Eq, OpHint::NoHint));
    assert_eq!(0, stack.current_step());
    assert_eq!(2, stack.depth);
    // EQ with a wrong auxiliary value fails
    let mut stack = Stack::new(&[5, 1, 4], &[], &[], 8);
    assert_eq!(Err(ExecutionError(0)), stack.execute(UserOps::Eq, OpHint::NoHint));
}

#[test]
fn rescue_round_on_the_stack() {
    let mut stack = Stack::new(&[1, 2, 3, 4, 5], &[], &[], 8);
    stack.execute(UserOps::RescR, OpHint::NoHint).unwrap();
    let state = top(&stack, 5);
    assert_ne!(vec![1, 2, 3, 4], state[0..4].to_vec());
    assert_eq!(5, state[4]);
}

#[test]
fn the_trace_grows() {
    let mut stack = Stack::new(&[1], &[], &[], 2);
    for _ in 0..5 {
        stack.execute(UserOps::Dup, OpHint::NoHint).unwrap();
    }
    assert_eq!(6, stack.depth);
    assert_eq!(vec![1; 6], top(&stack, 6));
    assert_eq!(vec![1, 1, 0, 0, 0, 0, 0, 0], stack.get_state(1));
    assert_eq!(8, stack.get_state(5).len());
}
