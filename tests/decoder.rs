use stark_vm::opcodes::UserOps;
use stark_vm::processor::decoder::{Decoder, DecoderError};
use stark_vm::processor::executor::{execute_block, execute_program};
use stark_vm::programs::blocks::Span;
use stark_vm::programs::flow::{Group, Loop, ProgramBlock, Switch};

fn noops(n: usize) -> Vec<UserOps> {
    vec![UserOps::Noop; n]
}

fn span(ops: Vec<UserOps>) -> ProgramBlock {
    ProgramBlock::Span(Span::from_instructions(ops))
}

fn with_prefix(prefix: &[UserOps], total: usize) -> Vec<UserOps> {
    let mut ops = prefix.to_vec();
    ops.resize(total, UserOps::Noop);
    ops
}

fn sample_switch() -> ProgramBlock {
    Switch::new_block(
        vec![span(with_prefix(&[UserOps::Assert], 15))],
        vec![span(with_prefix(&[UserOps::Not, UserOps::Assert], 15))],
    )
}

#[test]
fn empty_program_trace() {
    let program = Group::new(vec![span(noops(15))]);
    let decoder = execute_program(&program, &vec![], 16).unwrap();
    assert_eq!(32, decoder.trace_length());
    assert_eq!(1, decoder.max_ctx_stack_depth());
    assert_eq!(0, decoder.max_loop_stack_depth());
    let last = decoder.get_state(decoder.current_step());
    assert_eq!(program.hash([0, 0, 0, 0])[0], last[0]);
    assert_eq!(program.hash([0, 0, 0, 0]).to_vec(), last[0..4].to_vec());
}

#[test]
fn switch_hash_matches_decoder() {
    let program = Group::new(vec![span(noops(15)), sample_switch()]);
    let expected = program.hash([0, 0, 0, 0]);
    for choice in [true, false] {
        let decoder = execute_program(&program, &vec![choice], 16).unwrap();
        let last = decoder.get_state(decoder.current_step());
        assert_eq!(expected[0], last[0]);
    }
}

#[test]
fn switch_block_hash_from_its_start_state() {
    let switch = sample_switch();
    let mut decoder = Decoder::new(16);
    for _ in 0..15 {
        decoder.decode_op(UserOps::Noop, 0);
    }
    let start = decoder.get_state(15);
    let state = [start[0], start[1], start[2], start[3]];
    let mut next = 0;
    execute_block(&mut decoder, &switch, &vec![false], &mut next).unwrap();
    let end = decoder.get_state(decoder.current_step());
    assert_eq!(switch.hash(state).to_vec(), end[0..4].to_vec());
    assert_eq!(1, next);
}

#[test]
fn loop_hash_matches_decoder_for_any_iteration_count() {
    let body = vec![span(with_prefix(&[UserOps::Assert], 15))];
    let program = Group::new(vec![span(noops(15)), Loop::new_block(body)]);
    let expected = program.hash([0, 0, 0, 0]);
    for choices in [vec![], vec![true], vec![true, true, false], vec![true, true, true]] {
        let decoder = execute_program(&program, &choices, 16).unwrap();
        let last = decoder.get_state(decoder.current_step());
        assert_eq!(expected[0], last[0]);
        assert!(decoder.max_loop_stack_depth() <= 1);
    }
}

#[test]
fn loop_image_mismatch() {
    let body = vec![span(with_prefix(&[UserOps::Assert], 15))];
    let lp = Loop::new(body);
    let mut decoder = Decoder::new(16);
    for _ in 0..15 {
        decoder.decode_op(UserOps::Noop, 0);
    }
    let image = lp.body_hash();
    let wrong = if image == 7 { 8 } else { 7 };
    decoder.start_loop(wrong);
    decoder.decode_op(UserOps::Assert, 0);
    for _ in 0..14 {
        decoder.decode_op(UserOps::Noop, 0);
    }
    assert_eq!(31, decoder.current_step());
    assert_eq!(Err(DecoderError::LoopImageMismatch(32)), decoder.check_wrap_loop());
    assert_eq!(Err(DecoderError::LoopImageMismatch(32)), decoder.check_break_loop());
    assert_eq!(31, decoder.current_step());
}

#[test]
fn loop_image_match_wraps() {
    let body = vec![span(with_prefix(&[UserOps::Assert], 15))];
    let lp = Loop::new(body);
    let mut decoder = Decoder::new(16);
    for _ in 0..15 {
        decoder.decode_op(UserOps::Noop, 0);
    }
    decoder.start_loop(lp.body_hash());
    decoder.decode_op(UserOps::Assert, 0);
    for _ in 0..14 {
        decoder.decode_op(UserOps::Noop, 0);
    }
    assert_eq!(Ok(()), decoder.check_wrap_loop());
    decoder.wrap_loop();
    assert_eq!(1, decoder.max_loop_stack_depth());
}

#[test]
fn alignment_errors() {
    let mut decoder = Decoder::new(8);
    assert_eq!(Err(DecoderError::AlignmentViolation(0)), decoder.check_start_block());
    assert_eq!(Err(DecoderError::AlignmentViolation(0)), decoder.check_start_loop());
    assert_eq!(Err(DecoderError::AlignmentViolation(0)), decoder.check_wrap_loop());
    assert_eq!(Err(DecoderError::AlignmentViolation(0)), decoder.check_break_loop());
    decoder.decode_op(UserOps::Noop, 0);
    assert_eq!(Err(DecoderError::AlignmentViolation(1)), decoder.check_end_block());
    assert_eq!(Err(DecoderError::AlignmentViolation(1)), decoder.check_decode_op(UserOps::Push, 5));
    assert_eq!(Err(DecoderError::InvalidOpValue(1)), decoder.check_decode_op(UserOps::Add, 5));
    assert_eq!(1, decoder.current_step());
}

#[test]
fn push_with_value_at_aligned_step() {
    let mut decoder = Decoder::new(8);
    assert_eq!(Ok(()), decoder.check_decode_op(UserOps::Push, 5));
    decoder.decode_op(UserOps::Push, 5);
    assert_eq!(1, decoder.current_step());
}

#[test]
fn stack_underflow_and_overflow() {
    let mut decoder = Decoder::new(16);
    for _ in 0..15 {
        decoder.decode_op(UserOps::Noop, 0);
    }
    assert_eq!(Err(DecoderError::StackUnderflow(16)), decoder.check_wrap_loop());
    assert_eq!(Err(DecoderError::StackUnderflow(16)), decoder.check_break_loop());
    // the implicit context of the program is the only entry of the context stack
    let mut d = Decoder::new(16);
    for _ in 0..16 {
        d.decode_op(UserOps::Noop, 0);
    }
    assert_eq!(Ok(()), d.check_end_block());
    d.end_block(0, true);
    for _ in 0..15 {
        d.decode_op(UserOps::Noop, 0);
    }
    assert_eq!(Err(DecoderError::StackUnderflow(33)), d.check_end_block());
    // sixteen nested blocks fill the context stack
    let mut e = Decoder::new(16);
    for _ in 0..15 {
        e.decode_op(UserOps::Noop, 0);
    }
    for _ in 0..15 {
        e.start_block();
        for _ in 0..15 {
            e.decode_op(UserOps::Noop, 0);
        }
    }
    assert_eq!(16, e.max_ctx_stack_depth());
    assert_eq!(Err(DecoderError::StackOverflow(256)), e.check_start_block());
}

#[test]
fn op_bits_encode_operations() {
    let mut decoder = Decoder::new(16);
    decoder.decode_op(UserOps::Push, 0);
    for _ in 0..14 {
        decoder.decode_op(UserOps::Noop, 0);
    }
    decoder.start_block();
    // row 0: HACC with PUSH
    let row0 = decoder.get_state(0);
    assert_eq!(vec![0, 0, 0], row0[4..7].to_vec());
    let push = UserOps::Push.code() as u128;
    let bits: Vec<u128> = (0..7).map(|i| (push >> i) & 1).collect();
    assert_eq!(bits, row0[7..14].to_vec());
    // row 15: BEGIN with NOOP
    let row15 = decoder.get_state(15);
    assert_eq!(vec![1, 0, 0], row15[4..7].to_vec());
    assert_eq!(vec![1, 1, 1, 1, 1, 1, 1], row15[7..14].to_vec());
    // the sponge after BEGIN is zero and the saved context is the previous hash
    let row16 = decoder.get_state(16);
    assert_eq!(vec![0, 0, 0, 0], row16[0..4].to_vec());
    assert_eq!(row15[0], row16[14]);
    assert_eq!(0, row16[15]);
    assert_eq!(2, decoder.max_ctx_stack_depth());
}

#[test]
fn finalize_fills_the_tail() {
    let mut decoder = Decoder::new(16);
    for _ in 0..5 {
        decoder.decode_op(UserOps::Add, 0);
    }
    decoder.finalize_trace();
    let last = decoder.get_state(5);
    for row in 5..16 {
        let state = decoder.get_state(row);
        assert_eq!(vec![1; 10], state[4..14].to_vec());
        assert_eq!(last[0..4].to_vec(), state[0..4].to_vec());
        assert_eq!(last[14..].to_vec(), state[14..].to_vec());
    }
    assert_eq!(16, decoder.trace_length());
    assert_eq!(15, decoder.get_state(0).len());
}

#[test]
fn trace_doubles_when_full() {
    let mut decoder = Decoder::new(4);
    for _ in 0..4 {
        decoder.decode_op(UserOps::Noop, 0);
    }
    assert_eq!(8, decoder.trace_length());
    for _ in 0..4 {
        decoder.decode_op(UserOps::Noop, 0);
    }
    assert_eq!(16, decoder.trace_length());
}

fn nested_groups(depth: usize) -> Group {
    let mut inner = vec![span(noops(15))];
    for _ in 0..depth {
        inner = vec![span(noops(15)), Group::new_block(inner)];
    }
    Group::new(inner)
}

#[test]
fn nesting_within_the_context_stack_runs() {
    let program = nested_groups(15);
    let decoder = execute_program(&program, &vec![], 16).unwrap();
    assert_eq!(16, decoder.max_ctx_stack_depth());
    let last = decoder.get_state(decoder.current_step());
    assert_eq!(program.hash([0, 0, 0, 0])[0], last[0]);
}

#[test]
fn nesting_beyond_the_context_stack_overflows() {
    let program = nested_groups(16);
    match execute_program(&program, &vec![], 16) {
        Err(DecoderError::StackOverflow(step)) => assert_eq!(0, step % 16),
        _ => panic!("expected a stack overflow"),
    }
}

#[test]
fn stack_columns_shift_on_push_and_pop() {
    let mut d = Decoder::new(16);
    for _ in 0..15 {
        d.decode_op(UserOps::Add, 0);
    }
    let before_begin = d.get_state(15);
    d.start_loop(77);
    // the context stack pushed the sponge, the loop stack pushed the image
    let after_loop = d.get_state(16);
    assert_eq!(before_begin[0], after_loop[14]);
    assert_eq!(before_begin[14], after_loop[15]);
    assert_eq!(77, after_loop[16]);
    for _ in 0..15 {
        d.decode_op(UserOps::Noop, 0);
    }
    // copies keep every column
    assert_eq!(after_loop[14..].to_vec(), d.get_state(31)[14..].to_vec());
    // End pops the context stack: column 0 takes what column 1 held
    let mut e = Decoder::new(16);
    for _ in 0..15 {
        e.decode_op(UserOps::Add, 0);
    }
    e.start_block();
    for _ in 0..16 {
        e.decode_op(UserOps::Noop, 0);
    }
    let before_end = e.get_state(32);
    e.end_block(5, true);
    let after_end = e.get_state(33);
    assert_eq!(before_end[15], after_end[14]);
    assert_eq!(vec![before_end[14], before_end[0], 5, 0], after_end[0..4].to_vec());
}
