use stark_vm::opcodes::UserOps;
use stark_vm::programs::blocks::Span;
use stark_vm::programs::flow::{validate_block_list, Group, Loop, ProgramBlock, Switch};
use stark_vm::stark::selections::{enforce_choose, enforce_choose2};

fn span(ops: Vec<UserOps>) -> ProgramBlock {
    ProgramBlock::Span(Span::from_instructions(ops))
}

fn with_prefix(prefix: &[UserOps], total: usize) -> Vec<UserOps> {
    let mut ops = prefix.to_vec();
    ops.resize(total, UserOps::Noop);
    ops
}

#[test]
fn block_list_validation() {
    assert!(!validate_block_list(&vec![], &[]));
    assert!(validate_block_list(&vec![span(vec![UserOps::Noop])], &[]));
    assert!(!validate_block_list(&vec![span(vec![UserOps::Noop])], &[UserOps::Assert]));
    assert!(validate_block_list(&vec![span(vec![UserOps::Assert])], &[UserOps::Assert]));
    let inner = Group::new_block(vec![span(vec![UserOps::Noop])]);
    assert!(!validate_block_list(&vec![inner], &[]));
    let g = Group::new_block(vec![span(vec![UserOps::Noop])]);
    assert!(validate_block_list(&vec![span(vec![UserOps::Noop]), g, span(vec![UserOps::Noop])], &[]));
    assert!(!validate_block_list(&vec![span(vec![UserOps::Noop]), span(vec![UserOps::Noop])], &[]));
}

#[test]
fn span_prefix() {
    let s = Span::from_instructions(vec![UserOps::Not, UserOps::Assert, UserOps::Noop]);
    assert!(s.starts_with(&[UserOps::Not, UserOps::Assert]));
    assert!(!s.starts_with(&[UserOps::Assert]));
    assert!(s.starts_with(&[]));
    assert_eq!(3, s.length());
}

#[test]
fn loop_skip_branch() {
    let l = Loop::new(vec![span(with_prefix(&[UserOps::Assert], 15))]);
    assert_eq!(1, l.skip().len());
    match &l.skip()[0] {
        ProgramBlock::Span(s) => {
            assert_eq!(with_prefix(&[UserOps::Not, UserOps::Assert], 15), s.instructions);
        }
        _ => panic!("the skip branch is a span"),
    }
    assert_eq!(1, l.body().len());
    assert!(l.body()[0].is_span());
    assert_ne!(l.body_hash(), l.skip_hash());
}

#[test]
fn hashes_depend_on_branches() {
    let t = vec![span(with_prefix(&[UserOps::Assert], 15))];
    let f = vec![span(with_prefix(&[UserOps::Not, UserOps::Assert], 15))];
    let w = Switch::new(t, f);
    assert_ne!(w.true_branch_hash(), w.false_branch_hash());
    assert_eq!(1, w.true_branch().len());
    assert_eq!(1, w.false_branch().len());
    let h = w.hash([0, 0, 0, 0]);
    assert_ne!(h, w.hash([1, 0, 0, 0]));
    assert_eq!(h, w.hash([0, 5, 6, 7]));
    let g = Group::new(vec![span(vec![UserOps::Noop; 15])]);
    assert_eq!(1, g.blocks().len());
    assert_eq!(g.hash([0, 0, 0, 0]), ProgramBlock::Group(g).hash([0, 0, 0, 0]));
}

#[test]
fn choose_constraints() {
    // CHOOSE selects current[0] when the condition is 1
    let current = vec![5, 9, 1, 4, 4, 0, 0];
    let next = vec![5, 4, 4, 0, 0];
    let mut evaluations = vec![0; 3];
    assert_eq!(0, enforce_choose(&mut evaluations, &current, &next, 1));
    assert_eq!(vec![0, 0, 0], evaluations);
    // a wrong result and a non-binary condition show up in the evaluations
    let current = vec![5, 9, 2, 4, 4, 0, 0];
    let mut evaluations = vec![0; 3];
    let binary = enforce_choose(&mut evaluations, &current, &next, 1);
    assert_eq!(2, binary);
    assert_ne!(0, evaluations[0]);
    // CHOOSE2 selects current[2..4] when the condition is 0
    let current = vec![1, 2, 3, 4, 0, 7, 8, 9];
    let next = vec![3, 4, 8, 9, 0, 0];
    let mut evaluations = vec![0; 2];
    assert_eq!(0, enforce_choose2(&mut evaluations, &current, &next, 1));
    assert_eq!(vec![0, 0], evaluations);
    // with the flag off nothing is constrained
    let mut evaluations = vec![3, 4];
    assert_eq!(0, enforce_choose2(&mut evaluations, &vec![1, 2, 3, 4, 5, 7, 8, 9], &next, 0));
    assert_eq!(vec![3, 4], evaluations);
}

#[test]
fn choose2_with_rows_of_equal_length() {
    let current = vec![1, 2, 3, 4, 1, 0, 8, 9];
    let next = vec![1, 2, 8, 9, 0, 0, 0, 0];
    let mut evaluations = vec![0; 4];
    assert_eq!(0, enforce_choose2(&mut evaluations, &current, &next, 1));
    assert_eq!(vec![0, 0, 0, 0], evaluations);
}
