use stark_vm::field;
use stark_vm::opcodes::{OpHint, UserOps};
use stark_vm::programs::assembly::errors::{AssemblyError, AssemblyErrorKind, HintMap, ParamReason};
use stark_vm::programs::assembly::parsers::{
    parse_add, parse_and, parse_assert, parse_choose, parse_div, parse_drop, parse_dup, parse_eq, parse_gt,
    parse_hash, parse_inv, parse_isodd, parse_lt, parse_mpath, parse_mul, parse_neg, parse_noop, parse_not,
    parse_or, parse_pad, parse_pick, parse_push, parse_rc, parse_read, parse_roll, parse_sub, parse_swap,
};

fn entries(hints: &HintMap) -> Vec<(usize, OpHint)> {
    (0..hints.len()).map(|i| hints.entry(i)).collect()
}

fn kind(r: Result<bool, AssemblyError>) -> AssemblyErrorKind {
    match r {
        Err(e) => e.kind,
        Ok(_) => panic!("expected an error"),
    }
}

fn expand(f: fn(&mut Vec<UserOps>, &[&str], usize) -> Result<bool, AssemblyError>, op: &[&str]) -> Vec<UserOps> {
    let mut program = Vec::new();
    assert_eq!(true, f(&mut program, op, 0).unwrap());
    program
}

use UserOps::{
    Add, And, Assert, AssertEq, BinAcc, Choose, Choose2, Cmp, Dup, Dup2, Dup4, Drop, Drop4, Inv, Mul, Neg,
    Noop, Not, Or, Pad2, Push, Read, Read2, RescR, Roll4, Roll8, Swap, Swap2, Swap4,
};

#[test]
fn push_alignment_pads_to_eight() {
    let mut program = Vec::new();
    let mut hints = HintMap::new();
    parse_noop(&mut program, &["noop"], 0).unwrap();
    parse_noop(&mut program, &["noop"], 1).unwrap();
    parse_noop(&mut program, &["noop"], 2).unwrap();
    parse_push(&mut program, &mut hints, &["push", "42"], 3).unwrap();
    assert_eq!(vec![Noop, Noop, Noop, Noop, Noop, Noop, Noop, Noop, Push], program);
    assert_eq!(vec![(8, OpHint::PushValue(42))], entries(&hints));
    assert_eq!(OpHint::PushValue(42), hints.get(8));
    assert_eq!(OpHint::NoHint, hints.get(3));
}

#[test]
fn push_at_aligned_length_adds_no_padding() {
    let mut program = vec![Noop; 8];
    let mut hints = HintMap::new();
    parse_push(&mut program, &mut hints, &["push", "0x10"], 0).unwrap();
    assert_eq!(9, program.len());
    assert_eq!(vec![(8, OpHint::PushValue(16))], entries(&hints));
}

#[test]
fn eq_macro() {
    let mut program = Vec::new();
    let mut hints = HintMap::new();
    parse_eq(&mut program, &mut hints, &["eq"], 0).unwrap();
    assert_eq!(vec![Read, UserOps::Eq], program);
    assert_eq!(vec![(0, OpHint::EqStart)], entries(&hints));
}

#[test]
fn gt_64_macro() {
    let mut program = Vec::new();
    let mut hints = HintMap::new();
    parse_gt(&mut program, &mut hints, &["gt", "64"], 0).unwrap();
    // 4 preamble + 4 pads (the PUSH lands on index 8) + PUSH + 64 CMP + 9 finale
    assert_eq!(82, program.len());
    assert_eq!(vec![Pad2, Pad2, Pad2, Dup, Noop, Noop, Noop, Noop, Push], program[0..9].to_vec());
    assert_eq!(vec![Cmp; 64], program[9..73].to_vec());
    assert_eq!(vec![Drop4, Pad2, Swap4, Roll4, AssertEq, AssertEq, Roll4, Dup, Drop4], program[73..].to_vec());
    assert_eq!(vec![(8, OpHint::PushValue(1u128 << 63)), (9, OpHint::CmpStart(64))], entries(&hints));
}

#[test]
fn lt_macro() {
    let mut program = Vec::new();
    let mut hints = HintMap::new();
    parse_lt(&mut program, &mut hints, &["lt", "4"], 0).unwrap();
    assert_eq!(9 + 4 + 8, program.len());
    assert_eq!(vec![Drop4, Pad2, Swap4, Roll4, AssertEq, AssertEq, Dup, Drop4], program[13..].to_vec());
    assert_eq!(vec![(8, OpHint::PushValue(8)), (9, OpHint::CmpStart(4))], entries(&hints));
}

#[test]
fn rc_macro() {
    let mut program = Vec::new();
    let mut hints = HintMap::new();
    parse_rc(&mut program, &mut hints, &["rc", "16"], 0).unwrap();
    let mut expected = vec![Pad2, Noop, Noop, Noop, Noop, Noop, Noop, Noop, Push];
    expected.extend(vec![BinAcc; 16]);
    expected.extend([Drop, Drop, Read, UserOps::Eq]);
    assert_eq!(expected, program);
    assert_eq!(
        vec![(8, OpHint::PushValue(1 << 15)), (9, OpHint::RcStart(16)), (27, OpHint::EqStart)],
        entries(&hints)
    );
}

#[test]
fn isodd_macro() {
    let mut program = Vec::new();
    let mut hints = HintMap::new();
    parse_isodd(&mut program, &mut hints, &["isodd", "128"], 0).unwrap();
    assert_eq!(9 + 128 + 3, program.len());
    assert_eq!(vec![Swap2, AssertEq, Drop], program[137..].to_vec());
    assert_eq!(vec![(8, OpHint::PushValue(1 << 127)), (9, OpHint::RcStart(128))], entries(&hints));
}

#[test]
fn stack_manipulation_expansions() {
    assert_eq!(vec![Dup], expand(parse_dup, &["dup"]));
    assert_eq!(vec![Dup2], expand(parse_dup, &["dup", "2"]));
    assert_eq!(vec![Dup4, Roll4, Drop], expand(parse_dup, &["dup", "3"]));
    assert_eq!(vec![Dup4], expand(parse_dup, &["dup", "4"]));
    assert_eq!(vec![Drop], expand(parse_drop, &["drop"]));
    assert_eq!(vec![Drop, Drop], expand(parse_drop, &["drop", "2"]));
    assert_eq!(vec![Dup, Drop4], expand(parse_drop, &["drop", "3"]));
    assert_eq!(vec![Drop4], expand(parse_drop, &["drop", "4"]));
    assert_eq!(vec![Drop, Drop4], expand(parse_drop, &["drop", "5"]));
    assert_eq!(vec![Drop, Drop, Drop4], expand(parse_drop, &["drop", "6"]));
    assert_eq!(vec![Dup, Drop4, Drop4], expand(parse_drop, &["drop", "7"]));
    assert_eq!(vec![Drop4, Drop4], expand(parse_drop, &["drop", "8"]));
    assert_eq!(vec![Pad2, Drop], expand(parse_pad, &["pad"]));
    assert_eq!(vec![Pad2, Pad2, Pad2, Drop], expand(parse_pad, &["pad", "5"]));
    assert_eq!(vec![Pad2, Pad2, Dup4], expand(parse_pad, &["pad", "8"]));
    assert_eq!(vec![Dup2, Drop], expand(parse_pick, &["pick"]));
    assert_eq!(vec![Dup4, Roll4, Drop, Drop, Drop], expand(parse_pick, &["pick", "2"]));
    assert_eq!(vec![Dup4, Drop, Drop, Drop], expand(parse_pick, &["pick", "3"]));
    assert_eq!(vec![Swap], expand(parse_swap, &["swap"]));
    assert_eq!(vec![Swap2], expand(parse_swap, &["swap", "2"]));
    assert_eq!(vec![Swap4], expand(parse_swap, &["swap", "4"]));
    assert_eq!(vec![Roll4], expand(parse_roll, &["roll", "4"]));
    assert_eq!(vec![Roll8], expand(parse_roll, &["roll", "8"]));
    assert_eq!(vec![Choose], expand(parse_choose, &["choose"]));
    assert_eq!(vec![Choose2], expand(parse_choose, &["choose", "2"]));
}

#[test]
fn arithmetic_expansions() {
    assert_eq!(vec![Add], expand(parse_add, &["add"]));
    assert_eq!(vec![Neg, Add], expand(parse_sub, &["sub"]));
    assert_eq!(vec![Mul], expand(parse_mul, &["mul"]));
    assert_eq!(vec![Inv, Mul], expand(parse_div, &["div"]));
    assert_eq!(vec![Neg], expand(parse_neg, &["neg"]));
    assert_eq!(vec![Inv], expand(parse_inv, &["inv"]));
    assert_eq!(vec![Not], expand(parse_not, &["not"]));
    assert_eq!(vec![And], expand(parse_and, &["and"]));
    assert_eq!(vec![Or], expand(parse_or, &["or"]));
    assert_eq!(vec![Noop], expand(parse_noop, &["noop"]));
    assert_eq!(vec![Assert], expand(parse_assert, &["assert"]));
    assert_eq!(vec![AssertEq], expand(parse_assert, &["assert", "eq"]));
    assert_eq!(vec![Read], expand(parse_read, &["read"]));
    assert_eq!(vec![Read], expand(parse_read, &["read", "a"]));
    assert_eq!(vec![Read2], expand(parse_read, &["read", "ab"]));
}

#[test]
fn hash_expansion() {
    let program = expand(parse_hash, &["hash", "2"]);
    let mut expected = vec![Pad2, Pad2];
    expected.extend(vec![Noop; 14]);
    expected.extend(vec![RescR; 10]);
    expected.push(Drop4);
    assert_eq!(expected, program);
    let program = expand(parse_hash, &["hash", "1"]);
    assert_eq!(vec![Pad2, Pad2, Pad2, Drop], program[0..4].to_vec());
    assert_eq!(27, program.len());
}

#[test]
fn mpath_expansion() {
    let program = expand(parse_mpath, &["mpath", "3"]);
    assert_eq!(16 + 32 + 28, program.len());
    assert_eq!(vec![Read2, Dup4, Pad2], program[0..3].to_vec());
    assert_eq!(vec![RescR; 10], program[16..26].to_vec());
    assert_eq!(vec![Drop4, Read2, Swap2, Swap4, Swap2, Pad2], program[26..32].to_vec());
    assert_eq!(vec![Read2, Dup4, Pad2, Noop], program[44..48].to_vec());
    assert_eq!(vec![Drop4, Choose2], program[74..76].to_vec());
    assert_eq!(16 + 28, expand(parse_mpath, &["mpath", "2"]).len());
}

#[test]
fn parameter_errors() {
    let mut p = Vec::new();
    let mut h = HintMap::new();
    assert_eq!(AssemblyErrorKind::ExtraParam, kind(parse_noop(&mut p, &["noop", "1"], 0)));
    assert_eq!(AssemblyErrorKind::ExtraParam, kind(parse_dup(&mut p, &["dup", "1", "2"], 0)));
    assert_eq!(AssemblyErrorKind::MissingParam, kind(parse_push(&mut p, &mut h, &["push"], 0)));
    assert_eq!(AssemblyErrorKind::InvalidParam, kind(parse_push(&mut p, &mut h, &["push", "4x"], 0)));
    assert_eq!(AssemblyErrorKind::InvalidParam, kind(parse_dup(&mut p, &["dup", "x"], 0)));
    assert_eq!(
        AssemblyErrorKind::InvalidParamReason(ParamReason::Zero),
        kind(parse_dup(&mut p, &["dup", "0"], 0))
    );
    assert_eq!(
        AssemblyErrorKind::InvalidParamReason(ParamReason::NotAllowed),
        kind(parse_dup(&mut p, &["dup", "5"], 0))
    );
    assert_eq!(
        AssemblyErrorKind::InvalidParamReason(ParamReason::NotAllowed),
        kind(parse_assert(&mut p, &["assert", "ne"], 0))
    );
    assert_eq!(
        AssemblyErrorKind::InvalidParamReason(ParamReason::OutOfRange(4, 128)),
        kind(parse_gt(&mut p, &mut h, &["gt", "3"], 0))
    );
    assert_eq!(
        AssemblyErrorKind::InvalidParamReason(ParamReason::OutOfRange(4, 128)),
        kind(parse_rc(&mut p, &mut h, &["rc", "129"], 0))
    );
    assert_eq!(
        AssemblyErrorKind::InvalidParamReason(ParamReason::OutOfRange(2, 256)),
        kind(parse_mpath(&mut p, &["mpath", "1"], 0))
    );
    let modulus = field::MODULUS.to_string();
    assert_eq!(
        AssemblyErrorKind::InvalidParamReason(ParamReason::NotFieldElement),
        kind(parse_push(&mut p, &mut h, &["push", &modulus], 0))
    );
    assert!(p.is_empty());
    assert_eq!(0, h.len());
}

#[test]
fn errors_carry_token_and_step() {
    let mut p = Vec::new();
    match parse_swap(&mut p, &["swap", "3"], 7) {
        Err(e) => {
            assert_eq!(vec!["swap".to_string(), "3".to_string()], e.op);
            assert_eq!(7, e.step);
        }
        Ok(_) => panic!("expected an error"),
    }
}

#[test]
fn push_values_in_decimal_and_hex() {
    let mut p = Vec::new();
    let mut h = HintMap::new();
    parse_push(&mut p, &mut h, &["push", "0xff"], 0).unwrap();
    parse_push(&mut p, &mut h, &["push", "+12"], 1).unwrap();
    parse_push(&mut p, &mut h, &["push", "0xABC"], 2).unwrap();
    assert_eq!(
        vec![(0, OpHint::PushValue(255)), (8, OpHint::PushValue(12)), (16, OpHint::PushValue(0xabc))],
        entries(&h)
    );
    let max = (field::MODULUS - 1).to_string();
    parse_push(&mut p, &mut h, &["push", &max], 3).unwrap();
    assert_eq!(OpHint::PushValue(field::MODULUS - 1), h.get(24));
}

use stark_vm::programs::assembly::assembler::assemble;

#[test]
fn assemble_push_alignment() {
    let (program, hints) = assemble("noop noop noop push.42").unwrap();
    assert_eq!(vec![Noop, Noop, Noop, Noop, Noop, Noop, Noop, Noop, Push], program);
    assert_eq!(vec![(8, OpHint::PushValue(42))], entries(&hints));
}

#[test]
fn assemble_eq() {
    let (program, hints) = assemble("eq").unwrap();
    assert_eq!(vec![Read, UserOps::Eq], program);
    assert_eq!(vec![(0, OpHint::EqStart)], entries(&hints));
}

#[test]
fn assemble_gt_64() {
    let (program, hints) = assemble("gt.64").unwrap();
    assert_eq!(82, program.len());
    assert_eq!(OpHint::PushValue(1u128 << 63), hints.get(8));
    assert_eq!(OpHint::CmpStart(64), hints.get(9));
    assert_eq!(Cmp, program[9]);
}

#[test]
fn assemble_every_push_is_aligned() {
    let source = "read dup.3 push.7 add\n\tpush.0x20 gt.8 rc.16 isodd.4 push.1 hash.3 mpath.2 push.9";
    let (program, hints) = assemble(source).unwrap();
    let mut pushes = 0;
    for (i, op) in program.iter().enumerate() {
        if *op == Push {
            pushes += 1;
            assert_eq!(0, i % 8);
            let keyed: Vec<(usize, OpHint)> = entries(&hints).into_iter().filter(|e| e.0 == i).collect();
            assert_eq!(1, keyed.len());
            assert!(matches!(keyed[0].1, OpHint::PushValue(_)));
        }
    }
    assert_eq!(7, pushes);
}

#[test]
fn assemble_reports_token_errors() {
    match assemble("noop frob.2 noop") {
        Err(e) => {
            assert_eq!(AssemblyErrorKind::UnknownOp, e.kind);
            assert_eq!(1, e.step);
            assert_eq!(vec!["frob".to_string(), "2".to_string()], e.op);
        }
        Ok(_) => panic!("expected an error"),
    }
    match assemble("push.1 push") {
        Err(e) => {
            assert_eq!(AssemblyErrorKind::MissingParam, e.kind);
            assert_eq!(1, e.step);
        }
        Ok(_) => panic!("expected an error"),
    }
    let (program, hints) = assemble("   ").unwrap();
    assert!(program.is_empty());
    assert_eq!(0, hints.len());
}
