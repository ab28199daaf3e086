use calx_vm::Calx;
use calx_vm::CalxInstr;
use calx_vm::depth::CalxFuncSig;
use calx_vm::depth::StackCheckError;
use calx_vm::depth::check_depth;

fn sig(name: &str, params: usize, rets: usize) -> CalxFuncSig {
    CalxFuncSig { name: name.to_string(), params, rets }
}

#[test]
fn const_add_echo_is_depth_balanced() {
    let body = vec![
        CalxInstr::Const(Calx::I64(1)),
        CalxInstr::Const(Calx::I64(2)),
        CalxInstr::IntAdd,
        CalxInstr::Echo,
    ];
    let report = check_depth(&body, &vec![]).unwrap();
    assert_eq!(report.max_depth, 2);
    assert_eq!(report.final_depth, 0);
}

#[test]
fn empty_body_is_balanced_at_zero() {
    let report = check_depth(&vec![], &vec![]).unwrap();
    assert_eq!(report.max_depth, 0);
    assert_eq!(report.final_depth, 0);
}

#[test]
fn call_on_empty_stack_is_flagged_by_joined_check() {
    let body = vec![CalxInstr::Call("f".to_string())];
    let sigs = vec![sig("f", 2, 1)];
    assert_eq!(
        check_depth(&body, &sigs),
        Err(StackCheckError::StackUnderflow { index: 0 })
    );
}

#[test]
fn call_with_enough_operands_uses_callee_signature() {
    let body = vec![
        CalxInstr::Const(Calx::I64(1)),
        CalxInstr::Const(Calx::I64(2)),
        CalxInstr::Call("f".to_string()),
        CalxInstr::Echo,
    ];
    let sigs = vec![sig("g", 9, 9), sig("f", 2, 1)];
    let report = check_depth(&body, &sigs).unwrap();
    assert_eq!(report.max_depth, 2);
    assert_eq!(report.final_depth, 0);
}

#[test]
fn unknown_callee_is_an_error_not_a_no_op() {
    let body = vec![CalxInstr::Nop, CalxInstr::Call("missing".to_string())];
    assert_eq!(
        check_depth(&body, &vec![]),
        Err(StackCheckError::UnknownFunction { index: 1 })
    );
}

#[test]
fn first_underflow_names_its_instruction() {
    let body = vec![CalxInstr::Const(Calx::I64(7)), CalxInstr::IntAdd];
    assert_eq!(
        check_depth(&body, &vec![]),
        Err(StackCheckError::StackUnderflow { index: 1 })
    );
}

#[test]
fn tee_keeps_depth_while_dup_raises_it() {
    let body = vec![
        CalxInstr::Const(Calx::I64(5)),
        CalxInstr::LocalTee(0),
        CalxInstr::Dup,
        CalxInstr::Drop,
        CalxInstr::Echo,
    ];
    let report = check_depth(&body, &vec![]).unwrap();
    assert_eq!(report.max_depth, 2);
    assert_eq!(report.final_depth, 0);
}

#[test]
fn tail_call_and_import_join_signatures_too() {
    let body = vec![
        CalxInstr::Const(Calx::I64(1)),
        CalxInstr::ReturnCall("next".to_string()),
    ];
    let sigs = vec![sig("next", 1, 0)];
    let report = check_depth(&body, &sigs).unwrap();
    assert_eq!(report.max_depth, 1);
    assert_eq!(report.final_depth, 0);

    let body2 = vec![CalxInstr::CallImport("time".to_string())];
    let sigs2 = vec![sig("time", 0, 1)];
    let report2 = check_depth(&body2, &sigs2).unwrap();
    assert_eq!(report2.max_depth, 1);
    assert_eq!(report2.final_depth, 1);
}
