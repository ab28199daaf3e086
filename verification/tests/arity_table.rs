use calx_vm::Calx;
use calx_vm::CalxInstr;
use calx_vm::CalxType;

#[test]
fn dup_reports_one_more_push_than_pop() {
    let (pops, pushes) = CalxInstr::Dup.stack_arity();
    assert_eq!((pops, pushes), (1, 2));
    assert_eq!(pushes, pops + 1);
}

#[test]
fn local_tee_balances_pops_and_pushes() {
    for slot in [0usize, 1, 7, usize::MAX] {
        let (pops, pushes) = CalxInstr::LocalTee(slot).stack_arity();
        assert_eq!((pops, pushes), (1, 1));
        assert_eq!(pops, pushes);
    }
}

#[test]
fn storage_family_arities() {
    assert_eq!(CalxInstr::LocalSet(0).stack_arity(), (1, 0));
    assert_eq!(CalxInstr::LocalGet(3).stack_arity(), (0, 1));
    assert_eq!(CalxInstr::LocalNew.stack_arity(), (0, 0));
    assert_eq!(CalxInstr::GlobalSet(1).stack_arity(), (1, 0));
    assert_eq!(CalxInstr::GlobalGet(2).stack_arity(), (0, 1));
    assert_eq!(CalxInstr::GlobalNew.stack_arity(), (0, 0));
}

#[test]
fn stack_shuffling_arities() {
    assert_eq!(CalxInstr::Const(Calx::I64(42)).stack_arity(), (0, 1));
    assert_eq!(CalxInstr::Const(Calx::Nil).stack_arity(), (0, 1));
    assert_eq!(CalxInstr::Drop.stack_arity(), (1, 0));
}

#[test]
fn arithmetic_and_comparison_arities() {
    for i in [
        CalxInstr::IntAdd,
        CalxInstr::IntMul,
        CalxInstr::IntDiv,
        CalxInstr::IntRem,
        CalxInstr::IntShr,
        CalxInstr::IntShl,
        CalxInstr::IntEq,
        CalxInstr::IntNe,
        CalxInstr::IntLt,
        CalxInstr::IntLe,
        CalxInstr::IntGt,
        CalxInstr::IntGe,
        CalxInstr::Add,
        CalxInstr::Mul,
        CalxInstr::Div,
    ] {
        assert_eq!(i.stack_arity(), (2, 1));
    }
    assert_eq!(CalxInstr::IntNeg.stack_arity(), (1, 1));
    assert_eq!(CalxInstr::Neg.stack_arity(), (1, 1));
}

#[test]
fn aggregate_and_boolean_arities() {
    assert_eq!(CalxInstr::NewList.stack_arity(), (0, 1));
    assert_eq!(CalxInstr::ListGet.stack_arity(), (2, 1));
    assert_eq!(CalxInstr::ListSet.stack_arity(), (3, 0));
    assert_eq!(CalxInstr::NewLink.stack_arity(), (0, 1));
    assert_eq!(CalxInstr::And.stack_arity(), (2, 1));
    assert_eq!(CalxInstr::Or.stack_arity(), (2, 1));
    assert_eq!(CalxInstr::Not.stack_arity(), (1, 1));
}

#[test]
fn control_and_call_family_arities() {
    assert_eq!(CalxInstr::Br(4).stack_arity(), (0, 0));
    assert_eq!(CalxInstr::BrIf(4).stack_arity(), (1, 0));
    assert_eq!(CalxInstr::Jmp(8).stack_arity(), (0, 0));
    assert_eq!(CalxInstr::JmpIf(8).stack_arity(), (1, 0));
    assert_eq!(CalxInstr::BlockEnd(true).stack_arity(), (0, 0));
    assert_eq!(CalxInstr::Call("f".to_string()).stack_arity(), (0, 0));
    assert_eq!(CalxInstr::ReturnCall("f".to_string()).stack_arity(), (0, 0));
    assert_eq!(CalxInstr::CallImport("log".to_string()).stack_arity(), (0, 0));
    assert_eq!(CalxInstr::Unreachable.stack_arity(), (0, 0));
    assert_eq!(CalxInstr::Nop.stack_arity(), (0, 0));
    assert_eq!(CalxInstr::Quit(1).stack_arity(), (0, 0));
    assert_eq!(CalxInstr::Return.stack_arity(), (1, 0));
    assert_eq!(CalxInstr::EndIf.stack_arity(), (0, 0));
}

#[test]
fn diagnostics_arities() {
    assert_eq!(CalxInstr::Echo.stack_arity(), (1, 0));
    assert_eq!(CalxInstr::Inspect.stack_arity(), (0, 0));
    assert_eq!(CalxInstr::Assert("expected".to_string()).stack_arity(), (1, 0));
}

#[test]
fn block_arity_follows_declared_type_lists() {
    let b1 = CalxInstr::Block {
        params_types: vec![],
        ret_types: vec![CalxType::I64],
        looped: false,
        from: 0,
        to: 4,
    };
    assert_eq!(b1.stack_arity(), (0, 1));

    let b2 = CalxInstr::Block {
        params_types: vec![CalxType::I64, CalxType::Str],
        ret_types: vec![],
        looped: true,
        from: 2,
        to: 10,
    };
    assert_eq!(b2.stack_arity(), (2, 0));
}

#[test]
fn if_arity_is_one_pop_and_declared_results_regardless_of_targets() {
    let a = CalxInstr::If {
        ret_types: vec![CalxType::I64, CalxType::Bool],
        then_to: 1,
        else_to: 2,
        to: 3,
    };
    let b = CalxInstr::If {
        ret_types: vec![CalxType::I64, CalxType::Bool],
        then_to: 90,
        else_to: 17,
        to: 400,
    };
    assert_eq!(a.stack_arity(), (1, 2));
    assert_eq!(a.stack_arity(), b.stack_arity());

    let empty = CalxInstr::If {
        ret_types: vec![],
        then_to: 0,
        else_to: 0,
        to: 0,
    };
    assert_eq!(empty.stack_arity(), (1, 0));
}

#[test]
fn arity_is_deterministic_for_equal_instructions() {
    let a = CalxInstr::Block {
        params_types: vec![CalxType::Nil],
        ret_types: vec![CalxType::List],
        looped: true,
        from: 5,
        to: 9,
    };
    let b = a.clone();
    assert_eq!(a, b);
    assert_eq!(a.stack_arity(), b.stack_arity());
    assert_eq!(a.stack_arity(), a.stack_arity());
}
