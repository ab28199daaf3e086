use calx_vm::Calx;
use calx_vm::CalxInstr;
use calx_vm::CalxType;
use calx_vm::codec::DecodeError;
use calx_vm::codec::decode;
use calx_vm::codec::decode_with_edition;
use calx_vm::codec::encode;
use calx_vm::codec::encode_with_edition;
use calx_vm::instr::CALX_INSTR_EDITION;

fn every_variant() -> Vec<CalxInstr> {
    vec![
        CalxInstr::LocalSet(3),
        CalxInstr::LocalTee(1),
        CalxInstr::LocalGet(0),
        CalxInstr::LocalNew,
        CalxInstr::GlobalSet(2),
        CalxInstr::GlobalGet(9),
        CalxInstr::GlobalNew,
        CalxInstr::Const(Calx::Nil),
        CalxInstr::Const(Calx::Bool(true)),
        CalxInstr::Const(Calx::I64(-5)),
        CalxInstr::Const(Calx::I64(i64::MAX)),
        CalxInstr::Const(Calx::Str("hello".to_string())),
        CalxInstr::Dup,
        CalxInstr::Drop,
        CalxInstr::IntAdd,
        CalxInstr::IntMul,
        CalxInstr::IntDiv,
        CalxInstr::IntRem,
        CalxInstr::IntNeg,
        CalxInstr::IntShr,
        CalxInstr::IntShl,
        CalxInstr::IntEq,
        CalxInstr::IntNe,
        CalxInstr::IntLt,
        CalxInstr::IntLe,
        CalxInstr::IntGt,
        CalxInstr::IntGe,
        CalxInstr::Add,
        CalxInstr::Mul,
        CalxInstr::Div,
        CalxInstr::Neg,
        CalxInstr::NewList,
        CalxInstr::ListGet,
        CalxInstr::ListSet,
        CalxInstr::NewLink,
        CalxInstr::And,
        CalxInstr::Or,
        CalxInstr::Not,
        CalxInstr::Br(0),
        CalxInstr::BrIf(1),
        CalxInstr::Jmp(2),
        CalxInstr::JmpIf(usize::MAX),
        CalxInstr::Block {
            params_types: vec![CalxType::I64, CalxType::Str],
            ret_types: vec![CalxType::F64],
            looped: true,
            from: 3,
            to: 9,
        },
        CalxInstr::BlockEnd(true),
        CalxInstr::Echo,
        CalxInstr::Call("fib".to_string()),
        CalxInstr::ReturnCall("fib".to_string()),
        CalxInstr::CallImport("print".to_string()),
        CalxInstr::Unreachable,
        CalxInstr::Nop,
        CalxInstr::Quit(0),
        CalxInstr::Return,
        CalxInstr::Assert("positive operand".to_string()),
        CalxInstr::Inspect,
        CalxInstr::If {
            ret_types: vec![CalxType::Bool, CalxType::List, CalxType::Link, CalxType::Nil],
            then_to: 11,
            else_to: 12,
            to: 13,
        },
        CalxInstr::EndIf,
    ]
}

#[test]
fn round_trip_reproduces_every_variant() {
    let original = every_variant();
    let bytes = encode(&original);
    assert_eq!(decode(&bytes), Ok(original));
}

#[test]
fn round_trip_under_explicit_edition() {
    let original = every_variant();
    let bytes = encode_with_edition(CALX_INSTR_EDITION, &original);
    assert_eq!(decode_with_edition(CALX_INSTR_EDITION, &bytes), Ok(original));
}

#[test]
fn empty_sequence_round_trips() {
    let bytes = encode(&vec![]);
    assert_eq!(decode(&bytes), Ok(vec![]));
}

#[test]
fn non_ascii_names_round_trip() {
    let original = vec![
        CalxInstr::Call("计算".to_string()),
        CalxInstr::Assert("λ ≤ µ".to_string()),
    ];
    let bytes = encode(&original);
    assert_eq!(decode(&bytes), Ok(original));
}

#[test]
fn other_edition_tag_is_incompatible_not_partial() {
    let original = vec![CalxInstr::Nop, CalxInstr::Return];
    let bytes = encode_with_edition("0.9", &original);
    assert_eq!(
        decode_with_edition(CALX_INSTR_EDITION, &bytes),
        Err(DecodeError::IncompatibleEdition)
    );
    assert_eq!(decode(&bytes), Err(DecodeError::IncompatibleEdition));
}

#[test]
fn same_foreign_edition_still_round_trips() {
    let original = vec![CalxInstr::Echo];
    let bytes = encode_with_edition("0.9", &original);
    assert_eq!(decode_with_edition("0.9", &bytes), Ok(original));
}

#[test]
fn truncated_stream_is_malformed() {
    let mut bytes = encode(&every_variant());
    bytes.pop();
    assert_eq!(decode(&bytes), Err(DecodeError::Malformed));
}

#[test]
fn trailing_bytes_are_malformed() {
    let mut bytes = encode(&vec![CalxInstr::Nop]);
    bytes.push(0u8);
    assert_eq!(decode(&bytes), Err(DecodeError::Malformed));
}

#[test]
fn unknown_instruction_tag_is_malformed() {
    // Header: 8-byte tag length + 3 chars of "0.2" at 4 bytes each, then the
    // 8-byte instruction count; the first instruction tag sits at offset 28.
    let mut bytes = encode(&vec![CalxInstr::Nop]);
    bytes[28] = 200u8;
    assert_eq!(decode(&bytes), Err(DecodeError::Malformed));
}

#[test]
fn short_garbage_is_malformed() {
    assert_eq!(decode(&vec![1u8, 2u8, 3u8]), Err(DecodeError::Malformed));
}
