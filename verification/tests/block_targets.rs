use calx_vm::CalxInstr;
use calx_vm::CalxType;

fn loop_block() -> CalxInstr {
    CalxInstr::Block {
        params_types: vec![],
        ret_types: vec![CalxType::I64],
        looped: true,
        from: 3,
        to: 9,
    }
}

#[test]
fn block_end_with_loop_flag_is_a_loop_back_candidate() {
    // Reaching `BlockEnd(true)` under `Block { looped: true, from: 3, to: 9 }`
    // must offer index 3 as the continuation, not an unconditional exit to 9.
    assert_eq!(loop_block().block_end_target(true), Some(3));
}

#[test]
fn block_end_without_loop_flag_falls_through() {
    assert_eq!(loop_block().block_end_target(false), Some(9));
}

#[test]
fn only_blocks_have_end_targets() {
    assert_eq!(CalxInstr::Nop.block_end_target(true), None);
    assert_eq!(CalxInstr::BlockEnd(true).block_end_target(true), None);
    let cond = CalxInstr::If {
        ret_types: vec![],
        then_to: 1,
        else_to: 2,
        to: 3,
    };
    assert_eq!(cond.block_end_target(false), None);
}
