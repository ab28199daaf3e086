//! The closed instruction set and its static stack-effect table.
//!
//! Every instruction the machine can execute is one variant of [`CalxInstr`];
//! the set is closed, so every consumer can match it exhaustively. The
//! stack-effect table [`CalxInstr::stack_arity`] reports, per variant, how
//! many operand-stack slots the instruction consumes and produces. For the
//! call family (`Call`, `ReturnCall`, `CallImport`) the table deliberately
//! reports `(0, 0)`: their true effect depends on the callee's signature and
//! must be joined in from an external signature source.

use vstd::prelude::*;

use crate::calx::Calx;
use crate::calx::CalxType;
use crate::calx::CalxView;

verus! {

/// Edition tag guarding serialization compatibility: any persisted form of an
/// instruction sequence carries this tag, and a consumer must reject a tag it
/// does not recognize.
pub const CALX_INSTR_EDITION: &'static str = "0.2";

/// The edition tag's characters, as contracts speak of them.
pub open spec fn spec_edition() -> Seq<char> {
    CALX_INSTR_EDITION@
}

/// One instruction of the machine, a closed tagged union.
///
/// Index operands (local slot, global slot, jump target) are plain
/// non-negative integers whose in-range validity is the consumer's invariant,
/// not checked at construction. Call targets are unresolved names. `Block`
/// carries its body as the half-open range `[from, to)` over the enclosing
/// instruction sequence, and `If` carries its three precomputed, authoritative
/// target indices.
#[derive(Clone, Debug, PartialEq)]
pub enum CalxInstr {
    /// Pop one value and store it in the indexed local slot.
    LocalSet(usize),
    /// Store the top value in the indexed local slot and keep it on the stack.
    LocalTee(usize),
    /// Push the value of the indexed local slot.
    LocalGet(usize),
    /// Allocate a new local slot; no stack effect.
    LocalNew,
    /// Pop one value and store it in the indexed global slot.
    GlobalSet(usize),
    /// Push the value of the indexed global slot.
    GlobalGet(usize),
    /// Allocate a new global slot; no stack effect.
    GlobalNew,
    /// Push the embedded constant.
    Const(Calx),
    /// Duplicate the top value.
    Dup,
    /// Discard the top value.
    Drop,
    IntAdd,
    IntMul,
    IntDiv,
    IntRem,
    IntNeg,
    IntShr,
    IntShl,
    /// Integer equality.
    IntEq,
    /// Integer inequality.
    IntNe,
    /// Integer less-than.
    IntLt,
    /// Integer less-than-or-equal.
    IntLe,
    /// Integer greater-than.
    IntGt,
    /// Integer greater-than-or-equal.
    IntGe,
    Add,
    Mul,
    Div,
    Neg,
    NewList,
    ListGet,
    ListSet,
    NewLink,
    And,
    Or,
    Not,
    /// Structured branch to a structural target; the authoring form.
    Br(usize),
    /// Structured conditional branch; pops one condition value.
    BrIf(usize),
    /// Resolved absolute-index jump; produced by lowering, never by a front end.
    Jmp(usize),
    /// Resolved absolute-index conditional jump; pops one condition value.
    JmpIf(usize),
    /// A structured region of instructions with declared entry/exit value
    /// counts, its body at `[from, to)` of the enclosing sequence.
    Block {
        params_types: Vec<CalxType>,
        ret_types: Vec<CalxType>,
        /// True when the block is a loop.
        looped: bool,
        from: usize,
        to: usize,
    },
    /// End marker of a block; the flag tells whether a loop-back is a
    /// candidate continuation.
    BlockEnd(bool),
    /// Pop and emit the top value.
    Echo,
    /// Ordinary call of the named function.
    Call(String),
    /// Tail call of the named function: reuses the current frame.
    ReturnCall(String),
    /// Call of a host-provided function.
    CallImport(String),
    /// Statically known dead code; executing it is a fatal fault.
    Unreachable,
    Nop,
    /// Terminate the whole program with the given exit value.
    Quit(usize),
    /// Return from the current function with the top value.
    Return,
    /// Pop one boolean-like value; on falsy, abort with the given message.
    Assert(String),
    /// Dump the current stack state without popping.
    Inspect,
    /// Conditional: pops one condition value, continues at `then_to` when
    /// truthy, else at `else_to`; both arms converge at `to` having pushed
    /// `ret_types.len()` values.
    If {
        ret_types: Vec<CalxType>,
        then_to: usize,
        else_to: usize,
        to: usize,
    },
    /// End marker of a conditional.
    EndIf,
}

/// The mathematical model of an instruction: names become character
/// sequences, type lists become sequences, constants become their model.
pub enum CalxInstrView {
    LocalSet(usize),
    LocalTee(usize),
    LocalGet(usize),
    LocalNew,
    GlobalSet(usize),
    GlobalGet(usize),
    GlobalNew,
    Const(CalxView),
    Dup,
    Drop,
    IntAdd,
    IntMul,
    IntDiv,
    IntRem,
    IntNeg,
    IntShr,
    IntShl,
    IntEq,
    IntNe,
    IntLt,
    IntLe,
    IntGt,
    IntGe,
    Add,
    Mul,
    Div,
    Neg,
    NewList,
    ListGet,
    ListSet,
    NewLink,
    And,
    Or,
    Not,
    Br(usize),
    BrIf(usize),
    Jmp(usize),
    JmpIf(usize),
    Block {
        params_types: Seq<CalxType>,
        ret_types: Seq<CalxType>,
        looped: bool,
        from: usize,
        to: usize,
    },
    BlockEnd(bool),
    Echo,
    Call(Seq<char>),
    ReturnCall(Seq<char>),
    CallImport(Seq<char>),
    Unreachable,
    Nop,
    Quit(usize),
    Return,
    Assert(Seq<char>),
    Inspect,
    If {
        ret_types: Seq<CalxType>,
        then_to: usize,
        else_to: usize,
        to: usize,
    },
    EndIf,
}

impl View for CalxInstr {
    type V = CalxInstrView;

    open spec fn view(&self) -> CalxInstrView {
        match self {
            CalxInstr::LocalSet(n) => CalxInstrView::LocalSet(*n),
            CalxInstr::LocalTee(n) => CalxInstrView::LocalTee(*n),
            CalxInstr::LocalGet(n) => CalxInstrView::LocalGet(*n),
            CalxInstr::LocalNew => CalxInstrView::LocalNew,
            CalxInstr::GlobalSet(n) => CalxInstrView::GlobalSet(*n),
            CalxInstr::GlobalGet(n) => CalxInstrView::GlobalGet(*n),
            CalxInstr::GlobalNew => CalxInstrView::GlobalNew,
            CalxInstr::Const(v) => CalxInstrView::Const(v@),
            CalxInstr::Dup => CalxInstrView::Dup,
            CalxInstr::Drop => CalxInstrView::Drop,
            CalxInstr::IntAdd => CalxInstrView::IntAdd,
            CalxInstr::IntMul => CalxInstrView::IntMul,
            CalxInstr::IntDiv => CalxInstrView::IntDiv,
            CalxInstr::IntRem => CalxInstrView::IntRem,
            CalxInstr::IntNeg => CalxInstrView::IntNeg,
            CalxInstr::IntShr => CalxInstrView::IntShr,
            CalxInstr::IntShl => CalxInstrView::IntShl,
            CalxInstr::IntEq => CalxInstrView::IntEq,
            CalxInstr::IntNe => CalxInstrView::IntNe,
            CalxInstr::IntLt => CalxInstrView::IntLt,
            CalxInstr::IntLe => CalxInstrView::IntLe,
            CalxInstr::IntGt => CalxInstrView::IntGt,
            CalxInstr::IntGe => CalxInstrView::IntGe,
            CalxInstr::Add => CalxInstrView::Add,
            CalxInstr::Mul => CalxInstrView::Mul,
            CalxInstr::Div => CalxInstrView::Div,
            CalxInstr::Neg => CalxInstrView::Neg,
            CalxInstr::NewList => CalxInstrView::NewList,
            CalxInstr::ListGet => CalxInstrView::ListGet,
            CalxInstr::ListSet => CalxInstrView::ListSet,
            CalxInstr::NewLink => CalxInstrView::NewLink,
            CalxInstr::And => CalxInstrView::And,
            CalxInstr::Or => CalxInstrView::Or,
            CalxInstr::Not => CalxInstrView::Not,
            CalxInstr::Br(t) => CalxInstrView::Br(*t),
            CalxInstr::BrIf(t) => CalxInstrView::BrIf(*t),
            CalxInstr::Jmp(t) => CalxInstrView::Jmp(*t),
            CalxInstr::JmpIf(t) => CalxInstrView::JmpIf(*t),
            CalxInstr::Block { params_types, ret_types, looped, from, to } => {
                CalxInstrView::Block {
                    params_types: params_types@,
                    ret_types: ret_types@,
                    looped: *looped,
                    from: *from,
                    to: *to,
                }
            },
            CalxInstr::BlockEnd(b) => CalxInstrView::BlockEnd(*b),
            CalxInstr::Echo => CalxInstrView::Echo,
            CalxInstr::Call(name) => CalxInstrView::Call(name@),
            CalxInstr::ReturnCall(name) => CalxInstrView::ReturnCall(name@),
            CalxInstr::CallImport(name) => CalxInstrView::CallImport(name@),
            CalxInstr::Unreachable => CalxInstrView::Unreachable,
            CalxInstr::Nop => CalxInstrView::Nop,
            CalxInstr::Quit(code) => CalxInstrView::Quit(*code),
            CalxInstr::Return => CalxInstrView::Return,
            CalxInstr::Assert(msg) => CalxInstrView::Assert(msg@),
            CalxInstr::Inspect => CalxInstrView::Inspect,
            CalxInstr::If { ret_types, then_to, else_to, to } => {
                CalxInstrView::If {
                    ret_types: ret_types@,
                    then_to: *then_to,
                    else_to: *else_to,
                    to: *to,
                }
            },
            CalxInstr::EndIf => CalxInstrView::EndIf,
        }
    }
}

/// The models of a sequence of instructions.
pub open spec fn instr_views(s: Seq<CalxInstr>) -> Seq<CalxInstrView> {
    s.map_values(|x: CalxInstr| x@)
}

/// The stack-effect table as a total function over the model: the number of
/// operand-stack slots an instruction pops and pushes. Only `Block` and `If`
/// derive their arity from operands (their declared type lists); every other
/// variant's arity is a fixed pair. The `(0, 0)` of the call family stands
/// for "unknown here, join with the callee's signature", never for "no
/// effect".
pub open spec fn spec_stack_arity(m: CalxInstrView) -> (nat, nat) {
    match m {
        CalxInstrView::LocalSet(_) => (1nat, 0nat),
        CalxInstrView::LocalTee(_) => (1nat, 1nat),
        CalxInstrView::LocalGet(_) => (0nat, 1nat),
        CalxInstrView::LocalNew => (0nat, 0nat),
        CalxInstrView::GlobalSet(_) => (1nat, 0nat),
        CalxInstrView::GlobalGet(_) => (0nat, 1nat),
        CalxInstrView::GlobalNew => (0nat, 0nat),
        CalxInstrView::Const(_) => (0nat, 1nat),
        CalxInstrView::Dup => (1nat, 2nat),
        CalxInstrView::Drop => (1nat, 0nat),
        CalxInstrView::IntAdd => (2nat, 1nat),
        CalxInstrView::IntMul => (2nat, 1nat),
        CalxInstrView::IntDiv => (2nat, 1nat),
        CalxInstrView::IntRem => (2nat, 1nat),
        CalxInstrView::IntNeg => (1nat, 1nat),
        CalxInstrView::IntShr => (2nat, 1nat),
        CalxInstrView::IntShl => (2nat, 1nat),
        CalxInstrView::IntEq => (2nat, 1nat),
        CalxInstrView::IntNe => (2nat, 1nat),
        CalxInstrView::IntLt => (2nat, 1nat),
        CalxInstrView::IntLe => (2nat, 1nat),
        CalxInstrView::IntGt => (2nat, 1nat),
        CalxInstrView::IntGe => (2nat, 1nat),
        CalxInstrView::Add => (2nat, 1nat),
        CalxInstrView::Mul => (2nat, 1nat),
        CalxInstrView::Div => (2nat, 1nat),
        CalxInstrView::Neg => (1nat, 1nat),
        CalxInstrView::NewList => (0nat, 1nat),
        CalxInstrView::ListGet => (2nat, 1nat),
        CalxInstrView::ListSet => (3nat, 0nat),
        CalxInstrView::NewLink => (0nat, 1nat),
        CalxInstrView::And => (2nat, 1nat),
        CalxInstrView::Or => (2nat, 1nat),
        CalxInstrView::Not => (1nat, 1nat),
        CalxInstrView::Br(_) => (0nat, 0nat),
        CalxInstrView::BrIf(_) => (1nat, 0nat),
        CalxInstrView::Jmp(_) => (0nat, 0nat),
        CalxInstrView::JmpIf(_) => (1nat, 0nat),
        CalxInstrView::Block { params_types, ret_types, .. } => {
            (params_types.len(), ret_types.len())
        },
        CalxInstrView::BlockEnd(_) => (0nat, 0nat),
        CalxInstrView::Echo => (1nat, 0nat),
        CalxInstrView::Call(_) => (0nat, 0nat),
        CalxInstrView::ReturnCall(_) => (0nat, 0nat),
        CalxInstrView::CallImport(_) => (0nat, 0nat),
        CalxInstrView::Unreachable => (0nat, 0nat),
        CalxInstrView::Nop => (0nat, 0nat),
        CalxInstrView::Quit(_) => (0nat, 0nat),
        CalxInstrView::Return => (1nat, 0nat),
        CalxInstrView::Assert(_) => (1nat, 0nat),
        CalxInstrView::Inspect => (0nat, 0nat),
        CalxInstrView::If { ret_types, .. } => (1nat, ret_types.len()),
        CalxInstrView::EndIf => (0nat, 0nat),
    }
}

/// Candidate continuation when the end marker of `block` is reached: the
/// block's own `from` when a loop-back is taken, else the first index after
/// the body. Meaningless for any other variant.
pub open spec fn spec_block_end_target(m: CalxInstrView, is_loop: bool) -> Option<usize> {
    match m {
        CalxInstrView::Block { from, to, .. } => {
            Some(if is_loop { from } else { to })
        },
        _ => None,
    }
}

impl CalxInstr {
    /// The `(pops, pushes)` pair of this instruction: how many operand-stack
    /// slots it consumes and produces. Total and independent of runtime
    /// values; for `Block` and `If` it is derived from the declared type
    /// lists alone. Callers that need the true arity of the call family must
    /// join this table with an external function-signature source.
    pub fn stack_arity(&self) -> (r: (usize, usize))
        ensures
            r.0 as nat == spec_stack_arity(self@).0,
            r.1 as nat == spec_stack_arity(self@).1,
    {
        match self {
            CalxInstr::LocalSet(_) => (1, 0),
            CalxInstr::LocalTee(_) => (1, 1),
            CalxInstr::LocalGet(_) => (0, 1),
            CalxInstr::LocalNew => (0, 0),
            CalxInstr::GlobalSet(_) => (1, 0),
            CalxInstr::GlobalGet(_) => (0, 1),
            CalxInstr::GlobalNew => (0, 0),
            CalxInstr::Const(_) => (0, 1),
            CalxInstr::Dup => (1, 2),
            CalxInstr::Drop => (1, 0),
            CalxInstr::IntAdd => (2, 1),
            CalxInstr::IntMul => (2, 1),
            CalxInstr::IntDiv => (2, 1),
            CalxInstr::IntRem => (2, 1),
            CalxInstr::IntNeg => (1, 1),
            CalxInstr::IntShr => (2, 1),
            CalxInstr::IntShl => (2, 1),
            CalxInstr::IntEq => (2, 1),
            CalxInstr::IntNe => (2, 1),
            CalxInstr::IntLt => (2, 1),
            CalxInstr::IntLe => (2, 1),
            CalxInstr::IntGt => (2, 1),
            CalxInstr::IntGe => (2, 1),
            CalxInstr::Add => (2, 1),
            CalxInstr::Mul => (2, 1),
            CalxInstr::Div => (2, 1),
            CalxInstr::Neg => (1, 1),
            CalxInstr::NewList => (0, 1),
            CalxInstr::ListGet => (2, 1),
            CalxInstr::ListSet => (3, 0),
            CalxInstr::NewLink => (0, 1),
            CalxInstr::And => (2, 1),
            CalxInstr::Or => (2, 1),
            CalxInstr::Not => (1, 1),
            CalxInstr::Br(_) => (0, 0),
            CalxInstr::BrIf(_) => (1, 0),
            CalxInstr::Jmp(_) => (0, 0),
            CalxInstr::JmpIf(_) => (1, 0),
            CalxInstr::Block { params_types, ret_types, .. } => {
                (params_types.len(), ret_types.len())
            },
            CalxInstr::BlockEnd(_) => (0, 0),
            CalxInstr::Echo => (1, 0),
            CalxInstr::Call(_) => (0, 0),
            CalxInstr::ReturnCall(_) => (0, 0),
            CalxInstr::CallImport(_) => (0, 0),
            CalxInstr::Unreachable => (0, 0),
            CalxInstr::Nop => (0, 0),
            CalxInstr::Quit(_) => (0, 0),
            CalxInstr::Return => (1, 0),
            CalxInstr::Assert(_) => (1, 0),
            CalxInstr::Inspect => (0, 0),
            CalxInstr::If { ret_types, .. } => (1, ret_types.len()),
            CalxInstr::EndIf => (0, 0),
        }
    }

    /// Candidate continuation index when this block's end marker,
    /// `BlockEnd(is_loop)`, is reached: the block's `from` when `is_loop`
    /// says to loop back, else the fall-through index `to`. `None` for any
    /// variant other than `Block`.
    pub fn block_end_target(&self, is_loop: bool) -> (r: Option<usize>)
        ensures
            r == spec_block_end_target(self@, is_loop),
    {
        match self {
            CalxInstr::Block { from, to, .. } => {
                Some(if is_loop { *from } else { *to })
            },
            _ => None,
        }
    }
}

/// The stack-effect table is deterministic: equal instructions always report
/// equal `(pops, pushes)` pairs, whatever their operand values.
pub proof fn lemma_stack_arity_deterministic(a: CalxInstrView, b: CalxInstrView)
    requires
        a == b,
    ensures
        spec_stack_arity(a) == spec_stack_arity(b),
{
}

/// `Dup` reports one more push than pop, and `LocalTee` reports exactly as
/// many pops as pushes, for every slot index.
pub proof fn lemma_dup_tee_arity(slot: usize)
    ensures
        spec_stack_arity(CalxInstrView::Dup).1 == spec_stack_arity(CalxInstrView::Dup).0 + 1,
        spec_stack_arity(CalxInstrView::LocalTee(slot)).0 == spec_stack_arity(
            CalxInstrView::LocalTee(slot),
        ).1,
{
}

/// A `Block` reports exactly its declared parameter count as pops and its
/// declared result count as pushes, whatever its loop flag and body range: in
/// particular `(0, 1)` for no parameters and one result, and `(2, 0)` for two
/// parameters and no result.
pub proof fn lemma_block_arity(
    params_types: Seq<CalxType>,
    ret_types: Seq<CalxType>,
    looped: bool,
    from: usize,
    to: usize,
)
    ensures
        spec_stack_arity(
            CalxInstrView::Block { params_types, ret_types, looped, from, to },
        ) == (params_types.len(), ret_types.len()),
        params_types.len() == 0 && ret_types.len() == 1 ==> spec_stack_arity(
            CalxInstrView::Block { params_types, ret_types, looped, from, to },
        ) == (0nat, 1nat),
        params_types.len() == 2 && ret_types.len() == 0 ==> spec_stack_arity(
            CalxInstrView::Block { params_types, ret_types, looped, from, to },
        ) == (2nat, 0nat),
{
}

/// An `If` reports exactly one pop (the condition) and as many pushes as its
/// declared result list is long, regardless of its target indices.
pub proof fn lemma_if_arity(ret_types: Seq<CalxType>, then_to: usize, else_to: usize, to: usize)
    ensures
        spec_stack_arity(CalxInstrView::If { ret_types, then_to, else_to, to }) == (
            1nat,
            ret_types.len(),
        ),
{
}

} // verus!
