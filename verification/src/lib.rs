//! Bytecode core of a stack-based virtual machine: a closed instruction set,
//! the static stack-effect table each instruction honors, the structured
//! control-flow resolution model, and an edition-tagged binary form of
//! instruction sequences.

pub mod calx;
pub mod codec;
pub mod depth;
pub mod instr;
pub mod text;

pub use calx::Calx;
pub use calx::CalxType;
pub use calx::CalxView;
pub use instr::CalxInstr;
pub use instr::CalxInstrView;
