//! Value types and embedded constants.
//!
//! The machine's full value representation lives with the interpreter; the
//! instruction layer only needs a type vocabulary for block signatures and a
//! constant value it can carry through unchanged.

use vstd::prelude::*;

verus! {

/// The type vocabulary the machine distinguishes; parameter and result types
/// of blocks and conditionals are drawn from this set.
#[derive(Clone, Copy, Debug, PartialEq, Eq, Structural)]
pub enum CalxType {
    Nil,
    Bool,
    I64,
    F64,
    Str,
    List,
    Link,
}

/// A constant value embedded in a `Const` instruction. Instructions never
/// inspect the value; they only carry it.
#[derive(Clone, Debug, PartialEq)]
pub enum Calx {
    Nil,
    Bool(bool),
    I64(i64),
    Str(String),
}

/// The mathematical model of a `Calx` constant: a string constant becomes a
/// sequence of characters.
pub enum CalxView {
    Nil,
    Bool(bool),
    I64(i64),
    Str(Seq<char>),
}

impl View for Calx {
    type V = CalxView;

    open spec fn view(&self) -> CalxView {
        match self {
            Calx::Nil => CalxView::Nil,
            Calx::Bool(b) => CalxView::Bool(*b),
            Calx::I64(n) => CalxView::I64(*n),
            Calx::Str(s) => CalxView::Str(s@),
        }
    }
}

} // verus!
