//! Edition-tagged binary form of instruction sequences.
//!
//! A persisted sequence is framed as: the edition tag (a length-prefixed
//! string), the instruction count, then one record per instruction. A
//! consumer first reads the tag and must reject a stream whose tag is not the
//! edition it understands, before looking at any instruction. Decoding is
//! strict: a stream that is not a complete, well-formed encoding is rejected
//! as malformed, never returned as partial data.
//!
//! All multi-byte integers are fixed-width little-endian; characters are
//! encoded as their four-byte Unicode scalar values.

use vstd::arithmetic::div_mod::lemma_fundamental_div_mod;
use vstd::arithmetic::div_mod::lemma_multiply_divide_lt;
use vstd::prelude::*;

use crate::calx::Calx;
use crate::calx::CalxType;
use crate::calx::CalxView;
use crate::instr::CalxInstr;
use crate::instr::CalxInstrView;
use crate::instr::instr_views;
use crate::text::push_char;

verus! {

/// Why a byte stream was rejected.
#[derive(Clone, Copy, Debug, PartialEq, Eq, Structural)]
pub enum DecodeError {
    /// The stream's edition tag is not the edition the consumer understands.
    IncompatibleEdition,
    /// The stream is not a complete, well-formed encoding.
    Malformed,
}

/// 256 to the `k`-th power: the number of values `k` bytes can hold.
pub open spec fn pow256(k: nat) -> nat
    decreases k,
{
    if k == 0 {
        1
    } else {
        256 * pow256((k - 1) as nat)
    }
}

/// The `k`-byte little-endian encoding of `n`.
pub open spec fn le_bytes(n: nat, k: nat) -> Seq<u8>
    decreases k,
{
    if k == 0 {
        Seq::empty()
    } else {
        seq![(n % 256) as u8] + le_bytes(n / 256, (k - 1) as nat)
    }
}

/// The value a little-endian byte sequence stands for.
pub open spec fn le_val(s: Seq<u8>) -> nat
    decreases s.len(),
{
    if s.len() == 0 {
        0nat
    } else {
        s[0] as nat + 256 * le_val(s.skip(1))
    }
}

pub proof fn lemma_le_bytes_len(n: nat, k: nat)
    ensures
        le_bytes(n, k).len() == k,
    decreases k,
{
    if k > 0 {
        lemma_le_bytes_len(n / 256, (k - 1) as nat);
    }
}

/// The byte-count powers the codec works with, as plain numbers.
pub proof fn lemma_pow256_units()
    ensures
        pow256(4) == 0x1_0000_0000,
        pow256(8) == 0x1_0000_0000_0000_0000,
{
    reveal_with_fuel(pow256, 9);
}

pub proof fn lemma_pow256_increases(a: nat, b: nat)
    requires
        a <= b,
    ensures
        pow256(a) <= pow256(b),
    decreases b,
{
    if a < b && b > 0 {
        lemma_pow256_increases(a, (b - 1) as nat);
    }
}

/// Reading back the `k`-byte little-endian encoding of `n` yields `n` again.
pub proof fn lemma_le_round_trip(n: nat, k: nat)
    requires
        n < pow256(k),
    ensures
        le_val(le_bytes(n, k)) == n,
    decreases k,
{
    if k > 0 {
        let rest = le_bytes(n / 256, (k - 1) as nat);
        assert((seq![(n % 256) as u8] + rest).skip(1) =~= rest);
        lemma_multiply_divide_lt(n as int, pow256((k - 1) as nat) as int, 256);
        lemma_le_round_trip(n / 256, (k - 1) as nat);
        lemma_fundamental_div_mod(n as int, 256);
    }
}

/// Read `k` little-endian bytes; fails only when fewer than `k` bytes remain.
pub open spec fn dec_le(s: Seq<u8>, k: nat) -> Option<(nat, Seq<u8>)> {
    if s.len() < k {
        None
    } else {
        Some((le_val(s.take(k as int)), s.skip(k as int)))
    }
}

pub proof fn lemma_dec_enc_le(n: nat, k: nat, rest: Seq<u8>)
    requires
        n < pow256(k),
    ensures
        dec_le(le_bytes(n, k) + rest, k) == Some((n, rest)),
{
    lemma_le_bytes_len(n, k);
    assert((le_bytes(n, k) + rest).take(k as int) =~= le_bytes(n, k));
    assert((le_bytes(n, k) + rest).skip(k as int) =~= rest);
    lemma_le_round_trip(n, k);
}

/// An index operand: eight little-endian bytes.
pub open spec fn enc_usize(n: usize) -> Seq<u8> {
    le_bytes(n as nat, 8)
}

/// Read an index operand; a value too large for this machine's indices is
/// malformed.
pub open spec fn dec_usize(s: Seq<u8>) -> Option<(usize, Seq<u8>)> {
    match dec_le(s, 8) {
        None => None,
        Some((v, r)) => if v <= usize::MAX as nat {
            Some((v as usize, r))
        } else {
            None
        },
    }
}

pub proof fn lemma_dec_enc_usize(n: usize, rest: Seq<u8>)
    ensures
        dec_usize(enc_usize(n) + rest) == Some((n, rest)),
{
    lemma_pow256_units();
    assert(usize::MAX as int <= 0xffff_ffff_ffff_ffff);
    lemma_dec_enc_le(n as nat, 8, rest);
}

/// One byte: 1 for true, 0 for false.
pub open spec fn enc_bool(b: bool) -> Seq<u8> {
    seq![if b { 1u8 } else { 0u8 }]
}

/// Read a flag byte; any value besides 0 and 1 is malformed.
pub open spec fn dec_bool(s: Seq<u8>) -> Option<(bool, Seq<u8>)> {
    if s.len() < 1 {
        None
    } else if s[0] == 1u8 {
        Some((true, s.skip(1)))
    } else if s[0] == 0u8 {
        Some((false, s.skip(1)))
    } else {
        None
    }
}

pub proof fn lemma_dec_enc_bool(b: bool, rest: Seq<u8>)
    ensures
        dec_bool(enc_bool(b) + rest) == Some((b, rest)),
{
    assert((enc_bool(b) + rest).skip(1) =~= rest);
}

/// A character: its Unicode scalar value in four little-endian bytes.
pub open spec fn enc_char(c: char) -> Seq<u8> {
    le_bytes(c as nat, 4)
}

/// Read a character; a value that is no Unicode scalar is malformed.
pub open spec fn dec_char(s: Seq<u8>) -> Option<(char, Seq<u8>)> {
    match dec_le(s, 4) {
        None => None,
        Some((v, r)) => if v < 0x1_0000_0000 && vstd::utf8::is_scalar(v as u32) {
            Some(((v as u32) as char, r))
        } else {
            None
        },
    }
}

pub proof fn lemma_dec_enc_char(c: char, rest: Seq<u8>)
    ensures
        dec_char(enc_char(c) + rest) == Some((c, rest)),
{
    vstd::utf8::char_is_scalar(c);
    lemma_pow256_units();
    assert((c as nat) < 0x1_0000_0000);
    lemma_dec_enc_le(c as nat, 4, rest);
    assert((c as nat) as u32 == c as u32);
    vstd::utf8::char_u32_cast(c, c as u32);
}

/// The characters of a string, one after the other.
pub open spec fn enc_chars(cs: Seq<char>) -> Seq<u8>
    decreases cs.len(),
{
    if cs.len() == 0 {
        Seq::empty()
    } else {
        enc_char(cs[0]) + enc_chars(cs.skip(1))
    }
}

/// Read exactly `k` characters.
pub open spec fn dec_chars(s: Seq<u8>, k: nat) -> Option<(Seq<char>, Seq<u8>)>
    decreases k,
{
    if k == 0 {
        Some((Seq::empty(), s))
    } else {
        match dec_char(s) {
            None => None,
            Some((c, r)) => match dec_chars(r, (k - 1) as nat) {
                None => None,
                Some((cs, r2)) => Some((seq![c] + cs, r2)),
            },
        }
    }
}

pub proof fn lemma_enc_chars_push(cs: Seq<char>, c: char)
    ensures
        enc_chars(cs.push(c)) == enc_chars(cs) + enc_char(c),
    decreases cs.len(),
{
    let p = cs.push(c);
    if cs.len() == 0 {
        assert(p[0] == c);
        assert(p.skip(1) =~= Seq::<char>::empty());
        assert(enc_chars(p) == enc_char(p[0]) + enc_chars(p.skip(1)));
        assert(enc_chars(Seq::<char>::empty()) == Seq::<u8>::empty());
        assert(enc_chars(p) =~= enc_char(c));
        assert(enc_chars(cs) == Seq::<u8>::empty());
        assert(enc_chars(cs) + enc_char(c) =~= enc_char(c));
    } else {
        assert(p[0] == cs[0]);
        assert(p.skip(1) =~= cs.skip(1).push(c));
        lemma_enc_chars_push(cs.skip(1), c);
        assert(enc_chars(p) == enc_char(cs[0]) + (enc_chars(cs.skip(1)) + enc_char(c)));
        assert(enc_chars(cs) == enc_char(cs[0]) + enc_chars(cs.skip(1)));
        assert(enc_char(cs[0]) + (enc_chars(cs.skip(1)) + enc_char(c)) =~= (enc_char(cs[0])
            + enc_chars(cs.skip(1))) + enc_char(c));
    }
}

pub proof fn lemma_dec_enc_chars(cs: Seq<char>, rest: Seq<u8>)
    ensures
        dec_chars(enc_chars(cs) + rest, cs.len()) == Some((cs, rest)),
    decreases cs.len(),
{
    if cs.len() == 0 {
        assert(enc_chars(cs) + rest =~= rest);
    } else {
        let tail_bytes = enc_chars(cs.skip(1)) + rest;
        assert(enc_chars(cs) + rest =~= enc_char(cs[0]) + tail_bytes);
        lemma_dec_enc_char(cs[0], tail_bytes);
        lemma_dec_enc_chars(cs.skip(1), rest);
        assert(seq![cs[0]] + cs.skip(1) =~= cs);
    }
}

/// Peeling the tag byte off a tagged record.
pub proof fn lemma_tagged(t: u8, body: Seq<u8>, rest: Seq<u8>)
    ensures
        ((seq![t] + body) + rest).len() >= 1,
        ((seq![t] + body) + rest)[0] == t,
        ((seq![t] + body) + rest).skip(1) == body + rest,
{
    assert(((seq![t] + body) + rest).skip(1) =~= body + rest);
}

/// Peeling the tag byte off a record with no operands.
pub proof fn lemma_tag_only(t: u8, rest: Seq<u8>)
    ensures
        (seq![t] + rest).len() >= 1,
        (seq![t] + rest)[0] == t,
        (seq![t] + rest).skip(1) == rest,
{
    assert((seq![t] + rest).skip(1) =~= rest);
}

/// A string: its character count, then its characters.
pub open spec fn enc_str(cs: Seq<char>) -> Seq<u8> {
    le_bytes(cs.len(), 8) + enc_chars(cs)
}

/// Read a string.
pub open spec fn dec_str(s: Seq<u8>) -> Option<(Seq<char>, Seq<u8>)> {
    match dec_le(s, 8) {
        None => None,
        Some((k, r)) => dec_chars(r, k),
    }
}

pub proof fn lemma_dec_enc_str(cs: Seq<char>, rest: Seq<u8>)
    requires
        cs.len() < pow256(8),
    ensures
        dec_str(enc_str(cs) + rest) == Some((cs, rest)),
{
    let tail_bytes = enc_chars(cs) + rest;
    assert(enc_str(cs) + rest =~= le_bytes(cs.len(), 8) + tail_bytes);
    lemma_dec_enc_le(cs.len(), 8, tail_bytes);
    lemma_dec_enc_chars(cs, rest);
}

/// The tag byte of a value type.
pub open spec fn type_tag(t: CalxType) -> u8 {
    match t {
        CalxType::Nil => 0u8,
        CalxType::Bool => 1u8,
        CalxType::I64 => 2u8,
        CalxType::F64 => 3u8,
        CalxType::Str => 4u8,
        CalxType::List => 5u8,
        CalxType::Link => 6u8,
    }
}

/// The value type a tag byte stands for, if any.
pub open spec fn tag_type(b: u8) -> Option<CalxType> {
    if b == 0u8 {
        Some(CalxType::Nil)
    } else if b == 1u8 {
        Some(CalxType::Bool)
    } else if b == 2u8 {
        Some(CalxType::I64)
    } else if b == 3u8 {
        Some(CalxType::F64)
    } else if b == 4u8 {
        Some(CalxType::Str)
    } else if b == 5u8 {
        Some(CalxType::List)
    } else if b == 6u8 {
        Some(CalxType::Link)
    } else {
        None
    }
}

/// One value type: its tag byte.
pub open spec fn enc_type(t: CalxType) -> Seq<u8> {
    seq![type_tag(t)]
}

/// Read one value type; an unknown tag byte is malformed.
pub open spec fn dec_type(s: Seq<u8>) -> Option<(CalxType, Seq<u8>)> {
    if s.len() < 1 {
        None
    } else {
        match tag_type(s[0]) {
            None => None,
            Some(t) => Some((t, s.skip(1))),
        }
    }
}

pub proof fn lemma_dec_enc_type(t: CalxType, rest: Seq<u8>)
    ensures
        dec_type(enc_type(t) + rest) == Some((t, rest)),
{
    lemma_tag_only(type_tag(t), rest);
}

/// The types of a list, one tag byte after the other.
pub open spec fn enc_types_body(ts: Seq<CalxType>) -> Seq<u8>
    decreases ts.len(),
{
    if ts.len() == 0 {
        Seq::empty()
    } else {
        enc_type(ts[0]) + enc_types_body(ts.skip(1))
    }
}

/// Read exactly `k` value types.
pub open spec fn dec_types_body(s: Seq<u8>, k: nat) -> Option<(Seq<CalxType>, Seq<u8>)>
    decreases k,
{
    if k == 0 {
        Some((Seq::empty(), s))
    } else {
        match dec_type(s) {
            None => None,
            Some((t, r)) => match dec_types_body(r, (k - 1) as nat) {
                None => None,
                Some((ts, r2)) => Some((seq![t] + ts, r2)),
            },
        }
    }
}

/// A type list: its length, then its tag bytes.
pub open spec fn enc_types(ts: Seq<CalxType>) -> Seq<u8> {
    le_bytes(ts.len(), 8) + enc_types_body(ts)
}

/// Read a type list.
pub open spec fn dec_types(s: Seq<u8>) -> Option<(Seq<CalxType>, Seq<u8>)> {
    match dec_le(s, 8) {
        None => None,
        Some((k, r)) => dec_types_body(r, k),
    }
}

pub proof fn lemma_enc_types_body_push(ts: Seq<CalxType>, t: CalxType)
    ensures
        enc_types_body(ts.push(t)) == enc_types_body(ts) + enc_type(t),
    decreases ts.len(),
{
    let p = ts.push(t);
    if ts.len() == 0 {
        assert(p[0] == t);
        assert(p.skip(1) =~= Seq::<CalxType>::empty());
        assert(enc_types_body(p) == enc_type(p[0]) + enc_types_body(p.skip(1)));
        assert(enc_types_body(Seq::<CalxType>::empty()) == Seq::<u8>::empty());
        assert(enc_types_body(p) =~= enc_type(t));
        assert(enc_types_body(ts) == Seq::<u8>::empty());
        assert(enc_types_body(ts) + enc_type(t) =~= enc_type(t));
    } else {
        assert(p[0] == ts[0]);
        assert(p.skip(1) =~= ts.skip(1).push(t));
        lemma_enc_types_body_push(ts.skip(1), t);
        assert(enc_types_body(p) == enc_type(ts[0]) + (enc_types_body(ts.skip(1)) + enc_type(t)));
        assert(enc_types_body(ts) == enc_type(ts[0]) + enc_types_body(ts.skip(1)));
        assert(enc_type(ts[0]) + (enc_types_body(ts.skip(1)) + enc_type(t)) =~= (enc_type(ts[0])
            + enc_types_body(ts.skip(1))) + enc_type(t));
    }
}

pub proof fn lemma_dec_enc_types_body(ts: Seq<CalxType>, rest: Seq<u8>)
    ensures
        dec_types_body(enc_types_body(ts) + rest, ts.len()) == Some((ts, rest)),
    decreases ts.len(),
{
    if ts.len() == 0 {
        assert(enc_types_body(ts) + rest =~= rest);
    } else {
        let tail_bytes = enc_types_body(ts.skip(1)) + rest;
        assert(enc_types_body(ts) + rest =~= enc_type(ts[0]) + tail_bytes);
        lemma_dec_enc_type(ts[0], tail_bytes);
        lemma_dec_enc_types_body(ts.skip(1), rest);
        assert(seq![ts[0]] + ts.skip(1) =~= ts);
    }
}

pub proof fn lemma_dec_enc_types(ts: Seq<CalxType>, rest: Seq<u8>)
    requires
        ts.len() < pow256(8),
    ensures
        dec_types(enc_types(ts) + rest) == Some((ts, rest)),
{
    let tail_bytes = enc_types_body(ts) + rest;
    assert(enc_types(ts) + rest =~= le_bytes(ts.len(), 8) + tail_bytes);
    lemma_dec_enc_le(ts.len(), 8, tail_bytes);
    lemma_dec_enc_types_body(ts, rest);
}

/// A constant: a tag byte, then its payload.
pub open spec fn enc_calx(v: CalxView) -> Seq<u8> {
    match v {
        CalxView::Nil => seq![0u8],
        CalxView::Bool(b) => seq![1u8] + enc_bool(b),
        CalxView::I64(n) => seq![2u8] + le_bytes((n as u64) as nat, 8),
        CalxView::Str(cs) => seq![3u8] + enc_str(cs),
    }
}

/// A constant is well formed when its encoding can be read back whole: a
/// string constant short enough for its count field.
pub open spec fn wf_calx(v: CalxView) -> bool {
    match v {
        CalxView::Str(cs) => cs.len() < pow256(8),
        _ => true,
    }
}

/// Read a constant.
pub open spec fn dec_calx(s: Seq<u8>) -> Option<(CalxView, Seq<u8>)> {
    if s.len() < 1 {
        None
    } else {
        let t = s[0];
        let r = s.skip(1);
        if t == 0u8 {
            Some((CalxView::Nil, r))
        } else if t == 1u8 {
            match dec_bool(r) {
                None => None,
                Some((b, r2)) => Some((CalxView::Bool(b), r2)),
            }
        } else if t == 2u8 {
            match dec_le(r, 8) {
                None => None,
                Some((v2, r2)) => Some((CalxView::I64((v2 as u64) as i64), r2)),
            }
        } else if t == 3u8 {
            match dec_str(r) {
                None => None,
                Some((cs, r2)) => Some((CalxView::Str(cs), r2)),
            }
        } else {
            None
        }
    }
}

pub proof fn lemma_dec_enc_calx(v: CalxView, rest: Seq<u8>)
    requires
        wf_calx(v),
    ensures
        dec_calx(enc_calx(v) + rest) == Some((v, rest)),
{
    match v {
        CalxView::Nil => {
            lemma_tag_only(0u8, rest);
        },
        CalxView::Bool(b) => {
            lemma_tagged(1u8, enc_bool(b), rest);
            lemma_dec_enc_bool(b, rest);
        },
        CalxView::I64(n) => {
            lemma_tagged(2u8, le_bytes((n as u64) as nat, 8), rest);
            lemma_pow256_units();
            lemma_dec_enc_le((n as u64) as nat, 8, rest);
            assert(((n as u64) as i64) == n) by (bit_vector);
        },
        CalxView::Str(cs) => {
            lemma_tagged(3u8, enc_str(cs), rest);
            lemma_dec_enc_str(cs, rest);
        },
    }
}

/// One instruction: a tag byte in variant order, then its operands.
pub open spec fn enc_instr(m: CalxInstrView) -> Seq<u8> {
    match m {
        CalxInstrView::LocalSet(n) => seq![0u8] + enc_usize(n),
        CalxInstrView::LocalTee(n) => seq![1u8] + enc_usize(n),
        CalxInstrView::LocalGet(n) => seq![2u8] + enc_usize(n),
        CalxInstrView::LocalNew => seq![3u8],
        CalxInstrView::GlobalSet(n) => seq![4u8] + enc_usize(n),
        CalxInstrView::GlobalGet(n) => seq![5u8] + enc_usize(n),
        CalxInstrView::GlobalNew => seq![6u8],
        CalxInstrView::Const(v) => seq![7u8] + enc_calx(v),
        CalxInstrView::Dup => seq![8u8],
        CalxInstrView::Drop => seq![9u8],
        CalxInstrView::IntAdd => seq![10u8],
        CalxInstrView::IntMul => seq![11u8],
        CalxInstrView::IntDiv => seq![12u8],
        CalxInstrView::IntRem => seq![13u8],
        CalxInstrView::IntNeg => seq![14u8],
        CalxInstrView::IntShr => seq![15u8],
        CalxInstrView::IntShl => seq![16u8],
        CalxInstrView::IntEq => seq![17u8],
        CalxInstrView::IntNe => seq![18u8],
        CalxInstrView::IntLt => seq![19u8],
        CalxInstrView::IntLe => seq![20u8],
        CalxInstrView::IntGt => seq![21u8],
        CalxInstrView::IntGe => seq![22u8],
        CalxInstrView::Add => seq![23u8],
        CalxInstrView::Mul => seq![24u8],
        CalxInstrView::Div => seq![25u8],
        CalxInstrView::Neg => seq![26u8],
        CalxInstrView::NewList => seq![27u8],
        CalxInstrView::ListGet => seq![28u8],
        CalxInstrView::ListSet => seq![29u8],
        CalxInstrView::NewLink => seq![30u8],
        CalxInstrView::And => seq![31u8],
        CalxInstrView::Or => seq![32u8],
        CalxInstrView::Not => seq![33u8],
        CalxInstrView::Br(t) => seq![34u8] + enc_usize(t),
        CalxInstrView::BrIf(t) => seq![35u8] + enc_usize(t),
        CalxInstrView::Jmp(t) => seq![36u8] + enc_usize(t),
        CalxInstrView::JmpIf(t) => seq![37u8] + enc_usize(t),
        CalxInstrView::Block { params_types, ret_types, looped, from, to } => {
            seq![38u8] + (enc_types(params_types) + (enc_types(ret_types) + (enc_bool(looped) + (
            enc_usize(from) + enc_usize(to)))))
        },
        CalxInstrView::BlockEnd(b) => seq![39u8] + enc_bool(b),
        CalxInstrView::Echo => seq![40u8],
        CalxInstrView::Call(name) => seq![41u8] + enc_str(name),
        CalxInstrView::ReturnCall(name) => seq![42u8] + enc_str(name),
        CalxInstrView::CallImport(name) => seq![43u8] + enc_str(name),
        CalxInstrView::Unreachable => seq![44u8],
        CalxInstrView::Nop => seq![45u8],
        CalxInstrView::Quit(code) => seq![46u8] + enc_usize(code),
        CalxInstrView::Return => seq![47u8],
        CalxInstrView::Assert(msg) => seq![48u8] + enc_str(msg),
        CalxInstrView::Inspect => seq![49u8],
        CalxInstrView::If { ret_types, then_to, else_to, to } => {
            seq![50u8] + (enc_types(ret_types) + (enc_usize(then_to) + (enc_usize(else_to)
                + enc_usize(to))))
        },
        CalxInstrView::EndIf => seq![51u8],
    }
}

/// An instruction is well formed when its encoding can be read back whole:
/// every embedded string and type list short enough for its count field.
pub open spec fn wf_instr(m: CalxInstrView) -> bool {
    match m {
        CalxInstrView::Const(v) => wf_calx(v),
        CalxInstrView::Block { params_types, ret_types, .. } => params_types.len() < pow256(8)
            && ret_types.len() < pow256(8),
        CalxInstrView::Call(name) => name.len() < pow256(8),
        CalxInstrView::ReturnCall(name) => name.len() < pow256(8),
        CalxInstrView::CallImport(name) => name.len() < pow256(8),
        CalxInstrView::Assert(msg) => msg.len() < pow256(8),
        CalxInstrView::If { ret_types, .. } => ret_types.len() < pow256(8),
        _ => true,
    }
}

/// Read one instruction; an unknown tag byte is malformed.
pub open spec fn dec_instr(s: Seq<u8>) -> Option<(CalxInstrView, Seq<u8>)> {
    if s.len() < 1 {
        None
    } else {
        let t = s[0];
        let r = s.skip(1);
        if t == 0u8 {
            match dec_usize(r) {
                None => None,
                Some((n, r2)) => Some((CalxInstrView::LocalSet(n), r2)),
            }
        } else if t == 1u8 {
            match dec_usize(r) {
                None => None,
                Some((n, r2)) => Some((CalxInstrView::LocalTee(n), r2)),
            }
        } else if t == 2u8 {
            match dec_usize(r) {
                None => None,
                Some((n, r2)) => Some((CalxInstrView::LocalGet(n), r2)),
            }
        } else if t == 3u8 {
            Some((CalxInstrView::LocalNew, r))
        } else if t == 4u8 {
            match dec_usize(r) {
                None => None,
                Some((n, r2)) => Some((CalxInstrView::GlobalSet(n), r2)),
            }
        } else if t == 5u8 {
            match dec_usize(r) {
                None => None,
                Some((n, r2)) => Some((CalxInstrView::GlobalGet(n), r2)),
            }
        } else if t == 6u8 {
            Some((CalxInstrView::GlobalNew, r))
        } else if t == 7u8 {
            match dec_calx(r) {
                None => None,
                Some((v, r2)) => Some((CalxInstrView::Const(v), r2)),
            }
        } else if t == 8u8 {
            Some((CalxInstrView::Dup, r))
        } else if t == 9u8 {
            Some((CalxInstrView::Drop, r))
        } else if t == 10u8 {
            Some((CalxInstrView::IntAdd, r))
        } else if t == 11u8 {
            Some((CalxInstrView::IntMul, r))
        } else if t == 12u8 {
            Some((CalxInstrView::IntDiv, r))
        } else if t == 13u8 {
            Some((CalxInstrView::IntRem, r))
        } else if t == 14u8 {
            Some((CalxInstrView::IntNeg, r))
        } else if t == 15u8 {
            Some((CalxInstrView::IntShr, r))
        } else if t == 16u8 {
            Some((CalxInstrView::IntShl, r))
        } else if t == 17u8 {
            Some((CalxInstrView::IntEq, r))
        } else if t == 18u8 {
            Some((CalxInstrView::IntNe, r))
        } else if t == 19u8 {
            Some((CalxInstrView::IntLt, r))
        } else if t == 20u8 {
            Some((CalxInstrView::IntLe, r))
        } else if t == 21u8 {
            Some((CalxInstrView::IntGt, r))
        } else if t == 22u8 {
            Some((CalxInstrView::IntGe, r))
        } else if t == 23u8 {
            Some((CalxInstrView::Add, r))
        } else if t == 24u8 {
            Some((CalxInstrView::Mul, r))
        } else if t == 25u8 {
            Some((CalxInstrView::Div, r))
        } else if t == 26u8 {
            Some((CalxInstrView::Neg, r))
        } else if t == 27u8 {
            Some((CalxInstrView::NewList, r))
        } else if t == 28u8 {
            Some((CalxInstrView::ListGet, r))
        } else if t == 29u8 {
            Some((CalxInstrView::ListSet, r))
        } else if t == 30u8 {
            Some((CalxInstrView::NewLink, r))
        } else if t == 31u8 {
            Some((CalxInstrView::And, r))
        } else if t == 32u8 {
            Some((CalxInstrView::Or, r))
        } else if t == 33u8 {
            Some((CalxInstrView::Not, r))
        } else if t == 34u8 {
            match dec_usize(r) {
                None => None,
                Some((n, r2)) => Some((CalxInstrView::Br(n), r2)),
            }
        } else if t == 35u8 {
            match dec_usize(r) {
                None => None,
                Some((n, r2)) => Some((CalxInstrView::BrIf(n), r2)),
            }
        } else if t == 36u8 {
            match dec_usize(r) {
                None => None,
                Some((n, r2)) => Some((CalxInstrView::Jmp(n), r2)),
            }
        } else if t == 37u8 {
            match dec_usize(r) {
                None => None,
                Some((n, r2)) => Some((CalxInstrView::JmpIf(n), r2)),
            }
        } else if t == 38u8 {
            match dec_types(r) {
                None => None,
                Some((pt, r2)) => match dec_types(r2) {
                    None => None,
                    Some((rt, r3)) => match dec_bool(r3) {
                        None => None,
                        Some((lp, r4)) => match dec_usize(r4) {
                            None => None,
                            Some((fr, r5)) => match dec_usize(r5) {
                                None => None,
                                Some((t2, r6)) => Some(
                                    (
                                        CalxInstrView::Block {
                                            params_types: pt,
                                            ret_types: rt,
                                            looped: lp,
                                            from: fr,
                                            to: t2,
                                        },
                                        r6,
                                    ),
                                ),
                            },
                        },
                    },
                },
            }
        } else if t == 39u8 {
            match dec_bool(r) {
                None => None,
                Some((b, r2)) => Some((CalxInstrView::BlockEnd(b), r2)),
            }
        } else if t == 40u8 {
            Some((CalxInstrView::Echo, r))
        } else if t == 41u8 {
            match dec_str(r) {
                None => None,
                Some((cs, r2)) => Some((CalxInstrView::Call(cs), r2)),
            }
        } else if t == 42u8 {
            match dec_str(r) {
                None => None,
                Some((cs, r2)) => Some((CalxInstrView::ReturnCall(cs), r2)),
            }
        } else if t == 43u8 {
            match dec_str(r) {
                None => None,
                Some((cs, r2)) => Some((CalxInstrView::CallImport(cs), r2)),
            }
        } else if t == 44u8 {
            Some((CalxInstrView::Unreachable, r))
        } else if t == 45u8 {
            Some((CalxInstrView::Nop, r))
        } else if t == 46u8 {
            match dec_usize(r) {
                None => None,
                Some((n, r2)) => Some((CalxInstrView::Quit(n), r2)),
            }
        } else if t == 47u8 {
            Some((CalxInstrView::Return, r))
        } else if t == 48u8 {
            match dec_str(r) {
                None => None,
                Some((cs, r2)) => Some((CalxInstrView::Assert(cs), r2)),
            }
        } else if t == 49u8 {
            Some((CalxInstrView::Inspect, r))
        } else if t == 50u8 {
            match dec_types(r) {
                None => None,
                Some((rt, r2)) => match dec_usize(r2) {
                    None => None,
                    Some((th, r3)) => match dec_usize(r3) {
                        None => None,
                        Some((el, r4)) => match dec_usize(r4) {
                            None => None,
                            Some((t2, r5)) => Some(
                                (
                                    CalxInstrView::If {
                                        ret_types: rt,
                                        then_to: th,
                                        else_to: el,
                                        to: t2,
                                    },
                                    r5,
                                ),
                            ),
                        },
                    },
                },
            }
        } else if t == 51u8 {
            Some((CalxInstrView::EndIf, r))
        } else {
            None
        }
    }
}

/// Reading back the encoding of a well-formed instruction yields the same
/// instruction.
#[verifier::rlimit(100)]
#[verifier::spinoff_prover]
pub proof fn lemma_dec_enc_instr(m: CalxInstrView, rest: Seq<u8>)
    requires
        wf_instr(m),
    ensures
        dec_instr(enc_instr(m) + rest) == Some((m, rest)),
{
    match m {
        CalxInstrView::LocalSet(n) => {
            lemma_tagged(0u8, enc_usize(n), rest);
            lemma_dec_enc_usize(n, rest);
        },
        CalxInstrView::LocalTee(n) => {
            lemma_tagged(1u8, enc_usize(n), rest);
            lemma_dec_enc_usize(n, rest);
        },
        CalxInstrView::LocalGet(n) => {
            lemma_tagged(2u8, enc_usize(n), rest);
            lemma_dec_enc_usize(n, rest);
        },
        CalxInstrView::LocalNew => {
            lemma_tag_only(3u8, rest);
        },
        CalxInstrView::GlobalSet(n) => {
            lemma_tagged(4u8, enc_usize(n), rest);
            lemma_dec_enc_usize(n, rest);
        },
        CalxInstrView::GlobalGet(n) => {
            lemma_tagged(5u8, enc_usize(n), rest);
            lemma_dec_enc_usize(n, rest);
        },
        CalxInstrView::GlobalNew => {
            lemma_tag_only(6u8, rest);
        },
        CalxInstrView::Const(v) => {
            lemma_tagged(7u8, enc_calx(v), rest);
            lemma_dec_enc_calx(v, rest);
        },
        CalxInstrView::Dup => {
            lemma_tag_only(8u8, rest);
        },
        CalxInstrView::Drop => {
            lemma_tag_only(9u8, rest);
        },
        CalxInstrView::IntAdd => {
            lemma_tag_only(10u8, rest);
        },
        CalxInstrView::IntMul => {
            lemma_tag_only(11u8, rest);
        },
        CalxInstrView::IntDiv => {
            lemma_tag_only(12u8, rest);
        },
        CalxInstrView::IntRem => {
            lemma_tag_only(13u8, rest);
        },
        CalxInstrView::IntNeg => {
            lemma_tag_only(14u8, rest);
        },
        CalxInstrView::IntShr => {
            lemma_tag_only(15u8, rest);
        },
        CalxInstrView::IntShl => {
            lemma_tag_only(16u8, rest);
        },
        CalxInstrView::IntEq => {
            lemma_tag_only(17u8, rest);
        },
        CalxInstrView::IntNe => {
            lemma_tag_only(18u8, rest);
        },
        CalxInstrView::IntLt => {
            lemma_tag_only(19u8, rest);
        },
        CalxInstrView::IntLe => {
            lemma_tag_only(20u8, rest);
        },
        CalxInstrView::IntGt => {
            lemma_tag_only(21u8, rest);
        },
        CalxInstrView::IntGe => {
            lemma_tag_only(22u8, rest);
        },
        CalxInstrView::Add => {
            lemma_tag_only(23u8, rest);
        },
        CalxInstrView::Mul => {
            lemma_tag_only(24u8, rest);
        },
        CalxInstrView::Div => {
            lemma_tag_only(25u8, rest);
        },
        CalxInstrView::Neg => {
            lemma_tag_only(26u8, rest);
        },
        CalxInstrView::NewList => {
            lemma_tag_only(27u8, rest);
        },
        CalxInstrView::ListGet => {
            lemma_tag_only(28u8, rest);
        },
        CalxInstrView::ListSet => {
            lemma_tag_only(29u8, rest);
        },
        CalxInstrView::NewLink => {
            lemma_tag_only(30u8, rest);
        },
        CalxInstrView::And => {
            lemma_tag_only(31u8, rest);
        },
        CalxInstrView::Or => {
            lemma_tag_only(32u8, rest);
        },
        CalxInstrView::Not => {
            lemma_tag_only(33u8, rest);
        },
        CalxInstrView::Br(n) => {
            lemma_tagged(34u8, enc_usize(n), rest);
            lemma_dec_enc_usize(n, rest);
        },
        CalxInstrView::BrIf(n) => {
            lemma_tagged(35u8, enc_usize(n), rest);
            lemma_dec_enc_usize(n, rest);
        },
        CalxInstrView::Jmp(n) => {
            lemma_tagged(36u8, enc_usize(n), rest);
            lemma_dec_enc_usize(n, rest);
        },
        CalxInstrView::JmpIf(n) => {
            lemma_tagged(37u8, enc_usize(n), rest);
            lemma_dec_enc_usize(n, rest);
        },
        CalxInstrView::Block { params_types, ret_types, looped, from, to } => {
            let b2 = enc_types(ret_types) + (enc_bool(looped) + (enc_usize(from) + enc_usize(to)));
            let body = enc_types(params_types) + b2;
            lemma_tagged(38u8, body, rest);
            assert(body + rest =~= enc_types(params_types) + (enc_types(ret_types) + (enc_bool(
                looped,
            ) + (enc_usize(from) + (enc_usize(to) + rest)))));
            lemma_dec_enc_types(
                params_types,
                enc_types(ret_types) + (enc_bool(looped) + (enc_usize(from) + (enc_usize(to)
                    + rest))),
            );
            lemma_dec_enc_types(
                ret_types,
                enc_bool(looped) + (enc_usize(from) + (enc_usize(to) + rest)),
            );
            lemma_dec_enc_bool(looped, enc_usize(from) + (enc_usize(to) + rest));
            lemma_dec_enc_usize(from, enc_usize(to) + rest);
            lemma_dec_enc_usize(to, rest);
        },
        CalxInstrView::BlockEnd(b) => {
            lemma_tagged(39u8, enc_bool(b), rest);
            lemma_dec_enc_bool(b, rest);
        },
        CalxInstrView::Echo => {
            lemma_tag_only(40u8, rest);
        },
        CalxInstrView::Call(name) => {
            lemma_tagged(41u8, enc_str(name), rest);
            lemma_dec_enc_str(name, rest);
        },
        CalxInstrView::ReturnCall(name) => {
            lemma_tagged(42u8, enc_str(name), rest);
            lemma_dec_enc_str(name, rest);
        },
        CalxInstrView::CallImport(name) => {
            lemma_tagged(43u8, enc_str(name), rest);
            lemma_dec_enc_str(name, rest);
        },
        CalxInstrView::Unreachable => {
            lemma_tag_only(44u8, rest);
        },
        CalxInstrView::Nop => {
            lemma_tag_only(45u8, rest);
        },
        CalxInstrView::Quit(n) => {
            lemma_tagged(46u8, enc_usize(n), rest);
            lemma_dec_enc_usize(n, rest);
        },
        CalxInstrView::Return => {
            lemma_tag_only(47u8, rest);
        },
        CalxInstrView::Assert(msg) => {
            lemma_tagged(48u8, enc_str(msg), rest);
            lemma_dec_enc_str(msg, rest);
        },
        CalxInstrView::Inspect => {
            lemma_tag_only(49u8, rest);
        },
        CalxInstrView::If { ret_types, then_to, else_to, to } => {
            let body = enc_types(ret_types) + (enc_usize(then_to) + (enc_usize(else_to)
                + enc_usize(to)));
            lemma_tagged(50u8, body, rest);
            assert(body + rest =~= enc_types(ret_types) + (enc_usize(then_to) + (enc_usize(else_to)
                + (enc_usize(to) + rest))));
            lemma_dec_enc_types(
                ret_types,
                enc_usize(then_to) + (enc_usize(else_to) + (enc_usize(to) + rest)),
            );
            lemma_dec_enc_usize(then_to, enc_usize(else_to) + (enc_usize(to) + rest));
            lemma_dec_enc_usize(else_to, enc_usize(to) + rest);
            lemma_dec_enc_usize(to, rest);
        },
        CalxInstrView::EndIf => {
            lemma_tag_only(51u8, rest);
        },
    }
}

/// The instructions of a sequence, one record after the other.
pub open spec fn enc_instrs(ms: Seq<CalxInstrView>) -> Seq<u8>
    decreases ms.len(),
{
    if ms.len() == 0 {
        Seq::empty()
    } else {
        enc_instr(ms[0]) + enc_instrs(ms.skip(1))
    }
}

/// Read exactly `k` instructions.
pub open spec fn dec_instrs(s: Seq<u8>, k: nat) -> Option<(Seq<CalxInstrView>, Seq<u8>)>
    decreases k,
{
    if k == 0 {
        Some((Seq::empty(), s))
    } else {
        match dec_instr(s) {
            None => None,
            Some((m, r)) => match dec_instrs(r, (k - 1) as nat) {
                None => None,
                Some((ms, r2)) => Some((seq![m] + ms, r2)),
            },
        }
    }
}

/// A sequence is well formed when each of its instructions is.
pub open spec fn wf_instrs(ms: Seq<CalxInstrView>) -> bool {
    forall|i: int| 0 <= i < ms.len() ==> wf_instr(#[trigger] ms[i])
}

pub proof fn lemma_enc_instrs_push(ms: Seq<CalxInstrView>, m: CalxInstrView)
    ensures
        enc_instrs(ms.push(m)) == enc_instrs(ms) + enc_instr(m),
    decreases ms.len(),
{
    let p = ms.push(m);
    if ms.len() == 0 {
        assert(p[0] == m);
        assert(p.skip(1) =~= Seq::<CalxInstrView>::empty());
        assert(enc_instrs(p) == enc_instr(p[0]) + enc_instrs(p.skip(1)));
        assert(enc_instrs(Seq::<CalxInstrView>::empty()) == Seq::<u8>::empty());
        assert(enc_instrs(p) =~= enc_instr(m));
        assert(enc_instrs(ms) == Seq::<u8>::empty());
        assert(enc_instrs(ms) + enc_instr(m) =~= enc_instr(m));
    } else {
        assert(p[0] == ms[0]);
        assert(p.skip(1) =~= ms.skip(1).push(m));
        lemma_enc_instrs_push(ms.skip(1), m);
        assert(enc_instrs(p) == enc_instr(ms[0]) + (enc_instrs(ms.skip(1)) + enc_instr(m)));
        assert(enc_instrs(ms) == enc_instr(ms[0]) + enc_instrs(ms.skip(1)));
        assert(enc_instr(ms[0]) + (enc_instrs(ms.skip(1)) + enc_instr(m)) =~= (enc_instr(ms[0])
            + enc_instrs(ms.skip(1))) + enc_instr(m));
    }
}

pub proof fn lemma_dec_enc_instrs(ms: Seq<CalxInstrView>, rest: Seq<u8>)
    requires
        wf_instrs(ms),
    ensures
        dec_instrs(enc_instrs(ms) + rest, ms.len()) == Some((ms, rest)),
    decreases ms.len(),
{
    if ms.len() == 0 {
        assert(enc_instrs(ms) + rest =~= rest);
    } else {
        let tail_bytes = enc_instrs(ms.skip(1)) + rest;
        assert(enc_instrs(ms) + rest =~= enc_instr(ms[0]) + tail_bytes);
        lemma_dec_enc_instr(ms[0], tail_bytes);
        assert(wf_instrs(ms.skip(1)));
        lemma_dec_enc_instrs(ms.skip(1), rest);
        assert(seq![ms[0]] + ms.skip(1) =~= ms);
    }
}

/// A persisted sequence: the edition tag, the instruction count, then the
/// instruction records.
pub open spec fn enc_env(edition: Seq<char>, ms: Seq<CalxInstrView>) -> Seq<u8> {
    enc_str(edition) + (le_bytes(ms.len(), 8) + enc_instrs(ms))
}

/// Read a whole persisted sequence, as a consumer that understands exactly
/// the given edition: a stream whose tag differs is incompatible, judged
/// before any instruction is looked at; any other ill-formed stream —
/// truncated, trailing bytes, unknown tags — is malformed.
pub open spec fn dec_env(edition: Seq<char>, s: Seq<u8>) -> Result<Seq<CalxInstrView>, DecodeError> {
    match dec_str(s) {
        None => Err(DecodeError::Malformed),
        Some((tag, r)) => if tag != edition {
            Err(DecodeError::IncompatibleEdition)
        } else {
            match dec_le(r, 8) {
                None => Err(DecodeError::Malformed),
                Some((k, r2)) => match dec_instrs(r2, k) {
                    None => Err(DecodeError::Malformed),
                    Some((ms, r3)) => if r3.len() == 0 {
                        Ok(ms)
                    } else {
                        Err(DecodeError::Malformed)
                    },
                },
            }
        },
    }
}

/// Round trip: a well-formed sequence serialized under an edition and read
/// back under the same edition is reproduced exactly.
pub proof fn lemma_codec_round_trip(edition: Seq<char>, ms: Seq<CalxInstrView>)
    requires
        edition.len() < pow256(8),
        ms.len() < pow256(8),
        wf_instrs(ms),
    ensures
        dec_env(edition, enc_env(edition, ms)) == Ok::<Seq<CalxInstrView>, DecodeError>(ms),
{
    let tail_bytes = le_bytes(ms.len(), 8) + enc_instrs(ms);
    lemma_dec_enc_str(edition, tail_bytes);
    lemma_dec_enc_le(ms.len(), 8, enc_instrs(ms));
    assert(enc_instrs(ms) =~= enc_instrs(ms) + Seq::<u8>::empty());
    lemma_dec_enc_instrs(ms, Seq::empty());
}

/// Reading a sequence under any edition other than the one it was serialized
/// under fails as incompatible, never with partial data.
pub proof fn lemma_codec_edition_mismatch(
    written: Seq<char>,
    expected: Seq<char>,
    ms: Seq<CalxInstrView>,
)
    requires
        written.len() < pow256(8),
        written != expected,
    ensures
        dec_env(expected, enc_env(written, ms)) == Err::<Seq<CalxInstrView>, DecodeError>(
            DecodeError::IncompatibleEdition,
        ),
{
    let tail_bytes = le_bytes(ms.len(), 8) + enc_instrs(ms);
    lemma_dec_enc_str(written, tail_bytes);
}

/// Append one tag byte.
fn push_tag(out: &mut Vec<u8>, t: u8)
    ensures
        final(out)@ == old(out)@ + seq![t],
{
    out.push(t);
    proof {
        assert(old(out)@.push(t) =~= old(out)@ + seq![t]);
    }
}

/// Append the `k`-byte little-endian encoding of `n`.
fn encode_le(out: &mut Vec<u8>, n: u64, k: usize)
    ensures
        final(out)@ == old(out)@ + le_bytes(n as nat, k as nat),
{
    let ghost orig = out@;
    let ghost whole = le_bytes(n as nat, k as nat);
    proof {
        lemma_le_bytes_len(n as nat, k as nat);
        assert(whole.take(0) =~= Seq::<u8>::empty());
        assert(orig + whole.take(0) =~= orig);
        assert(whole.skip(0) =~= whole);
    }
    let mut m: u64 = n;
    let mut i: usize = 0;
    while i < k
        invariant
            0 <= i <= k,
            whole == le_bytes(n as nat, k as nat),
            whole.len() == k,
            out@ == orig + whole.take(i as int),
            le_bytes(m as nat, (k - i) as nat) == whole.skip(i as int),
        decreases k - i,
    {
        proof {
            let tail = le_bytes((m as nat) / 256, ((k - i) - 1) as nat);
            assert(le_bytes(m as nat, (k - i) as nat) == seq![((m as nat) % 256) as u8] + tail);
            assert((seq![((m as nat) % 256) as u8] + tail).skip(1) =~= tail);
            assert(whole.skip(i as int)[0] == whole[i as int]);
            assert(whole.skip(i as int).skip(1) =~= whole.skip(i + 1));
        }
        out.push((m % 256) as u8);
        proof {
            assert(out@ =~= orig + whole.take(i + 1));
        }
        m = m / 256;
        i = i + 1;
    }
    proof {
        assert(whole.take(k as int) =~= whole);
    }
}

/// Append an index operand.
fn encode_usize(out: &mut Vec<u8>, n: usize)
    ensures
        final(out)@ == old(out)@ + enc_usize(n),
{
    proof {
        assert((n as u64) as nat == n as nat);
    }
    encode_le(out, n as u64, 8);
}

/// Append a flag byte.
fn encode_bool(out: &mut Vec<u8>, b: bool)
    ensures
        final(out)@ == old(out)@ + enc_bool(b),
{
    let t: u8 = if b {
        1u8
    } else {
        0u8
    };
    out.push(t);
    proof {
        assert(old(out)@.push(t) =~= old(out)@ + enc_bool(b));
    }
}

/// Append a character as its four-byte scalar value.
fn encode_char(out: &mut Vec<u8>, c: char)
    ensures
        final(out)@ == old(out)@ + enc_char(c),
{
    proof {
        vstd::utf8::char_is_scalar(c);
        assert((c as u64) as nat == c as nat);
    }
    encode_le(out, c as u64, 4);
}

/// Append a string: its character count, then its characters.
fn encode_str(out: &mut Vec<u8>, s: &str)
    ensures
        final(out)@ == old(out)@ + enc_str(s@),
{
    let ghost orig = out@;
    let n = s.unicode_len();
    proof {
        assert((n as u64) as nat == n as nat);
    }
    encode_le(out, n as u64, 8);
    let mut i: usize = 0;
    proof {
        assert(s@.take(0) =~= Seq::<char>::empty());
        assert(enc_chars(Seq::<char>::empty()) == Seq::<u8>::empty());
        assert(out@ =~= orig + le_bytes(n as nat, 8) + enc_chars(s@.take(0)));
    }
    while i < n
        invariant
            0 <= i <= n,
            n == s@.len(),
            out@ == orig + le_bytes(n as nat, 8) + enc_chars(s@.take(i as int)),
        decreases n - i,
    {
        let c = s.get_char(i);
        encode_char(out, c);
        proof {
            assert(s@.take(i as int).push(c) =~= s@.take(i + 1));
            lemma_enc_chars_push(s@.take(i as int), c);
            assert(out@ =~= orig + le_bytes(n as nat, 8) + enc_chars(s@.take(i + 1)));
        }
        i = i + 1;
    }
    proof {
        assert(s@.take(n as int) =~= s@);
        assert(orig + le_bytes(n as nat, 8) + enc_chars(s@) =~= orig + enc_str(s@));
    }
}

/// The tag byte of a value type.
fn type_tag_byte(t: CalxType) -> (r: u8)
    ensures
        r == type_tag(t),
{
    match t {
        CalxType::Nil => 0u8,
        CalxType::Bool => 1u8,
        CalxType::I64 => 2u8,
        CalxType::F64 => 3u8,
        CalxType::Str => 4u8,
        CalxType::List => 5u8,
        CalxType::Link => 6u8,
    }
}

/// Append a type list: its length, then its tag bytes.
fn encode_types(out: &mut Vec<u8>, ts: &Vec<CalxType>)
    ensures
        final(out)@ == old(out)@ + enc_types(ts@),
{
    let ghost orig = out@;
    let n = ts.len();
    proof {
        assert((n as u64) as nat == n as nat);
    }
    encode_le(out, n as u64, 8);
    let mut i: usize = 0;
    proof {
        assert(ts@.take(0) =~= Seq::<CalxType>::empty());
        assert(enc_types_body(Seq::<CalxType>::empty()) == Seq::<u8>::empty());
        assert(out@ =~= orig + le_bytes(n as nat, 8) + enc_types_body(ts@.take(0)));
    }
    while i < n
        invariant
            0 <= i <= n,
            n == ts@.len(),
            out@ == orig + le_bytes(n as nat, 8) + enc_types_body(ts@.take(i as int)),
        decreases n - i,
    {
        let b = type_tag_byte(ts[i]);
        out.push(b);
        proof {
            assert(ts@.take(i as int).push(ts@[i as int]) =~= ts@.take(i + 1));
            lemma_enc_types_body_push(ts@.take(i as int), ts@[i as int]);
            assert(out@ =~= orig + le_bytes(n as nat, 8) + enc_types_body(ts@.take(i + 1)));
        }
        i = i + 1;
    }
    proof {
        assert(ts@.take(n as int) =~= ts@);
        assert(orig + le_bytes(n as nat, 8) + enc_types_body(ts@) =~= orig + enc_types(ts@));
    }
}

/// Append a constant: its tag byte, then its payload.
fn encode_calx(out: &mut Vec<u8>, v: &Calx)
    ensures
        final(out)@ == old(out)@ + enc_calx(v@),
{
    match v {
        Calx::Nil => {
            push_tag(out, 0u8);
        },
        Calx::Bool(b) => {
            push_tag(out, 1u8);
            encode_bool(out, *b);
            proof {
                assert(out@ =~= old(out)@ + enc_calx(v@));
            }
        },
        Calx::I64(n) => {
            push_tag(out, 2u8);
            encode_le(out, *n as u64, 8);
            proof {
                assert(out@ =~= old(out)@ + enc_calx(v@));
            }
        },
        Calx::Str(s) => {
            push_tag(out, 3u8);
            encode_str(out, s.as_str());
            proof {
                assert(out@ =~= old(out)@ + enc_calx(v@));
            }
        },
    }
}

/// Append one instruction: its tag byte, then its operands.
#[verifier::rlimit(100)]
#[verifier::spinoff_prover]
fn encode_instr(out: &mut Vec<u8>, i: &CalxInstr)
    ensures
        final(out)@ == old(out)@ + enc_instr(i@),
{
    match i {
        CalxInstr::LocalSet(n) => {
            push_tag(out, 0u8);
            encode_usize(out, *n);
            proof {
                assert(out@ =~= old(out)@ + enc_instr(i@));
            }
        },
        CalxInstr::LocalTee(n) => {
            push_tag(out, 1u8);
            encode_usize(out, *n);
            proof {
                assert(out@ =~= old(out)@ + enc_instr(i@));
            }
        },
        CalxInstr::LocalGet(n) => {
            push_tag(out, 2u8);
            encode_usize(out, *n);
            proof {
                assert(out@ =~= old(out)@ + enc_instr(i@));
            }
        },
        CalxInstr::LocalNew => {
            push_tag(out, 3u8);
        },
        CalxInstr::GlobalSet(n) => {
            push_tag(out, 4u8);
            encode_usize(out, *n);
            proof {
                assert(out@ =~= old(out)@ + enc_instr(i@));
            }
        },
        CalxInstr::GlobalGet(n) => {
            push_tag(out, 5u8);
            encode_usize(out, *n);
            proof {
                assert(out@ =~= old(out)@ + enc_instr(i@));
            }
        },
        CalxInstr::GlobalNew => {
            push_tag(out, 6u8);
        },
        CalxInstr::Const(v) => {
            push_tag(out, 7u8);
            encode_calx(out, v);
            proof {
                assert(out@ =~= old(out)@ + enc_instr(i@));
            }
        },
        CalxInstr::Dup => {
            push_tag(out, 8u8);
        },
        CalxInstr::Drop => {
            push_tag(out, 9u8);
        },
        CalxInstr::IntAdd => {
            push_tag(out, 10u8);
        },
        CalxInstr::IntMul => {
            push_tag(out, 11u8);
        },
        CalxInstr::IntDiv => {
            push_tag(out, 12u8);
        },
        CalxInstr::IntRem => {
            push_tag(out, 13u8);
        },
        CalxInstr::IntNeg => {
            push_tag(out, 14u8);
        },
        CalxInstr::IntShr => {
            push_tag(out, 15u8);
        },
        CalxInstr::IntShl => {
            push_tag(out, 16u8);
        },
        CalxInstr::IntEq => {
            push_tag(out, 17u8);
        },
        CalxInstr::IntNe => {
            push_tag(out, 18u8);
        },
        CalxInstr::IntLt => {
            push_tag(out, 19u8);
        },
        CalxInstr::IntLe => {
            push_tag(out, 20u8);
        },
        CalxInstr::IntGt => {
            push_tag(out, 21u8);
        },
        CalxInstr::IntGe => {
            push_tag(out, 22u8);
        },
        CalxInstr::Add => {
            push_tag(out, 23u8);
        },
        CalxInstr::Mul => {
            push_tag(out, 24u8);
        },
        CalxInstr::Div => {
            push_tag(out, 25u8);
        },
        CalxInstr::Neg => {
            push_tag(out, 26u8);
        },
        CalxInstr::NewList => {
            push_tag(out, 27u8);
        },
        CalxInstr::ListGet => {
            push_tag(out, 28u8);
        },
        CalxInstr::ListSet => {
            push_tag(out, 29u8);
        },
        CalxInstr::NewLink => {
            push_tag(out, 30u8);
        },
        CalxInstr::And => {
            push_tag(out, 31u8);
        },
        CalxInstr::Or => {
            push_tag(out, 32u8);
        },
        CalxInstr::Not => {
            push_tag(out, 33u8);
        },
        CalxInstr::Br(t) => {
            push_tag(out, 34u8);
            encode_usize(out, *t);
            proof {
                assert(out@ =~= old(out)@ + enc_instr(i@));
            }
        },
        CalxInstr::BrIf(t) => {
            push_tag(out, 35u8);
            encode_usize(out, *t);
            proof {
                assert(out@ =~= old(out)@ + enc_instr(i@));
            }
        },
        CalxInstr::Jmp(t) => {
            push_tag(out, 36u8);
            encode_usize(out, *t);
            proof {
                assert(out@ =~= old(out)@ + enc_instr(i@));
            }
        },
        CalxInstr::JmpIf(t) => {
            push_tag(out, 37u8);
            encode_usize(out, *t);
            proof {
                assert(out@ =~= old(out)@ + enc_instr(i@));
            }
        },
        CalxInstr::Block { params_types, ret_types, looped, from, to } => {
            push_tag(out, 38u8);
            encode_types(out, params_types);
            encode_types(out, ret_types);
            encode_bool(out, *looped);
            encode_usize(out, *from);
            encode_usize(out, *to);
            proof {
                assert(out@ =~= old(out)@ + enc_instr(i@));
            }
        },
        CalxInstr::BlockEnd(b) => {
            push_tag(out, 39u8);
            encode_bool(out, *b);
            proof {
                assert(out@ =~= old(out)@ + enc_instr(i@));
            }
        },
        CalxInstr::Echo => {
            push_tag(out, 40u8);
        },
        CalxInstr::Call(name) => {
            push_tag(out, 41u8);
            encode_str(out, name.as_str());
            proof {
                assert(out@ =~= old(out)@ + enc_instr(i@));
            }
        },
        CalxInstr::ReturnCall(name) => {
            push_tag(out, 42u8);
            encode_str(out, name.as_str());
            proof {
                assert(out@ =~= old(out)@ + enc_instr(i@));
            }
        },
        CalxInstr::CallImport(name) => {
            push_tag(out, 43u8);
            encode_str(out, name.as_str());
            proof {
                assert(out@ =~= old(out)@ + enc_instr(i@));
            }
        },
        CalxInstr::Unreachable => {
            push_tag(out, 44u8);
        },
        CalxInstr::Nop => {
            push_tag(out, 45u8);
        },
        CalxInstr::Quit(code) => {
            push_tag(out, 46u8);
            encode_usize(out, *code);
            proof {
                assert(out@ =~= old(out)@ + enc_instr(i@));
            }
        },
        CalxInstr::Return => {
            push_tag(out, 47u8);
        },
        CalxInstr::Assert(msg) => {
            push_tag(out, 48u8);
            encode_str(out, msg.as_str());
            proof {
                assert(out@ =~= old(out)@ + enc_instr(i@));
            }
        },
        CalxInstr::Inspect => {
            push_tag(out, 49u8);
        },
        CalxInstr::If { ret_types, then_to, else_to, to } => {
            push_tag(out, 50u8);
            encode_types(out, ret_types);
            encode_usize(out, *then_to);
            encode_usize(out, *else_to);
            encode_usize(out, *to);
            proof {
                assert(out@ =~= old(out)@ + enc_instr(i@));
            }
        },
        CalxInstr::EndIf => {
            push_tag(out, 51u8);
        },
    }
}

/// Serialize a sequence under the given edition tag.
pub fn encode_with_edition(edition: &str, instrs: &Vec<CalxInstr>) -> (r: Vec<u8>)
    ensures
        r@ == enc_env(edition@, instr_views(instrs@)),
{
    let ghost ims = instr_views(instrs@);
    let mut out: Vec<u8> = Vec::new();
    encode_str(&mut out, edition);
    let n = instrs.len();
    proof {
        assert((n as u64) as nat == n as nat);
        assert(ims.len() == n);
    }
    encode_le(&mut out, n as u64, 8);
    let mut i: usize = 0;
    proof {
        assert(ims.take(0) =~= Seq::<CalxInstrView>::empty());
        assert(enc_instrs(Seq::<CalxInstrView>::empty()) == Seq::<u8>::empty());
        assert(out@ =~= enc_str(edition@) + le_bytes(n as nat, 8) + enc_instrs(ims.take(0)));
    }
    while i < n
        invariant
            0 <= i <= n,
            n == instrs@.len(),
            ims == instr_views(instrs@),
            ims.len() == n,
            out@ == enc_str(edition@) + le_bytes(n as nat, 8) + enc_instrs(ims.take(i as int)),
        decreases n - i,
    {
        proof {
            assert(ims[i as int] == instrs@[i as int]@);
        }
        encode_instr(&mut out, &instrs[i]);
        proof {
            assert(ims.take(i as int).push(ims[i as int]) =~= ims.take(i + 1));
            lemma_enc_instrs_push(ims.take(i as int), ims[i as int]);
            assert(out@ =~= enc_str(edition@) + le_bytes(n as nat, 8) + enc_instrs(
                ims.take(i + 1),
            ));
        }
        i = i + 1;
    }
    proof {
        assert(ims.take(n as int) =~= ims);
        assert(enc_str(edition@) + le_bytes(n as nat, 8) + enc_instrs(ims) =~= enc_env(
            edition@,
            ims,
        ));
    }
    out
}

/// Serialize a sequence under the current edition.
pub fn encode(instrs: &Vec<CalxInstr>) -> (r: Vec<u8>)
    ensures
        r@ == enc_env(crate::instr::spec_edition(), instr_views(instrs@)),
{
    encode_with_edition(crate::instr::CALX_INSTR_EDITION, instrs)
}

/// Read `k` little-endian bytes at `pos`.
fn decode_le(bytes: &Vec<u8>, pos: usize, k: usize) -> (r: Option<(u64, usize)>)
    requires
        pos <= bytes@.len(),
        k <= 8,
    ensures
        match r {
            Some(vp) => {
                &&& pos <= vp.1 <= bytes@.len()
                &&& dec_le(bytes@.skip(pos as int), k as nat) == Some(
                    (vp.0 as nat, bytes@.skip(vp.1 as int)),
                )
            },
            None => dec_le(bytes@.skip(pos as int), k as nat) is None,
        },
{
    let len = bytes.len();
    if len - pos < k {
        proof {
            assert(bytes@.skip(pos as int).len() < k as nat);
        }
        return None;
    }
    let mut v: u64 = 0;
    let mut i: usize = k;
    proof {
        lemma_pow256_units();
        assert(bytes@.subrange(pos + k, pos + k) =~= Seq::<u8>::empty());
    }
    while i > 0
        invariant
            0 <= i <= k,
            k <= 8,
            pos + k <= bytes@.len(),
            bytes@.len() <= usize::MAX,
            v as nat == le_val(bytes@.subrange(pos + i, pos + k)),
            (v as nat) < pow256((k - i) as nat),
        decreases i,
    {
        i = i - 1;
        let b = bytes[pos + i];
        proof {
            let sub = bytes@.subrange(pos + i, pos + k);
            assert(sub.len() == k - i);
            assert(sub[0] == bytes@[pos + i]);
            assert(sub.skip(1) =~= bytes@.subrange(pos + i + 1, pos + k));
            assert(pow256((k - i) as nat) == 256 * pow256((k - i - 1) as nat));
            lemma_pow256_increases((k - i) as nat, 8);
            lemma_pow256_units();
            assert((v as nat) * 256 + (b as nat) < pow256((k - i) as nat));
        }
        v = v * 256 + (b as u64);
    }
    proof {
        assert(bytes@.skip(pos as int).take(k as int) =~= bytes@.subrange(pos as int, pos + k));
        assert(bytes@.skip(pos as int).skip(k as int) =~= bytes@.skip(pos + k));
    }
    Some((v, pos + k))
}

/// Read an index operand at `pos`.
fn decode_usize(bytes: &Vec<u8>, pos: usize) -> (r: Option<(usize, usize)>)
    requires
        pos <= bytes@.len(),
    ensures
        match r {
            Some(vp) => {
                &&& pos <= vp.1 <= bytes@.len()
                &&& dec_usize(bytes@.skip(pos as int)) == Some((vp.0, bytes@.skip(vp.1 as int)))
            },
            None => dec_usize(bytes@.skip(pos as int)) is None,
        },
{
    match decode_le(bytes, pos, 8) {
        None => None,
        Some((v, p2)) => {
            proof {
                assert(usize::MAX as int <= u64::MAX as int);
            }
            if v <= (usize::MAX as u64) {
                Some((v as usize, p2))
            } else {
                None
            }
        },
    }
}

/// Read a flag byte at `pos`.
fn decode_bool(bytes: &Vec<u8>, pos: usize) -> (r: Option<(bool, usize)>)
    requires
        pos <= bytes@.len(),
    ensures
        match r {
            Some(vp) => {
                &&& pos <= vp.1 <= bytes@.len()
                &&& dec_bool(bytes@.skip(pos as int)) == Some((vp.0, bytes@.skip(vp.1 as int)))
            },
            None => dec_bool(bytes@.skip(pos as int)) is None,
        },
{
    if pos >= bytes.len() {
        return None;
    }
    let b = bytes[pos];
    proof {
        assert(bytes@.skip(pos as int)[0] == bytes@[pos as int]);
        assert(bytes@.skip(pos as int).skip(1) =~= bytes@.skip(pos + 1));
    }
    if b == 1u8 {
        Some((true, pos + 1))
    } else if b == 0u8 {
        Some((false, pos + 1))
    } else {
        None
    }
}

/// Read a character at `pos`.
fn decode_char(bytes: &Vec<u8>, pos: usize) -> (r: Option<(char, usize)>)
    requires
        pos <= bytes@.len(),
    ensures
        match r {
            Some(vp) => {
                &&& pos <= vp.1 <= bytes@.len()
                &&& dec_char(bytes@.skip(pos as int)) == Some((vp.0, bytes@.skip(vp.1 as int)))
            },
            None => dec_char(bytes@.skip(pos as int)) is None,
        },
{
    match decode_le(bytes, pos, 4) {
        None => None,
        Some((v, p2)) => {
            if v <= 0xffff_ffffu64 {
                match char::from_u32(v as u32) {
                    Some(c) => Some((c, p2)),
                    None => None,
                }
            } else {
                None
            }
        },
    }
}

/// Read a string at `pos`.
fn decode_str(bytes: &Vec<u8>, pos: usize) -> (r: Option<(String, usize)>)
    requires
        pos <= bytes@.len(),
    ensures
        match r {
            Some(vp) => {
                &&& pos <= vp.1 <= bytes@.len()
                &&& dec_str(bytes@.skip(pos as int)) == Some((vp.0@, bytes@.skip(vp.1 as int)))
            },
            None => dec_str(bytes@.skip(pos as int)) is None,
        },
{
    match decode_le(bytes, pos, 8) {
        None => None,
        Some((k64, p1)) => {
            let mut s = String::new();
            let mut p = p1;
            let mut done: u64 = 0;
            while done < k64
                invariant
                    pos <= p1 <= bytes@.len(),
                    p1 <= p <= bytes@.len(),
                    done <= k64,
                    dec_le(bytes@.skip(pos as int), 8) == Some(
                        (k64 as nat, bytes@.skip(p1 as int)),
                    ),
                    dec_chars(bytes@.skip(p1 as int), k64 as nat) == (match dec_chars(
                        bytes@.skip(p as int),
                        (k64 - done) as nat,
                    ) {
                        None => None::<(Seq<char>, Seq<u8>)>,
                        Some(t) => Some((s@ + t.0, t.1)),
                    }),
                decreases k64 - done,
            {
                let ghost s_old = s@;
                let ghost n0 = (k64 - done) as nat;
                match decode_char(bytes, p) {
                    None => {
                        proof {
                            assert(dec_chars(bytes@.skip(p as int), n0) is None);
                        }
                        return None;
                    },
                    Some((c, p2)) => {
                        proof {
                            let dc1 = dec_chars(bytes@.skip(p2 as int), (n0 - 1) as nat);
                            assert(dec_chars(bytes@.skip(p as int), n0) == (match dc1 {
                                None => None::<(Seq<char>, Seq<u8>)>,
                                Some(t) => Some((seq![c] + t.0, t.1)),
                            }));
                            match dc1 {
                                None => {},
                                Some(t) => {
                                    assert(s_old + (seq![c] + t.0) =~= s_old.push(c) + t.0);
                                },
                            }
                        }
                        push_char(&mut s, c);
                        p = p2;
                        done = done + 1;
                    },
                }
            }
            proof {
                assert(dec_chars(bytes@.skip(p as int), 0) == Some(
                    (Seq::<char>::empty(), bytes@.skip(p as int)),
                ));
                assert(s@ + Seq::<char>::empty() =~= s@);
            }
            Some((s, p))
        },
    }
}

/// Read one value type at `pos`.
fn decode_type(bytes: &Vec<u8>, pos: usize) -> (r: Option<(CalxType, usize)>)
    requires
        pos <= bytes@.len(),
    ensures
        match r {
            Some(vp) => {
                &&& pos <= vp.1 <= bytes@.len()
                &&& dec_type(bytes@.skip(pos as int)) == Some((vp.0, bytes@.skip(vp.1 as int)))
            },
            None => dec_type(bytes@.skip(pos as int)) is None,
        },
{
    if pos >= bytes.len() {
        return None;
    }
    let b = bytes[pos];
    proof {
        assert(bytes@.skip(pos as int)[0] == bytes@[pos as int]);
        assert(bytes@.skip(pos as int).skip(1) =~= bytes@.skip(pos + 1));
    }
    if b == 0u8 {
        Some((CalxType::Nil, pos + 1))
    } else if b == 1u8 {
        Some((CalxType::Bool, pos + 1))
    } else if b == 2u8 {
        Some((CalxType::I64, pos + 1))
    } else if b == 3u8 {
        Some((CalxType::F64, pos + 1))
    } else if b == 4u8 {
        Some((CalxType::Str, pos + 1))
    } else if b == 5u8 {
        Some((CalxType::List, pos + 1))
    } else if b == 6u8 {
        Some((CalxType::Link, pos + 1))
    } else {
        None
    }
}

/// Read a type list at `pos`.
fn decode_types(bytes: &Vec<u8>, pos: usize) -> (r: Option<(Vec<CalxType>, usize)>)
    requires
        pos <= bytes@.len(),
    ensures
        match r {
            Some(vp) => {
                &&& pos <= vp.1 <= bytes@.len()
                &&& dec_types(bytes@.skip(pos as int)) == Some((vp.0@, bytes@.skip(vp.1 as int)))
            },
            None => dec_types(bytes@.skip(pos as int)) is None,
        },
{
    match decode_le(bytes, pos, 8) {
        None => None,
        Some((k64, p1)) => {
            let mut ts: Vec<CalxType> = Vec::new();
            let mut p = p1;
            let mut done: u64 = 0;
            while done < k64
                invariant
                    pos <= p1 <= bytes@.len(),
                    p1 <= p <= bytes@.len(),
                    done <= k64,
                    dec_le(bytes@.skip(pos as int), 8) == Some(
                        (k64 as nat, bytes@.skip(p1 as int)),
                    ),
                    dec_types_body(bytes@.skip(p1 as int), k64 as nat) == (match dec_types_body(
                        bytes@.skip(p as int),
                        (k64 - done) as nat,
                    ) {
                        None => None::<(Seq<CalxType>, Seq<u8>)>,
                        Some(t) => Some((ts@ + t.0, t.1)),
                    }),
                decreases k64 - done,
            {
                let ghost ts_old = ts@;
                let ghost n0 = (k64 - done) as nat;
                match decode_type(bytes, p) {
                    None => {
                        proof {
                            assert(dec_types_body(bytes@.skip(p as int), n0) is None);
                        }
                        return None;
                    },
                    Some((t, p2)) => {
                        proof {
                            let dc1 = dec_types_body(bytes@.skip(p2 as int), (n0 - 1) as nat);
                            assert(dec_types_body(bytes@.skip(p as int), n0) == (match dc1 {
                                None => None::<(Seq<CalxType>, Seq<u8>)>,
                                Some(u) => Some((seq![t] + u.0, u.1)),
                            }));
                            match dc1 {
                                None => {},
                                Some(u) => {
                                    assert(ts_old + (seq![t] + u.0) =~= ts_old.push(t) + u.0);
                                },
                            }
                        }
                        ts.push(t);
                        p = p2;
                        done = done + 1;
                    },
                }
            }
            proof {
                assert(dec_types_body(bytes@.skip(p as int), 0) == Some(
                    (Seq::<CalxType>::empty(), bytes@.skip(p as int)),
                ));
                assert(ts@ + Seq::<CalxType>::empty() =~= ts@);
            }
            Some((ts, p))
        },
    }
}

/// Read a constant at `pos`.
fn decode_calx(bytes: &Vec<u8>, pos: usize) -> (r: Option<(Calx, usize)>)
    requires
        pos <= bytes@.len(),
    ensures
        match r {
            Some(vp) => {
                &&& pos <= vp.1 <= bytes@.len()
                &&& dec_calx(bytes@.skip(pos as int)) == Some((vp.0@, bytes@.skip(vp.1 as int)))
            },
            None => dec_calx(bytes@.skip(pos as int)) is None,
        },
{
    if pos >= bytes.len() {
        return None;
    }
    let t = bytes[pos];
    let p1 = pos + 1;
    proof {
        assert(bytes@.skip(pos as int)[0] == bytes@[pos as int]);
        assert(bytes@.skip(pos as int).skip(1) =~= bytes@.skip(p1 as int));
    }
    if t == 0u8 {
        Some((Calx::Nil, p1))
    } else if t == 1u8 {
        match decode_bool(bytes, p1) {
            None => None,
            Some((b, p2)) => Some((Calx::Bool(b), p2)),
        }
    } else if t == 2u8 {
        match decode_le(bytes, p1, 8) {
            None => None,
            Some((v, p2)) => Some((Calx::I64(v as i64), p2)),
        }
    } else if t == 3u8 {
        match decode_str(bytes, p1) {
            None => None,
            Some((s, p2)) => Some((Calx::Str(s), p2)),
        }
    } else {
        None
    }
}

/// Read one instruction at `pos`.
#[verifier::rlimit(100)]
#[verifier::spinoff_prover]
fn decode_instr(bytes: &Vec<u8>, pos: usize) -> (r: Option<(CalxInstr, usize)>)
    requires
        pos <= bytes@.len(),
    ensures
        match r {
            Some(vp) => {
                &&& pos <= vp.1 <= bytes@.len()
                &&& dec_instr(bytes@.skip(pos as int)) == Some((vp.0@, bytes@.skip(vp.1 as int)))
            },
            None => dec_instr(bytes@.skip(pos as int)) is None,
        },
{
    if pos >= bytes.len() {
        return None;
    }
    let t = bytes[pos];
    let p1 = pos + 1;
    proof {
        assert(bytes@.skip(pos as int)[0] == bytes@[pos as int]);
        assert(bytes@.skip(pos as int).skip(1) =~= bytes@.skip(p1 as int));
    }
    if t == 0u8 {
        match decode_usize(bytes, p1) {
            None => None,
            Some((n, p2)) => Some((CalxInstr::LocalSet(n), p2)),
        }
    } else if t == 1u8 {
        match decode_usize(bytes, p1) {
            None => None,
            Some((n, p2)) => Some((CalxInstr::LocalTee(n), p2)),
        }
    } else if t == 2u8 {
        match decode_usize(bytes, p1) {
            None => None,
            Some((n, p2)) => Some((CalxInstr::LocalGet(n), p2)),
        }
    } else if t == 3u8 {
        Some((CalxInstr::LocalNew, p1))
    } else if t == 4u8 {
        match decode_usize(bytes, p1) {
            None => None,
            Some((n, p2)) => Some((CalxInstr::GlobalSet(n), p2)),
        }
    } else if t == 5u8 {
        match decode_usize(bytes, p1) {
            None => None,
            Some((n, p2)) => Some((CalxInstr::GlobalGet(n), p2)),
        }
    } else if t == 6u8 {
        Some((CalxInstr::GlobalNew, p1))
    } else if t == 7u8 {
        match decode_calx(bytes, p1) {
            None => None,
            Some((v, p2)) => Some((CalxInstr::Const(v), p2)),
        }
    } else if t == 8u8 {
        Some((CalxInstr::Dup, p1))
    } else if t == 9u8 {
        Some((CalxInstr::Drop, p1))
    } else if t == 10u8 {
        Some((CalxInstr::IntAdd, p1))
    } else if t == 11u8 {
        Some((CalxInstr::IntMul, p1))
    } else if t == 12u8 {
        Some((CalxInstr::IntDiv, p1))
    } else if t == 13u8 {
        Some((CalxInstr::IntRem, p1))
    } else if t == 14u8 {
        Some((CalxInstr::IntNeg, p1))
    } else if t == 15u8 {
        Some((CalxInstr::IntShr, p1))
    } else if t == 16u8 {
        Some((CalxInstr::IntShl, p1))
    } else if t == 17u8 {
        Some((CalxInstr::IntEq, p1))
    } else if t == 18u8 {
        Some((CalxInstr::IntNe, p1))
    } else if t == 19u8 {
        Some((CalxInstr::IntLt, p1))
    } else if t == 20u8 {
        Some((CalxInstr::IntLe, p1))
    } else if t == 21u8 {
        Some((CalxInstr::IntGt, p1))
    } else if t == 22u8 {
        Some((CalxInstr::IntGe, p1))
    } else if t == 23u8 {
        Some((CalxInstr::Add, p1))
    } else if t == 24u8 {
        Some((CalxInstr::Mul, p1))
    } else if t == 25u8 {
        Some((CalxInstr::Div, p1))
    } else if t == 26u8 {
        Some((CalxInstr::Neg, p1))
    } else if t == 27u8 {
        Some((CalxInstr::NewList, p1))
    } else if t == 28u8 {
        Some((CalxInstr::ListGet, p1))
    } else if t == 29u8 {
        Some((CalxInstr::ListSet, p1))
    } else if t == 30u8 {
        Some((CalxInstr::NewLink, p1))
    } else if t == 31u8 {
        Some((CalxInstr::And, p1))
    } else if t == 32u8 {
        Some((CalxInstr::Or, p1))
    } else if t == 33u8 {
        Some((CalxInstr::Not, p1))
    } else if t == 34u8 {
        match decode_usize(bytes, p1) {
            None => None,
            Some((n, p2)) => Some((CalxInstr::Br(n), p2)),
        }
    } else if t == 35u8 {
        match decode_usize(bytes, p1) {
            None => None,
            Some((n, p2)) => Some((CalxInstr::BrIf(n), p2)),
        }
    } else if t == 36u8 {
        match decode_usize(bytes, p1) {
            None => None,
            Some((n, p2)) => Some((CalxInstr::Jmp(n), p2)),
        }
    } else if t == 37u8 {
        match decode_usize(bytes, p1) {
            None => None,
            Some((n, p2)) => Some((CalxInstr::JmpIf(n), p2)),
        }
    } else if t == 38u8 {
        match decode_types(bytes, p1) {
            None => None,
            Some((pt, p2)) => match decode_types(bytes, p2) {
                None => None,
                Some((rt, p3)) => match decode_bool(bytes, p3) {
                    None => None,
                    Some((lp, p4)) => match decode_usize(bytes, p4) {
                        None => None,
                        Some((fr, p5)) => match decode_usize(bytes, p5) {
                            None => None,
                            Some((t2, p6)) => Some(
                                (
                                    CalxInstr::Block {
                                        params_types: pt,
                                        ret_types: rt,
                                        looped: lp,
                                        from: fr,
                                        to: t2,
                                    },
                                    p6,
                                ),
                            ),
                        },
                    },
                },
            },
        }
    } else if t == 39u8 {
        match decode_bool(bytes, p1) {
            None => None,
            Some((b, p2)) => Some((CalxInstr::BlockEnd(b), p2)),
        }
    } else if t == 40u8 {
        Some((CalxInstr::Echo, p1))
    } else if t == 41u8 {
        match decode_str(bytes, p1) {
            None => None,
            Some((s, p2)) => Some((CalxInstr::Call(s), p2)),
        }
    } else if t == 42u8 {
        match decode_str(bytes, p1) {
            None => None,
            Some((s, p2)) => Some((CalxInstr::ReturnCall(s), p2)),
        }
    } else if t == 43u8 {
        match decode_str(bytes, p1) {
            None => None,
            Some((s, p2)) => Some((CalxInstr::CallImport(s), p2)),
        }
    } else if t == 44u8 {
        Some((CalxInstr::Unreachable, p1))
    } else if t == 45u8 {
        Some((CalxInstr::Nop, p1))
    } else if t == 46u8 {
        match decode_usize(bytes, p1) {
            None => None,
            Some((n, p2)) => Some((CalxInstr::Quit(n), p2)),
        }
    } else if t == 47u8 {
        Some((CalxInstr::Return, p1))
    } else if t == 48u8 {
        match decode_str(bytes, p1) {
            None => None,
            Some((s, p2)) => Some((CalxInstr::Assert(s), p2)),
        }
    } else if t == 49u8 {
        Some((CalxInstr::Inspect, p1))
    } else if t == 50u8 {
        match decode_types(bytes, p1) {
            None => None,
            Some((rt, p2)) => match decode_usize(bytes, p2) {
                None => None,
                Some((th, p3)) => match decode_usize(bytes, p3) {
                    None => None,
                    Some((el, p4)) => match decode_usize(bytes, p4) {
                        None => None,
                        Some((t2, p5)) => Some(
                            (
                                CalxInstr::If {
                                    ret_types: rt,
                                    then_to: th,
                                    else_to: el,
                                    to: t2,
                                },
                                p5,
                            ),
                        ),
                    },
                },
            },
        }
    } else if t == 51u8 {
        Some((CalxInstr::EndIf, p1))
    } else {
        None
    }
}

/// Deserialize a whole stream, as a consumer that understands exactly the
/// given edition: a stream whose tag differs is rejected as incompatible
/// before any instruction is looked at, and any other ill-formed stream is
/// rejected as malformed, never returned as partial data.
pub fn decode_with_edition(edition: &str, bytes: &Vec<u8>) -> (r: Result<
    Vec<CalxInstr>,
    DecodeError,
>)
    ensures
        match r {
            Ok(v) => dec_env(edition@, bytes@) == Ok::<Seq<CalxInstrView>, DecodeError>(
                instr_views(v@),
            ),
            Err(e) => dec_env(edition@, bytes@) == Err::<Seq<CalxInstrView>, DecodeError>(e),
        },
{
    proof {
        assert(bytes@.skip(0) =~= bytes@);
    }
    match decode_str(bytes, 0) {
        None => Err(DecodeError::Malformed),
        Some((tag, p1)) => {
            if !crate::text::str_eq(tag.as_str(), edition) {
                return Err(DecodeError::IncompatibleEdition);
            }
            match decode_le(bytes, p1, 8) {
                None => Err(DecodeError::Malformed),
                Some((k64, p2)) => {
                    let mut out: Vec<CalxInstr> = Vec::new();
                    let mut p = p2;
                    let mut done: u64 = 0;
                    while done < k64
                        invariant
                            p1 <= bytes@.len(),
                            p2 <= p <= bytes@.len(),
                            done <= k64,
                            dec_str(bytes@) == Some((edition@, bytes@.skip(p1 as int))),
                            dec_le(bytes@.skip(p1 as int), 8) == Some(
                                (k64 as nat, bytes@.skip(p2 as int)),
                            ),
                            dec_instrs(bytes@.skip(p2 as int), k64 as nat) == (match dec_instrs(
                                bytes@.skip(p as int),
                                (k64 - done) as nat,
                            ) {
                                None => None::<(Seq<CalxInstrView>, Seq<u8>)>,
                                Some(t) => Some((instr_views(out@) + t.0, t.1)),
                            }),
                        decreases k64 - done,
                    {
                        let ghost out_old = out@;
                        let ghost n0 = (k64 - done) as nat;
                        match decode_instr(bytes, p) {
                            None => {
                                proof {
                                    assert(dec_instrs(bytes@.skip(p as int), n0) is None);
                                }
                                return Err(DecodeError::Malformed);
                            },
                            Some((ins, p3)) => {
                                proof {
                                    let dc1 = dec_instrs(bytes@.skip(p3 as int), (n0 - 1) as nat);
                                    assert(dec_instrs(bytes@.skip(p as int), n0) == (match dc1 {
                                        None => None::<(Seq<CalxInstrView>, Seq<u8>)>,
                                        Some(t) => Some((seq![ins@] + t.0, t.1)),
                                    }));
                                    assert(instr_views(out_old.push(ins)) =~= instr_views(
                                        out_old,
                                    ).push(ins@));
                                    match dc1 {
                                        None => {},
                                        Some(t) => {
                                            assert(instr_views(out_old) + (seq![ins@] + t.0)
                                                =~= instr_views(out_old).push(ins@) + t.0);
                                        },
                                    }
                                }
                                out.push(ins);
                                p = p3;
                                done = done + 1;
                            },
                        }
                    }
                    proof {
                        assert(dec_instrs(bytes@.skip(p as int), 0) == Some(
                            (Seq::<CalxInstrView>::empty(), bytes@.skip(p as int)),
                        ));
                        assert(instr_views(out@) + Seq::<CalxInstrView>::empty() =~= instr_views(
                            out@,
                        ));
                    }
                    if p == bytes.len() {
                        proof {
                            assert(bytes@.skip(p as int).len() == 0);
                        }
                        Ok(out)
                    } else {
                        proof {
                            assert(bytes@.skip(p as int).len() > 0);
                        }
                        Err(DecodeError::Malformed)
                    }
                },
            }
        },
    }
}

/// Deserialize a whole stream under the current edition.
pub fn decode(bytes: &Vec<u8>) -> (r: Result<Vec<CalxInstr>, DecodeError>)
    ensures
        match r {
            Ok(v) => dec_env(crate::instr::spec_edition(), bytes@) == Ok::<
                Seq<CalxInstrView>,
                DecodeError,
            >(instr_views(v@)),
            Err(e) => dec_env(crate::instr::spec_edition(), bytes@) == Err::<
                Seq<CalxInstrView>,
                DecodeError,
            >(e),
        },
{
    decode_with_edition(crate::instr::CALX_INSTR_EDITION, bytes)
}

} // verus!
