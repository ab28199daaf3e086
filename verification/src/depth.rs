//! Static stack-depth verification of an instruction sequence.
//!
//! The stack-effect table alone is deliberately insufficient for the call
//! family, whose true arity lives with the callee's signature. The checker
//! here joins the table with an externally supplied signature list and walks
//! the sequence once, confirming that no instruction pops more values than
//! the stack holds and reporting the maximum and final depth.

use vstd::prelude::*;

use crate::instr::CalxInstr;
use crate::instr::CalxInstrView;
use crate::instr::instr_views;
use crate::instr::spec_stack_arity;
use crate::text::str_eq;

verus! {

/// The externally supplied signature of a callable function: its name, how
/// many arguments it consumes and how many results it leaves.
#[derive(Clone, Debug, PartialEq)]
pub struct CalxFuncSig {
    pub name: String,
    pub params: usize,
    pub rets: usize,
}

/// The mathematical model of a signature.
pub struct CalxFuncSigView {
    pub name: Seq<char>,
    pub params: usize,
    pub rets: usize,
}

impl View for CalxFuncSig {
    type V = CalxFuncSigView;

    open spec fn view(&self) -> CalxFuncSigView {
        CalxFuncSigView { name: self.name@, params: self.params, rets: self.rets }
    }
}

/// The models of a sequence of signatures.
pub open spec fn sig_views(s: Seq<CalxFuncSig>) -> Seq<CalxFuncSigView> {
    s.map_values(|g: CalxFuncSig| g@)
}

/// A validation failure of the static depth check, naming the offending
/// instruction by its index in the sequence.
#[derive(Clone, Copy, Debug, PartialEq, Eq, Structural)]
pub enum StackCheckError {
    /// A call-family instruction names a callee the signature list does not
    /// hold, so its true arity cannot be joined in.
    UnknownFunction { index: usize },
    /// The stack would hold fewer values than the instruction pops.
    StackUnderflow { index: usize },
}

/// Outcome of a successful static depth check: the greatest running depth
/// the sequence reaches, and the depth left when it ends.
#[derive(Clone, Copy, Debug, PartialEq, Eq, Structural)]
pub struct StackDepthReport {
    pub max_depth: u128,
    pub final_depth: u128,
}

/// The first signature of the given name, if any.
pub open spec fn spec_lookup_sig(sigs: Seq<CalxFuncSigView>, name: Seq<char>) -> Option<
    CalxFuncSigView,
>
    decreases sigs.len(),
{
    if sigs.len() == 0 {
        None
    } else if sigs[0].name == name {
        Some(sigs[0])
    } else {
        spec_lookup_sig(sigs.skip(1), name)
    }
}

/// The `(params, rets)` pair of the first signature of the given name.
pub open spec fn spec_sig_arity(sigs: Seq<CalxFuncSigView>, name: Seq<char>) -> Option<
    (usize, usize),
> {
    match spec_lookup_sig(sigs, name) {
        Some(s) => Some((s.params, s.rets)),
        None => None,
    }
}

/// The arity the verifier must use for one instruction: the named callee's
/// signature for the call family — `None` when the name is unknown — and the
/// stack-effect table for every other variant.
pub open spec fn spec_joined_arity(m: CalxInstrView, sigs: Seq<CalxFuncSigView>) -> Option<
    (nat, nat),
> {
    match m {
        CalxInstrView::Call(name) => match spec_sig_arity(sigs, name) {
            Some(pq) => Some((pq.0 as nat, pq.1 as nat)),
            None => None,
        },
        CalxInstrView::ReturnCall(name) => match spec_sig_arity(sigs, name) {
            Some(pq) => Some((pq.0 as nat, pq.1 as nat)),
            None => None,
        },
        CalxInstrView::CallImport(name) => match spec_sig_arity(sigs, name) {
            Some(pq) => Some((pq.0 as nat, pq.1 as nat)),
            None => None,
        },
        _ => Some(spec_stack_arity(m)),
    }
}

/// The depth check from position `i` on, given the running depth and the
/// greatest depth seen so far: the first failure wins, and a clean walk ends
/// with the pair `(max_depth, final_depth)`.
pub open spec fn spec_check_from(
    instrs: Seq<CalxInstrView>,
    sigs: Seq<CalxFuncSigView>,
    i: nat,
    depth: int,
    max_depth: int,
) -> Result<(int, int), StackCheckError>
    decreases instrs.len() - i,
{
    if i >= instrs.len() {
        Ok((max_depth, depth))
    } else {
        match spec_joined_arity(instrs[i as int], sigs) {
            None => Err(StackCheckError::UnknownFunction { index: i as usize }),
            Some(pq) => if depth < pq.0 {
                Err(StackCheckError::StackUnderflow { index: i as usize })
            } else {
                let d2 = depth - pq.0 + pq.1;
                spec_check_from(
                    instrs,
                    sigs,
                    i + 1,
                    d2,
                    if d2 > max_depth {
                        d2
                    } else {
                        max_depth
                    },
                )
            },
        }
    }
}

/// The whole static depth check of a sequence: start from depth zero and
/// walk every instruction.
pub open spec fn spec_check_depth(instrs: Seq<CalxInstrView>, sigs: Seq<CalxFuncSigView>) -> Result<
    (int, int),
    StackCheckError,
> {
    spec_check_from(instrs, sigs, 0, 0, 0)
}

/// The first signature of the given name, searched front to back.
fn lookup_sig(sigs: &Vec<CalxFuncSig>, name: &str) -> (r: Option<(usize, usize)>)
    ensures
        r == spec_sig_arity(sig_views(sigs@), name@),
{
    let n = sigs.len();
    let mut j: usize = 0;
    proof {
        assert(sig_views(sigs@).skip(0) =~= sig_views(sigs@));
    }
    while j < n
        invariant
            0 <= j <= n,
            n == sigs@.len(),
            spec_lookup_sig(sig_views(sigs@), name@) == spec_lookup_sig(
                sig_views(sigs@).skip(j as int),
                name@,
            ),
        decreases n - j,
    {
        proof {
            assert(sig_views(sigs@).skip(j as int)[0] == sig_views(sigs@)[j as int]);
            assert(sig_views(sigs@)[j as int] == sigs@[j as int]@);
        }
        if str_eq(sigs[j].name.as_str(), name) {
            return Some((sigs[j].params, sigs[j].rets));
        }
        proof {
            assert(sig_views(sigs@).skip(j as int).skip(1) =~= sig_views(sigs@).skip(j + 1));
        }
        j = j + 1;
    }
    proof {
        assert(sig_views(sigs@).skip(n as int) =~= Seq::<CalxFuncSigView>::empty());
    }
    None
}

/// Statically check the stack discipline of a whole instruction sequence
/// against the signature list: join the table with the signatures, confirm
/// that no instruction pops more values than the running stack holds, and
/// report the maximum and final depth. The first offending instruction is
/// named by index; a call of an unknown name is an error, never assumed to
/// have no effect.
pub fn check_depth(instrs: &Vec<CalxInstr>, sigs: &Vec<CalxFuncSig>) -> (r: Result<
    StackDepthReport,
    StackCheckError,
>)
    ensures
        match r {
            Ok(rep) => spec_check_depth(instr_views(instrs@), sig_views(sigs@)) == Ok::<
                (int, int),
                StackCheckError,
            >((rep.max_depth as int, rep.final_depth as int)),
            Err(e) => spec_check_depth(instr_views(instrs@), sig_views(sigs@)) == Err::<
                (int, int),
                StackCheckError,
            >(e),
        },
{
    let ghost ims = instr_views(instrs@);
    let ghost sms = sig_views(sigs@);
    let n = instrs.len();
    let mut depth: u128 = 0;
    let mut maxd: u128 = 0;
    let mut i: usize = 0;
    while i < n
        invariant
            0 <= i <= n,
            n == instrs@.len(),
            ims == instr_views(instrs@),
            sms == sig_views(sigs@),
            ims.len() == n,
            depth as int <= i as int * 0xffff_ffff_ffff_ffff,
            maxd as int <= i as int * 0xffff_ffff_ffff_ffff,
            spec_check_from(ims, sms, i as nat, depth as int, maxd as int) == spec_check_depth(
                ims,
                sms,
            ),
        decreases n - i,
    {
        proof {
            assert(ims[i as int] == instrs@[i as int]@);
            assert(usize::MAX as int <= 0xffff_ffff_ffff_ffff);
        }
        let instr = &instrs[i];
        let pq: (usize, usize) = match instr {
            CalxInstr::Call(name) => {
                match lookup_sig(sigs, name.as_str()) {
                    Some(pq) => pq,
                    None => {
                        return Err(StackCheckError::UnknownFunction { index: i });
                    },
                }
            },
            CalxInstr::ReturnCall(name) => {
                match lookup_sig(sigs, name.as_str()) {
                    Some(pq) => pq,
                    None => {
                        return Err(StackCheckError::UnknownFunction { index: i });
                    },
                }
            },
            CalxInstr::CallImport(name) => {
                match lookup_sig(sigs, name.as_str()) {
                    Some(pq) => pq,
                    None => {
                        return Err(StackCheckError::UnknownFunction { index: i });
                    },
                }
            },
            _ => instr.stack_arity(),
        };
        proof {
            assert(spec_joined_arity(ims[i as int], sms) == Some((pq.0 as nat, pq.1 as nat)));
        }
        if depth < pq.0 as u128 {
            return Err(StackCheckError::StackUnderflow { index: i });
        }
        let d2 = depth - pq.0 as u128 + pq.1 as u128;
        proof {
            assert((i as int + 1) * 0xffff_ffff_ffff_ffff == i as int * 0xffff_ffff_ffff_ffff
                + 0xffff_ffff_ffff_ffff);
            assert(d2 as int <= (i as int + 1) * 0xffff_ffff_ffff_ffff);
        }
        depth = d2;
        if d2 > maxd {
            maxd = d2;
        }
        i = i + 1;
    }
    Ok(StackDepthReport { max_depth: maxd, final_depth: depth })
}

} // verus!
