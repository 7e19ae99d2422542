//! The arithmetic unit: the single-precision operations that round.
//!
//! The library is written against a function from an operation and two bit
//! patterns to a bit pattern. The program hands in the machine's own
//! single-precision arithmetic; the contracts hold for every such function.
use vstd::prelude::*;

verus! {

/// A rounding operation on two single-precision numbers.
#[derive(Clone, Copy, Debug, PartialEq, Eq, Structural)]
pub enum Op {
    /// The sum.
    Add,
    /// The first minus the second.
    Sub,
    /// The product.
    Mul,
    /// The first divided by the second.
    Div,
    /// The first raised to the second.
    Pow,
}

/// The unit answers every question, and the same question always alike.
pub open spec fn functional<F: Fn(Op, u32, u32) -> u32>(fpu: F) -> bool {
    &&& forall|op: Op, a: u32, b: u32| #[trigger] call_requires(fpu, (op, a, b))
    &&& forall|op: Op, a: u32, b: u32, r: u32, s: u32|
        #![trigger call_ensures(fpu, (op, a, b), r), call_ensures(fpu, (op, a, b), s)]
        call_ensures(fpu, (op, a, b), r) && call_ensures(fpu, (op, a, b), s) ==> r == s
}

/// What the unit answers.
pub open spec fn eval<F: Fn(Op, u32, u32) -> u32>(fpu: F, op: Op, a: u32, b: u32) -> u32 {
    choose|r: u32| call_ensures(fpu, (op, a, b), r)
}

/// Asks the unit.
pub fn apply<F: Fn(Op, u32, u32) -> u32>(fpu: &F, op: Op, a: u32, b: u32) -> (r: u32)
    requires
        functional(*fpu),
    ensures
        r == eval(*fpu, op, a, b),
        call_ensures(*fpu, (op, a, b), r),
{
    fpu(op, a, b)
}

/// What the unit answers is what it is taken to answer: an answer to a question
/// is the only one.
pub proof fn law_answers_are_single<F: Fn(Op, u32, u32) -> u32>(
    fpu: F,
    op: Op,
    a: u32,
    b: u32,
    r: u32,
)
    requires
        functional(fpu),
        call_ensures(fpu, (op, a, b), r),
    ensures
        eval(fpu, op, a, b) == r,
{
    let s = eval(fpu, op, a, b);
    assert(call_ensures(fpu, (op, a, b), s));
}

} // verus!
