//! The instruction set of the bytecode language and the errors an
//! evaluation can end with.

use vstd::prelude::*;

verus! {

/// One instruction of the flat, stack-based bytecode language.
///
/// A program is an ordered, finite sequence of instructions. Loop bodies are
/// not nested structures: a `Loop` is followed, somewhere later in the same
/// flat sequence, by the `EndLoop` marker that delimits its body.
#[derive(Clone, Debug)]
pub enum ByteCode {
    /// Push the literal onto the number stack.
    LoadVal(i32),
    /// Pop the top of the number stack and bind it to the named variable.
    WriteVar(String),
    /// Look the named variable up and push its value onto the number stack.
    ReadVar(String),
    /// Pop two values and push their sum (wrapping on overflow).
    Add,
    /// Pop two values and push their difference (wrapping on overflow).
    Subtract,
    /// Pop two values and push their product (wrapping on overflow).
    Multiply,
    /// Pop two values and push their quotient, truncated towards zero.
    Divide,
    /// Pop two values and push the remainder of their truncated division.
    Modulo,
    /// Pop a repeat count and run the instructions up to the nearest
    /// `EndLoop` that many times.
    Loop,
    /// Marker closing the body of the nearest preceding `Loop`; it has no
    /// effect of its own when reached by the ordinary instruction walk.
    EndLoop,
}

/// The ways an evaluation can fail.
///
/// Every failure is reported at the first instruction where it becomes
/// observable, and aborts the whole evaluation; mutations of the stack and
/// of the bindings made before that point are kept, not rolled back.
///
/// Division and modulo by zero are not covered by the original six kinds of
/// malformed program; this library reports them as `DivisionByZero` rather
/// than panicking.
#[derive(Clone, Copy, Debug, PartialEq, Eq, Structural)]
pub enum EvalError {
    /// The instructions ran to completion but left the number stack empty,
    /// so there is no value to return.
    EmptyResult,
    /// A `WriteVar` found the number stack empty.
    MissingValueForBinding,
    /// A `ReadVar` named a variable that was never written.
    UnknownVariable,
    /// A `Loop` found the number stack empty, so there is no repeat count.
    MissingLoopCount,
    /// A `Loop` has no `EndLoop` after it in the evaluated range.
    UnterminatedLoop,
    /// A binary operator found fewer than two values on the number stack.
    InsufficientOperands,
    /// A `Divide` or `Modulo` whose divisor is zero.
    DivisionByZero,
}

/// The fixed descriptive message of each error kind, as a sequence of
/// characters.
pub open spec fn message_spec(e: EvalError) -> Seq<char> {
    match e {
        EvalError::EmptyResult => "Incorrectly formatted expression: no return value."@,
        EvalError::MissingValueForBinding => "Trying to bind variable without value."@,
        EvalError::UnknownVariable => "Trying to read variable that does not exist."@,
        EvalError::MissingLoopCount => "A number is required to use Loop."@,
        EvalError::UnterminatedLoop => "There is no EndLoop instruction associated to the previous Loop."@,
        EvalError::InsufficientOperands => "Incorrectly formatted expression: expecting 2 operands."@,
        EvalError::DivisionByZero => "Division or modulo by zero."@,
    }
}

impl EvalError {
    /// The fixed descriptive message of this error kind.
    pub fn message(&self) -> (r: &'static str)
        ensures
            r@ == message_spec(*self),
    {
        match self {
            EvalError::EmptyResult => "Incorrectly formatted expression: no return value.",
            EvalError::MissingValueForBinding => "Trying to bind variable without value.",
            EvalError::UnknownVariable => "Trying to read variable that does not exist.",
            EvalError::MissingLoopCount => "A number is required to use Loop.",
            EvalError::UnterminatedLoop => "There is no EndLoop instruction associated to the previous Loop.",
            EvalError::InsufficientOperands => "Incorrectly formatted expression: expecting 2 operands.",
            EvalError::DivisionByZero => "Division or modulo by zero.",
        }
    }
}

} // verus!
