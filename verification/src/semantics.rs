//! The mathematical semantics of a bytecode program.
//!
//! An evaluation is modelled as a function from an instruction sequence and
//! an [`EvalState`] to an [`EvalOutcome`]: the state after the run together
//! with the first error met, if any. The executable evaluator in
//! [`crate::interp`] is proved to follow these functions exactly.

use vstd::prelude::*;
use vstd::arithmetic::div_mod::{
    lemma_div_is_ordered_by_denominator,
    lemma_div_nonincreasing,
    lemma_div_pos_is_pos,
};
use crate::bytecode::{ByteCode, EvalError};

verus! {

/// The execution state of an evaluation: the number stack, most recently
/// pushed value last, and the variable bindings, each name mapped to the
/// most recently written value.
pub struct EvalState {
    /// The number stack, as a sequence whose last element is the top.
    pub stack: Seq<i32>,
    /// The variable bindings: a flat, unscoped namespace.
    pub vars: Map<Seq<char>, i32>,
}

impl EvalState {
    /// The state both stores start from: empty stack, no bindings.
    pub open spec fn init() -> EvalState {
        EvalState { stack: Seq::empty(), vars: Map::empty() }
    }

    /// The state with `n` pushed onto the number stack.
    pub open spec fn push(self, n: i32) -> EvalState {
        EvalState { stack: self.stack.push(n), vars: self.vars }
    }

    /// The state with the top of the number stack removed.
    pub open spec fn pop_one(self) -> EvalState
        recommends
            self.stack.len() > 0,
    {
        EvalState { stack: self.stack.drop_last(), vars: self.vars }
    }

    /// The state after binding the top of the number stack to `name`:
    /// the top is removed and the binding overwrites any earlier one.
    pub open spec fn bind_top(self, name: Seq<char>) -> EvalState
        recommends
            self.stack.len() > 0,
    {
        EvalState {
            stack: self.stack.drop_last(),
            vars: self.vars.insert(name, self.stack.last()),
        }
    }

    /// The state with the two topmost values removed.
    pub open spec fn pop_two(self) -> EvalState
        recommends
            self.stack.len() >= 2,
    {
        EvalState { stack: self.stack.drop_last().drop_last(), vars: self.vars }
    }

    /// The state with the two topmost values replaced by `v`.
    pub open spec fn pop_two_push(self, v: i32) -> EvalState
        recommends
            self.stack.len() >= 2,
    {
        EvalState { stack: self.stack.drop_last().drop_last().push(v), vars: self.vars }
    }

    /// The state with the number stack emptied, bindings kept.
    pub open spec fn drained(self) -> EvalState {
        EvalState { stack: Seq::empty(), vars: self.vars }
    }
}

/// What a run of instructions left behind: the resulting state, and the
/// first error met, if any. On an error the state holds every mutation made
/// before the failing instruction, plus the pops the failing instruction
/// itself performed before it failed.
pub struct EvalOutcome {
    /// The state when the run ended, normally or at its first error.
    pub state: EvalState,
    /// `None` when the run completed; otherwise the first error met.
    pub error: Option<EvalError>,
}

/// Whether `op` is one of the five binary arithmetic operators.
pub open spec fn is_binary_op(op: ByteCode) -> bool {
    ||| op is Add
    ||| op is Subtract
    ||| op is Multiply
    ||| op is Divide
    ||| op is Modulo
}

/// The index of the first `EndLoop` at or after `from` and before `end`,
/// or `None` when that range holds no `EndLoop`.
pub open spec fn end_loop_from(codes: Seq<ByteCode>, from: int, end: int) -> Option<int>
    recommends
        0 <= from,
        end <= codes.len(),
    decreases end - from,
{
    if from < 0 || from >= end || end > codes.len() {
        None
    } else if codes[from] is EndLoop {
        Some(from)
    } else {
        end_loop_from(codes, from + 1, end)
    }
}

/// What `end_loop_from` returns: the first `EndLoop` of the range when
/// there is one, and `None` exactly when there is none.
pub proof fn lemma_end_loop_from_props(codes: Seq<ByteCode>, from: int, end: int)
    requires
        0 <= from,
        end <= codes.len(),
    ensures
        match end_loop_from(codes, from, end) {
            Some(j) => from <= j < end <= codes.len() && codes[j] is EndLoop
                && forall|m: int| from <= m < j ==> !(codes[m] is EndLoop),
            None => forall|m: int| from <= m < end ==> !(codes[m] is EndLoop),
        },
    decreases end - from,
{
    if from < 0 || from >= end || end > codes.len() {
    } else if codes[from] is EndLoop {
    } else {
        lemma_end_loop_from_props(codes, from + 1, end);
    }
}

/// The converse direction: an `EndLoop` at `j` with none before it is what
/// `end_loop_from` finds.
pub proof fn lemma_end_loop_from_found(codes: Seq<ByteCode>, from: int, end: int, j: int)
    requires
        0 <= from <= j < end <= codes.len(),
        codes[j] is EndLoop,
        forall|m: int| from <= m < j ==> !(codes[m] is EndLoop),
    ensures
        end_loop_from(codes, from, end) == Some(j),
    decreases j - from,
{
    if from < j {
        lemma_end_loop_from_found(codes, from + 1, end, j);
    }
}

/// The quotient of `x` by `d` truncated towards zero, as Rust's signed
/// integer division computes it.
pub open spec fn trunc_div(x: int, d: int) -> int
    recommends
        d != 0,
{
    if x >= 0 && d > 0 {
        x / d
    } else if x < 0 && d < 0 {
        (-x) / (-d)
    } else if x < 0 {
        -((-x) / d)
    } else {
        -(x / (-d))
    }
}

/// The remainder of the truncated division of `x` by `d`, as Rust's `%`
/// computes it: it has the sign of `x` and magnitude below that of `d`.
pub open spec fn trunc_rem(x: int, d: int) -> int
    recommends
        d != 0,
{
    if x >= 0 && d > 0 {
        x % d
    } else if x < 0 && d < 0 {
        -((-x) % (-d))
    } else if x < 0 {
        -((-x) % d)
    } else {
        x % (-d)
    }
}

/// The 32-bit quotient of `b` by `a`, wrapping on the one overflowing case
/// `i32::MIN / -1`.
pub open spec fn wrap_div(b: i32, a: i32) -> i32
    recommends
        a != 0,
{
    if b == i32::MIN && a == -1 {
        i32::MIN
    } else {
        trunc_div(b as int, a as int) as i32
    }
}

/// The 32-bit remainder of `b` by `a`; on the one overflowing case
/// `i32::MIN % -1` it is zero.
pub open spec fn wrap_rem(b: i32, a: i32) -> i32
    recommends
        a != 0,
{
    if b == i32::MIN && a == -1 {
        0
    } else {
        trunc_rem(b as int, a as int) as i32
    }
}

/// The truncated quotient of two `i32` values fits in `i32` whenever the
/// division is not the overflowing `i32::MIN / -1`.
pub proof fn lemma_trunc_div_fits(b: i32, a: i32)
    requires
        a != 0,
        !(b == i32::MIN && a == -1),
    ensures
        i32::MIN <= trunc_div(b as int, a as int) <= i32::MAX,
{
    let x = b as int;
    let d = a as int;
    if x >= 0 && d > 0 {
        lemma_div_pos_is_pos(x, d);
        lemma_div_nonincreasing(x, d);
    } else if x < 0 && d < 0 {
        lemma_div_pos_is_pos(-x, -d);
        lemma_div_nonincreasing(-x, -d);
        if b == i32::MIN {
            lemma_div_is_ordered_by_denominator(-x, 2, -d);
            vstd::arithmetic::div_mod::lemma_div_multiples_vanish(0x4000_0000, 2);
        }
    } else if x < 0 {
        lemma_div_pos_is_pos(-x, d);
        lemma_div_nonincreasing(-x, d);
    } else {
        lemma_div_pos_is_pos(x, -d);
        lemma_div_nonincreasing(x, -d);
    }
}

/// The truncated remainder of two `i32` values fits in `i32` whenever the
/// division is not the overflowing `i32::MIN % -1`.
pub proof fn lemma_trunc_rem_fits(b: i32, a: i32)
    requires
        a != 0,
        !(b == i32::MIN && a == -1),
    ensures
        i32::MIN <= trunc_rem(b as int, a as int) <= i32::MAX,
{
}

/// The result of one binary operator on the left operand `b` (pushed
/// earlier) and the right operand `a` (pushed later). Addition, subtraction
/// and multiplication wrap on overflow; division and modulo truncate
/// towards zero and fail on a zero divisor.
pub open spec fn apply_op(op: ByteCode, b: i32, a: i32) -> Result<i32, EvalError>
    recommends
        is_binary_op(op),
{
    match op {
        ByteCode::Add => Ok(b.wrapping_add(a)),
        ByteCode::Subtract => Ok(b.wrapping_sub(a)),
        ByteCode::Multiply => Ok(b.wrapping_mul(a)),
        ByteCode::Divide => if a == 0 {
            Err(EvalError::DivisionByZero)
        } else {
            Ok(wrap_div(b, a))
        },
        ByteCode::Modulo => if a == 0 {
            Err(EvalError::DivisionByZero)
        } else {
            Ok(wrap_rem(b, a))
        },
        _ => arbitrary(),
    }
}

/// The result of one binary operator on the two values popped from the
/// stack: `first` is the first popped (the right operand), `second` the
/// second popped (the left operand); fewer than two values is an error.
pub open spec fn perform_spec(op: ByteCode, first: Option<i32>, second: Option<i32>) -> Result<
    i32,
    EvalError,
>
    recommends
        is_binary_op(op),
{
    match (first, second) {
        (Some(a), Some(b)) => apply_op(op, b, a),
        _ => Err(EvalError::InsufficientOperands),
    }
}

/// Runs the instructions of `codes` from index `i` up to (excluding) `end`
/// against state `st`, left to right, and stops at the first error.
///
/// A `Loop` pops its repeat count and runs the body — the instructions
/// strictly between it and the first `EndLoop` after it — that many times
/// (not at all for a count of zero or less); the walk then continues at the
/// instruction after the `Loop`, so the body instructions are walked once
/// more as straight-line code before the `EndLoop` marker, which has no
/// effect of its own, is passed.
pub open spec fn eval_from(codes: Seq<ByteCode>, i: int, end: int, st: EvalState) -> EvalOutcome
    recommends
        0 <= i,
        end <= codes.len(),
    decreases end - i, 1int, 0int,
{
    if i < 0 || i >= end || end > codes.len() {
        EvalOutcome { state: st, error: None }
    } else {
        match codes[i] {
            ByteCode::LoadVal(n) => eval_from(codes, i + 1, end, st.push(n)),
            ByteCode::WriteVar(name) => if st.stack.len() == 0 {
                EvalOutcome { state: st, error: Some(EvalError::MissingValueForBinding) }
            } else {
                eval_from(codes, i + 1, end, st.bind_top(name@))
            },
            ByteCode::ReadVar(name) => if st.vars.contains_key(name@) {
                eval_from(codes, i + 1, end, st.push(st.vars[name@]))
            } else {
                EvalOutcome { state: st, error: Some(EvalError::UnknownVariable) }
            },
            ByteCode::Loop => match end_loop_from(codes, i + 1, end) {
                None => EvalOutcome { state: st, error: Some(EvalError::UnterminatedLoop) },
                Some(j) => if st.stack.len() == 0 {
                    EvalOutcome { state: st, error: Some(EvalError::MissingLoopCount) }
                } else {
                    proof {
                        lemma_end_loop_from_props(codes, i + 1, end);
                    }
                    let body = eval_repeat(codes, i + 1, j, st.stack.last() as int, st.pop_one());
                    if body.error is Some {
                        body
                    } else {
                        eval_from(codes, i + 1, end, body.state)
                    }
                },
            },
            ByteCode::EndLoop => eval_from(codes, i + 1, end, st),
            _ => if st.stack.len() < 2 {
                // both pops of the failing operator happened, so a stack of
                // fewer than two values is left empty
                EvalOutcome { state: st.drained(), error: Some(EvalError::InsufficientOperands) }
            } else {
                let a = st.stack.last();
                let b = st.stack[st.stack.len() - 2];
                match apply_op(codes[i], b, a) {
                    Ok(v) => eval_from(codes, i + 1, end, st.pop_two_push(v)),
                    Err(e) => EvalOutcome { state: st.pop_two(), error: Some(e) },
                }
            },
        }
    }
}

/// Runs the instructions of `codes` between `bstart` and `bend` exactly `k`
/// times in order, each run starting from the state the previous one left,
/// and stops at the first error; `k <= 0` runs them not at all.
pub open spec fn eval_repeat(
    codes: Seq<ByteCode>,
    bstart: int,
    bend: int,
    k: int,
    st: EvalState,
) -> EvalOutcome
    recommends
        0 <= bstart,
        bend <= codes.len(),
    decreases bend - bstart + 1, 0int, (if k >= 0 { k } else { 0 }),
{
    if bstart < 0 || bend < bstart || bend > codes.len() || k <= 0 {
        EvalOutcome { state: st, error: None }
    } else {
        let once = eval_from(codes, bstart, bend, st);
        if once.error is Some {
            once
        } else {
            eval_repeat(codes, bstart, bend, k - 1, once.state)
        }
    }
}

/// Runs a whole program: all of `codes` against `st`.
pub open spec fn run(codes: Seq<ByteCode>, st: EvalState) -> EvalOutcome {
    eval_from(codes, 0, codes.len() as int, st)
}

} // verus!
