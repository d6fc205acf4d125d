//! The executable evaluator, proved to follow the semantics in
//! [`crate::semantics`] exactly.

use vstd::prelude::*;
use crate::bytecode::{ByteCode, EvalError};
use crate::semantics::{
    end_loop_from, eval_from, eval_repeat, is_binary_op, lemma_end_loop_from_found,
    lemma_end_loop_from_props, lemma_trunc_div_fits, lemma_trunc_rem_fits, perform_spec, run,
    apply_op, EvalState,
};

verus! {

/// One variable binding: a name and the value written to it.
pub struct Binding {
    /// The variable's name.
    pub name: String,
    /// The value written to it.
    pub value: i32,
}

/// The bindings that a sequence of entries denotes: an entry later in the
/// sequence overwrites an earlier one with the same name.
pub open spec fn bindings_map(entries: Seq<Binding>) -> Map<Seq<char>, i32>
    decreases entries.len(),
{
    if entries.len() == 0 {
        Map::empty()
    } else {
        bindings_map(entries.drop_last()).insert(entries.last().name@, entries.last().value)
    }
}

/// A name whose last occurrence in the entries is at `idx` is bound, and
/// bound to that entry's value.
proof fn lemma_bindings_map_found(entries: Seq<Binding>, k: Seq<char>, idx: int)
    requires
        0 <= idx < entries.len(),
        entries[idx].name@ == k,
        forall|m: int| idx < m < entries.len() ==> entries[m].name@ != k,
    ensures
        bindings_map(entries).contains_key(k),
        bindings_map(entries)[k] == entries[idx].value,
    decreases entries.len(),
{
    if idx < entries.len() - 1 {
        lemma_bindings_map_found(entries.drop_last(), k, idx);
    }
}

/// A name that occurs in no entry is not bound.
proof fn lemma_bindings_map_absent(entries: Seq<Binding>, k: Seq<char>)
    requires
        forall|m: int| 0 <= m < entries.len() ==> entries[m].name@ != k,
    ensures
        !bindings_map(entries).contains_key(k),
    decreases entries.len(),
{
    if entries.len() > 0 {
        lemma_bindings_map_absent(entries.drop_last(), k);
    }
}

/// The evaluator: a number stack and a table of variable bindings, mutated
/// in place as the instructions of a program execute.
///
/// Both start empty and persist for the life of the instance, so a second
/// `evaluate` call on the same instance sees the bindings the first one
/// left behind.
pub struct Interpreter {
    /// Values are loaded onto the number stack.
    number_stack: Vec<i32>,
    /// Variables are bound to their values here; later entries overwrite
    /// earlier ones with the same name.
    variables_map: Vec<Binding>,
}

impl View for Interpreter {
    type V = EvalState;

    closed spec fn view(&self) -> EvalState {
        EvalState { stack: self.number_stack@, vars: bindings_map(self.variables_map@) }
    }
}

impl Default for Interpreter {
    fn default() -> (r: Self)
        ensures
            r@ == EvalState::init(),
    {
        Interpreter::new()
    }
}

impl Interpreter {
    /// A fresh evaluator: empty number stack, no bindings.
    #[must_use]
    pub fn new() -> (r: Interpreter)
        ensures
            r@ == EvalState::init(),
    {
        let r = Interpreter { number_stack: Vec::with_capacity(20), variables_map: Vec::new() };
        proof {
            assert(r@.vars =~= Map::<Seq<char>, i32>::empty());
        }
        r
    }

    /// Runs the whole program `bytecodes` against this evaluator's state
    /// and pops the result: the value the run left on top of the number
    /// stack, or `EmptyResult` when it left the stack empty. Any further
    /// values below the top are kept on the stack, not reported as an
    /// error. On any failure the state mutated so far is kept as-is.
    pub fn evaluate(&mut self, bytecodes: &[ByteCode]) -> (r: Result<i32, EvalError>)
        ensures
            ({
                let o = run(bytecodes@, old(self)@);
                match o.error {
                    Some(e) => r == Err::<i32, EvalError>(e) && final(self)@ == o.state,
                    None => if o.state.stack.len() == 0 {
                        r == Err::<i32, EvalError>(EvalError::EmptyResult) && final(self)@
                            == o.state
                    } else {
                        r == Ok::<i32, EvalError>(o.state.stack.last()) && final(self)@
                            == o.state.pop_one()
                    },
                }
            }),
    {
        match self.evaluate_bytecodes(bytecodes, 0, bytecodes.len()) {
            Ok(()) => {}
            Err(e) => {
                return Err(e);
            }
        }
        match self.number_stack.pop() {
            Some(number) => Ok(number),
            None => Err(EvalError::EmptyResult),
        }
    }

    /// Walks the instructions of `bytecodes` from `start` up to `end`,
    /// dispatching each in turn, and stops at the first error.
    fn evaluate_bytecodes(&mut self, bytecodes: &[ByteCode], start: usize, end: usize) -> (r:
        Result<(), EvalError>)
        requires
            start <= end <= bytecodes@.len(),
        ensures
            ({
                let o = eval_from(bytecodes@, start as int, end as int, old(self)@);
                final(self)@ == o.state && (match r {
                    Ok(()) => o.error is None,
                    Err(e) => o.error == Some(e),
                })
            }),
        decreases end - start, 1int,
    {
        let mut i = start;
        while i < end
            invariant
                start <= i <= end <= bytecodes@.len(),
                eval_from(bytecodes@, i as int, end as int, self@) == eval_from(
                    bytecodes@,
                    start as int,
                    end as int,
                    old(self)@,
                ),
            decreases end - i,
        {
            let ghost st_pre = self@;
            let bytecode = &bytecodes[i];
            let step_result: Result<(), EvalError> = match bytecode {
                ByteCode::LoadVal(number) => {
                    self.number_stack.push(*number);
                    proof {
                        assert(self@ == st_pre.push(*number));
                    }
                    Ok(())
                }
                ByteCode::WriteVar(variable) => self.bind_variable(variable),
                ByteCode::ReadVar(variable) => self.read_variable(variable),
                ByteCode::Loop => self.repeat(bytecodes, i, end),
                ByteCode::EndLoop => Ok(()),
                _ => self.binary_calculus(bytecode),
            };
            match step_result {
                Ok(()) => {}
                Err(e) => {
                    return Err(e);
                }
            }
            i = i + 1;
        }
        Ok(())
    }

    /// Pops the top of the number stack and binds it to `variable`,
    /// overwriting any earlier binding of that name; an empty stack is the
    /// `MissingValueForBinding` error.
    fn bind_variable(&mut self, variable: &String) -> (r: Result<(), EvalError>)
        ensures
            match r {
                Ok(()) => old(self)@.stack.len() > 0 && final(self)@ == old(self)@.bind_top(
                    variable@,
                ),
                Err(e) => e == EvalError::MissingValueForBinding && old(self)@.stack.len() == 0
                    && final(self)@ == old(self)@,
            },
    {
        match self.number_stack.pop() {
            Some(rvalue) => {
                let ghost entries = self.variables_map@;
                self.variables_map.push(Binding { name: variable.clone(), value: rvalue });
                proof {
                    assert(self.variables_map@.drop_last() =~= entries);
                    assert(self@.stack =~= old(self)@.stack.drop_last());
                }
                Ok(())
            }
            None => Err(EvalError::MissingValueForBinding),
        }
    }

    /// Looks `variable` up and pushes its value onto the number stack; a
    /// name that was never bound is the `UnknownVariable` error.
    fn read_variable(&mut self, variable: &String) -> (r: Result<(), EvalError>)
        ensures
            match r {
                Ok(()) => old(self)@.vars.contains_key(variable@) && final(self)@ == old(
                    self,
                )@.push(old(self)@.vars[variable@]),
                Err(e) => e == EvalError::UnknownVariable && !old(self)@.vars.contains_key(
                    variable@,
                ) && final(self)@ == old(self)@,
            },
    {
        match Self::find_binding(&self.variables_map, variable) {
            Some(number) => {
                self.number_stack.push(number);
                Ok(())
            }
            None => Err(EvalError::UnknownVariable),
        }
    }

    /// The value bound to `name`, from the most recent entry that wrote
    /// it, or `None` when no entry did.
    fn find_binding(entries: &Vec<Binding>, name: &String) -> (r: Option<i32>)
        ensures
            match r {
                Some(v) => bindings_map(entries@).contains_key(name@) && bindings_map(
                    entries@,
                )[name@] == v,
                None => !bindings_map(entries@).contains_key(name@),
            },
    {
        let mut idx = entries.len();
        while idx > 0
            invariant
                idx <= entries@.len(),
                forall|m: int| idx <= m < entries@.len() ==> entries@[m].name@ != name@,
            decreases idx,
        {
            idx = idx - 1;
            if entries[idx].name == *name {
                proof {
                    lemma_bindings_map_found(entries@, name@, idx as int);
                }
                return Some(entries[idx].value);
            }
        }
        proof {
            lemma_bindings_map_absent(entries@, name@);
        }
        None
    }

    /// Handles a `Loop` instruction standing at `bytecode_index`: finds the
    /// nearest `EndLoop` before `end` (`UnterminatedLoop` if there is
    /// none), then pops the repeat count (`MissingLoopCount` on an empty
    /// stack), and runs the instructions strictly between the two markers
    /// that many times; a count of zero or less runs them not at all.
    fn repeat(&mut self, inputs: &[ByteCode], bytecode_index: usize, end: usize) -> (r: Result<
        (),
        EvalError,
    >)
        requires
            bytecode_index < end <= inputs@.len(),
        ensures
            ({
                let codes = inputs@;
                let i = bytecode_index as int;
                match end_loop_from(codes, i + 1, end as int) {
                    None => r == Err::<(), EvalError>(EvalError::UnterminatedLoop) && final(self)@
                        == old(self)@,
                    Some(j) => if old(self)@.stack.len() == 0 {
                        r == Err::<(), EvalError>(EvalError::MissingLoopCount) && final(self)@
                            == old(self)@
                    } else {
                        let o = eval_repeat(
                            codes,
                            i + 1,
                            j,
                            old(self)@.stack.last() as int,
                            old(self)@.pop_one(),
                        );
                        final(self)@ == o.state && (match r {
                            Ok(()) => o.error is None,
                            Err(e) => o.error == Some(e),
                        })
                    },
                }
            }),
        decreases end - bytecode_index, 0int,
    {
        let endloop_index = match Self::next_endloop_bytecode(inputs, bytecode_index + 1, end) {
            Ok(j) => j,
            Err(e) => {
                return Err(e);
            }
        };
        let count = match self.number_stack.pop() {
            Some(number) => number,
            None => {
                return Err(EvalError::MissingLoopCount);
            }
        };
        let ghost st0 = self@;
        proof {
            assert(st0 == old(self)@.pop_one());
        }
        let mut remaining = count;
        while remaining > 0
            invariant
                bytecode_index + 1 <= endloop_index < end <= inputs@.len(),
                end_loop_from(inputs@, bytecode_index + 1, end as int) == Some(
                    endloop_index as int,
                ),
                old(self)@.stack.len() > 0,
                count == old(self)@.stack.last(),
                st0 == old(self)@.pop_one(),
                eval_repeat(
                    inputs@,
                    bytecode_index + 1 as int,
                    endloop_index as int,
                    remaining as int,
                    self@,
                ) == eval_repeat(
                    inputs@,
                    bytecode_index + 1 as int,
                    endloop_index as int,
                    count as int,
                    st0,
                ),
            decreases remaining,
        {
            let ghost st_pre = self@;
            let ghost codes = inputs@;
            let ghost bs: int = bytecode_index + 1;
            let ghost be: int = endloop_index as int;
            proof {
                let once = eval_from(codes, bs, be, st_pre);
                assert(eval_repeat(codes, bs, be, remaining as int, st_pre) == (if once.error
                    is Some {
                    once
                } else {
                    eval_repeat(codes, bs, be, remaining as int - 1, once.state)
                }));
            }
            match self.evaluate_bytecodes(inputs, bytecode_index + 1, endloop_index) {
                Ok(()) => {}
                Err(e) => {
                    return Err(e);
                }
            }
            remaining = remaining - 1;
        }
        Ok(())
    }

    /// The index of the nearest `EndLoop` at or after `from` and before
    /// `end`, or the `UnterminatedLoop` error when that range holds none.
    fn next_endloop_bytecode(bytecodes: &[ByteCode], from: usize, end: usize) -> (r: Result<
        usize,
        EvalError,
    >)
        requires
            from <= end <= bytecodes@.len(),
        ensures
            match r {
                Ok(j) => from <= j < end && end_loop_from(bytecodes@, from as int, end as int)
                    == Some(j as int),
                Err(e) => e == EvalError::UnterminatedLoop && end_loop_from(
                    bytecodes@,
                    from as int,
                    end as int,
                ) is None,
            },
    {
        let mut j = from;
        while j < end
            invariant
                from <= j <= end <= bytecodes@.len(),
                forall|m: int| from <= m < j ==> !(bytecodes@[m] is EndLoop),
            decreases end - j,
        {
            let found = match &bytecodes[j] {
                ByteCode::EndLoop => true,
                _ => false,
            };
            if found {
                proof {
                    lemma_end_loop_from_found(bytecodes@, from as int, end as int, j as int);
                }
                return Ok(j);
            }
            j = j + 1;
        }
        proof {
            lemma_end_loop_from_props(bytecodes@, from as int, end as int);
        }
        Err(EvalError::UnterminatedLoop)
    }

    /// Pops the two operands of a binary operator and pushes the result:
    /// the first popped is the right operand, the second the left. Fewer
    /// than two values is the `InsufficientOperands` error, reported after
    /// both pops.
    fn binary_calculus(&mut self, bytecode: &ByteCode) -> (r: Result<(), EvalError>)
        requires
            is_binary_op(*bytecode),
        ensures
            ({
                let st = old(self)@;
                if st.stack.len() < 2 {
                    r == Err::<(), EvalError>(EvalError::InsufficientOperands) && final(self)@
                        == st.drained()
                } else {
                    match apply_op(*bytecode, st.stack[st.stack.len() - 2], st.stack.last()) {
                        Ok(v) => r == Ok::<(), EvalError>(()) && final(self)@ == st.pop_two_push(v),
                        Err(e) => r == Err::<(), EvalError>(e) && final(self)@ == st.pop_two(),
                    }
                }
            }),
    {
        let first_operand = self.number_stack.pop();
        let second_operand = self.number_stack.pop();
        proof {
            if old(self)@.stack.len() < 2 {
                assert(self@.stack =~= Seq::<i32>::empty());
            }
        }
        match Self::perform_binary_operation(bytecode, first_operand, second_operand) {
            Ok(number) => {
                self.number_stack.push(number);
                Ok(())
            }
            Err(e) => Err(e),
        }
    }

    /// Applies one binary operator to its popped operands: `first_operand`
    /// was popped first (the right operand), `second_operand` second (the
    /// left operand).
    fn perform_binary_operation(
        bytecode: &ByteCode,
        first_operand: Option<i32>,
        second_operand: Option<i32>,
    ) -> (r: Result<i32, EvalError>)
        requires
            is_binary_op(*bytecode),
        ensures
            r == perform_spec(*bytecode, first_operand, second_operand),
    {
        match (bytecode, first_operand, second_operand) {
            (ByteCode::Add, Some(a), Some(b)) => Ok(b.wrapping_add(a)),
            (ByteCode::Subtract, Some(a), Some(b)) => Ok(b.wrapping_sub(a)),
            (ByteCode::Multiply, Some(a), Some(b)) => Ok(b.wrapping_mul(a)),
            (ByteCode::Divide, Some(a), Some(b)) => {
                if a == 0 {
                    Err(EvalError::DivisionByZero)
                } else {
                    proof {
                        let x = b as int;
                        let d = a as int;
                        vstd::arithmetic::div_mod::lemma_div_basics(x);
                        vstd::arithmetic::div_mod::lemma_div_basics(-x);
                        vstd::arithmetic::div_mod::lemma_div_basics(d);
                        vstd::arithmetic::div_mod::lemma_div_basics(-d);
                        if !(b == i32::MIN && a == -1) {
                            lemma_trunc_div_fits(b, a);
                        }
                    }
                    match b.checked_div(a) {
                        Some(quotient) => Ok(quotient),
                        None => Ok(i32::MIN),
                    }
                }
            }
            (ByteCode::Modulo, Some(a), Some(b)) => {
                if a == 0 {
                    Err(EvalError::DivisionByZero)
                } else {
                    proof {
                        let x = b as int;
                        let d = a as int;
                        if !(b == i32::MIN && a == -1) {
                            lemma_trunc_rem_fits(b, a);
                            if x == 0 {
                                if d > 0 {
                                    vstd::arithmetic::div_mod::lemma_small_mod(0, d as nat);
                                } else {
                                    vstd::arithmetic::div_mod::lemma_small_mod(0, (-d) as nat);
                                }
                            }
                        }
                    }
                    match b.checked_rem(a) {
                        Some(remainder) => Ok(remainder),
                        None => Ok(0),
                    }
                }
            }
            _ => Err(EvalError::InsufficientOperands),
        }
    }
}

} // verus!
