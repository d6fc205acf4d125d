use bytecode_interp::{ByteCode, Interpreter};

#[test]
fn subtraction_operand_order() {
    // push 10, push 3, Subtract: the value pushed first is the left
    // operand, so the result is 10 - 3.
    let mut interpreter = Interpreter::new();
    let bytecodes = [ByteCode::LoadVal(10), ByteCode::LoadVal(3), ByteCode::Subtract];
    assert_eq!(interpreter.evaluate(&bytecodes), Ok(7));
}

#[test]
fn division_by_zero_error() {
    let mut interpreter = Interpreter::new();
    let bytecodes = [ByteCode::LoadVal(1), ByteCode::LoadVal(0), ByteCode::Divide];
    assert_eq!(
        interpreter.evaluate(&bytecodes).map_err(|e| e.message()),
        Err("Division or modulo by zero.")
    );
}

#[test]
fn modulo_by_zero_error() {
    let mut interpreter = Interpreter::new();
    let bytecodes = [ByteCode::LoadVal(1), ByteCode::LoadVal(0), ByteCode::Modulo];
    assert_eq!(
        interpreter.evaluate(&bytecodes).map_err(|e| e.message()),
        Err("Division or modulo by zero.")
    );
}

#[test]
fn division_truncates_toward_zero() {
    let mut interpreter = Interpreter::new();
    let bytecodes = [ByteCode::LoadVal(-7), ByteCode::LoadVal(2), ByteCode::Divide];
    assert_eq!(interpreter.evaluate(&bytecodes), Ok(-3));
}

#[test]
fn division_by_negative_divisor() {
    let mut interpreter = Interpreter::new();
    let bytecodes = [ByteCode::LoadVal(7), ByteCode::LoadVal(-2), ByteCode::Divide];
    assert_eq!(interpreter.evaluate(&bytecodes), Ok(-3));
}

#[test]
fn remainder_keeps_sign_of_dividend() {
    let mut interpreter = Interpreter::new();
    let bytecodes = [ByteCode::LoadVal(-7), ByteCode::LoadVal(2), ByteCode::Modulo];
    assert_eq!(interpreter.evaluate(&bytecodes), Ok(-1));
}

#[test]
fn remainder_by_negative_divisor() {
    let mut interpreter = Interpreter::new();
    let bytecodes = [ByteCode::LoadVal(7), ByteCode::LoadVal(-2), ByteCode::Modulo];
    assert_eq!(interpreter.evaluate(&bytecodes), Ok(1));
}

#[test]
fn addition_wraps_on_overflow() {
    let mut interpreter = Interpreter::new();
    let bytecodes = [ByteCode::LoadVal(i32::MAX), ByteCode::LoadVal(1), ByteCode::Add];
    assert_eq!(interpreter.evaluate(&bytecodes), Ok(i32::MIN));
}

#[test]
fn subtraction_wraps_on_overflow() {
    let mut interpreter = Interpreter::new();
    let bytecodes = [ByteCode::LoadVal(i32::MIN), ByteCode::LoadVal(1), ByteCode::Subtract];
    assert_eq!(interpreter.evaluate(&bytecodes), Ok(i32::MAX));
}

#[test]
fn multiplication_wraps_on_overflow() {
    let mut interpreter = Interpreter::new();
    let bytecodes = [ByteCode::LoadVal(i32::MIN), ByteCode::LoadVal(-1), ByteCode::Multiply];
    assert_eq!(interpreter.evaluate(&bytecodes), Ok(i32::MIN));
}

#[test]
fn min_divided_by_minus_one_wraps() {
    let mut interpreter = Interpreter::new();
    let bytecodes = [ByteCode::LoadVal(i32::MIN), ByteCode::LoadVal(-1), ByteCode::Divide];
    assert_eq!(interpreter.evaluate(&bytecodes), Ok(i32::MIN));
}

#[test]
fn min_modulo_minus_one_is_zero() {
    let mut interpreter = Interpreter::new();
    let bytecodes = [ByteCode::LoadVal(i32::MIN), ByteCode::LoadVal(-1), ByteCode::Modulo];
    assert_eq!(interpreter.evaluate(&bytecodes), Ok(0));
}

#[test]
fn loop_zero_count_skips_body() {
    // With a count of zero the loop itself runs the body not at all; the
    // instruction walk then passes over the body once more as
    // straight-line code, so x ends at 5 rather than at 10 or more.
    let mut interpreter = Interpreter::new();
    let bytecodes = [
        ByteCode::LoadVal(0),
        ByteCode::WriteVar(String::from("x")),
        ByteCode::LoadVal(0),
        ByteCode::Loop,
        ByteCode::ReadVar(String::from("x")),
        ByteCode::LoadVal(5),
        ByteCode::Add,
        ByteCode::WriteVar(String::from("x")),
        ByteCode::EndLoop,
        ByteCode::ReadVar(String::from("x")),
    ];
    assert_eq!(interpreter.evaluate(&bytecodes), Ok(5));
}

#[test]
fn loop_negative_count_skips_body() {
    // A negative count repeats the body zero times, exactly as a count of
    // zero does.
    let mut interpreter = Interpreter::new();
    let bytecodes = [
        ByteCode::LoadVal(0),
        ByteCode::WriteVar(String::from("x")),
        ByteCode::LoadVal(-3),
        ByteCode::Loop,
        ByteCode::ReadVar(String::from("x")),
        ByteCode::LoadVal(5),
        ByteCode::Add,
        ByteCode::WriteVar(String::from("x")),
        ByteCode::EndLoop,
        ByteCode::ReadVar(String::from("x")),
    ];
    assert_eq!(interpreter.evaluate(&bytecodes), Ok(5));
}

#[test]
fn reuse_keeps_bindings_across_evaluations() {
    // One instance, two evaluations: the binding written by the first is
    // visible to the second.
    let mut interpreter = Interpreter::new();
    let first = [
        ByteCode::LoadVal(10),
        ByteCode::WriteVar(String::from("x")),
        ByteCode::LoadVal(1),
    ];
    assert_eq!(interpreter.evaluate(&first), Ok(1));
    let second = [ByteCode::ReadVar(String::from("x"))];
    assert_eq!(interpreter.evaluate(&second), Ok(10));
}

#[test]
fn partial_state_is_kept_after_an_error() {
    // A failing evaluation keeps the mutations made before the failing
    // instruction: the binding of x survives into the next evaluation.
    let mut interpreter = Interpreter::new();
    let first = [
        ByteCode::LoadVal(1),
        ByteCode::WriteVar(String::from("x")),
        ByteCode::ReadVar(String::from("y")),
    ];
    assert_eq!(
        interpreter.evaluate(&first).map_err(|e| e.message()),
        Err("Trying to read variable that does not exist.")
    );
    let second = [ByteCode::ReadVar(String::from("x"))];
    assert_eq!(interpreter.evaluate(&second), Ok(1));
}

#[test]
fn residual_stack_values_are_discarded() {
    // Only the top of the final stack is returned; values below it raise
    // no error.
    let mut interpreter = Interpreter::new();
    let bytecodes = [ByteCode::LoadVal(1), ByteCode::LoadVal(2)];
    assert_eq!(interpreter.evaluate(&bytecodes), Ok(2));
}

#[test]
fn endloop_alone_is_a_noop() {
    let mut interpreter = Interpreter::new();
    let bytecodes = [ByteCode::LoadVal(3), ByteCode::EndLoop];
    assert_eq!(interpreter.evaluate(&bytecodes), Ok(3));
}
