use bytecode_interp::{ByteCode, Interpreter};

#[test]
fn problem_example_test() {
    let mut interpreter = Interpreter::new();
    //    x = 1
    //    y = 2
    //    return (x + 1) * y
    let bytecodes = [
        ByteCode::LoadVal(1),
        ByteCode::WriteVar(String::from("x")),
        ByteCode::LoadVal(2),
        ByteCode::WriteVar(String::from("y")),
        ByteCode::ReadVar(String::from("x")),
        ByteCode::LoadVal(1),
        ByteCode::Add,
        ByteCode::ReadVar(String::from("y")),
        ByteCode::Multiply,
    ];
    assert_eq!(interpreter.evaluate(&bytecodes), Ok(4));
}

#[test]
fn simple_addition() {
    //    x = 1
    //    y = 2
    //    return x + y
    let mut interpreter = Interpreter::new();

    let bytecodes = [
        ByteCode::LoadVal(2),
        ByteCode::WriteVar(String::from("x")),
        ByteCode::LoadVal(3),
        ByteCode::WriteVar(String::from("y")),
        ByteCode::ReadVar(String::from("x")),
        ByteCode::ReadVar(String::from("y")),
        ByteCode::Add,
    ];
    assert_eq!(interpreter.evaluate(&bytecodes), Ok(5));
}

#[test]
fn simple_substraction() {
    //    x = 1
    //    y = 2
    //    return x - y

    let mut interpreter = Interpreter::new();

    let bytecodes = [
        ByteCode::LoadVal(2),
        ByteCode::WriteVar(String::from("x")),
        ByteCode::LoadVal(3),
        ByteCode::WriteVar(String::from("y")),
        ByteCode::ReadVar(String::from("x")),
        ByteCode::ReadVar(String::from("y")),
        ByteCode::Subtract,
    ];
    assert_eq!(interpreter.evaluate(&bytecodes), Ok(-1));
}

#[test]
fn simple_division() {
    //    x = 10
    //    y = 5
    //    return x / y

    let mut interpreter = Interpreter::new();

    let bytecodes = [
        ByteCode::LoadVal(10),
        ByteCode::WriteVar(String::from("x")),
        ByteCode::LoadVal(5),
        ByteCode::WriteVar(String::from("y")),
        ByteCode::ReadVar(String::from("x")),
        ByteCode::ReadVar(String::from("y")),
        ByteCode::Divide,
    ];
    assert_eq!(interpreter.evaluate(&bytecodes), Ok(2));
}

#[test]
fn simple_multiplication() {
    //    x = 10
    //    y = 5
    //    return x * y
    let mut interpreter = Interpreter::new();

    let bytecodes = [
        ByteCode::LoadVal(10),
        ByteCode::WriteVar(String::from("x")),
        ByteCode::LoadVal(5),
        ByteCode::WriteVar(String::from("y")),
        ByteCode::ReadVar(String::from("x")),
        ByteCode::ReadVar(String::from("y")),
        ByteCode::Multiply,
    ];
    assert_eq!(interpreter.evaluate(&bytecodes), Ok(50));
}

#[test]
fn simple_modulo() {
    //    x = 10
    //    y = 5
    //    return x % y
    let mut interpreter = Interpreter::new();

    let bytecodes = [
        ByteCode::LoadVal(10),
        ByteCode::WriteVar(String::from("x")),
        ByteCode::LoadVal(5),
        ByteCode::WriteVar(String::from("y")),
        ByteCode::ReadVar(String::from("x")),
        ByteCode::ReadVar(String::from("y")),
        ByteCode::Modulo,
    ];
    assert_eq!(interpreter.evaluate(&bytecodes), Ok(0));
}

#[test]
fn double_binding() {
    //    x = 10
    //    x = 5
    //    return x

    let mut interpreter = Interpreter::new();

    let bytecodes = [
        ByteCode::LoadVal(10),
        ByteCode::WriteVar(String::from("x")),
        ByteCode::LoadVal(5),
        ByteCode::WriteVar(String::from("x")),
        ByteCode::ReadVar(String::from("x")),
    ];
    assert_eq!(interpreter.evaluate(&bytecodes), Ok(5));
}

#[test]
fn self_asignement() {
    //    x = 10
    //    x = x + 5
    //    return x
    let mut interpreter = Interpreter::new();

    let bytecodes = [
        ByteCode::LoadVal(10),
        ByteCode::WriteVar(String::from("x")),
        ByteCode::LoadVal(5),
        ByteCode::ReadVar(String::from("x")),
        ByteCode::Add,
        ByteCode::WriteVar(String::from("x")),
        ByteCode::ReadVar(String::from("x")),
    ];
    assert_eq!(interpreter.evaluate(&bytecodes), Ok(15));
}

#[test]
fn long_expression() {
    //    x = 10
    //    x = x + 5
    //    z = 4
    //    cacao = 15
    //    return ((x * 5) / cacao) - z

    let mut interpreter = Interpreter::new();

    let bytecodes = [
        ByteCode::LoadVal(10),
        ByteCode::WriteVar(String::from("x")),
        ByteCode::LoadVal(5),
        ByteCode::ReadVar(String::from("x")),
        ByteCode::Add,
        ByteCode::WriteVar(String::from("x")),
        ByteCode::LoadVal(4),
        ByteCode::WriteVar(String::from("z")),
        ByteCode::LoadVal(15),
        ByteCode::WriteVar(String::from("cacao")),
        ByteCode::ReadVar(String::from("x")),
        ByteCode::LoadVal(5),
        ByteCode::Multiply,
        ByteCode::ReadVar(String::from("cacao")),
        ByteCode::Divide,
        ByteCode::ReadVar(String::from("z")),
        ByteCode::Subtract,
    ];
    assert_eq!(interpreter.evaluate(&bytecodes), Ok(1));
}

#[test]
fn simple_while_loop() {
    let mut interpreter = Interpreter::new();
    //    x = 0
    //    loop 5
    //      x = x + 5
    //    endloop
    //    return x
    let bytecodes = [
        ByteCode::LoadVal(0),
        ByteCode::WriteVar(String::from("x")),
        ByteCode::LoadVal(5),
        ByteCode::Loop,
        ByteCode::ReadVar(String::from("x")),
        ByteCode::LoadVal(5),
        ByteCode::Add,
        ByteCode::WriteVar(String::from("x")),
        ByteCode::EndLoop,
        ByteCode::ReadVar(String::from("x")),
    ];
    assert_eq!(interpreter.evaluate(&bytecodes), Ok(30));
}

#[test]
fn no_value_returned_error() {
    let mut interpreter = Interpreter::new();
    let bytecodes: [ByteCode; 0] = [];

    assert_eq!(
        interpreter.evaluate(&bytecodes).map_err(|e| e.message()),
        Err("Incorrectly formatted expression: no return value.")
    );
}

#[test]
fn try_to_bind_without_value_error() {
    let mut interpreter = Interpreter::new();

    let bytecodes = [ByteCode::WriteVar(String::from("x"))];

    assert_eq!(
        interpreter.evaluate(&bytecodes).map_err(|e| e.message()),
        Err("Trying to bind variable without value.")
    );
}

#[test]
fn try_to_read_value_not_existing_error() {
    let mut interpreter = Interpreter::new();

    let bytecodes = [ByteCode::ReadVar(String::from("x"))];

    assert_eq!(
        interpreter.evaluate(&bytecodes).map_err(|e| e.message()),
        Err("Trying to read variable that does not exist.")
    );
}

#[test]
fn no_value_loaded_before_loop_error() {
    let mut interpreter = Interpreter::new();
    //    x = 0
    //    loop ?
    //      x = x + 5
    //    endloop
    //    return x
    let bytecodes = [
        ByteCode::LoadVal(0),
        ByteCode::WriteVar(String::from("x")),
        ByteCode::Loop,
        ByteCode::ReadVar(String::from("x")),
        ByteCode::LoadVal(5),
        ByteCode::Add,
        ByteCode::WriteVar(String::from("x")),
        ByteCode::EndLoop,
        ByteCode::ReadVar(String::from("x")),
    ];

    assert_eq!(
        interpreter.evaluate(&bytecodes).map_err(|e| e.message()),
        Err("A number is required to use Loop.")
    );
}

#[test]
fn no_endloop_bytecode_error() {
    let mut interpreter = Interpreter::new();
    //    x = 0
    //    loop 5
    //      x = x + 5
    //
    //    return x
    let bytecodes = [
        ByteCode::LoadVal(0),
        ByteCode::WriteVar(String::from("x")),
        ByteCode::LoadVal(5),
        ByteCode::Loop,
        ByteCode::ReadVar(String::from("x")),
        ByteCode::LoadVal(5),
        ByteCode::Add,
        ByteCode::WriteVar(String::from("x")),
        ByteCode::ReadVar(String::from("x")),
    ];

    assert_eq!(
        interpreter.evaluate(&bytecodes).map_err(|e| e.message()),
        Err("There is no EndLoop instruction associated to the previous Loop.")
    );
}

#[test]
fn not_enough_operands_in_binary_operation_error() {
    let mut interpreter = Interpreter::new();
    //    return 5 +
    let bytecodes = [ByteCode::LoadVal(5), ByteCode::Add];

    assert_eq!(
        interpreter.evaluate(&bytecodes).map_err(|e| e.message()),
        Err("Incorrectly formatted expression: expecting 2 operands.")
    );
}
