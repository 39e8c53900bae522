use lox::compiler::compile;
use lox::object::Object;
use lox::value::Value;
use lox::vm::{exit_status, Arithmetic, Comparison, RunTimeErrKind, Step, VMErr, VM, COMPILE_ERROR_STATUS};

fn machine(source: &str) -> VM {
    let (code, values) = compile(source).unwrap();
    VM::new(code, values)
}

#[test]
fn addition_asks_for_the_sum() {
    let mut vm = machine("1 + 2;");
    assert!(matches!(vm.step(), Step::Continue));
    assert!(matches!(vm.step(), Step::Continue));
    match vm.step() {
        Step::Arithmetic { op, left, right } => {
            assert_eq!(op, Arithmetic::Add);
            assert_eq!(left, "1");
            assert_eq!(right, "2");
        }
        _ => panic!("expected an arithmetic request"),
    }
    vm.resume(Value::Number("3".to_string()));
    // The statement's value is popped.
    assert!(matches!(vm.step(), Step::Continue));
    assert!(matches!(vm.step(), Step::Return(Value::Nil)));
}

#[test]
fn comparison_of_non_numbers_fails() {
    let mut vm = machine("true < 1;");
    vm.step();
    vm.step();
    match vm.step() {
        Step::Failed(VMErr::RuntimeErr(e)) => {
            assert_eq!(e.kind, RunTimeErrKind::ComparisonOnNonNumber);
            assert_eq!(e.line, 0);
        }
        _ => panic!("expected a runtime error"),
    }
}

#[test]
fn not_and_equality() {
    let mut vm = machine("!nil == true;");
    assert!(matches!(vm.step(), Step::Continue));
    assert!(matches!(vm.step(), Step::Continue));
    assert!(matches!(vm.step(), Step::Continue));
    assert!(matches!(vm.step(), Step::Continue));
    // The statement's value is popped.
    assert!(matches!(vm.step(), Step::Continue));
    assert!(matches!(vm.step(), Step::Return(Value::Nil)));
    let mut vm = machine("-true;");
    vm.step();
    assert!(matches!(vm.step(), Step::Failed(VMErr::RuntimeErr(_))));
    let mut vm = machine("1 == 1;");
    vm.step();
    vm.step();
    assert!(matches!(vm.step(), Step::Compare { comparison: Comparison::Equal, .. }));
}

#[test]
fn return_gives_the_bottom_of_the_stack() {
    let (code, values) = compile("").unwrap();
    let mut vm = VM::new(code, values);
    assert!(matches!(vm.step(), Step::Return(Value::Nil)));
}

#[test]
fn exit_statuses() {
    assert_eq!(exit_status(&Ok(())), 0);
    assert_eq!(exit_status(&Err(VMErr::OutOfIterations)), 0);
    assert_eq!(exit_status(&Err(VMErr::Panic("x".to_string()))), 1);
    assert_eq!(COMPILE_ERROR_STATUS, 65);
}

/// Runs a program to its end, doing the floating-point work the machine asks
/// for, and gives what it printed, one entry per `print`, or the error.
fn run(source: &str) -> Result<Vec<String>, VMErr> {
    let mut vm = machine(source);
    let mut printed = Vec::new();
    loop {
        match vm.step() {
            Step::Continue => {}
            Step::Arithmetic { op, left, right } => {
                let (a, b): (f64, f64) = (left.parse().unwrap(), right.parse().unwrap());
                let r = match op {
                    Arithmetic::Add => a + b,
                    Arithmetic::Subtract => a - b,
                    Arithmetic::Multiply => a * b,
                    Arithmetic::Divide => a / b,
                };
                vm.resume(Value::Number(r.to_string()));
            }
            Step::Compare { comparison, left, right } => {
                let (a, b): (f64, f64) = (left.parse().unwrap(), right.parse().unwrap());
                let r = match comparison {
                    Comparison::Equal => a == b,
                    Comparison::Greater => a > b,
                    Comparison::Less => a < b,
                };
                vm.resume(Value::Boolean(r));
            }
            Step::Negate { operand } => {
                let a: f64 = operand.parse().unwrap();
                vm.resume(Value::Number((-a).to_string()));
            }
            Step::Print(v) => printed.push(match v.to_string() {
                Some(t) => t,
                None => match v {
                    Value::Number(t) => t.parse::<f64>().unwrap().to_string(),
                    _ => unreachable!(),
                },
            }),
            Step::Return(_) => return Ok(printed),
            Step::Failed(e) => return Err(e),
            Step::Halted => panic!("halted"),
        }
    }
}

#[test]
fn readme_examples_print() {
    assert_eq!(run("print (2.0 + 42 - 4) * 2 / 4 == 20;").unwrap(), vec!["true"]);
    assert_eq!(run("print true or false;").unwrap(), vec!["true"]);
    assert_eq!(run("print false and true;").unwrap(), vec!["false"]);
    assert_eq!(run("print nil; print \"hi\";").unwrap(), vec!["nil", "hi"]);
}

#[test]
fn strings_are_joined() {
    assert_eq!(run("print \"ab\" + \"cd\";").unwrap(), vec!["abcd"]);
    let mut vm = VM::new(
        vec![
            lox::chunk::Chunk { line: 1, op: 0 },
            lox::chunk::Chunk { line: 1, op: 0 },
            lox::chunk::Chunk { line: 1, op: 0 },
            lox::chunk::Chunk { line: 1, op: 1 },
            lox::chunk::Chunk { line: 1, op: 18 },
            lox::chunk::Chunk { line: 1, op: 33 },
        ],
        {
            let mut values = lox::fixed_vec::FixedVec::new();
            values.push(Value::Object(Box::new(Object::String("ab".into())))).unwrap();
            values.push(Value::Object(Box::new(Object::String("cd".into())))).unwrap();
            values
        },
    );
    assert!(matches!(vm.step(), Step::Continue));
    assert!(matches!(vm.step(), Step::Continue));
    assert!(matches!(vm.step(), Step::Continue));
    match vm.step() {
        Step::Return(Value::Object(o)) => assert_eq!(o.to_string(), "abcd"),
        _ => panic!("expected the joined string"),
    }
    match run("print \"a\" + 1;") {
        Err(VMErr::RuntimeErr(e)) => assert_eq!(e.kind, RunTimeErrKind::ArithmeticOnNonNumber),
        _ => panic!("expected a runtime error"),
    }
}

#[test]
fn and_or_short_circuit() {
    // The right operand would fail, but is never evaluated.
    assert_eq!(run("print false and (1 < nil);").unwrap(), vec!["false"]);
    assert_eq!(run("print true or -nil;").unwrap(), vec!["true"]);
    assert_eq!(run("print true and false or true;").unwrap(), vec!["true"]);
    assert_eq!(run("print true and (false or false);").unwrap(), vec!["false"]);
    match run("print 1 and true;") {
        Err(VMErr::RuntimeErr(e)) => assert_eq!(e.kind, RunTimeErrKind::BooleanOperationOnNumber),
        _ => panic!("expected a runtime error"),
    }
    // The right operand must be a boolean too.
    match run("print true and 5;") {
        Err(VMErr::RuntimeErr(e)) => assert_eq!(e.kind, RunTimeErrKind::BooleanOperationOnNumber),
        _ => panic!("expected a runtime error"),
    }
    match run("print false or \"s\";") {
        Err(VMErr::RuntimeErr(e)) => assert_eq!(e.kind, RunTimeErrKind::BooleanOperationOnObject),
        _ => panic!("expected a runtime error"),
    }
    match run("print nil or true;") {
        Err(VMErr::RuntimeErr(e)) => assert_eq!(e.kind, RunTimeErrKind::BooleanOperationOnNil),
        _ => panic!("expected a runtime error"),
    }
}
