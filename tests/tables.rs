use calc_lib::{
    plan_call, CallOp, Functions, classify_argument, resolve_identifiers, Position, to_postfix, tokenize, Argument, Bindings, Definitions, Error, Evaluation,
    Operator, ShuntedStack, ShuntedStackItem, Step, TokenKind,
};

#[test]
fn register_replaces_a_binding() {
    let mut defs: Definitions<i64> = Definitions::new();
    assert!(!defs.contains("x"));
    defs.register("x".to_string(), 1);
    defs.register("y".to_string(), 2);
    defs.register("x".to_string(), 3);
    assert!(defs.contains("x"));
    assert_eq!(defs.get("x"), Some(&3));
    assert_eq!(defs.get("y"), Some(&2));
    assert_eq!(defs.get("z"), None);
}

#[test]
fn tables_hold_any_value() {
    let mut t: Bindings<&str> = Bindings::new();
    t.register("greeting".to_string(), "hello");
    assert_eq!(t.get("greeting"), Some(&"hello"));
}

#[test]
fn operand_stack_takes_left_then_right() {
    let mut ev: Evaluation<i64> = Evaluation::new();
    ev.push(7);
    ev.push(2);
    assert_eq!(ev.take_operands(Operator::Sub), Ok((7, 2)));
    ev.push(5);
    assert_eq!(ev.finish(), Ok(5));
}

#[test]
fn operand_stack_rejects_what_cannot_apply() {
    let mut ev: Evaluation<i64> = Evaluation::new();
    ev.push(1);
    ev.push(2);
    assert_eq!(
        ev.take_operands(Operator::Assign),
        Err(Error::InvalidOperator { op: "=".to_string() })
    );
    assert!(matches!(ev.finish(), Err(Error::InvalidExpression { .. })));
    let mut ev: Evaluation<i64> = Evaluation::new();
    ev.push(1);
    assert!(matches!(ev.take_operands(Operator::Add), Err(Error::InvalidExpression { .. })));
    let ev: Evaluation<i64> = Evaluation::new();
    assert!(matches!(ev.finish(), Err(Error::InvalidExpression { .. })));
}

#[test]
fn argument_count_error() {
    assert_eq!(
        Error::arg_count("sqrt".to_string(), 1, 3),
        Error::InvalidArgumentCount { name: "sqrt".to_string(), expected: 1, got: 3 }
    );
}

#[test]
fn walk_asks_for_operands_and_results() {
    let items = to_postfix("4 - 1", false).unwrap();
    let mut ev: Evaluation<i64> = Evaluation::new();
    assert!(matches!(ev.step(&items), Ok(Step::Operand(0))));
    ev.push(4);
    assert!(matches!(ev.step(&items), Ok(Step::Operand(1))));
    ev.push(1);
    assert!(matches!(ev.step(&items), Ok(Step::Apply(Operator::Sub, 4, 1))));
    ev.push(3);
    assert!(matches!(ev.step(&items), Ok(Step::Done(3))));
}

#[test]
fn walk_reports_a_missing_operand() {
    let mut items = ShuntedStack::new();
    let one = tokenize("1", false).unwrap().pop().unwrap();
    items.push(ShuntedStackItem::new_operand(one));
    items.push(ShuntedStackItem::new_operator(Operator::Add));
    let mut ev: Evaluation<i64> = Evaluation::new();
    assert!(matches!(ev.step(&items), Ok(Step::Operand(0))));
    ev.push(1);
    assert!(matches!(ev.step(&items), Err(Error::InvalidExpression { .. })));
}

#[test]
fn call_arguments_are_classified() {
    let ts = tokenize("f(2, x, g(1), y)", true).unwrap();
    let args = match &ts[0].kind {
        TokenKind::Function(_, args) => args,
        _ => panic!("not a call"),
    };
    let mut defs: Definitions<i64> = Definitions::new();
    defs.register("x".to_string(), 9);
    assert!(matches!(classify_argument("f", &args[0], Some(&defs)), Ok(Argument::Literal(n)) if n.text == "2"));
    assert!(matches!(classify_argument("f", &args[1], Some(&defs)), Ok(Argument::Value(9))));
    assert!(matches!(classify_argument("f", &args[2], Some(&defs)), Ok(Argument::Call)));
    let undefined = classify_argument("f", &args[3], Some(&defs)).err().unwrap();
    assert_eq!(undefined.error, Error::UndefinedVariable { name: "y".to_string() });
    assert_eq!(undefined.position, Some(Position { line: 1, column: 15 }));
    assert_eq!(
        classify_argument::<i64>("f", &args[1], None).err().map(|e| e.error),
        Some(Error::InvalidArgument { name: "f".to_string(), value: "x".to_string() })
    );
}

#[test]
fn undefined_identifier_carries_its_place() {
    let items = to_postfix("1 +\n  y", true).unwrap();
    let defs: Definitions<i64> = Definitions::new();
    let e = resolve_identifiers(&items, Some(&defs)).err().unwrap();
    assert_eq!(e.error, Error::UndefinedVariable { name: "y".to_string() });
    assert_eq!(e.position, Some(Position { line: 2, column: 3 }));
}

fn describe_plan(ops: &[CallOp<i64>]) -> Vec<String> {
    ops.iter()
        .map(|op| match op {
            CallOp::Literal(n) => format!("lit {}", n.text),
            CallOp::Value(v) => format!("val {}", v),
            CallOp::Invoke { name, argc, position } => {
                format!("call {}/{} at {}", name, argc, position.column)
            }
        })
        .collect()
}

#[test]
fn calls_are_planned_inside_out() {
    let ts = tokenize("log(log(2,4), x)", true).unwrap();
    let mut defs: Definitions<i64> = Definitions::new();
    defs.register("x".to_string(), 16);
    let mut funcs: Functions<u8> = Functions::new();
    funcs.register("log".to_string(), 0);
    let plan = plan_call(&ts[0], Some(&funcs), Some(&defs)).unwrap();
    assert_eq!(
        describe_plan(&plan),
        vec!["lit 2", "lit 4", "call log/2 at 5", "val 16", "call log/2 at 1"]
    );
}

#[test]
fn unregistered_call_is_reported_before_its_arguments() {
    let ts = tokenize("f(y, g(1))", true).unwrap();
    let mut funcs: Functions<u8> = Functions::new();
    funcs.register("f".to_string(), 0);
    let none: Option<&Definitions<i64>> = None;
    let e = plan_call(&ts[0], None::<&Functions<u8>>, none).err().unwrap();
    assert_eq!(e.error, Error::UndefinedFunction { name: "f".to_string() });
    let e = plan_call(&ts[0], Some(&funcs), none).err().unwrap();
    assert_eq!(e.error, Error::InvalidArgument { name: "f".to_string(), value: "y".to_string() });
    let defs: Definitions<i64> = Definitions::new();
    let e = plan_call(&ts[0], Some(&funcs), Some(&defs)).err().unwrap();
    assert_eq!(e.error, Error::UndefinedVariable { name: "y".to_string() });
    let ts = tokenize("f(2, g(1))", true).unwrap();
    let e = plan_call(&ts[0], Some(&funcs), Some(&defs)).err().unwrap();
    assert_eq!(e.error, Error::UndefinedFunction { name: "g".to_string() });
    assert_eq!(e.position, Some(Position { line: 1, column: 6 }));
}

#[test]
fn identifiers_without_a_table_are_undefined() {
    let items = to_postfix("x", true).unwrap();
    let e = resolve_identifiers::<i64>(&items, None).err().unwrap();
    assert_eq!(e.error, Error::UndefinedVariable { name: "x".to_string() });
}
