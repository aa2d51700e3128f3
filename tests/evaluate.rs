use calc_lib::{
    plan_call, resolve_identifiers, to_postfix, CallOp, Definitions, Error, Evaluation, Functions,
    Number, Operator, ShuntedStackItem, Step, Token, TokenKind,
};

type Callable = Box<dyn Fn(Vec<f64>) -> Result<f64, Error>>;

fn literal(n: &Number) -> f64 {
    let v: f64 = n.text.parse().unwrap();
    if n.negative {
        -v
    } else {
        v
    }
}

fn apply(op: Operator, left: f64, right: f64) -> Result<f64, Error> {
    match op {
        Operator::Add => Ok(left + right),
        Operator::Sub => Ok(left - right),
        Operator::Mul => Ok(left * right),
        Operator::Div => {
            if right == 0.0 {
                Err(Error::DivByZero)
            } else {
                Ok(left / right)
            }
        }
        Operator::Mod => Ok(left % right),
        Operator::Pow => {
            if right < 0.0 {
                Err(Error::NegativeExponent)
            } else {
                Ok(left.powf(right))
            }
        }
        _ => Err(Error::InvalidOperator { op: op.to_text() }),
    }
}

fn call(
    t: &Token,
    functions: Option<&Functions<Callable>>,
    definitions: Option<&Definitions<f64>>,
) -> Result<f64, Error> {
    let plan = plan_call(t, functions, definitions).map_err(|e| e.error)?;
    let mut stack: Vec<f64> = Vec::new();
    for op in plan {
        match op {
            CallOp::Literal(n) => stack.push(literal(&n)),
            CallOp::Value(v) => stack.push(v),
            CallOp::Invoke { name, argc, .. } => {
                let f = functions.unwrap().get(&name).unwrap();
                let args = stack.split_off(stack.len() - argc);
                stack.push(f(args)?);
            }
        }
    }
    assert_eq!(stack.len(), 1);
    Ok(stack[0])
}

fn solve_defs(
    source: &str,
    definitions: Option<&Definitions<f64>>,
    functions: Option<&Functions<Callable>>,
) -> Result<f64, Error> {
    let items =
        to_postfix(source, definitions.is_some() || functions.is_some()).map_err(|e| e.error)?;
    let bound = resolve_identifiers(&items, definitions).map_err(|e| e.error)?;
    let mut called: Vec<Option<f64>> = vec![None; items.len()];
    for i in 0..items.len() {
        if let Some(ShuntedStackItem::Operand(t)) = items.peek_at(i) {
            if let TokenKind::Function(_, _) = &t.kind {
                called[i] = Some(call(t, functions, definitions)?);
            }
        }
    }
    let mut ev = Evaluation::new();
    loop {
        match ev.step(&items)? {
            Step::Operand(i) => {
                let t = match items.peek_at(i) {
                    Some(ShuntedStackItem::Operand(t)) => t,
                    _ => unreachable!(),
                };
                let v = match &t.kind {
                    TokenKind::Number(n) => literal(n),
                    TokenKind::Identifier(_) => bound[i].unwrap(),
                    TokenKind::Function(_, _) => called[i].unwrap(),
                    TokenKind::Operator(_) => unreachable!(),
                };
                ev.push(v);
            }
            Step::Apply(op, left, right) => ev.push(apply(op, left, right)?),
            Step::Done(v) => return Ok(v),
        }
    }
}

fn solve(source: &str) -> Result<f64, Error> {
    solve_defs(source, None, None)
}

fn with_log() -> Functions<Callable> {
    let mut funcs: Functions<Callable> = Functions::new();
    let log: Callable = Box::new(|args: Vec<f64>| {
        if args.len() != 2 {
            return Err(Error::arg_count("log".to_string(), 2, args.len()));
        }
        Ok(args[1].log(args[0]))
    });
    funcs.register("log".to_string(), log);
    funcs
}

fn x_is_16() -> Definitions<f64> {
    let mut defs: Definitions<f64> = Definitions::new();
    defs.register("x".to_string(), 16.0);
    defs
}

#[test]
fn test_shunt() {
    let solved = solve("1 + 2 * 3");
    assert_eq!(solved.unwrap() as i64, 7);

    // empty input is rejected at every entry point
    assert_eq!(solve(""), Err(Error::EmptyExpression));

    let x = solve("1.3 + 2.5 * 3.1");
    assert_eq!(x.unwrap(), 9.05);

    let defs = x_is_16();
    let solved3 = solve_defs("(x + 4) / 5.0", Some(&defs), None);
    assert_eq!(solved3.unwrap(), 4.0);

    let funcs = with_log();
    let solved4 = solve_defs("log(2, x)", Some(&defs), Some(&funcs));
    assert_eq!(solved4.unwrap(), 4.0);

    let solved5 = solve_defs("log(log(2,4), x)", Some(&defs), Some(&funcs));
    assert_eq!(solved5.unwrap(), 4.0);
}

#[test]
fn test_specific() {
    let solved = solve("2 ^ (2 * 2)").unwrap();
    assert_eq!(solved as i128, 16);
    let mut defs: Definitions<f64> = Definitions::new();
    defs.register("solved".to_string(), solved);
    assert!(defs.contains("solved"));
}

#[test]
fn precedence_orders_evaluation() {
    assert_eq!(solve("1 + 2 * 3"), Ok(7.0));
    assert_eq!(solve("(1 + 2) * 3"), Ok(9.0));
}

#[test]
fn unary_minus() {
    assert_eq!(solve("-3 + 5"), Ok(2.0));
    assert_eq!(solve("3 - -5"), Ok(8.0));
    assert_eq!(solve("* 3"), Err(Error::InvalidLeadingOperator { op: "*".to_string() }));
}

#[test]
fn division_by_zero() {
    assert_eq!(solve("1 / 0"), Err(Error::DivByZero));
}

#[test]
fn remainder_by_zero_is_nan() {
    assert!(solve("1 % 0").unwrap().is_nan());
}

#[test]
fn negative_exponent() {
    assert_eq!(solve("2 ^ -1"), Err(Error::NegativeExponent));
}

#[test]
fn mismatched_parentheses() {
    assert_eq!(solve("(1 + 2"), Err(Error::MismatchedParentheses { found: '(', missing: ')' }));
    assert_eq!(solve("1 + 2)"), Err(Error::MismatchedParentheses { found: ')', missing: '(' }));
}

#[test]
fn variable_substitution() {
    let defs = x_is_16();
    assert_eq!(solve_defs("(x + 4) / 5", Some(&defs), None), Ok(4.0));
}

#[test]
fn nested_function_calls() {
    let defs = x_is_16();
    let funcs = with_log();
    assert_eq!(solve_defs("log(log(2,4), x)", Some(&defs), Some(&funcs)), Ok(4.0));
}

#[test]
fn undefined_identifier() {
    let defs = x_is_16();
    assert_eq!(
        solve_defs("y + 1", Some(&defs), None),
        Err(Error::UndefinedVariable { name: "y".to_string() })
    );
}

#[test]
fn undefined_function() {
    let defs = x_is_16();
    let funcs = with_log();
    assert_eq!(
        solve_defs("sqrt(x)", Some(&defs), Some(&funcs)),
        Err(Error::UndefinedFunction { name: "sqrt".to_string() })
    );
}

#[test]
fn wrong_argument_count_comes_from_the_function() {
    let funcs = with_log();
    assert_eq!(
        solve_defs("log(2)", None, Some(&funcs)),
        Err(Error::InvalidArgumentCount { name: "log".to_string(), expected: 2, got: 1 })
    );
}

#[test]
fn identifier_argument_without_definitions() {
    let funcs = with_log();
    assert_eq!(
        solve_defs("log(2, x)", None, Some(&funcs)),
        Err(Error::InvalidArgument { name: "log".to_string(), value: "x".to_string() })
    );
}

#[test]
fn operators_are_left_associative() {
    assert_eq!(solve("10 - 4 - 3"), Ok(3.0));
    assert_eq!(solve("2 ^ 3 ^ 2"), Ok(64.0));
    assert_eq!(solve("8 / 4 / 2"), Ok(1.0));
}

#[test]
fn division_sign_divides() {
    assert_eq!(solve("8 ÷ 2"), Ok(4.0));
}

#[test]
fn trailing_operator_is_cut_short() {
    assert_eq!(solve("1 +"), Err(Error::UnexpectedEOI));
    assert_eq!(solve("(-3)"), Ok(-3.0));
}

#[test]
fn identifiers_rejected_without_tables() {
    assert_eq!(solve("x + 1"), Err(Error::InvalidCharacter { c: 'x' }));
}

#[test]
fn no_tables_means_nothing_is_defined() {
    let funcs = with_log();
    assert_eq!(
        solve_defs("y + 1", None, Some(&funcs)),
        Err(Error::UndefinedVariable { name: "y".to_string() })
    );
    let defs = x_is_16();
    assert_eq!(
        solve_defs("log(2, x)", Some(&defs), None),
        Err(Error::UndefinedFunction { name: "log".to_string() })
    );
}

#[test]
fn negation_before_a_group_is_rejected() {
    assert_eq!(
        solve("-(1 + 2)"),
        Err(Error::Expected { expected: "number".to_string(), found: "(".to_string() })
    );
}
