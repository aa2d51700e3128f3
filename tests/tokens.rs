use calc_lib::{
    render, shunting_yard, to_postfix, tokenize, Error, InputReader, Number, Operator, Position,
    ShuntedStack, ShuntedStackItem, Token, TokenKind,
};

fn op(o: Operator) -> TokenKind {
    TokenKind::Operator(o)
}

fn describe(kind: &TokenKind) -> String {
    match kind {
        TokenKind::Operator(o) => format!("op {}", o.symbol()),
        TokenKind::Identifier(n) => format!("id {}", n),
        TokenKind::Number(n) => format!("num {}{}", if n.negative { "-" } else { "" }, n.text),
        TokenKind::Function(n, args) => {
            let inner: Vec<String> = args.iter().map(|a| describe(&a.kind)).collect();
            format!("fn {}[{}]", n, inner.join(";"))
        }
    }
}

fn kinds(tokens: &[Token]) -> Vec<String> {
    tokens.iter().map(|t| describe(&t.kind)).collect()
}

fn postfix(items: &ShuntedStack) -> Vec<String> {
    (0..items.len())
        .map(|i| match items.peek_at(i).unwrap() {
            ShuntedStackItem::Operator(o) => format!("op {}", o.symbol()),
            ShuntedStackItem::Operand(t) => describe(&t.kind),
        })
        .collect()
}

#[test]
fn reader_tracks_lines_and_columns() {
    let mut r = InputReader::new("a\nbc");
    assert_eq!(r.position(), Position { line: 1, column: 1 });
    assert_eq!(r.peek(), Some('a'));
    assert_eq!(r.peek_at(2), Some('b'));
    assert_eq!(r.peek_at(9), None);
    assert_eq!(r.consume(), Some('a'));
    assert_eq!(r.consume(), Some('\n'));
    assert_eq!(r.position(), Position { line: 2, column: 1 });
    assert_eq!(r.consume(), Some('b'));
    assert_eq!(r.position(), Position { line: 2, column: 2 });
    assert!(!r.is_empty());
    assert_eq!(r.consume(), Some('c'));
    assert!(r.is_empty());
    assert_eq!(r.consume(), None);
    assert_eq!(r.index(), 4);
}

#[test]
fn tokens_carry_their_places() {
    let ts = tokenize("12 +\n  x", true).unwrap();
    assert_eq!(kinds(&ts), vec!["num 12", "op +", "id x"]);
    assert_eq!(ts[0].position, Position { line: 1, column: 1 });
    assert_eq!(ts[1].position, Position { line: 1, column: 4 });
    assert_eq!(ts[2].position, Position { line: 2, column: 3 });
}

#[test]
fn every_operator_character() {
    let ts = tokenize("+-*/÷%^=()", false).unwrap();
    assert_eq!(
        kinds(&ts),
        vec!["op +", "op -", "op *", "op /", "op /", "op %", "op ^", "op =", "op (", "op )"]
    );
}

#[test]
fn function_calls_nest() {
    let ts = tokenize("log(log(2,4), x)", true).unwrap();
    assert_eq!(kinds(&ts), vec!["fn log[fn log[num 2;num 4];id x]"]);
    let ts = tokenize("f( 1 ,\t2 )", true).unwrap();
    assert_eq!(kinds(&ts), vec!["fn f[num 1;num 2]"]);
    let ts = tokenize("f()", true).unwrap();
    assert_eq!(kinds(&ts), vec!["fn f[]"]);
}

#[test]
fn empty_input_has_no_tokens() {
    assert_eq!(tokenize("", false).unwrap().len(), 0);
    assert_eq!(tokenize(" \t\r\n", true).unwrap().len(), 0);
}

#[test]
fn empty_input_is_an_empty_expression() {
    assert_eq!(to_postfix("", false).unwrap_err().error, Error::EmptyExpression);
    assert_eq!(to_postfix("  \n ", true).unwrap_err().error, Error::EmptyExpression);
    assert_eq!(shunting_yard(Vec::new()).unwrap_err().error, Error::EmptyExpression);
}

#[test]
fn second_decimal_point() {
    assert_eq!(
        tokenize("1.2.3", false).unwrap_err().error,
        Error::InvalidNumber { found: "1.2".to_string() }
    );
}

#[test]
fn integer_literals_of_any_size() {
    let big = format!("1{}", "0".repeat(39));
    assert_eq!(kinds(&tokenize(&big, false).unwrap()), vec![format!("num {}", big)]);
    let decimal = "170141183460469231731687303715884105728.5";
    assert!(tokenize(decimal, false).is_ok());
}

#[test]
fn reader_is_used_up() {
    let mut r = InputReader::new("1 + 2.5 ÷ (3)");
    let ts = calc_lib::lex(&mut r, false).unwrap();
    assert_eq!(
        kinds(&ts),
        vec!["num 1", "op +", "num 2.5", "op /", "op (", "num 3", "op )"]
    );
    assert!(r.is_empty());
}

#[test]
fn an_operand_is_due() {
    assert_eq!(to_postfix("1 +", false).unwrap_err().error, Error::UnexpectedEOI);
    assert_eq!(to_postfix("1 +", false).unwrap_err().position, at(1, 3));
    assert_eq!(to_postfix("3 -", false).unwrap_err().error, Error::UnexpectedEOI);
    assert_eq!(to_postfix("1 + -", false).unwrap_err().error, Error::UnexpectedEOI);
    assert_eq!(to_postfix("(", false).unwrap_err().error, Error::UnexpectedEOI);
    let expected = Error::Expected { expected: "operand".to_string(), found: ")".to_string() };
    assert_eq!(to_postfix("(1 +)", false).unwrap_err().error, expected);
    assert_eq!(to_postfix("(1 +)", false).unwrap_err().position, at(1, 5));
    assert_eq!(to_postfix("()", false).unwrap_err().error, expected);
}

#[test]
fn minus_where_an_operand_is_due_negates() {
    let items = to_postfix("(-3)", false).unwrap();
    assert_eq!(postfix(&items), vec!["num -3"]);
    let items = to_postfix("2 * (-3 + 1)", false).unwrap();
    assert_eq!(postfix(&items), vec!["num 2", "num -3", "num 1", "op +", "op *"]);
    let items = to_postfix("(1) - 2", false).unwrap();
    assert_eq!(postfix(&items), vec!["num 1", "num 2", "op -"]);
}

#[test]
fn digits_beyond_ascii_are_numeric_but_unreadable() {
    assert_eq!(
        tokenize("٣", false).unwrap_err().error,
        Error::InvalidNumber { found: "٣".to_string() }
    );
}

#[test]
fn letters_beyond_ascii_start_identifiers() {
    let ts = tokenize("é1 + _a", true).unwrap();
    assert_eq!(kinds(&ts), vec!["id é1", "op +", "id _a"]);
}

#[test]
fn invalid_character() {
    assert_eq!(tokenize("1 $ 2", true).unwrap_err().error, Error::InvalidCharacter { c: '$' });
}

#[test]
fn argument_separator_expected() {
    assert_eq!(
        tokenize("f(1 2)", true).unwrap_err().error,
        Error::Expected { expected: ", or )".to_string(), found: "2".to_string() }
    );
}

#[test]
fn unterminated_argument_list() {
    assert_eq!(tokenize("f(1, 2", true).unwrap_err().error, Error::UnexpectedEOI);
    assert_eq!(tokenize("f(", true).unwrap_err().error, Error::UnexpectedEOI);
}

#[test]
fn postfix_follows_precedence() {
    let items = to_postfix("1 + 2 * 3", false).unwrap();
    assert_eq!(postfix(&items), vec!["num 1", "num 2", "num 3", "op *", "op +"]);
    let items = to_postfix("(1 + 2) * 3", false).unwrap();
    assert_eq!(postfix(&items), vec!["num 1", "num 2", "op +", "num 3", "op *"]);
    let items = to_postfix("1 - 2 - 3", false).unwrap();
    assert_eq!(postfix(&items), vec!["num 1", "num 2", "op -", "num 3", "op -"]);
}

#[test]
fn postfix_negates_numbers() {
    let items = to_postfix("-3 + 5", false).unwrap();
    assert_eq!(postfix(&items), vec!["num -3", "num 5", "op +"]);
    let items = to_postfix("3 - -5", false).unwrap();
    assert_eq!(postfix(&items), vec!["num 3", "num -5", "op -"]);
}

#[test]
fn postfix_errors() {
    assert_eq!(to_postfix("1 2", false).unwrap_err().error, Error::TwoOperandsInARow);
    assert_eq!(to_postfix("2 (3)", false).unwrap_err().error, Error::MissingOperator);
    assert_eq!(
        to_postfix("1 + * 2", false).unwrap_err().error,
        Error::InvalidOperator { op: "*".to_string() }
    );
    assert_eq!(
        to_postfix("1 = 2", false).unwrap_err().error,
        Error::InvalidOperator { op: "=".to_string() }
    );
    assert_eq!(
        to_postfix("^ 2", false).unwrap_err().error,
        Error::InvalidLeadingOperator { op: "^".to_string() }
    );
    assert_eq!(
        to_postfix("(1 + 2", false).unwrap_err().error,
        Error::MismatchedParentheses { found: '(', missing: ')' }
    );
    assert_eq!(
        to_postfix("1 + 2)", false).unwrap_err().error,
        Error::MismatchedParentheses { found: ')', missing: '(' }
    );
}

#[test]
fn rendering_reads_back_as_the_same_tokens() {
    let source = "12 + x*3.5/(y - 1)^2 % 4 = z";
    let first = tokenize(source, true).unwrap();
    let text = render(&first);
    assert_eq!(text, "12 + x * 3.5 / ( y - 1 ) ^ 2 % 4 = z ");
    let second = tokenize(&text, true).unwrap();
    assert_eq!(kinds(&first), kinds(&second));
}

#[test]
fn rendering_writes_signs_and_calls() {
    let tokens = vec![
        Token {
            kind: TokenKind::Number(Number { negative: true, text: "2.5".to_string() }),
            position: Position { line: 1, column: 1 },
        },
        Token { kind: op(Operator::Mul), position: Position { line: 1, column: 5 } },
    ];
    assert_eq!(render(&tokens), "-2.5 * ");
    let call = tokenize("log(2,  x)", true).unwrap();
    assert_eq!(render(&call), "log(2, x) ");
}

#[test]
fn operator_table() {
    assert_eq!(Operator::Add.precedence(), Some(0));
    assert_eq!(Operator::Sub.precedence(), Some(0));
    assert_eq!(Operator::Mul.precedence(), Some(1));
    assert_eq!(Operator::Mod.precedence(), Some(1));
    assert_eq!(Operator::Pow.precedence(), Some(2));
    assert_eq!(Operator::LeftParen.precedence(), None);
    assert_eq!(Operator::Assign.precedence(), None);
    assert!(Operator::Div.can_apply());
    assert!(!Operator::RightParen.can_apply());
    assert!(!Operator::Assign.can_apply());
    assert_eq!(Operator::from_char('÷'), Some(Operator::Div));
    assert_eq!(Operator::from_char('a'), None);
    assert_eq!(Operator::Pow.to_text(), "^");
}

fn at(line: usize, column: usize) -> Option<Position> {
    Some(Position { line, column })
}

#[test]
fn tokenizer_errors_carry_their_place() {
    assert_eq!(tokenize("1 $ 2", true).unwrap_err().position, at(1, 3));
    assert_eq!(tokenize("7 +\n1.2.3", false).unwrap_err().position, at(2, 1));
    assert_eq!(tokenize("f(1 2)", true).unwrap_err().position, at(1, 5));
    assert_eq!(tokenize("f(1, 2", true).unwrap_err().position, at(1, 7));
}

#[test]
fn arrangement_errors_carry_their_place() {
    assert_eq!(to_postfix("1 2", false).unwrap_err().position, at(1, 3));
    assert_eq!(to_postfix("2 (3)", false).unwrap_err().position, at(1, 3));
    assert_eq!(to_postfix("1 + * 2", false).unwrap_err().position, at(1, 5));
    assert_eq!(to_postfix("  ^ 2", false).unwrap_err().position, at(1, 3));
    assert_eq!(to_postfix("(1 + (2)", false).unwrap_err().position, at(1, 1));
    assert_eq!(to_postfix("((1) + 2", false).unwrap_err().position, at(1, 1));
    assert_eq!(to_postfix("1 + (2 * (3)", false).unwrap_err().position, at(1, 5));
    assert_eq!(to_postfix("1 + 2)", false).unwrap_err().position, at(1, 6));
    assert_eq!(to_postfix("", false).unwrap_err().position, None);
}
