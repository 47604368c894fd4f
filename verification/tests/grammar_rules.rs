use gorilla::ast::{Expression, Statement};
use gorilla::parser::{parse, ParseError, ParseErrorKind};

fn only_expression(code: &str) -> Expression {
    let mut program = parse(code).unwrap_or_else(|e| panic!("{}", e.to_string()));
    assert_eq!(program.len(), 1);
    match program.pop().unwrap() {
        Statement::ExprStmt(s) => s.expr,
        Statement::FunctionDeclare(_) => panic!("a declaration"),
    }
}

/// The expression in prefix form, for comparison.
fn shape(e: &Expression) -> String {
    match e {
        Expression::Int(x) => x.value.to_string(),
        Expression::String(x) => format!("{:?}", x.value),
        Expression::GetVar(x) => x.name.clone(),
        Expression::SetVar(x) => format!("(set {} {})", x.name, shape(&x.value)),
        Expression::Infix(x) => format!("({} {} {})", x.operator, shape(&x.left), shape(&x.right)),
        Expression::Prefix(x) => format!("({}@ {})", x.operator, shape(&x.right)),
        Expression::Call(x) => {
            let args: Vec<String> = x.arguments.iter().map(shape).collect();
            format!("(call {} [{}])", shape(&x.callee), args.join(" "))
        }
        Expression::GetInstance(x) => format!("(. {} {})", shape(&x.parent), x.name),
        Expression::Index(x) => format!("(index {} {})", shape(&x.callee), shape(&x.index)),
        Expression::Vec_(x) => {
            let items: Vec<String> = x.values.iter().map(shape).collect();
            format!("[{}]", items.join(" "))
        }
        Expression::If(x) => format!("(if {} {} {})", shape(&x.cond), x.body.len(), x.other.len()),
        Expression::While(x) => format!("(while {} {})", shape(&x.cond), x.body.len()),
    }
}

#[test]
fn operators_bind_by_level_and_group_from_the_left() {
    assert_eq!(shape(&only_expression("1453 + 26 * 7")), "(+ 1453 (* 26 7))");
    assert_eq!(shape(&only_expression("4763 / 23 + 98765")), "(+ (/ 4763 23) 98765)");
    assert_eq!(shape(&only_expression("1 - 2 - 3")), "(- (- 1 2) 3)");
    assert_eq!(shape(&only_expression("1 == 2 < 3 + 4 * 5")), "(== 1 (< 2 (+ 3 (* 4 5))))");
    assert_eq!(shape(&only_expression("1 * 2 + 3 < 4 != 5")), "(!= (< (+ (* 1 2) 3) 4) 5)");
    assert_eq!(shape(&only_expression("(1 + 2) * 3")), "(* (+ 1 2) 3)");
    assert_eq!(shape(&only_expression("a <= b >= c % d")), "(>= (<= a b) (% c d))");
}

#[test]
fn prefix_operators_chain_and_bind_tighter_than_binary_ones() {
    assert_eq!(shape(&only_expression("-9 * +-7")), "(* (-@ 9) (+@ (-@ 7)))");
    assert_eq!(shape(&only_expression("-a.b")), "(-@ (. a b))");
}

#[test]
fn suffixes_chain_from_the_left() {
    assert_eq!(
        shape(&only_expression("a.b(c)[d].e!")),
        "(call (. (index (call (. a b) [c]) d) e) [])"
    );
    assert_eq!(
        shape(&only_expression("\n(println)(a + 99 % 3)(123)")),
        "(call (call println [(+ a (% 99 3))]) [123])"
    );
    assert_eq!(shape(&only_expression("1.i!")), "(call (. 1 i) [])");
    assert_eq!(shape(&only_expression("a != b")), "(!= a b)");
    assert_eq!(shape(&only_expression("f(1, 2,)")), "(call f [1 2])");
}

#[test]
fn assignments_conditionals_loops_and_vectors() {
    assert_eq!(shape(&only_expression("abc = 4763 / 23")), "(set abc (/ 4763 23))");
    assert_eq!(shape(&only_expression("a == b")), "(== a b)");
    assert_eq!(shape(&only_expression("if 1 1 else if 1 1 else 1")), "(if 1 1 1)");
    assert_eq!(shape(&only_expression("if a { b; c }")), "(if a 2 0)");
    assert_eq!(shape(&only_expression("while 1>2 {1}")), "(while (> 1 2) 1)");
    assert_eq!(shape(&only_expression("[1, a, [2]]")), "[1 a [2]]");
    assert_eq!(shape(&only_expression("[]")), "[]");
}

#[test]
fn string_escapes_are_decoded() {
    assert_eq!(shape(&only_expression("\"new\\nline\\0\"")), format!("{:?}", "new\nline\0"));
    assert_eq!(
        shape(&only_expression(r#""a\\b\"c\'d\re\tf\qg""#)),
        format!("{:?}", "a\\b\"c'd\re\tfqg")
    );
    assert_eq!(shape(&only_expression("\"\"")), format!("{:?}", ""));
}

#[test]
fn statements_are_separated_by_blanks_and_semicolons() {
    assert_eq!(parse("").unwrap().len(), 0);
    assert_eq!(parse(" \n;; ").unwrap().len(), 0);
    assert_eq!(parse("abc = 5; abc").unwrap().len(), 2);
    assert_eq!(parse("a\nb\n\nc;").unwrap().len(), 3);
    assert_eq!(parse("if 1 {\n} else {5\n}\n1").unwrap().len(), 2);
    let program = parse("fn abc(a, b) a + b\nabc(1, 2)").unwrap();
    assert_eq!(program.len(), 2);
    match &program[0] {
        Statement::FunctionDeclare(f) => {
            assert_eq!(f.name, "abc");
            assert_eq!(f.args, vec!["a".to_string(), "b".to_string()]);
            assert_eq!(f.body.len(), 1);
            assert_eq!(f.pos.start, 0);
        }
        Statement::ExprStmt(_) => panic!("an expression"),
    }
}

#[test]
fn integer_literals_up_to_the_largest() {
    assert_eq!(shape(&only_expression("9223372036854775807")), "9223372036854775807");
    assert_eq!(shape(&only_expression("007")), "7");
    assert_eq!(
        parse("9223372036854775808").err(),
        Some(ParseError { kind: ParseErrorKind::IntegerOverflow, pos: 0 })
    );
    assert_eq!(
        parse("1 + 99999999999999999999999").err(),
        Some(ParseError { kind: ParseErrorKind::IntegerOverflow, pos: 4 })
    );
}

#[test]
fn each_parse_error_with_its_offset() {
    let cases = [
        ("1 +", ParseErrorKind::ExpectedExpression, 3),
        ("}", ParseErrorKind::ExpectedExpression, 0),
        ("a = else", ParseErrorKind::ExpectedExpression, 4),
        ("fn 1", ParseErrorKind::ExpectedIdentifier, 3),
        ("fn f(a, 1)", ParseErrorKind::ExpectedIdentifier, 8),
        ("fn f 1", ParseErrorKind::ExpectedOpenParen, 5),
        ("fn f(a b) 1", ParseErrorKind::ExpectedCloseParen, 7),
        ("(1", ParseErrorKind::ExpectedCloseParen, 2),
        ("f(1 2)", ParseErrorKind::ExpectedCloseParen, 4),
        ("[1", ParseErrorKind::ExpectedCloseBracket, 2),
        ("a[1", ParseErrorKind::ExpectedCloseBracket, 3),
        ("if 1 { 2", ParseErrorKind::ExpectedCloseBrace, 8),
        ("\"abc", ParseErrorKind::UnterminatedString, 0),
        ("x = \"abc\\", ParseErrorKind::UnterminatedString, 4),
    ];
    for (code, kind, pos) in cases {
        assert_eq!(parse(code).err(), Some(ParseError { kind, pos }), "{:?}", code);
    }
    assert_eq!(
        parse("(1").unwrap_err().to_string(),
        "expected ')' at offset 2"
    );
}
