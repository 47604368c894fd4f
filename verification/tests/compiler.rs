use gorilla::compiler::Compiler;
use gorilla::grammar::Grammar;
use gorilla::parser::parse;

fn op(g: Grammar) -> u8 {
    u8::from(g)
}

#[test]
fn number() {
    let code = "624485";
    let mut compiler = Compiler::new(code);
    compiler.compile(parse(code).unwrap());
    assert_eq!(
        compiler.result,
        vec![op(Grammar::Magic), op(Grammar::Integer), 3, 0xe5, 0x8e, 0x26, op(Grammar::Pop)]
    );
}

#[test]
fn if_else() {
    let code = "if 1 {
        } else {5
        }
        1";
    let mut compiler = Compiler::new(code);
    compiler.compile(parse(code).unwrap_or_else(|x| panic!("{}", x.to_string())));
    assert_eq!(
        compiler.result,
        vec![
            op(Grammar::Magic),
            op(Grammar::Integer), 1, 1,
            op(Grammar::JumpIfFalse), 1, 4,
            op(Grammar::Null),
            op(Grammar::Jump), 1, 4,
            op(Grammar::Advance),
            op(Grammar::Integer), 1, 5,
            op(Grammar::Pop),
            op(Grammar::Advance),
            op(Grammar::Advance),
            op(Grammar::Integer), 1, 1,
            op(Grammar::Pop),
        ]
    );

    let code = "if 1 1 else if 1 1 else 1";
    let mut compiler = Compiler::new(code);
    compiler.compile(parse(code).unwrap_or_else(|x| panic!("{}", x.to_string())));
    assert_eq!(
        compiler.result,
        vec![
            op(Grammar::Magic),
            op(Grammar::Integer), 1, 1,
            op(Grammar::JumpIfFalse), 1, 6,
            op(Grammar::Integer), 1, 1,
            op(Grammar::Jump), 1, 15,
            op(Grammar::Integer), 1, 1,
            op(Grammar::JumpIfFalse), 1, 6,
            op(Grammar::Integer), 1, 1,
            op(Grammar::Jump), 1, 3,
            op(Grammar::Integer), 1, 1,
            op(Grammar::Pop),
        ]
    );
}

#[test]
fn whiles() {
    let code = "while 1 2";
    let mut compiler = Compiler::new(code);
    compiler.compile(parse(code).unwrap_or_else(|x| panic!("{}", x.to_string())));
    assert_eq!(
        compiler.result,
        vec![
            op(Grammar::Magic),
            op(Grammar::Integer), 1, 1,
            op(Grammar::JumpIfFalse), 1, 7,
            op(Grammar::Integer), 1, 2,
            op(Grammar::Pop),
            op(Grammar::JumpTo), 1, 1,
            op(Grammar::Null),
            op(Grammar::Pop),
        ]
    );
}

#[test]
fn functions() {
    let code = "fn abc(a, b) a + b";
    let mut compiler = Compiler::new(code);
    compiler.compile(parse(code).unwrap_or_else(|x| panic!("{}", x.to_string())));
    assert_eq!(
        compiler.result,
        vec![
            op(Grammar::Magic),
            op(Grammar::Function),
            1, 3, b'a', b'b', b'c',
            1, 2, 1, 1, b'a', 1, 1, b'b',
            1, 16,
            op(Grammar::Getvar), 1, 1, b'b',
            op(Grammar::Getvar), 1, 1, b'a',
            op(Grammar::GetInstance), 1, 1, b'+',
            op(Grammar::Call), 1, 1,
            op(Grammar::Pop),
        ]
    );
}
