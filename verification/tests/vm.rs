use gorilla::grammar::Grammar;
use gorilla::obj::ValueType::Int;
use gorilla::vm::VM;

fn b(g: Grammar) -> u8 {
    u8::from(g)
}

#[test]
fn test_integer_encoding() {
    let bc = vec![b(Grammar::Magic), b(Grammar::Integer), 3, 0xe5, 0x8e, 0x26, b(Grammar::Pop)];
    let mut vm = VM::new(bc);
    let res = vm.run();
    match res {
        Err(x) => panic!("Error: {}", x),
        Ok(x) => assert_eq!(x.expect("No popped").internal_value, Int(624485)),
    }
}

#[test]
fn test_var() {
    let mut vm = VM::new(vec![
        b(Grammar::Magic),
        b(Grammar::Integer),
        1,
        0x03,
        b(Grammar::Setvar),
        1,
        2,
        'a' as u8,
        'b' as u8,
        b(Grammar::Pop),
    ]);
    let res = vm.run();
    match res {
        Err(x) => panic!("Error: {}", x),
        Ok(x) => assert_eq!(x.expect("No popped").internal_value, Int(3)),
    }

    let mut vm = VM::new(vec![
        b(Grammar::Magic),
        b(Grammar::Integer),
        1,
        0x04,
        b(Grammar::Setvar),
        1,
        2,
        'a' as u8,
        'b' as u8,
        b(Grammar::Pop),
        b(Grammar::Getvar),
        1,
        2,
        'a' as u8,
        'b' as u8,
        b(Grammar::Pop),
    ]);
    let res = vm.run();
    match res {
        Err(x) => panic!("Error: {}", x),
        Ok(x) => assert_eq!(x.expect("No popped").internal_value, Int(4)),
    }

    let mut vm = VM::new(vec![
        b(Grammar::Magic),
        b(Grammar::Integer),
        1,
        0x04,
        b(Grammar::Getvar),
        1,
        2,
        'a' as u8,
        'b' as u8,
        b(Grammar::Pop),
    ]);
    let res = vm.run();
    match res {
        Err(_) => {}
        Ok(_) => panic!("No Error..."),
    }
}

#[test]
fn test_call() {
    let mut vm = VM::new(vec![
        b(Grammar::Magic),
        b(Grammar::Integer),
        1,
        0x04,
        b(Grammar::Call),
        1,
        0x00,
        b(Grammar::Pop),
    ]);
    let res = vm.run();
    match res {
        Err(_) => {}
        Ok(_) => panic!("No Error..."),
    }
}

#[test]
fn test_attr() {
    let mut vm = VM::new(vec![
        b(Grammar::Magic),
        b(Grammar::Integer),
        1,
        0x04,
        b(Grammar::GetInstance),
        1,
        1,
        '?' as u8,
        b(Grammar::Pop),
    ]);
    let res = vm.run();
    match res {
        Err(_) => {}
        Ok(_) => panic!("No Error..."),
    }
}

#[test]
fn test_arth() {
    let mut vm = VM::new(vec![
        b(Grammar::Magic),
        b(Grammar::Integer),
        1,
        0x03,
        b(Grammar::Integer),
        1,
        0x06,
        b(Grammar::GetInstance),
        1,
        1,
        '+' as u8,
        b(Grammar::Call),
        1,
        0x01,
        b(Grammar::Pop),
    ]);
    let res = vm.run();
    match res {
        Err(x) => panic!("Error: {}", x),
        Ok(x) => assert_eq!(x.expect("No popped").internal_value, Int(9)),
    }
}

#[test]
fn test_jump() {
    let mut vm = VM::new(vec![
        b(Grammar::Magic),
        b(Grammar::Integer), 1, 0,
        b(Grammar::JumpIfFalse), 1, 4,
        b(Grammar::Null),
        b(Grammar::Jump), 1, 4,
        b(Grammar::Advance),
        b(Grammar::Integer), 1, 5,
        b(Grammar::Pop),
    ]);
    let res = vm.run();
    match res {
        Err(x) => panic!("Error: {}", x),
        Ok(x) => assert_eq!(x.expect("No popped").internal_value, Int(5)),
    }

    let mut vm = VM::new(vec![
        b(Grammar::Magic),
        b(Grammar::Integer), 1, 0,
        b(Grammar::JumpIfFalse), 1, 6,
        b(Grammar::Integer), 1, 1,
        b(Grammar::Jump), 1, 15,
        b(Grammar::Integer), 1, 1,
        b(Grammar::JumpIfFalse), 1, 6,
        b(Grammar::Integer), 1, 2,
        b(Grammar::Jump), 1, 3,
        b(Grammar::Integer), 1, 3,
        b(Grammar::Pop),
    ]);
    let res = vm.run();
    match res {
        Err(x) => panic!("Error: {}", x),
        Ok(x) => assert_eq!(x.expect("No popped").internal_value, Int(2)),
    }
}
