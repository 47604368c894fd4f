use gorilla::parser::parse;

#[test]
fn parsing() {
    let res = parse(
        "
(println)(a + 99 % 3)(123)",
    );
    match res {
        Ok(x) => {
            assert_eq!(x.len(), 1);
        }
        Err(x) => {
            panic!("{}", x.to_string());
        }
    };

    let res = parse("9223372036854775808");
    match res {
        Ok(_) => {
            panic!("no error");
        }
        Err(_) => {}
    };
}
