use gorilla::builtin_types::integer::new_integer;
use gorilla::env::Environment;
use gorilla::obj::BaseObject;
use gorilla::vm::Host;

fn apply(receiver: i64, member: &str, args: Vec<BaseObject>) -> Result<BaseObject, String> {
    let vv = Environment::default();
    let ii = new_integer(receiver);
    let mut f = ii.instance_get(member.to_string()).unwrap();
    f.set_parent(ii);
    f.clone().call(f, args, vv.clone(), &mut Host::new())
}

#[test]
fn integer_binop() {
    for (plus, minus, times, over, rest, same, other) in [
        ("add", "sub", "mul", "div", "modulo", "eq", "neq"),
        ("+", "-", "*", "/", "%", "==", "!="),
    ] {
        let res = apply(10, plus, vec![new_integer(1)]);
        assert_eq!(res.unwrap().to_string(), "11");

        let res = apply(10, minus, vec![new_integer(1)]);
        assert_eq!(res.unwrap().to_string(), "9");

        let res = apply(10, times, vec![new_integer(-10)]);
        assert_eq!(res.unwrap().to_string(), "-100");

        let res = apply(10, over, vec![new_integer(2)]);
        assert_eq!(res.unwrap().to_string(), "5");

        let res = apply(10, rest, vec![new_integer(3)]);
        assert_eq!(res.unwrap().to_string(), "1");

        let res = apply(10, over, vec![new_integer(0)]);
        assert!(res.is_err());

        let res = apply(10, rest, vec![new_integer(0)]);
        assert!(res.is_err());

        let res = apply(10, rest, vec![]);
        assert!(res.is_err()); // 0 arguments

        let res = apply(10, same, vec![new_integer(10)]);
        assert_eq!(res.unwrap().to_string(), "true");

        let res = apply(10, other, vec![new_integer(10)]);
        assert_eq!(res.unwrap().to_string(), "false");
    }
}
