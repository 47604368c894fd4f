use gorilla::builtin_types::any::any_class;
use gorilla::builtin_types::bool::new_boolean;
use gorilla::builtin_types::function::new_function;
use gorilla::builtin_types::integer::new_integer;
use gorilla::builtin_types::native_function::new_native_function;
use gorilla::builtin_types::null::new_null;
use gorilla::builtin_types::string::{char_at, new_string, read_integer};
use gorilla::builtin_types::vec::new_vector;
use gorilla::env::Environment;
use gorilla::modules::prelude::{print, print_inspect_line, print_line, puts};
use gorilla::obj::{BaseObject, Native, ValueType};
use gorilla::vm::{not_callable, Host};

fn send(receiver: BaseObject, member: &str, args: Vec<BaseObject>) -> Result<BaseObject, String> {
    let mut f = receiver.instance_get(member.to_string()).unwrap();
    f.set_parent(receiver);
    f.call(f.clone(), args, Environment::default(), &mut Host::new())
}

fn num(v: i64) -> BaseObject {
    new_integer(v)
}

fn text(s: &str) -> BaseObject {
    new_string(s.to_string())
}

#[test]
fn integer_arithmetic() {
    assert_eq!(send(num(1453), "+", vec![num(26)]), Ok(num(1479)));
    assert_eq!(send(num(5), "-", vec![num(7)]), Ok(num(-2)));
    assert_eq!(send(num(-6), "*", vec![num(7)]), Ok(num(-42)));
    assert_eq!(send(num(4763), "/", vec![num(23)]), Ok(num(207)));
    assert_eq!(send(num(-7), "/", vec![num(2)]), Ok(num(-3)));
    assert_eq!(send(num(7), "/", vec![num(-2)]), Ok(num(-3)));
    assert_eq!(send(num(-7), "/", vec![num(-2)]), Ok(num(3)));
    assert_eq!(send(num(-7), "%", vec![num(2)]), Ok(num(-1)));
    assert_eq!(send(num(7), "%", vec![num(-2)]), Ok(num(1)));
    assert_eq!(send(num(-7), "%", vec![num(-2)]), Ok(num(-1)));
    assert_eq!(send(num(0), "/", vec![num(-2)]), Ok(num(0)));
    assert_eq!(send(num(9), "-@", vec![]), Ok(num(-9)));
    assert_eq!(send(num(9), "to_neg", vec![]), Ok(num(-9)));
    assert_eq!(send(num(-9), "+@", vec![]), Ok(num(-9)));
    assert_eq!(send(num(-9), "to_pos", vec![]), Ok(num(-9)));
    assert_eq!(send(num(3), "i", vec![]), Ok(num(3)));
}

#[test]
fn integer_arithmetic_wraps_round() {
    assert_eq!(send(num(i64::MAX), "+", vec![num(1)]), Ok(num(i64::MIN)));
    assert_eq!(send(num(i64::MIN), "-", vec![num(1)]), Ok(num(i64::MAX)));
    assert_eq!(send(num(i64::MAX), "*", vec![num(2)]), Ok(num(-2)));
    assert_eq!(send(num(i64::MIN), "-@", vec![]), Ok(num(i64::MIN)));
}

#[test]
fn integer_division_without_a_result() {
    assert_eq!(
        send(num(1), "/", vec![num(0)]),
        Err("Integer division by 0 in 1 / 0".to_string())
    );
    assert_eq!(
        send(num(-3), "%", vec![num(0)]),
        Err("Integer modulo by 0 in -3 % 0".to_string())
    );
    assert_eq!(
        send(num(i64::MIN), "/", vec![num(-1)]),
        Err("Integer overflow in -9223372036854775808 / -1".to_string())
    );
    assert_eq!(
        send(num(i64::MIN), "%", vec![num(-1)]),
        Err("Integer overflow in -9223372036854775808 % -1".to_string())
    );
}

#[test]
fn integer_comparisons() {
    assert_eq!(send(num(1), ">", vec![num(2)]), Ok(new_boolean(false)));
    assert_eq!(send(num(1), "<", vec![num(2)]), Ok(new_boolean(true)));
    assert_eq!(send(num(2), ">=", vec![num(2)]), Ok(new_boolean(true)));
    assert_eq!(send(num(3), "<=", vec![num(2)]), Ok(new_boolean(false)));
    assert_eq!(send(num(3), "gt", vec![num(2)]), Ok(new_boolean(true)));
    assert_eq!(send(num(3), "lt", vec![num(2)]), Ok(new_boolean(false)));
    assert_eq!(send(num(3), "gteq", vec![num(4)]), Ok(new_boolean(false)));
    assert_eq!(send(num(3), "lteq", vec![num(3)]), Ok(new_boolean(true)));
}

#[test]
fn natives_check_their_arguments() {
    assert_eq!(send(num(1), "+", vec![]), Err("Integer.+ expects 1 argument, got 0".to_string()));
    assert_eq!(
        send(num(1), "modulo", vec![]),
        Err("Integer.% expects 1 argument, got 0".to_string())
    );
    assert_eq!(send(num(1), "+", vec![text("a")]), Err("Integer.+ expects an integer".to_string()));
    assert_eq!(send(num(1), "<=", vec![new_null()]), Err("Integer.<= expects an integer".to_string()));
    assert_eq!(send(text("a"), "+", vec![num(1)]), Err("String.+ expects a string".to_string()));
    assert_eq!(send(text("a"), "+", vec![]), Err("String.+ expects 1 argument, got 0".to_string()));
    assert_eq!(
        send(text("a"), "get_index", vec![text("a")]),
        Err("String.get_index expects an integer".to_string())
    );
    assert_eq!(send(num(1), "==", vec![]), Err("Object.== expects 1 argument, got 0".to_string()));
    assert_eq!(
        send(new_vector(vec![]), "+", vec![num(1)]),
        Err("Vec.+ expects a vector".to_string())
    );
}

#[test]
fn natives_check_their_receiver() {
    let call = |f: BaseObject| f.call(f.clone(), vec![num(1)], Environment::default(), &mut Host::new());
    let plus = num(1).instance_get("+".to_string()).unwrap();
    assert_eq!(call(plus.clone()), Err("Integer.+ expects an integer receiver".to_string()));
    let mut misplaced = plus;
    misplaced.set_parent(text("a"));
    assert_eq!(call(misplaced), Err("Integer.+ expects an integer receiver".to_string()));
    let len = text("a").instance_get("len".to_string()).unwrap();
    assert_eq!(call(len), Err("String.len expects a string receiver".to_string()));
    let same = num(1).instance_get("==".to_string()).unwrap();
    assert_eq!(call(same), Err("Object.== expects a receiver".to_string()));
    let to_int = new_boolean(true).instance_get("i".to_string()).unwrap();
    assert_eq!(call(to_int), Err("Boolean.i expects a boolean receiver".to_string()));
    let items = new_vector(vec![]).instance_get("len".to_string()).unwrap();
    assert_eq!(call(items), Err("Vec.len expects a vector receiver".to_string()));
}

#[test]
fn booleans_as_numbers() {
    assert_eq!(send(new_boolean(true), "i", vec![]), Ok(num(1)));
    assert_eq!(send(new_boolean(false), "i", vec![]), Ok(num(0)));
}

#[test]
fn strings_that_write_numbers() {
    assert_eq!(read_integer("01234"), Some(1234));
    assert_eq!(read_integer("-12"), Some(-12));
    assert_eq!(read_integer("+5"), Some(5));
    assert_eq!(read_integer("0"), Some(0));
    assert_eq!(read_integer("9223372036854775807"), Some(i64::MAX));
    assert_eq!(read_integer("-9223372036854775808"), Some(i64::MIN));
    assert_eq!(read_integer("9223372036854775808"), None);
    assert_eq!(read_integer("-9223372036854775809"), None);
    assert_eq!(read_integer(""), None);
    assert_eq!(read_integer("-"), None);
    assert_eq!(read_integer("+"), None);
    assert_eq!(read_integer("12a"), None);
    assert_eq!(read_integer(" 12"), None);
    assert_eq!(read_integer("1 "), None);
    assert_eq!(read_integer("--1"), None);
    for s in ["01234", "-12", "+5", "", "12a", "9223372036854775808", "-9223372036854775808"] {
        assert_eq!(read_integer(s), s.parse::<i64>().ok(), "{:?}", s);
    }
    assert_eq!(send(text("01234"), "i", vec![]), Ok(num(1234)));
    assert_eq!(
        send(text("1.5"), "i", vec![]),
        Err("Cannot parse '1.5' to 64-bit integer".to_string())
    );
}

#[test]
fn string_members() {
    assert_eq!(send(text("LOL "), "+", vec![text("ALR")]), Ok(text("LOL ALR")));
    assert_eq!(send(text("LOL "), "add", vec![text("")]), Ok(text("LOL ")));
    assert_eq!(send(text("hello"), "len", vec![]), Ok(num(5)));
    assert_eq!(send(text(""), "len", vec![]), Ok(num(0)));
    // one letter with a combining accent is two characters and one cluster
    assert_eq!(send(text("e\u{301}"), "len", vec![]), Ok(num(1)));
    assert_eq!(send(text("e\u{301}x"), "len", vec![]), Ok(num(2)));
    assert_eq!(send(text("abc"), "get_index", vec![num(0)]), Ok(text("a")));
    assert_eq!(send(text("abc"), "get_index", vec![num(2)]), Ok(text("c")));
    assert_eq!(send(text("abc"), "get_index", vec![num(-1)]), Ok(text("c")));
    assert_eq!(send(text("abc"), "get_index", vec![num(-3)]), Ok(text("a")));
    assert_eq!(
        send(text("abc"), "get_index", vec![num(3)]),
        Err("String index 3 is out of range".to_string())
    );
    assert_eq!(
        send(text("abc"), "get_index", vec![num(-4)]),
        Err("String index -4 is out of range".to_string())
    );
    // the index counts characters, a negative one counts back from the clusters
    assert_eq!(send(text("e\u{301}x"), "get_index", vec![num(-1)]), Ok(text("\u{301}")));
    assert_eq!(send(text("e\u{301}x"), "get_index", vec![num(2)]), Ok(text("x")));
}

#[test]
fn vector_members() {
    let v = || new_vector(vec![num(1), text("a"), new_boolean(true)]);
    assert_eq!(send(v(), "len", vec![]), Ok(num(3)));
    assert_eq!(send(new_vector(vec![]), "len", vec![]), Ok(num(0)));
    assert_eq!(send(v(), "get_index", vec![num(1)]), Ok(text("a")));
    assert_eq!(send(v(), "get_index", vec![num(-1)]), Ok(new_boolean(true)));
    assert_eq!(
        send(v(), "get_index", vec![num(3)]),
        Err("Vector index 3 is out of range".to_string())
    );
    assert_eq!(
        send(v(), "get_index", vec![num(-4)]),
        Err("Vector index -4 is out of range".to_string())
    );
    assert_eq!(
        send(v(), "+", vec![new_vector(vec![num(2)])]),
        Ok(new_vector(vec![num(1), text("a"), new_boolean(true), num(2)]))
    );
    assert_eq!(send(v(), "add", vec![new_vector(vec![])]), Ok(v()));
}

#[test]
fn texts_of_objects() {
    assert_eq!(num(-100).to_string(), "-100");
    assert_eq!(num(0).to_inspect_string(), "0");
    assert_eq!(num(i64::MIN).to_string(), "-9223372036854775808");
    assert_eq!(new_boolean(true).to_string(), "true");
    assert_eq!(new_null().to_string(), "null");
    assert_eq!(new_null().to_inspect_string(), "null");
    assert_eq!(text("a\"b\n").to_string(), "a\"b\n");
    assert_eq!(text("a\"b\n").to_inspect_string(), "\"a\\\"b\\n\"");
    assert_eq!(text("\\ ' \r \t \0 é").to_inspect_string(), "\"\\\\ \\' \\r \\t \\0 é\"");
    assert_eq!(new_vector(vec![]).to_string(), "[]");
    assert_eq!(new_vector(vec![num(1), text("a")]).to_string(), "[1, a]");
    assert_eq!(
        new_vector(vec![num(1), text("a"), new_vector(vec![text("b")])]).to_inspect_string(),
        "[1, \"a\", [\"b\"]]"
    );
    let f = new_function(("f".to_string(), vec!["a".to_string()], vec![]));
    assert_eq!(f.to_string(), "Function 'f'");
    assert_eq!(f.to_inspect_string(), "Function 'f'");
    let n = new_native_function(("println".to_string(), Native::PrintLine));
    assert_eq!(n.to_string(), "Native Function println");
    assert_eq!(num(1).class.to_string(), "Class 'Integer'");
    assert_eq!(send(num(5), "s", vec![]), Ok(text("5")));
    assert_eq!(send(text("a"), "s", vec![]), Ok(text("a")));
    assert_eq!(send(text("a"), "inspect", vec![]), Ok(text("\"a\"")));
}

#[test]
fn what_counts_as_true() {
    assert!(num(1).is_truthy());
    assert!(num(-1).is_truthy());
    assert!(!num(0).is_truthy());
    assert!(new_boolean(true).is_truthy());
    assert!(!new_boolean(false).is_truthy());
    assert!(text("a").is_truthy());
    assert!(!text("").is_truthy());
    assert!(new_vector(vec![new_null()]).is_truthy());
    assert!(!new_vector(vec![]).is_truthy());
    assert!(!new_null().is_truthy());
    assert!(new_function(("f".to_string(), vec![], vec![])).is_truthy());
    assert!(new_native_function(("f".to_string(), Native::Print)).is_truthy());
}

#[test]
fn equality_compares_payload_and_class() {
    assert!(num(1).equal_to(num(1)));
    assert!(!num(1).equal_to(num(2)));
    assert!(!num(1).equal_to(text("1")));
    assert!(!num(1).equal_to(new_boolean(true)));
    assert!(new_null().equal_to(new_null()));
    assert!(new_vector(vec![num(1)]).equal_to(new_vector(vec![num(1)])));
    assert!(!new_vector(vec![num(1)]).equal_to(new_vector(vec![num(1), num(1)])));
    // the receiver of an object does not count, that of a vector's item does
    let mut bound = num(1);
    bound.set_parent(text("p"));
    assert!(bound.equal_to(num(1)));
    assert_ne!(bound, num(1));
    assert!(!new_vector(vec![bound.clone()]).equal_to(new_vector(vec![num(1)])));
    // a payload in another class is another object
    let mut odd = num(1);
    odd.class.name = "Other".to_string();
    assert!(!odd.equal_to(num(1)));
    assert_eq!(send(num(1), "==", vec![num(1)]), Ok(new_boolean(true)));
    assert_eq!(send(num(1), "!=", vec![num(1)]), Ok(new_boolean(false)));
    assert_eq!(send(text("a"), "==", vec![num(1)]), Ok(new_boolean(false)));
    assert_eq!(send(new_null(), "neq", vec![num(1)]), Ok(new_boolean(true)));
}

#[test]
fn member_lookup_walks_up_to_the_root_class() {
    let found = num(1).instance_get("==".to_string()).unwrap();
    assert_eq!(found, new_native_function(("Object.==".to_string(), Native::ObjectEq)));
    assert_eq!(found, any_class().get_instance_var("==".to_string()).unwrap());
    for o in [num(1), text("a"), new_boolean(true), new_null(), new_vector(vec![])] {
        assert_eq!(
            o.instance_get("inspect".to_string()),
            Some(new_native_function(("Object.inspect".to_string(), Native::ObjectInspect)))
        );
        assert_eq!(o.instance_get("nope".to_string()), None);
    }
    assert_eq!(
        num(1).instance_get("i".to_string()),
        Some(new_native_function(("Integer.i".to_string(), Native::IntegerPos)))
    );
    assert_eq!(
        text("1").instance_get("i".to_string()),
        Some(new_native_function(("String.i".to_string(), Native::StringParseInt)))
    );
    let native = new_native_function(("f".to_string(), Native::Print));
    assert_eq!(native.instance_get("==".to_string()), None);
    // a member of the class itself hides the one of the root class
    let mut shadowing = num(1);
    shadowing.class.instance_vars.set("==".to_string(), num(7));
    assert_eq!(shadowing.instance_get("==".to_string()), Some(num(7)));
}

#[test]
fn the_receiver_of_a_member() {
    let mut f = num(1).instance_get("+".to_string()).unwrap();
    assert_eq!(f.parent(), None);
    f.set_parent(num(1));
    assert_eq!(f.parent(), Some(Box::new(num(1))));
    f.set_parent(num(2));
    assert_eq!(f.parent(), Some(Box::new(num(2))));
}

#[test]
fn environments_bind_names() {
    let mut env = Environment::default();
    assert_eq!(env.get("a".to_string()), None);
    env.set("a".to_string(), num(1));
    env.set("b".to_string(), num(2));
    assert_eq!(env.get("a".to_string()), Some(num(1)));
    assert_eq!(env.get("b".to_string()), Some(num(2)));
    env.set("a".to_string(), num(3));
    assert_eq!(env.get("a".to_string()), Some(num(3)));
    assert_eq!(env.get("b".to_string()), Some(num(2)));
    assert_eq!(env.store.len(), 2);
    assert!(env.has(&"a".to_string()));
    assert!(!env.has(&"c".to_string()));
    assert_eq!(env.clone().get("a".to_string()), Some(num(3)));
}

#[test]
fn only_functions_can_be_called() {
    let five = num(5);
    assert_eq!(
        five.call(five.clone(), vec![], Environment::default(), &mut Host::new()),
        Err("'5' (Class 'Integer') is not callable".to_string())
    );
    assert_eq!(
        not_callable(text("a"), vec![], Environment::default()),
        Err("'a' (Class 'String') is not callable".to_string())
    );
}

#[test]
fn declared_functions_run_their_body() {
    // Integer 7; Pop
    let f = new_function(("seven".to_string(), vec![], vec![5, 1, 7, 1]));
    assert_eq!(f.call(f.clone(), vec![], Environment::default(), &mut Host::new()), Ok(num(7)));
    assert_eq!(
        f.call(f.clone(), vec![num(1)], Environment::default(), &mut Host::new()),
        Err("Function 'seven' expected 0 arguments, got 1".to_string())
    );
    // Getvar a; Pop
    let g = new_function(("g".to_string(), vec!["a".to_string()], vec![8, 1, 1, b'a', 1]));
    assert_eq!(g.call(g.clone(), vec![num(9)], Environment::default(), &mut Host::new()), Ok(num(9)));
    // an empty body returns null
    let h = new_function(("h".to_string(), vec![], vec![]));
    assert_eq!(h.call(h.clone(), vec![], Environment::default(), &mut Host::new()), Ok(new_null()));
    // an error comes with the name in front
    let bad = new_function(("bad".to_string(), vec![], vec![1]));
    assert_eq!(
        bad.call(bad.clone(), vec![], Environment::default(), &mut Host::new()),
        Err("In Function 'bad': Pop on empty stack".to_string())
    );
}

#[test]
fn the_printing_functions() {
    let mut host = Host::new();
    let args = || vec![num(1), text("a\nb"), new_vector(vec![text("c")])];
    let env = Environment::default;
    assert_eq!(print_line(new_null(), args(), env(), &mut host), Ok(text("1 a\nb [c]")));
    assert_eq!(puts(new_null(), args(), env(), &mut host), Ok(new_null()));
    assert_eq!(
        print_inspect_line(new_null(), args(), env(), &mut host),
        Ok(text("1 \"a\\nb\" [\"c\"]"))
    );
    assert_eq!(print(new_null(), args(), env(), &mut host), Ok(text("1 a\nb [c]")));
    assert_eq!(print(new_null(), vec![], env(), &mut host), Ok(text("")));
    assert_eq!(
        host.output,
        vec![
            "1 a\nb [c]\n".to_string(),
            "1\n".to_string(),
            "a\nb\n".to_string(),
            "[c]\n".to_string(),
            "1 \"a\\nb\" [\"c\"]\n".to_string(),
            "1 a\nb [c]".to_string(),
            "".to_string(),
        ]
    );
    let f = new_native_function(("puts".to_string(), Native::Puts));
    assert_eq!(f.call(f.clone(), vec![num(3)], env(), &mut host), Ok(new_null()));
    assert_eq!(host.output.last(), Some(&"3\n".to_string()));
}

#[test]
fn payloads_compare_by_shape_and_content() {
    assert_eq!(ValueType::Int(1), ValueType::Int(1));
    assert_ne!(ValueType::Int(1), ValueType::Bool(true));
    assert_ne!(ValueType::Str("1".to_string()), ValueType::Int(1));
    assert_eq!(ValueType::Null, ValueType::Null);
    assert_eq!(
        ValueType::Function(("f".to_string(), vec!["a".to_string()], vec![1])),
        ValueType::Function(("f".to_string(), vec!["a".to_string()], vec![1]))
    );
    assert_ne!(
        ValueType::Function(("f".to_string(), vec!["a".to_string()], vec![1])),
        ValueType::Function(("f".to_string(), vec!["b".to_string()], vec![1]))
    );
    assert_ne!(
        ValueType::NativeFunction(("f".to_string(), Native::Print)),
        ValueType::NativeFunction(("f".to_string(), Native::Puts))
    );
}

#[test]
fn the_character_at_an_index() {
    assert_eq!(char_at("abc", 0, 3), Ok(text("a")));
    assert_eq!(char_at("abc", 2, 3), Ok(text("c")));
    assert_eq!(char_at("abc", -1, 3), Ok(text("c")));
    assert_eq!(char_at("abc", -3, 3), Ok(text("a")));
    assert_eq!(char_at("abc", -4, 3), Err("String index -4 is out of range".to_string()));
    assert_eq!(char_at("abc", 3, 3), Err("String index 3 is out of range".to_string()));
    // a negative index counts back from the length that is given
    assert_eq!(char_at("abc", -1, 2), Ok(text("b")));
    assert_eq!(char_at("abc", -1, 5), Err("String index -1 is out of range".to_string()));
    assert_eq!(char_at("abc", -1, 0), Err("String index -1 is out of range".to_string()));
    // an index that is not negative ignores it
    assert_eq!(char_at("abc", 1, 0), Ok(text("b")));
    assert_eq!(char_at("abc", 1, -7), Ok(text("b")));
    assert_eq!(char_at("", 0, 0), Err("String index 0 is out of range".to_string()));
    assert_eq!(char_at("abc", i64::MIN, i64::MIN), Ok(text("a")));
    assert_eq!(
        char_at("abc", i64::MIN, 1),
        Err("String index -9223372036854775808 is out of range".to_string())
    );
}
