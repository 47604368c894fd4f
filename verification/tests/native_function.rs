use gorilla::builtin_types::bool::new_boolean;
use gorilla::builtin_types::integer::new_integer;
use gorilla::builtin_types::native_function::new_native_function;
use gorilla::env::Environment;
use gorilla::obj::Native;
use gorilla::vm::Host;

#[test]
fn basic() {
    let mut f = new_native_function(("idk".to_string(), Native::BooleanToInt));
    f.set_parent(new_boolean(true));
    assert_eq!(
        f.call(f.clone(), vec![], Environment::default(), &mut Host::new()).unwrap(),
        new_integer(1)
    )
}
