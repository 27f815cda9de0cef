use lox::environment::{Environment, LoxObject};
use lox::runtime_error::RuntimeError;
use lox::text::SmartString;

fn float_of(r: Result<Option<LoxObject>, RuntimeError>) -> f64 {
    match r {
        Ok(Some(LoxObject::Float(bits))) => f64::from_bits(bits),
        other => panic!("not a number: {:?}", other),
    }
}

fn string_of(r: Result<Option<LoxObject>, RuntimeError>) -> String {
    match r {
        Ok(Some(LoxObject::String(s))) => s.as_str().to_string(),
        other => panic!("not a string: {:?}", other),
    }
}

#[test]
fn global_scope() {
    let mut env = Environment::new();
    env.define("a", Some(LoxObject::Float(3.0f64.to_bits())));
    assert_eq!(float_of(env.get("a")), 3.0);

    env.assign("a", LoxObject::String(SmartString::from("foo"))).unwrap();
    assert_eq!(string_of(env.get("a")), "foo");
}

#[test]
fn get_after_define_and_others_kept() {
    let mut env = Environment::new();
    env.define("a", Some(LoxObject::Float(1.0f64.to_bits())));
    env.define("b", Some(LoxObject::Float(2.0f64.to_bits())));
    env.define("a", Some(LoxObject::Float(5.0f64.to_bits())));
    assert_eq!(float_of(env.get("a")), 5.0);
    assert_eq!(float_of(env.get("b")), 2.0);
    env.define("c", None);
    assert!(matches!(env.get("c"), Ok(None)));
}

#[test]
fn undefined_variable() {
    let env = Environment::new();
    match env.get("nope") {
        Err(RuntimeError::Undefined(name)) => assert_eq!(name.as_str(), "nope"),
        other => panic!("{:?}", other),
    }
    assert!(matches!(env.get_global("nope"), Err(RuntimeError::Undefined(_))));
}

#[test]
fn scopes_shadow_and_are_undone() {
    let mut env = Environment::new();
    assert!(env.global());
    env.define("a", Some(LoxObject::Float(1.0f64.to_bits())));
    env.add_scope();
    assert!(!env.global());
    // A new scope hides nothing.
    assert_eq!(float_of(env.get("a")), 1.0);
    env.define("a", Some(LoxObject::Float(2.0f64.to_bits())));
    assert_eq!(float_of(env.get("a")), 2.0);
    assert_eq!(float_of(env.get_global("a")), 1.0);
    env.remove_scope();
    assert!(env.global());
    assert_eq!(float_of(env.get("a")), 1.0);
}

#[test]
fn assign_in_scopes_searches_only_scopes() {
    let mut env = Environment::new();
    env.define("g", Some(LoxObject::Float(1.0f64.to_bits())));
    env.add_scope();
    env.define("x", Some(LoxObject::Float(1.0f64.to_bits())));
    env.add_scope();
    // The variable of an outer nested scope is found and updated.
    env.assign("x", LoxObject::Bool(true)).unwrap();
    assert!(matches!(env.get("x"), Ok(Some(LoxObject::Bool(true)))));
    // A global variable is not searched from inside nested scopes.
    assert!(matches!(env.assign("g", LoxObject::Nil), Err(RuntimeError::Undefined(_))));
    assert_eq!(float_of(env.get("g")), 1.0);
    env.leave_scope();
    env.leave_scope();
    // At the global level, assigning an unbound variable fails but binds it.
    assert!(matches!(env.assign("h", LoxObject::Nil), Err(RuntimeError::Undefined(_))));
    assert!(matches!(env.get("h"), Ok(Some(LoxObject::Nil))));
}

#[test]
fn closure_environment_is_a_copy() {
    let mut env = Environment::new();
    env.add_scope();
    env.define("a", Some(LoxObject::Float(1.0f64.to_bits())));
    let kept = env.as_closure();
    env.define("a", Some(LoxObject::Float(9.0f64.to_bits())));
    assert_eq!(float_of(kept.get("a")), 1.0);
    assert_eq!(float_of(env.get("a")), 9.0);
}

#[test]
fn leave_scope_at_global_level_changes_nothing() {
    let mut env = Environment::new();
    env.define("a", Some(LoxObject::Nil));
    env.leave_scope();
    assert!(env.global());
    assert!(matches!(env.get("a"), Ok(Some(LoxObject::Nil))));
}

#[test]
fn leaving_a_scope_keeps_outer_names() {
    let mut env = Environment::new();
    env.add_scope();
    env.define("a", Some(LoxObject::Float(1.0f64.to_bits())));
    env.define("b", Some(LoxObject::Float(2.0f64.to_bits())));
    env.add_scope();
    env.define("b", Some(LoxObject::Float(7.0f64.to_bits())));
    env.define("c", None);
    env.assign("a", LoxObject::Float(3.0f64.to_bits())).unwrap();
    env.assign("b", LoxObject::Float(8.0f64.to_bits())).unwrap();
    env.remove_scope();
    // `a` was assigned without being defined in the inner scope: it keeps
    // what was assigned; `b` was defined there first, `c` only there.
    assert_eq!(float_of(env.get("a")), 3.0);
    assert_eq!(float_of(env.get("b")), 2.0);
    assert!(matches!(env.get("c"), Err(RuntimeError::Undefined(_))));
}

#[test]
fn assigning_through_a_scope() {
    let mut env = Environment::new();
    env.add_scope();
    env.define("a", Some(LoxObject::Float(1.0f64.to_bits())));
    env.add_scope();
    env.assign("a", LoxObject::Bool(true)).unwrap();
    env.remove_scope();
    assert!(matches!(env.get("a"), Ok(Some(LoxObject::Bool(true)))));
    // Where no scope was nested, a new scope's assignment reaches no global.
    let mut global = Environment::new();
    global.define("g", Some(LoxObject::Nil));
    global.add_scope();
    assert!(global.assign("g", LoxObject::Bool(true)).is_err());
    global.remove_scope();
    assert!(matches!(global.get("g"), Ok(Some(LoxObject::Nil))));
}
