use lib::ast::{ExpressionNode, StatementNode};
use lib::lexer::Lexer;
use lib::object::{Builtin, Environment, Function, HashKey, HashMapObject, HashStruct, Hashable, Object};
use lib::parser::Parser;

#[test]
fn test_string_hash_key() {
    let hello1 = Object::String("Hello World".to_string());
    let hello2 = Object::String("Hello World".to_string());
    let some_other = Object::String("Some Other".to_string());

    assert_eq!(
        hello1.hash_key(),
        hello2.hash_key(),
        "strings with same content have different hash keys"
    );
    assert_ne!(
        hello1.hash_key(),
        some_other.hash_key(),
        "strings with different content have same hash keys"
    );
}

#[test]
fn keys_of_booleans_integers_and_others() {
    assert_eq!(
        Object::Boolean(true).hash_key(),
        Ok(HashKey { object_type: "bool".to_string(), value: 1 })
    );
    assert_eq!(
        Object::Boolean(false).hash_key(),
        Ok(HashKey { object_type: "bool".to_string(), value: 0 })
    );
    assert_eq!(
        Object::Integer(-7).hash_key(),
        Ok(HashKey { object_type: "int".to_string(), value: -7 })
    );
    assert_eq!(Object::Null.hash_key(), Err("cannot hash type t_null".to_string()));
    assert_eq!(Object::Array(vec![]).hash_key(), Err("cannot hash type t_array".to_string()));
    let ret = Object::ReturnValue(Box::new(Object::Integer(1)));
    assert_eq!(ret.hash_key(), Err("cannot hash type t_return_of<int>".to_string()));
}

#[test]
fn string_key_carries_its_hash() {
    let k = HashKey::for_string_hash(u64::MAX);
    assert_eq!(k, HashKey { object_type: "str".to_string(), value: -1 });
    let k = HashKey::for_string_hash(42);
    assert_eq!(k.value, 42);
    match Object::String("x".to_string()).hash_key() {
        Ok(key) => assert_eq!(key.object_type, "str"),
        Err(e) => panic!("no key: {}", e),
    }
    let a = Object::String("a".to_string()).hash_key().unwrap();
    let b = Object::String("b".to_string()).hash_key().unwrap();
    assert_ne!(a.value, b.value);
}

#[test]
fn object_types() {
    assert_eq!(Object::Integer(1).object_type(), "int");
    assert_eq!(Object::Boolean(true).object_type(), "bool");
    assert_eq!(Object::Error("e".to_string()).object_type(), "t_error");
    assert_eq!(Object::String("s".to_string()).object_type(), "str");
    assert_eq!(Object::BuiltinFunction(Builtin::Len).object_type(), "t_func");
    assert_eq!(Object::Array(vec![]).object_type(), "t_array");
    assert_eq!(Object::Hash(HashStruct { pairs: vec![] }).object_type(), "t_hash");
    assert_eq!(Object::Null.object_type(), "t_null");
    let nested = Object::ReturnValue(Box::new(Object::ReturnValue(Box::new(Object::Boolean(false)))));
    assert_eq!(nested.object_type(), "t_return_of<t_return_of<bool>>");
    assert!(matches!(Object::default(), Object::Null));
}

fn function_value(input: &str) -> Function {
    let mut parser = Parser::new(Lexer::new(input));
    let program = parser.parse_program().unwrap();
    match &program.statements[0] {
        StatementNode::Expression(e) => match e.expression.as_ref().unwrap() {
            ExpressionNode::Funcion(f) => Function {
                parameters: lib::ast::duplicate_identifiers(&f.parameters),
                body: f.body.duplicate(),
                env: Environment::new(),
            },
            other => panic!("not a function: {:?}", other),
        },
        other => panic!("not an expression statement: {:?}", other),
    }
}

#[test]
fn values_print() {
    assert_eq!(Object::Integer(-42).display_string(), "-42");
    assert_eq!(Object::Integer(i64::MIN).display_string(), "-9223372036854775808");
    assert_eq!(Object::Boolean(true).display_string(), "true");
    assert_eq!(Object::Null.display_string(), "null");
    assert_eq!(Object::Error("boom".to_string()).display_string(), "boom");
    assert_eq!(Object::String("hi there".to_string()).display_string(), "hi there");
    assert_eq!(Object::BuiltinFunction(Builtin::Push).display_string(), "builtin_t_func");
    assert_eq!(
        Object::ReturnValue(Box::new(Object::Integer(5))).display_string(),
        "5"
    );
    let arr = Object::Array(vec![
        Object::Integer(1),
        Object::Boolean(false),
        Object::Null,
        Object::Array(vec![Object::String("a".to_string())]),
    ]);
    assert_eq!(arr.display_string(), "[1, false, null, [a]]");
    assert_eq!(Object::Array(vec![]).display_string(), "[]");
    let hash = Object::Hash(HashStruct {
        pairs: vec![
            (
                HashKey { object_type: "int".to_string(), value: 1 },
                HashMapObject { key: Object::Integer(1), value: Object::String("one".to_string()) },
            ),
            (
                HashKey { object_type: "bool".to_string(), value: 1 },
                HashMapObject { key: Object::Boolean(true), value: Object::Integer(2) },
            ),
        ],
    });
    assert_eq!(hash.display_string(), "{1 : one, true : 2}");
    let f = Object::Function(function_value("fn(x, y) { x + y; }"));
    assert_eq!(f.display_string(), "fn(x, y) {\n(x + y)\n}");
    let g = Object::Function(function_value("fn() { }"));
    assert_eq!(g.display_string(), "fn() {\n\n}");
}

#[test]
fn copies_print_the_same() {
    let f = Object::Function(function_value("fn(a) { a * 2 }"));
    let arr = Object::Array(vec![Object::Integer(3), f, Object::String("s".to_string())]);
    let copy = arr.duplicate();
    assert_eq!(copy.display_string(), arr.display_string());
    assert_eq!(copy.display_string(), "[3, fn(a) {\n(a * 2)\n}, s]");
}

fn looked_up(env: &Environment, name: &str) -> Option<String> {
    env.get(name.to_string()).map(|o| o.display_string())
}

#[test]
fn new_scope_holds_builtins() {
    let env = Environment::new();
    for name in ["len", "first", "last", "push", "removeAt"] {
        assert_eq!(looked_up(&env, name), Some("builtin_t_func".to_string()));
    }
    assert!(matches!(env.get("len".to_string()), Some(Object::BuiltinFunction(Builtin::Len))));
    assert!(matches!(
        env.get("removeAt".to_string()),
        Some(Object::BuiltinFunction(Builtin::RemoveAt))
    ));
    assert_eq!(looked_up(&env, "x"), None);
}

#[test]
fn get_after_set() {
    let mut env = Environment::new();
    let r = env.set("x".to_string(), Object::Integer(5));
    assert!(matches!(r, Some(Object::Integer(5))));
    assert_eq!(looked_up(&env, "x"), Some("5".to_string()));
    let r = env.set("x".to_string(), Object::Boolean(true));
    assert!(matches!(r, Some(Object::Boolean(true))));
    assert_eq!(looked_up(&env, "x"), Some("true".to_string()));
    env.set("y".to_string(), Object::Integer(7));
    assert_eq!(looked_up(&env, "x"), Some("true".to_string()));
    assert_eq!(looked_up(&env, "y"), Some("7".to_string()));
    env.set("len".to_string(), Object::Null);
    assert_eq!(looked_up(&env, "len"), Some("null".to_string()));
    assert_eq!(looked_up(&env, "first"), Some("builtin_t_func".to_string()));
}

#[test]
fn enclosed_scope_sees_outer() {
    let mut outer = Environment::new();
    outer.set("a".to_string(), Object::Integer(1));
    outer.set("b".to_string(), Object::Integer(2));
    let mut inner = Environment::new_enclosed_environment(Box::new(outer));
    inner.set("b".to_string(), Object::Integer(20));
    assert_eq!(looked_up(&inner, "a"), Some("1".to_string()));
    assert_eq!(looked_up(&inner, "b"), Some("20".to_string()));
    assert_eq!(looked_up(&inner, "c"), None);
    assert_eq!(looked_up(&inner, "len"), Some("builtin_t_func".to_string()));
    let copy = inner.duplicate();
    assert_eq!(looked_up(&copy, "a"), Some("1".to_string()));
    assert_eq!(looked_up(&copy, "b"), Some("20".to_string()));
}

#[test]
fn scope_binds_each_name_once() {
    let mut env = Environment::new();
    let names: Vec<&str> = env.store.iter().map(|(n, _)| n.as_str()).collect();
    assert_eq!(names, vec!["len", "first", "last", "push", "removeAt"]);
    env.set("x".to_string(), Object::Integer(1));
    assert_eq!(env.store.len(), 6);
    env.set("x".to_string(), Object::Integer(2));
    env.set("len".to_string(), Object::Null);
    assert_eq!(env.store.len(), 6);
    let names: Vec<&str> = env.store.iter().map(|(n, _)| n.as_str()).collect();
    assert_eq!(names, vec!["len", "first", "last", "push", "removeAt", "x"]);
    let inner = Environment::new_enclosed_environment(Box::new(env));
    assert_eq!(inner.store.len(), 5);
}

#[test]
fn values_clone() {
    let arr = Object::Array(vec![Object::Integer(3), Object::String("s".to_string())]);
    assert_eq!(arr.clone().display_string(), "[3, s]");
    let mut env = Environment::new();
    env.set("a".to_string(), Object::Boolean(true));
    let copy = env.clone();
    assert_eq!(copy.get("a".to_string()).unwrap().display_string(), "true");
    let key = HashKey { object_type: "int".to_string(), value: 4 };
    assert_eq!(key.clone(), key);
    let entry = HashMapObject { key: Object::Integer(1), value: Object::Null };
    assert_eq!(entry.clone().value.display_string(), "null");
    let hash = HashStruct { pairs: vec![(key.clone(), entry)] };
    assert_eq!(Object::Hash(hash.clone()).display_string(), "{1 : null}");
    let f = function_value("fn(q) { q }");
    assert_eq!(Object::Function(f.clone()).display_string(), "fn(q) {\nq\n}");
}
