use lib::builtins::Builtins;
use lib::object::{Builtin, Object};

fn s(text: &str) -> Object {
    Object::String(text.to_string())
}

fn shown(o: Object) -> String {
    o.display_string()
}

#[test]
fn all_builtins_in_order() {
    let all = Builtins.all_builtins();
    let names: Vec<&str> = all.iter().map(|(n, _)| n.as_str()).collect();
    assert_eq!(names, vec!["len", "first", "last", "push", "removeAt"]);
    assert!(matches!(all[0].1, Object::BuiltinFunction(Builtin::Len)));
    assert!(matches!(all[1].1, Object::BuiltinFunction(Builtin::First)));
    assert!(matches!(all[2].1, Object::BuiltinFunction(Builtin::Last)));
    assert!(matches!(all[3].1, Object::BuiltinFunction(Builtin::Push)));
    assert!(matches!(all[4].1, Object::BuiltinFunction(Builtin::RemoveAt)));
}

#[test]
fn len_counts_bytes_and_elements() {
    assert!(matches!(Builtin::Len.call(vec![s("hello")]), Object::Integer(5)));
    assert!(matches!(Builtin::Len.call(vec![s("")]), Object::Integer(0)));
    assert!(matches!(Builtin::Len.call(vec![s("héllo")]), Object::Integer(6)));
    assert!(matches!(
        Builtin::Len.call(vec![Object::Array(vec![Object::Null, Object::Integer(1)])]),
        Object::Integer(2)
    ));
    assert_eq!(
        shown(Builtin::Len.call(vec![Object::Integer(1)])),
        "argument to 'len' not supported. got = int"
    );
    assert_eq!(
        shown(Builtin::Len.call(vec![])),
        "wrong number of arguments. got = 0, want = 1"
    );
    assert_eq!(
        shown(Builtin::Len.call(vec![s("a"), s("b")])),
        "wrong number of arguments. got = 2, want = 1"
    );
}

#[test]
fn first_and_last() {
    assert_eq!(shown(Builtin::First.call(vec![s("héllo")])), "h");
    assert_eq!(shown(Builtin::Last.call(vec![s("héllo")])), "o");
    assert_eq!(shown(Builtin::Last.call(vec![s("ñé")])), "é");
    assert_eq!(shown(Builtin::First.call(vec![s("")])), "cannot get first of empty string");
    assert_eq!(shown(Builtin::Last.call(vec![s("")])), "cannot get last of empty string");
    let arr = || Object::Array(vec![Object::Integer(1), Object::Integer(2), Object::Integer(3)]);
    assert!(matches!(Builtin::First.call(vec![arr()]), Object::Integer(1)));
    assert!(matches!(Builtin::Last.call(vec![arr()]), Object::Integer(3)));
    assert_eq!(
        shown(Builtin::First.call(vec![Object::Array(vec![])])),
        "cannot get first of empty array"
    );
    assert_eq!(
        shown(Builtin::Last.call(vec![Object::Array(vec![])])),
        "cannot get last of empty array"
    );
    assert_eq!(
        shown(Builtin::First.call(vec![Object::Boolean(true)])),
        "argument to 'first' not supported. got = bool"
    );
    assert_eq!(
        shown(Builtin::Last.call(vec![Object::Null])),
        "argument to 'last' not supported. got = t_null"
    );
    assert_eq!(
        shown(Builtin::First.call(vec![])),
        "wrong number of arguments. got = 0, want = 1"
    );
}

#[test]
fn push_appends_to_a_new_array() {
    let pushed = Builtin::Push.call(vec![
        Object::Array(vec![Object::Integer(1)]),
        Object::Boolean(true),
    ]);
    assert_eq!(shown(pushed), "[1, true]");
    let pushed = Builtin::Push.call(vec![Object::Array(vec![]), s("x")]);
    assert!(matches!(Builtin::Len.call(vec![pushed]), Object::Integer(1)));
    let pushed = Builtin::Push.call(vec![Object::Array(vec![Object::Integer(4)]), s("x")]);
    assert_eq!(shown(Builtin::Last.call(vec![pushed])), "x");
    assert_eq!(
        shown(Builtin::Push.call(vec![Object::Integer(1), Object::Integer(2)])),
        "argument to 'last' not supported. got = int"
    );
    assert_eq!(
        shown(Builtin::Push.call(vec![Object::Array(vec![])])),
        "wrong number of arguments. got = 1, want = 2"
    );
}

#[test]
fn remove_at_removes_one_element() {
    let arr = || Object::Array(vec![Object::Integer(1), Object::Integer(2), Object::Integer(3)]);
    assert_eq!(shown(Builtin::RemoveAt.call(vec![arr(), Object::Integer(0)])), "[2, 3]");
    assert_eq!(shown(Builtin::RemoveAt.call(vec![arr(), Object::Integer(1)])), "[1, 3]");
    assert_eq!(shown(Builtin::RemoveAt.call(vec![arr(), Object::Integer(2)])), "[1, 2]");
    assert_eq!(
        shown(Builtin::RemoveAt.call(vec![arr(), Object::Integer(3)])),
        "index out of bounds"
    );
    assert_eq!(
        shown(Builtin::RemoveAt.call(vec![arr(), Object::Integer(-1)])),
        "index out of bounds"
    );
    assert_eq!(
        shown(Builtin::RemoveAt.call(vec![arr(), s("0")])),
        "argument to 'removeAt' not supported by t_array with index of str. expected array with int index"
    );
    assert_eq!(
        shown(Builtin::RemoveAt.call(vec![arr()])),
        "wrong number of arguments. got = 1, want = 2"
    );
    let pushed = Builtin::Push.call(vec![arr(), Object::Null]);
    assert_eq!(shown(Builtin::RemoveAt.call(vec![pushed, Object::Integer(3)])), "[1, 2, 3]");
}
