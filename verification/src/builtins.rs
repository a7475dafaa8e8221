//! The built-in functions: `len`, `first`, `last`, `push` and `removeAt`.
use vstd::prelude::*;
use crate::object::{
    Builtin, Object, SObject, duplicate_objects, lemma_object_model, object_model,
    objects_model, type_text,
};
use crate::text::{nat_text, usize_to_text};

verus! {

/// The error for a call with the wrong number of arguments.
pub open spec fn arity_error(got: nat, want: Seq<char>) -> SObject {
    SObject::Error("wrong number of arguments. got = "@ + nat_text(got) + ", want = "@ + want)
}

/// The error for an argument of a type that `name` does not take.
pub open spec fn unsupported_error(name: Seq<char>, arg: SObject) -> SObject {
    SObject::Error("argument to '"@ + name + "' not supported. got = "@ + type_text(arg))
}

/// `len(x)`: the length in bytes of a string, the number of elements of an
/// array.
pub open spec fn len_result(args: Seq<SObject>) -> SObject {
    if args.len() != 1 {
        arity_error(args.len(), "1"@)
    } else {
        match args[0] {
            SObject::Str(s) => SObject::Integer(vstd::utf8::encode_utf8(s).len() as i64),
            SObject::Array(v) => SObject::Integer(v.len() as i64),
            other => unsupported_error("len"@, other),
        }
    }
}

/// `first(x)`: the first character of a string, the first element of an
/// array.
pub open spec fn first_result(args: Seq<SObject>) -> SObject {
    if args.len() != 1 {
        arity_error(args.len(), "1"@)
    } else {
        match args[0] {
            SObject::Str(s) => if s.len() > 0 {
                SObject::Str(seq![s[0]])
            } else {
                SObject::Error("cannot get first of empty string"@)
            },
            SObject::Array(v) => if v.len() > 0 {
                v[0]
            } else {
                SObject::Error("cannot get first of empty array"@)
            },
            other => unsupported_error("first"@, other),
        }
    }
}

/// `last(x)`: the last character of a string, the last element of an array.
pub open spec fn last_result(args: Seq<SObject>) -> SObject {
    if args.len() != 1 {
        arity_error(args.len(), "1"@)
    } else {
        match args[0] {
            SObject::Str(s) => if s.len() > 0 {
                SObject::Str(seq![s.last()])
            } else {
                SObject::Error("cannot get last of empty string"@)
            },
            SObject::Array(v) => if v.len() > 0 {
                v.last()
            } else {
                SObject::Error("cannot get last of empty array"@)
            },
            other => unsupported_error("last"@, other),
        }
    }
}

/// `push(a, x)`: a new array, `a` with `x` at its end. (Its error for a first
/// argument that is no array names `last`.)
pub open spec fn push_result(args: Seq<SObject>) -> SObject {
    if args.len() != 2 {
        arity_error(args.len(), "2"@)
    } else {
        match args[0] {
            SObject::Array(v) => SObject::Array(v.push(args[1])),
            other => unsupported_error("last"@, other),
        }
    }
}

/// `removeAt(a, i)`: a new array, `a` without its element at index `i`.
pub open spec fn remove_at_result(args: Seq<SObject>) -> SObject {
    if args.len() != 2 {
        arity_error(args.len(), "2"@)
    } else {
        match (args[0], args[1]) {
            (SObject::Array(v), SObject::Integer(i)) => if i < 0 || i >= v.len() {
                SObject::Error("index out of bounds"@)
            } else {
                SObject::Array(v.remove(i as int))
            },
            (a, i) => SObject::Error(
                "argument to 'removeAt' not supported by "@ + type_text(a) + " with index of "@
                    + type_text(i) + ". expected array with int index"@,
            ),
        }
    }
}

/// What a built-in function gives for the given arguments.
pub open spec fn builtin_result(b: Builtin, args: Seq<SObject>) -> SObject {
    match b {
        Builtin::Len => len_result(args),
        Builtin::First => first_result(args),
        Builtin::Last => last_result(args),
        Builtin::Push => push_result(args),
        Builtin::RemoveAt => remove_at_result(args),
    }
}

/// The name under which a built-in function is bound.
pub open spec fn builtin_name(b: Builtin) -> Seq<char> {
    match b {
        Builtin::Len => "len"@,
        Builtin::First => "first"@,
        Builtin::Last => "last"@,
        Builtin::Push => "push"@,
        Builtin::RemoveAt => "removeAt"@,
    }
}

/// The built-in functions, in the order in which they are bound.
pub open spec fn builtin_order() -> Seq<Builtin> {
    seq![Builtin::Len, Builtin::First, Builtin::Last, Builtin::Push, Builtin::RemoveAt]
}

// ---------------------------------------------------------------------------

fn arity_error_object(got: usize, want: &str) -> (r: Object)
    ensures
        object_model(r) == arity_error(got as nat, want@),
{
    let mut out = String::from_str("wrong number of arguments. got = ");
    let n = usize_to_text(got);
    out.append(n.as_str());
    out.append(", want = ");
    out.append(want);
    let r = Object::Error(out);
    proof {
        lemma_object_model(r);
    }
    r
}

fn unsupported_object(name: &str, arg: &Object) -> (r: Object)
    ensures
        object_model(r) == unsupported_error(name@, object_model(*arg)),
{
    let mut out = String::from_str("argument to '");
    out.append(name);
    out.append("' not supported. got = ");
    let t = arg.object_type();
    out.append(t.as_str());
    let r = Object::Error(out);
    proof {
        lemma_object_model(r);
    }
    r
}

fn error_object(text: &str) -> (r: Object)
    ensures
        object_model(r) == SObject::Error(text@),
{
    let r = Object::Error(String::from_str(text));
    proof {
        lemma_object_model(r);
    }
    r
}

/// The characters of a string value's text.
fn chars_of(s: &String) -> (v: Vec<char>)
    ensures
        v@ == s@,
{
    crate::text::str_chars(s.as_str())
}

fn b_len(args: Vec<Object>) -> (r: Object)
    ensures
        object_model(r) == len_result(objects_model(args@)),
{
    if args.len() != 1 {
        return arity_error_object(args.len(), "1");
    }
    proof {
        lemma_object_model(args@[0]);
    }
    let r = match &args[0] {
        Object::String(s) => Object::Integer(s.len() as i64),
        Object::Array(arr) => Object::Integer(arr.len() as i64),
        other => return unsupported_object("len", other),
    };
    proof {
        lemma_object_model(r);
    }
    r
}

fn b_first(args: Vec<Object>) -> (r: Object)
    ensures
        object_model(r) == first_result(objects_model(args@)),
{
    if args.len() != 1 {
        return arity_error_object(args.len(), "1");
    }
    proof {
        lemma_object_model(args@[0]);
    }
    match &args[0] {
        Object::String(s) => {
            let chars = chars_of(s);
            if chars.len() > 0 {
                let mut out = String::new();
                out.push(chars[0]);
                let r = Object::String(out);
                proof {
                    lemma_object_model(r);
                    assert(out@ =~= seq![s@[0]]);
                }
                return r;
            }
            error_object("cannot get first of empty string")
        },
        Object::Array(arr) => {
            if arr.len() > 0 {
                return arr[0].duplicate();
            }
            error_object("cannot get first of empty array")
        },
        other => unsupported_object("first", other),
    }
}

fn b_last(args: Vec<Object>) -> (r: Object)
    ensures
        object_model(r) == last_result(objects_model(args@)),
{
    if args.len() != 1 {
        return arity_error_object(args.len(), "1");
    }
    proof {
        lemma_object_model(args@[0]);
    }
    match &args[0] {
        Object::String(s) => {
            let chars = chars_of(s);
            if chars.len() > 0 {
                let mut out = String::new();
                out.push(chars[chars.len() - 1]);
                let r = Object::String(out);
                proof {
                    lemma_object_model(r);
                    assert(out@ =~= seq![s@.last()]);
                }
                return r;
            }
            error_object("cannot get last of empty string")
        },
        Object::Array(arr) => {
            if arr.len() > 0 {
                return arr[arr.len() - 1].duplicate();
            }
            error_object("cannot get last of empty array")
        },
        other => unsupported_object("last", other),
    }
}

fn b_push(args: Vec<Object>) -> (r: Object)
    ensures
        object_model(r) == push_result(objects_model(args@)),
{
    if args.len() != 2 {
        return arity_error_object(args.len(), "2");
    }
    proof {
        lemma_object_model(args@[0]);
    }
    match &args[0] {
        Object::Array(arr) => {
            let mut new_arr = duplicate_objects(arr);
            let item = args[1].duplicate();
            new_arr.push(item);
            let r = Object::Array(new_arr);
            proof {
                lemma_object_model(r);
                assert(objects_model(new_arr@) =~= objects_model(arr@).push(
                    object_model(args@[1]),
                ));
            }
            r
        },
        other => unsupported_object("last", other),
    }
}

fn b_remove_at(args: Vec<Object>) -> (r: Object)
    ensures
        object_model(r) == remove_at_result(objects_model(args@)),
{
    if args.len() != 2 {
        return arity_error_object(args.len(), "2");
    }
    proof {
        lemma_object_model(args@[0]);
        lemma_object_model(args@[1]);
    }
    match (&args[0], &args[1]) {
        (Object::Array(arr), Object::Integer(idx)) => {
            if *idx < 0 || (*idx as u64) >= (arr.len() as u64) {
                return error_object("index out of bounds");
            }
            let mut new_arr = duplicate_objects(arr);
            new_arr.remove(*idx as usize);
            let r = Object::Array(new_arr);
            proof {
                lemma_object_model(r);
                assert(objects_model(new_arr@) =~= objects_model(arr@).remove(*idx as int));
            }
            r
        },
        (a, i) => {
            let mut out = String::from_str("argument to 'removeAt' not supported by ");
            let ta = a.object_type();
            out.append(ta.as_str());
            out.append(" with index of ");
            let ti = i.object_type();
            out.append(ti.as_str());
            out.append(". expected array with int index");
            let r = Object::Error(out);
            proof {
                lemma_object_model(r);
            }
            r
        },
    }
}

impl Builtin {
    /// Calls this built-in function on the given arguments.
    pub fn call(&self, args: Vec<Object>) -> (r: Object)
        ensures
            object_model(r) == builtin_result(*self, objects_model(args@)),
    {
        match self {
            Builtin::Len => b_len(args),
            Builtin::First => b_first(args),
            Builtin::Last => b_last(args),
            Builtin::Push => b_push(args),
            Builtin::RemoveAt => b_remove_at(args),
        }
    }
}

/// The table of built-in functions.
pub struct Builtins;

impl Builtins {
    /// Each built-in function under its name: `len`, `first`, `last`,
    /// `push`, `removeAt`, in that order.
    pub fn all_builtins(&self) -> (r: Vec<(String, Object)>)
        ensures
            r@.len() == builtin_order().len(),
            forall|k: int|
                0 <= k < r@.len() ==> (#[trigger] r@[k]).0@ == builtin_name(builtin_order()[k])
                    && r@[k].1 == Object::BuiltinFunction(builtin_order()[k]),
    {
        let mut r: Vec<(String, Object)> = Vec::new();
        r.push((String::from_str("len"), Object::BuiltinFunction(Builtin::Len)));
        r.push((String::from_str("first"), Object::BuiltinFunction(Builtin::First)));
        r.push((String::from_str("last"), Object::BuiltinFunction(Builtin::Last)));
        r.push((String::from_str("push"), Object::BuiltinFunction(Builtin::Push)));
        r.push((String::from_str("removeAt"), Object::BuiltinFunction(Builtin::RemoveAt)));
        r
    }
}

// ---------------------------------------------------------------------------
// Laws of the built-in functions.

/// `len(push(a, x))` is one more than `len(a)`.
pub proof fn law_len_of_push(v: Seq<SObject>, x: SObject)
    requires
        v.len() < i64::MAX,
    ensures
        len_result(seq![push_result(seq![SObject::Array(v), x])]) == SObject::Integer(
            (v.len() + 1) as i64,
        ),
{
}

/// `last(push(a, x))` is `x`, and `first(push([], x))` is `x`.
pub proof fn law_push_then_last(v: Seq<SObject>, x: SObject)
    ensures
        last_result(seq![push_result(seq![SObject::Array(v), x])]) == x,
        first_result(seq![push_result(seq![SObject::Array(seq![]), x])]) == x,
{
    assert(v.push(x).last() == x);
    assert(seq![].push(x)[0] == x);
}

/// `removeAt` at the index that `push` filled undoes the `push`.
pub proof fn law_remove_at_undoes_push(v: Seq<SObject>, x: SObject)
    requires
        v.len() <= i64::MAX,
    ensures
        remove_at_result(
            seq![push_result(seq![SObject::Array(v), x]), SObject::Integer(v.len() as i64)],
        ) == SObject::Array(v),
{
    assert(v.push(x).remove(v.len() as int) =~= v);
}

/// `removeAt(a, i)` at an index inside `a` gives an array one shorter, the
/// elements before `i` in place and those after it moved down by one.
pub proof fn law_remove_at_shortens(v: Seq<SObject>, i: i64)
    requires
        0 <= i < v.len(),
    ensures
        remove_at_result(seq![SObject::Array(v), SObject::Integer(i)]) matches SObject::Array(w)
            && w.len() == v.len() - 1
            && (forall|j: int| 0 <= j < i ==> w[j] == v[j])
            && (forall|j: int| i <= j < w.len() ==> w[j] == v[j + 1]),
{
}

/// `len` of an array is its number of elements, for every array, the empty
/// one included; `len` of a string is its length in UTF-8 bytes, `0` for the
/// empty string.
pub proof fn law_len_counts(v: Seq<SObject>, s: Seq<char>)
    ensures
        len_result(seq![SObject::Array(v)]) == SObject::Integer(v.len() as i64),
        len_result(seq![SObject::Array(seq![])]) == SObject::Integer(0),
        len_result(seq![SObject::Str(s)]) == SObject::Integer(
            vstd::utf8::encode_utf8(s).len() as i64,
        ),
{
}

/// `first` and `last` of a non-empty array are its first and last elements,
/// and of a one-element array both give that element.
pub proof fn law_first_last_of_array(v: Seq<SObject>, x: SObject)
    requires
        v.len() > 0,
    ensures
        first_result(seq![SObject::Array(v)]) == v[0],
        last_result(seq![SObject::Array(v)]) == v[v.len() - 1],
        first_result(seq![SObject::Array(seq![x])]) == x,
        last_result(seq![SObject::Array(seq![x])]) == x,
{
}

} // verus!
