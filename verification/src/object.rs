//! Runtime values, their mathematical model, and the environment that binds
//! names to them.
use vstd::prelude::*;
use crate::builtins::{builtin_name, builtin_order, Builtins};
use crate::text::{
    bool_text, bool_to_text, digit_char, int_text, int_to_text, join_spec, join_strings, nat_text,
    string_views,
};
use crate::ast::{
    Node, ident_values, lemma_block_model, print_block,
    block_model, duplicate_identifiers, idents_model, BlockStatement, Identifier, SBlock, SIdent,
};

verus! {

/// The built-in functions.
#[derive(Clone, Copy, PartialEq, Eq, Structural, Debug)]
pub enum Builtin {
    Len,
    First,
    Last,
    Push,
    RemoveAt,
}

/// A runtime value.
#[derive(Debug)]
pub enum Object {
    Integer(i64),
    Boolean(bool),
    ReturnValue(Box<Object>),
    Error(String),
    Function(Function),
    String(String),
    BuiltinFunction(Builtin),
    Array(Vec<Object>),
    Hash(HashStruct),
    Null,
}

/// The bindings of a scope, each later binding of a name hiding an earlier
/// one, and the scope it is nested in.
#[derive(Debug)]
pub struct Environment {
    pub store: Vec<(String, Object)>,
    pub outer: Option<Box<Environment>>,
}

/// A function value: its parameters, its body and the scope it closes over.
#[derive(Debug)]
pub struct Function {
    pub parameters: Vec<Identifier>,
    pub body: BlockStatement,
    pub env: Environment,
}

/// The key under which a value is stored in a hash: its type and a number.
#[derive(PartialEq, Eq, Hash, Debug)]
pub struct HashKey {
    pub object_type: String,
    pub value: i64,
}

/// A key and its value, as stored in a hash.
#[derive(Debug)]
pub struct HashMapObject {
    pub key: Object,
    pub value: Object,
}

/// A hash: its entries, each under the key of its own key object, no key
/// occurring twice (see `wf`).
#[derive(Debug)]
pub struct HashStruct {
    pub pairs: Vec<(HashKey, HashMapObject)>,
}

// ---------------------------------------------------------------------------
// The mathematical model.

pub struct SHashKey {
    pub object_type: Seq<char>,
    pub value: i64,
}

pub struct SPair {
    pub hash_key: SHashKey,
    pub key: SObject,
    pub value: SObject,
}

pub enum SObject {
    Integer(i64),
    Boolean(bool),
    ReturnValue(Box<SObject>),
    Error(Seq<char>),
    Function { parameters: Seq<SIdent>, body: SBlock, env: SEnv },
    Str(Seq<char>),
    Builtin(Builtin),
    Array(Seq<SObject>),
    Hash(Seq<SPair>),
    Null,
}

/// A scope: what each name is bound to, and the enclosing scope.
pub struct SEnv {
    pub store: Map<Seq<char>, SObject>,
    pub outer: Option<Box<SEnv>>,
}

pub open spec fn key_model(k: HashKey) -> SHashKey {
    SHashKey { object_type: k.object_type@, value: k.value }
}

/// The map that a sequence of bindings gives, a later binding of a name
/// replacing an earlier one.
pub open spec fn bindings_map(b: Seq<(Seq<char>, SObject)>) -> Map<Seq<char>, SObject>
    decreases b.len(),
{
    if b.len() == 0 {
        Map::empty()
    } else {
        bindings_map(b.drop_last()).insert(b.last().0, b.last().1)
    }
}

/// The model of a value.
#[verifier::opaque]
pub open spec fn object_model(o: Object) -> SObject
    decreases o, 2int,
{
    match o {
        Object::Integer(i) => SObject::Integer(i),
        Object::Boolean(b) => SObject::Boolean(b),
        Object::ReturnValue(b) => SObject::ReturnValue(Box::new(object_model(*b))),
        Object::Error(s) => SObject::Error(s@),
        Object::Function(f) => SObject::Function {
            parameters: idents_model(f.parameters@),
            body: block_model(f.body),
            env: env_model(f.env),
        },
        Object::String(s) => SObject::Str(s@),
        Object::BuiltinFunction(b) => SObject::Builtin(b),
        Object::Array(v) => SObject::Array(
            Seq::new(
                v@.len(),
                |k: int|
                    if 0 <= k < v@.len() {
                        object_model(v@[k])
                    } else {
                        SObject::Null
                    },
            ),
        ),
        Object::Hash(h) => SObject::Hash(
            Seq::new(
                h.pairs@.len(),
                |k: int|
                    if 0 <= k < h.pairs@.len() {
                        SPair {
                            hash_key: key_model(h.pairs@[k].0),
                            key: object_model(h.pairs@[k].1.key),
                            value: object_model(h.pairs@[k].1.value),
                        }
                    } else {
                        SPair {
                            hash_key: SHashKey { object_type: seq![], value: 0 },
                            key: SObject::Null,
                            value: SObject::Null,
                        }
                    },
            ),
        ),
        Object::Null => SObject::Null,
    }
}

/// The models of the bindings of a scope, in order.
#[verifier::opaque]
pub open spec fn store_model(e: Environment) -> Seq<(Seq<char>, SObject)>
    decreases e, 0int,
{
    Seq::new(
        e.store@.len(),
        |k: int|
            if 0 <= k < e.store@.len() {
                (e.store@[k].0@, object_model(e.store@[k].1))
            } else {
                (seq![], SObject::Null)
            },
    )
}

/// The model of a scope.
#[verifier::opaque]
pub open spec fn env_model(e: Environment) -> SEnv
    decreases e, 1int,
{
    SEnv {
        store: bindings_map(store_model(e)),
        outer: match e.outer {
            Some(b) => Some(Box::new(env_model(*b))),
            None => None,
        },
    }
}

/// The models of a sequence of values, in order.
pub open spec fn objects_model(v: Seq<Object>) -> Seq<SObject> {
    v.map_values(|o: Object| object_model(o))
}

/// The model of a hash entry.
pub open spec fn pair_model(p: (HashKey, HashMapObject)) -> SPair {
    SPair { hash_key: key_model(p.0), key: object_model(p.1.key), value: object_model(p.1.value) }
}

/// The models of the entries of a hash, in order.
pub open spec fn pairs_model(v: Seq<(HashKey, HashMapObject)>) -> Seq<SPair> {
    v.map_values(|p: (HashKey, HashMapObject)| pair_model(p))
}

/// The model of the bindings of a scope, in order.
pub open spec fn bindings_model(v: Seq<(String, Object)>) -> Seq<(Seq<char>, SObject)> {
    v.map_values(|b: (String, Object)| (b.0@, object_model(b.1)))
}

/// The model of a value, one level down.
pub proof fn lemma_object_model(o: Object)
    ensures
        object_model(o) == (match o {
            Object::Integer(i) => SObject::Integer(i),
            Object::Boolean(b) => SObject::Boolean(b),
            Object::ReturnValue(b) => SObject::ReturnValue(Box::new(object_model(*b))),
            Object::Error(s) => SObject::Error(s@),
            Object::Function(f) => SObject::Function {
                parameters: idents_model(f.parameters@),
                body: block_model(f.body),
                env: env_model(f.env),
            },
            Object::String(s) => SObject::Str(s@),
            Object::BuiltinFunction(b) => SObject::Builtin(b),
            Object::Array(v) => SObject::Array(objects_model(v@)),
            Object::Hash(h) => SObject::Hash(pairs_model(h.pairs@)),
            Object::Null => SObject::Null,
        }),
{
    reveal(object_model);
    reveal(store_model);
    reveal(env_model);
    match o {
        Object::Array(v) => {
            let m = object_model(o);
            assert(m->Array_0 =~= objects_model(v@));
        },
        Object::Hash(h) => {
            let m = object_model(o);
            assert(m->Hash_0 =~= pairs_model(h.pairs@));
        },
        _ => {},
    }
}

/// The model of a scope, one level down.
pub proof fn lemma_env_model(e: Environment)
    ensures
        env_model(e) == (SEnv {
            store: bindings_map(bindings_model(e.store@)),
            outer: match e.outer {
                Some(b) => Some(Box::new(env_model(*b))),
                None => None,
            },
        }),
{
    reveal(object_model);
    reveal(store_model);
    reveal(env_model);
    assert(store_model(e) =~= bindings_model(e.store@));
}

// ---------------------------------------------------------------------------
// Copies of values.

impl HashKey {
    /// A copy of this key.
    pub fn duplicate(&self) -> (r: HashKey)
        ensures
            r == *self,
    {
        HashKey { object_type: self.object_type.clone(), value: self.value }
    }
}

impl Object {
    /// A copy of this value, with the same model.
    pub fn duplicate(&self) -> (r: Object)
        ensures
            object_model(r) == object_model(*self),
        decreases self,
    {
        proof {
            lemma_object_model(*self);
        }
        let r = match self {
            Object::Integer(i) => Object::Integer(*i),
            Object::Boolean(b) => Object::Boolean(*b),
            Object::ReturnValue(b) => Object::ReturnValue(Box::new(b.duplicate())),
            Object::Error(s) => Object::Error(s.clone()),
            Object::Function(f) => Object::Function(f.duplicate()),
            Object::String(s) => Object::String(s.clone()),
            Object::BuiltinFunction(b) => Object::BuiltinFunction(*b),
            Object::Array(v) => Object::Array(duplicate_objects(v)),
            Object::Hash(h) => Object::Hash(h.duplicate()),
            Object::Null => Object::Null,
        };
        proof {
            lemma_object_model(r);
        }
        r
    }
}

/// A copy of a list of values, with the same models.
pub fn duplicate_objects(v: &Vec<Object>) -> (r: Vec<Object>)
    ensures
        objects_model(r@) == objects_model(v@),
    decreases v,
{
    let mut r: Vec<Object> = Vec::new();
    let mut k: usize = 0;
    while k < v.len()
        invariant
            k <= v.len(),
            r@.len() == k,
            forall|j: int| 0 <= j < k ==> object_model(#[trigger] r@[j]) == object_model(v@[j]),
        decreases v.len() - k,
    {
        proof {
            assert(decreases_to!(*v => v@[k as int]));
        }
        let o = v[k].duplicate();
        r.push(o);
        k = k + 1;
    }
    assert(objects_model(r@) =~= objects_model(v@));
    r
}

/// No key occurs twice among the entries.
pub open spec fn distinct_keys(p: Seq<SPair>) -> bool {
    forall|i: int, j: int|
        0 <= i < p.len() && 0 <= j < p.len() && i != j ==> (#[trigger] p[i]).hash_key
            != (#[trigger] p[j]).hash_key
}

impl HashStruct {
    /// A well-formed hash holds each key once.
    pub open spec fn wf(&self) -> bool {
        distinct_keys(pairs_model(self.pairs@))
    }

    /// A copy of this hash, with the same model.
    pub fn duplicate(&self) -> (r: HashStruct)
        ensures
            pairs_model(r.pairs@) == pairs_model(self.pairs@),
            r.wf() == self.wf(),
        decreases self,
    {
        let mut pairs: Vec<(HashKey, HashMapObject)> = Vec::new();
        let mut k: usize = 0;
        while k < self.pairs.len()
            invariant
                k <= self.pairs.len(),
                pairs@.len() == k,
                forall|j: int|
                    0 <= j < k ==> pair_model(#[trigger] pairs@[j]) == pair_model(self.pairs@[j]),
            decreases self.pairs.len() - k,
        {
            let entry = &self.pairs[k];
            proof {
                assert(decreases_to!(*self => self.pairs@[k as int].1.key));
                assert(decreases_to!(*self => self.pairs@[k as int].1.value));
            }
            let key = entry.1.key.duplicate();
            let value = entry.1.value.duplicate();
            pairs.push((entry.0.duplicate(), HashMapObject { key, value }));
            k = k + 1;
        }
        assert(pairs_model(pairs@) =~= pairs_model(self.pairs@));
        HashStruct { pairs }
    }
}

impl Function {
    /// A copy of this function, with the same parameters, body and scope.
    pub fn duplicate(&self) -> (r: Function)
        ensures
            r.parameters@ == self.parameters@,
            block_model(r.body) == block_model(self.body),
            env_model(r.env) == env_model(self.env),
        decreases self,
    {
        Function {
            parameters: duplicate_identifiers(&self.parameters),
            body: self.body.duplicate(),
            env: self.env.duplicate(),
        }
    }
}

impl Environment {
    /// A copy of this scope, with the same model.
    pub fn duplicate(&self) -> (r: Environment)
        ensures
            env_model(r) == env_model(*self),
            store_names(r.store@) == store_names(self.store@),
        decreases self,
    {
        let mut store: Vec<(String, Object)> = Vec::new();
        let mut k: usize = 0;
        while k < self.store.len()
            invariant
                k <= self.store.len(),
                store@.len() == k,
                forall|j: int|
                    0 <= j < k ==> (#[trigger] store@[j]).0@ == self.store@[j].0@ && object_model(
                        store@[j].1,
                    ) == object_model(self.store@[j].1),
            decreases self.store.len() - k,
        {
            proof {
                assert(decreases_to!(*self => self.store@[k as int].1));
            }
            let value = self.store[k].1.duplicate();
            store.push((self.store[k].0.clone(), value));
            k = k + 1;
        }
        let outer = match &self.outer {
            Some(b) => Some(Box::new(b.duplicate())),
            None => None,
        };
        let r = Environment { store, outer };
        proof {
            lemma_env_model(r);
            lemma_env_model(*self);
            assert(bindings_model(r.store@) =~= bindings_model(self.store@));
            assert(store_names(r.store@) =~= store_names(self.store@));
        }
        r
    }
}

// ---------------------------------------------------------------------------
// Scopes.

/// What `name` is bound to in a scope: its own binding, else the one of the
/// enclosing scope, else nothing.
pub open spec fn env_lookup(e: SEnv, name: Seq<char>) -> Option<SObject>
    decreases e,
{
    if e.store.contains_key(name) {
        Some(e.store[name])
    } else {
        match e.outer {
            Some(o) => env_lookup(*o, name),
            None => None,
        }
    }
}

/// A scope with `name` bound to `value` in its own bindings.
pub open spec fn env_set(e: SEnv, name: Seq<char>, value: SObject) -> SEnv {
    SEnv { store: e.store.insert(name, value), outer: e.outer }
}

/// The bindings of the built-in functions, in order.
pub open spec fn builtin_bindings() -> Seq<(Seq<char>, SObject)> {
    builtin_order().map_values(|b: Builtin| (builtin_name(b), SObject::Builtin(b)))
}

/// The bindings with which every scope starts.
pub open spec fn builtins_map() -> Map<Seq<char>, SObject> {
    bindings_map(builtin_bindings())
}

/// The model of an optional value.
pub open spec fn opt_object_model(o: Option<Object>) -> Option<SObject> {
    match o {
        Some(x) => Some(object_model(x)),
        None => None,
    }
}

/// A binding found at index `k`, with no later binding of the same name,
/// is what the bindings give for that name.
proof fn lemma_bindings_map_found(b: Seq<(Seq<char>, SObject)>, k: int)
    requires
        0 <= k < b.len(),
        forall|j: int| k < j < b.len() ==> (#[trigger] b[j]).0 != b[k].0,
    ensures
        bindings_map(b).contains_key(b[k].0),
        bindings_map(b)[b[k].0] == b[k].1,
    decreases b.len(),
{
    if k < b.len() - 1 {
        let d = b.drop_last();
        assert forall|j: int| k < j < d.len() implies (#[trigger] d[j]).0 != d[k].0 by {
            assert(d[j] == b[j]);
        }
        lemma_bindings_map_found(d, k);
        assert(b.last() == b[b.len() - 1]);
    }
}

/// A name bound nowhere in the bindings is not in their map.
proof fn lemma_bindings_map_absent(b: Seq<(Seq<char>, SObject)>, name: Seq<char>)
    requires
        forall|j: int| 0 <= j < b.len() ==> (#[trigger] b[j]).0 != name,
    ensures
        !bindings_map(b).contains_key(name),
    decreases b.len(),
{
    if b.len() > 0 {
        let d = b.drop_last();
        assert forall|j: int| 0 <= j < d.len() implies (#[trigger] d[j]).0 != name by {
            assert(d[j] == b[j]);
        }
        lemma_bindings_map_absent(d, name);
        assert(b.last() == b[b.len() - 1]);
    }
}

/// Replacing the last binding of a name rebinds that name.
proof fn lemma_bindings_map_update(b: Seq<(Seq<char>, SObject)>, k: int, v: SObject)
    requires
        0 <= k < b.len(),
        forall|j: int| k < j < b.len() ==> (#[trigger] b[j]).0 != b[k].0,
    ensures
        bindings_map(b.update(k, (b[k].0, v))) == bindings_map(b).insert(b[k].0, v),
    decreases b.len(),
{
    let n = b[k].0;
    let u = b.update(k, (n, v));
    if k == b.len() - 1 {
        assert(u.drop_last() =~= b.drop_last());
        assert(bindings_map(u) =~= bindings_map(b).insert(n, v));
    } else {
        let d = b.drop_last();
        assert forall|j: int| k < j < d.len() implies (#[trigger] d[j]).0 != d[k].0 by {
            assert(d[j] == b[j]);
        }
        lemma_bindings_map_update(d, k, v);
        assert(u.drop_last() =~= d.update(k, (n, v)));
        assert(b.last() == b[b.len() - 1]);
        assert(u.last() == b.last());
        assert(bindings_map(u) =~= bindings_map(b).insert(n, v));
    }
}

/// Bindings appended after others are looked up after them.
proof fn lemma_bindings_model_push(v: Seq<(String, Object)>, x: (String, Object))
    ensures
        bindings_model(v.push(x)) == bindings_model(v).push((x.0@, object_model(x.1))),
{
    assert(bindings_model(v.push(x)) =~= bindings_model(v).push((x.0@, object_model(x.1))));
}

/// The names bound in a sequence of bindings, in order.
pub open spec fn store_names(v: Seq<(String, Object)>) -> Seq<Seq<char>> {
    v.map_values(|b: (String, Object)| b.0@)
}

/// No name occurs twice.
pub open spec fn names_distinct(n: Seq<Seq<char>>) -> bool {
    forall|i: int, j: int| 0 <= i < n.len() && 0 <= j < n.len() && i != j ==> n[i] != n[j]
}

/// The names of the built-in functions, in the order in which they are bound.
pub open spec fn builtin_names() -> Seq<Seq<char>> {
    builtin_order().map_values(|b: Builtin| builtin_name(b))
}

/// The built-in functions have five different names.
proof fn lemma_builtin_names_distinct()
    ensures
        builtin_names().len() == 5,
        names_distinct(builtin_names()),
{
    reveal_strlit("len");
    reveal_strlit("first");
    reveal_strlit("last");
    reveal_strlit("push");
    reveal_strlit("removeAt");
    let n = builtin_names();
    assert(n =~= seq!["len"@, "first"@, "last"@, "push"@, "removeAt"@]);
    assert("len"@.len() == 3 && "first"@.len() == 5 && "last"@.len() == 4);
    assert("push"@.len() == 4 && "removeAt"@.len() == 8);
    assert("last"@[0] == 'l' && "push"@[0] == 'p');
    assert("len"@ != "first"@);
    assert("len"@ != "last"@);
    assert("len"@ != "push"@);
    assert("len"@ != "removeAt"@);
    assert("first"@ != "last"@);
    assert("first"@ != "push"@);
    assert("first"@ != "removeAt"@);
    assert("last"@ != "push"@);
    assert("last"@ != "removeAt"@);
    assert("push"@ != "removeAt"@);
}

impl Environment {
    /// Each name is bound at most once in this scope's own bindings.
    pub open spec fn wf(&self) -> bool {
        names_distinct(store_names(self.store@))
    }

    /// A scope holding the built-in functions, with no enclosing scope.
    pub fn new() -> (r: Environment)
        ensures
            env_model(r) == (SEnv { store: builtins_map(), outer: None }),
            r.wf(),
            store_names(r.store@) == builtin_names(),
    {
        let mut store: Vec<(String, Object)> = Vec::new();
        Self::init_builtins(&mut store);
        let r = Environment { store, outer: None };
        proof {
            lemma_env_model(r);
            assert(bindings_model(store@) =~= builtin_bindings());
            lemma_builtin_names_distinct();
            assert forall|k: int| 0 <= k < store@.len() implies store_names(store@)[k]
                == builtin_names()[k] by {
                assert(bindings_model(store@)[k] == builtin_bindings()[k]);
            }
            assert(store_names(store@) =~= builtin_names());
        }
        r
    }

    /// A scope holding the built-in functions, nested in `outer`.
    pub fn new_enclosed_environment(outer: Box<Environment>) -> (r: Environment)
        ensures
            env_model(r) == (SEnv {
                store: builtins_map(),
                outer: Some(Box::new(env_model(*outer))),
            }),
            r.wf(),
            store_names(r.store@) == builtin_names(),
    {
        let mut store: Vec<(String, Object)> = Vec::new();
        Self::init_builtins(&mut store);
        let r = Environment { outer: Some(outer), store };
        proof {
            lemma_env_model(r);
            assert(bindings_model(store@) =~= builtin_bindings());
            lemma_builtin_names_distinct();
            assert forall|k: int| 0 <= k < store@.len() implies store_names(store@)[k]
                == builtin_names()[k] by {
                assert(bindings_model(store@)[k] == builtin_bindings()[k]);
            }
            assert(store_names(store@) =~= builtin_names());
        }
        r
    }

    /// What `name` is bound to here or in an enclosing scope, if anything.
    pub fn get(&self, name: String) -> (r: Option<Object>)
        ensures
            opt_object_model(r) == env_lookup(env_model(*self), name@),
        decreases self,
    {
        proof {
            lemma_env_model(*self);
        }
        let ghost b = bindings_model(self.store@);
        match self.find_binding(&name) {
            Some(i) => {
                proof {
                    lemma_bindings_map_found(b, i as int);
                }
                let r = self.store[i].1.duplicate();
                return Some(r);
            },
            None => {
                proof {
                    lemma_bindings_map_absent(b, name@);
                }
            },
        }
        match &self.outer {
            Some(env) => env.get(name),
            None => None,
        }
    }

    /// The index of the last binding of `name` in this scope's own bindings.
    fn find_binding(&self, name: &String) -> (r: Option<usize>)
        ensures
            match r {
                Some(k) => {
                    &&& k < self.store@.len()
                    &&& bindings_model(self.store@)[k as int].0 == name@
                    &&& forall|j: int|
                        k < j < self.store@.len() ==> (#[trigger] bindings_model(self.store@)[j]).0
                            != name@
                },
                None => forall|j: int|
                    0 <= j < self.store@.len() ==> (#[trigger] bindings_model(self.store@)[j]).0
                        != name@,
            },
    {
        let ghost b = bindings_model(self.store@);
        let mut i = self.store.len();
        while i > 0
            invariant
                i <= self.store.len(),
                b == bindings_model(self.store@),
                forall|j: int| i <= j < b.len() ==> (#[trigger] b[j]).0 != name@,
            decreases i,
        {
            if self.store[i - 1].0 == *name {
                assert(b[i - 1].0 == name@);
                return Some(i - 1);
            }
            i = i - 1;
            assert(b[i as int].0 != name@);
        }
        None
    }

    fn init_builtins(store: &mut Vec<(String, Object)>)
        ensures
            bindings_model(final(store)@) == bindings_model(old(store)@) + builtin_bindings(),
    {
        let builtin_funcs = Builtins.all_builtins();
        let ghost start = bindings_model(store@);
        let mut k: usize = 0;
        while k < builtin_funcs.len()
            invariant
                k <= builtin_funcs.len(),
                builtin_funcs@.len() == builtin_order().len(),
                forall|j: int|
                    0 <= j < builtin_funcs@.len() ==> (#[trigger] builtin_funcs@[j]).0@
                        == builtin_name(builtin_order()[j]) && builtin_funcs@[j].1
                        == Object::BuiltinFunction(builtin_order()[j]),
                bindings_model(store@) == start + builtin_bindings().take(k as int),
            decreases builtin_funcs.len() - k,
        {
            let name = builtin_funcs[k].0.clone();
            let object = builtin_funcs[k].1.duplicate();
            proof {
                lemma_bindings_model_push(store@, (name, object));
                lemma_object_model(builtin_funcs@[k as int].1);
            }
            store.push((name, object));
            assert(builtin_bindings().take(k + 1) =~= builtin_bindings().take(k as int).push(
                builtin_bindings()[k as int],
            ));
            k = k + 1;
        }
        assert(builtin_bindings().take(builtin_funcs.len() as int) =~= builtin_bindings());
    }

    /// Binds `name` to `value` in this scope, replacing its binding here if
    /// it has one, and gives back what `name` is now bound to.
    pub fn set(&mut self, name: String, value: Object) -> (r: Option<Object>)
        ensures
            env_model(*final(self)) == env_set(env_model(*old(self)), name@, object_model(value)),
            opt_object_model(r) == Some(object_model(value)),
            old(self).wf() ==> final(self).wf(),
            store_names(final(self).store@) == (if store_names(old(self).store@).contains(name@) {
                store_names(old(self).store@)
            } else {
                store_names(old(self).store@).push(name@)
            }),
    {
        proof {
            lemma_env_model(*self);
        }
        let ghost b = bindings_model(self.store@);
        let ghost names = store_names(self.store@);
        let ghost vm = object_model(value);
        let key = name.clone();
        match self.find_binding(&name) {
            Some(k) => {
                proof {
                    lemma_bindings_map_update(b, k as int, vm);
                }
                self.store.set(k, (name, value));
                proof {
                    assert(bindings_model(self.store@) =~= b.update(k as int, (name@, vm)));
                    assert(names[k as int] == b[k as int].0);
                    assert(names.contains(name@));
                    assert(store_names(self.store@) =~= names);
                }
                assert(bindings_map(bindings_model(self.store@)) == bindings_map(b).insert(
                    name@,
                    vm,
                ));
            },
            None => {
                proof {
                    lemma_bindings_model_push(self.store@, (name, value));
                    assert(b.push((name@, vm)).drop_last() =~= b);
                }
                self.store.push((name, value));
                proof {
                    assert forall|j: int| 0 <= j < names.len() implies names[j] != name@ by {
                        assert(names[j] == b[j].0);
                    }
                    assert(!names.contains(name@));
                    assert(store_names(self.store@) =~= names.push(name@));
                }
                assert(bindings_map(bindings_model(self.store@)) == bindings_map(b).insert(
                    name@,
                    vm,
                ));
            },
        }
        proof {
            lemma_env_model(*self);
        }
        self.get(key)
    }
}

// ---------------------------------------------------------------------------
// Laws of scopes.

/// After `set(name, v)`, `get(name)` gives `v`.
pub proof fn law_get_after_set(e: SEnv, name: Seq<char>, v: SObject)
    ensures
        env_lookup(env_set(e, name, v), name) == Some(v),
{
}

/// `set(name, v)` leaves what every other name is bound to unchanged.
pub proof fn law_set_keeps_other_names(e: SEnv, name: Seq<char>, other: Seq<char>, v: SObject)
    requires
        other != name,
    ensures
        env_lookup(env_set(e, name, v), other) == env_lookup(e, other),
{
}

/// The bindings with which every scope starts hold exactly the built-in
/// functions, each under its name.
pub proof fn law_builtins_bound(name: Seq<char>)
    ensures
        builtins_map().contains_key(name) <==> exists|b: Builtin| builtin_name(b) == name,
        forall|b: Builtin| #[trigger] builtin_name(b) == name ==> builtins_map()[name] == SObject::Builtin(b),
{
    reveal_with_fuel(bindings_map, 6);
    let bb = builtin_bindings();
    assert(bb =~= seq![
        ("len"@, SObject::Builtin(Builtin::Len)),
        ("first"@, SObject::Builtin(Builtin::First)),
        ("last"@, SObject::Builtin(Builtin::Last)),
        ("push"@, SObject::Builtin(Builtin::Push)),
        ("removeAt"@, SObject::Builtin(Builtin::RemoveAt)),
    ]);
    assert(bb.drop_last().drop_last().drop_last().drop_last().drop_last() =~= seq![]);
    reveal_strlit("len");
    reveal_strlit("first");
    reveal_strlit("last");
    reveal_strlit("push");
    reveal_strlit("removeAt");
    assert("len"@.len() == 3 && "first"@.len() == 5 && "last"@.len() == 4);
    assert("push"@.len() == 4 && "removeAt"@.len() == 8);
    assert("last"@[0] == 'l' && "push"@[0] == 'p');
    assert("len"@ != "first"@);
    assert("len"@ != "last"@);
    assert("len"@ != "push"@);
    assert("len"@ != "removeAt"@);
    assert("first"@ != "last"@);
    assert("first"@ != "push"@);
    assert("first"@ != "removeAt"@);
    assert("last"@ != "push"@);
    assert("last"@ != "removeAt"@);
    assert("push"@ != "removeAt"@);
    if builtins_map().contains_key(name) {
        if name == "len"@ {
            assert(builtin_name(Builtin::Len) == name);
        } else if name == "first"@ {
            assert(builtin_name(Builtin::First) == name);
        } else if name == "last"@ {
            assert(builtin_name(Builtin::Last) == name);
        } else if name == "push"@ {
            assert(builtin_name(Builtin::Push) == name);
        } else {
            assert(builtin_name(Builtin::RemoveAt) == name);
        }
    }
}

/// A new scope gives each built-in function under its name.
pub proof fn law_new_scope_has_builtins(outer: Option<Box<SEnv>>, b: Builtin)
    ensures
        env_lookup(SEnv { store: builtins_map(), outer }, builtin_name(b)) == Some(
            SObject::Builtin(b),
        ),
{
    law_builtins_bound(builtin_name(b));
}

/// A scope nested in `outer` sees what `outer` binds, but for the names of
/// the built-in functions, which it binds itself.
pub proof fn law_enclosed_sees_outer(outer: SEnv, name: Seq<char>)
    requires
        forall|b: Builtin| builtin_name(b) != name,
    ensures
        env_lookup(SEnv { store: builtins_map(), outer: Some(Box::new(outer)) }, name)
            == env_lookup(outer, name),
{
    law_builtins_bound(name);
}

// ---------------------------------------------------------------------------
// How values print.

/// How a value prints: numbers and booleans as Rust writes them, strings and
/// errors as their text, arrays as `[a, b]`, hashes as `{k : v, ..}`,
/// functions as `fn(params) {` body `}` over three lines.
pub open spec fn display_text(o: SObject) -> Seq<char>
    decreases o, 1int,
{
    match o {
        SObject::Integer(i) => int_text(i as int),
        SObject::Boolean(b) => bool_text(b),
        SObject::Error(s) => s,
        SObject::ReturnValue(b) => display_text(*b),
        SObject::Str(s) => s,
        SObject::Builtin(_) => "builtin_t_func"@,
        SObject::Function { parameters, body, .. } => "fn("@ + join_spec(
            ident_values(parameters),
            ", "@,
        ) + ") {\n"@ + print_block(body) + "\n}"@,
        SObject::Array(v) => "["@ + join_spec(displays(v), ", "@) + "]"@,
        SObject::Hash(p) => "{"@ + join_spec(pair_displays(p), ", "@) + "}"@,
        SObject::Null => "null"@,
    }
}

/// How each value of a sequence prints.
pub open spec fn displays(v: Seq<SObject>) -> Seq<Seq<char>>
    decreases v, 0int,
{
    Seq::new(v.len(), |k: int| if 0 <= k < v.len() { display_text(v[k]) } else { seq![] })
}

/// How each entry of a hash prints: `key : value`.
pub open spec fn pair_displays(p: Seq<SPair>) -> Seq<Seq<char>>
    decreases p, 0int,
{
    Seq::new(
        p.len(),
        |k: int|
            if 0 <= k < p.len() {
                display_text(p[k].key) + " : "@ + display_text(p[k].value)
            } else {
                seq![]
            },
    )
}

impl Object {
    /// How this value prints.
    #[verifier::loop_isolation(false)]
    pub fn display_string(&self) -> (s: String)
        ensures
            s@ == display_text(object_model(*self)),
        decreases self,
    {
        proof {
            lemma_object_model(*self);
        }
        match self {
            Object::Integer(i) => int_to_text(*i),
            Object::Boolean(b) => bool_to_text(*b),
            Object::Error(e) => e.clone(),
            Object::ReturnValue(b) => b.display_string(),
            Object::String(t) => t.clone(),
            Object::BuiltinFunction(_) => String::from_str("builtin_t_func"),
            Object::Function(func) => {
                let mut params: Vec<String> = Vec::new();
                let mut k: usize = 0;
                while k < func.parameters.len()
                    invariant
                        k <= func.parameters.len(),
                        params@.len() == k,
                        forall|j: int|
                            0 <= j < k ==> (#[trigger] params@[j])@ == func.parameters@[j].value@,
                    decreases func.parameters.len() - k,
                {
                    params.push(func.parameters[k].print_string());
                    k = k + 1;
                }
                assert(string_views(params@) =~= ident_values(idents_model(func.parameters@)));
                let mut out = String::from_str("fn(");
                let joined = join_strings(&params, ", ");
                out.append(joined.as_str());
                out.append(") {\n");
                let body = func.body.print_string();
                proof {
                    lemma_block_model(func.body);
                }
                out.append(body.as_str());
                out.append("\n}");
                out
            },
            Object::Array(arr) => {
                let ghost m = objects_model(arr@);
                let mut elements: Vec<String> = Vec::new();
                let mut k: usize = 0;
                while k < arr.len()
                    invariant
                        k <= arr.len(),
                        m == objects_model(arr@),
                        elements@.len() == k,
                        forall|j: int|
                            0 <= j < k ==> (#[trigger] elements@[j])@ == display_text(m[j]),
                    decreases arr.len() - k,
                {
                    proof {
                        assert(decreases_to!(*self => arr@[k as int]));
                    }
                    elements.push(arr[k].display_string());
                    k = k + 1;
                }
                assert(string_views(elements@) =~= displays(m));
                let mut out = String::from_str("[");
                let joined = join_strings(&elements, ", ");
                out.append(joined.as_str());
                out.append("]");
                out
            },
            Object::Hash(hash) => {
                let ghost m = pairs_model(hash.pairs@);
                let mut pairs: Vec<String> = Vec::new();
                let mut k: usize = 0;
                while k < hash.pairs.len()
                    invariant
                        k <= hash.pairs.len(),
                        m == pairs_model(hash.pairs@),
                        pairs@.len() == k,
                        forall|j: int|
                            0 <= j < k ==> (#[trigger] pairs@[j])@ == display_text(m[j].key)
                                + " : "@ + display_text(m[j].value),
                    decreases hash.pairs.len() - k,
                {
                    proof {
                        assert(decreases_to!(*self => hash.pairs@[k as int].1.key));
                        assert(decreases_to!(*self => hash.pairs@[k as int].1.value));
                    }
                    let mut entry = hash.pairs[k].1.key.display_string();
                    entry.append(" : ");
                    let v = hash.pairs[k].1.value.display_string();
                    entry.append(v.as_str());
                    pairs.push(entry);
                    k = k + 1;
                }
                assert(string_views(pairs@) =~= pair_displays(m));
                let mut out = String::from_str("{");
                let joined = join_strings(&pairs, ", ");
                out.append(joined.as_str());
                out.append("}");
                out
            },
            Object::Null => String::from_str("null"),
        }
    }
}

// ---------------------------------------------------------------------------
// Laws of printing.

/// How the simple values print: `null`, `true`, `false`, the text of a
/// string or an error, the value a returned value holds, `builtin_t_func`;
/// a digit as itself; a negative integer as `-` before its magnitude.
pub proof fn law_simple_values_print(s: Seq<char>, x: SObject, b: Builtin, d: i64, i: i64)
    requires
        0 <= d < 10,
        0 < i,
    ensures
        display_text(SObject::Null) == "null"@,
        display_text(SObject::Boolean(true)) == "true"@,
        display_text(SObject::Boolean(false)) == "false"@,
        display_text(SObject::Str(s)) == s,
        display_text(SObject::Error(s)) == s,
        display_text(SObject::ReturnValue(Box::new(x))) == display_text(x),
        display_text(SObject::Builtin(b)) == "builtin_t_func"@,
        display_text(SObject::Integer(d)) == seq![(48 + d) as char],
        display_text(SObject::Integer((0 - i) as i64)) == seq!['-'] + display_text(
            SObject::Integer(i),
        ),
{
    reveal_strlit("true");
    reveal_strlit("false");
    assert(bool_text(true) =~= "true"@);
    assert(bool_text(false) =~= "false"@);
    assert(nat_text(d as nat) == seq![digit_char(d as int)]);
}

/// An array prints as `[` and its elements' prints joined by `, ` and `]`:
/// the empty array as `[]`, one element alone between the brackets, and
/// one more element after `, ` before the closing bracket.
pub proof fn law_arrays_print(v: Seq<SObject>, x: SObject)
    ensures
        display_text(SObject::Array(seq![])) == "[]"@,
        display_text(SObject::Array(seq![x])) == "["@ + display_text(x) + "]"@,
        v.len() > 0 ==> display_text(SObject::Array(v.push(x))) == display_text(
            SObject::Array(v),
        ).drop_last() + ", "@ + display_text(x) + "]"@,
{
    reveal_strlit("[]");
    reveal_strlit("[");
    reveal_strlit("]");
    assert(displays(seq![]) =~= Seq::<Seq<char>>::empty());
    assert(join_spec(displays(seq![]), ", "@) =~= Seq::<char>::empty());
    assert("["@ + Seq::<char>::empty() + "]"@ =~= "[]"@);
    assert(displays(seq![x]) =~= seq![display_text(x)]);
    if v.len() > 0 {
        let w = v.push(x);
        assert(displays(w).drop_last() =~= displays(v));
        assert(displays(w).last() == display_text(x));
        let j = join_spec(displays(v), ", "@);
        assert(("["@ + j + "]"@).drop_last() =~= "["@ + j);
        assert("["@ + (j + ", "@ + display_text(x)) + "]"@ =~= "["@ + j + ", "@ + display_text(x)
            + "]"@);
    }
}

// ---------------------------------------------------------------------------
// Hash keys.

/// What std's `DefaultHasher` (SipHash with fixed zero keys, the same in every
/// process of one build) gives for a string of the given characters.
pub uninterp spec fn default_string_hash(s: Seq<char>) -> u64;

/// Hashes a string with std's `BuildHasher::hash_one` over
/// `BuildHasherDefault<DefaultHasher>`, which equals hashing it into
/// `DefaultHasher::new()` and calling `finish`. The contract claims only that
/// the result is a function of the string's characters; the hash function
/// itself is left unstated.
#[verifier::external_body]
fn hash_text(s: &String) -> (h: u64)
    ensures
        h == default_string_hash(s@),
{
    std::hash::BuildHasher::hash_one(
        &std::hash::BuildHasherDefault::<std::collections::hash_map::DefaultHasher>::default(),
        s,
    )
}

/// The model of a key computation: a key, or the error text.
pub open spec fn key_result_model(r: Result<HashKey, String>) -> Result<SHashKey, Seq<char>> {
    match r {
        Ok(k) => Ok(key_model(k)),
        Err(e) => Err(e@),
    }
}

/// The key of a value: booleans as 1 and 0, integers as themselves, strings
/// by their hash (read as a signed number); other values cannot be keys.
pub open spec fn hash_key_of(o: SObject) -> Result<SHashKey, Seq<char>> {
    match o {
        SObject::Boolean(b) => Ok(SHashKey { object_type: "bool"@, value: if b { 1 } else { 0 } }),
        SObject::Integer(i) => Ok(SHashKey { object_type: "int"@, value: i }),
        SObject::Str(s) => Ok(SHashKey { object_type: "str"@, value: default_string_hash(s) as i64 }),
        other => Err("cannot hash type "@ + type_text(other)),
    }
}

/// Strings with the same text have the same key.
pub proof fn law_same_text_same_key(s: Seq<char>, t: Seq<char>)
    requires
        s == t,
    ensures
        hash_key_of(SObject::Str(s)) == hash_key_of(SObject::Str(t)),
        hash_key_of(SObject::Str(s)) is Ok,
{
}

/// Values of different types never share a key: the key holds the type.
pub proof fn law_key_holds_type(a: SObject, b: SObject)
    requires
        hash_key_of(a) is Ok,
        hash_key_of(b) is Ok,
        type_text(a) != type_text(b),
    ensures
        hash_key_of(a) != hash_key_of(b),
{
}

impl HashKey {
    /// The key of a string whose hash is `hash`.
    pub fn for_string_hash(hash: u64) -> (k: HashKey)
        ensures
            k.object_type@ == "str"@,
            k.value == hash as i64,
    {
        HashKey { object_type: String::from_str("str"), value: hash as i64 }
    }
}

/// Values that can serve as keys of a hash.
pub trait Hashable {
    spec fn hash_key_spec(&self) -> Result<SHashKey, Seq<char>>;

    /// The key of this value, or why it cannot be one.
    fn hash_key(&self) -> (r: Result<HashKey, String>)
        ensures
            key_result_model(r) == self.hash_key_spec(),
    ;
}

impl Hashable for Object {
    open spec fn hash_key_spec(&self) -> Result<SHashKey, Seq<char>> {
        hash_key_of(object_model(*self))
    }

    fn hash_key(&self) -> (r: Result<HashKey, String>) {
        proof {
            lemma_object_model(*self);
        }
        match self {
            Object::Boolean(val) => {
                let value: i64 = if *val {
                    1
                } else {
                    0
                };
                Ok(HashKey { object_type: self.object_type(), value: value })
            },
            Object::Integer(val) => Ok(HashKey { object_type: self.object_type(), value: *val }),
            Object::String(string) => {
                let hash = hash_text(string);
                Ok(HashKey::for_string_hash(hash))
            },
            other => {
                let mut e = String::from_str("cannot hash type ");
                let t = other.object_type();
                e.append(t.as_str());
                Err(e)
            },
        }
    }
}

impl Default for Object {
    /// `null`.
    fn default() -> (r: Object)
        ensures
            r == Object::Null,
    {
        Object::Null
    }
}

/// The name of a value's type, as `object_type` gives it.
pub open spec fn type_text(o: SObject) -> Seq<char>
    decreases o,
{
    match o {
        SObject::Integer(_) => "int"@,
        SObject::Boolean(_) => "bool"@,
        SObject::Error(_) => "t_error"@,
        SObject::Function { .. } => "t_func"@,
        SObject::Str(_) => "str"@,
        SObject::Builtin(_) => "t_func"@,
        SObject::ReturnValue(inner) => "t_return_of<"@ + type_text(*inner) + ">"@,
        SObject::Array(_) => "t_array"@,
        SObject::Hash(_) => "t_hash"@,
        SObject::Null => "t_null"@,
    }
}

impl Object {
    /// The name of this value's type: `int`, `bool`, `str`, `t_func`, ...;
    /// a returned value is `t_return_of<..>` around the type it holds.
    pub fn object_type(&self) -> (s: String)
        ensures
            s@ == type_text(object_model(*self)),
        decreases self,
    {
        proof {
            lemma_object_model(*self);
        }
        match self {
            Object::Integer(_) => String::from_str("int"),
            Object::Boolean(_) => String::from_str("bool"),
            Object::Error(_) => String::from_str("t_error"),
            Object::Function(_) => String::from_str("t_func"),
            Object::String(_) => String::from_str("str"),
            Object::BuiltinFunction(_) => String::from_str("t_func"),
            Object::ReturnValue(res) => {
                let mut out = String::from_str("t_return_of<");
                let inner = res.object_type();
                out.append(inner.as_str());
                out.append(">");
                out
            },
            Object::Array(_) => String::from_str("t_array"),
            Object::Hash(_) => String::from_str("t_hash"),
            Object::Null => String::from_str("t_null"),
        }
    }
}

// ---------------------------------------------------------------------------
// Copies through `Clone`.

impl Clone for Object {
    /// A copy of this value, with the same model.
    fn clone(&self) -> (r: Self)
        ensures
            object_model(r) == object_model(*self),
    {
        self.duplicate()
    }
}

impl Clone for Environment {
    /// A copy of this scope, with the same model and the same names bound.
    fn clone(&self) -> (r: Self)
        ensures
            env_model(r) == env_model(*self),
            store_names(r.store@) == store_names(self.store@),
    {
        self.duplicate()
    }
}

impl Clone for Function {
    /// A copy of this function, with the same parameters, body and scope.
    fn clone(&self) -> (r: Self)
        ensures
            r.parameters@ == self.parameters@,
            block_model(r.body) == block_model(self.body),
            env_model(r.env) == env_model(self.env),
    {
        self.duplicate()
    }
}

impl Clone for HashKey {
    /// A copy of this key.
    fn clone(&self) -> (r: Self)
        ensures
            r == *self,
    {
        self.duplicate()
    }
}

impl Clone for HashMapObject {
    /// A copy of this entry, with the same models.
    fn clone(&self) -> (r: Self)
        ensures
            object_model(r.key) == object_model(self.key),
            object_model(r.value) == object_model(self.value),
    {
        HashMapObject { key: self.key.duplicate(), value: self.value.duplicate() }
    }
}

impl Clone for HashStruct {
    /// A copy of this hash, with the same model.
    fn clone(&self) -> (r: Self)
        ensures
            pairs_model(r.pairs@) == pairs_model(self.pairs@),
            r.wf() == self.wf(),
    {
        self.duplicate()
    }
}

} // verus!
