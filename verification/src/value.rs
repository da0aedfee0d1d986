//! Document values: a tagged tree of null, booleans, numbers, strings,
//! sequences and insertion-ordered string-keyed mappings.

use vstd::prelude::*;

verus! {

broadcast use vstd::std_specs::vec::group_vec_axioms, vstd::seq::group_seq_axioms;

/// One key/value field of a mapping node.
#[derive(Debug)]
pub struct Field {
    pub key: String,
    pub value: Value,
}

/// A document value. Numbers carry the raw bit pattern of an IEEE-754
/// double; the engine stores and compares them without interpreting them,
/// so every double passes through unchanged (comparison is bitwise).
#[derive(Debug)]
pub enum Value {
    Null,
    Bool(bool),
    Num(u64),
    Str(String),
    Arr(Vec<Value>),
    Obj(Vec<Field>),
}

/// Mathematical model of a `Value`: strings become character sequences,
/// vectors become sequences, fields become key/value pairs.
#[verifier::ext_equal]
pub enum Val {
    Null,
    Bool(bool),
    Num(u64),
    Str(Seq<char>),
    Arr(Seq<Val>),
    Obj(Seq<(Seq<char>, Val)>),
}

/// The model of a value.
pub open spec fn v_model(v: Value) -> Val
    decreases v,
    via v_model_decreases
{
    match v {
        Value::Null => Val::Null,
        Value::Bool(b) => Val::Bool(b),
        Value::Num(n) => Val::Num(n),
        Value::Str(s) => Val::Str(s@),
        Value::Arr(a) => Val::Arr(arr_model(a@)),
        Value::Obj(fs) => Val::Obj(fields_model(fs@)),
    }
}

/// The models of a sequence of array elements.
pub open spec fn arr_model(a: Seq<Value>) -> Seq<Val>
    decreases a,
    via arr_model_decreases
{
    Seq::new(
        a.len(),
        |i: int|
            if 0 <= i < a.len() {
                v_model(a[i])
            } else {
                Val::Null
            },
    )
}

/// The models of a sequence of mapping fields.
pub open spec fn fields_model(fs: Seq<Field>) -> Seq<(Seq<char>, Val)>
    decreases fs,
    via fields_model_decreases
{
    Seq::new(
        fs.len(),
        |i: int|
            if 0 <= i < fs.len() {
                (fs[i].key@, v_model(fs[i].value))
            } else {
                (Seq::empty(), Val::Null)
            },
    )
}

#[via_fn]
proof fn v_model_decreases(v: Value) {
    match v {
        Value::Arr(a) => {
            assert(decreases_to!(v => a));
            assert(decreases_to!(a => a@));
        }
        Value::Obj(fs) => {
            assert(decreases_to!(v => fs));
            assert(decreases_to!(fs => fs@));
        }
        _ => {}
    }
}

#[via_fn]
proof fn arr_model_decreases(a: Seq<Value>) {
    assert forall|i: int| 0 <= i < a.len() implies decreases_to!(a => a[i]) by {
        assert(decreases_to!(a => a[i]));
    }
}

#[via_fn]
proof fn fields_model_decreases(fs: Seq<Field>) {
    assert forall|i: int| 0 <= i < fs.len() implies decreases_to!(fs => fs[i].value) by {
        assert(decreases_to!(fs => fs[i]));
        assert(decreases_to!(fs[i] => fs[i].value));
    }
}

impl View for Value {
    type V = Val;

    open spec fn view(&self) -> Val {
        v_model(*self)
    }
}

/// Index of the first field at or after `i` whose key is `k`, or `fs.len()`
/// when no such field exists.
pub open spec fn obj_find_from(fs: Seq<(Seq<char>, Val)>, i: int, k: Seq<char>) -> int
    decreases fs.len() - i,
{
    if i < 0 || i >= fs.len() {
        fs.len() as int
    } else if fs[i].0 == k {
        i
    } else {
        obj_find_from(fs, i + 1, k)
    }
}

/// Index of the first field with key `k`, or `fs.len()`.
pub open spec fn obj_find(fs: Seq<(Seq<char>, Val)>, k: Seq<char>) -> int {
    obj_find_from(fs, 0, k)
}

/// Does the mapping contain the key `k`?
pub open spec fn obj_has(fs: Seq<(Seq<char>, Val)>, k: Seq<char>) -> bool {
    obj_find(fs, k) < fs.len()
}

/// The value of the first field with key `k`, if any.
pub open spec fn obj_get(fs: Seq<(Seq<char>, Val)>, k: Seq<char>) -> Option<Val> {
    if obj_has(fs, k) {
        Some(fs[obj_find(fs, k)].1)
    } else {
        None
    }
}

/// Bind `k` to `v`: replace the first field with key `k` in place, or append
/// a new field, so insertion order is preserved.
pub open spec fn obj_set(fs: Seq<(Seq<char>, Val)>, k: Seq<char>, v: Val) -> Seq<
    (Seq<char>, Val),
> {
    if obj_has(fs, k) {
        fs.update(obj_find(fs, k), (k, v))
    } else {
        fs.push((k, v))
    }
}

pub proof fn lemma_obj_find_from_props(fs: Seq<(Seq<char>, Val)>, i: int, k: Seq<char>)
    requires
        0 <= i <= fs.len(),
    ensures
        i <= obj_find_from(fs, i, k) <= fs.len(),
        obj_find_from(fs, i, k) < fs.len() ==> fs[obj_find_from(fs, i, k)].0 == k,
        forall|j: int| i <= j < obj_find_from(fs, i, k) ==> fs[j].0 != k,
    decreases fs.len() - i,
{
    if i < fs.len() && fs[i].0 != k {
        lemma_obj_find_from_props(fs, i + 1, k);
    }
}

/// When the fields at `[i, m)` miss `k` and the field at `m` holds it, `m` is
/// the first index found.
pub proof fn lemma_obj_find_from_exact(fs: Seq<(Seq<char>, Val)>, i: int, m: int, k: Seq<char>)
    requires
        0 <= i <= m < fs.len(),
        fs[m].0 == k,
        forall|j: int| i <= j < m ==> fs[j].0 != k,
    ensures
        obj_find_from(fs, i, k) == m,
    decreases m - i,
{
    if i < m {
        lemma_obj_find_from_exact(fs, i + 1, m, k);
    }
}

/// When no field at or after `i` holds `k`, the search returns the length.
pub proof fn lemma_obj_find_from_none(fs: Seq<(Seq<char>, Val)>, i: int, k: Seq<char>)
    requires
        0 <= i <= fs.len(),
        forall|j: int| i <= j < fs.len() ==> fs[j].0 != k,
    ensures
        obj_find_from(fs, i, k) == fs.len(),
    decreases fs.len() - i,
{
    if i < fs.len() {
        lemma_obj_find_from_none(fs, i + 1, k);
    }
}

/// The models of a parsed path's segments.
pub open spec fn path_model(p: Seq<String>) -> Seq<Seq<char>> {
    Seq::new(
        p.len(),
        |i: int|
            if 0 <= i < p.len() {
                p[i]@
            } else {
                Seq::empty()
            },
    )
}

/// The value reached by descending from `v` along `path[i..]`, or `None`
/// when a segment is missing or a non-mapping node is entered.
pub open spec fn get_path_from(v: Val, path: Seq<Seq<char>>, i: int) -> Option<Val>
    decreases path.len() - i,
{
    if i >= path.len() {
        Some(v)
    } else {
        match v {
            Val::Obj(fs) => match obj_get(fs, path[i]) {
                Some(c) => get_path_from(c, path, i + 1),
                None => None,
            },
            _ => None,
        }
    }
}

/// `v` with `x` installed at `path[i..]`. Missing segments are created as
/// empty mappings; `None` when an existing non-mapping node blocks descent.
pub open spec fn set_path_from(v: Val, path: Seq<Seq<char>>, i: int, x: Val) -> Option<Val>
    decreases path.len() - i,
{
    if i >= path.len() {
        Some(x)
    } else {
        match v {
            Val::Obj(fs) => {
                let child = if obj_has(fs, path[i]) {
                    fs[obj_find(fs, path[i])].1
                } else {
                    Val::Obj(Seq::empty())
                };
                match set_path_from(child, path, i + 1, x) {
                    Some(nc) => Some(Val::Obj(obj_set(fs, path[i], nc))),
                    None => None,
                }
            },
            _ => None,
        }
    }
}

/// Shallow merge: every field of `add` (from index `i` on) bound into `base`
/// in order.
pub open spec fn merge_from(
    base: Seq<(Seq<char>, Val)>,
    add: Seq<(Seq<char>, Val)>,
    i: int,
) -> Seq<(Seq<char>, Val)>
    decreases add.len() - i,
{
    if i < 0 || i >= add.len() {
        base
    } else {
        merge_from(obj_set(base, add[i].0, add[i].1), add, i + 1)
    }
}

/// Reading a path just written yields the written value.
pub proof fn lemma_set_path_get(v: Val, path: Seq<Seq<char>>, i: int, x: Val)
    requires
        0 <= i <= path.len(),
        set_path_from(v, path, i, x) is Some,
    ensures
        get_path_from(set_path_from(v, path, i, x).unwrap(), path, i) == Some(x),
    decreases path.len() - i,
{
    if i < path.len() {
        match v {
            Val::Obj(fs) => {
                let child = if obj_has(fs, path[i]) {
                    fs[obj_find(fs, path[i])].1
                } else {
                    Val::Obj(Seq::empty())
                };
                let nc = set_path_from(child, path, i + 1, x).unwrap();
                lemma_obj_set_get(fs, path[i], nc);
                lemma_set_path_get(child, path, i + 1, x);
            },
            _ => {},
        }
    }
}

/// `obj_get` after `obj_set` on the same key yields the bound value; every
/// other key is untouched.
pub proof fn lemma_obj_set_get(fs: Seq<(Seq<char>, Val)>, k: Seq<char>, v: Val)
    ensures
        obj_get(obj_set(fs, k, v), k) == Some(v),
        forall|k2: Seq<char>|
            k2 != k ==> #[trigger] obj_get(obj_set(fs, k, v), k2) == obj_get(fs, k2),
{
    let fs2 = obj_set(fs, k, v);
    let f = obj_find(fs, k);
    lemma_obj_find_from_props(fs, 0, k);
    if obj_has(fs, k) {
        lemma_obj_find_from_exact(fs2, 0, f, k);
    } else {
        lemma_obj_find_from_exact(fs2, 0, fs.len() as int, k);
    }
    assert(obj_get(fs2, k) == Some(v));
    assert forall|k2: Seq<char>| k2 != k implies #[trigger] obj_get(fs2, k2) == obj_get(
        fs,
        k2,
    ) by {
        lemma_obj_find_from_props(fs, 0, k2);
        let m = obj_find(fs, k2);
        if m < fs.len() {
            assert(fs2[m] == fs[m]);
            lemma_obj_find_from_exact(fs2, 0, m, k2);
        } else {
            lemma_obj_find_from_none(fs2, 0, k2);
        }
    }
}

/// Character-wise equality of two string slices.
pub fn str_eq(a: &str, b: &str) -> (r: bool)
    ensures
        r == (a@ == b@),
{
    let sa: String = a.to_owned();
    let sb: String = b.to_owned();
    sa == sb
}

/// Index of the first field whose key is `key`, or `fields.len()`.
pub fn find_field(fields: &Vec<Field>, key: &str) -> (r: usize)
    ensures
        r as int == obj_find(fields_model(fields@), key@),
{
    let ghost m = fields_model(fields@);
    let mut i: usize = 0;
    while i < fields.len()
        invariant
            i <= fields@.len(),
            m == fields_model(fields@),
            obj_find(m, key@) == obj_find_from(m, i as int, key@),
        decreases fields@.len() - i,
    {
        if str_eq(fields[i].key.as_str(), key) {
            proof {
                assert(m[i as int].0 == key@);
            }
            return i;
        }
        proof {
            assert(m[i as int].0 != key@);
        }
        i += 1;
    }
    i
}

/// The value bound to `key`, if any.
pub fn get_field<'a>(fields: &'a Vec<Field>, key: &str) -> (r: Option<&'a Value>)
    ensures
        match r {
            Some(v) => obj_get(fields_model(fields@), key@) == Some(v@),
            None => obj_get(fields_model(fields@), key@) is None,
        },
{
    let i = find_field(fields, key);
    if i < fields.len() {
        Some(&fields[i].value)
    } else {
        None
    }
}

/// Bind `key` to `val`, replacing the first matching field in place or
/// appending a new one.
pub fn set_field(fields: &mut Vec<Field>, key: &str, val: Value)
    ensures
        fields_model(final(fields)@) == obj_set(fields_model(old(fields)@), key@, v_model(val)),
{
    let ghost m = fields_model(fields@);
    let ghost target = obj_set(m, key@, v_model(val));
    let i = find_field(fields, key);
    let f = Field { key: key.to_owned(), value: val };
    if i < fields.len() {
        fields.set(i, f);
        proof {
            assert forall|j: int| 0 <= j < target.len() implies fields_model(fields@)[j]
                == target[j] by {}
            assert(fields_model(fields@) =~= target);
        }
    } else {
        fields.push(f);
        proof {
            assert forall|j: int| 0 <= j < target.len() implies fields_model(fields@)[j]
                == target[j] by {}
            assert(fields_model(fields@) =~= target);
        }
    }
}

impl Value {
    /// A deep copy with the same model.
    #[verifier::loop_isolation(false)]
    pub fn deep_clone(&self) -> (r: Value)
        ensures
            r@ == self@,
        decreases self,
    {
        match self {
            Value::Null => Value::Null,
            Value::Bool(b) => Value::Bool(*b),
            Value::Num(n) => Value::Num(*n),
            Value::Str(s) => Value::Str(s.clone()),
            Value::Arr(a) => {
                let mut out: Vec<Value> = Vec::new();
                let mut i: usize = 0;
                while i < a.len()
                    invariant
                        i <= a@.len(),
                        out@.len() == i as nat,
                        forall|j: int| 0 <= j < i ==> v_model(out@[j]) == v_model(a@[j]),
                    decreases a@.len() - i,
                {
                    proof {
                        assert(decreases_to!(*self => self->Arr_0));
                        assert(*a == self->Arr_0);
                        assert(decreases_to!(*a => a@));
                        assert(decreases_to!(a@ => a@[i as int]));
                    }
                    let c = a[i].deep_clone();
                    out.push(c);
                    i += 1;
                }
                let r = Value::Arr(out);
                proof {
                    assert(arr_model(out@) =~= arr_model(a@));
                }
                r
            },
            Value::Obj(fs) => {
                let mut out: Vec<Field> = Vec::new();
                let mut i: usize = 0;
                while i < fs.len()
                    invariant
                        i <= fs@.len(),
                        out@.len() == i as nat,
                        forall|j: int|
                            0 <= j < i ==> out@[j].key@ == fs@[j].key@ && v_model(out@[j].value)
                                == v_model(fs@[j].value),
                    decreases fs@.len() - i,
                {
                    proof {
                        assert(decreases_to!(*self => self->Obj_0));
                        assert(*fs == self->Obj_0);
                        assert(decreases_to!(*fs => fs@));
                        assert(decreases_to!(fs@ => fs@[i as int]));
                        assert(decreases_to!(fs@[i as int] => fs@[i as int].value));
                    }
                    let f = Field { key: fs[i].key.clone(), value: fs[i].value.deep_clone() };
                    out.push(f);
                    i += 1;
                }
                let r = Value::Obj(out);
                proof {
                    assert(fields_model(out@) =~= fields_model(fs@));
                }
                r
            },
        }
    }
}

/// Deep copies of a field list, model preserved.
pub fn clone_fields(fs: &Vec<Field>) -> (r: Vec<Field>)
    ensures
        fields_model(r@) == fields_model(fs@),
{
    let mut out: Vec<Field> = Vec::new();
    let mut i: usize = 0;
    while i < fs.len()
        invariant
            i <= fs@.len(),
            out@.len() == i as nat,
            forall|j: int|
                0 <= j < i ==> out@[j].key@ == fs@[j].key@ && v_model(out@[j].value) == v_model(
                    fs@[j].value,
                ),
        decreases fs@.len() - i,
    {
        let f = Field { key: fs[i].key.clone(), value: fs[i].value.deep_clone() };
        out.push(f);
        i += 1;
    }
    proof {
        assert(fields_model(out@) =~= fields_model(fs@));
    }
    out
}

/// Descend from `v` along `path[i..]`.
pub fn get_path_exec<'a>(v: &'a Value, path: &Vec<String>, i: usize) -> (r: Option<&'a Value>)
    requires
        i <= path@.len(),
    ensures
        match r {
            Some(rv) => get_path_from(v@, path_model(path@), i as int) == Some(rv@),
            None => get_path_from(v@, path_model(path@), i as int) is None,
        },
    decreases path@.len() - i,
{
    if i >= path.len() {
        return Some(v);
    }
    match v {
        Value::Obj(fs) => {
            match get_field(fs, path[i].as_str()) {
                Some(c) => get_path_exec(c, path, i + 1),
                None => None,
            }
        },
        _ => None,
    }
}

/// A copy of `v` with `x` installed at `path[i..]`; `None` on a path
/// conflict. The original value is untouched.
pub fn set_path_exec(v: &Value, path: &Vec<String>, i: usize, x: Value) -> (r: Option<Value>)
    requires
        i <= path@.len(),
    ensures
        match r {
            Some(nv) => set_path_from(v@, path_model(path@), i as int, x@) == Some(nv@),
            None => set_path_from(v@, path_model(path@), i as int, x@) is None,
        },
    decreases path@.len() - i,
{
    if i >= path.len() {
        return Some(x);
    }
    match v {
        Value::Obj(fs) => {
            let key = path[i].as_str();
            let fi = find_field(fs, key);
            proof {
                lemma_obj_find_from_props(fields_model(fs@), 0, key@);
            }
            let child_new: Option<Value> = if fi < fs.len() {
                set_path_exec(&fs[fi].value, path, i + 1, x)
            } else {
                let empty = Value::Obj(Vec::new());
                proof {
                    assert(fields_model(Seq::<Field>::empty()) =~= Seq::<(Seq<char>, Val)>::empty());
                }
                set_path_exec(&empty, path, i + 1, x)
            };
            match child_new {
                Some(nc) => {
                    let mut out = clone_fields(fs);
                    set_field(&mut out, key, nc);
                    Some(Value::Obj(out))
                },
                None => None,
            }
        },
        _ => None,
    }
}

/// Shallow merge of `add` into `base`, in field order.
pub fn merge_fields_exec(base: &Vec<Field>, add: &Vec<Field>) -> (r: Vec<Field>)
    ensures
        fields_model(r@) == merge_from(fields_model(base@), fields_model(add@), 0),
{
    let ghost bm = fields_model(base@);
    let ghost am = fields_model(add@);
    let mut acc = clone_fields(base);
    let mut i: usize = 0;
    while i < add.len()
        invariant
            i <= add@.len(),
            am == fields_model(add@),
            merge_from(bm, am, 0) == merge_from(fields_model(acc@), am, i as int),
        decreases add@.len() - i,
    {
        let v = add[i].value.deep_clone();
        set_field(&mut acc, add[i].key.as_str(), v);
        i += 1;
    }
    acc
}


/// The abstract byte cost of a value: nothing for null, one for a boolean,
/// eight for a number, a character count for strings, and for sequences and
/// mappings the members plus a fixed overhead of 24.
pub open spec fn val_size(v: Val) -> int
    decreases v, 0int,
    via val_size_decreases
{
    match v {
        Val::Null => 0,
        Val::Bool(_) => 1,
        Val::Num(_) => 8,
        Val::Str(s) => s.len() as int,
        Val::Arr(es) => arr_size(es, 0) + 24,
        Val::Obj(fs) => fields_size(fs, 0) + 24,
    }
}

/// The byte cost of the elements from index `i` on.
pub open spec fn arr_size(es: Seq<Val>, i: int) -> int
    decreases es, es.len() - i,
    via arr_size_decreases
{
    if i < 0 || i >= es.len() {
        0
    } else {
        val_size(es[i]) + arr_size(es, i + 1)
    }
}

/// The byte cost of the fields from index `i` on: key characters plus value.
pub open spec fn fields_size(fs: Seq<(Seq<char>, Val)>, i: int) -> int
    decreases fs, fs.len() - i,
    via fields_size_decreases
{
    if i < 0 || i >= fs.len() {
        0
    } else {
        fs[i].0.len() + val_size(fs[i].1) + fields_size(fs, i + 1)
    }
}

#[via_fn]
proof fn val_size_decreases(v: Val) {
    match v {
        Val::Arr(es) => {
            assert(decreases_to!(v => es));
        }
        Val::Obj(fs) => {
            assert(decreases_to!(v => fs));
        }
        _ => {}
    }
}

#[via_fn]
proof fn arr_size_decreases(es: Seq<Val>, i: int) {
    if 0 <= i < es.len() {
        assert(decreases_to!(es => es[i]));
    }
}

#[via_fn]
proof fn fields_size_decreases(fs: Seq<(Seq<char>, Val)>, i: int) {
    if 0 <= i < fs.len() {
        assert(decreases_to!(fs => fs[i]));
        assert(decreases_to!(fs[i] => fs[i].1));
    }
}

/// Sizes are never negative.
pub proof fn lemma_val_size_nonneg(v: Val)
    ensures
        val_size(v) >= 0,
    decreases v, 0int,
{
    match v {
        Val::Arr(es) => {
            lemma_arr_size_nonneg(es, 0);
        },
        Val::Obj(fs) => {
            lemma_fields_size_nonneg(fs, 0);
        },
        _ => {},
    }
}

pub proof fn lemma_arr_size_nonneg(es: Seq<Val>, i: int)
    ensures
        arr_size(es, i) >= 0,
    decreases es, es.len() - i,
{
    if 0 <= i < es.len() {
        assert(decreases_to!(es => es[i]));
        lemma_val_size_nonneg(es[i]);
        lemma_arr_size_nonneg(es, i + 1);
    }
}

pub proof fn lemma_fields_size_nonneg(fs: Seq<(Seq<char>, Val)>, i: int)
    ensures
        fields_size(fs, i) >= 0,
    decreases fs, fs.len() - i,
{
    if 0 <= i < fs.len() {
        assert(decreases_to!(fs => fs[i]));
        assert(decreases_to!(fs[i] => fs[i].1));
        lemma_val_size_nonneg(fs[i].1);
        lemma_fields_size_nonneg(fs, i + 1);
    }
}

impl Value {
    /// Structural equality of the models: same shape, same numbers bit for
    /// bit, same characters.
    #[verifier::loop_isolation(false)]
    pub fn equals(&self, other: &Value) -> (r: bool)
        ensures
            r == (self@ == other@),
        decreases self,
    {
        match (self, other) {
            (Value::Null, Value::Null) => true,
            (Value::Bool(a), Value::Bool(b)) => a == b,
            (Value::Num(a), Value::Num(b)) => a == b,
            (Value::Str(a), Value::Str(b)) => str_eq(a.as_str(), b.as_str()),
            (Value::Arr(x), Value::Arr(y)) => {
                if x.len() != y.len() {
                    proof {
                        assert(arr_model(x@).len() != arr_model(y@).len());
                    }
                    return false;
                }
                let mut i: usize = 0;
                while i < x.len()
                    invariant
                        i <= x@.len(),
                        x@.len() == y@.len(),
                        forall|j: int| 0 <= j < i ==> arr_model(x@)[j] == arr_model(y@)[j],
                    decreases x@.len() - i,
                {
                    proof {
                        assert(decreases_to!(*self => self->Arr_0));
                        assert(*x == self->Arr_0);
                        assert(decreases_to!(*x => x@));
                        assert(decreases_to!(x@ => x@[i as int]));
                    }
                    if !x[i].equals(&y[i]) {
                        proof {
                            assert(arr_model(x@)[i as int] != arr_model(y@)[i as int]);
                        }
                        return false;
                    }
                    i += 1;
                }
                proof {
                    assert(arr_model(x@) =~= arr_model(y@));
                }
                true
            },
            (Value::Obj(fx), Value::Obj(fy)) => {
                if fx.len() != fy.len() {
                    proof {
                        assert(fields_model(fx@).len() != fields_model(fy@).len());
                    }
                    return false;
                }
                let mut i: usize = 0;
                while i < fx.len()
                    invariant
                        i <= fx@.len(),
                        fx@.len() == fy@.len(),
                        forall|j: int| 0 <= j < i ==> fields_model(fx@)[j] == fields_model(fy@)[j],
                    decreases fx@.len() - i,
                {
                    proof {
                        assert(decreases_to!(*self => self->Obj_0));
                        assert(*fx == self->Obj_0);
                        assert(decreases_to!(*fx => fx@));
                        assert(decreases_to!(fx@ => fx@[i as int]));
                        assert(decreases_to!(fx@[i as int] => fx@[i as int].value));
                    }
                    if !str_eq(fx[i].key.as_str(), fy[i].key.as_str()) {
                        proof {
                            assert(fields_model(fx@)[i as int].0 != fields_model(fy@)[i as int].0);
                        }
                        return false;
                    }
                    if !fx[i].value.equals(&fy[i].value) {
                        proof {
                            assert(fields_model(fx@)[i as int].1 != fields_model(fy@)[i as int].1);
                        }
                        return false;
                    }
                    i += 1;
                }
                proof {
                    assert(fields_model(fx@) =~= fields_model(fy@));
                }
                true
            },
            _ => {
                proof {
                    assert(self@ != other@);
                }
                false
            },
        }
    }

    /// Shallow merge: when both values are mappings, the other's fields are
    /// bound into this one in order; otherwise this value becomes a copy of
    /// the other.
    pub fn merge(&mut self, other: &Value)
        ensures
            ({
                match (*old(self), *other) {
                    (Value::Obj(_), Value::Obj(_)) => final(self)@ == Val::Obj(
                        merge_from(old(self)@->Obj_0, other@->Obj_0, 0),
                    ),
                    _ => final(self)@ == other@,
                }
            }),
    {
        let merged: Value = match (&*self, other) {
            (Value::Obj(base), Value::Obj(add)) => Value::Obj(merge_fields_exec(base, add)),
            _ => other.deep_clone(),
        };
        *self = merged;
    }

    /// The abstract byte cost of the value, saturating at the machine word.
    #[verifier::loop_isolation(false)]
    pub fn size(&self) -> (r: usize)
        ensures
            r as int == if val_size(self@) <= usize::MAX {
                val_size(self@)
            } else {
                usize::MAX as int
            },
        decreases self,
    {
        match self {
            Value::Null => 0,
            Value::Bool(_) => 1,
            Value::Num(_) => 8,
            Value::Str(s) => s.as_str().unicode_len(),
            Value::Arr(a) => {
                let ghost m = arr_model(a@);
                let mut total: usize = 0;
                let mut i: usize = 0;
                while i < a.len()
                    invariant
                        i <= a@.len(),
                        m == arr_model(a@),
                        m.len() == a@.len(),
                        total as int == if arr_size(m, 0) - arr_size(m, i as int) <= usize::MAX {
                            arr_size(m, 0) - arr_size(m, i as int)
                        } else {
                            usize::MAX as int
                        },
                    decreases a@.len() - i,
                {
                    proof {
                        assert(decreases_to!(*self => self->Arr_0));
                        assert(*a == self->Arr_0);
                        assert(decreases_to!(*a => a@));
                        assert(decreases_to!(a@ => a@[i as int]));
                        lemma_val_size_nonneg(m[i as int]);
                        lemma_arr_size_nonneg(m, i as int + 1);
                        lemma_arr_size_nonneg(m, i as int);
                    }
                    let c = a[i].size();
                    if total <= usize::MAX - c {
                        total = total + c;
                    } else {
                        total = usize::MAX;
                    }
                    i += 1;
                }
                proof {
                    assert(arr_size(m, a@.len() as int) == 0);
                }
                if total <= usize::MAX - 24 {
                    total + 24
                } else {
                    usize::MAX
                }
            },
            Value::Obj(fs) => {
                let ghost m = fields_model(fs@);
                let mut total: usize = 0;
                let mut i: usize = 0;
                while i < fs.len()
                    invariant
                        i <= fs@.len(),
                        m == fields_model(fs@),
                        m.len() == fs@.len(),
                        total as int == if fields_size(m, 0) - fields_size(m, i as int)
                            <= usize::MAX {
                            fields_size(m, 0) - fields_size(m, i as int)
                        } else {
                            usize::MAX as int
                        },
                    decreases fs@.len() - i,
                {
                    proof {
                        assert(decreases_to!(*self => self->Obj_0));
                        assert(*fs == self->Obj_0);
                        assert(decreases_to!(*fs => fs@));
                        assert(decreases_to!(fs@ => fs@[i as int]));
                        assert(decreases_to!(fs@[i as int] => fs@[i as int].value));
                        lemma_val_size_nonneg(m[i as int].1);
                        lemma_fields_size_nonneg(m, i as int + 1);
                        lemma_fields_size_nonneg(m, i as int);
                    }
                    let kl = fs[i].key.as_str().unicode_len();
                    let c = fs[i].value.size();
                    if total <= usize::MAX - kl {
                        total = total + kl;
                    } else {
                        total = usize::MAX;
                    }
                    if total <= usize::MAX - c {
                        total = total + c;
                    } else {
                        total = usize::MAX;
                    }
                    i += 1;
                }
                proof {
                    assert(fields_size(m, fs@.len() as int) == 0);
                }
                if total <= usize::MAX - 24 {
                    total + 24
                } else {
                    usize::MAX
                }
            },
        }
    }

    /// The compact binary form of the value.
    pub fn compress(&self) -> (r: Vec<u8>)
        ensures
            r@ == crate::codec::spec_encode(self@),
            crate::codec::val_bounded(self@),
    {
        crate::codec::encode_val(self)
    }

    /// The value a compact binary buffer holds, when it holds exactly one.
    pub fn decompress(data: &Vec<u8>) -> (r: Option<Value>)
        ensures
            ({
                let d = crate::codec::spec_decode(data@, 0);
                match r {
                    Some(v) => d == Some((v@, data@.len() as nat)),
                    None => d is None || d.unwrap().1 != data@.len(),
                }
            }),
    {
        crate::codec::decode_val(data)
    }
}

} // verus!
