//! Run-time values of the language and their models.
use vstd::prelude::*;
use crate::ast::{
    ArraySize, Expr, ExprM, TypeAnnotation, TypeM, copy_expr, copy_opt_type, same_expr,
    same_opt_type, view_opt_type,
};
use crate::scope::Scope;
use crate::text::{i64_text, int_text, owned, u64_text, nat_text};

verus! {

/// A value computed by the interpreter.
#[derive(Debug, PartialEq)]
pub enum Value {
    Int(i64),
    Str(String),
    Bool(bool),
    Unit,
    Array(Vec<Value>),
    Function {
        params: Vec<String>,
        captured_scope: Scope,
        body: Box<Expr>,
        return_type: Option<TypeAnnotation>,
    },
}

/// Model of a [`Value`]: a function value holds the model of the variables it captured.
pub enum ValueM {
    Int(i64),
    Str(Seq<char>),
    Bool(bool),
    Unit,
    Array(Seq<ValueM>),
    Function {
        params: Seq<Seq<char>>,
        captured: Map<Seq<char>, ValueM>,
        body: ExprM,
        return_type: Option<TypeM>,
    },
}

pub open spec fn view_strings(ss: Seq<String>) -> Seq<Seq<char>> {
    Seq::new(ss.len(), |i: int| ss[i]@)
}

pub open spec fn view_value(v: Value) -> ValueM
    decreases v,
{
    match v {
        Value::Int(i) => ValueM::Int(i),
        Value::Str(s) => ValueM::Str(s@),
        Value::Bool(b) => ValueM::Bool(b),
        Value::Unit => ValueM::Unit,
        Value::Array(vs) => ValueM::Array(view_values(vs@)),
        Value::Function { params, captured_scope, body, return_type } => ValueM::Function {
            params: view_strings(params@),
            captured: captured_scope@,
            body: body@,
            return_type: view_opt_type(return_type),
        },
    }
}

pub open spec fn view_values(vs: Seq<Value>) -> Seq<ValueM>
    decreases vs,
{
    if vs.len() == 0 {
        Seq::empty()
    } else {
        view_values(vs.drop_last()).push(view_value(vs.last()))
    }
}

impl View for Value {
    type V = ValueM;

    open spec fn view(&self) -> ValueM {
        view_value(*self)
    }
}

/// The view of a list of values, entry by entry.
pub proof fn lemma_view_values(vs: Seq<Value>)
    ensures
        view_values(vs).len() == vs.len(),
        forall|i: int| 0 <= i < vs.len() ==> #[trigger] view_values(vs)[i] == view_value(vs[i]),
    decreases vs.len(),
{
    if vs.len() > 0 {
        lemma_view_values(vs.drop_last());
    }
}

/// The name of a value's type, as error messages show it.
pub open spec fn type_name_spec(v: ValueM) -> Seq<char> {
    match v {
        ValueM::Int(_) => "int"@,
        ValueM::Str(_) => "string"@,
        ValueM::Bool(_) => "bool"@,
        ValueM::Unit => "unit"@,
        ValueM::Array(_) => "array"@,
        ValueM::Function { .. } => "function"@,
    }
}

/// How `print` shows a value.
pub open spec fn display_spec(v: ValueM) -> Seq<char> {
    match v {
        ValueM::Int(i) => int_text(i as int),
        ValueM::Str(s) => s,
        ValueM::Bool(b) => if b { "true"@ } else { "false"@ },
        ValueM::Unit => "unit"@,
        ValueM::Array(_) => "<array>"@,
        ValueM::Function { .. } => "<function>"@,
    }
}

/// Whether a value has the annotated type. `Float` and `Never` admit no
/// value; a custom type name admits every value.
pub open spec fn check_type_spec(t: TypeM, v: ValueM) -> bool
    decreases t, 0int,
{
    match t {
        TypeM::Int => v is Int,
        TypeM::Float => false,
        TypeM::Str => v is Str,
        TypeM::Bool => v is Bool,
        TypeM::Never => false,
        TypeM::Array(elem, size) => match v {
            ValueM::Array(vs) => all_have_type(*elem, vs) && match size {
                ArraySize::Fixed(n) => vs.len() as i64 == n,
                ArraySize::Inferred => true,
            },
            _ => false,
        },
        TypeM::Fn(_, _) => v is Function,
        TypeM::Custom(_) => true,
    }
}

/// Whether every value of a sequence has the annotated type.
pub open spec fn all_have_type(t: TypeM, vs: Seq<ValueM>) -> bool
    decreases t, vs.len(),
{
    if vs.len() == 0 {
        true
    } else {
        all_have_type(t, vs.drop_last()) && check_type_spec(t, vs.last())
    }
}

/// Assigning `new` to a variable that holds `cur`: scalars of the same type
/// are replaced, arrays of the same length are assigned element by element
/// (stopping at the first element that fails, the earlier ones keeping their
/// new values), functions are replaced, and anything else is a type mismatch.
pub open spec fn assign_spec(cur: ValueM, new: ValueM) -> (ValueM, Result<(), Seq<char>>)
    decreases new, 0int,
{
    match (cur, new) {
        (ValueM::Int(_), ValueM::Int(_)) => (new, Ok(())),
        (ValueM::Bool(_), ValueM::Bool(_)) => (new, Ok(())),
        (ValueM::Str(_), ValueM::Str(_)) => (new, Ok(())),
        (ValueM::Unit, ValueM::Unit) => (new, Ok(())),
        (ValueM::Array(a), ValueM::Array(b)) => if a.len() != b.len() {
            (
                cur,
                Err("Array length mismatch: expected "@ + nat_text(a.len()) + ", got "@ + nat_text(b.len())),
            )
        } else {
            let (vs, r) = assign_elements_spec(a, b, 0);
            (ValueM::Array(vs), r)
        },
        (ValueM::Function { .. }, ValueM::Function { .. }) => (new, Ok(())),
        _ => (cur, Err("Type mismatch. Expected "@ + type_name_spec(cur) + ", found "@ + type_name_spec(new))),
    }
}

/// Element-wise assignment of `b` into `a` from index `i` on: the array
/// after the assignments, and the first failure if there is one.
pub open spec fn assign_elements_spec(a: Seq<ValueM>, b: Seq<ValueM>, i: int) -> (Seq<ValueM>, Result<(), Seq<char>>)
    decreases b, b.len() - i,
{
    if i < 0 || i >= a.len() || i >= b.len() {
        (a, Ok(()))
    } else {
        let (x, r) = assign_spec(a[i], b[i]);
        match r {
            Err(e) => (a.update(i, x), Err(e)),
            Ok(()) => assign_elements_spec(a.update(i, x), b, i + 1),
        }
    }
}

// ------------------------------------------------------------------- laws

/// A successful assignment gives the variable exactly the new value, however
/// deeply arrays nest: element-wise assignment that succeeds everywhere
/// leaves no trace of the old elements.
pub proof fn lemma_assign_success(cur: ValueM, new: ValueM)
    ensures
        assign_spec(cur, new).1 is Ok ==> assign_spec(cur, new).0 == new,
    decreases new, 0int,
{
    match (cur, new) {
        (ValueM::Array(a), ValueM::Array(b)) => {
            if a.len() == b.len() {
                lemma_assign_elements_success(a, b, 0);
                let vs = assign_elements_spec(a, b, 0).0;
                if assign_elements_spec(a, b, 0).1 is Ok {
                    assert(vs =~= b);
                }
            }
        },
        _ => {},
    }
}

/// Element-wise assignment from index `i` on, when it succeeds, keeps the
/// elements before `i` and takes the new elements from `i` on.
pub proof fn lemma_assign_elements_success(a: Seq<ValueM>, b: Seq<ValueM>, i: int)
    requires
        a.len() == b.len(),
        0 <= i <= a.len(),
    ensures
        assign_elements_spec(a, b, i).1 is Ok ==> {
            let vs = assign_elements_spec(a, b, i).0;
            &&& vs.len() == a.len()
            &&& forall|j: int| 0 <= j < i ==> vs[j] == a[j]
            &&& forall|j: int| i <= j < a.len() ==> vs[j] == b[j]
        },
    decreases b, b.len() - i,
{
    if i < a.len() {
        assert(decreases_to!(b => b[i]));
        lemma_assign_success(a[i], b[i]);
        let (x, r) = assign_spec(a[i], b[i]);
        if r is Ok {
            lemma_assign_elements_success(a.update(i, x), b, i + 1);
        }
    }
}

/// Assignment never changes the type of a variable: values of different
/// types are refused.
pub proof fn lemma_assign_keeps_type(cur: ValueM, new: ValueM)
    ensures
        type_name_spec(cur) != type_name_spec(new) ==> assign_spec(cur, new) == (
            cur,
            Err::<(), Seq<char>>("Type mismatch. Expected "@ + type_name_spec(cur) + ", found "@ + type_name_spec(new)),
        ),
        assign_spec(cur, new).1 is Ok ==> type_name_spec(assign_spec(cur, new).0) == type_name_spec(cur),
{
    lemma_assign_success(cur, new);
    reveal_strlit("int");
    reveal_strlit("string");
    reveal_strlit("bool");
    reveal_strlit("unit");
    reveal_strlit("array");
    reveal_strlit("function");
}

/// Two values have the same shape: the same type and, for arrays, the same
/// length with elements of the same shape one by one.
pub open spec fn same_shape(a: ValueM, b: ValueM) -> bool
    decreases a, 1int,
{
    &&& type_name_spec(a) == type_name_spec(b)
    &&& match (a, b) {
        (ValueM::Array(x), ValueM::Array(y)) => x.len() == y.len() && shapes_match(x, y, x.len() as int),
        _ => true,
    }
}

/// The first `n` elements of two sequences have the same shapes pairwise.
pub open spec fn shapes_match(x: Seq<ValueM>, y: Seq<ValueM>, n: int) -> bool
    decreases x, 0int, n,
{
    if n <= 0 || n > x.len() || n > y.len() {
        true
    } else {
        shapes_match(x, y, n - 1) && same_shape(x[n - 1], y[n - 1])
    }
}

proof fn lemma_shapes_match_all(x: Seq<ValueM>, y: Seq<ValueM>, n: int)
    requires
        0 <= n <= x.len(),
        n <= y.len(),
    ensures
        shapes_match(x, y, n) <==> forall|j: int| 0 <= j < n ==> #[trigger] same_shape(x[j], y[j]),
    decreases n,
{
    if n > 0 {
        lemma_shapes_match_all(x, y, n - 1);
        if shapes_match(x, y, n) {
            assert forall|j: int| 0 <= j < n implies #[trigger] same_shape(x[j], y[j]) by {
                if j < n - 1 {
                    assert(shapes_match(x, y, n - 1));
                }
            }
        }
        if forall|j: int| 0 <= j < n ==> #[trigger] same_shape(x[j], y[j]) {
            assert(same_shape(x[n - 1], y[n - 1]));
            assert forall|j: int| 0 <= j < n - 1 implies #[trigger] same_shape(x[j], y[j]) by {}
        }
    }
}

/// Every value has its own shape.
pub proof fn lemma_same_shape_refl(a: ValueM)
    ensures
        same_shape(a, a),
    decreases a,
{
    match a {
        ValueM::Array(x) => {
            assert forall|j: int| 0 <= j < x.len() implies #[trigger] same_shape(x[j], x[j]) by {
                assert(decreases_to!(a => x));
                assert(decreases_to!(x => x[j]));
                lemma_same_shape_refl(x[j]);
            }
            lemma_shapes_match_all(x, x, x.len() as int);
        },
        _ => {},
    }
}

/// Having the same shape is transitive.
pub proof fn lemma_same_shape_trans(a: ValueM, b: ValueM, c: ValueM)
    requires
        same_shape(a, b),
        same_shape(b, c),
    ensures
        same_shape(a, c),
    decreases a,
{
    reveal_strlit("int");
    reveal_strlit("string");
    reveal_strlit("bool");
    reveal_strlit("unit");
    reveal_strlit("array");
    reveal_strlit("function");
    match (a, b, c) {
        (ValueM::Array(x), ValueM::Array(y), ValueM::Array(z)) => {
            lemma_shapes_match_all(x, y, x.len() as int);
            lemma_shapes_match_all(y, z, y.len() as int);
            assert forall|j: int| 0 <= j < x.len() implies #[trigger] same_shape(x[j], z[j]) by {
                assert(same_shape(x[j], y[j]));
                assert(same_shape(y[j], z[j]));
                assert(decreases_to!(a => x));
                assert(decreases_to!(x => x[j]));
                lemma_same_shape_trans(x[j], y[j], z[j]);
            }
            lemma_shapes_match_all(x, z, x.len() as int);
        },
        _ => {
            if a is Array {
                assert(type_name_spec(b) == "array"@);
                assert(b is Array);
                assert(c is Array);
            }
        },
    }
}

/// Assignment keeps the shape of a variable whether it succeeds or fails: the
/// type stays, and an array keeps its length and the shape of every element,
/// also when an element partway through fails and the earlier ones have
/// taken their new values.
pub proof fn lemma_assign_keeps_shape(cur: ValueM, new: ValueM)
    ensures
        same_shape(cur, assign_spec(cur, new).0),
    decreases new, 0int,
{
    match (cur, new) {
        (ValueM::Array(a), ValueM::Array(b)) => {
            if a.len() != b.len() {
                lemma_same_shape_refl(cur);
            } else {
                lemma_assign_elements_keep_shape(a, b, 0);
                let vs = assign_elements_spec(a, b, 0).0;
                lemma_shapes_match_all(a, vs, a.len() as int);
            }
        },
        (ValueM::Int(_), ValueM::Int(_)) => {},
        (ValueM::Bool(_), ValueM::Bool(_)) => {},
        (ValueM::Str(_), ValueM::Str(_)) => {},
        (ValueM::Unit, ValueM::Unit) => {},
        (ValueM::Function { .. }, ValueM::Function { .. }) => {},
        _ => lemma_same_shape_refl(cur),
    }
}

/// Element-wise assignment keeps the length and the shape of every element.
pub proof fn lemma_assign_elements_keep_shape(a: Seq<ValueM>, b: Seq<ValueM>, i: int)
    ensures
        assign_elements_spec(a, b, i).0.len() == a.len(),
        forall|j: int| 0 <= j < a.len() ==> #[trigger] same_shape(a[j], assign_elements_spec(a, b, i).0[j]),
    decreases b, b.len() - i,
{
    if i < 0 || i >= a.len() || i >= b.len() {
        assert forall|j: int| 0 <= j < a.len() implies #[trigger] same_shape(a[j], assign_elements_spec(a, b, i).0[j]) by {
            lemma_same_shape_refl(a[j]);
        }
    } else {
        assert(decreases_to!(b => b[i]));
        lemma_assign_keeps_shape(a[i], b[i]);
        let (x, r) = assign_spec(a[i], b[i]);
        let a2 = a.update(i, x);
        match r {
            Err(_) => {
                assert forall|j: int| 0 <= j < a.len() implies #[trigger] same_shape(a[j], a2[j]) by {
                    if j != i {
                        lemma_same_shape_refl(a[j]);
                    }
                }
            },
            Ok(()) => {
                lemma_assign_elements_keep_shape(a2, b, i + 1);
                let vs = assign_elements_spec(a2, b, i + 1).0;
                assert forall|j: int| 0 <= j < a.len() implies #[trigger] same_shape(a[j], vs[j]) by {
                    assert(same_shape(a2[j], vs[j]));
                    if j != i {
                        assert(a2[j] == a[j]);
                    } else {
                        lemma_same_shape_trans(a[j], a2[j], vs[j]);
                    }
                }
            },
        }
    }
}

// ------------------------------------------------------------------ copies

pub fn copy_strings(ss: &Vec<String>) -> (r: Vec<String>)
    ensures
        view_strings(r@) == view_strings(ss@),
{
    let mut out: Vec<String> = Vec::new();
    let mut i: usize = 0;
    while i < ss.len()
        invariant
            i <= ss.len(),
            out@.len() == i,
            forall|j: int| 0 <= j < i ==> #[trigger] out@[j]@ == ss@[j]@,
        decreases ss.len() - i,
    {
        out.push(ss[i].clone());
        i = i + 1;
    }
    assert(view_strings(out@) =~= view_strings(ss@));
    out
}

/// A copy of a value, with the same model.
pub fn copy_value(v: &Value) -> (r: Value)
    ensures
        r@ == v@,
    decreases v@, 0int,
{
    match v {
        Value::Int(i) => Value::Int(*i),
        Value::Str(s) => Value::Str(s.clone()),
        Value::Bool(b) => Value::Bool(*b),
        Value::Unit => Value::Unit,
        Value::Array(vs) => {
            assert(v@ == ValueM::Array(view_values(vs@)));
            assert(decreases_to!(v@ => v@->Array_0));
            Value::Array(copy_values(vs))
        },
        Value::Function { params, captured_scope, body, return_type } => {
            assert(v@->captured == captured_scope@);
            assert(decreases_to!(v@ => v@->captured));
            let params2 = copy_strings(params);
            let scope2 = copy_scope(captured_scope);
            let body2 = copy_expr(body);
            let rt2 = copy_opt_type(return_type);
            Value::Function { params: params2, captured_scope: scope2, body: Box::new(body2), return_type: rt2 }
        },
    }
}

pub fn copy_values(vs: &Vec<Value>) -> (r: Vec<Value>)
    ensures
        view_values(r@) == view_values(vs@),
    decreases view_values(vs@), 0int,
{
    proof {
        lemma_view_values(vs@);
    }
    let mut out: Vec<Value> = Vec::new();
    let mut i: usize = 0;
    while i < vs.len()
        invariant
            i <= vs.len(),
            out@.len() == i,
            view_values(vs@).len() == vs.len(),
            forall|j: int| 0 <= j < vs.len() ==> #[trigger] view_values(vs@)[j] == view_value(vs@[j]),
            forall|j: int| 0 <= j < i ==> #[trigger] view_value(out@[j]) == view_value(vs@[j]),
        decreases vs.len() - i,
    {
        assert(decreases_to!(view_values(vs@) => view_values(vs@)[i as int]));
        let x = copy_value(&vs[i]);
        out.push(x);
        i = i + 1;
    }
    proof {
        lemma_view_values(out@);
    }
    assert(view_values(out@) =~= view_values(vs@));
    out
}

/// A copy of a scope, with the same variables.
pub fn copy_scope(sc: &Scope) -> (r: Scope)
    ensures
        r@ == sc@,
    decreases sc@, 0int,
{
    let es = sc.entries();
    let mut out = Scope::new();
    let mut i: usize = 0;
    while i < es.len()
        invariant
            i <= es.len(),
            forall|j: int| 0 <= j < es@.len() ==> sc@.contains_key(#[trigger] es@[j].0@) && sc@[es@[j].0@] == es@[j].1@,
            forall|k: Seq<char>| sc@.contains_key(k) ==> exists|j: int| 0 <= j < es@.len() && #[trigger] es@[j].0@ == k,
            sc@.dom().finite(),
            out@ == sc@.restrict(Set::new(|k: Seq<char>| exists|j: int| 0 <= j < i && es@[j].0@ == k)),
        decreases es.len() - i,
    {
        let (k, v) = es[i];
        assert(decreases_to!(sc@ => sc@[k@])) by {
            vstd::map::axiom_map_index_decreases_finite(sc@, k@);
        }
        let v2 = copy_value(v);
        let ghost before = out@;
        out.insert(k.clone(), v2);
        i = i + 1;
        assert(out@ =~= sc@.restrict(Set::new(|k: Seq<char>| exists|j: int| 0 <= j < i && es@[j].0@ == k))) by {
            assert forall|key: Seq<char>| #[trigger] out@.contains_key(key) implies sc@.restrict(Set::new(|k: Seq<char>| exists|j: int| 0 <= j < i && es@[j].0@ == k)).contains_key(key) by {
                if key == es@[i - 1].0@ {
                } else {
                    let j = choose|j: int| 0 <= j < i - 1 && es@[j].0@ == key;
                    assert(exists|j: int| 0 <= j < i && es@[j].0@ == key);
                }
            }
            assert forall|key: Seq<char>| sc@.restrict(Set::new(|k: Seq<char>| exists|j: int| 0 <= j < i && es@[j].0@ == k)).contains_key(key) implies #[trigger] out@.contains_key(key) by {
                let j = choose|j: int| 0 <= j < i && es@[j].0@ == key;
                if j < i - 1 {
                    assert(before.contains_key(key));
                }
            }
        }
    }
    assert(out@ =~= sc@) by {
        assert forall|key: Seq<char>| sc@.contains_key(key) implies #[trigger] out@.contains_key(key) by {
            let j = choose|j: int| 0 <= j < es@.len() && #[trigger] es@[j].0@ == key;
        }
    }
    out
}

// ---------------------------------------------------------------- equality

pub fn same_strings(a: &Vec<String>, b: &Vec<String>) -> (r: bool)
    ensures
        r == (view_strings(a@) == view_strings(b@)),
{
    if a.len() != b.len() {
        assert(view_strings(a@).len() != view_strings(b@).len());
        return false;
    }
    let mut i: usize = 0;
    while i < a.len()
        invariant
            a.len() == b.len(),
            i <= a.len(),
            forall|j: int| 0 <= j < i ==> #[trigger] a@[j]@ == b@[j]@,
        decreases a.len() - i,
    {
        if a[i] != b[i] {
            assert(view_strings(a@)[i as int] != view_strings(b@)[i as int]);
            return false;
        }
        i = i + 1;
    }
    assert(view_strings(a@) =~= view_strings(b@));
    true
}

/// Whether two values are equal, as the language's `==` compares them.
pub fn same_value(a: &Value, b: &Value) -> (r: bool)
    ensures
        r == (a@ == b@),
    decreases a@, 0int,
{
    match (a, b) {
        (Value::Int(x), Value::Int(y)) => *x == *y,
        (Value::Str(x), Value::Str(y)) => *x == *y,
        (Value::Bool(x), Value::Bool(y)) => *x == *y,
        (Value::Unit, Value::Unit) => true,
        (Value::Array(x), Value::Array(y)) => {
            assert(a@ == ValueM::Array(view_values(x@)));
            assert(decreases_to!(a@ => a@->Array_0));
            same_values(x, y)
        },
        (
            Value::Function { params: p1, captured_scope: c1, body: b1, return_type: r1 },
            Value::Function { params: p2, captured_scope: c2, body: b2, return_type: r2 },
        ) => {
            assert(a@->captured == c1@);
            assert(decreases_to!(a@ => a@->captured));
            same_strings(p1, p2) && same_scope(c1, c2) && same_expr(b1, b2) && same_opt_type(r1, r2)
        },
        _ => false,
    }
}

pub fn same_values(a: &Vec<Value>, b: &Vec<Value>) -> (r: bool)
    ensures
        r == (view_values(a@) == view_values(b@)),
    decreases view_values(a@), 0int,
{
    proof {
        lemma_view_values(a@);
        lemma_view_values(b@);
    }
    if a.len() != b.len() {
        return false;
    }
    let mut i: usize = 0;
    while i < a.len()
        invariant
            a.len() == b.len(),
            i <= a.len(),
            view_values(a@).len() == a.len(),
            view_values(b@).len() == b.len(),
            forall|j: int| 0 <= j < a.len() ==> #[trigger] view_values(a@)[j] == view_value(a@[j]),
            forall|j: int| 0 <= j < b.len() ==> #[trigger] view_values(b@)[j] == view_value(b@[j]),
            forall|j: int| 0 <= j < i ==> view_values(a@)[j] == view_values(b@)[j],
        decreases a.len() - i,
    {
        assert(decreases_to!(view_values(a@) => view_values(a@)[i as int]));
        if !same_value(&a[i], &b[i]) {
            assert(view_values(a@)[i as int] != view_values(b@)[i as int]);
            return false;
        }
        i = i + 1;
    }
    assert(view_values(a@) =~= view_values(b@));
    true
}

/// Whether two scopes hold the same variables with equal values.
pub fn same_scope(a: &Scope, b: &Scope) -> (r: bool)
    ensures
        r == (a@ == b@),
    decreases a@, 0int,
{
    let ea = a.entries();
    let eb = b.entries();
    if ea.len() != eb.len() {
        return false;
    }
    let mut i: usize = 0;
    while i < ea.len()
        invariant
            i <= ea.len(),
            ea@.len() == eb@.len(),
            forall|j: int| 0 <= j < ea@.len() ==> a@.contains_key(#[trigger] ea@[j].0@) && a@[ea@[j].0@] == ea@[j].1@,
            forall|k: Seq<char>| a@.contains_key(k) ==> exists|j: int| 0 <= j < ea@.len() && #[trigger] ea@[j].0@ == k,
            a@.dom().finite(),
            b@.dom().finite(),
            a@.dom().len() == ea@.len(),
            b@.dom().len() == eb@.len(),
            forall|j: int| 0 <= j < i ==> b@.contains_key(#[trigger] ea@[j].0@) && b@[ea@[j].0@] == a@[ea@[j].0@],
        decreases ea.len() - i,
    {
        let (k, v) = ea[i];
        match b.get(k.as_str()) {
            None => {
                return false;
            },
            Some(v2) => {
                assert(decreases_to!(a@ => a@[k@])) by {
                    vstd::map::axiom_map_index_decreases_finite(a@, k@);
                }
                if !same_value(v, v2) {
                    return false;
                }
            },
        }
        i = i + 1;
    }
    proof {
        assert(a@.dom().subset_of(b@.dom())) by {
            assert forall|k: Seq<char>| a@.dom().contains(k) implies b@.dom().contains(k) by {
                let j = choose|j: int| 0 <= j < ea@.len() && #[trigger] ea@[j].0@ == k;
            }
        }
        vstd::set_lib::lemma_subset_equality(a@.dom(), b@.dom());
        assert forall|k: Seq<char>| #[trigger] a@.contains_key(k) implies a@[k] == b@[k] by {
            let j = choose|j: int| 0 <= j < ea@.len() && #[trigger] ea@[j].0@ == k;
        }
        assert(a@ =~= b@);
    }
    true
}

// ------------------------------------------------- names, display, types

pub open spec fn view_unit_result(r: Result<(), String>) -> Result<(), Seq<char>> {
    match r {
        Ok(()) => Ok(()),
        Err(e) => Err(e@),
    }
}

impl Value {
    /// The name of the value's type.
    pub fn value_type_name(&self) -> (r: &'static str)
        ensures
            r@ == type_name_spec(self@),
    {
        match self {
            Value::Int(_) => "int",
            Value::Str(_) => "string",
            Value::Bool(_) => "bool",
            Value::Unit => "unit",
            Value::Array(_) => "array",
            Value::Function { .. } => "function",
        }
    }

    /// The text that `print` shows for the value.
    pub fn display(&self) -> (r: String)
        ensures
            r@ == display_spec(self@),
    {
        match self {
            Value::Int(i) => i64_text(*i),
            Value::Str(s) => s.clone(),
            Value::Bool(b) => if *b { owned("true") } else { owned("false") },
            Value::Unit => owned("unit"),
            Value::Array(_) => owned("<array>"),
            Value::Function { .. } => owned("<function>"),
        }
    }

    /// Assigns `other` to this value in place, as `assign_spec` states: on a
    /// failure the value keeps whatever was assigned before it.
    pub fn assign(&mut self, other: Value) -> (r: Result<(), String>)
        ensures
            (final(self)@, view_unit_result(r)) == assign_spec(old(self)@, other@),
    {
        let mut cur = Value::Unit;
        std::mem::swap(&mut cur, self);
        let (v, r) = assign_value(cur, other);
        *self = v;
        r
    }
}

/// The value that results from assigning `new` to `cur`, and whether it succeeded.
pub fn assign_value(cur: Value, new: Value) -> (r: (Value, Result<(), String>))
    ensures
        (r.0@, view_unit_result(r.1)) == assign_spec(cur@, new@),
    decreases new@, 0int,
{
    match (cur, new) {
        (Value::Int(_), Value::Int(n)) => (Value::Int(n), Ok(())),
        (Value::Bool(_), Value::Bool(n)) => (Value::Bool(n), Ok(())),
        (Value::Str(_), Value::Str(n)) => (Value::Str(n), Ok(())),
        (Value::Unit, Value::Unit) => (Value::Unit, Ok(())),
        (Value::Array(a), Value::Array(b)) => {
            proof {
                lemma_view_values(a@);
                lemma_view_values(b@);
            }
            if a.len() != b.len() {
                let mut m = owned("Array length mismatch: expected ");
                let x = u64_text(a.len() as u64);
                m.append(x.as_str());
                m.append(", got ");
                let y = u64_text(b.len() as u64);
                m.append(y.as_str());
                (Value::Array(a), Err(m))
            } else {
                let ghost bm = view_values(b@);
                assert(new@ == ValueM::Array(bm));
                assert(decreases_to!(new@ => new@->Array_0));
                let (vs, r) = assign_elements(a, b);
                (Value::Array(vs), r)
            }
        },
        (
            Value::Function { .. },
            Value::Function { params, captured_scope, body, return_type },
        ) => (Value::Function { params, captured_scope, body, return_type }, Ok(())),
        (cur, new) => {
            let mut m = owned("Type mismatch. Expected ");
            m.append(cur.value_type_name());
            m.append(", found ");
            m.append(new.value_type_name());
            (cur, Err(m))
        },
    }
}

#[verifier::loop_isolation(false)]
fn assign_elements(a: Vec<Value>, b: Vec<Value>) -> (r: (Vec<Value>, Result<(), String>))
    requires
        a.len() == b.len(),
    ensures
        (view_values(r.0@), view_unit_result(r.1)) == assign_elements_spec(view_values(a@), view_values(b@), 0),
    decreases view_values(b@), 0int,
{
    proof {
        lemma_view_values(a@);
        lemma_view_values(b@);
    }
    let ghost bm = view_values(b@);
    let ghost a0 = view_values(a@);
    let mut a = a;
    let mut i: usize = 0;
    while i < a.len()
        invariant
            a.len() == b.len(),
            i <= a.len(),
            bm == view_values(b@),
            bm.len() == b.len(),
            forall|j: int| 0 <= j < b.len() ==> #[trigger] bm[j] == view_value(b@[j]),
            view_values(a@).len() == a.len(),
            assign_elements_spec(a0, bm, 0) == assign_elements_spec(view_values(a@), bm, i as int),
        decreases a.len() - i,
    {
        proof {
            lemma_view_values(a@);
        }
        let x = copy_value(&a[i]);
        assert(decreases_to!(bm => bm[i as int]));
        let y = copy_value(&b[i]);
        let (nx, r) = assign_value(x, y);
        let ghost before = view_values(a@);
        a.set(i, nx);
        proof {
            lemma_view_values(a@);
            assert(view_values(a@) =~= before.update(i as int, nx@));
        }
        match r {
            Err(e) => {
                return (a, Err(e));
            },
            Ok(()) => {},
        }
        i = i + 1;
    }
    (a, Ok(()))
}

/// A sequence whose elements all have a type has a prefix whose elements all have it.
pub proof fn lemma_all_have_type_prefix(t: TypeM, vs: Seq<ValueM>, n: int)
    requires
        0 <= n <= vs.len(),
        all_have_type(t, vs),
    ensures
        all_have_type(t, vs.take(n)),
    decreases vs.len(),
{
    if n < vs.len() {
        lemma_all_have_type_prefix(t, vs.drop_last(), n);
        assert(vs.drop_last().take(n) =~= vs.take(n));
    } else {
        assert(vs.take(n) =~= vs);
    }
}

impl Clone for Value {
    fn clone(&self) -> (r: Self)
        ensures
            r@ == self@,
    {
        copy_value(self)
    }
}

impl Clone for Scope {
    fn clone(&self) -> (r: Self)
        ensures
            r@ == self@,
    {
        copy_scope(self)
    }
}

/// Sets, in `target`, a copy of every variable of `src`: afterwards `target`
/// holds `src`'s variables and keeps its own where `src` has none.
pub fn overlay(target: &mut Scope, src: &Scope)
    ensures
        final(target)@ == old(target)@.union_prefer_right(src@),
{
    let es = src.entries();
    let ghost t0 = target@;
    let mut i: usize = 0;
    while i < es.len()
        invariant
            i <= es.len(),
            forall|j: int| 0 <= j < es@.len() ==> src@.contains_key(#[trigger] es@[j].0@) && src@[es@[j].0@] == es@[j].1@,
            forall|k: Seq<char>| src@.contains_key(k) ==> exists|j: int| 0 <= j < es@.len() && #[trigger] es@[j].0@ == k,
            target@ == t0.union_prefer_right(src@.restrict(Set::new(|k: Seq<char>| exists|j: int| 0 <= j < i && es@[j].0@ == k))),
        decreases es.len() - i,
    {
        let (k, v) = es[i];
        let v2 = copy_value(v);
        let ghost before = target@;
        target.insert(k.clone(), v2);
        i = i + 1;
        assert(target@ =~= t0.union_prefer_right(src@.restrict(Set::new(|k: Seq<char>| exists|j: int| 0 <= j < i && es@[j].0@ == k)))) by {
            let now = Set::new(|k: Seq<char>| exists|j: int| 0 <= j < i && es@[j].0@ == k);
            let prev = Set::new(|k: Seq<char>| exists|j: int| 0 <= j < i - 1 && es@[j].0@ == k);
            assert forall|key: Seq<char>| now.contains(key) <==> (prev.contains(key) || key == es@[i - 1].0@) by {
                if now.contains(key) && key != es@[i - 1].0@ {
                    let j = choose|j: int| 0 <= j < i && es@[j].0@ == key;
                    assert(j < i - 1);
                }
                if prev.contains(key) {
                    let j = choose|j: int| 0 <= j < i - 1 && es@[j].0@ == key;
                    assert(0 <= j < i && es@[j].0@ == key);
                }
                if key == es@[i - 1].0@ {
                    assert(0 <= i - 1 < i && es@[i - 1].0@ == key);
                }
            }
        }
    }
    assert(target@ =~= t0.union_prefer_right(src@)) by {
        let all = Set::new(|k: Seq<char>| exists|j: int| 0 <= j < i && es@[j].0@ == k);
        assert forall|key: Seq<char>| src@.contains_key(key) implies all.contains(key) by {
            let j = choose|j: int| 0 <= j < es@.len() && #[trigger] es@[j].0@ == key;
        }
        assert(src@.restrict(all) =~= src@);
    }
}

} // verus!
