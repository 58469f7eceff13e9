//! The meaning of programs: a big-step semantics over models. Every
//! evaluation takes `fuel`, which each nested evaluation and each loop
//! iteration uses up; when it runs out evaluation stops with an error.
//! [`crate::interpreter::Interpreter`] computes exactly these functions.
use vstd::prelude::*;
use crate::ast::{BinaryOp, ExprM, LiteralM, StmtM, TypeM, UnaryOp, type_debug};
use crate::numeric::{round_int, round_nat};
use crate::text::{int_text, nat_text};
use crate::value::{
    ValueM, assign_spec, check_type_spec, display_spec, type_name_spec,
};

verus! {

/// The state of an interpreter.
pub struct IState {
    /// The outermost scope, which outlives the interpreter.
    pub root: Map<Seq<char>, ValueM>,
    /// The scopes of blocks and calls, innermost last.
    pub locals: Seq<Map<Seq<char>, ValueM>>,
    pub pending_return: Option<ValueM>,
    pub pending_break: Option<ValueM>,
    pub pending_continue: bool,
    /// How many loops are being evaluated.
    pub loop_depth: nat,
    /// The lines printed so far.
    pub output: Seq<Seq<char>>,
}

pub type Outcome = (IState, Result<ValueM, Seq<char>>);

pub open spec fn limit_msg() -> Seq<char> {
    "Evaluation step limit exceeded"@
}

pub open spec fn overflow_msg() -> Seq<char> {
    "Integer overflow"@
}

pub open spec fn float_msg() -> Seq<char> {
    "Floating-point values are not supported"@
}

pub open spec fn nesting_msg() -> Seq<char> {
    "Loop nesting too deep"@
}

/// The name `_` discards what is bound or assigned to it.
pub open spec fn is_wildcard(name: Seq<char>) -> bool {
    name == seq!['_']
}

pub open spec fn undefined_msg(name: Seq<char>) -> Seq<char> {
    "Undefined variable '"@ + name + "'."@
}

// ------------------------------------------------------------ scopes

pub open spec fn push_scope(s: IState) -> IState {
    IState { locals: s.locals.push(Map::empty()), ..s }
}

pub open spec fn pop_scope(s: IState) -> IState {
    if s.locals.len() > 0 {
        IState { locals: s.locals.drop_last(), ..s }
    } else {
        s
    }
}

/// Binds a name in the innermost scope (the root scope when no other is open); `_` binds nothing.
pub open spec fn define(s: IState, name: Seq<char>, v: ValueM) -> IState {
    if is_wildcard(name) {
        s
    } else if s.locals.len() > 0 {
        IState { locals: s.locals.update(s.locals.len() - 1, s.locals.last().insert(name, v)), ..s }
    } else {
        IState { root: s.root.insert(name, v), ..s }
    }
}

/// The innermost of the first `n` local scopes that has the name.
pub open spec fn innermost(locals: Seq<Map<Seq<char>, ValueM>>, n: int, name: Seq<char>) -> Option<int>
    decreases n,
{
    if n <= 0 {
        None
    } else if locals[n - 1].contains_key(name) {
        Some(n - 1)
    } else {
        innermost(locals, n - 1, name)
    }
}

/// The value of a variable: innermost scope first, the root scope last.
pub open spec fn lookup(s: IState, name: Seq<char>) -> Result<ValueM, Seq<char>> {
    match innermost(s.locals, s.locals.len() as int, name) {
        Some(i) => Ok(s.locals[i][name]),
        None => if s.root.contains_key(name) {
            Ok(s.root[name])
        } else {
            Err(undefined_msg(name))
        },
    }
}

/// Assigns to the innermost variable of that name (see `assign_spec`); `_` is ignored.
pub open spec fn assign_var(s: IState, name: Seq<char>, v: ValueM) -> (IState, Result<(), Seq<char>>) {
    if is_wildcard(name) {
        (s, Ok(()))
    } else {
        match innermost(s.locals, s.locals.len() as int, name) {
            Some(i) => {
                let (nv, r) = assign_spec(s.locals[i][name], v);
                (IState { locals: s.locals.update(i, s.locals[i].insert(name, nv)), ..s }, r)
            },
            None => if s.root.contains_key(name) {
                let (nv, r) = assign_spec(s.root[name], v);
                (IState { root: s.root.insert(name, nv), ..s }, r)
            } else {
                (s, Err(undefined_msg(name)))
            },
        }
    }
}

/// The root scope overlaid with the first `n` local scopes, later ones taking precedence.
pub open spec fn captured_upto(root: Map<Seq<char>, ValueM>, locals: Seq<Map<Seq<char>, ValueM>>, n: int) -> Map<Seq<char>, ValueM>
    decreases n,
{
    if n <= 0 {
        root
    } else {
        captured_upto(root, locals, n - 1).union_prefer_right(locals[n - 1])
    }
}

/// What a function value created now captures: every visible variable.
pub open spec fn capture(s: IState) -> Map<Seq<char>, ValueM> {
    captured_upto(s.root, s.locals, s.locals.len() as int)
}

/// Binds parameters to argument values from index `i` on.
pub open spec fn bind_params(s: IState, params: Seq<Seq<char>>, vals: Seq<ValueM>, i: int) -> IState
    decreases params.len() - i,
{
    if i < 0 || i >= params.len() || i >= vals.len() {
        s
    } else {
        bind_params(define(s, params[i], vals[i]), params, vals, i + 1)
    }
}

/// One less loop being evaluated.
pub open spec fn leave_loop(s: IState) -> IState {
    IState { loop_depth: if s.loop_depth > 0 { (s.loop_depth - 1) as nat } else { 0 }, ..s }
}

// ------------------------------------------------------------ laws of scopes

/// `innermost` depends only on which scopes hold the name.
pub proof fn lemma_innermost_same_keys(
    l1: Seq<Map<Seq<char>, ValueM>>,
    l2: Seq<Map<Seq<char>, ValueM>>,
    n: int,
    name: Seq<char>,
)
    requires
        n <= l1.len(),
        n <= l2.len(),
        forall|j: int| 0 <= j < n ==> #[trigger] l1[j].contains_key(name) == l2[j].contains_key(name),
    ensures
        innermost(l1, n, name) == innermost(l2, n, name),
    decreases n,
{
    if n > 0 {
        lemma_innermost_same_keys(l1, l2, n - 1, name);
    }
}

/// The scope that `innermost` finds holds the name.
pub proof fn lemma_innermost_found(l: Seq<Map<Seq<char>, ValueM>>, n: int, name: Seq<char>)
    requires
        n <= l.len(),
    ensures
        innermost(l, n, name) matches Some(i) ==> 0 <= i < n && l[i].contains_key(name),
        innermost(l, n, name) is None ==> forall|j: int| 0 <= j < n ==> !(#[trigger] l[j].contains_key(name)),
    decreases n,
{
    if n > 0 {
        lemma_innermost_found(l, n - 1, name);
    }
}

/// Read after write: a variable just defined reads back as the value given.
pub proof fn lemma_define_then_lookup(s: IState, name: Seq<char>, v: ValueM)
    requires
        !is_wildcard(name),
    ensures
        lookup(define(s, name, v), name) == Ok::<ValueM, Seq<char>>(v),
{
    let s1 = define(s, name, v);
    if s.locals.len() > 0 {
        assert(s1.locals.last().contains_key(name));
    } else {
        assert(s1.locals.len() == 0);
    }
}

/// Defining a variable leaves every other name as it was.
pub proof fn lemma_define_other(s: IState, name: Seq<char>, v: ValueM, other: Seq<char>)
    requires
        other != name,
    ensures
        lookup(define(s, name, v), other) == lookup(s, other),
{
    let s1 = define(s, name, v);
    if !is_wildcard(name) && s.locals.len() > 0 {
        assert forall|j: int| 0 <= j < s.locals.len() implies #[trigger] s1.locals[j].contains_key(other)
            == s.locals[j].contains_key(other) by {}
        lemma_innermost_same_keys(s1.locals, s.locals, s.locals.len() as int, other);
        lemma_innermost_found(s.locals, s.locals.len() as int, other);
    }
}

/// `_` is never bound: defining it changes nothing.
pub proof fn lemma_wildcard_define(s: IState, v: ValueM)
    ensures
        define(s, seq!['_'], v) == s,
{
}

/// What is defined in a scope pushed for it is gone once the scope is popped,
/// and the variables outside it are as they were (shadowing is undone).
pub proof fn lemma_inner_definition_dropped(s: IState, name: Seq<char>, v: ValueM)
    ensures
        pop_scope(define(push_scope(s), name, v)) == s,
{
    let s1 = define(push_scope(s), name, v);
    assert(s1.locals.drop_last() =~= s.locals);
}

/// A captured scope holds exactly the visible variables, each with the value
/// that looking it up gives.
pub proof fn lemma_capture_matches_lookup(s: IState, name: Seq<char>)
    ensures
        capture(s).contains_key(name) <==> lookup(s, name) is Ok,
        lookup(s, name) matches Ok(v) ==> capture(s)[name] == v,
{
    lemma_captured_upto(s.root, s.locals, s.locals.len() as int, name);
}

proof fn lemma_captured_upto(root: Map<Seq<char>, ValueM>, locals: Seq<Map<Seq<char>, ValueM>>, n: int, name: Seq<char>)
    requires
        n <= locals.len(),
    ensures
        captured_upto(root, locals, n).contains_key(name) <==> (innermost(locals, n, name) is Some
            || root.contains_key(name)),
        match innermost(locals, n, name) {
            Some(i) => captured_upto(root, locals, n).contains_key(name) && captured_upto(root, locals, n)[name]
                == locals[i][name],
            None => root.contains_key(name) ==> captured_upto(root, locals, n)[name] == root[name],
        },
    decreases n,
{
    if n > 0 {
        lemma_captured_upto(root, locals, n - 1, name);
    }
}

/// Assigning to a visible variable gives it the value that `assign_spec`
/// yields (with [`crate::value::lemma_assign_success`], the new value itself
/// when the assignment succeeds); assigning to a name that is not visible is
/// an error that changes nothing.
pub proof fn lemma_assign_then_lookup(s: IState, name: Seq<char>, v: ValueM)
    requires
        !is_wildcard(name),
    ensures
        lookup(s, name) matches Ok(cur) ==> assign_var(s, name, v).1 == assign_spec(cur, v).1 && lookup(
            assign_var(s, name, v).0,
            name,
        ) == Ok::<ValueM, Seq<char>>(assign_spec(cur, v).0),
        lookup(s, name) is Err ==> assign_var(s, name, v) == (s, Err::<(), Seq<char>>(undefined_msg(name))),
{
    let n = s.locals.len() as int;
    lemma_innermost_found(s.locals, n, name);
    match innermost(s.locals, n, name) {
        Some(i) => {
            let cur = s.locals[i][name];
            let nv = assign_spec(cur, v).0;
            let l2 = s.locals.update(i, s.locals[i].insert(name, nv));
            assert forall|j: int| 0 <= j < n implies #[trigger] l2[j].contains_key(name) == s.locals[j].contains_key(
                name,
            ) by {}
            lemma_innermost_same_keys(l2, s.locals, n, name);
        },
        None => {},
    }
}

// ------------------------------------------------------------ operators

/// Rust's division of integers, which truncates toward zero.
pub open spec fn trunc_div(a: int, b: int) -> int {
    let q = (if a < 0 { -a } else { a }) / (if b < 0 { -b } else { b });
    if (a < 0) != (b < 0) { -q } else { q }
}

pub open spec fn int_result(x: int) -> Result<ValueM, Seq<char>> {
    if i64::MIN <= x <= i64::MAX {
        Ok(ValueM::Int(x as i64))
    } else {
        Err(overflow_msg())
    }
}

/// The ordering comparisons, on doubles represented by the integers they equal.
pub open spec fn compare(op: BinaryOp, a: int, b: int) -> bool {
    match op {
        BinaryOp::Lt => a < b,
        BinaryOp::Gt => a > b,
        BinaryOp::Le => a <= b,
        _ => a >= b,
    }
}

/// The length of a text in bytes, as `str::len` gives it: that of its UTF-8 encoding.
pub open spec fn byte_len(s: Seq<char>) -> nat {
    (vstd::utf8::encode_utf8(s).len() as usize) as nat
}

/// Integers compare as the doubles nearest to them; strings compare by the
/// byte lengths of their UTF-8 encodings, also as doubles.
pub open spec fn compare_values(op: BinaryOp, l: ValueM, r: ValueM) -> Result<ValueM, Seq<char>> {
    match (l, r) {
        (ValueM::Int(a), ValueM::Int(b)) => Ok(ValueM::Bool(compare(op, round_int(a as int), round_int(b as int)))),
        (ValueM::Str(a), ValueM::Str(b)) => Ok(
            ValueM::Bool(compare(op, round_nat(byte_len(a)) as int, round_nat(byte_len(b)) as int)),
        ),
        _ => Err("Invalid operands for comparison"@),
    }
}

/// Integers of magnitude below 2^53 are exactly doubles, so the ordering
/// comparisons on them are exact.
pub proof fn lemma_small_ints_compare_exactly(op: BinaryOp, a: i64, b: i64)
    requires
        -9007199254740992 < a < 9007199254740992,
        -9007199254740992 < b < 9007199254740992,
    ensures
        compare_values(op, ValueM::Int(a), ValueM::Int(b)) == Ok::<ValueM, Seq<char>>(
            ValueM::Bool(compare(op, a as int, b as int)),
        ),
{
}

/// Comparisons of integers never contradict their order: when `a <= b`,
/// `a <= b` holds and `a > b` does not (above 2^53 neighbouring integers may
/// compare equal, but never in reverse).
pub proof fn lemma_int_compare_respects_order(a: i64, b: i64)
    requires
        a <= b,
    ensures
        compare_values(BinaryOp::Le, ValueM::Int(a), ValueM::Int(b)) == Ok::<ValueM, Seq<char>>(ValueM::Bool(true)),
        compare_values(BinaryOp::Gt, ValueM::Int(a), ValueM::Int(b)) == Ok::<ValueM, Seq<char>>(ValueM::Bool(false)),
        compare_values(BinaryOp::Ge, ValueM::Int(b), ValueM::Int(a)) == Ok::<ValueM, Seq<char>>(ValueM::Bool(true)),
        compare_values(BinaryOp::Lt, ValueM::Int(b), ValueM::Int(a)) == Ok::<ValueM, Seq<char>>(ValueM::Bool(false)),
{
    crate::numeric::lemma_round_int_monotone(a as int, b as int);
}

/// Comparisons of strings never contradict the order of their lengths in bytes.
pub proof fn lemma_str_compare_respects_length(a: Seq<char>, b: Seq<char>)
    requires
        byte_len(a) <= byte_len(b),
    ensures
        compare_values(BinaryOp::Le, ValueM::Str(a), ValueM::Str(b)) == Ok::<ValueM, Seq<char>>(ValueM::Bool(true)),
        compare_values(BinaryOp::Gt, ValueM::Str(a), ValueM::Str(b)) == Ok::<ValueM, Seq<char>>(ValueM::Bool(false)),
{
    crate::numeric::lemma_round_nat_monotone(byte_len(a), byte_len(b));
}

/// A binary operator applied to two values.
pub open spec fn binary_spec(op: BinaryOp, l: ValueM, r: ValueM) -> Result<ValueM, Seq<char>> {
    match op {
        BinaryOp::Add => match (l, r) {
            (ValueM::Int(a), ValueM::Int(b)) => int_result(a + b),
            (ValueM::Str(a), ValueM::Str(b)) => Ok(ValueM::Str(a + b)),
            _ => Err("Invalid operands for +"@),
        },
        BinaryOp::Sub => match (l, r) {
            (ValueM::Int(a), ValueM::Int(b)) => int_result(a - b),
            _ => Err("Invalid operands for -"@),
        },
        BinaryOp::Mul => match (l, r) {
            (ValueM::Int(a), ValueM::Int(b)) => int_result(a * b),
            _ => Err("Invalid operands for *"@),
        },
        BinaryOp::Div => match (l, r) {
            (ValueM::Int(a), ValueM::Int(b)) => if b != 0 {
                int_result(trunc_div(a as int, b as int))
            } else {
                Err("Invalid operands for / or divide by zero"@)
            },
            _ => Err("Invalid operands for / or divide by zero"@),
        },
        BinaryOp::Eq => Ok(ValueM::Bool(l == r)),
        BinaryOp::Ne => Ok(ValueM::Bool(l != r)),
        BinaryOp::Lt | BinaryOp::Gt | BinaryOp::Le | BinaryOp::Ge => compare_values(op, l, r),
        BinaryOp::And => match (l, r) {
            (ValueM::Bool(a), ValueM::Bool(b)) => Ok(ValueM::Bool(a && b)),
            _ => Err("Invalid operands for and"@),
        },
        BinaryOp::Or => match (l, r) {
            (ValueM::Bool(a), ValueM::Bool(b)) => Ok(ValueM::Bool(a || b)),
            _ => Err("Invalid operands for or"@),
        },
        BinaryOp::BitAnd => match (l, r) {
            (ValueM::Int(a), ValueM::Int(b)) => Ok(ValueM::Int(a & b)),
            _ => Err("Invalid operands for &"@),
        },
        BinaryOp::BitOr => match (l, r) {
            (ValueM::Int(a), ValueM::Int(b)) => Ok(ValueM::Int(a | b)),
            _ => Err("Invalid operands for |"@),
        },
    }
}

/// A prefix operator applied to a value.
pub open spec fn unary_spec(op: UnaryOp, v: ValueM) -> Result<ValueM, Seq<char>> {
    match (op, v) {
        (UnaryOp::Neg, ValueM::Int(i)) => int_result(-(i as int)),
        (UnaryOp::Not, ValueM::Bool(b)) => Ok(ValueM::Bool(!b)),
        (UnaryOp::BitNot, ValueM::Int(i)) => Ok(ValueM::Int((-(i as int) - 1) as i64)),
        _ => Err("Invalid unary operation"@),
    }
}

/// What `print` writes for its arguments: their displays separated by spaces.
pub open spec fn join_displays(vs: Seq<ValueM>) -> Seq<char>
    decreases vs.len(),
{
    if vs.len() == 0 {
        Seq::empty()
    } else if vs.len() == 1 {
        display_spec(vs[0])
    } else {
        join_displays(vs.drop_last()) + " "@ + display_spec(vs.last())
    }
}

pub open spec fn param_names(ps: Seq<(Seq<char>, TypeM)>) -> Seq<Seq<char>> {
    Seq::new(ps.len(), |i: int| ps[i].0)
}

pub open spec fn opt_param_names(ps: Seq<(Seq<char>, Option<TypeM>)>) -> Seq<Seq<char>> {
    Seq::new(ps.len(), |i: int| ps[i].0)
}

pub open spec fn unbox_type(t: Option<Box<TypeM>>) -> Option<TypeM> {
    match t {
        Some(b) => Some(*b),
        None => None,
    }
}

// ------------------------------------------------------------ evaluation

/// Evaluates an expression.
pub open spec fn eval_expr(fuel: nat, s: IState, e: ExprM) -> Outcome
    decreases fuel, 0int, 0int,
{
    if fuel == 0 {
        (s, Err(limit_msg()))
    } else {
        let f = (fuel - 1) as nat;
        match e {
            ExprM::Literal(LiteralM::Int(i)) => (s, Ok(ValueM::Int(i))),
            ExprM::Literal(LiteralM::Float(_)) => (s, Err(float_msg())),
            ExprM::Literal(LiteralM::Str(t)) => (s, Ok(ValueM::Str(t))),
            ExprM::Literal(LiteralM::Bool(b)) => (s, Ok(ValueM::Bool(b))),
            ExprM::Ident(name) => (s, lookup(s, name)),
            ExprM::Unary(op, x) => eval_unary(f, s, op, *x),
            ExprM::Binary(l, op, r) => eval_binary(f, s, *l, op, *r),
            ExprM::If { condition, then_branch, else_branch } => eval_if(f, s, *condition, *then_branch, else_branch),
            ExprM::Call { callee, args } => eval_call(f, s, *callee, args),
            ExprM::Fn { params, body, return_type } => (
                s,
                Ok(ValueM::Function {
                    params: opt_param_names(params),
                    captured: capture(s),
                    body: *body,
                    return_type,
                }),
            ),
            ExprM::Loop { body } => if s.loop_depth >= usize::MAX {
                (s, Err(nesting_msg()))
            } else {
                loop_run(f, IState { loop_depth: s.loop_depth + 1, ..s }, *body)
            },
            ExprM::While { condition, body } => if s.loop_depth >= usize::MAX {
                (s, Err(nesting_msg()))
            } else {
                while_run(f, IState { loop_depth: s.loop_depth + 1, ..s }, *condition, *body)
            },
            ExprM::Break { value } => eval_break(f, s, value),
            ExprM::Continue => if s.loop_depth == 0 {
                (s, Err("continue outside of loop"@))
            } else {
                (IState { pending_continue: true, ..s }, Ok(ValueM::Unit))
            },
            ExprM::Return(value) => eval_return(f, s, value),
            ExprM::ArrayLiteral(elems) => match eval_args(f, s, elems, 0, Seq::empty()) {
                (s1, Err(m)) => (s1, Err(m)),
                (s1, Ok(vs)) => (s1, Ok(ValueM::Array(vs))),
            },
            ExprM::Index { array, index } => eval_index(f, s, *array, *index),
            ExprM::Block(stmts) => exec_block(f, s, stmts),
        }
    }
}

/// A prefix operator expression.
pub open spec fn eval_unary(fuel: nat, s: IState, op: UnaryOp, x: ExprM) -> Outcome
    decreases fuel, 1int, 0int,
{
    match eval_expr(fuel, s, x) {
        (s1, Err(m)) => (s1, Err(m)),
        (s1, Ok(v)) => (s1, unary_spec(op, v)),
    }
}

/// A binary operator expression: left operand first.
pub open spec fn eval_binary(fuel: nat, s: IState, l: ExprM, op: BinaryOp, r: ExprM) -> Outcome
    decreases fuel, 1int, 0int,
{
    match eval_expr(fuel, s, l) {
        (s1, Err(m)) => (s1, Err(m)),
        (s1, Ok(lv)) => match eval_expr(fuel, s1, r) {
            (s2, Err(m)) => (s2, Err(m)),
            (s2, Ok(rv)) => (s2, binary_spec(op, lv, rv)),
        },
    }
}

/// An `if` expression; without an `else` branch a false condition gives unit.
pub open spec fn eval_if(fuel: nat, s: IState, c: ExprM, t: ExprM, e: Option<Box<ExprM>>) -> Outcome
    decreases fuel, 1int, 0int,
{
    match eval_expr(fuel, s, c) {
        (s1, Err(m)) => (s1, Err(m)),
        (s1, Ok(ValueM::Bool(true))) => eval_expr(fuel, s1, t),
        (s1, Ok(ValueM::Bool(false))) => match e {
            Some(b) => eval_expr(fuel, s1, *b),
            None => (s1, Ok(ValueM::Unit)),
        },
        (s1, Ok(_)) => (s1, Err("Condition of if expression must be a boolean"@)),
    }
}

/// A `break`, which leaves its value pending for the enclosing loop.
pub open spec fn eval_break(fuel: nat, s: IState, value: Option<Box<ExprM>>) -> Outcome
    decreases fuel, 1int, 0int,
{
    if s.loop_depth == 0 {
        (s, Err("break outside of loop"@))
    } else {
        match value {
            Some(x) => match eval_expr(fuel, s, *x) {
                (s1, Err(m)) => (s1, Err(m)),
                (s1, Ok(v)) => (IState { pending_break: Some(v), ..s1 }, Ok(ValueM::Unit)),
            },
            None => (IState { pending_break: Some(ValueM::Unit), ..s }, Ok(ValueM::Unit)),
        }
    }
}

/// A `return` expression, which leaves its value pending for the enclosing call.
pub open spec fn eval_return(fuel: nat, s: IState, value: Option<Box<ExprM>>) -> Outcome
    decreases fuel, 1int, 0int,
{
    match value {
        Some(x) => match eval_expr(fuel, s, *x) {
            (s1, Err(m)) => (s1, Err(m)),
            (s1, Ok(v)) => (IState { pending_return: Some(v), ..s1 }, Ok(ValueM::Unit)),
        },
        None => (IState { pending_return: Some(ValueM::Unit), ..s }, Ok(ValueM::Unit)),
    }
}

/// An indexing expression: the array first, then the index.
pub open spec fn eval_index(fuel: nat, s: IState, a: ExprM, i: ExprM) -> Outcome
    decreases fuel, 1int, 0int,
{
    match eval_expr(fuel, s, a) {
        (s1, Err(m)) => (s1, Err(m)),
        (s1, Ok(av)) => match eval_expr(fuel, s1, i) {
            (s2, Err(m)) => (s2, Err(m)),
            (s2, Ok(iv)) => (s2, index_spec(av, iv)),
        },
    }
}

/// Indexing an array value.
pub open spec fn index_spec(av: ValueM, iv: ValueM) -> Result<ValueM, Seq<char>> {
    match (av, iv) {
        (ValueM::Array(els), ValueM::Int(idx)) => if idx < 0 || idx >= els.len() {
            Err(
                "Array index out of bounds: "@ + int_text(idx as int) + " (array length: "@ + nat_text(els.len())
                    + ")"@,
            )
        } else {
            Ok(els[idx as int])
        },
        _ => Err("Array indexing requires array and integer index"@),
    }
}

/// Evaluates expressions from index `i` on, left to right; `acc` holds the values so far.
pub open spec fn eval_args(fuel: nat, s: IState, args: Seq<ExprM>, i: int, acc: Seq<ValueM>) -> (IState, Result<Seq<ValueM>, Seq<char>>)
    decreases fuel, 1int, args.len() - i,
{
    if i < 0 || i >= args.len() {
        (s, Ok(acc))
    } else {
        match eval_expr(fuel, s, args[i]) {
            (s1, Err(m)) => (s1, Err(m)),
            (s1, Ok(v)) => eval_args(fuel, s1, args, i + 1, acc.push(v)),
        }
    }
}

/// Iterations of a `loop` body; `fuel` bounds their number.
pub open spec fn loop_run(fuel: nat, s: IState, body: ExprM) -> Outcome
    decreases fuel, 1int, 0int,
{
    if fuel == 0 {
        (s, Err(limit_msg()))
    } else {
        let f = (fuel - 1) as nat;
        match eval_expr(f, s, body) {
            (s1, Err(m)) => (s1, Err(m)),
            (s1, Ok(v)) => if s1.pending_return is Some {
                (leave_loop(s1), Ok(v))
            } else if s1.pending_break is Some {
                (leave_loop(IState { pending_break: None, ..s1 }), Ok(s1.pending_break->0))
            } else if s1.pending_continue {
                loop_run(f, IState { pending_continue: false, ..s1 }, body)
            } else {
                loop_run(f, s1, body)
            },
        }
    }
}

/// Iterations of a `while` loop; `fuel` bounds their number.
pub open spec fn while_run(fuel: nat, s: IState, cond: ExprM, body: ExprM) -> Outcome
    decreases fuel, 1int, 0int,
{
    if fuel == 0 {
        (s, Err(limit_msg()))
    } else {
        let f = (fuel - 1) as nat;
        match eval_expr(f, s, cond) {
            (s1, Err(m)) => (s1, Err(m)),
            (s1, Ok(ValueM::Bool(true))) => match eval_expr(f, s1, body) {
                (s2, Err(m)) => (s2, Err(m)),
                (s2, Ok(v)) => if s2.pending_return is Some {
                    (leave_loop(s2), Ok(v))
                } else if s2.pending_break is Some {
                    (leave_loop(IState { pending_break: None, ..s2 }), Ok(ValueM::Unit))
                } else if s2.pending_continue {
                    while_run(f, IState { pending_continue: false, ..s2 }, cond, body)
                } else {
                    while_run(f, s2, cond, body)
                },
            },
            (s1, Ok(ValueM::Bool(false))) => (leave_loop(s1), Ok(ValueM::Unit)),
            (s1, Ok(_)) => (s1, Err("Condition of while expression must be a boolean"@)),
        }
    }
}

/// Calls a function value: arguments are evaluated in the caller's scopes,
/// then a new scope holds the captured variables and the parameters; a
/// pending `return` gives the result.
pub open spec fn call_user(
    fuel: nat,
    s: IState,
    params: Seq<Seq<char>>,
    captured: Map<Seq<char>, ValueM>,
    body: ExprM,
    args: Seq<ExprM>,
) -> Outcome
    decreases fuel, 2int, 0int,
{
    if params.len() != args.len() {
        (s, Err("Function expects "@ + nat_text(params.len()) + " arguments, got "@ + nat_text(args.len())))
    } else {
        match eval_args(fuel, s, args, 0, Seq::empty()) {
            (s1, Err(m)) => (s1, Err(m)),
            (s1, Ok(vals)) => {
                let s2 = push_scope(s1);
                let s3 = IState {
                    locals: s2.locals.update(s2.locals.len() - 1, s2.locals.last().union_prefer_right(captured)),
                    ..s2
                };
                let s4 = bind_params(s3, params, vals, 0);
                match eval_expr(fuel, s4, body) {
                    (s5, Err(m)) => (s5, Err(m)),
                    (s5, Ok(v)) => {
                        let ret = match s5.pending_return {
                            Some(p) => p,
                            None => v,
                        };
                        (pop_scope(IState { pending_return: None, ..s5 }), Ok(ret))
                    },
                }
            },
        }
    }
}

/// The built-in functions `print` and `len`; `None` for any other name.
pub open spec fn call_builtin(fuel: nat, s: IState, name: Seq<char>, args: Seq<ExprM>) -> (IState, Result<Option<ValueM>, Seq<char>>)
    decreases fuel, 2int, 0int,
{
    if name == seq!['p', 'r', 'i', 'n', 't'] {
        match eval_args(fuel, s, args, 0, Seq::empty()) {
            (s1, Err(m)) => (s1, Err(m)),
            (s1, Ok(vals)) => (IState { output: s1.output.push(join_displays(vals)), ..s1 }, Ok(Some(ValueM::Unit))),
        }
    } else if name == seq!['l', 'e', 'n'] {
        if args.len() != 1 {
            (s, Err("len() expects exactly 1 argument"@))
        } else {
            match eval_expr(fuel, s, args[0]) {
                (s1, Err(m)) => (s1, Err(m)),
                (s1, Ok(ValueM::Array(els))) => (s1, Ok(Some(ValueM::Int(els.len() as i64)))),
                (s1, Ok(_)) => (s1, Err("len() expects an array argument"@)),
            }
        }
    } else {
        (s, Ok(None))
    }
}

/// Evaluates the callee as an expression and calls it.
pub open spec fn call_computed(fuel: nat, s: IState, callee: ExprM, args: Seq<ExprM>) -> Outcome
    decreases fuel, 3int, 0int,
{
    match eval_expr(fuel, s, callee) {
        (s1, Err(m)) => (s1, Err(m)),
        (s1, Ok(ValueM::Function { params, captured, body, .. })) => call_user(fuel, s1, params, captured, body, args),
        (s1, Ok(_)) => (s1, Err("Callee must be a function"@)),
    }
}

/// A call: a named function value in scope first, then a built-in of that
/// name, then the callee evaluated as an expression.
pub open spec fn eval_call(fuel: nat, s: IState, callee: ExprM, args: Seq<ExprM>) -> Outcome
    decreases fuel, 4int, 0int,
{
    match callee {
        ExprM::Ident(name) => match lookup(s, name) {
            Ok(ValueM::Function { params, captured, body, .. }) => call_user(fuel, s, params, captured, body, args),
            _ => match call_builtin(fuel, s, name, args) {
                (s1, Err(m)) => (s1, Err(m)),
                (s1, Ok(Some(v))) => (s1, Ok(v)),
                (s1, Ok(None)) => call_computed(fuel, s1, callee, args),
            },
        },
        _ => call_computed(fuel, s, callee, args),
    }
}

/// Runs the statements of a block in a new scope; the value is the last
/// statement's. A pending `return`, `break` or `continue` ends the block.
pub open spec fn exec_block(fuel: nat, s: IState, stmts: Seq<StmtM>) -> Outcome
    decreases fuel, 5int, 0int,
{
    match block_run(fuel, push_scope(s), stmts, 0, ValueM::Unit) {
        (s1, Err(m)) => (s1, Err(m)),
        (s1, Ok(v)) => (pop_scope(s1), Ok(v)),
    }
}

pub open spec fn block_run(fuel: nat, s: IState, stmts: Seq<StmtM>, i: int, last: ValueM) -> Outcome
    decreases fuel, 4int, stmts.len() - i,
{
    if i < 0 || i >= stmts.len() {
        (s, Ok(last))
    } else {
        match exec_stmt(fuel, s, stmts[i]) {
            (s1, Err(m)) => (s1, Err(m)),
            (s1, Ok(v)) => if s1.pending_return is Some || s1.pending_break is Some || s1.pending_continue {
                (s1, Ok(v))
            } else {
                block_run(fuel, s1, stmts, i + 1, v)
            },
        }
    }
}

/// A `let` statement. With a function type annotation the expression is not
/// evaluated: it becomes the body of a function value whose parameters are
/// the annotation's, capturing the visible variables.
pub open spec fn exec_let(fuel: nat, s: IState, name: Seq<char>, type_ann: Option<TypeM>, expr: ExprM) -> Outcome
    decreases fuel, 1int, 0int,
{
    let (s1, r) = match type_ann {
        Some(TypeM::Fn(pts, rt)) => (
            s,
            Ok(ValueM::Function {
                params: param_names(pts),
                captured: capture(s),
                body: expr,
                return_type: unbox_type(rt),
            }),
        ),
        _ => eval_expr(fuel, s, expr),
    };
    match r {
        Err(m) => (s1, Err(m)),
        Ok(v) => match type_ann {
            Some(t) => if !check_type_spec(t, v) {
                (
                    s1,
                    Err("Type mismatch for '"@ + name + "' : expected "@ + type_debug(t) + ", got "@
                        + type_name_spec(v) + "."@),
                )
            } else {
                (define(s1, name, v), Ok(ValueM::Unit))
            },
            None => (define(s1, name, v), Ok(ValueM::Unit)),
        },
    }
}

/// An assignment statement.
pub open spec fn exec_assign(fuel: nat, s: IState, name: Seq<char>, expr: ExprM) -> Outcome
    decreases fuel, 1int, 0int,
{
    match eval_expr(fuel, s, expr) {
        (s1, Err(m)) => (s1, Err(m)),
        (s1, Ok(v)) => {
            let (s2, r) = assign_var(s1, name, v);
            match r {
                Err(m) => (s2, Err(m)),
                Ok(()) => (s2, Ok(ValueM::Unit)),
            }
        },
    }
}

/// A `return` statement.
pub open spec fn exec_return(fuel: nat, s: IState, value: Option<ExprM>) -> Outcome
    decreases fuel, 1int, 0int,
{
    match value {
        Some(x) => match eval_expr(fuel, s, x) {
            (s1, Err(m)) => (s1, Err(m)),
            (s1, Ok(v)) => (IState { pending_return: Some(v), ..s1 }, Ok(ValueM::Unit)),
        },
        None => (IState { pending_return: Some(ValueM::Unit), ..s }, Ok(ValueM::Unit)),
    }
}

/// Executes one statement.
pub open spec fn exec_stmt(fuel: nat, s: IState, st: StmtM) -> Outcome
    decreases fuel, 0int, 0int,
{
    if fuel == 0 {
        (s, Err(limit_msg()))
    } else {
        let f = (fuel - 1) as nat;
        match st {
            StmtM::Let { name, type_ann, expr } => exec_let(f, s, name, type_ann, expr),
            StmtM::Fn { name, params, return_type, body } => (
                define(
                    s,
                    name,
                    ValueM::Function { params: param_names(params), captured: capture(s), body, return_type },
                ),
                Ok(ValueM::Unit),
            ),
            StmtM::Assign { name, expr } => exec_assign(f, s, name, expr),
            StmtM::Return(value) => exec_return(f, s, value),
            StmtM::ExprStmt(x) => eval_expr(f, s, x),
            StmtM::Block(stmts) => exec_block(f, s, stmts),
        }
    }
}

/// Executes the statements of a program from index `i` on; the value is the last statement's.
pub open spec fn program_run(fuel: nat, s: IState, stmts: Seq<StmtM>, i: int, last: ValueM) -> Outcome
    decreases stmts.len() - i,
{
    if i < 0 || i >= stmts.len() {
        (s, Ok(last))
    } else {
        match exec_stmt(fuel, s, stmts[i]) {
            (s1, Err(m)) => (s1, Err(m)),
            (s1, Ok(v)) => program_run(fuel, s1, stmts, i + 1, v),
        }
    }
}


// ------------------------------------------------------------ laws of evaluation

/// What an evaluation from `s` to `s1` keeps: the lines printed before stay
/// as they were (output is only ever appended to), and when it succeeds the
/// stack of scopes and the loop depth are as it found them.
pub open spec fn frame_kept(s: IState, s1: IState, ok: bool) -> bool {
    &&& s.output.len() <= s1.output.len()
    &&& forall|i: int| 0 <= i < s.output.len() ==> #[trigger] s1.output[i] == s.output[i]
    &&& ok ==> s1.locals.len() == s.locals.len() && s1.loop_depth == s.loop_depth
}

/// The iterations of a loop body, entered with the loop counted in the
/// depth, leave the loop when they succeed.
pub open spec fn loop_frame_kept(s: IState, s1: IState, ok: bool) -> bool {
    &&& s.output.len() <= s1.output.len()
    &&& forall|i: int| 0 <= i < s.output.len() ==> #[trigger] s1.output[i] == s.output[i]
    &&& ok ==> s1.locals.len() == s.locals.len() && s1.loop_depth + 1 == s.loop_depth
}

proof fn lemma_bind_keeps_frame(s: IState, params: Seq<Seq<char>>, vals: Seq<ValueM>, i: int)
    ensures
        bind_params(s, params, vals, i).locals.len() == s.locals.len(),
        bind_params(s, params, vals, i).loop_depth == s.loop_depth,
        bind_params(s, params, vals, i).output == s.output,
    decreases params.len() - i,
{
    if !(i < 0 || i >= params.len() || i >= vals.len()) {
        lemma_bind_keeps_frame(define(s, params[i], vals[i]), params, vals, i + 1);
    }
}

/// Evaluating an expression keeps the frame: see [`frame_kept`].
pub proof fn lemma_eval_keeps_frame(fuel: nat, s: IState, e: ExprM)
    ensures
        frame_kept(s, eval_expr(fuel, s, e).0, eval_expr(fuel, s, e).1 is Ok),
    decreases fuel, 0int, 0int,
{
    if fuel > 0 {
        let f = (fuel - 1) as nat;
        match e {
            ExprM::Unary(op, x) => lemma_unary_keeps_frame(f, s, op, *x),
            ExprM::Binary(l, op, r) => lemma_binary_keeps_frame(f, s, *l, op, *r),
            ExprM::If { condition, then_branch, else_branch } => lemma_if_keeps_frame(
                f,
                s,
                *condition,
                *then_branch,
                else_branch,
            ),
            ExprM::Call { callee, args } => lemma_call_keeps_frame(f, s, *callee, args),
            ExprM::Loop { body } => if s.loop_depth < usize::MAX {
                lemma_loop_keeps_frame(f, IState { loop_depth: s.loop_depth + 1, ..s }, *body);
            },
            ExprM::While { condition, body } => if s.loop_depth < usize::MAX {
                lemma_while_keeps_frame(f, IState { loop_depth: s.loop_depth + 1, ..s }, *condition, *body);
            },
            ExprM::Break { value } => lemma_break_keeps_frame(f, s, value),
            ExprM::Return(value) => lemma_return_keeps_frame(f, s, value),
            ExprM::ArrayLiteral(elems) => lemma_args_keeps_frame(f, s, elems, 0, Seq::empty()),
            ExprM::Index { array, index } => lemma_index_keeps_frame(f, s, *array, *index),
            ExprM::Block(stmts) => lemma_block_keeps_frame(f, s, stmts),
            _ => {},
        }
    }
}

proof fn lemma_unary_keeps_frame(fuel: nat, s: IState, op: UnaryOp, x: ExprM)
    ensures
        frame_kept(s, eval_unary(fuel, s, op, x).0, eval_unary(fuel, s, op, x).1 is Ok),
    decreases fuel, 1int, 0int,
{
    lemma_eval_keeps_frame(fuel, s, x);
}

proof fn lemma_binary_keeps_frame(fuel: nat, s: IState, l: ExprM, op: BinaryOp, r: ExprM)
    ensures
        frame_kept(s, eval_binary(fuel, s, l, op, r).0, eval_binary(fuel, s, l, op, r).1 is Ok),
    decreases fuel, 1int, 0int,
{
    lemma_eval_keeps_frame(fuel, s, l);
    let (s1, r1) = eval_expr(fuel, s, l);
    if r1 is Ok {
        lemma_eval_keeps_frame(fuel, s1, r);
    }
}

proof fn lemma_if_keeps_frame(fuel: nat, s: IState, c: ExprM, t: ExprM, e: Option<Box<ExprM>>)
    ensures
        frame_kept(s, eval_if(fuel, s, c, t, e).0, eval_if(fuel, s, c, t, e).1 is Ok),
    decreases fuel, 1int, 0int,
{
    lemma_eval_keeps_frame(fuel, s, c);
    let (s1, r1) = eval_expr(fuel, s, c);
    match r1 {
        Ok(ValueM::Bool(true)) => lemma_eval_keeps_frame(fuel, s1, t),
        Ok(ValueM::Bool(false)) => match e {
            Some(b) => lemma_eval_keeps_frame(fuel, s1, *b),
            None => {},
        },
        _ => {},
    }
}

proof fn lemma_break_keeps_frame(fuel: nat, s: IState, value: Option<Box<ExprM>>)
    ensures
        frame_kept(s, eval_break(fuel, s, value).0, eval_break(fuel, s, value).1 is Ok),
    decreases fuel, 1int, 0int,
{
    match value {
        Some(x) => lemma_eval_keeps_frame(fuel, s, *x),
        None => {},
    }
}

proof fn lemma_return_keeps_frame(fuel: nat, s: IState, value: Option<Box<ExprM>>)
    ensures
        frame_kept(s, eval_return(fuel, s, value).0, eval_return(fuel, s, value).1 is Ok),
    decreases fuel, 1int, 0int,
{
    match value {
        Some(x) => lemma_eval_keeps_frame(fuel, s, *x),
        None => {},
    }
}

proof fn lemma_index_keeps_frame(fuel: nat, s: IState, a: ExprM, i: ExprM)
    ensures
        frame_kept(s, eval_index(fuel, s, a, i).0, eval_index(fuel, s, a, i).1 is Ok),
    decreases fuel, 1int, 0int,
{
    lemma_eval_keeps_frame(fuel, s, a);
    let (s1, r1) = eval_expr(fuel, s, a);
    if r1 is Ok {
        lemma_eval_keeps_frame(fuel, s1, i);
    }
}

proof fn lemma_args_keeps_frame(fuel: nat, s: IState, args: Seq<ExprM>, i: int, acc: Seq<ValueM>)
    ensures
        frame_kept(s, eval_args(fuel, s, args, i, acc).0, eval_args(fuel, s, args, i, acc).1 is Ok),
    decreases fuel, 1int, args.len() - i,
{
    if 0 <= i < args.len() {
        lemma_eval_keeps_frame(fuel, s, args[i]);
        let (s1, r1) = eval_expr(fuel, s, args[i]);
        match r1 {
            Ok(v) => lemma_args_keeps_frame(fuel, s1, args, i + 1, acc.push(v)),
            Err(_) => {},
        }
    }
}

proof fn lemma_loop_keeps_frame(fuel: nat, s: IState, body: ExprM)
    requires
        s.loop_depth >= 1,
    ensures
        loop_frame_kept(s, loop_run(fuel, s, body).0, loop_run(fuel, s, body).1 is Ok),
    decreases fuel, 1int, 0int,
{
    if fuel > 0 {
        let f = (fuel - 1) as nat;
        lemma_eval_keeps_frame(f, s, body);
        let (s1, r1) = eval_expr(f, s, body);
        if r1 is Ok && s1.pending_return is None && s1.pending_break is None {
            if s1.pending_continue {
                lemma_loop_keeps_frame(f, IState { pending_continue: false, ..s1 }, body);
            } else {
                lemma_loop_keeps_frame(f, s1, body);
            }
        }
    }
}

proof fn lemma_while_keeps_frame(fuel: nat, s: IState, cond: ExprM, body: ExprM)
    requires
        s.loop_depth >= 1,
    ensures
        loop_frame_kept(s, while_run(fuel, s, cond, body).0, while_run(fuel, s, cond, body).1 is Ok),
    decreases fuel, 1int, 0int,
{
    if fuel > 0 {
        let f = (fuel - 1) as nat;
        lemma_eval_keeps_frame(f, s, cond);
        let (s1, r1) = eval_expr(f, s, cond);
        if r1 == Ok::<ValueM, Seq<char>>(ValueM::Bool(true)) {
            lemma_eval_keeps_frame(f, s1, body);
            let (s2, r2) = eval_expr(f, s1, body);
            if r2 is Ok && s2.pending_return is None && s2.pending_break is None {
                if s2.pending_continue {
                    lemma_while_keeps_frame(f, IState { pending_continue: false, ..s2 }, cond, body);
                } else {
                    lemma_while_keeps_frame(f, s2, cond, body);
                }
            }
        }
    }
}

proof fn lemma_call_user_keeps_frame(
    fuel: nat,
    s: IState,
    params: Seq<Seq<char>>,
    captured: Map<Seq<char>, ValueM>,
    body: ExprM,
    args: Seq<ExprM>,
)
    ensures
        frame_kept(
            s,
            call_user(fuel, s, params, captured, body, args).0,
            call_user(fuel, s, params, captured, body, args).1 is Ok,
        ),
    decreases fuel, 2int, 0int,
{
    if params.len() == args.len() {
        lemma_args_keeps_frame(fuel, s, args, 0, Seq::empty());
        let (s1, r1) = eval_args(fuel, s, args, 0, Seq::empty());
        match r1 {
            Ok(vals) => {
                let s2 = push_scope(s1);
                let s3 = IState {
                    locals: s2.locals.update(s2.locals.len() - 1, s2.locals.last().union_prefer_right(captured)),
                    ..s2
                };
                lemma_bind_keeps_frame(s3, params, vals, 0);
                let s4 = bind_params(s3, params, vals, 0);
                lemma_eval_keeps_frame(fuel, s4, body);
            },
            Err(_) => {},
        }
    }
}

proof fn lemma_builtin_keeps_frame(fuel: nat, s: IState, name: Seq<char>, args: Seq<ExprM>)
    ensures
        frame_kept(s, call_builtin(fuel, s, name, args).0, call_builtin(fuel, s, name, args).1 is Ok),
    decreases fuel, 2int, 0int,
{
    if name == seq!['p', 'r', 'i', 'n', 't'] {
        lemma_args_keeps_frame(fuel, s, args, 0, Seq::empty());
    } else if name == seq!['l', 'e', 'n'] {
        if args.len() == 1 {
            lemma_eval_keeps_frame(fuel, s, args[0]);
        }
    }
}

proof fn lemma_computed_keeps_frame(fuel: nat, s: IState, callee: ExprM, args: Seq<ExprM>)
    ensures
        frame_kept(s, call_computed(fuel, s, callee, args).0, call_computed(fuel, s, callee, args).1 is Ok),
    decreases fuel, 3int, 0int,
{
    lemma_eval_keeps_frame(fuel, s, callee);
    let (s1, r1) = eval_expr(fuel, s, callee);
    match r1 {
        Ok(ValueM::Function { params, captured, body, .. }) => lemma_call_user_keeps_frame(
            fuel,
            s1,
            params,
            captured,
            body,
            args,
        ),
        _ => {},
    }
}

proof fn lemma_call_keeps_frame(fuel: nat, s: IState, callee: ExprM, args: Seq<ExprM>)
    ensures
        frame_kept(s, eval_call(fuel, s, callee, args).0, eval_call(fuel, s, callee, args).1 is Ok),
    decreases fuel, 4int, 0int,
{
    match callee {
        ExprM::Ident(name) => match lookup(s, name) {
            Ok(ValueM::Function { params, captured, body, .. }) => lemma_call_user_keeps_frame(
                fuel,
                s,
                params,
                captured,
                body,
                args,
            ),
            _ => {
                lemma_builtin_keeps_frame(fuel, s, name, args);
                let (s1, r1) = call_builtin(fuel, s, name, args);
                if r1 == Ok::<Option<ValueM>, Seq<char>>(None) {
                    lemma_computed_keeps_frame(fuel, s1, callee, args);
                }
            },
        },
        _ => lemma_computed_keeps_frame(fuel, s, callee, args),
    }
}

proof fn lemma_block_keeps_frame(fuel: nat, s: IState, stmts: Seq<StmtM>)
    ensures
        frame_kept(s, exec_block(fuel, s, stmts).0, exec_block(fuel, s, stmts).1 is Ok),
    decreases fuel, 5int, 0int,
{
    lemma_block_run_keeps_frame(fuel, push_scope(s), stmts, 0, ValueM::Unit);
}

proof fn lemma_block_run_keeps_frame(fuel: nat, s: IState, stmts: Seq<StmtM>, i: int, last: ValueM)
    ensures
        frame_kept(s, block_run(fuel, s, stmts, i, last).0, block_run(fuel, s, stmts, i, last).1 is Ok),
    decreases fuel, 4int, stmts.len() - i,
{
    if 0 <= i < stmts.len() {
        lemma_stmt_keeps_frame(fuel, s, stmts[i]);
        let (s1, r1) = exec_stmt(fuel, s, stmts[i]);
        match r1 {
            Ok(v) => if !(s1.pending_return is Some || s1.pending_break is Some || s1.pending_continue) {
                lemma_block_run_keeps_frame(fuel, s1, stmts, i + 1, v);
            },
            Err(_) => {},
        }
    }
}

proof fn lemma_let_keeps_frame(fuel: nat, s: IState, name: Seq<char>, type_ann: Option<TypeM>, expr: ExprM)
    ensures
        frame_kept(s, exec_let(fuel, s, name, type_ann, expr).0, exec_let(fuel, s, name, type_ann, expr).1 is Ok),
    decreases fuel, 1int, 0int,
{
    match type_ann {
        Some(TypeM::Fn(_, _)) => {},
        _ => lemma_eval_keeps_frame(fuel, s, expr),
    }
}

proof fn lemma_assign_keeps_frame(fuel: nat, s: IState, name: Seq<char>, expr: ExprM)
    ensures
        frame_kept(s, exec_assign(fuel, s, name, expr).0, exec_assign(fuel, s, name, expr).1 is Ok),
    decreases fuel, 1int, 0int,
{
    lemma_eval_keeps_frame(fuel, s, expr);
    let (s1, r1) = eval_expr(fuel, s, expr);
    if r1 is Ok {
        lemma_innermost_found(s1.locals, s1.locals.len() as int, name);
    }
}

proof fn lemma_exec_return_keeps_frame(fuel: nat, s: IState, value: Option<ExprM>)
    ensures
        frame_kept(s, exec_return(fuel, s, value).0, exec_return(fuel, s, value).1 is Ok),
    decreases fuel, 1int, 0int,
{
    match value {
        Some(x) => lemma_eval_keeps_frame(fuel, s, x),
        None => {},
    }
}

/// Executing a statement keeps the frame: see [`frame_kept`].
pub proof fn lemma_stmt_keeps_frame(fuel: nat, s: IState, st: StmtM)
    ensures
        frame_kept(s, exec_stmt(fuel, s, st).0, exec_stmt(fuel, s, st).1 is Ok),
    decreases fuel, 0int, 0int,
{
    if fuel > 0 {
        let f = (fuel - 1) as nat;
        match st {
            StmtM::Let { name, type_ann, expr } => lemma_let_keeps_frame(f, s, name, type_ann, expr),
            StmtM::Assign { name, expr } => lemma_assign_keeps_frame(f, s, name, expr),
            StmtM::Return(value) => lemma_exec_return_keeps_frame(f, s, value),
            StmtM::ExprStmt(x) => lemma_eval_keeps_frame(f, s, x),
            StmtM::Block(stmts) => lemma_block_keeps_frame(f, s, stmts),
            _ => {},
        }
    }
}

/// Running a program keeps the frame: a program that runs to its end leaves
/// the interpreter with the scopes and loop depth it started with, and no
/// line printed is ever taken back.
pub proof fn lemma_program_keeps_frame(fuel: nat, s: IState, stmts: Seq<StmtM>, i: int, last: ValueM)
    ensures
        frame_kept(s, program_run(fuel, s, stmts, i, last).0, program_run(fuel, s, stmts, i, last).1 is Ok),
    decreases stmts.len() - i,
{
    if 0 <= i < stmts.len() {
        lemma_stmt_keeps_frame(fuel, s, stmts[i]);
        let (s1, r1) = exec_stmt(fuel, s, stmts[i]);
        match r1 {
            Ok(v) => lemma_program_keeps_frame(fuel, s1, stmts, i + 1, v),
            Err(_) => {},
        }
    }
}


// ------------------------------------------------------------ laws of fuel

/// Whether an outcome is the error of running out of steps.
pub open spec fn out_of_fuel<T>(r: Result<T, Seq<char>>) -> bool {
    r == Err::<T, Seq<char>>(limit_msg())
}

/// Fuel only bounds evaluation: an evaluation that does not run out of steps
/// gives the same outcome with any larger fuel.
pub proof fn lemma_eval_fuel(f1: nat, f2: nat, s: IState, e: ExprM)
    requires
        f1 <= f2,
        !out_of_fuel(eval_expr(f1, s, e).1),
    ensures
        eval_expr(f2, s, e) == eval_expr(f1, s, e),
    decreases f1, 0int, 0int,
{
    let g1 = (f1 - 1) as nat;
    let g2 = (f2 - 1) as nat;
    match e {
        ExprM::Unary(op, x) => lemma_unary_fuel(g1, g2, s, op, *x),
        ExprM::Binary(l, op, r) => lemma_binary_fuel(g1, g2, s, *l, op, *r),
        ExprM::If { condition, then_branch, else_branch } => lemma_if_fuel(
            g1,
            g2,
            s,
            *condition,
            *then_branch,
            else_branch,
        ),
        ExprM::Call { callee, args } => lemma_call_fuel(g1, g2, s, *callee, args),
        ExprM::Loop { body } => if s.loop_depth < usize::MAX {
            lemma_loop_fuel(g1, g2, IState { loop_depth: s.loop_depth + 1, ..s }, *body);
        },
        ExprM::While { condition, body } => if s.loop_depth < usize::MAX {
            lemma_while_fuel(g1, g2, IState { loop_depth: s.loop_depth + 1, ..s }, *condition, *body);
        },
        ExprM::Break { value } => lemma_break_fuel(g1, g2, s, value),
        ExprM::Return(value) => lemma_return_fuel(g1, g2, s, value),
        ExprM::ArrayLiteral(elems) => lemma_args_fuel(g1, g2, s, elems, 0, Seq::empty()),
        ExprM::Index { array, index } => lemma_index_fuel(g1, g2, s, *array, *index),
        ExprM::Block(stmts) => lemma_block_fuel(g1, g2, s, stmts),
        _ => {},
    }
}

proof fn lemma_unary_fuel(f1: nat, f2: nat, s: IState, op: UnaryOp, x: ExprM)
    requires
        f1 <= f2,
        !out_of_fuel(eval_unary(f1, s, op, x).1),
    ensures
        eval_unary(f2, s, op, x) == eval_unary(f1, s, op, x),
    decreases f1, 1int, 0int,
{
    lemma_eval_fuel(f1, f2, s, x);
}

proof fn lemma_binary_fuel(f1: nat, f2: nat, s: IState, l: ExprM, op: BinaryOp, r: ExprM)
    requires
        f1 <= f2,
        !out_of_fuel(eval_binary(f1, s, l, op, r).1),
    ensures
        eval_binary(f2, s, l, op, r) == eval_binary(f1, s, l, op, r),
    decreases f1, 1int, 0int,
{
    lemma_eval_fuel(f1, f2, s, l);
    let (s1, r1) = eval_expr(f1, s, l);
    if r1 is Ok {
        lemma_eval_fuel(f1, f2, s1, r);
    }
}

proof fn lemma_if_fuel(f1: nat, f2: nat, s: IState, c: ExprM, t: ExprM, e: Option<Box<ExprM>>)
    requires
        f1 <= f2,
        !out_of_fuel(eval_if(f1, s, c, t, e).1),
    ensures
        eval_if(f2, s, c, t, e) == eval_if(f1, s, c, t, e),
    decreases f1, 1int, 0int,
{
    lemma_eval_fuel(f1, f2, s, c);
    let (s1, r1) = eval_expr(f1, s, c);
    match r1 {
        Ok(ValueM::Bool(true)) => lemma_eval_fuel(f1, f2, s1, t),
        Ok(ValueM::Bool(false)) => match e {
            Some(b) => lemma_eval_fuel(f1, f2, s1, *b),
            None => {},
        },
        _ => {},
    }
}

proof fn lemma_break_fuel(f1: nat, f2: nat, s: IState, value: Option<Box<ExprM>>)
    requires
        f1 <= f2,
        !out_of_fuel(eval_break(f1, s, value).1),
    ensures
        eval_break(f2, s, value) == eval_break(f1, s, value),
    decreases f1, 1int, 0int,
{
    if s.loop_depth != 0 {
        match value {
            Some(x) => lemma_eval_fuel(f1, f2, s, *x),
            None => {},
        }
    }
}

proof fn lemma_return_fuel(f1: nat, f2: nat, s: IState, value: Option<Box<ExprM>>)
    requires
        f1 <= f2,
        !out_of_fuel(eval_return(f1, s, value).1),
    ensures
        eval_return(f2, s, value) == eval_return(f1, s, value),
    decreases f1, 1int, 0int,
{
    match value {
        Some(x) => lemma_eval_fuel(f1, f2, s, *x),
        None => {},
    }
}

proof fn lemma_index_fuel(f1: nat, f2: nat, s: IState, a: ExprM, i: ExprM)
    requires
        f1 <= f2,
        !out_of_fuel(eval_index(f1, s, a, i).1),
    ensures
        eval_index(f2, s, a, i) == eval_index(f1, s, a, i),
    decreases f1, 1int, 0int,
{
    lemma_eval_fuel(f1, f2, s, a);
    let (s1, r1) = eval_expr(f1, s, a);
    if r1 is Ok {
        lemma_eval_fuel(f1, f2, s1, i);
    }
}

proof fn lemma_args_fuel(f1: nat, f2: nat, s: IState, args: Seq<ExprM>, i: int, acc: Seq<ValueM>)
    requires
        f1 <= f2,
        !out_of_fuel(eval_args(f1, s, args, i, acc).1),
    ensures
        eval_args(f2, s, args, i, acc) == eval_args(f1, s, args, i, acc),
    decreases f1, 1int, args.len() - i,
{
    if 0 <= i < args.len() {
        lemma_eval_fuel(f1, f2, s, args[i]);
        let (s1, r1) = eval_expr(f1, s, args[i]);
        match r1 {
            Ok(v) => lemma_args_fuel(f1, f2, s1, args, i + 1, acc.push(v)),
            Err(_) => {},
        }
    }
}

proof fn lemma_loop_fuel(f1: nat, f2: nat, s: IState, body: ExprM)
    requires
        f1 <= f2,
        !out_of_fuel(loop_run(f1, s, body).1),
    ensures
        loop_run(f2, s, body) == loop_run(f1, s, body),
    decreases f1, 1int, 0int,
{
    let g1 = (f1 - 1) as nat;
    let g2 = (f2 - 1) as nat;
    lemma_eval_fuel(g1, g2, s, body);
    let (s1, r1) = eval_expr(g1, s, body);
    if r1 is Ok && s1.pending_return is None && s1.pending_break is None {
        if s1.pending_continue {
            lemma_loop_fuel(g1, g2, IState { pending_continue: false, ..s1 }, body);
        } else {
            lemma_loop_fuel(g1, g2, s1, body);
        }
    }
}

proof fn lemma_while_fuel(f1: nat, f2: nat, s: IState, cond: ExprM, body: ExprM)
    requires
        f1 <= f2,
        !out_of_fuel(while_run(f1, s, cond, body).1),
    ensures
        while_run(f2, s, cond, body) == while_run(f1, s, cond, body),
    decreases f1, 1int, 0int,
{
    let g1 = (f1 - 1) as nat;
    let g2 = (f2 - 1) as nat;
    lemma_eval_fuel(g1, g2, s, cond);
    let (s1, r1) = eval_expr(g1, s, cond);
    if r1 == Ok::<ValueM, Seq<char>>(ValueM::Bool(true)) {
        lemma_eval_fuel(g1, g2, s1, body);
        let (s2, r2) = eval_expr(g1, s1, body);
        if r2 is Ok && s2.pending_return is None && s2.pending_break is None {
            if s2.pending_continue {
                lemma_while_fuel(g1, g2, IState { pending_continue: false, ..s2 }, cond, body);
            } else {
                lemma_while_fuel(g1, g2, s2, cond, body);
            }
        }
    }
}

proof fn lemma_call_user_fuel(
    f1: nat,
    f2: nat,
    s: IState,
    params: Seq<Seq<char>>,
    captured: Map<Seq<char>, ValueM>,
    body: ExprM,
    args: Seq<ExprM>,
)
    requires
        f1 <= f2,
        !out_of_fuel(call_user(f1, s, params, captured, body, args).1),
    ensures
        call_user(f2, s, params, captured, body, args) == call_user(f1, s, params, captured, body, args),
    decreases f1, 2int, 0int,
{
    if params.len() == args.len() {
        lemma_args_fuel(f1, f2, s, args, 0, Seq::empty());
        let (s1, r1) = eval_args(f1, s, args, 0, Seq::empty());
        match r1 {
            Ok(vals) => {
                let s2 = push_scope(s1);
                let s3 = IState {
                    locals: s2.locals.update(s2.locals.len() - 1, s2.locals.last().union_prefer_right(captured)),
                    ..s2
                };
                let s4 = bind_params(s3, params, vals, 0);
                lemma_eval_fuel(f1, f2, s4, body);
            },
            Err(_) => {},
        }
    }
}

proof fn lemma_builtin_fuel(f1: nat, f2: nat, s: IState, name: Seq<char>, args: Seq<ExprM>)
    requires
        f1 <= f2,
        !out_of_fuel(call_builtin(f1, s, name, args).1),
    ensures
        call_builtin(f2, s, name, args) == call_builtin(f1, s, name, args),
    decreases f1, 2int, 0int,
{
    if name == seq!['p', 'r', 'i', 'n', 't'] {
        lemma_args_fuel(f1, f2, s, args, 0, Seq::empty());
    } else if name == seq!['l', 'e', 'n'] {
        if args.len() == 1 {
            lemma_eval_fuel(f1, f2, s, args[0]);
        }
    }
}

proof fn lemma_computed_fuel(f1: nat, f2: nat, s: IState, callee: ExprM, args: Seq<ExprM>)
    requires
        f1 <= f2,
        !out_of_fuel(call_computed(f1, s, callee, args).1),
    ensures
        call_computed(f2, s, callee, args) == call_computed(f1, s, callee, args),
    decreases f1, 3int, 0int,
{
    lemma_eval_fuel(f1, f2, s, callee);
    let (s1, r1) = eval_expr(f1, s, callee);
    match r1 {
        Ok(ValueM::Function { params, captured, body, .. }) => lemma_call_user_fuel(
            f1,
            f2,
            s1,
            params,
            captured,
            body,
            args,
        ),
        _ => {},
    }
}

proof fn lemma_call_fuel(f1: nat, f2: nat, s: IState, callee: ExprM, args: Seq<ExprM>)
    requires
        f1 <= f2,
        !out_of_fuel(eval_call(f1, s, callee, args).1),
    ensures
        eval_call(f2, s, callee, args) == eval_call(f1, s, callee, args),
    decreases f1, 4int, 0int,
{
    match callee {
        ExprM::Ident(name) => match lookup(s, name) {
            Ok(ValueM::Function { params, captured, body, .. }) => lemma_call_user_fuel(
                f1,
                f2,
                s,
                params,
                captured,
                body,
                args,
            ),
            _ => {
                lemma_builtin_fuel(f1, f2, s, name, args);
                let (s1, r1) = call_builtin(f1, s, name, args);
                if r1 == Ok::<Option<ValueM>, Seq<char>>(None) {
                    lemma_computed_fuel(f1, f2, s1, callee, args);
                }
            },
        },
        _ => lemma_computed_fuel(f1, f2, s, callee, args),
    }
}

proof fn lemma_block_fuel(f1: nat, f2: nat, s: IState, stmts: Seq<StmtM>)
    requires
        f1 <= f2,
        !out_of_fuel(exec_block(f1, s, stmts).1),
    ensures
        exec_block(f2, s, stmts) == exec_block(f1, s, stmts),
    decreases f1, 5int, 0int,
{
    lemma_block_run_fuel(f1, f2, push_scope(s), stmts, 0, ValueM::Unit);
}

proof fn lemma_block_run_fuel(f1: nat, f2: nat, s: IState, stmts: Seq<StmtM>, i: int, last: ValueM)
    requires
        f1 <= f2,
        !out_of_fuel(block_run(f1, s, stmts, i, last).1),
    ensures
        block_run(f2, s, stmts, i, last) == block_run(f1, s, stmts, i, last),
    decreases f1, 4int, stmts.len() - i,
{
    if 0 <= i < stmts.len() {
        lemma_stmt_fuel(f1, f2, s, stmts[i]);
        let (s1, r1) = exec_stmt(f1, s, stmts[i]);
        match r1 {
            Ok(v) => if !(s1.pending_return is Some || s1.pending_break is Some || s1.pending_continue) {
                lemma_block_run_fuel(f1, f2, s1, stmts, i + 1, v);
            },
            Err(_) => {},
        }
    }
}

proof fn lemma_let_fuel(f1: nat, f2: nat, s: IState, name: Seq<char>, type_ann: Option<TypeM>, expr: ExprM)
    requires
        f1 <= f2,
        !out_of_fuel(exec_let(f1, s, name, type_ann, expr).1),
    ensures
        exec_let(f2, s, name, type_ann, expr) == exec_let(f1, s, name, type_ann, expr),
    decreases f1, 1int, 0int,
{
    match type_ann {
        Some(TypeM::Fn(_, _)) => {},
        _ => lemma_eval_fuel(f1, f2, s, expr),
    }
}

proof fn lemma_assign_fuel(f1: nat, f2: nat, s: IState, name: Seq<char>, expr: ExprM)
    requires
        f1 <= f2,
        !out_of_fuel(exec_assign(f1, s, name, expr).1),
    ensures
        exec_assign(f2, s, name, expr) == exec_assign(f1, s, name, expr),
    decreases f1, 1int, 0int,
{
    lemma_eval_fuel(f1, f2, s, expr);
}

proof fn lemma_exec_return_fuel(f1: nat, f2: nat, s: IState, value: Option<ExprM>)
    requires
        f1 <= f2,
        !out_of_fuel(exec_return(f1, s, value).1),
    ensures
        exec_return(f2, s, value) == exec_return(f1, s, value),
    decreases f1, 1int, 0int,
{
    match value {
        Some(x) => lemma_eval_fuel(f1, f2, s, x),
        None => {},
    }
}

/// Fuel only bounds a statement: see [`lemma_eval_fuel`].
pub proof fn lemma_stmt_fuel(f1: nat, f2: nat, s: IState, st: StmtM)
    requires
        f1 <= f2,
        !out_of_fuel(exec_stmt(f1, s, st).1),
    ensures
        exec_stmt(f2, s, st) == exec_stmt(f1, s, st),
    decreases f1, 0int, 0int,
{
    let g1 = (f1 - 1) as nat;
    let g2 = (f2 - 1) as nat;
    match st {
        StmtM::Let { name, type_ann, expr } => lemma_let_fuel(g1, g2, s, name, type_ann, expr),
        StmtM::Assign { name, expr } => lemma_assign_fuel(g1, g2, s, name, expr),
        StmtM::Return(value) => lemma_exec_return_fuel(g1, g2, s, value),
        StmtM::ExprStmt(x) => lemma_eval_fuel(g1, g2, s, x),
        StmtM::Block(stmts) => lemma_block_fuel(g1, g2, s, stmts),
        _ => {},
    }
}

/// Fuel only bounds a program: a program that does not run out of steps
/// with some fuel per statement has the same outcome with any larger fuel,
/// so the outcome of a run that does not report the step limit is the one
/// that evaluation without any limit gives.
pub proof fn lemma_program_fuel(f1: nat, f2: nat, s: IState, stmts: Seq<StmtM>, i: int, last: ValueM)
    requires
        f1 <= f2,
        !out_of_fuel(program_run(f1, s, stmts, i, last).1),
    ensures
        program_run(f2, s, stmts, i, last) == program_run(f1, s, stmts, i, last),
    decreases stmts.len() - i,
{
    if 0 <= i < stmts.len() {
        lemma_stmt_fuel(f1, f2, s, stmts[i]);
        let (s1, r1) = exec_stmt(f1, s, stmts[i]);
        match r1 {
            Ok(v) => lemma_program_fuel(f1, f2, s1, stmts, i + 1, v),
            Err(_) => {},
        }
    }
}


/// Top-level definitions persist: a `let` without annotation, run with no
/// local scope open, leaves the root scope holding the expression's value
/// under the name, on top of whatever evaluating the expression did to it.
pub proof fn lemma_top_level_let_persists(fuel: nat, s: IState, name: Seq<char>, expr: ExprM)
    requires
        fuel > 0,
        s.locals.len() == 0,
        !is_wildcard(name),
        eval_expr((fuel - 1) as nat, s, expr).1 is Ok,
    ensures
        ({
            let (s1, r1) = eval_expr((fuel - 1) as nat, s, expr);
            let (s2, r2) = exec_stmt(fuel, s, StmtM::Let { name, type_ann: None, expr });
            &&& r2 == Ok::<ValueM, Seq<char>>(ValueM::Unit)
            &&& s2.locals.len() == 0
            &&& s2.root == s1.root.insert(name, r1->Ok_0)
            &&& lookup(s2, name) == r1
        }),
{
    let f = (fuel - 1) as nat;
    lemma_eval_keeps_frame(f, s, expr);
    let (s1, r1) = eval_expr(f, s, expr);
    lemma_define_then_lookup(s1, name, r1->Ok_0);
}

} // verus!
