//! The tree-walking interpreter. Its state is an [`Interpreter`]; the model
//! of that state is an [`IState`], and each evaluating method computes the
//! function of `crate::semantics` that bears its meaning.
use vstd::prelude::*;
use crate::ast::{
    view_stmt, ArraySize, BinaryOp, Expr, Literal, Stmt, TypeAnnotation, UnaryOp, chars_are, copy_expr, copy_opt_type,
    copy_type, lemma_view_exprs, lemma_view_stmts, lemma_view_typed_params, type_debug_text,
    view_expr, view_exprs, view_opt_params, view_opt_type, view_stmts, view_type, view_typed_params,
};
use crate::numeric::{round_i64, round_u64};
use crate::scope::Scope;
use crate::semantics::{
    IState, assign_var, binary_spec, block_run, call_builtin, call_computed, call_user, capture,
    captured_upto, compare_values, define, eval_args, eval_binary, eval_break, eval_call, eval_expr,
    eval_if, eval_index, eval_return, eval_unary, exec_assign, exec_block, exec_let, exec_return,
    exec_stmt, index_spec, innermost, is_wildcard, join_displays, leave_loop, lookup, loop_run,
    pop_scope, program_run, push_scope, unary_spec, while_run, bind_params, int_result,
    trunc_div, compare, param_names, opt_param_names,
};
use crate::text::{concat2, concat3, i64_text, owned, str_chars, u64_text};
use crate::value::{
    Value, ValueM, all_have_type, assign_value, check_type_spec, copy_value, lemma_all_have_type_prefix,
    lemma_view_values, overlay, same_value, view_strings, view_unit_result, view_value, view_values,
};

verus! {

/// Where the interpreter writes what `print` prints: the lines, in order.
pub struct InterpreterConfig {
    pub output: Vec<String>,
}

impl InterpreterConfig {
    /// A configuration that starts with no output.
    pub fn new() -> (r: InterpreterConfig)
        ensures
            r.output@.len() == 0,
    {
        InterpreterConfig { output: Vec::new() }
    }

    /// A configuration whose printed lines are appended after `output`.
    pub fn with_output(output: Vec<String>) -> (r: InterpreterConfig)
        ensures
            r.output@ == output@,
    {
        InterpreterConfig { output }
    }
}

impl Default for InterpreterConfig {
    fn default() -> (r: Self)
        ensures
            r.output@.len() == 0,
    {
        InterpreterConfig::new()
    }
}

pub open spec fn view_lines(ls: Seq<String>) -> Seq<Seq<char>> {
    Seq::new(ls.len(), |i: int| ls[i]@)
}

pub open spec fn view_scopes(ss: Seq<Scope>) -> Seq<Map<Seq<char>, ValueM>> {
    Seq::new(ss.len(), |i: int| ss[i]@)
}

pub open spec fn view_opt_value(v: Option<Value>) -> Option<ValueM> {
    match v {
        Some(x) => Some(x@),
        None => None,
    }
}

pub open spec fn view_result(r: Result<Value, String>) -> Result<ValueM, Seq<char>> {
    match r {
        Ok(v) => Ok(v@),
        Err(e) => Err(e@),
    }
}

/// The state of a fresh interpreter over a root scope.
pub open spec fn initial_state(root: Map<Seq<char>, ValueM>, output: Seq<Seq<char>>) -> IState {
    IState {
        root,
        locals: Seq::empty(),
        pending_return: None,
        pending_break: None,
        pending_continue: false,
        loop_depth: 0,
        output,
    }
}

/// The fuel that [`Interpreter::execute_program`] gives each statement.
pub open spec fn program_fuel() -> nat {
    u64::MAX as nat
}

/// An interpreter over a root scope that it borrows: the variables that a
/// program defines at top level stay in that scope.
pub struct Interpreter<'a> {
    pub root_scope: &'a mut Scope,
    pub local_scopes: Vec<Scope>,
    pub pending_return: Option<Value>,
    pub pending_break: Option<Value>,
    pub pending_continue: bool,
    pub loop_depth: usize,
    pub config: InterpreterConfig,
}

/// Whether a name is the wildcard `_`.
fn is_wildcard_name(name: &str) -> (r: bool)
    ensures
        r == is_wildcard(name@),
{
    let cs = str_chars(name);
    let r = cs.len() == 1 && cs[0] == '_';
    assert(r ==> cs@ =~= seq!['_']);
    r
}

impl<'a> Interpreter<'a> {
    /// The model of the interpreter's state.
    pub open spec fn model(&self) -> IState {
        IState {
            root: (*self.root_scope)@,
            locals: view_scopes(self.local_scopes@),
            pending_return: view_opt_value(self.pending_return),
            pending_break: view_opt_value(self.pending_break),
            pending_continue: self.pending_continue,
            loop_depth: self.loop_depth as nat,
            output: view_lines(self.config.output@),
        }
    }

    /// An interpreter over `scope` that collects printed lines in a fresh configuration.
    pub fn new(scope: &'a mut Scope) -> (r: Self)
        ensures
            r.model() == initial_state(old(scope)@, Seq::empty()),
            *final(scope) == *final(r.root_scope),
    {
        let config = InterpreterConfig::new();
        assert(view_lines(config.output@) =~= Seq::empty());
        Self::new_with_config(scope, config)
    }

    /// An interpreter over `scope` with the given configuration.
    pub fn new_with_config(scope: &'a mut Scope, config: InterpreterConfig) -> (r: Self)
        ensures
            r.model() == initial_state(old(scope)@, view_lines(config.output@)),
            *final(scope) == *final(r.root_scope),
    {
        let r = Interpreter {
            root_scope: scope,
            local_scopes: Vec::new(),
            pending_return: None,
            pending_break: None,
            pending_continue: false,
            loop_depth: 0,
            config,
        };
        assert(r.model().locals =~= Seq::empty());
        r
    }

    pub fn push_scope(&mut self)
        ensures
            final(self).model() == push_scope(old(self).model()),
            *final(final(self).root_scope) == *final(old(self).root_scope),
    {
        self.local_scopes.push(Scope::new());
        assert(self.model().locals =~= old(self).model().locals.push(Map::empty()));
    }

    pub fn pop_scope(&mut self)
        ensures
            final(self).model() == pop_scope(old(self).model()),
            *final(final(self).root_scope) == *final(old(self).root_scope),
    {
        if self.local_scopes.len() > 0 {
            self.local_scopes.pop();
            assert(self.model().locals =~= old(self).model().locals.drop_last());
        }
    }

    pub fn define(&mut self, name: String, value: Value)
        ensures
            final(self).model() == define(old(self).model(), name@, value@),
            *final(final(self).root_scope) == *final(old(self).root_scope),
    {
        if is_wildcard_name(name.as_str()) {
            return;
        }
        let n = self.local_scopes.len();
        if n > 0 {
            self.local_scopes[n - 1].insert(name, value);
            assert(self.model().locals =~= old(self).model().locals.update(
                n - 1,
                old(self).model().locals.last().insert(name@, value@),
            ));
        } else {
            self.root_scope.insert(name, value);
        }
    }

    pub fn lookup(&self, name: &str) -> (r: Result<Value, String>)
        ensures
            view_result(r) == lookup(self.model(), name@),
    {
        let ghost locals = self.model().locals;
        let mut i = self.local_scopes.len();
        while i > 0
            invariant
                i <= self.local_scopes.len(),
                locals == self.model().locals,
                innermost(locals, locals.len() as int, name@) == innermost(locals, i as int, name@),
            decreases i,
        {
            match self.local_scopes[i - 1].get(name) {
                Some(v) => {
                    return Ok(copy_value(v));
                },
                None => {},
            }
            i = i - 1;
        }
        match self.root_scope.get(name) {
            Some(v) => Ok(copy_value(v)),
            None => Err(concat3("Undefined variable '", name, "'.")),
        }
    }

    fn assign(&mut self, name: &str, value: Value) -> (r: Result<(), String>)
        ensures
            (final(self).model(), view_unit_result(r)) == assign_var(old(self).model(), name@, value@),
            *final(final(self).root_scope) == *final(old(self).root_scope),
    {
        if is_wildcard_name(name) {
            return Ok(());
        }
        let ghost locals = self.model().locals;
        let mut i = self.local_scopes.len();
        while i > 0
            invariant
                i <= self.local_scopes.len(),
                self.model() == old(self).model(),
                *final(self.root_scope) == *final(old(self).root_scope),
                !is_wildcard(name@),
                locals == self.model().locals,
                innermost(locals, locals.len() as int, name@) == innermost(locals, i as int, name@),
            decreases i,
        {
            let found = match self.local_scopes[i - 1].get(name) {
                Some(v) => Some(copy_value(v)),
                None => None,
            };
            match found {
                Some(cur) => {
                    let ghost cur_view = cur@;
                    let (nv, r) = assign_value(cur, value);
                    self.local_scopes[i - 1].insert(owned(name), nv);
                    assert(self.model().locals =~= locals.update(i - 1, locals[i - 1].insert(name@, nv@)));
                    return r;
                },
                None => {},
            }
            i = i - 1;
        }
        let found = match self.root_scope.get(name) {
            Some(v) => Some(copy_value(v)),
            None => None,
        };
        match found {
            Some(cur) => {
                let (nv, r) = assign_value(cur, value);
                self.root_scope.insert(owned(name), nv);
                r
            },
            None => Err(concat3("Undefined variable '", name, "'.")),
        }
    }

    /// A scope with every visible variable, later scopes taking precedence.
    fn capture(&self) -> (r: Scope)
        ensures
            r@ == capture(self.model()),
    {
        let mut sc = Scope::new();
        overlay(&mut sc, &*self.root_scope);
        assert(sc@ =~= self.model().root);
        let mut i: usize = 0;
        while i < self.local_scopes.len()
            invariant
                i <= self.local_scopes.len(),
                sc@ == captured_upto(self.model().root, self.model().locals, i as int),
            decreases self.local_scopes.len() - i,
        {
            overlay(&mut sc, &self.local_scopes[i]);
            i = i + 1;
        }
        sc
    }
}

/// Rust's truncating division of integers, when the quotient fits in `i64`.
fn div_int(a: i64, b: i64) -> (r: Result<Value, String>)
    requires
        b != 0,
    ensures
        view_result(r) == int_result(trunc_div(a as int, b as int)),
{
    let aa: i128 = if a < 0 { -(a as i128) } else { a as i128 };
    let bb: i128 = if b < 0 { -(b as i128) } else { b as i128 };
    let q: i128 = aa / bb;
    let x: i128 = if (a < 0) != (b < 0) { -q } else { q };
    int_value(x)
}

/// An integer result, or the overflow error when it does not fit in `i64`.
fn int_value(x: i128) -> (r: Result<Value, String>)
    ensures
        view_result(r) == int_result(x as int),
{
    if x < -9223372036854775808i128 || x > 9223372036854775807i128 {
        Err(owned("Integer overflow"))
    } else {
        Ok(Value::Int(x as i64))
    }
}

fn compare_doubles(op: BinaryOp, a: i128, b: i128) -> (r: bool)
    ensures
        r == compare(op, a as int, b as int),
{
    match op {
        BinaryOp::Lt => a < b,
        BinaryOp::Gt => a > b,
        BinaryOp::Le => a <= b,
        _ => a >= b,
    }
}

/// The ordering comparisons: integers and string lengths as doubles.
fn compare_values_exec(op: BinaryOp, left: Value, right: Value) -> (r: Result<Value, String>)
    ensures
        view_result(r) == compare_values(op, left@, right@),
{
    match (left, right) {
        (Value::Int(a), Value::Int(b)) => {
            let x = round_i64(a);
            let y = round_i64(b);
            Ok(Value::Bool(compare_doubles(op, x, y)))
        },
        (Value::Str(a), Value::Str(b)) => {
            let la = a.as_str().len();
            let lb = b.as_str().len();
            let x = round_u64(la as u64);
            let y = round_u64(lb as u64);
            Ok(Value::Bool(compare_doubles(op, x as i128, y as i128)))
        },
        _ => Err(owned("Invalid operands for comparison")),
    }
}

/// A binary operator applied to two values.
fn eval_binary_op(op: BinaryOp, left: Value, right: Value) -> (r: Result<Value, String>)
    ensures
        view_result(r) == binary_spec(op, left@, right@),
{
    match op {
        BinaryOp::Add => match (left, right) {
            (Value::Int(a), Value::Int(b)) => int_value(a as i128 + b as i128),
            (Value::Str(a), Value::Str(b)) => Ok(Value::Str(concat2(a.as_str(), b.as_str()))),
            _ => Err(owned("Invalid operands for +")),
        },
        BinaryOp::Sub => match (left, right) {
            (Value::Int(a), Value::Int(b)) => int_value(a as i128 - b as i128),
            _ => Err(owned("Invalid operands for -")),
        },
        BinaryOp::Mul => match (left, right) {
            (Value::Int(a), Value::Int(b)) => {
                let ghost x: int = a as int;
                let ghost y: int = b as int;
                assert((x * y) <= 0x4000_0000_0000_0000_0000_0000_0000_0000) by (nonlinear_arith)
                    requires
                        -0x8000_0000_0000_0000 <= x <= 0x8000_0000_0000_0000,
                        -0x8000_0000_0000_0000 <= y <= 0x8000_0000_0000_0000,
                ;
                assert((x * y) >= -0x4000_0000_0000_0000_0000_0000_0000_0000) by (nonlinear_arith)
                    requires
                        -0x8000_0000_0000_0000 <= x <= 0x8000_0000_0000_0000,
                        -0x8000_0000_0000_0000 <= y <= 0x8000_0000_0000_0000,
                ;
                int_value((a as i128) * (b as i128))
            },
            _ => Err(owned("Invalid operands for *")),
        },
        BinaryOp::Div => match (left, right) {
            (Value::Int(a), Value::Int(b)) => if b != 0 {
                div_int(a, b)
            } else {
                Err(owned("Invalid operands for / or divide by zero"))
            },
            _ => Err(owned("Invalid operands for / or divide by zero")),
        },
        BinaryOp::Eq => Ok(Value::Bool(same_value(&left, &right))),
        BinaryOp::Ne => Ok(Value::Bool(!same_value(&left, &right))),
        BinaryOp::Lt | BinaryOp::Gt | BinaryOp::Le | BinaryOp::Ge => compare_values_exec(op, left, right),
        BinaryOp::And => match (left, right) {
            (Value::Bool(a), Value::Bool(b)) => Ok(Value::Bool(a && b)),
            _ => Err(owned("Invalid operands for and")),
        },
        BinaryOp::Or => match (left, right) {
            (Value::Bool(a), Value::Bool(b)) => Ok(Value::Bool(a || b)),
            _ => Err(owned("Invalid operands for or")),
        },
        BinaryOp::BitAnd => match (left, right) {
            (Value::Int(a), Value::Int(b)) => Ok(Value::Int(a & b)),
            _ => Err(owned("Invalid operands for &")),
        },
        BinaryOp::BitOr => match (left, right) {
            (Value::Int(a), Value::Int(b)) => Ok(Value::Int(a | b)),
            _ => Err(owned("Invalid operands for |")),
        },
    }
}

/// A prefix operator applied to a value.
fn eval_unary_op(op: UnaryOp, value: Value) -> (r: Result<Value, String>)
    ensures
        view_result(r) == unary_spec(op, value@),
{
    match (op, value) {
        (UnaryOp::Neg, Value::Int(i)) => int_value(-(i as i128)),
        (UnaryOp::Not, Value::Bool(b)) => Ok(Value::Bool(!b)),
        (UnaryOp::BitNot, Value::Int(i)) => {
            let r = !i;
            assert(r == -1 - i) by (bit_vector)
                requires
                    r == !i,
            ;
            Ok(Value::Int(r))
        },
        _ => Err(owned("Invalid unary operation")),
    }
}

pub open spec fn view_values_result(r: Result<Vec<Value>, String>) -> Result<Seq<ValueM>, Seq<char>> {
    match r {
        Ok(vs) => Ok(view_values(vs@)),
        Err(e) => Err(e@),
    }
}

pub open spec fn view_builtin_result(r: Result<Option<Value>, String>) -> Result<Option<ValueM>, Seq<char>> {
    match r {
        Ok(Some(v)) => Ok(Some(v@)),
        Ok(None) => Ok(None),
        Err(e) => Err(e@),
    }
}

/// The names of typed parameters.
fn typed_param_names(ps: &Vec<(String, TypeAnnotation)>) -> (r: Vec<String>)
    ensures
        view_strings(r@) == param_names(view_typed_params(ps@)),
{
    proof {
        lemma_view_typed_params(ps@);
    }
    let mut out: Vec<String> = Vec::new();
    let mut i: usize = 0;
    while i < ps.len()
        invariant
            i <= ps.len(),
            out@.len() == i,
            view_typed_params(ps@).len() == ps.len(),
            forall|j: int| 0 <= j < ps.len() ==> #[trigger] view_typed_params(ps@)[j] == (ps@[j].0@, view_type(ps@[j].1)),
            forall|j: int| 0 <= j < i ==> #[trigger] out@[j]@ == ps@[j].0@,
        decreases ps.len() - i,
    {
        out.push(ps[i].0.clone());
        i = i + 1;
    }
    assert(view_strings(out@) =~= param_names(view_typed_params(ps@)));
    out
}

/// The names of parameters whose types may be omitted.
fn opt_param_names_of(ps: &Vec<(String, Option<TypeAnnotation>)>) -> (r: Vec<String>)
    ensures
        view_strings(r@) == opt_param_names(view_opt_params(ps@)),
{
    let mut out: Vec<String> = Vec::new();
    let mut i: usize = 0;
    while i < ps.len()
        invariant
            i <= ps.len(),
            out@.len() == i,
            forall|j: int| 0 <= j < i ==> #[trigger] out@[j]@ == ps@[j].0@,
        decreases ps.len() - i,
    {
        out.push(ps[i].0.clone());
        i = i + 1;
    }
    assert(view_strings(out@) =~= opt_param_names(view_opt_params(ps@)));
    out
}

/// The line that `print` writes for its argument values.
fn join_displays_of(vals: &Vec<Value>) -> (r: String)
    ensures
        r@ == join_displays(view_values(vals@)),
{
    proof {
        lemma_view_values(vals@);
    }
    let ghost vs = view_values(vals@);
    let mut line = String::new();
    let mut i: usize = 0;
    assert(vs.take(0) =~= Seq::<ValueM>::empty());
    while i < vals.len()
        invariant
            i <= vals.len(),
            vs == view_values(vals@),
            vs.len() == vals.len(),
            forall|j: int| 0 <= j < vals.len() ==> #[trigger] vs[j] == view_value(vals@[j]),
            line@ == join_displays(vs.take(i as int)),
        decreases vals.len() - i,
    {
        let d = vals[i].display();
        if i > 0 {
            line.append(" ");
        }
        line.append(d.as_str());
        assert(vs.take(i + 1).drop_last() =~= vs.take(i as int));
        i = i + 1;
        assert(line@ =~= join_displays(vs.take(i as int)));
    }
    assert(vs.take(vals.len() as int) =~= vs);
    line
}

/// Indexing an array value.
fn index_value(av: Value, iv: Value) -> (r: Result<Value, String>)
    ensures
        view_result(r) == index_spec(av@, iv@),
{
    match (av, iv) {
        (Value::Array(elements), Value::Int(idx)) => {
            proof {
                lemma_view_values(elements@);
            }
            if idx < 0 || idx as u64 >= elements.len() as u64 {
                let mut m = owned("Array index out of bounds: ");
                let a = i64_text(idx);
                m.append(a.as_str());
                m.append(" (array length: ");
                let b = u64_text(elements.len() as u64);
                m.append(b.as_str());
                m.append(")");
                Err(m)
            } else {
                let k = idx as u64 as usize;
                Ok(copy_value(&elements[k]))
            }
        },
        _ => Err(owned("Array indexing requires array and integer index")),
    }
}

impl<'a> Interpreter<'a> {
    fn eval_args(&mut self, args: &Vec<Expr>, fuel: u64) -> (r: Result<Vec<Value>, String>)
        ensures
            (final(self).model(), view_values_result(r)) == eval_args(
                fuel as nat,
                old(self).model(),
                view_exprs(args@),
                0,
                Seq::empty(),
            ),
            *final(final(self).root_scope) == *final(old(self).root_scope),
        decreases fuel, 1int, 0int,
    {
        proof {
            lemma_view_exprs(args@);
        }
        let ghost m0 = self.model();
        let ghost aa = view_exprs(args@);
        let mut vals: Vec<Value> = Vec::new();
        assert(view_values(vals@) =~= Seq::<ValueM>::empty());
        let mut i: usize = 0;
        while i < args.len()
            invariant
                i <= args.len(),
                aa == view_exprs(args@),
                aa.len() == args.len(),
                forall|j: int| 0 <= j < args.len() ==> #[trigger] aa[j] == view_expr(args@[j]),
                m0 == old(self).model(),
                *final(self.root_scope) == *final(old(self).root_scope),
                eval_args(fuel as nat, m0, aa, 0, Seq::empty()) == eval_args(
                    fuel as nat,
                    self.model(),
                    aa,
                    i as int,
                    view_values(vals@),
                ),
            decreases args.len() - i,
        {
            let v = match self.eval_fuelled(&args[i], fuel) {
                Ok(v) => v,
                Err(e) => {
                    return Err(e);
                },
            };
            let ghost before = vals@;
            vals.push(v);
            assert(vals@.drop_last() =~= before);
            i = i + 1;
        }
        Ok(vals)
    }

    fn call_builtin(&mut self, name: &str, args: &Vec<Expr>, fuel: u64) -> (r: Result<Option<Value>, String>)
        ensures
            (final(self).model(), view_builtin_result(r)) == call_builtin(
                fuel as nat,
                old(self).model(),
                name@,
                view_exprs(args@),
            ),
            *final(final(self).root_scope) == *final(old(self).root_scope),
        decreases fuel, 2int, 0int,
    {
        let cs = str_chars(name);
        if chars_are(&cs, &vec!['p', 'r', 'i', 'n', 't']) {
            let vals = match self.eval_args(args, fuel) {
                Ok(v) => v,
                Err(e) => {
                    return Err(e);
                },
            };
            let line = join_displays_of(&vals);
            let ghost before = self.config.output@;
            self.config.output.push(line);
            assert(view_lines(self.config.output@) =~= view_lines(before).push(line@));
            Ok(Some(Value::Unit))
        } else if chars_are(&cs, &vec!['l', 'e', 'n']) {
            proof {
                lemma_view_exprs(args@);
            }
            if args.len() != 1 {
                return Err(owned("len() expects exactly 1 argument"));
            }
            let arg_val = match self.eval_fuelled(&args[0], fuel) {
                Ok(v) => v,
                Err(e) => {
                    return Err(e);
                },
            };
            match arg_val {
                Value::Array(elements) => {
                    proof {
                        lemma_view_values(elements@);
                    }
                    Ok(Some(Value::Int(#[verifier::truncate] (elements.len() as i64))))
                },
                _ => Err(owned("len() expects an array argument")),
            }
        } else {
            Ok(None)
        }
    }

    fn call_user_function(
        &mut self,
        params: Vec<String>,
        captured_scope: Scope,
        body: Box<Expr>,
        args: &Vec<Expr>,
        fuel: u64,
    ) -> (r: Result<Value, String>)
        ensures
            (final(self).model(), view_result(r)) == call_user(
                fuel as nat,
                old(self).model(),
                view_strings(params@),
                captured_scope@,
                body@,
                view_exprs(args@),
            ),
            *final(final(self).root_scope) == *final(old(self).root_scope),
        decreases fuel, 2int, 0int,
    {
        proof {
            lemma_view_exprs(args@);
        }
        if params.len() != args.len() {
            let mut m = owned("Function expects ");
            let a = u64_text(params.len() as u64);
            m.append(a.as_str());
            m.append(" arguments, got ");
            let b = u64_text(args.len() as u64);
            m.append(b.as_str());
            return Err(m);
        }
        let arg_values = match self.eval_args(args, fuel) {
            Ok(v) => v,
            Err(e) => {
                return Err(e);
            },
        };
        proof {
            lemma_view_values(arg_values@);
        }
        self.push_scope();
        assert(self.model().locals.len() == self.local_scopes@.len());
        let n = self.local_scopes.len();
        let ghost s2 = self.model();
        overlay(&mut self.local_scopes[n - 1], &captured_scope);
        assert(self.model().locals =~= s2.locals.update(s2.locals.len() - 1, s2.locals.last().union_prefer_right(captured_scope@)));
        let ghost s3 = self.model();
        let ghost ps = view_strings(params@);
        let ghost vs = view_values(arg_values@);
        let mut i: usize = 0;
        while i < params.len() && i < arg_values.len()
            invariant
                i <= params.len(),
                ps == view_strings(params@),
                vs == view_values(arg_values@),
                vs.len() == arg_values.len(),
                forall|j: int| 0 <= j < arg_values.len() ==> #[trigger] vs[j] == view_value(arg_values@[j]),
                *final(self.root_scope) == *final(old(self).root_scope),
                bind_params(s3, ps, vs, 0) == bind_params(self.model(), ps, vs, i as int),
            decreases params.len() - i,
        {
            let v = copy_value(&arg_values[i]);
            self.define(params[i].clone(), v);
            i = i + 1;
        }
        let result = match self.eval_fuelled(&body, fuel) {
            Ok(v) => v,
            Err(e) => {
                return Err(e);
            },
        };
        let mut pending: Option<Value> = None;
        std::mem::swap(&mut pending, &mut self.pending_return);
        let ret = match pending {
            Some(p) => p,
            None => result,
        };
        self.pop_scope();
        Ok(ret)
    }

    fn call_computed(&mut self, callee: &Expr, args: &Vec<Expr>, fuel: u64) -> (r: Result<Value, String>)
        ensures
            (final(self).model(), view_result(r)) == call_computed(
                fuel as nat,
                old(self).model(),
                callee@,
                view_exprs(args@),
            ),
            *final(final(self).root_scope) == *final(old(self).root_scope),
        decreases fuel, 3int, 0int,
    {
        let func_val = match self.eval_fuelled(callee, fuel) {
            Ok(v) => v,
            Err(e) => {
                return Err(e);
            },
        };
        match func_val {
            Value::Function { params, captured_scope, body, return_type: _ } => {
                self.call_user_function(params, captured_scope, body, args, fuel)
            },
            _ => Err(owned("Callee must be a function")),
        }
    }

    fn eval_call(&mut self, callee: &Expr, args: &Vec<Expr>, fuel: u64) -> (r: Result<Value, String>)
        ensures
            (final(self).model(), view_result(r)) == eval_call(
                fuel as nat,
                old(self).model(),
                callee@,
                view_exprs(args@),
            ),
            *final(final(self).root_scope) == *final(old(self).root_scope),
        decreases fuel, 4int, 0int,
    {
        match callee {
            Expr::Ident(name) => {
                match self.lookup(name.as_str()) {
                    Ok(Value::Function { params, captured_scope, body, return_type: _ }) => {
                        return self.call_user_function(params, captured_scope, body, args, fuel);
                    },
                    _ => {},
                }
                match self.call_builtin(name.as_str(), args, fuel) {
                    Err(e) => {
                        return Err(e);
                    },
                    Ok(Some(v)) => {
                        return Ok(v);
                    },
                    Ok(None) => {},
                }
                self.call_computed(callee, args, fuel)
            },
            _ => self.call_computed(callee, args, fuel),
        }
    }
}


impl<'a> Interpreter<'a> {
    fn leave_loop(&mut self)
        ensures
            final(self).model() == leave_loop(old(self).model()),
            *final(final(self).root_scope) == *final(old(self).root_scope),
    {
        if self.loop_depth > 0 {
            self.loop_depth = self.loop_depth - 1;
        }
    }

    fn eval_fuelled(&mut self, expr: &Expr, fuel: u64) -> (r: Result<Value, String>)
        ensures
            (final(self).model(), view_result(r)) == eval_expr(fuel as nat, old(self).model(), expr@),
            *final(final(self).root_scope) == *final(old(self).root_scope),
        decreases fuel, 0int, 0int,
    {
        if fuel == 0 {
            return Err(owned("Evaluation step limit exceeded"));
        }
        let f = fuel - 1;
        match expr {
            Expr::Literal(Literal::Int(i)) => Ok(Value::Int(*i)),
            Expr::Literal(Literal::Float(_)) => Err(owned("Floating-point values are not supported")),
            Expr::Literal(Literal::String(s)) => Ok(Value::Str(s.clone())),
            Expr::Literal(Literal::Bool(b)) => Ok(Value::Bool(*b)),
            Expr::Ident(name) => self.lookup(name.as_str()),
            Expr::Unary(op, x) => self.eval_unary_expr(*op, x, f),
            Expr::Binary(l, op, r) => self.eval_binary_expr(l, *op, r, f),
            Expr::If { condition, then_branch, else_branch } => self.eval_if(condition, then_branch, else_branch, f),
            Expr::Call { callee, args } => self.eval_call(callee, args, f),
            Expr::Fn { params, body, return_type } => {
                let names = opt_param_names_of(params);
                let captured = self.capture();
                Ok(Value::Function {
                    params: names,
                    captured_scope: captured,
                    body: Box::new(copy_expr(body)),
                    return_type: copy_opt_type(return_type),
                })
            },
            Expr::Loop { body } => {
                if self.loop_depth == usize::MAX {
                    return Err(owned("Loop nesting too deep"));
                }
                self.loop_depth = self.loop_depth + 1;
                self.run_loop(body, f)
            },
            Expr::While { condition, body } => {
                if self.loop_depth == usize::MAX {
                    return Err(owned("Loop nesting too deep"));
                }
                self.loop_depth = self.loop_depth + 1;
                self.run_while(condition, body, f)
            },
            Expr::Break { value } => self.eval_break(value, f),
            Expr::Continue => {
                if self.loop_depth == 0 {
                    return Err(owned("continue outside of loop"));
                }
                self.pending_continue = true;
                Ok(Value::Unit)
            },
            Expr::Return(value) => self.eval_return(value, f),
            Expr::ArrayLiteral(elements) => match self.eval_args(elements, f) {
                Ok(vs) => Ok(Value::Array(vs)),
                Err(e) => Err(e),
            },
            Expr::Index { array, index } => self.eval_index(array, index, f),
            Expr::Block(stmts) => self.execute_block(stmts, f),
        }
    }

    fn eval_unary_expr(&mut self, op: UnaryOp, x: &Expr, fuel: u64) -> (r: Result<Value, String>)
        ensures
            (final(self).model(), view_result(r)) == eval_unary(fuel as nat, old(self).model(), op, x@),
            *final(final(self).root_scope) == *final(old(self).root_scope),
        decreases fuel, 1int, 0int,
    {
        match self.eval_fuelled(x, fuel) {
            Ok(v) => eval_unary_op(op, v),
            Err(e) => Err(e),
        }
    }

    fn eval_binary_expr(&mut self, l: &Expr, op: BinaryOp, r: &Expr, fuel: u64) -> (res: Result<Value, String>)
        ensures
            (final(self).model(), view_result(res)) == eval_binary(fuel as nat, old(self).model(), l@, op, r@),
            *final(final(self).root_scope) == *final(old(self).root_scope),
        decreases fuel, 1int, 0int,
    {
        let left = match self.eval_fuelled(l, fuel) {
            Ok(v) => v,
            Err(e) => {
                return Err(e);
            },
        };
        let right = match self.eval_fuelled(r, fuel) {
            Ok(v) => v,
            Err(e) => {
                return Err(e);
            },
        };
        eval_binary_op(op, left, right)
    }

    fn eval_if(&mut self, c: &Expr, t: &Expr, e: &Option<Box<Expr>>, fuel: u64) -> (r: Result<Value, String>)
        ensures
            (final(self).model(), view_result(r)) == eval_if(
                fuel as nat,
                old(self).model(),
                c@,
                t@,
                match *e {
                    Some(b) => Some(Box::new(view_expr(*b))),
                    None => None,
                },
            ),
            *final(final(self).root_scope) == *final(old(self).root_scope),
        decreases fuel, 1int, 0int,
    {
        let test = match self.eval_fuelled(c, fuel) {
            Ok(v) => v,
            Err(err) => {
                return Err(err);
            },
        };
        match test {
            Value::Bool(b) => if b {
                self.eval_fuelled(t, fuel)
            } else {
                match e {
                    Some(x) => self.eval_fuelled(x, fuel),
                    None => Ok(Value::Unit),
                }
            },
            _ => Err(owned("Condition of if expression must be a boolean")),
        }
    }

    fn eval_break(&mut self, value: &Option<Box<Expr>>, fuel: u64) -> (r: Result<Value, String>)
        ensures
            (final(self).model(), view_result(r)) == eval_break(
                fuel as nat,
                old(self).model(),
                match *value {
                    Some(b) => Some(Box::new(view_expr(*b))),
                    None => None,
                },
            ),
            *final(final(self).root_scope) == *final(old(self).root_scope),
        decreases fuel, 1int, 0int,
    {
        if self.loop_depth == 0 {
            return Err(owned("break outside of loop"));
        }
        let result = match value {
            Some(x) => match self.eval_fuelled(x, fuel) {
                Ok(v) => v,
                Err(e) => {
                    return Err(e);
                },
            },
            None => Value::Unit,
        };
        self.pending_break = Some(result);
        Ok(Value::Unit)
    }

    fn eval_return(&mut self, value: &Option<Box<Expr>>, fuel: u64) -> (r: Result<Value, String>)
        ensures
            (final(self).model(), view_result(r)) == eval_return(
                fuel as nat,
                old(self).model(),
                match *value {
                    Some(b) => Some(Box::new(view_expr(*b))),
                    None => None,
                },
            ),
            *final(final(self).root_scope) == *final(old(self).root_scope),
        decreases fuel, 1int, 0int,
    {
        let result = match value {
            Some(x) => match self.eval_fuelled(x, fuel) {
                Ok(v) => v,
                Err(e) => {
                    return Err(e);
                },
            },
            None => Value::Unit,
        };
        self.pending_return = Some(result);
        Ok(Value::Unit)
    }

    fn eval_index(&mut self, a: &Expr, i: &Expr, fuel: u64) -> (r: Result<Value, String>)
        ensures
            (final(self).model(), view_result(r)) == eval_index(fuel as nat, old(self).model(), a@, i@),
            *final(final(self).root_scope) == *final(old(self).root_scope),
        decreases fuel, 1int, 0int,
    {
        let av = match self.eval_fuelled(a, fuel) {
            Ok(v) => v,
            Err(e) => {
                return Err(e);
            },
        };
        let iv = match self.eval_fuelled(i, fuel) {
            Ok(v) => v,
            Err(e) => {
                return Err(e);
            },
        };
        index_value(av, iv)
    }

    fn run_loop(&mut self, body: &Expr, fuel: u64) -> (r: Result<Value, String>)
        ensures
            (final(self).model(), view_result(r)) == loop_run(fuel as nat, old(self).model(), body@),
            *final(final(self).root_scope) == *final(old(self).root_scope),
        decreases fuel, 1int, 0int,
    {
        let mut k = fuel;
        loop
            invariant
                k <= fuel,
                loop_run(fuel as nat, old(self).model(), body@) == loop_run(k as nat, self.model(), body@),
                *final(self.root_scope) == *final(old(self).root_scope),
            decreases k,
        {
            if k == 0 {
                return Err(owned("Evaluation step limit exceeded"));
            }
            let f = k - 1;
            let result = match self.eval_fuelled(body, f) {
                Ok(v) => v,
                Err(e) => {
                    return Err(e);
                },
            };
            if self.pending_return.is_some() {
                self.leave_loop();
                return Ok(result);
            }
            let mut brk: Option<Value> = None;
            std::mem::swap(&mut brk, &mut self.pending_break);
            match brk {
                Some(v) => {
                    self.leave_loop();
                    return Ok(v);
                },
                None => {},
            }
            if self.pending_continue {
                self.pending_continue = false;
            }
            k = f;
        }
    }

    fn run_while(&mut self, cond: &Expr, body: &Expr, fuel: u64) -> (r: Result<Value, String>)
        ensures
            (final(self).model(), view_result(r)) == while_run(fuel as nat, old(self).model(), cond@, body@),
            *final(final(self).root_scope) == *final(old(self).root_scope),
        decreases fuel, 1int, 0int,
    {
        let mut k = fuel;
        loop
            invariant
                k <= fuel,
                while_run(fuel as nat, old(self).model(), cond@, body@) == while_run(
                    k as nat,
                    self.model(),
                    cond@,
                    body@,
                ),
                *final(self.root_scope) == *final(old(self).root_scope),
            decreases k,
        {
            if k == 0 {
                return Err(owned("Evaluation step limit exceeded"));
            }
            let f = k - 1;
            let test = match self.eval_fuelled(cond, f) {
                Ok(v) => v,
                Err(e) => {
                    return Err(e);
                },
            };
            match test {
                Value::Bool(b) => {
                    if !b {
                        self.leave_loop();
                        return Ok(Value::Unit);
                    }
                },
                _ => {
                    return Err(owned("Condition of while expression must be a boolean"));
                },
            }
            let result = match self.eval_fuelled(body, f) {
                Ok(v) => v,
                Err(e) => {
                    return Err(e);
                },
            };
            if self.pending_return.is_some() {
                self.leave_loop();
                return Ok(result);
            }
            if self.pending_break.is_some() {
                self.pending_break = None;
                self.leave_loop();
                return Ok(Value::Unit);
            }
            if self.pending_continue {
                self.pending_continue = false;
            }
            k = f;
        }
    }
}


impl<'a> Interpreter<'a> {
    fn execute_block(&mut self, stmts: &Vec<Stmt>, fuel: u64) -> (r: Result<Value, String>)
        ensures
            (final(self).model(), view_result(r)) == exec_block(fuel as nat, old(self).model(), view_stmts(stmts@)),
            *final(final(self).root_scope) == *final(old(self).root_scope),
        decreases fuel, 5int, 0int,
    {
        proof {
            lemma_view_stmts(stmts@);
        }
        let ghost ss = view_stmts(stmts@);
        self.push_scope();
        let ghost m1 = self.model();
        let mut last = Value::Unit;
        let mut stop = false;
        let mut i: usize = 0;
        while !stop && i < stmts.len()
            invariant
                i <= stmts.len(),
                ss == view_stmts(stmts@),
                ss.len() == stmts.len(),
                forall|j: int| 0 <= j < stmts.len() ==> #[trigger] ss[j] == view_stmt(stmts@[j]),
                m1 == push_scope(old(self).model()),
                *final(self.root_scope) == *final(old(self).root_scope),
                stop ==> block_run(fuel as nat, m1, ss, 0, ValueM::Unit) == (self.model(), Ok::<ValueM, Seq<char>>(last@)),
                !stop ==> block_run(fuel as nat, m1, ss, 0, ValueM::Unit) == block_run(fuel as nat, self.model(), ss, i as int, last@),
            decreases stmts.len() - i,
        {
            let v = match self.execute_statement(&stmts[i], fuel) {
                Ok(v) => v,
                Err(e) => {
                    return Err(e);
                },
            };
            last = v;
            if self.pending_return.is_some() || self.pending_break.is_some() || self.pending_continue {
                stop = true;
            }
            i = i + 1;
        }
        self.pop_scope();
        Ok(last)
    }

    fn exec_let(&mut self, name: &String, type_ann: &Option<TypeAnnotation>, expr: &Expr, fuel: u64) -> (r: Result<Value, String>)
        ensures
            (final(self).model(), view_result(r)) == exec_let(
                fuel as nat,
                old(self).model(),
                name@,
                view_opt_type(*type_ann),
                expr@,
            ),
            *final(final(self).root_scope) == *final(old(self).root_scope),
        decreases fuel, 1int, 0int,
    {
        let value = match type_ann {
            Some(TypeAnnotation::Fn(param_types, return_type)) => {
                let names = typed_param_names(param_types);
                let captured = self.capture();
                let rt = match return_type {
                    Some(b) => Some(copy_type(b)),
                    None => None,
                };
                Value::Function {
                    params: names,
                    captured_scope: captured,
                    body: Box::new(copy_expr(expr)),
                    return_type: rt,
                }
            },
            _ => match self.eval_fuelled(expr, fuel) {
                Ok(v) => v,
                Err(e) => {
                    return Err(e);
                },
            },
        };
        match type_ann {
            Some(t) => {
                if !Self::check_type(t, &value) {
                    let mut m = owned("Type mismatch for '");
                    m.append(name.as_str());
                    m.append("' : expected ");
                    let td = type_debug_text(t);
                    m.append(td.as_str());
                    m.append(", got ");
                    m.append(value.value_type_name());
                    m.append(".");
                    return Err(m);
                }
            },
            None => {},
        }
        self.define(name.clone(), value);
        Ok(Value::Unit)
    }

    fn exec_assign(&mut self, name: &String, expr: &Expr, fuel: u64) -> (r: Result<Value, String>)
        ensures
            (final(self).model(), view_result(r)) == exec_assign(fuel as nat, old(self).model(), name@, expr@),
            *final(final(self).root_scope) == *final(old(self).root_scope),
        decreases fuel, 1int, 0int,
    {
        let value = match self.eval_fuelled(expr, fuel) {
            Ok(v) => v,
            Err(e) => {
                return Err(e);
            },
        };
        match self.assign(name.as_str(), value) {
            Ok(()) => Ok(Value::Unit),
            Err(e) => Err(e),
        }
    }

    fn exec_return(&mut self, value: &Option<Expr>, fuel: u64) -> (r: Result<Value, String>)
        ensures
            (final(self).model(), view_result(r)) == exec_return(
                fuel as nat,
                old(self).model(),
                match *value {
                    Some(x) => Some(view_expr(x)),
                    None => None,
                },
            ),
            *final(final(self).root_scope) == *final(old(self).root_scope),
        decreases fuel, 1int, 0int,
    {
        let result = match value {
            Some(x) => match self.eval_fuelled(x, fuel) {
                Ok(v) => v,
                Err(e) => {
                    return Err(e);
                },
            },
            None => Value::Unit,
        };
        self.pending_return = Some(result);
        Ok(Value::Unit)
    }

    fn execute_statement(&mut self, statement: &Stmt, fuel: u64) -> (r: Result<Value, String>)
        ensures
            (final(self).model(), view_result(r)) == exec_stmt(fuel as nat, old(self).model(), statement@),
            *final(final(self).root_scope) == *final(old(self).root_scope),
        decreases fuel, 0int, 0int,
    {
        if fuel == 0 {
            return Err(owned("Evaluation step limit exceeded"));
        }
        let f = fuel - 1;
        match statement {
            Stmt::Let { name, type_ann, expr } => self.exec_let(name, type_ann, expr, f),
            Stmt::Fn { name, params, return_type, body } => {
                let names = typed_param_names(params);
                let captured = self.capture();
                let value = Value::Function {
                    params: names,
                    captured_scope: captured,
                    body: Box::new(copy_expr(body)),
                    return_type: copy_opt_type(return_type),
                };
                self.define(name.clone(), value);
                Ok(Value::Unit)
            },
            Stmt::Assign { name, expr } => self.exec_assign(name, expr, f),
            Stmt::Return(value) => self.exec_return(value, f),
            Stmt::ExprStmt(x) => self.eval_fuelled(x, f),
            Stmt::Block(stmts) => self.execute_block(stmts, f),
        }
    }

    /// Runs the statements of a program in order and gives the value of the
    /// last one (unit for none); the first error stops the program. Each
    /// statement may take `program_fuel()` steps.
    pub fn execute_program(&mut self, statements: &[Stmt]) -> (r: Result<Value, String>)
        ensures
            (final(self).model(), view_result(r)) == program_run(
                program_fuel(),
                old(self).model(),
                view_stmts(statements@),
                0,
                ValueM::Unit,
            ),
            *final(final(self).root_scope) == *final(old(self).root_scope),
    {
        proof {
            lemma_view_stmts(statements@);
        }
        let ghost ss = view_stmts(statements@);
        let mut last = Value::Unit;
        let mut i: usize = 0;
        while i < statements.len()
            invariant
                i <= statements.len(),
                ss == view_stmts(statements@),
                ss.len() == statements.len(),
                forall|j: int| 0 <= j < statements.len() ==> #[trigger] ss[j] == view_stmt(statements@[j]),
                *final(self.root_scope) == *final(old(self).root_scope),
                program_run(program_fuel(), old(self).model(), ss, 0, ValueM::Unit) == program_run(
                    program_fuel(),
                    self.model(),
                    ss,
                    i as int,
                    last@,
                ),
            decreases statements.len() - i,
        {
            last = match self.execute_statement(&statements[i], u64::MAX) {
                Ok(v) => v,
                Err(e) => {
                    return Err(e);
                },
            };
            i = i + 1;
        }
        Ok(last)
    }
}


impl<'a> Interpreter<'a> {
    /// Evaluates an expression in the interpreter's current scopes; it may take
    /// `program_fuel()` steps.
    pub fn eval_expression(&mut self, expr: &Expr) -> (r: Result<Value, String>)
        ensures
            (final(self).model(), view_result(r)) == eval_expr(program_fuel(), old(self).model(), expr@),
            *final(final(self).root_scope) == *final(old(self).root_scope),
    {
        self.eval_fuelled(expr, u64::MAX)
    }

    /// Whether a value has the annotated type.
    #[verifier::loop_isolation(false)]
    pub fn check_type(annotation: &TypeAnnotation, value: &Value) -> (r: bool)
        ensures
            r == check_type_spec(annotation@, value@),
        decreases annotation,
    {
        match annotation {
            TypeAnnotation::Int => matches!(value, Value::Int(_)),
            TypeAnnotation::Float => false,
            TypeAnnotation::String => matches!(value, Value::Str(_)),
            TypeAnnotation::Bool => matches!(value, Value::Bool(_)),
            TypeAnnotation::Never => false,
            TypeAnnotation::Array(elem_type, size) => {
                match value {
                    Value::Array(elements) => {
                        proof {
                            lemma_view_values(elements@);
                        }
                        let mut i: usize = 0;
                        while i < elements.len()
                            invariant
                                i <= elements.len(),
                                view_values(elements@).len() == elements.len(),
                                forall|j: int| 0 <= j < elements.len() ==> #[trigger] view_values(elements@)[j] == view_value(elements@[j]),
                                all_have_type(view_type(**elem_type), view_values(elements@).take(i as int)),
                            decreases elements.len() - i,
                        {
                            let ghost vs = view_values(elements@);
                            assert(vs.take(i + 1).drop_last() =~= vs.take(i as int));
                            if !Self::check_type(elem_type, &elements[i]) {
                                proof {
                                    if all_have_type(view_type(**elem_type), vs) {
                                        lemma_all_have_type_prefix(view_type(**elem_type), vs, i + 1);
                                    }
                                }
                                return false;
                            }
                            i = i + 1;
                        }
                        assert(view_values(elements@).take(elements.len() as int) =~= view_values(elements@));
                        match size {
                            ArraySize::Fixed(expected_size) => #[verifier::truncate] (elements.len() as i64) == *expected_size,
                            ArraySize::Inferred => true,
                        }
                    },
                    _ => false,
                }
            },
            TypeAnnotation::Fn(_, _) => matches!(value, Value::Function { .. }),
            TypeAnnotation::Custom(_) => true,
        }
    }
}

} // verus!
