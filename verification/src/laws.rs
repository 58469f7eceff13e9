//! Laws that say what the language's operations mean, each over all inputs
//! of a shape: operators on values, the precedence of operators, calls of
//! user-defined functions, escapes in string literals and `continue` in loops.
use vstd::prelude::*;
use crate::ast::{BinaryOp, ExprM, LiteralM, UnaryOp};
use crate::semantics::{IState, loop_run, while_run, bind_params, call_user, define, eval_args, innermost, is_wildcard, lookup, push_scope, binary_spec, eval_binary, eval_expr, eval_unary, overflow_msg, unary_spec};
use crate::value::ValueM;
use crate::lexer::{TokenM, escape_char, lex_from, lex_spec, lex_step, string_body};
use crate::parser::{bin_rest_spec, bin_spec, expr_spec, level_op, postfix_spec, primary_spec};

verus! {

/// An integer literal expression.
pub open spec fn int_lit(a: i64) -> ExprM {
    ExprM::Literal(LiteralM::Int(a))
}

/// A boolean literal expression.
pub open spec fn bool_lit(x: bool) -> ExprM {
    ExprM::Literal(LiteralM::Bool(x))
}

/// A binary operator applied to two expressions.
pub open spec fn bin(l: ExprM, op: BinaryOp, r: ExprM) -> ExprM {
    ExprM::Binary(Box::new(l), op, Box::new(r))
}

/// The value an evaluation from `s` gives, with the state left as it was.
pub open spec fn gives(fuel: nat, s: IState, e: ExprM, v: ValueM) -> bool {
    eval_expr(fuel, s, e) == (s, Ok::<ValueM, Seq<char>>(v))
}

/// A literal evaluates to its value, changing nothing.
proof fn lemma_literal(fuel: nat, s: IState, l: LiteralM)
    requires
        fuel >= 1,
        !(l is Float),
    ensures
        eval_expr(fuel, s, ExprM::Literal(l)) == (s, Ok::<ValueM, Seq<char>>(match l {
            LiteralM::Int(i) => ValueM::Int(i),
            LiteralM::Str(t) => ValueM::Str(t),
            LiteralM::Bool(b) => ValueM::Bool(b),
            LiteralM::Float(_) => ValueM::Unit,
        })),
{
}

/// A binary operator on two literals applies the operator to their values.
proof fn lemma_bin_literals(fuel: nat, s: IState, l: LiteralM, op: BinaryOp, r: LiteralM, lv: ValueM, rv: ValueM)
    requires
        fuel >= 2,
        eval_expr((fuel - 1) as nat, s, ExprM::Literal(l)) == (s, Ok::<ValueM, Seq<char>>(lv)),
        eval_expr((fuel - 1) as nat, s, ExprM::Literal(r)) == (s, Ok::<ValueM, Seq<char>>(rv)),
    ensures
        eval_expr(fuel, s, bin(ExprM::Literal(l), op, ExprM::Literal(r))) == (s, binary_spec(op, lv, rv)),
{
    assert(eval_binary((fuel - 1) as nat, s, ExprM::Literal(l), op, ExprM::Literal(r)) == (s, binary_spec(op, lv, rv)));
}

/// Two integer literals under an operator.
proof fn lemma_int_bin(fuel: nat, s: IState, a: i64, op: BinaryOp, b: i64)
    requires
        fuel >= 2,
    ensures
        eval_expr(fuel, s, bin(int_lit(a), op, int_lit(b))) == (s, binary_spec(op, ValueM::Int(a), ValueM::Int(b))),
{
    lemma_literal((fuel - 1) as nat, s, LiteralM::Int(a));
    lemma_literal((fuel - 1) as nat, s, LiteralM::Int(b));
    lemma_bin_literals(fuel, s, LiteralM::Int(a), op, LiteralM::Int(b), ValueM::Int(a), ValueM::Int(b));
}

/// Two boolean literals under an operator.
proof fn lemma_bool_bin(fuel: nat, s: IState, x: bool, op: BinaryOp, y: bool)
    requires
        fuel >= 2,
    ensures
        eval_expr(fuel, s, bin(bool_lit(x), op, bool_lit(y))) == (s, binary_spec(op, ValueM::Bool(x), ValueM::Bool(y))),
{
    lemma_literal((fuel - 1) as nat, s, LiteralM::Bool(x));
    lemma_literal((fuel - 1) as nat, s, LiteralM::Bool(y));
    lemma_bin_literals(fuel, s, LiteralM::Bool(x), op, LiteralM::Bool(y), ValueM::Bool(x), ValueM::Bool(y));
}

/// A prefix operator on a literal.
proof fn lemma_unary_literal(fuel: nat, s: IState, op: UnaryOp, l: LiteralM, v: ValueM)
    requires
        fuel >= 2,
        eval_expr((fuel - 1) as nat, s, ExprM::Literal(l)) == (s, Ok::<ValueM, Seq<char>>(v)),
    ensures
        eval_expr(fuel, s, ExprM::Unary(op, Box::new(ExprM::Literal(l)))) == (s, unary_spec(op, v)),
{
    assert(eval_unary((fuel - 1) as nat, s, op, ExprM::Literal(l)) == (s, unary_spec(op, v)));
}

/// The logical operators on booleans: `and` is true exactly when both
/// operands are, `or` when at least one is, `not` flips its operand.
pub proof fn lemma_logic_operators(fuel: nat, s: IState, x: bool, y: bool)
    requires
        fuel >= 2,
    ensures
        gives(fuel, s, bin(bool_lit(x), BinaryOp::And, bool_lit(y)), ValueM::Bool(x && y)),
        gives(fuel, s, bin(bool_lit(x), BinaryOp::Or, bool_lit(y)), ValueM::Bool(x || y)),
        gives(fuel, s, ExprM::Unary(UnaryOp::Not, Box::new(bool_lit(x))), ValueM::Bool(!x)),
        gives(fuel, s, bin(bool_lit(true), BinaryOp::And, bool_lit(false)), ValueM::Bool(false)),
{
    lemma_bool_bin(fuel, s, x, BinaryOp::And, y);
    lemma_bool_bin(fuel, s, x, BinaryOp::Or, y);
    lemma_bool_bin(fuel, s, true, BinaryOp::And, false);
    lemma_literal((fuel - 1) as nat, s, LiteralM::Bool(x));
    lemma_unary_literal(fuel, s, UnaryOp::Not, LiteralM::Bool(x), ValueM::Bool(x));
}

/// Integer addition, subtraction, multiplication and negation give the
/// mathematical result when it fits in 64 bits, and the overflow error when
/// it does not.
pub proof fn lemma_arithmetic_operators(fuel: nat, s: IState, a: i64, b: i64)
    requires
        fuel >= 2,
    ensures
        i64::MIN <= a + b <= i64::MAX ==> gives(fuel, s, bin(int_lit(a), BinaryOp::Add, int_lit(b)), ValueM::Int((a + b) as i64)),
        i64::MIN <= a - b <= i64::MAX ==> gives(fuel, s, bin(int_lit(a), BinaryOp::Sub, int_lit(b)), ValueM::Int((a - b) as i64)),
        i64::MIN <= a * b <= i64::MAX ==> gives(fuel, s, bin(int_lit(a), BinaryOp::Mul, int_lit(b)), ValueM::Int((a * b) as i64)),
        a > i64::MIN ==> gives(fuel, s, ExprM::Unary(UnaryOp::Neg, Box::new(int_lit(a))), ValueM::Int((-a) as i64)),
        !(i64::MIN <= a + b <= i64::MAX) ==> eval_expr(fuel, s, bin(int_lit(a), BinaryOp::Add, int_lit(b))) == (
            s,
            Err::<ValueM, Seq<char>>(overflow_msg()),
        ),
        !(i64::MIN <= a - b <= i64::MAX) ==> eval_expr(fuel, s, bin(int_lit(a), BinaryOp::Sub, int_lit(b))) == (
            s,
            Err::<ValueM, Seq<char>>(overflow_msg()),
        ),
        !(i64::MIN <= a * b <= i64::MAX) ==> eval_expr(fuel, s, bin(int_lit(a), BinaryOp::Mul, int_lit(b))) == (
            s,
            Err::<ValueM, Seq<char>>(overflow_msg()),
        ),
{
    lemma_int_bin(fuel, s, a, BinaryOp::Add, b);
    lemma_int_bin(fuel, s, a, BinaryOp::Sub, b);
    lemma_int_bin(fuel, s, a, BinaryOp::Mul, b);
    lemma_literal((fuel - 1) as nat, s, LiteralM::Int(a));
    lemma_unary_literal(fuel, s, UnaryOp::Neg, LiteralM::Int(a), ValueM::Int(a));
}

/// The bitwise operators: `&` and `|` combine the two's-complement bits of
/// their operands, and `~x` is `-x - 1`.
pub proof fn lemma_bitwise_operators(fuel: nat, s: IState, a: i64, b: i64)
    requires
        fuel >= 2,
    ensures
        gives(fuel, s, bin(int_lit(a), BinaryOp::BitAnd, int_lit(b)), ValueM::Int(a & b)),
        gives(fuel, s, bin(int_lit(a), BinaryOp::BitOr, int_lit(b)), ValueM::Int(a | b)),
        gives(fuel, s, ExprM::Unary(UnaryOp::BitNot, Box::new(int_lit(a))), ValueM::Int((-a - 1) as i64)),
{
    lemma_int_bin(fuel, s, a, BinaryOp::BitAnd, b);
    lemma_int_bin(fuel, s, a, BinaryOp::BitOr, b);
    lemma_literal((fuel - 1) as nat, s, LiteralM::Int(a));
    lemma_unary_literal(fuel, s, UnaryOp::BitNot, LiteralM::Int(a), ValueM::Int(a));
}

/// `+` on two strings joins them, left operand first.
pub proof fn lemma_string_concatenation(fuel: nat, s: IState, x: Seq<char>, y: Seq<char>)
    requires
        fuel >= 2,
    ensures
        gives(
            fuel,
            s,
            bin(ExprM::Literal(LiteralM::Str(x)), BinaryOp::Add, ExprM::Literal(LiteralM::Str(y))),
            ValueM::Str(x + y),
        ),
{
    lemma_literal((fuel - 1) as nat, s, LiteralM::Str(x));
    lemma_literal((fuel - 1) as nat, s, LiteralM::Str(y));
    lemma_bin_literals(fuel, s, LiteralM::Str(x), BinaryOp::Add, LiteralM::Str(y), ValueM::Str(x), ValueM::Str(y));
}

/// Integer division truncates toward zero: the quotient `q` leaves a
/// remainder `a - q * b` smaller than `b` in magnitude and of the sign of `a`.
pub proof fn lemma_division_truncates(fuel: nat, s: IState, a: i64, b: i64)
    requires
        fuel >= 2,
        b != 0,
        !(a == i64::MIN && b == -1),
    ensures
        eval_expr(fuel, s, bin(int_lit(a), BinaryOp::Div, int_lit(b))).0 == s,
        eval_expr(fuel, s, bin(int_lit(a), BinaryOp::Div, int_lit(b))).1 matches Ok(ValueM::Int(q)) && ({
            let r = a - q * b;
            &&& (if r < 0 { -r } else { r }) < (if b < 0 { -b } else { b as int })
            &&& (r == 0 || (r < 0) == (a < 0))
        }),
{
    lemma_int_bin(fuel, s, a, BinaryOp::Div, b);
    let aa: int = if a < 0 { -a } else { a as int };
    let bb: int = if b < 0 { -b } else { b as int };
    let qq = aa / bb;
    let rr = aa % bb;
    vstd::arithmetic::div_mod::lemma_fundamental_div_mod(aa, bb);
    vstd::arithmetic::div_mod::lemma_mod_pos_bound(aa, bb);
    let q: int = if (a < 0) != (b < 0) { -qq } else { qq };
    assert(0 <= qq <= aa) by {
        vstd::arithmetic::div_mod::lemma_div_pos_is_pos(aa, bb);
        vstd::arithmetic::div_mod::lemma_div_is_ordered_by_denominator(aa, 1, bb);
    }
    assert(i64::MIN <= q <= i64::MAX) by {
        if qq > 0x7fff_ffff_ffff_ffff {
            assert(bb * qq <= aa);
            assert(aa <= 0x8000_0000_0000_0000);
            assert(bb == 1) by (nonlinear_arith)
                requires
                    bb * qq <= 0x8000_0000_0000_0000,
                    qq > 0x7fff_ffff_ffff_ffff,
                    bb >= 1,
            ;
            assert(a == i64::MIN);
            assert(b == 1);
        }
    }
    let r = a - q * b;
    assert(r == if a < 0 { -rr } else { rr }) by (nonlinear_arith)
        requires
            aa == bb * qq + rr,
            aa == (if a < 0 { -a } else { a as int }),
            bb == (if b < 0 { -b } else { b as int }),
            q == (if (a < 0) != (b < 0) { -qq } else { qq }),
            r == a - q * b,
    ;
    assert(q == crate::semantics::trunc_div(a as int, b as int));
}

/// Comparisons of integers below 2^53 in magnitude are the order of the integers.
pub proof fn lemma_comparison_operators(fuel: nat, s: IState, a: i64, b: i64)
    requires
        fuel >= 2,
        -9007199254740992 < a < 9007199254740992,
        -9007199254740992 < b < 9007199254740992,
    ensures
        gives(fuel, s, bin(int_lit(a), BinaryOp::Lt, int_lit(b)), ValueM::Bool(a < b)),
        gives(fuel, s, bin(int_lit(a), BinaryOp::Gt, int_lit(b)), ValueM::Bool(a > b)),
        gives(fuel, s, bin(int_lit(a), BinaryOp::Le, int_lit(b)), ValueM::Bool(a <= b)),
        gives(fuel, s, bin(int_lit(a), BinaryOp::Ge, int_lit(b)), ValueM::Bool(a >= b)),
        gives(fuel, s, bin(int_lit(a), BinaryOp::Eq, int_lit(b)), ValueM::Bool(a == b)),
        gives(fuel, s, bin(int_lit(a), BinaryOp::Ne, int_lit(b)), ValueM::Bool(a != b)),
{
    lemma_int_bin(fuel, s, a, BinaryOp::Lt, b);
    lemma_int_bin(fuel, s, a, BinaryOp::Gt, b);
    lemma_int_bin(fuel, s, a, BinaryOp::Le, b);
    lemma_int_bin(fuel, s, a, BinaryOp::Ge, b);
    lemma_int_bin(fuel, s, a, BinaryOp::Eq, b);
    lemma_int_bin(fuel, s, a, BinaryOp::Ne, b);
}


// ------------------------------------------------------------ precedence

/// The additive operator tokens `+` and `-`.
pub open spec fn is_additive(t: TokenM) -> bool {
    t == TokenM::Plus || t == TokenM::Minus
}

/// The multiplicative operator tokens `*` and `/`.
pub open spec fn is_multiplicative(t: TokenM) -> bool {
    t == TokenM::Star || t == TokenM::Slash
}

/// The operator that an arithmetic token names.
pub open spec fn arith_op(t: TokenM) -> BinaryOp {
    match t {
        TokenM::Plus => BinaryOp::Add,
        TokenM::Minus => BinaryOp::Sub,
        TokenM::Star => BinaryOp::Mul,
        _ => BinaryOp::Div,
    }
}

/// The tokens `a t1 b t2 c` for three integer literals.
pub open spec fn three_ints(a: i64, t1: TokenM, b: i64, t2: TokenM, c: i64) -> Seq<TokenM> {
    seq![TokenM::IntLiteral(a), t1, TokenM::IntLiteral(b), t2, TokenM::IntLiteral(c)]
}

/// An integer literal followed by something other than `[` is an operand on its own.
proof fn lemma_int_operand(toks: Seq<TokenM>, p: int, a: i64)
    requires
        0 <= p < toks.len(),
        toks[p] == TokenM::IntLiteral(a),
        p + 1 == toks.len() || toks[p + 1] != TokenM::LBracket,
    ensures
        crate::parser::unary_spec(toks, p) == Ok::<(ExprM, int), Seq<char>>((int_lit(a), p + 1)),
{
    assert(primary_spec(toks, p) == Ok::<(ExprM, int), Seq<char>>((int_lit(a), p + 1)));
    assert(postfix_spec(toks, int_lit(a), p + 1) == Ok::<(ExprM, int), Seq<char>>((int_lit(a), p + 1)));
}

/// A parse at level `l0` that stops before any operator of the levels
/// above it, up to `lvl`, is also the parse at level `lvl`.
proof fn lemma_lift(toks: Seq<TokenM>, p: int, l0: int, lvl: int, e: ExprM, q: int)
    requires
        0 <= l0 <= lvl <= 7,
        p < q <= toks.len(),
        bin_spec(toks, p, l0) == Ok::<(ExprM, int), Seq<char>>((e, q)),
        forall|l: int| l0 < l <= lvl ==> q == toks.len() || #[trigger] level_op(l, toks[q]) is None,
    ensures
        bin_spec(toks, p, lvl) == Ok::<(ExprM, int), Seq<char>>((e, q)),
    decreases lvl,
{
    if lvl > l0 {
        lemma_lift(toks, p, l0, lvl - 1, e, q);
        assert(bin_rest_spec(toks, e, q, lvl) == Ok::<(ExprM, int), Seq<char>>((e, q)));
    }
}

/// `*` and `/` bind tighter than `+` and `-`: `a + b / c` is `a + (b / c)`,
/// and `a / b + c` is `(a / b) + c`.
pub proof fn lemma_multiplication_binds_tighter(a: i64, b: i64, c: i64, add: TokenM, mul: TokenM)
    requires
        is_additive(add),
        is_multiplicative(mul),
    ensures
        expr_spec(three_ints(a, add, b, mul, c), 0) == Ok::<(ExprM, int), Seq<char>>((
            bin(int_lit(a), arith_op(add), bin(int_lit(b), arith_op(mul), int_lit(c))),
            5,
        )),
        expr_spec(three_ints(a, mul, b, add, c), 0) == Ok::<(ExprM, int), Seq<char>>((
            bin(bin(int_lit(a), arith_op(mul), int_lit(b)), arith_op(add), int_lit(c)),
            5,
        )),
{
    let t = three_ints(a, add, b, mul, c);
    lemma_int_operand(t, 0, a);
    lemma_int_operand(t, 2, b);
    lemma_int_operand(t, 4, c);
    let bc = bin(int_lit(b), arith_op(mul), int_lit(c));
    assert(bin_rest_spec(t, int_lit(a), 1, 0) == Ok::<(ExprM, int), Seq<char>>((int_lit(a), 1)));
    assert(bin_spec(t, 0, 0) == Ok::<(ExprM, int), Seq<char>>((int_lit(a), 1)));
    assert(bin_rest_spec(t, bc, 5, 0) == Ok::<(ExprM, int), Seq<char>>((bc, 5)));
    assert(bin_rest_spec(t, int_lit(b), 3, 0) == Ok::<(ExprM, int), Seq<char>>((bc, 5)));
    assert(bin_spec(t, 2, 0) == Ok::<(ExprM, int), Seq<char>>((bc, 5)));
    let whole = bin(int_lit(a), arith_op(add), bc);
    assert(bin_rest_spec(t, whole, 5, 1) == Ok::<(ExprM, int), Seq<char>>((whole, 5)));
    assert(bin_rest_spec(t, int_lit(a), 1, 1) == Ok::<(ExprM, int), Seq<char>>((whole, 5)));
    assert(bin_spec(t, 0, 1) == Ok::<(ExprM, int), Seq<char>>((whole, 5)));
    lemma_lift(t, 0, 1, 7, whole, 5);

    let u = three_ints(a, mul, b, add, c);
    lemma_int_operand(u, 0, a);
    lemma_int_operand(u, 2, b);
    lemma_int_operand(u, 4, c);
    let ab = bin(int_lit(a), arith_op(mul), int_lit(b));
    assert(bin_rest_spec(u, ab, 3, 0) == Ok::<(ExprM, int), Seq<char>>((ab, 3)));
    assert(bin_rest_spec(u, int_lit(a), 1, 0) == Ok::<(ExprM, int), Seq<char>>((ab, 3)));
    assert(bin_spec(u, 0, 0) == Ok::<(ExprM, int), Seq<char>>((ab, 3)));
    assert(bin_rest_spec(u, int_lit(c), 5, 0) == Ok::<(ExprM, int), Seq<char>>((int_lit(c), 5)));
    assert(bin_spec(u, 4, 0) == Ok::<(ExprM, int), Seq<char>>((int_lit(c), 5)));
    let whole2 = bin(ab, arith_op(add), int_lit(c));
    assert(bin_rest_spec(u, whole2, 5, 1) == Ok::<(ExprM, int), Seq<char>>((whole2, 5)));
    assert(bin_rest_spec(u, ab, 3, 1) == Ok::<(ExprM, int), Seq<char>>((whole2, 5)));
    assert(bin_spec(u, 0, 1) == Ok::<(ExprM, int), Seq<char>>((whole2, 5)));
    lemma_lift(u, 0, 1, 7, whole2, 5);
}

/// Operators of one precedence level group from the left: `a - b - c` is
/// `(a - b) - c`, and `a / b * c` is `(a / b) * c`.
pub proof fn lemma_same_level_groups_left(a: i64, b: i64, c: i64, t1: TokenM, t2: TokenM)
    requires
        (is_additive(t1) && is_additive(t2)) || (is_multiplicative(t1) && is_multiplicative(t2)),
    ensures
        expr_spec(three_ints(a, t1, b, t2, c), 0) == Ok::<(ExprM, int), Seq<char>>((
            bin(bin(int_lit(a), arith_op(t1), int_lit(b)), arith_op(t2), int_lit(c)),
            5,
        )),
{
    let t = three_ints(a, t1, b, t2, c);
    lemma_int_operand(t, 0, a);
    lemma_int_operand(t, 2, b);
    lemma_int_operand(t, 4, c);
    let ab = bin(int_lit(a), arith_op(t1), int_lit(b));
    let whole = bin(ab, arith_op(t2), int_lit(c));
    if is_multiplicative(t1) {
        assert(bin_rest_spec(t, whole, 5, 0) == Ok::<(ExprM, int), Seq<char>>((whole, 5)));
        assert(bin_rest_spec(t, ab, 3, 0) == Ok::<(ExprM, int), Seq<char>>((whole, 5)));
        assert(bin_rest_spec(t, int_lit(a), 1, 0) == Ok::<(ExprM, int), Seq<char>>((whole, 5)));
        assert(bin_spec(t, 0, 0) == Ok::<(ExprM, int), Seq<char>>((whole, 5)));
        lemma_lift(t, 0, 0, 7, whole, 5);
    } else {
        assert(bin_rest_spec(t, int_lit(a), 1, 0) == Ok::<(ExprM, int), Seq<char>>((int_lit(a), 1)));
        assert(bin_spec(t, 0, 0) == Ok::<(ExprM, int), Seq<char>>((int_lit(a), 1)));
        assert(bin_rest_spec(t, int_lit(b), 3, 0) == Ok::<(ExprM, int), Seq<char>>((int_lit(b), 3)));
        assert(bin_spec(t, 2, 0) == Ok::<(ExprM, int), Seq<char>>((int_lit(b), 3)));
        assert(bin_rest_spec(t, int_lit(c), 5, 0) == Ok::<(ExprM, int), Seq<char>>((int_lit(c), 5)));
        assert(bin_spec(t, 4, 0) == Ok::<(ExprM, int), Seq<char>>((int_lit(c), 5)));
        assert(bin_rest_spec(t, whole, 5, 1) == Ok::<(ExprM, int), Seq<char>>((whole, 5)));
        assert(bin_rest_spec(t, ab, 3, 1) == Ok::<(ExprM, int), Seq<char>>((whole, 5)));
        assert(bin_rest_spec(t, int_lit(a), 1, 1) == Ok::<(ExprM, int), Seq<char>>((whole, 5)));
        assert(bin_spec(t, 0, 1) == Ok::<(ExprM, int), Seq<char>>((whole, 5)));
        lemma_lift(t, 0, 1, 7, whole, 5);
    }
}


// ------------------------------------------------------------ calls

/// Parameter names that are all different and none of them `_`.
pub open spec fn distinct_params(ps: Seq<Seq<char>>) -> bool {
    &&& forall|i: int, j: int| 0 <= i < j < ps.len() ==> ps[i] != ps[j]
    &&& forall|i: int| 0 <= i < ps.len() ==> !is_wildcard(#[trigger] ps[i])
}

proof fn lemma_eval_args_len(fuel: nat, s: IState, args: Seq<ExprM>, i: int, acc: Seq<ValueM>)
    requires
        0 <= i <= args.len(),
    ensures
        eval_args(fuel, s, args, i, acc).1 matches Ok(vs) ==> vs.len() == acc.len() + args.len() - i,
    decreases args.len() - i,
{
    if i < args.len() {
        let (s1, r1) = eval_expr(fuel, s, args[i]);
        match r1 {
            Ok(v) => lemma_eval_args_len(fuel, s1, args, i + 1, acc.push(v)),
            Err(_) => {},
        }
    }
}

proof fn lemma_bind_params_binds(s: IState, ps: Seq<Seq<char>>, vs: Seq<ValueM>, k: int)
    requires
        s.locals.len() > 0,
        distinct_params(ps),
        ps.len() == vs.len(),
        0 <= k <= ps.len(),
    ensures
        ({
            let t = bind_params(s, ps, vs, k);
            &&& t.locals.len() == s.locals.len()
            &&& t.pending_return == s.pending_return
            &&& forall|i: int| k <= i < ps.len() ==> t.locals.last().contains_key(#[trigger] ps[i])
                && t.locals.last()[ps[i]] == vs[i]
        }),
    decreases ps.len() - k,
{
    if k < ps.len() {
        let s1 = define(s, ps[k], vs[k]);
        lemma_bind_params_binds(s1, ps, vs, k + 1);
        lemma_bind_keeps_others(s1, ps, vs, k + 1, ps[k]);
    }
}

proof fn lemma_bind_keeps_others(s: IState, ps: Seq<Seq<char>>, vs: Seq<ValueM>, k: int, name: Seq<char>)
    requires
        s.locals.len() > 0,
        0 <= k <= ps.len(),
        forall|i: int| k <= i < ps.len() ==> ps[i] != name,
    ensures
        ({
            let t = bind_params(s, ps, vs, k);
            &&& t.locals.len() == s.locals.len()
            &&& t.locals.last().contains_key(name) == s.locals.last().contains_key(name)
            &&& t.locals.last()[name] == s.locals.last()[name]
        }),
    decreases ps.len() - k,
{
    if k < ps.len() && k < vs.len() {
        lemma_bind_keeps_others(define(s, ps[k], vs[k]), ps, vs, k + 1, name);
    }
}

/// Inside a call, a parameter reads back as the argument passed for it, even
/// when the function captured a variable of the same name: parameters shadow
/// captured variables. (A function whose body is its `i`-th parameter returns
/// its `i`-th argument.)
pub proof fn lemma_parameters_shadow_captured(
    fuel: nat,
    s: IState,
    params: Seq<Seq<char>>,
    captured: Map<Seq<char>, ValueM>,
    args: Seq<ExprM>,
    i: int,
)
    requires
        fuel >= 1,
        distinct_params(params),
        params.len() == args.len(),
        0 <= i < params.len(),
        eval_args(fuel, s, args, 0, Seq::empty()).1 is Ok,
        eval_args(fuel, s, args, 0, Seq::empty()).0.pending_return is None,
    ensures
        call_user(fuel, s, params, captured, ExprM::Ident(params[i]), args).1 == Ok::<ValueM, Seq<char>>(
            eval_args(fuel, s, args, 0, Seq::empty()).1->Ok_0[i],
        ),
{
    lemma_eval_args_len(fuel, s, args, 0, Seq::empty());
    let (s1, r1) = eval_args(fuel, s, args, 0, Seq::empty());
    let vals = r1->Ok_0;
    let s2 = push_scope(s1);
    let s3 = IState {
        locals: s2.locals.update(s2.locals.len() - 1, s2.locals.last().union_prefer_right(captured)),
        ..s2
    };
    lemma_bind_params_binds(s3, params, vals, 0);
    let s4 = bind_params(s3, params, vals, 0);
    let name = params[i];
    assert(s4.locals.last().contains_key(name));
    assert(innermost(s4.locals, s4.locals.len() as int, name) == Some(s4.locals.len() - 1));
    assert(lookup(s4, name) == Ok::<ValueM, Seq<char>>(vals[i]));
    assert(eval_expr(fuel, s4, ExprM::Ident(name)) == (s4, Ok::<ValueM, Seq<char>>(vals[i])));
}


// ------------------------------------------------------------ string escapes

/// Text that stands for itself inside a string literal: no quote, no backslash.
pub open spec fn plain_text(t: Seq<char>) -> bool {
    forall|k: int| 0 <= k < t.len() ==> #[trigger] t[k] != '"' && t[k] != '\\'
}

/// The source of a string literal: `"`, `t1`, a backslash and `e`, `t2`, `"`.
pub open spec fn literal_with_escape(t1: Seq<char>, e: char, t2: Seq<char>) -> Seq<char> {
    seq!['"'] + t1 + seq!['\\', e] + t2 + seq!['"']
}

proof fn lemma_plain_run(s: Seq<char>, j: int, k: int, acc: Seq<char>)
    requires
        0 <= j <= k <= s.len(),
        forall|m: int| j <= m < k ==> #[trigger] s[m] != '"' && s[m] != '\\',
    ensures
        string_body(s, j, acc) == string_body(s, k, acc + s.subrange(j, k)),
    decreases k - j,
{
    if j < k {
        lemma_plain_run(s, j + 1, k, acc.push(s[j]));
        assert(acc.push(s[j]) + s.subrange(j + 1, k) =~= acc + s.subrange(j, k));
    } else {
        assert(acc + s.subrange(j, k) =~= acc);
    }
}

proof fn lemma_lex_escape(t1: Seq<char>, e: char, t2: Seq<char>)
    requires
        plain_text(t1),
        plain_text(t2),
    ensures
        lex_spec(literal_with_escape(t1, e, t2)) == Ok::<Seq<TokenM>, Seq<char>>(seq![
            TokenM::StringLiteral(t1 + match escape_char(e) {
                Some(c) => seq![c],
                None => seq!['\\', e],
            } + t2),
        ]),
{
    let s = literal_with_escape(t1, e, t2);
    let n1 = t1.len() as int;
    let n2 = t2.len() as int;
    assert(s.len() == n1 + n2 + 4);
    assert(s[0] == '"');
    assert forall|m: int| 1 <= m < 1 + n1 implies #[trigger] s[m] != '"' && s[m] != '\\' by {
        assert(s[m] == t1[m - 1]);
    }
    lemma_plain_run(s, 1, 1 + n1, Seq::empty());
    assert(Seq::<char>::empty() + s.subrange(1, 1 + n1) =~= t1);
    assert(s[1 + n1] == '\\');
    assert(s[2 + n1] == e);
    let mid = match escape_char(e) {
        Some(c) => t1.push(c),
        None => t1.push('\\').push(e),
    };
    assert(string_body(s, 1 + n1, t1) == string_body(s, 3 + n1, mid));
    assert forall|m: int| 3 + n1 <= m < 3 + n1 + n2 implies #[trigger] s[m] != '"' && s[m] != '\\' by {
        assert(s[m] == t2[m - 3 - n1]);
    }
    lemma_plain_run(s, 3 + n1, 3 + n1 + n2, mid);
    assert(mid + s.subrange(3 + n1, 3 + n1 + n2) =~= mid + t2);
    assert(s[3 + n1 + n2] == '"');
    let body = mid + t2;
    assert(string_body(s, 3 + n1 + n2, body) == Ok::<(Seq<char>, int), Seq<char>>((body, 4 + n1 + n2)));
    assert(lex_step(s, 0) == Ok::<(Option<TokenM>, int), Seq<char>>((Some(TokenM::StringLiteral(body)), s.len() as int)));
    assert(lex_from(s, s.len() as int, seq![TokenM::StringLiteral(body)]) == Ok::<Seq<TokenM>, Seq<char>>(seq![TokenM::StringLiteral(body)]));
    assert(Seq::<TokenM>::empty().push(TokenM::StringLiteral(body)) =~= seq![TokenM::StringLiteral(body)]);
    match escape_char(e) {
        Some(c) => assert(body =~= t1 + seq![c] + t2),
        None => assert(body =~= t1 + seq!['\\', e] + t2),
    }
}

/// In a string literal each of the escapes `\n`, `\t`, `\r`, `\\`, `\"` and
/// `\0` stands for the one character it names (newline, tab, carriage
/// return, backslash, double quote, NUL), and a backslash before any other
/// character is kept together with that character.
pub proof fn lemma_string_escapes(t1: Seq<char>, e: char, t2: Seq<char>)
    requires
        plain_text(t1),
        plain_text(t2),
    ensures
        e == 'n' ==> lex_spec(literal_with_escape(t1, e, t2)) == Ok::<Seq<TokenM>, Seq<char>>(
            seq![TokenM::StringLiteral(t1 + seq!['\n'] + t2)],
        ),
        e == 't' ==> lex_spec(literal_with_escape(t1, e, t2)) == Ok::<Seq<TokenM>, Seq<char>>(
            seq![TokenM::StringLiteral(t1 + seq!['\t'] + t2)],
        ),
        e == 'r' ==> lex_spec(literal_with_escape(t1, e, t2)) == Ok::<Seq<TokenM>, Seq<char>>(
            seq![TokenM::StringLiteral(t1 + seq!['\r'] + t2)],
        ),
        e == '\\' ==> lex_spec(literal_with_escape(t1, e, t2)) == Ok::<Seq<TokenM>, Seq<char>>(
            seq![TokenM::StringLiteral(t1 + seq!['\\'] + t2)],
        ),
        e == '"' ==> lex_spec(literal_with_escape(t1, e, t2)) == Ok::<Seq<TokenM>, Seq<char>>(
            seq![TokenM::StringLiteral(t1 + seq!['"'] + t2)],
        ),
        e == '0' ==> lex_spec(literal_with_escape(t1, e, t2)) == Ok::<Seq<TokenM>, Seq<char>>(
            seq![TokenM::StringLiteral(t1 + seq!['\0'] + t2)],
        ),
        !(e == 'n' || e == 't' || e == 'r' || e == '\\' || e == '"' || e == '0') ==> lex_spec(
            literal_with_escape(t1, e, t2),
        ) == Ok::<Seq<TokenM>, Seq<char>>(seq![TokenM::StringLiteral(t1 + seq!['\\', e] + t2)]),
{
    lemma_lex_escape(t1, e, t2);
}


// ------------------------------------------------------------ loops

/// A loop body that never breaks nor returns: from any state with nothing
/// pending, whatever it evaluates to successfully leaves no `break` and no
/// `return` pending (it may leave a `continue`).
pub open spec fn never_leaves(body: ExprM) -> bool {
    forall|g: nat, t: IState|
        t.pending_break is None && t.pending_return is None && (#[trigger] eval_expr(g, t, body)).1 is Ok
            ==> eval_expr(g, t, body).0.pending_break is None && eval_expr(g, t, body).0.pending_return is None
}

proof fn lemma_loop_run_never_ends(fuel: nat, s: IState, body: ExprM)
    requires
        never_leaves(body),
        s.pending_break is None,
        s.pending_return is None,
    ensures
        loop_run(fuel, s, body).1 is Err,
    decreases fuel,
{
    if fuel > 0 {
        let f = (fuel - 1) as nat;
        let (s1, r1) = eval_expr(f, s, body);
        if r1 is Ok {
            assert(s1.pending_break is None && s1.pending_return is None);
            if s1.pending_continue {
                lemma_loop_run_never_ends(f, IState { pending_continue: false, ..s1 }, body);
            } else {
                lemma_loop_run_never_ends(f, s1, body);
            }
        }
    }
}

/// A `loop` ends successfully only through `break` or `return`: when its
/// body never breaks nor returns, the loop never gives a value, however its
/// iterations end (a `continue` starts the next one) — it runs until an
/// error or the step limit stops it.
pub proof fn lemma_loop_ends_only_by_break_or_return(fuel: nat, s: IState, body: ExprM)
    requires
        never_leaves(body),
        s.pending_break is None,
        s.pending_return is None,
    ensures
        eval_expr(fuel, s, ExprM::Loop { body: Box::new(body) }).1 is Err,
{
    if fuel > 0 && s.loop_depth < usize::MAX {
        lemma_loop_run_never_ends(
            (fuel - 1) as nat,
            IState { loop_depth: s.loop_depth + 1, ..s },
            body,
        );
    }
}


/// `continue` on its own never breaks nor returns, so `loop { continue }`
/// never gives a value: a `continue` goes on to the next iteration.
pub proof fn lemma_loop_of_continue_never_ends(fuel: nat, s: IState)
    requires
        s.pending_break is None,
        s.pending_return is None,
    ensures
        never_leaves(ExprM::Continue),
        eval_expr(fuel, s, ExprM::Loop { body: Box::new(ExprM::Continue) }).1 is Err,
{
    assert forall|g: nat, t: IState|
        t.pending_break is None && t.pending_return is None && (#[trigger] eval_expr(g, t, ExprM::Continue)).1 is Ok
        implies eval_expr(g, t, ExprM::Continue).0.pending_break is None
            && eval_expr(g, t, ExprM::Continue).0.pending_return is None by {}
    lemma_loop_ends_only_by_break_or_return(fuel, s, ExprM::Continue);
}


proof fn lemma_while_true_never_ends(fuel: nat, s: IState, body: ExprM)
    requires
        never_leaves(body),
        s.pending_break is None,
        s.pending_return is None,
    ensures
        while_run(fuel, s, bool_lit(true), body).1 is Err,
    decreases fuel,
{
    if fuel > 0 {
        let f = (fuel - 1) as nat;
        if f >= 1 {
            lemma_literal(f, s, LiteralM::Bool(true));
            let (s2, r2) = eval_expr(f, s, body);
            if r2 is Ok {
                assert(s2.pending_break is None && s2.pending_return is None);
                if s2.pending_continue {
                    lemma_while_true_never_ends(f, IState { pending_continue: false, ..s2 }, body);
                } else {
                    lemma_while_true_never_ends(f, s2, body);
                }
            }
            assert(while_run(fuel, s, bool_lit(true), body).1 is Err);
        } else {
            assert(eval_expr(f, s, bool_lit(true)).1 is Err);
        }
    }
}

/// `while true { .. }` ends successfully only through `break` or `return`:
/// when its body never breaks nor returns, it never gives a value, however
/// its iterations end (a `continue` goes back to the condition).
pub proof fn lemma_while_true_ends_only_by_break_or_return(fuel: nat, s: IState, body: ExprM)
    requires
        never_leaves(body),
        s.pending_break is None,
        s.pending_return is None,
    ensures
        eval_expr(fuel, s, ExprM::While { condition: Box::new(bool_lit(true)), body: Box::new(body) }).1 is Err,
{
    if fuel > 0 && s.loop_depth < usize::MAX {
        lemma_while_true_never_ends((fuel - 1) as nat, IState { loop_depth: s.loop_depth + 1, ..s }, body);
    }
}

} // verus!
