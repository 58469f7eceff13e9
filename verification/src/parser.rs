//! The parser: tokens to statements, by recursive descent. The `*_spec`
//! functions state the grammar over token models, each returning what it
//! parsed and the position after it, or the error message; the methods of
//! [`Parser`] compute exactly those results.
use vstd::prelude::*;
use crate::ast::{
    ArraySize, BinaryOp, Expr, ExprM, Literal, LiteralM, Stmt, StmtM, TypeAnnotation, TypeM, UnaryOp,
    type_from_name, view_exprs, view_stmts, view_typed_params, view_opt_params, view_type,
    view_opt_type,
};
use crate::lexer::{Token, TokenM, token_debug, token_debug_text, view_tokens, same_token, copy_token};
use crate::text::{owned, concat2, str_chars};

verus! {

pub type PResult<T> = Result<(T, int), Seq<char>>;

/// Whether the token at `p` is `t`.
pub open spec fn tok_at(toks: Seq<TokenM>, p: int, t: TokenM) -> bool {
    0 <= p < toks.len() && toks[p] == t
}

/// Consumes the token `t` at `p`.
pub open spec fn expect_spec(toks: Seq<TokenM>, p: int, t: TokenM) -> Result<int, Seq<char>> {
    if 0 <= p < toks.len() {
        if toks[p] == t {
            Ok(p + 1)
        } else {
            Err("Expected "@ + token_debug(t) + ", found "@ + token_debug(toks[p]))
        }
    } else {
        Err("Expected "@ + token_debug(t) + ", found end of input"@)
    }
}

/// Consumes an identifier at `p`.
pub open spec fn ident_spec(toks: Seq<TokenM>, p: int) -> PResult<Seq<char>> {
    if 0 <= p < toks.len() {
        match toks[p] {
            TokenM::Ident(n) => Ok((n, p + 1)),
            t => Err("Expected identifier, found "@ + token_debug(t)),
        }
    } else {
        Err("Expected identifier, found end of input"@)
    }
}

/// The size of an array type at `r`: a number, or `_` for a size taken from the value.
pub open spec fn array_size_spec(toks: Seq<TokenM>, r: int) -> PResult<ArraySize> {
    if 0 <= r < toks.len() {
        match toks[r] {
            TokenM::IntLiteral(n) => Ok((ArraySize::Fixed(n), r + 1)),
            TokenM::Ident(w) => if w == seq!['_'] {
                Ok((ArraySize::Inferred, r + 1))
            } else {
                Err("Expected array size, found "@ + token_debug(toks[r]))
            },
            t => Err("Expected array size, found "@ + token_debug(t)),
        }
    } else {
        Err("Expected array size, found end of input"@)
    }
}

/// A type annotation: `fn(name: type, ...) -> type`, `[type; size]`, or a type name.
pub open spec fn type_spec(toks: Seq<TokenM>, p: int) -> PResult<TypeM>
    decreases toks.len() - p,
{
    if tok_at(toks, p, TokenM::LBracket) {
        match type_spec(toks, p + 1) {
            Err(e) => Err(e),
            Ok((elem, q)) => match expect_spec(toks, q, TokenM::Semicolon) {
                Err(e) => Err(e),
                Ok(r) => match array_size_spec(toks, r) {
                    Err(e) => Err(e),
                    Ok((size, u)) => match expect_spec(toks, u, TokenM::RBracket) {
                        Err(e) => Err(e),
                        Ok(w) => Ok((TypeM::Array(Box::new(elem), size), w)),
                    },
                },
            },
        }
    } else if tok_at(toks, p, TokenM::Fn) {
        match expect_spec(toks, p + 1, TokenM::LParen) {
            Err(e) => Err(e),
            Ok(q) => {
                let params = if tok_at(toks, q, TokenM::RParen) {
                    Ok((Seq::empty(), q))
                } else {
                    type_params_spec(toks, q, Seq::empty())
                };
                match params {
                    Err(e) => Err(e),
                    Ok((ps, r)) => if q <= r <= toks.len() {
                        match expect_spec(toks, r, TokenM::RParen) {
                            Err(e) => Err(e),
                            Ok(s) => if tok_at(toks, s, TokenM::Arrow) {
                                match type_spec(toks, s + 1) {
                                    Err(e) => Err(e),
                                    Ok((rt, u)) => Ok((TypeM::Fn(ps, Some(Box::new(rt))), u)),
                                }
                            } else {
                                Ok((TypeM::Fn(ps, None), s))
                            },
                        }
                    } else {
                        Err(Seq::empty())
                    },
                }
            },
        }
    } else {
        match ident_spec(toks, p) {
            Err(e) => Err(e),
            Ok((n, q)) => Ok((type_from_name(n), q)),
        }
    }
}

/// `name: type` entries separated by commas, with `acc` those read so far.
pub open spec fn type_params_spec(toks: Seq<TokenM>, q: int, acc: Seq<(Seq<char>, TypeM)>) -> PResult<Seq<(Seq<char>, TypeM)>>
    decreases toks.len() - q,
{
    match ident_spec(toks, q) {
        Err(e) => Err(e),
        Ok((n, q1)) => match expect_spec(toks, q1, TokenM::Colon) {
            Err(e) => Err(e),
            Ok(q2) => match type_spec(toks, q2) {
                Err(e) => Err(e),
                Ok((t, q3)) => if q < q3 <= toks.len() {
                    if tok_at(toks, q3, TokenM::Comma) {
                        type_params_spec(toks, q3 + 1, acc.push((n, t)))
                    } else {
                        Ok((acc.push((n, t)), q3))
                    }
                } else {
                    Err(Seq::empty())
                },
            },
        },
    }
}

/// A parenthesized parameter list starting at `q` (just after `(`), up to and including `)`.
pub open spec fn param_list_spec(toks: Seq<TokenM>, q: int) -> PResult<Seq<(Seq<char>, TypeM)>> {
    let params = if tok_at(toks, q, TokenM::RParen) {
        Ok((Seq::empty(), q))
    } else {
        type_params_spec(toks, q, Seq::empty())
    };
    match params {
        Err(e) => Err(e),
        Ok((ps, r)) => match expect_spec(toks, r, TokenM::RParen) {
            Err(e) => Err(e),
            Ok(s) => Ok((ps, s)),
        },
    }
}

/// An optional `-> type` at `q`.
pub open spec fn return_type_spec(toks: Seq<TokenM>, q: int) -> PResult<Option<TypeM>> {
    if tok_at(toks, q, TokenM::Arrow) {
        match type_spec(toks, q + 1) {
            Err(e) => Err(e),
            Ok((t, r)) => Ok((Some(t), r)),
        }
    } else {
        Ok((None, q))
    }
}

/// The binary operator that token `t` stands for at precedence level `lvl`
/// (0: `* /`, 1: `+ -`, 2: `< > <= >=`, 3: `== !=`, 4: `&`, 5: `|`, 6: `and`, 7: `or`).
pub open spec fn level_op(lvl: int, t: TokenM) -> Option<BinaryOp> {
    match t {
        TokenM::Star => if lvl == 0 { Some(BinaryOp::Mul) } else { None },
        TokenM::Slash => if lvl == 0 { Some(BinaryOp::Div) } else { None },
        TokenM::Plus => if lvl == 1 { Some(BinaryOp::Add) } else { None },
        TokenM::Minus => if lvl == 1 { Some(BinaryOp::Sub) } else { None },
        TokenM::Lt => if lvl == 2 { Some(BinaryOp::Lt) } else { None },
        TokenM::Gt => if lvl == 2 { Some(BinaryOp::Gt) } else { None },
        TokenM::Le => if lvl == 2 { Some(BinaryOp::Le) } else { None },
        TokenM::Ge => if lvl == 2 { Some(BinaryOp::Ge) } else { None },
        TokenM::Eq => if lvl == 3 { Some(BinaryOp::Eq) } else { None },
        TokenM::Ne => if lvl == 3 { Some(BinaryOp::Ne) } else { None },
        TokenM::Amp => if lvl == 4 { Some(BinaryOp::BitAnd) } else { None },
        TokenM::Pipe => if lvl == 5 { Some(BinaryOp::BitOr) } else { None },
        TokenM::And => if lvl == 6 { Some(BinaryOp::And) } else { None },
        TokenM::Or => if lvl == 7 { Some(BinaryOp::Or) } else { None },
        _ => None,
    }
}

/// The prefix operator that token `t` stands for.
pub open spec fn unary_op(t: TokenM) -> Option<UnaryOp> {
    match t {
        TokenM::Minus => Some(UnaryOp::Neg),
        TokenM::Not => Some(UnaryOp::Not),
        TokenM::Tilde => Some(UnaryOp::BitNot),
        _ => None,
    }
}

pub open spec fn with_types(ps: Seq<(Seq<char>, TypeM)>) -> Seq<(Seq<char>, Option<TypeM>)> {
    Seq::new(ps.len(), |i: int| (ps[i].0, Some(ps[i].1)))
}

/// An expression: the lowest precedence level.
pub open spec fn expr_spec(toks: Seq<TokenM>, p: int) -> PResult<ExprM>
    decreases toks.len() - p, 13int,
{
    bin_spec(toks, p, 7)
}

/// Left-associative binary operators of level `lvl` and above in precedence.
pub open spec fn bin_spec(toks: Seq<TokenM>, p: int, lvl: int) -> PResult<ExprM>
    decreases toks.len() - p, 5 + lvl,
{
    if 0 <= lvl <= 7 {
        let first = if lvl == 0 { unary_spec(toks, p) } else { bin_spec(toks, p, lvl - 1) };
        match first {
            Err(e) => Err(e),
            Ok((lhs, q)) => if p < q <= toks.len() {
                bin_rest_spec(toks, lhs, q, lvl)
            } else {
                Err(Seq::empty())
            },
        }
    } else {
        Err(Seq::empty())
    }
}

/// The operators of level `lvl` that follow the left operand `lhs`, from `q` on.
pub open spec fn bin_rest_spec(toks: Seq<TokenM>, lhs: ExprM, q: int, lvl: int) -> PResult<ExprM>
    decreases toks.len() - q, 0int,
{
    if 0 <= q < toks.len() && 0 <= lvl <= 7 && level_op(lvl, toks[q]) is Some {
        let op = level_op(lvl, toks[q])->0;
        let rhs = if lvl == 0 { unary_spec(toks, q + 1) } else { bin_spec(toks, q + 1, lvl - 1) };
        match rhs {
            Err(e) => Err(e),
            Ok((r, s)) => if q < s <= toks.len() {
                bin_rest_spec(toks, ExprM::Binary(Box::new(lhs), op, Box::new(r)), s, lvl)
            } else {
                Err(Seq::empty())
            },
        }
    } else {
        Ok((lhs, q))
    }
}

/// Prefix operators `-`, `not`, `~`, then a primary expression.
pub open spec fn unary_spec(toks: Seq<TokenM>, p: int) -> PResult<ExprM>
    decreases toks.len() - p, 4int,
{
    if 0 <= p < toks.len() && unary_op(toks[p]) is Some {
        match unary_spec(toks, p + 1) {
            Err(e) => Err(e),
            Ok((e, q)) => Ok((ExprM::Unary(unary_op(toks[p])->0, Box::new(e)), q)),
        }
    } else {
        match primary_spec(toks, p) {
            Err(e) => Err(e),
            Ok((e, q)) => if p < q <= toks.len() {
                postfix_spec(toks, e, q)
            } else {
                Err(Seq::empty())
            },
        }
    }
}

/// Indexing `[index]` after an expression `e` that ends at `q`, any number of times.
pub open spec fn postfix_spec(toks: Seq<TokenM>, e: ExprM, q: int) -> PResult<ExprM>
    decreases toks.len() - q, 14int,
{
    if tok_at(toks, q, TokenM::LBracket) {
        match expr_spec(toks, q + 1) {
            Err(m) => Err(m),
            Ok((i, r)) => match expect_spec(toks, r, TokenM::RBracket) {
                Err(m) => Err(m),
                Ok(s) => if q < s <= toks.len() {
                    postfix_spec(toks, ExprM::Index { array: Box::new(e), index: Box::new(i) }, s)
                } else {
                    Err(Seq::empty())
                },
            },
        }
    } else {
        Ok((e, q))
    }
}

/// The rest of an array literal after `[`: elements separated by commas, then `]`.
pub open spec fn array_lit_spec(toks: Seq<TokenM>, q: int) -> PResult<ExprM>
    decreases toks.len() - q, 15int,
{
    let elems = if tok_at(toks, q, TokenM::RBracket) {
        Ok((Seq::empty(), q))
    } else {
        call_args_spec(toks, q, Seq::empty())
    };
    match elems {
        Err(e) => Err(e),
        Ok((es, r)) => match expect_spec(toks, r, TokenM::RBracket) {
            Err(e) => Err(e),
            Ok(s) => Ok((ExprM::ArrayLiteral(es), s)),
        },
    }
}

/// A name, or a call of it when `(` follows; `q` is just after the name.
pub open spec fn name_or_call_spec(toks: Seq<TokenM>, q: int, name: Seq<char>) -> PResult<ExprM>
    decreases toks.len() - q, 14int,
{
    if tok_at(toks, q, TokenM::LParen) {
        let args = if tok_at(toks, q + 1, TokenM::RParen) {
            Ok((Seq::empty(), q + 1))
        } else {
            call_args_spec(toks, q + 1, Seq::empty())
        };
        match args {
            Err(e) => Err(e),
            Ok((a, r)) => match expect_spec(toks, r, TokenM::RParen) {
                Err(e) => Err(e),
                Ok(s) => Ok((ExprM::Call { callee: Box::new(ExprM::Ident(name)), args: a }, s)),
            },
        }
    } else {
        Ok((ExprM::Ident(name), q))
    }
}

/// The rest of a `return` expression: a value unless `;` follows.
pub open spec fn return_expr_spec(toks: Seq<TokenM>, q: int) -> PResult<ExprM>
    decreases toks.len() - q, 14int,
{
    if tok_at(toks, q, TokenM::Semicolon) {
        Ok((ExprM::Return(None), q))
    } else {
        match expr_spec(toks, q) {
            Err(e) => Err(e),
            Ok((e, r)) => Ok((ExprM::Return(Some(Box::new(e))), r)),
        }
    }
}

/// Literals, names, calls, parenthesized expressions and the keyword forms.
pub open spec fn primary_spec(toks: Seq<TokenM>, p: int) -> PResult<ExprM>
    decreases toks.len() - p, 3int,
{
    if p < 0 || p >= toks.len() {
        Err("Unexpected end of input"@)
    } else {
        match toks[p] {
            TokenM::IntLiteral(v) => Ok((ExprM::Literal(LiteralM::Int(v)), p + 1)),
            TokenM::FloatLiteral(s) => Ok((ExprM::Literal(LiteralM::Float(s)), p + 1)),
            TokenM::StringLiteral(s) => Ok((ExprM::Literal(LiteralM::Str(s)), p + 1)),
            TokenM::True => Ok((ExprM::Literal(LiteralM::Bool(true)), p + 1)),
            TokenM::False => Ok((ExprM::Literal(LiteralM::Bool(false)), p + 1)),
            TokenM::Fn => fn_expr_spec(toks, p + 1),
            TokenM::Loop => loop_spec(toks, p + 1),
            TokenM::While => while_spec(toks, p + 1),
            TokenM::Break => break_spec(toks, p + 1),
            TokenM::Continue => Ok((ExprM::Continue, p + 1)),
            TokenM::Return => return_expr_spec(toks, p + 1),
            TokenM::Ident(name) => name_or_call_spec(toks, p + 1, name),
            TokenM::LParen => match expr_spec(toks, p + 1) {
                Err(e) => Err(e),
                Ok((e, q)) => match expect_spec(toks, q, TokenM::RParen) {
                    Err(m) => Err(m),
                    Ok(r) => Ok((e, r)),
                },
            },
            TokenM::If => if_spec(toks, p + 1),
            TokenM::LBracket => array_lit_spec(toks, p + 1),
            TokenM::LBrace => match block_spec(toks, p) {
                Err(e) => Err(e),
                Ok((ss, q)) => Ok((ExprM::Block(ss), q)),
            },
            t => Err("Unexpected token in expression: "@ + token_debug(t)),
        }
    }
}

/// Call arguments separated by commas, with `acc` those read so far.
pub open spec fn call_args_spec(toks: Seq<TokenM>, q: int, acc: Seq<ExprM>) -> PResult<Seq<ExprM>>
    decreases toks.len() - q, 14int,
{
    match expr_spec(toks, q) {
        Err(e) => Err(e),
        Ok((e, r)) => if q < r <= toks.len() {
            if tok_at(toks, r, TokenM::Comma) {
                call_args_spec(toks, r + 1, acc.push(e))
            } else {
                Ok((acc.push(e), r))
            }
        } else {
            Err(Seq::empty())
        },
    }
}

/// The word that introduces the unbraced branch of `if c then a else b`.
pub open spec fn then_word() -> Seq<char> {
    "then"@
}

/// The rest of an `if` expression after the keyword: the condition, then
/// either `then` and an expression, whose `else` branch is an expression
/// too, or a braced branch, whose optional `else` has a braced branch or
/// another `if` expression that starts at the `if` keyword itself.
pub open spec fn if_spec(toks: Seq<TokenM>, q: int) -> PResult<ExprM>
    decreases toks.len() - q, 14int,
{
    match expr_spec(toks, q) {
        Err(e) => Err(e),
        Ok((c, r)) => if q < r <= toks.len() {
            let then_form = tok_at(toks, r, TokenM::Ident(then_word()));
            let first = if then_form { expr_spec(toks, r + 1) } else { braced_spec(toks, r) };
            match first {
                Err(e) => Err(e),
                Ok((t, s)) => if r < s <= toks.len() {
                    if tok_at(toks, s, TokenM::Else) {
                        let other = if then_form {
                            expr_spec(toks, s + 1)
                        } else if tok_at(toks, s + 1, TokenM::If) {
                            if_spec(toks, s + 1)
                        } else {
                            braced_spec(toks, s + 1)
                        };
                        match other {
                            Err(e) => Err(e),
                            Ok((e, u)) => Ok((
                                ExprM::If {
                                    condition: Box::new(c),
                                    then_branch: Box::new(t),
                                    else_branch: Some(Box::new(e)),
                                },
                                u,
                            )),
                        }
                    } else {
                        Ok((ExprM::If { condition: Box::new(c), then_branch: Box::new(t), else_branch: None }, s))
                    }
                } else {
                    Err(Seq::empty())
                },
            }
        } else {
            Err(Seq::empty())
        },
    }
}

/// A braced block used as an expression.
pub open spec fn braced_spec(toks: Seq<TokenM>, q: int) -> PResult<ExprM>
    decreases toks.len() - q, 1int,
{
    match block_spec(toks, q) {
        Err(e) => Err(e),
        Ok((ss, r)) => Ok((ExprM::Block(ss), r)),
    }
}

/// The rest of a `loop` expression after the keyword.
pub open spec fn loop_spec(toks: Seq<TokenM>, q: int) -> PResult<ExprM>
    decreases toks.len() - q, 2int,
{
    match braced_spec(toks, q) {
        Err(e) => Err(e),
        Ok((b, r)) => Ok((ExprM::Loop { body: Box::new(b) }, r)),
    }
}

/// The rest of a `while` expression after the keyword.
pub open spec fn while_spec(toks: Seq<TokenM>, q: int) -> PResult<ExprM>
    decreases toks.len() - q, 14int,
{
    match expr_spec(toks, q) {
        Err(e) => Err(e),
        Ok((c, r)) => if q < r <= toks.len() {
            match braced_spec(toks, r) {
                Err(e) => Err(e),
                Ok((b, s)) => Ok((ExprM::While { condition: Box::new(c), body: Box::new(b) }, s)),
            }
        } else {
            Err(Seq::empty())
        },
    }
}

/// The rest of a `break` expression: a value unless `;` or `}` follows.
pub open spec fn break_spec(toks: Seq<TokenM>, q: int) -> PResult<ExprM>
    decreases toks.len() - q, 14int,
{
    if tok_at(toks, q, TokenM::Semicolon) || tok_at(toks, q, TokenM::RBrace) {
        Ok((ExprM::Break { value: None }, q))
    } else {
        match expr_spec(toks, q) {
            Err(e) => Err(e),
            Ok((e, r)) => Ok((ExprM::Break { value: Some(Box::new(e)) }, r)),
        }
    }
}

/// The rest of a function expression after `fn`: parameters, optional return type, body.
pub open spec fn fn_expr_spec(toks: Seq<TokenM>, q: int) -> PResult<ExprM>
    decreases toks.len() - q, 14int,
{
    match expect_spec(toks, q, TokenM::LParen) {
        Err(e) => Err(e),
        Ok(q1) => match param_list_spec(toks, q1) {
            Err(e) => Err(e),
            Ok((ps, q2)) => match return_type_spec(toks, q2) {
                Err(e) => Err(e),
                Ok((rt, q3)) => if q < q3 <= toks.len() {
                    match expr_spec(toks, q3) {
                        Err(e) => Err(e),
                        Ok((body, q4)) => Ok((
                            ExprM::Fn { params: with_types(ps), body: Box::new(body), return_type: rt },
                            q4,
                        )),
                    }
                } else {
                    Err(Seq::empty())
                },
            },
        },
    }
}

/// A braced block of statements.
pub open spec fn block_spec(toks: Seq<TokenM>, p: int) -> PResult<Seq<StmtM>>
    decreases toks.len() - p, 0int,
{
    match expect_spec(toks, p, TokenM::LBrace) {
        Err(e) => Err(e),
        Ok(q) => block_stmts_spec(toks, q, Seq::empty()),
    }
}

/// The statements of a block up to its `}`, with `acc` those read so far.
pub open spec fn block_stmts_spec(toks: Seq<TokenM>, q: int, acc: Seq<StmtM>) -> PResult<Seq<StmtM>>
    decreases toks.len() - q, 16int,
{
    if tok_at(toks, q, TokenM::RBrace) {
        Ok((acc, q + 1))
    } else if q < 0 || q >= toks.len() {
        Err("Unterminated block"@)
    } else {
        match stmt_spec(toks, q) {
            Err(e) => Err(e),
            Ok((s, r)) => if q < r <= toks.len() {
                block_stmts_spec(toks, r, acc.push(s))
            } else {
                Err(Seq::empty())
            },
        }
    }
}

/// A `let` statement starting at its keyword.
pub open spec fn let_stmt_spec(toks: Seq<TokenM>, p: int) -> PResult<StmtM>
    decreases toks.len() - p, 14int,
{
    match ident_spec(toks, p + 1) {
        Err(e) => Err(e),
        Ok((name, q1)) => match expect_spec(toks, q1, TokenM::Colon) {
            Err(e) => Err(e),
            Ok(q2) => {
                let ann = if tok_at(toks, q2, TokenM::Assign) {
                    Ok((None, q2))
                } else {
                    match type_spec(toks, q2) {
                        Err(e) => Err(e),
                        Ok((t, r)) => Ok((Some(t), r)),
                    }
                };
                match ann {
                    Err(e) => Err(e),
                    Ok((ta, q3)) => match expect_spec(toks, q3, TokenM::Assign) {
                        Err(e) => Err(e),
                        Ok(q4) => if p < q4 <= toks.len() {
                            match expr_spec(toks, q4) {
                                Err(e) => Err(e),
                                Ok((e, q5)) => match expect_spec(toks, q5, TokenM::Semicolon) {
                                    Err(m) => Err(m),
                                    Ok(q6) => Ok((StmtM::Let { name, type_ann: ta, expr: e }, q6)),
                                },
                            }
                        } else {
                            Err(Seq::empty())
                        },
                    },
                }
            },
        },
    }
}

/// A `fn` statement starting at its keyword.
pub open spec fn fn_stmt_spec(toks: Seq<TokenM>, p: int) -> PResult<StmtM>
    decreases toks.len() - p, 14int,
{
    match ident_spec(toks, p + 1) {
        Err(e) => Err(e),
        Ok((name, q1)) => match expect_spec(toks, q1, TokenM::LParen) {
            Err(e) => Err(e),
            Ok(q2) => match param_list_spec(toks, q2) {
                Err(e) => Err(e),
                Ok((ps, q3)) => match return_type_spec(toks, q3) {
                    Err(e) => Err(e),
                    Ok((rt, q4)) => match expect_spec(toks, q4, TokenM::Assign) {
                        Err(e) => Err(e),
                        Ok(q5) => if p < q5 <= toks.len() {
                            match expr_spec(toks, q5) {
                                Err(e) => Err(e),
                                Ok((body, q6)) => match expect_spec(toks, q6, TokenM::Semicolon) {
                                    Err(m) => Err(m),
                                    Ok(q7) => Ok((StmtM::Fn { name, params: ps, return_type: rt, body }, q7)),
                                },
                            }
                        } else {
                            Err(Seq::empty())
                        },
                    },
                },
            },
        },
    }
}

/// An assignment `name = expr;` or an expression statement with an optional `;`.
pub open spec fn expr_stmt_spec(toks: Seq<TokenM>, p: int) -> PResult<StmtM>
    decreases toks.len() - p, 14int,
{
    match expr_spec(toks, p) {
        Err(e) => Err(e),
        Ok((e, q)) => if p < q <= toks.len() {
            if tok_at(toks, q, TokenM::Assign) {
                match e {
                    ExprM::Ident(name) => match expr_spec(toks, q + 1) {
                        Err(m) => Err(m),
                        Ok((v, r)) => match expect_spec(toks, r, TokenM::Semicolon) {
                            Err(m) => Err(m),
                            Ok(s) => Ok((StmtM::Assign { name, expr: v }, s)),
                        },
                    },
                    _ => Err("Assignment target must be an identifier"@),
                }
            } else if tok_at(toks, q, TokenM::Semicolon) {
                Ok((StmtM::ExprStmt(e), q + 1))
            } else {
                Ok((StmtM::ExprStmt(e), q))
            }
        } else {
            Err(Seq::empty())
        },
    }
}

/// One statement: `let`, `fn`, `return`, a block, an assignment or an expression.
pub open spec fn stmt_spec(toks: Seq<TokenM>, p: int) -> PResult<StmtM>
    decreases toks.len() - p, 15int,
{
    if tok_at(toks, p, TokenM::Let) {
        let_stmt_spec(toks, p)
    } else if tok_at(toks, p, TokenM::Fn) {
        fn_stmt_spec(toks, p)
    } else if tok_at(toks, p, TokenM::Return) {
        let value = if tok_at(toks, p + 1, TokenM::Semicolon) {
            Ok((None, p + 1))
        } else {
            match expr_spec(toks, p + 1) {
                Err(e) => Err(e),
                Ok((e, q)) => Ok((Some(e), q)),
            }
        };
        match value {
            Err(e) => Err(e),
            Ok((v, q)) => match expect_spec(toks, q, TokenM::Semicolon) {
                Err(e) => Err(e),
                Ok(r) => Ok((StmtM::Return(v), r)),
            },
        }
    } else if tok_at(toks, p, TokenM::LBrace) {
        match block_spec(toks, p) {
            Err(e) => Err(e),
            Ok((ss, q)) => Ok((StmtM::Block(ss), q)),
        }
    } else {
        expr_stmt_spec(toks, p)
    }
}

/// The statements of a program from `p` to the end, with `acc` those read so far.
pub open spec fn program_spec(toks: Seq<TokenM>, p: int, acc: Seq<StmtM>) -> Result<Seq<StmtM>, Seq<char>>
    decreases toks.len() - p, 17int,
{
    if p < 0 || p >= toks.len() {
        Ok(acc)
    } else {
        match stmt_spec(toks, p) {
            Err(e) => Err(e),
            Ok((s, q)) => if p < q <= toks.len() {
                program_spec(toks, q, acc.push(s))
            } else {
                Err(Seq::empty())
            },
        }
    }
}

/// The program that a token sequence spells, or the first syntax error.
pub open spec fn parse_program_spec(toks: Seq<TokenM>) -> Result<Seq<StmtM>, Seq<char>> {
    program_spec(toks, 0, Seq::empty())
}

// ------------------------------------------------------------ the parser

/// How an exec parse result relates to its spec: the same value (by view)
/// and the position after it, or the same message.
pub open spec fn res_expr(sp: PResult<ExprM>, r: Result<Expr, String>, pos: int) -> bool {
    match sp {
        Ok((e, q)) => r matches Ok(x) && x@ == e && pos == q,
        Err(m) => r matches Err(m2) && m2@ == m,
    }
}

pub open spec fn res_stmt(sp: PResult<StmtM>, r: Result<Stmt, String>, pos: int) -> bool {
    match sp {
        Ok((e, q)) => r matches Ok(x) && x@ == e && pos == q,
        Err(m) => r matches Err(m2) && m2@ == m,
    }
}

pub open spec fn res_stmts(sp: PResult<Seq<StmtM>>, r: Result<Vec<Stmt>, String>, pos: int) -> bool {
    match sp {
        Ok((e, q)) => r matches Ok(x) && view_stmts(x@) == e && pos == q,
        Err(m) => r matches Err(m2) && m2@ == m,
    }
}

pub open spec fn res_exprs(sp: PResult<Seq<ExprM>>, r: Result<Vec<Expr>, String>, pos: int) -> bool {
    match sp {
        Ok((e, q)) => r matches Ok(x) && view_exprs(x@) == e && pos == q,
        Err(m) => r matches Err(m2) && m2@ == m,
    }
}

pub open spec fn res_type(sp: PResult<TypeM>, r: Result<TypeAnnotation, String>, pos: int) -> bool {
    match sp {
        Ok((e, q)) => r matches Ok(x) && x@ == e && pos == q,
        Err(m) => r matches Err(m2) && m2@ == m,
    }
}

pub open spec fn res_opt_type(sp: PResult<Option<TypeM>>, r: Result<Option<TypeAnnotation>, String>, pos: int) -> bool {
    match sp {
        Ok((e, q)) => r matches Ok(x) && view_opt_type(x) == e && pos == q,
        Err(m) => r matches Err(m2) && m2@ == m,
    }
}

pub open spec fn res_params(
    sp: PResult<Seq<(Seq<char>, TypeM)>>,
    r: Result<Vec<(String, TypeAnnotation)>, String>,
    pos: int,
) -> bool {
    match sp {
        Ok((e, q)) => r matches Ok(x) && view_typed_params(x@) == e && pos == q,
        Err(m) => r matches Err(m2) && m2@ == m,
    }
}

pub open spec fn res_ident(sp: PResult<Seq<char>>, r: Result<String, String>, pos: int) -> bool {
    match sp {
        Ok((e, q)) => r matches Ok(x) && x@ == e && pos == q,
        Err(m) => r matches Err(m2) && m2@ == m,
    }
}

pub open spec fn res_unit(sp: Result<int, Seq<char>>, r: Result<(), String>, pos: int) -> bool {
    match sp {
        Ok(q) => r is Ok && pos == q,
        Err(m) => r matches Err(m2) && m2@ == m,
    }
}

/// A recursive-descent parser over a token vector.
pub struct Parser {
    pub tokens: Vec<Token>,
    pub position: usize,
}

impl Parser {
    /// The models of the tokens being parsed.
    pub open spec fn toks(&self) -> Seq<TokenM> {
        view_tokens(self.tokens@)
    }

    /// A parser at the start of the given tokens.
    pub fn new(tokens: Vec<Token>) -> (r: Parser)
        ensures
            r.tokens@ == tokens@,
            r.position == 0,
    {
        Parser { tokens, position: 0 }
    }

    /// Whether the current token is `t`.
    fn check(&self, t: Token) -> (r: bool)
        requires
            self.position <= self.tokens.len(),
        ensures
            r == tok_at(self.toks(), self.position as int, t@),
    {
        match self.peek() {
            Some(tok) => same_token(tok, &t),
            None => false,
        }
    }

    /// The current token, if any is left.
    fn peek(&self) -> (r: Option<&Token>)
        requires
            self.position <= self.tokens.len(),
        ensures
            self.position < self.tokens.len() ==> (r matches Some(t) && t@ == self.toks()[self.position as int]),
            self.position >= self.tokens.len() ==> r is None,
    {
        if self.position < self.tokens.len() {
            Some(&self.tokens[self.position])
        } else {
            None
        }
    }

    /// Takes the current token and moves past it; `None` at the end.
    fn bump(&mut self) -> (r: Option<Token>)
        requires
            old(self).position <= old(self).tokens.len(),
        ensures
            final(self).tokens@ == old(self).tokens@,
            old(self).position < old(self).tokens.len() ==> (r matches Some(t) && t@ == old(self).toks()[old(
                self,
            ).position as int]) && final(self).position == old(self).position + 1,
            old(self).position >= old(self).tokens.len() ==> r is None && final(self).position == old(self).position,
    {
        let token = match self.peek() {
            Some(t) => Some(copy_token(t)),
            None => None,
        };
        if token.is_some() {
            self.position = self.position + 1;
        }
        token
    }

    fn expect(&mut self, expected: Token) -> (r: Result<(), String>)
        requires
            old(self).position <= old(self).tokens.len(),
        ensures
            final(self).tokens@ == old(self).tokens@,
            final(self).position <= final(self).tokens.len(),
            res_unit(expect_spec(old(self).toks(), old(self).position as int, expected@), r, final(self).position as int),
    {
        match self.bump() {
            Some(token) => if same_token(&token, &expected) {
                Ok(())
            } else {
                let mut m = owned("Expected ");
                let a = token_debug_text(&expected);
                m.append(a.as_str());
                m.append(", found ");
                let b = token_debug_text(&token);
                m.append(b.as_str());
                Err(m)
            },
            None => {
                let mut m = owned("Expected ");
                let a = token_debug_text(&expected);
                m.append(a.as_str());
                m.append(", found end of input");
                Err(m)
            },
        }
    }

    fn consume_ident(&mut self) -> (r: Result<String, String>)
        requires
            old(self).position <= old(self).tokens.len(),
        ensures
            final(self).tokens@ == old(self).tokens@,
            final(self).position <= final(self).tokens.len(),
            res_ident(ident_spec(old(self).toks(), old(self).position as int), r, final(self).position as int),
    {
        match self.bump() {
            Some(Token::Ident(name)) => Ok(name),
            Some(t) => {
                let d = token_debug_text(&t);
                Err(concat2("Expected identifier, found ", d.as_str()))
            },
            None => Err(owned("Expected identifier, found end of input")),
        }
    }

    fn parse_type_annotation(&mut self) -> (r: Result<TypeAnnotation, String>)
        requires
            old(self).position <= old(self).tokens.len(),
        ensures
            final(self).tokens@ == old(self).tokens@,
            final(self).position <= final(self).tokens.len(),
            res_type(type_spec(old(self).toks(), old(self).position as int), r, final(self).position as int),
            r is Ok ==> old(self).position < final(self).position,
        decreases old(self).tokens@.len() - old(self).position,
    {
        if self.check(Token::LBracket) {
            self.position = self.position + 1;
            let elem = match self.parse_type_annotation() {
                Ok(t) => t,
                Err(e) => {
                    return Err(e);
                },
            };
            match self.expect(Token::Semicolon) {
                Ok(_) => {},
                Err(e) => {
                    return Err(e);
                },
            }
            let size = match self.parse_array_size() {
                Ok(sz) => sz,
                Err(e) => {
                    return Err(e);
                },
            };
            match self.expect(Token::RBracket) {
                Ok(_) => {},
                Err(e) => {
                    return Err(e);
                },
            }
            return Ok(TypeAnnotation::Array(Box::new(elem), size));
        }
        if self.check(Token::Fn) {
            self.position = self.position + 1;
            match self.expect(Token::LParen) {
                Ok(_) => {},
                Err(e) => {
                    return Err(e);
                },
            }
            let q = self.position;
            let params = if self.check(Token::RParen) {
                Vec::new()
            } else {
                match self.parse_typed_params() {
                    Ok(v) => v,
                    Err(e) => {
                        return Err(e);
                    },
                }
            };
            let r = self.position;
            proof {
                if !tok_at(self.toks(), q as int, TokenM::RParen) {
                    assert(q <= r);
                } else {
                    assert(view_typed_params(params@) =~= Seq::empty());
                }
            }
            match self.expect(Token::RParen) {
                Ok(_) => {},
                Err(e) => {
                    return Err(e);
                },
            }
            let return_type = if self.check(Token::Arrow) {
                self.position = self.position + 1;
                match self.parse_type_annotation() {
                    Ok(t) => Some(Box::new(t)),
                    Err(e) => {
                        return Err(e);
                    },
                }
            } else {
                None
            };
            Ok(TypeAnnotation::Fn(params, return_type))
        } else {
            let name = match self.consume_ident() {
                Ok(v) => v,
                Err(e) => {
                    return Err(e);
                },
            };
            Ok(TypeAnnotation::from_name(name.as_str()))
        }
    }

    /// The size of an array type: a number, or `_`.
    fn parse_array_size(&mut self) -> (r: Result<ArraySize, String>)
        requires
            old(self).position <= old(self).tokens.len(),
        ensures
            final(self).tokens@ == old(self).tokens@,
            final(self).position <= final(self).tokens.len(),
            match array_size_spec(old(self).toks(), old(self).position as int) {
                Ok((sz, q)) => r matches Ok(x) && x == sz && final(self).position == q,
                Err(m) => r matches Err(m2) && m2@ == m,
            },
    {
        match self.bump() {
            Some(Token::IntLiteral(n)) => Ok(ArraySize::Fixed(n)),
            Some(Token::Ident(w)) => {
                let cs = str_chars(w.as_str());
                if cs.len() == 1 && cs[0] == '_' {
                    assert(w@ =~= seq!['_']);
                    Ok(ArraySize::Inferred)
                } else {
                    let d = token_debug_text(&Token::Ident(w));
                    Err(concat2("Expected array size, found ", d.as_str()))
                }
            },
            Some(t) => {
                let d = token_debug_text(&t);
                Err(concat2("Expected array size, found ", d.as_str()))
            },
            None => Err(owned("Expected array size, found end of input")),
        }
    }

    /// `name: type` entries separated by commas.
    fn parse_typed_params(&mut self) -> (r: Result<Vec<(String, TypeAnnotation)>, String>)
        requires
            old(self).position <= old(self).tokens.len(),
        ensures
            final(self).tokens@ == old(self).tokens@,
            final(self).position <= final(self).tokens.len(),
            res_params(
                type_params_spec(old(self).toks(), old(self).position as int, Seq::empty()),
                r,
                final(self).position as int,
            ),
            r is Ok ==> old(self).position < final(self).position,
        decreases old(self).tokens@.len() - old(self).position,
    {
        let ghost p0 = self.position as int;
        let ghost toks = self.toks();
        let mut params: Vec<(String, TypeAnnotation)> = Vec::new();
        assert(view_typed_params(params@) =~= Seq::empty());
        loop
            invariant
                self.tokens@ == old(self).tokens@,
                toks == self.toks(),
                p0 == old(self).position,
                p0 <= self.position <= self.tokens.len(),
                params@.len() > 0 ==> p0 < self.position,
                type_params_spec(toks, p0, Seq::empty()) == type_params_spec(toks, self.position as int, view_typed_params(params@)),
            decreases self.tokens.len() - self.position,
        {
            let ghost q = self.position as int;
            let param_name = match self.consume_ident() {
                Ok(v) => v,
                Err(e) => {
                    return Err(e);
                },
            };
            match self.expect(Token::Colon) {
                Ok(_) => {},
                Err(e) => {
                    return Err(e);
                },
            }
            let param_type = match self.parse_type_annotation() {
                Ok(v) => v,
                Err(e) => {
                    return Err(e);
                },
            };
            let ghost prev = params@;
            params.push((param_name, param_type));
            assert(params@.drop_last() =~= prev);
            if self.check(Token::Comma) {
                self.position = self.position + 1;
            } else {
                return Ok(params);
            }
        }
    }
}

impl Parser {
    /// A parameter list after `(`, up to and including `)`.
    fn parse_param_list(&mut self) -> (r: Result<Vec<(String, TypeAnnotation)>, String>)
        requires
            old(self).position <= old(self).tokens.len(),
        ensures
            final(self).tokens@ == old(self).tokens@,
            final(self).position <= final(self).tokens.len(),
            res_params(param_list_spec(old(self).toks(), old(self).position as int), r, final(self).position as int),
            r is Ok ==> old(self).position < final(self).position,
        decreases old(self).tokens@.len() - old(self).position, 20int,
    {
        let q = self.position;
        let params = if self.check(Token::RParen) {
            Vec::new()
        } else {
            match self.parse_typed_params() {
                Ok(v) => v,
                Err(e) => {
                    return Err(e);
                },
            }
        };
        assert(tok_at(old(self).toks(), q as int, TokenM::RParen) ==> view_typed_params(params@) =~= Seq::empty());
        match self.expect(Token::RParen) {
            Ok(_) => {},
            Err(e) => {
                return Err(e);
            },
        }
        Ok(params)
    }

    /// An optional `-> type`.
    fn parse_return_type(&mut self) -> (r: Result<Option<TypeAnnotation>, String>)
        requires
            old(self).position <= old(self).tokens.len(),
        ensures
            final(self).tokens@ == old(self).tokens@,
            final(self).position <= final(self).tokens.len(),
            res_opt_type(return_type_spec(old(self).toks(), old(self).position as int), r, final(self).position as int),
            r is Ok ==> old(self).position <= final(self).position,
        decreases old(self).tokens@.len() - old(self).position, 20int,
    {
        if self.check(Token::Arrow) {
            self.position = self.position + 1;
            let t = match self.parse_type_annotation() {
                Ok(v) => v,
                Err(e) => {
                    return Err(e);
                },
            };
            Ok(Some(t))
        } else {
            Ok(None)
        }
    }

    /// An expression.
    fn parse_expression(&mut self) -> (r: Result<Expr, String>)
        requires
            old(self).position <= old(self).tokens.len(),
        ensures
            final(self).tokens@ == old(self).tokens@,
            final(self).position <= final(self).tokens.len(),
            res_expr(expr_spec(old(self).toks(), old(self).position as int), r, final(self).position as int),
            r is Ok ==> old(self).position < final(self).position,
        decreases old(self).tokens@.len() - old(self).position, 21int,
    {
        self.parse_binary(7)
    }

    /// The binary operator of level `lvl` at the current token, if any.
    fn operator_here(&self, lvl: usize) -> (r: Option<BinaryOp>)
        requires
            self.position <= self.tokens.len(),
            lvl <= 7,
        ensures
            r == (if self.position < self.tokens.len() {
                level_op(lvl as int, self.toks()[self.position as int])
            } else {
                None
            }),
    {
        if self.position >= self.tokens.len() {
            return None;
        }
        match &self.tokens[self.position] {
            Token::Star => if lvl == 0 { Some(BinaryOp::Mul) } else { None },
            Token::Slash => if lvl == 0 { Some(BinaryOp::Div) } else { None },
            Token::Plus => if lvl == 1 { Some(BinaryOp::Add) } else { None },
            Token::Minus => if lvl == 1 { Some(BinaryOp::Sub) } else { None },
            Token::Lt => if lvl == 2 { Some(BinaryOp::Lt) } else { None },
            Token::Gt => if lvl == 2 { Some(BinaryOp::Gt) } else { None },
            Token::Le => if lvl == 2 { Some(BinaryOp::Le) } else { None },
            Token::Ge => if lvl == 2 { Some(BinaryOp::Ge) } else { None },
            Token::Eq => if lvl == 3 { Some(BinaryOp::Eq) } else { None },
            Token::Ne => if lvl == 3 { Some(BinaryOp::Ne) } else { None },
            Token::Amp => if lvl == 4 { Some(BinaryOp::BitAnd) } else { None },
            Token::Pipe => if lvl == 5 { Some(BinaryOp::BitOr) } else { None },
            Token::And => if lvl == 6 { Some(BinaryOp::And) } else { None },
            Token::Or => if lvl == 7 { Some(BinaryOp::Or) } else { None },
            _ => None,
        }
    }

    /// The operand of level `lvl`: a unary expression at level 0, else level `lvl - 1`.
    fn parse_operand(&mut self, lvl: usize) -> (r: Result<Expr, String>)
        requires
            old(self).position <= old(self).tokens.len(),
            lvl <= 7,
        ensures
            final(self).tokens@ == old(self).tokens@,
            final(self).position <= final(self).tokens.len(),
            res_expr(
                if lvl == 0 { unary_spec(old(self).toks(), old(self).position as int) } else { bin_spec(old(self).toks(), old(self).position as int, lvl - 1) },
                r,
                final(self).position as int,
            ),
            r is Ok ==> old(self).position < final(self).position,
        decreases old(self).tokens@.len() - old(self).position, 5 + 2 * lvl,
    {
        if lvl == 0 {
            self.parse_unary()
        } else {
            self.parse_binary(lvl - 1)
        }
    }

    /// Left-associative operators of level `lvl` (0: `* /` up to 7: `or`):
    /// `parse_multiplicative` through `parse_or`.
    fn parse_binary(&mut self, lvl: usize) -> (r: Result<Expr, String>)
        requires
            old(self).position <= old(self).tokens.len(),
            lvl <= 7,
        ensures
            final(self).tokens@ == old(self).tokens@,
            final(self).position <= final(self).tokens.len(),
            res_expr(bin_spec(old(self).toks(), old(self).position as int, lvl as int), r, final(self).position as int),
            r is Ok ==> old(self).position < final(self).position,
        decreases old(self).tokens@.len() - old(self).position, 6 + 2 * lvl,
    {
        let ghost p0 = self.position as int;
        let ghost toks = self.toks();
        let first = match self.parse_operand(lvl) {
            Ok(v) => v,
            Err(e) => {
                return Err(e);
            },
        };
        let mut expr = first;
        loop
            invariant
                self.tokens@ == old(self).tokens@,
                p0 == old(self).position as int,
                toks == old(self).toks(),
                toks == self.toks(),
                lvl <= 7,
                p0 < self.position <= self.tokens.len(),
                bin_spec(toks, p0, lvl as int) == bin_rest_spec(toks, expr@, self.position as int, lvl as int),
            decreases self.tokens.len() - self.position,
        {
            match self.operator_here(lvl) {
                None => {
                    return Ok(expr);
                },
                Some(op) => {
                    self.position = self.position + 1;
                    let rhs = match self.parse_operand(lvl) {
                        Ok(v) => v,
                        Err(e) => {
                            return Err(e);
                        },
                    };
                    expr = Expr::Binary(Box::new(expr), op, Box::new(rhs));
                },
            }
        }
    }

    /// Prefix operators, then a primary expression.
    fn parse_unary(&mut self) -> (r: Result<Expr, String>)
        requires
            old(self).position <= old(self).tokens.len(),
        ensures
            final(self).tokens@ == old(self).tokens@,
            final(self).position <= final(self).tokens.len(),
            res_expr(unary_spec(old(self).toks(), old(self).position as int), r, final(self).position as int),
            r is Ok ==> old(self).position < final(self).position,
        decreases old(self).tokens@.len() - old(self).position, 4int,
    {
        if self.position < self.tokens.len() {
            let op = match &self.tokens[self.position] {
                Token::Minus => Some(UnaryOp::Neg),
                Token::Not => Some(UnaryOp::Not),
                Token::Tilde => Some(UnaryOp::BitNot),
                _ => None,
            };
            match op {
                Some(op) => {
                    self.position = self.position + 1;
                    let rhs = match self.parse_unary() {
                        Ok(v) => v,
                        Err(e) => {
                            return Err(e);
                        },
                    };
                    return Ok(Expr::Unary(op, Box::new(rhs)));
                },
                None => {},
            }
        }
        let e = match self.parse_primary() {
            Ok(v) => v,
            Err(e) => {
                return Err(e);
            },
        };
        self.parse_postfix(e)
    }

    /// Indexing after an expression, any number of times.
    fn parse_postfix(&mut self, e: Expr) -> (r: Result<Expr, String>)
        requires
            old(self).position <= old(self).tokens.len(),
        ensures
            final(self).tokens@ == old(self).tokens@,
            final(self).position <= final(self).tokens.len(),
            res_expr(postfix_spec(old(self).toks(), e@, old(self).position as int), r, final(self).position as int),
            r is Ok ==> old(self).position <= final(self).position,
        decreases old(self).tokens@.len() - old(self).position, 30int,
    {
        let ghost toks = self.toks();
        let ghost q0 = self.position as int;
        let ghost e0 = e@;
        let mut cur = e;
        loop
            invariant
                self.tokens@ == old(self).tokens@,
                toks == old(self).toks(),
                toks == self.toks(),
                q0 == old(self).position as int,
                e0 == e@,
                q0 <= self.position <= self.tokens.len(),
                postfix_spec(toks, e0, q0) == postfix_spec(toks, cur@, self.position as int),
            decreases self.tokens.len() - self.position,
        {
            if !self.check(Token::LBracket) {
                return Ok(cur);
            }
            let q = self.position;
            self.position = q + 1;
            let index = match self.parse_expression() {
                Ok(v) => v,
                Err(m) => {
                    return Err(m);
                },
            };
            match self.expect(Token::RBracket) {
                Ok(_) => {},
                Err(m) => {
                    return Err(m);
                },
            }
            cur = Expr::Index { array: Box::new(cur), index: Box::new(index) };
        }
    }

    /// The rest of an array literal after `[`.
    fn parse_array_literal(&mut self) -> (r: Result<Expr, String>)
        requires
            old(self).position <= old(self).tokens.len(),
        ensures
            final(self).tokens@ == old(self).tokens@,
            final(self).position <= final(self).tokens.len(),
            res_expr(array_lit_spec(old(self).toks(), old(self).position as int), r, final(self).position as int),
            r is Ok ==> old(self).position < final(self).position,
        decreases old(self).tokens@.len() - old(self).position, 31int,
    {
        let q = self.position;
        let elements = if self.check(Token::RBracket) {
            Vec::new()
        } else {
            match self.parse_call_args() {
                Ok(v) => v,
                Err(e) => {
                    return Err(e);
                },
            }
        };
        assert(tok_at(old(self).toks(), q as int, TokenM::RBracket) ==> view_exprs(elements@) =~= Seq::empty());
        match self.expect(Token::RBracket) {
            Ok(_) => {},
            Err(e) => {
                return Err(e);
            },
        }
        Ok(Expr::ArrayLiteral(elements))
    }

    fn parse_return_expression(&mut self) -> (r: Result<Expr, String>)
        requires
            old(self).position <= old(self).tokens.len(),
        ensures
            final(self).tokens@ == old(self).tokens@,
            final(self).position <= final(self).tokens.len(),
            res_expr(return_expr_spec(old(self).toks(), old(self).position as int), r, final(self).position as int),
            r is Ok ==> old(self).position <= final(self).position,
        decreases old(self).tokens@.len() - old(self).position, 30int,
    {
        if self.check(Token::Semicolon) {
            Ok(Expr::Return(None))
        } else {
            match self.parse_expression() {
                Ok(e) => Ok(Expr::Return(Some(Box::new(e)))),
                Err(e) => Err(e),
            }
        }
    }

    fn parse_name_or_call(&mut self, name: String) -> (r: Result<Expr, String>)
        requires
            old(self).position <= old(self).tokens.len(),
        ensures
            final(self).tokens@ == old(self).tokens@,
            final(self).position <= final(self).tokens.len(),
            res_expr(name_or_call_spec(old(self).toks(), old(self).position as int, name@), r, final(self).position as int),
            r is Ok ==> old(self).position <= final(self).position,
        decreases old(self).tokens@.len() - old(self).position, 30int,
    {
        if self.check(Token::LParen) {
            self.position = self.position + 1;
            let q = self.position;
            let args = if self.check(Token::RParen) {
                Vec::new()
            } else {
                match self.parse_call_args() {
                    Ok(v) => v,
                    Err(e) => {
                        return Err(e);
                    },
                }
            };
            assert(tok_at(old(self).toks(), q as int, TokenM::RParen) ==> view_exprs(args@) =~= Seq::empty());
            match self.expect(Token::RParen) {
                Ok(_) => {},
                Err(e) => {
                    return Err(e);
                },
            }
            Ok(Expr::Call { callee: Box::new(Expr::Ident(name)), args })
        } else {
            Ok(Expr::Ident(name))
        }
    }

    #[verifier::rlimit(60)]
    fn parse_primary(&mut self) -> (r: Result<Expr, String>)
        requires
            old(self).position <= old(self).tokens.len(),
        ensures
            final(self).tokens@ == old(self).tokens@,
            final(self).position <= final(self).tokens.len(),
            res_expr(primary_spec(old(self).toks(), old(self).position as int), r, final(self).position as int),
            r is Ok ==> old(self).position < final(self).position,
        decreases old(self).tokens@.len() - old(self).position, 3int,
    {
        if self.position >= self.tokens.len() {
            return Err(owned("Unexpected end of input"));
        }
        let p = self.position;
        self.position = p + 1;
        let t = crate::lexer::copy_token(&self.tokens[p]);
        match t {
            Token::IntLiteral(v) => Ok(Expr::Literal(Literal::Int(v))),
            Token::FloatLiteral(s) => Ok(Expr::Literal(Literal::Float(s))),
            Token::StringLiteral(s) => Ok(Expr::Literal(Literal::String(s))),
            Token::True => Ok(Expr::Literal(Literal::Bool(true))),
            Token::False => Ok(Expr::Literal(Literal::Bool(false))),
            Token::Fn => self.parse_fn_expression(),
            Token::Loop => self.parse_loop_expression(),
            Token::While => self.parse_while_expression(),
            Token::Break => self.parse_break_expression(),
            Token::Continue => Ok(Expr::Continue),
            Token::Return => self.parse_return_expression(),
            Token::Ident(name) => self.parse_name_or_call(name),
            Token::LParen => {
                let e = match self.parse_expression() {
                    Ok(v) => v,
                    Err(e) => {
                        return Err(e);
                    },
                };
                match self.expect(Token::RParen) {
                    Ok(_) => {},
                    Err(e) => {
                        return Err(e);
                    },
                }
                Ok(e)
            },
            Token::If => self.parse_if_expression(),
            Token::LBracket => self.parse_array_literal(),
            Token::LBrace => {
                self.position = p;
                let stmts = match self.parse_block() {
                    Ok(v) => v,
                    Err(e) => {
                        return Err(e);
                    },
                };
                Ok(Expr::Block(stmts))
            },
            t => {
                let d = token_debug_text(&t);
                Err(concat2("Unexpected token in expression: ", d.as_str()))
            },
        }
    }

    /// Call arguments separated by commas.
    fn parse_call_args(&mut self) -> (r: Result<Vec<Expr>, String>)
        requires
            old(self).position <= old(self).tokens.len(),
        ensures
            final(self).tokens@ == old(self).tokens@,
            final(self).position <= final(self).tokens.len(),
            res_exprs(call_args_spec(old(self).toks(), old(self).position as int, Seq::empty()), r, final(self).position as int),
            r is Ok ==> old(self).position < final(self).position,
        decreases old(self).tokens@.len() - old(self).position, 30int,
    {
        let ghost p0 = self.position as int;
        let ghost toks = self.toks();
        let mut args: Vec<Expr> = Vec::new();
        assert(view_exprs(args@) =~= Seq::empty());
        loop
            invariant
                self.tokens@ == old(self).tokens@,
                p0 == old(self).position as int,
                toks == old(self).toks(),
                toks == self.toks(),
                p0 <= self.position <= self.tokens.len(),
                args@.len() > 0 ==> p0 < self.position,
                call_args_spec(toks, p0, Seq::empty()) == call_args_spec(toks, self.position as int, view_exprs(args@)),
            decreases self.tokens.len() - self.position,
        {
            let e = match self.parse_expression() {
                Ok(v) => v,
                Err(e) => {
                    return Err(e);
                },
            };
            let ghost prev = args@;
            args.push(e);
            assert(args@.drop_last() =~= prev);
            if self.check(Token::Comma) {
                self.position = self.position + 1;
            } else {
                return Ok(args);
            }
        }
    }

    fn parse_if_expression(&mut self) -> (r: Result<Expr, String>)
        requires
            old(self).position <= old(self).tokens.len(),
        ensures
            final(self).tokens@ == old(self).tokens@,
            final(self).position <= final(self).tokens.len(),
            res_expr(if_spec(old(self).toks(), old(self).position as int), r, final(self).position as int),
            r is Ok ==> old(self).position < final(self).position,
        decreases old(self).tokens@.len() - old(self).position, 30int,
    {
        let condition = match self.parse_expression() {
            Ok(v) => v,
            Err(e) => {
                return Err(e);
            },
        };
        let then_form = self.check(Token::Ident(owned("then")));
        let then_branch = if then_form {
            self.position = self.position + 1;
            match self.parse_expression() {
                Ok(v) => v,
                Err(e) => {
                    return Err(e);
                },
            }
        } else {
            match self.parse_braced_expression() {
                Ok(v) => v,
                Err(e) => {
                    return Err(e);
                },
            }
        };
        let else_branch = if self.check(Token::Else) {
            self.position = self.position + 1;
            if then_form {
                let e = match self.parse_expression() {
                    Ok(v) => v,
                    Err(e) => {
                        return Err(e);
                    },
                };
                Some(Box::new(e))
            } else if self.check(Token::If) {
                let e = match self.parse_if_expression() {
                    Ok(v) => v,
                    Err(e) => {
                        return Err(e);
                    },
                };
                Some(Box::new(e))
            } else {
                let e = match self.parse_braced_expression() {
                    Ok(v) => v,
                    Err(e) => {
                        return Err(e);
                    },
                };
                Some(Box::new(e))
            }
        } else {
            None
        };
        Ok(Expr::If { condition: Box::new(condition), then_branch: Box::new(then_branch), else_branch })
    }

    fn parse_loop_expression(&mut self) -> (r: Result<Expr, String>)
        requires
            old(self).position <= old(self).tokens.len(),
        ensures
            final(self).tokens@ == old(self).tokens@,
            final(self).position <= final(self).tokens.len(),
            res_expr(loop_spec(old(self).toks(), old(self).position as int), r, final(self).position as int),
            r is Ok ==> old(self).position < final(self).position,
        decreases old(self).tokens@.len() - old(self).position, 2int,
    {
        let body = match self.parse_braced_expression() {
            Ok(v) => v,
            Err(e) => {
                return Err(e);
            },
        };
        Ok(Expr::Loop { body: Box::new(body) })
    }

    fn parse_while_expression(&mut self) -> (r: Result<Expr, String>)
        requires
            old(self).position <= old(self).tokens.len(),
        ensures
            final(self).tokens@ == old(self).tokens@,
            final(self).position <= final(self).tokens.len(),
            res_expr(while_spec(old(self).toks(), old(self).position as int), r, final(self).position as int),
            r is Ok ==> old(self).position < final(self).position,
        decreases old(self).tokens@.len() - old(self).position, 30int,
    {
        let condition = match self.parse_expression() {
            Ok(v) => v,
            Err(e) => {
                return Err(e);
            },
        };
        let body = match self.parse_braced_expression() {
            Ok(v) => v,
            Err(e) => {
                return Err(e);
            },
        };
        Ok(Expr::While { condition: Box::new(condition), body: Box::new(body) })
    }

    fn parse_break_expression(&mut self) -> (r: Result<Expr, String>)
        requires
            old(self).position <= old(self).tokens.len(),
        ensures
            final(self).tokens@ == old(self).tokens@,
            final(self).position <= final(self).tokens.len(),
            res_expr(break_spec(old(self).toks(), old(self).position as int), r, final(self).position as int),
            r is Ok ==> old(self).position <= final(self).position,
        decreases old(self).tokens@.len() - old(self).position, 30int,
    {
        if self.check(Token::Semicolon) || self.check(Token::RBrace) {
            Ok(Expr::Break { value: None })
        } else {
            let e = match self.parse_expression() {
                Ok(v) => v,
                Err(e) => {
                    return Err(e);
                },
            };
            Ok(Expr::Break { value: Some(Box::new(e)) })
        }
    }

    fn parse_braced_expression(&mut self) -> (r: Result<Expr, String>)
        requires
            old(self).position <= old(self).tokens.len(),
        ensures
            final(self).tokens@ == old(self).tokens@,
            final(self).position <= final(self).tokens.len(),
            res_expr(braced_spec(old(self).toks(), old(self).position as int), r, final(self).position as int),
            r is Ok ==> old(self).position < final(self).position,
        decreases old(self).tokens@.len() - old(self).position, 1int,
    {
        let stmts = match self.parse_block() {
            Ok(v) => v,
            Err(e) => {
                return Err(e);
            },
        };
        Ok(Expr::Block(stmts))
    }

    fn parse_fn_expression(&mut self) -> (r: Result<Expr, String>)
        requires
            old(self).position <= old(self).tokens.len(),
        ensures
            final(self).tokens@ == old(self).tokens@,
            final(self).position <= final(self).tokens.len(),
            res_expr(fn_expr_spec(old(self).toks(), old(self).position as int), r, final(self).position as int),
            r is Ok ==> old(self).position < final(self).position,
        decreases old(self).tokens@.len() - old(self).position, 30int,
    {
        match self.expect(Token::LParen) {
            Ok(_) => {},
            Err(e) => {
                return Err(e);
            },
        }
        let params = match self.parse_param_list() {
            Ok(v) => v,
            Err(e) => {
                return Err(e);
            },
        };
        let return_type = match self.parse_return_type() {
            Ok(v) => v,
            Err(e) => {
                return Err(e);
            },
        };
        let body = match self.parse_expression() {
            Ok(v) => v,
            Err(e) => {
                return Err(e);
            },
        };
        let params = with_some_types(params);
        Ok(Expr::Fn { params, body: Box::new(body), return_type })
    }

    fn parse_block(&mut self) -> (r: Result<Vec<Stmt>, String>)
        requires
            old(self).position <= old(self).tokens.len(),
        ensures
            final(self).tokens@ == old(self).tokens@,
            final(self).position <= final(self).tokens.len(),
            res_stmts(block_spec(old(self).toks(), old(self).position as int), r, final(self).position as int),
            r is Ok ==> old(self).position < final(self).position,
        decreases old(self).tokens@.len() - old(self).position, 0int,
    {
        let ghost toks = self.toks();
        let ghost p0 = self.position as int;
        match self.expect(Token::LBrace) {
            Ok(_) => {},
            Err(e) => {
                return Err(e);
            },
        }
        let mut statements: Vec<Stmt> = Vec::new();
        assert(view_stmts(statements@) =~= Seq::empty());
        while !self.check(Token::RBrace)
            invariant
                self.tokens@ == old(self).tokens@,
                p0 == old(self).position as int,
                toks == old(self).toks(),
                toks == self.toks(),
                p0 < self.position <= self.tokens.len(),
                block_spec(toks, p0) == block_stmts_spec(toks, self.position as int, view_stmts(statements@)),
            decreases self.tokens.len() - self.position,
        {
            if self.position >= self.tokens.len() {
                return Err(owned("Unterminated block"));
            }
            let stmt = match self.parse_statement() {
                Ok(v) => v,
                Err(e) => {
                    return Err(e);
                },
            };
            let ghost prev = statements@;
            statements.push(stmt);
            assert(statements@.drop_last() =~= prev);
        }
        match self.expect(Token::RBrace) {
            Ok(_) => {},
            Err(e) => {
                return Err(e);
            },
        }
        Ok(statements)
    }

    fn parse_let_statement(&mut self) -> (r: Result<Stmt, String>)
        requires
            old(self).position < old(self).tokens.len(),
        ensures
            final(self).tokens@ == old(self).tokens@,
            final(self).position <= final(self).tokens.len(),
            res_stmt(let_stmt_spec(old(self).toks(), old(self).position as int), r, final(self).position as int),
            r is Ok ==> old(self).position < final(self).position,
        decreases old(self).tokens@.len() - old(self).position, 30int,
    {
        self.position = self.position + 1;
        let name = match self.consume_ident() {
            Ok(v) => v,
            Err(e) => {
                return Err(e);
            },
        };
        match self.expect(Token::Colon) {
            Ok(_) => {},
            Err(e) => {
                return Err(e);
            },
        }
        let type_ann = if self.check(Token::Assign) {
            None
        } else {
            match self.parse_type_annotation() {
                Ok(t) => Some(t),
                Err(e) => {
                    return Err(e);
                },
            }
        };
        match self.expect(Token::Assign) {
            Ok(_) => {},
            Err(e) => {
                return Err(e);
            },
        }
        let expr = match self.parse_expression() {
            Ok(v) => v,
            Err(e) => {
                return Err(e);
            },
        };
        match self.expect(Token::Semicolon) {
            Ok(_) => {},
            Err(e) => {
                return Err(e);
            },
        }
        Ok(Stmt::Let { name, type_ann, expr })
    }

    fn parse_fn_statement(&mut self) -> (r: Result<Stmt, String>)
        requires
            old(self).position < old(self).tokens.len(),
        ensures
            final(self).tokens@ == old(self).tokens@,
            final(self).position <= final(self).tokens.len(),
            res_stmt(fn_stmt_spec(old(self).toks(), old(self).position as int), r, final(self).position as int),
            r is Ok ==> old(self).position < final(self).position,
        decreases old(self).tokens@.len() - old(self).position, 30int,
    {
        self.position = self.position + 1;
        let name = match self.consume_ident() {
            Ok(v) => v,
            Err(e) => {
                return Err(e);
            },
        };
        match self.expect(Token::LParen) {
            Ok(_) => {},
            Err(e) => {
                return Err(e);
            },
        }
        let params = match self.parse_param_list() {
            Ok(v) => v,
            Err(e) => {
                return Err(e);
            },
        };
        let return_type = match self.parse_return_type() {
            Ok(v) => v,
            Err(e) => {
                return Err(e);
            },
        };
        match self.expect(Token::Assign) {
            Ok(_) => {},
            Err(e) => {
                return Err(e);
            },
        }
        let body = match self.parse_expression() {
            Ok(v) => v,
            Err(e) => {
                return Err(e);
            },
        };
        match self.expect(Token::Semicolon) {
            Ok(_) => {},
            Err(e) => {
                return Err(e);
            },
        }
        Ok(Stmt::Fn { name, params, return_type, body })
    }

    fn parse_return_statement(&mut self) -> (r: Result<Stmt, String>)
        requires
            old(self).position < old(self).tokens.len(),
            tok_at(old(self).toks(), old(self).position as int, TokenM::Return),
        ensures
            final(self).tokens@ == old(self).tokens@,
            final(self).position <= final(self).tokens.len(),
            res_stmt(stmt_spec(old(self).toks(), old(self).position as int), r, final(self).position as int),
            r is Ok ==> old(self).position < final(self).position,
        decreases old(self).tokens@.len() - old(self).position, 30int,
    {
        self.position = self.position + 1;
        let value = if self.check(Token::Semicolon) {
            None
        } else {
            match self.parse_expression() {
                Ok(e) => Some(e),
                Err(e) => {
                    return Err(e);
                },
            }
        };
        match self.expect(Token::Semicolon) {
            Ok(_) => {},
            Err(e) => {
                return Err(e);
            },
        }
        Ok(Stmt::Return(value))
    }

    fn parse_expression_statement(&mut self) -> (r: Result<Stmt, String>)
        requires
            old(self).position <= old(self).tokens.len(),
        ensures
            final(self).tokens@ == old(self).tokens@,
            final(self).position <= final(self).tokens.len(),
            res_stmt(expr_stmt_spec(old(self).toks(), old(self).position as int), r, final(self).position as int),
            r is Ok ==> old(self).position < final(self).position,
        decreases old(self).tokens@.len() - old(self).position, 30int,
    {
        let expr = match self.parse_expression() {
            Ok(v) => v,
            Err(e) => {
                return Err(e);
            },
        };
        if self.check(Token::Assign) {
            self.position = self.position + 1;
            match expr {
                Expr::Ident(name) => {
                    let value = match self.parse_expression() {
                        Ok(v) => v,
                        Err(e) => {
                            return Err(e);
                        },
                    };
                    match self.expect(Token::Semicolon) {
                        Ok(_) => {},
                        Err(e) => {
                            return Err(e);
                        },
                    }
                    Ok(Stmt::Assign { name, expr: value })
                },
                _ => Err(owned("Assignment target must be an identifier")),
            }
        } else {
            if self.check(Token::Semicolon) {
                self.position = self.position + 1;
            }
            Ok(Stmt::ExprStmt(expr))
        }
    }

    fn parse_statement(&mut self) -> (r: Result<Stmt, String>)
        requires
            old(self).position <= old(self).tokens.len(),
        ensures
            final(self).tokens@ == old(self).tokens@,
            final(self).position <= final(self).tokens.len(),
            res_stmt(stmt_spec(old(self).toks(), old(self).position as int), r, final(self).position as int),
            r is Ok ==> old(self).position < final(self).position,
        decreases old(self).tokens@.len() - old(self).position, 31int,
    {
        if self.check(Token::Let) {
            self.parse_let_statement()
        } else if self.check(Token::Fn) {
            self.parse_fn_statement()
        } else if self.check(Token::Return) {
            self.parse_return_statement()
        } else if self.check(Token::LBrace) {
            match self.parse_block() {
                Ok(stmts) => Ok(Stmt::Block(stmts)),
                Err(e) => Err(e),
            }
        } else {
            self.parse_expression_statement()
        }
    }

    /// Parses statements from the current position to the end of the tokens.
    pub fn parse_program(&mut self) -> (r: Result<Vec<Stmt>, String>)
        ensures
            final(self).tokens@ == old(self).tokens@,
            match program_spec(old(self).toks(), old(self).position as int, Seq::empty()) {
                Ok(ss) => r matches Ok(v) && view_stmts(v@) == ss,
                Err(m) => r matches Err(m2) && m2@ == m,
            },
    {
        let mut statements: Vec<Stmt> = Vec::new();
        assert(view_stmts(statements@) =~= Seq::empty());
        if self.position >= self.tokens.len() {
            return Ok(statements);
        }
        let ghost toks = self.toks();
        let ghost p0 = self.position as int;
        while self.position < self.tokens.len()
            invariant
                self.tokens@ == old(self).tokens@,
                p0 == old(self).position as int,
                toks == old(self).toks(),
                toks == self.toks(),
                self.position <= self.tokens.len(),
                program_spec(toks, p0, Seq::empty()) == program_spec(toks, self.position as int, view_stmts(statements@)),
            decreases self.tokens.len() - self.position,
        {
            let stmt = match self.parse_statement() {
                Ok(v) => v,
                Err(e) => {
                    return Err(e);
                },
            };
            let ghost prev = statements@;
            statements.push(stmt);
            assert(statements@.drop_last() =~= prev);
        }
        Ok(statements)
    }
}

/// Typed parameters seen as parameters whose type is given.
fn with_some_types(ps: Vec<(String, TypeAnnotation)>) -> (r: Vec<(String, Option<TypeAnnotation>)>)
    ensures
        view_opt_params(r@) == with_types(view_typed_params(ps@)),
{
    proof {
        crate::ast::lemma_view_typed_params(ps@);
    }
    let mut out: Vec<(String, Option<TypeAnnotation>)> = Vec::new();
    let mut i: usize = 0;
    while i < ps.len()
        invariant
            i <= ps.len(),
            out@.len() == i,
            view_typed_params(ps@).len() == ps.len(),
            forall|j: int| 0 <= j < ps.len() ==> #[trigger] view_typed_params(ps@)[j] == (ps@[j].0@, view_type(ps@[j].1)),
            forall|j: int| 0 <= j < i ==> #[trigger] out@[j] == (out@[j].0, out@[j].1) && out@[j].0@ == ps@[j].0@ && view_opt_type(out@[j].1) == Some(view_type(ps@[j].1)),
        decreases ps.len() - i,
    {
        let t = crate::ast::copy_type(&ps[i].1);
        let name = ps[i].0.clone();
        let ghost prev = out@;
        out.push((name, Some(t)));
        assert(out@[i as int].0@ == ps@[i as int].0@);
        assert(view_opt_type(out@[i as int].1) == Some(view_type(ps@[i as int].1)));
        assert forall|j: int| 0 <= j < i implies #[trigger] out@[j] == prev[j] by {}
        i = i + 1;
    }
    assert(view_opt_params(out@) =~= with_types(view_typed_params(ps@)));
    out
}

} // verus!
