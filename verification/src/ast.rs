//! Syntax trees of the language, with their mathematical models (`@`): every
//! `String` is seen as its `Seq<char>` and every `Vec` as a `Seq`.
use vstd::prelude::*;
use crate::text::{str_chars, owned, debug_text, i64_text, debug_str, int_text};


verus! {

/// Type annotations written after `:` in `let` statements and parameters.
#[derive(Debug, PartialEq)]
pub enum TypeAnnotation {
    Int,
    Float,
    String,
    Bool,
    Never,
    Array(Box<TypeAnnotation>, ArraySize),
    Fn(Vec<(String, TypeAnnotation)>, Option<Box<TypeAnnotation>>),
    Custom(String),
}

/// The length part of an array type.
#[derive(Debug, Clone, Copy, PartialEq, Eq, Structural)]
pub enum ArraySize {
    Fixed(i64),
    Inferred,
}

/// Model of a [`TypeAnnotation`].
pub enum TypeM {
    Int,
    Float,
    Str,
    Bool,
    Never,
    Array(Box<TypeM>, ArraySize),
    Fn(Seq<(Seq<char>, TypeM)>, Option<Box<TypeM>>),
    Custom(Seq<char>),
}

/// Literals as the parser produces them. A float literal keeps the text
/// that the lexer accepted as a floating-point number.
#[derive(Debug, PartialEq)]
pub enum Literal {
    Int(i64),
    Float(String),
    String(String),
    Bool(bool),
}

/// Model of a [`Literal`].
pub enum LiteralM {
    Int(i64),
    Float(Seq<char>),
    Str(Seq<char>),
    Bool(bool),
}

#[derive(Debug, Clone, Copy, PartialEq, Eq, Structural)]
pub enum UnaryOp {
    Neg,
    Not,
    BitNot,
}

#[derive(Debug, Clone, Copy, PartialEq, Eq, Structural)]
pub enum BinaryOp {
    Add,
    Sub,
    Mul,
    Div,
    Eq,
    Ne,
    Lt,
    Gt,
    Le,
    Ge,
    And,
    Or,
    BitAnd,
    BitOr,
}

#[derive(Debug, PartialEq)]
pub enum Expr {
    Literal(Literal),
    Ident(String),
    Unary(UnaryOp, Box<Expr>),
    Binary(Box<Expr>, BinaryOp, Box<Expr>),
    If { condition: Box<Expr>, then_branch: Box<Expr>, else_branch: Option<Box<Expr>> },
    Call { callee: Box<Expr>, args: Vec<Expr> },
    Fn {
        params: Vec<(String, Option<TypeAnnotation>)>,
        body: Box<Expr>,
        return_type: Option<TypeAnnotation>,
    },
    Loop { body: Box<Expr> },
    While { condition: Box<Expr>, body: Box<Expr> },
    Break { value: Option<Box<Expr>> },
    Continue,
    Return(Option<Box<Expr>>),
    ArrayLiteral(Vec<Expr>),
    Index { array: Box<Expr>, index: Box<Expr> },
    Block(Vec<Stmt>),
}

#[derive(Debug, PartialEq)]
pub enum Stmt {
    Let { name: String, type_ann: Option<TypeAnnotation>, expr: Expr },
    Fn {
        name: String,
        params: Vec<(String, TypeAnnotation)>,
        return_type: Option<TypeAnnotation>,
        body: Expr,
    },
    Assign { name: String, expr: Expr },
    Return(Option<Expr>),
    ExprStmt(Expr),
    Block(Vec<Stmt>),
}

/// Model of an [`Expr`].
pub enum ExprM {
    Literal(LiteralM),
    Ident(Seq<char>),
    Unary(UnaryOp, Box<ExprM>),
    Binary(Box<ExprM>, BinaryOp, Box<ExprM>),
    If { condition: Box<ExprM>, then_branch: Box<ExprM>, else_branch: Option<Box<ExprM>> },
    Call { callee: Box<ExprM>, args: Seq<ExprM> },
    Fn { params: Seq<(Seq<char>, Option<TypeM>)>, body: Box<ExprM>, return_type: Option<TypeM> },
    Loop { body: Box<ExprM> },
    While { condition: Box<ExprM>, body: Box<ExprM> },
    Break { value: Option<Box<ExprM>> },
    Continue,
    Return(Option<Box<ExprM>>),
    ArrayLiteral(Seq<ExprM>),
    Index { array: Box<ExprM>, index: Box<ExprM> },
    Block(Seq<StmtM>),
}

/// Model of a [`Stmt`].
pub enum StmtM {
    Let { name: Seq<char>, type_ann: Option<TypeM>, expr: ExprM },
    Fn { name: Seq<char>, params: Seq<(Seq<char>, TypeM)>, return_type: Option<TypeM>, body: ExprM },
    Assign { name: Seq<char>, expr: ExprM },
    Return(Option<ExprM>),
    ExprStmt(ExprM),
    Block(Seq<StmtM>),
}

// ---------------------------------------------------------------- views

pub open spec fn view_type(t: TypeAnnotation) -> TypeM
    decreases t,
{
    match t {
        TypeAnnotation::Int => TypeM::Int,
        TypeAnnotation::Float => TypeM::Float,
        TypeAnnotation::String => TypeM::Str,
        TypeAnnotation::Bool => TypeM::Bool,
        TypeAnnotation::Never => TypeM::Never,
        TypeAnnotation::Array(elem, size) => TypeM::Array(Box::new(view_type(*elem)), size),
        TypeAnnotation::Fn(ps, rt) => TypeM::Fn(
            view_typed_params(ps@),
            match rt {
                Some(b) => Some(Box::new(view_type(*b))),
                None => None,
            },
        ),
        TypeAnnotation::Custom(s) => TypeM::Custom(s@),
    }
}

pub open spec fn view_typed_params(ps: Seq<(String, TypeAnnotation)>) -> Seq<(Seq<char>, TypeM)>
    decreases ps,
{
    if ps.len() == 0 {
        Seq::empty()
    } else {
        view_typed_params(ps.drop_last()).push((ps.last().0@, view_type(ps.last().1)))
    }
}

pub open spec fn view_opt_type(t: Option<TypeAnnotation>) -> Option<TypeM> {
    match t {
        Some(t) => Some(view_type(t)),
        None => None,
    }
}

pub open spec fn view_opt_params(ps: Seq<(String, Option<TypeAnnotation>)>) -> Seq<(Seq<char>, Option<TypeM>)> {
    Seq::new(ps.len(), |i: int| (ps[i].0@, view_opt_type(ps[i].1)))
}

pub open spec fn view_literal(l: Literal) -> LiteralM {
    match l {
        Literal::Int(i) => LiteralM::Int(i),
        Literal::Float(s) => LiteralM::Float(s@),
        Literal::String(s) => LiteralM::Str(s@),
        Literal::Bool(b) => LiteralM::Bool(b),
    }
}

pub open spec fn view_expr(e: Expr) -> ExprM
    decreases e,
{
    match e {
        Expr::Literal(l) => ExprM::Literal(view_literal(l)),
        Expr::Ident(s) => ExprM::Ident(s@),
        Expr::Unary(op, x) => ExprM::Unary(op, Box::new(view_expr(*x))),
        Expr::Binary(l, op, r) => ExprM::Binary(Box::new(view_expr(*l)), op, Box::new(view_expr(*r))),
        Expr::If { condition, then_branch, else_branch } => ExprM::If {
            condition: Box::new(view_expr(*condition)),
            then_branch: Box::new(view_expr(*then_branch)),
            else_branch: match else_branch {
                Some(b) => Some(Box::new(view_expr(*b))),
                None => None,
            },
        },
        Expr::Call { callee, args } => ExprM::Call {
            callee: Box::new(view_expr(*callee)),
            args: view_exprs(args@),
        },
        Expr::Fn { params, body, return_type } => ExprM::Fn {
            params: view_opt_params(params@),
            body: Box::new(view_expr(*body)),
            return_type: view_opt_type(return_type),
        },
        Expr::Loop { body } => ExprM::Loop { body: Box::new(view_expr(*body)) },
        Expr::While { condition, body } => ExprM::While {
            condition: Box::new(view_expr(*condition)),
            body: Box::new(view_expr(*body)),
        },
        Expr::Break { value } => ExprM::Break {
            value: match value {
                Some(b) => Some(Box::new(view_expr(*b))),
                None => None,
            },
        },
        Expr::Continue => ExprM::Continue,
        Expr::Return(value) => ExprM::Return(
            match value {
                Some(b) => Some(Box::new(view_expr(*b))),
                None => None,
            },
        ),
        Expr::ArrayLiteral(elems) => ExprM::ArrayLiteral(view_exprs(elems@)),
        Expr::Index { array, index } => ExprM::Index {
            array: Box::new(view_expr(*array)),
            index: Box::new(view_expr(*index)),
        },
        Expr::Block(stmts) => ExprM::Block(view_stmts(stmts@)),
    }
}

pub open spec fn view_exprs(es: Seq<Expr>) -> Seq<ExprM>
    decreases es,
{
    if es.len() == 0 {
        Seq::empty()
    } else {
        view_exprs(es.drop_last()).push(view_expr(es.last()))
    }
}

pub open spec fn view_stmt(s: Stmt) -> StmtM
    decreases s,
{
    match s {
        Stmt::Let { name, type_ann, expr } => StmtM::Let {
            name: name@,
            type_ann: view_opt_type(type_ann),
            expr: view_expr(expr),
        },
        Stmt::Fn { name, params, return_type, body } => StmtM::Fn {
            name: name@,
            params: view_typed_params(params@),
            return_type: view_opt_type(return_type),
            body: view_expr(body),
        },
        Stmt::Assign { name, expr } => StmtM::Assign { name: name@, expr: view_expr(expr) },
        Stmt::Return(value) => StmtM::Return(
            match value {
                Some(e) => Some(view_expr(e)),
                None => None,
            },
        ),
        Stmt::ExprStmt(e) => StmtM::ExprStmt(view_expr(e)),
        Stmt::Block(stmts) => StmtM::Block(view_stmts(stmts@)),
    }
}

pub open spec fn view_stmts(ss: Seq<Stmt>) -> Seq<StmtM>
    decreases ss,
{
    if ss.len() == 0 {
        Seq::empty()
    } else {
        view_stmts(ss.drop_last()).push(view_stmt(ss.last()))
    }
}

impl View for TypeAnnotation {
    type V = TypeM;

    open spec fn view(&self) -> TypeM {
        view_type(*self)
    }
}

impl View for Literal {
    type V = LiteralM;

    open spec fn view(&self) -> LiteralM {
        view_literal(*self)
    }
}

impl View for Expr {
    type V = ExprM;

    open spec fn view(&self) -> ExprM {
        view_expr(*self)
    }
}

impl View for Stmt {
    type V = StmtM;

    open spec fn view(&self) -> StmtM {
        view_stmt(*self)
    }
}

// ------------------------------------------------------- facts on the views

/// The view of a list of typed parameters, entry by entry.
pub proof fn lemma_view_typed_params(ps: Seq<(String, TypeAnnotation)>)
    ensures
        view_typed_params(ps).len() == ps.len(),
        forall|i: int|
            0 <= i < ps.len() ==> #[trigger] view_typed_params(ps)[i] == (ps[i].0@, view_type(ps[i].1)),
    decreases ps.len(),
{
    if ps.len() > 0 {
        lemma_view_typed_params(ps.drop_last());
    }
}

/// The view of a list of expressions, entry by entry.
pub proof fn lemma_view_exprs(es: Seq<Expr>)
    ensures
        view_exprs(es).len() == es.len(),
        forall|i: int| 0 <= i < es.len() ==> #[trigger] view_exprs(es)[i] == view_expr(es[i]),
    decreases es.len(),
{
    if es.len() > 0 {
        lemma_view_exprs(es.drop_last());
    }
}

/// The view of a list of statements, entry by entry.
pub proof fn lemma_view_stmts(ss: Seq<Stmt>)
    ensures
        view_stmts(ss).len() == ss.len(),
        forall|i: int| 0 <= i < ss.len() ==> #[trigger] view_stmts(ss)[i] == view_stmt(ss[i]),
    decreases ss.len(),
{
    if ss.len() > 0 {
        lemma_view_stmts(ss.drop_last());
    }
}

// ------------------------------------------------------------ type names

/// What `TypeAnnotation::from_name` maps a type name to.
pub open spec fn type_from_name(name: Seq<char>) -> TypeM {
    if name == seq!['i', '3', '2'] || name == seq!['i', 'n', 't'] {
        TypeM::Int
    } else if name == seq!['f', '6', '4'] || name == seq!['f', 'l', 'o', 'a', 't'] {
        TypeM::Float
    } else if name == seq!['b', 'o', 'o', 'l'] {
        TypeM::Bool
    } else if name == seq!['S', 't', 'r', 'i', 'n', 'g'] || name == seq!['s', 't', 'r', 'i', 'n', 'g'] {
        TypeM::Str
    } else if name == seq!['n', 'e', 'v', 'e', 'r'] {
        TypeM::Never
    } else {
        TypeM::Custom(name)
    }
}

/// Whether a character vector spells the given word.
pub fn chars_are(cs: &Vec<char>, word: &Vec<char>) -> (r: bool)
    ensures
        r == (cs@ == word@),
{
    if cs.len() != word.len() {
        return false;
    }
    let mut i: usize = 0;
    while i < cs.len()
        invariant
            cs.len() == word.len(),
            i <= cs.len(),
            forall|j: int| 0 <= j < i ==> cs@[j] == word@[j],
        decreases cs.len() - i,
    {
        if cs[i] != word[i] {
            return false;
        }
        i = i + 1;
    }
    assert(cs@ =~= word@);
    true
}

impl TypeAnnotation {
    /// The annotation that a type name stands for: `int`/`i32`, `float`/`f64`,
    /// `string`/`String`, `bool` and `never`; any other name is a custom type.
    pub fn from_name(name: &str) -> (r: TypeAnnotation)
        ensures
            r@ == type_from_name(name@),
    {
        let cs = str_chars(name);
        if chars_are(&cs, &vec!['i', '3', '2']) || chars_are(&cs, &vec!['i', 'n', 't']) {
            TypeAnnotation::Int
        } else if chars_are(&cs, &vec!['f', '6', '4']) || chars_are(&cs, &vec!['f', 'l', 'o', 'a', 't']) {
            TypeAnnotation::Float
        } else if chars_are(&cs, &vec!['b', 'o', 'o', 'l']) {
            TypeAnnotation::Bool
        } else if chars_are(&cs, &vec!['S', 't', 'r', 'i', 'n', 'g']) || chars_are(
            &cs,
            &vec!['s', 't', 'r', 'i', 'n', 'g'],
        ) {
            TypeAnnotation::String
        } else if chars_are(&cs, &vec!['n', 'e', 'v', 'e', 'r']) {
            TypeAnnotation::Never
        } else {
            TypeAnnotation::Custom(owned(name))
        }
    }
}

// ----------------------------------------------------------------- copies

pub fn copy_type(t: &TypeAnnotation) -> (r: TypeAnnotation)
    ensures
        r@ == t@,
    decreases t,
{
    match t {
        TypeAnnotation::Int => TypeAnnotation::Int,
        TypeAnnotation::Float => TypeAnnotation::Float,
        TypeAnnotation::String => TypeAnnotation::String,
        TypeAnnotation::Bool => TypeAnnotation::Bool,
        TypeAnnotation::Never => TypeAnnotation::Never,
        TypeAnnotation::Array(elem, size) => TypeAnnotation::Array(Box::new(copy_type(elem)), *size),
        TypeAnnotation::Fn(ps, rt) => {
            let ps2 = copy_typed_params(ps);
            let rt2 = match rt {
                Some(b) => Some(Box::new(copy_type(b))),
                None => None,
            };
            TypeAnnotation::Fn(ps2, rt2)
        },
        TypeAnnotation::Custom(s) => TypeAnnotation::Custom(s.clone()),
    }
}

pub fn copy_typed_params(ps: &Vec<(String, TypeAnnotation)>) -> (r: Vec<(String, TypeAnnotation)>)
    ensures
        view_typed_params(r@) == view_typed_params(ps@),
    decreases ps,
{
    let mut out: Vec<(String, TypeAnnotation)> = Vec::new();
    let mut i: usize = 0;
    while i < ps.len()
        invariant
            i <= ps.len(),
            view_typed_params(out@) == view_typed_params(ps@.take(i as int)),
        decreases ps.len() - i,
    {
        assert(decreases_to!(ps => ps@[i as int].1));
        let t = copy_type(&ps[i].1);
        let ghost prev = out@;
        out.push((ps[i].0.clone(), t));
        assert(ps@.take(i + 1).drop_last() =~= ps@.take(i as int));
        assert(out@.drop_last() =~= prev);
        i = i + 1;
    }
    assert(ps@.take(ps.len() as int) =~= ps@);
    out
}

pub fn copy_opt_type(t: &Option<TypeAnnotation>) -> (r: Option<TypeAnnotation>)
    ensures
        view_opt_type(r) == view_opt_type(*t),
{
    match t {
        Some(t) => Some(copy_type(t)),
        None => None,
    }
}

pub fn copy_opt_params(ps: &Vec<(String, Option<TypeAnnotation>)>) -> (r: Vec<(String, Option<TypeAnnotation>)>)
    ensures
        view_opt_params(r@) == view_opt_params(ps@),
{
    let mut out: Vec<(String, Option<TypeAnnotation>)> = Vec::new();
    let mut i: usize = 0;
    while i < ps.len()
        invariant
            i <= ps.len(),
            out@.len() == i,
            forall|j: int| 0 <= j < i ==> #[trigger] out@[j].0@ == ps@[j].0@ && view_opt_type(out@[j].1) == view_opt_type(ps@[j].1),
        decreases ps.len() - i,
    {
        let t = copy_opt_type(&ps[i].1);
        out.push((ps[i].0.clone(), t));
        i = i + 1;
    }
    assert(view_opt_params(out@) =~= view_opt_params(ps@));
    out
}

pub fn copy_literal(l: &Literal) -> (r: Literal)
    ensures
        r@ == l@,
{
    match l {
        Literal::Int(i) => Literal::Int(*i),
        Literal::Float(s) => Literal::Float(s.clone()),
        Literal::String(s) => Literal::String(s.clone()),
        Literal::Bool(b) => Literal::Bool(*b),
    }
}

pub fn copy_opt_expr(e: &Option<Box<Expr>>) -> (r: Option<Box<Expr>>)
    ensures
        match (r, *e) {
            (Some(a), Some(b)) => view_expr(*a) == view_expr(*b),
            (None, None) => true,
            _ => false,
        },
    decreases e,
{
    match e {
        Some(b) => Some(Box::new(copy_expr(b))),
        None => None,
    }
}

pub fn copy_expr(e: &Expr) -> (r: Expr)
    ensures
        r@ == e@,
    decreases e,
{
    match e {
        Expr::Literal(l) => Expr::Literal(copy_literal(l)),
        Expr::Ident(s) => Expr::Ident(s.clone()),
        Expr::Unary(op, x) => Expr::Unary(*op, Box::new(copy_expr(x))),
        Expr::Binary(l, op, r) => Expr::Binary(Box::new(copy_expr(l)), *op, Box::new(copy_expr(r))),
        Expr::If { condition, then_branch, else_branch } => Expr::If {
            condition: Box::new(copy_expr(condition)),
            then_branch: Box::new(copy_expr(then_branch)),
            else_branch: copy_opt_expr(else_branch),
        },
        Expr::Call { callee, args } => Expr::Call {
            callee: Box::new(copy_expr(callee)),
            args: copy_exprs(args),
        },
        Expr::Fn { params, body, return_type } => Expr::Fn {
            params: copy_opt_params(params),
            body: Box::new(copy_expr(body)),
            return_type: copy_opt_type(return_type),
        },
        Expr::Loop { body } => Expr::Loop { body: Box::new(copy_expr(body)) },
        Expr::While { condition, body } => Expr::While {
            condition: Box::new(copy_expr(condition)),
            body: Box::new(copy_expr(body)),
        },
        Expr::Break { value } => Expr::Break { value: copy_opt_expr(value) },
        Expr::Continue => Expr::Continue,
        Expr::Return(value) => Expr::Return(copy_opt_expr(value)),
        Expr::ArrayLiteral(elems) => Expr::ArrayLiteral(copy_exprs(elems)),
        Expr::Index { array, index } => Expr::Index {
            array: Box::new(copy_expr(array)),
            index: Box::new(copy_expr(index)),
        },
        Expr::Block(stmts) => Expr::Block(copy_stmts(stmts)),
    }
}

pub fn copy_exprs(es: &Vec<Expr>) -> (r: Vec<Expr>)
    ensures
        view_exprs(r@) == view_exprs(es@),
    decreases es,
{
    let mut out: Vec<Expr> = Vec::new();
    let mut i: usize = 0;
    while i < es.len()
        invariant
            i <= es.len(),
            view_exprs(out@) == view_exprs(es@.take(i as int)),
        decreases es.len() - i,
    {
        assert(decreases_to!(es => es@[i as int]));
        let x = copy_expr(&es[i]);
        let ghost prev = out@;
        out.push(x);
        assert(es@.take(i + 1).drop_last() =~= es@.take(i as int));
        assert(out@.drop_last() =~= prev);
        i = i + 1;
    }
    assert(es@.take(es.len() as int) =~= es@);
    out
}

pub fn copy_stmt(s: &Stmt) -> (r: Stmt)
    ensures
        r@ == s@,
    decreases s,
{
    match s {
        Stmt::Let { name, type_ann, expr } => Stmt::Let {
            name: name.clone(),
            type_ann: copy_opt_type(type_ann),
            expr: copy_expr(expr),
        },
        Stmt::Fn { name, params, return_type, body } => Stmt::Fn {
            name: name.clone(),
            params: copy_typed_params(params),
            return_type: copy_opt_type(return_type),
            body: copy_expr(body),
        },
        Stmt::Assign { name, expr } => Stmt::Assign { name: name.clone(), expr: copy_expr(expr) },
        Stmt::Return(value) => Stmt::Return(
            match value {
                Some(e) => Some(copy_expr(e)),
                None => None,
            },
        ),
        Stmt::ExprStmt(e) => Stmt::ExprStmt(copy_expr(e)),
        Stmt::Block(stmts) => Stmt::Block(copy_stmts(stmts)),
    }
}

pub fn copy_stmts(ss: &Vec<Stmt>) -> (r: Vec<Stmt>)
    ensures
        view_stmts(r@) == view_stmts(ss@),
    decreases ss,
{
    let mut out: Vec<Stmt> = Vec::new();
    let mut i: usize = 0;
    while i < ss.len()
        invariant
            i <= ss.len(),
            view_stmts(out@) == view_stmts(ss@.take(i as int)),
        decreases ss.len() - i,
    {
        assert(decreases_to!(ss => ss@[i as int]));
        let x = copy_stmt(&ss[i]);
        let ghost prev = out@;
        out.push(x);
        assert(ss@.take(i + 1).drop_last() =~= ss@.take(i as int));
        assert(out@.drop_last() =~= prev);
        i = i + 1;
    }
    assert(ss@.take(ss.len() as int) =~= ss@);
    out
}

impl Clone for TypeAnnotation {
    fn clone(&self) -> (r: Self)
        ensures
            r@ == self@,
    {
        copy_type(self)
    }
}

impl Clone for Literal {
    fn clone(&self) -> (r: Self)
        ensures
            r@ == self@,
    {
        copy_literal(self)
    }
}

impl Clone for Expr {
    fn clone(&self) -> (r: Self)
        ensures
            r@ == self@,
    {
        copy_expr(self)
    }
}

impl Clone for Stmt {
    fn clone(&self) -> (r: Self)
        ensures
            r@ == self@,
    {
        copy_stmt(self)
    }
}

// ------------------------------------------------------------- equality

pub fn same_type(a: &TypeAnnotation, b: &TypeAnnotation) -> (r: bool)
    ensures
        r == (a@ == b@),
    decreases a,
{
    match (a, b) {
        (TypeAnnotation::Int, TypeAnnotation::Int) => true,
        (TypeAnnotation::Float, TypeAnnotation::Float) => true,
        (TypeAnnotation::String, TypeAnnotation::String) => true,
        (TypeAnnotation::Bool, TypeAnnotation::Bool) => true,
        (TypeAnnotation::Never, TypeAnnotation::Never) => true,
        (TypeAnnotation::Array(e1, s1), TypeAnnotation::Array(e2, s2)) => *s1 == *s2 && same_type(e1, e2),
        (TypeAnnotation::Fn(p1, r1), TypeAnnotation::Fn(p2, r2)) => {
            if !same_typed_params(p1, p2) {
                return false;
            }
            match (r1, r2) {
                (Some(x), Some(y)) => same_type(x, y),
                (None, None) => true,
                _ => false,
            }
        },
        (TypeAnnotation::Custom(x), TypeAnnotation::Custom(y)) => *x == *y,
        _ => false,
    }
}

pub fn same_typed_params(a: &Vec<(String, TypeAnnotation)>, b: &Vec<(String, TypeAnnotation)>) -> (r: bool)
    ensures
        r == (view_typed_params(a@) == view_typed_params(b@)),
    decreases a,
{
    proof {
        lemma_view_typed_params(a@);
        lemma_view_typed_params(b@);
    }
    if a.len() != b.len() {
        return false;
    }
    let mut i: usize = 0;
    while i < a.len()
        invariant
            a.len() == b.len(),
            i <= a.len(),
            view_typed_params(a@).len() == a.len(),
            view_typed_params(b@).len() == b.len(),
            forall|j: int| 0 <= j < a.len() ==> #[trigger] view_typed_params(a@)[j] == (a@[j].0@, view_type(a@[j].1)),
            forall|j: int| 0 <= j < b.len() ==> #[trigger] view_typed_params(b@)[j] == (b@[j].0@, view_type(b@[j].1)),
            forall|j: int| 0 <= j < i ==> view_typed_params(a@)[j] == view_typed_params(b@)[j],
        decreases a.len() - i,
    {
        assert(decreases_to!(a => a@[i as int].1));
        if a[i].0 != b[i].0 || !same_type(&a[i].1, &b[i].1) {
            assert(view_typed_params(a@)[i as int] != view_typed_params(b@)[i as int]);
            return false;
        }
        i = i + 1;
    }
    assert(view_typed_params(a@) =~= view_typed_params(b@));
    true
}

pub fn same_opt_type(a: &Option<TypeAnnotation>, b: &Option<TypeAnnotation>) -> (r: bool)
    ensures
        r == (view_opt_type(*a) == view_opt_type(*b)),
{
    match (a, b) {
        (Some(x), Some(y)) => same_type(x, y),
        (None, None) => true,
        _ => false,
    }
}

pub fn same_opt_params(a: &Vec<(String, Option<TypeAnnotation>)>, b: &Vec<(String, Option<TypeAnnotation>)>) -> (r: bool)
    ensures
        r == (view_opt_params(a@) == view_opt_params(b@)),
{
    if a.len() != b.len() {
        assert(view_opt_params(a@).len() != view_opt_params(b@).len());
        return false;
    }
    let mut i: usize = 0;
    while i < a.len()
        invariant
            a.len() == b.len(),
            i <= a.len(),
            forall|j: int| 0 <= j < i ==> #[trigger] view_opt_params(a@)[j] == view_opt_params(b@)[j],
        decreases a.len() - i,
    {
        if a[i].0 != b[i].0 || !same_opt_type(&a[i].1, &b[i].1) {
            assert(view_opt_params(a@)[i as int] != view_opt_params(b@)[i as int]);
            return false;
        }
        i = i + 1;
    }
    assert(view_opt_params(a@) =~= view_opt_params(b@));
    true
}

pub fn same_literal(a: &Literal, b: &Literal) -> (r: bool)
    ensures
        r == (a@ == b@),
{
    match (a, b) {
        (Literal::Int(x), Literal::Int(y)) => *x == *y,
        (Literal::Float(x), Literal::Float(y)) => *x == *y,
        (Literal::String(x), Literal::String(y)) => *x == *y,
        (Literal::Bool(x), Literal::Bool(y)) => *x == *y,
        _ => false,
    }
}

pub fn same_opt_expr(a: &Option<Box<Expr>>, b: &Option<Box<Expr>>) -> (r: bool)
    ensures
        r == (match (*a, *b) {
            (Some(x), Some(y)) => view_expr(*x) == view_expr(*y),
            (None, None) => true,
            _ => false,
        }),
    decreases a,
{
    match (a, b) {
        (Some(x), Some(y)) => same_expr(x, y),
        (None, None) => true,
        _ => false,
    }
}

pub fn same_expr(a: &Expr, b: &Expr) -> (r: bool)
    ensures
        r == (a@ == b@),
    decreases a,
{
    match (a, b) {
        (Expr::Literal(x), Expr::Literal(y)) => same_literal(x, y),
        (Expr::Ident(x), Expr::Ident(y)) => *x == *y,
        (Expr::Unary(o1, x), Expr::Unary(o2, y)) => *o1 == *o2 && same_expr(x, y),
        (Expr::Binary(l1, o1, r1), Expr::Binary(l2, o2, r2)) => {
            *o1 == *o2 && same_expr(l1, l2) && same_expr(r1, r2)
        },
        (
            Expr::If { condition: c1, then_branch: t1, else_branch: e1 },
            Expr::If { condition: c2, then_branch: t2, else_branch: e2 },
        ) => same_expr(c1, c2) && same_expr(t1, t2) && same_opt_expr(e1, e2),
        (Expr::Call { callee: c1, args: a1 }, Expr::Call { callee: c2, args: a2 }) => {
            same_expr(c1, c2) && same_exprs(a1, a2)
        },
        (
            Expr::Fn { params: p1, body: b1, return_type: r1 },
            Expr::Fn { params: p2, body: b2, return_type: r2 },
        ) => same_opt_params(p1, p2) && same_expr(b1, b2) && same_opt_type(r1, r2),
        (Expr::Loop { body: b1 }, Expr::Loop { body: b2 }) => same_expr(b1, b2),
        (Expr::While { condition: c1, body: b1 }, Expr::While { condition: c2, body: b2 }) => {
            same_expr(c1, c2) && same_expr(b1, b2)
        },
        (Expr::Break { value: v1 }, Expr::Break { value: v2 }) => same_opt_expr(v1, v2),
        (Expr::Continue, Expr::Continue) => true,
        (Expr::Return(v1), Expr::Return(v2)) => same_opt_expr(v1, v2),
        (Expr::ArrayLiteral(e1), Expr::ArrayLiteral(e2)) => same_exprs(e1, e2),
        (Expr::Index { array: a1, index: i1 }, Expr::Index { array: a2, index: i2 }) => {
            same_expr(a1, a2) && same_expr(i1, i2)
        },
        (Expr::Block(s1), Expr::Block(s2)) => same_stmts(s1, s2),
        _ => false,
    }
}

pub fn same_exprs(a: &Vec<Expr>, b: &Vec<Expr>) -> (r: bool)
    ensures
        r == (view_exprs(a@) == view_exprs(b@)),
    decreases a,
{
    proof {
        lemma_view_exprs(a@);
        lemma_view_exprs(b@);
    }
    if a.len() != b.len() {
        return false;
    }
    let mut i: usize = 0;
    while i < a.len()
        invariant
            a.len() == b.len(),
            i <= a.len(),
            view_exprs(a@).len() == a.len(),
            view_exprs(b@).len() == b.len(),
            forall|j: int| 0 <= j < a.len() ==> #[trigger] view_exprs(a@)[j] == view_expr(a@[j]),
            forall|j: int| 0 <= j < b.len() ==> #[trigger] view_exprs(b@)[j] == view_expr(b@[j]),
            forall|j: int| 0 <= j < i ==> view_exprs(a@)[j] == view_exprs(b@)[j],
        decreases a.len() - i,
    {
        assert(decreases_to!(a => a@[i as int]));
        if !same_expr(&a[i], &b[i]) {
            assert(view_exprs(a@)[i as int] != view_exprs(b@)[i as int]);
            return false;
        }
        i = i + 1;
    }
    assert(view_exprs(a@) =~= view_exprs(b@));
    true
}

pub fn same_stmt(a: &Stmt, b: &Stmt) -> (r: bool)
    ensures
        r == (a@ == b@),
    decreases a,
{
    match (a, b) {
        (
            Stmt::Let { name: n1, type_ann: t1, expr: e1 },
            Stmt::Let { name: n2, type_ann: t2, expr: e2 },
        ) => *n1 == *n2 && same_opt_type(t1, t2) && same_expr(e1, e2),
        (
            Stmt::Fn { name: n1, params: p1, return_type: r1, body: b1 },
            Stmt::Fn { name: n2, params: p2, return_type: r2, body: b2 },
        ) => *n1 == *n2 && same_typed_params(p1, p2) && same_opt_type(r1, r2) && same_expr(b1, b2),
        (Stmt::Assign { name: n1, expr: e1 }, Stmt::Assign { name: n2, expr: e2 }) => {
            *n1 == *n2 && same_expr(e1, e2)
        },
        (Stmt::Return(v1), Stmt::Return(v2)) => match (v1, v2) {
            (Some(x), Some(y)) => same_expr(x, y),
            (None, None) => true,
            _ => false,
        },
        (Stmt::ExprStmt(x), Stmt::ExprStmt(y)) => same_expr(x, y),
        (Stmt::Block(s1), Stmt::Block(s2)) => same_stmts(s1, s2),
        _ => false,
    }
}

pub fn same_stmts(a: &Vec<Stmt>, b: &Vec<Stmt>) -> (r: bool)
    ensures
        r == (view_stmts(a@) == view_stmts(b@)),
    decreases a,
{
    proof {
        lemma_view_stmts(a@);
        lemma_view_stmts(b@);
    }
    if a.len() != b.len() {
        return false;
    }
    let mut i: usize = 0;
    while i < a.len()
        invariant
            a.len() == b.len(),
            i <= a.len(),
            view_stmts(a@).len() == a.len(),
            view_stmts(b@).len() == b.len(),
            forall|j: int| 0 <= j < a.len() ==> #[trigger] view_stmts(a@)[j] == view_stmt(a@[j]),
            forall|j: int| 0 <= j < b.len() ==> #[trigger] view_stmts(b@)[j] == view_stmt(b@[j]),
            forall|j: int| 0 <= j < i ==> view_stmts(a@)[j] == view_stmts(b@)[j],
        decreases a.len() - i,
    {
        assert(decreases_to!(a => a@[i as int]));
        if !same_stmt(&a[i], &b[i]) {
            assert(view_stmts(a@)[i as int] != view_stmts(b@)[i as int]);
            return false;
        }
        i = i + 1;
    }
    assert(view_stmts(a@) =~= view_stmts(b@));
    true
}

// ------------------------------------------------------- debug rendering

/// How `{:?}` renders an array size.
pub open spec fn size_debug(s: ArraySize) -> Seq<char> {
    match s {
        ArraySize::Fixed(n) => "Fixed("@ + int_text(n as int) + ")"@,
        ArraySize::Inferred => "Inferred"@,
    }
}

/// How `{:?}` renders a type annotation.
pub open spec fn type_debug(t: TypeM) -> Seq<char>
    decreases t,
{
    match t {
        TypeM::Int => "Int"@,
        TypeM::Float => "Float"@,
        TypeM::Str => "String"@,
        TypeM::Bool => "Bool"@,
        TypeM::Never => "Never"@,
        TypeM::Array(elem, size) => "Array("@ + type_debug(*elem) + ", "@ + size_debug(size) + ")"@,
        TypeM::Fn(ps, rt) => "Fn(["@ + typed_params_debug(ps) + "], "@ + match rt {
            Some(b) => "Some("@ + type_debug(*b) + ")"@,
            None => "None"@,
        } + ")"@,
        TypeM::Custom(name) => "Custom("@ + debug_str(name) + ")"@,
    }
}

/// How `{:?}` renders the parameter list of a function type.
pub open spec fn typed_params_debug(ps: Seq<(Seq<char>, TypeM)>) -> Seq<char>
    decreases ps,
{
    if ps.len() == 0 {
        Seq::empty()
    } else {
        let item = "("@ + debug_str(ps.last().0) + ", "@ + type_debug(ps.last().1) + ")"@;
        if ps.len() == 1 {
            item
        } else {
            typed_params_debug(ps.drop_last()) + ", "@ + item
        }
    }
}

fn size_debug_text(s: ArraySize) -> (r: String)
    ensures
        r@ == size_debug(s),
{
    match s {
        ArraySize::Fixed(n) => {
            let mut t = owned("Fixed(");
            let digits = i64_text(n);
            t.append(digits.as_str());
            t.append(")");
            t
        },
        ArraySize::Inferred => owned("Inferred"),
    }
}

/// The text that `format!("{:?}", t)` gives for a type annotation.
pub fn type_debug_text(t: &TypeAnnotation) -> (r: String)
    ensures
        r@ == type_debug(t@),
    decreases t,
{
    match t {
        TypeAnnotation::Int => owned("Int"),
        TypeAnnotation::Float => owned("Float"),
        TypeAnnotation::String => owned("String"),
        TypeAnnotation::Bool => owned("Bool"),
        TypeAnnotation::Never => owned("Never"),
        TypeAnnotation::Array(elem, size) => {
            let mut r = owned("Array(");
            let e = type_debug_text(elem);
            r.append(e.as_str());
            r.append(", ");
            let sz = size_debug_text(*size);
            r.append(sz.as_str());
            r.append(")");
            r
        },
        TypeAnnotation::Fn(ps, rt) => {
            let mut r = owned("Fn([");
            let p = typed_params_debug_text(ps);
            r.append(p.as_str());
            r.append("], ");
            match rt {
                Some(b) => {
                    r.append("Some(");
                    let x = type_debug_text(b);
                    r.append(x.as_str());
                    r.append(")");
                },
                None => {
                    r.append("None");
                },
            }
            r.append(")");
            r
        },
        TypeAnnotation::Custom(name) => {
            let mut r = owned("Custom(");
            let d = debug_text(name.as_str());
            r.append(d.as_str());
            r.append(")");
            r
        },
    }
}

fn typed_params_debug_text(ps: &Vec<(String, TypeAnnotation)>) -> (r: String)
    ensures
        r@ == typed_params_debug(view_typed_params(ps@)),
    decreases ps,
{
    proof {
        lemma_view_typed_params(ps@);
    }
    let mut r = String::new();
    let mut i: usize = 0;
    while i < ps.len()
        invariant
            i <= ps.len(),
            view_typed_params(ps@).len() == ps.len(),
            forall|j: int| 0 <= j < ps.len() ==> #[trigger] view_typed_params(ps@)[j] == (ps@[j].0@, view_type(ps@[j].1)),
            r@ == typed_params_debug(view_typed_params(ps@).take(i as int)),
        decreases ps.len() - i,
    {
        assert(decreases_to!(ps => ps@[i as int].1));
        let ghost before = view_typed_params(ps@).take(i as int);
        let ghost now = view_typed_params(ps@).take(i + 1);
        assert(now.drop_last() =~= before);
        if i > 0 {
            r.append(", ");
        }
        r.append("(");
        let n = debug_text(ps[i].0.as_str());
        r.append(n.as_str());
        r.append(", ");
        let t = type_debug_text(&ps[i].1);
        r.append(t.as_str());
        r.append(")");
        i = i + 1;
        assert(r@ =~= typed_params_debug(now));
    }
    assert(view_typed_params(ps@).take(ps.len() as int) =~= view_typed_params(ps@));
    r
}

} // verus!
