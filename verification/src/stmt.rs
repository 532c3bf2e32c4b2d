use vstd::prelude::*;
use crate::expr::{Expr, ExprView, Variable, expr_ids, expr_view};
use crate::token::{Token, TokenView, tokens_view};

verus! {

/// A function or method declaration.
#[derive(Debug)]
pub struct Function {
    pub name: Token,
    pub params: Vec<Token>,
    pub body: Vec<Stmt>,
}

/// A statement.
#[derive(Debug)]
pub enum Stmt {
    Block { statements: Vec<Stmt> },
    Class { name: Token, superclass: Option<Variable>, methods: Vec<Function> },
    Expression { expression: Box<Expr> },
    Function(Function),
    If { condition: Box<Expr>, then_branch: Box<Stmt>, else_branch: Option<Box<Stmt>> },
    Print { expression: Box<Expr> },
    Return { keyword: Token, value: Option<Box<Expr>> },
    Var { name: Token, initializer: Option<Box<Expr>> },
    While { condition: Box<Expr>, body: Box<Stmt> },
}

/// What a `Function` stands for.
pub struct FunctionView {
    pub name: TokenView,
    pub params: Seq<TokenView>,
    pub body: Seq<StmtView>,
}

/// What a `Stmt` stands for: the same tree over token views. The superclass
/// of a class is the view of the variable expression that names it.
pub enum StmtView {
    Block { statements: Seq<StmtView> },
    Class { name: TokenView, superclass: Option<ExprView>, methods: Seq<FunctionView> },
    Expression { expression: ExprView },
    Function(FunctionView),
    If { condition: ExprView, then_branch: Box<StmtView>, else_branch: Option<Box<StmtView>> },
    Print { expression: ExprView },
    Return { keyword: TokenView, value: Option<ExprView> },
    Var { name: TokenView, initializer: Option<ExprView> },
    While { condition: ExprView, body: Box<StmtView> },
}

/// The view of a function declaration.
pub open spec fn function_view(f: Function) -> FunctionView
    decreases f,
{
    FunctionView {
        name: f.name@,
        params: tokens_view(f.params@),
        body: Seq::new(
            f.body@.len(),
            |i: int|
                if 0 <= i < f.body@.len() {
                    stmt_view(f.body@[i])
                } else {
                    arbitrary()
                },
        ),
    }
}

/// The view of a statement tree.
pub open spec fn stmt_view(s: Stmt) -> StmtView
    decreases s,
{
    match s {
        Stmt::Block { statements } => StmtView::Block {
            statements: Seq::new(
                statements@.len(),
                |i: int|
                    if 0 <= i < statements@.len() {
                        stmt_view(statements@[i])
                    } else {
                        arbitrary()
                    },
            ),
        },
        Stmt::Class { name, superclass, methods } => StmtView::Class {
            name: name@,
            superclass: match superclass {
                Some(v) => Some(ExprView::Variable { id: v.id, name: v.name@ }),
                None => None,
            },
            methods: Seq::new(
                methods@.len(),
                |i: int|
                    if 0 <= i < methods@.len() {
                        function_view(methods@[i])
                    } else {
                        arbitrary()
                    },
            ),
        },
        Stmt::Expression { expression } => StmtView::Expression {
            expression: expr_view(*expression),
        },
        Stmt::Function(f) => StmtView::Function(function_view(f)),
        Stmt::If { condition, then_branch, else_branch } => StmtView::If {
            condition: expr_view(*condition),
            then_branch: Box::new(stmt_view(*then_branch)),
            else_branch: match else_branch {
                Some(e) => Some(Box::new(stmt_view(*e))),
                None => None,
            },
        },
        Stmt::Print { expression } => StmtView::Print { expression: expr_view(*expression) },
        Stmt::Return { keyword, value } => StmtView::Return {
            keyword: keyword@,
            value: match value {
                Some(e) => Some(expr_view(*e)),
                None => None,
            },
        },
        Stmt::Var { name, initializer } => StmtView::Var {
            name: name@,
            initializer: match initializer {
                Some(e) => Some(expr_view(*e)),
                None => None,
            },
        },
        Stmt::While { condition, body } => StmtView::While {
            condition: expr_view(*condition),
            body: Box::new(stmt_view(*body)),
        },
    }
}

impl View for Stmt {
    type V = StmtView;

    open spec fn view(&self) -> StmtView {
        stmt_view(*self)
    }
}

impl View for Function {
    type V = FunctionView;

    open spec fn view(&self) -> FunctionView {
        function_view(*self)
    }
}

/// The views of a sequence of statements, one for one.
pub open spec fn stmts_view(stmts: Seq<Stmt>) -> Seq<StmtView> {
    Seq::new(stmts.len(), |i: int| stmt_view(stmts[i]))
}

/// The views of a sequence of declarations, one for one.
pub open spec fn functions_view(functions: Seq<Function>) -> Seq<FunctionView> {
    Seq::new(functions.len(), |i: int| function_view(functions[i]))
}

/// The identifiers of the expression nodes of an optional expression.
pub open spec fn option_ids(e: Option<ExprView>) -> Seq<usize> {
    match e {
        Some(e) => expr_ids(e),
        None => Seq::empty(),
    }
}

/// The identifiers of the expression nodes of a statement.
pub open spec fn stmt_ids(s: StmtView) -> Seq<usize>
    decreases s, 0int,
{
    match s {
        StmtView::Block { statements } => stmts_ids(statements, statements.len() as int),
        StmtView::Class { superclass, methods, .. } => option_ids(superclass) + functions_ids(
            methods,
            methods.len() as int,
        ),
        StmtView::Expression { expression } => expr_ids(expression),
        StmtView::Function(f) => stmts_ids(f.body, f.body.len() as int),
        StmtView::If { condition, then_branch, else_branch } => expr_ids(condition) + stmt_ids(
            *then_branch,
        ) + (match else_branch {
            Some(s) => stmt_ids(*s),
            None => Seq::empty(),
        }),
        StmtView::Print { expression } => expr_ids(expression),
        StmtView::Return { value, .. } => option_ids(value),
        StmtView::Var { initializer, .. } => option_ids(initializer),
        StmtView::While { condition, body } => expr_ids(condition) + stmt_ids(*body),
    }
}

/// The identifiers of the expression nodes of the first `count` of `stmts`.
pub open spec fn stmts_ids(stmts: Seq<StmtView>, count: int) -> Seq<usize>
    decreases stmts, count,
{
    if count <= 0 || count > stmts.len() {
        Seq::empty()
    } else {
        stmts_ids(stmts, count - 1) + stmt_ids(stmts[count - 1])
    }
}

/// The identifiers of the expression nodes of the first `count` of
/// `functions`.
pub open spec fn functions_ids(functions: Seq<FunctionView>, count: int) -> Seq<usize>
    decreases functions, count,
{
    if count <= 0 || count > functions.len() {
        Seq::empty()
    } else {
        functions_ids(functions, count - 1) + stmts_ids(
            functions[count - 1].body,
            functions[count - 1].body.len() as int,
        )
    }
}

} // verus!
