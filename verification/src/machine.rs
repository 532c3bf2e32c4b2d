use vstd::prelude::*;
use crate::callable::{Callable, CallableView, callables_view};
use crate::environment::{Environment, EnvironmentView};
use crate::expr::{
    Assign, Binary, Call, Expr, ExprView, Get, Logical, SetExpr, Unary, expr_view, exprs_view,
};
use crate::instance::{Instance, InstanceView, instances_view};
use crate::stmt::{Stmt, StmtView, stmt_view, stmts_view};
use crate::token::{Literal, LiteralView, Token, TokenView};
use crate::token_type::TokenType;
use crate::utils::Soo;

verus! {

/// Work that only the host can do; its answer is always one number, as
/// IEEE 754 binary64 bits.
#[derive(Debug)]
pub enum Request {
    /// The value of a number written as these digits.
    Number(String),
    /// `left operator right`, where the operator is one of `+ - * /`.
    Arithmetic(TokenType, u64, u64),
    /// The seconds since the Unix epoch.
    Clock,
}

/// What a `Request` stands for.
pub enum RequestView {
    Number(Seq<char>),
    Arithmetic(TokenType, u64, u64),
    Clock,
}

impl View for Request {
    type V = RequestView;

    open spec fn view(&self) -> RequestView {
        match self {
            Request::Number(text) => RequestView::Number(text@),
            Request::Arithmetic(operator, left, right) => RequestView::Arithmetic(
                *operator,
                *left,
                *right,
            ),
            Request::Clock => RequestView::Clock,
        }
    }
}

impl Clone for Request {
    fn clone(&self) -> (r: Self)
        ensures
            r == *self,
    {
        match self {
            Request::Number(text) => Request::Number(text.clone()),
            Request::Arithmetic(operator, left, right) => Request::Arithmetic(
                *operator,
                *left,
                *right,
            ),
            Request::Clock => Request::Clock,
        }
    }
}

/// What one step of the interpreter asks of its host.
#[derive(Debug)]
pub enum Action {
    /// Nothing: step again.
    Continue,
    /// Print this line, then step again.
    Print(String),
    /// Print this number, which has a fractional part or is not finite,
    /// then step again.
    PrintNumber(u64),
    /// Do the work and hand its answer to the next step.
    Ask(Request),
    /// The program has run to its end.
    Finished,
    /// The program has stopped on a runtime error at this token.
    Failed(Token, Soo),
}

/// What an `Action` stands for.
pub enum ActionView {
    Continue,
    Print(Seq<char>),
    PrintNumber(u64),
    Ask(RequestView),
    Finished,
    Failed(TokenView, Seq<char>),
}

impl View for Action {
    type V = ActionView;

    open spec fn view(&self) -> ActionView {
        match self {
            Action::Continue => ActionView::Continue,
            Action::Print(text) => ActionView::Print(text@),
            Action::PrintNumber(bits) => ActionView::PrintNumber(*bits),
            Action::Ask(request) => ActionView::Ask(request@),
            Action::Finished => ActionView::Finished,
            Action::Failed(token, message) => ActionView::Failed(token@, message@),
        }
    }
}

/// What the interpreter is about to do.
#[derive(Debug)]
pub enum Control<'a> {
    /// Evaluate this expression.
    Expression(&'a Expr),
    /// Execute this statement.
    Statement(&'a Stmt),
    /// Hand this value to what waits on top of the stack.
    Value(Literal),
    /// Unwind to the call that is running and hand it this value.
    Return(Literal),
    /// Wait for the host's answer.
    Awaiting(Request),
    /// Nothing is left to do.
    Finished,
}

/// What a `Control` stands for.
pub enum ControlView {
    Expression(ExprView),
    Statement(StmtView),
    Value(LiteralView),
    Return(LiteralView),
    Awaiting(RequestView),
    Finished,
}

impl<'a> View for Control<'a> {
    type V = ControlView;

    open spec fn view(&self) -> ControlView {
        match self {
            Control::Expression(e) => ControlView::Expression(expr_view(**e)),
            Control::Statement(s) => ControlView::Statement(stmt_view(**s)),
            Control::Value(v) => ControlView::Value(v@),
            Control::Return(v) => ControlView::Return(v@),
            Control::Awaiting(request) => ControlView::Awaiting(request@),
            Control::Finished => ControlView::Finished,
        }
    }
}

/// What waits for a value: the rest of an expression or of a statement.
#[derive(Debug)]
pub enum Kont<'a> {
    /// The operand of a unary operator is on its way.
    Unary(&'a Unary),
    /// The left operand is on its way; the right one comes next.
    BinaryLeft(&'a Binary),
    /// The right operand is on its way; this is the left one.
    BinaryRight(&'a Binary, Literal),
    /// The left operand of `and` or `or` is on its way.
    Logical(&'a Logical),
    /// The value to assign is on its way.
    Assign(&'a Assign),
    /// The callee is on its way.
    Callee(&'a Call),
    /// An argument is on its way; these are the callee and the arguments
    /// before it.
    Argument(&'a Call, Literal, Vec<Literal>),
    /// The object whose property is read is on its way.
    Get(&'a Get),
    /// The object whose field is set is on its way.
    SetObject(&'a SetExpr),
    /// The value for the field of this instance is on its way.
    SetValue(&'a SetExpr, usize),
    /// The value of an expression statement: dropped.
    Discard,
    /// The value to print.
    Print,
    /// The initial value of this variable.
    Var(&'a Token),
    /// The condition of an `if` with these branches.
    If(&'a Stmt, Option<&'a Stmt>),
    /// The condition of a `while` with this condition and body.
    WhileCondition(&'a Expr, &'a Stmt),
    /// The body of a `while` is running.
    WhileBody(&'a Expr, &'a Stmt),
    /// The value to return.
    ReturnValue,
    /// These statements run in turn; this one is next.
    Sequence(&'a Vec<Stmt>, usize),
    /// A block is running: its scope goes when it ends.
    Scope,
    /// A call is running: the caller's stack of scopes, and what the call
    /// yields in place of its own result, if anything.
    Call(Vec<usize>, Option<Literal>),
}

/// What a `Kont` stands for.
pub enum KontView {
    Unary { operator: TokenView },
    BinaryLeft { operator: TokenView, right: ExprView },
    BinaryRight { operator: TokenView, left: LiteralView },
    Logical { operator: TokenView, right: ExprView },
    Assign { id: usize, name: TokenView },
    Callee { paren: TokenView, arguments: Seq<ExprView> },
    Argument { paren: TokenView, arguments: Seq<ExprView>, callee: LiteralView, values: Seq<LiteralView> },
    Get { name: TokenView },
    SetObject { name: TokenView, value: ExprView },
    SetValue { name: TokenView, instance: usize },
    Discard,
    Print,
    Var { name: TokenView },
    If { then_branch: StmtView, else_branch: Option<StmtView> },
    WhileCondition { condition: ExprView, body: StmtView },
    WhileBody { condition: ExprView, body: StmtView },
    ReturnValue,
    Sequence { statements: Seq<StmtView>, next: usize },
    Scope,
    Call { layers: Seq<usize>, this: Option<LiteralView> },
}

/// The views of a sequence of values, one for one.
pub open spec fn values_view(values: Seq<Literal>) -> Seq<LiteralView> {
    Seq::new(values.len(), |i: int| values[i]@)
}

impl<'a> View for Kont<'a> {
    type V = KontView;

    open spec fn view(&self) -> KontView {
        match self {
            Kont::Unary(u) => KontView::Unary { operator: u.operator@ },
            Kont::BinaryLeft(b) => KontView::BinaryLeft {
                operator: b.operator@,
                right: expr_view(*b.right),
            },
            Kont::BinaryRight(b, left) => KontView::BinaryRight { operator: b.operator@, left: left@ },
            Kont::Logical(l) => KontView::Logical { operator: l.operator@, right: expr_view(*l.right) },
            Kont::Assign(a) => KontView::Assign { id: a.id, name: a.name@ },
            Kont::Callee(c) => KontView::Callee {
                paren: c.paren@,
                arguments: exprs_view(c.arguments@),
            },
            Kont::Argument(c, callee, values) => KontView::Argument {
                paren: c.paren@,
                arguments: exprs_view(c.arguments@),
                callee: callee@,
                values: values_view(values@),
            },
            Kont::Get(g) => KontView::Get { name: g.name@ },
            Kont::SetObject(s) => KontView::SetObject { name: s.name@, value: expr_view(*s.value) },
            Kont::SetValue(s, instance) => KontView::SetValue { name: s.name@, instance: *instance },
            Kont::Discard => KontView::Discard,
            Kont::Print => KontView::Print,
            Kont::Var(name) => KontView::Var { name: name@ },
            Kont::If(then_branch, else_branch) => KontView::If {
                then_branch: stmt_view(**then_branch),
                else_branch: match else_branch {
                    Some(s) => Some(stmt_view(**s)),
                    None => None,
                },
            },
            Kont::WhileCondition(condition, body) => KontView::WhileCondition {
                condition: expr_view(**condition),
                body: stmt_view(**body),
            },
            Kont::WhileBody(condition, body) => KontView::WhileBody {
                condition: expr_view(**condition),
                body: stmt_view(**body),
            },
            Kont::ReturnValue => KontView::ReturnValue,
            Kont::Sequence(statements, next) => KontView::Sequence {
                statements: stmts_view(statements@),
                next: *next,
            },
            Kont::Scope => KontView::Scope,
            Kont::Call(layers, this) => KontView::Call {
                layers: layers@,
                this: match this {
                    Some(v) => Some(v@),
                    None => None,
                },
            },
        }
    }
}

/// The views of a stack of continuations, one for one.
pub open spec fn konts_view(konts: Seq<Kont<'_>>) -> Seq<KontView> {
    Seq::new(konts.len(), |i: int| konts[i]@)
}

/// The interpreter: the scopes, the tables of callables and instances that
/// values point into, what it is about to do, and the stack of what waits.
#[derive(Debug)]
pub struct Interpreter<'a> {
    pub environment: Environment,
    pub callables: Vec<Callable<'a>>,
    pub instances: Vec<Instance>,
    pub control: Control<'a>,
    pub konts: Vec<Kont<'a>>,
}

/// What an `Interpreter` stands for.
pub struct InterpreterView {
    pub environment: EnvironmentView,
    pub callables: Seq<CallableView>,
    pub instances: Seq<InstanceView>,
    pub control: ControlView,
    pub konts: Seq<KontView>,
}

impl<'a> View for Interpreter<'a> {
    type V = InterpreterView;

    open spec fn view(&self) -> InterpreterView {
        InterpreterView {
            environment: self.environment@,
            callables: callables_view(self.callables@),
            instances: instances_view(self.instances@),
            control: self.control@,
            konts: konts_view(self.konts@),
        }
    }
}

} // verus!
