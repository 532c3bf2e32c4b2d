use vstd::prelude::*;
use crate::expr::{
    Assign, Binary, Call, Expr, ExprView, Get, Grouping, LiteralExpr, Logical, SetExpr, Super,
    This, Unary, Variable, distinct_in, expr_ids, exprs_ids, exprs_view, lemma_distinct_empty,
    lemma_distinct_joined, lemma_distinct_one, lemma_distinct_pushed, lemma_distinct_wider,
};
use crate::grammar::{
    Diagnostic, ParserView, combined, desugared_for, expecting, operator_at, parsed, start,
    starts_statement,
};
use crate::plain::{
    constant, lemma_plain_block, lemma_plain_call, lemma_plain_class, lemma_plain_exprs_empty,
    lemma_plain_exprs_pushed, lemma_plain_functions_empty, lemma_plain_functions_pushed,
    lemma_plain_stmts_empty, lemma_plain_stmts_pair, lemma_plain_stmts_pushed, lemma_plain_token,
    plain_expr, plain_exprs, plain_function, plain_functions, plain_stmt, plain_stmts,
    plain_tokens,
};
use crate::resolver::errors_view;
use crate::stmt::{
    Function, FunctionView, Stmt, StmtView, functions_ids, functions_view, option_ids, stmt_ids,
    stmts_ids, stmts_view,
};
use crate::token::{Literal, Token, TokenView, tokens_view};
use crate::token_type::TokenType;
use crate::utils::{ExprId, Soo};

verus! {

/// A recursive-descent parser over a list of tokens.
#[derive(Debug)]
pub struct Parser {
    pub tokens: Vec<Token>,
    pub pos: usize,
    pub id: ExprId,
    pub errors: Vec<(Token, Soo)>,
    pub line_count: usize,
}

impl View for Parser {
    type V = ParserView;

    open spec fn view(&self) -> ParserView {
        ParserView {
            tokens: tokens_view(self.tokens@),
            pos: self.pos as int,
            id: self.id@ as int,
            errors: errors_view(self.errors@),
            line_count: self.line_count,
        }
    }
}

impl ParserView {
    /// The parser stands inside its tokens, and every token left to read
    /// can still get an identifier.
    pub open spec fn ready(self) -> bool {
        0 <= self.pos <= self.tokens.len() && 0 <= self.id && self.id + (self.tokens.len()
            - self.pos) <= usize::MAX
    }
}

/// What the outcome of a parsing step stands for.
pub open spec fn viewed<T: View>(r: Result<T, (Token, Soo)>) -> Result<T::V, Diagnostic> {
    match r {
        Ok(value) => Ok(value@),
        Err(error) => Err((error.0@, error.1@)),
    }
}

/// What a parsed list of expressions stands for.
pub open spec fn viewed_exprs(r: Result<Vec<Expr>, (Token, Soo)>) -> Result<Seq<ExprView>, Diagnostic> {
    match r {
        Ok(value) => Ok(exprs_view(value@)),
        Err(error) => Err((error.0@, error.1@)),
    }
}

/// Whether a parsed expression is plain where the tokens are.
pub open spec fn plain_parsed(r: Result<Expr, (Token, Soo)>, before: ParserView) -> bool {
    plain_tokens(before.tokens) ==> match r {
        Ok(e) => plain_expr(e@),
        Err(_) => true,
    }
}

/// Whether a parsed statement is plain where the tokens are.
pub open spec fn plain_parsed_stmt(r: Result<Stmt, (Token, Soo)>, before: ParserView) -> bool {
    plain_tokens(before.tokens) ==> match r {
        Ok(s) => plain_stmt(s@),
        Err(_) => true,
    }
}

/// Whether a parsed list of statements is plain where the tokens are.
pub open spec fn plain_parsed_stmts(r: Result<Vec<Stmt>, (Token, Soo)>, before: ParserView) -> bool {
    plain_tokens(before.tokens) ==> match r {
        Ok(ss) => plain_stmts(stmts_view(ss@)),
        Err(_) => true,
    }
}

/// Whether the identifiers of a parsed expression are new: each was handed
/// out between `before` and `after`, and none twice.
pub open spec fn fresh_expr(r: Result<Expr, (Token, Soo)>, before: ParserView, after: ParserView) -> bool {
    match r {
        Ok(e) => distinct_in(expr_ids(e@), before.id, after.id),
        Err(_) => true,
    }
}

/// Whether the identifiers of a parsed list of expressions are new.
pub open spec fn fresh_exprs(
    r: Result<Vec<Expr>, (Token, Soo)>,
    before: ParserView,
    after: ParserView,
) -> bool {
    match r {
        Ok(es) => distinct_in(exprs_ids(exprs_view(es@), es@.len() as int), before.id, after.id),
        Err(_) => true,
    }
}

/// The identifiers of a list of expressions do not depend on what follows
/// the expressions counted.
proof fn lemma_exprs_ids_pushed(exprs: Seq<ExprView>, last: ExprView, count: int)
    requires
        count <= exprs.len(),
    ensures
        exprs_ids(exprs.push(last), count) == exprs_ids(exprs, count),
    decreases count,
{
    if count > 0 {
        lemma_exprs_ids_pushed(exprs, last, count - 1);
        assert(exprs.push(last)[count - 1] == exprs[count - 1]);
    }
}

/// All but the last of distinct identifiers are distinct.
proof fn lemma_distinct_front(ids: Seq<usize>, id: usize, lo: int, hi: int)
    requires
        distinct_in(ids.push(id), lo, hi),
    ensures
        distinct_in(ids, lo, hi),
{
    reveal(distinct_in);
    let all = ids.push(id);
    assert forall|i: int| 0 <= i < ids.len() implies lo <= #[trigger] ids[i] < hi by {
        assert(all[i] == ids[i]);
    }
    assert forall|i: int, j: int| 0 <= i < j < ids.len() implies #[trigger] ids[i]
        != #[trigger] ids[j] by {
        assert(all[i] == ids[i]);
        assert(all[j] == ids[j]);
    }
}

fn is_operator(level: u8, typ: TokenType) -> (r: bool)
    ensures
        r == operator_at(level as int, typ),
{
    if level == 0 {
        typ == TokenType::Or
    } else if level == 1 {
        typ == TokenType::And
    } else if level == 2 {
        typ == TokenType::BangEqual || typ == TokenType::EqualEqual
    } else if level == 3 {
        typ == TokenType::Greater || typ == TokenType::GreaterEqual || typ == TokenType::Less
            || typ == TokenType::LessEqual
    } else if level == 4 {
        typ == TokenType::Minus || typ == TokenType::Plus
    } else {
        typ == TokenType::Slash || typ == TokenType::Star
    }
}

fn combine(level: u8, id: usize, left: Expr, operator: Token, right: Expr) -> (r: Expr)
    ensures
        r@ == combined(level as int, id, left@, operator@, right@),
        expr_ids(r@) == (expr_ids(left@) + expr_ids(right@)).push(id),
        plain_expr(r@) == (plain_expr(left@) && plain_expr(right@)),
{
    if level < 2 {
        Expr::Logical(Logical { id, left: Box::new(left), operator, right: Box::new(right) })
    } else {
        Expr::Binary(Binary { id, left: Box::new(left), operator, right: Box::new(right) })
    }
}

fn unary_node(id: usize, operator: Token, right: Expr) -> (r: Expr)
    ensures
        r@ == (ExprView::Unary { id, operator: operator@, right: Box::new(right@) }),
        expr_ids(r@) == expr_ids(right@).push(id),
        plain_expr(r@) == plain_expr(right@),
{
    Expr::Unary(Unary { id, operator, right: Box::new(right) })
}

fn grouping_node(id: usize, expression: Expr) -> (r: Expr)
    ensures
        r@ == (ExprView::Grouping { id, expression: Box::new(expression@) }),
        expr_ids(r@) == expr_ids(expression@).push(id),
        plain_expr(r@) == plain_expr(expression@),
{
    Expr::Grouping(Grouping { id, expression: Box::new(expression) })
}

fn get_node(id: usize, object: Expr, name: Token) -> (r: Expr)
    ensures
        r@ == (ExprView::Get { id, object: Box::new(object@), name: name@ }),
        expr_ids(r@) == expr_ids(object@).push(id),
        plain_expr(r@) == plain_expr(object@),
{
    Expr::Get(Get { id, object: Box::new(object), name })
}

fn call_node(id: usize, callee: Expr, paren: Token, arguments: Vec<Expr>) -> (r: Expr)
    ensures
        r@ == (ExprView::Call {
            id,
            callee: Box::new(callee@),
            paren: paren@,
            arguments: exprs_view(arguments@),
        }),
        expr_ids(r@) == (expr_ids(callee@) + exprs_ids(
            exprs_view(arguments@),
            arguments@.len() as int,
        )).push(id),
        plain_expr(r@) == (plain_expr(callee@) && plain_exprs(exprs_view(arguments@))),
{
    let r = Expr::Call(Call { id, callee: Box::new(callee), paren, arguments });
    assert(r@->Call_arguments =~= exprs_view(arguments@));
    proof {
        lemma_plain_call(r@);
    }
    r
}

fn super_node(id: usize, keyword: Token, method: Token) -> (r: Expr)
    ensures
        r@ == (ExprView::Super { id, keyword: keyword@, method: method@ }),
        expr_ids(r@) == seq![id],
        plain_expr(r@),
{
    Expr::Super(Super { id, keyword, method })
}

/// The assignment of `value` to `target`, where `target` can be assigned
/// to; else `target` as it is.
fn assign_node(id: usize, target: Expr, value: Expr) -> (r: Result<Expr, Expr>)
    ensures
        match r {
            Ok(node) => match target@ {
                ExprView::Variable { name, .. } => node@ == (ExprView::Assign {
                    id,
                    name,
                    value: Box::new(value@),
                }) && expr_ids(node@) == expr_ids(value@).push(id) && plain_expr(node@)
                    == plain_expr(value@),
                ExprView::Get { id: got, object, name } => node@ == (ExprView::SetExpr {
                    id,
                    object,
                    name,
                    value: Box::new(value@),
                }) && expr_ids(node@) == (expr_ids(*object) + expr_ids(value@)).push(id)
                    && expr_ids(target@) == expr_ids(*object).push(got) && plain_expr(node@) == (
                plain_expr(target@) && plain_expr(value@)),
                _ => false,
            },
            Err(same) => !(target@ is Variable) && !(target@ is Get) && same == target,
        },
{
    match target {
        Expr::Variable(variable) => Ok(
            Expr::Assign(Assign { id, name: variable.name, value: Box::new(value) }),
        ),
        Expr::Get(get) => Ok(
            Expr::SetExpr(SetExpr { id, object: get.object, name: get.name, value: Box::new(value) }),
        ),
        other => Err(other),
    }
}

impl Parser {
    /// Whether every token has been read.
    pub fn at_end(&self) -> (r: bool)
        ensures
            r == self@.at_end(),
    {
        self.pos >= self.tokens.len()
    }

    /// Whether the next token is of kind `typ`.
    pub fn check(&self, typ: TokenType) -> (r: bool)
        ensures
            r == self@.check(typ),
    {
        self.pos < self.tokens.len() && self.tokens[self.pos].typ == typ
    }

    fn advance(&mut self)
        requires
            old(self)@.ready(),
        ensures
            final(self)@ == old(self)@.advance(),
            final(self)@.ready(),
            old(self)@.advanced(final(self)@),
    {
        if self.pos < self.tokens.len() {
            self.pos += 1;
        }
    }

    fn next_id(&mut self) -> (id: usize)
        requires
            old(self)@.id < usize::MAX,
        ensures
            final(self)@ == old(self)@.fresh(),
            id == old(self)@.id,
    {
        self.id.next()
    }

    fn generate_eof(&self) -> (token: Token)
        ensures
            token@ == self@.eof(),
    {
        Token {
            typ: TokenType::Eof,
            lexeme: String::new(),
            literal: Literal::Nil,
            line: self.line_count,
        }
    }

    fn here(&self) -> (token: Token)
        ensures
            token@ == self@.here(),
    {
        if self.pos < self.tokens.len() {
            self.tokens[self.pos].clone()
        } else {
            self.generate_eof()
        }
    }

    fn report_error(&mut self, message: &'static str)
        ensures
            final(self)@ == old(self)@.report(message@),
    {
        let token = self.here();
        self.errors.push((token, Soo::Static(message)));
        assert(final(self)@.errors =~= old(self)@.errors.push((old(self)@.here(), message@)));
    }

    fn error(&mut self, message: &'static str) -> (diagnostic: (Token, Soo))
        requires
            old(self)@.ready(),
        ensures
            ((diagnostic.0@, diagnostic.1@), final(self)@) == old(self)@.blame(message@),
            final(self)@.ready(),
            old(self)@.advanced(final(self)@),
    {
        let token = self.here();
        self.advance();
        (token, Soo::Static(message))
    }

    fn consume(&mut self, typ: TokenType, wrong: &'static str, ended: &'static str) -> (r: Result<
        Token,
        (Token, Soo),
    >)
        requires
            old(self)@.ready(),
        ensures
            (viewed(r), final(self)@) == old(self)@.consume(typ, expecting(wrong@, ended@)),
            final(self)@.ready(),
            old(self)@.advanced(final(self)@),
            r is Ok ==> final(self)@.pos == old(self)@.pos + 1 && final(self)@.id == old(self)@.id,
    {
        if self.pos >= self.tokens.len() {
            Err((self.generate_eof(), Soo::Static(ended)))
        } else if self.tokens[self.pos].typ == typ {
            let token = self.tokens[self.pos].clone();
            self.pos += 1;
            Ok(token)
        } else {
            self.pos += 1;
            Err(self.error(wrong))
        }
    }

    /// The diagnostic for a token that is not the expected one: the token
    /// is read, and the one behind it is blamed.
    fn missing(&mut self, wrong: &'static str, ended: &'static str) -> (diagnostic: (Token, Soo))
        requires
            old(self)@.ready(),
        ensures
            forall|typ: TokenType|
                !old(self)@.check(typ) ==> old(self)@.consume(typ, expecting(wrong@, ended@)) == (
                    Err::<TokenView, Diagnostic>((diagnostic.0@, diagnostic.1@)),
                    final(self)@,
                ),
            final(self)@.ready(),
            old(self)@.advanced(final(self)@),
    {
        if self.pos >= self.tokens.len() {
            (self.generate_eof(), Soo::Static(ended))
        } else {
            self.pos += 1;
            self.error(wrong)
        }
    }

    /// Parses an expression.
    pub fn expression(&mut self) -> (r: Result<Expr, (Token, Soo)>)
        requires
            old(self)@.ready(),
        ensures
            (viewed(r), final(self)@) == old(self)@.expression(),
            final(self)@.ready(),
            old(self)@.advanced(final(self)@),
            fresh_expr(r, old(self)@, final(self)@),
            plain_parsed(r, old(self)@),
        decreases old(self)@.remaining(), 20int,
    {
        reveal(ParserView::expression);
        reveal(ParserView::assignment);
        self.assignment()
    }

    fn assignment(&mut self) -> (r: Result<Expr, (Token, Soo)>)
        requires
            old(self)@.ready(),
        ensures
            (viewed(r), final(self)@) == old(self)@.assignment(),
            final(self)@.ready(),
            old(self)@.advanced(final(self)@),
            fresh_expr(r, old(self)@, final(self)@),
            plain_parsed(r, old(self)@),
        decreases old(self)@.remaining(), 19int,
    {
        reveal(ParserView::assignment);
        reveal(ParserView::binary);
        let target = match self.binary(0) {
            Ok(target) => target,
            Err(e) => {
                return Err(e);
            },
        };
        if !self.check(TokenType::Equal) {
            return Ok(target);
        }
        let ghost lo = old(self)@.id;
        let ghost mid = self@.id;
        let ghost written = expr_ids(target@);
        let equals = self.tokens[self.pos].clone();
        self.advance();
        let value = match self.assignment() {
            Ok(value) => value,
            Err(e) => {
                return Err(e);
            },
        };
        let ghost top = self@.id;
        if matches!(target, Expr::Variable(_)) || matches!(target, Expr::Get(_)) {
            let id = self.next_id();
            match assign_node(id, target, value) {
                Ok(node) => {
                    proof {
                        match target@ {
                            ExprView::Get { id: got, object, .. } => {
                                lemma_distinct_front(expr_ids(*object), got, lo, mid);
                                lemma_distinct_joined(
                                    expr_ids(*object),
                                    expr_ids(value@),
                                    lo,
                                    mid,
                                    top,
                                );
                                lemma_distinct_pushed(
                                    expr_ids(*object) + expr_ids(value@),
                                    id,
                                    lo,
                                    top + 1,
                                );
                            },
                            _ => {
                                lemma_distinct_wider(expr_ids(value@), mid, top, lo, top);
                                lemma_distinct_pushed(expr_ids(value@), id, lo, top + 1);
                            },
                        }
                    }
                    Ok(node)
                },
                Err(same) => Ok(same),
            }
        } else {
            self.errors.push((equals, Soo::Static("Invalid assignment target.")));
            proof {
                let before = old(self)@.assignment().1;
                assert(final(self)@.errors =~= before.errors);
                lemma_distinct_wider(written, lo, mid, lo, top);
            }
            Ok(target)
        }
    }

    /// Parses the binary operators of one level of precedence.
    fn binary(&mut self, level: u8) -> (r: Result<Expr, (Token, Soo)>)
        requires
            old(self)@.ready(),
        ensures
            (viewed(r), final(self)@) == old(self)@.binary(level as int),
            final(self)@.ready(),
            old(self)@.advanced(final(self)@),
            fresh_expr(r, old(self)@, final(self)@),
            plain_parsed(r, old(self)@),
        decreases old(self)@.remaining(), (if level < 6 { 18 - 2 * level } else { 6 }),
    {
        reveal(ParserView::binary);
        reveal(ParserView::binary_rest);
        reveal(ParserView::unary);
        if level >= 6 {
            return self.unary();
        }
        let mut left = match self.binary(level + 1) {
            Ok(left) => left,
            Err(e) => {
                return Err(e);
            },
        };
        loop
            invariant
                level < 6,
                self@.ready(),
                old(self)@.ready(),
                old(self)@.advanced(self@),
                old(self)@.binary(level as int) == self@.binary_rest(level as int, left@),
                distinct_in(expr_ids(left@), old(self)@.id, self@.id),
                plain_tokens(old(self)@.tokens) ==> plain_expr(left@),
            decreases self@.remaining(),
        {
            reveal(ParserView::binary);
            reveal(ParserView::binary_rest);
            reveal(ParserView::unary);
            if self.pos < self.tokens.len() && is_operator(level, self.tokens[self.pos].typ) {
                let operator = self.tokens[self.pos].clone();
                let ghost mid = self@.id;
                let ghost before = expr_ids(left@);
                self.advance();
                let right = match self.binary(level + 1) {
                    Ok(right) => right,
                    Err(e) => {
                        return Err(e);
                    },
                };
                let id = self.next_id();
                proof {
                    lemma_distinct_joined(before, expr_ids(right@), old(self)@.id, mid, id as int);
                    lemma_distinct_pushed(
                        before + expr_ids(right@),
                        id,
                        old(self)@.id,
                        id + 1,
                    );
                }
                left = combine(level, id, left, operator, right);
            } else {
                return Ok(left);
            }
        }
    }

    fn unary(&mut self) -> (r: Result<Expr, (Token, Soo)>)
        requires
            old(self)@.ready(),
        ensures
            (viewed(r), final(self)@) == old(self)@.unary(),
            final(self)@.ready(),
            old(self)@.advanced(final(self)@),
            fresh_expr(r, old(self)@, final(self)@),
            plain_parsed(r, old(self)@),
        decreases old(self)@.remaining(), 5int,
    {
        reveal(ParserView::unary);
        reveal(ParserView::call);
        if self.check(TokenType::Bang) || self.check(TokenType::Minus) {
            let operator = self.tokens[self.pos].clone();
            self.advance();
            let right = match self.unary() {
                Ok(right) => right,
                Err(e) => {
                    return Err(e);
                },
            };
            let id = self.next_id();
            proof {
                lemma_distinct_pushed(expr_ids(right@), id, old(self)@.id, id + 1);
            }
            Ok(unary_node(id, operator, right))
        } else {
            self.call()
        }
    }

    fn call(&mut self) -> (r: Result<Expr, (Token, Soo)>)
        requires
            old(self)@.ready(),
        ensures
            (viewed(r), final(self)@) == old(self)@.call(),
            final(self)@.ready(),
            old(self)@.advanced(final(self)@),
            fresh_expr(r, old(self)@, final(self)@),
            plain_parsed(r, old(self)@),
        decreases old(self)@.remaining(), 4int,
    {
        reveal(ParserView::call);
        reveal(ParserView::call_rest);
        reveal(ParserView::primary);
        reveal(ParserView::finish_call);
        let mut callee = match self.primary() {
            Ok(callee) => callee,
            Err(e) => {
                return Err(e);
            },
        };
        loop
            invariant
                self@.ready(),
                old(self)@.ready(),
                old(self)@.advanced(self@),
                old(self)@.call() == self@.call_rest(callee@),
                distinct_in(expr_ids(callee@), old(self)@.id, self@.id),
                plain_tokens(old(self)@.tokens) ==> plain_expr(callee@),
            decreases self@.remaining(),
        {
            reveal(ParserView::call);
            reveal(ParserView::call_rest);
            reveal(ParserView::primary);
            reveal(ParserView::finish_call);
            if self.check(TokenType::LeftParen) {
                self.advance();
                callee = match self.finish_call(callee, Ghost(old(self)@.id)) {
                    Ok(called) => called,
                    Err(e) => {
                        return Err(e);
                    },
                };
            } else if self.check(TokenType::Dot) {
                self.advance();
                let name = match self.consume(
                    TokenType::Identifier,
                    "Expected property name after '.'.",
                    "Expected property name after '.', instead found end of file.",
                ) {
                    Ok(name) => name,
                    Err(e) => {
                        return Err(e);
                    },
                };
                let id = self.next_id();
                proof {
                    lemma_distinct_wider(
                        expr_ids(callee@),
                        old(self)@.id,
                        id as int,
                        old(self)@.id,
                        id as int,
                    );
                    lemma_distinct_pushed(expr_ids(callee@), id, old(self)@.id, id + 1);
                }
                callee = get_node(id, callee, name);
            } else {
                return Ok(callee);
            }
        }
    }

    fn arguments(&mut self) -> (r: Result<Vec<Expr>, (Token, Soo)>)
        requires
            old(self)@.ready(),
        ensures
            (viewed_exprs(r), final(self)@) == old(self)@.arguments(Seq::empty()),
            final(self)@.ready(),
            old(self)@.advanced(final(self)@),
            fresh_exprs(r, old(self)@, final(self)@),
            plain_tokens(old(self)@.tokens) && r is Ok ==> plain_exprs(exprs_view(r->Ok_0@)),
        decreases old(self)@.remaining(), 21int,
    {
        reveal(ParserView::arguments);
        reveal(ParserView::expression);
        let mut arguments: Vec<Expr> = Vec::new();
        assert(exprs_view(arguments@) =~= Seq::<ExprView>::empty());
        proof {
            lemma_distinct_empty(old(self)@.id, old(self)@.id);
            lemma_plain_exprs_empty();
        }
        loop
            invariant
                self@.ready(),
                old(self)@.ready(),
                old(self)@.reached(self@),
                arguments@.len() > 0 ==> old(self)@.advanced(self@),
                old(self)@.arguments(Seq::empty()) == self@.arguments(exprs_view(arguments@)),
                distinct_in(
                    exprs_ids(exprs_view(arguments@), arguments@.len() as int),
                    old(self)@.id,
                    self@.id,
                ),
                plain_tokens(old(self)@.tokens) ==> plain_exprs(exprs_view(arguments@)),
            decreases self@.remaining(),
        {
            reveal(ParserView::arguments);
            reveal(ParserView::expression);
            if arguments.len() >= 255 {
                self.report_error("Can't have more than 255 arguments.");
            }
            let ghost before = exprs_view(arguments@);
            let ghost mid = self@.id;
            match self.expression() {
                Ok(argument) => {
                    arguments.push(argument);
                    assert(exprs_view(arguments@) =~= before.push(argument@));
                    proof {
                        if plain_tokens(old(self)@.tokens) {
                            lemma_plain_exprs_pushed(before, argument@);
                        }
                        lemma_exprs_ids_pushed(before, argument@, before.len() as int);
                        lemma_distinct_joined(
                            exprs_ids(before, before.len() as int),
                            expr_ids(argument@),
                            old(self)@.id,
                            mid,
                            self@.id,
                        );
                    }
                },
                Err(e) => {
                    return Err(e);
                },
            }
            if self.check(TokenType::Comma) {
                self.advance();
            } else {
                return Ok(arguments);
            }
        }
    }

    fn finish_call(&mut self, callee: Expr, Ghost(lo): Ghost<int>) -> (r: Result<Expr, (Token, Soo)>)
        requires
            old(self)@.ready(),
            lo <= old(self)@.id,
            distinct_in(expr_ids(callee@), lo, old(self)@.id),
        ensures
            (viewed(r), final(self)@) == old(self)@.finish_call(callee@),
            final(self)@.ready(),
            old(self)@.advanced(final(self)@),
            r is Ok ==> distinct_in(expr_ids(r->Ok_0@), lo, final(self)@.id),
            plain_tokens(old(self)@.tokens) && plain_expr(callee@) ==> plain_parsed(r, old(self)@),
        decreases old(self)@.remaining(), 22int,
    {
        reveal(ParserView::finish_call);
        reveal(ParserView::arguments);
        let arguments: Vec<Expr> = if self.check(TokenType::RightParen) {
            let arguments: Vec<Expr> = Vec::new();
            assert(exprs_view(arguments@) =~= Seq::<ExprView>::empty());
            proof {
                lemma_distinct_empty(old(self)@.id, old(self)@.id);
                lemma_plain_exprs_empty();
            }
            arguments
        } else {
            match self.arguments() {
                Ok(arguments) => arguments,
                Err(e) => {
                    return Err(e);
                },
            }
        };
        let ghost mid = self@.id;
        let paren = match self.consume(
            TokenType::RightParen,
            "Expected ')' after arguments.",
            "Expected ')' after arguments, instead found end of file.",
        ) {
            Ok(paren) => paren,
            Err(e) => {
                return Err(e);
            },
        };
        let id = self.next_id();
        proof {
            let listed = exprs_ids(exprs_view(arguments@), arguments@.len() as int);
            lemma_distinct_joined(expr_ids(callee@), listed, lo, old(self)@.id, mid);
            lemma_distinct_pushed(expr_ids(callee@) + listed, id, lo, id + 1);
        }
        Ok(call_node(id, callee, paren, arguments))
    }

    fn single(&mut self, token: &Token) -> (r: Option<Expr>)
        requires
            old(self)@.id < usize::MAX,
        ensures
            match r {
                Some(expression) => crate::grammar::single(token@, old(self)@.id as usize) == Some(
                    expression@,
                ) && final(self)@ == old(self)@.fresh() && expr_ids(expression@) == seq![
                    old(self)@.id as usize,
                ] && (constant(token@.literal) ==> plain_expr(expression@)),
                None => crate::grammar::single(token@, old(self)@.id as usize) is None && final(self)@
                    == old(self)@,
            },
    {
        let typ = token.typ;
        if typ == TokenType::False {
            let id = self.next_id();
            Some(Expr::LiteralExpr(LiteralExpr { id, value: Literal::BoolLiteral(false) }))
        } else if typ == TokenType::True {
            let id = self.next_id();
            Some(Expr::LiteralExpr(LiteralExpr { id, value: Literal::BoolLiteral(true) }))
        } else if typ == TokenType::Nil {
            let id = self.next_id();
            Some(Expr::LiteralExpr(LiteralExpr { id, value: Literal::Nil }))
        } else if typ == TokenType::Number || typ == TokenType::StringToken {
            let id = self.next_id();
            Some(Expr::LiteralExpr(LiteralExpr { id, value: token.literal.clone() }))
        } else if typ == TokenType::Identifier {
            let id = self.next_id();
            Some(Expr::Variable(Variable { id, name: token.clone() }))
        } else if typ == TokenType::This {
            let id = self.next_id();
            Some(Expr::This(This { id, keyword: token.clone() }))
        } else {
            None
        }
    }

    fn terminated(&mut self, end: TokenType, wrong: &'static str, ended: &'static str) -> (r: Result<
        Expr,
        (Token, Soo),
    >)
        requires
            old(self)@.ready(),
        ensures
            (viewed(r), final(self)@) == old(self)@.terminated(end, expecting(wrong@, ended@)),
            final(self)@.ready(),
            old(self)@.advanced(final(self)@),
            fresh_expr(r, old(self)@, final(self)@),
            plain_parsed(r, old(self)@),
            r is Ok ==> final(self)@.id - old(self)@.id < final(self)@.pos - old(self)@.pos,
        decreases old(self)@.remaining(), 21int,
    {
        reveal(ParserView::terminated);
        reveal(ParserView::expression);
        let expression = match self.expression() {
            Ok(expression) => expression,
            Err(e) => {
                return Err(e);
            },
        };
        match self.consume(end, wrong, ended) {
            Ok(_) => Ok(expression),
            Err(e) => Err(e),
        }
    }

    #[verifier::rlimit(40)]
    fn grouping(&mut self) -> (r: Result<Expr, (Token, Soo)>)
        requires
            old(self)@.ready(),
        ensures
            (viewed(r), final(self)@) == old(self)@.grouping(),
            final(self)@.ready(),
            old(self)@.advanced(final(self)@),
            fresh_expr(r, old(self)@, final(self)@),
            plain_parsed(r, old(self)@),
        decreases old(self)@.remaining(), 22int,
    {
        reveal(ParserView::grouping);
        reveal(ParserView::terminated);
        let expression = match self.terminated(
            TokenType::RightParen,
            "Expected ')' after expression.",
            "Expected ')' after expression, instead found end of file.",
        ) {
            Ok(expression) => expression,
            Err(e) => {
                return Err(e);
            },
        };
        let id = self.next_id();
        proof {
            lemma_distinct_pushed(expr_ids(expression@), id, old(self)@.id, id + 1);
        }
        Ok(grouping_node(id, expression))
    }

    fn primary(&mut self) -> (r: Result<Expr, (Token, Soo)>)
        requires
            old(self)@.ready(),
        ensures
            (viewed(r), final(self)@) == old(self)@.primary(),
            final(self)@.ready(),
            old(self)@.advanced(final(self)@),
            fresh_expr(r, old(self)@, final(self)@),
            plain_parsed(r, old(self)@),
        decreases old(self)@.remaining(), 2int,
    {
        reveal(ParserView::primary);
        reveal(ParserView::grouping);
        if self.pos >= self.tokens.len() {
            return Err(
                (self.generate_eof(), Soo::Static("Expected expression, instead found end of file.")),
            );
        }
        let token = self.tokens[self.pos].clone();
        proof {
            if plain_tokens(old(self)@.tokens) {
                lemma_plain_token(old(self)@.tokens, old(self)@.pos);
            }
        }
        self.advance();
        match self.single(&token) {
            Some(expression) => {
                proof {
                    lemma_distinct_one(old(self)@.id as usize, old(self)@.id, old(self)@.id + 1);
                }
                Ok(expression)
            },
            None => {
                if token.typ == TokenType::Super {
                    self.super_rest(token)
                } else if token.typ == TokenType::LeftParen {
                    self.grouping()
                } else {
                    Err((token, Soo::Static("Expected expression.")))
                }
            },
        }
    }

    fn super_rest(&mut self, keyword: Token) -> (r: Result<Expr, (Token, Soo)>)
        requires
            old(self)@.ready(),
        ensures
            (viewed(r), final(self)@) == old(self)@.super_rest(keyword@),
            final(self)@.ready(),
            old(self)@.advanced(final(self)@),
            fresh_expr(r, old(self)@, final(self)@),
            plain_parsed(r, old(self)@),
    {
        match self.consume(
            TokenType::Dot,
            "Expected '.' after 'super'.",
            "Expected '.' after 'super', instead found end of file.",
        ) {
            Ok(_) => {},
            Err(e) => {
                return Err(e);
            },
        }
        let method = match self.consume(
            TokenType::Identifier,
            "Expected superclass method name.",
            "Expected superclass method name, instead found end of file.",
        ) {
            Ok(method) => method,
            Err(e) => {
                return Err(e);
            },
        };
        let id = self.next_id();
        proof {
            lemma_distinct_one(id, old(self)@.id, id + 1);
        }
        Ok(super_node(id, keyword, method))
    }
}

/// What a parsed list of statements stands for.
pub open spec fn viewed_stmts(r: Result<Vec<Stmt>, (Token, Soo)>) -> Result<Seq<StmtView>, Diagnostic> {
    match r {
        Ok(value) => Ok(stmts_view(value@)),
        Err(error) => Err((error.0@, error.1@)),
    }
}

/// What a parsed list of names stands for.
pub open spec fn viewed_tokens(r: Result<Vec<Token>, (Token, Soo)>) -> Result<Seq<TokenView>, Diagnostic> {
    match r {
        Ok(value) => Ok(tokens_view(value@)),
        Err(error) => Err((error.0@, error.1@)),
    }
}

/// What a parsed list of methods stands for.
pub open spec fn viewed_functions(r: Result<Vec<Function>, (Token, Soo)>) -> Result<
    Seq<FunctionView>,
    Diagnostic,
> {
    match r {
        Ok(value) => Ok(functions_view(value@)),
        Err(error) => Err((error.0@, error.1@)),
    }
}

/// What an optional statement stands for.
pub open spec fn option_stmt(value: Option<Stmt>) -> Option<StmtView> {
    match value {
        Some(s) => Some(s@),
        None => None,
    }
}

/// What an optional expression stands for.
pub open spec fn option_expr(value: Option<Expr>) -> Option<ExprView> {
    match value {
        Some(e) => Some(e@),
        None => None,
    }
}

/// What a parsed optional statement stands for.
pub open spec fn viewed_option_stmt(r: Result<Option<Stmt>, (Token, Soo)>) -> Result<
    Option<StmtView>,
    Diagnostic,
> {
    match r {
        Ok(value) => Ok(option_stmt(value)),
        Err(error) => Err((error.0@, error.1@)),
    }
}

/// What a parsed optional expression stands for.
pub open spec fn viewed_option_expr(r: Result<Option<Expr>, (Token, Soo)>) -> Result<
    Option<ExprView>,
    Diagnostic,
> {
    match r {
        Ok(value) => Ok(option_expr(value)),
        Err(error) => Err((error.0@, error.1@)),
    }
}

/// Whether the identifiers of a parsed statement are new.
pub open spec fn fresh_stmt(r: Result<Stmt, (Token, Soo)>, before: ParserView, after: ParserView) -> bool {
    match r {
        Ok(s) => distinct_in(stmt_ids(s@), before.id, after.id),
        Err(_) => true,
    }
}

/// Whether the identifiers of a parsed list of statements are new.
pub open spec fn fresh_stmts(
    r: Result<Vec<Stmt>, (Token, Soo)>,
    before: ParserView,
    after: ParserView,
) -> bool {
    match r {
        Ok(ss) => distinct_in(stmts_ids(stmts_view(ss@), ss@.len() as int), before.id, after.id),
        Err(_) => true,
    }
}

/// The identifier of the variable that names a superclass, if there is one.
pub open spec fn variable_ids(superclass: Option<Variable>) -> Seq<usize> {
    match superclass {
        Some(v) => seq![v.id],
        None => Seq::empty(),
    }
}

/// The identifiers of the expression nodes of an optional statement.
pub open spec fn option_stmt_ids(s: Option<StmtView>) -> Seq<usize> {
    match s {
        Some(s) => stmt_ids(s),
        None => Seq::empty(),
    }
}

/// The identifiers of the expression nodes of a `for` loop, in the order
/// in which the loop written with `while` holds them.
pub open spec fn for_ids(
    initializer: Option<StmtView>,
    condition: ExprView,
    increment: Option<ExprView>,
    body: StmtView,
) -> Seq<usize> {
    option_stmt_ids(initializer) + (expr_ids(condition) + (stmt_ids(body) + option_ids(increment)))
}

/// The identifiers of a list of statements do not depend on what follows
/// the statements counted.
proof fn lemma_stmts_ids_pushed(stmts: Seq<StmtView>, last: StmtView, count: int)
    requires
        count <= stmts.len(),
    ensures
        stmts_ids(stmts.push(last), count) == stmts_ids(stmts, count),
    decreases count,
{
    if count > 0 {
        lemma_stmts_ids_pushed(stmts, last, count - 1);
        assert(stmts.push(last)[count - 1] == stmts[count - 1]);
    }
}

/// The identifiers of a list of functions do not depend on what follows
/// the functions counted.
proof fn lemma_functions_ids_pushed(functions: Seq<FunctionView>, last: FunctionView, count: int)
    requires
        count <= functions.len(),
    ensures
        functions_ids(functions.push(last), count) == functions_ids(functions, count),
    decreases count,
{
    if count > 0 {
        lemma_functions_ids_pushed(functions, last, count - 1);
        assert(functions.push(last)[count - 1] == functions[count - 1]);
    }
}

/// The identifiers of a `for` loop are distinct: those of the initializer,
/// of the condition, of the increment and of the body were handed out one
/// after the other, and where the loop has no condition, the one of the
/// `false` that stands for it was handed out last.
proof fn lemma_for_ids_distinct(
    initializer: Seq<usize>,
    condition: Seq<usize>,
    increment: Seq<usize>,
    body: Seq<usize>,
    lo: int,
    a: int,
    b: int,
    c: int,
    d: int,
    hi: int,
    last: bool,
)
    requires
        lo <= a <= b <= c <= d <= hi,
        distinct_in(initializer, lo, a),
        distinct_in(increment, b, c),
        distinct_in(body, c, d),
        if last {
            a == b && distinct_in(condition, d, hi)
        } else {
            d == hi && distinct_in(condition, a, b)
        },
    ensures
        distinct_in(initializer + (condition + (body + increment)), lo, hi),
{
    lemma_distinct_joined(increment, body, b, c, d);
    if last {
        lemma_distinct_joined(body + increment, condition, b, d, hi);
        lemma_distinct_joined(initializer, condition + (body + increment), lo, a, hi);
    } else {
        lemma_distinct_joined(condition, body + increment, a, b, d);
        lemma_distinct_joined(initializer, condition + (body + increment), lo, a, hi);
    }
}

fn block_node(statements: Vec<Stmt>) -> (r: Stmt)
    ensures
        r@ == (StmtView::Block { statements: stmts_view(statements@) }),
        stmt_ids(r@) == stmts_ids(stmts_view(statements@), statements@.len() as int),
        plain_stmt(r@) == plain_stmts(stmts_view(statements@)),
{
    let r = Stmt::Block { statements };
    assert(r@->Block_statements =~= stmts_view(statements@));
    proof {
        lemma_plain_block(stmts_view(statements@));
    }
    r
}

fn expression_node(expression: Expr) -> (r: Stmt)
    ensures
        r@ == (StmtView::Expression { expression: expression@ }),
        stmt_ids(r@) == expr_ids(expression@),
        plain_stmt(r@) == plain_expr(expression@),
{
    Stmt::Expression { expression: Box::new(expression) }
}

fn print_node(expression: Expr) -> (r: Stmt)
    ensures
        r@ == (StmtView::Print { expression: expression@ }),
        stmt_ids(r@) == expr_ids(expression@),
        plain_stmt(r@) == plain_expr(expression@),
{
    Stmt::Print { expression: Box::new(expression) }
}

fn var_node(name: Token, initializer: Option<Expr>) -> (r: Stmt)
    ensures
        r@ == (StmtView::Var { name: name@, initializer: option_expr(initializer) }),
        stmt_ids(r@) == option_ids(option_expr(initializer)),
        plain_stmt(r@) == (initializer is Some ==> plain_expr(initializer->0@)),
{
    match initializer {
        Some(e) => Stmt::Var { name, initializer: Some(Box::new(e)) },
        None => Stmt::Var { name, initializer: None },
    }
}

fn return_node(keyword: Token, value: Option<Expr>) -> (r: Stmt)
    ensures
        r@ == (StmtView::Return { keyword: keyword@, value: option_expr(value) }),
        stmt_ids(r@) == option_ids(option_expr(value)),
        plain_stmt(r@) == (value is Some ==> plain_expr(value->0@)),
{
    match value {
        Some(e) => Stmt::Return { keyword, value: Some(Box::new(e)) },
        None => Stmt::Return { keyword, value: None },
    }
}

fn if_node(condition: Expr, then_branch: Stmt, else_branch: Option<Stmt>) -> (r: Stmt)
    ensures
        r@ == (StmtView::If {
            condition: condition@,
            then_branch: Box::new(then_branch@),
            else_branch: match else_branch {
                Some(s) => Some(Box::new(s@)),
                None => None,
            },
        }),
        stmt_ids(r@) == expr_ids(condition@) + stmt_ids(then_branch@) + option_stmt_ids(
            option_stmt(else_branch),
        ),
        plain_stmt(r@) == (plain_expr(condition@) && plain_stmt(then_branch@) && (else_branch
            is Some ==> plain_stmt(else_branch->0@))),
{
    match else_branch {
        Some(s) => Stmt::If {
            condition: Box::new(condition),
            then_branch: Box::new(then_branch),
            else_branch: Some(Box::new(s)),
        },
        None => Stmt::If {
            condition: Box::new(condition),
            then_branch: Box::new(then_branch),
            else_branch: None,
        },
    }
}

fn while_node(condition: Expr, body: Stmt) -> (r: Stmt)
    ensures
        r@ == (StmtView::While { condition: condition@, body: Box::new(body@) }),
        stmt_ids(r@) == expr_ids(condition@) + stmt_ids(body@),
        plain_stmt(r@) == (plain_expr(condition@) && plain_stmt(body@)),
{
    Stmt::While { condition: Box::new(condition), body: Box::new(body) }
}

fn function_node(name: Token, params: Vec<Token>, body: Vec<Stmt>) -> (r: Function)
    ensures
        r@ == (FunctionView { name: name@, params: tokens_view(params@), body: stmts_view(body@) }),
{
    let r = Function { name, params, body };
    assert(r@.body =~= stmts_view(body@));
    r
}

fn function_statement(function: Function) -> (r: Stmt)
    ensures
        r@ == StmtView::Function(function@),
        stmt_ids(r@) == stmts_ids(function@.body, function@.body.len() as int),
        plain_stmt(r@) == plain_function(function@),
{
    reveal(plain_stmts);
    Stmt::Function(function)
}

fn class_node(name: Token, superclass: Option<Variable>, methods: Vec<Function>) -> (r: Stmt)
    ensures
        r@ == (StmtView::Class {
            name: name@,
            superclass: match superclass {
                Some(v) => Some(ExprView::Variable { id: v.id, name: v.name@ }),
                None => None,
            },
            methods: functions_view(methods@),
        }),
        stmt_ids(r@) == variable_ids(superclass) + functions_ids(
            functions_view(methods@),
            methods@.len() as int,
        ),
        plain_functions(functions_view(methods@)) ==> plain_stmt(r@),
{
    let r = Stmt::Class { name, superclass, methods };
    assert(r@->Class_methods =~= functions_view(methods@));
    proof {
        lemma_plain_class(r@);
    }
    r
}

fn false_node(id: usize) -> (r: Expr)
    ensures
        r@ == (ExprView::LiteralExpr { id, value: crate::token::LiteralView::BoolLiteral(false) }),
        expr_ids(r@) == seq![id],
        plain_expr(r@),
{
    Expr::LiteralExpr(LiteralExpr { id, value: Literal::BoolLiteral(false) })
}

/// Writes a `for` loop with `while`.
fn desugar_for(initializer: Option<Stmt>, condition: Expr, increment: Option<Expr>, body: Stmt) -> (r:
    Stmt)
    ensures
        r@ == desugared_for(option_stmt(initializer), condition@, option_expr(increment), body@),
        stmt_ids(r@) == for_ids(
            option_stmt(initializer),
            condition@,
            option_expr(increment),
            body@,
        ),
        (initializer is Some ==> plain_stmt(initializer->0@)) && plain_expr(condition@) && (
        increment is Some ==> plain_expr(increment->0@)) && plain_stmt(body@) ==> plain_stmt(r@),
{
    reveal_with_fuel(stmts_ids, 3);
    let ghost within = stmt_ids(body@) + option_ids(option_expr(increment));
    let inner = match increment {
        Some(expression) => {
            let mut statements: Vec<Stmt> = Vec::new();
            statements.push(body);
            statements.push(expression_node(expression));
            assert(stmts_view(statements@) =~= seq![body@, StmtView::Expression { expression: expression@ }]);
            proof {
                if plain_stmt(body@) && plain_expr(expression@) {
                    lemma_plain_stmts_pair(body@, StmtView::Expression { expression: expression@ });
                }
            }
            let block = block_node(statements);
            assert(stmt_ids(block@) =~= within);
            block
        },
        None => {
            assert(stmt_ids(body@) =~= within);
            body
        },
    };
    let looped = while_node(condition, inner);
    match initializer {
        Some(first) => {
            let mut statements: Vec<Stmt> = Vec::new();
            statements.push(first);
            statements.push(looped);
            assert(stmts_view(statements@) =~= seq![first@, looped@]);
            proof {
                if plain_stmt(first@) && plain_stmt(looped@) {
                    lemma_plain_stmts_pair(first@, looped@);
                }
            }
            let block = block_node(statements);
            assert(stmt_ids(block@) =~= stmt_ids(first@) + stmt_ids(looped@));
            block
        },
        None => {
            assert(stmt_ids(looped@) =~= Seq::<usize>::empty() + stmt_ids(looped@));
            looped
        },
    }
}

fn begins_statement(typ: TokenType) -> (r: bool)
    ensures
        r == starts_statement(typ),
{
    typ == TokenType::Class || typ == TokenType::Fun || typ == TokenType::Var || typ
        == TokenType::For || typ == TokenType::If || typ == TokenType::While || typ
        == TokenType::Print || typ == TokenType::Return
}

impl Parser {
    fn synchronize(&mut self)
        requires
            old(self)@.ready(),
        ensures
            final(self)@ == old(self)@.synchronize(),
            final(self)@.ready(),
            old(self)@.reached(final(self)@),
    {
        loop
            invariant
                self@.ready(),
                old(self)@.reached(self@),
                old(self)@.synchronize() == self@.synchronize(),
            decreases self@.remaining(),
        {
            if self.pos >= self.tokens.len() {
                return ;
            }
            let typ = self.tokens[self.pos].typ;
            self.pos += 1;
            if typ == TokenType::Semicolon {
                return ;
            }
            if self.pos < self.tokens.len() && begins_statement(self.tokens[self.pos].typ) {
                return ;
            }
        }
    }

    /// Parses a declaration; after a diagnostic, skips to where the next
    /// statement may begin.
    pub fn declaration(&mut self) -> (r: Result<Stmt, (Token, Soo)>)
        requires
            old(self)@.ready(),
        ensures
            (viewed(r), final(self)@) == old(self)@.declaration(),
            final(self)@.ready(),
            old(self)@.advanced(final(self)@),
            fresh_stmt(r, old(self)@, final(self)@),
            plain_parsed_stmt(r, old(self)@),
        decreases old(self)@.remaining(), 40int,
    {
        reveal(ParserView::declaration);
        reveal(ParserView::class_declaration);
        reveal(ParserView::function);
        reveal(ParserView::var_declaration);
        reveal(ParserView::statement);
        let parsed = if self.check(TokenType::Class) {
            self.advance();
            self.class_declaration()
        } else if self.check(TokenType::Fun) {
            self.advance();
            match self.function(false) {
                Ok(function) => Ok(function_statement(function)),
                Err(e) => Err(e),
            }
        } else if self.check(TokenType::Var) {
            self.advance();
            self.var_declaration()
        } else {
            self.statement()
        };
        if parsed.is_err() {
            self.synchronize();
        }
        parsed
    }

    fn statement(&mut self) -> (r: Result<Stmt, (Token, Soo)>)
        requires
            old(self)@.ready(),
        ensures
            (viewed(r), final(self)@) == old(self)@.statement(),
            final(self)@.ready(),
            old(self)@.advanced(final(self)@),
            fresh_stmt(r, old(self)@, final(self)@),
            plain_parsed_stmt(r, old(self)@),
        decreases old(self)@.remaining(), 39int,
    {
        reveal(ParserView::statement);
        reveal(ParserView::for_statement);
        reveal(ParserView::if_statement);
        reveal(ParserView::print_statement);
        reveal(ParserView::return_statement);
        reveal(ParserView::while_statement);
        reveal(ParserView::block);
        reveal(ParserView::expression_statement);
        if self.check(TokenType::For) {
            self.advance();
            self.for_statement()
        } else if self.check(TokenType::If) {
            self.advance();
            self.if_statement()
        } else if self.check(TokenType::Print) {
            self.advance();
            self.print_statement()
        } else if self.check(TokenType::Return) {
            let keyword = self.tokens[self.pos].clone();
            self.advance();
            self.return_statement(keyword)
        } else if self.check(TokenType::While) {
            self.advance();
            self.while_statement()
        } else if self.check(TokenType::LeftBrace) {
            match self.block() {
                Ok(statements) => Ok(block_node(statements)),
                Err(e) => Err(e),
            }
        } else if self.at_end() {
            Err(self.error("Expected a statement."))
        } else {
            self.expression_statement()
        }
    }

    fn expression_statement(&mut self) -> (r: Result<Stmt, (Token, Soo)>)
        requires
            old(self)@.ready(),
        ensures
            (viewed(r), final(self)@) == old(self)@.expression_statement(),
            final(self)@.ready(),
            old(self)@.advanced(final(self)@),
            fresh_stmt(r, old(self)@, final(self)@),
            plain_parsed_stmt(r, old(self)@),
        decreases old(self)@.remaining(), 38int,
    {
        reveal(ParserView::expression_statement);
        reveal(ParserView::terminated);
        match self.terminated(
            TokenType::Semicolon,
            "Expected ';' after expression.",
            "Expected ';' after expression, instead found end of file.",
        ) {
            Ok(expression) => Ok(expression_node(expression)),
            Err(e) => Err(e),
        }
    }

    fn print_statement(&mut self) -> (r: Result<Stmt, (Token, Soo)>)
        requires
            old(self)@.ready(),
        ensures
            (viewed(r), final(self)@) == old(self)@.print_statement(),
            final(self)@.ready(),
            old(self)@.advanced(final(self)@),
            fresh_stmt(r, old(self)@, final(self)@),
            plain_parsed_stmt(r, old(self)@),
        decreases old(self)@.remaining(), 38int,
    {
        reveal(ParserView::print_statement);
        reveal(ParserView::terminated);
        match self.terminated(
            TokenType::Semicolon,
            "Expected ';' after value.",
            "Expected ';' after value, instead found end of file.",
        ) {
            Ok(expression) => Ok(print_node(expression)),
            Err(e) => Err(e),
        }
    }

    fn var_declaration(&mut self) -> (r: Result<Stmt, (Token, Soo)>)
        requires
            old(self)@.ready(),
        ensures
            (viewed(r), final(self)@) == old(self)@.var_declaration(),
            final(self)@.ready(),
            old(self)@.advanced(final(self)@),
            fresh_stmt(r, old(self)@, final(self)@),
            plain_parsed_stmt(r, old(self)@),
        decreases old(self)@.remaining(), 38int,
    {
        reveal(ParserView::var_declaration);
        reveal(ParserView::terminated);
        let name = match self.consume(
            TokenType::Identifier,
            "Expected variable name.",
            "Expected variable name, instead found end of file.",
        ) {
            Ok(name) => name,
            Err(e) => {
                return Err(e);
            },
        };
        if self.check(TokenType::Equal) {
            self.advance();
            match self.terminated(
                TokenType::Semicolon,
                "Expected ';' after variable declaration.",
                "Expected ';' after variable declaration, instead found end of file.",
            ) {
                Ok(expression) => Ok(var_node(name, Some(expression))),
                Err(e) => Err(e),
            }
        } else {
            match self.consume(
                TokenType::Semicolon,
                "Expected ';' after variable declaration.",
                "Expected ';' after variable declaration, instead found end of file.",
            ) {
                Ok(_) => {
                    proof {
                        lemma_distinct_empty(old(self)@.id, self@.id);
                    }
                    Ok(var_node(name, None))
                },
                Err(e) => Err(e),
            }
        }
    }

    fn return_statement(&mut self, keyword: Token) -> (r: Result<Stmt, (Token, Soo)>)
        requires
            old(self)@.ready(),
        ensures
            (viewed(r), final(self)@) == old(self)@.return_statement(keyword@),
            final(self)@.ready(),
            old(self)@.advanced(final(self)@),
            fresh_stmt(r, old(self)@, final(self)@),
            plain_parsed_stmt(r, old(self)@),
        decreases old(self)@.remaining(), 38int,
    {
        reveal(ParserView::return_statement);
        reveal(ParserView::terminated);
        if self.check(TokenType::Semicolon) {
            self.advance();
            proof {
                lemma_distinct_empty(old(self)@.id, self@.id);
            }
            Ok(return_node(keyword, None))
        } else {
            match self.terminated(
                TokenType::Semicolon,
                "Expected ';' after return value.",
                "Expected ';' after return value, instead found end of file.",
            ) {
                Ok(expression) => Ok(return_node(keyword, Some(expression))),
                Err(e) => Err(e),
            }
        }
    }

    fn if_statement(&mut self) -> (r: Result<Stmt, (Token, Soo)>)
        requires
            old(self)@.ready(),
        ensures
            (viewed(r), final(self)@) == old(self)@.if_statement(),
            final(self)@.ready(),
            old(self)@.advanced(final(self)@),
            fresh_stmt(r, old(self)@, final(self)@),
            plain_parsed_stmt(r, old(self)@),
        decreases old(self)@.remaining(), 38int,
    {
        reveal(ParserView::if_statement);
        reveal(ParserView::terminated);
        reveal(ParserView::statement);
        match self.consume(
            TokenType::LeftParen,
            "Expected '(' after 'if'.",
            "Expected '(' after 'if', instead found end of file.",
        ) {
            Ok(_) => {},
            Err(e) => {
                return Err(e);
            },
        }
        let condition = match self.terminated(
            TokenType::RightParen,
            "Expected ')' after 'if' condition.",
            "Expected ')' after 'if' condition, instead found end of file.",
        ) {
            Ok(condition) => condition,
            Err(e) => {
                return Err(e);
            },
        };
        let ghost lo = old(self)@.id;
        let ghost a = self@.id;
        let then_branch = match self.statement() {
            Ok(statement) => statement,
            Err(e) => {
                return Err(e);
            },
        };
        let ghost b = self@.id;
        proof {
            lemma_distinct_joined(expr_ids(condition@), stmt_ids(then_branch@), lo, a, b);
        }
        if self.check(TokenType::Else) {
            self.advance();
            match self.statement() {
                Ok(else_branch) => {
                    proof {
                        lemma_distinct_joined(
                            expr_ids(condition@) + stmt_ids(then_branch@),
                            stmt_ids(else_branch@),
                            lo,
                            b,
                            self@.id,
                        );
                    }
                    Ok(if_node(condition, then_branch, Some(else_branch)))
                },
                Err(e) => Err(e),
            }
        } else {
            proof {
                assert(expr_ids(condition@) + stmt_ids(then_branch@) + Seq::<usize>::empty()
                    =~= expr_ids(condition@) + stmt_ids(then_branch@));
            }
            Ok(if_node(condition, then_branch, None))
        }
    }

    fn while_statement(&mut self) -> (r: Result<Stmt, (Token, Soo)>)
        requires
            old(self)@.ready(),
        ensures
            (viewed(r), final(self)@) == old(self)@.while_statement(),
            final(self)@.ready(),
            old(self)@.advanced(final(self)@),
            fresh_stmt(r, old(self)@, final(self)@),
            plain_parsed_stmt(r, old(self)@),
        decreases old(self)@.remaining(), 38int,
    {
        reveal(ParserView::while_statement);
        reveal(ParserView::terminated);
        reveal(ParserView::statement);
        match self.consume(
            TokenType::LeftParen,
            "Expected '(' after 'while'.",
            "Expected '(' after 'while', instead found end of file.",
        ) {
            Ok(_) => {},
            Err(e) => {
                return Err(e);
            },
        }
        let condition = match self.terminated(
            TokenType::RightParen,
            "Expected ')' after condition.",
            "Expected ')' after condition, instead found end of file.",
        ) {
            Ok(condition) => condition,
            Err(e) => {
                return Err(e);
            },
        };
        let ghost lo = old(self)@.id;
        let ghost a = self@.id;
        match self.statement() {
            Ok(body) => {
                proof {
                    lemma_distinct_joined(expr_ids(condition@), stmt_ids(body@), lo, a, self@.id);
                }
                Ok(while_node(condition, body))
            },
            Err(e) => Err(e),
        }
    }

    fn for_initializer(&mut self) -> (r: Result<Option<Stmt>, (Token, Soo)>)
        requires
            old(self)@.ready(),
        ensures
            (viewed_option_stmt(r), final(self)@) == old(self)@.for_initializer(),
            final(self)@.ready(),
            old(self)@.advanced(final(self)@),
            r is Ok ==> distinct_in(
                option_stmt_ids(option_stmt(r->Ok_0)),
                old(self)@.id,
                final(self)@.id,
            ),
            plain_tokens(old(self)@.tokens) && r is Ok && r->Ok_0 is Some ==> plain_stmt(
                r->Ok_0->0@,
            ),
        decreases old(self)@.remaining(), 39int,
    {
        reveal(ParserView::for_initializer);
        reveal(ParserView::var_declaration);
        reveal(ParserView::expression_statement);
        if self.check(TokenType::Semicolon) {
            self.advance();
            proof {
                lemma_distinct_empty(old(self)@.id, self@.id);
            }
            return Ok(None);
        }
        let initializer = if self.check(TokenType::Var) {
            self.advance();
            self.var_declaration()
        } else {
            self.expression_statement()
        };
        match initializer {
            Ok(statement) => Ok(Some(statement)),
            Err(e) => Err(e),
        }
    }

    fn for_clause(&mut self, end: TokenType, wrong: &'static str, ended: &'static str) -> (r: Result<
        Option<Expr>,
        (Token, Soo),
    >)
        requires
            old(self)@.ready(),
        ensures
            (viewed_option_expr(r), final(self)@) == old(self)@.for_clause(
                end,
                expecting(wrong@, ended@),
            ),
            final(self)@.ready(),
            old(self)@.advanced(final(self)@),
            r is Ok ==> distinct_in(
                option_ids(option_expr(r->Ok_0)),
                old(self)@.id,
                final(self)@.id,
            ),
            plain_tokens(old(self)@.tokens) && r is Ok && r->Ok_0 is Some ==> plain_expr(
                r->Ok_0->0@,
            ),
        decreases old(self)@.remaining(), 37int,
    {
        reveal(ParserView::for_clause);
        reveal(ParserView::expression);
        if self.check(end) {
            self.advance();
            proof {
                lemma_distinct_empty(old(self)@.id, self@.id);
            }
            return Ok(None);
        }
        let clause = match self.expression() {
            Ok(clause) => clause,
            Err(e) => {
                return Err(e);
            },
        };
        match self.consume(end, wrong, ended) {
            Ok(_) => Ok(Some(clause)),
            Err(e) => Err(e),
        }
    }

    fn for_statement(&mut self) -> (r: Result<Stmt, (Token, Soo)>)
        requires
            old(self)@.ready(),
        ensures
            (viewed(r), final(self)@) == old(self)@.for_statement(),
            final(self)@.ready(),
            old(self)@.advanced(final(self)@),
            fresh_stmt(r, old(self)@, final(self)@),
            plain_parsed_stmt(r, old(self)@),
        decreases old(self)@.remaining(), 38int,
    {
        reveal(ParserView::for_statement);
        reveal(ParserView::for_initializer);
        reveal(ParserView::for_clause);
        reveal(ParserView::statement);
        match self.consume(
            TokenType::LeftParen,
            "Expected '(' after 'for'.",
            "Expected '(' after 'for', instead found end of file.",
        ) {
            Ok(_) => {},
            Err(e) => {
                return Err(e);
            },
        }
        let ghost lo = old(self)@.id;
        let initializer = match self.for_initializer() {
            Ok(initializer) => initializer,
            Err(e) => {
                return Err(e);
            },
        };
        let ghost a = self@.id;
        let condition = match self.for_clause(
            TokenType::Semicolon,
            "Expected ';' after loop condition.",
            "Expected ';' after loop condition, instead found end of file.",
        ) {
            Ok(condition) => condition,
            Err(e) => {
                return Err(e);
            },
        };
        let ghost b = self@.id;
        let increment = match self.for_clause(
            TokenType::RightParen,
            "Expected ')' after for clauses.",
            "Expected ')' after for clauses, instead found end of file.",
        ) {
            Ok(increment) => increment,
            Err(e) => {
                return Err(e);
            },
        };
        let ghost c = self@.id;
        let body = match self.statement() {
            Ok(body) => body,
            Err(e) => {
                return Err(e);
            },
        };
        let ghost d = self@.id;
        match condition {
            Some(condition) => {
                proof {
                    lemma_for_ids_distinct(
                        option_stmt_ids(option_stmt(initializer)),
                        expr_ids(condition@),
                        option_ids(option_expr(increment)),
                        stmt_ids(body@),
                        lo,
                        a,
                        b,
                        c,
                        d,
                        d,
                        false,
                    );
                }
                Ok(desugar_for(initializer, condition, increment, body))
            },
            None => {
                let id = self.next_id();
                proof {
                    lemma_distinct_one(id, d, d + 1);
                    lemma_for_ids_distinct(
                        option_stmt_ids(option_stmt(initializer)),
                        seq![id],
                        option_ids(option_expr(increment)),
                        stmt_ids(body@),
                        lo,
                        a,
                        b,
                        c,
                        d,
                        d + 1,
                        true,
                    );
                }
                Ok(desugar_for(initializer, false_node(id), increment, body))
            },
        }
    }

    fn block(&mut self) -> (r: Result<Vec<Stmt>, (Token, Soo)>)
        requires
            old(self)@.ready(),
        ensures
            (viewed_stmts(r), final(self)@) == old(self)@.block(),
            final(self)@.ready(),
            old(self)@.advanced(final(self)@),
            fresh_stmts(r, old(self)@, final(self)@),
            plain_parsed_stmts(r, old(self)@),
        decreases old(self)@.remaining(), 38int,
    {
        reveal(ParserView::block);
        reveal(ParserView::block_rest);
        reveal(ParserView::declaration);
        if self.at_end() {
            return Err(self.error("Expected '}' after block."));
        }
        self.advance();
        let mut statements: Vec<Stmt> = Vec::new();
        assert(stmts_view(statements@) =~= Seq::<StmtView>::empty());
        proof {
            lemma_distinct_empty(old(self)@.id, old(self)@.id);
            lemma_plain_stmts_empty();
        }
        loop
            invariant
                self@.ready(),
                old(self)@.ready(),
                old(self)@.advanced(self@),
                old(self)@.pos < self@.pos,
                old(self)@.block() == self@.block_rest(stmts_view(statements@)),
                distinct_in(
                    stmts_ids(stmts_view(statements@), statements@.len() as int),
                    old(self)@.id,
                    self@.id,
                ),
                plain_tokens(old(self)@.tokens) ==> plain_stmts(stmts_view(statements@)),
            decreases self@.remaining(),
        {
            reveal(ParserView::block_rest);
            reveal(ParserView::declaration);
            if self.at_end() {
                return Err(self.error("Expected '}' after block."));
            }
            if self.check(TokenType::RightBrace) {
                self.advance();
                return Ok(statements);
            }
            let ghost before = stmts_view(statements@);
            let ghost mid = self@.id;
            match self.declaration() {
                Ok(statement) => {
                    statements.push(statement);
                    assert(stmts_view(statements@) =~= before.push(statement@));
                    proof {
                        if plain_tokens(old(self)@.tokens) {
                            lemma_plain_stmts_pushed(before, statement@);
                        }
                        lemma_stmts_ids_pushed(before, statement@, before.len() as int);
                        lemma_distinct_joined(
                            stmts_ids(before, before.len() as int),
                            stmt_ids(statement@),
                            old(self)@.id,
                            mid,
                            self@.id,
                        );
                    }
                },
                Err(e) => {
                    return Err(e);
                },
            }
        }
    }

    fn parameters(&mut self) -> (r: Result<Vec<Token>, (Token, Soo)>)
        requires
            old(self)@.ready(),
        ensures
            (viewed_tokens(r), final(self)@) == old(self)@.parameters(Seq::empty()),
            final(self)@.ready(),
            old(self)@.advanced(final(self)@),
            final(self)@.id == old(self)@.id,
    {
        reveal(ParserView::parameters);
        let mut params: Vec<Token> = Vec::new();
        assert(tokens_view(params@) =~= Seq::<TokenView>::empty());
        loop
            invariant
                self@.ready(),
                old(self)@.ready(),
                old(self)@.reached(self@),
                self@.id == old(self)@.id,
                params@.len() > 0 ==> old(self)@.advanced(self@),
                old(self)@.parameters(Seq::empty()) == self@.parameters(tokens_view(params@)),
            decreases self@.remaining(),
        {
            reveal(ParserView::parameters);
            if params.len() >= 255 {
                self.report_error("Can't have more than 255 parameters.");
            }
            let ghost before = tokens_view(params@);
            match self.consume(
                TokenType::Identifier,
                "Expected parameter name.",
                "Expected parameter name, instead found end of file.",
            ) {
                Ok(name) => {
                    params.push(name);
                    assert(tokens_view(params@) =~= before.push(name@));
                },
                Err(e) => {
                    return Err(e);
                },
            }
            if self.check(TokenType::Comma) {
                self.advance();
            } else {
                return Ok(params);
            }
        }
    }

    fn function(&mut self, method: bool) -> (r: Result<Function, (Token, Soo)>)
        requires
            old(self)@.ready(),
        ensures
            (viewed(r), final(self)@) == old(self)@.function(method),
            final(self)@.ready(),
            old(self)@.advanced(final(self)@),
            r is Ok ==> distinct_in(
                stmts_ids(r->Ok_0@.body, r->Ok_0@.body.len() as int),
                old(self)@.id,
                final(self)@.id,
            ),
            plain_tokens(old(self)@.tokens) && r is Ok ==> plain_function(r->Ok_0@),
        decreases old(self)@.remaining(), 42int,
    {
        reveal(ParserView::function);
        reveal(ParserView::parameters);
        reveal(ParserView::block);
        let name = match (if method {
            self.consume(
                TokenType::Identifier,
                "Expected method name.",
                "Expected method name, instead found end of file.",
            )
        } else {
            self.consume(
                TokenType::Identifier,
                "Expected function name.",
                "Expected function name, instead found end of file.",
            )
        }) {
            Ok(name) => name,
            Err(e) => {
                return Err(e);
            },
        };
        match (if method {
            self.consume(
                TokenType::LeftParen,
                "Expected '(' after method name.",
                "Expected '(' after method name, instead found end of file.",
            )
        } else {
            self.consume(
                TokenType::LeftParen,
                "Expected '(' after function name.",
                "Expected '(' after function name, instead found end of file.",
            )
        }) {
            Ok(_) => {},
            Err(e) => {
                return Err(e);
            },
        }
        let params = if self.check(TokenType::RightParen) {
            let params: Vec<Token> = Vec::new();
            assert(tokens_view(params@) =~= Seq::<TokenView>::empty());
            params
        } else {
            match self.parameters() {
                Ok(params) => params,
                Err(e) => {
                    return Err(e);
                },
            }
        };
        match self.consume(
            TokenType::RightParen,
            "Expected ')' after parameters.",
            "Expected ')' after parameters, instead found end of file.",
        ) {
            Ok(_) => {},
            Err(e) => {
                return Err(e);
            },
        }
        if !self.check(TokenType::LeftBrace) {
            return Err(
                if method {
                    self.missing(
                        "Expected '{' before method body.",
                        "Expected '{' before method body, instead found end of file.",
                    )
                } else {
                    self.missing(
                        "Expected '{' before function body.",
                        "Expected '{' before function body, instead found end of file.",
                    )
                },
            );
        }
        match self.block() {
            Ok(body) => Ok(function_node(name, params, body)),
            Err(e) => Err(e),
        }
    }

    fn methods(&mut self) -> (r: Result<Vec<Function>, (Token, Soo)>)
        requires
            old(self)@.ready(),
        ensures
            (viewed_functions(r), final(self)@) == old(self)@.methods(Seq::empty()),
            final(self)@.ready(),
            old(self)@.reached(final(self)@),
            r is Ok ==> distinct_in(
                functions_ids(functions_view(r->Ok_0@), r->Ok_0@.len() as int),
                old(self)@.id,
                final(self)@.id,
            ),
            plain_tokens(old(self)@.tokens) && r is Ok ==> plain_functions(
                functions_view(r->Ok_0@),
            ),
        decreases old(self)@.remaining(), 44int,
    {
        reveal(ParserView::methods);
        reveal(ParserView::function);
        let mut methods: Vec<Function> = Vec::new();
        assert(functions_view(methods@) =~= Seq::<FunctionView>::empty());
        proof {
            lemma_distinct_empty(old(self)@.id, old(self)@.id);
            lemma_plain_functions_empty();
        }
        loop
            invariant
                self@.ready(),
                old(self)@.ready(),
                old(self)@.reached(self@),
                old(self)@.methods(Seq::empty()) == self@.methods(functions_view(methods@)),
                distinct_in(
                    functions_ids(functions_view(methods@), methods@.len() as int),
                    old(self)@.id,
                    self@.id,
                ),
                plain_tokens(old(self)@.tokens) ==> plain_functions(functions_view(methods@)),
            decreases self@.remaining(),
        {
            reveal(ParserView::methods);
            reveal(ParserView::function);
            if self.at_end() || self.check(TokenType::RightBrace) {
                return Ok(methods);
            }
            let ghost before = functions_view(methods@);
            let ghost mid = self@.id;
            match self.function(true) {
                Ok(method) => {
                    methods.push(method);
                    assert(functions_view(methods@) =~= before.push(method@));
                    proof {
                        if plain_tokens(old(self)@.tokens) {
                            lemma_plain_functions_pushed(before, method@);
                        }
                        lemma_functions_ids_pushed(before, method@, before.len() as int);
                        lemma_distinct_joined(
                            functions_ids(before, before.len() as int),
                            stmts_ids(method@.body, method@.body.len() as int),
                            old(self)@.id,
                            mid,
                            self@.id,
                        );
                    }
                },
                Err(e) => {
                    return Err(e);
                },
            }
        }
    }

    fn superclass(&mut self) -> (r: Result<Option<Variable>, (Token, Soo)>)
        requires
            old(self)@.ready(),
        ensures
            (
                match r {
                    Ok(Some(v)) => Ok(Some(ExprView::Variable { id: v.id, name: v.name@ })),
                    Ok(None) => Ok(None),
                    Err(e) => Err((e.0@, e.1@)),
                },
                final(self)@,
            ) == old(self)@.superclass(),
            final(self)@.ready(),
            old(self)@.reached(final(self)@),
            match r {
                Ok(Some(v)) => v.id == old(self)@.id && final(self)@.id == old(self)@.id + 1,
                Ok(None) => final(self)@.id == old(self)@.id,
                Err(_) => true,
            },
    {
        if self.check(TokenType::Less) {
            self.advance();
            match self.consume(
                TokenType::Identifier,
                "Expected superclass name.",
                "Expected superclass name, instead found end of file.",
            ) {
                Ok(name) => {
                    let id = self.next_id();
                    Ok(Some(Variable { id, name }))
                },
                Err(e) => Err(e),
            }
        } else {
            Ok(None)
        }
    }

    fn class_declaration(&mut self) -> (r: Result<Stmt, (Token, Soo)>)
        requires
            old(self)@.ready(),
        ensures
            (viewed(r), final(self)@) == old(self)@.class_declaration(),
            final(self)@.ready(),
            old(self)@.advanced(final(self)@),
            fresh_stmt(r, old(self)@, final(self)@),
            plain_parsed_stmt(r, old(self)@),
        decreases old(self)@.remaining(), 46int,
    {
        reveal(ParserView::class_declaration);
        reveal(ParserView::methods);
        let name = match self.consume(
            TokenType::Identifier,
            "Expected class name.",
            "Expected class name, instead found end of file.",
        ) {
            Ok(name) => name,
            Err(e) => {
                return Err(e);
            },
        };
        let ghost lo = old(self)@.id;
        let superclass = match self.superclass() {
            Ok(superclass) => superclass,
            Err(e) => {
                return Err(e);
            },
        };
        let ghost a = self@.id;
        let ghost above: Seq<usize> = variable_ids(superclass);
        proof {
            if superclass is Some {
                lemma_distinct_one(superclass->0.id, lo, a);
            } else {
                lemma_distinct_empty(lo, a);
            }
        }
        match self.consume(
            TokenType::LeftBrace,
            "Expected '{' before class body.",
            "Expected '{' before class body, instead found end of file.",
        ) {
            Ok(_) => {},
            Err(e) => {
                return Err(e);
            },
        }
        let methods = match self.methods() {
            Ok(methods) => methods,
            Err(e) => {
                return Err(e);
            },
        };
        match self.consume(
            TokenType::RightBrace,
            "Expected '}' after class body.",
            "Expected '}' after class body, instead found end of file.",
        ) {
            Ok(_) => {
                proof {
                    lemma_distinct_joined(
                        above,
                        functions_ids(functions_view(methods@), methods@.len() as int),
                        lo,
                        a,
                        self@.id,
                    );
                }
                Ok(class_node(name, superclass, methods))
            },
            Err(e) => Err(e),
        }
    }

    /// Parses every declaration up to the end of input.
    pub fn program(&mut self) -> (statements: Vec<Stmt>)
        requires
            old(self)@.ready(),
        ensures
            (stmts_view(statements@), final(self)@) == old(self)@.program(Seq::empty()),
            final(self)@.ready(),
            old(self)@.reached(final(self)@),
            distinct_in(
                stmts_ids(stmts_view(statements@), statements@.len() as int),
                old(self)@.id,
                final(self)@.id,
            ),
            plain_tokens(old(self)@.tokens) ==> plain_stmts(stmts_view(statements@)),
    {
        reveal(ParserView::program);
        reveal(ParserView::declaration);
        let mut statements: Vec<Stmt> = Vec::new();
        assert(stmts_view(statements@) =~= Seq::<StmtView>::empty());
        proof {
            lemma_distinct_empty(old(self)@.id, old(self)@.id);
            lemma_plain_stmts_empty();
        }
        while !self.at_end()
            invariant
                self@.ready(),
                old(self)@.reached(self@),
                old(self)@.program(Seq::empty()) == self@.program(stmts_view(statements@)),
                distinct_in(
                    stmts_ids(stmts_view(statements@), statements@.len() as int),
                    old(self)@.id,
                    self@.id,
                ),
                plain_tokens(old(self)@.tokens) ==> plain_stmts(stmts_view(statements@)),
            decreases self@.remaining(),
        {
            reveal(ParserView::program);
            reveal(ParserView::declaration);
            let ghost before = stmts_view(statements@);
            let ghost mid = self@.id;
            match self.declaration() {
                Ok(statement) => {
                    statements.push(statement);
                    assert(stmts_view(statements@) =~= before.push(statement@));
                    proof {
                        if plain_tokens(old(self)@.tokens) {
                            lemma_plain_stmts_pushed(before, statement@);
                        }
                        lemma_stmts_ids_pushed(before, statement@, before.len() as int);
                        lemma_distinct_joined(
                            stmts_ids(before, before.len() as int),
                            stmt_ids(statement@),
                            old(self)@.id,
                            mid,
                            self@.id,
                        );
                    }
                },
                Err(e) => {
                    let ghost errors = self@.errors;
                    self.errors.push(e);
                    assert(self@.errors =~= errors.push((e.0@, e.1@)));
                    proof {
                        lemma_distinct_wider(
                            stmts_ids(before, before.len() as int),
                            old(self)@.id,
                            mid,
                            old(self)@.id,
                            self@.id,
                        );
                    }
                },
            }
        }
        statements
    }
}

/// Parses `tokens`, numbering the expressions from `id` on; `id` then
/// stands past the last number used.
pub fn parse_from(tokens: Vec<Token>, id: &mut ExprId) -> (r: Result<Vec<Stmt>, Vec<(Token, Soo)>>)
    requires
        old(id)@ + tokens@.len() <= usize::MAX,
    ensures
        match r {
            Ok(statements) => parsed(tokens_view(tokens@), old(id)@ as int) == Ok::<
                Seq<StmtView>,
                Seq<Diagnostic>,
            >(stmts_view(statements@)),
            Err(errors) => parsed(tokens_view(tokens@), old(id)@ as int) == Err::<
                Seq<StmtView>,
                Seq<Diagnostic>,
            >(errors_view(errors@)),
        },
        old(id)@ <= final(id)@ <= old(id)@ + tokens@.len(),
        r is Ok ==> distinct_in(
            stmts_ids(stmts_view(r->Ok_0@), r->Ok_0@.len() as int),
            old(id)@ as int,
            final(id)@ as int,
        ),
        r is Ok && plain_tokens(tokens_view(tokens@)) ==> plain_stmts(stmts_view(r->Ok_0@)),
{
    let line_count = if tokens.len() > 0 {
        tokens[tokens.len() - 1].line
    } else {
        0
    };
    let mut parser = Parser { tokens, pos: 0, id: ExprId(id.0), errors: Vec::new(), line_count };
    proof {
        assert(parser@.errors =~= Seq::<Diagnostic>::empty());
        assert(tokens_view(tokens@).len() > 0 ==> tokens_view(tokens@).last() == tokens@[tokens@.len()
            - 1]@);
        assert(parser@ == start(tokens_view(tokens@), old(id)@ as int));
    }
    let statements = parser.program();
    id.0 = parser.id.0;
    if parser.errors.len() == 0 {
        Ok(statements)
    } else {
        Err(parser.errors)
    }
}

/// Parses `tokens` into statements, numbering the expressions from 0 on.
/// Where anything is wrong, the result is the list of diagnostics instead,
/// in the order in which they were found.
pub fn parse(tokens: Vec<Token>) -> (r: Result<Vec<Stmt>, Vec<(Token, Soo)>>)
    ensures
        match r {
            Ok(statements) => parsed(tokens_view(tokens@), 0) == Ok::<
                Seq<StmtView>,
                Seq<Diagnostic>,
            >(stmts_view(statements@)),
            Err(errors) => parsed(tokens_view(tokens@), 0) == Err::<Seq<StmtView>, Seq<Diagnostic>>(
                errors_view(errors@),
            ),
        },
        r is Ok ==> distinct_in(
            stmts_ids(stmts_view(r->Ok_0@), r->Ok_0@.len() as int),
            0,
            tokens@.len() as int,
        ),
        r is Ok && plain_tokens(tokens_view(tokens@)) ==> plain_stmts(stmts_view(r->Ok_0@)),
{
    let mut id = ExprId::new();
    let count = tokens.len();
    assert(tokens@.len() == count);
    let r = parse_from(tokens, &mut id);
    proof {
        if r is Ok {
            lemma_distinct_wider(
                stmts_ids(stmts_view(r->Ok_0@), r->Ok_0@.len() as int),
                0,
                id@ as int,
                0,
                count as int,
            );
        }
    }
    r
}

} // verus!
