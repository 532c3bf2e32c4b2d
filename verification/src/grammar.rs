use vstd::prelude::*;
use crate::expr::ExprView;
use crate::stmt::{FunctionView, StmtView};
use crate::token::{LiteralView, TokenView};
use crate::token_type::TokenType;

verus! {

/// A diagnostic: the token it is about and what is wrong.
pub type Diagnostic = (TokenView, Seq<char>);

/// What a parser stands for: the tokens, how many of them have been read,
/// the next expression identifier, the diagnostics so far, and the line of
/// the last token, on which the end of input is reported.
pub struct ParserView {
    pub tokens: Seq<TokenView>,
    pub pos: int,
    pub id: int,
    pub errors: Seq<Diagnostic>,
    pub line_count: usize,
}

/// Two messages for one expectation: the first where a wrong token was
/// found, the second where the input ended.
pub struct Expectation {
    pub wrong: Seq<char>,
    pub ended: Seq<char>,
}

impl ParserView {
    /// How many tokens are left to read.
    pub open spec fn remaining(self) -> nat {
        if 0 <= self.pos <= self.tokens.len() {
            (self.tokens.len() - self.pos) as nat
        } else {
            0
        }
    }

    /// Whether every token has been read.
    pub open spec fn at_end(self) -> bool {
        self.pos < 0 || self.pos >= self.tokens.len()
    }

    /// The next token.
    pub open spec fn peek(self) -> TokenView {
        self.tokens[self.pos]
    }

    /// Whether the next token is of kind `typ`.
    pub open spec fn check(self, typ: TokenType) -> bool {
        !self.at_end() && self.peek().typ == typ
    }

    /// The parser past the next token.
    pub open spec fn advance(self) -> ParserView {
        if self.at_end() {
            self
        } else {
            ParserView { pos: self.pos + 1, ..self }
        }
    }

    /// The parser past the next expression identifier.
    pub open spec fn fresh(self) -> ParserView {
        ParserView { id: self.id + 1, ..self }
    }

    /// The token that stands for the end of input.
    pub open spec fn eof(self) -> TokenView {
        TokenView {
            typ: TokenType::Eof,
            lexeme: Seq::empty(),
            literal: LiteralView::Nil,
            line: self.line_count,
        }
    }

    /// The next token, or the end of input.
    pub open spec fn here(self) -> TokenView {
        if self.at_end() {
            self.eof()
        } else {
            self.peek()
        }
    }

    /// A diagnostic at the next token is recorded; parsing goes on.
    pub open spec fn report(self, message: Seq<char>) -> ParserView {
        ParserView { errors: self.errors.push((self.here(), message)), ..self }
    }

    /// A diagnostic that ends the statement: it takes the next token with
    /// it.
    pub open spec fn blame(self, message: Seq<char>) -> (Diagnostic, ParserView) {
        ((self.here(), message), self.advance())
    }

    /// The next token is read and must be of kind `typ`.
    pub open spec fn consume(self, typ: TokenType, expected: Expectation) -> (
        Result<TokenView, Diagnostic>,
        ParserView,
    ) {
        if self.at_end() {
            (Err((self.eof(), expected.ended)), self)
        } else if self.peek().typ == typ {
            (Ok(self.peek()), self.advance())
        } else {
            let (diagnostic, after) = self.advance().blame(expected.wrong);
            (Err(diagnostic), after)
        }
    }

    /// Whether `after` is where a parser that started at `self` can be:
    /// over the same tokens, not before `self`, past at least one token
    /// where one was left, and with no more identifiers handed out than
    /// tokens read.
    pub open spec fn advanced(self, after: ParserView) -> bool {
        &&& self.reached(after)
        &&& (self.pos < self.tokens.len() ==> self.pos < after.pos)
    }

    /// As `advanced`, but `after` may be where `self` is.
    pub open spec fn reached(self, after: ParserView) -> bool {
        &&& after.tokens == self.tokens
        &&& after.line_count == self.line_count
        &&& 0 <= self.pos <= after.pos <= self.tokens.len()
        &&& self.id <= after.id
        &&& after.id - self.id <= after.pos - self.pos
    }

    /// The outcome of a step that started at `self`. Every step of the
    /// grammar leaves the parser advanced, so this is the outcome itself;
    /// to say so here lets the grammar be defined by recursion on the
    /// tokens that are left to read.
    pub open spec fn settle<T>(self, outcome: (T, ParserView)) -> (T, ParserView) {
        if self.advanced(outcome.1) {
            outcome
        } else {
            (outcome.0, self.advance())
        }
    }

    /// Tokens are skipped up to and with the next `;`, or up to the start
    /// of the next statement.
    pub open spec fn synchronize(self) -> ParserView
        decreases self.remaining(),
    {
        if self.at_end() {
            self
        } else if self.peek().typ == TokenType::Semicolon {
            self.advance()
        } else if !self.advance().at_end() && starts_statement(self.advance().peek().typ) {
            self.advance()
        } else {
            self.advance().synchronize()
        }
    }
}

/// Whether a statement begins with a token of kind `typ`.
pub open spec fn starts_statement(typ: TokenType) -> bool {
    typ == TokenType::Class || typ == TokenType::Fun || typ == TokenType::Var || typ
        == TokenType::For || typ == TokenType::If || typ == TokenType::While || typ
        == TokenType::Print || typ == TokenType::Return
}

/// The expectation with the two given messages.
pub open spec fn expecting(wrong: Seq<char>, ended: Seq<char>) -> Expectation {
    Expectation { wrong, ended }
}

/// The `for` loop as the statements it stands for: the body with the
/// increment behind it, under a `while` of the condition (`false` where
/// there is none), behind the initializer.
pub open spec fn desugared_for(
    initializer: Option<StmtView>,
    condition: ExprView,
    increment: Option<ExprView>,
    body: StmtView,
) -> StmtView {
    let inner = match increment {
        Some(expression) => StmtView::Block {
            statements: seq![body, StmtView::Expression { expression }],
        },
        None => body,
    };
    let looped = StmtView::While { condition, body: Box::new(inner) };
    match initializer {
        Some(first) => StmtView::Block { statements: seq![first, looped] },
        None => looped,
    }
}

/// An expression, or the diagnostic that ended it, and where the parser
/// then stands.
pub type ParsedExpr = (Result<ExprView, Diagnostic>, ParserView);

/// A statement, or the diagnostic that ended it, and where the parser then
/// stands.
pub type ParsedStmt = (Result<StmtView, Diagnostic>, ParserView);

/// Whether a token of kind `typ` is a binary operator of the given level
/// of precedence: 0 `or`, 1 `and`, 2 equality, 3 comparison, 4 term,
/// 5 factor.
pub open spec fn operator_at(level: int, typ: TokenType) -> bool {
    if level == 0 {
        typ == TokenType::Or
    } else if level == 1 {
        typ == TokenType::And
    } else if level == 2 {
        typ == TokenType::BangEqual || typ == TokenType::EqualEqual
    } else if level == 3 {
        typ == TokenType::Greater || typ == TokenType::GreaterEqual || typ == TokenType::Less
            || typ == TokenType::LessEqual
    } else if level == 4 {
        typ == TokenType::Minus || typ == TokenType::Plus
    } else {
        typ == TokenType::Slash || typ == TokenType::Star
    }
}

/// The expression that one token alone makes, under the identifier `id`.
pub open spec fn single(token: TokenView, id: usize) -> Option<ExprView> {
    if token.typ == TokenType::False {
        Some(ExprView::LiteralExpr { id, value: LiteralView::BoolLiteral(false) })
    } else if token.typ == TokenType::True {
        Some(ExprView::LiteralExpr { id, value: LiteralView::BoolLiteral(true) })
    } else if token.typ == TokenType::Nil {
        Some(ExprView::LiteralExpr { id, value: LiteralView::Nil })
    } else if token.typ == TokenType::Number || token.typ == TokenType::StringToken {
        Some(ExprView::LiteralExpr { id, value: token.literal })
    } else if token.typ == TokenType::Identifier {
        Some(ExprView::Variable { id, name: token })
    } else if token.typ == TokenType::This {
        Some(ExprView::This { id, keyword: token })
    } else {
        None
    }
}

/// The node for `left operator right`: a logical one for `or` and `and`,
/// else a binary one.
pub open spec fn combined(
    level: int,
    id: usize,
    left: ExprView,
    operator: TokenView,
    right: ExprView,
) -> ExprView {
    if level < 2 {
        ExprView::Logical { id, left: Box::new(left), operator, right: Box::new(right) }
    } else {
        ExprView::Binary { id, left: Box::new(left), operator, right: Box::new(right) }
    }
}

impl ParserView {
    /// expression -> assignment
    #[verifier::opaque]
    pub open spec fn expression(self) -> ParsedExpr
        decreases self.remaining(), 20int,
    {
        self.assignment()
    }

    /// assignment -> ( call "." )? IDENTIFIER "=" assignment | logic_or
    #[verifier::opaque]
    pub open spec fn assignment(self) -> ParsedExpr
        decreases self.remaining(), 19int,
    {
        let (left, q1) = self.settle(self.binary(0));
        match left {
            Err(e) => (Err(e), q1),
            Ok(target) => if q1.check(TokenType::Equal) {
                let (value, q2) = q1.advance().settle(q1.advance().assignment());
                match value {
                    Err(e) => (Err(e), q2),
                    Ok(v) => match target {
                        ExprView::Variable { name, .. } => (
                            Ok(ExprView::Assign { id: q2.id as usize, name, value: Box::new(v) }),
                            q2.fresh(),
                        ),
                        ExprView::Get { object, name, .. } => (
                            Ok(
                                ExprView::SetExpr {
                                    id: q2.id as usize,
                                    object,
                                    name,
                                    value: Box::new(v),
                                },
                            ),
                            q2.fresh(),
                        ),
                        _ => (
                            Ok(target),
                            ParserView {
                                errors: q2.errors.push((q1.peek(), "Invalid assignment target."@)),
                                ..q2
                            },
                        ),
                    },
                }
            } else {
                (Ok(target), q1)
            },
        }
    }

    /// The binary operators of one level of precedence, left-associative,
    /// over operands of the next level; past the last level, a unary
    /// expression.
    #[verifier::opaque]
    pub open spec fn binary(self, level: int) -> ParsedExpr
        decreases self.remaining(), (if 0 <= level < 6 { 18 - 2 * level } else { 6 }),
    {
        if level < 0 || level >= 6 {
            self.unary()
        } else {
            let (left, q1) = self.settle(self.binary(level + 1));
            match left {
                Err(e) => (Err(e), q1),
                Ok(l) => q1.binary_rest(level, l),
            }
        }
    }

    /// What follows the operand `left` on its level.
    #[verifier::opaque]
    pub open spec fn binary_rest(self, level: int, left: ExprView) -> ParsedExpr
        decreases self.remaining(), 17 - 2 * level,
    {
        if 0 <= level < 6 && !self.at_end() && operator_at(level, self.peek().typ) {
            let (right, q2) = self.advance().settle(self.advance().binary(level + 1));
            match right {
                Err(e) => (Err(e), q2),
                Ok(r) => q2.fresh().binary_rest(
                    level,
                    combined(level, q2.id as usize, left, self.peek(), r),
                ),
            }
        } else {
            (Ok(left), self)
        }
    }

    /// unary -> ( "!" | "-" ) unary | call
    #[verifier::opaque]
    pub open spec fn unary(self) -> ParsedExpr
        decreases self.remaining(), 5int,
    {
        if self.check(TokenType::Bang) || self.check(TokenType::Minus) {
            let (right, q2) = self.advance().settle(self.advance().unary());
            match right {
                Err(e) => (Err(e), q2),
                Ok(r) => (
                    Ok(ExprView::Unary { id: q2.id as usize, operator: self.peek(), right: Box::new(r) }),
                    q2.fresh(),
                ),
            }
        } else {
            self.call()
        }
    }

    /// call -> primary ( "(" arguments? ")" | "." IDENTIFIER )*
    #[verifier::opaque]
    pub open spec fn call(self) -> ParsedExpr
        decreases self.remaining(), 4int,
    {
        let (callee, q1) = self.settle(self.primary());
        match callee {
            Err(e) => (Err(e), q1),
            Ok(c) => q1.call_rest(c),
        }
    }

    /// What follows the callee or object `callee`.
    #[verifier::opaque]
    pub open spec fn call_rest(self, callee: ExprView) -> ParsedExpr
        decreases self.remaining(), 3int,
    {
        if self.check(TokenType::LeftParen) {
            let (called, q2) = self.advance().settle(self.advance().finish_call(callee));
            match called {
                Err(e) => (Err(e), q2),
                Ok(c) => q2.call_rest(c),
            }
        } else if self.check(TokenType::Dot) {
            let (name, q2) = self.advance().consume(
                TokenType::Identifier,
                expecting(
                    "Expected property name after '.'."@,
                    "Expected property name after '.', instead found end of file."@,
                ),
            );
            match name {
                Err(e) => (Err(e), q2),
                Ok(n) => q2.fresh().call_rest(
                    ExprView::Get { id: q2.id as usize, object: Box::new(callee), name: n },
                ),
            }
        } else {
            (Ok(callee), self)
        }
    }

    /// The arguments of a call and its closing parenthesis.
    #[verifier::opaque]
    pub open spec fn finish_call(self, callee: ExprView) -> ParsedExpr
        decreases self.remaining(), 22int,
    {
        if self.check(TokenType::RightParen) {
            self.close_call(callee, Seq::empty())
        } else {
            let (arguments, q1) = self.settle(self.arguments(Seq::empty()));
            match arguments {
                Err(e) => (Err(e), q1),
                Ok(a) => q1.close_call(callee, a),
            }
        }
    }

    /// The closing parenthesis of a call.
    pub open spec fn close_call(self, callee: ExprView, arguments: Seq<ExprView>) -> ParsedExpr {
        let (paren, q1) = self.consume(
            TokenType::RightParen,
            expecting(
                "Expected ')' after arguments."@,
                "Expected ')' after arguments, instead found end of file."@,
            ),
        );
        match paren {
            Err(e) => (Err(e), q1),
            Ok(t) => (
                Ok(ExprView::Call { id: q1.id as usize, callee: Box::new(callee), paren: t, arguments }),
                q1.fresh(),
            ),
        }
    }

    /// arguments -> expression ( "," expression )*, behind the arguments
    /// `before`. More than 255 arguments are reported, and parsing goes on.
    #[verifier::opaque]
    pub open spec fn arguments(self, before: Seq<ExprView>) -> (Result<Seq<ExprView>, Diagnostic>, ParserView)
        decreases self.remaining(), 21int,
    {
        let q0 = if before.len() >= 255 {
            self.report("Can't have more than 255 arguments."@)
        } else {
            self
        };
        let (argument, q1) = q0.settle(q0.expression());
        match argument {
            Err(e) => (Err(e), q1),
            Ok(a) => if q1.check(TokenType::Comma) {
                q1.advance().arguments(before.push(a))
            } else {
                (Ok(before.push(a)), q1)
            },
        }
    }

    /// primary -> "true" | "false" | "nil" | NUMBER | STRING | "this"
    ///          | "super" "." IDENTIFIER | IDENTIFIER | "(" expression ")"
    #[verifier::opaque]
    pub open spec fn primary(self) -> ParsedExpr
        decreases self.remaining(), 2int,
    {
        if self.at_end() {
            (Err((self.eof(), "Expected expression, instead found end of file."@)), self)
        } else {
            let token = self.peek();
            let q1 = self.advance();
            match single(token, q1.id as usize) {
                Some(expression) => (Ok(expression), q1.fresh()),
                None => if token.typ == TokenType::Super {
                    q1.super_rest(token)
                } else if token.typ == TokenType::LeftParen {
                    q1.grouping()
                } else {
                    (Err((token, "Expected expression."@)), q1)
                },
            }
        }
    }

    /// expression ")" behind an opening parenthesis.
    #[verifier::opaque]
    pub open spec fn grouping(self) -> ParsedExpr
        decreases self.remaining(), 22int,
    {
        let (expression, q1) = self.terminated(
            TokenType::RightParen,
            expecting(
                "Expected ')' after expression."@,
                "Expected ')' after expression, instead found end of file."@,
            ),
        );
        match expression {
            Err(e) => (Err(e), q1),
            Ok(x) => (
                Ok(ExprView::Grouping { id: q1.id as usize, expression: Box::new(x) }),
                q1.fresh(),
            ),
        }
    }

    /// An expression and the token of kind `end` behind it.
    #[verifier::opaque]
    pub open spec fn terminated(self, end: TokenType, expected: Expectation) -> ParsedExpr
        decreases self.remaining(), 21int,
    {
        let (expression, q1) = self.settle(self.expression());
        match expression {
            Err(e) => (Err(e), q1),
            Ok(x) => {
                let (end, q2) = q1.consume(end, expected);
                match end {
                    Err(e) => (Err(e), q2),
                    Ok(_) => (Ok(x), q2),
                }
            },
        }
    }

    /// "." IDENTIFIER behind `super`.
    pub open spec fn super_rest(self, keyword: TokenView) -> ParsedExpr {
        let (dot, q1) = self.consume(
            TokenType::Dot,
            expecting(
                "Expected '.' after 'super'."@,
                "Expected '.' after 'super', instead found end of file."@,
            ),
        );
        match dot {
            Err(e) => (Err(e), q1),
            Ok(_) => {
                let (method, q2) = q1.consume(
                    TokenType::Identifier,
                    expecting(
                        "Expected superclass method name."@,
                        "Expected superclass method name, instead found end of file."@,
                    ),
                );
                match method {
                    Err(e) => (Err(e), q2),
                    Ok(m) => (
                        Ok(ExprView::Super { id: q2.id as usize, keyword, method: m }),
                        q2.fresh(),
                    ),
                }
            },
        }
    }
}

/// What is expected where the name of a function or method should stand.
pub open spec fn expected_name(method: bool) -> Expectation {
    if method {
        expecting("Expected method name."@, "Expected method name, instead found end of file."@)
    } else {
        expecting(
            "Expected function name."@,
            "Expected function name, instead found end of file."@,
        )
    }
}

/// What is expected behind the name of a function or method.
pub open spec fn expected_open(method: bool) -> Expectation {
    if method {
        expecting(
            "Expected '(' after method name."@,
            "Expected '(' after method name, instead found end of file."@,
        )
    } else {
        expecting(
            "Expected '(' after function name."@,
            "Expected '(' after function name, instead found end of file."@,
        )
    }
}

/// What is expected where the body of a function or method should begin.
pub open spec fn expected_body(method: bool) -> Expectation {
    if method {
        expecting(
            "Expected '{' before method body."@,
            "Expected '{' before method body, instead found end of file."@,
        )
    } else {
        expecting(
            "Expected '{' before function body."@,
            "Expected '{' before function body, instead found end of file."@,
        )
    }
}

impl ParserView {
    /// declaration -> classDecl | funDecl | varDecl | statement. After a
    /// diagnostic the parser skips to where the next statement may begin.
    #[verifier::opaque]
    pub open spec fn declaration(self) -> ParsedStmt
        decreases self.remaining(), 40int,
    {
        let (parsed, q1) = self.settle(
            if self.check(TokenType::Class) {
                self.advance().class_declaration()
            } else if self.check(TokenType::Fun) {
                let (function, p) = self.advance().function(false);
                match function {
                    Ok(f) => (Ok(StmtView::Function(f)), p),
                    Err(e) => (Err(e), p),
                }
            } else if self.check(TokenType::Var) {
                self.advance().var_declaration()
            } else {
                self.statement()
            },
        );
        if parsed is Err {
            (parsed, q1.synchronize())
        } else {
            (parsed, q1)
        }
    }

    /// statement -> forStmt | ifStmt | printStmt | returnStmt | whileStmt
    ///            | block | exprStmt
    #[verifier::opaque]
    pub open spec fn statement(self) -> ParsedStmt
        decreases self.remaining(), 39int,
    {
        if self.check(TokenType::For) {
            self.advance().for_statement()
        } else if self.check(TokenType::If) {
            self.advance().if_statement()
        } else if self.check(TokenType::Print) {
            self.advance().print_statement()
        } else if self.check(TokenType::Return) {
            self.advance().return_statement(self.peek())
        } else if self.check(TokenType::While) {
            self.advance().while_statement()
        } else if self.check(TokenType::LeftBrace) {
            let (block, q1) = self.block();
            match block {
                Ok(statements) => (Ok(StmtView::Block { statements }), q1),
                Err(e) => (Err(e), q1),
            }
        } else if self.at_end() {
            let (diagnostic, q1) = self.blame("Expected a statement."@);
            (Err(diagnostic), q1)
        } else {
            self.expression_statement()
        }
    }

    /// exprStmt -> expression ";"
    #[verifier::opaque]
    pub open spec fn expression_statement(self) -> ParsedStmt
        decreases self.remaining(), 38int,
    {
        let (expression, q1) = self.terminated(
            TokenType::Semicolon,
            expecting(
                "Expected ';' after expression."@,
                "Expected ';' after expression, instead found end of file."@,
            ),
        );
        match expression {
            Err(e) => (Err(e), q1),
            Ok(x) => (Ok(StmtView::Expression { expression: x }), q1),
        }
    }

    /// printStmt -> "print" expression ";", behind the keyword.
    #[verifier::opaque]
    pub open spec fn print_statement(self) -> ParsedStmt
        decreases self.remaining(), 38int,
    {
        let (expression, q1) = self.terminated(
            TokenType::Semicolon,
            expecting(
                "Expected ';' after value."@,
                "Expected ';' after value, instead found end of file."@,
            ),
        );
        match expression {
            Err(e) => (Err(e), q1),
            Ok(x) => (Ok(StmtView::Print { expression: x }), q1),
        }
    }

    /// varDecl -> "var" IDENTIFIER ( "=" expression )? ";", behind the
    /// keyword.
    #[verifier::opaque]
    pub open spec fn var_declaration(self) -> ParsedStmt
        decreases self.remaining(), 38int,
    {
        let (name, q1) = self.consume(
            TokenType::Identifier,
            expecting(
                "Expected variable name."@,
                "Expected variable name, instead found end of file."@,
            ),
        );
        let semicolon = expecting(
            "Expected ';' after variable declaration."@,
            "Expected ';' after variable declaration, instead found end of file."@,
        );
        match name {
            Err(e) => (Err(e), q1),
            Ok(n) => if q1.check(TokenType::Equal) {
                let (initializer, q2) = q1.advance().terminated(TokenType::Semicolon, semicolon);
                match initializer {
                    Err(e) => (Err(e), q2),
                    Ok(x) => (Ok(StmtView::Var { name: n, initializer: Some(x) }), q2),
                }
            } else {
                let (end, q2) = q1.consume(TokenType::Semicolon, semicolon);
                match end {
                    Err(e) => (Err(e), q2),
                    Ok(_) => (Ok(StmtView::Var { name: n, initializer: None }), q2),
                }
            },
        }
    }

    /// returnStmt -> "return" expression? ";", behind the keyword.
    #[verifier::opaque]
    pub open spec fn return_statement(self, keyword: TokenView) -> ParsedStmt
        decreases self.remaining(), 38int,
    {
        let semicolon = expecting(
            "Expected ';' after return value."@,
            "Expected ';' after return value, instead found end of file."@,
        );
        if self.check(TokenType::Semicolon) {
            (Ok(StmtView::Return { keyword, value: None }), self.advance())
        } else {
            let (value, q1) = self.terminated(TokenType::Semicolon, semicolon);
            match value {
                Err(e) => (Err(e), q1),
                Ok(x) => (Ok(StmtView::Return { keyword, value: Some(x) }), q1),
            }
        }
    }

    /// ifStmt -> "if" "(" expression ")" statement ( "else" statement )?,
    /// behind the keyword.
    #[verifier::opaque]
    pub open spec fn if_statement(self) -> ParsedStmt
        decreases self.remaining(), 38int,
    {
        let (paren, q0) = self.consume(
            TokenType::LeftParen,
            expecting("Expected '(' after 'if'."@, "Expected '(' after 'if', instead found end of file."@),
        );
        match paren {
            Err(e) => (Err(e), q0),
            Ok(_) => {
                let (condition, q1) = q0.settle(
                    q0.terminated(
                        TokenType::RightParen,
                        expecting(
                            "Expected ')' after 'if' condition."@,
                            "Expected ')' after 'if' condition, instead found end of file."@,
                        ),
                    ),
                );
                match condition {
                    Err(e) => (Err(e), q1),
                    Ok(c) => {
                        let (then_branch, q2) = q1.settle(q1.statement());
                        match then_branch {
                            Err(e) => (Err(e), q2),
                            Ok(t) => if q2.check(TokenType::Else) {
                                let (else_branch, q3) = q2.advance().statement();
                                match else_branch {
                                    Err(e) => (Err(e), q3),
                                    Ok(o) => (
                                        Ok(
                                            StmtView::If {
                                                condition: c,
                                                then_branch: Box::new(t),
                                                else_branch: Some(Box::new(o)),
                                            },
                                        ),
                                        q3,
                                    ),
                                }
                            } else {
                                (
                                    Ok(
                                        StmtView::If {
                                            condition: c,
                                            then_branch: Box::new(t),
                                            else_branch: None,
                                        },
                                    ),
                                    q2,
                                )
                            },
                        }
                    },
                }
            },
        }
    }

    /// whileStmt -> "while" "(" expression ")" statement, behind the
    /// keyword.
    #[verifier::opaque]
    pub open spec fn while_statement(self) -> ParsedStmt
        decreases self.remaining(), 38int,
    {
        let (paren, q0) = self.consume(
            TokenType::LeftParen,
            expecting(
                "Expected '(' after 'while'."@,
                "Expected '(' after 'while', instead found end of file."@,
            ),
        );
        match paren {
            Err(e) => (Err(e), q0),
            Ok(_) => {
                let (condition, q1) = q0.settle(
                    q0.terminated(
                        TokenType::RightParen,
                        expecting(
                            "Expected ')' after condition."@,
                            "Expected ')' after condition, instead found end of file."@,
                        ),
                    ),
                );
                match condition {
                    Err(e) => (Err(e), q1),
                    Ok(c) => {
                        let (body, q2) = q1.statement();
                        match body {
                            Err(e) => (Err(e), q2),
                            Ok(b) => (Ok(StmtView::While { condition: c, body: Box::new(b) }), q2),
                        }
                    },
                }
            },
        }
    }

    /// The initializer clause of a `for`: ";" | varDecl | exprStmt.
    #[verifier::opaque]
    pub open spec fn for_initializer(self) -> (Result<Option<StmtView>, Diagnostic>, ParserView)
        decreases self.remaining(), 39int,
    {
        if self.check(TokenType::Semicolon) {
            (Ok(None), self.advance())
        } else {
            let (initializer, q1) = if self.check(TokenType::Var) {
                self.advance().var_declaration()
            } else {
                self.expression_statement()
            };
            match initializer {
                Err(e) => (Err(e), q1),
                Ok(s) => (Ok(Some(s)), q1),
            }
        }
    }

    /// An expression, unless the token of kind `end` comes next; then the
    /// token of kind `end`.
    #[verifier::opaque]
    pub open spec fn for_clause(self, end: TokenType, expected: Expectation) -> (
        Result<Option<ExprView>, Diagnostic>,
        ParserView,
    )
        decreases self.remaining(), 37int,
    {
        if self.check(end) {
            (Ok(None), self.advance())
        } else {
            let (clause, q1) = self.settle(self.expression());
            match clause {
                Err(e) => (Err(e), q1),
                Ok(x) => {
                    let (closed, q2) = q1.consume(end, expected);
                    match closed {
                        Err(e) => (Err(e), q2),
                        Ok(_) => (Ok(Some(x)), q2),
                    }
                },
            }
        }
    }

    /// forStmt -> "for" "(" ( varDecl | exprStmt | ";" ) expression? ";"
    /// expression? ")" statement, behind the keyword; the result is the
    /// loop written with `while`.
    #[verifier::opaque]
    pub open spec fn for_statement(self) -> ParsedStmt
        decreases self.remaining(), 38int,
    {
        let (paren, q1) = self.consume(
            TokenType::LeftParen,
            expecting("Expected '(' after 'for'."@, "Expected '(' after 'for', instead found end of file."@),
        );
        match paren {
            Err(e) => (Err(e), q1),
            Ok(_) => {
                let (initializer, q2) = q1.settle(q1.for_initializer());
                match initializer {
                    Err(e) => (Err(e), q2),
                    Ok(i) => {
                        let (condition, q3) = q2.settle(
                            q2.for_clause(
                                TokenType::Semicolon,
                                expecting(
                                    "Expected ';' after loop condition."@,
                                    "Expected ';' after loop condition, instead found end of file."@,
                                ),
                            ),
                        );
                        match condition {
                            Err(e) => (Err(e), q3),
                            Ok(c) => {
                                let (increment, q4) = q3.settle(
                                    q3.for_clause(
                                        TokenType::RightParen,
                                        expecting(
                                            "Expected ')' after for clauses."@,
                                            "Expected ')' after for clauses, instead found end of file."@,
                                        ),
                                    ),
                                );
                                match increment {
                                    Err(e) => (Err(e), q4),
                                    Ok(n) => {
                                        let (body, q5) = q4.settle(q4.statement());
                                        match body {
                                            Err(e) => (Err(e), q5),
                                            Ok(b) => match c {
                                                Some(x) => (Ok(desugared_for(i, x, n, b)), q5),
                                                None => (
                                                    Ok(
                                                        desugared_for(
                                                            i,
                                                            ExprView::LiteralExpr {
                                                                id: q5.id as usize,
                                                                value: LiteralView::BoolLiteral(false),
                                                            },
                                                            n,
                                                            b,
                                                        ),
                                                    ),
                                                    q5.fresh(),
                                                ),
                                            },
                                        }
                                    },
                                }
                            },
                        }
                    },
                }
            },
        }
    }

    /// block -> "{" declaration* "}"
    #[verifier::opaque]
    pub open spec fn block(self) -> (Result<Seq<StmtView>, Diagnostic>, ParserView)
        decreases self.remaining(), 38int,
    {
        if self.at_end() {
            let (diagnostic, q1) = self.blame("Expected '}' after block."@);
            (Err(diagnostic), q1)
        } else {
            self.advance().block_rest(Seq::empty())
        }
    }

    /// The rest of a block, behind the statements `before`.
    #[verifier::opaque]
    pub open spec fn block_rest(self, before: Seq<StmtView>) -> (
        Result<Seq<StmtView>, Diagnostic>,
        ParserView,
    )
        decreases self.remaining(), 41int,
    {
        if self.at_end() {
            let (diagnostic, q1) = self.blame("Expected '}' after block."@);
            (Err(diagnostic), q1)
        } else if self.check(TokenType::RightBrace) {
            (Ok(before), self.advance())
        } else {
            let (statement, q1) = self.settle(self.declaration());
            match statement {
                Err(e) => (Err(e), q1),
                Ok(s) => q1.block_rest(before.push(s)),
            }
        }
    }

    /// parameters -> IDENTIFIER ( "," IDENTIFIER )*, behind the parameters
    /// `before`. More than 255 parameters are reported, and parsing goes on.
    #[verifier::opaque]
    pub open spec fn parameters(self, before: Seq<TokenView>) -> (
        Result<Seq<TokenView>, Diagnostic>,
        ParserView,
    )
        decreases self.remaining(), 43int,
    {
        let q0 = if before.len() >= 255 {
            self.report("Can't have more than 255 parameters."@)
        } else {
            self
        };
        let (name, q1) = q0.consume(
            TokenType::Identifier,
            expecting(
                "Expected parameter name."@,
                "Expected parameter name, instead found end of file."@,
            ),
        );
        match name {
            Err(e) => (Err(e), q1),
            Ok(n) => if q1.check(TokenType::Comma) {
                q1.advance().parameters(before.push(n))
            } else {
                (Ok(before.push(n)), q1)
            },
        }
    }

    /// function -> IDENTIFIER "(" parameters? ")" block
    #[verifier::opaque]
    pub open spec fn function(self, method: bool) -> (Result<FunctionView, Diagnostic>, ParserView)
        decreases self.remaining(), 42int,
    {
        let (name, q1) = self.consume(TokenType::Identifier, expected_name(method));
        match name {
            Err(e) => (Err(e), q1),
            Ok(n) => {
                let (open, q2) = q1.consume(TokenType::LeftParen, expected_open(method));
                match open {
                    Err(e) => (Err(e), q2),
                    Ok(_) => {
                        let (params, q3) = if q2.check(TokenType::RightParen) {
                            (Ok(Seq::empty()), q2)
                        } else {
                            q2.settle(q2.parameters(Seq::empty()))
                        };
                        match params {
                            Err(e) => (Err(e), q3),
                            Ok(ps) => {
                                let (close, q4) = q3.consume(
                                    TokenType::RightParen,
                                    expecting(
                                        "Expected ')' after parameters."@,
                                        "Expected ')' after parameters, instead found end of file."@,
                                    ),
                                );
                                match close {
                                    Err(e) => (Err(e), q4),
                                    Ok(_) => if q4.check(TokenType::LeftBrace) {
                                        let (body, q5) = q4.block();
                                        match body {
                                            Err(e) => (Err(e), q5),
                                            Ok(b) => (
                                                Ok(FunctionView { name: n, params: ps, body: b }),
                                                q5,
                                            ),
                                        }
                                    } else {
                                        let (brace, q5) = q4.consume(
                                            TokenType::LeftBrace,
                                            expected_body(method),
                                        );
                                        (Err(brace->Err_0), q5)
                                    },
                                }
                            },
                        }
                    },
                }
            },
        }
    }

    /// The methods of a class, behind the methods `before`, up to the
    /// closing brace or the end of input.
    #[verifier::opaque]
    pub open spec fn methods(self, before: Seq<FunctionView>) -> (
        Result<Seq<FunctionView>, Diagnostic>,
        ParserView,
    )
        decreases self.remaining(), 44int,
    {
        if self.at_end() || self.check(TokenType::RightBrace) {
            (Ok(before), self)
        } else {
            let (method, q1) = self.settle(self.function(true));
            match method {
                Err(e) => (Err(e), q1),
                Ok(f) => q1.methods(before.push(f)),
            }
        }
    }

    /// The superclass clause of a class: ( "<" IDENTIFIER )?
    pub open spec fn superclass(self) -> (Result<Option<ExprView>, Diagnostic>, ParserView) {
        if self.check(TokenType::Less) {
            let (name, q1) = self.advance().consume(
                TokenType::Identifier,
                expecting(
                    "Expected superclass name."@,
                    "Expected superclass name, instead found end of file."@,
                ),
            );
            match name {
                Err(e) => (Err(e), q1),
                Ok(n) => (Ok(Some(ExprView::Variable { id: q1.id as usize, name: n })), q1.fresh()),
            }
        } else {
            (Ok(None), self)
        }
    }

    /// classDecl -> "class" IDENTIFIER ( "<" IDENTIFIER )? "{" function* "}",
    /// behind the keyword.
    #[verifier::opaque]
    pub open spec fn class_declaration(self) -> ParsedStmt
        decreases self.remaining(), 46int,
    {
        let (name, q1) = self.consume(
            TokenType::Identifier,
            expecting("Expected class name."@, "Expected class name, instead found end of file."@),
        );
        match name {
            Err(e) => (Err(e), q1),
            Ok(n) => {
                let (superclass, q2) = q1.superclass();
                match superclass {
                    Err(e) => (Err(e), q2),
                    Ok(above) => {
                        let (open, q3) = q2.consume(
                            TokenType::LeftBrace,
                            expecting(
                                "Expected '{' before class body."@,
                                "Expected '{' before class body, instead found end of file."@,
                            ),
                        );
                        match open {
                            Err(e) => (Err(e), q3),
                            Ok(_) => {
                                let (methods, q4) = q3.methods(Seq::empty());
                                match methods {
                                    Err(e) => (Err(e), q4),
                                    Ok(ms) => {
                                        let (close, q5) = q4.consume(
                                            TokenType::RightBrace,
                                            expecting(
                                                "Expected '}' after class body."@,
                                                "Expected '}' after class body, instead found end of file."@,
                                            ),
                                        );
                                        match close {
                                            Err(e) => (Err(e), q5),
                                            Ok(_) => (
                                                Ok(
                                                    StmtView::Class {
                                                        name: n,
                                                        superclass: above,
                                                        methods: ms,
                                                    },
                                                ),
                                                q5,
                                            ),
                                        }
                                    },
                                }
                            },
                        }
                    },
                }
            },
        }
    }

    /// Every declaration up to the end of input, behind the statements
    /// `before`. A declaration that ends in a diagnostic is left out, and
    /// the diagnostic is recorded.
    #[verifier::opaque]
    pub open spec fn program(self, before: Seq<StmtView>) -> (Seq<StmtView>, ParserView)
        decreases self.remaining(), 47int,
    {
        if self.at_end() {
            (before, self)
        } else {
            let (statement, q1) = self.settle(self.declaration());
            match statement {
                Ok(s) => q1.program(before.push(s)),
                Err(e) => (ParserView { errors: q1.errors.push(e), ..q1 }).program(before),
            }
        }
    }
}

/// The parser before it has read anything: identifiers are handed out from
/// `id` on, and the end of input is reported on the line of the last token.
pub open spec fn start(tokens: Seq<TokenView>, id: int) -> ParserView {
    ParserView {
        tokens,
        pos: 0,
        id,
        errors: Seq::empty(),
        line_count: if tokens.len() > 0 {
            tokens.last().line
        } else {
            0
        },
    }
}

/// What parsing `tokens` gives: the statements where no diagnostic was
/// recorded, else the diagnostics in the order in which they were found.
pub open spec fn parsed(tokens: Seq<TokenView>, id: int) -> Result<Seq<StmtView>, Seq<Diagnostic>> {
    let (statements, end) = start(tokens, id).program(Seq::empty());
    if end.errors.len() == 0 {
        Ok(statements)
    } else {
        Err(end.errors)
    }
}

} // verus!
