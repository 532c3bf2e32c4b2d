use vstd::prelude::*;
use crate::dict::Dict;
use crate::environment::{Environment, EnvironmentView};
use crate::expr::{Expr, ExprView};
use crate::interpreter::resolve;
use crate::stmt::{Function, FunctionView, Stmt, StmtView, stmts_view};
use crate::text::same_text;
use crate::token::{Token, TokenView, tokens_view};
use crate::utils::Soo;

verus! {

/// The kind of function whose body is being resolved.
#[derive(Clone, Copy, Debug, PartialEq, Eq, Structural)]
pub enum FunctionType {
    Function,
    Initializer,
    Method,
}

/// The kind of class whose body is being resolved.
#[derive(Clone, Copy, Debug, PartialEq, Eq, Structural)]
pub enum ClassType {
    Class,
    Subclass,
}

/// The resolver's state: the environment, whose lexical scopes and
/// resolution table it fills, the kinds of the functions and of the classes
/// it is inside of, and the static errors found so far.
#[derive(Debug)]
pub struct Resolver {
    pub environment: Environment,
    pub function_stack: Vec<FunctionType>,
    pub class_stack: Vec<ClassType>,
    pub errors: Vec<(Token, Soo)>,
}

/// What a `Resolver` stands for.
pub struct ResolverView {
    pub environment: EnvironmentView,
    pub functions: Seq<FunctionType>,
    pub classes: Seq<ClassType>,
    pub errors: Seq<(TokenView, Seq<char>)>,
}

/// The views of a list of diagnostics, one for one.
pub open spec fn errors_view(errors: Seq<(Token, Soo)>) -> Seq<(TokenView, Seq<char>)> {
    Seq::new(errors.len(), |i: int| (errors[i].0@, errors[i].1@))
}

impl View for Resolver {
    type V = ResolverView;

    open spec fn view(&self) -> ResolverView {
        ResolverView {
            environment: self.environment@,
            functions: self.function_stack@,
            classes: self.class_stack@,
            errors: errors_view(self.errors@),
        }
    }
}

impl ResolverView {
    /// The lexical scopes, outermost first.
    pub open spec fn scopes(self) -> Seq<Map<Seq<char>, bool>> {
        self.environment.scopes
    }

    /// The state with other lexical scopes.
    pub open spec fn with_scopes(self, scopes: Seq<Map<Seq<char>, bool>>) -> ResolverView {
        ResolverView { environment: EnvironmentView { scopes, ..self.environment }, ..self }
    }

    /// One more static error.
    pub open spec fn error(self, token: TokenView, message: Seq<char>) -> ResolverView {
        ResolverView { errors: self.errors.push((token, message)), ..self }
    }

    /// A fresh innermost scope.
    pub open spec fn begin_scope(self) -> ResolverView {
        self.with_scopes(self.scopes().push(Map::empty()))
    }

    /// The innermost scope is left.
    pub open spec fn end_scope(self) -> ResolverView {
        if self.scopes().len() > 0 {
            self.with_scopes(self.scopes().drop_last())
        } else {
            self
        }
    }

    /// `name` entered in the innermost scope as defined or not; in global
    /// code nothing is entered.
    pub open spec fn put(self, name: Seq<char>, defined: bool) -> ResolverView {
        if self.scopes().len() > 0 {
            self.with_scopes(
                self.scopes().update(
                    self.scopes().len() - 1,
                    self.scopes().last().insert(name, defined),
                ),
            )
        } else {
            self
        }
    }

    /// A declaration of `name`: an error where the innermost scope has the
    /// name already; the name is entered as not yet defined.
    pub open spec fn declare(self, name: TokenView) -> ResolverView {
        if self.scopes().len() > 0 {
            (if self.scopes().last().contains_key(name.lexeme) {
                self.error(name, "Already a variable with this name in this scope."@)
            } else {
                self
            }).put(name.lexeme, false)
        } else {
            self
        }
    }

    /// `name` entered as defined.
    pub open spec fn define(self, name: TokenView) -> ResolverView {
        self.put(name.lexeme, true)
    }

    /// How many scopes out from the innermost one `name` is found, looking
    /// from `depth` scopes out.
    pub open spec fn depth_of(self, name: Seq<char>, depth: int) -> Option<int>
        decreases self.scopes().len() - depth,
    {
        if depth < 0 || depth >= self.scopes().len() {
            None
        } else if self.scopes()[self.scopes().len() - 1 - depth].contains_key(name) {
            Some(depth)
        } else {
            self.depth_of(name, depth + 1)
        }
    }

    /// The table entry for the expression `id`, which refers to `name`:
    /// the distance of the nearest scope that has the name; no entry where
    /// no scope has it, so that the reference is a global one.
    pub open spec fn resolve_local(self, id: usize, name: Seq<char>) -> ResolverView {
        match self.depth_of(name, 0) {
            Some(depth) => ResolverView {
                environment: self.environment.resolve(id, depth as usize),
                ..self
            },
            None => self,
        }
    }

    /// Inside one more function.
    pub open spec fn enter_function(self, kind: FunctionType) -> ResolverView {
        ResolverView { functions: self.functions.push(kind), ..self }
    }

    /// Out of the innermost function.
    pub open spec fn leave_function(self) -> ResolverView {
        if self.functions.len() > 0 {
            ResolverView { functions: self.functions.drop_last(), ..self }
        } else {
            self
        }
    }

    /// Inside one more class.
    pub open spec fn enter_class(self, kind: ClassType) -> ResolverView {
        ResolverView { classes: self.classes.push(kind), ..self }
    }

    /// Out of the innermost class.
    pub open spec fn leave_class(self) -> ResolverView {
        if self.classes.len() > 0 {
            ResolverView { classes: self.classes.drop_last(), ..self }
        } else {
            self
        }
    }
}

/// The state after an expression has been resolved.
pub open spec fn resolve_expr(e: ExprView, r: ResolverView) -> ResolverView
    decreases e, 0int,
{
    match e {
        ExprView::Assign { id, name, value } => resolve_expr(*value, r).resolve_local(id, name.lexeme),
        ExprView::Binary { left, right, .. } => resolve_expr(*right, resolve_expr(*left, r)),
        ExprView::Call { callee, arguments, .. } => resolve_exprs(
            arguments,
            resolve_expr(*callee, r),
            arguments.len() as int,
        ),
        ExprView::Get { object, .. } => resolve_expr(*object, r),
        ExprView::Grouping { expression, .. } => resolve_expr(*expression, r),
        ExprView::LiteralExpr { .. } => r,
        ExprView::Logical { left, right, .. } => resolve_expr(*right, resolve_expr(*left, r)),
        ExprView::SetExpr { object, value, .. } => resolve_expr(*object, resolve_expr(*value, r)),
        ExprView::Super { id, keyword, .. } => (if r.classes.len() == 0 {
            r.error(keyword, "Can't use 'super' outside of a class."@)
        } else if r.classes.last() == ClassType::Class {
            r.error(keyword, "Can't use 'super' in a class with no superclass."@)
        } else {
            r
        }).resolve_local(id, keyword.lexeme),
        ExprView::This { id, keyword } => if r.classes.len() == 0 {
            r.error(keyword, "Can't use 'this' outside of a class."@)
        } else {
            r.resolve_local(id, keyword.lexeme)
        },
        ExprView::Unary { right, .. } => resolve_expr(*right, r),
        ExprView::Variable { id, name } => if r.scopes().len() > 0 && r.scopes().last().contains_key(
            name.lexeme,
        ) && !r.scopes().last()[name.lexeme] {
            r.error(name, "Can't read local variable in its own initializer."@)
        } else {
            r.resolve_local(id, name.lexeme)
        },
    }
}

/// The state after the first `count` of `exprs` have been resolved in turn.
pub open spec fn resolve_exprs(exprs: Seq<ExprView>, r: ResolverView, count: int) -> ResolverView
    decreases exprs, count,
{
    if count <= 0 || count > exprs.len() {
        r
    } else {
        resolve_expr(exprs[count - 1], resolve_exprs(exprs, r, count - 1))
    }
}

/// The state after the first `count` parameters have been declared and
/// defined in turn.
pub open spec fn resolve_params(params: Seq<TokenView>, r: ResolverView, count: int) -> ResolverView
    decreases count,
{
    if count <= 0 || count > params.len() {
        r
    } else {
        resolve_params(params, r, count - 1).declare(params[count - 1]).define(params[count - 1])
    }
}

/// The state after a function's parameters and body have been resolved in
/// a scope of their own.
pub open spec fn resolve_function(f: FunctionView, r: ResolverView) -> ResolverView
    decreases f, 0int,
{
    resolve_stmts(
        f.body,
        resolve_params(f.params, r.begin_scope(), f.params.len() as int),
        f.body.len() as int,
    ).end_scope()
}

/// The kind of a method of the given name.
pub open spec fn method_kind(name: Seq<char>) -> FunctionType {
    if name == "init"@ {
        FunctionType::Initializer
    } else {
        FunctionType::Method
    }
}

/// The state after the first `count` methods of a class have been resolved
/// in turn.
pub open spec fn resolve_methods(methods: Seq<FunctionView>, r: ResolverView, count: int) -> ResolverView
    decreases methods, count,
{
    if count <= 0 || count > methods.len() {
        r
    } else {
        resolve_function(
            methods[count - 1],
            resolve_methods(methods, r, count - 1).enter_function(
                method_kind(methods[count - 1].name.lexeme),
            ),
        ).leave_function()
    }
}

/// The state after a statement has been resolved.
pub open spec fn resolve_stmt(s: StmtView, r: ResolverView) -> ResolverView
    decreases s, 0int,
{
    match s {
        StmtView::Block { statements } => resolve_stmts(
            statements,
            r.begin_scope(),
            statements.len() as int,
        ).end_scope(),
        StmtView::Class { name, superclass, methods } => {
            let declared = r.enter_class(ClassType::Class).declare(name).define(name);
            let inside = match superclass {
                Some(variable) => {
                    let sub = declared.leave_class().enter_class(ClassType::Subclass);
                    let checked = if variable is Variable && name.lexeme
                        == variable->Variable_name.lexeme {
                        sub.error(name, "A class can't inherit from itself."@)
                    } else {
                        sub
                    };
                    resolve_expr(variable, checked).begin_scope().put("super"@, true)
                },
                None => declared,
            };
            let done = resolve_methods(
                methods,
                inside.begin_scope().put("this"@, true),
                methods.len() as int,
            ).end_scope();
            (if superclass is Some {
                done.end_scope()
            } else {
                done
            }).leave_class()
        },
        StmtView::Expression { expression } => resolve_expr(expression, r),
        StmtView::Function(f) => resolve_function(
            f,
            r.declare(f.name).define(f.name).enter_function(FunctionType::Function),
        ).leave_function(),
        StmtView::If { condition, then_branch, else_branch } => {
            let after = resolve_stmt(*then_branch, resolve_expr(condition, r));
            match else_branch {
                Some(branch) => resolve_stmt(*branch, after),
                None => after,
            }
        },
        StmtView::Print { expression } => resolve_expr(expression, r),
        StmtView::Return { keyword, value } => {
            let checked = if r.functions.len() == 0 {
                r.error(keyword, "Can't return from top-level code."@)
            } else {
                r
            };
            match value {
                Some(expression) => resolve_expr(
                    expression,
                    if r.functions.len() > 0 && r.functions.last() == FunctionType::Initializer {
                        checked.error(keyword, "Can't return a value from an initializer."@)
                    } else {
                        checked
                    },
                ),
                None => checked,
            }
        },
        StmtView::Var { name, initializer } => {
            let declared = r.declare(name);
            (match initializer {
                Some(expression) => resolve_expr(expression, declared),
                None => declared,
            }).define(name)
        },
        StmtView::While { condition, body } => resolve_stmt(*body, resolve_expr(condition, r)),
    }
}

/// The state after the first `count` of `stmts` have been resolved in turn.
pub open spec fn resolve_stmts(stmts: Seq<StmtView>, r: ResolverView, count: int) -> ResolverView
    decreases stmts, count,
{
    if count <= 0 || count > stmts.len() {
        r
    } else {
        resolve_stmt(stmts[count - 1], resolve_stmts(stmts, r, count - 1))
    }
}

impl Resolver {
    /// A resolver in global code, outside any function and class, that has
    /// found no error yet.
    pub fn new(environment: Environment) -> (resolver: Self)
        ensures
            resolver@ == (ResolverView {
                environment: environment@,
                functions: Seq::empty(),
                classes: Seq::empty(),
                errors: Seq::empty(),
            }),
    {
        let resolver = Resolver {
            environment,
            function_stack: Vec::new(),
            class_stack: Vec::new(),
            errors: Vec::new(),
        };
        assert(resolver@.errors =~= Seq::<(TokenView, Seq<char>)>::empty());
        resolver
    }

    fn error(&mut self, token: &Token, message: &'static str)
        ensures
            final(self)@ == old(self)@.error(token@, message@),
    {
        self.errors.push((token.clone(), Soo::Static(message)));
        assert(final(self)@.errors =~= old(self)@.errors.push((token@, message@)));
    }

    fn begin_scope(&mut self)
        ensures
            final(self)@ == old(self)@.begin_scope(),
    {
        self.environment.scopes.push(Dict::new());
        proof {
            assert(final(self)@.environment.scopes =~= old(self)@.begin_scope().environment.scopes);
            assert(final(self)@.environment.frames =~= old(self)@.environment.frames);
        }
    }

    fn end_scope(&mut self)
        ensures
            final(self)@ == old(self)@.end_scope(),
    {
        self.environment.scopes.pop();
        proof {
            assert(final(self)@.environment.scopes =~= old(self)@.end_scope().environment.scopes);
            assert(final(self)@.environment.frames =~= old(self)@.environment.frames);
        }
    }

    fn put(&mut self, name: &str, defined: bool)
        ensures
            final(self)@ == old(self)@.put(name@, defined),
    {
        let depth = self.environment.scopes.len();
        if depth > 0 {
            self.environment.scopes[depth - 1].insert(String::from_str(name), defined);
        }
        proof {
            assert(final(self)@.environment.scopes =~= old(self)@.put(
                name@,
                defined,
            ).environment.scopes);
            assert(final(self)@.environment.frames =~= old(self)@.environment.frames);
        }
    }

    fn declare(&mut self, name: &Token)
        ensures
            final(self)@ == old(self)@.declare(name@),
    {
        let depth = self.environment.scopes.len();
        if depth > 0 {
            assert(self@.scopes()[depth - 1] == self.environment.scopes@[depth - 1]@);
            if self.environment.scopes[depth - 1].contains_key(name.lexeme.as_str()) {
                self.error(name, "Already a variable with this name in this scope.");
            }
            self.put(name.lexeme.as_str(), false);
        }
    }

    fn define(&mut self, name: &Token)
        ensures
            final(self)@ == old(self)@.define(name@),
    {
        self.put(name.lexeme.as_str(), true);
    }

    fn resolve_local(&mut self, id: usize, name: &str)
        ensures
            final(self)@ == old(self)@.resolve_local(id, name@),
    {
        let count = self.environment.scopes.len();
        let mut depth: usize = 0;
        while depth < count
            invariant
                depth <= count,
                count == self.environment.scopes@.len(),
                *self == *old(self),
                self@.depth_of(name@, 0) == self@.depth_of(name@, depth as int),
            decreases count - depth,
        {
            assert(self@.scopes()[count - 1 - depth] == self.environment.scopes@[count - 1 - depth]@);
            if self.environment.scopes[count - 1 - depth].contains_key(name) {
                resolve(id, depth, &mut self.environment);
                return;
            }
            depth += 1;
        }
    }

    fn enter_function(&mut self, kind: FunctionType)
        ensures
            final(self)@ == old(self)@.enter_function(kind),
    {
        self.function_stack.push(kind);
    }

    fn leave_function(&mut self)
        ensures
            final(self)@ == old(self)@.leave_function(),
    {
        self.function_stack.pop();
        assert(final(self)@.functions =~= old(self)@.leave_function().functions);
    }

    fn enter_class(&mut self, kind: ClassType)
        ensures
            final(self)@ == old(self)@.enter_class(kind),
    {
        self.class_stack.push(kind);
    }

    fn leave_class(&mut self)
        ensures
            final(self)@ == old(self)@.leave_class(),
    {
        self.class_stack.pop();
        assert(final(self)@.classes =~= old(self)@.leave_class().classes);
    }

    /// Resolves a function's parameters and body in a scope of their own.
    pub fn resolve_function(&mut self, function: &Function)
        ensures
            final(self)@ == resolve_function(function@, old(self)@),
        decreases function, 0int,
    {
        self.begin_scope();
        let ghost begun = self@;
        let ghost params = tokens_view(function.params@);
        let mut i: usize = 0;
        while i < function.params.len()
            invariant
                i <= function.params@.len(),
                params == function@.params,
                params.len() == function.params@.len(),
                forall|j: int| 0 <= j < params.len() ==> params[j] == function.params@[j]@,
                self@ == resolve_params(params, begun, i as int),
            decreases function.params@.len() - i,
        {
            self.declare(&function.params[i]);
            self.define(&function.params[i]);
            i += 1;
        }
        let ghost declared = self@;
        let ghost body = function@.body;
        let mut k: usize = 0;
        while k < function.body.len()
            invariant
                k <= function.body@.len(),
                body == function@.body,
                body.len() == function.body@.len(),
                self@ == resolve_stmts(body, declared, k as int),
            decreases function.body@.len() - k,
        {
            assert(body[k as int] == function.body@[k as int]@);
            function.body[k].resolve(self);
            k += 1;
        }
        self.end_scope();
    }

    /// Resolves statements in turn.
    pub fn resolve_all(&mut self, statements: &Vec<Stmt>)
        ensures
            final(self)@ == resolve_stmts(
                stmts_view(statements@),
                old(self)@,
                statements@.len() as int,
            ),
        decreases statements, 0int,
    {
        let ghost all = stmts_view(statements@);
        let mut k: usize = 0;
        while k < statements.len()
            invariant
                k <= statements@.len(),
                all == stmts_view(statements@),
                self@ == resolve_stmts(all, old(self)@, k as int),
            decreases statements@.len() - k,
        {
            statements[k].resolve(self);
            k += 1;
        }
    }
}

impl Expr {
    /// Resolves the expression: every reference to a variable, `this` or
    /// `super` in it gets its table entry, and what is wrong without
    /// running the program is reported.
    pub fn resolve(&self, resolver: &mut Resolver)
        ensures
            final(resolver)@ == resolve_expr(self@, old(resolver)@),
        decreases self, 0int,
    {
        match self {
            Expr::Assign(assign) => {
                assign.value.resolve(resolver);
                resolver.resolve_local(assign.id, assign.name.lexeme.as_str());
            },
            Expr::Binary(binary) => {
                binary.left.resolve(resolver);
                binary.right.resolve(resolver);
            },
            Expr::Call(call) => {
                call.callee.resolve(resolver);
                let ghost begun = resolver@;
                let ghost arguments = self@->Call_arguments;
                let mut i: usize = 0;
                while i < call.arguments.len()
                    invariant
                        self is Call,
                        self->Call_0 == *call,
                        i <= call.arguments@.len(),
                        arguments.len() == call.arguments@.len(),
                        forall|j: int|
                            0 <= j < arguments.len() ==> arguments[j] == call.arguments@[j]@,
                        resolver@ == resolve_exprs(arguments, begun, i as int),
                    decreases call.arguments@.len() - i,
                {
                    call.arguments[i].resolve(resolver);
                    i += 1;
                }
            },
            Expr::Get(get) => get.object.resolve(resolver),
            Expr::Grouping(grouping) => grouping.expression.resolve(resolver),
            Expr::LiteralExpr(_) => {},
            Expr::Logical(logical) => {
                logical.left.resolve(resolver);
                logical.right.resolve(resolver);
            },
            Expr::SetExpr(set) => {
                set.value.resolve(resolver);
                set.object.resolve(resolver);
            },
            Expr::Super(above) => {
                let depth = resolver.class_stack.len();
                if depth == 0 {
                    resolver.error(&above.keyword, "Can't use 'super' outside of a class.");
                } else if resolver.class_stack[depth - 1] == ClassType::Class {
                    resolver.error(&above.keyword, "Can't use 'super' in a class with no superclass.");
                }
                resolver.resolve_local(above.id, above.keyword.lexeme.as_str());
            },
            Expr::This(this) => {
                if resolver.class_stack.len() == 0 {
                    resolver.error(&this.keyword, "Can't use 'this' outside of a class.");
                } else {
                    resolver.resolve_local(this.id, this.keyword.lexeme.as_str());
                }
            },
            Expr::Unary(unary) => unary.right.resolve(resolver),
            Expr::Variable(variable) => {
                let depth = resolver.environment.scopes.len();
                let declared = if depth > 0 {
                    assert(resolver@.scopes()[depth - 1] == resolver.environment.scopes@[depth - 1]@);
                    match resolver.environment.scopes[depth - 1].get(variable.name.lexeme.as_str()) {
                        Some(defined) => !*defined,
                        None => false,
                    }
                } else {
                    false
                };
                if declared {
                    resolver.error(
                        &variable.name,
                        "Can't read local variable in its own initializer.",
                    );
                } else {
                    resolver.resolve_local(variable.id, variable.name.lexeme.as_str());
                }
            },
        }
    }
}

impl Stmt {
    /// Resolves the statement.
    pub fn resolve(&self, resolver: &mut Resolver)
        ensures
            final(resolver)@ == resolve_stmt(self@, old(resolver)@),
        decreases self, 0int,
    {
        match self {
            Stmt::Block { statements } => {
                resolver.begin_scope();
                let ghost begun = resolver@;
                let ghost all = self@->Block_statements;
                let mut k: usize = 0;
                while k < statements.len()
                    invariant
                        self is Block,
                        self->Block_statements == *statements,
                        k <= statements@.len(),
                        all.len() == statements@.len(),
                        forall|j: int| 0 <= j < all.len() ==> all[j] == statements@[j]@,
                        resolver@ == resolve_stmts(all, begun, k as int),
                    decreases statements@.len() - k,
                {
                    statements[k].resolve(resolver);
                    k += 1;
                }
                resolver.end_scope();
            },
            Stmt::Class { name, superclass, methods } => {
                resolver.enter_class(ClassType::Class);
                resolver.declare(name);
                resolver.define(name);
                match superclass {
                    Some(variable) => {
                        resolver.leave_class();
                        resolver.enter_class(ClassType::Subclass);
                        if name.lexeme == variable.name.lexeme {
                            resolver.error(name, "A class can't inherit from itself.");
                        }
                        let ghost checked = resolver@;
                        let depth = resolver.environment.scopes.len();
                        let declared = if depth > 0 {
                            assert(resolver@.scopes()[depth - 1]
                                == resolver.environment.scopes@[depth - 1]@);
                            match resolver.environment.scopes[depth - 1].get(
                                variable.name.lexeme.as_str(),
                            ) {
                                Some(defined) => !*defined,
                                None => false,
                            }
                        } else {
                            false
                        };
                        if declared {
                            resolver.error(
                                &variable.name,
                                "Can't read local variable in its own initializer.",
                            );
                        } else {
                            resolver.resolve_local(variable.id, variable.name.lexeme.as_str());
                        }
                        assert(resolver@ == resolve_expr(self@->Class_superclass->0, checked));
                        resolver.begin_scope();
                        resolver.put("super", true);
                    },
                    None => {},
                }
                resolver.begin_scope();
                resolver.put("this", true);
                let ghost begun = resolver@;
                let ghost all = self@->Class_methods;
                let mut k: usize = 0;
                while k < methods.len()
                    invariant
                        self is Class,
                        self->Class_methods == *methods,
                        k <= methods@.len(),
                        all.len() == methods@.len(),
                        forall|j: int| 0 <= j < all.len() ==> all[j] == methods@[j]@,
                        resolver@ == resolve_methods(all, begun, k as int),
                    decreases methods@.len() - k,
                {
                    let kind = if same_text(methods[k].name.lexeme.as_str(), "init") {
                        FunctionType::Initializer
                    } else {
                        FunctionType::Method
                    };
                    resolver.enter_function(kind);
                    resolver.resolve_function(&methods[k]);
                    resolver.leave_function();
                    k += 1;
                }
                resolver.end_scope();
                if superclass.is_some() {
                    resolver.end_scope();
                }
                resolver.leave_class();
            },
            Stmt::Expression { expression } => expression.resolve(resolver),
            Stmt::Function(function) => {
                resolver.declare(&function.name);
                resolver.define(&function.name);
                resolver.enter_function(FunctionType::Function);
                resolver.resolve_function(function);
                resolver.leave_function();
            },
            Stmt::If { condition, then_branch, else_branch } => {
                condition.resolve(resolver);
                then_branch.resolve(resolver);
                match else_branch {
                    Some(branch) => branch.resolve(resolver),
                    None => {},
                }
            },
            Stmt::Print { expression } => expression.resolve(resolver),
            Stmt::Return { keyword, value } => {
                let depth = resolver.function_stack.len();
                let initializer = depth > 0 && resolver.function_stack[depth - 1]
                    == FunctionType::Initializer;
                if depth == 0 {
                    resolver.error(keyword, "Can't return from top-level code.");
                }
                match value {
                    Some(expression) => {
                        if initializer {
                            resolver.error(keyword, "Can't return a value from an initializer.");
                        }
                        expression.resolve(resolver);
                    },
                    None => {},
                }
            },
            Stmt::Var { name, initializer } => {
                resolver.declare(name);
                match initializer {
                    Some(expression) => expression.resolve(resolver),
                    None => {},
                }
                resolver.define(name);
            },
            Stmt::While { condition, body } => {
                condition.resolve(resolver);
                body.resolve(resolver);
            },
        }
    }
}

/// The resolver's state as made of its parts.
pub open spec fn resolver_state(
    environment: Environment,
    function_stack: Vec<FunctionType>,
    class_stack: Vec<ClassType>,
    errors: Vec<(Token, Soo)>,
) -> ResolverView {
    ResolverView {
        environment: environment@,
        functions: function_stack@,
        classes: class_stack@,
        errors: errors_view(errors@),
    }
}

/// Resolves a program: for every reference to a local variable, to `this`
/// or to `super`, the environment's table gets the distance of the scope
/// that binds it; `errors` gets the static errors, in the order in which
/// they are found.
pub fn resolve_statements(
    statements: &Vec<Stmt>,
    environment: &mut Environment,
    function_stack: &mut Vec<FunctionType>,
    class_stack: &mut Vec<ClassType>,
    errors: &mut Vec<(Token, Soo)>,
)
    ensures
        resolver_state(
            *final(environment),
            *final(function_stack),
            *final(class_stack),
            *final(errors),
        ) == resolve_stmts(
            stmts_view(statements@),
            resolver_state(*old(environment), *old(function_stack), *old(class_stack), *old(errors)),
            statements@.len() as int,
        ),
{
    let mut resolver = Resolver::new(Environment::new());
    core::mem::swap(environment, &mut resolver.environment);
    core::mem::swap(function_stack, &mut resolver.function_stack);
    core::mem::swap(class_stack, &mut resolver.class_stack);
    core::mem::swap(errors, &mut resolver.errors);
    resolver.resolve_all(statements);
    core::mem::swap(environment, &mut resolver.environment);
    core::mem::swap(function_stack, &mut resolver.function_stack);
    core::mem::swap(class_stack, &mut resolver.class_stack);
    core::mem::swap(errors, &mut resolver.errors);
}

/// Resolving is a function of the structure of the program alone: two
/// programs of the same structure, resolved from the same state, end in the
/// same state, with the same resolution table and the same errors.
pub proof fn resolving_is_deterministic(first: Seq<Stmt>, second: Seq<Stmt>, start: ResolverView)
    requires
        stmts_view(first) == stmts_view(second),
    ensures
        resolve_stmts(stmts_view(first), start, first.len() as int) == resolve_stmts(
            stmts_view(second),
            start,
            second.len() as int,
        ),
        resolve_stmts(stmts_view(first), start, first.len() as int).environment.locals
            == resolve_stmts(stmts_view(second), start, second.len() as int).environment.locals,
{
    assert(stmts_view(first).len() == first.len());
    assert(stmts_view(second).len() == second.len());
}

impl ResolverView {
    /// Whether `after` is a state that resolving a statement may leave
    /// behind `self`: as many scopes as before, inside the same functions
    /// and classes, and the running program's scopes untouched.
    pub open spec fn balanced(self, after: ResolverView) -> bool {
        &&& after.scopes().len() == self.scopes().len()
        &&& after.functions == self.functions
        &&& after.classes == self.classes
        &&& after.environment.layers == self.environment.layers
        &&& after.environment.frames == self.environment.frames
    }
}

/// Resolving an expression opens no scope and leaves every scope as it is.
pub proof fn resolving_an_expression_keeps_the_scopes(e: ExprView, r: ResolverView)
    ensures
        resolve_expr(e, r).scopes() == r.scopes(),
        r.balanced(resolve_expr(e, r)),
    decreases e, 0int,
{
    match e {
        ExprView::Assign { value, .. } => resolving_an_expression_keeps_the_scopes(*value, r),
        ExprView::Binary { left, right, .. } => {
            resolving_an_expression_keeps_the_scopes(*left, r);
            resolving_an_expression_keeps_the_scopes(*right, resolve_expr(*left, r));
        },
        ExprView::Call { callee, arguments, .. } => {
            resolving_an_expression_keeps_the_scopes(*callee, r);
            lemma_exprs_keep_the_scopes(arguments, resolve_expr(*callee, r), arguments.len() as int);
        },
        ExprView::Get { object, .. } => resolving_an_expression_keeps_the_scopes(*object, r),
        ExprView::Grouping { expression, .. } => resolving_an_expression_keeps_the_scopes(
            *expression,
            r,
        ),
        ExprView::Logical { left, right, .. } => {
            resolving_an_expression_keeps_the_scopes(*left, r);
            resolving_an_expression_keeps_the_scopes(*right, resolve_expr(*left, r));
        },
        ExprView::SetExpr { object, value, .. } => {
            resolving_an_expression_keeps_the_scopes(*value, r);
            resolving_an_expression_keeps_the_scopes(*object, resolve_expr(*value, r));
        },
        ExprView::Unary { right, .. } => resolving_an_expression_keeps_the_scopes(*right, r),
        _ => {},
    }
}

proof fn lemma_exprs_keep_the_scopes(exprs: Seq<ExprView>, r: ResolverView, count: int)
    ensures
        resolve_exprs(exprs, r, count).scopes() == r.scopes(),
        r.balanced(resolve_exprs(exprs, r, count)),
    decreases exprs, count,
{
    if 0 < count <= exprs.len() {
        lemma_exprs_keep_the_scopes(exprs, r, count - 1);
        resolving_an_expression_keeps_the_scopes(exprs[count - 1], resolve_exprs(exprs, r, count - 1));
    }
}

proof fn lemma_params_keep_the_depth(params: Seq<TokenView>, r: ResolverView, count: int)
    ensures
        r.balanced(resolve_params(params, r, count)),
    decreases count,
{
    if 0 < count <= params.len() {
        lemma_params_keep_the_depth(params, r, count - 1);
    }
}

/// The resolver closes every scope that it opens: behind a statement it
/// stands as deep as before it, inside the same functions and classes.
pub proof fn resolving_a_statement_is_balanced(s: StmtView, r: ResolverView)
    ensures
        r.balanced(resolve_stmt(s, r)),
    decreases s, 0int,
{
    match s {
        StmtView::Block { statements } => {
            lemma_stmts_balanced(statements, r.begin_scope(), statements.len() as int);
        },
        StmtView::Class { name, superclass, methods } => {
            let declared = r.enter_class(ClassType::Class).declare(name).define(name);
            assert(declared.classes.drop_last() =~= r.classes);
            let inside = match superclass {
                Some(variable) => {
                    let sub = declared.leave_class().enter_class(ClassType::Subclass);
                    let checked = if variable is Variable && name.lexeme
                        == variable->Variable_name.lexeme {
                        sub.error(name, "A class can't inherit from itself."@)
                    } else {
                        sub
                    };
                    resolving_an_expression_keeps_the_scopes(variable, checked);
                    assert(sub.classes.drop_last() =~= r.classes);
                    resolve_expr(variable, checked).begin_scope().put("super"@, true)
                },
                None => declared,
            };
            let opened = inside.begin_scope().put("this"@, true);
            lemma_methods_balanced(methods, opened, methods.len() as int);
            assert(inside.classes.drop_last() =~= r.classes);
        },
        StmtView::Expression { expression } => resolving_an_expression_keeps_the_scopes(expression, r),
        StmtView::Function(f) => {
            let entered = r.declare(f.name).define(f.name).enter_function(FunctionType::Function);
            lemma_function_balanced(f, entered);
            assert(entered.functions.drop_last() =~= r.functions);
        },
        StmtView::If { condition, then_branch, else_branch } => {
            resolving_an_expression_keeps_the_scopes(condition, r);
            resolving_a_statement_is_balanced(*then_branch, resolve_expr(condition, r));
            match else_branch {
                Some(branch) => resolving_a_statement_is_balanced(
                    *branch,
                    resolve_stmt(*then_branch, resolve_expr(condition, r)),
                ),
                None => {},
            }
        },
        StmtView::Print { expression } => resolving_an_expression_keeps_the_scopes(expression, r),
        StmtView::Return { keyword, value } => {
            let checked = if r.functions.len() == 0 {
                r.error(keyword, "Can't return from top-level code."@)
            } else {
                r
            };
            match value {
                Some(expression) => resolving_an_expression_keeps_the_scopes(
                    expression,
                    if r.functions.len() > 0 && r.functions.last() == FunctionType::Initializer {
                        checked.error(keyword, "Can't return a value from an initializer."@)
                    } else {
                        checked
                    },
                ),
                None => {},
            }
        },
        StmtView::Var { name, initializer } => {
            match initializer {
                Some(expression) => resolving_an_expression_keeps_the_scopes(
                    expression,
                    r.declare(name),
                ),
                None => {},
            }
        },
        StmtView::While { condition, body } => {
            resolving_an_expression_keeps_the_scopes(condition, r);
            resolving_a_statement_is_balanced(*body, resolve_expr(condition, r));
        },
    }
}

proof fn lemma_stmts_balanced(stmts: Seq<StmtView>, r: ResolverView, count: int)
    ensures
        r.balanced(resolve_stmts(stmts, r, count)),
    decreases stmts, count,
{
    if 0 < count <= stmts.len() {
        lemma_stmts_balanced(stmts, r, count - 1);
        resolving_a_statement_is_balanced(stmts[count - 1], resolve_stmts(stmts, r, count - 1));
    }
}

proof fn lemma_function_balanced(f: FunctionView, r: ResolverView)
    ensures
        r.balanced(resolve_function(f, r)),
    decreases f, 0int,
{
    lemma_params_keep_the_depth(f.params, r.begin_scope(), f.params.len() as int);
    lemma_stmts_balanced(
        f.body,
        resolve_params(f.params, r.begin_scope(), f.params.len() as int),
        f.body.len() as int,
    );
}

proof fn lemma_methods_balanced(methods: Seq<FunctionView>, r: ResolverView, count: int)
    ensures
        r.balanced(resolve_methods(methods, r, count)),
    decreases methods, count,
{
    if 0 < count <= methods.len() {
        lemma_methods_balanced(methods, r, count - 1);
        let before = resolve_methods(methods, r, count - 1);
        let entered = before.enter_function(method_kind(methods[count - 1].name.lexeme));
        lemma_function_balanced(methods[count - 1], entered);
        assert(entered.functions.drop_last() =~= before.functions);
    }
}

/// Behind a whole program the resolver stands where it began: in global
/// code it is in global code again, outside any function and class.
pub proof fn resolving_a_program_is_balanced(stmts: Seq<StmtView>, r: ResolverView)
    ensures
        r.balanced(resolve_stmts(stmts, r, stmts.len() as int)),
{
    lemma_stmts_balanced(stmts, r, stmts.len() as int);
}

proof fn lemma_depth_from(r: ResolverView, name: Seq<char>, from: int)
    requires
        0 <= from,
    ensures
        match r.depth_of(name, from) {
            Some(depth) => from <= depth < r.scopes().len() && r.scopes()[r.scopes().len() - 1
                - depth].contains_key(name) && forall|nearer: int|
                from <= nearer < depth ==> !(#[trigger] r.scopes()[r.scopes().len() - 1
                    - nearer]).contains_key(name),
            None => forall|any: int|
                from <= any < r.scopes().len() ==> !(#[trigger] r.scopes()[r.scopes().len() - 1
                    - any]).contains_key(name),
        },
    decreases r.scopes().len() - from,
{
    if from < r.scopes().len() && !r.scopes()[r.scopes().len() - 1 - from].contains_key(name) {
        lemma_depth_from(r, name, from + 1);
    }
}

/// The distance that the resolver records for a reference is that of the
/// nearest scope that has the name: that scope has it, and no scope nearer
/// to the reference has it, so that a binding that shadows another is the
/// one found. Where no scope has the name, nothing is recorded, and the
/// reference is a global one.
pub proof fn resolved_distance_is_the_nearest_scope(r: ResolverView, id: usize, name: Seq<char>)
    requires
        r.scopes().len() <= usize::MAX,
    ensures
        match r.depth_of(name, 0) {
            Some(depth) => {
                &&& 0 <= depth < r.scopes().len()
                &&& r.scopes()[r.scopes().len() - 1 - depth].contains_key(name)
                &&& forall|nearer: int|
                    0 <= nearer < depth ==> !(#[trigger] r.scopes()[r.scopes().len() - 1
                        - nearer]).contains_key(name)
                &&& r.resolve_local(id, name).environment.locals.contains_key(id)
                &&& r.resolve_local(id, name).environment.locals[id] == depth
            },
            None => {
                &&& forall|any: int|
                    0 <= any < r.scopes().len() ==> !(#[trigger] r.scopes()[r.scopes().len() - 1
                        - any]).contains_key(name)
                &&& r.resolve_local(id, name) == r
            },
        },
{
    lemma_depth_from(r, name, 0);
}

} // verus!
